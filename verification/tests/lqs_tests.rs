use lqs::lqs::{parse, parse_lowered, Clause, ParserState};

#[test]
fn basic_query() {
    let query = String::from("from table where id > 5 select *");
    let result = parse(query);
    let expected = String::from(" select *  from table  where id > 5");
    assert_eq!(result, expected);
}

#[test]
fn normal_basic_query() {
    let query = String::from("select * from table where id > 5");
    let result = parse(query);
    let expected = String::from("select * from table where id > 5");
    assert_eq!(result, expected);
}

#[test]
fn semicolon_end_query() {
    let query = String::from("from table where id > 5 select *;");
    let result = parse(query);
    let expected = String::from(" select *  from table  where id > 5");
    assert_eq!(result, expected);
}

#[test]
fn subquery_query() {
    let query = String::from(
        "from table join table2 on i =i where id in (from event select id) select *",
    );
    let result = parse(query);
    let expected = String::from(
        " select *  from table join table2 on i =i  where id in ( select id  from event )",
    );
    assert_eq!(result, expected);
}

#[test]
fn upper_case_query_is_lowered() {
    let result = parse(String::from("FROM Users WHERE Id = 1 SELECT Name"));
    assert_eq!(result, String::from(" select name  from users  where id = 1"));
}

#[test]
fn standard_query_keeps_spacing_and_drops_semicolon() {
    let result = parse(String::from("  SELECT a  FROM b;"));
    assert_eq!(result, String::from("  select a  from b"));
}

#[test]
fn outer_whitespace_is_trimmed_for_lqs() {
    let result = parse(String::from("\t from t select a \n"));
    assert_eq!(result, String::from(" select a  from t "));
}

#[test]
fn query_without_where() {
    let result = parse(String::from("from t select a, b"));
    assert_eq!(result, String::from(" select a, b  from t "));
}

#[test]
fn keywords_inside_quotes_are_kept() {
    let result = parse(String::from("from t where name = \"from x select\" select id"));
    assert_eq!(
        result,
        String::from(" select id  from t  where name = \"from x select\"")
    );
}

#[test]
fn double_space_gives_empty_word() {
    let result = parse(String::from("from a  select b"));
    assert_eq!(result, String::from(" select b  from a  "));
}

#[test]
fn single_word_subquery() {
    let result = parse(String::from("from (t) select x"));
    assert_eq!(result, String::from(" select x  from (t) "));
}

#[test]
fn empty_query() {
    assert_eq!(parse(String::from("")), String::from(""));
    assert_eq!(parse(String::from(";")), String::from(""));
}

#[test]
fn clause_keywords() {
    assert_eq!(Clause::Select.as_str(), "select");
    assert_eq!(Clause::From.as_str(), "from");
    assert_eq!(Clause::Where.as_str(), "where");
    assert_eq!(Clause::Skip.as_str(), "skip");
}

#[test]
fn parser_state_set_remembers_previous_clause() {
    let mut state = ParserState::new();
    assert!(state.current_clause == Clause::From && state.last_clause == Clause::From);
    state.set(Clause::Where);
    assert!(state.current_clause == Clause::Where && state.last_clause == Clause::From);
    state.set(Clause::Skip);
    assert!(state.current_clause == Clause::Skip && state.last_clause == Clause::Where);
}

#[test]
fn readme_example_upper_case() {
    let result = parse(String::from("FROM table WHERE id = 1 SELECT id"));
    assert_eq!(result, String::from(" select id  from table  where id = 1"));
}

#[test]
fn select_before_where_gives_same_query() {
    let a = parse(String::from("from orders where total > 10 select id, total"));
    let b = parse(String::from("from orders select id, total where total > 10"));
    assert_eq!(a, b);
    assert_eq!(a, String::from(" select id, total  from orders  where total > 10"));
}

#[test]
fn keywords_in_any_case() {
    assert_eq!(
        parse(String::from("From T Where x = 1 Select y")),
        parse(String::from("from t where x = 1 select y"))
    );
}

#[test]
fn parse_lowered_keeps_case() {
    assert_eq!(
        parse_lowered(String::from("from T select A")),
        String::from(" select A  from T ")
    );
    assert_eq!(parse_lowered(String::from("SELECT 1;")), String::from("SELECT 1"));
}

#[test]
fn whitespace_characters_are_trimmed() {
    assert_eq!(
        parse(String::from("\u{3000}from t select a\u{a0}")),
        String::from(" select a  from t ")
    );
}

#[test]
fn nested_upper_case_query_is_lowered() {
    let result = parse(String::from("FROM T WHERE ID IN (FROM E SELECT ID) SELECT *"));
    assert_eq!(
        result,
        String::from(" select *  from t  where id in ( select id  from e )")
    );
    assert!(!result.chars().any(|c| c.is_ascii_uppercase()));
}

#[test]
fn trailing_semicolon_ignored_in_any_case() {
    let a = parse(String::from("FROM T SELECT A;"));
    let b = parse(String::from("FROM T SELECT A"));
    assert_eq!(a, b);
    assert_eq!(a, String::from(" select a  from t "));
}

#[test]
fn upper_case_copy_translates_alike() {
    let q = String::from("from orders where total > (from limits select max) select id");
    let upper = q.to_ascii_uppercase();
    assert_eq!(parse(upper), parse(q.clone()));
    assert_eq!(
        parse(q),
        String::from(" select id  from orders  where total > ( select max  from limits )")
    );
}
