//! Properties of the query translation, over the spec functions that the
//! contract of `lqs::parse` is stated in.

use vstd::prelude::*;
use crate::lqs::{
    ascii_lower, is_keyword, strip_open_paren, keyword_clause, lemma_query_words_all_chars, lemma_query_words_len,
    lemma_subquery_pieces_all_chars, lemma_subquery_shorter, lqs_words, opens_string,
    query_words, run_words, strip_semicolon, subquery_pieces, subquery_text, translate,
    translate_ascii, translate_lowered, unicode_lower, word_step, Clause, Clauses, ParserState,
};
use crate::text::{
    all_chars, ascii_lower_char, ascii_lowercase, ascii_text, ascii_uppercase, ends_with,
    join_spaces, lemma_all_chars_concat, lemma_all_chars_subrange, lemma_ascii_lowercase,
    lemma_ascii_uppercase, lemma_join_spaces_all_chars, lemma_join_spaces_first,
    lemma_split_join, lemma_trim_unchanged, not_upper, starts_with, sum_lens, unicode_lowercase,
    unicode_white_space,
};

verus! {

/// A trailing `;` does not change the translation of a lowered query.
pub proof fn lemma_trailing_semicolon(low: Seq<char>, lower: spec_fn(Seq<char>) -> Seq<char>)
    requires
        !ends_with(low, ';'),
    ensures
        translate_lowered(low.push(';'), lower) == translate_lowered(low, lower),
{
    assert(low.push(';').drop_last() =~= low);
    assert(strip_semicolon(low.push(';')) == strip_semicolon(low));
    assert(query_words(low.push(';')) == query_words(low));
}

/// A word that the parser simply adds to the current clause: any word but
/// exactly `select`, `from` or `where` (so `from_date` is plain), that does
/// not open a parenthesis, and that, if it begins with a double quote, also
/// ends with one (a whole quoted string such as `"tobie"`).
pub open spec fn plain_word(w: Seq<char>) -> bool {
    &&& w != Clause::Select.word()
    &&& w != Clause::From.word()
    &&& w != Clause::Where.word()
    &&& !starts_with(w, '(')
    &&& starts_with(w, '"') ==> ends_with(w, '"')
}

/// Each word after a space.
pub open spec fn spaced(ws: Seq<Seq<char>>) -> Seq<char>
    decreases ws.len(),
{
    if ws.len() == 0 {
        Seq::empty()
    } else {
        spaced(ws.drop_last()) + seq![' '] + ws.last()
    }
}

/// `text` added, as it is, to the current clause.
pub open spec fn extend(acc: Clauses, text: Seq<char>) -> Clauses {
    match acc.state.current_clause {
        Clause::Select => Clauses { select_text: acc.select_text + text, ..acc },
        Clause::From => Clauses { from_text: acc.from_text + text, ..acc },
        Clause::Where => Clauses { where_text: acc.where_text + text, ..acc },
        Clause::Skip => acc,
    }
}

/// A word that does not open a nested query goes through `word_step` alone.
pub proof fn lemma_run_step(ws: Seq<Seq<char>>, n: nat, lower: spec_fn(Seq<char>) -> Seq<char>)
    requires
        0 < n <= ws.len(),
        !starts_with(ws[n - 1], '('),
    ensures
        run_words(ws, n, lower) == word_step(run_words(ws, (n - 1) as nat, lower), ws[n - 1]),
{
}

/// Adding to the current clause, after a space.
pub proof fn lemma_append_extend(acc: Clauses, text: Seq<char>)
    ensures
        acc.append(text) == extend(acc, seq![' '] + text),
{
    assert(acc.select_text + seq![' '] + text =~= acc.select_text + (seq![' '] + text));
    assert(acc.from_text + seq![' '] + text =~= acc.from_text + (seq![' '] + text));
    assert(acc.where_text + seq![' '] + text =~= acc.where_text + (seq![' '] + text));
}

/// Two additions to the current clause are one.
pub proof fn lemma_extend_extend(acc: Clauses, x: Seq<char>, y: Seq<char>)
    ensures
        extend(extend(acc, x), y) == extend(acc, x + y),
{
    assert(acc.select_text + x + y =~= acc.select_text + (x + y));
    assert(acc.from_text + x + y =~= acc.from_text + (x + y));
    assert(acc.where_text + x + y =~= acc.where_text + (x + y));
}

/// A plain word is added, after a space, to the current clause.
pub proof fn lemma_plain_step(acc: Clauses, part: Seq<char>)
    requires
        plain_word(part),
        acc.state.current_clause != Clause::Skip,
        !acc.in_string,
    ensures
        word_step(acc, part) == extend(acc, seq![' '] + part),
{
    lemma_append_extend(acc, part);
}

/// Plain words go, in order and each after a space, to the current clause.
pub proof fn lemma_plain_words(ws: Seq<Seq<char>>, a: nat, b: nat, lower: spec_fn(Seq<char>) -> Seq<char>)
    requires
        a <= b <= ws.len(),
        forall|j: int| a <= j < b ==> plain_word(#[trigger] ws[j]),
        run_words(ws, a, lower).state.current_clause != Clause::Skip,
        !run_words(ws, a, lower).in_string,
    ensures
        run_words(ws, b, lower) == extend(run_words(ws, a, lower), spaced(ws.subrange(a as int, b as int))),
    decreases b - a,
{
    let acc0 = run_words(ws, a, lower);
    if b == a {
        assert(ws.subrange(a as int, b as int) =~= Seq::<Seq<char>>::empty());
        lemma_extend_extend(acc0, Seq::empty(), Seq::empty());
        assert(acc0.select_text + Seq::<char>::empty() =~= acc0.select_text);
        assert(acc0.from_text + Seq::<char>::empty() =~= acc0.from_text);
        assert(acc0.where_text + Seq::<char>::empty() =~= acc0.where_text);
    } else {
        lemma_plain_words(ws, a, (b - 1) as nat, lower);
        let part = ws[b - 1];
        assert(plain_word(part));
        let prev = spaced(ws.subrange(a as int, b - 1));
        let mid = run_words(ws, (b - 1) as nat, lower);
        lemma_run_step(ws, b, lower);
        lemma_plain_step(mid, part);
        lemma_extend_extend(acc0, prev, seq![' '] + part);
        assert(ws.subrange(a as int, b as int).drop_last() =~= ws.subrange(a as int, b - 1));
        assert(spaced(ws.subrange(a as int, b as int)) =~= prev + (seq![' '] + part));
    }
}

/// A keyword outside a quoted string switches to its clause and starts
/// that clause with itself.
pub proof fn lemma_keyword_word(ws: Seq<Seq<char>>, k: nat, c: Clause, lower: spec_fn(Seq<char>) -> Seq<char>)
    requires
        k < ws.len(),
        c != Clause::Skip,
        ws[k as int] == c.word(),
        run_words(ws, k, lower).state.current_clause != Clause::Skip,
        !run_words(ws, k, lower).in_string,
    ensures
        run_words(ws, k + 1, lower) == extend(
            Clauses { state: run_words(ws, k, lower).state.after_set(c), ..run_words(ws, k, lower) },
            seq![' '] + c.word(),
        ),
        run_words(ws, k + 1, lower).state.current_clause == c,
        !run_words(ws, k + 1, lower).in_string,
{
    let part = ws[k as int];
    let acc = run_words(ws, k, lower);
    assert(!starts_with(part, '('));
    assert(!ends_with(part, ')'));
    assert(!opens_string(part));
    assert(is_keyword(part));
    lemma_run_step(ws, k + 1, lower);
    let switched = Clauses { state: acc.state.after_set(c), ..acc };
    assert(word_step(acc, part) == switched.append(part));
    lemma_append_extend(switched, part);
}

/// The standard SQL that an SQL-FWS query `from F where W select S` becomes:
/// ` select S`, then ` from F`, then ` where W`, joined by spaces.
pub open spec fn fws_translation(f: Seq<Seq<char>>, w: Seq<Seq<char>>, s: Seq<Seq<char>>) -> Seq<
    char,
> {
    seq![' '] + Clause::Select.word() + spaced(s) + seq![' '] + seq![' '] + Clause::From.word()
        + spaced(f) + seq![' '] + seq![' '] + Clause::Where.word() + spaced(w)
}

/// The words of a query `from F c1 X c2 Y`: `from`, the table words, the
/// keyword of `c1`, its words, the keyword of `c2`, its words.
pub open spec fn clause_words(
    f: Seq<Seq<char>>,
    c1: Clause,
    x: Seq<Seq<char>>,
    c2: Clause,
    y: Seq<Seq<char>>,
) -> Seq<Seq<char>> {
    seq![Clause::From.word()] + f + seq![c1.word()] + x + seq![c2.word()] + y
}

/// The text gathered for clause `c`.
pub open spec fn clause_text(acc: Clauses, c: Clause) -> Seq<char> {
    match c {
        Clause::Select => acc.select_text,
        Clause::From => acc.from_text,
        _ => acc.where_text,
    }
}

/// Whether `c1` and `c2` are SELECT and WHERE, in either order.
pub open spec fn select_and_where(c1: Clause, c2: Clause) -> bool {
    ||| c1 == Clause::Select && c2 == Clause::Where
    ||| c1 == Clause::Where && c2 == Clause::Select
}

/// In a query `from F c1 X c2 Y` of plain words, where `c1` and `c2` are
/// SELECT and WHERE in either order, each clause gathers its keyword and
/// then its words, each after a space.
pub proof fn lemma_clause_words(
    f: Seq<Seq<char>>,
    c1: Clause,
    x: Seq<Seq<char>>,
    c2: Clause,
    y: Seq<Seq<char>>,
    lower: spec_fn(Seq<char>) -> Seq<char>,
)
    requires
        select_and_where(c1, c2),
        forall|j: int| 0 <= j < f.len() ==> plain_word(#[trigger] f[j]),
        forall|j: int| 0 <= j < x.len() ==> plain_word(#[trigger] x[j]),
        forall|j: int| 0 <= j < y.len() ==> plain_word(#[trigger] y[j]),
    ensures
        ({
            let ws = clause_words(f, c1, x, c2, y);
            let rn = run_words(ws, ws.len(), lower);
            &&& rn.from_text == seq![' '] + Clause::From.word() + spaced(f)
            &&& clause_text(rn, c1) == seq![' '] + c1.word() + spaced(x)
            &&& clause_text(rn, c2) == seq![' '] + c2.word() + spaced(y)
        }),
{
    let ws = clause_words(f, c1, x, c2, y);
    let p1 = 1 + f.len();
    let p2 = p1 + 1 + x.len();
    let n = p2 + 1 + y.len();
    assert(ws.len() == n);
    assert(ws[0] == Clause::From.word());
    assert(ws[p1 as int] == c1.word());
    assert(ws[p2 as int] == c2.word());
    assert(ws.subrange(1, p1 as int) =~= f);
    assert(ws.subrange((p1 + 1) as int, p2 as int) =~= x);
    assert(ws.subrange((p2 + 1) as int, n as int) =~= y);
    assert forall|j: int| 1 <= j < p1 implies plain_word(#[trigger] ws[j]) by {
        assert(ws[j] == f[j - 1]);
    }
    assert forall|j: int| p1 + 1 <= j < p2 implies plain_word(#[trigger] ws[j]) by {
        assert(ws[j] == x[j - p1 - 1]);
    }
    assert forall|j: int| p2 + 1 <= j < n implies plain_word(#[trigger] ws[j]) by {
        assert(ws[j] == y[j - p2 - 1]);
    }
    let r0 = run_words(ws, 0, lower);
    assert(r0 == Clauses::initial());
    lemma_keyword_word(ws, 0, Clause::From, lower);
    let r1 = run_words(ws, 1, lower);
    assert(r1.from_text =~= seq![' '] + Clause::From.word());
    assert(r1.select_text =~= Seq::<char>::empty());
    assert(r1.where_text =~= Seq::<char>::empty());
    lemma_plain_words(ws, 1, p1, lower);
    lemma_keyword_word(ws, p1, c1, lower);
    lemma_plain_words(ws, (p1 + 1) as nat, p2, lower);
    lemma_keyword_word(ws, p2, c2, lower);
    lemma_plain_words(ws, (p2 + 1) as nat, n, lower);
    let rn = run_words(ws, n, lower);
    assert(rn.from_text =~= seq![' '] + Clause::From.word() + spaced(f));
    assert(clause_text(rn, c1) =~= seq![' '] + c1.word() + spaced(x));
    assert(clause_text(rn, c2) =~= seq![' '] + c2.word() + spaced(y));
}

/// The words of an SQL-FWS query: `from`, the table words, `where`, the
/// condition words, `select`, the column words.
pub open spec fn fws_words(f: Seq<Seq<char>>, w: Seq<Seq<char>>, s: Seq<Seq<char>>) -> Seq<
    Seq<char>,
> {
    clause_words(f, Clause::Where, w, Clause::Select, s)
}

/// The words of a query with the SELECT clause before the WHERE clause:
/// `from`, the table words, `select`, the column words, `where`, the
/// condition words.
pub open spec fn fsw_words(f: Seq<Seq<char>>, w: Seq<Seq<char>>, s: Seq<Seq<char>>) -> Seq<
    Seq<char>,
> {
    clause_words(f, Clause::Select, s, Clause::Where, w)
}

/// An SQL-FWS query of plain words is put in select, from, where order.
pub proof fn lemma_fws_words(
    f: Seq<Seq<char>>,
    w: Seq<Seq<char>>,
    s: Seq<Seq<char>>,
    lower: spec_fn(Seq<char>) -> Seq<char>,
)
    requires
        forall|j: int| 0 <= j < f.len() ==> plain_word(#[trigger] f[j]),
        forall|j: int| 0 <= j < w.len() ==> plain_word(#[trigger] w[j]),
        forall|j: int| 0 <= j < s.len() ==> plain_word(#[trigger] s[j]),
    ensures
        lqs_words(fws_words(f, w, s), lower) == fws_translation(f, w, s),
{
    lemma_clause_words(f, Clause::Where, w, Clause::Select, s, lower);
    let ws = fws_words(f, w, s);
    assert(run_words(ws, ws.len(), lower).assemble() =~= fws_translation(f, w, s));
}

/// A query `from F select S where W` of plain words gives the same standard
/// SQL as `from F where W select S`.
pub proof fn lemma_fsw_words(
    f: Seq<Seq<char>>,
    w: Seq<Seq<char>>,
    s: Seq<Seq<char>>,
    lower: spec_fn(Seq<char>) -> Seq<char>,
)
    requires
        forall|j: int| 0 <= j < f.len() ==> plain_word(#[trigger] f[j]),
        forall|j: int| 0 <= j < w.len() ==> plain_word(#[trigger] w[j]),
        forall|j: int| 0 <= j < s.len() ==> plain_word(#[trigger] s[j]),
    ensures
        lqs_words(fsw_words(f, w, s), lower) == fws_translation(f, w, s),
{
    lemma_clause_words(f, Clause::Select, s, Clause::Where, w, lower);
    let ws = fsw_words(f, w, s);
    assert(run_words(ws, ws.len(), lower).assemble() =~= fws_translation(f, w, s));
}

/// The lowered text of words that begins with `from`, has no space inside
/// a word, and does not end with whitespace or `;`, translates as its words.
pub proof fn lemma_query_text(ws: Seq<Seq<char>>, lower: spec_fn(Seq<char>) -> Seq<char>)
    requires
        ws.len() > 0,
        ws[0] == Clause::From.word(),
        forall|j: int| 0 <= j < ws.len() ==> !(#[trigger] ws[j]).contains(' '),
        !unicode_white_space(join_spaces(ws).last()),
        join_spaces(ws).last() != ';',
    ensures
        translate_lowered(join_spaces(ws), lower) == lqs_words(ws, lower),
{
    let q = join_spaces(ws);
    lemma_split_join(ws);
    lemma_join_spaces_first(ws);
    assert(q[0] == q.take(4)[0]);
    assert(q[0] == 'f');
    assert(!unicode_white_space('f'));
    lemma_trim_unchanged(q);
    assert(strip_semicolon(q) == q);
    assert(query_words(q) == ws);
}

/// Plain words without spaces.
pub open spec fn plain_words(ws: Seq<Seq<char>>) -> bool {
    forall|j: int| 0 <= j < ws.len() ==> plain_word(#[trigger] ws[j]) && !ws[j].contains(' ')
}

/// A keyword holds no space.
pub proof fn lemma_keyword_no_space(c: Clause)
    ensures
        !c.word().contains(' '),
{
    assert forall|i: int| 0 <= i < c.word().len() implies c.word()[i] != ' ' by {}
}

/// The text of a query `from F c1 X c2 Y` of plain words without spaces,
/// which does not end with whitespace or `;`, translates as its words.
pub proof fn lemma_clause_query(
    f: Seq<Seq<char>>,
    c1: Clause,
    x: Seq<Seq<char>>,
    c2: Clause,
    y: Seq<Seq<char>>,
    lower: spec_fn(Seq<char>) -> Seq<char>,
)
    requires
        plain_words(f),
        plain_words(x),
        plain_words(y),
        !unicode_white_space(join_spaces(clause_words(f, c1, x, c2, y)).last()),
        join_spaces(clause_words(f, c1, x, c2, y)).last() != ';',
    ensures
        translate_lowered(join_spaces(clause_words(f, c1, x, c2, y)), lower) == lqs_words(
            clause_words(f, c1, x, c2, y),
            lower,
        ),
{
    let ws = clause_words(f, c1, x, c2, y);
    let p1 = 1 + f.len();
    let p2 = p1 + 1 + x.len();
    lemma_keyword_no_space(Clause::From);
    lemma_keyword_no_space(c1);
    lemma_keyword_no_space(c2);
    assert forall|j: int| 0 <= j < ws.len() implies !(#[trigger] ws[j]).contains(' ') by {
        if j == 0 {
            assert(ws[j] == Clause::From.word());
        } else if j < p1 {
            assert(ws[j] == f[j - 1]);
        } else if j == p1 {
            assert(ws[j] == c1.word());
        } else if j < p2 {
            assert(ws[j] == x[j - p1 - 1]);
        } else if j == p2 {
            assert(ws[j] == c2.word());
        } else {
            assert(ws[j] == y[j - p2 - 1]);
        }
    }
    assert(ws[0] == Clause::From.word());
    lemma_query_text(ws, lower);
}

/// The text of an SQL-FWS query: its words joined by single spaces.
pub open spec fn fws_query_text(f: Seq<Seq<char>>, w: Seq<Seq<char>>, s: Seq<Seq<char>>) -> Seq<
    char,
> {
    join_spaces(fws_words(f, w, s))
}

/// The text of a `from F select S where W` query.
pub open spec fn fsw_query_text(f: Seq<Seq<char>>, w: Seq<Seq<char>>, s: Seq<Seq<char>>) -> Seq<
    char,
> {
    join_spaces(fsw_words(f, w, s))
}

/// A lowered SQL-FWS query `from F where W select S` of plain words without
/// spaces, which does not end with whitespace or `;`, translates to
/// ` select S  from F  where W`.
pub proof fn lemma_fws_query(
    f: Seq<Seq<char>>,
    w: Seq<Seq<char>>,
    s: Seq<Seq<char>>,
    lower: spec_fn(Seq<char>) -> Seq<char>,
)
    requires
        plain_words(f),
        plain_words(w),
        plain_words(s),
        !unicode_white_space(fws_query_text(f, w, s).last()),
        fws_query_text(f, w, s).last() != ';',
    ensures
        translate_lowered(fws_query_text(f, w, s), lower) == fws_translation(f, w, s),
{
    lemma_clause_query(f, Clause::Where, w, Clause::Select, s, lower);
    lemma_fws_words(f, w, s, lower);
}

/// A lowered query `from F select S where W` of plain words without spaces,
/// which does not end with whitespace or `;`, translates to
/// ` select S  from F  where W`.
pub proof fn lemma_fsw_query(
    f: Seq<Seq<char>>,
    w: Seq<Seq<char>>,
    s: Seq<Seq<char>>,
    lower: spec_fn(Seq<char>) -> Seq<char>,
)
    requires
        plain_words(f),
        plain_words(w),
        plain_words(s),
        !unicode_white_space(fsw_query_text(f, w, s).last()),
        fsw_query_text(f, w, s).last() != ';',
    ensures
        translate_lowered(fsw_query_text(f, w, s), lower) == fws_translation(f, w, s),
{
    lemma_clause_query(f, Clause::Select, s, Clause::Where, w, lower);
    lemma_fsw_words(f, w, s, lower);
}

/// The order of the WHERE and SELECT clauses after FROM does not change the
/// translation: `from F where W select S` and `from F select S where W` give
/// the same standard SQL.
pub proof fn lemma_clause_order(
    f: Seq<Seq<char>>,
    w: Seq<Seq<char>>,
    s: Seq<Seq<char>>,
    lower: spec_fn(Seq<char>) -> Seq<char>,
)
    requires
        plain_words(f),
        plain_words(w),
        plain_words(s),
        !unicode_white_space(fws_query_text(f, w, s).last()),
        fws_query_text(f, w, s).last() != ';',
        !unicode_white_space(fsw_query_text(f, w, s).last()),
        fsw_query_text(f, w, s).last() != ';',
    ensures
        translate_lowered(fws_query_text(f, w, s), lower) == translate_lowered(
            fsw_query_text(f, w, s),
            lower,
        ),
{
    lemma_fws_query(f, w, s, lower);
    lemma_fsw_query(f, w, s, lower);
}

/// Two queries, in any case, whose lower cases are `from F where W select S`
/// and `from F select S where W` translate alike.
pub proof fn lemma_parse_clause_order(
    q1: Seq<char>,
    q2: Seq<char>,
    f: Seq<Seq<char>>,
    w: Seq<Seq<char>>,
    s: Seq<Seq<char>>,
)
    requires
        unicode_lowercase(q1) == fws_query_text(f, w, s),
        unicode_lowercase(q2) == fsw_query_text(f, w, s),
        plain_words(f),
        plain_words(w),
        plain_words(s),
        !unicode_white_space(fws_query_text(f, w, s).last()),
        fws_query_text(f, w, s).last() != ';',
        !unicode_white_space(fsw_query_text(f, w, s).last()),
        fsw_query_text(f, w, s).last() != ';',
    ensures
        translate(q1) == translate(q2),
{
    lemma_clause_order(f, w, s, unicode_lower());
}

/// Two ASCII queries, in any case, whose lower cases are
/// `from F where W select S` and `from F select S where W` translate alike.
pub proof fn lemma_parse_clause_order_ascii(
    q1: Seq<char>,
    q2: Seq<char>,
    f: Seq<Seq<char>>,
    w: Seq<Seq<char>>,
    s: Seq<Seq<char>>,
)
    requires
        ascii_text(q1),
        ascii_text(q2),
        ascii_lowercase(q1) == fws_query_text(f, w, s),
        ascii_lowercase(q2) == fsw_query_text(f, w, s),
        plain_words(f),
        plain_words(w),
        plain_words(s),
        !unicode_white_space(fws_query_text(f, w, s).last()),
        fws_query_text(f, w, s).last() != ';',
        !unicode_white_space(fsw_query_text(f, w, s).last()),
        fsw_query_text(f, w, s).last() != ';',
    ensures
        translate_ascii(q1) == translate_ascii(q2),
{
    lemma_clause_order(f, w, s, ascii_lower());
}

/// Any query, in any case, whose lower case is an SQL-FWS query
/// `from F where W select S` of plain words without spaces (and does not end
/// with whitespace or `;`) translates to ` select S  from F  where W`.
pub proof fn lemma_parse_fws(
    q: Seq<char>,
    f: Seq<Seq<char>>,
    w: Seq<Seq<char>>,
    s: Seq<Seq<char>>,
)
    requires
        unicode_lowercase(q) == fws_query_text(f, w, s),
        plain_words(f),
        plain_words(w),
        plain_words(s),
        !unicode_white_space(fws_query_text(f, w, s).last()),
        fws_query_text(f, w, s).last() != ';',
    ensures
        translate(q) == fws_translation(f, w, s),
{
    lemma_fws_query(f, w, s, unicode_lower());
}

/// An ASCII query, in any case, whose ASCII lower case is an SQL-FWS query
/// `from F where W select S` of plain words without spaces (and does not end
/// with whitespace or `;`) translates to ` select S  from F  where W`:
/// `parse` lowers ASCII text letter by letter, so keywords are found in any
/// case.
pub proof fn lemma_parse_fws_ascii(
    q: Seq<char>,
    f: Seq<Seq<char>>,
    w: Seq<Seq<char>>,
    s: Seq<Seq<char>>,
)
    requires
        ascii_text(q),
        ascii_lowercase(q) == fws_query_text(f, w, s),
        plain_words(f),
        plain_words(w),
        plain_words(s),
        !unicode_white_space(fws_query_text(f, w, s).last()),
        fws_query_text(f, w, s).last() != ';',
    ensures
        translate_ascii(q) == fws_translation(f, w, s),
{
    lemma_fws_query(f, w, s, ascii_lower());
}

/// Two queries whose lower cases differ only by a trailing `;` translate
/// alike.
pub proof fn lemma_parse_trailing_semicolon(q1: Seq<char>, q2: Seq<char>)
    requires
        !ends_with(unicode_lowercase(q1), ';'),
        unicode_lowercase(q2) == unicode_lowercase(q1).push(';'),
    ensures
        translate(q2) == translate(q1),
{
    lemma_trailing_semicolon(unicode_lowercase(q1), unicode_lower());
}

/// One trailing `;` does not change the translation of an ASCII query.
pub proof fn lemma_parse_trailing_semicolon_ascii(q: Seq<char>)
    requires
        ascii_text(q),
        !ends_with(q, ';'),
    ensures
        translate_ascii(q.push(';')) == translate_ascii(q),
{
    let l = ascii_lowercase(q);
    assert(ascii_lowercase(q.push(';')) =~= l.push(';'));
    if q.len() > 0 {
        assert(l.last() == ascii_lower_char(q.last()));
    }
    lemma_trailing_semicolon(l, ascii_lower());
}

/// ASCII queries that differ only in the case of their letters translate
/// alike.
pub proof fn lemma_parse_case_ascii(q1: Seq<char>, q2: Seq<char>)
    requires
        ascii_text(q1),
        ascii_text(q2),
        ascii_lowercase(q1) == ascii_lowercase(q2),
    ensures
        translate_ascii(q1) == translate_ascii(q2),
{
}

/// An ASCII query and its upper case translate alike.
pub proof fn lemma_parse_upper_case_ascii(q: Seq<char>)
    requires
        ascii_text(q),
    ensures
        ascii_text(ascii_uppercase(q)),
        translate_ascii(ascii_uppercase(q)) == translate_ascii(q),
{
    lemma_ascii_uppercase(q);
}

/// Adding text without capital letters to a clause leaves the clauses
/// without capital letters.
pub proof fn lemma_append_no_upper(acc: Clauses, text: Seq<char>)
    requires
        clauses_no_upper(acc),
        all_chars(text, not_upper()),
    ensures
        clauses_no_upper(acc.append(text)),
{
    lemma_all_chars_concat(seq![' '], text, not_upper());
    lemma_all_chars_concat(acc.select_text, seq![' '] + text, not_upper());
    lemma_all_chars_concat(acc.from_text, seq![' '] + text, not_upper());
    lemma_all_chars_concat(acc.where_text, seq![' '] + text, not_upper());
    assert(acc.select_text + seq![' '] + text =~= acc.select_text + (seq![' '] + text));
    assert(acc.from_text + seq![' '] + text =~= acc.from_text + (seq![' '] + text));
    assert(acc.where_text + seq![' '] + text =~= acc.where_text + (seq![' '] + text));
}

/// Whether no clause text holds a capital letter.
pub open spec fn clauses_no_upper(c: Clauses) -> bool {
    &&& all_chars(c.select_text, not_upper())
    &&& all_chars(c.from_text, not_upper())
    &&& all_chars(c.where_text, not_upper())
}

/// A query without capital letters translates, with nested queries lowered
/// the ASCII way, to text without capital letters.
pub proof fn lemma_translate_no_upper(low: Seq<char>)
    requires
        all_chars(low, not_upper()),
    ensures
        all_chars(translate_lowered(low, ascii_lower()), not_upper()),
    decreases low.len() + 1, 1nat, 0nat,
{
    let ws = query_words(low);
    lemma_query_words_all_chars(low, not_upper());
    if ws.len() > 0 && ws[0] == Clause::From.word() {
        lemma_query_words_len(low);
        lemma_run_no_upper(ws, ws.len());
        let c = run_words(ws, ws.len(), ascii_lower());
        lemma_all_chars_concat(c.select_text, seq![' '], not_upper());
        lemma_all_chars_concat(c.select_text + seq![' '], c.from_text, not_upper());
        lemma_all_chars_concat(c.select_text + seq![' '] + c.from_text, seq![' '], not_upper());
        lemma_all_chars_concat(
            c.select_text + seq![' '] + c.from_text + seq![' '],
            c.where_text,
            not_upper(),
        );
    } else {
        if ends_with(low, ';') {
            assert(low.drop_last() =~= low.subrange(0, low.len() - 1));
            lemma_all_chars_subrange(low, 0, low.len() - 1, not_upper());
        }
    }
}

/// The clauses gathered from words without capital letters, nested queries
/// lowered the ASCII way, hold no capital letter.
pub proof fn lemma_run_no_upper(ws: Seq<Seq<char>>, n: nat)
    requires
        forall|j: int| 0 <= j < ws.len() ==> all_chars(#[trigger] ws[j], not_upper()),
    ensures
        clauses_no_upper(run_words(ws, n, ascii_lower())),
    decreases sum_lens(ws) + ws.len(), 0nat, n,
{
    if n == 0 || n > ws.len() {
        assert(all_chars(Seq::<char>::empty(), not_upper()));
    } else {
        lemma_run_no_upper(ws, (n - 1) as nat);
        let acc = run_words(ws, (n - 1) as nat, ascii_lower());
        let i = n - 1;
        let part = ws[i];
        assert(all_chars(part, not_upper()));
        let acc1 = if starts_with(part, '(') {
            let sub = subquery_text(ws, i);
            let sub_low = ascii_lowercase(sub);
            lemma_subquery_shorter(ws, i);
            lemma_subquery_pieces_all_chars(ws, i, not_upper());
            lemma_join_spaces_all_chars(subquery_pieces(ws, i), not_upper());
            lemma_ascii_lowercase(sub);
            let inner = if sub_low.len() + 1 < sum_lens(ws) + ws.len() {
                lemma_translate_no_upper(sub_low);
                translate_lowered(sub_low, ascii_lower())
            } else {
                lemma_translate_no_upper(sub);
                translate_lowered(sub, ascii_lower())
            };
            let nested = seq!['('] + inner + seq![')'];
            lemma_all_chars_concat(seq!['('], inner, not_upper());
            lemma_all_chars_concat(seq!['('] + inner, seq![')'], not_upper());
            lemma_append_no_upper(acc, nested);
            let appended = acc.append(nested);
            Clauses { state: acc.state.after_set(Clause::Skip), ..appended }
        } else {
            acc
        };
        assert(run_words(ws, n, ascii_lower()) == word_step(acc1, part));
        lemma_append_no_upper(acc1, part);
        let s1 = if opens_string(part) {
            true
        } else if acc1.in_string && ends_with(part, '"') {
            false
        } else {
            acc1.in_string
        };
        let st = if !s1 && is_keyword(part) {
            acc1.state.after_set(keyword_clause(part))
        } else {
            acc1.state
        };
        lemma_append_no_upper(Clauses { state: st, in_string: s1, ..acc1 }, part);
    }
}

/// The translation of an ASCII query holds no capital letter.
pub proof fn lemma_parse_lower_case_ascii(q: Seq<char>)
    requires
        ascii_text(q),
    ensures
        all_chars(translate_ascii(q), not_upper()),
{
    lemma_ascii_lowercase(q);
    lemma_translate_no_upper(ascii_lowercase(q));
}

/// A query whose first word is not `from` (a standard SQL query) comes back
/// lowered, without a trailing `;`, its spacing untouched.
pub proof fn lemma_standard_query(q: Seq<char>)
    requires
        query_words(unicode_lowercase(q))[0] != Clause::From.word(),
    ensures
        translate(q) == strip_semicolon(unicode_lowercase(q)),
{
}

/// The words of a nested query written in parentheses: `(` glued to the
/// front of its first word, `)` to the end of its last.
pub open spec fn nest_words(u: Seq<Seq<char>>) -> Seq<Seq<char>> {
    Seq::new(
        u.len(),
        |j: int|
            {
                let a = if j == 0 {
                    seq!['('] + u[j]
                } else {
                    u[j]
                };
                if j == u.len() - 1 {
                    a + seq![')']
                } else {
                    a
                }
            },
    )
}

/// The words of a query that can stand in parentheses: at least one word,
/// no word with a space, none ending with `)`, none but the first beginning
/// with `(`, and no capital letter.
pub open spec fn nestable(u: Seq<Seq<char>>) -> bool {
    &&& u.len() > 0
    &&& forall|j: int|
        0 <= j < u.len() ==> !(#[trigger] u[j]).contains(' ') && !ends_with(u[j], ')')
            && all_chars(u[j], not_upper())
    &&& forall|j: int| 0 < j < u.len() ==> !starts_with(#[trigger] u[j], '(')
}

/// The nested query that starts at word `i` is made of the words in the
/// parentheses.
pub proof fn lemma_nest_pieces(ws: Seq<Seq<char>>, i: int, u: Seq<Seq<char>>, j: int)
    requires
        nestable(u),
        0 <= i,
        i + u.len() <= ws.len(),
        0 <= j < u.len(),
        forall|m: int| 0 <= m < u.len() ==> ws[i + m] == #[trigger] nest_words(u)[m],
    ensures
        subquery_pieces(ws, i + j) == u.skip(j),
    decreases u.len() - j,
{
    let nw = nest_words(u);
    let last = u.len() - 1;
    assert(ws[i + j] == nw[j]);
    let p = strip_open_paren(ws[i + j]);
    let a = if j == 0 {
        seq!['('] + u[j]
    } else {
        u[j]
    };
    if j == 0 {
        assert(a.drop_first() =~= u[j]);
    }
    if j == last {
        assert(nw[j] == a + seq![')']);
        assert(p =~= u[j] + seq![')']);
        assert(p.drop_last() =~= u[j]);
        assert(u.skip(j) =~= seq![u[j]]);
    } else {
        assert(nw[j] == a);
        assert(p =~= u[j]);
        lemma_nest_pieces(ws, i, u, j + 1);
        assert(u.skip(j) =~= seq![u[j]] + u.skip(j + 1));
    }
}

/// While a nested query is skipped, words that neither open nor close a
/// parenthesis change nothing.
pub proof fn lemma_skip_words(
    ws: Seq<Seq<char>>,
    a: nat,
    b: nat,
    lower: spec_fn(Seq<char>) -> Seq<char>,
)
    requires
        a <= b <= ws.len(),
        run_words(ws, a, lower).state.current_clause == Clause::Skip,
        forall|j: int| a <= j < b ==> !starts_with(#[trigger] ws[j], '(') && !ends_with(ws[j], ')'),
    ensures
        run_words(ws, b, lower) == run_words(ws, a, lower),
    decreases b - a,
{
    if b > a {
        lemma_skip_words(ws, a, (b - 1) as nat, lower);
        assert(!starts_with(ws[b - 1], '(') && !ends_with(ws[b - 1], ')'));
        lemma_run_step(ws, b, lower);
    }
}

/// A nested query in parentheses, met in a clause outside a quoted string,
/// is translated on its own and added in parentheses, after a space, to
/// that clause; after its last word the parser is back in that clause.
pub proof fn lemma_nest_step(ws: Seq<Seq<char>>, i: nat, u: Seq<Seq<char>>)
    requires
        nestable(u),
        i + u.len() <= ws.len(),
        forall|m: int| 0 <= m < u.len() ==> ws[i + m] == #[trigger] nest_words(u)[m],
        run_words(ws, i, ascii_lower()).state.current_clause != Clause::Skip,
    ensures
        ({
            let acc = run_words(ws, i, ascii_lower());
            let nested = seq!['('] + translate_lowered(join_spaces(u), ascii_lower()) + seq![')'];
            run_words(ws, i + u.len(), ascii_lower()) == Clauses {
                state: ParserState {
                    current_clause: acc.state.current_clause,
                    last_clause: Clause::Skip,
                },
                ..acc.append(nested)
            }
        }),
{
    let lower = ascii_lower();
    let nw = nest_words(u);
    let e = i + u.len();
    let acc = run_words(ws, i, lower);
    lemma_nest_pieces(ws, i as int, u, 0);
    assert(u.skip(0) =~= u);
    let sub = subquery_text(ws, i as int);
    assert(sub == join_spaces(u));
    assert forall|j: int| 0 <= j < u.len() implies all_chars(#[trigger] u[j], not_upper()) by {}
    lemma_join_spaces_all_chars(u, not_upper());
    lemma_ascii_lowercase(sub);
    assert(lower(sub) == sub);
    let inner = translate_lowered(join_spaces(u), lower);
    let nested = seq!['('] + inner + seq![')'];
    let open = nw[0];
    assert(ws[i as int] == open);
    assert(starts_with(open, '('));
    let acc1 = Clauses { state: acc.state.after_set(Clause::Skip), ..acc.append(nested) };
    assert(run_words(ws, i + 1, lower) == word_step(acc1, open));
    let closed = Clauses { state: acc1.state.after_set(acc.state.current_clause), ..acc1 };
    if u.len() == 1 {
        assert(ends_with(open, ')'));
    } else {
        assert(open == seq!['('] + u[0]);
        assert(!ends_with(u[0], ')'));
        assert(!ends_with(open, ')'));
        assert(run_words(ws, i + 1, lower) == acc1);
        assert forall|j: int| i + 1 <= j < e - 1 implies !starts_with(#[trigger] ws[j], '(')
            && !ends_with(ws[j], ')') by {
            assert(ws[i + (j - i)] == nw[j - i]);
            assert(nw[j - i] == u[j - i]);
        }
        lemma_skip_words(ws, i + 1, (e - 1) as nat, lower);
        let close = ws[e - 1];
        let ul = u[u.len() - 1];
        assert(ws[i + (u.len() - 1)] == nw[u.len() - 1]);
        assert(close == ul + seq![')']);
        assert(!starts_with(ul, '('));
        assert(!starts_with(close, '(')) by {
            if ul.len() > 0 {
                assert(close[0] == ul[0]);
            }
        }
        assert(ends_with(close, ')'));
        lemma_run_step(ws, e, lower);
    }
    assert(run_words(ws, e, lower) == closed);
}

/// The words of nested queries hold no space.
pub proof fn lemma_nest_no_space(u: Seq<Seq<char>>)
    requires
        nestable(u),
    ensures
        forall|m: int| 0 <= m < u.len() ==> !(#[trigger] nest_words(u)[m]).contains(' '),
{
    let nw = nest_words(u);
    assert forall|m: int| 0 <= m < u.len() implies !(#[trigger] nw[m]).contains(' ') by {
        assert(!u[m].contains(' '));
        if nw[m].contains(' ') {
            let k = choose|k: int| 0 <= k < nw[m].len() && nw[m][k] == ' ';
            if m == 0 {
                if k > 0 && k < 1 + u[m].len() {
                    assert(u[m][k - 1] == ' ');
                }
            } else {
                if k < u[m].len() {
                    assert(u[m][k] == ' ');
                }
            }
        }
    }
}

/// The words of `from F where W (U) V select S`, with the nested query `U`
/// in parentheses in the WHERE clause.
pub open spec fn nested_words(
    f: Seq<Seq<char>>,
    w: Seq<Seq<char>>,
    u: Seq<Seq<char>>,
    v: Seq<Seq<char>>,
    s: Seq<Seq<char>>,
) -> Seq<Seq<char>> {
    seq![Clause::From.word()] + f + seq![Clause::Where.word()] + w + nest_words(u) + v + seq![
        Clause::Select.word(),
    ] + s
}

/// The words of `from F where W (U) V select S` hold no space.
pub proof fn lemma_nested_no_space(
    f: Seq<Seq<char>>,
    w: Seq<Seq<char>>,
    u: Seq<Seq<char>>,
    v: Seq<Seq<char>>,
    s: Seq<Seq<char>>,
)
    requires
        plain_words(f),
        plain_words(w),
        plain_words(v),
        plain_words(s),
        nestable(u),
    ensures
        forall|j: int|
            0 <= j < nested_words(f, w, u, v, s).len() ==> !(#[trigger] nested_words(
                f,
                w,
                u,
                v,
                s,
            )[j]).contains(' '),
{
    let ws = nested_words(f, w, u, v, s);
    let nw = nest_words(u);
    let p1 = 1 + f.len();
    let p2 = p1 + 1 + w.len();
    let e = p2 + u.len();
    let p3 = e + v.len();
    lemma_keyword_no_space(Clause::From);
    lemma_keyword_no_space(Clause::Where);
    lemma_keyword_no_space(Clause::Select);
    lemma_nest_no_space(u);
    assert forall|j: int| 0 <= j < ws.len() implies !(#[trigger] ws[j]).contains(' ') by {
        if j == 0 {
        } else if j < p1 {
            assert(ws[j] == f[j - 1]);
        } else if j == p1 {
        } else if j < p2 {
            assert(ws[j] == w[j - p1 - 1]);
        } else if j < e {
            assert(ws[j] == nw[j - p2]);
        } else if j < p3 {
            assert(ws[j] == v[j - e]);
        } else if j == p3 {
        } else {
            assert(ws[j] == s[j - p3 - 1]);
        }
    }
}

/// The clauses gathered from `from F where W (U) V select S`.
pub proof fn lemma_nested_run(
    f: Seq<Seq<char>>,
    w: Seq<Seq<char>>,
    u: Seq<Seq<char>>,
    v: Seq<Seq<char>>,
    s: Seq<Seq<char>>,
)
    requires
        plain_words(f),
        plain_words(w),
        plain_words(v),
        plain_words(s),
        nestable(u),
    ensures
        ({
            let ws = nested_words(f, w, u, v, s);
            let rn = run_words(ws, ws.len(), ascii_lower());
            let nested = seq!['('] + translate_lowered(join_spaces(u), ascii_lower()) + seq![')'];
            &&& rn.select_text == seq![' '] + Clause::Select.word() + spaced(s)
            &&& rn.from_text == seq![' '] + Clause::From.word() + spaced(f)
            &&& rn.where_text == seq![' '] + Clause::Where.word() + spaced(w) + seq![' '] + nested
                + spaced(v)
        }),
{
    let lower = ascii_lower();
    let ws = nested_words(f, w, u, v, s);
    let nw = nest_words(u);
    let p1 = 1 + f.len();
    let p2 = p1 + 1 + w.len();
    let e = p2 + u.len();
    let p3 = e + v.len();
    let n = p3 + 1 + s.len();
    assert(ws.len() == n);
    assert(ws[0] == Clause::From.word());
    assert(ws[p1 as int] == Clause::Where.word());
    assert(ws[p3 as int] == Clause::Select.word());
    assert(ws.subrange(1, p1 as int) =~= f);
    assert(ws.subrange((p1 + 1) as int, p2 as int) =~= w);
    assert(ws.subrange(e as int, p3 as int) =~= v);
    assert(ws.subrange((p3 + 1) as int, n as int) =~= s);
    assert forall|m: int| 0 <= m < u.len() implies ws[p2 + m] == #[trigger] nw[m] by {}
    assert forall|j: int| 1 <= j < p1 implies plain_word(#[trigger] ws[j]) by {
        assert(ws[j] == f[j - 1]);
    }
    assert forall|j: int| p1 + 1 <= j < p2 implies plain_word(#[trigger] ws[j]) by {
        assert(ws[j] == w[j - p1 - 1]);
    }
    assert forall|j: int| e <= j < p3 implies plain_word(#[trigger] ws[j]) by {
        assert(ws[j] == v[j - e]);
    }
    assert forall|j: int| p3 + 1 <= j < n implies plain_word(#[trigger] ws[j]) by {
        assert(ws[j] == s[j - p3 - 1]);
    }
    // From `from` to the nested query.
    assert(run_words(ws, 0, lower) == Clauses::initial());
    lemma_keyword_word(ws, 0, Clause::From, lower);
    let r1 = run_words(ws, 1, lower);
    assert(r1.from_text =~= seq![' '] + Clause::From.word());
    assert(r1.select_text =~= Seq::<char>::empty());
    assert(r1.where_text =~= Seq::<char>::empty());
    lemma_plain_words(ws, 1, p1, lower);
    lemma_keyword_word(ws, p1, Clause::Where, lower);
    lemma_plain_words(ws, (p1 + 1) as nat, p2, lower);
    let acc = run_words(ws, p2, lower);
    assert(acc.state.current_clause == Clause::Where);
    // The nested query.
    let inner = translate_lowered(join_spaces(u), ascii_lower());
    let nested = seq!['('] + inner + seq![')'];
    lemma_nest_step(ws, p2, u);
    let re = run_words(ws, e, lower);
    assert(re.state.current_clause == Clause::Where);
    assert(!re.in_string);
    lemma_append_extend(acc, nested);
    assert(re.where_text =~= seq![' '] + Clause::Where.word() + spaced(w) + seq![' '] + nested);
    assert(re.from_text =~= seq![' '] + Clause::From.word() + spaced(f));
    assert(re.select_text =~= Seq::<char>::empty());
    // The words after it.
    lemma_plain_words(ws, e, p3, lower);
    lemma_keyword_word(ws, p3, Clause::Select, lower);
    lemma_plain_words(ws, (p3 + 1) as nat, n, lower);
    let rn = run_words(ws, n, lower);
    assert(rn.select_text =~= seq![' '] + Clause::Select.word() + spaced(s));
    assert(rn.from_text =~= seq![' '] + Clause::From.word() + spaced(f));
    assert(rn.where_text =~= seq![' '] + Clause::Where.word() + spaced(w) + seq![' '] + nested
        + spaced(v));
}

/// A nested query is translated on its own and put, in parentheses, in the
/// clause it stands in; the words after it go on in that same clause:
/// `from F where W (U) V select S` becomes
/// ` select S  from F  where W (T) V`, where `T` is the translation of `U`.
#[verifier::spinoff_prover]
#[verifier::rlimit(40)]
pub proof fn lemma_nested_query(
    f: Seq<Seq<char>>,
    w: Seq<Seq<char>>,
    u: Seq<Seq<char>>,
    v: Seq<Seq<char>>,
    s: Seq<Seq<char>>,
)
    requires
        plain_words(f),
        plain_words(w),
        plain_words(v),
        plain_words(s),
        nestable(u),
        !unicode_white_space(join_spaces(nested_words(f, w, u, v, s)).last()),
        join_spaces(nested_words(f, w, u, v, s)).last() != ';',
    ensures
        translate_lowered(join_spaces(nested_words(f, w, u, v, s)), ascii_lower()) == seq![' ']
            + Clause::Select.word() + spaced(s) + seq![' '] + seq![' '] + Clause::From.word()
            + spaced(f) + seq![' '] + seq![' '] + Clause::Where.word() + spaced(w) + seq![' ', '(']
            + translate_lowered(join_spaces(u), ascii_lower()) + seq![')'] + spaced(v),
{
    let ws = nested_words(f, w, u, v, s);
    let lower = ascii_lower();
    let inner = translate_lowered(join_spaces(u), ascii_lower());
    let rn = run_words(ws, ws.len(), lower);
    let expected = seq![' '] + Clause::Select.word() + spaced(s) + seq![' '] + seq![' ']
        + Clause::From.word() + spaced(f) + seq![' '] + seq![' '] + Clause::Where.word() + spaced(w)
        + seq![' ', '('] + inner + seq![')'] + spaced(v);
    assert(translate_lowered(join_spaces(ws), lower) == lqs_words(ws, lower)) by {
        lemma_nested_no_space(f, w, u, v, s);
        assert(ws[0] == Clause::From.word());
        lemma_query_text(ws, lower);
    }
    assert(lqs_words(ws, lower) == rn.assemble());
    assert(rn.assemble() == expected) by {
        lemma_nested_run(f, w, u, v, s);
        assert(rn.assemble() =~= expected);
    }
}

/// A quoted phrase of several words: the first opens a double quote
/// without closing it, the last closes it, none in between ends with a
/// quote, none but the first begins with `(`, and no word holds a space.
/// Keywords may stand inside it.
pub open spec fn quoted_phrase(q: Seq<Seq<char>>) -> bool {
    &&& q.len() >= 2
    &&& starts_with(q[0], '"') && !ends_with(q[0], '"')
    &&& ends_with(q[q.len() - 1], '"')
    &&& forall|j: int| 0 < j < q.len() ==> !starts_with(#[trigger] q[j], '(')
    &&& forall|j: int| 0 < j < q.len() - 1 ==> !ends_with(#[trigger] q[j], '"')
    &&& forall|j: int| 0 <= j < q.len() ==> !(#[trigger] q[j]).contains(' ')
}

/// A word that begins or ends with a double quote is no keyword.
pub proof fn lemma_quote_not_keyword(p: Seq<char>)
    requires
        starts_with(p, '"') || ends_with(p, '"'),
    ensures
        !is_keyword(p),
{
    if is_keyword(p) {
        if p == Clause::Select.word() {
            assert(p[0] == 's' && p.last() == 't');
        } else if p == Clause::From.word() {
            assert(p[0] == 'f' && p.last() == 'm');
        } else {
            assert(p[0] == 'w' && p.last() == 'e');
        }
    }
}

/// Inside a quoted phrase every word is added to the current clause, and
/// the parser stays in the string.
pub proof fn lemma_quote_open(
    ws: Seq<Seq<char>>,
    a: nat,
    q: Seq<Seq<char>>,
    m: nat,
    lower: spec_fn(Seq<char>) -> Seq<char>,
)
    requires
        quoted_phrase(q),
        a + q.len() <= ws.len(),
        a < m < a + q.len(),
        forall|j: int| 0 <= j < q.len() ==> ws[a + j] == #[trigger] q[j],
        run_words(ws, a, lower).state.current_clause != Clause::Skip,
        !run_words(ws, a, lower).in_string,
    ensures
        run_words(ws, m, lower) == (Clauses {
            in_string: true,
            ..extend(run_words(ws, a, lower), spaced(q.take(m - a)))
        }),
    decreases m,
{
    let acc0 = run_words(ws, a, lower);
    let p = q[m - a - 1];
    assert(ws[a + (m - a - 1)] == p);
    if m - a - 1 > 0 {
        assert(!starts_with(p, '('));
    }
    lemma_run_step(ws, m, lower);
    let prev = if m == a + 1 {
        Clauses { in_string: false, ..acc0 }
    } else {
        lemma_quote_open(ws, a, q, (m - 1) as nat, lower);
        Clauses { in_string: true, ..extend(acc0, spaced(q.take(m - a - 1))) }
    };
    if m == a + 1 {
        assert(q.take(0) =~= Seq::<Seq<char>>::empty());
        assert(extend(acc0, Seq::empty()) == acc0) by {
            assert(acc0.select_text + Seq::<char>::empty() =~= acc0.select_text);
            assert(acc0.from_text + Seq::<char>::empty() =~= acc0.from_text);
            assert(acc0.where_text + Seq::<char>::empty() =~= acc0.where_text);
        }
        assert(prev == acc0);
        lemma_quote_not_keyword(p);
    } else {
        assert(!ends_with(p, '"'));
    }
    assert(run_words(ws, (m - 1) as nat, lower) == prev);
    let opened = Clauses { in_string: true, ..prev };
    assert(word_step(prev, p) == opened.append(p));
    lemma_append_extend(opened, p);
    let before = spaced(q.take(m - a - 1));
    lemma_extend_extend(acc0, before, seq![' '] + p);
    assert(q.take(m - a).drop_last() =~= q.take(m - a - 1));
    assert(spaced(q.take(m - a)) =~= before + (seq![' '] + p));
    if m == a + 1 {
        assert(before =~= Seq::<char>::empty());
        assert(extend(acc0, seq![' '] + p) == extend(acc0, before + (seq![' '] + p)));
    }
}

/// A quoted phrase, keywords inside it included, is added as it is to the
/// current clause, and the parser leaves the string after it.
pub proof fn lemma_quoted_phrase(
    ws: Seq<Seq<char>>,
    a: nat,
    q: Seq<Seq<char>>,
    lower: spec_fn(Seq<char>) -> Seq<char>,
)
    requires
        quoted_phrase(q),
        a + q.len() <= ws.len(),
        forall|j: int| 0 <= j < q.len() ==> ws[a + j] == #[trigger] q[j],
        run_words(ws, a, lower).state.current_clause != Clause::Skip,
        !run_words(ws, a, lower).in_string,
    ensures
        run_words(ws, a + q.len(), lower) == extend(run_words(ws, a, lower), spaced(q)),
{
    let acc0 = run_words(ws, a, lower);
    let b = a + q.len();
    lemma_quote_open(ws, a, q, (b - 1) as nat, lower);
    let prev = run_words(ws, (b - 1) as nat, lower);
    let p = q[q.len() - 1];
    assert(ws[a + (q.len() - 1)] == p);
    assert(!starts_with(p, '('));
    lemma_run_step(ws, b, lower);
    lemma_quote_not_keyword(p);
    let closed = Clauses { in_string: false, ..prev };
    assert(word_step(prev, p) == closed.append(p));
    lemma_append_extend(closed, p);
    let before = spaced(q.take(q.len() - 1));
    lemma_extend_extend(acc0, before, seq![' '] + p);
    assert(q.drop_last() =~= q.take(q.len() - 1));
    assert(spaced(q) =~= before + (seq![' '] + p));
}

/// The words of `from F where W Q select S`, where `Q` is a quoted phrase.
pub open spec fn quoted_words(
    f: Seq<Seq<char>>,
    w: Seq<Seq<char>>,
    q: Seq<Seq<char>>,
    s: Seq<Seq<char>>,
) -> Seq<Seq<char>> {
    seq![Clause::From.word()] + f + seq![Clause::Where.word()] + w + q + seq![
        Clause::Select.word(),
    ] + s
}

/// Keywords inside a quoted string do not switch clauses:
/// `from F where W Q select S`, with `Q` a quoted phrase such as
/// `"from x select"`, becomes ` select S  from F  where W Q`.
pub proof fn lemma_quoted_query(
    f: Seq<Seq<char>>,
    w: Seq<Seq<char>>,
    q: Seq<Seq<char>>,
    s: Seq<Seq<char>>,
    lower: spec_fn(Seq<char>) -> Seq<char>,
)
    requires
        plain_words(f),
        plain_words(w),
        plain_words(s),
        quoted_phrase(q),
        !unicode_white_space(join_spaces(quoted_words(f, w, q, s)).last()),
        join_spaces(quoted_words(f, w, q, s)).last() != ';',
    ensures
        translate_lowered(join_spaces(quoted_words(f, w, q, s)), lower) == seq![' ']
            + Clause::Select.word() + spaced(s) + seq![' '] + seq![' '] + Clause::From.word()
            + spaced(f) + seq![' '] + seq![' '] + Clause::Where.word() + spaced(w) + spaced(q),
{
    let ws = quoted_words(f, w, q, s);
    let p1 = 1 + f.len();
    let p2 = p1 + 1 + w.len();
    let e = p2 + q.len();
    let n = e + 1 + s.len();
    assert(ws.len() == n);
    assert(ws[0] == Clause::From.word());
    assert(ws[p1 as int] == Clause::Where.word());
    assert(ws[e as int] == Clause::Select.word());
    assert(ws.subrange(1, p1 as int) =~= f);
    assert(ws.subrange((p1 + 1) as int, p2 as int) =~= w);
    assert(ws.subrange((e + 1) as int, n as int) =~= s);
    assert forall|j: int| 0 <= j < q.len() implies ws[p2 + j] == #[trigger] q[j] by {}
    assert forall|j: int| 1 <= j < p1 implies plain_word(#[trigger] ws[j]) by {
        assert(ws[j] == f[j - 1]);
    }
    assert forall|j: int| p1 + 1 <= j < p2 implies plain_word(#[trigger] ws[j]) by {
        assert(ws[j] == w[j - p1 - 1]);
    }
    assert forall|j: int| e + 1 <= j < n implies plain_word(#[trigger] ws[j]) by {
        assert(ws[j] == s[j - e - 1]);
    }
    assert(run_words(ws, 0, lower) == Clauses::initial());
    lemma_keyword_word(ws, 0, Clause::From, lower);
    let r1 = run_words(ws, 1, lower);
    assert(r1.from_text =~= seq![' '] + Clause::From.word());
    assert(r1.select_text =~= Seq::<char>::empty());
    assert(r1.where_text =~= Seq::<char>::empty());
    lemma_plain_words(ws, 1, p1, lower);
    lemma_keyword_word(ws, p1, Clause::Where, lower);
    lemma_plain_words(ws, (p1 + 1) as nat, p2, lower);
    lemma_quoted_phrase(ws, p2, q, lower);
    lemma_keyword_word(ws, e, Clause::Select, lower);
    lemma_plain_words(ws, (e + 1) as nat, n, lower);
    let rn = run_words(ws, n, lower);
    assert(rn.select_text =~= seq![' '] + Clause::Select.word() + spaced(s));
    assert(rn.from_text =~= seq![' '] + Clause::From.word() + spaced(f));
    assert(rn.where_text =~= seq![' '] + Clause::Where.word() + spaced(w) + spaced(q));
    lemma_keyword_no_space(Clause::From);
    lemma_keyword_no_space(Clause::Where);
    lemma_keyword_no_space(Clause::Select);
    assert forall|j: int| 0 <= j < ws.len() implies !(#[trigger] ws[j]).contains(' ') by {
        if j == 0 {
        } else if j < p1 {
            assert(ws[j] == f[j - 1]);
        } else if j == p1 {
        } else if j < p2 {
            assert(ws[j] == w[j - p1 - 1]);
        } else if j < e {
            assert(ws[j] == q[j - p2]);
        } else if j == e {
        } else {
            assert(ws[j] == s[j - e - 1]);
        }
    }
    lemma_query_text(ws, lower);
    assert(rn.assemble() =~= seq![' '] + Clause::Select.word() + spaced(s) + seq![' '] + seq![' ']
        + Clause::From.word() + spaced(f) + seq![' '] + seq![' '] + Clause::Where.word() + spaced(w)
        + spaced(q));
}

} // verus!
