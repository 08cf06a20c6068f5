use lqs::table::{display_rows_from_rows, print, printable_rows, DisplayRow, RecordField, ResultRow};

fn row(columns: &[&str], values: &[Option<&str>]) -> ResultRow {
    ResultRow {
        columns: columns.iter().map(|c| c.to_string()).collect(),
        values: values.iter().map(|v| v.map(|s| s.to_string())).collect(),
    }
}

#[test]
fn empty_result() {
    assert_eq!(print(Vec::new()), "No results returned.");
}

#[test]
fn table_of_two_rows() {
    let rows = vec![
        row(&["id", "name"], &[Some("1"), Some("alice")]),
        row(&["id", "name"], &[Some("22"), None]),
    ];
    let expected = "+--------+\n|id|name |\n+--------+\n|1 |alice|\n|22|     |\n+--------+\nDone.";
    assert_eq!(print(rows), expected);
}

#[test]
fn cells_are_read_by_column_name() {
    let rows = vec![row(&["a", "a"], &[Some("x"), Some("yy")])];
    assert_eq!(print(rows), "+---+\n|a|a|\n+---+\n|x|x|\n+---+\nDone.");
}

#[test]
fn widths_are_counted_in_bytes() {
    let rows = vec![row(&["w"], &[Some("é")])];
    assert_eq!(print(rows), "+--+\n|w |\n+--+\n|é |\n+--+\nDone.");
}

#[test]
fn display_row_of_result_row() {
    let d = DisplayRow::new(&row(&["id", "note"], &[Some("7"), None]));
    assert_eq!(d.raw_row, vec![String::from("7"), String::new()]);
    assert_eq!(d.max_width_per_column, vec![1, 0]);
}

#[test]
fn display_row_for_columns() {
    let d = DisplayRow::for_columns(&vec![String::from("id"), String::from("größe")]);
    assert_eq!(d.raw_row, vec![String::from("id"), String::from("größe")]);
    assert_eq!(d.max_width_per_column, vec![2, 7]);
}

#[test]
fn records_show_id_and_json() {
    let record = vec![
        RecordField { key: String::from("age"), json: String::from("42"), record_id: None },
        RecordField {
            key: String::from("id"),
            json: String::from("{\"tb\":\"person\"}"),
            record_id: Some(String::from("person:tobie")),
        },
        RecordField { key: String::from("name"), json: String::from("\"Tobie\""), record_id: None },
    ];
    let rows = display_rows_from_rows(vec![record]);
    assert_eq!(rows.len(), 1);
    assert_eq!(rows[0].columns, vec!["age", "id", "name"]);
    assert_eq!(
        rows[0].values,
        vec![Some(String::from("42")), Some(String::from("person:tobie")), Some(String::from("\"Tobie\""))]
    );
    assert_eq!(
        print(rows),
        "+------------------------+\n|age|id          |name   |\n+------------------------+\n|42 |person:tobie|\"Tobie\"|\n+------------------------+\nDone."
    );
}

#[test]
fn printable_rows_checks_shape() {
    assert!(printable_rows(&Vec::new()));
    assert!(printable_rows(&vec![row(&["a"], &[Some("1")]), row(&["a"], &[None])]));
    assert!(!printable_rows(&vec![row(&[], &[])]));
    assert!(!printable_rows(&vec![row(&["a"], &[Some("1")]), row(&["a", "b"], &[None, None])]));
    assert!(!printable_rows(&vec![row(&["a", "b"], &[Some("1")])]));
}
