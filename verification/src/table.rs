//! The text table in which the rows of a query result are shown.
//!
//! Each column is as wide as its widest cell or its name, measured in bytes;
//! cells are padded on the right to that width, the table is framed by
//! `+---+` borders and `|` dividers, and it ends with `Done.`.

use vstd::prelude::*;
use vstd::utf8::{encode_utf8, is_ascii_chars, is_ascii_chars_encode_utf8};
use crate::text::{append_chars, chars_eq, chars_of, string_of};

verus! {

/// One row of a query result as plain values: the names of its columns and,
/// for each column, its text (`None` for NULL).
#[derive(Debug)]
pub struct ResultRow {
    pub columns: Vec<String>,
    pub values: Vec<Option<String>>,
}

impl ResultRow {
    /// Every column has a value.
    pub open spec fn wf(self) -> bool {
        self.values.len() == self.columns.len()
    }
}

/// The cells of one table line and the width in bytes of each.
#[derive(Debug)]
pub struct DisplayRow {
    pub raw_row: Vec<String>,
    pub max_width_per_column: Vec<usize>,
}

/// Length in bytes of the UTF-8 encoding of `s`, as `str::len` gives it.
pub open spec fn text_len(s: Seq<char>) -> usize {
    encode_utf8(s).len() as usize
}

/// The first column from `j` on that is called `name` (or the number of
/// columns, when none is).
pub open spec fn first_named(columns: Seq<String>, name: Seq<char>, j: int) -> int
    decreases columns.len() - j,
{
    if j < 0 || j >= columns.len() {
        columns.len() as int
    } else if columns[j]@ == name {
        j
    } else {
        first_named(columns, name, j + 1)
    }
}

pub proof fn lemma_first_named(columns: Seq<String>, name: Seq<char>, j: int, k: int)
    requires
        0 <= j <= k < columns.len(),
        columns[k]@ == name,
    ensures
        j <= first_named(columns, name, j) <= k,
        columns[first_named(columns, name, j)]@ == name,
        forall|m: int| j <= m < first_named(columns, name, j) ==> columns[m]@ != name,
    decreases k - j,
{
    if columns[j]@ != name {
        lemma_first_named(columns, name, j + 1, k);
    }
}

/// The text shown for column `k` of a row: the value of the first column
/// with the same name (a row is read by column name), or nothing for NULL.
pub open spec fn cell_text(row: ResultRow, k: int) -> Seq<char> {
    match row.values@[first_named(row.columns@, row.columns@[k]@, 0)] {
        Some(s) => s@,
        None => Seq::empty(),
    }
}

impl DisplayRow {
    /// The cells of a result row.
    pub fn new(row: &ResultRow) -> (d: DisplayRow)
        requires
            row.wf(),
        ensures
            d.raw_row.len() == row.columns.len(),
            d.max_width_per_column.len() == row.columns.len(),
            forall|k: int|
                0 <= k < row.columns.len() ==> #[trigger] d.raw_row@[k]@ == cell_text(*row, k)
                    && d.max_width_per_column@[k] == text_len(cell_text(*row, k)),
    {
        let mut raw_row: Vec<String> = Vec::new();
        let mut widths: Vec<usize> = Vec::new();
        let mut k: usize = 0;
        while k < row.columns.len()
            invariant
                row.wf(),
                k <= row.columns.len(),
                raw_row.len() == k,
                widths.len() == k,
                forall|m: int|
                    0 <= m < k ==> #[trigger] raw_row@[m]@ == cell_text(*row, m)
                        && widths@[m] == text_len(cell_text(*row, m)),
            decreases row.columns.len() - k,
        {
            // A row is read by column name: the first column so named gives the value.
            let name = &row.columns[k];
            let mut j: usize = 0;
            proof {
                lemma_first_named(row.columns@, name@, 0, k as int);
            }
            while !(row.columns[j] == *name)
                invariant
                    row.wf(),
                    k < row.columns.len(),
                    name@ == row.columns@[k as int]@,
                    0 <= j <= first_named(row.columns@, name@, 0) <= k,
                    forall|m: int|
                        0 <= m < first_named(row.columns@, name@, 0) ==> row.columns@[m]@
                            != name@,
                    row.columns@[first_named(row.columns@, name@, 0)]@ == name@,
                decreases k - j,
            {
                j = j + 1;
            }
            let text = match &row.values[j] {
                Some(v) => v.clone(),
                None => String::new(),
            };
            let width = text.as_str().len();
            raw_row.push(text);
            widths.push(width);
            k = k + 1;
        }
        DisplayRow { raw_row, max_width_per_column: widths }
    }

    /// The column names, as the header line of the table.
    pub fn for_columns(columns: &Vec<String>) -> (d: DisplayRow)
        ensures
            d.raw_row.len() == columns.len(),
            d.max_width_per_column.len() == columns.len(),
            forall|k: int|
                0 <= k < columns.len() ==> #[trigger] d.raw_row@[k]@ == columns@[k]@
                    && d.max_width_per_column@[k] == text_len(columns@[k]@),
    {
        let mut raw_row: Vec<String> = Vec::new();
        let mut widths: Vec<usize> = Vec::new();
        let mut k: usize = 0;
        while k < columns.len()
            invariant
                k <= columns.len(),
                raw_row.len() == k,
                widths.len() == k,
                forall|m: int|
                    0 <= m < k ==> #[trigger] raw_row@[m]@ == columns@[m]@ && widths@[m]
                        == text_len(columns@[m]@),
            decreases columns.len() - k,
        {
            let name = columns[k].clone();
            let width = name.as_str().len();
            raw_row.push(name);
            widths.push(width);
            k = k + 1;
        }
        DisplayRow { raw_row, max_width_per_column: widths }
    }
}

pub open spec fn max_nat(a: nat, b: nat) -> nat {
    if a >= b {
        a
    } else {
        b
    }
}

/// The widest cell of column `k` among the first `n` rows.
pub open spec fn widest_cell(rows: Seq<ResultRow>, k: int, n: nat) -> nat
    decreases n,
{
    if n == 0 || n > rows.len() {
        0
    } else {
        max_nat(widest_cell(rows, k, (n - 1) as nat), text_len(cell_text(rows[n - 1], k)) as nat)
    }
}

/// The width of column `k`: that of its widest cell or of its name.
pub open spec fn column_width(rows: Seq<ResultRow>, k: int) -> nat {
    max_nat(widest_cell(rows, k, rows.len()), text_len(rows[0].columns@[k]@) as nat)
}

/// The widths of all columns; the first row names them.
pub open spec fn column_widths(rows: Seq<ResultRow>) -> Seq<nat> {
    Seq::new(rows[0].columns.len() as nat, |k: int| column_width(rows, k))
}

/// The sum of some widths.
pub open spec fn sum_nats(ws: Seq<nat>) -> nat
    decreases ws.len(),
{
    if ws.len() == 0 {
        0
    } else {
        sum_nats(ws.drop_last()) + ws.last()
    }
}

/// The number of columns a text takes on screen, as the `unicode-width`
/// crate measures it (without assuming a CJK context).
pub uninterp spec fn unicode_width(s: Seq<char>) -> nat;

/// Whether every character of `s` is printable ASCII, U+0020 to U+007E.
pub open spec fn printable_ascii(s: Seq<char>) -> bool {
    forall|i: int| 0 <= i < s.len() ==> ' ' <= #[trigger] s[i] && s[i] <= '~'
}

/// The number of columns `s` takes on screen: one for each character of
/// printable ASCII text, `unicode_width` for any other text.
pub open spec fn display_width(s: Seq<char>) -> nat {
    if printable_ascii(s) {
        s.len()
    } else {
        unicode_width(s)
    }
}

/// `s` followed by enough spaces to take `width` columns on screen; a text
/// that is already that wide is left as it is.
pub open spec fn padded(s: Seq<char>, width: nat) -> Seq<char> {
    if display_width(s) >= width {
        s
    } else {
        s + Seq::new((width - display_width(s)) as nat, |i: int| ' ')
    }
}

/// `pad::PadStr::pad_to_width`: pads on the right with spaces up to `width`
/// screen columns and never cuts. Screen columns are those of the
/// `unicode-width` crate, named `unicode_width` and not written out here;
/// printable ASCII text takes one column per character (`str_width` counts
/// U+0020 to U+007E as one column each).
#[verifier::external_body]
fn pad_to_width(s: &str, width: usize) -> (r: String)
    ensures
        unicode_width(s@) >= width ==> r@ == s@,
        unicode_width(s@) < width ==> r@ == s@ + Seq::new(
            (width - unicode_width(s@)) as nat,
            |i: int| ' ',
        ),
        printable_ascii(s@) && s@.len() >= width ==> r@ == s@,
        printable_ascii(s@) && s@.len() < width ==> r@ == s@ + Seq::new(
            (width - s@.len()) as nat,
            |i: int| ' ',
        ),
{
    pad::PadStr::pad_to_width(s, width)
}

/// The frame line: `+`, a dash for every byte of every column and for every
/// divider between columns, `+`.
pub open spec fn border(widths: Seq<nat>) -> Seq<char> {
    seq!['+'] + Seq::new((sum_nats(widths) + widths.len() - 1) as nat, |i: int| '-') + seq!['+']
}

/// The first `n` cells of a line, each after a divider.
pub open spec fn cells_line(texts: Seq<Seq<char>>, widths: Seq<nat>, n: nat) -> Seq<char>
    decreases n,
{
    if n == 0 {
        Seq::empty()
    } else {
        cells_line(texts, widths, (n - 1) as nat) + seq!['|'] + padded(texts[n - 1], widths[n - 1])
    }
}

/// A line of the table: every cell padded to its column's width, between
/// dividers.
pub open spec fn table_line(texts: Seq<Seq<char>>, widths: Seq<nat>) -> Seq<char> {
    cells_line(texts, widths, widths.len()) + seq!['|']
}

/// The names of the columns.
pub open spec fn header_cells(rows: Seq<ResultRow>) -> Seq<Seq<char>> {
    Seq::new(rows[0].columns.len() as nat, |k: int| rows[0].columns@[k]@)
}

/// The cells of a row.
pub open spec fn row_cells(row: ResultRow) -> Seq<Seq<char>> {
    Seq::new(row.columns.len() as nat, |k: int| cell_text(row, k))
}

/// The lines of the first `n` rows, one below the other.
pub open spec fn row_lines(rows: Seq<ResultRow>, widths: Seq<nat>, n: nat) -> Seq<char>
    decreases n,
{
    if n == 0 {
        Seq::empty()
    } else if n == 1 {
        table_line(row_cells(rows[0]), widths)
    } else {
        row_lines(rows, widths, (n - 1) as nat) + seq!['\n'] + table_line(
            row_cells(rows[n - 1]),
            widths,
        )
    }
}

pub open spec fn no_results_text() -> Seq<char> {
    seq!['N', 'o', ' ', 'r', 'e', 's', 'u', 'l', 't', 's', ' ', 'r', 'e', 't', 'u', 'r', 'n', 'e', 'd', '.']
}

pub open spec fn done_text() -> Seq<char> {
    seq!['D', 'o', 'n', 'e', '.']
}

/// The table of a query result: a border, the column names, a border, the
/// rows, a border and `Done.`; or a note that there were no rows.
pub open spec fn render_table(rows: Seq<ResultRow>) -> Seq<char> {
    if rows.len() == 0 {
        no_results_text()
    } else {
        let w = column_widths(rows);
        let b = border(w);
        b + seq!['\n'] + table_line(header_cells(rows), w) + seq!['\n'] + b + seq!['\n'] + row_lines(
            rows,
            w,
            rows.len(),
        ) + seq!['\n'] + b + seq!['\n'] + done_text()
    }
}

/// Each row has a value for each of its columns, and all have the columns of
/// the first.
pub open spec fn same_shape(rows: Seq<ResultRow>) -> bool {
    forall|r: int|
        0 <= r < rows.len() ==> (#[trigger] rows[r]).wf() && rows[r].columns.len()
            == rows[0].columns.len()
}

/// The rows of one result: each has a value for each of its columns, all have
/// the columns of the first, there is at least one column, and the table is
/// not wider than an index can count.
pub open spec fn printable(rows: Seq<ResultRow>) -> bool {
    &&& same_shape(rows)
    &&& rows.len() > 0 ==> rows[0].columns.len() > 0 && sum_nats(column_widths(rows))
        + rows[0].columns.len() + 1 <= usize::MAX
}

/// The character sequences of some strings.
pub open spec fn strings_view(v: Seq<String>) -> Seq<Seq<char>> {
    Seq::new(v.len(), |i: int| v[i]@)
}

/// Some widths as natural numbers.
pub open spec fn widths_view(v: Seq<usize>) -> Seq<nat> {
    Seq::new(v.len(), |i: int| v[i] as nat)
}

/// A line of the table.
fn line_chars(texts: &Vec<String>, widths: &Vec<usize>) -> (r: Vec<char>)
    requires
        texts.len() == widths.len(),
    ensures
        r@ == table_line(strings_view(texts@), widths_view(widths@)),
{
    let ghost tv = strings_view(texts@);
    let ghost wv = widths_view(widths@);
    let mut r: Vec<char> = Vec::new();
    let mut k: usize = 0;
    while k < widths.len()
        invariant
            texts.len() == widths.len(),
            k <= widths.len(),
            tv == strings_view(texts@),
            wv == widths_view(widths@),
            r@ == cells_line(tv, wv, k as nat),
        decreases widths.len() - k,
    {
        r.push('|');
        let cell = pad_to_width(texts[k].as_str(), widths[k]);
        let cell_chars = chars_of(cell.as_str());
        append_chars(&mut r, &cell_chars);
        assert(r@ =~= cells_line(tv, wv, (k + 1) as nat));
        k = k + 1;
    }
    r.push('|');
    r
}

/// Whether `d` shows `row`.
pub open spec fn shows(d: DisplayRow, row: ResultRow) -> bool {
    &&& d.raw_row.len() == row.columns.len()
    &&& d.max_width_per_column.len() == row.columns.len()
    &&& forall|k: int|
        0 <= k < row.columns.len() ==> #[trigger] d.raw_row@[k]@ == cell_text(row, k)
            && d.max_width_per_column@[k] == text_len(cell_text(row, k))
}

/// The cells of every row.
fn display_rows_of(rows: &Vec<ResultRow>) -> (display_rows: Vec<DisplayRow>)
    requires
        same_shape(rows@),
    ensures
        display_rows.len() == rows.len(),
        forall|m: int| 0 <= m < rows.len() ==> shows(#[trigger] display_rows@[m], rows@[m]),
{
    let ghost rs = rows@;
    let mut display_rows: Vec<DisplayRow> = Vec::new();
    let mut i: usize = 0;
    while i < rows.len()
        invariant
            rs == rows@,
            same_shape(rs),
            i <= rows.len(),
            display_rows.len() == i,
            forall|m: int| 0 <= m < i ==> shows(#[trigger] display_rows@[m], rs[m]),
        decreases rows.len() - i,
    {
        assert(rs[i as int].wf());
        let d = DisplayRow::new(&rows[i]);
        display_rows.push(d);
        assert(shows(display_rows@[i as int], rs[i as int]));
        i = i + 1;
    }
    display_rows
}

/// The width of every column.
fn column_widths_of(rows: &Vec<ResultRow>, display_rows: &Vec<DisplayRow>) -> (col_widths: Vec<
    usize,
>)
    requires
        rows.len() > 0,
        same_shape(rows@),
        display_rows.len() == rows.len(),
        forall|m: int| 0 <= m < rows.len() ==> shows(#[trigger] display_rows@[m], rows@[m]),
    ensures
        col_widths.len() == rows@[0].columns.len(),
        widths_view(col_widths@) == column_widths(rows@),
{
    let ghost rs = rows@;
    let n = rows[0].columns.len();
    let column_display_row = DisplayRow::for_columns(&rows[0].columns);
    // Width of each column: its widest cell, then its name.
    let mut col_widths: Vec<usize> = vec![0; n];
    let mut r: usize = 0;
    while r < display_rows.len()
        invariant
            rs == rows@,
            same_shape(rs),
            n == rs[0].columns.len(),
            display_rows.len() == rs.len(),
            forall|m: int| 0 <= m < rs.len() ==> shows(#[trigger] display_rows@[m], rs[m]),
            r <= rs.len(),
            col_widths.len() == n,
            forall|k: int| 0 <= k < n ==> col_widths@[k] == widest_cell(rs, k, r as nat),
        decreases rs.len() - r,
    {
        let drow = &display_rows[r];
        assert(shows(display_rows@[r as int], rs[r as int]));
        assert(rs[r as int].columns.len() == n);
        let mut k: usize = 0;
        while k < n
            invariant
                same_shape(rs),
                n == rs[0].columns.len(),
                r < rs.len(),
                shows(*drow, rs[r as int]),
                rs[r as int].columns.len() == n,
                k <= n,
                col_widths.len() == n,
                forall|m: int| 0 <= m < k ==> col_widths@[m] == widest_cell(rs, m, (r + 1) as nat),
                forall|m: int| k <= m < n ==> col_widths@[m] == widest_cell(rs, m, r as nat),
            decreases n - k,
        {
            let width = drow.max_width_per_column[k];
            assert(drow.raw_row@[k as int]@ == cell_text(rs[r as int], k as int));
            assert(width == text_len(cell_text(rs[r as int], k as int)));
            if col_widths[k] < width {
                col_widths.set(k, width);
            }
            k = k + 1;
        }
        r = r + 1;
    }
    let mut k: usize = 0;
    while k < n
        invariant
            rs == rows@,
            n == rs[0].columns.len(),
            rs.len() > 0,
            column_display_row.raw_row.len() == n,
            column_display_row.max_width_per_column.len() == n,
            forall|m: int|
                0 <= m < n ==> #[trigger] column_display_row.raw_row@[m]@ == rs[0].columns@[m]@
                    && column_display_row.max_width_per_column@[m] == text_len(
                    rs[0].columns@[m]@,
                ),
            k <= n,
            col_widths.len() == n,
            forall|m: int| 0 <= m < k ==> col_widths@[m] == column_width(rs, m),
            forall|m: int| k <= m < n ==> col_widths@[m] == widest_cell(rs, m, rs.len()),
        decreases n - k,
    {
        let width = column_display_row.max_width_per_column[k];
        assert(column_display_row.raw_row@[k as int]@ == rs[0].columns@[k as int]@);
        if col_widths[k] < width {
            col_widths.set(k, width);
        }
        k = k + 1;
    }
    assert(widths_view(col_widths@) =~= column_widths(rs));
    col_widths
}

/// Whether `print` can render the rows: `printable`, checked.
pub fn printable_rows(rows: &Vec<ResultRow>) -> (b: bool)
    ensures
        b == printable(rows@),
{
    if rows.len() == 0 {
        return true;
    }
    let ghost rs = rows@;
    let n = rows[0].columns.len();
    let mut r: usize = 0;
    while r < rows.len()
        invariant
            rs == rows@,
            rs.len() > 0,
            n == rs[0].columns.len(),
            r <= rs.len(),
            forall|m: int|
                0 <= m < r ==> (#[trigger] rs[m]).wf() && rs[m].columns.len() == n,
        decreases rs.len() - r,
    {
        if rows[r].values.len() != rows[r].columns.len() || rows[r].columns.len() != n {
            assert(!same_shape(rs));
            return false;
        }
        r = r + 1;
    }
    assert(same_shape(rs));
    if n == 0 {
        return false;
    }
    let display_rows = display_rows_of(rows);
    let col_widths = column_widths_of(rows, &display_rows);
    let ghost w = column_widths(rs);
    let mut total: usize = 0;
    let mut k: usize = 0;
    while k < n
        invariant
            rs == rows@,
            same_shape(rs),
            rs.len() > 0,
            n == rs[0].columns.len(),
            w == column_widths(rs),
            widths_view(col_widths@) == w,
            col_widths.len() == n,
            k <= n,
            total == sum_nats(w.take(k as int)),
        decreases n - k,
    {
        proof {
            lemma_sum_nats_prefix(w, k + 1);
        }
        assert(w[k as int] == col_widths@[k as int]);
        if total > usize::MAX - col_widths[k] {
            assert(sum_nats(w) >= total + col_widths@[k as int]);
            assert(!printable(rs));
            return false;
        }
        total = total + col_widths[k];
        k = k + 1;
    }
    assert(w.take(n as int) =~= w);
    total < usize::MAX - n
}

/// Renders the rows of a query result as a text table.
pub fn print(rows: Vec<ResultRow>) -> (r: String)
    requires
        printable(rows@),
    ensures
        r@ == render_table(rows@),
{
    if rows.len() == 0 {
        proof {
            reveal_strlit("No results returned.");
        }
        let r = "No results returned.".to_owned();
        assert(r@ =~= no_results_text());
        return r;
    }
    let ghost rs = rows@;
    let n = rows[0].columns.len();
    let display_rows = display_rows_of(&rows);
    let column_display_row = DisplayRow::for_columns(&rows[0].columns);
    let col_widths = column_widths_of(&rows, &display_rows);
    let ghost w = column_widths(rs);
    assert(widths_view(col_widths@) =~= w);
    // Dashes: every byte of every column, and the dividers between them.
    let mut total: usize = 0;
    let mut k: usize = 0;
    while k < n
        invariant
            printable(rs),
            rs.len() > 0,
            n == rs[0].columns.len(),
            w == column_widths(rs),
            widths_view(col_widths@) == w,
            col_widths.len() == n,
            k <= n,
            total == sum_nats(w.take(k as int)),
            sum_nats(w) + n + 1 <= usize::MAX,
        decreases n - k,
    {
        assert(w.take(k + 1).drop_last() =~= w.take(k as int));
        proof {
            lemma_sum_nats_prefix(w, k + 1);
        }
        total = total + col_widths[k];
        k = k + 1;
    }
    assert(w.take(n as int) =~= w);
    let dashes = total + n - 1;
    let mut frame: Vec<char> = Vec::new();
    frame.push('+');
    let mut d: usize = 0;
    while d < dashes
        invariant
            d <= dashes,
            frame@ == seq!['+'] + Seq::new(d as nat, |i: int| '-'),
        decreases dashes - d,
    {
        frame.push('-');
        assert(frame@ =~= seq!['+'] + Seq::new((d + 1) as nat, |i: int| '-'));
        d = d + 1;
    }
    frame.push('+');
    assert(frame@ =~= border(w));
    let header = line_chars(&column_display_row.raw_row, &col_widths);
    assert(strings_view(column_display_row.raw_row@) =~= header_cells(rs));
    let mut body: Vec<char> = Vec::new();
    let mut r: usize = 0;
    while r < display_rows.len()
        invariant
            printable(rs),
            rs.len() > 0,
            n == rs[0].columns.len(),
            display_rows.len() == rs.len(),
            forall|m: int| 0 <= m < rs.len() ==> shows(#[trigger] display_rows@[m], rs[m]),
            widths_view(col_widths@) == w,
            col_widths.len() == n,
            r <= rs.len(),
            body@ == row_lines(rs, w, r as nat),
        decreases rs.len() - r,
    {
        assert(shows(display_rows@[r as int], rs[r as int]));
        assert(rs[r as int].columns.len() == n);
        let line = line_chars(&display_rows[r].raw_row, &col_widths);
        assert(strings_view(display_rows@[r as int].raw_row@) =~= row_cells(rs[r as int]));
        if r > 0 {
            body.push('\n');
        } else {
            assert(body@ =~= Seq::<char>::empty());
        }
        append_chars(&mut body, &line);
        r = r + 1;
    }
    let mut out: Vec<char> = Vec::new();
    append_chars(&mut out, &frame);
    out.push('\n');
    append_chars(&mut out, &header);
    out.push('\n');
    append_chars(&mut out, &frame);
    out.push('\n');
    append_chars(&mut out, &body);
    out.push('\n');
    append_chars(&mut out, &frame);
    out.push('\n');
    proof {
        reveal_strlit("Done.");
    }
    let done = chars_of("Done.");
    append_chars(&mut out, &done);
    assert(out@ =~= render_table(rs));
    string_of(&out)
}

pub proof fn lemma_sum_nats_prefix(w: Seq<nat>, k: int)
    requires
        0 < k <= w.len(),
    ensures
        sum_nats(w.take(k)) == sum_nats(w.take(k - 1)) + w[k - 1],
        sum_nats(w.take(k)) <= sum_nats(w),
    decreases w.len() - k,
{
    assert(w.take(k).drop_last() =~= w.take(k - 1));
    if k < w.len() {
        lemma_sum_nats_prefix(w, k + 1);
    } else {
        assert(w.take(k) =~= w);
    }
}

/// Printable ASCII text that fits in memory: at most `usize::MAX`
/// characters.
pub open spec fn ascii_cell(s: Seq<char>) -> bool {
    printable_ascii(s) && s.len() <= usize::MAX
}

/// Printable ASCII text takes one byte per character.
pub proof fn lemma_printable_ascii_len(s: Seq<char>)
    requires
        ascii_cell(s),
    ensures
        text_len(s) as nat == s.len(),
{
    assert(is_ascii_chars(s));
    is_ascii_chars_encode_utf8(s);
}

/// A column is at least as wide as each of its cells.
pub proof fn lemma_widest_cell(rows: Seq<ResultRow>, k: int, n: nat, r: int)
    requires
        0 <= r < n <= rows.len(),
    ensures
        widest_cell(rows, k, n) >= text_len(cell_text(rows[r], k)) as nat,
    decreases n,
{
    if r < n - 1 {
        lemma_widest_cell(rows, k, (n - 1) as nat, r);
    }
}

/// Cells no wider than their columns fill them exactly.
pub proof fn lemma_cells_line_len(texts: Seq<Seq<char>>, widths: Seq<nat>, m: nat)
    requires
        m <= texts.len(),
        m <= widths.len(),
        forall|k: int|
            0 <= k < m ==> printable_ascii(#[trigger] texts[k]) && texts[k].len() <= widths[k],
    ensures
        cells_line(texts, widths, m).len() == sum_nats(widths.take(m as int)) + m,
    decreases m,
{
    if m > 0 {
        lemma_cells_line_len(texts, widths, (m - 1) as nat);
        assert(widths.take(m as int).drop_last() =~= widths.take(m - 1));
        let t = texts[m - 1];
        assert(printable_ascii(t));
        assert(padded(t, widths[m - 1]).len() == widths[m - 1]);
    } else {
        assert(widths.take(0) =~= Seq::<nat>::empty());
    }
}

/// When every name and cell is printable ASCII, every line of the table is
/// exactly as long as its border.
pub proof fn lemma_table_aligned(rows: Seq<ResultRow>)
    requires
        rows.len() > 0,
        printable(rows),
        forall|k: int|
            0 <= k < rows[0].columns.len() ==> ascii_cell(#[trigger] rows[0].columns@[k]@),
        forall|r: int, k: int|
            0 <= r < rows.len() && 0 <= k < rows[0].columns.len() ==> ascii_cell(
                #[trigger] cell_text(rows[r], k),
            ),
    ensures
        table_line(header_cells(rows), column_widths(rows)).len() == border(
            column_widths(rows),
        ).len(),
        forall|r: int|
            0 <= r < rows.len() ==> table_line(row_cells(#[trigger] rows[r]), column_widths(rows)).len()
                == border(column_widths(rows)).len(),
{
    let w = column_widths(rows);
    let n = rows[0].columns.len();
    assert(w.take(n as int) =~= w);
    let h = header_cells(rows);
    assert forall|k: int| 0 <= k < n implies printable_ascii(#[trigger] h[k]) && h[k].len()
        <= w[k] by {
        assert(ascii_cell(rows[0].columns@[k]@));
        lemma_printable_ascii_len(h[k]);
    }
    lemma_cells_line_len(h, w, n as nat);
    assert forall|r: int|
        0 <= r < rows.len() implies table_line(row_cells(#[trigger] rows[r]), w).len() == border(
        w,
    ).len() by {
        let c = row_cells(rows[r]);
        assert(rows[r].columns.len() == n);
        assert forall|k: int| 0 <= k < n implies printable_ascii(#[trigger] c[k]) && c[k].len()
            <= w[k] by {
            assert(ascii_cell(cell_text(rows[r], k)));
            lemma_printable_ascii_len(c[k]);
            lemma_widest_cell(rows, k, rows.len(), r);
        }
        lemma_cells_line_len(c, w, n as nat);
    }
}

/// Row lines that are all `len` characters long: each takes `len`
/// characters and a newline, but the last has no newline, and row `r`
/// stands at `r * (len + 1)`.
pub proof fn lemma_row_lines_layout(rows: Seq<ResultRow>, w: Seq<nat>, n: nat, len: nat)
    requires
        n <= rows.len(),
        forall|r: int| 0 <= r < n ==> (#[trigger] table_line(row_cells(rows[r]), w)).len() == len,
    ensures
        n > 0 ==> row_lines(rows, w, n).len() + 1 == n * (len + 1),
        forall|r: int|
            0 <= r < n ==> #[trigger] row_lines(rows, w, n).subrange(
                r * (len + 1),
                r * (len + 1) + len,
            ) == table_line(row_cells(rows[r]), w),
    decreases n,
{
    if n == 1 {
        let l0 = table_line(row_cells(rows[0]), w);
        assert(row_lines(rows, w, 1) == l0);
        assert(l0.len() == len);
        assert(1 * (len + 1) == len + 1);
        assert(0 * (len + 1) == 0);
        assert(l0.subrange(0, len as int) =~= l0);
    } else if n > 1 {
        lemma_row_lines_layout(rows, w, (n - 1) as nat, len);
        let prev = row_lines(rows, w, (n - 1) as nat);
        let last = table_line(row_cells(rows[n - 1]), w);
        let all = row_lines(rows, w, n);
        assert(all == prev + seq!['\n'] + last);
        assert(prev.len() + 1 == (n - 1) * (len + 1));
        assert(n * (len + 1) == (n - 1) * (len + 1) + len + 1) by (nonlinear_arith);
        assert forall|r: int| 0 <= r < n implies #[trigger] all.subrange(
            r * (len + 1),
            r * (len + 1) + len,
        ) == table_line(row_cells(rows[r]), w) by {
            if r < n - 1 {
                assert(r * (len + 1) + len + 1 <= (n - 1) * (len + 1)) by (nonlinear_arith)
                    requires
                        0 <= r < n - 1,
                ;
                assert(r * (len + 1) >= 0) by (nonlinear_arith)
                    requires
                        0 <= r,
                ;
                assert(all.subrange(r * (len + 1), r * (len + 1) + len) =~= prev.subrange(
                    r * (len + 1),
                    r * (len + 1) + len,
                ));
            } else {
                assert(r * (len + 1) == prev.len() + 1);
                assert(all.subrange(r * (len + 1), r * (len + 1) + len) =~= last);
            }
        }
    }
}

/// Between row lines of `len` characters stands a newline.
pub proof fn lemma_row_lines_newline(rows: Seq<ResultRow>, w: Seq<nat>, n: nat, len: nat, r: int)
    requires
        n <= rows.len(),
        0 <= r,
        r + 1 < n,
        forall|q: int| 0 <= q < n ==> (#[trigger] table_line(row_cells(rows[q]), w)).len() == len,
    ensures
        r * (len + 1) + len < row_lines(rows, w, n).len(),
        row_lines(rows, w, n)[r * (len + 1) + len] == '\n',
    decreases n,
{
    lemma_row_lines_layout(rows, w, (n - 1) as nat, len);
    let prev = row_lines(rows, w, (n - 1) as nat);
    assert(row_lines(rows, w, n) == prev + seq!['\n'] + table_line(row_cells(rows[n - 1]), w));
    assert(prev.len() + 1 == (n - 1) * (len + 1));
    if r + 2 == n {
        assert(r * (len + 1) + len == (n - 1) * (len + 1) - 1) by (nonlinear_arith)
            requires
                r + 2 == n,
        ;
    } else {
        lemma_row_lines_newline(rows, w, (n - 1) as nat, len, r);
    }
}

/// Every result row gets a line of its own, repeated rows too: a table of
/// printable ASCII text is a border, the column names, a border, one line
/// for each row in order, a border, each `L` characters and a newline, and
/// then `Done.`; row `r` is shown on line `r + 3`.
pub proof fn lemma_table_rows(rows: Seq<ResultRow>)
    requires
        rows.len() > 0,
        printable(rows),
        forall|k: int|
            0 <= k < rows[0].columns.len() ==> ascii_cell(#[trigger] rows[0].columns@[k]@),
        forall|r: int, k: int|
            0 <= r < rows.len() && 0 <= k < rows[0].columns.len() ==> ascii_cell(
                #[trigger] cell_text(rows[r], k),
            ),
    ensures
        ({
            let w = column_widths(rows);
            let l = border(w).len() as int;
            let n = rows.len() as int;
            &&& render_table(rows).len() == (n + 4) * (l + 1) + 5
            &&& render_table(rows).subrange(0, l as int) == border(w)
            &&& render_table(rows).subrange(l + 1, 2 * l + 1) == table_line(header_cells(rows), w)
            &&& render_table(rows).subrange(2 * (l + 1), 2 * (l + 1) + l) == border(w)
            &&& render_table(rows).subrange(
                (n + 3) * (l + 1),
                (n + 3) * (l + 1) + l,
            ) == border(w)
            &&& render_table(rows).subrange(
                (n + 4) * (l + 1),
                (n + 4) * (l + 1) + 5,
            ) == seq!['D', 'o', 'n', 'e', '.']
            &&& forall|m: int|
                1 <= m <= n + 4 ==> #[trigger] render_table(rows)[m * (l + 1) - 1]
                    == '\n'
            &&& forall|r: int|
                0 <= r < n ==> #[trigger] render_table(rows).subrange(
                    (r + 3) * (l + 1),
                    (r + 3) * (l + 1) + l,
                ) == table_line(row_cells(rows[r]), w)
        }),
{
    let w = column_widths(rows);
    let b = border(w);
    let l = b.len() as int;
    let n = rows.len() as int;
    lemma_table_aligned(rows);
    lemma_row_lines_layout(rows, w, rows.len(), b.len());
    let h = table_line(header_cells(rows), w);
    let rl = row_lines(rows, w, rows.len());
    let t = render_table(rows);
    let front = b + seq!['\n'] + h + seq!['\n'] + b + seq!['\n'];
    assert(t == front + rl + seq!['\n'] + b + seq!['\n'] + done_text());
    assert(front.len() == 3 * (l + 1));
    assert((n + 4) * (l + 1) == n * (l + 1) + 3 * (l + 1) + (l + 1)) by (nonlinear_arith);
    assert(t.subrange(0, l as int) =~= b);
    assert(t.subrange(l + 1, 2 * l + 1) =~= h);
    assert(t.subrange(2 * (l + 1), 2 * (l + 1) + l) =~= b);
    assert((n + 3) * (l + 1) == n * (l + 1) + 3 * (l + 1)) by (nonlinear_arith);
    assert(t.subrange((n + 3) * (l + 1), (n + 3) * (l + 1) + l) =~= b);
    assert(t.subrange((n + 4) * (l + 1), (n + 4) * (l + 1) + 5) =~= done_text());
    assert forall|m: int| 1 <= m <= n + 4 implies #[trigger] t[m * (l + 1) - 1] == '\n' by {
        if m <= 3 {
            assert(m == 1 || m == 2 || m == 3);
            if m == 1 {
                assert(1 * (l + 1) == l + 1);
            } else if m == 2 {
                assert(2 * (l + 1) == 2 * l + 2);
            } else {
                assert(3 * (l + 1) == 3 * l + 3);
            }
        } else if m < n + 3 {
            let r = m - 4;
            assert(m * (l + 1) - 1 == 3 * (l + 1) + r * (l + 1) + l) by (nonlinear_arith)
                requires
                    r == m - 4,
            ;
            assert(r * (l + 1) + l + 1 <= n * (l + 1) - 1) by (nonlinear_arith)
                requires
                    0 <= l,
                    0 <= r,
                    r + 1 < n,
            ;
            assert(r * (l + 1) >= 0) by (nonlinear_arith)
                requires
                    0 <= l,
                    0 <= r,
            ;
            lemma_row_lines_newline(rows, w, rows.len(), b.len(), r);
            assert(t[m * (l + 1) - 1] == rl[r * (l + 1) + l]);
        } else if m == n + 3 {
            assert(m * (l + 1) - 1 == 3 * (l + 1) + n * (l + 1) - 1) by (nonlinear_arith)
                requires
                    m == n + 3,
            ;
        } else {
            assert(m * (l + 1) - 1 == 3 * (l + 1) + n * (l + 1) + l) by (nonlinear_arith)
                requires
                    m == n + 4,
            ;
        }
    }
    assert forall|r: int| 0 <= r < n implies #[trigger] t.subrange(
        (r + 3) * (l + 1),
        (r + 3) * (l + 1) + l,
    ) == table_line(row_cells(rows[r]), w) by {
        assert((r + 3) * (l + 1) == 3 * (l + 1) + r * (l + 1)) by (nonlinear_arith);
        assert(r * (l + 1) + l + 1 <= n * (l + 1)) by (nonlinear_arith)
            requires
                0 <= l,
                0 <= r < n,
        ;
        assert(r * (l + 1) >= 0) by (nonlinear_arith)
            requires
                0 <= l,
                0 <= r,
        ;
        assert(rl.subrange(r * (l + 1), r * (l + 1) + l) == table_line(row_cells(rows[r]), w));
        assert(t.subrange((r + 3) * (l + 1), (r + 3) * (l + 1) + l) =~= rl.subrange(
            r * (l + 1),
            r * (l + 1) + l,
        ));
    }
}

/// One field of a SurrealDB record as plain values: its key, its value as
/// JSON text, and, when the value is a record id, that id as `table:id`.
#[derive(Debug)]
pub struct RecordField {
    pub key: String,
    pub json: String,
    pub record_id: Option<String>,
}

pub open spec fn id_key() -> Seq<char> {
    seq!['i', 'd']
}

/// The text shown for a field: the record id for the `id` field, the JSON
/// text for any other.
pub open spec fn field_text(f: RecordField) -> Seq<char> {
    if f.key@ == id_key() {
        f.record_id->Some_0@
    } else {
        f.json@
    }
}

/// Every `id` field holds a record id.
pub open spec fn ids_resolved(rows: Seq<Vec<RecordField>>) -> bool {
    forall|r: int, k: int|
        0 <= r < rows.len() && 0 <= k < rows[r].len() && (#[trigger] rows[r]@[k]).key@ == id_key()
            ==> rows[r]@[k].record_id is Some
}

/// `row` shows the fields of a record: a column for each field, named by its
/// key and showing `field_text`.
pub open spec fn shows_record(row: ResultRow, record: Seq<RecordField>) -> bool {
    &&& row.wf()
    &&& row.columns.len() == record.len()
    &&& forall|k: int|
        0 <= k < record.len() ==> (#[trigger] row.columns@[k])@ == record[k].key@
            && row.values@[k] is Some && row.values@[k]->Some_0@ == field_text(record[k])
}

/// The result rows of SurrealDB records: each field is a column named by its
/// key, showing `field_text`.
pub fn display_rows_from_rows(rows: Vec<Vec<RecordField>>) -> (out: Vec<ResultRow>)
    requires
        ids_resolved(rows@),
    ensures
        out.len() == rows.len(),
        forall|r: int| 0 <= r < rows.len() ==> shows_record(#[trigger] out@[r], rows@[r]@),
{
    proof {
        reveal_strlit("id");
        assert("id"@ =~= id_key());
    }
    let id = chars_of("id");
    let mut out: Vec<ResultRow> = Vec::new();
    let mut r: usize = 0;
    while r < rows.len()
        invariant
            ids_resolved(rows@),
            id@ == id_key(),
            r <= rows.len(),
            out.len() == r,
            forall|m: int| 0 <= m < r ==> shows_record(#[trigger] out@[m], rows@[m]@),
        decreases rows.len() - r,
    {
        let record = &rows[r];
        let mut columns: Vec<String> = Vec::new();
        let mut values: Vec<Option<String>> = Vec::new();
        let mut k: usize = 0;
        while k < record.len()
            invariant
                ids_resolved(rows@),
                id@ == id_key(),
                r < rows.len(),
                *record == rows@[r as int],
                k <= record.len(),
                columns.len() == k,
                values.len() == k,
                forall|j: int|
                    0 <= j < k ==> (#[trigger] columns@[j])@ == record@[j].key@ && values@[j] is Some
                        && values@[j]->Some_0@ == field_text(record@[j]),
            decreases record.len() - k,
        {
            let field = &record[k];
            let key = field.key.clone();
            let text = if chars_eq(&chars_of(field.key.as_str()), &id) {
                assert(rows@[r as int]@[k as int].key@ == id_key());
                match &field.record_id {
                    Some(t) => t.clone(),
                    None => {
                        assert(false);
                        String::new()
                    },
                }
            } else {
                field.json.clone()
            };
            columns.push(key);
            values.push(Some(text));
            k = k + 1;
        }
        let row = ResultRow { columns, values };
        assert(shows_record(row, rows@[r as int]@));
        out.push(row);
        r = r + 1;
    }
    out
}

} // verus!
