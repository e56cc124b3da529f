//! A whole table as text: a line with its dimensions, a header row,
//! numbered data rows, and a note on what was left out.
//!
//! Every column is formatted on its own; as many columns are shown as fit
//! into the width of the terminal.

use vstd::prelude::*;
use owo_colors::OwoColorize;
use crate::datatype::column::{
    config_error, format_strings, formatted_column, string_texts,
};
use crate::datatype::{
    cell_texts, is_na_padded_text, is_na_string_padded, is_negative_number, is_negative_text,
};
use crate::error::FormatError;
use crate::text::{
    chars_of, nat_text, push_all, push_nat, push_spaces, push_str, spaces, string_of,
};
use crate::types::{ColorScheme, FormatOptions};

verus! {

/// The text `text` in the colour of the given red, green and blue, as a
/// terminal shows it: the escape sequence that sets the colour, the text,
/// and the escape sequence that sets the colour back.
pub open spec fn painted(text: Seq<char>, r: u8, g: u8, b: u8) -> Seq<char> {
    seq!['\u{1b}', '[', '3', '8', ';', '2', ';'] + nat_text(r as nat) + seq![';'] + nat_text(
        g as nat,
    ) + seq![';'] + nat_text(b as nat) + seq!['m'] + text + seq!['\u{1b}', '[', '3', '9', 'm']
}

/// `OwoColorize::truecolor` of the `owo-colors` crate, written out as a
/// string: the text between the escape sequence for a foreground colour
/// of three components and the one for the default foreground colour.
#[verifier::external_body]
pub(crate) fn paint(text: &str, r: u8, g: u8, b: u8) -> (out: String)
    ensures
        out@ == painted(text@, r, g, b),
{
    text.truecolor(r, g, b).to_string()
}

/// A text in a colour.
pub open spec fn in_color(text: Seq<char>, color: [u8; 3]) -> Seq<char> {
    painted(text, color[0], color[1], color[2])
}

/// A text in a colour if colours are used, plain otherwise.
pub open spec fn tinted(text: Seq<char>, use_color: bool, color: [u8; 3]) -> Seq<char> {
    if use_color {
        in_color(text, color)
    } else {
        text
    }
}

fn push_tinted(out: &mut Vec<char>, text: &Vec<char>, use_color: bool, color: &[u8; 3])
    ensures
        final(out)@ == old(out)@ + tinted(text@, use_color, *color),
{
    if use_color {
        let s = string_of(text);
        let p = paint(s.as_str(), color[0], color[1], color[2]);
        push_all(out, &chars_of(p.as_str()));
    } else {
        push_all(out, text);
    }
}

/// The line with the dimensions of a table, the numbers in colour.
pub open spec fn dimensions_colored(rows: nat, cols: nat, color: [u8; 3]) -> Seq<char> {
    "tv dim: "@ + in_color(nat_text(rows), color) + " x "@ + in_color(nat_text(cols), color)
        + seq!['\n']
}

/// The line with the dimensions of a table, plain.
pub open spec fn dimensions_plain(rows: nat, cols: nat) -> Seq<char> {
    "tv dim: "@ + nat_text(rows) + " x "@ + nat_text(cols) + seq!['\n']
}

fn push_dimensions(out: &mut Vec<char>, rows: usize, cols: usize, use_color: bool, color: &[u8; 3])
    ensures
        final(out)@ == old(out)@ + if use_color {
            dimensions_colored(rows as nat, cols as nat, *color)
        } else {
            dimensions_plain(rows as nat, cols as nat)
        },
{
    let ghost start = out@;
    let mut r: Vec<char> = Vec::new();
    push_nat(&mut r, rows);
    let mut c: Vec<char> = Vec::new();
    push_nat(&mut c, cols);
    assert(r@ =~= nat_text(rows as nat));
    assert(c@ =~= nat_text(cols as nat));
    push_str(out, "tv dim: ");
    push_tinted(out, &r, use_color, color);
    push_str(out, " x ");
    push_tinted(out, &c, use_color, color);
    out.push('\n');
    assert(out@ =~= start + if use_color {
        dimensions_colored(rows as nat, cols as nat, *color)
    } else {
        dimensions_plain(rows as nat, cols as nat)
    });
}

/// The line with the dimensions of a table: `tv dim:`, the number of
/// rows, `x`, the number of columns, each number in the colour for such
/// notes.
pub fn format_dimensions_colored(rows: usize, cols: usize, colors: &ColorScheme) -> (r: String)
    ensures
        r@ == dimensions_colored(rows as nat, cols as nat, colors.meta_color),
{
    let mut out: Vec<char> = Vec::new();
    push_dimensions(&mut out, rows, cols, true, &colors.meta_color);
    assert(out@ =~= dimensions_colored(rows as nat, cols as nat, colors.meta_color));
    string_of(&out)
}

/// How many of the leading cells of a row fit into a line of `width`
/// characters of which `used` are taken: cells are counted as long as the
/// line, with each of them added, is no longer than `width`.
pub open spec fn fitting_cols(tops: Seq<Seq<char>>, used: nat, width: nat) -> nat
    decreases tops.len(),
{
    if tops.len() == 0 || used + tops[0].len() > width {
        0
    } else {
        1 + fitting_cols(tops.drop_first(), used + tops[0].len(), width)
    }
}

/// The width that the row numbers take in front of every row.
pub const NUMBER_WIDTH: usize = 8;

/// How many of the first `cols` columns fit into a terminal that is
/// `term_tuple.0` characters wide, told from the cells of the first row of
/// `vp`, the first eight characters of each line being taken by the row
/// number.
pub fn get_num_cols_to_print(cols: usize, vp: Vec<Vec<String>>, term_tuple: (u16, u16)) -> (n: usize)
    requires
        vp@.len() > 0,
        cols <= vp@[0]@.len(),
    ensures
        n == fitting_cols(
            string_texts(vp@[0]@).take(cols as int),
            NUMBER_WIDTH as nat,
            term_tuple.0 as nat,
        ),
{
    let width: usize = term_tuple.0 as usize;
    count_fitting(&vp[0], cols, NUMBER_WIDTH, width)
}

fn count_fitting(tops: &Vec<String>, cols: usize, used: usize, width: usize) -> (n: usize)
    requires
        cols <= tops@.len(),
    ensures
        n == fitting_cols(string_texts(tops@).take(cols as int), used as nat, width as nat),
        n <= cols,
{
    let ghost all = string_texts(tops@).take(cols as int);
    let mut total: usize = used;
    let mut col: usize = 0;
    assert(all.skip(0) =~= all);
    while col < cols
        invariant
            col <= cols <= tops@.len(),
            all == string_texts(tops@).take(cols as int),
            fitting_cols(all, used as nat, width as nat) == col + fitting_cols(
                all.skip(col as int),
                total as nat,
                width as nat,
            ),
        decreases cols - col,
    {
        let len = tops[col].as_str().unicode_len();
        let ghost rest = all.skip(col as int);
        assert(rest[0] == tops@[col as int]@);
        assert(rest.drop_first() =~= all.skip(col + 1));
        if len > width || total > width - len {
            return col;
        }
        total = total + len;
        col = col + 1;
    }
    assert(all.skip(cols as int).len() == 0);
    col
}

/// The texts of the rows of a table.
pub open spec fn table_texts(data: Seq<Vec<String>>) -> Seq<Seq<Seq<char>>> {
    data.map_values(|r: Vec<String>| string_texts(r@))
}

/// The texts of the headers of a table, if it has any.
pub open spec fn header_texts(headers: Option<Vec<String>>) -> Option<Seq<Seq<char>>> {
    match headers {
        Some(h) => Some(string_texts(h@)),
        None => None,
    }
}

/// The cells at index `c` of the rows that are long enough to have one.
pub open spec fn cells_at(rows: Seq<Seq<Seq<char>>>, c: int) -> Seq<Seq<char>>
    decreases rows.len(),
{
    if rows.len() == 0 {
        Seq::empty()
    } else if 0 <= c < rows.last().len() {
        cells_at(rows.drop_last(), c).push(rows.last()[c])
    } else {
        cells_at(rows.drop_last(), c)
    }
}

/// The header at index `c`, if there is one, as a column of one cell.
pub open spec fn header_at(headers: Option<Seq<Seq<char>>>, c: int) -> Seq<Seq<char>> {
    match headers {
        Some(h) => if 0 <= c < h.len() {
            seq![h[c]]
        } else {
            Seq::empty()
        },
        None => Seq::empty(),
    }
}

/// The column at index `c`: its header, then its cells.
pub open spec fn column_cells(
    rows: Seq<Seq<Seq<char>>>,
    headers: Option<Seq<Seq<char>>>,
    c: int,
) -> Seq<Seq<char>> {
    header_at(headers, c) + cells_at(rows, c)
}

/// What is wrong with the settings for the columns, if anything.
pub open spec fn options_error(o: FormatOptions) -> Option<FormatError> {
    config_error(o.min_col_width as nat, o.max_col_width as nat, o.significant_figures as int)
}

/// The first `cols` columns of a table, each formatted on its own.
pub open spec fn formatted_columns(
    rows: Seq<Seq<Seq<char>>>,
    headers: Option<Seq<Seq<char>>>,
    cols: nat,
    o: FormatOptions,
) -> Seq<Seq<Seq<char>>> {
    Seq::new(
        cols,
        |c: int|
            formatted_column(
                column_cells(rows, headers, c),
                o.min_col_width as nat,
                o.max_col_width as nat,
                o.significant_figures as int,
                o.preserve_scientific,
                o.max_decimal_width as nat,
            ),
    )
}

/// The first cell of each column; the empty text for a column without
/// cells.
pub open spec fn top_cells(f: Seq<Seq<Seq<char>>>) -> Seq<Seq<char>> {
    f.map_values(
        |col: Seq<Seq<char>>|
            if col.len() > 0 {
                col[0]
            } else {
                Seq::empty()
            },
    )
}

/// The space in front of every line where rows are numbered.
pub open spec fn indent(o: FormatOptions) -> Seq<char> {
    if o.no_row_numbering {
        Seq::empty()
    } else {
        spaces(NUMBER_WIDTH as nat)
    }
}

/// How many columns are shown: as many as fit into the width of the
/// terminal, but one at least.
pub open spec fn shown_cols(f: Seq<Seq<Seq<char>>>, o: FormatOptions, term_width: nat) -> nat {
    let n = fitting_cols(top_cells(f), indent(o).len(), term_width);
    if n == 0 && f.len() > 0 {
        1
    } else {
        n
    }
}

/// The number of a row, right-aligned in six characters, and two spaces.
pub open spec fn row_number(n: nat) -> Seq<char> {
    let digits = nat_text(n);
    if digits.len() < 6 {
        spaces((6 - digits.len()) as nat) + digits + spaces(2)
    } else {
        digits + spaces(2)
    }
}

/// What stands in front of the cells of a row: nothing where rows are not
/// numbered, eight spaces for the header row, the number of a data row.
pub open spec fn row_prefix(row_num: nat, o: FormatOptions) -> Seq<char> {
    if o.no_row_numbering {
        Seq::empty()
    } else if row_num > 0 {
        tinted(row_number(row_num), o.use_color, o.colors.meta_color)
    } else {
        spaces(NUMBER_WIDTH as nat)
    }
}

/// The cell of a formatted column at a row; `NA` where the column is too
/// short.
pub open spec fn cell_or_na(col: Seq<Seq<char>>, row_idx: int) -> Seq<char> {
    if 0 <= row_idx < col.len() {
        col[row_idx]
    } else {
        "NA"@
    }
}

/// The colour of a cell: that of headers in the header row, else that of
/// missing values or of negative numbers for such cells, else the
/// ordinary one.
pub open spec fn cell_color(cell: Seq<char>, row_num: nat, colors: ColorScheme) -> [u8; 3] {
    if row_num == 0 {
        colors.header_color
    } else if is_na_padded_text(cell) {
        colors.na_color
    } else if is_negative_text(cell) {
        colors.neg_num_color
    } else {
        colors.std_color
    }
}

/// The first `shown` cells of a row, one behind the other.
pub open spec fn row_cells(
    f: Seq<Seq<Seq<char>>>,
    row_idx: int,
    row_num: nat,
    shown: nat,
    o: FormatOptions,
) -> Seq<char>
    decreases shown,
{
    if shown == 0 {
        Seq::empty()
    } else {
        let cell = cell_or_na(f[shown - 1], row_idx);
        row_cells(f, row_idx, row_num, (shown - 1) as nat, o) + tinted(
            cell,
            o.use_color,
            cell_color(cell, row_num, o.colors),
        )
    }
}

/// One row as a line of text.
pub open spec fn row_text(
    f: Seq<Seq<Seq<char>>>,
    row_idx: int,
    row_num: nat,
    shown: nat,
    o: FormatOptions,
) -> Seq<char> {
    row_prefix(row_num, o) + row_cells(f, row_idx, row_num, shown, o) + seq!['\n']
}

/// The first `count` data rows, numbered from one, the first of them at
/// index `start` of the columns.
pub open spec fn data_rows(
    f: Seq<Seq<Seq<char>>>,
    start: int,
    count: nat,
    shown: nat,
    o: FormatOptions,
) -> Seq<char>
    decreases count,
{
    if count == 0 {
        Seq::empty()
    } else {
        data_rows(f, start, (count - 1) as nat, shown, o) + row_text(
            f,
            start + count - 1,
            count,
            shown,
            o,
        )
    }
}

/// The names of the columns from index `from` up to, not including, index
/// `to`, each after a space, and each but the last column of the table
/// followed by a comma.
pub open spec fn more_names(h: Seq<Seq<char>>, from: int, to: int, cols: nat, o: FormatOptions) -> Seq<
    char,
>
    decreases to - from,
{
    if to <= from {
        Seq::empty()
    } else {
        more_names(h, from, to - 1, cols, o) + seq![' '] + tinted(
            h[to - 1],
            o.use_color,
            o.colors.meta_color,
        ) + if to < cols {
            tinted(seq![','], o.use_color, o.colors.meta_color)
        } else {
            Seq::empty()
        }
    }
}

/// The note on the rows that are not shown.
pub open spec fn rows_left_out(rows: nat, display_rows: nat, o: FormatOptions) -> Seq<char> {
    if display_rows < rows {
        indent(o) + seq!['\u{2026}'] + " with "@ + nat_text((rows - display_rows) as nat)
            + " more rows"@
    } else {
        Seq::empty()
    }
}

/// The names of the columns that are not shown.
pub open spec fn names_left_out(
    headers: Option<Seq<Seq<char>>>,
    cols: nat,
    shown: nat,
    o: FormatOptions,
) -> Seq<char> {
    match headers {
        Some(h) => more_names(h, shown as int, h.len() as int, cols, o),
        None => Seq::empty(),
    }
}

/// The note on the columns that are not shown. It goes on the line of the
/// note on the rows, or starts a line of its own where there is none.
pub open spec fn cols_left_out(
    rows: nat,
    display_rows: nat,
    cols: nat,
    shown: nat,
    headers: Option<Seq<Seq<char>>>,
    o: FormatOptions,
) -> Seq<char> {
    if shown < cols {
        (if display_rows < rows {
            Seq::empty()
        } else {
            indent(o) + seq!['\u{2026}']
        }) + " and "@ + tinted(
            nat_text((cols - shown) as nat),
            o.use_color,
            o.colors.meta_color,
        ) + " more variables:"@ + names_left_out(headers, cols, shown, o)
    } else {
        Seq::empty()
    }
}

/// The note on the rows and columns that are not shown. It does not end
/// its line.
pub open spec fn left_out(
    rows: nat,
    display_rows: nat,
    cols: nat,
    shown: nat,
    headers: Option<Seq<Seq<char>>>,
    o: FormatOptions,
) -> Seq<char> {
    rows_left_out(rows, display_rows, o) + cols_left_out(
        rows,
        display_rows,
        cols,
        shown,
        headers,
        o,
    )
}

/// The number of data rows that are shown.
pub open spec fn display_count(rows: nat, o: FormatOptions) -> nat {
    match o.max_rows {
        Some(m) => if rows < m {
            rows
        } else {
            m as nat
        },
        None => rows,
    }
}

/// The title and an empty line, if there is a title.
pub open spec fn title_part(o: FormatOptions) -> Seq<char> {
    match o.title {
        Some(t) => t@ + seq!['\n', '\n'],
        None => Seq::empty(),
    }
}

/// The line with the dimensions, unless it is left out.
pub open spec fn dimensions_part(rows: nat, cols: nat, o: FormatOptions) -> Seq<char> {
    if o.no_dimensions {
        Seq::empty()
    } else if o.use_color {
        indent(o) + dimensions_colored(rows, cols, o.colors.meta_color)
    } else {
        indent(o) + dimensions_plain(rows, cols)
    }
}

/// The header row, if the table has headers.
pub open spec fn header_part(
    f: Seq<Seq<Seq<char>>>,
    with_headers: bool,
    shown: nat,
    o: FormatOptions,
) -> Seq<char> {
    if with_headers {
        row_text(f, 0, 0, shown, o)
    } else {
        Seq::empty()
    }
}

/// The footer on a line of its own, if there is a footer.
pub open spec fn footer_part(o: FormatOptions) -> Seq<char> {
    match o.footer {
        Some(t) => indent(o) + tinted(t@, o.use_color, o.colors.meta_color) + seq!['\n'],
        None => Seq::empty(),
    }
}

/// The text of a table that has rows.
///
/// The columns are as many as the first row has cells. In order: the
/// title and an empty line; the line with the dimensions; the header row;
/// the data rows that are shown; the note on what is left out; the footer.
pub open spec fn table_text(
    data: Seq<Seq<Seq<char>>>,
    headers: Option<Seq<Seq<char>>>,
    o: FormatOptions,
    term_width: nat,
) -> Seq<char> {
    let rows = data.len();
    let cols = data[0].len();
    let display_rows = display_count(rows, o);
    let f = formatted_columns(data.take(display_rows as int), headers, cols, o);
    let shown = shown_cols(f, o, term_width);
    let start: int = if headers is Some {
        1
    } else {
        0
    };
    title_part(o) + dimensions_part(rows, cols, o) + header_part(f, headers is Some, shown, o)
        + data_rows(f, start, display_rows, shown, o) + left_out(
        rows,
        display_rows,
        cols,
        shown,
        headers,
        o,
    ) + footer_part(o)
}

fn push_indent(out: &mut Vec<char>, options: &FormatOptions)
    ensures
        final(out)@ == old(out)@ + indent(*options),
{
    if !options.no_row_numbering {
        push_spaces(out, NUMBER_WIDTH);
    }
    assert(out@ =~= old(out)@ + indent(*options));
}

fn push_row_prefix(out: &mut Vec<char>, row_num: usize, options: &FormatOptions)
    ensures
        final(out)@ == old(out)@ + row_prefix(row_num as nat, *options),
{
    if options.no_row_numbering {
        assert(out@ =~= old(out)@ + row_prefix(row_num as nat, *options));
    } else if row_num > 0 {
        let mut digits: Vec<char> = Vec::new();
        push_nat(&mut digits, row_num);
        assert(digits@ =~= nat_text(row_num as nat));
        let mut number: Vec<char> = Vec::new();
        if digits.len() < 6 {
            push_spaces(&mut number, 6 - digits.len());
        }
        push_all(&mut number, &digits);
        push_spaces(&mut number, 2);
        assert(number@ =~= row_number(row_num as nat));
        push_tinted(out, &number, options.use_color, &options.colors.meta_color);
    } else {
        push_spaces(out, NUMBER_WIDTH);
    }
}

fn push_cell(out: &mut Vec<char>, cell: &str, row_num: usize, options: &FormatOptions)
    ensures
        final(out)@ == old(out)@ + tinted(
            cell@,
            options.use_color,
            cell_color(cell@, row_num as nat, options.colors),
        ),
{
    let text = chars_of(cell);
    if !options.use_color {
        push_all(out, &text);
    } else if row_num == 0 {
        push_tinted(out, &text, true, &options.colors.header_color);
    } else if is_na_string_padded(cell) {
        push_tinted(out, &text, true, &options.colors.na_color);
    } else if is_negative_number(cell) {
        push_tinted(out, &text, true, &options.colors.neg_num_color);
    } else {
        push_tinted(out, &text, true, &options.colors.std_color);
    }
}

fn push_row(
    out: &mut Vec<char>,
    formatted: &Vec<Vec<String>>,
    row_idx: usize,
    row_num: usize,
    shown: usize,
    options: &FormatOptions,
)
    requires
        shown <= formatted@.len(),
    ensures
        final(out)@ == old(out)@ + row_text(
            table_texts(formatted@),
            row_idx as int,
            row_num as nat,
            shown as nat,
            *options,
        ),
{
    let ghost f = table_texts(formatted@);
    let ghost start = out@;
    push_row_prefix(out, row_num, options);
    let ghost lead = out@;
    let mut c: usize = 0;
    while c < shown
        invariant
            c <= shown <= formatted@.len(),
            f == table_texts(formatted@),
            out@ == lead + row_cells(f, row_idx as int, row_num as nat, c as nat, *options),
        decreases shown - c,
    {
        let column = &formatted[c];
        assert(f[c as int] == string_texts(column@));
        if row_idx < column.len() {
            push_cell(out, column[row_idx].as_str(), row_num, options);
        } else {
            push_cell(out, "NA", row_num, options);
        }
        c = c + 1;
        assert(out@ =~= lead + row_cells(f, row_idx as int, row_num as nat, c as nat, *options));
    }
    out.push('\n');
    assert(out@ =~= start + row_text(f, row_idx as int, row_num as nat, shown as nat, *options));
}

fn push_more_names(out: &mut Vec<char>, names: &Vec<String>, from: usize, cols: usize, options: &FormatOptions)
    ensures
        final(out)@ == old(out)@ + more_names(
            string_texts(names@),
            from as int,
            names@.len() as int,
            cols as nat,
            *options,
        ),
{
    let ghost h = string_texts(names@);
    let ghost start = out@;
    let mut i: usize = from;
    if from >= names.len() {
        assert(out@ =~= start + more_names(h, from as int, names@.len() as int, cols as nat, *options));
        return;
    }
    assert(out@ =~= start + more_names(h, from as int, i as int, cols as nat, *options));
    while i < names.len()
        invariant
            from <= i <= names@.len(),
            h == string_texts(names@),
            out@ == start + more_names(h, from as int, i as int, cols as nat, *options),
        decreases names.len() - i,
    {
        out.push(' ');
        push_tinted(out, &chars_of(names[i].as_str()), options.use_color, &options.colors.meta_color);
        if i + 1 < cols {
            let mut comma: Vec<char> = Vec::new();
            comma.push(',');
            assert(comma@ =~= seq![',']);
            push_tinted(out, &comma, options.use_color, &options.colors.meta_color);
        }
        i = i + 1;
        assert(out@ =~= start + more_names(h, from as int, i as int, cols as nat, *options));
    }
}

fn push_rows_left_out(out: &mut Vec<char>, rows: usize, display_rows: usize, options: &FormatOptions)
    requires
        display_rows <= rows,
    ensures
        final(out)@ == old(out)@ + rows_left_out(rows as nat, display_rows as nat, *options),
{
    let mut note: Vec<char> = Vec::new();
    if display_rows < rows {
        push_indent(&mut note, options);
        note.push('\u{2026}');
        push_str(&mut note, " with ");
        push_nat(&mut note, rows - display_rows);
        push_str(&mut note, " more rows");
    }
    assert(note@ =~= rows_left_out(rows as nat, display_rows as nat, *options));
    push_all(out, &note);
}

fn push_names_left_out(
    out: &mut Vec<char>,
    headers: &Option<Vec<String>>,
    cols: usize,
    shown: usize,
    options: &FormatOptions,
)
    ensures
        final(out)@ == old(out)@ + names_left_out(
            header_texts(*headers),
            cols as nat,
            shown as nat,
            *options,
        ),
{
    match headers {
        Some(h) => {
            push_more_names(out, h, shown, cols, options);
        },
        None => {
            assert(out@ =~= old(out)@ + Seq::<char>::empty());
        },
    }
}

fn push_cols_left_out(
    out: &mut Vec<char>,
    rows: usize,
    display_rows: usize,
    cols: usize,
    shown: usize,
    headers: &Option<Vec<String>>,
    options: &FormatOptions,
)
    requires
        display_rows <= rows,
        shown <= cols,
    ensures
        final(out)@ == old(out)@ + cols_left_out(
            rows as nat,
            display_rows as nat,
            cols as nat,
            shown as nat,
            header_texts(*headers),
            *options,
        ),
{
    let mut note: Vec<char> = Vec::new();
    if shown < cols {
        if !(display_rows < rows) {
            push_indent(&mut note, options);
            note.push('\u{2026}');
        }
        let ghost lead = note@;
        push_str(&mut note, " and ");
        let mut count: Vec<char> = Vec::new();
        push_nat(&mut count, cols - shown);
        assert(count@ =~= nat_text((cols - shown) as nat));
        push_tinted(&mut note, &count, options.use_color, &options.colors.meta_color);
        push_str(&mut note, " more variables:");
        push_names_left_out(&mut note, headers, cols, shown, options);
        assert(lead =~= if display_rows < rows {
            Seq::<char>::empty()
        } else {
            indent(*options) + seq!['\u{2026}']
        });
    }
    assert(note@ =~= cols_left_out(
        rows as nat,
        display_rows as nat,
        cols as nat,
        shown as nat,
        header_texts(*headers),
        *options,
    ));
    push_all(out, &note);
}

fn push_left_out(
    out: &mut Vec<char>,
    rows: usize,
    display_rows: usize,
    cols: usize,
    shown: usize,
    headers: &Option<Vec<String>>,
    options: &FormatOptions,
)
    requires
        display_rows <= rows,
        shown <= cols,
    ensures
        final(out)@ == old(out)@ + left_out(
            rows as nat,
            display_rows as nat,
            cols as nat,
            shown as nat,
            header_texts(*headers),
            *options,
        ),
{
    let mut note: Vec<char> = Vec::new();
    push_rows_left_out(&mut note, rows, display_rows, options);
    push_cols_left_out(&mut note, rows, display_rows, cols, shown, headers, options);
    assert(note@ =~= left_out(
        rows as nat,
        display_rows as nat,
        cols as nat,
        shown as nat,
        header_texts(*headers),
        *options,
    ));
    push_all(out, &note);
}

fn push_title(out: &mut Vec<char>, options: &FormatOptions)
    ensures
        final(out)@ == old(out)@ + title_part(*options),
{
    let mut part: Vec<char> = Vec::new();
    match &options.title {
        Some(t) => {
            push_str(&mut part, t.as_str());
            part.push('\n');
            part.push('\n');
            assert(part@ =~= t@ + seq!['\n', '\n']);
        },
        None => {},
    }
    assert(part@ =~= title_part(*options));
    push_all(out, &part);
}

fn push_dimensions_part(out: &mut Vec<char>, rows: usize, cols: usize, options: &FormatOptions)
    ensures
        final(out)@ == old(out)@ + dimensions_part(rows as nat, cols as nat, *options),
{
    let mut part: Vec<char> = Vec::new();
    if !options.no_dimensions {
        push_indent(&mut part, options);
        push_dimensions(&mut part, rows, cols, options.use_color, &options.colors.meta_color);
    }
    assert(part@ =~= dimensions_part(rows as nat, cols as nat, *options));
    push_all(out, &part);
}

fn push_footer(out: &mut Vec<char>, options: &FormatOptions)
    ensures
        final(out)@ == old(out)@ + footer_part(*options),
{
    let mut part: Vec<char> = Vec::new();
    match &options.footer {
        Some(t) => {
            push_indent(&mut part, options);
            push_tinted(
                &mut part,
                &chars_of(t.as_str()),
                options.use_color,
                &options.colors.meta_color,
            );
            part.push('\n');
            assert(part@ =~= indent(*options) + tinted(
                t@,
                options.use_color,
                options.colors.meta_color,
            ) + seq!['\n']);
        },
        None => {},
    }
    assert(part@ =~= footer_part(*options));
    push_all(out, &part);
}

fn push_header_part(
    out: &mut Vec<char>,
    formatted: &Vec<Vec<String>>,
    with_headers: bool,
    shown: usize,
    options: &FormatOptions,
)
    requires
        shown <= formatted@.len(),
    ensures
        final(out)@ == old(out)@ + header_part(
            table_texts(formatted@),
            with_headers,
            shown as nat,
            *options,
        ),
{
    if with_headers {
        push_row(out, formatted, 0, 0, shown, options);
    } else {
        assert(out@ =~= old(out)@ + Seq::<char>::empty());
    }
}

fn push_data_rows(
    out: &mut Vec<char>,
    formatted: &Vec<Vec<String>>,
    start: usize,
    count: usize,
    shown: usize,
    options: &FormatOptions,
)
    requires
        shown <= formatted@.len(),
        start <= 1,
    ensures
        final(out)@ == old(out)@ + data_rows(
            table_texts(formatted@),
            start as int,
            count as nat,
            shown as nat,
            *options,
        ),
{
    let ghost f = table_texts(formatted@);
    let mut part: Vec<char> = Vec::new();
    let mut k: usize = 0;
    while k < count
        invariant
            k <= count,
            start <= 1,
            shown <= formatted@.len(),
            f == table_texts(formatted@),
            part@ == data_rows(f, start as int, k as nat, shown as nat, *options),
        decreases count - k,
    {
        push_row(&mut part, formatted, start + k, k + 1, shown, options);
        k = k + 1;
    }
    push_all(out, &part);
}

fn check_options(options: &FormatOptions) -> (r: Result<(), FormatError>)
    ensures
        match r {
            Ok(()) => options_error(*options) is None,
            Err(e) => options_error(*options) == Some(e),
        },
{
    if options.significant_figures < 3 || options.significant_figures > 7 {
        Err(FormatError::InvalidSigfig)
    } else if options.min_col_width < 2 {
        Err(FormatError::InvalidMinWidth)
    } else if options.max_col_width <= options.min_col_width || options.max_col_width
        >= usize::MAX {
        Err(FormatError::InvalidMaxWidth)
    } else {
        Ok(())
    }
}

fn format_one_column(
    data: &Vec<Vec<String>>,
    headers: &Option<Vec<String>>,
    display_rows: usize,
    c: usize,
    options: &FormatOptions,
) -> (r: Vec<String>)
    requires
        display_rows <= data@.len(),
        options_error(*options) is None,
    ensures
        string_texts(r@) == formatted_column(
            column_cells(
                table_texts(data@).take(display_rows as int),
                header_texts(*headers),
                c as int,
            ),
            options.min_col_width as nat,
            options.max_col_width as nat,
            options.significant_figures as int,
            options.preserve_scientific,
            options.max_decimal_width as nat,
        ),
{
    let ghost d = table_texts(data@).take(display_rows as int);
    let mut col: Vec<&str> = Vec::new();
    match headers {
        Some(h) => {
            if c < h.len() {
                col.push(h[c].as_str());
            }
        },
        None => {},
    }
    assert(cell_texts(col@) =~= header_at(header_texts(*headers), c as int));
    assert(d.take(0) =~= Seq::<Seq<Seq<char>>>::empty());
    let mut r: usize = 0;
    while r < display_rows
        invariant
            r <= display_rows <= data@.len(),
            d == table_texts(data@).take(display_rows as int),
            cell_texts(col@) == header_at(header_texts(*headers), c as int) + cells_at(
                d.take(r as int),
                c as int,
            ),
        decreases display_rows - r,
    {
        let row = &data[r];
        let ghost before = col@;
        assert(d.take(r + 1).drop_last() =~= d.take(r as int));
        assert(d.take(r + 1).last() == string_texts(row@));
        assert(string_texts(row@).len() == row@.len());
        if c < row.len() {
            col.push(row[c].as_str());
            assert(string_texts(row@)[c as int] == row@[c as int]@);
            assert(cell_texts(col@) =~= cell_texts(before).push(row@[c as int]@));
            assert(cells_at(d.take(r + 1), c as int) == cells_at(d.take(r as int), c as int).push(
                row@[c as int]@,
            ));
        } else {
            assert(cells_at(d.take(r + 1), c as int) == cells_at(d.take(r as int), c as int));
        }
        r = r + 1;
        assert(cell_texts(col@) =~= header_at(header_texts(*headers), c as int) + cells_at(
            d.take(r as int),
            c as int,
        ));
    }
    assert(d.take(display_rows as int) =~= d);
    format_strings(
        col.as_slice(),
        options.min_col_width,
        options.max_col_width,
        options.significant_figures as i64,
        options.preserve_scientific,
        options.max_decimal_width,
    )
}

fn format_all_columns(
    data: &Vec<Vec<String>>,
    headers: &Option<Vec<String>>,
    display_rows: usize,
    cols: usize,
    options: &FormatOptions,
) -> (r: (Vec<Vec<String>>, Vec<String>))
    requires
        display_rows <= data@.len(),
        options_error(*options) is None,
    ensures
        table_texts(r.0@) == formatted_columns(
            table_texts(data@).take(display_rows as int),
            header_texts(*headers),
            cols as nat,
            *options,
        ),
        string_texts(r.1@) == top_cells(table_texts(r.0@)),
        r.0@.len() == cols,
        r.1@.len() == cols,
{
    let ghost f = formatted_columns(
        table_texts(data@).take(display_rows as int),
        header_texts(*headers),
        cols as nat,
        *options,
    );
    let mut formatted: Vec<Vec<String>> = Vec::new();
    let mut tops: Vec<String> = Vec::new();
    let mut c: usize = 0;
    while c < cols
        invariant
            c <= cols,
            display_rows <= data@.len(),
            options_error(*options) is None,
            f == formatted_columns(
                table_texts(data@).take(display_rows as int),
                header_texts(*headers),
                cols as nat,
                *options,
            ),
            formatted@.len() == c,
            tops@.len() == c,
            forall|j: int| 0 <= j < c ==> string_texts((#[trigger] formatted@[j])@) == f[j],
            forall|j: int| 0 <= j < c ==> (#[trigger] tops@[j])@ == top_cells(f)[j],
        decreases cols - c,
    {
        let column = format_one_column(data, headers, display_rows, c, options);
        let top = if column.len() > 0 {
            column[0].clone()
        } else {
            String::new()
        };
        assert(string_texts(column@) == f[c as int]);
        assert(top@ == top_cells(f)[c as int]);
        formatted.push(column);
        tops.push(top);
        c = c + 1;
    }
    assert(table_texts(formatted@) =~= f);
    assert(string_texts(tops@) =~= top_cells(f));
    (formatted, tops)
}

/// Formats a table for a terminal that is `term_width` characters wide.
///
/// Settings that are not valid are turned down before anything is
/// formatted. A table without rows gives the text `No data to display`;
/// any other table gives [`table_text`].
pub fn format_table(
    data: Vec<Vec<String>>,
    headers: Option<Vec<String>>,
    options: &FormatOptions,
    term_width: usize,
) -> (r: Result<String, FormatError>)
    ensures
        match r {
            Ok(t) => options_error(*options) is None && t@ == if data@.len() == 0 {
                "No data to display"@
            } else {
                table_text(
                    table_texts(data@),
                    header_texts(headers),
                    *options,
                    term_width as nat,
                )
            },
            Err(e) => options_error(*options) == Some(e),
        },
{
    match check_options(options) {
        Ok(()) => {},
        Err(e) => {
            return Err(e);
        },
    }
    if data.len() == 0 {
        return Ok(string_of(&chars_of("No data to display")));
    }
    let rows: usize = data.len();
    let cols: usize = data[0].len();
    let display_rows: usize = match options.max_rows {
        Some(m) => if rows < m {
            rows
        } else {
            m
        },
        None => rows,
    };
    assert(table_texts(data@)[0] == string_texts(data@[0]@));
    let (formatted, tops) = format_all_columns(&data, &headers, display_rows, cols, options);
    assert(string_texts(tops@).take(cols as int) =~= string_texts(tops@));
    let lead: usize = if options.no_row_numbering {
        0
    } else {
        NUMBER_WIDTH
    };
    let fitting = count_fitting(&tops, cols, lead, term_width);
    let shown: usize = if fitting == 0 && cols > 0 {
        1
    } else {
        fitting
    };
    let with_headers = headers.is_some();
    let start: usize = if with_headers {
        1
    } else {
        0
    };
    let mut out: Vec<char> = Vec::new();
    push_title(&mut out, options);
    push_dimensions_part(&mut out, rows, cols, options);
    push_header_part(&mut out, &formatted, with_headers, shown, options);
    push_data_rows(&mut out, &formatted, start, display_rows, shown, options);
    push_left_out(&mut out, rows, display_rows, cols, shown, &headers, options);
    push_footer(&mut out, options);
    Ok(string_of(&out))
}

} // verus!
