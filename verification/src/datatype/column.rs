//! Layout of a whole column at one fixed width.
//!
//! Every cell is first written in its shown form: a missing value as
//! `NA`, a number at the asked number of significant figures. Numbers are
//! then padded so that their decimal points stand in one line, the width
//! of the column is taken from its widest cell within the given bounds,
//! and every cell is cut or padded to that width and one space more.

use vstd::prelude::*;
use crate::datatype::sigfig::{num_chars, num_text, MAX_SIGFIG, MIN_SIGFIG};
use crate::datatype::{
    cell_texts, double_chars, is_double_text, is_na_text, na_chars, na_chars_of, na_text,
};
use crate::error::FormatError;
use crate::text::{chars_of, push_all, push_spaces, spaces, string_of};
use crate::width::{
    char_columns, char_width, display_width, ellipsis, is_narrow, lemma_display_width_concat,
    lemma_display_width_single, lemma_truncated_narrow, str_columns, truncate_columns, truncated,
};

verus! {

/// Index of the first point at or after index `i`; the length of `s` if
/// there is none.
pub open spec fn first_point(s: Seq<char>, i: int) -> int
    decreases s.len() - i,
{
    if 0 <= i < s.len() && s[i] != '.' {
        first_point(s, i + 1)
    } else if i > s.len() {
        s.len() as int
    } else {
        i
    }
}

/// The number of characters of a number before its point; zero for a cell
/// that is no number.
pub open spec fn whole_len(p: Seq<char>) -> nat {
    if is_double_text(p) {
        first_point(p, 0) as nat
    } else {
        0
    }
}

/// The number of characters of a number behind its point; zero for a cell
/// that is no number or has no point.
pub open spec fn fract_len(p: Seq<char>) -> nat {
    let dot = first_point(p, 0);
    if is_double_text(p) && dot < p.len() {
        (first_point(p, dot + 1) - (dot + 1)) as nat
    } else {
        0
    }
}

/// The shown form of one cell before it is laid out.
pub open spec fn prepared_text(cell: Seq<char>, sigfig: int, preserve: bool, max_decimal: nat) -> Seq<
    char,
> {
    num_text(na_text(cell), sigfig, preserve, max_decimal)
}

/// The shown forms of the cells of a column.
pub open spec fn prepared_column(
    cells: Seq<Seq<char>>,
    sigfig: int,
    preserve: bool,
    max_decimal: nat,
) -> Seq<Seq<char>> {
    cells.map_values(|c: Seq<char>| prepared_text(c, sigfig, preserve, max_decimal))
}

/// The greatest [`whole_len`] of the cells; zero for no cells.
pub open spec fn max_whole(ps: Seq<Seq<char>>) -> nat
    decreases ps.len(),
{
    if ps.len() == 0 {
        0
    } else if max_whole(ps.drop_last()) >= whole_len(ps.last()) {
        max_whole(ps.drop_last())
    } else {
        whole_len(ps.last())
    }
}

/// The greatest [`fract_len`] of the cells; zero for no cells.
pub open spec fn max_fract(ps: Seq<Seq<char>>) -> nat
    decreases ps.len(),
{
    if ps.len() == 0 {
        0
    } else if max_fract(ps.drop_last()) >= fract_len(ps.last()) {
        max_fract(ps.drop_last())
    } else {
        fract_len(ps.last())
    }
}

/// One cell with its decimal point moved into line.
///
/// In a column where some number has digits behind its point, a number
/// gets spaces in front until its whole part is `whole` characters long,
/// and spaces behind until its fraction is `fract` characters long. A
/// missing value is treated as a whole part of two characters. Any other
/// cell, and every cell of a column without fractions, stays as it is.
pub open spec fn aligned_text(p: Seq<char>, whole: nat, fract: nat) -> Seq<char> {
    if fract > 0 && is_double_text(p) {
        spaces((whole - whole_len(p)) as nat) + p + spaces((fract - fract_len(p)) as nat)
    } else if fract > 0 && is_na_text(p) {
        spaces(
            if 2 < whole {
                (whole - 2) as nat
            } else {
                0
            },
        ) + p + spaces(fract)
    } else {
        p
    }
}

/// The cells of a column with their decimal points in one line.
pub open spec fn aligned_column(ps: Seq<Seq<char>>) -> Seq<Seq<char>> {
    ps.map_values(|p: Seq<char>| aligned_text(p, max_whole(ps), max_fract(ps)))
}

/// The greatest display width of the cells; zero for no cells.
pub open spec fn max_width(cells: Seq<Seq<char>>) -> nat
    decreases cells.len(),
{
    if cells.len() == 0 {
        0
    } else if max_width(cells.drop_last()) >= display_width(cells.last()) {
        max_width(cells.drop_last())
    } else {
        display_width(cells.last())
    }
}

/// `n` held between `lower` and `upper`.
pub open spec fn clamped(n: nat, lower: nat, upper: nat) -> nat {
    if n < lower {
        lower
    } else if n > upper {
        upper
    } else {
        n
    }
}

/// The width of a column: the greatest display width of its cells, held
/// between `lower` and `upper`.
pub open spec fn column_width(cells: Seq<Seq<char>>, lower: nat, upper: nat) -> nat {
    clamped(max_width(cells), lower, upper)
}

/// One cell at the width `width` of its column, with one space behind it.
///
/// A cell wider than the column is cut to what fits into one column less
/// and an ellipsis is put in its place; any other cell is padded with
/// spaces.
pub open spec fn final_cell(a: Seq<char>, width: nat) -> Seq<char> {
    if display_width(a) > width {
        truncated(a, (width - 1) as nat) + seq![ellipsis()] + seq![' ']
    } else {
        a + spaces((width - display_width(a) + 1) as nat)
    }
}

/// The cells of a column before they are cut or padded: each in its shown
/// form, the decimal points in one line.
pub open spec fn laid_out(cells: Seq<Seq<char>>, sigfig: int, preserve: bool, max_decimal: nat) -> Seq<
    Seq<char>,
> {
    aligned_column(prepared_column(cells, sigfig, preserve, max_decimal))
}

/// The formatted column: every cell of [`laid_out`] at the width of the
/// column.
pub open spec fn formatted_column(
    cells: Seq<Seq<char>>,
    lower: nat,
    upper: nat,
    sigfig: int,
    preserve: bool,
    max_decimal: nat,
) -> Seq<Seq<char>> {
    let a = laid_out(cells, sigfig, preserve, max_decimal);
    a.map_values(|c: Seq<char>| final_cell(c, column_width(a, lower, upper)))
}

/// Whether a cell can be shown at exactly the width `width`: it is no
/// wider, or what is cut from it ends exactly one column short of it. (A
/// cell cannot where the cut would fall inside a character that is two
/// columns wide.)
pub open spec fn fills(a: Seq<char>, width: nat) -> bool {
    display_width(a) <= width || display_width(truncated(a, (width - 1) as nat)) == width - 1
}

/// The width of a formatted column: the width of its cells once they are
/// laid out, held between `lower` and `upper`.
pub open spec fn final_width(
    cells: Seq<Seq<char>>,
    lower: nat,
    upper: nat,
    sigfig: int,
    preserve: bool,
    max_decimal: nat,
) -> nat {
    column_width(laid_out(cells, sigfig, preserve, max_decimal), lower, upper)
}

/// The texts of a vector of strings.
pub open spec fn string_texts(v: Seq<String>) -> Seq<Seq<char>> {
    v.map_values(|s: String| s@)
}

/// Spaces are one column wide each.
pub proof fn lemma_spaces_width(n: nat)
    requires
        char_width(' ') == 1,
    ensures
        display_width(spaces(n)) == n,
    decreases n,
{
    if n > 0 {
        lemma_spaces_width((n - 1) as nat);
        assert(spaces(n).drop_last() =~= spaces((n - 1) as nat));
    }
}

/// A cell that [`fills`] the width of its column is, once cut or padded,
/// exactly one column wider than the column.
pub proof fn lemma_final_cell_width(a: Seq<char>, width: nat)
    requires
        char_width(' ') == 1,
        char_width(ellipsis()) == 1,
        fills(a, width),
    ensures
        display_width(final_cell(a, width)) == width + 1,
{
    if display_width(a) > width {
        let t = truncated(a, (width - 1) as nat);
        lemma_display_width_concat(t, seq![ellipsis()]);
        lemma_display_width_concat(t + seq![ellipsis()], seq![' ']);
        lemma_display_width_single(ellipsis());
        lemma_display_width_single(' ');
    } else {
        let pad = spaces((width - display_width(a) + 1) as nat);
        lemma_display_width_concat(a, pad);
        lemma_spaces_width((width - display_width(a) + 1) as nat);
    }
}

/// A cell without a character of more than one column can be shown at
/// any width of one column or more.
pub proof fn lemma_narrow_fills(a: Seq<char>, width: nat)
    requires
        is_narrow(a),
        width >= 1,
    ensures
        fills(a, width),
{
    if display_width(a) > width {
        lemma_truncated_narrow(a, (width - 1) as nat);
    }
}

/// No cell has a longer whole part or fraction than the greatest.
pub proof fn lemma_max_parts_bound(ps: Seq<Seq<char>>, i: int)
    requires
        0 <= i < ps.len(),
    ensures
        whole_len(ps[i]) <= max_whole(ps),
        fract_len(ps[i]) <= max_fract(ps),
    decreases ps.len(),
{
    if i < ps.len() - 1 {
        lemma_max_parts_bound(ps.drop_last(), i);
    }
}

/// No cell is wider than the widest.
pub proof fn lemma_max_width_bound(cells: Seq<Seq<char>>, i: int)
    requires
        0 <= i < cells.len(),
    ensures
        display_width(cells[i]) <= max_width(cells),
    decreases cells.len(),
{
    if i < cells.len() - 1 {
        lemma_max_width_bound(cells.drop_last(), i);
    }
}

/// Index of the first point at or after index `i`.
pub(crate) fn find_point(p: &Vec<char>, i: usize) -> (j: usize)
    requires
        i <= p.len(),
    ensures
        j == first_point(p@, i as int),
        i <= j <= p.len(),
{
    let mut j: usize = i;
    while j < p.len() && p[j] != '.'
        invariant
            i <= j <= p.len(),
            first_point(p@, i as int) == first_point(p@, j as int),
        decreases p.len() - j,
    {
        j = j + 1;
    }
    j
}

fn parts_of(p: &Vec<char>) -> (r: (bool, usize, usize))
    ensures
        r.0 == is_double_text(p@),
        r.1 == whole_len(p@),
        r.2 == fract_len(p@),
{
    if !double_chars(p) {
        return (false, 0, 0);
    }
    let dot = find_point(p, 0);
    if dot < p.len() {
        let end = find_point(p, dot + 1);
        (true, dot, end - (dot + 1))
    } else {
        (true, dot, 0)
    }
}

fn align(p: &Vec<char>, number: bool, whole: usize, fract: usize, most_whole: usize, most_fract: usize) -> (a: Vec<char>)
    requires
        number == is_double_text(p@),
        whole == whole_len(p@),
        fract == fract_len(p@),
        whole <= most_whole,
        fract <= most_fract,
    ensures
        a@ == aligned_text(p@, most_whole as nat, most_fract as nat),
{
    let mut a: Vec<char> = Vec::new();
    if most_fract > 0 && number {
        push_spaces(&mut a, most_whole - whole);
        push_all(&mut a, p);
        push_spaces(&mut a, most_fract - fract);
    } else if most_fract > 0 && na_chars(p) {
        if 2 < most_whole {
            push_spaces(&mut a, most_whole - 2);
        } else {
            assert(a@ =~= a@ + spaces(0));
        }
        push_all(&mut a, p);
        push_spaces(&mut a, most_fract);
    } else {
        push_all(&mut a, p);
        assert(a@ =~= p@);
    }
    a
}

fn finish(a: &String, width: usize, column: usize) -> (r: String)
    requires
        width == display_width(a@),
        column < usize::MAX,
        width > column ==> column >= 1,
    ensures
        r@ == final_cell(a@, column as nat),
{
    let mut out: Vec<char> = Vec::new();
    if width > column {
        let head = truncate_columns(a.as_str(), column - 1);
        push_all(&mut out, &chars_of(head.as_str()));
        out.push('\u{2026}');
        out.push(' ');
        assert(out@ =~= truncated(a@, (column - 1) as nat) + seq![ellipsis()] + seq![' ']);
    } else {
        push_all(&mut out, &chars_of(a.as_str()));
        push_spaces(&mut out, column - width + 1);
    }
    string_of(&out)
}

/// Formats a column: every cell in its shown form, decimal points in one
/// line, all cells at one width and one space more.
///
/// The result has one string for each cell, in the order of the cells. The
/// width of the column is the greatest display width of the laid-out
/// cells, held between `lower_column_width` and `upper_column_width`.
/// Every result is exactly one column wider than that, unless it had to be
/// cut inside a character that is two columns wide.
pub fn format_strings(
    vec_col: &[&str],
    lower_column_width: usize,
    upper_column_width: usize,
    sigfig: i64,
    preserve_scientific: bool,
    max_decimal_width: usize,
) -> (r: Vec<String>)
    requires
        lower_column_width <= upper_column_width,
        1 <= upper_column_width < usize::MAX,
        MIN_SIGFIG <= sigfig <= MAX_SIGFIG,
    ensures
        r@.len() == vec_col@.len(),
        string_texts(r@) == formatted_column(
            cell_texts(vec_col@),
            lower_column_width as nat,
            upper_column_width as nat,
            sigfig as int,
            preserve_scientific,
            max_decimal_width as nat,
        ),
        forall|i: int|
            0 <= i < r@.len() && fills(
                laid_out(
                    cell_texts(vec_col@),
                    sigfig as int,
                    preserve_scientific,
                    max_decimal_width as nat,
                )[i],
                final_width(
                    cell_texts(vec_col@),
                    lower_column_width as nat,
                    upper_column_width as nat,
                    sigfig as int,
                    preserve_scientific,
                    max_decimal_width as nat,
                ),
            ) ==> display_width(#[trigger] r@[i]@) == final_width(
                cell_texts(vec_col@),
                lower_column_width as nat,
                upper_column_width as nat,
                sigfig as int,
                preserve_scientific,
                max_decimal_width as nat,
            ) + 1,
        forall|i: int|
            0 <= i < r@.len() && is_narrow(
                laid_out(
                    cell_texts(vec_col@),
                    sigfig as int,
                    preserve_scientific,
                    max_decimal_width as nat,
                )[i],
            ) ==> display_width(#[trigger] r@[i]@) == final_width(
                cell_texts(vec_col@),
                lower_column_width as nat,
                upper_column_width as nat,
                sigfig as int,
                preserve_scientific,
                max_decimal_width as nat,
            ) + 1,
{
    let n: usize = vec_col.len();
    let ghost cells = cell_texts(vec_col@);
    let ghost ps = prepared_column(
        cells,
        sigfig as int,
        preserve_scientific,
        max_decimal_width as nat,
    );
    let mut prepared: Vec<Vec<char>> = Vec::new();
    let mut numbers: Vec<bool> = Vec::new();
    let mut wholes: Vec<usize> = Vec::new();
    let mut fracts: Vec<usize> = Vec::new();
    let mut most_whole: usize = 0;
    let mut most_fract: usize = 0;
    let mut i: usize = 0;
    while i < n
        invariant
            i <= n,
            n == vec_col@.len(),
            MIN_SIGFIG <= sigfig <= MAX_SIGFIG,
            cells == cell_texts(vec_col@),
            ps == prepared_column(
                cells,
                sigfig as int,
                preserve_scientific,
                max_decimal_width as nat,
            ),
            prepared@.len() == i,
            numbers@.len() == i,
            wholes@.len() == i,
            fracts@.len() == i,
            forall|j: int| 0 <= j < i ==> (#[trigger] prepared@[j])@ == ps[j],
            forall|j: int| 0 <= j < i ==> #[trigger] numbers@[j] == is_double_text(ps[j]),
            forall|j: int| 0 <= j < i ==> #[trigger] wholes@[j] == whole_len(ps[j]),
            forall|j: int| 0 <= j < i ==> #[trigger] fracts@[j] == fract_len(ps[j]),
            most_whole == max_whole(ps.take(i as int)),
            most_fract == max_fract(ps.take(i as int)),
        decreases n - i,
    {
        let p = num_chars(
            &na_chars_of(chars_of(vec_col[i])),
            sigfig,
            preserve_scientific,
            max_decimal_width,
        );
        assert(p@ == ps[i as int]);
        let (number, whole, fract) = parts_of(&p);
        assert(ps.take(i + 1).drop_last() =~= ps.take(i as int));
        assert(ps.take(i + 1).last() == ps[i as int]);
        if whole > most_whole {
            most_whole = whole;
        }
        if fract > most_fract {
            most_fract = fract;
        }
        prepared.push(p);
        numbers.push(number);
        wholes.push(whole);
        fracts.push(fract);
        i = i + 1;
    }
    assert(ps.take(n as int) =~= ps);
    let ghost al = aligned_column(ps);
    let mut aligned: Vec<String> = Vec::new();
    let mut widths: Vec<usize> = Vec::new();
    let mut widest: usize = 0;
    let mut i: usize = 0;
    while i < n
        invariant
            i <= n,
            ps.len() == n,
            al == aligned_column(ps),
            prepared@.len() == n,
            numbers@.len() == n,
            wholes@.len() == n,
            fracts@.len() == n,
            forall|j: int| 0 <= j < n ==> (#[trigger] prepared@[j])@ == ps[j],
            forall|j: int| 0 <= j < n ==> #[trigger] numbers@[j] == is_double_text(ps[j]),
            forall|j: int| 0 <= j < n ==> #[trigger] wholes@[j] == whole_len(ps[j]),
            forall|j: int| 0 <= j < n ==> #[trigger] fracts@[j] == fract_len(ps[j]),
            most_whole == max_whole(ps),
            most_fract == max_fract(ps),
            aligned@.len() == i,
            widths@.len() == i,
            forall|j: int| 0 <= j < i ==> (#[trigger] aligned@[j])@ == al[j],
            forall|j: int| 0 <= j < i ==> #[trigger] widths@[j] == display_width(al[j]),
            widest == max_width(al.take(i as int)),
        decreases n - i,
    {
        proof {
            lemma_max_parts_bound(ps, i as int);
        }
        let a = align(&prepared[i], numbers[i], wholes[i], fracts[i], most_whole, most_fract);
        let text = string_of(&a);
        let width = str_columns(text.as_str());
        assert(al.take(i + 1).drop_last() =~= al.take(i as int));
        assert(al.take(i + 1).last() == al[i as int]);
        if width > widest {
            widest = width;
        }
        aligned.push(text);
        widths.push(width);
        i = i + 1;
    }
    assert(al.take(n as int) =~= al);
    let column: usize = if widest < lower_column_width {
        lower_column_width
    } else if widest > upper_column_width {
        upper_column_width
    } else {
        widest
    };
    assert(column == column_width(al, lower_column_width as nat, upper_column_width as nat));
    // every finished cell ends in spaces, or in an ellipsis and a space
    let _space = char_columns(' ');
    let _ellipsis = char_columns('\u{2026}');
    let mut r: Vec<String> = Vec::new();
    let mut i: usize = 0;
    while i < n
        invariant
            i <= n,
            al.len() == n,
            aligned@.len() == n,
            widths@.len() == n,
            forall|j: int| 0 <= j < n ==> (#[trigger] aligned@[j])@ == al[j],
            forall|j: int| 0 <= j < n ==> #[trigger] widths@[j] == display_width(al[j]),
            column < usize::MAX,
            column == column_width(al, lower_column_width as nat, upper_column_width as nat),
            1 <= upper_column_width,
            char_width(' ') == 1,
            char_width(ellipsis()) == 1,
            r@.len() == i,
            forall|j: int| 0 <= j < i ==> (#[trigger] r@[j])@ == final_cell(al[j], column as nat),
            forall|j: int|
                0 <= j < i && fills(al[j], column as nat) ==> display_width((#[trigger] r@[j])@)
                    == column + 1,
            forall|j: int|
                0 <= j < i && is_narrow(al[j]) ==> display_width((#[trigger] r@[j])@) == column
                    + 1,
        decreases n - i,
    {
        proof {
            lemma_max_width_bound(al, i as int);
        }
        let cell = finish(&aligned[i], widths[i], column);
        proof {
            if is_narrow(al[i as int]) && widths@[i as int] > column {
                lemma_narrow_fills(al[i as int], column as nat);
            }
            if fills(al[i as int], column as nat) {
                lemma_final_cell_width(al[i as int], column as nat);
            }
        }
        r.push(cell);
        i = i + 1;
    }
    assert(string_texts(r@) =~= formatted_column(
        cells,
        lower_column_width as nat,
        upper_column_width as nat,
        sigfig as int,
        preserve_scientific,
        max_decimal_width as nat,
    ));
    r
}

/// The width of a column of finished cells: the greatest display width
/// among them, held between `min_width` and `max_width`.
pub fn calculate_column_width(column: &[String], min_width: usize, max_width: usize) -> (w: usize)
    requires
        min_width <= max_width,
    ensures
        w == column_width(string_texts(column@), min_width as nat, max_width as nat),
{
    let ghost cells = string_texts(column@);
    let mut widest: usize = 0;
    let mut i: usize = 0;
    while i < column.len()
        invariant
            i <= column.len(),
            cells == string_texts(column@),
            widest == self::max_width(cells.take(i as int)),
        decreases column.len() - i,
    {
        let width = str_columns(column[i].as_str());
        assert(cells.take(i + 1).drop_last() =~= cells.take(i as int));
        assert(cells.take(i + 1).last() == cells[i as int]);
        if width > widest {
            widest = width;
        }
        i = i + 1;
    }
    assert(cells.take(column.len() as int) =~= cells);
    if widest < min_width {
        min_width
    } else if widest > max_width {
        max_width
    } else {
        widest
    }
}

/// The settings for formatting a column.
#[derive(Debug, Clone, Copy)]
pub struct FormatConfig {
    pub min_column_width: usize,
    pub max_column_width: usize,
    pub significant_figures: i64,
    pub preserve_scientific: bool,
    pub max_decimal_width: usize,
}

/// What is wrong with a choice of settings, if anything: the number of
/// significant figures must lie between 3 and 7, the least width must be
/// at least 2, and the greatest width must exceed the least. They are
/// looked at in this order.
pub open spec fn config_error(min_width: nat, max_width: nat, sigfig: int) -> Option<FormatError> {
    if sigfig < MIN_SIGFIG || sigfig > MAX_SIGFIG {
        Some(FormatError::InvalidSigfig)
    } else if min_width < 2 {
        Some(FormatError::InvalidMinWidth)
    } else if max_width <= min_width || max_width >= usize::MAX {
        Some(FormatError::InvalidMaxWidth)
    } else {
        None
    }
}

impl FormatConfig {
    /// What is wrong with these settings, if anything.
    pub open spec fn error(&self) -> Option<FormatError> {
        config_error(
            self.min_column_width as nat,
            self.max_column_width as nat,
            self.significant_figures as int,
        )
    }

    /// The settings, if they are valid; what is wrong with them otherwise.
    pub fn new(
        min_column_width: usize,
        max_column_width: usize,
        significant_figures: i64,
        preserve_scientific: bool,
        max_decimal_width: usize,
    ) -> (r: Result<FormatConfig, FormatError>)
        ensures
            match r {
                Ok(c) => c.error() is None && c == (FormatConfig {
                    min_column_width,
                    max_column_width,
                    significant_figures,
                    preserve_scientific,
                    max_decimal_width,
                }),
                Err(e) => config_error(
                    min_column_width as nat,
                    max_column_width as nat,
                    significant_figures as int,
                ) == Some(e),
            },
    {
        let c = FormatConfig {
            min_column_width,
            max_column_width,
            significant_figures,
            preserve_scientific,
            max_decimal_width,
        };
        match c.validate() {
            Ok(()) => Ok(c),
            Err(e) => Err(e),
        }
    }

    /// Checks the settings.
    pub fn validate(&self) -> (r: Result<(), FormatError>)
        ensures
            match r {
                Ok(()) => self.error() is None,
                Err(e) => self.error() == Some(e),
            },
    {
        if self.significant_figures < MIN_SIGFIG || self.significant_figures > MAX_SIGFIG {
            Err(FormatError::InvalidSigfig)
        } else if self.min_column_width < 2 {
            Err(FormatError::InvalidMinWidth)
        } else if self.max_column_width <= self.min_column_width || self.max_column_width
            >= usize::MAX {
            Err(FormatError::InvalidMaxWidth)
        } else {
            Ok(())
        }
    }
}

/// Formats a column as [`format_strings`] does, after checking the
/// settings: with settings that are not valid nothing is formatted and
/// what is wrong with them is returned.
pub fn format_column(cells: &[&str], config: &FormatConfig) -> (r: Result<Vec<String>, FormatError>)
    ensures
        match r {
            Ok(v) => config.error() is None && v@.len() == cells@.len() && string_texts(v@)
                == formatted_column(
                cell_texts(cells@),
                config.min_column_width as nat,
                config.max_column_width as nat,
                config.significant_figures as int,
                config.preserve_scientific,
                config.max_decimal_width as nat,
            ),
            Err(e) => config.error() == Some(e),
        },
{
    match config.validate() {
        Ok(()) => Ok(
            format_strings(
                cells,
                config.min_column_width,
                config.max_column_width,
                config.significant_figures,
                config.preserve_scientific,
                config.max_decimal_width,
            ),
        ),
        Err(e) => Err(e),
    }
}

} // verus!
