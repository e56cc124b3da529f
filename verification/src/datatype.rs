//! Classification of raw cell text.
//!
//! A cell is plain text. Each predicate here decides one question about
//! its spelling; [`infer_type_from_string`] asks them in a fixed order and
//! [`get_col_data_type`] takes the majority over a column.

use vstd::prelude::*;
use vstd::string::StringSliceAdditionalSpecFns;
use crate::datatype::sigfig::{num_chars, num_text, MAX_SIGFIG, MIN_SIGFIG};
use crate::error::FormatError;
use crate::text::{
    chars_of, digits_end, is_digit, nat_text, push_nat, push_str, skip_digits, skip_spaces,
    spaces_end, string_of, text_is, trim, trimmed,
};

pub mod column;
pub mod sigfig;

pub use crate::datatype::column::{calculate_column_width, format_strings};

verus! {

/// The kind of value that a cell, or a whole column, holds.
#[derive(Debug, Clone, Copy, PartialEq, Eq, Structural)]
pub enum ValueType {
    /// `true`, `false` and their short and capitalised spellings, `1`, `0`.
    Boolean,
    /// A whole number without leading zeros.
    Integer,
    /// Anything else that reads as a floating-point literal.
    Double,
    /// Text that holds a `YYYY-MM-DD` date.
    Date,
    /// Exactly a `HH:MM:SS` time.
    Time,
    /// Text that starts with a `HH:MM:SS` time and goes on.
    DateTime,
    /// Free text.
    Character,
    /// A missing value.
    Na,
}

/// The spellings of a boolean.
pub open spec fn is_logical_text(s: Seq<char>) -> bool {
    ||| s == "true"@
    ||| s == "false"@
    ||| s == "TRUE"@
    ||| s == "FALSE"@
    ||| s == "True"@
    ||| s == "False"@
    ||| s == "t"@
    ||| s == "f"@
    ||| s == "T"@
    ||| s == "F"@
    ||| s == "1"@
    ||| s == "0"@
}

/// The spellings of a missing value, the empty text aside.
pub open spec fn is_na_word(s: Seq<char>) -> bool {
    ||| s == "NA"@
    ||| s == "N/A"@
    ||| s == "NaN"@
    ||| s == "NAN"@
    ||| s == "null"@
    ||| s == "Null"@
    ||| s == "None"@
    ||| s == "none"@
    ||| s == "na"@
    ||| s == "nan"@
    ||| s == "missing"@
    ||| s == "n/a"@
}

/// A missing value: the empty text or one of the spellings of
/// [`is_na_word`], with nothing around it.
pub open spec fn is_na_text(s: Seq<char>) -> bool {
    s.len() == 0 || is_na_word(s)
}

/// A missing value that may stand in a padded cell: the empty text, or a
/// spelling of [`is_na_word`] with white space before or after it.
pub open spec fn is_na_padded_text(s: Seq<char>) -> bool {
    s.len() == 0 || is_na_word(trimmed(s))
}

/// Whether a sign character stands at index `i`.
pub open spec fn sign_at(s: Seq<char>, i: int) -> bool {
    0 <= i < s.len() && (s[i] == '+' || s[i] == '-')
}

/// Index just past an optional sign at index `i`.
pub open spec fn sign_end(s: Seq<char>, i: int) -> int {
    if sign_at(s, i) {
        i + 1
    } else {
        i
    }
}

/// An integer: an optional sign, then either `0` or a digit other than
/// zero followed by any digits; white space may surround it.
pub open spec fn is_integer_text(s: Seq<char>) -> bool {
    let a = sign_end(s, spaces_end(s, 0));
    let b = digits_end(s, a);
    &&& b > a
    &&& (s[a] != '0' || b == a + 1)
    &&& spaces_end(s, b) == s.len()
}

/// Whether an exponent marker stands at index `i`.
pub open spec fn exponent_mark_at(s: Seq<char>, i: int) -> bool {
    0 <= i < s.len() && (s[i] == 'e' || s[i] == 'E')
}

/// Whether an exponent (a marker, an optional sign, at least one digit)
/// starts at index `i` and runs to the end of `s`.
pub open spec fn exponent_to_end(s: Seq<char>, i: int) -> bool {
    let d = sign_end(s, i + 1);
    &&& exponent_mark_at(s, i)
    &&& digits_end(s, d) > d
    &&& digits_end(s, d) == s.len()
}

/// Whether a point stands at index `i`.
pub open spec fn point_at(s: Seq<char>, i: int) -> bool {
    0 <= i < s.len() && s[i] == '.'
}

/// Index just past the mantissa (digits, optionally a point, digits) that
/// starts at index `a`.
pub open spec fn mantissa_end(s: Seq<char>, a: int) -> int {
    let b = digits_end(s, a);
    if point_at(s, b) {
        digits_end(s, b + 1)
    } else {
        b
    }
}

/// The number of digits in the mantissa that starts at index `a`.
pub open spec fn mantissa_digits(s: Seq<char>, a: int) -> int {
    let b = digits_end(s, a);
    if point_at(s, b) {
        mantissa_end(s, a) - a - 1
    } else {
        b - a
    }
}

/// The lower-case form of an ASCII letter; any other character unchanged.
pub open spec fn lower(c: char) -> char {
    if 'A' <= c && c <= 'Z' {
        ((c as u32) + 32) as char
    } else {
        c
    }
}

/// The words for an infinite value or for a value that is no number, in any
/// mix of upper and lower case.
pub open spec fn is_special_word(w: Seq<char>) -> bool {
    let l = w.map_values(|c: char| lower(c));
    l == "inf"@ || l == "infinity"@ || l == "nan"@
}

/// Whether the digits that start at index `a` have no zero in front that
/// could be left out: they are at most one digit, or do not start with a
/// zero.
pub open spec fn no_leading_zero(t: Seq<char>, a: int) -> bool {
    digits_end(t, a) - a <= 1 || t[a] != '0'
}

/// A floating-point literal: an optional sign, then either a special word
/// or a mantissa with at least one digit, no zero in front that could be
/// left out, and an optional exponent.
pub open spec fn is_float_literal(t: Seq<char>) -> bool {
    let a = sign_end(t, 0);
    let c = mantissa_end(t, a);
    ||| is_special_word(t.skip(a))
    ||| (mantissa_digits(t, a) > 0 && no_leading_zero(t, a) && (c == t.len() || exponent_to_end(
        t,
        c,
    )))
}

/// Text that reads as a floating-point number once the white space around
/// it is removed.
pub open spec fn is_double_text(s: Seq<char>) -> bool {
    is_float_literal(trimmed(s))
}

/// An integer or a floating-point number.
pub open spec fn is_number_text(s: Seq<char>) -> bool {
    is_integer_text(s) || is_double_text(s)
}

/// A literal in scientific notation: an optional sign, digits with an
/// optional point that is followed by at least one digit, and an exponent.
pub open spec fn is_scientific_literal(t: Seq<char>) -> bool {
    let a = sign_end(t, 0);
    let b = digits_end(t, a);
    let c = mantissa_end(t, a);
    &&& (if point_at(t, b) {
        c > b + 1
    } else {
        b > a
    })
    &&& exponent_to_end(t, c)
}

/// Scientific notation, white space around it aside.
pub open spec fn is_scientific_text(s: Seq<char>) -> bool {
    is_scientific_literal(trimmed(s))
}

/// Text that starts like a negative number: white space, a minus sign,
/// digits, at most one further character that is no line feed, digits,
/// white space.
pub open spec fn is_negative_text(s: Seq<char>) -> bool {
    let a = spaces_end(s, 0);
    let b = digits_end(s, a + 1);
    &&& a < s.len()
    &&& s[a] == '-'
    &&& (spaces_end(s, b) == s.len() || (b < s.len() && s[b] != '\n' && spaces_end(
        s,
        digits_end(s, b + 1),
    ) == s.len()))
}

/// Whether `c` is a digit from zero up to `top`.
pub open spec fn digit_up_to(c: char, top: char) -> bool {
    '0' <= c && c <= top
}

/// Whether a time `HH:MM:SS`, with the hour below 24 and minute and second
/// below 60, stands at index `i`.
pub open spec fn time_at(s: Seq<char>, i: int) -> bool {
    &&& 0 <= i
    &&& i + 8 <= s.len()
    &&& ((digit_up_to(s[i], '1') && is_digit(s[i + 1])) || (s[i] == '2' && digit_up_to(
        s[i + 1],
        '3',
    )))
    &&& s[i + 2] == ':'
    &&& digit_up_to(s[i + 3], '5')
    &&& is_digit(s[i + 4])
    &&& s[i + 5] == ':'
    &&& digit_up_to(s[i + 6], '5')
    &&& is_digit(s[i + 7])
}

/// Exactly a time.
pub open spec fn is_time_text(s: Seq<char>) -> bool {
    s.len() == 8 && time_at(s, 0)
}

/// Text that starts with a time.
pub open spec fn is_date_time_text(s: Seq<char>) -> bool {
    time_at(s, 0)
}

/// Whether a date `YYYY-MM-DD` stands at index `i`.
pub open spec fn date_at(s: Seq<char>, i: int) -> bool {
    &&& 0 <= i
    &&& i + 10 <= s.len()
    &&& is_digit(s[i])
    &&& is_digit(s[i + 1])
    &&& is_digit(s[i + 2])
    &&& is_digit(s[i + 3])
    &&& s[i + 4] == '-'
    &&& is_digit(s[i + 5])
    &&& is_digit(s[i + 6])
    &&& s[i + 7] == '-'
    &&& is_digit(s[i + 8])
    &&& is_digit(s[i + 9])
}

/// Text that holds a date anywhere.
pub open spec fn is_date_text(s: Seq<char>) -> bool {
    exists|i: int| date_at(s, i)
}

/// The kind of one cell. The questions are asked in this order and the
/// first that holds decides: time, boolean, integer, date-time, date,
/// double, missing; what is none of these is free text.
pub open spec fn classify_text(s: Seq<char>) -> ValueType {
    if is_time_text(s) {
        ValueType::Time
    } else if is_logical_text(s) {
        ValueType::Boolean
    } else if is_integer_text(s) {
        ValueType::Integer
    } else if is_date_time_text(s) {
        ValueType::DateTime
    } else if is_date_text(s) {
        ValueType::Date
    } else if is_double_text(s) {
        ValueType::Double
    } else if is_na_text(s) {
        ValueType::Na
    } else {
        ValueType::Character
    }
}

fn logical_chars(t: &Vec<char>) -> (b: bool)
    ensures
        b == is_logical_text(t@),
{
    text_is(t, "true") || text_is(t, "false") || text_is(t, "TRUE") || text_is(t, "FALSE")
        || text_is(t, "True") || text_is(t, "False") || text_is(t, "t") || text_is(t, "f")
        || text_is(t, "T") || text_is(t, "F") || text_is(t, "1") || text_is(t, "0")
}

fn na_word_chars(t: &Vec<char>) -> (b: bool)
    ensures
        b == is_na_word(t@),
{
    text_is(t, "NA") || text_is(t, "N/A") || text_is(t, "NaN") || text_is(t, "NAN") || text_is(
        t,
        "null",
    ) || text_is(t, "Null") || text_is(t, "None") || text_is(t, "none") || text_is(t, "na")
        || text_is(t, "nan") || text_is(t, "missing") || text_is(t, "n/a")
}

/// Whether the characters `t` spell a missing value.
pub(crate) fn na_chars(t: &Vec<char>) -> (b: bool)
    ensures
        b == is_na_text(t@),
{
    t.len() == 0 || na_word_chars(t)
}

/// Index just past an optional sign at index `i`.
pub(crate) fn skip_sign(t: &Vec<char>, i: usize) -> (j: usize)
    requires
        i <= t.len(),
    ensures
        j == sign_end(t@, i as int),
        i <= j <= t.len(),
{
    if i < t.len() && (t[i] == '+' || t[i] == '-') {
        i + 1
    } else {
        i
    }
}

fn integer_chars(t: &Vec<char>) -> (b: bool)
    ensures
        b == is_integer_text(t@),
{
    let a = skip_sign(t, skip_spaces(t, 0));
    let b = skip_digits(t, a);
    if b == a {
        return false;
    }
    if t[a] == '0' && b != a + 1 {
        return false;
    }
    skip_spaces(t, b) == t.len()
}

/// Index just past the mantissa that starts at index `a`, and the number
/// of its digits.
pub(crate) fn skip_mantissa(t: &Vec<char>, a: usize) -> (r: (usize, usize))
    requires
        a <= t.len(),
    ensures
        r.0 == mantissa_end(t@, a as int),
        r.1 == mantissa_digits(t@, a as int),
        a <= r.0 <= t.len(),
{
    let b = skip_digits(t, a);
    if b < t.len() && t[b] == '.' {
        let c = skip_digits(t, b + 1);
        (c, c - a - 1)
    } else {
        (b, b - a)
    }
}

fn exponent_chars(t: &Vec<char>, i: usize) -> (b: bool)
    requires
        i <= t.len(),
    ensures
        b == exponent_to_end(t@, i as int),
{
    if i < t.len() && (t[i] == 'e' || t[i] == 'E') {
        let d = skip_sign(t, i + 1);
        let e = skip_digits(t, d);
        e > d && e == t.len()
    } else {
        false
    }
}

/// The lower-case form of an ASCII letter.
pub(crate) fn lower_char(c: char) -> (l: char)
    ensures
        l == lower(c),
{
    if 'A' <= c && c <= 'Z' {
        let b: u8 = c as u8;
        (b + 32) as char
    } else {
        c
    }
}

/// Whether the characters from index `a` on spell an infinite value or a
/// value that is no number.
pub(crate) fn special_word_chars(t: &Vec<char>, a: usize) -> (b: bool)
    requires
        a <= t.len(),
    ensures
        b == is_special_word(t@.skip(a as int)),
{
    let mut l: Vec<char> = Vec::new();
    let mut i: usize = a;
    while i < t.len()
        invariant
            a <= i <= t.len(),
            l@ == t@.subrange(a as int, i as int).map_values(|c: char| lower(c)),
        decreases t.len() - i,
    {
        l.push(lower_char(t[i]));
        i = i + 1;
        assert(l@ =~= t@.subrange(a as int, i as int).map_values(|c: char| lower(c)));
    }
    assert(t@.subrange(a as int, t.len() as int) =~= t@.skip(a as int));
    text_is(&l, "inf") || text_is(&l, "infinity") || text_is(&l, "nan")
}

/// Whether the characters `t` are a floating-point literal.
pub(crate) fn float_literal_chars(t: &Vec<char>) -> (b: bool)
    ensures
        b == is_float_literal(t@),
{
    let a = skip_sign(t, 0);
    if special_word_chars(t, a) {
        return true;
    }
    let (c, digits) = skip_mantissa(t, a);
    let b = skip_digits(t, a);
    digits > 0 && (b - a <= 1 || t[a] != '0') && (c == t.len() || exponent_chars(t, c))
}

/// Whether the characters `t` read as a floating-point number, white
/// space around them aside.
pub(crate) fn double_chars(t: &Vec<char>) -> (b: bool)
    ensures
        b == is_double_text(t@),
{
    let core = trim(t);
    float_literal_chars(&core)
}

/// Whether the characters `t` are a number in scientific notation, white
/// space around them aside.
pub(crate) fn scientific_chars(t: &Vec<char>) -> (b: bool)
    ensures
        b == is_scientific_text(t@),
{
    let core = trim(t);
    let a = skip_sign(&core, 0);
    let b = skip_digits(&core, a);
    let (c, _) = skip_mantissa(&core, a);
    let mantissa = if b < core.len() && core[b] == '.' {
        c > b + 1
    } else {
        b > a
    };
    mantissa && exponent_chars(&core, c)
}

fn negative_chars(t: &Vec<char>) -> (b: bool)
    ensures
        b == is_negative_text(t@),
{
    let a = skip_spaces(t, 0);
    if a >= t.len() || t[a] != '-' {
        return false;
    }
    let b = skip_digits(t, a + 1);
    if skip_spaces(t, b) == t.len() {
        return true;
    }
    if b < t.len() && t[b] != '\n' {
        let c = skip_digits(t, b + 1);
        skip_spaces(t, c) == t.len()
    } else {
        false
    }
}

fn up_to(c: char, top: char) -> (b: bool)
    ensures
        b == digit_up_to(c, top),
{
    '0' <= c && c <= top
}

fn time_chars(t: &Vec<char>) -> (b: bool)
    ensures
        b == time_at(t@, 0),
{
    if t.len() < 8 {
        return false;
    }
    ((up_to(t[0], '1') && up_to(t[1], '9')) || (t[0] == '2' && up_to(t[1], '3'))) && t[2] == ':'
        && up_to(t[3], '5') && up_to(t[4], '9') && t[5] == ':' && up_to(t[6], '5') && up_to(
        t[7],
        '9',
    )
}

fn date_here(t: &Vec<char>, i: usize) -> (b: bool)
    requires
        i + 10 <= t.len(),
    ensures
        b == date_at(t@, i as int),
{
    up_to(t[i], '9') && up_to(t[i + 1], '9') && up_to(t[i + 2], '9') && up_to(t[i + 3], '9')
        && t[i + 4] == '-' && up_to(t[i + 5], '9') && up_to(t[i + 6], '9') && t[i + 7] == '-'
        && up_to(t[i + 8], '9') && up_to(t[i + 9], '9')
}

fn date_chars(t: &Vec<char>) -> (b: bool)
    ensures
        b == is_date_text(t@),
{
    if t.len() < 10 {
        return false;
    }
    let last: usize = t.len() - 10;
    let mut i: usize = 0;
    while i <= last
        invariant
            last == t.len() - 10,
            i <= last + 1,
            forall|j: int| 0 <= j < i ==> !date_at(t@, j),
        decreases last + 1 - i,
    {
        if date_here(t, i) {
            return true;
        }
        i = i + 1;
    }
    false
}

/// The kind of the cell that the characters `t` spell.
pub(crate) fn classify_chars(t: &Vec<char>) -> (k: ValueType)
    ensures
        k == classify_text(t@),
{
    if t.len() == 8 && time_chars(t) {
        ValueType::Time
    } else if logical_chars(t) {
        ValueType::Boolean
    } else if integer_chars(t) {
        ValueType::Integer
    } else if time_chars(t) {
        ValueType::DateTime
    } else if date_chars(t) {
        ValueType::Date
    } else if double_chars(t) {
        ValueType::Double
    } else if na_chars(t) {
        ValueType::Na
    } else {
        ValueType::Character
    }
}

/// Whether `text` spells a boolean: exactly one of `true`, `false`,
/// `TRUE`, `FALSE`, `True`, `False`, `t`, `f`, `T`, `F`, `1`, `0`.
pub fn is_logical(text: &str) -> (b: bool)
    ensures
        b == is_logical_text(text@),
{
    logical_chars(&chars_of(text))
}

/// Whether `text` is an integer without leading zeros, white space around
/// it aside.
pub fn is_integer(text: &str) -> (b: bool)
    ensures
        b == is_integer_text(text@),
{
    integer_chars(&chars_of(text))
}

/// Whether `text` is an integer or a floating-point number.
pub fn is_number(text: &str) -> (b: bool)
    ensures
        b == is_number_text(text@),
{
    let t = chars_of(text);
    integer_chars(&t) || double_chars(&t)
}

/// Whether `text` starts like a negative number.
pub fn is_negative_number(text: &str) -> (b: bool)
    ensures
        b == is_negative_text(text@),
{
    negative_chars(&chars_of(text))
}

/// Whether `text` reads as a floating-point number, white space around it
/// aside.
pub fn is_double(text: &str) -> (b: bool)
    ensures
        b == is_double_text(text@),
{
    double_chars(&chars_of(text))
}

/// Whether `text` is a number in scientific notation, white space around
/// it aside.
pub fn is_scientific_notation(text: &str) -> (b: bool)
    ensures
        b == is_scientific_text(text@),
{
    scientific_chars(&chars_of(text))
}

/// Whether `text` is exactly a time `HH:MM:SS`.
pub fn is_time(text: &str) -> (b: bool)
    ensures
        b == is_time_text(text@),
{
    let t = chars_of(text);
    t.len() == 8 && time_chars(&t)
}

/// Whether `text` holds a date `YYYY-MM-DD` anywhere.
pub fn is_date(text: &str) -> (b: bool)
    ensures
        b == is_date_text(text@),
{
    date_chars(&chars_of(text))
}

/// Whether `text` starts with a time `HH:MM:SS`.
pub fn is_date_time(text: &str) -> (b: bool)
    ensures
        b == is_date_time_text(text@),
{
    time_chars(&chars_of(text))
}

/// Whether `text` is a missing value: empty, or one of the spellings `NA`,
/// `N/A`, `NaN`, `NAN`, `null`, `Null`, `None`, `none`, `na`, `nan`,
/// `missing`, `n/a`.
pub fn is_na(text: &str) -> (b: bool)
    ensures
        b == is_na_text(text@),
{
    na_chars(&chars_of(text))
}

/// Whether `text` is a missing value with white space around it, as it
/// stands in a padded cell.
pub fn is_na_string_padded(text: &str) -> (b: bool)
    ensures
        b == is_na_padded_text(text@),
{
    let t = chars_of(text);
    if t.len() == 0 {
        return true;
    }
    let core = trim(&t);
    na_word_chars(&core)
}

/// The kind of the cell `text`.
pub fn infer_type_from_string(text: &str) -> (k: ValueType)
    ensures
        k == classify_text(text@),
{
    classify_chars(&chars_of(text))
}

/// The text shown for a cell once a missing value is written as `NA`:
/// `NA` for a missing value, the cell itself otherwise.
pub open spec fn na_text(t: Seq<char>) -> Seq<char> {
    if is_na_text(t) {
        "NA"@
    } else {
        t
    }
}

/// `NA` for a missing value, the cell itself otherwise.
pub(crate) fn na_chars_of(t: Vec<char>) -> (r: Vec<char>)
    ensures
        r@ == na_text(t@),
{
    if na_chars(&t) {
        chars_of("NA")
    } else {
        t
    }
}

/// Writes a missing value as `NA` and leaves any other cell as it is.
pub fn format_if_na(text: &str) -> (r: String)
    ensures
        r@ == na_text(text@),
{
    string_of(&na_chars_of(chars_of(text)))
}

/// Writing a missing value as `NA` a second time changes nothing.
pub proof fn lemma_format_if_na_idempotent(t: Seq<char>)
    ensures
        na_text(na_text(t)) == na_text(t),
{
}

/// The text shown for a cell that may hold a number: the number at
/// `sigfig` significant figures, in scientific notation where its decimal
/// text is wider than `max_decimal_width` and its magnitude is extreme;
/// a cell that is already in scientific notation unchanged where
/// `preserve_scientific` is set; any other cell unchanged.
pub fn format_if_num(
    text: &str,
    sigfig: i64,
    preserve_scientific: bool,
    max_decimal_width: usize,
) -> (r: String)
    requires
        MIN_SIGFIG <= sigfig <= MAX_SIGFIG,
    ensures
        r@ == num_text(text@, sigfig as int, preserve_scientific, max_decimal_width as nat),
{
    string_of(&num_chars(&chars_of(text), sigfig, preserve_scientific, max_decimal_width))
}

/// The delimiter that the bytes of an argument name: a single byte names
/// itself, and a backslash followed by `t` names the tab.
pub open spec fn delimiter_of(bytes: Seq<u8>) -> Option<u8> {
    if bytes.len() == 1 {
        Some(bytes[0])
    } else if bytes.len() == 2 && bytes[0] == 0x5C && bytes[1] == 0x74 {
        Some(0x09u8)
    } else {
        None
    }
}

/// The message for an argument of `count` bytes that names no delimiter.
pub open spec fn delimiter_error(src: Seq<char>, count: nat) -> Seq<char> {
    "expected one byte as delimiter, got "@ + nat_text(count) + " bytes (\""@ + src + "\")"@
}

/// Reads a field delimiter from a command-line argument.
pub fn parse_delimiter(src: &str) -> (r: Result<u8, String>)
    ensures
        match r {
            Ok(d) => delimiter_of(src.spec_bytes()) == Some(d),
            Err(m) => delimiter_of(src.spec_bytes()) is None && m@ == delimiter_error(
                src@,
                src.spec_bytes().len(),
            ),
        },
{
    let bytes = src.as_bytes();
    if bytes.len() == 1 {
        Ok(bytes[0])
    } else if bytes.len() == 2 && bytes[0] == 0x5C && bytes[1] == 0x74 {
        Ok(0x09)
    } else {
        let mut m: Vec<char> = Vec::new();
        push_str(&mut m, "expected one byte as delimiter, got ");
        push_nat(&mut m, bytes.len());
        push_str(&mut m, " bytes (\"");
        push_str(&mut m, src);
        push_str(&mut m, "\")");
        Err(string_of(&m))
    }
}

/// How many of the kinds `kinds` are the kind `k`.
pub open spec fn kind_count(kinds: Seq<ValueType>, k: ValueType) -> nat
    decreases kinds.len(),
{
    if kinds.len() == 0 {
        0
    } else {
        kind_count(kinds.drop_last(), k) + if kinds.last() == k {
            1nat
        } else {
            0nat
        }
    }
}

/// The index of the first of the kinds `kinds` that is the kind `k`; their
/// number if none is.
pub open spec fn kind_first(kinds: Seq<ValueType>, k: ValueType) -> nat
    decreases kinds.len(),
{
    if kinds.len() == 0 {
        0
    } else if kind_first(kinds.drop_last(), k) < kinds.len() - 1 {
        kind_first(kinds.drop_last(), k)
    } else if kinds.last() == k {
        (kinds.len() - 1) as nat
    } else {
        kinds.len()
    }
}

/// Whether the kind `a` comes before the kind `b` in a vote: it occurs
/// more often, or as often and first.
pub open spec fn outvotes(kinds: Seq<ValueType>, a: ValueType, b: ValueType) -> bool {
    kind_count(kinds, a) > kind_count(kinds, b) || (kind_count(kinds, a) == kind_count(kinds, b)
        && kind_first(kinds, a) <= kind_first(kinds, b))
}

/// Whether `k` is the dominant kind: it is not the missing kind, it
/// occurs, and it outvotes every other kind that is not the missing kind.
pub open spec fn is_dominant(kinds: Seq<ValueType>, k: ValueType) -> bool {
    &&& k != ValueType::Na
    &&& kind_count(kinds, k) > 0
    &&& forall|other: ValueType| other != ValueType::Na ==> outvotes(kinds, k, other)
}

/// The kinds of the cells of a column.
pub open spec fn column_kinds(cells: Seq<Seq<char>>) -> Seq<ValueType> {
    cells.map_values(|c: Seq<char>| classify_text(c))
}

/// The texts of the cells of a column.
pub open spec fn cell_texts(col: Seq<&str>) -> Seq<Seq<char>> {
    col.map_values(|c: &str| c@)
}

/// A kind that occurs is counted at least once.
pub proof fn lemma_kind_count_positive(kinds: Seq<ValueType>, i: int)
    requires
        0 <= i < kinds.len(),
    ensures
        kind_count(kinds, kinds[i]) > 0,
    decreases kinds.len(),
{
    if i < kinds.len() - 1 {
        lemma_kind_count_positive(kinds.drop_last(), i);
    }
}

/// At most one kind is dominant.
pub proof fn lemma_dominant_unique(kinds: Seq<ValueType>, a: ValueType, b: ValueType)
    requires
        is_dominant(kinds, a),
        is_dominant(kinds, b),
    ensures
        a == b,
{
    assert(outvotes(kinds, a, b));
    assert(outvotes(kinds, b, a));
    lemma_kind_first_found(kinds, a);
    lemma_kind_first_found(kinds, b);
}

/// A kind that is counted stands at the index that [`kind_first`] gives.
pub proof fn lemma_kind_first_found(kinds: Seq<ValueType>, k: ValueType)
    ensures
        kind_first(kinds, k) <= kinds.len(),
        kind_first(kinds, k) < kinds.len() ==> kinds[kind_first(kinds, k) as int] == k,
        kind_count(kinds, k) > 0 ==> kind_first(kinds, k) < kinds.len(),
    decreases kinds.len(),
{
    if kinds.len() > 0 {
        lemma_kind_first_found(kinds.drop_last(), k);
        let f = kind_first(kinds.drop_last(), k);
        if f < kinds.len() - 1 {
            assert(kinds.drop_last()[f as int] == kinds[f as int]);
        }
    }
}

fn tally(kinds: &Vec<ValueType>, k: ValueType) -> (r: (usize, usize))
    ensures
        r.0 == kind_count(kinds@, k),
        r.1 == kind_first(kinds@, k),
{
    let mut count: usize = 0;
    let mut first: usize = 0;
    let mut i: usize = 0;
    while i < kinds.len()
        invariant
            i <= kinds.len(),
            count <= i,
            count == kind_count(kinds@.take(i as int), k),
            first == kind_first(kinds@.take(i as int), k),
            first <= i,
        decreases kinds.len() - i,
    {
        assert(kinds@.take(i + 1).drop_last() =~= kinds@.take(i as int));
        if first < i {
        } else if kinds[i] == k {
            first = i;
        } else {
            first = i + 1;
        }
        if kinds[i] == k {
            count = count + 1;
        }
        i = i + 1;
    }
    assert(kinds@.take(kinds.len() as int) =~= kinds@);
    (count, first)
}

fn leader(kinds: &Vec<ValueType>, a: ValueType, b: ValueType) -> (r: ValueType)
    ensures
        r == a || r == b,
        outvotes(kinds@, r, a),
        outvotes(kinds@, r, b),
{
    let ta = tally(kinds, a);
    let tb = tally(kinds, b);
    if ta.0 > tb.0 || (ta.0 == tb.0 && ta.1 <= tb.1) {
        a
    } else {
        b
    }
}

/// The dominant kind of a column: of the kinds of its cells, the missing
/// kind aside, the one that occurs most often, and of several that occur
/// equally often the one that occurs first.
///
/// A column without a cell that is not missing has no dominant kind.
pub fn get_col_data_type(col: &[&str]) -> (r: Result<ValueType, FormatError>)
    ensures
        match r {
            Ok(k) => is_dominant(column_kinds(cell_texts(col@)), k) && forall|other: ValueType|
                is_dominant(column_kinds(cell_texts(col@)), other) ==> other == k,
            Err(e) => e == FormatError::EmptyColumnKind && forall|i: int|
                0 <= i < col@.len() ==> classify_text(#[trigger] col@[i]@) == ValueType::Na,
        },
{
    let ghost all = column_kinds(cell_texts(col@));
    let mut kinds: Vec<ValueType> = Vec::new();
    let mut i: usize = 0;
    while i < col.len()
        invariant
            i <= col.len(),
            all == column_kinds(cell_texts(col@)),
            kinds@ == all.take(i as int),
        decreases col.len() - i,
    {
        kinds.push(infer_type_from_string(col[i]));
        i = i + 1;
        assert(kinds@ =~= all.take(i as int));
    }
    assert(all.take(col.len() as int) =~= all);
    let b1 = leader(&kinds, ValueType::Boolean, ValueType::Integer);
    let b2 = leader(&kinds, b1, ValueType::Double);
    let b3 = leader(&kinds, b2, ValueType::Date);
    let b4 = leader(&kinds, b3, ValueType::Time);
    let b5 = leader(&kinds, b4, ValueType::DateTime);
    let best = leader(&kinds, b5, ValueType::Character);
    let t = tally(&kinds, best);
    assert forall|other: ValueType| other != ValueType::Na implies outvotes(
        kinds@,
        best,
        other,
    ) by {
        match other {
            ValueType::Boolean => {},
            ValueType::Integer => {},
            ValueType::Double => {},
            ValueType::Date => {},
            ValueType::Time => {},
            ValueType::DateTime => {},
            ValueType::Character => {},
            ValueType::Na => {},
        }
    }
    if t.0 == 0 {
        assert forall|i: int| 0 <= i < col@.len() implies classify_text(#[trigger] col@[i]@)
            == ValueType::Na by {
            lemma_kind_count_positive(kinds@, i);
            assert(kinds@[i] == classify_text(col@[i]@));
            if kinds@[i] != ValueType::Na {
                assert(outvotes(kinds@, best, kinds@[i]));
            }
        }
        Err(FormatError::EmptyColumnKind)
    } else {
        assert forall|other: ValueType| is_dominant(kinds@, other) implies other == best by {
            lemma_dominant_unique(kinds@, other, best);
        }
        Ok(best)
    }
}

} // verus!
