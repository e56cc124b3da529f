//! Character-level helpers shared by the classifiers and the formatters.
//!
//! All text is handled as a sequence of `char`s; contracts speak of the
//! `Seq<char>` view of a `str`, `String` or `Vec<char>`.

use vstd::prelude::*;

verus! {

/// The characters with the Unicode `White_Space` property.
pub open spec fn is_space(c: char) -> bool {
    let n = c as u32;
    ||| (0x09 <= n && n <= 0x0D)
    ||| n == 0x20
    ||| n == 0x85
    ||| n == 0xA0
    ||| n == 0x1680
    ||| (0x2000 <= n && n <= 0x200A)
    ||| n == 0x2028
    ||| n == 0x2029
    ||| n == 0x202F
    ||| n == 0x205F
    ||| n == 0x3000
}

/// The ASCII decimal digits.
pub open spec fn is_digit(c: char) -> bool {
    '0' <= c && c <= '9'
}

/// Whether `c` is white space.
pub fn char_is_space(c: char) -> (b: bool)
    ensures
        b == is_space(c),
{
    let n: u32 = c as u32;
    (0x09 <= n && n <= 0x0D) || n == 0x20 || n == 0x85 || n == 0xA0 || n == 0x1680 || (0x2000 <= n
        && n <= 0x200A) || n == 0x2028 || n == 0x2029 || n == 0x202F || n == 0x205F || n == 0x3000
}

/// Whether `c` is an ASCII decimal digit.
pub fn char_is_digit(c: char) -> (b: bool)
    ensures
        b == is_digit(c),
{
    '0' <= c && c <= '9'
}

/// The characters of `s`, in order.
pub fn chars_of(s: &str) -> (v: Vec<char>)
    ensures
        v@ == s@,
{
    let mut v: Vec<char> = Vec::new();
    for c in it: s.chars()
        invariant
            it.seq() == s@,
            v@ == s@.take(it.index() as int),
    {
        v.push(c);
        assert(v@ =~= s@.take(it.index() + 1));
    }
    assert(s@.take(s@.len() as int) =~= s@);
    v
}

/// Appends one character to a string (`String::push`): the string afterwards
/// holds the characters it held before, followed by `c`.
#[verifier::external_body]
pub(crate) fn push_char(s: &mut String, c: char)
    ensures
        final(s)@ == old(s)@.push(c),
{
    s.push(c)
}

/// The string that holds the characters of `v`, in order.
pub fn string_of(v: &Vec<char>) -> (s: String)
    ensures
        s@ == v@,
{
    let mut s = String::new();
    let mut i: usize = 0;
    while i < v.len()
        invariant
            i <= v.len(),
            s@ == v@.take(i as int),
        decreases v.len() - i,
    {
        push_char(&mut s, v[i]);
        i = i + 1;
        assert(s@ =~= v@.take(i as int));
    }
    assert(v@.take(v.len() as int) =~= v@);
    s
}

/// Whether two texts hold the same characters.
pub fn same_text(a: &Vec<char>, b: &Vec<char>) -> (r: bool)
    ensures
        r == (a@ == b@),
{
    if a.len() != b.len() {
        return false;
    }
    let mut i: usize = 0;
    while i < a.len()
        invariant
            a.len() == b.len(),
            i <= a.len(),
            a@.take(i as int) == b@.take(i as int),
        decreases a.len() - i,
    {
        if a[i] != b[i] {
            return false;
        }
        i = i + 1;
        assert(a@.take(i as int) =~= a@.take(i - 1).push(a@[i - 1]));
        assert(b@.take(i as int) =~= b@.take(i - 1).push(b@[i - 1]));
    }
    assert(a@.take(a.len() as int) =~= a@);
    assert(b@.take(b.len() as int) =~= b@);
    true
}

/// Whether `t` is exactly the text `word`.
pub fn text_is(t: &Vec<char>, word: &str) -> (r: bool)
    ensures
        r == (t@ == word@),
{
    let w = chars_of(word);
    same_text(t, &w)
}

/// Index just past the longest run of white space that starts at `i`.
pub open spec fn spaces_end(s: Seq<char>, i: int) -> int
    decreases s.len() - i,
{
    if 0 <= i < s.len() && is_space(s[i]) {
        spaces_end(s, i + 1)
    } else {
        i
    }
}

/// Index at which the longest run of white space that ends just before `n`
/// starts.
pub open spec fn spaces_start(s: Seq<char>, n: int) -> int
    decreases n,
{
    if 0 < n <= s.len() && is_space(s[n - 1]) {
        spaces_start(s, n - 1)
    } else {
        n
    }
}

/// Index just past the longest run of ASCII digits that starts at `i`.
pub open spec fn digits_end(s: Seq<char>, i: int) -> int
    decreases s.len() - i,
{
    if 0 <= i < s.len() && is_digit(s[i]) {
        digits_end(s, i + 1)
    } else {
        i
    }
}

/// `s` without its leading and trailing white space.
pub open spec fn trimmed(s: Seq<char>) -> Seq<char> {
    let a = spaces_end(s, 0);
    let b = spaces_start(s, s.len() as int);
    if a < b {
        s.subrange(a, b)
    } else {
        Seq::empty()
    }
}

/// Every character of a run of digits is a digit.
pub proof fn lemma_digits_end_run(s: Seq<char>, i: int)
    requires
        0 <= i <= s.len(),
    ensures
        forall|j: int| i <= j < digits_end(s, i) ==> is_digit(#[trigger] s[j]),
    decreases s.len() - i,
{
    if i < s.len() && is_digit(s[i]) {
        lemma_digits_end_run(s, i + 1);
    }
}

/// Index just past the white space that starts at index `i`.
pub fn skip_spaces(v: &Vec<char>, i: usize) -> (j: usize)
    requires
        i <= v.len(),
    ensures
        j == spaces_end(v@, i as int),
        i <= j <= v.len(),
{
    let mut j: usize = i;
    while j < v.len() && char_is_space(v[j])
        invariant
            i <= j <= v.len(),
            spaces_end(v@, i as int) == spaces_end(v@, j as int),
        decreases v.len() - j,
    {
        j = j + 1;
    }
    j
}

/// Index at which the white space that ends just before index `n` starts.
pub fn skip_spaces_back(v: &Vec<char>, n: usize) -> (j: usize)
    requires
        n <= v.len(),
    ensures
        j == spaces_start(v@, n as int),
        j <= n,
{
    let mut j: usize = n;
    while j > 0 && char_is_space(v[j - 1])
        invariant
            j <= n <= v.len(),
            spaces_start(v@, n as int) == spaces_start(v@, j as int),
        decreases j,
    {
        j = j - 1;
    }
    j
}

/// Index just past the digits that start at index `i`.
pub fn skip_digits(v: &Vec<char>, i: usize) -> (j: usize)
    requires
        i <= v.len(),
    ensures
        j == digits_end(v@, i as int),
        i <= j <= v.len(),
{
    let mut j: usize = i;
    while j < v.len() && char_is_digit(v[j])
        invariant
            i <= j <= v.len(),
            digits_end(v@, i as int) == digits_end(v@, j as int),
        decreases v.len() - j,
    {
        j = j + 1;
    }
    j
}

/// The characters of `v` from index `a` up to, not including, index `b`.
pub fn slice_of(v: &Vec<char>, a: usize, b: usize) -> (r: Vec<char>)
    requires
        a <= b <= v.len(),
    ensures
        r@ == v@.subrange(a as int, b as int),
{
    let mut r: Vec<char> = Vec::new();
    let mut i: usize = a;
    while i < b
        invariant
            a <= i <= b <= v.len(),
            r@ == v@.subrange(a as int, i as int),
        decreases b - i,
    {
        r.push(v[i]);
        i = i + 1;
        assert(r@ =~= v@.subrange(a as int, i as int));
    }
    r
}

/// `v` without its leading and trailing white space.
pub fn trim(v: &Vec<char>) -> (r: Vec<char>)
    ensures
        r@ == trimmed(v@),
{
    let a = skip_spaces(v, 0);
    let b = skip_spaces_back(v, v.len());
    if a < b {
        slice_of(v, a, b)
    } else {
        Vec::new()
    }
}

/// The character that writes the decimal digit `d`.
pub open spec fn digit_char(d: u8) -> char {
    (48 + d) as char
}

/// The character that writes the decimal digit `d`.
pub fn char_of_digit(d: u8) -> (c: char)
    requires
        d < 10,
    ensures
        c == digit_char(d),
        is_digit(c),
{
    (48u8 + d) as char
}

/// The digit that the character `c` writes, for `c` a decimal digit.
pub open spec fn digit_value(c: char) -> u8 {
    (c as u32 - 48) as u8
}

/// The digit that the character `c` writes.
pub fn digit_of_char(c: char) -> (d: u8)
    requires
        is_digit(c),
    ensures
        d == digit_value(c),
        d < 10,
        digit_char(d) == c,
{
    ((c as u32) - 48) as u8
}

/// The decimal text of a natural number, without leading zeros.
pub open spec fn nat_text(n: nat) -> Seq<char>
    decreases n,
{
    if n < 10 {
        seq![digit_char(n as u8)]
    } else {
        nat_text(n / 10).push(digit_char((n % 10) as u8))
    }
}

/// Appends the decimal text of `n` to `out`.
pub fn push_nat(out: &mut Vec<char>, n: usize)
    ensures
        final(out)@ == old(out)@ + nat_text(n as nat),
    decreases n,
{
    if n >= 10 {
        push_nat(out, n / 10);
    }
    let d: u8 = (n % 10) as u8;
    out.push(char_of_digit(d));
    assert(final(out)@ =~= old(out)@ + nat_text(n as nat));
}

/// `n` spaces.
pub open spec fn spaces(n: nat) -> Seq<char> {
    Seq::new(n, |i: int| ' ')
}

/// Appends `n` spaces to `out`.
pub fn push_spaces(out: &mut Vec<char>, n: usize)
    ensures
        final(out)@ == old(out)@ + spaces(n as nat),
{
    let mut i: usize = 0;
    while i < n
        invariant
            i <= n,
            out@ == old(out)@ + spaces(i as nat),
        decreases n - i,
    {
        out.push(' ');
        i = i + 1;
        assert(out@ =~= old(out)@ + spaces(i as nat));
    }
}

/// Appends the characters of `more` to `out`.
pub fn push_all(out: &mut Vec<char>, more: &Vec<char>)
    ensures
        final(out)@ == old(out)@ + more@,
{
    let mut i: usize = 0;
    while i < more.len()
        invariant
            i <= more.len(),
            out@ == old(out)@ + more@.take(i as int),
        decreases more.len() - i,
    {
        out.push(more[i]);
        i = i + 1;
        assert(out@ =~= old(out)@ + more@.take(i as int));
    }
    assert(more@.take(more.len() as int) =~= more@);
}

/// Appends the characters of `word` to `out`.
pub fn push_str(out: &mut Vec<char>, word: &str)
    ensures
        final(out)@ == old(out)@ + word@,
{
    let w = chars_of(word);
    push_all(out, &w);
}

} // verus!
