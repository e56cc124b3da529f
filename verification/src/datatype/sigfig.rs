//! Numbers as exact decimals, and their text at a given number of
//! significant figures.
//!
//! A number is read from its literal digit by digit and kept exactly: a
//! sign, the significant digits, and the place of the decimal point.
//! Rounding works on those digits, half away from zero, so the text that
//! comes out never depends on a binary approximation.

use vstd::prelude::*;
use crate::datatype::{
    float_literal_chars, is_float_literal, is_scientific_text, is_special_word, lower,
    lower_char, mantissa_end, point_at, scientific_chars, sign_at, sign_end, skip_mantissa,
    skip_sign, special_word_chars,
};
use crate::datatype::column::{find_point, first_point};
use crate::text::{
    char_of_digit, chars_of, digit_char, digit_of_char, digit_value, digits_end, is_digit,
    lemma_digits_end_run, nat_text, push_all, push_nat, skip_digits, slice_of, string_of,
};

verus! {

/// The least and the greatest number of significant figures.
pub const MIN_SIGFIG: i64 = 3;

pub const MAX_SIGFIG: i64 = 7;

/// A decimal text longer than this many characters, for a number below
/// one, is written with a fixed number of fractional digits instead.
pub const LONG_TEXT: usize = 13;

/// The greatest and the least place of the decimal point of a number that
/// is neither infinite nor zero: magnitudes from `1e-324` up to, not
/// including, `1e309`.
pub const MAX_POINT: i64 = 309;

pub const MIN_POINT: i64 = -323;

/// No place of a digit that the library writes lies further from the
/// point than this.
pub const PLACE_LIMIT: i64 = 1024;

/// An exponent is counted up to this bound; beyond it the number is
/// infinite or zero whatever its digits.
pub const EXPONENT_CAP: u128 = 0x4_0000_0000_0000_0000;

/// A decimal number as a mathematical value: `0.d1 d2 .. dk` times ten to
/// the power `point`, negated if `neg`.
pub struct DecimalView {
    pub neg: bool,
    pub digits: Seq<u8>,
    pub point: int,
}

/// An exact decimal number.
///
/// `digits` holds the significant digits, most significant first, without
/// leading or trailing zeros; `point` says how many of them stand before
/// the decimal point (it may be zero or negative, or exceed their number).
/// Zero has no digits.
#[derive(Debug, Clone)]
pub struct Decimal {
    pub neg: bool,
    pub digits: Vec<u8>,
    pub point: i64,
}

impl View for Decimal {
    type V = DecimalView;

    open spec fn view(&self) -> DecimalView {
        DecimalView { neg: self.neg, digits: self.digits@, point: self.point as int }
    }
}

/// Whether every element is a decimal digit.
pub open spec fn all_digits(ds: Seq<u8>) -> bool {
    forall|i: int| 0 <= i < ds.len() ==> #[trigger] ds[i] < 10
}

/// Digits without a leading or a trailing zero.
pub open spec fn is_canonical(ds: Seq<u8>) -> bool {
    &&& all_digits(ds)
    &&& ds.len() > 0 ==> ds[0] != 0 && ds.last() != 0
}

impl DecimalView {
    /// A canonical number within the range that the library handles.
    pub open spec fn wf(self) -> bool {
        &&& is_canonical(self.digits)
        &&& if self.digits.len() == 0 {
            self.point == 0
        } else {
            MIN_POINT <= self.point <= MAX_POINT
        }
    }
}

impl Decimal {
    /// A canonical number within the range that the library handles.
    pub open spec fn wf(&self) -> bool {
        self@.wf()
    }
}

/// The digit at index `i` of the digits, which go on with zeros without
/// end; zero before them too.
pub open spec fn stream(ds: Seq<u8>, i: int) -> u8 {
    if 0 <= i < ds.len() {
        ds[i]
    } else {
        0
    }
}

/// The text of the whole part: the first `point` digits, or `0` where no
/// digit stands before the point.
pub open spec fn int_part(ds: Seq<u8>, point: int) -> Seq<char> {
    if point <= 0 {
        seq!['0']
    } else {
        Seq::new(point as nat, |i: int| digit_char(stream(ds, i)))
    }
}

/// The text of the first `w` digits after the point.
pub open spec fn frac_part(ds: Seq<u8>, point: int, w: nat) -> Seq<char> {
    Seq::new(w, |j: int| digit_char(stream(ds, point + j)))
}

/// A minus sign for a negative number, nothing otherwise.
pub open spec fn sign_text(neg: bool) -> Seq<char> {
    if neg {
        seq!['-']
    } else {
        Seq::empty()
    }
}

/// The shortest decimal text of canonical digits: the whole part and,
/// where digits stand after the point, the point and all of them.
pub open spec fn plain_text(neg: bool, ds: Seq<u8>, point: int) -> Seq<char> {
    if ds.len() > point {
        sign_text(neg) + int_part(ds, point) + seq!['.'] + frac_part(
            ds,
            point,
            (ds.len() - point) as nat,
        )
    } else {
        sign_text(neg) + int_part(ds, point)
    }
}

/// The decimal text with exactly `w` digits after the point.
pub open spec fn fixed_text(neg: bool, ds: Seq<u8>, point: int, w: nat) -> Seq<char> {
    sign_text(neg) + int_part(ds, point) + seq!['.'] + frac_part(ds, point, w)
}

/// Index at which the run of zeros that ends just before `n` starts.
pub open spec fn zeros_start(ds: Seq<u8>, n: int) -> int
    decreases n,
{
    if 0 < n <= ds.len() && ds[n - 1] == 0 {
        zeros_start(ds, n - 1)
    } else {
        n
    }
}

/// Index just past the run of zeros that starts at `i`.
pub open spec fn zeros_end(ds: Seq<u8>, i: int) -> int
    decreases ds.len() - i,
{
    if 0 <= i < ds.len() && ds[i] == 0 {
        zeros_end(ds, i + 1)
    } else {
        i
    }
}

/// Whether every digit is a nine.
pub open spec fn all_nines(ds: Seq<u8>) -> bool {
    forall|i: int| 0 <= i < ds.len() ==> #[trigger] ds[i] == 9
}

/// The digits of the number one greater, for digits that are not all
/// nines: the nines at the end turn to zeros and the digit before them
/// goes up by one.
pub open spec fn incremented(ds: Seq<u8>) -> Seq<u8>
    decreases ds.len(),
{
    if ds.len() == 0 {
        ds
    } else if ds.last() < 9 {
        ds.drop_last().push((ds.last() + 1) as u8)
    } else {
        incremented(ds.drop_last()).push(0)
    }
}

/// Digits and point without the zeros at the end of the digits; no digits
/// and point zero where nothing else is left.
pub open spec fn without_trailing_zeros(ds: Seq<u8>, point: int) -> (Seq<u8>, int) {
    let n = zeros_start(ds, ds.len() as int);
    if n <= 0 {
        (Seq::empty(), 0)
    } else {
        (ds.take(n), point)
    }
}

/// The number rounded to its first `keep` digits, half away from zero.
///
/// The digit after the kept ones decides: below five they stand as they
/// are, otherwise the number they write goes up by one, which for nines
/// throughout gives a single one, a place further left.
pub open spec fn rounded(ds: Seq<u8>, point: int, keep: int) -> (Seq<u8>, int) {
    if keep >= ds.len() {
        (ds, point)
    } else if keep < 0 {
        (Seq::empty(), 0)
    } else if ds[keep] < 5 {
        without_trailing_zeros(ds.take(keep), point)
    } else if all_nines(ds.take(keep)) {
        (seq![1u8], point + 1)
    } else {
        without_trailing_zeros(incremented(ds.take(keep)), point)
    }
}

/// A run of zeros counted back from index `n` starts within the digits,
/// and a digit other than zero stands before it.
pub proof fn lemma_zeros_start_bounds(ds: Seq<u8>, n: int)
    requires
        0 <= n <= ds.len(),
    ensures
        0 <= zeros_start(ds, n) <= n,
        zeros_start(ds, n) > 0 ==> ds[zeros_start(ds, n) - 1] != 0,
    decreases n,
{
    if 0 < n && ds[n - 1] == 0 {
        lemma_zeros_start_bounds(ds, n - 1);
    }
}

/// A run of zeros counted from index `i` ends within the digits, and a
/// digit other than zero stands behind it.
pub proof fn lemma_zeros_end_bounds(ds: Seq<u8>, i: int)
    requires
        0 <= i <= ds.len(),
    ensures
        i <= zeros_end(ds, i) <= ds.len(),
        zeros_end(ds, i) < ds.len() ==> ds[zeros_end(ds, i)] != 0,
    decreases ds.len() - i,
{
    if i < ds.len() && ds[i] == 0 {
        lemma_zeros_end_bounds(ds, i + 1);
    }
}

/// Going up by one keeps the number of digits, and keeps them digits.
pub proof fn lemma_incremented_digits(ds: Seq<u8>)
    requires
        all_digits(ds),
    ensures
        incremented(ds).len() == ds.len(),
        all_digits(incremented(ds)),
    decreases ds.len(),
{
    if ds.len() == 0 {
    } else if ds.last() < 9 {
    } else {
        assert(all_digits(ds.drop_last())) by {
            assert forall|i: int| 0 <= i < ds.drop_last().len() implies #[trigger] ds.drop_last()[i]
                < 10 by {
                assert(ds[i] < 10);
            }
        }
        lemma_incremented_digits(ds.drop_last());
    }
}

/// Going up by one changes the last digit below nine and turns the nines
/// after it to zeros.
pub proof fn lemma_incremented_shape(ds: Seq<u8>, i: int)
    requires
        0 < i <= ds.len(),
        ds[i - 1] < 9,
        forall|j: int| i <= j < ds.len() ==> ds[j] == 9,
    ensures
        incremented(ds).len() == ds.len(),
        forall|j: int| 0 <= j < i - 1 ==> incremented(ds)[j] == ds[j],
        incremented(ds)[i - 1] == ds[i - 1] + 1,
        forall|j: int| i <= j < ds.len() ==> incremented(ds)[j] == 0,
    decreases ds.len() - i,
{
    if i == ds.len() {
        assert(incremented(ds) == ds.drop_last().push((ds.last() + 1) as u8));
    } else {
        let front = ds.drop_last();
        assert(front[i - 1] == ds[i - 1]);
        assert forall|j: int| i <= j < front.len() implies front[j] == 9 by {
            assert(ds[j] == 9);
        }
        lemma_incremented_shape(front, i);
        assert(incremented(ds) == incremented(front).push(0));
        assert forall|j: int| 0 <= j < i - 1 implies incremented(ds)[j] == ds[j] by {
            assert(incremented(front)[j] == front[j]);
        }
    }
}

fn first_digits(ds: &Vec<u8>, n: usize) -> (r: Vec<u8>)
    requires
        n <= ds.len(),
    ensures
        r@ == ds@.take(n as int),
{
    let mut r: Vec<u8> = Vec::new();
    let mut i: usize = 0;
    while i < n
        invariant
            i <= n <= ds.len(),
            r@ == ds@.take(i as int),
        decreases n - i,
    {
        r.push(ds[i]);
        i = i + 1;
        assert(r@ =~= ds@.take(i as int));
    }
    r
}

fn strip_trailing_zeros(ds: Vec<u8>, point: i64) -> (r: (Vec<u8>, i64))
    ensures
        (r.0@, r.1 as int) == without_trailing_zeros(ds@, point as int),
        r.0@.len() <= ds@.len(),
        r.1 == point || r.1 == 0,
{
    let mut ds = ds;
    let ghost whole = ds@;
    while ds.len() > 0 && ds[ds.len() - 1] == 0
        invariant
            ds@ == whole.take(ds.len() as int),
            ds.len() <= whole.len(),
            zeros_start(whole, whole.len() as int) == zeros_start(whole, ds.len() as int),
        decreases ds.len(),
    {
        ds.pop();
        assert(ds@ =~= whole.take(ds.len() as int));
    }
    if ds.len() == 0 {
        assert(ds@ =~= Seq::<u8>::empty());
        (ds, 0)
    } else {
        (ds, point)
    }
}

/// Rounds to the first `keep` digits, half away from zero.
pub fn round_digits(ds: &Vec<u8>, point: i64, keep: i64) -> (r: (Vec<u8>, i64))
    requires
        all_digits(ds@),
        point < i64::MAX,
    ensures
        (r.0@, r.1 as int) == rounded(ds@, point as int, keep as int),
        all_digits(r.0@),
        r.0@.len() <= ds@.len() || r.0@.len() == 1,
        r.0@.len() <= keep || r.0@.len() <= 1,
        r.1 == point || r.1 == point + 1 || r.1 == 0,
{
    if keep < 0 {
        return (Vec::new(), 0);
    }
    if keep as u64 >= ds.len() as u64 {
        let all = first_digits(ds, ds.len());
        assert(ds@.take(ds.len() as int) =~= ds@);
        return (all, point);
    }
    let k: usize = keep as usize;
    let mut head = first_digits(ds, k);
    let ghost orig = head@;
    assert(all_digits(orig));
    if ds[k] < 5 {
        let r = strip_trailing_zeros(head, point);
        assert(all_digits(r.0@)) by {
            lemma_zeros_start_bounds(orig, orig.len() as int);
        }
        return r;
    }
    let mut i: usize = k;
    while i > 0 && head[i - 1] == 9
        invariant
            i <= k,
            head.len() == k,
            orig.len() == k,
            forall|j: int| 0 <= j < i ==> #[trigger] head@[j] == orig[j],
            forall|j: int| i <= j < k ==> #[trigger] orig[j] == 9,
            forall|j: int| i <= j < k ==> #[trigger] head@[j] == 0,
        decreases i,
    {
        head.set(i - 1, 0);
        i = i - 1;
    }
    if i == 0 {
        assert(all_nines(orig));
        let mut one: Vec<u8> = Vec::new();
        one.push(1u8);
        assert(one@ =~= seq![1u8]);
        return (one, point + 1);
    }
    assert(!all_nines(orig)) by {
        assert(orig[i - 1] != 9);
    }
    let d: u8 = head[i - 1];
    let ghost before = head@;
    head.set(i - 1, d + 1);
    proof {
        lemma_incremented_shape(orig, i as int);
        assert forall|j: int| 0 <= j < k implies head@[j] == incremented(orig)[j] by {
            if j < i - 1 {
                assert(before[j] == orig[j]);
            } else if j >= i {
                assert(orig[j] == 9);
                assert(before[j] == 0);
            }
        }
        assert(head@ =~= incremented(orig));
        lemma_incremented_digits(orig);
    }
    let ghost up = head@;
    let r = strip_trailing_zeros(head, point);
    assert(all_digits(r.0@)) by {
        lemma_zeros_start_bounds(up, up.len() as int);
    }
    r
}

/// Appends the text of the whole part.
pub fn push_int_part(out: &mut Vec<char>, ds: &Vec<u8>, point: i64)
    requires
        all_digits(ds@),
        point <= PLACE_LIMIT,
    ensures
        final(out)@ == old(out)@ + int_part(ds@, point as int),
{
    if point <= 0 {
        out.push('0');
        assert(out@ =~= old(out)@ + int_part(ds@, point as int));
        return;
    }
    let n: usize = point as usize;
    let mut i: usize = 0;
    while i < n
        invariant
            i <= n,
            n == point,
            all_digits(ds@),
            out@ == old(out)@ + Seq::new(i as nat, |j: int| digit_char(stream(ds@, j))),
        decreases n - i,
    {
        let d: u8 = if i < ds.len() {
            ds[i]
        } else {
            0
        };
        out.push(char_of_digit(d));
        i = i + 1;
        assert(out@ =~= old(out)@ + Seq::new(i as nat, |j: int| digit_char(stream(ds@, j))));
    }
}

/// Appends the text of the first `w` digits after the point.
pub fn push_frac_part(out: &mut Vec<char>, ds: &Vec<u8>, point: i64, w: usize)
    requires
        all_digits(ds@),
        -PLACE_LIMIT <= point <= PLACE_LIMIT,
        w <= 2 * PLACE_LIMIT,
    ensures
        final(out)@ == old(out)@ + frac_part(ds@, point as int, w as nat),
{
    let mut j: usize = 0;
    while j < w
        invariant
            j <= w,
            all_digits(ds@),
            -PLACE_LIMIT <= point <= PLACE_LIMIT,
            w <= 2 * PLACE_LIMIT,
            out@ == old(out)@ + frac_part(ds@, point as int, j as nat),
        decreases w - j,
    {
        let at: i64 = point + (j as i64);
        let d: u8 = if 0 <= at && (at as u64) < (ds.len() as u64) {
            ds[at as usize]
        } else {
            0
        };
        out.push(char_of_digit(d));
        j = j + 1;
        assert(out@ =~= old(out)@ + frac_part(ds@, point as int, j as nat));
    }
}

/// The text of a number below one in magnitude, at `sigfig` significant
/// figures.
///
/// The number is rounded to `sigfig` digits and written in its shortest
/// form. A text of more than [`LONG_TEXT`] characters, the sign counted,
/// is written instead with a fixed number of digits after the point: as
/// many as the first significant digit of the number lies behind the
/// point if that is at least `sigfig`, else `sigfig`.
pub open spec fn small_text(d: DecimalView, sigfig: int) -> Seq<char> {
    let r = rounded(d.digits, d.point, sigfig);
    let short = plain_text(d.neg, r.0, r.1);
    if short.len() > LONG_TEXT {
        let places = 1 - d.point;
        let w = if places >= sigfig {
            places
        } else {
            sigfig
        };
        let q = rounded(r.0, r.1, r.1 + w);
        fixed_text(d.neg, q.0, q.1, w as nat)
    } else {
        short
    }
}

/// The text of a number whose significant figures lie on both sides of
/// the point.
///
/// The number is rounded to `sigfig - 1` digits after the point; of that
/// text the whole part, the point and the digits up to `sigfig` in all
/// are taken, but no more digits than the number has.
pub open spec fn straddling_text(d: DecimalView, sigfig: int) -> Seq<char> {
    let r = rounded(d.digits, d.point, d.point + sigfig - 1);
    let full = int_part(r.0, r.1) + seq!['.'] + frac_part(r.0, r.1, (sigfig - 1) as nat);
    let budget: int = if d.digits.len() < sigfig {
        (d.digits.len() + 1) as int
    } else {
        sigfig + 1
    };
    sign_text(d.neg) + full.take(budget)
}

/// The text of a number at `sigfig` significant figures.
///
/// Zero is `0`. A number below one goes by [`small_text`]. A number whose
/// whole part has `sigfig` digits or more shows the whole part alone,
/// followed by a point if anything stands behind it. A whole number shows
/// its digits. Any other number goes by [`straddling_text`].
pub open spec fn final_text(d: DecimalView, sigfig: int) -> Seq<char> {
    if d.digits.len() == 0 {
        seq!['0']
    } else if d.point <= 0 {
        small_text(d, sigfig)
    } else if d.point >= sigfig {
        if d.digits.len() > d.point {
            sign_text(d.neg) + int_part(d.digits, d.point) + seq!['.']
        } else {
            sign_text(d.neg) + int_part(d.digits, d.point)
        }
    } else if d.digits.len() <= d.point {
        sign_text(d.neg) + int_part(d.digits, d.point)
    } else {
        straddling_text(d, sigfig)
    }
}

fn push_sign(out: &mut Vec<char>, neg: bool)
    ensures
        final(out)@ == old(out)@ + sign_text(neg),
{
    if neg {
        out.push('-');
    }
    assert(out@ =~= old(out)@ + sign_text(neg));
}

fn plain_chars(neg: bool, ds: &Vec<u8>, point: i64) -> (out: Vec<char>)
    requires
        all_digits(ds@),
        ds@.len() <= PLACE_LIMIT,
        -PLACE_LIMIT <= point <= PLACE_LIMIT,
    ensures
        out@ == plain_text(neg, ds@, point as int),
{
    let mut out: Vec<char> = Vec::new();
    push_sign(&mut out, neg);
    push_int_part(&mut out, ds, point);
    let len: i64 = ds.len() as i64;
    if len > point {
        out.push('.');
        push_frac_part(&mut out, ds, point, (len - point) as usize);
    }
    assert(out@ =~= plain_text(neg, ds@, point as int));
    out
}

fn fixed_chars(neg: bool, ds: &Vec<u8>, point: i64, w: usize) -> (out: Vec<char>)
    requires
        all_digits(ds@),
        -PLACE_LIMIT <= point <= PLACE_LIMIT,
        w <= 2 * PLACE_LIMIT,
    ensures
        out@ == fixed_text(neg, ds@, point as int, w as nat),
{
    let mut out: Vec<char> = Vec::new();
    push_sign(&mut out, neg);
    push_int_part(&mut out, ds, point);
    out.push('.');
    push_frac_part(&mut out, ds, point, w);
    assert(out@ =~= fixed_text(neg, ds@, point as int, w as nat));
    out
}

fn small_chars(x: &Decimal, sigfig: i64) -> (out: Vec<char>)
    requires
        x.wf(),
        x@.digits.len() > 0,
        x.point <= 0,
        MIN_SIGFIG <= sigfig <= MAX_SIGFIG,
    ensures
        out@ == small_text(x@, sigfig as int),
{
    let r = round_digits(&x.digits, x.point, sigfig);
    let short = plain_chars(x.neg, &r.0, r.1);
    if short.len() > LONG_TEXT {
        let places: i64 = 1 - x.point;
        let w: i64 = if places >= sigfig {
            places
        } else {
            sigfig
        };
        let q = round_digits(&r.0, r.1, r.1 + w);
        fixed_chars(x.neg, &q.0, q.1, w as usize)
    } else {
        short
    }
}

fn straddling_chars(x: &Decimal, sigfig: i64) -> (out: Vec<char>)
    requires
        x.wf(),
        0 < x.point < sigfig,
        x@.digits.len() > x.point,
        MIN_SIGFIG <= sigfig <= MAX_SIGFIG,
    ensures
        out@ == straddling_text(x@, sigfig as int),
{
    let r = round_digits(&x.digits, x.point, x.point + sigfig - 1);
    let mut full: Vec<char> = Vec::new();
    push_int_part(&mut full, &r.0, r.1);
    full.push('.');
    push_frac_part(&mut full, &r.0, r.1, (sigfig - 1) as usize);
    assert(full@ =~= int_part(r.0@, r.1 as int) + seq!['.'] + frac_part(
        r.0@,
        r.1 as int,
        (sigfig - 1) as nat,
    ));
    let budget: usize = if x.digits.len() < sigfig as usize {
        x.digits.len() + 1
    } else {
        (sigfig + 1) as usize
    };
    assert(int_part(r.0@, r.1 as int).len() >= 1);
    let head = slice_of(&full, 0, budget);
    assert(head@ =~= full@.take(budget as int));
    let mut out: Vec<char> = Vec::new();
    push_sign(&mut out, x.neg);
    push_all(&mut out, &head);
    out
}

/// The characters of the text of `x` at `sigfig` significant figures.
pub fn final_chars(x: &Decimal, sigfig: i64) -> (out: Vec<char>)
    requires
        x.wf(),
        MIN_SIGFIG <= sigfig <= MAX_SIGFIG,
    ensures
        out@ == final_text(x@, sigfig as int),
{
    if x.digits.len() == 0 {
        let mut out: Vec<char> = Vec::new();
        out.push('0');
        assert(out@ =~= seq!['0']);
        out
    } else if x.point <= 0 {
        small_chars(x, sigfig)
    } else if x.point >= sigfig || x.digits.len() <= x.point as usize {
        let mut out: Vec<char> = Vec::new();
        push_sign(&mut out, x.neg);
        push_int_part(&mut out, &x.digits, x.point);
        if x.digits.len() > x.point as usize {
            out.push('.');
        }
        assert(out@ =~= final_text(x@, sigfig as int));
        out
    } else {
        straddling_chars(x, sigfig)
    }
}

/// The text of `x` at `sigfig` significant figures.
pub fn get_final_string(x: &Decimal, sigfig: i64) -> (r: String)
    requires
        x.wf(),
        MIN_SIGFIG <= sigfig <= MAX_SIGFIG,
    ensures
        r@ == final_text(x@, sigfig as int),
{
    string_of(&final_chars(x, sigfig))
}

/// What a floating-point literal stands for.
#[derive(Debug, Clone)]
pub enum Number {
    /// A number with a decimal value.
    Finite(Decimal),
    /// An infinite value; the flag says whether it is negative.
    Infinite(bool),
    /// A value that is no number.
    NotANumber,
}

/// A [`Number`] as a mathematical value.
pub enum NumberView {
    Finite(DecimalView),
    Infinite(bool),
    NotANumber,
}

impl View for Number {
    type V = NumberView;

    open spec fn view(&self) -> NumberView {
        match self {
            Number::Finite(d) => NumberView::Finite(d@),
            Number::Infinite(neg) => NumberView::Infinite(*neg),
            Number::NotANumber => NumberView::NotANumber,
        }
    }
}

impl Number {
    /// A finite number is well formed as a decimal; the others always.
    pub open spec fn wf(&self) -> bool {
        match self {
            Number::Finite(d) => d.wf(),
            _ => true,
        }
    }
}

/// The digits that the digit characters of `s` write.
pub open spec fn digit_values(s: Seq<char>) -> Seq<u8> {
    s.map_values(|c: char| digit_value(c))
}

/// The number that the digit characters of `s` write.
pub open spec fn digits_number(s: Seq<char>) -> nat
    decreases s.len(),
{
    if s.len() == 0 {
        0
    } else {
        digits_number(s.drop_last()) * 10 + digit_value(s.last()) as nat
    }
}

/// The exponent of a literal whose mantissa ends at index `c`: zero where
/// the literal ends there, else the signed number behind the marker.
pub open spec fn exponent_value(t: Seq<char>, c: int) -> int {
    if c >= t.len() {
        0
    } else {
        let d = sign_end(t, c + 1);
        let n = digits_number(t.subrange(d, t.len() as int)) as int;
        if sign_at(t, c + 1) && t[c + 1] == '-' {
            -n
        } else {
            n
        }
    }
}

/// The digits of the mantissa that starts at index `a`, the point left
/// out.
pub open spec fn mantissa(t: Seq<char>, a: int) -> Seq<u8> {
    let b = digits_end(t, a);
    if point_at(t, b) {
        digit_values(t.subrange(a, b)) + digit_values(t.subrange(b + 1, mantissa_end(t, a)))
    } else {
        digit_values(t.subrange(a, b))
    }
}

/// Zero, with a sign.
pub open spec fn zero_view(neg: bool) -> DecimalView {
    DecimalView { neg, digits: Seq::empty(), point: 0 }
}

/// The number `0.m1 m2 .. mk` times ten to the power `point`, in
/// canonical form.
///
/// Zeros at either end of the digits are dropped. A magnitude of `1e309`
/// or more is infinite and one below `1e-324` is zero, as for a
/// double-precision value.
pub open spec fn scaled(neg: bool, m: Seq<u8>, point: int) -> NumberView {
    let z = zeros_end(m, 0);
    let y = zeros_start(m, m.len() as int);
    if z >= m.len() {
        NumberView::Finite(zero_view(neg))
    } else if point - z > MAX_POINT {
        NumberView::Infinite(neg)
    } else if point - z < MIN_POINT {
        NumberView::Finite(zero_view(neg))
    } else {
        NumberView::Finite(DecimalView { neg, digits: m.subrange(z, y), point: point - z })
    }
}

/// What the text `t` stands for as a floating-point literal, if it is
/// one. White space around the literal is not accepted here.
pub open spec fn number_of(t: Seq<char>) -> Option<NumberView> {
    let a = sign_end(t, 0);
    let neg = t.len() > 0 && t[0] == '-';
    if !is_float_literal(t) {
        None
    } else if is_special_word(t.skip(a)) {
        if a < t.len() && lower(t[a]) == 'n' {
            Some(NumberView::NotANumber)
        } else {
            Some(NumberView::Infinite(neg))
        }
    } else {
        Some(
            scaled(
                neg,
                mantissa(t, a),
                (digits_end(t, a) - a) + exponent_value(t, mantissa_end(t, a)),
            ),
        )
    }
}

/// A run of zeros ends at the latest where a digit other than zero
/// stands.
pub proof fn lemma_zeros_end_before(ds: Seq<u8>, i: int, j: int)
    requires
        0 <= i <= j < ds.len(),
        ds[j] != 0,
    ensures
        zeros_end(ds, i) <= j,
    decreases ds.len() - i,
{
    if i < j && ds[i] == 0 {
        lemma_zeros_end_before(ds, i + 1, j);
    }
}

/// A digit other than zero that stands before index `n` ends the run of
/// zeros that is counted back from `n`.
pub proof fn lemma_zeros_start_after(ds: Seq<u8>, n: int, i: int)
    requires
        0 <= i < n <= ds.len(),
        ds[i] != 0,
    ensures
        zeros_start(ds, n) > i,
    decreases n,
{
    if ds[n - 1] == 0 {
        lemma_zeros_start_after(ds, n - 1, i);
    }
}

fn digits_between(t: &Vec<char>, a: usize, b: usize) -> (r: Vec<u8>)
    requires
        a <= b <= t.len(),
        forall|j: int| a <= j < b ==> is_digit(#[trigger] t@[j]),
    ensures
        r@ == digit_values(t@.subrange(a as int, b as int)),
        all_digits(r@),
{
    let mut r: Vec<u8> = Vec::new();
    let mut i: usize = a;
    while i < b
        invariant
            a <= i <= b <= t.len(),
            forall|j: int| a <= j < b ==> is_digit(#[trigger] t@[j]),
            r@ == digit_values(t@.subrange(a as int, i as int)),
            all_digits(r@),
        decreases b - i,
    {
        r.push(digit_of_char(t[i]));
        i = i + 1;
        assert(r@ =~= digit_values(t@.subrange(a as int, i as int)));
    }
    r
}

fn digits_slice(m: &Vec<u8>, a: usize, b: usize) -> (r: Vec<u8>)
    requires
        a <= b <= m.len(),
    ensures
        r@ == m@.subrange(a as int, b as int),
{
    let mut r: Vec<u8> = Vec::new();
    let mut i: usize = a;
    while i < b
        invariant
            a <= i <= b <= m.len(),
            r@ == m@.subrange(a as int, i as int),
        decreases b - i,
    {
        r.push(m[i]);
        i = i + 1;
        assert(r@ =~= m@.subrange(a as int, i as int));
    }
    r
}

/// The smaller of a number and the bound up to which exponents count.
pub open spec fn capped(n: nat) -> nat {
    if n >= EXPONENT_CAP {
        EXPONENT_CAP as nat
    } else {
        n
    }
}

fn exponent_number(t: &Vec<char>, d: usize) -> (acc: u128)
    requires
        d <= t.len(),
        digits_end(t@, d as int) == t.len(),
    ensures
        acc == capped(digits_number(t@.subrange(d as int, t.len() as int))),
{
    proof {
        lemma_digits_end_run(t@, d as int);
    }
    let mut acc: u128 = 0;
    let mut i: usize = d;
    while i < t.len()
        invariant
            d <= i <= t.len(),
            forall|j: int| d <= j < t.len() ==> is_digit(#[trigger] t@[j]),
            acc == capped(digits_number(t@.subrange(d as int, i as int))),
        decreases t.len() - i,
    {
        let v: u8 = digit_of_char(t[i]);
        let ghost before = t@.subrange(d as int, i as int);
        let ghost after = t@.subrange(d as int, i + 1);
        assert(after.drop_last() =~= before);
        assert(after.last() == t@[i as int]);
        if acc < EXPONENT_CAP {
            let next: u128 = acc * 10 + (v as u128);
            acc = if next >= EXPONENT_CAP {
                EXPONENT_CAP
            } else {
                next
            };
        }
        i = i + 1;
    }
    acc
}

fn zero_decimal(neg: bool) -> (d: Decimal)
    ensures
        d@ == zero_view(neg),
        d.wf(),
{
    Decimal { neg, digits: Vec::new(), point: 0 }
}

fn scale(
    neg: bool,
    m: &Vec<u8>,
    int_len: usize,
    e_neg: bool,
    e_abs: u128,
    Ghost(exp): Ghost<int>,
) -> (r: Number)
    requires
        all_digits(m@),
        exp >= 0 ==> e_abs == capped(exp as nat),
        exp < 0 ==> e_abs == capped((-exp) as nat),
        exp < 0 ==> e_neg,
        exp > 0 ==> !e_neg,
    ensures
        r@ == scaled(neg, m@, int_len + exp),
        r.wf(),
{
    let mut z: usize = 0;
    while z < m.len() && m[z] == 0
        invariant
            z <= m.len(),
            zeros_end(m@, 0) == zeros_end(m@, z as int),
        decreases m.len() - z,
    {
        z = z + 1;
    }
    if z >= m.len() {
        return Number::Finite(zero_decimal(neg));
    }
    let mut y: usize = m.len();
    while y > 0 && m[y - 1] == 0
        invariant
            y <= m.len(),
            zeros_start(m@, m.len() as int) == zeros_start(m@, y as int),
        decreases y,
    {
        y = y - 1;
    }
    proof {
        lemma_zeros_start_after(m@, m.len() as int, z as int);
    }
    let base: i128 = (int_len as i128) - (z as i128);
    let e: i128 = e_abs as i128;
    let p: i128 = if e_neg {
        base - e
    } else {
        base + e
    };
    if p > MAX_POINT as i128 {
        Number::Infinite(neg)
    } else if p < MIN_POINT as i128 {
        Number::Finite(zero_decimal(neg))
    } else {
        let digits = digits_slice(m, z, y);
        Number::Finite(Decimal { neg, digits, point: p as i64 })
    }
}

/// What the characters `t` stand for as a floating-point literal.
pub fn number_of_chars(t: &Vec<char>) -> (r: Option<Number>)
    ensures
        match r {
            Some(n) => number_of(t@) == Some(n@) && n.wf(),
            None => number_of(t@) is None,
        },
{
    if !float_literal_chars(t) {
        return None;
    }
    let a = skip_sign(t, 0);
    let neg = t.len() > 0 && t[0] == '-';
    if special_word_chars(t, a) {
        if a < t.len() && lower_char(t[a]) == 'n' {
            return Some(Number::NotANumber);
        }
        return Some(Number::Infinite(neg));
    }
    let b = skip_digits(t, a);
    let (c, _) = skip_mantissa(t, a);
    proof {
        lemma_digits_end_run(t@, a as int);
        if b < t.len() {
            lemma_digits_end_run(t@, b + 1);
        }
    }
    let mut m = digits_between(t, a, b);
    if b < t.len() && t[b] == '.' {
        let more = digits_between(t, b + 1, c);
        let mut i: usize = 0;
        let ghost front = m@;
        while i < more.len()
            invariant
                i <= more.len(),
                m@ == front + more@.take(i as int),
                all_digits(m@),
                all_digits(more@),
            decreases more.len() - i,
        {
            m.push(more[i]);
            i = i + 1;
            assert(m@ =~= front + more@.take(i as int));
        }
        assert(more@.take(more.len() as int) =~= more@);
    }
    assert(m@ == mantissa(t@, a as int));
    if c == t.len() {
        Some(scale(neg, &m, b - a, false, 0, Ghost(0int)))
    } else {
        let d = skip_sign(t, c + 1);
        let e_neg = t[c + 1] == '-';
        let e_abs = exponent_number(t, d);
        Some(scale(neg, &m, b - a, e_neg, e_abs, Ghost(exponent_value(t@, c as int))))
    }
}

/// What `text` stands for as a floating-point literal; `None` if it is
/// none. White space around the literal is not accepted.
pub fn parse_number(text: &str) -> (r: Option<Number>)
    ensures
        match r {
            Some(n) => number_of(text@) == Some(n@) && n.wf(),
            None => number_of(text@) is None,
        },
{
    number_of_chars(&chars_of(text))
}

/// The decimal text of an integer, with a minus sign if it is negative.
pub open spec fn int_text(n: int) -> Seq<char> {
    if n < 0 {
        seq!['-'] + nat_text((-n) as nat)
    } else {
        nat_text(n as nat)
    }
}

/// The power of ten of the first significant digit; zero for zero.
pub open spec fn magnitude(ds: Seq<u8>, point: int) -> int {
    if ds.len() == 0 {
        0
    } else {
        point - 1
    }
}

/// The text of a number in scientific notation at `sigfig` significant
/// figures: the number rounded to that many digits, written as one digit,
/// a point, `sigfig - 1` digits, the letter `e` and the power of ten.
pub open spec fn scientific_text(d: DecimalView, sigfig: int) -> Seq<char> {
    let r = rounded(d.digits, d.point, sigfig);
    sign_text(d.neg) + seq![digit_char(stream(r.0, 0))] + seq!['.'] + frac_part(
        r.0,
        1,
        (sigfig - 1) as nat,
    ) + seq!['e'] + int_text(magnitude(r.0, r.1))
}

/// Whether a number is written in scientific notation once its decimal
/// text is too wide: its magnitude is below `1e-4`, or is ten to the
/// power `sigfig` or more.
pub open spec fn is_extreme(d: DecimalView, sigfig: int) -> bool {
    d.digits.len() == 0 || d.point <= -4 || d.point >= sigfig + 1
}

/// The text shown for a finite number: its decimal text, or its text in
/// scientific notation where the decimal text is longer than `max_width`
/// and the number is extreme.
pub open spec fn finite_text(d: DecimalView, sigfig: int, max_width: nat) -> Seq<char> {
    let decimal = final_text(d, sigfig);
    if decimal.len() > max_width && is_extreme(d, sigfig) {
        scientific_text(d, sigfig)
    } else {
        decimal
    }
}

/// The text shown for what a literal stands for.
///
/// An infinite value shows as `inf`; a negative one has no decimal text of
/// its own and shows as `-NaN`, or as `-inf` where four characters are
/// more than `max_width`. A value that is no number shows as `NaN`.
pub open spec fn number_text(n: NumberView, sigfig: int, max_width: nat) -> Seq<char> {
    match n {
        NumberView::Finite(d) => finite_text(d, sigfig, max_width),
        NumberView::Infinite(neg) => if !neg {
            seq!['i', 'n', 'f']
        } else if 4 > max_width {
            seq!['-', 'i', 'n', 'f']
        } else {
            seq!['-', 'N', 'a', 'N']
        },
        NumberView::NotANumber => seq!['N', 'a', 'N'],
    }
}

/// The text shown for a cell that may hold a number.
///
/// A cell in scientific notation stays as it is where `preserve` asks for
/// that. Any other cell that is a floating-point literal, with nothing
/// around it, shows as [`number_text`] says. Everything else stays as it
/// is.
pub open spec fn num_text(t: Seq<char>, sigfig: int, preserve: bool, max_width: nat) -> Seq<
    char,
> {
    if preserve && is_scientific_text(t) {
        t
    } else {
        match number_of(t) {
            Some(n) => number_text(n, sigfig, max_width),
            None => t,
        }
    }
}

fn push_int(out: &mut Vec<char>, n: i64)
    requires
        -PLACE_LIMIT <= n <= PLACE_LIMIT,
    ensures
        final(out)@ == old(out)@ + int_text(n as int),
{
    if n < 0 {
        out.push('-');
        let ghost mid = out@;
        push_nat(out, (-n) as usize);
        assert(out@ =~= old(out)@ + int_text(n as int));
    } else {
        push_nat(out, n as usize);
    }
}

/// The characters of the text of `x` in scientific notation.
pub fn scientific_chars_of(x: &Decimal, sigfig: i64) -> (out: Vec<char>)
    requires
        x.wf(),
        MIN_SIGFIG <= sigfig <= MAX_SIGFIG,
    ensures
        out@ == scientific_text(x@, sigfig as int),
{
    let r = round_digits(&x.digits, x.point, sigfig);
    let mut out: Vec<char> = Vec::new();
    push_sign(&mut out, x.neg);
    let first: u8 = if r.0.len() > 0 {
        r.0[0]
    } else {
        0
    };
    out.push(char_of_digit(first));
    out.push('.');
    push_frac_part(&mut out, &r.0, 1, (sigfig - 1) as usize);
    out.push('e');
    let power: i64 = if r.0.len() == 0 {
        0
    } else {
        r.1 - 1
    };
    push_int(&mut out, power);
    assert(out@ =~= scientific_text(x@, sigfig as int));
    out
}

fn finite_chars(x: &Decimal, sigfig: i64, max_width: usize) -> (out: Vec<char>)
    requires
        x.wf(),
        MIN_SIGFIG <= sigfig <= MAX_SIGFIG,
    ensures
        out@ == finite_text(x@, sigfig as int, max_width as nat),
{
    let decimal = final_chars(x, sigfig);
    if decimal.len() > max_width && (x.digits.len() == 0 || x.point <= -4 || x.point >= sigfig
        + 1) {
        scientific_chars_of(x, sigfig)
    } else {
        decimal
    }
}

fn number_chars(n: &Number, sigfig: i64, max_width: usize) -> (out: Vec<char>)
    requires
        n.wf(),
        MIN_SIGFIG <= sigfig <= MAX_SIGFIG,
    ensures
        out@ == number_text(n@, sigfig as int, max_width as nat),
{
    match n {
        Number::Finite(d) => finite_chars(d, sigfig, max_width),
        Number::Infinite(neg) => {
            let mut out: Vec<char> = Vec::new();
            if !*neg {
                out.push('i');
                out.push('n');
                out.push('f');
                assert(out@ =~= seq!['i', 'n', 'f']);
            } else if 4 > max_width {
                out.push('-');
                out.push('i');
                out.push('n');
                out.push('f');
                assert(out@ =~= seq!['-', 'i', 'n', 'f']);
            } else {
                out.push('-');
                out.push('N');
                out.push('a');
                out.push('N');
                assert(out@ =~= seq!['-', 'N', 'a', 'N']);
            }
            out
        },
        Number::NotANumber => {
            let mut out: Vec<char> = Vec::new();
            out.push('N');
            out.push('a');
            out.push('N');
            assert(out@ =~= seq!['N', 'a', 'N']);
            out
        },
    }
}

/// The characters shown for a cell that may hold a number.
pub fn num_chars(t: &Vec<char>, sigfig: i64, preserve: bool, max_width: usize) -> (out: Vec<char>)
    requires
        MIN_SIGFIG <= sigfig <= MAX_SIGFIG,
    ensures
        out@ == num_text(t@, sigfig as int, preserve, max_width as nat),
{
    if preserve && scientific_chars(t) {
        return slice_of(t, 0, t.len());
    }
    match number_of_chars(t) {
        Some(n) => number_chars(&n, sigfig, max_width),
        None => {
            let same = slice_of(t, 0, t.len());
            assert(same@ =~= t@);
            same
        },
    }
}

/// The number of characters of `t` before its first point.
pub open spec fn before_point(t: Seq<char>) -> nat {
    first_point(t, 0) as nat
}

/// The number of characters of `t` between its first point and the next,
/// or the end; zero where it holds no point.
pub open spec fn after_point(t: Seq<char>) -> nat {
    let dot = first_point(t, 0);
    if dot < t.len() {
        (first_point(t, dot + 1) - (dot + 1)) as nat
    } else {
        0
    }
}

/// On which side of the point a text has more characters than `sigfig`:
/// `Some(true)` for the side before the point, `Some(false)` for the side
/// behind it, `None` for neither. The side before the point is asked
/// first. A negative `sigfig` is exceeded by nothing.
pub open spec fn index_side(t: Seq<char>, sigfig: int) -> Option<bool> {
    if sigfig < 0 {
        None
    } else if before_point(t) > sigfig {
        Some(true)
    } else if after_point(t) > sigfig {
        Some(false)
    } else {
        None
    }
}

/// Where the figures beyond `sigfig` start on the side that
/// [`index_side`] names: at the start of the text before the point, at
/// index `sigfig` behind it.
pub open spec fn index_from(t: Seq<char>, sigfig: int) -> Option<nat> {
    match index_side(t, sigfig) {
        Some(true) => Some(0nat),
        Some(false) => Some(sigfig as nat),
        None => None,
    }
}

/// Where the figures beyond `sigfig` end on the side that [`index_side`]
/// names: before the point, as many characters as exceed `sigfig`; behind
/// it, the number of characters there.
pub open spec fn index_to(t: Seq<char>, sigfig: int) -> Option<nat> {
    match index_side(t, sigfig) {
        Some(true) => Some((before_point(t) - sigfig) as nat),
        Some(false) => Some(after_point(t)),
        None => None,
    }
}

fn point_parts(t: &Vec<char>) -> (r: (usize, usize))
    ensures
        r.0 == before_point(t@),
        r.1 == after_point(t@),
{
    let dot = find_point(t, 0);
    if dot < t.len() {
        let end = find_point(t, dot + 1);
        (dot, end - (dot + 1))
    } else {
        (dot, 0)
    }
}

/// See [`index_side`].
pub fn sigfig_index_lhs_or_rhs(final_string: &str, sigfig: i64) -> (r: Option<bool>)
    ensures
        r == index_side(final_string@, sigfig as int),
{
    let (lhs, rhs) = point_parts(&chars_of(final_string));
    if sigfig < 0 {
        None
    } else if lhs as u64 > sigfig as u64 {
        Some(true)
    } else if rhs as u64 > sigfig as u64 {
        Some(false)
    } else {
        None
    }
}

/// See [`index_from`].
pub fn sigfig_index_from(final_string: &str, sigfig: i64) -> (r: Option<usize>)
    ensures
        match r {
            Some(n) => index_from(final_string@, sigfig as int) == Some(n as nat),
            None => index_from(final_string@, sigfig as int) is None,
        },
{
    let (lhs, rhs) = point_parts(&chars_of(final_string));
    if sigfig < 0 {
        None
    } else if lhs as u64 > sigfig as u64 {
        Some(0)
    } else if rhs as u64 > sigfig as u64 {
        Some(sigfig as usize)
    } else {
        None
    }
}

/// See [`index_to`].
pub fn sigfig_index_to(final_string: &str, sigfig: i64) -> (r: Option<usize>)
    ensures
        match r {
            Some(n) => index_to(final_string@, sigfig as int) == Some(n as nat),
            None => index_to(final_string@, sigfig as int) is None,
        },
{
    let (lhs, rhs) = point_parts(&chars_of(final_string));
    if sigfig < 0 {
        None
    } else if lhs as u64 > sigfig as u64 {
        Some(lhs - sigfig as usize)
    } else if rhs as u64 > sigfig as u64 {
        Some(rhs)
    } else {
        None
    }
}

/// A number together with the number of significant figures at which it
/// is to be shown.
#[derive(Debug, Clone)]
pub struct DecimalSplits {
    pub val: Decimal,
    pub sigfig: i64,
}

impl DecimalSplits {
    /// A well-formed number and between 3 and 7 significant figures.
    pub open spec fn wf(&self) -> bool {
        self.val.wf() && MIN_SIGFIG <= self.sigfig <= MAX_SIGFIG
    }

    /// The number.
    pub fn value(&self) -> (r: &Decimal)
        ensures
            r == &self.val,
    {
        &self.val
    }

    /// The number of significant figures.
    pub fn sig_fig(&self) -> (r: i64)
        ensures
            r == self.sigfig,
    {
        self.sigfig
    }

    /// Whether the number is below zero.
    pub fn neg(&self) -> (r: bool)
        ensures
            r == (self.val@.neg && self.val@.digits.len() > 0),
    {
        self.val.neg && self.val.digits.len() > 0
    }

    /// Whether the number has a part behind the point.
    pub fn dec(&self) -> (r: bool)
        requires
            self.val.wf(),
        ensures
            r == (self.val@.digits.len() > self.val@.point),
    {
        self.val.point < 0 || self.val.digits.len() > self.val.point as usize
    }

    /// The whole part of the number, without its sign.
    pub fn lhs(&self) -> (r: Decimal)
        requires
            self.val.wf(),
        ensures
            r.wf(),
            r@ == whole_part(self.val@),
    {
        if self.val.point <= 0 {
            return zero_decimal(false);
        }
        let p: usize = self.val.point as usize;
        let n: usize = if self.val.digits.len() < p {
            self.val.digits.len()
        } else {
            p
        };
        let head = first_digits(&self.val.digits, n);
        proof {
            lemma_zeros_start_bounds(head@, head@.len() as int);
        }
        let r = strip_trailing_zeros(head, self.val.point);
        Decimal { neg: false, digits: r.0, point: r.1 }
    }

    /// The part of the number behind the point, without its sign.
    pub fn rhs(&self) -> (r: Decimal)
        requires
            self.val.wf(),
        ensures
            r.wf(),
            r@ == fraction_part(self.val@),
    {
        let len = self.val.digits.len();
        if self.val.point <= 0 {
            let all = first_digits(&self.val.digits, len);
            assert(self.val.digits@.take(len as int) =~= self.val.digits@);
            return Decimal { neg: false, digits: all, point: self.val.point };
        }
        let p: usize = self.val.point as usize;
        if len <= p {
            return zero_decimal(false);
        }
        let mut z: usize = p;
        while z < len && self.val.digits[z] == 0
            invariant
                p <= z <= len,
                len == self.val.digits@.len(),
                zeros_end(self.val.digits@, p as int) == zeros_end(self.val.digits@, z as int),
            decreases len - z,
        {
            z = z + 1;
        }
        proof {
            lemma_zeros_end_bounds(self.val.digits@, p as int);
            lemma_zeros_end_before(self.val.digits@, p as int, len - 1);
        }
        if z - p > (-MIN_POINT) as usize {
            return zero_decimal(false);
        }
        let tail = digits_slice(&self.val.digits, z, len);
        Decimal { neg: false, digits: tail, point: -((z - p) as i64) }
    }

    /// The text of the number at its number of significant figures.
    pub fn final_string(&self) -> (r: String)
        requires
            self.wf(),
        ensures
            r@ == final_text(self.val@, self.sigfig as int),
    {
        get_final_string(&self.val, self.sigfig)
    }

    /// The number of characters behind the point of a finished text.
    pub fn rhs_string_len(&self, string_final_string: String) -> (r: usize)
        ensures
            r == after_point(string_final_string@),
    {
        point_parts(&chars_of(string_final_string.as_str())).1
    }

    /// [`sigfig_index_lhs_or_rhs`] of the finished text.
    pub fn sigfig_index_lhs_or_rhs(&self) -> (r: Option<bool>)
        requires
            self.wf(),
        ensures
            r == index_side(final_text(self.val@, self.sigfig as int), self.sigfig as int),
    {
        sigfig_index_lhs_or_rhs(self.final_string().as_str(), self.sigfig)
    }

    /// [`sigfig_index_from`] of the finished text.
    pub fn sigfig_index_from(&self) -> (r: Option<usize>)
        requires
            self.wf(),
        ensures
            match r {
                Some(n) => index_from(final_text(self.val@, self.sigfig as int), self.sigfig as int)
                    == Some(n as nat),
                None => index_from(final_text(self.val@, self.sigfig as int), self.sigfig as int)
                    is None,
            },
    {
        sigfig_index_from(self.final_string().as_str(), self.sigfig)
    }

    /// [`sigfig_index_to`] of the finished text.
    pub fn sigfig_index_to(&self) -> (r: Option<usize>)
        requires
            self.wf(),
        ensures
            match r {
                Some(n) => index_to(final_text(self.val@, self.sigfig as int), self.sigfig as int)
                    == Some(n as nat),
                None => index_to(final_text(self.val@, self.sigfig as int), self.sigfig as int)
                    is None,
            },
    {
        sigfig_index_to(self.final_string().as_str(), self.sigfig)
    }
}

/// The whole part of a number, without its sign: the digits before the
/// point.
pub open spec fn whole_part(d: DecimalView) -> DecimalView {
    if d.point <= 0 {
        zero_view(false)
    } else {
        let head = d.digits.take(
            if d.digits.len() < d.point {
                d.digits.len() as int
            } else {
                d.point
            },
        );
        let r = without_trailing_zeros(head, d.point);
        DecimalView { neg: false, digits: r.0, point: r.1 }
    }
}

/// The part of a number behind the point, without its sign: the digits
/// behind the point. A part below `1e-324` is zero.
pub open spec fn fraction_part(d: DecimalView) -> DecimalView {
    let z = zeros_end(d.digits, d.point);
    if d.point <= 0 {
        DecimalView { neg: false, digits: d.digits, point: d.point }
    } else if d.digits.len() <= d.point || d.point - z < MIN_POINT {
        zero_view(false)
    } else {
        DecimalView {
            neg: false,
            digits: d.digits.subrange(z, d.digits.len() as int),
            point: d.point - z,
        }
    }
}

} // verus!
