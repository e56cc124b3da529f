//! Display width of text in terminal columns.
//!
//! The width of a character is looked up by the `unicode-width` crate; the
//! library reasons about it through the name [`char_width`] and the few
//! facts about it that the lookup makes plain.

use vstd::prelude::*;
use unicode_truncate::UnicodeTruncateStr;
use unicode_width::UnicodeWidthChar;
use unicode_width::UnicodeWidthStr;

verus! {

/// The number of terminal columns that one character occupies, with a
/// control character counted as zero columns.
pub uninterp spec fn char_width(c: char) -> nat;

/// The horizontal ellipsis that marks a truncated cell.
pub open spec fn ellipsis() -> char {
    '\u{2026}'
}

/// The number of terminal columns that a text occupies: the sum of the
/// widths of its characters.
pub open spec fn display_width(s: Seq<char>) -> nat
    decreases s.len(),
{
    if s.len() == 0 {
        0
    } else {
        display_width(s.drop_last()) + char_width(s.last())
    }
}

/// The number of leading characters of `s` that fit into `width` columns:
/// the length of the longest prefix whose display width is at most `width`.
pub open spec fn fitting_len(s: Seq<char>, width: nat) -> nat
    decreases s.len(),
{
    if s.len() == 0 || display_width(s) <= width {
        s.len()
    } else {
        fitting_len(s.drop_last(), width)
    }
}

/// The longest prefix of `s` that is at most `width` columns wide.
pub open spec fn truncated(s: Seq<char>, width: nat) -> Seq<char> {
    s.take(fitting_len(s, width) as int)
}

/// `UnicodeWidthChar::width` of the `unicode-width` crate, with `None` (a
/// control character) taken as zero. The result is the character's width;
/// it is never more than two columns, it is one column for a printable
/// ASCII character, and one column for the horizontal ellipsis.
#[verifier::external_body]
pub(crate) fn char_columns(c: char) -> (w: usize)
    ensures
        w == char_width(c),
        w <= 2,
        ' ' <= c && c <= '~' ==> w == 1,
        c == ellipsis() ==> w == 1,
{
    UnicodeWidthChar::width(c).unwrap_or(0)
}

/// `UnicodeWidthStr::width` of the `unicode-width` crate: the sum of the
/// widths of the characters of `s`.
#[verifier::external_body]
pub(crate) fn str_columns(s: &str) -> (w: usize)
    ensures
        w == display_width(s@),
{
    UnicodeWidthStr::width(s)
}

/// `UnicodeTruncateStr::unicode_truncate` of the `unicode-truncate` crate:
/// the longest prefix of `s` whose display width is at most `width`.
#[verifier::external_body]
pub(crate) fn truncate_columns(s: &str, width: usize) -> (r: String)
    ensures
        r@ == truncated(s@, width as nat),
{
    let (head, _) = s.unicode_truncate(width);
    head.to_string()
}

/// The width of a text is the width of its parts, added.
pub proof fn lemma_display_width_concat(a: Seq<char>, b: Seq<char>)
    ensures
        display_width(a + b) == display_width(a) + display_width(b),
    decreases b.len(),
{
    if b.len() == 0 {
        assert(a + b =~= a);
    } else {
        lemma_display_width_concat(a, b.drop_last());
        assert((a + b).drop_last() =~= a + b.drop_last());
        assert((a + b).last() == b.last());
    }
}

/// A text made of one character is as wide as that character.
pub proof fn lemma_display_width_single(c: char)
    ensures
        display_width(seq![c]) == char_width(c),
{
    let s = seq![c];
    assert(s.drop_last() =~= Seq::<char>::empty());
    assert(display_width(s.drop_last()) == 0);
}

/// A text without a character of more than one column.
pub open spec fn is_narrow(s: Seq<char>) -> bool {
    forall|i: int| 0 <= i < s.len() ==> char_width(#[trigger] s[i]) <= 1
}

/// Of a text without a character of more than one column, what is cut to
/// fit a width that the text reaches is exactly that wide.
pub proof fn lemma_truncated_narrow(s: Seq<char>, width: nat)
    requires
        is_narrow(s),
        display_width(s) >= width,
    ensures
        display_width(truncated(s, width)) == width,
    decreases s.len(),
{
    if s.len() == 0 || display_width(s) <= width {
        assert(s.take(s.len() as int) =~= s);
    } else {
        let front = s.drop_last();
        assert(is_narrow(front)) by {
            assert forall|i: int| 0 <= i < front.len() implies char_width(#[trigger] front[i])
                <= 1 by {
                assert(front[i] == s[i]);
            }
        }
        assert(char_width(s.last()) <= 1) by {
            assert(s.last() == s[s.len() - 1]);
        }
        lemma_truncated_narrow(front, width);
        lemma_truncated_fits(front, width);
        let k = fitting_len(front, width) as int;
        assert(front.take(k) =~= s.take(k));
    }
}

/// What fits is a prefix, and it is no wider than asked.
pub proof fn lemma_truncated_fits(s: Seq<char>, width: nat)
    ensures
        fitting_len(s, width) <= s.len(),
        display_width(truncated(s, width)) <= width,
        display_width(s) <= width ==> truncated(s, width) == s,
    decreases s.len(),
{
    if s.len() == 0 || display_width(s) <= width {
        assert(s.take(s.len() as int) =~= s);
    } else {
        lemma_truncated_fits(s.drop_last(), width);
        let k = fitting_len(s.drop_last(), width) as int;
        assert(s.drop_last().take(k) =~= s.take(k));
    }
}

} // verus!
