use vstd::prelude::*;
use unicode_width::UnicodeWidthChar;

verus! {

/// The display width that the `unicode-width` crate gives a character.
pub uninterp spec fn unicode_width(ch: char) -> Option<usize>;

/// The display width of `ch` in columns, or `None` for a control character.
/// Calls `UnicodeWidthChar::width` of the `unicode-width` crate; the contract
/// claims that the result is a function of `ch` and, as that crate's source
/// shows, that the printable ASCII characters are one column wide, that the
/// C0 and C1 control characters and DEL have no width, and that every
/// character from U+00A0 on has one; which width, its tables decide.
#[verifier::external_body]
pub(crate) fn char_width(ch: char) -> (w: Option<usize>)
    ensures
        w == unicode_width(ch),
        0x20 <= (ch as u32) < 0x7f ==> w == Some(1usize),
        (ch as u32) < 0x20 || (0x7f <= (ch as u32) < 0xa0) ==> w is None,
        (ch as u32) >= 0xa0 ==> w is Some,
{
    ch.width()
}

} // verus!
