//! Display-width lookup for Unicode characters.
//!
//! The intrinsic rendered width of a character is decided by the
//! East-Asian-width tables of the `unicode_width` crate (in its non-CJK
//! reading, which is the stable default for contexts that cannot be
//! determined reliably). The table itself is outside this library; its
//! result is given a name here and every contract above speaks of that
//! name.

use vstd::prelude::*;

verus! {

/// What `unicode_width::UnicodeWidthChar::width` returns for one character:
/// `None` for a control character, otherwise its displayed width in columns.
/// The width depends on the character alone.
pub uninterp spec fn unicode_char_width(c: char) -> Option<usize>;

/// Relies on `unicode_width::UnicodeWidthChar::width` (non-CJK tables):
/// the result depends on the character alone, and every width in the
/// crate's tables is 0, 1, or 2.
#[verifier::external_body]
pub(crate) fn char_width(c: char) -> (w: Option<usize>)
    ensures
        w == unicode_char_width(c),
        w matches Some(x) ==> x <= 2,
{
    unicode_width::UnicodeWidthChar::width(c)
}

/// The width a character occupies in the scanner's accounting: a
/// width-returning failure (an unassigned or control scalar value)
/// defaults to width 0.
pub open spec fn effective_width(c: char) -> int {
    match unicode_char_width(c) {
        Some(w) => w as int,
        None => 0,
    }
}

/// Relies on the documentation of `char::from_u32`: it returns `None`
/// exactly for surrogate code points and values above `char::MAX`, and
/// otherwise the `char` with the given scalar value.
pub assume_specification[ char::from_u32 ](v: u32) -> (c: Option<char>)
    ensures
        c is Some <==> vstd::utf8::is_scalar(v),
        c matches Some(ch) ==> ch == v as char,
;

} // verus!
