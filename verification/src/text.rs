//! ASCII case folding, the comparison that header names go by.

use vstd::prelude::*;

verus! {

/// A character with an ASCII capital replaced by its small letter.
pub open spec fn lower_char(c: char) -> char {
    if 'A' <= c && c <= 'Z' {
        ((c as u8 + 32) as u8) as char
    } else {
        c
    }
}

/// A text with every ASCII capital replaced by its small letter; all other
/// characters stay as they are.
pub open spec fn ascii_lowercase(text: Seq<char>) -> Seq<char> {
    Seq::new(text.len(), |i: int| lower_char(text[i]))
}

/// Whether two texts are the same but for the case of their ASCII letters.
///
/// Compares with `unicase::Ascii`, whose `==` is `str::eq_ignore_ascii_case`:
/// the two texts are equal once each is folded to ASCII lower case. The
/// contract states exactly that; it is taken on trust.
#[verifier::external_body]
pub(crate) fn ascii_caseless_eq(left: &str, right: &str) -> (same: bool)
    ensures
        same == (ascii_lowercase(left@) == ascii_lowercase(right@)),
{
    unicase::Ascii::new(left) == right
}

} // verus!
