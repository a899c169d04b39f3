//! Upper and lower case.
use vstd::prelude::*;
use vstd::string::*;

use crate::text;

verus! {

/// Every character is one of ASCII.
pub open spec fn ascii(s: Seq<char>) -> bool {
    forall|i: int| 0 <= i < s.len() ==> (#[trigger] s[i] as u32) < 0x80
}

/// What `str::to_uppercase` of std makes of a text.
pub uninterp spec fn uppercased(s: Seq<char>) -> Seq<char>;

/// What `str::to_lowercase` of std makes of a text.
pub uninterp spec fn lowercased(s: Seq<char>) -> Seq<char>;

/// `str::to_uppercase` of std: the upper case of a text by Unicode's rules,
/// which of a text in ASCII changes the letters `a` to `z` and nothing else.
#[verifier::external_body]
pub(crate) fn to_upper(s: &str) -> (r: String)
    ensures
        r@ == uppercased(s@),
        ascii(s@) ==> r@ == text::ascii_uppered(s@),
{
    s.to_uppercase()
}

/// `str::to_lowercase` of std: the lower case of a text by Unicode's rules,
/// which of a text in ASCII changes the letters `A` to `Z` and nothing else.
#[verifier::external_body]
pub(crate) fn to_lower(s: &str) -> (r: String)
    ensures
        r@ == lowercased(s@),
        ascii(s@) ==> r@ == text::ascii_lowered(s@),
{
    s.to_lowercase()
}

} // verus!
