//! Case conversions of identifiers, done by outside code.
use vstd::prelude::*;

use heck::ToLowerCamelCase;

verus! {

/// What `heck` makes of a string in lower camel case: the words of `s`,
/// the first in lower case, the others capitalized, with no separators.
pub uninterp spec fn lower_camel_case(s: Seq<char>) -> Seq<char>;

/// What `str::to_uppercase` makes of a string: every character mapped to
/// its Unicode upper case.
pub uninterp spec fn upper_case(s: Seq<char>) -> Seq<char>;

/// Converts a field name to lower camel case.
///
/// Trusted: calls `heck::ToLowerCamelCase::to_lower_camel_case` on `str`,
/// which splits the string into words (at characters that are neither
/// letters nor digits, and where an upper-case letter starts a word) and
/// joins them, the first in lower case and the others capitalized.  The
/// contract claims only that the result is a function of the argument,
/// named `lower_camel_case`; how the words are found is left unsaid.
#[verifier::external_body]
pub(crate) fn to_lower_camel_case(s: &str) -> (r: String)
    ensures
        r@ == lower_camel_case(s@),
{
    s.to_lower_camel_case()
}

/// Converts a variant name to upper case.
///
/// Trusted: calls `str::to_uppercase`, which maps every character to its
/// Unicode upper case (one character may become several).  The contract
/// claims only that the result is a function of the argument, named
/// `upper_case`; the Unicode tables are left unsaid.
#[verifier::external_body]
pub(crate) fn to_uppercase(s: &str) -> (r: String)
    ensures
        r@ == upper_case(s@),
{
    s.to_uppercase()
}

} // verus!
