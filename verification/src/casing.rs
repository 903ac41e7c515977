//! Fixed case transforms used to derive marker and conversion names from
//! field and variant names. The transforms themselves are done by the `heck`
//! crate; their results are named here and the names are what the contracts
//! speak of.

use vstd::prelude::*;
use heck::ToPascalCase;
use heck::ToSnakeCase;

verus! {

/// The UpperCamelCase ("PascalCase") rendering of a character sequence, as
/// `heck` computes it.
pub uninterp spec fn pascal_of(s: Seq<char>) -> Seq<char>;

/// The snake_case rendering of a character sequence, as `heck` computes it.
pub uninterp spec fn snake_of(s: Seq<char>) -> Seq<char>;

/// Relies on heck's `ToPascalCase::to_pascal_case`: the result is a function
/// of the input characters alone; an empty input gives an empty result.
#[verifier::external_body]
pub(crate) fn pascal_case(s: &str) -> (r: String)
    ensures
        r@ == pascal_of(s@),
        s@.len() == 0 ==> r@.len() == 0,
{
    s.to_pascal_case()
}

/// Relies on heck's `ToSnakeCase::to_snake_case`: the result is a function of
/// the input characters alone; an empty input gives an empty result.
#[verifier::external_body]
pub(crate) fn snake_case(s: &str) -> (r: String)
    ensures
        r@ == snake_of(s@),
        s@.len() == 0 ==> r@.len() == 0,
{
    s.to_snake_case()
}

} // verus!
