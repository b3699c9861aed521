//! Identifier casing for the code generators.

use convert_case::{Case, Casing};
use vstd::prelude::*;

verus! {

/// The casings that the code generators use.
#[derive(Debug, Clone, Copy, PartialEq, Eq, Structural)]
pub enum NameCase {
    /// Words joined without a delimiter, each capitalised: `TestMessage`.
    UpperCamel,
    /// Lower-case words joined by underscores: `page_number`.
    Snake,
}

/// The identifier `name` in the casing `case`: what `Casing::to_case` of
/// `convert_case` returns for the two.
pub uninterp spec fn case_converted(name: Seq<char>, case: NameCase) -> Seq<char>;

/// `convert_case::Casing::to_case` on a string slice: the identifier, split
/// into words at the default boundaries and joined again in the given
/// casing. The result depends on the two arguments alone.
#[verifier::external_body]
pub(crate) fn to_case(name: &str, case: NameCase) -> (cased: String)
    ensures
        cased@ == case_converted(name@, case),
{
    match case {
        NameCase::UpperCamel => name.to_case(Case::UpperCamel),
        NameCase::Snake => name.to_case(Case::Snake),
    }
}

} // verus!
