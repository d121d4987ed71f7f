use vstd::prelude::*;
use version_compare::Version;

verus! {

/// Whether version text `a` orders before `b`, as
/// `Version::from(a) < Version::from(b)` compares them.
pub uninterp spec fn version_older(a: Seq<char>, b: Seq<char>) -> bool;

/// Whether version texts `a` and `b` compare equal, as
/// `Version::from(a) == Version::from(b)` compares them.
pub uninterp spec fn version_same(a: Seq<char>, b: Seq<char>) -> bool;

/// Whether version text `a` orders after `b`, as
/// `Version::from(a) > Version::from(b)` compares them.
pub uninterp spec fn version_newer(a: Seq<char>, b: Seq<char>) -> bool;

/// `<` on `Option<version_compare::Version>` made by `Version::from`: the
/// contract names the answer, a function of the two texts alone.
#[verifier::external_body]
pub(crate) fn version_is_older(a: &str, b: &str) -> (r: bool)
    ensures
        r == version_older(a@, b@),
{
    Version::from(a) < Version::from(b)
}

/// `==` on `Option<version_compare::Version>` made by `Version::from`: the
/// contract names the answer, a function of the two texts alone.
#[verifier::external_body]
pub(crate) fn version_is_same(a: &str, b: &str) -> (r: bool)
    ensures
        r == version_same(a@, b@),
{
    Version::from(a) == Version::from(b)
}

/// `>` on `Option<version_compare::Version>` made by `Version::from`: the
/// contract names the answer, a function of the two texts alone.
#[verifier::external_body]
pub(crate) fn version_is_newer(a: &str, b: &str) -> (r: bool)
    ensures
        r == version_newer(a@, b@),
{
    Version::from(a) > Version::from(b)
}

} // verus!
