use vstd::prelude::*;

verus! {

/// `std::path::Path::exists`: whether something exists at `path` on the
/// file system. The answer depends on the disk, so the contract claims
/// nothing of it.
#[verifier::external_body]
pub(crate) fn path_exists(path: &str) -> bool {
    std::path::Path::new(path).exists()
}

} // verus!
