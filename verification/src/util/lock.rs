use vstd::prelude::*;
use crate::util::paths::path_exists;

verus! {

/// The lock file that marks a running instance.
pub fn lock_path() -> (r: &'static str)
    ensures
        r@ == "/tmp/bulge.funny"@,
{
    "/tmp/bulge.funny"
}

/// Returns true if the lock file exists on the file system
pub fn check_lock() -> bool {
    path_exists(lock_path())
}

} // verus!
