use vstd::prelude::*;
use crate::util::database::fns::{last_row, stored_files, remove_package_from_installed, return_owned_files, rows_view, InstalledDatabase};
use crate::util::database::structs::RowView;
use crate::util::lists::select;
use crate::util::text::{chars_of, strings_view};

verus! {

/// Whether the rest of an archive path, after a name, adds no component:
/// it is empty, or begins with `/` and each of its components is empty or
/// `.` (which `Path` comparison ignores).
pub open spec fn trivial_rest(r: Seq<char>) -> bool {
    r.len() == 0 || {
        &&& r[0] == '/'
        &&& forall|i: int| 0 <= i < r.len() ==> r[i] == '/' || r[i] == '.'
        &&& forall|i: int| 0 <= i < r.len() - 1 && #[trigger] r[i] == '.' ==> r[i + 1] == '/'
    }
}

/// Whether an archive path is the file `PKG` at the archive's top, as
/// comparing it with `Path::new("PKG")` decides.
pub open spec fn names_pkg(p: Seq<char>) -> bool {
    p.len() >= 3 && p[0] == 'P' && p[1] == 'K' && p[2] == 'G' && trivial_rest(p.skip(3))
}

/// Whether an archive path is the file `PKG` at the archive's top.
pub fn is_pkg_path(path: &str) -> (r: bool)
    ensures
        r == names_pkg(path@),
{
    let cs = chars_of(path);
    let n = cs.len();
    if n < 3 || cs[0] != 'P' || cs[1] != 'K' || cs[2] != 'G' {
        return false;
    }
    let ghost rest = cs@.skip(3);
    if n == 3 {
        assert(rest.len() == 0);
        return true;
    }
    if cs[3] != '/' {
        assert(rest[0] == cs@[3]);
        return false;
    }
    let mut i: usize = 3;
    while i < n
        invariant
            n == cs@.len(),
            cs@ == path@,
            rest == cs@.skip(3),
            3 <= i <= n,
            forall|k: int| 0 <= k < i - 3 ==> rest[k] == '/' || rest[k] == '.',
            forall|k: int| 0 <= k < i - 3 && k + 1 < rest.len() && #[trigger] rest[k] == '.' ==> rest[k + 1] == '/',
        decreases n - i,
    {
        let c = cs[i];
        assert(rest[i - 3] == c);
        if c != '/' && c != '.' {
            return false;
        }
        if c == '.' && i + 1 < n && cs[i + 1] != '/' {
            assert(rest[i - 2] == cs@[i + 1]);
            return false;
        }
        if c == '.' && i + 1 < n {
            assert(rest[i - 2] == cs@[i + 1]);
        }
        i = i + 1;
    }
    assert(rest[0] == cs@[3]);
    true
}

/// Whether a package archive holds a `PKG` file, given the paths of its
/// entries.
pub fn check_if_package(entries: &Vec<String>) -> (r: bool)
    ensures
        r == exists|i: int| 0 <= i < entries@.len() && names_pkg(#[trigger] entries@[i]@),
{
    let mut i: usize = 0;
    while i < entries.len()
        invariant
            i <= entries@.len(),
            forall|k: int| 0 <= k < i ==> !names_pkg(#[trigger] entries@[k]@),
        decreases entries.len() - i,
    {
        if is_pkg_path(entries[i].as_str()) {
            return true;
        }
        i = i + 1;
    }
    false
}

/// Removes a package from the installed packages and returns the files it
/// owned, which are to be deleted where they exist.
pub fn run_remove(db: &mut InstalledDatabase, package: &str) -> (r: Vec<String>)
    ensures
        strings_view(r@) == match last_row(rows_view(old(db).rows@), package@) {
            Some(row) => stored_files(row.installed_files),
            None => Seq::<Seq<char>>::empty(),
        },
        rows_view(final(db).rows@) == select(rows_view(old(db).rows@), |r: RowView| r.name != package@),
{
    let files = return_owned_files(db, package);
    remove_package_from_installed(db, package);
    files
}

} // verus!
