use vstd::prelude::*;
use crate::util::database::fns::{
    conflicting_rows, decoded_rows, get_conflicts, installed_view, rows_view, InstalledDatabase,
};
use crate::util::database::structs::{InstalledPackages, InstalledView, RowView};
use crate::util::lists::{lemma_select_step, select};
use crate::util::paths::path_exists;
use crate::util::text::{push_str, str_equal, strings_view};

verus! {

/// The files of a package that already exist on the file system.
#[derive(Debug)]
pub struct ConflictingFiles {
    pub is_conflict: bool,
    pub files: Vec<String>,
}

/// The installed packages that conflict with a package.
#[derive(Debug)]
pub struct ConflictingPackages {
    pub is_conflict: bool,
    pub packages: Vec<InstalledPackages>,
}

/// The conflicting paths among the first `files.len()` files: each file
/// (prefixed with `root`) whose `exists` answer is true; none for a package
/// that is already installed.
pub open spec fn conflicting_paths(files: Seq<Seq<char>>, exists: Seq<bool>, is_installed: bool, root: Seq<char>) -> Seq<Seq<char>>
    decreases files.len(),
{
    if files.len() == 0 || is_installed {
        Seq::<Seq<char>>::empty()
    } else {
        let front = conflicting_paths(files.drop_last(), exists, is_installed, root);
        if exists[files.len() - 1] {
            front.push(root + files.last())
        } else {
            front
        }
    }
}

/// The path under `root` that a file of a package is checked at: `root`
/// followed by the file.
pub fn conflict_path(root: &str, file: &str) -> (r: String)
    ensures
        r@ == root@ + file@,
{
    let mut path = String::new();
    push_str(&mut path, root);
    push_str(&mut path, file);
    assert(path@ =~= root@ + file@);
    path
}

/// The file conflicts of a package, given for each file whether
/// `root` followed by the file exists on the file system.
pub fn conflicts_from_checks(files: &Vec<String>, exists: &Vec<bool>, is_installed: bool, root: &str) -> (r: ConflictingFiles)
    requires
        exists@.len() == files@.len(),
    ensures
        strings_view(r.files@) == conflicting_paths(strings_view(files@), exists@, is_installed, root@),
        r.is_conflict == (r.files@.len() > 0),
{
    let ghost fv = strings_view(files@);
    let mut out: Vec<String> = Vec::new();
    if is_installed {
        assert(strings_view(out@) =~= Seq::<Seq<char>>::empty());
        return ConflictingFiles { is_conflict: false, files: out };
    }
    let mut i: usize = 0;
    assert(strings_view(out@) =~= Seq::<Seq<char>>::empty());
    assert(fv.take(0) =~= Seq::<Seq<char>>::empty());
    while i < files.len()
        invariant
            fv == strings_view(files@),
            exists@.len() == files@.len(),
            !is_installed,
            i <= files@.len(),
            strings_view(out@) == conflicting_paths(fv.take(i as int), exists@, is_installed, root@),
        decreases files.len() - i,
    {
        assert(fv.take(i + 1).drop_last() =~= fv.take(i as int));
        assert(fv.take(i + 1).last() == files@[i as int]@);
        if exists[i] {
            let path = conflict_path(root, files[i].as_str());
            let ghost before = strings_view(out@);
            out.push(path);
            assert(strings_view(out@) =~= before.push(root@ + files@[i as int]@));
        }
        i = i + 1;
    }
    assert(fv.take(fv.len() as int) =~= fv);
    let c = out.len() > 0;
    ConflictingFiles { is_conflict: c, files: out }
}

/// Checks which files of a package already exist under `root`: for a
/// package that is not installed yet, every file whose path (`root`
/// followed by the file) exists. What exists depends on the disk; the result
/// is the one that `conflicts_from_checks` gives for some answers.
pub fn run_conflict_check(files: &Vec<String>, is_installed: bool, root: String) -> (r: ConflictingFiles)
    ensures
        exists|answers: Seq<bool>| answers.len() == files@.len()
            && strings_view(r.files@) == #[trigger] conflicting_paths(strings_view(files@), answers, is_installed, root@),
        r.is_conflict == (r.files@.len() > 0),
{
    let mut answers: Vec<bool> = Vec::new();
    let mut i: usize = 0;
    while i < files.len()
        invariant
            i <= files@.len(),
            answers@.len() == i,
        decreases files.len() - i,
    {
        if is_installed {
            answers.push(false);
        } else {
            let path = conflict_path(root.as_str(), files[i].as_str());
            answers.push(path_exists(path.as_str()));
        }
        i = i + 1;
    }
    let r = conflicts_from_checks(files, &answers, is_installed, root.as_str());
    assert(answers@.len() == files@.len());
    r
}

/// The installed packages, other than `package` itself, whose conflicts
/// column contains `package`.
pub open spec fn conflicting_packages(rows: Seq<RowView>, package: Seq<char>) -> Seq<InstalledView> {
    select(decoded_rows(conflicting_rows(rows, package)), |p: InstalledView| p.name != package)
}

/// Finds the installed packages that conflict with `package`: those whose
/// conflicts column contains it, except the package itself.
pub fn run_conflict_package_check(db: &InstalledDatabase, package: &str) -> (r: ConflictingPackages)
    ensures
        installed_view(r.packages@) == conflicting_packages(rows_view(db.rows@), package@),
        r.is_conflict == (r.packages@.len() > 0),
{
    let all = get_conflicts(db, package);
    let ghost av = installed_view(all@);
    let ghost pred = |p: InstalledView| p.name != package@;
    let mut kept: Vec<InstalledPackages> = Vec::new();
    let mut i: usize = 0;
    assert(av.take(0) =~= Seq::<InstalledView>::empty());
    assert(installed_view(kept@) =~= Seq::<InstalledView>::empty());
    while i < all.len()
        invariant
            av == installed_view(all@),
            pred == (|p: InstalledView| p.name != package@),
            i <= all@.len(),
            installed_view(kept@) == select(av.take(i as int), pred),
        decreases all.len() - i,
    {
        proof {
            lemma_select_step(av, pred, i as int);
        }
        assert(av[i as int] == all@[i as int]@);
        if !str_equal(all[i].name.as_str(), package) {
            let ghost before = installed_view(kept@);
            let x = all[i].clone();
            kept.push(x);
            assert(installed_view(kept@) =~= before.push(av[i as int]));
        }
        i = i + 1;
    }
    assert(av.take(av.len() as int) =~= av);
    ConflictingPackages { is_conflict: kept.len() > 0, packages: kept }
}

} // verus!
