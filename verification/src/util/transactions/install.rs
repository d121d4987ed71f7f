use vstd::prelude::*;
use crate::util::database::fns::{first_row, get_installed_package, rows_view, InstalledDatabase};
use crate::util::database::structs::Source;
use crate::util::transactions::conflict::{conflicting_paths, run_conflict_check, ConflictingFiles};
use crate::util::lists::{lemma_select_step, select};
use crate::util::macros::string_to_vec;
use crate::util::packaging::structs::{NewPackage, Package};
use crate::util::text::{chars_of, push_char, push_str, split_char, string_from_chars, strings_view};
use crate::util::version::{version_is_older, version_is_same, version_older, version_same};

verus! {

/// A package to install, and where it comes from.
#[derive(Debug)]
pub struct InstallTransaction {
    pub package: Package,
    pub source: Source,
}

impl Clone for InstallTransaction {
    fn clone(&self) -> (r: Self)
        ensures
            r == *self,
    {
        InstallTransaction { package: self.package.clone(), source: self.source.clone() }
    }
}

/// How an install relates to what is installed: a fresh install, a
/// downgrade (which asks first), a reinstall of the same version (which
/// warns), or an upgrade. All but a fresh install replace the installed
/// files.
#[derive(Debug, Clone, Copy)]
pub enum InstallKind {
    Fresh,
    Downgrade,
    Reinstall,
    Upgrade,
}

/// The kind of an install of `new_version` over `installed_version`.
pub open spec fn install_kind_of(new_version: Seq<char>, installed_version: Option<Seq<char>>) -> InstallKind {
    match installed_version {
        None => InstallKind::Fresh,
        Some(v) => if version_older(new_version, v) {
            InstallKind::Downgrade
        } else if version_same(new_version, v) {
            InstallKind::Reinstall
        } else {
            InstallKind::Upgrade
        },
    }
}

/// The kind of an install of `new_version`, given the version installed
/// under that name, if any.
pub fn install_kind(new_version: &str, installed_version: Option<String>) -> (r: InstallKind)
    ensures
        r == install_kind_of(new_version@, match installed_version {
            Some(v) => Some(v@),
            None => None,
        }),
{
    match installed_version {
        None => InstallKind::Fresh,
        Some(v) => {
            if version_is_older(new_version, v.as_str()) {
                InstallKind::Downgrade
            } else if version_is_same(new_version, v.as_str()) {
                InstallKind::Reinstall
            } else {
                InstallKind::Upgrade
            }
        },
    }
}

/// Whether an archive entry names a directory: its path ends with `/`.
pub open spec fn is_dir_entry(p: Seq<char>) -> bool {
    p.len() > 0 && p.last() == '/'
}

/// The files that a package's data archive installs: each entry that is not
/// a directory, as an absolute path.
pub open spec fn package_files_of(entries: Seq<Seq<char>>) -> Seq<Seq<char>> {
    select(entries, |e: Seq<char>| !is_dir_entry(e)).map_values(|e: Seq<char>| seq!['/'] + e)
}

/// The files that a package's data archive installs, from the paths of its
/// entries in archive order.
pub fn package_files(entries: &Vec<String>) -> (r: Vec<String>)
    ensures
        strings_view(r@) == package_files_of(strings_view(entries@)),
{
    let ghost ev = strings_view(entries@);
    let ghost pred = |e: Seq<char>| !is_dir_entry(e);
    let ghost f = |e: Seq<char>| seq!['/'] + e;
    let mut files: Vec<String> = Vec::new();
    let mut i: usize = 0;
    assert(ev.take(0) =~= Seq::<Seq<char>>::empty());
    assert(select(Seq::<Seq<char>>::empty(), pred).map_values(f) =~= Seq::<Seq<char>>::empty());
    while i < entries.len()
        invariant
            ev == strings_view(entries@),
            pred == (|e: Seq<char>| !is_dir_entry(e)),
            f == (|e: Seq<char>| seq!['/'] + e),
            i <= entries@.len(),
            strings_view(files@) == select(ev.take(i as int), pred).map_values(f),
        decreases entries.len() - i,
    {
        proof {
            lemma_select_step(ev, pred, i as int);
        }
        let cs = chars_of(entries[i].as_str());
        assert(cs@ == ev[i as int]);
        let n = cs.len();
        if !(n > 0 && cs[n - 1] == '/') {
            let mut path = String::new();
            push_char(&mut path, '/');
            push_str(&mut path, entries[i].as_str());
            let ghost before = strings_view(files@);
            files.push(path);
            assert(strings_view(files@) =~= before.push(f(ev[i as int])));
            assert(select(ev.take(i as int), pred).push(ev[i as int]).map_values(f) =~= select(ev.take(i as int), pred).map_values(f).push(f(ev[i as int])));
        }
        i = i + 1;
    }
    assert(ev.take(ev.len() as int) =~= ev);
    files
}

/// The record of an installed package that an install writes: its files,
/// and its provides, conflicts and depends columns split at `,`.
pub fn new_package_record(install: &InstallTransaction, files: Vec<String>) -> (r: NewPackage)
    ensures
        r.name == install.package.name,
        r.groups == install.package.groups,
        r.version == install.package.version,
        r.epoch == install.package.epoch,
        r.installed_files@ == files@,
        strings_view(r.provides@) == split_char(install.package.provides@, ','),
        strings_view(r.conflicts@) == split_char(install.package.conflicts@, ','),
        strings_view(r.dependencies@) == split_char(install.package.depends@, ','),
{
    NewPackage {
        name: install.package.name.clone(),
        groups: install.package.groups.clone(),
        version: install.package.version.clone(),
        epoch: install.package.epoch,
        installed_files: files,
        provides: string_to_vec(install.package.provides.clone()),
        conflicts: string_to_vec(install.package.conflicts.clone()),
        dependencies: string_to_vec(install.package.depends.clone()),
    }
}

/// The directory that a package is unpacked into: `{root}/tmp/bulge/{name}`.
pub fn unpack_dir(root: &str, name: &str) -> (r: String)
    ensures
        r@ == root@ + "/tmp/bulge/"@ + name@,
{
    let mut out = String::new();
    push_str(&mut out, root);
    push_str(&mut out, "/tmp/bulge/");
    push_str(&mut out, name);
    assert(out@ =~= root@ + "/tmp/bulge/"@ + name@);
    out
}

/// What installing an unpacked package involves before any file is
/// touched: how it relates to what is installed, the version installed under
/// its name, the files its data archive installs, which of them already
/// exist, and the record that the install writes.
#[derive(Debug)]
pub struct InstallPlan {
    pub kind: InstallKind,
    pub installed_version: Option<String>,
    pub files: Vec<String>,
    pub conflicts: ConflictingFiles,
    pub record: NewPackage,
}

/// Prepares the install of `install`, whose unpacked `PKG` file describes
/// `package` and whose data archive has the entries `entries`, under
/// `root`. A downgrade asks before going on and a reinstall warns; existing
/// files of a package that is not installed yet are conflicts, which ask
/// before they are removed; any install over an installed package (all but
/// a fresh one) first removes the files it installs.
pub fn prepare_install(
    db: &InstalledDatabase,
    install: &InstallTransaction,
    package: &Package,
    entries: &Vec<String>,
    root: String,
) -> (r: InstallPlan)
    ensures
        match first_row(rows_view(db.rows@), package.name@) {
            Some(row) => r.installed_version matches Some(v) && v@ == row.version,
            None => r.installed_version is None,
        },
        r.kind == install_kind_of(package.version@, match r.installed_version {
            Some(v) => Some(v@),
            None => None,
        }),
        strings_view(r.files@) == package_files_of(strings_view(entries@)),
        exists|answers: Seq<bool>| answers.len() == r.files@.len()
            && strings_view(r.conflicts.files@) == #[trigger] conflicting_paths(strings_view(r.files@), answers, r.installed_version is Some, root@),
        r.conflicts.is_conflict == (r.conflicts.files@.len() > 0),
        r.record.name == install.package.name,
        r.record.groups == install.package.groups,
        r.record.version == install.package.version,
        r.record.epoch == install.package.epoch,
        r.record.installed_files@ == r.files@,
        strings_view(r.record.provides@) == split_char(install.package.provides@, ','),
        strings_view(r.record.conflicts@) == split_char(install.package.conflicts@, ','),
        strings_view(r.record.dependencies@) == split_char(install.package.depends@, ','),
{
    let installed_version = match get_installed_package(db, package.name.as_str()) {
        Ok(p) => Some(p.version),
        Err(_) => None,
    };
    let kind = match &installed_version {
        Some(v) => install_kind(package.version.as_str(), Some(v.clone())),
        None => install_kind(package.version.as_str(), None),
    };
    let files = package_files(entries);
    let ghost root_v = root@;
    let is_installed = installed_version.is_some();
    let conflicts = run_conflict_check(&files, is_installed, root);
    let ghost answers = choose|a: Seq<bool>| a.len() == files@.len()
        && strings_view(conflicts.files@) == #[trigger] conflicting_paths(strings_view(files@), a, is_installed, root_v);
    let record = new_package_record(install, clone_file_list(&files));
    let r = InstallPlan { kind, installed_version, files, conflicts, record };
    assert(answers.len() == r.files@.len()
        && strings_view(r.conflicts.files@) == conflicting_paths(strings_view(r.files@), answers, r.installed_version is Some, root_v));
    r
}

/// A copy of a list of file paths.
fn clone_file_list(files: &Vec<String>) -> (r: Vec<String>)
    ensures
        r@ == files@,
{
    let mut out: Vec<String> = Vec::new();
    let mut i: usize = 0;
    while i < files.len()
        invariant
            i <= files@.len(),
            out@ == files@.take(i as int),
        decreases files.len() - i,
    {
        out.push(files[i].clone());
        assert(out@ =~= files@.take(i + 1));
        i = i + 1;
    }
    assert(files@.take(files@.len() as int) =~= files@);
    out
}

} // verus!
