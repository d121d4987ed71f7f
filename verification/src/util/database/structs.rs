use vstd::prelude::*;
use crate::util::text::{strings_view};

verus! {

/// A package as a repository describes it, with its lists split into items.
#[derive(Debug)]
pub struct RemotePackage {
    pub name: String,
    pub version: String,
    pub epoch: i32,
    pub description: String,
    pub groups: Vec<String>,
    pub url: String,
    pub license: Vec<String>,
    pub depends: Vec<String>,
    pub optional_depends: Vec<String>,
    pub provides: Vec<String>,
    pub conflicts: Vec<String>,
    pub replaces: Vec<String>,
    pub sha512sum: String,
}

/// An installed package, as read back from the installed-packages table.
#[derive(Debug)]
pub struct InstalledPackages {
    pub name: String,
    pub groups: Vec<String>,
    pub source: String,
    pub version: String,
    pub epoch: i32,
    pub installed_files: Vec<String>,
    pub provides: Vec<String>,
    pub conflicts: Vec<String>,
    pub dependencies: Vec<String>,
}

/// The mathematical content of an [`InstalledPackages`].
pub struct InstalledView {
    pub name: Seq<char>,
    pub groups: Seq<Seq<char>>,
    pub source: Seq<char>,
    pub version: Seq<char>,
    pub epoch: i32,
    pub installed_files: Seq<Seq<char>>,
    pub provides: Seq<Seq<char>>,
    pub conflicts: Seq<Seq<char>>,
    pub dependencies: Seq<Seq<char>>,
}

impl View for InstalledPackages {
    type V = InstalledView;

    open spec fn view(&self) -> InstalledView {
        InstalledView {
            name: self.name@,
            groups: strings_view(self.groups@),
            source: self.source@,
            version: self.version@,
            epoch: self.epoch,
            installed_files: strings_view(self.installed_files@),
            provides: strings_view(self.provides@),
            conflicts: strings_view(self.conflicts@),
            dependencies: strings_view(self.dependencies@),
        }
    }
}

/// A copy of a list of strings.
pub fn clone_strings(v: &Vec<String>) -> (r: Vec<String>)
    ensures
        r@ == v@,
{
    let mut r: Vec<String> = Vec::new();
    let mut i: usize = 0;
    while i < v.len()
        invariant
            i <= v@.len(),
            r@ == v@.take(i as int),
        decreases v.len() - i,
    {
        r.push(v[i].clone());
        i = i + 1;
        assert(r@ =~= v@.take(i as int));
    }
    assert(v@.take(v@.len() as int) =~= v@);
    r
}

impl Clone for InstalledPackages {
    fn clone(&self) -> (r: Self)
        ensures
            r@ == self@,
    {
        InstalledPackages {
            name: self.name.clone(),
            groups: clone_strings(&self.groups),
            source: self.source.clone(),
            version: self.version.clone(),
            epoch: self.epoch,
            installed_files: clone_strings(&self.installed_files),
            provides: clone_strings(&self.provides),
            conflicts: clone_strings(&self.conflicts),
            dependencies: clone_strings(&self.dependencies),
        }
    }
}

/// Where a package comes from: a repository name, and the repository's own
/// address where it has one.
#[derive(Debug)]
pub struct Source {
    pub name: String,
    pub url: Option<String>,
}

impl Clone for Source {
    fn clone(&self) -> (r: Self)
        ensures
            r == *self,
    {
        Source {
            name: self.name.clone(),
            url: match &self.url {
                Some(u) => Some(u.clone()),
                None => None,
            },
        }
    }
}

/// One row of the installed-packages table, column by column: the list
/// columns hold their items separated by `,`.
#[derive(Debug)]
pub struct InstalledRow {
    pub name: String,
    pub groups: String,
    pub source: String,
    pub version: String,
    pub epoch: i32,
    pub installed_files: String,
    pub provides: String,
    pub conflicts: String,
    pub dependencies: String,
}

/// The mathematical content of an [`InstalledRow`].
pub struct RowView {
    pub name: Seq<char>,
    pub groups: Seq<char>,
    pub source: Seq<char>,
    pub version: Seq<char>,
    pub epoch: i32,
    pub installed_files: Seq<char>,
    pub provides: Seq<char>,
    pub conflicts: Seq<char>,
    pub dependencies: Seq<char>,
}

impl View for InstalledRow {
    type V = RowView;

    open spec fn view(&self) -> RowView {
        RowView {
            name: self.name@,
            groups: self.groups@,
            source: self.source@,
            version: self.version@,
            epoch: self.epoch,
            installed_files: self.installed_files@,
            provides: self.provides@,
            conflicts: self.conflicts@,
            dependencies: self.dependencies@,
        }
    }
}

impl Clone for InstalledRow {
    fn clone(&self) -> (r: Self)
        ensures
            r == *self,
    {
        InstalledRow {
            name: self.name.clone(),
            groups: self.groups.clone(),
            source: self.source.clone(),
            version: self.version.clone(),
            epoch: self.epoch,
            installed_files: self.installed_files.clone(),
            provides: self.provides.clone(),
            conflicts: self.conflicts.clone(),
            dependencies: self.dependencies.clone(),
        }
    }
}

} // verus!
