use vstd::prelude::*;

verus! {

/// A package as a repository database describes it: one row of its
/// `packages` table. The list-valued columns (`groups`, `license`,
/// `depends`, ...) hold their items separated by `,`.
#[derive(Debug)]
pub struct Package {
    pub name: String,
    pub version: String,
    pub epoch: i32,
    pub description: String,
    pub groups: String,
    pub url: String,
    pub license: String,
    pub depends: String,
    pub optional_depends: String,
    pub provides: String,
    pub conflicts: String,
    pub replaces: String,
    pub sha512sum: String,
}

impl Clone for Package {
    fn clone(&self) -> (r: Self)
        ensures
            r == *self,
    {
        Package {
            name: self.name.clone(),
            version: self.version.clone(),
            epoch: self.epoch,
            description: self.description.clone(),
            groups: self.groups.clone(),
            url: self.url.clone(),
            license: self.license.clone(),
            depends: self.depends.clone(),
            optional_depends: self.optional_depends.clone(),
            provides: self.provides.clone(),
            conflicts: self.conflicts.clone(),
            replaces: self.replaces.clone(),
            sha512sum: self.sha512sum.clone(),
        }
    }
}

/// A package about to be recorded as installed.
#[derive(Debug)]
pub struct NewPackage {
    pub name: String,
    pub groups: String,
    pub version: String,
    pub epoch: i32,
    pub installed_files: Vec<String>,
    pub provides: Vec<String>,
    pub conflicts: Vec<String>,
    pub dependencies: Vec<String>,
}

} // verus!
