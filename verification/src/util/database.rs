pub mod fns;
pub mod structs;

use vstd::prelude::*;
use crate::util::database::fns::{first_source_with, Catalog, RepoRecord};
use crate::util::lists::{lemma_select_step, select};
use crate::util::macros::vec_to_string;
use crate::util::text::{join_char, nat_decimal, str_equal, string_from_str, strings_view};

pub use crate::util::database::structs::Source;

verus! {

/// A package as the compact package table describes it, with its lists as
/// lists.
#[derive(Debug)]
pub struct Package {
    pub name: String,
    pub version: String,
    pub epoch: i32,
    pub description: String,
    pub groups: Vec<String>,
    pub url: String,
    pub license: Vec<String>,
    pub depends: Vec<String>,
    pub build_depends: Vec<String>,
    pub optional_depends: Vec<String>,
    pub provides: Vec<String>,
    pub conflicts: Vec<String>,
    pub replaces: Vec<String>,
    pub checksum: String,
}

/// One row of the compact installed-packages table: name, groups
/// joined with `,`, source, version and epoch.
#[derive(Debug)]
pub struct PackageRecord {
    pub name: String,
    pub groups: String,
    pub source: String,
    pub version: String,
    pub epoch: i32,
}

/// Whether `r` is the row that recording `p`, installed from `s`, writes.
pub open spec fn record_of(r: PackageRecord, p: Package, s: Source) -> bool {
    &&& r.name@ == p.name@
    &&& r.groups@ == join_char(strings_view(p.groups@), ',')
    &&& r.source@ == crate::util::database::fns::source_text(s)
    &&& r.version@ == p.version@
    &&& r.epoch == p.epoch
}

/// Adds a package to the installed packages: its row replaces any row of the
/// same name and comes last.
pub fn add_package_to_installed(table: &mut Vec<PackageRecord>, package: Package, source: Source)
    ensures
        final(table)@.len() >= 1,
        record_of(final(table)@.last(), package, source),
        final(table)@.drop_last() == select(old(table)@, |r: PackageRecord| r.name@ != package.name@),
{
    let ghost pred = |r: PackageRecord| r.name@ != package.name@;
    let ghost before = table@;
    let mut kept: Vec<PackageRecord> = Vec::new();
    let mut i: usize = 0;
    assert(before.take(0) =~= Seq::<PackageRecord>::empty());
    while i < table.len()
        invariant
            before == table@,
            pred == (|r: PackageRecord| r.name@ != package.name@),
            i <= table@.len(),
            kept@ == select(before.take(i as int), pred),
        decreases table.len() - i,
    {
        proof {
            lemma_select_step(before, pred, i as int);
        }
        if !str_equal(table[i].name.as_str(), package.name.as_str()) {
            let rec = PackageRecord {
                name: table[i].name.clone(),
                groups: table[i].groups.clone(),
                source: table[i].source.clone(),
                version: table[i].version.clone(),
                epoch: table[i].epoch,
            };
            assert(rec == table@[i as int]);
            kept.push(rec);
        }
        i = i + 1;
    }
    assert(before.take(before.len() as int) =~= before);
    let source_text = crate::util::database::fns::source_to_string(&source);
    let rec = PackageRecord {
        name: package.name.clone(),
        groups: vec_to_string(package.groups),
        source: source_text,
        version: package.version.clone(),
        epoch: package.epoch,
    };
    kept.push(rec);
    *table = kept;
    assert(table@.drop_last() =~= select(before, pred));
}

/// Creates the first content of the installed packages table: records this
/// package manager, at `version`, in group `core`, as installed from `core`.
pub fn init_database(table: &mut Vec<PackageRecord>, version: &str)
    ensures
        final(table)@.len() >= 1,
        final(table)@.last().name@ == "bulge"@,
        final(table)@.last().groups@ == "core"@,
        final(table)@.last().source@ == "core"@,
        final(table)@.last().version@ == version@,
        final(table)@.last().epoch == 0,
        final(table)@.drop_last() == select(old(table)@, |r: PackageRecord| r.name@ != "bulge"@),
{
    let mut groups: Vec<String> = Vec::new();
    groups.push(string_from_str("core"));
    let mut build_depends: Vec<String> = Vec::new();
    build_depends.push(string_from_str("rust"));
    build_depends.push(string_from_str("cargo"));
    let mut provides: Vec<String> = Vec::new();
    provides.push(string_from_str("bulge"));
    let mut license: Vec<String> = Vec::new();
    license.push(string_from_str("MIT"));
    let package = Package {
        name: string_from_str("bulge"),
        version: string_from_str(version),
        epoch: 0,
        description: string_from_str("An experimental package manager for yiffOS."),
        groups: groups,
        url: string_from_str("https://www.yiffos.ga/"),
        license: license,
        depends: Vec::new(),
        build_depends: build_depends,
        optional_depends: Vec::new(),
        provides: provides,
        conflicts: Vec::new(),
        replaces: Vec::new(),
        checksum: string_from_str(""),
    };
    let source = Source { name: string_from_str("core"), url: None };
    proof {
        assert(strings_view(package.groups@) =~= seq!["core"@]);
        reveal_with_fuel(join_char, 2);
    }
    add_package_to_installed(table, package, source);
}

/// Looks for a package in the repositories and gives the repository it is
/// present in: the first source, in configuration order, whose cache holds
/// it; the empty name where none does.
pub fn search_for_package(catalog: &Catalog, package: &str) -> (r: String)
    ensures
        r@ == first_source_with(*catalog, catalog.sources@, package@),
{
    match crate::util::database::fns::search_for_package(catalog, package) {
        Ok(repo) => repo,
        Err(_) => String::new(),
    }
}

/// Records a repository's cached database, with the time in milliseconds
/// since the Unix epoch: a record of the same name is replaced, and the new
/// record comes last.
pub fn update_cached_repos(table: &mut Vec<RepoRecord>, repo: &str, repo_hash: &str, now_millis: u128)
    ensures
        final(table)@.len() >= 1,
        final(table)@.last().name@ == repo@,
        final(table)@.last().repo_hash@ == repo_hash@,
        final(table)@.last().last_updated@ == nat_decimal(now_millis as nat),
        final(table)@.drop_last() == select(old(table)@, |r: RepoRecord| r.name@ != repo@),
{
    crate::util::database::fns::update_cached_repos(table, repo, repo_hash, now_millis);
}

} // verus!
