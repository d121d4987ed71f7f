use vstd::prelude::*;
use crate::util::database::structs::{InstalledPackages, InstalledRow, InstalledView, RowView, Source};
use crate::util::lists::{lemma_select_step, select};
use crate::util::packaging::structs::{NewPackage, Package};
use crate::util::text::{
    chars_of, contains_sub, contains_sub_exec, join_char, join_strings, nat_decimal, push_char,
    push_str, split_char, str_is_empty, split_string, str_equal, string_from_str, strings_view, u128_to_string,
};

verus! {

/// A package could not be found in the package databases.
#[derive(Debug)]
pub struct PackageDBError;

impl PackageDBError {
    /// The message shown for this error.
    pub fn message(&self) -> (r: String)
        ensures
            r@ == "Error getting package from database!"@,
    {
        string_from_str("Error getting package from database!")
    }
}

// ---------------------------------------------------------------------------
// The databases
// ---------------------------------------------------------------------------

/// The cached database of one repository: the rows of its `packages` table,
/// in table order, or `None` where the cache holds no such table (an empty
/// repository).
#[derive(Debug)]
pub struct RepoDatabase {
    pub name: String,
    pub packages: Option<Vec<Package>>,
}

/// The cached repository databases that lookups can reach, with the names
/// of the configured active repositories (the sources) in configuration
/// order. Searches go through the sources in that order; a lookup in a named
/// repository goes to the first cache of that name.
#[derive(Debug)]
pub struct Catalog {
    pub caches: Vec<RepoDatabase>,
    pub sources: Vec<String>,
}

/// The installed-packages table, row by row.
#[derive(Debug)]
pub struct InstalledDatabase {
    pub rows: Vec<InstalledRow>,
}

/// One row of the repositories table: a repository, the hash of its cached
/// database and when it was stored, in milliseconds since the Unix epoch.
#[derive(Debug)]
pub struct RepoRecord {
    pub name: String,
    pub repo_hash: String,
    pub last_updated: String,
}

// ---------------------------------------------------------------------------
// Lookups in the repository caches
// ---------------------------------------------------------------------------

/// The packages of the first cache named `repo`, if it has a packages table.
pub open spec fn cache_packages(caches: Seq<RepoDatabase>, repo: Seq<char>) -> Option<Seq<Package>>
    decreases caches.len(),
{
    if caches.len() == 0 {
        None
    } else if caches[0].name@ == repo {
        match caches[0].packages {
            Some(v) => Some(v@),
            None => None,
        }
    } else {
        cache_packages(caches.drop_first(), repo)
    }
}

/// The first package named `name`.
pub open spec fn find_package(pkgs: Seq<Package>, name: Seq<char>) -> Option<Package>
    decreases pkgs.len(),
{
    if pkgs.len() == 0 {
        None
    } else if pkgs[0].name@ == name {
        Some(pkgs[0])
    } else {
        find_package(pkgs.drop_first(), name)
    }
}

/// The package named `name` in repository `repo`.
pub open spec fn remote_package(c: Catalog, name: Seq<char>, repo: Seq<char>) -> Option<Package> {
    match cache_packages(c.caches@, repo) {
        Some(p) => find_package(p, name),
        None => None,
    }
}

/// Whether `item` is one of the `,`-separated items of `text`.
pub open spec fn in_list(text: Seq<char>, item: Seq<char>) -> bool {
    split_char(text, ',').contains(item)
}

/// Whether some package of repository `repo` lists `group` among the items
/// of its groups column.
pub open spec fn repo_has_group(c: Catalog, group: Seq<char>, repo: Seq<char>) -> bool {
    match cache_packages(c.caches@, repo) {
        Some(p) => exists|i: int| 0 <= i < p.len() && in_list(#[trigger] p[i].groups@, group),
        None => false,
    }
}

/// The first source, among those with a non-empty name, that holds a
/// package named `name`; the empty name where there is none.
pub open spec fn first_source_with(c: Catalog, sources: Seq<String>, name: Seq<char>) -> Seq<char>
    decreases sources.len(),
{
    if sources.len() == 0 {
        Seq::<char>::empty()
    } else if sources[0]@.len() > 0 && remote_package(c, name, sources[0]@) is Some {
        sources[0]@
    } else {
        first_source_with(c, sources.drop_first(), name)
    }
}

/// The first source, among those with a non-empty name, with a package in
/// group `group`; the empty name where there is none.
pub open spec fn first_source_with_group(c: Catalog, sources: Seq<String>, group: Seq<char>) -> Seq<char>
    decreases sources.len(),
{
    if sources.len() == 0 {
        Seq::<char>::empty()
    } else if sources[0]@.len() > 0 && repo_has_group(c, group, sources[0]@) {
        sources[0]@
    } else {
        first_source_with_group(c, sources.drop_first(), group)
    }
}

/// The packages named by `names`, each looked up in `repo`; `None` where one
/// of them is not there.
pub open spec fn lookup_all(c: Catalog, names: Seq<Seq<char>>, repo: Seq<char>) -> Option<Seq<Package>>
    decreases names.len(),
{
    if names.len() == 0 {
        Some(Seq::<Package>::empty())
    } else {
        match (lookup_all(c, names.drop_last(), repo), remote_package(c, names.last(), repo)) {
            (Some(ps), Some(p)) => Some(ps.push(p)),
            _ => None,
        }
    }
}

/// The direct dependencies of the package named `name`: the package is
/// looked up in the repository that the search finds, and so is every name
/// of its `depends` column; `None` where one of these lookups fails.
pub open spec fn dependencies_of(c: Catalog, name: Seq<char>) -> Option<Seq<Package>> {
    let repo = first_source_with(c, c.sources@, name);
    match remote_package(c, name, repo) {
        None => None,
        Some(p) => if p.depends@.len() == 0 {
            Some(Seq::<Package>::empty())
        } else {
            lookup_all(c, split_char(p.depends@, ','), repo)
        },
    }
}

/// The packages of the first cache named `repo`.
pub fn find_cache<'a>(caches: &'a Vec<RepoDatabase>, repo: &str) -> (r: Option<&'a Vec<Package>>)
    ensures
        match r {
            Some(v) => cache_packages(caches@, repo@) == Some(v@),
            None => cache_packages(caches@, repo@) is None,
        },
{
    let mut i: usize = 0;
    assert(caches@.skip(0) =~= caches@);
    while i < caches.len()
        invariant
            i <= caches@.len(),
            cache_packages(caches@, repo@) == cache_packages(caches@.skip(i as int), repo@),
        decreases caches.len() - i,
    {
        assert(caches@.skip(i as int)[0] == caches@[i as int]);
        assert(caches@.skip(i as int).drop_first() =~= caches@.skip(i + 1));
        if str_equal(caches[i].name.as_str(), repo) {
            return match &caches[i].packages {
                Some(v) => Some(v),
                None => None,
            };
        }
        i = i + 1;
    }
    None
}

/// The first package named `name` in `pkgs`.
pub fn find_in(pkgs: &Vec<Package>, name: &str) -> (r: Option<Package>)
    ensures
        r == find_package(pkgs@, name@),
{
    let mut i: usize = 0;
    assert(pkgs@.skip(0) =~= pkgs@);
    while i < pkgs.len()
        invariant
            i <= pkgs@.len(),
            find_package(pkgs@, name@) == find_package(pkgs@.skip(i as int), name@),
        decreases pkgs.len() - i,
    {
        assert(pkgs@.skip(i as int)[0] == pkgs@[i as int]);
        assert(pkgs@.skip(i as int).drop_first() =~= pkgs@.skip(i + 1));
        if str_equal(pkgs[i].name.as_str(), name) {
            return Some(pkgs[i].clone());
        }
        i = i + 1;
    }
    None
}

/// Returns the package named `package` from the cached database of
/// repository `repo`; fails where that repository has no packages table or
/// no such package.
pub fn get_remote_package(catalog: &Catalog, package: &str, repo: &str) -> (r: Result<Package, PackageDBError>)
    ensures
        r == match remote_package(*catalog, package@, repo@) {
            Some(p) => Ok::<Package, PackageDBError>(p),
            None => Err(PackageDBError),
        },
{
    match find_cache(&catalog.caches, repo) {
        None => Err(PackageDBError),
        Some(pkgs) => match find_in(pkgs, package) {
            Some(p) => Ok(p),
            None => Err(PackageDBError),
        },
    }
}

/// Look for a package in the sources, in configuration order, and return
/// the first repository that holds it; the empty name where none does. The
/// search itself never fails.
pub fn search_for_package(catalog: &Catalog, package: &str) -> (r: Result<String, PackageDBError>)
    ensures
        r matches Ok(s) && s@ == first_source_with(*catalog, catalog.sources@, package@),
{
    let mut i: usize = 0;
    let ghost srcs = catalog.sources@;
    assert(srcs.skip(0) =~= srcs);
    while i < catalog.sources.len()
        invariant
            srcs == catalog.sources@,
            i <= srcs.len(),
            first_source_with(*catalog, srcs, package@) == first_source_with(*catalog, srcs.skip(i as int), package@),
        decreases catalog.sources.len() - i,
    {
        assert(srcs.skip(i as int)[0] == srcs[i as int]);
        assert(srcs.skip(i as int).drop_first() =~= srcs.skip(i + 1));
        let name = &catalog.sources[i];
        if !str_is_empty(name.as_str()) {
            if get_remote_package(catalog, package, name.as_str()).is_ok() {
                return Ok(name.clone());
            }
        }
        i = i + 1;
    }
    Ok(String::new())
}

/// Whether `item` is one of the `,`-separated items of `text`.
pub fn list_has(text: &str, item: &str) -> (r: bool)
    ensures
        r == in_list(text@, item@),
{
    let parts = split_string(text, ',');
    list_contains(&parts, item)
}

/// Whether some package of `pkgs` lists `group` among its groups.
pub fn any_in_group(pkgs: &Vec<Package>, group: &str) -> (r: bool)
    ensures
        r == exists|i: int| 0 <= i < pkgs@.len() && in_list(#[trigger] pkgs@[i].groups@, group@),
{
    let mut i: usize = 0;
    while i < pkgs.len()
        invariant
            i <= pkgs@.len(),
            forall|k: int| 0 <= k < i ==> !in_list(#[trigger] pkgs@[k].groups@, group@),
        decreases pkgs.len() - i,
    {
        if list_has(pkgs[i].groups.as_str(), group) {
            return true;
        }
        i = i + 1;
    }
    false
}

/// Look for a group in the sources, in configuration order, and return the
/// first repository with a package in that group; the empty name where none
/// has one. The search itself never fails.
pub fn search_for_group(catalog: &Catalog, group: &str) -> (r: Result<String, PackageDBError>)
    ensures
        r matches Ok(s) && s@ == first_source_with_group(*catalog, catalog.sources@, group@),
{
    let mut i: usize = 0;
    let ghost srcs = catalog.sources@;
    assert(srcs.skip(0) =~= srcs);
    while i < catalog.sources.len()
        invariant
            srcs == catalog.sources@,
            i <= srcs.len(),
            first_source_with_group(*catalog, srcs, group@) == first_source_with_group(*catalog, srcs.skip(i as int), group@),
        decreases catalog.sources.len() - i,
    {
        assert(srcs.skip(i as int)[0] == srcs[i as int]);
        assert(srcs.skip(i as int).drop_first() =~= srcs.skip(i + 1));
        let name = &catalog.sources[i];
        if !str_is_empty(name.as_str()) {
            match find_cache(&catalog.caches, name.as_str()) {
                Some(pkgs) => {
                    if any_in_group(pkgs, group) {
                        proof {
                            let w = choose|w: int| 0 <= w < pkgs@.len() && in_list(#[trigger] pkgs@[w].groups@, group@);
                            assert(cache_packages(catalog.caches@, name@) == Some(pkgs@));
                            let p = cache_packages(catalog.caches@, name@).unwrap();
                            assert(in_list(p[w].groups@, group@));
                        }
                        assert(repo_has_group(*catalog, group@, name@));
                        return Ok(name.clone());
                    }
                },
                None => {},
            }
        }
        i = i + 1;
    }
    Ok(String::new())
}

/// Which column of a package a search looks in: the groups column, whose
/// items are compared whole, or the provides column, searched as text.
pub enum PackageColumn {
    Groups,
    Provides,
}

/// Whether a package's column matches `key`: `key` is one of its groups, or
/// its provides text contains `key`.
pub open spec fn column_matches(p: Package, col: PackageColumn, key: Seq<char>) -> bool {
    match col {
        PackageColumn::Groups => in_list(p.groups@, key),
        PackageColumn::Provides => contains_sub(p.provides@, key),
    }
}

/// The packages of `pkgs` whose column `col` matches `key`, in order.
pub fn select_by_column(pkgs: &Vec<Package>, col: PackageColumn, key: &str) -> (r: Vec<Package>)
    ensures
        r@ == select(pkgs@, |p: Package| column_matches(p, col, key@)),
{
    let k = chars_of(key);
    let ghost pred = |p: Package| column_matches(p, col, key@);
    let mut r: Vec<Package> = Vec::new();
    let mut i: usize = 0;
    assert(pkgs@.take(0) =~= Seq::<Package>::empty());
    while i < pkgs.len()
        invariant
            k@ == key@,
            i <= pkgs@.len(),
            pred == (|p: Package| column_matches(p, col, key@)),
            r@ == select(pkgs@.take(i as int), pred),
        decreases pkgs.len() - i,
    {
        proof {
            lemma_select_step(pkgs@, pred, i as int);
        }
        let matched = match col {
            PackageColumn::Groups => list_has(pkgs[i].groups.as_str(), key),
            PackageColumn::Provides => {
                let text = chars_of(pkgs[i].provides.as_str());
                contains_sub_exec(&text, &k)
            },
        };
        if matched {
            r.push(pkgs[i].clone());
        }
        i = i + 1;
    }
    assert(pkgs@.take(pkgs@.len() as int) =~= pkgs@);
    r
}

/// Get all packages of repository `repo` in group `group` (one of the items
/// of their groups column), in table order.
pub fn get_group(catalog: &Catalog, repo: &str, group: &str) -> (r: Vec<Package>)
    requires
        cache_packages(catalog.caches@, repo@) is Some,
    ensures
        r@ == select(
            cache_packages(catalog.caches@, repo@).unwrap(),
            |p: Package| in_list(p.groups@, group@),
        ),
{
    let pkgs = find_cache(&catalog.caches, repo).unwrap();
    let r = select_by_column(pkgs, PackageColumn::Groups, group);
    assert((|p: Package| column_matches(p, PackageColumn::Groups, group@)) =~= (|p: Package| in_list(p.groups@, group@)));
    r
}

/// Get all packages of repository `repo` whose provides column contains
/// `package`, in table order.
pub fn get_provides(catalog: &Catalog, repo: &str, package: &str) -> (r: Vec<Package>)
    requires
        cache_packages(catalog.caches@, repo@) is Some,
    ensures
        r@ == select(
            cache_packages(catalog.caches@, repo@).unwrap(),
            |p: Package| contains_sub(p.provides@, package@),
        ),
{
    let pkgs = find_cache(&catalog.caches, repo).unwrap();
    let r = select_by_column(pkgs, PackageColumn::Provides, package);
    assert((|p: Package| column_matches(p, PackageColumn::Provides, package@)) =~= (|p: Package| contains_sub(p.provides@, package@)));
    r
}

/// Get the direct dependencies of a package: the package is looked up in
/// the repository that the search finds, then every name of its depends
/// column in that same repository.
pub fn get_dependencies(catalog: &Catalog, package_name: &str) -> (r: Result<Vec<Package>, PackageDBError>)
    ensures
        match dependencies_of(*catalog, package_name@) {
            Some(ds) => r matches Ok(v) && v@ == ds,
            None => r is Err,
        },
{
    let pkg_repo = match search_for_package(catalog, package_name) {
        Ok(repo) => repo,
        Err(e) => return Err(e),
    };
    let pkg = match get_remote_package(catalog, package_name, pkg_repo.as_str()) {
        Ok(p) => p,
        Err(e) => return Err(e),
    };
    let mut dependencies: Vec<Package> = Vec::new();
    if str_is_empty(pkg.depends.as_str()) {
        return Ok(dependencies);
    }
    let names = split_string(pkg.depends.as_str(), ',');
    let ghost nv = strings_view(names@);
    let mut i: usize = 0;
    assert(nv.take(0) =~= Seq::<Seq<char>>::empty());
    while i < names.len()
        invariant
            nv == strings_view(names@),
            nv == split_char(pkg.depends@, ','),
            i <= names@.len(),
            lookup_all(*catalog, nv.take(i as int), pkg_repo@) == Some(dependencies@),
            remote_package(*catalog, package_name@, pkg_repo@) == Some(pkg),
            pkg_repo@ == first_source_with(*catalog, catalog.sources@, package_name@),
            pkg.depends@.len() > 0,
        decreases names.len() - i,
    {
        assert(nv.take(i + 1).drop_last() =~= nv.take(i as int));
        assert(nv.take(i + 1).last() == names@[i as int]@);
        match get_remote_package(catalog, names[i].as_str(), pkg_repo.as_str()) {
            Ok(d) => dependencies.push(d),
            Err(e) => {
                assert(lookup_all(*catalog, nv.take(i + 1), pkg_repo@) is None);
                proof {
                    lemma_lookup_all_prefix_none(*catalog, nv, pkg_repo@, i + 1);
                }
                assert(nv.take(nv.len() as int) =~= nv);
                assert(lookup_all(*catalog, nv, pkg_repo@) is None);
                assert(remote_package(*catalog, package_name@, pkg_repo@) == Some(pkg));
                assert(pkg_repo@ == first_source_with(*catalog, catalog.sources@, package_name@));
                assert(dependencies_of(*catalog, package_name@) is None);
                return Err(e);
            },
        }
        i = i + 1;
    }
    assert(nv.take(nv.len() as int) =~= nv);
    Ok(dependencies)
}

/// Once a lookup of a prefix of `names` fails, the lookup of any longer
/// prefix fails too.
pub proof fn lemma_lookup_all_prefix_none(c: Catalog, names: Seq<Seq<char>>, repo: Seq<char>, k: int)
    requires
        0 <= k <= names.len(),
        lookup_all(c, names.take(k), repo) is None,
    ensures
        lookup_all(c, names, repo) is None,
    decreases names.len() - k,
{
    if k < names.len() {
        assert(names.take(k + 1).drop_last() =~= names.take(k));
        lemma_lookup_all_prefix_none(c, names, repo, k + 1);
    } else {
        assert(names.take(k) =~= names);
    }
}

// ---------------------------------------------------------------------------
// The installed-packages table
// ---------------------------------------------------------------------------

/// The text stored for a package's source: the repository name, followed by
/// `,` and the repository's address where it has one.
pub open spec fn source_text(s: Source) -> Seq<char> {
    match s.url {
        None => s.name@,
        Some(u) => s.name@.push(',') + u@,
    }
}

/// The row that recording `p`, installed from `s`, writes: the lists are
/// stored joined with `,`.
pub open spec fn encoded_row(p: NewPackage, s: Source) -> RowView {
    RowView {
        name: p.name@,
        groups: p.groups@,
        source: source_text(s),
        version: p.version@,
        epoch: p.epoch,
        installed_files: join_char(strings_view(p.installed_files@), ','),
        provides: join_char(strings_view(p.provides@), ','),
        conflicts: join_char(strings_view(p.conflicts@), ','),
        dependencies: join_char(strings_view(p.dependencies@), ','),
    }
}

/// The installed package that reading a row gives: the list columns are
/// split at `,`.
pub open spec fn decoded_row(r: RowView) -> InstalledView {
    InstalledView {
        name: r.name,
        groups: split_char(r.groups, ','),
        source: r.source,
        version: r.version,
        epoch: r.epoch,
        installed_files: split_char(r.installed_files, ','),
        provides: split_char(r.provides, ','),
        conflicts: split_char(r.conflicts, ','),
        dependencies: split_char(r.dependencies, ','),
    }
}

/// The rows of the table, by their views.
pub open spec fn rows_view(rows: Seq<InstalledRow>) -> Seq<RowView> {
    rows.map_values(|r: InstalledRow| r@)
}

/// The first row named `name`.
pub open spec fn first_row(rows: Seq<RowView>, name: Seq<char>) -> Option<RowView>
    decreases rows.len(),
{
    if rows.len() == 0 {
        None
    } else if rows[0].name == name {
        Some(rows[0])
    } else {
        first_row(rows.drop_first(), name)
    }
}

/// The last row named `name`.
pub open spec fn last_row(rows: Seq<RowView>, name: Seq<char>) -> Option<RowView>
    decreases rows.len(),
{
    if rows.len() == 0 {
        None
    } else if rows.last().name == name {
        Some(rows.last())
    } else {
        last_row(rows.drop_last(), name)
    }
}

/// The rows of the table after recording `p` from `s`: a row of the same
/// name is replaced, and the new row comes last.
pub open spec fn rows_after_add(rows: Seq<RowView>, p: NewPackage, s: Source) -> Seq<RowView> {
    select(rows, |r: RowView| r.name != p.name@).push(encoded_row(p, s))
}

/// The stored text for a source.
pub fn source_to_string(source: &Source) -> (r: String)
    ensures
        r@ == source_text(*source),
{
    let mut out = source.name.clone();
    match &source.url {
        None => {},
        Some(u) => {
            push_char(&mut out, ',');
            push_str(&mut out, u.as_str());
        },
    }
    out
}

/// The row that recording `package`, installed from `source`, writes.
pub fn encode_installed_row(package: &NewPackage, source: &Source) -> (r: InstalledRow)
    ensures
        r@ == encoded_row(*package, *source),
{
    InstalledRow {
        name: package.name.clone(),
        groups: package.groups.clone(),
        source: source_to_string(source),
        version: package.version.clone(),
        epoch: package.epoch,
        installed_files: join_strings(&package.installed_files, ','),
        provides: join_strings(&package.provides, ','),
        conflicts: join_strings(&package.conflicts, ','),
        dependencies: join_strings(&package.dependencies, ','),
    }
}

/// The installed package that a row of the table reads as.
pub fn decode_installed_row(row: &InstalledRow) -> (r: InstalledPackages)
    ensures
        r@ == decoded_row(row@),
{
    InstalledPackages {
        name: row.name.clone(),
        groups: split_string(row.groups.as_str(), ','),
        source: row.source.clone(),
        version: row.version.clone(),
        epoch: row.epoch,
        installed_files: split_string(row.installed_files.as_str(), ','),
        provides: split_string(row.provides.as_str(), ','),
        conflicts: split_string(row.conflicts.as_str(), ','),
        dependencies: split_string(row.dependencies.as_str(), ','),
    }
}

/// Removes every row named `name`.
fn remove_rows_named(rows: &mut Vec<InstalledRow>, name: &str)
    ensures
        rows_view(final(rows)@) == select(rows_view(old(rows)@), |r: RowView| r.name != name@),
{
    let ghost pred = |r: RowView| r.name != name@;
    let ghost before = rows_view(rows@);
    let mut kept: Vec<InstalledRow> = Vec::new();
    let mut i: usize = 0;
    assert(before.take(0) =~= Seq::<RowView>::empty());
    assert(rows_view(kept@) =~= Seq::<RowView>::empty());
    while i < rows.len()
        invariant
            before == rows_view(rows@),
            pred == (|r: RowView| r.name != name@),
            i <= rows@.len(),
            rows_view(kept@) == select(before.take(i as int), pred),
        decreases rows.len() - i,
    {
        proof {
            lemma_select_step(before, pred, i as int);
        }
        assert(before[i as int] == rows@[i as int]@);
        if !str_equal(rows[i].name.as_str(), name) {
            let ghost kv = rows_view(kept@);
            kept.push(rows[i].clone());
            assert(rows_view(kept@) =~= kv.push(rows@[i as int]@));
        }
        i = i + 1;
    }
    assert(before.take(before.len() as int) =~= before);
    *rows = kept;
}

/// Adds a package to the installed packages: the row that it writes replaces
/// any row of the same name and comes last.
pub fn add_package_to_installed(db: &mut InstalledDatabase, package: NewPackage, source: Source)
    ensures
        rows_view(final(db).rows@) == rows_after_add(rows_view(old(db).rows@), package, source),
{
    let row = encode_installed_row(&package, &source);
    remove_rows_named(&mut db.rows, package.name.as_str());
    let ghost kept = rows_view(db.rows@);
    db.rows.push(row);
    assert(rows_view(db.rows@) =~= kept.push(row@));
}

/// Removes a package from the installed packages.
pub fn remove_package_from_installed(db: &mut InstalledDatabase, package: &str)
    ensures
        rows_view(final(db).rows@) == select(rows_view(old(db).rows@), |r: RowView| r.name != package@),
{
    remove_rows_named(&mut db.rows, package);
}

/// The record of this package manager itself, which a new installed
/// packages table starts with.
pub open spec fn self_row(version: Seq<char>) -> RowView {
    RowView {
        name: "bulge"@,
        groups: "core"@,
        source: "core"@,
        version: version,
        epoch: 0,
        installed_files: Seq::<char>::empty(),
        provides: "bulge"@,
        conflicts: Seq::<char>::empty(),
        dependencies: Seq::<char>::empty(),
    }
}

/// Creates the installed packages table's first content: records this
/// package manager, at `version`, as installed from `core`.
pub fn init_database(db: &mut InstalledDatabase, version: &str)
    ensures
        rows_view(final(db).rows@) == select(rows_view(old(db).rows@), |r: RowView| r.name != "bulge"@).push(self_row(version@)),
{
    let mut provides: Vec<String> = Vec::new();
    provides.push(string_from_str("bulge"));
    let package = NewPackage {
        name: string_from_str("bulge"),
        groups: string_from_str("core"),
        version: string_from_str(version),
        epoch: 0,
        installed_files: Vec::new(),
        provides: provides,
        conflicts: Vec::new(),
        dependencies: Vec::new(),
    };
    let source = Source { name: string_from_str("core"), url: None };
    proof {
        assert(strings_view(package.provides@) =~= seq!["bulge"@]);
        assert(strings_view(package.installed_files@) =~= Seq::<Seq<char>>::empty());
        assert(strings_view(package.conflicts@) =~= Seq::<Seq<char>>::empty());
        assert(strings_view(package.dependencies@) =~= Seq::<Seq<char>>::empty());
        assert(encoded_row(package, source) =~= self_row(version@));
    }
    add_package_to_installed(db, package, source);
}

/// Returns the installed package named `package`.
pub fn get_installed_package(db: &InstalledDatabase, package: &str) -> (r: Result<InstalledPackages, PackageDBError>)
    ensures
        match first_row(rows_view(db.rows@), package@) {
            Some(row) => r matches Ok(p) && p@ == decoded_row(row),
            None => r is Err,
        },
{
    let ghost rv = rows_view(db.rows@);
    let mut i: usize = 0;
    assert(rv.skip(0) =~= rv);
    while i < db.rows.len()
        invariant
            rv == rows_view(db.rows@),
            i <= db.rows@.len(),
            first_row(rv, package@) == first_row(rv.skip(i as int), package@),
        decreases db.rows.len() - i,
    {
        assert(rv.skip(i as int)[0] == db.rows@[i as int]@);
        assert(rv.skip(i as int).drop_first() =~= rv.skip(i + 1));
        if str_equal(db.rows[i].name.as_str(), package) {
            return Ok(decode_installed_row(&db.rows[i]));
        }
        i = i + 1;
    }
    Err(PackageDBError)
}

/// The installed packages as the rows read.
pub open spec fn decoded_rows(rows: Seq<RowView>) -> Seq<InstalledView> {
    rows.map_values(|r: RowView| decoded_row(r))
}

/// The views of a list of installed packages.
pub open spec fn installed_view(v: Seq<InstalledPackages>) -> Seq<InstalledView> {
    v.map_values(|p: InstalledPackages| p@)
}

/// Returns every installed package, in table order.
pub fn get_all_installed(db: &InstalledDatabase) -> (r: Vec<InstalledPackages>)
    ensures
        installed_view(r@) == decoded_rows(rows_view(db.rows@)),
{
    let mut r: Vec<InstalledPackages> = Vec::new();
    let ghost rv = rows_view(db.rows@);
    let mut i: usize = 0;
    while i < db.rows.len()
        invariant
            rv == rows_view(db.rows@),
            i <= db.rows@.len(),
            installed_view(r@) == decoded_rows(rv.take(i as int)),
        decreases db.rows.len() - i,
    {
        let ghost before = installed_view(r@);
        let p = decode_installed_row(&db.rows[i]);
        r.push(p);
        assert(installed_view(r@) =~= before.push(p@));
        assert(decoded_rows(rv.take(i + 1)) =~= decoded_rows(rv.take(i as int)).push(decoded_row(rv[i as int])));
        i = i + 1;
    }
    assert(rv.take(rv.len() as int) =~= rv);
    r
}

/// The files that a stored files column lists: none where it is empty, else
/// its `,`-separated items.
pub open spec fn stored_files(text: Seq<char>) -> Seq<Seq<char>> {
    if text.len() == 0 {
        Seq::<Seq<char>>::empty()
    } else {
        split_char(text, ',')
    }
}

/// Returns the files owned by a package: those of the last row of that name
/// (there is at most one), none where no package of that name is installed
/// or its row lists no file.
pub fn return_owned_files(db: &InstalledDatabase, package: &str) -> (r: Vec<String>)
    ensures
        strings_view(r@) == match last_row(rows_view(db.rows@), package@) {
            Some(row) => stored_files(row.installed_files),
            None => Seq::<Seq<char>>::empty(),
        },
{
    let ghost rv = rows_view(db.rows@);
    let mut i: usize = db.rows.len();
    assert(rv.take(rv.len() as int) =~= rv);
    while i > 0
        invariant
            rv == rows_view(db.rows@),
            i <= db.rows@.len(),
            last_row(rv, package@) == last_row(rv.take(i as int), package@),
        decreases i,
    {
        assert(rv.take(i as int).last() == db.rows@[i - 1]@);
        assert(rv.take(i as int).drop_last() =~= rv.take(i - 1));
        if str_equal(db.rows[i - 1].name.as_str(), package) {
            if str_is_empty(db.rows[i - 1].installed_files.as_str()) {
                let none: Vec<String> = Vec::new();
                assert(strings_view(none@) =~= Seq::<Seq<char>>::empty());
                return none;
            }
            return split_string(db.rows[i - 1].installed_files.as_str(), ',');
        }
        i = i - 1;
    }
    let r: Vec<String> = Vec::new();
    assert(strings_view(r@) =~= Seq::<Seq<char>>::empty());
    r
}

/// The installed packages whose conflicts column contains `package`.
pub open spec fn conflicting_rows(rows: Seq<RowView>, package: Seq<char>) -> Seq<RowView> {
    select(rows, |r: RowView| contains_sub(r.conflicts, package))
}

/// Returns the installed packages whose conflicts column contains `package`
/// (as a substring, the way the database query matches), in table order.
pub fn get_conflicts(db: &InstalledDatabase, package: &str) -> (r: Vec<InstalledPackages>)
    ensures
        installed_view(r@) == decoded_rows(conflicting_rows(rows_view(db.rows@), package@)),
{
    let k = chars_of(package);
    let ghost pred = |r: RowView| contains_sub(r.conflicts, package@);
    let ghost rv = rows_view(db.rows@);
    let mut r: Vec<InstalledPackages> = Vec::new();
    let mut i: usize = 0;
    assert(rv.take(0) =~= Seq::<RowView>::empty());
    assert(decoded_rows(Seq::<RowView>::empty()) =~= Seq::<InstalledView>::empty());
    while i < db.rows.len()
        invariant
            k@ == package@,
            rv == rows_view(db.rows@),
            pred == (|r: RowView| contains_sub(r.conflicts, package@)),
            i <= db.rows@.len(),
            installed_view(r@) == decoded_rows(select(rv.take(i as int), pred)),
        decreases db.rows.len() - i,
    {
        proof {
            lemma_select_step(rv, pred, i as int);
        }
        assert(rv[i as int] == db.rows@[i as int]@);
        let text = chars_of(db.rows[i].conflicts.as_str());
        if contains_sub_exec(&text, &k) {
            let ghost before = installed_view(r@);
            let p = decode_installed_row(&db.rows[i]);
            r.push(p);
            assert(installed_view(r@) =~= before.push(p@));
            assert(decoded_rows(select(rv.take(i as int), pred).push(rv[i as int])) =~= decoded_rows(select(rv.take(i as int), pred)).push(decoded_row(rv[i as int])));
        }
        i = i + 1;
    }
    assert(rv.take(rv.len() as int) =~= rv);
    r
}

/// Whether `name` is one of the items of `list`.
pub fn list_contains(list: &Vec<String>, name: &str) -> (r: bool)
    ensures
        r == strings_view(list@).contains(name@),
{
    let ghost lv = strings_view(list@);
    let mut i: usize = 0;
    while i < list.len()
        invariant
            lv == strings_view(list@),
            i <= list@.len(),
            forall|k: int| 0 <= k < i ==> lv[k] != name@,
        decreases list.len() - i,
    {
        if str_equal(list[i].as_str(), name) {
            assert(lv[i as int] == name@);
            return true;
        }
        i = i + 1;
    }
    false
}

/// The installed packages, other than `package` itself, whose dependency
/// list names `package`.
pub open spec fn dependent_rows(rows: Seq<RowView>, package: Seq<char>) -> Seq<RowView> {
    select(rows, |r: RowView| r.name != package && split_char(r.dependencies, ',').contains(package))
}

/// Returns the installed packages, other than `package` itself, that list
/// `package` among their dependencies, in table order.
pub fn get_depended_on(db: &InstalledDatabase, package: &str) -> (r: Vec<InstalledPackages>)
    ensures
        installed_view(r@) == decoded_rows(dependent_rows(rows_view(db.rows@), package@)),
{
    let ghost pred = |r: RowView| r.name != package@ && split_char(r.dependencies, ',').contains(package@);
    let ghost rv = rows_view(db.rows@);
    let mut r: Vec<InstalledPackages> = Vec::new();
    let mut i: usize = 0;
    assert(rv.take(0) =~= Seq::<RowView>::empty());
    assert(decoded_rows(Seq::<RowView>::empty()) =~= Seq::<InstalledView>::empty());
    while i < db.rows.len()
        invariant
            rv == rows_view(db.rows@),
            pred == (|r: RowView| r.name != package@ && split_char(r.dependencies, ',').contains(package@)),
            i <= db.rows@.len(),
            installed_view(r@) == decoded_rows(select(rv.take(i as int), pred)),
        decreases db.rows.len() - i,
    {
        proof {
            lemma_select_step(rv, pred, i as int);
        }
        assert(rv[i as int] == db.rows@[i as int]@);
        let p = decode_installed_row(&db.rows[i]);
        if !str_equal(p.name.as_str(), package) && list_contains(&p.dependencies, package) {
            let ghost before = installed_view(r@);
            r.push(p);
            assert(installed_view(r@) =~= before.push(decoded_row(rv[i as int])));
            assert(decoded_rows(select(rv.take(i as int), pred).push(rv[i as int])) =~= decoded_rows(select(rv.take(i as int), pred)).push(decoded_row(rv[i as int])));
        }
        i = i + 1;
    }
    assert(rv.take(rv.len() as int) =~= rv);
    r
}

/// The record that storing repository `repo` with hash `repo_hash` at
/// `now_millis` writes.
pub fn repo_record(repo: &str, repo_hash: &str, now_millis: u128) -> (r: RepoRecord)
    ensures
        r.name@ == repo@,
        r.repo_hash@ == repo_hash@,
        r.last_updated@ == nat_decimal(now_millis as nat),
{
    RepoRecord {
        name: string_from_str(repo),
        repo_hash: string_from_str(repo_hash),
        last_updated: u128_to_string(now_millis),
    }
}

/// Records a repository's cached database in the repositories table, with
/// the time in milliseconds since the Unix epoch: a record of the same name
/// is replaced, and the new record comes last.
pub fn update_cached_repos(table: &mut Vec<RepoRecord>, repo: &str, repo_hash: &str, now_millis: u128)
    ensures
        final(table)@.len() >= 1,
        ({
            let t = final(table)@;
            let last = t[t.len() - 1];
            &&& last.name@ == repo@
            &&& last.repo_hash@ == repo_hash@
            &&& last.last_updated@ == nat_decimal(now_millis as nat)
        }),
        final(table)@.drop_last() == select(old(table)@, |r: RepoRecord| r.name@ != repo@),
{
    let ghost pred = |r: RepoRecord| r.name@ != repo@;
    let ghost before = table@;
    let mut kept: Vec<RepoRecord> = Vec::new();
    let mut i: usize = 0;
    assert(before.take(0) =~= Seq::<RepoRecord>::empty());
    while i < table.len()
        invariant
            before == table@,
            pred == (|r: RepoRecord| r.name@ != repo@),
            i <= table@.len(),
            kept@ == select(before.take(i as int), pred),
        decreases table.len() - i,
    {
        proof {
            lemma_select_step(before, pred, i as int);
        }
        if !str_equal(table[i].name.as_str(), repo) {
            let rec = RepoRecord {
                name: table[i].name.clone(),
                repo_hash: table[i].repo_hash.clone(),
                last_updated: table[i].last_updated.clone(),
            };
            assert(rec == table@[i as int]);
            kept.push(rec);
        }
        i = i + 1;
    }
    assert(before.take(before.len() as int) =~= before);
    let rec = repo_record(repo, repo_hash, now_millis);
    kept.push(rec);
    *table = kept;
    assert(table@.drop_last() =~= select(before, pred));
}

// ---------------------------------------------------------------------------
// Laws of the installed-packages table
// ---------------------------------------------------------------------------

/// Looking up a name after one more row: the earlier rows win.
pub proof fn lemma_first_row_push(rows: Seq<RowView>, x: RowView, n: Seq<char>)
    ensures
        first_row(rows.push(x), n) == if first_row(rows, n) is Some {
            first_row(rows, n)
        } else if x.name == n {
            Some(x)
        } else {
            None
        },
    decreases rows.len(),
{
    if rows.len() == 0 {
        assert(rows.push(x).drop_first() =~= Seq::<RowView>::empty());
        assert(rows.push(x)[0] == x);
    } else {
        assert(rows.push(x).drop_first() =~= rows.drop_first().push(x));
        assert(rows.push(x)[0] == rows[0]);
        lemma_first_row_push(rows.drop_first(), x, n);
    }
}

/// Keeping only rows that satisfy `p` does not change the lookup of a name
/// whose rows all satisfy `p`.
pub proof fn lemma_first_row_select(rows: Seq<RowView>, p: spec_fn(RowView) -> bool, n: Seq<char>)
    requires
        forall|r: RowView| r.name == n ==> #[trigger] p(r),
    ensures
        first_row(select(rows, p), n) == first_row(rows, n),
    decreases rows.len(),
{
    if rows.len() > 0 {
        let dl = rows.drop_last();
        lemma_first_row_select(dl, p, n);
        assert(rows =~= dl.push(rows.last()));
        lemma_first_row_push(dl, rows.last(), n);
        if p(rows.last()) {
            lemma_first_row_push(select(dl, p), rows.last(), n);
        }
    }
}

/// After removing every row named `n`, no row is named `n`.
pub proof fn lemma_first_row_removed(rows: Seq<RowView>, n: Seq<char>)
    ensures
        first_row(select(rows, |r: RowView| r.name != n), n) is None,
    decreases rows.len(),
{
    let p = |r: RowView| r.name != n;
    if rows.len() > 0 {
        let dl = rows.drop_last();
        lemma_first_row_removed(dl, n);
        if p(rows.last()) {
            lemma_first_row_push(select(dl, p), rows.last(), n);
        }
    }
}

/// What a read gives back of a write: after recording a package, looking
/// its name up finds exactly the row that the recording wrote.
pub proof fn law_installed_read_after_write(rows: Seq<RowView>, p: NewPackage, s: Source)
    ensures
        first_row(rows_after_add(rows, p, s), p.name@) == Some(encoded_row(p, s)),
{
    let kept = select(rows, |r: RowView| r.name != p.name@);
    lemma_first_row_removed(rows, p.name@);
    lemma_first_row_push(kept, encoded_row(p, s), p.name@);
}

/// Recording a package leaves the lookup of every other name unchanged.
pub proof fn law_installed_write_keeps_others(rows: Seq<RowView>, p: NewPackage, s: Source, n: Seq<char>)
    requires
        n != p.name@,
    ensures
        first_row(rows_after_add(rows, p, s), n) == first_row(rows, n),
{
    let pred = |r: RowView| r.name != p.name@;
    let kept = select(rows, pred);
    assert forall|r: RowView| r.name == n implies #[trigger] pred(r) by {}
    lemma_first_row_select(rows, pred, n);
    lemma_first_row_push(kept, encoded_row(p, s), n);
}

/// After a package is removed, its name is no longer installed, and the
/// lookup of every other name is unchanged.
pub proof fn law_installed_remove(rows: Seq<RowView>, name: Seq<char>, n: Seq<char>)
    ensures
        first_row(select(rows, |r: RowView| r.name != name), name) is None,
        n != name ==> first_row(select(rows, |r: RowView| r.name != name), n) == first_row(rows, n),
{
    let pred = |r: RowView| r.name != name;
    lemma_first_row_removed(rows, name);
    if n != name {
        assert forall|r: RowView| r.name == n implies #[trigger] pred(r) by {}
        lemma_first_row_select(rows, pred, n);
    }
}

/// Whether no item of `v` contains `c`, and `v` has at least one item: the
/// lists that survive being stored joined with `c` and read back split at
/// `c`.
pub open spec fn storable_list(v: Seq<Seq<char>>, c: char) -> bool {
    &&& v.len() >= 1
    &&& forall|i: int| 0 <= i < v.len() ==> !(#[trigger] v[i]).contains(c)
}

/// Reading back the row that recording a package wrote gives the package's
/// name, version, epoch and source, and each of its lists where that list is
/// storable (not empty, no item holding `,`); the groups text comes back
/// split at `,`.
pub proof fn law_installed_record_round_trip(p: NewPackage, s: Source)
    ensures
        ({
            let d = decoded_row(encoded_row(p, s));
            &&& d.name == p.name@
            &&& d.version == p.version@
            &&& d.epoch == p.epoch
            &&& d.source == source_text(s)
            &&& d.groups == split_char(p.groups@, ',')
            &&& storable_list(strings_view(p.installed_files@), ',') ==> d.installed_files == strings_view(p.installed_files@)
            &&& storable_list(strings_view(p.provides@), ',') ==> d.provides == strings_view(p.provides@)
            &&& storable_list(strings_view(p.conflicts@), ',') ==> d.conflicts == strings_view(p.conflicts@)
            &&& storable_list(strings_view(p.dependencies@), ',') ==> d.dependencies == strings_view(p.dependencies@)
        }),
{
    if storable_list(strings_view(p.installed_files@), ',') {
        crate::util::text::lemma_split_join(strings_view(p.installed_files@), ',');
    }
    if storable_list(strings_view(p.provides@), ',') {
        crate::util::text::lemma_split_join(strings_view(p.provides@), ',');
    }
    if storable_list(strings_view(p.conflicts@), ',') {
        crate::util::text::lemma_split_join(strings_view(p.conflicts@), ',');
    }
    if storable_list(strings_view(p.dependencies@), ',') {
        crate::util::text::lemma_split_join(strings_view(p.dependencies@), ',');
    }
}

/// The repository name comes back as the first `,`-separated piece of the
/// stored source text, where the name holds no `,`.
pub proof fn law_source_name_round_trip(s: Source)
    requires
        !s.name@.contains(','),
    ensures
        split_char(source_text(s), ',')[0] == s.name@,
{
    match s.url {
        None => {
            crate::util::text::lemma_split_join(seq![s.name@], ',');
            assert(join_char(seq![s.name@], ',') == s.name@);
        },
        Some(u) => {
            crate::util::text::lemma_split_char_nonempty(s.name@, ',');
            let a = s.name@.push(',');
            assert(a.drop_last() =~= s.name@);
            crate::util::text::lemma_split_join(seq![s.name@], ',');
            assert(join_char(seq![s.name@], ',') == s.name@);
            assert(split_char(a, ',') == split_char(s.name@, ',').push(Seq::<char>::empty()));
            lemma_split_prefix_first(a, u@, ',');
        },
    }
}

/// Appending to a string that ends in the separator keeps the first piece.
proof fn lemma_split_prefix_first(a: Seq<char>, t: Seq<char>, sep: char)
    requires
        a.len() >= 1,
        split_char(a, sep).len() >= 2,
    ensures
        split_char(a + t, sep)[0] == split_char(a, sep)[0],
    decreases t.len(),
{
    crate::util::text::lemma_split_char_nonempty(a, sep);
    if t.len() > 0 {
        let t0 = t.drop_last();
        lemma_split_prefix_first(a, t0, sep);
        assert((a + t).drop_last() =~= a + t0);
        crate::util::text::lemma_split_char_nonempty(a + t0, sep);
        lemma_split_len_grows(a, t0, sep);
    } else {
        assert(a + t =~= a);
    }
}

/// Appending never removes pieces.
proof fn lemma_split_len_grows(a: Seq<char>, t: Seq<char>, sep: char)
    ensures
        split_char(a + t, sep).len() >= split_char(a, sep).len(),
    decreases t.len(),
{
    if t.len() > 0 {
        let t0 = t.drop_last();
        lemma_split_len_grows(a, t0, sep);
        assert((a + t).drop_last() =~= a + t0);
        crate::util::text::lemma_split_char_nonempty(a + t0, sep);
    } else {
        assert(a + t =~= a);
    }
}

} // verus!
