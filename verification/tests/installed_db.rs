use bulge::commands::list::{list, list_line};
use bulge::commands::remove::plan_removal;
use bulge::util::database::fns::{
    add_package_to_installed, decode_installed_row, encode_installed_row, get_all_installed,
    get_conflicts, get_depended_on, get_installed_package, init_database, remove_package_from_installed,
    repo_record, return_owned_files, source_to_string, update_cached_repos, InstalledDatabase, RepoRecord,
};
use bulge::util::database::structs::Source;
use bulge::util::database::{
    add_package_to_installed as record_compact_table, init_database as init_compact_table,
    search_for_package as search_compact_table, Package, PackageRecord,
};
use bulge::util::macros::display_removing_packages;
use bulge::util::packaging::fns::run_remove;
use bulge::util::packaging::structs::NewPackage;
use bulge::util::transactions::conflict::run_conflict_package_check;

fn strings(v: &[&str]) -> Vec<String> {
    v.iter().map(|s| s.to_string()).collect()
}

fn new_package(name: &str, version: &str, files: &[&str], conflicts: &[&str], deps: &[&str]) -> NewPackage {
    NewPackage {
        name: name.to_string(),
        groups: "core".to_string(),
        version: version.to_string(),
        epoch: 0,
        installed_files: strings(files),
        provides: strings(&[name]),
        conflicts: strings(conflicts),
        dependencies: strings(deps),
    }
}

fn repo(name: &str) -> Source {
    Source { name: name.to_string(), url: None }
}

#[test]
fn a_new_table_records_bulge_itself() {
    let mut db = InstalledDatabase { rows: Vec::new() };
    init_database(&mut db, "0.3.0");
    assert_eq!(db.rows.len(), 1);
    let me = get_installed_package(&db, "bulge").unwrap();
    assert_eq!(me.version, "0.3.0");
    assert_eq!(me.source, "core");
    assert_eq!(me.groups, strings(&["core"]));
    assert_eq!(me.provides, strings(&["bulge"]));
    assert_eq!(me.epoch, 0);
}

#[test]
fn a_recorded_package_reads_back() {
    let mut db = InstalledDatabase { rows: Vec::new() };
    add_package_to_installed(&mut db, new_package("zlib", "1.2.13", &["/usr/lib/libz.so", "/usr/include/zlib.h"], &["zlib-ng"], &["glibc"]), repo("core"));
    let p = get_installed_package(&db, "zlib").unwrap();
    assert_eq!(p.name, "zlib");
    assert_eq!(p.version, "1.2.13");
    assert_eq!(p.installed_files, strings(&["/usr/lib/libz.so", "/usr/include/zlib.h"]));
    assert_eq!(p.conflicts, strings(&["zlib-ng"]));
    assert_eq!(p.dependencies, strings(&["glibc"]));
    assert_eq!(p.source, "core");
}

#[test]
fn recording_again_replaces_the_row() {
    let mut db = InstalledDatabase { rows: Vec::new() };
    add_package_to_installed(&mut db, new_package("a", "1.0", &[], &[], &[]), repo("core"));
    add_package_to_installed(&mut db, new_package("b", "1.0", &[], &[], &[]), repo("core"));
    add_package_to_installed(&mut db, new_package("a", "2.0", &[], &[], &[]), repo("extra"));
    assert_eq!(db.rows.len(), 2);
    assert_eq!(db.rows[0].name, "b");
    assert_eq!(db.rows[1].name, "a");
    assert_eq!(get_installed_package(&db, "a").unwrap().version, "2.0");
    assert_eq!(get_installed_package(&db, "b").unwrap().version, "1.0");
}

#[test]
fn missing_package_is_an_error() {
    let db = InstalledDatabase { rows: Vec::new() };
    assert!(get_installed_package(&db, "nothing").is_err());
}

#[test]
fn removing_a_package_leaves_the_others() {
    let mut db = InstalledDatabase { rows: Vec::new() };
    add_package_to_installed(&mut db, new_package("a", "1.0", &[], &[], &[]), repo("core"));
    add_package_to_installed(&mut db, new_package("b", "1.0", &[], &[], &[]), repo("core"));
    remove_package_from_installed(&mut db, "a");
    assert!(get_installed_package(&db, "a").is_err());
    assert!(get_installed_package(&db, "b").is_ok());
    let all = get_all_installed(&db);
    assert_eq!(all.len(), 1);
    assert_eq!(all[0].name, "b");
}

#[test]
fn source_with_address_is_stored_after_a_comma() {
    let s = Source { name: "external".to_string(), url: Some("https://www.example.com".to_string()) };
    assert_eq!(source_to_string(&s), "external,https://www.example.com");
    assert_eq!(source_to_string(&repo("core")), "core");
}

#[test]
fn row_round_trip() {
    let p = new_package("x", "0.1", &["/a", "/b"], &["y", "z"], &[]);
    let row = encode_installed_row(&p, &repo("core"));
    assert_eq!(row.installed_files, "/a,/b");
    assert_eq!(row.conflicts, "y,z");
    assert_eq!(row.dependencies, "");
    let back = decode_installed_row(&row);
    assert_eq!(back.installed_files, p.installed_files);
    assert_eq!(back.conflicts, p.conflicts);
    // An empty list reads back as one empty item, as splitting "" gives.
    assert_eq!(back.dependencies, strings(&[""]));
}

#[test]
fn owned_files_and_removal() {
    let mut db = InstalledDatabase { rows: Vec::new() };
    add_package_to_installed(&mut db, new_package("a", "1.0", &["/usr/bin/a", "/usr/share/a"], &[], &[]), repo("core"));
    assert_eq!(return_owned_files(&db, "a"), strings(&["/usr/bin/a", "/usr/share/a"]));
    assert!(return_owned_files(&db, "b").is_empty());
    add_package_to_installed(&mut db, new_package("empty", "1.0", &[], &[], &[]), repo("core"));
    assert!(return_owned_files(&db, "empty").is_empty());
    assert!(run_remove(&mut db, "empty").is_empty());
    let files = run_remove(&mut db, "a");
    assert_eq!(files, strings(&["/usr/bin/a", "/usr/share/a"]));
    assert!(db.rows.is_empty());
}

#[test]
fn conflicts_match_as_substrings() {
    let mut db = InstalledDatabase { rows: Vec::new() };
    add_package_to_installed(&mut db, new_package("openssl", "3.0", &[], &["libressl"], &[]), repo("core"));
    add_package_to_installed(&mut db, new_package("other", "1.0", &[], &["lib"], &[]), repo("core"));
    let c = get_conflicts(&db, "libressl");
    assert_eq!(c.len(), 1);
    assert_eq!(c[0].name, "openssl");
    let check = run_conflict_package_check(&db, "libressl");
    assert!(check.is_conflict);
    assert_eq!(check.packages.len(), 1);
    let none = run_conflict_package_check(&db, "gnutls");
    assert!(!none.is_conflict);
    assert!(none.packages.is_empty());
}

#[test]
fn a_package_does_not_conflict_with_itself() {
    let mut db = InstalledDatabase { rows: Vec::new() };
    add_package_to_installed(&mut db, new_package("vim", "9.0", &[], &["vim"], &[]), repo("core"));
    assert_eq!(get_conflicts(&db, "vim").len(), 1);
    let check = run_conflict_package_check(&db, "vim");
    assert!(!check.is_conflict);
}

#[test]
fn dependents_are_found_by_whole_names() {
    let mut db = InstalledDatabase { rows: Vec::new() };
    add_package_to_installed(&mut db, new_package("glibc", "2.37", &[], &[], &[]), repo("core"));
    add_package_to_installed(&mut db, new_package("bash", "5.2", &[], &[], &["glibc", "readline"]), repo("core"));
    add_package_to_installed(&mut db, new_package("x", "1", &[], &[], &["glibc-extra"]), repo("core"));
    let d = get_depended_on(&db, "glibc");
    assert_eq!(d.len(), 1);
    assert_eq!(d[0].name, "bash");
    assert!(get_depended_on(&db, "bash").is_empty());
}

#[test]
fn removal_plan_blocks_on_dependents() {
    let mut db = InstalledDatabase { rows: Vec::new() };
    add_package_to_installed(&mut db, new_package("glibc", "2.37", &[], &[], &[]), repo("core"));
    add_package_to_installed(&mut db, new_package("bash", "5.2", &[], &[], &["glibc"]), repo("core"));
    let plan = plan_removal(&db, &strings(&["glibc", "nope", "glibc"]));
    assert_eq!(plan.packages.len(), 1);
    assert_eq!(plan.packages[0].name, "glibc");
    assert_eq!(plan.missing, strings(&["nope"]));
    assert_eq!(plan.dependents.len(), 1);
    assert_eq!(plan.dependents[0].len(), 1);
    assert_eq!(plan.dependents[0][0].name, "bash");
    assert!(plan.blocked);

    let free = plan_removal(&db, &strings(&["bash"]));
    assert_eq!(free.packages.len(), 1);
    assert!(free.missing.is_empty());
    assert!(!free.blocked);
}

#[test]
fn listing_lines() {
    let mut db = InstalledDatabase { rows: Vec::new() };
    let mut p = new_package("nano", "7.2", &[], &[], &[]);
    p.epoch = 1;
    let s = Source { name: "extra".to_string(), url: Some("https://mirror".to_string()) };
    add_package_to_installed(&mut db, p, s);
    let all = get_all_installed(&db);
    assert_eq!(list_line(&all[0]), "nano 7.2-1 extra");
    assert_eq!(list(&all), strings(&["nano 7.2-1 extra"]));
    assert_eq!(display_removing_packages(&all), "nano-7.2-1 ");
}

#[test]
fn cached_repositories_table() {
    let rec = repo_record("core", "abcd", 1_650_000_000_000);
    assert_eq!(rec.name, "core");
    assert_eq!(rec.repo_hash, "abcd");
    assert_eq!(rec.last_updated, "1650000000000");

    let mut table: Vec<RepoRecord> = Vec::new();
    update_cached_repos(&mut table, "core", "h1", 5);
    update_cached_repos(&mut table, "extra", "h2", 6);
    update_cached_repos(&mut table, "core", "h3", 7);
    assert_eq!(table.len(), 2);
    assert_eq!(table[0].name, "extra");
    assert_eq!(table[1].name, "core");
    assert_eq!(table[1].repo_hash, "h3");
    assert_eq!(table[1].last_updated, "7");
}

#[test]
fn compact_table_of_the_table() {
    let mut table: Vec<PackageRecord> = Vec::new();
    init_compact_table(&mut table, "0.1.0");
    assert_eq!(table.len(), 1);
    assert_eq!(table[0].name, "bulge");
    assert_eq!(table[0].groups, "core");
    assert_eq!(table[0].source, "core");
    assert_eq!(table[0].version, "0.1.0");

    let p = Package {
        name: "bulge".to_string(),
        version: "0.2.0".to_string(),
        epoch: 1,
        description: String::new(),
        groups: strings(&["core", "base"]),
        url: String::new(),
        license: Vec::new(),
        depends: Vec::new(),
        build_depends: Vec::new(),
        optional_depends: Vec::new(),
        provides: Vec::new(),
        conflicts: Vec::new(),
        replaces: Vec::new(),
        checksum: String::new(),
    };
    record_compact_table(&mut table, p, Source { name: "extra".to_string(), url: Some("https://x".to_string()) });
    assert_eq!(table.len(), 1);
    assert_eq!(table[0].version, "0.2.0");
    assert_eq!(table[0].groups, "core,base");
    assert_eq!(table[0].source, "extra,https://x");
    assert_eq!(table[0].epoch, 1);

    let empty = bulge::util::database::fns::Catalog { caches: Vec::new(), sources: Vec::new() };
    assert_eq!(search_compact_table(&empty, "anything"), "");
}
