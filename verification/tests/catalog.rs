use bulge::commands::groupinstall::group_install_queue;
use bulge::commands::install::{archive_path, install_queue, package_url, package_urls, plan_install, InstallError};
use bulge::commands::upgrade::{find_updates, source_name};
use bulge::util::database::fns::{
    add_package_to_installed, get_all_installed, get_dependencies, get_group, get_provides,
    get_remote_package, search_for_group, search_for_package, Catalog, InstalledDatabase, RepoDatabase,
};
use bulge::util::database::structs::Source;
use bulge::util::macros::display_installing_packages;
use bulge::util::packaging::structs::{NewPackage, Package};
use bulge::util::transactions::dependencies::{run_depend_check, run_depend_resolve};
use bulge::util::transactions::install::{install_kind, InstallKind};

fn strings(v: &[&str]) -> Vec<String> {
    v.iter().map(|s| s.to_string()).collect()
}

fn pkg(name: &str, version: &str, epoch: i32, groups: &str, depends: &str, provides: &str) -> Package {
    Package {
        name: name.to_string(),
        version: version.to_string(),
        epoch,
        description: String::new(),
        groups: groups.to_string(),
        url: String::new(),
        license: "MIT".to_string(),
        depends: depends.to_string(),
        optional_depends: String::new(),
        provides: provides.to_string(),
        conflicts: String::new(),
        replaces: String::new(),
        sha512sum: String::new(),
    }
}

fn catalog() -> Catalog {
    Catalog {
        caches: vec![
            RepoDatabase {
                name: "core".to_string(),
                packages: Some(vec![
                    pkg("a", "1.0", 0, "base", "b,c", "a"),
                    pkg("b", "1.0", 0, "base", "d", "b"),
                    pkg("c", "1.0", 0, "", "", "c"),
                    pkg("d", "1.0", 0, "", "", "d"),
                    pkg("x", "1.0", 0, "", "y", "x"),
                    pkg("y", "1.0", 0, "", "x", "y"),
                    pkg("z", "1.0", 0, "", "ghost", "z"),
                ]),
            },
            RepoDatabase {
                name: "extra".to_string(),
                packages: Some(vec![
                    pkg("a", "9.0", 0, "", "", "a"),
                    pkg("editor", "1.10", 0, "desktop", "", "editor"),
                    pkg("old", "2.0", 3, "desktop", "", "old"),
                ]),
            },
            RepoDatabase { name: "empty".to_string(), packages: None },
        ],
        sources: strings(&["empty", "core", "extra"]),
    }
}

fn installed(names: &[(&str, &str)]) -> InstalledDatabase {
    let mut db = InstalledDatabase { rows: Vec::new() };
    for (n, v) in names {
        add_package_to_installed(
            &mut db,
            NewPackage {
                name: n.to_string(),
                groups: String::new(),
                version: v.to_string(),
                epoch: 0,
                installed_files: Vec::new(),
                provides: strings(&[n]),
                conflicts: Vec::new(),
                dependencies: Vec::new(),
            },
            Source { name: "core".to_string(), url: None },
        );
    }
    db
}

#[test]
fn search_goes_through_sources_in_order() {
    let c = catalog();
    assert_eq!(search_for_package(&c, "a").unwrap(), "core");
    assert_eq!(search_for_package(&c, "editor").unwrap(), "extra");
    assert_eq!(search_for_package(&c, "nothing").unwrap(), "");
    assert_eq!(search_for_group(&c, "desktop").unwrap(), "extra");
    assert_eq!(search_for_group(&c, "base").unwrap(), "core");
    assert_eq!(search_for_group(&c, "none").unwrap(), "");
}

#[test]
fn remote_lookups() {
    let c = catalog();
    assert_eq!(get_remote_package(&c, "a", "extra").unwrap().version, "9.0");
    assert!(get_remote_package(&c, "a", "empty").is_err());
    assert!(get_remote_package(&c, "editor", "core").is_err());
    let group: Vec<String> = get_group(&c, "core", "base").into_iter().map(|p| p.name).collect();
    assert_eq!(group, strings(&["a", "b"]));
    let prov: Vec<String> = get_provides(&c, "core", "d").into_iter().map(|p| p.name).collect();
    assert_eq!(prov, strings(&["d"]));
}

#[test]
fn direct_dependencies() {
    let c = catalog();
    let deps: Vec<String> = get_dependencies(&c, "a").unwrap().into_iter().map(|p| p.name).collect();
    assert_eq!(deps, strings(&["b", "c"]));
    assert!(get_dependencies(&c, "c").unwrap().is_empty());
    assert!(get_dependencies(&c, "z").is_err());
    assert!(get_dependencies(&c, "nothing").is_err());
}

#[test]
fn resolution_collects_all_dependencies() {
    let c = catalog();
    let mut deps: Vec<String> = Vec::new();
    let a = get_remote_package(&c, "a", "core").unwrap();
    assert!(run_depend_resolve(&c, &a, &mut deps).is_ok());
    assert_eq!(deps, strings(&["b", "d", "c"]));
}

#[test]
fn resolution_stops_at_cycles() {
    let c = catalog();
    let mut deps: Vec<String> = Vec::new();
    let x = get_remote_package(&c, "x", "core").unwrap();
    assert!(run_depend_resolve(&c, &x, &mut deps).is_ok());
    assert_eq!(deps, strings(&["y", "x"]));
}

#[test]
fn resolution_reports_unknown_dependencies() {
    let c = catalog();
    let mut deps: Vec<String> = Vec::new();
    let z = get_remote_package(&c, "z", "core").unwrap();
    let e = run_depend_resolve(&c, &z, &mut deps).unwrap_err();
    assert_eq!(e.dependency, "ghost");
    assert_eq!(e.package, "z");
    assert_eq!(deps, strings(&["ghost"]));
}

#[test]
fn dependency_check_reports_installed_providers() {
    let c = catalog();
    let db = installed(&[("d", "1.0")]);
    let checks = run_depend_check(&c, &db, &strings(&["b", "d"]));
    assert_eq!(checks, vec![("b".to_string(), false), ("d".to_string(), true)]);
}

#[test]
fn dependency_check_gives_every_dependency_a_verdict() {
    let mut c = catalog();
    // A package that nothing provides, and names that no repository holds.
    if let Some(ps) = c.caches[0].packages.as_mut() {
        ps.push(pkg("lonely", "1.0", 0, "", "", ""));
    }
    let db = installed(&[("ghost", "0.1"), ("lonely", "1.0")]);
    let checks = run_depend_check(&c, &db, &strings(&["ghost", "phantom", "lonely", "b"]));
    assert_eq!(
        checks,
        vec![
            ("ghost".to_string(), true),
            ("phantom".to_string(), false),
            ("lonely".to_string(), true),
            ("b".to_string(), false),
        ]
    );
    let none = installed(&[]);
    let checks = run_depend_check(&c, &none, &strings(&["lonely"]));
    assert_eq!(checks, vec![("lonely".to_string(), false)]);
}

#[test]
fn groups_match_whole_items() {
    let c = Catalog {
        caches: vec![RepoDatabase {
            name: "core".to_string(),
            packages: Some(vec![
                pkg("p1", "1.0", 0, "hardcore", "", "p1"),
                pkg("p2", "1.0", 0, "base,core", "", "p2"),
                pkg("p3", "1.0", 0, "core", "", "p3"),
            ]),
        }],
        sources: strings(&["core"]),
    };
    let group: Vec<String> = get_group(&c, "core", "core").into_iter().map(|p| p.name).collect();
    assert_eq!(group, strings(&["p2", "p3"]));
    assert_eq!(search_for_group(&c, "hard").unwrap(), "");
    assert_eq!(search_for_group(&c, "hardcore").unwrap(), "core");
    assert_eq!(group_install_queue(&c, &strings(&["core"])).ok().unwrap(), strings(&["p2", "p3"]));
    assert!(group_install_queue(&c, &strings(&["har"])).is_err());
}

#[test]
fn download_addresses_follow_the_mirrors() {
    let p = pkg("nano", "7.2", 1, "", "", "");
    let mirrors = strings(&["https://m1/$repo", "https://m2/$repo/x86_64"]);
    assert_eq!(
        package_urls(&mirrors, "extra", &p),
        strings(&["https://m1/extra/nano-7.2-1.tar.xz", "https://m2/extra/x86_64/nano-7.2-1.tar.xz"])
    );
    assert!(package_urls(&Vec::new(), "extra", &p).is_empty());
}

#[test]
fn compact_search_finds_the_first_source() {
    let c = catalog();
    assert_eq!(bulge::util::database::search_for_package(&c, "a"), "core");
    assert_eq!(bulge::util::database::search_for_package(&c, "editor"), "extra");
    assert_eq!(bulge::util::database::search_for_package(&c, "nothing"), "");
}

#[test]
fn install_plan_adds_unmet_dependencies() {
    let c = catalog();
    let none = installed(&[]);
    let plan = plan_install(&c, &none, &strings(&["a"])).ok().unwrap();
    let expected: Vec<(String, String)> = vec![
        ("a".to_string(), "core".to_string()),
        ("b".to_string(), "core".to_string()),
        ("d".to_string(), "core".to_string()),
        ("c".to_string(), "core".to_string()),
    ];
    assert_eq!(plan, expected);

    let some = installed(&[("b", "1.0"), ("c", "1.0")]);
    let plan2 = plan_install(&c, &some, &strings(&["a", "a"])).ok().unwrap();
    let expected2: Vec<(String, String)> = vec![
        ("a".to_string(), "core".to_string()),
        ("d".to_string(), "core".to_string()),
    ];
    assert_eq!(plan2, expected2);

    let queue = install_queue(&c, &plan2).ok().unwrap();
    assert_eq!(queue.len(), 2);
    assert_eq!(queue[0].0.name, "a");
    assert_eq!(queue[0].1, "core");
    assert_eq!(display_installing_packages(&queue), "a-1.0-0 d-1.0-0 ");
}

#[test]
fn install_plan_errors() {
    let c = catalog();
    let none = installed(&[]);
    match plan_install(&c, &none, &strings(&["nothing"])) {
        Err(InstallError::PackageMissing(n)) => assert_eq!(n, "nothing"),
        _ => panic!("expected a missing package"),
    }
    match plan_install(&c, &none, &strings(&["z"])) {
        Err(InstallError::Unresolved(e)) => {
            assert_eq!(e.dependency, "ghost");
            assert_eq!(e.package, "z");
        }
        _ => panic!("expected an unresolved dependency"),
    }
    let bad_plan: Vec<(String, String)> = vec![("a".to_string(), "nowhere".to_string())];
    match install_queue(&c, &bad_plan) {
        Err(InstallError::PackageMissing(n)) => assert_eq!(n, "a"),
        _ => panic!("expected a missing package"),
    }
}

#[test]
fn group_install_queue_lists_members_once() {
    let c = catalog();
    let q = group_install_queue(&c, &strings(&["base", "desktop", "base"])).ok().unwrap();
    assert_eq!(q, strings(&["a", "b", "editor", "old"]));
    assert!(group_install_queue(&c, &strings(&["none"])).is_err());
}

#[test]
fn install_kinds_follow_version_order() {
    assert!(matches!(install_kind("1.0", None), InstallKind::Fresh));
    assert!(matches!(install_kind("1.0", Some("2.0".to_string())), InstallKind::Downgrade));
    assert!(matches!(install_kind("2.0", Some("2.0".to_string())), InstallKind::Reinstall));
    assert!(matches!(install_kind("2.1", Some("2.0".to_string())), InstallKind::Upgrade));
    // Versions compare by their numeric parts, not as text.
    assert!(matches!(install_kind("1.10", Some("1.9".to_string())), InstallKind::Upgrade));
    assert!(matches!(install_kind("1.9", Some("1.10".to_string())), InstallKind::Downgrade));
}

#[test]
fn updates_are_newer_versions_or_epochs() {
    let c = catalog();
    let mut db = InstalledDatabase { rows: Vec::new() };
    let entries = [
        ("editor", "1.9", 0, "extra"),
        ("old", "9.0", 1, "extra"),
        ("a", "1.0", 0, "core"),
        ("c", "0.5", 0, "local"),
        ("gone", "1.0", 0, "core"),
    ];
    for (n, v, e, s) in entries {
        add_package_to_installed(
            &mut db,
            NewPackage {
                name: n.to_string(),
                groups: String::new(),
                version: v.to_string(),
                epoch: e,
                installed_files: Vec::new(),
                provides: Vec::new(),
                conflicts: Vec::new(),
                dependencies: Vec::new(),
            },
            Source { name: s.to_string(), url: if s == "extra" { Some("https://e".to_string()) } else { None } },
        );
    }
    let all = get_all_installed(&db);
    assert_eq!(find_updates(&c, &all), strings(&["editor", "old"]));
}

#[test]
fn source_names_and_addresses() {
    assert_eq!(source_name("extra,https://e"), "extra");
    assert_eq!(source_name("core"), "core");
    let p = pkg("nano", "7.2", 1, "", "", "");
    assert_eq!(
        package_url("https://repo.yiffos.gay/$repo/x86_64", "core", &p),
        "https://repo.yiffos.gay/core/x86_64/nano-7.2-1.tar.xz"
    );
    assert_eq!(archive_path("/mnt", &p), "/mnt/tmp/nano-7.2-1.tar.xz");
}
