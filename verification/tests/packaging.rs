use bulge::commands::localinstall::{display_local_packages, local_check, local_transaction, LocalCheck};
use bulge::util::lock::lock_path;
use bulge::util::packaging::fns::{check_if_package, is_pkg_path};
use bulge::util::packaging::structs::Package;
use bulge::util::transactions::conflict::{conflicts_from_checks, run_conflict_check};
use bulge::util::database::fns::{add_package_to_installed, InstalledDatabase};
use bulge::util::transactions::install::{
    new_package_record, package_files, prepare_install, unpack_dir, InstallKind, InstallTransaction,
};
use bulge::util::database::structs::Source;

fn strings(v: &[&str]) -> Vec<String> {
    v.iter().map(|s| s.to_string()).collect()
}

fn pkg(name: &str, version: &str, epoch: i32) -> Package {
    Package {
        name: name.to_string(),
        version: version.to_string(),
        epoch,
        description: String::new(),
        groups: "core".to_string(),
        url: String::new(),
        license: String::new(),
        depends: "glibc,readline".to_string(),
        optional_depends: String::new(),
        provides: "sh".to_string(),
        conflicts: String::new(),
        replaces: String::new(),
        sha512sum: String::new(),
    }
}

#[test]
fn pkg_file_paths() {
    assert!(is_pkg_path("PKG"));
    assert!(is_pkg_path("PKG/"));
    assert!(is_pkg_path("PKG/./"));
    assert!(!is_pkg_path("./PKG"));
    assert!(!is_pkg_path("PKGBUILD"));
    assert!(!is_pkg_path("data/PKG"));
    assert!(!is_pkg_path("PK"));
    assert!(!is_pkg_path(""));
}

#[test]
fn archives_with_a_pkg_file_are_packages() {
    assert!(check_if_package(&strings(&["data.tar.xz", "PKG"])));
    assert!(!check_if_package(&strings(&["data.tar.xz", "README"])));
    assert!(!check_if_package(&Vec::new()));
}

#[test]
fn installed_files_skip_directories() {
    let entries = strings(&["usr/", "usr/bin/", "usr/bin/bash", "etc/bash.bashrc"]);
    assert_eq!(package_files(&entries), strings(&["/usr/bin/bash", "/etc/bash.bashrc"]));
}

#[test]
fn record_of_an_install() {
    let t = InstallTransaction { package: pkg("bash", "5.2", 0), source: Source { name: "core".to_string(), url: None } };
    let r = new_package_record(&t, strings(&["/usr/bin/bash"]));
    assert_eq!(r.name, "bash");
    assert_eq!(r.groups, "core");
    assert_eq!(r.installed_files, strings(&["/usr/bin/bash"]));
    assert_eq!(r.provides, strings(&["sh"]));
    assert_eq!(r.dependencies, strings(&["glibc", "readline"]));
    assert_eq!(r.conflicts, strings(&[""]));
    assert_eq!(unpack_dir("/mnt", "bash"), "/mnt/tmp/bulge/bash");
}

#[test]
fn file_conflicts_from_answers() {
    let files = strings(&["/usr/bin/a", "/usr/bin/b", "/usr/bin/c"]);
    let c = conflicts_from_checks(&files, &vec![true, false, true], false, "/mnt");
    assert!(c.is_conflict);
    assert_eq!(c.files, strings(&["/mnt/usr/bin/a", "/mnt/usr/bin/c"]));
    let installed = conflicts_from_checks(&files, &vec![true, true, true], true, "/mnt");
    assert!(!installed.is_conflict);
    assert!(installed.files.is_empty());
}

#[test]
fn file_conflicts_on_disk() {
    let files = strings(&["/", "/definitely/not/a/path/on/this/machine"]);
    let c = run_conflict_check(&files, false, String::new());
    assert!(c.is_conflict);
    assert_eq!(c.files, strings(&["/"]));
    let reinstall = run_conflict_check(&files, true, String::new());
    assert!(!reinstall.is_conflict);
}

#[test]
fn local_install_checks() {
    assert!(matches!(local_check(true, true), LocalCheck::Install { warn: false }));
    assert!(matches!(local_check(true, false), LocalCheck::Install { warn: true }));
    assert!(matches!(local_check(false, true), LocalCheck::Skip));
    assert!(matches!(local_check(false, false), LocalCheck::Skip));
}

#[test]
fn local_install_queue() {
    let t = local_transaction(pkg("bash", "5.2", 2));
    assert_eq!(t.source.name, "local");
    assert!(t.source.url.is_none());
    assert_eq!(t.package.name, "bash");
    let q = vec![t, local_transaction(pkg("zsh", "5.9", 0))];
    assert_eq!(display_local_packages(&q), "bash-5.2-2 zsh-5.9-0 ");
    assert_eq!(display_local_packages(&Vec::new()), "");
}

#[test]
fn lock_file_location() {
    assert_eq!(lock_path(), "/tmp/bulge.funny");
}

#[test]
fn preparing_installs() {
    let mut db = InstalledDatabase { rows: Vec::new() };
    let t = InstallTransaction { package: pkg("bash", "5.2", 0), source: Source { name: "core".to_string(), url: None } };

    let fresh = prepare_install(&db, &t, &pkg("bash", "5.2", 0), &strings(&["bin", "usr/", "definitely-not-here/file"]), String::new());
    assert!(matches!(fresh.kind, InstallKind::Fresh));
    assert!(fresh.installed_version.is_none());
    assert_eq!(fresh.files, strings(&["/bin", "/definitely-not-here/file"]));
    assert!(fresh.conflicts.is_conflict);
    assert_eq!(fresh.conflicts.files, strings(&["/bin"]));
    assert_eq!(fresh.record.installed_files, fresh.files);
    assert_eq!(fresh.record.dependencies, strings(&["glibc", "readline"]));

    add_package_to_installed(&mut db, fresh.record, t.source.clone());
    let down = prepare_install(&db, &t, &pkg("bash", "5.1", 0), &strings(&["bin"]), String::new());
    assert!(matches!(down.kind, InstallKind::Downgrade));
    assert_eq!(down.installed_version, Some("5.2".to_string()));
    // Files of an installed package are replaced, not reported as conflicts.
    assert!(!down.conflicts.is_conflict);
    let again = prepare_install(&db, &t, &pkg("bash", "5.2", 0), &Vec::new(), String::new());
    assert!(matches!(again.kind, InstallKind::Reinstall));
    let up = prepare_install(&db, &t, &pkg("bash", "5.10", 0), &Vec::new(), String::new());
    assert!(matches!(up.kind, InstallKind::Upgrade));
}
