use bulge::commands::setup_files::static_files::{default_config as default_json_config, default_mirrorlist};
use bulge::static_files::config::default_config as default_kdl_config;
use bulge::util::conf::{
    get_config_children, get_config_node, get_config_values, get_sources as kdl_sources, load_config_nodes,
    property_of, ConfigError as KdlConfigError,
};
use bulge::util::config::fns::{get_config_entry, get_sources};
use bulge::util::config::structs::{Config, ConfigEntries, ConfigError, RepoEntries, RepoNode};
use bulge::util::mirrors::load_mirrors;

fn config() -> Config {
    Config {
        architecture: "x86_64".to_string(),
        toolchain: "knot".to_string(),
        colour: true,
        progressbar: false,
        repos: vec![
            RepoNode { name: "core".to_string(), active: true, url: None },
            RepoNode { name: "extra".to_string(), active: true, url: None },
            RepoNode { name: "external".to_string(), active: false, url: Some("https://www.example.com".to_string()) },
        ],
    }
}

#[test]
fn plain_entries() {
    let c = config();
    assert_eq!(get_config_entry(&c, ConfigEntries::Architecture, None, None).unwrap(), "x86_64");
    assert_eq!(get_config_entry(&c, ConfigEntries::Toolchain, None, None).unwrap(), "knot");
    assert_eq!(get_config_entry(&c, ConfigEntries::Colour, None, None).unwrap(), "true");
    assert_eq!(get_config_entry(&c, ConfigEntries::Progressbar, None, None).unwrap(), "false");
}

#[test]
fn repository_entries() {
    let c = config();
    let ext = Some("external".to_string());
    assert_eq!(get_config_entry(&c, ConfigEntries::Repos, ext.clone(), Some(RepoEntries::Name)).unwrap(), "external");
    assert_eq!(get_config_entry(&c, ConfigEntries::Repos, ext.clone(), Some(RepoEntries::Active)).unwrap(), "false");
    assert_eq!(get_config_entry(&c, ConfigEntries::Repos, ext, Some(RepoEntries::Url)).unwrap(), "https://www.example.com");
    assert_eq!(get_config_entry(&c, ConfigEntries::Repos, Some("core".to_string()), Some(RepoEntries::Url)).unwrap(), "");
}

#[test]
fn missing_repository_entries_are_errors() {
    let c = config();
    assert!(get_config_entry(&c, ConfigEntries::Repos, None, None).is_err());
    assert!(get_config_entry(&c, ConfigEntries::Repos, Some("core".to_string()), None).is_err());
    assert!(get_config_entry(&c, ConfigEntries::Repos, None, Some(RepoEntries::Name)).is_err());
    let e = get_config_entry(&c, ConfigEntries::Repos, Some("nope".to_string()), Some(RepoEntries::Name)).unwrap_err();
    assert_eq!(e.message(), "Requested config entry not found!");
    let _: ConfigError = e;
}

#[test]
fn sources_are_the_active_repositories() {
    let s = get_sources(&config().repos);
    assert_eq!(s.len(), 2);
    assert_eq!(s[0].name, "core");
    assert_eq!(s[1].name, "extra");
    assert!(s[0].url.is_none());
}

#[test]
fn default_files() {
    assert!(default_json_config().contains("\"architecture\": \"x86_64\""));
    assert!(default_json_config().contains("\"toolchain\": \"knot\""));
    assert_eq!(default_mirrorlist(), "# yiffOS default mirror list\n\nhttps://repo.yiffos.gay/$repo/$arch/$toolchain");
    assert!(default_kdl_config().starts_with("config {"));
}

#[test]
fn default_mirror_list_for_an_architecture() {
    assert_eq!(
        load_mirrors(default_mirrorlist(), "x86_64"),
        vec!["https://repo.yiffos.gay/$repo/x86_64/$toolchain".to_string()]
    );
}

#[test]
fn mirror_lines_are_trimmed_and_comments_skipped() {
    let raw = "# comment\n  https://a/$arch  \r\n\n#https://b\nhttps://c/$repo/$arch";
    assert_eq!(
        load_mirrors(raw, "\"aarch64\""),
        vec!["https://a/aarch64".to_string(), "https://c/$repo/aarch64".to_string()]
    );
    assert!(load_mirrors("", "x86_64").is_empty());
}

#[test]
fn kdl_default_config_sources() {
    let nodes = load_config_nodes(default_kdl_config()).unwrap();
    let sources = kdl_sources(nodes);
    let names: Vec<String> = sources.iter().map(|s| s.name.clone()).collect();
    assert_eq!(names, vec!["core".to_string(), "extra".to_string(), "community".to_string()]);
    assert!(sources.iter().all(|s| s.url.is_none()));
}

#[test]
fn kdl_values_are_written_as_kdl_writes_them() {
    let nodes = load_config_nodes(default_kdl_config()).unwrap();
    assert_eq!(get_config_values(nodes, "config"), vec!["\"x86_64\"".to_string()]);
    let nodes = load_config_nodes(default_kdl_config()).unwrap();
    // An entry of two segments gives the nodes of the first one's level.
    let level = get_config_children(nodes, "config.colour");
    let names: Vec<String> = level.iter().map(|n| n.name.clone()).collect();
    assert_eq!(names, vec!["architecture", "colour", "progressbar", "makeflags"]);
    assert_eq!(level[1].values, vec!["true".to_string()]);
}

#[test]
fn kdl_properties_and_missing_entries() {
    let nodes = load_config_nodes("repos {\n  core active=true url=\"https://x\"\n  off active=false\n}\n").unwrap();
    let repos = get_config_children(nodes, "repos");
    assert_eq!(property_of(&repos[0].properties, "active"), Some("true".to_string()));
    // A string value is written with KDL's escapes, `/` among them.
    assert_eq!(property_of(&repos[0].properties, "url"), Some("\"https:\\/\\/x\"".to_string()));
    assert_eq!(property_of(&repos[1].properties, "url"), None);

    let nodes = load_config_nodes("repos {\n  core active=true url=\"https://x\"\n  off active=false\n}\n").unwrap();
    let s = kdl_sources(nodes);
    assert_eq!(s.len(), 1);
    assert_eq!(s[0].name, "core");
    assert_eq!(s[0].url, Some("\"https:\\/\\/x\"".to_string()));

    let nodes = load_config_nodes("a 1\nb 2\n").unwrap();
    let e = get_config_node(nodes, "c").unwrap_err();
    let _: KdlConfigError = e;
    let nodes = load_config_nodes("a 1\nb 2\n").unwrap();
    assert!(get_config_node(nodes, "c.d").is_err());
    // An empty configuration has no nodes, and an entry of one segment finds that.
    assert!(get_config_node(Vec::new(), "anything").unwrap().is_empty());
}

#[test]
fn text_that_is_no_kdl() {
    assert!(load_config_nodes("a {").is_none());
    assert!(load_config_nodes("").unwrap().is_empty());
}

#[test]
fn error_messages() {
    assert_eq!(KdlConfigError.message(), "Error getting config!");
    assert_eq!(ConfigError.message(), "Requested config entry not found!");
    assert_eq!(bulge::util::database::fns::PackageDBError.message(), "Error getting package from database!");
}
