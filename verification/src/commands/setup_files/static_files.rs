use vstd::prelude::*;

verus! {

/// The text of the default configuration file, in JSON.
pub open spec fn default_config_text() -> Seq<char> {
    r#"{
        "architecture": "x86_64",
        "toolchain": "knot",
        "colour": true,
        "progressbar": true,
        "repos": [
            {
                "name": "core",
                "active": true
            },
            {
                "name": "extra",
                "active": true
            },
            {
                "name": "community",
                "active": true
            },
            {
                "name": "external",
                "active": false,
                "url": "https://www.example.com"
            }
        ]
    }"#@
}

/// The default configuration file, in JSON: architecture `x86_64`, the
/// `knot` toolchain, colour and progress bar on, the repositories `core`,
/// `extra` and `community` active and `external` inactive.
pub fn default_config() -> (r: &'static str)
    ensures
        r@ == default_config_text(),
{
    r#"{
        "architecture": "x86_64",
        "toolchain": "knot",
        "colour": true,
        "progressbar": true,
        "repos": [
            {
                "name": "core",
                "active": true
            },
            {
                "name": "extra",
                "active": true
            },
            {
                "name": "community",
                "active": true
            },
            {
                "name": "external",
                "active": false,
                "url": "https://www.example.com"
            }
        ]
    }"#
}

/// The text of the default mirror list.
pub open spec fn default_mirrorlist_text() -> Seq<char> {
    r#"# yiffOS default mirror list

https://repo.yiffos.gay/$repo/$arch/$toolchain"#@
}

/// The default mirror list for yiffOS: a comment, an empty line and one
/// mirror.
pub fn default_mirrorlist() -> (r: &'static str)
    ensures
        r@ == default_mirrorlist_text(),
{
    r#"# yiffOS default mirror list

https://repo.yiffos.gay/$repo/$arch/$toolchain"#
}

} // verus!
