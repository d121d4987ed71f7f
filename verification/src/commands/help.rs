use vstd::prelude::*;
use crate::util::text::{push_str, string_from_str, strings_view};

verus! {

/// The lines of the help text, after the first one: the usage and, for
/// each command, its forms and what it does.
pub open spec fn help_body() -> Seq<Seq<char>> {
    seq![
        "usage: bulge <command> [...]"@,
        "commands:"@,
        "\t bulge {-h --help}"@,
        "\t\t - List all commands for bulge (this view)"@,
        "\t bulge {s sync}"@,
        "\t\t - Synchronizes package databases with remotes"@,
        "\t bulge {u upgrade}"@,
        "\t\t - Check for (and then install) package updates"@,
        "\t bulge {i install} <package(s)>"@,
        "\t\t - Install a specified package"@,
        "\t bulge {li localinstall} <path(s)>"@,
        "\t\t - Install a package from a local archive"@,
        "\t bulge {r remove} <package(s)>"@,
        "\t\t - Uninstall a specified package"@,
        "\t bulge info <package>"@,
        "\t\t - TODO"@,
        "\t bulge search <package>"@,
        "\t\t - TODO"@,
        "\t bulge list"@,
        "\t\t - List all installed packages with their version and source"@
    ]
}

/// The help text, line by line: the name and version of the program, then
/// the usage and the commands.
pub fn help(version: &str) -> (r: Vec<String>)
    ensures
        strings_view(r@) == seq!["bulge - the yiffOS package manager - v"@ + version@] + help_body(),
{
    let mut first = string_from_str("bulge - the yiffOS package manager - v");
    push_str(&mut first, version);
    let mut lines: Vec<String> = Vec::new();
    lines.push(first);
    lines.push(string_from_str("usage: bulge <command> [...]"));
    lines.push(string_from_str("commands:"));
    lines.push(string_from_str("\t bulge {-h --help}"));
    lines.push(string_from_str("\t\t - List all commands for bulge (this view)"));
    lines.push(string_from_str("\t bulge {s sync}"));
    lines.push(string_from_str("\t\t - Synchronizes package databases with remotes"));
    lines.push(string_from_str("\t bulge {u upgrade}"));
    lines.push(string_from_str("\t\t - Check for (and then install) package updates"));
    lines.push(string_from_str("\t bulge {i install} <package(s)>"));
    lines.push(string_from_str("\t\t - Install a specified package"));
    lines.push(string_from_str("\t bulge {li localinstall} <path(s)>"));
    lines.push(string_from_str("\t\t - Install a package from a local archive"));
    lines.push(string_from_str("\t bulge {r remove} <package(s)>"));
    lines.push(string_from_str("\t\t - Uninstall a specified package"));
    lines.push(string_from_str("\t bulge info <package>"));
    lines.push(string_from_str("\t\t - TODO"));
    lines.push(string_from_str("\t bulge search <package>"));
    lines.push(string_from_str("\t\t - TODO"));
    lines.push(string_from_str("\t bulge list"));
    lines.push(string_from_str("\t\t - List all installed packages with their version and source"));
    assert(strings_view(lines@) =~= seq!["bulge - the yiffOS package manager - v"@ + version@] + help_body());
    lines
}

} // verus!
