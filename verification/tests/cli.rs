use bulge::commands::dispatch::{command_of, Command};
use bulge::commands::help::help;

#[test]
fn commands_by_short_and_long_names() {
    assert_eq!(command_of("-h"), Command::Help);
    assert_eq!(command_of("--help"), Command::Help);
    assert_eq!(command_of("s"), Command::Sync);
    assert_eq!(command_of("sync"), Command::Sync);
    assert_eq!(command_of("u"), Command::Upgrade);
    assert_eq!(command_of("upgrade"), Command::Upgrade);
    assert_eq!(command_of("i"), Command::Install);
    assert_eq!(command_of("install"), Command::Install);
    assert_eq!(command_of("li"), Command::LocalInstall);
    assert_eq!(command_of("localinstall"), Command::LocalInstall);
    assert_eq!(command_of("gi"), Command::GroupInstall);
    assert_eq!(command_of("groupinstall"), Command::GroupInstall);
    assert_eq!(command_of("r"), Command::Remove);
    assert_eq!(command_of("remove"), Command::Remove);
    assert_eq!(command_of("list"), Command::List);
}

#[test]
fn commands_ignore_case() {
    assert_eq!(command_of("SYNC"), Command::Sync);
    assert_eq!(command_of("Install"), Command::Install);
    assert_eq!(command_of("--HELP"), Command::Help);
}

#[test]
fn unknown_commands() {
    assert_eq!(command_of(""), Command::Invalid);
    assert_eq!(command_of("info"), Command::Invalid);
    assert_eq!(command_of("syncs"), Command::Invalid);
    assert_eq!(command_of("-help"), Command::Invalid);
}

#[test]
fn help_text() {
    let lines = help("0.3.0");
    assert_eq!(lines[0], "bulge - the yiffOS package manager - v0.3.0");
    assert_eq!(lines[1], "usage: bulge <command> [...]");
    assert_eq!(lines[3], "\t bulge {-h --help}");
    assert_eq!(lines.len(), 21);
    assert_eq!(lines[20], "\t\t - List all installed packages with their version and source");
}
