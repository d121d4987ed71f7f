use vstd::prelude::*;
use crate::util::text::string_from_str;

verus! {

/// Custom error type for config related errors.
#[derive(Debug)]
pub struct ConfigError;

impl ConfigError {
    /// The message shown for this error.
    pub fn message(&self) -> (r: String)
        ensures
            r@ == "Requested config entry not found!"@,
    {
        string_from_str("Requested config entry not found!")
    }
}

/// All possible config entries.
#[derive(Clone, Copy, Debug)]
pub enum ConfigEntries {
    Architecture,
    Toolchain,
    Colour,
    Progressbar,
    Repos,
}

/// All possible repo config entries.
#[derive(Clone, Copy, Debug)]
pub enum RepoEntries {
    Name,
    Active,
    Url,
}

/// Struct form of Bulge's config file.
#[derive(Debug)]
pub struct Config {
    pub architecture: String,
    pub toolchain: String,
    pub colour: bool,
    pub progressbar: bool,
    pub repos: Vec<RepoNode>,
}

/// Struct form of repo config.
#[derive(Debug)]
pub struct RepoNode {
    pub name: String,
    pub active: bool,
    pub url: Option<String>,
}

} // verus!
