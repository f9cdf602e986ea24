//! The settings of the tool: where the repository lies.

use crate::text::copy_of;
use vstd::prelude::*;
use vstd::string::*;

verus! {

/// Global configuration
#[derive(Debug, PartialEq, Eq)]
pub struct Config {
    pub repo_path: String,
}

/// Where the settings are kept, below the home directory `home`.
pub fn default_config_path(home: &str) -> (r: String)
    ensures
        r@ == home@ + "/.config/dev.dagans.notes/config.json"@,
{
    copy_of(home).concat("/.config/dev.dagans.notes/config.json")
}

/// Where the repository lies unless the settings say otherwise, below the
/// home directory `home`.
pub fn default_repo_path(home: &str) -> (r: String)
    ensures
        r@ == home@ + "/.local/share/dev.dagans.notes"@,
{
    copy_of(home).concat("/.local/share/dev.dagans.notes")
}

impl Config {
    /// The settings of a user who has set nothing.
    pub fn default_for(home: &str) -> (c: Config)
        ensures
            c.repo_path@ == home@ + "/.local/share/dev.dagans.notes"@,
    {
        Config { repo_path: default_repo_path(home) }
    }
}

} // verus!
