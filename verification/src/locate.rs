//! Finding the client configuration and taking in what reading it gave.

use crate::parser::{parse_ssh_config, parse_text};
use crate::registry::HostRegistry;
use std::path::PathBuf;
use vstd::prelude::*;

verus! {

#[verifier::external_type_specification]
#[verifier::external_body]
pub struct ExPathBuf(std::path::PathBuf);

/// What `PathBuf::join` returns for a base path and a path to put below
/// it.
pub uninterp spec fn joined_path(base: PathBuf, below: Seq<char>) -> PathBuf;

/// Why the configuration could not be had.
#[derive(Debug, Clone, Copy, PartialEq, Eq, Structural)]
pub enum ConfigError {
    /// The home directory is not known, or it holds no configuration.
    NotFound,
    /// The configuration is there and could not be read.
    Io,
}

/// What reading the configuration file gave.
#[derive(Debug)]
pub enum ReadOutcome {
    /// The text of the file.
    Text(String),
    /// There is no such file.
    Missing,
    /// The file could not be read, or does not hold text.
    Failed,
}

/// Where the configuration lies below the home directory.
pub open spec fn config_file() -> Seq<char> {
    ".ssh/config"@
}

/// Calls `dirs::home_dir`, which looks the home directory of the user up
/// in the environment of the process and the user database. Nothing is
/// claimed of what it finds.
#[verifier::external_body]
fn home_directory() -> (home: Option<PathBuf>) {
    dirs::home_dir()
}

/// Calls `PathBuf::join`: the result is the path that the standard
/// library makes of `below` under `base`.
#[verifier::external_body]
fn join_path(base: &PathBuf, below: &str) -> (path: PathBuf)
    ensures
        path == joined_path(*base, below@),
{
    base.join(below)
}

/// The path of the configuration for a home directory; without a home
/// directory there is none.
pub fn config_path_under(home: Option<PathBuf>) -> (r: Result<PathBuf, ConfigError>)
    ensures
        home is None ==> r == Err::<PathBuf, ConfigError>(ConfigError::NotFound),
        home matches Some(base) ==> r == Ok::<PathBuf, ConfigError>(
            joined_path(base, config_file()),
        ),
{
    match home {
        Some(base) => Ok(join_path(&base, ".ssh/config")),
        None => Err(ConfigError::NotFound),
    }
}

/// The configuration of the user who runs the process: its path below the
/// home directory, or `NotFound` where the home directory is not known.
pub fn default_config_path() -> (r: Result<PathBuf, ConfigError>)
    ensures
        r matches Err(e) ==> e == ConfigError::NotFound,
        r matches Ok(path) ==> exists|home: PathBuf|
            path == #[trigger] joined_path(home, config_file()),
{
    let home = home_directory();
    let ghost found = home;
    let r = config_path_under(home);
    proof {
        if let Some(base) = found {
            assert(r.unwrap() == joined_path(base, config_file()));
        }
    }
    r
}

/// The hosts of the configuration, from what reading the file gave: the
/// hosts of the text, or the reason why there is no text.
pub fn load_config(outcome: &ReadOutcome) -> (r: Result<HostRegistry, ConfigError>)
    ensures
        outcome matches ReadOutcome::Text(text) ==> (r matches Ok(registry) && registry.wf()
            && registry@ == parse_text(text@)),
        outcome is Missing ==> (r matches Err(e) && e == ConfigError::NotFound),
        outcome is Failed ==> (r matches Err(e) && e == ConfigError::Io),
{
    match outcome {
        ReadOutcome::Text(text) => Ok(parse_ssh_config(text.as_str())),
        ReadOutcome::Missing => Err(ConfigError::NotFound),
        ReadOutcome::Failed => Err(ConfigError::Io),
    }
}

} // verus!
