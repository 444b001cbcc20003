//! The user's settings and the places of the two documents below the home
//! directory.

use crate::paths::{home_dir, join_path, joined_path};
use vstd::prelude::*;

verus! {

/// The user's settings.
#[derive(Debug, PartialEq, Eq)]
pub struct Config {
    /// The command that opens a project.
    pub editor: String,
    /// Whether a selection prints the path for the shell to change into.
    pub cd_on_select: bool,
    /// Whether adding a project initialises a git repository in it.
    pub git_init_on_add: bool,
    /// Whether adding a project offers to create a GitHub remote for it.
    pub gh_create_on_add: bool,
}

/// What the settings hold, as plain mathematical values.
pub struct ConfigView {
    pub editor: Seq<char>,
    pub cd_on_select: bool,
    pub git_init_on_add: bool,
    pub gh_create_on_add: bool,
}

impl View for Config {
    type V = ConfigView;

    open spec fn view(&self) -> ConfigView {
        ConfigView {
            editor: self.editor@,
            cd_on_select: self.cd_on_select,
            git_init_on_add: self.git_init_on_add,
            gh_create_on_add: self.gh_create_on_add,
        }
    }
}

/// The settings of a user who has chosen nothing yet.
pub open spec fn default_config() -> ConfigView {
    ConfigView {
        editor: "code"@,
        cd_on_select: true,
        git_init_on_add: true,
        gh_create_on_add: false,
    }
}

impl Default for Config {
    fn default() -> (c: Config)
        ensures
            c@ == default_config(),
    {
        Config {
            editor: "code".to_owned(),
            cd_on_select: true,
            git_init_on_add: true,
            gh_create_on_add: false,
        }
    }
}

impl Clone for Config {
    fn clone(&self) -> (c: Config)
        ensures
            c@ == self@,
    {
        Config {
            editor: self.editor.clone(),
            cd_on_select: self.cd_on_select,
            git_init_on_add: self.git_init_on_add,
            gh_create_on_add: self.gh_create_on_add,
        }
    }
}

/// The directory below `home` that holds the two documents.
pub open spec fn pj_dir_below(home: Seq<char>) -> Seq<char> {
    joined_path(home, ".pj"@)
}

/// The path of the settings document for a user whose home is `home`.
pub open spec fn config_path_below(home: Seq<char>) -> Seq<char> {
    joined_path(pj_dir_below(home), "config.toml"@)
}

/// The path of the project list for a user whose home is `home`.
pub open spec fn projects_path_below(home: Seq<char>) -> Seq<char> {
    joined_path(pj_dir_below(home), "projects.json"@)
}

/// Why a path of the user's documents cannot be given.
#[derive(Debug, Clone, Copy, PartialEq, Eq, Structural)]
pub enum ConfigError {
    /// The system names no home directory for the user.
    NoHomeDirectory,
}

/// A path or the reason for which there is none, as plain mathematical values.
pub open spec fn path_view(r: Result<String, ConfigError>) -> Result<Seq<char>, ConfigError> {
    match r {
        Ok(path) => Ok(path@),
        Err(e) => Err(e),
    }
}

/// The home directory that the system named, if it named one, as plain
/// mathematical values.
pub open spec fn home_view(home: Option<String>) -> Option<Seq<char>> {
    match home {
        Some(h) => Some(h@),
        None => None,
    }
}

/// The directory that holds the two documents: below the home directory
/// where the system names one, else an error.
pub open spec fn pj_dir_for(home: Option<Seq<char>>) -> Result<Seq<char>, ConfigError> {
    match home {
        Some(h) => Ok(pj_dir_below(h)),
        None => Err(ConfigError::NoHomeDirectory),
    }
}

/// The path of the settings document: below the home directory where the
/// system names one, else an error.
pub open spec fn config_path_for(home: Option<Seq<char>>) -> Result<Seq<char>, ConfigError> {
    match home {
        Some(h) => Ok(config_path_below(h)),
        None => Err(ConfigError::NoHomeDirectory),
    }
}

/// The path of the project list: below the home directory where the system
/// names one, else an error.
pub open spec fn projects_path_for(home: Option<Seq<char>>) -> Result<Seq<char>, ConfigError> {
    match home {
        Some(h) => Ok(projects_path_below(h)),
        None => Err(ConfigError::NoHomeDirectory),
    }
}

impl ConfigError {
    /// The error in words.
    pub fn message(&self) -> (m: &'static str)
        ensures
            m@ == "Could not find home directory"@,
    {
        "Could not find home directory"
    }
}

impl Config {
    /// The directory that holds the two documents, for a user whose home is `home`.
    pub fn pj_dir_in(home: &str) -> (dir: String)
        ensures
            dir@ == pj_dir_below(home@),
    {
        join_path(home, ".pj")
    }

    /// The path of the settings document, for a user whose home is `home`.
    pub fn config_path_in(home: &str) -> (path: String)
        ensures
            path@ == config_path_below(home@),
    {
        let dir = Config::pj_dir_in(home);
        join_path(dir.as_str(), "config.toml")
    }

    /// The path of the project list, for a user whose home is `home`.
    pub fn projects_path_in(home: &str) -> (path: String)
        ensures
            path@ == projects_path_below(home@),
    {
        let dir = Config::pj_dir_in(home);
        join_path(dir.as_str(), "projects.json")
    }

    /// The directory that holds the two documents, for the home directory
    /// that the system named, if it named one.
    pub fn pj_dir_from(home: Option<String>) -> (r: Result<String, ConfigError>)
        ensures
            path_view(r) == pj_dir_for(home_view(home)),
    {
        match home {
            Some(h) => Ok(Config::pj_dir_in(h.as_str())),
            None => Err(ConfigError::NoHomeDirectory),
        }
    }

    /// The path of the settings document, for the home directory that the
    /// system named, if it named one.
    pub fn config_path_from(home: Option<String>) -> (r: Result<String, ConfigError>)
        ensures
            path_view(r) == config_path_for(home_view(home)),
    {
        match home {
            Some(h) => Ok(Config::config_path_in(h.as_str())),
            None => Err(ConfigError::NoHomeDirectory),
        }
    }

    /// The path of the project list, for the home directory that the system
    /// named, if it named one.
    pub fn projects_path_from(home: Option<String>) -> (r: Result<String, ConfigError>)
        ensures
            path_view(r) == projects_path_for(home_view(home)),
    {
        match home {
            Some(h) => Ok(Config::projects_path_in(h.as_str())),
            None => Err(ConfigError::NoHomeDirectory),
        }
    }

    /// The directory that holds the two documents, below the home directory
    /// that the system names at the moment of the call; an error where it
    /// names none.
    pub fn pj_dir() -> (r: Result<String, ConfigError>)
        ensures
            exists|home: Option<Seq<char>>| path_view(r) == pj_dir_for(home),
    {
        Config::pj_dir_from(home_dir())
    }

    /// The path of the settings document below the home directory that the
    /// system names at the moment of the call; an error where it names none.
    pub fn config_path() -> (r: Result<String, ConfigError>)
        ensures
            exists|home: Option<Seq<char>>| path_view(r) == config_path_for(home),
    {
        Config::config_path_from(home_dir())
    }

    /// The path of the project list below the home directory that the system
    /// names at the moment of the call; an error where it names none.
    pub fn projects_path() -> (r: Result<String, ConfigError>)
        ensures
            exists|home: Option<Seq<char>>| path_view(r) == projects_path_for(home),
    {
        Config::projects_path_from(home_dir())
    }
}

} // verus!
