//! Process-wide directory configuration: the home and config directories are
//! explicit values, set at most once and injected into whatever needs a path,
//! rather than mutable process globals. A second attempt to set one fails
//! `ConfigAlreadySet` instead of silently overwriting.

use vstd::prelude::*;
use vstd::string::{StrSliceExecFns, StringExecFns};

use crate::{Error, ErrorKind};

verus! {

/// Where the data and config directories live. Platform defaults are
/// resolved by the caller at startup and set here once.
pub struct Config {
    home_dir: Option<String>,
    config_dir: Option<String>,
}

/// The repository root under a home directory: `<home>/.local/share/rspass`,
/// with `.` standing in when no home directory is known.
pub open spec fn repo_path_of(home: Option<Seq<char>>) -> Seq<char> {
    match home {
        Some(h) => h + "/.local/share/rspass"@,
        None => "."@ + "/.local/share/rspass"@,
    }
}

/// The key directory under a config directory: `<config>/rspass`.
pub open spec fn config_path_of(config: Seq<char>) -> Seq<char> {
    config + "/rspass"@
}

impl Config {
    pub closed spec fn home(&self) -> Option<Seq<char>> {
        match self.home_dir {
            Some(ref h) => Some(h@),
            None => None,
        }
    }

    pub closed spec fn config(&self) -> Option<Seq<char>> {
        match self.config_dir {
            Some(ref c) => Some(c@),
            None => None,
        }
    }

    /// A configuration with neither directory set.
    pub fn new() -> (r: Config)
        ensures
            r.home() is None,
            r.config() is None,
    {
        Config { home_dir: None, config_dir: None }
    }

    /// Sets the home directory; fails `ConfigAlreadySet` exactly when it was
    /// set before, leaving the earlier value.
    pub fn set_home_dir(&mut self, path: String) -> (r: Result<(), Error>)
        ensures
            match r {
                Ok(_) => old(self).home() is None && final(self).home() == Some(path@),
                Err(e) => e.kind == ErrorKind::ConfigAlreadySet && old(self).home() is Some
                    && final(self).home() == old(self).home(),
            },
            final(self).config() == old(self).config(),
    {
        match self.home_dir {
            Some(_) => Err(Error::new(ErrorKind::ConfigAlreadySet, "home_dir already set")),
            None => {
                self.home_dir = Some(path);
                Ok(())
            },
        }
    }

    /// Sets the config directory; fails `ConfigAlreadySet` exactly when it
    /// was set before, leaving the earlier value.
    pub fn set_config_dir(&mut self, path: String) -> (r: Result<(), Error>)
        ensures
            match r {
                Ok(_) => old(self).config() is None && final(self).config() == Some(path@),
                Err(e) => e.kind == ErrorKind::ConfigAlreadySet && old(self).config() is Some
                    && final(self).config() == old(self).config(),
            },
            final(self).home() == old(self).home(),
    {
        match self.config_dir {
            Some(_) => Err(Error::new(ErrorKind::ConfigAlreadySet, "config_dir already set")),
            None => {
                self.config_dir = Some(path);
                Ok(())
            },
        }
    }

    /// The configured home directory, if one was set.
    pub fn get_home_dir(&self) -> (r: Option<&String>)
        ensures
            match r {
                Some(h) => self.home() == Some(h@),
                None => self.home() is None,
            },
    {
        self.home_dir.as_ref()
    }

    /// The configured config directory, if one was set.
    pub fn get_config_dir(&self) -> (r: Option<&String>)
        ensures
            match r {
                Some(c) => self.config() == Some(c@),
                None => self.config() is None,
            },
    {
        self.config_dir.as_ref()
    }

    /// The credential repository root: `<home>/.local/share/rspass`, with the
    /// current directory standing in when no home directory is set.
    pub fn get_repo_path(&self) -> (r: String)
        ensures
            r@ == repo_path_of(self.home()),
    {
        let mut p = match self.home_dir.as_ref() {
            Some(h) => h.as_str().to_owned(),
            None => ".".to_owned(),
        };
        p.append("/.local/share/rspass");
        p
    }

    /// The key directory: `<config>/rspass`; nothing when no config
    /// directory is set.
    pub fn get_config_path(&self) -> (r: Option<String>)
        ensures
            match (r, self.config()) {
                (Some(p), Some(c)) => p@ == config_path_of(c),
                (None, None) => true,
                _ => false,
            },
    {
        match self.config_dir.as_ref() {
            Some(c) => {
                let mut p = c.as_str().to_owned();
                p.append("/rspass");
                Some(p)
            },
            None => None,
        }
    }
}

} // verus!
