//! Settings of the package manager.

use crate::linker::Platform;
use vstd::prelude::*;

verus! {

/// The address of the public registry.
pub open spec fn public_registry() -> Seq<char> {
    "https://registry.npmjs.org"@
}

/// The registry that is asked where nothing else is configured.
pub fn default_registry() -> (registry: String)
    ensures
        registry@ == public_registry(),
{
    String::from_str("https://registry.npmjs.org")
}

/// The settings of the package manager.
pub struct CrabbyConfig {
    /// The address of the registry.
    pub registry: String,
}

impl Default for CrabbyConfig {
    fn default() -> (config: CrabbyConfig)
        ensures
            config.registry@ == public_registry(),
    {
        CrabbyConfig { registry: default_registry() }
    }
}

impl CrabbyConfig {
    /// The settings of the project, from what reading their file gave:
    /// `file` is `None` where there is no file or the file cannot be
    /// read, and the defaults then apply.
    pub fn load(file: Option<CrabbyConfig>) -> (config: CrabbyConfig)
        ensures
            match file {
                Some(read) => config == read,
                None => config.registry@ == public_registry(),
            },
    {
        match file {
            Some(read) => read,
            None => CrabbyConfig::default(),
        }
    }
}

/// A directory that the environment names, if it names one: a variable
/// that is not set or is empty names none.
pub open spec fn named(variable: Option<Seq<char>>) -> bool {
    variable is Some && variable->0.len() > 0
}

/// The directory of the archive cache.
///
/// On POSIX systems it is `crabby` below the user's cache directory,
/// which is `cache_home` where the environment names one, and `.cache`
/// below the home directory `home` otherwise. On Windows it is
/// `crabby\cache` below the local application data directory
/// `local_app_data`. Where the environment names none of the
/// directories that are needed, there is no cache directory.
pub open spec fn cache_dir_of(
    cache_home: Option<Seq<char>>,
    home: Option<Seq<char>>,
    local_app_data: Option<Seq<char>>,
    platform: Platform,
) -> Option<Seq<char>> {
    match platform {
        Platform::Posix => if named(cache_home) {
            Some(cache_home->0 + "/crabby"@)
        } else if named(home) {
            Some(home->0 + "/.cache/crabby"@)
        } else {
            None
        },
        Platform::Windows => if named(local_app_data) {
            Some(local_app_data->0 + "\\crabby\\cache"@)
        } else {
            None
        },
    }
}

/// The value of a variable as a character sequence, if it is set.
pub open spec fn value_of(variable: Option<&str>) -> Option<Seq<char>> {
    match variable {
        Some(v) => Some(v@),
        None => None,
    }
}

/// `base` followed by `rest`, if `base` names a directory.
fn below(base: Option<&str>, rest: &str) -> (dir: Option<String>)
    ensures
        named(value_of(base)) ==> dir is Some && dir->0@ == base->0@ + rest@,
        !named(value_of(base)) ==> dir is None,
{
    match base {
        Some(b) => {
            if b.is_empty() {
                None
            } else {
                let mut dir = String::from_str(b);
                dir.append(rest);
                Some(dir)
            }
        },
        None => None,
    }
}

/// The directory of the archive cache, from what the environment says:
/// `cache_home` is the value of `XDG_CACHE_HOME`, `home` that of `HOME`,
/// and `local_app_data` that of `LOCALAPPDATA`.
pub fn get_cache_dir(
    cache_home: Option<&str>,
    home: Option<&str>,
    local_app_data: Option<&str>,
    platform: Platform,
) -> (dir: Option<String>)
    ensures
        match dir {
            Some(d) => cache_dir_of(
                value_of(cache_home),
                value_of(home),
                value_of(local_app_data),
                platform,
            ) == Some(d@),
            None => cache_dir_of(
                value_of(cache_home),
                value_of(home),
                value_of(local_app_data),
                platform,
            ) is None,
        },
{
    match platform {
        Platform::Posix => match below(cache_home, "/crabby") {
            Some(dir) => Some(dir),
            None => below(home, "/.cache/crabby"),
        },
        Platform::Windows => below(local_app_data, "\\crabby\\cache"),
    }
}

} // verus!
