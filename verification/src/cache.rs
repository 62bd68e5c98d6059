//! The archive cache: which file holds the archive of a package version.
//!
//! The cache is a directory of files, one for each package version that
//! was ever downloaded, and nothing else. This module names those files
//! and says what to do when an archive is asked for; reading and writing
//! them is the caller's work.

use crate::linker::Platform;
use crate::safety::{calculate_checksum, sha1_hex};
use crate::text::{replace_char, replaced};
use crate::ui::{decimal, decimal_digits};
use vstd::prelude::*;

verus! {

/// The name of the cache file for the version `version` of the package
/// `name`: the name with dashes for slashes, a dash, the version, `.tgz`.
pub open spec fn cache_name(name: Seq<char>, version: Seq<char>) -> Seq<char> {
    replaced(name, '/', '-') + "-"@ + version + ".tgz"@
}

/// The name of the cache file for the version `version` of the package `name`.
pub fn cache_key(name: &str, version: &str) -> (key: String)
    ensures
        key@ == cache_name(name@, version@),
{
    let mut key = replace_char(name, '/', '-');
    key.append("-");
    key.append(version);
    key.append(".tgz");
    key
}

/// The separator between the components of a path on `platform`.
pub open spec fn separator(platform: Platform) -> Seq<char> {
    match platform {
        Platform::Posix => "/"@,
        Platform::Windows => "\\"@,
    }
}

/// The cache file for the version `version` of the package `name` in the
/// cache directory `cache_dir`.
pub open spec fn cache_path(
    cache_dir: Seq<char>,
    name: Seq<char>,
    version: Seq<char>,
    platform: Platform,
) -> Seq<char> {
    cache_dir + separator(platform) + cache_name(name, version)
}

/// The cache file for the version `version` of the package `name` in the
/// cache directory `cache_dir`.
pub fn get_package_cache_path(cache_dir: &str, name: &str, version: &str, platform: Platform) -> (path:
    String)
    ensures
        path@ == cache_path(cache_dir@, name@, version@, platform),
{
    let mut path = String::from_str(cache_dir);
    match platform {
        Platform::Posix => path.append("/"),
        Platform::Windows => path.append("\\"),
    }
    path.append(cache_key(name, version).as_str());
    path
}

/// The file beside `path` that a writer with the number `writer` fills
/// before it moves it to `path`.
pub open spec fn temp_name(path: Seq<char>, writer: u64) -> Seq<char> {
    path + ".tmp."@ + decimal_digits(writer as nat)
}

/// What to do when an archive is asked for.
pub enum CachePlan {
    /// The cache has the archive: read this file, and ask the registry nothing.
    Read(String),
    /// The cache lacks the archive: download it, write it to `temp`, then
    /// move `temp` to `target`. A reader thus never sees half a file, and
    /// of two writers the later one replaces a whole file with a whole file.
    Fill { temp: String, target: String },
}

/// What to do when the archive of the version `version` of the package
/// `name` is asked for. `present` says whether the cache file exists, and
/// `writer` is a number that no other writer uses at the same time.
pub fn get_or_fill(
    cache_dir: &str,
    name: &str,
    version: &str,
    platform: Platform,
    present: bool,
    writer: u64,
) -> (plan: CachePlan)
    ensures
        plan is Read <==> present,
        plan matches CachePlan::Read(path) ==> path@ == cache_path(
            cache_dir@,
            name@,
            version@,
            platform,
        ),
        plan is Fill ==> plan->target@ == cache_path(cache_dir@, name@, version@, platform)
            && plan->temp@ == temp_name(plan->target@, writer),
{
    let target = get_package_cache_path(cache_dir, name, version, platform);
    if present {
        CachePlan::Read(target)
    } else {
        let mut temp = target.clone();
        temp.append(".tmp.");
        temp.append(decimal(writer).as_str());
        CachePlan::Fill { temp, target }
    }
}

/// The content of a cache file as a byte sequence, if the file exists.
pub open spec fn content_view(cached: Option<&[u8]>) -> Option<Seq<u8>> {
    match cached {
        Some(data) => Some(data@),
        None => None,
    }
}

/// Whether the cache serves an archive: the file exists, and where a
/// content hash is expected, the file has it.
pub open spec fn serves(cached: Option<Seq<u8>>, expected: Option<Seq<char>>) -> bool {
    cached is Some && (expected is None || sha1_hex(cached->0) == expected->0)
}

/// Whether the cache serves an archive. `cached` is the content of the
/// cache file, if the file exists.
pub fn is_cached(cached: Option<&[u8]>, expected_checksum: Option<&str>) -> (hit: bool)
    ensures
        hit == serves(content_view(cached), crate::safety::hash_view(expected_checksum)),
{
    match cached {
        None => false,
        Some(data) => match expected_checksum {
            None => true,
            Some(expected) => calculate_checksum(data) == String::from_str(expected),
        },
    }
}

} // verus!
