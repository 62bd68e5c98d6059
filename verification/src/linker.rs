//! Launchers for the executables that a package declares.
//!
//! A package names its executables either as one script path, which is then
//! launched under the package's own name, or as a table from executable
//! names to script paths. For each of them a small launcher file goes into
//! the shared binary directory of the module tree. This module says which
//! files those are and what they hold; writing them is left to the caller.

use crate::depmap::{DepMap, Pair};
use vstd::prelude::*;

verus! {

/// The executables that a package declares.
pub enum PackageBin {
    /// One script, launched under the package's name.
    Single(String),
    /// Executable names and the script of each.
    Table(DepMap),
    /// The package declares none.
    Absent,
}

impl Default for PackageBin {
    fn default() -> (bin: PackageBin)
        ensures
            bin is Absent,
    {
        PackageBin::Absent
    }
}

impl Clone for PackageBin {
    fn clone(&self) -> (copy: PackageBin)
        ensures
            forall|name: Seq<char>| #[trigger] links_of(name, &copy) == links_of(name, self),
    {
        match self {
            PackageBin::Single(path) => PackageBin::Single(path.clone()),
            PackageBin::Table(table) => PackageBin::Table(table.clone()),
            PackageBin::Absent => PackageBin::Absent,
        }
    }
}

/// The family of systems that a launcher is written for.
#[derive(Clone, Copy, PartialEq, Eq, Structural, Debug)]
pub enum Platform {
    Posix,
    Windows,
}

/// The permission bits of a launcher on POSIX systems: read and execute
/// for all, write for the owner.
pub const SHIM_MODE: u32 = 0o755;

/// The executables of the package `pkg_name`, each with its script path.
pub open spec fn links_of(pkg_name: Seq<char>, bin: &PackageBin) -> Seq<Pair> {
    match bin {
        PackageBin::Single(path) => seq![(pkg_name, path@)],
        PackageBin::Table(table) => table.pairs(),
        PackageBin::Absent => Seq::<Pair>::empty(),
    }
}

/// The name of the launcher file for the executable `exe_name`, inside the
/// binary directory.
pub open spec fn shim_name(exe_name: Seq<char>, platform: Platform) -> Seq<char> {
    match platform {
        Platform::Posix => exe_name,
        Platform::Windows => exe_name + ".cmd"@,
    }
}

/// What the launcher holds: it runs the script `script` of the package
/// `pkg_name` and hands its own arguments on. The script is named
/// relative to the launcher, so the module tree can be moved.
pub open spec fn shim_text(pkg_name: Seq<char>, script: Seq<char>, platform: Platform) -> Seq<
    char,
> {
    match platform {
        Platform::Posix => "#!/bin/sh\nexec node \"$0/../../"@ + pkg_name + "/"@ + script
            + "\" \"$@\""@,
        Platform::Windows => "@ECHO OFF\r\nnode \"%~dp0\\..\\"@ + pkg_name + "\\"@ + script
            + "\" %*"@,
    }
}

/// The permission bits to set on a launcher, where the platform has them.
pub open spec fn shim_mode(platform: Platform) -> Option<u32> {
    match platform {
        Platform::Posix => Some(SHIM_MODE),
        Platform::Windows => None,
    }
}

/// The directory of the launchers, relative to the project.
pub open spec fn bin_path(platform: Platform) -> Seq<char> {
    match platform {
        Platform::Posix => "node_modules/.bin"@,
        Platform::Windows => "node_modules\\.bin"@,
    }
}

/// The directory of the launchers, relative to the project.
pub fn bin_dir(platform: Platform) -> (dir: String)
    ensures
        dir@ == bin_path(platform),
{
    match platform {
        Platform::Posix => String::from_str("node_modules/.bin"),
        Platform::Windows => String::from_str("node_modules\\.bin"),
    }
}

/// One launcher file.
pub struct Shim {
    /// The file's name inside the binary directory.
    pub file_name: String,
    /// The file's content.
    pub content: String,
    /// The permission bits to set, if any.
    pub mode: Option<u32>,
}

impl Shim {
    /// This is the launcher for the executable `link.0` with the script
    /// `link.1` of the package `pkg_name`.
    pub open spec fn launches(&self, pkg_name: Seq<char>, link: Pair, platform: Platform) -> bool {
        &&& self.file_name@ == shim_name(link.0, platform)
        &&& self.content@ == shim_text(pkg_name, link.1, platform)
        &&& self.mode == shim_mode(platform)
    }
}

/// The launcher for the executable `exe_name` with the script `script` of
/// the package `pkg_name`.
pub fn make_shim(pkg_name: &str, exe_name: &str, script: &str, platform: Platform) -> (shim: Shim)
    ensures
        shim.launches(pkg_name@, (exe_name@, script@), platform),
{
    match platform {
        Platform::Posix => {
            let mut content = String::from_str("#!/bin/sh\nexec node \"$0/../../");
            content.append(pkg_name);
            content.append("/");
            content.append(script);
            content.append("\" \"$@\"");
            Shim { file_name: String::from_str(exe_name), content, mode: Some(SHIM_MODE) }
        },
        Platform::Windows => {
            let mut file_name = String::from_str(exe_name);
            file_name.append(".cmd");
            let mut content = String::from_str("@ECHO OFF\r\nnode \"%~dp0\\..\\");
            content.append(pkg_name);
            content.append("\\");
            content.append(script);
            content.append("\" %*");
            Shim { file_name, content, mode: None }
        },
    }
}

/// The launchers for the executables that the package `pkg_name` declares
/// in `bin`, one for each, in the order in which they are declared.
pub fn link_binaries(pkg_name: &str, bin: &PackageBin, platform: Platform) -> (shims: Vec<Shim>)
    ensures
        shims.len() == links_of(pkg_name@, bin).len(),
        forall|i: int|
            0 <= i < shims.len() ==> (#[trigger] shims[i]).launches(
                pkg_name@,
                links_of(pkg_name@, bin)[i],
                platform,
            ),
{
    let mut shims: Vec<Shim> = Vec::new();
    match bin {
        PackageBin::Single(path) => {
            shims.push(make_shim(pkg_name, pkg_name, path.as_str(), platform));
        },
        PackageBin::Table(table) => {
            let mut i: usize = 0;
            while i < table.len()
                invariant
                    i <= table.pairs().len(),
                    shims.len() == i,
                    forall|j: int|
                        0 <= j < i ==> (#[trigger] shims[j]).launches(
                            pkg_name@,
                            table.pairs()[j],
                            platform,
                        ),
                decreases table.pairs().len() - i,
            {
                shims.push(
                    make_shim(
                        pkg_name,
                        table.key_at(i).as_str(),
                        table.value_at(i).as_str(),
                        platform,
                    ),
                );
                i += 1;
            }
        },
        PackageBin::Absent => {},
    }
    shims
}

} // verus!
