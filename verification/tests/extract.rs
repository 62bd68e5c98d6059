use crabby::cache::{cache_key, get_or_fill, get_package_cache_path, is_cached, CachePlan};
use crabby::config::{default_registry, get_cache_dir, CrabbyConfig};
use crabby::extract::{install_dir, plan_entry, scope_dir, EntryPlan};
use crabby::linker::{bin_dir, link_binaries, make_shim, PackageBin, Platform, SHIM_MODE};
use crabby::depmap::DepMap;

fn written(path: &str, platform: Platform) -> Vec<String> {
    match plan_entry(path, platform) {
        EntryPlan::Write(parts) => parts,
        EntryPlan::Skip => panic!("{} was skipped", path),
        EntryPlan::Reject => panic!("{} was refused", path),
    }
}

#[test]
fn the_first_component_is_dropped() {
    assert_eq!(written("package/index.js", Platform::Posix), vec!["index.js"]);
    assert_eq!(written("package/lib/util/pad.js", Platform::Posix), vec!["lib", "util", "pad.js"]);
    assert_eq!(written("left-pad-1.3.0/package.json", Platform::Posix), vec!["package.json"]);
    assert_eq!(written("package/lib/", Platform::Posix), vec!["lib"]);
}

#[test]
fn entries_that_name_nothing_are_passed_over() {
    for path in ["package", "package/", "package/.", "./package", "", ".", "package//", "a/b/.."] {
        assert!(matches!(plan_entry(path, Platform::Posix), EntryPlan::Skip), "{:?}", path);
    }
}

#[test]
fn empty_components_and_dots_are_passed_over() {
    assert_eq!(written("package/./a//b/./c", Platform::Posix), vec!["a", "b", "c"]);
    assert_eq!(written("./package/a", Platform::Posix), vec!["a"]);
}

#[test]
fn absolute_paths_are_refused() {
    assert!(matches!(plan_entry("/etc/passwd", Platform::Posix), EntryPlan::Reject));
    assert!(matches!(plan_entry("/", Platform::Posix), EntryPlan::Reject));
    assert!(matches!(plan_entry("\\Windows\\system.ini", Platform::Windows), EntryPlan::Reject));
}

#[test]
fn paths_that_climb_out_are_refused() {
    for path in [
        "package/../../etc/passwd",
        "package/..",
        "package/a/../../b",
        "package/a/b/../../../c",
        "package/../x",
    ] {
        assert!(matches!(plan_entry(path, Platform::Posix), EntryPlan::Reject), "{:?}", path);
    }
}

#[test]
fn going_up_inside_the_package_is_followed() {
    assert_eq!(written("package/a/../b", Platform::Posix), vec!["b"]);
    assert_eq!(written("package/a/b/../../c/d", Platform::Posix), vec!["c", "d"]);
    assert_eq!(written("package/...", Platform::Posix), vec!["..."]);
    assert_eq!(written("package/..a", Platform::Posix), vec!["..a"]);
}

#[test]
fn written_components_are_plain() {
    let paths = [
        "package/index.js",
        "package/a/../b/./c//d",
        "x/y/z",
        "package/a\\b",
        "package/..\\..\\x",
        "package/C:/x",
    ];
    for platform in [Platform::Posix, Platform::Windows] {
        for path in paths {
            if let EntryPlan::Write(parts) = plan_entry(path, platform) {
                assert!(!parts.is_empty());
                for part in parts {
                    assert!(!part.is_empty());
                    assert!(part != "." && part != "..");
                    assert!(!part.contains('/'));
                    if platform == Platform::Windows {
                        assert!(!part.contains('\\') && !part.contains(':'));
                    }
                }
            }
        }
    }
}

#[test]
fn backslashes_separate_on_windows_only() {
    assert_eq!(written("package/a\\b", Platform::Posix), vec!["a\\b"]);
    assert_eq!(written("package/a\\b", Platform::Windows), vec!["a", "b"]);
    assert_eq!(written("package\\lib\\x.js", Platform::Windows), vec!["lib", "x.js"]);
    assert!(matches!(plan_entry("package/..\\..\\x", Platform::Windows), EntryPlan::Reject));
    assert_eq!(written("package/..\\..\\x", Platform::Posix), vec!["..\\..\\x"]);
}

#[test]
fn colons_are_refused_on_windows_only() {
    assert!(matches!(plan_entry("package/C:/x", Platform::Windows), EntryPlan::Reject));
    assert!(matches!(plan_entry("package/a/x:stream", Platform::Windows), EntryPlan::Reject));
    assert_eq!(written("package/C:/x", Platform::Posix), vec!["C:", "x"]);
    assert_eq!(written("C:/x", Platform::Windows), vec!["x"]);
}

#[test]
fn packages_live_below_node_modules() {
    assert_eq!(install_dir("left-pad", Platform::Posix), "node_modules/left-pad");
    assert_eq!(install_dir("@scope/pkg", Platform::Posix), "node_modules/@scope/pkg");
    assert_eq!(install_dir("left-pad", Platform::Windows), "node_modules\\left-pad");
    assert_eq!(install_dir("@scope/pkg", Platform::Windows), "node_modules\\@scope\\pkg");
}

#[test]
fn posix_launcher() {
    let shim = make_shim("typescript", "tsc", "bin/tsc", Platform::Posix);
    assert_eq!(shim.file_name, "tsc");
    assert_eq!(shim.content, "#!/bin/sh\nexec node \"$0/../../typescript/bin/tsc\" \"$@\"");
    assert_eq!(shim.mode, Some(0o755));
    assert_eq!(SHIM_MODE, 0o755);
}

#[test]
fn windows_launcher() {
    let shim = make_shim("typescript", "tsc", "bin/tsc", Platform::Windows);
    assert_eq!(shim.file_name, "tsc.cmd");
    assert_eq!(shim.content, "@ECHO OFF\r\nnode \"%~dp0\\..\\typescript\\bin/tsc\" %*");
    assert_eq!(shim.mode, None);
}

#[test]
fn a_single_script_is_launched_under_the_package_name() {
    let shims = link_binaries("rimraf", &PackageBin::Single("./bin.js".to_string()), Platform::Posix);
    assert_eq!(shims.len(), 1);
    assert_eq!(shims[0].file_name, "rimraf");
    assert_eq!(shims[0].content, "#!/bin/sh\nexec node \"$0/../../rimraf/./bin.js\" \"$@\"");
}

#[test]
fn a_table_gives_one_launcher_for_each_executable() {
    let mut table = DepMap::new();
    table.insert("tsc".to_string(), "bin/tsc".to_string());
    table.insert("tsserver".to_string(), "bin/tsserver".to_string());
    let shims = link_binaries("typescript", &PackageBin::Table(table), Platform::Posix);
    assert_eq!(shims.len(), 2);
    assert_eq!(shims[0].file_name, "tsc");
    assert_eq!(shims[1].file_name, "tsserver");
    assert_eq!(shims[1].content, "#!/bin/sh\nexec node \"$0/../../typescript/bin/tsserver\" \"$@\"");
    assert!(link_binaries("x", &PackageBin::Absent, Platform::Posix).is_empty());
    assert!(link_binaries("x", &PackageBin::default(), Platform::Windows).is_empty());
}

#[test]
fn scoped_package_has_nested_directory_and_flat_launcher() {
    assert_eq!(install_dir("@scope/pkg", Platform::Posix), "node_modules/@scope/pkg");
    let mut table = DepMap::new();
    table.insert("pkg-cli".to_string(), "cli.js".to_string());
    let shims = link_binaries("@scope/pkg", &PackageBin::Table(table), Platform::Posix);
    assert_eq!(shims[0].file_name, "pkg-cli");
    assert_eq!(shims[0].content, "#!/bin/sh\nexec node \"$0/../../@scope/pkg/cli.js\" \"$@\"");
}

#[test]
fn cache_files_are_named_by_name_and_version() {
    assert_eq!(cache_key("left-pad", "1.3.0"), "left-pad-1.3.0.tgz");
    assert_eq!(cache_key("@scope/pkg", "1.0.0"), "@scope-pkg-1.0.0.tgz");
    assert_eq!(cache_key("a/b/c", ""), "a-b-c-.tgz");
    assert_eq!(
        get_package_cache_path("/home/u/.cache/crabby", "@types/node", "20.0.0", Platform::Posix),
        "/home/u/.cache/crabby/@types-node-20.0.0.tgz"
    );
    assert_eq!(
        get_package_cache_path("C:\\Users\\u\\AppData\\Local\\crabby\\cache", "x", "1.0.0", Platform::Windows),
        "C:\\Users\\u\\AppData\\Local\\crabby\\cache\\x-1.0.0.tgz"
    );
}

#[test]
fn a_present_archive_is_read_and_an_absent_one_is_filled() {
    match get_or_fill("/c", "left-pad", "1.3.0", Platform::Posix, true, 7) {
        CachePlan::Read(path) => assert_eq!(path, "/c/left-pad-1.3.0.tgz"),
        _ => panic!("the file is there"),
    }
    match get_or_fill("/c", "left-pad", "1.3.0", Platform::Posix, false, 4711) {
        CachePlan::Fill { temp, target } => {
            assert_eq!(target, "/c/left-pad-1.3.0.tgz");
            assert_eq!(temp, "/c/left-pad-1.3.0.tgz.tmp.4711");
        }
        _ => panic!("the file is not there"),
    }
    match get_or_fill("/c", "p", "1", Platform::Posix, false, 0) {
        CachePlan::Fill { temp, .. } => assert_eq!(temp, "/c/p-1.tgz.tmp.0"),
        _ => panic!("the file is not there"),
    }
}

#[test]
fn is_cached_checks_presence_and_hash() {
    assert!(!is_cached(None, None));
    assert!(!is_cached(None, Some("a9993e364706816aba3e25717850c26c9cd0d89d")));
    assert!(is_cached(Some(b"abc"), None));
    assert!(is_cached(Some(b"abc"), Some("a9993e364706816aba3e25717850c26c9cd0d89d")));
    assert!(!is_cached(Some(b"abd"), Some("a9993e364706816aba3e25717850c26c9cd0d89d")));
    assert!(!is_cached(Some(b"abc"), Some("")));
}

#[test]
fn default_registry_is_the_public_one() {
    assert_eq!(default_registry(), "https://registry.npmjs.org");
    assert_eq!(CrabbyConfig::default().registry, "https://registry.npmjs.org");
}

#[test]
fn cache_directory_on_posix() {
    assert_eq!(
        get_cache_dir(None, Some("/home/u"), None, Platform::Posix),
        Some("/home/u/.cache/crabby".to_string())
    );
    assert_eq!(
        get_cache_dir(Some("/var/cache/u"), Some("/home/u"), None, Platform::Posix),
        Some("/var/cache/u/crabby".to_string())
    );
    assert_eq!(
        get_cache_dir(Some(""), Some("/home/u"), None, Platform::Posix),
        Some("/home/u/.cache/crabby".to_string())
    );
    assert_eq!(get_cache_dir(None, None, Some("C:\\x"), Platform::Posix), None);
    assert_eq!(get_cache_dir(Some(""), Some(""), None, Platform::Posix), None);
}

#[test]
fn cache_directory_on_windows() {
    assert_eq!(
        get_cache_dir(None, None, Some("C:\\Users\\u\\AppData\\Local"), Platform::Windows),
        Some("C:\\Users\\u\\AppData\\Local\\crabby\\cache".to_string())
    );
    assert_eq!(get_cache_dir(Some("/x"), Some("/home/u"), None, Platform::Windows), None);
    assert_eq!(get_cache_dir(None, None, Some(""), Platform::Windows), None);
}

#[test]
fn scopes_have_a_directory_of_their_own() {
    assert_eq!(scope_dir("@scope/pkg", Platform::Posix), Some("node_modules/@scope".to_string()));
    assert_eq!(scope_dir("@scope/pkg", Platform::Windows), Some("node_modules\\@scope".to_string()));
    assert_eq!(scope_dir("@a/b/c", Platform::Posix), Some("node_modules/@a".to_string()));
    assert_eq!(scope_dir("left-pad", Platform::Posix), None);
    assert_eq!(scope_dir("@scope", Platform::Posix), None);
    assert_eq!(scope_dir("a/b", Platform::Posix), None);
    assert_eq!(scope_dir("", Platform::Posix), None);
    assert_eq!(scope_dir("@/x", Platform::Posix), Some("node_modules/@".to_string()));
}

#[test]
fn launchers_live_in_the_binary_directory() {
    assert_eq!(bin_dir(Platform::Posix), "node_modules/.bin");
    assert_eq!(bin_dir(Platform::Windows), "node_modules\\.bin");
}
