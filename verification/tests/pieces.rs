use crabby::depmap::{find_key, DepMap};
use crabby::extract::{separates, split_path};
use crabby::install::InstalledPackageJson;
use crabby::linker::{PackageBin, Platform};
use crabby::manifest::{find_package, LockDependency};
use crabby::task::{PackageTask, TaskEnd};
use crabby::text::{contains_text, copy_texts, index_of_text};
use crabby::ui::digits_of;

#[test]
fn keys_are_found_by_their_text() {
    let entries = vec![
        ("a".to_string(), "1".to_string()),
        ("b".to_string(), "2".to_string()),
        ("a".to_string(), "3".to_string()),
    ];
    assert_eq!(find_key(&entries, &"a".to_string()), Some(0));
    assert_eq!(find_key(&entries, &"b".to_string()), Some(1));
    assert_eq!(find_key(&entries, &"c".to_string()), None);
    assert_eq!(find_key(&Vec::new(), &"a".to_string()), None);
}

#[test]
fn packages_are_found_by_their_name() {
    let record = LockDependency {
        version: "1.0.0".to_string(),
        tarball: "t".to_string(),
        shasum: "h".to_string(),
        dependencies: DepMap::new(),
    };
    let copy = record.clone();
    assert_eq!(copy.version, "1.0.0");
    assert_eq!(copy.tarball, "t");
    assert_eq!(copy.shasum, "h");
    let entries = vec![("x".to_string(), record), ("y".to_string(), copy)];
    assert_eq!(find_package(&entries, &"y".to_string()), Some(1));
    assert_eq!(find_package(&entries, &"z".to_string()), None);
}

#[test]
fn texts_in_lists() {
    let list = vec!["a".to_string(), "b".to_string(), "a".to_string()];
    assert_eq!(index_of_text(&list, "a"), Some(0));
    assert_eq!(index_of_text(&list, "b"), Some(1));
    assert_eq!(index_of_text(&list, "c"), None);
    assert!(contains_text(&list, "b"));
    assert!(!contains_text(&list, ""));
    assert_eq!(copy_texts(&list), list);
    assert!(copy_texts(&Vec::new()).is_empty());
}

#[test]
fn paths_are_split_at_separators() {
    let chars: Vec<char> = "a//b\\c/".chars().collect();
    let posix: Vec<String> =
        split_path(&chars, Platform::Posix).iter().map(|p| p.iter().collect()).collect();
    assert_eq!(posix, vec!["a", "", "b\\c", ""]);
    let windows: Vec<String> =
        split_path(&chars, Platform::Windows).iter().map(|p| p.iter().collect()).collect();
    assert_eq!(windows, vec!["a", "", "b", "c", ""]);
    assert_eq!(split_path(&Vec::new(), Platform::Posix), vec![Vec::<char>::new()]);
    assert!(separates('/', Platform::Posix));
    assert!(separates('/', Platform::Windows));
    assert!(!separates('\\', Platform::Posix));
    assert!(separates('\\', Platform::Windows));
    assert!(!separates(':', Platform::Windows));
}

#[test]
fn digits_of_numbers() {
    assert_eq!(digits_of(0), vec!['0']);
    assert_eq!(digits_of(907), vec!['9', '0', '7']);
    assert_eq!(digits_of(u64::MAX).len(), 20);
}

#[test]
fn the_empty_manifest_of_a_package() {
    let manifest = InstalledPackageJson::empty();
    assert!(manifest.dependencies.is_empty());
    assert!(manifest.scripts.is_empty());
    assert!(matches!(manifest.bin, PackageBin::Absent));
    assert!(matches!(PackageBin::Single("x".to_string()).clone(), PackageBin::Single(p) if p == "x"));
    let mut table = DepMap::new();
    table.insert("a".to_string(), "b".to_string());
    assert!(matches!(PackageBin::Table(table).clone(), PackageBin::Table(t) if t.len() == 1));
}

#[test]
fn a_new_task_has_not_ended() {
    let task = PackageTask::new("a", None, Platform::Windows);
    assert_eq!(task.ended(), None);
    assert_ne!(Some(TaskEnd::Skipped), task.ended());
}
