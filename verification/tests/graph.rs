use crabby::depmap::DepMap;
use crabby::explorer::{find_dependency_paths, search_recursive};
use crabby::manifest::{CrabbyLock, PackageJson};
use crabby::prune::{classify_entry, collect_reachable, reachable_names, PruneStep};

fn lock_of(entries: &[(&str, &[&str])]) -> CrabbyLock {
    let mut lock = CrabbyLock::new();
    for (name, deps) in entries {
        let mut map = DepMap::new();
        for dep in deps.iter() {
            map.insert(dep.to_string(), "*".to_string());
        }
        lock.add_package(name.to_string(), "1.0.0".to_string(), "t".to_string(), "h".to_string(), map);
    }
    lock
}

fn manifest_of(runtime: &[&str], development: &[&str]) -> PackageJson {
    let mut manifest = PackageJson::default();
    manifest.name = "demo".to_string();
    for name in runtime {
        manifest.add_dependency(name.to_string(), "*".to_string());
    }
    for name in development {
        manifest.add_dev_dependency(name.to_string(), "*".to_string());
    }
    manifest
}

fn sorted(mut names: Vec<String>) -> Vec<String> {
    names.sort();
    names
}

#[test]
fn prune_keeps_what_is_reachable() {
    let lock = lock_of(&[("A", &["C"]), ("B", &[]), ("C", &[])]);
    let manifest = manifest_of(&["A"], &[]);
    let reachable = reachable_names(&manifest, &lock);
    assert_eq!(sorted(reachable.clone()), vec!["A", "C"]);
    assert_eq!(classify_entry("A", &reachable), PruneStep::Keep);
    assert_eq!(classify_entry("C", &reachable), PruneStep::Keep);
    assert_eq!(classify_entry("B", &reachable), PruneStep::Remove);
    assert_eq!(classify_entry("D", &reachable), PruneStep::Remove);
    assert_eq!(classify_entry(".bin", &reachable), PruneStep::Keep);
    assert_eq!(classify_entry(".cache", &reachable), PruneStep::Keep);
}

#[test]
fn scopes_are_descended_into() {
    let lock = lock_of(&[("@types/node", &[]), ("@types/express", &[])]);
    let manifest = manifest_of(&[], &["@types/node"]);
    let reachable = reachable_names(&manifest, &lock);
    assert_eq!(classify_entry("@types", &reachable), PruneStep::Descend);
    assert_eq!(classify_entry("@types/node", &reachable), PruneStep::Keep);
    assert_eq!(classify_entry("@types/express", &reachable), PruneStep::Remove);
    assert_eq!(classify_entry("", &reachable), PruneStep::Remove);
}

#[test]
fn reachability_follows_chains_and_cycles() {
    let lock = lock_of(&[
        ("a", &["b"]),
        ("b", &["c", "a"]),
        ("c", &["d"]),
        ("d", &["b"]),
        ("e", &["f"]),
        ("f", &[]),
        ("g", &["g"]),
    ]);
    assert_eq!(sorted(reachable_names(&manifest_of(&["a"], &[]), &lock)), vec!["a", "b", "c", "d"]);
    assert_eq!(sorted(reachable_names(&manifest_of(&[], &["e"]), &lock)), vec!["e", "f"]);
    assert_eq!(sorted(reachable_names(&manifest_of(&["g"], &["f"]), &lock)), vec!["f", "g"]);
    assert!(reachable_names(&manifest_of(&[], &[]), &lock).is_empty());
}

#[test]
fn names_without_an_entry_are_reachable_but_lead_nowhere() {
    let lock = lock_of(&[("a", &["missing"])]);
    assert_eq!(sorted(reachable_names(&manifest_of(&["a", "gone"], &[]), &lock)), vec!["a", "gone", "missing"]);
}

#[test]
fn collect_reachable_adds_to_what_is_there() {
    let lock = lock_of(&[("a", &["b"]), ("b", &["c"]), ("c", &[]), ("x", &["b", "y"]), ("y", &[])]);
    let mut seen = Vec::new();
    collect_reachable("a", &lock, &mut seen);
    assert_eq!(seen, vec!["a", "b", "c"]);
    collect_reachable("a", &lock, &mut seen);
    assert_eq!(seen.len(), 3);
    collect_reachable("x", &lock, &mut seen);
    assert_eq!(sorted(seen.clone()), vec!["a", "b", "c", "x", "y"]);
    let mut blocked = vec!["b".to_string()];
    collect_reachable("a", &lock, &mut blocked);
    assert_eq!(blocked, vec!["b", "a"]);
}

#[test]
fn a_direct_dependency_is_a_path_of_one() {
    let lock = lock_of(&[("a", &[])]);
    let paths = find_dependency_paths(&lock, &manifest_of(&["a"], &[]), "a");
    assert_eq!(paths, vec![vec!["a".to_string()]]);
    let dev = find_dependency_paths(&lock, &manifest_of(&[], &["a"]), "a");
    assert_eq!(dev, vec![vec!["a (dev)".to_string()]]);
}

#[test]
fn every_path_to_the_target_is_listed() {
    let lock = lock_of(&[("a", &["c", "b"]), ("b", &["c"]), ("c", &[]), ("d", &["b"])]);
    let manifest = manifest_of(&["a"], &["d"]);
    let paths = find_dependency_paths(&lock, &manifest, "c");
    assert_eq!(
        paths,
        vec![
            vec!["a".to_string(), "c".to_string()],
            vec!["a".to_string(), "b".to_string(), "c".to_string()],
            vec!["d (dev)".to_string(), "b".to_string(), "c".to_string()],
        ]
    );
    assert!(find_dependency_paths(&lock, &manifest, "zzz").is_empty());
}

#[test]
fn cycles_do_not_trap_the_search() {
    let lock = lock_of(&[("a", &["b"]), ("b", &["a", "c"]), ("c", &["a"])]);
    let manifest = manifest_of(&["a"], &[]);
    assert_eq!(
        find_dependency_paths(&lock, &manifest, "c"),
        vec![vec!["a".to_string(), "b".to_string(), "c".to_string()]]
    );
    assert!(find_dependency_paths(&lock, &manifest, "nowhere").is_empty());
    let looped = lock_of(&[("d", &["e"]), ("e", &["d", "t"]), ("t", &[])]);
    assert_eq!(
        find_dependency_paths(&looped, &manifest_of(&[], &["d"]), "t"),
        vec![vec!["d (dev)".to_string(), "e".to_string(), "t".to_string()]]
    );
}

#[test]
fn paths_stop_after_ten_steps() {
    let names: Vec<String> = (0..14).map(|i| format!("n{}", i)).collect();
    let mut lock = CrabbyLock::new();
    for i in 0..13 {
        let mut deps = DepMap::new();
        deps.insert(names[i + 1].clone(), "*".to_string());
        lock.add_package(names[i].clone(), "1.0.0".to_string(), "t".to_string(), "h".to_string(), deps);
    }
    let manifest = manifest_of(&["n0"], &[]);
    let reachable = find_dependency_paths(&lock, &manifest, "n10");
    assert_eq!(reachable.len(), 1);
    assert_eq!(reachable[0].len(), 11);
    assert!(find_dependency_paths(&lock, &manifest, "n11").is_empty());
    assert!(find_dependency_paths(&lock, &manifest, "n12").is_empty());
}

#[test]
fn search_leaves_the_path_as_it_was() {
    let lock = lock_of(&[("a", &["b", "c"]), ("b", &["c"]), ("c", &[])]);
    let mut path = vec!["a".to_string()];
    let mut found = Vec::new();
    search_recursive(&lock, "a", "c", &mut path, &mut found);
    assert_eq!(path, vec!["a"]);
    assert_eq!(found.len(), 2);
    assert_eq!(found[0], vec!["a", "b", "c"]);
    assert_eq!(found[1], vec!["a", "c"]);
    let mut long: Vec<String> = (0..11).map(|i| format!("p{}", i)).collect();
    search_recursive(&lock, "a", "c", &mut long, &mut found);
    assert_eq!(found.len(), 2);
    assert_eq!(long.len(), 11);
}
