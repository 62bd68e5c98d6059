use crabby::depmap::DepMap;
use crabby::install::{InstallState, InstalledPackageJson};
use crabby::linker::{PackageBin, Platform};
use crabby::manifest::{CrabbyLock, PackageJson};
use crabby::prune::{classify_entry, reachable_names, PruneStep};
use crabby::registry::{DistTags, PackageDist, PackageMetadata, PackageVersion};
use crabby::resolver::resolve;
use crabby::safety::{verify_checksum, Verdict};
use crabby::section::Section;
use crabby::task::{Directive, Event, PackageTask, TaskEnd};

/// A registry held in memory: for each package its versions, and for each
/// version what the package depends on.
struct World {
    packages: Vec<(String, Vec<(String, Vec<(String, String)>)>)>,
    metadata_calls: Vec<String>,
    archive_fetches: Vec<String>,
    extracted: Vec<String>,
    hooks: Vec<String>,
    broken: Vec<String>,
}

impl World {
    fn new() -> World {
        World {
            packages: Vec::new(),
            metadata_calls: Vec::new(),
            archive_fetches: Vec::new(),
            extracted: Vec::new(),
            hooks: Vec::new(),
            broken: Vec::new(),
        }
    }

    fn publish(&mut self, name: &str, version: &str, deps: &[(&str, &str)]) {
        let deps: Vec<(String, String)> =
            deps.iter().map(|(n, c)| (n.to_string(), c.to_string())).collect();
        for package in self.packages.iter_mut() {
            if package.0 == name {
                package.1.push((version.to_string(), deps));
                return;
            }
        }
        self.packages.push((name.to_string(), vec![(version.to_string(), deps)]));
    }

    fn metadata(&mut self, name: &str) -> Option<PackageMetadata> {
        self.metadata_calls.push(name.to_string());
        let package = self.packages.iter().find(|p| p.0 == name)?;
        let mut versions = Vec::new();
        for (number, _) in &package.1 {
            versions.push((
                number.clone(),
                PackageVersion {
                    version: number.clone(),
                    dist: PackageDist {
                        tarball: format!("mem://{}/{}", name, number),
                        shasum: format!("sum-{}-{}", name, number),
                    },
                    dependencies: DepMap::new(),
                },
            ));
        }
        let latest = package.1.last().map(|v| v.0.clone()).unwrap_or_default();
        Some(PackageMetadata { name: name.to_string(), versions, dist_tags: DistTags { latest } })
    }

    fn manifest(&self, name: &str, version: &str) -> Option<InstalledPackageJson> {
        let package = self.packages.iter().find(|p| p.0 == name)?;
        let (_, deps) = package.1.iter().find(|v| v.0 == version)?;
        let mut dependencies = DepMap::new();
        for (n, c) in deps {
            dependencies.insert(n.clone(), c.clone());
        }
        let mut scripts = DepMap::new();
        scripts.insert("postinstall".to_string(), format!("echo {}", name));
        Some(InstalledPackageJson { dependencies, scripts, bin: PackageBin::Absent })
    }
}

/// Carries out, one after the other, what the task for a request asks for.
fn install(
    world: &mut World,
    run: &mut InstallState,
    section: &mut Section,
    name: &str,
    constraint: Option<&str>,
) -> TaskEnd {
    let mut task = PackageTask::new(name, constraint, Platform::Posix);
    let mut event = Event::Start;
    loop {
        event = match task.advance(run, section, event) {
            Directive::Finished(end) => return end,
            Directive::WaitForName | Directive::WaitForPermit => {
                panic!("nothing else is at work, so nothing can be held")
            }
            Directive::FetchLocked { version, tarball, .. } => {
                world.archive_fetches.push(tarball);
                world.extracted.push(format!("{}@{}", name, version));
                Event::Fetched(true)
            }
            Directive::Resolve => match world.metadata(name) {
                Some(metadata) => Event::Resolved(resolve(constraint, &metadata).ok()),
                None => Event::Resolved(None),
            },
            Directive::FetchExtract { version, tarball, .. } => {
                if world.broken.iter().any(|b| b == name) {
                    Event::Extracted(false, None)
                } else {
                    world.archive_fetches.push(tarball);
                    world.extracted.push(format!("{}@{}", name, version));
                    Event::Extracted(true, world.manifest(name, &version))
                }
            }
            Directive::Link(_) => Event::Linked,
            Directive::RunHook(_, script) => {
                world.hooks.push(script);
                Event::HookDone(true)
            }
            Directive::InstallChildren(children) => {
                let mut all = true;
                for i in 0..children.len() {
                    let child = children.key_at(i).clone();
                    let wanted = children.value_at(i).clone();
                    if install(world, run, section, &child, Some(&wanted)) == TaskEnd::Failed {
                        all = false;
                    }
                }
                Event::ChildrenDone(all)
            }
        };
    }
}

fn install_set(
    world: &mut World,
    wanted: &[(&str, &str)],
    prior: CrabbyLock,
) -> Result<CrabbyLock, Vec<String>> {
    let mut run = InstallState::new(prior);
    let mut section = Section::new(crabby::MAX_CONCURRENT_DOWNLOADS);
    for (name, constraint) in wanted {
        install(world, &mut run, &mut section, name, Some(constraint));
    }
    run.finish().map_err(|e| e.failed)
}

fn same_lockfile(a: &CrabbyLock, b: &CrabbyLock) -> bool {
    if a.dependencies.len() != b.dependencies.len() {
        return false;
    }
    for i in 0..a.dependencies.len() {
        let name = a.dependencies.name_at(i);
        let (x, y) = match b.dependencies.get(name) {
            Some(y) => (a.dependencies.record_at(i), y),
            None => return false,
        };
        if x.version != y.version || x.tarball != y.tarball || x.shasum != y.shasum {
            return false;
        }
        if x.dependencies.len() != y.dependencies.len() {
            return false;
        }
        for j in 0..x.dependencies.len() {
            if y.dependencies.get(x.dependencies.key_at(j)) != Some(x.dependencies.value_at(j)) {
                return false;
            }
        }
    }
    true
}

#[test]
fn scenario_fresh_install_of_left_pad() {
    let mut world = World::new();
    for number in ["1.3.0", "1.3.1", "1.4.0", "2.0.0"] {
        world.publish("left-pad", number, &[]);
    }
    let lock = install_set(&mut world, &[("left-pad", "^1.3.0")], CrabbyLock::new())
        .ok()
        .expect("a lockfile");
    assert_eq!(lock.dependencies.len(), 1);
    let entry = lock.dependencies.get("left-pad").unwrap();
    assert_eq!(entry.version, "1.4.0");
    assert_eq!(entry.tarball, "mem://left-pad/1.4.0");
    assert_eq!(entry.shasum, "sum-left-pad-1.4.0");
    assert!(entry.dependencies.is_empty());
    assert_eq!(world.extracted, vec!["left-pad@1.4.0"]);
    assert_eq!(world.hooks, vec!["echo left-pad"]);
}

#[test]
fn scenario_diamond() {
    let mut world = World::new();
    world.publish("A", "1.0.0", &[("C", "^1.0.0")]);
    world.publish("B", "1.0.0", &[("C", "^1.0.0")]);
    world.publish("C", "1.0.0", &[]);
    world.publish("C", "1.2.0", &[]);
    let lock = install_set(&mut world, &[("A", "^1.0.0"), ("B", "^1.0.0")], CrabbyLock::new())
        .ok()
        .expect("a lockfile");
    assert_eq!(lock.dependencies.len(), 3);
    assert_eq!(lock.dependencies.get("C").unwrap().version, "1.2.0");
    assert_eq!(world.extracted.iter().filter(|e| e.starts_with("C@")).count(), 1);
    assert_eq!(world.metadata_calls.iter().filter(|n| *n == "C").count(), 1);
    assert!(lock.is_closed());
    // Hooks of a package run after its dependencies are done.
    assert_eq!(world.hooks, vec!["echo C", "echo A", "echo B"]);
}

#[test]
fn scenario_lock_hit() {
    let mut world = World::new();
    world.publish("X", "2.0.0", &[]);
    world.publish("X", "2.1.0", &[]);
    let mut prior = CrabbyLock::new();
    prior.add_package(
        "X".to_string(),
        "2.0.0".to_string(),
        "mem://X/2.0.0".to_string(),
        "sum-X-2.0.0".to_string(),
        DepMap::new(),
    );
    let lock = install_set(&mut world, &[("X", "2.0.0")], prior.clone()).ok().unwrap();
    assert_eq!(lock.dependencies.get("X").unwrap().version, "2.0.0");
    assert!(world.metadata_calls.is_empty());
    assert_eq!(world.archive_fetches, vec!["mem://X/2.0.0"]);
    assert_eq!(world.extracted, vec!["X@2.0.0"]);

    let lock = install_set(&mut world, &[("X", "latest")], prior).ok().unwrap();
    assert_eq!(lock.dependencies.get("X").unwrap().version, "2.0.0");
    assert!(world.metadata_calls.is_empty());
}

#[test]
fn scenario_range_against_a_pinned_version_asks_the_registry() {
    let mut world = World::new();
    world.publish("X", "2.0.0", &[]);
    world.publish("X", "2.1.0", &[]);
    let mut prior = CrabbyLock::new();
    prior.add_package(
        "X".to_string(),
        "2.0.0".to_string(),
        "mem://X/2.0.0".to_string(),
        "sum-X-2.0.0".to_string(),
        DepMap::new(),
    );
    let lock = install_set(&mut world, &[("X", "^2.0.0")], prior).ok().unwrap();
    assert_eq!(world.metadata_calls, vec!["X"]);
    assert_eq!(lock.dependencies.get("X").unwrap().version, "2.1.0");
}

#[test]
fn scenario_integrity_mismatch_does_not_stop_the_install() {
    let verdict = verify_checksum(b"what the cache holds", Some("h1"));
    assert_eq!(verdict, Verdict::Mismatch);
    assert!(verdict.allows_install(false));
    let mut world = World::new();
    world.publish("pkg", "1.0.0", &[]);
    let lock = install_set(&mut world, &[("pkg", "^1.0.0")], CrabbyLock::new()).ok().unwrap();
    assert_eq!(lock.dependencies.get("pkg").unwrap().shasum, "sum-pkg-1.0.0");
}

#[test]
fn scenario_prune() {
    let mut lock = CrabbyLock::new();
    let mut deps = DepMap::new();
    deps.insert("C".to_string(), "^1.0.0".to_string());
    lock.add_package("A".to_string(), "1.0.0".to_string(), "t".to_string(), "h".to_string(), deps);
    lock.add_package("B".to_string(), "1.0.0".to_string(), "t".to_string(), "h".to_string(), DepMap::new());
    lock.add_package("C".to_string(), "1.0.0".to_string(), "t".to_string(), "h".to_string(), DepMap::new());
    let mut manifest = PackageJson::default();
    manifest.add_dependency("A".to_string(), "^1.0.0".to_string());
    let reachable = reachable_names(&manifest, &lock);
    let mut names = reachable.clone();
    names.sort();
    assert_eq!(names, vec!["A", "C"]);
    let mut removed = Vec::new();
    for directory in ["A", "B", "C", "D", ".bin"] {
        if classify_entry(directory, &reachable) == PruneStep::Remove {
            removed.push(directory);
        }
    }
    assert_eq!(removed, vec!["B", "D"]);
    assert_eq!(classify_entry(".bin", &reachable), PruneStep::Keep);
}

#[test]
fn a_second_install_gives_the_same_lockfile() {
    let mut world = World::new();
    world.publish("A", "1.0.0", &[("C", "^1.0.0"), ("D", "latest")]);
    world.publish("B", "1.0.0", &[("C", "^1.0.0")]);
    world.publish("C", "1.0.0", &[("D", "latest")]);
    world.publish("C", "1.2.0", &[("D", "latest")]);
    world.publish("D", "0.1.0", &[]);
    let wanted = [("A", "^1.0.0"), ("B", "^1.0.0")];
    let first = install_set(&mut world, &wanted, CrabbyLock::new()).ok().unwrap();
    let second = install_set(&mut world, &wanted, first.clone()).ok().unwrap();
    assert_eq!(first.dependencies.len(), 4);
    assert!(same_lockfile(&first, &second));
    let third = install_set(&mut world, &wanted, second.clone()).ok().unwrap();
    assert!(same_lockfile(&second, &third));
    assert!(third.is_closed());
}

#[test]
fn a_fully_locked_install_asks_for_no_metadata() {
    let mut world = World::new();
    world.publish("A", "1.0.0", &[("C", "^1.0.0")]);
    world.publish("C", "1.0.0", &[]);
    let first = install_set(&mut world, &[("A", "^1.0.0")], CrabbyLock::new()).ok().unwrap();
    world.metadata_calls.clear();
    world.archive_fetches.clear();
    let again = install_set(&mut world, &[("A", "1.0.0")], first.clone()).ok().unwrap();
    assert!(world.metadata_calls.is_empty());
    assert_eq!(world.archive_fetches, vec!["mem://A/1.0.0"]);
    assert!(same_lockfile(&first, &again));
}

#[test]
fn a_dependency_cycle_is_installed_once_around() {
    let mut world = World::new();
    world.publish("a", "1.0.0", &[("b", "^1.0.0")]);
    world.publish("b", "1.0.0", &[("a", "^1.0.0")]);
    let lock = install_set(&mut world, &[("a", "^1.0.0")], CrabbyLock::new()).ok().unwrap();
    assert_eq!(lock.dependencies.len(), 2);
    assert_eq!(world.extracted, vec!["a@1.0.0", "b@1.0.0"]);
    assert!(lock.is_closed());
}

#[test]
fn a_failure_is_reported_and_the_rest_is_kept() {
    let mut world = World::new();
    world.publish("good", "1.0.0", &[]);
    world.publish("parent", "1.0.0", &[("bad", "^1.0.0"), ("good", "^1.0.0")]);
    world.publish("bad", "1.0.0", &[]);
    world.broken.push("bad".to_string());
    let mut run = InstallState::new(CrabbyLock::new());
    let mut section = Section::new(10);
    assert_eq!(install(&mut world, &mut run, &mut section, "parent", Some("^1.0.0")), TaskEnd::Failed);
    assert_eq!(install(&mut world, &mut run, &mut section, "unknown", None), TaskEnd::Failed);
    assert!(run.lockfile().dependencies.contains_key("good"));
    assert!(!run.lockfile().dependencies.contains_key("bad"));
    assert!(!run.lockfile().dependencies.contains_key("parent"));
    let failed = run.finish().err().expect("the failures");
    assert_eq!(failed.failed, vec!["bad", "parent", "unknown"]);
}
