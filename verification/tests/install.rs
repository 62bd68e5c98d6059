use crabby::depmap::DepMap;
use crabby::install::{
    make_visit_key, plan_package, Action, Begin, Completion, Hook, InstallState,
    InstalledPackageJson, Outcome,
};
use crabby::linker::{PackageBin, Platform};
use crabby::manifest::CrabbyLock;
use crabby::resolver::{Resolved, ResolveNote};
use crabby::section::Section;
use crabby::task::{Directive, Event, PackageTask, TaskEnd};

fn deps(pairs: &[(&str, &str)]) -> DepMap {
    let mut map = DepMap::new();
    for (name, constraint) in pairs {
        map.insert(name.to_string(), constraint.to_string());
    }
    map
}

fn installed(version: &str, hash: &str, dependencies: DepMap) -> Outcome {
    Outcome::Installed {
        version: version.to_string(),
        tarball: format!("https://registry.example/t-{}.tgz", version),
        shasum: hash.to_string(),
        dependencies,
    }
}

fn pinned(name: &str, version: &str) -> CrabbyLock {
    let mut lock = CrabbyLock::new();
    lock.add_package(
        name.to_string(),
        version.to_string(),
        format!("https://registry.example/{}-{}.tgz", name, version),
        format!("hash-{}", version),
        DepMap::new(),
    );
    lock
}

#[test]
fn visit_key_joins_name_and_constraint() {
    assert_eq!(make_visit_key("left-pad", Some("^1.3.0")), "left-pad@^1.3.0");
    assert_eq!(make_visit_key("left-pad", None), "left-pad@latest");
    assert_eq!(make_visit_key("@scope/pkg", Some("latest")), "@scope/pkg@latest");
    assert_eq!(make_visit_key("", Some("")), "@");
}

#[test]
fn fresh_install_of_one_dependency() {
    let mut run = InstallState::new(CrabbyLock::new());
    assert!(matches!(run.begin("left-pad", Some("^1.3.0")), Begin::Resolve));
    assert_eq!(
        run.complete("left-pad", installed("1.4.0", "h", DepMap::new())),
        Completion::Recorded
    );
    let lock = run.finish().ok().expect("a lockfile");
    assert_eq!(lock.dependencies.len(), 1);
    let entry = lock.dependencies.get("left-pad").unwrap();
    assert_eq!(entry.version, "1.4.0");
    assert_eq!(entry.tarball, "https://registry.example/t-1.4.0.tgz");
    assert!(entry.dependencies.is_empty());
}

#[test]
fn diamond_visits_the_shared_dependency_once() {
    let mut run = InstallState::new(CrabbyLock::new());
    assert!(matches!(run.begin("A", Some("^1.0.0")), Begin::Resolve));
    assert!(matches!(run.begin("B", Some("^1.0.0")), Begin::Resolve));
    assert!(matches!(run.begin("C", Some("^1.0.0")), Begin::Resolve));
    assert!(matches!(run.begin("C", Some("^1.0.0")), Begin::AlreadyVisited));
    assert!(run.was_visited("C", Some("^1.0.0")));
    assert!(!run.was_visited("C", Some("^2.0.0")));
    assert_eq!(run.complete("C", installed("1.0.2", "hc", DepMap::new())), Completion::Recorded);
    assert_eq!(
        run.complete("A", installed("1.1.0", "ha", deps(&[("C", "^1.0.0")]))),
        Completion::Recorded
    );
    assert_eq!(
        run.complete("B", installed("1.0.0", "hb", deps(&[("C", "^1.0.0")]))),
        Completion::Recorded
    );
    let lock = run.finish().ok().expect("a lockfile");
    assert_eq!(lock.dependencies.len(), 3);
    assert_eq!(lock.dependencies.get("C").unwrap().version, "1.0.2");
    assert_eq!(
        lock.dependencies.get("B").unwrap().dependencies.get("C").map(|c| c.as_str()),
        Some("^1.0.0")
    );
}

#[test]
fn lock_hit_for_absent_latest_and_equal_constraints() {
    for constraint in [None, Some("latest"), Some("2.0.0")] {
        let mut run = InstallState::new(pinned("X", "2.0.0"));
        match run.begin("X", constraint) {
            Begin::UseLocked(record) => {
                assert_eq!(record.version, "2.0.0");
                assert_eq!(record.tarball, "https://registry.example/X-2.0.0.tgz");
                assert_eq!(record.shasum, "hash-2.0.0");
            }
            _ => panic!("the lockfile settles the request"),
        }
        assert_eq!(run.complete("X", Outcome::Locked), Completion::Kept);
        let lock = run.finish().ok().expect("a lockfile");
        assert_eq!(lock.dependencies.len(), 1);
        assert_eq!(lock.dependencies.get("X").unwrap().version, "2.0.0");
    }
}

#[test]
fn a_range_never_equals_the_pinned_version() {
    let mut run = InstallState::new(pinned("X", "2.0.0"));
    assert!(matches!(run.begin("X", Some("^2.0.0")), Begin::Resolve));
    assert!(matches!(run.begin("Y", None), Begin::Resolve));
    assert_eq!(run.complete("X", installed("2.1.0", "h", DepMap::new())), Completion::Recorded);
    assert_eq!(run.complete("Y", Outcome::Failed), Completion::Failed);
    assert_eq!(run.lockfile().dependencies.get("X").unwrap().version, "2.1.0");
}

#[test]
fn the_lockfile_records_the_announced_hash() {
    let mut run = InstallState::new(CrabbyLock::new());
    run.begin("pkg", Some("^1.0.0"));
    run.complete("pkg", installed("1.0.0", "h1", DepMap::new()));
    assert_eq!(run.lockfile().dependencies.get("pkg").unwrap().shasum, "h1");
}

#[test]
fn failed_packages_stay_out_of_the_lockfile() {
    let mut run = InstallState::new(CrabbyLock::new());
    run.begin("good", Some("^1.0.0"));
    run.begin("bad", Some("^1.0.0"));
    assert_eq!(run.complete("bad", Outcome::Failed), Completion::Failed);
    assert_eq!(run.complete("good", installed("1.0.0", "h", DepMap::new())), Completion::Recorded);
    assert!(run.lockfile().dependencies.contains_key("good"));
    assert!(!run.lockfile().dependencies.contains_key("bad"));
    assert_eq!(run.failed(), &vec!["bad".to_string()]);
    let error = run.finish().err().expect("an error");
    assert_eq!(error.failed, vec!["bad".to_string()]);
    assert_eq!(error.message(), "failed to install: bad");
}

#[test]
fn unfinished_work_is_reported_after_the_failures() {
    let mut run = InstallState::new(CrabbyLock::new());
    run.begin("a", None);
    run.begin("b", None);
    run.begin("c", None);
    run.complete("b", Outcome::Failed);
    let error = run.finish().err().expect("an error");
    assert_eq!(error.failed, vec!["b".to_string(), "a".to_string(), "c".to_string()]);
    assert_eq!(error.message(), "failed to install: b a c");
}

#[test]
fn a_package_is_not_recorded_before_its_dependencies_are_accounted_for() {
    let mut run = InstallState::new(CrabbyLock::new());
    run.begin("parent", Some("^1.0.0"));
    assert_eq!(
        run.complete("parent", installed("1.0.0", "h", deps(&[("child", "^1.0.0")]))),
        Completion::Failed
    );
    assert!(!run.lockfile().dependencies.contains_key("parent"));
}

#[test]
fn dependency_cycles_are_recorded_once_both_sides_are_done() {
    let mut run = InstallState::new(CrabbyLock::new());
    run.begin("a", Some("^1.0.0"));
    run.begin("b", Some("^1.0.0"));
    assert!(matches!(run.begin("a", Some("^1.0.0")), Begin::AlreadyVisited));
    assert_eq!(
        run.complete("b", installed("1.0.0", "hb", deps(&[("a", "^1.0.0")]))),
        Completion::Recorded
    );
    assert_eq!(
        run.complete("a", installed("1.0.0", "ha", deps(&[("b", "^1.0.0"), ("a", "*")]))),
        Completion::Recorded
    );
    let lock = run.finish().ok().expect("a lockfile");
    for i in 0..lock.dependencies.len() {
        let record = lock.dependencies.record_at(i);
        for j in 0..record.dependencies.len() {
            assert!(lock.dependencies.contains_key(record.dependencies.key_at(j)));
        }
    }
}

#[test]
fn a_second_run_leaves_the_lockfile_as_it_is() {
    let mut first = InstallState::new(CrabbyLock::new());
    first.begin("a", Some("^1.0.0"));
    first.begin("c", Some("^1.0.0"));
    first.complete("c", installed("1.0.2", "hc", DepMap::new()));
    first.complete("a", installed("1.1.0", "ha", deps(&[("c", "^1.0.0")])));
    let lock = first.finish().ok().unwrap();

    let mut second = InstallState::new(lock.clone());
    second.begin("a", Some("^1.0.0"));
    second.begin("c", Some("^1.0.0"));
    second.complete("c", installed("1.0.2", "hc", DepMap::new()));
    second.complete("a", installed("1.1.0", "ha", deps(&[("c", "^1.0.0")])));
    let again = second.finish().ok().unwrap();

    assert_eq!(again.dependencies.len(), lock.dependencies.len());
    for i in 0..lock.dependencies.len() {
        assert_eq!(again.dependencies.name_at(i), lock.dependencies.name_at(i));
        let (x, y) = (again.dependencies.record_at(i), lock.dependencies.record_at(i));
        assert_eq!(x.version, y.version);
        assert_eq!(x.tarball, y.tarball);
        assert_eq!(x.shasum, y.shasum);
        assert_eq!(x.dependencies.len(), y.dependencies.len());
    }
}

#[test]
fn locked_outcome_without_an_entry_fails() {
    let mut run = InstallState::new(CrabbyLock::new());
    run.begin("ghost", None);
    assert_eq!(run.complete("ghost", Outcome::Locked), Completion::Failed);
    assert_eq!(run.failed().len(), 1);
}

#[test]
fn plan_of_a_package_without_scripts() {
    let manifest = InstalledPackageJson {
        dependencies: deps(&[("c", "^1.0.0")]),
        scripts: DepMap::new(),
        bin: PackageBin::Absent,
    };
    let plan = plan_package("a", &manifest, Platform::Posix);
    assert_eq!(plan.len(), 3);
    assert!(matches!(&plan[0], Action::LinkBinaries(shims) if shims.is_empty()));
    assert!(matches!(&plan[1], Action::InstallDependencies(d) if d.len() == 1 && d.key_at(0) == "c"));
    assert!(matches!(&plan[2], Action::Record(d) if d.len() == 1 && d.value_at(0) == "^1.0.0"));
}

#[test]
fn plan_runs_preinstall_before_and_the_other_hooks_after_the_dependencies() {
    let manifest = InstalledPackageJson {
        dependencies: DepMap::new(),
        scripts: deps(&[
            ("postinstall", "node post.js"),
            ("test", "jest"),
            ("preinstall", "node pre.js"),
            ("install", "node-gyp rebuild"),
        ]),
        bin: PackageBin::Single("cli.js".to_string()),
    };
    let plan = plan_package("tool", &manifest, Platform::Posix);
    assert_eq!(plan.len(), 6);
    assert!(matches!(&plan[0], Action::LinkBinaries(shims) if shims.len() == 1 && shims[0].file_name == "tool"));
    assert!(matches!(&plan[1], Action::RunHook(Hook::Preinstall, s) if s == "node pre.js"));
    assert!(matches!(&plan[2], Action::InstallDependencies(d) if d.is_empty()));
    assert!(matches!(&plan[3], Action::RunHook(Hook::Install, s) if s == "node-gyp rebuild"));
    assert!(matches!(&plan[4], Action::RunHook(Hook::Postinstall, s) if s == "node post.js"));
    assert!(matches!(&plan[5], Action::Record(d) if d.is_empty()));
}

#[test]
fn plan_of_the_empty_manifest() {
    let plan = plan_package("a", &InstalledPackageJson::empty(), Platform::Windows);
    assert_eq!(plan.len(), 3);
    assert!(matches!(&plan[0], Action::LinkBinaries(shims) if shims.is_empty()));
    assert!(matches!(&plan[2], Action::Record(d) if d.is_empty()));
}

#[test]
fn one_holder_per_name() {
    let mut section = Section::new(10);
    assert!(section.lock_name("C"));
    assert!(!section.lock_name("C"));
    assert!(section.lock_name("D"));
    assert!(section.unlock_name("C"));
    assert!(!section.unlock_name("C"));
    assert!(section.lock_name("C"));
    assert!(!section.lock_name("D"));
}

#[test]
fn permits_are_bounded() {
    let mut section = Section::new(2);
    assert!(section.acquire_permit());
    assert!(section.acquire_permit());
    assert!(!section.acquire_permit());
    section.release_permit();
    assert!(section.acquire_permit());
    assert!(!section.acquire_permit());
    section.release_permit();
    section.release_permit();
    section.release_permit();
    assert!(section.acquire_permit());
    assert!(section.acquire_permit());
    assert!(!section.acquire_permit());
    let mut none = Section::new(0);
    assert!(!none.acquire_permit());
}

fn chosen(version: &str) -> Resolved {
    Resolved {
        version: version.to_string(),
        tarball: format!("https://registry.example/t-{}.tgz", version),
        shasum: format!("hash-{}", version),
        note: ResolveNote::Matched,
    }
}

#[test]
fn a_task_goes_through_the_whole_installation() {
    let mut run = InstallState::new(CrabbyLock::new());
    let mut section = Section::new(10);
    let mut task = PackageTask::new("tool", Some("^1.0.0"), Platform::Posix);
    assert!(task.ended().is_none());
    assert!(matches!(task.advance(&mut run, &mut section, Event::Start), Directive::Resolve));
    assert!(!section.lock_name("tool"));
    match task.advance(&mut run, &mut section, Event::Resolved(Some(chosen("1.2.0")))) {
        Directive::FetchExtract { version, tarball, shasum } => {
            assert_eq!(version, "1.2.0");
            assert_eq!(tarball, "https://registry.example/t-1.2.0.tgz");
            assert_eq!(shasum, "hash-1.2.0");
        }
        _ => panic!("the archive is to be fetched"),
    }
    let manifest = InstalledPackageJson {
        dependencies: deps(&[("dep", "^2.0.0")]),
        scripts: deps(&[("postinstall", "node post.js"), ("preinstall", "node pre.js")]),
        bin: PackageBin::Table(deps(&[("tool", "bin/tool.js")])),
    };
    match task.advance(&mut run, &mut section, Event::Extracted(true, Some(manifest))) {
        Directive::Link(shims) => {
            assert_eq!(shims.len(), 1);
            assert_eq!(shims[0].file_name, "tool");
        }
        _ => panic!("the launchers are to be written"),
    }
    assert!(section.lock_name("tool"));
    assert!(section.unlock_name("tool"));
    assert!(matches!(
        task.advance(&mut run, &mut section, Event::Linked),
        Directive::RunHook(Hook::Preinstall, s) if s == "node pre.js"
    ));
    match task.advance(&mut run, &mut section, Event::HookDone(true)) {
        Directive::InstallChildren(children) => {
            assert_eq!(children.len(), 1);
            assert_eq!(children.key_at(0), "dep");
            assert_eq!(children.value_at(0), "^2.0.0");
        }
        _ => panic!("the dependencies are to be installed"),
    }
    let mut child = PackageTask::new("dep", Some("^2.0.0"), Platform::Posix);
    assert!(matches!(child.advance(&mut run, &mut section, Event::Start), Directive::Resolve));
    child.advance(&mut run, &mut section, Event::Resolved(Some(chosen("2.3.4"))));
    child.advance(&mut run, &mut section, Event::Extracted(true, None));
    assert!(matches!(
        child.advance(&mut run, &mut section, Event::Linked),
        Directive::InstallChildren(d) if d.is_empty()
    ));
    assert!(matches!(
        child.advance(&mut run, &mut section, Event::ChildrenDone(true)),
        Directive::Finished(TaskEnd::Recorded)
    ));
    assert!(matches!(
        task.advance(&mut run, &mut section, Event::ChildrenDone(true)),
        Directive::RunHook(Hook::Postinstall, s) if s == "node post.js"
    ));
    assert!(matches!(
        task.advance(&mut run, &mut section, Event::HookDone(true)),
        Directive::Finished(TaskEnd::Recorded)
    ));
    assert_eq!(task.ended(), Some(TaskEnd::Recorded));
    assert!(matches!(
        task.advance(&mut run, &mut section, Event::Retry),
        Directive::Finished(TaskEnd::Recorded)
    ));
    let lock = run.finish().ok().expect("a lockfile");
    assert_eq!(lock.dependencies.len(), 2);
    assert_eq!(lock.dependencies.get("tool").unwrap().version, "1.2.0");
    assert_eq!(lock.dependencies.get("tool").unwrap().shasum, "hash-1.2.0");
    assert_eq!(lock.dependencies.get("dep").unwrap().version, "2.3.4");
}

#[test]
fn a_locked_task_asks_the_registry_nothing() {
    let mut run = InstallState::new(pinned("X", "2.0.0"));
    let mut section = Section::new(10);
    let mut task = PackageTask::new("X", Some("2.0.0"), Platform::Posix);
    match task.advance(&mut run, &mut section, Event::Start) {
        Directive::FetchLocked { version, tarball, shasum } => {
            assert_eq!(version, "2.0.0");
            assert_eq!(tarball, "https://registry.example/X-2.0.0.tgz");
            assert_eq!(shasum, "hash-2.0.0");
        }
        _ => panic!("the pinned archive is to be fetched"),
    }
    assert!(matches!(
        task.advance(&mut run, &mut section, Event::Fetched(true)),
        Directive::Finished(TaskEnd::Kept)
    ));
    let lock = run.finish().ok().unwrap();
    assert_eq!(lock.dependencies.get("X").unwrap().version, "2.0.0");
}

#[test]
fn a_second_task_for_the_same_request_is_skipped() {
    let mut run = InstallState::new(CrabbyLock::new());
    let mut section = Section::new(10);
    let mut first = PackageTask::new("C", Some("^1.0.0"), Platform::Posix);
    let mut second = PackageTask::new("C", Some("^1.0.0"), Platform::Posix);
    assert!(matches!(first.advance(&mut run, &mut section, Event::Start), Directive::Resolve));
    assert!(matches!(
        second.advance(&mut run, &mut section, Event::Start),
        Directive::Finished(TaskEnd::Skipped)
    ));
    assert_eq!(second.ended(), Some(TaskEnd::Skipped));
}

#[test]
fn two_tasks_for_one_name_take_turns() {
    let mut run = InstallState::new(CrabbyLock::new());
    let mut section = Section::new(10);
    let mut first = PackageTask::new("C", Some("^1.0.0"), Platform::Posix);
    let mut second = PackageTask::new("C", Some("~1.0.0"), Platform::Posix);
    assert!(matches!(first.advance(&mut run, &mut section, Event::Start), Directive::Resolve));
    assert!(matches!(second.advance(&mut run, &mut section, Event::Start), Directive::WaitForName));
    assert!(matches!(second.advance(&mut run, &mut section, Event::Retry), Directive::WaitForName));
    first.advance(&mut run, &mut section, Event::Resolved(Some(chosen("1.5.0"))));
    assert!(matches!(second.advance(&mut run, &mut section, Event::Retry), Directive::WaitForName));
    first.advance(&mut run, &mut section, Event::Extracted(true, None));
    assert!(matches!(second.advance(&mut run, &mut section, Event::Retry), Directive::Resolve));
}

#[test]
fn a_task_waits_for_a_permit_while_it_holds_its_name() {
    let mut run = InstallState::new(CrabbyLock::new());
    let mut section = Section::new(1);
    let mut first = PackageTask::new("a", None, Platform::Posix);
    let mut second = PackageTask::new("b", None, Platform::Posix);
    first.advance(&mut run, &mut section, Event::Start);
    second.advance(&mut run, &mut section, Event::Start);
    assert!(matches!(
        first.advance(&mut run, &mut section, Event::Resolved(Some(chosen("1.0.0")))),
        Directive::FetchExtract { .. }
    ));
    assert!(matches!(
        second.advance(&mut run, &mut section, Event::Resolved(Some(chosen("2.0.0")))),
        Directive::WaitForPermit
    ));
    assert!(matches!(second.advance(&mut run, &mut section, Event::Retry), Directive::WaitForPermit));
    assert!(!section.lock_name("b"));
    first.advance(&mut run, &mut section, Event::Extracted(true, None));
    match second.advance(&mut run, &mut section, Event::Retry) {
        Directive::FetchExtract { version, .. } => assert_eq!(version, "2.0.0"),
        _ => panic!("the permit is free"),
    }
}

#[test]
fn failures_end_a_task_and_free_what_it_held() {
    let mut run = InstallState::new(CrabbyLock::new());
    let mut section = Section::new(1);
    let mut task = PackageTask::new("a", None, Platform::Posix);
    task.advance(&mut run, &mut section, Event::Start);
    task.advance(&mut run, &mut section, Event::Resolved(Some(chosen("1.0.0"))));
    assert!(matches!(
        task.advance(&mut run, &mut section, Event::Extracted(false, None)),
        Directive::Finished(TaskEnd::Failed)
    ));
    assert!(section.lock_name("a"));
    assert!(section.acquire_permit());

    let mut unresolved = PackageTask::new("b", None, Platform::Posix);
    unresolved.advance(&mut run, &mut section, Event::Start);
    assert!(matches!(
        unresolved.advance(&mut run, &mut section, Event::Resolved(None)),
        Directive::Finished(TaskEnd::Failed)
    ));
    assert!(section.lock_name("b"));

    let mut hooked = PackageTask::new("c", None, Platform::Posix);
    section.release_permit();
    hooked.advance(&mut run, &mut section, Event::Start);
    hooked.advance(&mut run, &mut section, Event::Resolved(Some(chosen("1.0.0"))));
    let manifest = InstalledPackageJson {
        dependencies: DepMap::new(),
        scripts: deps(&[("install", "exit 1")]),
        bin: PackageBin::Absent,
    };
    hooked.advance(&mut run, &mut section, Event::Extracted(true, Some(manifest)));
    hooked.advance(&mut run, &mut section, Event::Linked);
    assert!(matches!(
        hooked.advance(&mut run, &mut section, Event::ChildrenDone(true)),
        Directive::RunHook(Hook::Install, _)
    ));
    assert!(matches!(
        hooked.advance(&mut run, &mut section, Event::HookDone(false)),
        Directive::Finished(TaskEnd::Failed)
    ));
    assert_eq!(run.failed(), &vec!["a".to_string(), "b".to_string(), "c".to_string()]);
    assert!(run.lockfile().dependencies.is_empty());
}

#[test]
fn a_failed_dependency_fails_its_parent() {
    let mut run = InstallState::new(CrabbyLock::new());
    let mut section = Section::new(10);
    let mut task = PackageTask::new("parent", None, Platform::Posix);
    task.advance(&mut run, &mut section, Event::Start);
    task.advance(&mut run, &mut section, Event::Resolved(Some(chosen("1.0.0"))));
    task.advance(&mut run, &mut section, Event::Extracted(true, None));
    task.advance(&mut run, &mut section, Event::Linked);
    assert!(matches!(
        task.advance(&mut run, &mut section, Event::ChildrenDone(false)),
        Directive::Finished(TaskEnd::Failed)
    ));
    assert!(!run.lockfile().dependencies.contains_key("parent"));
}

#[test]
fn an_event_out_of_turn_fails_the_task() {
    let mut run = InstallState::new(CrabbyLock::new());
    let mut section = Section::new(10);
    let mut task = PackageTask::new("a", None, Platform::Posix);
    assert!(matches!(
        task.advance(&mut run, &mut section, Event::HookDone(true)),
        Directive::Finished(TaskEnd::Failed)
    ));
    assert_eq!(task.ended(), Some(TaskEnd::Failed));
    assert_eq!(run.failed(), &vec!["a".to_string()]);
}
