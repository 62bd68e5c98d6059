//! The installation of one package, step by step.
//!
//! A task takes one request through an install run: it looks the request
//! up, waits for its turn, has the package resolved, fetched and
//! extracted, then goes through what the package asks for, and ends by
//! entering the package into the lockfile. The task does none of the work
//! itself. After every event it says what is to be done next; the caller
//! does it and comes back with the event that tells how it went.

use crate::depmap::{DepMap, Pair};
use crate::install::{
    hits_lock, hook_count, hook_name, is_plan_for, plan_package, record_of, view_of, visit_key,
    without_first, Action, Begin, Completion, Hook, InstallState, InstalledPackageJson, Outcome,
};
use crate::linker::{links_of, Platform, Shim};
use crate::manifest::LockRecord;
use crate::resolver::Resolved;
use crate::section::Section;
use vstd::prelude::*;

verus! {

/// How a task ended.
#[derive(Clone, Copy, PartialEq, Eq, Structural, Debug)]
pub enum TaskEnd {
    /// The request had been seen before in this run; nothing was done.
    Skipped,
    /// The package was entered into the lockfile.
    Recorded,
    /// The package keeps the entry it had in the lockfile.
    Kept,
    /// The package counts as failed.
    Failed,
}

/// The end that goes with a completion.
pub open spec fn end_of(done: Completion) -> TaskEnd {
    match done {
        Completion::Recorded => TaskEnd::Recorded,
        Completion::Kept => TaskEnd::Kept,
        Completion::Failed => TaskEnd::Failed,
    }
}

/// What happened since the task last said what to do.
pub enum Event {
    /// Nothing yet: the task is asked for its first step.
    Start,
    /// A name or a permit may have become free: the task asks again.
    Retry,
    /// The pinned archive was fetched and extracted, or that failed.
    Fetched(bool),
    /// The registry was asked and a version was chosen, or that failed.
    Resolved(Option<Resolved>),
    /// The archive was fetched, checked and extracted, or that failed.
    /// The manifest is what the extracted package says of itself, if it
    /// could be read.
    Extracted(bool, Option<InstalledPackageJson>),
    /// The launchers were written, or the failure to do so was reported.
    Linked,
    /// A script ran, with or without success.
    HookDone(bool),
    /// Every dependency has come to an end; the flag says whether all succeeded.
    ChildrenDone(bool),
}

/// What is to be done next for a task.
pub enum Directive {
    /// Fetch the archive that the lockfile pins, and extract it. The
    /// registry is not asked.
    FetchLocked { version: String, tarball: String, shasum: String },
    /// Another task holds the package's name: wait until a name is
    /// released, then come back with `Retry`.
    WaitForName,
    /// Ask the registry for the package and choose a version.
    Resolve,
    /// All download permits are out: wait until one is handed back, then
    /// come back with `Retry`.
    WaitForPermit,
    /// Fetch the archive of the chosen version, check it, and extract it.
    FetchExtract { version: String, tarball: String, shasum: String },
    /// Write these launchers.
    Link(Vec<Shim>),
    /// Run this script of the package.
    RunHook(Hook, String),
    /// Install these dependencies and wait for all of them.
    InstallChildren(DepMap),
    /// The task is over.
    Finished(TaskEnd),
}

/// Where a task stands.
#[derive(Clone, Copy, PartialEq, Eq, Structural, Debug)]
pub enum Stage {
    /// Nothing was done yet.
    Start,
    /// The task waits for the package's name.
    WaitingName,
    /// The pinned archive is being fetched.
    Locked,
    /// The task holds the name; the registry is being asked.
    Resolving,
    /// The task holds the name and waits for a download permit.
    WaitingPermit,
    /// The task holds the name and a permit; the archive is being fetched.
    Extracting,
    /// The package is extracted; the task goes through what it asks for.
    Running,
    /// The task is over.
    Done,
}

/// One kind of thing to do for an extracted package.
#[derive(Clone, Copy, PartialEq, Eq, Structural, Debug)]
pub enum Step {
    Link,
    Run(Hook),
    Children,
    Record,
}

/// The hooks that `scripts` declares, in the order given.
pub open spec fn declared(scripts: Map<Seq<char>, Seq<char>>, hooks: Seq<Hook>) -> Seq<Step>
    decreases hooks.len(),
{
    if hooks.len() == 0 {
        Seq::empty()
    } else if scripts.dom().contains(hook_name(hooks.last())) {
        declared(scripts, hooks.drop_last()).push(Step::Run(hooks.last()))
    } else {
        declared(scripts, hooks.drop_last())
    }
}

/// The steps for an extracted package whose manifest declares `scripts`:
/// link the executables; run `preinstall`; install the dependencies; run
/// `install`, then `postinstall`; record the package. A script that is
/// not declared is left out.
pub open spec fn steps_for(scripts: Map<Seq<char>, Seq<char>>) -> Seq<Step> {
    seq![Step::Link] + declared(scripts, seq![Hook::Preinstall]) + seq![Step::Children]
        + declared(scripts, seq![Hook::Install, Hook::Postinstall]) + seq![Step::Record]
}

/// The kind of an action.
pub open spec fn step_of(action: &Action) -> Step {
    match action {
        Action::LinkBinaries(_) => Step::Link,
        Action::RunHook(hook, _) => Step::Run(*hook),
        Action::InstallDependencies(_) => Step::Children,
        Action::Record(_) => Step::Record,
    }
}

/// A plan has the steps that `steps_for` lists.
pub proof fn lemma_plan_steps(
    plan: Seq<Action>,
    name: Seq<char>,
    manifest: &InstalledPackageJson,
    platform: Platform,
)
    requires
        is_plan_for(plan, name, manifest, platform),
    ensures
        plan.len() == steps_for(manifest.scripts@).len(),
        plan.len() >= 3,
        forall|i: int| 0 <= i < plan.len() ==> step_of(&#[trigger] plan[i]) == steps_for(
            manifest.scripts@,
        )[i],
        steps_for(manifest.scripts@)[0] == Step::Link,
        steps_for(manifest.scripts@).last() == Step::Record,
        forall|i: int|
            0 <= i < plan.len() - 1 ==> #[trigger] steps_for(manifest.scripts@)[i] != Step::Record,
{
    let scripts = manifest.scripts@;
    let pre = seq![Hook::Preinstall];
    let late = seq![Hook::Install, Hook::Postinstall];
    assert(pre.drop_last() =~= Seq::<Hook>::empty());
    assert(late.drop_last() =~= seq![Hook::Install]);
    assert(seq![Hook::Install].drop_last() =~= Seq::<Hook>::empty());
    reveal_with_fuel(declared, 3);
    let steps = steps_for(scripts);
    let p = hook_count(scripts, Hook::Preinstall);
    let i = hook_count(scripts, Hook::Install);
    let q = hook_count(scripts, Hook::Postinstall);
    assert(declared(scripts, pre).len() == p);
    assert(declared(scripts, late).len() == i + q);
    assert(steps.len() == 3 + p + i + q);
    assert forall|k: int| 0 <= k < plan.len() implies step_of(&#[trigger] plan[k])
        == steps[k] by {}
}

/// The request of a task, its stage, and what it carries along.
pub struct PackageTask {
    name: String,
    constraint: Option<String>,
    platform: Platform,
    stage: Stage,
    resolved: Option<Resolved>,
    manifest: Option<InstalledPackageJson>,
    at: usize,
    end: Option<TaskEnd>,
}

impl PackageTask {
    /// The package's name.
    pub closed spec fn name(&self) -> Seq<char> {
        self.name@
    }

    /// The constraint of the request, if it has one.
    pub closed spec fn constraint(&self) -> Option<Seq<char>> {
        match self.constraint {
            Some(c) => Some(c@),
            None => None,
        }
    }

    /// The platform that launchers are written for.
    pub closed spec fn platform(&self) -> Platform {
        self.platform
    }

    /// Where the task stands.
    pub closed spec fn stage(&self) -> Stage {
        self.stage
    }

    /// The version that was chosen, once the registry has answered.
    pub closed spec fn resolved(&self) -> Option<Resolved> {
        self.resolved
    }

    /// The manifest of the extracted package, once it is extracted.
    pub closed spec fn manifest(&self) -> Option<InstalledPackageJson> {
        self.manifest
    }

    /// The position of the step that is being done, while the task is running.
    pub closed spec fn position(&self) -> int {
        self.at as int
    }

    /// How the task ended, once it is over.
    pub closed spec fn end(&self) -> Option<TaskEnd> {
        self.end
    }

    /// The steps of the extracted package.
    pub open spec fn steps(&self) -> Seq<Step> {
        steps_for(self.manifest()->0.scripts@)
    }

    /// A task carries what its stage needs: the chosen version from the
    /// moment it waits for a permit, the manifest and a step that is not
    /// the last one while it runs, and its end once it is over.
    #[verifier::type_invariant]
    pub open spec fn wf(&self) -> bool {
        &&& (self.stage() == Stage::WaitingPermit || self.stage() == Stage::Extracting
            || self.stage() == Stage::Running) ==> self.resolved() is Some
        &&& self.stage() == Stage::Running ==> self.manifest() is Some && 0 <= self.position()
            && self.position() + 1 < self.steps().len()
        &&& self.stage() == Stage::Done ==> self.end() is Some
    }

    /// A task for the request for `name` under `constraint`.
    pub fn new(name: &str, constraint: Option<&str>, platform: Platform) -> (task: PackageTask)
        ensures
            task.name() == name@,
            task.constraint() == view_of(constraint),
            task.platform() == platform,
            task.stage() == Stage::Start,
    {
        PackageTask {
            name: String::from_str(name),
            constraint: match constraint {
                Some(c) => Some(String::from_str(c)),
                None => None,
            },
            platform,
            stage: Stage::Start,
            resolved: None,
            manifest: None,
            at: 0,
            end: None,
        }
    }

    /// Whether the task is over, and how it ended.
    pub fn ended(&self) -> (end: Option<TaskEnd>)
        ensures
            end is Some <==> self.stage() == Stage::Done,
            self.stage() == Stage::Done ==> end == self.end(),
    {
        proof {
            use_type_invariant(self);
        }
        match self.stage {
            Stage::Done => self.end,
            _ => None,
        }
    }
}

/// Nothing of the run has changed.
pub open spec fn run_unchanged(before: &InstallState, after: &InstallState) -> bool {
    &&& after.prior() == before.prior()
    &&& after.updated() == before.updated()
    &&& after.visited() == before.visited()
    &&& after.active() == before.active()
    &&& after.failures() == before.failures()
}

/// The run has taken up the request for `name` under `constraint`.
pub open spec fn run_begun(
    before: &InstallState,
    after: &InstallState,
    name: Seq<char>,
    constraint: Option<Seq<char>>,
) -> bool {
    &&& after.prior() == before.prior()
    &&& after.updated() == before.updated()
    &&& after.failures() == before.failures()
    &&& after.visited() == before.visited().push(visit_key(name, constraint))
    &&& after.active() == before.active().push(name)
}

/// The run has ended one task on `name` in the way `done`, entering
/// `record` if the package was recorded.
pub open spec fn run_ended(
    before: &InstallState,
    after: &InstallState,
    name: Seq<char>,
    done: Completion,
    record: LockRecord,
) -> bool {
    &&& after.prior() == before.prior()
    &&& after.visited() == before.visited()
    &&& after.active() == without_first(before.active(), name)
    &&& after.updated() == if done == Completion::Recorded {
        before.updated().insert(name, record)
    } else {
        before.updated()
    }
    &&& after.failures() == if done == Completion::Failed {
        before.failures().push(name)
    } else {
        before.failures()
    }
}

/// What the run makes of a package that was installed with `record`.
pub open spec fn recording(before: &InstallState, name: Seq<char>, record: LockRecord) -> Completion {
    if crate::install::all_settled(
        record.dependencies,
        before.updated().insert(name, record),
        without_first(before.active(), name),
        before.failures(),
    ) {
        Completion::Recorded
    } else {
        Completion::Failed
    }
}

/// What the run makes of a package whose pinned archive was extracted.
pub open spec fn keeping(before: &InstallState, name: Seq<char>) -> Completion {
    if before.prior().dom().contains(name) {
        Completion::Kept
    } else {
        Completion::Failed
    }
}

/// The section is as before, but for the hold on `name`, which is given
/// up if `release` says so, and for `returned` permits handed back.
pub open spec fn section_after(
    before: &Section,
    after: &Section,
    name: Seq<char>,
    release: bool,
    returned: nat,
) -> bool {
    &&& after.capacity() == before.capacity()
    &&& after.in_use() == if before.in_use() >= returned {
        (before.in_use() - returned) as nat
    } else {
        0nat
    }
    &&& if release {
        !after.holds(name) && forall|other: Seq<char>|
            other != name ==> after.holds(other) == before.holds(other)
    } else {
        after.holders() == before.holders()
    }
}

/// The lock record for the version `resolved` with the dependencies of `manifest`.
pub open spec fn record_for(resolved: &Resolved, manifest: &InstalledPackageJson) -> LockRecord {
    LockRecord {
        version: resolved.version@,
        tarball: resolved.tarball@,
        shasum: resolved.shasum@,
        dependencies: manifest.dependencies.pairs(),
    }
}

impl Directive {
    /// This directive asks for the step `step` of the package `name` with
    /// the manifest `manifest`.
    pub open spec fn performs(
        &self,
        step: Step,
        name: Seq<char>,
        manifest: &InstalledPackageJson,
        platform: Platform,
    ) -> bool {
        match step {
            Step::Link => self is Link && self->Link_0.len() == links_of(name, &manifest.bin).len()
                && forall|i: int|
                0 <= i < self->Link_0.len() ==> (#[trigger] self->Link_0[i]).launches(
                    name,
                    links_of(name, &manifest.bin)[i],
                    platform,
                ),
            Step::Run(hook) => self is RunHook && self->RunHook_0 == hook
                && manifest.scripts@.dom().contains(hook_name(hook)) && self->RunHook_1@
                == manifest.scripts@[hook_name(hook)],
            Step::Children => self is InstallChildren && self->InstallChildren_0.pairs()
                == manifest.dependencies.pairs(),
            Step::Record => false,
        }
    }

    /// This directive asks to fetch what `record` pins.
    pub open spec fn fetches_locked(&self, record: LockRecord) -> bool {
        self is FetchLocked && self->FetchLocked_version@ == record.version
            && self->FetchLocked_tarball@ == record.tarball && self->FetchLocked_shasum@
            == record.shasum
    }

    /// This directive asks to fetch and extract the version `resolved`.
    pub open spec fn fetches(&self, resolved: &Resolved) -> bool {
        self is FetchExtract && self->FetchExtract_version@ == resolved.version@
            && self->FetchExtract_tarball@ == resolved.tarball@ && self->FetchExtract_shasum@
            == resolved.shasum@
    }
}

/// Whether the event reports the success of the step `step`. Launchers
/// are written as well as can be, so their step always succeeds.
pub open spec fn succeeds(event: &Event, step: Step) -> bool {
    match step {
        Step::Link => event is Linked,
        Step::Run(_) => event is HookDone && event->HookDone_0,
        Step::Children => event is ChildrenDone && event->ChildrenDone_0,
        Step::Record => false,
    }
}

/// The manifest that a task goes by after the event `event`: the one
/// that was read, or the empty one.
pub open spec fn goes_by(manifest: &InstalledPackageJson, event: &Event) -> bool {
    match event->Extracted_1 {
        Some(read) => *manifest == read,
        None => manifest.dependencies.pairs() == Seq::<Pair>::empty() && manifest.scripts@
            == Map::<Seq<char>, Seq<char>>::empty() && manifest.bin is Absent,
    }
}

impl PackageTask {
    /// The request is the same.
    pub open spec fn same_request(&self, after: &PackageTask) -> bool {
        &&& after.name() == self.name()
        &&& after.constraint() == self.constraint()
        &&& after.platform() == self.platform()
    }

    /// The task has failed: it is over, the run lists the package as
    /// failed, and what the task held of the section is given up.
    pub open spec fn has_failed(
        &self,
        after: &PackageTask,
        run_before: &InstallState,
        run_after: &InstallState,
        section_before: &Section,
        section_after_it: &Section,
        directive: &Directive,
    ) -> bool {
        let held = self.stage() == Stage::Resolving || self.stage() == Stage::WaitingPermit
            || self.stage() == Stage::Extracting;
        let permit: nat = if self.stage() == Stage::Extracting {
            1
        } else {
            0
        };
        &&& after.stage() == Stage::Done
        &&& after.end() == Some(TaskEnd::Failed)
        &&& *directive == Directive::Finished(TaskEnd::Failed)
        &&& run_ended(run_before, run_after, self.name(), Completion::Failed, arbitrary())
        &&& section_after(section_before, section_after_it, self.name(), held, permit)
    }

    /// The task has asked for the package's name: it got it and has the
    /// registry asked, or it waits.
    pub open spec fn has_asked_name(
        &self,
        after: &PackageTask,
        section_before: &Section,
        section_after_it: &Section,
        directive: &Directive,
    ) -> bool {
        if section_before.holds(self.name()) {
            &&& after.stage() == Stage::WaitingName
            &&& *directive == Directive::WaitForName
            &&& section_after(section_before, section_after_it, self.name(), false, 0)
        } else {
            &&& after.stage() == Stage::Resolving
            &&& *directive == Directive::Resolve
            &&& section_after_it.holders() == section_before.holders().push(self.name())
            &&& section_after_it.in_use() == section_before.in_use()
            &&& section_after_it.capacity() == section_before.capacity()
        }
    }

    /// The task has asked for a download permit for the version
    /// `resolved`: it got one and has the archive fetched, or it waits.
    pub open spec fn has_asked_permit(
        &self,
        after: &PackageTask,
        resolved: &Resolved,
        section_before: &Section,
        section_after_it: &Section,
        directive: &Directive,
    ) -> bool {
        &&& after.resolved() == Some(*resolved)
        &&& section_after_it.holders() == section_before.holders()
        &&& section_after_it.capacity() == section_before.capacity()
        &&& if section_before.in_use() < section_before.capacity() {
            &&& after.stage() == Stage::Extracting
            &&& directive.fetches(resolved)
            &&& section_after_it.in_use() == section_before.in_use() + 1
        } else {
            &&& after.stage() == Stage::WaitingPermit
            &&& *directive == Directive::WaitForPermit
            &&& section_after_it.in_use() == section_before.in_use()
        }
    }

    /// The task has come to the step at position `at` of the package
    /// extracted with `manifest`: it asks for that step, or, if the step
    /// is the last, has the package recorded and is over.
    pub open spec fn has_come_to(
        &self,
        after: &PackageTask,
        resolved: &Resolved,
        manifest: &InstalledPackageJson,
        at: int,
        run_before: &InstallState,
        run_after: &InstallState,
        directive: &Directive,
    ) -> bool {
        let steps = steps_for(manifest.scripts@);
        if steps[at] == Step::Record {
            let record = record_for(resolved, manifest);
            let done = recording(run_before, self.name(), record);
            &&& after.stage() == Stage::Done
            &&& after.end() == Some(end_of(done))
            &&& *directive == Directive::Finished(end_of(done))
            &&& run_ended(run_before, run_after, self.name(), done, record)
        } else {
            &&& after.stage() == Stage::Running
            &&& after.resolved() == Some(*resolved)
            &&& after.manifest() == Some(*manifest)
            &&& after.position() == at
            &&& directive.performs(steps[at], self.name(), manifest, self.platform())
            &&& run_unchanged(run_before, run_after)
        }
    }

    /// `after`, `directive` and the new states of the run and the section
    /// are what follows when the event `event` comes in.
    pub open spec fn follows(
        &self,
        after: &PackageTask,
        run_before: &InstallState,
        run_after: &InstallState,
        section_before: &Section,
        section_after_it: &Section,
        event: &Event,
        directive: &Directive,
    ) -> bool {
        let name = self.name();
        let failed = self.has_failed(
            after,
            run_before,
            run_after,
            section_before,
            section_after_it,
            directive,
        );
        &&& self.same_request(after)
        &&& match self.stage() {
            Stage::Done => {
                &&& after.stage() == Stage::Done
                &&& after.end() == self.end()
                &&& *directive == Directive::Finished(self.end()->0)
                &&& run_unchanged(run_before, run_after)
                &&& section_after(section_before, section_after_it, name, false, 0)
            },
            Stage::Start => if !(event is Start) {
                failed
            } else if run_before.visited().contains(visit_key(name, self.constraint())) {
                &&& after.stage() == Stage::Done
                &&& after.end() == Some(TaskEnd::Skipped)
                &&& *directive == Directive::Finished(TaskEnd::Skipped)
                &&& run_unchanged(run_before, run_after)
                &&& section_after(section_before, section_after_it, name, false, 0)
            } else if hits_lock(run_before.prior(), name, self.constraint()) {
                &&& after.stage() == Stage::Locked
                &&& directive.fetches_locked(run_before.prior()[name])
                &&& run_begun(run_before, run_after, name, self.constraint())
                &&& section_after(section_before, section_after_it, name, false, 0)
            } else {
                &&& run_begun(run_before, run_after, name, self.constraint())
                &&& self.has_asked_name(after, section_before, section_after_it, directive)
            },
            Stage::WaitingName => if !(event is Retry) {
                failed
            } else {
                &&& run_unchanged(run_before, run_after)
                &&& self.has_asked_name(after, section_before, section_after_it, directive)
            },
            Stage::Locked => if !(event is Fetched && event->Fetched_0) {
                failed
            } else {
                let done = keeping(run_before, name);
                &&& after.stage() == Stage::Done
                &&& after.end() == Some(end_of(done))
                &&& *directive == Directive::Finished(end_of(done))
                &&& run_ended(run_before, run_after, name, done, arbitrary())
                &&& section_after(section_before, section_after_it, name, false, 0)
            },
            Stage::Resolving => if !(event is Resolved && event->Resolved_0 is Some) {
                failed
            } else {
                &&& run_unchanged(run_before, run_after)
                &&& self.has_asked_permit(
                    after,
                    &event->Resolved_0->0,
                    section_before,
                    section_after_it,
                    directive,
                )
            },
            Stage::WaitingPermit => if !(event is Retry) {
                failed
            } else {
                &&& run_unchanged(run_before, run_after)
                &&& self.has_asked_permit(
                    after,
                    &self.resolved()->0,
                    section_before,
                    section_after_it,
                    directive,
                )
            },
            Stage::Extracting => if !(event is Extracted && event->Extracted_0) {
                failed
            } else {
                &&& after.manifest() is Some
                &&& goes_by(&after.manifest()->0, event)
                &&& section_after(section_before, section_after_it, name, true, 1)
                &&& self.has_come_to(
                    after,
                    &self.resolved()->0,
                    &after.manifest()->0,
                    0,
                    run_before,
                    run_after,
                    directive,
                )
            },
            Stage::Running => if !succeeds(event, self.steps()[self.position()]) {
                failed
            } else {
                &&& section_after(section_before, section_after_it, name, false, 0)
                &&& self.has_come_to(
                    after,
                    &self.resolved()->0,
                    &self.manifest()->0,
                    self.position() + 1,
                    run_before,
                    run_after,
                    directive,
                )
            },
        }
    }
}

/// Whether a task at `stage` is inside the fetch-and-extract section.
pub open spec fn in_section(stage: Stage) -> bool {
    stage == Stage::Resolving || stage == Stage::WaitingPermit || stage == Stage::Extracting
}

/// Every task inside the fetch-and-extract section holds its package's
/// name, and no two tasks inside it are about the same name.
pub open spec fn one_task_per_name(tasks: Seq<PackageTask>, section: &Section) -> bool {
    &&& forall|i: int|
        0 <= i < tasks.len() && in_section((#[trigger] tasks[i]).stage()) ==> section.holds(
            tasks[i].name(),
        )
    &&& forall|i: int, j: int|
        0 <= i < tasks.len() && 0 <= j < tasks.len() && i != j && in_section(
            (#[trigger] tasks[i]).stage(),
        ) && in_section((#[trigger] tasks[j]).stage()) ==> tasks[i].name() != tasks[j].name()
}

/// Whatever task moves on, and whatever the event, it stays true that no
/// two tasks are inside the fetch-and-extract section for the same name.
pub proof fn lemma_one_task_per_name(
    tasks: Seq<PackageTask>,
    k: int,
    after: PackageTask,
    run_before: &InstallState,
    run_after: &InstallState,
    section_before: &Section,
    section_after_it: &Section,
    event: &Event,
    directive: &Directive,
)
    requires
        0 <= k < tasks.len(),
        one_task_per_name(tasks, section_before),
        tasks[k].follows(
            &after,
            run_before,
            run_after,
            section_before,
            section_after_it,
            event,
            directive,
        ),
    ensures
        one_task_per_name(tasks.update(k, after), section_after_it),
{
    let moved = tasks.update(k, after);
    let name = tasks[k].name();
    let was_inside = in_section(tasks[k].stage());
    assert(after.name() == name);
    // What the others hold stays held.
    assert forall|i: int| 0 <= i < moved.len() && in_section((#[trigger] moved[i]).stage())
        implies section_after_it.holds(moved[i].name()) by {
        if i == k {
            if !was_inside {
                // The task came in: the name was free and is now held.
                assert(section_after_it.holders() == section_before.holders().push(name));
                assert(section_after_it.holders()[section_before.holders().len() as int] == name);
            }
        } else {
            assert(moved[i] == tasks[i]);
            assert(section_before.holds(tasks[i].name()));
            let other = tasks[i].name();
            if was_inside {
                assert(other != name);
            }
            if section_after_it.holders() == section_before.holders().push(name) {
                let j = choose|j: int|
                    0 <= j < section_before.holders().len() && section_before.holders()[j]
                        == other;
                assert(section_after_it.holders()[j] == other);
            }
        }
    }
    assert forall|i: int, j: int|
        0 <= i < moved.len() && 0 <= j < moved.len() && i != j && in_section(
            (#[trigger] moved[i]).stage(),
        ) && in_section((#[trigger] moved[j]).stage()) implies moved[i].name()
        != moved[j].name() by {
        if i != k && j != k {
            assert(moved[i] == tasks[i] && moved[j] == tasks[j]);
        } else {
            let other = if i == k {
                j
            } else {
                i
            };
            assert(moved[other] == tasks[other]);
            assert(section_before.holds(tasks[other].name()));
            if !was_inside {
                assert(!section_before.holds(name));
            }
        }
    }
}

/// The number of tasks that are fetching and extracting an archive.
pub open spec fn extracting(tasks: Seq<PackageTask>) -> nat
    decreases tasks.len(),
{
    if tasks.len() == 0 {
        0
    } else {
        extracting(tasks.drop_last()) + if tasks.last().stage() == Stage::Extracting {
            1nat
        } else {
            0nat
        }
    }
}

/// Putting another task at position `k` changes the count by what the
/// two tasks differ in.
pub proof fn lemma_extracting_update(tasks: Seq<PackageTask>, k: int, after: PackageTask)
    requires
        0 <= k < tasks.len(),
    ensures
        extracting(tasks.update(k, after)) + (if tasks[k].stage() == Stage::Extracting {
            1int
        } else {
            0int
        }) == extracting(tasks) + (if after.stage() == Stage::Extracting {
            1int
        } else {
            0int
        }),
    decreases tasks.len(),
{
    let moved = tasks.update(k, after);
    if k == tasks.len() - 1 {
        assert(moved.drop_last() =~= tasks.drop_last());
    } else {
        lemma_extracting_update(tasks.drop_last(), k, after);
        assert(moved.drop_last() =~= tasks.drop_last().update(k, after));
        assert(moved.last() == tasks.last());
    }
}

/// A task that is fetching and extracting counts.
pub proof fn lemma_extracting_counts(tasks: Seq<PackageTask>, k: int)
    requires
        0 <= k < tasks.len(),
        tasks[k].stage() == Stage::Extracting,
    ensures
        extracting(tasks) >= 1,
    decreases tasks.len(),
{
    if k < tasks.len() - 1 {
        lemma_extracting_counts(tasks.drop_last(), k);
    }
}

/// Whatever task moves on, and whatever the event, the tasks that are
/// fetching and extracting are as many as there are permits out, and so
/// never more than the section allows.
pub proof fn lemma_downloads_are_bounded(
    tasks: Seq<PackageTask>,
    k: int,
    after: PackageTask,
    run_before: &InstallState,
    run_after: &InstallState,
    section_before: &Section,
    section_after_it: &Section,
    event: &Event,
    directive: &Directive,
)
    requires
        0 <= k < tasks.len(),
        section_after_it.wf(),
        extracting(tasks) == section_before.in_use(),
        tasks[k].follows(
            &after,
            run_before,
            run_after,
            section_before,
            section_after_it,
            event,
            directive,
        ),
    ensures
        extracting(tasks.update(k, after)) == section_after_it.in_use(),
        extracting(tasks.update(k, after)) <= section_after_it.capacity(),
{
    lemma_extracting_update(tasks, k, after);
    if tasks[k].stage() == Stage::Extracting {
        lemma_extracting_counts(tasks, k);
    }
}

/// A request that the lockfile settles never has the registry asked:
/// from its start to its end the task asks for nothing but the pinned
/// archive.
pub proof fn lemma_locked_request_asks_nothing(
    before: &PackageTask,
    after: &PackageTask,
    run_before: &InstallState,
    run_after: &InstallState,
    section_before: &Section,
    section_after_it: &Section,
    event: &Event,
    directive: &Directive,
)
    requires
        before.follows(
            after,
            run_before,
            run_after,
            section_before,
            section_after_it,
            event,
            directive,
        ),
        hits_lock(run_before.prior(), before.name(), before.constraint()),
        before.stage() == Stage::Start || before.stage() == Stage::Locked,
    ensures
        directive is FetchLocked || directive is Finished,
        after.stage() == Stage::Locked || after.stage() == Stage::Done,
        hits_lock(run_after.prior(), after.name(), after.constraint()),
        section_after_it.holders() == section_before.holders(),
        section_after_it.in_use() == section_before.in_use(),
{
}

/// The order of the steps: `preinstall` runs before the dependencies are
/// installed, `install` and `postinstall` run after all of them, in that
/// order, and the package is recorded last.
pub proof fn lemma_step_order(scripts: Map<Seq<char>, Seq<char>>, i: int, j: int)
    requires
        0 <= i < steps_for(scripts).len(),
        0 <= j < steps_for(scripts).len(),
    ensures
        steps_for(scripts)[i] == Step::Run(Hook::Preinstall) && steps_for(scripts)[j]
            == Step::Children ==> i < j,
        steps_for(scripts)[i] == Step::Children && (steps_for(scripts)[j] == Step::Run(
            Hook::Install,
        ) || steps_for(scripts)[j] == Step::Run(Hook::Postinstall)) ==> i < j,
        steps_for(scripts)[i] == Step::Run(Hook::Install) && steps_for(scripts)[j] == Step::Run(
            Hook::Postinstall,
        ) ==> i < j,
        steps_for(scripts)[j] == Step::Record ==> i <= j,
        steps_for(scripts)[i] == Step::Link ==> i <= j,
{
    let pre = seq![Hook::Preinstall];
    let late = seq![Hook::Install, Hook::Postinstall];
    assert(pre.drop_last() =~= Seq::<Hook>::empty());
    assert(late.drop_last() =~= seq![Hook::Install]);
    assert(seq![Hook::Install].drop_last() =~= Seq::<Hook>::empty());
    reveal_with_fuel(declared, 3);
}

/// Ends a task that stands at `stage` as failed: what it holds of the
/// section is given up, and the run lists the package as failed.
fn fail(name: &str, stage: Stage, shared: &mut InstallState, section: &mut Section)
    ensures
        run_ended(old(shared), final(shared), name@, Completion::Failed, arbitrary()),
        section_after(
            old(section),
            final(section),
            name@,
            stage == Stage::Resolving || stage == Stage::WaitingPermit || stage
                == Stage::Extracting,
            if stage == Stage::Extracting {
                1
            } else {
                0
            },
        ),
{
    match stage {
        Stage::Resolving => {
            section.unlock_name(name);
        },
        Stage::WaitingPermit => {
            section.unlock_name(name);
        },
        Stage::Extracting => {
            section.release_permit();
            section.unlock_name(name);
        },
        _ => {},
    }
    shared.complete(name, Outcome::Failed);
}

/// Asks for the hold on `name`.
fn ask_name(name: &str, section: &mut Section) -> (next: (Stage, Directive))
    ensures
        old(section).holds(name@) ==> next.0 == Stage::WaitingName && next.1
            == Directive::WaitForName && section_after(old(section), final(section), name@, false, 0),
        !old(section).holds(name@) ==> next.0 == Stage::Resolving && next.1 == Directive::Resolve
            && final(section).holders() == old(section).holders().push(name@)
            && final(section).in_use() == old(section).in_use() && final(section).capacity()
            == old(section).capacity(),
{
    if section.lock_name(name) {
        (Stage::Resolving, Directive::Resolve)
    } else {
        (Stage::WaitingName, Directive::WaitForName)
    }
}

/// Asks for a download permit for the version `resolved`.
fn ask_permit(resolved: &Resolved, section: &mut Section) -> (next: (Stage, Directive))
    ensures
        final(section).holders() == old(section).holders(),
        final(section).capacity() == old(section).capacity(),
        old(section).in_use() < old(section).capacity() ==> next.0 == Stage::Extracting
            && next.1.fetches(resolved) && final(section).in_use() == old(section).in_use() + 1,
        old(section).in_use() >= old(section).capacity() ==> next.0 == Stage::WaitingPermit
            && next.1 == Directive::WaitForPermit && final(section).in_use() == old(
            section,
        ).in_use(),
{
    if section.acquire_permit() {
        (
            Stage::Extracting,
            Directive::FetchExtract {
                version: resolved.version.clone(),
                tarball: resolved.tarball.clone(),
                shasum: resolved.shasum.clone(),
            },
        )
    } else {
        (Stage::WaitingPermit, Directive::WaitForPermit)
    }
}

/// Comes to the step at position `at` of the package `name`: gives the
/// directive for it, or, if it is the last step, has the package recorded.
fn come_to(
    name: &str,
    platform: Platform,
    resolved: &Resolved,
    manifest: &InstalledPackageJson,
    at: usize,
    shared: &mut InstallState,
) -> (next: (Option<TaskEnd>, Directive))
    requires
        at < steps_for(manifest.scripts@).len(),
    ensures
        steps_for(manifest.scripts@)[at as int] == Step::Record ==> {
            let record = record_for(resolved, manifest);
            let done = recording(old(shared), name@, record);
            &&& next.0 == Some(end_of(done))
            &&& next.1 == Directive::Finished(end_of(done))
            &&& run_ended(old(shared), final(shared), name@, done, record)
        },
        steps_for(manifest.scripts@)[at as int] != Step::Record ==> {
            &&& next.0 is None
            &&& next.1.performs(steps_for(manifest.scripts@)[at as int], name@, manifest, platform)
            &&& run_unchanged(old(shared), final(shared))
        },
{
    let mut plan = plan_package(name, manifest, platform);
    proof {
        lemma_plan_steps(plan@, name@, manifest, platform);
    }
    let ghost whole = plan@;
    let ghost scripts = manifest.scripts@;
    let ghost pre = hook_count(scripts, Hook::Preinstall);
    let ghost ins = hook_count(scripts, Hook::Install);
    let ghost post = hook_count(scripts, Hook::Postinstall);
    let action = plan.remove(at);
    assert(action == whole[at as int]);
    assert(step_of(&action) == steps_for(scripts)[at as int]);
    match action {
        Action::LinkBinaries(shims) => {
            assert(at == 0) by {
                if at as int == 1 + pre {
                    assert(whole[1 + pre].installs(manifest.dependencies.pairs()));
                } else if at as int == 2 + pre + ins + post {
                    assert(whole[2 + pre + ins + post].records(manifest.dependencies.pairs()));
                }
            }
            (None, Directive::Link(shims))
        },
        Action::RunHook(hook, script) => {
            assert(whole[at as int].runs(hook, scripts)) by {
                if at == 0 {
                    assert(whole[0].links(name@, &manifest.bin, platform));
                } else if at as int == 1 + pre {
                    assert(whole[1 + pre].installs(manifest.dependencies.pairs()));
                } else if at as int == 2 + pre + ins + post {
                    assert(whole[2 + pre + ins + post].records(manifest.dependencies.pairs()));
                }
            }
            (None, Directive::RunHook(hook, script))
        },
        Action::InstallDependencies(deps) => {
            assert(at as int == 1 + pre) by {
                if at == 0 {
                    assert(whole[0].links(name@, &manifest.bin, platform));
                } else if at as int == 2 + pre + ins + post {
                    assert(whole[2 + pre + ins + post].records(manifest.dependencies.pairs()));
                }
            }
            (None, Directive::InstallChildren(deps))
        },
        Action::Record(deps) => {
            assert(at as int == 2 + pre + ins + post) by {
                if at == 0 {
                    assert(whole[0].links(name@, &manifest.bin, platform));
                } else if at as int == 1 + pre {
                    assert(whole[1 + pre].installs(manifest.dependencies.pairs()));
                }
            }
            let outcome = Outcome::Installed {
                version: resolved.version.clone(),
                tarball: resolved.tarball.clone(),
                shasum: resolved.shasum.clone(),
                dependencies: deps,
            };
            assert(record_of(&outcome) == record_for(resolved, manifest));
            let done = shared.complete(name, outcome);
            let end = match done {
                Completion::Recorded => TaskEnd::Recorded,
                Completion::Kept => TaskEnd::Kept,
                Completion::Failed => TaskEnd::Failed,
            };
            (Some(end), Directive::Finished(end))
        },
    }
}

impl PackageTask {
    /// Takes the event `event` and says what is to be done next.
    ///
    /// The task moves on as `follows` says; the run and the section
    /// change with it. An event that the task's stage does not wait for,
    /// or one that reports a failure, ends the task as failed. A task
    /// that is over stays over.
    pub fn advance(&mut self, shared: &mut InstallState, section: &mut Section, event: Event) -> (directive:
        Directive)
        ensures
            old(self).follows(
                final(self),
                old(shared),
                final(shared),
                old(section),
                final(section),
                &event,
                &directive,
            ),
    {
        proof {
            use_type_invariant(&*self);
        }
        let mut taken = PackageTask::new("", None, self.platform);
        std::mem::swap(self, &mut taken);
        let PackageTask { name, constraint, platform, stage, resolved, manifest, at, end } = taken;
        let mut stage = stage;
        let mut resolved = resolved;
        let mut manifest = manifest;
        let mut at = at;
        let mut end = end;
        let directive = match (stage, event) {
            (Stage::Done, _) => {
                match end {
                    Some(e) => Directive::Finished(e),
                    None => Directive::Finished(TaskEnd::Failed),
                }
            },
            (Stage::Start, Event::Start) => {
                let asked = match &constraint {
                    Some(c) => Some(c.as_str()),
                    None => None,
                };
                match shared.begin(name.as_str(), asked) {
                    Begin::AlreadyVisited => {
                        stage = Stage::Done;
                        end = Some(TaskEnd::Skipped);
                        Directive::Finished(TaskEnd::Skipped)
                    },
                    Begin::UseLocked(record) => {
                        stage = Stage::Locked;
                        Directive::FetchLocked {
                            version: record.version,
                            tarball: record.tarball,
                            shasum: record.shasum,
                        }
                    },
                    Begin::Resolve => {
                        let next = ask_name(name.as_str(), section);
                        stage = next.0;
                        next.1
                    },
                }
            },
            (Stage::WaitingName, Event::Retry) => {
                let next = ask_name(name.as_str(), section);
                stage = next.0;
                next.1
            },
            (Stage::Locked, Event::Fetched(true)) => {
                let done = shared.complete(name.as_str(), Outcome::Locked);
                let e = match done {
                    Completion::Recorded => TaskEnd::Recorded,
                    Completion::Kept => TaskEnd::Kept,
                    Completion::Failed => TaskEnd::Failed,
                };
                stage = Stage::Done;
                end = Some(e);
                Directive::Finished(e)
            },
            (Stage::Resolving, Event::Resolved(Some(chosen))) => {
                let next = ask_permit(&chosen, section);
                stage = next.0;
                resolved = Some(chosen);
                next.1
            },
            (Stage::WaitingPermit, Event::Retry) => {
                let chosen = resolved.unwrap();
                let next = ask_permit(&chosen, section);
                stage = next.0;
                resolved = Some(chosen);
                next.1
            },
            (Stage::Extracting, Event::Extracted(true, read)) => {
                section.release_permit();
                section.unlock_name(name.as_str());
                let found = match read {
                    Some(m) => m,
                    None => InstalledPackageJson::empty(),
                };
                let chosen = resolved.unwrap();
                proof {
                    lemma_steps_shape(found.scripts@);
                }
                let next = come_to(name.as_str(), platform, &chosen, &found, 0, shared);
                resolved = Some(chosen);
                manifest = Some(found);
                at = 0;
                stage = Stage::Running;
                next.1
            },
            (Stage::Running, event) => {
                let chosen = resolved.unwrap();
                let found = manifest.unwrap();
                proof {
                    lemma_steps_shape(found.scripts@);
                }
                let fits = step_succeeded(&event, &found, at);
                let directive = if fits {
                    let next = come_to(name.as_str(), platform, &chosen, &found, at + 1, shared);
                    match next.0 {
                        Some(e) => {
                            stage = Stage::Done;
                            end = Some(e);
                        },
                        None => {
                            at = at + 1;
                        },
                    }
                    next.1
                } else {
                    fail(name.as_str(), Stage::Running, shared, section);
                    stage = Stage::Done;
                    end = Some(TaskEnd::Failed);
                    Directive::Finished(TaskEnd::Failed)
                };
                resolved = Some(chosen);
                manifest = Some(found);
                directive
            },
            (other, _) => {
                fail(name.as_str(), other, shared, section);
                stage = Stage::Done;
                end = Some(TaskEnd::Failed);
                Directive::Finished(TaskEnd::Failed)
            },
        };
        *self = PackageTask { name, constraint, platform, stage, resolved, manifest, at, end };
        directive
    }
}

/// Whether the event reports the success of the step at position `at`.
fn step_succeeded(event: &Event, manifest: &InstalledPackageJson, at: usize) -> (fits: bool)
    requires
        at + 1 < steps_for(manifest.scripts@).len(),
    ensures
        fits == succeeds(event, steps_for(manifest.scripts@)[at as int]),
{
    let pre: usize = if manifest.scripts.contains_key("preinstall") {
        1
    } else {
        0
    };
    let ins: usize = if manifest.scripts.contains_key("install") {
        1
    } else {
        0
    };
    proof {
        lemma_steps_shape(manifest.scripts@);
    }
    if at == 0 {
        match event {
            Event::Linked => true,
            _ => false,
        }
    } else if at == 1 + pre {
        match event {
            Event::ChildrenDone(ok) => *ok,
            _ => false,
        }
    } else {
        match event {
            Event::HookDone(ok) => *ok,
            _ => false,
        }
    }
}

/// Where each step stands: the launchers first, the dependencies after
/// `preinstall`, the record last, and scripts everywhere else.
pub proof fn lemma_steps_shape(scripts: Map<Seq<char>, Seq<char>>)
    ensures
        steps_for(scripts).len() == 3 + hook_count(scripts, Hook::Preinstall) + hook_count(
            scripts,
            Hook::Install,
        ) + hook_count(scripts, Hook::Postinstall),
        steps_for(scripts)[0] == Step::Link,
        steps_for(scripts)[1 + hook_count(scripts, Hook::Preinstall)] == Step::Children,
        steps_for(scripts).last() == Step::Record,
        forall|i: int|
            0 < i < steps_for(scripts).len() - 1 && i != 1 + hook_count(scripts, Hook::Preinstall)
                ==> #[trigger] steps_for(scripts)[i] is Run,
{
    let pre = seq![Hook::Preinstall];
    let late = seq![Hook::Install, Hook::Postinstall];
    assert(pre.drop_last() =~= Seq::<Hook>::empty());
    assert(late.drop_last() =~= seq![Hook::Install]);
    assert(seq![Hook::Install].drop_last() =~= Seq::<Hook>::empty());
    reveal_with_fuel(declared, 3);
}

} // verus!
