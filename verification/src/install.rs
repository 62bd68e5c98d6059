//! The decisions of one install run.
//!
//! An install run walks the dependency graph from the requested packages.
//! Fetching, extracting and running scripts is the caller's work; what to
//! do for a package, in which order, and what ends up in the lockfile is
//! decided here. The run keeps a snapshot of the lockfile it started from,
//! the lockfile it builds, the requests it has seen, the packages it is
//! working on and the packages that failed.

use crate::depmap::{DepMap, Pair};
use crate::linker::{link_binaries, links_of, PackageBin, Platform, Shim};
use crate::manifest::{closed_under_deps, CrabbyLock, LockDependency, LockRecord};
use crate::text::{contains_text, index_of_text, texts};
use vstd::prelude::*;

verus! {

/// The name of the registry tag that stands for "whatever is newest".
pub open spec fn latest_tag() -> Seq<char> {
    "latest"@
}

/// The constraint that a request asks for: its own, or the latest tag where it has none.
pub open spec fn wanted(constraint: Option<Seq<char>>) -> Seq<char> {
    match constraint {
        Some(c) => c,
        None => latest_tag(),
    }
}

/// The key under which a request is remembered during a run.
pub open spec fn visit_key(name: Seq<char>, constraint: Option<Seq<char>>) -> Seq<char> {
    name + seq!['@'] + wanted(constraint)
}

/// Whether the lockfile `prior` settles the request: it pins `name`, and
/// the request asks for nothing in particular, for the latest tag, or for
/// exactly the pinned version.
pub open spec fn hits_lock(
    prior: Map<Seq<char>, LockRecord>,
    name: Seq<char>,
    constraint: Option<Seq<char>>,
) -> bool {
    prior.dom().contains(name) && (constraint is None || constraint->0 == latest_tag()
        || constraint->0 == prior[name].version)
}

/// `list` without the first occurrence of `x`.
pub open spec fn without_first(list: Seq<Seq<char>>, x: Seq<char>) -> Seq<Seq<char>>
    decreases list.len(),
{
    if list.len() == 0 {
        list
    } else if list[0] == x {
        list.drop_first()
    } else {
        seq![list[0]] + without_first(list.drop_first(), x)
    }
}

/// Taking out the first occurrence is taking out the position where it stands.
pub proof fn lemma_without_first(list: Seq<Seq<char>>, x: Seq<char>, i: int)
    requires
        0 <= i < list.len(),
        list[i] == x,
        forall|j: int| 0 <= j < i ==> list[j] != x,
    ensures
        without_first(list, x) == list.remove(i),
    decreases list.len(),
{
    if i == 0 {
        assert(list.drop_first() =~= list.remove(0));
    } else {
        let rest = list.drop_first();
        assert forall|j: int| 0 <= j < i - 1 implies rest[j] != x by {
            assert(rest[j] == list[j + 1]);
        }
        lemma_without_first(rest, x, i - 1);
        assert(seq![list[0]] + rest.remove(i - 1) =~= list.remove(i));
    }
}

/// A list that does not hold `x` is left as it is.
pub proof fn lemma_without_first_absent(list: Seq<Seq<char>>, x: Seq<char>)
    requires
        !list.contains(x),
    ensures
        without_first(list, x) == list,
    decreases list.len(),
{
    if list.len() > 0 {
        assert(list.contains(list[0]));
        let rest = list.drop_first();
        if rest.contains(x) {
            let j = choose|j: int| 0 <= j < rest.len() && rest[j] == x;
            assert(list[j + 1] == x);
            assert(list.contains(x));
        }
        lemma_without_first_absent(rest, x);
        assert(seq![list[0]] + rest =~= list);
    }
}

/// Taking out the first occurrence of `x` neither adds nor loses another name.
pub proof fn lemma_without_first_others(list: Seq<Seq<char>>, x: Seq<char>, y: Seq<char>)
    requires
        y != x,
    ensures
        without_first(list, x).contains(y) == list.contains(y),
    decreases list.len(),
{
    if list.len() > 0 {
        let rest = list.drop_first();
        lemma_without_first_others(rest, x, y);
        let out = without_first(list, x);
        if list.contains(y) {
            let j = choose|j: int| 0 <= j < list.len() && list[j] == y;
            if j == 0 {
                assert(out[0] == y);
            } else {
                assert(rest[j - 1] == y);
                assert(rest.contains(y));
                if list[0] == x {
                } else {
                    let k = choose|k: int|
                        0 <= k < without_first(rest, x).len() && without_first(rest, x)[k] == y;
                    assert(out[k + 1] == y);
                }
            }
        }
        if out.contains(y) {
            let k = choose|k: int| 0 <= k < out.len() && out[k] == y;
            if list[0] == x {
                assert(list[k + 1] == y);
            } else if k == 0 {
                assert(list[0] == y);
            } else {
                assert(without_first(rest, x)[k - 1] == y);
                assert(without_first(rest, x).contains(y));
                let j = choose|j: int| 0 <= j < rest.len() && rest[j] == y;
                assert(list[j + 1] == y);
            }
        }
    }
}

/// What a package that has been extracted says of itself.
pub struct InstalledPackageJson {
    pub dependencies: DepMap,
    pub scripts: DepMap,
    pub bin: PackageBin,
}

impl InstalledPackageJson {
    /// What stands in for a manifest that is missing or cannot be read:
    /// no dependencies, no scripts, no executables.
    pub fn empty() -> (m: InstalledPackageJson)
        ensures
            m.dependencies.pairs() == Seq::<Pair>::empty(),
            m.scripts@ == Map::<Seq<char>, Seq<char>>::empty(),
            m.bin is Absent,
    {
        InstalledPackageJson {
            dependencies: DepMap::new(),
            scripts: DepMap::new(),
            bin: PackageBin::Absent,
        }
    }
}

/// A script that a package may declare for a point of its installation.
#[derive(Clone, Copy, PartialEq, Eq, Structural, Debug)]
pub enum Hook {
    Preinstall,
    Install,
    Postinstall,
}

/// The name under which a manifest declares the script for `hook`.
pub open spec fn hook_name(hook: Hook) -> Seq<char> {
    match hook {
        Hook::Preinstall => "preinstall"@,
        Hook::Install => "install"@,
        Hook::Postinstall => "postinstall"@,
    }
}

/// One thing to do for a package that has been extracted.
pub enum Action {
    /// Write these launchers into the binary directory. A failure is
    /// reported and does not stop the installation.
    LinkBinaries(Vec<Shim>),
    /// Run this script of the package in the package's directory.
    RunHook(Hook, String),
    /// Install these dependencies, and wait until each has succeeded or failed.
    InstallDependencies(DepMap),
    /// Enter the package into the lockfile with these dependencies.
    Record(DepMap),
}

impl Action {
    /// This action runs the script that `scripts` declares for `hook`.
    pub open spec fn runs(&self, hook: Hook, scripts: Map<Seq<char>, Seq<char>>) -> bool {
        self matches Action::RunHook(h, script) && h == hook && scripts.dom().contains(
            hook_name(hook),
        ) && script@ == scripts[hook_name(hook)]
    }

    /// This action links the executables that `bin` declares for the package `name`.
    pub open spec fn links(&self, name: Seq<char>, bin: &PackageBin, platform: Platform) -> bool {
        self matches Action::LinkBinaries(shims) && shims.len() == links_of(name, bin).len()
            && forall|i: int|
            0 <= i < shims.len() ==> (#[trigger] shims[i]).launches(
                name,
                links_of(name, bin)[i],
                platform,
            )
    }

    /// This action installs the dependencies `deps`.
    pub open spec fn installs(&self, deps: Seq<Pair>) -> bool {
        self matches Action::InstallDependencies(d) && d.pairs() == deps
    }

    /// This action records the package with the dependencies `deps`.
    pub open spec fn records(&self, deps: Seq<Pair>) -> bool {
        self matches Action::Record(d) && d.pairs() == deps
    }
}

/// Zero or one: whether `scripts` declares a script for `hook`.
pub open spec fn hook_count(scripts: Map<Seq<char>, Seq<char>>, hook: Hook) -> int {
    if scripts.dom().contains(hook_name(hook)) {
        1
    } else {
        0
    }
}

/// `plan` is what is to be done, in this order, for the package `name`
/// with the manifest `manifest`: link the executables, run `preinstall`
/// if declared, install the dependencies, run `install` and then
/// `postinstall` if declared, and record the package.
pub open spec fn is_plan_for(
    plan: Seq<Action>,
    name: Seq<char>,
    manifest: &InstalledPackageJson,
    platform: Platform,
) -> bool {
    let scripts = manifest.scripts@;
    let pre = hook_count(scripts, Hook::Preinstall);
    let ins = hook_count(scripts, Hook::Install);
    let post = hook_count(scripts, Hook::Postinstall);
    &&& plan.len() == 3 + pre + ins + post
    &&& plan[0].links(name, &manifest.bin, platform)
    &&& pre == 1 ==> plan[1].runs(Hook::Preinstall, scripts)
    &&& plan[1 + pre].installs(manifest.dependencies.pairs())
    &&& ins == 1 ==> plan[2 + pre].runs(Hook::Install, scripts)
    &&& post == 1 ==> plan[2 + pre + ins].runs(Hook::Postinstall, scripts)
    &&& plan[2 + pre + ins + post].records(manifest.dependencies.pairs())
}

/// What is to be done, in order, for the package `name` once it has been
/// extracted and its manifest has been read. Where the manifest is
/// missing or could not be read, the caller passes the empty one.
pub fn plan_package(name: &str, manifest: &InstalledPackageJson, platform: Platform) -> (plan: Vec<
    Action,
>)
    ensures
        is_plan_for(plan@, name@, manifest, platform),
{
    let mut plan: Vec<Action> = Vec::new();
    plan.push(Action::LinkBinaries(link_binaries(name, &manifest.bin, platform)));
    match manifest.scripts.get("preinstall") {
        Some(script) => {
            plan.push(Action::RunHook(Hook::Preinstall, script.clone()));
        },
        None => {},
    }
    plan.push(Action::InstallDependencies(manifest.dependencies.clone()));
    match manifest.scripts.get("install") {
        Some(script) => {
            plan.push(Action::RunHook(Hook::Install, script.clone()));
        },
        None => {},
    }
    match manifest.scripts.get("postinstall") {
        Some(script) => {
            plan.push(Action::RunHook(Hook::Postinstall, script.clone()));
        },
        None => {},
    }
    plan.push(Action::Record(manifest.dependencies.clone()));
    plan
}

/// How a request starts.
pub enum Begin {
    /// The same request was seen before in this run: nothing is to be done.
    AlreadyVisited,
    /// The lockfile settles the request: fetch and extract the pinned
    /// archive, and ask the registry nothing.
    UseLocked(LockDependency),
    /// The registry has to be asked which version meets the request.
    Resolve,
}

/// How the work on a package ended.
pub enum Outcome {
    /// The archive that the lockfile pins was fetched and extracted.
    Locked,
    /// The package was resolved to `version`, fetched from `tarball` with
    /// the registry's content hash `shasum`, and extracted; its scripts
    /// ran, and every dependency it declares has come to an end.
    Installed { version: String, tarball: String, shasum: String, dependencies: DepMap },
    /// Something went wrong.
    Failed,
}

/// What the run made of the end of a package.
#[derive(Clone, Copy, PartialEq, Eq, Structural, Debug)]
pub enum Completion {
    /// The package was entered into the lockfile.
    Recorded,
    /// The package keeps the entry it had in the lockfile.
    Kept,
    /// The package counts as failed, and the lockfile is as before.
    Failed,
}

/// The packages that an install run could not install.
pub struct InstallError {
    pub failed: Vec<String>,
}

impl InstallError {
    /// A sentence that names each failed package.
    pub fn message(&self) -> (text: String)
        ensures
            text@ == failure_text(texts(self.failed@)),
    {
        let mut text = String::from_str("failed to install:");
        let mut i: usize = 0;
        assert(texts(self.failed@).take(0) =~= Seq::<Seq<char>>::empty());
        while i < self.failed.len()
            invariant
                i <= self.failed.len(),
                text@ == failure_text(texts(self.failed@).take(i as int)),
            decreases self.failed.len() - i,
        {
            proof {
                let next = texts(self.failed@).take(i as int + 1);
                assert(next.drop_last() =~= texts(self.failed@).take(i as int));
                assert(next.last() == self.failed[i as int]@);
            }
            text.append(" ");
            text.append(self.failed[i].as_str());
            i += 1;
        }
        assert(texts(self.failed@).take(self.failed.len() as int) =~= texts(self.failed@));
        text
    }
}

/// The sentence that names the failed packages `names`.
pub open spec fn failure_text(names: Seq<Seq<char>>) -> Seq<char>
    decreases names.len(),
{
    if names.len() == 0 {
        "failed to install:"@
    } else {
        failure_text(names.drop_last()) + " "@ + names.last()
    }
}

/// Whether the name `dep` is accounted for: it has an entry in the
/// lockfile `updated`, or a task is working on it, or it has failed.
pub open spec fn settled(
    dep: Seq<char>,
    updated: Map<Seq<char>, LockRecord>,
    active: Seq<Seq<char>>,
    failures: Seq<Seq<char>>,
) -> bool {
    updated.dom().contains(dep) || active.contains(dep) || failures.contains(dep)
}

/// Whether every name that `deps` lists is accounted for.
pub open spec fn all_settled(
    deps: Seq<Pair>,
    updated: Map<Seq<char>, LockRecord>,
    active: Seq<Seq<char>>,
    failures: Seq<Seq<char>>,
) -> bool {
    forall|i: int| 0 <= i < deps.len() ==> settled(#[trigger] deps[i].0, updated, active, failures)
}

/// The lock record that an `Installed` outcome asks to enter.
pub open spec fn record_of(outcome: &Outcome) -> LockRecord {
    LockRecord {
        version: outcome->version@,
        tarball: outcome->tarball@,
        shasum: outcome->shasum@,
        dependencies: outcome->dependencies.pairs(),
    }
}

/// The state of one install run.
pub struct InstallState {
    prior: CrabbyLock,
    updated: CrabbyLock,
    visited: Vec<String>,
    active: Vec<String>,
    failures: Vec<String>,
}

impl InstallState {
    /// The lockfile that the run started from.
    pub closed spec fn prior(&self) -> Map<Seq<char>, LockRecord> {
        self.prior@
    }

    /// The lockfile that the run has built so far.
    pub closed spec fn updated(&self) -> Map<Seq<char>, LockRecord> {
        self.updated@
    }

    /// The keys of the requests seen so far, oldest first.
    pub closed spec fn visited(&self) -> Seq<Seq<char>> {
        texts(self.visited@)
    }

    /// The names of the packages that are being worked on. A name stands
    /// here once for each task that works on it.
    pub closed spec fn active(&self) -> Seq<Seq<char>> {
        texts(self.active@)
    }

    /// The names of the packages that failed, in the order in which they failed.
    pub closed spec fn failures(&self) -> Seq<Seq<char>> {
        texts(self.failures@)
    }

    /// The entry of `name` is the one the run started from, or every name
    /// it lists as a dependency is accounted for.
    pub open spec fn entry_sound(&self, name: Seq<char>) -> bool {
        ||| self.prior().dom().contains(name) && self.prior()[name] == self.updated()[name]
        ||| all_settled(
            self.updated()[name].dependencies,
            self.updated(),
            self.active(),
            self.failures(),
        )
    }

    /// Nothing that the run started from is lost, and every entry is sound.
    #[verifier::type_invariant]
    pub open spec fn wf(&self) -> bool {
        &&& self.prior().dom().subset_of(self.updated().dom())
        &&& forall|name: Seq<char>| #[trigger]
            self.updated().dom().contains(name) ==> self.entry_sound(name)
    }

    /// Once no task is at work and nothing has failed, the lockfile is
    /// closed under dependencies, provided the one the run started from was.
    pub proof fn lemma_closed_when_done(&self)
        requires
            self.wf(),
            self.active().len() == 0,
            self.failures().len() == 0,
            closed_under_deps(self.prior()),
        ensures
            closed_under_deps(self.updated()),
    {
        let lock = self.updated();
        assert forall|name: Seq<char>, i: int|
            lock.dom().contains(name) && 0 <= i < lock[name].dependencies.len() implies lock.dom().contains(
        #[trigger] lock[name].dependencies[i].0) by {
            assert(self.entry_sound(name));
            let dep = lock[name].dependencies[i].0;
            if self.prior().dom().contains(name) && self.prior()[name] == lock[name] {
                assert(self.prior().dom().contains(self.prior()[name].dependencies[i].0));
            } else {
                assert(settled(dep, lock, self.active(), self.failures()));
            }
        }
    }

    /// A run that starts from the lockfile `prior`.
    pub fn new(prior: CrabbyLock) -> (state: InstallState)
        ensures
            state.prior() == prior@,
            state.updated() == prior@,
            state.visited() == Seq::<Seq<char>>::empty(),
            state.active() == Seq::<Seq<char>>::empty(),
            state.failures() == Seq::<Seq<char>>::empty(),
    {
        let updated = prior.clone();
        let state = InstallState {
            prior,
            updated,
            visited: Vec::new(),
            active: Vec::new(),
            failures: Vec::new(),
        };
        assert(state.visited() =~= Seq::<Seq<char>>::empty());
        assert(state.active() =~= Seq::<Seq<char>>::empty());
        assert(state.failures() =~= Seq::<Seq<char>>::empty());
        state
    }

    /// The lockfile that the run has built so far.
    pub fn lockfile(&self) -> (lock: &CrabbyLock)
        ensures
            lock@ == self.updated(),
    {
        &self.updated
    }

    /// The names of the packages that failed so far.
    pub fn failed(&self) -> (names: &Vec<String>)
        ensures
            texts(names@) == self.failures(),
    {
        &self.failures
    }

    /// Whether the request for `name` under `constraint` was seen before in this run.
    pub fn was_visited(&self, name: &str, constraint: Option<&str>) -> (seen: bool)
        ensures
            seen == self.visited().contains(visit_key(name@, view_of(constraint))),
    {
        let key = make_visit_key(name, constraint);
        contains_text(&self.visited, key.as_str())
    }

    /// Starts the request for `name` under `constraint`.
    ///
    /// A request seen before changes nothing. A new one is remembered and
    /// its package counts as being worked on; the lockfile that the run
    /// started from then decides whether the registry must be asked.
    pub fn begin(&mut self, name: &str, constraint: Option<&str>) -> (begin: Begin)
        ensures
            final(self).prior() == old(self).prior(),
            final(self).updated() == old(self).updated(),
            final(self).failures() == old(self).failures(),
            begin is AlreadyVisited <==> old(self).visited().contains(
                visit_key(name@, view_of(constraint)),
            ),
            begin is AlreadyVisited ==> final(self).visited() == old(self).visited()
                && final(self).active() == old(self).active(),
            !(begin is AlreadyVisited) ==> final(self).visited() == old(self).visited().push(
                visit_key(name@, view_of(constraint)),
            ) && final(self).active() == old(self).active().push(name@),
            begin is UseLocked ==> hits_lock(old(self).prior(), name@, view_of(constraint)),
            begin is Resolve ==> !hits_lock(old(self).prior(), name@, view_of(constraint)),
            begin matches Begin::UseLocked(record) ==> record@ == old(self).prior()[name@],
    {
        proof {
            use_type_invariant(&*self);
        }
        let key = make_visit_key(name, constraint);
        if contains_text(&self.visited, key.as_str()) {
            return Begin::AlreadyVisited;
        }
        let hit = match self.prior.dependencies.get(name) {
            Some(record) => {
                let uses_lock = match constraint {
                    Some(c) => {
                        let asked = String::from_str(c);
                        asked == String::from_str("latest") || asked == record.version
                    },
                    None => true,
                };
                if uses_lock {
                    Some(record.clone())
                } else {
                    None
                }
            },
            None => None,
        };
        let mut taken = InstallState::new(CrabbyLock::new());
        std::mem::swap(self, &mut taken);
        let InstallState { prior, updated, visited, active, failures } = taken;
        let mut visited = visited;
        let mut active = active;
        let ghost visited_before = texts(visited@);
        let ghost active_before = texts(active@);
        visited.push(key);
        active.push(String::from_str(name));
        proof {
            assert(texts(visited@) =~= visited_before.push(visit_key(name@, view_of(constraint))));
            assert(texts(active@) =~= active_before.push(name@));
            assert forall|n: Seq<char>| #[trigger] updated@.dom().contains(n) implies ({
                ||| prior@.dom().contains(n) && prior@[n] == updated@[n]
                ||| all_settled(
                    updated@[n].dependencies,
                    updated@,
                    texts(active@),
                    texts(failures@),
                )
            }) by {
                assert(old(self).entry_sound(n));
                if !(prior@.dom().contains(n) && prior@[n] == updated@[n]) {
                    let deps = updated@[n].dependencies;
                    assert forall|i: int| 0 <= i < deps.len() implies settled(
                        #[trigger] deps[i].0,
                        updated@,
                        texts(active@),
                        texts(failures@),
                    ) by {
                        assert(settled(deps[i].0, updated@, active_before, texts(failures@)));
                        if active_before.contains(deps[i].0) {
                            let j = choose|j: int|
                                0 <= j < active_before.len() && active_before[j] == deps[i].0;
                            assert(texts(active@)[j] == deps[i].0);
                        }
                    }
                }
            }
        }
        *self = InstallState { prior, updated, visited, active, failures };
        match hit {
            Some(record) => Begin::UseLocked(record),
            None => Begin::Resolve,
        }
    }

    /// What the run makes of the end of the package `name` with `outcome`.
    ///
    /// A locked package keeps its entry if the run started with one. An
    /// installed package is recorded if every dependency it lists is
    /// accounted for, counting the package itself. Everything else fails.
    pub open spec fn completion_of(&self, name: Seq<char>, outcome: &Outcome) -> Completion {
        match outcome {
            Outcome::Locked => if self.prior().dom().contains(name) {
                Completion::Kept
            } else {
                Completion::Failed
            },
            Outcome::Installed { .. } => if all_settled(
                outcome->dependencies.pairs(),
                self.updated().insert(name, record_of(outcome)),
                without_first(self.active(), name),
                self.failures(),
            ) {
                Completion::Recorded
            } else {
                Completion::Failed
            },
            Outcome::Failed => Completion::Failed,
        }
    }

    /// Ends the work of one task on the package `name`.
    ///
    /// The package no longer counts as being worked on by that task. It is
    /// recorded, keeps its entry, or is listed as failed, as
    /// `completion_of` says; a failed package leaves the lockfile as it was.
    pub fn complete(&mut self, name: &str, outcome: Outcome) -> (done: Completion)
        ensures
            done == old(self).completion_of(name@, &outcome),
            final(self).prior() == old(self).prior(),
            final(self).visited() == old(self).visited(),
            final(self).active() == without_first(old(self).active(), name@),
            final(self).updated() == if done == Completion::Recorded {
                old(self).updated().insert(name@, record_of(&outcome))
            } else {
                old(self).updated()
            },
            final(self).failures() == if done == Completion::Failed {
                old(self).failures().push(name@)
            } else {
                old(self).failures()
            },
    {
        proof {
            use_type_invariant(&*self);
        }
        let mut taken = InstallState::new(CrabbyLock::new());
        std::mem::swap(self, &mut taken);
        let InstallState { prior, updated, visited, active, failures } = taken;
        let mut updated = updated;
        let mut active = active;
        let mut failures = failures;
        let ghost updated_before = updated@;
        let ghost active_before = texts(active@);
        let ghost failures_before = texts(failures@);
        match index_of_text(&active, name) {
            Some(i) => {
                active.remove(i);
                proof {
                    lemma_without_first(active_before, name@, i as int);
                    assert(texts(active@) =~= active_before.remove(i as int));
                }
            },
            None => {
                proof {
                    lemma_without_first_absent(active_before, name@);
                }
            },
        }
        let ghost active_after = texts(active@);
        let done = match outcome {
            Outcome::Locked => {
                if prior.dependencies.contains_key(name) {
                    Completion::Kept
                } else {
                    Completion::Failed
                }
            },
            Outcome::Installed { version, tarball, shasum, dependencies } => {
                let ghost record = LockRecord {
                    version: version@,
                    tarball: tarball@,
                    shasum: shasum@,
                    dependencies: dependencies.pairs(),
                };
                let ghost deps = dependencies.pairs();
                let ghost target = updated_before.insert(name@, record);
                let mut accounted = true;
                let mut i: usize = 0;
                while i < dependencies.len() && accounted
                    invariant
                        i <= deps.len(),
                        deps == dependencies.pairs(),
                        updated@ == updated_before,
                        target == updated_before.insert(name@, record),
                        active_after == texts(active@),
                        failures_before == texts(failures@),
                        accounted ==> forall|j: int|
                            0 <= j < i ==> settled(
                                #[trigger] deps[j].0,
                                target,
                                active_after,
                                failures_before,
                            ),
                        !accounted ==> !all_settled(deps, target, active_after, failures_before),
                    decreases deps.len() - i + if accounted { 1int } else { 0int },
                {
                    let dep = dependencies.key_at(i);
                    let ok = *dep == String::from_str(name) || updated.dependencies.contains_key(
                        dep.as_str(),
                    ) || contains_text(&active, dep.as_str()) || contains_text(
                        &failures,
                        dep.as_str(),
                    );
                    if ok {
                        i += 1;
                    } else {
                        accounted = false;
                    }
                }
                if accounted {
                    updated.add_package(
                        String::from_str(name),
                        version,
                        tarball,
                        shasum,
                        dependencies,
                    );
                    Completion::Recorded
                } else {
                    Completion::Failed
                }
            },
            Outcome::Failed => Completion::Failed,
        };
        if done == Completion::Failed {
            failures.push(String::from_str(name));
            assert(texts(failures@) =~= failures_before.push(name@));
        }
        proof {
            let failures_after = texts(failures@);
            assert forall|n: Seq<char>| #[trigger] updated@.dom().contains(n) implies ({
                ||| prior@.dom().contains(n) && prior@[n] == updated@[n]
                ||| all_settled(updated@[n].dependencies, updated@, active_after, failures_after)
            }) by {
                if done == Completion::Recorded && n == name@ {
                    let deps = updated@[n].dependencies;
                    assert forall|i: int| 0 <= i < deps.len() implies settled(
                        #[trigger] deps[i].0,
                        updated@,
                        active_after,
                        failures_after,
                    ) by {}
                } else {
                    assert(updated_before.dom().contains(n));
                    assert(old(self).entry_sound(n));
                    assert(updated@[n] == updated_before[n]);
                    if !(prior@.dom().contains(n) && prior@[n] == updated@[n]) {
                        let deps = updated@[n].dependencies;
                        assert forall|i: int| 0 <= i < deps.len() implies settled(
                            #[trigger] deps[i].0,
                            updated@,
                            active_after,
                            failures_after,
                        ) by {
                            let dep = deps[i].0;
                            assert(settled(dep, updated_before, active_before, failures_before));
                            if updated_before.dom().contains(dep) {
                            } else if failures_before.contains(dep) {
                                let j = choose|j: int|
                                    0 <= j < failures_before.len() && failures_before[j] == dep;
                                assert(failures_after[j] == dep);
                            } else if dep != name@ {
                                lemma_without_first_others(active_before, name@, dep);
                            } else {
                                match done {
                                    Completion::Recorded => {},
                                    Completion::Kept => {},
                                    Completion::Failed => {
                                        assert(failures_after[failures_before.len() as int]
                                            == name@);
                                    },
                                }
                            }
                        }
                    }
                }
            }
        }
        *self = InstallState { prior, updated, visited, active, failures };
        done
    }

    /// Ends the run.
    ///
    /// The run has succeeded when nothing failed and no task is still at
    /// work; the result is then the lockfile that was built. Otherwise the
    /// error names the failed packages, then those still being worked on.
    pub fn finish(self) -> (result: Result<CrabbyLock, InstallError>)
        ensures
            result is Ok <==> self.failures().len() == 0 && self.active().len() == 0,
            result matches Ok(lock) ==> lock@ == self.updated() && (closed_under_deps(self.prior())
                ==> closed_under_deps(lock@)),
            result matches Err(e) ==> texts(e.failed@) == self.failures() + self.active(),
    {
        proof {
            use_type_invariant(&self);
            if self.failures().len() == 0 && self.active().len() == 0 && closed_under_deps(
                self.prior(),
            ) {
                self.lemma_closed_when_done();
            }
        }
        let InstallState { prior, updated, visited, active, failures } = self;
        if failures.len() == 0 && active.len() == 0 {
            Ok(updated)
        } else {
            let mut failed = failures;
            let ghost failed_before = texts(failed@);
            let mut i: usize = 0;
            while i < active.len()
                invariant
                    i <= active.len(),
                    failed.len() == failed_before.len() + i,
                    forall|j: int| 0 <= j < failed_before.len() ==> failed[j]@ == failed_before[j],
                    forall|j: int|
                        0 <= j < i ==> failed[failed_before.len() + j]@ == active[j]@,
                decreases active.len() - i,
            {
                failed.push(active[i].clone());
                i += 1;
            }
            assert(texts(failed@) =~= failed_before + texts(active@));
            Err(InstallError { failed })
        }
    }
}

/// The lockfile after the completions `steps`, oldest first: each step
/// names a package and, where the package was recorded, its record.
pub open spec fn after_completions(
    lock: Map<Seq<char>, LockRecord>,
    steps: Seq<(Seq<char>, Option<LockRecord>)>,
) -> Map<Seq<char>, LockRecord>
    decreases steps.len(),
{
    if steps.len() == 0 {
        lock
    } else {
        let before = after_completions(lock, steps.drop_last());
        match steps.last().1 {
            Some(record) => before.insert(steps.last().0, record),
            None => before,
        }
    }
}

/// A run that records nothing but what the lockfile it started from
/// already holds leaves that lockfile as it is. So when nothing has
/// changed outside, running an installation a second time gives the
/// lockfile of the first.
pub proof fn lemma_rerun_keeps_lockfile(
    lock: Map<Seq<char>, LockRecord>,
    steps: Seq<(Seq<char>, Option<LockRecord>)>,
)
    requires
        forall|i: int|
            0 <= i < steps.len() && (#[trigger] steps[i]).1 is Some ==> lock.dom().contains(
                steps[i].0,
            ) && lock[steps[i].0] == steps[i].1->0,
    ensures
        after_completions(lock, steps) == lock,
    decreases steps.len(),
{
    if steps.len() > 0 {
        let front = steps.drop_last();
        assert forall|i: int|
            0 <= i < front.len() && (#[trigger] front[i]).1 is Some implies lock.dom().contains(
            front[i].0,
        ) && lock[front[i].0] == front[i].1->0 by {
            assert(front[i] == steps[i]);
        }
        lemma_rerun_keeps_lockfile(lock, front);
        let last = steps[steps.len() - 1];
        if last.1 is Some {
            assert(lock.insert(last.0, last.1->0) =~= lock);
        }
    }
}

/// The constraint as a character sequence, if there is one.
pub open spec fn view_of(constraint: Option<&str>) -> Option<Seq<char>> {
    match constraint {
        Some(c) => Some(c@),
        None => None,
    }
}

/// The key under which the request for `name` under `constraint` is remembered.
pub fn make_visit_key(name: &str, constraint: Option<&str>) -> (key: String)
    ensures
        key@ == visit_key(name@, view_of(constraint)),
{
    let mut key = String::from_str(name);
    proof {
        reveal_strlit("@");
    }
    key.append("@");
    assert("@"@ =~= seq!['@']);
    match constraint {
        Some(c) => key.append(c),
        None => key.append("latest"),
    }
    key
}

} // verus!
