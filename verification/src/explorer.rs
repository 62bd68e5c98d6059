//! Why a package is installed.
//!
//! The answer is a list of paths through the lockfile graph, each from a
//! dependency of the project down to the package in question. A path
//! never visits a name twice, so cycles in the graph end the search, and
//! a path is not followed beyond a fixed number of steps.

use crate::manifest::{CrabbyLock, PackageJson};
use crate::depmap::Pair;
use crate::prune::{edge, is_walk, Graph};
use crate::text::{contains_text, copy_texts, texts};
use vstd::prelude::*;

verus! {

/// The number of steps that a path may take from a dependency of the project.
pub const MAX_STEPS: usize = 10;

/// The paths that lead to `target` from `current`, the last name of
/// `path`, in at most `steps` more steps, in the order of the search: the
/// dependencies of `current` are tried in the order in which its record
/// lists them, and each is followed before the next is tried.
pub open spec fn search_from(
    graph: Graph,
    current: Seq<char>,
    target: Seq<char>,
    path: Seq<Seq<char>>,
    steps: nat,
) -> Seq<Seq<Seq<char>>>
    decreases steps, 0nat,
{
    if steps == 0 || !graph.dom().contains(current) {
        Seq::empty()
    } else {
        search_deps(
            graph,
            graph[current].dependencies,
            graph[current].dependencies.len(),
            target,
            path,
            (steps - 1) as nat,
        )
    }
}

/// The paths that lead to `target` through one of the first `n` names of
/// `deps`, which continue `path`, in at most `steps` steps after that
/// name. A name that `path` already holds is passed over; the target ends
/// a path; any other name is searched from.
pub open spec fn search_deps(
    graph: Graph,
    deps: Seq<Pair>,
    n: nat,
    target: Seq<char>,
    path: Seq<Seq<char>>,
    steps: nat,
) -> Seq<Seq<Seq<char>>>
    decreases steps, 1 + n,
{
    if n == 0 {
        Seq::empty()
    } else {
        let before = search_deps(graph, deps, (n - 1) as nat, target, path, steps);
        let dep = deps[n - 1].0;
        if path.contains(dep) {
            before
        } else if dep == target {
            before.push(path.push(dep))
        } else {
            before + search_from(graph, dep, target, path.push(dep), steps)
        }
    }
}

/// No name occurs twice in `path`.
pub open spec fn simple(path: Seq<Seq<char>>) -> bool {
    forall|i: int, j: int| 0 <= i < j < path.len() ==> path[i] != path[j]
}

/// `found` continues `path` along edges of the graph, ends at `target`,
/// visits no name twice, and takes at most `steps` steps more than `path`.
pub open spec fn leads_on(
    graph: Graph,
    found: Seq<Seq<char>>,
    path: Seq<Seq<char>>,
    target: Seq<char>,
    steps: nat,
) -> bool {
    &&& path.len() < found.len() <= path.len() + steps
    &&& found.take(path.len() as int) == path
    &&& is_walk(graph, found)
    &&& simple(found)
    &&& found.last() == target
}

/// Every path that the search from `current` lists continues `path` to the target.
pub proof fn lemma_search_from_leads_on(
    graph: Graph,
    current: Seq<char>,
    target: Seq<char>,
    path: Seq<Seq<char>>,
    steps: nat,
)
    requires
        is_walk(graph, path),
        simple(path),
        path.last() == current,
    ensures
        forall|k: int|
            0 <= k < search_from(graph, current, target, path, steps).len() ==> leads_on(
                graph,
                #[trigger] search_from(graph, current, target, path, steps)[k],
                path,
                target,
                steps,
            ),
    decreases steps, 0nat,
{
    if steps > 0 && graph.dom().contains(current) {
        let deps = graph[current].dependencies;
        let left = (steps - 1) as nat;
        lemma_search_deps_leads_on(graph, current, deps.len(), target, path, left);
        let found = search_from(graph, current, target, path, steps);
        assert(found == search_deps(graph, deps, deps.len(), target, path, left));
        assert forall|k: int| 0 <= k < found.len() implies leads_on(
            graph,
            #[trigger] found[k],
            path,
            target,
            steps,
        ) by {
            assert(leads_on(
                graph,
                search_deps(graph, deps, deps.len(), target, path, left)[k],
                path,
                target,
                left + 1,
            ));
        }
    }
}

/// Every path that the search through the first `n` dependencies of
/// `current` lists continues `path` to the target.
pub proof fn lemma_search_deps_leads_on(
    graph: Graph,
    current: Seq<char>,
    n: nat,
    target: Seq<char>,
    path: Seq<Seq<char>>,
    steps: nat,
)
    requires
        is_walk(graph, path),
        simple(path),
        path.last() == current,
        graph.dom().contains(current),
        n <= graph[current].dependencies.len(),
    ensures
        forall|k: int|
            0 <= k < search_deps(graph, graph[current].dependencies, n, target, path, steps).len()
                ==> leads_on(
                graph,
                #[trigger] search_deps(graph, graph[current].dependencies, n, target, path, steps)[k],
                path,
                target,
                steps + 1,
            ),
    decreases steps, 1 + n,
{
    let deps = graph[current].dependencies;
    if n > 0 {
        lemma_search_deps_leads_on(graph, current, (n - 1) as nat, target, path, steps);
        let before = search_deps(graph, deps, (n - 1) as nat, target, path, steps);
        let dep = deps[n - 1].0;
        let all = search_deps(graph, deps, n, target, path, steps);
        if !path.contains(dep) {
            let longer = path.push(dep);
            assert(edge(graph, current, dep));
            assert forall|i: int| 0 <= i < longer.len() - 1 implies edge(
                graph,
                #[trigger] longer[i],
                longer[i + 1],
            ) by {
                if i < path.len() - 1 {
                    assert(edge(graph, path[i], path[i + 1]));
                }
            }
            assert forall|i: int, j: int| 0 <= i < j < longer.len() implies longer[i]
                != longer[j] by {
                if j == path.len() {
                    assert(path.contains(path[i]));
                }
            }
            assert(longer.take(path.len() as int) =~= path);
            if dep == target {
                assert forall|k: int| 0 <= k < all.len() implies leads_on(
                    graph,
                    #[trigger] all[k],
                    path,
                    target,
                    steps + 1,
                ) by {
                    if k < before.len() {
                        assert(all[k] == before[k]);
                    } else {
                        assert(all[k] == longer);
                    }
                }
            } else {
                lemma_search_from_leads_on(graph, dep, target, longer, steps);
                let deeper = search_from(graph, dep, target, longer, steps);
                assert forall|k: int| 0 <= k < all.len() implies leads_on(
                    graph,
                    #[trigger] all[k],
                    path,
                    target,
                    steps + 1,
                ) by {
                    if k < before.len() {
                        assert(all[k] == before[k]);
                    } else {
                        let found = deeper[k - before.len()];
                        assert(all[k] == found);
                        assert(leads_on(graph, found, longer, target, steps));
                        assert(found.take(path.len() as int) =~= found.take(
                            longer.len() as int,
                        ).take(path.len() as int));
                    }
                }
            }
        }
    }
}

/// The search through the first `n` dependencies lists every path that
/// continues `path` to the target through one of them.
pub proof fn lemma_search_deps_finds(
    graph: Graph,
    deps: Seq<Pair>,
    n: nat,
    target: Seq<char>,
    path: Seq<Seq<char>>,
    steps: nat,
    found: Seq<Seq<char>>,
    i: int,
)
    requires
        0 <= i < n <= deps.len(),
        leads_on(graph, found, path, target, steps + 1),
        deps[i].0 == found[path.len() as int],
    ensures
        search_deps(graph, deps, n, target, path, steps).contains(found),
    decreases steps, 1 + n,
{
    let before = search_deps(graph, deps, (n - 1) as nat, target, path, steps);
    let all = search_deps(graph, deps, n, target, path, steps);
    let dep = deps[n - 1].0;
    if i < n - 1 {
        lemma_search_deps_finds(graph, deps, (n - 1) as nat, target, path, steps, found, i);
        let k = choose|k: int| 0 <= k < before.len() && before[k] == found;
        assert(all[k] == found);
    } else {
        let longer = path.push(dep);
        assert(found.take(path.len() as int) == path);
        assert(!path.contains(dep)) by {
            if path.contains(dep) {
                let j = choose|j: int| 0 <= j < path.len() && path[j] == dep;
                assert(found.take(path.len() as int)[j] == found[j]);
                assert(found[j] != found[path.len() as int]);
            }
        }
        assert(found.take(path.len() as int + 1) =~= longer) by {
            assert forall|j: int| 0 <= j < path.len() implies found[j] == path[j] by {
                assert(found.take(path.len() as int)[j] == found[j]);
            }
        }
        if dep == target {
            assert(found.len() == path.len() + 1) by {
                if found.len() > path.len() + 1 {
                    assert(found[path.len() as int] != found[found.len() - 1]);
                }
            }
            assert(found =~= longer);
            assert(all[before.len() as int] == found);
        } else {
            assert(found.len() > path.len() + 1);
            assert(leads_on(graph, found, longer, target, steps));
            lemma_search_from_finds(graph, dep, target, longer, steps, found);
            let deeper = search_from(graph, dep, target, longer, steps);
            let k = choose|k: int| 0 <= k < deeper.len() && deeper[k] == found;
            assert(all[before.len() + k] == found);
        }
    }
}

/// The search from `current` lists every path that continues `path` to the target.
pub proof fn lemma_search_from_finds(
    graph: Graph,
    current: Seq<char>,
    target: Seq<char>,
    path: Seq<Seq<char>>,
    steps: nat,
    found: Seq<Seq<char>>,
)
    requires
        path.len() >= 1,
        path.last() == current,
        leads_on(graph, found, path, target, steps),
    ensures
        search_from(graph, current, target, path, steps).contains(found),
    decreases steps, 0nat,
{
    let next = found[path.len() as int];
    assert(found.take(path.len() as int)[path.len() - 1] == found[path.len() - 1]);
    assert(edge(graph, found[path.len() - 1], found[path.len() - 1 + 1]));
    let deps = graph[current].dependencies;
    let i = choose|i: int| 0 <= i < deps.len() && #[trigger] deps[i].0 == next;
    lemma_search_deps_finds(graph, deps, deps.len(), target, path, (steps - 1) as nat, found, i);
}

/// `found` is a path to `target` from one of the first `n` names of
/// `roots`: it starts there, goes along edges of the graph, visits no
/// name twice, ends at the target and takes at most `MAX_STEPS` steps.
pub open spec fn is_path_from_roots(
    graph: Graph,
    roots: Seq<Pair>,
    n: nat,
    target: Seq<char>,
    found: Seq<Seq<char>>,
) -> bool {
    &&& 1 <= found.len() <= MAX_STEPS + 1
    &&& exists|i: int| 0 <= i < n && #[trigger] roots[i].0 == found[0]
    &&& is_walk(graph, found)
    &&& simple(found)
    &&& found.last() == target
}

/// What is listed for the roots is exactly the paths from the roots to the target.
pub proof fn lemma_paths_from_roots(
    graph: Graph,
    roots: Seq<Pair>,
    n: nat,
    target: Seq<char>,
    found: Seq<Seq<char>>,
)
    requires
        n <= roots.len(),
    ensures
        paths_from_roots(graph, roots, n, target).contains(found) <==> is_path_from_roots(
            graph,
            roots,
            n,
            target,
            found,
        ),
    decreases n,
{
    if n > 0 {
        let before = paths_from_roots(graph, roots, (n - 1) as nat, target);
        let all = paths_from_roots(graph, roots, n, target);
        let root = roots[n - 1].0;
        let start = seq![root];
        let deeper = search_from(graph, root, target, start, MAX_STEPS as nat);
        lemma_paths_from_roots(graph, roots, (n - 1) as nat, target, found);
        assert(is_walk(graph, start));
        assert(simple(start));
        lemma_search_from_leads_on(graph, root, target, start, MAX_STEPS as nat);
        if all.contains(found) {
            let k = choose|k: int| 0 <= k < all.len() && all[k] == found;
            if k < before.len() {
                assert(before[k] == found);
                assert(before.contains(found));
                let i = choose|i: int| 0 <= i < n - 1 && #[trigger] roots[i].0 == found[0];
                assert(roots[i].0 == found[0]);
            } else if root == target {
                assert(found == start);
                assert(roots[n - 1].0 == found[0]);
            } else {
                assert(found == deeper[k - before.len()]);
                assert(leads_on(graph, found, start, target, MAX_STEPS as nat));
                assert(found.take(1)[0] == found[0]);
                assert(roots[n - 1].0 == found[0]);
            }
        }
        if is_path_from_roots(graph, roots, n, target, found) {
            let i = choose|i: int| 0 <= i < n && #[trigger] roots[i].0 == found[0];
            if i < n - 1 {
                assert(is_path_from_roots(graph, roots, (n - 1) as nat, target, found));
                let k = choose|k: int| 0 <= k < before.len() && before[k] == found;
                assert(all[k] == found);
            } else if is_path_from_roots(graph, roots, (n - 1) as nat, target, found) {
                let k = choose|k: int| 0 <= k < before.len() && before[k] == found;
                assert(all[k] == found);
            } else if root == target {
                assert(found.len() == 1) by {
                    if found.len() > 1 {
                        assert(found[0] != found[found.len() - 1]);
                    }
                }
                assert(found =~= start);
                assert(all[before.len() as int] == found);
            } else {
                assert(found.len() > 1);
                assert(found.take(1) =~= start);
                assert(leads_on(graph, found, start, target, MAX_STEPS as nat));
                lemma_search_from_finds(graph, root, target, start, MAX_STEPS as nat, found);
                let k = choose|k: int| 0 <= k < deeper.len() && deeper[k] == found;
                assert(all[before.len() + k] == found);
            }
        }
    }
}

/// The paths of a list of paths, as sequences of names.
pub open spec fn paths_of(found: Seq<Vec<String>>) -> Seq<Seq<Seq<char>>> {
    Seq::new(found.len(), |i: int| texts(found[i]@))
}

/// Searches for `target` from `current`, the last name of `path`, and
/// adds every path it finds to `results`. The search does not start from
/// a path of more than `MAX_STEPS` names. `path` is left as it was.
pub fn search_recursive(
    lock: &CrabbyLock,
    current: &str,
    target: &str,
    path: &mut Vec<String>,
    results: &mut Vec<Vec<String>>,
)
    ensures
        texts(final(path)@) == texts(old(path)@),
        paths_of(final(results)@) == paths_of(old(results)@) + search_from(
            lock@,
            current@,
            target@,
            texts(old(path)@),
            steps_left(old(path).len() as nat),
        ),
    decreases steps_left(old(path).len() as nat),
{
    let ghost graph = lock@;
    let ghost start = texts(path@);
    let ghost found_before = paths_of(results@);
    let ghost steps = steps_left(path.len() as nat);
    if path.len() > MAX_STEPS {
        assert(found_before + Seq::<Seq<Seq<char>>>::empty() =~= found_before);
        return ;
    }
    match lock.dependencies.get(current) {
        None => {
            assert(found_before + Seq::<Seq<Seq<char>>>::empty() =~= found_before);
        },
        Some(record) => {
            let deps = &record.dependencies;
            let ghost listed = deps.pairs();
            let mut i: usize = 0;
            assert(found_before + Seq::<Seq<Seq<char>>>::empty() =~= found_before);
            while i < deps.len()
                invariant
                    i <= listed.len(),
                    listed == deps.pairs(),
                    graph == lock@,
                    steps == steps_left(start.len()),
                    steps > 0,
                    start == texts(old(path)@),
                    texts(path@) == start,
                    paths_of(results@) == found_before + search_deps(
                        graph,
                        listed,
                        i as nat,
                        target@,
                        start,
                        (steps - 1) as nat,
                    ),
                decreases listed.len() - i,
            {
                let dep = deps.key_at(i);
                let ghost so_far = paths_of(results@);
                if contains_text(path, dep.as_str()) {
                    // The name is on the path: following it would go in a circle.
                } else {
                    path.push(dep.clone());
                    let ghost longer = start.push(dep@);
                    assert(texts(path@) =~= longer);
                    if *dep == String::from_str(target) {
                        results.push(copy_texts(path));
                        assert(paths_of(results@) =~= so_far.push(longer));
                    } else {
                        search_recursive(lock, dep.as_str(), target, path, results);
                    }
                    assert(texts(path@) == longer);
                    path.pop();
                    assert(texts(path@) =~= longer.drop_last());
                    assert(longer.drop_last() =~= start);
                }
                proof {
                    let left = (steps - 1) as nat;
                    let before = search_deps(graph, listed, i as nat, target@, start, left);
                    let after = search_deps(graph, listed, (i + 1) as nat, target@, start, left);
                    if !start.contains(dep@) && dep@ != target@ {
                        assert(found_before + before + search_from(
                            graph,
                            dep@,
                            target@,
                            start.push(dep@),
                            left,
                        ) =~= found_before + after);
                    } else if !start.contains(dep@) {
                        assert((found_before + before).push(start.push(dep@)) =~= found_before
                            + after);
                    }
                }
                i += 1;
            }
        },
    }
}

/// The number of steps that the search may still take from a path of `len` names.
pub open spec fn steps_left(len: nat) -> nat {
    if len <= MAX_STEPS {
        (MAX_STEPS + 1 - len) as nat
    } else {
        0
    }
}

/// The name under which a development dependency heads a path.
pub open spec fn dev_label(name: Seq<char>) -> Seq<char> {
    name + " (dev)"@
}

/// `path` with its first name marked as a development dependency, if `dev`.
pub open spec fn labelled(path: Seq<Seq<char>>, dev: bool) -> Seq<Seq<char>> {
    if dev && path.len() > 0 {
        path.update(0, dev_label(path[0]))
    } else {
        path
    }
}

/// Each of `found`, labelled.
pub open spec fn all_labelled(found: Seq<Seq<Seq<char>>>, dev: bool) -> Seq<Seq<Seq<char>>> {
    Seq::new(found.len(), |i: int| labelled(found[i], dev))
}

/// The paths to `target` that start at one of the first `n` names of
/// `roots`: the name alone where it is the target, else what the search
/// from it finds.
pub open spec fn paths_from_roots(
    graph: Graph,
    roots: Seq<Pair>,
    n: nat,
    target: Seq<char>,
) -> Seq<Seq<Seq<char>>>
    decreases n,
{
    if n == 0 {
        Seq::empty()
    } else {
        let before = paths_from_roots(graph, roots, (n - 1) as nat, target);
        let root = roots[n - 1].0;
        if root == target {
            before.push(seq![root])
        } else {
            before + search_from(graph, root, target, seq![root], MAX_STEPS as nat)
        }
    }
}

/// Adds to `results` the paths to `target` that start at a name of
/// `roots`, labelled as development dependencies if `dev`.
fn search_roots(
    lock: &CrabbyLock,
    roots: &crate::depmap::DepMap,
    target: &str,
    dev: bool,
    results: &mut Vec<Vec<String>>,
)
    ensures
        paths_of(final(results)@) == paths_of(old(results)@) + all_labelled(
            paths_from_roots(lock@, roots.pairs(), roots.pairs().len(), target@),
            dev,
        ),
{
    let ghost graph = lock@;
    let ghost listed = roots.pairs();
    let ghost found_before = paths_of(results@);
    let mut i: usize = 0;
    assert(found_before + all_labelled(paths_from_roots(graph, listed, 0, target@), dev)
        =~= found_before);
    while i < roots.len()
        invariant
            i <= listed.len(),
            listed == roots.pairs(),
            graph == lock@,
            paths_of(results@) == found_before + all_labelled(
                paths_from_roots(graph, listed, i as nat, target@),
                dev,
            ),
        decreases listed.len() - i,
    {
        let root = roots.key_at(i);
        let ghost before = paths_from_roots(graph, listed, i as nat, target@);
        let ghost after = paths_from_roots(graph, listed, (i + 1) as nat, target@);
        let mut found: Vec<Vec<String>> = Vec::new();
        let mut path: Vec<String> = Vec::new();
        path.push(root.clone());
        assert(texts(path@) =~= seq![root@]);
        assert(paths_of(found@) =~= Seq::<Seq<Seq<char>>>::empty());
        if *root == String::from_str(target) {
            found.push(path);
            assert(paths_of(found@) =~= seq![seq![root@]]);
            assert(before + paths_of(found@) =~= after);
        } else {
            search_recursive(lock, root.as_str(), target, &mut path, &mut found);
            assert(Seq::<Seq<Seq<char>>>::empty() + search_from(
                graph,
                root@,
                target@,
                seq![root@],
                MAX_STEPS as nat,
            ) =~= paths_of(found@));
        }
        assert(before + paths_of(found@) =~= after);
        let ghost fresh = paths_of(found@);
        let ghost so_far = paths_of(results@);
        let mut k: usize = 0;
        assert(so_far + all_labelled(fresh.take(0), dev) =~= so_far);
        while k < found.len()
            invariant
                k <= found.len(),
                fresh == paths_of(found@),
                paths_of(results@) == so_far + all_labelled(fresh.take(k as int), dev),
            decreases found.len() - k,
        {
            let mut labelled_path = copy_texts(&found[k]);
            if dev && labelled_path.len() > 0 {
                let mut label = labelled_path[0].clone();
                label.append(" (dev)");
                labelled_path.set(0, label);
                assert(texts(labelled_path@) =~= labelled(fresh[k as int], dev));
            }
            let ghost was = paths_of(results@);
            results.push(labelled_path);
            assert(paths_of(results@) =~= was.push(labelled(fresh[k as int], dev)));
            assert(all_labelled(fresh.take(k as int + 1), dev) =~= all_labelled(
                fresh.take(k as int),
                dev,
            ).push(labelled(fresh[k as int], dev)));
            k += 1;
        }
        assert(fresh.take(found.len() as int) =~= fresh);
        assert(all_labelled(before, dev) + all_labelled(fresh, dev) =~= all_labelled(after, dev));
        i += 1;
    }
}

/// Whether `listed` explains why `target` is installed: it is a path to
/// `target` from a runtime dependency of the project, or such a path
/// from a development dependency with the mark on its first name.
pub open spec fn explains(
    graph: Graph,
    pkg: &PackageJson,
    target: Seq<char>,
    listed: Seq<Seq<char>>,
) -> bool {
    ||| is_path_from_roots(
        graph,
        pkg.dependencies.pairs(),
        pkg.dependencies.pairs().len(),
        target,
        listed,
    )
    ||| exists|found: Seq<Seq<char>>|
        is_path_from_roots(
            graph,
            pkg.dev_dependencies.pairs(),
            pkg.dev_dependencies.pairs().len(),
            target,
            found,
        ) && listed == #[trigger] labelled(found, true)
}

/// What the search lists is exactly what explains why `target` is installed.
pub proof fn lemma_listed_explains(
    graph: Graph,
    pkg: &PackageJson,
    target: Seq<char>,
    listed: Seq<Seq<char>>,
)
    ensures
        (all_labelled(
            paths_from_roots(
                graph,
                pkg.dependencies.pairs(),
                pkg.dependencies.pairs().len(),
                target,
            ),
            false,
        ) + all_labelled(
            paths_from_roots(
                graph,
                pkg.dev_dependencies.pairs(),
                pkg.dev_dependencies.pairs().len(),
                target,
            ),
            true,
        )).contains(listed) <==> explains(graph, pkg, target, listed),
{
    let runtime = pkg.dependencies.pairs();
    let development = pkg.dev_dependencies.pairs();
    let from_runtime = paths_from_roots(graph, runtime, runtime.len(), target);
    let from_development = paths_from_roots(graph, development, development.len(), target);
    let first = all_labelled(from_runtime, false);
    let second = all_labelled(from_development, true);
    let all = first + second;
    assert(first =~= from_runtime);
    lemma_paths_from_roots(graph, runtime, runtime.len(), target, listed);
    if all.contains(listed) {
        let k = choose|k: int| 0 <= k < all.len() && all[k] == listed;
        if k < first.len() {
            assert(from_runtime[k] == listed);
            assert(from_runtime.contains(listed));
        } else {
            let found = from_development[k - first.len()];
            assert(from_development.contains(found));
            lemma_paths_from_roots(graph, development, development.len(), target, found);
            assert(listed == labelled(found, true));
        }
    }
    if explains(graph, pkg, target, listed) {
        if is_path_from_roots(graph, runtime, runtime.len(), target, listed) {
            let k = choose|k: int| 0 <= k < from_runtime.len() && from_runtime[k] == listed;
            assert(all[k] == listed);
        } else {
            let found = choose|found: Seq<Seq<char>>|
                is_path_from_roots(graph, development, development.len(), target, found)
                    && listed == #[trigger] labelled(found, true);
            lemma_paths_from_roots(graph, development, development.len(), target, found);
            let k = choose|k: int|
                0 <= k < from_development.len() && from_development[k] == found;
            assert(all[first.len() + k] == listed);
        }
    }
}

/// The paths that lead to the package `target`: first those from the
/// runtime dependencies of the project, then those from its development
/// dependencies, whose first name carries the mark ` (dev)`.
pub fn find_dependency_paths(lock: &CrabbyLock, pkg: &PackageJson, target: &str) -> (paths: Vec<
    Vec<String>,
>)
    ensures
        paths_of(paths@) == all_labelled(
            paths_from_roots(
                lock@,
                pkg.dependencies.pairs(),
                pkg.dependencies.pairs().len(),
                target@,
            ),
            false,
        ) + all_labelled(
            paths_from_roots(
                lock@,
                pkg.dev_dependencies.pairs(),
                pkg.dev_dependencies.pairs().len(),
                target@,
            ),
            true,
        ),
        forall|listed: Seq<Seq<char>>| #[trigger]
            paths_of(paths@).contains(listed) <==> explains(lock@, pkg, target@, listed),
{
    let mut paths: Vec<Vec<String>> = Vec::new();
    assert(paths_of(paths@) =~= Seq::<Seq<Seq<char>>>::empty());
    search_roots(lock, &pkg.dependencies, target, false, &mut paths);
    search_roots(lock, &pkg.dev_dependencies, target, true, &mut paths);
    proof {
        assert forall|listed: Seq<Seq<char>>| #[trigger]
            paths_of(paths@).contains(listed) <==> explains(lock@, pkg, target@, listed) by {
            lemma_listed_explains(lock@, pkg, target@, listed);
        }
    }
    paths
}

} // verus!
