//! Which packages are still needed.
//!
//! The lockfile is read as a graph: every package points to the packages
//! it lists as dependencies. A package is needed if a walk leads to it
//! from a dependency of the project. What is in the module tree and not
//! needed can be removed.

use crate::manifest::{CrabbyLock, LockRecord, PackageJson};
use crate::text::{chars_of, contains_text, distinct, texts};
use vstd::prelude::*;

verus! {

/// The lockfile graph.
pub type Graph = Map<Seq<char>, LockRecord>;

/// Whether the record of `from` lists `to` as a dependency.
pub open spec fn edge(graph: Graph, from: Seq<char>, to: Seq<char>) -> bool {
    graph.dom().contains(from) && exists|i: int|
        0 <= i < graph[from].dependencies.len() && #[trigger] graph[from].dependencies[i].0 == to
}

/// Whether `walk` goes along edges of the graph. A single name is a walk.
pub open spec fn is_walk(graph: Graph, walk: Seq<Seq<char>>) -> bool {
    walk.len() >= 1 && forall|i: int|
        0 <= i < walk.len() - 1 ==> edge(graph, #[trigger] walk[i], walk[i + 1])
}

/// Whether `walk` stays clear of `blocked`.
pub open spec fn avoids(walk: Seq<Seq<char>>, blocked: Seq<Seq<char>>) -> bool {
    forall|i: int| 0 <= i < walk.len() ==> !blocked.contains(#[trigger] walk[i])
}

/// Whether a walk leads from `from` to `to`.
pub open spec fn reaches(graph: Graph, from: Seq<char>, to: Seq<char>) -> bool {
    exists|walk: Seq<Seq<char>>| #[trigger]
        is_walk(graph, walk) && walk[0] == from && walk.last() == to
}

/// Whether a walk that stays clear of `blocked` leads from `from` to `to`.
pub open spec fn reaches_avoiding(
    graph: Graph,
    blocked: Seq<Seq<char>>,
    from: Seq<char>,
    to: Seq<char>,
) -> bool {
    exists|walk: Seq<Seq<char>>| #[trigger]
        is_walk(graph, walk) && walk[0] == from && walk.last() == to && avoids(walk, blocked)
}

/// Whether `names` holds, with each of its names, the names that name's record lists.
pub open spec fn closed_set(graph: Graph, names: Seq<Seq<char>>) -> bool {
    forall|from: Seq<char>, to: Seq<char>|
        names.contains(from) && #[trigger] edge(graph, from, to) ==> names.contains(to)
}

/// A walk that starts inside a closed set ends inside it.
pub proof fn lemma_closed_set_holds_walks(
    graph: Graph,
    names: Seq<Seq<char>>,
    walk: Seq<Seq<char>>,
    upto: int,
)
    requires
        closed_set(graph, names),
        is_walk(graph, walk),
        names.contains(walk[0]),
        0 <= upto < walk.len(),
    ensures
        names.contains(walk[upto]),
    decreases upto,
{
    if upto > 0 {
        lemma_closed_set_holds_walks(graph, names, walk, upto - 1);
        assert(edge(graph, walk[upto - 1], walk[upto]));
    }
}

/// A walk that reaches a name outside a closed set never touches the set.
pub proof fn lemma_walk_outside_closed_set(
    graph: Graph,
    names: Seq<Seq<char>>,
    walk: Seq<Seq<char>>,
)
    requires
        closed_set(graph, names),
        is_walk(graph, walk),
        !names.contains(walk.last()),
    ensures
        avoids(walk, names),
{
    assert forall|i: int| 0 <= i < walk.len() implies !names.contains(#[trigger] walk[i]) by {
        if names.contains(walk[i]) {
            let tail = walk.skip(i);
            assert forall|j: int| 0 <= j < tail.len() - 1 implies edge(
                graph,
                #[trigger] tail[j],
                tail[j + 1],
            ) by {
                assert(edge(graph, walk[i + j], walk[i + j + 1]));
            }
            lemma_closed_set_holds_walks(graph, names, tail, tail.len() - 1);
            assert(tail[tail.len() - 1] == walk.last());
        }
    }
}

/// The number of names in `keys` that `seen` does not hold.
pub open spec fn missing(keys: Seq<Seq<char>>, seen: Seq<Seq<char>>) -> nat
    decreases keys.len(),
{
    if keys.len() == 0 {
        0
    } else {
        missing(keys.drop_last(), seen) + if seen.contains(keys.last()) {
            0nat
        } else {
            1nat
        }
    }
}

/// Seeing one more name leaves no more keys missing; seeing a key that
/// was missing leaves fewer.
pub proof fn lemma_missing_after_push(keys: Seq<Seq<char>>, seen: Seq<Seq<char>>, name: Seq<char>)
    ensures
        missing(keys, seen.push(name)) <= missing(keys, seen),
        keys.contains(name) && !seen.contains(name) ==> missing(keys, seen.push(name)) < missing(
            keys,
            seen,
        ),
    decreases keys.len(),
{
    if keys.len() > 0 {
        let front = keys.drop_last();
        lemma_missing_after_push(front, seen, name);
        let after = seen.push(name);
        if seen.contains(keys.last()) {
            let j = choose|j: int| 0 <= j < seen.len() && seen[j] == keys.last();
            assert(after[j] == keys.last());
        }
        if keys.contains(name) && !seen.contains(name) {
            if keys.last() == name {
                assert(after[seen.len() as int] == name);
            } else {
                let j = choose|j: int| 0 <= j < keys.len() && keys[j] == name;
                assert(front[j] == name);
            }
        }
    }
}

/// The keys of the lockfile, in order.
pub open spec fn lock_keys(lock: &CrabbyLock) -> Seq<Seq<char>> {
    Seq::new(lock.dependencies.pairs().len(), |i: int| lock.dependencies.pairs()[i].0)
}

/// Adds to `reachable` every name that a walk leads to from `name`
/// without touching a name that `reachable` already holds. If `reachable`
/// holds `name`, nothing is added.
///
/// Called with a set that is closed under the lockfile's edges, as it is
/// when it was built by this function from the empty set, this adds
/// exactly what `name` reaches.
pub fn collect_reachable(name: &str, lock: &CrabbyLock, reachable: &mut Vec<String>)
    ensures
        forall|m: Seq<char>|
            texts(final(reachable)@).contains(m) <==> texts(old(reachable)@).contains(m)
                || reaches_avoiding(lock@, texts(old(reachable)@), name@, m),
        closed_set(lock@, texts(old(reachable)@)) ==> closed_set(lock@, texts(final(reachable)@)),
        texts(final(reachable)@).len() >= texts(old(reachable)@).len(),
        texts(final(reachable)@).take(texts(old(reachable)@).len() as int) == texts(
            old(reachable)@,
        ),
        distinct(texts(old(reachable)@)) ==> distinct(texts(final(reachable)@)),
{
    let ghost graph = lock@;
    let ghost blocked = texts(reachable@);
    assert(blocked.take(blocked.len() as int) =~= blocked);
    let ghost keys = lock_keys(lock);
    let mut stack: Vec<String> = Vec::new();
    stack.push(String::from_str(name));
    proof {
        assert(texts(stack@)[0] == name@);
        assert forall|s: Seq<char>| texts(stack@).contains(s) implies arrives(
            graph,
            blocked,
            name@,
            s,
        ) by {
            let j = choose|j: int| 0 <= j < texts(stack@).len() && texts(stack@)[j] == s;
            let walk = seq![name@];
            assert(is_walk(graph, walk));
            assert(walk.drop_last() =~= Seq::<Seq<char>>::empty());
        }
    }
    while stack.len() > 0
        invariant
            graph == lock@,
            keys == lock_keys(lock),
            texts(reachable@).len() >= blocked.len(),
            texts(reachable@).take(blocked.len() as int) == blocked,
            distinct(blocked) ==> distinct(texts(reachable@)),
            forall|b: Seq<char>| blocked.contains(b) ==> texts(reachable@).contains(b),
            forall|v: Seq<char>|
                texts(reachable@).contains(v) && !blocked.contains(v) ==> reaches_avoiding(
                    graph,
                    blocked,
                    name@,
                    v,
                ),
            forall|s: Seq<char>| #[trigger]
                texts(stack@).contains(s) ==> arrives(graph, blocked, name@, s),
            texts(reachable@).contains(name@) || texts(stack@).contains(name@),
            forall|v: Seq<char>, d: Seq<char>|
                texts(reachable@).contains(v) && !blocked.contains(v) && #[trigger] edge(
                    graph,
                    v,
                    d,
                ) ==> texts(reachable@).contains(d) || texts(stack@).contains(d),
        decreases missing(keys, texts(reachable@)), stack.len(),
    {
        let ghost seen_before = texts(reachable@);
        let ghost stack_before = texts(stack@);
        assert forall|s: Seq<char>| #[trigger] stack_before.contains(s) implies arrives(
            graph,
            blocked,
            name@,
            s,
        ) by {
            assert(texts(stack@).contains(s));
        }
        let current = stack.pop().unwrap();
        let ghost x = current@;
        proof {
            assert(stack_before[stack_before.len() - 1] == x);
            assert(stack_before.contains(x));
            assert(texts(stack@) =~= stack_before.drop_last());
            assert forall|s: Seq<char>| stack_before.contains(s) implies texts(stack@).contains(s)
                || s == x by {
                let j = choose|j: int| 0 <= j < stack_before.len() && stack_before[j] == s;
                if j < stack_before.len() - 1 {
                    assert(texts(stack@)[j] == s);
                }
            }
            assert forall|s: Seq<char>| #[trigger] texts(stack@).contains(s) implies arrives(
                graph,
                blocked,
                name@,
                s,
            ) by {
                let j = choose|j: int| 0 <= j < texts(stack@).len() && texts(stack@)[j] == s;
                assert(stack_before[j] == s);
                assert(stack_before.contains(s));
            }
        }
        if contains_text(reachable, current.as_str()) {
            // Seen before: nothing to add.
        } else {
            proof {
                // The name is new, so the walk that arrives at it stays clear of `blocked`.
                assert(!blocked.contains(x));
                lemma_arrival_is_reach(graph, blocked, name@, x);
                lemma_missing_after_push(keys, seen_before, x);
            }
            let found = lock.dependencies.position(current.as_str());
            reachable.push(current);
            proof {
                assert(texts(reachable@) =~= seen_before.push(x));
                assert(texts(reachable@)[seen_before.len() as int] == x);
                assert(texts(reachable@).take(blocked.len() as int) =~= seen_before.take(
                    blocked.len() as int,
                ));
                if distinct(blocked) {
                    assert forall|i: int, j: int|
                        0 <= i < texts(reachable@).len() && 0 <= j < texts(reachable@).len() && i
                            != j implies texts(reachable@)[i] != texts(reachable@)[j] by {
                        if i < seen_before.len() && j < seen_before.len() {
                            assert(seen_before[i] != seen_before[j]);
                        } else if i < seen_before.len() {
                            assert(seen_before.contains(seen_before[i]));
                        } else {
                            assert(seen_before.contains(seen_before[j]));
                        }
                    }
                }
                assert forall|v: Seq<char>| seen_before.contains(v) implies texts(
                    reachable@,
                ).contains(v) by {
                    let j = choose|j: int| 0 <= j < seen_before.len() && seen_before[j] == v;
                    assert(texts(reachable@)[j] == v);
                }
                assert forall|v: Seq<char>| texts(reachable@).contains(v) implies seen_before.contains(
                v) || v == x by {
                    let j = choose|j: int|
                        0 <= j < texts(reachable@).len() && texts(reachable@)[j] == v;
                    if j < seen_before.len() {
                        assert(seen_before[j] == v);
                    }
                }
            }
            match found {
                None => {
                    proof {
                        assert(!graph.dom().contains(x));
                    }
                },
                Some(at) => {
                    let record = lock.dependencies.record_at(at);
                    let deps = &record.dependencies;
                    let ghost listed = deps.pairs();
                    proof {
                        assert(graph.dom().contains(x));
                        assert(graph[x].dependencies == listed);
                        lemma_key_at(lock, at as int);
                        assert(keys.contains(x));
                    }
                    let ghost seen_now = texts(reachable@);
                    let ghost stack_mid = texts(stack@);
                    let mut i: usize = 0;
                    while i < deps.len()
                        invariant
                            i <= listed.len(),
                            listed == deps.pairs(),
                            graph.dom().contains(x),
                            graph[x].dependencies == listed,
                            reaches_avoiding(graph, blocked, name@, x),
                            seen_now == texts(reachable@),
                            forall|s: Seq<char>| #[trigger]
                                stack_mid.contains(s) ==> texts(stack@).contains(s),
                            forall|s: Seq<char>| #[trigger]
                                texts(stack@).contains(s) ==> arrives(graph, blocked, name@, s),
                            forall|j: int|
                                0 <= j < i ==> texts(stack@).contains(#[trigger] listed[j].0),
                        decreases listed.len() - i,
                    {
                        let dep = deps.key_at(i).clone();
                        let ghost d = dep@;
                        let ghost stack_was = texts(stack@);
                        stack.push(dep);
                        proof {
                            assert(texts(stack@) =~= stack_was.push(d));
                            assert(texts(stack@)[stack_was.len() as int] == d);
                            assert forall|s: Seq<char>| stack_was.contains(s) implies texts(
                                stack@,
                            ).contains(s) by {
                                let j = choose|j: int|
                                    0 <= j < stack_was.len() && stack_was[j] == s;
                                assert(texts(stack@)[j] == s);
                            }
                            assert(edge(graph, x, d));
                            lemma_arrives_by_edge(graph, blocked, name@, x, d);
                            assert forall|s: Seq<char>| #[trigger]
                                texts(stack@).contains(s) implies arrives(
                                graph,
                                blocked,
                                name@,
                                s,
                            ) by {
                                let j = choose|j: int|
                                    0 <= j < texts(stack@).len() && texts(stack@)[j] == s;
                                if j < stack_was.len() {
                                    assert(stack_was[j] == s);
                                    assert(stack_was.contains(s));
                                }
                            }
                        }
                        i += 1;
                    }
                    proof {
                        assert forall|d: Seq<char>| edge(graph, x, d) implies texts(
                            stack@,
                        ).contains(d) by {
                            let j = choose|j: int|
                                0 <= j < graph[x].dependencies.len()
                                    && #[trigger] graph[x].dependencies[j].0 == d;
                            assert(texts(stack@).contains(listed[j].0));
                        }
                    }
                },
            }
        }
    }
    proof {
        let seen = texts(reachable@);
        assert(texts(stack@) =~= Seq::<Seq<char>>::empty());
        assert forall|m: Seq<char>| reaches_avoiding(graph, blocked, name@, m) implies seen.contains(
        m) by {
            let walk = choose|walk: Seq<Seq<char>>| #[trigger]
                is_walk(graph, walk) && walk[0] == name@ && walk.last() == m && avoids(
                    walk,
                    blocked,
                );
            lemma_walk_is_seen(graph, blocked, seen, walk, walk.len() - 1);
        }
        if closed_set(graph, blocked) {
            assert forall|from: Seq<char>, to: Seq<char>|
                seen.contains(from) && #[trigger] edge(graph, from, to) implies seen.contains(
                to,
            ) by {
                if blocked.contains(from) {
                    assert(blocked.contains(to));
                }
            }
        }
    }
}

/// Whether a walk leads from `from` to `to` and stays clear of `blocked`
/// until its last name.
pub open spec fn arrives(graph: Graph, blocked: Seq<Seq<char>>, from: Seq<char>, to: Seq<char>) -> bool {
    exists|walk: Seq<Seq<char>>| #[trigger]
        is_walk(graph, walk) && walk[0] == from && walk.last() == to && avoids(
            walk.drop_last(),
            blocked,
        )
}

/// A walk that arrives at a name outside `blocked` stays clear of `blocked`.
pub proof fn lemma_arrival_is_reach(
    graph: Graph,
    blocked: Seq<Seq<char>>,
    from: Seq<char>,
    to: Seq<char>,
)
    requires
        arrives(graph, blocked, from, to),
        !blocked.contains(to),
    ensures
        reaches_avoiding(graph, blocked, from, to),
{
    let walk = choose|walk: Seq<Seq<char>>| #[trigger]
        is_walk(graph, walk) && walk[0] == from && walk.last() == to && avoids(
            walk.drop_last(),
            blocked,
        );
    assert forall|i: int| 0 <= i < walk.len() implies !blocked.contains(#[trigger] walk[i]) by {
        if i < walk.len() - 1 {
            assert(walk.drop_last()[i] == walk[i]);
        }
    }
    assert(is_walk(graph, walk) && walk[0] == from && walk.last() == to && avoids(walk, blocked));
}

/// One edge after a walk that stays clear of `blocked` arrives at the edge's end.
pub proof fn lemma_arrives_by_edge(
    graph: Graph,
    blocked: Seq<Seq<char>>,
    from: Seq<char>,
    via: Seq<char>,
    to: Seq<char>,
)
    requires
        reaches_avoiding(graph, blocked, from, via),
        edge(graph, via, to),
    ensures
        arrives(graph, blocked, from, to),
{
    let walk = choose|walk: Seq<Seq<char>>| #[trigger]
        is_walk(graph, walk) && walk[0] == from && walk.last() == via && avoids(walk, blocked);
    let longer = walk.push(to);
    assert forall|i: int| 0 <= i < longer.len() - 1 implies edge(
        graph,
        #[trigger] longer[i],
        longer[i + 1],
    ) by {
        if i < walk.len() - 1 {
            assert(edge(graph, walk[i], walk[i + 1]));
        }
    }
    assert(longer.drop_last() =~= walk);
    assert(is_walk(graph, longer) && longer[0] == from && longer.last() == to && avoids(
        longer.drop_last(),
        blocked,
    ));
}

/// The key at position `at` of the lockfile is one of its keys, and the
/// graph has the record that stands there.
pub proof fn lemma_key_at(lock: &CrabbyLock, at: int)
    requires
        0 <= at < lock.dependencies.pairs().len(),
    ensures
        lock_keys(lock).contains(lock.dependencies.pairs()[at].0),
{
    assert(lock_keys(lock)[at] == lock.dependencies.pairs()[at].0);
}

/// In a set that holds the start of a walk and, with each of its names
/// outside `blocked`, what that name's record lists, every name of a walk
/// that stays clear of `blocked` is held.
pub proof fn lemma_walk_is_seen(
    graph: Graph,
    blocked: Seq<Seq<char>>,
    seen: Seq<Seq<char>>,
    walk: Seq<Seq<char>>,
    upto: int,
)
    requires
        is_walk(graph, walk),
        avoids(walk, blocked),
        seen.contains(walk[0]),
        0 <= upto < walk.len(),
        forall|v: Seq<char>, d: Seq<char>|
            seen.contains(v) && !blocked.contains(v) && #[trigger] edge(graph, v, d)
                ==> seen.contains(d),
    ensures
        seen.contains(walk[upto]),
    decreases upto,
{
    if upto > 0 {
        lemma_walk_is_seen(graph, blocked, seen, walk, upto - 1);
        assert(!blocked.contains(walk[upto - 1]));
        assert(edge(graph, walk[upto - 1], walk[upto]));
    }
}

/// Whether the project needs the package `name`: a walk in the lockfile
/// graph leads to it from a runtime or development dependency of the project.
pub open spec fn needed(graph: Graph, pkg: &PackageJson, name: Seq<char>) -> bool {
    exists|root: Seq<char>|
        (pkg.dependencies@.dom().contains(root) || pkg.dev_dependencies@.dom().contains(root))
            && #[trigger] reaches(graph, root, name)
}

/// The names of the packages that the project needs.
pub fn reachable_names(pkg: &PackageJson, lock: &CrabbyLock) -> (names: Vec<String>)
    ensures
        forall|m: Seq<char>| texts(names@).contains(m) <==> needed(lock@, pkg, m),
        closed_set(lock@, texts(names@)),
        distinct(texts(names@)),
{
    let roots = pkg.get_all_dependencies();
    let ghost graph = lock@;
    let ghost listed = roots.pairs();
    let mut names: Vec<String> = Vec::new();
    let mut i: usize = 0;
    assert(texts(names@) =~= Seq::<Seq<char>>::empty());
    while i < roots.len()
        invariant
            i <= listed.len(),
            listed == roots.pairs(),
            graph == lock@,
            closed_set(graph, texts(names@)),
            distinct(texts(names@)),
            forall|m: Seq<char>|
                texts(names@).contains(m) <==> exists|j: int|
                    0 <= j < i && #[trigger] reaches(graph, listed[j].0, m),
        decreases listed.len() - i,
    {
        let root = roots.key_at(i);
        let ghost before = texts(names@);
        collect_reachable(root.as_str(), lock, &mut names);
        proof {
            let after = texts(names@);
            assert forall|m: Seq<char>| after.contains(m) <==> exists|j: int|
                0 <= j < i + 1 && #[trigger] reaches(graph, listed[j].0, m) by {
                if after.contains(m) {
                    if before.contains(m) {
                        let j = choose|j: int|
                            0 <= j < i && #[trigger] reaches(graph, listed[j].0, m);
                        assert(reaches(graph, listed[j].0, m));
                    } else {
                        assert(reaches_avoiding(graph, before, root@, m));
                        let walk = choose|walk: Seq<Seq<char>>| #[trigger]
                            is_walk(graph, walk) && walk[0] == root@ && walk.last() == m && avoids(
                                walk,
                                before,
                            );
                        assert(is_walk(graph, walk) && walk[0] == root@ && walk.last() == m);
                        assert(reaches(graph, listed[i as int].0, m));
                    }
                }
                if exists|j: int| 0 <= j < i + 1 && #[trigger] reaches(graph, listed[j].0, m) {
                    let j = choose|j: int|
                        0 <= j < i + 1 && #[trigger] reaches(graph, listed[j].0, m);
                    if j < i {
                        assert(before.contains(m));
                    } else if !before.contains(m) {
                        let walk = choose|walk: Seq<Seq<char>>| #[trigger]
                            is_walk(graph, walk) && walk[0] == root@ && walk.last() == m;
                        lemma_walk_outside_closed_set(graph, before, walk);
                        assert(is_walk(graph, walk) && walk[0] == root@ && walk.last() == m
                            && avoids(walk, before));
                    }
                }
            }
        }
        i += 1;
    }
    proof {
        use_type_invariant(&roots);
        roots.lemma_keys();
        assert forall|m: Seq<char>| texts(names@).contains(m) <==> needed(graph, pkg, m) by {
            if texts(names@).contains(m) {
                let j = choose|j: int|
                    0 <= j < listed.len() && #[trigger] reaches(graph, listed[j].0, m);
                assert(roots.keys()[j] == listed[j].0);
                assert(roots.keys().to_set().contains(listed[j].0));
                assert(roots@.dom().contains(listed[j].0));
            }
            if needed(graph, pkg, m) {
                let root = choose|root: Seq<char>|
                    (pkg.dependencies@.dom().contains(root)
                        || pkg.dev_dependencies@.dom().contains(root)) && #[trigger] reaches(
                        graph,
                        root,
                        m,
                    );
                assert(roots@.dom().contains(root));
                assert(roots.keys().to_set().contains(root));
                let j = choose|j: int| 0 <= j < roots.keys().len() && roots.keys()[j] == root;
                assert(listed[j].0 == root);
                assert(reaches(graph, listed[j].0, m));
            }
        }
    }
    names
}

/// What pruning does with a directory of the module tree.
#[derive(Clone, Copy, PartialEq, Eq, Structural, Debug)]
pub enum PruneStep {
    /// The directory stays.
    Keep,
    /// The directory is a scope: its subdirectories are the packages to look at.
    Descend,
    /// The directory holds a package that is not needed: it is removed.
    Remove,
}

/// What pruning does with the directory `entry`, named relative to the
/// module tree with `/` between a scope and its package. A name that
/// starts with a dot is reserved and stays. A name that starts with `@`
/// and has no slash is a scope. Every other directory holds a package,
/// which stays if it is among `reachable`.
pub open spec fn prune_step(entry: Seq<char>, reachable: Seq<Seq<char>>) -> PruneStep {
    if entry.len() > 0 && entry[0] == '.' {
        PruneStep::Keep
    } else if entry.len() > 0 && entry[0] == '@' && !entry.contains('/') {
        PruneStep::Descend
    } else if reachable.contains(entry) {
        PruneStep::Keep
    } else {
        PruneStep::Remove
    }
}

/// What pruning does with the directory `entry` when the packages in
/// `reachable` are needed.
pub fn classify_entry(entry: &str, reachable: &Vec<String>) -> (step: PruneStep)
    ensures
        step == prune_step(entry@, texts(reachable@)),
{
    let chars = chars_of(entry);
    if chars.len() > 0 && chars[0] == '.' {
        return PruneStep::Keep;
    }
    if chars.len() > 0 && chars[0] == '@' {
        let mut i: usize = 0;
        let mut slash = false;
        while i < chars.len() && !slash
            invariant
                i <= chars.len(),
                chars@ == entry@,
                slash ==> entry@.contains('/'),
                !slash ==> forall|j: int| 0 <= j < i ==> chars[j] != '/',
            decreases chars.len() - i + if slash { 0int } else { 1int },
        {
            if chars[i] == '/' {
                assert(entry@[i as int] == '/');
                slash = true;
            } else {
                i += 1;
            }
        }
        if !slash {
            proof {
                if entry@.contains('/') {
                    let j = choose|j: int| 0 <= j < entry@.len() && entry@[j] == '/';
                    assert(chars[j] != '/');
                }
            }
            return PruneStep::Descend;
        }
    }
    if contains_text(reachable, entry) {
        PruneStep::Keep
    } else {
        PruneStep::Remove
    }
}

} // verus!
