//! Where the entries of an archive go.
//!
//! An archive holds one directory, and the package is what is inside it.
//! On extraction the first component of every entry's path is dropped and
//! the rest is placed below the package's directory in the module tree.
//! This module reads entry paths and says, entry by entry, whether it is
//! skipped, written, or refused because it would leave the package's
//! directory. Decompressing and writing are the caller's work.

use crate::linker::Platform;
use crate::text::{chars_of, replace_char, replaced, text_of};
use vstd::prelude::*;

verus! {

/// Whether `c` separates the components of a path on `platform`.
pub open spec fn is_separator(c: char, platform: Platform) -> bool {
    c == '/' || (platform == Platform::Windows && c == '\\')
}

/// The pieces of `path` between separators, empty ones included.
pub open spec fn split(path: Seq<char>, platform: Platform) -> Seq<Seq<char>>
    decreases path.len(),
{
    if path.len() == 0 {
        seq![Seq::<char>::empty()]
    } else {
        let before = split(path.drop_last(), platform);
        if is_separator(path.last(), platform) {
            before.push(Seq::<char>::empty())
        } else {
            before.update(before.len() - 1, before.last().push(path.last()))
        }
    }
}

/// Whether a piece names something: it is neither empty nor the single dot.
pub open spec fn meaningful(piece: Seq<char>) -> bool {
    piece.len() > 0 && piece != seq!['.']
}

/// The pieces that name something, in order.
pub open spec fn kept(pieces: Seq<Seq<char>>) -> Seq<Seq<char>>
    decreases pieces.len(),
{
    if pieces.len() == 0 {
        pieces
    } else if meaningful(pieces.last()) {
        kept(pieces.drop_last()).push(pieces.last())
    } else {
        kept(pieces.drop_last())
    }
}

/// Whether a component is the step to the parent directory.
pub open spec fn is_parent(piece: Seq<char>) -> bool {
    piece == seq!['.', '.']
}

/// Whether a component is refused on `platform` whatever comes before it:
/// on Windows one that holds a colon, which could name a drive or a stream.
pub open spec fn forbidden(piece: Seq<char>, platform: Platform) -> bool {
    platform == Platform::Windows && piece.contains(':')
}

/// Where the components `pieces` lead from the package's directory: the
/// directories gone down and not gone up again, or nothing if they lead
/// above the package's directory or hold a forbidden component.
pub open spec fn resolve(pieces: Seq<Seq<char>>, platform: Platform) -> Option<Seq<Seq<char>>>
    decreases pieces.len(),
{
    if pieces.len() == 0 {
        Some(pieces)
    } else {
        match resolve(pieces.drop_last(), platform) {
            None => None,
            Some(inside) => if forbidden(pieces.last(), platform) {
                None
            } else if is_parent(pieces.last()) {
                if inside.len() == 0 {
                    None
                } else {
                    Some(inside.drop_last())
                }
            } else {
                Some(inside.push(pieces.last()))
            },
        }
    }
}

/// The components after the first one, which names the archive's own directory.
pub open spec fn after_root(named: Seq<Seq<char>>) -> Seq<Seq<char>> {
    if named.len() == 0 {
        named
    } else {
        named.drop_first()
    }
}

/// Whether a path starts at the root of the file system.
pub open spec fn is_absolute(path: Seq<char>, platform: Platform) -> bool {
    path.len() > 0 && is_separator(path[0], platform)
}

/// A component that names a file or directory directly below where it
/// stands: not empty, not a dot or two, without a separator, and not forbidden.
pub open spec fn plain(piece: Seq<char>, platform: Platform) -> bool {
    &&& meaningful(piece)
    &&& !is_parent(piece)
    &&& !forbidden(piece, platform)
    &&& forall|i: int| 0 <= i < piece.len() ==> !is_separator(#[trigger] piece[i], platform)
}

/// What is done with one entry of an archive.
pub enum EntryPlan {
    /// The entry is the archive's own directory, or names nothing: it is passed over.
    Skip,
    /// The entry goes below the package's directory, down these components.
    Write(Vec<String>),
    /// The entry would leave the package's directory: it is refused, and
    /// the installation of the package fails.
    Reject,
}

/// The components of a list of strings.
pub open spec fn pieces_of(parts: Seq<String>) -> Seq<Seq<char>> {
    Seq::new(parts.len(), |i: int| parts[i]@)
}

/// What is done with the entry at `path`: an absolute path is refused;
/// the first component that names something is dropped; what is left is
/// followed from the package's directory.
pub open spec fn planned(path: Seq<char>, platform: Platform) -> Option<Seq<Seq<char>>> {
    if is_absolute(path, platform) {
        None
    } else {
        resolve(after_root(kept(split(path, platform))), platform)
    }
}

/// `plan` is what `planned` says of `path`.
pub open spec fn is_plan_of(plan: EntryPlan, path: Seq<char>, platform: Platform) -> bool {
    match planned(path, platform) {
        None => plan is Reject,
        Some(inside) => if inside.len() == 0 {
            plan is Skip
        } else {
            plan matches EntryPlan::Write(parts) && pieces_of(parts@) == inside
        },
    }
}

/// No piece of a split path holds a separator.
pub proof fn lemma_split_pieces(path: Seq<char>, platform: Platform)
    ensures
        split(path, platform).len() >= 1,
        forall|k: int, i: int|
            0 <= k < split(path, platform).len() && 0 <= i < split(path, platform)[k].len()
                ==> !is_separator(#[trigger] split(path, platform)[k][i], platform),
    decreases path.len(),
{
    if path.len() > 0 {
        lemma_split_pieces(path.drop_last(), platform);
    }
}

/// What is kept is meaningful and comes from the pieces.
pub proof fn lemma_kept(pieces: Seq<Seq<char>>)
    ensures
        forall|k: int|
            0 <= k < kept(pieces).len() ==> meaningful(#[trigger] kept(pieces)[k])
                && pieces.contains(kept(pieces)[k]),
    decreases pieces.len(),
{
    if pieces.len() > 0 {
        let front = pieces.drop_last();
        lemma_kept(front);
        assert forall|k: int| 0 <= k < kept(pieces).len() implies meaningful(
            #[trigger] kept(pieces)[k],
        ) && pieces.contains(kept(pieces)[k]) by {
            if k < kept(front).len() {
                let piece = kept(front)[k];
                assert(front.contains(piece));
                let j = choose|j: int| 0 <= j < front.len() && front[j] == piece;
                assert(pieces[j] == piece);
            } else {
                assert(pieces[pieces.len() - 1] == pieces.last());
            }
        }
    }
}

/// Where components lead is made of components that are not steps to the
/// parent and not forbidden.
pub proof fn lemma_resolve(pieces: Seq<Seq<char>>, platform: Platform)
    ensures
        resolve(pieces, platform) matches Some(inside) ==> forall|k: int|
            0 <= k < inside.len() ==> pieces.contains(#[trigger] inside[k]) && !is_parent(inside[k])
                && !forbidden(inside[k], platform),
    decreases pieces.len(),
{
    if pieces.len() > 0 {
        let front = pieces.drop_last();
        lemma_resolve(front, platform);
        match resolve(pieces, platform) {
            Some(inside) => {
                let before = resolve(front, platform)->0;
                assert forall|k: int| 0 <= k < inside.len() implies pieces.contains(
                    #[trigger] inside[k],
                ) && !is_parent(inside[k]) && !forbidden(inside[k], platform) by {
                    if k < before.len() {
                        assert(inside[k] == before[k]);
                        let j = choose|j: int| 0 <= j < front.len() && front[j] == before[k];
                        assert(pieces[j] == before[k]);
                    } else {
                        assert(pieces[pieces.len() - 1] == inside[k]);
                    }
                }
            },
            None => {},
        }
    }
}

/// Every entry that is written goes down plain components only, so it
/// stays inside the package's directory.
pub proof fn lemma_written_stays_inside(path: Seq<char>, platform: Platform)
    ensures
        planned(path, platform) matches Some(inside) ==> forall|k: int|
            0 <= k < inside.len() ==> plain(#[trigger] inside[k], platform),
{
    if !is_absolute(path, platform) {
        let pieces = split(path, platform);
        let named = kept(pieces);
        let rest = after_root(named);
        lemma_split_pieces(path, platform);
        lemma_kept(pieces);
        lemma_resolve(rest, platform);
        match resolve(rest, platform) {
            Some(inside) => {
                assert forall|k: int| 0 <= k < inside.len() implies plain(
                    #[trigger] inside[k],
                    platform,
                ) by {
                    assert(rest.contains(inside[k]));
                    let j = choose|j: int| 0 <= j < rest.len() && rest[j] == inside[k];
                    assert(named[j + 1] == inside[k]);
                    assert(meaningful(named[j + 1]) && pieces.contains(named[j + 1]));
                    let p = choose|p: int| 0 <= p < pieces.len() && pieces[p] == inside[k];
                    assert forall|i: int| 0 <= i < inside[k].len() implies !is_separator(
                        #[trigger] inside[k][i],
                        platform,
                    ) by {
                        assert(pieces[p][i] == inside[k][i]);
                    }
                }
            },
            None => {},
        }
    }
}

/// The components of a list of character vectors.
pub open spec fn rows(parts: Seq<Vec<char>>) -> Seq<Seq<char>> {
    Seq::new(parts.len(), |i: int| parts[i]@)
}

/// Whether `c` separates the components of a path on `platform`.
pub fn separates(c: char, platform: Platform) -> (sep: bool)
    ensures
        sep == is_separator(c, platform),
{
    c == '/' || (platform == Platform::Windows && c == '\\')
}

/// The pieces of `path` between separators, empty ones included.
pub fn split_path(path: &Vec<char>, platform: Platform) -> (parts: Vec<Vec<char>>)
    ensures
        rows(parts@) == split(path@, platform),
{
    let mut parts: Vec<Vec<char>> = Vec::new();
    let mut current: Vec<char> = Vec::new();
    let mut i: usize = 0;
    assert(path@.take(0) =~= Seq::<char>::empty());
    assert(rows(parts@).push(current@) =~= seq![Seq::<char>::empty()]);
    while i < path.len()
        invariant
            i <= path.len(),
            rows(parts@).push(current@) == split(path@.take(i as int), platform),
        decreases path.len() - i,
    {
        let c = path[i];
        proof {
            let next = path@.take(i as int + 1);
            assert(next.drop_last() =~= path@.take(i as int));
            assert(next.last() == c);
        }
        let ghost done = rows(parts@);
        let ghost open = current@;
        if separates(c, platform) {
            parts.push(current);
            current = Vec::new();
            assert(rows(parts@) =~= done.push(open));
        } else {
            current.push(c);
            assert(rows(parts@).push(current@) =~= done.push(open).update(
                done.len() as int,
                open.push(c),
            ));
        }
        i += 1;
    }
    assert(path@.take(path.len() as int) =~= path@);
    let ghost done = rows(parts@);
    let ghost open = current@;
    parts.push(current);
    assert(rows(parts@) =~= done.push(open));
    parts
}

/// Whether `piece` is the text `..`.
fn is_parent_step(piece: &Vec<char>) -> (parent: bool)
    ensures
        parent == is_parent(piece@),
{
    let parent = piece.len() == 2 && piece[0] == '.' && piece[1] == '.';
    assert(parent ==> piece@ =~= seq!['.', '.']);
    parent
}

/// Whether `piece` names something.
fn names_something(piece: &Vec<char>) -> (named: bool)
    ensures
        named == meaningful(piece@),
{
    let dot = piece.len() == 1 && piece[0] == '.';
    assert(dot ==> piece@ =~= seq!['.']);
    piece.len() > 0 && !dot
}

/// Whether `piece` is refused on `platform` whatever comes before it.
fn is_forbidden(piece: &Vec<char>, platform: Platform) -> (refused: bool)
    ensures
        refused == forbidden(piece@, platform),
{
    if platform != Platform::Windows {
        return false;
    }
    let mut i: usize = 0;
    while i < piece.len()
        invariant
            platform == Platform::Windows,
            i <= piece.len(),
            forall|j: int| 0 <= j < i ==> piece[j] != ':',
        decreases piece.len() - i,
    {
        if piece[i] == ':' {
            assert(piece@[i as int] == ':');
            assert(piece@.contains(':'));
            return true;
        }
        i += 1;
    }
    proof {
        if piece@.contains(':') {
            let j = choose|j: int| 0 <= j < piece@.len() && piece@[j] == ':';
            assert(piece[j] != ':');
        }
    }
    false
}

/// Says what is done with the entry of an archive that stands at `path`.
///
/// The entry is refused if its path is absolute or leads above the
/// package's directory. It is passed over if nothing is left once the
/// archive's own directory is dropped. Otherwise it is written below the
/// package's directory, and the components to go down are all plain.
pub fn plan_entry(path: &str, platform: Platform) -> (plan: EntryPlan)
    ensures
        is_plan_of(plan, path@, platform),
        plan matches EntryPlan::Write(parts) ==> parts.len() > 0 && forall|k: int|
            0 <= k < parts.len() ==> plain(#[trigger] parts[k]@, platform),
{
    let chars = chars_of(path);
    if chars.len() > 0 && separates(chars[0], platform) {
        return EntryPlan::Reject;
    }
    let pieces = split_path(&chars, platform);
    let ghost all = rows(pieces@);
    // Follow the components that name something, the first of them left out.
    let mut inside: Vec<Vec<char>> = Vec::new();
    let mut seen: usize = 0;
    let mut i: usize = 0;
    assert(all.take(0) =~= Seq::<Seq<char>>::empty());
    assert(after_root(kept(all.take(0))) =~= Seq::<Seq<char>>::empty());
    assert(rows(inside@) =~= Seq::<Seq<char>>::empty());
    while i < pieces.len()
        invariant
            i <= pieces.len(),
            all == rows(pieces@),
            all == split(path@, platform),
            !is_absolute(path@, platform),
            seen <= i,
            seen == kept(all.take(i as int)).len(),
            resolve(after_root(kept(all.take(i as int))), platform) == Some(rows(inside@)),
        decreases pieces.len() - i,
    {
        let piece = &pieces[i];
        proof {
            let next = all.take(i as int + 1);
            assert(next.drop_last() =~= all.take(i as int));
            assert(next.last() == piece@);
        }
        let ghost named_before = kept(all.take(i as int));
        let ghost named_after = kept(all.take(i as int + 1));
        if names_something(piece) {
            assert(named_after == named_before.push(piece@));
            if seen == 0 {
                assert(after_root(named_after) =~= Seq::<Seq<char>>::empty());
            } else {
                let ghost rest = after_root(named_after);
                let ghost before = rows(inside@);
                proof {
                    assert(rest.drop_last() =~= after_root(named_before));
                    assert(rest.last() == piece@);
                }
                if is_forbidden(piece, platform) {
                    proof {
                        assert(resolve(rest, platform) is None);
                        lemma_resolve_fails_on(all, i as int + 1, platform);
                    }
                    return EntryPlan::Reject;
                } else if is_parent_step(piece) {
                    if inside.len() == 0 {
                        proof {
                            assert(resolve(rest, platform) is None);
                            lemma_resolve_fails_on(all, i as int + 1, platform);
                        }
                        return EntryPlan::Reject;
                    }
                    inside.pop();
                    assert(rows(inside@) =~= before.drop_last());
                } else {
                    inside.push(piece.clone());
                    assert(rows(inside@) =~= before.push(piece@));
                }
            }
            seen += 1;
        } else {
            assert(named_after == named_before);
        }
        i += 1;
    }
    assert(all.take(pieces.len() as int) =~= all);
    proof {
        lemma_written_stays_inside(path@, platform);
    }
    if inside.len() == 0 {
        return EntryPlan::Skip;
    }
    let mut parts: Vec<String> = Vec::new();
    let mut k: usize = 0;
    while k < inside.len()
        invariant
            k <= inside.len(),
            parts.len() == k,
            forall|j: int| 0 <= j < k ==> parts[j]@ == inside[j]@,
        decreases inside.len() - k,
    {
        parts.push(text_of(&inside[k]));
        k += 1;
    }
    assert(pieces_of(parts@) =~= rows(inside@));
    assert forall|k: int| 0 <= k < parts.len() implies plain(#[trigger] parts[k]@, platform) by {
        assert(parts[k]@ == rows(inside@)[k]);
    }
    EntryPlan::Write(parts)
}

/// Once the components up to position `n` lead nowhere, so do all of them.
pub proof fn lemma_resolve_fails_on(all: Seq<Seq<char>>, n: int, platform: Platform)
    requires
        0 <= n <= all.len(),
        resolve(after_root(kept(all.take(n))), platform) is None,
    ensures
        resolve(after_root(kept(all)), platform) is None,
    decreases all.len() - n,
{
    if n < all.len() {
        let next = all.take(n + 1);
        assert(next.drop_last() =~= all.take(n));
        if meaningful(next.last()) {
            let named = kept(next);
            assert(named == kept(all.take(n)).push(next.last()));
            if kept(all.take(n)).len() > 0 {
                assert(after_root(named).drop_last() =~= after_root(kept(all.take(n))));
            }
        }
        lemma_resolve_fails_on(all, n + 1, platform);
    } else {
        assert(all.take(n) =~= all);
    }
}

/// The position of the first `c` in `s`, or the length of `s` if it has none.
pub open spec fn first_of(s: Seq<char>, c: char) -> int
    decreases s.len(),
{
    if s.len() == 0 || s[0] == c {
        0
    } else {
        1 + first_of(s.drop_first(), c)
    }
}

/// The scope of a package name: for a name of the form `@scope/pkg` what
/// stands before the slash, and nothing for every other name.
pub open spec fn scope_of(name: Seq<char>) -> Option<Seq<char>> {
    if name.len() > 0 && name[0] == '@' && first_of(name, '/') < name.len() {
        Some(name.take(first_of(name, '/')))
    } else {
        None
    }
}

/// The first `c` of `s` stands where `first_of` says, and not before.
pub proof fn lemma_first_of(s: Seq<char>, c: char, i: int)
    requires
        0 <= i <= s.len(),
        forall|j: int| 0 <= j < i ==> s[j] != c,
        i < s.len() ==> s[i] == c,
    ensures
        first_of(s, c) == i,
    decreases i,
{
    if i > 0 {
        let rest = s.drop_first();
        assert forall|j: int| 0 <= j < i - 1 implies rest[j] != c by {
            assert(rest[j] == s[j + 1]);
        }
        lemma_first_of(rest, c, i - 1);
    }
}

/// The directory of the scope of the package `name` in the module tree,
/// which has to be there before the package's own directory, if the name
/// has a scope.
pub fn scope_dir(name: &str, platform: Platform) -> (dir: Option<String>)
    ensures
        match dir {
            Some(d) => scope_of(name@) is Some && d@ == install_path(scope_of(name@)->0, platform),
            None => scope_of(name@) is None,
        },
{
    let chars = chars_of(name);
    if chars.len() == 0 || chars[0] != '@' {
        return None;
    }
    let mut i: usize = 0;
    while i < chars.len() && chars[i] != '/'
        invariant
            i <= chars.len(),
            chars@ == name@,
            forall|j: int| 0 <= j < i ==> chars[j] != '/',
        decreases chars.len() - i,
    {
        i += 1;
    }
    proof {
        lemma_first_of(name@, '/', i as int);
    }
    if i == chars.len() {
        None
    } else {
        let scope = crate::text::text_between(&chars, 0, i);
        assert(name@.take(i as int) =~= chars@.subrange(0, i as int));
        Some(install_dir(scope.as_str(), platform))
    }
}

/// The directory of the package `name` in the module tree, relative to
/// the project: `node_modules`, a separator, and the name, in which the
/// slash of a scoped name is the platform's separator.
pub open spec fn install_path(name: Seq<char>, platform: Platform) -> Seq<char> {
    match platform {
        Platform::Posix => "node_modules/"@ + name,
        Platform::Windows => "node_modules\\"@ + replaced(name, '/', '\\'),
    }
}

/// The directory of the package `name` in the module tree.
pub fn install_dir(name: &str, platform: Platform) -> (dir: String)
    ensures
        dir@ == install_path(name@, platform),
{
    match platform {
        Platform::Posix => {
            let mut dir = String::from_str("node_modules/");
            dir.append(name);
            dir
        },
        Platform::Windows => {
            let mut dir = String::from_str("node_modules\\");
            dir.append(replace_char(name, '/', '\\').as_str());
            dir
        },
    }
}

} // verus!
