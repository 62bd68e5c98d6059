//! An insertion-ordered map from names to strings, with distinct keys.
//!
//! Manifests and lock records keep their dependency tables in this form: a
//! key occurs once, a later insertion under the same key replaces the value
//! in place, and iteration follows the order of first insertion.

use vstd::prelude::*;

verus! {

/// A key and its value, both as character sequences.
pub type Pair = (Seq<char>, Seq<char>);

/// The keys of `pairs`, in order.
pub open spec fn keys_of<V>(pairs: Seq<(Seq<char>, V)>) -> Seq<Seq<char>> {
    Seq::new(pairs.len(), |i: int| pairs[i].0)
}

/// No key occurs at two positions of `pairs`.
pub open spec fn distinct_keys<V>(pairs: Seq<(Seq<char>, V)>) -> bool {
    forall|i: int, j: int|
        0 <= i < pairs.len() && 0 <= j < pairs.len() && i != j ==> #[trigger] pairs[i].0
            != #[trigger] pairs[j].0
}

/// Some position of `pairs` holds `key`.
pub open spec fn has_key<V>(pairs: Seq<(Seq<char>, V)>, key: Seq<char>) -> bool {
    exists|i: int| 0 <= i < pairs.len() && #[trigger] pairs[i].0 == key
}

/// A position of `pairs` that holds `key` (the only one where keys are distinct).
pub open spec fn position_of<V>(pairs: Seq<(Seq<char>, V)>, key: Seq<char>) -> int {
    choose|i: int| 0 <= i < pairs.len() && #[trigger] pairs[i].0 == key
}

/// The finite map that `pairs` lists.
pub open spec fn map_of<V>(pairs: Seq<(Seq<char>, V)>) -> Map<Seq<char>, V> {
    Map::new(|k: Seq<char>| has_key(pairs, k), |k: Seq<char>| pairs[position_of(pairs, k)].1)
}

/// With distinct keys, the pair at position `i` is what the map holds under its key.
pub proof fn lemma_map_of_at<V>(pairs: Seq<(Seq<char>, V)>, i: int)
    requires
        distinct_keys(pairs),
        0 <= i < pairs.len(),
    ensures
        map_of(pairs).dom().contains(pairs[i].0),
        map_of(pairs)[pairs[i].0] == pairs[i].1,
        position_of(pairs, pairs[i].0) == i,
{
    let k = pairs[i].0;
    assert(has_key(pairs, k));
    let p = position_of(pairs, k);
    assert(0 <= p < pairs.len() && pairs[p].0 == k);
    if p != i {
        assert(pairs[p].0 != pairs[i].0);
    }
}

/// Appending a pair under a fresh key inserts it into the map.
pub proof fn lemma_map_of_push<V>(pairs: Seq<(Seq<char>, V)>, key: Seq<char>, value: V)
    requires
        distinct_keys(pairs),
        !has_key(pairs, key),
    ensures
        distinct_keys(pairs.push((key, value))),
        map_of(pairs.push((key, value))) == map_of(pairs).insert(key, value),
{
    let after = pairs.push((key, value));
    assert forall|i: int, j: int|
        0 <= i < after.len() && 0 <= j < after.len() && i != j implies #[trigger] after[i].0
        != #[trigger] after[j].0 by {
        if i < pairs.len() && j < pairs.len() {
            assert(pairs[i].0 != pairs[j].0);
        } else if i < pairs.len() {
            assert(pairs[i].0 == after[i].0);
        } else {
            assert(pairs[j].0 == after[j].0);
        }
    }
    let want = map_of(pairs).insert(key, value);
    assert forall|k: Seq<char>| map_of(after).dom().contains(k) <==> want.dom().contains(k) by {
        if has_key(after, k) {
            let p = position_of(after, k);
            if p < pairs.len() {
                assert(pairs[p].0 == k);
            }
        }
        if has_key(pairs, k) {
            let p = position_of(pairs, k);
            assert(after[p].0 == k);
        }
        if k == key {
            assert(after[pairs.len() as int].0 == k);
        }
    }
    assert forall|k: Seq<char>| map_of(after).dom().contains(k) implies map_of(after)[k]
        == want[k] by {
        let p = position_of(after, k);
        lemma_map_of_at(after, p);
        if p < pairs.len() {
            assert(pairs[p].0 == k);
            lemma_map_of_at(pairs, p);
        }
    }
    assert(map_of(after) =~= want);
}

/// Replacing the value at position `i` replaces it in the map.
pub proof fn lemma_map_of_update<V>(pairs: Seq<(Seq<char>, V)>, i: int, value: V)
    requires
        distinct_keys(pairs),
        0 <= i < pairs.len(),
    ensures
        distinct_keys(pairs.update(i, (pairs[i].0, value))),
        map_of(pairs.update(i, (pairs[i].0, value))) == map_of(pairs).insert(pairs[i].0, value),
{
    let key = pairs[i].0;
    let after = pairs.update(i, (key, value));
    assert forall|a: int| 0 <= a < pairs.len() implies #[trigger] after[a].0 == pairs[a].0 by {}
    assert forall|a: int, b: int|
        0 <= a < after.len() && 0 <= b < after.len() && a != b implies #[trigger] after[a].0
        != #[trigger] after[b].0 by {
        assert(pairs[a].0 != pairs[b].0);
    }
    let want = map_of(pairs).insert(key, value);
    assert forall|k: Seq<char>| map_of(after).dom().contains(k) <==> want.dom().contains(k) by {
        if has_key(after, k) {
            let p = position_of(after, k);
            assert(pairs[p].0 == k);
        }
        if has_key(pairs, k) {
            let p = position_of(pairs, k);
            assert(after[p].0 == k);
        }
        if k == key {
            assert(after[i].0 == k);
        }
    }
    assert forall|k: Seq<char>| map_of(after).dom().contains(k) implies map_of(after)[k]
        == want[k] by {
        let p = position_of(after, k);
        lemma_map_of_at(after, p);
        assert(pairs[p].0 == k);
        lemma_map_of_at(pairs, p);
    }
    assert(map_of(after) =~= want);
}

/// Taking out position `i` removes its key from the map.
pub proof fn lemma_map_of_remove<V>(pairs: Seq<(Seq<char>, V)>, i: int)
    requires
        distinct_keys(pairs),
        0 <= i < pairs.len(),
    ensures
        distinct_keys(pairs.remove(i)),
        !has_key(pairs.remove(i), pairs[i].0),
        map_of(pairs.remove(i)) == map_of(pairs).remove(pairs[i].0),
{
    let key = pairs[i].0;
    let after = pairs.remove(i);
    assert forall|a: int| 0 <= a < after.len() implies #[trigger] after[a] == pairs[if a < i {
        a
    } else {
        a + 1
    }] by {}
    assert forall|a: int, b: int|
        0 <= a < after.len() && 0 <= b < after.len() && a != b implies #[trigger] after[a].0
        != #[trigger] after[b].0 by {
        let a0 = if a < i { a } else { a + 1 };
        let b0 = if b < i { b } else { b + 1 };
        assert(pairs[a0].0 != pairs[b0].0);
    }
    if has_key(after, key) {
        let p = position_of(after, key);
        let p0 = if p < i { p } else { p + 1 };
        assert(pairs[p0].0 != pairs[i].0);
    }
    let want = map_of(pairs).remove(key);
    assert forall|k: Seq<char>| map_of(after).dom().contains(k) <==> want.dom().contains(k) by {
        if has_key(after, k) {
            let p = position_of(after, k);
            let p0 = if p < i { p } else { p + 1 };
            assert(pairs[p0].0 == k);
        }
        if has_key(pairs, k) && k != key {
            let p = position_of(pairs, k);
            let p1 = if p < i { p } else { p - 1 };
            assert(after[p1].0 == k);
        }
    }
    assert forall|k: Seq<char>| map_of(after).dom().contains(k) implies map_of(after)[k]
        == want[k] by {
        let p = position_of(after, k);
        lemma_map_of_at(after, p);
        let p0 = if p < i { p } else { p + 1 };
        assert(pairs[p0].0 == k);
        lemma_map_of_at(pairs, p0);
    }
    assert(map_of(after) =~= want);
}

/// The domain of the map is finite: it has at most as many keys as `pairs` has positions.
pub proof fn lemma_map_of_finite<V>(pairs: Seq<(Seq<char>, V)>)
    ensures
        map_of(pairs).dom().finite(),
        map_of(pairs).dom() == keys_of(pairs).to_set(),
{
    let keys = keys_of(pairs);
    assert forall|k: Seq<char>| map_of(pairs).dom().contains(k) <==> keys.to_set().contains(
        k,
    ) by {
        if has_key(pairs, k) {
            let p = position_of(pairs, k);
            assert(keys[p] == k);
        }
        if keys.contains(k) {
            let p = choose|p: int| 0 <= p < keys.len() && keys[p] == k;
            assert(pairs[p].0 == k);
        }
    }
    assert(map_of(pairs).dom() =~= keys.to_set());
    vstd::seq_lib::seq_to_set_is_finite(keys);
}

/// `pairs` after `value` is put under `key`: in place where the key is held, at the end otherwise.
pub open spec fn put<V>(pairs: Seq<(Seq<char>, V)>, key: Seq<char>, value: V) -> Seq<
    (Seq<char>, V),
> {
    if has_key(pairs, key) {
        pairs.update(position_of(pairs, key), (key, value))
    } else {
        pairs.push((key, value))
    }
}

/// `pairs` after every pair of `more` is put into it, first to last.
pub open spec fn put_all<V>(pairs: Seq<(Seq<char>, V)>, more: Seq<(Seq<char>, V)>) -> Seq<
    (Seq<char>, V),
>
    decreases more.len(),
{
    if more.len() == 0 {
        pairs
    } else {
        put(put_all(pairs, more.drop_last()), more.last().0, more.last().1)
    }
}

/// Putting a value under a key keeps the keys distinct and inserts into the map.
pub proof fn lemma_put<V>(pairs: Seq<(Seq<char>, V)>, key: Seq<char>, value: V)
    requires
        distinct_keys(pairs),
    ensures
        distinct_keys(put(pairs, key, value)),
        map_of(put(pairs, key, value)) == map_of(pairs).insert(key, value),
{
    if has_key(pairs, key) {
        let p = position_of(pairs, key);
        lemma_map_of_update(pairs, p, value);
    } else {
        lemma_map_of_push(pairs, key, value);
    }
}

/// Putting all of `more` keeps the keys distinct; the map is the union in which `more` wins.
pub proof fn lemma_put_all<V>(pairs: Seq<(Seq<char>, V)>, more: Seq<(Seq<char>, V)>)
    requires
        distinct_keys(pairs),
        distinct_keys(more),
    ensures
        distinct_keys(put_all(pairs, more)),
        map_of(put_all(pairs, more)) == map_of(pairs).union_prefer_right(map_of(more)),
    decreases more.len(),
{
    if more.len() == 0 {
        assert(map_of(more) =~= Map::<Seq<char>, V>::empty());
        assert(map_of(pairs).union_prefer_right(map_of(more)) =~= map_of(pairs));
    } else {
        let front = more.drop_last();
        let last = more.last();
        assert forall|i: int, j: int|
            0 <= i < front.len() && 0 <= j < front.len() && i != j implies #[trigger] front[i].0
            != #[trigger] front[j].0 by {
            assert(more[i].0 != more[j].0);
        }
        lemma_put_all(pairs, front);
        lemma_put(put_all(pairs, front), last.0, last.1);
        if has_key(front, last.0) {
            let p = position_of(front, last.0);
            assert(more[p].0 != more[more.len() - 1].0);
        }
        lemma_map_of_push(front, last.0, last.1);
        assert(front.push((last.0, last.1)) =~= more);
        assert(map_of(pairs).union_prefer_right(map_of(front)).insert(last.0, last.1) =~= map_of(
            pairs,
        ).union_prefer_right(map_of(more)));
    }
}

/// The pairs of a list of string pairs, as character sequences.
pub open spec fn pairs_of(list: Seq<(String, String)>) -> Seq<Pair> {
    Seq::new(list.len(), |i: int| (list[i].0@, list[i].1@))
}

/// A table that is written out and built again from what was written is
/// the same map, in whatever order its entries come back.
pub proof fn lemma_rebuilt_from_pairs(pairs: Seq<Pair>, shuffled: Seq<Pair>)
    requires
        distinct_keys(pairs),
        distinct_keys(shuffled),
        forall|p: Pair| shuffled.contains(p) <==> pairs.contains(p),
    ensures
        map_of(put_all(Seq::<Pair>::empty(), shuffled)) == map_of(pairs),
{
    let empty = Seq::<Pair>::empty();
    lemma_put_all(empty, shuffled);
    assert(map_of(empty) =~= Map::<Seq<char>, Seq<char>>::empty());
    let rebuilt = map_of(empty).union_prefer_right(map_of(shuffled));
    assert forall|k: Seq<char>| rebuilt.dom().contains(k) <==> map_of(pairs).dom().contains(
        k,
    ) by {
        if has_key(shuffled, k) {
            let i = position_of(shuffled, k);
            assert(shuffled.contains(shuffled[i]));
            let j = choose|j: int| 0 <= j < pairs.len() && pairs[j] == shuffled[i];
            assert(pairs[j].0 == k);
        }
        if has_key(pairs, k) {
            let j = position_of(pairs, k);
            assert(pairs.contains(pairs[j]));
            let i = choose|i: int| 0 <= i < shuffled.len() && shuffled[i] == pairs[j];
            assert(shuffled[i].0 == k);
        }
    }
    assert forall|k: Seq<char>| rebuilt.dom().contains(k) implies rebuilt[k] == map_of(pairs)[k] by {
        let i = position_of(shuffled, k);
        lemma_map_of_at(shuffled, i);
        assert(shuffled.contains(shuffled[i]));
        let j = choose|j: int| 0 <= j < pairs.len() && pairs[j] == shuffled[i];
        lemma_map_of_at(pairs, j);
    }
    assert(rebuilt =~= map_of(pairs));
}

/// The position in `entries` whose key has the text of `key`, if any.
pub fn find_key(entries: &Vec<(String, String)>, key: &String) -> (found: Option<usize>)
    ensures
        match found {
            Some(i) => i < entries.len() && entries[i as int].0@ == key@,
            None => forall|i: int| 0 <= i < entries.len() ==> entries[i].0@ != key@,
        },
{
    let mut i: usize = 0;
    while i < entries.len()
        invariant
            i <= entries.len(),
            forall|j: int| 0 <= j < i ==> entries[j].0@ != key@,
        decreases entries.len() - i,
    {
        if entries[i].0 == *key {
            return Some(i);
        }
        i += 1;
    }
    None
}

/// An insertion-ordered map from names to strings.
pub struct DepMap {
    entries: Vec<(String, String)>,
}

impl DepMap {
    /// No key occurs twice.
    #[verifier::type_invariant]
    pub open spec fn wf(&self) -> bool {
        distinct_keys(self.pairs())
    }

    /// The entries as key-value pairs, in insertion order.
    pub closed spec fn pairs(&self) -> Seq<Pair> {
        Seq::new(self.entries.len() as nat, |i: int| (self.entries[i].0@, self.entries[i].1@))
    }

    /// The keys, in insertion order.
    pub open spec fn keys(&self) -> Seq<Seq<char>> {
        keys_of(self.pairs())
    }

    /// The keys of a map are the names that its pairs list.
    pub proof fn lemma_keys(&self)
        ensures
            self@.dom().finite(),
            self@.dom() == self.keys().to_set(),
    {
        lemma_map_of_finite(self.pairs());
    }

    /// The empty map.
    pub fn new() -> (m: DepMap)
        ensures
            m.pairs() == Seq::<Pair>::empty(),
            m@ == Map::<Seq<char>, Seq<char>>::empty(),
    {
        let m = DepMap { entries: Vec::new() };
        assert(m.pairs() =~= Seq::<Pair>::empty());
        assert(m@ =~= Map::<Seq<char>, Seq<char>>::empty());
        m
    }

    /// The number of entries.
    pub fn len(&self) -> (n: usize)
        ensures
            n == self.pairs().len(),
    {
        self.entries.len()
    }

    /// Whether the map holds nothing.
    pub fn is_empty(&self) -> (empty: bool)
        ensures
            empty == (self.pairs().len() == 0),
            empty == (self@ == Map::<Seq<char>, Seq<char>>::empty()),
    {
        proof {
            use_type_invariant(self);
            if self.pairs().len() == 0 {
                assert(self@ =~= Map::<Seq<char>, Seq<char>>::empty());
            } else {
                lemma_map_of_at(self.pairs(), 0);
            }
        }
        self.entries.len() == 0
    }

    /// The key at position `i`.
    pub fn key_at(&self, i: usize) -> (key: &String)
        requires
            i < self.pairs().len(),
        ensures
            key@ == self.pairs()[i as int].0,
    {
        &self.entries[i].0
    }

    /// The value at position `i`.
    pub fn value_at(&self, i: usize) -> (value: &String)
        requires
            i < self.pairs().len(),
        ensures
            value@ == self.pairs()[i as int].1,
    {
        &self.entries[i].1
    }

    /// The position of `key`, if the map holds it.
    pub fn position(&self, key: &str) -> (found: Option<usize>)
        ensures
            found is Some <==> self@.dom().contains(key@),
            found matches Some(i) ==> i < self.pairs().len() && self.pairs()[i as int].0 == key@
                && self@[key@] == self.pairs()[i as int].1,
    {
        let owned = String::from_str(key);
        let found = find_key(&self.entries, &owned);
        proof {
            use_type_invariant(self);
            match found {
                Some(i) => {
                    lemma_map_of_at(self.pairs(), i as int);
                },
                None => {
                    if has_key(self.pairs(), key@) {
                        let p = position_of(self.pairs(), key@);
                        assert(self.entries[p].0@ == key@);
                    }
                },
            }
        }
        found
    }

    /// Whether the map holds `key`.
    pub fn contains_key(&self, key: &str) -> (held: bool)
        ensures
            held == self@.dom().contains(key@),
    {
        self.position(key).is_some()
    }

    /// The value under `key`, if the map holds it.
    pub fn get(&self, key: &str) -> (value: Option<&String>)
        ensures
            value is Some <==> self@.dom().contains(key@),
            value matches Some(v) ==> v@ == self@[key@],
    {
        match self.position(key) {
            Some(i) => Some(&self.entries[i].1),
            None => None,
        }
    }

    /// Puts `value` under `key`. A key that is already held keeps its
    /// position and gives back its former value; a new key goes to the end.
    pub fn insert(&mut self, key: String, value: String) -> (former: Option<String>)
        ensures
            final(self)@ == old(self)@.insert(key@, value@),
            former is Some <==> old(self)@.dom().contains(key@),
            former matches Some(v) ==> v@ == old(self)@[key@],
            final(self).pairs() == put(old(self).pairs(), key@, value@),
    {
        proof {
            use_type_invariant(&*self);
        }
        let ghost before = self.pairs();
        let ghost key_text = key@;
        let ghost value_text = value@;
        let found = find_key(&self.entries, &key);
        let mut entries: Vec<(String, String)> = Vec::new();
        std::mem::swap(&mut entries, &mut self.entries);
        let former = match found {
            Some(i) => {
                proof {
                    lemma_map_of_at(before, i as int);
                    lemma_map_of_update(before, i as int, value_text);
                }
                let taken = entries.remove(i);
                entries.insert(i, (key, value));
                Some(taken.1)
            },
            None => {
                proof {
                    if has_key(before, key_text) {
                        let p = position_of(before, key_text);
                        assert(entries[p].0@ == key_text);
                    }
                    lemma_map_of_push(before, key_text, value_text);
                }
                entries.push((key, value));
                None
            },
        };
        proof {
            let after = Seq::new(entries.len() as nat, |i: int| (entries[i].0@, entries[i].1@));
            match found {
                Some(i) => {
                    assert(after =~= before.update(i as int, (key_text, value_text)));
                },
                None => {
                    assert(after =~= before.push((key_text, value_text)));
                },
            }
        }
        self.entries = entries;
        former
    }

    /// Takes `key` out and gives back its value; the other entries keep their order.
    pub fn remove(&mut self, key: &str) -> (former: Option<String>)
        ensures
            final(self)@ == old(self)@.remove(key@),
            former is Some <==> old(self)@.dom().contains(key@),
            former matches Some(v) ==> v@ == old(self)@[key@],
            match former {
                Some(_) => exists|i: int|
                    0 <= i < old(self).pairs().len() && #[trigger] old(self).pairs()[i].0 == key@
                        && final(self).pairs() == old(self).pairs().remove(i),
                None => final(self).pairs() == old(self).pairs(),
            },
    {
        proof {
            use_type_invariant(&*self);
        }
        let ghost before = self.pairs();
        let owned = String::from_str(key);
        let found = find_key(&self.entries, &owned);
        match found {
            Some(i) => {
                let mut entries: Vec<(String, String)> = Vec::new();
                std::mem::swap(&mut entries, &mut self.entries);
                proof {
                    lemma_map_of_at(before, i as int);
                    lemma_map_of_remove(before, i as int);
                }
                let taken = entries.remove(i);
                proof {
                    let after = Seq::new(
                        entries.len() as nat,
                        |i: int| (entries[i].0@, entries[i].1@),
                    );
                    assert(after =~= before.remove(i as int));
                }
                self.entries = entries;
                Some(taken.1)
            },
            None => {
                proof {
                    if has_key(before, key@) {
                        let p = position_of(before, key@);
                        assert(self.entries[p].0@ == key@);
                    }
                    assert(self@ =~= self@.remove(key@));
                }
                None
            },
        }
    }

    /// The map that lists `list`, first to last: where a key occurs more
    /// than once, its last value stays, at the place of its first occurrence.
    pub fn from_pairs(list: Vec<(String, String)>) -> (m: DepMap)
        ensures
            m.pairs() == put_all(Seq::<Pair>::empty(), pairs_of(list@)),
    {
        let mut m = DepMap::new();
        let ghost listed = pairs_of(list@);
        let mut i: usize = 0;
        assert(listed.take(0) =~= Seq::<Pair>::empty());
        while i < list.len()
            invariant
                i <= list.len(),
                listed == pairs_of(list@),
                m.pairs() == put_all(Seq::<Pair>::empty(), listed.take(i as int)),
            decreases list.len() - i,
        {
            proof {
                let next = listed.take(i as int + 1);
                assert(next.drop_last() =~= listed.take(i as int));
                assert(next.last() == listed[i as int]);
            }
            m.insert(list[i].0.clone(), list[i].1.clone());
            i += 1;
        }
        assert(listed.take(list.len() as int) =~= listed);
        m
    }

    /// The entries, in insertion order.
    pub fn to_pairs(&self) -> (list: Vec<(String, String)>)
        ensures
            pairs_of(list@) == self.pairs(),
    {
        let mut list: Vec<(String, String)> = Vec::new();
        let mut i: usize = 0;
        while i < self.entries.len()
            invariant
                i <= self.entries.len(),
                list.len() == i,
                forall|j: int| 0 <= j < i ==> list[j].0@ == self.entries[j].0@,
                forall|j: int| 0 <= j < i ==> list[j].1@ == self.entries[j].1@,
            decreases self.entries.len() - i,
        {
            list.push((self.entries[i].0.clone(), self.entries[i].1.clone()));
            i += 1;
        }
        assert(pairs_of(list@) =~= self.pairs());
        list
    }

    /// Puts every entry of `other` into the map, first to last.
    pub fn extend(&mut self, other: &DepMap)
        ensures
            final(self)@ == old(self)@.union_prefer_right(other@),
            final(self).pairs() == put_all(old(self).pairs(), other.pairs()),
    {
        proof {
            use_type_invariant(&*self);
            use_type_invariant(other);
        }
        let ghost before = self.pairs();
        let ghost more = other.pairs();
        let mut i: usize = 0;
        assert(more.take(0) =~= Seq::<Pair>::empty());
        while i < other.len()
            invariant
                i <= more.len(),
                more == other.pairs(),
                self.pairs() == put_all(before, more.take(i as int)),
            decreases more.len() - i,
        {
            let key = other.key_at(i).clone();
            let value = other.value_at(i).clone();
            proof {
                let next = more.take(i as int + 1);
                assert(next.drop_last() =~= more.take(i as int));
                assert(next.last() == more[i as int]);
            }
            self.insert(key, value);
            i += 1;
        }
        proof {
            assert(more.take(more.len() as int) =~= more);
            lemma_put_all(before, more);
        }
    }
}

impl Clone for DepMap {
    /// A copy with the same entries in the same order.
    fn clone(&self) -> (copy: DepMap)
        ensures
            copy.pairs() == self.pairs(),
            copy@ == self@,
    {
        proof {
            use_type_invariant(self);
        }
        let mut entries: Vec<(String, String)> = Vec::new();
        let mut i: usize = 0;
        while i < self.entries.len()
            invariant
                i <= self.entries.len(),
                entries.len() == i,
                forall|j: int| 0 <= j < i ==> entries[j].0@ == self.entries[j].0@,
                forall|j: int| 0 <= j < i ==> entries[j].1@ == self.entries[j].1@,
            decreases self.entries.len() - i,
        {
            entries.push((self.entries[i].0.clone(), self.entries[i].1.clone()));
            i += 1;
        }
        assert(Seq::new(entries.len() as nat, |i: int| (entries[i].0@, entries[i].1@))
            =~= self.pairs());
        let copy = DepMap { entries };
        copy
    }
}

impl View for DepMap {
    type V = Map<Seq<char>, Seq<char>>;

    open spec fn view(&self) -> Map<Seq<char>, Seq<char>> {
        map_of(self.pairs())
    }
}

} // verus!
