//! Who may fetch and extract right now.
//!
//! During one install run a package name is held by at most one task while
//! that task fetches and extracts, and only a bounded number of tasks
//! download at the same time. Both books are kept here. Nothing here
//! blocks: a task that is turned away waits and asks again.

use crate::text::{distinct, index_of_text, texts};
use vstd::prelude::*;

verus! {

/// The names inside the fetch-and-extract section, and the download permits in use.
pub struct Section {
    holders: Vec<String>,
    permits_in_use: usize,
    capacity: usize,
}

impl Section {
    /// A name is held at most once, and no more permits are out than there are.
    #[verifier::type_invariant]
    pub open spec fn wf(&self) -> bool {
        &&& distinct(self.holders())
        &&& self.in_use() <= self.capacity()
    }

    /// The names that are held, in the order in which they were granted.
    pub closed spec fn holders(&self) -> Seq<Seq<char>> {
        texts(self.holders@)
    }

    /// Whether `name` is held.
    pub open spec fn holds(&self, name: Seq<char>) -> bool {
        self.holders().contains(name)
    }

    /// The number of download permits that are out.
    pub closed spec fn in_use(&self) -> nat {
        self.permits_in_use as nat
    }

    /// The number of download permits there are.
    pub closed spec fn capacity(&self) -> nat {
        self.capacity as nat
    }

    /// At every moment a name is held by one task at most, and the permits
    /// that are out never exceed the capacity.
    pub proof fn lemma_exclusive(&self)
        requires
            self.wf(),
        ensures
            distinct(self.holders()),
            self.in_use() <= self.capacity(),
    {
    }

    /// A section with `capacity` permits that nobody has entered yet.
    pub fn new(capacity: usize) -> (section: Section)
        ensures
            section.holders() == Seq::<Seq<char>>::empty(),
            section.in_use() == 0,
            section.capacity() == capacity,
    {
        let section = Section { holders: Vec::new(), permits_in_use: 0, capacity };
        section
    }

    /// Takes the hold on `name` if nobody has it.
    pub fn lock_name(&mut self, name: &str) -> (granted: bool)
        ensures
            granted == !old(self).holds(name@),
            granted ==> final(self).holders() == old(self).holders().push(name@),
            !granted ==> final(self).holders() == old(self).holders(),
            final(self).in_use() == old(self).in_use(),
            final(self).capacity() == old(self).capacity(),
    {
        proof {
            use_type_invariant(&*self);
        }
        match index_of_text(&self.holders, name) {
            Some(_) => false,
            None => {
                let mut held = Section::new(0);
                std::mem::swap(self, &mut held);
                let Section { holders, permits_in_use, capacity } = held;
                let mut holders = holders;
                let ghost before = texts(holders@);
                holders.push(String::from_str(name));
                proof {
                    assert(texts(holders@) =~= before.push(name@));
                }
                *self = Section { holders, permits_in_use, capacity };
                true
            },
        }
    }

    /// Gives up the hold on `name`. Without a hold nothing changes.
    pub fn unlock_name(&mut self, name: &str) -> (released: bool)
        ensures
            released == old(self).holds(name@),
            !final(self).holds(name@),
            forall|other: Seq<char>|
                other != name@ ==> final(self).holds(other) == old(self).holds(other),
            final(self).in_use() == old(self).in_use(),
            final(self).capacity() == old(self).capacity(),
    {
        proof {
            use_type_invariant(&*self);
        }
        match index_of_text(&self.holders, name) {
            Some(i) => {
                let mut held = Section::new(0);
                std::mem::swap(self, &mut held);
                let Section { holders, permits_in_use, capacity } = held;
                let mut holders = holders;
                let ghost before = texts(holders@);
                holders.remove(i);
                proof {
                    let after = texts(holders@);
                    assert(after =~= before.remove(i as int));
                    if after.contains(name@) {
                        let a = choose|a: int| 0 <= a < after.len() && after[a] == name@;
                        let a0 = if a < i { a } else { a + 1 };
                        assert(before[a0] != before[i as int]);
                    }
                    assert forall|other: Seq<char>| other != name@ implies after.contains(other)
                        == before.contains(other) by {
                        if before.contains(other) {
                            let b = choose|b: int| 0 <= b < before.len() && before[b] == other;
                            let b1 = if b < i { b } else { b - 1 };
                            assert(after[b1] == other);
                        }
                        if after.contains(other) {
                            let a = choose|a: int| 0 <= a < after.len() && after[a] == other;
                        }
                    }
                }
                *self = Section { holders, permits_in_use, capacity };
                true
            },
            None => false,
        }
    }

    /// Takes a download permit if one is left.
    pub fn acquire_permit(&mut self) -> (granted: bool)
        ensures
            granted == (old(self).in_use() < old(self).capacity()),
            final(self).in_use() == old(self).in_use() + if granted { 1nat } else { 0nat },
            final(self).holders() == old(self).holders(),
            final(self).capacity() == old(self).capacity(),
    {
        proof {
            use_type_invariant(&*self);
        }
        if self.permits_in_use < self.capacity {
            self.permits_in_use += 1;
            true
        } else {
            false
        }
    }

    /// Hands a download permit back. With no permit out nothing changes.
    pub fn release_permit(&mut self)
        ensures
            final(self).in_use() == if old(self).in_use() > 0 {
                (old(self).in_use() - 1) as nat
            } else {
                0nat
            },
            final(self).holders() == old(self).holders(),
            final(self).capacity() == old(self).capacity(),
    {
        proof {
            use_type_invariant(&*self);
        }
        if self.permits_in_use > 0 {
            self.permits_in_use -= 1;
        }
    }
}

} // verus!
