//! The verified headers that the light client remembers: a bounded map from
//! slot to the root of the header of that slot, kept in the order of the
//! slots. When the map is full, the entry of the lowest slot makes room.

use vstd::prelude::*;

verus! {

/// The verified headers that the light client remembers.
#[derive(Debug)]
pub struct Checkpoints {
    capacity: usize,
    entries: Vec<(u64, [u8; 32])>,
}

/// Whether the slots of `entries` grow strictly.
pub open spec fn slots_grow(entries: Seq<(u64, Seq<u8>)>) -> bool {
    forall|i: int, j: int| 0 <= i < j < entries.len() ==> entries[i].0 < entries[j].0
}

/// Number of entries of `entries` whose slot is below `slot`.
pub open spec fn spec_place(entries: Seq<(u64, Seq<u8>)>, slot: u64) -> int
    decreases entries.len(),
{
    if entries.len() == 0 {
        0
    } else if entries.last().0 < slot {
        entries.len() as int
    } else {
        spec_place(entries.drop_last(), slot)
    }
}

/// `entries` with the root of `slot` set to `root`: written over the entry of
/// the slot if there is one, and put in at the place of the slot if not.
pub open spec fn spec_put(entries: Seq<(u64, Seq<u8>)>, slot: u64, root: Seq<u8>) -> Seq<(u64, Seq<u8>)> {
    let place = spec_place(entries, slot);
    if place < entries.len() && entries[place].0 == slot {
        entries.update(place, (slot, root))
    } else {
        entries.insert(place, (slot, root))
    }
}

/// `entries` without its first entries, so that at most `capacity` stay.
pub open spec fn spec_evict(entries: Seq<(u64, Seq<u8>)>, capacity: nat) -> Seq<(u64, Seq<u8>)> {
    if entries.len() <= capacity {
        entries
    } else {
        entries.subrange(entries.len() - capacity, entries.len() as int)
    }
}

/// The place of a slot lies in the list; the entries before it have lower
/// slots, the entries from it on have slots that are not lower.
pub proof fn lemma_place(entries: Seq<(u64, Seq<u8>)>, slot: u64)
    requires
        slots_grow(entries),
    ensures
        0 <= spec_place(entries, slot) <= entries.len(),
        forall|k: int| 0 <= k < spec_place(entries, slot) ==> entries[k].0 < slot,
        forall|k: int| spec_place(entries, slot) <= k < entries.len() ==> entries[k].0 >= slot,
    decreases entries.len(),
{
    if entries.len() > 0 && entries.last().0 >= slot {
        let front = entries.drop_last();
        assert(slots_grow(front)) by {
            assert forall|i: int, j: int| 0 <= i < j < front.len() implies front[i].0
                < front[j].0 by {
                assert(front[i] == entries[i] && front[j] == entries[j]);
            }
        }
        lemma_place(front, slot);
        assert forall|k: int| 0 <= k < spec_place(entries, slot) implies entries[k].0 < slot by {
            assert(front[k] == entries[k]);
        }
        assert forall|k: int| spec_place(entries, slot) <= k < entries.len() implies entries[k].0
            >= slot by {
            if k < entries.len() - 1 {
                assert(front[k] == entries[k]);
            }
        }
    }
}

/// Putting an entry into a list whose slots grow gives a list whose slots
/// grow.
pub proof fn lemma_put_grows(entries: Seq<(u64, Seq<u8>)>, slot: u64, root: Seq<u8>)
    requires
        slots_grow(entries),
    ensures
        slots_grow(spec_put(entries, slot, root)),
{
    lemma_place(entries, slot);
    let place = spec_place(entries, slot);
    let after = spec_put(entries, slot, root);
    assert forall|i: int, j: int| 0 <= i < j < after.len() implies after[i].0 < after[j].0 by {
        if place < entries.len() && entries[place].0 == slot {
            assert(after[i].0 == entries[i].0);
            assert(after[j].0 == entries[j].0);
        } else {
            if i < place {
                assert(after[i] == entries[i]);
            } else if i > place {
                assert(after[i] == entries[i - 1]);
            }
            if j < place {
                assert(after[j] == entries[j]);
            } else if j > place {
                assert(after[j] == entries[j - 1]);
            }
        }
    }
}

/// The entries with their roots as byte strings.
pub open spec fn entries_view(entries: Seq<(u64, [u8; 32])>) -> Seq<(u64, Seq<u8>)> {
    Seq::new(entries.len(), |i: int| (entries[i].0, entries[i].1@))
}

impl Checkpoints {
    /// The entries, lowest slot first.
    pub closed spec fn view(&self) -> Seq<(u64, Seq<u8>)> {
        entries_view(self.entries@)
    }

    /// The greatest number of entries that the map holds.
    pub closed spec fn spec_capacity(&self) -> nat {
        self.capacity as nat
    }

    /// The slots grow strictly, and the map holds no more entries than its
    /// capacity.
    pub open spec fn well_formed(&self) -> bool {
        slots_grow(self@) && self@.len() <= self.spec_capacity()
    }

    /// The root remembered for `slot`, if there is one.
    pub open spec fn spec_get(&self, slot: u64) -> Option<Seq<u8>> {
        if exists|i: int| 0 <= i < self@.len() && self@[i].0 == slot {
            Some(self@[choose|i: int| 0 <= i < self@.len() && self@[i].0 == slot].1)
        } else {
            None
        }
    }

    /// An empty map that holds at most `capacity` entries.
    pub fn new(capacity: usize) -> (checkpoints: Checkpoints)
        ensures
            checkpoints.well_formed(),
            checkpoints@ == Seq::<(u64, Seq<u8>)>::empty(),
            checkpoints.spec_capacity() == capacity,
    {
        let checkpoints = Checkpoints { capacity, entries: Vec::new() };
        assert(checkpoints@ =~= Seq::<(u64, Seq<u8>)>::empty());
        checkpoints
    }

    /// Number of entries.
    pub fn len(&self) -> (count: usize)
        ensures
            count == self@.len(),
    {
        self.entries.len()
    }

    /// The entry at `index`, lowest slot first.
    pub fn entry(&self, index: usize) -> (entry: (u64, [u8; 32]))
        requires
            index < self@.len(),
        ensures
            (entry.0, entry.1@) == self@[index as int],
    {
        self.entries[index]
    }

    /// Looks up the root remembered for `slot`.
    pub fn get(&self, slot: u64) -> (root: Option<[u8; 32]>)
        requires
            self.well_formed(),
        ensures
            root matches Some(bytes) ==> self.spec_get(slot) == Some(bytes@),
            root is None ==> self.spec_get(slot) is None,
    {
        let mut i: usize = 0;
        while i < self.entries.len()
            invariant
                i <= self.entries@.len(),
                slots_grow(self@),
                self@ == entries_view(self.entries@),
                forall|k: int| 0 <= k < i ==> self.entries@[k].0 != slot,
            decreases self.entries@.len() - i,
        {
            if self.entries[i].0 == slot {
                proof {
                    let chosen = choose|c: int| 0 <= c < self@.len() && self@[c].0 == slot;
                    if chosen < i {
                        assert(self@[chosen].0 < self@[i as int].0);
                    } else if chosen > i {
                        assert(self@[i as int].0 < self@[chosen].0);
                    }
                }
                return Some(self.entries[i].1);
            }
            i += 1;
        }
        None
    }

    /// Finds the place of `slot`: the number of entries with a lower slot.
    fn find_place(&self, slot: u64) -> (place: usize)
        ensures
            place == spec_place(self@, slot),
            place <= self@.len(),
    {
        proof {
            assert(self@.subrange(0, self@.len() as int) =~= self@);
        }
        let mut place: usize = self.entries.len();
        while place > 0 && self.entries[place - 1].0 >= slot
            invariant
                place <= self.entries@.len(),
                self@ == entries_view(self.entries@),
                spec_place(self@, slot) == spec_place(self@.subrange(0, place as int), slot),
            decreases place,
        {
            proof {
                let part = self@.subrange(0, place as int);
                assert(part.last() == self@[place - 1]);
                assert(part.drop_last() =~= self@.subrange(0, place - 1));
            }
            place -= 1;
        }
        proof {
            let part = self@.subrange(0, place as int);
            if place > 0 {
                assert(part.last() == self@[place - 1]);
            }
        }
        place
    }

    /// Remembers `root` for `slot`. If the map then holds more entries than
    /// its capacity, the entry of the lowest slot is dropped.
    pub fn insert(&mut self, slot: u64, root: [u8; 32])
        requires
            old(self).well_formed(),
        ensures
            final(self).well_formed(),
            final(self).spec_capacity() == old(self).spec_capacity(),
            final(self)@ == spec_evict(
                spec_put(old(self)@, slot, root@),
                old(self).spec_capacity(),
            ),
    {
        proof {
            lemma_put_grows(self@, slot, root@);
        }
        let place = self.find_place(slot);
        if place < self.entries.len() && self.entries[place].0 == slot {
            self.entries[place] = (slot, root);
        } else {
            self.entries.insert(place, (slot, root));
        }
        let ghost put = self@;
        assert(put =~= spec_put(old(self)@, slot, root@));
        if self.entries.len() > self.capacity {
            self.entries.remove(0);
            assert(self@ =~= put.subrange(1, put.len() as int));
            proof {
                let kept = self@;
                assert forall|i: int, j: int| 0 <= i < j < kept.len() implies kept[i].0
                    < kept[j].0 by {
                    assert(kept[i] == put[i + 1]);
                    assert(kept[j] == put[j + 1]);
                }
            }
        }
    }
}

} // verus!
