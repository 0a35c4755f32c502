//! The ownership index: for each account, the dense list of the kitty ids it holds.
//!
//! An account's ids stand in slots `0..count`; removing one moves the last id into the freed
//! slot, so the range stays without gaps.

use vstd::prelude::*;
use std::collections::HashMap;

verus! {

broadcast use vstd::std_specs::hash::group_hash_axioms;

/// The ids held by `owner` in the index `m`, slot by slot; empty for an unknown owner.
pub open spec fn slots_in(m: Map<u64, Seq<u32>>, owner: u64) -> Seq<u32> {
    if m.contains_key(owner) {
        m[owner]
    } else {
        Seq::empty()
    }
}

/// `s` after swap-remove of `slot`: the last id moves into `slot` and the last slot goes.
pub open spec fn swap_removed(s: Seq<u32>, slot: int) -> Seq<u32> {
    s.update(slot, s.last()).drop_last()
}

/// The index after `owner` gives up the id in `slot`.
pub open spec fn index_remove_at(m: Map<u64, Seq<u32>>, owner: u64, slot: int) -> Map<u64, Seq<u32>> {
    m.insert(owner, swap_removed(slots_in(m, owner), slot))
}

/// The index after `id` is placed in the first free slot of `owner`.
pub open spec fn index_append(m: Map<u64, Seq<u32>>, owner: u64, id: u32) -> Map<u64, Seq<u32>> {
    m.insert(owner, slots_in(m, owner).push(id))
}

/// The index after the id in `slot` of `from` moves to `to`.
pub open spec fn index_transfer(m: Map<u64, Seq<u32>>, from: u64, slot: int, to: u64) -> Map<
    u64,
    Seq<u32>,
> {
    index_append(index_remove_at(m, from, slot), to, slots_in(m, from)[slot])
}

/// Which slot to empty when `slot` of `count` occupied slots is removed: `None` when `slot` is
/// the last one, else `Some(count - 1)`, whose id moves into `slot`; and the new count.
pub fn compaction(count: u32, slot: u32) -> (r: (Option<u32>, u32))
    requires
        slot < count,
    ensures
        r.1 == count - 1,
        r.0 == (if slot == count - 1 {
            None::<u32>
        } else {
            Some((count - 1) as u32)
        }),
{
    let last = count - 1;
    if slot == last {
        (None, last)
    } else {
        (Some(last), last)
    }
}

/// The index from accounts to the ids they hold.
pub struct OwnershipIndex {
    owned: HashMap<u64, Vec<u32>>,
}

impl View for OwnershipIndex {
    type V = Map<u64, Seq<u32>>;

    closed spec fn view(&self) -> Map<u64, Seq<u32>> {
        self.owned@.map_values(|v: Vec<u32>| v@)
    }
}

impl OwnershipIndex {
    /// Every account holds at most `u32::MAX` ids.
    pub open spec fn wf(&self) -> bool {
        forall|o: u64| #[trigger] slots_in(self@, o).len() <= u32::MAX
    }

    /// The number of ids that `owner` holds.
    pub open spec fn spec_count_of(&self, owner: u64) -> nat {
        slots_in(self@, owner).len()
    }

    /// An empty index.
    pub fn new() -> (r: Self)
        ensures
            r.wf(),
            r@ == Map::<u64, Seq<u32>>::empty(),
    {
        let r = OwnershipIndex { owned: HashMap::new() };
        assert(r@ =~= Map::<u64, Seq<u32>>::empty());
        r
    }

    /// How many ids `owner` holds; 0 for an unknown owner.
    pub fn count_of(&self, owner: u64) -> (r: u32)
        requires
            self.wf(),
        ensures
            r == self.spec_count_of(owner),
    {
        match self.owned.get(&owner) {
            Some(v) => {
                assert(slots_in(self@, owner) == v@);
                assert(slots_in(self@, owner).len() <= u32::MAX);
                v.len() as u32
            },
            None => 0,
        }
    }

    /// The id in `slot` of `owner`, if that slot is occupied.
    pub fn owned_kitty(&self, owner: u64, slot: u32) -> (r: Option<u32>)
        ensures
            r == (if slot < slots_in(self@, owner).len() {
                Some(slots_in(self@, owner)[slot as int])
            } else {
                None::<u32>
            }),
    {
        match self.owned.get(&owner) {
            Some(v) => {
                assert(slots_in(self@, owner) == v@);
                if (slot as usize) < v.len() {
                    Some(v[slot as usize])
                } else {
                    None
                }
            },
            None => None,
        }
    }

    /// Takes the list of `owner` out of the map, leaving the owner unknown.
    fn take(&mut self, owner: u64) -> (r: Vec<u32>)
        ensures
            r@ == slots_in(old(self)@, owner),
            final(self)@ == old(self)@.remove(owner),
    {
        let r = match self.owned.remove(&owner) {
            Some(v) => v,
            None => Vec::new(),
        };
        assert(final(self)@ =~= old(self)@.remove(owner));
        r
    }

    /// Puts `v` back as the list of `owner`.
    fn put(&mut self, owner: u64, v: Vec<u32>)
        ensures
            final(self)@ == old(self)@.insert(owner, v@),
    {
        self.owned.insert(owner, v);
        assert(final(self)@ =~= old(self)@.insert(owner, v@));
    }

    /// Places `id` in slot `count_of(owner)` of `owner`.
    pub fn append(&mut self, owner: u64, id: u32)
        requires
            old(self).wf(),
            old(self).spec_count_of(owner) < u32::MAX,
        ensures
            final(self).wf(),
            final(self)@ == index_append(old(self)@, owner, id),
    {
        let mut v = self.take(owner);
        v.push(id);
        self.put(owner, v);
        assert(final(self)@ =~= index_append(old(self)@, owner, id));
        assert forall|o: u64| #[trigger] slots_in(final(self)@, o).len() <= u32::MAX by {
            assert(slots_in(old(self)@, o).len() <= u32::MAX);
        }
    }

    /// Removes the id in `slot` of `owner` and returns it; the id in the last slot, if another,
    /// moves into `slot`.
    pub fn remove_at(&mut self, owner: u64, slot: u32) -> (id: u32)
        requires
            old(self).wf(),
            slot < old(self).spec_count_of(owner),
        ensures
            final(self).wf(),
            id == slots_in(old(self)@, owner)[slot as int],
            final(self)@ == index_remove_at(old(self)@, owner, slot as int),
    {
        let ghost s = slots_in(old(self)@, owner);
        assert(s.len() <= u32::MAX);
        let mut v = self.take(owner);
        let id = v[slot as usize];
        let (move_from, _count) = compaction(v.len() as u32, slot);
        match move_from {
            Some(last) => {
                let last_id = v[last as usize];
                v.set(slot as usize, last_id);
            },
            None => {},
        }
        v.pop();
        assert(v@ =~= swap_removed(s, slot as int));
        self.put(owner, v);
        assert(final(self)@ =~= index_remove_at(old(self)@, owner, slot as int));
        assert forall|o: u64| #[trigger] slots_in(final(self)@, o).len() <= u32::MAX by {
            assert(slots_in(old(self)@, o).len() <= u32::MAX);
        }
        id
    }

    /// Moves the id in `slot` of `from` to the first free slot of `to`.
    pub fn transfer_one(&mut self, from: u64, slot: u32, to: u64) -> (id: u32)
        requires
            old(self).wf(),
            slot < old(self).spec_count_of(from),
            old(self).spec_count_of(to) < u32::MAX,
        ensures
            final(self).wf(),
            id == slots_in(old(self)@, from)[slot as int],
            final(self)@ == index_transfer(old(self)@, from, slot as int, to),
    {
        let id = self.remove_at(from, slot);
        assert(self.spec_count_of(to) < u32::MAX);
        self.append(to, id);
        id
    }
}

/// Removing an id of an owner and giving it back to the same owner restores that owner's count;
/// only the order of its slots may change.
pub proof fn lemma_remove_append_count(m: Map<u64, Seq<u32>>, owner: u64, slot: int)
    requires
        0 <= slot < slots_in(m, owner).len(),
    ensures
        slots_in(
            index_append(index_remove_at(m, owner, slot), owner, slots_in(m, owner)[slot]),
            owner,
        ).len() == slots_in(m, owner).len(),
{
}

} // verus!
