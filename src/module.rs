//! The kitties module: its stores, and the create, breed and transfer operations over them.
//!
//! Every operation checks all it needs before it writes: an operation that fails leaves the
//! module as it was.

use vstd::prelude::*;
use vstd::set_lib::{lemma_int_range, lemma_len_subset, set_int_range};
use crate::dna::{combine_kitties, entropy_of, mixed_dna, random_value, Kitty};
use crate::ownership::{index_append, index_transfer, slots_in, OwnershipIndex};

verus! {

/// Why an operation was refused.
#[derive(Clone, Copy, Debug, PartialEq, Eq, Structural)]
pub enum Error {
    /// Every kitty id has been given out.
    CounterOverflow,
    /// The receiving account already holds `u32::MAX` kitties.
    OwnerCountOverflow,
    /// No kitty has that id.
    InvalidEntityId,
    /// A kitty cannot breed with itself.
    RequireDifferentParent,
    /// The caller holds no kitty in that slot.
    NotOwner,
    /// The recipient could not be resolved to an account.
    UnresolvableRecipient,
}

/// The runtime that hosts the module: it resolves a recipient reference to an account.
pub trait Trait {
    /// The account that `source` stands for, or `None` where it stands for none.
    fn lookup(&self, source: u64) -> Option<u64>;
}

/// The stores of the module: the kitties by id, the next id, and the ownership index.
pub struct Module {
    kitties: Vec<Kitty>,
    kitties_count: u32,
    owned: OwnershipIndex,
    /// Where each kitty is held: its owner and slot.
    location: Ghost<Map<u32, (u64, int)>>,
}

/// A sequence of distinct ids below `n` has at most `n` elements.
proof fn lemma_distinct_ids_bounded(s: Seq<u32>, n: u32)
    requires
        s.no_duplicates(),
        forall|i: int| 0 <= i < s.len() ==> s[i] < n,
    ensures
        s.len() <= n,
{
    let t = s.map_values(|x: u32| x as int);
    assert(t.no_duplicates()) by {
        assert forall|i: int, j: int| 0 <= i < t.len() && 0 <= j < t.len() && i != j implies t[i]
            != t[j] by {
            assert(s[i] != s[j]);
        }
    }
    t.unique_seq_to_set();
    lemma_int_range(0, n as int);
    assert(t.to_set().subset_of(set_int_range(0, n as int))) by {
        assert forall|x: int| t.to_set().contains(x) implies set_int_range(0, n as int).contains(
            x,
        ) by {
            let k = choose|k: int| 0 <= k < t.len() && t[k] == x;
            assert(s[k] < n);
        }
    }
    lemma_len_subset(t.to_set(), set_int_range(0, n as int));
}

impl Module {
    /// The kitties, by id.
    pub closed spec fn kitty_seq(&self) -> Seq<Kitty> {
        self.kitties@
    }

    /// The next id to give out, which is the number of kitties created.
    pub closed spec fn count(&self) -> u32 {
        self.kitties_count
    }

    /// The ownership index: for each account, its ids slot by slot.
    pub closed spec fn index(&self) -> Map<u64, Seq<u32>> {
        self.owned@
    }

    /// The number of kitties that `owner` holds.
    pub open spec fn spec_owned_count(&self, owner: u64) -> nat {
        slots_in(self.index(), owner).len()
    }

    /// The stores agree: there are `count` kitties, each held in exactly one slot of one account,
    /// and every occupied slot holds a kitty.
    pub closed spec fn wf(&self) -> bool {
        &&& self.kitties@.len() == self.kitties_count
        &&& self.owned.wf()
        &&& forall|o: u64, i: int|
            0 <= i < slots_in(self.owned@, o).len() ==> {
                let id = #[trigger] slots_in(self.owned@, o)[i];
                &&& id < self.kitties_count
                &&& self.location@.contains_key(id)
                &&& self.location@[id] == (o, i)
            }
        &&& forall|id: u32|
            id < self.kitties_count ==> {
                &&& #[trigger] self.location@.contains_key(id)
                &&& 0 <= self.location@[id].1 < slots_in(self.owned@, self.location@[id].0).len()
                &&& slots_in(self.owned@, self.location@[id].0)[self.location@[id].1] == id
            }
    }

    /// An account holds at most as many kitties as exist.
    proof fn lemma_owned_count_bounded(&self, owner: u64)
        requires
            self.wf(),
        ensures
            self.spec_owned_count(owner) <= self.kitties_count,
    {
        let s = slots_in(self.owned@, owner);
        assert(s.no_duplicates()) by {
            assert forall|i: int, j: int| 0 <= i < s.len() && 0 <= j < s.len() && i != j implies s[i]
                != s[j] by {
                assert(self.location@[s[i]] == (owner, i));
                assert(self.location@[s[j]] == (owner, j));
            }
        }
        assert forall|i: int| 0 <= i < s.len() implies s[i] < self.kitties_count by {
            assert(slots_in(self.owned@, owner)[i] < self.kitties_count);
        }
        lemma_distinct_ids_bounded(s, self.kitties_count);
    }

    /// A module with no kitties.
    pub fn new() -> (r: Self)
        ensures
            r.wf(),
            r.count() == 0,
            r.kitty_seq() == Seq::<Kitty>::empty(),
            r.index() == Map::<u64, Seq<u32>>::empty(),
    {
        Module {
            kitties: Vec::new(),
            kitties_count: 0,
            owned: OwnershipIndex::new(),
            location: Ghost(Map::empty()),
        }
    }

    /// The kitty with id `kitty_id`, if it exists.
    pub fn kitties(&self, kitty_id: u32) -> (r: Option<Kitty>)
        requires
            self.wf(),
        ensures
            r == (if kitty_id < self.count() {
                Some(self.kitty_seq()[kitty_id as int])
            } else {
                None::<Kitty>
            }),
    {
        if kitty_id < self.kitties_count {
            Some(self.kitties[kitty_id as usize])
        } else {
            None
        }
    }

    /// The number of kitties created so far, which is the next id.
    pub fn kitties_count(&self) -> (r: u32)
        ensures
            r == self.count(),
    {
        self.kitties_count
    }

    /// The id of the kitty in `slot` of `owner`, if that slot is occupied.
    pub fn owned_kitties(&self, owner: u64, slot: u32) -> (r: Option<u32>)
        ensures
            r == (if slot < self.spec_owned_count(owner) {
                Some(slots_in(self.index(), owner)[slot as int])
            } else {
                None::<u32>
            }),
    {
        self.owned.owned_kitty(owner, slot)
    }

    /// The number of kitties that `owner` holds; 0 for an unknown account.
    pub fn owned_kitties_count(&self, owner: u64) -> (r: u32)
        requires
            self.wf(),
        ensures
            r == self.spec_owned_count(owner),
    {
        self.owned.count_of(owner)
    }

    /// The id that the next kitty gets, unless every id has been given out.
    pub fn next_kitty_id(&self) -> (r: Result<u32, Error>)
        ensures
            r == (if self.count() == u32::MAX {
                Err::<u32, Error>(Error::CounterOverflow)
            } else {
                Ok(self.count())
            }),
    {
        if self.kitties_count == u32::MAX {
            Err(Error::CounterOverflow)
        } else {
            Ok(self.kitties_count)
        }
    }

    /// Stores `kitty` under the next id, `kitty_id`, and gives it to `owner`.
    pub fn insert_kitty(&mut self, owner: u64, kitty_id: u32, kitty: Kitty)
        requires
            old(self).wf(),
            kitty_id == old(self).count(),
            kitty_id < u32::MAX,
        ensures
            final(self).wf(),
            final(self).count() == kitty_id + 1,
            final(self).kitty_seq() == old(self).kitty_seq().push(kitty),
            final(self).index() == index_append(old(self).index(), owner, kitty_id),
    {
        proof {
            self.lemma_owned_count_bounded(owner);
        }
        let ghost old_self = *self;
        let ghost slot = slots_in(self.owned@, owner).len() as int;
        self.kitties.push(kitty);
        self.kitties_count = kitty_id + 1;
        self.owned.append(owner, kitty_id);
        self.location = Ghost(self.location@.insert(kitty_id, (owner, slot)));
        proof {
            assert forall|o: u64, i: int| 0 <= i < slots_in(self.owned@, o).len() implies {
                let id = #[trigger] slots_in(self.owned@, o)[i];
                &&& id < self.kitties_count
                &&& self.location@.contains_key(id)
                &&& self.location@[id] == (o, i)
            } by {
                if o != owner || i != slot {
                    assert(slots_in(self.owned@, o)[i] == slots_in(old_self.owned@, o)[i]);
                }
            }
            assert forall|id: u32| id < self.kitties_count implies {
                &&& #[trigger] self.location@.contains_key(id)
                &&& 0 <= self.location@[id].1 < slots_in(self.owned@, self.location@[id].0).len()
                &&& slots_in(self.owned@, self.location@[id].0)[self.location@[id].1] == id
            } by {
                if id != kitty_id {
                    assert(old_self.location@.contains_key(id));
                }
            }
        }
    }

    /// Creates a kitty for `caller` whose genome is the entropy drawn for `caller` from `seed` at
    /// `extrinsic_index`; it gets the next id and the first free slot of `caller`. Fails, changing
    /// nothing, exactly when every id has been given out.
    pub fn create(&mut self, caller: u64, seed: [u8; 32], extrinsic_index: Option<u32>) -> (r:
        Result<(), Error>)
        requires
            old(self).wf(),
        ensures
            final(self).wf(),
            old(self).count() == u32::MAX ==> r == Err::<(), Error>(Error::CounterOverflow)
                && *final(self) == *old(self),
            old(self).count() < u32::MAX ==> {
                &&& r == Ok::<(), Error>(())
                &&& final(self).count() == old(self).count() + 1
                &&& final(self).kitty_seq().len() == old(self).kitty_seq().len() + 1
                &&& final(self).kitty_seq().drop_last() == old(self).kitty_seq()
                &&& final(self).kitty_seq().last().0@ == entropy_of(seed@, caller, extrinsic_index)
                &&& final(self).index() == index_append(old(self).index(), caller, old(self).count())
            },
    {
        let kitty_id = match self.next_kitty_id() {
            Ok(id) => id,
            Err(e) => return Err(e),
        };
        let dna = random_value(seed, caller, extrinsic_index);
        self.insert_kitty(caller, kitty_id, Kitty(dna));
        assert(self.kitty_seq().drop_last() =~= old(self).kitty_seq());
        Ok(())
    }

    /// Breeds a child of kitties `kitty_id_1` and `kitty_id_2` for `caller`, mixing their genomes
    /// under `selector`. Fails, changing nothing, when the two ids are equal, else when either
    /// names no kitty, else when every id has been given out.
    pub fn do_breed(&mut self, caller: u64, kitty_id_1: u32, kitty_id_2: u32, selector: [u8; 16]) -> (r:
        Result<(), Error>)
        requires
            old(self).wf(),
        ensures
            final(self).wf(),
            r == (if kitty_id_1 == kitty_id_2 {
                Err::<(), Error>(Error::RequireDifferentParent)
            } else if kitty_id_1 >= old(self).count() || kitty_id_2 >= old(self).count() {
                Err(Error::InvalidEntityId)
            } else if old(self).count() == u32::MAX {
                Err(Error::CounterOverflow)
            } else {
                Ok(())
            }),
            r is Err ==> *final(self) == *old(self),
            r is Ok ==> {
                &&& final(self).count() == old(self).count() + 1
                &&& final(self).kitty_seq().len() == old(self).kitty_seq().len() + 1
                &&& final(self).kitty_seq().drop_last() == old(self).kitty_seq()
                &&& final(self).kitty_seq().last().0@ == mixed_dna(
                    old(self).kitty_seq()[kitty_id_1 as int].0@,
                    old(self).kitty_seq()[kitty_id_2 as int].0@,
                    selector@,
                )
                &&& final(self).index() == index_append(old(self).index(), caller, old(self).count())
            },
    {
        if kitty_id_1 == kitty_id_2 {
            return Err(Error::RequireDifferentParent);
        }
        let kitty1 = match self.kitties(kitty_id_1) {
            Some(k) => k,
            None => return Err(Error::InvalidEntityId),
        };
        let kitty2 = match self.kitties(kitty_id_2) {
            Some(k) => k,
            None => return Err(Error::InvalidEntityId),
        };
        let kitty_id = match self.next_kitty_id() {
            Ok(id) => id,
            Err(e) => return Err(e),
        };
        let child = combine_kitties(&kitty1, &kitty2, selector);
        self.insert_kitty(caller, kitty_id, child);
        assert(self.kitty_seq().drop_last() =~= old(self).kitty_seq());
        Ok(())
    }

    /// Breeds a child of kitties `kitty_id_1` and `kitty_id_2` for `caller`, mixing their genomes
    /// under the entropy drawn for `caller` from `seed` at `extrinsic_index`. Fails as `do_breed`
    /// does.
    pub fn breed(
        &mut self,
        caller: u64,
        kitty_id_1: u32,
        kitty_id_2: u32,
        seed: [u8; 32],
        extrinsic_index: Option<u32>,
    ) -> (r: Result<(), Error>)
        requires
            old(self).wf(),
        ensures
            final(self).wf(),
            r == (if kitty_id_1 == kitty_id_2 {
                Err::<(), Error>(Error::RequireDifferentParent)
            } else if kitty_id_1 >= old(self).count() || kitty_id_2 >= old(self).count() {
                Err(Error::InvalidEntityId)
            } else if old(self).count() == u32::MAX {
                Err(Error::CounterOverflow)
            } else {
                Ok(())
            }),
            r is Err ==> *final(self) == *old(self),
            r is Ok ==> {
                &&& final(self).count() == old(self).count() + 1
                &&& final(self).kitty_seq().len() == old(self).kitty_seq().len() + 1
                &&& final(self).kitty_seq().drop_last() == old(self).kitty_seq()
                &&& final(self).kitty_seq().last().0@ == mixed_dna(
                    old(self).kitty_seq()[kitty_id_1 as int].0@,
                    old(self).kitty_seq()[kitty_id_2 as int].0@,
                    entropy_of(seed@, caller, extrinsic_index),
                )
                &&& final(self).index() == index_append(old(self).index(), caller, old(self).count())
            },
    {
        let selector = random_value(seed, caller, extrinsic_index);
        self.do_breed(caller, kitty_id_1, kitty_id_2, selector)
    }

    /// What a transfer by `caller` of the kitty in slot `user_kitty_id` to the account `to`
    /// (`None`: the recipient could not be resolved) does to `pre`, giving `post` and `r`.
    pub open spec fn transferred(
        pre: Module,
        post: Module,
        r: Result<(), Error>,
        caller: u64,
        user_kitty_id: u32,
        to: Option<u64>,
    ) -> bool {
        if user_kitty_id >= pre.spec_owned_count(caller) {
            r == Err::<(), Error>(Error::NotOwner) && post == pre
        } else if to is None {
            r == Err::<(), Error>(Error::UnresolvableRecipient) && post == pre
        } else if pre.spec_owned_count(to->0) == u32::MAX {
            r == Err::<(), Error>(Error::OwnerCountOverflow) && post == pre
        } else {
            &&& r == Ok::<(), Error>(())
            &&& post.count() == pre.count()
            &&& post.kitty_seq() == pre.kitty_seq()
            &&& post.index() == index_transfer(pre.index(), caller, user_kitty_id as int, to->0)
        }
    }

    /// Moves the kitty in slot `user_kitty_id` of `caller` to the first free slot of `to`, the
    /// recipient as resolved (`None` where it could not be); the last kitty of `caller` moves into
    /// the freed slot. Fails, changing nothing, when `caller` has no such slot, else when `to` is
    /// `None`, else when `to` already holds `u32::MAX` kitties.
    pub fn transfer_to(&mut self, caller: u64, user_kitty_id: u32, to: Option<u64>) -> (r: Result<
        (),
        Error,
    >)
        requires
            old(self).wf(),
        ensures
            final(self).wf(),
            Self::transferred(*old(self), *final(self), r, caller, user_kitty_id, to),
    {
        let from_count = self.owned.count_of(caller);
        if user_kitty_id >= from_count {
            return Err(Error::NotOwner);
        }
        let to = match to {
            Some(account) => account,
            None => return Err(Error::UnresolvableRecipient),
        };
        let to_count = self.owned.count_of(to);
        if to_count == u32::MAX {
            return Err(Error::OwnerCountOverflow);
        }
        let ghost old_self = *self;
        let ghost s = slots_in(self.owned@, caller);
        let ghost last_id = s.last();
        let ghost to_slot = slots_in(
            crate::ownership::index_remove_at(self.owned@, caller, user_kitty_id as int),
            to,
        ).len() as int;
        let id = self.owned.transfer_one(caller, user_kitty_id, to);
        self.location = Ghost(
            self.location@.insert(last_id, (caller, user_kitty_id as int)).insert(id, (to, to_slot)),
        );
        proof {
            self.lemma_transfer_keeps_wf(old_self, caller, user_kitty_id as int, to);
        }
        Ok(())
    }

    /// The invariant survives a transfer whose ghost locations were updated as `transfer_to` does.
    proof fn lemma_transfer_keeps_wf(&self, pre: Module, from: u64, slot: int, to: u64)
        requires
            pre.wf(),
            0 <= slot < pre.spec_owned_count(from),
            self.kitties == pre.kitties,
            self.kitties_count == pre.kitties_count,
            self.owned.wf(),
            self.owned@ == index_transfer(pre.owned@, from, slot, to),
            self.location@ == pre.location@.insert(
                slots_in(pre.owned@, from).last(),
                (from, slot),
            ).insert(
                slots_in(pre.owned@, from)[slot],
                (
                    to,
                    slots_in(
                        crate::ownership::index_remove_at(pre.owned@, from, slot),
                        to,
                    ).len() as int,
                ),
            ),
        ensures
            self.wf(),
    {
        let s = slots_in(pre.owned@, from);
        let id = s[slot];
        let last = s.len() - 1;
        let mid = crate::ownership::index_remove_at(pre.owned@, from, slot);
        let to_slot = slots_in(mid, to).len() as int;
        assert(pre.location@[id] == (from, slot));
        assert(pre.location@[s[last]] == (from, last));
        assert forall|o: u64, i: int| 0 <= i < slots_in(self.owned@, o).len() implies {
            let x = #[trigger] slots_in(self.owned@, o)[i];
            &&& x < self.kitties_count
            &&& self.location@.contains_key(x)
            &&& self.location@[x] == (o, i)
        } by {
            if o == to && i == to_slot {
            } else if o == from && i == slot && slot != last {
                assert(slots_in(mid, o)[i] == s[last]);
                assert(s[last] != id);
            } else {
                assert(slots_in(self.owned@, o)[i] == slots_in(mid, o)[i]);
                if o == from {
                    assert(slots_in(mid, o)[i] == s[i]);
                    assert(pre.location@[s[i]] == (from, i));
                } else {
                    assert(slots_in(mid, o)[i] == slots_in(pre.owned@, o)[i]);
                    assert(pre.location@[slots_in(pre.owned@, o)[i]] == (o, i));
                }
            }
        }
        assert forall|x: u32| x < self.kitties_count implies {
            &&& #[trigger] self.location@.contains_key(x)
            &&& 0 <= self.location@[x].1 < slots_in(self.owned@, self.location@[x].0).len()
            &&& slots_in(self.owned@, self.location@[x].0)[self.location@[x].1] == x
        } by {
            assert(pre.location@.contains_key(x));
            let (o, i) = pre.location@[x];
            if x == id {
            } else if x == s[last] {
                assert(slots_in(mid, from)[slot] == x);
            } else {
                assert(o != from || (i != slot && i != last));
                assert(slots_in(mid, o)[i] == x);
            }
        }
    }

    /// Transfers the kitty in slot `user_kitty_id` of `caller` to the account that `lookup`
    /// resolves `to` to. The slot is checked before the recipient is looked up; after that, the
    /// outcome is that of `transfer_to` on whatever the lookup returned.
    pub fn transfer<T: Trait>(&mut self, lookup: &T, caller: u64, user_kitty_id: u32, to: u64) -> (r:
        Result<(), Error>)
        requires
            old(self).wf(),
        ensures
            final(self).wf(),
            user_kitty_id >= old(self).spec_owned_count(caller) ==> r == Err::<(), Error>(
                Error::NotOwner,
            ) && *final(self) == *old(self),
            exists|dest: Option<u64>|
                Self::transferred(*old(self), *final(self), r, caller, user_kitty_id, dest),
    {
        let from_count = self.owned.count_of(caller);
        if user_kitty_id >= from_count {
            assert(Self::transferred(*old(self), *self, Err(Error::NotOwner), caller, user_kitty_id, None));
            return Err(Error::NotOwner);
        }
        let dest = lookup.lookup(to);
        self.transfer_to(caller, user_kitty_id, dest)
    }
}

/// The index seen as the map from (account, slot) to the id held there.
pub open spec fn slot_map(m: Module) -> Map<(u64, int), u32> {
    Map::new(
        |k: (u64, int)| 0 <= k.1 < slots_in(m.index(), k.0).len(),
        |k: (u64, int)| slots_in(m.index(), k.0)[k.1],
    )
}

/// Density: in every well-formed state, the occupied slots of an account are exactly
/// `0..count`, and their number is its count.
pub proof fn lemma_slots_dense(m: Module, owner: u64)
    requires
        m.wf(),
    ensures
        Set::new(|slot: int| slot_map(m).contains_key((owner, slot))) == set_int_range(
            0,
            m.spec_owned_count(owner) as int,
        ),
        Set::new(|slot: int| slot_map(m).contains_key((owner, slot))).len()
            == m.spec_owned_count(owner),
{
    lemma_int_range(0, m.spec_owned_count(owner) as int);
    assert(Set::new(|slot: int| slot_map(m).contains_key((owner, slot))) =~= set_int_range(
        0,
        m.spec_owned_count(owner) as int,
    ));
}

/// Single ownership: in every well-formed state, each kitty that exists is held in exactly one
/// (account, slot), and every occupied slot holds a kitty that exists.
pub proof fn lemma_single_owner(m: Module, kitty_id: u32)
    requires
        m.wf(),
    ensures
        kitty_id < m.count() ==> exists|k: (u64, int)|
            slot_map(m).contains_key(k) && slot_map(m)[k] == kitty_id,
        forall|k1: (u64, int), k2: (u64, int)|
            slot_map(m).contains_key(k1) && slot_map(m).contains_key(k2) && slot_map(m)[k1]
                == kitty_id && slot_map(m)[k2] == kitty_id ==> k1 == k2,
        forall|k: (u64, int)| #[trigger] slot_map(m).contains_key(k) ==> slot_map(m)[k] < m.count(),
{
    if kitty_id < m.count() {
        assert(m.location@.contains_key(kitty_id));
        let k = m.location@[kitty_id];
        assert(slot_map(m).contains_key(k) && slot_map(m)[k] == kitty_id);
    }
    assert forall|k1: (u64, int), k2: (u64, int)|
        slot_map(m).contains_key(k1) && slot_map(m).contains_key(k2) && slot_map(m)[k1]
            == kitty_id && slot_map(m)[k2] == kitty_id implies k1 == k2 by {
        assert(m.location@[slots_in(m.owned@, k1.0)[k1.1]] == k1);
        assert(m.location@[slots_in(m.owned@, k2.0)[k2.1]] == k2);
    }
    assert forall|k: (u64, int)| #[trigger] slot_map(m).contains_key(k) implies slot_map(m)[k]
        < m.count() by {
        assert(slots_in(m.owned@, k.0)[k.1] < m.kitties_count);
    }
}

} // verus!
