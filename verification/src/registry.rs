//! The creature registry and its per-owner ownership index.
//!
//! Ids are allocated densely from zero. For every allocated id the
//! registry records its genome, its current owner and its position in
//! that owner's list; for every owner it keeps a dense, gap-free list
//! of the ids held. Removal uses swap-and-truncate: the removed slot is
//! refilled with the list's last element and that element's
//! back-reference is patched, so the list never has gaps.

use std::collections::HashMap;
use vstd::prelude::*;
use vstd::set_lib::lemma_int_range;
use vstd::set_lib::lemma_len_subset;
use vstd::set_lib::set_int_range;

use crate::AccountId;
use crate::Kitty;
use crate::KittyIndex;

verus! {

broadcast use vstd::std_specs::hash::group_hash_axioms;

/// Why an operation was refused. Validation happens strictly before any
/// mutation, so a refused operation leaves the registry untouched.
#[derive(Clone, Copy, Debug, PartialEq, Eq, Structural)]
pub enum KittyError {
    /// The id space is exhausted: `KittyIndex::MAX` ids have been allocated.
    Overflow,
    /// A referenced id has no registered creature.
    UnknownEntity,
    /// Breeding was attempted with the same creature as both parents.
    SameParent,
}

/// The registry: every creature ever minted, who currently holds it,
/// and a dense per-owner index of held ids.
pub struct Kitties {
    /// Genome of every allocated id; ids are dense, so the length is
    /// both the total count and the next id to allocate.
    entities: Vec<Kitty>,
    /// Current owner of every allocated id.
    owners: Vec<AccountId>,
    /// Position of every allocated id within its current owner's list.
    positions: Vec<KittyIndex>,
    /// Per-owner dense, gap-free list of held ids.
    owned: HashMap<AccountId, Vec<KittyIndex>>,
}

impl Kitties {
    /// Number of ids allocated so far; also the next id to allocate.
    pub closed spec fn total(self) -> nat {
        self.entities@.len()
    }

    /// `id` has been allocated.
    pub open spec fn has_kitty(self, id: KittyIndex) -> bool {
        (id as nat) < self.total()
    }

    /// The genome recorded for `id`.
    pub closed spec fn genome_of(self, id: KittyIndex) -> Seq<u8> {
        self.entities@[id as int].0@
    }

    /// The account currently holding `id`.
    pub closed spec fn owner_of(self, id: KittyIndex) -> AccountId {
        self.owners@[id as int]
    }

    /// The position of `id` within its current owner's list.
    pub closed spec fn position_of(self, id: KittyIndex) -> KittyIndex {
        self.positions@[id as int]
    }

    /// The ids currently held by `owner`, in list order.
    pub closed spec fn list_of(self, owner: AccountId) -> Seq<KittyIndex> {
        if self.owned@.contains_key(owner) {
            self.owned@[owner]@
        } else {
            Seq::empty()
        }
    }

    /// Well-formedness, maintained by every operation: the bookkeeping
    /// vectors cover exactly the allocated ids, the id space is never
    /// exceeded, every allocated id sits in its owner's list exactly at
    /// its recorded position, and every list entry is an allocated id
    /// whose recorded owner and position point right back at it. Hence
    /// the lists are duplicate-free, gap-free, and pairwise disjoint:
    /// each creature is held by exactly one account.
    pub closed spec fn wf(self) -> bool {
        &&& self.owners@.len() == self.total()
        &&& self.positions@.len() == self.total()
        &&& self.total() <= KittyIndex::MAX as nat
        &&& forall|id: KittyIndex|
            self.has_kitty(id) ==> {
                &&& (#[trigger] self.position_of(id) as int) < self.list_of(
                    self.owner_of(id),
                ).len()
                &&& self.list_of(self.owner_of(id))[self.position_of(id) as int] == id
            }
        &&& forall|o: AccountId, p: int|
            0 <= p < self.list_of(o).len() ==> {
                &&& self.has_kitty(#[trigger] self.list_of(o)[p])
                &&& self.owner_of(self.list_of(o)[p]) == o
                &&& self.position_of(self.list_of(o)[p]) == p
            }
    }

    /// An empty registry: nothing minted, no owner holds anything.
    pub fn new() -> (s: Self)
        ensures
            s.wf(),
            s.total() == 0,
            forall|o: AccountId| s.list_of(o) == Seq::<KittyIndex>::empty(),
    {
        let s = Kitties {
            entities: Vec::new(),
            owners: Vec::new(),
            positions: Vec::new(),
            owned: HashMap::new(),
        };
        proof {
            assert(forall|o: AccountId| s.list_of(o) =~= Seq::<KittyIndex>::empty());
        }
        s
    }

    /// An owner's list holds distinct allocated ids, so it can never be
    /// longer than the number of ids allocated; if moreover some
    /// allocated id is held elsewhere, it is strictly shorter.
    proof fn lemma_list_len_bound(self, owner: AccountId)
        requires
            self.wf(),
        ensures
            self.list_of(owner).len() <= self.total(),
            forall|missing: KittyIndex|
                self.has_kitty(missing) && #[trigger] self.owner_of(missing) != owner
                    ==> self.list_of(owner).len() < self.total(),
    {
        let l = self.list_of(owner);
        let li = l.map_values(|x: KittyIndex| x as int);
        assert forall|i: int, j: int| 0 <= i < li.len() && 0 <= j < li.len() && i != j implies li[i]
            != li[j] by {
            assert(self.position_of(l[i]) == i);
            assert(self.position_of(l[j]) == j);
        }
        li.unique_seq_to_set();
        let range = set_int_range(0, self.total() as int);
        lemma_int_range(0, self.total() as int);
        assert forall|e: int| li.to_set().contains(e) implies range.contains(e) by {
            let i = choose|i: int| 0 <= i < li.len() && li[i] == e;
            assert(self.has_kitty(l[i]));
        }
        lemma_len_subset(li.to_set(), range);
        assert forall|missing: KittyIndex|
            self.has_kitty(missing) && #[trigger] self.owner_of(missing)
                != owner implies self.list_of(owner).len() < self.total() by {
            let smaller = range.remove(missing as int);
            assert forall|e: int| li.to_set().contains(e) implies smaller.contains(e) by {
                let i = choose|i: int| 0 <= i < li.len() && li[i] == e;
                assert(self.owner_of(l[i]) == owner);
                assert(self.has_kitty(l[i]));
            }
            assert(range.contains(missing as int));
            assert(smaller.len() == range.len() - 1);
            lemma_len_subset(li.to_set(), smaller);
        }
    }

    /// The id space is never exceeded: a well-formed registry has
    /// allocated at most `KittyIndex::MAX` ids.
    pub proof fn lemma_total_bounded(self)
        requires
            self.wf(),
        ensures
            self.total() <= KittyIndex::MAX as nat,
    {
    }

    /// An owner's list is free of duplicates: each entry's recorded
    /// position points back at the slot it sits in.
    pub proof fn lemma_list_no_duplicates(self, owner: AccountId)
        requires
            self.wf(),
        ensures
            self.list_of(owner).no_duplicates(),
    {
        let l = self.list_of(owner);
        assert forall|i: int, j: int|
            0 <= i < l.len() && 0 <= j < l.len() && i != j implies l[i] != l[j] by {
            assert(self.position_of(l[i]) == i);
            assert(self.position_of(l[j]) == j);
        }
    }

    /// Every allocated id is held by exactly one account: it appears in
    /// its owner's list, and in no other account's list.
    pub proof fn lemma_owned_by_exactly_one(self, id: KittyIndex, other: AccountId)
        requires
            self.wf(),
            self.has_kitty(id),
        ensures
            self.list_of(self.owner_of(id)).contains(id),
            other != self.owner_of(id) ==> !self.list_of(other).contains(id),
    {
        assert(self.list_of(self.owner_of(id))[self.position_of(id) as int] == id);
        if other != self.owner_of(id) && self.list_of(other).contains(id) {
            let i = choose|i: int|
                0 <= i < self.list_of(other).len() && self.list_of(other)[i] == id;
            assert(self.owner_of(self.list_of(other)[i]) == other);
        }
    }

    /// An id no registration has produced is in no account's list.
    pub proof fn lemma_unallocated_unlisted(self, id: KittyIndex, owner: AccountId)
        requires
            self.wf(),
            !self.has_kitty(id),
        ensures
            !self.list_of(owner).contains(id),
    {
        if self.list_of(owner).contains(id) {
            let i = choose|i: int|
                0 <= i < self.list_of(owner).len() && self.list_of(owner)[i] == id;
            assert(self.has_kitty(self.list_of(owner)[i]));
        }
    }

    /// Total number of creatures ever minted; also the next id.
    pub fn kitties_count(&self) -> (n: KittyIndex)
        requires
            self.wf(),
        ensures
            n as nat == self.total(),
    {
        self.entities.len() as u16
    }

    /// The creature registered under `kitty_id`, if any.
    pub fn kitty(&self, kitty_id: KittyIndex) -> (r: Option<Kitty>)
        requires
            self.wf(),
        ensures
            match r {
                Some(k) => self.has_kitty(kitty_id) && k.0@ == self.genome_of(kitty_id),
                None => !self.has_kitty(kitty_id),
            },
    {
        if (kitty_id as usize) < self.entities.len() {
            Some(self.entities[kitty_id as usize])
        } else {
            None
        }
    }

    /// How many creatures `owner` currently holds.
    pub fn owned_kitties_count(&self, owner: AccountId) -> (n: KittyIndex)
        requires
            self.wf(),
        ensures
            n as nat == self.list_of(owner).len(),
    {
        proof {
            self.lemma_list_len_bound(owner);
        }
        match self.owned.get(&owner) {
            Some(l) => l.len() as u16,
            None => 0,
        }
    }

    /// Every id currently held by `owner`, in list order.
    pub fn owned_list(&self, owner: AccountId) -> (r: Vec<KittyIndex>)
        requires
            self.wf(),
        ensures
            r@ == self.list_of(owner),
    {
        match self.owned.get(&owner) {
            Some(l) => {
                let mut out: Vec<KittyIndex> = Vec::new();
                let mut i: usize = 0;
                while i < l.len()
                    invariant
                        i <= l@.len(),
                        out@ == l@.subrange(0, i as int),
                    decreases l@.len() - i,
                {
                    out.push(l[i]);
                    proof {
                        assert(out@ =~= l@.subrange(0, i + 1));
                    }
                    i = i + 1;
                }
                proof {
                    assert(out@ =~= self.list_of(owner));
                }
                out
            },
            None => Vec::new(),
        }
    }

    /// The id the next registration will use, or `Overflow` once every
    /// id up to `KittyIndex::MAX` has been handed out. Never mutates.
    pub fn next_kitty_id(&self) -> (r: Result<KittyIndex, KittyError>)
        requires
            self.wf(),
        ensures
            match r {
                Ok(id) => id as nat == self.total() && self.total() < KittyIndex::MAX as nat,
                Err(e) => e == KittyError::Overflow && self.total() == KittyIndex::MAX as nat,
            },
    {
        let kitty_id = self.kitties_count();
        if kitty_id == KittyIndex::MAX {
            return Err(KittyError::Overflow);
        }
        Ok(kitty_id)
    }

    /// Registers a fresh creature: stores its genome under `kitty_id`,
    /// which must be the next free id, and records `owner` as its
    /// holder at the tail of the owner's list. The sole entry point
    /// through which creatures enter the registry.
    pub fn insert_kitty(&mut self, owner: AccountId, kitty_id: KittyIndex, kitty: Kitty)
        requires
            old(self).wf(),
            kitty_id as nat == old(self).total(),
            old(self).total() < KittyIndex::MAX as nat,
        ensures
            final(self).wf(),
            final(self).total() == old(self).total() + 1,
            final(self).genome_of(kitty_id) == kitty.0@,
            final(self).owner_of(kitty_id) == owner,
            final(self).position_of(kitty_id) as int == old(self).list_of(owner).len(),
            final(self).list_of(owner) == old(self).list_of(owner).push(kitty_id),
            forall|o: AccountId|
                o != owner ==> final(self).list_of(o) == old(self).list_of(o),
            forall|id: KittyIndex|
                old(self).has_kitty(id) ==> {
                    &&& final(self).genome_of(id) == old(self).genome_of(id)
                    &&& final(self).owner_of(id) == old(self).owner_of(id)
                    &&& final(self).position_of(id) == old(self).position_of(id)
                },
    {
        proof {
            self.lemma_list_len_bound(owner);
        }
        self.entities.push(kitty);
        self.owners.push(owner);
        let mut list = match self.owned.remove(&owner) {
            Some(l) => l,
            None => Vec::new(),
        };
        let pos = list.len() as u16;
        list.push(kitty_id);
        self.positions.push(pos);
        self.owned.insert(owner, list);
        proof {
            assert(final(self).list_of(owner) =~= old(self).list_of(owner).push(kitty_id));
            assert forall|o: AccountId| o != owner implies final(self).list_of(o) == old(
                self,
            ).list_of(o) by {
                if old(self).owned@.contains_key(o) {
                    assert(final(self).list_of(o) =~= old(self).list_of(o));
                }
            }
            assert forall|id: KittyIndex| final(self).has_kitty(id) implies {
                &&& (final(self).position_of(id) as int) < final(self).list_of(
                    final(self).owner_of(id),
                ).len()
                &&& final(self).list_of(final(self).owner_of(id))[final(self).position_of(
                    id,
                ) as int] == id
            } by {
                if old(self).has_kitty(id) {
                    assert((old(self).position_of(id) as int) < old(self).list_of(
                        old(self).owner_of(id),
                    ).len());
                }
            }
            assert forall|o: AccountId, p: int|
                0 <= p < final(self).list_of(o).len() implies {
                &&& final(self).has_kitty(#[trigger] final(self).list_of(o)[p])
                &&& final(self).owner_of(final(self).list_of(o)[p]) == o
                &&& final(self).position_of(final(self).list_of(o)[p]) == p
            } by {
                if o == owner && p == old(self).list_of(owner).len() {
                } else {
                    assert(old(self).has_kitty(old(self).list_of(o)[p]));
                }
            }
        }
    }

    /// Mints a creature for `caller`: the genome is derived from the
    /// externally supplied seed mixed with the caller's identity, and
    /// the creature is registered under the next free id with `caller`
    /// as its owner. Fails exactly when the id space is exhausted, in
    /// which case the registry is unchanged.
    pub fn mint(&mut self, caller: AccountId, seed: &[u8; 16]) -> (r: Result<
        KittyIndex,
        KittyError,
    >)
        requires
            old(self).wf(),
        ensures
            final(self).wf(),
            match r {
                Ok(id) => {
                    &&& old(self).total() < KittyIndex::MAX as nat
                    &&& id as nat == old(self).total()
                    &&& final(self).total() == old(self).total() + 1
                    &&& final(self).genome_of(id) == crate::entropy::blake2_128_of(
                        crate::entropy::payload(seed@, caller, crate::entropy::MINT_TAG),
                    )
                    &&& final(self).owner_of(id) == caller
                    &&& final(self).list_of(caller) == old(self).list_of(caller).push(id)
                    &&& forall|o: AccountId|
                        o != caller ==> final(self).list_of(o) == old(self).list_of(o)
                    &&& forall|id2: KittyIndex|
                        old(self).has_kitty(id2) ==> {
                            &&& final(self).genome_of(id2) == old(self).genome_of(id2)
                            &&& final(self).owner_of(id2) == old(self).owner_of(id2)
                        }
                },
                Err(e) => {
                    &&& e == KittyError::Overflow
                    &&& old(self).total() == KittyIndex::MAX as nat
                    &&& *final(self) == *old(self)
                },
            },
    {
        let kitty_id = match self.next_kitty_id() {
            Ok(id) => id,
            Err(e) => {
                return Err(e);
            },
        };
        let genome = crate::entropy::random_value(caller, seed, crate::entropy::MINT_TAG);
        self.insert_kitty(caller, kitty_id, Kitty(genome));
        Ok(kitty_id)
    }

    /// Breeds a creature from two existing parents: its genome takes
    /// each bit from the first parent where the derived selector has
    /// that bit set and from the second parent where it is clear, and
    /// the offspring is registered to `caller` regardless of who owns
    /// the parents. Fails with `UnknownEntity` when either parent id is
    /// unallocated, with `SameParent` when the ids are equal, and with
    /// `Overflow` when the id space is exhausted; any failure leaves
    /// the registry unchanged.
    pub fn breed(
        &mut self,
        caller: AccountId,
        seed: &[u8; 16],
        kitty_id_1: KittyIndex,
        kitty_id_2: KittyIndex,
    ) -> (r: Result<KittyIndex, KittyError>)
        requires
            old(self).wf(),
        ensures
            final(self).wf(),
            match r {
                Ok(id) => {
                    &&& old(self).has_kitty(kitty_id_1)
                    &&& old(self).has_kitty(kitty_id_2)
                    &&& kitty_id_1 != kitty_id_2
                    &&& old(self).total() < KittyIndex::MAX as nat
                    &&& id as nat == old(self).total()
                    &&& final(self).total() == old(self).total() + 1
                    &&& final(self).genome_of(id) == crate::dna::combined(
                        old(self).genome_of(kitty_id_1),
                        old(self).genome_of(kitty_id_2),
                        crate::entropy::blake2_128_of(
                            crate::entropy::payload(seed@, caller, crate::entropy::BREED_TAG),
                        ),
                    )
                    &&& final(self).owner_of(id) == caller
                    &&& final(self).list_of(caller) == old(self).list_of(caller).push(id)
                    &&& forall|o: AccountId|
                        o != caller ==> final(self).list_of(o) == old(self).list_of(o)
                    &&& forall|id2: KittyIndex|
                        old(self).has_kitty(id2) ==> {
                            &&& final(self).genome_of(id2) == old(self).genome_of(id2)
                            &&& final(self).owner_of(id2) == old(self).owner_of(id2)
                        }
                },
                Err(e) => {
                    &&& *final(self) == *old(self)
                    &&& (e == KittyError::UnknownEntity <==> (!old(self).has_kitty(kitty_id_1)
                        || !old(self).has_kitty(kitty_id_2)))
                    &&& (e == KittyError::SameParent <==> (old(self).has_kitty(kitty_id_1)
                        && old(self).has_kitty(kitty_id_2) && kitty_id_1 == kitty_id_2))
                    &&& (e == KittyError::Overflow <==> (old(self).has_kitty(kitty_id_1) && old(
                        self,
                    ).has_kitty(kitty_id_2) && kitty_id_1 != kitty_id_2 && old(self).total()
                        == KittyIndex::MAX as nat))
                },
            },
    {
        let (dna1, dna2) = match (self.kitty(kitty_id_1), self.kitty(kitty_id_2)) {
            (Some(k1), Some(k2)) => (k1.0, k2.0),
            _ => {
                return Err(KittyError::UnknownEntity);
            },
        };
        if kitty_id_1 == kitty_id_2 {
            return Err(KittyError::SameParent);
        }
        let kitty_id = match self.next_kitty_id() {
            Ok(id) => id,
            Err(e) => {
                return Err(e);
            },
        };
        let selector = crate::entropy::random_value(caller, seed, crate::entropy::BREED_TAG);
        let new_dna = crate::dna::combine(&dna1, &dna2, &selector);
        self.insert_kitty(caller, kitty_id, Kitty(new_dna));
        Ok(kitty_id)
    }
}

/// A freshly registered id never collides with an earlier one: every
/// registration returns the registry's total at that moment and raises
/// it by one, and no operation ever lowers the total, so a later
/// registration always returns a strictly larger id.
pub proof fn lemma_minted_id_fresh(
    earlier: Kitties,
    later: Kitties,
    id: KittyIndex,
    id2: KittyIndex,
)
    requires
        id as nat == earlier.total(),
        later.total() > earlier.total(),
        id2 as nat == later.total(),
    ensures
        id2 != id,
{
}

/// A list after swap-and-truncate removal at position `p`: the last
/// element moves into slot `p` and the list shrinks by one, so it
/// stays gap-free.
pub open spec fn swap_removed(s: Seq<KittyIndex>, p: int) -> Seq<KittyIndex> {
    s.update(p, s.last()).drop_last()
}

/// How a successful transfer of `kitty_id` to `to` changes the
/// registry: the creature's owner becomes `to`; it leaves its previous
/// owner's list by swap-and-truncate and is appended at the tail of
/// `to`'s list; every other account's list, every other creature's
/// owner, every genome and the total count are untouched.
pub open spec fn transfer_effect(
    pre: Kitties,
    post: Kitties,
    to: AccountId,
    kitty_id: KittyIndex,
) -> bool {
    let from = pre.owner_of(kitty_id);
    let p = pre.position_of(kitty_id) as int;
    &&& post.total() == pre.total()
    &&& forall|id: KittyIndex|
        pre.has_kitty(id) ==> post.genome_of(id) == pre.genome_of(id)
    &&& post.owner_of(kitty_id) == to
    &&& forall|id: KittyIndex|
        pre.has_kitty(id) && id != kitty_id ==> post.owner_of(id) == pre.owner_of(id)
    &&& from != to ==> {
        &&& post.list_of(from) == swap_removed(pre.list_of(from), p)
        &&& post.list_of(to) == pre.list_of(to).push(kitty_id)
    }
    &&& from == to ==> post.list_of(to) == swap_removed(pre.list_of(to), p).push(kitty_id)
    &&& forall|o: AccountId|
        o != from && o != to ==> post.list_of(o) == pre.list_of(o)
}

impl Kitties {
    /// Transfers creature `kitty_id` from whatever account currently
    /// holds it to `to`. Fails with `UnknownEntity` exactly when the id
    /// is unallocated, in which case nothing changes. Removal from the
    /// previous owner's list and the append to `to`'s list happen
    /// together; no intermediate state is observable.
    ///
    /// Whether the caller must own the creature is deliberately left to
    /// the host layer: `_caller` does not influence the outcome.
    pub fn transfer(&mut self, _caller: AccountId, to: AccountId, kitty_id: KittyIndex) -> (r:
        Result<(), KittyError>)
        requires
            old(self).wf(),
        ensures
            final(self).wf(),
            match r {
                Ok(_) => {
                    &&& old(self).has_kitty(kitty_id)
                    &&& transfer_effect(*old(self), *final(self), to, kitty_id)
                    &&& final(self).list_of(to).contains(kitty_id)
                    &&& old(self).owner_of(kitty_id) != to ==> {
                        &&& !final(self).list_of(old(self).owner_of(kitty_id)).contains(kitty_id)
                        &&& final(self).list_of(old(self).owner_of(kitty_id)).len() == old(
                            self,
                        ).list_of(old(self).owner_of(kitty_id)).len() - 1
                        &&& final(self).list_of(to).len() == old(self).list_of(to).len() + 1
                    }
                    &&& forall|x: KittyIndex|
                        old(self).list_of(old(self).owner_of(kitty_id)).contains(x) && x
                            != kitty_id ==> final(self).list_of(
                            old(self).owner_of(kitty_id),
                        ).contains(x)
                },
                Err(e) => {
                    &&& e == KittyError::UnknownEntity
                    &&& !old(self).has_kitty(kitty_id)
                    &&& *final(self) == *old(self)
                },
            },
    {
        let ghost pre = *self;
        if (kitty_id as usize) >= self.entities.len() {
            return Err(KittyError::UnknownEntity);
        }
        let from = self.owners[kitty_id as usize];
        let p = self.positions[kitty_id as usize];
        proof {
            pre.lemma_list_len_bound(to);
            assert(pre.has_kitty(kitty_id));
            assert(p == pre.position_of(kitty_id));
            assert(from == pre.owner_of(kitty_id));
            assert((p as int) < pre.list_of(from).len());
            assert(pre.list_of(from)[p as int] == kitty_id);
        }
        // Remove from the previous owner's list by swap-and-truncate.
        let mut list = match self.owned.remove(&from) {
            Some(l) => l,
            None => {
                proof {
                    assert(false);
                }
                Vec::new()
            },
        };
        let removed = list.swap_remove(p as usize);
        let ghost oldlist = pre.list_of(from);
        proof {
            assert(removed == kitty_id);
            assert(list@ == swap_removed(oldlist, p as int));
        }
        if (p as usize) < list.len() {
            // The previously-last id now occupies the removed slot:
            // patch its back-reference alongside the forward list.
            let moved = list[p as usize];
            proof {
                assert(oldlist[oldlist.len() - 1] == moved);
                assert(pre.has_kitty(moved));
                assert(pre.position_of(moved) as int == oldlist.len() - 1);
                assert(moved != kitty_id);
            }
            self.positions[moved as usize] = p;
        }
        self.owned.insert(from, list);
        // Append to the new owner's list.
        let mut tolist = match self.owned.remove(&to) {
            Some(l) => l,
            None => Vec::new(),
        };
        proof {
            if to == from {
                assert(tolist@ == swap_removed(oldlist, p as int));
            } else {
                assert(tolist@ == pre.list_of(to));
                assert(pre.owner_of(kitty_id) != to);
                assert(pre.list_of(to).len() < pre.total());
            }
        }
        let newpos = tolist.len() as u16;
        tolist.push(kitty_id);
        self.owned.insert(to, tolist);
        self.positions[kitty_id as usize] = newpos;
        self.owners[kitty_id as usize] = to;
        proof {
            let post = *self;
            let pd = p as int;
            if from != to {
                assert(post.list_of(from) =~= swap_removed(oldlist, pd));
                assert(post.list_of(to) =~= pre.list_of(to).push(kitty_id));
            } else {
                assert(post.list_of(to) =~= swap_removed(oldlist, pd).push(kitty_id));
            }
            assert forall|o: AccountId| o != from && o != to implies post.list_of(o)
                == pre.list_of(o) by {
                if pre.owned@.contains_key(o) {
                    assert(post.list_of(o) =~= pre.list_of(o));
                } else {
                    assert(post.list_of(o) =~= pre.list_of(o));
                }
            }
            // Well-formedness: every allocated id still sits in its
            // owner's list exactly at its recorded position.
            assert forall|id: KittyIndex| post.has_kitty(id) implies {
                &&& (post.position_of(id) as int) < post.list_of(post.owner_of(id)).len()
                &&& post.list_of(post.owner_of(id))[post.position_of(id) as int] == id
            } by {
                if id != kitty_id {
                    assert(pre.has_kitty(id));
                    let o = pre.owner_of(id);
                    let q = pre.position_of(id) as int;
                    assert(q < pre.list_of(o).len());
                    assert(pre.list_of(o)[q] == id);
                    if o == from {
                        assert(q != pd);
                        if q == oldlist.len() - 1 {
                            assert(pd < oldlist.len() - 1);
                            assert(post.list_of(from)[pd] == id);
                        } else {
                            assert(post.list_of(from)[q] == id);
                        }
                    }
                }
            }
            // ... and every list entry is an allocated id whose
            // recorded owner and position point back at it.
            assert forall|o: AccountId, q: int|
                0 <= q < post.list_of(o).len() implies {
                &&& post.has_kitty(#[trigger] post.list_of(o)[q])
                &&& post.owner_of(post.list_of(o)[q]) == o
                &&& post.position_of(post.list_of(o)[q]) == q
            } by {
                if o == to && q == post.list_of(to).len() - 1 {
                    assert(post.list_of(o)[q] == kitty_id);
                } else if o == from || o == to {
                    let e = post.list_of(o)[q];
                    if o == from && q == pd && pd < oldlist.len() - 1 {
                        assert(e == oldlist[oldlist.len() - 1]);
                        assert(pre.position_of(e) as int == oldlist.len() - 1);
                        assert(e != kitty_id);
                    } else {
                        assert(e == pre.list_of(o)[q]);
                        assert(pre.position_of(e) as int == q);
                        assert(e != kitty_id);
                        if pd < oldlist.len() - 1 {
                            assert(e != oldlist[oldlist.len() - 1]);
                        }
                    }
                } else {
                    assert(post.list_of(o)[q] == pre.list_of(o)[q]);
                    assert(pre.list_of(o)[q] != kitty_id);
                    if pd < oldlist.len() - 1 {
                        assert(pre.list_of(o)[q] != oldlist[oldlist.len() - 1]);
                    }
                }
            }
            assert(post.wf());
            assert(post.list_of(to)[post.list_of(to).len() - 1] == kitty_id);
            assert forall|x: KittyIndex|
                oldlist.contains(x) && x != kitty_id implies post.list_of(from).contains(x) by {
                let i = choose|i: int| 0 <= i < oldlist.len() && oldlist[i] == x;
                assert(pre.position_of(x) == i);
                assert(i != pd);
                if i == oldlist.len() - 1 {
                    assert(post.list_of(from)[pd] == x);
                } else {
                    assert(post.list_of(from)[i] == x);
                }
            }
            if from != to {
                assert forall|i: int|
                    0 <= i < post.list_of(from).len() implies post.list_of(from)[i]
                    != kitty_id by {
                    if i == pd && pd < oldlist.len() - 1 {
                        assert(post.list_of(from)[i] == oldlist[oldlist.len() - 1]);
                        assert(pre.position_of(oldlist[oldlist.len() - 1]) as int == oldlist.len()
                            - 1);
                    } else {
                        assert(post.list_of(from)[i] == oldlist[i]);
                        assert(pre.position_of(oldlist[i]) == i);
                    }
                }
                assert(!post.list_of(from).contains(kitty_id));
            }
        }
        Ok(())
    }
}

} // verus!
