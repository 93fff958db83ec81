//! Dense live-order storage for graph topology entries.
//!
//! Entries keep stable physical slots and a separate dense usage order. Ids point
//! at physical slots; iteration goes through the usage order. Freed slots are not
//! reused during the storage lifetime, so stale ids stay invalid.
use vstd::prelude::*;

use crate::error::{RenderGraphError, RenderGraphResult};
use crate::ids::{GraphStorageId, INVALID_ID_RAW};
use core::marker::PhantomData;

verus! {

/// Slot-stable storage with dense live usage order.
pub struct GraphStorage<T, Id> {
    values: Vec<Option<T>>,
    usage_index: Vec<Option<usize>>,
    usage: Vec<u32>,
    _id: PhantomData<Id>,
}

impl<T, Id: GraphStorageId> GraphStorage<T, Id> {
    /// Number of physical slots ever allocated.
    pub closed spec fn slot_count(&self) -> nat {
        self.values@.len()
    }

    /// Live slots in usage order.
    pub closed spec fn order(&self) -> Seq<u32> {
        self.usage@
    }

    /// Whether physical slot `s` holds a live value.
    pub closed spec fn live(&self, s: int) -> bool {
        0 <= s < self.values@.len() && self.values@[s] is Some
    }

    /// The value held by physical slot `s`.
    pub closed spec fn value_at(&self, s: int) -> T {
        self.values@[s]->0
    }

    /// Position of live slot `s` in the usage order.
    pub closed spec fn position(&self, s: int) -> int {
        self.usage_index@[s]->0 as int
    }

    /// Whether an id refers to a live value.
    pub open spec fn id_live(&self, id: Id) -> bool {
        id.id_raw() != INVALID_ID_RAW && self.live(id.id_raw() as int)
    }

    /// Structural invariant: the usage order and the slot positions agree.
    pub closed spec fn wf(&self) -> bool {
        &&& self.values@.len() == self.usage_index@.len()
        &&& self.values@.len() <= 4294967295
        &&& self.usage@.len() <= self.values@.len()
        &&& forall|i: int|
            #![trigger self.usage@[i]]
            0 <= i < self.usage@.len() ==> {
                &&& (self.usage@[i] as int) < self.values@.len()
                &&& self.usage_index@[self.usage@[i] as int] == Some(i as usize)
            }
        &&& forall|s: int|
            #![trigger self.usage_index@[s]]
            #![trigger self.values@[s]]
            0 <= s < self.values@.len() ==> {
                &&& (self.usage_index@[s] is Some <==> self.values@[s] is Some)
                &&& (self.usage_index@[s] is Some ==> {
                    &&& (self.usage_index@[s]->0 as int) < self.usage@.len()
                    &&& self.usage@[self.usage_index@[s]->0 as int] == s
                })
            }
    }

    /// Facts that follow from the invariant, in the vocabulary of the public spec.
    pub proof fn lemma_wf_facts(&self)
        requires
            self.wf(),
        ensures
            self.order().len() <= self.slot_count(),
            self.slot_count() <= 4294967295,
            forall|i: int|
                #![trigger self.order()[i]]
                0 <= i < self.order().len() ==> self.live(self.order()[i] as int)
                    && self.position(self.order()[i] as int) == i,
            forall|s: int|
                #![trigger self.live(s)]
                self.live(s) ==> 0 <= s < self.slot_count() && 0 <= self.position(s) < self.order().len()
                    && self.order()[self.position(s)] == s,
            self.order().no_duplicates(),
    {
        assert forall|i: int, j: int|
            0 <= i < self.usage@.len() && 0 <= j < self.usage@.len() && i != j implies self.usage@[i]
            != self.usage@[j] by {
            if self.usage@[i] == self.usage@[j] {
                assert(self.usage_index@[self.usage@[i] as int] == Some(i as usize));
                assert(self.usage_index@[self.usage@[j] as int] == Some(j as usize));
            }
        }
    }

    /// Creates empty storage.
    pub fn new() -> (r: Self)
        ensures
            r.wf(),
            r.slot_count() == 0,
            r.order() == Seq::<u32>::empty(),
    {
        GraphStorage { values: Vec::new(), usage_index: Vec::new(), usage: Vec::new(), _id: PhantomData }
    }

    /// Returns the number of live entries.
    pub fn len(&self) -> (r: usize)
        requires
            self.wf(),
        ensures
            r == self.order().len(),
    {
        self.usage.len()
    }

    /// Returns whether no entry is live.
    pub fn is_empty(&self) -> (r: bool)
        requires
            self.wf(),
        ensures
            r == (self.order().len() == 0),
    {
        self.usage.len() == 0
    }

    /// Stores a value in a fresh slot and appends it to the usage order.
    pub fn allocate(&mut self, value: T) -> (r: RenderGraphResult<Id>)
        requires
            old(self).wf(),
        ensures
            final(self).wf(),
            old(self).slot_count() < 4294967295 <==> r is Ok,
            r is Err ==> *final(self) == *old(self) && r == Err::<Id, RenderGraphError>(
                RenderGraphError::InvalidState {
                    reason: "render graph storage exceeded u32 slot id range",
                },
            ),
            r is Ok ==> {
                let id = r->Ok_0;
                &&& id.id_raw() == old(self).slot_count()
                &&& id.id_raw() != INVALID_ID_RAW
                &&& id == Id::id_of(old(self).slot_count() as u32)
                &&& final(self).slot_count() == old(self).slot_count() + 1
                &&& final(self).order() == old(self).order().push(id.id_raw())
                &&& final(self).live(id.id_raw() as int)
                &&& final(self).value_at(id.id_raw() as int) == value
                &&& forall|s: int|
                    #![trigger final(self).live(s)]
                    #![trigger final(self).value_at(s)]
                    0 <= s < old(self).slot_count() ==> final(self).live(s) == old(self).live(s)
                        && final(self).value_at(s) == old(self).value_at(s)
            },
    {
        let slot_count = self.values.len();
        if slot_count >= 4294967295usize {
            return Err(
                RenderGraphError::InvalidState {
                    reason: "render graph storage exceeded u32 slot id range",
                },
            );
        }
        let slot_index = slot_count as u32;
        let position = self.usage.len();
        self.values.push(Some(value));
        self.usage_index.push(Some(position));
        self.usage.push(slot_index);
        let id = Id::from_index(slot_index);
        proof {
            Id::lemma_id_roundtrip(slot_index, id);
            assert forall|i: int|
                #![trigger self.usage@[i]]
                0 <= i < self.usage@.len() implies {
                &&& (self.usage@[i] as int) < self.values@.len()
                &&& self.usage_index@[self.usage@[i] as int] == Some(i as usize)
            } by {
                if i < position {
                    assert(old(self).usage@[i] == self.usage@[i]);
                }
            }
        }
        Ok(id)
    }

    /// Returns the live slot addressed by an id, or the invalid-id error.
    fn valid_slot_index(&self, id: Id) -> (r: RenderGraphResult<usize>)
        requires
            self.wf(),
        ensures
            r is Ok <==> (id.id_raw() != INVALID_ID_RAW && (id.id_raw() as int) < self.slot_count()),
            r is Ok ==> r->Ok_0 == id.id_raw(),
            r is Err ==> r == Err::<usize, RenderGraphError>(
                RenderGraphError::InvalidId { kind: "graph storage item", raw: id.id_raw() },
            ),
    {
        match id.index() {
            Some(index) => {
                let slot_index = index as usize;
                if slot_index >= self.values.len() {
                    return Err(RenderGraphError::InvalidId { kind: "graph storage item", raw: id.raw() });
                }
                Ok(slot_index)
            },
            None => Err(RenderGraphError::InvalidId { kind: "graph storage item", raw: id.raw() }),
        }
    }

    /// Removes a live value, swap-removing its position from the usage order.
    pub fn free(&mut self, id: Id) -> (r: RenderGraphResult<T>)
        requires
            old(self).wf(),
        ensures
            final(self).wf(),
            r is Ok <==> old(self).id_live(id),
            r is Err ==> *final(self) == *old(self) && r == Err::<T, RenderGraphError>(
                RenderGraphError::InvalidId { kind: "graph storage item", raw: id.id_raw() },
            ),
            r is Ok ==> {
                let s = id.id_raw() as int;
                let p = old(self).position(s);
                let last = old(self).order().last();
                &&& r->Ok_0 == old(self).value_at(s)
                &&& final(self).slot_count() == old(self).slot_count()
                &&& final(self).order() == old(self).order().update(p, last).drop_last()
                &&& !final(self).live(s)
                &&& forall|t: int|
                    #![trigger final(self).live(t)]
                    #![trigger final(self).value_at(t)]
                    0 <= t < old(self).slot_count() && t != s ==> final(self).live(t) == old(self).live(t)
                        && final(self).value_at(t) == old(self).value_at(t)
            },
    {
        let slot_index = match self.valid_slot_index(id) {
            Ok(s) => s,
            Err(e) => return Err(e),
        };
        let position = match self.usage_index[slot_index] {
            Some(p) => p,
            None => return Err(RenderGraphError::InvalidId { kind: "graph storage item", raw: id.raw() }),
        };
        proof {
            self.lemma_wf_facts();
        }
        let ghost old_usage = self.usage@;
        let last_slot = self.usage.pop().unwrap();
        if position < self.usage.len() {
            self.usage.set(position, last_slot);
            self.usage_index.set(last_slot as usize, Some(position));
        }
        self.usage_index.set(slot_index, None);
        let taken = self.values[slot_index].take();
        proof {
            assert(self.usage@ == old_usage.update(position as int, old_usage.last()).drop_last());
            assert forall|i: int|
                #![trigger self.usage@[i]]
                0 <= i < self.usage@.len() implies {
                &&& (self.usage@[i] as int) < self.values@.len()
                &&& self.usage_index@[self.usage@[i] as int] == Some(i as usize)
            } by {
                let n = old_usage.len() - 1;
                assert(old(self).usage_index@[old(self).usage@[n] as int] == Some(n as usize));
                if i != position {
                    assert(old(self).usage_index@[old(self).usage@[i] as int] == Some(i as usize));
                    assert(self.usage@[i] == old_usage[i]);
                }
            }
            assert forall|s: int|
                #![trigger self.usage_index@[s]]
                #![trigger self.values@[s]]
                0 <= s < self.values@.len() implies {
                &&& (self.usage_index@[s] is Some <==> self.values@[s] is Some)
                &&& (self.usage_index@[s] is Some ==> {
                    &&& (self.usage_index@[s]->0 as int) < self.usage@.len()
                    &&& self.usage@[self.usage_index@[s]->0 as int] == s
                })
            } by {
                if s != slot_index && s != last_slot {
                    assert(old(self).usage_index@[s] == self.usage_index@[s]);
                    if self.usage_index@[s] is Some {
                        let q = self.usage_index@[s]->0 as int;
                        assert(old_usage[q] == s);
                        assert(q != old_usage.len() - 1);
                        assert(q != position);
                    }
                }
            }
        }
        match taken {
            Some(v) => Ok(v),
            None => Err(RenderGraphError::InvalidId { kind: "graph storage item", raw: id.raw() }),
        }
    }

    /// Returns a shared reference to a live value.
    pub fn get(&self, id: Id) -> (r: RenderGraphResult<&T>)
        requires
            self.wf(),
        ensures
            r is Ok <==> self.id_live(id),
            r is Ok ==> *r->Ok_0 == self.value_at(id.id_raw() as int),
            r is Err ==> r == Err::<&T, RenderGraphError>(
                RenderGraphError::InvalidId { kind: "graph storage item", raw: id.id_raw() },
            ),
    {
        let slot_index = match self.valid_slot_index(id) {
            Ok(s) => s,
            Err(e) => return Err(e),
        };
        match &self.values[slot_index] {
            Some(v) => Ok(v),
            None => Err(RenderGraphError::InvalidId { kind: "graph storage item", raw: id.raw() }),
        }
    }

    /// Returns a mutable reference to a live value.
    pub fn get_mut(&mut self, id: Id) -> (r: RenderGraphResult<&mut T>)
        requires
            old(self).wf(),
        ensures
            r is Ok <==> old(self).id_live(id),
            r is Err ==> *final(self) == *old(self) && r == Err::<&mut T, RenderGraphError>(
                RenderGraphError::InvalidId { kind: "graph storage item", raw: id.id_raw() },
            ),
            r is Ok ==> {
                let s = id.id_raw() as int;
                &&& *r->Ok_0 == old(self).value_at(s)
                &&& final(self).wf()
                &&& final(self).slot_count() == old(self).slot_count()
                &&& final(self).order() == old(self).order()
                &&& final(self).live(s)
                &&& final(self).value_at(s) == *final(r->Ok_0)
                &&& forall|t: int|
                    #![trigger final(self).live(t)]
                    #![trigger final(self).value_at(t)]
                    0 <= t < old(self).slot_count() && t != s ==> final(self).live(t) == old(self).live(t)
                        && final(self).value_at(t) == old(self).value_at(t)
            },
    {
        let slot_index = match self.valid_slot_index(id) {
            Ok(s) => s,
            Err(e) => return Err(e),
        };
        if self.values[slot_index].is_none() {
            return Err(RenderGraphError::InvalidId { kind: "graph storage item", raw: id.raw() });
        }
        Ok(self.values[slot_index].as_mut().unwrap())
    }

    /// Returns whether an id refers to a live value.
    pub fn is_allocated(&self, id: Id) -> (r: bool)
        requires
            self.wf(),
        ensures
            r == self.id_live(id),
    {
        match id.index() {
            Some(index) => {
                let slot_index = index as usize;
                slot_index < self.values.len() && self.values[slot_index].is_some()
            },
            None => false,
        }
    }

    /// Returns the usage-order position of a live id.
    pub fn usage_index(&self, id: Id) -> (r: Option<usize>)
        requires
            self.wf(),
        ensures
            r is Some <==> self.id_live(id),
            r is Some ==> r->0 == self.position(id.id_raw() as int),
    {
        match id.index() {
            Some(index) => {
                let slot_index = index as usize;
                if slot_index < self.values.len() {
                    self.usage_index[slot_index]
                } else {
                    None
                }
            },
            None => None,
        }
    }

    /// Returns the id at a usage-order position.
    pub fn id_by_usage_index(&self, usage_index: usize) -> (r: RenderGraphResult<Id>)
        requires
            self.wf(),
        ensures
            r is Ok <==> usage_index < self.order().len(),
            r is Ok ==> r->Ok_0 == Id::id_of(self.order()[usage_index as int]),
            r is Err ==> r == Err::<Id, RenderGraphError>(
                RenderGraphError::InvalidId {
                    kind: "graph storage usage index",
                    raw: if usage_index <= 4294967295 { usage_index as u32 } else { 4294967295u32 },
                },
            ),
    {
        if usage_index < self.usage.len() {
            Ok(Id::from_index(self.usage[usage_index]))
        } else {
            let raw: u32 = if usage_index <= 4294967295usize { usage_index as u32 } else { 4294967295u32 };
            Err(RenderGraphError::InvalidId { kind: "graph storage usage index", raw })
        }
    }

    /// Returns live ids in usage order.
    pub fn ids_in_usage_order(&self) -> (r: Vec<Id>)
        requires
            self.wf(),
        ensures
            r@.len() == self.order().len(),
            forall|i: int| 0 <= i < r@.len() ==> #[trigger] r@[i] == Id::id_of(self.order()[i]),
    {
        let mut ids: Vec<Id> = Vec::new();
        let mut i: usize = 0;
        while i < self.usage.len()
            invariant
                i <= self.usage@.len(),
                ids@.len() == i,
                forall|j: int| 0 <= j < i ==> #[trigger] ids@[j] == Id::id_of(self.usage@[j]),
            decreases self.usage@.len() - i,
        {
            ids.push(Id::from_index(self.usage[i]));
            i = i + 1;
        }
        ids
    }

    /// Returns live ids paired with their values, in usage order.
    pub fn iter(&self) -> (r: Vec<(Id, &T)>)
        requires
            self.wf(),
        ensures
            r@.len() == self.order().len(),
            forall|i: int|
                0 <= i < r@.len() ==> (#[trigger] r@[i]).0 == Id::id_of(self.order()[i])
                    && *r@[i].1 == self.value_at(self.order()[i] as int),
    {
        proof {
            self.lemma_wf_facts();
        }
        let mut items: Vec<(Id, &T)> = Vec::new();
        let mut i: usize = 0;
        while i < self.usage.len()
            invariant
                self.wf(),
                i <= self.usage@.len(),
                items@.len() == i,
                forall|k: int|
                    #![trigger self.order()[k]]
                    0 <= k < self.order().len() ==> self.live(self.order()[k] as int),
                forall|j: int|
                    0 <= j < i ==> (#[trigger] items@[j]).0 == Id::id_of(self.usage@[j])
                        && *items@[j].1 == self.value_at(self.usage@[j] as int),
            decreases self.usage@.len() - i,
        {
            let slot = self.usage[i];
            assert(self.live(self.order()[i as int] as int));
            let value = self.values[slot as usize].as_ref().unwrap();
            items.push((Id::from_index(slot), value));
            i = i + 1;
        }
        items
    }

    /// Returns the number of physical slots ever allocated.
    pub fn slot_count_exec(&self) -> (r: usize)
        ensures
            r == self.slot_count(),
    {
        self.values.len()
    }

    /// Replaces a live value.
    pub fn set(&mut self, id: Id, value: T) -> (r: RenderGraphResult<()>)
        requires
            old(self).wf(),
        ensures
            final(self).wf(),
            r is Ok <==> old(self).id_live(id),
            r is Err ==> *final(self) == *old(self),
            r is Ok ==> {
                let s = id.id_raw() as int;
                &&& final(self).slot_count() == old(self).slot_count()
                &&& final(self).order() == old(self).order()
                &&& final(self).live(s)
                &&& final(self).value_at(s) == value
                &&& forall|t: int|
                    #![trigger final(self).live(t)]
                    #![trigger final(self).value_at(t)]
                    0 <= t < old(self).slot_count() && t != s ==> final(self).live(t) == old(self).live(t)
                        && final(self).value_at(t) == old(self).value_at(t)
            },
    {
        let slot_index = match self.valid_slot_index(id) {
            Ok(s) => s,
            Err(e) => return Err(e),
        };
        if self.values[slot_index].is_none() {
            return Err(RenderGraphError::InvalidId { kind: "graph storage item", raw: id.raw() });
        }
        self.values.set(slot_index, Some(value));
        Ok(())
    }

    /// Removes every entry.
    pub fn clear(&mut self)
        requires
            old(self).wf(),
        ensures
            final(self).wf(),
            final(self).slot_count() == 0,
            final(self).order() == Seq::<u32>::empty(),
    {
        self.values.clear();
        self.usage_index.clear();
        self.usage.clear();
    }
}

impl<T, Id: GraphStorageId> Default for GraphStorage<T, Id> {
    fn default() -> (r: Self)
        ensures
            r.wf(),
            r.slot_count() == 0,
            r.order() == Seq::<u32>::empty(),
    {
        GraphStorage::new()
    }
}

} // verus!
