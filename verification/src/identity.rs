//! The identity map: which runtime handle stands for which entity id, and
//! the other way round.

use vstd::prelude::*;
use crate::tables::{pair_entries, pairs_get, pairs_insert, pairs_new, pairs_remove};

verus! {

/// The pairs of `handles` after `id` and `handle` are bound to each other:
/// a pair that held `handle` is gone, `id` holds `handle`, and every other
/// pair is as before.
pub open spec fn bound(handles: Map<u32, u64>, id: u32, handle: u64) -> Map<u32, u64> {
    handles.remove_keys(
        Set::new(|other: u32| handles.contains_key(other) && handles[other] == handle),
    ).insert(id, handle)
}

/// Whether some id is bound to `handle`.
pub open spec fn handle_bound(handles: Map<u32, u64>, handle: u64) -> bool {
    exists|id: u32| #[trigger] handles.contains_key(id) && handles[id] == handle
}

/// Binding an id to a handle that no id is bound to puts that pair into
/// the table and leaves every other pair.
pub proof fn lemma_bound_fresh(handles: Map<u32, u64>, id: u32, handle: u64)
    requires
        !handle_bound(handles, handle),
    ensures
        bound(handles, id, handle) == handles.insert(id, handle),
{
    assert(bound(handles, id, handle) =~= handles.insert(id, handle));
}

/// A one-to-one table between entity ids and runtime handles. A handle is
/// the opaque number by which the runtime names one of its objects.
pub struct IdentityMap {
    handles: hashbrown::HashMap<u64, u64>,
    ids: hashbrown::HashMap<u64, u64>,
}

impl View for IdentityMap {
    type V = Map<u32, u64>;

    /// The handle bound to each id.
    closed spec fn view(&self) -> Map<u32, u64> {
        Map::new(
            |id: u32| pair_entries(self.handles).contains_key(id as u64),
            |id: u32| pair_entries(self.handles)[id as u64],
        )
    }
}

impl IdentityMap {
    /// The id bound to each handle.
    pub closed spec fn ids(&self) -> Map<u64, u32> {
        Map::new(
            |handle: u64| pair_entries(self.ids).contains_key(handle),
            |handle: u64| pair_entries(self.ids)[handle] as u32,
        )
    }

    /// The two directions hold the same pairs.
    pub closed spec fn wf(&self) -> bool {
        &&& forall|key: u64| #[trigger]
            pair_entries(self.handles).contains_key(key) ==> key <= u32::MAX && pair_entries(
                self.ids,
            ).contains_key(pair_entries(self.handles)[key]) && pair_entries(
                self.ids,
            )[pair_entries(self.handles)[key]] == key
        &&& forall|handle: u64| #[trigger]
            pair_entries(self.ids).contains_key(handle) ==> pair_entries(
                self.handles,
            ).contains_key(pair_entries(self.ids)[handle]) && pair_entries(
                self.handles,
            )[pair_entries(self.ids)[handle]] == handle
    }

    /// In a well-formed map every id has one handle and every handle one id:
    /// following a pair in one direction and back gives where one started.
    pub proof fn lemma_one_to_one(&self)
        requires
            self.wf(),
        ensures
            forall|id: u32| #[trigger]
                self@.contains_key(id) ==> self.ids().contains_key(self@[id]) && self.ids()[self@[id]]
                    == id,
            forall|handle: u64| #[trigger]
                self.ids().contains_key(handle) ==> self@.contains_key(self.ids()[handle])
                    && self@[self.ids()[handle]] == handle,
            forall|a: u32, b: u32|
                self@.contains_key(a) && self@.contains_key(b) && self@[a] == self@[b] ==> a == b,
    {
        assert forall|handle: u64| #[trigger] self.ids().contains_key(handle) implies self@.contains_key(
            self.ids()[handle],
        ) && self@[self.ids()[handle]] == handle by {
            let key = pair_entries(self.ids)[handle];
            assert(pair_entries(self.handles).contains_key(key));
            assert(key == (key as u32) as u64);
        }
        assert forall|a: u32, b: u32|
            self@.contains_key(a) && self@.contains_key(b) && self@[a] == self@[b] implies a
            == b by {
            assert(pair_entries(self.handles).contains_key(a as u64));
            assert(pair_entries(self.handles).contains_key(b as u64));
        }
    }

    /// A map without pairs.
    pub fn new() -> (r: IdentityMap)
        ensures
            r.wf(),
            r@ == Map::<u32, u64>::empty(),
            r.ids() == Map::<u64, u32>::empty(),
    {
        let r = IdentityMap { handles: pairs_new(), ids: pairs_new() };
        assert(r@ =~= Map::<u32, u64>::empty());
        assert(r.ids() =~= Map::<u64, u32>::empty());
        r
    }

    /// The handle bound to `id`, if any.
    pub fn handle(&self, id: u32) -> (r: Option<u64>)
        ensures
            r == if self@.contains_key(id) {
                Some(self@[id])
            } else {
                None
            },
    {
        pairs_get(&self.handles, id as u64)
    }

    /// The id bound to `handle`, if any.
    pub fn id(&self, handle: u64) -> (r: Option<u32>)
        requires
            self.wf(),
        ensures
            r == if self.ids().contains_key(handle) {
                Some(self.ids()[handle])
            } else {
                None
            },
    {
        match pairs_get(&self.ids, handle) {
            Some(key) => {
                assert(pair_entries(self.ids).contains_key(handle));
                assert(pair_entries(self.handles).contains_key(key));
                Some(key as u32)
            },
            None => None,
        }
    }

    /// Whether some id is bound to `handle`.
    pub fn holds_handle(&self, handle: u64) -> (r: bool)
        requires
            self.wf(),
        ensures
            r == handle_bound(self@, handle),
    {
        proof {
            self.lemma_one_to_one();
        }
        match self.id(handle) {
            Some(id) => {
                assert(self@.contains_key(id) && self@[id] == handle);
                true
            },
            None => false,
        }
    }

    /// Binds `id` and `handle` to each other. A pair that held `id`, and a
    /// pair that held `handle`, is removed first; every other pair stays.
    pub fn insert(&mut self, id: u32, handle: u64)
        requires
            old(self).wf(),
        ensures
            final(self).wf(),
            final(self)@ == bound(old(self)@, id, handle),
    {
        let key = id as u64;
        match pairs_get(&self.handles, key) {
            Some(stale) => {
                pairs_remove(&mut self.ids, stale);
            },
            None => {},
        }
        match pairs_get(&self.ids, handle) {
            Some(stale) => {
                pairs_remove(&mut self.handles, stale);
            },
            None => {},
        }
        pairs_insert(&mut self.handles, key, handle);
        pairs_insert(&mut self.ids, handle, key);
        assert(self@ =~= bound(old(self)@, id, handle)) by {
            assert forall|other: u32|
                old(self)@.contains_key(other) && old(self)@[other] == handle && other
                    != id implies !self@.contains_key(other) by {
                assert(pair_entries(old(self).handles).contains_key(other as u64));
            }
        }
    }
}

} // verus!
