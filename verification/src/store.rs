//! The item store: the durable counter and the record table behind one
//! explicitly constructed object, with the ten operations on it.
//!
//! The host layer owns the single long-lived `Store`, supplies the
//! timestamps, and is expected to test [`crate::codec::payload_within_limit`]
//! before handing over a payload; an oversized record is a defect of the
//! caller, not a recoverable condition.

use vstd::prelude::*;

use crate::backend::{backend_counter, backend_table, StableBackend};
use crate::codec::{
    decode_item, encode_item, lemma_encode_decode, payload_fits, spec_decode, spec_fits,
};
use crate::fmt::{
    delete_not_found_message, msg_delete_not_found, msg_not_found, msg_update_not_found,
    not_found_message, update_not_found_message,
};
use crate::item::{
    availability_model, created_model, updated_model, Error, ItemModel, PayloadModel,
    SmartStorageItem, SmartStorageItemPayload,
};
use crate::text::{seq_contains, str_contains};

verus! {

/// Whether an item matches a search query: the query occurs in its name
/// or in its description as a case-sensitive substring.
pub open spec fn matches_query(m: ItemModel, query: Seq<char>) -> bool {
    seq_contains(m.name, query) || seq_contains(m.description, query)
}

/// The persistent state: the id counter in region 0 and the record table
/// in region 1.
pub struct Store {
    backend: StableBackend,
}

impl Store {
    /// The raw record table: the serialized record under each id.
    pub closed spec fn table(self) -> Map<u64, Seq<u8>> {
        backend_table(self.backend)
    }

    /// The id counter: the last id handed out; ids only ever grow from it.
    pub closed spec fn counter(self) -> u64 {
        backend_counter(self.backend)
    }

    /// Well-formedness: every stored entry is the canonical encoding of an
    /// item that fits the codec's bound, carries its own key as id, and
    /// has an id the counter has already covered.
    pub open spec fn wf(self) -> bool {
        forall|id: u64| #[trigger] self.table().dom().contains(id) ==> {
            let d = spec_decode(self.table()[id]);
            &&& d is Some
            &&& d.unwrap().id == id
            &&& spec_fits(d.unwrap())
            &&& 1 <= id <= self.counter()
        }
    }

    /// The abstract state: the stored items, by id.
    pub open spec fn model(self) -> Map<u64, ItemModel> {
        Map::new(
            |id: u64| self.table().dom().contains(id),
            |id: u64| spec_decode(self.table()[id]).unwrap(),
        )
    }

    /// Opens a store over a fresh durable memory: counter 0, no records.
    pub fn init() -> (s: Store)
        ensures
            s.wf(),
            s.counter() == 0,
            s.model() === Map::empty(),
    {
        let backend = StableBackend::init();
        let s = Store { backend };
        proof {
            assert(s.model() =~= Map::empty());
        }
        s
    }

    /// The current counter value: the last id handed out, 0 when none
    /// ever was.
    pub fn current_counter(&self) -> (c: u64)
        ensures
            c == self.counter(),
    {
        self.backend.counter_value()
    }

    /// Point lookup of the record stored under `id`, if any.
    fn _get_smart_storage_item(&self, id: u64) -> (r: Option<SmartStorageItem>)
        requires
            self.wf(),
        ensures
            r matches Some(item) ==> self.model().dom().contains(id) && item@ == self.model()[id],
            r is None ==> !self.model().dom().contains(id),
    {
        match self.backend.table_get(id) {
            Some(bytes) => {
                match decode_item(&bytes) {
                    Some(item) => Some(item),
                    None => {
                        proof {
                            assert(false);
                        }
                        None
                    },
                }
            },
            None => None,
        }
    }

    /// Stores `item` under its own id, replacing what was there. The id
    /// must already have been allocated by the counter, so that a record
    /// never sits above the counter.
    pub fn do_insert_smart_storage_item(&mut self, item: &SmartStorageItem)
        requires
            old(self).wf(),
            spec_fits(item@),
            1 <= item@.id <= old(self).counter(),
        ensures
            final(self).wf(),
            final(self).counter() == old(self).counter(),
            final(self).model() === old(self).model().insert(item@.id, item@),
    {
        let bytes = encode_item(item);
        self.backend.table_insert(item.id, bytes);
        proof {
            lemma_encode_decode(item@);
            assert forall|k: u64| #[trigger] self.table().dom().contains(k) implies {
                let d = spec_decode(self.table()[k]);
                &&& d is Some
                &&& d.unwrap().id == k
                &&& spec_fits(d.unwrap())
                &&& 1 <= k <= self.counter()
            } by {
                if k != item@.id {
                    assert(old(self).table().dom().contains(k));
                }
            }
            assert(self.model() =~= old(self).model().insert(item@.id, item@));
        }
    }

    /// Creates a record: allocates the next id, stamps `created_at` with
    /// `now`, stores the item and returns it. Always succeeds; the
    /// returned id is one above the old counter, so it is fresh.
    pub fn add_smart_storage_item(&mut self, payload: SmartStorageItemPayload, now: u64) -> (r:
        Option<SmartStorageItem>)
        requires
            old(self).wf(),
            payload_fits(payload@),
            old(self).counter() < u64::MAX,
        ensures
            final(self).wf(),
            final(self).counter() == old(self).counter() + 1,
            r matches Some(item) && item@ == created_model(
                (old(self).counter() + 1) as u64,
                payload@,
                now,
            ) && final(self).model() === old(self).model().insert(item@.id, item@),
    {
        let id = self.backend.counter_value() + 1;
        self.backend.counter_store(id);
        let item = SmartStorageItem {
            id: id,
            name: payload.name,
            description: payload.description,
            location: payload.location,
            created_at: now,
            updated_at: None,
            is_available: payload.is_available,
        };
        self.do_insert_smart_storage_item(&item);
        Some(item)
    }

    /// Reads the record stored under `id`, or reports that there is none.
    pub fn get_smart_storage_item(&self, id: u64) -> (r: Result<SmartStorageItem, Error>)
        requires
            self.wf(),
        ensures
            self.model().dom().contains(id) ==> (r matches Ok(item) && item@
                == self.model()[id]),
            !self.model().dom().contains(id) ==> (r matches Err(e) && (e
                matches Error::NotFound { msg } && msg@ == msg_not_found(id))),
    {
        match self._get_smart_storage_item(id) {
            Some(item) => Ok(item),
            None => Err(Error::NotFound { msg: not_found_message(id) }),
        }
    }

    /// Overwrites the caller-supplied fields of the record under `id` and
    /// stamps `updated_at` with `now`; a missing id is reported, never
    /// implicitly created.
    pub fn update_smart_storage_item(
        &mut self,
        id: u64,
        payload: SmartStorageItemPayload,
        now: u64,
    ) -> (r: Result<SmartStorageItem, Error>)
        requires
            old(self).wf(),
            payload_fits(payload@),
        ensures
            final(self).wf(),
            final(self).counter() == old(self).counter(),
            old(self).model().dom().contains(id) ==> (r matches Ok(item) && item@
                == updated_model(old(self).model()[id], payload@, now) && final(self).model()
                === old(self).model().insert(id, item@)),
            !old(self).model().dom().contains(id) ==> (r matches Err(e) && (e
                matches Error::NotFound { msg } && msg@ == msg_update_not_found(id)) && final(self).model() === old(self).model()),
    {
        match self._get_smart_storage_item(id) {
            Some(prev) => {
                let item = SmartStorageItem {
                    id: prev.id,
                    name: payload.name,
                    description: payload.description,
                    location: payload.location,
                    created_at: prev.created_at,
                    updated_at: Some(now),
                    is_available: payload.is_available,
                };
                self.do_insert_smart_storage_item(&item);
                Ok(item)
            },
            None => Err(Error::NotFound { msg: update_not_found_message(id) }),
        }
    }

    /// Reads the availability flag of the record under `id`.
    pub fn is_item_available(&self, id: u64) -> (r: Result<bool, Error>)
        requires
            self.wf(),
        ensures
            self.model().dom().contains(id) ==> (r matches Ok(b) && b
                == self.model()[id].is_available),
            !self.model().dom().contains(id) ==> (r matches Err(e) && (e
                matches Error::NotFound { msg } && msg@ == msg_not_found(id))),
    {
        match self._get_smart_storage_item(id) {
            Some(item) => Ok(item.is_available),
            None => Err(Error::NotFound { msg: not_found_message(id) }),
        }
    }

    /// Sets the availability flag of the record under `id` and stamps
    /// `updated_at` with `now`.
    fn set_item_availability(&mut self, id: u64, available: bool, now: u64) -> (r: Result<
        SmartStorageItem,
        Error,
    >)
        requires
            old(self).wf(),
        ensures
            final(self).wf(),
            final(self).counter() == old(self).counter(),
            old(self).model().dom().contains(id) ==> (r matches Ok(item) && item@
                == availability_model(old(self).model()[id], available, now) && final(self).model()
                === old(self).model().insert(id, item@)),
            !old(self).model().dom().contains(id) ==> (r matches Err(e) && (e
                matches Error::NotFound { msg } && msg@ == msg_not_found(id)) && final(self).model()
                === old(self).model()),
    {
        match self._get_smart_storage_item(id) {
            Some(prev) => {
                let item = SmartStorageItem {
                    id: prev.id,
                    name: prev.name,
                    description: prev.description,
                    location: prev.location,
                    created_at: prev.created_at,
                    updated_at: Some(now),
                    is_available: available,
                };
                self.do_insert_smart_storage_item(&item);
                Ok(item)
            },
            None => Err(Error::NotFound { msg: not_found_message(id) }),
        }
    }

    /// Marks the record under `id` available and stamps `updated_at`.
    pub fn mark_item_as_available(&mut self, id: u64, now: u64) -> (r: Result<
        SmartStorageItem,
        Error,
    >)
        requires
            old(self).wf(),
        ensures
            final(self).wf(),
            final(self).counter() == old(self).counter(),
            old(self).model().dom().contains(id) ==> (r matches Ok(item) && item@
                == availability_model(old(self).model()[id], true, now) && final(self).model()
                === old(self).model().insert(id, item@)),
            !old(self).model().dom().contains(id) ==> (r matches Err(e) && (e
                matches Error::NotFound { msg } && msg@ == msg_not_found(id)) && final(self).model()
                === old(self).model()),
    {
        self.set_item_availability(id, true, now)
    }

    /// Marks the record under `id` unavailable and stamps `updated_at`.
    pub fn mark_item_as_unavailable(&mut self, id: u64, now: u64) -> (r: Result<
        SmartStorageItem,
        Error,
    >)
        requires
            old(self).wf(),
        ensures
            final(self).wf(),
            final(self).counter() == old(self).counter(),
            old(self).model().dom().contains(id) ==> (r matches Ok(item) && item@
                == availability_model(old(self).model()[id], false, now) && final(self).model()
                === old(self).model().insert(id, item@)),
            !old(self).model().dom().contains(id) ==> (r matches Err(e) && (e
                matches Error::NotFound { msg } && msg@ == msg_not_found(id)) && final(self).model()
                === old(self).model()),
    {
        self.set_item_availability(id, false, now)
    }

    /// Removes the record under `id` and returns it; the id itself is
    /// never reused, since the counter does not move.
    pub fn delete_smart_storage_item(&mut self, id: u64) -> (r: Result<SmartStorageItem, Error>)
        requires
            old(self).wf(),
        ensures
            final(self).wf(),
            final(self).counter() == old(self).counter(),
            old(self).model().dom().contains(id) ==> (r matches Ok(item) && item@
                == old(self).model()[id] && final(self).model() === old(
                self,
            ).model().remove(id)),
            !old(self).model().dom().contains(id) ==> (r matches Err(e) && (e
                matches Error::NotFound { msg } && msg@ == msg_delete_not_found(id)) && final(self).model() === old(self).model()),
    {
        match self.backend.table_remove(id) {
            Some(bytes) => {
                proof {
                    assert forall|k: u64| #[trigger] self.table().dom().contains(k) implies {
                        let d = spec_decode(self.table()[k]);
                        &&& d is Some
                        &&& d.unwrap().id == k
                        &&& spec_fits(d.unwrap())
                        &&& 1 <= k <= self.counter()
                    } by {
                        assert(old(self).table().dom().contains(k));
                    }
                    assert(self.model() =~= old(self).model().remove(id));
                }
                match decode_item(&bytes) {
                    Some(item) => Ok(item),
                    None => {
                        proof {
                            assert(false);
                        }
                        Err(Error::NotFound { msg: String::new() })
                    },
                }
            },
            None => Err(Error::NotFound { msg: delete_not_found_message(id) }),
        }
    }

    /// Lists every record, in ascending id order.
    pub fn get_all_smart_storage_items(&self) -> (r: Vec<SmartStorageItem>)
        requires
            self.wf(),
        ensures
            forall|i: int|
                0 <= i < r@.len() ==> {
                    let m = (#[trigger] r@[i])@;
                    &&& self.model().dom().contains(m.id)
                    &&& m == self.model()[m.id]
                },
            forall|i: int, j: int|
                #![trigger r@[i], r@[j]]
                0 <= i < j < r@.len() ==> r@[i]@.id < r@[j]@.id,
            forall|k: u64|
                #[trigger] self.model().dom().contains(k) ==> exists|i: int|
                    0 <= i < r@.len() && (#[trigger] r@[i])@.id == k,
    {
        let keys = self.backend.table_keys();
        let mut out: Vec<SmartStorageItem> = Vec::new();
        let mut idx: usize = 0;
        #[verifier::loop_isolation(false)]
        while idx < keys.len()
            invariant
                idx <= keys@.len(),
                out@.len() == idx,
                forall|j: int| 0 <= j < idx ==> (#[trigger] out@[j])@ == self.model()[keys@[j]],
                forall|j: int| 0 <= j < idx ==> (#[trigger] out@[j])@.id == keys@[j],
            decreases keys@.len() - idx,
        {
            let k = keys[idx];
            match self._get_smart_storage_item(k) {
                Some(item) => {
                    proof {
                        assert(self.table().dom().contains(k));
                        assert(item@.id == k);
                    }
                    out.push(item);
                },
                None => {
                    proof {
                        assert(false);
                    }
                },
            }
            idx = idx + 1;
        }
        proof {
            assert forall|k2: u64| #[trigger] self.model().dom().contains(k2) implies exists|i: int|
                0 <= i < out@.len() && (#[trigger] out@[i])@.id == k2 by {
                let i = choose|i: int| 0 <= i < keys@.len() && keys@[i] == k2;
                assert(out@[i]@.id == k2);
            }
        }
        out
    }

    /// Lists exactly the records whose availability flag is set, in
    /// ascending id order.
    #[verifier::rlimit(100)]
    #[verifier::spinoff_prover]
    pub fn get_available_smart_storage_items(&self) -> (r: Vec<SmartStorageItem>)
        requires
            self.wf(),
        ensures
            forall|i: int|
                0 <= i < r@.len() ==> {
                    let m = (#[trigger] r@[i])@;
                    &&& self.model().dom().contains(m.id)
                    &&& m == self.model()[m.id]
                    &&& m.is_available
                },
            forall|i: int, j: int|
                #![trigger r@[i], r@[j]]
                0 <= i < j < r@.len() ==> r@[i]@.id < r@[j]@.id,
            forall|k: u64|
                #[trigger] self.model().dom().contains(k) && self.model()[k].is_available
                    ==> exists|i: int| 0 <= i < r@.len() && (#[trigger] r@[i])@.id == k,
    {
        let keys = self.backend.table_keys();
        let mut out: Vec<SmartStorageItem> = Vec::new();
        let mut idx: usize = 0;
        while idx < keys.len()
            invariant
                self.wf(),
                idx <= keys@.len(),
                forall|i: int|
                    0 <= i < keys@.len() ==> self.table().dom().contains(#[trigger] keys@[i]),
                forall|i: int, j: int|
                    #![trigger keys@[i], keys@[j]]
                    0 <= i < j < keys@.len() ==> keys@[i] < keys@[j],
                forall|j: int|
                    0 <= j < out@.len() ==> {
                        let m = (#[trigger] out@[j])@;
                        &&& self.model().dom().contains(m.id)
                        &&& m == self.model()[m.id]
                        &&& m.is_available
                    },
                forall|j: int|
                    0 <= j < out@.len() ==> exists|t: int|
                        0 <= t < idx && keys@[t] == (#[trigger] out@[j])@.id,
                forall|j1: int, j2: int|
                    #![trigger out@[j1], out@[j2]]
                    0 <= j1 < j2 < out@.len() ==> out@[j1]@.id < out@[j2]@.id,
                forall|t: int|
                    #![trigger keys@[t]]
                    0 <= t < idx && self.model()[keys@[t]].is_available ==> exists|j: int|
                        0 <= j < out@.len() && (#[trigger] out@[j])@.id == keys@[t],
            decreases keys@.len() - idx,
        {
            let k = keys[idx];
            match self._get_smart_storage_item(k) {
                Some(item) => {
                    proof {
                        assert(self.table().dom().contains(k));
                        assert(item@.id == k);
                    }
                    let ghost out_prev = out@;
                    if item.is_available {
                        out.push(item);
                        proof {
                            assert forall|j1: int, j2: int|
                                #![trigger out@[j1], out@[j2]]
                                0 <= j1 < j2 < out@.len() implies out@[j1]@.id < out@[j2]@.id by {
                                if j2 == out@.len() - 1 {
                                    let t = choose|t: int|
                                        0 <= t < idx && keys@[t] == out_prev[j1]@.id;
                                    assert(keys@[t] < keys@[idx as int]);
                                } else {
                                    assert(out_prev[j1]@.id < out_prev[j2]@.id);
                                }
                            }
                            assert forall|t: int|
                                #![trigger keys@[t]]
                                0 <= t < idx + 1 && self.model()[keys@[t]].is_available
                                implies exists|j: int|
                                0 <= j < out@.len() && (#[trigger] out@[j])@.id == keys@[t] by {
                                if t < idx {
                                    let j = choose|j: int|
                                        0 <= j < out_prev.len() && (#[trigger] out_prev[j])@.id
                                            == keys@[t];
                                    assert(out@[j]@.id == keys@[t]);
                                } else {
                                    assert(out@[out@.len() - 1]@.id == keys@[t]);
                                }
                            }
                        }
                    } else {
                        proof {
                            assert(!self.model()[keys@[idx as int]].is_available);
                            assert forall|t: int|
                                #![trigger keys@[t]]
                                0 <= t < idx + 1 && self.model()[keys@[t]].is_available
                                implies exists|j: int|
                                0 <= j < out@.len() && (#[trigger] out@[j])@.id == keys@[t] by {
                                let j = choose|j: int|
                                    0 <= j < out_prev.len() && (#[trigger] out_prev[j])@.id
                                        == keys@[t];
                                assert(out@[j]@.id == keys@[t]);
                            }
                        }
                    }
                },
                None => {
                    proof {
                        assert(false);
                    }
                },
            }
            idx = idx + 1;
        }
        proof {
            assert forall|k2: u64|
                #[trigger] self.model().dom().contains(k2) && self.model()[k2].is_available
                implies exists|i: int| 0 <= i < out@.len() && (#[trigger] out@[i])@.id == k2 by {
                let t = choose|t: int| 0 <= t < keys@.len() && keys@[t] == k2;
                assert(keys@[t] == k2);
                let j = choose|j: int| 0 <= j < out@.len() && (#[trigger] out@[j])@.id == keys@[t];
                assert(out@[j]@.id == k2);
            }
        }
        out
    }

    /// Lists exactly the records whose name or description contains the
    /// query as a case-sensitive substring, in ascending id order.
    #[verifier::rlimit(100)]
    #[verifier::spinoff_prover]
    pub fn search_smart_storage_items(&self, query: String) -> (r: Vec<SmartStorageItem>)
        requires
            self.wf(),
        ensures
            forall|i: int|
                0 <= i < r@.len() ==> {
                    let m = (#[trigger] r@[i])@;
                    &&& self.model().dom().contains(m.id)
                    &&& m == self.model()[m.id]
                    &&& matches_query(m, query@)
                },
            forall|i: int, j: int|
                #![trigger r@[i], r@[j]]
                0 <= i < j < r@.len() ==> r@[i]@.id < r@[j]@.id,
            forall|k: u64|
                #[trigger] self.model().dom().contains(k) && matches_query(self.model()[k], query@)
                    ==> exists|i: int| 0 <= i < r@.len() && (#[trigger] r@[i])@.id == k,
    {
        let keys = self.backend.table_keys();
        let mut out: Vec<SmartStorageItem> = Vec::new();
        let mut idx: usize = 0;
        while idx < keys.len()
            invariant
                self.wf(),
                idx <= keys@.len(),
                forall|i: int|
                    0 <= i < keys@.len() ==> self.table().dom().contains(#[trigger] keys@[i]),
                forall|i: int, j: int|
                    #![trigger keys@[i], keys@[j]]
                    0 <= i < j < keys@.len() ==> keys@[i] < keys@[j],
                forall|j: int|
                    0 <= j < out@.len() ==> {
                        let m = (#[trigger] out@[j])@;
                        &&& self.model().dom().contains(m.id)
                        &&& m == self.model()[m.id]
                        &&& matches_query(m, query@)
                    },
                forall|j: int|
                    0 <= j < out@.len() ==> exists|t: int|
                        0 <= t < idx && keys@[t] == (#[trigger] out@[j])@.id,
                forall|j1: int, j2: int|
                    #![trigger out@[j1], out@[j2]]
                    0 <= j1 < j2 < out@.len() ==> out@[j1]@.id < out@[j2]@.id,
                forall|t: int|
                    #![trigger keys@[t]]
                    0 <= t < idx && matches_query(self.model()[keys@[t]], query@) ==> exists|j: int|
                        0 <= j < out@.len() && (#[trigger] out@[j])@.id == keys@[t],
            decreases keys@.len() - idx,
        {
            let k = keys[idx];
            match self._get_smart_storage_item(k) {
                Some(item) => {
                    proof {
                        assert(self.table().dom().contains(k));
                        assert(item@.id == k);
                    }
                    let ghost out_prev = out@;
                    let hit = str_contains(&item.name, &query) || str_contains(
                        &item.description,
                        &query,
                    );
                    if hit {
                        out.push(item);
                        proof {
                            assert forall|j1: int, j2: int|
                                #![trigger out@[j1], out@[j2]]
                                0 <= j1 < j2 < out@.len() implies out@[j1]@.id < out@[j2]@.id by {
                                if j2 == out@.len() - 1 {
                                    let t = choose|t: int|
                                        0 <= t < idx && keys@[t] == out_prev[j1]@.id;
                                    assert(keys@[t] < keys@[idx as int]);
                                } else {
                                    assert(out_prev[j1]@.id < out_prev[j2]@.id);
                                }
                            }
                            assert forall|t: int|
                                #![trigger keys@[t]]
                                0 <= t < idx + 1 && matches_query(self.model()[keys@[t]], query@)
                                implies exists|j: int|
                                0 <= j < out@.len() && (#[trigger] out@[j])@.id == keys@[t] by {
                                if t < idx {
                                    let j = choose|j: int|
                                        0 <= j < out_prev.len() && (#[trigger] out_prev[j])@.id
                                            == keys@[t];
                                    assert(out@[j]@.id == keys@[t]);
                                } else {
                                    assert(out@[out@.len() - 1]@.id == keys@[t]);
                                }
                            }
                        }
                    } else {
                        proof {
                            assert(!matches_query(self.model()[keys@[idx as int]], query@));
                            assert forall|t: int|
                                #![trigger keys@[t]]
                                0 <= t < idx + 1 && matches_query(self.model()[keys@[t]], query@)
                                implies exists|j: int|
                                0 <= j < out@.len() && (#[trigger] out@[j])@.id == keys@[t] by {
                                let j = choose|j: int|
                                    0 <= j < out_prev.len() && (#[trigger] out_prev[j])@.id
                                        == keys@[t];
                                assert(out@[j]@.id == keys@[t]);
                            }
                        }
                    }
                },
                None => {
                    proof {
                        assert(false);
                    }
                },
            }
            idx = idx + 1;
        }
        proof {
            assert forall|k2: u64|
                #[trigger] self.model().dom().contains(k2) && matches_query(
                self.model()[k2],
                query@,
            ) implies exists|i: int| 0 <= i < out@.len() && (#[trigger] out@[i])@.id == k2 by {
                let t = choose|t: int| 0 <= t < keys@.len() && keys@[t] == k2;
                assert(keys@[t] == k2);
                let j = choose|j: int| 0 <= j < out@.len() && (#[trigger] out@[j])@.id == keys@[t];
                assert(out@[j]@.id == k2);
            }
        }
        out
    }
}


/// Every stored id was allocated by the counter: it lies between 1 and
/// the counter. A creation returns one strictly above the counter, so a
/// fresh id never collides with any id ever stored.
pub proof fn lemma_stored_ids_bounded(s: Store, id: u64)
    requires
        s.wf(),
        s.model().dom().contains(id),
    ensures
        1 <= id <= s.counter(),
{
    assert(s.table().dom().contains(id));
}

/// Created ids strictly increase with no repeats: each creation returns
/// one above the counter at its time and raises the counter to it, and
/// no operation ever lowers the counter — so whatever deletions come in
/// between, a later creation's id exceeds an earlier one's.
pub proof fn lemma_created_ids_increase(c1: u64, id1: u64, c2: u64, id2: u64)
    requires
        id1 == c1 + 1,
        id2 == c2 + 1,
        c2 >= id1,
    ensures
        id2 > id1,
{
}

/// An update never changes the id or the creation time, and stamps an
/// update time that is at least the previous update time and the
/// creation time whenever the supplied clock has not run backwards.
pub proof fn lemma_update_refreshes_timestamp(prev: ItemModel, p: PayloadModel, now: u64)
    requires
        now >= prev.created_at,
        prev.updated_at matches Some(t) ==> now >= t,
    ensures
        updated_model(prev, p, now).id == prev.id,
        updated_model(prev, p, now).created_at == prev.created_at,
        updated_model(prev, p, now).updated_at matches Some(t2) && t2 >= prev.created_at,
        prev.updated_at matches Some(t) ==> (updated_model(prev, p, now).updated_at
            matches Some(t2) && t2 >= t),
{
}

/// A filtered listing holds exactly the matching subset of the full
/// listing: each of its items occurs in the full listing, and each item
/// of the full listing that matches occurs in the filtered one. Both
/// listings are ascending by id, so they also agree on order.
pub proof fn lemma_filtered_listing_is_subset(
    model: Map<u64, ItemModel>,
    all: Seq<ItemModel>,
    part: Seq<ItemModel>,
    p: spec_fn(ItemModel) -> bool,
)
    requires
        forall|i: int|
            0 <= i < all.len() ==> model.dom().contains((#[trigger] all[i]).id) && all[i]
                == model[all[i].id],
        forall|k: u64|
            #[trigger] model.dom().contains(k) ==> exists|i: int|
                0 <= i < all.len() && (#[trigger] all[i]).id == k,
        forall|i: int|
            0 <= i < part.len() ==> model.dom().contains((#[trigger] part[i]).id) && part[i]
                == model[part[i].id] && p(part[i]),
        forall|k: u64|
            #[trigger] model.dom().contains(k) && p(model[k]) ==> exists|i: int|
                0 <= i < part.len() && (#[trigger] part[i]).id == k,
    ensures
        forall|j: int| #![trigger part[j]] 0 <= j < part.len() ==> all.contains(part[j]),
        forall|i: int|
            #![trigger all[i]]
            0 <= i < all.len() && p(all[i]) ==> part.contains(all[i]),
{
    assert forall|j: int| #![trigger part[j]] 0 <= j < part.len() implies all.contains(
        part[j],
    ) by {
        let k = part[j].id;
        assert(model.dom().contains(k));
        let i = choose|i: int| 0 <= i < all.len() && (#[trigger] all[i]).id == k;
        assert(all[i] == model[k]);
        assert(part[j] == model[k]);
        assert(all[i] == part[j]);
    }
    assert forall|i: int| #![trigger all[i]] 0 <= i < all.len() && p(all[i]) implies part.contains(
        all[i],
    ) by {
        let k = all[i].id;
        assert(p(model[k]));
        let j = choose|j: int| 0 <= j < part.len() && (#[trigger] part[j]).id == k;
        assert(part[j] == all[i]);
    }
}

/// Two sequences that are both strictly ascending by id and hold the
/// same items are the same sequence.
proof fn lemma_ascending_same_members_equal(a: Seq<ItemModel>, b: Seq<ItemModel>)
    requires
        forall|i: int, j: int| #![trigger a[i], a[j]] 0 <= i < j < a.len() ==> a[i].id < a[j].id,
        forall|i: int, j: int| #![trigger b[i], b[j]] 0 <= i < j < b.len() ==> b[i].id < b[j].id,
        forall|x: ItemModel|
            #![trigger a.contains(x)]
            #![trigger b.contains(x)]
            a.contains(x) <==> b.contains(x),
    ensures
        a =~= b,
    decreases a.len(),
{
    if a.len() == 0 {
        if b.len() > 0 {
            assert(b.contains(b[0]));
            assert(a.contains(b[0]));
            let i = choose|i: int| 0 <= i < a.len() && a[i] == b[0];
            assert(false);
        }
    } else if b.len() == 0 {
        assert(a.contains(a[0]));
        assert(b.contains(a[0]));
        let j = choose|j: int| 0 <= j < b.len() && b[j] == a[0];
        assert(false);
    } else {
        assert(a.contains(a[0]));
        assert(b.contains(a[0]));
        let j0 = choose|j: int| 0 <= j < b.len() && b[j] == a[0];
        assert(b.contains(b[0]));
        assert(a.contains(b[0]));
        let i0 = choose|i: int| 0 <= i < a.len() && a[i] == b[0];
        if i0 > 0 && j0 > 0 {
            assert(a[0].id < a[i0].id);
            assert(b[0].id < b[j0].id);
            assert(false);
        }
        assert(a[0] == b[0]);
        let at = a.drop_first();
        let bt = b.drop_first();
        assert forall|i: int, j: int|
            #![trigger at[i], at[j]]
            0 <= i < j < at.len() implies at[i].id < at[j].id by {
            assert(at[i] == a[i + 1]);
            assert(at[j] == a[j + 1]);
        }
        assert forall|i: int, j: int|
            #![trigger bt[i], bt[j]]
            0 <= i < j < bt.len() implies bt[i].id < bt[j].id by {
            assert(bt[i] == b[i + 1]);
            assert(bt[j] == b[j + 1]);
        }
        assert forall|x: ItemModel|
            #![trigger at.contains(x)]
            #![trigger bt.contains(x)]
            at.contains(x) <==> bt.contains(x) by {
            if at.contains(x) {
                let i = choose|i: int| 0 <= i < at.len() && at[i] == x;
                assert(a[i + 1] == x);
                assert(a.contains(x));
                assert(b.contains(x));
                let j = choose|j: int| 0 <= j < b.len() && b[j] == x;
                if j == 0 {
                    assert(a[0].id < a[i + 1].id);
                    assert(false);
                }
                assert(bt[j - 1] == x);
                assert(bt.contains(x));
            }
            if bt.contains(x) {
                let j = choose|j: int| 0 <= j < bt.len() && bt[j] == x;
                assert(b[j + 1] == x);
                assert(b.contains(x));
                assert(a.contains(x));
                let i = choose|i: int| 0 <= i < a.len() && a[i] == x;
                if i == 0 {
                    assert(b[0].id < b[j + 1].id);
                    assert(false);
                }
                assert(at[i - 1] == x);
                assert(at.contains(x));
            }
        }
        lemma_ascending_same_members_equal(at, bt);
        assert forall|k: int| 0 <= k < a.len() implies a[k] == b[k] by {
            if k > 0 {
                assert(a[k] == at[k - 1]);
                assert(b[k] == bt[k - 1]);
            }
        }
    }
}

/// Listings are determined: any two sequences that are both strictly
/// ascending by id and both hold exactly the stored items matching a
/// predicate are equal — the contracts of the listing operations pin
/// their results down to one sequence.
pub proof fn lemma_listing_determined(
    model: Map<u64, ItemModel>,
    a: Seq<ItemModel>,
    b: Seq<ItemModel>,
    p: spec_fn(ItemModel) -> bool,
)
    requires
        forall|i: int|
            0 <= i < a.len() ==> model.dom().contains((#[trigger] a[i]).id) && a[i]
                == model[a[i].id] && p(a[i]),
        forall|i: int, j: int| #![trigger a[i], a[j]] 0 <= i < j < a.len() ==> a[i].id < a[j].id,
        forall|k: u64|
            #[trigger] model.dom().contains(k) && p(model[k]) ==> exists|i: int|
                0 <= i < a.len() && (#[trigger] a[i]).id == k,
        forall|i: int|
            0 <= i < b.len() ==> model.dom().contains((#[trigger] b[i]).id) && b[i]
                == model[b[i].id] && p(b[i]),
        forall|i: int, j: int| #![trigger b[i], b[j]] 0 <= i < j < b.len() ==> b[i].id < b[j].id,
        forall|k: u64|
            #[trigger] model.dom().contains(k) && p(model[k]) ==> exists|i: int|
                0 <= i < b.len() && (#[trigger] b[i]).id == k,
    ensures
        a =~= b,
{
    assert forall|x: ItemModel|
        #![trigger a.contains(x)]
        #![trigger b.contains(x)]
        a.contains(x) <==> b.contains(x) by {
        if a.contains(x) {
            let i = choose|i: int| 0 <= i < a.len() && a[i] == x;
            assert(model.dom().contains(x.id) && p(model[x.id]));
            let j = choose|j: int| 0 <= j < b.len() && (#[trigger] b[j]).id == x.id;
            assert(b[j] == model[x.id]);
            assert(b[j] == x);
            assert(b.contains(x));
        }
        if b.contains(x) {
            let j = choose|j: int| 0 <= j < b.len() && b[j] == x;
            assert(model.dom().contains(x.id) && p(model[x.id]));
            let i = choose|i: int| 0 <= i < a.len() && (#[trigger] a[i]).id == x.id;
            assert(a[i] == model[x.id]);
            assert(a[i] == x);
            assert(a.contains(x));
        }
    }
    lemma_ascending_same_members_equal(a, b);
}

/// Delete is final: after a successful deletion the id is gone from the
/// state, and it still lies at or below the counter — while any later
/// creation returns an id strictly above the counter — so a deleted id
/// never reappears.
pub proof fn lemma_delete_is_final(before: Store, after: Store, id: u64)
    requires
        before.wf(),
        before.model().dom().contains(id),
        after.model() === before.model().remove(id),
        after.counter() >= before.counter(),
    ensures
        !after.model().dom().contains(id),
        id <= after.counter(),
{
    lemma_stored_ids_bounded(before, id);
}

} // verus!
