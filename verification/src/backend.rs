//! The durable persistence backend, the one part of the crate that is
//! taken on trust: a memory-managed stable address space in which region 0
//! backs the id counter and region 1 backs the record table, through
//! ic-stable-structures.
//!
//! The backing struct is opaque to the verifier. Its two pieces of durable
//! state are named by [`backend_counter`] and [`backend_table`], and every
//! method's contract states over those names what the crate's source shows
//! of the call it makes.

use vstd::prelude::*;

use ic_stable_structures::memory_manager::{MemoryId, MemoryManager, VirtualMemory};
use ic_stable_structures::{Cell, DefaultMemoryImpl, StableBTreeMap};

verus! {

/// The counter cell in region 0 together with the record table in region
/// 1, both handles into one memory-managed durable address space.
#[verifier::external_body]
pub struct StableBackend {
    counter: Cell<u64, VirtualMemory<DefaultMemoryImpl>>,
    table: StableBTreeMap<u64, Vec<u8>, VirtualMemory<DefaultMemoryImpl>>,
}

/// The value the counter cell holds.
pub uninterp spec fn backend_counter(b: StableBackend) -> u64;

/// The contents of the record table: the serialized record stored under
/// each id.
pub uninterp spec fn backend_table(b: StableBackend) -> Map<u64, Seq<u8>>;

impl StableBackend {
    /// Relies on MemoryManager::init and MemoryManager::get, Cell::init
    /// and StableBTreeMap::init of ic-stable-structures: the same region
    /// id always yields a handle onto the same underlying bytes, and on a
    /// freshly defaulted memory the counter cell takes its initial value 0
    /// and the table starts empty.
    #[verifier::external_body]
    pub(crate) fn init() -> (b: StableBackend)
        ensures
            backend_counter(b) == 0,
            backend_table(b) === Map::empty(),
    {
        let mm = MemoryManager::init(DefaultMemoryImpl::default());
        let counter = Cell::init(mm.get(MemoryId::new(0)), 0u64);
        let table = StableBTreeMap::init(mm.get(MemoryId::new(1)));
        StableBackend { counter, table }
    }

    /// Relies on Cell::get of ic-stable-structures: it returns the value
    /// the cell last persisted.
    #[verifier::external_body]
    pub(crate) fn counter_value(&self) -> (v: u64)
        ensures
            v == backend_counter(*self),
    {
        *self.counter.get()
    }

    /// Relies on Cell::set of ic-stable-structures: it durably replaces
    /// the cell's value; the table's region is untouched.
    #[verifier::external_body]
    pub(crate) fn counter_store(&mut self, v: u64)
        ensures
            backend_counter(*final(self)) == v,
            backend_table(*final(self)) == backend_table(*old(self)),
    {
        let _prev: u64 = self.counter.set(v);
    }

    /// Relies on StableBTreeMap::insert of ic-stable-structures: it stores
    /// the value under the key, replacing any previous one; the counter's
    /// region is untouched.
    #[verifier::external_body]
    pub(crate) fn table_insert(&mut self, id: u64, bytes: Vec<u8>)
        ensures
            backend_table(*final(self)) == backend_table(*old(self)).insert(id, bytes@),
            backend_counter(*final(self)) == backend_counter(*old(self)),
    {
        let _prev: Option<Vec<u8>> = self.table.insert(id, bytes);
    }

    /// Relies on StableBTreeMap::get of ic-stable-structures: it returns
    /// the value stored under the key, if any.
    #[verifier::external_body]
    pub(crate) fn table_get(&self, id: u64) -> (r: Option<Vec<u8>>)
        ensures
            r matches Some(v) ==> backend_table(*self).dom().contains(id) && v@ == backend_table(
                *self,
            )[id],
            r is None ==> !backend_table(*self).dom().contains(id),
    {
        self.table.get(&id)
    }

    /// Relies on StableBTreeMap::remove of ic-stable-structures: it takes
    /// the value stored under the key out of the table and returns it;
    /// the counter's region is untouched.
    #[verifier::external_body]
    pub(crate) fn table_remove(&mut self, id: u64) -> (r: Option<Vec<u8>>)
        ensures
            backend_counter(*final(self)) == backend_counter(*old(self)),
            r matches Some(v) ==> backend_table(*old(self)).dom().contains(id) && v@
                == backend_table(*old(self))[id] && backend_table(*final(self)) == backend_table(
                *old(self),
            ).remove(id),
            r is None ==> !backend_table(*old(self)).dom().contains(id) && backend_table(
                *final(self),
            ) == backend_table(*old(self)),
    {
        self.table.remove(&id)
    }

    /// Relies on StableBTreeMap::keys of ic-stable-structures: it yields
    /// every key of the table exactly once, in ascending order.
    #[verifier::external_body]
    pub(crate) fn table_keys(&self) -> (r: Vec<u64>)
        ensures
            forall|i: int|
                0 <= i < r@.len() ==> backend_table(*self).dom().contains(#[trigger] r@[i]),
            forall|i: int, j: int|
                #![trigger r@[i], r@[j]]
                0 <= i < j < r@.len() ==> r@[i] < r@[j],
            forall|k: u64|
                #[trigger] backend_table(*self).dom().contains(k) ==> exists|i: int|
                    0 <= i < r@.len() && r@[i] == k,
    {
        self.table.keys().collect()
    }
}

} // verus!
