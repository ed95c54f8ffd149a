use vstd::prelude::*;

verus! {

/// The persisted record: one storage item as it lives in the record table.
///
/// `id` is assigned once by the durable counter and never changes;
/// `created_at` is set once at creation; `updated_at` is absent until the
/// first modification and afterwards holds the time of the latest one.
#[derive(Debug, Clone)]
pub struct SmartStorageItem {
    pub id: u64,
    pub name: String,
    pub description: String,
    pub location: String,
    pub created_at: u64,
    pub updated_at: Option<u64>,
    pub is_available: bool,
}

/// The mathematical model of a storage item: the same fields, with each
/// text field abstracted to its character sequence.
pub ghost struct ItemModel {
    pub id: u64,
    pub name: Seq<char>,
    pub description: Seq<char>,
    pub location: Seq<char>,
    pub created_at: u64,
    pub updated_at: Option<u64>,
    pub is_available: bool,
}

impl View for SmartStorageItem {
    type V = ItemModel;

    open spec fn view(&self) -> ItemModel {
        ItemModel {
            id: self.id,
            name: self.name@,
            description: self.description@,
            location: self.location@,
            created_at: self.created_at,
            updated_at: self.updated_at,
            is_available: self.is_available,
        }
    }
}

impl PartialEq for SmartStorageItem {
    fn eq(&self, other: &Self) -> (r: bool) {
        let updated_eq = match (self.updated_at, other.updated_at) {
            (Option::None, Option::None) => true,
            (Option::Some(a), Option::Some(b)) => a == b,
            _ => false,
        };
        self.id == other.id && self.name == other.name && self.description == other.description
            && self.location == other.location && self.created_at == other.created_at
            && updated_eq && self.is_available == other.is_available
    }
}

impl vstd::std_specs::cmp::PartialEqSpecImpl for SmartStorageItem {
    open spec fn obeys_eq_spec() -> bool {
        true
    }

    open spec fn eq_spec(&self, other: &Self) -> bool {
        self@ == other@
    }
}

/// A create or update request: the caller-supplied fields of an item.
/// `id`, `created_at` and `updated_at` are assigned by the store, never
/// by the caller.
#[derive(Debug, Clone)]
pub struct SmartStorageItemPayload {
    pub name: String,
    pub description: String,
    pub location: String,
    pub is_available: bool,
}

/// The mathematical model of a payload.
pub ghost struct PayloadModel {
    pub name: Seq<char>,
    pub description: Seq<char>,
    pub location: Seq<char>,
    pub is_available: bool,
}

impl View for SmartStorageItemPayload {
    type V = PayloadModel;

    open spec fn view(&self) -> PayloadModel {
        PayloadModel {
            name: self.name@,
            description: self.description@,
            location: self.location@,
            is_available: self.is_available,
        }
    }
}

/// The one recoverable failure: an operation was given an id that is not in
/// the record table. The message names the id and the operation.
#[derive(Debug)]
pub enum Error {
    NotFound { msg: String },
}

impl Error {
    /// The human-readable description the error carries.
    pub fn not_found_message(self) -> (r: String)
        ensures
            (self matches Error::NotFound { msg } && r@ == msg@),
    {
        match self {
            Error::NotFound { msg } => msg,
        }
    }
}

/// The item a creation builds from a fresh id, a payload and the creation
/// time: `updated_at` starts out absent.
pub open spec fn created_model(id: u64, p: PayloadModel, now: u64) -> ItemModel {
    ItemModel {
        id: id,
        name: p.name,
        description: p.description,
        location: p.location,
        created_at: now,
        updated_at: None,
        is_available: p.is_available,
    }
}

/// The item an update builds from the stored item, the payload and the
/// update time: `id` and `created_at` are kept, everything else is taken
/// from the payload, and `updated_at` is refreshed.
pub open spec fn updated_model(prev: ItemModel, p: PayloadModel, now: u64) -> ItemModel {
    ItemModel {
        id: prev.id,
        name: p.name,
        description: p.description,
        location: p.location,
        created_at: prev.created_at,
        updated_at: Some(now),
        is_available: p.is_available,
    }
}

/// The item an availability toggle builds from the stored item: only
/// `is_available` and `updated_at` change.
pub open spec fn availability_model(prev: ItemModel, available: bool, now: u64) -> ItemModel {
    ItemModel {
        id: prev.id,
        name: prev.name,
        description: prev.description,
        location: prev.location,
        created_at: prev.created_at,
        updated_at: Some(now),
        is_available: available,
    }
}

} // verus!
