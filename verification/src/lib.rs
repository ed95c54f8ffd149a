//! A minimal persistent record store, verified: callers create, read,
//! update, delete and text-search one kind of record, the storage item,
//! and all state lives in durable, independently addressed memory
//! regions.
//!
//! The pieces, leaves first: [`backend`] partitions one durable address
//! space into a counter region and a table region and is the only part
//! taken on trust; [`codec`] lays a record out as a size-bounded byte
//! sequence with a proved round trip; [`fmt`] renders the error
//! messages; [`text`] decides substring matches for the search; [`item`]
//! holds the record types and their models; and [`store`] composes the
//! ten operations on top, each with a contract over the store's abstract
//! state.

pub mod backend;
pub mod codec;
pub mod fmt;
pub mod item;
pub mod store;
pub mod text;
