//! An in-memory record store kept durable by synchronizing its full
//! contents, on every mutation, to an external persistent key-value slot.
//!
//! The store owns an ordered collection of items, each with a unique
//! caller-assigned `id`, a free-text `title` and a `completed` flag. Queries
//! scan the collection in insertion order; every mutation re-encodes the
//! whole collection into the textual representation that the host's slot
//! holds. The host hands the slot's current value to [`Store::new`] and
//! writes [`Store::flush_value`]'s result back after each mutation.

pub mod codec;
pub mod item;
pub mod store;

pub use codec::decode;
pub use codec::encode;
pub use codec::DecodeError;
pub use item::Item;
pub use item::ItemList;
pub use item::ItemQuery;
pub use item::ItemUpdate;
pub use store::Store;
