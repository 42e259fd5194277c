//! Verified core of a document-store CRUD layer.
//!
//! The library gives a model type uniform create / read / update / delete
//! semantics over a document collection: an identifier codec that maps a
//! model's identifier to the store's key representation and back, synthesis
//! of the canonical identifier filter, interpretation of the store's
//! acknowledgements (inserted key, matched / modified / deleted counts) into
//! a typed error taxonomy, and the insert-then-refetch and update-then-refetch
//! orchestration, verified against an in-memory model of the collection.
//!
//! The asynchronous client of a real document store performs the network
//! round-trips outside this crate and feeds each acknowledgement to the
//! decision functions here.

pub mod codec;
pub mod error;
pub mod facade;
pub mod store;
pub mod value;
