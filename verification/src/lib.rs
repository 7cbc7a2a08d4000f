//! Code Vault: an in-memory library of code snippets.
//!
//! The crate holds the logic of a snippet manager: a record store with
//! create, update, delete, favorite-toggle and find operations, a query
//! engine that filters the store by search text and language, the
//! comma-separated tags notation, and the state machine that selects the
//! active screen. Every operation carries a contract over a mathematical
//! view of the data, and the stated laws (idempotent favorite toggling,
//! sound filtering, stable tag round-trips) are proved.

pub mod query;
pub mod router;
pub mod snippet;
pub mod store;
pub mod tags;
pub mod text;
