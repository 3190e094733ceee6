//! Self-certifying identities: an identifier derived from the root of a
//! signed, append-only change history, with verification of that history,
//! reconciliation of stored histories, and creation of new identities.

pub mod error;
pub mod identifier;
pub mod bytes;
pub mod change;
pub mod codec;
pub mod vault;
pub mod history;
pub mod identity;
pub mod keys;
pub mod repository;
pub mod creation;
