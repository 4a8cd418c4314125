//! Transactions over a redb database holding models: each model has a main
//! table from primary keys to stored entries and lists of multimap tables
//! for its secondary, blob, relational and subscription keys.
pub mod codec;
pub mod crud;
pub mod errors;
pub mod laws;
pub mod query;
pub mod relational;
pub mod storage;
pub mod tables;
pub mod transaction;

pub use errors::{NetabaseError, NetabaseResult};
pub use transaction::{RedbTransaction, RedbTransactionInner, RedbTransactionType};
