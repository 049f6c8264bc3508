//! A store of timestamps: for each public key, the first content digest
//! submitted for it and the time at which it was recorded.

pub mod api;
pub mod clock;
pub mod keys;
pub mod laws;
pub mod schema;
pub mod transaction;
