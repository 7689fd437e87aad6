//! A verified persistence core for an agent directory: typed records
//! holding an identity, an optional profile and an ordered list of signed
//! encryption keys, a keyed collection with a uniqueness index over them,
//! and the access patterns a directory service needs — upsert-by-key,
//! replace-by-id in an embedded list, and a whole-collection projection
//! of committee candidates.

pub mod protocol;
pub mod errors;
pub mod updates;
pub mod dao;
pub mod store;
pub mod codec;
