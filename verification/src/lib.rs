//! A naming layer over a content-addressed store.
//!
//! A long name is bound to a small set of named services, each pointing at the root
//! of a directory. The binding lives in an owner-signed, versioned record whose
//! service map is sealed with a key pair that only the account's private
//! configuration holds.

pub mod bytes;
pub mod codec;
pub mod crypto;
pub mod directory;
pub mod dns_operations;
pub mod errors;
pub mod keyed;
pub mod record;
pub mod service_map;
pub mod store;
pub mod table;
pub mod url;
