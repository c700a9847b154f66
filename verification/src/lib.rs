//! Assembles permission data into a versioned, deterministically serialized
//! archive and serves it from a revision cache with conditional retrieval.

pub mod archive;
pub mod bundle;
pub mod cache;
pub mod endpoint;
pub mod hash;
pub mod json;
pub mod nummap;
pub mod order;
pub mod parse;
pub mod permissionables;
pub mod refresh;
pub mod require_bearer;
pub mod strmap;
