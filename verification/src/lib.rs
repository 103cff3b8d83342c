//! A read-only virtual filesystem over a content-addressed object store:
//! a stable bidirectional mapping between object identifiers and small
//! sequential inode numbers, and the four read-only filesystem operations
//! (lookup, getattr, read, readdir) answered from that mapping.

pub mod attr;
pub mod bimap;
pub mod engine;
pub mod errors;
pub mod oid;
pub mod store;
