//! A content-addressed object store in the style of Git's plumbing layer:
//! the loose-object encoding, content addresses, tree and commit parsing,
//! and the decisions behind object lookup, reference resolution and
//! history walking. Filesystem access is left to the caller.
pub mod bytes;
pub mod codec;
pub mod commands;
pub mod error;
pub mod hashing;
pub mod history;
pub mod obj;
pub mod refs;
pub mod repo;
pub mod text;
