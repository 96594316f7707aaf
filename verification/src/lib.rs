//! A local command-line alias manager: named shell-command aliases scoped to
//! every directory, one exact directory, or a directory subtree, persisted in
//! a transactional key-value store, and rendered as shell functions with
//! directory-sensitive routing.

pub mod error;
pub mod text;
pub mod codec;
pub mod kv;
pub mod store;
pub mod commands;
pub mod laws;
