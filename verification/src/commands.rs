//! The operations behind each command: shell-source generation, listing,
//! adding, and removal.

pub mod add;
pub mod history;
pub mod init;
pub mod install;
pub mod list;
pub mod remove;
