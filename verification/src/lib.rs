//! Session management and configuration-directory logic for a desktop
//! dashboard that drives interactive shell sessions over pseudo-terminals
//! and curates the files under the user's `~/.dashboard` directory.
//!
//! The heart of the crate is [`terminal::SessionManager`]: a registry of
//! pseudo-terminal sessions whose bookkeeping (id assignment, lookup,
//! cooperative close, removal by the reader loop) is fully verified, with
//! its laws proved in [`terminal_laws`].  The surrounding modules hold
//! the verified decision logic of the dashboard's file-management
//! commands; all file, process and clock access stays with the caller.

pub mod backup;
pub mod error;
pub mod favorites;
mod host;
pub mod paths;
pub mod search;
pub mod stats;
pub mod strutil;
pub mod template;
pub mod terminal;
pub mod terminal_laws;
pub mod transfer;
pub mod types;
