//! An encrypted vault store: named, passphrase-protected containers of
//! secret entries, each kept as a sealed content file beside a plain
//! metadata record.
//!
//! The library decides and computes; it never touches the storage root
//! itself. Every operation takes what the caller observed there and answers
//! with a value and the file actions that bring the storage root to the new
//! state. An operation that fails asks for no change.
//!
//! - [`cipher`] seals and opens bytes under a passphrase.
//! - [`passwords`] is the entry store, [`encoding`] its binary form and
//!   [`generator`] the source of new secrets.
//! - [`vault`] ties a store to the two files of one vault.
//! - [`vault_controller`] creates, lists, deletes, renames and re-keys
//!   vaults; [`password_commands`] reads and changes their entries.
//! - [`storage`] holds what is observed and what is asked for, and
//!   [`directory`] says what the file actions mean.

pub mod cipher;
pub mod directory;
pub mod encoding;
pub mod generator;
pub mod password_commands;
pub mod passwords;
pub mod storage;
pub mod text;
pub mod timestamp;
pub mod vault;
pub mod vault_controller;
