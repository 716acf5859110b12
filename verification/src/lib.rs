//! Gitka: compressed, removable-media backups of git repositories.
//!
//! The library holds the archive format, the entry stream codec, volume
//! splitting, deduplication bookkeeping, the session log, key derivation and
//! the decision logic of the command-line tool. Input and output live in the
//! application around it.
pub mod error;
pub mod archive;
pub mod text;
pub mod keyed;
pub mod strings;
pub mod paths;
pub mod config;
pub mod format;
pub mod hashing;
pub mod dedup;
pub mod compress;
pub mod writer;
pub mod encryption;
pub mod dirty;
pub mod settings;
pub mod repo;
pub mod sync;
pub mod source;
pub mod serve;
pub mod usb;
pub mod cli;
pub mod gui;
pub mod recovery;
pub mod workflow;
