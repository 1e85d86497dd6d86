//! Download test assets, managing them outside of git.
//!
//! A test declares the files that it needs by name, SHA-256 hash and url.
//! They are fetched into a directory once; a hash list in that directory
//! records what was fetched, so that later runs fetch nothing again.
//!
//! This library holds the rules of that: the hash value and its text form
//! ([`Sha256Hash`]), the hash list and the format of its file
//! ([`HashList`]), and the decisions of a download run
//! ([`download::Run`]). The transfers and the files themselves are the
//! caller's: the library tells the caller what to fetch and what to save,
//! and is told what came of it.

pub mod download;
pub mod error;
pub mod hash;
pub mod hash_list;
pub mod hex;
pub mod text;

pub use download::{DownloadOutcome, TestAssetDef};
pub use error::TaError;
pub use hash::Sha256Hash;
pub use hash_list::HashList;
