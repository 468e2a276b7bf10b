//! A catalog and deduplication engine for zipmod packages: archives whose
//! embedded XML manifest names a guid, an author, a display name and a
//! version.  The library extracts and normalizes those fields, derives a
//! canonical file name, keeps a guid ledger that makes repeated runs
//! idempotent, plans relocations into an author-partitioned tree, and
//! persists the catalog as row-oriented text.  All file transfer and other
//! I/O stays with the caller.

pub mod archive;
pub mod catalog;
pub mod chars;
pub mod config;
pub mod engine;
pub mod error;
pub mod files;
pub mod ledger;
pub mod xml;
pub mod zipmod;
