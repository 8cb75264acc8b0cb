//! Verified core of a local mirror of a remote package registry's
//! binary artifact store.
//!
//! Given a catalog of (package name, version, expected checksum) triples,
//! the library decides which artifacts still need fetching, hands out work
//! items one at a time, classifies each server response, verifies each
//! downloaded body against its expected SHA-256 checksum before it may be
//! committed to its final path, keeps an append-only ledger of permanently
//! denied items, and accounts for progress. All I/O (network, filesystem,
//! process spawning) is performed by a thin unverified shell around this
//! library.

pub mod digest;
pub mod filter;
pub mod index;
pub mod item;
pub mod ledger;
pub mod report;
pub mod run;
pub mod worker;

pub use item::WorkItem;
