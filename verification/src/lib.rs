//! A library for downloading serialized comics from supported websites and
//! repackaging each issue's pages into a single archive.
//!
//! The crate holds the site-independent logic: resolving a comic URL to a
//! site strategy, listing and slicing issues, locating page images, the
//! per-issue processing state machine, bounded-concurrency admission, and
//! archive packaging. Network and filesystem work is left to the caller,
//! which drives the state machines defined here.

pub mod model;
pub mod util;
pub mod text;
pub mod urls;
pub mod archive;
pub mod readcomic;
pub mod zerocalcare;
pub mod scanita;
pub mod coordinator;
pub mod processor;
pub mod pool;
