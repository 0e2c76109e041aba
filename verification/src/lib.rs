//! A caching proxy in front of several container registries.
//!
//! Everything here works on plain values: requests come in as bytes, responses go out as
//! bytes, and whatever has to be done on the disk or the network is said, not done.
//!
//! - A request is read (`incoming`), taken apart (`request`) and turned into something to
//!   be done (`server`), for one of the registries that are set up (`config`, `hosts`).
//! - A manifest or a blob is served by an exchange (`exchange`), out of its entry in the
//!   cache (`paths`, `cache`) or from upstream (`registry`), with a response (`response`,
//!   `headers`).
//! - The cache is walked (`walk`, `trees`) to remove what has expired and to list the rest
//!   (`listing`) on a page (`ui`, `encoding`, `format`).

pub mod cache;
pub mod config;
pub mod encoding;
pub mod exchange;
pub mod format;
pub mod headers;
pub mod hosts;
pub mod incoming;
pub mod listing;
pub mod logging;
pub mod paths;
pub mod registry;
pub mod request;
pub mod response;
pub mod server;
pub mod text;
pub mod trees;
pub mod ui;
pub mod walk;
