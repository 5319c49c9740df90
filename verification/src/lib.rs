//! Incremental slot indexing: the decisions of an indexer that follows a
//! block-structured ledger and stores what it finds, stated and proved over
//! mathematical models.
//!
//! The library performs no input or output. A driver fetches blocks, makes
//! the writes and sleeps; every decision in between is taken here:
//!
//! - `indexer` holds the loop as a state machine, from event to action;
//! - `poll` holds the retry policy of block fetches, `burst` the advisory
//!   probe of the subscription feed;
//! - `block` and `decode` hold the fetched block and its decoder, `targets`
//!   the filter of programs, `writes` the writes of a slot in their order;
//! - `store` says what the writes do to the datastore, `memory` is a
//!   datastore that does it, and `system` puts machine and datastore
//!   together: there the laws of the cursor are proved;
//! - `config`, `commitment` and `list` read the configuration;
//! - `text` and `idset` order and search the identifiers.

pub mod block;
pub mod burst;
pub mod commitment;
pub mod config;
pub mod decode;
pub mod idset;
pub mod indexer;
pub mod list;
pub mod memory;
pub mod poll;
pub mod store;
pub mod system;
pub mod targets;
pub mod text;
pub mod writes;
