//! Synchronization pipeline for a listening-history collector.
//!
//! The library fetches a user's recently played tracks from a remote music
//! service (through an unverified HTTP shell), converts the loosely structured
//! remote records into normalized rows across five related tables, and records
//! them in a relational store, deduplicating across repeated runs.  The store
//! itself is modeled here as a verified in-memory value; a driver program may
//! stand any storage engine with the same contract behind it.

pub mod accounts;
pub mod client;
pub mod dates;
pub mod extract;
pub mod laws;
pub mod pipeline;
pub mod remote;
pub mod store;
