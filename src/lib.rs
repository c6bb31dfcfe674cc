//! Reconciliation of a follow list on a relay-based social graph: merging
//! follow lists, resolving claimed human-readable identifiers, checking them
//! against the domain's lookup document, and computing what must be
//! republished.
pub mod identifier;
pub mod follow;
pub mod metadata;
pub mod verification;
pub mod reconcile;
pub mod run;
pub mod config;
