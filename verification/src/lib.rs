//! Splitting one sequence of items into disjoint branches that share a single
//! peekable cursor, and recombining a "transform the successes, pass the
//! errors through" pipeline.
//!
//! The decisions a branch takes on each poll are plain functions of what the
//! cursor showed it, so that an asynchronous driver can feed them with the
//! outcome of its own polls; the same decisions drive the in-memory cursor of
//! this crate, over which the laws of a branch group are proved.

pub mod cursor;
pub mod event;
pub mod group;
pub mod laws;
pub mod split;
pub mod via;
