//! A minimal per-owner record store with deterministic, derived addressing.
//!
//! Each owner identity controls one profile record and a bounded set of item
//! records. Records are located without any lookup table: an address is
//! derived from a fixed namespace tag, the owner's key, and (for items) a
//! single-byte index. Every mutating operation first verifies that the caller
//! is the owner of the records it touches, then applies its transition
//! atomically: a failed precondition leaves no trace.
//!
//! The [`registry::Registry`] type models the host's record store and carries
//! the proved invariants: one profile per owner, pairwise-distinct item
//! indices that are never reused, and `item_count <= last_index` after every
//! operation.

pub mod error;
pub mod keys;
pub mod registry;
pub mod states;
