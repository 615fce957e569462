//! A deterministically-addressed, size-bounded record store.
//!
//! Records live at storage addresses derived from a natural key and an
//! owner identity. The library verifies the create / update / delete
//! lifecycle of such records, per-field payload validation, storage-size
//! accounting, and an escrow custody gate that releases funds only when a
//! price condition is met.

pub mod address;
pub mod error;
pub mod shape;
pub mod escrow;
pub mod store;
