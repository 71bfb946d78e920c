//! A verified model of a per-owner tip jar ledger.
//!
//! Each owner may create one tip jar record, stored in a content-addressed
//! account store at an address derived deterministically from the owner's
//! identity. Tippers move value from their wallet into the jar's backing
//! balance, which also raises the jar's lifetime `total_tips` counter; the
//! recorded owner, and nobody else, may withdraw from the backing balance,
//! which leaves `total_tips` untouched.

pub mod address;
pub mod codec;
pub mod jar;
pub mod laws;
pub mod ledger;
