//! A verified core for a proof-verifier service: fragments of large binary
//! artifacts are staged by index, assembled in order, and the decoded objects
//! are kept per program so that a stored proof can be checked against the
//! stored setup artifact of the same program.
//!
//! One value of [`VerifierCanister`] owns all of the state and every operation
//! goes through it; there are no globals. Pending fragments and decoded
//! objects live in memory for as long as that value lives. Of the state only
//! the owner is meant to outlive the process: the host layer writes it to
//! stable storage after a change and hands it back through `init`.
//!
//! There is one buffer of pending fragments for all uploads. Two uploads that
//! interleave their fragments overwrite each other, and fragments left behind
//! by an upload that was given up are taken for part of the next one unless
//! the buffer is cleared first.

pub mod canister;
pub mod chunks;
pub mod config;
pub mod error;
pub mod identity;
pub mod store;

pub use crate::canister::VerifierCanister;
