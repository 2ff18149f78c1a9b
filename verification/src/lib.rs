//! A trust-minimized prediction-market escrow settlement engine.
//!
//! A caller stakes funds behind a claim with a deadline; challengers stake
//! against it. At the deadline an oracle quorum attests to the outcome and
//! the pooled funds are redistributed; if no quorum ever forms, a
//! permissionless timeout path refunds every stake verbatim.
//!
//! The library works on plain values: identities are 32-byte keys, time is a
//! unix timestamp, the attestation bundle is a list of instructions with raw
//! byte payloads, and every fund movement is returned as an explicit payout
//! list for the surrounding runtime to execute.

pub mod errors;
pub mod state;
pub mod quorum;
pub mod settlement;
pub mod refund;
pub mod market;
