//! Verified core of a one-shot "drain inbox" synchronizer: remote archive
//! objects are fetched conditionally, checked against their listed content
//! fingerprint, retired at the source only once verified, and extracted into
//! a shared destination directory while skipping already-present contents.
//!
//! The surrounding program performs the actual network and filesystem work;
//! every decision — which outcome a transfer resolved to, which keys may be
//! retired, which archives need extracting — is made here, under contract.

pub mod digest;
pub mod extract;
pub mod pipeline;
pub mod transfer;
