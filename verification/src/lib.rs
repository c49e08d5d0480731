//! The certificate registry: soulbound certificate records keyed by an opaque
//! id, an issuer allowlist governed by an owner, and the queries over them.
use vstd::prelude::*;

pub mod contract;
pub mod error;
pub mod laws;
pub mod msg;
pub mod order;
pub mod spec;
pub mod state;
pub mod text;

verus! {

/// A point in time, in nanoseconds since the epoch; carried, never inspected.
#[verifier::external_type_specification]
#[verifier::external_body]
pub struct ExTimestamp(cosmwasm_std::Timestamp);

} // verus!
