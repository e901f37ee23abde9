//! A certification-NFT service, verified with Verus.
//!
//! The crate has two halves. The token ledger owns the authoritative
//! mapping from token id to owner account together with the collection
//! metadata; it implements mint, batch mint, transfer, and the read-only
//! queries, under strict consistency rules (sequential id assignment,
//! ordered error checks, non-atomic batches). The access-control facade
//! holds an owner identity and a set of manager identities and guards the
//! privileged operations before they are forwarded to a remote ledger.
//!
//! The host that dispatches calls, authenticates callers, and carries the
//! remote calls between the two services is outside the library: every
//! operation here takes the caller and the service state as explicit
//! arguments, and the facade's remote interactions are split into a
//! verified authorization step and a verified settlement step around the
//! unverified transport.

pub mod account;
pub mod errors;
pub mod facade;
pub mod laws;
pub mod ledger;
pub mod metadata;
pub mod numerals;
pub mod token;
