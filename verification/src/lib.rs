//! Verified core of a marketplace for confidential AI compute.
//!
//! Six coupled state machines share one authenticated-principal model:
//! a job ledger, a compute-provider registry, a per-job payment escrow,
//! a confidential-job attestation processor, a tokenized data-asset
//! registry, and a batch coordinator for front-running-resistant trade
//! execution.  Each component is a standalone state machine over plain
//! values; the surrounding runtime supplies the caller identity, attached
//! payments, clocks and block heights as arguments, and performs the
//! external value transfers that three operations request.

pub mod assoc;
pub mod attestation;
pub mod batch;
pub mod data_nft;
pub mod job_ledger;
pub mod payment_escrow;
pub mod principal;
pub mod provider_registry;
