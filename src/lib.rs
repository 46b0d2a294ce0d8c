//! Deterministic proof-of-stake consensus core: leader sortition over ticket
//! buckets, per-slot punishment rules, ticket retirement and epoch transitions.

pub mod types;
pub mod chain_state;
pub mod bucket_ops;
pub mod leader_selection;
pub mod validator_ops;
pub mod slot;
pub mod retirement_ops;
pub mod epoch;
pub mod simulator;
