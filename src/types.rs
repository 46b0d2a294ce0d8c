use std::collections::HashSet;
use vstd::prelude::*;

verus! {

/// Lifecycle state of a validator. `Jailed` is terminal.
#[derive(Debug, Clone, Copy, PartialEq, Eq, Structural)]
pub enum ValidatorState {
    Active,
    PausedLowVault,
    PunishedCooldown,
    Inactive,
    Jailed,
}

#[derive(Debug, Clone, Copy, PartialEq, Eq, Structural)]
pub struct Validator {
    pub id: u64,
    pub state: ValidatorState,
    pub vault_balance: u128,
    pub initial_bond: u128,
    pub miss_counter: u32,
    pub double_sign_offenses: u8,
    pub cooldown_until_epoch: Option<u64>,
}

/// Lifecycle state of a ticket: `Dead` tickets never come back.
#[derive(Debug, Clone, Copy, PartialEq, Eq, Structural)]
pub enum TicketState {
    Active,
    Retiring,
    Dead,
}

#[derive(Debug, Clone, Copy, PartialEq, Eq, Structural)]
pub struct Ticket {
    pub id: u64,
    pub owner: u64,
    pub bucket: u64,
    pub creation_epoch: u64,
    pub state: TicketState,
    pub retire_requested_epoch: Option<u64>,
    pub retire_effective_epoch: Option<u64>,
}

/// A pool of tickets; membership is exclusive across all buckets.
#[derive(Debug)]
pub struct Bucket {
    pub id: u64,
    pub ticket_ids: HashSet<u64>,
}

/// A block emitted for a slot; `proposer` is `None` for a protocol block.
#[derive(Debug, Clone, Copy, PartialEq, Eq, Structural)]
pub struct Block {
    pub slot_index: u64,
    pub timestamp_ms: u64,
    pub proposer: Option<u64>,
}

/// A block proposal submitted for a slot.
#[derive(Debug, Clone, Copy, PartialEq, Eq, Structural)]
pub struct Proposal {
    pub proposer_id: u64,
    pub block_id: u64,
}

} // verus!
