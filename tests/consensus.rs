use std::collections::{BTreeMap, HashMap, HashSet};

use eternix_sim::bucket_ops::{any_active_bucket, any_muted_bucket, move_all_validator_tickets_to_bucket, move_ticket};
use eternix_sim::chain_state::ChainState;
use eternix_sim::epoch::process_epoch_transition;
use eternix_sim::leader_selection::select_leader;
use eternix_sim::retirement_ops::request_ticket_retire;
use eternix_sim::simulator::{SimClock, Simulator};
use eternix_sim::slot::{process_slot, process_slot_checked, should_liveness_slash};
use eternix_sim::types::{Bucket, Proposal, Ticket, TicketState, Validator, ValidatorState};
use eternix_sim::validator_ops::{jail_validator, on_vault_refill};

const ACTIVE: u64 = 0;
const MUTED: u64 = 1;
const DEAD: u64 = 2;

fn validator(id: u64, vault: u128) -> Validator {
    Validator {
        id,
        state: ValidatorState::Active,
        vault_balance: vault,
        initial_bond: 1_000_000,
        miss_counter: 0,
        double_sign_offenses: 0,
        cooldown_until_epoch: None,
    }
}

/// Validators with the given vaults; tickets `(ticket id, owner)` in the
/// active bucket.
fn genesis(vals: &[(u64, u128)], tickets: &[(u64, u64)]) -> ChainState {
    let mut validators = HashMap::new();
    for &(id, vault) in vals {
        validators.insert(id, validator(id, vault));
    }
    let mut buckets = HashMap::new();
    for id in [ACTIVE, MUTED, DEAD] {
        buckets.insert(id, Bucket { id, ticket_ids: HashSet::new() });
    }
    let mut ts = HashMap::new();
    for &(tid, owner) in tickets {
        ts.insert(
            tid,
            Ticket {
                id: tid,
                owner,
                bucket: ACTIVE,
                creation_epoch: 0,
                state: TicketState::Active,
                retire_requested_epoch: None,
                retire_effective_epoch: None,
            },
        );
        buckets.get_mut(&ACTIVE).unwrap().ticket_ids.insert(tid);
    }
    let mut active_bucket_ids = HashSet::new();
    active_bucket_ids.insert(ACTIVE);
    let mut muted_bucket_ids = HashSet::new();
    muted_bucket_ids.insert(MUTED);
    ChainState {
        validators,
        tickets: ts,
        buckets,
        active_bucket_ids,
        muted_bucket_ids,
        dead_bucket_id: DEAD,
        epoch_index: 0,
        sub_epoch_index: 0,
        epoch_seed: [7u8; 32],
        retire_per_epoch_limit: 2,
        retire_schedule: BTreeMap::new(),
        retire_finalize: BTreeMap::new(),
    }
}

fn in_bucket(state: &ChainState, bucket: u64, tid: u64) -> bool {
    state.buckets[&bucket].ticket_ids.contains(&tid)
}

fn check_exclusive(state: &ChainState) {
    for (tid, t) in &state.tickets {
        let holders: Vec<u64> = state
            .buckets
            .iter()
            .filter(|(_, b)| b.ticket_ids.contains(tid))
            .map(|(id, _)| *id)
            .collect();
        assert_eq!(holders, vec![t.bucket]);
    }
    let total: usize = state.buckets.values().map(|b| b.ticket_ids.len()).sum();
    assert_eq!(total, state.tickets.len());
}

fn one(proposer: u64, block: u64) -> Vec<Proposal> {
    vec![Proposal { proposer_id: proposer, block_id: block }]
}

#[test]
fn leader_is_deterministic() {
    let state = genesis(&[(1, 1_000_000), (2, 1_000_000)], &[(1, 1), (2, 2)]);
    for slot in 0..20 {
        let a = select_leader(&state, slot);
        let b = select_leader(&state, slot);
        assert_eq!(a, b);
        assert!(a == 1 || a == 2);
    }
}

#[test]
fn move_ticket_updates_bucket_and_membership() {
    let mut state = genesis(&[(1, 1_000_000)], &[(1, 1), (2, 1)]);
    move_ticket(&mut state, 1, ACTIVE, MUTED);
    assert_eq!(state.tickets[&1].bucket, MUTED);
    assert!(in_bucket(&state, MUTED, 1));
    assert!(!in_bucket(&state, ACTIVE, 1));
    check_exclusive(&state);
    move_all_validator_tickets_to_bucket(&mut state, 1, DEAD);
    assert!(in_bucket(&state, DEAD, 1) && in_bucket(&state, DEAD, 2));
    check_exclusive(&state);
}

#[test]
fn category_picks_take_smallest_id() {
    let mut state = genesis(&[(1, 1_000_000)], &[(1, 1)]);
    for id in [9u64, 5, 7] {
        state.buckets.insert(id, Bucket { id, ticket_ids: HashSet::new() });
    }
    state.active_bucket_ids.insert(9);
    state.muted_bucket_ids.insert(7);
    state.muted_bucket_ids.insert(5);
    assert_eq!(any_active_bucket(&state), 0);
    assert_eq!(any_muted_bucket(&state), 1);
    state.muted_bucket_ids.remove(&1);
    assert_eq!(any_muted_bucket(&state), 5);
}

#[test]
fn no_eligible_ticket_gives_protocol_block() {
    let mut state = genesis(&[(1, 1_000_000)], &[(1, 1)]);
    move_ticket(&mut state, 1, ACTIVE, MUTED);
    let block = process_slot(&mut state, 4, 12_000, &one(1, 4));
    assert_eq!(block.slot_index, 4);
    assert_eq!(block.timestamp_ms, 15_000);
    assert_eq!(block.proposer, None);
    assert_eq!(state.validators[&1].miss_counter, 0);
}

#[test]
fn success_lowers_miss_counter_to_zero() {
    let mut state = genesis(&[(1, 1_000_000)], &[(1, 1)]);
    state.validators.get_mut(&1).unwrap().miss_counter = 2;
    let b = process_slot(&mut state, 0, 0, &one(1, 0));
    assert_eq!(b.proposer, Some(1));
    assert_eq!(state.validators[&1].miss_counter, 1);
    process_slot(&mut state, 1, 3_000, &one(1, 1));
    assert_eq!(state.validators[&1].miss_counter, 0);
    process_slot(&mut state, 2, 6_000, &one(1, 2));
    assert_eq!(state.validators[&1].miss_counter, 0);
}

#[test]
fn duplicate_identical_proposals_count_as_miss() {
    let mut state = genesis(&[(1, 1_000_000)], &[(1, 1)]);
    let props = vec![
        Proposal { proposer_id: 1, block_id: 3 },
        Proposal { proposer_id: 1, block_id: 3 },
    ];
    let b = process_slot(&mut state, 0, 0, &props);
    assert_eq!(b.proposer, None);
    assert_eq!(state.validators[&1].miss_counter, 1);
    assert_eq!(state.validators[&1].double_sign_offenses, 0);
}

#[test]
fn checked_slot_refuses_saturated_leader() {
    let mut state = genesis(&[(1, 1_000_000)], &[(1, 1)]);
    state.validators.get_mut(&1).unwrap().miss_counter = u32::MAX;
    assert!(process_slot_checked(&mut state, 0, 0, &[]).is_none());
    assert_eq!(state.validators[&1].miss_counter, u32::MAX);
    state.validators.get_mut(&1).unwrap().miss_counter = u32::MAX - 1;
    let b = process_slot_checked(&mut state, 1, 3_000, &one(1, 1)).unwrap();
    assert_eq!(b.proposer, Some(1));
    assert_eq!(state.validators[&1].miss_counter, u32::MAX - 2);
}

#[test]
fn liveness_slash_threshold() {
    assert!(!should_liveness_slash(3, 4));
    assert!(should_liveness_slash(4, 5));
    assert!(!should_liveness_slash(5, 5));
    assert!(!should_liveness_slash(5, 6));
    assert!(should_liveness_slash(104, 105));
    assert!(should_liveness_slash(204, 205));
    assert!(!should_liveness_slash(105, 104));
    assert!(!should_liveness_slash(0, 0));
}

#[test]
fn fifth_miss_triggers_liveness_slash() {
    let mut state = genesis(&[(1, 1_000_000)], &[(1, 1)]);
    state.epoch_index = 3;
    for slot in 0..4u64 {
        let b = process_slot(&mut state, slot, slot * 3_000, &[]);
        assert_eq!(b.proposer, None);
        assert_eq!(state.validators[&1].miss_counter as u64, slot + 1);
        assert_eq!(state.validators[&1].state, ValidatorState::Active);
        assert_eq!(state.validators[&1].vault_balance, 1_000_000);
    }
    process_slot(&mut state, 4, 12_000, &[]);
    let v = state.validators[&1];
    assert_eq!(v.miss_counter, 5);
    assert_eq!(v.vault_balance, 950_000);
    assert_eq!(v.state, ValidatorState::PunishedCooldown);
    assert_eq!(v.cooldown_until_epoch, Some(5));
    assert!(in_bucket(&state, MUTED, 1));
    check_exclusive(&state);
}

#[test]
fn liveness_slash_rounds_down() {
    let mut state = genesis(&[(1, 1_000_019)], &[(1, 1)]);
    state.validators.get_mut(&1).unwrap().miss_counter = 4;
    process_slot(&mut state, 0, 0, &[]);
    assert_eq!(state.validators[&1].vault_balance, 1_000_019 - 50_000);
}

fn reactivate(state: &mut ChainState, vid: u64) {
    let v = state.validators.get_mut(&vid).unwrap();
    v.state = ValidatorState::Active;
    v.cooldown_until_epoch = None;
    move_all_validator_tickets_to_bucket(state, vid, ACTIVE);
}

#[test]
fn double_sign_ladder() {
    let mut state = genesis(&[(1, 1_000_000)], &[(1, 1), (2, 1)]);
    let twice = vec![
        Proposal { proposer_id: 1, block_id: 10 },
        Proposal { proposer_id: 1, block_id: 11 },
    ];
    let b = process_slot(&mut state, 0, 0, &twice);
    assert_eq!(b.proposer, None);
    let v = state.validators[&1];
    assert_eq!(v.double_sign_offenses, 1);
    assert_eq!(v.vault_balance, 500_000);
    assert_eq!(v.state, ValidatorState::PunishedCooldown);
    assert_eq!(v.cooldown_until_epoch, Some(3));
    assert!(in_bucket(&state, MUTED, 1) && in_bucket(&state, MUTED, 2));

    reactivate(&mut state, 1);
    state.epoch_index = 4;
    process_slot(&mut state, 1, 3_000, &twice);
    let v = state.validators[&1];
    assert_eq!(v.double_sign_offenses, 2);
    assert_eq!(v.vault_balance, 125_000);
    assert_eq!(v.cooldown_until_epoch, Some(10));

    reactivate(&mut state, 1);
    process_slot(&mut state, 2, 6_000, &twice);
    let v = state.validators[&1];
    assert_eq!(v.double_sign_offenses, 3);
    assert_eq!(v.vault_balance, 0);
    assert_eq!(v.state, ValidatorState::Jailed);
    assert!(in_bucket(&state, DEAD, 1) && in_bucket(&state, DEAD, 2));
    assert_eq!(state.tickets[&1].state, TicketState::Dead);
    check_exclusive(&state);
}

#[test]
fn retirement_is_rate_limited() {
    let mut state = genesis(&[(1, 1_000_000), (2, 1_000_000)], &[(1, 1), (2, 1), (3, 1), (4, 2)]);
    // 4 belongs to another validator, 99 is unknown: both are ignored.
    request_ticket_retire(&mut state, 1, vec![3, 99, 1, 4, 2]);
    assert_eq!(state.retire_schedule.get(&1), Some(&vec![1, 2]));
    assert_eq!(state.retire_schedule.get(&2), Some(&vec![3]));
    assert_eq!(state.retire_schedule.len(), 2);
    // A further request fills epoch 2 before spilling into epoch 3.
    request_ticket_retire(&mut state, 1, vec![1, 2]);
    assert_eq!(state.retire_schedule.get(&2), Some(&vec![3, 1]));
    assert_eq!(state.retire_schedule.get(&3), Some(&vec![2]));
}

#[test]
fn zero_retirement_limit_schedules_nothing() {
    let mut state = genesis(&[(1, 1_000_000)], &[(1, 1), (2, 1)]);
    state.retire_per_epoch_limit = 0;
    request_ticket_retire(&mut state, 1, vec![1, 2]);
    assert!(state.retire_schedule.is_empty());
}

#[test]
fn retirement_round_trip() {
    let mut state = genesis(&[(1, 1_000_000), (2, 1_000_000)], &[(1, 1), (2, 1), (3, 2)]);
    request_ticket_retire(&mut state, 1, vec![1]);
    process_epoch_transition(&mut state);
    assert_eq!(state.epoch_index, 1);
    let t = state.tickets[&1];
    assert_eq!(t.state, TicketState::Retiring);
    assert_eq!(t.retire_requested_epoch, Some(1));
    assert_eq!(t.retire_effective_epoch, Some(3));
    assert!(in_bucket(&state, MUTED, 1));
    assert!(state.retire_schedule.is_empty());
    process_epoch_transition(&mut state);
    assert_eq!(state.tickets[&1].state, TicketState::Retiring);
    process_epoch_transition(&mut state);
    assert_eq!(state.tickets[&1].state, TicketState::Dead);
    assert!(in_bucket(&state, DEAD, 1));
    assert!(state.retire_finalize.is_empty());
    request_ticket_retire(&mut state, 1, vec![1]);
    assert!(state.retire_schedule.is_empty());
    check_exclusive(&state);
}

#[test]
fn validator_with_only_retiring_tickets_goes_inactive() {
    let mut state = genesis(&[(1, 1_000_000), (2, 1_000_000)], &[(1, 1), (2, 2)]);
    request_ticket_retire(&mut state, 1, vec![1]);
    process_epoch_transition(&mut state);
    assert_eq!(state.tickets[&1].state, TicketState::Retiring);
    assert_eq!(state.validators[&1].state, ValidatorState::Inactive);
    assert_eq!(state.validators[&2].state, ValidatorState::Active);
}

#[test]
fn cooldown_resolves_at_its_epoch() {
    let mut state = genesis(&[(1, 1_000_000), (2, 999_999)], &[(1, 1), (2, 2)]);
    for vid in [1u64, 2] {
        let v = state.validators.get_mut(&vid).unwrap();
        v.state = ValidatorState::PunishedCooldown;
        v.cooldown_until_epoch = Some(2);
        move_all_validator_tickets_to_bucket(&mut state, vid, MUTED);
    }
    process_epoch_transition(&mut state);
    assert_eq!(state.validators[&1].state, ValidatorState::PunishedCooldown);
    assert_eq!(state.validators[&2].state, ValidatorState::PunishedCooldown);
    process_epoch_transition(&mut state);
    assert_eq!(state.validators[&1].state, ValidatorState::Active);
    assert_eq!(state.validators[&1].cooldown_until_epoch, None);
    assert!(in_bucket(&state, ACTIVE, 1));
    assert_eq!(state.validators[&2].state, ValidatorState::PausedLowVault);
    assert_eq!(state.validators[&2].cooldown_until_epoch, None);
    assert!(in_bucket(&state, MUTED, 2));
}

#[test]
fn jailed_validator_stays_jailed() {
    let mut state = genesis(&[(1, 1_000_000), (2, 1_000_000)], &[(1, 1), (2, 2)]);
    jail_validator(&mut state, 1);
    assert_eq!(state.validators[&1].state, ValidatorState::Jailed);
    assert_eq!(state.tickets[&1].state, TicketState::Dead);
    assert!(in_bucket(&state, DEAD, 1));
    for _ in 0..6 {
        process_epoch_transition(&mut state);
        assert_eq!(state.validators[&1].state, ValidatorState::Jailed);
    }
    on_vault_refill(&mut state, 1, 5_000_000);
    assert_eq!(state.validators[&1].state, ValidatorState::Jailed);
    for slot in 0..10 {
        assert_eq!(select_leader(&state, slot), 2);
    }
}

#[test]
fn vault_refill_rejoins_paused_validator() {
    let mut state = genesis(&[(1, 900_000), (2, 1_000_000)], &[(1, 1), (2, 2)]);
    state.validators.get_mut(&1).unwrap().state = ValidatorState::PausedLowVault;
    move_all_validator_tickets_to_bucket(&mut state, 1, MUTED);
    on_vault_refill(&mut state, 1, 50_000);
    assert_eq!(state.validators[&1].vault_balance, 950_000);
    assert_eq!(state.validators[&1].state, ValidatorState::PausedLowVault);
    assert!(in_bucket(&state, MUTED, 1));
    on_vault_refill(&mut state, 1, 50_000);
    assert_eq!(state.validators[&1].vault_balance, 1_000_000);
    assert_eq!(state.validators[&1].state, ValidatorState::Active);
    assert!(in_bucket(&state, ACTIVE, 1));
    on_vault_refill(&mut state, 2, 10);
    assert_eq!(state.validators[&2].vault_balance, 1_000_010);
    assert_eq!(state.validators[&2].state, ValidatorState::Active);
}

#[test]
fn dead_tickets_stay_in_dead_bucket() {
    let mut state = genesis(&[(1, 900_000)], &[(1, 1), (2, 1)]);
    move_ticket(&mut state, 2, ACTIVE, DEAD);
    state.tickets.get_mut(&2).unwrap().state = TicketState::Dead;
    state.validators.get_mut(&1).unwrap().state = ValidatorState::PausedLowVault;
    move_all_validator_tickets_to_bucket(&mut state, 1, MUTED);
    assert!(in_bucket(&state, MUTED, 1));
    assert!(in_bucket(&state, DEAD, 2));
    on_vault_refill(&mut state, 1, 100_000);
    assert_eq!(state.validators[&1].state, ValidatorState::Active);
    assert!(in_bucket(&state, ACTIVE, 1));
    assert!(in_bucket(&state, DEAD, 2));
    check_exclusive(&state);
}

#[test]
fn example_scenario_slashes_silent_validator() {
    let mut state = genesis(&[(1, 1_000_000), (2, 1_000_000)], &[(1, 1), (2, 2)]);
    let mut misses = 0u32;
    let mut slashed_at_epoch = None;
    for slot in 0..50u64 {
        let pre = state.validators[&1];
        let props = one(2, slot);
        process_slot(&mut state, slot, slot * 3_000, &props);
        let post = state.validators[&1];
        if post.miss_counter > pre.miss_counter {
            misses += 1;
            if misses == 5 {
                slashed_at_epoch = Some(state.epoch_index);
                assert_eq!(post.vault_balance, 950_000);
                assert_eq!(post.state, ValidatorState::PunishedCooldown);
                assert_eq!(post.cooldown_until_epoch, Some(state.epoch_index + 2));
            } else {
                assert_eq!(post.vault_balance, pre.vault_balance);
            }
        }
        assert_eq!(state.validators[&2].miss_counter, 0);
        if (slot + 1) % 10 == 0 {
            process_epoch_transition(&mut state);
        }
    }
    assert!(misses >= 5);
    assert!(slashed_at_epoch.is_some());
}

#[test]
fn simulator_runs_slots_and_epochs() {
    let state = genesis(&[(1, 1_000_000), (2, 1_000_000)], &[(1, 1), (2, 2)]);
    let clock = SimClock { now_ms: 0, slot_start_ms: 0, slot_index: 0 };
    let mut sim = Simulator { clock, state, blocks: Vec::new(), epoch_len_slots: 10 };
    for i in 0..25u64 {
        let block = sim.run_one_slot();
        assert_eq!(block.slot_index, i);
        assert_eq!(block.timestamp_ms, i * 3_000 + 3_000);
        assert!(block.proposer.is_none() || block.proposer == Some(2));
    }
    assert_eq!(sim.blocks.len(), 25);
    assert_eq!(sim.clock.slot_index, 25);
    assert_eq!(sim.clock.now_ms, 75_000);
    assert_eq!(sim.state.epoch_index, 2);
    check_exclusive(&sim.state);
}
