use vstd::prelude::*;
use crate::bucket_ops::{any_active_bucket, is_smallest, move_all_validator_tickets_to_bucket, owned_ticket_ids};
use crate::chain_state::{ChainState, bury_all, buried, meets_min_bond, put_ticket, put_validator, retarget};
use crate::types::{TicketState, Validator, ValidatorState};

verus! {

/// `v` after jailing: terminal state, no cooldown.
pub open spec fn jailed(v: Validator) -> Validator {
    Validator { state: ValidatorState::Jailed, cooldown_until_epoch: None, ..v }
}

/// The minimum-bond rule, the one place it is decided.
pub fn satisfies_min_bond(v: &Validator) -> (r: bool)
    ensures
        r == meets_min_bond(*v),
{
    v.vault_balance >= v.initial_bond
}

/// Jails a validator for good: its state becomes `Jailed` and every ticket it
/// owns becomes dead and moves to the dead bucket, so it is never selected
/// again.
pub fn jail_validator(state: &mut ChainState, validator_id: u64)
    requires
        old(state).wf(),
        old(state).validators@.contains_key(validator_id),
    ensures
        final(state).wf(),
        final(state).same_layout(old(state)),
        final(state).epoch_index == old(state).epoch_index,
        final(state).retire_schedule@ == old(state).retire_schedule@,
        final(state).retire_finalize@ == old(state).retire_finalize@,
        final(state).validators@ == old(state).validators@.insert(
            validator_id,
            jailed(old(state).validators@[validator_id]),
        ),
        final(state).tickets@ == bury_all(old(state).tickets@, validator_id, old(state).dead_bucket_id),
{
    let ghost pre = *old(state);
    let dead = state.dead_bucket_id;
    move_all_validator_tickets_to_bucket(state, validator_id, dead);
    let ghost mid = state.tickets@;
    let ids = owned_ticket_ids(state, validator_id);
    let mut i: usize = 0;
    while i < ids.len()
        invariant
            state.wf(),
            state.same_layout(&pre),
            state.epoch_index == pre.epoch_index,
            state.retire_schedule@ == pre.retire_schedule@,
            state.retire_finalize@ == pre.retire_finalize@,
            state.validators@ == pre.validators@,
            pre.validators@.contains_key(validator_id),
            mid == retarget(pre.tickets@, validator_id, dead),
            dead == pre.dead_bucket_id,
            forall|t: u64|
                ids@.contains(t) <==> mid.contains_key(t) && mid[t].owner == validator_id,
            state.tickets@.dom() == mid.dom(),
            forall|t: u64|
                #![trigger state.tickets@[t]]
                state.tickets@.contains_key(t) ==> state.tickets@[t] == if mid[t].owner
                    == validator_id && exists|k: int| 0 <= k < i && ids@[k] == t {
                    buried(pre.tickets@[t], dead)
                } else {
                    mid[t]
                },
        decreases ids.len() - i,
    {
        let tid = ids[i];
        assert(ids@.contains(tid));
        let mut t = *state.tickets.get(&tid).unwrap();
        t.state = TicketState::Dead;
        put_ticket(state, t);
        i = i + 1;
    }
    proof {
        assert forall|t: u64| #[trigger] state.tickets@.contains_key(t) implies state.tickets@[t]
            == bury_all(pre.tickets@, validator_id, dead)[t] by {
            if mid[t].owner == validator_id {
                assert(ids@.contains(t));
            }
        }
        assert(state.tickets@ =~= bury_all(pre.tickets@, validator_id, dead));
    }
    let v = *state.validators.get(&validator_id).unwrap();
    let mut j = v;
    j.state = ValidatorState::Jailed;
    j.cooldown_until_epoch = None;
    put_validator(state, j);
}

/// `v` after a vault top-up of `amount`.
pub open spec fn refilled(v: Validator, amount: u128) -> Validator {
    Validator { vault_balance: (v.vault_balance + amount) as u128, ..v }
}

/// A top-up brings a paused validator straight back when its vault covers its bond.
pub open spec fn refill_rejoins(v: Validator, amount: u128) -> bool {
    v.state == ValidatorState::PausedLowVault && meets_min_bond(refilled(v, amount))
}

/// Adds `amount` to a validator's vault. A `PausedLowVault` validator whose
/// vault then covers its initial bond becomes `Active` at once, and its
/// tickets move to an active bucket.
pub fn on_vault_refill(state: &mut ChainState, validator_id: u64, amount: u128)
    requires
        old(state).wf(),
        old(state).validators@.contains_key(validator_id),
        old(state).validators@[validator_id].vault_balance + amount <= u128::MAX,
        refill_rejoins(old(state).validators@[validator_id], amount) ==> old(
            state,
        ).active_bucket_ids@.len() > 0,
    ensures
        final(state).wf(),
        final(state).same_layout(old(state)),
        final(state).epoch_index == old(state).epoch_index,
        final(state).retire_schedule@ == old(state).retire_schedule@,
        final(state).retire_finalize@ == old(state).retire_finalize@,
        ({
            let v = refilled(old(state).validators@[validator_id], amount);
            if refill_rejoins(old(state).validators@[validator_id], amount) {
                &&& final(state).validators@ == old(state).validators@.insert(
                    validator_id,
                    (Validator { state: ValidatorState::Active, ..v }),
                )
                &&& exists|b: u64|
                    is_smallest(old(state).active_bucket_ids@, b) && final(state).tickets@
                        == retarget(old(state).tickets@, validator_id, b)
            } else {
                &&& final(state).validators@ == old(state).validators@.insert(validator_id, v)
                &&& final(state).tickets@ == old(state).tickets@
            }
        }),
{
    let mut v = *state.validators.get(&validator_id).unwrap();
    v.vault_balance = v.vault_balance + amount;
    if v.state == ValidatorState::PausedLowVault && satisfies_min_bond(&v) {
        v.state = ValidatorState::Active;
        put_validator(state, v);
        let active_bucket = any_active_bucket(state);
        move_all_validator_tickets_to_bucket(state, validator_id, active_bucket);
    } else {
        put_validator(state, v);
    }
}

} // verus!
