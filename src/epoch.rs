use vstd::prelude::*;
use crate::bucket_ops::{any_active_bucket, any_muted_bucket, is_smallest, move_all_validator_tickets_to_bucket};
use crate::chain_state::{ChainState, in_bucket, lemma_wf_frame, meets_min_bond, put_validator};
use crate::retirement_ops::{
    RETIRE_DELAY_EPOCHS,
    begin_retire_for_epoch,
    begin_steps,
    finalize_retire_for_epoch,
    finalize_steps,
    sched_view,
};
use crate::types::{Ticket, TicketState, Validator, ValidatorState};
use crate::validator_ops::satisfies_min_bond;

verus! {

/// Validator `vid` owns a ticket in state `Active`.
pub open spec fn owns_active_ticket(tickets: Map<u64, Ticket>, vid: u64) -> bool {
    exists|t: u64|
        #[trigger] tickets.contains_key(t) && tickets[t].owner == vid && tickets[t].state
            == TicketState::Active
}

/// An active validator without active tickets becomes inactive.
pub open spec fn deactivated(v: Validator, tickets: Map<u64, Ticket>) -> Validator {
    if v.state == ValidatorState::Active && !owns_active_ticket(tickets, v.id) {
        Validator { state: ValidatorState::Inactive, ..v }
    } else {
        v
    }
}

/// The cooldown of `v` has run out by epoch `epoch`.
pub open spec fn cooldown_over(v: Validator, epoch: u64) -> bool {
    v.state == ValidatorState::PunishedCooldown && v.cooldown_until_epoch is Some
        && v.cooldown_until_epoch->0 <= epoch
}

/// A validator whose cooldown ran out returns to `Active` when its vault
/// covers its bond, else to `PausedLowVault`.
pub open spec fn resolved(v: Validator, epoch: u64) -> Validator {
    if cooldown_over(v, epoch) {
        Validator {
            state: if meets_min_bond(v) {
                ValidatorState::Active
            } else {
                ValidatorState::PausedLowVault
            },
            cooldown_until_epoch: None,
            ..v
        }
    } else {
        v
    }
}

/// Validators at the end of an epoch transition into `epoch`, given the
/// tickets after retirement processing.
pub open spec fn epoch_validators(
    vals: Map<u64, Validator>,
    tickets: Map<u64, Ticket>,
    epoch: u64,
) -> Map<u64, Validator> {
    Map::new(|k: u64| vals.contains_key(k), |k: u64| resolved(deactivated(vals[k], tickets), epoch))
}

/// Tickets at the end of an epoch transition into `epoch`: the live tickets
/// of a validator leaving cooldown move to the active bucket `ab` or the
/// muted bucket `mb`.
pub open spec fn epoch_tickets(
    tickets: Map<u64, Ticket>,
    vals: Map<u64, Validator>,
    epoch: u64,
    ab: u64,
    mb: u64,
) -> Map<u64, Ticket> {
    Map::new(
        |k: u64| tickets.contains_key(k),
        |k: u64|
            {
                let v = vals[tickets[k].owner];
                if cooldown_over(v, epoch) && tickets[k].state != TicketState::Dead {
                    in_bucket(tickets[k], if meets_min_bond(v) { ab } else { mb })
                } else {
                    tickets[k]
                }
            },
    )
}

/// Tickets and finalization schedule after the retirement steps of epoch
/// `e`, with `m` the muted bucket used.
pub open spec fn after_retirement(st: &ChainState, e: u64, m: u64) -> (
    Map<u64, Ticket>,
    Map<u64, Seq<u64>>,
) {
    let begun = if st.retire_schedule@.contains_key(e) {
        begin_steps(st.tickets@, sched_view(st.retire_finalize@), st.retire_schedule@[e]@, e, m)
    } else {
        (st.tickets@, sched_view(st.retire_finalize@))
    };
    if begun.1.contains_key(e) {
        (finalize_steps(begun.0, begun.1[e], st.dead_bucket_id), begun.1.remove(e))
    } else {
        begun
    }
}

/// What an epoch transition does: `post` is `pre` one epoch later, after
/// the retirement steps of the new epoch, the deactivation of idle
/// validators and the resolution of expired cooldowns.
pub open spec fn epoch_effect(pre: &ChainState, post: &ChainState) -> bool {
    &&& post.wf()
    &&& post.same_layout(pre)
    &&& post.epoch_index == pre.epoch_index + 1
    &&& post.retire_schedule@ == pre.retire_schedule@.remove(post.epoch_index)
    &&& exists|m: u64, ab: u64|
        is_smallest(pre.muted_bucket_ids@, m) && is_smallest(
            pre.active_bucket_ids@,
            ab,
        ) && ({
            let e = post.epoch_index;
            let r = after_retirement(pre, e, m);
            &&& sched_view(post.retire_finalize@) == r.1
            &&& post.validators@ == epoch_validators(pre.validators@, r.0, e)
            &&& post.tickets@ == epoch_tickets(
                r.0,
                pre.validators@,
                e,
                ab,
                m,
            )
        })
}

/// The ids of all validators.
fn validator_ids(state: &ChainState) -> (r: Vec<u64>)
    ensures
        forall|v: u64| r@.contains(v) <==> state.validators@.contains_key(v),
{
    let mut r: Vec<u64> = Vec::new();
    for (vid, v) in it: state.validators.iter()
        invariant
            forall|j: int|
                #![trigger it.seq()[j]]
                0 <= j < it.seq().len() ==> state.validators@.contains_key(*it.seq()[j].0),
            forall|x: u64| #[trigger]
                state.validators@.contains_key(x) ==> r@.contains(x) || exists|j: int|
                    it.index() <= j < it.seq().len() && *it.seq()[j].0 == x,
            forall|x: u64| #[trigger] r@.contains(x) ==> state.validators@.contains_key(x),
    {
        let ghost k = it.index();
        let ghost old_r = r@;
        assert(it.seq()[k] == (vid, v));
        r.push(*vid);
        proof {
            assert(r@[r@.len() - 1] == *vid);
            assert forall|x: u64| old_r.contains(x) implies #[trigger] r@.contains(x) by {
                let i = choose|i: int| 0 <= i < old_r.len() && old_r[i] == x;
                assert(r@[i] == x);
            }
            assert forall|x: u64| #[trigger] r@.contains(x) implies state.validators@.contains_key(x) by {
                if x != *vid {
                    let i = choose|i: int| 0 <= i < r@.len() && r@[i] == x;
                    assert(old_r[i] == x);
                    assert(old_r.contains(x));
                }
            }
        }
    }
    r
}

/// Whether validator `vid` owns a ticket in state `Active`.
fn has_active_ticket(state: &ChainState, vid: u64) -> (r: bool)
    ensures
        r == owns_active_ticket(state.tickets@, vid),
{
    let mut found: bool = false;
    for (tid, t) in it: state.tickets.iter()
        invariant
            forall|j: int|
                #![trigger it.seq()[j]]
                0 <= j < it.seq().len() ==> state.tickets@.contains_key(*it.seq()[j].0)
                    && state.tickets@[*it.seq()[j].0] == *it.seq()[j].1,
            found ==> owns_active_ticket(state.tickets@, vid),
            !found ==> forall|x: u64| #[trigger]
                state.tickets@.contains_key(x) && state.tickets@[x].owner == vid
                    && state.tickets@[x].state == TicketState::Active ==> exists|j: int|
                    it.index() <= j < it.seq().len() && *it.seq()[j].0 == x,
    {
        let ghost k = it.index();
        assert(it.seq()[k] == (tid, t));
        if t.owner == vid && t.state == TicketState::Active {
            assert(state.tickets@.contains_key(*tid));
            found = true;
        }
    }
    proof {
        if !found && owns_active_ticket(state.tickets@, vid) {
            let x = choose|x: u64|
                #[trigger] state.tickets@.contains_key(x) && state.tickets@[x].owner == vid
                    && state.tickets@[x].state == TicketState::Active;
            assert(state.tickets@.contains_key(x));
        }
    }
    found
}

/// Makes every active validator that owns no active ticket inactive.
fn deactivate_idle_validators(state: &mut ChainState)
    requires
        old(state).wf(),
    ensures
        final(state).wf(),
        final(state).same_layout(old(state)),
        final(state).epoch_index == old(state).epoch_index,
        final(state).tickets@ == old(state).tickets@,
        final(state).retire_schedule@ == old(state).retire_schedule@,
        final(state).retire_finalize@ == old(state).retire_finalize@,
        final(state).validators@ == Map::new(
            |k: u64| old(state).validators@.contains_key(k),
            |k: u64| deactivated(old(state).validators@[k], old(state).tickets@),
        ),
{
    let ghost pre = *old(state);
    let vids = validator_ids(state);
    let mut i: usize = 0;
    while i < vids.len()
        invariant
            state.wf(),
            state.same_layout(&pre),
            state.epoch_index == pre.epoch_index,
            state.tickets@ == pre.tickets@,
            state.retire_schedule@ == pre.retire_schedule@,
            state.retire_finalize@ == pre.retire_finalize@,
            forall|v: u64| vids@.contains(v) <==> pre.validators@.contains_key(v),
            state.validators@.dom() == pre.validators@.dom(),
            forall|v: u64|
                #![trigger state.validators@[v]]
                pre.validators@.contains_key(v) ==> state.validators@[v] == if exists|j: int|
                    0 <= j < i && vids@[j] == v {
                    deactivated(pre.validators@[v], pre.tickets@)
                } else {
                    pre.validators@[v]
                },
        decreases vids.len() - i,
    {
        let vid = vids[i];
        assert(vids@.contains(vid));
        let v = *state.validators.get(&vid).unwrap();
        if v.state == ValidatorState::Active && !has_active_ticket(state, vid) {
            let mut w = v;
            w.state = ValidatorState::Inactive;
            put_validator(state, w);
        }
        i = i + 1;
    }
    proof {
        assert forall|v: u64| #[trigger] state.validators@.contains_key(v) implies state.validators@[v]
            == deactivated(pre.validators@[v], pre.tickets@) by {
            assert(vids@.contains(v));
        }
        assert(state.validators@ =~= Map::new(
            |k: u64| pre.validators@.contains_key(k),
            |k: u64| deactivated(pre.validators@[k], pre.tickets@),
        ));
    }
}

/// Resolves every validator whose cooldown has run out by the current
/// epoch, moving its live tickets to the active or the muted bucket.
fn resolve_cooldowns(state: &mut ChainState, active_bucket: u64, muted_bucket: u64)
    requires
        old(state).wf(),
        old(state).active_bucket_ids@.contains(active_bucket),
        old(state).muted_bucket_ids@.contains(muted_bucket),
    ensures
        final(state).wf(),
        final(state).same_layout(old(state)),
        final(state).epoch_index == old(state).epoch_index,
        final(state).retire_schedule@ == old(state).retire_schedule@,
        final(state).retire_finalize@ == old(state).retire_finalize@,
        final(state).validators@ == Map::new(
            |k: u64| old(state).validators@.contains_key(k),
            |k: u64| resolved(old(state).validators@[k], old(state).epoch_index),
        ),
        final(state).tickets@ == epoch_tickets(
            old(state).tickets@,
            old(state).validators@,
            old(state).epoch_index,
            active_bucket,
            muted_bucket,
        ),
{
    let ghost pre = *old(state);
    let e = state.epoch_index;
    let vids = validator_ids(state);
    let mut i: usize = 0;
    while i < vids.len()
        invariant
            state.wf(),
            state.same_layout(&pre),
            state.epoch_index == e,
            e == pre.epoch_index,
            state.retire_schedule@ == pre.retire_schedule@,
            state.retire_finalize@ == pre.retire_finalize@,
            pre.active_bucket_ids@.contains(active_bucket),
            pre.muted_bucket_ids@.contains(muted_bucket),
            forall|v: u64| vids@.contains(v) <==> pre.validators@.contains_key(v),
            state.validators@.dom() == pre.validators@.dom(),
            forall|v: u64|
                #![trigger state.validators@[v]]
                pre.validators@.contains_key(v) ==> state.validators@[v] == if exists|j: int|
                    0 <= j < i && vids@[j] == v {
                    resolved(pre.validators@[v], e)
                } else {
                    pre.validators@[v]
                },
            state.tickets@.dom() == pre.tickets@.dom(),
            forall|t: u64|
                #![trigger state.tickets@[t]]
                pre.tickets@.contains_key(t) ==> state.tickets@[t] == if exists|j: int|
                    0 <= j < i && vids@[j] == pre.tickets@[t].owner {
                    epoch_tickets(pre.tickets@, pre.validators@, e, active_bucket, muted_bucket)[t]
                } else {
                    pre.tickets@[t]
                },
            forall|t: u64| #[trigger]
                pre.tickets@.contains_key(t) ==> pre.validators@.contains_key(
                    pre.tickets@[t].owner,
                ),
        decreases vids.len() - i,
    {
        let vid = vids[i];
        assert(vids@.contains(vid));
        let v = *state.validators.get(&vid).unwrap();
        if v.state == ValidatorState::PunishedCooldown {
            match v.cooldown_until_epoch {
                Some(until_epoch) => {
                    if e >= until_epoch {
                        let mut w = v;
                        w.cooldown_until_epoch = None;
                        if satisfies_min_bond(&w) {
                            w.state = ValidatorState::Active;
                            put_validator(state, w);
                            move_all_validator_tickets_to_bucket(state, vid, active_bucket);
                        } else {
                            w.state = ValidatorState::PausedLowVault;
                            put_validator(state, w);
                            move_all_validator_tickets_to_bucket(state, vid, muted_bucket);
                        }
                    }
                },
                None => {},
            }
        }
        i = i + 1;
    }
    proof {
        assert forall|v: u64| #[trigger] state.validators@.contains_key(v) implies state.validators@[v]
            == resolved(pre.validators@[v], e) by {
            assert(vids@.contains(v));
        }
        assert(state.validators@ =~= Map::new(
            |k: u64| pre.validators@.contains_key(k),
            |k: u64| resolved(pre.validators@[k], e),
        ));
        assert forall|t: u64| #[trigger] state.tickets@.contains_key(t) implies state.tickets@[t]
            == epoch_tickets(pre.tickets@, pre.validators@, e, active_bucket, muted_bucket)[t] by {
            assert(vids@.contains(pre.tickets@[t].owner));
        }
        assert(state.tickets@ =~= epoch_tickets(
            pre.tickets@,
            pre.validators@,
            e,
            active_bucket,
            muted_bucket,
        ));
    }
}

/// Ends an epoch: advances `epoch_index`, runs the retirement steps of the
/// new epoch, makes active validators without active tickets inactive, and
/// resolves the validators whose cooldown has run out (jailed validators
/// are never touched).
pub fn process_epoch_transition(state: &mut ChainState)
    requires
        old(state).wf(),
        old(state).epoch_index + 1 + RETIRE_DELAY_EPOCHS <= u64::MAX,
        old(state).active_bucket_ids@.len() > 0,
    ensures
        epoch_effect(old(state), final(state)),
{
    let ghost pre = *old(state);
    state.epoch_index = state.epoch_index + 1;
    proof {
        lemma_wf_frame(&pre, state);
    }
    let e = state.epoch_index;
    let ghost s0 = *state;
    begin_retire_for_epoch(state, e);
    let ghost s1 = *state;
    finalize_retire_for_epoch(state, e);
    let ghost mid = *state;
    let muted_bucket = any_muted_bucket(state);
    proof {
        if s0.retire_schedule@.contains_key(e) {
            let m = choose|m: u64|
                is_smallest(s0.muted_bucket_ids@, m) && (s1.tickets@, sched_view(s1.retire_finalize@))
                    == begin_steps(
                    s0.tickets@,
                    sched_view(s0.retire_finalize@),
                    s0.retire_schedule@[e]@,
                    e,
                    m,
                );
            assert(m == muted_bucket);
        }
        assert(sched_view(s1.retire_finalize@).contains_key(e) == s1.retire_finalize@.contains_key(e));
        if s1.retire_finalize@.contains_key(e) {
            assert(sched_view(s1.retire_finalize@)[e] == s1.retire_finalize@[e]@);
            assert(sched_view(mid.retire_finalize@) =~= sched_view(s1.retire_finalize@).remove(e));
        }
        assert((mid.tickets@, sched_view(mid.retire_finalize@)) == after_retirement(&pre, e, muted_bucket));
    }
    let active_bucket = any_active_bucket(state);
    deactivate_idle_validators(state);
    let ghost after3 = *state;
    resolve_cooldowns(state, active_bucket, muted_bucket);
    proof {
        assert(state.validators@ =~= epoch_validators(pre.validators@, mid.tickets@, e));
        assert forall|t: u64| #[trigger] mid.tickets@.contains_key(t) implies epoch_tickets(
            mid.tickets@,
            after3.validators@,
            e,
            active_bucket,
            muted_bucket,
        )[t] == epoch_tickets(mid.tickets@, pre.validators@, e, active_bucket, muted_bucket)[t] by {
            assert(mid.validators@.contains_key(mid.tickets@[t].owner));
        }
        assert(state.tickets@ =~= epoch_tickets(
            mid.tickets@,
            pre.validators@,
            e,
            active_bucket,
            muted_bucket,
        ));
        let r = after_retirement(&pre, e, muted_bucket);
        assert(is_smallest(pre.muted_bucket_ids@, muted_bucket) && is_smallest(
            pre.active_bucket_ids@,
            active_bucket,
        ) && sched_view(state.retire_finalize@) == r.1 && state.validators@ == epoch_validators(
            pre.validators@,
            r.0,
            e,
        ) && state.tickets@ == epoch_tickets(r.0, pre.validators@, e, active_bucket, muted_bucket));
        assert(state.wf());
        assert(state.same_layout(&pre));
        assert(state.epoch_index == pre.epoch_index + 1);
        assert(state.retire_schedule@ == pre.retire_schedule@.remove(state.epoch_index));
    }
}

/// Cooldown resolution: a validator cooling down until epoch `until` is
/// still cooling down at every earlier epoch transition, and at `until` (or
/// later) returns to `Active` when its vault covers its bond, else to
/// `PausedLowVault`.
pub proof fn lemma_cooldown_resolution(
    v: Validator,
    tickets: Map<u64, Ticket>,
    until: u64,
    epoch: u64,
)
    requires
        v.state == ValidatorState::PunishedCooldown,
        v.cooldown_until_epoch == Some(until),
    ensures
        epoch < until ==> resolved(deactivated(v, tickets), epoch) == v,
        epoch >= until ==> resolved(deactivated(v, tickets), epoch).state == if meets_min_bond(v) {
            ValidatorState::Active
        } else {
            ValidatorState::PausedLowVault
        },
        epoch >= until ==> resolved(deactivated(v, tickets), epoch).cooldown_until_epoch is None,
{
}

/// A jailed validator stays jailed through every epoch transition.
pub proof fn lemma_jailed_stays(
    vals: Map<u64, Validator>,
    tickets: Map<u64, Ticket>,
    epoch: u64,
    vid: u64,
)
    requires
        vals.contains_key(vid),
        vals[vid].state == ValidatorState::Jailed,
    ensures
        epoch_validators(vals, tickets, epoch)[vid] == vals[vid],
{
}

} // verus!
