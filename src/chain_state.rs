use std::collections::{BTreeMap, HashMap, HashSet};
use vstd::prelude::*;
use crate::types::{Bucket, Ticket, TicketState, Validator, ValidatorState};

verus! {

/// The aggregate consensus state, owned by the driver and mutated in place.
#[derive(Debug)]
pub struct ChainState {
    pub validators: HashMap<u64, Validator>,
    pub tickets: HashMap<u64, Ticket>,
    pub buckets: HashMap<u64, Bucket>,
    pub active_bucket_ids: HashSet<u64>,
    pub muted_bucket_ids: HashSet<u64>,
    pub dead_bucket_id: u64,
    pub epoch_index: u64,
    pub sub_epoch_index: u64,
    pub epoch_seed: [u8; 32],
    /// Most tickets of one validator that may begin retiring in one epoch.
    pub retire_per_epoch_limit: u64,
    /// Epoch -> tickets that begin retiring in that epoch.
    pub retire_schedule: BTreeMap<u64, Vec<u64>>,
    /// Epoch -> tickets that become dead in that epoch.
    pub retire_finalize: BTreeMap<u64, Vec<u64>>,
}

/// Every id listed in a schedule names a known ticket.
pub open spec fn schedule_refs_ok(sched: Map<u64, Vec<u64>>, tickets: Map<u64, Ticket>) -> bool {
    forall|e: u64, j: int|
        #![trigger sched[e]@[j]]
        sched.contains_key(e) && 0 <= j < sched[e]@.len() ==> tickets.contains_key(sched[e]@[j])
}

impl ChainState {
    /// `b` is a known bucket that holds ticket `t`.
    pub open spec fn holds(&self, b: u64, t: u64) -> bool {
        self.buckets@.contains_key(b) && self.buckets@[b].ticket_ids@.contains(t)
    }

    /// Bucket membership agrees with the tickets' `bucket` fields, ids match
    /// their keys, every owner is a known validator, the bucket categories
    /// are known, disjoint buckets with at least one muted bucket, schedules
    /// name known tickets, dead tickets sit in the dead bucket, every ticket
    /// of a jailed validator is dead, and three double-sign offenses mean
    /// jail.
    pub open spec fn wf(&self) -> bool {
        &&& forall|t: u64|
            #![trigger self.tickets@[t]]
            self.tickets@.contains_key(t) ==> {
                &&& self.tickets@[t].id == t
                &&& self.holds(self.tickets@[t].bucket, t)
                &&& self.validators@.contains_key(self.tickets@[t].owner)
            }
        &&& forall|b: u64, t: u64|
            #[trigger] self.holds(b, t) ==> self.tickets@.contains_key(t) && self.tickets@[t].bucket
                == b
        &&& forall|b: u64| #[trigger]
            self.buckets@.contains_key(b) ==> self.buckets@[b].id == b
        &&& forall|v: u64| #[trigger]
            self.validators@.contains_key(v) ==> self.validators@[v].id == v
        &&& forall|b: u64| #[trigger]
            self.active_bucket_ids@.contains(b) ==> self.buckets@.contains_key(b)
                && !self.muted_bucket_ids@.contains(b) && b != self.dead_bucket_id
        &&& forall|b: u64| #[trigger]
            self.muted_bucket_ids@.contains(b) ==> self.buckets@.contains_key(b) && b
                != self.dead_bucket_id
        &&& self.buckets@.contains_key(self.dead_bucket_id)
        &&& self.muted_bucket_ids@.len() > 0
        &&& self.muted_bucket_ids@.finite()
        &&& self.tickets@.dom().len() <= usize::MAX
        &&& self.active_bucket_ids@.finite()
        &&& schedule_refs_ok(self.retire_schedule@, self.tickets@)
        &&& schedule_refs_ok(self.retire_finalize@, self.tickets@)
        &&& forall|t: u64| #[trigger]
            self.tickets@.contains_key(t) && self.tickets@[t].state == TicketState::Dead ==> self.tickets@[t].bucket
                == self.dead_bucket_id
        &&& forall|t: u64| #[trigger]
            self.tickets@.contains_key(t) && self.validators@[self.tickets@[t].owner].state
                == ValidatorState::Jailed ==> self.tickets@[t].state == TicketState::Dead
        &&& forall|v: u64| #[trigger]
            self.validators@.contains_key(v) && self.validators@[v].double_sign_offenses >= 3
                ==> self.validators@[v].state == ValidatorState::Jailed
    }

    /// The fields that only epoch-level configuration changes.
    pub open spec fn same_layout(&self, other: &ChainState) -> bool {
        &&& self.active_bucket_ids@ == other.active_bucket_ids@
        &&& self.muted_bucket_ids@ == other.muted_bucket_ids@
        &&& self.dead_bucket_id == other.dead_bucket_id
        &&& self.buckets@.dom() == other.buckets@.dom()
        &&& self.epoch_seed == other.epoch_seed
        &&& self.sub_epoch_index == other.sub_epoch_index
        &&& self.retire_per_epoch_limit == other.retire_per_epoch_limit
    }

    /// Everything but the tickets and bucket membership is unchanged.
    pub open spec fn same_but_tickets(&self, other: &ChainState) -> bool {
        &&& self.same_layout(other)
        &&& self.validators@ == other.validators@
        &&& self.epoch_index == other.epoch_index
        &&& self.retire_schedule@ == other.retire_schedule@
        &&& self.retire_finalize@ == other.retire_finalize@
    }
}

/// `t` moved to bucket `to`.
pub open spec fn in_bucket(t: Ticket, to: u64) -> Ticket {
    Ticket { bucket: to, ..t }
}

/// Every ticket of validator `vid` that is not dead moved to bucket `to`.
pub open spec fn retarget(tickets: Map<u64, Ticket>, vid: u64, to: u64) -> Map<u64, Ticket> {
    Map::new(
        |k: u64| tickets.contains_key(k),
        |k: u64|
            if tickets[k].owner == vid && tickets[k].state != TicketState::Dead {
                in_bucket(tickets[k], to)
            } else {
                tickets[k]
            },
    )
}

/// The minimum-bond rule: a validator may be active when its vault covers
/// its initial bond.
pub open spec fn meets_min_bond(v: Validator) -> bool {
    v.vault_balance >= v.initial_bond
}

/// `t` made dead and placed in bucket `dead`.
pub open spec fn buried(t: Ticket, dead: u64) -> Ticket {
    Ticket { state: TicketState::Dead, bucket: dead, ..t }
}

/// Every ticket of validator `vid` made dead and placed in bucket `dead`.
pub open spec fn bury_all(tickets: Map<u64, Ticket>, vid: u64, dead: u64) -> Map<u64, Ticket> {
    Map::new(
        |k: u64| tickets.contains_key(k),
        |k: u64|
            if tickets[k].owner == vid {
                buried(tickets[k], dead)
            } else {
                tickets[k]
            },
    )
}

/// Replaces the record of a known validator.
pub fn put_validator(state: &mut ChainState, v: Validator)
    requires
        old(state).wf(),
        old(state).validators@.contains_key(v.id),
        v.state == ValidatorState::Jailed ==> forall|t: u64| #[trigger]
            old(state).tickets@.contains_key(t) && old(state).tickets@[t].owner == v.id
                ==> old(state).tickets@[t].state == TicketState::Dead,
        v.double_sign_offenses >= 3 ==> v.state == ValidatorState::Jailed,
    ensures
        final(state).wf(),
        final(state).same_layout(old(state)),
        final(state).validators@ == old(state).validators@.insert(v.id, v),
        final(state).tickets@ == old(state).tickets@,
        final(state).epoch_index == old(state).epoch_index,
        final(state).retire_schedule@ == old(state).retire_schedule@,
        final(state).retire_finalize@ == old(state).retire_finalize@,
{
    let ghost pre = *old(state);
    state.validators.insert(v.id, v);
    assert(state.validators@.dom() =~= pre.validators@.dom());
    assert(forall|b: u64, t: u64| #[trigger] state.holds(b, t) ==> pre.holds(b, t));
    assert(forall|t: u64| #[trigger] state.tickets@.contains_key(t) ==> pre.holds(pre.tickets@[t].bucket, t));
}

/// Replaces the record of a known ticket, keeping its owner and bucket.
pub fn put_ticket(state: &mut ChainState, t: Ticket)
    requires
        old(state).wf(),
        old(state).tickets@.contains_key(t.id),
        old(state).tickets@[t.id].owner == t.owner,
        old(state).tickets@[t.id].bucket == t.bucket,
        t.state == TicketState::Dead ==> t.bucket == old(state).dead_bucket_id,
        old(state).validators@[t.owner].state == ValidatorState::Jailed ==> t.state
            == TicketState::Dead,
    ensures
        final(state).wf(),
        final(state).same_but_tickets(old(state)),
        final(state).tickets@ == old(state).tickets@.insert(t.id, t),
{
    let ghost pre = *old(state);
    state.tickets.insert(t.id, t);
    assert(state.tickets@.dom() =~= pre.tickets@.dom());
    assert(forall|b: u64, x: u64| #[trigger] state.holds(b, x) ==> pre.holds(b, x));
    assert(forall|x: u64| #[trigger] state.tickets@.contains_key(x) ==> pre.holds(pre.tickets@[x].bucket, x));
}

/// Well-formedness depends on the views of the fields alone, and holds
/// for any schedules that name known tickets.
pub proof fn lemma_wf_frame(a: &ChainState, b: &ChainState)
    requires
        a.wf(),
        b.validators@ == a.validators@,
        b.tickets@ == a.tickets@,
        b.buckets@ == a.buckets@,
        b.active_bucket_ids@ == a.active_bucket_ids@,
        b.muted_bucket_ids@ == a.muted_bucket_ids@,
        b.dead_bucket_id == a.dead_bucket_id,
        schedule_refs_ok(b.retire_schedule@, b.tickets@),
        schedule_refs_ok(b.retire_finalize@, b.tickets@),
    ensures
        b.wf(),
{
    assert(forall|x: u64, t: u64| #[trigger] b.holds(x, t) ==> a.holds(x, t));
    assert(forall|t: u64| #[trigger] b.tickets@.contains_key(t) ==> a.holds(a.tickets@[t].bucket, t));
}

/// Bucket membership is exclusive and complete: in a well-formed state each
/// known ticket sits in exactly one bucket, the one its `bucket` field
/// names, and every bucket member is a known ticket.
pub proof fn lemma_bucket_exclusive(st: &ChainState)
    requires
        st.wf(),
    ensures
        forall|t: u64| #[trigger]
            st.tickets@.contains_key(t) ==> st.holds(st.tickets@[t].bucket, t),
        forall|b1: u64, b2: u64, t: u64|
            #[trigger] st.holds(b1, t) && #[trigger] st.holds(b2, t) ==> b1 == b2,
        forall|b: u64, t: u64| #[trigger] st.holds(b, t) ==> st.tickets@.contains_key(t),
{
}

} // verus!
