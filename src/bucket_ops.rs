use vstd::prelude::*;
use std::collections::HashSet;
use vstd::std_specs::hash::spec_hash_keys_iter;
use vstd::std_specs::iter::IteratorSpec;
use crate::chain_state::{ChainState, in_bucket, retarget};
use crate::types::TicketState;

verus! {

/// Moves a ticket from `from_bucket` to `to_bucket`: the only way a ticket
/// changes buckets. The ticket must currently sit in `from_bucket`.
pub fn move_ticket(state: &mut ChainState, ticket_id: u64, from_bucket: u64, to_bucket: u64)
    requires
        old(state).wf(),
        old(state).tickets@.contains_key(ticket_id),
        old(state).tickets@[ticket_id].bucket == from_bucket,
        old(state).buckets@.contains_key(to_bucket),
        old(state).tickets@[ticket_id].state == TicketState::Dead ==> to_bucket == old(
            state,
        ).dead_bucket_id,
    ensures
        final(state).wf(),
        final(state).same_but_tickets(old(state)),
        final(state).tickets@ == old(state).tickets@.insert(
            ticket_id,
            in_bucket(old(state).tickets@[ticket_id], to_bucket),
        ),
        final(state).tickets@[ticket_id].bucket == to_bucket,
{
    let ghost pre = *old(state);
    let mut from = state.buckets.remove(&from_bucket).unwrap();
    from.ticket_ids.remove(&ticket_id);
    state.buckets.insert(from_bucket, from);
    let mut to = state.buckets.remove(&to_bucket).unwrap();
    to.ticket_ids.insert(ticket_id);
    state.buckets.insert(to_bucket, to);
    let mut t = *state.tickets.get(&ticket_id).unwrap();
    t.bucket = to_bucket;
    state.tickets.insert(ticket_id, t);
    proof {
        assert(state.buckets@.dom() =~= pre.buckets@.dom());
        assert forall|b: u64, x: u64| #[trigger] state.holds(b, x) implies state.tickets@.contains_key(x)
            && state.tickets@[x].bucket == b by {
            if x != ticket_id || (b != from_bucket && b != to_bucket) {
                assert(pre.holds(b, x));
            }
        }
        assert forall|x: u64| #[trigger] state.tickets@.contains_key(x) implies state.holds(
            state.tickets@[x].bucket,
            x,
        ) by {
            if x != ticket_id {
                assert(pre.holds(pre.tickets@[x].bucket, x));
            }
        }
    }
}

/// `r` is the smallest member of `s`.
pub open spec fn is_smallest(s: Set<u64>, r: u64) -> bool {
    s.contains(r) && forall|b: u64| #[trigger] s.contains(b) ==> r <= b
}

/// The smallest id of a non-empty set.
fn smallest_id(ids: &HashSet<u64>) -> (r: u64)
    requires
        ids@.len() > 0,
        ids@.finite(),
    ensures
        is_smallest(ids@, r),
{
    let mut best: u64 = 0;
    let mut found: bool = false;
    proof {
        assert(spec_hash_keys_iter(ids).remaining().unref().to_set() == ids@);
    }
    for b in it: ids.iter()
        invariant
            it.seq().unref().to_set() == ids@,
            found ==> ids@.contains(best),
            forall|y: u64|
                #[trigger] ids@.contains(y) ==> (found && best <= y) || exists|j: int|
                    it.index() <= j < it.seq().len() && *it.seq()[j] == y,
    {
        proof {
            assert(it.seq().unref().to_set().contains(*b));
        }
        if !found || *b < best {
            best = *b;
            found = true;
        }
    }
    proof {
        let x = ids@.choose();
        assert(ids@.contains(x));
    }
    best
}

/// A muted bucket: the one with the smallest id.
pub fn any_muted_bucket(state: &ChainState) -> (r: u64)
    requires
        state.wf(),
    ensures
        is_smallest(state.muted_bucket_ids@, r),
{
    smallest_id(&state.muted_bucket_ids)
}

/// An active bucket: the one with the smallest id. There must be one.
pub fn any_active_bucket(state: &ChainState) -> (r: u64)
    requires
        state.wf(),
        state.active_bucket_ids@.len() > 0,
    ensures
        is_smallest(state.active_bucket_ids@, r),
{
    smallest_id(&state.active_bucket_ids)
}

/// The ids of every ticket that validator `validator_id` owns.
pub(crate) fn owned_ticket_ids(state: &ChainState, validator_id: u64) -> (r: Vec<u64>)
    ensures
        forall|t: u64|
            r@.contains(t) <==> state.tickets@.contains_key(t) && state.tickets@[t].owner
                == validator_id,
{
    let mut r: Vec<u64> = Vec::new();
    for (tid, t) in it: state.tickets.iter()
        invariant
            forall|j: int|
                #![trigger it.seq()[j]]
                0 <= j < it.seq().len() ==> state.tickets@.contains_key(*it.seq()[j].0)
                    && state.tickets@[*it.seq()[j].0] == *it.seq()[j].1,
            forall|x: u64|
                r@.contains(x) <==> exists|j: int|
                    #![trigger it.seq()[j]]
                    0 <= j < it.index() && *it.seq()[j].0 == x && it.seq()[j].1.owner
                        == validator_id,
    {
        let ghost k = it.index();
        let ghost old_r = r@;
        assert(it.seq()[k] == (tid, t));
        if t.owner == validator_id {
            r.push(*tid);
        }
        proof {
            assert forall|x: u64|
                r@.contains(x) <==> exists|j: int|
                    #![trigger it.seq()[j]]
                    0 <= j < k + 1 && *it.seq()[j].0 == x && it.seq()[j].1.owner
                        == validator_id by {
                if r@.contains(x) && x != *tid {
                    assert(old_r.contains(x));
                }
                if old_r.contains(x) {
                    let i = choose|i: int| 0 <= i < old_r.len() && old_r[i] == x;
                    assert(r@[i] == x);
                }
                if x == *tid && t.owner == validator_id {
                    assert(r@[r@.len() - 1] == x);
                }
            }
        }
    }
    r
}

/// Moves every ticket of `validator_id` that is not yet in `to_bucket` there,
/// dead tickets excepted: they stay in the dead bucket for good.
pub fn move_all_validator_tickets_to_bucket(
    state: &mut ChainState,
    validator_id: u64,
    to_bucket: u64,
)
    requires
        old(state).wf(),
        old(state).buckets@.contains_key(to_bucket),
    ensures
        final(state).wf(),
        final(state).same_but_tickets(old(state)),
        final(state).tickets@ == retarget(old(state).tickets@, validator_id, to_bucket),
{
    let ghost pre = *old(state);
    let ticket_ids = owned_ticket_ids(state, validator_id);
    let mut i: usize = 0;
    while i < ticket_ids.len()
        invariant
            state.wf(),
            state.same_but_tickets(&pre),
            pre.buckets@.contains_key(to_bucket),
            forall|t: u64|
                ticket_ids@.contains(t) <==> pre.tickets@.contains_key(t) && pre.tickets@[t].owner
                    == validator_id,
            state.tickets@.dom() == pre.tickets@.dom(),
            forall|t: u64|
                #![trigger state.tickets@[t]]
                state.tickets@.contains_key(t) ==> state.tickets@[t] == if pre.tickets@[t].owner
                    == validator_id && pre.tickets@[t].state != TicketState::Dead && exists|j: int|
                    0 <= j < i && ticket_ids@[j] == t {
                    in_bucket(pre.tickets@[t], to_bucket)
                } else {
                    pre.tickets@[t]
                },
        decreases ticket_ids.len() - i,
    {
        let tid = ticket_ids[i];
        assert(ticket_ids@.contains(tid));
        let t = *state.tickets.get(&tid).unwrap();
        if t.state != TicketState::Dead && t.bucket != to_bucket {
            move_ticket(state, tid, t.bucket, to_bucket);
        }
        i = i + 1;
    }
    proof {
        assert forall|t: u64| #[trigger] state.tickets@.contains_key(t) implies state.tickets@[t]
            == retarget(pre.tickets@, validator_id, to_bucket)[t] by {
            if pre.tickets@[t].owner == validator_id {
                assert(ticket_ids@.contains(t));
            }
        }
        assert(state.tickets@ =~= retarget(pre.tickets@, validator_id, to_bucket));
    }
}

} // verus!
