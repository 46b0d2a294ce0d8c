use std::collections::BTreeMap;
use vstd::prelude::*;
use vstd::relations::{sorted_by, total_ordering};
use crate::bucket_ops::{any_muted_bucket, is_smallest, move_ticket};
use crate::chain_state::{ChainState, buried, lemma_wf_frame, put_ticket, schedule_refs_ok};
use crate::types::{Ticket, TicketState};

verus! {

broadcast use vstd::seq_lib::group_to_multiset_ensures;

/// Epochs between a ticket starting to retire and becoming dead.
pub const RETIRE_DELAY_EPOCHS: u64 = 2;

/// Ascending order on ticket ids.
pub open spec fn id_le() -> spec_fn(u64, u64) -> bool {
    |a: u64, b: u64| a <= b
}

/// A ticket that validator `vid` may ask to retire: known, its own, active.
pub open spec fn retire_eligible(tickets: Map<u64, Ticket>, vid: u64) -> spec_fn(u64) -> bool {
    |t: u64| tickets.contains_key(t) && tickets[t].owner == vid && tickets[t].state
        == TicketState::Active
}

/// The eligible ids of a request, in ascending order.
pub open spec fn retire_order(req: Seq<u64>, tickets: Map<u64, Ticket>, vid: u64) -> Seq<u64> {
    req.filter(retire_eligible(tickets, vid)).sort_by(id_le())
}

/// A schedule as a map from epoch to the listed ids.
pub open spec fn sched_view(m: Map<u64, Vec<u64>>) -> Map<u64, Seq<u64>> {
    Map::new(|e: u64| m.contains_key(e), |e: u64| m[e]@)
}

/// The ids listed for epoch `e`, empty when there is no entry.
pub open spec fn entry_of(s: Map<u64, Seq<u64>>, e: u64) -> Seq<u64> {
    if s.contains_key(e) {
        s[e]
    } else {
        Seq::empty()
    }
}

/// How many ids of `list` name tickets of validator `vid`.
pub open spec fn owned_in(list: Seq<u64>, tickets: Map<u64, Ticket>, vid: u64) -> nat
    decreases list.len(),
{
    if list.len() == 0 {
        0
    } else {
        owned_in(list.drop_last(), tickets, vid) + if tickets[list.last()].owner == vid {
            1nat
        } else {
            0nat
        }
    }
}

/// Greedy scheduling: each id of `rest` in turn goes to the first epoch from
/// `e` on in which validator `vid` has fewer than `limit` tickets listed.
pub open spec fn schedule_greedy(
    s: Map<u64, Seq<u64>>,
    tickets: Map<u64, Ticket>,
    vid: u64,
    limit: u64,
    e: u64,
    rest: Seq<u64>,
) -> Map<u64, Seq<u64>>
    decreases rest.len(), u64::MAX - e,
{
    if rest.len() == 0 {
        s
    } else if owned_in(entry_of(s, e), tickets, vid) < limit {
        schedule_greedy(
            s.insert(e, entry_of(s, e).push(rest[0])),
            tickets,
            vid,
            limit,
            e,
            rest.drop_first(),
        )
    } else if e < u64::MAX {
        schedule_greedy(s, tickets, vid, limit, (e + 1) as u64, rest)
    } else {
        s
    }
}

/// With a limit of zero no epoch ever has room: nothing is scheduled.
proof fn lemma_greedy_zero_limit(
    s: Map<u64, Seq<u64>>,
    tickets: Map<u64, Ticket>,
    vid: u64,
    e: u64,
    rest: Seq<u64>,
)
    ensures
        schedule_greedy(s, tickets, vid, 0, e, rest) == s,
    decreases u64::MAX - e,
{
    if rest.len() > 0 && e < u64::MAX {
        lemma_greedy_zero_limit(s, tickets, vid, (e + 1) as u64, rest);
    }
}

/// Relies on `slice::sort_unstable`: sorts ascending and keeps the elements.
#[verifier::external_body]
fn sort_ids(v: &mut Vec<u64>)
    ensures
        final(v)@.to_multiset() == old(v)@.to_multiset(),
        sorted_by(final(v)@, id_le()),
{
    v.sort_unstable();
}

/// Appends `tid` to the entry of epoch `e`.
fn push_scheduled(m: &mut BTreeMap<u64, Vec<u64>>, e: u64, tid: u64)
    ensures
        sched_view(final(m)@) == sched_view(old(m)@).insert(
            e,
            entry_of(sched_view(old(m)@), e).push(tid),
        ),
        forall|k: u64| k != e ==> #[trigger] final(m)@.contains_key(k) == old(m)@.contains_key(k)
            && (old(m)@.contains_key(k) ==> final(m)@[k] == old(m)@[k]),
        final(m)@.contains_key(e),
        final(m)@[e]@ == entry_of(sched_view(old(m)@), e).push(tid),
{
    let mut entry = match m.remove(&e) {
        Some(v) => v,
        None => Vec::new(),
    };
    entry.push(tid);
    m.insert(e, entry);
    assert(sched_view(m@) =~= sched_view(old(m)@).insert(
        e,
        entry_of(sched_view(old(m)@), e).push(tid),
    ));
}

/// How many tickets of validator `vid` the retirement schedule lists for
/// epoch `e`.
fn owned_scheduled(state: &ChainState, e: u64, vid: u64) -> (r: u64)
    requires
        state.wf(),
    ensures
        r == owned_in(entry_of(sched_view(state.retire_schedule@), e), state.tickets@, vid),
{
    match state.retire_schedule.get(&e) {
        None => 0,
        Some(entry) => {
            let ghost list = entry@;
            assert(list == entry_of(sched_view(state.retire_schedule@), e));
            let mut n: u64 = 0;
            let mut i: usize = 0;
            while i < entry.len()
                invariant
                    state.wf(),
                    list == entry@,
                    state.retire_schedule@.contains_key(e),
                    state.retire_schedule@[e] == *entry,
                    i <= list.len(),
                    n <= i,
                    n == owned_in(list.subrange(0, i as int), state.tickets@, vid),
                decreases list.len() - i,
            {
                assert(list.subrange(0, i as int + 1).drop_last() =~= list.subrange(0, i as int));
                let tid = entry[i];
                assert(state.tickets@.contains_key(state.retire_schedule@[e]@[i as int]));
                let t = state.tickets.get(&tid).unwrap();
                if t.owner == vid {
                    n = n + 1;
                }
                i = i + 1;
            }
            assert(list.subrange(0, list.len() as int) =~= list);
            n
        },
    }
}

/// The ids of `req` that validator `vid` may retire, in request order.
fn eligible_for_retire(state: &ChainState, vid: u64, req: &Vec<u64>) -> (r: Vec<u64>)
    requires
        state.wf(),
    ensures
        r@ == req@.filter(retire_eligible(state.tickets@, vid)),
{
    let ghost pred = retire_eligible(state.tickets@, vid);
    let mut r: Vec<u64> = Vec::new();
    let mut i: usize = 0;
    while i < req.len()
        invariant
            pred == retire_eligible(state.tickets@, vid),
            i <= req@.len(),
            r@ == req@.subrange(0, i as int).filter(pred),
        decreases req@.len() - i,
    {
        let tid = req[i];
        proof {
            assert(req@.subrange(0, i as int + 1) =~= req@.subrange(0, i as int).push(tid));
            req@.subrange(0, i as int).lemma_filter_push(tid, pred);
        }
        match state.tickets.get(&tid) {
            Some(t) => {
                if t.owner == vid && t.state == TicketState::Active {
                    r.push(tid);
                }
            },
            None => {},
        }
        i = i + 1;
    }
    assert(req@.subrange(0, req@.len() as int) =~= req@);
    r
}

/// Schedules the requested tickets of `validator_id` that are its own and
/// still active to begin retiring: in ascending id order, each in the first
/// epoch after the current one in which fewer than `retire_per_epoch_limit`
/// of the validator's tickets are already listed. Only the retirement
/// schedule changes.
pub fn request_ticket_retire(state: &mut ChainState, validator_id: u64, ticket_ids: Vec<u64>)
    requires
        old(state).wf(),
        old(state).epoch_index < u64::MAX,
    ensures
        final(state).wf(),
        final(state).same_layout(old(state)),
        final(state).validators@ == old(state).validators@,
        final(state).tickets@ == old(state).tickets@,
        final(state).epoch_index == old(state).epoch_index,
        final(state).retire_finalize@ == old(state).retire_finalize@,
        sched_view(final(state).retire_schedule@) == schedule_greedy(
            sched_view(old(state).retire_schedule@),
            old(state).tickets@,
            validator_id,
            old(state).retire_per_epoch_limit,
            (old(state).epoch_index + 1) as u64,
            retire_order(ticket_ids@, old(state).tickets@, validator_id),
        ),
{
    let ghost pre = *old(state);
    let mut eligible = eligible_for_retire(state, validator_id, &ticket_ids);
    let ghost filtered = eligible@;
    sort_ids(&mut eligible);
    proof {
        let leq = id_le();
        assert(total_ordering(leq));
        filtered.lemma_sort_by_ensures(leq);
        vstd::seq_lib::lemma_sorted_unique(eligible@, filtered.sort_by(leq), leq);
        assert forall|k: int| 0 <= k < eligible@.len() implies #[trigger] pre.tickets@.contains_key(
            eligible@[k],
        ) by {
            assert(eligible@.to_multiset().count(eligible@[k]) > 0);
            assert(filtered.contains(eligible@[k]));
            let j = choose|j: int| 0 <= j < filtered.len() && filtered[j] == eligible@[k];
            ticket_ids@.lemma_filter_pred(retire_eligible(pre.tickets@, validator_id), j);
        }
    }
    let limit = state.retire_per_epoch_limit;
    if limit == 0 {
        proof {
            lemma_greedy_zero_limit(
                sched_view(pre.retire_schedule@),
                pre.tickets@,
                validator_id,
                (pre.epoch_index + 1) as u64,
                eligible@,
            );
        }
        return ;
    }
    assert(eligible@.subrange(0, eligible@.len() as int) =~= eligible@);
    let mut epoch = state.epoch_index + 1;
    let mut idx: usize = 0;
    while idx < eligible.len()
        invariant
            state.wf(),
            state.same_layout(&pre),
            state.validators@ == pre.validators@,
            state.tickets@ == pre.tickets@,
            state.epoch_index == pre.epoch_index,
            state.retire_finalize@ == pre.retire_finalize@,
            limit == pre.retire_per_epoch_limit,
            idx <= eligible@.len(),
            eligible@ == retire_order(ticket_ids@, pre.tickets@, validator_id),
            forall|k: int| 0 <= k < eligible@.len() ==> #[trigger] pre.tickets@.contains_key(eligible@[k]),
            schedule_greedy(
                sched_view(state.retire_schedule@),
                pre.tickets@,
                validator_id,
                limit,
                epoch,
                eligible@.subrange(idx as int, eligible@.len() as int),
            ) == schedule_greedy(
                sched_view(pre.retire_schedule@),
                pre.tickets@,
                validator_id,
                limit,
                (pre.epoch_index + 1) as u64,
                eligible@,
            ),
        ensures
            idx == eligible@.len() || (owned_in(
                entry_of(sched_view(state.retire_schedule@), epoch),
                pre.tickets@,
                validator_id,
            ) >= limit && epoch == u64::MAX),
        decreases eligible@.len() - idx, u64::MAX - epoch,
    {
        let ghost rest = eligible@.subrange(idx as int, eligible@.len() as int);
        let used = owned_scheduled(state, epoch, validator_id);
        if used < limit {
            let tid = eligible[idx];
            assert(rest.drop_first() =~= eligible@.subrange(idx as int + 1, eligible@.len() as int));
            let ghost before = state.retire_schedule@;
            let ghost prev = *state;
            push_scheduled(&mut state.retire_schedule, epoch, tid);
            proof {
                assert forall|e: u64, j: int|
                    #![trigger state.retire_schedule@[e]@[j]]
                    state.retire_schedule@.contains_key(e) && 0 <= j
                        < state.retire_schedule@[e]@.len() implies state.tickets@.contains_key(
                    state.retire_schedule@[e]@[j],
                ) by {
                    if e == epoch {
                        if j < entry_of(sched_view(before), e).len() {
                            assert(before[e]@[j] == state.retire_schedule@[e]@[j]);
                        }
                    } else {
                        assert(before[e]@[j] == state.retire_schedule@[e]@[j]);
                    }
                }
                assert(schedule_refs_ok(state.retire_schedule@, state.tickets@));
                lemma_wf_frame(&prev, state);
            }
            idx = idx + 1;
        } else if epoch < u64::MAX {
            epoch = epoch + 1;
        } else {
            break;
        }
    }
    proof {
        let rest = eligible@.subrange(idx as int, eligible@.len() as int);
        assert(rest.len() == 0 || (owned_in(
            entry_of(sched_view(state.retire_schedule@), epoch),
            pre.tickets@,
            validator_id,
        ) >= limit && epoch == u64::MAX));
    }
}

/// `t` once it starts retiring in epoch `epoch`, moved to bucket `muted`.
pub open spec fn started(t: Ticket, epoch: u64, muted: u64) -> Ticket {
    Ticket {
        state: TicketState::Retiring,
        retire_requested_epoch: Some(epoch),
        retire_effective_epoch: Some((epoch + RETIRE_DELAY_EPOCHS) as u64),
        bucket: muted,
        ..t
    }
}

/// Tickets and finalization schedule after starting the retirement of each
/// listed ticket that is still active, in list order.
pub open spec fn begin_steps(
    tickets: Map<u64, Ticket>,
    fin: Map<u64, Seq<u64>>,
    ids: Seq<u64>,
    epoch: u64,
    muted: u64,
) -> (Map<u64, Ticket>, Map<u64, Seq<u64>>)
    decreases ids.len(),
{
    if ids.len() == 0 {
        (tickets, fin)
    } else {
        let prev = begin_steps(tickets, fin, ids.drop_last(), epoch, muted);
        let x = ids.last();
        let e2 = (epoch + RETIRE_DELAY_EPOCHS) as u64;
        if prev.0[x].state == TicketState::Active {
            (prev.0.insert(x, started(prev.0[x], epoch, muted)), prev.1.insert(e2, entry_of(prev.1, e2).push(x)))
        } else {
            prev
        }
    }
}

/// Tickets after making each listed ticket that is not yet dead dead, in
/// the dead bucket.
pub open spec fn finalize_steps(tickets: Map<u64, Ticket>, ids: Seq<u64>, dead: u64) -> Map<u64, Ticket>
    decreases ids.len(),
{
    if ids.len() == 0 {
        tickets
    } else {
        let prev = finalize_steps(tickets, ids.drop_last(), dead);
        let x = ids.last();
        if prev[x].state != TicketState::Dead {
            prev.insert(x, buried(prev[x], dead))
        } else {
            prev
        }
    }
}

/// Takes the retirement-schedule entry of `epoch`, if any: each listed
/// ticket still active becomes `Retiring` (requested at `epoch`, effective
/// two epochs later), moves to a muted bucket and is listed for
/// finalization two epochs later. Other tickets are skipped.
pub fn begin_retire_for_epoch(state: &mut ChainState, epoch: u64)
    requires
        old(state).wf(),
        epoch + RETIRE_DELAY_EPOCHS <= u64::MAX,
    ensures
        final(state).wf(),
        final(state).same_layout(old(state)),
        final(state).validators@ == old(state).validators@,
        final(state).epoch_index == old(state).epoch_index,
        !old(state).retire_schedule@.contains_key(epoch) ==> {
            &&& final(state).tickets@ == old(state).tickets@
            &&& final(state).retire_schedule@ == old(state).retire_schedule@
            &&& final(state).retire_finalize@ == old(state).retire_finalize@
        },
        old(state).retire_schedule@.contains_key(epoch) ==> {
            &&& final(state).retire_schedule@ == old(state).retire_schedule@.remove(epoch)
            &&& exists|m: u64|
                is_smallest(old(state).muted_bucket_ids@, m) && (
                final(state).tickets@,
                sched_view(final(state).retire_finalize@),
            ) == begin_steps(
                old(state).tickets@,
                sched_view(old(state).retire_finalize@),
                old(state).retire_schedule@[epoch]@,
                epoch,
                m,
            )
        },
{
    let ghost pre = *old(state);
    let ids = match state.retire_schedule.remove(&epoch) {
        None => {
            proof {
                assert(state.retire_schedule@ =~= pre.retire_schedule@);
                lemma_wf_frame(&pre, state);
            }
            return ;
        },
        Some(ids) => ids,
    };
    proof {
        lemma_wf_frame(&pre, state);
        assert forall|e: u64, j: int|
            #![trigger state.retire_schedule@[e]@[j]]
            state.retire_schedule@.contains_key(e) && 0 <= j < state.retire_schedule@[e]@.len() implies state.tickets@.contains_key(state.retire_schedule@[e]@[j]) by {
            assert(pre.retire_schedule@[e]@[j] == state.retire_schedule@[e]@[j]);
        }
        assert(forall|k: int| 0 <= k < ids@.len() ==> #[trigger] pre.retire_schedule@[epoch]@[k] == ids@[k]);
    }
    let muted = any_muted_bucket(state);
    let mut i: usize = 0;
    assert(ids@.subrange(0, 0) =~= Seq::<u64>::empty());
    while i < ids.len()
        invariant
            state.wf(),
            state.same_layout(&pre),
            state.validators@ == pre.validators@,
            state.epoch_index == pre.epoch_index,
            state.retire_schedule@ == pre.retire_schedule@.remove(epoch),
            epoch + RETIRE_DELAY_EPOCHS <= u64::MAX,
            is_smallest(pre.muted_bucket_ids@, muted),
            pre.retire_schedule@.contains_key(epoch),
            ids@ == pre.retire_schedule@[epoch]@,
            i <= ids@.len(),
            state.tickets@.dom() == pre.tickets@.dom(),
            forall|k: int| 0 <= k < ids@.len() ==> #[trigger] pre.tickets@.contains_key(ids@[k]),
            (state.tickets@, sched_view(state.retire_finalize@)) == begin_steps(
                pre.tickets@,
                sched_view(pre.retire_finalize@),
                ids@.subrange(0, i as int),
                epoch,
                muted,
            ),
        decreases ids@.len() - i,
    {
        let tid = ids[i];
        assert(pre.tickets@.contains_key(ids@[i as int]));
        assert(ids@.subrange(0, i as int + 1).drop_last() =~= ids@.subrange(0, i as int));
        let mut t = *state.tickets.get(&tid).unwrap();
        if t.state == TicketState::Active {
            let finalize_epoch = epoch + RETIRE_DELAY_EPOCHS;
            t.state = TicketState::Retiring;
            t.retire_requested_epoch = Some(epoch);
            t.retire_effective_epoch = Some(finalize_epoch);
            put_ticket(state, t);
            let from = t.bucket;
            if from != muted {
                move_ticket(state, tid, from, muted);
            }
            assert(state.tickets@ =~= begin_steps(
                pre.tickets@,
                sched_view(pre.retire_finalize@),
                ids@.subrange(0, i as int + 1),
                epoch,
                muted,
            ).0);
            let ghost before = state.retire_finalize@;
            let ghost prev = *state;
            push_scheduled(&mut state.retire_finalize, finalize_epoch, tid);
            proof {
                assert forall|e: u64, j: int|
                    #![trigger state.retire_finalize@[e]@[j]]
                    state.retire_finalize@.contains_key(e) && 0 <= j
                        < state.retire_finalize@[e]@.len() implies state.tickets@.contains_key(
                    state.retire_finalize@[e]@[j],
                ) by {
                    if e == finalize_epoch {
                        if j < entry_of(sched_view(before), e).len() {
                            assert(before[e]@[j] == state.retire_finalize@[e]@[j]);
                        }
                    } else {
                        assert(before[e]@[j] == state.retire_finalize@[e]@[j]);
                    }
                }
                lemma_wf_frame(&prev, state);
            }
        }
        i = i + 1;
    }
    assert(ids@.subrange(0, ids@.len() as int) =~= ids@);
}

/// Takes the finalization entry of `epoch`, if any: each listed ticket not
/// yet dead becomes `Dead` and moves to the dead bucket.
pub fn finalize_retire_for_epoch(state: &mut ChainState, epoch: u64)
    requires
        old(state).wf(),
    ensures
        final(state).wf(),
        final(state).same_layout(old(state)),
        final(state).validators@ == old(state).validators@,
        final(state).epoch_index == old(state).epoch_index,
        final(state).retire_schedule@ == old(state).retire_schedule@,
        !old(state).retire_finalize@.contains_key(epoch) ==> {
            &&& final(state).tickets@ == old(state).tickets@
            &&& final(state).retire_finalize@ == old(state).retire_finalize@
        },
        old(state).retire_finalize@.contains_key(epoch) ==> {
            &&& final(state).retire_finalize@ == old(state).retire_finalize@.remove(epoch)
            &&& final(state).tickets@ == finalize_steps(
                old(state).tickets@,
                old(state).retire_finalize@[epoch]@,
                old(state).dead_bucket_id,
            )
        },
{
    let ghost pre = *old(state);
    let ids = match state.retire_finalize.remove(&epoch) {
        None => {
            proof {
                assert(state.retire_finalize@ =~= pre.retire_finalize@);
                lemma_wf_frame(&pre, state);
            }
            return ;
        },
        Some(ids) => ids,
    };
    proof {
        lemma_wf_frame(&pre, state);
        assert forall|e: u64, j: int|
            #![trigger state.retire_finalize@[e]@[j]]
            state.retire_finalize@.contains_key(e) && 0 <= j < state.retire_finalize@[e]@.len() implies state.tickets@.contains_key(state.retire_finalize@[e]@[j]) by {
            assert(pre.retire_finalize@[e]@[j] == state.retire_finalize@[e]@[j]);
        }
        assert(forall|k: int| 0 <= k < ids@.len() ==> #[trigger] pre.retire_finalize@[epoch]@[k] == ids@[k]);
    }
    let dead = state.dead_bucket_id;
    let mut i: usize = 0;
    assert(ids@.subrange(0, 0) =~= Seq::<u64>::empty());
    while i < ids.len()
        invariant
            state.wf(),
            state.same_layout(&pre),
            state.validators@ == pre.validators@,
            state.epoch_index == pre.epoch_index,
            state.retire_schedule@ == pre.retire_schedule@,
            state.retire_finalize@ == pre.retire_finalize@.remove(epoch),
            dead == pre.dead_bucket_id,
            pre.retire_finalize@.contains_key(epoch),
            ids@ == pre.retire_finalize@[epoch]@,
            i <= ids@.len(),
            state.tickets@.dom() == pre.tickets@.dom(),
            forall|k: int| 0 <= k < ids@.len() ==> #[trigger] pre.tickets@.contains_key(ids@[k]),
            state.tickets@ == finalize_steps(pre.tickets@, ids@.subrange(0, i as int), dead),
        decreases ids@.len() - i,
    {
        let tid = ids[i];
        assert(pre.tickets@.contains_key(ids@[i as int]));
        assert(ids@.subrange(0, i as int + 1).drop_last() =~= ids@.subrange(0, i as int));
        let mut t = *state.tickets.get(&tid).unwrap();
        if t.state != TicketState::Dead {
            let from = t.bucket;
            if from != dead {
                move_ticket(state, tid, from, dead);
            }
            t.bucket = dead;
            t.state = TicketState::Dead;
            put_ticket(state, t);
            assert(state.tickets@ =~= finalize_steps(pre.tickets@, ids@.subrange(0, i as int + 1), dead));
        }
        i = i + 1;
    }
    assert(ids@.subrange(0, ids@.len() as int) =~= ids@);
}

/// Every id of `rest` names a ticket of validator `vid`.
pub open spec fn all_owned(rest: Seq<u64>, tickets: Map<u64, Ticket>, vid: u64) -> bool {
    forall|k: int| 0 <= k < rest.len() ==> tickets[#[trigger] rest[k]].owner == vid
}

proof fn lemma_greedy_fill(
    s: Map<u64, Seq<u64>>,
    tickets: Map<u64, Ticket>,
    vid: u64,
    limit: u64,
    e: u64,
    rest: Seq<u64>,
    k: nat,
)
    requires
        1 <= k <= rest.len(),
        all_owned(rest, tickets, vid),
        owned_in(entry_of(s, e), tickets, vid) + k <= limit,
    ensures
        schedule_greedy(s, tickets, vid, limit, e, rest) == schedule_greedy(
            s.insert(e, entry_of(s, e) + rest.take(k as int)),
            tickets,
            vid,
            limit,
            e,
            rest.skip(k as int),
        ),
    decreases k,
{
    if k == 1 {
        assert(entry_of(s, e).push(rest[0]) =~= entry_of(s, e) + rest.take(1));
        assert(rest.drop_first() =~= rest.skip(1));
    } else {
        let list = entry_of(s, e);
        let s1 = s.insert(e, list.push(rest[0]));
        assert(list.push(rest[0]).drop_last() =~= list);
        assert(tickets[rest[0]].owner == vid);
        assert(entry_of(s1, e) == list.push(rest[0]));
        let rest1 = rest.drop_first();
        assert(all_owned(rest1, tickets, vid)) by {
            assert forall|j: int| 0 <= j < rest1.len() implies tickets[#[trigger] rest1[j]].owner == vid by {
                assert(rest1[j] == rest[j + 1]);
            }
        }
        lemma_greedy_fill(s1, tickets, vid, limit, e, rest1, (k - 1) as nat);
        assert(list.push(rest[0]) + rest1.take(k - 1) =~= list + rest.take(k as int));
        assert(s1.insert(e, list.push(rest[0]) + rest1.take(k - 1)) =~= s.insert(e, list + rest.take(k as int)));
        assert(rest1.skip(k - 1) =~= rest.skip(k as int));
    }
}

proof fn lemma_owned_in_append(list: Seq<u64>, extra: Seq<u64>, tickets: Map<u64, Ticket>, vid: u64)
    requires
        all_owned(extra, tickets, vid),
    ensures
        owned_in(list + extra, tickets, vid) == owned_in(list, tickets, vid) + extra.len(),
    decreases extra.len(),
{
    if extra.len() == 0 {
        assert(list + extra =~= list);
    } else {
        let shorter = extra.drop_last();
        assert((list + extra).drop_last() =~= list + shorter);
        assert(tickets[extra[extra.len() - 1]].owner == vid);
        assert(all_owned(shorter, tickets, vid)) by {
            assert forall|j: int| 0 <= j < shorter.len() implies tickets[#[trigger] shorter[j]].owner == vid by {
                assert(shorter[j] == extra[j]);
            }
        }
        lemma_owned_in_append(list, shorter, tickets, vid);
    }
}

/// Rate limiting: scheduling `limit + 1` tickets of one validator from
/// epoch `e`, when neither `e` nor `e + 1` lists any of its tickets yet,
/// puts exactly the first `limit` in epoch `e` and the last in `e + 1`.
pub proof fn lemma_retire_rate_limit(
    s: Map<u64, Seq<u64>>,
    tickets: Map<u64, Ticket>,
    vid: u64,
    limit: u64,
    e: u64,
    rest: Seq<u64>,
)
    requires
        limit >= 1,
        rest.len() == limit + 1,
        all_owned(rest, tickets, vid),
        e < u64::MAX,
        owned_in(entry_of(s, e), tickets, vid) == 0,
        owned_in(entry_of(s, (e + 1) as u64), tickets, vid) == 0,
    ensures
        schedule_greedy(s, tickets, vid, limit, e, rest) == s.insert(
            e,
            entry_of(s, e) + rest.take(limit as int),
        ).insert((e + 1) as u64, entry_of(s, (e + 1) as u64).push(rest[limit as int])),
{
    let e1 = (e + 1) as u64;
    lemma_greedy_fill(s, tickets, vid, limit, e, rest, limit as nat);
    let s1 = s.insert(e, entry_of(s, e) + rest.take(limit as int));
    let tail = rest.skip(limit as int);
    let x = rest[limit as int];
    assert(all_owned(rest.take(limit as int), tickets, vid)) by {
        assert forall|j: int| 0 <= j < limit implies tickets[#[trigger] rest.take(limit as int)[j]].owner == vid by {
            assert(rest.take(limit as int)[j] == rest[j]);
        }
    }
    lemma_owned_in_append(entry_of(s, e), rest.take(limit as int), tickets, vid);
    assert(entry_of(s1, e) == entry_of(s, e) + rest.take(limit as int));
    assert(owned_in(entry_of(s1, e), tickets, vid) == limit);
    assert(tail.len() == 1 && tail[0] == x);
    assert(schedule_greedy(s1, tickets, vid, limit, e, tail) == schedule_greedy(s1, tickets, vid, limit, e1, tail));
    assert(entry_of(s1, e1) == entry_of(s, e1));
    let s2 = s1.insert(e1, entry_of(s1, e1).push(x));
    assert(tail.drop_first() =~= Seq::<u64>::empty());
    assert(schedule_greedy(s1, tickets, vid, limit, e1, tail) == schedule_greedy(s2, tickets, vid, limit, e1, tail.drop_first()));
    assert(schedule_greedy(s2, tickets, vid, limit, e1, tail.drop_first()) == s2);
}

/// What starting retirement does to one ticket `x`: a listed ticket that
/// was active becomes `Retiring` (requested at `epoch`, effective two epochs
/// later), sits in bucket `m` and is listed for finalization at
/// `epoch + 2`; any other ticket, dead ones included, is left as it was.
pub proof fn lemma_begin_effect(
    tickets: Map<u64, Ticket>,
    fin: Map<u64, Seq<u64>>,
    ids: Seq<u64>,
    epoch: u64,
    m: u64,
    x: u64,
)
    requires
        tickets.contains_key(x),
    ensures
        ({
            let r = begin_steps(tickets, fin, ids, epoch, m);
            &&& r.0.contains_key(x)
            &&& r.0[x] == if ids.contains(x) && tickets[x].state == TicketState::Active {
                started(tickets[x], epoch, m)
            } else {
                tickets[x]
            }
            &&& ids.contains(x) && tickets[x].state == TicketState::Active ==> entry_of(
                r.1,
                (epoch + RETIRE_DELAY_EPOCHS) as u64,
            ).contains(x)
        }),
    decreases ids.len(),
{
    if ids.len() > 0 {
        let shorter = ids.drop_last();
        let e2 = (epoch + RETIRE_DELAY_EPOCHS) as u64;
        lemma_begin_effect(tickets, fin, shorter, epoch, m, x);
        let prev = begin_steps(tickets, fin, shorter, epoch, m);
        let y = ids.last();
        assert(ids.contains(x) <==> shorter.contains(x) || y == x) by {
            if ids.contains(x) && y != x {
                let k = choose|k: int| 0 <= k < ids.len() && ids[k] == x;
                assert(shorter[k] == x);
            }
            if shorter.contains(x) {
                let k = choose|k: int| 0 <= k < shorter.len() && shorter[k] == x;
                assert(ids[k] == x);
            }
            if y == x {
                assert(ids[ids.len() - 1] == x);
            }
        }
        if prev.0[y].state == TicketState::Active {
            let l = entry_of(prev.1, e2);
            if entry_of(prev.1, e2).contains(x) {
                let k = choose|k: int| 0 <= k < l.len() && l[k] == x;
                assert(l.push(y)[k] == x);
            }
            assert(l.push(y)[l.len() as int] == y);
        }
    }
}

/// What finalization does to one ticket `x`: a listed ticket that is not
/// yet dead becomes dead in bucket `dead`; any other ticket, dead ones
/// included, is left as it was.
pub proof fn lemma_finalize_effect(tickets: Map<u64, Ticket>, ids: Seq<u64>, dead: u64, x: u64)
    requires
        tickets.contains_key(x),
    ensures
        finalize_steps(tickets, ids, dead).contains_key(x),
        finalize_steps(tickets, ids, dead)[x] == if ids.contains(x) && tickets[x].state
            != TicketState::Dead {
            buried(tickets[x], dead)
        } else {
            tickets[x]
        },
    decreases ids.len(),
{
    if ids.len() > 0 {
        let shorter = ids.drop_last();
        lemma_finalize_effect(tickets, shorter, dead, x);
        let y = ids.last();
        assert(ids.contains(x) <==> shorter.contains(x) || y == x) by {
            if ids.contains(x) && y != x {
                let k = choose|k: int| 0 <= k < ids.len() && ids[k] == x;
                assert(shorter[k] == x);
            }
            if shorter.contains(x) {
                let k = choose|k: int| 0 <= k < shorter.len() && shorter[k] == x;
                assert(ids[k] == x);
            }
            if y == x {
                assert(ids[ids.len() - 1] == x);
            }
        }
    }
}

/// A dead ticket is never chosen again for retirement.
pub proof fn lemma_dead_not_rescheduled(req: Seq<u64>, tickets: Map<u64, Ticket>, vid: u64, x: u64)
    requires
        tickets.contains_key(x),
        tickets[x].state == TicketState::Dead,
    ensures
        !retire_order(req, tickets, vid).contains(x),
{
    let f = req.filter(retire_eligible(tickets, vid));
    f.lemma_sort_by_ensures(id_le());
    if f.contains(x) {
        let k = choose|k: int| 0 <= k < f.len() && f[k] == x;
        req.lemma_filter_pred(retire_eligible(tickets, vid), k);
    }
}

} // verus!
