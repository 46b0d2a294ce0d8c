use vstd::prelude::*;
use crate::bucket_ops::{any_muted_bucket, is_smallest, move_all_validator_tickets_to_bucket};
use crate::chain_state::{ChainState, bury_all, put_validator, retarget};
use crate::leader_selection::{eligible_bucket, has_eligible, leader_of, select_leader};
use vstd::std_specs::hash::spec_hash_keys_iter;
use vstd::std_specs::iter::IteratorSpec;
use crate::types::{Block, Proposal, Validator, ValidatorState};
use crate::validator_ops::{jail_validator, jailed};

verus! {

/// Length of a slot in milliseconds.
pub const SLOT_DURATION_MS: u64 = 3000;

/// Misses at which the first liveness slash falls.
pub const LIVENESS_FIRST_SLASH: u32 = 5;

/// Further misses between later liveness slashes.
pub const LIVENESS_SLASH_PERIOD: u32 = 100;

/// Epochs of cooldown after a liveness slash.
pub const LIVENESS_COOLDOWN_EPOCHS: u64 = 2;

/// A liveness slash is due when the miss counter rose to 5, 105, 205, ...
pub open spec fn slash_due(prev: u32, now: u32) -> bool {
    now > prev && (now == 5 || (now > 5 && (now - 5) % 100 == 0))
}

/// `v` after a liveness slash in epoch `epoch`: 5% of the vault goes, and a
/// two-epoch cooldown starts.
pub open spec fn liveness_slashed(v: Validator, epoch: u64) -> Validator {
    Validator {
        vault_balance: (v.vault_balance - v.vault_balance / 20) as u128,
        state: ValidatorState::PunishedCooldown,
        cooldown_until_epoch: Some((epoch + 2) as u64),
        ..v
    }
}

/// `v` after a double-sign detection in epoch `epoch`: the first offense
/// halves the vault with three epochs of cooldown, the second quarters it
/// with six, and any later one empties it and jails the validator.
pub open spec fn double_sign_punished(v: Validator, epoch: u64) -> Validator {
    let n = (v.double_sign_offenses + 1) as u8;
    if n == 1 {
        Validator {
            double_sign_offenses: n,
            vault_balance: v.vault_balance / 2,
            state: ValidatorState::PunishedCooldown,
            cooldown_until_epoch: Some((epoch + 3) as u64),
            ..v
        }
    } else if n == 2 {
        Validator {
            double_sign_offenses: n,
            vault_balance: v.vault_balance / 4,
            state: ValidatorState::PunishedCooldown,
            cooldown_until_epoch: Some((epoch + 6) as u64),
            ..v
        }
    } else {
        jailed(Validator { double_sign_offenses: n, vault_balance: 0, ..v })
    }
}

/// Number of proposals in `ps` made by `v`.
pub open spec fn count_by(ps: Seq<Proposal>, v: u64) -> nat
    decreases ps.len(),
{
    if ps.len() == 0 {
        0
    } else {
        count_by(ps.drop_last(), v) + if ps.last().proposer_id == v {
            1nat
        } else {
            0nat
        }
    }
}

/// `v` proposed two different blocks among `ps`.
pub open spec fn double_signed(ps: Seq<Proposal>, v: u64) -> bool {
    exists|i: int, j: int|
        0 <= i < ps.len() && 0 <= j < ps.len() && #[trigger] ps[i].proposer_id == v
            && #[trigger] ps[j].proposer_id == v && ps[i].block_id != ps[j].block_id
}

/// What one slot does: `post` and the block `r` are the outcome of
/// processing slot `slot_index`, starting at `slot_start_ms`, on `pre` with
/// the proposals `ps`. Only the leader's record and its tickets change: by
/// the double-sign ladder, by a success, or by a miss and its liveness slash.
pub open spec fn slot_effect(
    pre: &ChainState,
    post: &ChainState,
    slot_index: u64,
    slot_start_ms: u64,
    ps: Seq<Proposal>,
    r: Block,
) -> bool {
    &&& post.wf()
    &&& post.same_layout(pre)
    &&& post.epoch_index == pre.epoch_index
    &&& post.retire_schedule@ == pre.retire_schedule@
    &&& post.retire_finalize@ == pre.retire_finalize@
    &&& r.slot_index == slot_index
    &&& r.timestamp_ms == slot_start_ms + SLOT_DURATION_MS
    &&& forall|v: u64| #[trigger]
        pre.validators@.contains_key(v) && pre.validators@[v].state
            == ValidatorState::Jailed ==> post.validators@[v] == pre.validators@[v]
    &&& !has_eligible(pre) ==> {
        &&& r.proposer is None
        &&& post.validators@ == pre.validators@
        &&& post.tickets@ == pre.tickets@
    }
    &&& has_eligible(pre) ==> ({
        let l = leader_of(pre, slot_index);
        let v = pre.validators@[l];
        let e = pre.epoch_index;
        if double_signed(ps, l) {
            &&& r.proposer is None
            &&& post.validators@ == pre.validators@.insert(
                l,
                double_sign_punished(v, e),
            )
            &&& v.double_sign_offenses < 2 ==> exists|b: u64|
                is_smallest(pre.muted_bucket_ids@, b) && post.tickets@
                    == retarget(pre.tickets@, l, b)
            &&& v.double_sign_offenses >= 2 ==> post.tickets@ == bury_all(
                pre.tickets@,
                l,
                pre.dead_bucket_id,
            )
        } else if count_by(ps, l) == 1 {
            &&& r.proposer == Some(l)
            &&& post.validators@ == pre.validators@.insert(l, after_success(v))
            &&& post.tickets@ == pre.tickets@
        } else if slash_due(v.miss_counter, after_miss(v).miss_counter) {
            &&& r.proposer is None
            &&& post.validators@ == pre.validators@.insert(
                l,
                liveness_slashed(after_miss(v), e),
            )
            &&& exists|b: u64|
                is_smallest(pre.muted_bucket_ids@, b) && post.tickets@
                    == retarget(pre.tickets@, l, b)
        } else {
            &&& r.proposer is None
            &&& post.validators@ == pre.validators@.insert(l, after_miss(v))
            &&& post.tickets@ == pre.tickets@
        }
    })
}

/// The slot's leader can miss once more without overflowing its counter,
/// and the epoch arithmetic of a punishment and the slot's timestamp fit.
pub open spec fn slot_fits(st: &ChainState, slot_index: u64, slot_start_ms: u64) -> bool {
    &&& has_eligible(st) ==> st.validators@[leader_of(st, slot_index)].miss_counter < u32::MAX
    &&& st.epoch_index + 6 <= u64::MAX
    &&& slot_start_ms + SLOT_DURATION_MS <= u64::MAX
}

/// Decides whether the miss counter going from `prev` to `now` triggers a
/// liveness slash.
pub fn should_liveness_slash(prev: u32, now: u32) -> (r: bool)
    ensures
        r == slash_due(prev, now),
{
    if now <= prev {
        return false;
    }
    if now == LIVENESS_FIRST_SLASH {
        return true;
    }
    now > LIVENESS_FIRST_SLASH && (now - LIVENESS_FIRST_SLASH) % LIVENESS_SLASH_PERIOD == 0
}

/// Slashes 5% of a validator's vault, puts it in cooldown for two epochs
/// and moves its tickets to a muted bucket.
fn apply_liveness_slash(state: &mut ChainState, validator_id: u64)
    requires
        old(state).wf(),
        old(state).validators@.contains_key(validator_id),
        old(state).validators@[validator_id].state != ValidatorState::Jailed,
        old(state).epoch_index + 2 <= u64::MAX,
    ensures
        final(state).wf(),
        final(state).same_layout(old(state)),
        final(state).epoch_index == old(state).epoch_index,
        final(state).retire_schedule@ == old(state).retire_schedule@,
        final(state).retire_finalize@ == old(state).retire_finalize@,
        final(state).validators@ == old(state).validators@.insert(
            validator_id,
            liveness_slashed(old(state).validators@[validator_id], old(state).epoch_index),
        ),
        exists|b: u64|
            is_smallest(old(state).muted_bucket_ids@, b) && final(state).tickets@ == retarget(
                old(state).tickets@,
                validator_id,
                b,
            ),
{
    let mut v = *state.validators.get(&validator_id).unwrap();
    let slash_amount = v.vault_balance / 20;
    v.vault_balance = v.vault_balance - slash_amount;
    v.state = ValidatorState::PunishedCooldown;
    v.cooldown_until_epoch = Some(state.epoch_index + LIVENESS_COOLDOWN_EPOCHS);
    put_validator(state, v);
    let muted_bucket = any_muted_bucket(state);
    move_all_validator_tickets_to_bucket(state, validator_id, muted_bucket);
}

/// Punishes a double-signing validator by its offense count: 50% slash and
/// three epochs of cooldown, then 75% and six epochs, then 100% and jail.
fn apply_double_sign_punishment(state: &mut ChainState, validator_id: u64)
    requires
        old(state).wf(),
        old(state).validators@.contains_key(validator_id),
        old(state).validators@[validator_id].state != ValidatorState::Jailed,
        old(state).epoch_index + 6 <= u64::MAX,
    ensures
        final(state).wf(),
        final(state).same_layout(old(state)),
        final(state).epoch_index == old(state).epoch_index,
        final(state).retire_schedule@ == old(state).retire_schedule@,
        final(state).retire_finalize@ == old(state).retire_finalize@,
        final(state).validators@ == old(state).validators@.insert(
            validator_id,
            double_sign_punished(old(state).validators@[validator_id], old(state).epoch_index),
        ),
        old(state).validators@[validator_id].double_sign_offenses < 2 ==> exists|b: u64|
            is_smallest(old(state).muted_bucket_ids@, b) && final(state).tickets@ == retarget(
                old(state).tickets@,
                validator_id,
                b,
            ),
        old(state).validators@[validator_id].double_sign_offenses >= 2 ==> final(state).tickets@
            == bury_all(old(state).tickets@, validator_id, old(state).dead_bucket_id),
{
    let mut v = *state.validators.get(&validator_id).unwrap();
    v.double_sign_offenses = v.double_sign_offenses + 1;
    let offense = v.double_sign_offenses;
    if offense == 1 {
        v.vault_balance = v.vault_balance / 2;
        v.state = ValidatorState::PunishedCooldown;
        v.cooldown_until_epoch = Some(state.epoch_index + 3);
        put_validator(state, v);
        let muted = any_muted_bucket(state);
        move_all_validator_tickets_to_bucket(state, validator_id, muted);
    } else if offense == 2 {
        v.vault_balance = v.vault_balance / 4;
        v.state = ValidatorState::PunishedCooldown;
        v.cooldown_until_epoch = Some(state.epoch_index + 6);
        put_validator(state, v);
        let muted = any_muted_bucket(state);
        move_all_validator_tickets_to_bucket(state, validator_id, muted);
    } else {
        jail_validator(state, validator_id);
        v.vault_balance = 0;
        v.state = ValidatorState::Jailed;
        v.cooldown_until_epoch = None;
        put_validator(state, v);
    }
}

/// `v` after proposing its slot: one miss forgiven, down to zero.
pub open spec fn after_success(v: Validator) -> Validator {
    Validator { miss_counter: if v.miss_counter > 0 { (v.miss_counter - 1) as u32 } else { 0 }, ..v }
}

/// `v` after missing its slot: one more miss.
pub open spec fn after_miss(v: Validator) -> Validator {
    Validator { miss_counter: (v.miss_counter + 1) as u32, ..v }
}

/// Some active bucket holds a ticket.
fn has_eligible_tickets(state: &ChainState) -> (r: bool)
    requires
        state.wf(),
    ensures
        r == has_eligible(state),
{
    let mut found: bool = false;
    proof {
        assert(spec_hash_keys_iter(&state.active_bucket_ids).remaining().unref().to_set()
            == state.active_bucket_ids@);
    }
    for bucket_id in it: state.active_bucket_ids.iter()
        invariant
            it.seq().unref().to_set() == state.active_bucket_ids@,
            found ==> has_eligible(state),
            !found ==> forall|b: u64| #[trigger]
                eligible_bucket(state, b) ==> exists|j: int|
                    it.index() <= j < it.seq().len() && *it.seq()[j] == b,
    {
        proof {
            assert(it.seq().unref()[it.index()] == *bucket_id);
            assert(it.seq().unref().to_set().contains(*bucket_id));
        }
        match state.buckets.get(bucket_id) {
            Some(bucket) => {
                if bucket.ticket_ids.len() > 0 {
                    assert(eligible_bucket(state, *bucket_id));
                    found = true;
                }
            },
            None => {},
        }
    }
    found
}

/// How many proposals `leader` made, and whether it proposed two different
/// blocks.
fn scan_proposals(proposals: &[Proposal], leader: u64) -> (r: (usize, bool))
    ensures
        r.0 == count_by(proposals@, leader),
        r.1 == double_signed(proposals@, leader),
{
    let ghost ps = proposals@;
    let mut count: usize = 0;
    let mut first: Option<u64> = None;
    let mut differ: bool = false;
    let mut i: usize = 0;
    while i < proposals.len()
        invariant
            ps == proposals@,
            i <= ps.len(),
            count <= i,
            count == count_by(ps.subrange(0, i as int), leader),
            first is None ==> forall|k: int| 0 <= k < i ==> #[trigger] ps[k].proposer_id != leader,
            first is Some ==> exists|k: int|
                0 <= k < i && #[trigger] ps[k].proposer_id == leader && ps[k].block_id
                    == first->0,
            differ ==> first is Some && exists|k: int|
                0 <= k < i && #[trigger] ps[k].proposer_id == leader && ps[k].block_id
                    != first->0,
            !differ && first is Some ==> forall|k: int|
                0 <= k < i && #[trigger] ps[k].proposer_id == leader ==> ps[k].block_id
                    == first->0,
        decreases ps.len() - i,
    {
        let p = proposals[i];
        assert(ps.subrange(0, i as int + 1).drop_last() =~= ps.subrange(0, i as int));
        if p.proposer_id == leader {
            count = count + 1;
            match first {
                None => {
                    first = Some(p.block_id);
                },
                Some(f) => {
                    if p.block_id != f {
                        differ = true;
                    }
                },
            }
        }
        i = i + 1;
    }
    assert(ps.subrange(0, ps.len() as int) =~= ps);
    proof {
        if double_signed(ps, leader) {
            let (a, b) = choose|a: int, b: int|
                0 <= a < ps.len() && 0 <= b < ps.len() && #[trigger] ps[a].proposer_id == leader
                    && #[trigger] ps[b].proposer_id == leader && ps[a].block_id != ps[b].block_id;
            assert(ps[a].proposer_id == leader);
        }
        if differ {
            let f = first->0;
            let a = choose|k: int|
                0 <= k < i && #[trigger] ps[k].proposer_id == leader && ps[k].block_id == f;
            let b = choose|k: int|
                0 <= k < i && #[trigger] ps[k].proposer_id == leader && ps[k].block_id != f;
            assert(ps[a].proposer_id == leader && ps[b].proposer_id == leader);
        }
    }
    (count, differ)
}

/// Runs one slot: picks the leader, checks its proposals, applies the
/// double-sign, success or miss rule, and returns the slot's block.
pub fn process_slot(
    state: &mut ChainState,
    slot_index: u64,
    slot_start_ms: u64,
    proposals: &[Proposal],
) -> (r: Block)
    requires
        old(state).wf(),
        slot_fits(old(state), slot_index, slot_start_ms),
    ensures
        slot_effect(old(state), final(state), slot_index, slot_start_ms, proposals@, r),
        has_eligible(old(state)) ==> old(state).validators@.contains_key(
            leader_of(old(state), slot_index),
        ) && old(state).validators@[leader_of(old(state), slot_index)].state
            != ValidatorState::Jailed,
{
    let ghost pre = *old(state);
    let timestamp_ms = slot_start_ms + SLOT_DURATION_MS;
    if !has_eligible_tickets(state) {
        return Block { slot_index, timestamp_ms, proposer: None };
    }
    let leader = select_leader(state, slot_index);
    let (count, double_sign) = scan_proposals(proposals, leader);
    if double_sign {
        apply_double_sign_punishment(state, leader);
        return Block { slot_index, timestamp_ms, proposer: None };
    }
    let mut v = *state.validators.get(&leader).unwrap();
    let proposer: Option<u64>;
    if count == 1 {
        proposer = Some(leader);
        if v.miss_counter > 0 {
            v.miss_counter = v.miss_counter - 1;
        }
        put_validator(state, v);
    } else {
        proposer = None;
        let prev = v.miss_counter;
        v.miss_counter = v.miss_counter + 1;
        put_validator(state, v);
        if should_liveness_slash(prev, v.miss_counter) {
            apply_liveness_slash(state, leader);
            assert(state.validators@ =~= pre.validators@.insert(
                leader,
                liveness_slashed(after_miss(pre.validators@[leader]), pre.epoch_index),
            ));
        }
    }
    Block { slot_index, timestamp_ms, proposer }
}

/// Runs the slot when its leader's miss counter can still rise, and returns
/// `None`, leaving the state as it was, when it cannot.
pub fn process_slot_checked(
    state: &mut ChainState,
    slot_index: u64,
    slot_start_ms: u64,
    proposals: &[Proposal],
) -> (r: Option<Block>)
    requires
        old(state).wf(),
        old(state).epoch_index + 6 <= u64::MAX,
        slot_start_ms + SLOT_DURATION_MS <= u64::MAX,
    ensures
        r is None <==> !slot_fits(old(state), slot_index, slot_start_ms),
        r is None ==> *final(state) == *old(state),
        r is Some ==> slot_effect(
            old(state),
            final(state),
            slot_index,
            slot_start_ms,
            proposals@,
            r->0,
        ),
{
    if has_eligible_tickets(state) {
        let leader = select_leader(state, slot_index);
        if state.validators.get(&leader).unwrap().miss_counter == u32::MAX {
            return None;
        }
    }
    Some(process_slot(state, slot_index, slot_start_ms, proposals))
}

/// A successful proposal lowers the miss counter by one, or leaves it at
/// zero; a miss raises it by exactly one.
pub proof fn lemma_miss_counter_moves(v: Validator)
    requires
        v.miss_counter < u32::MAX,
    ensures
        after_success(v).miss_counter < v.miss_counter || after_success(v).miss_counter == 0,
        after_success(v).miss_counter == 0 || after_success(v).miss_counter == v.miss_counter - 1,
        after_miss(v).miss_counter == v.miss_counter + 1,
{
}

/// Five misses in a row from a zero miss counter: the first four trigger no
/// slash, the fifth does, and that slash takes 5% of the vault (rounded
/// down) and sets a cooldown to two epochs after the current one.
pub proof fn lemma_fifth_miss_slashes(v: Validator, epoch: u64)
    requires
        v.miss_counter == 0,
        epoch + 2 <= u64::MAX,
    ensures
        ({
            let v1 = after_miss(v);
            let v2 = after_miss(v1);
            let v3 = after_miss(v2);
            let v4 = after_miss(v3);
            let v5 = after_miss(v4);
            let s = liveness_slashed(v5, epoch);
            &&& !slash_due(v.miss_counter, v1.miss_counter)
            &&& !slash_due(v1.miss_counter, v2.miss_counter)
            &&& !slash_due(v2.miss_counter, v3.miss_counter)
            &&& !slash_due(v3.miss_counter, v4.miss_counter)
            &&& slash_due(v4.miss_counter, v5.miss_counter)
            &&& s.state == ValidatorState::PunishedCooldown
            &&& s.cooldown_until_epoch == Some((epoch + 2) as u64)
            &&& s.vault_balance == v.vault_balance - v.vault_balance / 20
        }),
{
}

/// Slashes fall at miss counts 5, 105, 205, ... and at no other count.
pub proof fn lemma_slash_schedule(n: u32)
    requires
        n > 0,
    ensures
        slash_due((n - 1) as u32, n) <==> (n == 5 || (n > 5 && (n - 5) % 100 == 0)),
{
}

/// Three double-sign detections in a row: 50% slash and three epochs of
/// cooldown, then 75% and six epochs, then the vault emptied and the
/// validator jailed.
pub proof fn lemma_double_sign_ladder(v: Validator, e1: u64, e2: u64, e3: u64)
    requires
        v.double_sign_offenses == 0,
        e1 + 3 <= u64::MAX,
        e2 + 6 <= u64::MAX,
    ensures
        ({
            let v1 = double_sign_punished(v, e1);
            let v2 = double_sign_punished(v1, e2);
            let v3 = double_sign_punished(v2, e3);
            &&& v1.vault_balance == v.vault_balance / 2
            &&& v1.state == ValidatorState::PunishedCooldown
            &&& v1.cooldown_until_epoch == Some((e1 + 3) as u64)
            &&& v2.vault_balance == v1.vault_balance / 4
            &&& v2.state == ValidatorState::PunishedCooldown
            &&& v2.cooldown_until_epoch == Some((e2 + 6) as u64)
            &&& v3.vault_balance == 0
            &&& v3.state == ValidatorState::Jailed
            &&& v3.double_sign_offenses == 3
        }),
{
}

} // verus!
