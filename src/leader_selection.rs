use std::collections::{HashMap, HashSet};
use crate::chain_state::ChainState;
use crate::types::{TicketState, ValidatorState};
use vstd::std_specs::hash::spec_hash_keys_iter;
use vstd::std_specs::iter::IteratorSpec;
use sha2::{Digest, Sha256};
use vstd::prelude::*;

verus! {

/// The SHA-256 digest of a byte string.
pub uninterp spec fn sha256_of(data: Seq<u8>) -> Seq<u8>;

/// Relies on sha2's `Sha256` (`Digest::new`, `update`, `finalize`): the
/// 32-byte SHA-256 digest of `data`, which depends on the bytes alone.
#[verifier::external_body]
fn hash_bytes(data: &Vec<u8>) -> (r: [u8; 32])
    ensures
        r@ == sha256_of(data@),
{
    let mut hasher = Sha256::new();
    hasher.update(data.as_slice());
    hasher.finalize().into()
}

/// The big-endian encoding of a 64-bit integer.
pub open spec fn be_bytes(x: u64) -> Seq<u8> {
    seq![
        (x >> 56u64) as u8,
        (x >> 48u64) as u8,
        (x >> 40u64) as u8,
        (x >> 32u64) as u8,
        (x >> 24u64) as u8,
        (x >> 16u64) as u8,
        (x >> 8u64) as u8,
        x as u8,
    ]
}

/// The unsigned integer that a byte string denotes in big-endian order.
pub open spec fn be_value(s: Seq<u8>) -> nat
    decreases s.len(),
{
    if s.len() == 0 {
        0
    } else {
        be_value(s.drop_last()) * 256 + s.last() as nat
    }
}

pub open spec fn pow256(n: nat) -> nat
    decreases n,
{
    if n == 0 {
        1
    } else {
        256 * pow256((n - 1) as nat)
    }
}

/// The digest of a 32-byte seed followed by the big-endian encoding of `x`.
pub open spec fn keyed_hash(seed: Seq<u8>, x: u64) -> Seq<u8> {
    sha256_of(seed + be_bytes(x))
}

/// The seed of a slot: the digest of the epoch seed and the slot index.
pub open spec fn slot_seed_spec(epoch_seed: Seq<u8>, slot_index: u64) -> Seq<u8> {
    keyed_hash(epoch_seed, slot_index)
}

/// The first 16 bytes of a bucket's digest, read as a big-endian integer.
pub open spec fn bucket_raw(seed: Seq<u8>, bucket_id: u64) -> nat {
    be_value(keyed_hash(seed, bucket_id).subrange(0, 16))
}

/// A bucket's sortition score: more tickets give a smaller score.
pub open spec fn bucket_score(seed: Seq<u8>, bucket_id: u64, count: nat) -> nat {
    bucket_raw(seed, bucket_id) / count
}

/// `(score, id)` of bucket `a` is at most that of bucket `b`.
pub open spec fn bucket_le(seed: Seq<u8>, a: u64, ca: nat, b: u64, cb: nat) -> bool {
    bucket_score(seed, a, ca) < bucket_score(seed, b, cb) || (bucket_score(seed, a, ca)
        == bucket_score(seed, b, cb) && a <= b)
}

/// `b` is the bucket with positive count whose `(score, id)` is smallest.
pub open spec fn is_best_bucket(seed: Seq<u8>, counts: Map<u64, usize>, b: u64) -> bool {
    &&& counts.contains_key(b)
    &&& counts[b] > 0
    &&& forall|k: u64|
        #![trigger counts[k]]
        counts.contains_key(k) && counts[k] > 0 ==> bucket_le(
            seed,
            b,
            counts[b] as nat,
            k,
            counts[k] as nat,
        )
}

pub open spec fn has_positive(counts: Map<u64, usize>) -> bool {
    exists|k: u64| #[trigger] counts.contains_key(k) && counts[k] > 0
}

fn append_be_bytes(data: &mut Vec<u8>, x: u64)
    ensures
        final(data)@ == old(data)@ + be_bytes(x),
{
    data.push((x >> 56u64) as u8);
    data.push((x >> 48u64) as u8);
    data.push((x >> 40u64) as u8);
    data.push((x >> 32u64) as u8);
    data.push((x >> 24u64) as u8);
    data.push((x >> 16u64) as u8);
    data.push((x >> 8u64) as u8);
    data.push(x as u8);
    assert(data@ =~= old(data)@ + be_bytes(x));
}

/// Digest of `seed` followed by the big-endian bytes of `x`.
fn keyed_digest(seed: &[u8; 32], x: u64) -> (r: [u8; 32])
    ensures
        r@ == keyed_hash(seed@, x),
{
    let mut data: Vec<u8> = Vec::new();
    let mut i: usize = 0;
    while i < 32
        invariant
            i <= 32,
            seed@.len() == 32,
            data@ == seed@.subrange(0, i as int),
        decreases 32 - i,
    {
        data.push(seed[i]);
        i = i + 1;
        assert(data@ =~= seed@.subrange(0, i as int));
    }
    assert(data@ =~= seed@);
    append_be_bytes(&mut data, x);
    hash_bytes(&data)
}

/// Derives the seed of a slot from the epoch seed and the slot index.
pub fn slot_seed(epoch_seed: [u8; 32], slot_index: u64) -> (r: [u8; 32])
    ensures
        r@ == slot_seed_spec(epoch_seed@, slot_index),
{
    keyed_digest(&epoch_seed, slot_index)
}

proof fn lemma_pow256_16()
    ensures
        pow256(16) == 0x1_0000_0000_0000_0000_0000_0000_0000_0000,
{
    reveal_with_fuel(pow256, 17);
}

proof fn lemma_pow256_mono(i: nat, j: nat)
    requires
        i <= j,
    ensures
        pow256(i) <= pow256(j),
    decreases j,
{
    if i < j {
        lemma_pow256_mono(i, (j - 1) as nat);
    }
}

/// Reads the first 16 bytes of a digest as a big-endian integer.
fn leading_u128(h: &[u8; 32]) -> (r: u128)
    ensures
        r == be_value(h@.subrange(0, 16)),
{
    let mut r: u128 = 0;
    let mut i: usize = 0;
    proof {
        lemma_pow256_16();
    }
    while i < 16
        invariant
            i <= 16,
            h@.len() == 32,
            r == be_value(h@.subrange(0, i as int)),
            r < pow256(i as nat),
            pow256(16) == 0x1_0000_0000_0000_0000_0000_0000_0000_0000,
        decreases 16 - i,
    {
        let ghost prefix = h@.subrange(0, i as int);
        let ghost next = h@.subrange(0, i as int + 1);
        assert(next.drop_last() =~= prefix);
        proof {
            lemma_pow256_mono(i as nat + 1, 16);
            assert(pow256(i as nat + 1) == 256 * pow256(i as nat));
            assert(r * 256 + h[i as int] < 256 * pow256(i as nat)) by (nonlinear_arith)
                requires
                    r < pow256(i as nat),
                    h[i as int] < 256,
            ;
        }
        r = r * 256 + h[i] as u128;
        i = i + 1;
    }
    r
}

/// Picks the bucket with positive ticket count whose `(score, bucket_id)` is
/// smallest, where the score is the leading 128 bits of the bucket's digest
/// divided by its ticket count.
pub fn select_bucket(slot_seed: [u8; 32], buckets: &HashMap<u64, usize>) -> (r: u64)
    requires
        has_positive(buckets@),
    ensures
        is_best_bucket(slot_seed@, buckets@, r),
{
    let mut best_bucket: u64 = 0;
    let mut best_score: u128 = 0;
    let mut found: bool = false;
    let ghost seed = slot_seed@;
    for (bucket_id, ticket_count) in it: buckets.iter()
        invariant
            seed == slot_seed@,
            forall|j: int|
                #![trigger it.seq()[j]]
                0 <= j < it.seq().len() ==> buckets@.contains_key(*it.seq()[j].0)
                    && buckets@[*it.seq()[j].0] == *it.seq()[j].1,
            found ==> {
                &&& buckets@.contains_key(best_bucket)
                &&& buckets@[best_bucket] > 0
                &&& best_score == bucket_score(seed, best_bucket, buckets@[best_bucket] as nat)
                &&& forall|j: int|
                    #![trigger it.seq()[j]]
                    0 <= j < it.index() && *it.seq()[j].1 > 0 ==> bucket_le(
                        seed,
                        best_bucket,
                        buckets@[best_bucket] as nat,
                        *it.seq()[j].0,
                        *it.seq()[j].1 as nat,
                    )
            },
            !found ==> forall|j: int|
                #![trigger it.seq()[j]]
                0 <= j < it.index() ==> *it.seq()[j].1 == 0,
    {
        let ghost k = it.index();
        assert(it.seq()[k] == (bucket_id, ticket_count));
        if *ticket_count > 0 {
            let h = keyed_digest(&slot_seed, *bucket_id);
            let raw = leading_u128(&h);
            let score = raw / (*ticket_count as u128);
            if !found || score < best_score || (score == best_score && *bucket_id < best_bucket) {
                best_bucket = *bucket_id;
                best_score = score;
                found = true;
            }
        }
    }
    best_bucket
}

/// Strict lexicographic order on byte strings: a proper prefix comes first.
pub open spec fn lex_lt(a: Seq<u8>, b: Seq<u8>) -> bool
    decreases a.len(),
{
    if a.len() == 0 {
        b.len() > 0
    } else if b.len() == 0 {
        false
    } else if a[0] != b[0] {
        a[0] < b[0]
    } else {
        lex_lt(a.drop_first(), b.drop_first())
    }
}

/// `(digest, id)` of ticket `a` is at most that of ticket `b`.
pub open spec fn ticket_le(seed: Seq<u8>, a: u64, b: u64) -> bool {
    lex_lt(keyed_hash(seed, a), keyed_hash(seed, b)) || (keyed_hash(seed, a) == keyed_hash(
        seed,
        b,
    ) && a <= b)
}

/// `t` is the ticket of `ids` whose `(digest, id)` is smallest.
pub open spec fn is_best_ticket(seed: Seq<u8>, ids: Set<u64>, t: u64) -> bool {
    &&& ids.contains(t)
    &&& forall|k: u64| #[trigger] ids.contains(k) ==> ticket_le(seed, t, k)
}

pub proof fn lemma_lex_trans(a: Seq<u8>, b: Seq<u8>, c: Seq<u8>)
    requires
        lex_lt(a, b),
        lex_lt(b, c),
    ensures
        lex_lt(a, c),
    decreases a.len(),
{
    if a.len() > 0 && b.len() > 0 && c.len() > 0 && a[0] == b[0] && b[0] == c[0] {
        lemma_lex_trans(a.drop_first(), b.drop_first(), c.drop_first());
    }
}

pub proof fn lemma_lex_asym(a: Seq<u8>, b: Seq<u8>)
    requires
        lex_lt(a, b),
    ensures
        !lex_lt(b, a),
        a != b,
    decreases a.len(),
{
    if a.len() > 0 && b.len() > 0 && a[0] == b[0] {
        lemma_lex_asym(a.drop_first(), b.drop_first());
        if a == b {
            assert(a.drop_first() == b.drop_first());
        }
    }
}

pub proof fn lemma_lex_total(a: Seq<u8>, b: Seq<u8>)
    requires
        !lex_lt(a, b),
        !lex_lt(b, a),
    ensures
        a == b,
    decreases a.len(),
{
    if a.len() > 0 && b.len() > 0 {
        lemma_lex_total(a.drop_first(), b.drop_first());
        assert(a =~= seq![a[0]] + a.drop_first());
        assert(b =~= seq![b[0]] + b.drop_first());
    } else {
        assert(a =~= b);
    }
}

proof fn lemma_ticket_le_trans(seed: Seq<u8>, a: u64, b: u64, c: u64)
    requires
        ticket_le(seed, a, b),
        ticket_le(seed, b, c),
    ensures
        ticket_le(seed, a, c),
{
    if lex_lt(keyed_hash(seed, a), keyed_hash(seed, b)) && lex_lt(
        keyed_hash(seed, b),
        keyed_hash(seed, c),
    ) {
        lemma_lex_trans(keyed_hash(seed, a), keyed_hash(seed, b), keyed_hash(seed, c));
    }
}

/// `a@ < b@` in lexicographic order.
fn bytes_lt(a: &[u8; 32], b: &[u8; 32]) -> (r: bool)
    ensures
        r == lex_lt(a@, b@),
{
    let mut i: usize = 0;
    assert(a@.subrange(0, 32) =~= a@);
    assert(b@.subrange(0, 32) =~= b@);
    while i < 32
        invariant
            i <= 32,
            a@.len() == 32,
            b@.len() == 32,
            lex_lt(a@, b@) == lex_lt(a@.subrange(i as int, 32), b@.subrange(i as int, 32)),
        decreases 32 - i,
    {
        let ghost sa = a@.subrange(i as int, 32);
        let ghost sb = b@.subrange(i as int, 32);
        if a[i] != b[i] {
            return a[i] < b[i];
        }
        assert(sa.drop_first() =~= a@.subrange(i as int + 1, 32));
        assert(sb.drop_first() =~= b@.subrange(i as int + 1, 32));
        i = i + 1;
    }
    false
}

/// Picks the ticket whose `(digest, ticket_id)` is smallest.
pub fn select_ticket(slot_seed: [u8; 32], ticket_ids: &[u64]) -> (r: u64)
    requires
        ticket_ids@.len() > 0,
    ensures
        is_best_ticket(slot_seed@, ticket_ids@.to_set(), r),
{
    let ghost seed = slot_seed@;
    let mut best_ticket: u64 = ticket_ids[0];
    let mut best_hash: [u8; 32] = keyed_digest(&slot_seed, best_ticket);
    let mut i: usize = 1;
    while i < ticket_ids.len()
        invariant
            1 <= i <= ticket_ids@.len(),
            seed == slot_seed@,
            best_hash@ == keyed_hash(seed, best_ticket),
            exists|j: int| 0 <= j < i && ticket_ids@[j] == best_ticket,
            forall|j: int| 0 <= j < i ==> ticket_le(seed, best_ticket, #[trigger] ticket_ids@[j]),
        decreases ticket_ids@.len() - i,
    {
        let ticket_id = ticket_ids[i];
        let hash = keyed_digest(&slot_seed, ticket_id);
        let lt = bytes_lt(&hash, &best_hash);
        let gt = bytes_lt(&best_hash, &hash);
        proof {
            if !lt && !gt {
                lemma_lex_total(hash@, best_hash@);
            }
        }
        if lt || (!gt && ticket_id < best_ticket) {
            proof {
                assert forall|j: int| 0 <= j < i implies ticket_le(
                    seed,
                    ticket_id,
                    #[trigger] ticket_ids@[j],
                ) by {
                    lemma_ticket_le_trans(seed, ticket_id, best_ticket, ticket_ids@[j]);
                }
            }
            best_ticket = ticket_id;
            best_hash = hash;
        }
        i = i + 1;
    }
    proof {
        assert forall|k: u64| #[trigger] ticket_ids@.to_set().contains(k) implies ticket_le(
            seed,
            best_ticket,
            k,
        ) by {
            let j = choose|j: int| 0 <= j < ticket_ids@.len() && ticket_ids@[j] == k;
            assert(ticket_le(seed, best_ticket, ticket_ids@[j]));
        }
    }
    best_ticket
}

/// `b` is an active bucket that holds at least one ticket.
pub open spec fn eligible_bucket(st: &ChainState, b: u64) -> bool {
    st.active_bucket_ids@.contains(b) && st.buckets@.contains_key(b)
        && st.buckets@[b].ticket_ids@.len() > 0
}

/// Some active bucket holds a ticket.
pub open spec fn has_eligible(st: &ChainState) -> bool {
    exists|b: u64| #[trigger] eligible_bucket(st, b)
}

/// Ticket count of each eligible bucket.
pub open spec fn eligible_counts(st: &ChainState) -> Map<u64, usize> {
    Map::new(|b: u64| eligible_bucket(st, b), |b: u64| st.buckets@[b].ticket_ids@.len() as usize)
}

/// The winning bucket among `counts`.
pub open spec fn chosen_bucket(seed: Seq<u8>, counts: Map<u64, usize>) -> u64 {
    choose|b: u64| is_best_bucket(seed, counts, b)
}

/// The winning ticket among `ids`.
pub open spec fn chosen_ticket(seed: Seq<u8>, ids: Set<u64>) -> u64 {
    choose|t: u64| is_best_ticket(seed, ids, t)
}

/// The leader of a slot: the owner of the winning ticket of the winning
/// active bucket, under the slot's seed.
pub open spec fn leader_of(st: &ChainState, slot_index: u64) -> u64 {
    let seed = slot_seed_spec(st.epoch_seed@, slot_index);
    let b = chosen_bucket(seed, eligible_counts(st));
    st.tickets@[chosen_ticket(seed, st.buckets@[b].ticket_ids@)].owner
}

/// At most one bucket wins a draw.
pub proof fn lemma_best_bucket_unique(seed: Seq<u8>, counts: Map<u64, usize>, a: u64, b: u64)
    requires
        is_best_bucket(seed, counts, a),
        is_best_bucket(seed, counts, b),
    ensures
        a == b,
{
    assert(bucket_le(seed, a, counts[a] as nat, b, counts[b] as nat));
    assert(bucket_le(seed, b, counts[b] as nat, a, counts[a] as nat));
}

/// At most one ticket wins a draw.
pub proof fn lemma_best_ticket_unique(seed: Seq<u8>, ids: Set<u64>, a: u64, b: u64)
    requires
        is_best_ticket(seed, ids, a),
        is_best_ticket(seed, ids, b),
    ensures
        a == b,
{
    assert(ticket_le(seed, a, b));
    assert(ticket_le(seed, b, a));
    if lex_lt(keyed_hash(seed, a), keyed_hash(seed, b)) {
        lemma_lex_asym(keyed_hash(seed, a), keyed_hash(seed, b));
    }
    if lex_lt(keyed_hash(seed, b), keyed_hash(seed, a)) {
        lemma_lex_asym(keyed_hash(seed, b), keyed_hash(seed, a));
    }
}

/// The members of a set of ids, in some order.
fn set_to_vec(ids: &HashSet<u64>) -> (r: Vec<u64>)
    ensures
        r@.to_set() == ids@,
{
    let mut r: Vec<u64> = Vec::new();
    proof {
        assert(spec_hash_keys_iter(ids).remaining().unref().to_set() == ids@);
    }
    for x in it: ids.iter()
        invariant
            it.seq().unref().to_set() == ids@,
            forall|y: u64| #[trigger] r@.contains(y) ==> ids@.contains(y),
            forall|y: u64|
                #[trigger] ids@.contains(y) ==> r@.contains(y) || exists|j: int|
                    it.index() <= j < it.seq().len() && *it.seq()[j] == y,
    {
        proof {
            assert(it.seq().unref()[it.index()] == *x);
            assert(it.seq().unref().to_set().contains(*x));
        }
        let ghost old_r = r@;
        r.push(*x);
        proof {
            assert(r@[r@.len() - 1] == *x);
            assert forall|y: u64| #[trigger] r@.contains(y) implies ids@.contains(y) by {
                if y != *x {
                    let i = choose|i: int| 0 <= i < r@.len() && r@[i] == y;
                    assert(old_r[i] == y);
                    assert(old_r.contains(y));
                }
            }
            assert forall|y: u64| old_r.contains(y) implies #[trigger] r@.contains(y) by {
                let i = choose|i: int| 0 <= i < old_r.len() && old_r[i] == y;
                assert(r@[i] == y);
            }
        }
    }
    assert(r@.to_set() =~= ids@);
    r
}

/// Ticket counts of the eligible buckets.
fn eligible_bucket_counts(state: &ChainState) -> (r: HashMap<u64, usize>)
    requires
        state.wf(),
    ensures
        r@ == eligible_counts(state),
        forall|b: u64| #[trigger] r@.contains_key(b) ==> r@[b] > 0,
{
    let mut counts: HashMap<u64, usize> = HashMap::new();
    proof {
        assert(spec_hash_keys_iter(&state.active_bucket_ids).remaining().unref().to_set()
            == state.active_bucket_ids@);
    }
    for bucket_id in it: state.active_bucket_ids.iter()
        invariant
            it.seq().unref().to_set() == state.active_bucket_ids@,
            forall|b: u64| #[trigger]
                counts@.contains_key(b) ==> eligible_bucket(state, b) && counts@[b]
                    == eligible_counts(state)[b] && counts@[b] > 0,
            forall|b: u64| #[trigger]
                eligible_bucket(state, b) ==> counts@.contains_key(b) || exists|j: int|
                    it.index() <= j < it.seq().len() && *it.seq()[j] == b,
    {
        proof {
            assert(it.seq().unref()[it.index()] == *bucket_id);
            assert(it.seq().unref().to_set().contains(*bucket_id));
        }
        match state.buckets.get(bucket_id) {
            Some(bucket) => {
                let count = bucket.ticket_ids.len();
                if count > 0 {
                    counts.insert(*bucket_id, count);
                }
            },
            None => {},
        }
    }
    assert(counts@ =~= eligible_counts(state));
    counts
}

/// The leader of a slot. Has no side effects: the same state and slot give
/// the same leader on every call.
pub fn select_leader(state: &ChainState, slot_index: u64) -> (r: u64)
    requires
        state.wf(),
        has_eligible(state),
    ensures
        r == leader_of(state, slot_index),
        state.validators@.contains_key(r),
        state.validators@[r].state != ValidatorState::Jailed,
{
    let seed = slot_seed(state.epoch_seed, slot_index);
    let bucket_counts = eligible_bucket_counts(state);
    let ghost counts = eligible_counts(state);
    proof {
        let b = choose|b: u64| #[trigger] eligible_bucket(state, b);
        assert(counts.contains_key(b));
    }
    let bucket_id = select_bucket(seed, &bucket_counts);
    proof {
        lemma_best_bucket_unique(seed@, counts, bucket_id, chosen_bucket(seed@, counts));
    }
    let bucket = state.buckets.get(&bucket_id).unwrap();
    let ids = set_to_vec(&bucket.ticket_ids);
    proof {
        let t = ids@.to_set().choose();
        assert(ids@.to_set().contains(t));
    }
    let ticket_id = select_ticket(seed, ids.as_slice());
    proof {
        lemma_best_ticket_unique(
            seed@,
            bucket.ticket_ids@,
            ticket_id,
            chosen_ticket(seed@, bucket.ticket_ids@),
        );
        assert(state.holds(bucket_id, ticket_id));
        assert(state.tickets@.contains_key(ticket_id));
        assert(state.tickets@[ticket_id].state != TicketState::Dead);
    }
    let ticket = state.tickets.get(&ticket_id).unwrap();
    ticket.owner
}

/// A finite map with a positive count has a winning bucket.
pub proof fn lemma_best_bucket_exists(seed: Seq<u8>, counts: Map<u64, usize>)
    requires
        counts.dom().finite(),
        has_positive(counts),
    ensures
        exists|b: u64| is_best_bucket(seed, counts, b),
    decreases counts.dom().len(),
{
    let k = choose|k: u64| #[trigger] counts.contains_key(k) && counts[k] > 0;
    let rest = counts.remove(k);
    assert(rest.dom() =~= counts.dom().remove(k));
    if has_positive(rest) {
        lemma_best_bucket_exists(seed, rest);
        let b = choose|b: u64| is_best_bucket(seed, rest, b);
        if bucket_le(seed, b, counts[b] as nat, k, counts[k] as nat) {
            assert(rest.contains_key(b) && rest[b] == counts[b]);
            assert forall|j: u64| #[trigger]
                counts.contains_key(j) && counts[j] > 0 implies bucket_le(
                seed,
                b,
                counts[b] as nat,
                j,
                counts[j] as nat,
            ) by {
                if j != k {
                    assert(rest.contains_key(j) && rest[j] == counts[j]);
                }
            }
            assert(is_best_bucket(seed, counts, b));
        } else {
            assert forall|j: u64| #[trigger]
                counts.contains_key(j) && counts[j] > 0 implies bucket_le(
                seed,
                k,
                counts[k] as nat,
                j,
                counts[j] as nat,
            ) by {
                if j != k {
                    assert(rest.contains_key(j) && rest[j] == counts[j]);
                }
            }
            assert(is_best_bucket(seed, counts, k));
        }
    } else {
        assert forall|j: u64| #[trigger]
            counts.contains_key(j) && counts[j] > 0 implies bucket_le(
            seed,
            k,
            counts[k] as nat,
            j,
            counts[j] as nat,
        ) by {
            if j != k {
                assert(rest.contains_key(j));
            }
        }
        assert(is_best_bucket(seed, counts, k));
    }
}

/// A finite non-empty set of tickets has a winning ticket.
pub proof fn lemma_best_ticket_exists(seed: Seq<u8>, ids: Set<u64>)
    requires
        ids.finite(),
        ids.len() > 0,
    ensures
        exists|t: u64| is_best_ticket(seed, ids, t),
    decreases ids.len(),
{
    let k = ids.choose();
    let rest = ids.remove(k);
    if rest.len() > 0 {
        lemma_best_ticket_exists(seed, rest);
        let b = choose|b: u64| is_best_ticket(seed, rest, b);
        let hb = keyed_hash(seed, b);
        let hk = keyed_hash(seed, k);
        if ticket_le(seed, b, k) {
            assert(is_best_ticket(seed, ids, b));
        } else {
            if !lex_lt(hk, hb) {
                lemma_lex_total(hb, hk);
            }
            assert(ticket_le(seed, k, b));
            assert forall|j: u64| #[trigger] ids.contains(j) implies ticket_le(seed, k, j) by {
                if j != k {
                    assert(rest.contains(j));
                    lemma_ticket_le_trans(seed, k, b, j);
                }
            }
            assert(is_best_ticket(seed, ids, k));
        }
    } else {
        assert forall|j: u64| #[trigger] ids.contains(j) implies ticket_le(seed, k, j) by {
            if j != k {
                assert(rest.contains(j));
            }
        }
        assert(is_best_ticket(seed, ids, k));
    }
}

/// Leader selection is deterministic: two well-formed states with the same
/// epoch seed, the same active buckets holding the same tickets, and the
/// same owners for those tickets, elect the same leader in every slot.
pub proof fn lemma_leader_deterministic(s1: &ChainState, s2: &ChainState, slot_index: u64)
    requires
        s1.wf(),
        s2.wf(),
        has_eligible(s1),
        s1.epoch_seed@ == s2.epoch_seed@,
        s1.active_bucket_ids@ == s2.active_bucket_ids@,
        forall|b: u64| #[trigger]
            s1.active_bucket_ids@.contains(b) ==> (s1.buckets@.contains_key(b)
                <==> s2.buckets@.contains_key(b)),
        forall|b: u64| #[trigger]
            s1.active_bucket_ids@.contains(b) && s1.buckets@.contains_key(b) ==> s1.buckets@[b].ticket_ids@
                == s2.buckets@[b].ticket_ids@,
        forall|b: u64, t: u64|
            s1.active_bucket_ids@.contains(b) && #[trigger] s1.holds(b, t) ==> s1.tickets@[t].owner
                == s2.tickets@[t].owner,
    ensures
        leader_of(s1, slot_index) == leader_of(s2, slot_index),
{
    let seed = slot_seed_spec(s1.epoch_seed@, slot_index);
    let counts = eligible_counts(s1);
    assert(counts =~= eligible_counts(s2));
    assert(counts.dom().subset_of(s1.active_bucket_ids@));
    vstd::set_lib::lemma_set_subset_finite(s1.active_bucket_ids@, counts.dom());
    let w = choose|b: u64| #[trigger] eligible_bucket(s1, b);
    let wids = s1.buckets@[w].ticket_ids@;
    assert(wids.subset_of(s1.tickets@.dom())) by {
        assert forall|t: u64| wids.contains(t) implies s1.tickets@.dom().contains(t) by {
            assert(s1.holds(w, t));
        }
    }
    vstd::set_lib::lemma_len_subset(wids, s1.tickets@.dom());
    assert(counts.contains_key(w) && counts[w] > 0);
    lemma_best_bucket_exists(seed, counts);
    let b = chosen_bucket(seed, counts);
    assert(is_best_bucket(seed, counts, b));
    let ids = s1.buckets@[b].ticket_ids@;
    assert(ids.subset_of(s1.tickets@.dom())) by {
        assert forall|t: u64| ids.contains(t) implies s1.tickets@.dom().contains(t) by {
            assert(s1.holds(b, t));
        }
    }
    assert(s1.tickets@.dom().finite());
    vstd::set_lib::lemma_len_subset(ids, s1.tickets@.dom());
    lemma_best_ticket_exists(seed, ids);
    let t = chosen_ticket(seed, ids);
    assert(is_best_ticket(seed, ids, t));
    assert(s1.holds(b, t));
}

} // verus!
