use vstd::prelude::*;
use crate::chain_state::ChainState;
use crate::epoch::{epoch_effect, process_epoch_transition};
use crate::leader_selection::{has_eligible, leader_of};
use crate::slot::{SLOT_DURATION_MS, count_by, double_signed, process_slot, slot_effect, slot_fits};
use crate::types::{Block, Proposal};

verus! {

/// Offset of the second, conflicting block id that validator 1 proposes.
pub const CONFLICT_OFFSET: u64 = 9999;

/// The simulated clock: the current slot and its start time.
#[derive(Debug, Clone, Copy, PartialEq, Eq, Structural)]
pub struct SimClock {
    pub now_ms: u64,
    pub slot_start_ms: u64,
    pub slot_index: u64,
}

/// Drives the consensus core slot by slot, with an epoch transition every
/// `epoch_len_slots` slots.
#[derive(Debug)]
pub struct Simulator {
    pub clock: SimClock,
    pub state: ChainState,
    pub blocks: Vec<Block>,
    pub epoch_len_slots: u64,
}

/// The proposals of every slot: validator 1 signs two different blocks,
/// validator 2 signs one.
pub open spec fn sim_proposals(slot: u64) -> Seq<Proposal> {
    seq![
        Proposal { proposer_id: 1, block_id: slot },
        Proposal { proposer_id: 1, block_id: (slot + CONFLICT_OFFSET) as u64 },
        Proposal { proposer_id: 2, block_id: slot },
    ]
}

impl Simulator {
    /// The simulator can run its next slot.
    pub open spec fn can_step(&self) -> bool {
        &&& self.state.wf()
        &&& slot_fits(&self.state, self.clock.slot_index, self.clock.slot_start_ms)
        &&& self.clock.slot_index + CONFLICT_OFFSET <= u64::MAX
        &&& self.epoch_len_slots > 0
        &&& self.state.active_bucket_ids@.len() > 0
    }

    /// Runs the current slot with the fixed proposals, records its block,
    /// advances the clock by one slot and, at an epoch boundary, runs the
    /// epoch transition.
    pub fn run_one_slot(&mut self) -> (r: Block)
        requires
            old(self).can_step(),
        ensures
            r.slot_index == old(self).clock.slot_index,
            r.timestamp_ms == old(self).clock.slot_start_ms + SLOT_DURATION_MS,
            r.proposer is Some ==> r.proposer == Some(2u64),
            r.proposer == Some(2u64) <==> has_eligible(&old(self).state) && leader_of(
                &old(self).state,
                old(self).clock.slot_index,
            ) == 2,
            final(self).blocks@ == old(self).blocks@.push(r),
            final(self).clock.slot_index == old(self).clock.slot_index + 1,
            final(self).clock.slot_start_ms == old(self).clock.slot_start_ms + SLOT_DURATION_MS,
            final(self).clock.now_ms == final(self).clock.slot_start_ms,
            final(self).epoch_len_slots == old(self).epoch_len_slots,
            exists|mid: ChainState|
                slot_effect(
                    &old(self).state,
                    &mid,
                    old(self).clock.slot_index,
                    old(self).clock.slot_start_ms,
                    sim_proposals(old(self).clock.slot_index),
                    r,
                ) && if final(self).clock.slot_index % old(self).epoch_len_slots == 0 {
                    epoch_effect(&mid, &final(self).state)
                } else {
                    final(self).state == mid
                },
    {
        let slot_index = self.clock.slot_index;
        let proposals = vec![
            Proposal { proposer_id: 1, block_id: slot_index },
            Proposal { proposer_id: 1, block_id: slot_index + CONFLICT_OFFSET },
            Proposal { proposer_id: 2, block_id: slot_index },
        ];
        proof {
            let ps = proposals@;
            if has_eligible(&self.state) {
                let l = leader_of(&self.state, slot_index);
                reveal_with_fuel(count_by, 4);
                assert(ps.drop_last().drop_last().drop_last() =~= Seq::<Proposal>::empty());
                if l == 1 {
                    assert(ps[0].proposer_id == l && ps[1].proposer_id == l);
                    assert(double_signed(ps, l));
                } else {
                    assert(!double_signed(ps, l));
                    if l == 2 {
                        assert(count_by(ps, l) == 1);
                    } else {
                        assert(count_by(ps, l) == 0);
                    }
                }
            }
        }
        assert(proposals@ =~= sim_proposals(slot_index));
        let block = process_slot(
            &mut self.state,
            self.clock.slot_index,
            self.clock.slot_start_ms,
            proposals.as_slice(),
        );
        let ghost mid = self.state;
        self.blocks.push(block);
        self.clock.slot_index = self.clock.slot_index + 1;
        self.clock.slot_start_ms = self.clock.slot_start_ms + SLOT_DURATION_MS;
        self.clock.now_ms = self.clock.slot_start_ms;
        if self.clock.slot_index % self.epoch_len_slots == 0 {
            process_epoch_transition(&mut self.state);
        }
        block
    }
}

} // verus!
