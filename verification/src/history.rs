//! What holds of a miner through any number of steps.
use crate::block::ClosedBlock;
use crate::hash::{Bytes, H256};
use crate::miner::{
    MinerView, SealingAction, SealingEvent, SealingUpdate, Setting, StageView,
    SEALING_TIMEOUT_IN_BLOCKS,
};
use crate::pushing::{PushOutcome, PushingView};
use crate::using_queue::QueueView;
use vstd::prelude::*;

verus! {

/// One of the things that happen to a miner, from its beginning to its end.
pub enum MinerStep<P> {
    /// The chain has moved to block `number` with hash `best_hash`. A preparation that follows
    /// gives `block`, or none.
    Update { number: nat, best_hash: H256, block: Option<ClosedBlock<P>> },
    /// Work is asked for while the best block has that number and hash. A preparation that is
    /// needed gives `block`, or none.
    Request { number: nat, best_hash: H256, block: Option<ClosedBlock<P>> },
    /// A seal is submitted for the block with hash `pow_hash`. It is accepted where it fits the
    /// block and the chain imports the block, and refused otherwise.
    Submit { pow_hash: H256, accepted: bool },
    /// A setting is changed.
    Configure(Setting),
}

impl<P> MinerView<P> {
    /// The state after a whole preparation on top of `best_hash` that gave `block`, or none.
    pub open spec fn with_prepared(
        self,
        best_hash: H256,
        block: Option<ClosedBlock<P>>,
    ) -> MinerView<P> {
        self.sealed_with(block, self.has_work_on(best_hash))
    }

    /// The state of a preparation after the block answered `outcomes`, one after the other.
    pub open spec fn pushed_all(self, outcomes: Seq<PushOutcome>) -> MinerView<P>
        decreases outcomes.len(),
    {
        if outcomes.len() == 0 {
            self
        } else {
            self.pushed_all(outcomes.drop_last()).sealing(SealingEvent::Pushed(outcomes.last()))
        }
    }

    /// The state after the chain has moved.
    pub open spec fn updated(
        self,
        number: nat,
        best_hash: H256,
        block: Option<ClosedBlock<P>>,
    ) -> MinerView<P> {
        match self.sealing_update(number) {
            SealingUpdate::Prepare => self.decided(number).with_prepared(best_hash, block),
            _ => self.decided(number),
        }
    }

    /// The state in which a request for work is answered: where there was none, the miner is
    /// awake and has prepared some.
    pub open spec fn with_work(
        self,
        best_hash: H256,
        block: Option<ClosedBlock<P>>,
    ) -> MinerView<P> {
        if self.work.last() is None {
            self.woken().with_prepared(best_hash, block)
        } else {
            self
        }
    }

    /// The state after one step.
    pub open spec fn after(self, step: MinerStep<P>) -> MinerView<P> {
        match step {
            MinerStep::Update { number, best_hash, block } => self.updated(
                number,
                best_hash,
                block,
            ),
            MinerStep::Request { number, best_hash, block } => self.with_work(
                best_hash,
                block,
            ).served(number),
            MinerStep::Submit { pow_hash, accepted } => if accepted {
                self.accepted(pow_hash)
            } else {
                self.dropped(pow_hash)
            },
            MinerStep::Configure(setting) => self.with_setting(setting),
        }
    }

    /// The state after all of `steps`.
    pub open spec fn after_all(self, steps: Seq<MinerStep<P>>) -> MinerView<P>
        decreases steps.len(),
    {
        if steps.len() == 0 {
            self
        } else {
            self.after_all(steps.drop_last()).after(steps.last())
        }
    }

    /// A miner that is asleep has no work, and no block that could be submitted.
    pub open spec fn rests(self) -> bool {
        !self.sealing_enabled ==> {
            &&& self.work.pending is None
            &&& self.work.in_use.len() == 0
            &&& self.solved.in_use.len() == 0
        }
    }

    /// 1 where the step hands out a block that was not in use before, and 0 otherwise.
    pub open spec fn new_block_used(self, step: MinerStep<P>) -> nat {
        match step {
            MinerStep::Request { best_hash, block, .. } => if self.with_work(
                best_hash,
                block,
            ).work.pending is Some {
                1
            } else {
                0
            },
            _ => 0,
        }
    }

    /// 1 where the step makes a block in use a solved one, and 0 otherwise.
    pub open spec fn block_solved(self, step: MinerStep<P>) -> nat {
        if step matches MinerStep::Submit { pow_hash, accepted } && accepted && self.is_in_use(
            pow_hash,
        ) {
            1
        } else {
            0
        }
    }

    /// The step neither submits a seal for `pow_hash` that is refused nor sends the miner to
    /// sleep.
    pub open spec fn is_spared_by(self, pow_hash: H256, step: MinerStep<P>) -> bool {
        match step {
            MinerStep::Update { number, .. } => !(self.sealing_enabled && self.is_forgotten(number)),
            MinerStep::Submit { pow_hash: other, accepted } => accepted || other != pow_hash,
            _ => true,
        }
    }

    /// The step hands out a block with hash `pow_hash` that was not in use before.
    pub open spec fn hands_out(self, pow_hash: H256, step: MinerStep<P>) -> bool {
        step matches MinerStep::Request { best_hash, block, .. } && {
            self.with_work(best_hash, block).work.pending matches Some(b) && b.hash == pow_hash
        }
    }

    /// The step makes a block in use with hash `pow_hash` a solved one.
    pub open spec fn solves(self, pow_hash: H256, step: MinerStep<P>) -> bool {
        step matches MinerStep::Submit { pow_hash: other, accepted } && accepted && other
            == pow_hash && self.is_in_use(pow_hash)
    }

    /// 1 where, by a submission, a block ceases to be in use that is newer than one in use with
    /// hash `pow_hash`, and 0 otherwise.
    pub open spec fn newer_block_left(self, pow_hash: H256, step: MinerStep<P>) -> nat {
        if step matches MinerStep::Submit { pow_hash: other, .. } && self.is_in_use(other)
            && crate::miner::has_block(self.work.in_use.take(self.work_index(other)), pow_hash) {
            1
        } else {
            0
        }
    }

    /// 1 where a refused seal drops a solved block that is newer than a solved one with hash
    /// `pow_hash`, and 0 otherwise.
    pub open spec fn newer_solved_dropped(self, pow_hash: H256, step: MinerStep<P>) -> nat {
        if step matches MinerStep::Submit { pow_hash: other, accepted } && !accepted
            && !self.is_in_use(other) && self.is_solved(other) && crate::miner::has_block(
            self.solved.in_use.take(self.work_index(other) - self.work.in_use.len()),
            pow_hash,
        ) {
            1
        } else {
            0
        }
    }

    /// A block with hash `pow_hash` is in use behind at most `newer` newer ones, or solved behind
    /// at most `later` newer ones.
    pub open spec fn is_kept(self, pow_hash: H256, newer: int, later: int) -> bool {
        is_behind(self.work.in_use, pow_hash, newer) || is_behind(
            self.solved.in_use,
            pow_hash,
            later,
        )
    }
}

/// One of `blocks` has hash `pow_hash`, and at most `newer` of them stand after it.
pub open spec fn is_behind<P>(blocks: Seq<ClosedBlock<P>>, pow_hash: H256, newer: int) -> bool {
    exists|i: int|
        {
            &&& 0 <= i < blocks.len()
            &&& (#[trigger] blocks[i]).hash == pow_hash
            &&& blocks.len() - 1 - i <= newer
        }
}

/// After every one of `blocks` that has hash `pow_hash` at least `newer` others stand.
pub open spec fn is_only_behind<P>(
    blocks: Seq<ClosedBlock<P>>,
    pow_hash: H256,
    newer: int,
) -> bool {
    forall|i: int|
        0 <= i < blocks.len() && (#[trigger] blocks[i]).hash == pow_hash ==> newer <= blocks.len()
            - 1 - i
}

/// How many of `steps`, taken from `s` on, hand out a block that was not in use before.
pub open spec fn new_blocks_used<P>(s: MinerView<P>, steps: Seq<MinerStep<P>>) -> nat
    decreases steps.len(),
{
    if steps.len() == 0 {
        0
    } else {
        let head = steps.drop_last();
        new_blocks_used(s, head) + s.after_all(head).new_block_used(steps.last())
    }
}

/// How many of `steps`, taken from `s` on, make a block in use a solved one.
pub open spec fn blocks_solved<P>(s: MinerView<P>, steps: Seq<MinerStep<P>>) -> nat
    decreases steps.len(),
{
    if steps.len() == 0 {
        0
    } else {
        let head = steps.drop_last();
        blocks_solved(s, head) + s.after_all(head).block_solved(steps.last())
    }
}

/// By how many of `steps`, taken from `s` on, a block ceases to be in use through a submission
/// that is newer than one in use with hash `pow_hash`.
pub open spec fn newer_blocks_left<P>(
    s: MinerView<P>,
    pow_hash: H256,
    steps: Seq<MinerStep<P>>,
) -> nat
    decreases steps.len(),
{
    if steps.len() == 0 {
        0
    } else {
        let head = steps.drop_last();
        newer_blocks_left(s, pow_hash, head) + s.after_all(head).newer_block_left(
            pow_hash,
            steps.last(),
        )
    }
}

/// How many of `steps`, taken from `s` on, drop a solved block that is newer than a solved one
/// with hash `pow_hash`.
pub open spec fn newer_all_solved_dropped<P>(
    s: MinerView<P>,
    pow_hash: H256,
    steps: Seq<MinerStep<P>>,
) -> nat
    decreases steps.len(),
{
    if steps.len() == 0 {
        0
    } else {
        let head = steps.drop_last();
        newer_all_solved_dropped(s, pow_hash, head) + s.after_all(head).newer_solved_dropped(
            pow_hash,
            steps.last(),
        )
    }
}

/// Through any steps the miner keeps no more blocks in use, and no more solved ones, than it may.
pub proof fn law_work_stays_bounded<P>(s: MinerView<P>, steps: Seq<MinerStep<P>>)
    requires
        s.wf(),
    ensures
        s.after_all(steps).wf(),
    decreases steps.len(),
{
    if steps.len() > 0 {
        law_work_stays_bounded(s, steps.drop_last());
        let t = s.after_all(steps.drop_last());
        if let MinerStep::Submit { pow_hash, .. } = steps.last() {
            crate::miner::lemma_work_at(t, pow_hash);
        }
    }
}

/// A miner that starts afresh, however it is configured, never holds work while it is asleep,
/// whatever happens to it.
pub proof fn law_asleep_without_work<P>(steps: Seq<MinerStep<P>>)
    ensures
        MinerView::<P>::initial().after_all(steps).rests(),
    decreases steps.len(),
{
    if steps.len() > 0 {
        law_asleep_without_work(steps.drop_last());
        let t = MinerView::<P>::initial().after_all(steps.drop_last());
        if let MinerStep::Submit { pow_hash, .. } = steps.last() {
            crate::miner::lemma_work_at(t, pow_hash);
        }
    }
}

/// Work that was handed out can still be submitted after any steps that hand out fewer other
/// blocks than the miner keeps and have no more seals accepted than it keeps solved blocks, as
/// long as no seal for it is refused and the miner does not fall asleep. A seal for it that was
/// accepted does not stand in the way.
pub proof fn law_work_can_be_submitted<P>(
    s: MinerView<P>,
    pow_hash: H256,
    steps: Seq<MinerStep<P>>,
)
    requires
        s.wf(),
        s.work.newest_used() matches Some(b) && b.hash == pow_hash,
        new_blocks_used(s, steps) < s.work.max_size,
        blocks_solved(s, steps) <= s.solved.max_size,
        forall|k: int|
            0 <= k < steps.len() ==> s.after_all(#[trigger] steps.take(k)).is_spared_by(
                pow_hash,
                steps[k],
            ),
    ensures
        s.after_all(steps).is_submittable(pow_hash),
{
    lemma_work_stays(s, pow_hash, steps);
}

/// [`law_work_can_be_submitted`], with a bound on how many blocks are newer.
proof fn lemma_work_stays<P>(s: MinerView<P>, pow_hash: H256, steps: Seq<MinerStep<P>>)
    requires
        s.wf(),
        s.work.newest_used() matches Some(b) && b.hash == pow_hash,
        new_blocks_used(s, steps) < s.work.max_size,
        blocks_solved(s, steps) <= s.solved.max_size,
        forall|k: int|
            0 <= k < steps.len() ==> s.after_all(#[trigger] steps.take(k)).is_spared_by(
                pow_hash,
                steps[k],
            ),
    ensures
        s.after_all(steps).is_kept(
            pow_hash,
            new_blocks_used(s, steps) as int,
            blocks_solved(s, steps) - 1,
        ),
    decreases steps.len(),
{
    if steps.len() == 0 {
        assert(s.work.in_use[s.work.in_use.len() - 1].hash == pow_hash);
    } else {
        let head = steps.drop_last();
        assert forall|k: int| 0 <= k < head.len() implies s.after_all(
            #[trigger] head.take(k),
        ).is_spared_by(pow_hash, head[k]) by {
            assert(head.take(k) =~= steps.take(k));
            assert(head[k] == steps[k]);
        }
        lemma_work_stays(s, pow_hash, head);
        law_work_stays_bounded(s, head);
        let n = head.len() as int;
        assert(steps.take(n) =~= head);
        let t = s.after_all(head);
        assert(t.is_spared_by(pow_hash, steps[n]));
        lemma_work_stays_step(
            t,
            pow_hash,
            new_blocks_used(s, head) as int,
            blocks_solved(s, head) - 1,
            steps.last(),
        );
    }
}

/// One step of [`lemma_work_stays`].
proof fn lemma_work_stays_step<P>(
    t: MinerView<P>,
    pow_hash: H256,
    newer: int,
    later: int,
    step: MinerStep<P>,
)
    requires
        t.wf(),
        -1 <= later,
        t.is_kept(pow_hash, newer, later),
        t.is_spared_by(pow_hash, step),
        newer + t.new_block_used(step) < t.work.max_size,
        later + t.block_solved(step) < t.solved.max_size,
    ensures
        t.after(step).is_kept(
            pow_hash,
            newer + t.new_block_used(step),
            later + t.block_solved(step),
        ),
{
    let u = t.after(step);
    match step {
        MinerStep::Request { number, best_hash, block } => {
            let w = t.with_work(best_hash, block);
            assert(w.work.in_use == t.work.in_use);
            assert(u.solved == t.solved);
            if is_behind(t.work.in_use, pow_hash, newer) && w.work.pending is Some {
                lemma_behind_grown(t.work, pow_hash, newer, w.work.pending->0);
                assert(u.work.in_use == t.work.pushed(w.work.pending->0).used().in_use);
            }
        },
        MinerStep::Submit { pow_hash: other, accepted } => {
            crate::miner::lemma_work_at(t, other);
            let k = t.work_index(other);
            if t.is_in_use(other) {
                if accepted && other == pow_hash {
                    lemma_newest_behind(t.solved, t.work.in_use[k]);
                } else if is_behind(t.work.in_use, pow_hash, newer) {
                    lemma_behind_removed(t.work.in_use, pow_hash, newer, k);
                } else if accepted {
                    lemma_behind_grown(t.solved, pow_hash, later, t.work.in_use[k]);
                }
            } else if !accepted && t.is_solved(other) && is_behind(
                t.solved.in_use,
                pow_hash,
                later,
            ) {
                lemma_behind_removed(t.solved.in_use, pow_hash, later, k - t.work.in_use.len());
            }
        },
        _ => {
            assert(u.work.in_use == t.work.in_use);
            assert(u.solved.in_use == t.solved.in_use);
        },
    }
}

/// A newly used block is the newest one.
proof fn lemma_newest_behind<P>(queue: QueueView<ClosedBlock<P>>, item: ClosedBlock<P>)
    requires
        queue.wf(),
        queue.max_size > 0,
    ensures
        is_behind(queue.pushed(item).used().in_use, item.hash, 0),
{
    let grown = queue.pushed(item).used().in_use;
    assert(grown[grown.len() - 1] == item);
}

/// A used block stays, one further behind, when another one is used, if it is not too far behind.
proof fn lemma_behind_grown<P>(
    queue: QueueView<ClosedBlock<P>>,
    pow_hash: H256,
    newer: int,
    item: ClosedBlock<P>,
)
    requires
        queue.wf(),
        is_behind(queue.in_use, pow_hash, newer),
        newer + 1 < queue.max_size,
    ensures
        is_behind(queue.pushed(item).used().in_use, pow_hash, newer + 1),
{
    let i = choose|i: int|
        {
            &&& 0 <= i < queue.in_use.len()
            &&& (#[trigger] queue.in_use[i]).hash == pow_hash
            &&& queue.in_use.len() - 1 - i <= newer
        };
    let grown = queue.in_use.push(item);
    let left = queue.pushed(item).used().in_use;
    if grown.len() > queue.max_size {
        assert(left == grown.drop_first());
        assert(left[i - 1] == queue.in_use[i]);
    } else {
        assert(left[i] == queue.in_use[i]);
    }
}

/// A block stays, no further behind, when another one is taken away.
proof fn lemma_behind_removed<P>(
    blocks: Seq<ClosedBlock<P>>,
    pow_hash: H256,
    newer: int,
    index: int,
)
    requires
        is_behind(blocks, pow_hash, newer),
        0 <= index < blocks.len(),
        blocks[index].hash != pow_hash,
    ensures
        is_behind(blocks.remove(index), pow_hash, newer),
{
    let i = choose|i: int|
        {
            &&& 0 <= i < blocks.len()
            &&& (#[trigger] blocks[i]).hash == pow_hash
            &&& blocks.len() - 1 - i <= newer
        };
    if index < i {
        assert(blocks.remove(index)[i - 1] == blocks[i]);
    } else {
        assert(blocks.remove(index)[i] == blocks[i]);
    }
}

/// Work that was handed out is in use no longer once as many other blocks as the miner keeps have
/// been handed out after it, not counting those that ceased to be in use through a submission.
pub proof fn law_old_work_expires<P>(s: MinerView<P>, pow_hash: H256, steps: Seq<MinerStep<P>>)
    requires
        s.wf(),
        new_blocks_used(s, steps) >= s.work.max_size + newer_blocks_left(s, pow_hash, steps),
        forall|k: int|
            0 <= k < steps.len() ==> !s.after_all(#[trigger] steps.take(k)).hands_out(
                pow_hash,
                steps[k],
            ),
    ensures
        !s.after_all(steps).is_in_use(pow_hash),
{
    lemma_work_ages(s, pow_hash, steps);
    law_work_stays_bounded(s, steps);
}

/// [`law_old_work_expires`], with a bound on how many blocks in use are newer.
proof fn lemma_work_ages<P>(s: MinerView<P>, pow_hash: H256, steps: Seq<MinerStep<P>>)
    requires
        s.wf(),
        forall|k: int|
            0 <= k < steps.len() ==> !s.after_all(#[trigger] steps.take(k)).hands_out(
                pow_hash,
                steps[k],
            ),
    ensures
        is_only_behind(
            s.after_all(steps).work.in_use,
            pow_hash,
            new_blocks_used(s, steps) - newer_blocks_left(s, pow_hash, steps),
        ),
    decreases steps.len(),
{
    if steps.len() > 0 {
        let head = steps.drop_last();
        lemma_head_hands_out(s, pow_hash, steps);
        lemma_work_ages(s, pow_hash, head);
        law_work_stays_bounded(s, head);
        lemma_work_ages_step(
            s.after_all(head),
            pow_hash,
            new_blocks_used(s, head) - newer_blocks_left(s, pow_hash, head),
            steps.last(),
        );
    }
}

/// Where no step hands a block out, neither the last one nor an earlier one does.
proof fn lemma_head_hands_out<P>(s: MinerView<P>, pow_hash: H256, steps: Seq<MinerStep<P>>)
    requires
        steps.len() > 0,
        forall|k: int|
            0 <= k < steps.len() ==> !s.after_all(#[trigger] steps.take(k)).hands_out(
                pow_hash,
                steps[k],
            ),
    ensures
        !s.after_all(steps.drop_last()).hands_out(pow_hash, steps.last()),
        forall|k: int|
            0 <= k < steps.drop_last().len() ==> !s.after_all(
                #[trigger] steps.drop_last().take(k),
            ).hands_out(pow_hash, steps.drop_last()[k]),
{
    let head = steps.drop_last();
    let n = head.len() as int;
    assert(steps.take(n) =~= head);
    assert(!s.after_all(steps.take(n)).hands_out(pow_hash, steps[n]));
    assert forall|k: int| 0 <= k < head.len() implies !s.after_all(
        #[trigger] head.take(k),
    ).hands_out(pow_hash, head[k]) by {
        assert(head.take(k) =~= steps.take(k));
        assert(head[k] == steps[k]);
    }
}

/// One step of [`lemma_work_ages`].
proof fn lemma_work_ages_step<P>(
    t: MinerView<P>,
    pow_hash: H256,
    newer: int,
    step: MinerStep<P>,
)
    requires
        t.wf(),
        is_only_behind(t.work.in_use, pow_hash, newer),
        !t.hands_out(pow_hash, step),
    ensures
        is_only_behind(
            t.after(step).work.in_use,
            pow_hash,
            newer + t.new_block_used(step) - t.newer_block_left(pow_hash, step),
        ),
{
    match step {
        MinerStep::Request { best_hash, block, .. } => {
            let w = t.with_work(best_hash, block);
            assert(w.work.in_use == t.work.in_use);
            if w.work.pending is Some {
                lemma_only_behind_grown(t.work, pow_hash, newer, w.work.pending->0);
                assert(t.after(step).work.in_use == t.work.pushed(
                    w.work.pending->0,
                ).used().in_use);
            }
        },
        MinerStep::Submit { pow_hash: other, .. } => {
            crate::miner::lemma_work_at(t, other);
            if t.is_in_use(other) {
                lemma_only_behind_removed(t.work.in_use, pow_hash, newer, t.work_index(other));
            }
        },
        _ => {},
    }
}

/// When another block is used, those with the hash have one more after them.
proof fn lemma_only_behind_grown<P>(
    queue: QueueView<ClosedBlock<P>>,
    pow_hash: H256,
    newer: int,
    item: ClosedBlock<P>,
)
    requires
        is_only_behind(queue.in_use, pow_hash, newer),
        item.hash != pow_hash,
    ensures
        is_only_behind(queue.pushed(item).used().in_use, pow_hash, newer + 1),
{
    let grown = queue.in_use.push(item);
    let left = queue.pushed(item).used().in_use;
    assert forall|i: int|
        0 <= i < left.len() && (#[trigger] left[i]).hash == pow_hash implies newer + 1
        <= left.len() - 1 - i by {
        if grown.len() > queue.max_size {
            assert(left[i] == grown[i + 1]);
            assert(i + 1 < queue.in_use.len());
            assert(queue.in_use[i + 1].hash == pow_hash);
        } else {
            assert(left[i] == grown[i]);
            assert(i < queue.in_use.len());
            assert(queue.in_use[i].hash == pow_hash);
        }
    }
}

/// When a block is taken away, those with the hash have one less after them where it stood after
/// one of them, and as many as before otherwise.
proof fn lemma_only_behind_removed<P>(
    blocks: Seq<ClosedBlock<P>>,
    pow_hash: H256,
    newer: int,
    index: int,
)
    requires
        is_only_behind(blocks, pow_hash, newer),
        0 <= index < blocks.len(),
    ensures
        is_only_behind(
            blocks.remove(index),
            pow_hash,
            if crate::miner::has_block(blocks.take(index), pow_hash) {
                newer - 1
            } else {
                newer
            },
        ),
{
    let left = blocks.remove(index);
    assert forall|i: int| 0 <= i < left.len() && (#[trigger] left[i]).hash == pow_hash implies (
    if crate::miner::has_block(blocks.take(index), pow_hash) {
        newer - 1
    } else {
        newer
    }) <= left.len() - 1 - i by {
        if i < index {
            assert(blocks[i].hash == pow_hash);
            assert(blocks.take(index)[i].hash == pow_hash);
        } else {
            assert(blocks[i + 1].hash == pow_hash);
        }
    }
}

/// A solved block cannot be submitted as such any more once as many others as the miner keeps
/// have been solved after it, not counting those that were dropped for a refused seal.
pub proof fn law_solved_work_expires<P>(s: MinerView<P>, pow_hash: H256, steps: Seq<MinerStep<P>>)
    requires
        s.wf(),
        blocks_solved(s, steps) >= s.solved.max_size + newer_all_solved_dropped(
            s,
            pow_hash,
            steps,
        ),
        forall|k: int|
            0 <= k < steps.len() ==> !s.after_all(#[trigger] steps.take(k)).solves(
                pow_hash,
                steps[k],
            ),
    ensures
        !s.after_all(steps).is_solved(pow_hash),
{
    lemma_solved_ages(s, pow_hash, steps);
    law_work_stays_bounded(s, steps);
}

/// [`law_solved_work_expires`], with a bound on how many solved blocks are newer.
proof fn lemma_solved_ages<P>(s: MinerView<P>, pow_hash: H256, steps: Seq<MinerStep<P>>)
    requires
        s.wf(),
        forall|k: int|
            0 <= k < steps.len() ==> !s.after_all(#[trigger] steps.take(k)).solves(
                pow_hash,
                steps[k],
            ),
    ensures
        is_only_behind(
            s.after_all(steps).solved.in_use,
            pow_hash,
            blocks_solved(s, steps) - newer_all_solved_dropped(s, pow_hash, steps),
        ),
    decreases steps.len(),
{
    if steps.len() > 0 {
        let head = steps.drop_last();
        let n = head.len() as int;
        assert(steps.take(n) =~= head);
        assert(!s.after_all(steps.take(n)).solves(pow_hash, steps[n]));
        assert forall|k: int| 0 <= k < head.len() implies !s.after_all(
            #[trigger] head.take(k),
        ).solves(pow_hash, head[k]) by {
            assert(head.take(k) =~= steps.take(k));
            assert(head[k] == steps[k]);
        }
        lemma_solved_ages(s, pow_hash, head);
        law_work_stays_bounded(s, head);
        lemma_solved_ages_step(
            s.after_all(head),
            pow_hash,
            blocks_solved(s, head) - newer_all_solved_dropped(s, pow_hash, head),
            steps.last(),
        );
    }
}

/// One step of [`lemma_solved_ages`].
proof fn lemma_solved_ages_step<P>(
    t: MinerView<P>,
    pow_hash: H256,
    newer: int,
    step: MinerStep<P>,
)
    requires
        t.wf(),
        is_only_behind(t.solved.in_use, pow_hash, newer),
        !t.solves(pow_hash, step),
    ensures
        is_only_behind(
            t.after(step).solved.in_use,
            pow_hash,
            newer + t.block_solved(step) - t.newer_solved_dropped(pow_hash, step),
        ),
{
    if let MinerStep::Submit { pow_hash: other, accepted } = step {
        crate::miner::lemma_work_at(t, other);
        let k = t.work_index(other);
        if accepted && t.is_in_use(other) {
            lemma_only_behind_grown(t.solved, pow_hash, newer, t.work.in_use[k]);
        } else if !accepted && !t.is_in_use(other) && t.is_solved(other) {
            lemma_only_behind_removed(
                t.solved.in_use,
                pow_hash,
                newer,
                k - t.work.in_use.len(),
            );
        }
    }
}

/// A block that a new miner, however it is configured, never handed out cannot be submitted,
/// whatever happens to the miner.
pub proof fn law_only_handed_out_work_is_submitted<P>(pow_hash: H256, steps: Seq<MinerStep<P>>)
    requires
        forall|k: int|
            0 <= k < steps.len() ==> !MinerView::<P>::initial().after_all(
                #[trigger] steps.take(k),
            ).hands_out(pow_hash, steps[k]),
    ensures
        !MinerView::<P>::initial().after_all(steps).is_submittable(pow_hash),
    decreases steps.len(),
{
    let s = MinerView::<P>::initial();
    if steps.len() > 0 {
        let head = steps.drop_last();
        lemma_head_hands_out(s, pow_hash, steps);
        law_only_handed_out_work_is_submitted(pow_hash, head);
        law_work_stays_bounded(s, head);
        law_work_stays_bounded(s, steps);
        let t = s.after_all(head);
        let many = crate::miner::MAX_BLOCKS_IN_USE + 1;
        lemma_work_ages_step(t, pow_hash, many, steps.last());
        lemma_solved_ages_step(t, pow_hash, many, steps.last());
    }
}

/// Somebody who asks for work gets a block where the miner has one or the chain can make one.
pub proof fn law_request_is_answered<P>(
    s: MinerView<P>,
    number: nat,
    best_hash: H256,
    block: Option<ClosedBlock<P>>,
)
    requires
        s.wf(),
        s.work.last() is Some || block is Some,
    ensures
        s.with_work(best_hash, block).work.last() is Some,
        s.after(MinerStep::Request { number, best_hash, block }).work.newest_used() == s.with_work(
            best_hash,
            block,
        ).work.last(),
        s.work.last() is None ==> s.with_work(best_hash, block).work.last() == block,
{
}

/// A request keeps the miner awake until more blocks than the timeout have passed, whatever seals
/// are submitted and settings changed meanwhile. Where no seal is submitted, the blocks that can
/// be submitted stay the same.
pub proof fn law_request_keeps_awake<P>(
    s: MinerView<P>,
    requested: MinerStep<P>,
    steps: Seq<MinerStep<P>>,
)
    requires
        s.rests(),
        requested is Request,
        forall|k: int| 0 <= k < steps.len() ==> !(#[trigger] steps[k] is Request),
        forall|k: int|
            0 <= k < steps.len() && #[trigger] steps[k] is Update ==> steps[k]->Update_number
                <= requested->Request_number + SEALING_TIMEOUT_IN_BLOCKS,
    ensures
        s.after(requested).after_all(steps).sealing_enabled,
        s.after(requested).after_all(steps).last_request == requested->Request_number,
        (forall|k: int| 0 <= k < steps.len() ==> !(#[trigger] steps[k] is Submit)) ==> {
            s.after(requested).after_all(steps).submittable() == s.after(requested).submittable()
        },
    decreases steps.len(),
{
    if steps.len() > 0 {
        let head = steps.drop_last();
        assert forall|k: int| 0 <= k < head.len() implies #[trigger] head[k] == steps[k] by {}
        law_request_keeps_awake(s, requested, head);
        assert(!(steps[steps.len() - 1] is Request));
    }
}

/// A miner that nobody asks for work again is asleep, with no work and nothing to submit, once the
/// chain has moved to a block that is more than five above the one of the last request, whatever
/// else happened since.
pub proof fn law_unasked_miner_sleeps<P>(
    s: MinerView<P>,
    requested: MinerStep<P>,
    steps: Seq<MinerStep<P>>,
    moved: MinerStep<P>,
)
    requires
        s.rests(),
        requested is Request,
        forall|k: int| 0 <= k < steps.len() ==> !(#[trigger] steps[k] is Request),
        moved is Update,
        moved->Update_number > requested->Request_number + 5,
    ensures
        ({
            let t = s.after(requested).after_all(steps).after(moved);
            &&& !t.sealing_enabled
            &&& t.work.pending is None
            &&& t.work.in_use.len() == 0
            &&& t.solved.in_use.len() == 0
        }),
{
    lemma_unasked(s, requested, steps);
}

/// Until work is asked for again, the number of the last request stays, and no work is kept asleep.
proof fn lemma_unasked<P>(s: MinerView<P>, requested: MinerStep<P>, steps: Seq<MinerStep<P>>)
    requires
        s.rests(),
        requested is Request,
        forall|k: int| 0 <= k < steps.len() ==> !(#[trigger] steps[k] is Request),
    ensures
        s.after(requested).after_all(steps).rests(),
        s.after(requested).after_all(steps).last_request == requested->Request_number,
    decreases steps.len(),
{
    if steps.len() > 0 {
        let head = steps.drop_last();
        assert forall|k: int| 0 <= k < head.len() implies #[trigger] head[k] == steps[k] by {}
        lemma_unasked(s, requested, head);
        assert(!(steps[steps.len() - 1] is Request));
        let t = s.after(requested).after_all(head);
        if let MinerStep::Submit { pow_hash, .. } = steps.last() {
            crate::miner::lemma_work_at(t, pow_hash);
        }
    }
}

/// A miner that is asleep stays asleep and without work until work is asked for, however the
/// chain moves, whatever seals are submitted and settings changed. It stays as it is where no
/// setting is changed.
pub proof fn law_asleep_until_asked<P>(s: MinerView<P>, steps: Seq<MinerStep<P>>)
    requires
        !s.sealing_enabled,
        s.rests(),
        forall|k: int| 0 <= k < steps.len() ==> !(#[trigger] steps[k] is Request),
    ensures
        !s.after_all(steps).sealing_enabled,
        s.after_all(steps).rests(),
        s.after_all(steps).last_request == s.last_request,
        (forall|k: int| 0 <= k < steps.len() ==> !(#[trigger] steps[k] is Configure)) ==> {
            s.after_all(steps) == s
        },
    decreases steps.len(),
{
    if steps.len() > 0 {
        let head = steps.drop_last();
        assert forall|k: int| 0 <= k < head.len() implies #[trigger] head[k] == steps[k] by {}
        law_asleep_until_asked(s, head);
        assert(!(steps[steps.len() - 1] is Request));
    }
}

/// A preparation that gives a block leaves that block on top of the work, and blocks in use stay
/// in use.
pub proof fn law_prepared_block_on_top<P>(
    s: MinerView<P>,
    best_hash: H256,
    block: ClosedBlock<P>,
)
    ensures
        s.with_prepared(best_hash, Some(block)).work.last() matches Some(top) && top.header_hash
            == block.header_hash,
        s.with_prepared(best_hash, Some(block)).work.in_use == s.work.in_use,
{
}

/// The stages of a preparation follow the answers of the block.
proof fn lemma_pushed_all<P>(s: MinerView<P>, transactions: Seq<H256>, outcomes: Seq<PushOutcome>)
    requires
        s.stage == crate::miner::stage_after_push::<P>(PushingView::start(transactions)),
        outcomes.len() <= transactions.len(),
        forall|i: int| 0 <= i < outcomes.len() - 1 ==> !#[trigger] outcomes[i].is_full(),
    ensures
        s.pushed_all(outcomes) == (MinerView {
            stage: crate::miner::stage_after_push(
                PushingView::start(transactions).after_all(outcomes),
            ),
            ..s
        }),
    decreases outcomes.len(),
{
    if outcomes.len() > 0 {
        let head = outcomes.drop_last();
        lemma_pushed_all(s, transactions, head);
        crate::pushing::law_pushing_stops(transactions, head);
        if head.len() > 0 {
            assert(head.last() == outcomes[head.len() - 1]);
        }
    }
}

/// A preparation that takes up a block again, pushes transactions onto it until they or its gas
/// run out, at least one with success, and closes it, has exactly the transactions removed from the queue that the block
/// answered with a failure, and makes the closed block work.
pub proof fn law_reopened_preparation<P>(
    s: MinerView<P>,
    best_hash: H256,
    transactions: Vec<H256>,
    outcomes: Seq<PushOutcome>,
    block: ClosedBlock<P>,
)
    requires
        s.stage is Idle,
        s.has_work_on(best_hash),
        outcomes.len() <= transactions@.len(),
        forall|i: int| 0 <= i < outcomes.len() - 1 ==> !#[trigger] outcomes[i].is_full(),
        outcomes.len() == transactions@.len() || outcomes.len() > 0 && outcomes.last().is_full(),
        exists|i: int| 0 <= i < outcomes.len() && #[trigger] outcomes[i] is Imported,
    ensures
        ({
            let open = s.sealing(SealingEvent::Start { best_hash, transactions }).sealing(
                SealingEvent::Reopened,
            ).pushed_all(outcomes);
            &&& open.stage matches StageView::Closing(invalid) && {
                &&& invalid.no_duplicates()
                &&& forall|h: H256| #[trigger]
                    invalid.contains(h) <==> exists|i: int|
                        0 <= i < outcomes.len() && #[trigger] outcomes[i] is Failed
                            && transactions@[i] == h
            }
            &&& open.sealing(SealingEvent::Closed(block)).sealing(SealingEvent::Removed)
                == s.with_prepared(best_hash, Some(block))
        }),
{
    let opened = s.sealing(SealingEvent::Start { best_hash, transactions }).sealing(
        SealingEvent::Reopened,
    );
    lemma_pushed_all(opened, transactions@, outcomes);
    crate::pushing::law_pushing_run(transactions@, outcomes);
    crate::pushing::law_pushing_stops(transactions@, outcomes);
}

/// A preparation in which the chain makes the block makes that block work.
pub proof fn law_authored_preparation<P>(
    s: MinerView<P>,
    best_hash: H256,
    transactions: Vec<H256>,
    block: Option<ClosedBlock<P>>,
    invalid: Vec<H256>,
)
    requires
        s.stage is Idle,
        !s.has_work_on(best_hash),
    ensures
        s.sealing(SealingEvent::Start { best_hash, transactions }).sealing(
            SealingEvent::Authored { block, invalid },
        ).sealing(SealingEvent::Removed) == s.with_prepared(best_hash, block),
{
}

/// Without at least one transaction that is pushed there is no new work: a block that is taken up
/// again and imports none is left alone, and so is everything else. What is removed from the queue
/// are exactly the transactions that the block answered with a failure.
pub proof fn law_no_new_work_without_transactions<P>(
    s: MinerView<P>,
    best_hash: H256,
    transactions: Vec<H256>,
    outcomes: Seq<PushOutcome>,
)
    requires
        s.stage is Idle,
        s.has_work_on(best_hash),
        outcomes.len() <= transactions@.len(),
        forall|i: int| 0 <= i < outcomes.len() - 1 ==> !#[trigger] outcomes[i].is_full(),
        outcomes.len() == transactions@.len() || outcomes.len() > 0 && outcomes.last().is_full(),
        forall|i: int| 0 <= i < outcomes.len() ==> !(#[trigger] outcomes[i] is Imported),
    ensures
        ({
            let pushed = PushingView::start(transactions@).after_all(outcomes);
            let open = s.sealing(SealingEvent::Start { best_hash, transactions }).sealing(
                SealingEvent::Reopened,
            ).pushed_all(outcomes);
            &&& open.stage is Removing
            &&& open.sealing(SealingEvent::Removed) == s
            &&& forall|action: SealingAction<P>| #[trigger]
                crate::miner::is_action_after_push(pushed, action) <==> {
                    action matches SealingAction::Remove(hashes) && hashes@ == pushed.invalid
                }
            &&& pushed.invalid.no_duplicates()
            &&& forall|h: H256| #[trigger]
                pushed.invalid.contains(h) <==> exists|i: int|
                    0 <= i < outcomes.len() && #[trigger] outcomes[i] is Failed
                        && transactions@[i] == h
        }),
{
    let opened = s.sealing(SealingEvent::Start { best_hash, transactions }).sealing(
        SealingEvent::Reopened,
    );
    lemma_pushed_all(opened, transactions@, outcomes);
    crate::pushing::law_pushing_run(transactions@, outcomes);
    crate::pushing::law_pushing_stops(transactions@, outcomes);
}

/// The same block that is prepared twice in a row is taken once.
pub proof fn law_prepared_twice<P>(s: MinerView<P>, block: ClosedBlock<P>)
    ensures
        s.prepared(Some(block)).prepared(Some(block)) == s.prepared(Some(block)),
{
}

/// A submission that goes through all its stages changes the state as one step does.
pub proof fn law_submission<P, E>(
    s: MinerView<P>,
    pow_hash: H256,
    sealed: Option<Bytes>,
    imported: Result<(), E>,
)
    ensures
        s.seal_was_tried(pow_hash, None) == s.after(MinerStep::Submit { pow_hash, accepted: false }),
        sealed is Some ==> s.seal_was_tried(pow_hash, sealed).block_was_imported(pow_hash, imported)
            == s.after(MinerStep::Submit { pow_hash, accepted: imported is Ok }),
{
}

/// An accepted seal makes its block no work any more: it is in use no longer, and there is none
/// left where it was the only work. But the block can be submitted again, and that then changes
/// nothing, unless another block in use has the hash. Other blocks in use stay in use.
pub proof fn law_accepted_seal_solves_block<P>(s: MinerView<P>, pow_hash: H256)
    requires
        s.wf(),
        s.is_in_use(pow_hash),
    ensures
        ({
            let t = s.accepted(pow_hash);
            let k = s.work_index(pow_hash);
            &&& crate::miner::is_first_with(s.work.in_use, k, pow_hash)
            &&& t.work == s.work.without_used(k)
            &&& t.solved.newest_used() == Some(s.work.in_use[k])
            &&& t.is_submittable(pow_hash)
            &&& !t.is_in_use(pow_hash) ==> t.accepted(pow_hash) == t
            &&& s.work.pending is None && s.work.in_use.len() == 1 ==> t.work.last() is None
            &&& forall|h: H256| h != pow_hash ==> (#[trigger] t.is_in_use(h) <==> s.is_in_use(h))
        }),
{
    crate::miner::lemma_work_at(s, pow_hash);
    let k = s.work_index(pow_hash);
    let t = s.accepted(pow_hash);
    assert forall|j: int| 0 <= j < k implies (#[trigger] s.work.in_use[j]).hash != pow_hash by {
        assert(s.submittable()[j].hash != pow_hash);
    }
    let last = t.solved.in_use.len() - 1;
    assert(t.solved.in_use[last] == s.work.in_use[k]);
    assert forall|h: H256| h != pow_hash implies (#[trigger] t.is_in_use(h) <==> s.is_in_use(h)) by {
        lemma_others_stay(s.work.in_use, k, h);
    }
}

/// Taking a block away leaves the hashes of the others.
proof fn lemma_others_stay<P>(blocks: Seq<ClosedBlock<P>>, index: int, pow_hash: H256)
    requires
        0 <= index < blocks.len(),
        blocks[index].hash != pow_hash,
    ensures
        crate::miner::has_block(blocks.remove(index), pow_hash) <==> crate::miner::has_block(blocks, pow_hash),
{
    let left = blocks.remove(index);
    if crate::miner::has_block(blocks, pow_hash) {
        let i = choose|i: int| 0 <= i < blocks.len() && (#[trigger] blocks[i]).hash == pow_hash;
        if i < index {
            assert(left[i].hash == pow_hash);
        } else {
            assert(left[i - 1].hash == pow_hash);
        }
    }
    if crate::miner::has_block(left, pow_hash) {
        let i = choose|i: int| 0 <= i < left.len() && (#[trigger] left[i]).hash == pow_hash;
        if i < index {
            assert(blocks[i].hash == pow_hash);
        } else {
            assert(blocks[i + 1].hash == pow_hash);
        }
    }
}

/// A refused seal uses its block up: there is one block less that can be submitted, blocks with
/// other hashes stay, and where no other block had the hash, no further seal for it can be
/// submitted.
pub proof fn law_refused_seal_uses_block_up<P>(s: MinerView<P>, pow_hash: H256)
    requires
        s.is_submittable(pow_hash),
    ensures
        s.dropped(pow_hash).submittable() == s.submittable().remove(s.work_index(pow_hash)),
        s.dropped(pow_hash).is_submittable(pow_hash) <==> exists|i: int, j: int|
            0 <= i < j < s.submittable().len() && (#[trigger] s.submittable()[i]).hash == pow_hash
                && (#[trigger] s.submittable()[j]).hash == pow_hash,
        forall|h: H256|
            h != pow_hash ==> (#[trigger] s.dropped(pow_hash).is_submittable(h)
                <==> s.is_submittable(h)),
{
    crate::miner::lemma_work_at(s, pow_hash);
    let k = s.work_index(pow_hash);
    let t = s.dropped(pow_hash);
    let all = s.submittable();
    let left = t.submittable();
    assert(left =~= all.remove(k));
    assert forall|h: H256| true implies (#[trigger] t.is_submittable(h) <==> crate::miner::has_block(left, h)) by {
        lemma_submittable(t, h);
    }
    if crate::miner::has_block(left, pow_hash) {
        let i = choose|i: int| 0 <= i < left.len() && (#[trigger] left[i]).hash == pow_hash;
        if i < k {
            assert(all[i].hash != pow_hash);
        }
        assert(left[i] == all[i + 1]);
        assert(all[k].hash == pow_hash);
    }
    if exists|i: int, j: int|
        0 <= i < j < all.len() && (#[trigger] all[i]).hash == pow_hash && (#[trigger] all[j]).hash
            == pow_hash {
        let (i, j) = choose|i: int, j: int|
            0 <= i < j < all.len() && (#[trigger] all[i]).hash == pow_hash && (
            #[trigger] all[j]).hash == pow_hash;
        assert(k <= i);
        assert(left[j - 1] == all[j]);
    }
    assert forall|h: H256| h != pow_hash implies (#[trigger] t.is_submittable(h)
        <==> s.is_submittable(h)) by {
        lemma_submittable(s, h);
        lemma_others_stay(all, k, h);
    }
}

/// A seal can be submitted exactly for the hashes of the blocks that can be submitted.
proof fn lemma_submittable<P>(s: MinerView<P>, pow_hash: H256)
    ensures
        s.is_submittable(pow_hash) <==> crate::miner::has_block(s.submittable(), pow_hash),
{
    crate::miner::lemma_work_at(s, pow_hash);
    if crate::miner::has_block(s.submittable(), pow_hash) {
        let all = s.submittable();
        let n = s.work.in_use.len();
        let i = choose|i: int| 0 <= i < all.len() && (#[trigger] all[i]).hash == pow_hash;
        if i < n {
            assert(s.work.in_use[i].hash == pow_hash);
        } else {
            assert(s.solved.in_use[i - n].hash == pow_hash);
        }
    }
}

/// A sensible gas price is never below the least one, is above it from ten on, and does not fall
/// as the least one rises.
pub proof fn law_sensible_price(price: nat, higher: nat)
    requires
        price <= higher,
    ensures
        price <= price * 110 / 100,
        price >= 10 ==> price < price * 110 / 100,
        price * 110 / 100 <= higher * 110 / 100,
{
}

} // verus!
