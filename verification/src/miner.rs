//! The miner: which block is being sealed, for whom, and when sealing pauses.
use crate::block::ClosedBlock;
use crate::hash::{Address, Bytes, H256};
use crate::pushing::{PushOutcome, Pushing, PushingView};
use crate::uint::U256;
use crate::using_queue::{QueueView, UsingQueue};
use vstd::prelude::*;

verus! {

/// How many blocks may pass without a request for work before the miner stops preparing it.
pub const SEALING_TIMEOUT_IN_BLOCKS: u64 = 5;

/// How many blocks that were handed out are kept to be submitted, and as many that were solved.
pub const MAX_BLOCKS_IN_USE: usize = 5;

/// The state of a [`Miner`].
#[verifier::ext_equal]
pub struct MinerView<P> {
    /// Least gas price at which a transaction is accepted for mining.
    pub minimal_gas_price: nat,
    /// Work is being prepared.
    pub sealing_enabled: bool,
    /// Number of the best block when work was last asked for.
    pub last_request: nat,
    /// The blocks that wait for a seal.
    pub work: QueueView<ClosedBlock<P>>,
    /// The blocks that a seal was accepted for: the used items of a queue in which nothing is
    /// pending. They are no work any more, but a seal for them can still be submitted.
    pub solved: QueueView<ClosedBlock<P>>,
    /// The gas limit to aim at in new blocks.
    pub gas_floor_target: nat,
    /// The author of new blocks.
    pub author: Seq<u8>,
    /// The extra data of new blocks.
    pub extra_data: Seq<u8>,
    /// How far the preparation of a block has come.
    pub stage: StageView<P>,
}

/// A new value for one of the settings of a [`Miner`].
pub enum Setting {
    /// The author of new blocks.
    Author(Address),
    /// The extra data of new blocks.
    ExtraData(Bytes),
    /// The gas limit to aim at in new blocks.
    GasFloorTarget(U256),
    /// The least gas price at which a transaction is accepted for mining.
    MinimalGasPrice(U256),
}

/// How far the preparation of a block has come.
#[verifier::ext_equal]
pub enum StageView<P> {
    /// No block is being prepared.
    Idle,
    /// A block is being opened again.
    Opening(PushingView),
    /// A transaction is being pushed onto the block.
    Pushing(PushingView),
    /// The block is being closed. The transactions with these hashes turned out invalid.
    Closing(Seq<H256>),
    /// The chain is making a new block.
    Authoring,
    /// Invalid transactions are leaving the queue, before `block` becomes work. Where `refreshed`
    /// is set, it takes the place of the pending block that was opened again.
    Removing { block: Option<ClosedBlock<P>>, refreshed: bool },
}

/// The stage that follows when the transactions have been pushed as `pushing` says: a block that
/// took none of them in is left alone.
pub open spec fn stage_after_push<P>(pushing: PushingView) -> StageView<P> {
    if !pushing.is_done() {
        StageView::Pushing(pushing)
    } else if pushing.imported {
        StageView::Closing(pushing.invalid)
    } else {
        StageView::Removing { block: None, refreshed: true }
    }
}

/// `action` is what follows when the transactions have been pushed as `pushing` says.
pub open spec fn is_action_after_push<P>(pushing: PushingView, action: SealingAction<P>) -> bool {
    if !pushing.is_done() {
        action matches SealingAction::Push(i) && i == pushing.next
    } else if pushing.imported {
        action is Close
    } else {
        action matches SealingAction::Remove(hashes) && hashes@ == pushing.invalid
    }
}

impl<P> MinerView<P> {
    /// The state of a miner that nobody has configured or asked for work.
    pub open spec fn initial() -> MinerView<P> {
        MinerView {
            minimal_gas_price: 0,
            sealing_enabled: false,
            last_request: 0,
            work: QueueView::empty(MAX_BLOCKS_IN_USE as nat),
            solved: QueueView::empty(MAX_BLOCKS_IN_USE as nat),
            gas_floor_target: 0,
            author: crate::hash::zero_address(),
            extra_data: Seq::empty(),
            stage: StageView::Idle,
        }
    }

    /// No more blocks are in use than may be, and a transaction that is being pushed is there.
    pub open spec fn wf(self) -> bool {
        &&& self.work.max_size == MAX_BLOCKS_IN_USE
        &&& self.work.wf()
        &&& self.solved.max_size == MAX_BLOCKS_IN_USE
        &&& self.solved.wf()
        &&& self.solved.pending is None
        &&& self.stage matches StageView::Pushing(pushing) ==> !pushing.is_done()
    }

    /// The state after a setting was changed.
    pub open spec fn with_setting(self, setting: Setting) -> MinerView<P> {
        match setting {
            Setting::Author(author) => MinerView { author: author@, ..self },
            Setting::ExtraData(extra_data) => MinerView { extra_data: extra_data@, ..self },
            Setting::GasFloorTarget(target) => MinerView { gas_floor_target: target@, ..self },
            Setting::MinimalGasPrice(price) => MinerView { minimal_gas_price: price@, ..self },
        }
    }

    /// The block on top of the work is one that extends `best_hash`.
    pub open spec fn has_work_on(self, best_hash: H256) -> bool {
        self.work.last() matches Some(b) && b.parent_hash == best_hash
    }

    /// The state once the preparation has led to `block`: a block is put on top of the work,
    /// unless the top is that very block.
    pub open spec fn prepared(self, block: Option<ClosedBlock<P>>) -> MinerView<P> {
        match block {
            None => self,
            Some(b) => if self.work.last() matches Some(top) && top.header_hash == b.header_hash {
                self
            } else {
                MinerView { work: self.work.pushed(b), ..self }
            },
        }
    }

    /// The state once the preparation is over: a block that was opened again and refreshed makes
    /// way for what it has become, and nothing changes where no block came out.
    pub open spec fn sealed_with(
        self,
        block: Option<ClosedBlock<P>>,
        refreshed: bool,
    ) -> MinerView<P> {
        if block is Some && refreshed {
            MinerView { work: self.work.without_pending(), ..self }.prepared(block)
        } else {
            self.prepared(block)
        }
    }

    /// The event is one that the miner waits for.
    pub open spec fn awaits(self, event: SealingEvent<P>) -> bool {
        match event {
            SealingEvent::Start { .. } => self.stage is Idle,
            SealingEvent::Reopened => self.stage is Opening,
            SealingEvent::Pushed(outcome) => self.stage is Pushing && outcome.wf(),
            SealingEvent::Closed(_) => self.stage is Closing,
            SealingEvent::Authored { .. } => self.stage is Authoring,
            SealingEvent::Removed => self.stage is Removing,
        }
    }

    /// The state after `event` in a preparation.
    pub open spec fn sealing(self, event: SealingEvent<P>) -> MinerView<P>
        recommends
            self.awaits(event),
    {
        match event {
            SealingEvent::Start { best_hash, transactions } => MinerView {
                stage: if self.has_work_on(best_hash) {
                    StageView::Opening(PushingView::start(transactions@))
                } else {
                    StageView::Authoring
                },
                ..self
            },
            SealingEvent::Reopened => MinerView {
                stage: stage_after_push(self.stage->Opening_0),
                ..self
            },
            SealingEvent::Pushed(outcome) => MinerView {
                stage: stage_after_push(self.stage->Pushing_0.after(outcome)),
                ..self
            },
            SealingEvent::Closed(block) => MinerView {
                stage: StageView::Removing { block: Some(block), refreshed: true },
                ..self
            },
            SealingEvent::Authored { block, invalid } => MinerView {
                stage: StageView::Removing { block, refreshed: false },
                ..self
            },
            SealingEvent::Removed => MinerView {
                stage: StageView::Idle,
                ..self.sealed_with(self.stage->block, self.stage->refreshed)
            },
        }
    }

    /// `action` is what follows when a preparation in this state takes in `event`.
    pub open spec fn sealing_action(self, event: SealingEvent<P>, action: SealingAction<P>) -> bool
        where P: Clone
    {
        match event {
            SealingEvent::Start { best_hash, transactions } => if self.has_work_on(best_hash) {
                action matches SealingAction::Reopen(block) && self.work.last()->0.copied_as(block)
            } else {
                action matches SealingAction::Author {
                    author,
                    gas_floor_target,
                    extra_data,
                    transactions: offered,
                } && {
                    &&& author@ == self.author
                    &&& gas_floor_target@ == self.gas_floor_target
                    &&& extra_data@ == self.extra_data
                    &&& offered@ == transactions@
                }
            },
            SealingEvent::Reopened => is_action_after_push(self.stage->Opening_0, action),
            SealingEvent::Pushed(outcome) => is_action_after_push(
                self.stage->Pushing_0.after(outcome),
                action,
            ),
            SealingEvent::Closed(_) => action matches SealingAction::Remove(hashes) && hashes@
                == self.stage->Closing_0,
            SealingEvent::Authored { block, invalid } => action == SealingAction::<P>::Remove(
                invalid,
            ),
            SealingEvent::Removed => action is Done,
        }
    }

    /// Nobody has asked for work for so long that none is to be prepared at block `number`.
    pub open spec fn is_forgotten(self, number: nat) -> bool {
        number - self.last_request > SEALING_TIMEOUT_IN_BLOCKS
    }

    /// The state of a miner that stopped preparing work.
    pub open spec fn asleep(self) -> MinerView<P> {
        MinerView {
            sealing_enabled: false,
            work: QueueView::empty(self.work.max_size),
            solved: QueueView::empty(self.solved.max_size),
            ..self
        }
    }

    /// What is to be done about sealing at block `number`.
    pub open spec fn sealing_update(self, number: nat) -> SealingUpdate {
        if !self.sealing_enabled {
            SealingUpdate::Asleep
        } else if self.is_forgotten(number) {
            SealingUpdate::FellAsleep
        } else {
            SealingUpdate::Prepare
        }
    }

    /// The state after that was decided: a miner that falls asleep drops its work.
    pub open spec fn decided(self, number: nat) -> MinerView<P> {
        if self.sealing_update(number) is FellAsleep {
            self.asleep()
        } else {
            self
        }
    }

    /// The state of a miner that prepares work again.
    pub open spec fn woken(self) -> MinerView<P> {
        MinerView { sealing_enabled: true, ..self }
    }

    /// The state after work was handed out while `number` was the best block.
    pub open spec fn served(self, number: nat) -> MinerView<P> {
        MinerView { last_request: number, work: self.work.used(), ..self }
    }

    /// The blocks that a seal can be submitted for: those in use, oldest first, and after them
    /// those that were solved, oldest first.
    pub open spec fn submittable(self) -> Seq<ClosedBlock<P>> {
        self.work.in_use + self.solved.in_use
    }

    /// `index` is where the first block stands that can be submitted and whose hash without seal
    /// is `pow_hash`.
    pub open spec fn is_work_at(self, index: int, pow_hash: H256) -> bool {
        is_first_with(self.submittable(), index, pow_hash)
    }

    /// A seal for `pow_hash` can be submitted.
    pub open spec fn is_submittable(self, pow_hash: H256) -> bool {
        self.is_in_use(pow_hash) || self.is_solved(pow_hash)
    }

    /// A block in use has the hash `pow_hash`.
    pub open spec fn is_in_use(self, pow_hash: H256) -> bool {
        has_block(self.work.in_use, pow_hash)
    }

    /// A block that a seal was accepted for has the hash `pow_hash`.
    pub open spec fn is_solved(self, pow_hash: H256) -> bool {
        has_block(self.solved.in_use, pow_hash)
    }

    /// Where the first block with hash `pow_hash` stands that can be submitted, if there is one.
    pub open spec fn work_index(self, pow_hash: H256) -> int {
        choose|i: int| self.is_work_at(i, pow_hash)
    }

    /// The state after the first block with hash `pow_hash` that can be submitted, if there is
    /// one, was dropped.
    pub open spec fn dropped(self, pow_hash: H256) -> MinerView<P> {
        let i = self.work_index(pow_hash);
        if self.is_in_use(pow_hash) {
            MinerView { work: self.work.without_used(i), ..self }
        } else if self.is_solved(pow_hash) {
            MinerView { solved: self.solved.without_used(i - self.work.in_use.len()), ..self }
        } else {
            self
        }
    }

    /// The state after a seal for `pow_hash` was accepted: the oldest block in use with that hash
    /// is solved, and no work any more.
    pub open spec fn accepted(self, pow_hash: H256) -> MinerView<P> {
        let i = self.work_index(pow_hash);
        if self.is_in_use(pow_hash) {
            MinerView {
                work: self.work.without_used(i),
                solved: self.solved.pushed(self.work.in_use[i]).used(),
                ..self
            }
        } else {
            self
        }
    }

    /// The state after a seal for `pow_hash` was tried: a block that it does not fit is dropped.
    pub open spec fn seal_was_tried(self, pow_hash: H256, sealed: Option<Bytes>) -> MinerView<P> {
        if sealed is Some {
            self
        } else {
            self.dropped(pow_hash)
        }
    }

    /// The state after the chain answered to the block that was sealed for `pow_hash`: one that
    /// the chain refuses is dropped.
    pub open spec fn block_was_imported<E>(
        self,
        pow_hash: H256,
        imported: Result<(), E>,
    ) -> MinerView<P> {
        if imported is Ok {
            self.accepted(pow_hash)
        } else {
            self.dropped(pow_hash)
        }
    }
}

/// `index` is where the first of `blocks` with hash `pow_hash` stands.
pub open spec fn is_first_with<P>(
    blocks: Seq<ClosedBlock<P>>,
    index: int,
    pow_hash: H256,
) -> bool {
    &&& 0 <= index < blocks.len()
    &&& blocks[index].hash == pow_hash
    &&& forall|j: int| 0 <= j < index ==> (#[trigger] blocks[j]).hash != pow_hash
}

/// One of `blocks` has the hash `pow_hash`.
pub open spec fn has_block<P>(blocks: Seq<ClosedBlock<P>>, pow_hash: H256) -> bool {
    exists|i: int| 0 <= i < blocks.len() && (#[trigger] blocks[i]).hash == pow_hash
}

/// Where a block with the hash can be submitted, the first such block has a place, and only one.
/// It is among the blocks in use where one of those has the hash.
pub proof fn lemma_work_at<P>(s: MinerView<P>, pow_hash: H256)
    ensures
        s.is_submittable(pow_hash) <==> s.is_work_at(s.work_index(pow_hash), pow_hash),
        s.is_in_use(pow_hash) <==> {
            &&& s.is_submittable(pow_hash)
            &&& s.work_index(pow_hash) < s.work.in_use.len()
        },
        forall|i: int, j: int| s.is_work_at(i, pow_hash) && s.is_work_at(j, pow_hash) ==> i == j,
{
    assert forall|i: int, j: int|
        s.is_work_at(i, pow_hash) && s.is_work_at(j, pow_hash) implies i == j by {
        if i < j {
            assert(s.submittable()[i].hash != pow_hash);
        } else if j < i {
            assert(s.submittable()[j].hash != pow_hash);
        }
    }
    let i = s.work_index(pow_hash);
    let n = s.work.in_use.len();
    if s.is_in_use(pow_hash) {
        let k = choose|k: int|
            0 <= k < s.work.in_use.len() && (#[trigger] s.work.in_use[k]).hash == pow_hash;
        assert(s.submittable()[k].hash == pow_hash);
        lemma_first_from(s, pow_hash, k);
        assert(i <= k);
    } else if s.is_solved(pow_hash) {
        let k = choose|k: int|
            0 <= k < s.solved.in_use.len() && (#[trigger] s.solved.in_use[k]).hash == pow_hash;
        assert(s.submittable()[n + k].hash == pow_hash);
        lemma_first_from(s, pow_hash, n + k);
    }
    if s.is_work_at(i, pow_hash) {
        if i < n {
            assert(s.work.in_use[i].hash == pow_hash);
        } else {
            assert(s.solved.in_use[i - n].hash == pow_hash);
        }
    }
}

/// At or before `k` stands the first block that has the hash of the one at `k`.
proof fn lemma_first_from<P>(s: MinerView<P>, pow_hash: H256, k: int)
    requires
        0 <= k < s.submittable().len(),
        s.submittable()[k].hash == pow_hash,
    ensures
        exists|i: int| s.is_work_at(i, pow_hash),
    decreases k,
{
    if forall|j: int| 0 <= j < k ==> (#[trigger] s.submittable()[j]).hash != pow_hash {
        assert(s.is_work_at(k, pow_hash));
    } else {
        let j = choose|j: int| 0 <= j < k && (#[trigger] s.submittable()[j]).hash == pow_hash;
        lemma_first_from(s, pow_hash, j);
    }
}

/// What happens to a miner while it prepares a block.
pub enum SealingEvent<P> {
    /// A block is to be prepared on top of the one with hash `best_hash`, out of the queue's
    /// transactions with the given hashes, best first.
    Start { best_hash: H256, transactions: Vec<H256> },
    /// The block has been opened again.
    Reopened,
    /// The block has answered to a transaction.
    Pushed(PushOutcome),
    /// The block has been closed.
    Closed(ClosedBlock<P>),
    /// The chain has tried to make a new block. The transactions with the hashes in `invalid`
    /// turned out invalid.
    Authored { block: Option<ClosedBlock<P>>, invalid: Vec<H256> },
    /// The invalid transactions have left the queue.
    Removed,
}

/// What is to be done next to prepare a block.
pub enum SealingAction<P> {
    /// Open the block again.
    Reopen(ClosedBlock<P>),
    /// Push onto the block the transaction at that position in the list that was given.
    Push(usize),
    /// Close the block.
    Close,
    /// Have the chain make a new block with these settings, out of all transactions with the
    /// given hashes.
    Author { author: Address, gas_floor_target: U256, extra_data: Bytes, transactions: Vec<H256> },
    /// Remove the transactions with these hashes from the queue.
    Remove(Vec<H256>),
    /// Nothing: the preparation is over.
    Done,
}

/// What to do about sealing after the chain has moved.
#[derive(Clone, Copy, Debug, PartialEq, Eq, Structural)]
pub enum SealingUpdate {
    /// Nothing: no work is being prepared.
    Asleep,
    /// Nothing more: the miner has just stopped preparing work.
    FellAsleep,
    /// Prepare work.
    Prepare,
}

/// Counts of the transactions that the miner knows of.
#[derive(Clone, Copy, Debug, PartialEq, Eq, Structural)]
pub struct MinerStatus {
    /// Number of transactions in the queue that can be mined now.
    pub transactions_in_pending_queue: usize,
    /// Number of transactions in the queue that wait for others.
    pub transactions_in_future_queue: usize,
    /// Number of transactions in the block on top of the work.
    pub transactions_in_pending_block: usize,
}

/// Counts of the transactions in the queue.
#[derive(Clone, Copy, Debug, PartialEq, Eq, Structural)]
pub struct TransactionQueueStatus {
    /// Number of transactions that can be mined now.
    pub pending: usize,
    /// Number of transactions that wait for others.
    pub future: usize,
}

/// Why a seal was not accepted.
#[derive(Debug, PartialEq, Eq)]
pub enum Error<E> {
    /// No block that can be submitted has the hash that the seal was found for.
    PowHashInvalid,
    /// The seal does not fit the block.
    PowInvalid,
    /// The chain refused the sealed block.
    Import(E),
}

/// The next step in submitting a seal.
pub enum SealSubmission<P, E> {
    /// Try to put the seal on the block.
    TrySeal(ClosedBlock<P>, Vec<Bytes>),
    /// Import the sealed block into the chain.
    Import(Bytes),
    /// It is over.
    Finished(Result<(), Error<E>>),
}

/// Keeps the settings for new blocks and the blocks that are being sealed.
pub struct Miner<P> {
    minimal_gas_price: U256,
    sealing_enabled: bool,
    sealing_block_last_request: u64,
    sealing_work: UsingQueue<ClosedBlock<P>>,
    solved: UsingQueue<ClosedBlock<P>>,
    gas_floor_target: U256,
    author: Address,
    extra_data: Bytes,
    stage: Stage<P>,
}

/// How far the preparation of a block has come.
enum Stage<P> {
    Idle,
    Opening(Pushing),
    Pushing(Pushing),
    Closing(Vec<H256>),
    Authoring,
    Removing { block: Option<ClosedBlock<P>>, refreshed: bool },
}

impl<P> Stage<P> {
    spec fn as_view(self) -> StageView<P> {
        match self {
            Stage::Idle => StageView::Idle,
            Stage::Opening(pushing) => StageView::Opening(pushing@),
            Stage::Pushing(pushing) => StageView::Pushing(pushing@),
            Stage::Closing(invalid) => StageView::Closing(invalid@),
            Stage::Authoring => StageView::Authoring,
            Stage::Removing { block, refreshed } => StageView::Removing { block, refreshed },
        }
    }
}

impl<P> View for Miner<P> {
    type V = MinerView<P>;

    closed spec fn view(&self) -> MinerView<P> {
        MinerView {
            minimal_gas_price: self.minimal_gas_price@,
            sealing_enabled: self.sealing_enabled,
            last_request: self.sealing_block_last_request as nat,
            work: self.sealing_work@,
            solved: self.solved@,
            gas_floor_target: self.gas_floor_target@,
            author: self.author@,
            extra_data: self.extra_data@,
            stage: self.stage.as_view(),
        }
    }
}

impl<P> Default for Miner<P> {
    fn default() -> (r: Miner<P>)
        ensures
            r@ == MinerView::<P>::initial(),
    {
        Miner {
            minimal_gas_price: U256::zero(),
            sealing_enabled: false,
            sealing_block_last_request: 0,
            sealing_work: UsingQueue::new(MAX_BLOCKS_IN_USE),
            solved: UsingQueue::new(MAX_BLOCKS_IN_USE),
            gas_floor_target: U256::zero(),
            author: Address::default(),
            extra_data: Vec::new(),
            stage: Stage::Idle,
        }
    }
}

impl<P> Miner<P> {
    /// The state is one that a miner can be in.
    pub open spec fn wf(&self) -> bool {
        self@.wf()
    }

    /// Makes a miner with no settings and no work.
    pub fn new() -> (r: Miner<P>)
        ensures
            r.wf(),
            r@ == MinerView::<P>::initial(),
    {
        Miner::default()
    }

    /// The author that blocks are sealed as.
    pub fn author(&self) -> (r: Address)
        ensures
            r@ == self@.author,
    {
        self.author
    }

    /// The extra data that blocks are sealed with.
    pub fn extra_data(&self) -> (r: Bytes)
        ensures
            r@ == self@.extra_data,
    {
        self.extra_data.clone()
    }

    /// The gas limit to aim at in a new block.
    pub fn gas_floor_target(&self) -> (r: U256)
        ensures
            r@ == self@.gas_floor_target,
    {
        self.gas_floor_target
    }

    /// The least gas price at which a transaction is accepted for mining.
    pub fn minimal_gas_price(&self) -> (r: U256)
        ensures
            r@ == self@.minimal_gas_price,
    {
        self.minimal_gas_price
    }

    /// Sets the author to seal blocks as.
    pub fn set_author(&mut self, author: Address)
        ensures
            final(self)@ == old(self)@.with_setting(Setting::Author(author)),
            final(self)@.author == author@,
    {
        self.author = author;
    }

    /// Sets the extra data to seal blocks with.
    pub fn set_extra_data(&mut self, extra_data: Bytes)
        ensures
            final(self)@ == old(self)@.with_setting(Setting::ExtraData(extra_data)),
            final(self)@.extra_data == extra_data@,
    {
        self.extra_data = extra_data;
    }

    /// Sets the gas limit to aim at in a new block.
    pub fn set_gas_floor_target(&mut self, target: U256)
        ensures
            final(self)@ == old(self)@.with_setting(Setting::GasFloorTarget(target)),
            final(self)@.gas_floor_target == target@,
    {
        self.gas_floor_target = target;
    }

    /// Sets the least gas price at which a transaction is accepted for mining.
    pub fn set_minimal_gas_price(&mut self, min_gas_price: U256)
        ensures
            final(self)@ == old(self)@.with_setting(Setting::MinimalGasPrice(min_gas_price)),
            final(self)@.minimal_gas_price == min_gas_price@,
    {
        self.minimal_gas_price = min_gas_price;
    }

    /// Takes in what happened in the preparation of a block to be sealed, and says what is to be
    /// done next.
    ///
    /// Where the block on top of the work extends the best one, that block is opened again and
    /// transactions are pushed onto it until they or its gas run out. It is closed where it took
    /// one in, and left alone otherwise. Where no such block is on top, the chain makes a new
    /// one. In each case invalid transactions leave the queue, and a block that came out is put
    /// on top of the work, unless it is there already.
    pub fn prepare_sealing(&mut self, event: SealingEvent<P>) -> (r: SealingAction<P>) where
        P: Clone,

        requires
            old(self).wf(),
            old(self)@.awaits(event),
        ensures
            final(self).wf(),
            final(self)@ == old(self)@.sealing(event),
            old(self)@.sealing_action(event, r),
            event matches SealingEvent::Start { best_hash, .. } ==> {
                r is Reopen <==> old(self)@.work.last() is Some
                    && old(self)@.work.last()->0.parent_hash == best_hash
            },
            event matches SealingEvent::Authored { invalid, .. } ==> {
                r matches SealingAction::Remove(hashes) && hashes@ == invalid@
            },
    {
        let mut stage = Stage::Idle;
        core::mem::swap(&mut stage, &mut self.stage);
        match (event, stage) {
            (SealingEvent::Start { best_hash, transactions }, _) => {
                self.start_sealing(&best_hash, transactions)
            },
            (SealingEvent::Reopened, Stage::Opening(pushing)) => self.push_next(pushing),
            (SealingEvent::Pushed(outcome), Stage::Pushing(mut pushing)) => {
                pushing.record(outcome);
                self.push_next(pushing)
            },
            (SealingEvent::Closed(block), Stage::Closing(invalid)) => {
                self.stage = Stage::Removing { block: Some(block), refreshed: true };
                SealingAction::Remove(invalid)
            },
            (SealingEvent::Authored { block, invalid }, _) => {
                self.stage = Stage::Removing { block, refreshed: false };
                SealingAction::Remove(invalid)
            },
            (SealingEvent::Removed, Stage::Removing { block, refreshed }) => {
                self.finish_sealing(block, refreshed);
                SealingAction::Done
            },
            _ => SealingAction::Done,
        }
    }

    /// Takes up the block on top of the work where it extends `best_hash`, and has a new one made
    /// otherwise.
    fn start_sealing(&mut self, best_hash: &H256, transactions: Vec<H256>) -> (r: SealingAction<
        P,
    >) where P: Clone
        requires
            old(self).wf(),
        ensures
            final(self).wf(),
            final(self)@ == (MinerView {
                stage: if old(self)@.has_work_on(*best_hash) {
                    StageView::Opening(PushingView::start(transactions@))
                } else {
                    StageView::Authoring
                },
                ..old(self)@
            }),
            match r {
                SealingAction::Reopen(block) => {
                    &&& old(self)@.has_work_on(*best_hash)
                    &&& old(self)@.work.last()->0.copied_as(block)
                },
                SealingAction::Author {
                    author,
                    gas_floor_target,
                    extra_data,
                    transactions: offered,
                } => {
                    &&& !old(self)@.has_work_on(*best_hash)
                    &&& author@ == old(self)@.author
                    &&& gas_floor_target@ == old(self)@.gas_floor_target
                    &&& extra_data@ == old(self)@.extra_data
                    &&& offered == transactions
                },
                _ => false,
            },
    {
        let top: Option<ClosedBlock<P>> = match self.sealing_work.peek_last_ref() {
            Some(b) => if b.parent_hash == *best_hash {
                Some(b.clone())
            } else {
                None
            },
            None => None,
        };
        match top {
            Some(old_block) => {
                self.stage = Stage::Opening(Pushing::new(transactions));
                SealingAction::Reopen(old_block)
            },
            None => {
                self.stage = Stage::Authoring;
                SealingAction::Author {
                    author: self.author(),
                    gas_floor_target: self.gas_floor_target(),
                    extra_data: self.extra_data(),
                    transactions,
                }
            },
        }
    }

    /// Goes on to the next transaction. Where there is none, closes the block, or leaves it alone
    /// where it took nothing in.
    fn push_next(&mut self, pushing: Pushing) -> (r: SealingAction<P>)
        requires
            old(self).wf(),
        ensures
            final(self).wf(),
            final(self)@ == (MinerView { stage: stage_after_push(pushing@), ..old(self)@ }),
            is_action_after_push(pushing@, r),
    {
        match pushing.next_transaction() {
            Some(i) => {
                self.stage = Stage::Pushing(pushing);
                SealingAction::Push(i)
            },
            None => if pushing.imported_any() {
                self.stage = Stage::Closing(pushing.into_invalid());
                SealingAction::Close
            } else {
                self.stage = Stage::Removing { block: None, refreshed: true };
                SealingAction::Remove(pushing.into_invalid())
            },
        }
    }

    /// Puts the block that was prepared on top of the work, unless it is there already.
    fn finish_sealing(&mut self, block: Option<ClosedBlock<P>>, refreshed: bool)
        requires
            old(self).wf(),
        ensures
            final(self).wf(),
            final(self)@ == old(self)@.sealed_with(block, refreshed),
    {
        if let Some(block) = block {
            if refreshed {
                self.sealing_work.drop_pending();
            }
            let is_new: bool = match self.sealing_work.peek_last_ref() {
                Some(top) => top.header_hash != block.header_hash,
                None => true,
            };
            if is_new {
                self.sealing_work.push(block);
            }
        }
    }

    /// Decides what to do about sealing now that block `number` is the best one.
    ///
    /// The miner stops preparing work, and drops what it has, where nobody has asked for work
    /// for more than [`SEALING_TIMEOUT_IN_BLOCKS`] blocks.
    pub fn update_sealing(&mut self, number: u64) -> (r: SealingUpdate)
        requires
            old(self).wf(),
        ensures
            final(self).wf(),
            r == old(self)@.sealing_update(number as nat),
            final(self)@ == old(self)@.decided(number as nat),
            r is FellAsleep <==> old(self)@.sealing_enabled && number > old(self)@.last_request
                + SEALING_TIMEOUT_IN_BLOCKS,
            r is FellAsleep ==> {
                &&& !final(self)@.sealing_enabled
                &&& final(self)@.work.last() is None
            },
    {
        if self.sealing_enabled {
            let last_request: u64 = self.sealing_block_last_request;
            if number > last_request && number - last_request > SEALING_TIMEOUT_IN_BLOCKS {
                self.sealing_enabled = false;
                self.sealing_work.reset();
                self.solved.reset();
                SealingUpdate::FellAsleep
            } else {
                SealingUpdate::Prepare
            }
        } else {
            SealingUpdate::Asleep
        }
    }

    /// Wakes the miner for a request where it has no work. Tells whether work has to be prepared
    /// before the request can be answered by [`Miner::map_sealing_work`].
    pub fn request_work(&mut self) -> (r: bool)
        requires
            old(self).wf(),
        ensures
            final(self).wf(),
            r == (old(self)@.work.last() is None),
            final(self)@ == (if r {
                old(self)@.woken()
            } else {
                old(self)@
            }),
    {
        match self.sealing_work.peek_last_ref() {
            Some(_) => false,
            None => {
                self.sealing_enabled = true;
                true
            },
        }
    }

    /// Hands out the block on top of the work, if there is one, as seen through `f`. The block
    /// is in use from then on, and block `number` is the last one at which work was asked for.
    pub fn map_sealing_work<F: FnOnce(&ClosedBlock<P>) -> T, T>(&mut self, number: u64, f: F) -> (r:
        Option<T>)
        requires
            old(self).wf(),
            forall|b: &ClosedBlock<P>| #[trigger] call_requires(f, (b,)),
        ensures
            final(self).wf(),
            final(self)@ == old(self)@.served(number as nat),
            r is Some <==> old(self)@.work.last() is Some,
            r matches Some(t) ==> call_ensures(f, (&old(self)@.work.last()->0,), t),
    {
        if self.sealing_block_last_request != number {
            self.sealing_block_last_request = number;
        }
        match self.sealing_work.use_last_ref() {
            Some(b) => Some(f(b)),
            None => None,
        }
    }

    /// Begins to submit a seal that was found for the block with hash `pow_hash`. A block in use
    /// comes before one that was solved. The seal is tried on a copy.
    pub fn submit_seal<E>(&self, pow_hash: &H256, seal: Vec<Bytes>) -> (r: SealSubmission<P, E>)
        where P: Clone
        ensures
            match r {
                SealSubmission::TrySeal(block, given) => {
                    &&& self@.is_submittable(*pow_hash)
                    &&& self@.is_work_at(self@.work_index(*pow_hash), *pow_hash)
                    &&& self@.submittable()[self@.work_index(*pow_hash)].copied_as(block)
                    &&& given == seal
                },
                SealSubmission::Import(_) => false,
                SealSubmission::Finished(result) => {
                    &&& !self@.is_submittable(*pow_hash)
                    &&& result == Err::<(), Error<E>>(Error::PowHashInvalid)
                },
            },
    {
        proof {
            lemma_work_at(self@, *pow_hash);
        }
        if let Some(b) = copy_of_block(&self.sealing_work, pow_hash) {
            proof {
                let i = choose|i: int| is_first_with(self@.work.in_use, i, *pow_hash)
                    && self@.work.in_use[i].copied_as(b);
                assert(self@.is_work_at(i, *pow_hash));
            }
            return SealSubmission::TrySeal(b, seal);
        }
        match copy_of_block(&self.solved, pow_hash) {
            Some(b) => {
                proof {
                    let i = choose|i: int| is_first_with(self@.solved.in_use, i, *pow_hash)
                        && self@.solved.in_use[i].copied_as(b);
                    assert(self@.is_work_at(self@.work.in_use.len() + i, *pow_hash));
                }
                SealSubmission::TrySeal(b, seal)
            },
            None => SealSubmission::Finished(Err(Error::PowHashInvalid)),
        }
    }

    /// Goes on with a submission for `pow_hash` once the seal has been tried: `sealed` holds the
    /// encoded block, or nothing where the seal does not fit. Then the block is dropped.
    pub fn seal_tried<E>(&mut self, pow_hash: &H256, sealed: Option<Bytes>) -> (r: SealSubmission<
        P,
        E,
    >)
        requires
            old(self).wf(),
        ensures
            final(self).wf(),
            final(self)@ == old(self)@.seal_was_tried(*pow_hash, sealed),
            r == submission_after_try::<P, E>(sealed),
    {
        match sealed {
            Some(bytes) => SealSubmission::Import(bytes),
            None => {
                self.drop_work(pow_hash);
                SealSubmission::Finished(Err(Error::PowInvalid))
            },
        }
    }

    /// Ends a submission for `pow_hash` once the chain has answered to the sealed block. A block
    /// that the chain imported is no work any more, but can be submitted again. One that the
    /// chain refuses is dropped.
    pub fn block_imported<E>(&mut self, pow_hash: &H256, imported: Result<(), E>) -> (r:
        SealSubmission<P, E>)
        requires
            old(self).wf(),
        ensures
            final(self).wf(),
            final(self)@ == old(self)@.block_was_imported(*pow_hash, imported),
            r == submission_after_import::<P, E>(imported),
    {
        match imported {
            Ok(_) => {
                self.solve_work(pow_hash);
                SealSubmission::Finished(Ok(()))
            },
            Err(e) => {
                self.drop_work(pow_hash);
                SealSubmission::Finished(Err(Error::Import(e)))
            },
        }
    }

    /// Drops the first block with hash `pow_hash` that can be submitted, if there is one.
    fn drop_work(&mut self, pow_hash: &H256)
        requires
            old(self).wf(),
        ensures
            final(self).wf(),
            final(self)@ == old(self)@.dropped(*pow_hash),
    {
        let ghost s = self@;
        proof {
            lemma_work_at(s, *pow_hash);
        }
        if take_block(&mut self.sealing_work, pow_hash).is_some() {
            proof {
                let i = choose|i: int| is_first_with(s.work.in_use, i, *pow_hash)
                    && self@.work == s.work.without_used(i);
                assert(s.is_work_at(i, *pow_hash));
            }
        } else if take_block(&mut self.solved, pow_hash).is_some() {
            proof {
                let i = choose|i: int| is_first_with(s.solved.in_use, i, *pow_hash)
                    && self@.solved == s.solved.without_used(i);
                assert(s.is_work_at(s.work.in_use.len() + i, *pow_hash));
            }
        }
    }

    /// Counts the oldest block in use with hash `pow_hash`, if there is one, as solved.
    fn solve_work(&mut self, pow_hash: &H256)
        requires
            old(self).wf(),
        ensures
            final(self).wf(),
            final(self)@ == old(self)@.accepted(*pow_hash),
    {
        let ghost s = self@;
        proof {
            lemma_work_at(s, *pow_hash);
        }
        if let Some(b) = take_block(&mut self.sealing_work, pow_hash) {
            proof {
                let i = choose|i: int| is_first_with(s.work.in_use, i, *pow_hash)
                    && b == s.work.in_use[i] && self@.work == s.work.without_used(i);
                assert(s.is_work_at(i, *pow_hash));
            }
            self.solved.push(b);
            self.solved.use_last_ref();
        }
    }

    /// Whether work is being prepared.
    pub fn sealing_enabled(&self) -> (r: bool)
        ensures
            r == self@.sealing_enabled,
    {
        self.sealing_enabled
    }

    /// The counts of transactions, given those in the queue.
    pub fn status(&self, queue: TransactionQueueStatus) -> (r: MinerStatus)
        ensures
            r.transactions_in_pending_queue == queue.pending,
            r.transactions_in_future_queue == queue.future,
            r.transactions_in_pending_block == match self@.work.last() {
                Some(b) => b.transaction_count,
                None => 0,
            },
    {
        MinerStatus {
            transactions_in_pending_queue: queue.pending,
            transactions_in_future_queue: queue.future,
            transactions_in_pending_block: match self.sealing_work.peek_last_ref() {
                Some(b) => b.transaction_count,
                None => 0,
            },
        }
    }

    /// A sensible gas price: one tenth above the least one, rounded down.
    pub fn sensible_gas_price(&self) -> (r: U256)
        requires
            self@.minimal_gas_price * 110 < crate::uint::u256_base(),
        ensures
            r@ == self@.minimal_gas_price * 110 / 100,
    {
        match self.minimal_gas_price.checked_mul(110) {
            Some(price) => price.div(100),
            None => U256::zero(),
        }
    }
}

/// Gives a copy of the oldest used block with hash `pow_hash`.
fn copy_of_block<P: Clone>(queue: &UsingQueue<ClosedBlock<P>>, pow_hash: &H256) -> (r: Option<
    ClosedBlock<P>,
>)
    ensures
        match r {
            Some(b) => exists|i: int|
                #[trigger] is_first_with(queue@.in_use, i, *pow_hash)
                    && queue@.in_use[i].copied_as(b),
            None => !has_block(queue@.in_use, *pow_hash),
        },
{
    let has_hash = |b: &ClosedBlock<P>| -> (r: bool)
        ensures
            r == (b.hash == *pow_hash),
        { b.hash == *pow_hash };
    let copy = queue.get_used_if(has_hash);
    proof {
        if copy is Some {
            let b = copy->0;
            let i = choose|i: int|
                {
                    &&& 0 <= i < queue@.in_use.len()
                    &&& cloned::<ClosedBlock<P>>(#[trigger] queue@.in_use[i], b)
                    &&& call_ensures(has_hash, (&queue@.in_use[i],), true)
                    &&& forall|j: int|
                        0 <= j < i ==> call_ensures(
                            has_hash,
                            (&#[trigger] queue@.in_use[j],),
                            false,
                        )
                };
            assert(is_first_with(queue@.in_use, i, *pow_hash));
        }
    }
    copy
}

/// Takes out the oldest used block with hash `pow_hash`.
fn take_block<P>(queue: &mut UsingQueue<ClosedBlock<P>>, pow_hash: &H256) -> (r: Option<
    ClosedBlock<P>,
>)
    requires
        old(queue).wf(),
    ensures
        final(queue).wf(),
        match r {
            Some(b) => exists|i: int|
                {
                    &&& #[trigger] is_first_with(old(queue)@.in_use, i, *pow_hash)
                    &&& b == old(queue)@.in_use[i]
                    &&& final(queue)@ == old(queue)@.without_used(i)
                },
            None => {
                &&& !has_block(old(queue)@.in_use, *pow_hash)
                &&& final(queue)@ == old(queue)@
            },
        },
{
    let has_hash = |b: &ClosedBlock<P>| -> (r: bool)
        ensures
            r == (b.hash == *pow_hash),
        { b.hash == *pow_hash };
    let taken = queue.take_used_if(has_hash);
    proof {
        if taken is Some {
            let b = taken->0;
            let i = choose|i: int|
                {
                    &&& 0 <= i < old(queue)@.in_use.len()
                    &&& b == #[trigger] old(queue)@.in_use[i]
                    &&& call_ensures(has_hash, (&b,), true)
                    &&& forall|j: int|
                        0 <= j < i ==> call_ensures(
                            has_hash,
                            (&#[trigger] old(queue)@.in_use[j],),
                            false,
                        )
                    &&& queue@ == old(queue)@.without_used(i)
                };
            assert(is_first_with(old(queue)@.in_use, i, *pow_hash));
        }
    }
    taken
}

/// The step of a submission that follows once the seal has been tried.
pub open spec fn submission_after_try<P, E>(sealed: Option<Bytes>) -> SealSubmission<P, E> {
    match sealed {
        Some(bytes) => SealSubmission::Import(bytes),
        None => SealSubmission::Finished(Err(Error::PowInvalid)),
    }
}

/// The end of a submission once the chain has answered.
pub open spec fn submission_after_import<P, E>(imported: Result<(), E>) -> SealSubmission<P, E> {
    SealSubmission::Finished(
        match imported {
            Ok(_) => Ok(()),
            Err(e) => Err(Error::Import(e)),
        },
    )
}

/// A seal for a block that can be submitted is accepted exactly where it fits and the chain imports the block.
/// A block whose seal does not fit is never imported.
pub proof fn law_seal_accepted<P, E>(sealed: Option<Bytes>, imported: Result<(), E>)
    ensures
        submission_after_try::<P, E>(sealed) is Import <==> sealed is Some,
        sealed matches Some(bytes) ==> submission_after_try::<P, E>(sealed)
            == SealSubmission::<P, E>::Import(bytes),
        sealed is None ==> submission_after_try::<P, E>(sealed) == SealSubmission::<
            P,
            E,
        >::Finished(Err(Error::PowInvalid)),
        submission_after_import::<P, E>(imported) == SealSubmission::<P, E>::Finished(Ok(()))
            <==> imported is Ok,
        imported matches Err(e) ==> submission_after_import::<P, E>(imported) == SealSubmission::<
            P,
            E,
        >::Finished(Err(Error::Import(e))),
{
}

} // verus!
