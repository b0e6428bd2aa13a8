//! What the operations of a miner do, said of the fields of its state alone.
use crate::block::ClosedBlock;
use crate::hash::{Address, Bytes, H256};
use crate::miner::{MinerView, SealingAction, SealingEvent, SealingUpdate, Setting, StageView};
use crate::pushing::{PushOutcome, PushingView};
use crate::uint::U256;
use crate::using_queue::QueueView;
use vstd::prelude::*;

verus! {

/// A new miner has the zero address as author, no extra data, limits and prices of zero, does not
/// prepare work, has none, and will keep five blocks in use and five solved ones.
pub proof fn law_new_miner<P>()
    ensures
        ({
            let s = MinerView::<P>::initial();
            &&& s.wf()
            &&& s.author.len() == 20
            &&& forall|i: int| 0 <= i < 20 ==> #[trigger] s.author[i] == 0
            &&& s.extra_data.len() == 0
            &&& s.gas_floor_target == 0
            &&& s.minimal_gas_price == 0
            &&& !s.sealing_enabled
            &&& s.last_request == 0
            &&& s.work.pending is None
            &&& s.work.in_use.len() == 0
            &&& s.work.max_size == 5
            &&& s.solved.pending is None
            &&& s.solved.in_use.len() == 0
            &&& s.solved.max_size == 5
            &&& s.stage is Idle
        }),
{
}

/// A state is one that a miner can be in exactly where at most five blocks are in use, at most
/// five are kept that were solved, and a transaction that is being pushed is there.
pub proof fn law_states_of_a_miner<P>(s: MinerView<P>)
    ensures
        s.wf() <==> {
            &&& s.work.max_size == 5
            &&& s.work.in_use.len() <= 5
            &&& s.solved.max_size == 5
            &&& s.solved.in_use.len() <= 5
            &&& s.solved.pending is None
            &&& s.stage matches StageView::Pushing(p) ==> !p.full && p.next < p.transactions.len()
        },
{
}

/// A setting is read back as it was set, and a change of one setting changes nothing else.
pub proof fn law_setting_is_read_back<P>(
    s: MinerView<P>,
    author: Address,
    extra_data: Bytes,
    target: U256,
    price: U256,
)
    ensures
        s.with_setting(Setting::Author(author)) == (MinerView { author: author.0@, ..s }),
        s.with_setting(Setting::ExtraData(extra_data)) == (MinerView {
            extra_data: extra_data@,
            ..s
        }),
        s.with_setting(Setting::GasFloorTarget(target)) == (MinerView {
            gas_floor_target: target@,
            ..s
        }),
        s.with_setting(Setting::MinimalGasPrice(price)) == (MinerView {
            minimal_gas_price: price@,
            ..s
        }),
{
}

/// The last of two values for a setting counts, and settings can be changed in any order.
pub proof fn law_settings_are_independent<P>(
    s: MinerView<P>,
    author: Address,
    other: Address,
    extra_data: Bytes,
    target: U256,
    price: U256,
)
    ensures
        ({
            let forth = s.with_setting(Setting::Author(author)).with_setting(
                Setting::ExtraData(extra_data),
            ).with_setting(Setting::GasFloorTarget(target)).with_setting(
                Setting::MinimalGasPrice(price),
            );
            let back = s.with_setting(Setting::MinimalGasPrice(price)).with_setting(
                Setting::GasFloorTarget(target),
            ).with_setting(Setting::ExtraData(extra_data)).with_setting(Setting::Author(author));
            &&& forth == back
            &&& forth.author == author.0@
            &&& forth.extra_data == extra_data@
            &&& forth.gas_floor_target == target@
            &&& forth.minimal_gas_price == price@
        }),
        s.with_setting(Setting::Author(other)).with_setting(Setting::Author(author))
            == s.with_setting(Setting::Author(author)),
{
}

/// Each event of a preparation is awaited in its own stage and in no other. A block that answers
/// to a transaction never claims to have used more gas than its limit.
pub proof fn law_stages_await_events<P>(
    s: MinerView<P>,
    best_hash: H256,
    hashes: Vec<H256>,
    outcome: PushOutcome,
    block: ClosedBlock<P>,
    made: Option<ClosedBlock<P>>,
)
    ensures
        s.awaits(SealingEvent::Start { best_hash, transactions: hashes }) <==> s.stage is Idle,
        s.awaits(SealingEvent::Reopened) <==> s.stage is Opening,
        s.awaits(SealingEvent::Pushed(outcome)) <==> {
            &&& s.stage is Pushing
            &&& outcome matches PushOutcome::GasLimitReached { gas_limit, gas_used } ==> gas_used@
                <= gas_limit@
        },
        s.awaits(SealingEvent::Closed(block)) <==> s.stage is Closing,
        s.awaits(SealingEvent::Authored { block: made, invalid: hashes }) <==> s.stage is Authoring,
        s.awaits(SealingEvent::Removed) <==> s.stage is Removing,
{
}

/// A preparation that starts on `best_hash` opens a block again if and only if there is a block on
/// top of the work and its parent is `best_hash`. The opened block is a copy of that one.
/// Otherwise the chain makes a new block with the settings of the miner, out of all the
/// transactions that were given.
pub proof fn law_start_reopens_only_work_on_best<P: Clone>(
    s: MinerView<P>,
    best_hash: H256,
    transactions: Vec<H256>,
    action: SealingAction<P>,
)
    requires
        s.sealing_action(SealingEvent::Start { best_hash, transactions }, action),
    ensures
        action is Reopen <==> {
            ||| s.work.pending matches Some(b) && b.parent_hash == best_hash
            ||| s.work.pending is None && s.work.in_use.len() > 0
                && s.work.in_use.last().parent_hash == best_hash
        },
        action is Reopen <==> s.work.last() is Some && s.work.last()->0.parent_hash == best_hash,
        action matches SealingAction::Reopen(block) ==> {
            let top = if s.work.pending is Some {
                s.work.pending->0
            } else {
                s.work.in_use.last()
            };
            &&& block.parent_hash == best_hash
            &&& block.header_hash == top.header_hash
            &&& block.hash == top.hash
            &&& block.transaction_count == top.transaction_count
            &&& cloned::<P>(top.body, block.body)
        },
        !(action is Reopen) ==> {
            action matches SealingAction::Author {
                author,
                gas_floor_target,
                extra_data,
                transactions: offered,
            } && {
                &&& author.0@ == s.author
                &&& gas_floor_target@ == s.gas_floor_target
                &&& extra_data@ == s.extra_data
                &&& offered@ == transactions@
            }
        },
{
}

/// Starting a preparation changes nothing but the stage: it is opening a block with all
/// transactions still to push where the block on top of the work extends `best_hash`, and waiting
/// for the chain to make one otherwise.
pub proof fn law_start_changes_only_the_stage<P>(
    s: MinerView<P>,
    best_hash: H256,
    transactions: Vec<H256>,
)
    ensures
        ({
            let t = s.sealing(SealingEvent::Start { best_hash, transactions });
            &&& t == (MinerView { stage: t.stage, ..s })
            &&& t.stage is Opening <==> {
                ||| s.work.pending matches Some(b) && b.parent_hash == best_hash
                ||| s.work.pending is None && s.work.in_use.len() > 0
                    && s.work.in_use.last().parent_hash == best_hash
            }
            &&& !(t.stage is Opening) ==> t.stage is Authoring
            &&& t.stage matches StageView::Opening(p) ==> {
                &&& p.transactions == transactions@
                &&& p.next == 0
                &&& !p.full
                &&& !p.imported
                &&& p.invalid.len() == 0
            }
        }),
{
}

/// Once a block has been opened again, its next transaction is pushed. Where there is none and it
/// took none in, the invalid ones leave the queue and no block comes out. Nothing but the stage
/// changes.
pub proof fn law_reopened_block_is_filled<P: Clone>(
    s: MinerView<P>,
    p: PushingView,
    action: SealingAction<P>,
)
    requires
        s.stage == StageView::<P>::Opening(p),
        s.sealing_action(SealingEvent::Reopened, action),
    ensures
        ({
            let t = s.sealing(SealingEvent::Reopened);
            let more = !p.full && p.next < p.transactions.len();
            &&& t == (MinerView { stage: t.stage, ..s })
            &&& more ==> {
                &&& t.stage == StageView::<P>::Pushing(p)
                &&& action matches SealingAction::Push(i) && i == p.next
            }
            &&& !more && p.imported ==> {
                &&& t.stage == StageView::<P>::Closing(p.invalid)
                &&& action is Close
            }
            &&& !more && !p.imported ==> {
                &&& t.stage == (StageView::<P>::Removing { block: None, refreshed: true })
                &&& action matches SealingAction::Remove(hashes) && hashes@ == p.invalid
            }
        }),
{
}

/// The answer to a transaction counts: a failure makes the transaction invalid, once, and an import
/// makes the block worth closing. The next transaction follows unless there is none or the block
/// has less than 21000 gas left. Then the block is closed where it took a transaction in. Where it
/// took none, the invalid ones leave the queue and no block comes out. Nothing but the stage
/// changes.
pub proof fn law_answer_to_a_transaction<P: Clone>(
    s: MinerView<P>,
    q: PushingView,
    outcome: PushOutcome,
    action: SealingAction<P>,
)
    requires
        s.stage == StageView::<P>::Pushing(q),
        s.sealing_action(SealingEvent::Pushed(outcome), action),
    ensures
        ({
            let t = s.sealing(SealingEvent::Pushed(outcome));
            let full = outcome matches PushOutcome::GasLimitReached { gas_limit, gas_used }
                && gas_limit@ - gas_used@ < 21000;
            let more = !full && q.next + 1 < q.transactions.len();
            let imported = q.imported || outcome is Imported;
            let hash = q.transactions[q.next as int];
            let invalid = if outcome is Failed && !q.invalid.contains(hash) {
                q.invalid.push(hash)
            } else {
                q.invalid
            };
            &&& t == (MinerView { stage: t.stage, ..s })
            &&& more ==> {
                &&& t.stage == StageView::<P>::Pushing(
                    PushingView {
                        transactions: q.transactions,
                        next: q.next + 1,
                        full: false,
                        imported,
                        invalid,
                    },
                )
                &&& action matches SealingAction::Push(i) && i == q.next + 1
            }
            &&& !more && imported ==> {
                &&& t.stage == StageView::<P>::Closing(invalid)
                &&& action is Close
            }
            &&& !more && !imported ==> {
                &&& t.stage == (StageView::<P>::Removing { block: None, refreshed: true })
                &&& action matches SealingAction::Remove(hashes) && hashes@ == invalid
            }
        }),
{
}

/// Once a block that was opened again has been closed, exactly the transactions that turned out
/// invalid are removed from the queue, and the closed block waits to take the place of the opened
/// one.
pub proof fn law_closed_block_waits_for_removal<P: Clone>(
    s: MinerView<P>,
    invalid: Seq<H256>,
    block: ClosedBlock<P>,
    action: SealingAction<P>,
)
    requires
        s.stage == StageView::<P>::Closing(invalid),
        s.sealing_action(SealingEvent::Closed(block), action),
    ensures
        s.sealing(SealingEvent::Closed(block)) == (MinerView {
            stage: StageView::Removing { block: Some(block), refreshed: true },
            ..s
        }),
        action matches SealingAction::Remove(hashes) && hashes@ == invalid,
{
}

/// Once the chain has tried to make a block, exactly the transactions that it found invalid are
/// removed from the queue, whether or not a block came out. A block that did waits to become work.
pub proof fn law_authored_removes_what_is_invalid<P: Clone>(
    s: MinerView<P>,
    block: Option<ClosedBlock<P>>,
    invalid: Vec<H256>,
    action: SealingAction<P>,
)
    requires
        s.sealing_action(SealingEvent::Authored { block, invalid }, action),
    ensures
        action matches SealingAction::Remove(hashes) && hashes@ == invalid@,
        s.sealing(SealingEvent::Authored { block, invalid }) == (MinerView {
            stage: StageView::Removing { block, refreshed: false },
            ..s
        }),
{
}

/// A preparation ends with its block on top of the work. A pending block that was opened again for
/// it is gone, and so is any other pending one that it replaces. It is not put there where the
/// header hash on top is its own already. Where no block came out, the work stays as it is. The
/// blocks in use, the solved ones and all settings stay in any case.
pub proof fn law_preparation_ends_with_block_on_top<P: Clone>(
    s: MinerView<P>,
    block: Option<ClosedBlock<P>>,
    refreshed: bool,
    action: SealingAction<P>,
)
    requires
        s.stage == (StageView::<P>::Removing { block, refreshed }),
        s.sealing_action(SealingEvent::Removed, action),
    ensures
        action is Done,
        ({
            let t = s.sealing(SealingEvent::Removed);
            let kept = if refreshed {
                None
            } else {
                s.work.pending
            };
            let is_there = |b: ClosedBlock<P>|
                {
                    ||| kept is Some && kept->0.header_hash == b.header_hash
                    ||| kept is None && s.work.in_use.len() > 0
                        && s.work.in_use.last().header_hash == b.header_hash
                };
            &&& t == (MinerView {
                stage: StageView::Idle,
                work: QueueView { pending: t.work.pending, ..s.work },
                ..s
            })
            &&& block is None ==> t.work.pending == s.work.pending
            &&& block matches Some(b) ==> if is_there(b) {
                t.work.pending == kept
            } else {
                t.work.pending == Some(b)
            }
        }),
{
}

/// A miner that prepares work falls asleep at exactly the block numbers that are more than five
/// above the one at which work was last asked for. It then has neither work nor blocks that could
/// be submitted, and keeps its settings. Below that it goes on, as it is. A miner that does not
/// prepare work stays as it is.
pub proof fn law_forgotten_miner_falls_asleep<P>(s: MinerView<P>, number: nat)
    ensures
        s.sealing_update(number) is FellAsleep <==> s.sealing_enabled && number > s.last_request
            + 5,
        s.sealing_update(number) is Prepare <==> s.sealing_enabled && number <= s.last_request + 5,
        s.sealing_update(number) is Asleep <==> !s.sealing_enabled,
        s.sealing_enabled && number > s.last_request + 5 ==> s.decided(number) == (MinerView {
            sealing_enabled: false,
            work: QueueView { pending: None, in_use: Seq::empty(), ..s.work },
            solved: QueueView { pending: None, in_use: Seq::empty(), ..s.solved },
            ..s
        }),
        !(s.sealing_enabled && number > s.last_request + 5) ==> s.decided(number) == s,
{
}

/// A miner that falls asleep at some block would do so at every later one, and would go on at every
/// earlier one at which it does not fall asleep.
pub proof fn law_sleep_is_monotone<P>(s: MinerView<P>, number: nat, later: nat)
    requires
        number <= later,
    ensures
        s.sealing_update(number) is FellAsleep ==> s.sealing_update(later) is FellAsleep,
        s.sealing_update(later) is Prepare ==> s.sealing_update(number) is Prepare,
{
}

/// A miner that is woken prepares work, and is otherwise as it was.
pub proof fn law_woken_miner_prepares<P>(s: MinerView<P>, number: nat)
    ensures
        s.woken() == (MinerView { sealing_enabled: true, ..s }),
        number <= s.last_request + 5 ==> s.woken().sealing_update(number) is Prepare,
{
}

/// Handing out work notes the number of the best block and makes a pending block the newest one in
/// use, where the oldest one leaves if more than the limit would be. Where nothing is pending, the
/// work stays as it is.
pub proof fn law_handing_out_work<P>(s: MinerView<P>, number: nat)
    ensures
        s.work.pending is None ==> s.served(number) == (MinerView { last_request: number, ..s }),
        s.work.pending matches Some(b) ==> s.served(number) == (MinerView {
            last_request: number,
            work: QueueView {
                pending: None,
                in_use: if s.work.in_use.len() < s.work.max_size {
                    s.work.in_use.push(b)
                } else {
                    s.work.in_use.push(b).drop_first()
                },
                ..s.work
            },
            ..s
        }),
{
}

/// A seal can be submitted for exactly the hashes of the blocks in use and of the solved ones. The
/// block that it is tried on is the oldest one in use with the hash, or the oldest solved one where
/// none in use has it.
pub proof fn law_seal_finds_its_block<P>(s: MinerView<P>, pow_hash: H256)
    ensures
        s.is_in_use(pow_hash) <==> exists|i: int|
            0 <= i < s.work.in_use.len() && (#[trigger] s.work.in_use[i]).hash == pow_hash,
        s.is_solved(pow_hash) <==> exists|i: int|
            0 <= i < s.solved.in_use.len() && (#[trigger] s.solved.in_use[i]).hash == pow_hash,
        s.is_submittable(pow_hash) <==> s.is_in_use(pow_hash) || s.is_solved(pow_hash),
        s.is_in_use(pow_hash) ==> {
            let k = s.work_index(pow_hash);
            &&& 0 <= k < s.work.in_use.len()
            &&& s.work.in_use[k].hash == pow_hash
            &&& s.submittable()[k] == s.work.in_use[k]
            &&& forall|j: int| 0 <= j < k ==> (#[trigger] s.work.in_use[j]).hash != pow_hash
        },
        !s.is_in_use(pow_hash) && s.is_solved(pow_hash) ==> {
            let k = s.work_index(pow_hash) - s.work.in_use.len();
            &&& 0 <= k < s.solved.in_use.len()
            &&& s.solved.in_use[k].hash == pow_hash
            &&& s.submittable()[s.work_index(pow_hash)] == s.solved.in_use[k]
            &&& forall|j: int| 0 <= j < k ==> (#[trigger] s.solved.in_use[j]).hash != pow_hash
        },
{
    crate::miner::lemma_work_at(s, pow_hash);
    let k = s.work_index(pow_hash);
    let n = s.work.in_use.len();
    if s.is_in_use(pow_hash) {
        assert forall|j: int| 0 <= j < k implies (#[trigger] s.work.in_use[j]).hash != pow_hash by {
            assert(s.submittable()[j].hash != pow_hash);
        }
    } else if s.is_solved(pow_hash) {
        assert forall|j: int| 0 <= j < k - n implies (#[trigger] s.solved.in_use[j]).hash
            != pow_hash by {
            assert(s.submittable()[n + j].hash != pow_hash);
        }
    }
}

/// A seal that does not fit, and one whose block the chain refuses, take away the block that it was
/// tried on and nothing else. A hash that no block has changes nothing, and neither does a seal
/// that fits before the chain has answered.
pub proof fn law_refused_seal_takes_its_block_away<P, E>(
    s: MinerView<P>,
    pow_hash: H256,
    sealed: Bytes,
    error: E,
)
    ensures
        ({
            let t = s.seal_was_tried(pow_hash, None);
            let k = s.work_index(pow_hash);
            &&& s.block_was_imported(pow_hash, Err::<(), E>(error)) == t
            &&& s.is_in_use(pow_hash) ==> t == (MinerView {
                work: QueueView { in_use: s.work.in_use.remove(k), ..s.work },
                ..s
            })
            &&& !s.is_in_use(pow_hash) && s.is_solved(pow_hash) ==> t == (MinerView {
                solved: QueueView {
                    in_use: s.solved.in_use.remove(k - s.work.in_use.len()),
                    ..s.solved
                },
                ..s
            })
            &&& !s.is_in_use(pow_hash) && !s.is_solved(pow_hash) ==> t == s
        }),
        s.seal_was_tried(pow_hash, Some(sealed)) == s,
{
}

/// A seal that is accepted takes its block out of those in use and makes it the newest solved one,
/// where the oldest one leaves if more than the limit would be. Nothing else changes, and nothing
/// at all where the block was solved before.
pub proof fn law_accepted_seal_moves_its_block<P, E>(s: MinerView<P>, pow_hash: H256)
    ensures
        ({
            let t = s.block_was_imported(pow_hash, Ok::<(), E>(()));
            let k = s.work_index(pow_hash);
            &&& s.is_in_use(pow_hash) ==> t == (MinerView {
                work: QueueView { in_use: s.work.in_use.remove(k), ..s.work },
                solved: QueueView {
                    pending: None,
                    in_use: if s.solved.in_use.len() < s.solved.max_size {
                        s.solved.in_use.push(s.work.in_use[k])
                    } else {
                        s.solved.in_use.push(s.work.in_use[k]).drop_first()
                    },
                    ..s.solved
                },
                ..s
            })
            &&& !s.is_in_use(pow_hash) ==> t == s
        }),
{
}

} // verus!
