//! Offering queued transactions to a block that has been opened again.
use crate::hash::H256;
use crate::uint::U256;
use vstd::prelude::*;

verus! {

/// Gas that the cheapest transaction takes.
pub const MIN_TX_GAS: u64 = 21000;

/// How a block answered to a transaction that was pushed onto it.
#[derive(Clone, Copy, Debug)]
pub enum PushOutcome {
    /// The transaction is in the block now.
    Imported,
    /// The transaction does not fit into the gas that the block has left.
    GasLimitReached { gas_limit: U256, gas_used: U256 },
    /// The block holds the transaction already.
    AlreadyImported,
    /// The transaction was refused for any other reason.
    Failed,
}

impl PushOutcome {
    /// No block uses more gas than its limit.
    pub open spec fn wf(self) -> bool {
        self matches PushOutcome::GasLimitReached { gas_limit, gas_used } ==> gas_used@
            <= gas_limit@
    }

    /// The block is so full that not even the cheapest transaction fits.
    pub open spec fn is_full(self) -> bool {
        self matches PushOutcome::GasLimitReached { gas_limit, gas_used } && gas_limit@ - gas_used@
            < MIN_TX_GAS
    }

    /// Whether the block is so full that not even the cheapest transaction fits.
    ///
    /// An answer that claims more gas used than the limit allows is no answer of a block.
    pub fn full(&self) -> (r: bool)
        requires
            self.wf(),
        ensures
            r == self.is_full(),
    {
        match self {
            PushOutcome::GasLimitReached { gas_limit, gas_used } => match gas_limit.checked_sub(
                gas_used,
            ) {
                Some(left) => left.is_less(&U256::from_u64(MIN_TX_GAS)),
                None => false,
            },
            _ => false,
        }
    }
}

/// The state of a [`Pushing`].
#[verifier::ext_equal]
pub struct PushingView {
    /// Hashes of the transactions on offer, best first.
    pub transactions: Seq<H256>,
    /// How many of them have been pushed.
    pub next: nat,
    /// The block is full.
    pub full: bool,
    /// The block took one of them in.
    pub imported: bool,
    /// Hashes of the transactions that turned out invalid, each once.
    pub invalid: Seq<H256>,
}

impl PushingView {
    /// Nothing has been pushed yet.
    pub open spec fn start(transactions: Seq<H256>) -> PushingView {
        PushingView { transactions, next: 0, full: false, imported: false, invalid: Seq::empty() }
    }

    /// There is no more to push.
    pub open spec fn is_done(self) -> bool {
        self.full || self.next >= self.transactions.len()
    }

    /// The state after the block answered `outcome` to the next transaction.
    pub open spec fn after(self, outcome: PushOutcome) -> PushingView {
        PushingView {
            transactions: self.transactions,
            next: self.next + 1,
            full: outcome.is_full(),
            imported: self.imported || outcome is Imported,
            invalid: if outcome is Failed {
                crate::hash::with_item(self.invalid, self.transactions[self.next as int])
            } else {
                self.invalid
            },
        }
    }

    /// The state after all of `outcomes`, one after the other.
    pub open spec fn after_all(self, outcomes: Seq<PushOutcome>) -> PushingView
        decreases outcomes.len(),
    {
        if outcomes.len() == 0 {
            self
        } else {
            self.after_all(outcomes.drop_last()).after(outcomes.last())
        }
    }
}

/// Offers transactions to a block, one at a time, until they or the block's gas run out.
pub struct Pushing {
    transactions: Vec<H256>,
    next: usize,
    full: bool,
    imported: bool,
    invalid: Vec<H256>,
}

impl View for Pushing {
    type V = PushingView;

    closed spec fn view(&self) -> PushingView {
        PushingView {
            transactions: self.transactions@,
            next: self.next as nat,
            full: self.full,
            imported: self.imported,
            invalid: self.invalid@,
        }
    }
}

impl Pushing {
    /// Starts with the first of `transactions`.
    pub fn new(transactions: Vec<H256>) -> (r: Pushing)
        ensures
            r@ == PushingView::start(transactions@),
    {
        Pushing { transactions, next: 0, full: false, imported: false, invalid: Vec::new() }
    }

    /// The position of the transaction to push next, or `None` where there is no more to push.
    pub fn next_transaction(&self) -> (r: Option<usize>)
        ensures
            r is None <==> self@.is_done(),
            r matches Some(i) ==> i == self@.next,
    {
        if self.full || self.next >= self.transactions.len() {
            None
        } else {
            Some(self.next)
        }
    }

    /// Takes in how the block answered to the transaction that was to be pushed next.
    pub fn record(&mut self, outcome: PushOutcome)
        requires
            !old(self)@.is_done(),
            outcome.wf(),
        ensures
            final(self)@ == old(self)@.after(outcome),
    {
        self.full = outcome.full();
        match outcome {
            PushOutcome::Imported => {
                self.imported = true;
            },
            PushOutcome::Failed => {
                let hash = self.transactions[self.next];
                crate::hash::insert_hash(&mut self.invalid, hash);
            },
            _ => {},
        }
        assert(self.next < self.transactions.len());
        self.next += 1;
    }

    /// Whether the block took a transaction in.
    pub fn imported_any(&self) -> (r: bool)
        ensures
            r == self@.imported,
    {
        self.imported
    }

    /// Hashes of the transactions that the block refused as invalid. They are to leave the queue.
    pub fn into_invalid(self) -> (r: Vec<H256>)
        ensures
            r@ == self@.invalid,
    {
        self.invalid
    }
}

/// Pushing a list of transactions and being answered with `outcomes`: each answer but the last
/// left room for more, as many transactions were pushed as there are answers, the block took one
/// in where an answer says so, and exactly the transactions that were answered with a failure are
/// invalid, each listed once.
pub proof fn law_pushing_run(transactions: Seq<H256>, outcomes: Seq<PushOutcome>)
    requires
        outcomes.len() <= transactions.len(),
        forall|i: int| 0 <= i < outcomes.len() - 1 ==> !#[trigger] outcomes[i].is_full(),
    ensures
        ({
            let end = PushingView::start(transactions).after_all(outcomes);
            &&& end.transactions == transactions
            &&& end.next == outcomes.len()
            &&& end.full <==> outcomes.len() > 0 && outcomes.last().is_full()
            &&& end.imported <==> exists|i: int|
                0 <= i < outcomes.len() && #[trigger] outcomes[i] is Imported
            &&& end.invalid.no_duplicates()
            &&& forall|h: H256| #[trigger]
                end.invalid.contains(h) <==> exists|i: int|
                    0 <= i < outcomes.len() && #[trigger] outcomes[i] is Failed && transactions[i]
                        == h
        }),
    decreases outcomes.len(),
{
    let start = PushingView::start(transactions);
    if outcomes.len() > 0 {
        let head = outcomes.drop_last();
        law_pushing_run(transactions, head);
        let mid = start.after_all(head);
        let end = start.after_all(outcomes);
        let n = head.len() as int;
        assert(end == mid.after(outcomes.last()));
        assert(end.imported <==> exists|i: int|
            0 <= i < outcomes.len() && #[trigger] outcomes[i] is Imported) by {
            if mid.imported {
                let i = choose|i: int| 0 <= i < head.len() && #[trigger] head[i] is Imported;
                assert(outcomes[i] is Imported);
            }
            if outcomes.last() is Imported {
                assert(outcomes[n] is Imported);
            }
            if exists|i: int| 0 <= i < outcomes.len() && #[trigger] outcomes[i] is Imported {
                let i = choose|i: int|
                    0 <= i < outcomes.len() && #[trigger] outcomes[i] is Imported;
                if i < n {
                    assert(head[i] is Imported);
                }
            }
        }
        assert forall|h: H256| #[trigger] end.invalid.contains(h) implies exists|i: int|
            0 <= i < outcomes.len() && #[trigger] outcomes[i] is Failed && transactions[i] == h by {
            if mid.invalid.contains(h) {
                let i = choose|i: int|
                    0 <= i < head.len() && #[trigger] head[i] is Failed && transactions[i] == h;
                assert(outcomes[i] is Failed);
            } else {
                assert(outcomes[n] is Failed && transactions[n] == h);
            }
        }
        assert forall|h: H256|
            (exists|i: int|
                0 <= i < outcomes.len() && #[trigger] outcomes[i] is Failed && transactions[i]
                    == h) implies #[trigger] end.invalid.contains(h) by {
            let i = choose|i: int|
                0 <= i < outcomes.len() && #[trigger] outcomes[i] is Failed && transactions[i] == h;
            if i < n {
                assert(head[i] is Failed);
                assert(mid.invalid.contains(h));
            }
            if outcomes.last() is Failed && !mid.invalid.contains(transactions[n]) {
                assert(end.invalid == mid.invalid.push(transactions[n]));
                if i == n {
                    assert(end.invalid[mid.invalid.len() as int] == h);
                } else {
                    let k = mid.invalid.index_of(h);
                    assert(end.invalid[k] == h);
                }
            }
        }
    }
}

/// The run that [`Pushing`] makes cannot be continued only where all transactions have been
/// pushed or the last answer showed a full block.
pub proof fn law_pushing_stops(transactions: Seq<H256>, outcomes: Seq<PushOutcome>)
    requires
        outcomes.len() <= transactions.len(),
        forall|i: int| 0 <= i < outcomes.len() - 1 ==> !#[trigger] outcomes[i].is_full(),
    ensures
        PushingView::start(transactions).after_all(outcomes).is_done() <==> {
            ||| outcomes.len() == transactions.len()
            ||| outcomes.len() > 0 && outcomes.last().is_full()
        },
{
    law_pushing_run(transactions, outcomes);
}

/// A block counts as full exactly where it refused a transaction for its gas and has less than
/// 21000 left.
pub proof fn law_full_block(outcome: PushOutcome)
    ensures
        outcome.is_full() <==> {
            outcome matches PushOutcome::GasLimitReached { gas_limit, gas_used } && gas_limit@
                < gas_used@ + 21000
        },
        outcome.wf() <==> {
            outcome matches PushOutcome::GasLimitReached { gas_limit, gas_used } ==> gas_used@
                <= gas_limit@
        },
{
}

/// Pushing starts with the first transaction and nothing known. Each answer moves on by one. It
/// says whether the block is full now, an import is remembered, and a failure adds the transaction
/// to the invalid ones. It is over when the block is full or no transaction is left.
pub proof fn law_pushing_step(p: PushingView, transactions: Seq<H256>, outcome: PushOutcome)
    ensures
        ({
            let start = PushingView::start(transactions);
            &&& start.transactions == transactions
            &&& start.next == 0
            &&& !start.full
            &&& !start.imported
            &&& start.invalid.len() == 0
        }),
        p.is_done() <==> p.full || p.next >= p.transactions.len(),
        p.after(outcome).transactions == p.transactions,
        p.after(outcome).next == p.next + 1,
        p.after(outcome).full == outcome.is_full(),
        p.after(outcome).imported <==> p.imported || outcome is Imported,
        !(outcome is Failed) ==> p.after(outcome).invalid == p.invalid,
        outcome is Failed ==> {
            let hash = p.transactions[p.next as int];
            &&& p.invalid.contains(hash) ==> p.after(outcome).invalid == p.invalid
            &&& !p.invalid.contains(hash) ==> p.after(outcome).invalid == p.invalid.push(hash)
        },
{
}

} // verus!
