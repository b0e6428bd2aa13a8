use parity::block::ClosedBlock;
use parity::hash::{Address, H256};
use parity::miner::{
    Error, Miner, MinerStatus, SealSubmission, SealingAction, SealingEvent, SealingUpdate,
    TransactionQueueStatus,
};
use parity::pushing::PushOutcome;
use parity::service::ServiceStep;
use parity::uint::U256;

fn hash(byte: u8) -> H256 {
    H256([byte; 32])
}

/// A block as the chain below makes it: `body` names it.
fn block(parent: u8, name: u8) -> ClosedBlock<u8> {
    ClosedBlock {
        parent_hash: hash(parent),
        header_hash: hash(name),
        hash: hash(name),
        transaction_count: 0,
        body: name,
    }
}

/// Everything that surrounds a miner.
struct Surroundings {
    best_number: u64,
    best_hash: u8,
    /// The queue, best transaction first.
    queue: Vec<H256>,
    /// What an open block answers, transaction by transaction.
    answers: Vec<PushOutcome>,
    /// The block that comes out of the next preparation.
    next_block: Option<ClosedBlock<u8>>,
    /// Where set, each preparation gives its own block on the best one, named from here on.
    next_name: Option<u8>,
    /// What the chain finds invalid when it makes a block.
    invalid: Vec<H256>,
    /// Blocks that were opened again.
    reopened: Vec<u8>,
    /// Hashes of the transactions that were pushed.
    pushed: Vec<H256>,
    /// Authors, gas limits and extra data of the blocks that were made, with their transactions.
    authored: Vec<(Address, U256, Vec<u8>, Vec<H256>)>,
}

impl Surroundings {
    fn new() -> Surroundings {
        Surroundings {
            best_number: 0,
            best_hash: 100,
            queue: vec![],
            answers: vec![],
            next_block: None,
            next_name: None,
            invalid: vec![],
            reopened: vec![],
            pushed: vec![],
            authored: vec![],
        }
    }

    fn add_block(&mut self) {
        self.best_number += 1;
        self.best_hash += 1;
    }

    /// Puts a transaction into the queue that the open block takes in.
    fn offer(&mut self, transaction: u8) {
        self.queue = vec![hash(transaction)];
        self.answers = vec![PushOutcome::Imported];
    }

    fn prepare(&mut self, miner: &mut Miner<u8>) {
        if let Some(name) = self.next_name {
            self.next_block = Some(block(self.best_hash, name));
            self.next_name = Some(name + 1);
        }
        let transactions = self.queue.clone();
        let mut action = miner.prepare_sealing(SealingEvent::Start {
            best_hash: hash(self.best_hash),
            transactions: transactions.clone(),
        });
        loop {
            let event = match action {
                SealingAction::Reopen(b) => {
                    self.reopened.push(b.body);
                    SealingEvent::Reopened
                }
                SealingAction::Push(i) => {
                    self.pushed.push(transactions[i]);
                    SealingEvent::Pushed(self.answers.remove(0))
                }
                SealingAction::Close => SealingEvent::Closed(self.next_block.clone().unwrap()),
                SealingAction::Author { author, gas_floor_target, extra_data, transactions } => {
                    self.authored.push((author, gas_floor_target, extra_data, transactions));
                    SealingEvent::Authored {
                        block: self.next_block.clone(),
                        invalid: self.invalid.clone(),
                    }
                }
                SealingAction::Remove(hashes) => {
                    self.queue.retain(|h| !hashes.contains(h));
                    SealingEvent::Removed
                }
                SealingAction::Done => return,
            };
            action = miner.prepare_sealing(event);
        }
    }

    fn update(&mut self, miner: &mut Miner<u8>) -> SealingUpdate {
        let update = miner.update_sealing(self.best_number);
        if update == SealingUpdate::Prepare {
            self.prepare(miner);
        }
        update
    }

    fn request<T>(&mut self, miner: &mut Miner<u8>, f: fn(&ClosedBlock<u8>) -> T) -> Option<T> {
        if miner.request_work() {
            self.prepare(miner);
        }
        miner.map_sealing_work(self.best_number, f)
    }
}

/// Submits a seal that the block and the chain answer as given.
fn submit_to(
    miner: &mut Miner<u8>,
    pow_hash: H256,
    fits: bool,
    imported: Result<(), u8>,
) -> Result<(), Error<u8>> {
    let mut step = miner.submit_seal(&pow_hash, vec![]);
    loop {
        step = match step {
            SealSubmission::TrySeal(b, _) => {
                let sealed = if fits { Some(vec![b.body]) } else { None };
                miner.seal_tried(&pow_hash, sealed)
            }
            SealSubmission::Import(_) => miner.block_imported(&pow_hash, imported),
            SealSubmission::Finished(result) => return result,
        }
    }
}

/// Submits a seal to a chain that accepts every seal and every block.
fn submit(miner: &mut Miner<u8>, pow_hash: H256) -> Result<(), Error<u8>> {
    submit_to(miner, pow_hash, true, Ok(()))
}

#[test]
fn should_prepare_block_to_seal() {
    // given
    let mut client = Surroundings::new();
    client.next_block = Some(block(100, 1));
    let mut miner = Miner::default();

    // when
    let sealing_work = client.request(&mut miner, |_| ());
    assert!(sealing_work.is_some(), "Expected closed block");
}

#[test]
fn should_still_work_after_a_couple_of_blocks() {
    // given
    let mut client = Surroundings::new();
    client.next_name = Some(1);
    let mut miner = Miner::default();

    let res = client.request(&mut miner, |b| b.header_hash);
    assert!(res.is_some());
    assert!(submit(&mut miner, res.unwrap()).is_ok());

    // two more blocks mined, work requested.
    client.add_block();
    client.request(&mut miner, |b| b.header_hash);

    client.add_block();
    client.request(&mut miner, |b| b.header_hash);

    // solution to original work submitted.
    assert!(submit(&mut miner, res.unwrap()).is_ok());
}

#[test]
fn accepted_work_can_be_submitted_again_beside_newer_work() {
    let mut client = Surroundings::new();
    client.next_name = Some(1);
    let mut miner: Miner<u8> = Miner::new();
    assert_eq!(client.request(&mut miner, |b| b.body), Some(1));
    assert_eq!(submit(&mut miner, hash(1)), Ok(()));
    for name in 2..6 {
        client.add_block();
        assert_eq!(client.update(&mut miner), SealingUpdate::Prepare);
        assert_eq!(client.request(&mut miner, |b| b.body), Some(name));
        assert_eq!(submit(&mut miner, hash(1)), Ok(()));
        assert_eq!(submit(&mut miner, hash(name)), Ok(()));
    }
    assert_eq!(submit(&mut miner, hash(1)), Ok(()));
    // as many newer ones as are kept
    client.add_block();
    client.update(&mut miner);
    assert_eq!(client.request(&mut miner, |b| b.body), Some(6));
    assert_eq!(submit(&mut miner, hash(6)), Ok(()));
    assert_eq!(submit(&mut miner, hash(1)), Err(Error::PowHashInvalid));
    assert_eq!(submit(&mut miner, hash(2)), Ok(()));
}

#[test]
fn accepted_work_is_not_handed_out_again() {
    let queue = TransactionQueueStatus { pending: 0, future: 0 };
    let mut client = Surroundings::new();
    let mut miner: Miner<u8> = Miner::new();
    let mut first = block(100, 1);
    first.transaction_count = 3;
    client.next_block = Some(first);
    assert_eq!(client.request(&mut miner, |b| b.body), Some(1));
    assert_eq!(3, miner.status(queue).transactions_in_pending_block);
    assert_eq!(submit(&mut miner, hash(1)), Ok(()));
    assert_eq!(0, miner.status(queue).transactions_in_pending_block);
    // a new block is made, though the solved one extends the best block
    client.next_block = Some(block(100, 2));
    assert!(miner.request_work());
    client.prepare(&mut miner);
    assert_eq!((2, 0), (client.authored.len(), client.reopened.len()));
    assert_eq!(miner.map_sealing_work(0, |b| b.body), Some(2));
    assert_eq!(submit(&mut miner, hash(1)), Ok(()));
    assert_eq!(submit(&mut miner, hash(2)), Ok(()));
}

#[test]
fn older_work_is_on_top_once_newer_work_is_solved() {
    let mut client = Surroundings::new();
    let mut miner: Miner<u8> = Miner::new();
    for name in 1..3 {
        client.next_block = Some(block(0, name));
        client.prepare(&mut miner);
        assert_eq!(client.request(&mut miner, |b| b.body), Some(name));
    }
    assert_eq!(submit(&mut miner, hash(2)), Ok(()));
    assert_eq!(client.request(&mut miner, |b| b.body), Some(1));
}

#[test]
fn solved_work_is_dropped_for_a_refused_seal() {
    let mut client = Surroundings::new();
    client.next_block = Some(block(100, 1));
    let mut miner: Miner<u8> = Miner::new();
    client.request(&mut miner, |_| ());
    assert_eq!(submit(&mut miner, hash(1)), Ok(()));
    assert_eq!(submit_to(&mut miner, hash(1), true, Err(7)), Err(Error::Import(7)));
    assert_eq!(submit(&mut miner, hash(1)), Err(Error::PowHashInvalid));
}

#[test]
fn seals_and_settings_do_not_change_when_the_miner_sleeps() {
    let mut client = Surroundings::new();
    client.next_name = Some(1);
    let mut miner: Miner<u8> = Miner::new();
    miner.set_author(Address([9; 20]));
    assert_eq!(client.update(&mut miner), SealingUpdate::Asleep);
    assert_eq!(client.request(&mut miner, |b| b.body), Some(1));
    for _ in 0..5 {
        client.add_block();
        assert_eq!(submit(&mut miner, hash(1)), Ok(()));
        miner.set_extra_data(vec![4]);
        assert_eq!(client.update(&mut miner), SealingUpdate::Prepare);
    }
    client.add_block();
    assert_eq!(client.update(&mut miner), SealingUpdate::FellAsleep);
    assert_eq!(submit(&mut miner, hash(1)), Err(Error::PowHashInvalid));
}

#[test]
fn refused_work_cannot_be_submitted_again() {
    let mut client = Surroundings::new();
    client.next_name = Some(1);
    let mut miner: Miner<u8> = Miner::new();
    for name in 1..4 {
        assert_eq!(client.request(&mut miner, |b| b.body), Some(name));
        client.add_block();
        client.update(&mut miner);
    }
    assert_eq!(submit_to(&mut miner, hash(1), false, Ok(())), Err(Error::PowInvalid));
    assert_eq!(submit_to(&mut miner, hash(1), true, Ok(())), Err(Error::PowHashInvalid));
    assert_eq!(submit_to(&mut miner, hash(2), true, Err(13)), Err(Error::Import(13)));
    assert_eq!(submit(&mut miner, hash(2)), Err(Error::PowHashInvalid));
    // the others are still in use
    assert_eq!(submit(&mut miner, hash(3)), Ok(()));
}

#[test]
fn dropped_work_makes_room_for_older_work() {
    let mut client = Surroundings::new();
    let mut miner: Miner<u8> = Miner::new();
    for name in 1..7 {
        client.next_block = Some(block(0, name));
        client.prepare(&mut miner);
        assert_eq!(client.request(&mut miner, |b| b.body), Some(name));
        if name == 3 {
            assert_eq!(submit_to(&mut miner, hash(3), false, Ok(())), Err(Error::PowInvalid));
        }
    }
    assert!(matches!(miner.submit_seal::<u8>(&hash(1), vec![]), SealSubmission::TrySeal(..)));
    client.next_block = Some(block(0, 7));
    client.prepare(&mut miner);
    assert_eq!(client.request(&mut miner, |b| b.body), Some(7));
    assert_eq!(submit(&mut miner, hash(1)), Err(Error::PowHashInvalid));
}

#[test]
fn no_new_work_without_transactions() {
    let mut client = Surroundings::new();
    client.next_block = Some(block(100, 1));
    let mut miner: Miner<u8> = Miner::new();
    client.prepare(&mut miner);
    // nobody has the block yet: it is left as it is, whatever it would be closed to
    client.next_block = Some(block(100, 2));
    client.prepare(&mut miner);
    client.queue = vec![hash(7), hash(8)];
    client.answers = vec![PushOutcome::AlreadyImported, PushOutcome::Failed];
    client.prepare(&mut miner);
    assert_eq!(client.reopened, vec![1, 1]);
    assert_eq!(client.queue, vec![hash(7)]);
    assert_eq!(miner.map_sealing_work(0, |b| b.body), Some(1));
    // it is in use: it stays on top
    client.answers = vec![PushOutcome::AlreadyImported];
    client.prepare(&mut miner);
    assert_eq!(client.reopened, vec![1, 1, 1]);
    assert_eq!(miner.map_sealing_work(0, |b| b.body), Some(1));
    assert_eq!(submit(&mut miner, hash(2)), Err(Error::PowHashInvalid));
    // one transaction is enough
    client.offer(9);
    client.prepare(&mut miner);
    assert_eq!(miner.map_sealing_work(0, |b| b.body), Some(2));
}

#[test]
fn sleeping_miner_accepts_no_seal_and_stays_asleep() {
    let mut client = Surroundings::new();
    client.next_block = Some(block(100, 1));
    let mut miner: Miner<u8> = Miner::new();
    assert!(!miner.sealing_enabled());
    assert_eq!(submit(&mut miner, hash(1)), Err(Error::PowHashInvalid));
    assert_eq!(client.update(&mut miner), SealingUpdate::Asleep);
    assert!(!miner.sealing_enabled());
    assert_eq!(client.request(&mut miner, |b| b.body), Some(1));
    assert!(miner.sealing_enabled());
}

#[test]
fn new_miner_has_no_settings_and_no_work() {
    let mut miner: Miner<u8> = Miner::new();
    assert_eq!(miner.author(), Address([0; 20]));
    assert_eq!(miner.extra_data(), Vec::<u8>::new());
    assert_eq!(miner.gas_floor_target(), U256::zero());
    assert_eq!(miner.minimal_gas_price(), U256::zero());
    assert_eq!(miner.update_sealing(1000), SealingUpdate::Asleep);
    assert!(miner.map_sealing_work(3, |b| b.body).is_none());
}

#[test]
fn settings_are_read_back_and_reach_new_blocks() {
    let mut client = Surroundings::new();
    client.queue = vec![hash(7), hash(8)];
    let mut miner: Miner<u8> = Miner::new();
    miner.set_author(Address([3; 20]));
    miner.set_extra_data(vec![1, 2, 3]);
    miner.set_gas_floor_target(U256::from_u64(4_712_388));
    miner.set_minimal_gas_price(U256::from_u64(20));
    assert_eq!(miner.author(), Address([3; 20]));
    assert_eq!(miner.extra_data(), vec![1, 2, 3]);
    assert_eq!(miner.gas_floor_target(), U256::from_u64(4_712_388));
    assert_eq!(miner.minimal_gas_price(), U256::from_u64(20));
    client.prepare(&mut miner);
    assert_eq!(
        client.authored,
        vec![(
            Address([3; 20]),
            U256::from_u64(4_712_388),
            vec![1, 2, 3],
            vec![hash(7), hash(8)]
        )]
    );
}

#[test]
fn sensible_gas_price_is_a_tenth_above_the_least() {
    let mut miner: Miner<u8> = Miner::new();
    assert_eq!(miner.sensible_gas_price(), U256::zero());
    for (least, sensible) in [(1, 1), (9, 9), (10, 11), (19, 20), (20_000_000_000, 22_000_000_000)] {
        miner.set_minimal_gas_price(U256::from_u64(least));
        assert_eq!(miner.sensible_gas_price(), U256::from_u64(sensible));
    }
    miner.set_minimal_gas_price(U256 { l0: 0, l1: 0, l2: 100, l3: 0 });
    assert_eq!(miner.sensible_gas_price(), U256 { l0: 0, l1: 0, l2: 110, l3: 0 });
}

#[test]
fn status_counts_the_block_on_top() {
    let mut client = Surroundings::new();
    let mut miner: Miner<u8> = Miner::new();
    let queue = TransactionQueueStatus { pending: 4, future: 2 };
    let mut expected = MinerStatus {
        transactions_in_pending_queue: 4,
        transactions_in_future_queue: 2,
        transactions_in_pending_block: 0,
    };
    assert_eq!(miner.status(queue), expected);
    let mut b = block(100, 1);
    b.transaction_count = 3;
    client.next_block = Some(b);
    client.prepare(&mut miner);
    expected.transactions_in_pending_block = 3;
    assert_eq!(miner.status(queue), expected);
}

#[test]
fn work_on_the_best_block_is_opened_again() {
    let mut client = Surroundings::new();
    client.next_block = Some(block(100, 1));
    let mut miner: Miner<u8> = Miner::new();
    client.prepare(&mut miner);
    assert_eq!((1, 0), (client.authored.len(), client.reopened.len()));
    // pending work on the same parent
    client.next_block = Some(block(100, 2));
    client.offer(11);
    client.prepare(&mut miner);
    assert_eq!(client.reopened, vec![1]);
    // the same once it is in use: it stays in use
    assert_eq!(miner.map_sealing_work(0, |b| b.body), Some(2));
    client.next_block = Some(block(100, 3));
    client.offer(12);
    client.prepare(&mut miner);
    assert_eq!(client.reopened, vec![1, 2]);
    assert_eq!(miner.map_sealing_work(0, |b| b.body), Some(3));
    assert!(submit(&mut miner, hash(2)).is_ok());
    // another parent: a new block
    client.add_block();
    client.prepare(&mut miner);
    assert_eq!((2, 2), (client.authored.len(), client.reopened.len()));
}

#[test]
fn only_failed_transactions_leave_the_queue() {
    let mut client = Surroundings::new();
    client.next_block = Some(block(100, 1));
    let mut miner: Miner<u8> = Miner::new();
    client.prepare(&mut miner);
    client.queue = vec![hash(1), hash(2), hash(3), hash(4), hash(5)];
    client.answers = vec![
        PushOutcome::Imported,
        PushOutcome::Failed,
        PushOutcome::GasLimitReached {
            gas_limit: U256::from_u64(121_000),
            gas_used: U256::from_u64(100_000),
        },
        PushOutcome::AlreadyImported,
        PushOutcome::Failed,
    ];
    client.next_block = Some(block(100, 2));
    client.prepare(&mut miner);
    assert_eq!(client.pushed, vec![hash(1), hash(2), hash(3), hash(4), hash(5)]);
    assert_eq!(client.queue, vec![hash(1), hash(3), hash(4)]);
    assert_eq!(miner.map_sealing_work(0, |b| b.body), Some(2));
}

#[test]
fn pushing_stops_when_the_block_is_full() {
    let mut client = Surroundings::new();
    client.next_block = Some(block(100, 1));
    let mut miner: Miner<u8> = Miner::new();
    client.prepare(&mut miner);
    client.queue = vec![hash(1), hash(2), hash(3)];
    client.answers = vec![
        PushOutcome::Failed,
        PushOutcome::GasLimitReached {
            gas_limit: U256::from_u64(120_999),
            gas_used: U256::from_u64(100_000),
        },
    ];
    client.prepare(&mut miner);
    assert_eq!(client.pushed, vec![hash(1), hash(2)]);
    assert_eq!(client.queue, vec![hash(2), hash(3)]);
}

#[test]
fn transaction_that_fails_twice_is_removed_once() {
    let mut miner: Miner<u8> = Miner::new();
    let mut client = Surroundings::new();
    client.next_block = Some(block(100, 1));
    client.prepare(&mut miner);
    miner.prepare_sealing(SealingEvent::Start {
        best_hash: hash(100),
        transactions: vec![hash(1), hash(1)],
    });
    miner.prepare_sealing(SealingEvent::Reopened);
    miner.prepare_sealing(SealingEvent::Pushed(PushOutcome::Failed));
    match miner.prepare_sealing(SealingEvent::Pushed(PushOutcome::Failed)) {
        SealingAction::Remove(hashes) => assert_eq!(hashes, vec![hash(1)]),
        _ => panic!("expected a removal"),
    }
}

#[test]
fn invalid_transactions_of_a_new_block_leave_the_queue() {
    let mut client = Surroundings::new();
    client.queue = vec![hash(1), hash(2)];
    client.invalid = vec![hash(1)];
    let mut miner: Miner<u8> = Miner::new();
    client.prepare(&mut miner);
    assert_eq!(client.queue, vec![hash(2)]);
    // the chain made no block
    assert!(miner.map_sealing_work(0, |b| b.body).is_none());
}

#[test]
fn same_block_is_not_taken_twice() {
    let mut client = Surroundings::new();
    client.next_block = Some(block(100, 1));
    let mut miner: Miner<u8> = Miner::new();
    client.prepare(&mut miner);
    assert_eq!(miner.map_sealing_work(0, |b| b.body), Some(1));
    client.prepare(&mut miner);
    assert_eq!(miner.map_sealing_work(0, |b| b.body), Some(1));
    assert_eq!(submit_to(&mut miner, hash(1), false, Ok(())), Err(Error::PowInvalid));
    assert_eq!(submit(&mut miner, hash(1)), Err(Error::PowHashInvalid));
}

#[test]
fn miner_sleeps_when_nobody_asks_for_work() {
    let mut client = Surroundings::new();
    client.next_block = Some(block(100, 1));
    let mut miner: Miner<u8> = Miner::new();
    assert_eq!(client.update(&mut miner), SealingUpdate::Asleep);
    assert_eq!(client.request(&mut miner, |b| b.body), Some(1));
    for _ in 0..5 {
        client.add_block();
        assert_eq!(client.update(&mut miner), SealingUpdate::Prepare);
    }
    client.add_block();
    assert_eq!(client.update(&mut miner), SealingUpdate::FellAsleep);
    assert_eq!(submit(&mut miner, hash(1)), Err(Error::PowHashInvalid));
    assert_eq!(client.update(&mut miner), SealingUpdate::Asleep);
    // a request wakes it
    assert!(miner.request_work());
    assert_eq!(miner.update_sealing(3), SealingUpdate::Prepare);
}

#[test]
fn chain_that_went_back_does_not_send_the_miner_to_sleep() {
    let mut client = Surroundings::new();
    client.next_block = Some(block(100, 1));
    client.best_number = 50;
    let mut miner: Miner<u8> = Miner::new();
    assert_eq!(client.request(&mut miner, |b| b.body), Some(1));
    assert_eq!(miner.update_sealing(0), SealingUpdate::Prepare);
    assert_eq!(miner.update_sealing(55), SealingUpdate::Prepare);
    assert_eq!(miner.update_sealing(56), SealingUpdate::FellAsleep);
}

#[test]
fn five_blocks_in_use_can_be_submitted() {
    let mut client = Surroundings::new();
    let mut miner: Miner<u8> = Miner::new();
    for name in 1..7 {
        client.next_block = Some(block(0, name));
        client.prepare(&mut miner);
        assert_eq!(client.request(&mut miner, |b| b.body), Some(name));
    }
    assert_eq!(submit(&mut miner, hash(1)), Err(Error::PowHashInvalid));
    for name in 2..7 {
        assert_eq!(submit(&mut miner, hash(name)), Ok(()));
    }
}

#[test]
fn block_that_nobody_asked_for_cannot_be_submitted() {
    let mut client = Surroundings::new();
    let mut miner: Miner<u8> = Miner::new();
    client.next_block = Some(block(0, 1));
    client.prepare(&mut miner);
    assert_eq!(submit(&mut miner, hash(1)), Err(Error::PowHashInvalid));
    // and it is replaced by the next one
    client.next_block = Some(block(0, 2));
    client.prepare(&mut miner);
    assert_eq!(miner.map_sealing_work(0, |b| b.body), Some(2));
}

#[test]
fn submission_goes_through_seal_and_import() {
    let mut client = Surroundings::new();
    let mut miner: Miner<u8> = Miner::new();
    client.next_block = Some(block(100, 1));
    client.request(&mut miner, |_| ());
    match miner.submit_seal::<u8>(&hash(1), vec![vec![5], vec![6, 7]]) {
        SealSubmission::TrySeal(b, seal) => {
            assert_eq!(b.body, 1);
            assert_eq!(seal, vec![vec![5], vec![6, 7]]);
        }
        _ => panic!("expected the block to be sealed"),
    }
    match miner.seal_tried::<u8>(&hash(1), Some(vec![9, 9])) {
        SealSubmission::Import(bytes) => assert_eq!(bytes, vec![9, 9]),
        _ => panic!("expected an import"),
    }
    match miner.seal_tried::<u8>(&hash(1), None) {
        SealSubmission::Finished(result) => assert_eq!(result, Err(Error::PowInvalid)),
        _ => panic!("expected the end"),
    }
    match miner.block_imported::<u8>(&hash(1), Err(13)) {
        SealSubmission::Finished(result) => assert_eq!(result, Err(Error::Import(13))),
        _ => panic!("expected the end"),
    }
    match miner.block_imported::<u8>(&hash(1), Ok(())) {
        SealSubmission::Finished(result) => assert_eq!(result, Ok(())),
        _ => panic!("expected the end"),
    }
}

#[test]
fn new_blocks_are_handled_in_order_and_each_once() {
    let miner: Miner<u8> = Miner::new();
    let steps = miner.chain_new_blocks(
        U256::from_u64(4_712_388),
        &[hash(1), hash(2), hash(1)],
        &[hash(3)],
        &[hash(2), hash(4)],
        &[hash(5), hash(5), hash(1)],
    );
    assert_eq!(4, steps.len());
    assert!(matches!(&steps[0], ServiceStep::SetGasLimit(g) if *g == U256::from_u64(4_712_388)));
    match &steps[1] {
        ServiceStep::Reimport(blocks) => assert_eq!(blocks, &vec![hash(5), hash(5), hash(1)]),
        _ => panic!("expected retracted blocks"),
    }
    match &steps[2] {
        ServiceStep::Discard(blocks) => {
            assert_eq!(4, blocks.len());
            for i in 1..5 {
                assert!(blocks.contains(&hash(i)));
            }
        }
        _ => panic!("expected known blocks"),
    }
    assert!(matches!(&steps[3], ServiceStep::UpdateSealing));
}

#[test]
fn reset_clears_the_queue_before_sealing_is_updated() {
    let miner: Miner<u8> = Miner::new();
    let steps = miner.clear_and_reset();
    assert_eq!(2, steps.len());
    assert!(matches!(&steps[0], ServiceStep::ClearQueue));
    assert!(matches!(&steps[1], ServiceStep::UpdateSealing));
}
