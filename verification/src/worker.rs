//! Serves calls that arrive on sockets.
use std::sync::Arc;
use vstd::prelude::*;

verus! {

/// How long to wait for messages, in milliseconds.
pub const POLL_TIMEOUT: isize = 100;

/// Messages are waited for no longer than a tenth of a second.
pub proof fn law_wait_is_short()
    ensures
        POLL_TIMEOUT * 10 == 1000,
{
}

/// Why a socket could not be added.
#[derive(Clone, Copy, Debug, PartialEq, Eq, Structural)]
pub enum SocketError {
    /// The socket for a two-way link could not be made, or not be bound to its address.
    DuplexLink,
}

/// What became of the attempt to make a socket for a two-way link and bind it to an address.
pub enum DuplexLink<K> {
    /// There is no socket.
    NotCreated,
    /// There is a socket, but it could not be bound.
    NotBound,
    /// The socket is bound.
    Bound(K),
}

/// What to watch a socket for.
#[derive(Clone, Copy, Debug, PartialEq, Eq, Structural)]
pub enum PollInOut {
    /// A message can be read.
    In,
    /// A message can be written.
    Out,
    /// Either.
    InOut,
}

/// A socket to watch, by its position.
#[derive(Clone, Copy, Debug, PartialEq, Eq, Structural)]
pub struct PollFd {
    pub socket: usize,
    pub watch: PollInOut,
}

/// What came of reading from a socket.
pub enum ReadOutcome {
    /// A message.
    Message(Vec<u8>),
    /// Nothing, for the moment.
    TryAgain,
    /// The socket is broken.
    Failed,
}

/// What happens to a worker in a round of serving.
pub enum PollEvent {
    /// The sockets have been watched: for each of them, whether it can be read.
    Ready(Vec<bool>),
    /// The socket that was to be read has been read.
    Read(ReadOutcome),
    /// The service has been called, and has given this reply.
    Dispatched(Vec<u8>),
    /// The reply has been written, or could not be.
    Written,
}

/// What is to be done next in a round of serving.
pub enum PollAction {
    /// Read from the socket.
    Read(usize),
    /// Call the method with that number of the service on the encoded arguments.
    Dispatch(u16, Vec<u8>),
    /// Write the reply to the socket.
    Write(usize, Vec<u8>),
    /// Nothing: the round is over.
    Done,
    /// Give up: a socket is broken.
    Fail,
}

/// Where a worker is in a round.
#[derive(Clone, Copy)]
enum Turn {
    Idle,
    Reading(usize),
    Dispatching(usize),
    Writing(usize),
}

/// Where a worker is in a round.
pub enum TurnView {
    /// Between rounds.
    Idle,
    /// It waits for the socket to be read.
    Reading(int),
    /// It waits for the service to answer the call that arrived on the socket.
    Dispatching(int),
    /// It waits for the reply to be written.
    Writing(int),
}

/// The state of a [`Worker`].
#[verifier::ext_equal]
pub struct WorkerView<S, K> {
    /// The service that answers the calls.
    pub service: Arc<S>,
    /// The sockets that are served.
    pub sockets: Seq<K>,
    /// What to watch.
    pub polls: Seq<PollFd>,
    /// The message that was read last.
    pub buf: Seq<u8>,
    /// In a round: which sockets can be read.
    pub ready: Seq<bool>,
    /// Where the worker is in a round.
    pub turn: TurnView,
}

/// Every one of `n` sockets is watched for messages that can be read.
pub open spec fn watch_all(n: nat) -> Seq<PollFd> {
    Seq::new(n, |i: int| PollFd { socket: i as usize, watch: PollInOut::In })
}

/// The first socket from `from` on that can be read.
pub open spec fn next_ready(ready: Seq<bool>, from: int) -> Option<int>
    decreases ready.len() - from,
{
    if from < 0 || from >= ready.len() {
        None
    } else if ready[from] {
        Some(from)
    } else {
        next_ready(ready, from + 1)
    }
}

/// [`next_ready`] finds the first socket from `from` on that can be read, and misses none.
pub proof fn lemma_next_ready(ready: Seq<bool>, from: int)
    requires
        0 <= from,
    ensures
        match next_ready(ready, from) {
            Some(j) => {
                &&& from <= j < ready.len()
                &&& ready[j]
                &&& forall|k: int| from <= k < j ==> !#[trigger] ready[k]
            },
            None => forall|k: int| from <= k < ready.len() ==> !#[trigger] ready[k],
        },
    decreases ready.len() - from,
{
    if from < ready.len() && !ready[from] {
        lemma_next_ready(ready, from + 1);
    }
}

/// The turn that serves the first socket from `from` on that can be read.
pub open spec fn turn_from(ready: Seq<bool>, from: int) -> TurnView {
    match next_ready(ready, from) {
        Some(j) => TurnView::Reading(j),
        None => TurnView::Idle,
    }
}

/// The outcome is a message that calls a method.
pub open spec fn is_served(outcome: ReadOutcome) -> bool {
    outcome matches ReadOutcome::Message(m) && crate::ipc::is_call(m@)
}

/// The turn after socket `i` was read with `outcome`.
pub open spec fn turn_after_read(ready: Seq<bool>, i: int, outcome: ReadOutcome) -> TurnView {
    if is_served(outcome) {
        TurnView::Dispatching(i)
    } else if outcome is Failed {
        TurnView::Idle
    } else {
        turn_from(ready, i + 1)
    }
}

impl<S, K> WorkerView<S, K> {
    /// Exactly the sockets that there are are watched, and a round concerns only them.
    pub open spec fn wf(self) -> bool {
        &&& self.polls == watch_all(self.sockets.len())
        &&& self.ready.len() <= self.sockets.len()
        &&& match self.turn {
            TurnView::Idle => true,
            TurnView::Reading(i) => 0 <= i < self.ready.len(),
            TurnView::Dispatching(i) => 0 <= i < self.ready.len(),
            TurnView::Writing(i) => 0 <= i < self.ready.len(),
        }
    }

    /// The state once what to watch has been set anew from the sockets.
    pub open spec fn rebuilt(self) -> WorkerView<S, K> {
        WorkerView { polls: watch_all(self.sockets.len()), ..self }
    }

    /// The event is one that the worker waits for.
    pub open spec fn awaits(self, event: PollEvent) -> bool {
        match event {
            PollEvent::Ready(flags) => self.turn is Idle && flags@.len() == self.polls.len(),
            PollEvent::Read(_) => self.turn is Reading,
            PollEvent::Dispatched(_) => self.turn is Dispatching,
            PollEvent::Written => self.turn is Writing,
        }
    }

    /// The state after `event`.
    pub open spec fn after(self, event: PollEvent) -> WorkerView<S, K>
        recommends
            self.awaits(event),
    {
        match event {
            PollEvent::Ready(flags) => {
                let turn = turn_from(flags@, 0);
                WorkerView {
                    ready: flags@,
                    turn,
                    buf: if turn is Reading {
                        Seq::empty()
                    } else {
                        self.buf
                    },
                    ..self
                }
            },
            PollEvent::Read(outcome) => {
                let turn = turn_after_read(self.ready, self.turn->Reading_0, outcome);
                WorkerView {
                    turn,
                    buf: if turn is Reading {
                        Seq::empty()
                    } else {
                        match outcome {
                            ReadOutcome::Message(m) => m@,
                            _ => self.buf,
                        }
                    },
                    ..self
                }
            },
            PollEvent::Dispatched(_) => WorkerView {
                turn: TurnView::Writing(self.turn->Dispatching_0),
                ..self
            },
            PollEvent::Written => {
                let turn = turn_from(self.ready, self.turn->Writing_0 + 1);
                WorkerView {
                    turn,
                    buf: if turn is Reading {
                        Seq::empty()
                    } else {
                        self.buf
                    },
                    ..self
                }
            },
        }
    }
}

/// Serves the calls that arrive on its sockets, each by its service.
///
/// `S` is the service, and `K` a socket that is bound to an address. The worker keeps both. It
/// decides which socket is read or written next and which method of the service is called, and
/// never reads, writes or calls itself.
pub struct Worker<S, K> {
    service: Arc<S>,
    sockets: Vec<K>,
    polls: Vec<PollFd>,
    buf: Vec<u8>,
    ready: Vec<bool>,
    turn: Turn,
}

impl<S, K> View for Worker<S, K> {
    type V = WorkerView<S, K>;

    closed spec fn view(&self) -> WorkerView<S, K> {
        WorkerView {
            service: self.service,
            sockets: self.sockets@,
            polls: self.polls@,
            buf: self.buf@,
            ready: self.ready@,
            turn: match self.turn {
                Turn::Idle => TurnView::Idle,
                Turn::Reading(i) => TurnView::Reading(i as int),
                Turn::Dispatching(i) => TurnView::Dispatching(i as int),
                Turn::Writing(i) => TurnView::Writing(i as int),
            },
        }
    }
}

impl<S, K> Worker<S, K> {
    /// The watched sockets are those that there are.
    pub open spec fn wf(&self) -> bool {
        self@.wf()
    }

    /// Makes a worker for `service` that has no sockets yet.
    pub fn new(service: Arc<S>) -> (r: Worker<S, K>)
        ensures
            r.wf(),
            r@ == (WorkerView {
                service,
                sockets: Seq::<K>::empty(),
                polls: Seq::empty(),
                buf: Seq::empty(),
                ready: Seq::empty(),
                turn: TurnView::Idle,
            }),
    {
        let r = Worker {
            service,
            sockets: Vec::new(),
            polls: Vec::new(),
            buf: Vec::new(),
            ready: Vec::new(),
            turn: Turn::Idle,
        };
        assert(r@.polls =~= watch_all(0));
        r
    }

    /// The service that answers the calls.
    pub fn service(&self) -> (r: &Arc<S>)
        ensures
            *r == self@.service,
    {
        &self.service
    }

    /// The sockets that are served.
    pub fn sockets(&self) -> (r: &Vec<K>)
        ensures
            r@ == self@.sockets,
    {
        &self.sockets
    }

    /// A socket, to be read or written.
    pub fn socket_mut(&mut self, index: usize) -> (r: &mut K)
        requires
            index < old(self)@.sockets.len(),
        ensures
            *r == old(self)@.sockets[index as int],
            final(self)@ == (WorkerView {
                sockets: old(self)@.sockets.update(index as int, *final(r)),
                ..old(self)@
            }),
    {
        &mut self.sockets[index]
    }

    /// What to watch, one entry for each socket.
    pub fn polls(&self) -> (r: &Vec<PollFd>)
        ensures
            r@ == self@.polls,
    {
        &self.polls
    }

    /// Sets what to watch anew from the sockets, whatever was watched before.
    pub fn rebuild_poll_request(&mut self)
        ensures
            final(self)@ == old(self)@.rebuilt(),
    {
        let mut polls: Vec<PollFd> = Vec::new();
        while polls.len() < self.sockets.len()
            invariant
                *self == *old(self),
                polls.len() <= self.sockets.len(),
                polls@ == watch_all(polls.len() as nat),
            decreases self.sockets.len() - polls.len(),
        {
            let i: usize = polls.len();
            polls.push(PollFd { socket: i, watch: PollInOut::In });
            assert(polls@ =~= watch_all(polls.len() as nat));
        }
        self.polls = polls;
    }

    /// Adds the socket of a two-way link, if it could be made.
    pub fn add_duplex(&mut self, link: DuplexLink<K>) -> (r: Result<(), SocketError>)
        requires
            old(self).wf(),
        ensures
            final(self).wf(),
            match link {
                DuplexLink::Bound(socket) => {
                    &&& r == Ok::<(), SocketError>(())
                    &&& final(self)@ == (WorkerView {
                        sockets: old(self)@.sockets.push(socket),
                        polls: watch_all(old(self)@.sockets.len() + 1),
                        ..old(self)@
                    })
                },
                _ => {
                    &&& r == Err::<(), SocketError>(SocketError::DuplexLink)
                    &&& final(self)@ == old(self)@
                },
            },
    {
        match link {
            DuplexLink::NotCreated => Err(SocketError::DuplexLink),
            DuplexLink::NotBound => Err(SocketError::DuplexLink),
            DuplexLink::Bound(socket) => {
                self.sockets.push(socket);
                self.rebuild_poll_request();
                Ok(())
            },
        }
    }

    /// Goes on to the first socket from `from` on that can be read.
    fn proceed(&mut self, from: usize) -> (r: PollAction)
        requires
            from <= old(self)@.ready.len(),
        ensures
            final(self)@ == ({
                let turn = turn_from(old(self)@.ready, from as int);
                WorkerView {
                    turn,
                    buf: if turn is Reading {
                        Seq::empty()
                    } else {
                        old(self)@.buf
                    },
                    ..old(self)@
                }
            }),
            match next_ready(old(self)@.ready, from as int) {
                Some(j) => r matches PollAction::Read(i) && i == j,
                None => r is Done,
            },
    {
        let mut i: usize = from;
        while i < self.ready.len()
            invariant
                *self == *old(self),
                i <= self.ready.len(),
                next_ready(self.ready@, i as int) == next_ready(self.ready@, from as int),
            decreases self.ready.len() - i,
        {
            if self.ready[i] {
                self.buf.clear();
                self.turn = Turn::Reading(i);
                return PollAction::Read(i);
            }
            i += 1;
        }
        self.turn = Turn::Idle;
        PollAction::Done
    }

    /// Takes in what happened and says what is to be done next.
    ///
    /// A round starts when the sockets have been watched. Those that can be read are then read
    /// in order. For a message that calls a method, the service is called once, and what it
    /// replies is written to the socket. A message that is too short to do so, or none at all,
    /// is passed over. A broken socket ends the round.
    pub fn poll(&mut self, event: PollEvent) -> (r: PollAction)
        requires
            old(self).wf(),
            old(self)@.awaits(event),
        ensures
            final(self).wf(),
            final(self)@ == old(self)@.after(event),
            event matches PollEvent::Ready(flags) ==> {
                &&& final(self)@.ready == flags@
                &&& match r {
                    PollAction::Read(j) => j < flags@.len() && flags@[j as int] && forall|k: int|
                        0 <= k < j ==> !#[trigger] flags@[k],
                    PollAction::Done => forall|k: int|
                        0 <= k < flags@.len() ==> !#[trigger] flags@[k],
                    _ => false,
                }
            },
            match final(self)@.turn {
                TurnView::Reading(i) => r matches PollAction::Read(j) && j == i,
                TurnView::Dispatching(_) => event matches PollEvent::Read(ReadOutcome::Message(m))
                    && {
                    r matches PollAction::Dispatch(method_num, arguments) && method_num
                        == crate::ipc::method_of(m@) && arguments@ == crate::ipc::arguments_of(m@)
                },
                TurnView::Writing(i) => event matches PollEvent::Dispatched(reply) && {
                    r matches PollAction::Write(j, written) && j == i && written == reply
                },
                TurnView::Idle => if event matches PollEvent::Read(outcome) && outcome is Failed {
                    r is Fail
                } else {
                    r is Done
                },
            },
    {
        match event {
            PollEvent::Ready(flags) => {
                self.ready = flags;
                proof {
                    lemma_next_ready(self.ready@, 0);
                }
                self.proceed(0)
            },
            PollEvent::Read(outcome) => {
                let i: usize = match self.turn {
                    Turn::Reading(i) => i,
                    _ => 0,
                };
                assert(i < self.ready.len());
                proof {
                    lemma_next_ready(self.ready@, i + 1);
                }
                match outcome {
                    ReadOutcome::Message(message) => {
                        self.buf = message;
                        if self.buf.len() >= crate::ipc::METHOD_SIGN_LEN {
                            let method_num: u16 = crate::ipc::method_num(self.buf.as_slice());
                            let arguments = crate::ipc::arguments(self.buf.as_slice());
                            self.turn = Turn::Dispatching(i);
                            PollAction::Dispatch(method_num, arguments)
                        } else {
                            self.proceed(i + 1)
                        }
                    },
                    ReadOutcome::TryAgain => self.proceed(i + 1),
                    ReadOutcome::Failed => {
                        self.turn = Turn::Idle;
                        PollAction::Fail
                    },
                }
            },
            PollEvent::Dispatched(reply) => {
                let i: usize = match self.turn {
                    Turn::Dispatching(i) => i,
                    _ => 0,
                };
                self.turn = Turn::Writing(i);
                PollAction::Write(i, reply)
            },
            PollEvent::Written => {
                let i: usize = match self.turn {
                    Turn::Writing(i) => i,
                    _ => 0,
                };
                assert(i < self.ready.len());
                proof {
                    lemma_next_ready(self.ready@, i + 1);
                }
                self.proceed(i + 1)
            },
        }
    }
}

/// The sockets from `from` on that can be read, in order.
pub open spec fn ready_sockets(ready: Seq<bool>, from: int) -> Seq<int>
    decreases ready.len() - from,
{
    if from < 0 || from >= ready.len() {
        Seq::empty()
    } else if ready[from] {
        seq![from] + ready_sockets(ready, from + 1)
    } else {
        ready_sockets(ready, from + 1)
    }
}

/// The turns that a worker takes in the rest of a round, in order, where reading socket `i` gives
/// `outcomes(i)`. Each but the last, which is idle, is one action of [`Worker::poll`].
pub open spec fn turns(
    ready: Seq<bool>,
    turn: TurnView,
    outcomes: spec_fn(int) -> ReadOutcome,
) -> Seq<TurnView>
    decreases
            (match turn {
                TurnView::Idle => 0,
                TurnView::Reading(i) => 3 * (ready.len() - i) + 2,
                TurnView::Dispatching(i) => 3 * (ready.len() - i) + 1,
                TurnView::Writing(i) => 3 * (ready.len() - i),
            }),
{
    match turn {
        TurnView::Idle => seq![turn],
        TurnView::Reading(i) => if 0 <= i < ready.len() {
            proof {
                lemma_next_ready(ready, i + 1);
            }
            seq![turn] + turns(ready, turn_after_read(ready, i, outcomes(i)), outcomes)
        } else {
            Seq::empty()
        },
        TurnView::Dispatching(i) => if 0 <= i < ready.len() {
            seq![turn] + turns(ready, TurnView::Writing(i), outcomes)
        } else {
            Seq::empty()
        },
        TurnView::Writing(i) => if 0 <= i < ready.len() {
            proof {
                lemma_next_ready(ready, i + 1);
            }
            seq![turn] + turns(ready, turn_from(ready, i + 1), outcomes)
        } else {
            Seq::empty()
        },
    }
}

/// A round that is in some turn goes through that turn and then through those that follow the
/// event which ends it.
pub proof fn law_turns_follow_events<S, K>(
    w: WorkerView<S, K>,
    event: PollEvent,
    outcomes: spec_fn(int) -> ReadOutcome,
)
    requires
        w.wf(),
        !(event is Ready),
        w.awaits(event),
        event matches PollEvent::Read(outcome) ==> outcome == outcomes(w.turn->Reading_0),
    ensures
        turns(w.ready, w.turn, outcomes) == seq![w.turn] + turns(
            w.ready,
            w.after(event).turn,
            outcomes,
        ),
        w.after(event).ready == w.ready,
{
}

/// The sockets that are read in these turns, in order.
pub open spec fn sockets_read(turns: Seq<TurnView>) -> Seq<int>
    decreases turns.len(),
{
    if turns.len() == 0 {
        Seq::empty()
    } else {
        match turns[0] {
            TurnView::Reading(i) => seq![i] + sockets_read(turns.drop_first()),
            _ => sockets_read(turns.drop_first()),
        }
    }
}

/// The sockets whose calls the service is called for in these turns, in order.
pub open spec fn sockets_served(turns: Seq<TurnView>) -> Seq<int>
    decreases turns.len(),
{
    if turns.len() == 0 {
        Seq::empty()
    } else {
        match turns[0] {
            TurnView::Dispatching(i) => seq![i] + sockets_served(turns.drop_first()),
            _ => sockets_served(turns.drop_first()),
        }
    }
}

/// The sockets that a reply is written to in these turns, in order.
pub open spec fn sockets_written(turns: Seq<TurnView>) -> Seq<int>
    decreases turns.len(),
{
    if turns.len() == 0 {
        Seq::empty()
    } else {
        match turns[0] {
            TurnView::Writing(i) => seq![i] + sockets_written(turns.drop_first()),
            _ => sockets_written(turns.drop_first()),
        }
    }
}

/// Which sockets can be read and then give a message that calls a method.
pub open spec fn calling(ready: Seq<bool>, outcomes: spec_fn(int) -> ReadOutcome) -> Seq<bool> {
    Seq::new(ready.len(), |i: int| ready[i] && is_served(outcomes(i)))
}

/// [`ready_sockets`] lists exactly the sockets that can be read, each once, in order.
proof fn lemma_ready_sockets(ready: Seq<bool>, from: int)
    requires
        0 <= from,
    ensures
        forall|i: int| #[trigger]
            ready_sockets(ready, from).contains(i) <==> from <= i < ready.len() && ready[i],
        forall|a: int, b: int|
            0 <= a < b < ready_sockets(ready, from).len() ==> #[trigger] ready_sockets(
                ready,
                from,
            )[a] < #[trigger] ready_sockets(ready, from)[b],
    decreases ready.len() - from,
{
    if from < ready.len() {
        lemma_ready_sockets(ready, from + 1);
        let rest = ready_sockets(ready, from + 1);
        let all = ready_sockets(ready, from);
        if ready[from] {
            assert(all == seq![from] + rest);
            assert forall|i: int| #[trigger] all.contains(i) <==> from <= i < ready.len()
                && ready[i] by {
                if i == from {
                    assert(all[0] == from);
                } else if rest.contains(i) {
                    let k = rest.index_of(i);
                    assert(all[k + 1] == i);
                } else if all.contains(i) {
                    let k = all.index_of(i);
                    assert(rest[k - 1] == i);
                }
            }
            assert forall|a: int, b: int| 0 <= a < b < all.len() implies #[trigger] all[a]
                < #[trigger] all[b] by {
                assert(all[b] == rest[b - 1]);
                assert(rest.contains(rest[b - 1]));
                if a > 0 {
                    assert(all[a] == rest[a - 1]);
                }
            }
        }
    }
}

/// Where none of the sockets between `from` and `to` can be read, they are passed over.
proof fn lemma_pass_over(ready: Seq<bool>, from: int, to: int)
    requires
        0 <= from <= to <= ready.len(),
        forall|k: int| from <= k < to ==> !#[trigger] ready[k],
    ensures
        ready_sockets(ready, from) == ready_sockets(ready, to),
    decreases to - from,
{
    if from < to {
        lemma_pass_over(ready, from + 1, to);
    }
}

/// In a round in which no socket turns out broken, every socket that can be read is read exactly
/// once, in order, and no other is.
pub proof fn law_round_reads_ready(ready: Seq<bool>, outcomes: spec_fn(int) -> ReadOutcome)
    requires
        forall|i: int|
            0 <= i < ready.len() && #[trigger] ready[i] ==> !(outcomes(i) is Failed),
    ensures
        ({
            let read = sockets_read(turns(ready, turn_from(ready, 0), outcomes));
            &&& read == ready_sockets(ready, 0)
            &&& forall|i: int| #[trigger] read.contains(i) <==> 0 <= i < ready.len() && ready[i]
            &&& forall|a: int, b: int|
                0 <= a < b < read.len() ==> #[trigger] read[a] < #[trigger] read[b]
        }),
{
    lemma_round(ready, 0, ready.len() as int, outcomes);
    assert(ready.take(ready.len() as int) =~= ready);
    lemma_ready_sockets(ready, 0);
}

/// In such a round the service is called exactly for the messages that call a method, one call
/// for each, in the order of their sockets, and each socket that called is written a reply once.
pub proof fn law_round_serves_calls(ready: Seq<bool>, outcomes: spec_fn(int) -> ReadOutcome)
    requires
        forall|i: int|
            0 <= i < ready.len() && #[trigger] ready[i] ==> !(outcomes(i) is Failed),
    ensures
        ({
            let round = turns(ready, turn_from(ready, 0), outcomes);
            let served = sockets_served(round);
            &&& served == ready_sockets(calling(ready, outcomes), 0)
            &&& sockets_written(round) == served
            &&& forall|i: int| #[trigger]
                served.contains(i) <==> 0 <= i < ready.len() && ready[i] && is_served(outcomes(i))
            &&& forall|a: int, b: int|
                0 <= a < b < served.len() ==> #[trigger] served[a] < #[trigger] served[b]
        }),
{
    let callers = calling(ready, outcomes);
    lemma_round(ready, 0, ready.len() as int, outcomes);
    assert(callers.take(ready.len() as int) =~= callers);
    lemma_ready_sockets(callers, 0);
}

/// A broken socket ends the round: what is read are the sockets that can be read up to it, and
/// what is served are the calls that arrived before it.
pub proof fn law_round_ends_at_broken(
    ready: Seq<bool>,
    broken: int,
    outcomes: spec_fn(int) -> ReadOutcome,
)
    requires
        0 <= broken < ready.len(),
        ready[broken],
        outcomes(broken) is Failed,
        forall|i: int| 0 <= i < broken && #[trigger] ready[i] ==> !(outcomes(i) is Failed),
    ensures
        ({
            let round = turns(ready, turn_from(ready, 0), outcomes);
            let served = ready_sockets(calling(ready, outcomes).take(broken), 0);
            &&& sockets_read(round) == ready_sockets(ready.take(broken + 1), 0)
            &&& sockets_served(round) == served
            &&& sockets_written(round) == served
        }),
{
    let callers = calling(ready, outcomes);
    lemma_round(ready, 0, broken + 1, outcomes);
    lemma_drop_last_idle(callers.take(broken + 1), 0);
    assert(callers.take(broken + 1).drop_last() =~= callers.take(broken));
}

/// A last socket that cannot be read adds nothing.
proof fn lemma_drop_last_idle(ready: Seq<bool>, from: int)
    requires
        0 <= from < ready.len(),
        !ready.last(),
    ensures
        ready_sockets(ready, from) == ready_sockets(ready.drop_last(), from),
    decreases ready.len() - from,
{
    if from < ready.len() - 1 {
        lemma_drop_last_idle(ready, from + 1);
    } else {
        assert(ready_sockets(ready, from + 1) == Seq::<int>::empty());
    }
}

/// The rest of a round from `from` on that ends at `end`: there are no more sockets, or the one
/// before `end` is broken.
proof fn lemma_round(ready: Seq<bool>, from: int, end: int, outcomes: spec_fn(int) -> ReadOutcome)
    requires
        0 <= from <= end <= ready.len(),
        forall|i: int|
            0 <= i < end && #[trigger] ready[i] && outcomes(i) is Failed ==> i == end - 1,
        end < ready.len() ==> from < end && ready[end - 1] && outcomes(end - 1) is Failed,
    ensures
        ({
            let round = turns(ready, turn_from(ready, from), outcomes);
            let served = ready_sockets(calling(ready, outcomes).take(end), from);
            &&& sockets_read(round) == ready_sockets(ready.take(end), from)
            &&& sockets_served(round) == served
            &&& sockets_written(round) == served
        }),
    decreases ready.len() - from,
{
    let round = turns(ready, turn_from(ready, from), outcomes);
    let part = ready.take(end);
    let callers = calling(ready, outcomes).take(end);
    lemma_next_ready(ready, from);
    reveal_with_fuel(sockets_read, 4);
    reveal_with_fuel(sockets_served, 4);
    reveal_with_fuel(sockets_written, 4);
    match next_ready(ready, from) {
        None => {
            if end < ready.len() {
                assert(!ready[end - 1]);
            }
            lemma_pass_over(part, from, end);
            lemma_pass_over(callers, from, end);
            assert(round.drop_first() =~= Seq::<TurnView>::empty());
        },
        Some(j) => {
            assert(j < end);
            lemma_pass_over(part, from, j);
            lemma_pass_over(callers, from, j);
            if outcomes(j) is Failed {
                assert(round == seq![TurnView::Reading(j), TurnView::Idle]) by {
                    reveal_with_fuel(turns, 2);
                }
                let rest = seq![TurnView::Idle];
                assert(round.drop_first() =~= rest);
                assert(rest.drop_first() =~= Seq::<TurnView>::empty());
                assert(ready_sockets(part, j + 1) == Seq::<int>::empty());
                assert(ready_sockets(callers, j + 1) == Seq::<int>::empty());
            } else {
                lemma_round(ready, j + 1, end, outcomes);
                let rest = turns(ready, turn_from(ready, j + 1), outcomes);
                if is_served(outcomes(j)) {
                    let replied = seq![TurnView::Writing(j)] + rest;
                    let called = seq![TurnView::Dispatching(j)] + replied;
                    assert(round == seq![TurnView::Reading(j)] + called) by {
                        reveal_with_fuel(turns, 3);
                    }
                    assert(round.drop_first() =~= called);
                    assert(called.drop_first() =~= replied);
                    assert(replied.drop_first() =~= rest);
                } else {
                    assert(round == seq![TurnView::Reading(j)] + rest);
                    assert(round.drop_first() =~= rest);
                }
            }
        },
    }
}

/// Whatever was watched before, setting it anew gives exactly one entry for each socket, which
/// watches that socket for messages that can be read. Doing so again changes nothing.
pub proof fn law_every_socket_is_watched<S, K>(w: WorkerView<S, K>)
    requires
        w.sockets.len() <= usize::MAX,
    ensures
        ({
            let rebuilt = w.rebuilt();
            &&& rebuilt.polls.len() == w.sockets.len()
            &&& forall|i: int|
                0 <= i < w.sockets.len() ==> (#[trigger] rebuilt.polls[i]).socket == i
                    && rebuilt.polls[i].watch == PollInOut::In
            &&& rebuilt.sockets == w.sockets
            &&& rebuilt.service == w.service
            &&& rebuilt.rebuilt() == rebuilt
        }),
{
}

/// Exactly one entry is made for each of `n` sockets, in order, and it watches that socket for
/// messages that can be read. A worker is in order where its list is that one and its round
/// concerns sockets that it has.
pub proof fn law_watch_list<S, K>(w: WorkerView<S, K>, n: nat)
    ensures
        watch_all(n).len() == n,
        forall|i: int|
            0 <= i < n && i <= usize::MAX ==> (#[trigger] watch_all(n)[i]).socket == i
                && watch_all(n)[i].watch == PollInOut::In,
        w.wf() <==> {
            &&& w.polls == watch_all(w.sockets.len())
            &&& w.ready.len() <= w.sockets.len()
            &&& w.turn matches TurnView::Reading(i) ==> 0 <= i < w.ready.len()
            &&& w.turn matches TurnView::Dispatching(i) ==> 0 <= i < w.ready.len()
            &&& w.turn matches TurnView::Writing(i) ==> 0 <= i < w.ready.len()
        },
{
}

/// Each event is awaited in its own turn and in no other. Between rounds it is that the sockets
/// have been watched, one flag for each.
pub proof fn law_turns_await_events<S, K>(
    w: WorkerView<S, K>,
    flags: Vec<bool>,
    outcome: ReadOutcome,
    reply: Vec<u8>,
)
    ensures
        w.awaits(PollEvent::Ready(flags)) <==> w.turn is Idle && flags@.len() == w.polls.len(),
        w.awaits(PollEvent::Read(outcome)) <==> w.turn is Reading,
        w.awaits(PollEvent::Dispatched(reply)) <==> w.turn is Dispatching,
        w.awaits(PollEvent::Written) <==> w.turn is Writing,
{
}

/// A round begins with the first socket that can be read, and is over at once where there is none.
/// It goes by the flags that were given. The service, the sockets and what to watch stay.
pub proof fn law_ready_begins_the_round<S, K>(w: WorkerView<S, K>, flags: Vec<bool>)
    ensures
        ({
            let t = w.after(PollEvent::Ready(flags));
            &&& t.service == w.service
            &&& t.sockets == w.sockets
            &&& t.polls == w.polls
            &&& t.ready == flags@
            &&& match t.turn {
                TurnView::Reading(j) => {
                    &&& 0 <= j < flags@.len()
                    &&& flags@[j]
                    &&& forall|k: int| 0 <= k < j ==> !#[trigger] flags@[k]
                    &&& t.buf.len() == 0
                },
                TurnView::Idle => {
                    &&& forall|k: int| 0 <= k < flags@.len() ==> !#[trigger] flags@[k]
                    &&& t.buf == w.buf
                },
                _ => false,
            }
        }),
{
    lemma_next_ready(flags@, 0);
}

/// A message of two bytes or more that was read has the service called for its socket. A broken
/// socket ends the round. In every other case the next socket that can be read follows, and where
/// there is none the round is over. The service, the sockets, what to watch and what can be read
/// stay.
pub proof fn law_read_leads_to_call_or_next<S, K>(w: WorkerView<S, K>, i: int, outcome: ReadOutcome)
    requires
        w.turn == TurnView::Reading(i),
        0 <= i < w.ready.len(),
    ensures
        ({
            let t = w.after(PollEvent::Read(outcome));
            let calls = outcome matches ReadOutcome::Message(m) && m@.len() >= 2;
            &&& t == (WorkerView { turn: t.turn, buf: t.buf, ..w })
            &&& calls ==> t.turn == TurnView::Dispatching(i) && t.buf == outcome->Message_0@
            &&& outcome is Failed ==> t.turn is Idle && t.buf == w.buf
            &&& !calls && !(outcome is Failed) ==> match t.turn {
                TurnView::Reading(j) => {
                    &&& i < j < w.ready.len()
                    &&& w.ready[j]
                    &&& forall|k: int| i < k < j ==> !#[trigger] w.ready[k]
                    &&& t.buf.len() == 0
                },
                TurnView::Idle => {
                    &&& forall|k: int| i < k < w.ready.len() ==> !#[trigger] w.ready[k]
                    &&& t.buf == (match outcome {
                        ReadOutcome::Message(m) => m@,
                        _ => w.buf,
                    })
                },
                _ => false,
            }
        }),
{
    lemma_next_ready(w.ready, i + 1);
}

/// Once the service has replied, the reply is written to the socket that called. Once it is
/// written, the next socket that can be read follows, and where there is none the round is over.
/// Neither changes the service, the sockets, what to watch or what can be read.
pub proof fn law_reply_is_written_to_its_caller<S, K>(w: WorkerView<S, K>, i: int, reply: Vec<u8>)
    requires
        0 <= i < w.ready.len(),
    ensures
        w.turn == TurnView::Dispatching(i) ==> w.after(PollEvent::Dispatched(reply)) == (
        WorkerView { turn: TurnView::Writing(i), ..w }),
        w.turn == TurnView::Writing(i) ==> {
            let t = w.after(PollEvent::Written);
            &&& t == (WorkerView { turn: t.turn, buf: t.buf, ..w })
            &&& match t.turn {
                TurnView::Reading(j) => {
                    &&& i < j < w.ready.len()
                    &&& w.ready[j]
                    &&& forall|k: int| i < k < j ==> !#[trigger] w.ready[k]
                    &&& t.buf.len() == 0
                },
                TurnView::Idle => {
                    &&& forall|k: int| i < k < w.ready.len() ==> !#[trigger] w.ready[k]
                    &&& t.buf == w.buf
                },
                _ => false,
            }
        },
{
    lemma_next_ready(w.ready, i + 1);
}

/// The round that follows when the sockets have been watched reads exactly the sockets that can be
/// read, each once and in order, up to the first one that turns out broken, where `end` is one
/// past it, or past the last socket where none does. For each of those whose message has two bytes
/// or more the service is called once and a reply written once, in the same order, and for no
/// other.
pub proof fn law_round_serves_what_is_ready<S, K>(
    w: WorkerView<S, K>,
    flags: Vec<bool>,
    end: int,
    outcomes: spec_fn(int) -> ReadOutcome,
)
    requires
        0 <= end <= flags@.len(),
        forall|i: int|
            0 <= i < end && #[trigger] flags@[i] && outcomes(i) is Failed ==> i == end - 1,
        end < flags@.len() ==> end > 0 && flags@[end - 1] && outcomes(end - 1) is Failed,
    ensures
        ({
            let t = w.after(PollEvent::Ready(flags));
            let round = turns(t.ready, t.turn, outcomes);
            let read = sockets_read(round);
            let served = sockets_served(round);
            &&& forall|i: int| #[trigger] read.contains(i) <==> 0 <= i < end && flags@[i]
            &&& forall|a: int, b: int|
                0 <= a < b < read.len() ==> #[trigger] read[a] < #[trigger] read[b]
            &&& forall|i: int| #[trigger]
                served.contains(i) <==> 0 <= i < end && flags@[i] && (outcomes(
                    i,
                ) matches ReadOutcome::Message(m) && m@.len() >= 2)
            &&& forall|a: int, b: int|
                0 <= a < b < served.len() ==> #[trigger] served[a] < #[trigger] served[b]
            &&& sockets_written(round) == served
        }),
{
    let ready = flags@;
    lemma_round(ready, 0, end, outcomes);
    lemma_ready_sockets(ready.take(end), 0);
    lemma_ready_sockets(calling(ready, outcomes).take(end), 0);
}

} // verus!
