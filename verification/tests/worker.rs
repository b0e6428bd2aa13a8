use parity::ipc::{arguments, method_num};
use parity::worker::{
    DuplexLink, PollAction, PollEvent, PollFd, PollInOut, ReadOutcome, SocketError, Worker,
};
use std::sync::{Arc, RwLock};

/// A service whose methods can be called by message.
trait IpcInterface<T> {
    fn dispatch_buf(&self, method_num: u16, buf: &[u8]) -> Vec<u8>;
}

struct TestInvoke {
    method_num: u16,
    params: Vec<u8>,
}

struct DummyService {
    methods_stack: RwLock<Vec<TestInvoke>>,
}

impl DummyService {
    fn new() -> DummyService {
        DummyService { methods_stack: RwLock::new(Vec::new()) }
    }
}

impl IpcInterface<DummyService> for DummyService {
    fn dispatch_buf(&self, method_num: u16, buf: &[u8]) -> Vec<u8> {
        self.methods_stack.write().unwrap().push(TestInvoke { method_num, params: buf.to_vec() });
        vec![]
    }
}

/// Replies with the number of the method and the arguments in reverse.
struct Mirror;

impl IpcInterface<Mirror> for Mirror {
    fn dispatch_buf(&self, method_num: u16, buf: &[u8]) -> Vec<u8> {
        let mut reply = vec![(method_num / 256) as u8, (method_num % 256) as u8];
        reply.extend(buf.iter().rev());
        reply
    }
}

/// One end of a link whose other end is the test.
struct Pipe {
    addr: String,
    inbox: Vec<Vec<u8>>,
    outbox: Vec<Vec<u8>>,
    broken: bool,
    nothing_yet: bool,
}

fn bind(addr: &str) -> DuplexLink<Pipe> {
    DuplexLink::Bound(Pipe {
        addr: addr.to_string(),
        inbox: vec![],
        outbox: vec![],
        broken: false,
        nothing_yet: false,
    })
}

fn dummy_write<S: IpcInterface<S>>(worker: &mut Worker<S, Pipe>, addr: &str, buf: &[u8]) {
    for i in 0..worker.sockets().len() {
        if worker.sockets()[i].addr == addr {
            worker.socket_mut(i).inbox.push(buf.to_vec());
            return;
        }
    }
    panic!("nobody listens at {}", addr);
}

/// Runs one round of `worker` and gives the sockets that were read, in order.
fn serve<S: IpcInterface<S>>(worker: &mut Worker<S, Pipe>) -> (Vec<usize>, bool) {
    let mut read = vec![];
    let mut ready = vec![];
    for fd in worker.polls() {
        assert_eq!(fd.watch, PollInOut::In);
        let pipe = &worker.sockets()[fd.socket];
        ready.push(!pipe.inbox.is_empty() || pipe.broken || pipe.nothing_yet);
    }
    let mut action = worker.poll(PollEvent::Ready(ready));
    loop {
        action = match action {
            PollAction::Read(i) => {
                read.push(i);
                let pipe = worker.socket_mut(i);
                let outcome = if pipe.broken {
                    ReadOutcome::Failed
                } else if pipe.inbox.is_empty() {
                    ReadOutcome::TryAgain
                } else {
                    ReadOutcome::Message(pipe.inbox.remove(0))
                };
                worker.poll(PollEvent::Read(outcome))
            }
            PollAction::Dispatch(method_num, buf) => {
                let reply = worker.service().dispatch_buf(method_num, &buf);
                worker.poll(PollEvent::Dispatched(reply))
            }
            PollAction::Write(i, reply) => {
                worker.socket_mut(i).outbox.push(reply);
                worker.poll(PollEvent::Written)
            }
            PollAction::Done => return (read, true),
            PollAction::Fail => return (read, false),
        }
    }
}

#[test]
fn can_create_worker() {
    let worker = Worker::<DummyService, Pipe>::new(Arc::new(DummyService::new()));
    assert_eq!(0, worker.sockets().len());
}

#[test]
fn can_add_duplex_socket_to_worker() {
    let mut worker = Worker::<DummyService, Pipe>::new(Arc::new(DummyService::new()));
    worker.add_duplex(bind("ipc:///tmp/parity-test10.ipc")).unwrap();
    assert_eq!(1, worker.sockets().len());
}

#[test]
fn worker_can_poll_empty() {
    let service = Arc::new(DummyService::new());
    let mut worker = Worker::<DummyService, Pipe>::new(service.clone());
    worker.add_duplex(bind("ipc:///tmp/parity-test20.ipc")).unwrap();
    serve(&mut worker);
    assert_eq!(0, service.methods_stack.read().unwrap().len());
}

#[test]
fn worker_can_poll() {
    let url = "ipc:///tmp/parity-test30.ipc";

    let mut worker = Worker::<DummyService, Pipe>::new(Arc::new(DummyService::new()));
    worker.add_duplex(bind(url)).unwrap();

    dummy_write(&mut worker, url, &vec![0, 0, 7, 7, 6, 6]);
    serve(&mut worker);

    assert_eq!(1, worker.service().methods_stack.read().unwrap().len());
    assert_eq!(0, worker.service().methods_stack.read().unwrap()[0].method_num);
    assert_eq!([7, 7, 6, 6], worker.service().methods_stack.read().unwrap()[0].params[..]);
}

#[test]
fn worker_can_poll_long() {
    let url = "ipc:///tmp/parity-test40.ipc";

    let mut worker = Worker::<DummyService, Pipe>::new(Arc::new(DummyService::new()));
    worker.add_duplex(bind(url)).unwrap();

    let message = [0u8; 1024 * 1024];

    dummy_write(&mut worker, url, &message);
    serve(&mut worker);

    assert_eq!(1, worker.service().methods_stack.read().unwrap().len());
    assert_eq!(0, worker.service().methods_stack.read().unwrap()[0].method_num);
    assert_eq!(
        vec![0u8; 1024 * 1024 - 2],
        worker.service().methods_stack.read().unwrap()[0].params
    );
}

#[test]
fn failed_links_are_refused_and_change_nothing() {
    let mut worker = Worker::<DummyService, Pipe>::new(Arc::new(DummyService::new()));
    assert_eq!(worker.add_duplex(DuplexLink::NotCreated), Err(SocketError::DuplexLink));
    assert_eq!(worker.add_duplex(DuplexLink::NotBound), Err(SocketError::DuplexLink));
    assert_eq!(0, worker.sockets().len());
    assert_eq!(0, worker.polls().len());
}

#[test]
fn every_socket_is_watched_for_input() {
    let mut worker = Worker::<DummyService, Pipe>::new(Arc::new(DummyService::new()));
    for addr in ["a", "b", "c"] {
        worker.add_duplex(bind(addr)).unwrap();
    }
    let expected: Vec<PollFd> =
        (0..3).map(|i| PollFd { socket: i, watch: PollInOut::In }).collect();
    assert_eq!(&expected, worker.polls());
}

#[test]
fn method_number_is_little_endian() {
    assert_eq!(0x0201, method_num(&[1, 2]));
    assert_eq!(0xffff, method_num(&[255, 255, 9]));
    assert_eq!(256, method_num(&[0, 1, 9]));
}

#[test]
fn arguments_follow_the_method_number() {
    assert_eq!(vec![9, 8, 7], arguments(&[1, 2, 9, 8, 7]));
    assert!(arguments(&[1, 2]).is_empty());
}

/// A worker with one socket that has just been found readable.
fn reading_worker() -> Worker<DummyService, Pipe> {
    let mut worker = Worker::new(Arc::new(DummyService::new()));
    worker.add_duplex(bind("a")).unwrap();
    assert!(matches!(worker.poll(PollEvent::Ready(vec![true])), PollAction::Read(0)));
    worker
}

#[test]
fn message_is_dispatched_once_before_its_reply_is_written() {
    for (message, method, payload) in
        [(vec![1, 2, 9], 513, vec![9]), (vec![255, 255], 65535, vec![])]
    {
        let mut worker = reading_worker();
        match worker.poll(PollEvent::Read(ReadOutcome::Message(message))) {
            PollAction::Dispatch(n, buf) => assert_eq!((method, payload), (n, buf)),
            _ => panic!("expected a call"),
        }
        match worker.poll(PollEvent::Dispatched(vec![4, 2])) {
            PollAction::Write(i, reply) => assert_eq!((0, vec![4, 2]), (i, reply)),
            _ => panic!("expected a reply"),
        }
        assert!(matches!(worker.poll(PollEvent::Written), PollAction::Done));
    }
}

#[test]
fn nothing_is_dispatched_without_a_call() {
    for outcome in [
        ReadOutcome::Message(vec![]),
        ReadOutcome::Message(vec![1]),
        ReadOutcome::TryAgain,
    ] {
        let mut worker = reading_worker();
        assert!(matches!(worker.poll(PollEvent::Read(outcome)), PollAction::Done));
    }
    let mut worker = reading_worker();
    assert!(matches!(worker.poll(PollEvent::Read(ReadOutcome::Failed)), PollAction::Fail));
}

#[test]
fn watching_anew_changes_nothing_that_is_right() {
    let mut worker = Worker::<DummyService, Pipe>::new(Arc::new(DummyService::new()));
    worker.rebuild_poll_request();
    assert!(worker.polls().is_empty());
    worker.add_duplex(bind("a")).unwrap();
    worker.add_duplex(bind("b")).unwrap();
    let before = worker.polls().clone();
    worker.rebuild_poll_request();
    assert_eq!(&before, worker.polls());
    assert_eq!(2, worker.sockets().len());
}

#[test]
fn reply_goes_back_to_the_socket_that_called() {
    let mut worker = Worker::<Mirror, Pipe>::new(Arc::new(Mirror));
    worker.add_duplex(bind("a")).unwrap();
    worker.add_duplex(bind("b")).unwrap();
    dummy_write(&mut worker, "b", &[3, 1, 10, 20, 30]);
    assert_eq!((vec![1], true), serve(&mut worker));
    assert!(worker.sockets()[0].outbox.is_empty());
    assert_eq!(vec![vec![1, 3, 30, 20, 10]], worker.sockets()[1].outbox);
}

#[test]
fn round_reads_ready_sockets_in_order() {
    let mut worker = Worker::<DummyService, Pipe>::new(Arc::new(DummyService::new()));
    for addr in ["a", "b", "c", "d", "e"] {
        worker.add_duplex(bind(addr)).unwrap();
    }
    dummy_write(&mut worker, "d", &[4, 0]);
    dummy_write(&mut worker, "a", &[1, 0, 77]);
    dummy_write(&mut worker, "b", &[9]);
    worker.socket_mut(4).nothing_yet = true;
    assert_eq!((vec![0, 1, 3, 4], true), serve(&mut worker));
    let calls = worker.service().methods_stack.read().unwrap();
    assert_eq!(2, calls.len());
    assert_eq!((1, vec![77]), (calls[0].method_num, calls[0].params.clone()));
    assert_eq!((4, vec![]), (calls[1].method_num, calls[1].params.clone()));
}

#[test]
fn short_messages_are_not_answered() {
    let mut worker = Worker::<Mirror, Pipe>::new(Arc::new(Mirror));
    worker.add_duplex(bind("a")).unwrap();
    dummy_write(&mut worker, "a", &[]);
    assert_eq!((vec![0], true), serve(&mut worker));
    dummy_write(&mut worker, "a", &[5]);
    assert_eq!((vec![0], true), serve(&mut worker));
    assert!(worker.sockets()[0].outbox.is_empty());
    dummy_write(&mut worker, "a", &[5, 0]);
    assert_eq!((vec![0], true), serve(&mut worker));
    assert_eq!(vec![vec![0, 5]], worker.sockets()[0].outbox);
}

#[test]
fn broken_socket_ends_the_round() {
    let mut worker = Worker::<DummyService, Pipe>::new(Arc::new(DummyService::new()));
    for addr in ["a", "b", "c"] {
        worker.add_duplex(bind(addr)).unwrap();
    }
    dummy_write(&mut worker, "a", &[1, 0]);
    dummy_write(&mut worker, "c", &[2, 0]);
    worker.socket_mut(1).broken = true;
    assert_eq!((vec![0, 1], false), serve(&mut worker));
    assert_eq!(1, worker.service().methods_stack.read().unwrap().len());
    worker.socket_mut(1).broken = false;
    assert_eq!((vec![2], true), serve(&mut worker));
    assert_eq!(2, worker.service().methods_stack.read().unwrap().len());
}
