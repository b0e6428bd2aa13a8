//! Decisions of an Ethereum node: which block is sealed next, and how calls that arrive on
//! sockets are served.
//!
//! Nothing here reads, writes or waits. A function takes in what happened and says what is to be
//! done next, and its contract says exactly which step follows which event.
pub mod block;
pub mod hash;
pub mod history;
pub mod ipc;
pub mod miner;
pub mod operations;
pub mod pushing;
pub mod service;
pub mod uint;
pub mod using_queue;
pub mod worker;
