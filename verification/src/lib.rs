//! A covert datagram transport.
//!
//! Messages travel between endpoints that share keys, as datagrams that
//! look like random bytes. This crate holds the rules of the transport:
//!
//! - [`protocol`]: the packet codec, which frames a payload, pads it and
//!   seals it under a key, and opens datagrams again;
//! - [`network`]: the chunker, and what the transmitter decides for each
//!   command and each tick of its noise timer;
//! - [`processor`]: trial decryption across keys and patterns, the intake
//!   of chunks and the delivery of completed messages;
//! - [`reassembly`]: the sessions in which chunks wait for their message;
//! - [`round_trip`]: the theorem that chunking and reassembly undo each
//!   other, whatever the order of arrival;
//! - [`state`]: the data types, and the state that the tasks share;
//! - [`primitives`]: the calls into other crates, whose contracts are
//!   assumed.
//!
//! Sockets, timers, channels and the JSON form of headers and messages are
//! the business of the program around this crate.

pub mod network;
pub mod primitives;
pub mod processor;
pub mod protocol;
pub mod reassembly;
pub mod round_trip;
pub mod state;
