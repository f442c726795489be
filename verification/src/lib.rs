//! A verified wire-protocol front end for a Redis-compatible key-value
//! service: an incremental frame decoder, a command parser, a reply encoder,
//! a per-connection transaction state machine, and the demultiplexing logic
//! for the batched execution bridge into a storage engine.

pub mod ascii;
pub mod bridge;
pub mod command;
pub mod compound;
pub mod conn;
pub mod decoder;
pub mod frame;
pub mod grammar;
pub mod laws;
pub mod reply;
pub mod stream;
pub mod txn;
