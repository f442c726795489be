use std::collections::HashMap;

use mako::bridge::{BridgeOp, OpResult};
use mako::command::Opcode;
use mako::conn::{Connection, PollStep};

/// A minimal stand-in for the storage engine: an in-memory map that answers
/// GET and SET and fails every other operation.
struct MapEngine {
    map: HashMap<Vec<u8>, Vec<u8>>,
}

impl MapEngine {
    fn new() -> MapEngine {
        MapEngine { map: HashMap::new() }
    }

    fn run_one(&mut self, op: &BridgeOp) -> OpResult {
        match op.op {
            Opcode::Get => OpResult {
                ok: true,
                payload: self.map.get(&op.key).cloned(),
            },
            Opcode::SetCmd => {
                if let Some(v) = &op.val {
                    self.map.insert(op.key.clone(), v.clone());
                    OpResult { ok: true, payload: None }
                } else {
                    OpResult { ok: false, payload: None }
                }
            },
            _ => OpResult { ok: false, payload: None },
        }
    }

    fn run(&mut self, ops: &[BridgeOp]) -> Option<Vec<OpResult>> {
        Some(ops.iter().map(|op| self.run_one(op)).collect())
    }
}

/// Feeds one read's worth of bytes, processes every buffered frame against
/// the engine, and returns the flushed output; mirrors the driver loop.
fn round(conn: &mut Connection, engine: &mut MapEngine, read: &[u8]) -> Vec<u8> {
    conn.feed(read);
    let mut polls = 0usize;
    loop {
        match conn.poll() {
            PollStep::NeedInput => break,
            PollStep::Progress => {},
            PollStep::CallEngine => {
                let outcome = engine.run(conn.pending_ops());
                conn.complete(outcome);
            },
            PollStep::Fatal => break,
        }
        polls += 1;
        assert!(polls < 10_000, "driver loop did not settle");
    }
    conn.take_output()
}

#[test]
fn set_then_get_returns_value() {
    let mut conn = Connection::new(1 << 20);
    let mut engine = MapEngine::new();
    let out = round(&mut conn, &mut engine, b"*3\r\n$3\r\nSET\r\n$1\r\nk\r\n$5\r\nhello\r\n");
    assert!(out == b"+OK\r\n".to_vec());
    let out = round(&mut conn, &mut engine, b"*2\r\n$3\r\nGET\r\n$1\r\nk\r\n");
    assert!(out == b"$5\r\nhello\r\n".to_vec());
}

#[test]
fn get_of_never_set_key_is_nil() {
    let mut conn = Connection::new(1 << 20);
    let mut engine = MapEngine::new();
    let out = round(&mut conn, &mut engine, b"*2\r\n$3\r\nGET\r\n$6\r\nnosuch\r\n");
    assert!(out == b"$-1\r\n".to_vec());
}

#[test]
fn transaction_round_trip_over_the_wire() {
    let mut conn = Connection::new(1 << 20);
    let mut engine = MapEngine::new();
    let wire = b"*1\r\n$5\r\nMULTI\r\n\
                 *3\r\n$3\r\nSET\r\n$1\r\na\r\n$1\r\n1\r\n\
                 *3\r\n$3\r\nSET\r\n$1\r\nb\r\n$1\r\n2\r\n\
                 *1\r\n$4\r\nEXEC\r\n";
    let out = round(&mut conn, &mut engine, wire);
    assert!(out == b"+OK\r\n+QUEUED\r\n+QUEUED\r\n*2\r\n+OK\r\n+OK\r\n".to_vec());
    // both writes reached the engine, in order
    assert!(engine.map.get(&b"a".to_vec()) == Some(&b"1".to_vec()));
    assert!(engine.map.get(&b"b".to_vec()) == Some(&b"2".to_vec()));
    // a second EXEC without a new MULTI is the error
    let out = round(&mut conn, &mut engine, b"*1\r\n$4\r\nEXEC\r\n");
    assert!(out == b"-ERR EXEC without MULTI\r\n".to_vec());
}

#[test]
fn nested_multi_keeps_transaction_usable() {
    let mut conn = Connection::new(1 << 20);
    let mut engine = MapEngine::new();
    let wire = b"*1\r\n$5\r\nMULTI\r\n\
                 *3\r\n$3\r\nSET\r\n$1\r\nx\r\n$1\r\n9\r\n\
                 *1\r\n$5\r\nMULTI\r\n\
                 *1\r\n$4\r\nEXEC\r\n";
    let out = round(&mut conn, &mut engine, wire);
    assert!(
        out == b"+OK\r\n+QUEUED\r\n-ERR MULTI calls can not be nested\r\n*1\r\n+OK\r\n".to_vec()
    );
    assert!(engine.map.get(&b"x".to_vec()) == Some(&b"9".to_vec()));
}

#[test]
fn discard_drops_queued_commands() {
    let mut conn = Connection::new(1 << 20);
    let mut engine = MapEngine::new();
    let wire = b"*1\r\n$5\r\nMULTI\r\n\
                 *3\r\n$3\r\nSET\r\n$1\r\na\r\n$1\r\n1\r\n\
                 *3\r\n$3\r\nSET\r\n$1\r\nb\r\n$1\r\n2\r\n\
                 *1\r\n$7\r\nDISCARD\r\n\
                 *1\r\n$5\r\nMULTI\r\n\
                 *1\r\n$4\r\nEXEC\r\n";
    let out = round(&mut conn, &mut engine, wire);
    assert!(out == b"+OK\r\n+QUEUED\r\n+QUEUED\r\n+OK\r\n+OK\r\n*0\r\n".to_vec());
    // the discarded writes never reached the engine
    assert!(engine.map.is_empty());
}

#[test]
fn unknown_command_is_local_error_and_state_survives() {
    let mut conn = Connection::new(1 << 20);
    let mut engine = MapEngine::new();
    // outside a transaction
    let out = round(&mut conn, &mut engine, b"*2\r\n$3\r\nFOO\r\n$1\r\nx\r\n");
    assert!(out == b"-ERR unsupported command\r\n".to_vec());
    // inside one: the error is immediate, nothing is queued, and the
    // transaction stays open for valid commands
    let wire = b"*1\r\n$5\r\nMULTI\r\n\
                 *2\r\n$3\r\nFOO\r\n$1\r\nx\r\n\
                 *3\r\n$3\r\nSET\r\n$1\r\nk\r\n$1\r\n7\r\n\
                 *1\r\n$4\r\nEXEC\r\n";
    let out = round(&mut conn, &mut engine, wire);
    assert!(
        out == b"+OK\r\n-ERR unsupported command\r\n+QUEUED\r\n*1\r\n+OK\r\n".to_vec()
    );
    assert!(engine.map.get(&b"k".to_vec()) == Some(&b"7".to_vec()));
}

#[test]
fn pipelined_pings_one_read_one_flush() {
    let mut conn = Connection::new(1 << 20);
    let n = 50usize;
    let mut wire = Vec::new();
    for _ in 0..n {
        wire.extend_from_slice(b"*1\r\n$4\r\nPING\r\n");
    }
    // a single feed stands for a single read
    conn.feed(&wire);
    let mut progressed = 0usize;
    loop {
        match conn.poll() {
            PollStep::Progress => progressed += 1,
            PollStep::NeedInput => break,
            _ => panic!("pings never call the engine and never fail"),
        }
    }
    assert!(progressed == n);
    // one flush carries all replies, in order
    let out = conn.take_output();
    let mut expected = Vec::new();
    for _ in 0..n {
        expected.extend_from_slice(b"+PONG\r\n");
    }
    assert!(out == expected);
}

#[test]
fn bridge_overall_failure_aborts_transaction() {
    let mut conn = Connection::new(1 << 20);
    let wire = b"*1\r\n$5\r\nMULTI\r\n\
                 *3\r\n$3\r\nSET\r\n$1\r\na\r\n$1\r\n1\r\n\
                 *3\r\n$3\r\nSET\r\n$1\r\nb\r\n$1\r\n2\r\n\
                 *1\r\n$4\r\nEXEC\r\n";
    conn.feed(wire);
    let mut saw_call = false;
    loop {
        match conn.poll() {
            PollStep::NeedInput => break,
            PollStep::Progress => {},
            PollStep::CallEngine => {
                assert!(conn.pending_is_batch());
                assert!(conn.pending_ops().len() == 2);
                // the engine reports overall failure
                conn.complete(None);
                saw_call = true;
            },
            PollStep::Fatal => panic!("well-formed stream"),
        }
    }
    assert!(saw_call);
    let out = conn.take_output();
    assert!(out == b"+OK\r\n+QUEUED\r\n+QUEUED\r\n*-1\r\n".to_vec());
}

#[test]
fn malformed_stream_is_fatal_after_one_error_reply() {
    let mut conn = Connection::new(1 << 20);
    conn.feed(b"!bogus\r\n");
    match conn.poll() {
        PollStep::Fatal => {},
        _ => panic!("a malformed tag is connection-fatal"),
    }
    assert!(!conn.is_alive());
    let out = conn.take_output();
    assert!(out == b"-ERR protocol error\r\n".to_vec());
}

#[test]
fn chunked_reads_decode_like_one_read() {
    let mut conn = Connection::new(1 << 20);
    let mut engine = MapEngine::new();
    // the SET arrives split across three reads; replies only come once the
    // frame completes
    let out = round(&mut conn, &mut engine, b"*3\r\n$3\r\nSE");
    assert!(out.is_empty());
    let out = round(&mut conn, &mut engine, b"T\r\n$1\r\nk\r\n$2\r\n");
    assert!(out.is_empty());
    let out = round(&mut conn, &mut engine, b"vw\r\n");
    assert!(out == b"+OK\r\n".to_vec());
    assert!(engine.map.get(&b"k".to_vec()) == Some(&b"vw".to_vec()));
}
