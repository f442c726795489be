use mako::ascii::ascii_eq_ci;
use mako::bridge::{batch_reply_exec, single_reply_exec, BridgeOp, OpResult};
use mako::command::{parse, parse_opcode, Opcode};
use mako::compound::{split_bytes_exec, split_pairs_exec};
use mako::decoder::Decoder;
use mako::frame::{Frame, Item};
use mako::reply::{encode_reply_into, Reply, ReplyItem};
use mako::txn::{Decision, TransactionState};

fn encode(r: &Reply) -> Vec<u8> {
    let mut out = Vec::new();
    encode_reply_into(&mut out, r);
    out
}

fn drain(d: &mut Decoder) -> Vec<Frame> {
    let mut frames = Vec::new();
    loop {
        match d.next() {
            Ok(Some(f)) => frames.push(f),
            Ok(None) => return frames,
            Err(_) => panic!("unexpected protocol error"),
        }
    }
}

#[test]
fn ascii_case_insensitive_equality() {
    assert!(ascii_eq_ci(b"GeT", b"get"));
    assert!(ascii_eq_ci(b"PING", b"ping"));
    assert!(!ascii_eq_ci(b"GET", b"GETS"));
    assert!(!ascii_eq_ci(b"GET", b"SET"));
    assert!(ascii_eq_ci(b"", b""));
}

#[test]
fn opcode_lookup_is_case_insensitive() {
    assert!(parse_opcode(b"get") == Opcode::Get);
    assert!(parse_opcode(b"GET") == Opcode::Get);
    assert!(parse_opcode(b"SeT") == Opcode::SetCmd);
    assert!(parse_opcode(b"HGETALL") == Opcode::HGetAll);
    assert!(parse_opcode(b"foo") == Opcode::Invalid);
    assert!(parse_opcode(b"") == Opcode::Invalid);
}

#[test]
fn decoder_whole_stream() {
    let mut d = Decoder::new(1 << 20);
    d.feed(b"*2\r\n$3\r\nGET\r\n$1\r\nk\r\n");
    let frames = drain(&mut d);
    assert!(frames.len() == 1);
    let expected = Frame::Array(vec![
        Item::BulkString(b"GET".to_vec()),
        Item::BulkString(b"k".to_vec()),
    ]);
    assert!(frames[0] == expected);
}

#[test]
fn decoder_chunked_equals_whole() {
    let stream: &[u8] = b"*2\r\n$3\r\nSET\r\n$2\r\nab\r\n+PONG\r\n:42\r\n$-1\r\n*-1\r\n";
    let mut whole = Decoder::new(1 << 20);
    whole.feed(stream);
    let expected = drain(&mut whole);
    assert!(expected.len() == 5);

    // one byte at a time
    let mut d = Decoder::new(1 << 20);
    let mut got = Vec::new();
    for b in stream {
        d.feed(&[*b]);
        got.append(&mut drain(&mut d));
    }
    assert!(got == expected);

    // a few uneven chunks
    let mut d2 = Decoder::new(1 << 20);
    let mut got2 = Vec::new();
    for chunk in [&stream[..3], &stream[3..17], &stream[17..18], &stream[18..]] {
        d2.feed(chunk);
        got2.append(&mut drain(&mut d2));
    }
    assert!(got2 == expected);
}

#[test]
fn decoder_reports_incomplete_then_finishes() {
    let mut d = Decoder::new(1 << 20);
    d.feed(b"*1\r\n$4\r\nPI");
    assert!(matches!(d.next(), Ok(None)));
    d.feed(b"NG\r\n");
    let frames = drain(&mut d);
    assert!(frames.len() == 1);
    assert!(frames[0] == Frame::Array(vec![Item::BulkString(b"PING".to_vec())]));
}

#[test]
fn decoder_rejects_malformed_tag() {
    let mut d = Decoder::new(1 << 20);
    d.feed(b"!oops\r\n");
    assert!(d.next().is_err());
}

#[test]
fn decoder_rejects_bad_length_and_oversize() {
    let mut d = Decoder::new(1 << 20);
    d.feed(b"$-2\r\n");
    assert!(d.next().is_err());

    let mut d2 = Decoder::new(16);
    d2.feed(b"$17\r\n");
    assert!(d2.next().is_err());
}

#[test]
fn decoder_scalar_frames() {
    let mut d = Decoder::new(1 << 20);
    d.feed(b"+OK\r\n-ERR nope\r\n:-7\r\n");
    let frames = drain(&mut d);
    assert!(frames.len() == 3);
    assert!(frames[0] == Frame::Scalar(Item::SimpleString(b"OK".to_vec())));
    assert!(frames[1] == Frame::Scalar(Item::SimpleError(b"ERR nope".to_vec())));
    assert!(frames[2] == Frame::Scalar(Item::Integer(-7)));
}

#[test]
fn parse_builds_typed_commands() {
    let f = Frame::Array(vec![
        Item::BulkString(b"set".to_vec()),
        Item::BulkString(b"k".to_vec()),
        Item::BulkString(b"v".to_vec()),
    ]);
    let c = parse(&f).expect("SET parses");
    assert!(c.op == Opcode::SetCmd);
    assert!(c.key == b"k".to_vec());
    assert!(c.args == vec![b"v".to_vec()]);

    let g = Frame::Array(vec![
        Item::SimpleString(b"GET".to_vec()),
        Item::BulkString(b"k".to_vec()),
    ]);
    let c = parse(&g).expect("GET parses");
    assert!(c.op == Opcode::Get);
    assert!(c.key == b"k".to_vec());
    assert!(c.args.is_empty());
}

#[test]
fn parse_rejects_bad_shapes() {
    // not an array
    assert!(parse(&Frame::Scalar(Item::SimpleString(b"GET".to_vec()))).is_none());
    // unknown opcode
    assert!(parse(&Frame::Array(vec![Item::BulkString(b"FOO".to_vec())])).is_none());
    // arity too small
    assert!(parse(&Frame::Array(vec![Item::BulkString(b"GET".to_vec())])).is_none());
    // non-string argument
    assert!(parse(&Frame::Array(vec![
        Item::BulkString(b"GET".to_vec()),
        Item::Integer(3),
    ]))
    .is_none());
    // empty array
    assert!(parse(&Frame::Array(vec![])).is_none());
}

#[test]
fn parse_checks_exact_and_variadic_arity() {
    // HSET takes exactly key, field, value
    let ok = Frame::Array(vec![
        Item::BulkString(b"hset".to_vec()),
        Item::BulkString(b"h".to_vec()),
        Item::BulkString(b"f".to_vec()),
        Item::BulkString(b"v".to_vec()),
    ]);
    let c = parse(&ok).expect("HSET parses");
    assert!(c.op == Opcode::HSet);
    assert!(c.args == vec![b"f".to_vec(), b"v".to_vec()]);
    let extra = Frame::Array(vec![
        Item::BulkString(b"hset".to_vec()),
        Item::BulkString(b"h".to_vec()),
        Item::BulkString(b"f".to_vec()),
        Item::BulkString(b"v".to_vec()),
        Item::BulkString(b"x".to_vec()),
    ]);
    assert!(parse(&extra).is_none());

    // a variadic opcode with an empty collected list is rejected
    let empty_push = Frame::Array(vec![
        Item::BulkString(b"lpush".to_vec()),
        Item::BulkString(b"l".to_vec()),
    ]);
    assert!(parse(&empty_push).is_none());
    let push = Frame::Array(vec![
        Item::BulkString(b"lpush".to_vec()),
        Item::BulkString(b"l".to_vec()),
        Item::BulkString(b"a".to_vec()),
        Item::BulkString(b"b".to_vec()),
    ]);
    let c = parse(&push).expect("LPUSH parses");
    assert!(c.args == vec![b"a".to_vec(), b"b".to_vec()]);
}

#[test]
fn encoding_is_byte_exact() {
    assert!(encode(&Reply::One(ReplyItem::Simple(b"OK".to_vec()))) == b"+OK\r\n".to_vec());
    assert!(encode(&Reply::One(ReplyItem::Nil)) == b"$-1\r\n".to_vec());
    assert!(encode(&Reply::NilArray) == b"*-1\r\n".to_vec());
    assert!(
        encode(&Reply::One(ReplyItem::ErrorMsg(b"backend".to_vec())))
            == b"-ERR backend\r\n".to_vec()
    );
    assert!(encode(&Reply::One(ReplyItem::Integer(0))) == b":0\r\n".to_vec());
    assert!(encode(&Reply::One(ReplyItem::Integer(1234567890))) == b":1234567890\r\n".to_vec());
    assert!(encode(&Reply::One(ReplyItem::Integer(-7))) == b":-7\r\n".to_vec());
    assert!(
        encode(&Reply::One(ReplyItem::Integer(i64::MIN)))
            == b":-9223372036854775808\r\n".to_vec()
    );
    assert!(encode(&Reply::Many(vec![]))== b"*0\r\n".to_vec());
    assert!(
        encode(&Reply::Many(vec![
            ReplyItem::Simple(b"OK".to_vec()),
            ReplyItem::Bulk(b"xy".to_vec()),
        ])) == b"*2\r\n+OK\r\n$2\r\nxy\r\n".to_vec()
    );
}

#[test]
fn bulk_encoding_uses_byte_length() {
    // binary-safe: the payload may hold CR and LF; the length prefix counts bytes
    let payload = b"a\r\nb".to_vec();
    assert!(encode(&Reply::One(ReplyItem::Bulk(payload))) == b"$4\r\na\r\nb\r\n".to_vec());
    // empty bulk differs from nil
    assert!(encode(&Reply::One(ReplyItem::Bulk(Vec::new()))) == b"$0\r\n\r\n".to_vec());
}

fn cmd(op: Opcode, key: &[u8], args: &[&[u8]]) -> mako::command::Command {
    mako::command::Command {
        op,
        key: key.to_vec(),
        args: args.iter().map(|a| a.to_vec()).collect(),
    }
}

#[test]
fn txn_queue_and_exec() {
    let mut t = TransactionState::new();
    // MULTI opens
    match t.on_command(cmd(Opcode::Multi, b"", &[])) {
        Decision::ReplyNow(r) => assert!(encode(&r) == b"+OK\r\n".to_vec()),
        _ => panic!("MULTI replies at once"),
    }
    // queued commands
    match t.on_command(cmd(Opcode::SetCmd, b"a", &[b"1"])) {
        Decision::ReplyNow(r) => assert!(encode(&r) == b"+QUEUED\r\n".to_vec()),
        _ => panic!("queued"),
    }
    match t.on_command(cmd(Opcode::SetCmd, b"b", &[b"2"])) {
        Decision::ReplyNow(r) => assert!(encode(&r) == b"+QUEUED\r\n".to_vec()),
        _ => panic!("queued"),
    }
    // EXEC takes the queue
    match t.on_command(cmd(Opcode::Exec, b"", &[])) {
        Decision::RunBatch(q) => {
            assert!(q.len() == 2);
            assert!(q[0].key == b"a".to_vec());
            assert!(q[1].key == b"b".to_vec());
        },
        _ => panic!("EXEC runs the batch"),
    }
    // a second EXEC is the error
    match t.on_command(cmd(Opcode::Exec, b"", &[])) {
        Decision::ReplyNow(r) => {
            assert!(encode(&r) == b"-ERR EXEC without MULTI\r\n".to_vec())
        },
        _ => panic!("EXEC without MULTI errs"),
    }
}

#[test]
fn txn_nested_multi_keeps_queue() {
    let mut t = TransactionState::new();
    t.on_command(cmd(Opcode::Multi, b"", &[]));
    t.on_command(cmd(Opcode::Get, b"k", &[]));
    match t.on_command(cmd(Opcode::Multi, b"", &[])) {
        Decision::ReplyNow(r) => {
            assert!(encode(&r) == b"-ERR MULTI calls can not be nested\r\n".to_vec())
        },
        _ => panic!("nested MULTI errs"),
    }
    assert!(t.is_open);
    assert!(t.queued.len() == 1);
    match t.on_command(cmd(Opcode::Exec, b"", &[])) {
        Decision::RunBatch(q) => assert!(q.len() == 1 && q[0].key == b"k".to_vec()),
        _ => panic!("EXEC still runs the intact queue"),
    }
}

#[test]
fn txn_discard_clears_queue() {
    let mut t = TransactionState::new();
    t.on_command(cmd(Opcode::Multi, b"", &[]));
    t.on_command(cmd(Opcode::SetCmd, b"a", &[b"1"]));
    t.on_command(cmd(Opcode::SetCmd, b"b", &[b"2"]));
    match t.on_command(cmd(Opcode::Discard, b"", &[])) {
        Decision::ReplyNow(r) => assert!(encode(&r) == b"+OK\r\n".to_vec()),
        _ => panic!("DISCARD replies at once"),
    }
    assert!(!t.is_open && t.queued.is_empty());
    // discarded commands are not re-executed
    t.on_command(cmd(Opcode::Multi, b"", &[]));
    match t.on_command(cmd(Opcode::Exec, b"", &[])) {
        Decision::RunBatch(q) => assert!(q.is_empty()),
        _ => panic!("EXEC after a fresh MULTI runs an empty batch"),
    }
}

#[test]
fn txn_discard_without_multi_errs() {
    let mut t = TransactionState::new();
    match t.on_command(cmd(Opcode::Discard, b"", &[])) {
        Decision::ReplyNow(r) => {
            assert!(encode(&r) == b"-ERR DISCARD without MULTI\r\n".to_vec())
        },
        _ => panic!("DISCARD without MULTI errs"),
    }
    assert!(!t.is_open);
}

#[test]
fn txn_ping_never_queued() {
    let mut t = TransactionState::new();
    t.on_command(cmd(Opcode::Multi, b"", &[]));
    match t.on_command(cmd(Opcode::Ping, b"", &[])) {
        Decision::ReplyNow(r) => assert!(encode(&r) == b"+PONG\r\n".to_vec()),
        _ => panic!("PING replies at once"),
    }
    assert!(t.is_open && t.queued.is_empty());
}

#[test]
fn txn_unknown_opcode_never_queued() {
    let mut t = TransactionState::new();
    t.on_command(cmd(Opcode::Multi, b"", &[]));
    t.on_command(cmd(Opcode::Get, b"k", &[]));
    match t.on_command(cmd(Opcode::Invalid, b"", &[])) {
        Decision::ReplyNow(r) => {
            assert!(encode(&r) == b"-ERR unknown command\r\n".to_vec())
        },
        _ => panic!("unknown opcode errs at once"),
    }
    // the transaction stays open with its queue intact
    assert!(t.is_open && t.queued.len() == 1);
}

#[test]
fn bridge_failure_is_null_array() {
    let ops = vec![
        BridgeOp { op: Opcode::SetCmd, key: b"a".to_vec(), val: Some(b"1".to_vec()) },
        BridgeOp { op: Opcode::SetCmd, key: b"b".to_vec(), val: Some(b"2".to_vec()) },
    ];
    let r = batch_reply_exec(&ops, None);
    assert!(encode(&r) == b"*-1\r\n".to_vec());
}

#[test]
fn bridge_result_count_mismatch_aborts() {
    let ops = vec![BridgeOp { op: Opcode::Get, key: b"k".to_vec(), val: None }];
    let r = batch_reply_exec(&ops, Some(vec![]));
    assert!(encode(&r) == b"*-1\r\n".to_vec());
}

#[test]
fn bridge_batch_demux_in_order() {
    let ops = vec![
        BridgeOp { op: Opcode::SetCmd, key: b"a".to_vec(), val: Some(b"1".to_vec()) },
        BridgeOp { op: Opcode::Get, key: b"a".to_vec(), val: None },
        BridgeOp { op: Opcode::Get, key: b"z".to_vec(), val: None },
    ];
    let results = vec![
        OpResult { ok: true, payload: None },
        OpResult { ok: true, payload: Some(b"1".to_vec()) },
        OpResult { ok: false, payload: None },
    ];
    let r = batch_reply_exec(&ops, Some(results));
    assert!(
        encode(&r) == b"*3\r\n+OK\r\n$1\r\n1\r\n-ERR operation failed\r\n".to_vec()
    );
}

#[test]
fn single_reply_shapes() {
    // GET hit and miss
    let r = single_reply_exec(Opcode::Get, Some(OpResult { ok: true, payload: Some(b"v".to_vec()) }));
    assert!(encode(&r) == b"$1\r\nv\r\n".to_vec());
    let r = single_reply_exec(Opcode::Get, Some(OpResult { ok: true, payload: None }));
    assert!(encode(&r) == b"$-1\r\n".to_vec());
    // SET acknowledged
    let r = single_reply_exec(Opcode::SetCmd, Some(OpResult { ok: true, payload: None }));
    assert!(encode(&r) == b"+OK\r\n".to_vec());
    // backend failure
    let r = single_reply_exec(Opcode::Get, None);
    assert!(encode(&r) == b"-ERR backend\r\n".to_vec());
    // per-operation failure
    let r = single_reply_exec(Opcode::Get, Some(OpResult { ok: false, payload: None }));
    assert!(encode(&r) == b"-ERR operation failed\r\n".to_vec());
}

#[test]
fn single_reply_splits_compounds() {
    // list values cross the bridge comma-joined
    let r = single_reply_exec(
        Opcode::SMembers,
        Some(OpResult { ok: true, payload: Some(b"a,bb,c".to_vec()) }),
    );
    assert!(encode(&r) == b"*3\r\n$1\r\na\r\n$2\r\nbb\r\n$1\r\nc\r\n".to_vec());
    // hash results cross as comma-joined field:value pairs
    let r = single_reply_exec(
        Opcode::HGetAll,
        Some(OpResult { ok: true, payload: Some(b"f1:v1,f2:v2".to_vec()) }),
    );
    assert!(
        encode(&r) == b"*4\r\n$2\r\nf1\r\n$2\r\nv1\r\n$2\r\nf2\r\n$2\r\nv2\r\n".to_vec()
    );
    // the absent sentinel encodes as nil, not as an empty bulk string
    let r = single_reply_exec(
        Opcode::HMGet,
        Some(OpResult { ok: true, payload: Some(b"a,\x00,c".to_vec()) }),
    );
    assert!(encode(&r) == b"*3\r\n$1\r\na\r\n$-1\r\n$1\r\nc\r\n".to_vec());
    // an empty value stays an empty bulk string
    let r = single_reply_exec(
        Opcode::SMembers,
        Some(OpResult { ok: true, payload: Some(b"a,,c".to_vec()) }),
    );
    assert!(encode(&r) == b"*3\r\n$1\r\na\r\n$0\r\n\r\n$1\r\nc\r\n".to_vec());
}

#[test]
fn decoder_integer_width_bounds() {
    // eighteen digits are accepted
    let mut d = Decoder::new(1 << 20);
    d.feed(b":999999999999999999\r\n");
    let frames = drain(&mut d);
    assert!(frames[0] == Frame::Scalar(Item::Integer(999_999_999_999_999_999)));
    // nineteen digits are not
    let mut d2 = Decoder::new(1 << 20);
    d2.feed(b":9999999999999999999\r\n");
    assert!(d2.next().is_err());
}

#[test]
fn decoder_bulk_exactly_at_limit() {
    let mut d = Decoder::new(4);
    d.feed(b"$4\r\nabcd\r\n");
    let frames = drain(&mut d);
    assert!(frames[0] == Frame::Scalar(Item::BulkString(b"abcd".to_vec())));
}

#[test]
fn decoder_array_count_over_limit() {
    let mut d = Decoder::new(4);
    d.feed(b"*5\r\n");
    assert!(d.next().is_err());
}

#[test]
fn decoder_null_bulk_inside_array() {
    let mut d = Decoder::new(1 << 20);
    d.feed(b"*2\r\n$-1\r\n$1\r\nx\r\n");
    let frames = drain(&mut d);
    assert!(frames[0] == Frame::Array(vec![Item::Null, Item::BulkString(b"x".to_vec())]));
}

#[test]
fn decoder_keeps_trailing_bytes_across_frames() {
    let mut d = Decoder::new(1 << 20);
    d.feed(b"+A\r\n+B");
    let frames = drain(&mut d);
    assert!(frames.len() == 1);
    assert!(frames[0] == Frame::Scalar(Item::SimpleString(b"A".to_vec())));
    d.feed(b"\r\n");
    let frames = drain(&mut d);
    assert!(frames.len() == 1);
    assert!(frames[0] == Frame::Scalar(Item::SimpleString(b"B".to_vec())));
}

#[test]
fn empty_exec_batch_is_empty_array() {
    let mut t = TransactionState::new();
    t.on_command(cmd(Opcode::Multi, b"", &[]));
    match t.on_command(cmd(Opcode::Exec, b"", &[])) {
        Decision::RunBatch(q) => {
            assert!(q.is_empty());
            let r = batch_reply_exec(&Vec::new(), Some(vec![]));
            assert!(encode(&r) == b"*0\r\n".to_vec());
        },
        _ => panic!("EXEC runs the (empty) batch"),
    }
}

#[test]
fn watch_and_unwatch_acknowledge() {
    let r = single_reply_exec(Opcode::Watch, Some(OpResult { ok: true, payload: None }));
    assert!(encode(&r) == b"+OK\r\n".to_vec());
    let r = single_reply_exec(Opcode::Unwatch, Some(OpResult { ok: true, payload: None }));
    assert!(encode(&r) == b"+OK\r\n".to_vec());
}

#[test]
fn compound_splitting() {
    let segs = split_bytes_exec(&b"a,,b".to_vec(), b',');
    assert!(segs == vec![b"a".to_vec(), b"".to_vec(), b"b".to_vec()]);
    let segs = split_bytes_exec(&b"".to_vec(), b',');
    assert!(segs == vec![b"".to_vec()]);
    let segs = split_bytes_exec(&b"abc".to_vec(), b',');
    assert!(segs == vec![b"abc".to_vec()]);
    let segs = split_pairs_exec(&b"f1:v1,f2:v2".to_vec(), b',', b':');
    assert!(segs == vec![b"f1".to_vec(), b"v1".to_vec(), b"f2".to_vec(), b"v2".to_vec()]);
}
