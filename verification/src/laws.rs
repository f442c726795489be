//! Laws of the protocol layer, each stated over the specification functions
//! that the executable functions are proved against.

use vstd::prelude::*;
use crate::bridge::{
    BridgeOpModel, OpResultModel, single_reply, batch_reply, batch_item, acks_with_ok,
};
use crate::command::{CommandModel, Opcode, parse_command};
use crate::conn::{ConnectionModel, PollStep, conn_step, msg_unsupported};
use crate::frame::{FrameModel, ItemModel};
use crate::grammar::{parse_frame, parse_line, parse_item, parse_items, find_cr, dec_value,
    FrameStep, LineStep, ItemStep, ItemsStep};
use crate::reply::{ReplyModel, ReplyItemModel, encode_reply, encode_item};
use crate::txn::{
    TransactionModel, DecisionModel, txn_step, txn_wf, error_reply, simple_reply, ok_bytes,
    pong_bytes, queued_bytes, msg_nested_multi, msg_exec_without_multi, msg_unknown_command,
};

verus! {

/// An opcode that is queued while a transaction is open: anything but the
/// transaction-control opcodes, `PING`, and the unrecognized opcode.
pub open spec fn is_queueable(op: Opcode) -> bool {
    !(op == Opcode::Multi || op == Opcode::Exec || op == Opcode::Discard || op == Opcode::Ping
        || op == Opcode::Invalid)
}

/// A `GET` run alone and answered with a payload replies exactly that
/// payload as one bulk string; answered without one, it replies nil; a `SET`
/// acknowledged without a payload replies `+OK`.
pub proof fn lemma_get_set_replies(v: Seq<u8>)
    ensures
        single_reply(Opcode::Get, Some(OpResultModel { ok: true, payload: Some(v) }))
            == ReplyModel::One(ReplyItemModel::Bulk(v)),
        single_reply(Opcode::Get, Some(OpResultModel { ok: true, payload: None }))
            == ReplyModel::One(ReplyItemModel::Nil),
        single_reply(Opcode::SetCmd, Some(OpResultModel { ok: true, payload: None }))
            == simple_reply(ok_bytes()),
{
}

/// Opening a transaction, queuing two commands, and running `EXEC` submits
/// exactly those two commands in order and leaves the state idle and empty;
/// a second `EXEC` without a new `MULTI` is the error and changes nothing.
pub proof fn lemma_exec_runs_queue_once(
    t: TransactionModel,
    m: CommandModel,
    c1: CommandModel,
    c2: CommandModel,
    e: CommandModel,
)
    requires
        txn_wf(t),
        !t.is_open,
        m.op == Opcode::Multi,
        is_queueable(c1.op),
        is_queueable(c2.op),
        e.op == Opcode::Exec,
    ensures
        ({
            let (t1, d1) = txn_step(t, m);
            let (t2, d2) = txn_step(t1, c1);
            let (t3, d3) = txn_step(t2, c2);
            let (t4, d4) = txn_step(t3, e);
            let (t5, d5) = txn_step(t4, e);
            &&& d1 == DecisionModel::ReplyNow(simple_reply(ok_bytes()))
            &&& d2 == DecisionModel::ReplyNow(simple_reply(queued_bytes()))
            &&& d3 == DecisionModel::ReplyNow(simple_reply(queued_bytes()))
            &&& d4 == DecisionModel::RunBatch(seq![c1, c2])
            &&& !t4.is_open && t4.queued.len() == 0
            &&& d5 == DecisionModel::ReplyNow(error_reply(msg_exec_without_multi()))
            &&& t5 == t4
        }),
{
    assert(t.queued =~= Seq::<CommandModel>::empty());
    let (t1, d1) = txn_step(t, m);
    let (t2, d2) = txn_step(t1, c1);
    let (t3, d3) = txn_step(t2, c2);
    assert(t3.queued =~= seq![c1, c2]);
}

/// A batch of two acknowledged writes replies as a two-element array of
/// `+OK` simple strings.
pub proof fn lemma_two_write_batch(o1: BridgeOpModel, o2: BridgeOpModel)
    requires
        acks_with_ok(o1.op),
        acks_with_ok(o2.op),
    ensures
        batch_reply(
            seq![o1, o2],
            Some(
                seq![
                    OpResultModel { ok: true, payload: None },
                    OpResultModel { ok: true, payload: None },
                ],
            ),
        ) == ReplyModel::Many(
            seq![
                ReplyItemModel::Simple(ok_bytes()),
                ReplyItemModel::Simple(ok_bytes()),
            ],
        ),
{
    let ops = seq![o1, o2];
    let rs = seq![
        OpResultModel { ok: true, payload: None },
        OpResultModel { ok: true, payload: None },
    ];
    assert(Seq::new(ops.len(), |i: int| batch_item(ops[i].op, rs[i])) =~= seq![
        ReplyItemModel::Simple(ok_bytes()),
        ReplyItemModel::Simple(ok_bytes()),
    ]);
}

/// `MULTI` inside an open transaction is the nesting error and leaves the
/// state, its queue included, exactly as it was; a following `EXEC` still
/// runs the untouched queue.
pub proof fn lemma_nested_multi_keeps_queue(t: TransactionModel, m: CommandModel, e: CommandModel)
    requires
        t.is_open,
        m.op == Opcode::Multi,
        e.op == Opcode::Exec,
    ensures
        txn_step(t, m).0 == t,
        txn_step(t, m).1 == DecisionModel::ReplyNow(error_reply(msg_nested_multi())),
        txn_step(txn_step(t, m).0, e).1 == DecisionModel::RunBatch(t.queued),
{
}

/// `DISCARD` clears the queue and closes the transaction; an `EXEC` after a
/// fresh `MULTI` then runs an empty batch: nothing discarded is re-executed.
pub proof fn lemma_discard_clears_queue(
    t: TransactionModel,
    disc: CommandModel,
    m: CommandModel,
    e: CommandModel,
)
    requires
        t.is_open,
        disc.op == Opcode::Discard,
        m.op == Opcode::Multi,
        e.op == Opcode::Exec,
    ensures
        ({
            let (t1, d1) = txn_step(t, disc);
            let (t2, d2) = txn_step(t1, m);
            let (t3, d3) = txn_step(t2, e);
            &&& !t1.is_open && t1.queued.len() == 0
            &&& d1 == DecisionModel::ReplyNow(simple_reply(ok_bytes()))
            &&& d3 == DecisionModel::RunBatch(Seq::<CommandModel>::empty())
        }),
{
}

/// A command with no recognized opcode is answered with an error at once,
/// in every state, and the state, its queue included, is untouched: it is
/// never queued, even inside an open transaction.
pub proof fn lemma_unknown_opcode_keeps_state(t: TransactionModel, c: CommandModel)
    requires
        c.op == Opcode::Invalid,
    ensures
        txn_step(t, c).0 == t,
        txn_step(t, c).1 == DecisionModel::ReplyNow(error_reply(msg_unknown_command())),
{
}

/// A well-framed but unparseable command costs one error reply and nothing
/// else: the transaction state, the pending call, and the liveness of the
/// connection are untouched, and the connection continues.
pub proof fn lemma_rejected_frame_keeps_state(c: ConnectionModel, f: FrameModel, j: int)
    requires
        parse_frame(c.stream, 0, c.limit) == FrameStep::Done(f, j),
        parse_command(f) is None,
    ensures
        conn_step(c).1 == PollStep::Progress,
        conn_step(c).0.txn == c.txn,
        conn_step(c).0.pending == c.pending,
        conn_step(c).0.alive == c.alive,
        conn_step(c).0.out == c.out + encode_reply(error_reply(msg_unsupported())),
{
}

/// The wire encoding of one `PING` request: `*1\r\n$4\r\nPING\r\n`.
pub open spec fn ping_wire() -> Seq<u8> {
    seq![42u8, 49u8, 13u8, 10u8, 36u8, 52u8, 13u8, 10u8, 80u8, 73u8, 78u8, 71u8, 13u8, 10u8]
}

/// The wire encoding of its reply: `+PONG\r\n`.
pub open spec fn pong_wire() -> Seq<u8> {
    seq![43u8, 80u8, 79u8, 78u8, 71u8, 13u8, 10u8]
}

pub open spec fn repeat_bytes(s: Seq<u8>, n: nat) -> Seq<u8>
    decreases n,
{
    if n == 0 {
        Seq::empty()
    } else {
        s + repeat_bytes(s, (n - 1) as nat)
    }
}

/// The connection after `n` consecutive polls.
pub open spec fn run_polls(c: ConnectionModel, n: nat) -> ConnectionModel
    decreases n,
{
    if n == 0 {
        c
    } else {
        run_polls(conn_step(c).0, (n - 1) as nat)
    }
}

/// One buffered `PING` request parses as exactly one frame of fourteen
/// bytes, whatever follows it.
pub proof fn lemma_parse_ping(rest: Seq<u8>, limit: nat)
    requires
        limit >= 4,
    ensures
        parse_frame(ping_wire() + rest, 0, limit) == FrameStep::Done(
            FrameModel::Array(seq![ItemModel::BulkString(seq![80u8, 73u8, 78u8, 71u8])]),
            14,
        ),
{
    let s = ping_wire() + rest;
    assert(s[0] == 42u8 && s[1] == 49u8 && s[2] == 13u8 && s[3] == 10u8 && s[4] == 36u8 && s[5]
        == 52u8 && s[6] == 13u8 && s[7] == 10u8 && s[8] == 80u8 && s[9] == 73u8 && s[10] == 78u8
        && s[11] == 71u8 && s[12] == 13u8 && s[13] == 10u8);
    assert(find_cr(s, 1) == 2) by {
        reveal_with_fuel(find_cr, 3);
    }
    assert(parse_line(s, 1) == LineStep::Line(s.subrange(1, 2), 4));
    assert(s.subrange(1, 2) =~= seq![49u8]);
    assert(dec_value(seq![49u8]) == 1) by {
        reveal_with_fuel(dec_value, 3);
    }
    assert(find_cr(s, 5) == 6) by {
        reveal_with_fuel(find_cr, 3);
    }
    assert(parse_line(s, 5) == LineStep::Line(s.subrange(5, 6), 8));
    assert(s.subrange(5, 6) =~= seq![52u8]);
    assert(dec_value(seq![52u8]) == 4) by {
        reveal_with_fuel(dec_value, 3);
    }
    assert(s.subrange(8, 12) =~= seq![80u8, 73u8, 78u8, 71u8]);
    assert(parse_item(s, 4, limit) == ItemStep::Done(
        ItemModel::BulkString(seq![80u8, 73u8, 78u8, 71u8]),
        14,
    ));
    assert(parse_items(s, 4, 1, limit) == ItemsStep::Done(
        seq![ItemModel::BulkString(seq![80u8, 73u8, 78u8, 71u8])],
        14,
    )) by {
        reveal_with_fuel(parse_items, 3);
        assert(seq![ItemModel::BulkString(seq![80u8, 73u8, 78u8, 71u8])]
            + Seq::<ItemModel>::empty() =~= seq![
            ItemModel::BulkString(seq![80u8, 73u8, 78u8, 71u8]),
        ]);
    }
}

/// That frame is the `PING` command: no key, no arguments.
pub proof fn lemma_ping_frame_command()
    ensures
        parse_command(FrameModel::Array(seq![ItemModel::BulkString(seq![80u8, 73u8, 78u8, 71u8])]))
            == Some(
            CommandModel { op: Opcode::Ping, key: Seq::empty(), args: Seq::empty() },
        ),
{
    let name = seq![80u8, 73u8, 78u8, 71u8];
    let items = seq![ItemModel::BulkString(name)];
    assert(crate::ascii::lower(name) =~= crate::command::opcode_name(Opcode::Ping));
    assert(crate::ascii::lower(name)[0] == 112u8);
    assert(crate::command::opcode_of(name) == Opcode::Ping);
    assert(items.skip(1).map_values(|it: ItemModel| crate::frame::string_of(it))
        =~= Seq::<Seq<u8>>::empty());
}

/// One poll on a connection whose buffer starts with a `PING` request
/// consumes exactly that request and appends exactly `+PONG\r\n`, touching
/// nothing else.
pub proof fn lemma_conn_step_ping(c: ConnectionModel, rest: Seq<u8>)
    requires
        c.alive,
        c.pending is None,
        c.stream == ping_wire() + rest,
        c.limit >= 4,
    ensures
        conn_step(c).1 == PollStep::Progress,
        conn_step(c).0 == (ConnectionModel { stream: rest, out: c.out + pong_wire(), ..c }),
{
    lemma_parse_ping(rest, c.limit);
    lemma_ping_frame_command();
    assert(c.stream.skip(14) =~= rest);
    let cmd = CommandModel { op: Opcode::Ping, key: Seq::empty(), args: Seq::empty() };
    assert(txn_step(c.txn, cmd) == (c.txn, DecisionModel::ReplyNow(simple_reply(pong_bytes()))));
    assert(encode_item(ReplyItemModel::Simple(pong_bytes())) =~= pong_wire());
    assert(conn_step(c).0 =~~= (ConnectionModel { stream: rest, out: c.out + pong_wire(), ..c }));
}

/// Pipelining: a connection that has buffered `n` back-to-back `PING`
/// requests from one read answers all of them in `n` polls, appending
/// exactly `n` `+PONG\r\n` replies in order to the one output buffer, never
/// calling the engine and never touching the transaction state; the next
/// poll asks for more input, so one read suffices and one flush follows.
pub proof fn lemma_pipelined_pings(c: ConnectionModel, n: nat)
    requires
        c.alive,
        c.pending is None,
        c.stream == repeat_bytes(ping_wire(), n),
        c.limit >= 4,
    ensures
        ({
            let f = run_polls(c, n);
            &&& f.out == c.out + repeat_bytes(pong_wire(), n)
            &&& f.stream == Seq::<u8>::empty()
            &&& f.txn == c.txn
            &&& f.pending is None
            &&& f.alive
            &&& f.limit == c.limit
            &&& conn_step(f).1 == PollStep::NeedInput
        }),
    decreases n,
{
    if n == 0 {
        assert(c.out + repeat_bytes(pong_wire(), 0) =~= c.out);
        assert(parse_frame(c.stream, 0, c.limit) is Partial);
    } else {
        let rest = repeat_bytes(ping_wire(), (n - 1) as nat);
        assert(c.stream == ping_wire() + rest);
        lemma_conn_step_ping(c, rest);
        let c1 = conn_step(c).0;
        lemma_pipelined_pings(c1, (n - 1) as nat);
        assert(run_polls(c, n) == run_polls(c1, (n - 1) as nat));
        assert((c.out + pong_wire()) + repeat_bytes(pong_wire(), (n - 1) as nat) =~= c.out + (
        pong_wire() + repeat_bytes(pong_wire(), (n - 1) as nat)));
    }
}

} // verus!
