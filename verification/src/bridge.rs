//! The execution-bridge boundary: how commands become a batched request to
//! the storage engine, and how the engine's per-operation outcomes are
//! demultiplexed into protocol replies. The engine call itself lives outside
//! this crate; everything here is a function of the outcome it returned, so
//! it holds whatever the engine did.

use vstd::prelude::*;
use crate::command::{Command, CommandModel, Opcode};
use crate::compound::{split_bytes, split_pairs, split_bytes_exec, split_pairs_exec};
use crate::frame::copy_bytes;
use crate::reply::{Reply, ReplyItem, ReplyModel, ReplyItemModel};
use crate::txn::{simple_reply, error_reply, ok_bytes};
use vstd::slice::slice_to_vec;

verus! {

/// One operation submitted across the bridge: an opcode, a key, and at most
/// one value.
#[derive(Clone)]
pub struct BridgeOp {
    pub op: Opcode,
    pub key: Vec<u8>,
    pub val: Option<Vec<u8>>,
}

/// Mathematical model of a `BridgeOp`.
pub struct BridgeOpModel {
    pub op: Opcode,
    pub key: Seq<u8>,
    pub val: Option<Seq<u8>>,
}

impl View for BridgeOp {
    type V = BridgeOpModel;

    open spec fn view(&self) -> BridgeOpModel {
        BridgeOpModel {
            op: self.op,
            key: self.key@,
            val: match &self.val {
                Some(v) => Some(v@),
                None => None,
            },
        }
    }
}

/// One per-operation outcome returned by the storage engine: whether the
/// operation succeeded, and its payload bytes if it produced any.
pub struct OpResult {
    pub ok: bool,
    pub payload: Option<Vec<u8>>,
}

/// Mathematical model of an `OpResult`.
pub struct OpResultModel {
    pub ok: bool,
    pub payload: Option<Seq<u8>>,
}

impl View for OpResult {
    type V = OpResultModel;

    open spec fn view(&self) -> OpResultModel {
        OpResultModel {
            ok: self.ok,
            payload: match &self.payload {
                Some(v) => Some(v@),
                None => None,
            },
        }
    }
}

pub open spec fn opt_result_view(o: Option<OpResult>) -> Option<OpResultModel> {
    match o {
        Some(r) => Some(r@),
        None => None,
    }
}

pub open spec fn results_view(o: Option<Vec<OpResult>>) -> Option<Seq<OpResultModel>> {
    match o {
        Some(rs) => Some(rs@.map_values(|r: OpResult| r@)),
        None => None,
    }
}

/// The bridge operation a command stands for: its opcode, its key, and its
/// first auxiliary argument as the value, if it has one.
pub open spec fn op_of_command(c: CommandModel) -> BridgeOpModel {
    BridgeOpModel {
        op: c.op,
        key: c.key,
        val: if c.args.len() > 0 {
            Some(c.args[0])
        } else {
            None
        },
    }
}

/// Packages an ordered batch of commands as the bridge request, in order.
pub fn build_request(cmds: &Vec<Command>) -> (r: Vec<BridgeOp>)
    ensures
        r@.map_values(|o: BridgeOp| o@) == cmds@.map_values(|c: Command| c@).map_values(
            |c: CommandModel| op_of_command(c),
        ),
{
    let ghost target = cmds@.map_values(|c: Command| c@).map_values(
        |c: CommandModel| op_of_command(c),
    );
    let mut r: Vec<BridgeOp> = Vec::new();
    let mut k: usize = 0;
    proof {
        assert(r@.map_values(|o: BridgeOp| o@) =~= target.take(0));
    }
    while k < cmds.len()
        invariant
            k <= cmds.len(),
            target == cmds@.map_values(|c: Command| c@).map_values(
                |c: CommandModel| op_of_command(c),
            ),
            r@.map_values(|o: BridgeOp| o@) == target.take(k as int),
        decreases cmds.len() - k,
    {
        let ghost pre = r@.map_values(|o: BridgeOp| o@);
        let c = &cmds[k];
        let val: Option<Vec<u8>> = if c.args.len() > 0 {
            Some(copy_bytes(&c.args[0]))
        } else {
            None
        };
        let op = BridgeOp { op: c.op, key: copy_bytes(&c.key), val };
        proof {
            assert(cmds@.map_values(|c: Command| c@)[k as int] == cmds@[k as int]@);
            assert(target[k as int] == op_of_command(cmds@[k as int]@));
            assert(cmds@[k as int]@.args.len() == cmds@[k as int].args@.len());
            if cmds@[k as int].args@.len() > 0 {
                assert(cmds@[k as int]@.args[0] == cmds@[k as int].args@[0]@);
            }
        }
        r.push(op);
        proof {
            assert(r@.map_values(|o: BridgeOp| o@) =~= pre.push(target[k as int]));
            assert(target.take(k as int + 1) =~= target.take(k as int).push(target[k as int]));
        }
        k = k + 1;
    }
    proof {
        assert(target.take(cmds@.len() as int) =~= target);
    }
    r
}

/// How a successful payload is shaped into a reply: most results are one
/// bulk string; list-valued results cross the bridge comma-joined; hash
/// results cross as comma-joined `field:value` pairs.
pub enum ResultShape {
    Plain,
    ListValues,
    FieldValuePairs,
}

pub open spec fn result_shape(op: Opcode) -> ResultShape {
    if op == Opcode::HGetAll {
        ResultShape::FieldValuePairs
    } else if op == Opcode::Keys || op == Opcode::LRange || op == Opcode::SMembers || op
        == Opcode::SInter || op == Opcode::SDiff || op == Opcode::HMGet {
        ResultShape::ListValues
    } else {
        ResultShape::Plain
    }
}

/// Whether bare success without a payload acknowledges a write (`+OK`)
/// rather than reporting a missing value (nil).
pub open spec fn acks_with_ok(op: Opcode) -> bool {
    op == Opcode::SetCmd || op == Opcode::Expire || op == Opcode::LPush || op == Opcode::RPush
        || op == Opcode::HSet || op == Opcode::HDel || op == Opcode::SAdd || op == Opcode::Del
        || op == Opcode::Watch || op == Opcode::Unwatch
}

/// The sentinel segment that designates an absent field or value inside a
/// compound result; it encodes as nil, never as an empty bulk string.
pub open spec fn absent_sentinel() -> Seq<u8> {
    seq![0u8]
}

/// A compound segment as a reply element: the absent sentinel is nil,
/// everything else a bulk string.
pub open spec fn seg_item(seg: Seq<u8>) -> ReplyItemModel {
    if seg == absent_sentinel() {
        ReplyItemModel::Nil
    } else {
        ReplyItemModel::Bulk(seg)
    }
}

/// `backend`
pub open spec fn msg_backend() -> Seq<u8> {
    seq![98u8, 97u8, 99u8, 107u8, 101u8, 110u8, 100u8]
}

/// `operation failed`
pub open spec fn msg_op_failed() -> Seq<u8> {
    seq![111u8, 112u8, 101u8, 114u8, 97u8, 116u8, 105u8, 111u8, 110u8, 32u8, 102u8, 97u8, 105u8,
        108u8, 101u8, 100u8]
}

/// The reply for a successful payload, shaped by the opcode that asked.
pub open spec fn shaped_payload(op: Opcode, data: Seq<u8>) -> ReplyModel {
    match result_shape(op) {
        ResultShape::Plain => ReplyModel::One(ReplyItemModel::Bulk(data)),
        ResultShape::ListValues => ReplyModel::Many(
            split_bytes(data, 44).map_values(|seg: Seq<u8>| seg_item(seg)),
        ),
        ResultShape::FieldValuePairs => ReplyModel::Many(
            split_pairs(data, 44, 58).map_values(|seg: Seq<u8>| seg_item(seg)),
        ),
    }
}

/// The unwrapped reply for one command run alone: a backend failure is a
/// generic error; a failed operation is an error; success is the shaped
/// payload, `+OK` for a write without one, and nil for a read without one.
pub open spec fn single_reply(op: Opcode, outcome: Option<OpResultModel>) -> ReplyModel {
    match outcome {
        None => error_reply(msg_backend()),
        Some(res) => if !res.ok {
            error_reply(msg_op_failed())
        } else {
            match res.payload {
                Some(data) => shaped_payload(op, data),
                None => if acks_with_ok(op) {
                    simple_reply(ok_bytes())
                } else {
                    ReplyModel::One(ReplyItemModel::Nil)
                },
            }
        },
    }
}

/// One element of a transaction reply array: scalar only, so an aggregate
/// payload stays one bulk string inside a batch.
pub open spec fn batch_item(op: Opcode, r: OpResultModel) -> ReplyItemModel {
    if !r.ok {
        ReplyItemModel::ErrorMsg(msg_op_failed())
    } else {
        match r.payload {
            Some(d) => ReplyItemModel::Bulk(d),
            None => if acks_with_ok(op) {
                ReplyItemModel::Simple(ok_bytes())
            } else {
                ReplyItemModel::Nil
            },
        }
    }
}

/// The reply for a batch: overall failure, and a result list whose length
/// does not match the request, abort the transaction (the null array);
/// otherwise the per-operation outcomes in submitted order.
pub open spec fn batch_reply(ops: Seq<BridgeOpModel>, outcome: Option<Seq<OpResultModel>>) -> ReplyModel {
    match outcome {
        None => ReplyModel::NilArray,
        Some(results) => if results.len() != ops.len() {
            ReplyModel::NilArray
        } else {
            ReplyModel::Many(Seq::new(ops.len(), |i: int| batch_item(ops[i].op, results[i])))
        },
    }
}

/// A transaction batch whose bridge call reports overall failure is aborted:
/// the reply is the null array, whatever the batch held.
pub proof fn lemma_bridge_failure_aborts(ops: Seq<BridgeOpModel>)
    ensures
        batch_reply(ops, None) == ReplyModel::NilArray,
        crate::reply::encode_reply(batch_reply(ops, None)) == seq![42u8, 45u8, 49u8, 13u8, 10u8],
{
}

fn seg_item_exec(seg: Vec<u8>) -> (r: ReplyItem)
    ensures
        r@ == seg_item(seg@),
{
    if seg.len() == 1 && *vstd::slice::slice_index_get(seg.as_slice(), 0) == 0u8 {
        proof {
            assert(seg@ =~= absent_sentinel());
        }
        ReplyItem::Nil
    } else {
        proof {
            assert(seg@ != absent_sentinel());
        }
        ReplyItem::Bulk(seg)
    }
}

fn segs_items(segs: Vec<Vec<u8>>) -> (r: Vec<ReplyItem>)
    ensures
        r@.map_values(|it: ReplyItem| it@) == segs@.map_values(|v: Vec<u8>| v@).map_values(
            |seg: Seq<u8>| seg_item(seg),
        ),
{
    let ghost target = segs@.map_values(|v: Vec<u8>| v@).map_values(|seg: Seq<u8>| seg_item(seg));
    let mut r: Vec<ReplyItem> = Vec::new();
    let mut k: usize = 0;
    proof {
        assert(r@.map_values(|it: ReplyItem| it@) =~= target.take(0));
    }
    while k < segs.len()
        invariant
            k <= segs.len(),
            target == segs@.map_values(|v: Vec<u8>| v@).map_values(|seg: Seq<u8>| seg_item(seg)),
            r@.map_values(|it: ReplyItem| it@) == target.take(k as int),
        decreases segs.len() - k,
    {
        let ghost pre = r@.map_values(|it: ReplyItem| it@);
        proof {
            assert(segs@.map_values(|v: Vec<u8>| v@)[k as int] == segs@[k as int]@);
            assert(target[k as int] == seg_item(segs@[k as int]@));
        }
        let it = seg_item_exec(copy_bytes(&segs[k]));
        r.push(it);
        proof {
            assert(r@.map_values(|x: ReplyItem| x@) =~= pre.push(target[k as int]));
            assert(target.take(k as int + 1) =~= target.take(k as int).push(target[k as int]));
        }
        k = k + 1;
    }
    proof {
        assert(target.take(segs@.len() as int) =~= target);
    }
    r
}

/// Demultiplexes the outcome of one command run alone into its reply,
/// exactly as `single_reply` prescribes.
pub fn single_reply_exec(op: Opcode, outcome: Option<OpResult>) -> (r: Reply)
    ensures
        r@ == single_reply(op, opt_result_view(outcome)),
{
    match outcome {
        None => {
            let m: [u8; 7] = [98, 97, 99, 107, 101, 110, 100];
            proof {
                assert(m@ =~= msg_backend());
            }
            Reply::One(ReplyItem::ErrorMsg(slice_to_vec(m.as_slice())))
        },
        Some(res) => {
            if !res.ok {
                let m: [u8; 16] = [111, 112, 101, 114, 97, 116, 105, 111, 110, 32, 102, 97, 105,
                    108, 101, 100];
                proof {
                    assert(m@ =~= msg_op_failed());
                }
                Reply::One(ReplyItem::ErrorMsg(slice_to_vec(m.as_slice())))
            } else {
                match res.payload {
                    Some(data) => {
                        if op == Opcode::HGetAll {
                            let segs = split_pairs_exec(&data, 44, 58);
                            Reply::Many(segs_items(segs))
                        } else if op == Opcode::Keys || op == Opcode::LRange || op
                            == Opcode::SMembers || op == Opcode::SInter || op == Opcode::SDiff
                            || op == Opcode::HMGet {
                            let segs = split_bytes_exec(&data, 44);
                            Reply::Many(segs_items(segs))
                        } else {
                            Reply::One(ReplyItem::Bulk(data))
                        }
                    },
                    None => {
                        if acks_with_ok_exec(op) {
                            let m: [u8; 2] = [79, 75];
                            proof {
                                assert(m@ =~= ok_bytes());
                            }
                            Reply::One(ReplyItem::Simple(slice_to_vec(m.as_slice())))
                        } else {
                            Reply::One(ReplyItem::Nil)
                        }
                    },
                }
            }
        },
    }
}

fn acks_with_ok_exec(op: Opcode) -> (b: bool)
    ensures
        b == acks_with_ok(op),
{
    match op {
        Opcode::SetCmd | Opcode::Expire | Opcode::LPush | Opcode::RPush | Opcode::HSet
            | Opcode::HDel | Opcode::SAdd | Opcode::Del | Opcode::Watch | Opcode::Unwatch => true,
        _ => false,
    }
}

/// Demultiplexes the outcome of a transaction batch into its reply, exactly
/// as `batch_reply` prescribes.
pub fn batch_reply_exec(ops: &Vec<BridgeOp>, outcome: Option<Vec<OpResult>>) -> (r: Reply)
    ensures
        r@ == batch_reply(ops@.map_values(|o: BridgeOp| o@), results_view(outcome)),
{
    let results = match outcome {
        None => {
            return Reply::NilArray;
        },
        Some(rs) => rs,
    };
    if results.len() != ops.len() {
        return Reply::NilArray;
    }
    let ghost opsm = ops@.map_values(|o: BridgeOp| o@);
    let ghost resm = results@.map_values(|r: OpResult| r@);
    let ghost target = Seq::new(opsm.len(), |i: int| batch_item(opsm[i].op, resm[i]));
    let mut items: Vec<ReplyItem> = Vec::new();
    let mut k: usize = 0;
    proof {
        assert(items@.map_values(|it: ReplyItem| it@) =~= target.take(0));
    }
    while k < ops.len()
        invariant
            k <= ops.len(),
            ops.len() == results.len(),
            opsm == ops@.map_values(|o: BridgeOp| o@),
            resm == results@.map_values(|r: OpResult| r@),
            target == Seq::new(opsm.len(), |i: int| batch_item(opsm[i].op, resm[i])),
            items@.map_values(|it: ReplyItem| it@) == target.take(k as int),
        decreases ops.len() - k,
    {
        let ghost pre = items@.map_values(|it: ReplyItem| it@);
        proof {
            assert(opsm[k as int] == ops@[k as int]@);
            assert(resm[k as int] == results@[k as int]@);
        }
        let res = &results[k];
        let it: ReplyItem = if !res.ok {
            let m: [u8; 16] = [111, 112, 101, 114, 97, 116, 105, 111, 110, 32, 102, 97, 105, 108,
                101, 100];
            proof {
                assert(m@ =~= msg_op_failed());
            }
            ReplyItem::ErrorMsg(slice_to_vec(m.as_slice()))
        } else {
            match &res.payload {
                Some(d) => ReplyItem::Bulk(copy_bytes(d)),
                None => {
                    if acks_with_ok_exec(ops[k].op) {
                        let m: [u8; 2] = [79, 75];
                        proof {
                            assert(m@ =~= ok_bytes());
                        }
                        ReplyItem::Simple(slice_to_vec(m.as_slice()))
                    } else {
                        ReplyItem::Nil
                    }
                },
            }
        };
        proof {
            assert(it@ == batch_item(opsm[k as int].op, resm[k as int]));
            assert(target[k as int] == batch_item(opsm[k as int].op, resm[k as int]));
        }
        items.push(it);
        proof {
            assert(items@.map_values(|x: ReplyItem| x@) =~= pre.push(target[k as int]));
            assert(target.take(k as int + 1) =~= target.take(k as int).push(target[k as int]));
        }
        k = k + 1;
    }
    proof {
        assert(target.take(opsm.len() as int) =~= target);
    }
    Reply::Many(items)
}

} // verus!
