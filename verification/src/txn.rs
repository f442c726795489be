//! The per-connection transaction state machine: queues commands while a
//! transaction is open and decides, for each incoming command, whether to
//! reply at once, run it alone, or run the whole queued batch.

use vstd::prelude::*;
use vstd::slice::slice_to_vec;
use crate::command::{Command, CommandModel, Opcode};
use crate::reply::{Reply, ReplyItem, ReplyModel, ReplyItemModel};

verus! {

/// The transaction state of one connection.
pub struct TransactionState {
    pub is_open: bool,
    pub queued: Vec<Command>,
}

/// Mathematical model of a `TransactionState`.
pub struct TransactionModel {
    pub is_open: bool,
    pub queued: Seq<CommandModel>,
}

impl View for TransactionState {
    type V = TransactionModel;

    open spec fn view(&self) -> TransactionModel {
        TransactionModel {
            is_open: self.is_open,
            queued: self.queued@.map_values(|c: Command| c@),
        }
    }
}

/// Commands are queued only while a transaction is open.
pub open spec fn txn_wf(t: TransactionModel) -> bool {
    t.queued.len() > 0 ==> t.is_open
}

/// What the state machine decides for one command.
pub enum Decision {
    ReplyNow(Reply),
    RunSingle(Command),
    RunBatch(Vec<Command>),
}

/// Mathematical model of a `Decision`.
pub enum DecisionModel {
    ReplyNow(ReplyModel),
    RunSingle(CommandModel),
    RunBatch(Seq<CommandModel>),
}

impl View for Decision {
    type V = DecisionModel;

    open spec fn view(&self) -> DecisionModel {
        match self {
            Decision::ReplyNow(r) => DecisionModel::ReplyNow(r@),
            Decision::RunSingle(c) => DecisionModel::RunSingle(c@),
            Decision::RunBatch(cs) => DecisionModel::RunBatch(
                cs@.map_values(|c: Command| c@),
            ),
        }
    }
}

pub open spec fn ok_bytes() -> Seq<u8> {
    seq![79u8, 75u8]
}

pub open spec fn pong_bytes() -> Seq<u8> {
    seq![80u8, 79u8, 78u8, 71u8]
}

pub open spec fn queued_bytes() -> Seq<u8> {
    seq![81u8, 85u8, 69u8, 85u8, 69u8, 68u8]
}

/// `MULTI calls can not be nested`
pub open spec fn msg_nested_multi() -> Seq<u8> {
    seq![77u8, 85u8, 76u8, 84u8, 73u8, 32u8, 99u8, 97u8, 108u8, 108u8, 115u8, 32u8, 99u8, 97u8,
        110u8, 32u8, 110u8, 111u8, 116u8, 32u8, 98u8, 101u8, 32u8, 110u8, 101u8, 115u8, 116u8,
        101u8, 100u8]
}

/// `EXEC without MULTI`
pub open spec fn msg_exec_without_multi() -> Seq<u8> {
    seq![69u8, 88u8, 69u8, 67u8, 32u8, 119u8, 105u8, 116u8, 104u8, 111u8, 117u8, 116u8, 32u8,
        77u8, 85u8, 76u8, 84u8, 73u8]
}

/// `DISCARD without MULTI`
pub open spec fn msg_discard_without_multi() -> Seq<u8> {
    seq![68u8, 73u8, 83u8, 67u8, 65u8, 82u8, 68u8, 32u8, 119u8, 105u8, 116u8, 104u8, 111u8,
        117u8, 116u8, 32u8, 77u8, 85u8, 76u8, 84u8, 73u8]
}

/// `unknown command`
pub open spec fn msg_unknown_command() -> Seq<u8> {
    seq![117u8, 110u8, 107u8, 110u8, 111u8, 119u8, 110u8, 32u8, 99u8, 111u8, 109u8, 109u8, 97u8,
        110u8, 100u8]
}

pub open spec fn simple_reply(s: Seq<u8>) -> ReplyModel {
    ReplyModel::One(ReplyItemModel::Simple(s))
}

pub open spec fn error_reply(m: Seq<u8>) -> ReplyModel {
    ReplyModel::One(ReplyItemModel::ErrorMsg(m))
}

/// The transition function of the state machine: the next state and the
/// decision for one command arriving in state `t`.
///
/// `MULTI` opens a transaction and nests never; `EXEC` takes the whole queue
/// to run as one batch and closes the transaction; `DISCARD` drops the queue;
/// `PING` answers at once in every state and is never queued; a command with
/// no recognized opcode gets an error and is never queued; every other
/// command is queued while open and run alone while idle. Every erroneous
/// command leaves the state exactly as it was.
pub open spec fn txn_step(t: TransactionModel, c: CommandModel) -> (TransactionModel, DecisionModel) {
    if c.op == Opcode::Multi {
        if t.is_open {
            (t, DecisionModel::ReplyNow(error_reply(msg_nested_multi())))
        } else {
            (
                TransactionModel { is_open: true, queued: t.queued },
                DecisionModel::ReplyNow(simple_reply(ok_bytes())),
            )
        }
    } else if c.op == Opcode::Exec {
        if t.is_open {
            (
                TransactionModel { is_open: false, queued: Seq::empty() },
                DecisionModel::RunBatch(t.queued),
            )
        } else {
            (t, DecisionModel::ReplyNow(error_reply(msg_exec_without_multi())))
        }
    } else if c.op == Opcode::Discard {
        if t.is_open {
            (
                TransactionModel { is_open: false, queued: Seq::empty() },
                DecisionModel::ReplyNow(simple_reply(ok_bytes())),
            )
        } else {
            (t, DecisionModel::ReplyNow(error_reply(msg_discard_without_multi())))
        }
    } else if c.op == Opcode::Ping {
        (t, DecisionModel::ReplyNow(simple_reply(pong_bytes())))
    } else if c.op == Opcode::Invalid {
        (t, DecisionModel::ReplyNow(error_reply(msg_unknown_command())))
    } else {
        if t.is_open {
            (
                TransactionModel { is_open: true, queued: t.queued.push(c) },
                DecisionModel::ReplyNow(simple_reply(queued_bytes())),
            )
        } else {
            (t, DecisionModel::RunSingle(c))
        }
    }
}

impl TransactionState {
    /// A fresh connection starts idle with an empty queue.
    pub fn new() -> (t: TransactionState)
        ensures
            t@.is_open == false,
            t@.queued == Seq::<CommandModel>::empty(),
            txn_wf(t@),
    {
        let t = TransactionState { is_open: false, queued: Vec::new() };
        proof {
            assert(t@.queued =~= Seq::<CommandModel>::empty());
        }
        t
    }

    /// Applies one command, exactly as `txn_step` prescribes.
    pub fn on_command(&mut self, cmd: Command) -> (d: Decision)
        requires
            txn_wf(old(self)@),
        ensures
            txn_wf(final(self)@),
            (final(self)@, d@) == txn_step(old(self)@, cmd@),
    {
        let op = cmd.op;
        if op == Opcode::Multi {
            if self.is_open {
                let m: [u8; 29] = [77, 85, 76, 84, 73, 32, 99, 97, 108, 108, 115, 32, 99, 97, 110,
                    32, 110, 111, 116, 32, 98, 101, 32, 110, 101, 115, 116, 101, 100];
                proof {
                    assert(m@ =~= msg_nested_multi());
                }
                Decision::ReplyNow(Reply::One(ReplyItem::ErrorMsg(slice_to_vec(m.as_slice()))))
            } else {
                self.is_open = true;
                let m: [u8; 2] = [79, 75];
                proof {
                    assert(m@ =~= ok_bytes());
                }
                Decision::ReplyNow(Reply::One(ReplyItem::Simple(slice_to_vec(m.as_slice()))))
            }
        } else if op == Opcode::Exec {
            if self.is_open {
                self.is_open = false;
                let q = self.queued.split_off(0);
                proof {
                    assert(self.queued@.map_values(|c: Command| c@)
                        =~= Seq::<CommandModel>::empty());
                    assert(q@.map_values(|c: Command| c@) =~= old(self)@.queued);
                }
                Decision::RunBatch(q)
            } else {
                let m: [u8; 18] = [69, 88, 69, 67, 32, 119, 105, 116, 104, 111, 117, 116, 32, 77,
                    85, 76, 84, 73];
                proof {
                    assert(m@ =~= msg_exec_without_multi());
                }
                Decision::ReplyNow(Reply::One(ReplyItem::ErrorMsg(slice_to_vec(m.as_slice()))))
            }
        } else if op == Opcode::Discard {
            if self.is_open {
                self.is_open = false;
                self.queued = Vec::new();
                proof {
                    assert(self.queued@.map_values(|c: Command| c@)
                        =~= Seq::<CommandModel>::empty());
                }
                let m: [u8; 2] = [79, 75];
                proof {
                    assert(m@ =~= ok_bytes());
                }
                Decision::ReplyNow(Reply::One(ReplyItem::Simple(slice_to_vec(m.as_slice()))))
            } else {
                let m: [u8; 21] = [68, 73, 83, 67, 65, 82, 68, 32, 119, 105, 116, 104, 111, 117,
                    116, 32, 77, 85, 76, 84, 73];
                proof {
                    assert(m@ =~= msg_discard_without_multi());
                }
                Decision::ReplyNow(Reply::One(ReplyItem::ErrorMsg(slice_to_vec(m.as_slice()))))
            }
        } else if op == Opcode::Ping {
            let m: [u8; 4] = [80, 79, 78, 71];
            proof {
                assert(m@ =~= pong_bytes());
            }
            Decision::ReplyNow(Reply::One(ReplyItem::Simple(slice_to_vec(m.as_slice()))))
        } else if op == Opcode::Invalid {
            let m: [u8; 15] = [117, 110, 107, 110, 111, 119, 110, 32, 99, 111, 109, 109, 97, 110,
                100];
            proof {
                assert(m@ =~= msg_unknown_command());
            }
            Decision::ReplyNow(Reply::One(ReplyItem::ErrorMsg(slice_to_vec(m.as_slice()))))
        } else {
            if self.is_open {
                let ghost pre = self.queued@.map_values(|c: Command| c@);
                let ghost cm = cmd@;
                self.queued.push(cmd);
                proof {
                    assert(self.queued@.map_values(|c: Command| c@) =~= pre.push(cm));
                }
                let m: [u8; 6] = [81, 85, 69, 85, 69, 68];
                proof {
                    assert(m@ =~= queued_bytes());
                }
                Decision::ReplyNow(Reply::One(ReplyItem::Simple(slice_to_vec(m.as_slice()))))
            } else {
                Decision::RunSingle(cmd)
            }
        }
    }
}

} // verus!
