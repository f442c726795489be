//! The per-connection driver state: one decoder, one transaction state, one
//! output buffer, and at most one outstanding engine call. The caller reads
//! raw bytes and feeds them in; `poll` processes one decoded frame at a time;
//! an engine call decided here is performed outside and its outcome handed
//! back to `complete`; the output buffer is flushed between reads.

use vstd::prelude::*;
use crate::bridge::{
    BridgeOp, BridgeOpModel, OpResult, OpResultModel, build_request, op_of_command, single_reply,
    batch_reply, single_reply_exec, batch_reply_exec, results_view,
};
use crate::command::{Command, CommandModel, parse, parse_command};
use crate::decoder::Decoder;
use crate::frame::FrameModel;
use crate::grammar::{parse_frame, FrameStep};
use crate::reply::{Reply, ReplyItem, ReplyModel, encode_reply, encode_reply_into};
use crate::txn::{TransactionState, TransactionModel, txn_step, txn_wf, error_reply};
use vstd::slice::slice_to_vec;

verus! {

/// An engine call that has been decided but not yet answered.
pub struct PendingCall {
    pub batch: bool,
    pub ops: Vec<BridgeOp>,
}

/// Mathematical model of a `PendingCall`.
#[verifier::ext_equal]
pub struct PendingModel {
    pub batch: bool,
    pub ops: Seq<BridgeOpModel>,
}

impl View for PendingCall {
    type V = PendingModel;

    open spec fn view(&self) -> PendingModel {
        PendingModel { batch: self.batch, ops: self.ops@.map_values(|o: BridgeOp| o@) }
    }
}

/// Mathematical model of a `Connection`.
#[verifier::ext_equal]
pub struct ConnectionModel {
    pub stream: Seq<u8>,
    pub limit: nat,
    pub txn: TransactionModel,
    pub pending: Option<PendingModel>,
    pub out: Seq<u8>,
    pub alive: bool,
}

/// What one `poll` decided.
#[derive(Clone, Copy, PartialEq, Eq, Structural)]
pub enum PollStep {
    /// No complete frame is buffered: flush the output and read more bytes.
    NeedInput,
    /// One frame was processed and answered locally: poll again.
    Progress,
    /// One frame decided an engine call: run the pending operations and hand
    /// the outcome to `complete`, then poll again.
    CallEngine,
    /// The byte stream is malformed: flush the output and close.
    Fatal,
}

/// `protocol error`
pub open spec fn msg_protocol_error() -> Seq<u8> {
    seq![112u8, 114u8, 111u8, 116u8, 111u8, 99u8, 111u8, 108u8, 32u8, 101u8, 114u8, 114u8, 111u8,
        114u8]
}

/// `unsupported command`
pub open spec fn msg_unsupported() -> Seq<u8> {
    seq![117u8, 110u8, 115u8, 117u8, 112u8, 112u8, 111u8, 114u8, 116u8, 101u8, 100u8, 32u8, 99u8,
        111u8, 109u8, 109u8, 97u8, 110u8, 100u8]
}

/// The transition function of the driver for one `poll`: what one call does
/// to the connection and what it asks of the caller.
pub open spec fn conn_step(c: ConnectionModel) -> (ConnectionModel, PollStep) {
    match parse_frame(c.stream, 0, c.limit) {
        FrameStep::Partial => (c, PollStep::NeedInput),
        FrameStep::Malformed => (
            ConnectionModel {
                out: c.out + encode_reply(error_reply(msg_protocol_error())),
                alive: false,
                ..c
            },
            PollStep::Fatal,
        ),
        FrameStep::Done(f, j) => {
            let c1 = ConnectionModel { stream: c.stream.skip(j), ..c };
            match parse_command(f) {
                None => (
                    ConnectionModel {
                        out: c1.out + encode_reply(error_reply(msg_unsupported())),
                        ..c1
                    },
                    PollStep::Progress,
                ),
                Some(cmd) => {
                    let (t2, d) = txn_step(c.txn, cmd);
                    match d {
                        crate::txn::DecisionModel::ReplyNow(r) => (
                            ConnectionModel { txn: t2, out: c1.out + encode_reply(r), ..c1 },
                            PollStep::Progress,
                        ),
                        crate::txn::DecisionModel::RunSingle(cm) => (
                            ConnectionModel {
                                txn: t2,
                                pending: Some(
                                    PendingModel { batch: false, ops: seq![op_of_command(cm)] },
                                ),
                                ..c1
                            },
                            PollStep::CallEngine,
                        ),
                        crate::txn::DecisionModel::RunBatch(cs) => (
                            ConnectionModel {
                                txn: t2,
                                pending: Some(
                                    PendingModel {
                                        batch: true,
                                        ops: cs.map_values(|x: CommandModel| op_of_command(x)),
                                    },
                                ),
                                ..c1
                            },
                            PollStep::CallEngine,
                        ),
                    }
                },
            }
        },
    }
}

/// The reply that answers a pending call, given what the engine returned:
/// a batch is demultiplexed element-wise, a single operation unwrapped; an
/// answer of the wrong length counts as a backend failure.
pub open spec fn complete_reply(p: PendingModel, outcome: Option<Seq<OpResultModel>>) -> ReplyModel {
    if p.batch {
        batch_reply(p.ops, outcome)
    } else {
        single_reply(
            p.ops[0].op,
            match outcome {
                None => None,
                Some(rs) => if rs.len() == 1 {
                    Some(rs[0])
                } else {
                    None
                },
            },
        )
    }
}

/// One client connection's protocol state.
pub struct Connection {
    decoder: Decoder,
    txn: TransactionState,
    pending: Option<PendingCall>,
    out: Vec<u8>,
    alive: bool,
}

impl View for Connection {
    type V = ConnectionModel;

    closed spec fn view(&self) -> ConnectionModel {
        ConnectionModel {
            stream: self.decoder@,
            limit: self.decoder.limit(),
            txn: self.txn@,
            pending: match &self.pending {
                Some(p) => Some(p@),
                None => None,
            },
            out: self.out@,
            alive: self.alive,
        }
    }
}

impl Connection {
    pub open spec fn wf(&self) -> bool {
        &&& self@.limit < 0x8000_0000
        &&& txn_wf(self@.txn)
        &&& match self@.pending {
            Some(p) => !p.batch ==> p.ops.len() == 1,
            None => true,
        }
    }

    /// A fresh connection: nothing buffered, no transaction open, nothing
    /// pending, nothing to flush.
    pub fn new(limit: usize) -> (c: Connection)
        requires
            limit < 0x8000_0000,
        ensures
            c.wf(),
            c@.stream == Seq::<u8>::empty(),
            c@.limit == limit as nat,
            c@.txn.is_open == false,
            c@.txn.queued == Seq::<CommandModel>::empty(),
            c@.pending is None,
            c@.out == Seq::<u8>::empty(),
            c@.alive == true,
    {
        let c = Connection {
            decoder: Decoder::new(limit),
            txn: TransactionState::new(),
            pending: None,
            out: Vec::new(),
            alive: true,
        };
        c
    }

    /// Buffers one chunk of bytes read from the peer.
    pub fn feed(&mut self, chunk: &[u8])
        requires
            old(self).wf(),
        ensures
            final(self).wf(),
            final(self)@ == (ConnectionModel { stream: old(self)@.stream + chunk@, ..old(self)@ }),
    {
        self.decoder.feed(chunk);
        proof {
            assert(self@ =~~= (ConnectionModel { stream: old(self)@.stream + chunk@, ..old(
                self,
            )@ }));
        }
    }

    /// Processes one buffered frame, exactly as `conn_step` prescribes.
    pub fn poll(&mut self) -> (s: PollStep)
        requires
            old(self).wf(),
            old(self)@.pending is None,
            old(self)@.alive,
        ensures
            final(self).wf(),
            (final(self)@, s) == conn_step(old(self)@),
    {
        let ghost c0 = self@;
        let r = self.decoder.next();
        match r {
            Ok(None) => {
                proof {
                    assert(self@ =~~= conn_step(c0).0);
                }
                PollStep::NeedInput
            },
            Err(_) => {
                self.alive = false;
                let m: [u8; 14] = [112, 114, 111, 116, 111, 99, 111, 108, 32, 101, 114, 114, 111,
                    114];
                proof {
                    assert(m@ =~= msg_protocol_error());
                }
                let rep = Reply::One(ReplyItem::ErrorMsg(slice_to_vec(m.as_slice())));
                encode_reply_into(&mut self.out, &rep);
                proof {
                    assert(self@ =~~= conn_step(c0).0);
                }
                PollStep::Fatal
            },
            Ok(Some(frame)) => {
                let ghost f = frame@;
                let ghost j = c0.stream.len() - self@.stream.len();
                match parse(&frame) {
                    None => {
                        let m: [u8; 19] = [117, 110, 115, 117, 112, 112, 111, 114, 116, 101, 100,
                            32, 99, 111, 109, 109, 97, 110, 100];
                        proof {
                            assert(m@ =~= msg_unsupported());
                        }
                        let rep = Reply::One(ReplyItem::ErrorMsg(slice_to_vec(m.as_slice())));
                        encode_reply_into(&mut self.out, &rep);
                        proof {
                            assert(self@ =~~= conn_step(c0).0);
                        }
                        PollStep::Progress
                    },
                    Some(cmd) => {
                        let ghost cm = cmd@;
                        match self.txn.on_command(cmd) {
                            crate::txn::Decision::ReplyNow(rep) => {
                                encode_reply_into(&mut self.out, &rep);
                                proof {
                                    assert(self@ =~~= conn_step(c0).0);
                                }
                                PollStep::Progress
                            },
                            crate::txn::Decision::RunSingle(c) => {
                                let mut one: Vec<Command> = Vec::new();
                                one.push(c);
                                let ops = build_request(&one);
                                proof {
                                    assert(one@.map_values(|x: Command| x@) =~= seq![cm]);
                                    assert(seq![cm].map_values(
                                        |x: CommandModel| op_of_command(x),
                                    ) =~= seq![op_of_command(cm)]);
                                }
                                self.pending = Some(PendingCall { batch: false, ops });
                                proof {
                                    assert(self@ =~~= conn_step(c0).0);
                                }
                                PollStep::CallEngine
                            },
                            crate::txn::Decision::RunBatch(cs) => {
                                let ops = build_request(&cs);
                                self.pending = Some(PendingCall { batch: true, ops });
                                proof {
                                    assert(self@ =~~= conn_step(c0).0);
                                }
                                PollStep::CallEngine
                            },
                        }
                    },
                }
            },
        }
    }

    /// Whether an engine call is pending.
    pub fn has_pending(&self) -> (b: bool)
        ensures
            b == (self@.pending is Some),
    {
        self.pending.is_some()
    }

    /// The operations of the pending engine call, in submitted order.
    pub fn pending_ops(&self) -> (r: &Vec<BridgeOp>)
        requires
            self@.pending is Some,
        ensures
            r@.map_values(|o: BridgeOp| o@) == self@.pending->Some_0.ops,
    {
        match &self.pending {
            Some(p) => &p.ops,
            None => {
                proof {
                    assert(false);
                }
                unreached()
            },
        }
    }

    /// Whether the pending call is a transaction batch (replied to as an
    /// array) or one unbatched operation (replied to unwrapped).
    pub fn pending_is_batch(&self) -> (b: bool)
        requires
            self@.pending is Some,
        ensures
            b == self@.pending->Some_0.batch,
    {
        match &self.pending {
            Some(p) => p.batch,
            None => {
                proof {
                    assert(false);
                }
                unreached()
            },
        }
    }

    /// Hands back what the engine returned for the pending call; the reply is
    /// encoded into the output buffer and the call retired.
    pub fn complete(&mut self, outcome: Option<Vec<OpResult>>)
        requires
            old(self).wf(),
            old(self)@.pending is Some,
        ensures
            final(self).wf(),
            final(self)@ == (ConnectionModel {
                pending: None,
                out: old(self)@.out + encode_reply(
                    complete_reply(old(self)@.pending->Some_0, results_view(outcome)),
                ),
                ..old(self)@
            }),
    {
        let ghost p = self@.pending->Some_0;
        let rep: Reply = match &self.pending {
            Some(pc) => {
                if pc.batch {
                    batch_reply_exec(&pc.ops, outcome)
                } else {
                    let flat: Option<OpResult> = match outcome {
                        None => None,
                        Some(mut rs) => if rs.len() == 1 {
                            let ghost rsm = rs@.map_values(|x: OpResult| x@);
                            let r = rs.pop();
                            match r {
                                Some(x) => {
                                    proof {
                                        assert(x@ == rsm[0]);
                                    }
                                    Some(x)
                                },
                                None => None,
                            }
                        } else {
                            None
                        },
                    };
                    proof {
                        assert(p.ops[0] == pc.ops@.map_values(|o: BridgeOp| o@)[0]);
                        assert(pc.ops@[0]@ == p.ops[0]);
                    }
                    single_reply_exec(pc.ops[0].op, flat)
                }
            },
            None => {
                proof {
                    assert(false);
                }
                unreached()
            },
        };
        encode_reply_into(&mut self.out, &rep);
        self.pending = None;
        proof {
            assert(self@ =~~= (ConnectionModel {
                pending: None,
                out: old(self)@.out + encode_reply(complete_reply(p, results_view(outcome))),
                ..old(self)@
            }));
        }
    }

    /// Takes everything buffered for the peer, leaving the buffer empty; the
    /// caller writes and flushes it.
    pub fn take_output(&mut self) -> (o: Vec<u8>)
        requires
            old(self).wf(),
        ensures
            final(self).wf(),
            o@ == old(self)@.out,
            final(self)@ == (ConnectionModel { out: Seq::<u8>::empty(), ..old(self)@ }),
    {
        let o = self.out.split_off(0);
        proof {
            assert(o@ =~= old(self)@.out);
            assert(self@ =~~= (ConnectionModel { out: Seq::<u8>::empty(), ..old(self)@ }));
        }
        o
    }

    /// Whether the connection is still usable; false after a framing error.
    pub fn is_alive(&self) -> (b: bool)
        ensures
            b == self@.alive,
    {
        self.alive
    }
}

} // verus!
