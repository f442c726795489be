//! The command model: typed operations with a fixed opcode, a primary key,
//! and auxiliary byte-string arguments, parsed from a decoded frame.

use vstd::prelude::*;
use crate::ascii::{lower, ascii_eq_ci};
use crate::frame::{Item, Frame, ItemModel, FrameModel, is_string_like, string_of, copy_bytes};

verus! {

/// The closed set of operations the protocol layer understands.
#[derive(Clone, Copy, PartialEq, Eq, Structural)]
pub enum Opcode {
    Get,
    SetCmd,
    Incr,
    Decr,
    IncrBy,
    DecrBy,
    Del,
    Exists,
    Expire,
    Ttl,
    Keys,
    LPush,
    RPush,
    LPop,
    RPop,
    LLen,
    LRange,
    HSet,
    HGet,
    HGetAll,
    HDel,
    HExists,
    HMGet,
    SAdd,
    SMembers,
    SIsMember,
    SInter,
    SDiff,
    SCard,
    Ping,
    Multi,
    Exec,
    Discard,
    Watch,
    Unwatch,
    Invalid,
}

/// The lower-case wire name of an opcode; `Invalid` has none.
pub open spec fn opcode_name(op: Opcode) -> Seq<u8> {
    match op {
        Opcode::Get => seq![103u8, 101u8, 116u8],
        Opcode::SetCmd => seq![115u8, 101u8, 116u8],
        Opcode::Incr => seq![105u8, 110u8, 99u8, 114u8],
        Opcode::Decr => seq![100u8, 101u8, 99u8, 114u8],
        Opcode::IncrBy => seq![105u8, 110u8, 99u8, 114u8, 98u8, 121u8],
        Opcode::DecrBy => seq![100u8, 101u8, 99u8, 114u8, 98u8, 121u8],
        Opcode::Del => seq![100u8, 101u8, 108u8],
        Opcode::Exists => seq![101u8, 120u8, 105u8, 115u8, 116u8, 115u8],
        Opcode::Expire => seq![101u8, 120u8, 112u8, 105u8, 114u8, 101u8],
        Opcode::Ttl => seq![116u8, 116u8, 108u8],
        Opcode::Keys => seq![107u8, 101u8, 121u8, 115u8],
        Opcode::LPush => seq![108u8, 112u8, 117u8, 115u8, 104u8],
        Opcode::RPush => seq![114u8, 112u8, 117u8, 115u8, 104u8],
        Opcode::LPop => seq![108u8, 112u8, 111u8, 112u8],
        Opcode::RPop => seq![114u8, 112u8, 111u8, 112u8],
        Opcode::LLen => seq![108u8, 108u8, 101u8, 110u8],
        Opcode::LRange => seq![108u8, 114u8, 97u8, 110u8, 103u8, 101u8],
        Opcode::HSet => seq![104u8, 115u8, 101u8, 116u8],
        Opcode::HGet => seq![104u8, 103u8, 101u8, 116u8],
        Opcode::HGetAll => seq![104u8, 103u8, 101u8, 116u8, 97u8, 108u8, 108u8],
        Opcode::HDel => seq![104u8, 100u8, 101u8, 108u8],
        Opcode::HExists => seq![104u8, 101u8, 120u8, 105u8, 115u8, 116u8, 115u8],
        Opcode::HMGet => seq![104u8, 109u8, 103u8, 101u8, 116u8],
        Opcode::SAdd => seq![115u8, 97u8, 100u8, 100u8],
        Opcode::SMembers => seq![115u8, 109u8, 101u8, 109u8, 98u8, 101u8, 114u8, 115u8],
        Opcode::SIsMember => seq![115u8, 105u8, 115u8, 109u8, 101u8, 109u8, 98u8, 101u8, 114u8],
        Opcode::SInter => seq![115u8, 105u8, 110u8, 116u8, 101u8, 114u8],
        Opcode::SDiff => seq![115u8, 100u8, 105u8, 102u8, 102u8],
        Opcode::SCard => seq![115u8, 99u8, 97u8, 114u8, 100u8],
        Opcode::Ping => seq![112u8, 105u8, 110u8, 103u8],
        Opcode::Multi => seq![109u8, 117u8, 108u8, 116u8, 105u8],
        Opcode::Exec => seq![101u8, 120u8, 101u8, 99u8],
        Opcode::Discard => seq![100u8, 105u8, 115u8, 99u8, 97u8, 114u8, 100u8],
        Opcode::Watch => seq![119u8, 97u8, 116u8, 99u8, 104u8],
        Opcode::Unwatch => seq![117u8, 110u8, 119u8, 97u8, 116u8, 99u8, 104u8],
        Opcode::Invalid => Seq::empty(),
    }
}

/// The opcode a command name denotes; matching is ASCII case-insensitive.
pub open spec fn opcode_of(name: Seq<u8>) -> Opcode {
    if lower(name) == opcode_name(Opcode::Get) {
        Opcode::Get
    } else if lower(name) == opcode_name(Opcode::SetCmd) {
        Opcode::SetCmd
    } else if lower(name) == opcode_name(Opcode::Incr) {
        Opcode::Incr
    } else if lower(name) == opcode_name(Opcode::Decr) {
        Opcode::Decr
    } else if lower(name) == opcode_name(Opcode::IncrBy) {
        Opcode::IncrBy
    } else if lower(name) == opcode_name(Opcode::DecrBy) {
        Opcode::DecrBy
    } else if lower(name) == opcode_name(Opcode::Del) {
        Opcode::Del
    } else if lower(name) == opcode_name(Opcode::Exists) {
        Opcode::Exists
    } else if lower(name) == opcode_name(Opcode::Expire) {
        Opcode::Expire
    } else if lower(name) == opcode_name(Opcode::Ttl) {
        Opcode::Ttl
    } else if lower(name) == opcode_name(Opcode::Keys) {
        Opcode::Keys
    } else if lower(name) == opcode_name(Opcode::LPush) {
        Opcode::LPush
    } else if lower(name) == opcode_name(Opcode::RPush) {
        Opcode::RPush
    } else if lower(name) == opcode_name(Opcode::LPop) {
        Opcode::LPop
    } else if lower(name) == opcode_name(Opcode::RPop) {
        Opcode::RPop
    } else if lower(name) == opcode_name(Opcode::LLen) {
        Opcode::LLen
    } else if lower(name) == opcode_name(Opcode::LRange) {
        Opcode::LRange
    } else if lower(name) == opcode_name(Opcode::HSet) {
        Opcode::HSet
    } else if lower(name) == opcode_name(Opcode::HGet) {
        Opcode::HGet
    } else if lower(name) == opcode_name(Opcode::HGetAll) {
        Opcode::HGetAll
    } else if lower(name) == opcode_name(Opcode::HDel) {
        Opcode::HDel
    } else if lower(name) == opcode_name(Opcode::HExists) {
        Opcode::HExists
    } else if lower(name) == opcode_name(Opcode::HMGet) {
        Opcode::HMGet
    } else if lower(name) == opcode_name(Opcode::SAdd) {
        Opcode::SAdd
    } else if lower(name) == opcode_name(Opcode::SMembers) {
        Opcode::SMembers
    } else if lower(name) == opcode_name(Opcode::SIsMember) {
        Opcode::SIsMember
    } else if lower(name) == opcode_name(Opcode::SInter) {
        Opcode::SInter
    } else if lower(name) == opcode_name(Opcode::SDiff) {
        Opcode::SDiff
    } else if lower(name) == opcode_name(Opcode::SCard) {
        Opcode::SCard
    } else if lower(name) == opcode_name(Opcode::Ping) {
        Opcode::Ping
    } else if lower(name) == opcode_name(Opcode::Multi) {
        Opcode::Multi
    } else if lower(name) == opcode_name(Opcode::Exec) {
        Opcode::Exec
    } else if lower(name) == opcode_name(Opcode::Discard) {
        Opcode::Discard
    } else if lower(name) == opcode_name(Opcode::Watch) {
        Opcode::Watch
    } else if lower(name) == opcode_name(Opcode::Unwatch) {
        Opcode::Unwatch
    } else {
        Opcode::Invalid
    }
}

/// Smallest number of frame elements (command name included) the opcode
/// accepts.
pub open spec fn min_arity(op: Opcode) -> nat {
    match op {
        Opcode::Get => 2,
        Opcode::SetCmd => 3,
        Opcode::Incr => 2,
        Opcode::Decr => 2,
        Opcode::IncrBy => 3,
        Opcode::DecrBy => 3,
        Opcode::Del => 2,
        Opcode::Exists => 2,
        Opcode::Expire => 3,
        Opcode::Ttl => 2,
        Opcode::Keys => 2,
        Opcode::LPush => 3,
        Opcode::RPush => 3,
        Opcode::LPop => 2,
        Opcode::RPop => 2,
        Opcode::LLen => 2,
        Opcode::LRange => 4,
        Opcode::HSet => 4,
        Opcode::HGet => 3,
        Opcode::HGetAll => 2,
        Opcode::HDel => 3,
        Opcode::HExists => 3,
        Opcode::HMGet => 3,
        Opcode::SAdd => 3,
        Opcode::SMembers => 2,
        Opcode::SIsMember => 3,
        Opcode::SInter => 2,
        Opcode::SDiff => 2,
        Opcode::SCard => 2,
        Opcode::Ping => 1,
        Opcode::Multi => 1,
        Opcode::Exec => 1,
        Opcode::Discard => 1,
        Opcode::Watch => 2,
        Opcode::Unwatch => 1,
        Opcode::Invalid => 1,
    }
}

/// Whether the opcode addresses a primary key (its first argument).
pub open spec fn has_key(op: Opcode) -> bool {
    !(op == Opcode::Ping || op == Opcode::Multi || op == Opcode::Exec || op == Opcode::Discard
        || op == Opcode::Unwatch || op == Opcode::Invalid)
}

/// Whether the opcode takes arbitrarily many trailing arguments.
pub open spec fn is_variadic(op: Opcode) -> bool {
    op == Opcode::LPush || op == Opcode::RPush || op == Opcode::SAdd || op == Opcode::HMGet
}

/// Whether the opcode takes exactly its minimum arity and no more.
pub open spec fn is_exact_arity(op: Opcode) -> bool {
    op == Opcode::HSet
}

pub proof fn lemma_key_ops_arity(op: Opcode)
    ensures
        has_key(op) ==> min_arity(op) >= 2,
        min_arity(op) >= 1,
{
}

/// Case-insensitive lookup of a command name's opcode.
pub fn parse_opcode(name: &[u8]) -> (op: Opcode)
    ensures
        op == opcode_of(name@),
{
    let n_get: [u8; 3] = [103, 101, 116];
    let n_set: [u8; 3] = [115, 101, 116];
    let n_incr: [u8; 4] = [105, 110, 99, 114];
    let n_decr: [u8; 4] = [100, 101, 99, 114];
    let n_incrby: [u8; 6] = [105, 110, 99, 114, 98, 121];
    let n_decrby: [u8; 6] = [100, 101, 99, 114, 98, 121];
    let n_del: [u8; 3] = [100, 101, 108];
    let n_exists: [u8; 6] = [101, 120, 105, 115, 116, 115];
    let n_expire: [u8; 6] = [101, 120, 112, 105, 114, 101];
    let n_ttl: [u8; 3] = [116, 116, 108];
    let n_keys: [u8; 4] = [107, 101, 121, 115];
    let n_lpush: [u8; 5] = [108, 112, 117, 115, 104];
    let n_rpush: [u8; 5] = [114, 112, 117, 115, 104];
    let n_lpop: [u8; 4] = [108, 112, 111, 112];
    let n_rpop: [u8; 4] = [114, 112, 111, 112];
    let n_llen: [u8; 4] = [108, 108, 101, 110];
    let n_lrange: [u8; 6] = [108, 114, 97, 110, 103, 101];
    let n_hset: [u8; 4] = [104, 115, 101, 116];
    let n_hget: [u8; 4] = [104, 103, 101, 116];
    let n_hgetall: [u8; 7] = [104, 103, 101, 116, 97, 108, 108];
    let n_hdel: [u8; 4] = [104, 100, 101, 108];
    let n_hexists: [u8; 7] = [104, 101, 120, 105, 115, 116, 115];
    let n_hmget: [u8; 5] = [104, 109, 103, 101, 116];
    let n_sadd: [u8; 4] = [115, 97, 100, 100];
    let n_smembers: [u8; 8] = [115, 109, 101, 109, 98, 101, 114, 115];
    let n_sismember: [u8; 9] = [115, 105, 115, 109, 101, 109, 98, 101, 114];
    let n_sinter: [u8; 6] = [115, 105, 110, 116, 101, 114];
    let n_sdiff: [u8; 5] = [115, 100, 105, 102, 102];
    let n_scard: [u8; 5] = [115, 99, 97, 114, 100];
    let n_ping: [u8; 4] = [112, 105, 110, 103];
    let n_multi: [u8; 5] = [109, 117, 108, 116, 105];
    let n_exec: [u8; 4] = [101, 120, 101, 99];
    let n_discard: [u8; 7] = [100, 105, 115, 99, 97, 114, 100];
    let n_watch: [u8; 5] = [119, 97, 116, 99, 104];
    let n_unwatch: [u8; 7] = [117, 110, 119, 97, 116, 99, 104];
    proof {
        assert(lower(n_get@) =~= opcode_name(Opcode::Get));
        assert(lower(n_set@) =~= opcode_name(Opcode::SetCmd));
        assert(lower(n_incr@) =~= opcode_name(Opcode::Incr));
        assert(lower(n_decr@) =~= opcode_name(Opcode::Decr));
        assert(lower(n_incrby@) =~= opcode_name(Opcode::IncrBy));
        assert(lower(n_decrby@) =~= opcode_name(Opcode::DecrBy));
        assert(lower(n_del@) =~= opcode_name(Opcode::Del));
        assert(lower(n_exists@) =~= opcode_name(Opcode::Exists));
        assert(lower(n_expire@) =~= opcode_name(Opcode::Expire));
        assert(lower(n_ttl@) =~= opcode_name(Opcode::Ttl));
        assert(lower(n_keys@) =~= opcode_name(Opcode::Keys));
        assert(lower(n_lpush@) =~= opcode_name(Opcode::LPush));
        assert(lower(n_rpush@) =~= opcode_name(Opcode::RPush));
        assert(lower(n_lpop@) =~= opcode_name(Opcode::LPop));
        assert(lower(n_rpop@) =~= opcode_name(Opcode::RPop));
        assert(lower(n_llen@) =~= opcode_name(Opcode::LLen));
        assert(lower(n_lrange@) =~= opcode_name(Opcode::LRange));
        assert(lower(n_hset@) =~= opcode_name(Opcode::HSet));
        assert(lower(n_hget@) =~= opcode_name(Opcode::HGet));
        assert(lower(n_hgetall@) =~= opcode_name(Opcode::HGetAll));
        assert(lower(n_hdel@) =~= opcode_name(Opcode::HDel));
        assert(lower(n_hexists@) =~= opcode_name(Opcode::HExists));
        assert(lower(n_hmget@) =~= opcode_name(Opcode::HMGet));
        assert(lower(n_sadd@) =~= opcode_name(Opcode::SAdd));
        assert(lower(n_smembers@) =~= opcode_name(Opcode::SMembers));
        assert(lower(n_sismember@) =~= opcode_name(Opcode::SIsMember));
        assert(lower(n_sinter@) =~= opcode_name(Opcode::SInter));
        assert(lower(n_sdiff@) =~= opcode_name(Opcode::SDiff));
        assert(lower(n_scard@) =~= opcode_name(Opcode::SCard));
        assert(lower(n_ping@) =~= opcode_name(Opcode::Ping));
        assert(lower(n_multi@) =~= opcode_name(Opcode::Multi));
        assert(lower(n_exec@) =~= opcode_name(Opcode::Exec));
        assert(lower(n_discard@) =~= opcode_name(Opcode::Discard));
        assert(lower(n_watch@) =~= opcode_name(Opcode::Watch));
        assert(lower(n_unwatch@) =~= opcode_name(Opcode::Unwatch));
    }
    if ascii_eq_ci(name, n_get.as_slice()) {
        Opcode::Get
    } else if ascii_eq_ci(name, n_set.as_slice()) {
        Opcode::SetCmd
    } else if ascii_eq_ci(name, n_incr.as_slice()) {
        Opcode::Incr
    } else if ascii_eq_ci(name, n_decr.as_slice()) {
        Opcode::Decr
    } else if ascii_eq_ci(name, n_incrby.as_slice()) {
        Opcode::IncrBy
    } else if ascii_eq_ci(name, n_decrby.as_slice()) {
        Opcode::DecrBy
    } else if ascii_eq_ci(name, n_del.as_slice()) {
        Opcode::Del
    } else if ascii_eq_ci(name, n_exists.as_slice()) {
        Opcode::Exists
    } else if ascii_eq_ci(name, n_expire.as_slice()) {
        Opcode::Expire
    } else if ascii_eq_ci(name, n_ttl.as_slice()) {
        Opcode::Ttl
    } else if ascii_eq_ci(name, n_keys.as_slice()) {
        Opcode::Keys
    } else if ascii_eq_ci(name, n_lpush.as_slice()) {
        Opcode::LPush
    } else if ascii_eq_ci(name, n_rpush.as_slice()) {
        Opcode::RPush
    } else if ascii_eq_ci(name, n_lpop.as_slice()) {
        Opcode::LPop
    } else if ascii_eq_ci(name, n_rpop.as_slice()) {
        Opcode::RPop
    } else if ascii_eq_ci(name, n_llen.as_slice()) {
        Opcode::LLen
    } else if ascii_eq_ci(name, n_lrange.as_slice()) {
        Opcode::LRange
    } else if ascii_eq_ci(name, n_hset.as_slice()) {
        Opcode::HSet
    } else if ascii_eq_ci(name, n_hget.as_slice()) {
        Opcode::HGet
    } else if ascii_eq_ci(name, n_hgetall.as_slice()) {
        Opcode::HGetAll
    } else if ascii_eq_ci(name, n_hdel.as_slice()) {
        Opcode::HDel
    } else if ascii_eq_ci(name, n_hexists.as_slice()) {
        Opcode::HExists
    } else if ascii_eq_ci(name, n_hmget.as_slice()) {
        Opcode::HMGet
    } else if ascii_eq_ci(name, n_sadd.as_slice()) {
        Opcode::SAdd
    } else if ascii_eq_ci(name, n_smembers.as_slice()) {
        Opcode::SMembers
    } else if ascii_eq_ci(name, n_sismember.as_slice()) {
        Opcode::SIsMember
    } else if ascii_eq_ci(name, n_sinter.as_slice()) {
        Opcode::SInter
    } else if ascii_eq_ci(name, n_sdiff.as_slice()) {
        Opcode::SDiff
    } else if ascii_eq_ci(name, n_scard.as_slice()) {
        Opcode::SCard
    } else if ascii_eq_ci(name, n_ping.as_slice()) {
        Opcode::Ping
    } else if ascii_eq_ci(name, n_multi.as_slice()) {
        Opcode::Multi
    } else if ascii_eq_ci(name, n_exec.as_slice()) {
        Opcode::Exec
    } else if ascii_eq_ci(name, n_discard.as_slice()) {
        Opcode::Discard
    } else if ascii_eq_ci(name, n_watch.as_slice()) {
        Opcode::Watch
    } else if ascii_eq_ci(name, n_unwatch.as_slice()) {
        Opcode::Unwatch
    } else {
        Opcode::Invalid
    }
}

pub proof fn lemma_variadic_collects(op: Opcode)
    ensures
        is_variadic(op) ==> min_arity(op) >= 3,
{
}

/// A typed operation: its opcode, its primary key (empty for keyless
/// opcodes), and its auxiliary arguments in order. A command owns copies of
/// the byte ranges it was parsed from.
pub struct Command {
    pub op: Opcode,
    pub key: Vec<u8>,
    pub args: Vec<Vec<u8>>,
}

/// Mathematical model of a `Command`.
pub struct CommandModel {
    pub op: Opcode,
    pub key: Seq<u8>,
    pub args: Seq<Seq<u8>>,
}

impl View for Command {
    type V = CommandModel;

    open spec fn view(&self) -> CommandModel {
        CommandModel {
            op: self.op,
            key: self.key@,
            args: self.args@.map_values(|a: Vec<u8>| a@),
        }
    }
}

/// What a decoded frame means as a command, if anything: only an array whose
/// first element is a string-like frame naming a known opcode, whose other
/// elements are all string-like, and whose length meets the opcode's arity is
/// a command; everything else is rejected.
pub open spec fn parse_command(f: FrameModel) -> Option<CommandModel> {
    match f {
        FrameModel::Array(items) => {
            if items.len() == 0 {
                None
            } else if !is_string_like(items[0]) {
                None
            } else {
                let op = opcode_of(string_of(items[0]));
                if op == Opcode::Invalid {
                    None
                } else if !(forall|j: int| 1 <= j < items.len() ==> is_string_like(items[j])) {
                    None
                } else if items.len() < min_arity(op) {
                    None
                } else if is_exact_arity(op) && items.len() != min_arity(op) {
                    None
                } else {
                    let key = if has_key(op) {
                        string_of(items[1])
                    } else {
                        Seq::empty()
                    };
                    let start: int = if has_key(op) {
                        2
                    } else {
                        1
                    };
                    Some(
                        CommandModel {
                            op,
                            key,
                            args: items.skip(start).map_values(|it: ItemModel| string_of(it)),
                        },
                    )
                }
            }
        },
        _ => None,
    }
}

fn min_arity_exec(op: Opcode) -> (n: usize)
    ensures
        n as nat == min_arity(op),
{
    match op {
        Opcode::SetCmd | Opcode::IncrBy | Opcode::DecrBy | Opcode::Expire | Opcode::LPush
            | Opcode::RPush | Opcode::HGet | Opcode::HDel | Opcode::HExists | Opcode::HMGet
            | Opcode::SAdd | Opcode::SIsMember => 3,
        Opcode::LRange | Opcode::HSet => 4,
        Opcode::Ping | Opcode::Multi | Opcode::Exec | Opcode::Discard | Opcode::Unwatch
            | Opcode::Invalid => 1,
        _ => 2,
    }
}

fn has_key_exec(op: Opcode) -> (b: bool)
    ensures
        b == has_key(op),
{
    match op {
        Opcode::Ping | Opcode::Multi | Opcode::Exec | Opcode::Discard | Opcode::Unwatch
            | Opcode::Invalid => false,
        _ => true,
    }
}

fn is_exact_arity_exec(op: Opcode) -> (b: bool)
    ensures
        b == is_exact_arity(op),
{
    match op {
        Opcode::HSet => true,
        _ => false,
    }
}

fn string_bytes(it: &Item) -> (r: Vec<u8>)
    requires
        is_string_like(it@),
    ensures
        r@ == string_of(it@),
{
    match it {
        Item::SimpleString(s) => copy_bytes(s),
        Item::BulkString(s) => copy_bytes(s),
        _ => {
            proof {
                assert(false);
            }
            Vec::new()
        },
    }
}

/// Turns one decoded frame into a typed command, exactly as `parse_command`
/// prescribes; anything rejected there is rejected here.
#[verifier::loop_isolation(false)]
pub fn parse(frame: &Frame) -> (r: Option<Command>)
    ensures
        match r {
            Some(c) => parse_command(frame@) == Some(c@),
            None => parse_command(frame@) is None,
        },
{
    let items = match frame {
        Frame::Array(items) => items,
        _ => {
            return None;
        },
    };
    let ghost m = items@.map_values(|it: Item| it@);
    if items.len() == 0 {
        return None;
    }
    proof {
        assert(m[0] == items@[0]@);
        assert(m.len() == items@.len());
    }
    let name = match &items[0] {
        Item::SimpleString(s) => s,
        Item::BulkString(s) => s,
        _ => {
            return None;
        },
    };
    assert(is_string_like(m[0]) && string_of(m[0]) == name@);
    let op = parse_opcode(name.as_slice());
    if op == Opcode::Invalid {
        return None;
    }
    let mut j: usize = 1;
    while j < items.len()
        invariant
            1 <= j <= items.len(),
            m == items@.map_values(|it: Item| it@),
            forall|i: int| 1 <= i < j ==> is_string_like(m[i]),
        decreases items.len() - j,
    {
        match &items[j] {
            Item::SimpleString(_) => {},
            Item::BulkString(_) => {},
            _ => {
                assert(m[j as int] == items@[j as int]@);
                assert(!is_string_like(m[j as int]));
                return None;
            },
        }
        j = j + 1;
    }
    let ma = min_arity_exec(op);
    if items.len() < ma {
        return None;
    }
    if is_exact_arity_exec(op) && items.len() != ma {
        return None;
    }
    let hk = has_key_exec(op);
    proof {
        lemma_key_ops_arity(op);
    }
    let key: Vec<u8> = if hk {
        assert(m[1] == items@[1]@);
        string_bytes(&items[1])
    } else {
        Vec::new()
    };
    let start: usize = if hk {
        2
    } else {
        1
    };
    let ghost target = m.skip(start as int).map_values(|it: ItemModel| string_of(it));
    let mut args: Vec<Vec<u8>> = Vec::new();
    let mut k = start;
    proof {
        assert(args@.map_values(|a: Vec<u8>| a@) =~= target.take(0));
    }
    while k < items.len()
        invariant
            start <= k <= items.len(),
            start <= items.len(),
            m == items@.map_values(|it: Item| it@),
            forall|i: int| 1 <= i < items.len() ==> is_string_like(m[i]),
            1 <= start,
            target == m.skip(start as int).map_values(|it: ItemModel| string_of(it)),
            args@.map_values(|a: Vec<u8>| a@) == target.take(k - start),
        decreases items.len() - k,
    {
        let ghost pre = args@.map_values(|a: Vec<u8>| a@);
        assert(m[k as int] == items@[k as int]@);
        let s = string_bytes(&items[k]);
        args.push(s);
        proof {
            assert(target[k - start] == string_of(m[k as int]));
            assert(args@.map_values(|a: Vec<u8>| a@) =~= pre.push(s@));
            assert(target.take(k - start + 1) =~= target.take(k - start).push(target[k - start]));
        }
        k = k + 1;
    }
    proof {
        assert(target.take(items.len() - start) =~= target);
    }
    Some(Command { op, key, args })
}

} // verus!
