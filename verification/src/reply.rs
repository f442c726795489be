//! Protocol replies and their byte-exact encodings: pure functions from a
//! typed reply to the bytes that go on the wire.

use vstd::prelude::*;
use crate::frame::copy_bytes;

verus! {

/// One scalar reply element.
#[derive(PartialEq, Eq)]
pub enum ReplyItem {
    Simple(Vec<u8>),
    ErrorMsg(Vec<u8>),
    Integer(i64),
    Bulk(Vec<u8>),
    Nil,
}

/// Mathematical model of a `ReplyItem`.
pub enum ReplyItemModel {
    Simple(Seq<u8>),
    ErrorMsg(Seq<u8>),
    Integer(int),
    Bulk(Seq<u8>),
    Nil,
}

impl View for ReplyItem {
    type V = ReplyItemModel;

    open spec fn view(&self) -> ReplyItemModel {
        match self {
            ReplyItem::Simple(s) => ReplyItemModel::Simple(s@),
            ReplyItem::ErrorMsg(s) => ReplyItemModel::ErrorMsg(s@),
            ReplyItem::Integer(n) => ReplyItemModel::Integer(*n as int),
            ReplyItem::Bulk(s) => ReplyItemModel::Bulk(s@),
            ReplyItem::Nil => ReplyItemModel::Nil,
        }
    }
}

/// One reply: a single element, an array of elements, or the null array that
/// reports an aborted transaction.
#[derive(PartialEq, Eq)]
pub enum Reply {
    One(ReplyItem),
    Many(Vec<ReplyItem>),
    NilArray,
}

/// Mathematical model of a `Reply`.
pub enum ReplyModel {
    One(ReplyItemModel),
    Many(Seq<ReplyItemModel>),
    NilArray,
}

impl View for Reply {
    type V = ReplyModel;

    open spec fn view(&self) -> ReplyModel {
        match self {
            Reply::One(it) => ReplyModel::One(it@),
            Reply::Many(items) => ReplyModel::Many(items@.map_values(|it: ReplyItem| it@)),
            Reply::NilArray => ReplyModel::NilArray,
        }
    }
}

pub open spec fn crlf() -> Seq<u8> {
    seq![13u8, 10u8]
}

/// Decimal digits of a non-negative number, most significant first.
pub open spec fn dec_digits(n: nat) -> Seq<u8>
    decreases n,
{
    if n < 10 {
        seq![(48 + n) as u8]
    } else {
        dec_digits(n / 10) + seq![(48 + n % 10) as u8]
    }
}

/// Decimal rendering of an integer, `-`-signed when negative.
pub open spec fn dec_int(v: int) -> Seq<u8> {
    if v < 0 {
        seq![45u8] + dec_digits((-v) as nat)
    } else {
        dec_digits(v as nat)
    }
}

/// The `ERR ` prefix every error reply carries.
pub open spec fn err_prefix() -> Seq<u8> {
    seq![69u8, 82u8, 82u8, 32u8]
}

/// The wire encoding of one reply element.
pub open spec fn encode_item(it: ReplyItemModel) -> Seq<u8> {
    match it {
        ReplyItemModel::Simple(s) => seq![43u8] + s + crlf(),
        ReplyItemModel::ErrorMsg(m) => seq![45u8] + err_prefix() + m + crlf(),
        ReplyItemModel::Integer(v) => seq![58u8] + dec_int(v) + crlf(),
        ReplyItemModel::Bulk(d) => seq![36u8] + dec_digits(d.len()) + crlf() + d + crlf(),
        ReplyItemModel::Nil => seq![36u8, 45u8, 49u8, 13u8, 10u8],
    }
}

pub open spec fn encode_items(items: Seq<ReplyItemModel>) -> Seq<u8>
    decreases items.len(),
{
    if items.len() == 0 {
        Seq::empty()
    } else {
        encode_item(items[0]) + encode_items(items.skip(1))
    }
}

/// The wire encoding of one reply.
pub open spec fn encode_reply(r: ReplyModel) -> Seq<u8> {
    match r {
        ReplyModel::One(it) => encode_item(it),
        ReplyModel::Many(items) => seq![42u8] + dec_digits(items.len()) + crlf() + encode_items(
            items,
        ),
        ReplyModel::NilArray => seq![42u8, 45u8, 49u8, 13u8, 10u8],
    }
}

pub proof fn lemma_encode_items_push(items: Seq<ReplyItemModel>, it: ReplyItemModel)
    ensures
        encode_items(items.push(it)) == encode_items(items) + encode_item(it),
    decreases items.len(),
{
    if items.len() == 0 {
        assert(items.push(it).len() == 1);
        assert(items.push(it)[0] == it);
        assert(items.push(it).skip(1) =~= Seq::<ReplyItemModel>::empty());
        assert(encode_items(items.push(it)) == encode_item(it) + encode_items(
            Seq::<ReplyItemModel>::empty(),
        ));
        assert(encode_items(Seq::<ReplyItemModel>::empty()) == Seq::<u8>::empty());
        assert(encode_items(items) == Seq::<u8>::empty());
        assert(encode_item(it) + Seq::<u8>::empty() =~= encode_item(it));
        assert(Seq::<u8>::empty() + encode_item(it) =~= encode_item(it));
    } else {
        assert(items.push(it)[0] == items[0]);
        assert(items.push(it).skip(1) =~= items.skip(1).push(it));
        lemma_encode_items_push(items.skip(1), it);
        assert(encode_item(items[0]) + (encode_items(items.skip(1)) + encode_item(it)) =~= (
        encode_item(items[0]) + encode_items(items.skip(1))) + encode_item(it));
    }
}

fn push_bytes(out: &mut Vec<u8>, data: &Vec<u8>)
    ensures
        final(out)@ == old(out)@ + data@,
{
    let mut k: usize = 0;
    while k < data.len()
        invariant
            k <= data.len(),
            out@ == old(out)@ + data@.subrange(0, k as int),
        decreases data.len() - k,
    {
        out.push(data[k]);
        proof {
            assert(old(out)@ + data@.subrange(0, k as int + 1) =~= (old(out)@ + data@.subrange(
                0,
                k as int,
            )).push(data@[k as int]));
        }
        k = k + 1;
    }
    proof {
        assert(data@.subrange(0, data@.len() as int) =~= data@);
    }
}

fn push_crlf(out: &mut Vec<u8>)
    ensures
        final(out)@ == old(out)@ + crlf(),
{
    out.push(13);
    out.push(10);
    proof {
        assert(old(out)@.push(13u8).push(10u8) =~= old(out)@ + crlf());
    }
}

fn push_digits(out: &mut Vec<u8>, n: u64)
    ensures
        final(out)@ == old(out)@ + dec_digits(n as nat),
    decreases n,
{
    if n < 10 {
        out.push(48 + n as u8);
        proof {
            assert(old(out)@.push((48 + n as nat) as u8) =~= old(out)@ + dec_digits(n as nat));
        }
    } else {
        push_digits(out, n / 10);
        out.push(48 + (n % 10) as u8);
        proof {
            assert((old(out)@ + dec_digits((n / 10) as nat)).push((48 + (n as nat) % 10) as u8)
                =~= old(out)@ + (dec_digits((n / 10) as nat) + seq![(48 + (n as nat) % 10) as u8]));
        }
    }
}

fn push_int(out: &mut Vec<u8>, v: i64)
    ensures
        final(out)@ == old(out)@ + dec_int(v as int),
{
    if v < 0 {
        let m: u64 = if v == -9223372036854775808i64 {
            9223372036854775808u64
        } else {
            (-v) as u64
        };
        assert(m as nat == (-(v as int)) as nat);
        out.push(45);
        push_digits(out, m);
        proof {
            assert(old(out)@.push(45u8) + dec_digits(m as nat) =~= old(out)@ + (seq![45u8]
                + dec_digits(m as nat)));
        }
    } else {
        push_digits(out, v as u64);
    }
}

/// Appends the wire encoding of one reply element to `out`.
pub fn encode_item_into(out: &mut Vec<u8>, it: &ReplyItem)
    ensures
        final(out)@ == old(out)@ + encode_item(it@),
{
    match it {
        ReplyItem::Simple(s) => {
            out.push(43);
            push_bytes(out, s);
            push_crlf(out);
            proof {
                assert(((old(out)@.push(43u8)) + s@) + crlf() =~= old(out)@ + (seq![43u8] + s@
                    + crlf()));
            }
        },
        ReplyItem::ErrorMsg(m) => {
            out.push(45);
            out.push(69);
            out.push(82);
            out.push(82);
            out.push(32);
            push_bytes(out, m);
            push_crlf(out);
            proof {
                assert((old(out)@.push(45u8).push(69u8).push(82u8).push(82u8).push(32u8) + m@)
                    + crlf() =~= old(out)@ + (seq![45u8] + err_prefix() + m@ + crlf()));
            }
        },
        ReplyItem::Integer(n) => {
            out.push(58);
            push_int(out, *n);
            push_crlf(out);
            proof {
                assert((old(out)@.push(58u8) + dec_int(*n as int)) + crlf() =~= old(out)@ + (
                seq![58u8] + dec_int(*n as int) + crlf()));
            }
        },
        ReplyItem::Bulk(d) => {
            out.push(36);
            push_digits(out, d.len() as u64);
            push_crlf(out);
            push_bytes(out, d);
            push_crlf(out);
            proof {
                assert((((old(out)@.push(36u8) + dec_digits(d@.len())) + crlf()) + d@) + crlf()
                    =~= old(out)@ + (seq![36u8] + dec_digits(d@.len()) + crlf() + d@ + crlf()));
            }
        },
        ReplyItem::Nil => {
            out.push(36);
            out.push(45);
            out.push(49);
            out.push(13);
            out.push(10);
            proof {
                assert(old(out)@.push(36u8).push(45u8).push(49u8).push(13u8).push(10u8) =~= old(
                    out,
                )@ + encode_item(ReplyItemModel::Nil));
            }
        },
    }
}

/// Appends the wire encoding of one reply to `out`.
pub fn encode_reply_into(out: &mut Vec<u8>, r: &Reply)
    ensures
        final(out)@ == old(out)@ + encode_reply(r@),
{
    match r {
        Reply::One(it) => {
            encode_item_into(out, it);
        },
        Reply::Many(items) => {
            let ghost m = items@.map_values(|it: ReplyItem| it@);
            out.push(42);
            push_digits(out, items.len() as u64);
            push_crlf(out);
            let ghost header = seq![42u8] + dec_digits(m.len()) + crlf();
            proof {
                assert((old(out)@.push(42u8) + dec_digits(m.len())) + crlf() =~= old(out)@
                    + header);
                assert(m.take(0) =~= Seq::<ReplyItemModel>::empty());
            }
            let mut k: usize = 0;
            while k < items.len()
                invariant
                    k <= items.len(),
                    m == items@.map_values(|it: ReplyItem| it@),
                    header == seq![42u8] + dec_digits(m.len()) + crlf(),
                    out@ == old(out)@ + header + encode_items(m.take(k as int)),
                decreases items.len() - k,
            {
                let ghost pre = out@;
                proof {
                    assert(m[k as int] == items@[k as int]@);
                }
                encode_item_into(out, &items[k]);
                proof {
                    lemma_encode_items_push(m.take(k as int), m[k as int]);
                    assert(m.take(k as int + 1) =~= m.take(k as int).push(m[k as int]));
                    assert((old(out)@ + header + encode_items(m.take(k as int))) + encode_item(
                        m[k as int],
                    ) =~= old(out)@ + header + (encode_items(m.take(k as int)) + encode_item(
                        m[k as int],
                    )));
                }
                k = k + 1;
            }
            proof {
                assert(m.take(items@.len() as int) =~= m);
                assert(old(out)@ + header + encode_items(m) =~= old(out)@ + (header
                    + encode_items(m)));
                assert(header + encode_items(m) =~= encode_reply(r@));
            }
        },
        Reply::NilArray => {
            out.push(42);
            out.push(45);
            out.push(49);
            out.push(13);
            out.push(10);
            proof {
                assert(old(out)@.push(42u8).push(45u8).push(49u8).push(13u8).push(10u8) =~= old(
                    out,
                )@ + encode_reply(ReplyModel::NilArray));
            }
        },
    }
}

} // verus!
