//! Protocol frames: the decoded units of the wire protocol's value grammar.
//!
//! A client request is either a single scalar value or a flat array of
//! scalars (the request grammar of the protocol); `*-1` is the null array.

use vstd::prelude::*;

verus! {

/// One scalar protocol value, as decoded from the wire.
#[derive(PartialEq, Eq)]
pub enum Item {
    SimpleString(Vec<u8>),
    SimpleError(Vec<u8>),
    Integer(i64),
    BulkString(Vec<u8>),
    Null,
}

/// Mathematical model of an `Item`.
pub enum ItemModel {
    SimpleString(Seq<u8>),
    SimpleError(Seq<u8>),
    Integer(int),
    BulkString(Seq<u8>),
    Null,
}

impl View for Item {
    type V = ItemModel;

    open spec fn view(&self) -> ItemModel {
        match self {
            Item::SimpleString(s) => ItemModel::SimpleString(s@),
            Item::SimpleError(s) => ItemModel::SimpleError(s@),
            Item::Integer(n) => ItemModel::Integer(*n as int),
            Item::BulkString(s) => ItemModel::BulkString(s@),
            Item::Null => ItemModel::Null,
        }
    }
}

/// One complete decoded frame.
#[derive(PartialEq, Eq)]
pub enum Frame {
    Scalar(Item),
    Array(Vec<Item>),
    NullArray,
}

/// Mathematical model of a `Frame`.
pub enum FrameModel {
    Scalar(ItemModel),
    Array(Seq<ItemModel>),
    NullArray,
}

impl View for Frame {
    type V = FrameModel;

    open spec fn view(&self) -> FrameModel {
        match self {
            Frame::Scalar(it) => FrameModel::Scalar(it@),
            Frame::Array(items) => FrameModel::Array(items@.map_values(|it: Item| it@)),
            Frame::NullArray => FrameModel::NullArray,
        }
    }
}

/// True of the frame models that carry a byte string: the frames accepted
/// as a command name or as a command argument.
pub open spec fn is_string_like(it: ItemModel) -> bool {
    it is SimpleString || it is BulkString
}

/// The byte string carried by a string-like item.
pub open spec fn string_of(it: ItemModel) -> Seq<u8> {
    match it {
        ItemModel::SimpleString(s) => s,
        ItemModel::BulkString(s) => s,
        _ => Seq::empty(),
    }
}

/// An owned copy of a byte string.
pub fn copy_bytes(v: &Vec<u8>) -> (r: Vec<u8>)
    ensures
        r@ == v@,
{
    let r = v.clone();
    proof {
        assert forall|i: int| 0 <= i < v@.len() implies r@[i] == v@[i] by {
            assert(cloned::<u8>(v[i], r[i]));
        }
        assert(r@ =~= v@);
    }
    r
}

} // verus!
