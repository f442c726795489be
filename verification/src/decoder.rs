//! The incremental frame decoder: bytes are fed in arbitrary chunks and
//! complete frames are drained one at a time, exactly as the spec-level
//! grammar (`crate::grammar`) prescribes.

use vstd::prelude::*;
use crate::frame::{Item, Frame};
use crate::grammar::{
    CR, LF, MAX_DIGITS, parse_line, parse_item, parse_items, parse_frame, find_cr, dec_value,
    pow10, valid_unsigned, valid_int_line, int_line_value, all_digits, is_digit, LineStep,
    ItemStep, ItemsStep, FrameStep, prepend_items, lemma_prepend_items_empty,
    lemma_prepend_items_assoc, lemma_parse_items_step, lemma_pow10_mono,
};

verus! {

/// The buffered bytes cannot be a prefix of any frame; the connection that
/// produced them is past recovery.
pub struct ProtocolError;

enum LineOut {
    Partial,
    Malformed,
    Line(usize, usize),
}

enum ItemOut {
    Partial,
    Malformed,
    Done(Item, usize),
}

fn find_cr_exec(buf: &Vec<u8>, i: usize) -> (p: usize)
    requires
        i <= buf.len(),
    ensures
        p as int == find_cr(buf@, i as int),
        i <= p <= buf.len(),
{
    let mut k = i;
    while k < buf.len()
        invariant
            i <= k <= buf.len(),
            find_cr(buf@, i as int) == find_cr(buf@, k as int),
        decreases buf.len() - k,
    {
        if buf[k] == CR {
            return k;
        }
        k = k + 1;
    }
    k
}

fn parse_line_exec(buf: &Vec<u8>, i: usize) -> (r: LineOut)
    requires
        i <= buf.len(),
    ensures
        match r {
            LineOut::Partial => parse_line(buf@, i as int) is Partial,
            LineOut::Malformed => parse_line(buf@, i as int) is Malformed,
            LineOut::Line(p, j) => i <= p && p + 2 == j && j <= buf.len() && parse_line(
                buf@,
                i as int,
            ) == LineStep::Line(buf@.subrange(i as int, p as int), j as int),
        },
{
    let p = find_cr_exec(buf, i);
    if p >= buf.len() {
        return LineOut::Partial;
    }
    if p + 1 >= buf.len() {
        return LineOut::Partial;
    }
    if buf[p + 1] != LF {
        return LineOut::Malformed;
    }
    LineOut::Line(p, p + 2)
}

fn parse_digits_exec(buf: &Vec<u8>, lo: usize, hi: usize) -> (r: Option<u64>)
    requires
        lo <= hi <= buf.len(),
    ensures
        match r {
            Some(v) => valid_unsigned(buf@.subrange(lo as int, hi as int)) && v as int == dec_value(
                buf@.subrange(lo as int, hi as int),
            ) && v <= 999999999999999999u64,
            None => !valid_unsigned(buf@.subrange(lo as int, hi as int)),
        },
{
    let ghost sub = buf@.subrange(lo as int, hi as int);
    if hi == lo || hi - lo > MAX_DIGITS {
        return None;
    }
    let mut acc: u64 = 0;
    let mut k = lo;
    while k < hi
        invariant
            lo <= k <= hi <= buf.len(),
            hi - lo <= MAX_DIGITS,
            sub == buf@.subrange(lo as int, hi as int),
            all_digits(buf@.subrange(lo as int, k as int)),
            acc as int == dec_value(buf@.subrange(lo as int, k as int)),
            acc < pow10((k - lo) as nat),
        decreases hi - k,
    {
        let b = buf[k];
        if b < 48 || b > 57 {
            proof {
                assert(sub[k - lo] == buf@[k as int]);
                assert(!is_digit(sub[k - lo]));
            }
            return None;
        }
        let d = (b - 48) as u64;
        proof {
            let prev = buf@.subrange(lo as int, k as int);
            let next = buf@.subrange(lo as int, k as int + 1);
            assert(next.drop_last() =~= prev);
            assert(next.last() == buf@[k as int]);
            assert(all_digits(next));
            lemma_pow10_mono((k - lo + 1) as nat, MAX_DIGITS as nat);
            assert(pow10(18) == 1000000000000000000) by {
                reveal_with_fuel(pow10, 19);
            }
        }
        acc = acc * 10 + d;
        k = k + 1;
    }
    proof {
        assert(buf@.subrange(lo as int, k as int) == sub);
        lemma_pow10_mono((k - lo) as nat, MAX_DIGITS as nat);
        assert(pow10(18) == 1000000000000000000) by {
            reveal_with_fuel(pow10, 19);
        }
    }
    Some(acc)
}

fn parse_int_exec(buf: &Vec<u8>, lo: usize, hi: usize) -> (r: Option<i64>)
    requires
        lo <= hi <= buf.len(),
    ensures
        match r {
            Some(v) => valid_int_line(buf@.subrange(lo as int, hi as int)) && v as int
                == int_line_value(buf@.subrange(lo as int, hi as int)),
            None => !valid_int_line(buf@.subrange(lo as int, hi as int)),
        },
{
    let ghost sub = buf@.subrange(lo as int, hi as int);
    if lo < hi && buf[lo] == 45 {
        proof {
            assert(sub[0] == buf@[lo as int]);
            assert(sub.skip(1) =~= buf@.subrange(lo as int + 1, hi as int));
        }
        match parse_digits_exec(buf, lo + 1, hi) {
            Some(v) => Some(-(v as i64)),
            None => None,
        }
    } else {
        match parse_digits_exec(buf, lo, hi) {
            Some(v) => Some(v as i64),
            None => None,
        }
    }
}

fn copy_range(buf: &Vec<u8>, lo: usize, hi: usize) -> (v: Vec<u8>)
    requires
        lo <= hi <= buf.len(),
    ensures
        v@ == buf@.subrange(lo as int, hi as int),
{
    let mut v: Vec<u8> = Vec::new();
    let mut k = lo;
    while k < hi
        invariant
            lo <= k <= hi <= buf.len(),
            v@ == buf@.subrange(lo as int, k as int),
        decreases hi - k,
    {
        v.push(buf[k]);
        proof {
            assert(buf@.subrange(lo as int, k as int + 1) =~= buf@.subrange(
                lo as int,
                k as int,
            ).push(buf@[k as int]));
        }
        k = k + 1;
    }
    v
}

fn parse_item_exec(buf: &Vec<u8>, i: usize, limit: usize) -> (r: ItemOut)
    requires
        i <= buf.len(),
        limit < 0x8000_0000,
    ensures
        match r {
            ItemOut::Partial => parse_item(buf@, i as int, limit as nat) is Partial,
            ItemOut::Malformed => parse_item(buf@, i as int, limit as nat) is Malformed,
            ItemOut::Done(it, j) => i < j <= buf.len() && parse_item(buf@, i as int, limit as nat)
                == ItemStep::Done(it@, j as int),
        },
{
    if i >= buf.len() {
        return ItemOut::Partial;
    }
    let tag = buf[i];
    if tag == 43 {
        match parse_line_exec(buf, i + 1) {
            LineOut::Partial => ItemOut::Partial,
            LineOut::Malformed => ItemOut::Malformed,
            LineOut::Line(p, j) => ItemOut::Done(Item::SimpleString(copy_range(buf, i + 1, p)), j),
        }
    } else if tag == 45 {
        match parse_line_exec(buf, i + 1) {
            LineOut::Partial => ItemOut::Partial,
            LineOut::Malformed => ItemOut::Malformed,
            LineOut::Line(p, j) => ItemOut::Done(Item::SimpleError(copy_range(buf, i + 1, p)), j),
        }
    } else if tag == 58 {
        match parse_line_exec(buf, i + 1) {
            LineOut::Partial => ItemOut::Partial,
            LineOut::Malformed => ItemOut::Malformed,
            LineOut::Line(p, j) => match parse_int_exec(buf, i + 1, p) {
                Some(v) => ItemOut::Done(Item::Integer(v), j),
                None => ItemOut::Malformed,
            },
        }
    } else if tag == 36 {
        match parse_line_exec(buf, i + 1) {
            LineOut::Partial => ItemOut::Partial,
            LineOut::Malformed => ItemOut::Malformed,
            LineOut::Line(p, j) => match parse_int_exec(buf, i + 1, p) {
                None => ItemOut::Malformed,
                Some(n) => {
                    if n == -1 {
                        ItemOut::Done(Item::Null, j)
                    } else if n < 0 {
                        ItemOut::Malformed
                    } else if n > limit as i64 {
                        ItemOut::Malformed
                    } else {
                        let n = n as usize;
                        let rem = buf.len() - j;
                        if rem < 2 || rem - 2 < n {
                            ItemOut::Partial
                        } else if buf[j + n] != CR || buf[j + n + 1] != LF {
                            ItemOut::Malformed
                        } else {
                            ItemOut::Done(Item::BulkString(copy_range(buf, j, j + n)), j + n + 2)
                        }
                    }
                },
            },
        }
    } else {
        ItemOut::Malformed
    }
}

/// The incremental frame decoder. Its view is the byte sequence it buffers:
/// everything fed and not yet consumed by a decoded frame.
pub struct Decoder {
    buf: Vec<u8>,
    limit: usize,
}

impl View for Decoder {
    type V = Seq<u8>;

    closed spec fn view(&self) -> Seq<u8> {
        self.buf@
    }
}

impl Decoder {
    /// Ceiling on every declared bulk length and element count.
    pub closed spec fn limit(&self) -> nat {
        self.limit as nat
    }

    pub open spec fn wf(&self) -> bool {
        self.limit() < 0x8000_0000
    }

    pub fn new(limit: usize) -> (d: Decoder)
        requires
            limit < 0x8000_0000,
        ensures
            d@ == Seq::<u8>::empty(),
            d.limit() == limit as nat,
            d.wf(),
    {
        Decoder { buf: Vec::new(), limit }
    }

    /// Appends one chunk of raw bytes to the internal buffer.
    pub fn feed(&mut self, chunk: &[u8])
        ensures
            final(self)@ == old(self)@ + chunk@,
            final(self).limit() == old(self).limit(),
    {
        let mut k: usize = 0;
        while k < chunk.len()
            invariant
                k <= chunk.len(),
                self.buf@ == old(self).buf@ + chunk@.subrange(0, k as int),
                self.limit == old(self).limit,
            decreases chunk.len() - k,
        {
            self.buf.push(chunk[k]);
            proof {
                assert(old(self).buf@ + chunk@.subrange(0, k as int + 1) =~= (old(self).buf@
                    + chunk@.subrange(0, k as int)).push(chunk@[k as int]));
            }
            k = k + 1;
        }
        proof {
            assert(chunk@.subrange(0, chunk@.len() as int) =~= chunk@);
        }
    }

    fn consume(&mut self, j: usize)
        requires
            j <= old(self).buf.len(),
        ensures
            final(self).buf@ == old(self).buf@.skip(j as int),
            final(self).limit == old(self).limit,
    {
        let mut nb: Vec<u8> = Vec::new();
        let mut k = j;
        while k < self.buf.len()
            invariant
                j <= k <= self.buf.len(),
                self.buf@ == old(self).buf@,
                self.limit == old(self).limit,
                nb@ == self.buf@.subrange(j as int, k as int),
            decreases self.buf.len() - k,
        {
            let b = self.buf[k];
            nb.push(b);
            proof {
                assert(self.buf@.subrange(j as int, k as int + 1) =~= self.buf@.subrange(
                    j as int,
                    k as int,
                ).push(self.buf@[k as int]));
            }
            k = k + 1;
        }
        proof {
            assert(nb@ =~= self.buf@.skip(j as int));
        }
        self.buf = nb;
    }

    /// Decodes one complete frame from the front of the buffer, if one is
    /// there, consuming exactly its bytes; reports an incomplete prefix as
    /// `Ok(None)` and malformed bytes as an error, both leaving the buffer
    /// unchanged.
    pub fn next(&mut self) -> (r: Result<Option<Frame>, ProtocolError>)
        requires
            old(self).wf(),
        ensures
            final(self).limit() == old(self).limit(),
            match r {
                Ok(Some(f)) => {
                    let j = old(self)@.len() - final(self)@.len();
                    &&& parse_frame(old(self)@, 0, old(self).limit()) == FrameStep::Done(f@, j)
                    &&& final(self)@ == old(self)@.skip(j)
                    &&& 0 < j <= old(self)@.len()
                },
                Ok(None) => final(self)@ == old(self)@ && parse_frame(
                    old(self)@,
                    0,
                    old(self).limit(),
                ) is Partial,
                Err(e) => final(self)@ == old(self)@ && parse_frame(
                    old(self)@,
                    0,
                    old(self).limit(),
                ) is Malformed,
            },
    {
        let ghost s = self.buf@;
        let ghost lim = self.limit as nat;
        if self.buf.len() == 0 {
            return Ok(None);
        }
        let tag = self.buf[0];
        if tag == 42 {
            match parse_line_exec(&self.buf, 1) {
                LineOut::Partial => Ok(None),
                LineOut::Malformed => Err(ProtocolError),
                LineOut::Line(p, j0) => {
                    match parse_int_exec(&self.buf, 1, p) {
                        None => Err(ProtocolError),
                        Some(n) => {
                            if n == -1 {
                                self.consume(j0);
                                proof {
                                    assert(s.skip(j0 as int).len() == s.len() - j0);
                                }
                                Ok(Some(Frame::NullArray))
                            } else if n < 0 || n > self.limit as i64 {
                                Err(ProtocolError)
                            } else {
                                let count = n as usize;
                                let mut items: Vec<Item> = Vec::new();
                                let mut pos = j0;
                                let mut k: usize = 0;
                                proof {
                                    lemma_prepend_items_empty(
                                        parse_items(s, j0 as int, count as nat, lim),
                                    );
                                    assert(items@.map_values(|it: Item| it@)
                                        =~= Seq::<crate::frame::ItemModel>::empty());
                                }
                                while k < count
                                    invariant
                                        k <= count,
                                        0 < pos <= self.buf.len(),
                                        self.buf@ == s,
                                        self.limit as nat == lim,
                                        self.limit < 0x8000_0000,
                                        prepend_items(
                                            items@.map_values(|it: Item| it@),
                                            parse_items(s, pos as int, (count - k) as nat, lim),
                                        ) == parse_items(s, j0 as int, count as nat, lim),
                                        parse_frame(s, 0, lim) == (match parse_items(
                                            s,
                                            j0 as int,
                                            count as nat,
                                            lim,
                                        ) {
                                            ItemsStep::Partial => FrameStep::Partial,
                                            ItemsStep::Malformed => FrameStep::Malformed,
                                            ItemsStep::Done(its, end) => FrameStep::Done(
                                                crate::frame::FrameModel::Array(its),
                                                end,
                                            ),
                                        }),
                                    decreases count - k,
                                {
                                    let ghost pre = items@.map_values(|it: Item| it@);
                                    match parse_item_exec(&self.buf, pos, self.limit) {
                                        ItemOut::Partial => {
                                            return Ok(None);
                                        },
                                        ItemOut::Malformed => {
                                            return Err(ProtocolError);
                                        },
                                        ItemOut::Done(it, p2) => {
                                            proof {
                                                lemma_parse_items_step(
                                                    s,
                                                    pos as int,
                                                    (count - k) as nat,
                                                    lim,
                                                    it@,
                                                    p2 as int,
                                                );
                                                lemma_prepend_items_assoc(
                                                    pre,
                                                    it@,
                                                    parse_items(
                                                        s,
                                                        p2 as int,
                                                        (count - k - 1) as nat,
                                                        lim,
                                                    ),
                                                );
                                            }
                                            items.push(it);
                                            proof {
                                                assert(items@.map_values(|x: Item| x@) =~= pre.push(
                                                    it@,
                                                ));
                                            }
                                            pos = p2;
                                            k = k + 1;
                                        },
                                    }
                                }
                                proof {
                                    let fin = parse_items(s, pos as int, 0, lim);
                                    assert(fin == ItemsStep::Done(Seq::<crate::frame::ItemModel>::empty(), pos as int));
                                    assert(items@.map_values(|it: Item| it@) + Seq::<crate::frame::ItemModel>::empty()
                                        =~= items@.map_values(|it: Item| it@));
                                }
                                let f = Frame::Array(items);
                                self.consume(pos);
                                proof {
                                    assert(s.skip(pos as int).len() == s.len() - pos);
                                }
                                Ok(Some(f))
                            }
                        },
                    }
                },
            }
        } else {
            match parse_item_exec(&self.buf, 0, self.limit) {
                ItemOut::Partial => Ok(None),
                ItemOut::Malformed => Err(ProtocolError),
                ItemOut::Done(it, j) => {
                    let f = Frame::Scalar(it);
                    self.consume(j);
                    proof {
                        assert(s.skip(j as int).len() == s.len() - j);
                    }
                    Ok(Some(f))
                },
            }
        }
    }
}

} // verus!
