//! The wire grammar, as specification functions: what one complete frame is,
//! as a function of the raw byte stream.
//!
//! `parse_frame(s, i, limit)` decides, for the bytes of `s` from position
//! `i` on, whether they hold a complete frame, a well-formed but incomplete
//! prefix of one, or bytes that no frame can start with. `limit` bounds every
//! declared length and element count.

use vstd::prelude::*;
use crate::frame::{ItemModel, FrameModel};

verus! {

pub const CR: u8 = 13;

pub const LF: u8 = 10;

/// Largest number of decimal digits accepted in a length or integer line.
pub const MAX_DIGITS: usize = 18;

/// Outcome of scanning for one CRLF-terminated line.
pub enum LineStep {
    Partial,
    Malformed,
    Line(Seq<u8>, int),
}

/// Outcome of parsing one scalar item.
pub enum ItemStep {
    Partial,
    Malformed,
    Done(ItemModel, int),
}

/// Outcome of parsing a run of scalar items.
pub enum ItemsStep {
    Partial,
    Malformed,
    Done(Seq<ItemModel>, int),
}

/// Outcome of parsing one frame.
pub enum FrameStep {
    Partial,
    Malformed,
    Done(FrameModel, int),
}

/// Position of the first carriage return at or after `i`, or `s.len()`.
pub open spec fn find_cr(s: Seq<u8>, i: int) -> int
    decreases s.len() - i when 0 <= i <= s.len()
{
    if i >= s.len() {
        s.len() as int
    } else if s[i] == CR {
        i
    } else {
        find_cr(s, i + 1)
    }
}

/// One CRLF-terminated line starting at `i`: its content and the position
/// just after the terminator.
pub open spec fn parse_line(s: Seq<u8>, i: int) -> LineStep {
    let p = find_cr(s, i);
    if p >= s.len() {
        LineStep::Partial
    } else if p + 1 >= s.len() {
        LineStep::Partial
    } else if s[p + 1] != LF {
        LineStep::Malformed
    } else {
        LineStep::Line(s.subrange(i, p), p + 2)
    }
}

pub open spec fn is_digit(b: u8) -> bool {
    48 <= b && b <= 57
}

pub open spec fn all_digits(s: Seq<u8>) -> bool {
    forall|j: int| 0 <= j < s.len() ==> is_digit(s[j])
}

/// Value of a string of decimal digits.
pub open spec fn dec_value(s: Seq<u8>) -> int
    decreases s.len()
{
    if s.len() == 0 {
        0
    } else {
        dec_value(s.drop_last()) * 10 + (s.last() - 48)
    }
}

pub open spec fn pow10(n: nat) -> int
    decreases n
{
    if n == 0 {
        1
    } else {
        10 * pow10((n - 1) as nat)
    }
}

/// A non-empty digit string of bounded width.
pub open spec fn valid_unsigned(s: Seq<u8>) -> bool {
    1 <= s.len() && s.len() <= MAX_DIGITS && all_digits(s)
}

/// An optionally `-`-signed digit string of bounded width.
pub open spec fn valid_int_line(s: Seq<u8>) -> bool {
    if s.len() > 0 && s[0] == 45 {
        valid_unsigned(s.skip(1))
    } else {
        valid_unsigned(s)
    }
}

pub open spec fn int_line_value(s: Seq<u8>) -> int {
    if s.len() > 0 && s[0] == 45 {
        -dec_value(s.skip(1))
    } else {
        dec_value(s)
    }
}

/// One scalar item starting at `i`. An aggregate tag here is malformed: the
/// request grammar nests no aggregate inside another.
pub open spec fn parse_item(s: Seq<u8>, i: int, limit: nat) -> ItemStep {
    if i >= s.len() {
        ItemStep::Partial
    } else if s[i] == 43 {  // '+'
        match parse_line(s, i + 1) {
            LineStep::Partial => ItemStep::Partial,
            LineStep::Malformed => ItemStep::Malformed,
            LineStep::Line(l, j) => ItemStep::Done(ItemModel::SimpleString(l), j),
        }
    } else if s[i] == 45 {  // '-'
        match parse_line(s, i + 1) {
            LineStep::Partial => ItemStep::Partial,
            LineStep::Malformed => ItemStep::Malformed,
            LineStep::Line(l, j) => ItemStep::Done(ItemModel::SimpleError(l), j),
        }
    } else if s[i] == 58 {  // ':'
        match parse_line(s, i + 1) {
            LineStep::Partial => ItemStep::Partial,
            LineStep::Malformed => ItemStep::Malformed,
            LineStep::Line(l, j) => if valid_int_line(l) {
                ItemStep::Done(ItemModel::Integer(int_line_value(l)), j)
            } else {
                ItemStep::Malformed
            },
        }
    } else if s[i] == 36 {  // '$'
        match parse_line(s, i + 1) {
            LineStep::Partial => ItemStep::Partial,
            LineStep::Malformed => ItemStep::Malformed,
            LineStep::Line(l, j) => if !valid_int_line(l) {
                ItemStep::Malformed
            } else {
                let n = int_line_value(l);
                if n == -1 {
                    ItemStep::Done(ItemModel::Null, j)
                } else if n < 0 {
                    ItemStep::Malformed
                } else if n > limit {
                    ItemStep::Malformed
                } else if j + n + 2 > s.len() {
                    ItemStep::Partial
                } else if s[j + n] != CR || s[j + n + 1] != LF {
                    ItemStep::Malformed
                } else {
                    ItemStep::Done(ItemModel::BulkString(s.subrange(j, j + n)), j + n + 2)
                }
            },
        }
    } else {
        ItemStep::Malformed
    }
}

/// `n` consecutive scalar items starting at `i`.
pub open spec fn parse_items(s: Seq<u8>, i: int, n: nat, limit: nat) -> ItemsStep
    decreases n
{
    if n == 0 {
        ItemsStep::Done(Seq::empty(), i)
    } else {
        match parse_item(s, i, limit) {
            ItemStep::Partial => ItemsStep::Partial,
            ItemStep::Malformed => ItemsStep::Malformed,
            ItemStep::Done(it, j) => match parse_items(s, j, (n - 1) as nat, limit) {
                ItemsStep::Partial => ItemsStep::Partial,
                ItemsStep::Malformed => ItemsStep::Malformed,
                ItemsStep::Done(rest, k) => ItemsStep::Done(seq![it] + rest, k),
            },
        }
    }
}

/// One frame starting at `i`: an array of scalars, or a single scalar.
pub open spec fn parse_frame(s: Seq<u8>, i: int, limit: nat) -> FrameStep {
    if i >= s.len() {
        FrameStep::Partial
    } else if s[i] == 42 {  // '*'
        match parse_line(s, i + 1) {
            LineStep::Partial => FrameStep::Partial,
            LineStep::Malformed => FrameStep::Malformed,
            LineStep::Line(l, j) => if !valid_int_line(l) {
                FrameStep::Malformed
            } else {
                let n = int_line_value(l);
                if n == -1 {
                    FrameStep::Done(FrameModel::NullArray, j)
                } else if n < 0 {
                    FrameStep::Malformed
                } else if n > limit {
                    FrameStep::Malformed
                } else {
                    match parse_items(s, j, n as nat, limit) {
                        ItemsStep::Partial => FrameStep::Partial,
                        ItemsStep::Malformed => FrameStep::Malformed,
                        ItemsStep::Done(items, k) => FrameStep::Done(FrameModel::Array(items), k),
                    }
                }
            },
        }
    } else {
        match parse_item(s, i, limit) {
            ItemStep::Partial => FrameStep::Partial,
            ItemStep::Malformed => FrameStep::Malformed,
            ItemStep::Done(it, j) => FrameStep::Done(FrameModel::Scalar(it), j),
        }
    }
}

/// Prefixes the item list of a parse outcome; incompleteness and
/// malformedness absorb the prefix.
pub open spec fn prepend_items(pre: Seq<ItemModel>, st: ItemsStep) -> ItemsStep {
    match st {
        ItemsStep::Partial => ItemsStep::Partial,
        ItemsStep::Malformed => ItemsStep::Malformed,
        ItemsStep::Done(rest, k) => ItemsStep::Done(pre + rest, k),
    }
}

pub proof fn lemma_prepend_items_empty(st: ItemsStep)
    ensures
        prepend_items(Seq::empty(), st) == st,
{
    match st {
        ItemsStep::Done(rest, k) => {
            assert(Seq::<ItemModel>::empty() + rest =~= rest);
        },
        _ => {},
    }
}

pub proof fn lemma_prepend_items_assoc(pre: Seq<ItemModel>, it: ItemModel, st: ItemsStep)
    ensures
        prepend_items(pre.push(it), st) == prepend_items(pre, prepend_items(seq![it], st)),
{
    match st {
        ItemsStep::Done(rest, k) => {
            assert(pre.push(it) + rest =~= pre + (seq![it] + rest));
        },
        _ => {},
    }
}

pub proof fn lemma_parse_items_step(s: Seq<u8>, i: int, n: nat, limit: nat, it: ItemModel, j: int)
    requires
        n > 0,
        parse_item(s, i, limit) == ItemStep::Done(it, j),
    ensures
        parse_items(s, i, n, limit) == prepend_items(
            seq![it],
            parse_items(s, j, (n - 1) as nat, limit),
        ),
{
    match parse_items(s, j, (n - 1) as nat, limit) {
        ItemsStep::Done(rest, k) => {},
        _ => {},
    }
}

pub proof fn lemma_pow10_pos(n: nat)
    ensures
        pow10(n) >= 1,
    decreases n,
{
    if n > 0 {
        lemma_pow10_pos((n - 1) as nat);
    }
}

pub proof fn lemma_pow10_mono(a: nat, b: nat)
    requires
        a <= b,
    ensures
        pow10(a) <= pow10(b),
    decreases b,
{
    lemma_pow10_pos(a);
    if a < b {
        lemma_pow10_mono(a, (b - 1) as nat);
        lemma_pow10_pos((b - 1) as nat);
    }
}

pub proof fn lemma_find_cr_props(s: Seq<u8>, i: int)
    requires
        0 <= i <= s.len(),
    ensures
        i <= find_cr(s, i) <= s.len(),
        find_cr(s, i) < s.len() ==> s[find_cr(s, i)] == CR,
        forall|j: int| i <= j < find_cr(s, i) ==> s[j] != CR,
    decreases s.len() - i,
{
    if i < s.len() && s[i] != CR {
        lemma_find_cr_props(s, i + 1);
    }
}

pub proof fn lemma_parse_line_bounds(s: Seq<u8>, i: int)
    requires
        0 <= i <= s.len(),
    ensures
        parse_line(s, i) matches LineStep::Line(l, j) ==> i + 2 <= j <= s.len() && l
            == s.subrange(i, j - 2),
{
    lemma_find_cr_props(s, i);
}

pub proof fn lemma_parse_item_bounds(s: Seq<u8>, i: int, limit: nat)
    requires
        0 <= i <= s.len(),
    ensures
        parse_item(s, i, limit) matches ItemStep::Done(it, j) ==> i < j <= s.len(),
{
    if i < s.len() {
        lemma_parse_line_bounds(s, i + 1);
    }
}

pub proof fn lemma_parse_items_bounds(s: Seq<u8>, i: int, n: nat, limit: nat)
    requires
        0 <= i <= s.len(),
    ensures
        parse_items(s, i, n, limit) matches ItemsStep::Done(items, k) ==> i <= k <= s.len()
            && items.len() == n,
    decreases n,
{
    if n > 0 {
        lemma_parse_item_bounds(s, i, limit);
        match parse_item(s, i, limit) {
            ItemStep::Done(it, j) => {
                lemma_parse_items_bounds(s, j, (n - 1) as nat, limit);
            },
            _ => {},
        }
    }
}

pub proof fn lemma_parse_frame_bounds(s: Seq<u8>, i: int, limit: nat)
    requires
        0 <= i <= s.len(),
    ensures
        parse_frame(s, i, limit) matches FrameStep::Done(f, j) ==> i < j <= s.len(),
{
    if i < s.len() {
        lemma_parse_line_bounds(s, i + 1);
        lemma_parse_item_bounds(s, i, limit);
        if s[i] == 42 {
            match parse_line(s, i + 1) {
                LineStep::Line(l, j) => {
                    if valid_int_line(l) && int_line_value(l) >= 0 && int_line_value(l) <= limit {
                        lemma_parse_items_bounds(s, j, int_line_value(l) as nat, limit);
                    }
                },
                _ => {},
            }
        }
    }
}

pub proof fn lemma_find_cr_extend(s: Seq<u8>, t: Seq<u8>, i: int)
    requires
        0 <= i <= s.len(),
    ensures
        find_cr(s, i) < s.len() ==> find_cr(s + t, i) == find_cr(s, i),
        find_cr(s, i) >= s.len() ==> find_cr(s + t, i) >= s.len(),
    decreases s.len() - i,
{
    lemma_find_cr_props(s + t, i);
    if i < s.len() && s[i] != CR {
        lemma_find_cr_extend(s, t, i + 1);
    }
}

pub proof fn lemma_parse_line_extend(s: Seq<u8>, t: Seq<u8>, i: int)
    requires
        0 <= i <= s.len(),
        !(parse_line(s, i) is Partial),
    ensures
        parse_line(s + t, i) == parse_line(s, i),
{
    lemma_find_cr_props(s, i);
    lemma_find_cr_extend(s, t, i);
    let p = find_cr(s, i);
    if p + 1 < s.len() && s[p + 1] == LF {
        assert((s + t).subrange(i, p) =~= s.subrange(i, p));
    }
}

pub proof fn lemma_parse_item_extend(s: Seq<u8>, t: Seq<u8>, i: int, limit: nat)
    requires
        0 <= i <= s.len(),
        !(parse_item(s, i, limit) is Partial),
    ensures
        parse_item(s + t, i, limit) == parse_item(s, i, limit),
{
    lemma_parse_line_bounds(s, i + 1);
    if !(parse_line(s, i + 1) is Partial) {
        lemma_parse_line_extend(s, t, i + 1);
    }
    if s[i] == 36 {
        match parse_line(s, i + 1) {
            LineStep::Line(l, j) => {
                if valid_int_line(l) {
                    let n = int_line_value(l);
                    if 0 <= n && n <= limit && j + n + 2 <= s.len() {
                        assert((s + t).subrange(j, j + n) =~= s.subrange(j, j + n));
                    }
                }
            },
            _ => {},
        }
    }
}

pub proof fn lemma_parse_items_extend(s: Seq<u8>, t: Seq<u8>, i: int, n: nat, limit: nat)
    requires
        0 <= i <= s.len(),
        !(parse_items(s, i, n, limit) is Partial),
    ensures
        parse_items(s + t, i, n, limit) == parse_items(s, i, n, limit),
    decreases n,
{
    if n > 0 {
        lemma_parse_item_extend(s, t, i, limit);
        lemma_parse_item_bounds(s, i, limit);
        match parse_item(s, i, limit) {
            ItemStep::Done(it, j) => {
                lemma_parse_items_extend(s, t, j, (n - 1) as nat, limit);
            },
            _ => {},
        }
    }
}

pub proof fn lemma_parse_frame_extend(s: Seq<u8>, t: Seq<u8>, i: int, limit: nat)
    requires
        0 <= i <= s.len(),
        !(parse_frame(s, i, limit) is Partial),
    ensures
        parse_frame(s + t, i, limit) == parse_frame(s, i, limit),
{
    lemma_parse_line_bounds(s, i + 1);
    if s[i] == 42 {
        if !(parse_line(s, i + 1) is Partial) {
            lemma_parse_line_extend(s, t, i + 1);
        }
        match parse_line(s, i + 1) {
            LineStep::Line(l, j) => {
                if valid_int_line(l) {
                    let n = int_line_value(l);
                    if 0 <= n && n <= limit {
                        lemma_parse_items_extend(s, t, j, n as nat, limit);
                    }
                }
            },
            _ => {},
        }
    } else {
        lemma_parse_item_extend(s, t, i, limit);
    }
}

} // verus!
