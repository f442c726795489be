//! Splitting of delimiter-joined compound values: multi-valued results cross
//! the execution bridge as one delimited byte string and are re-encoded as a
//! protocol array.

use vstd::prelude::*;

verus! {

/// Splits `s` from position `i` on at every occurrence of `b`, with `cur`
/// the segment accumulated so far; a trailing delimiter yields a trailing
/// empty segment, and an empty input yields one empty segment.
pub open spec fn split_acc(s: Seq<u8>, b: u8, i: int, cur: Seq<u8>) -> Seq<Seq<u8>>
    decreases s.len() - i when 0 <= i <= s.len()
{
    if i >= s.len() {
        seq![cur]
    } else if s[i] == b {
        seq![cur] + split_acc(s, b, i + 1, Seq::empty())
    } else {
        split_acc(s, b, i + 1, cur.push(s[i]))
    }
}

/// The segments of `s` between occurrences of the delimiter `b`.
pub open spec fn split_bytes(s: Seq<u8>, b: u8) -> Seq<Seq<u8>> {
    split_acc(s, b, 0, Seq::empty())
}

pub open spec fn flatten_segs(xs: Seq<Seq<Seq<u8>>>) -> Seq<Seq<u8>>
    decreases xs.len(),
{
    if xs.len() == 0 {
        Seq::empty()
    } else {
        xs[0] + flatten_segs(xs.skip(1))
    }
}

/// Splits on `outer`, then splits every segment on `inner`, flattened: the
/// expansion of `field:value` pairs joined by commas into one flat list.
pub open spec fn split_pairs(s: Seq<u8>, outer: u8, inner: u8) -> Seq<Seq<u8>> {
    flatten_segs(split_bytes(s, outer).map_values(|seg: Seq<u8>| split_bytes(seg, inner)))
}

pub proof fn lemma_flatten_segs_push(xs: Seq<Seq<Seq<u8>>>, x: Seq<Seq<u8>>)
    ensures
        flatten_segs(xs.push(x)) == flatten_segs(xs) + x,
    decreases xs.len(),
{
    if xs.len() == 0 {
        assert(xs.push(x).len() == 1);
        assert(xs.push(x)[0] == x);
        assert(xs.push(x).skip(1) =~= Seq::<Seq<Seq<u8>>>::empty());
        assert(flatten_segs(Seq::<Seq<Seq<u8>>>::empty()) == Seq::<Seq<u8>>::empty());
        assert(x + Seq::<Seq<u8>>::empty() =~= x);
        assert(Seq::<Seq<u8>>::empty() + x =~= x);
    } else {
        assert(xs.push(x)[0] == xs[0]);
        assert(xs.push(x).skip(1) =~= xs.skip(1).push(x));
        lemma_flatten_segs_push(xs.skip(1), x);
        assert(xs[0] + (flatten_segs(xs.skip(1)) + x) =~= (xs[0] + flatten_segs(xs.skip(1)))
            + x);
    }
}

/// Splits a byte string at every occurrence of the delimiter.
pub fn split_bytes_exec(data: &Vec<u8>, b: u8) -> (r: Vec<Vec<u8>>)
    ensures
        r@.map_values(|v: Vec<u8>| v@) == split_bytes(data@, b),
{
    let mut segs: Vec<Vec<u8>> = Vec::new();
    let mut cur: Vec<u8> = Vec::new();
    let mut i: usize = 0;
    proof {
        assert(segs@.map_values(|v: Vec<u8>| v@) =~= Seq::<Seq<u8>>::empty());
        assert(cur@ =~= Seq::<u8>::empty());
        assert(Seq::<Seq<u8>>::empty() + split_acc(data@, b, 0, cur@) =~= split_acc(
            data@,
            b,
            0,
            Seq::empty(),
        ));
    }
    while i < data.len()
        invariant
            i <= data.len(),
            segs@.map_values(|v: Vec<u8>| v@) + split_acc(data@, b, i as int, cur@) == split_bytes(
                data@,
                b,
            ),
        decreases data.len() - i,
    {
        let ghost pre = segs@.map_values(|v: Vec<u8>| v@);
        let ghost curv = cur@;
        let c = data[i];
        if c == b {
            segs.push(cur);
            cur = Vec::new();
            proof {
                assert(segs@.map_values(|v: Vec<u8>| v@) =~= pre.push(curv));
                assert(cur@ =~= Seq::<u8>::empty());
                assert(split_acc(data@, b, i as int, curv) == seq![curv] + split_acc(
                    data@,
                    b,
                    i as int + 1,
                    cur@,
                ));
                assert(pre + (seq![curv] + split_acc(data@, b, i as int + 1, cur@)) =~= pre.push(
                    curv,
                ) + split_acc(data@, b, i as int + 1, cur@));
            }
        } else {
            cur.push(c);
        }
        i = i + 1;
    }
    let ghost pre = segs@.map_values(|v: Vec<u8>| v@);
    let ghost curv = cur@;
    segs.push(cur);
    proof {
        assert(split_acc(data@, b, data@.len() as int, curv) == seq![curv]);
        assert(segs@.map_values(|v: Vec<u8>| v@) =~= pre.push(curv));
        assert(pre + seq![curv] =~= pre.push(curv));
    }
    segs
}

/// Splits on the outer delimiter, then splits every segment on the inner
/// one, flattened into one list.
#[verifier::loop_isolation(false)]
pub fn split_pairs_exec(data: &Vec<u8>, outer: u8, inner: u8) -> (r: Vec<Vec<u8>>)
    ensures
        r@.map_values(|v: Vec<u8>| v@) == split_pairs(data@, outer, inner),
{
    let segs = split_bytes_exec(data, outer);
    let ghost mapped = split_bytes(data@, outer).map_values(
        |seg: Seq<u8>| split_bytes(seg, inner),
    );
    let mut out: Vec<Vec<u8>> = Vec::new();
    let mut k: usize = 0;
    proof {
        assert(mapped.take(0) =~= Seq::<Seq<Seq<u8>>>::empty());
        assert(out@.map_values(|v: Vec<u8>| v@) =~= flatten_segs(mapped.take(0)));
    }
    while k < segs.len()
        invariant
            k <= segs.len(),
            out@.map_values(|v: Vec<u8>| v@) == flatten_segs(mapped.take(k as int)),
        decreases segs.len() - k,
    {
        proof {
            assert(segs@[k as int]@ == segs@.map_values(|v: Vec<u8>| v@)[k as int]);
            assert(mapped[k as int] == split_bytes(segs@[k as int]@, inner));
        }
        let parts = split_bytes_exec(&segs[k], inner);
        let mut j: usize = 0;
        proof {
            assert(flatten_segs(mapped.take(k as int)) + parts@.map_values(|v: Vec<u8>| v@).take(0)
                =~= flatten_segs(mapped.take(k as int)));
        }
        while j < parts.len()
            invariant
                j <= parts.len(),
                parts@.map_values(|v: Vec<u8>| v@) == mapped[k as int],
                out@.map_values(|v: Vec<u8>| v@) == flatten_segs(mapped.take(k as int))
                    + mapped[k as int].take(j as int),
            decreases parts.len() - j,
        {
            let ghost pre = out@.map_values(|v: Vec<u8>| v@);
            proof {
                assert(parts@[j as int]@ == parts@.map_values(|v: Vec<u8>| v@)[j as int]);
            }
            out.push(crate::frame::copy_bytes(&parts[j]));
            proof {
                assert(out@.map_values(|v: Vec<u8>| v@) =~= pre.push(mapped[k as int][j as int]));
                assert(mapped[k as int].take(j as int + 1) =~= mapped[k as int].take(
                    j as int,
                ).push(mapped[k as int][j as int]));
                assert(pre.push(mapped[k as int][j as int]) =~= flatten_segs(mapped.take(k as int))
                    + mapped[k as int].take(j as int + 1));
            }
            j = j + 1;
        }
        proof {
            assert(mapped[k as int].take(mapped[k as int].len() as int) =~= mapped[k as int]);
            lemma_flatten_segs_push(mapped.take(k as int), mapped[k as int]);
            assert(mapped.take(k as int + 1) =~= mapped.take(k as int).push(mapped[k as int]));
        }
        k = k + 1;
    }
    proof {
        assert(mapped.take(segs@.len() as int) =~= mapped);
    }
    out
}

} // verus!
