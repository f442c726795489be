//! The stream-level model of decoding: the frames a byte stream yields when
//! it is drained greedily, and the proof that the result does not depend on
//! how the stream was split into chunks.

use vstd::prelude::*;
use crate::frame::FrameModel;
use crate::grammar::{parse_frame, FrameStep, lemma_parse_frame_bounds, lemma_parse_frame_extend};

verus! {

/// All complete frames at the front of `s`, drained greedily; draining stops
/// at an incomplete prefix or at malformed bytes.
pub open spec fn frames_of(s: Seq<u8>, limit: nat) -> Seq<FrameModel>
    decreases s.len(),
{
    match parse_frame(s, 0, limit) {
        FrameStep::Done(f, j) => if 0 < j <= s.len() {
            seq![f] + frames_of(s.skip(j), limit)
        } else {
            seq![f]
        },
        _ => Seq::empty(),
    }
}

/// The bytes left after draining every complete frame from the front of `s`.
pub open spec fn leftover(s: Seq<u8>, limit: nat) -> Seq<u8>
    decreases s.len(),
{
    match parse_frame(s, 0, limit) {
        FrameStep::Done(f, j) => if 0 < j <= s.len() {
            leftover(s.skip(j), limit)
        } else {
            s
        },
        _ => s,
    }
}

/// The concatenation of a sequence of chunks.
pub open spec fn flatten_chunks(chunks: Seq<Seq<u8>>) -> Seq<u8>
    decreases chunks.len(),
{
    if chunks.len() == 0 {
        Seq::empty()
    } else {
        chunks[0] + flatten_chunks(chunks.skip(1))
    }
}

/// The frames obtained by feeding `chunks` one at a time into a decoder that
/// already buffers `pending`, draining every complete frame after each feed.
pub open spec fn fed_frames(pending: Seq<u8>, chunks: Seq<Seq<u8>>, limit: nat) -> Seq<FrameModel>
    decreases chunks.len(),
{
    if chunks.len() == 0 {
        Seq::empty()
    } else {
        let b = pending + chunks[0];
        frames_of(b, limit) + fed_frames(leftover(b, limit), chunks.skip(1), limit)
    }
}

/// How one decoded frame relates the stream model across a successful
/// `Decoder::next`: the drained frames of the buffer before the call are
/// that frame followed by the drained frames of the buffer after it.
pub proof fn lemma_frames_of_unfold(s: Seq<u8>, f: FrameModel, j: int, limit: nat)
    requires
        parse_frame(s, 0, limit) == FrameStep::Done(f, j),
        0 < j <= s.len(),
    ensures
        frames_of(s, limit) == seq![f] + frames_of(s.skip(j), limit),
        leftover(s, limit) == leftover(s.skip(j), limit),
{
}

/// No complete frame remains at the front of a drained buffer.
pub proof fn lemma_leftover_no_frame(s: Seq<u8>, limit: nat)
    ensures
        !(parse_frame(leftover(s, limit), 0, limit) is Done),
    decreases s.len(),
{
    lemma_parse_frame_bounds(s, 0, limit);
    match parse_frame(s, 0, limit) {
        FrameStep::Done(f, j) => {
            lemma_leftover_no_frame(s.skip(j), limit);
        },
        _ => {},
    }
}

/// Draining a stream in two feeds yields the same frames and the same final
/// remainder as draining its concatenation at once.
pub proof fn lemma_split_feed(s: Seq<u8>, t: Seq<u8>, limit: nat)
    ensures
        frames_of(s + t, limit) == frames_of(s, limit) + frames_of(leftover(s, limit) + t, limit),
        leftover(s + t, limit) == leftover(leftover(s, limit) + t, limit),
    decreases s.len(),
{
    lemma_parse_frame_bounds(s, 0, limit);
    match parse_frame(s, 0, limit) {
        FrameStep::Done(f, j) => {
            lemma_parse_frame_extend(s, t, 0, limit);
            assert((s + t).skip(j) =~= s.skip(j) + t);
            lemma_split_feed(s.skip(j), t, limit);
            assert(seq![f] + (frames_of(s.skip(j), limit) + frames_of(
                leftover(s.skip(j), limit) + t,
                limit,
            )) =~= (seq![f] + frames_of(s.skip(j), limit)) + frames_of(
                leftover(s.skip(j), limit) + t,
                limit,
            ));
        },
        FrameStep::Partial => {
            assert(leftover(s, limit) == s);
            assert(Seq::<FrameModel>::empty() + frames_of(s + t, limit) =~= frames_of(
                s + t,
                limit,
            ));
        },
        FrameStep::Malformed => {
            lemma_parse_frame_extend(s, t, 0, limit);
            assert(leftover(s, limit) == s);
            assert(Seq::<FrameModel>::empty() + frames_of(s + t, limit) =~= frames_of(
                s + t,
                limit,
            ));
        },
    }
}

/// Feeding chunks one at a time, starting from a frame-free pending buffer,
/// yields the frames of the pending bytes and all chunks taken together.
pub proof fn lemma_fed_frames(pending: Seq<u8>, chunks: Seq<Seq<u8>>, limit: nat)
    requires
        !(parse_frame(pending, 0, limit) is Done),
    ensures
        fed_frames(pending, chunks, limit) == frames_of(pending + flatten_chunks(chunks), limit),
    decreases chunks.len(),
{
    if chunks.len() == 0 {
        assert(pending + flatten_chunks(chunks) =~= pending);
    } else {
        let b = pending + chunks[0];
        lemma_leftover_no_frame(b, limit);
        lemma_fed_frames(leftover(b, limit), chunks.skip(1), limit);
        lemma_split_feed(b, flatten_chunks(chunks.skip(1)), limit);
        assert(b + flatten_chunks(chunks.skip(1)) =~= pending + flatten_chunks(chunks));
    }
}

/// Chunk invariance: however a byte stream is split into chunks, feeding the
/// chunks to the decoder one at a time and draining every complete frame
/// after each feed yields the same ordered frames as feeding the whole
/// stream at once.
pub proof fn lemma_chunk_invariance(chunks: Seq<Seq<u8>>, limit: nat)
    ensures
        fed_frames(Seq::empty(), chunks, limit) == frames_of(flatten_chunks(chunks), limit),
{
    lemma_fed_frames(Seq::empty(), chunks, limit);
    assert(Seq::<u8>::empty() + flatten_chunks(chunks) =~= flatten_chunks(chunks));
}

} // verus!
