//! What holds of the decoder across whole streams: the wire encodings it
//! reads back, NULL, and resumption after a suspension.

use vstd::prelude::*;
use crate::le::{le_bytes, le_value, lemma_le_round_trip, lemma_pow256_widths};
use crate::plp::{lemma_run_finished, rank, run, step, Phase, ReadTyMode, PLP_NULL};

verus! {

/// A fixed-size value on the wire: its length in two bytes, then its bytes.
pub open spec fn encode_fixed(b: Seq<u8>) -> Seq<u8> {
    le_bytes(b.len(), 2) + b
}

/// The body of a PLP value: each chunk led by its length in four bytes,
/// then a chunk length of 0.
pub open spec fn encode_chunks(chunks: Seq<Seq<u8>>) -> Seq<u8>
    decreases chunks.len(),
{
    if chunks.len() == 0 {
        le_bytes(0, 4)
    } else {
        le_bytes(chunks[0].len(), 4) + chunks[0] + encode_chunks(chunks.drop_first())
    }
}

/// A PLP value on the wire: the size prefix `size` in eight bytes, then its
/// chunks.
pub open spec fn encode_plp(size: u64, chunks: Seq<Seq<u8>>) -> Seq<u8> {
    le_bytes(size as nat, 8) + encode_chunks(chunks)
}

/// Chunks that a PLP body can carry: none is empty (an empty chunk ends the
/// value) and each length fits in four bytes.
pub open spec fn valid_chunks(chunks: Seq<Seq<u8>>) -> bool {
    forall|i: int| 0 <= i < chunks.len() ==> 0 < #[trigger] chunks[i].len() < 0x1_0000_0000
}

/// Copying a segment: a decoder that has `c.len()` bytes left to copy takes
/// exactly the bytes of `c`, in order, and goes on from there.
pub proof fn lemma_copy_segment(mode: ReadTyMode, data: Seq<u8>, c: Seq<u8>, rest: Seq<u8>)
    ensures
        ({
            let (f, k) = run(mode, Phase::Body { data: data + c, left: 0 }, rest);
            run(mode, Phase::Body { data, left: c.len() }, c + rest) == (f, c.len() + k)
        }),
    decreases c.len(),
{
    if c.len() == 0 {
        assert(c + rest =~= rest);
        assert(data + c =~= data);
    } else {
        let t = c + rest;
        let d1 = data.push(c[0]);
        assert(step(mode, Phase::Body { data, left: c.len() }, t) == Some((
            Phase::Body { data: d1, left: (c.len() - 1) as nat },
            1nat,
        )));
        assert(t.skip(1) =~= c.drop_first() + rest);
        assert(d1 + c.drop_first() =~= data + c);
        lemma_copy_segment(mode, d1, c.drop_first(), rest);
    }
}

/// A PLP body of valid chunks decodes to the chunks' bytes, in order, and
/// the decoder consumes exactly the body.
pub proof fn lemma_chunks_decode(data: Seq<u8>, chunks: Seq<Seq<u8>>, rest: Seq<u8>)
    requires
        valid_chunks(chunks),
    ensures
        run(ReadTyMode::Plp, Phase::Body { data, left: 0 }, encode_chunks(chunks) + rest) == (
            Phase::Finished { value: Some(data + chunks.flatten()) },
            encode_chunks(chunks).len(),
        ),
    decreases chunks.len(),
{
    let mode = ReadTyMode::Plp;
    let t = encode_chunks(chunks) + rest;
    lemma_pow256_widths();
    lemma_le_round_trip(0, 4);
    if chunks.len() == 0 {
        let fin = Phase::Finished { value: Some(data) };
        assert(t.take(4) =~= le_bytes(0, 4));
        assert(step(mode, Phase::Body { data, left: 0 }, t) == Some((fin, 4nat)));
        lemma_run_finished(mode, Some(data), t.skip(4));
        assert(data + chunks.flatten() =~= data);
    } else {
        let c = chunks[0];
        let tail = chunks.drop_first();
        assert(valid_chunks(tail)) by {
            assert forall|i: int| 0 <= i < tail.len() implies 0 < #[trigger] tail[i].len()
                < 0x1_0000_0000 by {
                assert(tail[i] == chunks[i + 1]);
            }
        }
        assert(0 < chunks[0].len() < 0x1_0000_0000);
        lemma_le_round_trip(c.len(), 4);
        let header = le_bytes(c.len(), 4);
        assert(t =~= header + (c + (encode_chunks(tail) + rest)));
        assert(t.take(4) =~= header);
        assert(t.skip(4) =~= c + (encode_chunks(tail) + rest));
        assert(step(mode, Phase::Body { data, left: 0 }, t) == Some((
            Phase::Body { data, left: c.len() },
            4nat,
        )));
        lemma_copy_segment(mode, data, c, encode_chunks(tail) + rest);
        lemma_chunks_decode(data + c, tail, rest);
        assert(data + c + tail.flatten() =~= data + chunks.flatten());
    }
}

/// Decoding a PLP stream whose size prefix has all bits set gives NULL and
/// consumes the eight bytes of the prefix alone.
pub proof fn lemma_plp_null(rest: Seq<u8>)
    ensures
        run(ReadTyMode::Plp, Phase::Start, le_bytes(PLP_NULL as nat, 8) + rest) == (
            Phase::Finished { value: None },
            8nat,
        ),
{
    let t = le_bytes(PLP_NULL as nat, 8) + rest;
    lemma_pow256_widths();
    lemma_le_round_trip(PLP_NULL as nat, 8);
    assert(t.take(8) =~= le_bytes(PLP_NULL as nat, 8));
    lemma_run_finished(ReadTyMode::Plp, None, t.skip(8));
}

/// Decoding a fixed-size stream yields exactly the bytes of the segment
/// that its two-byte length declares, with no chunk framing, and consumes
/// the prefix and the segment alone.
pub proof fn lemma_fixed_decode(size: usize, b: Seq<u8>, rest: Seq<u8>)
    requires
        b.len() < 0x1_0000,
    ensures
        run(ReadTyMode::FixedSize(size), Phase::Start, encode_fixed(b) + rest) == (
            Phase::Finished { value: Some(b) },
            2 + b.len(),
        ),
{
    let mode = ReadTyMode::FixedSize(size);
    let t = encode_fixed(b) + rest;
    lemma_pow256_widths();
    lemma_le_round_trip(b.len(), 2);
    assert(t.take(2) =~= le_bytes(b.len(), 2));
    assert(t.skip(2) =~= b + rest);
    let empty = Seq::<u8>::empty();
    assert(step(mode, Phase::Start, t) == Some((Phase::Body { data: empty, left: b.len() }, 2nat)));
    assert(empty + b =~= b);
    lemma_copy_segment(mode, empty, b, rest);
    let fin = Phase::Finished { value: Some(b) };
    assert(step(mode, Phase::Body { data: b, left: 0 }, rest) == Some((fin, 0nat)));
    lemma_run_finished(mode, Some(b), rest);
    assert(rest.skip(0) =~= rest);
    assert(run(mode, Phase::Body { data: b, left: 0 }, rest) == (fin, 0nat));
}

/// Decoding a PLP stream of valid chunks yields the chunks' bytes in order,
/// whatever its size prefix short of NULL says, and consumes exactly the
/// encoded value.
pub proof fn lemma_plp_decode(size: u64, chunks: Seq<Seq<u8>>, rest: Seq<u8>)
    requires
        size != PLP_NULL,
        valid_chunks(chunks),
    ensures
        run(ReadTyMode::Plp, Phase::Start, encode_plp(size, chunks) + rest) == (
            Phase::Finished { value: Some(chunks.flatten()) },
            encode_plp(size, chunks).len(),
        ),
{
    let mode = ReadTyMode::Plp;
    let t = encode_plp(size, chunks) + rest;
    lemma_pow256_widths();
    lemma_le_round_trip(size as nat, 8);
    assert(t.take(8) =~= le_bytes(size as nat, 8));
    assert(t.skip(8) =~= encode_chunks(chunks) + rest);
    let empty = Seq::<u8>::empty();
    assert(step(mode, Phase::Start, t) == Some((Phase::Body { data: empty, left: 0 }, 8nat)));
    lemma_chunks_decode(empty, chunks, rest);
    assert(empty + chunks.flatten() =~= chunks.flatten());
}

/// A transition reads only the bytes it consumes: more bytes after them
/// change nothing.
pub proof fn lemma_step_prefix(mode: ReadTyMode, ph: Phase, s1: Seq<u8>, s2: Seq<u8>)
    requires
        step(mode, ph, s1) is Some,
    ensures
        step(mode, ph, s1 + s2) == step(mode, ph, s1),
        ({
            let (q, k) = step(mode, ph, s1)->0;
            k <= s1.len()
        }),
{
    let t = s1 + s2;
    if s1.len() >= 2 {
        assert(t.take(2) =~= s1.take(2));
    }
    if s1.len() >= 4 {
        assert(t.take(4) =~= s1.take(4));
    }
    if s1.len() >= 8 {
        assert(t.take(8) =~= s1.take(8));
    }
    if s1.len() >= 1 {
        assert(t[0] == s1[0]);
    }
}

/// A run consumes no more bytes than it is given.
pub proof fn lemma_run_within(mode: ReadTyMode, ph: Phase, t: Seq<u8>)
    ensures
        ({
            let (q, k) = run(mode, ph, t);
            k <= t.len()
        }),
    decreases t.len(), rank(ph),
{
    if let Some((q1, k1)) = step(mode, ph, t) {
        lemma_step_prefix(mode, ph, t, Seq::empty());
        lemma_run_within(mode, q1, t.skip(k1 as int));
    }
}

/// Resumption loses and repeats no byte. Where a decoder stops short on the
/// bytes `s1` and is run again once `s2` has arrived, it ends where one run
/// on `s1 + s2` ends, having consumed the same bytes in all. A decoder that
/// finished on `s1` leaves `s2` untouched.
pub proof fn lemma_resume(mode: ReadTyMode, ph: Phase, s1: Seq<u8>, s2: Seq<u8>)
    ensures
        ({
            let (q, k) = run(mode, ph, s1);
            if q is Finished {
                run(mode, ph, s1 + s2) == (q, k)
            } else {
                let (f, j) = run(mode, q, s1.skip(k as int) + s2);
                run(mode, ph, s1 + s2) == (f, k + j)
            }
        }),
    decreases s1.len(), rank(ph),
{
    match step(mode, ph, s1) {
        None => {
            assert(s1.skip(0) =~= s1);
        },
        Some((q1, k1)) => {
            lemma_step_prefix(mode, ph, s1, s2);
            let u = s1.skip(k1 as int);
            assert((s1 + s2).skip(k1 as int) =~= u + s2);
            lemma_resume(mode, q1, u, s2);
            let (q, kr) = run(mode, q1, u);
            lemma_run_within(mode, q1, u);
            assert(u.skip(kr as int) =~= s1.skip((k1 + kr) as int));
        },
    }
}

} // verus!
