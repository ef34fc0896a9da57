//! Whole streams: the bytes of a chunk sequence, the pixels it stands for,
//! and that a session over those bytes yields exactly those pixels.

use vstd::prelude::*;
use crate::chunk::classify;
use crate::chunk::reconstruct;
use crate::chunk::wire_size;
use crate::chunk::QOIChunk;
use crate::model::end_marker;
use crate::model::first_prev;
use crate::model::first_seen;
use crate::model::lemma_next_wf;
use crate::model::Session;
use crate::pixel::hash_slot;
use crate::pixel::Pixel;
use crate::wire::lemma_unbias;
use crate::wire::lemma_wire_round_trip;
use crate::wire::well_formed;
use crate::wire::wire;

verus! {

/// The bytes of a whole stream: each chunk in turn, then the end marker.
pub open spec fn stream(chunks: Seq<QOIChunk>) -> Seq<u8>
    decreases chunks.len(),
{
    if chunks.len() == 0 {
        end_marker()
    } else {
        wire(chunks[0]) + stream(chunks.drop_first())
    }
}

/// The pixels that a sequence of chunks stands for, given the pixel and
/// the cache before it. A run of raw payload `n` stands for `n + 1` copies
/// of the pixel before it and leaves pixel and cache as they are; every
/// other chunk stands for one pixel, which then is the pixel before the
/// next chunk and sits in the cache at its slot.
pub open spec fn replay(chunks: Seq<QOIChunk>, prev: Pixel, seen: Seq<Pixel>) -> Seq<Pixel>
    decreases chunks.len(),
{
    if chunks.len() == 0 {
        Seq::empty()
    } else {
        match chunks[0] {
            QOIChunk::Run(n) => Seq::new((n + 1) as nat, |i: int| prev) + replay(
                chunks.drop_first(),
                prev,
                seen,
            ),
            chunk => {
                let pixel = reconstruct(chunk, prev, seen);
                seq![pixel] + replay(
                    chunks.drop_first(),
                    pixel,
                    seen.update(hash_slot(pixel), pixel),
                )
            },
        }
    }
}

/// Whether a sequence of chunks is one that an encoder can have formed,
/// given the pixel and the cache before it: every payload fits the wire
/// format, and every RGB chunk carries the alpha of the pixel before it.
pub open spec fn coherent(chunks: Seq<QOIChunk>, prev: Pixel, seen: Seq<Pixel>) -> bool
    decreases chunks.len(),
{
    if chunks.len() == 0 {
        true
    } else {
        let chunk = chunks[0];
        let pixel = reconstruct(chunk, prev, seen);
        &&& well_formed(chunk)
        &&& chunk matches QOIChunk::ColorRGB(p) ==> p.a == prev.a
        &&& if chunk is Run {
            coherent(chunks.drop_first(), prev, seen)
        } else {
            coherent(chunks.drop_first(), pixel, seen.update(hash_slot(pixel), pixel))
        }
    }
}

/// Whether no chunk of the sequence starts eight bytes that read as the
/// end marker.
pub open spec fn marker_free(chunks: Seq<QOIChunk>) -> bool
    decreases chunks.len(),
{
    if chunks.len() == 0 {
        true
    } else {
        &&& stream(chunks).subrange(0, 8) != end_marker()
        &&& marker_free(chunks.drop_first())
    }
}

/// A stream is at least as long as its end marker.
proof fn lemma_stream_len(chunks: Seq<QOIChunk>)
    ensures
        stream(chunks).len() >= 8,
    decreases chunks.len(),
{
    if chunks.len() > 0 {
        lemma_stream_len(chunks.drop_first());
    }
}

/// A run in progress yields the pixel before it once for every repetition
/// that is owed, and changes nothing else.
proof fn lemma_run_drains(s: Session)
    requires
        s.wf(),
        s.run_active,
    ensures
        s.pixels() == Seq::new(s.run_length, |i: int| s.prev) + (Session {
            run_length: 0,
            ..s
        }).pixels(),
        s.ends_clean() == (Session { run_length: 0, ..s }).ends_clean(),
    decreases s.run_length,
{
    let rest = Session { run_length: 0, ..s };
    if s.run_length == 0 {
        assert(rest =~= s);
        assert(Seq::new(s.run_length, |i: int| s.prev) + rest.pixels() =~= rest.pixels());
    } else {
        let t = s.next();
        lemma_next_wf(s);
        lemma_run_drains(t);
        assert((Session { run_length: 0, ..t }) =~= rest);
        assert(s.pixels() == seq![s.prev] + t.pixels());
        assert(seq![s.prev] + (Seq::new(t.run_length, |i: int| t.prev) + rest.pixels())
            =~= Seq::new(s.run_length, |i: int| s.prev) + rest.pixels());
    }
}

/// A session whose unused bytes are the stream of a coherent,
/// marker-free chunk sequence yields the pixels that the chunks stand
/// for, and then ends cleanly.
pub proof fn lemma_session_decodes(s: Session, chunks: Seq<QOIChunk>)
    requires
        s.wf(),
        !s.in_run(),
        s.lookahead() == stream(chunks),
        coherent(chunks, s.prev, s.seen),
        marker_free(chunks),
    ensures
        s.pixels() == replay(chunks, s.prev, s.seen),
        s.ends_clean(),
    decreases chunks.len(),
{
    let all = s.lookahead();
    lemma_stream_len(chunks);
    assert(!s.starved());
    let window = s.refilled();
    assert(window =~= all.subrange(0, 8));
    lemma_next_wf(s);
    if chunks.len() == 0 {
        assert(window =~= end_marker());
    } else {
        let chunk = chunks[0];
        let rest = chunks.drop_first();
        let size = wire_size(chunk) as int;
        lemma_wire_round_trip(chunk, stream(rest), s.prev.a);
        lemma_stream_len(rest);
        assert(window != end_marker());
        assert(classify(window, s.prev.a) == classify(all, s.prev.a));
        assert(s.head() == chunk);
        let t = s.next();
        assert(t.lookahead() =~= all.skip(size));
        assert(all.skip(size) =~= stream(rest));
        match chunk {
            QOIChunk::Run(n) => {
                let u = Session { run_length: 0, ..t };
                lemma_run_drains(t);
                lemma_session_decodes(u, rest);
                assert(s.pixels() == seq![s.prev] + t.pixels());
                assert(seq![s.prev] + (Seq::new(n as nat, |i: int| s.prev) + u.pixels())
                    =~= Seq::new((n + 1) as nat, |i: int| s.prev) + u.pixels());
            },
            _ => {
                lemma_session_decodes(t, rest);
            },
        }
    }
}

/// Decoding gives back what was encoded: the stream of a coherent,
/// marker-free chunk sequence, decoded from a fresh session, yields
/// exactly the pixels that the chunks stand for, and then the clean end.
pub proof fn lemma_round_trip(chunks: Seq<QOIChunk>)
    requires
        coherent(chunks, first_prev(), first_seen()),
        marker_free(chunks),
    ensures
        Session::start(stream(chunks)).pixels() == replay(chunks, first_prev(), first_seen()),
        Session::start(stream(chunks)).ends_clean(),
{
    let s = Session::start(stream(chunks));
    assert(s.lookahead() =~= stream(chunks));
    lemma_session_decodes(s, chunks);
}

/// Whether no cache reference is followed at once by a reference to the
/// same slot.
pub open spec fn no_repeated_index(chunks: Seq<QOIChunk>) -> bool {
    forall|i: int|
        0 <= i < chunks.len() - 1 ==> !(#[trigger] chunks[i] is Index && chunks[i] == chunks[i
            + 1])
}

/// The first byte of a stream is the tag of its first chunk, and only a
/// reference to slot zero has the tag zero.
proof fn lemma_first_byte(chunks: Seq<QOIChunk>)
    requires
        chunks.len() > 0,
        well_formed(chunks[0]),
    ensures
        stream(chunks)[0] == 0 <==> chunks[0] == QOIChunk::Index(0),
{
    let chunk = chunks[0];
    assert(wire(chunk).len() > 0);
    assert(stream(chunks)[0] == wire(chunk)[0]);
    match chunk {
        QOIChunk::Diff(dr, dg, db) => {
            lemma_unbias(dr, 2);
            lemma_unbias(dg, 2);
            lemma_unbias(db, 2);
        },
        QOIChunk::Luma { diff_green, drdg, dbdg } => {
            lemma_unbias(diff_green, 32);
        },
        _ => {},
    }
}

/// A stream in which no cache reference is repeated at once holds the end
/// marker at its end only.
pub proof fn lemma_no_repeat_is_marker_free(chunks: Seq<QOIChunk>)
    requires
        forall|i: int| 0 <= i < chunks.len() ==> well_formed(#[trigger] chunks[i]),
        no_repeated_index(chunks),
    ensures
        marker_free(chunks),
    decreases chunks.len(),
{
    if chunks.len() > 0 {
        let rest = chunks.drop_first();
        assert forall|i: int| 0 <= i < rest.len() implies well_formed(#[trigger] rest[i]) by {
            assert(rest[i] == chunks[i + 1]);
        }
        assert forall|i: int| 0 <= i < rest.len() - 1 implies !(#[trigger] rest[i] is Index
            && rest[i] == rest[i + 1]) by {
            assert(rest[i] == chunks[i + 1]);
            assert(rest[i + 1] == chunks[i + 2]);
        }
        lemma_no_repeat_is_marker_free(rest);
        let all = stream(chunks);
        lemma_stream_len(chunks);
        lemma_stream_len(rest);
        if all.subrange(0, 8) == end_marker() {
            assert(all[0] == all.subrange(0, 8)[0]);
            assert(all[1] == all.subrange(0, 8)[1]);
            assert(all[7] == all.subrange(0, 8)[7]);
            lemma_first_byte(chunks);
            assert(chunks[0] == QOIChunk::Index(0));
            assert(all =~= seq![0u8] + stream(rest));
            assert(all[1] == stream(rest)[0]);
            if rest.len() == 0 {
                assert(all[7] == end_marker()[6]);
                assert(false);
            } else {
                lemma_first_byte(rest);
                assert(rest[0] == chunks[1]);
                assert(chunks[0int] is Index && chunks[0int] == chunks[0int + 1]);
                assert(false);
            }
        }
    }
}

} // verus!
