//! A plain encoder as a mathematical function, and the proof that decoding
//! undoes it for every pixel sequence.

use vstd::prelude::*;
use crate::chunk::reconstruct;
use crate::chunk::QOIChunk;
use crate::model::first_prev;
use crate::model::first_seen;
use crate::model::Session;
use crate::pixel::hash_slot;
use crate::pixel::Pixel;
use crate::stream::coherent;
use crate::stream::lemma_no_repeat_is_marker_free;
use crate::stream::lemma_round_trip;
use crate::stream::no_repeated_index;
use crate::stream::replay;
use crate::stream::stream;
use crate::wire::well_formed;
use crate::wrapped::lemma_wrap_reaches;
use crate::wrapped::wrap_sub;

verus! {

/// The wrapped per-channel differences between two pixels of one alpha,
/// carried by a difference chunk, lead from the first pixel to the second.
pub proof fn lemma_diff_reaches(prev: Pixel, target: Pixel, seen: Seq<Pixel>)
    requires
        target.a == prev.a,
    ensures
        reconstruct(
            QOIChunk::Diff(
                wrap_sub(target.r, prev.r),
                wrap_sub(target.g, prev.g),
                wrap_sub(target.b, prev.b),
            ),
            prev,
            seen,
        ) == target,
{
    lemma_wrap_reaches(prev.r, target.r, 0);
    lemma_wrap_reaches(prev.g, target.g, 0);
    lemma_wrap_reaches(prev.b, target.b, 0);
}

/// The wrapped green difference between two pixels of one alpha, and the
/// red and blue differences less the green one, carried by a luma chunk,
/// lead from the first pixel to the second.
pub proof fn lemma_luma_reaches(prev: Pixel, target: Pixel, seen: Seq<Pixel>)
    requires
        target.a == prev.a,
    ensures
        ({
            let dg = wrap_sub(target.g, prev.g);
            reconstruct(
                QOIChunk::Luma {
                    diff_green: dg,
                    drdg: wrap_sub(wrap_sub(target.r, prev.r), dg),
                    dbdg: wrap_sub(wrap_sub(target.b, prev.b), dg),
                },
                prev,
                seen,
            ) == target
        }),
{
    let dg = wrap_sub(target.g, prev.g);
    lemma_wrap_reaches(prev.r, target.r, dg);
    lemma_wrap_reaches(prev.g, target.g, dg);
    lemma_wrap_reaches(prev.b, target.b, dg);
}

/// How many pixels at the front of a sequence equal the pixel before it.
pub open spec fn run_len(pixels: Seq<Pixel>, prev: Pixel) -> nat
    decreases pixels.len(),
{
    if pixels.len() == 0 || pixels[0] != prev {
        0
    } else {
        1 + run_len(pixels.drop_first(), prev)
    }
}

/// The chunk that a plain encoder forms for a pixel that differs from the
/// pixel before it: a cache reference if the cache holds the pixel at its
/// slot; else, where the alpha is unchanged, the smallest of difference,
/// luma and RGB chunk that can carry it; else an RGBA chunk.
pub open spec fn choose_chunk(prev: Pixel, seen: Seq<Pixel>, pixel: Pixel) -> QOIChunk {
    let dr = wrap_sub(pixel.r, prev.r);
    let dg = wrap_sub(pixel.g, prev.g);
    let db = wrap_sub(pixel.b, prev.b);
    let diff = QOIChunk::Diff(dr, dg, db);
    let luma = QOIChunk::Luma { diff_green: dg, drdg: wrap_sub(dr, dg), dbdg: wrap_sub(db, dg) };
    if seen[hash_slot(pixel)] == pixel {
        QOIChunk::Index(hash_slot(pixel) as u8)
    } else if pixel.a != prev.a {
        QOIChunk::ColorRGBA(pixel)
    } else if well_formed(diff) {
        diff
    } else if well_formed(luma) {
        luma
    } else {
        QOIChunk::ColorRGB(pixel)
    }
}

/// The chunks that a plain encoder forms for a pixel sequence, given the
/// pixel and the cache before it. Pixels that repeat the pixel before
/// them go into runs of at most 62; every other pixel gets the chunk of
/// `choose_chunk`.
pub open spec fn encode(pixels: Seq<Pixel>, prev: Pixel, seen: Seq<Pixel>) -> Seq<QOIChunk>
    decreases pixels.len(),
{
    if pixels.len() == 0 {
        Seq::empty()
    } else if pixels[0] == prev {
        let count = if run_len(pixels, prev) <= 62 {
            run_len(pixels, prev)
        } else {
            62
        };
        proof {
            lemma_run_len(pixels, prev);
        }
        seq![QOIChunk::Run((count - 1) as u8)] + encode(pixels.skip(count as int), prev, seen)
    } else {
        let pixel = pixels[0];
        seq![choose_chunk(prev, seen, pixel)] + encode(
            pixels.drop_first(),
            pixel,
            seen.update(hash_slot(pixel), pixel),
        )
    }
}

/// The pixels that a run counts are there, and they equal the pixel
/// before them.
pub proof fn lemma_run_len(pixels: Seq<Pixel>, prev: Pixel)
    ensures
        run_len(pixels, prev) <= pixels.len(),
        forall|i: int| 0 <= i < run_len(pixels, prev) ==> pixels[i] == prev,
    decreases pixels.len(),
{
    if pixels.len() > 0 && pixels[0] == prev {
        let rest = pixels.drop_first();
        lemma_run_len(rest, prev);
        assert forall|i: int| 0 <= i < run_len(pixels, prev) implies pixels[i] == prev by {
            if i > 0 {
                assert(pixels[i] == rest[i - 1]);
            }
        }
    }
}

/// The chunk that the plain encoder chooses fits the wire format and
/// stands for the pixel it was chosen for.
pub proof fn lemma_choose_chunk(prev: Pixel, seen: Seq<Pixel>, pixel: Pixel)
    requires
        seen.len() == 64,
    ensures
        well_formed(choose_chunk(prev, seen, pixel)),
        !(choose_chunk(prev, seen, pixel) is Run),
        choose_chunk(prev, seen, pixel) matches QOIChunk::ColorRGB(p) ==> p.a == prev.a,
        reconstruct(choose_chunk(prev, seen, pixel), prev, seen) == pixel,
{
    if seen[hash_slot(pixel)] != pixel && pixel.a == prev.a {
        lemma_diff_reaches(prev, pixel, seen);
        lemma_luma_reaches(prev, pixel, seen);
    }
}

/// What the plain encoder forms stands for the pixels it was given, and
/// is coherent.
pub proof fn lemma_encode_replays(pixels: Seq<Pixel>, prev: Pixel, seen: Seq<Pixel>)
    requires
        seen.len() == 64,
    ensures
        replay(encode(pixels, prev, seen), prev, seen) == pixels,
        coherent(encode(pixels, prev, seen), prev, seen),
        forall|i: int|
            0 <= i < encode(pixels, prev, seen).len() ==> well_formed(
                #[trigger] encode(pixels, prev, seen)[i],
            ),
    decreases pixels.len(),
{
    let chunks = encode(pixels, prev, seen);
    if pixels.len() == 0 {
        assert(replay(chunks, prev, seen) =~= pixels);
    } else if pixels[0] == prev {
        lemma_run_len(pixels, prev);
        let count = if run_len(pixels, prev) <= 62 {
            run_len(pixels, prev)
        } else {
            62
        };
        let rest = pixels.skip(count as int);
        let tail = encode(rest, prev, seen);
        lemma_encode_replays(rest, prev, seen);
        assert(chunks.drop_first() =~= tail);
        assert(chunks[0] == QOIChunk::Run((count - 1) as u8));
        assert(Seq::new(count, |i: int| prev) + rest =~= pixels);
        assert forall|i: int| 0 <= i < chunks.len() implies well_formed(#[trigger] chunks[i]) by {
            if i > 0 {
                assert(chunks[i] == tail[i - 1]);
            }
        }
    } else {
        let pixel = pixels[0];
        let rest = pixels.drop_first();
        let after = seen.update(hash_slot(pixel), pixel);
        let tail = encode(rest, pixel, after);
        lemma_choose_chunk(prev, seen, pixel);
        lemma_encode_replays(rest, pixel, after);
        assert(chunks.drop_first() =~= tail);
        assert(chunks[0] == choose_chunk(prev, seen, pixel));
        assert(seq![pixel] + rest =~= pixels);
        assert forall|i: int| 0 <= i < chunks.len() implies well_formed(#[trigger] chunks[i]) by {
            if i > 0 {
                assert(chunks[i] == tail[i - 1]);
            }
        }
    }
}

/// The plain encoder never refers to the slot of the pixel before, so
/// long as the cache holds that pixel there.
proof fn lemma_encode_head(pixels: Seq<Pixel>, prev: Pixel, seen: Seq<Pixel>)
    requires
        seen.len() == 64,
        pixels.len() > 0,
        seen[hash_slot(prev)] == prev,
    ensures
        encode(pixels, prev, seen).len() > 0,
        encode(pixels, prev, seen)[0] != QOIChunk::Index(hash_slot(prev) as u8),
{
}

/// The plain encoder never repeats a cache reference at once.
proof fn lemma_encode_no_repeat(pixels: Seq<Pixel>, prev: Pixel, seen: Seq<Pixel>)
    requires
        seen.len() == 64,
    ensures
        no_repeated_index(encode(pixels, prev, seen)),
    decreases pixels.len(),
{
    let chunks = encode(pixels, prev, seen);
    if pixels.len() == 0 {
    } else if pixels[0] == prev {
        lemma_run_len(pixels, prev);
        let count = if run_len(pixels, prev) <= 62 {
            run_len(pixels, prev)
        } else {
            62
        };
        let tail = encode(pixels.skip(count as int), prev, seen);
        lemma_encode_no_repeat(pixels.skip(count as int), prev, seen);
        assert(chunks[0] is Run);
        assert forall|i: int| 0 <= i < chunks.len() - 1 implies !(#[trigger] chunks[i] is Index
            && chunks[i] == chunks[i + 1]) by {
            if i > 0 {
                assert(chunks[i] == tail[i - 1]);
                assert(chunks[i + 1] == tail[i]);
            }
        }
    } else {
        let pixel = pixels[0];
        let rest = pixels.drop_first();
        let after = seen.update(hash_slot(pixel), pixel);
        let tail = encode(rest, pixel, after);
        lemma_encode_no_repeat(rest, pixel, after);
        assert(chunks[0] == choose_chunk(prev, seen, pixel));
        assert forall|i: int| 0 <= i < chunks.len() - 1 implies !(#[trigger] chunks[i] is Index
            && chunks[i] == chunks[i + 1]) by {
            if i > 0 {
                assert(chunks[i] == tail[i - 1]);
                assert(chunks[i + 1] == tail[i]);
            } else {
                assert(chunks[1] == tail[0]);
                lemma_encode_head(rest, pixel, after);
            }
        }
    }
}

/// Decoding undoes encoding: whatever the pixel sequence, the stream
/// that the plain encoder forms for it decodes, from a fresh session, to
/// exactly that sequence, and then comes to a clean end.
pub proof fn lemma_decode_undoes_encode(pixels: Seq<Pixel>)
    ensures
        Session::start(stream(encode(pixels, first_prev(), first_seen()))).pixels() == pixels,
        Session::start(stream(encode(pixels, first_prev(), first_seen()))).ends_clean(),
{
    let chunks = encode(pixels, first_prev(), first_seen());
    lemma_encode_replays(pixels, first_prev(), first_seen());
    lemma_encode_no_repeat(pixels, first_prev(), first_seen());
    lemma_no_repeat_is_marker_free(chunks);
    lemma_round_trip(chunks);
}

} // verus!
