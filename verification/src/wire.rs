//! The wire format: which payloads a chunk can carry, the bytes it takes,
//! and that reading those bytes gives the chunk back.

use vstd::prelude::*;
use crate::chunk::classify;
use crate::chunk::wire_size;
use crate::chunk::QOIChunk;
use crate::wrapped::signed;
use crate::wrapped::wrap_add;
use crate::wrapped::wrap_sub;

verus! {

/// Whether the payload of a chunk is one that the wire format can carry.
pub open spec fn well_formed(chunk: QOIChunk) -> bool {
    match chunk {
        QOIChunk::ColorRGB(_) => true,
        QOIChunk::ColorRGBA(_) => true,
        QOIChunk::Index(i) => i <= 63,
        QOIChunk::Diff(dr, dg, db) => {
            &&& -2 <= signed(dr) <= 1
            &&& -2 <= signed(dg) <= 1
            &&& -2 <= signed(db) <= 1
        },
        QOIChunk::Luma { diff_green, drdg, dbdg } => {
            &&& -32 <= signed(diff_green) <= 31
            &&& -8 <= signed(drdg) <= 7
            &&& -8 <= signed(dbdg) <= 7
        },
        QOIChunk::Run(n) => n <= 61,
    }
}

/// The bytes that a chunk takes on the wire. Deltas are stored with a
/// bias that makes them unsigned.
pub open spec fn wire(chunk: QOIChunk) -> Seq<u8> {
    match chunk {
        QOIChunk::ColorRGB(p) => seq![0xFEu8, p.r, p.g, p.b],
        QOIChunk::ColorRGBA(p) => seq![0xFFu8, p.r, p.g, p.b, p.a],
        QOIChunk::Index(i) => seq![i],
        QOIChunk::Diff(dr, dg, db) => seq![
            (64 + 16 * wrap_add(dr, 2) + 4 * wrap_add(dg, 2) + wrap_add(db, 2)) as u8,
        ],
        QOIChunk::Luma { diff_green, drdg, dbdg } => seq![
            (128 + wrap_add(diff_green, 32)) as u8,
            (16 * wrap_add(drdg, 8) + wrap_add(dbdg, 8)) as u8,
        ],
        QOIChunk::Run(n) => seq![(192 + n) as u8],
    }
}

/// Every tag byte belongs to exactly one chunk kind, and the payload that
/// is read off a window is always one that the wire format can carry.
pub proof fn lemma_tag_kinds(window: Seq<u8>, alpha: u8)
    ensures
        classify(window, alpha) is ColorRGB <==> window[0] == 0xFE,
        classify(window, alpha) is ColorRGBA <==> window[0] == 0xFF,
        classify(window, alpha) is Index <==> window[0] < 0x40,
        classify(window, alpha) is Diff <==> 0x40 <= window[0] < 0x80,
        classify(window, alpha) is Luma <==> 0x80 <= window[0] < 0xC0,
        classify(window, alpha) is Run <==> 0xC0 <= window[0] < 0xFE,
        well_formed(classify(window, alpha)),
        classify(window, alpha) matches QOIChunk::ColorRGB(p) ==> p.a == alpha,
{
}

/// The three 2-bit fields of a difference tag can be read back.
proof fn lemma_diff_fields(a: int, b: int, c: int)
    requires
        0 <= a < 4,
        0 <= b < 4,
        0 <= c < 4,
    ensures
        (64 + 16 * a + 4 * b + c) / 64 == 1,
        ((64 + 16 * a + 4 * b + c) / 16) % 4 == a,
        ((64 + 16 * a + 4 * b + c) / 4) % 4 == b,
        (64 + 16 * a + 4 * b + c) % 4 == c,
{
}

/// The two 4-bit fields of the second luma byte can be read back.
proof fn lemma_luma_fields(a: int, b: int)
    requires
        0 <= a < 16,
        0 <= b < 16,
    ensures
        (16 * a + b) / 16 == a,
        (16 * a + b) % 16 == b,
{
}

/// Taking a bias away from a delta that was stored with it gives the
/// delta back.
pub proof fn lemma_unbias(d: u8, bias: u8)
    ensures
        wrap_sub(wrap_add(d, bias), bias) == d,
        -(bias as int) <= signed(d) < bias ==> wrap_add(d, bias) < 2 * bias,
{
}

/// A chunk that is written to the wire and read back is the same chunk,
/// whatever bytes follow it. An RGB chunk carries no alpha on the wire
/// and comes back with the alpha of the pixel before.
pub proof fn lemma_wire_round_trip(chunk: QOIChunk, tail: Seq<u8>, alpha: u8)
    requires
        well_formed(chunk),
        chunk matches QOIChunk::ColorRGB(p) ==> p.a == alpha,
    ensures
        wire(chunk).len() == wire_size(chunk),
        classify(wire(chunk) + tail, alpha) == chunk,
{
    let w = wire(chunk) + tail;
    match chunk {
        QOIChunk::ColorRGB(p) => {
            assert(w[0] == 0xFE && w[1] == p.r && w[2] == p.g && w[3] == p.b);
        },
        QOIChunk::ColorRGBA(p) => {
            assert(w[0] == 0xFF && w[1] == p.r && w[2] == p.g && w[3] == p.b && w[4] == p.a);
        },
        QOIChunk::Index(i) => {
            assert(w[0] == i);
        },
        QOIChunk::Diff(dr, dg, db) => {
            let a = wrap_add(dr, 2);
            let b = wrap_add(dg, 2);
            let c = wrap_add(db, 2);
            lemma_unbias(dr, 2);
            lemma_unbias(dg, 2);
            lemma_unbias(db, 2);
            lemma_diff_fields(a as int, b as int, c as int);
            assert(w[0] == 64 + 16 * a + 4 * b + c);
        },
        QOIChunk::Luma { diff_green, drdg, dbdg } => {
            let g = wrap_add(diff_green, 32);
            let a = wrap_add(drdg, 8);
            let b = wrap_add(dbdg, 8);
            lemma_unbias(diff_green, 32);
            lemma_unbias(drdg, 8);
            lemma_unbias(dbdg, 8);
            lemma_luma_fields(a as int, b as int);
            assert(w[0] == 128 + g);
            assert(w[1] == 16 * a + b);
            assert(w[0] / 64 == 2 && w[0] % 64 == g);
        },
        QOIChunk::Run(n) => {
            assert(w[0] == 192 + n);
        },
    }
}

} // verus!
