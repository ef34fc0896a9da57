//! The six chunk kinds, how a lookahead window is classified into one of
//! them, and what each one means for the pixel that follows.

use vstd::prelude::*;
use crate::pixel::Pixel;
use crate::wrapped::wrap_add;
use crate::wrapped::wrap_sub;

verus! {

/// One encoded unit of the stream. Deltas are stored wrapped: a delta of
/// `-2` is the byte `254`.
#[derive(Debug, PartialEq, Eq, Structural, Copy, Clone)]
pub enum QOIChunk {
    /// Explicit red, green and blue; the alpha is that of the pixel before.
    ColorRGB(Pixel),
    /// Explicit red, green, blue and alpha.
    ColorRGBA(Pixel),
    /// A slot of the pixel cache, `0..=63`.
    Index(u8),
    /// Deltas for red, green and blue, each in `-2..=1`.
    Diff(u8, u8, u8),
    /// A green delta in `-32..=31`, and the red and blue deltas less the
    /// green one, each in `-8..=7`.
    Luma { diff_green: u8, drdg: u8, dbdg: u8 },
    /// The raw run payload: the pixel before is repeated once more than
    /// this number says.
    Run(u8),
}

/// The number of bytes that a chunk occupies on the wire, tag included.
pub open spec fn wire_size(chunk: QOIChunk) -> nat {
    match chunk {
        QOIChunk::ColorRGB(_) => 4,
        QOIChunk::ColorRGBA(_) => 5,
        QOIChunk::Index(_) => 1,
        QOIChunk::Diff(_, _, _) => 1,
        QOIChunk::Luma { .. } => 2,
        QOIChunk::Run(_) => 1,
    }
}

/// The chunk that starts a window of at least five bytes, given the alpha
/// of the pixel before. The two full-byte tags are looked at first, then
/// the top two bits of the tag decide. Every tag byte falls under exactly
/// one of the six kinds.
pub open spec fn classify(window: Seq<u8>, alpha: u8) -> QOIChunk {
    let tag = window[0];
    if tag == 0xFE {
        QOIChunk::ColorRGB(Pixel { r: window[1], g: window[2], b: window[3], a: alpha })
    } else if tag == 0xFF {
        QOIChunk::ColorRGBA(Pixel { r: window[1], g: window[2], b: window[3], a: window[4] })
    } else if tag / 64 == 0 {
        QOIChunk::Index(tag % 64)
    } else if tag / 64 == 1 {
        QOIChunk::Diff(
            wrap_sub((tag / 16) % 4, 2),
            wrap_sub((tag / 4) % 4, 2),
            wrap_sub(tag % 4, 2),
        )
    } else if tag / 64 == 2 {
        QOIChunk::Luma {
            diff_green: wrap_sub(tag % 64, 32),
            drdg: wrap_sub(window[1] / 16, 8),
            dbdg: wrap_sub(window[1] % 16, 8),
        }
    } else {
        QOIChunk::Run(tag % 64)
    }
}

/// The pixel that a chunk stands for, given the pixel before it and the
/// cache. A run stands for the pixel before it.
pub open spec fn reconstruct(chunk: QOIChunk, prev: Pixel, seen: Seq<Pixel>) -> Pixel {
    match chunk {
        QOIChunk::ColorRGB(p) => p,
        QOIChunk::ColorRGBA(p) => p,
        QOIChunk::Index(i) => seen[i as int],
        QOIChunk::Diff(dr, dg, db) => Pixel {
            r: wrap_add(prev.r, dr),
            g: wrap_add(prev.g, dg),
            b: wrap_add(prev.b, db),
            a: prev.a,
        },
        QOIChunk::Luma { diff_green, drdg, dbdg } => Pixel {
            r: wrap_add(wrap_add(prev.r, diff_green), drdg),
            g: wrap_add(prev.g, diff_green),
            b: wrap_add(wrap_add(prev.b, diff_green), dbdg),
            a: prev.a,
        },
        QOIChunk::Run(_) => prev,
    }
}

impl QOIChunk {
    /// The number of bytes that the chunk consumes.
    pub fn get_size(&self) -> (size: usize)
        ensures
            size == wire_size(*self),
            1 <= size <= 5,
    {
        match self {
            QOIChunk::ColorRGB(..) => 4,
            QOIChunk::ColorRGBA(..) => 5,
            QOIChunk::Index(..) => 1,
            QOIChunk::Diff(..) => 1,
            QOIChunk::Luma { .. } => 2,
            QOIChunk::Run(..) => 1,
        }
    }
}

/// Whether the top two bits of `x` are `tag`.
pub fn tag_2bit(x: u8, tag: u8) -> (hit: bool)
    ensures
        hit == (x / 64 == tag),
{
    assert((x & 0b1100_0000u8) >> 6 == x / 64) by (bit_vector);
    (x & 0b1100_0000u8) >> 6 == tag
}

} // verus!
