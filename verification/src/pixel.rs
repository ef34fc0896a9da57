//! The pixel value type and its serialisations.

use vstd::prelude::*;

verus! {

/// A colour with four independent 8-bit channels.
#[derive(Debug, PartialEq, Eq, Structural, Copy, Clone)]
pub struct Pixel {
    pub r: u8,
    pub g: u8,
    pub b: u8,
    pub a: u8,
}

/// The cache slot that a pixel maps to: a weighted sum of its channels,
/// reduced modulo the number of slots.
pub open spec fn hash_slot(p: Pixel) -> int {
    (3 * p.r + 5 * p.g + 7 * p.b + 11 * p.a) % 64
}

/// The channels of a pixel in output order, for a channel count of 3 or 4.
/// Any other channel count has no serialisation.
pub open spec fn channel_seq(p: Pixel, channels: u8) -> Seq<u8> {
    if channels == 3 {
        seq![p.r, p.g, p.b]
    } else if channels == 4 {
        seq![p.r, p.g, p.b, p.a]
    } else {
        Seq::empty()
    }
}

/// The bytes of a pixel sequence laid out one pixel after the other:
/// three bytes a pixel where the channel count is 3, else four.
pub open spec fn packed(pixels: Seq<Pixel>, channels: u8) -> Seq<u8>
    decreases pixels.len(),
{
    if pixels.len() == 0 {
        Seq::empty()
    } else {
        packed(pixels.drop_last(), channels) + channel_seq(
            pixels.last(),
            if channels == 3 {
                3
            } else {
                4
            },
        )
    }
}

impl Pixel {
    /// The pixel with the given channels.
    pub fn new(r: u8, g: u8, b: u8, a: u8) -> (p: Self)
        ensures
            p == (Pixel { r, g, b, a }),
    {
        Self { r, g, b, a }
    }

    /// The pixel whose channels are all zero.
    pub fn zero() -> (p: Self)
        ensures
            p == (Pixel { r: 0, g: 0, b: 0, a: 0 }),
    {
        Self { r: 0, g: 0, b: 0, a: 0 }
    }

    /// The cache slot of the pixel.
    pub fn hash_index(&self) -> (slot: usize)
        ensures
            slot == hash_slot(*self),
            slot < 64,
    {
        ((self.r as usize) * 3 + (self.g as usize) * 5 + (self.b as usize) * 7 + (self.a as usize)
            * 11) % 64usize
    }

    /// Red, green, blue and alpha, in that order.
    pub fn to_channels4(&self) -> (out: [u8; 4])
        ensures
            out@ == channel_seq(*self, 4),
    {
        let out: [u8; 4] = [self.r, self.g, self.b, self.a];
        assert(out@ =~= channel_seq(*self, 4));
        out
    }

    /// Red, green and blue, in that order.
    pub fn to_channels3(&self) -> (out: [u8; 3])
        ensures
            out@ == channel_seq(*self, 3),
    {
        let out: [u8; 3] = [self.r, self.g, self.b];
        assert(out@ =~= channel_seq(*self, 3));
        out
    }

    /// Hands out red, green, blue and alpha, one at a time.
    pub fn to_channels4_iter(self) -> (it: PixelChannelIterator)
        ensures
            it.remaining() == channel_seq(self, 4),
    {
        let it = PixelChannelIterator { px: self, channels: 4, counter: 0 };
        assert(it.remaining() =~= channel_seq(self, 4));
        it
    }

    /// Hands out red, green and blue, one at a time.
    pub fn to_channels3_iter(self) -> (it: PixelChannelIterator)
        ensures
            it.remaining() == channel_seq(self, 3),
    {
        let it = PixelChannelIterator { px: self, channels: 3, counter: 0 };
        assert(it.remaining() =~= channel_seq(self, 3));
        it
    }

    /// The pixel as one big-endian word: red in the top byte, alpha in the
    /// bottom byte.
    pub fn to_rgba32(&self) -> (word: u32)
        ensures
            word == self.r * 0x100_0000 + self.g * 0x1_0000 + self.b * 0x100 + self.a,
    {
        let r: u32 = self.r as u32;
        let g: u32 = self.g as u32;
        let b: u32 = self.b as u32;
        let a: u32 = self.a as u32;
        assert((r << 24) | (g << 16) | (b << 8) | a == r * 0x100_0000 + g * 0x1_0000 + b * 0x100
            + a) by (bit_vector)
            requires
                r < 256,
                g < 256,
                b < 256,
                a < 256,
        ;
        (r << 24) | (g << 16) | (b << 8) | a
    }
}

/// Hands out the channels of one pixel, one byte per request.
pub struct PixelChannelIterator {
    px: Pixel,
    channels: u8,
    counter: u8,
}

impl PixelChannelIterator {
    /// The bytes that are still to come, in order.
    pub closed spec fn remaining(&self) -> Seq<u8> {
        let all = channel_seq(self.px, self.channels);
        if self.counter <= all.len() {
            all.skip(self.counter as int)
        } else {
            Seq::empty()
        }
    }

    /// The next channel byte, or `None` once all have been handed out.
    pub fn next(&mut self) -> (item: Option<u8>)
        ensures
            old(self).remaining().len() == 0 ==> item is None && final(self).remaining()
                == old(self).remaining(),
            old(self).remaining().len() > 0 ==> item == Some(old(self).remaining()[0])
                && final(self).remaining() == old(self).remaining().drop_first(),
    {
        let val = match (self.channels, self.counter) {
            (3, 0) => Some(self.px.r),
            (3, 1) => Some(self.px.g),
            (3, 2) => Some(self.px.b),
            (4, 0) => Some(self.px.r),
            (4, 1) => Some(self.px.g),
            (4, 2) => Some(self.px.b),
            (4, 3) => Some(self.px.a),
            _ => None,
        };
        if val.is_some() {
            self.counter += 1;
            assert(final(self).remaining() =~= old(self).remaining().drop_first());
        }
        val
    }
}

} // verus!
