//! The decoding session: header, stream window, chunk decoder, pixel
//! reconstructor and run expander, over a source held in memory.

use vstd::prelude::*;
use vstd::slice::slice_subrange;
use crate::chunk::classify;
use crate::chunk::reconstruct;
use crate::chunk::tag_2bit;
use crate::chunk::QOIChunk;
use crate::model::end_marker;
use crate::model::lemma_next_wf;
use crate::model::lemma_pixels_unfold;
use crate::model::Session;
use crate::model::Signal;
use crate::pixel::channel_seq;
use crate::pixel::packed;
use crate::pixel::Pixel;
use crate::wrapped::WrappedU8;

verus! {

/// The number of bytes that a header takes.
pub const HEADER_SIZE: usize = 14;

/// The four bytes that open a header: the ASCII letters `qoif`.
pub open spec fn magic() -> Seq<u8> {
    seq![0x71u8, 0x6fu8, 0x69u8, 0x66u8]
}

/// The number that four bytes spell, most significant byte first.
pub open spec fn be_word(bytes: Seq<u8>) -> int {
    bytes[0] * 0x100_0000 + bytes[1] * 0x1_0000 + bytes[2] * 0x100 + bytes[3]
}

/// The metadata at the start of a source.
#[derive(Debug, PartialEq, Eq, Structural, Copy, Clone)]
pub struct QOIHeader {
    pub width: u32,
    pub height: u32,
    pub channels: u8,
    pub colorspace: u8,
}

impl QOIHeader {
    /// The number of bytes that one row of the image takes when every
    /// pixel is laid out with `channels` bytes, if that number can be
    /// held.
    pub fn row_pitch(&self) -> (pitch: Option<usize>)
        ensures
            match pitch {
                Some(bytes) => bytes == self.width * self.channels,
                None => self.width * self.channels > usize::MAX,
            },
    {
        let width: u64 = self.width as u64;
        let channels: u64 = self.channels as u64;
        assert(width * channels <= 0xFFFF_FFFF * 0xFF) by (nonlinear_arith)
            requires
                width <= 0xFFFF_FFFF,
                channels <= 0xFF,
        ;
        let bytes: u64 = width * channels;
        if bytes > usize::MAX as u64 {
            None
        } else {
            Some(bytes as usize)
        }
    }
}

/// The header that the first fourteen bytes of a source spell.
pub open spec fn header_of(bytes: Seq<u8>) -> QOIHeader {
    QOIHeader {
        width: be_word(bytes.subrange(4, 8)) as u32,
        height: be_word(bytes.subrange(8, 12)) as u32,
        channels: bytes[12],
        colorspace: bytes[13],
    }
}

/// A read that the source could not satisfy.
#[derive(Debug, PartialEq, Eq, Structural, Copy, Clone)]
pub struct ShortRead {
    /// The number of bytes asked for.
    pub needed: usize,
    /// The number of bytes that were left.
    pub available: usize,
}

/// Why a source was not accepted.
#[derive(Debug, PartialEq, Eq, Structural, Copy, Clone)]
pub enum QOIError {
    /// The source ends before the header does.
    IO(ShortRead),
    /// The source does not open with the magic bytes.
    IncorrectMagic,
}

/// The answer to one request for a pixel.
#[derive(Debug, PartialEq, Eq)]
pub enum EvaluatedChunk {
    /// The next pixel.
    Decoded(Pixel),
    /// The stream is over.
    EndMarker,
    /// The stream cannot be decoded any further; the text says why.
    Faulty(String),
}

impl EvaluatedChunk {
    /// The answer without its text.
    pub open spec fn signal(self) -> Signal {
        match self {
            EvaluatedChunk::Decoded(p) => Signal::Pixel(p),
            EvaluatedChunk::EndMarker => Signal::End,
            EvaluatedChunk::Faulty(_) => Signal::Fault,
        }
    }
}

/// The text of the fault that a source gives when it ends too early.
pub open spec fn read_fault() -> Seq<char> {
    "Failed to read source"@
}

/// A source whose header has been read and accepted.
pub struct ImageDecoder {
    source: Vec<u8>,
    cursor: usize,
    header: QOIHeader,
}

impl ImageDecoder {
    #[verifier::type_invariant]
    spec fn inv(&self) -> bool {
        self.cursor <= self.source.len()
    }

    /// The bytes of the source that come after the header and have not
    /// been read yet.
    pub closed spec fn unread(&self) -> Seq<u8> {
        self.source@.skip(self.cursor as int)
    }

    /// The header as a value.
    pub closed spec fn header_view(&self) -> QOIHeader {
        self.header
    }

    /// Takes a source and reads its header. The source is refused if it
    /// is shorter than a header, or if it does not open with the magic
    /// bytes.
    pub fn new(source: Vec<u8>) -> (made: Result<Self, QOIError>)
        ensures
            match made {
                Ok(decoder) => {
                    &&& source@.len() >= HEADER_SIZE
                    &&& source@.subrange(0, 4) == magic()
                    &&& decoder.header_view() == header_of(source@)
                    &&& decoder.unread() == source@.skip(HEADER_SIZE as int)
                },
                Err(QOIError::IO(fault)) => {
                    &&& source@.len() < HEADER_SIZE
                    &&& fault.needed == HEADER_SIZE
                    &&& fault.available == source@.len()
                },
                Err(QOIError::IncorrectMagic) => {
                    &&& source@.len() >= HEADER_SIZE
                    &&& source@.subrange(0, 4) != magic()
                },
            },
    {
        match Self::parse_header(source.as_slice()) {
            Ok(header) => Ok(Self { source, cursor: HEADER_SIZE, header }),
            Err(e) => Err(e),
        }
    }

    /// Whether `buf` is exactly the magic bytes.
    pub fn verify_magic(buf: &[u8]) -> (hit: bool)
        ensures
            hit == (buf@ == magic()),
    {
        let hit = buf.len() == 4 && buf[0] == 0x71 && buf[1] == 0x6f && buf[2] == 0x69 && buf[3]
            == 0x66;
        assert(hit == (buf@ =~= magic()));
        hit
    }

    /// Reads the header off the front of `source`.
    pub fn parse_header(source: &[u8]) -> (parsed: Result<QOIHeader, QOIError>)
        ensures
            match parsed {
                Ok(header) => {
                    &&& source@.len() >= HEADER_SIZE
                    &&& source@.subrange(0, 4) == magic()
                    &&& header == header_of(source@)
                },
                Err(QOIError::IO(fault)) => {
                    &&& source@.len() < HEADER_SIZE
                    &&& fault.needed == HEADER_SIZE
                    &&& fault.available == source@.len()
                },
                Err(QOIError::IncorrectMagic) => {
                    &&& source@.len() >= HEADER_SIZE
                    &&& source@.subrange(0, 4) != magic()
                },
            },
    {
        if source.len() < HEADER_SIZE {
            return Err(QOIError::IO(ShortRead { needed: HEADER_SIZE, available: source.len() }));
        }
        if Self::verify_magic(slice_subrange(source, 0, 4)) {
            Ok(
                QOIHeader {
                    width: be_u32(slice_subrange(source, 4, 8)),
                    height: be_u32(slice_subrange(source, 8, 12)),
                    channels: source[12],
                    colorspace: source[13],
                },
            )
        } else {
            Err(QOIError::IncorrectMagic)
        }
    }

    /// Starts the decoding session over the bytes after the header.
    pub fn chunks_iter(self) -> (chunks: DecodeChunks)
        ensures
            chunks@ == Session::start(self.unread()),
            chunks@.wf(),
            chunks.header_view() == self.header_view(),
    {
        DecodeChunks::new(self)
    }

    /// The header that was read off the source.
    pub fn header(&self) -> (header: &QOIHeader)
        ensures
            *header == self.header_view(),
    {
        &self.header
    }
}

/// The number that four bytes spell, most significant byte first.
pub fn be_u32(bytes: &[u8]) -> (word: u32)
    requires
        bytes@.len() == 4,
    ensures
        word == be_word(bytes@),
{
    let b0: u32 = bytes[0] as u32;
    let b1: u32 = bytes[1] as u32;
    let b2: u32 = bytes[2] as u32;
    let b3: u32 = bytes[3] as u32;
    assert((b0 << 24) | (b1 << 16) | (b2 << 8) | b3 == b0 * 0x100_0000 + b1 * 0x1_0000 + b2 * 0x100
        + b3) by (bit_vector)
        requires
            b0 < 256,
            b1 < 256,
            b2 < 256,
            b3 < 256,
    ;
    (b0 << 24) | (b1 << 16) | (b2 << 8) | b3
}

/// A decoding session: it answers one request for a pixel at a time.
pub struct DecodeChunks {
    decoder: ImageDecoder,
    ended: bool,
    prev: Pixel,
    seen: [Pixel; 64],
    window: [u8; 8],
    window_processed: usize,
    run_active: bool,
    run_length: u8,
}

impl View for DecodeChunks {
    type V = Session;

    closed spec fn view(&self) -> Session {
        Session {
            unread: self.decoder.unread(),
            window: self.window@,
            pending: self.window_processed as nat,
            prev: self.prev,
            seen: self.seen@,
            run_active: self.run_active,
            run_length: self.run_length as nat,
            ended: self.ended,
        }
    }
}

impl DecodeChunks {
    #[verifier::type_invariant]
    spec fn inv(&self) -> bool {
        &&& self.window_processed <= 8
        &&& self.run_length <= 63
        &&& (self.window_processed == 0 ==> self.window@ == end_marker())
    }

    /// The header of the source that is being decoded.
    pub closed spec fn header_view(&self) -> QOIHeader {
        self.decoder.header_view()
    }

    /// A fresh session over the bytes that follow the header: the pixel
    /// before the first chunk is opaque black, the cache is all zero, no
    /// run is in progress, and the whole window is still to be filled.
    pub fn new(decoder: ImageDecoder) -> (chunks: Self)
        ensures
            chunks@ == Session::start(decoder.unread()),
            chunks@.wf(),
            chunks.header_view() == decoder.header_view(),
    {
        let chunks = Self {
            decoder: decoder,
            ended: false,
            seen: [Pixel::zero();64],
            prev: Pixel::new(0, 0, 0, 255),
            window: [0;8],
            window_processed: 8,
            run_active: false,
            run_length: 0,
        };
        assert(chunks@ =~= Session::start(decoder.unread()));
        chunks
    }

    /// Whether the session has reported its end or a fault.
    pub fn ended(&self) -> (over: bool)
        ensures
            over == self@.ended,
    {
        self.ended
    }

    /// Classifies the chunk at the head of the window. Every tag byte
    /// belongs to one of the six kinds, so a chunk always comes back.
    pub fn decode_next_chunk(&self) -> (found: Option<QOIChunk>)
        ensures
            found == Some(classify(self@.window, self@.prev.a)),
    {
        let tag: u8 = self.window[0];
        let chunk: QOIChunk = match tag {
            0xFE => QOIChunk::ColorRGB(
                Pixel::new(self.window[1], self.window[2], self.window[3], self.prev.a),
            ),
            0xFF => QOIChunk::ColorRGBA(
                Pixel::new(self.window[1], self.window[2], self.window[3], self.window[4]),
            ),
            x if tag_2bit(x, 0b00) => {
                assert(tag & 0x3F == tag % 64) by (bit_vector);
                QOIChunk::Index(tag & 0x3F)
            },
            x if tag_2bit(x, 0b01) => {
                assert((tag >> 4) & 0x03 == (tag / 16) % 4) by (bit_vector);
                assert((tag >> 2) & 0x03 == (tag / 4) % 4) by (bit_vector);
                assert(tag & 0x03 == tag % 4) by (bit_vector);
                QOIChunk::Diff(
                    ((tag >> 4) & 0x03).wrapping_sub(2),
                    ((tag >> 2) & 0x03).wrapping_sub(2),
                    (tag & 0x03).wrapping_sub(2),
                )
            },
            x if tag_2bit(x, 0b10) => {
                let diffs: u8 = self.window[1];
                assert(tag & 0x3F == tag % 64) by (bit_vector);
                assert((diffs >> 4) & 0x0F == diffs / 16) by (bit_vector);
                assert(diffs & 0x0F == diffs % 16) by (bit_vector);
                QOIChunk::Luma {
                    diff_green: (tag & 0x3F).wrapping_sub(32),
                    drdg: ((diffs >> 4) & 0x0F).wrapping_sub(8),
                    dbdg: (diffs & 0x0F).wrapping_sub(8),
                }
            },
            _ => {
                assert(tag & 0x3F == tag % 64) by (bit_vector);
                QOIChunk::Run(tag & 0x3F)
            },
        };
        Some(chunk)
    }

    /// The pixel that a chunk stands for in the present state. A run is
    /// expanded by the caller and never comes here.
    pub fn transform_chunk(&self, chunk: QOIChunk) -> (pixel: Pixel)
        requires
            !(chunk is Run),
            chunk matches QOIChunk::Index(i) ==> i < 64,
        ensures
            pixel == reconstruct(chunk, self@.prev, self@.seen),
    {
        match chunk {
            QOIChunk::ColorRGB(p) | QOIChunk::ColorRGBA(p) => p,
            QOIChunk::Index(index) => self.seen[index as usize],
            QOIChunk::Diff(dr, dg, db) => Pixel::new(
                (WrappedU8(self.prev.r) + dr).into_inner(),
                (WrappedU8(self.prev.g) + dg).into_inner(),
                (WrappedU8(self.prev.b) + db).into_inner(),
                self.prev.a,
            ),
            QOIChunk::Luma { diff_green, drdg, dbdg } => Pixel::new(
                (WrappedU8(self.prev.r) + diff_green + drdg).into_inner(),
                (WrappedU8(self.prev.g) + diff_green).into_inner(),
                (WrappedU8(self.prev.b) + diff_green + dbdg).into_inner(),
                self.prev.a,
            ),
            QOIChunk::Run(..) => self.prev,
        }
    }

    /// Whether the window holds the end marker.
    fn at_end_marker(&self) -> (hit: bool)
        ensures
            hit == (self@.window == end_marker()),
    {
        let hit = self.window[0] == 0 && self.window[1] == 0 && self.window[2] == 0
            && self.window[3] == 0 && self.window[4] == 0 && self.window[5] == 0
            && self.window[6] == 0 && self.window[7] == 1;
        assert(hit == (self.window@ =~= end_marker()));
        hit
    }

    /// Shifts the window left by the bytes that the last chunk used up
    /// and fills the vacated tail from the source. Nothing changes, and
    /// `false` comes back, if the source cannot supply that many bytes.
    fn refill(&mut self) -> (filled: bool)
        ensures
            filled == !old(self)@.starved(),
            filled ==> final(self)@ == (Session {
                window: old(self)@.refilled(),
                unread: old(self)@.unread.skip(old(self)@.pending as int),
                ..old(self)@
            }),
            !filled ==> final(self)@ == old(self)@,
            final(self).header_view() == old(self).header_view(),
    {
        proof {
            use_type_invariant(&*self);
            use_type_invariant(&self.decoder);
        }
        let n: usize = self.window_processed;
        if self.decoder.source.len() - self.decoder.cursor < n {
            return false;
        }
        let from: usize = self.decoder.cursor;
        let mut fresh: [u8; 8] = [0;8];
        let mut i: usize = 0;
        while i < 8
            invariant
                i <= 8,
                n <= 8,
                from + n <= self.decoder.source.len(),
                n == self.window_processed,
                from == self.decoder.cursor,
                forall|k: int|
                    0 <= k < i ==> fresh@[k] == if k + n < 8 {
                        self.window@[k + n]
                    } else {
                        self.decoder.source@[from + k + n - 8]
                    },
            decreases 8 - i,
        {
            if i + n < 8 {
                fresh[i] = self.window[i + n];
            } else {
                fresh[i] = self.decoder.source[from + (i + n - 8)];
            }
            i += 1;
        }
        assert(fresh@ =~= self@.refilled());
        assert(self.decoder.source@.skip((from + n) as int) =~= self@.unread.skip(n as int));
        assert(n == 0 ==> fresh@ =~= self.window@);
        self.window = fresh;
        self.decoder.cursor = from + n;
        true
    }

    /// Answers one request for a pixel. A run in progress is served
    /// first; else the window is refilled, the end marker is looked for,
    /// and only then is the head of the window decoded as a chunk. Once
    /// the end or a fault has been reported, every later request reports
    /// the same again and reads nothing.
    pub fn next_chunk(&mut self) -> (out: EvaluatedChunk)
        ensures
            old(self)@.wf(),
            final(self)@ == old(self)@.next(),
            out.signal() == old(self)@.signal(),
            out matches EvaluatedChunk::Faulty(text) ==> text@ == read_fault(),
            final(self).header_view() == old(self).header_view(),
    {
        proof {
            use_type_invariant(&*self);
        }
        if self.run_active {
            if self.run_length > 0 {
                self.run_length -= 1;
                return EvaluatedChunk::Decoded(self.prev);
            } else {
                self.run_active = false;
            }
        }
        if !self.refill() {
            self.ended = true;
            return EvaluatedChunk::Faulty("Failed to read source".to_string());
        }
        if self.at_end_marker() {
            self.window_processed = 0;
            self.ended = true;
            EvaluatedChunk::EndMarker
        } else {
            match self.decode_next_chunk() {
                Some(chunk) => {
                    self.window_processed = chunk.get_size();
                    if let QOIChunk::Run(run_length) = chunk {
                        self.run_active = true;
                        self.run_length = run_length;
                    } else {
                        let pixel = self.transform_chunk(chunk);
                        self.seen[pixel.hash_index()] = pixel;
                        self.prev = pixel;
                    }
                    EvaluatedChunk::Decoded(self.prev)
                },
                None => {
                    self.ended = true;
                    EvaluatedChunk::Faulty("Unrecognized chunk".to_string())
                },
            }
        }
    }

    /// The session as a sequence: `None` at the end of the stream, an
    /// error where the stream cannot be decoded further.
    pub fn next(&mut self) -> (item: Option<Result<Pixel, String>>)
        ensures
            old(self)@.wf(),
            final(self)@ == old(self)@.next(),
            match old(self)@.signal() {
                Signal::Pixel(p) => item == Some(Ok::<Pixel, String>(p)),
                Signal::End => item is None,
                Signal::Fault => item matches Some(Err(text)) && text@ == read_fault(),
            },
            final(self).header_view() == old(self).header_view(),
    {
        match self.next_chunk() {
            EvaluatedChunk::Decoded(px) => Some(Ok(px)),
            EvaluatedChunk::EndMarker => None,
            EvaluatedChunk::Faulty(s) => Some(Err(s)),
        }
    }

    /// Decodes the rest of the stream and lays the pixels out as bytes,
    /// three a pixel where `channels` is 3, else four. A stream that
    /// does not come to a clean end gives the fault instead. Either way
    /// the session is over afterwards.
    pub fn collect_channels(&mut self, channels: u8) -> (out: Result<Vec<u8>, String>)
        ensures
            match out {
                Ok(bytes) => old(self)@.ends_clean() && bytes@ == packed(
                    old(self)@.pixels(),
                    channels,
                ),
                Err(text) => !old(self)@.ends_clean() && text@ == read_fault(),
            },
            final(self)@ == old(self)@.settled(),
            final(self)@.ended,
            final(self).header_view() == old(self).header_view(),
    {
        let mut bytes: Vec<u8> = Vec::new();
        let ghost done: Seq<Pixel> = Seq::empty();
        proof {
            assert(done + self@.pixels() =~= self@.pixels());
        }
        loop
            invariant
                old(self)@.pixels() == done + self@.pixels(),
                old(self)@.ends_clean() == self@.ends_clean(),
                old(self)@.settled() == self@.settled(),
                bytes@ == packed(done, channels),
                self.header_view() == old(self).header_view(),
            decreases self@.budget(),
        {
            let ghost before = self@;
            let answer = self.next_chunk();
            proof {
                lemma_pixels_unfold(before);
                lemma_next_wf(before);
            }
            match answer {
                EvaluatedChunk::Decoded(pixel) => {
                    proof {
                        assert(done + before.pixels() =~= done.push(pixel) + self@.pixels());
                        assert(done.push(pixel).drop_last() =~= done);
                        done = done.push(pixel);
                    }
                    push_channels(&mut bytes, pixel, channels);
                },
                EvaluatedChunk::EndMarker => {
                    proof {
                        assert(done + before.pixels() =~= done);
                    }
                    return Ok(bytes);
                },
                EvaluatedChunk::Faulty(text) => {
                    return Err(text);
                },
            }
        }
    }
}

/// Appends the channels of one pixel to `bytes`: three where `channels`
/// is 3, else four.
fn push_channels(bytes: &mut Vec<u8>, pixel: Pixel, channels: u8)
    ensures
        final(bytes)@ == old(bytes)@ + channel_seq(
            pixel,
            if channels == 3 {
                3
            } else {
                4
            },
        ),
{
    let mut it = if channels == 3 {
        pixel.to_channels3_iter()
    } else {
        pixel.to_channels4_iter()
    };
    let ghost all = it.remaining();
    loop
        invariant
            bytes@ + it.remaining() == old(bytes)@ + all,
        ensures
            bytes@ == old(bytes)@ + all,
        decreases it.remaining().len(),
    {
        let ghost rest = it.remaining();
        match it.next() {
            Some(byte) => {
                let ghost sofar = bytes@;
                bytes.push(byte);
                assert(bytes@ + it.remaining() =~= sofar + rest);
            },
            None => {
                assert(bytes@ + it.remaining() =~= bytes@);
                break ;
            },
        }
    }
}

} // verus!
