//! The mathematical model of a decoding session: what one request for a
//! pixel does to the session, and what a whole stream decodes to.

use vstd::prelude::*;
use crate::chunk::classify;
use crate::chunk::reconstruct;
use crate::chunk::wire_size;
use crate::chunk::QOIChunk;
use crate::pixel::hash_slot;
use crate::pixel::Pixel;

verus! {

/// The eight bytes that close a stream.
pub open spec fn end_marker() -> Seq<u8> {
    seq![0u8, 0u8, 0u8, 0u8, 0u8, 0u8, 0u8, 1u8]
}

/// The pixel that stands before the first chunk: opaque black.
pub open spec fn first_prev() -> Pixel {
    Pixel { r: 0, g: 0, b: 0, a: 255 }
}

/// The cache before the first chunk: every slot holds the all-zero pixel.
pub open spec fn first_seen() -> Seq<Pixel> {
    Seq::new(64, |i: int| Pixel { r: 0, g: 0, b: 0, a: 0 })
}

/// What one request for a pixel answers.
pub enum Signal {
    /// The next pixel of the image.
    Pixel(Pixel),
    /// The end marker was met: the stream is over.
    End,
    /// The source ran out before the window could be refilled.
    Fault,
}

/// The state of a decoding session.
#[verifier::ext_equal]
pub struct Session {
    /// The bytes of the source that have not been read into the window.
    pub unread: Seq<u8>,
    /// The eight bytes of lookahead.
    pub window: Seq<u8>,
    /// How many leading bytes of the window the last chunk used up.
    pub pending: nat,
    /// The pixel decoded last.
    pub prev: Pixel,
    /// The cache of 64 pixels.
    pub seen: Seq<Pixel>,
    /// Whether a run is being expanded.
    pub run_active: bool,
    /// How many repetitions of the run are still owed.
    pub run_length: nat,
    /// Whether the session has answered with an end or a fault.
    pub ended: bool,
}

impl Session {
    /// A fresh session over the chunk bytes of a source.
    pub open spec fn start(chunk_bytes: Seq<u8>) -> Session {
        Session {
            unread: chunk_bytes,
            window: Seq::new(8, |i: int| 0u8),
            pending: 8,
            prev: first_prev(),
            seen: first_seen(),
            run_active: false,
            run_length: 0,
            ended: false,
        }
    }

    /// The shape that every reachable session has. A session that has
    /// nothing pending is one that sits on the end marker.
    pub open spec fn wf(self) -> bool {
        &&& self.window.len() == 8
        &&& self.seen.len() == 64
        &&& self.pending <= 8
        &&& self.run_length <= 63
        &&& (self.pending == 0 ==> self.window == end_marker())
    }

    /// Whether the next request is answered from a run, without a look at
    /// the window.
    pub open spec fn in_run(self) -> bool {
        self.run_active && self.run_length > 0
    }

    /// Whether the source cannot supply the bytes that the window needs.
    pub open spec fn starved(self) -> bool {
        self.unread.len() < self.pending
    }

    /// The window after it has been shifted left by the pending bytes and
    /// filled up from the source.
    pub open spec fn refilled(self) -> Seq<u8> {
        self.window.subrange(self.pending as int, 8) + self.unread.subrange(
            0,
            self.pending as int,
        )
    }

    /// All the bytes of the stream that no chunk has used up yet: the
    /// unused part of the window, then what the source still holds.
    pub open spec fn lookahead(self) -> Seq<u8> {
        self.window.subrange(self.pending as int, 8) + self.unread
    }

    /// The chunk at the head of the refilled window.
    pub open spec fn head(self) -> QOIChunk {
        classify(self.refilled(), self.prev.a)
    }

    /// The answer to the next request. A run in progress answers first;
    /// else the end marker is looked for before any tag is.
    pub open spec fn signal(self) -> Signal {
        if self.in_run() {
            Signal::Pixel(self.prev)
        } else if self.starved() {
            Signal::Fault
        } else if self.refilled() == end_marker() {
            Signal::End
        } else if self.head() is Run {
            Signal::Pixel(self.prev)
        } else {
            Signal::Pixel(reconstruct(self.head(), self.prev, self.seen))
        }
    }

    /// The pixel that the next request yields; the pixel before, if it
    /// yields none.
    pub open spec fn emitted(self) -> Pixel {
        match self.signal() {
            Signal::Pixel(p) => p,
            _ => self.prev,
        }
    }

    /// The session after the next request.
    pub open spec fn next(self) -> Session {
        if self.in_run() {
            Session { run_length: (self.run_length - 1) as nat, ..self }
        } else if self.starved() {
            Session { run_active: false, ended: true, ..self }
        } else {
            let window = self.refilled();
            let unread = self.unread.skip(self.pending as int);
            if window == end_marker() {
                Session { unread, window, pending: 0, run_active: false, ended: true, ..self }
            } else {
                match self.head() {
                    QOIChunk::Run(n) => Session {
                        unread,
                        window,
                        pending: 1,
                        run_active: true,
                        run_length: n as nat,
                        ..self
                    },
                    chunk => {
                        let pixel = reconstruct(chunk, self.prev, self.seen);
                        Session {
                            unread,
                            window,
                            pending: wire_size(chunk),
                            prev: pixel,
                            seen: self.seen.update(hash_slot(pixel), pixel),
                            run_active: false,
                            ..self
                        }
                    },
                }
            }
        }
    }

    /// The session after `k` requests.
    pub open spec fn after(self, k: nat) -> Session
        decreases k,
    {
        if k == 0 {
            self
        } else {
            self.after((k - 1) as nat).next()
        }
    }

    /// Whether the next request decodes a chunk other than a run, and so
    /// reconstructs a pixel and writes it to the cache.
    pub open spec fn reconstructs(self) -> bool {
        &&& !self.in_run()
        &&& !self.starved()
        &&& self.refilled() != end_marker()
        &&& !(self.head() is Run)
    }

    /// Whether the next request meets a run chunk at the head of the
    /// window.
    pub open spec fn meets_run(self) -> bool {
        &&& !self.in_run()
        &&& !self.starved()
        &&& self.refilled() != end_marker()
        &&& self.head() is Run
    }

    /// A bound on the requests that can still be answered with a pixel.
    pub open spec fn budget(self) -> nat {
        64 * self.unread.len() + if self.run_active {
            self.run_length
        } else {
            0
        }
    }

    /// All the pixels that the session still yields, up to its end or
    /// fault. (In a well-formed session every pixel uses up budget; the
    /// test for it is there for the others.)
    pub open spec fn pixels(self) -> Seq<Pixel>
        decreases self.budget(),
    {
        match self.signal() {
            Signal::Pixel(p) => if self.next().budget() < self.budget() {
                seq![p] + self.next().pixels()
            } else {
                Seq::empty()
            },
            _ => Seq::empty(),
        }
    }

    /// Whether the session comes to a clean end, as opposed to a fault.
    pub open spec fn ends_clean(self) -> bool
        decreases self.budget(),
    {
        match self.signal() {
            Signal::Pixel(p) => if self.next().budget() < self.budget() {
                self.next().ends_clean()
            } else {
                false
            },
            Signal::End => true,
            Signal::Fault => false,
        }
    }

    /// The session as it is left by the request that reports its end or
    /// fault.
    pub open spec fn settled(self) -> Session
        decreases self.budget(),
    {
        match self.signal() {
            Signal::Pixel(p) => if self.next().budget() < self.budget() {
                self.next().settled()
            } else {
                self
            },
            _ => self.next(),
        }
    }
}

/// A request keeps a session well formed, and one that yields a pixel
/// uses up budget, so a session is over after finitely many requests.
pub proof fn lemma_next_wf(s: Session)
    requires
        s.wf(),
    ensures
        s.next().wf(),
        s.signal() is Pixel ==> s.next().budget() < s.budget(),
        !(s.signal() is Pixel) ==> s.next().ended,
{
    if !s.in_run() && !s.starved() {
        let window = s.refilled();
        assert(window.len() == 8);
        if window != end_marker() {
            assert(s.pending != 0) by {
                if s.pending == 0 {
                    assert(window =~= s.window);
                }
            }
            let tag = window[0];
            assert(tag % 64 <= 63);
        }
    }
}

/// What a session yields in all is what its next request yields, then
/// what the session after it yields.
pub proof fn lemma_pixels_unfold(s: Session)
    requires
        s.wf(),
    ensures
        s.signal() matches Signal::Pixel(p) ==> {
            &&& s.pixels() == seq![p] + s.next().pixels()
            &&& s.ends_clean() == s.next().ends_clean()
            &&& s.settled() == s.next().settled()
        },
        s.signal() is End ==> {
            &&& s.pixels() == Seq::<Pixel>::empty()
            &&& s.ends_clean()
            &&& s.settled() == s.next()
        },
        s.signal() is Fault ==> {
            &&& s.pixels() == Seq::<Pixel>::empty()
            &&& !s.ends_clean()
            &&& s.settled() == s.next()
        },
{
    lemma_next_wf(s);
}

/// Every session that is reached from a well-formed one is well formed.
pub proof fn lemma_after_wf(s: Session, k: nat)
    requires
        s.wf(),
    ensures
        s.after(k).wf(),
    decreases k,
{
    if k > 0 {
        lemma_after_wf(s, (k - 1) as nat);
        lemma_next_wf(s.after((k - 1) as nat));
    }
}

} // verus!
