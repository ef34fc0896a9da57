//! What holds of every decoding session: the cache keeps the pixel written
//! last, a run repeats the pixel before it, the end marker comes before any
//! tag, and a fault stays.

use vstd::prelude::*;
use crate::chunk::classify;
use crate::chunk::QOIChunk;
use crate::model::end_marker;
use crate::model::lemma_after_wf;
use crate::model::Session;
use crate::model::Signal;
use crate::pixel::hash_slot;

verus! {

/// The cache is direct-mapped and the last write wins: a pixel that a
/// chunk has reconstructed sits in its slot for as long as no later chunk
/// reconstructs a pixel of the same slot.
pub proof fn lemma_cache_keeps_last(s: Session, j: nat, k: nat)
    requires
        s.wf(),
        j < k,
        s.after(j).reconstructs(),
        forall|m: nat|
            j < m < k && #[trigger] s.after(m).reconstructs() ==> hash_slot(s.after(m).emitted())
                != hash_slot(s.after(j).emitted()),
    ensures
        s.after(k).seen[hash_slot(s.after(j).emitted())] == s.after(j).emitted(),
    decreases k,
{
    let before = s.after((k - 1) as nat);
    lemma_after_wf(s, (k - 1) as nat);
    if j < k - 1 {
        lemma_cache_keeps_last(s, j, (k - 1) as nat);
        if before.reconstructs() {
            assert(hash_slot(before.emitted()) != hash_slot(s.after(j).emitted()));
        }
    }
}

/// Once a chunk has reconstructed a pixel, the pixel decoded last sits in
/// the cache at its slot, so the pixels of a later run do too.
pub proof fn lemma_prev_is_cached(s: Session, j: nat, k: nat)
    requires
        s.wf(),
        j < k,
        s.after(j).reconstructs(),
    ensures
        s.after(k).seen[hash_slot(s.after(k).prev)] == s.after(k).prev,
    decreases k,
{
    lemma_after_wf(s, (k - 1) as nat);
    if j < k - 1 {
        lemma_prev_is_cached(s, j, (k - 1) as nat);
    }
}

/// A request leaves a slot of the cache alone unless it reconstructs a
/// pixel of that slot.
proof fn lemma_slot_kept(t: Session, slot: int)
    requires
        t.wf(),
        0 <= slot < 64,
        t.reconstructs() ==> hash_slot(t.emitted()) != slot,
    ensures
        t.next().seen[slot] == t.seen[slot],
{
}

/// After a request that yields a pixel, the cache holds that pixel at
/// its slot, if a chunk reconstructed it or if the cache held the pixel
/// before already.
proof fn lemma_yield_cached(t: Session)
    requires
        t.wf(),
        t.signal() is Pixel,
        t.reconstructs() || t.seen[hash_slot(t.prev)] == t.prev,
    ensures
        t.next().seen[hash_slot(t.emitted())] == t.emitted(),
{
}

/// The cache holds, in its slot, the pixel that was yielded last for that
/// slot, whether a chunk reconstructed it or a run repeated it, as soon as
/// some chunk has reconstructed a pixel. (A run that comes before every
/// other chunk repeats the opaque black of the start, which the cache does
/// not hold.)
pub proof fn lemma_cache_holds_latest(s: Session, first: nat, j: nat, k: nat)
    requires
        s.wf(),
        first <= j < k,
        s.after(first).reconstructs(),
        s.after(j).signal() is Pixel,
        forall|m: nat|
            j < m < k && #[trigger] s.after(m).reconstructs() ==> hash_slot(s.after(m).emitted())
                != hash_slot(s.after(j).emitted()),
    ensures
        s.after(k).seen[hash_slot(s.after(j).emitted())] == s.after(j).emitted(),
    decreases k,
{
    let before = s.after((k - 1) as nat);
    lemma_after_wf(s, (k - 1) as nat);
    assert(s.after(k) == before.next());
    if j == k - 1 {
        if !before.reconstructs() {
            lemma_prev_is_cached(s, first, j);
        }
        lemma_yield_cached(before);
    } else {
        lemma_cache_holds_latest(s, first, j, (k - 1) as nat);
        lemma_slot_kept(before, hash_slot(s.after(j).emitted()));
    }
}

/// A run chunk of raw payload `n` yields the pixel before it on each of
/// the next `n + 1` requests. These requests use up the one byte of the
/// chunk and nothing else, and leave the pixel before and the cache as
/// they were. After them no repetition is owed, so the request that
/// follows looks at the window again.
pub proof fn lemma_run_repeats(s: Session, n: u8, i: nat)
    requires
        s.wf(),
        s.meets_run(),
        s.head() == QOIChunk::Run(n),
        i <= n,
    ensures
        s.after(i).signal() == Signal::Pixel(s.prev),
        s.after(i + 1) == (Session {
            unread: s.unread.skip(s.pending as int),
            window: s.refilled(),
            pending: 1,
            run_active: true,
            run_length: (n - i) as nat,
            ..s
        }),
        i == n ==> !s.after(i + 1).in_run(),
    decreases i,
{
    if i > 0 {
        lemma_run_repeats(s, n, (i - 1) as nat);
    }
}

/// The end marker is looked for before any tag: a window that holds it
/// ends the stream, although its first byte alone would be a cache
/// reference. Nothing is read after it.
pub proof fn lemma_end_marker_first(s: Session)
    requires
        s.wf(),
        !s.in_run(),
        !s.starved(),
        s.refilled() == end_marker(),
    ensures
        classify(s.refilled(), s.prev.a) == QOIChunk::Index(0),
        s.signal() == Signal::End,
        s.next().ended,
        s.next().signal() == Signal::End,
        s.next().next() == s.next(),
{
    let t = s.next();
    assert(t.refilled() =~= t.window);
    assert(t.unread.skip(0) =~= t.unread);
}

/// A session that has reported a fault reports it again on every later
/// request, and reads nothing.
pub proof fn lemma_fault_stays(s: Session)
    requires
        s.signal() == Signal::Fault,
    ensures
        s.next().ended,
        s.next().unread == s.unread,
        s.next().signal() == Signal::Fault,
        s.next().next() == s.next(),
{
}

} // verus!
