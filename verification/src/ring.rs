//! Bounded FIFO ring of recorded frames.
//!
//! Pushing appends at the back and evicts the oldest entry when the ring
//! is full; reads yield frames in chronological (insertion) order.

use vstd::prelude::*;

verus! {

/// The frames of `s` whose timestamps lie in `[start, end]`, in order.
pub open spec fn window_frames(s: Seq<(u64, String)>, start: u64, end: u64) -> Seq<(u64, String)>
    decreases s.len(),
{
    if s.len() == 0 {
        Seq::empty()
    } else {
        let rest = window_frames(s.drop_last(), start, end);
        if start <= s.last().0 <= end {
            rest.push(s.last())
        } else {
            rest
        }
    }
}

/// A bounded FIFO of `(timestamp_ms, raw_frame)` entries.
#[derive(Debug)]
pub struct FrameRing {
    pub frames: Vec<(u64, String)>,
    pub capacity: usize,
}

impl FrameRing {
    /// The ring never holds more than its capacity, which is positive.
    pub open spec fn wf(self) -> bool {
        self.capacity >= 1 && self.frames@.len() <= self.capacity
    }

    /// Creates an empty ring of the given capacity.
    pub fn new(capacity: usize) -> (r: FrameRing)
        requires
            capacity >= 1,
        ensures
            r.wf(),
            r.capacity == capacity,
            r.frames@.len() == 0,
    {
        FrameRing { frames: Vec::new(), capacity }
    }

    /// The number of buffered frames.
    pub fn len(&self) -> (r: usize)
        ensures
            r == self.frames@.len(),
    {
        self.frames.len()
    }

    /// Appends a frame, evicting the oldest when the ring is full.
    pub fn push(&mut self, ts_ms: u64, raw: String)
        requires
            old(self).wf(),
        ensures
            final(self).wf(),
            final(self).capacity == old(self).capacity,
            final(self).frames@ == (if old(self).frames@.len() < old(self).capacity {
                old(self).frames@.push((ts_ms, raw))
            } else {
                old(self).frames@.skip(1).push((ts_ms, raw))
            }),
    {
        if self.frames.len() == self.capacity {
            let ghost f0 = self.frames@;
            self.frames.remove(0);
            proof {
                assert(self.frames@ =~= f0.skip(1));
            }
        }
        self.frames.push((ts_ms, raw));
    }

    /// The buffered frames whose timestamps lie in `[start_ms, end_ms]`,
    /// oldest first.
    pub fn frames_in_window(&self, start_ms: u64, end_ms: u64) -> (r: Vec<(u64, String)>)
        ensures
            r@ == window_frames(self.frames@, start_ms, end_ms),
    {
        let mut out: Vec<(u64, String)> = Vec::new();
        let mut i: usize = 0;
        while i < self.frames.len()
            invariant
                i <= self.frames@.len(),
                out@ == window_frames(self.frames@.take(i as int), start_ms, end_ms),
            decreases self.frames@.len() - i,
        {
            proof {
                assert(self.frames@.take(i + 1).drop_last() =~= self.frames@.take(i as int));
                assert(self.frames@.take(i + 1).last() == self.frames@[i as int]);
            }
            let ts = self.frames[i].0;
            if start_ms <= ts && ts <= end_ms {
                let raw = self.frames[i].1.clone();
                out.push((ts, raw));
                proof {
                    assert(out@ =~= window_frames(self.frames@.take(i + 1), start_ms, end_ms));
                }
            }
            i = i + 1;
        }
        proof {
            assert(self.frames@.take(self.frames@.len() as int) =~= self.frames@);
        }
        out
    }
}

} // verus!
