//! Rolling window of recent feature frames for one symbol.
use vstd::prelude::*;
use std::collections::VecDeque;

verus! {

/// Rolling window of the most recent frames. A push into a full window
/// drops the oldest frame first; a window of capacity zero never counts as
/// full after its first frame and keeps every frame.
pub struct ObservationWindow<T> {
    capacity: usize,
    frames: VecDeque<T>,
}

/// Frames after pushing `frame` onto `frames` in a window of capacity `cap`.
pub open spec fn window_push<T>(frames: Seq<T>, cap: nat, frame: T) -> Seq<T> {
    if frames.len() == cap && frames.len() > 0 {
        frames.drop_first().push(frame)
    } else {
        frames.push(frame)
    }
}

impl<T> ObservationWindow<T> {
    pub closed spec fn cap(&self) -> nat {
        self.capacity as nat
    }

    /// Frames, oldest first.
    pub closed spec fn contents(&self) -> Seq<T> {
        self.frames@
    }

    pub fn new(capacity: usize) -> (r: Self)
        ensures
            r.cap() == capacity,
            r.contents() == Seq::<T>::empty(),
    {
        ObservationWindow { capacity, frames: VecDeque::with_capacity(capacity) }
    }

    pub fn capacity(&self) -> (r: usize)
        ensures
            r == self.cap(),
    {
        self.capacity
    }

    pub fn len(&self) -> (r: usize)
        ensures
            r == self.contents().len(),
    {
        self.frames.len()
    }

    pub fn is_empty(&self) -> (r: bool)
        ensures
            r == (self.contents().len() == 0),
    {
        self.frames.len() == 0
    }

    pub fn push(&mut self, frame: T)
        ensures
            final(self).cap() == old(self).cap(),
            final(self).contents() == window_push(old(self).contents(), old(self).cap(), frame),
    {
        if self.frames.len() == self.capacity {
            let _ = self.frames.pop_front();
        }
        self.frames.push_back(frame);
    }

    /// The frames, oldest first.
    pub fn frames(&self) -> (r: &VecDeque<T>)
        ensures
            r@ == self.contents(),
    {
        &self.frames
    }

    /// The newest frame, if any.
    pub fn latest(&self) -> (r: Option<&T>)
        ensures
            r == if self.contents().len() == 0 {
                None::<&T>
            } else {
                Some(&self.contents().last())
            },
    {
        let n = self.frames.len();
        if n == 0 {
            None
        } else {
            Some(&self.frames[n - 1])
        }
    }
}

/// The frames of a window of vectors, each by its view, oldest first.
pub open spec fn frame_views<E>(frames: Seq<Vec<E>>) -> Seq<Seq<E>> {
    frames.map_values(|v: Vec<E>| v@)
}

impl<E: Copy> ObservationWindow<Vec<E>> {
    /// All frames laid end to end, oldest first.
    pub fn flattened(&self) -> (r: Vec<E>)
        ensures
            r@ == frame_views(self.contents()).flatten(),
    {
        let ghost fv = frame_views(self.contents());
        let mut out: Vec<E> = Vec::new();
        let n = self.frames.len();
        let mut i: usize = 0;
        while i < n
            invariant
                n == self.contents().len(),
                fv == frame_views(self.contents()),
                i <= n,
                out@ == fv.take(i as int).flatten_alt(),
            decreases n - i,
        {
            let frame = &self.frames[i];
            let mut j: usize = 0;
            let ghost before = out@;
            while j < frame.len()
                invariant
                    j <= frame.len(),
                    out@ == before + frame@.take(j as int),
                decreases frame.len() - j,
            {
                out.push(frame[j]);
                j = j + 1;
                assert(out@ =~= before + frame@.take(j as int));
            }
            assert(frame@.take(frame@.len() as int) =~= frame@);
            assert(fv.take(i + 1).drop_last() =~= fv.take(i as int));
            assert(fv.take(i + 1).last() == frame@);
            i = i + 1;
        }
        proof {
            assert(fv.take(n as int) =~= fv);
            fv.lemma_flatten_and_flatten_alt_are_equivalent();
        }
        out
    }
}

/// With a positive capacity the window never holds more frames than its
/// capacity, and after a push it holds the newest of them.
pub proof fn lemma_window_bounded<T>(frames: Seq<T>, cap: nat, frame: T)
    requires
        cap > 0,
        frames.len() <= cap,
    ensures
        window_push(frames, cap, frame).len() <= cap,
        window_push(frames, cap, frame).last() == frame,
        window_push(frames, cap, frame).drop_last() == if frames.len() == cap {
            frames.drop_first()
        } else {
            frames
        },
{
    let r = window_push(frames, cap, frame);
    assert(r.drop_last() =~= if frames.len() == cap {
        frames.drop_first()
    } else {
        frames
    });
}

} // verus!
