//! Action indices and the fixed-capacity ring buffer of feature frames.
use vstd::prelude::*;
use crate::action::{Action, spec_as_index};

verus! {

/// Maps discrete gym actions to categorical policy indices (Hold=0, Buy=1, Sell=2).
pub fn action_index(action: Action) -> (r: i64)
    ensures
        r == spec_as_index(action),
{
    match action {
        Action::Hold => 0,
        Action::Buy => 1,
        Action::Sell => 2,
    }
}

pub open spec fn spec_action_from_index(index: i64) -> Action {
    if index == 0 {
        Action::Hold
    } else if index == 1 {
        Action::Buy
    } else {
        Action::Sell
    }
}

/// Maps a policy index back to a gym action; every index but 0 and 1 is Sell.
pub fn action_from_index(index: i64) -> (r: Action)
    ensures
        r == spec_action_from_index(index),
{
    match index {
        0 => Action::Hold,
        1 => Action::Buy,
        _ => Action::Sell,
    }
}

/// Fixed-capacity ring of feature frames: the newest `capacity` frames are
/// kept, older ones are overwritten.
pub struct FeatureRingBuffer<T> {
    capacity: usize,
    frames: Vec<Option<T>>,
    head: usize,
    len: usize,
}

impl<T> FeatureRingBuffer<T> {
    /// Slots hold exactly the frames of the contents, in ring order.
    pub closed spec fn well_formed(&self) -> bool {
        &&& self.frames@.len() == self.capacity
        &&& self.capacity <= isize::MAX
        &&& self.len <= self.capacity
        &&& (self.capacity > 0 ==> self.head < self.capacity)
        &&& (self.capacity == 0 ==> self.head == 0 && self.len == 0)
        &&& (self.len < self.capacity ==> self.head == self.len)
        &&& forall|i: int|
            0 <= i < self.capacity ==> (#[trigger] self.frames@[i] is Some <==> (i < self.len
                || self.len == self.capacity))
    }

    pub closed spec fn cap(&self) -> nat {
        self.capacity as nat
    }

    /// Frames oldest-first.
    pub closed spec fn contents(&self) -> Seq<T> {
        let start = if self.len == self.capacity {
            self.head as int
        } else {
            0
        };
        Seq::new(
            self.len as nat,
            |i: int| self.frames@[(start + i) % (self.capacity as int)]->Some_0,
        )
    }

    pub fn new(capacity: usize) -> (r: Self)
        requires
            capacity <= isize::MAX,
        ensures
            r.well_formed(),
            r.cap() == capacity,
            r.contents() == Seq::<T>::empty(),
            r.contents().len() <= r.cap(),
    {
        let mut frames: Vec<Option<T>> = Vec::new();
        for i in 0..capacity
            invariant
                frames@.len() == i,
                forall|k: int| 0 <= k < i ==> #[trigger] frames@[k] is None,
        {
            frames.push(None);
        }
        let r = FeatureRingBuffer { capacity, frames, head: 0, len: 0 };
        assert(r.contents() =~= Seq::<T>::empty());
        r
    }

    pub fn len(&self) -> (r: usize)
        requires
            self.well_formed(),
        ensures
            r == self.contents().len(),
    {
        self.len
    }

    /// A well-formed ring never holds more frames than its capacity.
    pub proof fn lemma_contents_fit(&self)
        requires
            self.well_formed(),
        ensures
            self.contents().len() <= self.cap(),
    {
    }

    /// Pushes a frame, overwriting the oldest one when full.
    pub fn push(&mut self, frame: T)
        requires
            old(self).well_formed(),
            old(self).cap() > 0,
        ensures
            final(self).well_formed(),
            final(self).cap() == old(self).cap(),
            final(self).contents() == ring_push(old(self).contents(), old(self).cap(), frame),
            final(self).contents().len() <= final(self).cap(),
    {
        let ghost before = self.contents();
        let ghost old_len = self.len;
        let ghost old_head = self.head;
        let ghost old_frames = self.frames@;
        let cap = self.capacity;
        self.frames.set(self.head, Some(frame));
        self.head = (self.head + 1) % self.capacity;
        if self.len < self.capacity {
            self.len = self.len + 1;
        }
        proof {
            let c = cap as int;
            let h = old_head as int;
            lemma_mod_wrap(h + 1, c);
            if old_len < cap {
                assert(old_head == old_len);
                assert forall|i: int| 0 <= i < self.len implies #[trigger] self.contents()[i]
                    == before.push(frame)[i] by {
                    lemma_mod_wrap(i, c);
                    if self.len == cap {
                        assert(self.head == 0);
                        lemma_mod_wrap(0 + i, c);
                    }
                    if i < old_len {
                        lemma_mod_wrap(0 + i, c);
                    }
                }
                assert(self.contents() =~= before.push(frame));
            } else {
                assert forall|i: int| 0 <= i < self.len implies #[trigger] self.contents()[i]
                    == before.drop_first().push(frame)[i] by {
                    let nh = self.head as int;
                    lemma_mod_wrap(nh + i, c);
                    lemma_mod_wrap(h + i + 1, c);
                    lemma_mod_wrap(h + i, c);
                }
                assert(self.contents() =~= before.drop_first().push(frame));
            }
        }
    }
}

impl<T: Clone> FeatureRingBuffer<T> {
    /// Stored frames, oldest first, each a clone of the stored one.
    pub fn snapshot(&self) -> (r: Vec<T>)
        requires
            self.well_formed(),
        ensures
            r@.len() == self.contents().len(),
            forall|i: int| 0 <= i < r@.len() ==> cloned(self.contents()[i], #[trigger] r@[i]),
    {
        let mut out: Vec<T> = Vec::new();
        if self.len == 0 {
            return out;
        }
        let start = if self.len == self.capacity {
            self.head
        } else {
            0
        };
        for i in 0..self.len
            invariant
                self.well_formed(),
                self.len > 0,
                start == if self.len == self.capacity {
                    self.head
                } else {
                    0
                },
                out@.len() == i,
                forall|k: int| 0 <= k < i ==> cloned(self.contents()[k], #[trigger] out@[k]),
        {
            let idx = (start + i) % self.capacity;
            proof {
                lemma_mod_wrap(start + i, self.capacity as int);
            }
            match &self.frames[idx] {
                Some(f) => {
                    assert(self.contents()[i as int] == *f);
                    out.push(f.clone());
                },
                None => {
                    assert(false);
                },
            }
        }
        out
    }
}

/// Fixed-capacity ring of transitions: pushing past capacity overwrites the
/// oldest one.
pub struct ReplayBuffer<T> {
    ring: FeatureRingBuffer<T>,
}

impl<T> ReplayBuffer<T> {
    pub closed spec fn well_formed(&self) -> bool {
        self.ring.well_formed()
    }

    pub closed spec fn cap(&self) -> nat {
        self.ring.cap()
    }

    /// Stored transitions, oldest first.
    pub closed spec fn contents(&self) -> Seq<T> {
        self.ring.contents()
    }

    pub fn new(capacity: usize) -> (r: Self)
        requires
            capacity <= isize::MAX,
        ensures
            r.well_formed(),
            r.cap() == capacity,
            r.contents() == Seq::<T>::empty(),
            r.contents().len() <= r.cap(),
    {
        ReplayBuffer { ring: FeatureRingBuffer::new(capacity) }
    }

    pub fn capacity(&self) -> (r: usize)
        requires
            self.well_formed(),
        ensures
            r == self.cap(),
    {
        self.ring.capacity
    }

    pub fn len(&self) -> (r: usize)
        requires
            self.well_formed(),
        ensures
            r == self.contents().len(),
    {
        self.ring.len()
    }

    pub fn is_empty(&self) -> (r: bool)
        requires
            self.well_formed(),
        ensures
            r == (self.contents().len() == 0),
    {
        self.ring.len() == 0
    }

    pub fn is_full(&self) -> (r: bool)
        requires
            self.well_formed(),
        ensures
            r == (self.contents().len() == self.cap()),
    {
        self.ring.len() == self.ring.capacity
    }

    /// A well-formed buffer never holds more transitions than its capacity.
    pub proof fn lemma_contents_fit(&self)
        requires
            self.well_formed(),
        ensures
            self.contents().len() <= self.cap(),
    {
        self.ring.lemma_contents_fit();
    }

    /// Pushes a transition, overwriting the oldest one when full.
    pub fn push(&mut self, transition: T)
        requires
            old(self).well_formed(),
            old(self).cap() > 0,
        ensures
            final(self).well_formed(),
            final(self).cap() == old(self).cap(),
            final(self).contents() == ring_push(old(self).contents(), old(self).cap(), transition),
            final(self).contents().len() <= final(self).cap(),
    {
        self.ring.push(transition);
    }
}

impl<T: Clone> ReplayBuffer<T> {
    /// Stored transitions in insertion order (oldest first), each a clone.
    pub fn snapshot(&self) -> (r: Vec<T>)
        requires
            self.well_formed(),
        ensures
            r@.len() == self.contents().len(),
            forall|i: int| 0 <= i < r@.len() ==> cloned(self.contents()[i], #[trigger] r@[i]),
    {
        self.ring.snapshot()
    }
}

/// An age one insertion later: one more, held at `usize::MAX`.
pub open spec fn older(age: usize) -> usize {
    if age == usize::MAX {
        age
    } else {
        (age + 1) as usize
    }
}

/// Recency-bounded FIFO of finished episodes. Each push ages the episodes
/// already held by one insertion and evicts the oldest one when the FIFO is
/// full; the new episode enters with age zero.
pub struct TrajectoryReplay<T> {
    capacity: usize,
    items: Vec<T>,
    ages: Vec<usize>,
}

impl<T> TrajectoryReplay<T> {
    pub closed spec fn well_formed(&self) -> bool {
        &&& self.capacity >= 1
        &&& self.items@.len() == self.ages@.len()
        &&& self.items@.len() <= self.capacity
    }

    pub closed spec fn cap(&self) -> nat {
        self.capacity as nat
    }

    /// Episodes held, oldest first.
    pub closed spec fn episodes(&self) -> Seq<T> {
        self.items@
    }

    /// Ages of the episodes held, in the same order.
    pub closed spec fn episode_ages(&self) -> Seq<usize> {
        self.ages@
    }

    /// A FIFO for `capacity` episodes; a capacity of zero holds one.
    pub fn new(capacity: usize) -> (r: Self)
        ensures
            r.well_formed(),
            r.cap() == if capacity == 0 { 1 } else { capacity as nat },
            r.episodes() == Seq::<T>::empty(),
            r.episode_ages() == Seq::<usize>::empty(),
    {
        let capacity = if capacity == 0 { 1 } else { capacity };
        TrajectoryReplay { capacity, items: Vec::new(), ages: Vec::new() }
    }

    pub fn len(&self) -> (r: usize)
        requires
            self.well_formed(),
        ensures
            r == self.episodes().len(),
    {
        self.items.len()
    }

    pub fn is_empty(&self) -> (r: bool)
        requires
            self.well_formed(),
        ensures
            r == (self.episodes().len() == 0),
    {
        self.items.len() == 0
    }

    /// The episodes held, oldest first.
    pub fn trajectories(&self) -> (r: &[T])
        ensures
            r@ == self.episodes(),
    {
        self.items.as_slice()
    }

    /// Insertions since each held episode was pushed, oldest episode first.
    pub fn ages(&self) -> (r: &[usize])
        ensures
            r@ == self.episode_ages(),
    {
        self.ages.as_slice()
    }

    /// Pushes a finished episode: every held episode ages by one, the oldest
    /// is evicted when the FIFO is full, and the new one enters with age zero.
    pub fn push(&mut self, trajectory: T)
        requires
            old(self).well_formed(),
        ensures
            final(self).well_formed(),
            final(self).cap() == old(self).cap(),
            ({
                let pushed = old(self).episodes().push(trajectory);
                let aged = old(self).episode_ages().map_values(|a: usize| older(a)).push(0usize);
                if old(self).episodes().len() == old(self).cap() {
                    &&& final(self).episodes() == pushed.drop_first()
                    &&& final(self).episode_ages() == aged.drop_first()
                } else {
                    &&& final(self).episodes() == pushed
                    &&& final(self).episode_ages() == aged
                }
            }),
    {
        let ghost old_ages = self.ages@;
        let n = self.ages.len();
        let mut i: usize = 0;
        while i < n
            invariant
                n == self.ages@.len(),
                n == old_ages.len(),
                i <= n,
                self.items@ == old(self).items@,
                self.capacity == old(self).capacity,
                old(self).well_formed(),
                old_ages == old(self).ages@,
                forall|k: int| 0 <= k < i ==> #[trigger] self.ages@[k] == older(old_ages[k]),
                forall|k: int| i <= k < n ==> #[trigger] self.ages@[k] == old_ages[k],
            decreases n - i,
        {
            let a = self.ages[i];
            let next = if a == usize::MAX { a } else { a + 1 };
            self.ages[i] = next;
            i = i + 1;
        }
        assert(self.ages@ =~= old_ages.map_values(|a: usize| older(a)));
        if self.items.len() == self.capacity {
            let _ = self.items.remove(0);
            let _ = self.ages.remove(0);
        }
        self.items.push(trajectory);
        self.ages.push(0);
        proof {
            let aged = old_ages.map_values(|a: usize| older(a));
            if n == self.capacity {
                assert(aged.remove(0).push(0usize) =~= aged.push(0usize).drop_first());
                assert(old(self).items@.remove(0).push(trajectory) =~= old(self).items@.push(trajectory).drop_first());
            }
        }
    }
}

/// Each age counts the episodes pushed after it: the oldest of `n` held
/// episodes has age `n - 1`, the newest age zero.
pub open spec fn ages_count_later(ages: Seq<usize>) -> bool {
    forall|k: int| 0 <= k < ages.len() ==> #[trigger] ages[k] == ages.len() - 1 - k
}

/// Starting from an empty FIFO, every push keeps each age equal to the number
/// of episodes pushed after that one, whether or not the oldest is evicted.
pub proof fn lemma_push_keeps_age_order(ages: Seq<usize>)
    requires
        ages_count_later(ages),
        ages.len() < usize::MAX,
    ensures
        ages_count_later(ages.map_values(|a: usize| older(a)).push(0usize)),
        ages.len() > 0 ==> ages_count_later(ages.map_values(|a: usize| older(a)).push(0usize).drop_first()),
{
    let aged = ages.map_values(|a: usize| older(a)).push(0usize);
    assert forall|k: int| 0 <= k < aged.len() implies #[trigger] aged[k] == aged.len() - 1 - k by {
        if k < ages.len() {
            assert(ages[k] == ages.len() - 1 - k);
        }
    }
    if ages.len() > 0 {
        let d = aged.drop_first();
        assert forall|k: int| 0 <= k < d.len() implies #[trigger] d[k] == d.len() - 1 - k by {
            assert(d[k] == aged[k + 1]);
        }
    }
}

/// Contents of a ring of capacity `cap` holding `held` after one more push:
/// appended while there is room, else the oldest is overwritten.
pub open spec fn ring_push<T>(held: Seq<T>, cap: nat, frame: T) -> Seq<T> {
    if held.len() < cap {
        held.push(frame)
    } else {
        held.drop_first().push(frame)
    }
}

/// Contents of a ring of capacity `cap`, built empty, after `frames` were
/// pushed in order.
pub open spec fn ring_after<T>(frames: Seq<T>, cap: nat) -> Seq<T>
    decreases frames.len(),
{
    if frames.len() == 0 {
        Seq::empty()
    } else {
        ring_push(ring_after(frames.drop_last(), cap), cap, frames.last())
    }
}

/// A ring of positive capacity built empty holds, after any pushes, the
/// newest `min(n, cap)` frames, oldest first.
pub proof fn lemma_ring_holds_newest<T>(frames: Seq<T>, cap: nat)
    requires
        cap > 0,
    ensures
        ring_after(frames, cap) == newest(frames, cap),
        ring_after(frames, cap).len() == if frames.len() < cap {
            frames.len()
        } else {
            cap
        },
    decreases frames.len(),
{
    if frames.len() > 0 {
        let prev = frames.drop_last();
        lemma_ring_holds_newest(prev, cap);
        lemma_push_keeps_newest(prev, frames.last(), cap);
        assert(prev.push(frames.last()) =~= frames);
    } else {
        assert(newest(frames, cap) =~= Seq::<T>::empty());
    }
}

/// The last `cap` items of `s` (all of them when there are fewer).
pub open spec fn newest<T>(s: Seq<T>, cap: nat) -> Seq<T> {
    if s.len() <= cap {
        s
    } else {
        s.subrange(s.len() - cap, s.len() as int)
    }
}

/// A ring that holds the newest `cap` of the frames pushed so far still holds
/// the newest `cap` after one more push: with `new` starting empty, the ring
/// always holds the newest `cap` frames in arrival order.
pub proof fn lemma_push_keeps_newest<T>(pushed: Seq<T>, frame: T, cap: nat)
    requires
        cap > 0,
    ensures
        ({
            let held = newest(pushed, cap);
            let next = if held.len() < cap {
                held.push(frame)
            } else {
                held.drop_first().push(frame)
            };
            next == newest(pushed.push(frame), cap)
        }),
{
    let held = newest(pushed, cap);
    if pushed.len() < cap {
        assert(held == pushed);
    } else {
        let n = pushed.len() as int;
        assert(held.drop_first().push(frame) =~= pushed.push(frame).subrange(
            n + 1 - cap,
            n + 1,
        ));
    }
}

/// Below twice the modulus, taking the remainder subtracts it at most once.
proof fn lemma_mod_wrap(x: int, c: int)
    requires
        0 <= x < 2 * c,
    ensures
        x % c == if x < c {
            x
        } else {
            x - c
        },
{
    if x < c {
        vstd::arithmetic::div_mod::lemma_small_mod(x as nat, c as nat);
    } else {
        vstd::arithmetic::div_mod::lemma_small_mod((x - c) as nat, c as nat);
        vstd::arithmetic::div_mod::lemma_mod_add_multiples_vanish(x - c, c);
    }
}

} // verus!
