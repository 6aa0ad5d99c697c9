//! Capped ring buffer for incoming lines.
//!
//! Every line ever received gets a stable, monotonically increasing *absolute
//! number*. The filter view stores absolute numbers, so it stays correct even
//! when old lines are evicted from the front of the ring.

use std::collections::VecDeque;
use vstd::prelude::*;

verus! {

/// What a ring buffer stands for: everything that was ever pushed, and how
/// many of the newest lines are kept.
pub struct RingView {
    /// Every line ever pushed; a line's absolute number is its index.
    pub history: Seq<Seq<char>>,
    pub cap: nat,
}

impl RingView {
    /// Lines ever pushed.
    pub open spec fn total(self) -> nat {
        self.history.len()
    }

    /// Lines evicted so far, which is the number of the oldest line still held.
    pub open spec fn dropped(self) -> nat {
        if self.total() <= self.cap {
            0
        } else {
            (self.total() - self.cap) as nat
        }
    }

    /// Lines currently held.
    pub open spec fn held(self) -> nat {
        (self.total() - self.dropped()) as nat
    }

    /// Whether line number `abs` is still held.
    pub open spec fn holds(self, abs: int) -> bool {
        self.dropped() <= abs < self.total()
    }

    /// One more line.
    pub open spec fn pushed(self, line: Seq<char>) -> RingView {
        RingView { history: self.history.push(line), cap: self.cap }
    }
}

pub struct RingBuffer {
    lines: VecDeque<String>,
    cap: usize,
    /// Total lines ever pushed (== absolute number of the next line).
    total: u64,
    /// Lines evicted from the front (== absolute number of the oldest live line).
    dropped: u64,
    history: Ghost<Seq<Seq<char>>>,
}

impl View for RingBuffer {
    type V = RingView;

    closed spec fn view(&self) -> RingView {
        RingView { history: self.history@, cap: self.cap as nat }
    }
}

impl RingBuffer {
    /// The ring holds exactly the newest lines of the history.
    pub closed spec fn wf(&self) -> bool {
        &&& self.cap > 0
        &&& self.total == self@.total()
        &&& self.dropped == self@.dropped()
        &&& self.lines@.len() == self@.held()
        &&& forall|i: int|
            0 <= i < self.lines@.len() ==> (#[trigger] self.lines@[i])@ == self.history@[self.dropped
                + i]
    }

    /// An empty ring that holds at most `cap` lines.
    pub fn new(cap: usize) -> (ring: RingBuffer)
        requires
            cap > 0,
        ensures
            ring.wf(),
            ring@ == (RingView { history: Seq::empty(), cap: cap as nat }),
    {
        let initial: usize = if cap < 1048576 {
            cap
        } else {
            1048576
        };
        RingBuffer {
            lines: VecDeque::with_capacity(initial),
            cap,
            total: 0,
            dropped: 0,
            history: Ghost(Seq::empty()),
        }
    }

    /// Append a line, evicting the oldest one if at capacity.
    /// Returns the absolute number assigned to the new line.
    pub fn push(&mut self, line: String) -> (abs: u64)
        requires
            old(self).wf(),
            old(self)@.total() < u64::MAX,
        ensures
            final(self).wf(),
            final(self)@ == old(self)@.pushed(line@),
            abs == old(self)@.total(),
    {
        if self.lines.len() == self.cap {
            self.lines.pop_front();
            self.dropped += 1;
        }
        let abs = self.total;
        self.history = Ghost(self.history@.push(line@));
        self.lines.push_back(line);
        self.total += 1;
        abs
    }

    /// Number of lines currently held.
    pub fn len(&self) -> (n: usize)
        requires
            self.wf(),
        ensures
            n == self@.held(),
    {
        self.lines.len()
    }

    /// Number of lines evicted so far.
    pub fn dropped(&self) -> (n: u64)
        requires
            self.wf(),
        ensures
            n == self@.dropped(),
    {
        self.dropped
    }

    /// Fetch a line by absolute number (None if already evicted).
    pub fn get_abs(&self, abs: u64) -> (line: Option<&str>)
        requires
            self.wf(),
        ensures
            line is Some <==> self@.holds(abs as int),
            line matches Some(text) ==> text@ == self@.history[abs as int],
    {
        if abs < self.dropped || abs >= self.total {
            return None;
        }
        Some(self.lines[(abs - self.dropped) as usize].as_str())
    }

    /// `(abs_number, line)` for everything currently buffered, oldest first.
    pub fn iter_abs(&self) -> (lines: Vec<(u64, &str)>)
        requires
            self.wf(),
        ensures
            lines@.len() == self@.held(),
            forall|i: int|
                0 <= i < lines@.len() ==> (#[trigger] lines@[i]).0 == self@.dropped() + i
                    && lines@[i].1@ == self@.history[self@.dropped() + i],
    {
        let mut lines: Vec<(u64, &str)> = Vec::new();
        let mut i: usize = 0;
        while i < self.lines.len()
            invariant
                self.wf(),
                i <= self.lines@.len(),
                lines@.len() == i,
                forall|k: int|
                    0 <= k < i ==> (#[trigger] lines@[k]).0 == self@.dropped() + k
                        && lines@[k].1@ == self@.history[self@.dropped() + k],
            decreases self.lines@.len() - i,
        {
            lines.push((self.dropped + i as u64, self.lines[i].as_str()));
            i += 1;
        }
        lines
    }
}

/// Pushing never renumbers a line: whatever is held before and after a push
/// is found under the same number with the same text, and the only line that
/// can leave is the oldest one held.
pub proof fn law_push_keeps_numbers(ring: RingView, line: Seq<char>, abs: int)
    requires
        ring.cap > 0,
        0 <= abs < ring.total(),
    ensures
        ring.pushed(line).history[abs] == ring.history[abs],
        ring.pushed(line).holds(abs) ==> ring.holds(abs),
        ring.holds(abs) && !ring.pushed(line).holds(abs) ==> {
            &&& abs == ring.dropped()
            &&& ring.held() == ring.cap
        },
{
}

/// The ring is bounded: it never holds more than its capacity, holds every
/// line until the capacity is reached, and always holds the newest line.
pub proof fn law_ring_bounded(ring: RingView, line: Seq<char>)
    requires
        ring.cap > 0,
    ensures
        ring.held() <= ring.cap,
        ring.total() <= ring.cap ==> ring.dropped() == 0,
        ring.pushed(line).holds(ring.total() as int),
        ring.pushed(line).history[ring.total() as int] == line,
        ring.held() + ring.dropped() == ring.total(),
{
}

/// Everything pushed is held until there is more than fits; from then on the
/// ring holds just the newest lines, as many as fit.
pub proof fn law_ring_holds_the_newest(ring: RingView, abs: int)
    ensures
        ring.total() == ring.history.len(),
        ring.history.len() <= ring.cap ==> ring.held() == ring.history.len(),
        ring.history.len() > ring.cap ==> ring.held() == ring.cap,
        ring.holds(abs) <==> 0 <= abs < ring.history.len() && ring.history.len() - abs <= ring.cap,
        ring.dropped() + ring.held() == ring.history.len(),
{
}

/// A pushed line is the last of the history, under the number that was next,
/// and nothing else changes.
pub proof fn law_push_appends(ring: RingView, line: Seq<char>)
    ensures
        ring.pushed(line).history.len() == ring.history.len() + 1,
        ring.pushed(line).history.last() == line,
        ring.pushed(line).history.drop_last() == ring.history,
        ring.pushed(line).cap == ring.cap,
{
    assert(ring.pushed(line).history.drop_last() =~= ring.history);
}

} // verus!
