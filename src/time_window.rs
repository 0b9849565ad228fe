//! The trailing window of block timestamps and its median.
use vstd::prelude::*;
use vstd::relations::{sorted_by, total_ordering};
use vstd::seq_lib::lemma_sorted_unique;

use std::collections::VecDeque;

verus! {

broadcast use vstd::seq_lib::group_to_multiset_ensures;

/// How many recent timestamps the window keeps.
pub const WINDOW_CAPACITY: usize = 11;

/// The order that timestamps are sorted by.
pub open spec fn ascending() -> spec_fn(u64, u64) -> bool {
    |a: u64, b: u64| a <= b
}

/// The timestamps in ascending order.
pub open spec fn sorted_times(s: Seq<u64>) -> Seq<u64> {
    s.sort_by(ascending())
}

/// Twice the classic median of a non-empty sequence: twice the middle of the
/// sorted sequence for an odd length, the sum of the two middle values for an
/// even one. Doubling keeps the half of an even median exact.
pub open spec fn twice_median(s: Seq<u64>) -> nat {
    let t = sorted_times(s);
    let n = s.len() as int;
    if n % 2 == 1 {
        2 * (t[n / 2] as nat)
    } else {
        (t[n / 2 - 1] as nat) + (t[n / 2] as nat)
    }
}

/// The window after one timestamp is recorded: once it holds
/// `WINDOW_CAPACITY` entries, the oldest leaves before the new one enters.
pub open spec fn window_push(w: Seq<u64>, t: u64) -> Seq<u64> {
    if w.len() >= WINDOW_CAPACITY {
        w.drop_first().push(t)
    } else {
        w.push(t)
    }
}

/// The window after the timestamps of `ts` are recorded in order, starting
/// from `w`.
pub open spec fn window_push_all(w: Seq<u64>, ts: Seq<u64>) -> Seq<u64>
    decreases ts.len(),
{
    if ts.len() == 0 {
        w
    } else {
        window_push(window_push_all(w, ts.drop_last()), ts.last())
    }
}

/// Recording timestamps into an empty window leaves exactly the last
/// `WINDOW_CAPACITY` of them, oldest first: every earlier one has been evicted.
pub proof fn lemma_window_keeps_latest(ts: Seq<u64>)
    ensures
        window_push_all(Seq::empty(), ts) == ts.subrange(
            if ts.len() > WINDOW_CAPACITY {
                ts.len() - WINDOW_CAPACITY
            } else {
                0
            },
            ts.len() as int,
        ),
    decreases ts.len(),
{
    if ts.len() > 0 {
        lemma_window_keeps_latest(ts.drop_last());
        let n = ts.len() as int;
        let start = if n > WINDOW_CAPACITY { n - WINDOW_CAPACITY } else { 0 };
        let prev_start = if n - 1 > WINDOW_CAPACITY { n - 1 - WINDOW_CAPACITY } else { 0 };
        let w = ts.drop_last().subrange(prev_start, n - 1);
        if w.len() >= WINDOW_CAPACITY {
            assert(w.drop_first().push(ts.last()) =~= ts.subrange(start, n));
        } else {
            assert(w.push(ts.last()) =~= ts.subrange(start, n));
        }
    }
}

proof fn lemma_ascending_total()
    ensures
        total_ordering(ascending()),
{
}

/// Whether a sequence is in ascending order.
pub open spec fn is_ascending(s: Seq<u64>) -> bool {
    forall|i: int, j: int| 0 <= i < j < s.len() ==> s[i] <= s[j]
}

/// A sequence in ascending order with the same elements as `s` is the sorted
/// form of `s`.
proof fn lemma_sorted_times_unique(s: Seq<u64>, t: Seq<u64>)
    requires
        is_ascending(t),
        t.to_multiset() == s.to_multiset(),
    ensures
        sorted_times(s) == t,
{
    lemma_ascending_total();
    s.lemma_sort_by_ensures(ascending());
    assert(sorted_by(t, ascending())) by {
        assert forall|i: int, j: int| 0 <= i < j < t.len() implies #[trigger] (ascending())(
            t[i],
            t[j],
        ) by {}
    }
    lemma_sorted_unique(t, sorted_times(s), ascending());
}

/// The timestamps of `times` in ascending order.
fn sort_times(times: &VecDeque<u64>) -> (r: Vec<u64>)
    ensures
        sorted_times(times@) == r@,
{
    let mut sorted: Vec<u64> = Vec::new();
    let mut i: usize = 0;
    while i < times.len()
        invariant
            i <= times@.len(),
            is_ascending(sorted@),
            sorted@.to_multiset() == times@.subrange(0, i as int).to_multiset(),
        decreases times@.len() - i,
    {
        let x = times[i];
        let mut p: usize = 0;
        while p < sorted.len() && sorted[p] <= x
            invariant
                p <= sorted@.len(),
                forall|k: int| 0 <= k < p ==> sorted@[k] <= x,
            decreases sorted@.len() - p,
        {
            p = p + 1;
        }
        let ghost before = sorted@;
        sorted.insert(p, x);
        proof {
            assert(sorted@ == before.insert(p as int, x));
            assert forall|a: int, b: int| 0 <= a < b < sorted@.len() implies sorted@[a]
                <= sorted@[b] by {
                if a < p && b > p {
                    assert(sorted@[a] == before[a]);
                    assert(sorted@[b] == before[b - 1]);
                }
            }
            assert(times@.subrange(0, i + 1) =~= times@.subrange(0, i as int).push(x));
        }
        i = i + 1;
    }
    proof {
        assert(times@.subrange(0, i as int) =~= times@);
        lemma_sorted_times_unique(times@, sorted@);
    }
    sorted
}

/// Twice the median of the timestamps, or `None` when there are none. Twice
/// the median is an integer where the median itself may end in one half.
pub fn median(block_times: &VecDeque<u64>) -> (r: Option<u128>)
    ensures
        block_times@.len() == 0 ==> r is None,
        block_times@.len() > 0 ==> r == Some(twice_median(block_times@) as u128),
{
    let sorted = sort_times(block_times);
    let len = sorted.len();
    proof {
        lemma_sorted_times_len(block_times@);
    }
    if len == 0 {
        None
    } else if len % 2 == 1 {
        Some(2 * (sorted[len / 2] as u128))
    } else {
        Some(sorted[len / 2 - 1] as u128 + sorted[len / 2] as u128)
    }
}

/// The most recent timestamps, oldest first, at most `WINDOW_CAPACITY` of
/// them.
pub struct TimeWindow {
    times: VecDeque<u64>,
}

impl View for TimeWindow {
    type V = Seq<u64>;

    closed spec fn view(&self) -> Seq<u64> {
        self.times@
    }
}

impl TimeWindow {
    /// The window never holds more than `WINDOW_CAPACITY` timestamps.
    pub open spec fn wf(&self) -> bool {
        self@.len() <= WINDOW_CAPACITY
    }

    /// An empty window.
    pub fn new() -> (r: TimeWindow)
        ensures
            r.wf(),
            r@ == Seq::<u64>::empty(),
    {
        TimeWindow { times: VecDeque::with_capacity(WINDOW_CAPACITY) }
    }

    /// Records a timestamp, evicting the oldest one first when the window is
    /// full.
    pub fn push(&mut self, time: u64)
        requires
            old(self).wf(),
        ensures
            final(self).wf(),
            final(self)@ == window_push(old(self)@, time),
    {
        if self.times.len() >= WINDOW_CAPACITY {
            self.times.pop_front();
        }
        self.times.push_back(time);
        proof {
            if old(self)@.len() >= WINDOW_CAPACITY {
                assert(old(self)@.subrange(1, old(self)@.len() as int) =~= old(self)@.drop_first());
            }
        }
    }

    /// How many timestamps the window holds.
    pub fn len(&self) -> (r: usize)
        ensures
            r == self@.len(),
    {
        self.times.len()
    }

    /// Whether the window holds `WINDOW_CAPACITY` timestamps.
    pub fn is_full(&self) -> (r: bool)
        ensures
            r == (self@.len() == WINDOW_CAPACITY),
    {
        self.times.len() == WINDOW_CAPACITY
    }

    /// Twice the median of the timestamps held, `None` when there are none.
    pub fn median(&self) -> (r: Option<u128>)
        ensures
            self@.len() == 0 ==> r is None,
            self@.len() > 0 ==> r == Some(twice_median(self@) as u128),
    {
        median(&self.times)
    }

    /// The timestamps held, oldest first.
    pub fn to_vec(&self) -> (r: Vec<u64>)
        ensures
            r@ == self@,
    {
        let mut r: Vec<u64> = Vec::new();
        let mut i: usize = 0;
        while i < self.times.len()
            invariant
                i <= self@.len(),
                r@ == self@.subrange(0, i as int),
            decreases self@.len() - i,
        {
            r.push(self.times[i]);
            assert(self@.subrange(0, i + 1) =~= self@.subrange(0, i as int).push(self@[i as int]));
            i = i + 1;
        }
        assert(self@.subrange(0, i as int) =~= self@);
        r
    }
}

proof fn lemma_sorted_times_len(s: Seq<u64>)
    ensures
        sorted_times(s).len() == s.len(),
{
    lemma_ascending_total();
    s.lemma_sort_by_ensures(ascending());
    assert(s.to_multiset().len() == s.len());
    assert(sorted_times(s).to_multiset().len() == sorted_times(s).len());
}

} // verus!
