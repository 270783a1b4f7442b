//! The sliding window aggregator: consumes a time-ordered sequence of
//! timestamps and produces a moving count over a fixed trailing window, for
//! plotting departure-rate curves.

use vstd::prelude::*;

use crate::counting::{count_in, in_range, lemma_count_in_all, lemma_count_in_concat,
    lemma_count_in_none, sorted_times};
use crate::time::{Duration, Time};

verus! {

/// A moving count over a fixed trailing interval. `add` must be fed
/// timestamps in non-decreasing order; each call returns how many of all
/// timestamps fed so far lie within the closed window ending at the new
/// timestamp.
pub struct SlidingWindow {
    window: Duration,
    times: Vec<Time>,
    start: usize,
}

impl SlidingWindow {
    /// Every timestamp ever added, in order.
    pub closed spec fn all_times(&self) -> Seq<Time> {
        self.times@
    }

    /// The position from which timestamps are still inside the current
    /// window.
    pub closed spec fn active_from(&self) -> int {
        self.start as int
    }

    /// The window width in seconds.
    pub closed spec fn width(&self) -> int {
        self.window.seconds as int
    }

    /// The aggregator is well formed when its timestamps are sorted, the
    /// active position is in bounds, everything before it has fallen out of
    /// the window ending at the newest timestamp, and everything after it
    /// is still inside that window.
    pub open spec fn wf(&self) -> bool {
        let all = self.all_times();
        &&& sorted_times(all)
        &&& 0 <= self.active_from() <= all.len()
        &&& forall|j: int|
            0 <= j < self.active_from() ==> (#[trigger] all[j]).seconds + self.width() < all[all.len()
                - 1].seconds
        &&& forall|j: int|
            self.active_from() <= j < all.len() ==> (#[trigger] all[j]).seconds + self.width()
                >= all[all.len() - 1].seconds
    }

    /// Whether `t` may be fed next: inputs must be non-decreasing.
    pub open spec fn can_add(&self, t: Time) -> bool {
        self.all_times().len() > 0 ==> self.all_times().last().seconds <= t.seconds
    }

    /// Whether position `i` ends a run of equal timestamps.
    pub open spec fn run_end(&self, i: int) -> bool {
        i + 1 == self.all_times().len() || self.all_times()[i + 1].seconds
            > self.all_times()[i].seconds
    }

    pub fn new(window: Duration) -> (r: SlidingWindow)
        ensures
            r.wf(),
            r.width() == window.seconds,
            r.all_times() == Seq::<Time>::empty(),
    {
        SlidingWindow { window, times: Vec::new(), start: 0 }
    }

    /// Feeds the next timestamp and returns how many of all timestamps fed
    /// so far lie within `[t - window, t]`, both ends included. The caller
    /// must feed non-decreasing timestamps; this is a precondition, not
    /// re-checked.
    #[verifier::loop_isolation(false)]
    pub fn add(&mut self, t: Time) -> (r: usize)
        requires
            old(self).wf(),
            old(self).can_add(t),
        ensures
            final(self).wf(),
            final(self).width() == old(self).width(),
            final(self).all_times() == old(self).all_times().push(t),
            final(self).can_add(t),
            r == count_in(
                final(self).all_times(),
                t.seconds - final(self).width(),
                t.seconds as int,
            ),
    {
        let threshold = t.saturating_sub(self.window);
        let len = self.times.len();
        while self.start < len && self.times[self.start].seconds < threshold.seconds
            invariant
                self.start <= len,
                self.times@ == old(self).all_times(),
                self.window == old(self).window,
                forall|j: int|
                    0 <= j < self.start ==> (#[trigger] self.times@[j]).seconds + self.window.seconds
                        < t.seconds,
            decreases len - self.start,
        {
            proof {
                let j = self.start as int;
                let all = self.times@;
                if all[j].seconds + self.window.seconds >= t.seconds {
                    // Then the element would not be below the threshold.
                    assert(threshold.seconds == if t.seconds >= self.window.seconds {
                        t.seconds - self.window.seconds
                    } else {
                        0
                    });
                }
            }
            self.start += 1;
        }
        self.times.push(t);
        let r = self.times.len() - self.start;
        proof {
            let all = self.times@;
            let w = self.width();
            let n = all.len();
            let s = self.start as int;
            assert(all.last() == t);
            // Everything before the active position is out of the window.
            assert forall|j: int| 0 <= j < s implies (#[trigger] all[j]).seconds + w
                < all[n - 1].seconds by {}
            // Everything from the active position on is inside the window.
            assert forall|j: int| s <= j < n implies (#[trigger] all[j]).seconds + w >= all[n
                - 1].seconds by {
                if j < n - 1 {
                    assert(old(self).all_times()[j] == all[j]);
                    if j == old(self).active_from() || j > old(self).active_from() {
                        // Was inside the old window, which ended no later.
                        assert(all[j].seconds + w >= old(self).all_times()[old(
                            self,
                        ).all_times().len() - 1].seconds)
                    }
                    if j < old(self).active_from() {
                        assert(false);
                    }
                    // Otherwise the eviction loop stopped at position s.
                    if s < n - 1 {
                        assert(all[s].seconds >= threshold.seconds);
                        assert(all[s].seconds <= all[j].seconds);
                    }
                }
            }
            assert(self.wf());
            // The returned count is exact: the active suffix lies inside
            // the window and the evicted prefix lies outside it.
            let lo = t.seconds - w;
            let hi = t.seconds as int;
            assert forall|j: int| 0 <= j < s implies !in_range(lo, hi, #[trigger] all[j]) by {}
            assert forall|j: int| s <= j < n implies in_range(lo, hi, #[trigger] all[j]) by {}
            let head = all.take(s);
            let tail = all.skip(s);
            assert forall|j: int| 0 <= j < head.len() implies !in_range(
                lo,
                hi,
                #[trigger] head[j],
            ) by {
                assert(head[j] == all[j]);
            }
            assert forall|j: int| 0 <= j < tail.len() implies in_range(
                lo,
                hi,
                #[trigger] tail[j],
            ) by {
                assert(tail[j] == all[j + s]);
            }
            lemma_count_in_none(head, lo, hi);
            lemma_count_in_all(tail, lo, hi);
            assert(all =~= head + tail);
            lemma_count_in_concat(head, tail, lo, hi);
        }
        r
    }

    /// How many timestamps ever added lie within the closed window ending
    /// at `at`, which must be no earlier than the newest timestamp.
    #[verifier::loop_isolation(false)]
    pub fn count_at(&self, at: Time) -> (r: usize)
        requires
            self.wf(),
            self.can_add(at),
        ensures
            r == count_in(self.all_times(), at.seconds - self.width(), at.seconds as int),
    {
        let len = self.times.len();
        let threshold = at.saturating_sub(self.window);
        let mut k = self.start;
        while k < len && self.times[k].seconds < threshold.seconds
            invariant
                self.start <= k <= len,
                forall|j: int|
                    self.start <= j < k ==> (#[trigger] self.times@[j]).seconds < threshold.seconds,
            decreases len - k,
        {
            k += 1;
        }
        let r = len - k;
        proof {
            let all = self.all_times();
            let w = self.width();
            let n = all.len();
            let lo = at.seconds - w;
            let hi = at.seconds as int;
            assert forall|j: int| 0 <= j < k implies !in_range(lo, hi, #[trigger] all[j]) by {
                if j < self.active_from() {
                    assert(all[j].seconds + w < all[n - 1].seconds);
                    assert(all[n - 1].seconds <= at.seconds);
                }
            }
            assert forall|j: int| k <= j < n implies in_range(lo, hi, #[trigger] all[j]) by {
                assert(all[k as int].seconds >= threshold.seconds);
                assert(all[k as int].seconds <= all[j].seconds);
            }
            let head = all.take(k as int);
            let tail = all.skip(k as int);
            assert forall|j: int| 0 <= j < head.len() implies !in_range(
                lo,
                hi,
                #[trigger] head[j],
            ) by {
                assert(head[j] == all[j]);
            }
            assert forall|j: int| 0 <= j < tail.len() implies in_range(
                lo,
                hi,
                #[trigger] tail[j],
            ) by {
                assert(tail[j] == all[j + k]);
            }
            lemma_count_in_none(head, lo, hi);
            lemma_count_in_all(tail, lo, hi);
            assert(all =~= head + tail);
            lemma_count_in_concat(head, tail, lo, hi);
        }
        r
    }

    /// Appends trailing points that decay the count to zero as the window
    /// empties, ending with a point at `end_time`, so a plotted series does
    /// not stop flat at the last observed value. Every appended point
    /// `(T, c)` satisfies the window invariant: `c` equals the number of
    /// timestamps ever added that lie within `[T - window, T]`; appended
    /// point times never decrease, never pass `end_time`, and never precede
    /// the newest timestamp. The decay staircase is complete: whenever a
    /// run of equal timestamps still inside the window leaves it before
    /// `end_time`, a point stands at that instant.
    #[verifier::loop_isolation(false)]
    pub fn close_off(&self, pts: &mut Vec<(Time, usize)>, end_time: Time)
        requires
            self.wf(),
            self.can_add(end_time),
        ensures
            final(pts)@.len() > old(pts)@.len(),
            final(pts)@.subrange(0, old(pts)@.len() as int) == old(pts)@,
            forall|k: int|
                old(pts)@.len() <= k < final(pts)@.len() ==> {
                    let p = #[trigger] final(pts)@[k];
                    &&& p.1 == count_in(
                        self.all_times(),
                        p.0.seconds - self.width(),
                        p.0.seconds as int,
                    )
                    &&& p.0.seconds <= end_time.seconds
                    &&& self.all_times().len() > 0 ==> p.0.seconds
                        >= self.all_times().last().seconds
                },
            forall|k1: int, k2: int|
                old(pts)@.len() <= k1 <= k2 < final(pts)@.len() ==> (#[trigger] final(pts)@[k1]).0.seconds
                    <= (#[trigger] final(pts)@[k2]).0.seconds,
            final(pts)@.last().0 == end_time,
            final(pts)@.last().1 == count_in(
                self.all_times(),
                end_time.seconds - self.width(),
                end_time.seconds as int,
            ),
            forall|i: int|
                self.active_from() <= i < self.all_times().len() && self.run_end(i)
                    && (#[trigger] self.all_times()[i]).seconds + self.width() + 1
                    <= end_time.seconds ==> exists|k: int|
                    old(pts)@.len() <= k < final(pts)@.len() && (#[trigger] final(pts)@[k]).0.seconds
                        == self.all_times()[i].seconds + self.width() + 1,
    {
        let ghost base = pts@;
        let ghost all = self.all_times();
        let ghost w = self.width();
        let len = self.times.len();
        let mut i = self.start;
        let mut done = false;
        let mut emitted_at_end = false;
        while i < len && !done
            invariant
                self.start <= i <= len,
                pts@.len() >= base.len(),
                pts@.subrange(0, base.len() as int) == base,
                forall|k: int|
                    base.len() <= k < pts@.len() ==> {
                        let p = #[trigger] pts@[k];
                        &&& p.1 == count_in(all, p.0.seconds - w, p.0.seconds as int)
                        &&& p.0.seconds <= end_time.seconds
                        &&& all.len() > 0 ==> p.0.seconds >= all.last().seconds
                    },
                forall|k1: int, k2: int|
                    base.len() <= k1 <= k2 < pts@.len() ==> (#[trigger] pts@[k1]).0.seconds
                        <= (#[trigger] pts@[k2]).0.seconds,
                i < len ==> forall|k: int|
                    base.len() <= k < pts@.len() ==> (#[trigger] pts@[k]).0.seconds
                        < self.times@[i as int].seconds + w + 1,
                emitted_at_end ==> pts@.len() > base.len() && pts@.last().0 == end_time,
                forall|i2: int|
                    self.start <= i2 < i && self.run_end(i2) && (#[trigger] all[i2]).seconds + w
                        + 1 <= end_time.seconds ==> exists|k: int|
                        base.len() <= k < pts@.len() && (#[trigger] pts@[k]).0.seconds
                            == all[i2].seconds + w + 1,
                done ==> i > self.start && all[i - 1].seconds + w >= end_time.seconds,
            decreases len - i,
        {
            if i + 1 == len || self.times[i + 1].seconds > self.times[i].seconds {
                // The last entry of a run of equal timestamps: the window
                // ending just after this run slides past it.
                match self.times[i].seconds.checked_add(self.window.seconds) {
                    None => {
                        // The exit instant lies beyond the clock and hence
                        // beyond `end_time`.
                        done = true;
                    },
                    Some(s) => {
                        if s >= end_time.seconds {
                            done = true;
                        } else {
                            let tpoint = Time { seconds: s + 1 };
                            let c = len - i - 1;
                            proof {
                                lemma_run_exit_count(all, w, self.active_from(), i as int);
                            }
                            let ghost before = pts@;
                            pts.push((tpoint, c));
                            if s + 1 == end_time.seconds {
                                emitted_at_end = true;
                            }
                            proof {
                                assert(pts@.subrange(0, base.len() as int) =~= base);
                                assert forall|i2: int|
                                    self.start <= i2 < i + 1 && self.run_end(i2)
                                        && (#[trigger] all[i2]).seconds + w + 1
                                        <= end_time.seconds implies exists|k: int|
                                    base.len() <= k < pts@.len() && (#[trigger] pts@[k]).0.seconds
                                        == all[i2].seconds + w + 1 by {
                                    if i2 == i {
                                        assert(pts@[pts@.len() - 1].0.seconds == all[i2].seconds
                                            + w + 1);
                                    } else {
                                        let k0 = choose|k0: int|
                                            base.len() <= k0 < before.len() && (#[trigger] before[k0]).0.seconds
                                                == all[i2].seconds + w + 1;
                                        assert(pts@[k0] == before[k0]);
                                        assert(pts@[k0].0.seconds == all[i2].seconds + w + 1);
                                    }
                                }
                            }
                        }
                    },
                }
            }
            i += 1;
        }
        proof {
            // Every run that leaves the window before `end_time` has its
            // exit point: runs past a stopping position leave no earlier
            // than the position that stopped the sweep.
            assert forall|i2: int|
                self.start <= i2 < len && self.run_end(i2) && (#[trigger] all[i2]).seconds + w + 1
                    <= end_time.seconds implies exists|k: int|
                base.len() <= k < pts@.len() && (#[trigger] pts@[k]).0.seconds == all[i2].seconds
                    + w + 1 by {
                if i2 >= i {
                    assert(done);
                    assert(all[i - 1].seconds <= all[i2].seconds);
                    assert(false);
                }
            }
        }
        let ghost after_sweep = pts@;
        if !emitted_at_end {
            let c_end = self.count_at(end_time);
            pts.push((end_time, c_end));
            proof {
                assert(pts@.subrange(0, base.len() as int) =~= base);
                assert(pts@.last() == (end_time, c_end));
            }
        }
        proof {
            assert forall|i2: int|
                self.active_from() <= i2 < self.all_times().len() && self.run_end(i2)
                    && (#[trigger] self.all_times()[i2]).seconds + self.width() + 1
                    <= end_time.seconds implies exists|k: int|
                base.len() <= k < pts@.len() && (#[trigger] pts@[k]).0.seconds
                    == self.all_times()[i2].seconds + self.width() + 1 by {
                assert(self.all_times()[i2] == all[i2]);
                let k0 = choose|k0: int|
                    base.len() <= k0 < after_sweep.len() && (#[trigger] after_sweep[k0]).0.seconds
                        == all[i2].seconds + w + 1;
                assert(pts@[k0] == after_sweep[k0]);
                assert(pts@[k0].0.seconds == self.all_times()[i2].seconds + self.width() + 1);
            }
        }
    }
}

/// At the instant just after the window slides past the run of equal
/// timestamps ending at position `i`, exactly the later timestamps remain
/// inside the window.
proof fn lemma_run_exit_count(all: Seq<Time>, w: int, start: int, i: int)
    requires
        sorted_times(all),
        0 <= start <= i < all.len(),
        w >= 0,
        forall|j: int|
            start <= j < all.len() ==> (#[trigger] all[j]).seconds + w >= all[all.len()
                - 1].seconds,
        i + 1 < all.len() ==> all[i + 1].seconds > all[i].seconds,
    ensures
        count_in(all, all[i].seconds + 1, all[i].seconds + w + 1) == all.len() - i - 1,
{
    let lo = all[i].seconds + 1;
    let hi = all[i].seconds + w + 1;
    let n = all.len();
    assert forall|j: int| 0 <= j <= i implies !in_range(lo, hi, #[trigger] all[j]) by {
        assert(all[j].seconds <= all[i].seconds);
    }
    assert forall|j: int| i < j < n implies in_range(lo, hi, #[trigger] all[j]) by {
        assert(all[i + 1].seconds <= all[j].seconds);
        assert(all[i].seconds + w >= all[n - 1].seconds);
        assert(all[j].seconds <= all[n - 1].seconds);
    }
    let head = all.take(i + 1);
    let tail = all.skip(i + 1);
    assert forall|j: int| 0 <= j < head.len() implies !in_range(lo, hi, #[trigger] head[j]) by {
        assert(head[j] == all[j]);
    }
    assert forall|j: int| 0 <= j < tail.len() implies in_range(lo, hi, #[trigger] tail[j]) by {
        assert(tail[j] == all[j + i + 1]);
    }
    lemma_count_in_none(head, lo, hi);
    lemma_count_in_all(tail, lo, hi);
    assert(all =~= head + tail);
    lemma_count_in_concat(head, tail, lo, hi);
}

} // verus!
