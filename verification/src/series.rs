//! Building a plottable departure-rate series from a catalog: collect all
//! departure times, sort them, slide a window across them, and close the
//! series off so it decays to zero by the end of the day.

use vstd::prelude::*;
use vstd::relations::total_ordering;
use vstd::seq_lib::lemma_sorted_unique;

use crate::counting::{count_in, sorted_times};
use crate::index::sort_times;
use crate::scenario::{PersonView, ScenarioCatalog};
use crate::time::{Duration, Time};
use crate::window::SlidingWindow;

verus! {

/// Every departure time in the catalog, in person and trip order.
pub open spec fn all_departs(people: Seq<PersonView>) -> Seq<Time>
    decreases people.len(),
{
    if people.len() == 0 {
        Seq::empty()
    } else {
        all_departs(people.drop_last()) + people.last().trips.map_values(
            |t: crate::scenario::IndividTrip| t.depart,
        )
    }
}

/// The non-decreasing order on times that the series sorts by.
pub open spec fn time_leq(a: Time, b: Time) -> bool {
    a.seconds <= b.seconds
}

/// The catalog's departure times, sorted ascending.
pub open spec fn sorted_departs(people: Seq<PersonView>) -> Seq<Time> {
    all_departs(people).sort_by(|a: Time, b: Time| time_leq(a, b))
}

/// The point the sliding window reports for position `k` of the sorted
/// departure times: the timestamp itself, and how many departures so far
/// lie within the trailing window ending there.
pub open spec fn series_point(sorted: Seq<Time>, w: int, k: int) -> (Time, usize) {
    (sorted[k], count_in(sorted.take(k + 1), sorted[k].seconds - w, sorted[k].seconds as int) as usize)
}

proof fn lemma_time_leq_total()
    ensures
        total_ordering(|a: Time, b: Time| time_leq(a, b)),
{
    let leq = |a: Time, b: Time| time_leq(a, b);
    assert forall|a: Time, b: Time| #[trigger] leq(a, b) && #[trigger] leq(b, a) implies a == b by {
        assert(a.seconds == b.seconds);
    }
}

/// Collects every departure time of the catalog, in person and trip order.
#[verifier::loop_isolation(false)]
pub fn collect_departs(catalog: &ScenarioCatalog) -> (r: Vec<Time>)
    ensures
        r@ == all_departs(catalog@.people),
{
    let mut out: Vec<Time> = Vec::new();
    let n = catalog.people.len();
    let mut i: usize = 0;
    proof {
        assert(catalog@.people.take(0) =~= Seq::<PersonView>::empty());
        assert(out@ =~= all_departs(catalog@.people.take(0)));
    }
    while i < n
        invariant
            i <= n,
            out@ == all_departs(catalog@.people.take(i as int)),
        decreases n - i,
    {
        let trips = &catalog.people[i].trips;
        let m = trips.len();
        let mut j: usize = 0;
        proof {
            assert(trips@.take(0).map_values(|t: crate::scenario::IndividTrip| t.depart) =~= Seq::<
                Time,
            >::empty());
            assert(out@ =~= all_departs(catalog@.people.take(i as int)) + trips@.take(
                0,
            ).map_values(|t: crate::scenario::IndividTrip| t.depart));
        }
        while j < m
            invariant
                j <= m == trips@.len(),
                i < n,
                trips@ == catalog@.people[i as int].trips,
                out@ == all_departs(catalog@.people.take(i as int)) + trips@.take(
                    j as int,
                ).map_values(|t: crate::scenario::IndividTrip| t.depart),
            decreases m - j,
        {
            out.push(trips[j].depart);
            proof {
                assert(trips@.take(j + 1) =~= trips@.take(j as int).push(trips@[j as int]));
                assert(trips@.take(j + 1).map_values(|t: crate::scenario::IndividTrip| t.depart)
                    =~= trips@.take(j as int).map_values(
                    |t: crate::scenario::IndividTrip| t.depart,
                ).push(trips@[j as int].depart));
                assert(out@ =~= all_departs(catalog@.people.take(i as int)) + trips@.take(
                    j + 1,
                ).map_values(|t: crate::scenario::IndividTrip| t.depart));
            }
            j += 1;
        }
        proof {
            assert(trips@.take(m as int) =~= trips@);
            assert(catalog@.people.take(i + 1).drop_last() =~= catalog@.people.take(i as int));
            assert(catalog@.people.take(i + 1).last() == catalog@.people[i as int]);
        }
        i += 1;
    }
    proof {
        assert(catalog@.people.take(n as int) =~= catalog@.people);
    }
    out
}

/// The earliest departure in the catalog, or `None` when it has no trips.
#[verifier::loop_isolation(false)]
pub fn first_departure(catalog: &ScenarioCatalog) -> (r: Option<Time>)
    ensures
        match r {
            None => all_departs(catalog@.people).len() == 0,
            Some(t) => {
                &&& all_departs(catalog@.people).contains(t)
                &&& forall|j: int|
                    0 <= j < all_departs(catalog@.people).len() ==> t.seconds <= (#[trigger] all_departs(
                        catalog@.people,
                    )[j]).seconds
            },
        },
{
    let departs = collect_departs(catalog);
    if departs.len() == 0 {
        return None;
    }
    let n = departs.len();
    let mut best = departs[0];
    let mut i: usize = 1;
    proof {
        assert(departs@.contains(best)) by {
            assert(departs@[0] == best);
        }
    }
    while i < n
        invariant
            1 <= i <= n,
            departs@.contains(best),
            forall|j: int| 0 <= j < i ==> best.seconds <= (#[trigger] departs@[j]).seconds,
        decreases n - i,
    {
        if departs[i].seconds < best.seconds {
            best = departs[i];
            proof {
                assert(departs@[i as int] == best);
            }
        }
        i += 1;
    }
    Some(best)
}

/// Builds the departure-rate series of a catalog: a starting point of zero
/// at midnight, one point per departure giving the moving count within the
/// trailing window, and a closed-off tail that decays to zero by
/// `end_of_day`. The input need not be sorted; the series is computed over
/// the departures sorted ascending.
#[verifier::loop_isolation(false)]
pub fn departure_series(catalog: &ScenarioCatalog, window: Duration, end_of_day: Time) -> (r: Vec<
    (Time, usize),
>)
    requires
        forall|j: int|
            0 <= j < all_departs(catalog@.people).len() ==> (#[trigger] all_departs(
                catalog@.people,
            )[j]).seconds <= end_of_day.seconds,
    ensures
        ({
            let sorted = sorted_departs(catalog@.people);
            let n = sorted.len();
            &&& r@.len() > n + 1
            &&& r@[0] == (Time { seconds: 0 }, 0usize)
            &&& forall|k: int| 1 <= k <= n ==> r@[k] == series_point(sorted, window.seconds as int, k - 1)
            &&& forall|k: int|
                n + 1 <= k < r@.len() ==> {
                    let p = #[trigger] r@[k];
                    &&& p.1 == count_in(sorted, p.0.seconds - window.seconds, p.0.seconds as int)
                    &&& p.0.seconds <= end_of_day.seconds
                }
            &&& r@.last().0 == end_of_day
            &&& r@.last().1 == count_in(
                sorted,
                end_of_day.seconds - window.seconds,
                end_of_day.seconds as int,
            )
            &&& forall|k1: int, k2: int|
                0 <= k1 <= k2 < r@.len() ==> (#[trigger] r@[k1]).0.seconds
                    <= (#[trigger] r@[k2]).0.seconds
            &&& forall|i: int|
                0 <= i < n && (i + 1 == n || sorted[i + 1].seconds > sorted[i].seconds)
                    && sorted[i].seconds + window.seconds >= sorted[n - 1].seconds
                    && (#[trigger] sorted[i]).seconds + window.seconds + 1 <= end_of_day.seconds
                    ==> exists|k: int|
                    n < k < r@.len() && (#[trigger] r@[k]).0.seconds == sorted[i].seconds
                        + window.seconds + 1
        }),
{
    let departs = collect_departs(catalog);
    let sorted = sort_times(departs);
    proof {
        let leq = |a: Time, b: Time| time_leq(a, b);
        lemma_time_leq_total();
        all_departs(catalog@.people).lemma_sort_by_ensures(leq);
        assert(vstd::relations::sorted_by(sorted_departs(catalog@.people), leq));
        assert(vstd::relations::sorted_by(sorted@, leq)) by {
            assert(forall|i: int, j: int|
                0 <= i <= j < sorted@.len() ==> leq(sorted@[i], sorted@[j]));
        }
        lemma_sorted_unique(sorted@, sorted_departs(catalog@.people), leq);
        assert(sorted@ == sorted_departs(catalog@.people));
        assert(sorted_times(sorted@)) by {
            assert(forall|i: int, j: int| 0 <= i <= j < sorted@.len() ==> leq(sorted@[i], sorted@[j]));
        }
    }
    let ghost ssorted = sorted@;
    let n = sorted.len();
    let mut pts: Vec<(Time, usize)> = Vec::new();
    pts.push((Time::start_of_day(), 0));
    let mut win = SlidingWindow::new(window);
    let mut i: usize = 0;
    while i < n
        invariant
            i <= n == ssorted.len(),
            sorted@ == ssorted,
            win.wf(),
            win.width() == window.seconds,
            win.all_times() == ssorted.take(i as int),
            pts@.len() == i + 1,
            pts@[0] == (Time { seconds: 0 }, 0usize),
            forall|k: int|
                1 <= k <= i ==> pts@[k] == series_point(ssorted, window.seconds as int, k - 1),
        decreases n - i,
    {
        let t = sorted[i];
        proof {
            assert(win.can_add(t)) by {
                if i > 0 {
                    assert(win.all_times().last() == ssorted[i - 1]);
                }
            }
        }
        let c = win.add(t);
        pts.push((t, c));
        proof {
            assert(ssorted.take(i as int).push(t) =~= ssorted.take(i + 1));
        }
        i += 1;
    }
    proof {
        assert(ssorted.take(n as int) =~= ssorted);
        assert(win.can_add(end_of_day)) by {
            if n > 0 {
                assert(win.all_times().last() == ssorted[n - 1]);
                assert(all_departs(catalog@.people).to_multiset() =~= ssorted.to_multiset()) by {
                    let leq = |a: Time, b: Time| time_leq(a, b);
                    lemma_time_leq_total();
                    all_departs(catalog@.people).lemma_sort_by_ensures(leq);
                }
                assert(ssorted.contains(ssorted[n - 1]));
                assert(all_departs(catalog@.people).contains(ssorted[n - 1])) by {
                    broadcast use vstd::seq_lib::group_to_multiset_ensures;

                }
            }
        }
    }
    let ghost before_close = pts@;
    win.close_off(&mut pts, end_of_day);
    proof {
        assert forall|k: int| 1 <= k <= n implies pts@[k] == series_point(
            ssorted,
            window.seconds as int,
            k - 1,
        ) by {
            assert(pts@[k] == pts@.subrange(0, n + 1)[k]);
        }
        assert(pts@[0] == pts@.subrange(0, n + 1)[0]);
        // The whole series never steps back in time: the prefix follows the
        // sorted departures, and every closed-off point comes no earlier
        // than the newest departure.
        assert forall|k1: int, k2: int| 0 <= k1 <= k2 < pts@.len() implies (#[trigger] pts@[k1]).0.seconds
            <= (#[trigger] pts@[k2]).0.seconds by {
            let prefix_time = |k: int| if k == 0 { 0int } else { ssorted[k - 1].seconds as int };
            if k1 <= n {
                assert(pts@[k1].0.seconds == prefix_time(k1));
            }
            if k2 <= n {
                assert(pts@[k2].0.seconds == prefix_time(k2));
            }
            if k1 <= n && k2 <= n {
                if 1 <= k1 {
                    assert(ssorted[k1 - 1].seconds <= ssorted[k2 - 1].seconds);
                }
            } else if k1 <= n {
                // k2 lies in the closed-off tail.
                if n > 0 {
                    assert(win.all_times().last() == ssorted[n - 1]);
                    assert(pts@[k2].0.seconds >= ssorted[n - 1].seconds);
                    if 1 <= k1 {
                        assert(ssorted[k1 - 1].seconds <= ssorted[n - 1].seconds);
                    }
                }
            } else {
                // Both lie in the closed-off tail, which is monotone.
            }
        }
        // The decay staircase is complete: every run of equal departures
        // still inside the window at the last departure gets its exit
        // point, when that instant comes before the end of the day.
        assert forall|i: int|
            0 <= i < sorted_departs(catalog@.people).len() && (i + 1 == sorted_departs(
                catalog@.people,
            ).len() || sorted_departs(catalog@.people)[i + 1].seconds > sorted_departs(
                catalog@.people,
            )[i].seconds) && sorted_departs(catalog@.people)[i].seconds + window.seconds
            >= sorted_departs(catalog@.people)[sorted_departs(catalog@.people).len()
            - 1].seconds && (#[trigger] sorted_departs(catalog@.people)[i]).seconds
            + window.seconds + 1 <= end_of_day.seconds implies exists|k: int|
            sorted_departs(catalog@.people).len() < k < pts@.len() && (#[trigger] pts@[k]).0.seconds
                == sorted_departs(catalog@.people)[i].seconds + window.seconds + 1 by {
            assert(sorted_departs(catalog@.people) == ssorted);
            assert(win.all_times() == ssorted);
            assert(win.run_end(i));
            assert(i >= win.active_from()) by {
                if i < win.active_from() {
                    assert(win.all_times()[i].seconds + win.width() < win.all_times()[win.all_times().len()
                        - 1].seconds);
                }
            }
            assert(win.all_times()[i].seconds + win.width() + 1 <= end_of_day.seconds);
            let k0 = choose|k0: int|
                before_close.len() <= k0 < pts@.len() && (#[trigger] pts@[k0]).0.seconds
                    == win.all_times()[i].seconds + win.width() + 1;
            assert(before_close.len() == n + 1);
            assert(pts@[k0].0.seconds == sorted_departs(catalog@.people)[i].seconds
                + window.seconds + 1);
        }
    }
    pts
}

} // verus!
