//! The departure index: per trip mode, all departure times of a catalog,
//! sorted ascending, supporting inclusive range-count queries. The index is
//! built once from an immutable catalog; when the catalog changes it must
//! be rebuilt, never patched.

use vstd::prelude::*;

use crate::counting::{count_in, in_range, lemma_count_in_concat, lemma_count_in_none,
    lemma_count_in_permutation, lemma_count_in_push, sorted_times};
use crate::modifier::ModeSet;
use crate::scenario::{IndividTrip, PersonView, ScenarioCatalog, TripMode};
use crate::time::Time;

verus! {

/// The departure times, in person and trip order, of all trips of one mode.
pub open spec fn trip_departs(trips: Seq<IndividTrip>, mode: TripMode) -> Seq<Time>
    decreases trips.len(),
{
    if trips.len() == 0 {
        Seq::empty()
    } else {
        trip_departs(trips.drop_last(), mode) + (if trips.last().mode == mode {
            seq![trips.last().depart]
        } else {
            Seq::empty()
        })
    }
}

/// The departure times of all trips of one mode across a people sequence,
/// in person and trip order.
pub open spec fn mode_departs(people: Seq<PersonView>, mode: TripMode) -> Seq<Time>
    decreases people.len(),
{
    if people.len() == 0 {
        Seq::empty()
    } else {
        mode_departs(people.drop_last(), mode) + trip_departs(people.last().trips, mode)
    }
}

/// The literal count the index must reproduce: how many trips of `mode`
/// across `people` depart within `[lo, hi]`, boundaries included.
pub open spec fn spec_catalog_count(
    people: Seq<PersonView>,
    mode: TripMode,
    lo: int,
    hi: int,
) -> nat {
    count_in(mode_departs(people, mode), lo, hi)
}

/// A per-mode sorted index of departure times over a static catalog.
pub struct CountTrips {
    walk: Vec<Time>,
    bike: Vec<Time>,
    transit: Vec<Time>,
    drive: Vec<Time>,
}

impl CountTrips {
    /// The sorted departure times the index holds for one mode.
    pub closed spec fn departures(&self, mode: TripMode) -> Seq<Time> {
        match mode {
            TripMode::Walk => self.walk@,
            TripMode::Bike => self.bike@,
            TripMode::Transit => self.transit@,
            TripMode::Drive => self.drive@,
        }
    }

    /// The index is well formed when each mode's times are sorted.
    pub open spec fn wf(&self) -> bool {
        forall|m: TripMode| sorted_times(#[trigger] self.departures(m))
    }

    /// Builds the index from a catalog: collects each mode's departure
    /// times and sorts them ascending. Duplicates are kept; ties count.
    pub fn new(catalog: &ScenarioCatalog) -> (r: CountTrips)
        ensures
            r.wf(),
            forall|m: TripMode| (#[trigger] r.departures(m)).to_multiset() == mode_departs(
                catalog@.people,
                m,
            ).to_multiset(),
    {
        let mut walk: Vec<Time> = Vec::new();
        let mut bike: Vec<Time> = Vec::new();
        let mut transit: Vec<Time> = Vec::new();
        let mut drive: Vec<Time> = Vec::new();
        let n = catalog.people.len();
        let mut i: usize = 0;
        proof {
            assert(catalog@.people.take(0) =~= Seq::<PersonView>::empty());
        }
        while i < n
            invariant
                i <= n == catalog.people@.len(),
                catalog@.people.len() == n,
                walk@ == mode_departs(catalog@.people.take(i as int), TripMode::Walk),
                bike@ == mode_departs(catalog@.people.take(i as int), TripMode::Bike),
                transit@ == mode_departs(catalog@.people.take(i as int), TripMode::Transit),
                drive@ == mode_departs(catalog@.people.take(i as int), TripMode::Drive),
            decreases n - i,
        {
            let trips = &catalog.people[i].trips;
            let m = trips.len();
            let mut j: usize = 0;
            proof {
                assert(catalog@.people[i as int].trips =~= trips@);
                assert(trips@.take(0) =~= Seq::<IndividTrip>::empty());
            }
            while j < m
                invariant
                    j <= m == trips@.len(),
                    i < n == catalog.people@.len(),
                    catalog@.people.len() == n,
                    trips@ == catalog@.people[i as int].trips,
                    walk@ == mode_departs(catalog@.people.take(i as int), TripMode::Walk)
                        + trip_departs(trips@.take(j as int), TripMode::Walk),
                    bike@ == mode_departs(catalog@.people.take(i as int), TripMode::Bike)
                        + trip_departs(trips@.take(j as int), TripMode::Bike),
                    transit@ == mode_departs(catalog@.people.take(i as int), TripMode::Transit)
                        + trip_departs(trips@.take(j as int), TripMode::Transit),
                    drive@ == mode_departs(catalog@.people.take(i as int), TripMode::Drive)
                        + trip_departs(trips@.take(j as int), TripMode::Drive),
                decreases m - j,
            {
                let trip = trips[j];
                proof {
                    assert(trips@.take(j + 1).drop_last() =~= trips@.take(j as int));
                    assert(trips@.take(j + 1).last() == trips@[j as int]);
                }
                match trip.mode {
                    TripMode::Walk => walk.push(trip.depart),
                    TripMode::Bike => bike.push(trip.depart),
                    TripMode::Transit => transit.push(trip.depart),
                    TripMode::Drive => drive.push(trip.depart),
                }
                proof {
                    lemma_trip_departs_concat_unit(trips@.take(j as int), trips@[j as int]);
                }
                j += 1;
            }
            proof {
                assert(trips@.take(m as int) =~= trips@);
                assert(catalog@.people.take(i + 1).drop_last() =~= catalog@.people.take(i as int));
                assert(catalog@.people.take(i + 1).last() == catalog@.people[i as int]);
            }
            i += 1;
        }
        proof {
            assert(catalog@.people.take(n as int) =~= catalog@.people);
        }
        let walk = sort_times(walk);
        let bike = sort_times(bike);
        let transit = sort_times(transit);
        let drive = sort_times(drive);
        let r = CountTrips { walk, bike, transit, drive };
        proof {
            assert forall|m: TripMode| sorted_times(#[trigger] r.departures(m)) by {
                match m {
                    TripMode::Walk => assert(r.departures(m) == r.walk@),
                    TripMode::Bike => assert(r.departures(m) == r.bike@),
                    TripMode::Transit => assert(r.departures(m) == r.transit@),
                    TripMode::Drive => assert(r.departures(m) == r.drive@),
                }
            }
        }
        r
    }

    /// How many departures of `mode` fall within `[t1, t2]`, both ends
    /// included. Equal departure times all count; an inverted range counts
    /// zero. Runs as a binary search to the lower bound, then a scan that
    /// stops at the first time past `t2`.
    #[verifier::rlimit(50)]
    pub fn count(&self, mode: TripMode, t1: Time, t2: Time) -> (r: usize)
        requires
            self.wf(),
        ensures
            r == count_in(self.departures(mode), t1.seconds as int, t2.seconds as int),
    {
        let v: &Vec<Time> = match mode {
            TripMode::Walk => &self.walk,
            TripMode::Bike => &self.bike,
            TripMode::Transit => &self.transit,
            TripMode::Drive => &self.drive,
        };
        let ghost s = self.departures(mode);
        proof {
            assert(v@ == s);
        }
        let lo = lower_bound(v, t1);
        let ghost loi = lo as int;
        let n = v.len();
        let mut i: usize = lo;
        let mut cnt: usize = 0;
        proof {
            lemma_count_in_none(s.take(loi), t1.seconds as int, t2.seconds as int);
        }
        while i < n
            invariant
                lo <= i <= n == s.len(),
                s == self.departures(mode),
                v@ == s,
                sorted_times(s),
                forall|j: int| 0 <= j < loi ==> (#[trigger] s[j]).seconds < t1.seconds,
                forall|j: int| loi <= j < s.len() ==> (#[trigger] s[j]).seconds >= t1.seconds,
                loi == lo,
                cnt == count_in(s.take(i as int), t1.seconds as int, t2.seconds as int),
                cnt <= i,
            decreases n - i,
        {
            proof {
                assert(s.take(i + 1).drop_last() =~= s.take(i as int));
                assert(s.take(i + 1).last() == s[i as int]);
            }
            if v[i].seconds > t2.seconds {
                proof {
                    assert forall|j: int| i <= j < s.len() implies !in_range(
                        t1.seconds as int,
                        t2.seconds as int,
                        #[trigger] s[j],
                    ) by {
                        assert(s[i as int].seconds <= s[j].seconds);
                    }
                    assert forall|j: int| 0 <= j < s.skip(i as int).len() implies !in_range(
                        t1.seconds as int,
                        t2.seconds as int,
                        #[trigger] s.skip(i as int)[j],
                    ) by {
                        assert(s.skip(i as int)[j] == s[j + i]);
                    }
                    lemma_count_in_none(s.skip(i as int), t1.seconds as int, t2.seconds as int);
                    assert(s =~= s.take(i as int) + s.skip(i as int));
                    lemma_count_in_concat(
                        s.take(i as int),
                        s.skip(i as int),
                        t1.seconds as int,
                        t2.seconds as int,
                    );
                    assert(count_in(s.skip(i as int), t1.seconds as int, t2.seconds as int) == 0);
                    assert(s == s.take(i as int) + s.skip(i as int));
                    assert(count_in(s, t1.seconds as int, t2.seconds as int) == cnt);
                }
                return cnt;
            }
            cnt += 1;
            i += 1;
        }
        proof {
            assert(s.take(n as int) =~= s);
        }
        cnt
    }
}

/// The literal number of indexed departures across the selected modes that
/// fall within `[lo, hi]`.
pub open spec fn spec_matching_trips(idx: CountTrips, modes: ModeSet, lo: int, hi: int) -> int {
    (if modes.spec_contains(TripMode::Walk) {
        count_in(idx.departures(TripMode::Walk), lo, hi) as int
    } else {
        0
    }) + (if modes.spec_contains(TripMode::Bike) {
        count_in(idx.departures(TripMode::Bike), lo, hi) as int
    } else {
        0
    }) + (if modes.spec_contains(TripMode::Transit) {
        count_in(idx.departures(TripMode::Transit), lo, hi) as int
    } else {
        0
    }) + (if modes.spec_contains(TripMode::Drive) {
        count_in(idx.departures(TripMode::Drive), lo, hi) as int
    } else {
        0
    })
}

impl CountTrips {
    /// How many departures across the selected modes fall within
    /// `[t1, t2]`: the matching-trips readout behind a mode-change panel.
    /// The total must fit the machine word.
    pub fn count_matching_trips(&self, modes: ModeSet, t1: Time, t2: Time) -> (r: usize)
        requires
            self.wf(),
            spec_matching_trips(*self, modes, t1.seconds as int, t2.seconds as int) <= usize::MAX,
        ensures
            r == spec_matching_trips(*self, modes, t1.seconds as int, t2.seconds as int),
    {
        let mut total: usize = 0;
        if modes.contains(TripMode::Walk) {
            total += self.count(TripMode::Walk, t1, t2);
        }
        if modes.contains(TripMode::Bike) {
            total += self.count(TripMode::Bike, t1, t2);
        }
        if modes.contains(TripMode::Transit) {
            total += self.count(TripMode::Transit, t1, t2);
        }
        if modes.contains(TripMode::Drive) {
            total += self.count(TripMode::Drive, t1, t2);
        }
        total
    }
}

/// One catalog trip of the chosen mode contributes exactly its departure.
proof fn lemma_trip_departs_concat_unit(trips: Seq<IndividTrip>, t: IndividTrip)
    ensures
        forall|m: TripMode|
            trip_departs(trips.push(t), m) == trip_departs(trips, m) + (if t.mode == m {
                seq![t.depart]
            } else {
                Seq::<Time>::empty()
            }),
{
    assert forall|m: TripMode|
        trip_departs(trips.push(t), m) == trip_departs(trips, m) + (if t.mode == m {
            seq![t.depart]
        } else {
            Seq::<Time>::empty()
        }) by {
        assert(trips.push(t).drop_last() =~= trips);
        if t.mode != m {
            assert(trip_departs(trips.push(t), m) =~= trip_departs(trips, m) + Seq::<
                Time,
            >::empty());
        }
    }
}

/// The first position whose time is at least `t`, in a sorted vector.
fn lower_bound(v: &Vec<Time>, t: Time) -> (r: usize)
    requires
        sorted_times(v@),
    ensures
        r <= v@.len(),
        forall|j: int| 0 <= j < r ==> (#[trigger] v@[j]).seconds < t.seconds,
        forall|j: int| r <= j < v@.len() ==> (#[trigger] v@[j]).seconds >= t.seconds,
{
    let mut lo: usize = 0;
    let mut hi: usize = v.len();
    while lo < hi
        invariant
            lo <= hi <= v@.len(),
            sorted_times(v@),
            forall|j: int| 0 <= j < lo ==> (#[trigger] v@[j]).seconds < t.seconds,
            forall|j: int| hi <= j < v@.len() ==> (#[trigger] v@[j]).seconds >= t.seconds,
        decreases hi - lo,
    {
        let mid = lo + (hi - lo) / 2;
        if v[mid].seconds < t.seconds {
            proof {
                assert forall|j: int| 0 <= j < mid + 1 implies (#[trigger] v@[j]).seconds
                    < t.seconds by {
                    assert(v@[j].seconds <= v@[mid as int].seconds);
                }
            }
            lo = mid + 1;
        } else {
            proof {
                assert forall|j: int| mid <= j < v@.len() implies (#[trigger] v@[j]).seconds
                    >= t.seconds by {
                    assert(v@[mid as int].seconds <= v@[j].seconds);
                }
            }
            hi = mid;
        }
    }
    lo
}

/// Sorts times ascending by insertion, preserving the multiset of entries.
pub(crate) fn sort_times(input: Vec<Time>) -> (out: Vec<Time>)
    ensures
        sorted_times(out@),
        out@.to_multiset() == input@.to_multiset(),
{
    broadcast use vstd::seq_lib::group_to_multiset_ensures;

    let mut out: Vec<Time> = Vec::new();
    let n = input.len();
    let mut i: usize = 0;
    proof {
        assert(input@.take(0) =~= Seq::<Time>::empty());
        assert(Seq::<Time>::empty().to_multiset() =~= out@.to_multiset());
    }
    while i < n
        invariant
            i <= n == input@.len(),
            sorted_times(out@),
            out@.to_multiset() == input@.take(i as int).to_multiset(),
        decreases n - i,
    {
        let x = input[i];
        let pos = upper_bound(&out, x);
        let ghost before = out@;
        out.insert(pos, x);
        proof {
            vstd::seq_lib::to_multiset_insert(before, pos as int, x);
            assert(out@ == before.insert(pos as int, x));
            assert(input@.take(i + 1) =~= input@.take(i as int).push(x));
            vstd::seq_lib::to_multiset_build(input@.take(i as int), x);
            assert(out@.to_multiset() =~= input@.take(i + 1).to_multiset());
            assert forall|a: int, b: int| 0 <= a <= b < out@.len() implies out@[a].seconds
                <= out@[b].seconds by {
                let p = pos as int;
                if a < p && b < p {
                    assert(out@[a] == before[a] && out@[b] == before[b]);
                } else if a < p && b == p {
                    assert(out@[a] == before[a]);
                } else if a < p && b > p {
                    assert(out@[a] == before[a] && out@[b] == before[b - 1]);
                } else if a == p && b > p {
                    assert(out@[b] == before[b - 1]);
                } else if a == p && b == p {
                } else {
                    assert(out@[a] == before[a - 1] && out@[b] == before[b - 1]);
                }
            }
        }
        i += 1;
    }
    proof {
        assert(input@.take(n as int) =~= input@);
    }
    out
}

/// The first position whose time is strictly greater than `t`, in a sorted
/// vector.
fn upper_bound(v: &Vec<Time>, t: Time) -> (r: usize)
    requires
        sorted_times(v@),
    ensures
        r <= v@.len(),
        forall|j: int| 0 <= j < r ==> (#[trigger] v@[j]).seconds <= t.seconds,
        forall|j: int| r <= j < v@.len() ==> (#[trigger] v@[j]).seconds > t.seconds,
{
    let mut lo: usize = 0;
    let mut hi: usize = v.len();
    while lo < hi
        invariant
            lo <= hi <= v@.len(),
            sorted_times(v@),
            forall|j: int| 0 <= j < lo ==> (#[trigger] v@[j]).seconds <= t.seconds,
            forall|j: int| hi <= j < v@.len() ==> (#[trigger] v@[j]).seconds > t.seconds,
        decreases hi - lo,
    {
        let mid = lo + (hi - lo) / 2;
        if v[mid].seconds <= t.seconds {
            proof {
                assert forall|j: int| 0 <= j < mid + 1 implies (#[trigger] v@[j]).seconds
                    <= t.seconds by {
                    assert(v@[j].seconds <= v@[mid as int].seconds);
                }
            }
            lo = mid + 1;
        } else {
            proof {
                assert forall|j: int| mid <= j < v@.len() implies (#[trigger] v@[j]).seconds
                    > t.seconds by {
                    assert(v@[mid as int].seconds <= v@[j].seconds);
                }
            }
            hi = mid;
        }
    }
    lo
}

/// Index correctness: however the index arranged a mode's departure times,
/// as long as it holds them with the right multiplicities, its range count
/// equals the literal count of catalog trips of that mode departing within
/// `[t1, t2]`, ties at both boundaries included.
pub proof fn lemma_index_counts_catalog(
    idx: CountTrips,
    catalog: ScenarioCatalog,
    mode: TripMode,
    t1: Time,
    t2: Time,
)
    requires
        idx.departures(mode).to_multiset() == mode_departs(catalog@.people, mode).to_multiset(),
    ensures
        count_in(idx.departures(mode), t1.seconds as int, t2.seconds as int) == spec_catalog_count(
            catalog@.people,
            mode,
            t1.seconds as int,
            t2.seconds as int,
        ),
{
    lemma_count_in_permutation(
        idx.departures(mode),
        mode_departs(catalog@.people, mode),
        t1.seconds as int,
        t2.seconds as int,
    );
}

} // verus!
