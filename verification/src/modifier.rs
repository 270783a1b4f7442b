//! The scenario modifier pipeline: an ordered, replayable list of pure
//! transformations over a trip catalog. Each modifier consumes a catalog
//! and yields a new one; applying the same list to the same base catalog
//! always yields the same result, so a pipeline can be serialized,
//! replayed, and undone by reapplying a prefix.

use vstd::prelude::*;

use crate::scenario::{CatalogView, IndividTrip, PersonSpec, PersonView, ScenarioCatalog, TripMode};
use crate::strutil::str_eq;
use crate::time::{Time, SECONDS_PER_DAY};

verus! {

/// A set of trip modes, one flag per mode.
#[derive(Clone, Copy, Debug, PartialEq, Eq, Structural)]
pub struct ModeSet {
    pub walk: bool,
    pub bike: bool,
    pub transit: bool,
    pub drive: bool,
}

impl ModeSet {
    pub open spec fn spec_contains(self, m: TripMode) -> bool {
        match m {
            TripMode::Walk => self.walk,
            TripMode::Bike => self.bike,
            TripMode::Transit => self.transit,
            TripMode::Drive => self.drive,
        }
    }

    pub open spec fn spec_is_empty(self) -> bool {
        !self.walk && !self.bike && !self.transit && !self.drive
    }

    pub fn empty() -> (r: ModeSet)
        ensures
            r.spec_is_empty(),
    {
        ModeSet { walk: false, bike: false, transit: false, drive: false }
    }

    pub fn contains(&self, m: TripMode) -> (r: bool)
        ensures
            r == self.spec_contains(m),
    {
        match m {
            TripMode::Walk => self.walk,
            TripMode::Bike => self.bike,
            TripMode::Transit => self.transit,
            TripMode::Drive => self.drive,
        }
    }

    pub fn insert(self, m: TripMode) -> (r: ModeSet)
        ensures
            forall|x: TripMode| r.spec_contains(x) == (self.spec_contains(x) || x == m),
    {
        match m {
            TripMode::Walk => ModeSet { walk: true, ..self },
            TripMode::Bike => ModeSet { bike: true, ..self },
            TripMode::Transit => ModeSet { transit: true, ..self },
            TripMode::Drive => ModeSet { drive: true, ..self },
        }
    }

    pub fn remove(self, m: TripMode) -> (r: ModeSet)
        ensures
            forall|x: TripMode| r.spec_contains(x) == (self.spec_contains(x) && x != m),
    {
        match m {
            TripMode::Walk => ModeSet { walk: false, ..self },
            TripMode::Bike => ModeSet { bike: false, ..self },
            TripMode::Transit => ModeSet { transit: false, ..self },
            TripMode::Drive => ModeSet { drive: false, ..self },
        }
    }

    pub fn is_empty(&self) -> (r: bool)
        ensures
            r == self.spec_is_empty(),
    {
        !self.walk && !self.bike && !self.transit && !self.drive
    }
}

/// A named transformation over a catalog. Modifiers apply strictly in the
/// order given.
#[derive(Clone, Debug, PartialEq, Eq)]
pub enum ScenarioModifier {
    /// Converts, for the selected share of matching people, every trip
    /// whose mode is in `from_modes` and whose departure falls within
    /// `[depart_from, depart_to]`. `to_mode` of `None` cancels such trips
    /// instead.
    ChangeMode {
        to_mode: Option<TripMode>,
        pct_ppl: u64,
        depart_from: Time,
        depart_to: Time,
        from_modes: ModeSet,
    },
    /// Expands every trip into `n` copies offset by whole-day multiples,
    /// day by day, preserving relative order within a person.
    RepeatDays(u64),
    /// Merges the people of the named catalog into the current one, as
    /// additional independent entries.
    AddExtraTrips(String),
}

/// The mathematical content of a modifier.
pub enum ModifierView {
    ChangeMode {
        to_mode: Option<TripMode>,
        pct_ppl: u64,
        depart_from: Time,
        depart_to: Time,
        from_modes: ModeSet,
    },
    RepeatDays(u64),
    AddExtraTrips(Seq<char>),
}

impl View for ScenarioModifier {
    type V = ModifierView;

    open spec fn view(&self) -> ModifierView {
        match self {
            ScenarioModifier::ChangeMode { to_mode, pct_ppl, depart_from, depart_to, from_modes } =>
                ModifierView::ChangeMode {
                to_mode: *to_mode,
                pct_ppl: *pct_ppl,
                depart_from: *depart_from,
                depart_to: *depart_to,
                from_modes: *from_modes,
            },
            ScenarioModifier::RepeatDays(n) => ModifierView::RepeatDays(*n),
            ScenarioModifier::AddExtraTrips(name) => ModifierView::AddExtraTrips(name@),
        }
    }
}

/// Why a modifier was rejected. These are user-input validation failures,
/// reported to the caller rather than crashing the pipeline.
#[derive(Clone, Copy, Debug, PartialEq, Eq, Structural)]
pub enum ModifierError {
    /// A mode change with no modes selected to convert from.
    NoModesSelected,
    /// A departure filter whose start does not precede its end.
    BackwardsTimeRange,
    /// A percentage outside `1..=100`.
    InvalidPercentage,
    /// An extra-trips source that names no known catalog.
    UnknownScenario,
    /// A day repetition that would push a departure past the clock.
    DepartureOverflow,
}

impl ModifierError {
    /// A human-readable cause.
    pub fn describe(&self) -> (r: &'static str)
        ensures
            r@ == self.spec_describe(),
    {
        match self {
            ModifierError::NoModesSelected => "You have to select at least one mode to convert from",
            ModifierError::BackwardsTimeRange => "Your time range is backwards",
            ModifierError::InvalidPercentage => "The percentage of people must be between 1 and 100",
            ModifierError::UnknownScenario => "There is no scenario by that name to add trips from",
            ModifierError::DepartureOverflow => "Repeating that many days pushes trips past the end of the clock",
        }
    }

    pub open spec fn spec_describe(&self) -> Seq<char> {
        match self {
            ModifierError::NoModesSelected => "You have to select at least one mode to convert from"@,
            ModifierError::BackwardsTimeRange => "Your time range is backwards"@,
            ModifierError::InvalidPercentage => "The percentage of people must be between 1 and 100"@,
            ModifierError::UnknownScenario => "There is no scenario by that name to add trips from"@,
            ModifierError::DepartureOverflow => "Repeating that many days pushes trips past the end of the clock"@,
        }
    }
}

/// Whether one trip matches a mode-change filter: its mode is among the
/// selected ones and it departs within the closed interval.
pub open spec fn trip_matches(t: IndividTrip, fm: ModeSet, t1: Time, t2: Time) -> bool {
    fm.spec_contains(t.mode) && t1.seconds <= t.depart.seconds <= t2.seconds
}

/// Whether a person has at least one matching trip.
pub open spec fn person_matches(p: PersonView, fm: ModeSet, t1: Time, t2: Time) -> bool {
    exists|j: int| 0 <= j < p.trips.len() && trip_matches(#[trigger] p.trips[j], fm, t1, t2)
}

/// How many people have at least one matching trip.
pub open spec fn count_matching(people: Seq<PersonView>, fm: ModeSet, t1: Time, t2: Time) -> nat
    decreases people.len(),
{
    if people.len() == 0 {
        0
    } else {
        count_matching(people.drop_last(), fm, t1, t2) + (if person_matches(
            people.last(),
            fm,
            t1,
            t2,
        ) {
            1nat
        } else {
            0nat
        })
    }
}

/// One person's trips after conversion: matching trips change to `to`, or
/// drop out entirely when `to` is `None`; other trips stay, in order.
pub open spec fn convert_trips(
    trips: Seq<IndividTrip>,
    fm: ModeSet,
    t1: Time,
    t2: Time,
    to: Option<TripMode>,
) -> Seq<IndividTrip>
    decreases trips.len(),
{
    if trips.len() == 0 {
        Seq::empty()
    } else {
        convert_trips(trips.drop_last(), fm, t1, t2, to) + (if trip_matches(
            trips.last(),
            fm,
            t1,
            t2,
        ) {
            match to {
                Some(m) => seq![IndividTrip { mode: m, ..trips.last() }],
                None => Seq::empty(),
            }
        } else {
            seq![trips.last()]
        })
    }
}

/// The people after a mode change with a remaining selection quota: the
/// first `quota` matching people, in catalog order, have their matching
/// trips converted; everyone else is untouched. This fixed selection rule
/// makes the transformation reproducible.
pub open spec fn change_people(
    people: Seq<PersonView>,
    fm: ModeSet,
    t1: Time,
    t2: Time,
    to: Option<TripMode>,
    quota: nat,
) -> Seq<PersonView>
    decreases people.len(),
{
    if people.len() == 0 {
        Seq::empty()
    } else if person_matches(people.first(), fm, t1, t2) && quota > 0 {
        seq![
            PersonView {
                orig_id: people.first().orig_id,
                trips: convert_trips(people.first().trips, fm, t1, t2, to),
            },
        ] + change_people(people.drop_first(), fm, t1, t2, to, (quota - 1) as nat)
    } else {
        seq![people.first()] + change_people(people.drop_first(), fm, t1, t2, to, quota)
    }
}

/// The selection quota: the whole share of matching people converted,
/// rounded down.
pub open spec fn spec_quota(total: nat, pct: nat) -> nat {
    total * pct / 100
}

/// The whole share of a count, rounded down: the figure shown beside a
/// matching-trips readout, and the selection quota of a mode change.
pub fn adjusted_count(cnt: usize, pct_ppl: u64) -> (r: usize)
    requires
        pct_ppl <= 100,
    ensures
        r == spec_quota(cnt as nat, pct_ppl as nat),
        r <= cnt,
{
    proof {
        assert((cnt as int) * (pct_ppl as int) <= (cnt as int) * 100 && (cnt as int) * 100
            < u128::MAX && 0 <= (cnt as int) * (pct_ppl as int)) by (nonlinear_arith)
            requires
                0 <= cnt <= u64::MAX,
                pct_ppl <= 100,
        ;
    }
    let product: u128 = (cnt as u128) * (pct_ppl as u128);
    let q: u128 = product / 100;
    proof {
        assert(q == spec_quota(cnt as nat, pct_ppl as nat));
        assert((cnt as int) * (pct_ppl as int) / 100 <= cnt) by (nonlinear_arith)
            requires
                0 <= cnt,
                pct_ppl <= 100,
        ;
    }
    q as usize
}

/// The catalog after a valid mode change.
pub open spec fn spec_change_mode(
    c: CatalogView,
    to: Option<TripMode>,
    pct: u64,
    t1: Time,
    t2: Time,
    fm: ModeSet,
) -> CatalogView {
    CatalogView {
        people: change_people(
            c.people,
            fm,
            t1,
            t2,
            to,
            spec_quota(count_matching(c.people, fm, t1, t2), pct as nat),
        ),
        ..c
    }
}

/// One trip shifted later by `d` whole days.
pub open spec fn shift_trip(t: IndividTrip, d: nat) -> IndividTrip {
    IndividTrip { depart: Time { seconds: (t.depart.seconds + d * SECONDS_PER_DAY) as u64 }, ..t }
}

/// A trip list shifted later by `d` whole days.
pub open spec fn shifted_trips(trips: Seq<IndividTrip>, d: nat) -> Seq<IndividTrip> {
    trips.map_values(|t: IndividTrip| shift_trip(t, d))
}

/// A trip list expanded into `n` day-shifted copies: the whole list for
/// day zero, then the whole list one day later, and so on. Relative order
/// within a person is preserved.
pub open spec fn repeat_trips(trips: Seq<IndividTrip>, n: nat) -> Seq<IndividTrip>
    decreases n,
{
    if n == 0 {
        Seq::empty()
    } else {
        repeat_trips(trips, (n - 1) as nat) + shifted_trips(trips, (n - 1) as nat)
    }
}

pub open spec fn repeat_person(p: PersonView, n: nat) -> PersonView {
    PersonView { orig_id: p.orig_id, trips: repeat_trips(p.trips, n) }
}

/// Whether every departure, shifted by the largest day offset, still fits
/// on the clock.
pub open spec fn repeat_fits(people: Seq<PersonView>, n: nat) -> bool {
    forall|i: int, j: int|
        0 <= i < people.len() && 0 <= j < people[i].trips.len() ==> (#[trigger] people[i].trips[j]).depart.seconds
            + (n - 1) * SECONDS_PER_DAY <= u64::MAX
}

/// The catalog after a day repetition.
pub open spec fn spec_repeat(c: CatalogView, n: nat) -> CatalogView {
    CatalogView { people: c.people.map_values(|p: PersonView| repeat_person(p, n)), ..c }
}

/// The first catalog in `pool` whose name is `name`, if any.
pub open spec fn spec_find_catalog(pool: Seq<CatalogView>, name: Seq<char>) -> Option<CatalogView>
    decreases pool.len(),
{
    if pool.len() == 0 {
        None
    } else if pool[0].scenario_name == name {
        Some(pool[0])
    } else {
        spec_find_catalog(pool.drop_first(), name)
    }
}

/// The catalog after merging another catalog's people in, as additional
/// independent entries; nobody is dropped on an identity collision.
pub open spec fn spec_add_extra(c: CatalogView, extra: CatalogView) -> CatalogView {
    CatalogView { people: c.people + extra.people, ..c }
}

/// What one modifier does to a catalog: a new catalog, or a validation
/// error, exactly as stated per variant.
pub open spec fn spec_apply_one(
    c: CatalogView,
    m: ModifierView,
    pool: Seq<CatalogView>,
) -> Result<CatalogView, ModifierError> {
    match m {
        ModifierView::ChangeMode { to_mode, pct_ppl, depart_from, depart_to, from_modes } => {
            if from_modes.spec_is_empty() {
                Err(ModifierError::NoModesSelected)
            } else if depart_from.seconds >= depart_to.seconds {
                Err(ModifierError::BackwardsTimeRange)
            } else if pct_ppl < 1 || pct_ppl > 100 {
                Err(ModifierError::InvalidPercentage)
            } else {
                Ok(spec_change_mode(c, to_mode, pct_ppl, depart_from, depart_to, from_modes))
            }
        },
        ModifierView::RepeatDays(n) => {
            if repeat_fits(c.people, n as nat) {
                Ok(spec_repeat(c, n as nat))
            } else {
                Err(ModifierError::DepartureOverflow)
            }
        },
        ModifierView::AddExtraTrips(name) => match spec_find_catalog(pool, name) {
            Some(extra) => Ok(spec_add_extra(c, extra)),
            None => Err(ModifierError::UnknownScenario),
        },
    }
}

/// What an ordered modifier list does to a catalog: each modifier applies
/// to the previous result, and the first error stops the pipeline.
pub open spec fn spec_apply_all(
    c: CatalogView,
    mods: Seq<ModifierView>,
    pool: Seq<CatalogView>,
) -> Result<CatalogView, ModifierError>
    decreases mods.len(),
{
    if mods.len() == 0 {
        Ok(c)
    } else {
        match spec_apply_one(c, mods.first(), pool) {
            Ok(c2) => spec_apply_all(c2, mods.drop_first(), pool),
            Err(e) => Err(e),
        }
    }
}

/// Builds a mode-change modifier from the panel selections: the target
/// mode is taken out of the source set, and the selections are validated.
/// Errors are reported as typed results, never as a crash.
pub fn new_change_mode(
    from_modes: ModeSet,
    to_mode: Option<TripMode>,
    pct_ppl: u64,
    depart_from: Time,
    depart_to: Time,
) -> (r: Result<ScenarioModifier, ModifierError>)
    ensures
        ({
            let fm = match to_mode {
                Some(m) => ModeSet {
                    walk: from_modes.walk && m != TripMode::Walk,
                    bike: from_modes.bike && m != TripMode::Bike,
                    transit: from_modes.transit && m != TripMode::Transit,
                    drive: from_modes.drive && m != TripMode::Drive,
                },
                None => from_modes,
            };
            match r {
                Ok(m) => {
                    &&& !fm.spec_is_empty()
                    &&& depart_from.seconds < depart_to.seconds
                    &&& 1 <= pct_ppl <= 100
                    &&& m@ == (ModifierView::ChangeMode {
                        to_mode,
                        pct_ppl,
                        depart_from,
                        depart_to,
                        from_modes: fm,
                    })
                },
                Err(e) => {
                    &&& fm.spec_is_empty() || depart_from.seconds >= depart_to.seconds || pct_ppl
                        < 1 || pct_ppl > 100
                    &&& (e == ModifierError::NoModesSelected) == fm.spec_is_empty()
                    &&& (e == ModifierError::BackwardsTimeRange) == (!fm.spec_is_empty()
                        && depart_from.seconds >= depart_to.seconds)
                    &&& (e == ModifierError::InvalidPercentage) == (!fm.spec_is_empty()
                        && depart_from.seconds < depart_to.seconds && (pct_ppl < 1 || pct_ppl
                        > 100))
                },
            }
        }),
{
    let fm = match to_mode {
        Some(m) => from_modes.remove(m),
        None => from_modes,
    };
    proof {
        if to_mode is Some {
            let m = to_mode->Some_0;
            assert(fm.walk == (from_modes.walk && m != TripMode::Walk)) by {
                assert(fm.spec_contains(TripMode::Walk) == (from_modes.spec_contains(TripMode::Walk)
                    && TripMode::Walk != m));
            }
            assert(fm.bike == (from_modes.bike && m != TripMode::Bike)) by {
                assert(fm.spec_contains(TripMode::Bike) == (from_modes.spec_contains(TripMode::Bike)
                    && TripMode::Bike != m));
            }
            assert(fm.transit == (from_modes.transit && m != TripMode::Transit)) by {
                assert(fm.spec_contains(TripMode::Transit) == (from_modes.spec_contains(
                    TripMode::Transit,
                ) && TripMode::Transit != m));
            }
            assert(fm.drive == (from_modes.drive && m != TripMode::Drive)) by {
                assert(fm.spec_contains(TripMode::Drive) == (from_modes.spec_contains(
                    TripMode::Drive,
                ) && TripMode::Drive != m));
            }
        }
    }
    if fm.is_empty() {
        return Err(ModifierError::NoModesSelected);
    }
    if depart_from.seconds >= depart_to.seconds {
        return Err(ModifierError::BackwardsTimeRange);
    }
    if pct_ppl < 1 || pct_ppl > 100 {
        return Err(ModifierError::InvalidPercentage);
    }
    Ok(
        ScenarioModifier::ChangeMode {
            to_mode,
            pct_ppl,
            depart_from,
            depart_to,
            from_modes: fm,
        },
    )
}

fn trip_matches_exec(t: &IndividTrip, fm: ModeSet, t1: Time, t2: Time) -> (r: bool)
    ensures
        r == trip_matches(*t, fm, t1, t2),
{
    fm.contains(t.mode) && t1.seconds <= t.depart.seconds && t.depart.seconds <= t2.seconds
}

fn person_matches_exec(p: &PersonSpec, fm: ModeSet, t1: Time, t2: Time) -> (r: bool)
    ensures
        r == person_matches(p@, fm, t1, t2),
{
    let n = p.trips.len();
    let mut j: usize = 0;
    while j < n
        invariant
            j <= n == p.trips@.len(),
            forall|k: int| 0 <= k < j ==> !trip_matches(#[trigger] p.trips@[k], fm, t1, t2),
        decreases n - j,
    {
        if trip_matches_exec(&p.trips[j], fm, t1, t2) {
            proof {
                assert(p@.trips[j as int] == p.trips@[j as int]);
            }
            return true;
        }
        j += 1;
    }
    false
}

#[verifier::loop_isolation(false)]
fn count_matching_exec(people: &Vec<PersonSpec>, fm: ModeSet, t1: Time, t2: Time) -> (r: usize)
    ensures
        r == count_matching(people@.map_values(|p: PersonSpec| p@), fm, t1, t2),
{
    let ghost pv = people@.map_values(|p: PersonSpec| p@);
    let n = people.len();
    let mut i: usize = 0;
    let mut cnt: usize = 0;
    proof {
        assert(pv.take(0) =~= Seq::<PersonView>::empty());
    }
    while i < n
        invariant
            i <= n == pv.len(),
            cnt <= i,
            cnt == count_matching(pv.take(i as int), fm, t1, t2),
        decreases n - i,
    {
        proof {
            assert(pv.take(i + 1).drop_last() =~= pv.take(i as int));
            assert(pv.take(i + 1).last() == pv[i as int]);
        }
        if person_matches_exec(&people[i], fm, t1, t2) {
            cnt += 1;
        }
        i += 1;
    }
    proof {
        assert(pv.take(n as int) =~= pv);
    }
    cnt
}

#[verifier::loop_isolation(false)]
fn convert_trips_exec(
    trips: &Vec<IndividTrip>,
    fm: ModeSet,
    t1: Time,
    t2: Time,
    to: Option<TripMode>,
) -> (out: Vec<IndividTrip>)
    ensures
        out@ == convert_trips(trips@, fm, t1, t2, to),
{
    let mut out: Vec<IndividTrip> = Vec::new();
    let n = trips.len();
    let mut j: usize = 0;
    proof {
        assert(trips@.take(0) =~= Seq::<IndividTrip>::empty());
        assert(out@ =~= convert_trips(trips@.take(0), fm, t1, t2, to));
    }
    while j < n
        invariant
            j <= n == trips@.len(),
            out@ == convert_trips(trips@.take(j as int), fm, t1, t2, to),
        decreases n - j,
    {
        let t = trips[j];
        proof {
            assert(trips@.take(j + 1).drop_last() =~= trips@.take(j as int));
            assert(trips@.take(j + 1).last() == trips@[j as int]);
        }
        if trip_matches_exec(&t, fm, t1, t2) {
            match to {
                Some(m) => {
                    out.push(IndividTrip { mode: m, ..t });
                    proof {
                        assert(out@ =~= convert_trips(trips@.take(j + 1), fm, t1, t2, to));
                    }
                },
                None => {
                    proof {
                        assert(out@ =~= convert_trips(trips@.take(j + 1), fm, t1, t2, to));
                    }
                },
            }
        } else {
            out.push(t);
            proof {
                assert(out@ =~= convert_trips(trips@.take(j + 1), fm, t1, t2, to));
            }
        }
        j += 1;
    }
    proof {
        assert(trips@.take(n as int) =~= trips@);
    }
    out
}

/// Copies a person record.
fn clone_person(p: &PersonSpec) -> (r: PersonSpec)
    ensures
        r@ == p@,
{
    let mut trips: Vec<IndividTrip> = Vec::new();
    let n = p.trips.len();
    let mut j: usize = 0;
    while j < n
        invariant
            j <= n == p.trips@.len(),
            trips@ == p.trips@.take(j as int),
        decreases n - j,
    {
        trips.push(p.trips[j]);
        proof {
            assert(p.trips@.take(j + 1) =~= p.trips@.take(j as int).push(p.trips@[j as int]));
        }
        j += 1;
    }
    proof {
        assert(p.trips@.take(n as int) =~= p.trips@);
    }
    PersonSpec { orig_id: p.orig_id, trips }
}

/// Applies a validated mode change: converts the matching trips of the
/// first `total * pct / 100` matching people, in catalog order.
#[verifier::loop_isolation(false)]
fn apply_change_mode(
    catalog: ScenarioCatalog,
    to_mode: Option<TripMode>,
    pct_ppl: u64,
    t1: Time,
    t2: Time,
    fm: ModeSet,
) -> (r: ScenarioCatalog)
    requires
        1 <= pct_ppl <= 100,
    ensures
        r@ == spec_change_mode(catalog@, to_mode, pct_ppl, t1, t2, fm),
{
    let ghost cv = catalog@;
    let total = count_matching_exec(&catalog.people, fm, t1, t2);
    let quota = adjusted_count(total, pct_ppl);
    let ghost quota0 = spec_quota(count_matching(cv.people, fm, t1, t2), pct_ppl as nat);
    let mut out: Vec<PersonSpec> = Vec::new();
    let mut rem: usize = quota;
    let n = catalog.people.len();
    let mut i: usize = 0;
    proof {
        assert(cv.people.skip(0) =~= cv.people);
        assert(out@.map_values(|p: PersonSpec| p@) =~= Seq::<PersonView>::empty());
    }
    while i < n
        invariant
            i <= n == catalog.people@.len(),
            rem <= quota,
            change_people(cv.people, fm, t1, t2, to_mode, quota0) == out@.map_values(
                |p: PersonSpec| p@,
            ) + change_people(cv.people.skip(i as int), fm, t1, t2, to_mode, rem as nat),
        decreases n - i,
    {
        let ghost tail = cv.people.skip(i as int);
        proof {
            assert(tail.len() > 0);
            assert(tail.first() == cv.people[i as int]);
            assert(tail.drop_first() =~= cv.people.skip(i + 1));
        }
        let person = &catalog.people[i];
        let matched = person_matches_exec(person, fm, t1, t2);
        let ghost before = out@.map_values(|p: PersonSpec| p@);
        if matched && rem > 0 {
            let trips = convert_trips_exec(&person.trips, fm, t1, t2, to_mode);
            out.push(PersonSpec { orig_id: person.orig_id, trips });
            rem -= 1;
            proof {
                let converted = PersonView {
                    orig_id: cv.people[i as int].orig_id,
                    trips: convert_trips(cv.people[i as int].trips, fm, t1, t2, to_mode),
                };
                assert(out@.map_values(|p: PersonSpec| p@) =~= before.push(converted));
                assert(before.push(converted) =~= before + seq![converted]);
                assert(change_people(tail, fm, t1, t2, to_mode, (rem + 1) as nat) == seq![converted]
                    + change_people(tail.drop_first(), fm, t1, t2, to_mode, rem as nat));
                assert((before + seq![converted]) + change_people(
                    cv.people.skip(i + 1),
                    fm,
                    t1,
                    t2,
                    to_mode,
                    rem as nat,
                ) =~= before + (seq![converted] + change_people(
                    cv.people.skip(i + 1),
                    fm,
                    t1,
                    t2,
                    to_mode,
                    rem as nat,
                )));
            }
        } else {
            let copy = clone_person(person);
            out.push(copy);
            proof {
                let kept = cv.people[i as int];
                assert(out@.map_values(|p: PersonSpec| p@) =~= before.push(kept));
                assert(before.push(kept) =~= before + seq![kept]);
                assert(change_people(tail, fm, t1, t2, to_mode, rem as nat) == seq![kept]
                    + change_people(tail.drop_first(), fm, t1, t2, to_mode, rem as nat));
                assert((before + seq![kept]) + change_people(
                    cv.people.skip(i + 1),
                    fm,
                    t1,
                    t2,
                    to_mode,
                    rem as nat,
                ) =~= before + (seq![kept] + change_people(
                    cv.people.skip(i + 1),
                    fm,
                    t1,
                    t2,
                    to_mode,
                    rem as nat,
                )));
            }
        }
        i += 1;
    }
    proof {
        assert(cv.people.skip(n as int) =~= Seq::<PersonView>::empty());
        assert(change_people(Seq::<PersonView>::empty(), fm, t1, t2, to_mode, rem as nat)
            =~= Seq::<PersonView>::empty());
        assert(out@.map_values(|p: PersonSpec| p@) + Seq::<PersonView>::empty() =~= out@.map_values(
            |p: PersonSpec| p@,
        ));
    }
    let r = ScenarioCatalog {
        scenario_name: catalog.scenario_name,
        map_name: catalog.map_name,
        people: out,
    };
    proof {
        assert(r@.people =~= change_people(cv.people, fm, t1, t2, to_mode, quota0));
    }
    r
}

/// Whether every departure still fits on the clock after the largest day
/// offset of an `n`-day repetition.
#[verifier::loop_isolation(false)]
fn repeat_fits_exec(people: &Vec<PersonSpec>, n: u64) -> (r: bool)
    requires
        n >= 1,
    ensures
        r == repeat_fits(people@.map_values(|p: PersonSpec| p@), n as nat),
{
    let ghost pv = people@.map_values(|p: PersonSpec| p@);
    let shift: u128 = ((n - 1) as u128) * (SECONDS_PER_DAY as u128);
    let count = people.len();
    let mut i: usize = 0;
    while i < count
        invariant
            i <= count == pv.len(),
            forall|a: int, b: int|
                0 <= a < i && 0 <= b < pv[a].trips.len() ==> (#[trigger] pv[a].trips[b]).depart.seconds
                    + (n - 1) * SECONDS_PER_DAY <= u64::MAX,
        decreases count - i,
    {
        let trips = &people[i].trips;
        let m = trips.len();
        let mut j: usize = 0;
        while j < m
            invariant
                j <= m == trips@.len(),
                i < count,
                trips@ == people@[i as int].trips@,
                forall|b: int|
                    0 <= b < j ==> (#[trigger] trips@[b]).depart.seconds + (n - 1) * SECONDS_PER_DAY
                        <= u64::MAX,
            decreases m - j,
        {
            if (trips[j].depart.seconds as u128) + shift > u64::MAX as u128 {
                proof {
                    assert(pv[i as int].trips[j as int] == trips@[j as int]);
                }
                return false;
            }
            j += 1;
        }
        proof {
            assert forall|b: int| 0 <= b < pv[i as int].trips.len() implies (#[trigger] pv[i as int].trips[b]).depart.seconds
                + (n - 1) * SECONDS_PER_DAY <= u64::MAX by {
                assert(pv[i as int].trips[b] == trips@[b]);
            }
        }
        i += 1;
    }
    true
}

/// Expands every trip into `n` day-shifted copies.
#[verifier::loop_isolation(false)]
fn apply_repeat_days(catalog: ScenarioCatalog, n: u64) -> (r: Result<
    ScenarioCatalog,
    ModifierError,
>)
    requires
        n >= 1,
    ensures
        ({
            let fits = repeat_fits(catalog@.people, n as nat);
            match r {
                Ok(c2) => fits && c2@ == spec_repeat(catalog@, n as nat),
                Err(e) => !fits && e == ModifierError::DepartureOverflow,
            }
        }),
{
    let ghost cv = catalog@;
    if !repeat_fits_exec(&catalog.people, n) {
        return Err(ModifierError::DepartureOverflow);
    }
    let mut out: Vec<PersonSpec> = Vec::new();
    let count = catalog.people.len();
    let mut i: usize = 0;
    proof {
        assert(out@.map_values(|p: PersonSpec| p@) =~= cv.people.take(0).map_values(
            |p: PersonView| repeat_person(p, n as nat),
        ));
    }
    while i < count
        invariant
            i <= count == cv.people.len(),
            repeat_fits(cv.people, n as nat),
            n >= 1,
            out@.map_values(|p: PersonSpec| p@) == cv.people.take(i as int).map_values(
                |p: PersonView| repeat_person(p, n as nat),
            ),
        decreases count - i,
    {
        let person = &catalog.people[i];
        let ghost ptrips = cv.people[i as int].trips;
        let mut trips: Vec<IndividTrip> = Vec::new();
        let mut d: u64 = 0;
        proof {
            assert(trips@ =~= repeat_trips(ptrips, 0));
        }
        while d < n
            invariant
                d <= n,
                i < count == cv.people.len(),
                person.trips@ == ptrips,
                repeat_fits(cv.people, n as nat),
                trips@ == repeat_trips(ptrips, d as nat),
            decreases n - d,
        {
            let m = person.trips.len();
            let mut j: usize = 0;
            proof {
                assert(ptrips.take(0).map_values(|t: IndividTrip| shift_trip(t, d as nat)) =~= Seq::<
                    IndividTrip,
                >::empty());
                assert(trips@ =~= repeat_trips(ptrips, d as nat) + ptrips.take(0).map_values(
                    |t: IndividTrip| shift_trip(t, d as nat),
                ));
            }
            while j < m
                invariant
                    j <= m == ptrips.len(),
                    d < n,
                    i < count == cv.people.len(),
                    person.trips@ == ptrips,
                    repeat_fits(cv.people, n as nat),
                    trips@ == repeat_trips(ptrips, d as nat) + ptrips.take(j as int).map_values(
                        |t: IndividTrip| shift_trip(t, d as nat),
                    ),
                decreases m - j,
            {
                let t = person.trips[j];
                proof {
                    assert(cv.people[i as int].trips[j as int].depart.seconds + (n - 1) * SECONDS_PER_DAY
                        <= u64::MAX);
                    vstd::arithmetic::mul::lemma_mul_inequality(d as int, n - 1, SECONDS_PER_DAY as int);
                    assert(t.depart.seconds + (d as nat) * SECONDS_PER_DAY <= u64::MAX);
                }
                let shifted = IndividTrip {
                    depart: Time { seconds: t.depart.seconds + d * SECONDS_PER_DAY },
                    ..t
                };
                trips.push(shifted);
                proof {
                    assert(shifted == shift_trip(ptrips[j as int], d as nat));
                    assert(ptrips.take(j + 1).map_values(|x: IndividTrip| shift_trip(x, d as nat))
                        =~= ptrips.take(j as int).map_values(
                        |x: IndividTrip| shift_trip(x, d as nat),
                    ).push(shifted));
                    assert(trips@ =~= repeat_trips(ptrips, d as nat) + ptrips.take(
                        j + 1,
                    ).map_values(|x: IndividTrip| shift_trip(x, d as nat)));
                }
                j += 1;
            }
            proof {
                assert(ptrips.take(m as int) =~= ptrips);
                assert(ptrips.map_values(|x: IndividTrip| shift_trip(x, d as nat)) == shifted_trips(
                    ptrips,
                    d as nat,
                ));
                assert(trips@ =~= repeat_trips(ptrips, (d + 1) as nat));
            }
            d += 1;
        }
        let ghost before = out@.map_values(|p: PersonSpec| p@);
        proof {
            assert(trips@ == repeat_trips(ptrips, n as nat));
            assert(cv.people[i as int].orig_id == person.orig_id);
        }
        out.push(PersonSpec { orig_id: person.orig_id, trips });
        proof {
            let nv = PersonView {
                orig_id: cv.people[i as int].orig_id,
                trips: repeat_trips(ptrips, n as nat),
            };
            assert(out@.map_values(|p: PersonSpec| p@) =~= before.push(nv));
            assert(nv == repeat_person(cv.people[i as int], n as nat));
            assert(cv.people.take(i + 1) =~= cv.people.take(i as int).push(cv.people[i as int]));
            assert(out@.map_values(|p: PersonSpec| p@) =~= cv.people.take(i + 1).map_values(
                |p: PersonView| repeat_person(p, n as nat),
            ));
        }
        i += 1;
    }
    proof {
        assert(cv.people.take(count as int) =~= cv.people);
    }
    let r = ScenarioCatalog {
        scenario_name: catalog.scenario_name,
        map_name: catalog.map_name,
        people: out,
    };
    proof {
        assert(r@.people =~= spec_repeat(cv, n as nat).people);
    }
    Ok(r)
}

/// Merges the people of the named catalog from the pool into this one.
#[verifier::loop_isolation(false)]
fn apply_add_extra(catalog: ScenarioCatalog, name: &String, library: &Vec<ScenarioCatalog>) -> (r:
    Result<ScenarioCatalog, ModifierError>)
    ensures
        ({
            let pool = library@.map_values(|c: ScenarioCatalog| c@);
            match r {
                Ok(c2) => {
                    &&& spec_find_catalog(pool, name@) is Some
                    &&& c2@ == spec_add_extra(catalog@, spec_find_catalog(pool, name@)->Some_0)
                },
                Err(e) => {
                    &&& spec_find_catalog(pool, name@) is None
                    &&& e == ModifierError::UnknownScenario
                },
            }
        }),
{
    let ghost cv = catalog@;
    let ghost pool = library@.map_values(|c: ScenarioCatalog| c@);
    let count = library.len();
    let mut k: usize = 0;
    proof {
        assert(pool.skip(0) =~= pool);
    }
    while k < count
        invariant
            k <= count == pool.len(),
            spec_find_catalog(pool, name@) == spec_find_catalog(pool.skip(k as int), name@),
        decreases count - k,
    {
        proof {
            assert(pool.skip(k as int).drop_first() =~= pool.skip(k + 1));
            assert(pool.skip(k as int)[0] == pool[k as int]);
        }
        if str_eq(library[k].scenario_name.as_str(), name.as_str()) {
            let extra = &library[k];
            let mut catalog = catalog;
            let m = extra.people.len();
            let mut j: usize = 0;
            proof {
                assert(catalog@.people =~= cv.people + pool[k as int].people.take(0));
            }
            while j < m
                invariant
                    j <= m,
                    k < count == pool.len(),
                    extra == library@[k as int],
                    m == pool[k as int].people.len(),
                    catalog@.scenario_name == cv.scenario_name,
                    catalog@.city == cv.city,
                    catalog@.map == cv.map,
                    catalog@.people == cv.people + pool[k as int].people.take(j as int),
                decreases m - j,
            {
                let copy = clone_person(&extra.people[j]);
                let ghost cpv = copy@;
                let ghost before = catalog@.people;
                proof {
                    assert(pool[k as int].people[j as int] == extra.people@[j as int]@);
                    assert(cpv == pool[k as int].people[j as int]);
                }
                catalog.people.push(copy);
                proof {
                    assert(catalog@.people =~= before.push(cpv));
                    assert(pool[k as int].people.take(j + 1) =~= pool[k as int].people.take(
                        j as int,
                    ).push(pool[k as int].people[j as int]));
                    assert(catalog@.people =~= cv.people + pool[k as int].people.take(j + 1));
                }
                j += 1;
            }
            proof {
                assert(pool[k as int].people.take(m as int) =~= pool[k as int].people);
            }
            return Ok(catalog);
        }
        k += 1;
    }
    proof {
        assert(pool.skip(count as int) =~= Seq::<CatalogView>::empty());
    }
    Err(ModifierError::UnknownScenario)
}

/// Applies one modifier, yielding a new catalog or the validation error
/// the modifier deserves. Day repetitions of zero days are a programmer
/// error, excluded by precondition.
pub fn apply_one(
    catalog: ScenarioCatalog,
    modifier: &ScenarioModifier,
    library: &Vec<ScenarioCatalog>,
) -> (r: Result<ScenarioCatalog, ModifierError>)
    requires
        modifier@ matches ModifierView::RepeatDays(n) ==> n >= 1,
    ensures
        ({
            let pool = library@.map_values(|c: ScenarioCatalog| c@);
            match r {
                Ok(c2) => spec_apply_one(catalog@, modifier@, pool) == Ok::<
                    CatalogView,
                    ModifierError,
                >(c2@),
                Err(e) => spec_apply_one(catalog@, modifier@, pool) == Err::<
                    CatalogView,
                    ModifierError,
                >(e),
            }
        }),
{
    match modifier {
        ScenarioModifier::ChangeMode { to_mode, pct_ppl, depart_from, depart_to, from_modes } => {
            if from_modes.is_empty() {
                Err(ModifierError::NoModesSelected)
            } else if depart_from.seconds >= depart_to.seconds {
                Err(ModifierError::BackwardsTimeRange)
            } else if *pct_ppl < 1 || *pct_ppl > 100 {
                Err(ModifierError::InvalidPercentage)
            } else {
                Ok(
                    apply_change_mode(
                        catalog,
                        *to_mode,
                        *pct_ppl,
                        *depart_from,
                        *depart_to,
                        *from_modes,
                    ),
                )
            }
        },
        ScenarioModifier::RepeatDays(n) => apply_repeat_days(catalog, *n),
        ScenarioModifier::AddExtraTrips(name) => apply_add_extra(catalog, name, library),
    }
}

/// Applies an ordered modifier list to a catalog. Each modifier applies to
/// the previous result; the first validation error stops the pipeline and
/// is returned. `library` supplies the named catalogs that extra-trip
/// modifiers may merge in.
#[verifier::loop_isolation(false)]
pub fn apply(
    catalog: ScenarioCatalog,
    modifiers: &Vec<ScenarioModifier>,
    library: &Vec<ScenarioCatalog>,
) -> (r: Result<ScenarioCatalog, ModifierError>)
    requires
        forall|i: int|
            0 <= i < modifiers@.len() ==> ((#[trigger] modifiers@[i])@ matches
                ModifierView::RepeatDays(n) ==> n >= 1),
    ensures
        ({
            let pool = library@.map_values(|c: ScenarioCatalog| c@);
            let mods = modifiers@.map_values(|m: ScenarioModifier| m@);
            match r {
                Ok(c2) => spec_apply_all(catalog@, mods, pool) == Ok::<
                    CatalogView,
                    ModifierError,
                >(c2@),
                Err(e) => spec_apply_all(catalog@, mods, pool) == Err::<
                    CatalogView,
                    ModifierError,
                >(e),
            }
        }),
{
    let ghost pool = library@.map_values(|c: ScenarioCatalog| c@);
    let ghost mods = modifiers@.map_values(|m: ScenarioModifier| m@);
    let ghost orig = catalog@;
    let mut current = catalog;
    let n = modifiers.len();
    let mut i: usize = 0;
    proof {
        assert(mods.skip(0) =~= mods);
    }
    while i < n
        invariant
            i <= n == mods.len(),
            spec_apply_all(orig, mods, pool) == spec_apply_all(
                current@,
                mods.skip(i as int),
                pool,
            ),
        decreases n - i,
    {
        proof {
            assert(mods.skip(i as int).first() == mods[i as int]);
            assert(mods.skip(i as int).drop_first() =~= mods.skip(i + 1));
        }
        match apply_one(current, &modifiers[i], library) {
            Ok(next) => {
                current = next;
            },
            Err(e) => {
                return Err(e);
            },
        }
        i += 1;
    }
    proof {
        assert(mods.skip(n as int) =~= Seq::<ModifierView>::empty());
    }
    Ok(current)
}

/// Modifier pipeline determinism: what the pipeline yields is a function
/// of the base catalog, the ordered modifier list, and the catalog pool
/// alone. Together with the exact contract of `apply`, two runs over equal
/// inputs yield equal catalogs, so a replayed pipeline reproduces its
/// result.
pub proof fn lemma_apply_deterministic(
    c1: CatalogView,
    c2: CatalogView,
    mods1: Seq<ModifierView>,
    mods2: Seq<ModifierView>,
    pool1: Seq<CatalogView>,
    pool2: Seq<CatalogView>,
)
    requires
        c1 == c2,
        mods1 == mods2,
        pool1 == pool2,
    ensures
        spec_apply_all(c1, mods1, pool1) == spec_apply_all(c2, mods2, pool2),
{
}

} // verus!
