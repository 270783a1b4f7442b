//! The persisted form of a scenario catalog: a compact binary record that
//! preserves the field set, people order, and each person's trip order
//! exactly. Integers are little-endian; strings are length-prefixed UTF-8.

use vstd::prelude::*;
use vstd::arithmetic::div_mod::{lemma_div_denominator, lemma_fundamental_div_mod};
use vstd::utf8::{decode_utf8, encode_utf8, encode_utf8_decode_utf8, encode_utf8_valid_utf8,
    valid_utf8};

use vstd::string::{StrSliceExecFns, StringSliceAdditionalSpecFns};

use crate::ids::{BuildingID, IntersectionID, LaneID};
use crate::scenario::{CatalogView, IndividTrip, MapName, PersonSpec, PersonView, Position,
    ScenarioCatalog, TripEndpoint, TripMode, TripPurpose};
use crate::time::Time;

verus! {

/// A `u64` as eight little-endian bytes.
pub open spec fn spec_enc_u64(n: u64) -> Seq<u8> {
    seq![
        (n % 0x100) as u8,
        ((n / 0x100) % 0x100) as u8,
        ((n / 0x10000) % 0x100) as u8,
        ((n / 0x1000000) % 0x100) as u8,
        ((n / 0x100000000) % 0x100) as u8,
        ((n / 0x10000000000) % 0x100) as u8,
        ((n / 0x1000000000000) % 0x100) as u8,
        ((n / 0x100000000000000) % 0x100) as u8,
    ]
}

/// The value of eight little-endian bytes.
pub open spec fn spec_dec_u64(b: Seq<u8>) -> int {
    b[0] + b[1] * 0x100 + b[2] * 0x10000 + b[3] * 0x1000000 + b[4] * 0x100000000 + b[5]
        * 0x10000000000 + b[6] * 0x1000000000000 + b[7] * 0x100000000000000
}

/// Eight little-endian bytes decode to the value they encode.
proof fn lemma_u64_round_trip(n: u64)
    ensures
        spec_dec_u64(spec_enc_u64(n)) == n,
{
    let n0 = n as int;
    let n1 = n0 / 0x100;
    let n2 = n0 / 0x10000;
    let n3 = n0 / 0x1000000;
    let n4 = n0 / 0x100000000;
    let n5 = n0 / 0x10000000000;
    let n6 = n0 / 0x1000000000000;
    let n7 = n0 / 0x100000000000000;
    lemma_div_denominator(n0, 0x100, 0x100);
    lemma_div_denominator(n0, 0x10000, 0x100);
    lemma_div_denominator(n0, 0x1000000, 0x100);
    lemma_div_denominator(n0, 0x100000000, 0x100);
    lemma_div_denominator(n0, 0x10000000000, 0x100);
    lemma_div_denominator(n0, 0x1000000000000, 0x100);
    lemma_div_denominator(n0, 0x100000000000000, 0x100);
    lemma_fundamental_div_mod(n0, 0x100);
    lemma_fundamental_div_mod(n1, 0x100);
    lemma_fundamental_div_mod(n2, 0x100);
    lemma_fundamental_div_mod(n3, 0x100);
    lemma_fundamental_div_mod(n4, 0x100);
    lemma_fundamental_div_mod(n5, 0x100);
    lemma_fundamental_div_mod(n6, 0x100);
    lemma_fundamental_div_mod(n7, 0x100);
    assert(n7 / 0x100 == n0 / 0x10000000000000000);
    assert(n0 / 0x10000000000000000 == 0) by {
        assert(n0 < 0x10000000000000000);
        assert(n0 >= 0);
    }
}

/// Reads a `u64` at `p`, if eight bytes are available.
pub open spec fn dec_u64_at(b: Seq<u8>, p: int) -> Option<(u64, int)> {
    if 0 <= p && p + 8 <= b.len() {
        Some((spec_dec_u64(b.subrange(p, p + 8)) as u64, p + 8))
    } else {
        None
    }
}

/// Reads one byte at `p`, if available.
pub open spec fn dec_byte_at(b: Seq<u8>, p: int) -> Option<(u8, int)> {
    if 0 <= p && p + 1 <= b.len() {
        Some((b[p], p + 1))
    } else {
        None
    }
}

/// A string as its UTF-8 byte length followed by its UTF-8 bytes.
pub open spec fn spec_enc_str(s: Seq<char>) -> Seq<u8> {
    spec_enc_u64(encode_utf8(s).len() as u64) + encode_utf8(s)
}

/// Reads a length-prefixed UTF-8 string at `p`.
pub open spec fn dec_str_at(b: Seq<u8>, p: int) -> Option<(Seq<char>, int)> {
    match dec_u64_at(b, p) {
        None => None,
        Some((len, p1)) => {
            if p1 + len <= b.len() && valid_utf8(b.subrange(p1, p1 + len)) {
                Some((decode_utf8(b.subrange(p1, p1 + len)), p1 + len))
            } else {
                None
            }
        },
    }
}

/// An optional `u64` as a presence byte, then the value if present.
pub open spec fn spec_enc_opt_u64(o: Option<u64>) -> Seq<u8> {
    match o {
        None => seq![0u8],
        Some(v) => seq![1u8] + spec_enc_u64(v),
    }
}

pub open spec fn dec_opt_u64_at(b: Seq<u8>, p: int) -> Option<(Option<u64>, int)> {
    match dec_byte_at(b, p) {
        None => None,
        Some((tag, p1)) => {
            if tag == 0 {
                Some((None, p1))
            } else if tag == 1 {
                match dec_u64_at(b, p1) {
                    None => None,
                    Some((v, p2)) => Some((Some(v), p2)),
                }
            } else {
                None
            }
        },
    }
}

pub open spec fn purpose_tag(p: TripPurpose) -> u8 {
    match p {
        TripPurpose::Home => 0,
        TripPurpose::Work => 1,
        TripPurpose::School => 2,
        TripPurpose::Escort => 3,
        TripPurpose::PersonalBusiness => 4,
        TripPurpose::Shopping => 5,
        TripPurpose::Meal => 6,
        TripPurpose::Social => 7,
        TripPurpose::Recreation => 8,
        TripPurpose::Medical => 9,
    }
}

pub open spec fn purpose_from_tag(t: u8) -> Option<TripPurpose> {
    if t == 0 {
        Some(TripPurpose::Home)
    } else if t == 1 {
        Some(TripPurpose::Work)
    } else if t == 2 {
        Some(TripPurpose::School)
    } else if t == 3 {
        Some(TripPurpose::Escort)
    } else if t == 4 {
        Some(TripPurpose::PersonalBusiness)
    } else if t == 5 {
        Some(TripPurpose::Shopping)
    } else if t == 6 {
        Some(TripPurpose::Meal)
    } else if t == 7 {
        Some(TripPurpose::Social)
    } else if t == 8 {
        Some(TripPurpose::Recreation)
    } else if t == 9 {
        Some(TripPurpose::Medical)
    } else {
        None
    }
}

pub open spec fn mode_tag(m: TripMode) -> u8 {
    match m {
        TripMode::Walk => 0,
        TripMode::Bike => 1,
        TripMode::Transit => 2,
        TripMode::Drive => 3,
    }
}

pub open spec fn mode_from_tag(t: u8) -> Option<TripMode> {
    if t == 0 {
        Some(TripMode::Walk)
    } else if t == 1 {
        Some(TripMode::Bike)
    } else if t == 2 {
        Some(TripMode::Transit)
    } else if t == 3 {
        Some(TripMode::Drive)
    } else {
        None
    }
}

/// A trip endpoint as a variant tag and its identifier payload.
pub open spec fn spec_enc_endpoint(e: TripEndpoint) -> Seq<u8> {
    match e {
        TripEndpoint::Bldg(id) => seq![0u8] + spec_enc_u64(id.0),
        TripEndpoint::Border(id) => seq![1u8] + spec_enc_u64(id.0),
        TripEndpoint::SuddenlyAppear(pos) => seq![2u8] + spec_enc_u64(pos.lane.0) + spec_enc_u64(
            pos.dist_cm,
        ),
    }
}

pub open spec fn dec_endpoint_at(b: Seq<u8>, p: int) -> Option<(TripEndpoint, int)> {
    match dec_byte_at(b, p) {
        None => None,
        Some((tag, p1)) => {
            if tag == 0 {
                match dec_u64_at(b, p1) {
                    None => None,
                    Some((v, p2)) => Some((TripEndpoint::Bldg(BuildingID(v)), p2)),
                }
            } else if tag == 1 {
                match dec_u64_at(b, p1) {
                    None => None,
                    Some((v, p2)) => Some((TripEndpoint::Border(IntersectionID(v)), p2)),
                }
            } else if tag == 2 {
                match dec_u64_at(b, p1) {
                    None => None,
                    Some((lane, p2)) => match dec_u64_at(b, p2) {
                        None => None,
                        Some((dist, p3)) => Some(
                            (
                                TripEndpoint::SuddenlyAppear(
                                    Position { lane: LaneID(lane), dist_cm: dist },
                                ),
                                p3,
                            ),
                        ),
                    },
                }
            } else {
                None
            }
        },
    }
}

/// One trip: departure, purpose tag, mode tag, origin, destination.
pub open spec fn spec_enc_trip(t: IndividTrip) -> Seq<u8> {
    spec_enc_u64(t.depart.seconds) + seq![purpose_tag(t.purpose)] + seq![mode_tag(t.mode)]
        + spec_enc_endpoint(t.origin) + spec_enc_endpoint(t.destination)
}

pub open spec fn dec_trip_at(b: Seq<u8>, p: int) -> Option<(IndividTrip, int)> {
    match dec_u64_at(b, p) {
        None => None,
        Some((depart, p1)) => match dec_byte_at(b, p1) {
            None => None,
            Some((ptag, p2)) => match purpose_from_tag(ptag) {
                None => None,
                Some(purpose) => match dec_byte_at(b, p2) {
                    None => None,
                    Some((mtag, p3)) => match mode_from_tag(mtag) {
                        None => None,
                        Some(mode) => match dec_endpoint_at(b, p3) {
                            None => None,
                            Some((origin, p4)) => match dec_endpoint_at(b, p4) {
                                None => None,
                                Some((destination, p5)) => Some(
                                    (
                                        IndividTrip {
                                            depart: Time { seconds: depart },
                                            purpose,
                                            origin,
                                            destination,
                                            mode,
                                        },
                                        p5,
                                    ),
                                ),
                            },
                        },
                    },
                },
            },
        },
    }
}

/// A trip list, front to back.
pub open spec fn spec_enc_trips(trips: Seq<IndividTrip>) -> Seq<u8>
    decreases trips.len(),
{
    if trips.len() == 0 {
        Seq::empty()
    } else {
        spec_enc_trip(trips.first()) + spec_enc_trips(trips.drop_first())
    }
}

pub open spec fn dec_trips_at(b: Seq<u8>, p: int, k: nat) -> Option<(Seq<IndividTrip>, int)>
    decreases k,
{
    if k == 0 {
        Some((Seq::empty(), p))
    } else {
        match dec_trip_at(b, p) {
            None => None,
            Some((t, p1)) => match dec_trips_at(b, p1, (k - 1) as nat) {
                None => None,
                Some((rest, p2)) => Some((seq![t] + rest, p2)),
            },
        }
    }
}

/// One person: optional external identity, trip count, trips in order.
pub open spec fn spec_enc_person(p: PersonView) -> Seq<u8> {
    spec_enc_opt_u64(p.orig_id) + spec_enc_u64(p.trips.len() as u64) + spec_enc_trips(p.trips)
}

pub open spec fn dec_person_at(b: Seq<u8>, p: int) -> Option<(PersonView, int)> {
    match dec_opt_u64_at(b, p) {
        None => None,
        Some((orig_id, p1)) => match dec_u64_at(b, p1) {
            None => None,
            Some((k, p2)) => match dec_trips_at(b, p2, k as nat) {
                None => None,
                Some((trips, p3)) => Some((PersonView { orig_id, trips }, p3)),
            },
        },
    }
}

/// A people list, front to back.
pub open spec fn spec_enc_people(people: Seq<PersonView>) -> Seq<u8>
    decreases people.len(),
{
    if people.len() == 0 {
        Seq::empty()
    } else {
        spec_enc_person(people.first()) + spec_enc_people(people.drop_first())
    }
}

pub open spec fn dec_people_at(b: Seq<u8>, p: int, k: nat) -> Option<(Seq<PersonView>, int)>
    decreases k,
{
    if k == 0 {
        Some((Seq::empty(), p))
    } else {
        match dec_person_at(b, p) {
            None => None,
            Some((person, p1)) => match dec_people_at(b, p1, (k - 1) as nat) {
                None => None,
                Some((rest, p2)) => Some((seq![person] + rest, p2)),
            },
        }
    }
}

/// The whole catalog: its three names, its people count, its people.
pub open spec fn spec_enc_catalog(c: CatalogView) -> Seq<u8> {
    spec_enc_str(c.scenario_name) + spec_enc_str(c.city) + spec_enc_str(c.map) + spec_enc_u64(
        c.people.len() as u64,
    ) + spec_enc_people(c.people)
}

/// Parses a whole catalog; every byte must be consumed.
pub open spec fn spec_dec_catalog(b: Seq<u8>) -> Option<CatalogView> {
    match dec_str_at(b, 0) {
        None => None,
        Some((scenario_name, p1)) => match dec_str_at(b, p1) {
            None => None,
            Some((city, p2)) => match dec_str_at(b, p2) {
                None => None,
                Some((map, p3)) => match dec_u64_at(b, p3) {
                    None => None,
                    Some((k, p4)) => match dec_people_at(b, p4, k as nat) {
                        None => None,
                        Some((people, p5)) => {
                            if p5 == b.len() {
                                Some(CatalogView { scenario_name, city, map, people })
                            } else {
                                None
                            }
                        },
                    },
                },
            },
        },
    }
}

/// Splits knowledge of a two-part encoding into its parts.
proof fn lemma_subrange_split(b: Seq<u8>, p: int, e1: Seq<u8>, e2: Seq<u8>)
    requires
        0 <= p,
        p + e1.len() + e2.len() <= b.len(),
        b.subrange(p, p + e1.len() + e2.len()) == e1 + e2,
    ensures
        b.subrange(p, p + e1.len()) == e1,
        b.subrange(p + e1.len(), p + e1.len() + e2.len()) == e2,
{
    let whole = b.subrange(p, p + e1.len() + e2.len());
    assert(b.subrange(p, p + e1.len()) =~= e1) by {
        assert forall|i: int| 0 <= i < e1.len() implies b.subrange(p, p + e1.len())[i] == e1[i] by {
            assert(whole[i] == (e1 + e2)[i]);
        }
    }
    assert(b.subrange(p + e1.len(), p + e1.len() + e2.len()) =~= e2) by {
        assert forall|i: int| 0 <= i < e2.len() implies b.subrange(
            p + e1.len(),
            p + e1.len() + e2.len(),
        )[i] == e2[i] by {
            assert(whole[i + e1.len()] == (e1 + e2)[i + e1.len()]);
        }
    }
}

/// A `u64` encoding placed at `p` decodes to the value it encodes.
proof fn lemma_dec_u64_at_enc(b: Seq<u8>, p: int, n: u64)
    requires
        0 <= p,
        p + 8 <= b.len(),
        b.subrange(p, p + 8) == spec_enc_u64(n),
    ensures
        dec_u64_at(b, p) == Some((n, p + 8)),
{
    lemma_u64_round_trip(n);
}

/// A string encoding placed at `p` decodes to the string it encodes.
proof fn lemma_dec_str_at_enc(b: Seq<u8>, p: int, s: Seq<char>)
    requires
        0 <= p,
        encode_utf8(s).len() <= u64::MAX,
        p + spec_enc_str(s).len() <= b.len(),
        b.subrange(p, p + spec_enc_str(s).len()) == spec_enc_str(s),
    ensures
        dec_str_at(b, p) == Some((s, p + spec_enc_str(s).len())),
{
    let bytes = encode_utf8(s);
    let len = bytes.len() as u64;
    lemma_subrange_split(b, p, spec_enc_u64(len), bytes);
    lemma_dec_u64_at_enc(b, p, len);
    encode_utf8_valid_utf8(s);
    encode_utf8_decode_utf8(s);
    assert(b.subrange(p + 8, p + 8 + len) == bytes);
}

/// An optional-identity encoding placed at `p` decodes to what it encodes.
proof fn lemma_dec_opt_u64_at_enc(b: Seq<u8>, p: int, o: Option<u64>)
    requires
        0 <= p,
        p + spec_enc_opt_u64(o).len() <= b.len(),
        b.subrange(p, p + spec_enc_opt_u64(o).len()) == spec_enc_opt_u64(o),
    ensures
        dec_opt_u64_at(b, p) == Some((o, p + spec_enc_opt_u64(o).len())),
{
    match o {
        None => {
            assert(b[p] == spec_enc_opt_u64(o)[0]);
        },
        Some(v) => {
            lemma_subrange_split(b, p, seq![1u8], spec_enc_u64(v));
            assert(b[p] == seq![1u8][0]) by {
                assert(b.subrange(p, p + 1)[0] == b[p]);
            }
            lemma_dec_u64_at_enc(b, p + 1, v);
        },
    }
}

/// An endpoint encoding placed at `p` decodes to the endpoint it encodes.
proof fn lemma_dec_endpoint_at_enc(b: Seq<u8>, p: int, e: TripEndpoint)
    requires
        0 <= p,
        p + spec_enc_endpoint(e).len() <= b.len(),
        b.subrange(p, p + spec_enc_endpoint(e).len()) == spec_enc_endpoint(e),
    ensures
        dec_endpoint_at(b, p) == Some((e, p + spec_enc_endpoint(e).len())),
{
    match e {
        TripEndpoint::Bldg(id) => {
            lemma_subrange_split(b, p, seq![0u8], spec_enc_u64(id.0));
            assert(b[p] == seq![0u8][0]) by {
                assert(b.subrange(p, p + 1)[0] == b[p]);
            }
            lemma_dec_u64_at_enc(b, p + 1, id.0);
        },
        TripEndpoint::Border(id) => {
            lemma_subrange_split(b, p, seq![1u8], spec_enc_u64(id.0));
            assert(b[p] == seq![1u8][0]) by {
                assert(b.subrange(p, p + 1)[0] == b[p]);
            }
            lemma_dec_u64_at_enc(b, p + 1, id.0);
        },
        TripEndpoint::SuddenlyAppear(pos) => {
            assert(spec_enc_endpoint(e) =~= seq![2u8] + (spec_enc_u64(pos.lane.0) + spec_enc_u64(
                pos.dist_cm,
            )));
            lemma_subrange_split(
                b,
                p,
                seq![2u8],
                spec_enc_u64(pos.lane.0) + spec_enc_u64(pos.dist_cm),
            );
            assert(b[p] == seq![2u8][0]) by {
                assert(b.subrange(p, p + 1)[0] == b[p]);
            }
            lemma_subrange_split(b, p + 1, spec_enc_u64(pos.lane.0), spec_enc_u64(pos.dist_cm));
            lemma_dec_u64_at_enc(b, p + 1, pos.lane.0);
            lemma_dec_u64_at_enc(b, p + 9, pos.dist_cm);
        },
    }
}

/// A trip encoding placed at `p` decodes to the trip it encodes.
#[verifier::rlimit(100)]
proof fn lemma_dec_trip_at_enc(b: Seq<u8>, p: int, t: IndividTrip)
    requires
        0 <= p,
        p + spec_enc_trip(t).len() <= b.len(),
        b.subrange(p, p + spec_enc_trip(t).len()) == spec_enc_trip(t),
    ensures
        dec_trip_at(b, p) == Some((t, p + spec_enc_trip(t).len())),
{
    let e1 = spec_enc_u64(t.depart.seconds);
    let e2 = seq![purpose_tag(t.purpose)];
    let e3 = seq![mode_tag(t.mode)];
    let e4 = spec_enc_endpoint(t.origin);
    let e5 = spec_enc_endpoint(t.destination);
    assert(spec_enc_trip(t) =~= e1 + (e2 + (e3 + (e4 + e5))));
    lemma_subrange_split(b, p, e1, e2 + (e3 + (e4 + e5)));
    lemma_subrange_split(b, p + 8, e2, e3 + (e4 + e5));
    lemma_subrange_split(b, p + 9, e3, e4 + e5);
    lemma_subrange_split(b, p + 10, e4, e5);
    lemma_dec_u64_at_enc(b, p, t.depart.seconds);
    assert(b[p + 8] == purpose_tag(t.purpose)) by {
        assert(b.subrange(p + 8, p + 9)[0] == b[p + 8]);
        assert(e2[0] == purpose_tag(t.purpose));
    }
    assert(b[p + 9] == mode_tag(t.mode)) by {
        assert(b.subrange(p + 9, p + 10)[0] == b[p + 9]);
        assert(e3[0] == mode_tag(t.mode));
    }
    lemma_dec_endpoint_at_enc(b, p + 10, t.origin);
    lemma_dec_endpoint_at_enc(b, p + 10 + e4.len(), t.destination);
    assert(purpose_from_tag(purpose_tag(t.purpose)) == Some(t.purpose));
    assert(mode_from_tag(mode_tag(t.mode)) == Some(t.mode));
    assert(Time { seconds: t.depart.seconds } == t.depart);
}

/// A trip-list encoding placed at `p` decodes to the list it encodes.
proof fn lemma_dec_trips_at_enc(b: Seq<u8>, p: int, trips: Seq<IndividTrip>)
    requires
        0 <= p,
        p + spec_enc_trips(trips).len() <= b.len(),
        b.subrange(p, p + spec_enc_trips(trips).len()) == spec_enc_trips(trips),
    ensures
        dec_trips_at(b, p, trips.len()) == Some((trips, p + spec_enc_trips(trips).len())),
    decreases trips.len(),
{
    if trips.len() == 0 {
        assert(Seq::<IndividTrip>::empty() =~= trips);
    } else {
        let t = trips.first();
        let rest = trips.drop_first();
        lemma_subrange_split(b, p, spec_enc_trip(t), spec_enc_trips(rest));
        lemma_dec_trip_at_enc(b, p, t);
        lemma_dec_trips_at_enc(b, p + spec_enc_trip(t).len(), rest);
        assert(seq![t] + rest =~= trips);
    }
}

/// A person encoding placed at `p` decodes to the person it encodes.
proof fn lemma_dec_person_at_enc(b: Seq<u8>, p: int, person: PersonView)
    requires
        0 <= p,
        person.trips.len() <= u64::MAX,
        p + spec_enc_person(person).len() <= b.len(),
        b.subrange(p, p + spec_enc_person(person).len()) == spec_enc_person(person),
    ensures
        dec_person_at(b, p) == Some((person, p + spec_enc_person(person).len())),
{
    let e1 = spec_enc_opt_u64(person.orig_id);
    let e2 = spec_enc_u64(person.trips.len() as u64);
    let e3 = spec_enc_trips(person.trips);
    assert(spec_enc_person(person) =~= e1 + (e2 + e3));
    lemma_subrange_split(b, p, e1, e2 + e3);
    lemma_subrange_split(b, p + e1.len(), e2, e3);
    lemma_dec_opt_u64_at_enc(b, p, person.orig_id);
    lemma_dec_u64_at_enc(b, p + e1.len(), person.trips.len() as u64);
    lemma_dec_trips_at_enc(b, p + e1.len() + 8, person.trips);
    assert(PersonView { orig_id: person.orig_id, trips: person.trips } == person);
}

/// A people-list encoding placed at `p` decodes to the list it encodes.
#[verifier::rlimit(100)]
proof fn lemma_dec_people_at_enc(b: Seq<u8>, p: int, people: Seq<PersonView>)
    requires
        0 <= p,
        forall|i: int| 0 <= i < people.len() ==> (#[trigger] people[i]).trips.len() <= u64::MAX,
        p + spec_enc_people(people).len() <= b.len(),
        b.subrange(p, p + spec_enc_people(people).len()) == spec_enc_people(people),
    ensures
        dec_people_at(b, p, people.len()) == Some((people, p + spec_enc_people(people).len())),
    decreases people.len(),
{
    if people.len() == 0 {
        assert(Seq::<PersonView>::empty() =~= people);
    } else {
        let person = people.first();
        let rest = people.drop_first();
        lemma_subrange_split(b, p, spec_enc_person(person), spec_enc_people(rest));
        lemma_dec_person_at_enc(b, p, person);
        assert(forall|i: int|
            0 <= i < rest.len() ==> (#[trigger] rest[i]).trips.len() <= u64::MAX) by {
            assert(forall|i: int| 0 <= i < rest.len() ==> rest[i] == people[i + 1]);
        }
        lemma_dec_people_at_enc(b, p + spec_enc_person(person).len(), rest);
        assert(seq![person] + rest =~= people);
    }
}

/// Whether a catalog is small enough for its encoding's length prefixes.
/// Every catalog that fits in memory satisfies this.
pub open spec fn catalog_fits(c: CatalogView) -> bool {
    &&& c.people.len() <= u64::MAX
    &&& forall|i: int| 0 <= i < c.people.len() ==> (#[trigger] c.people[i]).trips.len() <= u64::MAX
    &&& encode_utf8(c.scenario_name).len() <= u64::MAX
    &&& encode_utf8(c.city).len() <= u64::MAX
    &&& encode_utf8(c.map).len() <= u64::MAX
}

/// Round-trip: decoding an encoded catalog yields the catalog back, with
/// person order, trip order, and every trip field preserved exactly.
#[verifier::rlimit(100)]
#[verifier::spinoff_prover]
pub proof fn lemma_catalog_round_trip(c: CatalogView)
    requires
        catalog_fits(c),
    ensures
        spec_dec_catalog(spec_enc_catalog(c)) == Some(c),
{
    let b = spec_enc_catalog(c);
    let e1 = spec_enc_str(c.scenario_name);
    let e2 = spec_enc_str(c.city);
    let e3 = spec_enc_str(c.map);
    let e4 = spec_enc_u64(c.people.len() as u64);
    let e5 = spec_enc_people(c.people);
    assert(b =~= e1 + (e2 + (e3 + (e4 + e5))));
    assert(b.subrange(0, b.len() as int) =~= b);
    lemma_subrange_split(b, 0, e1, e2 + (e3 + (e4 + e5)));
    lemma_subrange_split(b, e1.len() as int, e2, e3 + (e4 + e5));
    lemma_subrange_split(b, (e1.len() + e2.len()) as int, e3, e4 + e5);
    lemma_subrange_split(b, (e1.len() + e2.len() + e3.len()) as int, e4, e5);
    lemma_dec_str_at_enc(b, 0, c.scenario_name);
    lemma_dec_str_at_enc(b, e1.len() as int, c.city);
    lemma_dec_str_at_enc(b, (e1.len() + e2.len()) as int, c.map);
    lemma_dec_u64_at_enc(b, (e1.len() + e2.len() + e3.len()) as int, c.people.len() as u64);
    lemma_dec_people_at_enc(b, (e1.len() + e2.len() + e3.len() + 8) as int, c.people);
    assert(CatalogView {
        scenario_name: c.scenario_name,
        city: c.city,
        map: c.map,
        people: c.people,
    } == c);
}

/// Appends a `u64` as eight little-endian bytes.
fn push_u64(out: &mut Vec<u8>, n: u64)
    ensures
        final(out)@ == old(out)@ + spec_enc_u64(n),
{
    out.push((n % 0x100) as u8);
    out.push(((n / 0x100) % 0x100) as u8);
    out.push(((n / 0x10000) % 0x100) as u8);
    out.push(((n / 0x1000000) % 0x100) as u8);
    out.push(((n / 0x100000000) % 0x100) as u8);
    out.push(((n / 0x10000000000) % 0x100) as u8);
    out.push(((n / 0x1000000000000) % 0x100) as u8);
    out.push(((n / 0x100000000000000) % 0x100) as u8);
    proof {
        assert(out@ =~= old(out)@ + spec_enc_u64(n));
    }
}

/// Appends a string as its UTF-8 byte length, then its UTF-8 bytes.
#[verifier::loop_isolation(false)]
fn push_str(out: &mut Vec<u8>, s: &String)
    ensures
        final(out)@ == old(out)@ + spec_enc_str(s@),
{
    let bytes = s.as_str().as_bytes_vec();
    push_u64(out, bytes.len() as u64);
    let ghost mid = out@;
    let n = bytes.len();
    let mut i: usize = 0;
    proof {
        assert(out@ =~= mid + bytes@.take(0));
    }
    while i < n
        invariant
            i <= n == bytes@.len(),
            out@ == mid + bytes@.take(i as int),
        decreases n - i,
    {
        out.push(bytes[i]);
        proof {
            assert(bytes@.take(i + 1) =~= bytes@.take(i as int).push(bytes@[i as int]));
            assert(out@ =~= mid + bytes@.take(i + 1));
        }
        i += 1;
    }
    proof {
        assert(bytes@.take(n as int) =~= bytes@);
        assert(out@ =~= old(out)@ + spec_enc_str(s@));
    }
}

/// Appends an optional identity as a presence byte, then the value.
fn push_opt_u64(out: &mut Vec<u8>, o: &Option<u64>)
    ensures
        final(out)@ == old(out)@ + spec_enc_opt_u64(*o),
{
    match o {
        None => {
            out.push(0u8);
            proof {
                assert(out@ =~= old(out)@ + spec_enc_opt_u64(*o));
            }
        },
        Some(v) => {
            out.push(1u8);
            push_u64(out, *v);
            proof {
                assert(out@ =~= old(out)@ + spec_enc_opt_u64(*o));
            }
        },
    }
}

/// Appends an endpoint as a variant tag and its identifier payload.
fn push_endpoint(out: &mut Vec<u8>, e: &TripEndpoint)
    ensures
        final(out)@ == old(out)@ + spec_enc_endpoint(*e),
{
    match e {
        TripEndpoint::Bldg(id) => {
            out.push(0u8);
            push_u64(out, id.0);
            proof {
                assert(out@ =~= old(out)@ + spec_enc_endpoint(*e));
            }
        },
        TripEndpoint::Border(id) => {
            out.push(1u8);
            push_u64(out, id.0);
            proof {
                assert(out@ =~= old(out)@ + spec_enc_endpoint(*e));
            }
        },
        TripEndpoint::SuddenlyAppear(pos) => {
            out.push(2u8);
            push_u64(out, pos.lane.0);
            push_u64(out, pos.dist_cm);
            proof {
                assert(out@ =~= old(out)@ + spec_enc_endpoint(*e));
            }
        },
    }
}

fn purpose_tag_exec(p: TripPurpose) -> (r: u8)
    ensures
        r == purpose_tag(p),
{
    match p {
        TripPurpose::Home => 0,
        TripPurpose::Work => 1,
        TripPurpose::School => 2,
        TripPurpose::Escort => 3,
        TripPurpose::PersonalBusiness => 4,
        TripPurpose::Shopping => 5,
        TripPurpose::Meal => 6,
        TripPurpose::Social => 7,
        TripPurpose::Recreation => 8,
        TripPurpose::Medical => 9,
    }
}

fn mode_tag_exec(m: TripMode) -> (r: u8)
    ensures
        r == mode_tag(m),
{
    match m {
        TripMode::Walk => 0,
        TripMode::Bike => 1,
        TripMode::Transit => 2,
        TripMode::Drive => 3,
    }
}

/// Appends one trip.
fn push_trip(out: &mut Vec<u8>, t: &IndividTrip)
    ensures
        final(out)@ == old(out)@ + spec_enc_trip(*t),
{
    push_u64(out, t.depart.seconds);
    out.push(purpose_tag_exec(t.purpose));
    out.push(mode_tag_exec(t.mode));
    push_endpoint(out, &t.origin);
    push_endpoint(out, &t.destination);
    proof {
        assert(out@ =~= old(out)@ + spec_enc_trip(*t));
    }
}

/// Trip-list encodings concatenate.
proof fn lemma_enc_trips_concat(a: Seq<IndividTrip>, b: Seq<IndividTrip>)
    ensures
        spec_enc_trips(a + b) == spec_enc_trips(a) + spec_enc_trips(b),
    decreases a.len(),
{
    if a.len() == 0 {
        assert(a + b =~= b);
        assert(spec_enc_trips(a) + spec_enc_trips(b) =~= spec_enc_trips(b));
    } else {
        assert((a + b).drop_first() =~= a.drop_first() + b);
        assert((a + b).first() == a.first());
        lemma_enc_trips_concat(a.drop_first(), b);
        assert(spec_enc_trip(a.first()) + (spec_enc_trips(a.drop_first()) + spec_enc_trips(b))
            =~= (spec_enc_trip(a.first()) + spec_enc_trips(a.drop_first())) + spec_enc_trips(b));
    }
}

/// People-list encodings concatenate.
proof fn lemma_enc_people_concat(a: Seq<PersonView>, b: Seq<PersonView>)
    ensures
        spec_enc_people(a + b) == spec_enc_people(a) + spec_enc_people(b),
    decreases a.len(),
{
    if a.len() == 0 {
        assert(a + b =~= b);
        assert(spec_enc_people(a) + spec_enc_people(b) =~= spec_enc_people(b));
    } else {
        assert((a + b).drop_first() =~= a.drop_first() + b);
        assert((a + b).first() == a.first());
        lemma_enc_people_concat(a.drop_first(), b);
        assert(spec_enc_person(a.first()) + (spec_enc_people(a.drop_first()) + spec_enc_people(b))
            =~= (spec_enc_person(a.first()) + spec_enc_people(a.drop_first())) + spec_enc_people(
            b,
        ));
    }
}

/// Appends one person.
#[verifier::rlimit(100)]
#[verifier::spinoff_prover]
#[verifier::loop_isolation(false)]
fn push_person(out: &mut Vec<u8>, person: &PersonSpec)
    ensures
        final(out)@ == old(out)@ + spec_enc_person(person@),
{
    push_opt_u64(out, &person.orig_id);
    push_u64(out, person.trips.len() as u64);
    let ghost mid = out@;
    let n = person.trips.len();
    let mut j: usize = 0;
    proof {
        assert(person.trips@.take(0) =~= Seq::<IndividTrip>::empty());
        assert(out@ =~= mid + spec_enc_trips(person.trips@.take(0)));
    }
    while j < n
        invariant
            j <= n == person.trips@.len(),
            out@ == mid + spec_enc_trips(person.trips@.take(j as int)),
        decreases n - j,
    {
        push_trip(out, &person.trips[j]);
        proof {
            assert(person.trips@.take(j + 1) =~= person.trips@.take(j as int) + seq![
                person.trips@[j as int],
            ]);
            lemma_enc_trips_concat(person.trips@.take(j as int), seq![person.trips@[j as int]]);
            assert(spec_enc_trips(seq![person.trips@[j as int]]) =~= spec_enc_trip(
                person.trips@[j as int],
            )) by {
                assert(seq![person.trips@[j as int]].drop_first() =~= Seq::<IndividTrip>::empty());
                assert(spec_enc_trip(person.trips@[j as int]) + Seq::<u8>::empty() =~= spec_enc_trip(
                    person.trips@[j as int],
                ));
            }
            assert(out@ =~= mid + spec_enc_trips(person.trips@.take(j + 1)));
        }
        j += 1;
    }
    proof {
        assert(person.trips@.take(n as int) =~= person.trips@);
        assert(out@ =~= old(out)@ + spec_enc_person(person@));
    }
}

/// Serializes a catalog to its binary form.
#[verifier::loop_isolation(false)]
pub fn encode_catalog(catalog: &ScenarioCatalog) -> (out: Vec<u8>)
    ensures
        out@ == spec_enc_catalog(catalog@),
{
    let ghost cv = catalog@;
    let mut out: Vec<u8> = Vec::new();
    push_str(&mut out, &catalog.scenario_name);
    push_str(&mut out, &catalog.map_name.city);
    push_str(&mut out, &catalog.map_name.map);
    push_u64(&mut out, catalog.people.len() as u64);
    let ghost mid = out@;
    let n = catalog.people.len();
    let mut i: usize = 0;
    proof {
        assert(cv.people.take(0) =~= Seq::<PersonView>::empty());
        assert(out@ =~= mid + spec_enc_people(cv.people.take(0)));
    }
    while i < n
        invariant
            i <= n == cv.people.len(),
            out@ == mid + spec_enc_people(cv.people.take(i as int)),
        decreases n - i,
    {
        push_person(&mut out, &catalog.people[i]);
        proof {
            assert(catalog.people@[i as int]@ == cv.people[i as int]);
            assert(cv.people.take(i + 1) =~= cv.people.take(i as int) + seq![cv.people[i as int]]);
            lemma_enc_people_concat(cv.people.take(i as int), seq![cv.people[i as int]]);
            assert(spec_enc_people(seq![cv.people[i as int]]) =~= spec_enc_person(
                cv.people[i as int],
            )) by {
                assert(seq![cv.people[i as int]].drop_first() =~= Seq::<PersonView>::empty());
                assert(spec_enc_person(cv.people[i as int]) + Seq::<u8>::empty() =~= spec_enc_person(
                    cv.people[i as int],
                ));
            }
            assert(out@ =~= mid + spec_enc_people(cv.people.take(i + 1)));
        }
        i += 1;
    }
    proof {
        assert(cv.people.take(n as int) =~= cv.people);
        assert(out@ =~= spec_enc_catalog(cv));
    }
    out
}

/// Relies on String::from_utf8: it returns the string holding exactly the
/// given bytes when they are valid UTF-8, and an error otherwise.
#[verifier::external_body]
fn bytes_to_string(v: Vec<u8>) -> (r: Option<String>)
    ensures
        match r {
            Some(s) => valid_utf8(v@) && s@ == decode_utf8(v@),
            None => !valid_utf8(v@),
        },
{
    match String::from_utf8(v) {
        Ok(s) => Some(s),
        Err(_) => None,
    }
}

/// Reads a `u64` at `pos`, if eight bytes are available.
fn read_u64(bytes: &Vec<u8>, pos: usize) -> (r: Option<(u64, usize)>)
    ensures
        match r {
            Some((v, p2)) => dec_u64_at(bytes@, pos as int) == Some((v, p2 as int)),
            None => dec_u64_at(bytes@, pos as int) is None,
        },
{
    if pos > bytes.len() || bytes.len() - pos < 8 {
        return None;
    }
    let b0 = bytes[pos] as u64;
    let b1 = bytes[pos + 1] as u64;
    let b2 = bytes[pos + 2] as u64;
    let b3 = bytes[pos + 3] as u64;
    let b4 = bytes[pos + 4] as u64;
    let b5 = bytes[pos + 5] as u64;
    let b6 = bytes[pos + 6] as u64;
    let b7 = bytes[pos + 7] as u64;
    let v = b0 + 0x100 * (b1 + 0x100 * (b2 + 0x100 * (b3 + 0x100 * (b4 + 0x100 * (b5 + 0x100 * (b6
        + 0x100 * b7))))));
    proof {
        let sub = bytes@.subrange(pos as int, pos + 8);
        assert(sub[0] == bytes@[pos as int]);
        assert(sub[1] == bytes@[pos + 1]);
        assert(sub[2] == bytes@[pos + 2]);
        assert(sub[3] == bytes@[pos + 3]);
        assert(sub[4] == bytes@[pos + 4]);
        assert(sub[5] == bytes@[pos + 5]);
        assert(sub[6] == bytes@[pos + 6]);
        assert(sub[7] == bytes@[pos + 7]);
        assert(spec_dec_u64(sub) == v);
    }
    Some((v, pos + 8))
}

/// Reads one byte at `pos`, if available.
fn read_byte(bytes: &Vec<u8>, pos: usize) -> (r: Option<(u8, usize)>)
    ensures
        match r {
            Some((v, p2)) => dec_byte_at(bytes@, pos as int) == Some((v, p2 as int)),
            None => dec_byte_at(bytes@, pos as int) is None,
        },
{
    if pos < bytes.len() {
        Some((bytes[pos], pos + 1))
    } else {
        None
    }
}

/// Reads a length-prefixed UTF-8 string at `pos`.
#[verifier::loop_isolation(false)]
fn read_str(bytes: &Vec<u8>, pos: usize) -> (r: Option<(String, usize)>)
    ensures
        match r {
            Some((s, p2)) => dec_str_at(bytes@, pos as int) == Some((s@, p2 as int)),
            None => dec_str_at(bytes@, pos as int) is None,
        },
{
    let (len64, p1) = match read_u64(bytes, pos) {
        Some(x) => x,
        None => {
            return None;
        },
    };
    if len64 > (bytes.len() - p1) as u64 {
        return None;
    }
    let len = len64 as usize;
    let mut sub: Vec<u8> = Vec::new();
    let mut i: usize = 0;
    proof {
        assert(sub@ =~= bytes@.subrange(p1 as int, p1 as int));
    }
    while i < len
        invariant
            i <= len,
            p1 + len <= bytes@.len(),
            sub@ == bytes@.subrange(p1 as int, p1 + i),
        decreases len - i,
    {
        sub.push(bytes[p1 + i]);
        proof {
            assert(sub@ =~= bytes@.subrange(p1 as int, p1 + i + 1));
        }
        i += 1;
    }
    match bytes_to_string(sub) {
        Some(s) => Some((s, p1 + len)),
        None => None,
    }
}

/// Reads an optional identity at `pos`.
fn read_opt_u64(bytes: &Vec<u8>, pos: usize) -> (r: Option<(Option<u64>, usize)>)
    ensures
        match r {
            Some((v, p2)) => dec_opt_u64_at(bytes@, pos as int) == Some((v, p2 as int)),
            None => dec_opt_u64_at(bytes@, pos as int) is None,
        },
{
    let (tag, p1) = match read_byte(bytes, pos) {
        Some(x) => x,
        None => {
            return None;
        },
    };
    if tag == 0 {
        Some((None, p1))
    } else if tag == 1 {
        match read_u64(bytes, p1) {
            Some((v, p2)) => Some((Some(v), p2)),
            None => None,
        }
    } else {
        None
    }
}

/// Reads an endpoint at `pos`.
fn read_endpoint(bytes: &Vec<u8>, pos: usize) -> (r: Option<(TripEndpoint, usize)>)
    ensures
        match r {
            Some((e, p2)) => dec_endpoint_at(bytes@, pos as int) == Some((e, p2 as int)),
            None => dec_endpoint_at(bytes@, pos as int) is None,
        },
{
    let (tag, p1) = match read_byte(bytes, pos) {
        Some(x) => x,
        None => {
            return None;
        },
    };
    if tag == 0 {
        match read_u64(bytes, p1) {
            Some((v, p2)) => Some((TripEndpoint::Bldg(BuildingID(v)), p2)),
            None => None,
        }
    } else if tag == 1 {
        match read_u64(bytes, p1) {
            Some((v, p2)) => Some((TripEndpoint::Border(IntersectionID(v)), p2)),
            None => None,
        }
    } else if tag == 2 {
        match read_u64(bytes, p1) {
            Some((lane, p2)) => match read_u64(bytes, p2) {
                Some((dist, p3)) => Some(
                    (TripEndpoint::SuddenlyAppear(Position { lane: LaneID(lane), dist_cm: dist }), p3),
                ),
                None => None,
            },
            None => None,
        }
    } else {
        None
    }
}

fn purpose_from_exec(t: u8) -> (r: Option<TripPurpose>)
    ensures
        r == purpose_from_tag(t),
{
    if t == 0 {
        Some(TripPurpose::Home)
    } else if t == 1 {
        Some(TripPurpose::Work)
    } else if t == 2 {
        Some(TripPurpose::School)
    } else if t == 3 {
        Some(TripPurpose::Escort)
    } else if t == 4 {
        Some(TripPurpose::PersonalBusiness)
    } else if t == 5 {
        Some(TripPurpose::Shopping)
    } else if t == 6 {
        Some(TripPurpose::Meal)
    } else if t == 7 {
        Some(TripPurpose::Social)
    } else if t == 8 {
        Some(TripPurpose::Recreation)
    } else if t == 9 {
        Some(TripPurpose::Medical)
    } else {
        None
    }
}

fn mode_from_exec(t: u8) -> (r: Option<TripMode>)
    ensures
        r == mode_from_tag(t),
{
    if t == 0 {
        Some(TripMode::Walk)
    } else if t == 1 {
        Some(TripMode::Bike)
    } else if t == 2 {
        Some(TripMode::Transit)
    } else if t == 3 {
        Some(TripMode::Drive)
    } else {
        None
    }
}

/// Reads one trip at `pos`.
fn read_trip(bytes: &Vec<u8>, pos: usize) -> (r: Option<(IndividTrip, usize)>)
    ensures
        match r {
            Some((t, p2)) => dec_trip_at(bytes@, pos as int) == Some((t, p2 as int)),
            None => dec_trip_at(bytes@, pos as int) is None,
        },
{
    let (depart, p1) = match read_u64(bytes, pos) {
        Some(x) => x,
        None => {
            return None;
        },
    };
    let (ptag, p2) = match read_byte(bytes, p1) {
        Some(x) => x,
        None => {
            return None;
        },
    };
    let purpose = match purpose_from_exec(ptag) {
        Some(x) => x,
        None => {
            return None;
        },
    };
    let (mtag, p3) = match read_byte(bytes, p2) {
        Some(x) => x,
        None => {
            return None;
        },
    };
    let mode = match mode_from_exec(mtag) {
        Some(x) => x,
        None => {
            return None;
        },
    };
    let (origin, p4) = match read_endpoint(bytes, p3) {
        Some(x) => x,
        None => {
            return None;
        },
    };
    let (destination, p5) = match read_endpoint(bytes, p4) {
        Some(x) => x,
        None => {
            return None;
        },
    };
    Some((IndividTrip { depart: Time { seconds: depart }, purpose, origin, destination, mode }, p5))
}

/// Reads `k` trips at `pos`.
#[verifier::loop_isolation(false)]
fn read_trips(bytes: &Vec<u8>, pos: usize, k: u64) -> (r: Option<(Vec<IndividTrip>, usize)>)
    ensures
        match r {
            Some((v, p2)) => dec_trips_at(bytes@, pos as int, k as nat) == Some((v@, p2 as int)),
            None => dec_trips_at(bytes@, pos as int, k as nat) is None,
        },
{
    let mut acc: Vec<IndividTrip> = Vec::new();
    let mut p = pos;
    let mut i: u64 = 0;
    while i < k
        invariant
            i <= k,
            match dec_trips_at(bytes@, p as int, (k - i) as nat) {
                Some((rest, pend)) => dec_trips_at(bytes@, pos as int, k as nat) == Some(
                    (acc@ + rest, pend),
                ),
                None => dec_trips_at(bytes@, pos as int, k as nat) is None,
            },
        decreases k - i,
    {
        match read_trip(bytes, p) {
            Some((t, p1)) => {
                let ghost accv = acc@;
                acc.push(t);
                proof {
                    if let Some((rest2, pend)) = dec_trips_at(bytes@, p1 as int, (k - i - 1) as nat) {
                        assert(dec_trips_at(bytes@, p as int, (k - i) as nat) == Some(
                            ((seq![t] + rest2), pend),
                        ));
                        assert(accv + (seq![t] + rest2) =~= acc@ + rest2);
                    }
                }
                p = p1;
            },
            None => {
                return None;
            },
        }
        i += 1;
    }
    proof {
        assert(dec_trips_at(bytes@, p as int, 0) == Some((Seq::<IndividTrip>::empty(), p as int)));
        assert(acc@ + Seq::<IndividTrip>::empty() =~= acc@);
    }
    Some((acc, p))
}

/// Reads one person at `pos`.
fn read_person(bytes: &Vec<u8>, pos: usize) -> (r: Option<(PersonSpec, usize)>)
    ensures
        match r {
            Some((person, p2)) => dec_person_at(bytes@, pos as int) == Some((person@, p2 as int)),
            None => dec_person_at(bytes@, pos as int) is None,
        },
{
    let (orig_id, p1) = match read_opt_u64(bytes, pos) {
        Some(x) => x,
        None => {
            return None;
        },
    };
    let (k, p2) = match read_u64(bytes, p1) {
        Some(x) => x,
        None => {
            return None;
        },
    };
    match read_trips(bytes, p2, k) {
        Some((trips, p3)) => Some((PersonSpec { orig_id, trips }, p3)),
        None => None,
    }
}

/// Reads `k` people at `pos`.
#[verifier::loop_isolation(false)]
fn read_people(bytes: &Vec<u8>, pos: usize, k: u64) -> (r: Option<(Vec<PersonSpec>, usize)>)
    ensures
        match r {
            Some((v, p2)) => dec_people_at(bytes@, pos as int, k as nat) == Some(
                (v@.map_values(|p: PersonSpec| p@), p2 as int),
            ),
            None => dec_people_at(bytes@, pos as int, k as nat) is None,
        },
{
    let mut acc: Vec<PersonSpec> = Vec::new();
    let mut p = pos;
    let mut i: u64 = 0;
    while i < k
        invariant
            i <= k,
            match dec_people_at(bytes@, p as int, (k - i) as nat) {
                Some((rest, pend)) => dec_people_at(bytes@, pos as int, k as nat) == Some(
                    (acc@.map_values(|q: PersonSpec| q@) + rest, pend),
                ),
                None => dec_people_at(bytes@, pos as int, k as nat) is None,
            },
        decreases k - i,
    {
        match read_person(bytes, p) {
            Some((person, p1)) => {
                let ghost accv = acc@.map_values(|q: PersonSpec| q@);
                let ghost pv = person@;
                acc.push(person);
                proof {
                    assert(acc@.map_values(|q: PersonSpec| q@) =~= accv.push(pv));
                    if let Some((rest2, pend)) = dec_people_at(
                        bytes@,
                        p1 as int,
                        (k - i - 1) as nat,
                    ) {
                        assert(dec_people_at(bytes@, p as int, (k - i) as nat) == Some(
                            ((seq![pv] + rest2), pend),
                        ));
                        assert(accv + (seq![pv] + rest2) =~= accv.push(pv) + rest2);
                    }
                }
                p = p1;
            },
            None => {
                return None;
            },
        }
        i += 1;
    }
    proof {
        assert(dec_people_at(bytes@, p as int, 0) == Some((Seq::<PersonView>::empty(), p as int)));
        assert(acc@.map_values(|q: PersonSpec| q@) + Seq::<PersonView>::empty() =~= acc@.map_values(
            |q: PersonSpec| q@,
        ));
    }
    Some((acc, p))
}

/// Parses a catalog from its binary form. `None` exactly when the bytes
/// are not a complete, well-formed encoding.
pub fn decode_catalog(bytes: &Vec<u8>) -> (r: Option<ScenarioCatalog>)
    ensures
        match r {
            Some(c) => spec_dec_catalog(bytes@) == Some(c@),
            None => spec_dec_catalog(bytes@) is None,
        },
{
    let (scenario_name, p1) = match read_str(bytes, 0) {
        Some(x) => x,
        None => {
            return None;
        },
    };
    let (city, p2) = match read_str(bytes, p1) {
        Some(x) => x,
        None => {
            return None;
        },
    };
    let (map, p3) = match read_str(bytes, p2) {
        Some(x) => x,
        None => {
            return None;
        },
    };
    let (k, p4) = match read_u64(bytes, p3) {
        Some(x) => x,
        None => {
            return None;
        },
    };
    let (people, p5) = match read_people(bytes, p4, k) {
        Some(x) => x,
        None => {
            return None;
        },
    };
    if p5 != bytes.len() {
        return None;
    }
    Some(ScenarioCatalog { scenario_name, map_name: MapName { city, map }, people })
}

} // verus!
