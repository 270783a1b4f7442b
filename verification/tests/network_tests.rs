use tripflow::ids::{IntersectionID, LaneID, RoadID};
use tripflow::network::{
    detect_filters, intersections_from_roads, tag_is, Intersection, Lane, Road, RoadNetwork, Tag,
};
use tripflow::scenario::MapName;

fn tag(key: &str, value: &str) -> Tag {
    Tag { key: key.to_string(), value: value.to_string() }
}

fn road(id: u64, src: u64, dst: u64, length_cm: u64, tags: Vec<Tag>, driveable: bool) -> Road {
    Road {
        id: RoadID(id),
        src_i: IntersectionID(src),
        dst_i: IntersectionID(dst),
        length_cm,
        tags,
        driveable,
    }
}

fn network(roads: Vec<Road>, intersections: Vec<Intersection>) -> RoadNetwork {
    RoadNetwork {
        name: MapName { city: "leeds".to_string(), map: "center".to_string() },
        lanes: vec![Lane { id: LaneID(0), src_i: IntersectionID(1) }],
        roads,
        intersections,
    }
}

fn inter(id: u64, roads: Vec<u64>) -> Intersection {
    Intersection { id: IntersectionID(id), roads: roads.into_iter().map(RoadID).collect() }
}

#[test]
fn tags_look_up_first_match() {
    let tags = vec![tag("highway", "cycleway"), tag("oneway", "no")];
    assert!(tag_is(&tags, "highway", "cycleway"));
    assert!(!tag_is(&tags, "highway", "footway"));
    assert!(!tag_is(&tags, "oneway", "yes"));
    assert!(!tag_is(&tags, "surface", "paved"));
}

#[test]
fn filters_are_detected() {
    // Road 1: a short cycleway joining driveable roads at both ends.
    let map = network(
        vec![
            road(1, 10, 11, 1500, vec![tag("highway", "cycleway")], false),
            road(2, 10, 12, 9000, vec![tag("highway", "residential")], true),
            road(3, 11, 13, 9000, vec![tag("highway", "residential")], true),
        ],
        vec![inter(10, vec![1, 2]), inter(11, vec![1, 3])],
    );
    assert_eq!(detect_filters(&map), vec![RoadID(1)]);
}

#[test]
fn oneway_long_or_isolated_cycleways_are_not_filters() {
    let map = network(
        vec![
            // One-way cycleway: skipped.
            road(1, 10, 11, 1500, vec![tag("highway", "cycleway"), tag("oneway", "yes")], false),
            // Too long to drive over: skipped.
            road(2, 10, 11, 2500, vec![tag("highway", "cycleway")], false),
            // An end that joins no driveable road: skipped.
            road(3, 10, 14, 1000, vec![tag("highway", "cycleway")], false),
            road(4, 10, 12, 9000, vec![tag("highway", "residential")], true),
            road(5, 11, 13, 9000, vec![tag("highway", "residential")], true),
        ],
        vec![inter(10, vec![1, 2, 3, 4]), inter(11, vec![1, 2, 5]), inter(14, vec![3])],
    );
    assert_eq!(detect_filters(&map), Vec::<RoadID>::new());
}

#[test]
fn interior_intersections_of_a_road_set() {
    // Roads 1 and 2 meet at intersection 20, where nothing else meets;
    // intersections 10 and 30 also touch outside roads.
    let map = network(
        vec![
            road(1, 10, 20, 100, vec![], true),
            road(2, 20, 30, 100, vec![], true),
            road(3, 30, 40, 100, vec![], true),
        ],
        vec![
            inter(10, vec![1, 3]),
            inter(20, vec![1, 2]),
            inter(30, vec![2, 3]),
        ],
    );
    let picked = vec![RoadID(1), RoadID(2)];
    let result = intersections_from_roads(&picked, &map);
    assert_eq!(result, vec![IntersectionID(20)]);

    let all = vec![RoadID(1), RoadID(2), RoadID(3)];
    let mut result = intersections_from_roads(&all, &map);
    result.sort_by_key(|i| i.0);
    assert_eq!(result, vec![IntersectionID(10), IntersectionID(20), IntersectionID(30)]);
}
