use tripflow::time::{Duration, Time};
use tripflow::window::SlidingWindow;

#[test]
fn moving_counts_match_the_window() {
    // Window of 15 minutes; departures at 0, 5, 10 and 20 minutes. At the
    // 20-minute mark the 0-minute entry has fallen out of the window, and
    // the 5-minute entry sits exactly on its closed lower edge.
    let mut w = SlidingWindow::new(Duration::minutes(15));
    assert_eq!(w.add(Time::seconds(0)), 1);
    assert_eq!(w.add(Time::seconds(5 * 60)), 2);
    assert_eq!(w.add(Time::seconds(10 * 60)), 3);
    assert_eq!(w.add(Time::seconds(20 * 60)), 3);
    assert_eq!(w.add(Time::seconds(21 * 60)), 3);
}

#[test]
fn window_boundary_is_inclusive() {
    let mut w = SlidingWindow::new(Duration::seconds(10));
    assert_eq!(w.add(Time::seconds(0)), 1);
    // 10 - 10 = 0, and the window is closed on both ends.
    assert_eq!(w.add(Time::seconds(10)), 2);
    // 0 < 11 - 10, so the first entry is now outside.
    assert_eq!(w.add(Time::seconds(11)), 2);
}

#[test]
fn equal_timestamps_all_count() {
    let mut w = SlidingWindow::new(Duration::seconds(60));
    assert_eq!(w.add(Time::seconds(30)), 1);
    assert_eq!(w.add(Time::seconds(30)), 2);
    assert_eq!(w.add(Time::seconds(30)), 3);
}

#[test]
fn count_at_a_later_instant() {
    let mut w = SlidingWindow::new(Duration::seconds(10));
    w.add(Time::seconds(0));
    w.add(Time::seconds(5));
    assert_eq!(w.count_at(Time::seconds(5)), 2);
    assert_eq!(w.count_at(Time::seconds(12)), 1);
    assert_eq!(w.count_at(Time::seconds(16)), 0);
}

#[test]
fn close_off_decays_to_zero() {
    let mut w = SlidingWindow::new(Duration::seconds(10));
    let mut pts: Vec<(Time, usize)> = vec![(Time::start_of_day(), 0)];
    let c1 = w.add(Time::seconds(3));
    pts.push((Time::seconds(3), c1));
    let c2 = w.add(Time::seconds(7));
    pts.push((Time::seconds(7), c2));
    w.close_off(&mut pts, Time::seconds(100));
    // Original points are untouched.
    assert_eq!(pts[0], (Time::seconds(0), 0));
    assert_eq!(pts[1], (Time::seconds(3), 1));
    assert_eq!(pts[2], (Time::seconds(7), 2));
    // The 3-second entry leaves the window just after 13; the 7-second
    // entry just after 17; then the series rests at zero until the end.
    assert_eq!(pts[3], (Time::seconds(14), 1));
    assert_eq!(pts[4], (Time::seconds(18), 0));
    assert_eq!(pts.last().unwrap().0, Time::seconds(100));
    assert_eq!(pts.last().unwrap().1, 0);
}

#[test]
fn close_off_with_no_entries() {
    let w = SlidingWindow::new(Duration::seconds(10));
    let mut pts: Vec<(Time, usize)> = Vec::new();
    w.close_off(&mut pts, Time::seconds(50));
    assert_eq!(pts, vec![(Time::seconds(50), 0)]);
}

#[test]
fn close_off_keeps_counts_conserved() {
    let mut w = SlidingWindow::new(Duration::seconds(15));
    for t in [0u64, 5, 10, 20] {
        w.add(Time::seconds(t));
    }
    let mut pts: Vec<(Time, usize)> = Vec::new();
    w.close_off(&mut pts, Time::seconds(120));
    // Every appended point (T, c) reports exactly the inputs in [T-15, T].
    for (t, c) in &pts {
        let count = [0u64, 5, 10, 20]
            .iter()
            .filter(|&&x| t.seconds.saturating_sub(15) <= x && x <= t.seconds)
            .count();
        assert_eq!(*c, count);
    }
}
