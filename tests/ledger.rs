use activity_tracker::ledger::{Activities, ClearMarker, Interval, LedgerError};

fn open_count(a: &Activities) -> usize {
    a.intervals().iter().filter(|i| i.end_time.is_none()).count()
}

fn total(times: &[(String, u64)], name: &str) -> Option<u64> {
    times.iter().find(|(n, _)| n == name).map(|(_, t)| *t)
}

fn seeded() -> Activities {
    let mut a = Activities::new();
    a.init_db();
    a
}

#[test]
fn init_db_seeds_epoch_marker_once() {
    let mut a = Activities::new();
    a.init_db();
    a.init_db();
    assert_eq!(a.clears(), &vec![ClearMarker { id: 1, time: 0 }]);
}

#[test]
fn coding_scenario_totals_hundred_seconds() {
    let mut a = seeded();
    a.start_activity("Coding", 0, 1000).unwrap();
    a.stop_activity(0, 1100);
    let times = a.activities_times(1200);
    assert_eq!(times, vec![("Coding".to_string(), 100)]);
}

#[test]
fn start_b_closes_a_at_b_start() {
    let mut a = seeded();
    a.start_activity("A", 0, 0).unwrap();
    a.start_activity("B", 0, 50).unwrap();
    let iv = a.intervals();
    assert_eq!(iv.len(), 2);
    assert_eq!((iv[0].name.as_str(), iv[0].start_time, iv[0].end_time), ("A", 0, Some(50)));
    assert_eq!((iv[1].name.as_str(), iv[1].start_time, iv[1].end_time), ("B", 50, None));
}

#[test]
fn start_with_offset_shares_instant_with_close() {
    let mut a = seeded();
    a.start_activity("A", 0, 1000).unwrap();
    a.start_activity("B", -300, 2000).unwrap();
    let iv = a.intervals();
    assert_eq!(iv[0].end_time, Some(1700));
    assert_eq!(iv[1].start_time, 1700);
    assert_eq!(open_count(&a), 1);
}

#[test]
fn start_backdated_before_running_start_is_clamped() {
    let mut a = seeded();
    a.start_activity("A", 0, 1000).unwrap();
    a.start_activity("B", -500, 1100).unwrap();
    let iv = a.intervals();
    assert_eq!(iv[0].end_time, Some(1000));
    assert_eq!(iv[1].start_time, 1000);
}

#[test]
fn stop_before_start_gives_zero_duration() {
    let mut a = seeded();
    a.start_activity("A", 0, 1000).unwrap();
    a.stop_activity(-500, 1100);
    assert_eq!(a.intervals()[0].end_time, Some(1000));
    assert_eq!(a.activities_times(5000), vec![("A".to_string(), 0)]);
}

#[test]
fn at_most_one_open_after_any_sequence() {
    let mut a = seeded();
    let names = ["A", "B", "A", "C", "B"];
    let mut now = 100;
    for (k, n) in names.iter().enumerate() {
        a.start_activity(n, (k as i64) * 7 - 10, now).unwrap();
        assert_eq!(open_count(&a), 1);
        if k % 2 == 1 {
            a.stop_activity(-3, now + 5);
            assert_eq!(open_count(&a), 0);
        }
        now += 60;
    }
}

#[test]
fn several_open_intervals_are_all_closed() {
    let rows = vec![
        Interval { id: 1, name: "A".to_string(), start_time: 10, end_time: None },
        Interval { id: 2, name: "B".to_string(), start_time: 30, end_time: None },
        Interval { id: 3, name: "C".to_string(), start_time: 20, end_time: None },
    ];
    let mut a = Activities::from_records(rows, vec![ClearMarker { id: 1, time: 0 }]).unwrap();
    assert_eq!(a.currrent_activity(), Some(("B".to_string(), 30)));
    a.stop_activity(0, 25);
    assert_eq!(open_count(&a), 0);
    assert!(a.intervals().iter().all(|i| i.end_time == Some(30)));
}

#[test]
fn current_activity_reports_running_one() {
    let mut a = seeded();
    assert_eq!(a.currrent_activity(), None);
    a.start_activity("Reading", 0, 500).unwrap();
    assert_eq!(a.currrent_activity(), Some(("Reading".to_string(), 500)));
    a.stop_activity(0, 600);
    assert_eq!(a.currrent_activity(), None);
}

#[test]
fn stop_twice_without_open_interval_changes_nothing() {
    let mut a = seeded();
    a.start_activity("A", 0, 10).unwrap();
    a.stop_activity(0, 20);
    let before: Vec<_> = a.intervals().iter().map(|i| (i.id, i.name.clone(), i.start_time, i.end_time)).collect();
    a.stop_activity(0, 30);
    a.stop_activity(100, 40);
    let after: Vec<_> = a.intervals().iter().map(|i| (i.id, i.name.clone(), i.start_time, i.end_time)).collect();
    assert_eq!(before, after);
    assert_eq!(a.clears().len(), 1);
}

#[test]
fn clear_drops_earlier_intervals_from_totals_but_not_names() {
    let mut a = seeded();
    a.start_activity("Old", 0, 100).unwrap();
    a.stop_activity(0, 200);
    a.start_activity("Running", 0, 300).unwrap();
    a.clear_activities(400).unwrap();
    assert_eq!(a.intervals()[1].end_time, Some(400));
    assert_eq!(a.clears().last(), Some(&ClearMarker { id: 2, time: 400 }));
    assert!(a.activities_times(1000).is_empty());
    a.start_activity("New", 0, 500).unwrap();
    a.stop_activity(0, 560);
    assert_eq!(a.activities_times(1000), vec![("New".to_string(), 60)]);
    let mut names = a.list_activities();
    names.sort();
    assert_eq!(names, vec!["New".to_string(), "Old".to_string(), "Running".to_string()]);
}

#[test]
fn interval_starting_at_clear_instant_counts() {
    let mut a = seeded();
    a.clear_activities(400).unwrap();
    a.start_activity("A", 0, 400).unwrap();
    assert_eq!(a.activities_times(450), vec![("A".to_string(), 50)]);
}

#[test]
fn latest_marker_is_the_greatest_time() {
    let clears = vec![ClearMarker { id: 1, time: 0 }, ClearMarker { id: 2, time: 500 }, ClearMarker { id: 3, time: 200 }];
    let rows = vec![
        Interval { id: 1, name: "A".to_string(), start_time: 300, end_time: Some(350) },
        Interval { id: 2, name: "B".to_string(), start_time: 600, end_time: Some(700) },
    ];
    let a = Activities::from_records(rows, clears).unwrap();
    assert_eq!(a.activities_times(1000), vec![("B".to_string(), 100)]);
}

#[test]
fn hard_clear_empties_everything() {
    let mut a = seeded();
    a.start_activity("A", 0, 10).unwrap();
    a.start_activity("B", 0, 20).unwrap();
    a.hard_clear_activities();
    assert!(a.list_activities().is_empty());
    assert!(a.activities_times(100).is_empty());
    assert!(a.clears().is_empty());
    assert_eq!(a.currrent_activity(), None);
    a.init_db();
    assert_eq!(a.clears(), &vec![ClearMarker { id: 1, time: 0 }]);
}

#[test]
fn totals_sum_per_name_and_count_open_to_now() {
    let mut a = seeded();
    a.start_activity("A", 0, 100).unwrap();
    a.start_activity("B", 0, 160).unwrap();
    a.start_activity("A", 0, 200).unwrap();
    let times = a.activities_times(250);
    assert_eq!(times.len(), 2);
    assert_eq!(total(&times, "A"), Some(110));
    assert_eq!(total(&times, "B"), Some(40));
}

#[test]
fn list_activities_is_distinct() {
    let mut a = seeded();
    for (k, n) in ["X", "Y", "X", "X", "Z", "Y"].iter().enumerate() {
        a.start_activity(n, 0, k as i64 * 10).unwrap();
    }
    assert_eq!(a.list_activities(), vec!["X".to_string(), "Y".to_string(), "Z".to_string()]);
}

#[test]
fn no_clear_marker_counts_nothing() {
    let mut a = Activities::new();
    a.start_activity("A", 0, 10).unwrap();
    assert!(a.activities_times(20).is_empty());
    assert_eq!(a.list_activities(), vec!["A".to_string()]);
}

#[test]
fn negative_duration_counts_as_zero() {
    let rows = vec![Interval { id: 4, name: "A".to_string(), start_time: 100, end_time: Some(40) }];
    let a = Activities::from_records(rows, vec![ClearMarker { id: 1, time: 0 }]).unwrap();
    assert_eq!(a.activities_times(1000), vec![("A".to_string(), 0)]);
}

#[test]
fn huge_total_is_capped() {
    let rows = vec![
        Interval { id: 1, name: "A".to_string(), start_time: i64::MIN, end_time: Some(i64::MAX) },
        Interval { id: 2, name: "A".to_string(), start_time: i64::MIN, end_time: Some(i64::MAX) },
    ];
    let a = Activities::from_records(rows, vec![ClearMarker { id: 1, time: i64::MIN }]).unwrap();
    assert_eq!(a.activities_times(0), vec![("A".to_string(), u64::MAX)]);
}

#[test]
fn todays_activities_start_at_day_boundary_regardless_of_clears() {
    let day: i64 = 20_000 * 86400;
    let mut a = seeded();
    a.start_activity("Yesterday", 0, day - 100).unwrap();
    a.start_activity("Midnight", 0, day).unwrap();
    a.clear_activities(day + 50).unwrap();
    a.start_activity("Later", 0, day + 60).unwrap();
    let today = a.todays_activities(day + 3600);
    assert_eq!(
        today,
        vec![("Midnight".to_string(), day, Some(day + 50)), ("Later".to_string(), day + 60, None)]
    );
    assert_eq!(a.todays_activities(day - 1).len(), 3);
}

#[test]
fn exhausted_identifiers_refuse_new_records() {
    let rows = vec![Interval { id: u64::MAX - 1, name: "A".to_string(), start_time: 0, end_time: None }];
    let clears = vec![ClearMarker { id: u64::MAX - 1, time: 0 }];
    let mut a = Activities::from_records(rows, clears).unwrap();
    assert_eq!(a.start_activity("B", 0, 10), Err(LedgerError::Full));
    assert_eq!(a.intervals()[0].end_time, None);
    assert_eq!(a.clear_activities(10), Err(LedgerError::Full));
    assert_eq!(a.intervals()[0].end_time, None);
    assert_eq!(a.clears().len(), 1);
}

#[test]
fn records_with_largest_identifier_are_refused() {
    let rows = vec![Interval { id: u64::MAX, name: "A".to_string(), start_time: 0, end_time: None }];
    assert!(Activities::from_records(rows, vec![]).is_none());
    assert!(Activities::from_records(vec![], vec![ClearMarker { id: u64::MAX, time: 0 }]).is_none());
}

#[test]
fn new_identifiers_follow_stored_ones() {
    let rows = vec![Interval { id: 41, name: "A".to_string(), start_time: 0, end_time: Some(5) }];
    let mut a = Activities::from_records(rows, vec![ClearMarker { id: 7, time: 0 }]).unwrap();
    a.start_activity("B", 0, 10).unwrap();
    a.clear_activities(20).unwrap();
    assert_eq!(a.intervals()[1].id, 42);
    assert_eq!(a.clears()[1].id, 8);
}
