use zusi_result_lib::result_analyser::{AnalyseError, ResultAnalyser, TripEntry};
use zusi_result_lib::result_analyser_group::ResultAnalyserGroup;

/// A telemetry sample with the position and speed in hundredths and the
/// timestamp in plain seconds.
fn entry(position: u64, timestamp: u64, speed: u64) -> TripEntry {
    TripEntry { position, timestamp, speed }
}

#[test]
fn single_entry_trip() {
    let analyser = ResultAnalyser::new(vec![entry(1500, 3600, 2500)]);
    assert_eq!(analyser.distance().unwrap(), 0);
    assert_eq!(analyser.driving_time().unwrap(), 0);
    assert_eq!(analyser.pure_driving_time().unwrap(), 0);
    assert_eq!(analyser.average_speed().unwrap(), 2500);
    assert_eq!(analyser.pure_average_speed().unwrap(), 2500);
}

#[test]
fn zero_distance_trip_fails_speed_average() {
    let analyser = ResultAnalyser::new(vec![
        entry(1500, 0, 0),
        entry(1500, 600, 800),
    ]);
    assert_eq!(analyser.average_speed(), Err(AnalyseError::ZeroDistance));
    assert_eq!(analyser.pure_average_speed(), Err(AnalyseError::ZeroDistance));
    assert_eq!(analyser.distance().unwrap(), 0);
}

#[test]
fn pure_average_speed_matches_weighted_integral() {
    let analyser = ResultAnalyser::new(vec![
        entry(500, 0, 1000),
        entry(1500, 60, 3000),
        entry(3500, 120, 10000),
    ]);
    assert_eq!(analyser.pure_average_speed().unwrap(), 5000);
}

#[test]
fn pure_driving_time_skips_only_all_zero_intervals() {
    // First interval: both endpoint speeds zero, excluded. Second interval:
    // one non-zero endpoint, counted.
    let analyser = ResultAnalyser::new(vec![
        entry(100, 0, 0),
        entry(100, 300, 0),
        entry(700, 500, 1200),
    ]);
    assert_eq!(analyser.pure_driving_time().unwrap(), 200);
}

#[test]
fn analyser_operations_repeat_identically() {
    let analyser = ResultAnalyser::new(vec![
        entry(0, 0, 0),
        entry(600, 120, 400),
        entry(600, 180, 0),
    ]);
    assert_eq!(analyser.distance(), analyser.distance());
    assert_eq!(analyser.average_speed(), analyser.average_speed());
    assert_eq!(analyser.pure_average_speed(), analyser.pure_average_speed());
    assert_eq!(analyser.driving_time(), analyser.driving_time());
    assert_eq!(analyser.pure_driving_time(), analyser.pure_driving_time());
}

#[test]
fn group_pure_aggregates() {
    let trip1 = vec![
        entry(0, 1000, 800),
        entry(300, 1600, 800),
        entry(300, 1900, 0),
        entry(300, 2200, 0),
    ];
    let trip2 = vec![
        entry(0, 1000, 400),
        entry(900, 1900, 400),
    ];

    let mut group = ResultAnalyserGroup::new(vec![
        ResultAnalyser::new(trip1),
        ResultAnalyser::new(trip2),
    ])
    .unwrap();

    for _ in 0..2 {
        // Idle interval of trip1 covers no distance, so the weighted average
        // is unchanged by it: (300 * 800 + 900 * 400) / 1200 = 500.
        assert_eq!(group.pure_average_speed().unwrap(), 500);
        // Trip1 counts 600 + 300 moving seconds out of 1200; trip2 all 900.
        assert_eq!(group.total_pure_driving_time().unwrap(), 1800);
        assert_eq!(group.total_driving_time().unwrap(), 2100);
    }
}

#[test]
fn group_of_single_sample_trips_has_zero_total_distance() {
    let mut group = ResultAnalyserGroup::new(vec![
        ResultAnalyser::new(vec![entry(300, 0, 800)]),
        ResultAnalyser::new(vec![entry(900, 0, 400)]),
    ])
    .unwrap();

    assert_eq!(group.total_distance().unwrap(), 0);
    assert_eq!(group.average_distance().unwrap(), 0);
    assert_eq!(group.total_driving_time().unwrap(), 0);
    assert_eq!(group.total_pure_driving_time().unwrap(), 0);
    assert_eq!(group.pure_average_speed(), Err(AnalyseError::ZeroDistance));
}

#[test]
fn group_propagates_first_zero_distance_error() {
    let healthy = vec![
        entry(0, 0, 400),
        entry(900, 900, 400),
    ];
    let degenerate = vec![
        entry(500, 0, 0),
        entry(500, 600, 0),
    ];

    let mut group = ResultAnalyserGroup::new(vec![
        ResultAnalyser::new(healthy),
        ResultAnalyser::new(degenerate),
    ])
    .unwrap();

    assert_eq!(group.average_speed(), Err(AnalyseError::ZeroDistance));
    assert_eq!(group.pure_average_speed(), Err(AnalyseError::ZeroDistance));
    // The degenerate journey still has a distance and times of its own.
    assert_eq!(group.total_distance().unwrap(), 900);
    assert_eq!(group.total_driving_time().unwrap(), 1500);
}
