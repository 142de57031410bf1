use time::Month;

use zusi_result_lib::result_analyser::{AnalyseError, ResultAnalyser, TripEntry};
use zusi_result_lib::result_analyser_group::{CreateAnalyserGroupError, ResultAnalyserGroup};

/// Unix timestamp (in seconds) of the given calendar date and wall-clock
/// time, taken as UTC.
fn ts(year: i32, month: Month, day: u8, hour: u8, minute: u8) -> u64 {
    time::Date::from_calendar_date(year, month, day)
        .unwrap()
        .with_hms(hour, minute, 0)
        .unwrap()
        .assume_utc()
        .unix_timestamp() as u64
}

/// A telemetry sample with the position and speed in hundredths.
fn entry(position: u64, timestamp: u64, speed: u64) -> TripEntry {
    TripEntry { position, timestamp, speed }
}

#[test]
fn test_caching() {
    let result1 = vec![
        entry(0, ts(2019, Month::January, 1, 23, 18), 800),
        entry(300, ts(2019, Month::January, 1, 23, 28), 800),
    ];
    let result2 = vec![
        entry(0, ts(2019, Month::January, 1, 23, 18), 400),
        entry(900, ts(2019, Month::January, 1, 23, 33), 400),
    ];

    let mut analyser_group = ResultAnalyserGroup::new(vec![
        ResultAnalyser::new(result1),
        ResultAnalyser::new(result2),
    ])
    .unwrap();

    for _ in 0..2 {
        assert_eq!(analyser_group.total_distance().unwrap(), 1200);
        assert_eq!(analyser_group.average_distance().unwrap(), 600);
        assert_eq!(analyser_group.average_speed().unwrap(), 500);
        assert_eq!(analyser_group.total_driving_time().unwrap(), 25 * 60);
    }
}

#[test]
fn test_create_analyser_group_error() {
    let analyser_group = ResultAnalyserGroup::new(vec![]);
    assert_eq!(analyser_group, Err(CreateAnalyserGroupError::NoAnalysers));
}

#[test]
fn test_total_distance() {
    let result1 = vec![
        entry(233, ts(2019, Month::January, 1, 23, 18), 0),
        entry(2243, ts(2019, Month::January, 1, 23, 18), 0),
    ];
    let result2 = vec![
        entry(733, ts(2019, Month::January, 1, 23, 18), 0),
        entry(7243, ts(2019, Month::January, 1, 23, 18), 0),
    ];

    let mut analyser_group = ResultAnalyserGroup::new(vec![
        ResultAnalyser::new(result1),
        ResultAnalyser::new(result2),
    ])
    .unwrap();

    assert_eq!(analyser_group.total_distance().unwrap(), 8520);
}

#[test]
fn test_total_distance_with_error() {
    let result1 = vec![
        entry(733, ts(2019, Month::January, 1, 23, 18), 0),
        entry(7243, ts(2019, Month::January, 1, 23, 18), 0),
    ];
    let result2 = vec![];

    let mut analyser_group = ResultAnalyserGroup::new(vec![
        ResultAnalyser::new(result1),
        ResultAnalyser::new(result2),
    ])
    .unwrap();

    assert_eq!(analyser_group.total_distance(), Err(AnalyseError::NoEntries));
}

#[test]
fn test_average_distance() {
    let result1 = vec![
        entry(233, ts(2019, Month::January, 1, 23, 18), 0),
        entry(2243, ts(2019, Month::January, 1, 23, 18), 0),
    ];
    let result2 = vec![
        entry(733, ts(2019, Month::January, 1, 23, 18), 0),
        entry(7243, ts(2019, Month::January, 1, 23, 18), 0),
    ];

    let mut analyser_group = ResultAnalyserGroup::new(vec![
        ResultAnalyser::new(result1),
        ResultAnalyser::new(result2),
    ])
    .unwrap();

    assert_eq!(analyser_group.average_distance().unwrap(), 4260);
}

#[test]
fn test_average_distance_with_error() {
    let result1 = vec![
        entry(233, ts(2019, Month::January, 1, 23, 18), 0),
        entry(2243, ts(2019, Month::January, 1, 23, 18), 0),
    ];
    let result2 = vec![];

    let mut analyser_group = ResultAnalyserGroup::new(vec![
        ResultAnalyser::new(result1),
        ResultAnalyser::new(result2),
    ])
    .unwrap();

    assert_eq!(analyser_group.average_distance(), Err(AnalyseError::NoEntries));
}

#[test]
fn tests_test_average_speed_2() {
    let result1 = vec![
        entry(0, ts(2019, Month::January, 1, 23, 18), 800),
        entry(300, ts(2019, Month::January, 1, 23, 18), 800),
    ];
    let result2 = vec![
        entry(0, ts(2019, Month::January, 1, 23, 18), 400),
        entry(900, ts(2019, Month::January, 1, 23, 18), 400),
    ];

    let mut analyser_group = ResultAnalyserGroup::new(vec![
        ResultAnalyser::new(result1),
        ResultAnalyser::new(result2),
    ])
    .unwrap();

    assert_eq!(analyser_group.average_speed().unwrap(), 500);
}

#[test]
fn tests_test_average_speed_1() {
    let result1 = vec![
        entry(300, ts(2019, Month::January, 1, 23, 18), 800),
    ];
    let result2 = vec![
        entry(900, ts(2019, Month::January, 1, 23, 18), 400),
    ];

    let mut analyser_group = ResultAnalyserGroup::new(vec![
        ResultAnalyser::new(result1),
        ResultAnalyser::new(result2),
    ])
    .unwrap();

    assert_eq!(analyser_group.average_speed(), Err(AnalyseError::ZeroDistance));
}

#[test]
fn tests_test_average_speed_0() {
    let result1 = vec![];
    let result2 = vec![];

    let mut analyser_group = ResultAnalyserGroup::new(vec![
        ResultAnalyser::new(result1),
        ResultAnalyser::new(result2),
    ])
    .unwrap();

    assert_eq!(analyser_group.average_speed(), Err(AnalyseError::NoEntries));
}

#[test]
fn test_total_driving_time() {
    let result1 = vec![
        entry(0, ts(2019, Month::January, 1, 23, 18), 0),
        entry(0, ts(2019, Month::January, 1, 23, 28), 0),
    ];
    let result2 = vec![
        entry(0, ts(2019, Month::January, 1, 23, 18), 0),
        entry(0, ts(2019, Month::January, 1, 23, 33), 0),
    ];

    let mut analyser_group = ResultAnalyserGroup::new(vec![
        ResultAnalyser::new(result1),
        ResultAnalyser::new(result2),
    ])
    .unwrap();

    assert_eq!(analyser_group.total_driving_time().unwrap(), 25 * 60);
}

#[test]
fn test_total_driving_time_with_error() {
    let result1 = vec![
        entry(0, ts(2019, Month::January, 1, 23, 18), 0),
        entry(0, ts(2019, Month::January, 1, 23, 28), 0),
    ];
    let result2 = vec![];

    let mut analyser_group = ResultAnalyserGroup::new(vec![
        ResultAnalyser::new(result1),
        ResultAnalyser::new(result2),
    ])
    .unwrap();

    assert_eq!(analyser_group.total_distance(), Err(AnalyseError::NoEntries));
}
