use log_analyzer::analytics::{percentile_index, percentile_indices, LogAnalytics};
use log_analyzer::ingest::LogLine;
use log_analyzer::json::{JsonValue, Metadata};
use log_analyzer::parser::json::JsonParser;
use log_analyzer::parser::{Level, LogParser, ParsedLog};
use log_analyzer::time::Timestamp;

fn at(secs: i64) -> Timestamp {
    Timestamp { secs, nanos: 0 }
}

fn record(timestamp: Option<Timestamp>, level: Option<Level>, fields: Vec<(&str, JsonValue)>) -> ParsedLog {
    ParsedLog {
        timestamp,
        level,
        message: "m".to_string(),
        metadata: Metadata {
            fields: fields.into_iter().map(|(k, v)| (k.to_string(), v)).collect(),
        },
    }
}

fn text(s: &str) -> JsonValue {
    JsonValue::Text(s.to_string())
}

fn resource_usage(i: i32) -> String {
    match i {
        0..5 => (i * 10).to_string(),
        _ => ((i - 5) * 20).to_string(),
    }
}

#[test]
fn test_prune_data() {
    let mut log_analytics = LogAnalytics::new(100);
    let mut parsed_logs = Vec::new();

    for i in 0..10 {
        let parsed_log = ParsedLog {
            timestamp: Some(Timestamp::now()),
            level: Some(Level::Error),
            message: format!("message {}", i),
            metadata: Metadata {
                fields: vec![
                    ("userid".to_string(), JsonValue::Text(format!("userid{}", i))),
                    ("cpu_usage".to_string(), JsonValue::Text(resource_usage(i))),
                    ("error_type".to_string(), text("Something is really wrong")),
                ],
            },
        };
        parsed_logs.push(parsed_log);
    }

    for log in parsed_logs.into_iter() {
        log_analytics.process_log(log);
    }

    println!("log analytics: {:#?}", log_analytics);

    let active_user_count = log_analytics.get_active_users_count();
    println!("active user count: {}", active_user_count);
    assert_eq!(active_user_count, 10);

    // The readings 0, 10, 20, 30, 40 and 0, 20, 40, 60, 80: two of them spell 40.
    assert_eq!(log_analytics.resource_sample_count(&"40".to_string()), Some(2));
    assert_eq!(log_analytics.resource_sample_count(&"0".to_string()), Some(2));
    assert_eq!(log_analytics.resource_sample_count(&"80".to_string()), Some(1));
    assert_eq!(log_analytics.resource_sample_count(&"50".to_string()), None);
    assert_eq!(log_analytics.error_count(&"Something is really wrong".to_string()), 10);
}

fn parsed(payload: &str) -> ParsedLog {
    let line = LogLine {
        content: payload.to_string(),
        source: "test".to_string(),
        timestamp: Timestamp::now(),
    };
    JsonParser::new().parse(line).unwrap()
}

#[test]
fn ten_records_of_one_user_make_one_active_user() {
    let mut analytics = LogAnalytics::new(100);
    for _ in 0..10 {
        let log = parsed("{\"message\":\"bad\",\"level\":\"info\",\"userid\":\"u1\"}");
        assert!(analytics.accepts(&log));
        analytics.process_log(log);
    }
    assert_eq!(analytics.get_active_users_count(), 1);
    assert_eq!(analytics.error_count(&"unknown".to_string()), 0);
}

#[test]
fn ten_errors_of_one_kind_are_counted() {
    let mut analytics = LogAnalytics::new(100);
    for _ in 0..10 {
        analytics.process_log(parsed("{\"level\":\"error\",\"error_type\":\"E\"}"));
    }
    assert_eq!(analytics.error_count(&"E".to_string()), 10);
    assert_eq!(analytics.error_count(&"e".to_string()), 0);
    assert_eq!(analytics.get_active_users_count(), 0);
}

#[test]
fn error_without_a_kind_counts_as_unknown() {
    let mut analytics = LogAnalytics::new_at(100, at(0));
    analytics.process_log_at(record(None, Some(Level::Error), vec![]), at(1000));
    analytics.process_log_at(
        record(None, Some(Level::Error), vec![("error_type", JsonValue::Raw("5".to_string()))]),
        at(1000),
    );
    analytics.process_log_at(record(None, Some(Level::Warn), vec![("error_type", text("E"))]), at(1000));
    assert_eq!(analytics.error_count(&"unknown".to_string()), 2);
    assert_eq!(analytics.error_count(&"E".to_string()), 0);
}

#[test]
fn window_starts_window_size_before_now() {
    let mut analytics = LogAnalytics::new_at(100, at(5));
    assert_eq!(analytics.window_size(), 100);
    assert_eq!(analytics.window_start(), at(5));
    analytics.prune_old_data_at(Timestamp { secs: 1000, nanos: 42 });
    assert_eq!(analytics.window_start(), Timestamp { secs: 900, nanos: 42 });
    analytics.process_log_at(record(None, None, vec![]), Timestamp { secs: 50, nanos: 1 });
    assert_eq!(analytics.window_start(), Timestamp { secs: -50, nanos: 1 });
}

#[test]
fn entries_before_the_window_are_dropped() {
    let mut analytics = LogAnalytics::new_at(100, at(0));
    let user = vec![("userid", text("u1")), ("cpu_usage", text("40"))];
    analytics.process_log_at(record(Some(at(1000)), None, user.clone()), at(1000));
    analytics.process_log_at(record(Some(at(1050)), None, user.clone()), at(1050));
    analytics.process_log_at(record(Some(at(1100)), None, user.clone()), at(1100));
    assert_eq!(analytics.resource_sample_count(&"40".to_string()), Some(3));

    // The window [1001, 1101] drops the entry of 1000 and keeps the others.
    analytics.prune_old_data_at(at(1101));
    assert_eq!(analytics.resource_sample_count(&"40".to_string()), Some(2));
    assert_eq!(analytics.get_active_users_count(), 1);

    // An entry at the very start of the window stays.
    analytics.prune_old_data_at(at(1150));
    assert_eq!(analytics.resource_sample_count(&"40".to_string()), Some(2));
    analytics.prune_old_data_at(Timestamp { secs: 1150, nanos: 1 });
    assert_eq!(analytics.resource_sample_count(&"40".to_string()), Some(1));

    // A key whose entries are all dropped stays, with nothing under it.
    analytics.prune_old_data_at(at(5000));
    assert_eq!(analytics.resource_sample_count(&"40".to_string()), Some(0));
    assert_eq!(analytics.get_active_users_count(), 0);
}

#[test]
fn record_without_instant_is_noted_at_now() {
    let mut analytics = LogAnalytics::new_at(10, at(0));
    analytics.process_log_at(record(None, None, vec![("userid", text("u"))]), at(100));
    analytics.prune_old_data_at(at(110));
    assert_eq!(analytics.get_active_users_count(), 1);
    analytics.prune_old_data_at(at(111));
    assert_eq!(analytics.get_active_users_count(), 0);
}

#[test]
fn record_older_than_the_window_is_noted_all_the_same() {
    let mut analytics = LogAnalytics::new_at(10, at(0));
    analytics.process_log_at(record(Some(at(1)), None, vec![("userid", text("u"))]), at(100));
    assert_eq!(analytics.get_active_users_count(), 1);
    analytics.prune_old_data_at(at(100));
    assert_eq!(analytics.get_active_users_count(), 0);
}

#[test]
fn fields_that_are_no_strings_are_passed_over() {
    let mut analytics = LogAnalytics::new_at(10, at(0));
    let log = record(
        None,
        None,
        vec![("userid", JsonValue::Raw("7".to_string())), ("cpu_usage", JsonValue::Raw("40".to_string()))],
    );
    assert!(analytics.accepts(&log));
    analytics.process_log_at(log, at(100));
    assert_eq!(analytics.get_active_users_count(), 0);
    assert_eq!(analytics.resource_sample_count(&"40".to_string()), None);
}

#[test]
fn reading_that_spells_no_number_is_not_accepted() {
    let mut analytics = LogAnalytics::new(100);
    let bad = record(None, Some(Level::Error), vec![("cpu_usage", text("high")), ("userid", text("u"))]);
    assert!(!analytics.accepts(&bad));
    assert!(!analytics.try_process_log(bad));
    assert_eq!(analytics.get_active_users_count(), 0);
    assert_eq!(analytics.error_count(&"unknown".to_string()), 0);

    let good = record(None, None, vec![("cpu_usage", text("12.5")), ("userid", text("u"))]);
    assert!(analytics.try_process_log(good));
    assert_eq!(analytics.get_active_users_count(), 1);
    assert_eq!(analytics.resource_sample_count(&"12.5".to_string()), Some(1));
}

#[test]
fn window_without_length_accepts_nothing() {
    let mut analytics = LogAnalytics::new(-1);
    let log = record(None, None, vec![]);
    assert!(!analytics.accepts(&log));
    assert!(!analytics.try_process_log(log));
    assert_eq!(analytics.window_size(), -1);
}

#[test]
fn new_analytics_begin_now_and_hold_nothing() {
    let analytics = LogAnalytics::new(100);
    assert!(analytics.window_start().secs > 1_700_000_000);
    assert_eq!(analytics.get_active_users_count(), 0);
    assert_eq!(analytics.resource_sample_count(&"40".to_string()), None);
}

#[test]
fn process_log_moves_the_window_to_now() {
    let mut analytics = LogAnalytics::new_at(100, at(0));
    analytics.process_log(record(None, None, vec![]));
    assert!(analytics.window_start().secs > 1_700_000_000 - 100);
    analytics.prune_old_data();
    assert!(analytics.window_start().secs > 1_700_000_000 - 100);
}

#[test]
fn every_retained_instant_is_within_the_window() {
    let mut analytics = LogAnalytics::new_at(30, at(0));
    for step in 0..50 {
        let now = at(1000 + 7 * step);
        let log = record(Some(at(1000 + 7 * step - (step % 4))), None, vec![("userid", text("u"))]);
        analytics.process_log_at(log, now);
        // Instants are noted every 7 seconds, so a window of 30 seconds
        // that was just moved retains five of them at most.
        analytics.prune_old_data_at(now);
        assert_eq!(analytics.window_start(), at(1000 + 7 * step - 30));
        assert_eq!(analytics.get_active_users_count(), 1);
    }
}

#[test]
fn retained_instants_are_kept_in_order_and_within_the_window() {
    let mut analytics = LogAnalytics::new_at(30, at(0));
    let user = "u".to_string();
    assert_eq!(analytics.user_activity(&user), None);
    for step in 0..20 {
        let now = at(1000 + 7 * step);
        let log = record(
            Some(at(1000 + 7 * step - (step % 4))),
            None,
            vec![("userid", text("u")), ("cpu_usage", text("40"))],
        );
        analytics.process_log_at(log, now);
        let start = analytics.window_start();
        assert_eq!(start, at(1000 + 7 * step - 30));
        for series in [
            analytics.user_activity(&user).unwrap(),
            analytics.resource_usage(&"40".to_string()).unwrap(),
        ] {
            assert!(series.iter().all(|t| !t.is_before(&start)));
            assert!(series.windows(2).all(|w| !w[1].is_before(&w[0])));
            assert_eq!(series.last(), Some(&at(1000 + 7 * step - (step % 4))));
        }
    }
    // The last window begins at 1103: the instant 1102 of step 15 is dropped.
    assert_eq!(
        analytics.user_activity(&user).unwrap(),
        &vec![at(1112), at(1118), at(1124), at(1130)]
    );
}

#[test]
fn record_from_before_the_window_is_the_one_instant_outside_it() {
    let mut analytics = LogAnalytics::new_at(10, at(0));
    let user = "u".to_string();
    analytics.process_log_at(record(Some(at(95)), None, vec![("userid", text("u"))]), at(100));
    analytics.process_log_at(record(Some(at(1)), None, vec![("userid", text("u"))]), at(100));
    assert_eq!(analytics.window_start(), at(90));
    assert_eq!(analytics.user_activity(&user).unwrap(), &vec![at(95), at(1)]);
    analytics.prune_old_data_at(at(100));
    assert_eq!(analytics.user_activity(&user).unwrap(), &vec![at(95)]);
}

#[test]
fn percentile_places() {
    assert_eq!(percentile_indices(0), None);
    assert_eq!(percentile_indices(1), Some((0, 0, 0)));
    assert_eq!(percentile_indices(2), Some((1, 1, 1)));
    assert_eq!(percentile_indices(10), Some((5, 9, 9)));
    assert_eq!(percentile_indices(100), Some((50, 90, 99)));
    assert_eq!(percentile_indices(101), Some((50, 90, 99)));
    assert_eq!(percentile_indices(1000), Some((500, 900, 990)));
    assert_eq!(percentile_index(7, 0), 0);
    assert_eq!(percentile_index(7, 50), 3);
    assert_eq!(percentile_index(7, 99), 6);
    assert_eq!(percentile_index(usize::MAX, 99), usize::MAX / 100 * 99 + (usize::MAX % 100) * 99 / 100);
}

#[test]
fn percentile_places_are_the_floor_of_the_product() {
    for len in 1..2000usize {
        for percent in [50u8, 90, 99] {
            let floats = ((len as f64) * (percent as f64 / 100.0)) as usize;
            let place = percentile_index(len, percent);
            assert_eq!(place, len * percent as usize / 100);
            assert!(place == floats || place == floats + 1 || place + 1 == floats);
        }
    }
}

#[test]
fn error_kind_of_a_record() {
    let log = record(None, None, vec![("error_type", text("Timeout"))]);
    assert_eq!(LogAnalytics::error_type(&log), "Timeout");
    assert_eq!(LogAnalytics::error_type(&record(None, None, vec![])), "unknown");
}
