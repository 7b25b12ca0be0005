use v_utils::fuzz::corpus::{picked_targets, scan_step, ScanStep};
use v_utils::fuzz::fnv;
use v_utils::klines::frame::{find_index, missing_columns, step_ms, validate_klines_frame, KlinesError};
use v_utils::trades::TimeframeDesignator;
use v_utils::trades::timestamp::guess_timestamp_unsafe;

#[test]
fn frame_missing_columns() {
    assert_eq!(missing_columns(&["time", "open", "close", "volume"]), vec!["high", "low"]);
    assert!(missing_columns(&["close", "low", "high", "open"]).is_empty());
    assert_eq!(missing_columns(&[]), vec!["open", "high", "low", "close"]);
}

#[test]
fn frame_step_between_candles() {
    assert_eq!(step_ms(&[1_000, 61_000, 121_000, 181_000]), 60_000);
    assert_eq!(step_ms(&[0, 300_000, 250_000]), -50_000);
}

#[test]
fn frame_find_index() {
    let index = [1_000i64, 2_000, 3_000, 4_000, 5_000, 6_000, 7_000];
    for (i, t) in index.iter().enumerate() {
        assert_eq!(find_index(&index, *t as usize), i);
    }
    assert_eq!(find_index(&[42], 42), 0);
}

#[test]
fn fuzz_target_filter() {
    let names = ["parse", "render", "parse2"];
    assert_eq!(picked_targets(&names, None), vec![0, 1, 2]);
    assert_eq!(picked_targets(&names, Some("render")), vec![1]);
    assert!(picked_targets(&names, Some("none")).is_empty());
}

#[test]
fn fuzz_seed_scan_steps() {
    assert_eq!(scan_step(0, 3, false), ScanStep::Next(1));
    assert_eq!(scan_step(1, 3, true), ScanStep::Record(1));
    assert_eq!(scan_step(2, 3, false), ScanStep::Clean);
}

#[test]
fn frame_validation() {
    let full = ["time", "open", "high", "low", "close"];
    let index = [0i64, 60_000, 120_000];
    assert_eq!(validate_klines_frame(false, &full, &index), Err(KlinesError::IndexNotMillis));
    assert_eq!(
        validate_klines_frame(true, &["time", "open", "close"], &index),
        Err(KlinesError::MissingColumns(vec!["high", "low"]))
    );
    assert_eq!(validate_klines_frame(true, &full, &index), Ok(60_000));
}

#[test]
fn fnv_sees_only_the_text() {
    assert_eq!(fnv(&["abc", "", "def"]), fnv(&["abc", "def"]));
    assert_eq!(fnv(&["abc", "def"]), fnv(&["abcdef"]));
}

#[test]
fn designator_names_read_back() {
    let all = [
        TimeframeDesignator::Milliseconds,
        TimeframeDesignator::Seconds,
        TimeframeDesignator::Minutes,
        TimeframeDesignator::Hours,
        TimeframeDesignator::Days,
        TimeframeDesignator::Weeks,
        TimeframeDesignator::Months,
        TimeframeDesignator::Quarters,
        TimeframeDesignator::Years,
    ];
    for d in all {
        assert_eq!(TimeframeDesignator::from_str(d.as_str()), Ok(d));
        for e in all {
            if d != e {
                assert_ne!(d.as_str(), e.as_str());
            }
        }
    }
}

#[test]
fn guessed_timestamp_instants() {
    let t = guess_timestamp_unsafe("1700000000123".to_string()).unwrap();
    assert_eq!(t.as_nanosecond(), 1_700_000_000_123_000_000);
    let t = guess_timestamp_unsafe("2024-01-01T00:00:01Z".to_string()).unwrap();
    assert_eq!(t.as_nanosecond(), 1_704_067_201_000_000_000);
}
