use std::time::Duration;

use v_utils::klines::timeframe::{
    Timeframe as KlineTimeframe, TimeframeDesignator as KlineDesignator, TimeframeParseError,
};
use v_utils::primitives::timeframe::{Timeframe as MsTimeframe, TimeframeError};
use v_utils::trades::{Timeframe, TimeframeDesignator};

#[test]
fn timeframe_to_str() {
    let tf = KlineTimeframe { designator: KlineDesignator::Seconds, n: 5 };
    assert_eq!(tf.display(), "5s".to_owned());
}

#[test]
fn timeframe_deserialize() {
    let json_str = "\"5s\"";
    let text: String = serde_json::from_str(json_str).unwrap();
    let tf = KlineTimeframe::parse(&text).unwrap();
    assert_eq!(tf.designator, KlineDesignator::Seconds);
    assert_eq!(tf.n, 5);
}

#[test]
fn to_str() {
    let tf = Timeframe(5_000);
    assert_eq!(tf.to_string(), "5s".to_owned());
}

#[test]
fn deserialize() {
    let text: String = serde_json::from_str("\"5s\"").unwrap();
    let tf = Timeframe::from_str(&text).unwrap();
    assert_eq!(tf, Timeframe(5_000));
}

#[test]
fn parse_weird() {
    let tf = Timeframe::from_str("5min").unwrap();
    assert_eq!(tf, Timeframe(5 * 60 * 1_000));

    let tf = Timeframe::from_str("1wk").unwrap();
    assert_eq!(tf.designator(), TimeframeDesignator::Weeks);

    let tf = Timeframe::from_str("mo").unwrap();
    assert_eq!(tf.designator(), TimeframeDesignator::Months);
}

#[test]
fn predicated() {
    let tfs_binance: [&'static str; 19] = [
        "1s", "5s", "15s", "30s", "1m", "3m", "5m", "15m", "30m", "1h", "2h", "4h", "6h", "8h", "12h", "1d", "3d", "1w", "1M",
    ];
    let tfs_bybit: [&'static str; 13] = ["1", "3", "5", "15", "30", "60", "120", "240", "360", "720", "D", "W", "M"];
    let tfs_mexc: [&'static str; 9] = ["1m", "5m", "15m", "30m", "60m", "4h", "1d", "1W", "1M"];
    let tfs_yahoo: [&'static str; 12] = ["1m", "2m", "5m", "15m", "30m", "60m", "1h", "1d", "5d", "1wk", "1mo", "3mo"];

    assert_eq!(Timeframe::from("1h").try_as_predefined(&tfs_binance), Some("1h"));
    assert_eq!(Timeframe::from("1h").try_as_predefined(&tfs_bybit), Some("60"));
    assert_eq!(Timeframe::from("1h").try_as_predefined(&tfs_mexc), Some("60m"));
    assert_eq!(Timeframe::from("3M").try_as_predefined(&tfs_yahoo), Some("3mo"));
}

#[test]
fn milliseconds_support() {
    let tf = Timeframe::from_str("100ms").unwrap();
    assert_eq!(tf, Timeframe(100));
    assert_eq!(tf.to_string(), "100ms");

    let tf = Timeframe::from_str("500ms").unwrap();
    assert_eq!(tf.designator(), TimeframeDesignator::Milliseconds);
}

#[test]
fn from_duration() {
    let d = Duration::from_millis(5000);
    let tf = Timeframe::from_duration(d);
    assert_eq!(tf, Timeframe(5_000));
    assert_eq!(tf.to_string(), "5s");

    let d = Duration::from_millis(250);
    let tf = Timeframe::from_duration(d);
    assert_eq!(tf, Timeframe(250));
    assert_eq!(tf.to_string(), "250ms");
}

#[test]
fn trades_timeframe_errors() {
    assert_eq!(Timeframe::from_str(""), Err(TimeframeError::Empty));
    assert_eq!(Timeframe::from_str("5x"), Err(TimeframeError::InvalidDesignator));
    assert_eq!(Timeframe::from_str("a5m"), Err(TimeframeError::InvalidDesignator));
    assert_eq!(Timeframe::from_str("5-m"), Err(TimeframeError::InvalidNumber));
    assert_eq!(Timeframe::from_str("+7s"), Ok(Timeframe(7_000)));
    assert_eq!(Timeframe::from_str("15"), Ok(Timeframe(15 * 60_000)));
    assert_eq!(Timeframe::from_str("60"), Ok(Timeframe::from("1h")));
}

#[test]
fn trades_timeframe_units_and_text() {
    assert_eq!(Timeframe::from_naive(3, TimeframeDesignator::Days), Timeframe(3 * 86_400_000));
    assert_eq!(Timeframe(90_000).seconds(), 90);
    assert_eq!(Timeframe(90_000).designator(), TimeframeDesignator::Seconds);
    assert_eq!(Timeframe(90_000).to_string(), "90s");
    assert_eq!(Timeframe(7_776_000_000).to_string(), "1Q");
    assert_eq!(Timeframe(0).designator(), TimeframeDesignator::Years);
    assert_eq!(Timeframe(0).to_string(), "0y");
    assert_eq!(Timeframe::from_millis_count(u64::MAX as u128 + 6), Timeframe(5));
    assert_eq!(Timeframe(2_000).duration(), Duration::from_millis(2_000));
    assert_eq!(Timeframe(1_500).signed_duration(), jiff::SignedDuration::from_millis(1_500));
    assert_eq!(TimeframeDesignator::Quarters.as_millis(), 7_776_000_000);
    assert_eq!(TimeframeDesignator::Months.as_str(), "M");
}

#[test]
fn display_parse_roundtrip_examples() {
    for ms in [1u64, 999, 1_000, 61_000, 3_600_000, 86_400_000, 604_800_000, 2_592_000_000, 31_536_000_000, 123_456_789] {
        let text = Timeframe(ms).to_string();
        assert_eq!(Timeframe::from_str(&text), Ok(Timeframe(ms)), "{text}");
        let text = MsTimeframe(ms).to_string();
        assert_eq!(MsTimeframe::from_str(&text), Ok(MsTimeframe(ms)), "{text}");
    }
}

#[test]
fn millis_timeframe_parse() {
    assert_eq!(MsTimeframe::from_str("15m"), Ok(MsTimeframe::from_naive(15, TimeframeDesignator::Minutes)));
    assert_eq!(MsTimeframe::from_str("5min"), Ok(MsTimeframe(300_000)));
    assert_eq!(MsTimeframe::from_str(""), Err(TimeframeError::Empty));
    assert_eq!(MsTimeframe::from_str("5x"), Err(TimeframeError::InvalidDesignator));
    assert_eq!(MsTimeframe::from_str("99999999999999999999s"), Err(TimeframeError::NumberOverflow));
    assert_eq!(MsTimeframe::from_str("999999999999y"), Err(TimeframeError::TimeframeOverflow));
    assert_eq!(MsTimeframe::from_str("h"), Ok(MsTimeframe(3_600_000)));
    assert_eq!(MsTimeframe::from_str("7"), Ok(MsTimeframe(420_000)));
    let predefined: [&'static str; 3] = ["1m", "60m", "1h"];
    assert_eq!(MsTimeframe::from("1h").try_as_predefined(&predefined), Some("60m"));
    assert_eq!(MsTimeframe(5).try_as_predefined(&predefined), None);
    assert_eq!(MsTimeframe(3_000).designator(), TimeframeDesignator::Seconds);
    assert_eq!(MsTimeframe(3_000).seconds(), 3);
}

#[test]
fn kline_timeframe_formats() {
    let tf = |designator, n| KlineTimeframe { designator, n };
    assert_eq!(tf(KlineDesignator::Hours, 4).format_binance(), Ok("4h".to_owned()));
    assert_eq!(
        tf(KlineDesignator::Hours, 5).format_binance(),
        Err("The Timeframe '5h' does not match exactly any of the values accepted by Binance API".to_owned())
    );
    assert_eq!(tf(KlineDesignator::Minutes, 60).format_bybit(), Ok("60".to_owned()));
    assert_eq!(tf(KlineDesignator::Days, 1).format_bybit(), Ok("D".to_owned()));
    assert_eq!(tf(KlineDesignator::Minutes, 1).format_bybit(), Ok("1".to_owned()));
    assert_eq!(
        tf(KlineDesignator::Weeks, 2).format_bybit(),
        Err("The Timeframe does not match exactly any of the values accepted by Bybit API: 2W".to_owned())
    );
    assert_eq!(tf(KlineDesignator::Weeks, 2).as_seconds(), 2 * 604_800);
    assert_eq!(tf(KlineDesignator::Months, 1).display(), "1M");
    assert_eq!(tf(KlineDesignator::Minutes, 3).duration(), chrono::TimeDelta::seconds(180));
    assert_eq!(KlineDesignator::Days.as_str_bybit(), "D");
    assert_eq!(KlineDesignator::Minutes.as_str_bybit(), "");
    assert_eq!(KlineDesignator::Hours.as_str(), "h");
    assert_eq!(KlineDesignator::Months.as_seconds(), 2_592_000);
}

#[test]
fn kline_timeframe_parse() {
    assert_eq!(KlineTimeframe::parse("M"), Ok(KlineTimeframe { designator: KlineDesignator::Months, n: 1 }));
    assert_eq!(KlineTimeframe::parse("12H"), Ok(KlineTimeframe { designator: KlineDesignator::Hours, n: 12 }));
    assert_eq!(KlineTimeframe::parse("x5m"), Err(TimeframeParseError::InvalidNumber));
    assert_eq!(KlineTimeframe::parse("5q"), Err(TimeframeParseError::InvalidDesignator));
    assert_eq!(KlineDesignator::from_str("W"), Ok(KlineDesignator::Weeks));
    assert_eq!(KlineDesignator::from_str("S"), Err("Invalid timeframe designator: S".to_owned()));
    for (d, n) in [(KlineDesignator::Seconds, 5usize), (KlineDesignator::Weeks, 1), (KlineDesignator::Months, 123)] {
        let t = KlineTimeframe { designator: d, n };
        assert_eq!(KlineTimeframe::parse(&t.display()), Ok(t));
    }
}
