use v_utils::trades::timestamp::{guess_timestamp_nanos, guess_timestamp_unsafe};
use v_utils::trades::exchange::{ExchangeName, Instrument, ParseError, PrecisionPriceQty, Symbol, SymbolError};
use v_utils::trades::pair::{check_prefix_order, Asset, InvalidPairError, Pair};
use v_utils::trades::side::Side;

#[test]
fn test_side_from_str() {
    assert_eq!(Side::from_str("BUY").unwrap(), Side::Buy);
    assert_eq!(Side::from_str("Sell").unwrap(), Side::Sell);
    assert!(Side::from_str("foo").is_err());
}

#[test]
fn test_side_to_str() {
    assert_eq!(Side::Buy.to_str(), "BUY");
    assert_eq!(Side::Sell.to_str(), "SELL");
}

#[test]
fn side_test_side_from_str() {
    assert_eq!(Side::from_str("BUY").unwrap(), Side::Buy);
    assert_eq!(Side::from_str("Sell").unwrap(), Side::Sell);
    assert!(Side::from_str("foo").is_err());
}

#[test]
fn side_test_side_to_str() {
    assert_eq!(Side::Buy.to_str(), "BUY");
    assert_eq!(Side::Sell.to_str(), "SELL");
}

#[test]
fn side_error_and_text() {
    assert_eq!(Side::from_str("hold"), Err("Invalid side: hold".to_owned()));
    assert_eq!(Side::from_str("buy"), Ok(Side::Buy));
    assert_eq!(Side::Sell.to_string(), "SELL");
    assert_eq!(Side::default(), Side::Buy);
}

#[test]
fn parse_pairs() {
    assert_eq!(Pair::from_str("BTC-USD").unwrap(), Pair::new("BTC", "USD"));
    assert_eq!(Pair::from_str("ETH,USD").unwrap(), Pair::new("ETH", "USD"));
    assert_eq!(Pair::from_str("SOL_USDT").unwrap(), Pair::new("SOL", "USDT"));
    assert_eq!(Pair::from_str("XRP/USDC").unwrap(), Pair::new("XRP", "USDC"));
    assert_eq!(Pair::from_str("btc - usd").unwrap(), Pair::new("BTC", "USD"));
    assert_eq!(Pair::from_str("DOGEUSDT").unwrap(), Pair::new("DOGE", "USDT"));

    assert!(Pair::from_str("something").is_err());
    assert!(Pair::from_str("").is_err());
    assert!(Pair::from_str("BTC").is_err());
    assert!(Pair::from_str("BTC-").is_err());
    assert!(Pair::from_str("-USD").is_err());
}

#[test]
fn display_pairs() {
    assert_eq!(Pair::new("BTC", "USDT").to_string(), "BTCUSDT");
}

#[test]
fn pair_details() {
    let p = Pair::new("eth", "usdt");
    assert_eq!(p.base().to_string(), "ETH");
    assert_eq!(p.quote().to_string(), "USDT");
    assert!(p.is_usdt());
    assert!(!Pair::new("BTCST", "USDT").is_usdt());
    assert!(!Pair::new("BTC", "USD").is_usdt());
    assert_eq!(Pair::from_str("a-b-c").unwrap_err().message(), "Invalid pair format 'a-b-c'. Expected two assets separated by one of: [, - _ /]");
    assert_eq!(Pair::from_str("ETHBTC").unwrap(), Pair::new("ETH", "BTC"));
    assert!(Pair::from_str("USDT").is_err());
    assert_eq!(Pair::try_new("ABCDEFGHIJKLMNOPQ", "USD"), None);
    assert_eq!(Pair::try_from_str("ABCDEFGHIJKLMNOPQ-USD").map(|r| r.is_ok()), None);
    assert_eq!(Pair::try_from_str("abc-usd").map(|r| r.unwrap()), Some(Pair::new("ABC", "USD")));
    assert_eq!(Pair::default().to_string(), "");
}

#[test]
fn asset_uppercases_and_pads() {
    let a = Asset::new("sol");
    let mut expected = [0u8; 16];
    expected[..3].copy_from_slice(b"SOL");
    assert_eq!(a.0, expected);
    assert_eq!(a.to_string(), "SOL");
    assert_eq!(a.text(), vec!['S', 'O', 'L']);
    assert!(Asset::fits("0123456789abcdef"));
    assert!(!Asset::fits("0123456789abcdefg"));
    assert_eq!(Asset::try_new("0123456789abcdefg"), None);
}

#[test]
fn invalid_pair_error_message() {
    let e = InvalidPairError::new("x", vec!["+".to_owned(), "|".to_owned()]);
    assert_eq!(e.message(), "Invalid pair format 'x'. Expected two assets separated by one of: [+ |]");
}

#[test]
fn prefix_order_check() {
    assert_eq!(check_prefix_order(&["WETH", "ETH", "BTC"]), Ok(()));
    assert_eq!(check_prefix_order(&["ETH", "WETH"]), Err("ETH is a suffix of WETH".to_owned()));
    assert_eq!(check_prefix_order(&["A", "B", "BB", "AA"]), Err("A is a suffix of AA".to_owned()));
}

#[test]
fn exchange_names() {
    assert_eq!(ExchangeName::from_str("bitflyer"), Ok(ExchangeName::BitFlyer));
    assert_eq!(ExchangeName::from_str("Binance"), Err(ParseError::VariantNotFound));
    assert_eq!(ExchangeName::Coincheck.to_string(), "coincheck");
    assert_eq!(Instrument::from_str(".PERP_INVERSE"), Ok(Instrument::PerpInverse));
    assert_eq!(Instrument::from_str(".p"), Err(ParseError::VariantNotFound));
    assert_eq!(Instrument::Spot.to_string(), "");
    assert_eq!(Instrument::default(), Instrument::Spot);
}

#[test]
fn symbols() {
    let s = Symbol::from_str("BTC-USDT.p").unwrap();
    assert_eq!(s, Symbol::new(Pair::new("BTC", "USDT"), Instrument::Perp));
    assert_eq!(s.to_string(), "BTCUSDT.P");
    let s = Symbol::from_str("ethusdt").unwrap_err();
    assert!(matches!(s, SymbolError::Pair(_)));
    let s = Symbol::from_str("ETHUSDT").unwrap();
    assert_eq!(s.instrument, Instrument::Spot);
    assert!(matches!(Symbol::from_str("ETHUSDT.X"), Err(SymbolError::Instrument(ParseError::VariantNotFound))));
    assert!(matches!(Symbol::try_from_str("SOL_USDC.m"), Some(Ok(_))));
}

#[test]
fn precision_parsing() {
    let p = PrecisionPriceQty { price: 2, qty: 8 };
    assert_eq!(p.parse_price("1.24"), 124);
    assert_eq!(p.parse_price("-3.5000"), -350);
    assert_eq!(p.parse_price("17"), 1700);
    assert_eq!(p.parse_qty(".24000000"), 24_000_000);
    assert_eq!(p.parse_qty("0.00000001"), 1);
}

#[test]
fn timestamp_by_length() {
    assert_eq!(guess_timestamp_nanos("1700000000"), Ok(1_700_000_000_000_000_000));
    assert_eq!(guess_timestamp_nanos("1700000000123"), Ok(1_700_000_000_123_000_000));
    assert_eq!(guess_timestamp_nanos("1700000000123456"), Ok(1_700_000_000_123_456_000));
    assert_eq!(guess_timestamp_nanos("1700000000123456789"), Ok(1_700_000_000_123_456_789));
    assert_eq!(guess_timestamp_nanos("2024-01-01T00:00:00Z"), Ok(1_704_067_200_000_000_000));
}

#[test]
fn timestamp_errors() {
    assert_eq!(guess_timestamp_nanos("123"), Err("Invalid timestamp length for guessing: 3\nTimestamp: 123".to_string()));
    assert_eq!(guess_timestamp_nanos("abc"), Err("Couldn't parse timestamp: abc".to_string()));
    assert_eq!(guess_timestamp_nanos("-1700000000"), Err("Couldn't parse timestamp: -1700000000".to_string()));
}

#[test]
fn timestamp_values() {
    assert_eq!(guess_timestamp_unsafe("1700000000".to_string()).unwrap().as_second(), 1_700_000_000);
    assert_eq!(guess_timestamp_unsafe("2024-01-01T00:00:00Z".to_string()).unwrap().as_second(), 1_704_067_200);
    assert!(guess_timestamp_unsafe("12".to_string()).is_err());
}
