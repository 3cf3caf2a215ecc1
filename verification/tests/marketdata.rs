use gecko_marketdata::decimal::{decode_number, encode_number, Decimal};
use gecko_marketdata::errors::{BuildError, DecodeError};
use gecko_marketdata::escape::escape_json;
use gecko_marketdata::mappings::{load_market_mappings, DbConnection, GeckoConfig, MarketMappings};
use gecko_marketdata::record::{decode, encode, MarketDataRecord};
use gecko_marketdata::side::{decode_side, encode_side, Side};
use gecko_marketdata::store::{decode_shared, encode_shared, rebuild_mappings, GeckoApplication};
use gecko_marketdata::symbols::{to_external, to_internal};

fn config_with(markets: &[&str]) -> GeckoConfig {
    GeckoConfig {
        db_host: "localhost".to_string(),
        db_port: 5432,
        markets: markets.iter().map(|m| m.to_string()).collect(),
    }
}

fn standard_mappings() -> MarketMappings {
    load_market_mappings(&config_with(&["ARBTC", "ETHBTC"]), &DbConnection {})
}

#[test]
fn test_marketdata() {
    let json_str = r#"
        {
            "market": "ARBTC",
            "price": "0.0012",
            "quantity": "10.5",
            "side": "bid" 
        }
    "#;

    let m = standard_mappings();
    let data: MarketDataRecord = decode(json_str, &m).expect("record should decode");

    assert_eq!(data.market, "ARBTC/BTC");
    assert_eq!(data.price, Decimal { mantissa: 12, scale: 4 });
    assert_eq!(data.quantity, Decimal { mantissa: 105, scale: 1 });
    assert!(match data.side {
        Side::Bid => true,
        _ => false,
    });
}

#[test]
fn test_scenario_decode_and_encode_back() {
    let m = standard_mappings();
    assert_eq!(to_internal("ARBTC", &m), "ARBTC/BTC");
    assert_eq!(to_internal("ETHBTC", &m), "ETHBTC/BTC");

    let text = r#"{"market": "ARBTC", "price": "0.0012", "quantity": "10.5", "side": "bid"}"#;
    let rec = decode(text, &m).expect("record should decode");
    assert_eq!(rec.market, "ARBTC/BTC");
    assert_eq!(rec.price, Decimal { mantissa: 12, scale: 4 });
    assert_eq!(rec.quantity, Decimal { mantissa: 105, scale: 1 });
    assert_eq!(rec.side, Side::Bid);

    let out = encode(&rec, &m);
    assert_eq!(
        out,
        "{\"market\":\"ARBTC\",\"price\":\"0.0012\",\"quantity\":\"10.5\",\"side\":\"bid\"}"
    );
}

#[test]
fn test_symbol_round_trip() {
    let m = standard_mappings();
    for s in ["ARBTC", "ETHBTC"] {
        let internal = to_internal(s, &m);
        assert_eq!(to_external(internal.as_str(), &m), s);
    }
}

#[test]
fn test_identity_fallback() {
    let m = standard_mappings();
    assert_eq!(to_internal("UNKNOWN", &m), "UNKNOWN");
    assert_eq!(to_external("UNKNOWN", &m), "UNKNOWN");
}

#[test]
fn test_number_decode() {
    assert_eq!(decode_number("0.0012"), Ok(Decimal { mantissa: 12, scale: 4 }));
    assert_eq!(decode_number("10.5"), Ok(Decimal { mantissa: 105, scale: 1 }));
    assert_eq!(decode_number("10"), Ok(Decimal { mantissa: 10, scale: 0 }));
    assert_eq!(decode_number("0"), Ok(Decimal { mantissa: 0, scale: 0 }));
    assert_eq!(decode_number("007"), Ok(Decimal { mantissa: 7, scale: 0 }));
    assert_eq!(decode_number("5."), Ok(Decimal { mantissa: 5, scale: 0 }));
    assert_eq!(decode_number(".5"), Ok(Decimal { mantissa: 5, scale: 1 }));
    assert_eq!(decode_number("1.50"), Ok(Decimal { mantissa: 15, scale: 1 }));
    assert_eq!(decode_number("0.000"), Ok(Decimal { mantissa: 0, scale: 0 }));
    assert_eq!(decode_number("18446744073709551615"), Ok(Decimal {
        mantissa: u64::MAX,
        scale: 0,
    }));
}

#[test]
fn test_number_reject() {
    for bad in ["", ".", "abc", "1.2.3", "1e5", "-1", "NaN", "inf", "1 ", " 1", "+1"] {
        assert_eq!(decode_number(bad), Err(DecodeError::InvalidNumber), "input {:?}", bad);
    }
    // one past the largest representable mantissa
    assert_eq!(decode_number("18446744073709551616"), Err(DecodeError::InvalidNumber));
}

#[test]
fn test_number_encode() {
    assert_eq!(encode_number(&Decimal { mantissa: 12, scale: 4 }), "0.0012");
    assert_eq!(encode_number(&Decimal { mantissa: 105, scale: 1 }), "10.5");
    assert_eq!(encode_number(&Decimal { mantissa: 10, scale: 0 }), "10");
    assert_eq!(encode_number(&Decimal { mantissa: 0, scale: 0 }), "0");
    assert_eq!(encode_number(&Decimal { mantissa: 5, scale: 1 }), "0.5");
    assert_eq!(encode_number(&Decimal { mantissa: 12345, scale: 2 }), "123.45");
}

#[test]
fn test_number_round_trip() {
    for text in ["0.0012", "10.5", "10", "0", "0.5", "123.45", "18446744073709551615"] {
        let d = decode_number(text).expect("should decode");
        assert_eq!(encode_number(&d), text, "round trip of {:?}", text);
    }
}

#[test]
fn test_side_codec() {
    assert_eq!(decode_side("ask"), Ok(Side::Ask));
    assert_eq!(decode_side("bid"), Ok(Side::Bid));
    for bad in ["buy", "sell", "Ask", "BID", "", "ask "] {
        assert_eq!(decode_side(bad), Err(DecodeError::InvalidEnumValue), "input {:?}", bad);
    }
    assert_eq!(encode_side(&Side::Ask), "ask");
    assert_eq!(encode_side(&Side::Bid), "bid");
}

#[test]
fn test_record_rejections() {
    let m = standard_mappings();
    let side_buy = r#"{"market": "ARBTC", "price": "0.0012", "quantity": "10.5", "side": "buy"}"#;
    assert_eq!(decode(side_buy, &m).err(), Some(DecodeError::InvalidEnumValue));

    let price_abc = r#"{"market": "ARBTC", "price": "abc", "quantity": "10.5", "side": "bid"}"#;
    assert_eq!(decode(price_abc, &m).err(), Some(DecodeError::InvalidNumber));

    let quantity_bad = r#"{"market": "ARBTC", "price": "1", "quantity": "x", "side": "bid"}"#;
    assert_eq!(decode(quantity_bad, &m).err(), Some(DecodeError::InvalidNumber));

    // the first failing field in declaration order decides the error
    let both_bad = r#"{"market": "ARBTC", "price": "abc", "quantity": "1", "side": "buy"}"#;
    assert_eq!(decode(both_bad, &m).err(), Some(DecodeError::InvalidNumber));
}

#[test]
fn test_record_malformed() {
    let m = standard_mappings();
    for bad in [
        "",
        "5",
        "[1,2]",
        "not json",
        r#"{"market": "ARBTC", "price": "1", "quantity": "1"}"#,
        r#"{"market": "ARBTC", "price": 1, "quantity": "1", "side": "bid"}"#,
        r#"{"market": null, "price": "1", "quantity": "1", "side": "bid"}"#,
    ] {
        assert_eq!(decode(bad, &m).err(), Some(DecodeError::MalformedRecord), "input {:?}", bad);
    }
}

#[test]
fn test_unknown_market_passes_through() {
    let m = standard_mappings();
    let text = r#"{"market": "SOLBTC", "price": "1", "quantity": "2", "side": "ask"}"#;
    let rec = decode(text, &m).expect("record should decode");
    assert_eq!(rec.market, "SOLBTC");
    let out = encode(&rec, &m);
    assert_eq!(out, "{\"market\":\"SOLBTC\",\"price\":\"1\",\"quantity\":\"2\",\"side\":\"ask\"}");
}

#[test]
fn test_escape_json() {
    assert_eq!(escape_json("plain"), "plain");
    assert_eq!(escape_json("a\"b"), "a\\\"b");
    assert_eq!(escape_json("a\\b"), "a\\\\b");
    assert_eq!(escape_json("a\nb"), "a\\u000ab");
    assert_eq!(escape_json("\u{1f}"), "\\u001f");
}

#[test]
fn test_encode_escapes_market() {
    let m = standard_mappings();
    let rec = MarketDataRecord {
        market: "A\"B".to_string(),
        price: Decimal { mantissa: 1, scale: 0 },
        quantity: Decimal { mantissa: 2, scale: 0 },
        side: Side::Ask,
    };
    let out = encode(&rec, &m);
    assert_eq!(out, "{\"market\":\"A\\\"B\",\"price\":\"1\",\"quantity\":\"2\",\"side\":\"ask\"}");
}

#[test]
fn test_build_rejects_duplicates() {
    let symbols: Vec<String> = vec!["ARBTC".to_string(), "ARBTC".to_string()];
    assert!(matches!(MarketMappings::build(&symbols), Err(BuildError::DuplicateMapping)));

    let distinct: Vec<String> = vec!["ARBTC".to_string(), "ETHBTC".to_string()];
    assert!(MarketMappings::build(&distinct).is_ok());
}

#[test]
fn test_load_collapses_duplicates() {
    let m = load_market_mappings(&config_with(&["ARBTC", "ARBTC"]), &DbConnection {});
    assert_eq!(to_internal("ARBTC", &m), "ARBTC/BTC");
    assert_eq!(to_external("ARBTC/BTC", &m), "ARBTC");
}

#[test]
fn test_shared_store_rebuild() {
    let app = GeckoApplication::new(config_with(&["ARBTC", "ETHBTC"]));
    let text = r#"{"market": "ARBTC", "price": "1", "quantity": "2", "side": "bid"}"#;
    let rec = decode_shared(text, &app.store).expect("record should decode");
    assert_eq!(rec.market, "ARBTC/BTC");
    assert_eq!(encode_shared(&rec, &app.store),
        "{\"market\":\"ARBTC\",\"price\":\"1\",\"quantity\":\"2\",\"side\":\"bid\"}");

    // swap in a table without ARBTC: lookups now fall back to identity
    let new_symbols: Vec<String> = vec!["SOLBTC".to_string()];
    rebuild_mappings(&app.store, &new_symbols).expect("rebuild should succeed");
    let rec2 = decode_shared(text, &app.store).expect("record should decode");
    assert_eq!(rec2.market, "ARBTC");
    let sol = r#"{"market": "SOLBTC", "price": "1", "quantity": "2", "side": "bid"}"#;
    let rec3 = decode_shared(sol, &app.store).expect("record should decode");
    assert_eq!(rec3.market, "SOLBTC/BTC");

    // a failed rebuild leaves the previous table active
    let dup: Vec<String> = vec!["X".to_string(), "X".to_string()];
    assert_eq!(rebuild_mappings(&app.store, &dup), Err(BuildError::DuplicateMapping));
    let rec4 = decode_shared(sol, &app.store).expect("record should decode");
    assert_eq!(rec4.market, "SOLBTC/BTC");
}
