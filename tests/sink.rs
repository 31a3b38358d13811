use wallet_pipeline::sink::{insert_url, is_success_status, parse_decimal, IngestorConfig};

#[test]
fn insert_url_names_table_and_format() {
    assert_eq!(
        insert_url("http://127.0.0.1:8123", "default", "wallet_account_updates"),
        "http://127.0.0.1:8123/?query=INSERT%20INTO%20default.wallet_account_updates%20FORMAT%20JSONEachRow"
    );
}

#[test]
fn success_range_is_2xx() {
    assert!(is_success_status(200));
    assert!(is_success_status(204));
    assert!(is_success_status(299));
    assert!(!is_success_status(199));
    assert!(!is_success_status(300));
    assert!(!is_success_status(500));
}

#[test]
fn config_defaults() {
    let c = IngestorConfig::from_values(None, None, None, None, None, None, None, None, None);
    assert_eq!(c.nats_url, "nats://127.0.0.1:4222");
    assert_eq!(c.subject, "WALLET.updates");
    assert_eq!(c.sink_url, "http://127.0.0.1:8123");
    assert_eq!(c.database, "default");
    assert_eq!(c.table, "wallet_account_updates");
    assert_eq!(c.batch_size, 200);
    assert_eq!(c.flush_ms, 500);
    assert_eq!(c.insert_url(), "http://127.0.0.1:8123/?query=INSERT%20INTO%20default.wallet_account_updates%20FORMAT%20JSONEachRow");
}

#[test]
fn config_values_and_bad_numbers() {
    let c = IngestorConfig::from_values(
        Some("nats://n:1".to_string()),
        Some("S".to_string()),
        Some("http://ch:8123".to_string()),
        Some("u".to_string()),
        Some("p".to_string()),
        Some("db".to_string()),
        Some("t".to_string()),
        Some("50".to_string()),
        Some("soon".to_string()),
    );
    assert_eq!(c.nats_url, "nats://n:1");
    assert_eq!(c.subject, "S");
    assert_eq!(c.user, "u");
    assert_eq!(c.password, "p");
    assert_eq!(c.batch_size, 50);
    assert_eq!(c.flush_ms, 500);
    assert_eq!(c.insert_url(), "http://ch:8123/?query=INSERT%20INTO%20db.t%20FORMAT%20JSONEachRow");
}

#[test]
fn config_from_parsed_numbers() {
    let c = IngestorConfig::new(None, None, None, None, None, None, Some("t2".to_string()), Some(3), None);
    assert_eq!(c.batch_size, 3);
    assert_eq!(c.flush_ms, 500);
    assert_eq!(c.table, "t2");
    assert_eq!(c.user, "dev");
    let d = IngestorConfig::new(None, None, None, None, None, None, None, None, Some(1000));
    assert_eq!(d.batch_size, 200);
    assert_eq!(d.flush_ms, 1000);
}

#[test]
fn numbers_parse_as_unsigned_decimals() {
    let n = |b: &str, f: &str| {
        IngestorConfig::from_values(None, None, None, None, None, None, None, Some(b.to_string()), Some(f.to_string()))
    };
    let c = n("+7", "0012");
    assert_eq!((c.batch_size, c.flush_ms), (7, 12));
    let c = n("-1", "");
    assert_eq!((c.batch_size, c.flush_ms), (200, 500));
    let c = n("+", "18446744073709551616");
    assert_eq!((c.batch_size, c.flush_ms), (200, 500));
    let c = n(" 5", "18446744073709551615");
    assert_eq!((c.batch_size, c.flush_ms), (200, u64::MAX));
}

#[test]
fn decimal_parser_edges() {
    assert_eq!(parse_decimal("0", 10), Some(0));
    assert_eq!(parse_decimal("+10", 10), Some(10));
    assert_eq!(parse_decimal("11", 10), None);
    assert_eq!(parse_decimal("", 10), None);
    assert_eq!(parse_decimal("+", 10), None);
    assert_eq!(parse_decimal("1a", 100), None);
    assert_eq!(parse_decimal("٣", 100), None);
    assert_eq!(parse_decimal("18446744073709551615", u64::MAX), Some(u64::MAX));
    assert_eq!(parse_decimal("18446744073709551616", u64::MAX), None);
    assert_eq!(parse_decimal("99999999999999999999x", u64::MAX), None);
}
