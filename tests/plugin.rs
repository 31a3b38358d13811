use wallet_pipeline::plugin::{AccountInfo, ConfigRoot, LoggerPlugin, Params, TargetError};

// 2025-11-13 22:15:33 UTC
const NOW: i64 = 1763072133;

// the base58 text of 32 bytes 0, 1, ..., 31
fn key_bytes() -> Vec<u8> {
    (0u8..32).collect()
}

fn key_text() -> String {
    bs58::encode(key_bytes()).into_string()
}

#[test]
fn no_target_passes_every_key() {
    let p = LoggerPlugin::new();
    assert!(p.matches_target(&[1u8, 2, 3]));
    assert!(p.matches_target(&[]));
}

#[test]
fn target_filters_other_keys() {
    let mut p = LoggerPlugin::new();
    assert_eq!(p.set_target_wallet_from_b58(&key_text()), Ok(()));
    assert!(p.matches_target(&key_bytes()));
    let mut other = key_bytes();
    other[31] = 0;
    assert!(!p.matches_target(&other));
    assert!(!p.matches_target(&key_bytes()[..31]));
}

#[test]
fn invalid_base58_is_refused() {
    let mut p = LoggerPlugin::new();
    assert_eq!(p.set_target_wallet_from_b58("0OIl"), Err(TargetError::InvalidBase58));
    assert!(p.matches_target(&[9u8; 5]));
}

#[test]
fn short_key_is_refused() {
    let mut p = LoggerPlugin::new();
    // "2g" is base58 for the single byte 0x61
    assert_eq!(p.set_target_wallet_from_b58("2g"), Err(TargetError::WrongLength(1)));
    assert!(p.matches_target(&[9u8; 5]));
}

#[test]
fn config_prefers_params_and_fills_defaults() {
    let mut p = LoggerPlugin::new();
    let cfg = ConfigRoot {
        params: Some(Params { target_wallet: Some(key_text()), nats_url: None, nats_subject: None }),
        args: Some(Params { target_wallet: None, nats_url: Some("nats://other:1".to_string()), nats_subject: None }),
    };
    let s = p.load_target_from_config(cfg).unwrap();
    assert_eq!(s.nats_url, "nats://127.0.0.1:4222");
    assert_eq!(s.nats_subject, "WALLET.updates");
    assert!(!p.matches_target(&[0u8; 32]));
    assert!(p.matches_target(&key_bytes()));
}

#[test]
fn config_falls_back_to_args() {
    let mut p = LoggerPlugin::new();
    let cfg = ConfigRoot {
        params: None,
        args: Some(Params { target_wallet: None, nats_url: Some("nats://bus:4222".to_string()), nats_subject: Some("S.x".to_string()) }),
    };
    let s = p.load_target_from_config(cfg).unwrap();
    assert_eq!(s.nats_url, "nats://bus:4222");
    assert_eq!(s.nats_subject, "S.x");
    assert!(p.matches_target(&[0u8; 32]));
}

#[test]
fn config_with_bad_wallet_fails() {
    let mut p = LoggerPlugin::new();
    let cfg = ConfigRoot {
        params: Some(Params { target_wallet: Some("not-base58!".to_string()), nats_url: None, nats_subject: None }),
        args: None,
    };
    assert!(matches!(p.load_target_from_config(cfg), Err(TargetError::InvalidBase58)));
}

#[test]
fn startup_updates_are_skipped() {
    let p = LoggerPlugin::new();
    let info = AccountInfo::V3 { pubkey: key_bytes(), lamports: 5, write_version: 7 };
    assert!(p.update_account(&info, 10, true, NOW).is_none());
}

#[test]
fn rows_are_normalized_across_shapes() {
    let p = LoggerPlugin::new();
    let v1 = AccountInfo::V1 { pubkey: key_bytes(), lamports: 42 };
    let row = p.update_account(&v1, 99, false, NOW).unwrap();
    assert_eq!(row.slot, 99);
    assert_eq!(row.write_ver, 0);
    assert_eq!(row.lamports, 42u128);
    assert_eq!(row.pubkey, key_text());
    assert_ne!(row.pubkey.as_bytes(), &key_bytes()[..]);
    assert_eq!(row.ts, "2025-11-13 22:15:33");

    let v2 = AccountInfo::V2 { pubkey: key_bytes(), lamports: u64::MAX, write_version: 3 };
    let row = p.update_account(&v2, 1, false, NOW).unwrap();
    assert_eq!(row.write_ver, 3);
    assert_eq!(row.lamports, u64::MAX as u128);
}

#[test]
fn rows_of_other_accounts_are_skipped() {
    let mut p = LoggerPlugin::new();
    p.set_target_wallet(&key_bytes()).unwrap();
    let info = AccountInfo::V3 { pubkey: vec![7u8; 32], lamports: 1, write_version: 1 };
    assert!(p.update_account(&info, 1, false, NOW).is_none());
    assert_eq!(p.set_target_wallet(&[1u8, 2]), Err(TargetError::WrongLength(2)));
}

#[test]
fn row_key_and_time_have_their_shapes() {
    let mut key = key_bytes();
    key[0] = 0;
    key[1] = 0;
    let p = LoggerPlugin::new();
    let row = p.update_account(&AccountInfo::V1 { pubkey: key.clone(), lamports: 1 }, 5, false, NOW).unwrap();
    assert!(row.pubkey.starts_with("11"));
    assert_eq!(bs58::decode(&row.pubkey).into_vec().unwrap(), key);
    let t: Vec<char> = row.ts.chars().collect();
    let n = t.len();
    assert!(n >= 19);
    for (i, c) in t.iter().enumerate() {
        match n - i {
            15 | 12 => assert_eq!(*c, '-'),
            9 => assert_eq!(*c, ' '),
            6 | 3 => assert_eq!(*c, ':'),
            _ => assert!(c.is_ascii_digit()),
        }
    }
}

#[test]
fn timestamps_are_utc_text_of_the_given_time() {
    let p = LoggerPlugin::new();
    let info = AccountInfo::V1 { pubkey: key_bytes(), lamports: 1 };
    assert_eq!(p.update_account(&info, 1, false, 0).unwrap().ts, "1970-01-01 00:00:00");
    assert_eq!(
        p.update_account(&info, 1, false, wallet_pipeline::plugin::LAST_FOUR_DIGIT_YEAR_SECS).unwrap().ts,
        "9999-12-31 23:59:59"
    );
}
