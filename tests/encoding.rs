use ore_pool_server::attest::{attestation_record, le_u64, push_decimal, push_hex};
use ore_pool_server::model::{Contribution, Solution};
use ore_pool_server::utils::{env_var_or_panic, parse_minutes, EnvError};

#[test]
fn decimal_digits() {
    let mut out = Vec::new();
    push_decimal(&mut out, 0);
    assert_eq!(out, b"0".to_vec());
    let mut out = b"x".to_vec();
    push_decimal(&mut out, 1234567);
    assert_eq!(out, b"x1234567".to_vec());
    let mut out = Vec::new();
    push_decimal(&mut out, u64::MAX);
    assert_eq!(out, u64::MAX.to_string().into_bytes());
}

#[test]
fn hex_digits() {
    let mut out = Vec::new();
    let mut d = [0u8; 16];
    d[0] = 0xab;
    d[1] = 0x01;
    d[15] = 0xf0;
    push_hex(&mut out, &d);
    assert_eq!(out, b"ab0100000000000000000000000000f0".to_vec());
}

#[test]
fn little_endian_nonce() {
    assert_eq!(le_u64(&[1, 0, 0, 0, 0, 0, 0, 0]), 1);
    assert_eq!(le_u64(&[0, 1, 0, 0, 0, 0, 0, 0]), 256);
    assert_eq!(le_u64(&[0xff; 8]), u64::MAX);
    assert_eq!(le_u64(&[1, 2, 3, 4, 5, 6, 7, 8]), u64::from_le_bytes([1, 2, 3, 4, 5, 6, 7, 8]));
}

#[test]
fn record_lines() {
    let c = Contribution { member: [0u8; 32], score: 1, solution: Solution { d: [0x1f; 16], n: [2, 0, 0, 0, 0, 0, 0, 0] } };
    let out = attestation_record(&vec![c, c]);
    let line = format!("11111111111111111111111111111111 {} 2\n", "1f".repeat(16));
    assert_eq!(String::from_utf8(out).unwrap(), format!("{}{}", line, line));
    assert!(attestation_record(&vec![]).is_empty());
}

#[test]
fn env_value_or_missing() {
    assert_eq!(env_var_or_panic("RPC_URL", Some("http://x".to_string())).unwrap(), "http://x");
    match env_var_or_panic("RPC_URL", None) {
        Err(EnvError::Missing(n)) => assert_eq!(n, "RPC_URL"),
        Ok(_) => panic!("expected an error"),
    }
}

#[test]
fn minutes_parse() {
    assert_eq!(parse_minutes(b"15"), Some(15));
    assert_eq!(parse_minutes(b"+7"), Some(7));
    assert_eq!(parse_minutes(b"0"), Some(0));
    assert_eq!(parse_minutes(b""), None);
    assert_eq!(parse_minutes(b"+"), None);
    assert_eq!(parse_minutes(b"1a"), None);
    assert_eq!(parse_minutes(b"-1"), None);
    assert_eq!(parse_minutes(b"18446744073709551615"), Some(u64::MAX));
    assert_eq!(parse_minutes(b"18446744073709551616"), None);
}
