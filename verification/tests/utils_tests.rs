use ncp_core::utils::{
    at_least_once, derive_key, format_size, parse_timeout_duration, parse_timeout_millis,
    sha256_bytes, timeout_fits, xor_keystream_in_place, AppConfig, FileDigest,
};
use std::time::Duration;

fn float_size(bytes: u64) -> String {
    let kb = 1024_u64;
    let mb = kb * 1024;
    let gb = mb * 1024;
    if bytes >= gb {
        format!("{:.2} GB", bytes as f64 / gb as f64)
    } else if bytes >= mb {
        format!("{:.2} MB", bytes as f64 / mb as f64)
    } else if bytes >= kb {
        format!("{:.2} KB", bytes as f64 / kb as f64)
    } else {
        format!("{} B", bytes)
    }
}

#[test]
fn format_size_bytes() {
    assert_eq!(format_size(0), "0 B");
    assert_eq!(format_size(1), "1 B");
    assert_eq!(format_size(1023), "1023 B");
}

#[test]
fn format_size_units() {
    assert_eq!(format_size(1024), "1.00 KB");
    assert_eq!(format_size(1536), "1.50 KB");
    assert_eq!(format_size(1048576), "1.00 MB");
    assert_eq!(format_size(1073741824), "1.00 GB");
    assert_eq!(format_size(5 * 1073741824), "5.00 GB");
}

#[test]
fn format_size_rounding_ties() {
    // 1.005 KB is not exactly representable; the f64 nearest to 1029.12/1024 decides.
    for b in [1029u64, 1030, 1034, 1035, 1044, 1045, 2047, 10245, 1048575, 1073741823] {
        assert_eq!(format_size(b), float_size(b), "bytes = {}", b);
    }
}

#[test]
fn format_size_matches_float_formatting() {
    let mut b: u64 = 1;
    while b < u64::MAX / 3 {
        for d in [0u64, 1, 2, 3, 5, 7, 511, 512, 513, 1000] {
            let v = b.saturating_add(d);
            assert_eq!(format_size(v), float_size(v), "bytes = {}", v);
            let w = b.saturating_sub(d);
            assert_eq!(format_size(w), float_size(w), "bytes = {}", w);
        }
        b = b * 3 + 1;
    }
    assert_eq!(format_size(u64::MAX), float_size(u64::MAX));
    for v in 0u64..5000 {
        assert_eq!(format_size(v * 37), float_size(v * 37));
    }
}

#[test]
fn parse_timeout_forms() {
    assert_eq!(parse_timeout_millis("500ms"), Ok(500));
    assert_eq!(parse_timeout_millis("2s"), Ok(2000));
    assert_eq!(parse_timeout_millis("750"), Ok(750));
    assert_eq!(parse_timeout_millis(" 5 ms"), Ok(5));
    assert_eq!(parse_timeout_millis("0ms"), Ok(0));
}

#[test]
fn parse_timeout_errors() {
    assert_eq!(parse_timeout_millis("abc"), Err("Invalid timeout: abc".to_string()));
    assert_eq!(parse_timeout_millis(""), Err("Invalid timeout: ".to_string()));
    assert_eq!(parse_timeout_millis("1.5s"), Err("Invalid timeout: 1.5s".to_string()));
    assert_eq!(parse_timeout_millis("-3"), Err("Invalid timeout: -3".to_string()));
}

#[test]
fn parse_timeout_limits() {
    assert!(timeout_fits("18446744073709551ms"));
    assert!(timeout_fits("18446744073709551s"));
    assert!(!timeout_fits("18446744073709552s"));
    assert!(timeout_fits("garbage"));
}

#[test]
fn parse_timeout_duration_values() {
    assert_eq!(parse_timeout_duration("250ms"), Ok(Duration::from_millis(250)));
    assert_eq!(parse_timeout_duration("3s"), Ok(Duration::from_millis(3000)));
    assert!(parse_timeout_duration("x").is_err());
}

#[test]
fn default_config() {
    let c = AppConfig::default();
    assert_eq!(c.default_interface, None);
    assert_eq!(c.default_scan_range, "1-1000");
    assert_eq!(c.default_timeout, "500ms");
}

#[test]
fn sha256_known_vectors() {
    assert_eq!(
        sha256_bytes(b""),
        "e3b0c44298fc1c149afbf4c8996fb92427ae41e4649b934ca495991b7852b855"
    );
    assert_eq!(
        sha256_bytes(b"abc"),
        "ba7816bf8f01cfea414140de5dae2223b00361a396177a9cb410ff61f20015ad"
    );
}

#[test]
fn derive_key_is_sha256_of_passphrase() {
    let k = derive_key("abc");
    assert_eq!(k[0], 0xba);
    assert_eq!(k[31], 0xad);
    assert_ne!(derive_key("abc"), derive_key("abd"));
}

#[test]
fn keystream_roundtrip() {
    let key = derive_key("secret");
    let plain: Vec<u8> = (0..100u32).map(|i| (i * 7 % 256) as u8).collect();
    let mut data = plain.clone();
    let mut counter = 0u64;
    xor_keystream_in_place(&mut data, &key, &mut counter);
    assert_eq!(counter, 4);
    assert_ne!(data, plain);
    let mut counter2 = 0u64;
    xor_keystream_in_place(&mut data, &key, &mut counter2);
    assert_eq!(data, plain);
}

#[test]
fn keystream_chunks_continue() {
    let key = derive_key("k");
    let plain: Vec<u8> = (0..96u32).map(|i| i as u8).collect();
    let mut whole = plain.clone();
    let mut c = 0u64;
    xor_keystream_in_place(&mut whole, &key, &mut c);
    let mut parts = plain.clone();
    let mut c2 = 0u64;
    let (a, b) = parts.split_at_mut(64);
    xor_keystream_in_place(a, &key, &mut c2);
    xor_keystream_in_place(b, &key, &mut c2);
    assert_eq!(parts, whole);
    assert_eq!(c, c2);
}

#[test]
fn keystream_empty_buffer() {
    let key = derive_key("k");
    let mut data: Vec<u8> = Vec::new();
    let mut c = 7u64;
    xor_keystream_in_place(&mut data, &key, &mut c);
    assert_eq!(c, 7);
}

#[test]
fn keystream_first_block_is_hash_of_key_and_counter() {
    let key = [0u8; 32];
    let mut data = vec![0u8; 32];
    let mut c = 0u64;
    xor_keystream_in_place(&mut data, &key, &mut c);
    let mut input = key.to_vec();
    input.extend_from_slice(&0u64.to_be_bytes());
    let expected = sha256_bytes(&input);
    let got: String = data.iter().map(|b| format!("{:02x}", b)).collect();
    assert_eq!(got, expected);
}

#[test]
fn repeat_counts() {
    assert_eq!(at_least_once(0), 1);
    assert_eq!(at_least_once(1), 1);
    assert_eq!(at_least_once(5), 5);
}

#[test]
fn file_digest_in_pieces() {
    let mut d = FileDigest::new();
    d.update(b"a");
    d.update(b"");
    d.update(b"bc");
    assert_eq!(d.finish(), sha256_bytes(b"abc"));
    assert_eq!(FileDigest::new().finish(), sha256_bytes(b""));
}
