use ncp_core::transfer::{
    check_checksum, check_complete, check_header, choose_passphrase, decode_payload, encode_payload,
    needs_more, new_ack, new_header, part_file_name, pause_after, payload_name, record_chunk,
    resume_point,
};
use ncp_core::utils::{derive_key, sha256_bytes};

#[test]
fn header_roundtrip() {
    let h = new_header("a.txt".to_string(), 10, 20, "abc".to_string(), true, false, false);
    assert_eq!(h.magic, "NCP1");
    assert_eq!(h.name, "a.txt");
    assert_eq!(h.payload_size, 10);
    assert_eq!(h.decoded_size, 20);
    assert!(h.compress && !h.encrypt && !h.is_dir);
    assert_eq!(check_header(&h), Ok(()));
    let mut bad = h;
    bad.magic = "NCP2".to_string();
    assert_eq!(check_header(&bad), Err("Invalid protocol header".to_string()));
}

#[test]
fn resume_points() {
    assert_eq!(resume_point(None, 100), (0, false));
    assert_eq!(resume_point(Some(40), 100), (40, false));
    assert_eq!(resume_point(Some(100), 100), (100, false));
    assert_eq!(resume_point(Some(101), 100), (0, true));
    assert_eq!(new_ack(7).resume_from, 7);
}

#[test]
fn chunks() {
    assert_eq!(record_chunk(10, 0), None);
    assert_eq!(record_chunk(10, 5), Some(15));
}

#[test]
fn completion() {
    assert_eq!(check_complete(5, 5), Ok(()));
    assert_eq!(
        check_complete(3, 10),
        Err("Transfer interrupted: expected 10, got 3".to_string())
    );
}

#[test]
fn checksums() {
    assert_eq!(check_checksum("ab", "ab"), Ok(()));
    assert_eq!(check_checksum("ab", "cd"), Err("Checksum mismatch: expected ab, got cd".to_string()));
}

#[test]
fn passphrases() {
    assert_eq!(choose_passphrase(Some("x".to_string()), Some("y".to_string())), Ok("x".to_string()));
    assert_eq!(choose_passphrase(Some(String::new()), None), Ok(String::new()));
    assert_eq!(choose_passphrase(None, Some("y".to_string())), Ok("y".to_string()));
    let msg = "Encryption enabled but no passphrase provided (--passphrase or NCP_PASSPHRASE)".to_string();
    assert_eq!(choose_passphrase(None, Some(String::new())), Err(msg.clone()));
    assert_eq!(choose_passphrase(None, None), Err(msg));
}

#[test]
fn payload_names() {
    assert_eq!(payload_name(Some("photos"), true), "photos");
    assert_eq!(payload_name(None, true), "bundle");
    assert_eq!(payload_name(None, false), "file.bin");
    assert_eq!(part_file_name("a.txt"), "a.txt.part");
}

#[test]
fn text_pacing() {
    assert!(pause_after(0, 3, false));
    assert!(pause_after(1, 3, false));
    assert!(!pause_after(2, 3, false));
    assert!(!pause_after(0, 3, true));
    assert!(!pause_after(0, 1, false));
}

fn sample() -> Vec<u8> {
    (0..5000u32).map(|i| (i % 251) as u8).collect()
}

#[test]
fn payload_round_trips() {
    let data = sample();
    let key = derive_key("pw");
    for (compress, k) in [(false, None), (true, None), (false, Some(key)), (true, Some(key))] {
        let p = encode_payload(&data, compress, k);
        assert_eq!(p.digest, sha256_bytes(&data));
        if k.is_some() || compress {
            assert_ne!(p.payload, data);
        } else {
            assert_eq!(p.payload, data);
        }
        assert_eq!(decode_payload(p.payload, compress, k, &p.digest), Ok(data.clone()));
    }
}

#[test]
fn compressed_payload_is_gzip() {
    let data = vec![7u8; 10000];
    let p = encode_payload(&data, true, None);
    assert_eq!(&p.payload[..2], &[0x1f, 0x8b]);
    assert!(p.payload.len() < data.len());
}

#[test]
fn decoding_failures() {
    let data = sample();
    let key = derive_key("pw");
    let p = encode_payload(&data, true, Some(key));
    let wrong_key = derive_key("other");
    assert!(decode_payload(p.payload.clone(), true, Some(wrong_key), &p.digest).is_err());
    let plain = encode_payload(&data, false, None);
    assert_eq!(
        decode_payload(plain.payload.clone(), false, None, "abc"),
        Err(format!("Checksum mismatch: expected abc, got {}", plain.digest))
    );
    assert!(decode_payload(vec![1, 2, 3], true, None, "x").is_err());
}

#[test]
fn copy_loop_condition() {
    assert!(needs_more(0, 10));
    assert!(!needs_more(10, 10));
    assert!(!needs_more(11, 10));
}
