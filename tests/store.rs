use timestamping::api::{parse_height, timestamp_by_hex, RequestError, TimestampResponse};
use timestamping::clock::seconds_from_nanos;
use timestamping::keys::{compare_keys, decode_key_hex, Digest, PublicKey};
use timestamping::schema::{Timestamp, TimestampSchema};
use timestamping::transaction::{execute_block, TxTimestamp};

fn key(b: u8) -> PublicKey {
    PublicKey { bytes: [b; 32] }
}

fn digest(b: u8) -> Digest {
    Digest { bytes: [b; 32] }
}

fn hex_of(bytes: &[u8; 32]) -> String {
    let mut s = String::new();
    for b in bytes.iter() {
        s.push_str(&format!("{:02x}", b));
    }
    s
}

#[test]
fn lookup_after_first_submission_and_unchanged_after_second() {
    let mut schema = TimestampSchema::new();
    let k1 = key(1);
    let hx = digest(0x78);
    let hy = digest(0x79);
    TxTimestamp::new(&k1, &hx).execute_at(&mut schema, 100);
    let expected = Timestamp { pub_key: k1, content: hx, time: 100 };
    assert_eq!(schema.timestamp(&k1), Some(expected));
    let listing_after_first = schema.timestamps();
    TxTimestamp::new(&k1, &hy).execute_at(&mut schema, 200);
    assert_eq!(schema.timestamp(&k1), Some(expected));
    assert_eq!(schema.timestamps(), listing_after_first);
}

#[test]
fn second_submission_with_other_digest_is_ignored() {
    let mut schema = TimestampSchema::new();
    let o = key(9);
    TxTimestamp::new(&o, &digest(1)).execute_at(&mut schema, 5);
    TxTimestamp::new(&o, &digest(2)).execute_at(&mut schema, 6);
    let entry = schema.timestamp(&o).unwrap();
    assert_eq!(entry.content, digest(1));
    assert_eq!(entry.time, 5);
    assert_eq!(schema.len(), 1);
}

#[test]
fn identical_resubmission_keeps_first_time() {
    let mut schema = TimestampSchema::new();
    let tx = TxTimestamp::new(&key(3), &digest(4));
    tx.execute_at(&mut schema, 10);
    tx.execute_at(&mut schema, 20);
    assert_eq!(schema.timestamp(&key(3)).unwrap().time, 10);
}

#[test]
fn order_of_application_does_not_matter() {
    let a = (TxTimestamp::new(&key(0xa0), &digest(1)), 1u64);
    let b = (TxTimestamp::new(&key(0x0b), &digest(2)), 2u64);
    let c = (TxTimestamp::new(&key(0x5c), &digest(3)), 3u64);
    let mut s1 = TimestampSchema::new();
    let mut s2 = TimestampSchema::new();
    execute_block(&mut s1, &vec![a, b, c]);
    execute_block(&mut s2, &vec![c, a, b]);
    assert_eq!(s1.timestamps(), s2.timestamps());
    assert_eq!(s1.len(), 3);
}

#[test]
fn absent_before_and_present_after() {
    let mut schema = TimestampSchema::new();
    let o = key(7);
    assert_eq!(schema.timestamp(&o), None);
    TxTimestamp::new(&key(8), &digest(8)).execute_at(&mut schema, 1);
    assert_eq!(schema.timestamp(&o), None);
    assert!(!schema.contains(&o));
    TxTimestamp::new(&o, &digest(7)).execute_at(&mut schema, 2);
    assert!(schema.contains(&o));
    assert_eq!(
        schema.timestamp(&o),
        Some(Timestamp { pub_key: o, content: digest(7), time: 2 })
    );
}

#[test]
fn listing_holds_exactly_the_applied_entries_in_key_order() {
    let mut schema = TimestampSchema::new();
    TxTimestamp::new(&key(0xcc), &digest(3)).execute_at(&mut schema, 30);
    TxTimestamp::new(&key(0xaa), &digest(1)).execute_at(&mut schema, 10);
    TxTimestamp::new(&key(0xbb), &digest(2)).execute_at(&mut schema, 20);
    let all = schema.timestamps();
    assert_eq!(
        all,
        vec![
            Timestamp { pub_key: key(0xaa), content: digest(1), time: 10 },
            Timestamp { pub_key: key(0xbb), content: digest(2), time: 20 },
            Timestamp { pub_key: key(0xcc), content: digest(3), time: 30 },
        ]
    );
}

#[test]
fn empty_store_lists_nothing() {
    let schema = TimestampSchema::new();
    assert!(schema.timestamps().is_empty());
    assert_eq!(schema.len(), 0);
}

#[test]
fn keys_that_differ_late_are_ordered_by_first_difference() {
    let mut lo = [0u8; 32];
    let mut hi = [0u8; 32];
    lo[31] = 1;
    hi[31] = 2;
    hi[0] = 0;
    let a = PublicKey { bytes: lo };
    let b = PublicKey { bytes: hi };
    assert!(compare_keys(&a, &b) < 0);
    assert!(compare_keys(&b, &a) > 0);
    assert_eq!(compare_keys(&a, &a), 0);
    let mut first = [0u8; 32];
    first[0] = 1;
    assert!(compare_keys(&PublicKey { bytes: first }, &b) > 0);
}

#[test]
fn execute_reads_the_clock_once_and_keeps_the_first_entry() {
    let mut schema = TimestampSchema::new();
    let tx = TxTimestamp::new(&key(2), &digest(2));
    tx.execute(&mut schema);
    let first = schema.timestamp(&key(2)).unwrap();
    assert_eq!(first.content, digest(2));
    TxTimestamp::new(&key(2), &digest(5)).execute(&mut schema);
    assert_eq!(schema.timestamp(&key(2)), Some(first));
}

#[test]
fn seconds_are_whole_seconds_of_nanos() {
    assert_eq!(seconds_from_nanos(2_500_000_000), 2);
    assert_eq!(seconds_from_nanos(999_999_999), 0);
    assert_eq!(seconds_from_nanos(u64::MAX), 18_446_744_073);
}

#[test]
fn hex_keys_decode_in_either_case() {
    let mut bytes = [0u8; 32];
    for i in 0..32 {
        bytes[i] = (i as u8) * 7 + 0xa0;
    }
    let lower = hex_of(&bytes);
    assert_eq!(decode_key_hex(&lower), Some(bytes));
    let upper = lower.to_uppercase();
    assert_eq!(PublicKey::from_hex(&upper), Some(PublicKey { bytes }));
    assert_eq!(Digest::from_hex(&lower), Some(Digest { bytes }));
}

#[test]
fn hex_keys_of_wrong_length_or_digits_are_refused() {
    let good = "ab".repeat(32);
    assert!(PublicKey::from_hex(&good).is_some());
    assert_eq!(PublicKey::from_hex(&good[..62]), None);
    assert_eq!(PublicKey::from_hex(&format!("{}00", good)), None);
    assert_eq!(PublicKey::from_hex(""), None);
    let bad = format!("{}zz", &good[..62]);
    assert_eq!(PublicKey::from_hex(&bad), None);
    let bad_g = format!("g{}", &good[1..]);
    assert_eq!(Digest::from_hex(&bad_g), None);
}

#[test]
fn lookup_by_hex_reports_invalid_missing_and_found() {
    let mut schema = TimestampSchema::new();
    TxTimestamp::new(&key(0x3c), &digest(0x11)).execute_at(&mut schema, 77);
    assert_eq!(timestamp_by_hex(&schema, "xyz"), Err(RequestError::InvalidPubKey));
    assert_eq!(timestamp_by_hex(&schema, &"3d".repeat(32)), Ok(None));
    assert_eq!(
        timestamp_by_hex(&schema, &"3C".repeat(32)),
        Ok(Some(Timestamp { pub_key: key(0x3c), content: digest(0x11), time: 77 }))
    );
}

#[test]
fn heights_parse_as_unsigned_decimals() {
    assert_eq!(parse_height("1"), Some(1));
    assert_eq!(parse_height("+7"), Some(7));
    assert_eq!(parse_height("0042"), Some(42));
    assert_eq!(parse_height("18446744073709551615"), Some(u64::MAX));
    assert_eq!(parse_height("18446744073709551616"), None);
    assert_eq!(parse_height(""), None);
    assert_eq!(parse_height("+"), None);
    assert_eq!(parse_height("-1"), None);
    assert_eq!(parse_height("12a"), None);
}

#[test]
fn submission_response_carries_the_hash() {
    let r = TimestampResponse { tx_hash: digest(0x42) };
    assert_eq!(r.tx_hash.bytes, [0x42; 32]);
}
