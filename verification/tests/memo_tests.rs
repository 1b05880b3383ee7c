use launchpad::memo::parse_pool_id;
use launchpad::storage::{CourseStorageKey, LaunchpadStorageKey, PaymentStorageKey};

#[test]
fn memo_is_a_decimal_number() {
    assert_eq!(parse_pool_id("1"), Some(1));
    assert_eq!(parse_pool_id("3"), Some(3));
    assert_eq!(parse_pool_id("0"), Some(0));
    assert_eq!(parse_pool_id("42"), Some(42));
    assert_eq!(parse_pool_id("007"), Some(7));
    assert_eq!(parse_pool_id("+5"), Some(5));
    assert_eq!(parse_pool_id("18446744073709551615"), Some(u64::MAX));
    assert_eq!(parse_pool_id("000018446744073709551615"), Some(u64::MAX));
}

#[test]
fn memo_with_anything_else_names_no_pool() {
    assert_eq!(parse_pool_id(""), None);
    assert_eq!(parse_pool_id("+"), None);
    assert_eq!(parse_pool_id("++1"), None);
    assert_eq!(parse_pool_id("1+"), None);
    assert_eq!(parse_pool_id("-1"), None);
    assert_eq!(parse_pool_id("-0"), None);
    assert_eq!(parse_pool_id(" 1"), None);
    assert_eq!(parse_pool_id("1 "), None);
    assert_eq!(parse_pool_id("1_000"), None);
    assert_eq!(parse_pool_id("0x10"), None);
    assert_eq!(parse_pool_id("1.0"), None);
    assert_eq!(parse_pool_id("one"), None);
    assert_eq!(parse_pool_id("١"), None);
    assert_eq!(parse_pool_id("1é"), None);
    assert_eq!(parse_pool_id("18446744073709551616"), None);
    assert_eq!(parse_pool_id("99999999999999999999999999"), None);
}

#[test]
fn memo_reads_as_the_standard_library_does() {
    let samples = [
        "", "0", "1", "+1", "-1", "+", "12345", "0012", "18446744073709551615",
        "18446744073709551616", "184467440737095516150", " 7", "7 ", "7a", "a7", "+-7", "٣",
        "1\n", "\t1", "+0", "+00000000000000000000000000001",
    ];
    for s in samples {
        assert_eq!(parse_pool_id(s), s.parse::<u64>().ok(), "memo {:?}", s);
    }
}

#[test]
fn ledger_key_is_the_tag_and_the_id() {
    assert_eq!(
        LaunchpadStorageKey::user_records_prefix(1),
        vec![b'u', b's', b'e', b'r', 1, 0, 0, 0, 0, 0, 0, 0]
    );
    assert_eq!(
        LaunchpadStorageKey::user_records_prefix(0x0102030405060708),
        vec![117, 115, 101, 114, 8, 7, 6, 5, 4, 3, 2, 1]
    );
    assert_eq!(
        LaunchpadStorageKey::user_records_prefix(u64::MAX),
        vec![117, 115, 101, 114, 255, 255, 255, 255, 255, 255, 255, 255]
    );
    let mut expected = b"user".to_vec();
    expected.extend_from_slice(&258u64.to_le_bytes());
    assert_eq!(LaunchpadStorageKey::user_records_prefix(258), expected);
    assert_ne!(
        LaunchpadStorageKey::user_records_prefix(1),
        LaunchpadStorageKey::user_records_prefix(2)
    );
}

#[test]
fn collections_have_names_of_their_own() {
    assert_ne!(LaunchpadStorageKey::AllPoolId, LaunchpadStorageKey::PoolMetadataById);
    assert_ne!(LaunchpadStorageKey::UserRecordsMap, LaunchpadStorageKey::UserRecordsById { pool_id: 0 });
    assert_ne!(
        LaunchpadStorageKey::UserRecordsById { pool_id: 1 },
        LaunchpadStorageKey::UserRecordsById { pool_id: 2 }
    );
    assert_ne!(CourseStorageKey::CourseById, CourseStorageKey::AllCourseId);
    assert_ne!(PaymentStorageKey::RecordUserById, PaymentStorageKey::AllUserId);
}
