use zst_compress::text::{decimal, human_size, pad_left_str, pad_right_str};
use zst_compress::timestamp::Timestamp;

#[test]
fn human_size_units() {
    assert_eq!(human_size(0), "0.0B");
    assert_eq!(human_size(44), "44.0B");
    assert_eq!(human_size(1023), "1023.0B");
    assert_eq!(human_size(1024), "1.0KB");
    assert_eq!(human_size(1536), "1.5KB");
    assert_eq!(human_size(1_000_000), "976.6KB");
    assert_eq!(human_size(2_000_000), "1.9MB");
    assert_eq!(human_size(1 << 30), "1.0GB");
    assert_eq!(human_size(1 << 40), "1.0TB");
    assert_eq!(human_size(1 << 50), "1.0PB");
    assert_eq!(human_size(1 << 60), "1024.0PB");
    assert_eq!(human_size(u64::MAX), "16384.0PB");
}

#[test]
fn human_size_rounding() {
    // 1280 bytes are 1.25 KB exactly: ties go to the even digit.
    assert_eq!(human_size(1280), "1.2KB");
    // 1.75 KB
    assert_eq!(human_size(1792), "1.8KB");
    // Just below 1 MB rounds up to 1024.0KB.
    assert_eq!(human_size(1_048_575), "1024.0KB");
}

#[test]
fn decimal_and_padding() {
    assert_eq!(decimal(0), "0");
    assert_eq!(decimal(1234567890), "1234567890");
    assert_eq!(decimal(u64::MAX), "18446744073709551615");
    assert_eq!(pad_left_str("7".to_string(), "0", 2), "07");
    assert_eq!(pad_left_str("123".to_string(), "0", 2), "123");
    assert_eq!(pad_right_str("ab".to_string(), 4), "ab  ");
}

#[test]
fn timestamp_rendering() {
    let t = Timestamp { year: 2024, month: 3, day: 5, hour: 7, minute: 8, second: 9 };
    assert_eq!(t.render(), "2024-03-05 07:08:09");
    let t = Timestamp { year: 987, month: 12, day: 31, hour: 23, minute: 59, second: 59 };
    assert_eq!(t.render(), "0987-12-31 23:59:59");
    let t = Timestamp { year: -1, month: 1, day: 1, hour: 0, minute: 0, second: 0 };
    assert_eq!(t.render(), "-0001-01-01 00:00:00");
    let t = Timestamp { year: 12345, month: 1, day: 1, hour: 0, minute: 0, second: 0 };
    assert_eq!(t.render(), "+12345-01-01 00:00:00");
}

#[test]
fn local_time_fields_in_range() {
    let t = Timestamp::from_unix_local(1_700_000_000, 0).unwrap();
    assert!(t.year == 2023);
    assert!(1 <= t.month && t.month <= 12);
    assert!(1 <= t.day && t.day <= 31);
    assert!(t.hour < 24 && t.minute < 60 && t.second < 60);
    assert_eq!(t.render().chars().count(), 19);
    assert!(Timestamp::from_unix_local(i64::MAX, 0).is_none());
}
