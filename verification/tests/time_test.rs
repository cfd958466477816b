use stream_backend::time::{chrono_now, is_leap, unix_now_secs, utc_timestamp};

#[test]
fn leap_years_follow_the_gregorian_rule() {
    assert!(is_leap(2000));
    assert!(is_leap(2024));
    assert!(!is_leap(1900));
    assert!(!is_leap(2023));
    assert!(!is_leap(2100));
}

#[test]
fn epoch_is_first_of_january_1970() {
    assert_eq!(utc_timestamp(0), "1970-01-01 00:00:00");
    assert_eq!(utc_timestamp(59), "1970-01-01 00:00:59");
    assert_eq!(utc_timestamp(86399), "1970-01-01 23:59:59");
    assert_eq!(utc_timestamp(31536000), "1971-01-01 00:00:00");
}

#[test]
fn timestamps_cross_leap_days_and_years() {
    assert_eq!(utc_timestamp(951782400), "2000-02-29 00:00:00");
    assert_eq!(utc_timestamp(1700000000), "2023-11-14 22:13:20");
    assert_eq!(utc_timestamp(1735689599), "2024-12-31 23:59:59");
    assert_eq!(utc_timestamp(1735689600), "2025-01-01 00:00:00");
    assert_eq!(utc_timestamp(4102444799), "2099-12-31 23:59:59");
}

#[test]
fn timestamps_sort_in_time_order() {
    let a = utc_timestamp(1700000000);
    let b = utc_timestamp(1735689599);
    let c = utc_timestamp(1735689600);
    assert!(a < b);
    assert!(b < c);
}

#[test]
fn now_has_the_stored_form() {
    let now = chrono_now();
    assert_eq!(now.len(), 19);
    assert!(now.as_str() > "2020-01-01 00:00:00");
    assert_eq!(&now[4..5], "-");
    assert_eq!(&now[10..11], " ");
    let secs = unix_now_secs();
    let wall = std::time::SystemTime::now()
        .duration_since(std::time::UNIX_EPOCH)
        .unwrap()
        .as_secs();
    assert!(wall >= secs && wall - secs < 5);
}

#[test]
fn last_second_before_year_10000() {
    assert_eq!(utc_timestamp(253402300799), "9999-12-31 23:59:59");
    assert!(utc_timestamp(253402300798) < utc_timestamp(253402300799));
    assert_ne!(utc_timestamp(0), utc_timestamp(1));
}
