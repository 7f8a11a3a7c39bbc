use paul_scrape_rs::timefmt::{
    check_date, convert_time, convert_time_checked, format_timestamp, month_number, Timestamp,
};

#[test]
fn midnight_is_clamped() {
    assert_eq!(convert_time("Mo 02. Okt. 2023", "24:00").as_str(), "2023-10-02T23:59:00");
}

#[test]
fn both_march_spellings() {
    assert_eq!(convert_time("Fr 03. Mrz. 2023", "08:00").as_str(), "2023-03-03T08:00:00");
    assert_eq!(convert_time("Fr 03. M\u{e4}r. 2023", "08:00").as_str(), "2023-03-03T08:00:00");
}

#[test]
fn ordinary_time_kept() {
    assert_eq!(convert_time("Di 14. Nov. 2023", "09:15").as_str(), "2023-11-14T09:15:00");
}

#[test]
fn month_table() {
    let table = [
        ("Jan", 1),
        ("Feb", 2),
        ("Mrz", 3),
        ("M\u{e4}r", 3),
        ("Apr", 4),
        ("Mai", 5),
        ("Jun", 6),
        ("Jul", 7),
        ("Aug", 8),
        ("Sep", 9),
        ("Okt", 10),
        ("Nov", 11),
        ("Dez", 12),
    ];
    for (txt, num) in table.iter() {
        assert_eq!(month_number(txt), Some(*num));
    }
    assert_eq!(month_number("Foo"), None);
    assert_eq!(month_number(""), None);
}

#[test]
fn invalid_dates_rejected() {
    assert!(!check_date("Mo 02. Foo. 2023"));
    assert!(!check_date("02. Okt."));
    assert!(!check_date(""));
    assert!(!check_date("Mo xx. Okt. 2023"));
    assert!(check_date("Mo 02. Okt. 2023"));
    assert_eq!(convert_time_checked("Mo 02. Foo. 2023", "10:00"), None);
    assert_eq!(
        convert_time_checked("Mo 02. Okt. 2023", "10:00").as_deref(),
        Some("2023-10-02T10:00:00")
    );
}

#[test]
fn timestamp_rendering_is_fixed_width() {
    let t = Timestamp { year: 2023, month: 10, day: 2, hour: 7, minute: 5, second: 9 };
    assert_eq!(format_timestamp(&t).as_str(), "2023-10-02T07:05:09");
    let t = Timestamp { year: 5, month: 1, day: 31, hour: 23, minute: 59, second: 0 };
    assert_eq!(format_timestamp(&t).as_str(), "0005-01-31T23:59:00");
}
