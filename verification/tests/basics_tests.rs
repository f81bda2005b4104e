use chrono::{DateTime, Datelike, NaiveDate, Timelike};
use mimir::config::Settings;
use mimir::datetime::{DateTimeUtc, MAX_TIMESTAMP, MIN_TIMESTAMP};
use mimir::error::{AppError, DbFailure};
use mimir::mcc::{lookup_mcc, normalize, Group, Localized, MccEntry, MccTable};
use mimir::text::{format_i64, join_strings, str_eq, trim_str};

#[test]
fn unix_timestamp_in_range() {
    let d = DateTimeUtc::from_unix_timestamp(1_431_648_000).unwrap();
    assert_eq!(d, DateTimeUtc { secs: 1_431_648_000, nanos: 0 });
}

#[test]
fn unix_timestamp_out_of_range() {
    let e = DateTimeUtc::from_unix_timestamp(i64::MAX).unwrap_err();
    assert_eq!(e, format!("Invalid Unix timestamp: {}", i64::MAX));
    let e = DateTimeUtc::from_unix_timestamp(MIN_TIMESTAMP - 1).unwrap_err();
    assert_eq!(e, format!("Invalid Unix timestamp: {}", MIN_TIMESTAMP - 1));
}

#[test]
fn timestamp_bounds_are_chronos() {
    assert_eq!(
        (MIN_TIMESTAMP, MAX_TIMESTAMP),
        (chrono::DateTime::<chrono::Utc>::MIN_UTC.timestamp(), chrono::DateTime::<chrono::Utc>::MAX_UTC.timestamp())
    );
}

#[test]
fn timestamp_range_matches_chrono() {
    for ts in [MIN_TIMESTAMP - 1, MIN_TIMESTAMP, 0, MAX_TIMESTAMP, MAX_TIMESTAMP + 1] {
        let ours = DateTimeUtc::from_unix_timestamp(ts).is_ok();
        let theirs = chrono::DateTime::from_timestamp(ts, 0).is_some();
        assert_eq!(ours, theirs, "timestamp {}", ts);
    }
}

#[test]
fn text_in_rfc3339() {
    let d = DateTimeUtc::from_text("2026-02-25T10:00:00Z".to_string()).unwrap();
    assert_eq!(d, DateTimeUtc { secs: 1_772_013_600, nanos: 0 });
}

#[test]
fn text_with_offset() {
    let d = DateTimeUtc::from_text("2026-02-25 12:00:00 +0200".to_string()).unwrap();
    assert_eq!(d, DateTimeUtc { secs: 1_772_013_600, nanos: 0 });
}

#[test]
fn text_without_offset_is_utc() {
    let d = DateTimeUtc::from_text("2026-02-25 10:00:00".to_string()).unwrap();
    assert_eq!(d, DateTimeUtc { secs: 1_772_013_600, nanos: 0 });
}

#[test]
fn first_successful_reading_wins() {
    let d = DateTimeUtc::from_readings("t", None, Some((5, 0)), Some((7, 0))).unwrap();
    assert_eq!(d, DateTimeUtc { secs: 5, nanos: 0 });
    let d = DateTimeUtc::from_readings("t", Some((1, 2)), Some((5, 0)), None).unwrap();
    assert_eq!(d, DateTimeUtc { secs: 1, nanos: 2 });
    let d = DateTimeUtc::from_readings("t", None, None, Some((7, 0))).unwrap();
    assert_eq!(d, DateTimeUtc { secs: 7, nanos: 0 });
    let e = DateTimeUtc::from_readings("t", None, None, None).unwrap_err();
    assert!(e.starts_with("Invalid datetime 't':"));
}

#[test]
fn text_that_is_no_date() {
    let e = DateTimeUtc::from_text("yesterday".to_string()).unwrap_err();
    assert_eq!(
        e,
        "Invalid datetime 'yesterday': supported formats are RFC3339 (e.g. 2026-02-25T10:00:00Z), 'YYYY-MM-DD HH:MM:SS \u{b1}HHMM', or 'YYYY-MM-DD HH:MM:SS'"
    );
}

#[test]
fn ordering_of_instants() {
    let a = DateTimeUtc { secs: 5, nanos: 10 };
    let b = DateTimeUtc { secs: 5, nanos: 20 };
    assert!(a.is_before(&b));
    assert!(!b.is_before(&a));
    assert!(a.is_not_after(&a));
    assert_eq!(a.earliest(b), a);
    assert_eq!(a.latest(b), b);
}

#[test]
fn decimal_formatting() {
    assert_eq!(format_i64(0), "0");
    assert_eq!(format_i64(742), "742");
    assert_eq!(format_i64(-15), "-15");
    assert_eq!(format_i64(i64::MIN), i64::MIN.to_string());
    assert_eq!(format_i64(i64::MAX), i64::MAX.to_string());
}

#[test]
fn trimming_like_std() {
    for s in ["  a b  ", "\t\n5411\u{3000}", "", "   ", "x", "\u{a0}y\u{2009}"] {
        assert_eq!(trim_str(s), s.trim());
    }
}

#[test]
fn joining_and_comparing() {
    let parts = vec!["4441".to_string(), "1111".to_string()];
    assert_eq!(join_strings(&parts, ","), "4441,1111");
    assert_eq!(join_strings(&Vec::new(), ","), "");
    assert!(str_eq("tag", "tag"));
    assert!(!str_eq("tag", "tags"));
}

fn entry(code: &str, short_uk: Option<&str>) -> MccEntry {
    MccEntry {
        mcc: code.to_string(),
        group: Group {
            group_type: "FOOD".to_string(),
            description: Localized { uk: None, en: Some("Food".to_string()) },
        },
        full_description: Localized { uk: None, en: Some(format!("full {}", code)) },
        short_description: Localized { uk: short_uk.map(|s| s.to_string()), en: None },
    }
}

#[test]
fn normalize_pads_numeric_codes() {
    assert_eq!(normalize("742"), Some("0742".to_string()));
    assert_eq!(normalize("0742"), Some("0742".to_string()));
    assert_eq!(normalize(" 5411 "), Some("5411".to_string()));
    assert_eq!(normalize("7"), Some("0007".to_string()));
}

#[test]
fn normalize_rejects_empty_and_long_codes() {
    assert_eq!(normalize(""), None);
    assert_eq!(normalize("   "), None);
    assert_eq!(normalize("12345"), None);
}

#[test]
fn normalize_keeps_other_codes() {
    assert_eq!(normalize(" ab1 "), Some("ab1".to_string()));
    assert_eq!(normalize("-5"), Some("-5".to_string()));
}

#[test]
fn lookup_accepts_short_and_padded_codes() {
    let table = MccTable::new(vec![entry("0742", Some("Ветеринари")), entry("5411", None)]);
    assert_eq!(lookup_mcc(&table, "742").unwrap().mcc, "0742");
    assert_eq!(lookup_mcc(&table, "0742").unwrap().mcc, "0742");
    assert_eq!(lookup_mcc(&table, " 5411").unwrap().mcc, "5411");
    assert!(lookup_mcc(&table, "9999").is_none());
    assert!(lookup_mcc(&table, "").is_none());
}

#[test]
fn lookup_takes_the_last_row_of_a_code() {
    let table = MccTable::new(vec![entry("5411", Some("first")), entry("5411", Some("second"))]);
    let e = lookup_mcc(&table, "5411").unwrap();
    assert_eq!(e.short_description.uk.as_deref(), Some("second"));
}

#[test]
fn error_constructors() {
    match AppError::internal(std::fmt::Error) {
        AppError::Internal(m) => assert_eq!(m, "An internal server error occurred"),
        other => panic!("unexpected {:?}", other),
    }
    match AppError::not_found("no such".to_string()) {
        AppError::NotFound(m) => assert_eq!(m, "no such"),
        other => panic!("unexpected {:?}", other),
    }
    match AppError::bad_request("bad".to_string()) {
        AppError::BadRequest(m) => assert_eq!(m, "bad"),
        other => panic!("unexpected {:?}", other),
    }
    match AppError::from("plain".to_string()) {
        AppError::BadRequest(m) => assert_eq!(m, "plain"),
        other => panic!("unexpected {:?}", other),
    }
}

#[test]
fn database_failures() {
    match AppError::from_db(DbFailure::RowNotFound) {
        AppError::NotFound(m) => assert_eq!(m, "Resource not found"),
        other => panic!("unexpected {:?}", other),
    }
    match AppError::from_db(DbFailure::Other) {
        AppError::Internal(m) => assert_eq!(m, "A database error occurred"),
        other => panic!("unexpected {:?}", other),
    }
    match AppError::upstream() {
        AppError::Internal(m) => assert_eq!(m, "An upstream service error occurred"),
        other => panic!("unexpected {:?}", other),
    }
}

#[test]
fn error_bodies() {
    let b = AppError::BadRequest("x".to_string()).into_body();
    assert_eq!((b.status, b.error.as_str(), b.message.as_str()), (400, "Bad Request", "x"));
    let b = AppError::NotFound("y".to_string()).into_body();
    assert_eq!((b.status, b.error.as_str(), b.message.as_str()), (404, "Not Found", "y"));
    let b = AppError::Unprocessable("z".to_string()).into_body();
    assert_eq!((b.status, b.error.as_str(), b.message.as_str()), (422, "Unprocessable Entity", "z"));
    let b = AppError::Internal("w".to_string()).into_body();
    assert_eq!((b.status, b.error.as_str(), b.message.as_str()), (500, "Internal Server Error", "w"));
}

#[test]
fn settings_default_port() {
    assert_eq!(Settings::load(None).service.port, 42000);
    assert_eq!(Settings::load(Some(8080)).service.port, 8080);
}

#[test]
fn first_representable_day_is_chronos() {
    let first = DateTime::from_timestamp(MIN_TIMESTAMP, 0).unwrap();
    assert_eq!((first.year(), first.month(), first.day(), first.hour()), (-262143, 1, 1, 0));
    assert_eq!(NaiveDate::MIN, NaiveDate::from_ymd_opt(-262143, 1, 1).unwrap());
    assert_eq!(NaiveDate::MIN.and_hms_opt(0, 0, 0).unwrap().and_utc().timestamp(), MIN_TIMESTAMP);
    assert!(DateTime::from_timestamp(MIN_TIMESTAMP - 1, 0).is_none());
    assert!(DateTime::from_timestamp(MIN_TIMESTAMP - 86_400, 0).is_none());
    assert!(DateTimeUtc::from_unix_timestamp(MIN_TIMESTAMP).is_ok());
}

#[test]
fn texts_on_the_first_day_read_as_valid_instants() {
    let d = DateTimeUtc::from_text("-262143-01-01 00:00:00".to_string()).unwrap();
    assert_eq!(d, DateTimeUtc { secs: MIN_TIMESTAMP, nanos: 0 });
    let d = DateTimeUtc::from_text("-262143-01-01 00:00:00 +0000".to_string()).unwrap();
    assert_eq!(d, DateTimeUtc { secs: MIN_TIMESTAMP, nanos: 0 });
    // An offset that would put the instant before the first day is refused by chrono.
    assert!(DateTimeUtc::from_text("-262143-01-01 00:00:00 +0100".to_string()).is_err());
}
