use tola::utils::rss::{DateError, DateTimeUtc, Guid, PostMeta, RssItem};
use tola::utils::typst::TypstElement;

#[test]
fn test_datetime_utc_new() {
    let dt = DateTimeUtc::new(2024, 6, 15, 14, 30, 45);
    assert_eq!(dt.year, 2024);
    assert_eq!(dt.month, 6);
    assert_eq!(dt.day, 15);
    assert_eq!(dt.hour, 14);
    assert_eq!(dt.minute, 30);
    assert_eq!(dt.second, 45);
}

#[test]
fn test_datetime_utc_from_ymd() {
    let dt = DateTimeUtc::from_ymd(2024, 12, 25);
    assert_eq!(dt.year, 2024);
    assert_eq!(dt.month, 12);
    assert_eq!(dt.day, 25);
    assert_eq!(dt.hour, 0);
    assert_eq!(dt.minute, 0);
    assert_eq!(dt.second, 0);
}

#[test]
fn test_datetime_utc_validate_valid() {
    assert!(DateTimeUtc::new(2024, 6, 15, 14, 30, 45).validate().is_ok());
    assert!(DateTimeUtc::new(2024, 1, 1, 0, 0, 0).validate().is_ok());
    assert!(DateTimeUtc::new(2024, 12, 31, 23, 59, 59).validate().is_ok());
}

#[test]
fn test_datetime_utc_validate_invalid_month() {
    assert!(DateTimeUtc::new(2024, 0, 15, 12, 0, 0).validate().is_err());
    assert!(DateTimeUtc::new(2024, 13, 15, 12, 0, 0).validate().is_err());
}

#[test]
fn test_datetime_utc_validate_invalid_day() {
    assert!(DateTimeUtc::new(2024, 6, 0, 12, 0, 0).validate().is_err());
    assert!(DateTimeUtc::new(2024, 1, 32, 12, 0, 0).validate().is_err());
    assert!(DateTimeUtc::new(2024, 4, 31, 12, 0, 0).validate().is_err());
    assert!(DateTimeUtc::new(2024, 2, 30, 12, 0, 0).validate().is_err());
    assert!(DateTimeUtc::new(2023, 2, 29, 12, 0, 0).validate().is_err());
}

#[test]
fn test_datetime_utc_validate_leap_year() {
    assert!(DateTimeUtc::new(2024, 2, 29, 12, 0, 0).validate().is_ok());
    assert!(DateTimeUtc::new(2000, 2, 29, 12, 0, 0).validate().is_ok());
    assert!(DateTimeUtc::new(2023, 2, 29, 12, 0, 0).validate().is_err());
    assert!(DateTimeUtc::new(1900, 2, 29, 12, 0, 0).validate().is_err());
}

#[test]
fn test_datetime_utc_validate_invalid_hour() {
    assert!(DateTimeUtc::new(2024, 6, 15, 24, 0, 0).validate().is_err());
}

#[test]
fn test_datetime_utc_validate_invalid_minute() {
    assert!(DateTimeUtc::new(2024, 6, 15, 12, 60, 0).validate().is_err());
}

#[test]
fn test_datetime_utc_validate_invalid_second() {
    assert!(DateTimeUtc::new(2024, 6, 15, 12, 30, 60).validate().is_err());
}

#[test]
fn test_datetime_utc_to_rfc2822() {
    let dt = DateTimeUtc::new(2024, 1, 15, 10, 30, 45);
    let rfc2822 = dt.to_rfc2822();
    assert!(rfc2822.contains("15"));
    assert!(rfc2822.contains("Jan"));
    assert!(rfc2822.contains("2024"));
    assert!(rfc2822.contains("10:30:45"));
    assert!(rfc2822.contains("GMT"));
}

#[test]
fn test_datetime_utc_to_rfc2822_format() {
    let dt = DateTimeUtc::new(2024, 6, 15, 14, 30, 45);
    let rfc2822 = dt.to_rfc2822();
    let parts: Vec<&str> = rfc2822.split(' ').collect();
    assert_eq!(parts.len(), 6);
    assert!(parts[0].ends_with(','));
    assert_eq!(parts[5], "GMT");
}

#[test]
fn test_datetime_utc_all_months() {
    let months = [
        (1, "Jan"),
        (2, "Feb"),
        (3, "Mar"),
        (4, "Apr"),
        (5, "May"),
        (6, "Jun"),
        (7, "Jul"),
        (8, "Aug"),
        (9, "Sep"),
        (10, "Oct"),
        (11, "Nov"),
        (12, "Dec"),
    ];
    for (month_num, month_name) in months {
        let dt = DateTimeUtc::new(2024, month_num, 15, 12, 0, 0);
        assert!(dt.validate().is_ok());
        let rfc2822 = dt.to_rfc2822();
        assert!(rfc2822.contains(month_name), "Month {} should contain {}", month_num, month_name);
    }
}

#[test]
fn rfc2822_exact_value() {
    assert_eq!(DateTimeUtc::new(2024, 6, 15, 14, 30, 45).to_rfc2822(), "Sat, 15 Jun 2024 14:30:45 GMT");
    assert_eq!(DateTimeUtc::new(2000, 1, 1, 0, 0, 0).to_rfc2822(), "Sat, 01 Jan 2000 00:00:00 GMT");
}

// A parsed date is valid, and a formatted valid date keeps its fields.
#[test]
fn parse_gives_valid_dates() {
    for s in ["2024-06-15", "2024-02-29T12:30:00", "2023-02-29", "2024-13-01", "garbage"] {
        if let Some(d) = DateTimeUtc::parse(s) {
            assert!(d.validate().is_ok(), "{s}");
        }
    }
    let d = DateTimeUtc::parse("2024-06-15").unwrap();
    assert_eq!((d.year, d.month, d.day), (2024, 6, 15));
    assert!(DateTimeUtc::parse("2023-02-29").is_none());
}

#[test]
fn typst_element_to_html() {
    let e = TypstElement::Sequence {
        children: vec![
            TypstElement::Text { text: "a<b".to_string() },
            TypstElement::Space,
            TypstElement::Link {
                dest: "./post".to_string(),
                body: Box::new(TypstElement::Strike { text: "x".to_string() }),
            },
            TypstElement::Linebreak,
            TypstElement::Unknown,
        ],
    };
    assert_eq!(
        e.to_html("https://example.com/"),
        "a&lt;b <a href=\"https://example.com/post\"><s>x</s></a><br/>"
    );
}

fn post(title: Option<&str>, link: Option<&str>, date: Option<&str>) -> PostMeta {
    PostMeta {
        title: title.map(String::from),
        summary: Some("<p>Hi</p>".to_string()),
        date: date.map(String::from),
        update: None,
        link: link.map(String::from),
        author: Some("a@b.c (A)".to_string()),
    }
}

#[test]
fn post_becomes_feed_item() {
    let item = post(Some("Hello"), Some("https://x.org/hello/"), Some("2024-01-15")).into_rss_item().unwrap();
    assert_eq!(
        item,
        RssItem {
            title: Some("Hello".to_string()),
            link: Some("https://x.org/hello/".to_string()),
            guid: Some(Guid { value: "https://x.org/hello/".to_string(), permalink: true }),
            description: Some("<p>Hi</p>".to_string()),
            pub_date: Some("Mon, 15 Jan 2024 00:00:00 GMT".to_string()),
            author: Some("a@b.c (A)".to_string()),
        }
    );
}

#[test]
fn post_without_title_link_or_date_is_left_out() {
    assert!(post(None, Some("https://x.org/"), Some("2024-01-15")).into_rss_item().is_none());
    assert!(post(Some("T"), None, Some("2024-01-15")).into_rss_item().is_none());
    assert!(post(Some("T"), Some("https://x.org/"), None).into_rss_item().is_none());
    assert!(post(Some("T"), Some("https://x.org/"), Some("2024-02-30")).into_rss_item().is_none());
}

#[test]
fn date_errors_name_the_field_and_value() {
    let err = DateTimeUtc::new(2024, 13, 15, 12, 0, 0).validate().unwrap_err();
    assert_eq!(err, DateError::Month(13));
    assert_eq!(err.message(), "month is invalid: 13");
    assert_eq!(DateError::Second(60).message(), "second is invalid: 60");
    assert_eq!(DateError::Day(0).message(), "day is invalid: 0");
}
