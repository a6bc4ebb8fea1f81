use mediaplan::time::{
    best_datetime_for_dvd, best_datetime_for_file, format_dt, parse_exif_datetime, trim,
    DateEvidence, DateSource, Timestamp,
};
use mediaplan::video_meta::video_best_datetime;

fn ts(year: u16, month: u8, day: u8, hour: u8, minute: u8, second: u8) -> Timestamp {
    Timestamp { year, month, day, hour, minute, second }
}

fn no_evidence() -> DateEvidence {
    DateEvidence {
        exif_datetime_original: None,
        exif_datetime: None,
        probe_creation_time: None,
        mtime: None,
    }
}

#[test]
fn format_is_zero_padded() {
    assert_eq!(format_dt(&ts(987, 1, 2, 3, 4, 5)), "0987-01-02 03:04:05");
    assert_eq!(format_dt(&ts(2020, 12, 31, 23, 59, 59)), "2020-12-31 23:59:59");
}

#[test]
fn trim_strips_ascii_whitespace() {
    assert_eq!(trim("  x y \t\r\n"), "x y");
    assert_eq!(trim("xy"), "xy");
    assert_eq!(trim(" \t "), "");
    assert_eq!(trim(""), "");
}

#[test]
fn exif_datetime_parses_the_fixed_pattern() {
    assert_eq!(parse_exif_datetime("2019:12:31 23:59:59"), Some(ts(2019, 12, 31, 23, 59, 59)));
    assert_eq!(parse_exif_datetime("  2019:01:02 03:04:05  "), Some(ts(2019, 1, 2, 3, 4, 5)));
}

#[test]
fn exif_datetime_rejects_bad_fields() {
    assert_eq!(parse_exif_datetime("2019:13:01 00:00:00"), None);
    assert_eq!(parse_exif_datetime("2019:00:01 00:00:00"), None);
    assert_eq!(parse_exif_datetime("2019:02:29 10:00:00"), None);
    assert_eq!(parse_exif_datetime("2019:12:31 24:00:00"), None);
    assert_eq!(parse_exif_datetime("2019-12-31 23:59:59"), None);
    assert_eq!(parse_exif_datetime("not a date"), None);
    assert_eq!(parse_exif_datetime(""), None);
}

#[test]
fn exif_datetime_accepts_leap_day() {
    assert_eq!(parse_exif_datetime("2020:02:29 10:00:00"), Some(ts(2020, 2, 29, 10, 0, 0)));
    assert_eq!(parse_exif_datetime("2000:02:29 10:00:00"), Some(ts(2000, 2, 29, 10, 0, 0)));
    assert_eq!(parse_exif_datetime("1900:02:29 10:00:00"), None);
}

#[test]
fn photo_prefers_capture_tag_then_date_tag() {
    let ev = DateEvidence {
        exif_datetime_original: Some("2011:01:01 01:01:01".to_string()),
        exif_datetime: Some("2012:02:02 02:02:02".to_string()),
        probe_creation_time: None,
        mtime: Some(ts(2013, 3, 3, 3, 3, 3)),
    };
    let r = best_datetime_for_file("p.jpg", &ev);
    assert_eq!(r.0, Some(ts(2011, 1, 1, 1, 1, 1)));
    assert_eq!(r.1, DateSource::Exif);

    let ev2 = DateEvidence { exif_datetime_original: Some("garbage".to_string()), ..ev };
    let r2 = best_datetime_for_file("p.jpg", &ev2);
    assert_eq!(r2.0, Some(ts(2012, 2, 2, 2, 2, 2)));
    assert_eq!(r2.1, DateSource::Exif);
}

#[test]
fn png_never_uses_embedded_metadata() {
    let ev = DateEvidence {
        exif_datetime_original: Some("2011:01:01 01:01:01".to_string()),
        exif_datetime: None,
        probe_creation_time: None,
        mtime: Some(ts(2013, 3, 3, 3, 3, 3)),
    };
    let r = best_datetime_for_file("p.png", &ev);
    assert_eq!(r.0, Some(ts(2013, 3, 3, 3, 3, 3)));
    assert_eq!(r.1, DateSource::Mtime);
}

#[test]
fn photo_falls_back_to_mtime_then_none() {
    let ev = DateEvidence { mtime: Some(ts(2013, 3, 3, 3, 3, 3)), ..no_evidence() };
    let r = best_datetime_for_file("p.jpg", &ev);
    assert_eq!(r.0, Some(ts(2013, 3, 3, 3, 3, 3)));
    assert_eq!(r.1, DateSource::Mtime);

    let r2 = best_datetime_for_file("p.jpg", &no_evidence());
    assert_eq!(r2.0, None);
    assert_eq!(r2.1, DateSource::NoDate);
}

#[test]
fn video_uses_probe_tag_as_local_wall_time() {
    let ev = DateEvidence {
        probe_creation_time: Some("2001-02-03T04:05:06+01:00".to_string()),
        mtime: Some(ts(2013, 3, 3, 3, 3, 3)),
        ..no_evidence()
    };
    let r = best_datetime_for_file("v.mp4", &ev);
    assert_eq!(r.0, Some(ts(2001, 2, 3, 4, 5, 6)));
    assert_eq!(r.1, DateSource::Ffprobe);
}

#[test]
fn video_with_bad_probe_tag_uses_mtime() {
    let ev = DateEvidence {
        probe_creation_time: Some("yesterday".to_string()),
        mtime: Some(ts(2013, 3, 3, 3, 3, 3)),
        ..no_evidence()
    };
    let r = best_datetime_for_file("v.mp4", &ev);
    assert_eq!(r.0, Some(ts(2013, 3, 3, 3, 3, 3)));
    assert_eq!(r.1, DateSource::Mtime);
}

#[test]
fn unclassified_paths_get_no_date() {
    let ev = DateEvidence { mtime: Some(ts(2013, 3, 3, 3, 3, 3)), ..no_evidence() };
    let r = best_datetime_for_file("x.txt", &ev);
    assert_eq!(r.0, None);
    assert_eq!(r.1, DateSource::NoDate);
}

#[test]
fn dvd_date_is_mtime_only() {
    let r = best_datetime_for_dvd(Some(ts(2010, 6, 7, 8, 9, 10)));
    assert_eq!(r.0, Some(ts(2010, 6, 7, 8, 9, 10)));
    assert_eq!(r.1, DateSource::Mtime);
    let r2 = best_datetime_for_dvd(None);
    assert_eq!(r2.0, None);
    assert_eq!(r2.1, DateSource::NoDate);
}

#[test]
fn video_best_datetime_prefers_parsed_tag() {
    assert_eq!(
        video_best_datetime(Some("1996-12-19T16:39:57-08:00"), Some(ts(2000, 1, 1, 0, 0, 0))),
        Some(ts(1996, 12, 19, 16, 39, 57))
    );
    assert_eq!(
        video_best_datetime(Some("junk"), Some(ts(2000, 1, 1, 0, 0, 0))),
        Some(ts(2000, 1, 1, 0, 0, 0))
    );
    assert_eq!(video_best_datetime(None, None), None);
}

#[test]
fn creation_time_tag_reads_probe_json() {
    let json = b"{\"format\":{\"tags\":{\"creation_time\":\"2020-01-02T03:04:05Z\"}}}";
    assert_eq!(
        mediaplan::video_meta::creation_time_tag(json),
        Some("2020-01-02T03:04:05Z".to_string())
    );
    assert_eq!(mediaplan::video_meta::creation_time_tag(b"{\"format\":{}}"), None);
    assert_eq!(mediaplan::video_meta::creation_time_tag(b"not json"), None);
    assert_eq!(
        mediaplan::video_meta::creation_time_tag(b"{\"format\":{\"tags\":{\"creation_time\":7}}}"),
        None
    );
}
