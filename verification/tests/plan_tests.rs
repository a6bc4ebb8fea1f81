use mediaplan::apply::{decide_apply, tally, ApplyOutcome, ApplyStep, ApplySummary};
use mediaplan::plan::{
    action_for_video, build_plan, collect_plan_sources, plan_dst, plan_file_item, safe_stem,
    Action, DvdRecord, FileRecord, MediaKind, PlanSummary, WalkEntry,
};
use mediaplan::time::{DateEvidence, DateSource, Timestamp};

fn ts(year: u16, month: u8, day: u8, hour: u8, minute: u8, second: u8) -> Timestamp {
    Timestamp { year, month, day, hour, minute, second }
}

fn mtime_only(t: Timestamp) -> DateEvidence {
    DateEvidence {
        exif_datetime_original: None,
        exif_datetime: None,
        probe_creation_time: None,
        mtime: Some(t),
    }
}

fn record(path: &str, content: &[u8], ev: DateEvidence) -> FileRecord {
    FileRecord { path: path.to_string(), evidence: ev, content: content.to_vec() }
}

#[test]
fn summary_starts_at_zero() {
    let s = PlanSummary::new();
    assert_eq!(s.planned, 0);
    assert_eq!(s.photos, 0);
    assert_eq!(s.videos, 0);
    assert_eq!(s.dvds, 0);
    assert_eq!(s.missing_date, 0);
    assert_eq!(s.need_convert_video, 0);
    assert_eq!(s.need_convert_dvd, 0);
    assert_eq!(s.duplicate_photos, 0);
    assert_eq!(s.duplicate_videos, 0);
}

#[test]
fn destination_is_deterministic_and_dated() {
    let d = Some(ts(2020, 5, 1, 10, 0, 0));
    let a = plan_dst("out", MediaKind::Photo, "in/x.PNG", d);
    let b = plan_dst("out", MediaKind::Photo, "in/x.PNG", d);
    assert_eq!(a, "out/Photos/2020/2020-05/2020-05-01/x.png");
    assert_eq!(a, b);
}

#[test]
fn destination_without_date_is_quarantined() {
    assert_eq!(
        plan_dst("out", MediaKind::Photo, "in/x.jpg", None),
        "out/Photos/UnknownDate/x.jpg"
    );
    assert_eq!(
        plan_dst("out", MediaKind::Video, "in/v.avi", None),
        "out/Videos/UnknownDate/v.mp4"
    );
    assert_eq!(plan_dst("out", MediaKind::Dvd, "in/MOVIE", None), "out/DVDs/UnknownDate/MOVIE.mp4");
}

#[test]
fn destination_video_and_dvd_always_target_mp4() {
    let d = Some(ts(1999, 12, 31, 0, 0, 0));
    assert_eq!(
        plan_dst("out", MediaKind::Video, "in/v.mov", d),
        "out/Videos/1999/1999-12/1999-12-31/v.mp4"
    );
    assert_eq!(
        plan_dst("out", MediaKind::Dvd, "rips/HOLIDAY", d),
        "out/DVDs/1999/1999-12/1999-12-31/HOLIDAY.mp4"
    );
}

#[test]
fn destination_photo_without_extension_gets_jpg() {
    assert_eq!(plan_dst("out", MediaKind::Photo, "in/photo", None), "out/Photos/UnknownDate/photo.jpg");
}

#[test]
fn safe_stem_falls_back() {
    assert_eq!(safe_stem("a/b/c.txt"), "c");
    assert_eq!(safe_stem("a/b/"), "file");
    assert_eq!(safe_stem("noext"), "noext");
}

#[test]
fn avi_videos_need_conversion() {
    assert_eq!(action_for_video("v.avi"), Action::ConvertVideo);
    assert_eq!(action_for_video("v.AVI"), Action::ConvertVideo);
    assert_eq!(action_for_video("v.mp4"), Action::Copy);
    assert_eq!(action_for_video("v.mov"), Action::Copy);
}

#[test]
fn avi_with_mtime_plans_conversion_with_mtime_source() {
    let rec = record("in/clip.avi", b"bytes", mtime_only(ts(2021, 3, 4, 5, 6, 7)));
    let item = plan_file_item("out", &rec).expect("avi is planned");
    assert_eq!(item.kind, MediaKind::Video);
    assert_eq!(item.action, Action::ConvertVideo);
    assert_eq!(item.date_source, DateSource::Mtime);
    assert_eq!(item.best_dt, Some("2021-03-04 05:06:07".to_string()));
    assert_eq!(item.dst, "out/Videos/2021/2021-03/2021-03-04/clip.mp4");
    assert!(item.dst.ends_with(".mp4"));
}

#[test]
fn ineligible_records_are_not_planned() {
    let rec = record("in/readme.txt", b"x", mtime_only(ts(2021, 1, 1, 0, 0, 0)));
    assert!(plan_file_item("out", &rec).is_none());
    let vob = record("in/loose.vob", b"x", mtime_only(ts(2021, 1, 1, 0, 0, 0)));
    assert!(plan_file_item("out", &vob).is_none());
}

#[test]
fn identical_photos_are_grouped_under_smallest_path() {
    let date = ts(2020, 5, 1, 9, 30, 0);
    let records = vec![
        record("in/b.jpg", b"X", mtime_only(date)),
        record("in/a.jpg", b"X", mtime_only(date)),
        record("in/c.jpg", b"Y", mtime_only(date)),
    ];
    let (items, summary) = build_plan(&records, &Vec::new(), "out");
    assert_eq!(items.len(), 3);
    assert_eq!(summary.planned, 3);
    assert_eq!(summary.photos, 3);
    assert_eq!(summary.duplicate_photos, 1);
    assert_eq!(summary.duplicate_videos, 0);
    assert_eq!(summary.missing_date, 0);

    // discovery order differs from path order: the canonical member is
    // still the lexicographically smallest path
    assert_eq!(items[0].src, "in/b.jpg");
    assert_eq!(items[0].duplicate_of, Some("in/a.jpg".to_string()));
    assert_eq!(items[1].src, "in/a.jpg");
    assert_eq!(items[1].duplicate_of, None);
    assert_eq!(items[2].src, "in/c.jpg");
    assert_eq!(items[2].duplicate_of, None);

    // identical bytes carry identical digests; different bytes differ
    assert_eq!(items[0].content_hash, items[1].content_hash);
    assert_ne!(items[0].content_hash, items[2].content_hash);
    assert_eq!(items[0].size_bytes, Some(1));

    // both routes land under the same dated photo directory
    assert_eq!(items[0].dst, "out/Photos/2020/2020-05/2020-05-01/b.jpg");
    assert_eq!(items[1].dst, "out/Photos/2020/2020-05/2020-05-01/a.jpg");
    assert_eq!(items[2].dst, "out/Photos/2020/2020-05/2020-05-01/c.jpg");
}

#[test]
fn two_identical_photos_copy_once_apply_side() {
    let date = ts(2020, 5, 1, 9, 30, 0);
    let records = vec![
        record("in/a.jpg", b"X", mtime_only(date)),
        record("in/b.jpg", b"X", mtime_only(date)),
        record("in/c.jpg", b"Y", mtime_only(date)),
    ];
    let (items, _) = build_plan(&records, &Vec::new(), "out");
    let mut summary = ApplySummary::new();
    for item in items.iter() {
        match decide_apply(item, false) {
            ApplyStep::SkipDuplicate => tally(&mut summary, ApplyOutcome::SkippedDuplicate),
            ApplyStep::SkipExisting => tally(&mut summary, ApplyOutcome::SkippedExisting),
            ApplyStep::Run(a) => tally(&mut summary, ApplyOutcome::Succeeded(a)),
        }
    }
    assert_eq!(summary.total, 3);
    assert_eq!(summary.copied, 2);
    assert_eq!(summary.skipped_duplicate, 1);
    assert_eq!(summary.skipped_existing, 0);
    assert_eq!(summary.failed, 0);
}

#[test]
fn dvd_tree_plans_one_item_and_no_loose_vobs() {
    let entries = vec![
        WalkEntry { path: "MOVIE".to_string(), is_dir: true, is_file: false },
        WalkEntry { path: "MOVIE/VIDEO_TS".to_string(), is_dir: true, is_file: false },
        WalkEntry { path: "MOVIE/VIDEO_TS/VTS_01_1.VOB".to_string(), is_dir: false, is_file: true },
        WalkEntry { path: "MOVIE/VIDEO_TS/VTS_01_2.VOB".to_string(), is_dir: false, is_file: true },
        WalkEntry { path: "MOVIE/VIDEO_TS/VIDEO_TS.IFO".to_string(), is_dir: false, is_file: true },
    ];
    let (files, roots) = collect_plan_sources(&entries);
    assert_eq!(files.len(), 0);
    assert_eq!(roots, vec!["MOVIE".to_string()]);

    let dvds = vec![DvdRecord { root: "MOVIE".to_string(), mtime: None }];
    let (items, summary) = build_plan(&Vec::new(), &dvds, "out");
    assert_eq!(items.len(), 1);
    assert_eq!(items[0].kind, MediaKind::Dvd);
    assert_eq!(items[0].action, Action::ConvertDvd);
    assert_eq!(items[0].src, "MOVIE");
    assert_eq!(items[0].dst, "out/DVDs/UnknownDate/MOVIE.mp4");
    assert_eq!(items[0].date_source, DateSource::NoDate);
    assert_eq!(items[0].duplicate_of, None);
    assert_eq!(summary.dvds, 1);
    assert_eq!(summary.need_convert_dvd, 1);
    assert_eq!(summary.missing_date, 1);
    assert_eq!(summary.planned, 1);
}

#[test]
fn walk_collects_files_outside_video_ts_and_dedups_roots() {
    let entries = vec![
        WalkEntry { path: "in".to_string(), is_dir: true, is_file: false },
        WalkEntry { path: "in/a.jpg".to_string(), is_dir: false, is_file: true },
        WalkEntry { path: "in/notes.txt".to_string(), is_dir: false, is_file: true },
        WalkEntry { path: "in/MOVIE/VIDEO_TS".to_string(), is_dir: true, is_file: false },
        WalkEntry { path: "in/MOVIE/VIDEO_TS".to_string(), is_dir: true, is_file: false },
        WalkEntry { path: "in/MOVIE/VIDEO_TS/VTS_01_1.VOB".to_string(), is_dir: false, is_file: true },
        WalkEntry { path: "in/link.mp4".to_string(), is_dir: false, is_file: false },
        WalkEntry { path: "in/v.mp4".to_string(), is_dir: false, is_file: true },
    ];
    let (files, roots) = collect_plan_sources(&entries);
    assert_eq!(files, vec!["in/a.jpg".to_string(), "in/v.mp4".to_string()]);
    assert_eq!(roots, vec!["in/MOVIE".to_string()]);
}

#[test]
fn plan_counts_missing_dates_and_conversions() {
    let no_ev = DateEvidence {
        exif_datetime_original: None,
        exif_datetime: None,
        probe_creation_time: None,
        mtime: None,
    };
    let records = vec![
        record("in/p.jpg", b"1", no_ev),
        record("in/v.avi", b"2", mtime_only(ts(2022, 1, 1, 0, 0, 0))),
        record("in/w.mp4", b"3", mtime_only(ts(2022, 1, 1, 0, 0, 0))),
    ];
    let (items, summary) = build_plan(&records, &Vec::new(), "out");
    assert_eq!(items.len(), 3);
    assert_eq!(summary.photos, 1);
    assert_eq!(summary.videos, 2);
    assert_eq!(summary.missing_date, 1);
    assert_eq!(summary.need_convert_video, 1);
    assert_eq!(items[0].dst, "out/Photos/UnknownDate/p.jpg");
    assert_eq!(items[0].best_dt, None);
    assert_eq!(items[0].date_source, DateSource::NoDate);
}

#[test]
fn full_plan_orders_files_before_dvds() {
    let photo = FileRecord {
        path: "in/holiday.JPG".to_string(),
        evidence: DateEvidence {
            exif_datetime_original: Some("2018:07:08 09:10:11".to_string()),
            exif_datetime: Some("2019:01:01 00:00:00".to_string()),
            probe_creation_time: None,
            mtime: Some(ts(2022, 1, 1, 0, 0, 0)),
        },
        content: b"photo-bytes".to_vec(),
    };
    let video = FileRecord {
        path: "in/trip.mov".to_string(),
        evidence: DateEvidence {
            exif_datetime_original: None,
            exif_datetime: None,
            probe_creation_time: Some("2017-06-05T04:03:02Z".to_string()),
            mtime: Some(ts(2022, 1, 1, 0, 0, 0)),
        },
        content: b"video-bytes".to_vec(),
    };
    let records = vec![photo, video];
    let dvds = vec![DvdRecord { root: "in/WEDDING".to_string(), mtime: Some(ts(2005, 9, 10, 11, 12, 13)) }];
    let (items, summary) = build_plan(&records, &dvds, "out");

    assert_eq!(items.len(), 3);
    assert_eq!(items[0].kind, MediaKind::Photo);
    assert_eq!(items[0].date_source, DateSource::Exif);
    assert_eq!(items[0].best_dt, Some("2018-07-08 09:10:11".to_string()));
    assert_eq!(items[0].dst, "out/Photos/2018/2018-07/2018-07-08/holiday.jpg");
    assert_eq!(items[0].action, Action::Copy);
    assert_eq!(items[0].size_bytes, Some(11));
    assert_eq!(items[0].duplicate_of, None);

    assert_eq!(items[1].kind, MediaKind::Video);
    assert_eq!(items[1].date_source, DateSource::Ffprobe);
    assert_eq!(items[1].best_dt, Some("2017-06-05 04:03:02".to_string()));
    assert_eq!(items[1].dst, "out/Videos/2017/2017-06/2017-06-05/trip.mp4");
    assert_eq!(items[1].action, Action::Copy);

    assert_eq!(items[2].kind, MediaKind::Dvd);
    assert_eq!(items[2].date_source, DateSource::Mtime);
    assert_eq!(items[2].best_dt, Some("2005-09-10 11:12:13".to_string()));
    assert_eq!(items[2].dst, "out/DVDs/2005/2005-09/2005-09-10/WEDDING.mp4");
    assert_eq!(items[2].action, Action::ConvertDvd);
    assert_eq!(items[2].size_bytes, None);
    assert_eq!(items[2].content_hash, None);

    assert_eq!(summary.planned, 3);
    assert_eq!(summary.photos, 1);
    assert_eq!(summary.videos, 1);
    assert_eq!(summary.dvds, 1);
    assert_eq!(summary.missing_date, 0);
    assert_eq!(summary.need_convert_video, 0);
    assert_eq!(summary.need_convert_dvd, 1);
}

#[test]
fn duplicate_marking_ignores_discovery_order() {
    let date = ts(2020, 5, 1, 9, 30, 0);
    let forward = vec![
        record("in/a.jpg", b"X", mtime_only(date)),
        record("in/b.jpg", b"X", mtime_only(date)),
        record("in/c.mp4", b"Z", mtime_only(date)),
        record("in/d.mp4", b"Z", mtime_only(date)),
    ];
    let backward = vec![
        record("in/d.mp4", b"Z", mtime_only(date)),
        record("in/c.mp4", b"Z", mtime_only(date)),
        record("in/b.jpg", b"X", mtime_only(date)),
        record("in/a.jpg", b"X", mtime_only(date)),
    ];
    let (items_f, summary_f) = build_plan(&forward, &Vec::new(), "out");
    let (items_b, summary_b) = build_plan(&backward, &Vec::new(), "out");
    for a in items_f.iter() {
        let b = items_b.iter().find(|b| b.src == a.src).expect("same items");
        assert_eq!(a.duplicate_of, b.duplicate_of);
        assert_eq!(a.content_hash, b.content_hash);
        assert_eq!(a.size_bytes, b.size_bytes);
    }
    assert_eq!(summary_f.duplicate_photos, summary_b.duplicate_photos);
    assert_eq!(summary_f.duplicate_videos, summary_b.duplicate_videos);
    assert_eq!(summary_f.duplicate_photos, 1);
    assert_eq!(summary_f.duplicate_videos, 1);
}

#[test]
fn content_digest_is_fnv1a_hex() {
    assert_eq!(mediaplan::hash::fnv64_hash(&Vec::new()), 0xcbf29ce484222325);
    assert_eq!(mediaplan::hash::fnv64_hash(&vec![b'a']), 0xaf63dc4c8601ec8c);
    assert_eq!(mediaplan::hash::u64_to_hex(0), "0000000000000000");
    assert_eq!(mediaplan::hash::u64_to_hex(0xdeadbeef), "00000000deadbeef");
    assert_eq!(mediaplan::hash::u64_to_hex(0x123456789abcdef0), "123456789abcdef0");

    let records = vec![record(
        "in/e.jpg",
        b"",
        DateEvidence {
            exif_datetime_original: None,
            exif_datetime: None,
            probe_creation_time: None,
            mtime: None,
        },
    )];
    let (items, _) = build_plan(&records, &Vec::new(), "out");
    assert_eq!(items[0].content_hash, Some("cbf29ce484222325".to_string()));
    assert_eq!(items[0].size_bytes, Some(0));
}
