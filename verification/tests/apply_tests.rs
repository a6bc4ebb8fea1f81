use mediaplan::apply::{
    action_name, decide_apply, dup_log_line, fail_log_line, ok_log_line, tally, ApplyOutcome,
    ApplyStep, ApplySummary,
};
use mediaplan::plan::{Action, MediaKind, PlannedItem};
use mediaplan::time::DateSource;

fn item(action: Action, duplicate_of: Option<&str>) -> PlannedItem {
    PlannedItem {
        kind: MediaKind::Photo,
        action,
        src: "in/a.jpg".to_string(),
        dst: "out/Photos/UnknownDate/a.jpg".to_string(),
        best_dt: None,
        date_source: DateSource::NoDate,
        size_bytes: Some(3),
        content_hash: None,
        duplicate_of: duplicate_of.map(|s| s.to_string()),
    }
}

#[test]
fn apply_summary_starts_at_zero() {
    let s = ApplySummary::new();
    assert_eq!(s.total, 0);
    assert_eq!(s.copied, 0);
    assert_eq!(s.converted_video, 0);
    assert_eq!(s.converted_dvd, 0);
    assert_eq!(s.skipped_existing, 0);
    assert_eq!(s.skipped_duplicate, 0);
    assert_eq!(s.failed, 0);
}

#[test]
fn duplicates_are_always_skipped() {
    let it = item(Action::Copy, Some("in/canon.jpg"));
    assert_eq!(decide_apply(&it, false), ApplyStep::SkipDuplicate);
    assert_eq!(decide_apply(&it, true), ApplyStep::SkipDuplicate);
}

#[test]
fn existing_destinations_are_never_overwritten() {
    let it = item(Action::Copy, None);
    assert_eq!(decide_apply(&it, true), ApplyStep::SkipExisting);
    let conv = item(Action::ConvertVideo, None);
    assert_eq!(decide_apply(&conv, true), ApplyStep::SkipExisting);
}

#[test]
fn fresh_items_run_their_action() {
    assert_eq!(decide_apply(&item(Action::Copy, None), false), ApplyStep::Run(Action::Copy));
    assert_eq!(
        decide_apply(&item(Action::ConvertVideo, None), false),
        ApplyStep::Run(Action::ConvertVideo)
    );
    assert_eq!(
        decide_apply(&item(Action::ConvertDvd, None), false),
        ApplyStep::Run(Action::ConvertDvd)
    );
}

#[test]
fn second_run_only_skips() {
    // a manifest replayed after a successful run sees every destination
    // in place: no decision may write again
    let items = [
        item(Action::Copy, None),
        item(Action::ConvertVideo, None),
        item(Action::ConvertDvd, None),
        item(Action::Copy, Some("in/canon.jpg")),
    ];
    let mut summary = ApplySummary::new();
    for it in items.iter() {
        match decide_apply(it, true) {
            ApplyStep::SkipDuplicate => tally(&mut summary, ApplyOutcome::SkippedDuplicate),
            ApplyStep::SkipExisting => tally(&mut summary, ApplyOutcome::SkippedExisting),
            ApplyStep::Run(a) => tally(&mut summary, ApplyOutcome::Succeeded(a)),
        }
    }
    assert_eq!(summary.total, 4);
    assert_eq!(summary.copied, 0);
    assert_eq!(summary.converted_video, 0);
    assert_eq!(summary.converted_dvd, 0);
    assert_eq!(summary.skipped_existing, 3);
    assert_eq!(summary.skipped_duplicate, 1);
}

#[test]
fn tally_moves_exactly_one_counter() {
    let mut s = ApplySummary::new();
    tally(&mut s, ApplyOutcome::Succeeded(Action::Copy));
    tally(&mut s, ApplyOutcome::Succeeded(Action::ConvertVideo));
    tally(&mut s, ApplyOutcome::Succeeded(Action::ConvertDvd));
    tally(&mut s, ApplyOutcome::SkippedExisting);
    tally(&mut s, ApplyOutcome::SkippedDuplicate);
    tally(&mut s, ApplyOutcome::Failed);
    assert_eq!(s.total, 6);
    assert_eq!(s.copied, 1);
    assert_eq!(s.converted_video, 1);
    assert_eq!(s.converted_dvd, 1);
    assert_eq!(s.skipped_existing, 1);
    assert_eq!(s.skipped_duplicate, 1);
    assert_eq!(s.failed, 1);
}

#[test]
fn action_names_match_the_log_format() {
    assert_eq!(action_name(Action::Copy), "Copy");
    assert_eq!(action_name(Action::ConvertVideo), "ConvertVideo");
    assert_eq!(action_name(Action::ConvertDvd), "ConvertDvd");
}

#[test]
fn log_lines_are_exact() {
    assert_eq!(ok_log_line(Action::Copy, "in/a.jpg", "out/a.jpg"), "OK\tCopy\tin/a.jpg\t->\tout/a.jpg");
    assert_eq!(
        fail_log_line(Action::ConvertVideo, "in/v.avi", "out/v.mp4", "boom"),
        "FAIL\tConvertVideo\tin/v.avi\t->\tout/v.mp4\t[boom]"
    );
    assert_eq!(
        dup_log_line("in/b.jpg", "in/a.jpg"),
        "SKIP_DUP\tin/b.jpg\tdup_of=in/a.jpg"
    );
}
