//! The apply phase's decisions. Replaying a manifest touches the
//! filesystem, so the loop itself lives outside the library; everything it
//! decides — whether an item is skipped or run, how the counters move, and
//! the exact log lines — is decided here and verified.
use vstd::prelude::*;

use crate::plan::{Action, PlannedItem};
use crate::text::push_char;

verus! {

/// Counters accumulated while replaying a manifest.
#[derive(Debug, Clone, Copy, PartialEq, Eq, Structural)]
pub struct ApplySummary {
    pub total: u64,
    pub copied: u64,
    pub converted_video: u64,
    pub converted_dvd: u64,
    pub skipped_existing: u64,
    pub skipped_duplicate: u64,
    pub failed: u64,
}

impl ApplySummary {
    pub fn new() -> (r: Self)
        ensures
            r == (ApplySummary {
                total: 0,
                copied: 0,
                converted_video: 0,
                converted_dvd: 0,
                skipped_existing: 0,
                skipped_duplicate: 0,
                failed: 0,
            }),
    {
        ApplySummary {
            total: 0,
            copied: 0,
            converted_video: 0,
            converted_dvd: 0,
            skipped_existing: 0,
            skipped_duplicate: 0,
            failed: 0,
        }
    }
}

/// What the apply phase does with one item.
#[derive(Debug, Clone, Copy, PartialEq, Eq, Structural)]
pub enum ApplyStep {
    SkipDuplicate,
    SkipExisting,
    Run(Action),
}

/// The decision for one item: a marked duplicate is always skipped (and
/// the filesystem never touched for it); an existing destination is never
/// overwritten; otherwise the item's action runs.
pub open spec fn spec_decide_apply(item: PlannedItem, dst_exists: bool) -> ApplyStep {
    if item.duplicate_of is Some {
        ApplyStep::SkipDuplicate
    } else if dst_exists {
        ApplyStep::SkipExisting
    } else {
        ApplyStep::Run(item.action)
    }
}

/// Decides what to do with one item, given whether its destination
/// already exists.
pub fn decide_apply(item: &PlannedItem, dst_exists: bool) -> (r: ApplyStep)
    ensures
        r == spec_decide_apply(*item, dst_exists),
{
    if item.duplicate_of.is_some() {
        ApplyStep::SkipDuplicate
    } else if dst_exists {
        ApplyStep::SkipExisting
    } else {
        ApplyStep::Run(item.action)
    }
}

/// An item marked as a duplicate is never run, whatever the filesystem
/// looks like: it can never write a destination.
pub proof fn lemma_duplicate_never_runs(item: PlannedItem, dst_exists: bool)
    requires
        item.duplicate_of is Some,
    ensures
        spec_decide_apply(item, dst_exists) == ApplyStep::SkipDuplicate,
{
}

/// Apply is idempotent at the item level: once an item's destination
/// exists (as it does after a successful first run), a second run decides
/// to skip — it never copies or converts again.
pub proof fn lemma_apply_idempotent(item: PlannedItem)
    ensures
        spec_decide_apply(item, true) == (if item.duplicate_of is Some {
            ApplyStep::SkipDuplicate
        } else {
            ApplyStep::SkipExisting
        }),
        forall|a: Action| spec_decide_apply(item, true) != ApplyStep::Run(a),
{
}

/// How one item ended.
#[derive(Debug, Clone, Copy, PartialEq, Eq, Structural)]
pub enum ApplyOutcome {
    SkippedDuplicate,
    SkippedExisting,
    Succeeded(Action),
    Failed,
}

/// Records one item's outcome: the total always moves by one, and exactly
/// one outcome counter moves with it.
pub fn tally(summary: &mut ApplySummary, outcome: ApplyOutcome)
    requires
        old(summary).total < u64::MAX,
        old(summary).copied < u64::MAX,
        old(summary).converted_video < u64::MAX,
        old(summary).converted_dvd < u64::MAX,
        old(summary).skipped_existing < u64::MAX,
        old(summary).skipped_duplicate < u64::MAX,
        old(summary).failed < u64::MAX,
    ensures
        final(summary).total == old(summary).total + 1,
        final(summary).copied == old(summary).copied + (if outcome == ApplyOutcome::Succeeded(
            Action::Copy,
        ) {
            1int
        } else {
            0int
        }),
        final(summary).converted_video == old(summary).converted_video + (if outcome
            == ApplyOutcome::Succeeded(Action::ConvertVideo) {
            1int
        } else {
            0int
        }),
        final(summary).converted_dvd == old(summary).converted_dvd + (if outcome
            == ApplyOutcome::Succeeded(Action::ConvertDvd) {
            1int
        } else {
            0int
        }),
        final(summary).skipped_existing == old(summary).skipped_existing + (if outcome
            == ApplyOutcome::SkippedExisting {
            1int
        } else {
            0int
        }),
        final(summary).skipped_duplicate == old(summary).skipped_duplicate + (if outcome
            == ApplyOutcome::SkippedDuplicate {
            1int
        } else {
            0int
        }),
        final(summary).failed == old(summary).failed + (if outcome == ApplyOutcome::Failed {
            1int
        } else {
            0int
        }),
{
    summary.total = summary.total + 1;
    match outcome {
        ApplyOutcome::SkippedDuplicate => {
            summary.skipped_duplicate = summary.skipped_duplicate + 1;
        },
        ApplyOutcome::SkippedExisting => {
            summary.skipped_existing = summary.skipped_existing + 1;
        },
        ApplyOutcome::Succeeded(Action::Copy) => {
            summary.copied = summary.copied + 1;
        },
        ApplyOutcome::Succeeded(Action::ConvertVideo) => {
            summary.converted_video = summary.converted_video + 1;
        },
        ApplyOutcome::Succeeded(Action::ConvertDvd) => {
            summary.converted_dvd = summary.converted_dvd + 1;
        },
        ApplyOutcome::Failed => {
            summary.failed = summary.failed + 1;
        },
    }
}

pub open spec fn copy_chars() -> Seq<char> {
    seq!['C', 'o', 'p', 'y']
}

pub open spec fn convert_video_chars() -> Seq<char> {
    seq!['C', 'o', 'n', 'v', 'e', 'r', 't', 'V', 'i', 'd', 'e', 'o']
}

pub open spec fn convert_dvd_chars() -> Seq<char> {
    seq!['C', 'o', 'n', 'v', 'e', 'r', 't', 'D', 'v', 'd']
}

/// The name an action is logged under.
pub open spec fn action_name_chars(a: Action) -> Seq<char> {
    match a {
        Action::Copy => copy_chars(),
        Action::ConvertVideo => convert_video_chars(),
        Action::ConvertDvd => convert_dvd_chars(),
    }
}

/// The name an action is logged under.
pub fn action_name(a: Action) -> (r: String)
    ensures
        r@ == action_name_chars(a),
{
    proof {
        reveal_strlit("Copy");
        reveal_strlit("ConvertVideo");
        reveal_strlit("ConvertDvd");
        assert("Copy"@ =~= copy_chars());
        assert("ConvertVideo"@ =~= convert_video_chars());
        assert("ConvertDvd"@ =~= convert_dvd_chars());
    }
    match a {
        Action::Copy => "Copy".to_owned(),
        Action::ConvertVideo => "ConvertVideo".to_owned(),
        Action::ConvertDvd => "ConvertDvd".to_owned(),
    }
}

/// A success log line: `OK`, action, source, an arrow, destination,
/// tab-separated.
pub open spec fn ok_line_chars(a: Action, src: Seq<char>, dst: Seq<char>) -> Seq<char> {
    seq!['O', 'K', '\t'] + action_name_chars(a) + seq!['\t'] + src + seq!['\t', '-', '>', '\t']
        + dst
}

/// Renders the success log line for one item.
pub fn ok_log_line(a: Action, src: &str, dst: &str) -> (r: String)
    ensures
        r@ == ok_line_chars(a, src@, dst@),
{
    proof {
        reveal_strlit("OK\t");
        reveal_strlit("\t->\t");
        assert("OK\t"@ =~= seq!['O', 'K', '\t']);
        assert("\t->\t"@ =~= seq!['\t', '-', '>', '\t']);
    }
    let mut out = String::new();
    out.append("OK\t");
    let name = action_name(a);
    out.append(name.as_str());
    push_char(&mut out, '\t');
    out.append(src);
    out.append("\t->\t");
    out.append(dst);
    proof {
        assert(out@ =~= ok_line_chars(a, src@, dst@));
    }
    out
}

/// A failure log line: the success line's fields plus the error text in
/// brackets.
pub open spec fn fail_line_chars(a: Action, src: Seq<char>, dst: Seq<char>, err: Seq<char>)
    -> Seq<char> {
    seq!['F', 'A', 'I', 'L', '\t'] + action_name_chars(a) + seq!['\t'] + src + seq![
        '\t',
        '-',
        '>',
        '\t',
    ] + dst + seq!['\t', '['] + err + seq![']']
}

/// Renders the failure log line for one item.
pub fn fail_log_line(a: Action, src: &str, dst: &str, err: &str) -> (r: String)
    ensures
        r@ == fail_line_chars(a, src@, dst@, err@),
{
    proof {
        reveal_strlit("FAIL\t");
        reveal_strlit("\t->\t");
        reveal_strlit("\t[");
        assert("FAIL\t"@ =~= seq!['F', 'A', 'I', 'L', '\t']);
        assert("\t->\t"@ =~= seq!['\t', '-', '>', '\t']);
        assert("\t["@ =~= seq!['\t', '[']);
    }
    let mut out = String::new();
    out.append("FAIL\t");
    let name = action_name(a);
    out.append(name.as_str());
    push_char(&mut out, '\t');
    out.append(src);
    out.append("\t->\t");
    out.append(dst);
    out.append("\t[");
    out.append(err);
    push_char(&mut out, ']');
    proof {
        assert(out@ =~= fail_line_chars(a, src@, dst@, err@));
    }
    out
}

/// A skipped-duplicate log line: `SKIP_DUP`, the source, and the canonical
/// path it duplicates.
pub open spec fn dup_line_chars(src: Seq<char>, canonical: Seq<char>) -> Seq<char> {
    seq!['S', 'K', 'I', 'P', '_', 'D', 'U', 'P', '\t'] + src + seq![
        '\t',
        'd',
        'u',
        'p',
        '_',
        'o',
        'f',
        '=',
    ] + canonical
}

/// Renders the skipped-duplicate log line for one item.
pub fn dup_log_line(src: &str, canonical: &str) -> (r: String)
    ensures
        r@ == dup_line_chars(src@, canonical@),
{
    proof {
        reveal_strlit("SKIP_DUP\t");
        reveal_strlit("\tdup_of=");
        assert("SKIP_DUP\t"@ =~= seq!['S', 'K', 'I', 'P', '_', 'D', 'U', 'P', '\t']);
        assert("\tdup_of="@ =~= seq!['\t', 'd', 'u', 'p', '_', 'o', 'f', '=']);
    }
    let mut out = String::new();
    out.append("SKIP_DUP\t");
    out.append(src);
    out.append("\tdup_of=");
    out.append(canonical);
    proof {
        assert(out@ =~= dup_line_chars(src@, canonical@));
    }
    out
}

} // verus!
