//! The plan phase: one pass over the walked tree classifies every file,
//! resolves its date, plans its destination, and groups byte-identical
//! files; the result is an ordered list of planned items plus counters.
//! Planning only decides: it never touches the output tree.
use vstd::prelude::*;

use crate::classify::{ext_avi, norm_ext_of, spec_classify, Kind};
use crate::hash::{fnv64, hex16};
use crate::paths::{file_name, file_name_of, stem, stem_of};
use crate::text::{dec2, dec4, push_char, push_dec2, push_dec4, str_le, str_le_exec, str_eq};
use crate::time::{
    best_datetime_for_dvd, best_datetime_for_file, evidence_wf, format_dt, spec_best_datetime,
    spec_format_dt, ts_wf, DateEvidence, DateSource, Timestamp,
};

verus! {

/// What the apply phase must do for one item.
#[derive(Debug, Clone, Copy, PartialEq, Eq, Structural)]
pub enum Action {
    Copy,
    ConvertVideo,
    ConvertDvd,
}

/// The kind of media one planned item stands for.
#[derive(Debug, Clone, Copy, PartialEq, Eq, Structural)]
pub enum MediaKind {
    Photo,
    Video,
    Dvd,
}

/// One planned unit of work: a photo or video file, or a whole DVD root.
/// Built once by the plan phase and never changed afterwards.
#[derive(Debug, Clone)]
pub struct PlannedItem {
    pub kind: MediaKind,
    pub action: Action,
    pub src: String,
    pub dst: String,
    pub best_dt: Option<String>,
    pub date_source: DateSource,
    pub size_bytes: Option<u64>,
    pub content_hash: Option<String>,
    pub duplicate_of: Option<String>,
}

/// Counters accumulated while planning.
#[derive(Debug, Clone, Copy, PartialEq, Eq, Structural)]
pub struct PlanSummary {
    pub planned: u64,
    pub photos: u64,
    pub videos: u64,
    pub dvds: u64,
    pub missing_date: u64,
    pub need_convert_video: u64,
    pub need_convert_dvd: u64,
    pub duplicate_photos: u64,
    pub duplicate_videos: u64,
}

impl PlanSummary {
    pub fn new() -> (r: Self)
        ensures
            r == (PlanSummary {
                planned: 0,
                photos: 0,
                videos: 0,
                dvds: 0,
                missing_date: 0,
                need_convert_video: 0,
                need_convert_dvd: 0,
                duplicate_photos: 0,
                duplicate_videos: 0,
            }),
    {
        PlanSummary {
            planned: 0,
            photos: 0,
            videos: 0,
            dvds: 0,
            missing_date: 0,
            need_convert_video: 0,
            need_convert_dvd: 0,
            duplicate_photos: 0,
            duplicate_videos: 0,
        }
    }
}

pub open spec fn photos_chars() -> Seq<char> {
    seq!['P', 'h', 'o', 't', 'o', 's']
}

pub open spec fn videos_chars() -> Seq<char> {
    seq!['V', 'i', 'd', 'e', 'o', 's']
}

pub open spec fn dvds_chars() -> Seq<char> {
    seq!['D', 'V', 'D', 's']
}

pub open spec fn unknown_date_chars() -> Seq<char> {
    seq!['U', 'n', 'k', 'n', 'o', 'w', 'n', 'D', 'a', 't', 'e']
}

/// The kind-specific top directory under the output root.
pub open spec fn kind_dir_chars(k: MediaKind) -> Seq<char> {
    match k {
        MediaKind::Photo => photos_chars(),
        MediaKind::Video => videos_chars(),
        MediaKind::Dvd => dvds_chars(),
    }
}

/// The date subpath: `YYYY/YYYY-MM/YYYY-MM-DD` when dated, or the single
/// `UnknownDate` quarantine folder when not.
pub open spec fn date_dir_chars(dt: Option<Timestamp>) -> Seq<char> {
    match dt {
        Option::Some(ts) => {
            let y = dec4(ts.year as int);
            let ym = y + seq!['-'] + dec2(ts.month as int);
            let ymd = ym + seq!['-'] + dec2(ts.day as int);
            y + seq!['/'] + ym + seq!['/'] + ymd
        },
        Option::None => unknown_date_chars(),
    }
}

pub open spec fn jpg_chars() -> Seq<char> {
    seq!['j', 'p', 'g']
}

pub open spec fn mp4_chars() -> Seq<char> {
    seq!['m', 'p', '4']
}

/// The destination extension: photos keep their own (lower-cased,
/// `jpg` when they have none); videos and DVDs always target `mp4`.
pub open spec fn dst_ext_chars(k: MediaKind, src: Seq<char>) -> Seq<char> {
    match k {
        MediaKind::Photo => match norm_ext_of(src) {
            Option::Some(e) => e,
            Option::None => jpg_chars(),
        },
        _ => mp4_chars(),
    }
}

pub open spec fn file_chars() -> Seq<char> {
    seq!['f', 'i', 'l', 'e']
}

pub open spec fn dvd_chars() -> Seq<char> {
    seq!['D', 'V', 'D']
}

/// The stem of the file name, with `file` standing in when the path has
/// no file name at all.
pub open spec fn spec_safe_stem(p: Seq<char>) -> Seq<char> {
    if file_name_of(p).len() == 0 {
        file_chars()
    } else {
        stem_of(p)
    }
}

/// The destination file name without extension: DVD items keep the DVD
/// root directory's own name (`DVD` when absent), files keep their stem.
pub open spec fn dst_name_chars(k: MediaKind, src: Seq<char>) -> Seq<char> {
    match k {
        MediaKind::Dvd => if file_name_of(src).len() == 0 {
            dvd_chars()
        } else {
            file_name_of(src)
        },
        _ => spec_safe_stem(src),
    }
}

/// The planned destination: a pure function of output root, kind, source
/// path and resolved date.
pub open spec fn spec_plan_dst(
    out_root: Seq<char>,
    k: MediaKind,
    src: Seq<char>,
    dt: Option<Timestamp>,
) -> Seq<char> {
    out_root + seq!['/'] + kind_dir_chars(k) + seq!['/'] + date_dir_chars(dt) + seq!['/']
        + dst_name_chars(k, src) + seq!['.'] + dst_ext_chars(k, src)
}

/// An item without a date is quarantined: its destination directory is the
/// single `UnknownDate` folder, never a partial date path.
pub proof fn lemma_plan_dst_unknown_date(out_root: Seq<char>, k: MediaKind, src: Seq<char>)
    ensures
        spec_plan_dst(out_root, k, src, Option::None) == out_root + seq!['/'] + kind_dir_chars(k)
            + seq!['/'] + unknown_date_chars() + seq!['/'] + dst_name_chars(k, src) + seq!['.']
            + dst_ext_chars(k, src),
{
}

/// The stem of the source file name, `file` when there is none.
pub fn safe_stem(p: &str) -> (r: String)
    ensures
        r@ == spec_safe_stem(p@),
{
    let f = file_name(p);
    if f.unicode_len() == 0 {
        proof {
            reveal_strlit("file");
            assert("file"@ =~= file_chars());
        }
        "file".to_owned()
    } else {
        stem(p).to_owned()
    }
}

/// The action for a classified video: `avi` must be re-encoded, every
/// other container is copied.
pub open spec fn spec_action_for_video(p: Seq<char>) -> Action {
    if norm_ext_of(p) == Option::Some(ext_avi()) {
        Action::ConvertVideo
    } else {
        Action::Copy
    }
}

pub fn action_for_video(p: &str) -> (r: Action)
    ensures
        r == spec_action_for_video(p@),
{
    if crate::classify::is_avi(p) {
        Action::ConvertVideo
    } else {
        Action::Copy
    }
}

fn push_date_dir(out: &mut String, dt: &Option<Timestamp>)
    requires
        dt is Some ==> ts_wf(dt.unwrap()),
    ensures
        final(out)@ == old(out)@ + date_dir_chars(*dt),
{
    match dt {
        Some(ts) => {
            push_dec4(out, ts.year);
            push_char(out, '/');
            push_dec4(out, ts.year);
            push_char(out, '-');
            push_dec2(out, ts.month);
            push_char(out, '/');
            push_dec4(out, ts.year);
            push_char(out, '-');
            push_dec2(out, ts.month);
            push_char(out, '-');
            push_dec2(out, ts.day);
            proof {
                assert(out@ =~= old(out)@ + date_dir_chars(*dt));
            }
        },
        None => {
            proof {
                reveal_strlit("UnknownDate");
                assert("UnknownDate"@ =~= unknown_date_chars());
            }
            out.append("UnknownDate");
        },
    }
}

/// Plans the destination path for an item: root, kind folder, date path
/// (or the `UnknownDate` quarantine), then name and target extension.
pub fn plan_dst(out_root: &str, kind: MediaKind, src: &str, best_dt: Option<Timestamp>) -> (r:
    String)
    requires
        best_dt is Some ==> ts_wf(best_dt.unwrap()),
    ensures
        r@ == spec_plan_dst(out_root@, kind, src@, best_dt),
{
    proof {
        reveal_strlit("Photos");
        reveal_strlit("Videos");
        reveal_strlit("DVDs");
        reveal_strlit("jpg");
        reveal_strlit("mp4");
        reveal_strlit("DVD");
        assert("Photos"@ =~= photos_chars());
        assert("Videos"@ =~= videos_chars());
        assert("DVDs"@ =~= dvds_chars());
        assert("jpg"@ =~= jpg_chars());
        assert("mp4"@ =~= mp4_chars());
        assert("DVD"@ =~= dvd_chars());
    }
    let mut out = String::new();
    out.append(out_root);
    push_char(&mut out, '/');
    match kind {
        MediaKind::Photo => out.append("Photos"),
        MediaKind::Video => out.append("Videos"),
        MediaKind::Dvd => out.append("DVDs"),
    }
    push_char(&mut out, '/');
    push_date_dir(&mut out, &best_dt);
    push_char(&mut out, '/');
    match kind {
        MediaKind::Dvd => {
            let f = file_name(src);
            if f.unicode_len() == 0 {
                out.append("DVD");
            } else {
                out.append(f);
            }
        },
        _ => {
            let s = safe_stem(src);
            out.append(s.as_str());
        },
    }
    push_char(&mut out, '.');
    match kind {
        MediaKind::Photo => {
            match crate::classify::normalize_extension(src) {
                Some(e) => out.append(e.as_str()),
                None => out.append("jpg"),
            }
        },
        _ => out.append("mp4"),
    }
    proof {
        assert(out@ =~= spec_plan_dst(out_root@, kind, src@, best_dt));
    }
    out
}

/// Everything the planner needs to know about one walked file: its path,
/// the date evidence gathered for it, and its full content (read once,
/// used for sizing and duplicate grouping).
pub struct FileRecord {
    pub path: String,
    pub evidence: DateEvidence,
    pub content: Vec<u8>,
}

/// One discovered DVD root and the modification time of its directory.
pub struct DvdRecord {
    pub root: String,
    pub mtime: Option<Timestamp>,
}

/// A record is planned when its extension classifies it as a photo or a
/// video; everything else never becomes an item of its own.
pub open spec fn eligible_rec(rec: FileRecord) -> bool {
    spec_classify(rec.path@) == Kind::Photo || spec_classify(rec.path@) == Kind::Video
}

/// The media kind of an eligible path.
pub open spec fn spec_media_kind(p: Seq<char>) -> MediaKind {
    if spec_classify(p) == Kind::Photo {
        MediaKind::Photo
    } else if spec_classify(p) == Kind::Video {
        MediaKind::Video
    } else {
        MediaKind::Dvd
    }
}

/// The action for an eligible file: photos are copied, videos follow the
/// avi rule.
pub open spec fn spec_action_for_file(p: Seq<char>) -> Action {
    if spec_classify(p) == Kind::Photo {
        Action::Copy
    } else {
        spec_action_for_video(p)
    }
}

/// The fields of a planned item that depend on its own record alone.
pub open spec fn item_core_ok(out_root: Seq<char>, rec: FileRecord, item: PlannedItem) -> bool {
    let bd = spec_best_datetime(rec.path@, rec.evidence);
    &&& item.kind == spec_media_kind(rec.path@)
    &&& item.action == spec_action_for_file(rec.path@)
    &&& item.src@ == rec.path@
    &&& item.dst@ == spec_plan_dst(out_root, spec_media_kind(rec.path@), rec.path@, bd.0)
    &&& (match (bd.0, item.best_dt) {
        (Option::Some(ts), Option::Some(s)) => s@ == spec_format_dt(ts),
        (Option::None, Option::None) => true,
        _ => false,
    })
    &&& item.date_source == bd.1
}

/// Strictly smaller in the lexicographic string order.
pub open spec fn str_lt(a: Seq<char>, b: Seq<char>) -> bool {
    str_le(a, b) && a != b
}

/// Records `j` and `k` hold byte-identical content (and so belong to one
/// duplicate group).
pub open spec fn in_group(elig: Seq<FileRecord>, k: int, j: int) -> bool {
    0 <= j < elig.len() && elig[j].content@ == elig[k].content@
}

/// `p` is the canonical path of `k`'s duplicate group: the
/// lexicographically smallest path among the records with `k`'s content.
pub open spec fn is_group_min(elig: Seq<FileRecord>, k: int, p: Seq<char>) -> bool {
    &&& exists|j: int| #[trigger] in_group(elig, k, j) && elig[j].path@ == p
    &&& forall|j: int| #[trigger] in_group(elig, k, j) ==> str_le(p, elig[j].path@)
}

/// The duplicate marking of item `k`: `None` exactly when `k`'s own path
/// is the canonical one, else the canonical path.
pub open spec fn dup_of_ok(elig: Seq<FileRecord>, k: int, dup: Option<String>) -> bool {
    exists|p: Seq<char>|
        #[trigger] is_group_min(elig, k, p) && (match dup {
            Option::None => p == elig[k].path@,
            Option::Some(d) => d@ == p && p != elig[k].path@,
        })
}

/// Record `k` is a marked duplicate: some record with the same content has
/// a strictly smaller path.
pub open spec fn is_dup_rec(elig: Seq<FileRecord>, k: int) -> bool {
    exists|j: int| #[trigger] in_group(elig, k, j) && str_lt(elig[j].path@, elig[k].path@)
}

/// The annotations added by duplicate detection: true size, content
/// digest, and the duplicate marking.
pub open spec fn item_annotations_ok(elig: Seq<FileRecord>, k: int, item: PlannedItem) -> bool {
    &&& item.size_bytes == Option::Some(elig[k].content@.len() as u64)
    &&& (match item.content_hash {
        Option::Some(h) => h@ == hex16(fnv64(elig[k].content@)),
        Option::None => false,
    })
    &&& dup_of_ok(elig, k, item.duplicate_of)
}

/// A duplicate group has exactly one canonical path.
pub proof fn lemma_canonical_unique(elig: Seq<FileRecord>, k: int, p: Seq<char>, q: Seq<char>)
    requires
        is_group_min(elig, k, p),
        is_group_min(elig, k, q),
    ensures
        p == q,
{
    let jp = choose|j: int| #[trigger] in_group(elig, k, j) && elig[j].path@ == p;
    let jq = choose|j: int| #[trigger] in_group(elig, k, j) && elig[j].path@ == q;
    assert(str_le(p, elig[jq].path@));
    assert(str_le(q, elig[jp].path@));
    crate::text::lemma_str_le_antisymmetric(p, q);
}

/// Duplicate grouping is symmetric and transitive: any two records with
/// identical content share one canonical path, whatever their order of
/// discovery.
pub proof fn lemma_same_content_same_canonical(
    elig: Seq<FileRecord>,
    i: int,
    j: int,
    p: Seq<char>,
)
    requires
        0 <= i < elig.len(),
        0 <= j < elig.len(),
        elig[i].content@ == elig[j].content@,
        is_group_min(elig, i, p),
    ensures
        is_group_min(elig, j, p),
{
    assert(forall|t: int| in_group(elig, i, t) == in_group(elig, j, t));
    let w = choose|t: int| #[trigger] in_group(elig, i, t) && elig[t].path@ == p;
    assert(in_group(elig, j, w) && elig[w].path@ == p);
}

/// Duplicate grouping is symmetric and transitive: two records with
/// identical bytes resolve to one canonical path, whatever their order of
/// discovery, and it is the lexicographically smallest path of the group.
pub proof fn lemma_duplicate_groups_agree(
    elig: Seq<FileRecord>,
    i: int,
    j: int,
    p: Seq<char>,
    q: Seq<char>,
)
    requires
        0 <= i < elig.len(),
        0 <= j < elig.len(),
        elig[i].content@ == elig[j].content@,
        is_group_min(elig, i, p),
        is_group_min(elig, j, q),
    ensures
        p == q,
{
    lemma_same_content_same_canonical(elig, i, j, p);
    lemma_canonical_unique(elig, j, p, q);
}

/// A marked item's canonical record is itself unmarked: the path under
/// `duplicate_of` always belongs to a record whose own marking is `None`.
pub proof fn lemma_canonical_is_unmarked(
    elig: Seq<FileRecord>,
    k: int,
    dup: Option<String>,
    w: int,
    dup_w: Option<String>,
)
    requires
        0 <= k < elig.len(),
        0 <= w < elig.len(),
        dup_of_ok(elig, k, dup),
        dup is Some,
        elig[w].path@ == dup.unwrap()@,
        elig[w].content@ == elig[k].content@,
        dup_of_ok(elig, w, dup_w),
    ensures
        dup_w is None,
{
    let p = choose|p: Seq<char>|
        #[trigger] is_group_min(elig, k, p) && (match dup {
            Option::None => p == elig[k].path@,
            Option::Some(d) => d@ == p && p != elig[k].path@,
        });
    let q = choose|q: Seq<char>|
        #[trigger] is_group_min(elig, w, q) && (match dup_w {
            Option::None => q == elig[w].path@,
            Option::Some(d) => d@ == q && q != elig[w].path@,
        });
    lemma_duplicate_groups_agree(elig, k, w, p, q);
    assert(q == elig[w].path@);
}

/// Canonical choice never depends on discovery order: however the same
/// records are arranged, items with identical content resolve to one
/// canonical path.
pub proof fn lemma_canonical_order_free(
    elig1: Seq<FileRecord>,
    elig2: Seq<FileRecord>,
    i: int,
    j: int,
    p: Seq<char>,
    q: Seq<char>,
)
    requires
        0 <= i < elig1.len(),
        0 <= j < elig2.len(),
        elig1.to_multiset() == elig2.to_multiset(),
        elig1[i].content@ == elig2[j].content@,
        is_group_min(elig1, i, p),
        is_group_min(elig2, j, q),
    ensures
        p == q,
{
    broadcast use vstd::seq_lib::group_to_multiset_ensures;

    // the record carrying p occurs in both arrangements, so it is in j's
    // group too and q <= p; symmetrically p <= q
    let w1 = choose|t: int| #[trigger] in_group(elig1, i, t) && elig1[t].path@ == p;
    assert(elig1.contains(elig1[w1]));
    assert(elig1.to_multiset().count(elig1[w1]) > 0);
    assert(elig2.contains(elig1[w1]));
    let w2 = choose|t: int| 0 <= t < elig2.len() && elig2[t] == elig1[w1];
    assert(in_group(elig2, j, w2));
    assert(str_le(q, p));
    let v2 = choose|t: int| #[trigger] in_group(elig2, j, t) && elig2[t].path@ == q;
    assert(elig2.contains(elig2[v2]));
    assert(elig2.to_multiset().count(elig2[v2]) > 0);
    assert(elig1.contains(elig2[v2]));
    let v1 = choose|t: int| 0 <= t < elig1.len() && elig1[t] == elig2[v2];
    assert(in_group(elig1, i, v1));
    assert(str_le(p, q));
    crate::text::lemma_str_le_antisymmetric(p, q);
}

/// Duplicate marking never depends on discovery order: in two plans over
/// the same records, however arranged, one record's marking comes out the
/// same. The attached size and digest are functions of the record's own
/// content, so they never depend on order at all.
pub proof fn lemma_duplicate_marking_order_free(
    elig1: Seq<FileRecord>,
    elig2: Seq<FileRecord>,
    i: int,
    j: int,
    dup1: Option<String>,
    dup2: Option<String>,
)
    requires
        0 <= i < elig1.len(),
        0 <= j < elig2.len(),
        elig1.to_multiset() == elig2.to_multiset(),
        elig1[i] == elig2[j],
        dup_of_ok(elig1, i, dup1),
        dup_of_ok(elig2, j, dup2),
    ensures
        (match (dup1, dup2) {
            (Option::None, Option::None) => true,
            (Option::Some(a), Option::Some(b)) => a@ == b@,
            _ => false,
        }),
{
    let p = choose|p: Seq<char>|
        #[trigger] is_group_min(elig1, i, p) && (match dup1 {
            Option::None => p == elig1[i].path@,
            Option::Some(d) => d@ == p && p != elig1[i].path@,
        });
    let q = choose|q: Seq<char>|
        #[trigger] is_group_min(elig2, j, q) && (match dup2 {
            Option::None => q == elig2[j].path@,
            Option::Some(d) => d@ == q && q != elig2[j].path@,
        });
    lemma_canonical_order_free(elig1, elig2, i, j, p, q);
}

/// Within one duplicate group the lexicographically smallest path is the
/// canonical one: the item holding it is unmarked, and every other
/// member's marking names exactly that path.
pub proof fn lemma_group_min_marking(
    elig: Seq<FileRecord>,
    i: int,
    k: int,
    p: Seq<char>,
    dup_k: Option<String>,
)
    requires
        0 <= i < elig.len(),
        0 <= k < elig.len(),
        elig[i].content@ == elig[k].content@,
        is_group_min(elig, i, p),
        dup_of_ok(elig, k, dup_k),
    ensures
        elig[k].path@ == p ==> dup_k is None,
        elig[k].path@ != p ==> (dup_k matches Option::Some(d) && d@ == p),
{
    let q = choose|q: Seq<char>|
        #[trigger] is_group_min(elig, k, q) && (match dup_k {
            Option::None => q == elig[k].path@,
            Option::Some(d) => d@ == q && q != elig[k].path@,
        });
    lemma_duplicate_groups_agree(elig, i, k, p, q);
}

/// Byte-string equality.
fn bytes_eq(a: &Vec<u8>, b: &Vec<u8>) -> (r: bool)
    ensures
        r == (a@ == b@),
{
    let n = a.len();
    if n != b.len() {
        return false;
    }
    let mut i: usize = 0;
    while i < n
        invariant
            n == a@.len(),
            n == b@.len(),
            i <= n,
            forall|k: int| 0 <= k < i ==> a@[k] == b@[k],
        decreases n - i,
    {
        if a[i] != b[i] {
            return false;
        }
        i = i + 1;
    }
    proof {
        assert(a@ =~= b@);
    }
    true
}

/// The records under `idx`, in order: the planner's eligible records.
pub open spec fn map_idx(records: Seq<FileRecord>, idx: Seq<usize>) -> Seq<FileRecord> {
    Seq::new(idx.len(), |t: int| records[idx[t] as int])
}

/// The canonical (lexicographically smallest) path of `k`'s duplicate
/// group among the indexed records.
fn group_min_path(records: &Vec<FileRecord>, idx: &Vec<usize>, k: usize) -> (r: String)
    requires
        k < idx@.len(),
        forall|t: int| 0 <= t < idx@.len() ==> (#[trigger] idx@[t]) < records@.len(),
    ensures
        is_group_min(map_idx(records@, idx@), k as int, r@),
{
    let ghost elig = map_idx(records@, idx@);
    let n = idx.len();
    let mut best: String = records[idx[k]].path.clone();
    proof {
        assert(in_group(elig, k as int, k as int));
        assert(elig[k as int].path@ == best@);
    }
    let mut j: usize = 0;
    while j < n
        invariant
            elig == map_idx(records@, idx@),
            n == idx@.len(),
            k < n,
            forall|t: int| 0 <= t < n ==> (#[trigger] idx@[t]) < records@.len(),
            j <= n,
            exists|t: int| #[trigger] in_group(elig, k as int, t) && elig[t].path@ == best@,
            forall|t: int|
                0 <= t < j && #[trigger] in_group(elig, k as int, t) ==> str_le(
                    best@,
                    elig[t].path@,
                ),
        decreases n - j,
    {
        let same = bytes_eq(&records[idx[j]].content, &records[idx[k]].content);
        proof {
            assert(elig[j as int] == records@[idx@[j as int] as int]);
            assert(elig[k as int] == records@[idx@[k as int] as int]);
        }
        if same {
            let ghost best_pre = best@;
            if str_le_exec(records[idx[j]].path.as_str(), best.as_str()) {
                best = records[idx[j]].path.clone();
                proof {
                    assert(in_group(elig, k as int, j as int));
                    assert forall|t: int|
                        0 <= t < j + 1 && #[trigger] in_group(elig, k as int, t) implies str_le(
                        best@,
                        elig[t].path@,
                    ) by {
                        if t < j {
                            crate::text::lemma_str_le_transitive(best@, best_pre, elig[t].path@);
                        } else {
                            crate::text::lemma_str_le_reflexive(best@);
                        }
                    }
                }
            } else {
                proof {
                    crate::text::lemma_str_le_total(elig[j as int].path@, best@);
                }
            }
        }
        j = j + 1;
    }
    best
}

fn clone_opt_string(o: &Option<String>) -> (r: Option<String>)
    ensures
        r == *o,
{
    match o {
        Some(s) => Some(s.clone()),
        None => None,
    }
}

/// The view-level fields of an item that duplicate marking must keep.
pub open spec fn same_core(a: PlannedItem, b: PlannedItem) -> bool {
    &&& b.kind == a.kind
    &&& b.action == a.action
    &&& b.src@ == a.src@
    &&& b.dst@ == a.dst@
    &&& (match (a.best_dt, b.best_dt) {
        (Option::Some(x), Option::Some(y)) => x@ == y@,
        (Option::None, Option::None) => true,
        _ => false,
    })
    &&& b.date_source == a.date_source
}

/// Marked duplicates among the first `upto` records, of one media kind.
pub open spec fn count_dup(elig: Seq<FileRecord>, upto: int, mk: MediaKind) -> int
    decreases upto,
{
    if upto <= 0 {
        0
    } else {
        count_dup(elig, upto - 1, mk) + if is_dup_rec(elig, upto - 1) && spec_media_kind(
            elig[upto - 1].path@,
        ) == mk {
            1int
        } else {
            0int
        }
    }
}

proof fn lemma_count_dup_bound(elig: Seq<FileRecord>, upto: int, mk: MediaKind)
    requires
        upto >= 0,
    ensures
        0 <= count_dup(elig, upto, mk) <= upto,
    decreases upto,
{
    if upto > 0 {
        lemma_count_dup_bound(elig, upto - 1, mk);
    }
}

/// Second pass of planning: groups byte-identical files, attaches size and
/// content digest to every eligible item, marks every item whose path is
/// not its group's canonical one, and counts the marked duplicates.
fn mark_input_duplicates(
    items: &mut Vec<PlannedItem>,
    records: &Vec<FileRecord>,
    idx: &Vec<usize>,
    summary: &mut PlanSummary,
)
    requires
        old(items)@.len() == idx@.len(),
        forall|t: int| 0 <= t < idx@.len() ==> (#[trigger] idx@[t]) < records@.len(),
        forall|t: int|
            0 <= t < idx@.len() ==> eligible_rec(#[trigger] map_idx(records@, idx@)[t]),
        forall|t: int|
            0 <= t < idx@.len() ==> (#[trigger] old(items)@[t]).kind == spec_media_kind(
                map_idx(records@, idx@)[t].path@,
            ) && old(items)@[t].src@ == map_idx(records@, idx@)[t].path@,
        old(summary).duplicate_photos + idx@.len() <= u64::MAX,
        old(summary).duplicate_videos + idx@.len() <= u64::MAX,
    ensures
        final(items)@.len() == old(items)@.len(),
        forall|t: int|
            0 <= t < idx@.len() ==> same_core(#[trigger] old(items)@[t], final(items)@[t])
                && item_annotations_ok(map_idx(records@, idx@), t, final(items)@[t]),
        final(summary).duplicate_photos == old(summary).duplicate_photos + count_dup(
            map_idx(records@, idx@),
            idx@.len() as int,
            MediaKind::Photo,
        ),
        final(summary).duplicate_videos == old(summary).duplicate_videos + count_dup(
            map_idx(records@, idx@),
            idx@.len() as int,
            MediaKind::Video,
        ),
        final(summary).planned == old(summary).planned,
        final(summary).photos == old(summary).photos,
        final(summary).videos == old(summary).videos,
        final(summary).dvds == old(summary).dvds,
        final(summary).missing_date == old(summary).missing_date,
        final(summary).need_convert_video == old(summary).need_convert_video,
        final(summary).need_convert_dvd == old(summary).need_convert_dvd,
{
    let ghost elig = map_idx(records@, idx@);
    let n = idx.len();
    let mut k: usize = 0;
    while k < n
        invariant
            elig == map_idx(records@, idx@),
            n == idx@.len(),
            items@.len() == n,
            k <= n,
            forall|t: int| 0 <= t < n ==> (#[trigger] idx@[t]) < records@.len(),
            forall|t: int| 0 <= t < n ==> eligible_rec(#[trigger] elig[t]),
            forall|t: int|
                0 <= t < n ==> (#[trigger] old(items)@[t]).kind == spec_media_kind(elig[t].path@)
                    && old(items)@[t].src@ == elig[t].path@,
            forall|t: int| k <= t < n ==> #[trigger] items@[t] == old(items)@[t],
            forall|t: int|
                0 <= t < k ==> same_core(#[trigger] old(items)@[t], items@[t])
                    && item_annotations_ok(elig, t, items@[t]),
            old(summary).duplicate_photos + n <= u64::MAX,
            old(summary).duplicate_videos + n <= u64::MAX,
            summary.duplicate_photos == old(summary).duplicate_photos + count_dup(
                elig,
                k as int,
                MediaKind::Photo,
            ),
            summary.duplicate_videos == old(summary).duplicate_videos + count_dup(
                elig,
                k as int,
                MediaKind::Video,
            ),
            summary.planned == old(summary).planned,
            summary.photos == old(summary).photos,
            summary.videos == old(summary).videos,
            summary.dvds == old(summary).dvds,
            summary.missing_date == old(summary).missing_date,
            summary.need_convert_video == old(summary).need_convert_video,
            summary.need_convert_dvd == old(summary).need_convert_dvd,
        decreases n - k,
    {
        proof {
            lemma_count_dup_bound(elig, k as int, MediaKind::Photo);
            lemma_count_dup_bound(elig, k as int, MediaKind::Video);
            assert(elig[k as int] == records@[idx@[k as int] as int]);
        }
        let size: u64 = records[idx[k]].content.len() as u64;
        let digest = crate::hash::u64_to_hex(crate::hash::fnv64_hash(&records[idx[k]].content));
        let best = group_min_path(records, idx, k);
        let is_self = str_eq(best.as_str(), items[k].src.as_str());
        proof {
            if !is_self {
                let w = choose|t: int|
                    #[trigger] in_group(elig, k as int, t) && elig[t].path@ == best@;
                assert(in_group(elig, k as int, k as int));
                assert(str_le(best@, elig[k as int].path@));
                assert(str_lt(elig[w].path@, elig[k as int].path@));
                assert(is_dup_rec(elig, k as int));
            } else {
                if is_dup_rec(elig, k as int) {
                    let w = choose|t: int|
                        #[trigger] in_group(elig, k as int, t) && str_lt(
                            elig[t].path@,
                            elig[k as int].path@,
                        );
                    assert(str_le(best@, elig[w].path@));
                    crate::text::lemma_str_le_antisymmetric(elig[k as int].path@, elig[w].path@);
                    assert(false);
                }
            }
        }
        let dup: Option<String> = if is_self {
            None
        } else {
            if items[k].kind == MediaKind::Photo {
                summary.duplicate_photos = summary.duplicate_photos + 1;
            } else {
                summary.duplicate_videos = summary.duplicate_videos + 1;
            }
            Some(best)
        };
        let updated = PlannedItem {
            kind: items[k].kind,
            action: items[k].action,
            src: items[k].src.clone(),
            dst: items[k].dst.clone(),
            best_dt: clone_opt_string(&items[k].best_dt),
            date_source: items[k].date_source,
            size_bytes: Some(size),
            content_hash: Some(digest),
            duplicate_of: dup,
        };
        items[k] = updated;
        k = k + 1;
    }
}

/// Plans one file: a photo or video record becomes an item with its date,
/// destination and action decided; any other kind yields nothing. The
/// duplicate annotations stay empty until the second pass.
pub fn plan_file_item(out_root: &str, rec: &FileRecord) -> (r: Option<PlannedItem>)
    requires
        evidence_wf(rec.evidence),
    ensures
        match r {
            Some(item) => eligible_rec(*rec) && item_core_ok(out_root@, *rec, item)
                && item.size_bytes is None && item.content_hash is None && item.duplicate_of
                is None,
            None => !eligible_rec(*rec),
        },
{
    let kind = crate::classify::classify(rec.path.as_str());
    let mk: MediaKind = match kind {
        Kind::Photo => MediaKind::Photo,
        Kind::Video => MediaKind::Video,
        _ => {
            return None;
        },
    };
    let action: Action = match kind {
        Kind::Photo => Action::Copy,
        _ => action_for_video(rec.path.as_str()),
    };
    let bd = best_datetime_for_file(rec.path.as_str(), &rec.evidence);
    let dst = plan_dst(out_root, mk, rec.path.as_str(), bd.0);
    let formatted: Option<String> = match &bd.0 {
        Some(ts) => Some(format_dt(ts)),
        None => None,
    };
    Some(
        PlannedItem {
            kind: mk,
            action,
            src: rec.path.clone(),
            dst,
            best_dt: formatted,
            date_source: bd.1,
            size_bytes: None,
            content_hash: None,
            duplicate_of: None,
        },
    )
}

/// Files of one kind among the first `upto` records.
pub open spec fn count_kind(recs: Seq<FileRecord>, upto: int, k: Kind) -> int
    decreases upto,
{
    if upto <= 0 {
        0
    } else {
        count_kind(recs, upto - 1, k) + if spec_classify(recs[upto - 1].path@) == k {
            1int
        } else {
            0int
        }
    }
}

/// Eligible files among the first `upto` records whose date resolution
/// came up empty.
pub open spec fn count_missing(recs: Seq<FileRecord>, upto: int) -> int
    decreases upto,
{
    if upto <= 0 {
        0
    } else {
        count_missing(recs, upto - 1) + if eligible_rec(recs[upto - 1]) && spec_best_datetime(
            recs[upto - 1].path@,
            recs[upto - 1].evidence,
        ).0 is None {
            1int
        } else {
            0int
        }
    }
}

/// Eligible files among the first `upto` records that need re-encoding.
pub open spec fn count_convert(recs: Seq<FileRecord>, upto: int) -> int
    decreases upto,
{
    if upto <= 0 {
        0
    } else {
        count_convert(recs, upto - 1) + if eligible_rec(recs[upto - 1]) && spec_action_for_file(
            recs[upto - 1].path@,
        ) == Action::ConvertVideo {
            1int
        } else {
            0int
        }
    }
}

/// DVD roots among the first `upto` whose directory has no modification
/// time.
pub open spec fn count_dvd_missing(ds: Seq<DvdRecord>, upto: int) -> int
    decreases upto,
{
    if upto <= 0 {
        0
    } else {
        count_dvd_missing(ds, upto - 1) + if ds[upto - 1].mtime is None {
            1int
        } else {
            0int
        }
    }
}

/// The expected fields of a planned DVD item.
pub open spec fn dvd_item_ok(out_root: Seq<char>, d: DvdRecord, item: PlannedItem) -> bool {
    &&& item.kind == MediaKind::Dvd
    &&& item.action == Action::ConvertDvd
    &&& item.src@ == d.root@
    &&& item.dst@ == spec_plan_dst(out_root, MediaKind::Dvd, d.root@, d.mtime)
    &&& (match (d.mtime, item.best_dt) {
        (Option::Some(ts), Option::Some(s)) => s@ == spec_format_dt(ts),
        (Option::None, Option::None) => true,
        _ => false,
    })
    &&& item.date_source == (if d.mtime is Some {
        DateSource::Mtime
    } else {
        DateSource::NoDate
    })
    &&& item.size_bytes is None
    &&& item.content_hash is None
    &&& item.duplicate_of is None
}

/// A DVD record's modification time is a real timestamp when present.
pub open spec fn dvd_record_wf(d: DvdRecord) -> bool {
    d.mtime is Some ==> ts_wf(d.mtime.unwrap())
}

/// Builds the whole plan: one item per eligible file record (in order),
/// duplicate annotations from byte-identical grouping, then one item per
/// DVD root (in order), along with all the counters. Planning only
/// decides; it performs no work.
pub fn build_plan(records: &Vec<FileRecord>, dvd_roots: &Vec<DvdRecord>, out_root: &str) -> (r: (
    Vec<PlannedItem>,
    PlanSummary,
))
    requires
        forall|i: int|
            0 <= i < records@.len() ==> evidence_wf((#[trigger] records@[i]).evidence),
        forall|i: int| 0 <= i < dvd_roots@.len() ==> dvd_record_wf(#[trigger] dvd_roots@[i]),
        records@.len() + dvd_roots@.len() <= u64::MAX,
    ensures
        ({
            let items = r.0;
            let summary = r.1;
            let elig = records@.filter(|rec: FileRecord| eligible_rec(rec));
            let n = elig.len();
            let m = dvd_roots@.len();
            &&& items@.len() == n + m
            &&& forall|k: int|
                0 <= k < n ==> item_core_ok(out_root@, elig[k], #[trigger] items@[k])
                    && item_annotations_ok(elig, k, items@[k])
            &&& forall|k: int|
                0 <= k < m ==> dvd_item_ok(out_root@, dvd_roots@[k], #[trigger] items@[n + k])
            &&& summary.planned == n + m
            &&& summary.photos == count_kind(records@, records@.len() as int, Kind::Photo)
            &&& summary.videos == count_kind(records@, records@.len() as int, Kind::Video)
            &&& summary.dvds == m
            &&& summary.missing_date == count_missing(records@, records@.len() as int)
                + count_dvd_missing(dvd_roots@, m as int)
            &&& summary.need_convert_video == count_convert(records@, records@.len() as int)
            &&& summary.need_convert_dvd == m
            &&& summary.duplicate_photos == count_dup(elig, n as int, MediaKind::Photo)
            &&& summary.duplicate_videos == count_dup(elig, n as int, MediaKind::Video)
        }),
{
    broadcast use vstd::seq_lib::group_filter_ensures;

    let ghost pred = |rec: FileRecord| eligible_rec(rec);
    let n_rec = records.len();
    let mut items: Vec<PlannedItem> = Vec::new();
    let mut idx: Vec<usize> = Vec::new();
    let mut summary = PlanSummary::new();
    proof {
        assert(records@.take(0).filter(pred) =~= Seq::<FileRecord>::empty());
        assert(map_idx(records@, idx@) =~= Seq::<FileRecord>::empty());
    }
    let mut i: usize = 0;
    while i < n_rec
        invariant
            pred == (|rec: FileRecord| eligible_rec(rec)),
            n_rec == records@.len(),
            records@.len() + dvd_roots@.len() <= u64::MAX,
            i <= n_rec,
            forall|t: int|
                0 <= t < records@.len() ==> evidence_wf((#[trigger] records@[t]).evidence),
            items@.len() == idx@.len(),
            items@.len() == records@.take(i as int).filter(pred).len(),
            forall|t: int| 0 <= t < idx@.len() ==> (#[trigger] idx@[t]) < i,
            map_idx(records@, idx@) == records@.take(i as int).filter(pred),
            forall|k: int|
                0 <= k < items@.len() ==> item_core_ok(
                    out_root@,
                    records@.take(i as int).filter(pred)[k],
                    #[trigger] items@[k],
                ) && items@[k].size_bytes is None && items@[k].content_hash is None
                    && items@[k].duplicate_of is None,
            summary.planned == items@.len(),
            summary.photos == count_kind(records@, i as int, Kind::Photo),
            summary.videos == count_kind(records@, i as int, Kind::Video),
            summary.photos <= i,
            summary.videos <= i,
            summary.missing_date == count_missing(records@, i as int),
            summary.missing_date <= i,
            summary.need_convert_video == count_convert(records@, i as int),
            summary.need_convert_video <= i,
            summary.dvds == 0,
            summary.need_convert_dvd == 0,
            summary.duplicate_photos == 0,
            summary.duplicate_videos == 0,
        decreases n_rec - i,
    {
        let ghost filtered_pre = records@.take(i as int).filter(pred);
        let ghost idx_pre = idx@;
        proof {
            assert(records@.take(i + 1).drop_last() =~= records@.take(i as int));
            assert(records@.take(i + 1).last() == records@[i as int]);
            reveal(Seq::filter);
        }
        match plan_file_item(out_root, &records[i]) {
            Some(item) => {
                if item.kind == MediaKind::Photo {
                    summary.photos = summary.photos + 1;
                } else {
                    summary.videos = summary.videos + 1;
                }
                if item.best_dt.is_none() {
                    summary.missing_date = summary.missing_date + 1;
                }
                if item.action == Action::ConvertVideo {
                    summary.need_convert_video = summary.need_convert_video + 1;
                }
                summary.planned = summary.planned + 1;
                items.push(item);
                idx.push(i);
                proof {
                    assert(records@.take(i + 1).filter(pred) =~= filtered_pre.push(
                        records@[i as int],
                    ));
                    assert(map_idx(records@, idx@) =~= filtered_pre.push(records@[i as int]));
                }
            },
            None => {
                proof {
                    assert(records@.take(i + 1).filter(pred) =~= filtered_pre);
                    assert(map_idx(records@, idx@) =~= filtered_pre);
                }
            },
        }
        i = i + 1;
    }
    proof {
        assert(records@.take(n_rec as int) =~= records@);
        records@.lemma_filter_len(pred);
    }
    let ghost items_pre = items@;
    mark_input_duplicates(&mut items, records, &idx, &mut summary);
    let ghost elig = records@.filter(pred);
    let ghost n = elig.len();
    proof {
        assert forall|k: int| 0 <= k < n implies item_core_ok(out_root@, elig[k], #[trigger] items@[k])
            && item_annotations_ok(elig, k, items@[k]) by {
            assert(map_idx(records@, idx@) == elig);
            assert(same_core(items_pre[k], items@[k]));
            assert(item_core_ok(out_root@, elig[k], items_pre[k]));
            assert(item_annotations_ok(elig, k, items@[k]));
        }
        lemma_count_dup_bound(elig, n as int, MediaKind::Photo);
        lemma_count_dup_bound(elig, n as int, MediaKind::Video);
    }
    let m = dvd_roots.len();
    let mut d: usize = 0;
    while d < m
        invariant
            elig == records@.filter(|rec: FileRecord| eligible_rec(rec)),
            n == elig.len(),
            m == dvd_roots@.len(),
            d <= m,
            n + m <= u64::MAX,
            records@.len() + dvd_roots@.len() <= u64::MAX,
            n <= records@.len(),
            forall|t: int| 0 <= t < dvd_roots@.len() ==> dvd_record_wf(#[trigger] dvd_roots@[t]),
            items@.len() == n + d,
            forall|k: int|
                0 <= k < n ==> item_core_ok(out_root@, elig[k], #[trigger] items@[k])
                    && item_annotations_ok(elig, k, items@[k]),
            forall|k: int|
                0 <= k < d ==> dvd_item_ok(out_root@, dvd_roots@[k], #[trigger] items@[n + k]),
            summary.planned == n + d,
            summary.photos == count_kind(records@, records@.len() as int, Kind::Photo),
            summary.videos == count_kind(records@, records@.len() as int, Kind::Video),
            summary.dvds == d,
            summary.missing_date == count_missing(records@, records@.len() as int)
                + count_dvd_missing(dvd_roots@, d as int),
            summary.missing_date <= records@.len() + d,
            summary.need_convert_video == count_convert(records@, records@.len() as int),
            summary.need_convert_dvd == d,
            summary.duplicate_photos == count_dup(elig, n as int, MediaKind::Photo),
            summary.duplicate_videos == count_dup(elig, n as int, MediaKind::Video),
        decreases m - d,
    {
        let dr = &dvd_roots[d];
        let bd = best_datetime_for_dvd(dr.mtime);
        let dst = plan_dst(out_root, MediaKind::Dvd, dr.root.as_str(), bd.0);
        let formatted: Option<String> = match &bd.0 {
            Some(ts) => Some(format_dt(ts)),
            None => None,
        };
        summary.dvds = summary.dvds + 1;
        if bd.0.is_none() {
            summary.missing_date = summary.missing_date + 1;
        }
        summary.need_convert_dvd = summary.need_convert_dvd + 1;
        summary.planned = summary.planned + 1;
        items.push(
            PlannedItem {
                kind: MediaKind::Dvd,
                action: Action::ConvertDvd,
                src: dr.root.clone(),
                dst,
                best_dt: formatted,
                date_source: bd.1,
                size_bytes: None,
                content_hash: None,
                duplicate_of: None,
            },
        );
        d = d + 1;
    }
    (items, summary)
}

/// One entry met while walking the input tree.
pub struct WalkEntry {
    pub path: String,
    pub is_dir: bool,
    pub is_file: bool,
}

/// A walked entry that is planned directly: a plain file, not inside a
/// `VIDEO_TS` directory, whose extension classifies it as photo or video.
pub open spec fn planned_file_entry(e: WalkEntry) -> bool {
    &&& !e.is_dir
    &&& e.is_file
    &&& !crate::dvd::inside_video_ts(e.path@)
    &&& (spec_classify(e.path@) == Kind::Photo || spec_classify(e.path@) == Kind::Video)
}

/// The paths of the directly planned files among the first `upto` walked
/// entries, in walk order.
pub open spec fn planned_paths(entries: Seq<WalkEntry>, upto: int) -> Seq<Seq<char>>
    decreases upto,
{
    if upto <= 0 {
        Seq::empty()
    } else {
        let prev = planned_paths(entries, upto - 1);
        if planned_file_entry(entries[upto - 1]) {
            prev.push(entries[upto - 1].path@)
        } else {
            prev
        }
    }
}

/// The DVD roots named by `VIDEO_TS` directories among the first `upto`
/// walked entries, each root once, in order of first discovery.
pub open spec fn dvd_roots_found(entries: Seq<WalkEntry>, upto: int) -> Seq<Seq<char>>
    decreases upto,
{
    if upto <= 0 {
        Seq::empty()
    } else {
        let prev = dvd_roots_found(entries, upto - 1);
        let e = entries[upto - 1];
        if e.is_dir && crate::dvd::spec_dvd_root(e.path@) is Some {
            if prev.contains(crate::dvd::spec_dvd_root(e.path@).unwrap()) {
                prev
            } else {
                prev.push(crate::dvd::spec_dvd_root(e.path@).unwrap())
            }
        } else {
            prev
        }
    }
}

/// Whether one of the strings has the given view.
fn contains_string(v: &Vec<String>, x: &str) -> (r: bool)
    ensures
        r == v.deep_view().contains(x@),
{
    let n = v.len();
    proof {
        assert(v.deep_view().len() == v@.len());
    }
    let mut i: usize = 0;
    while i < n
        invariant
            n == v@.len(),
            v.deep_view().len() == v@.len(),
            i <= n,
            forall|k: int| 0 <= k < i ==> v.deep_view()[k] != x@,
        decreases n - i,
    {
        if str_eq(v[i].as_str(), x) {
            proof {
                assert(v.deep_view()[i as int] == x@);
            }
            return true;
        }
        proof {
            assert(v.deep_view()[i as int] == v@[i as int]@);
        }
        i = i + 1;
    }
    proof {
        if v.deep_view().contains(x@) {
            let w = choose|k: int| 0 <= k < v.deep_view().len() && v.deep_view()[k] == x@;
            assert(v.deep_view()[w] != x@);
        }
    }
    false
}

/// One pass over the walked tree: decides which files are planned directly
/// and which directories are DVD roots. Files inside a `VIDEO_TS`
/// directory are never planned on their own; each DVD root is recorded
/// once, in order of first discovery.
pub fn collect_plan_sources(entries: &Vec<WalkEntry>) -> (r: (Vec<String>, Vec<String>))
    ensures
        r.0.deep_view() == planned_paths(entries@, entries@.len() as int),
        r.1.deep_view() == dvd_roots_found(entries@, entries@.len() as int),
{
    let n = entries.len();
    let mut files: Vec<String> = Vec::new();
    let mut roots: Vec<String> = Vec::new();
    proof {
        assert(files.deep_view() =~= planned_paths(entries@, 0));
        assert(roots.deep_view() =~= dvd_roots_found(entries@, 0));
    }
    let mut i: usize = 0;
    while i < n
        invariant
            n == entries@.len(),
            i <= n,
            files.deep_view() == planned_paths(entries@, i as int),
            roots.deep_view() == dvd_roots_found(entries@, i as int),
        decreases n - i,
    {
        let e = &entries[i];
        let ghost files_pre = files.deep_view();
        let ghost roots_pre = roots.deep_view();
        if e.is_dir {
            match crate::dvd::dvd_root_from_video_ts_dir(e.path.as_str()) {
                Some(root) => {
                    if !contains_string(&roots, root.as_str()) {
                        roots.push(root);
                        proof {
                            assert(roots.deep_view() =~= roots_pre.push(
                                crate::dvd::spec_dvd_root(e.path@).unwrap(),
                            ));
                        }
                    }
                },
                None => {},
            }
        } else if e.is_file {
            if !crate::dvd::is_inside_video_ts(e.path.as_str()) {
                let kind = crate::classify::classify(e.path.as_str());
                if kind == Kind::Photo || kind == Kind::Video {
                    files.push(e.path.clone());
                    proof {
                        assert(files.deep_view() =~= files_pre.push(e.path@));
                    }
                }
            }
        }
        i = i + 1;
    }
    (files, roots)
}

} // verus!
