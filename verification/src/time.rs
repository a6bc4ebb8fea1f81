//! Date and time handling. A capture date is modelled as a plain
//! calendar timestamp; resolution tries embedded photo metadata, then the
//! video container's creation tag, then the filesystem modification time,
//! and records which source supplied the value.
use vstd::prelude::*;

use crate::classify::{ext_jpeg, ext_jpg, norm_ext_of, spec_classify, Kind};
use crate::text::{dec2, dec4, push_char, push_dec2, push_dec4};
use chrono::{Datelike, Timelike};

verus! {

/// A calendar date and wall-clock time, seconds precision, no zone.
#[derive(Debug, Clone, Copy, PartialEq, Eq, Structural)]
pub struct Timestamp {
    pub year: u16,
    pub month: u8,
    pub day: u8,
    pub hour: u8,
    pub minute: u8,
    pub second: u8,
}

/// Which fallback tier supplied a resolved date; never conflated.
#[derive(Debug, Clone, Copy, PartialEq, Eq, Structural)]
pub enum DateSource {
    Exif,
    Ffprobe,
    Mtime,
    NoDate,
}

pub open spec fn is_leap_year(y: int) -> bool {
    y % 4 == 0 && (y % 100 != 0 || y % 400 == 0)
}

pub open spec fn days_in_month(y: int, m: int) -> int {
    if m == 2 {
        if is_leap_year(y) {
            29
        } else {
            28
        }
    } else if m == 4 || m == 6 || m == 9 || m == 11 {
        30
    } else {
        31
    }
}

/// A well-formed timestamp: a real calendar date with a four-digit year
/// and in-range time fields.
pub open spec fn ts_wf(ts: Timestamp) -> bool {
    &&& ts.year <= 9999
    &&& 1 <= ts.month <= 12
    &&& 1 <= ts.day <= days_in_month(ts.year as int, ts.month as int)
    &&& ts.hour <= 23
    &&& ts.minute <= 59
    &&& ts.second <= 59
}

fn is_leap_year_exec(y: u16) -> (r: bool)
    ensures
        r == is_leap_year(y as int),
{
    y % 4 == 0 && (y % 100 != 0 || y % 400 == 0)
}

fn days_in_month_exec(y: u16, m: u8) -> (r: u8)
    ensures
        r as int == days_in_month(y as int, m as int),
{
    if m == 2 {
        if is_leap_year_exec(y) {
            29
        } else {
            28
        }
    } else if m == 4 || m == 6 || m == 9 || m == 11 {
        30
    } else {
        31
    }
}

pub fn timestamp_wf(ts: &Timestamp) -> (r: bool)
    ensures
        r == ts_wf(*ts),
{
    ts.year <= 9999 && 1 <= ts.month && ts.month <= 12 && 1 <= ts.day && ts.day
        <= days_in_month_exec(ts.year, ts.month) && ts.hour <= 23 && ts.minute <= 59 && ts.second
        <= 59
}

/// `YYYY-MM-DD HH:MM:SS`, fields zero-padded.
pub open spec fn spec_format_dt(ts: Timestamp) -> Seq<char> {
    dec4(ts.year as int) + seq!['-'] + dec2(ts.month as int) + seq!['-'] + dec2(ts.day as int)
        + seq![' '] + dec2(ts.hour as int) + seq![':'] + dec2(ts.minute as int) + seq![':'] + dec2(
        ts.second as int,
    )
}

/// Formats a timestamp as `YYYY-MM-DD HH:MM:SS`.
pub fn format_dt(ts: &Timestamp) -> (r: String)
    requires
        ts_wf(*ts),
    ensures
        r@ == spec_format_dt(*ts),
{
    let mut s = String::new();
    push_dec4(&mut s, ts.year);
    push_char(&mut s, '-');
    push_dec2(&mut s, ts.month);
    push_char(&mut s, '-');
    push_dec2(&mut s, ts.day);
    push_char(&mut s, ' ');
    push_dec2(&mut s, ts.hour);
    push_char(&mut s, ':');
    push_dec2(&mut s, ts.minute);
    push_char(&mut s, ':');
    push_dec2(&mut s, ts.second);
    proof {
        assert(s@ =~= spec_format_dt(*ts));
    }
    s
}

/// ASCII whitespace, the characters trimmed from metadata values.
pub open spec fn is_ws(c: char) -> bool {
    c == ' ' || c == '\t' || c == '\n' || c == '\r' || c == '\u{b}' || c == '\u{c}'
}

pub open spec fn trim_front(s: Seq<char>) -> Seq<char>
    decreases s.len(),
{
    if s.len() > 0 && is_ws(s[0]) {
        trim_front(s.drop_first())
    } else {
        s
    }
}

pub open spec fn trim_back(s: Seq<char>) -> Seq<char>
    decreases s.len(),
{
    if s.len() > 0 && is_ws(s.last()) {
        trim_back(s.drop_last())
    } else {
        s
    }
}

/// The string with ASCII whitespace removed from both ends.
pub open spec fn trim_ws(s: Seq<char>) -> Seq<char> {
    trim_back(trim_front(s))
}

proof fn lemma_trim_front(s: Seq<char>, k: int)
    requires
        0 <= k <= s.len(),
        forall|i: int| 0 <= i < k ==> is_ws(#[trigger] s[i]),
        k == s.len() || !is_ws(s[k]),
    ensures
        trim_front(s) == s.skip(k),
    decreases k,
{
    if k == 0 {
        assert(s.skip(0) =~= s);
    } else {
        assert(is_ws(s[0]));
        let t = s.drop_first();
        assert(forall|i: int| 0 <= i < k - 1 ==> is_ws(#[trigger] t[i]));
        lemma_trim_front(t, k - 1);
        assert(t.skip(k - 1) =~= s.skip(k));
    }
}

proof fn lemma_trim_back(s: Seq<char>, k: int)
    requires
        0 <= k <= s.len(),
        forall|i: int| k <= i < s.len() ==> is_ws(#[trigger] s[i]),
        k == 0 || !is_ws(s[k - 1]),
    ensures
        trim_back(s) == s.take(k),
    decreases s.len() - k,
{
    if k == s.len() {
        // s.last() is s[k-1], which is not whitespace (or s is empty), so
        // trim_back leaves s unchanged
        assert(s.take(k) =~= s);
    } else {
        assert(is_ws(s.last()));
        let t = s.drop_last();
        assert(forall|i: int| k <= i < t.len() ==> is_ws(#[trigger] t[i]));
        lemma_trim_back(t, k);
        assert(t.take(k) =~= s.take(k));
    }
}

fn is_ws_exec(c: char) -> (r: bool)
    ensures
        r == is_ws(c),
{
    c == ' ' || c == '\t' || c == '\n' || c == '\r' || c == '\u{b}' || c == '\u{c}'
}

fn scan_ws_front(s: &str) -> (lo: usize)
    ensures
        lo <= s@.len(),
        forall|i: int| 0 <= i < lo ==> is_ws(#[trigger] s@[i]),
        lo == s@.len() || !is_ws(s@[lo as int]),
{
    let n = s.unicode_len();
    let mut lo: usize = 0;
    while lo < n
        invariant
            n == s@.len(),
            lo <= n,
            forall|i: int| 0 <= i < lo ==> is_ws(#[trigger] s@[i]),
        decreases n - lo,
    {
        if !is_ws_exec(s.get_char(lo)) {
            return lo;
        }
        lo = lo + 1;
    }
    lo
}

fn scan_ws_back(s: &str, lo: usize) -> (hi: usize)
    requires
        lo < s@.len(),
        !is_ws(s@[lo as int]),
    ensures
        lo < hi <= s@.len(),
        !is_ws(s@[hi - 1]),
        forall|i: int| hi <= i < s@.len() ==> is_ws(#[trigger] s@[i]),
{
    let n = s.unicode_len();
    let mut hi: usize = n;
    while hi > lo + 1
        invariant
            n == s@.len(),
            lo < n,
            lo + 1 <= hi <= n,
            forall|i: int| hi <= i < n ==> is_ws(#[trigger] s@[i]),
        decreases hi,
    {
        if !is_ws_exec(s.get_char(hi - 1)) {
            return hi;
        }
        hi = hi - 1;
    }
    hi
}

/// The input with ASCII whitespace removed from both ends.
pub fn trim(s: &str) -> (r: &str)
    ensures
        r@ == trim_ws(s@),
{
    let n = s.unicode_len();
    let lo = scan_ws_front(s);
    proof {
        lemma_trim_front(s@, lo as int);
    }
    if lo == n {
        proof {
            assert(s@.skip(n as int) =~= Seq::<char>::empty());
            assert(trim_back(Seq::<char>::empty()) =~= Seq::<char>::empty());
            assert(s@.subrange(0, 0) =~= Seq::<char>::empty());
        }
        return s.substring_char(0, 0);
    }
    let hi = scan_ws_back(s, lo);
    proof {
        let t = s@.skip(lo as int);
        assert(forall|i: int|
            hi - lo <= i < t.len() ==> is_ws(#[trigger] t[i]) == is_ws(s@[i + lo]));
        assert(!is_ws(t[hi - lo - 1]));
        lemma_trim_back(t, hi - lo);
        assert(t.take(hi - lo) =~= s@.subrange(lo as int, hi as int));
    }
    s.substring_char(lo, hi)
}

pub open spec fn is_digit(c: char) -> bool {
    '0' <= c && c <= '9'
}

/// The numeric value of a decimal digit character.
pub open spec fn dval(c: char) -> int {
    c as int - 48
}

/// Parses `YYYY:MM:DD HH:MM:SS` (the embedded photo metadata date format)
/// after trimming ASCII whitespace; yields a timestamp only when every
/// field is numeric, the separators match, and the result is a real
/// calendar date.
pub open spec fn spec_parse_exif_dt(s: Seq<char>) -> Option<Timestamp> {
    let t = trim_ws(s);
    if t.len() == 19 && is_digit(t[0]) && is_digit(t[1]) && is_digit(t[2]) && is_digit(t[3]) && t[4]
        == ':' && is_digit(t[5]) && is_digit(t[6]) && t[7] == ':' && is_digit(t[8]) && is_digit(
        t[9],
    ) && t[10] == ' ' && is_digit(t[11]) && is_digit(t[12]) && t[13] == ':' && is_digit(t[14])
        && is_digit(t[15]) && t[16] == ':' && is_digit(t[17]) && is_digit(t[18]) {
        let ts = Timestamp {
            year: (dval(t[0]) * 1000 + dval(t[1]) * 100 + dval(t[2]) * 10 + dval(t[3])) as u16,
            month: (dval(t[5]) * 10 + dval(t[6])) as u8,
            day: (dval(t[8]) * 10 + dval(t[9])) as u8,
            hour: (dval(t[11]) * 10 + dval(t[12])) as u8,
            minute: (dval(t[14]) * 10 + dval(t[15])) as u8,
            second: (dval(t[17]) * 10 + dval(t[18])) as u8,
        };
        if ts_wf(ts) {
            Option::Some(ts)
        } else {
            Option::None
        }
    } else {
        Option::None
    }
}

fn digit_val(c: char) -> (r: u8)
    requires
        is_digit(c),
    ensures
        r as int == dval(c),
{
    (c as u8) - 48
}

fn digit2(t: &str, i: usize) -> (r: Option<u8>)
    requires
        i + 2 <= t@.len(),
        t@.len() <= usize::MAX,
    ensures
        match r {
            Some(v) => is_digit(t@[i as int]) && is_digit(t@[i + 1]) && v as int == dval(
                t@[i as int],
            ) * 10 + dval(t@[i + 1]),
            None => !(is_digit(t@[i as int]) && is_digit(t@[i + 1])),
        },
{
    let c0 = t.get_char(i);
    let c1 = t.get_char(i + 1);
    if '0' <= c0 && c0 <= '9' && '0' <= c1 && c1 <= '9' {
        Some(digit_val(c0) * 10 + digit_val(c1))
    } else {
        None
    }
}

/// Parses the embedded photo metadata date format `YYYY:MM:DD HH:MM:SS`.
pub fn parse_exif_datetime(s: &str) -> (r: Option<Timestamp>)
    ensures
        r == spec_parse_exif_dt(s@),
        r is Some ==> ts_wf(r.unwrap()),
{
    let t = trim(s);
    if t.unicode_len() != 19 {
        return None;
    }
    let y01 = digit2(t, 0);
    let y23 = digit2(t, 2);
    let mo = digit2(t, 5);
    let da = digit2(t, 8);
    let ho = digit2(t, 11);
    let mi = digit2(t, 14);
    let se = digit2(t, 17);
    if t.get_char(4) != ':' || t.get_char(7) != ':' || t.get_char(10) != ' ' || t.get_char(13)
        != ':' || t.get_char(16) != ':' {
        return None;
    }
    match (y01, y23, mo, da, ho, mi, se) {
        (Some(a), Some(b), Some(m), Some(d), Some(h), Some(mi2), Some(s2)) => {
            let ts = Timestamp {
                year: (a as u16) * 100 + (b as u16),
                month: m,
                day: d,
                hour: h,
                minute: mi2,
                second: s2,
            };
            if timestamp_wf(&ts) {
                Some(ts)
            } else {
                None
            }
        },
        _ => None,
    }
}

/// Names the result of chrono's RFC 3339 parser: a pure function of the
/// input string.
pub uninterp spec fn rfc3339_local_of(s: Seq<char>) -> Option<Timestamp>;

/// Relies on chrono's `DateTime::parse_from_rfc3339` and `naive_local`:
/// the outcome depends on the input string alone, and a successfully
/// parsed RFC 3339 value carries a four-digit year, a real calendar date
/// validated by the parser, and in-range time fields, which `naive_local`
/// reproduces in the offset the string was written in.
#[verifier::external_body]
pub fn parse_rfc3339_local(s: &str) -> (r: Option<Timestamp>)
    ensures
        r == rfc3339_local_of(s@),
        r is Some ==> ts_wf(r.unwrap()),
{
    match chrono::DateTime::parse_from_rfc3339(s) {
        Ok(dt) => {
            let n = dt.naive_local();
            let (y, mo, d) = (n.year() as u16, n.month() as u8, n.day() as u8);
            let (h, mi, se) = (n.hour() as u8, n.minute() as u8, n.second() as u8);
            Some(Timestamp { year: y, month: mo, day: d, hour: h, minute: mi, second: se })
        },
        Err(_) => None,
    }
}


/// Everything gathered about a file that can yield a capture date: the two
/// embedded photo metadata tags (capture date first, then general date),
/// the video container's creation tag, and the filesystem modification
/// time.
pub struct DateEvidence {
    pub exif_datetime_original: Option<String>,
    pub exif_datetime: Option<String>,
    pub probe_creation_time: Option<String>,
    pub mtime: Option<Timestamp>,
}

/// The evidence's modification time is a real timestamp when present.
pub open spec fn evidence_wf(ev: DateEvidence) -> bool {
    ev.mtime is Some ==> ts_wf(ev.mtime.unwrap())
}

/// Whether the path's lower-cased extension marks it as a jpeg photo.
pub open spec fn spec_is_jpeg(p: Seq<char>) -> bool {
    norm_ext_of(p) == Option::Some(ext_jpg()) || norm_ext_of(p) == Option::Some(ext_jpeg())
}

/// The date a photo's embedded metadata yields: the capture tag first,
/// then the general date tag.
pub open spec fn spec_exif_date(ev: DateEvidence) -> Option<Timestamp> {
    let dto = match ev.exif_datetime_original {
        Option::Some(s) => spec_parse_exif_dt(s@),
        Option::None => Option::None,
    };
    match dto {
        Option::Some(ts) => Option::Some(ts),
        Option::None => match ev.exif_datetime {
            Option::Some(s) => spec_parse_exif_dt(s@),
            Option::None => Option::None,
        },
    }
}

/// The date the video container's creation tag yields.
pub open spec fn spec_probe_date(ev: DateEvidence) -> Option<Timestamp> {
    match ev.probe_creation_time {
        Option::Some(s) => rfc3339_local_of(s@),
        Option::None => Option::None,
    }
}

/// The resolved date and its source for one file: photos try embedded
/// metadata (jpeg only), videos try the container's creation tag; both
/// fall back to the modification time, then to no date at all. Paths of
/// other kinds resolve to no date.
pub open spec fn spec_best_datetime(p: Seq<char>, ev: DateEvidence) -> (Option<Timestamp>,
    DateSource) {
    match spec_classify(p) {
        Kind::Photo => {
            if spec_is_jpeg(p) && spec_exif_date(ev) is Some {
                (spec_exif_date(ev), DateSource::Exif)
            } else if ev.mtime is Some {
                (ev.mtime, DateSource::Mtime)
            } else {
                (Option::None, DateSource::NoDate)
            }
        },
        Kind::Video => {
            if spec_probe_date(ev) is Some {
                (spec_probe_date(ev), DateSource::Ffprobe)
            } else if ev.mtime is Some {
                (ev.mtime, DateSource::Mtime)
            } else {
                (Option::None, DateSource::NoDate)
            }
        },
        _ => (Option::None, DateSource::NoDate),
    }
}

/// Resolves the best capture date for a file from the gathered evidence.
pub fn best_datetime_for_file(p: &str, ev: &DateEvidence) -> (r: (Option<Timestamp>, DateSource))
    requires
        evidence_wf(*ev),
    ensures
        r == spec_best_datetime(p@, *ev),
        r.0 is Some ==> ts_wf(r.0.unwrap()),
{
    let kind = crate::classify::classify(p);
    match kind {
        Kind::Photo => {
            let exif: Option<Timestamp> = if crate::classify::is_jpeg(p) {
                let first: Option<Timestamp> = match &ev.exif_datetime_original {
                    Some(s) => parse_exif_datetime(s.as_str()),
                    None => None,
                };
                match first {
                    Some(ts) => Some(ts),
                    None => match &ev.exif_datetime {
                        Some(s) => parse_exif_datetime(s.as_str()),
                        None => None,
                    },
                }
            } else {
                None
            };
            match exif {
                Some(ts) => (Some(ts), DateSource::Exif),
                None => match ev.mtime {
                    Some(ts) => (Some(ts), DateSource::Mtime),
                    None => (None, DateSource::NoDate),
                },
            }
        },
        Kind::Video => {
            let probed: Option<Timestamp> = match &ev.probe_creation_time {
                Some(s) => parse_rfc3339_local(s.as_str()),
                None => None,
            };
            match probed {
                Some(ts) => (Some(ts), DateSource::Ffprobe),
                None => match ev.mtime {
                    Some(ts) => (Some(ts), DateSource::Mtime),
                    None => (None, DateSource::NoDate),
                },
            }
        },
        _ => (None, DateSource::NoDate),
    }
}

/// Resolves the date for a DVD root: only the filesystem modification time
/// of the root directory is consulted.
pub fn best_datetime_for_dvd(mtime: Option<Timestamp>) -> (r: (Option<Timestamp>, DateSource))
    ensures
        r == if mtime is Some {
            (mtime, DateSource::Mtime)
        } else {
            (Option::<Timestamp>::None, DateSource::NoDate)
        },
{
    match mtime {
        Some(ts) => (Some(ts), DateSource::Mtime),
        None => (None, DateSource::NoDate),
    }
}

} // verus!
