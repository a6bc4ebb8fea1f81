//! Reading the creation tag out of a metadata probe's JSON report. The
//! JSON handling is delegated to serde_json behind one trusted wrapper
//! whose result is named: the tag is a pure function of the report bytes,
//! and date resolution parses and validates whatever comes back.
use vstd::prelude::*;

use crate::time::{parse_rfc3339_local, rfc3339_local_of, ts_wf, Timestamp};

verus! {

/// Names the `format.tags.creation_time` string of a JSON document: a
/// pure function of the bytes, `Some` of that string's characters exactly
/// when the document parses as JSON and holds a string at that path,
/// `None` otherwise.
pub uninterp spec fn creation_tag_of(b: Seq<u8>) -> Option<Seq<char>>;

/// Relies on serde_json's `from_slice`, `Value::get` and `Value::as_str`:
/// the result depends on the byte argument alone; it is the string under
/// the document's `format.tags.creation_time` path when the bytes parse
/// as JSON and that path holds a string value, and `None` when the bytes
/// do not parse, the path is absent, or it holds any other kind of value.
#[verifier::external_body]
fn extract_creation_tag(bytes: &[u8]) -> (r: Option<String>)
    ensures
        r.deep_view() == creation_tag_of(bytes@),
{
    serde_json::from_slice::<serde_json::Value>(bytes)
        .ok()
        .and_then(|doc| {
            doc.get("format")
                .and_then(|f| f.get("tags"))
                .and_then(|t| t.get("creation_time"))
                .and_then(|v| v.as_str())
                .map(|s| s.to_owned())
        })
}

/// The `format.tags.creation_time` string of a metadata probe's JSON
/// report; `None` when the report does not parse or the tag is absent.
/// The result is raw evidence: date resolution parses and validates it.
pub fn creation_time_tag(probe_output: &[u8]) -> (r: Option<String>)
    ensures
        r.deep_view() == creation_tag_of(probe_output@),
{
    extract_creation_tag(probe_output)
}

/// The best date for a video from its probe evidence: the creation tag
/// when it parses as RFC 3339, else the modification time, else nothing.
pub fn video_best_datetime(creation_time: Option<&str>, mtime: Option<Timestamp>) -> (r: Option<
    Timestamp,
>)
    requires
        mtime is Some ==> ts_wf(mtime.unwrap()),
    ensures
        r == (match creation_time {
            Option::Some(s) => if rfc3339_local_of(s@) is Some {
                rfc3339_local_of(s@)
            } else {
                mtime
            },
            Option::None => mtime,
        }),
        r is Some ==> ts_wf(r.unwrap()),
{
    let parsed: Option<Timestamp> = match creation_time {
        Some(s) => parse_rfc3339_local(s),
        None => None,
    };
    match parsed {
        Some(ts) => Some(ts),
        None => mtime,
    }
}

} // verus!
