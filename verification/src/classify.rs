//! Media classification. The kind of a file is a pure function of its
//! extension, compared without regard to ASCII case; anything unknown is
//! ignored and never enters the pipeline.
use vstd::prelude::*;

use crate::paths::{extension, extension_of};
use crate::text::{lower, lower_char, str_eq, to_lower};

verus! {

#[derive(Debug, Clone, Copy, PartialEq, Eq, Structural)]
pub enum Kind {
    Photo,
    Video,
    Dvd,
    Ignore,
}

/// The extension of the path, lower-cased; the input to classification.
pub open spec fn norm_ext_of(p: Seq<char>) -> Option<Seq<char>> {
    match extension_of(p) {
        Option::Some(e) => Option::Some(lower(e)),
        Option::None => Option::None,
    }
}

pub open spec fn ext_jpg() -> Seq<char> {
    seq!['j', 'p', 'g']
}

pub open spec fn ext_jpeg() -> Seq<char> {
    seq!['j', 'p', 'e', 'g']
}

pub open spec fn ext_png() -> Seq<char> {
    seq!['p', 'n', 'g']
}

pub open spec fn ext_mp4() -> Seq<char> {
    seq!['m', 'p', '4']
}

pub open spec fn ext_avi() -> Seq<char> {
    seq!['a', 'v', 'i']
}

pub open spec fn ext_mov() -> Seq<char> {
    seq!['m', 'o', 'v']
}

pub open spec fn ext_m4v() -> Seq<char> {
    seq!['m', '4', 'v']
}

pub open spec fn ext_vob() -> Seq<char> {
    seq!['v', 'o', 'b']
}

pub open spec fn ext_ifo() -> Seq<char> {
    seq!['i', 'f', 'o']
}

pub open spec fn ext_bup() -> Seq<char> {
    seq!['b', 'u', 'p']
}

/// The kind a lower-cased extension maps to.
pub open spec fn kind_of_ext(e: Option<Seq<char>>) -> Kind {
    match e {
        Option::None => Kind::Ignore,
        Option::Some(x) => if x == ext_jpg() || x == ext_jpeg() || x == ext_png() {
            Kind::Photo
        } else if x == ext_mp4() || x == ext_avi() || x == ext_mov() || x == ext_m4v() {
            Kind::Video
        } else if x == ext_vob() || x == ext_ifo() || x == ext_bup() {
            Kind::Dvd
        } else {
            Kind::Ignore
        },
    }
}

/// The kind of a path: a function of its lower-cased extension alone.
pub open spec fn spec_classify(p: Seq<char>) -> Kind {
    kind_of_ext(norm_ext_of(p))
}

/// The extension of the path, lower-cased.
pub fn normalize_extension(p: &str) -> (r: Option<String>)
    ensures
        match r {
            Some(e) => norm_ext_of(p@) == Option::Some(e@),
            None => norm_ext_of(p@) is None,
        },
{
    match extension(p) {
        Some(e) => Some(to_lower(e)),
        None => None,
    }
}

/// Classifies a path by its lower-cased extension.
pub fn classify(p: &str) -> (r: Kind)
    ensures
        r == spec_classify(p@),
{
    proof {
        reveal_strlit("jpg");
        reveal_strlit("jpeg");
        reveal_strlit("png");
        reveal_strlit("mp4");
        reveal_strlit("avi");
        reveal_strlit("mov");
        reveal_strlit("m4v");
        reveal_strlit("vob");
        reveal_strlit("ifo");
        reveal_strlit("bup");
        assert("jpg"@ =~= ext_jpg());
        assert("jpeg"@ =~= ext_jpeg());
        assert("png"@ =~= ext_png());
        assert("mp4"@ =~= ext_mp4());
        assert("avi"@ =~= ext_avi());
        assert("mov"@ =~= ext_mov());
        assert("m4v"@ =~= ext_m4v());
        assert("vob"@ =~= ext_vob());
        assert("ifo"@ =~= ext_ifo());
        assert("bup"@ =~= ext_bup());
    }
    match normalize_extension(p) {
        Some(e) => {
            let x = e.as_str();
            if str_eq(x, "jpg") || str_eq(x, "jpeg") || str_eq(x, "png") {
                Kind::Photo
            } else if str_eq(x, "mp4") || str_eq(x, "avi") || str_eq(x, "mov") || str_eq(x, "m4v") {
                Kind::Video
            } else if str_eq(x, "vob") || str_eq(x, "ifo") || str_eq(x, "bup") {
                Kind::Dvd
            } else {
                Kind::Ignore
            }
        },
        None => Kind::Ignore,
    }
}

/// Whether the path has a jpg or jpeg extension; such photos are the only
/// files for which a capture date is read from embedded metadata.
pub fn is_jpeg(p: &str) -> (r: bool)
    ensures
        r == (norm_ext_of(p@) == Option::Some(ext_jpg()) || norm_ext_of(p@) == Option::Some(
            ext_jpeg(),
        )),
{
    proof {
        reveal_strlit("jpg");
        reveal_strlit("jpeg");
        assert("jpg"@ =~= ext_jpg());
        assert("jpeg"@ =~= ext_jpeg());
    }
    match normalize_extension(p) {
        Some(e) => str_eq(e.as_str(), "jpg") || str_eq(e.as_str(), "jpeg"),
        None => false,
    }
}

/// Whether the path has an avi extension; such videos are re-encoded
/// rather than copied.
pub fn is_avi(p: &str) -> (r: bool)
    ensures
        r == (norm_ext_of(p@) == Option::Some(ext_avi())),
{
    proof {
        reveal_strlit("avi");
        assert("avi"@ =~= ext_avi());
    }
    match normalize_extension(p) {
        Some(e) => str_eq(e.as_str(), "avi"),
        None => false,
    }
}

/// Classification is insensitive to the ASCII case of the extension: two
/// paths whose extensions agree letter for letter up to case are classified
/// alike.
pub proof fn lemma_classify_case_insensitive(p: Seq<char>, q: Seq<char>)
    requires
        extension_of(p) is Some,
        extension_of(q) is Some,
        extension_of(p).unwrap().len() == extension_of(q).unwrap().len(),
        forall|i: int|
            0 <= i < extension_of(p).unwrap().len() ==> lower_char(
                #[trigger] extension_of(p).unwrap()[i],
            ) == lower_char(extension_of(q).unwrap()[i]),
    ensures
        spec_classify(p) == spec_classify(q),
{
    let ep = extension_of(p).unwrap();
    let eq = extension_of(q).unwrap();
    assert(lower(ep) =~= lower(eq));
}

} // verus!
