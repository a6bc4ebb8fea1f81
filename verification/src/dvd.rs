//! DVD structure handling. A DVD rip is a directory holding a `VIDEO_TS`
//! subdirectory; files inside it are never planned on their own, and the
//! content titles are the sorted, numbered VOB files, leaving out the menu
//! and the `VIDEO_TS.VOB` lead-in.
use vstd::prelude::*;

use crate::classify::{ext_vob, norm_ext_of};
use crate::paths::{file_name, file_name_of, parent_dir, parent_of, path_segments, split_slash};
use crate::text::{
    lemma_str_le_total, lemma_str_le_transitive, lower, push_char, str_eq, str_le, str_le_exec,
    to_lower,
};

verus! {

broadcast use {vstd::seq_lib::group_to_multiset_ensures, vstd::multiset::group_multiset_axioms};

/// The eight characters of the DVD structure directory name, lower-cased.
pub open spec fn video_ts_chars() -> Seq<char> {
    seq!['v', 'i', 'd', 'e', 'o', '_', 't', 's']
}

/// Whether some segment of the path names the DVD structure directory,
/// compared without regard to ASCII case.
pub open spec fn inside_video_ts(p: Seq<char>) -> bool {
    exists|k: int|
        0 <= k < split_slash(p).len() && lower(#[trigger] split_slash(p)[k]) == video_ts_chars()
}

/// Whether any path segment is `VIDEO_TS`, compared without regard to
/// ASCII case.
pub fn is_inside_video_ts(p: &str) -> (r: bool)
    ensures
        r == inside_video_ts(p@),
{
    proof {
        reveal_strlit("video_ts");
        assert("video_ts"@ =~= video_ts_chars());
    }
    let parts = path_segments(p);
    let n = parts.len();
    let mut k: usize = 0;
    while k < n
        invariant
            n == parts.len(),
            k <= n,
            parts.deep_view() == split_slash(p@),
            "video_ts"@ == video_ts_chars(),
            forall|j: int| 0 <= j < k ==> lower(#[trigger] split_slash(p@)[j]) != video_ts_chars(),
        decreases n - k,
    {
        let low = to_lower(parts[k].as_str());
        if str_eq(low.as_str(), "video_ts") {
            proof {
                assert(split_slash(p@)[k as int] == parts.deep_view()[k as int]);
            }
            return true;
        }
        proof {
            assert(lower(split_slash(p@)[k as int]) != video_ts_chars());
        }
        k = k + 1;
    }
    false
}

/// The DVD root a `VIDEO_TS` directory path points at: its parent.
pub open spec fn spec_dvd_root(p: Seq<char>) -> Option<Seq<char>> {
    if lower(file_name_of(p)) == video_ts_chars() {
        Option::Some(parent_of(p))
    } else {
        Option::None
    }
}

/// When the path's last segment is `VIDEO_TS` (any ASCII case), yields the
/// parent directory: the root of a DVD rip.
pub fn dvd_root_from_video_ts_dir(p: &str) -> (r: Option<String>)
    ensures
        match r {
            Some(d) => spec_dvd_root(p@) == Option::Some(d@),
            None => spec_dvd_root(p@) is None,
        },
{
    proof {
        reveal_strlit("video_ts");
        assert("video_ts"@ =~= video_ts_chars());
    }
    let name = file_name(p);
    let low = to_lower(name);
    if str_eq(low.as_str(), "video_ts") {
        let parent = parent_dir(p);
        Some(parent.to_owned())
    } else {
        None
    }
}

/// The four characters of the numbered title prefix, lower-cased.
pub open spec fn vts_prefix_chars() -> Seq<char> {
    seq!['v', 't', 's', '_']
}

/// The lower-cased name of the lead-in VOB that carries no title content.
pub open spec fn video_ts_vob_chars() -> Seq<char> {
    seq!['v', 'i', 'd', 'e', 'o', '_', 't', 's', '.', 'v', 'o', 'b']
}

/// A VOB that carries title content: the extension is `vob`, the name is
/// not the `VIDEO_TS.VOB` lead-in, and a name that begins with `VTS_` does
/// not have `_0` at character positions seven and eight (the menu file of
/// a three-digit title set). All name comparisons ignore ASCII case.
pub open spec fn spec_is_content_vob(p: Seq<char>) -> bool {
    let f = lower(file_name_of(p));
    &&& norm_ext_of(p) == Option::Some(ext_vob())
    &&& f != video_ts_vob_chars()
    &&& !(f.len() >= 9 && f.take(4) == vts_prefix_chars() && f[7] == '_' && f[8] == '0')
}

/// Whether the path names a VOB file carrying title content.
pub fn is_content_vob(p: &str) -> (r: bool)
    ensures
        r == spec_is_content_vob(p@),
{
    proof {
        reveal_strlit("vob");
        reveal_strlit("video_ts.vob");
        reveal_strlit("vts_");
        assert("vob"@ =~= ext_vob());
        assert("video_ts.vob"@ =~= video_ts_vob_chars());
        assert("vts_"@ =~= vts_prefix_chars());
    }
    let is_vob = match crate::classify::normalize_extension(p) {
        Some(e) => str_eq(e.as_str(), "vob"),
        None => false,
    };
    if !is_vob {
        return false;
    }
    let f = to_lower(file_name(p));
    if str_eq(f.as_str(), "video_ts.vob") {
        return false;
    }
    let n = f.unicode_len();
    if n >= 9 {
        let pre = f.as_str().substring_char(0, 4);
        if str_eq(pre, "vts_") && f.as_str().get_char(7) == '_' && f.as_str().get_char(8) == '0' {
            proof {
                assert(f@.subrange(0, 4) =~= f@.take(4));
            }
            return false;
        }
        proof {
            assert(f@.subrange(0, 4) =~= f@.take(4));
        }
        true
    } else {
        true
    }
}

/// Sorted ascending in the lexicographic string order.
pub open spec fn sorted_strs(s: Seq<Seq<char>>) -> bool {
    forall|i: int, j: int| 0 <= i < j < s.len() ==> str_le(#[trigger] s[i], #[trigger] s[j])
}

proof fn lemma_multiset_insert(s: Seq<Seq<char>>, pos: int, x: Seq<char>)
    requires
        0 <= pos <= s.len(),
    ensures
        s.insert(pos, x).to_multiset() == s.to_multiset().insert(x),
{
    assert(s.insert(pos, x) =~= s.take(pos).push(x) + s.skip(pos));
    vstd::seq_lib::lemma_multiset_commutative(s.take(pos).push(x), s.skip(pos));
    vstd::seq_lib::lemma_multiset_commutative(s.take(pos), s.skip(pos));
    assert(s.take(pos) + s.skip(pos) =~= s);
    assert(s.take(pos).push(x).to_multiset() =~= s.take(pos).to_multiset().insert(x));
    assert(s.take(pos).to_multiset().insert(x).add(s.skip(pos).to_multiset()) =~= s.take(
        pos,
    ).to_multiset().add(s.skip(pos).to_multiset()).insert(x));
}

fn find_insert_pos(v: &Vec<String>, x: &String) -> (pos: usize)
    requires
        sorted_strs(v.deep_view()),
    ensures
        pos <= v.deep_view().len(),
        forall|k: int| 0 <= k < pos ==> str_le(#[trigger] v.deep_view()[k], x@),
        forall|k: int| pos <= k < v.deep_view().len() ==> str_le(x@, #[trigger] v.deep_view()[k]),
{
    let n = v.len();
    proof {
        assert(v.deep_view().len() == v@.len());
    }
    let mut k: usize = 0;
    while k < n
        invariant
            n == v@.len(),
            v.deep_view().len() == v@.len(),
            sorted_strs(v.deep_view()),
            k <= n,
            forall|j: int| 0 <= j < k ==> str_le(#[trigger] v.deep_view()[j], x@),
        decreases n - k,
    {
        if !str_le_exec(v[k].as_str(), x.as_str()) {
            proof {
                assert(v.deep_view()[k as int] == v@[k as int]@);
                lemma_str_le_total(v.deep_view()[k as int], x@);
                assert forall|j: int| k <= j < v.deep_view().len() implies str_le(
                    x@,
                    #[trigger] v.deep_view()[j],
                ) by {
                    if j > k {
                        lemma_str_le_transitive(x@, v.deep_view()[k as int], v.deep_view()[j]);
                    }
                }
            }
            return k;
        }
        k = k + 1;
    }
    n
}

/// Sorts strings ascending in the lexicographic order, keeping exactly the
/// input strings (as a multiset).
pub fn sort_strings(input: Vec<String>) -> (r: Vec<String>)
    ensures
        r.deep_view().to_multiset() == input.deep_view().to_multiset(),
        sorted_strs(r.deep_view()),
{
    let ghost full = input.deep_view();
    let mut rest = input;
    let mut out: Vec<String> = Vec::new();
    proof {
        assert(out.deep_view() =~= Seq::<Seq<char>>::empty());
        assert(out.deep_view().to_multiset().add(rest.deep_view().to_multiset()) =~= full
            .to_multiset());
    }
    while rest.len() > 0
        invariant
            sorted_strs(out.deep_view()),
            out.deep_view().to_multiset().add(rest.deep_view().to_multiset()) == full.to_multiset(),
        decreases rest.len(),
    {
        let ghost rest_pre = rest.deep_view();
        let ghost out_pre = out.deep_view();
        let x = rest.pop().unwrap();
        proof {
            assert(rest.deep_view() =~= rest_pre.drop_last());
            assert(rest_pre.drop_last().push(x@) =~= rest_pre);
            assert(rest_pre.to_multiset() =~= rest.deep_view().to_multiset().insert(x@));
        }
        let pos = find_insert_pos(&out, &x);
        out.insert(pos, x);
        proof {
            assert(out.deep_view() =~= out_pre.insert(pos as int, x@));
            lemma_multiset_insert(out_pre, pos as int, x@);
            assert(out.deep_view().to_multiset().add(rest.deep_view().to_multiset()) =~= out_pre
                .to_multiset().add(rest_pre.to_multiset()));
            let dv = out.deep_view();
            assert forall|i: int, j: int| 0 <= i < j < dv.len() implies str_le(
                #[trigger] dv[i],
                #[trigger] dv[j],
            ) by {
                assert(forall|k: int| 0 <= k < pos ==> dv[k] == out_pre[k]);
                assert(dv[pos as int] == x@);
                assert(forall|k: int| pos < k < dv.len() ==> dv[k] == out_pre[k - 1]);
            }
        }
    }
    proof {
        assert(rest.deep_view() =~= Seq::<Seq<char>>::empty());
        assert(out.deep_view().to_multiset().add(Seq::<Seq<char>>::empty().to_multiset()) =~= out
            .deep_view().to_multiset());
    }
    out
}

/// The content VOBs among the given paths, sorted by path. This is the
/// "all content titles" enumeration policy: every numbered title VOB is
/// kept, in play order; menu and lead-in files are left out.
pub fn select_content_vobs(paths: &Vec<String>) -> (r: Vec<String>)
    ensures
        r.deep_view().to_multiset() == paths.deep_view().filter(
            |s: Seq<char>| spec_is_content_vob(s),
        ).to_multiset(),
        sorted_strs(r.deep_view()),
{
    let ghost pred = |s: Seq<char>| spec_is_content_vob(s);
    let mut kept: Vec<String> = Vec::new();
    let n = paths.len();
    proof {
        assert(paths.deep_view().len() == paths@.len());
        assert(kept.deep_view() =~= paths.deep_view().take(0).filter(pred));
    }
    let mut i: usize = 0;
    while i < n
        invariant
            n == paths@.len(),
            paths.deep_view().len() == paths@.len(),
            i <= n,
            kept.deep_view() == paths.deep_view().take(i as int).filter(pred),
            pred == (|s: Seq<char>| spec_is_content_vob(s)),
        decreases n - i,
    {
        let ghost kept_pre = kept.deep_view();
        let p = &paths[i];
        proof {
            assert(paths.deep_view()[i as int] == paths@[i as int]@);
            assert(paths.deep_view().take(i + 1).drop_last() =~= paths.deep_view().take(i as int));
            assert(paths.deep_view().take(i + 1).last() == paths.deep_view()[i as int]);
            reveal(Seq::filter);
        }
        if is_content_vob(p.as_str()) {
            kept.push(p.clone());
            proof {
                assert(kept.deep_view() =~= kept_pre.push(paths@[i as int]@));
            }
        }
        i = i + 1;
    }
    proof {
        assert(paths.deep_view().take(n as int) =~= paths.deep_view());
    }
    sort_strings(kept)
}

/// Escapes a path for a concat list: each single quote becomes the
/// quote-backslash-quote-quote sequence.
pub open spec fn escape_sq(s: Seq<char>) -> Seq<char>
    decreases s.len(),
{
    if s.len() == 0 {
        Seq::empty()
    } else {
        let head: Seq<char> = if s[0] == '\'' {
            seq!['\'', '\\', '\'', '\'']
        } else {
            seq![s[0]]
        };
        head + escape_sq(s.drop_first())
    }
}

proof fn lemma_escape_sq_take(s: Seq<char>, i: int)
    requires
        0 <= i < s.len(),
    ensures
        escape_sq(s.take(i + 1)) == escape_sq(s.take(i)) + (if s[i] == '\'' {
            seq!['\'', '\\', '\'', '\'']
        } else {
            seq![s[i]]
        }),
    decreases i,
{
    let t1 = s.take(i + 1);
    let t0 = s.take(i);
    if i == 0 {
        assert(t1.drop_first() =~= Seq::<char>::empty());
        assert(t0 =~= Seq::<char>::empty());
        assert(escape_sq(t1) =~= escape_sq(t0) + (if s[0] == '\'' {
            seq!['\'', '\\', '\'', '\'']
        } else {
            seq![s[0]]
        }));
    } else {
        lemma_escape_sq_take(s.drop_first(), i - 1);
        assert(t1.drop_first() =~= s.drop_first().take(i));
        assert(t0.drop_first() =~= s.drop_first().take(i - 1));
        assert(t1[0] == s[0]);
        assert(t0[0] == s[0]);
        assert(s.drop_first()[i - 1] == s[i]);
        assert(escape_sq(t1) =~= escape_sq(t0) + (if s[i] == '\'' {
            seq!['\'', '\\', '\'', '\'']
        } else {
            seq![s[i]]
        }));
    }
}

/// Appends the escaped path to the output.
fn push_escaped(out: &mut String, p: &str)
    ensures
        final(out)@ == old(out)@ + escape_sq(p@),
{
    let n = p.unicode_len();
    let mut i: usize = 0;
    proof {
        assert(out@ + escape_sq(p@.take(0)) =~= out@);
    }
    while i < n
        invariant
            n == p@.len(),
            i <= n,
            out@ == old(out)@ + escape_sq(p@.take(i as int)),
        decreases n - i,
    {
        let c = p.get_char(i);
        if c == '\'' {
            push_char(out, '\'');
            push_char(out, '\\');
            push_char(out, '\'');
            push_char(out, '\'');
        } else {
            push_char(out, c);
        }
        proof {
            lemma_escape_sq_take(p@, i as int);
            assert(out@ =~= old(out)@ + escape_sq(p@.take(i + 1)));
        }
        i = i + 1;
    }
    proof {
        assert(p@.take(n as int) =~= p@);
    }
}

/// One line of a concat list: `file '` + escaped path + `'` + newline.
pub open spec fn ffconcat_line(p: Seq<char>) -> Seq<char> {
    seq!['f', 'i', 'l', 'e', ' ', '\''] + escape_sq(p) + seq!['\'', '\n']
}

/// The whole concat list, one line per path, in order.
pub open spec fn spec_ffconcat(paths: Seq<Seq<char>>) -> Seq<char>
    decreases paths.len(),
{
    if paths.len() == 0 {
        Seq::empty()
    } else {
        spec_ffconcat(paths.drop_last()) + ffconcat_line(paths.last())
    }
}

/// Renders the concat list handed to the transcoder: one quoted, escaped
/// `file` line per path, in order.
pub fn ffconcat_contents(paths: &Vec<String>) -> (r: String)
    ensures
        r@ == spec_ffconcat(paths.deep_view()),
{
    proof {
        reveal_strlit("file '");
        reveal_strlit("'\n");
    }
    let n = paths.len();
    let mut out = String::new();
    proof {
        assert(paths.deep_view().len() == paths@.len());
        assert(out@ =~= spec_ffconcat(paths.deep_view().take(0)));
    }
    let mut i: usize = 0;
    while i < n
        invariant
            n == paths@.len(),
            paths.deep_view().len() == paths@.len(),
            i <= n,
            out@ == spec_ffconcat(paths.deep_view().take(i as int)),
        decreases n - i,
    {
        let ghost out_pre = out@;
        out.append("file '");
        push_escaped(&mut out, paths[i].as_str());
        out.append("'\n");
        proof {
            reveal_strlit("file '");
            reveal_strlit("'\n");
            assert(paths.deep_view()[i as int] == paths@[i as int]@);
            assert("file '"@ =~= seq!['f', 'i', 'l', 'e', ' ', '\'']);
            assert("'\n"@ =~= seq!['\'', '\n']);
            assert(out@ =~= out_pre + ffconcat_line(paths.deep_view()[i as int]));
            assert(paths.deep_view().take(i + 1).drop_last() =~= paths.deep_view().take(i as int));
            assert(paths.deep_view().take(i + 1).last() == paths.deep_view()[i as int]);
        }
        i = i + 1;
    }
    proof {
        assert(paths.deep_view().take(n as int) =~= paths.deep_view());
    }
    out
}

} // verus!
