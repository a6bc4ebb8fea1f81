//! A plain-string model of filesystem paths. A path is a sequence of
//! segments separated by `/`; the last segment is the file name. The
//! exec functions mirror the spec model exactly.
use vstd::prelude::*;

use crate::text::{has_char, last_index, lemma_last_index, push_char, rfind_char};

verus! {

/// The part of a path after the last `/`, or the whole path when it has none.
pub open spec fn file_name_of(p: Seq<char>) -> Seq<char> {
    if has_char(p, '/') {
        p.skip(last_index(p, '/') + 1)
    } else {
        p
    }
}

/// The prefix of a path before the last `/`, or empty when it has none
/// (the model of a bare file name living in the current directory).
pub open spec fn parent_of(p: Seq<char>) -> Seq<char> {
    if has_char(p, '/') {
        p.take(last_index(p, '/'))
    } else {
        Seq::empty()
    }
}

/// The part of the file name after its last `.`, provided a `.` occurs at
/// a position other than the start (a leading dot marks a hidden file, not
/// an extension). Not lower-cased.
pub open spec fn extension_of(p: Seq<char>) -> Option<Seq<char>> {
    let f = file_name_of(p);
    let i = last_index(f, '.');
    if i <= 0 {
        Option::None
    } else {
        Option::Some(f.skip(i + 1))
    }
}

/// The file name without its extension; the whole file name when there is
/// no extension.
pub open spec fn stem_of(p: Seq<char>) -> Seq<char> {
    let f = file_name_of(p);
    let i = last_index(f, '.');
    if i <= 0 {
        f
    } else {
        f.take(i)
    }
}

/// The part of a path after the last `/`.
pub fn file_name(p: &str) -> (r: &str)
    ensures
        r@ == file_name_of(p@),
{
    let n = p.unicode_len();
    match rfind_char(p, '/') {
        Some(i) => {
            proof {
                lemma_last_index(p@, '/');
            }
            p.substring_char(i + 1, n)
        },
        None => p,
    }
}

/// The prefix of a path before the last `/`; empty when it has none.
pub fn parent_dir(p: &str) -> (r: &str)
    ensures
        r@ == parent_of(p@),
{
    match rfind_char(p, '/') {
        Some(i) => {
            proof {
                lemma_last_index(p@, '/');
            }
            p.substring_char(0, i)
        },
        None => p.substring_char(0, 0),
    }
}

/// The extension of the file name, not lower-cased.
pub fn extension(p: &str) -> (r: Option<&str>)
    ensures
        match r {
            Some(e) => extension_of(p@) == Option::Some(e@),
            None => extension_of(p@) is None,
        },
{
    let f = file_name(p);
    let n = f.unicode_len();
    match rfind_char(f, '.') {
        Some(i) => {
            proof {
                lemma_last_index(f@, '.');
                assert(f@.subrange(i + 1, n as int) =~= f@.skip(i + 1));
            }
            if i == 0 {
                None
            } else {
                Some(f.substring_char(i + 1, n))
            }
        },
        None => {
            proof {
                lemma_last_index(f@, '.');
            }
            None
        },
    }
}

/// The file name without its extension.
pub fn stem(p: &str) -> (r: &str)
    ensures
        r@ == stem_of(p@),
{
    let f = file_name(p);
    match rfind_char(f, '.') {
        Some(i) => {
            proof {
                lemma_last_index(f@, '.');
                assert(f@.subrange(0, i as int) =~= f@.take(i as int));
            }
            if i == 0 {
                f
            } else {
                f.substring_char(0, i)
            }
        },
        None => {
            proof {
                lemma_last_index(f@, '.');
            }
            f
        },
    }
}

/// Index of the first occurrence of a character; -1 when absent.
pub open spec fn first_index(s: Seq<char>, c: char) -> int
    decreases s.len(),
{
    if s.len() == 0 {
        -1
    } else if s[0] == c {
        0
    } else if first_index(s.drop_first(), c) < 0 {
        -1
    } else {
        1 + first_index(s.drop_first(), c)
    }
}

pub proof fn lemma_first_index(s: Seq<char>, c: char)
    ensures
        has_char(s, c) ==> {
            let fi = first_index(s, c);
            0 <= fi < s.len() && s[fi] == c && forall|k: int| 0 <= k < fi ==> s[k] != c
        },
        !has_char(s, c) ==> first_index(s, c) == -1,
    decreases s.len(),
{
    if s.len() > 0 {
        lemma_first_index(s.drop_first(), c);
        if s[0] != c {
            if has_char(s, c) {
                let i = choose|i: int| 0 <= i < s.len() && s[i] == c;
                assert(s.drop_first()[i - 1] == c);
                assert(has_char(s.drop_first(), c));
            }
            if has_char(s.drop_first(), c) {
                let j = choose|j: int| 0 <= j < s.drop_first().len() && s.drop_first()[j] == c;
                assert(s[j + 1] == c);
                assert(has_char(s, c));
                let fi = first_index(s, c);
                let fr = first_index(s.drop_first(), c);
                assert(fi == 1 + fr);
                assert(s[fi] == s.drop_first()[fr]);
                assert(forall|k: int| 0 < k < fi ==> #[trigger] s[k] == s.drop_first()[k - 1]);
            }
        }
    }
}

/// The segments of a path, split on `/`. A path with no `/` is one segment.
pub open spec fn split_slash(s: Seq<char>) -> Seq<Seq<char>>
    decreases s.len(),
{
    let i = first_index(s, '/');
    if 0 <= i < s.len() {
        seq![s.take(i)] + split_slash(s.skip(i + 1))
    } else {
        seq![s]
    }
}

proof fn lemma_split_slash_step(pre: Seq<char>, rest: Seq<char>)
    requires
        !has_char(pre, '/'),
    ensures
        split_slash(pre + seq!['/'] + rest) == seq![pre] + split_slash(rest),
{
    let s = pre + seq!['/'] + rest;
    assert(s[pre.len() as int] == '/');
    assert(has_char(s, '/'));
    lemma_first_index(s, '/');
    let fi = first_index(s, '/');
    assert(fi <= pre.len()) by {
        if fi > pre.len() {
            assert(s[pre.len() as int] != '/');
        }
    }
    assert(fi >= pre.len()) by {
        if fi < pre.len() {
            assert(s[fi] == pre[fi]);
            assert(has_char(pre, '/'));
        }
    }
    assert(s.take(fi) =~= pre);
    assert(s.skip(fi + 1) =~= rest);
}

/// The segments of a path, split on `/`.
pub fn path_segments(p: &str) -> (r: Vec<String>)
    ensures
        r.deep_view() == split_slash(p@),
{
    let n = p.unicode_len();
    let mut parts: Vec<String> = Vec::new();
    let mut cur = String::new();
    let mut i: usize = 0;
    proof {
        assert(cur@ + p@.skip(0) =~= p@);
        assert(parts.deep_view() + split_slash(p@) =~= split_slash(p@));
    }
    while i < n
        invariant
            n == p@.len(),
            i <= n,
            !has_char(cur@, '/'),
            split_slash(p@) == parts.deep_view() + split_slash(cur@ + p@.skip(i as int)),
        decreases n - i,
    {
        let c = p.get_char(i);
        let ghost prev_cur = cur@;
        let ghost prev_parts = parts.deep_view();
        if c == '/' {
            proof {
                assert(prev_cur + p@.skip(i as int) =~= prev_cur + seq!['/'] + p@.skip(i + 1));
                lemma_split_slash_step(prev_cur, p@.skip(i + 1));
            }
            parts.push(cur);
            cur = String::new();
            proof {
                assert(parts.deep_view() =~= prev_parts.push(prev_cur));
                assert(prev_parts + (seq![prev_cur] + split_slash(p@.skip(i + 1)))
                    =~= parts.deep_view() + split_slash(p@.skip(i + 1)));
                assert(cur@ + p@.skip(i + 1) =~= p@.skip(i + 1));
            }
        } else {
            push_char(&mut cur, c);
            proof {
                assert(prev_cur + p@.skip(i as int) =~= cur@ + p@.skip(i + 1));
            }
        }
        i = i + 1;
    }
    proof {
        assert(cur@ + p@.skip(n as int) =~= cur@);
        lemma_first_index(cur@, '/');
        assert(split_slash(cur@) == seq![cur@]);
    }
    let ghost prev_parts = parts.deep_view();
    let ghost last_cur = cur@;
    parts.push(cur);
    proof {
        assert(parts.deep_view() =~= prev_parts.push(last_cur));
        assert(prev_parts + seq![last_cur] =~= prev_parts.push(last_cur));
    }
    parts
}

} // verus!
