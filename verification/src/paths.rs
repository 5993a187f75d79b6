//! What the crate asks of std's `Path`: the extension and the stem of a file
//! name. How a path splits into components depends on the platform: `\` is a
//! separator on Windows only, Windows paths may start with a prefix (`C:`,
//! `\\server\share`, the verbatim `\\?\`, in which `/` is no separator), and
//! `..` names no file. The contracts here give the result where Unix and
//! Windows agree on it, and elsewhere only what holds on both.

use vstd::prelude::*;
use crate::text::occurs_at;

verus! {

/// A path separator on some platform.
pub open spec fn is_sep(c: char) -> bool {
    c == '/' || c == '\\'
}

/// The path starts with two separators, as a Windows UNC, device or verbatim
/// prefix does.
pub open spec fn starts_with_two_seps(p: Seq<char>) -> bool {
    p.len() >= 2 && is_sep(p[0]) && is_sep(p[1])
}

/// The index of the last `c` in `p`, or -1.
pub open spec fn last_index_of(p: Seq<char>, c: char) -> int
    decreases p.len(),
{
    if p.len() == 0 {
        -1
    } else if p.last() == c {
        p.len() - 1
    } else {
        last_index_of(p.drop_last(), c)
    }
}

/// The extension of `p` where Unix and Windows agree on it (`Some(..)`), or
/// `None` where they may differ. A path without `.` has no extension. Otherwise,
/// where the path does not start with two separators, its last `.` is preceded
/// by neither a separator nor `:` nor `.`, and no separator follows it, the
/// extension is what follows that `.`.
pub open spec fn common_extension(p: Seq<char>) -> Option<Option<Seq<char>>> {
    let k = last_index_of(p, '.');
    if k < 0 {
        Some(None)
    } else if !starts_with_two_seps(p) && k > 0 && !is_sep(p[k - 1]) && p[k - 1] != ':' && p[k - 1]
        != '.' && (forall|j: int| k < j < p.len() ==> !is_sep(#[trigger] p[j])) {
        Some(Some(p.skip(k + 1)))
    } else {
        None
    }
}

/// What holds of an extension that `Path::extension` reports for `p`: the
/// common extension where there is one; elsewhere either none, or text without
/// `.` that stands in `p` right after a `.`.
pub open spec fn possible_extension(p: Seq<char>, e: Option<Seq<char>>) -> bool {
    match common_extension(p) {
        Some(c) => e == c,
        None => match e {
            None => true,
            Some(x) => {
                &&& !x.contains('.')
                &&& exists|k: int| 0 <= k && k < p.len() && p[k] == '.' && occurs_at(p, x, k + 1)
            },
        },
    }
}

/// An extension that `possible_extension` admits for `p`.
pub open spec fn an_extension(p: Seq<char>) -> Option<Seq<char>> {
    match common_extension(p) {
        Some(c) => c,
        None => None,
    }
}

/// `p` without the `/`s at its end.
pub open spec fn strip_trailing_slashes(p: Seq<char>) -> Seq<char>
    decreases p.len(),
{
    if p.len() > 0 && p.last() == '/' {
        strip_trailing_slashes(p.drop_last())
    } else {
        p
    }
}

/// The file stem of `p` where Unix and Windows agree on it (`Some(..)`), or
/// `None` where they may differ. Trailing `/`s are ignored, as both platforms
/// ignore them. It is defined where the path does not start with two
/// separators and its last part (after the last remaining `/`) is not empty,
/// `.` or `..` and holds neither `\` nor `:`: the stem is that part up to its
/// last `.`, or the whole part where it has no `.` after its first character.
pub open spec fn common_file_stem(p: Seq<char>) -> Option<Option<Seq<char>>> {
    let q = strip_trailing_slashes(p);
    let seg = q.skip(last_index_of(q, '/') + 1);
    if !starts_with_two_seps(p) && seg.len() > 0 && seg != "."@ && seg != ".."@ && !seg.contains('\\')
        && !seg.contains(':') {
        let m = last_index_of(seg, '.');
        Some(
            Some(
                if m > 0 {
                    seg.take(m)
                } else {
                    seg
                },
            ),
        )
    } else {
        None
    }
}

/// A trailing `/` does not change the file stem: `p` and `p/` have the same
/// common stem (both none where the platforms may differ).
pub proof fn law_stem_ignores_trailing_slash(p: Seq<char>)
    ensures
        common_file_stem(p.push('/')) == common_file_stem(p),
{
    let q = p.push('/');
    assert(q.drop_last() =~= p);
    assert(strip_trailing_slashes(q) == strip_trailing_slashes(p));
    if p.len() == 1 && is_sep(p[0]) {
        if p[0] == '/' {
            assert(strip_trailing_slashes(p.drop_last()) == p.drop_last());
            assert(strip_trailing_slashes(p).len() == 0);
        } else {
            assert(strip_trailing_slashes(p) == p);
            assert(last_index_of(p.drop_last(), '/') == -1);
            assert(last_index_of(p, '/') == -1);
            assert(p.skip(0) == p);
            assert(p.skip(0).contains('\\')) by {
                assert(p.skip(0)[0] == '\\');
            }
        }
    } else if p.len() >= 2 {
        assert(q[0] == p[0] && q[1] == p[1]);
    }
}

/// A stem that `possible_file_stem` admits for `p`.
pub open spec fn a_file_stem(p: Seq<char>) -> Option<Seq<char>> {
    match common_file_stem(p) {
        Some(c) => c,
        None => None,
    }
}

/// What holds of a stem that `Path::file_stem` reports for `p`: the common stem
/// where there is one; elsewhere either none, or text that stands in `p`.
pub open spec fn possible_file_stem(p: Seq<char>, s: Option<Seq<char>>) -> bool {
    match common_file_stem(p) {
        Some(c) => s == c,
        None => match s {
            None => true,
            Some(x) => exists|k: int| occurs_at(p, x, k),
        },
    }
}

/// std's `Path::extension` on `p`, as a `String`. The contract gives the
/// extension where Unix and Windows agree on it (`common_extension`); where
/// they may differ it leaves open which extension, if any, is reported.
#[verifier::external_body]
pub fn path_extension(p: &str) -> (r: Option<String>)
    ensures
        possible_extension(
            p@,
            match r {
                Some(e) => Some(e@),
                None => None,
            },
        ),
{
    std::path::Path::new(p).extension().and_then(|e| e.to_str()).map(|e| e.to_string())
}

/// std's `Path::file_stem` on `p`, as a `String`. The contract gives the stem
/// where Unix and Windows agree on it (`common_file_stem`); where they may
/// differ it leaves open which stem, if any, is reported.
#[verifier::external_body]
pub fn path_file_stem(p: &str) -> (r: Option<String>)
    ensures
        possible_file_stem(
            p@,
            match r {
                Some(e) => Some(e@),
                None => None,
            },
        ),
{
    std::path::Path::new(p).file_stem().and_then(|e| e.to_str()).map(|e| e.to_string())
}

} // verus!
