//! The installed-apps list: desktop entries (Linux), the shell's AppsFolder
//! listing (Windows), the filter that drops non-apps, and the final ordering.

use vstd::prelude::*;
use vstd::string::StringSliceAdditionalSpecFns;
use vstd::utf8::encode_utf8;
use crate::paths::{an_extension, common_extension, path_extension, possible_extension};
use crate::text::{
    concat, find_char, next_index_of, chars_eq, chars_eq_ignore_ascii_case, chars_of, contains_chars, contains_seq,
    eq_ignore_ascii_case, has_prefix, is_group_header, lines, split_lines, starts_with, string_of,
    subvec, to_lowercase, trim, trim_chars, unicode_lowercase,
};

verus! {

/// An installed application: its display name and a launch target the OS
/// launcher understands (a filesystem path, a `shell:AppsFolder\<AUMID>`
/// string on Windows, or a `.desktop` path on Linux).
#[derive(Clone, Debug)]
pub struct AppEntry {
    pub name: String,
    pub path: String,
}

/// Whether an already lowercased name passes the filter of real apps: it
/// mentions no uninstaller, readme, help, documentation, manual, release notes
/// or website, and does not start with `license`.
pub open spec fn real_app_lowered(n: Seq<char>) -> bool {
    !(contains_seq(n, "uninstall"@) || contains_seq(n, "readme"@) || starts_with(n, "license"@)
        || contains_seq(n, "help"@) || contains_seq(n, "documentation"@) || contains_seq(
        n,
        "manual"@,
    ) || contains_seq(n, "release notes"@) || contains_seq(n, "on the web"@) || contains_seq(
        n,
        "website"@,
    ))
}

/// Whether a name, lowercased, passes the filter of real apps.
pub open spec fn real_app(name: Seq<char>) -> bool {
    real_app_lowered(unicode_lowercase(name))
}

/// The filter of real apps applied to a name that is already lowercase.
pub fn is_real_app_lowered(n: &str) -> (r: bool)
    ensures
        r == real_app_lowered(n@),
{
    let v = chars_of(n);
    !(contains_chars(&v, &chars_of("uninstall")) || contains_chars(&v, &chars_of("readme"))
        || has_prefix(&v, &chars_of("license")) || contains_chars(&v, &chars_of("help"))
        || contains_chars(&v, &chars_of("documentation")) || contains_chars(
        &v,
        &chars_of("manual"),
    ) || contains_chars(&v, &chars_of("release notes")) || contains_chars(
        &v,
        &chars_of("on the web"),
    ) || contains_chars(&v, &chars_of("website")))
}

/// Drops obvious non-app entries (docs, uninstallers, "... on the web", etc.).
pub fn is_real_app(name: &str) -> (r: bool)
    ensures
        r == real_app(name@),
{
    let lowered = to_lowercase(name);
    is_real_app_lowered(&lowered)
}

/// An ASCII letter byte.
pub open spec fn is_ascii_alpha(b: u8) -> bool {
    (65 <= b && b <= 90) || (97 <= b && b <= 122)
}

/// Whether UTF-8 bytes look like a filesystem path: a drive letter, `:` and a
/// separator (`C:\`, `C:/`), or a UNC path starting with `\\`.
pub open spec fn fs_path_bytes(b: Seq<u8>) -> bool {
    (b.len() >= 3 && is_ascii_alpha(b[0]) && b[1] == 58 && (b[2] == 92 || b[2] == 47)) || (
    b.len() >= 2 && b[0] == 92 && b[1] == 92)
}

/// Whether `p` is a filesystem path (rather than an AppUserModelID).
pub fn is_fs_path(p: &str) -> (r: bool)
    ensures
        r == fs_path_bytes(p.spec_bytes()),
{
    let b = p.as_bytes();
    let drive = b.len() >= 3 && ((65 <= b[0] && b[0] <= 90) || (97 <= b[0] && b[0] <= 122))
        && b[1] == 58 && (b[2] == 92 || b[2] == 47);
    drive || (b.len() >= 2 && b[0] == 92 && b[1] == 92)
}

/// Whether extension `e` is one of `exts`, ignoring ASCII case; no extension
/// matches nothing.
pub open spec fn ext_listed(e: Option<Seq<char>>, exts: Seq<Seq<char>>) -> bool {
    match e {
        Some(x) => exists|i: int| 0 <= i < exts.len() && eq_ignore_ascii_case(x, #[trigger] exts[i]),
        None => false,
    }
}

/// The characters of each of `exts`.
pub open spec fn str_views(exts: Seq<&str>) -> Seq<Seq<char>> {
    exts.map_values(|x: &str| x@)
}

/// Whether extension `e` is one of `exts`, ignoring ASCII case.
pub fn ext_in_list(e: Option<&str>, exts: &[&str]) -> (r: bool)
    ensures
        r == ext_listed(
            match e {
                Some(x) => Some(x@),
                None => None,
            },
            str_views(exts@),
        ),
{
    match e {
        None => false,
        Some(x) => {
            let xv = chars_of(x);
            let mut i: usize = 0;
            while i < exts.len()
                invariant
                    xv@ == x@,
                    e == Some(x),
                    i <= exts@.len(),
                    forall|j: int| 0 <= j < i ==> !eq_ignore_ascii_case(x@, #[trigger] str_views(exts@)[j]),
                decreases exts.len() - i,
            {
                if chars_eq_ignore_ascii_case(&xv, &chars_of(exts[i])) {
                    proof {
                        assert(eq_ignore_ascii_case(x@, str_views(exts@)[i as int]));

                    }
                    return true;
                }
                i = i + 1;
            }
            false
        },
    }
}

/// Whether the extension of `path` is one of `exts`, ignoring ASCII case. The
/// extension is the one std's `Path` finds on this platform; where Unix and
/// Windows agree on it (`common_extension`), the answer is fixed.
pub fn has_any_ext(path: &str, exts: &[&str]) -> (r: bool)
    ensures
        exists|e: Option<Seq<char>>|
            possible_extension(path@, e) && r == ext_listed(e, str_views(exts@)),
        common_extension(path@) matches Some(c) ==> r == ext_listed(c, str_views(exts@)),
{
    let e = path_extension(path);
    let r = match &e {
        Some(x) => ext_in_list(Some(x.as_str()), exts),
        None => ext_in_list(None, exts),
    };
    proof {
        let ev = match e {
            Some(x) => Some(x@),
            None => None,
        };
        assert(possible_extension(path@, ev) && r == ext_listed(ev, str_views(exts@)));
    }
    r
}

/// Whether the extension of `path` is `ext`, ignoring ASCII case. The extension
/// is the one std's `Path` finds on this platform; where Unix and Windows agree
/// on it (`common_extension`), the answer is fixed.
pub fn has_ext(path: &str, ext: &str) -> (r: bool)
    ensures
        exists|e: Option<Seq<char>>|
            possible_extension(path@, e) && r == (e matches Some(x) && eq_ignore_ascii_case(
                x,
                ext@,
            )),
        common_extension(path@) matches Some(c) ==> r == (c matches Some(x) && eq_ignore_ascii_case(
            x,
            ext@,
        )),
{
    let e = path_extension(path);
    match e {
        Some(x) => {
            let r = chars_eq_ignore_ascii_case(&chars_of(x.as_str()), &chars_of(ext));
            proof {
                assert(possible_extension(path@, Some(x@)));
            }
            r
        },
        None => false,
    }
}


/// How deep the scan for Start-Menu shortcuts descends below each root.
pub const LNK_SCAN_DEPTH: usize = 6;

/// How deep the scan for desktop entries descends below each directory.
pub const DESKTOP_SCAN_DEPTH: usize = 4;

/// What a directory scan does with one entry it meets.
#[derive(Clone, Copy, PartialEq, Eq, Structural, Debug)]
pub enum WalkStep {
    /// Scan the directory one level deeper.
    Descend,
    /// Read the file: it has the extension sought.
    Consider,
    /// Pass over it.
    Skip,
}

/// Whether a scan at `depth` (the root is at 0) goes on: only down to `limit`.
pub fn within_depth(depth: usize, limit: usize) -> (r: bool)
    ensures
        r == (depth <= limit),
{
    depth <= limit
}

/// What a scan for files with extension `ext` does with the entry at `path`:
/// descends into a directory, considers a file with that extension (ignoring
/// ASCII case), passes over anything else.
pub fn walk_entry(is_dir: bool, path: &str, ext: &str) -> (r: WalkStep)
    ensures
        is_dir ==> r == WalkStep::Descend,
        !is_dir ==> exists|e: Option<Seq<char>>|
            possible_extension(path@, e) && (r == WalkStep::Consider) == (e matches Some(x)
                && eq_ignore_ascii_case(x, ext@)) && r != WalkStep::Descend,
        !is_dir ==> (common_extension(path@) matches Some(c) ==> ((r == WalkStep::Consider) == (
        c matches Some(x) && eq_ignore_ascii_case(x, ext@)))),
{
    if is_dir {
        WalkStep::Descend
    } else if has_ext(path, ext) {
        WalkStep::Consider
    } else {
        WalkStep::Skip
    }
}

/// Scanning `s` for pieces separated by `c`: the non-empty pieces already
/// closed, and the piece being read.
pub open spec fn pieces(s: Seq<char>, c: char) -> (Seq<Seq<char>>, Seq<char>)
    decreases s.len(),
{
    if s.len() == 0 {
        (seq![], seq![])
    } else {
        let (done, cur) = pieces(s.drop_last(), c);
        if s.last() == c {
            (
                if cur.len() > 0 {
                    done.push(cur)
                } else {
                    done
                },
                seq![],
            )
        } else {
            (done, cur.push(s.last()))
        }
    }
}

/// The non-empty pieces of `s` between the separators `c`, in order.
pub open spec fn nonempty_pieces(s: Seq<char>, c: char) -> Seq<Seq<char>> {
    let (done, cur) = pieces(s, c);
    if cur.len() > 0 {
        done.push(cur)
    } else {
        done
    }
}

/// The directories listed in an `XDG_DATA_DIRS` value: its non-empty pieces
/// between `:`, in order.
pub fn xdg_data_dirs(value: &str) -> (r: Vec<String>)
    ensures
        r.len() == nonempty_pieces(value@, ':').len(),
        forall|i: int| 0 <= i < r.len() ==> #[trigger] r[i]@ == nonempty_pieces(value@, ':')[i],
{
    let v = chars_of(value);
    let mut r: Vec<String> = Vec::new();
    let mut cur: Vec<char> = Vec::new();
    let mut i: usize = 0;
    while i < v.len()
        invariant
            v@ == value@,
            i <= v.len(),
            r.len() == pieces(v@.take(i as int), ':').0.len(),
            forall|j: int| 0 <= j < r.len() ==> #[trigger] r[j]@ == pieces(v@.take(i as int), ':').0[j],
            cur@ == pieces(v@.take(i as int), ':').1,
        decreases v.len() - i,
    {
        proof {
            assert(v@.take(i + 1).drop_last() == v@.take(i as int));
            assert(v@.take(i + 1).last() == v@[i as int]);
        }
        if v[i] == ':' {
            if cur.len() > 0 {
                r.push(string_of(&cur));
            }
            cur = Vec::new();
        } else {
            cur.push(v[i]);
        }
        i = i + 1;
    }
    proof {
        assert(v@.take(i as int) == v@);
    }
    if cur.len() > 0 {
        r.push(string_of(&cur));
    }
    r
}

/// What a scan of a desktop entry has seen so far: whether it is inside the
/// `[Desktop Entry]` group, the first `Name`, whether the `Type` is
/// `Application` (assumed when absent), and whether `NoDisplay` or `Hidden` was
/// `true`.
pub struct DesktopScan {
    pub in_entry: bool,
    pub name: Option<Seq<char>>,
    pub is_app: bool,
    pub hidden: bool,
}

/// The state before any line is read.
pub open spec fn desktop_scan_start() -> DesktopScan {
    DesktopScan { in_entry: false, name: None, is_app: true, hidden: false }
}

/// Whether the value of a key is `true`, ignoring surrounding whitespace and ASCII case.
pub open spec fn value_is_true(v: Seq<char>) -> bool {
    eq_ignore_ascii_case(trim(v), "true"@)
}

/// The state after one line of the `[Desktop Entry]` group (`l` trimmed).
pub open spec fn desktop_entry_line(st: DesktopScan, l: Seq<char>) -> DesktopScan {
    if starts_with(l, "Name="@) {
        if st.name is None {
            DesktopScan { name: Some(trim(l.skip(5))), ..st }
        } else {
            st
        }
    } else if starts_with(l, "Type="@) {
        DesktopScan { is_app: eq_ignore_ascii_case(trim(l.skip(5)), "Application"@), ..st }
    } else if starts_with(l, "NoDisplay="@) {
        if value_is_true(l.skip(10)) {
            DesktopScan { hidden: true, ..st }
        } else {
            st
        }
    } else if starts_with(l, "Hidden="@) {
        if value_is_true(l.skip(7)) {
            DesktopScan { hidden: true, ..st }
        } else {
            st
        }
    } else {
        st
    }
}

/// The state after reading the lines `ls` from state `st`. Only the
/// `[Desktop Entry]` group counts: the scan ends at the header of the group
/// that follows it.
pub open spec fn scan_desktop(ls: Seq<Seq<char>>, st: DesktopScan) -> DesktopScan
    decreases ls.len(),
{
    if ls.len() == 0 {
        st
    } else {
        let l = trim(ls[0]);
        if is_group_header(l) {
            if l == "[Desktop Entry]"@ {
                scan_desktop(ls.drop_first(), DesktopScan { in_entry: true, ..st })
            } else if st.in_entry {
                st
            } else {
                scan_desktop(ls.drop_first(), st)
            }
        } else if !st.in_entry {
            scan_desktop(ls.drop_first(), st)
        } else {
            scan_desktop(ls.drop_first(), desktop_entry_line(st, l))
        }
    }
}

/// The display name of a desktop entry's text: its `Name`, where the entry is
/// a visible application; `None` where it is hidden, not an application, or
/// has no name.
pub open spec fn desktop_name_of(content: Seq<char>) -> Option<Seq<char>> {
    let st = scan_desktop(lines(content), desktop_scan_start());
    if st.hidden || !st.is_app {
        None
    } else {
        st.name
    }
}

spec fn scan_view(in_entry: bool, name: Option<Vec<char>>, is_app: bool, hidden: bool) -> DesktopScan {
    DesktopScan {
        in_entry,
        name: match name {
            Some(v) => Some(v@),
            None => None,
        },
        is_app,
        hidden,
    }
}

/// The value after a key of `klen` characters, trimmed.
fn value_after(l: &Vec<char>, klen: usize) -> (r: Vec<char>)
    requires
        klen <= l.len(),
    ensures
        r@ == trim(l@.skip(klen as int)),
{
    proof {
        assert(l@.skip(klen as int) == l@.subrange(klen as int, l@.len() as int));
    }
    trim_chars(&subvec(l, klen, l.len()))
}

/// Returns the display `Name` of a *visible* `Application` desktop entry, given
/// the entry's text, else `None`.
pub fn parse_desktop_name(content: &str) -> (r: Option<String>)
    ensures
        match r {
            Some(x) => desktop_name_of(content@) == Some(x@),
            None => desktop_name_of(content@) is None,
        },
{
    let ls = split_lines(&chars_of(content));
    let header = chars_of("[Desktop Entry]");
    let k_name = chars_of("Name=");
    let k_type = chars_of("Type=");
    let k_nodisplay = chars_of("NoDisplay=");
    let k_hidden = chars_of("Hidden=");
    let v_app = chars_of("Application");
    let v_true = chars_of("true");
    let mut in_entry = false;
    let mut name: Option<Vec<char>> = None;
    let mut is_app = true;
    let mut hidden = false;
    let ghost all = lines(content@);
    proof {
        assert(all.skip(0) == all);
        reveal_strlit("Name=");
        reveal_strlit("Type=");
        reveal_strlit("NoDisplay=");
        reveal_strlit("Hidden=");
    }
    let mut i: usize = 0;
    while i < ls.len()
        invariant
            ls.len() == all.len(),
            forall|j: int| 0 <= j < ls.len() ==> #[trigger] ls[j]@ == all[j],
            header@ == "[Desktop Entry]"@,
            k_name@ == "Name="@,
            k_type@ == "Type="@,
            k_nodisplay@ == "NoDisplay="@,
            k_hidden@ == "Hidden="@,
            k_name.len() == 5,
            k_type.len() == 5,
            k_nodisplay.len() == 10,
            k_hidden.len() == 7,
            v_app@ == "Application"@,
            v_true@ == "true"@,
            i <= ls.len(),
            scan_desktop(all, desktop_scan_start()) == scan_desktop(
                all.skip(i as int),
                scan_view(in_entry, name, is_app, hidden),
            ),
        ensures
            scan_desktop(all, desktop_scan_start()) == scan_view(in_entry, name, is_app, hidden),
        decreases ls.len() - i,
    {
        let l = trim_chars(&ls[i]);
        let ghost st = scan_view(in_entry, name, is_app, hidden);
        proof {
            assert(all.skip(i as int)[0] == ls[i as int]@);
            assert(all.skip(i as int).drop_first() == all.skip(i + 1));
        }
        if l.len() > 0 && l[0] == '[' {
            if chars_eq(&l, &header) {
                in_entry = true;
            } else if in_entry {
                break;
            }
        } else if in_entry {
            if has_prefix(&l, &k_name) {
                if name.is_none() {
                    name = Some(value_after(&l, 5));
                }
            } else if has_prefix(&l, &k_type) {
                is_app = chars_eq_ignore_ascii_case(&value_after(&l, 5), &v_app);
            } else if has_prefix(&l, &k_nodisplay) {
                if chars_eq_ignore_ascii_case(&value_after(&l, 10), &v_true) {
                    hidden = true;
                }
            } else if has_prefix(&l, &k_hidden) {
                if chars_eq_ignore_ascii_case(&value_after(&l, 7), &v_true) {
                    hidden = true;
                }
            }
            proof {
                assert(scan_view(in_entry, name, is_app, hidden) == desktop_entry_line(st, l@));
            }
        }
        i = i + 1;
    }
    if hidden || !is_app {
        return None;
    }
    match name {
        Some(v) => Some(string_of(&v)),
        None => None,
    }
}


/// The extensions of documents and installers that the AppsFolder listing may
/// hold but that are not apps.
pub open spec fn document_exts() -> Seq<Seq<char>> {
    seq!["html"@, "htm"@, "txt"@, "chm"@, "pdf"@, "md"@, "url"@, "msi"@, "ini"@]
}

/// `s` without the `'\r'`s at its end.
pub open spec fn trim_end_cr(s: Seq<char>) -> Seq<char>
    decreases s.len(),
{
    if s.len() > 0 && s.last() == '\r' {
        trim_end_cr(s.drop_last())
    } else {
        s
    }
}

/// A line of the listing, trimmed.
pub open spec fn folder_line(line: Seq<char>) -> Seq<char> {
    trim(trim_end_cr(line))
}

/// The index of the first `|` in a trimmed line (its length if none).
pub open spec fn folder_bar(l: Seq<char>) -> int {
    next_index_of(l, '|', 0)
}

/// The launch path part of a line (before the first `|`), trimmed.
pub open spec fn folder_raw(line: Seq<char>) -> Seq<char> {
    let l = folder_line(line);
    trim(l.take(folder_bar(l)))
}

/// The name part of a line (after the first `|`), trimmed.
pub open spec fn folder_name(line: Seq<char>) -> Seq<char> {
    let l = folder_line(line);
    trim(l.skip(folder_bar(l) + 1))
}

/// The `(name, path)` that one `Path|Name` line of the AppsFolder listing gives,
/// where `ext` is the extension of its path: none for a blank line, one without
/// `|`, or one with an empty part; none for a filesystem path to a document or
/// installer; the path itself for any other filesystem path; and
/// `shell:AppsFolder\<id>` for an AppUserModelID.
pub open spec fn folder_item(line: Seq<char>, ext: Option<Seq<char>>) -> Option<(Seq<char>, Seq<char>)> {
    let l = folder_line(line);
    let raw = folder_raw(line);
    let name = folder_name(line);
    if l.len() == 0 || folder_bar(l) >= l.len() || raw.len() == 0 || name.len() == 0 {
        None
    } else if fs_path_bytes(encode_utf8(raw)) {
        if ext_listed(ext, document_exts()) {
            None
        } else {
            Some((name, raw))
        }
    } else {
        Some((name, "shell:AppsFolder\\"@ + raw))
    }
}

/// Whether `out` is what a line gives for an extension that std's `Path` may
/// report for its path on some platform.
pub open spec fn folder_item_possible(line: Seq<char>, out: Option<(Seq<char>, Seq<char>)>) -> bool {
    exists|e: Option<Seq<char>>| possible_extension(folder_raw(line), e) && out == folder_item(line, e)
}

/// The name and path of an entry.
pub open spec fn entry_view(e: AppEntry) -> (Seq<char>, Seq<char>) {
    (e.name@, e.path@)
}

/// The name and path of an entry, if any.
pub open spec fn item_view(o: Option<AppEntry>) -> Option<(Seq<char>, Seq<char>)> {
    match o {
        Some(e) => Some(entry_view(e)),
        None => None,
    }
}

/// The names and paths of entries, in order.
pub open spec fn entries_view(es: Seq<AppEntry>) -> Seq<(Seq<char>, Seq<char>)> {
    es.map_values(|e: AppEntry| entry_view(e))
}

/// The present values of `outs`, in order.
pub open spec fn somes<T>(outs: Seq<Option<T>>) -> Seq<T>
    decreases outs.len(),
{
    if outs.len() == 0 {
        seq![]
    } else {
        somes(outs.drop_last()) + match outs.last() {
            Some(x) => seq![x],
            None => seq![],
        }
    }
}

fn document_ext_list() -> (v: Vec<&'static str>)
    ensures
        str_views(v@) == document_exts(),
{
    let mut v: Vec<&'static str> = Vec::new();
    v.push("html");
    v.push("htm");
    v.push("txt");
    v.push("chm");
    v.push("pdf");
    v.push("md");
    v.push("url");
    v.push("msi");
    v.push("ini");
    proof {
        assert(str_views(v@) =~= document_exts());
    }
    v
}

/// The entry one line of the AppsFolder listing gives.
fn apps_folder_item(line: &Vec<char>, docs: &Vec<&str>) -> (r: Option<AppEntry>)
    requires
        str_views(docs@) == document_exts(),
    ensures
        folder_item_possible(line@, item_view(r)),
{
    let mut end = line.len();
    proof {
        assert(line@.take(line@.len() as int) == line@);
    }
    while end > 0 && line[end - 1] == '\r'
        invariant
            end <= line.len(),
            trim_end_cr(line@) == trim_end_cr(line@.take(end as int)),
        decreases end,
    {
        proof {
            assert(line@.take(end as int).drop_last() == line@.take(end - 1));
        }
        end = end - 1;
    }
    proof {
        assert(trim_end_cr(line@.take(end as int)) == line@.take(end as int));
    }
    let l = trim_chars(&subvec(line, 0, end));
    let ghost gl = folder_line(line@);
    proof {
        assert(line@.subrange(0, end as int) == line@.take(end as int));
        assert(l@ == gl);
        assert(possible_extension(folder_raw(line@), an_extension(folder_raw(line@))));
    }
    if l.len() == 0 {
        proof {
            assert(folder_item(line@, an_extension(folder_raw(line@))) is None);
        }
        return None;
    }
    let bar = find_char(&l, '|', 0);
    if bar == l.len() {
        proof {
            assert(folder_item(line@, an_extension(folder_raw(line@))) is None);
        }
        return None;
    }
    let raw = trim_chars(&subvec(&l, 0, bar));
    let name = trim_chars(&subvec(&l, bar + 1, l.len()));
    proof {
        assert(l@.subrange(0, bar as int) == l@.take(bar as int));
        assert(l@.subrange(bar + 1, l@.len() as int) == l@.skip(bar + 1));
        assert(raw@ == folder_raw(line@));
        assert(name@ == folder_name(line@));
    }
    if raw.len() == 0 || name.len() == 0 {
        proof {
            assert(folder_item(line@, an_extension(folder_raw(line@))) is None);
        }
        return None;
    }
    let raw_s = string_of(&raw);
    let name_s = string_of(&name);
    if is_fs_path(&raw_s) {
        let doc = has_any_ext(&raw_s, docs.as_slice());
        proof {
            let e = choose|e: Option<Seq<char>>|
                possible_extension(raw_s@, e) && doc == ext_listed(e, str_views(docs@));
            assert(possible_extension(folder_raw(line@), e));
        }
        if doc {
            proof {
                let e = choose|e: Option<Seq<char>>|
                    possible_extension(raw_s@, e) && doc == ext_listed(e, str_views(docs@));
                assert(folder_item(line@, e) is None);
            }
            None
        } else {
            let r = AppEntry { name: name_s, path: raw_s };
            proof {
                let e = choose|e: Option<Seq<char>>|
                    possible_extension(raw@, e) && doc == ext_listed(e, str_views(docs@));
                assert(Some(entry_view(r)) == folder_item(line@, e));
            }
            Some(r)
        }
    } else {
        let path = concat("shell:AppsFolder\\", &raw_s);
        let r = AppEntry { name: name_s, path };
        proof {
            assert(Some(entry_view(r)) == folder_item(line@, an_extension(folder_raw(line@))));
        }
        Some(r)
    }
}

/// The apps of the shell AppsFolder listing (one `Path|Name` line per app, as
/// the PowerShell query prints it). A filesystem path is kept as it is, unless
/// it leads to a document or installer; an AppUserModelID is launched through
/// `shell:AppsFolder\<id>`.
pub fn parse_apps_folder(text: &str) -> (r: Vec<AppEntry>)
    ensures
        exists|outs: Seq<Option<(Seq<char>, Seq<char>)>>|
            {
                &&& outs.len() == lines(text@).len()
                &&& forall|i: int|
                    0 <= i < outs.len() ==> folder_item_possible(
                        #[trigger] lines(text@)[i],
                        outs[i],
                    )
                &&& entries_view(r@) == somes(outs)
            },
{
    let ls = split_lines(&chars_of(text));
    let docs = document_ext_list();
    let mut r: Vec<AppEntry> = Vec::new();
    let ghost mut outs: Seq<Option<(Seq<char>, Seq<char>)>> = seq![];
    let ghost all = lines(text@);
    let mut i: usize = 0;
    while i < ls.len()
        invariant
            ls.len() == all.len(),
            all == lines(text@),
            forall|j: int| 0 <= j < ls.len() ==> #[trigger] ls[j]@ == all[j],
            str_views(docs@) == document_exts(),
            i <= ls.len(),
            outs.len() == i,
            forall|j: int| 0 <= j < i ==> folder_item_possible(#[trigger] all[j], outs[j]),
            entries_view(r@) == somes(outs),
        decreases ls.len() - i,
    {
        let item = apps_folder_item(&ls[i], &docs);
        let ghost out = item_view(item);
        proof {
            assert(somes(outs.push(out)) == somes(outs) + match out {
                Some(x) => seq![x],
                None => seq![],
            }) by {
                assert(outs.push(out).drop_last() == outs);
            }
        }
        let ghost prev = r@;
        match item {
            Some(e) => {
                r.push(e);
                proof {
                    assert(entries_view(r@) =~= entries_view(prev).push(entry_view(e)));
                }
            },
            None => {},
        }
        proof {
            outs = outs.push(out);
        }
        i = i + 1;
    }
    r
}


/// A listing line whose path is a filesystem path with extension `html`,
/// `htm`, `txt`, `chm`, `pdf`, `md`, `url`, `msi` or `ini` (in any ASCII case)
/// gives no entry: it is a document or an installer, not an app.
pub proof fn law_documents_dropped(line: Seq<char>, x: Seq<char>)
    requires
        fs_path_bytes(encode_utf8(folder_raw(line))),
        eq_ignore_ascii_case(x, "html"@) || eq_ignore_ascii_case(x, "htm"@) || eq_ignore_ascii_case(
            x,
            "txt"@,
        ) || eq_ignore_ascii_case(x, "chm"@) || eq_ignore_ascii_case(x, "pdf"@)
            || eq_ignore_ascii_case(x, "md"@) || eq_ignore_ascii_case(x, "url"@)
            || eq_ignore_ascii_case(x, "msi"@) || eq_ignore_ascii_case(x, "ini"@),
    ensures
        folder_item(line, Some(x)) is None,
{
    let d = document_exts();
    assert(d[0] == "html"@ && d[1] == "htm"@ && d[2] == "txt"@ && d[3] == "chm"@ && d[4] == "pdf"@);
    assert(d[5] == "md"@ && d[6] == "url"@ && d[7] == "msi"@ && d[8] == "ini"@);
    assert(ext_listed(Some(x), d));
}

/// A well-formed listing line whose path is a filesystem path with no
/// extension, or with one that is none of those nine (in any ASCII case), gives
/// the entry of its name and path.
pub proof fn law_other_files_kept(line: Seq<char>, e: Option<Seq<char>>)
    requires
        folder_line(line).len() > 0,
        folder_bar(folder_line(line)) < folder_line(line).len(),
        folder_raw(line).len() > 0,
        folder_name(line).len() > 0,
        fs_path_bytes(encode_utf8(folder_raw(line))),
        e matches Some(x) ==> !(eq_ignore_ascii_case(x, "html"@) || eq_ignore_ascii_case(x, "htm"@)
            || eq_ignore_ascii_case(x, "txt"@) || eq_ignore_ascii_case(x, "chm"@)
            || eq_ignore_ascii_case(x, "pdf"@) || eq_ignore_ascii_case(x, "md"@)
            || eq_ignore_ascii_case(x, "url"@) || eq_ignore_ascii_case(x, "msi"@)
            || eq_ignore_ascii_case(x, "ini"@)),
    ensures
        folder_item(line, e) == Some((folder_name(line), folder_raw(line))),
{
    let d = document_exts();
    assert(d.len() == 9);
    assert(d[0] == "html"@ && d[1] == "htm"@ && d[2] == "txt"@ && d[3] == "chm"@ && d[4] == "pdf"@);
    assert(d[5] == "md"@ && d[6] == "url"@ && d[7] == "msi"@ && d[8] == "ini"@);
    if let Some(x) = e {
        assert forall|i: int| 0 <= i < d.len() implies !eq_ignore_ascii_case(x, #[trigger] d[i]) by {
            if i == 0 {} else if i == 1 {} else if i == 2 {} else if i == 3 {} else if i == 4 {}
            else if i == 5 {} else if i == 6 {} else if i == 7 {} else {}
        }
    }
}

} // verus!
