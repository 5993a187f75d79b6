//! The final shape of the installed-apps list: sorted by lowercase name, with
//! case-insensitive duplicates (equal lowercase names) dropped, and the
//! per-platform assembly.

use vstd::prelude::*;
use crate::apps::{is_real_app, real_app, AppEntry};
use crate::text::{
    chars_eq, chars_of, lemma_take_skip_step, occurs_at, starts_with, to_lowercase, unicode_lowercase,
};

verus! {

/// `a` comes before `b`, or equals it, in the lexicographic order of code
/// points (the order of `str`'s `Ord`, since UTF-8 keeps the order of code
/// points).
pub open spec fn lex_le(a: Seq<char>, b: Seq<char>) -> bool
    decreases a.len(),
{
    if a.len() == 0 {
        true
    } else if b.len() == 0 {
        false
    } else if a[0] < b[0] {
        true
    } else if a[0] > b[0] {
        false
    } else {
        lex_le(a.drop_first(), b.drop_first())
    }
}

/// The key the list is sorted by: the lowercase name.
pub open spec fn sort_key(e: AppEntry) -> Seq<char> {
    unicode_lowercase(e.name@)
}

/// `s` with `x` inserted after every element whose key is not greater than
/// the key of `x`, as a stable insertion does.
pub open spec fn insert_by_name(s: Seq<AppEntry>, x: AppEntry) -> Seq<AppEntry>
    decreases s.len(),
{
    if s.len() == 0 {
        seq![x]
    } else if lex_le(sort_key(s.last()), sort_key(x)) {
        s.push(x)
    } else {
        insert_by_name(s.drop_last(), x).push(s.last())
    }
}

/// `s` stably sorted by lowercase name: entries with equal keys keep their order.
pub open spec fn sort_by_name(s: Seq<AppEntry>) -> Seq<AppEntry>
    decreases s.len(),
{
    if s.len() == 0 {
        seq![]
    } else {
        insert_by_name(sort_by_name(s.drop_last()), s.last())
    }
}

/// `s` without each entry whose lowercase name equals that of the last entry
/// kept before it (after sorting, the case-insensitive duplicates).
pub open spec fn dedup_names(s: Seq<AppEntry>) -> Seq<AppEntry>
    decreases s.len(),
{
    if s.len() == 0 {
        seq![]
    } else {
        let d = dedup_names(s.drop_last());
        if d.len() > 0 && sort_key(s.last()) == sort_key(d.last()) {
            d
        } else {
            d.push(s.last())
        }
    }
}

/// The list sorted by lowercase name with case-insensitive duplicates dropped.
pub open spec fn finalized(s: Seq<AppEntry>) -> Seq<AppEntry> {
    dedup_names(sort_by_name(s))
}

/// Whether `a` comes before `b`, or equals it, in the lexicographic order of code points.
pub fn lex_le_chars(a: &Vec<char>, b: &Vec<char>) -> (r: bool)
    ensures
        r == lex_le(a@, b@),
{
    let mut i: usize = 0;
    proof {
        assert(a@.skip(0) == a@);
        assert(b@.skip(0) == b@);
    }
    while i < a.len() && i < b.len() && a[i] == b[i]
        invariant
            i <= a.len(),
            i <= b.len(),
            lex_le(a@, b@) == lex_le(a@.skip(i as int), b@.skip(i as int)),
        decreases a.len() - i,
    {
        proof {
            assert(a@.skip(i as int).drop_first() == a@.skip(i + 1));
            assert(b@.skip(i as int).drop_first() == b@.skip(i + 1));
        }
        i = i + 1;
    }
    proof {
        if i < a.len() && i < b.len() {
            assert(a@.skip(i as int)[0] == a@[i as int]);
            assert(b@.skip(i as int)[0] == b@[i as int]);
            assert(a@[i as int] != b@[i as int]);
        }
    }
    if i == a.len() {
        true
    } else if i == b.len() {
        false
    } else {
        a[i] < b[i]
    }
}

/// Inserting at `j` is the stable insertion when `j` follows the last element
/// whose key is not greater than that of `x`.
proof fn lemma_insert_at(s: Seq<AppEntry>, x: AppEntry, j: int)
    requires
        0 <= j <= s.len(),
        forall|t: int| j <= t < s.len() ==> !lex_le(sort_key(#[trigger] s[t]), sort_key(x)),
        j > 0 ==> lex_le(sort_key(s[j - 1]), sort_key(x)),
    ensures
        insert_by_name(s, x) == s.insert(j, x),
    decreases s.len(),
{
    if s.len() == 0 {
        assert(s.insert(j, x) =~= seq![x]);
    } else if j == s.len() {
        assert(s.insert(j, x) =~= s.push(x));
    } else {
        assert(!lex_le(sort_key(s[s.len() - 1]), sort_key(x)));
        let d = s.drop_last();
        assert forall|t: int| j <= t < d.len() implies !lex_le(sort_key(#[trigger] d[t]), sort_key(x)) by {
            assert(d[t] == s[t]);
        }
        lemma_insert_at(d, x, j);
        assert(d.insert(j, x).push(s.last()) =~= s.insert(j, x));
    }
}

/// Sorts by lowercase name (stably) and drops case-insensitive duplicates:
/// of the entries with equal lowercase names, the first one is kept.
pub fn finalize(out: &mut Vec<AppEntry>)
    ensures
        final(out)@ == finalized(old(out)@),
{
    let ghost orig = out@;
    let mut src: Vec<AppEntry> = Vec::new();
    std::mem::swap(out, &mut src);
    let mut sorted: Vec<AppEntry> = Vec::new();
    let mut keys: Vec<Vec<char>> = Vec::new();
    let ghost mut k: int = 0;
    proof {
        assert(orig.skip(0) == orig);
        assert(orig.take(0) =~= Seq::<AppEntry>::empty());
    }
    while src.len() > 0
        invariant
            0 <= k <= orig.len(),
            src@ == orig.skip(k),
            sorted@ == sort_by_name(orig.take(k)),
            keys.len() == sorted.len(),
            forall|t: int| 0 <= t < keys.len() ==> #[trigger] keys[t]@ == sort_key(sorted[t]),
        decreases src.len(),
    {
        let x = src.remove(0);
        let kx = chars_of(&to_lowercase(&x.name));
        let mut j = sorted.len();
        while j > 0 && !lex_le_chars(&keys[j - 1], &kx)
            invariant
                j <= sorted.len(),
                keys.len() == sorted.len(),
                forall|t: int| 0 <= t < keys.len() ==> #[trigger] keys[t]@ == sort_key(sorted[t]),
                kx@ == sort_key(x),
                forall|t: int| j <= t < sorted.len() ==> !lex_le(sort_key(#[trigger] sorted@[t]), sort_key(x)),
            decreases j,
        {
            j = j - 1;
        }
        proof {
            lemma_insert_at(sorted@, x, j as int);
            lemma_take_skip_step(orig, k);
        }
        let ghost ks = keys@;
        let ghost ss = sorted@;
        sorted.insert(j, x);
        keys.insert(j, kx);
        proof {
            assert forall|t: int| 0 <= t < keys.len() implies #[trigger] keys[t]@ == sort_key(sorted[t]) by {
                if t < j {
                    assert(keys[t] == ks[t]);
                    assert(sorted[t] == ss[t]);
                } else if t > j {
                    assert(keys[t] == ks[t - 1]);
                    assert(sorted[t] == ss[t - 1]);
                }
            }
            k = k + 1;
        }
    }
    proof {
        assert(orig.take(k) == orig);
    }
    let mut result: Vec<AppEntry> = Vec::new();
    let mut i: usize = 0;
    let mut last: usize = 0;
    let ghost sv = sorted@;
    let mut rest = sorted;
    proof {
        assert(sv.take(0) =~= Seq::<AppEntry>::empty());
    }
    while rest.len() > 0
        invariant
            i <= sv.len(),
            rest@ == sv.skip(i as int),
            i + rest.len() == sv.len(),
            sv.len() <= usize::MAX,
            keys.len() == sv.len(),
            forall|t: int| 0 <= t < keys.len() ==> #[trigger] keys[t]@ == sort_key(sv[t]),
            result@ == dedup_names(sv.take(i as int)),
            result.len() > 0 ==> last < i && keys[last as int]@ == sort_key(result@.last()),
        decreases rest.len(),
    {
        let x = rest.remove(0);
        proof {
            lemma_take_skip_step(sv, i as int);
        }
        let dup = result.len() > 0 && chars_eq(&keys[i], &keys[last]);
        if !dup {
            result.push(x);
            last = i;
        }
        i = i + 1;
    }
    proof {
        assert(sv.take(i as int) == sv);
    }
    *out = result;
}


/// The entries of `s` whose names pass the filter of real apps, in order.
pub open spec fn real_apps(s: Seq<AppEntry>) -> Seq<AppEntry>
    decreases s.len(),
{
    if s.len() == 0 {
        seq![]
    } else {
        let r = real_apps(s.drop_last());
        if real_app(s.last().name@) {
            r.push(s.last())
        } else {
            r
        }
    }
}

/// What the Windows list is made from: the shell's entries, or the Start-Menu
/// shortcuts where the shell gave none.
pub open spec fn windows_found(from_shell: Seq<AppEntry>, from_start_menu: Seq<AppEntry>) -> Seq<AppEntry> {
    if from_shell.len() == 0 {
        from_start_menu
    } else {
        from_shell
    }
}

/// Keeps the entries whose names pass the filter of real apps, in order.
pub fn retain_real_apps(entries: Vec<AppEntry>) -> (r: Vec<AppEntry>)
    ensures
        r@ == real_apps(entries@),
{
    let ghost orig = entries@;
    let mut rest = entries;
    let mut r: Vec<AppEntry> = Vec::new();
    let ghost mut i: int = 0;
    proof {
        assert(orig.skip(0) == orig);
        assert(orig.take(0) =~= Seq::<AppEntry>::empty());
    }
    while rest.len() > 0
        invariant
            0 <= i <= orig.len(),
            rest@ == orig.skip(i),
            r@ == real_apps(orig.take(i)),
        decreases rest.len(),
    {
        let x = rest.remove(0);
        proof {
            lemma_take_skip_step(orig, i);
        }
        if is_real_app(&x.name) {
            r.push(x);
        }
        proof {
            i = i + 1;
        }
    }
    proof {
        assert(orig.take(i) == orig);
    }
    r
}

/// The Windows list: the shell's AppsFolder entries, or, where the shell gave
/// none, the Start-Menu shortcuts; non-apps dropped; sorted and deduplicated.
pub fn list_windows(from_shell: Vec<AppEntry>, from_start_menu: Vec<AppEntry>) -> (r: Vec<AppEntry>)
    ensures
        r@ == finalized(real_apps(windows_found(from_shell@, from_start_menu@))),
{
    let found = if from_shell.len() == 0 {
        from_start_menu
    } else {
        from_shell
    };
    let mut out = retain_real_apps(found);
    finalize(&mut out);
    out
}

/// The Linux list: the visible desktop entries, sorted and deduplicated.
pub fn list_linux(desktop_entries: Vec<AppEntry>) -> (r: Vec<AppEntry>)
    ensures
        r@ == finalized(desktop_entries@),
{
    let mut out = desktop_entries;
    finalize(&mut out);
    out
}

/// What the platform's scan found: on Windows the shell's AppsFolder entries
/// and the Start-Menu shortcuts (only needed where the shell gave none), on
/// Linux the visible desktop entries.
pub enum Discovered {
    Windows { from_shell: Vec<AppEntry>, from_start_menu: Vec<AppEntry> },
    Linux { desktop_entries: Vec<AppEntry> },
    Unsupported,
}

/// The installed-apps list from what the platform's scan found; empty on other platforms.
pub fn list_installed(found: Discovered) -> (r: Vec<AppEntry>)
    ensures
        r@ == match found {
            Discovered::Windows { from_shell, from_start_menu } => finalized(
                real_apps(windows_found(from_shell@, from_start_menu@)),
            ),
            Discovered::Linux { desktop_entries } => finalized(desktop_entries@),
            Discovered::Unsupported => Seq::<AppEntry>::empty(),
        },
{
    match found {
        Discovered::Windows { from_shell, from_start_menu } => list_windows(from_shell, from_start_menu),
        Discovered::Linux { desktop_entries } => list_linux(desktop_entries),
        Discovered::Unsupported => Vec::new(),
    }
}


/// The lexicographic order is total.
pub proof fn lemma_lex_total(a: Seq<char>, b: Seq<char>)
    ensures
        lex_le(a, b) || lex_le(b, a),
    decreases a.len(),
{
    if a.len() > 0 && b.len() > 0 && a[0] == b[0] {
        lemma_lex_total(a.drop_first(), b.drop_first());
    }
}

/// The lexicographic order is transitive.
pub proof fn lemma_lex_transitive(a: Seq<char>, b: Seq<char>, c: Seq<char>)
    requires
        lex_le(a, b),
        lex_le(b, c),
    ensures
        lex_le(a, c),
    decreases a.len(),
{
    if a.len() > 0 && b.len() > 0 && c.len() > 0 && a[0] == b[0] && b[0] == c[0] {
        lemma_lex_transitive(a.drop_first(), b.drop_first(), c.drop_first());
    }
}

/// Every pair of entries, in order, is in order of their keys.
pub open spec fn sorted_by_name(s: Seq<AppEntry>) -> bool {
    forall|i: int, j: int| 0 <= i < j < s.len() ==> lex_le(sort_key(#[trigger] s[i]), sort_key(#[trigger] s[j]))
}

/// The stable insertion puts `x` after the entries not greater than it and
/// before the greater ones.
proof fn lemma_insert_position(s: Seq<AppEntry>, x: AppEntry) -> (j: int)
    requires
        sorted_by_name(s),
    ensures
        0 <= j <= s.len(),
        insert_by_name(s, x) == s.insert(j, x),
        forall|t: int| 0 <= t < j ==> lex_le(sort_key(#[trigger] s[t]), sort_key(x)),
        forall|t: int| j <= t < s.len() ==> lex_le(sort_key(x), sort_key(#[trigger] s[t])),
    decreases s.len(),
{
    if s.len() == 0 {
        assert(s.insert(0, x) =~= seq![x]);
        0
    } else if lex_le(sort_key(s.last()), sort_key(x)) {
        assert forall|t: int| 0 <= t < s.len() implies lex_le(sort_key(#[trigger] s[t]), sort_key(x)) by {
            if t < s.len() - 1 {
                lemma_lex_transitive(sort_key(s[t]), sort_key(s[s.len() - 1]), sort_key(x));
            }
        }
        assert(s.insert(s.len() as int, x) =~= s.push(x));
        s.len() as int
    } else {
        let d = s.drop_last();
        assert(sorted_by_name(d)) by {
            assert forall|a: int, b: int| 0 <= a < b < d.len() implies lex_le(sort_key(#[trigger] d[a]), sort_key(#[trigger] d[b])) by {
                assert(d[a] == s[a] && d[b] == s[b]);
            }
        }
        let j = lemma_insert_position(d, x);
        lemma_lex_total(sort_key(s.last()), sort_key(x));
        assert forall|t: int| 0 <= t < j implies lex_le(sort_key(#[trigger] s[t]), sort_key(x)) by {
            assert(s[t] == d[t]);
        }
        assert(d.insert(j, x).push(s.last()) =~= s.insert(j, x));
        assert forall|t: int| j <= t < s.len() implies lex_le(sort_key(x), sort_key(#[trigger] s[t])) by {
            if t < s.len() - 1 {
                assert(s[t] == d[t]);
            }
        }
        j
    }
}

/// Sorting gives a sorted sequence holding exactly the entries of `s`, each as
/// many times.
pub proof fn lemma_sort_by_name(s: Seq<AppEntry>)
    ensures
        sorted_by_name(sort_by_name(s)),
        sort_by_name(s).to_multiset() == s.to_multiset(),
    decreases s.len(),
{
    broadcast use vstd::seq_lib::group_to_multiset_ensures;
    if s.len() > 0 {
        let d = s.drop_last();
        lemma_sort_by_name(d);
        let sd = sort_by_name(d);
        let j = lemma_insert_position(sd, s.last());
        let r = sd.insert(j, s.last());
        assert forall|a: int, b: int| 0 <= a < b < r.len() implies lex_le(sort_key(#[trigger] r[a]), sort_key(#[trigger] r[b])) by {
            if b < j {
                assert(r[a] == sd[a] && r[b] == sd[b]);
            } else if a < j && b == j {
                assert(r[a] == sd[a]);
            } else if a < j && b > j {
                assert(r[a] == sd[a] && r[b] == sd[b - 1]);
            } else if a == j {
                assert(r[b] == sd[b - 1]);
            } else {
                assert(r[a] == sd[a - 1] && r[b] == sd[b - 1]);
            }
        }
        assert(d.push(s.last()) =~= s);
    }
}

/// Deduplication keeps only entries of `s`.
pub proof fn lemma_dedup_from(s: Seq<AppEntry>)
    ensures
        forall|i: int| 0 <= i < dedup_names(s).len() ==> s.contains(#[trigger] dedup_names(s)[i]),
    decreases s.len(),
{
    if s.len() > 0 {
        let d = s.drop_last();
        lemma_dedup_from(d);
        let dd = dedup_names(d);
        let r = dedup_names(s);
        assert(s[s.len() - 1] == s.last());
        assert forall|i: int| 0 <= i < r.len() implies s.contains(#[trigger] r[i]) by {
            if i < dd.len() {
                assert(r[i] == dd[i]);
                let k = choose|k: int| 0 <= k < d.len() && d[k] == dd[i];
                assert(s[k] == d[k]);
            }
        }
    }
}

/// Some entry of `r` has lowercase name `k`.
pub open spec fn key_kept(r: Seq<AppEntry>, k: Seq<char>) -> bool {
    exists|j: int| 0 <= j < r.len() && sort_key(#[trigger] r[j]) == k
}

/// Every entry of `s` has one with the same lowercase name kept by deduplication.
pub proof fn lemma_dedup_covers(s: Seq<AppEntry>)
    ensures
        forall|i: int| 0 <= i < s.len() ==> key_kept(dedup_names(s), sort_key(#[trigger] s[i])),
    decreases s.len(),
{
    if s.len() > 0 {
        let d = s.drop_last();
        lemma_dedup_covers(d);
        let dd = dedup_names(d);
        let r = dedup_names(s);
        let x = s.last();
        assert forall|i: int| 0 <= i < s.len() implies key_kept(r, sort_key(#[trigger] s[i])) by {
            if i < s.len() - 1 {
                assert(s[i] == d[i]);
                assert(key_kept(dd, sort_key(d[i])));
                let j = choose|j: int| 0 <= j < dd.len() && sort_key(#[trigger] dd[j]) == sort_key(d[i]);
                assert(r[j] == dd[j]);
            } else {
                assert(s[i] == x);
                if r.len() == dd.len() {
                    assert(r[dd.len() - 1] == dd.last());
                } else {
                    assert(r[dd.len() as int] == x);
                }
            }
        }
    }
}

/// The lexicographic order is antisymmetric.
pub proof fn lemma_lex_antisymmetric(a: Seq<char>, b: Seq<char>)
    requires
        lex_le(a, b),
        lex_le(b, a),
    ensures
        a == b,
    decreases a.len(),
{
    if a.len() > 0 && b.len() > 0 {
        lemma_lex_antisymmetric(a.drop_first(), b.drop_first());
        assert(a =~= seq![a[0]] + a.drop_first());
        assert(b =~= seq![b[0]] + b.drop_first());
    }
}

/// Every pair of entries, in order, has strictly increasing lowercase names.
pub open spec fn strictly_sorted_by_name(s: Seq<AppEntry>) -> bool {
    forall|i: int, j: int|
        0 <= i < j < s.len() ==> lex_le(sort_key(#[trigger] s[i]), sort_key(#[trigger] s[j]))
            && sort_key(s[i]) != sort_key(s[j])
}

/// Deduplicating a sorted sequence leaves its lowercase names strictly increasing.
pub proof fn lemma_dedup_sorted(s: Seq<AppEntry>)
    requires
        sorted_by_name(s),
    ensures
        strictly_sorted_by_name(dedup_names(s)),
    decreases s.len(),
{
    if s.len() > 0 {
        let d = s.drop_last();
        assert(sorted_by_name(d)) by {
            assert forall|a: int, b: int| 0 <= a < b < d.len() implies lex_le(sort_key(#[trigger] d[a]), sort_key(#[trigger] d[b])) by {
                assert(d[a] == s[a] && d[b] == s[b]);
            }
        }
        lemma_dedup_sorted(d);
        lemma_dedup_from(d);
        let dd = dedup_names(d);
        let r = dedup_names(s);
        let x = s.last();
        assert(s[s.len() - 1] == x);
        if r.len() > dd.len() {
            assert forall|a: int| 0 <= a < dd.len() implies lex_le(sort_key(#[trigger] dd[a]), sort_key(x)) by {
                assert(d.contains(dd[a]));
                let k = choose|k: int| 0 <= k < d.len() && d[k] == dd[a];
                assert(s[k] == d[k]);
            }
            assert forall|a: int, b: int| 0 <= a < b < r.len() implies lex_le(sort_key(#[trigger] r[a]), sort_key(#[trigger] r[b])) && sort_key(r[a]) != sort_key(r[b]) by {
                if b < dd.len() {
                    assert(r[a] == dd[a] && r[b] == dd[b]);
                } else {
                    assert(r[a] == dd[a]);
                    assert(r[b] == x);
                    if sort_key(dd[a]) == sort_key(x) {
                        let l = dd.len() - 1;
                        assert(dd[l] == dd.last());
                        if a < l {
                            assert(lex_le(sort_key(dd[a]), sort_key(dd[l])));
                        }
                        assert(lex_le(sort_key(dd[l]), sort_key(x)));
                        lemma_lex_antisymmetric(sort_key(dd[l]), sort_key(x));
                    }
                }
            }
        }
    }
}

/// The installed-apps list is in strictly increasing order of lowercase names
/// (so no two entries are case-insensitive duplicates of each other), holds
/// only entries that were found, and has an entry for the lowercase name of
/// every entry found.
pub proof fn law_finalized(s: Seq<AppEntry>)
    ensures
        strictly_sorted_by_name(finalized(s)),
        forall|i: int| 0 <= i < finalized(s).len() ==> s.contains(#[trigger] finalized(s)[i]),
        forall|i: int| 0 <= i < s.len() ==> key_kept(finalized(s), sort_key(#[trigger] s[i])),
{
    broadcast use vstd::seq_lib::group_to_multiset_ensures;
    lemma_sort_by_name(s);
    let t = sort_by_name(s);
    lemma_dedup_from(t);
    lemma_dedup_covers(t);
    lemma_dedup_sorted(t);
    let r = finalized(s);
    assert forall|i: int| 0 <= i < r.len() implies s.contains(#[trigger] r[i]) by {
        assert(t.contains(r[i]));
        assert(t.to_multiset().count(r[i]) > 0);
        assert(s.to_multiset().count(r[i]) > 0);
    }
    assert forall|i: int| 0 <= i < s.len() implies key_kept(r, sort_key(#[trigger] s[i])) by {
        assert(s.to_multiset().count(s[i]) > 0);
        assert(t.to_multiset().count(s[i]) > 0);
        assert(t.contains(s[i]));
        let k = choose|k: int| 0 <= k < t.len() && t[k] == s[i];
        assert(key_kept(r, sort_key(t[k])));
    }
}

/// The filter keeps only entries of `s` that pass it.
pub proof fn lemma_real_apps(s: Seq<AppEntry>)
    ensures
        forall|i: int| 0 <= i < real_apps(s).len() ==> real_app(#[trigger] real_apps(s)[i].name@),
        forall|i: int| 0 <= i < real_apps(s).len() ==> s.contains(#[trigger] real_apps(s)[i]),
    decreases s.len(),
{
    if s.len() > 0 {
        let d = s.drop_last();
        lemma_real_apps(d);
        let rd = real_apps(d);
        let r = real_apps(s);
        assert(s[s.len() - 1] == s.last());
        assert forall|i: int| 0 <= i < r.len() implies real_app(#[trigger] r[i].name@) && s.contains(r[i]) by {
            if i < rd.len() {
                assert(r[i] == rd[i]);
                let k = choose|k: int| 0 <= k < d.len() && d[k] == rd[i];
                assert(s[k] == d[k]);
            }
        }
    }
}

/// Every entry of the Windows list passes the filter of real apps and was found
/// by the scan it was taken from.
pub proof fn law_windows_list_real_apps(from_shell: Seq<AppEntry>, from_start_menu: Seq<AppEntry>)
    ensures
        forall|i: int|
            0 <= i < finalized(real_apps(windows_found(from_shell, from_start_menu))).len()
                ==> real_app(
                #[trigger] finalized(real_apps(windows_found(from_shell, from_start_menu)))[i].name@,
            ),
        forall|i: int|
            0 <= i < finalized(real_apps(windows_found(from_shell, from_start_menu))).len()
                ==> windows_found(from_shell, from_start_menu).contains(
                #[trigger] finalized(real_apps(windows_found(from_shell, from_start_menu)))[i],
            ),
{
    let found = windows_found(from_shell, from_start_menu);
    let ra = real_apps(found);
    law_finalized(ra);
    lemma_real_apps(found);
    let r = finalized(ra);
    assert forall|i: int| 0 <= i < r.len() implies real_app(#[trigger] r[i].name@) && found.contains(r[i]) by {
        assert(ra.contains(r[i]));
        let k = choose|k: int| 0 <= k < ra.len() && ra[k] == r[i];
        assert(real_app(ra[k].name@));
        assert(found.contains(ra[k]));
    }
}


/// A name sorts after every proper prefix of it.
proof fn lemma_prefix_not_after(a: Seq<char>, c: Seq<char>)
    requires
        c.len() > 0,
    ensures
        !lex_le(a + c, a),
    decreases a.len(),
{
    if a.len() > 0 {
        assert((a + c).drop_first() =~= a.drop_first() + c);
        assert((a + c)[0] == a[0]);
        lemma_prefix_not_after(a.drop_first(), c);
    }
}

/// After a common part, the name with the smaller next character code sorts first.
proof fn lemma_first_difference_not_after(p: Seq<char>, x: char, y: char, a: Seq<char>, b: Seq<char>)
    requires
        (x as int) < (y as int),
    ensures
        !lex_le(p + seq![y] + b, p + seq![x] + a),
    decreases p.len(),
{
    let u = p + seq![y] + b;
    let v = p + seq![x] + a;
    if p.len() == 0 {
        assert(u[0] == y && v[0] == x);
    } else {
        assert(u[0] == p[0] && v[0] == p[0]);
        assert(u.drop_first() =~= p.drop_first() + seq![y] + b);
        assert(v.drop_first() =~= p.drop_first() + seq![x] + a);
        lemma_first_difference_not_after(p.drop_first(), x, y, a, b);
    }
}

/// The installed-apps list is ordered as std orders the lowercase names: a
/// name that is a proper prefix of another (`libreoffice`, `libreoffice calc`)
/// comes first, and after a common beginning the name with the smaller next
/// character code comes first.
pub proof fn law_finalized_order(s: Seq<AppEntry>, i: int, j: int, p: Seq<char>, x: char, y: char, a: Seq<char>, b: Seq<char>)
    requires
        0 <= i < finalized(s).len(),
        0 <= j < finalized(s).len(),
    ensures
        (b.len() > 0 && sort_key(finalized(s)[i]) == p && sort_key(finalized(s)[j]) == p + b) ==> i < j,
        ((x as int) < (y as int) && sort_key(finalized(s)[i]) == p + seq![x] + a && sort_key(
            finalized(s)[j],
        ) == p + seq![y] + b) ==> i < j,
{
    law_finalized(s);
    let r = finalized(s);
    if b.len() > 0 && sort_key(r[i]) == p && sort_key(r[j]) == p + b {
        lemma_prefix_not_after(p, b);
        if j < i {
            assert(lex_le(sort_key(r[j]), sort_key(r[i])));
        }
    }
    if (x as int) < (y as int) && sort_key(r[i]) == p + seq![x] + a && sort_key(r[j]) == p + seq![y] + b {
        lemma_first_difference_not_after(p, x, y, a, b);
        if j < i {
            assert(lex_le(sort_key(r[j]), sort_key(r[i])));
        }
        if j == i {
            assert((p + seq![x] + a)[p.len() as int] == x);
            assert((p + seq![y] + b)[p.len() as int] == y);
        }
    }
}


/// No entry of the Windows list has a lowercase name that mentions an
/// uninstaller, a readme, help, documentation, a manual, release notes, "on
/// the web" or a website anywhere, or that starts with "license".
pub proof fn law_windows_list_excludes_non_apps(
    from_shell: Seq<AppEntry>,
    from_start_menu: Seq<AppEntry>,
    i: int,
    k: int,
)
    requires
        0 <= i < finalized(real_apps(windows_found(from_shell, from_start_menu))).len(),
    ensures
        ({
            let n = unicode_lowercase(
                finalized(real_apps(windows_found(from_shell, from_start_menu)))[i].name@,
            );
            &&& !occurs_at(n, "uninstall"@, k)
            &&& !occurs_at(n, "readme"@, k)
            &&& !starts_with(n, "license"@)
            &&& !occurs_at(n, "help"@, k)
            &&& !occurs_at(n, "documentation"@, k)
            &&& !occurs_at(n, "manual"@, k)
            &&& !occurs_at(n, "release notes"@, k)
            &&& !occurs_at(n, "on the web"@, k)
            &&& !occurs_at(n, "website"@, k)
        }),
{
    law_windows_list_real_apps(from_shell, from_start_menu);
}

/// The filter keeps every entry that passes it.
proof fn lemma_real_apps_keeps(s: Seq<AppEntry>, e: AppEntry)
    requires
        s.contains(e),
        real_app(e.name@),
    ensures
        real_apps(s).contains(e),
    decreases s.len(),
{
    let d = s.drop_last();
    if s.last() == e {
        assert(real_apps(s).last() == e);
        assert(real_apps(s)[real_apps(s).len() - 1] == e);
    } else {
        let k = choose|k: int| 0 <= k < s.len() && s[k] == e;
        assert(k < s.len() - 1);
        assert(d[k] == e);
        lemma_real_apps_keeps(d, e);
        let r = real_apps(d);
        let j = choose|j: int| 0 <= j < r.len() && r[j] == e;
        assert(real_apps(s)[j] == e);
    }
}

/// Every entry found whose lowercase name mentions none of those words (and
/// does not start with "license") is listed on Windows, under its lowercase name.
pub proof fn law_windows_list_keeps_apps(from_shell: Seq<AppEntry>, from_start_menu: Seq<AppEntry>, e: AppEntry)
    requires
        windows_found(from_shell, from_start_menu).contains(e),
        ({
            let n = unicode_lowercase(e.name@);
            &&& forall|k: int| !occurs_at(n, "uninstall"@, k)
            &&& forall|k: int| !occurs_at(n, "readme"@, k)
            &&& !starts_with(n, "license"@)
            &&& forall|k: int| !occurs_at(n, "help"@, k)
            &&& forall|k: int| !occurs_at(n, "documentation"@, k)
            &&& forall|k: int| !occurs_at(n, "manual"@, k)
            &&& forall|k: int| !occurs_at(n, "release notes"@, k)
            &&& forall|k: int| !occurs_at(n, "on the web"@, k)
            &&& forall|k: int| !occurs_at(n, "website"@, k)
        }),
    ensures
        key_kept(finalized(real_apps(windows_found(from_shell, from_start_menu))), sort_key(e)),
{
    let found = windows_found(from_shell, from_start_menu);
    lemma_real_apps_keeps(found, e);
    let ra = real_apps(found);
    law_finalized(ra);
    let j = choose|j: int| 0 <= j < ra.len() && ra[j] == e;
    assert(key_kept(finalized(ra), sort_key(ra[j])));
}

} // verus!
