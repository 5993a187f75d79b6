//! Shortcut keys and the list of shortcuts.

use vstd::prelude::*;
use crate::launcher::{launch_decided, open_target, LaunchAction, Platform};
use crate::paths::{a_file_stem, common_file_stem, path_file_stem, possible_file_stem};
use crate::text::{
    lemma_take_skip_step,
    chars_eq, chars_of, concat, opt_view, str_eq, to_lowercase, trim, trim_str, unicode_lowercase,
};

verus! {

/// A character allowed in a key: a lowercase ASCII letter or an ASCII digit.
pub open spec fn is_key_char(c: char) -> bool {
    ('a' <= c && c <= 'z') || ('0' <= c && c <= '9')
}

/// Exactly five characters, each a lowercase ASCII letter or a digit.
pub open spec fn is_valid_key(k: Seq<char>) -> bool {
    k.len() == 5 && forall|i: int| 0 <= i < k.len() ==> is_key_char(#[trigger] k[i])
}

/// The message `validate_key` refuses an invalid key with.
pub open spec fn key_error(k: Seq<char>) -> Seq<char> {
    if k.len() != 5 {
        "Key must be exactly 5 characters."@
    } else {
        "Key may only contain lowercase letters (a-z) and digits (0-9)."@
    }
}

/// Enforces the key format: exactly 5 characters, lowercase letters and digits only.
pub fn validate_key(key: &str) -> (r: Result<(), String>)
    ensures
        key@.len() != 5 ==> (r matches Err(e) && e@ == "Key must be exactly 5 characters."@),
        key@.len() == 5 && !is_valid_key(key@) ==> (r matches Err(e)
            && e@ == "Key may only contain lowercase letters (a-z) and digits (0-9)."@),
        is_valid_key(key@) <==> r is Ok,
{
    let cs = chars_of(key);
    if cs.len() != 5 {
        return Err("Key must be exactly 5 characters.".to_owned());
    }
    let mut i: usize = 0;
    while i < cs.len()
        invariant
            cs@ == key@,
            cs.len() == 5,
            i <= cs.len(),
            forall|j: int| 0 <= j < i ==> is_key_char(#[trigger] cs@[j]),
        decreases cs.len() - i,
    {
        let c = cs[i];
        if !(('a' <= c && c <= 'z') || ('0' <= c && c <= '9')) {
            return Err("Key may only contain lowercase letters (a-z) and digits (0-9).".to_owned());
        }
        i = i + 1;
    }
    Ok(())
}


/// A single shortcut: a 5-character key that opens a folder, an app, a file, or a website.
#[derive(Clone, Debug)]
pub struct Shortcut {
    /// Exactly 5 chars, `[a-z0-9]`, unique across all shortcuts.
    pub key: String,
    /// `"folder"`, `"app"`, `"file"`, or `"web"`.
    pub kind: String,
    /// Absolute path to the folder, the app's `.lnk` / `.exe` / `.desktop`, or a file, or a website URL.
    pub target: String,
    /// Friendly label shown in the settings list (folder name or app name).
    pub label: String,
}

/// Every key is valid and no two shortcuts share a key.
pub open spec fn keys_ok(s: Seq<Shortcut>) -> bool {
    &&& forall|i: int| 0 <= i < s.len() ==> is_valid_key(#[trigger] s[i].key@)
    &&& forall|i: int, j: int| 0 <= i < j < s.len() ==> #[trigger] s[i].key@ != #[trigger] s[j].key@
}

/// Whether some shortcut of `s` has key `k`.
pub open spec fn has_key(s: Seq<Shortcut>, k: Seq<char>) -> bool {
    exists|i: int| 0 <= i < s.len() && #[trigger] s[i].key@ == k
}

/// The first shortcut of `s` with key `k`.
pub open spec fn lookup(s: Seq<Shortcut>, k: Seq<char>) -> Option<Shortcut>
    decreases s.len(),
{
    if s.len() == 0 {
        None
    } else if s[0].key@ == k {
        Some(s[0])
    } else {
        lookup(s.drop_first(), k)
    }
}

/// `s` without the shortcuts whose key is `k`, in order.
pub open spec fn without_key(s: Seq<Shortcut>, k: Seq<char>) -> Seq<Shortcut>
    decreases s.len(),
{
    if s.len() == 0 {
        seq![]
    } else {
        let r = without_key(s.drop_last(), k);
        if s.last().key@ == k {
            r
        } else {
            r.push(s.last())
        }
    }
}

/// One of the four kinds of shortcut.
pub open spec fn is_known_kind(kind: Seq<char>) -> bool {
    kind == "folder"@ || kind == "app"@ || kind == "file"@ || kind == "web"@
}

/// The key a shortcut is stored under: trimmed, then lowercased.
pub open spec fn normal_key(key: Seq<char>) -> Seq<char> {
    unicode_lowercase(trim(key))
}

/// The label stored for a shortcut: the trimmed label, or, where that is empty,
/// `stem` (the target's file stem as std's `Path` finds it), or the target itself.
pub open spec fn label_for(label: Seq<char>, target: Seq<char>, stem: Option<Seq<char>>) -> Seq<char> {
    if trim(label).len() == 0 {
        match stem {
            Some(x) => x,
            None => target,
        }
    } else {
        trim(label)
    }
}

/// Whether `x` is the shortcut that a successful add of these arguments stores.
pub open spec fn added_shortcut(x: Shortcut, key: Seq<char>, kind: Seq<char>, target: Seq<char>, label: Seq<char>) -> bool {
    &&& x.key@ == normal_key(key)
    &&& x.kind@ == kind
    &&& x.target@ == trim(target)
    &&& exists|stem: Option<Seq<char>>|
        possible_file_stem(trim(target), stem) && x.label@ == label_for(label, trim(target), stem)
}

/// Checks and adds a shortcut. The key is trimmed and lowercased, then must be
/// valid; the kind must be `folder`, `app`, `file` or `web`; the trimmed target
/// must not be empty; the key must not be in use. An empty label falls back to
/// the target's file stem (or the target). On any refusal the list is unchanged.
pub fn add_shortcut(shortcuts: &mut Vec<Shortcut>, key: &str, kind: &str, target: &str, label: &str) -> (r: Result<(), String>)
    ensures
        !is_valid_key(normal_key(key@)) ==> (r matches Err(e) && e@ == key_error(normal_key(key@))),
        is_valid_key(normal_key(key@)) && !is_known_kind(kind@) ==> (r matches Err(e) && e@
            == "Shortcut kind must be 'folder', 'app', 'file', or 'web'."@),
        is_valid_key(normal_key(key@)) && is_known_kind(kind@) && trim(target@).len() == 0 ==> (
        r matches Err(e) && e@ == "Please choose a folder, app, or file, or enter a website URL first."@),
        is_valid_key(normal_key(key@)) && is_known_kind(kind@) && trim(target@).len() != 0
            && has_key(old(shortcuts)@, normal_key(key@)) ==> (r matches Err(e) && e@ == "The key '"@
            + normal_key(key@) + "' is already in use."@),
        r is Ok <==> (is_valid_key(normal_key(key@)) && is_known_kind(kind@) && trim(target@).len()
            != 0 && !has_key(old(shortcuts)@, normal_key(key@))),
        r is Ok ==> final(shortcuts)@.len() == old(shortcuts)@.len() + 1 && final(shortcuts)@.drop_last()
            == old(shortcuts)@ && added_shortcut(final(shortcuts)@.last(), key@, kind@, target@, label@),
        r is Ok ==> (common_file_stem(trim(target@)) matches Some(st) ==> final(shortcuts)@.last().label@
            == label_for(label@, trim(target@), st)),
        r is Err ==> final(shortcuts)@ == old(shortcuts)@,
        keys_ok(old(shortcuts)@) ==> keys_ok(final(shortcuts)@),
{
    let key_n = to_lowercase(&trim_str(key));
    match validate_key(&key_n) {
        Ok(()) => {},
        Err(e) => {
            return Err(e);
        },
    }
    if !(str_eq(kind, "folder") || str_eq(kind, "app") || str_eq(kind, "file") || str_eq(kind, "web")) {
        return Err("Shortcut kind must be 'folder', 'app', 'file', or 'web'.".to_owned());
    }
    let target_t = trim_str(target);
    if target_t.as_str().is_empty() {
        return Err("Please choose a folder, app, or file, or enter a website URL first.".to_owned());
    }
    let kv = chars_of(&key_n);
    let mut i: usize = 0;
    while i < shortcuts.len()
        invariant
            kv@ == key_n@,
            key_n@ == normal_key(key@),
            is_valid_key(key_n@),
            is_known_kind(kind@),
            target_t@ == trim(target@),
            trim(target@).len() != 0,
            shortcuts@ == old(shortcuts)@,
            i <= shortcuts.len(),
            forall|j: int| 0 <= j < i ==> #[trigger] shortcuts@[j].key@ != key_n@,
        decreases shortcuts.len() - i,
    {
        if chars_eq(&chars_of(&shortcuts[i].key), &kv) {
            let msg = concat(&concat("The key '", &key_n), "' is already in use.");
            return Err(msg);
        }
        i = i + 1;
    }
    let label_t = trim_str(label);
    let ghost stem_seen: Option<Seq<char>>;
    let final_label = if label_t.as_str().is_empty() {
        let stem = path_file_stem(&target_t);
        proof {
            stem_seen = opt_view(stem);
        }
        match stem {
            Some(x) => x,
            None => target_t.clone(),
        }
    } else {
        proof {
            stem_seen = a_file_stem(trim(target@));
        }
        label_t
    };
    let x = Shortcut { key: key_n, kind: kind.to_owned(), target: target_t, label: final_label };
    proof {
        assert(possible_file_stem(trim(target@), stem_seen) && x.label@ == label_for(label@, trim(target@), stem_seen));
    }
    let ghost before = shortcuts@;
    shortcuts.push(x);
    proof {
        assert(shortcuts@.drop_last() == before);
        if keys_ok(before) {
            assert forall|a: int, b: int| 0 <= a < b < shortcuts@.len() implies #[trigger] shortcuts@[a].key@ != #[trigger] shortcuts@[b].key@ by {
                if b == before.len() {
                    assert(shortcuts@[a] == before[a]);
                }
            }
        }
        if has_key(before, normal_key(key@)) {
            let j = choose|j: int| 0 <= j < before.len() && #[trigger] before[j].key@ == normal_key(key@);
            assert(before[j].key@ == key_n@);
        }
    }
    Ok(())
}

/// Removes every shortcut whose key is `key`; the others keep their order.
pub fn delete_shortcut(shortcuts: &mut Vec<Shortcut>, key: &str)
    ensures
        final(shortcuts)@ == without_key(old(shortcuts)@, key@),
        keys_ok(old(shortcuts)@) ==> keys_ok(final(shortcuts)@),
{
    let ghost orig = shortcuts@;
    let kv = chars_of(key);
    let mut rest: Vec<Shortcut> = Vec::new();
    std::mem::swap(shortcuts, &mut rest);
    let mut kept: Vec<Shortcut> = Vec::new();
    let ghost mut i: int = 0;
    proof {
        assert(orig.skip(0) == orig);
        assert(orig.take(0) =~= Seq::<Shortcut>::empty());
    }
    while rest.len() > 0
        invariant
            0 <= i <= orig.len(),
            kv@ == key@,
            rest@ == orig.skip(i),
            kept@ == without_key(orig.take(i), key@),
        decreases rest.len(),
    {
        let x = rest.remove(0);
        proof {
            lemma_take_skip_step(orig, i);
        }
        if !chars_eq(&chars_of(&x.key), &kv) {
            kept.push(x);
        }
        proof {
            i = i + 1;
        }
    }
    proof {
        assert(orig.take(i) == orig);
        lemma_without_key_subseq(orig, key@);
    }
    *shortcuts = kept;
}

/// Every shortcut left by `without_key` comes from `s`, in the same order, and
/// none has key `k`.
pub proof fn lemma_without_key_subseq(s: Seq<Shortcut>, k: Seq<char>)
    ensures
        forall|i: int| 0 <= i < without_key(s, k).len() ==> #[trigger] without_key(s, k)[i].key@ != k,
        keys_ok(s) ==> keys_ok(without_key(s, k)),
        forall|i: int| 0 <= i < without_key(s, k).len() ==> s.contains(#[trigger] without_key(s, k)[i]),
    decreases s.len(),
{
    if s.len() > 0 {
        let d = s.drop_last();
        lemma_without_key_subseq(d, k);
        let r = without_key(d, k);
        assert forall|i: int| 0 <= i < without_key(s, k).len() implies s.contains(#[trigger] without_key(s, k)[i]) by {
            if i < r.len() {
                let j = choose|j: int| 0 <= j < d.len() && d[j] == r[i];
                assert(s[j] == d[j]);
            } else {
                assert(s[s.len() - 1] == s.last());
            }
        }
        if keys_ok(s) {
            assert(keys_ok(d)) by {
                assert forall|a: int, b: int| 0 <= a < b < d.len() implies #[trigger] d[a].key@ != #[trigger] d[b].key@ by {
                    assert(d[a] == s[a] && d[b] == s[b]);
                }
                assert forall|a: int| 0 <= a < d.len() implies is_valid_key(#[trigger] d[a].key@) by {
                    assert(d[a] == s[a]);
                }
            }
            let w = without_key(s, k);
            assert forall|a: int| 0 <= a < w.len() implies is_valid_key(#[trigger] w[a].key@) by {
                let j = choose|j: int| 0 <= j < s.len() && s[j] == w[a];
            }
            assert forall|a: int, b: int| 0 <= a < b < w.len() implies #[trigger] w[a].key@ != #[trigger] w[b].key@ by {
                if b == r.len() {
                    let j = choose|j: int| 0 <= j < d.len() && d[j] == r[a];
                    assert(s[j] == d[j]);
                    assert(w[b] == s[s.len() - 1]);
                }
            }
        }
    }
}

/// Decides how to open the shortcut stored under `key`: refused when there is
/// none, else as `open_target` decides for its kind and target.
pub fn open_shortcut(shortcuts: &Vec<Shortcut>, key: &str, platform: Platform) -> (r: Result<LaunchAction, String>)
    ensures
        lookup(shortcuts@, key@) is None ==> (r matches Err(e) && e@ == "No shortcut for key '"@ + key@
            + "'."@),
        lookup(shortcuts@, key@) matches Some(sc) ==> launch_decided(sc.kind@, sc.target@, platform, r),
{
    let kv = chars_of(key);
    let mut i: usize = 0;
    proof {
        assert(shortcuts@.skip(0) == shortcuts@);
    }
    while i < shortcuts.len()
        invariant
            kv@ == key@,
            i <= shortcuts.len(),
            lookup(shortcuts@, key@) == lookup(shortcuts@.skip(i as int), key@),
        decreases shortcuts.len() - i,
    {
        proof {
            assert(shortcuts@.skip(i as int)[0] == shortcuts@[i as int]);
            assert(shortcuts@.skip(i as int).drop_first() == shortcuts@.skip(i + 1));
        }
        if chars_eq(&chars_of(&shortcuts[i].key), &kv) {
            return open_target(&shortcuts[i].kind, &shortcuts[i].target, platform);
        }
        i = i + 1;
    }
    Err(concat(&concat("No shortcut for key '", key), "'."))
}


/// Looking a key up after appending `x`: the earlier shortcuts take precedence,
/// then `x` if it has the key.
pub proof fn lemma_lookup_push(s: Seq<Shortcut>, x: Shortcut, k: Seq<char>)
    ensures
        lookup(s.push(x), k) == if lookup(s, k) is Some {
            lookup(s, k)
        } else if x.key@ == k {
            Some(x)
        } else {
            None
        },
    decreases s.len(),
{
    if s.len() == 0 {
        assert(s.push(x).drop_first() =~= Seq::<Shortcut>::empty());
    } else {
        assert(s.push(x).drop_first() =~= s.drop_first().push(x));
        lemma_lookup_push(s.drop_first(), x, k);
    }
}

/// A key that no shortcut has is found nowhere.
pub proof fn lemma_lookup_absent(s: Seq<Shortcut>, k: Seq<char>)
    requires
        !has_key(s, k),
    ensures
        lookup(s, k) is None,
    decreases s.len(),
{
    if s.len() > 0 {
        assert(s[0].key@ != k);
        assert forall|i: int| 0 <= i < s.drop_first().len() implies #[trigger] s.drop_first()[i].key@ != k by {
            assert(s.drop_first()[i] == s[i + 1]);
        }
        lemma_lookup_absent(s.drop_first(), k);
    }
}

/// Removing the shortcuts of a key that no shortcut has changes nothing.
pub proof fn lemma_without_absent_key(s: Seq<Shortcut>, k: Seq<char>)
    requires
        !has_key(s, k),
    ensures
        without_key(s, k) == s,
    decreases s.len(),
{
    if s.len() > 0 {
        let d = s.drop_last();
        assert forall|i: int| 0 <= i < d.len() implies #[trigger] d[i].key@ != k by {
            assert(d[i] == s[i]);
        }
        lemma_without_absent_key(d, k);
        assert(s.last().key@ != k) by {
            assert(s[s.len() - 1] == s.last());
        }
        assert(d.push(s.last()) =~= s);
    }
}

/// What a write gives back: once a shortcut has been added under a key that was
/// free, looking that key up gives the shortcut, and every other key is looked
/// up as before.
pub proof fn law_lookup_after_add(s: Seq<Shortcut>, x: Shortcut, k: Seq<char>)
    requires
        !has_key(s, x.key@),
    ensures
        lookup(s.push(x), x.key@) == Some(x),
        k != x.key@ ==> lookup(s.push(x), k) == lookup(s, k),
{
    lemma_lookup_absent(s, x.key@);
    lemma_lookup_push(s, x, x.key@);
    lemma_lookup_push(s, x, k);
}

/// Once a key's shortcuts are deleted, looking that key up finds nothing, and
/// every other key is looked up as before.
pub proof fn law_lookup_after_delete(s: Seq<Shortcut>, k: Seq<char>, other: Seq<char>)
    ensures
        lookup(without_key(s, k), k) is None,
        other != k ==> lookup(without_key(s, k), other) == lookup(s, other),
    decreases s.len(),
{
    lemma_without_key_subseq(s, k);
    lemma_lookup_absent(without_key(s, k), k);
    if s.len() > 0 {
        let d = s.drop_last();
        law_lookup_after_delete(d, k, other);
        assert(d.push(s.last()) =~= s);
        lemma_lookup_push(d, s.last(), other);
        if s.last().key@ != k {
            lemma_lookup_push(without_key(d, k), s.last(), other);
        }
    }
}

/// Deleting the key of a shortcut just added under a free key gives back the
/// list as it was before the add.
pub proof fn law_delete_undoes_add(s: Seq<Shortcut>, x: Shortcut)
    requires
        !has_key(s, x.key@),
    ensures
        without_key(s.push(x), x.key@) == s,
{
    lemma_without_absent_key(s, x.key@);
    assert(s.push(x).drop_last() =~= s);
}


/// The key alphabet by character code: a 5-character key is valid exactly when
/// every character is `a` (97) to `z` (122) or `0` (48) to `9` (57).
pub proof fn law_key_alphabet(k: Seq<char>)
    ensures
        is_valid_key(k) <==> (k.len() == 5 && forall|i: int|
            0 <= i < k.len() ==> ((97 <= (#[trigger] k[i]) as int && (k[i] as int) <= 122) || (48
                <= (k[i] as int) && (k[i] as int) <= 57))),
{
    assert forall|c: char| is_key_char(c) <==> ((97 <= (c as int) && (c as int) <= 122) || (48 <= (
    c as int) && (c as int) <= 57)) by {
        assert(('a' as int) == 97 && ('z' as int) == 122 && ('0' as int) == 48 && ('9' as int) == 57);
    }
}

/// With a blank label, the label stored for a target ending in `/` is the one
/// stored for the same target without it, wherever the stem is common to the
/// platforms (so `/home/me/projects/` is labelled `projects`).
pub proof fn law_label_ignores_trailing_slash(
    label: Seq<char>,
    t: Seq<char>,
    with_slash: Option<Seq<char>>,
    without: Option<Seq<char>>,
)
    requires
        trim(label).len() == 0,
        common_file_stem(t) is Some,
        possible_file_stem(t.push('/'), with_slash),
        possible_file_stem(t, without),
    ensures
        label_for(label, t.push('/'), with_slash) == label_for(label, t, without),
{
    crate::paths::law_stem_ignores_trailing_slash(t);
}

} // verus!
