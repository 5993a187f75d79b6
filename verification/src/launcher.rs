//! Launch decisions: what to run for a shortcut, and the `Exec` line of a
//! desktop entry with its field codes removed.

use vstd::prelude::*;
use crate::text::{
    chars_eq, chars_of, ends_with, has_prefix, has_suffix, is_group_header, lines, split_lines, starts_with,
    str_eq, string_of, trim, trim_chars,
};

verus! {

/// `s` with `.desktop` `Exec` field codes removed: `%%` stands for a literal
/// percent, `%` and the character after it are dropped, and a `%` at the very
/// end is dropped.
pub open spec fn drop_field_codes(s: Seq<char>) -> Seq<char>
    decreases s.len(),
{
    if s.len() == 0 {
        seq![]
    } else if s[0] == '%' {
        if s.len() == 1 {
            seq![]
        } else if s[1] == '%' {
            seq!['%'] + drop_field_codes(s.skip(2))
        } else {
            drop_field_codes(s.skip(2))
        }
    } else {
        seq![s[0]] + drop_field_codes(s.skip(1))
    }
}

/// Removes `.desktop` `Exec` field codes (`%u %U %f %F %i %c %k` ...); `%%` is a
/// literal percent. The result is trimmed.
pub fn strip_field_codes(exec: &str) -> (r: String)
    ensures
        r@ == trim(drop_field_codes(exec@)),
{
    let v = chars_of(exec);
    let mut out: Vec<char> = Vec::new();
    let mut i: usize = 0;
    proof {
        assert(v@.skip(0) == v@);
    }
    while i < v.len()
        invariant
            v@ == exec@,
            i <= v.len(),
            drop_field_codes(exec@) == out@ + drop_field_codes(v@.skip(i as int)),
        decreases v.len() - i,
    {
        let c = v[i];
        let ghost rest = v@.skip(i as int);
        if c == '%' {
            if i + 1 < v.len() {
                if v[i + 1] == '%' {
                    out.push('%');
                }
                proof {
                    assert(rest.skip(2) == v@.skip(i + 2));
                }
                i = i + 2;
            } else {
                i = i + 1;
                proof {
                    assert(v@.skip(i as int).len() == 0);
                }
            }
        } else {
            out.push(c);
            proof {
                assert(rest.skip(1) == v@.skip(i + 1));
            }
            i = i + 1;
        }
    }
    proof {
        assert(v@.skip(i as int).len() == 0);
        assert(out@ + drop_field_codes(v@.skip(i as int)) == out@);
    }
    string_of(&trim_chars(&out))
}


/// The `Exec` command found in `ls`, scanning line by line: `in_entry` tells
/// whether the scan is inside the `[Desktop Entry]` group. The scan stops at the
/// first `Exec=` line of that group, or at the next group's header.
pub open spec fn exec_in_lines(ls: Seq<Seq<char>>, in_entry: bool) -> Option<Seq<char>>
    decreases ls.len(),
{
    if ls.len() == 0 {
        None
    } else {
        let l = trim(ls[0]);
        if is_group_header(l) {
            if l == "[Desktop Entry]"@ {
                exec_in_lines(ls.drop_first(), true)
            } else if in_entry {
                None
            } else {
                exec_in_lines(ls.drop_first(), in_entry)
            }
        } else if in_entry && starts_with(l, "Exec="@) {
            Some(trim(drop_field_codes(l.skip(5))))
        } else {
            exec_in_lines(ls.drop_first(), in_entry)
        }
    }
}

/// The command of a desktop entry's text: the `Exec=` line of its
/// `[Desktop Entry]` group, field codes removed.
pub open spec fn desktop_exec_of(content: Seq<char>) -> Option<Seq<char>> {
    exec_in_lines(lines(content), false)
}

/// Extracts the `Exec=` command from the text of a `.desktop` file's
/// `[Desktop Entry]` group, stripping the `%`-field codes so it can be run by a shell.
pub fn desktop_exec(content: &str) -> (r: Option<String>)
    ensures
        match r {
            Some(x) => desktop_exec_of(content@) == Some(x@),
            None => desktop_exec_of(content@) is None,
        },
{
    let ls = split_lines(&chars_of(content));
    let header = chars_of("[Desktop Entry]");
    let key = chars_of("Exec=");
    let mut in_entry = false;
    let mut i: usize = 0;
    let ghost all = lines(content@);
    proof {
        assert(all.skip(0) == all);
        reveal_strlit("Exec=");
    }
    while i < ls.len()
        invariant
            ls.len() == all.len(),
            forall|j: int| 0 <= j < ls.len() ==> #[trigger] ls[j]@ == all[j],
            header@ == "[Desktop Entry]"@,
            key@ == "Exec="@,
            key.len() == 5,
            i <= ls.len(),
            desktop_exec_of(content@) == exec_in_lines(all.skip(i as int), in_entry),
        decreases ls.len() - i,
    {
        let l = trim_chars(&ls[i]);
        proof {
            assert(all.skip(i as int)[0] == ls[i as int]@);
            assert(all.skip(i as int).drop_first() == all.skip(i + 1));
        }
        if l.len() > 0 && l[0] == '[' {
            if chars_eq(&l, &header) {
                in_entry = true;
            } else if in_entry {
                return None;
            }
        } else if in_entry && has_prefix(&l, &key) {
            let rest = string_of(&crate::text::subvec(&l, 5, l.len()));
            proof {
                assert(rest@ == l@.skip(5));
            }
            return Some(strip_field_codes(&rest));
        }
        i = i + 1;
    }
    None
}

/// The platform Keyport runs on, as far as launching is concerned.
#[derive(Clone, Copy, PartialEq, Eq, Debug)]
pub enum Platform {
    Windows,
    Linux,
    Other,
}

/// A program to start: its name, its arguments, and the text that is put
/// before the system's error message if it cannot be started.
pub struct Spawn {
    pub program: String,
    pub args: Vec<String>,
    pub failure_prefix: String,
}

/// What to do to open a shortcut's target.
pub enum LaunchAction {
    /// Start this program.
    Run(Spawn),
    /// Read the `.desktop` file at this path and hand its text (or `None`
    /// where it cannot be read) to [`launch_desktop_entry`].
    ReadDesktopEntry(String),
}

/// Whether `sp` runs `program` with exactly `args`, prefixing a start failure
/// with `prefix`.
pub open spec fn spawn_is(sp: Spawn, program: Seq<char>, args: Seq<Seq<char>>, prefix: Seq<char>) -> bool {
    &&& sp.program@ == program
    &&& sp.args.len() == args.len()
    &&& forall|i: int| 0 <= i < args.len() ==> #[trigger] sp.args[i]@ == args[i]
    &&& sp.failure_prefix@ == prefix
}

/// Opening `target` with `xdg-open`.
pub open spec fn is_xdg_open(sp: Spawn, target: Seq<char>) -> bool {
    spawn_is(sp, "xdg-open"@, seq![target], "Failed to launch (is xdg-utils installed?): "@)
}

/// Running `command` through `sh -c`.
pub open spec fn is_shell_run(sp: Spawn, command: Seq<char>) -> bool {
    spawn_is(sp, "sh"@, seq!["-c"@, command], "Failed to launch: "@)
}

/// Opening `target` through `explorer.exe`.
pub open spec fn is_explorer_open(sp: Spawn, target: Seq<char>) -> bool {
    spawn_is(sp, "explorer.exe"@, seq![target], "Failed to launch: "@)
}

fn spawn_one(program: &str, arg: &str, prefix: &str) -> (sp: Spawn)
    ensures
        spawn_is(sp, program@, seq![arg@], prefix@),
{
    let mut args: Vec<String> = Vec::new();
    args.push(arg.to_owned());
    Spawn { program: program.to_owned(), args, failure_prefix: prefix.to_owned() }
}

fn xdg_open(target: &str) -> (sp: Spawn)
    ensures
        is_xdg_open(sp, target@),
{
    spawn_one("xdg-open", target, "Failed to launch (is xdg-utils installed?): ")
}

/// Whether `r` is the decision for opening `target` of kind `kind` on
/// `platform`: a blank target is refused; Windows opens it through
/// `explorer.exe`; on Linux an `app` shortcut to a `.desktop` file asks for the
/// file's text, anything else opens with `xdg-open`; other platforms are refused.
pub open spec fn launch_decided(kind: Seq<char>, target: Seq<char>, platform: Platform, r: Result<LaunchAction, String>) -> bool {
    if trim(target).len() == 0 {
        r matches Err(e) && e@ == "Shortcut has no target."@
    } else {
        match platform {
            Platform::Windows => r matches Ok(LaunchAction::Run(sp)) && is_explorer_open(sp, target),
            Platform::Linux => if kind == "app"@ && ends_with(target, ".desktop"@) {
                r matches Ok(LaunchAction::ReadDesktopEntry(p)) && p@ == target
            } else {
                r matches Ok(LaunchAction::Run(sp)) && is_xdg_open(sp, target)
            },
            Platform::Other => r matches Err(e) && e@ == "Keyport supports Windows and Linux only."@,
        }
    }
}

/// Decides how to open a shortcut's target: refused when the target is blank;
/// on Windows through `explorer.exe`; on Linux an `app` shortcut to a `.desktop`
/// file runs that entry's command (after reading the file), anything else opens
/// with `xdg-open`; other platforms are refused.
pub fn open_target(kind: &str, target: &str, platform: Platform) -> (r: Result<LaunchAction, String>)
    ensures
        launch_decided(kind@, target@, platform, r),
{
    let tv = chars_of(target);
    if trim_chars(&tv).len() == 0 {
        return Err("Shortcut has no target.".to_owned());
    }
    match platform {
        Platform::Windows => Ok(LaunchAction::Run(spawn_one("explorer.exe", target, "Failed to launch: "))),
        Platform::Linux => {
            if str_eq(kind, "app") && has_suffix(&tv, &chars_of(".desktop")) {
                Ok(LaunchAction::ReadDesktopEntry(target.to_owned()))
            } else {
                Ok(LaunchAction::Run(xdg_open(target)))
            }
        },
        Platform::Other => Err("Keyport supports Windows and Linux only.".to_owned()),
    }
}

/// Finishes a launch through a `.desktop` file, given the file's text (`None`
/// where it could not be read): its command runs through `sh -c` where it has
/// one, else the file opens with `xdg-open`.
pub fn launch_desktop_entry(target: &str, content: Option<&str>) -> (sp: Spawn)
    ensures
        match content {
            Some(c) => match desktop_exec_of(c@) {
                Some(cmd) => is_shell_run(sp, cmd),
                None => is_xdg_open(sp, target@),
            },
            None => is_xdg_open(sp, target@),
        },
{
    if let Some(c) = content {
        if let Some(cmd) = desktop_exec(c) {
            let mut args: Vec<String> = Vec::new();
            args.push("-c".to_owned());
            args.push(cmd);
            return Spawn { program: "sh".to_owned(), args, failure_prefix: "Failed to launch: ".to_owned() };
        }
    }
    xdg_open(target)
}


/// A command line without `%` has no field codes: removing them changes
/// nothing, so `strip_field_codes` only trims it.
pub proof fn law_no_field_codes(s: Seq<char>)
    requires
        !s.contains('%'),
    ensures
        drop_field_codes(s) == s,
    decreases s.len(),
{
    if s.len() > 0 {
        assert(s[0] != '%');
        let t = s.skip(1);
        assert forall|i: int| 0 <= i < t.len() implies t[i] != '%' by {
            assert(t[i] == s[i + 1]);
        }
        law_no_field_codes(t);
        assert(seq![s[0]] + t =~= s);
    }
}

} // verus!
