//! Command preparation for aliases: template choice, shortcut resolution,
//! `@stdin` / `{input}` expansion, the background probe, and the reading of
//! the finished process into an [`ExecOutcome`]. Spawning the shell is left
//! to the caller.

use vstd::prelude::*;

use crate::alias::{platform_command, platform_command_of, AliasDef, AliasView};
use crate::platform::{name as platform_label, platform_name, Platform};
use crate::text::{
    blank, cat2, cat3, chars_of, contains, contains_seq, decimal, i64_to_string, is_blank,
    is_whitespace, is_ws, lead, owned, push_char, replace_all, replace_seq, signed_decimal,
    string_of, trail, trim, trim_bounds, trim_seq,
};

verus! {

/// Result of running an alias command.
#[derive(Debug, Clone, PartialEq)]
pub enum ExecOutcome {
    /// The command ran and exited zero: the only outcome worth recording.
    Success(String),
    /// The command ran and failed visibly.
    Failure(String),
    /// A backgrounded command was still running when the grace period ran
    /// out, so it never proved success. Callers must not record it.
    Started(String),
}

/// Marker asking for the input on the child's stdin.
pub const STDIN_MARKER: &'static str = "@stdin";

/// Placeholder replaced by the shell-quoted input.
pub const INPUT_PLACEHOLDER: &'static str = "{input}";

/// How long a backgrounded job gets to prove itself, in seconds.
pub const BG_GRACE_SECS: &'static str = "1";

/// Exit status the probe reports when the grace period expires while the
/// job is still running (`timeout(1)`'s "did not finish" code).
pub const BG_STILL_RUNNING: i32 = 125;

// ----------------------------------------------------------------------
// Quoting
// ----------------------------------------------------------------------

/// One char of [`shell_quote`]'s body: a single quote becomes `'\''`.
pub open spec fn quote_piece(c: char) -> Seq<char> {
    if c == '\'' {
        seq!['\'', '\\', '\'', '\'']
    } else {
        seq![c]
    }
}

/// The quoted body of `s`, char by char.
pub open spec fn quote_body(s: Seq<char>) -> Seq<char>
    decreases s.len(),
{
    if s.len() == 0 {
        Seq::empty()
    } else {
        quote_body(s.drop_last()) + quote_piece(s.last())
    }
}

/// `s` as one POSIX single-quoted shell word.
pub open spec fn quoted(s: Seq<char>) -> Seq<char> {
    seq!['\''] + quote_body(s) + seq!['\'']
}

/// Quote a string into a single safe shell word using POSIX single quotes:
/// inner single quotes are rewritten as `'\''`.
pub fn shell_quote(s: &str) -> (r: String)
    ensures
        r@ == quoted(s@),
{
    let v = chars_of(s);
    let mut out = String::new();
    push_char(&mut out, '\'');
    let n = v.len();
    for i in 0..n
        invariant
            n == v.len(),
            v@ == s@,
            out@ == seq!['\''] + quote_body(s@.take(i as int)),
    {
        let c = v[i];
        if c == '\'' {
            push_char(&mut out, '\'');
            push_char(&mut out, '\\');
            push_char(&mut out, '\'');
            push_char(&mut out, '\'');
        } else {
            push_char(&mut out, c);
        }
        proof {
            assert(s@.take(i + 1).drop_last() =~= s@.take(i as int));
            assert(out@ =~= seq!['\''] + quote_body(s@.take(i + 1)));
        }
    }
    push_char(&mut out, '\'');
    assert(s@.take(n as int) =~= s@);
    out
}

// ----------------------------------------------------------------------
// Shortcut resolution
// ----------------------------------------------------------------------

/// End of the run of non-whitespace chars starting at `i`.
pub open spec fn run_end(s: Seq<char>, i: int) -> int
    decreases s.len() - i,
{
    if 0 <= i < s.len() && !is_ws(s[i]) {
        run_end(s, i + 1)
    } else {
        i
    }
}

/// A run that starts inside the text ends inside it, on whitespace or at
/// the end of the text.
pub proof fn lemma_run_end(s: Seq<char>, i: int)
    requires
        0 <= i <= s.len(),
    ensures
        i <= run_end(s, i) <= s.len(),
        run_end(s, i) < s.len() ==> is_ws(s[run_end(s, i)]),
    decreases s.len() - i,
{
    if i < s.len() && !is_ws(s[i]) {
        lemma_run_end(s, i + 1);
    }
}

/// The input a run sees for `rest`: trimmed, and a leading registered
/// shortcut key (with a non-blank value) replaced by its trimmed value,
/// the remaining words kept after a single space.
pub open spec fn resolved_input(m: Map<Seq<char>, Seq<char>>, rest: Seq<char>) -> Seq<char> {
    let t = trim_seq(rest);
    if t.len() == 0 {
        Seq::empty()
    } else {
        let k = run_end(t, 0);
        let head = t.subrange(0, k);
        let tail = if k < t.len() {
            trim_seq(t.subrange(k + 1, t.len() as int))
        } else {
            Seq::empty()
        };
        if m.dom().contains(head) && !blank(m[head]) {
            if tail.len() > 0 {
                trim_seq(m[head]) + seq![' '] + tail
            } else {
                trim_seq(m[head])
            }
        } else {
            t
        }
    }
}

/// Resolve **registered shortcuts** in `rest`, the input after the alias
/// trigger word: a first token that is a key of `def.shortcuts` is replaced
/// by its value, the remaining tokens follow it. Otherwise the trimmed
/// `rest` is returned unchanged.
pub fn resolve_shortcuts(def: &AliasDef, rest: &str) -> (r: String)
    ensures
        r@ == resolved_input(def@.shortcuts, rest@),
{
    let t = trim(rest);
    let v = chars_of(t.as_str());
    if v.len() == 0 {
        return String::new();
    }
    let mut k: usize = 0;
    while k < v.len() && !is_whitespace(v[k])
        invariant
            k <= v.len(),
            run_end(v@, 0) == run_end(v@, k as int),
        decreases v.len() - k,
    {
        k += 1;
    }
    let head = string_of(&v, 0, k);
    let tail = if k < v.len() {
        let after = string_of(&v, k + 1, v.len());
        trim(after.as_str())
    } else {
        String::new()
    };
    match def.shortcuts.get(head.as_str()) {
        Some(value) => {
            if !is_blank(value.as_str()) {
                let mut out = trim(value.as_str());
                if !tail.as_str().is_empty() {
                    push_char(&mut out, ' ');
                    out.append(tail.as_str());
                }
                proof {
                    assert(tail@.len() > 0 ==> out@ =~= trim_seq(value@) + seq![' '] + tail@);
                }
                out
            } else {
                t
            }
        },
        None => t,
    }
}

// ----------------------------------------------------------------------
// Template choice
// ----------------------------------------------------------------------

/// The other platform.
pub open spec fn other(p: Platform) -> Platform {
    match p {
        Platform::Linux => Platform::Macos,
        Platform::Macos => Platform::Linux,
    }
}

/// The template `d` runs on `p`: the platform's own non-blank command, else
/// the other platform's non-blank command.
pub open spec fn chosen(d: AliasView, p: Platform) -> Option<Seq<char>> {
    match platform_command_of(d, p) {
        Some(t) => Some(t),
        None => platform_command_of(d, other(p)),
    }
}

/// The template `def` runs on `platform`, if any is configured.
pub fn chosen_template(def: &AliasDef, platform: Platform) -> (r: Option<&str>)
    ensures
        match chosen(def@, platform) {
            Some(t) => r matches Some(s) && s@ == t,
            None => r is None,
        },
{
    match platform_command(def, platform) {
        Some(t) => Some(t),
        None => {
            let o = match platform {
                Platform::Linux => Platform::Macos,
                Platform::Macos => Platform::Linux,
            };
            platform_command(def, o)
        },
    }
}

/// True when `def` dispatches to the native clipboard backend on `platform`
/// (its chosen template is `@native clipboard`).
pub fn uses_native_clipboard(def: &AliasDef, platform: Platform) -> (r: bool)
    ensures
        r <==> (chosen(def@, platform) matches Some(t) && trim_seq(t) == crate::clipboard::TEMPLATE@),
{
    match chosen_template(def, platform) {
        Some(t) => crate::clipboard::is_native(t),
        None => false,
    }
}

// ----------------------------------------------------------------------
// Backgrounding
// ----------------------------------------------------------------------

/// `s` without trailing whitespace.
pub open spec fn rtrim(s: Seq<char>) -> Seq<char> {
    s.subrange(0, trail(s, 0, s.len() as int))
}

/// The template ends in a single `&` (`&&` is a shell operator, not a
/// backgrounded job).
pub open spec fn backgrounded(s: Seq<char>) -> bool {
    let t = rtrim(s);
    t.len() >= 1 && t.last() == '&' && !(t.len() >= 2 && t[t.len() - 2] == '&')
}

/// True when a template backgrounds its own work, i.e. ends in a single `&`.
pub fn backgrounds(template: &str) -> (r: bool)
    ensures
        r == backgrounded(template@),
{
    let v = chars_of(template);
    let mut j: usize = v.len();
    while j > 0 && is_whitespace(v[j - 1])
        invariant
            j <= v.len(),
            trail(v@, 0, v@.len() as int) == trail(v@, 0, j as int),
        decreases j,
    {
        j -= 1;
    }
    proof {
        let t = rtrim(template@);
        assert(t.len() == j);
        if j >= 1 {
            assert(t.last() == v@[j - 1]);
        }
        if j >= 2 {
            assert(t[t.len() - 2] == v@[j - 2]);
        }
    }
    j >= 1 && v[j - 1] == '&' && !(j >= 2 && v[j - 2] == '&')
}

/// Start of the background probe, up to the still-running exit code.
pub const PROBE_HEAD: &'static str = "p=$!; if [ -z \"$p\" ]; then exit 0; fi; trap 'exit ";

/// Probe text between the exit code and the grace period.
pub const PROBE_MID: &'static str = "' TERM; ( sleep ";

/// End of the background probe, after the grace period.
pub const PROBE_TAIL: &'static str = "; kill -TERM $$ ) & w=$!; wait \"$p\"; rc=$?; kill -9 \"$w\" 2>/dev/null; wait \"$w\" 2>/dev/null; exit \"$rc\"";

/// The probe appended to a backgrounding template, for a `grace` period.
pub open spec fn probe(grace: Seq<char>) -> Seq<char> {
    PROBE_HEAD@ + decimal(BG_STILL_RUNNING as nat) + PROBE_MID@ + grace + PROBE_TAIL@
}

/// Probe appended to a backgrounding template: reaps the job for its real
/// status when it ends within `grace` seconds, and otherwise reports
/// [`BG_STILL_RUNNING`] while leaving the job running detached.
pub fn bg_probe(grace: &str) -> (r: String)
    ensures
        r@ == probe(grace@),
{
    let code = i64_to_string(BG_STILL_RUNNING as i64);
    let mut r = owned(PROBE_HEAD);
    r.append(code.as_str());
    r.append(PROBE_MID);
    r.append(grace);
    r.append(PROBE_TAIL);
    r
}

// ----------------------------------------------------------------------
// The run plan
// ----------------------------------------------------------------------

/// What running an alias takes.
#[derive(Debug, Clone, PartialEq)]
pub enum Plan {
    /// Nothing to run: the outcome is already decided.
    Done(ExecOutcome),
    /// Hand the input to the native clipboard backend.
    Clipboard,
    /// Run `cmd` through `sh -c`; `stdin` pipes the input to the child,
    /// `background` marks a template that detaches its job (probe appended).
    Shell { cmd: String, stdin: bool, background: bool },
}

/// The template with `@stdin` stripped when it asks for stdin delivery.
pub open spec fn stripped(t: Seq<char>) -> Seq<char> {
    if contains_seq(t, STDIN_MARKER@) {
        trim_seq(replace_seq(t, STDIN_MARKER@, seq![' ']))
    } else {
        t
    }
}

/// Stripping `@stdin` leaves no `@stdin` behind: every marker becomes a
/// space, and the command keeps no whitespace at either end.
pub proof fn lemma_stdin_marker_removed(t: Seq<char>)
    ensures
        !contains_seq(stripped(t), STDIN_MARKER@),
        contains_seq(t, STDIN_MARKER@) && stripped(t).len() > 0 ==> !is_ws(stripped(t)[0]) && !is_ws(
            stripped(t).last(),
        ),
{
    reveal_strlit("@stdin");
    if contains_seq(t, STDIN_MARKER@) {
        let r = replace_seq(t, STDIN_MARKER@, seq![' ']);
        assert(!STDIN_MARKER@.contains(' ')) by {
            assert forall|i: int| 0 <= i < STDIN_MARKER@.len() implies STDIN_MARKER@[i] != ' ' by {}
        }
        crate::text::lemma_replace_leaves_none(t, STDIN_MARKER@, ' ');
        crate::text::lemma_lead_bounds(r, 0);
        crate::text::lemma_trail_bounds(r, crate::text::lead(r, 0), r.len() as int);
        crate::text::lemma_subrange_no_occurrence(
            r,
            STDIN_MARKER@,
            crate::text::lead(r, 0),
            crate::text::trail(r, crate::text::lead(r, 0), r.len() as int),
        );
    }
}

/// The shell command for template `t` and `input`, probe included; `None`
/// when the template needs input and the input is blank.
pub open spec fn shell_command(t: Seq<char>, input: Seq<char>) -> Option<Seq<char>> {
    let c = stripped(t);
    if contains_seq(c, INPUT_PLACEHOLDER@) && blank(input) {
        None
    } else {
        let d = if contains_seq(c, INPUT_PLACEHOLDER@) {
            replace_seq(c, INPUT_PLACEHOLDER@, quoted(input))
        } else {
            c
        };
        Some(
            if backgrounded(d) {
                d + seq![' '] + probe(BG_GRACE_SECS@)
            } else {
                d
            },
        )
    }
}

/// `no command configured for <platform>`.
pub open spec fn no_command_msg(p: Platform) -> Seq<char> {
    "no command configured for "@ + platform_name(p)
}

/// What running `def` for `input` on `platform` takes.
///
/// 1. no non-blank command on either platform: `Failure("no command
///    configured for <platform>")`;
/// 2. a `@native clipboard` template: the clipboard backend;
/// 3. otherwise `@stdin` is stripped (input goes to stdin) and `{input}` is
///    replaced by the shell-quoted input; a blank input for a template that
///    needs one is `Failure("input required")`; a backgrounding command gets
///    the probe appended.
pub fn plan(def: &AliasDef, input: &str, platform: Platform) -> (r: Plan)
    ensures
        match chosen(def@, platform) {
            None => r matches Plan::Done(ExecOutcome::Failure(m)) && m@ == no_command_msg(platform),
            Some(t) => if trim_seq(t) == crate::clipboard::TEMPLATE@ {
                r == Plan::Clipboard
            } else {
                match shell_command(t, input@) {
                    None => r matches Plan::Done(ExecOutcome::Failure(m)) && m@ == "input required"@,
                    Some(c) => r matches Plan::Shell { cmd, stdin, background } && cmd@ == c && stdin
                        == contains_seq(t, STDIN_MARKER@) && background == backgrounded(
                        if contains_seq(stripped(t), INPUT_PLACEHOLDER@) {
                            replace_seq(stripped(t), INPUT_PLACEHOLDER@, quoted(input@))
                        } else {
                            stripped(t)
                        },
                    ),
                }
            },
        },
{
    proof {
        reveal_strlit("@stdin");
        reveal_strlit("{input}");
    }
    let template = match chosen_template(def, platform) {
        Some(t) => t,
        None => {
            return Plan::Done(ExecOutcome::Failure(cat2("no command configured for ", platform_label(platform))));
        },
    };
    if crate::clipboard::is_native(template) {
        return Plan::Clipboard;
    }
    let needs_stdin = contains(template, STDIN_MARKER);
    let mut cmd = if needs_stdin {
        let replaced = replace_all(template, STDIN_MARKER, " ");
        proof {
            assert(" "@ =~= seq![' ']) by {
                reveal_strlit(" ");
            }
        }
        trim(replaced.as_str())
    } else {
        owned(template)
    };
    if contains(cmd.as_str(), INPUT_PLACEHOLDER) {
        if is_blank(input) {
            return Plan::Done(ExecOutcome::Failure(owned("input required")));
        }
        let q = shell_quote(input);
        cmd = replace_all(cmd.as_str(), INPUT_PLACEHOLDER, q.as_str());
    }
    let bg = backgrounds(cmd.as_str());
    if bg {
        push_char(&mut cmd, ' ');
        let p = bg_probe(BG_GRACE_SECS);
        cmd.append(p.as_str());
    }
    Plan::Shell { cmd, stdin: needs_stdin, background: bg }
}

// ----------------------------------------------------------------------
// Reading the finished process
// ----------------------------------------------------------------------

/// `head`, plus `: <trimmed tail>` when the tail is not blank.
pub open spec fn failure_text(head: Seq<char>, tail: Seq<char>) -> Seq<char> {
    if trim_seq(tail).len() == 0 {
        head
    } else {
        head + ": "@ + trim_seq(tail)
    }
}

/// `exit 3: <stderr tail>`, with the tail dropped when the command wrote
/// nothing to stderr.
pub fn failure_message(head: &str, stderr_tail: &str) -> (r: String)
    ensures
        r@ == failure_text(head@, stderr_tail@),
{
    let tail = trim(stderr_tail);
    if tail.as_str().is_empty() {
        owned(head)
    } else {
        cat3(head, ": ", tail.as_str())
    }
}

/// The last `n` chars of `s`.
pub open spec fn last_chars(s: Seq<char>, n: nat) -> Seq<char> {
    if s.len() <= n {
        s
    } else {
        s.subrange(s.len() - n, s.len() as int)
    }
}

/// Last `n` chars of `s` (char-based, safe for multi-byte stderr).
pub fn tail_chars(s: &str, n: usize) -> (r: String)
    ensures
        r@ == last_chars(s@, n as nat),
{
    let v = chars_of(s);
    if v.len() <= n {
        string_of(&v, 0, v.len())
    } else {
        string_of(&v, v.len() - n, v.len())
    }
}

/// How many chars of stderr a failure message keeps.
pub const STDERR_TAIL: usize = 200;

/// The outcome of a finished shell run of alias `name`: success on a zero
/// exit, `Started` when a backgrounded job outlived the grace period, and a
/// failure naming the exit code (or the signal) with the tail of stderr.
pub fn outcome(name: &str, success: bool, background: bool, code: Option<i32>, stderr: &str) -> (r:
    ExecOutcome)
    ensures
        success ==> (r matches ExecOutcome::Success(m) && m@ == name@ + " ok"@),
        !success && background && code == Some(BG_STILL_RUNNING) ==> (r matches ExecOutcome::Started(
            m,
        ) && m@ == name@ + " started"@),
        !success && !(background && code == Some(BG_STILL_RUNNING)) ==> (r matches ExecOutcome::Failure(
            m,
        ) && m@ == failure_text(
            match code {
                Some(c) => "exit "@ + signed_decimal(c as int),
                None => "terminated by signal"@,
            },
            last_chars(stderr@, STDERR_TAIL as nat),
        )),
{
    if success {
        return ExecOutcome::Success(cat2(name, " ok"));
    }
    if background && code == Some(BG_STILL_RUNNING) {
        return ExecOutcome::Started(cat2(name, " started"));
    }
    let tail = tail_chars(stderr, STDERR_TAIL);
    match code {
        Some(c) => {
            let n = i64_to_string(c as i64);
            let head = cat2("exit ", n.as_str());
            ExecOutcome::Failure(failure_message(head.as_str(), tail.as_str()))
        },
        None => ExecOutcome::Failure(failure_message("terminated by signal", tail.as_str())),
    }
}

} // verus!
