//! Wake-key specification: parse (`"alt+d"`), describe, and render as a
//! readline escape sequence for `bind`/`bindkey`.

use vstd::prelude::*;

use crate::search::{first_where, lemma_first_found, lemma_first_none};
use crate::text::{
    cat2, cat3, cat4, chars_of, eq_str, is_alnum, is_ascii_alnum, lower, lower_seq, owned,
    push_char, string_of, to_lower, trim, trim_seq,
};

verus! {

/// A key spec (wake key / command-palette key): one alphanumeric char plus
/// exactly one modifier (`alt` xor `ctrl`).
#[derive(Debug, Clone, Copy, PartialEq, Eq, Structural)]
pub struct KeySpec {
    pub alt: bool,
    pub ctrl: bool,
    pub ch: char,
}

/// Default wake key, as a spec string.
pub const DEFAULT_SPEC: &'static str = "alt+d";

/// Default command-palette key spec (same key as the default wake key).
pub const DEFAULT_COMMAND_SPEC: &'static str = "alt+d";

/// [`DEFAULT_SPEC`] already parsed, for fallbacks.
pub fn default_key() -> (k: KeySpec)
    ensures
        k == (KeySpec { alt: true, ctrl: false, ch: 'd' }),
{
    KeySpec { alt: true, ctrl: false, ch: 'd' }
}

/// [`DEFAULT_COMMAND_SPEC`] already parsed, for fallbacks.
pub fn default_command_key() -> (k: KeySpec)
    ensures
        k == (KeySpec { alt: true, ctrl: false, ch: 'd' }),
{
    default_key()
}

/// Debug formatting of a string (`{:?}`): quoted, with std's escapes. The
/// escaping rules are std's and are named here rather than restated.
pub uninterp spec fn debug_quoted(s: Seq<char>) -> Seq<char>;

/// `format!("{:?}", s)`: the quoted, escaped form of `s`, a function of the
/// text alone.
#[verifier::external_body]
pub(crate) fn debug_str(s: &str) -> (r: String)
    ensures
        r@ == debug_quoted(s@),
{
    format!("{s:?}")
}

/// Reason for a key with both modifiers.
pub const COMBO: &'static str = "alt+ctrl combo unsupported";

/// Reason for a spec without a `+`.
pub const EXPECTED: &'static str = "expected \"alt+<c>\" or \"ctrl+<c>\"";

/// Reason for anything but one char after the `+`.
pub const SINGLE: &'static str = "expected a single character after '+'";

/// Reason for a char that is no letter or digit.
pub const ALNUM: &'static str = "character must be a letter or digit";

/// `h` starts with `p`.
pub open spec fn has_prefix(h: Seq<char>, p: Seq<char>) -> bool {
    h.len() >= p.len() && h.subrange(0, p.len() as int) == p
}

/// Position `i` holds a `+`.
pub open spec fn plus_at(t: Seq<char>) -> spec_fn(int) -> bool {
    |i: int| t[i] == '+'
}

/// The key a trimmed spec text denotes, or the reason it denotes none.
pub open spec fn key_of(t: Seq<char>) -> Result<KeySpec, Seq<char>> {
    let low = lower_seq(t);
    if has_prefix(low, "alt+ctrl+"@) || has_prefix(low, "ctrl+alt+"@) {
        Err(COMBO@)
    } else {
        match first_where(t.len() as int, plus_at(t)) {
            None => Err(EXPECTED@),
            Some(p) => {
                let m = t.subrange(0, p);
                let rest = t.subrange(p + 1, t.len() as int);
                if m != "alt"@ && m != "ctrl"@ {
                    Err("unknown modifier "@ + debug_quoted(m) + " (lowercase \"alt\" or \"ctrl\" only)"@)
                } else if rest.len() != 1 {
                    Err(SINGLE@)
                } else if !is_alnum(rest[0]) {
                    Err(ALNUM@)
                } else {
                    Ok(KeySpec { alt: m == "alt"@, ctrl: m != "alt"@, ch: lower(rest[0]) })
                }
            },
        }
    }
}

/// The result of parsing `spec`: the key, or the full error message.
pub open spec fn parsed(spec: Seq<char>) -> Result<KeySpec, Seq<char>> {
    match key_of(trim_seq(spec)) {
        Ok(k) => Ok(k),
        Err(reason) => Err("invalid key "@ + debug_quoted(spec) + ": "@ + reason),
    }
}

/// Whether `v[..]` starts with the chars of `p`.
fn starts_with_chars(v: &Vec<char>, p: &str) -> (r: bool)
    ensures
        r == has_prefix(v@, p@),
{
    let pv = chars_of(p);
    if pv.len() > v.len() {
        return false;
    }
    let mut i: usize = 0;
    while i < pv.len()
        invariant
            pv@ == p@,
            pv.len() <= v.len(),
            i <= pv.len(),
            forall|j: int| 0 <= j < i ==> v@[j] == pv@[j],
        decreases pv.len() - i,
    {
        if v[i] != pv[i] {
            assert(v@.subrange(0, pv@.len() as int)[i as int] != pv@[i as int]);
            return false;
        }
        i += 1;
    }
    assert(v@.subrange(0, pv@.len() as int) =~= pv@);
    true
}

/// The reason-or-key for trimmed spec chars `t`.
fn key_from(t: &Vec<char>) -> (r: Result<KeySpec, String>)
    ensures
        match key_of(t@) {
            Ok(k) => r == Ok::<KeySpec, String>(k),
            Err(reason) => r matches Err(e) && e@ == reason,
        },
{
    let mut low: Vec<char> = Vec::new();
    let n = t.len();
    for i in 0..n
        invariant
            n == t.len(),
            low@ == lower_seq(t@).take(i as int),
    {
        low.push(to_lower(t[i]));
        assert(low@ =~= lower_seq(t@).take(i + 1));
    }
    assert(low@ =~= lower_seq(t@));
    if starts_with_chars(&low, "alt+ctrl+") || starts_with_chars(&low, "ctrl+alt+") {
        return Err(owned(COMBO));
    }
    let mut p: usize = 0;
    while p < n && t[p] != '+'
        invariant
            n == t.len(),
            p <= n,
            forall|j: int| 0 <= j < p ==> !#[trigger] plus_at(t@)(j),
        decreases n - p,
    {
        p += 1;
    }
    if p == n {
        proof {
            lemma_first_none(n as int, plus_at(t@));
        }
        return Err(owned(EXPECTED));
    }
    proof {
        lemma_first_found(n as int, plus_at(t@), p as int);
    }
    let m = string_of(t, 0, p);
    let alt = eq_str(m.as_str(), "alt");
    let ctrl = eq_str(m.as_str(), "ctrl");
    if !alt && !ctrl {
        let q = debug_str(m.as_str());
        return Err(cat3("unknown modifier ", q.as_str(), " (lowercase \"alt\" or \"ctrl\" only)"));
    }
    if n - (p + 1) != 1 {
        return Err(owned(SINGLE));
    }
    let c = t[p + 1];
    assert(t@.subrange(p + 1, n as int)[0] == c);
    if !is_ascii_alnum(c) {
        return Err(owned(ALNUM));
    }
    Ok(KeySpec { alt, ctrl: !alt, ch: to_lower(c) })
}

/// Parse `"alt+<c>"` / `"ctrl+<c>"`. The modifier must be lowercase; the
/// character may be any case and is stored lowercase. Trimmed input is fine.
/// Multi-modifier combos (`alt+ctrl+x`, `ctrl+alt+x`) are rejected explicitly.
pub fn parse(spec: &str) -> (r: Result<KeySpec, String>)
    ensures
        match parsed(spec@) {
            Ok(k) => r == Ok::<KeySpec, String>(k),
            Err(m) => r matches Err(e) && e@ == m,
        },
{
    let s = trim(spec);
    let t = chars_of(s.as_str());
    match key_from(&t) {
        Ok(k) => Ok(k),
        Err(reason) => {
            let q = debug_str(spec);
            Err(cat4("invalid key ", q.as_str(), ": ", reason.as_str()))
        },
    }
}

/// Canonical text of a key: `alt+d` / `ctrl+g`.
pub open spec fn described(k: KeySpec) -> Seq<char> {
    (if k.alt {
        "alt"@
    } else {
        "ctrl"@
    }) + "+"@ + seq![k.ch]
}

/// Canonical text form: `"alt+d"` / `"ctrl+g"` (lowercase throughout).
pub fn describe(k: &KeySpec) -> (r: String)
    ensures
        r@ == described(*k),
{
    let mut r = if k.alt {
        cat2("alt", "+")
    } else {
        cat2("ctrl", "+")
    };
    push_char(&mut r, k.ch);
    r
}

/// Which key a terminal event names.
#[derive(Debug, Clone, Copy, PartialEq, Eq, Structural)]
pub enum Key {
    Char(char),
    Esc,
    Enter,
    Tab,
    Backspace,
    Delete,
    Up,
    Down,
    Left,
    Right,
    Home,
    End,
    /// Any other key (function keys, page keys, ...).
    Other,
}

/// A key event as the terminal reports it: the key, the modifiers held
/// (`extra` for SUPER, HYPER or META), and whether it is a press (not a
/// release or repeat).
#[derive(Debug, Clone, Copy, PartialEq, Eq, Structural)]
pub struct KeyPress {
    pub code: Key,
    pub alt: bool,
    pub ctrl: bool,
    pub shift: bool,
    pub extra: bool,
    pub press: bool,
}

impl KeyPress {
    /// A press of `code` with exactly the given alt/ctrl modifiers.
    pub fn new(code: Key, alt: bool, ctrl: bool) -> (k: KeyPress)
        ensures
            k == (KeyPress { code, alt, ctrl, shift: false, extra: false, press: true }),
    {
        KeyPress { code, alt, ctrl, shift: false, extra: false, press: true }
    }
}

/// No modifier at all is held.
pub open spec fn unmodified(key: KeyPress) -> bool {
    !key.alt && !key.ctrl && !key.shift && !key.extra
}

/// Whether `key` is exactly the key `k` names.
pub open spec fn hits(k: KeySpec, key: KeyPress) -> bool {
    &&& key.press
    &&& key.code matches Key::Char(c) && lower(c) == lower(k.ch)
    &&& key.alt == k.alt
    &&& key.ctrl == k.ctrl
}

/// True when `key` is exactly the wake key: a press of the spec's char
/// (ASCII case-insensitive) with the exact alt/ctrl modifiers; SHIFT is
/// ignored.
pub fn matches(k: &KeySpec, key: &KeyPress) -> (r: bool)
    ensures
        r == hits(*k, *key),
{
    if !key.press || key.alt != k.alt || key.ctrl != k.ctrl {
        return false;
    }
    match key.code {
        Key::Char(c) => to_lower(c) == to_lower(k.ch),
        _ => false,
    }
}

/// Readline escape text for a key: `\e<c>` for alt keys, `\C-<c>` for
/// ctrl keys (the literal characters, not a control byte).
pub open spec fn readline_of(k: KeySpec) -> Seq<char> {
    if k.alt {
        seq!['\\', 'e', k.ch]
    } else {
        seq!['\\', 'C', '-', k.ch]
    }
}

/// Readline escape text as written inside `bind`/`bindkey`: `"\\ed"` for
/// alt keys, `"\\C-g"` for ctrl keys.
pub fn readline_seq(k: &KeySpec) -> (r: String)
    ensures
        r@ == readline_of(*k),
{
    let mut r = String::new();
    push_char(&mut r, '\\');
    if k.alt {
        push_char(&mut r, 'e');
    } else {
        push_char(&mut r, 'C');
        push_char(&mut r, '-');
    }
    push_char(&mut r, k.ch);
    assert(r@ =~= readline_of(*k));
    r
}

/// A key that `parse` can produce: exactly one modifier, a lowercase ASCII
/// letter or digit.
pub open spec fn canonical(k: KeySpec) -> bool {
    k.alt != k.ctrl && is_alnum(k.ch) && lower(k.ch) == k.ch
}

/// Every parsed key is canonical, and describing it gives back the spec
/// text trimmed and ASCII-lower-cased.
pub proof fn lemma_parse_then_describe(spec: Seq<char>)
    requires
        parsed(spec) is Ok,
    ensures
        canonical(parsed(spec)->Ok_0),
        described(parsed(spec)->Ok_0) == lower_seq(trim_seq(spec)),
{
    reveal_strlit("alt");
    reveal_strlit("ctrl");
    reveal_strlit("+");
    let t = trim_seq(spec);
    let p = first_where(t.len() as int, plus_at(t))->0;
    crate::search::lemma_first_some(t.len() as int, plus_at(t));
    let m = t.subrange(0, p);
    let k = parsed(spec)->Ok_0;
    assert(t =~= m + seq!['+'] + t.subrange(p + 1, t.len() as int));
    assert(lower_seq(t) =~= lower_seq(m) + seq!['+'] + seq![lower(t[p + 1])]);
    assert(lower_seq(m) =~= m);
    assert(described(k) =~= lower_seq(t));
}

/// Describing a canonical key and parsing the text gives the key back.
pub proof fn lemma_describe_then_parse(k: KeySpec)
    requires
        canonical(k),
    ensures
        parsed(described(k)) == Ok::<KeySpec, Seq<char>>(k),
{
    reveal_strlit("alt");
    reveal_strlit("ctrl");
    reveal_strlit("+");
    reveal_strlit("alt+ctrl+");
    reveal_strlit("ctrl+alt+");
    let d = described(k);
    crate::text::lemma_lead_bounds(d, 0);
    assert(!crate::text::is_ws(d[0]));
    assert(crate::text::lead(d, 0) == 0);
    crate::text::lemma_trail_bounds(d, 0, d.len() as int);
    assert(!crate::text::is_ws(d[d.len() - 1]));
    assert(trim_seq(d) =~= d);
    let p: int = if k.alt {
        3
    } else {
        4
    };
    assert(d[p] == '+');
    assert forall|j: int| 0 <= j < p implies !#[trigger] plus_at(d)(j) by {
        assert(d[j] != '+');
    }
    lemma_first_found(d.len() as int, plus_at(d), p);
    let low = lower_seq(d);
    if k.alt {
        assert(!has_prefix(low, "alt+ctrl+"@)) by {
            assert(low.len() == 5);
        }
        assert(!has_prefix(low, "ctrl+alt+"@)) by {
            assert(low[0] == 'a');
        }
        assert(d.subrange(0, p) =~= "alt"@);
    } else {
        assert(!has_prefix(low, "alt+ctrl+"@)) by {
            assert(low[0] == 'c');
        }
        assert(!has_prefix(low, "ctrl+alt+"@)) by {
            assert(low.len() == 6);
        }
        assert(d.subrange(0, p) =~= "ctrl"@);
        assert(d.subrange(0, p) != "alt"@) by {
            assert("alt"@.len() == 3);
        }
    }
    assert(d.subrange(p + 1, d.len() as int) =~= seq![k.ch]);
}

} // verus!
