//! Installed applications: reading desktop entries.
//!
//! The `app` alias resolves its input against what the desktop menu would
//! show. This module reads one `.desktop` file's text into an [`Entry`]:
//! only the `[Desktop Entry]` group counts, and of the ninety-odd
//! translations a file may carry only the user's own locale is kept.
//! Walking the directories is the binary's job.

use vstd::prelude::*;

use crate::keyspec::has_prefix;
use crate::order::{compare, seq_lt};
use crate::search::{first_where, lemma_first_found, lemma_first_none};
use crate::text::{
    blank, chars_of, contains, contains_seq, eq_fold, eq_ignore_case, eq_str, is_alphanumeric, is_blank, opt_str, owned,
    push_char, string_of, to_lowercase, trim, trim_seq, unicode_alnum, join, join_strings, unicode_lower, views,
};
use crate::launch::pinyin::{acronyms, acronyms_of, group_views, letters_fit};
use crate::words::{kept_pieces, kept_split, split_char, split_on, words, words_of};

verus! {

/// One installed application, as read from disk.
#[derive(Debug, Clone, PartialEq)]
pub struct Entry {
    /// Desktop id: file name minus ".desktop" (`org.gnome.Nautilus`).
    pub id: String,
    /// Full path to the `.desktop` file (the `.app` bundle on macOS).
    pub path: String,
    /// Display label: `Name[<locale>]` when present, else `Name`, else the id.
    pub name: String,
    /// The plain name and the translations that fit the user's locale.
    pub names: Vec<String>,
    /// Raw `Exec=` value (`/usr/bin/code %F`), field codes included.
    pub command: Option<String>,
    /// `Keywords` values (plain and the user's locale), split on `;`.
    pub keywords: Vec<String>,
    /// `NoDisplay=true` or `Hidden=true`.
    pub no_display: bool,
}

/// An entry as plain values.
pub struct EntryModel {
    pub id: Seq<char>,
    pub path: Seq<char>,
    pub name: Seq<char>,
    pub names: Seq<Seq<char>>,
    pub command: Option<Seq<char>>,
    pub keywords: Seq<Seq<char>>,
    pub no_display: bool,
}

impl View for Entry {
    type V = EntryModel;

    open spec fn view(&self) -> EntryModel {
        EntryModel {
            id: self.id@,
            path: self.path@,
            name: self.name@,
            names: views(self.names@),
            command: crate::alias::opt_view(self.command),
            keywords: views(self.keywords@),
            no_display: self.no_display,
        }
    }
}

/// A trimmed line that opens a group (`[Desktop Entry]`, `[Desktop Action x]`).
pub open spec fn is_header(t: Seq<char>) -> bool {
    t.len() > 0 && t[0] == '['
}

/// Whether the line after `ps` is still inside the `[Desktop Entry]` group
/// (a file starts inside it).
pub open spec fn in_entry_after(ps: Seq<Seq<char>>) -> bool
    decreases ps.len(),
{
    if ps.len() == 0 {
        true
    } else if is_header(trim_seq(ps.last())) {
        trim_seq(ps.last()) == "[Desktop Entry]"@
    } else {
        in_entry_after(ps.drop_last())
    }
}

/// The trimmed, non-empty, non-comment lines of the `[Desktop Entry]` group
/// among the raw lines `ps`.
pub open spec fn entry_lines_of(ps: Seq<Seq<char>>) -> Seq<Seq<char>>
    decreases ps.len(),
{
    if ps.len() == 0 {
        Seq::empty()
    } else {
        let prev = entry_lines_of(ps.drop_last());
        let t = trim_seq(ps.last());
        if t.len() > 0 && t[0] != '[' && t[0] != '#' && in_entry_after(ps.drop_last()) {
            prev.push(t)
        } else {
            prev
        }
    }
}

/// The `[Desktop Entry]` lines of a file's text: desktop actions and KDE
/// extras carry their own `Name`/`Exec` that must never win over the main
/// one.
pub open spec fn entry_lines(text: Seq<char>) -> Seq<Seq<char>> {
    entry_lines_of(split_on(text, '\n'))
}

/// Position `i` holds `=`.
pub open spec fn eq_at(line: Seq<char>) -> spec_fn(int) -> bool {
    |i: int| line[i] == '='
}

/// `key = value` of a line, both trimmed, split at the first `=`.
pub open spec fn key_value(line: Seq<char>) -> Option<(Seq<char>, Seq<char>)> {
    match first_where(line.len() as int, eq_at(line)) {
        Some(i) => Some((trim_seq(line.take(i)), trim_seq(line.skip(i + 1)))),
        None => None,
    }
}

/// The tag of `<prefix>tag]` (`Name[zh_CN]` with prefix `Name[`).
pub open spec fn tag_of(key: Seq<char>, prefix: Seq<char>) -> Option<Seq<char>> {
    if has_prefix(key, prefix) && key.len() >= prefix.len() + 1 && key.last() == ']' {
        Some(key.subrange(prefix.len() as int, key.len() - 1))
    } else {
        None
    }
}

/// Whether a `[tag]` translation belongs to the user's locale: the exact
/// tag, or its bare language (`zh_CN` also accepts a lone `zh`).
pub open spec fn wanted(locale: Option<Seq<char>>, tag: Seq<char>) -> bool {
    match locale {
        Some(l) => l == tag || split_on(l, '_')[0] == tag,
        None => false,
    }
}

/// What the entry lines seen so far say.
pub struct Scan {
    pub localized: Option<Seq<char>>,
    pub language: Option<Seq<char>>,
    pub plain: Option<Seq<char>>,
    pub keywords: Seq<Seq<char>>,
    pub command: Option<Seq<char>>,
    pub no_display: bool,
}

/// Nothing read yet.
pub open spec fn empty_scan() -> Scan {
    Scan {
        localized: None,
        language: None,
        plain: None,
        keywords: Seq::empty(),
        command: None,
        no_display: false,
    }
}

/// One entry line read into the scan: `Name` sets the plain name, a
/// `Name[tag]` in the user's locale the localized one and (first only) one
/// in the user's language the language name; wanted `Keywords` add their
/// `;`-separated words; `Exec` sets the command; `NoDisplay`/`Hidden`
/// equal to `true` (any case) hide the entry. Other lines change nothing.
pub open spec fn step(a: Scan, line: Seq<char>, locale: Option<Seq<char>>) -> Scan {
    match key_value(line) {
        None => a,
        Some(kv) => {
            let key = kv.0;
            let value = kv.1;
            if key == "Name"@ {
                Scan { plain: Some(value), ..a }
            } else if tag_of(key, "Name["@) is Some {
                let tag = tag_of(key, "Name["@)->0;
                if locale == Some(tag) {
                    Scan { localized: Some(value), ..a }
                } else if a.language is None && wanted(locale, tag) {
                    Scan { language: Some(value), ..a }
                } else {
                    a
                }
            } else if key == "Keywords"@ || has_prefix(key, "Keywords["@) {
                let keep = match tag_of(key, "Keywords["@) {
                    None => true,
                    Some(tag) => wanted(locale, tag),
                };
                if keep {
                    Scan { keywords: a.keywords + kept_pieces(split_on(value, ';')), ..a }
                } else {
                    a
                }
            } else if key == "Exec"@ {
                Scan { command: Some(value), ..a }
            } else if key == "NoDisplay"@ || key == "Hidden"@ {
                Scan { no_display: a.no_display || eq_fold(value, "true"@), ..a }
            } else {
                a
            }
        },
    }
}

/// The scan after reading `lines` in order.
pub open spec fn scan_lines(lines: Seq<Seq<char>>, locale: Option<Seq<char>>) -> Scan
    decreases lines.len(),
{
    if lines.len() == 0 {
        empty_scan()
    } else {
        step(scan_lines(lines.drop_last(), locale), lines.last(), locale)
    }
}

/// An empty or blank value counts as absent.
pub open spec fn non_empty(o: Option<Seq<char>>) -> Option<Seq<char>> {
    match o {
        Some(v) => if blank(v) {
            None
        } else {
            Some(v)
        },
        None => None,
    }
}

/// The first of three options that is set.
pub open spec fn first_set(a: Option<Seq<char>>, b: Option<Seq<char>>, c: Option<Seq<char>>) -> Option<
    Seq<char>,
> {
    if a is Some {
        a
    } else if b is Some {
        b
    } else {
        c
    }
}

/// The entry a file's text describes.
pub open spec fn parsed_entry(
    text: Seq<char>,
    id: Seq<char>,
    path: Seq<char>,
    locale: Option<Seq<char>>,
) -> EntryModel {
    let s = scan_lines(entry_lines(text), locale);
    let plain = non_empty(s.plain);
    let label = first_set(non_empty(s.localized), non_empty(s.language), plain);
    let names = match label {
        Some(l) => match plain {
            Some(p) => if p != l {
                seq![l, p]
            } else {
                seq![l]
            },
            None => seq![l],
        },
        None => Seq::empty(),
    };
    EntryModel {
        id,
        path,
        name: match label {
            Some(l) => l,
            None => id,
        },
        names,
        command: s.command,
        keywords: s.keywords,
        no_display: s.no_display,
    }
}

/// The `[Desktop Entry]` lines of `text`.
pub fn entry_lines_in(text: &str) -> (r: Vec<String>)
    ensures
        views(r@) == entry_lines(text@),
{
    let pieces = split_char(text, '\n');
    let ghost ps = split_on(text@, '\n');
    let n = pieces.len();
    let mut in_entry = true;
    let mut out: Vec<String> = Vec::new();
    for k in 0..n
        invariant
            n == pieces.len(),
            views(pieces@) == ps,
            in_entry == in_entry_after(ps.take(k as int)),
            views(out@) == entry_lines_of(ps.take(k as int)),
    {
        assert(ps.take(k + 1).drop_last() =~= ps.take(k as int));
        assert(ps.take(k + 1).last() == pieces@[k as int]@);
        let t = trim(pieces[k].as_str());
        let tv = chars_of(t.as_str());
        if tv.len() > 0 && tv[0] == '[' {
            in_entry = eq_str(t.as_str(), "[Desktop Entry]");
        } else if in_entry && tv.len() > 0 && tv[0] != '#' {
            let ghost before = out@;
            out.push(t);
            assert(views(out@) =~= views(before).push(tv@));
        }
    }
    assert(ps.take(n as int) =~= ps);
    out
}

/// `line.split_once('=')`, both halves trimmed.
fn split_key_value(line: &str) -> (r: Option<(String, String)>)
    ensures
        match key_value(line@) {
            Some(kv) => r matches Some(p) && p.0@ == kv.0 && p.1@ == kv.1,
            None => r is None,
        },
{
    let v = chars_of(line);
    let n = v.len();
    let mut i: usize = 0;
    while i < n && v[i] != '='
        invariant
            v@ == line@,
            n == v.len(),
            i <= n,
            forall|j: int| 0 <= j < i ==> !#[trigger] eq_at(line@)(j),
        decreases n - i,
    {
        i += 1;
    }
    if i == n {
        proof {
            lemma_first_none(n as int, eq_at(line@));
        }
        return None;
    }
    proof {
        lemma_first_found(n as int, eq_at(line@), i as int);
    }
    let k = string_of(&v, 0, i);
    let val = string_of(&v, i + 1, n);
    assert(k@ =~= line@.take(i as int));
    assert(val@ =~= line@.skip(i + 1));
    Some((trim(k.as_str()), trim(val.as_str())))
}

/// The tag of `<prefix>tag]`.
fn tag_in(key: &str, prefix: &str) -> (r: Option<String>)
    ensures
        match tag_of(key@, prefix@) {
            Some(t) => r matches Some(s) && s@ == t,
            None => r is None,
        },
{
    let k = chars_of(key);
    let p = chars_of(prefix);
    if k.len() <= p.len() || k[k.len() - 1] != ']' {
        return None;
    }
    let mut i: usize = 0;
    while i < p.len()
        invariant
            k@ == key@,
            p@ == prefix@,
            k.len() >= p.len() + 1,
            i <= p.len(),
            forall|j: int| 0 <= j < i ==> k@[j] == p@[j],
        decreases p.len() - i,
    {
        if k[i] != p[i] {
            assert(k@.subrange(0, p@.len() as int)[i as int] != p@[i as int]);
            return None;
        }
        i += 1;
    }
    assert(k@.subrange(0, p@.len() as int) =~= p@);
    Some(string_of(&k, p.len(), k.len() - 1))
}

/// Whether a `[tag]` translation belongs to the user's locale.
fn wanted_tag(locale: Option<&str>, tag: &str) -> (r: bool)
    ensures
        r == wanted(opt_str(locale), tag@),
{
    match locale {
        Some(l) => {
            if eq_str(l, tag) {
                return true;
            }
            let parts = split_char(l, '_');
            assert(views(parts@)[0] == parts@[0]@);
            eq_str(parts[0].as_str(), tag)
        },
        None => false,
    }
}

/// The scan as owned strings.
struct ScanState {
    localized: Option<String>,
    language: Option<String>,
    plain: Option<String>,
    keywords: Vec<String>,
    command: Option<String>,
    no_display: bool,
}

impl View for ScanState {
    type V = Scan;

    closed spec fn view(&self) -> Scan {
        Scan {
            localized: crate::alias::opt_view(self.localized),
            language: crate::alias::opt_view(self.language),
            plain: crate::alias::opt_view(self.plain),
            keywords: views(self.keywords@),
            command: crate::alias::opt_view(self.command),
            no_display: self.no_display,
        }
    }
}

/// Append the trimmed, non-empty `;`-pieces of `value` to `out`.
fn push_keywords(out: &mut Vec<String>, value: &str)
    ensures
        views(final(out)@) == views(old(out)@) + kept_pieces(split_on(value@, ';')),
{
    let parts = split_char(value, ';');
    let ghost ps = split_on(value@, ';');
    let n = parts.len();
    for i in 0..n
        invariant
            n == parts.len(),
            views(parts@) == ps,
            views(out@) == views(old(out)@) + kept_pieces(ps.take(i as int)),
    {
        assert(ps.take(i + 1).drop_last() =~= ps.take(i as int));
        assert(ps.take(i + 1).last() == parts@[i as int]@);
        let w = trim(parts[i].as_str());
        if !w.as_str().is_empty() {
            let ghost before = out@;
            out.push(w);
            assert(views(out@) =~= views(before).push(w@));
        }
    }
    assert(ps.take(n as int) =~= ps);
}

/// Read one entry line into the scan.
fn step_exec(acc: &mut ScanState, line: &str, locale: Option<&str>)
    ensures
        final(acc)@ == step(old(acc)@, line@, opt_str(locale)),
{
    let (key, value) = match split_key_value(line) {
        Some(kv) => kv,
        None => {
            return;
        },
    };
    let k = key.as_str();
    if eq_str(k, "Name") {
        acc.plain = Some(value);
        return;
    }
    match tag_in(k, "Name[") {
        Some(tag) => {
            let is_locale = match locale {
                Some(l) => eq_str(l, tag.as_str()),
                None => false,
            };
            if is_locale {
                acc.localized = Some(value);
            } else if acc.language.is_none() && wanted_tag(locale, tag.as_str()) {
                acc.language = Some(value);
            }
            return;
        },
        None => {},
    }
    let plain_keywords = eq_str(k, "Keywords");
    let tagged = tag_in(k, "Keywords[");
    let prefixed = {
        let kv = chars_of(k);
        let pv = chars_of("Keywords[");
        let mut ok = kv.len() >= pv.len();
        let mut i: usize = 0;
        while ok && i < pv.len()
            invariant
                kv@ == k@,
                pv@ == "Keywords["@,
                i <= pv.len(),
                ok ==> kv.len() >= pv.len(),
                ok ==> forall|j: int| 0 <= j < i ==> kv@[j] == pv@[j],
                !ok ==> !has_prefix(k@, "Keywords["@),
            decreases pv.len() - i,
        {
            if kv[i] != pv[i] {
                assert(kv@.subrange(0, pv@.len() as int)[i as int] != pv@[i as int]);
                ok = false;
                i = pv.len();
            } else {
                i += 1;
            }
        }
        if ok {
            assert(kv@.subrange(0, pv@.len() as int) =~= pv@);
        }
        ok
    };
    if plain_keywords || prefixed {
        let keep = match tagged {
            None => true,
            Some(tag) => wanted_tag(locale, tag.as_str()),
        };
        if keep {
            push_keywords(&mut acc.keywords, value.as_str());
        }
        return;
    }
    if eq_str(k, "Exec") {
        acc.command = Some(value);
        return;
    }
    if eq_str(k, "NoDisplay") || eq_str(k, "Hidden") {
        let t = eq_ignore_case(value.as_str(), "true");
        acc.no_display = acc.no_display || t;
    }
}

/// Treat an empty or blank assignment (`Name[zh_CN]=`) as absent.
fn non_empty_exec(value: Option<String>) -> (r: Option<String>)
    ensures
        crate::alias::opt_view(r) == non_empty(crate::alias::opt_view(value)),
{
    match value {
        Some(v) => if is_blank(v.as_str()) {
            None
        } else {
            Some(v)
        },
        None => None,
    }
}

/// Parse one `.desktop` file into an [`Entry`] for the user's `locale`.
/// Unknown and malformed lines are ignored, so a partially understood file
/// still answers to the keys it does carry.
///
/// Only the plain name and the translations for the user's locale are kept:
/// a file lists ninety-odd locales, and each of them would otherwise answer
/// in its own spelling and hide the app the user actually meant.
pub fn parse_with_locale(text: &str, id: &str, path: &str, locale: Option<&str>) -> (e: Entry)
    ensures
        e@ == parsed_entry(text@, id@, path@, opt_str(locale)),
{
    let lines = entry_lines_in(text);
    let ghost ls = entry_lines(text@);
    let mut acc = ScanState {
        localized: None,
        language: None,
        plain: None,
        keywords: Vec::new(),
        command: None,
        no_display: false,
    };
    assert(views(acc.keywords@) =~= Seq::<Seq<char>>::empty());
    let n = lines.len();
    for i in 0..n
        invariant
            n == lines.len(),
            views(lines@) == ls,
            acc@ == scan_lines(ls.take(i as int), opt_str(locale)),
    {
        assert(ls.take(i + 1).drop_last() =~= ls.take(i as int));
        assert(ls.take(i + 1).last() == lines@[i as int]@);
        step_exec(&mut acc, lines[i].as_str(), locale);
    }
    assert(ls.take(n as int) =~= ls);
    let localized = non_empty_exec(acc.localized);
    let language = non_empty_exec(acc.language);
    let plain = non_empty_exec(acc.plain);
    let label = if localized.is_some() {
        localized
    } else if language.is_some() {
        language
    } else {
        match &plain {
            Some(p) => Some(p.clone()),
            None => None,
        }
    };
    let mut names: Vec<String> = Vec::new();
    let name = match label {
        Some(l) => {
            names.push(l.clone());
            match plain {
                Some(p) => if !eq_str(p.as_str(), l.as_str()) {
                    names.push(p);
                },
                None => {},
            }
            l
        },
        None => owned(id),
    };
    let e = Entry {
        id: owned(id),
        path: owned(path),
        name,
        names,
        command: acc.command,
        keywords: acc.keywords,
        no_display: acc.no_display,
    };
    assert(e@.names =~= parsed_entry(text@, id@, path@, opt_str(locale)).names);
    e
}

/// Position `i` ends a locale's language part (`.` codeset, `@` modifier).
pub open spec fn locale_end_at(s: Seq<char>) -> spec_fn(int) -> bool {
    |i: int| s[i] == '.' || s[i] == '@'
}

/// The locale tag an environment value names: trimmed, codeset and
/// modifier stripped; `None` for empty, `C` and `POSIX`.
pub open spec fn locale_of(value: Seq<char>) -> Option<Seq<char>> {
    let t = trim_seq(value);
    let base = match first_where(t.len() as int, locale_end_at(t)) {
        Some(i) => t.take(i),
        None => t,
    };
    if base.len() == 0 || base == "C"@ || base == "POSIX"@ {
        None
    } else {
        Some(base)
    }
}

/// Strip codeset and modifier off an environment locale value
/// (`zh_CN.UTF-8` gives `zh_CN`).
pub fn normalize_locale(value: &str) -> (r: Option<String>)
    ensures
        crate::alias::opt_view(r) == locale_of(value@),
{
    let t = trim(value);
    let v = chars_of(t.as_str());
    let n = v.len();
    let mut i: usize = 0;
    while i < n && v[i] != '.' && v[i] != '@'
        invariant
            v@ == t@,
            n == v.len(),
            i <= n,
            forall|j: int| 0 <= j < i ==> !#[trigger] locale_end_at(t@)(j),
        decreases n - i,
    {
        i += 1;
    }
    if i == n {
        proof {
            lemma_first_none(n as int, locale_end_at(t@));
        }
    } else {
        proof {
            lemma_first_found(n as int, locale_end_at(t@), i as int);
        }
    }
    let base = string_of(&v, 0, i);
    assert(i == n ==> base@ =~= t@);
    assert(base@ =~= t@.take(i as int));
    let b = base.as_str();
    if b.is_empty() || eq_str(b, "C") || eq_str(b, "POSIX") {
        None
    } else {
        Some(base)
    }
}

/// Line `i` of `lines` assigns `key`.
pub open spec fn assigns_at(lines: Seq<Seq<char>>, key: Seq<char>) -> spec_fn(int) -> bool {
    |i: int| key_value(lines[i]) matches Some(kv) && kv.0 == key
}

/// The first value of `key` in the `[Desktop Entry]` group.
pub open spec fn field_of(text: Seq<char>, key: Seq<char>) -> Option<Seq<char>> {
    let ls = entry_lines(text);
    match first_where(ls.len() as int, assigns_at(ls, key)) {
        Some(i) => Some((key_value(ls[i])->0).1),
        None => None,
    }
}

/// First value of `key` in the `[Desktop Entry]` group.
pub fn field(text: &str, key: &str) -> (r: Option<String>)
    ensures
        crate::alias::opt_view(r) == field_of(text@, key@),
{
    let lines = entry_lines_in(text);
    let ghost ls = entry_lines(text@);
    let n = lines.len();
    for i in 0..n
        invariant
            n == lines.len(),
            views(lines@) == ls,
            ls == entry_lines(text@),
            forall|j: int| 0 <= j < i ==> !#[trigger] assigns_at(ls, key@)(j),
    {
        assert(ls[i as int] == lines@[i as int]@);
        match split_key_value(lines[i].as_str()) {
            Some((name, value)) => {
                if eq_str(name.as_str(), key) {
                    proof {
                        lemma_first_found(n as int, assigns_at(ls, key@), i as int);
                    }
                    return Some(value);
                }
            },
            None => {},
        }
    }
    proof {
        lemma_first_none(n as int, assigns_at(ls, key@));
    }
    None
}

/// Whether the boolean desktop key (`Hidden`, `NoDisplay`,
/// `DBusActivatable`) is `true` (any case).
pub open spec fn flag_of(text: Seq<char>, key: Seq<char>) -> bool {
    field_of(text, key) matches Some(v) && eq_fold(v, "true"@)
}

/// Boolean desktop key (`Hidden`, `NoDisplay`, `DBusActivatable`).
pub fn flag(text: &str, key: &str) -> (r: bool)
    ensures
        r == flag_of(text@, key@),
{
    match field(text, key) {
        Some(v) => eq_ignore_case(v.as_str(), "true"),
        None => false,
    }
}

/// True when the entry can run: an `Exec=` command, or DBus activation (some
/// GNOME apps ship no command and are started through their service file).
pub fn launchable(text: &str) -> (r: bool)
    ensures
        r == (!(field_of(text@, "Exec"@) is None || blank(field_of(text@, "Exec"@)->0)) || flag_of(
            text@,
            "DBusActivatable"@,
        )),
{
    let has_exec = match field(text, "Exec") {
        Some(e) => !is_blank(e.as_str()),
        None => false,
    };
    has_exec || flag(text, "DBusActivatable")
}

// ----------------------------------------------------------------------
// Matching an entry by name
// ----------------------------------------------------------------------

/// `c`'s text with only its alphanumeric chars kept, so `google chrome`
/// also spells `googlechrome`.
pub open spec fn alnum_only(s: Seq<char>) -> Seq<char> {
    s.filter(|c: char| unicode_alnum(c))
}

/// The words of `s`: its maximal runs of alphanumeric chars, split on
/// every other char (spaces, punctuation, dashes), so `foo-bar 2` spells
/// `foo`, `bar` and `2`.
pub open spec fn alnum_words(s: Seq<char>) -> Seq<Seq<char>>
    decreases s.len(),
{
    if s.len() == 0 {
        Seq::empty()
    } else {
        let p = alnum_words(s.drop_last());
        let c = s.last();
        if !unicode_alnum(c) {
            p
        } else if s.len() >= 2 && unicode_alnum(s[s.len() - 2]) && p.len() > 0 {
            p.update(p.len() - 1, p.last().push(c))
        } else {
            p.push(seq![c])
        }
    }
}

/// The last component of a path, as `Path::file_name` reads it; this
/// library names the answer instead of restating the path grammar.
pub uninterp spec fn path_file_name(path: Seq<char>) -> Option<Seq<char>>;

/// `Path::file_name` on `path`, as text. The contract claims only that the
/// answer is a function of the path (named [`path_file_name`]); how
/// separators, `.` and `..` are read is left to std.
#[verifier::external_body]
fn file_name(path: &str) -> (r: Option<String>)
    ensures
        crate::alias::opt_view(r) == path_file_name(path@),
{
    match std::path::Path::new(path).file_name() {
        Some(n) => Some(n.to_string_lossy().into_owned()),
        None => None,
    }
}

/// `keys` with `k` offered: taken when it has two chars or more and is not
/// listed yet.
pub open spec fn with_key(keys: Seq<Seq<char>>, k: Seq<char>) -> Seq<Seq<char>> {
    if k.len() >= 2 && !keys.contains(k) {
        keys.push(k)
    } else {
        keys
    }
}

/// `keys` with each of `ks` offered in turn.
pub open spec fn with_keys(keys: Seq<Seq<char>>, ks: Seq<Seq<char>>) -> Seq<Seq<char>>
    decreases ks.len(),
{
    if ks.len() == 0 {
        keys
    } else {
        with_key(with_keys(keys, ks.drop_last()), ks.last())
    }
}

/// Each word followed by its pinyin acronyms.
pub open spec fn word_keys(groups: Seq<(char, Seq<char>)>, ws: Seq<Seq<char>>) -> Seq<Seq<char>>
    decreases ws.len(),
{
    if ws.len() == 0 {
        Seq::empty()
    } else {
        word_keys(groups, ws.drop_last()) + seq![ws.last()] + acronyms_of(groups, ws.last())
    }
}

/// The keys one lower-cased name offers: itself, itself without separators,
/// each word with its acronyms, and the acronyms of the whole name.
pub open spec fn name_keys(groups: Seq<(char, Seq<char>)>, lower: Seq<char>) -> Seq<Seq<char>> {
    seq![lower, alnum_only(lower)] + word_keys(groups, alnum_words(lower)) + acronyms_of(groups, lower)
}

/// The keys of every name, in order.
pub open spec fn names_keys(groups: Seq<(char, Seq<char>)>, names: Seq<Seq<char>>) -> Seq<Seq<char>>
    decreases names.len(),
{
    if names.len() == 0 {
        Seq::empty()
    } else {
        names_keys(groups, names.drop_last()) + name_keys(groups, unicode_lower(names.last()))
    }
}

/// The lower-cased base name of the command's program, when there is one.
pub open spec fn command_keys(command: Option<Seq<char>>) -> Seq<Seq<char>> {
    match command {
        Some(c) => if words(c).len() > 0 {
            match path_file_name(words(c)[0]) {
                Some(b) => seq![unicode_lower(b)],
                None => Seq::empty(),
            }
        } else {
            Seq::empty()
        },
        None => Seq::empty(),
    }
}

/// Each keyword lower-cased, followed by its words.
pub open spec fn keyword_keys(kws: Seq<Seq<char>>) -> Seq<Seq<char>>
    decreases kws.len(),
{
    if kws.len() == 0 {
        Seq::empty()
    } else {
        keyword_keys(kws.drop_last()) + seq![unicode_lower(kws.last())] + alnum_words(
            unicode_lower(kws.last()),
        )
    }
}

/// Everything an entry offers as a key, in order: the lower-cased id and
/// its dot-separated segments, each name's keys, the command's base name,
/// the keywords.
pub open spec fn key_candidates(groups: Seq<(char, Seq<char>)>, e: EntryModel) -> Seq<Seq<char>> {
    let id = unicode_lower(e.id);
    seq![id] + kept_pieces(split_on(id, '.')) + names_keys(groups, e.names) + command_keys(e.command)
        + keyword_keys(e.keywords)
}

/// The match keys of an entry: its candidates with one-char keys and
/// repeats dropped, in the order they are first offered.
pub open spec fn keys_of(groups: Seq<(char, Seq<char>)>, e: EntryModel) -> Seq<Seq<char>> {
    with_keys(Seq::empty(), key_candidates(groups, e))
}

/// Whether `keys` lists `k`.
fn listed(keys: &Vec<String>, k: &str) -> (r: bool)
    ensures
        r == views(keys@).contains(k@),
{
    let n = keys.len();
    for i in 0..n
        invariant
            n == keys.len(),
            forall|j: int| 0 <= j < i ==> keys@[j]@ != k@,
    {
        if eq_str(keys[i].as_str(), k) {
            assert(views(keys@)[i as int] == k@);
            return true;
        }
    }
    proof {
        if views(keys@).contains(k@) {
            let j = choose|j: int| 0 <= j < views(keys@).len() && views(keys@)[j] == k@;
            assert(keys@[j]@ == k@);
        }
    }
    false
}

/// Offer `key` to `keys`.
fn push_key(keys: &mut Vec<String>, key: &str)
    ensures
        views(final(keys)@) == with_key(views(old(keys)@), key@),
{
    if chars_of(key).len() >= 2 && !listed(keys, key) {
        let ghost before = views(keys@);
        keys.push(owned(key));
        assert(views(keys@) =~= before.push(key@));
    }
}

/// Offer each of `ks` to `keys`, in order.
fn push_keys(keys: &mut Vec<String>, ks: &Vec<String>)
    ensures
        views(final(keys)@) == with_keys(views(old(keys)@), views(ks@)),
{
    let ghost start = views(keys@);
    let n = ks.len();
    for i in 0..n
        invariant
            n == ks.len(),
            views(keys@) == with_keys(start, views(ks@).take(i as int)),
    {
        assert(views(ks@).take(i + 1).drop_last() =~= views(ks@).take(i as int));
        push_key(keys, ks[i].as_str());
    }
    assert(views(ks@).take(n as int) =~= views(ks@));
}

/// Offering two lists in a row offers their concatenation.
proof fn lemma_with_keys_add(keys: Seq<Seq<char>>, a: Seq<Seq<char>>, b: Seq<Seq<char>>)
    ensures
        with_keys(with_keys(keys, a), b) == with_keys(keys, a + b),
    decreases b.len(),
{
    if b.len() == 0 {
        assert(a + b =~= a);
    } else {
        lemma_with_keys_add(keys, a, b.drop_last());
        assert((a + b).drop_last() =~= a + b.drop_last());
        assert((a + b).last() == b.last());
    }
}

/// Offering keys keeps the list free of repeats and of one-char keys.
proof fn lemma_with_keys_clean(keys: Seq<Seq<char>>, ks: Seq<Seq<char>>)
    requires
        keys.no_duplicates(),
        forall|i: int| 0 <= i < keys.len() ==> (#[trigger] keys[i]).len() >= 2,
    ensures
        with_keys(keys, ks).no_duplicates(),
        forall|i: int| 0 <= i < with_keys(keys, ks).len() ==> (#[trigger] with_keys(keys, ks)[i]).len() >= 2,
    decreases ks.len(),
{
    if ks.len() > 0 {
        lemma_with_keys_clean(keys, ks.drop_last());
        let p = with_keys(keys, ks.drop_last());
        let k = ks.last();
        if k.len() >= 2 && !p.contains(k) {
            let q = p.push(k);
            assert forall|i: int, j: int| 0 <= i < q.len() && 0 <= j < q.len() && i != j implies q[i]
                != q[j] by {
                if i == p.len() {
                    assert(p[j] == q[j]);
                } else if j == p.len() {
                    assert(p[i] == q[i]);
                }
            }
            assert forall|i: int| 0 <= i < q.len() implies (#[trigger] q[i]).len() >= 2 by {
                if i < p.len() {
                    assert(q[i] == p[i]);
                }
            }
        }
    }
}

/// Every offered key of two chars or more ends up listed.
proof fn lemma_with_keys_cover(keys: Seq<Seq<char>>, ks: Seq<Seq<char>>)
    ensures
        forall|k: Seq<char>| #[trigger] keys.contains(k) ==> with_keys(keys, ks).contains(k),
        forall|i: int| 0 <= i < ks.len() && (#[trigger] ks[i]).len() >= 2 ==> with_keys(keys, ks).contains(ks[i]),
    decreases ks.len(),
{
    if ks.len() > 0 {
        let init = ks.drop_last();
        lemma_with_keys_cover(keys, init);
        let p = with_keys(keys, init);
        let q = with_keys(keys, ks);
        assert forall|k: Seq<char>| p.contains(k) implies q.contains(k) by {
            let j = choose|j: int| 0 <= j < p.len() && p[j] == k;
            if q != p {
                assert(q == p.push(ks.last()));
                assert(q[j] == k);
            }
        }
        assert forall|i: int| 0 <= i < ks.len() && (#[trigger] ks[i]).len() >= 2 implies q.contains(ks[i]) by {
            if i < init.len() {
                assert(init[i] == ks[i]);
                assert(p.contains(ks[i]));
            } else if q == p {
                assert(p.contains(ks.last()));
            } else {
                assert(q[p.len() as int] == ks.last());
            }
        }
    }
}

/// Every key an entry offers that has two chars or more is one of its keys:
/// among them the lower-cased id, each of its dot-separated segments, each
/// lower-cased name and the command's lower-cased base name.
pub proof fn lemma_keys_cover(groups: Seq<(char, Seq<char>)>, e: EntryModel)
    ensures
        forall|i: int|
            0 <= i < key_candidates(groups, e).len() && (#[trigger] key_candidates(groups, e)[i]).len() >= 2
                ==> keys_of(groups, e).contains(key_candidates(groups, e)[i]),
{
    lemma_with_keys_cover(Seq::empty(), key_candidates(groups, e));
}

/// An entry's keys are distinct and each at least two chars long.
pub proof fn lemma_keys_clean(groups: Seq<(char, Seq<char>)>, e: EntryModel)
    ensures
        keys_of(groups, e).no_duplicates(),
        forall|i: int| 0 <= i < keys_of(groups, e).len() ==> (#[trigger] keys_of(groups, e)[i]).len() >= 2,
{
    lemma_with_keys_clean(Seq::empty(), key_candidates(groups, e));
}

/// `alnum_only`, owned.
fn alnum_text(s: &str) -> (r: String)
    ensures
        r@ == alnum_only(s@),
{
    let v = chars_of(s);
    let mut out = String::new();
    let n = v.len();
    for i in 0..n
        invariant
            n == v.len(),
            v@ == s@,
            out@ == alnum_only(s@.take(i as int)),
    {
        assert(s@.take(i + 1) =~= s@.take(i as int).push(v@[i as int]));
        proof {
            s@.take(i as int).lemma_filter_push(v@[i as int], |c: char| unicode_alnum(c));
        }
        if is_alphanumeric(v[i]) {
            push_char(&mut out, v[i]);
        }
    }
    assert(s@.take(n as int) =~= s@);
    out
}

/// `alnum_words`, owned.
fn alnum_word_list(s: &str) -> (r: Vec<String>)
    ensures
        views(r@) == alnum_words(s@),
{
    let v = chars_of(s);
    let mut out: Vec<String> = Vec::new();
    let n = v.len();
    for i in 0..n
        invariant
            n == v.len(),
            v@ == s@,
            views(out@) == alnum_words(s@.take(i as int)),
    {
        let ghost t = s@.take(i + 1);
        assert(t.drop_last() =~= s@.take(i as int));
        assert(t.last() == v@[i as int]);
        if is_alphanumeric(v[i]) {
            let joins = i >= 1 && is_alphanumeric(v[i - 1]) && out.len() > 0;
            if joins {
                assert(t[t.len() - 2] == v@[i - 1]);
                let ghost before = views(out@);
                let mut w = out.pop().unwrap();
                push_char(&mut w, v[i]);
                out.push(w);
                assert(views(out@) =~= before.update(before.len() - 1, before.last().push(v@[i as int])));
            } else {
                proof {
                    if i >= 1 {
                        assert(t[t.len() - 2] == v@[i - 1]);
                    }
                }
                let ghost before = views(out@);
                let mut w = String::new();
                push_char(&mut w, v[i]);
                out.push(w);
                assert(views(out@) =~= before.push(seq![v@[i as int]]));
            }
        }
    }
    assert(s@.take(n as int) =~= s@);
    out
}

/// Lowercase match keys for `entry`, deduped, one-character keys dropped.
///
/// The id (whole and dot-separated, so `org.gnome.Nautilus` answers to
/// `nautilus`), each name (whole, word by word, and with separators removed,
/// so `google chrome` also spells `googlechrome`), pinyin acronyms (`wjglq`
/// for `wen jian guan li qi`) and the executable's base name all point at the
/// entry: whatever the user calls the app, it is reachable. `groups` is the
/// pinyin reading table.
pub fn keys(groups: &[(char, &str)], entry: &Entry) -> (r: Vec<String>)
    requires
        letters_fit(group_views(groups@)),
    ensures
        views(r@) == keys_of(group_views(groups@), entry@),
{
    let ghost g = group_views(groups@);
    let ghost e = entry@;
    let mut keys: Vec<String> = Vec::new();
    assert(views(keys@) =~= Seq::<Seq<char>>::empty());
    let id = to_lowercase(entry.id.as_str());
    push_key(&mut keys, id.as_str());
    assert(views(keys@) == with_keys(Seq::empty(), seq![id@])) by {
        let one: Seq<Seq<char>> = seq![id@];
        assert(one.drop_last() =~= Seq::<Seq<char>>::empty());
        assert(with_keys(Seq::empty(), one.drop_last()) == Seq::<Seq<char>>::empty());
        assert(one.last() == id@);
    }
    let segments = kept_split(id.as_str(), '.');
    push_keys(&mut keys, &segments);
    proof {
        lemma_with_keys_add(Seq::empty(), seq![id@], views(segments@));
    }
    let ghost mut offered: Seq<Seq<char>> = seq![id@] + views(segments@);
    assert(views(keys@) == with_keys(Seq::empty(), offered));
    let nn = entry.names.len();
    for i in 0..nn
        invariant
            nn == entry.names.len(),
            g == group_views(groups@),
            letters_fit(g),
            e == entry@,
            offered == seq![unicode_lower(e.id)] + kept_pieces(split_on(unicode_lower(e.id), '.'))
                + names_keys(g, e.names.take(i as int)),
            views(keys@) == with_keys(Seq::empty(), offered),
    {
        assert(e.names.take(i + 1).drop_last() =~= e.names.take(i as int));
        assert(e.names.take(i + 1).last() == entry.names@[i as int]@);
        let lower = to_lowercase(entry.names[i].as_str());
        let mut local: Vec<String> = Vec::new();
        local.push(owned(lower.as_str()));
        local.push(alnum_text(lower.as_str()));
        assert(views(local@) =~= seq![lower@, alnum_only(lower@)]);
        let ws = alnum_word_list(lower.as_str());
        let nw = ws.len();
        for j in 0..nw
            invariant
                nw == ws.len(),
                views(ws@) == alnum_words(lower@),
                g == group_views(groups@),
                letters_fit(g),
                views(local@) == seq![lower@, alnum_only(lower@)] + word_keys(g, views(ws@).take(j as int)),
        {
            assert(views(ws@).take(j + 1).drop_last() =~= views(ws@).take(j as int));
            assert(views(ws@).take(j + 1).last() == ws@[j as int]@);
            let ghost before = views(local@);
            local.push(owned(ws[j].as_str()));
            let acr = acronyms(groups, ws[j].as_str());
            let na = acr.len();
            for k in 0..na
                invariant
                    na == acr.len(),
                    nw == ws.len(),
                    j < nw,
                    views(local@) == before + seq![ws@[j as int]@] + views(acr@).take(k as int),
            {
                let ghost b2 = views(local@);
                local.push(owned(acr[k].as_str()));
                assert(views(local@) =~= b2.push(acr@[k as int]@));
                assert(views(acr@).take(k + 1) =~= views(acr@).take(k as int).push(acr@[k as int]@));
                assert(before + seq![ws@[j as int]@] + views(acr@).take(k + 1) =~= b2.push(
                    acr@[k as int]@,
                ));
            }
            assert(views(acr@).take(na as int) =~= views(acr@));
            assert(views(ws@).take(j as int) + seq![ws@[j as int]@] =~= views(ws@).take(j + 1).drop_last()
                + seq![views(ws@).take(j + 1).last()]);
            assert(views(local@) =~= seq![lower@, alnum_only(lower@)] + word_keys(g, views(ws@).take(j + 1)));
        }
        assert(views(ws@).take(nw as int) =~= views(ws@));
        let whole = acronyms(groups, lower.as_str());
        let nacr = whole.len();
        let ghost mid = views(local@);
        for k in 0..nacr
            invariant
                nacr == whole.len(),
                views(local@) == mid + views(whole@).take(k as int),
        {
            let ghost b2 = views(local@);
            local.push(owned(whole[k].as_str()));
            assert(views(local@) =~= b2.push(whole@[k as int]@));
            assert(views(whole@).take(k + 1) =~= views(whole@).take(k as int).push(whole@[k as int]@));
        }
        assert(views(whole@).take(nacr as int) =~= views(whole@));
        assert(views(local@) =~= name_keys(g, lower@));
        push_keys(&mut keys, &local);
        proof {
            lemma_with_keys_add(Seq::empty(), offered, views(local@));
            offered = offered + views(local@);
        }
    }
    assert(e.names.take(nn as int) =~= e.names);
    let mut tail: Vec<String> = Vec::new();
    match &entry.command {
        Some(c) => {
            let ws = words_of(c.as_str());
            if ws.len() > 0 {
                match file_name(ws[0].as_str()) {
                    Some(b) => {
                        tail.push(to_lowercase(b.as_str()));
                    },
                    None => {},
                }
            }
        },
        None => {},
    }
    assert(views(tail@) =~= command_keys(e.command));
    let nk = entry.keywords.len();
    for i in 0..nk
        invariant
            nk == entry.keywords.len(),
            e == entry@,
            views(tail@) == command_keys(e.command) + keyword_keys(e.keywords.take(i as int)),
    {
        assert(e.keywords.take(i + 1).drop_last() =~= e.keywords.take(i as int));
        assert(e.keywords.take(i + 1).last() == entry.keywords@[i as int]@);
        let lower = to_lowercase(entry.keywords[i].as_str());
        let ghost before = views(tail@);
        tail.push(owned(lower.as_str()));
        let ws = alnum_word_list(lower.as_str());
        let nw = ws.len();
        for j in 0..nw
            invariant
                nw == ws.len(),
                views(tail@) == before + seq![lower@] + views(ws@).take(j as int),
        {
            let ghost b2 = views(tail@);
            tail.push(owned(ws[j].as_str()));
            assert(views(tail@) =~= b2.push(ws@[j as int]@));
            assert(views(ws@).take(j + 1) =~= views(ws@).take(j as int).push(ws@[j as int]@));
        }
        assert(views(ws@).take(nw as int) =~= views(ws@));
    }
    assert(e.keywords.take(nk as int) =~= e.keywords);
    push_keys(&mut keys, &tail);
    proof {
        lemma_with_keys_add(Seq::empty(), offered, views(tail@));
        assert(offered + views(tail@) =~= key_candidates(g, e));
    }
    keys
}

/// Input and names folded the same way: whitespace runs collapsed to single
/// spaces, ends trimmed, lower-cased.
pub open spec fn normalized(s: Seq<char>) -> Seq<char> {
    unicode_lower(join(words(s), " "@))
}

/// How well one key matches a normalized token: 4 equal, 3 when the key
/// starts with a token of two chars or more or the token starts with a key
/// of three chars or more, 2 when the key holds a token of three chars or
/// more, else 0.
pub open spec fn key_score_of(key: Seq<char>, token: Seq<char>) -> int {
    if key == token {
        4
    } else if has_prefix(key, token) && token.len() >= 2 {
        3
    } else if has_prefix(token, key) && key.len() >= 3 {
        3
    } else if contains_seq(key, token) && token.len() >= 3 {
        2
    } else {
        0
    }
}

/// The best score among `keys`, 0 when there is none.
pub open spec fn best_key_score(keys: Seq<Seq<char>>, token: Seq<char>) -> int
    decreases keys.len(),
{
    if keys.len() == 0 {
        0
    } else {
        let a = best_key_score(keys.drop_last(), token);
        let b = key_score_of(keys.last(), token);
        if a >= b {
            a
        } else {
            b
        }
    }
}

/// Match quality of `token` against entry `e`: 0 for a blank token, 5 when
/// the token is the entry's label or one of its names, else the best key
/// score.
pub open spec fn score_of(groups: Seq<(char, Seq<char>)>, e: EntryModel, token: Seq<char>) -> int {
    let t = normalized(token);
    if t.len() == 0 {
        0
    } else if normalized(e.name) == t || exists|i: int|
        0 <= i < e.names.len() && normalized(#[trigger] e.names[i]) == t {
        5
    } else {
        best_key_score(keys_of(groups, e), t)
    }
}

/// `normalized`, owned.
fn normalize(s: &str) -> (r: String)
    ensures
        r@ == normalized(s@),
{
    let ws = words_of(s);
    let joined = join_strings(&ws, " ");
    to_lowercase(joined.as_str())
}

/// `s` starts with `p`.
fn starts(s: &str, p: &str) -> (r: bool)
    ensures
        r == has_prefix(s@, p@),
{
    let v = chars_of(s);
    let w = chars_of(p);
    if w.len() > v.len() {
        return false;
    }
    let n = w.len();
    for i in 0..n
        invariant
            n == w.len() <= v.len(),
            v@ == s@,
            w@ == p@,
            forall|j: int| 0 <= j < i ==> v@[j] == w@[j],
    {
        if v[i] != w[i] {
            assert(s@.subrange(0, p@.len() as int)[i as int] != p@[i as int]);
            return false;
        }
    }
    assert(s@.subrange(0, p@.len() as int) =~= p@);
    true
}

fn key_score(key: &str, token: &str) -> (r: u8)
    ensures
        r == key_score_of(key@, token@),
{
    if eq_str(key, token) {
        return 4;
    }
    let tn = chars_of(token).len();
    let kn = chars_of(key).len();
    if starts(key, token) && tn >= 2 {
        return 3;
    }
    if starts(token, key) && kn >= 3 {
        return 3;
    }
    if contains(key, token) && tn >= 3 {
        return 2;
    }
    0
}

/// Match quality of `token` against `entry`: 5 whole name, 4 exact key,
/// 3 prefix in either direction, 2 substring, 0 no match.
///
/// The whole name is the strongest signal there is: a token equal to the
/// entry's label or one of its names picks that entry over one that merely
/// carries the words as a key. The length floors keep one- and two-letter
/// fragments from matching half the machine: a two-letter token only
/// prefixes, and a substring needs three.
pub fn score(groups: &[(char, &str)], entry: &Entry, token: &str) -> (r: u8)
    requires
        letters_fit(group_views(groups@)),
    ensures
        r == score_of(group_views(groups@), entry@, token@),
{
    let t = normalize(token);
    if t.as_str().is_empty() {
        return 0;
    }
    let whole = normalize(entry.name.as_str());
    let mut hit = eq_str(whole.as_str(), t.as_str());
    let n = entry.names.len();
    for i in 0..n
        invariant
            n == entry.names.len(),
            hit <==> (normalized(entry@.name) == t@ || exists|j: int|
                0 <= j < i && normalized(#[trigger] entry@.names[j]) == t@),
    {
        let name = normalize(entry.names[i].as_str());
        assert(entry@.names[i as int] == entry.names@[i as int]@);
        if eq_str(name.as_str(), t.as_str()) {
            hit = true;
        }
    }
    if hit {
        return 5;
    }
    let ks = keys(groups, entry);
    let mut best: u8 = 0;
    let m = ks.len();
    for i in 0..m
        invariant
            m == ks.len(),
            best == best_key_score(views(ks@).take(i as int), t@),
    {
        assert(views(ks@).take(i + 1).drop_last() =~= views(ks@).take(i as int));
        assert(views(ks@).take(i + 1).last() == ks@[i as int]@);
        let k = key_score(ks[i].as_str(), t.as_str());
        if k > best {
            best = k;
        }
    }
    assert(views(ks@).take(m as int) =~= views(ks@));
    best
}

/// `a` sorts strictly before `b` among equally good matches: visible
/// entries first, then by lower-cased label, then by id.
pub open spec fn entry_before(a: EntryModel, b: EntryModel) -> bool {
    ||| !a.no_display && b.no_display
    ||| a.no_display == b.no_display && seq_lt(unicode_lower(a.name), unicode_lower(b.name))
    ||| a.no_display == b.no_display && unicode_lower(a.name) == unicode_lower(b.name) && seq_lt(
        a.id,
        b.id,
    )
}

/// Position `i` of `s` sorts strictly after `x`.
pub open spec fn after_at(s: Seq<EntryModel>, x: EntryModel) -> spec_fn(int) -> bool {
    |i: int| entry_before(x, s[i])
}

/// `x` placed after every entry of `s` that does not sort after it.
pub open spec fn placed(s: Seq<EntryModel>, x: EntryModel) -> Seq<EntryModel> {
    match first_where(s.len() as int, after_at(s, x)) {
        Some(p) => s.insert(p, x),
        None => s.push(x),
    }
}

/// `s` sorted by [`entry_before`], equal entries in the order they came in.
pub open spec fn arranged(s: Seq<EntryModel>) -> Seq<EntryModel>
    decreases s.len(),
{
    if s.len() == 0 {
        s
    } else {
        placed(arranged(s.drop_last()), s.last())
    }
}

/// The highest score any of `es` reaches for `t`, 0 when none does.
pub open spec fn top_score(groups: Seq<(char, Seq<char>)>, es: Seq<EntryModel>, t: Seq<char>) -> int
    decreases es.len(),
{
    if es.len() == 0 {
        0
    } else {
        let a = top_score(groups, es.drop_last(), t);
        let b = score_of(groups, es.last(), t);
        if a >= b {
            a
        } else {
            b
        }
    }
}

/// The entries of `es` scoring `top` for `t`, in order.
pub open spec fn scoring(groups: Seq<(char, Seq<char>)>, es: Seq<EntryModel>, t: Seq<char>, top: int) -> Seq<
    EntryModel,
>
    decreases es.len(),
{
    if es.len() == 0 {
        Seq::empty()
    } else {
        scoring(groups, es.drop_last(), t, top) + if score_of(groups, es.last(), t) == top {
            seq![es.last()]
        } else {
            Seq::<EntryModel>::empty()
        }
    }
}

/// The top-scoring entries for `token`, sorted; none when the token is
/// blank or nothing scores.
pub open spec fn best_of(groups: Seq<(char, Seq<char>)>, es: Seq<EntryModel>, token: Seq<char>) -> Seq<
    EntryModel,
> {
    let t = normalized(token);
    let top = top_score(groups, es, t);
    if t.len() == 0 || top == 0 {
        Seq::empty()
    } else {
        arranged(scoring(groups, es, t, top))
    }
}

/// The models of a list of borrowed entries.
pub open spec fn entry_refs(v: Seq<&Entry>) -> Seq<EntryModel> {
    v.map_values(|e: &Entry| e@)
}

/// The models of a list of entries.
pub open spec fn entry_models(v: Seq<Entry>) -> Seq<EntryModel> {
    v.map_values(|e: Entry| e@)
}

/// Whether `a` sorts strictly before `b`.
fn before(a: &Entry, b: &Entry) -> (r: bool)
    ensures
        r == entry_before(a@, b@),
{
    if !a.no_display && b.no_display {
        return true;
    }
    if a.no_display != b.no_display {
        return false;
    }
    let la = to_lowercase(a.name.as_str());
    let lb = to_lowercase(b.name.as_str());
    let c = compare(&chars_of(la.as_str()), &chars_of(lb.as_str()));
    if c < 0 {
        return true;
    }
    if c > 0 {
        proof {
            crate::order::lemma_lt_asymmetric(lb@, la@);
        }
        return false;
    }
    compare(&chars_of(a.id.as_str()), &chars_of(b.id.as_str())) < 0
}

/// Top-scoring entries for `token`, visible ones first, then label, then id.
///
/// The order is stable, so "first match wins" never depends on directory
/// listing order. An empty result means nothing matched.
pub fn best<'a>(groups: &[(char, &str)], entries: &'a [Entry], token: &str) -> (r: Vec<&'a Entry>)
    requires
        letters_fit(group_views(groups@)),
    ensures
        entry_refs(r@) == best_of(group_views(groups@), entry_models(entries@), token@),
{
    let ghost g = group_views(groups@);
    let ghost es = entry_models(entries@);
    let t = normalize(token);
    if t.as_str().is_empty() {
        return Vec::new();
    }
    let n = entries.len();
    let mut scores: Vec<u8> = Vec::new();
    let mut top: u8 = 0;
    for i in 0..n
        invariant
            n == entries.len(),
            g == group_views(groups@),
            letters_fit(g),
            es == entry_models(entries@),
            scores.len() == i,
            forall|j: int| 0 <= j < i ==> scores@[j] == score_of(g, es[j], t@),
            top == top_score(g, es.take(i as int), t@),
    {
        assert(es.take(i + 1).drop_last() =~= es.take(i as int));
        assert(es.take(i + 1).last() == entries@[i as int]@);
        let sc = score(groups, &entries[i], t.as_str());
        scores.push(sc);
        if sc > top {
            top = sc;
        }
    }
    assert(es.take(n as int) =~= es);
    let mut out: Vec<&'a Entry> = Vec::new();
    if top == 0 {
        return out;
    }
    for i in 0..n
        invariant
            n == entries.len(),
            es == entry_models(entries@),
            scores.len() == n,
            forall|j: int| 0 <= j < n ==> scores@[j] == score_of(g, es[j], t@),
            entry_refs(out@) == arranged(scoring(g, es.take(i as int), t@, top as int)),
    {
        let ghost prev = scoring(g, es.take(i as int), t@, top as int);
        assert(es.take(i + 1).drop_last() =~= es.take(i as int));
        assert(es.take(i + 1).last() == entries@[i as int]@);
        if scores[i] == top {
            let x = &entries[i];
            let ghost s = entry_refs(out@);
            assert(scoring(g, es.take(i + 1), t@, top as int) =~= prev.push(x@));
            assert(prev.push(x@).drop_last() =~= prev);
            let m = out.len();
            let mut p: usize = m;
            let mut j: usize = 0;
            while j < m && p == m
                invariant
                    m == out.len(),
                    s == entry_refs(out@),
                    j <= m,
                    p <= m,
                    p == m ==> forall|k: int| 0 <= k < j ==> !#[trigger] after_at(s, x@)(k),
                    p < m ==> after_at(s, x@)(p as int) && forall|k: int|
                        0 <= k < p ==> !#[trigger] after_at(s, x@)(k),
                decreases m - j,
            {
                if before(x, out[j]) {
                    p = j;
                }
                j += 1;
            }
            proof {
                if p < m {
                    lemma_first_found(m as int, after_at(s, x@), p as int);
                } else {
                    lemma_first_none(m as int, after_at(s, x@));
                }
            }
            out.insert(p, x);
            proof {
                if p < m {
                    assert(entry_refs(out@) =~= s.insert(p as int, x@));
                } else {
                    assert(entry_refs(out@) =~= s.push(x@));
                }
            }
        } else {
            assert(scoring(g, es.take(i + 1), t@, top as int) =~= prev);
        }
    }
    assert(es.take(n as int) =~= es);
    out
}

/// No entry of `s` comes after one it sorts strictly before.
pub open spec fn in_order(s: Seq<EntryModel>) -> bool {
    forall|i: int, j: int| 0 <= i < j < s.len() ==> !entry_before(#[trigger] s[j], #[trigger] s[i])
}

/// The entry order is a strict order: asymmetric and transitive.
proof fn lemma_entry_order(a: EntryModel, b: EntryModel, c: EntryModel)
    ensures
        entry_before(a, b) ==> !entry_before(b, a),
        entry_before(a, b) && entry_before(b, c) ==> entry_before(a, c),
{
    let la = unicode_lower(a.name);
    let lb = unicode_lower(b.name);
    let lc = unicode_lower(c.name);
    crate::order::lemma_lt_asymmetric(la, lb);
    crate::order::lemma_lt_asymmetric(a.id, b.id);
    crate::order::lemma_lt_irreflexive(la);
    crate::order::lemma_lt_irreflexive(a.id);
    if seq_lt(la, lb) && seq_lt(lb, lc) {
        crate::order::lemma_lt_transitive(la, lb, lc);
    }
    if seq_lt(a.id, b.id) && seq_lt(b.id, c.id) {
        crate::order::lemma_lt_transitive(a.id, b.id, c.id);
    }
}

/// Arranging sorts the entries and keeps every one of them.
proof fn lemma_arranged(s: Seq<EntryModel>)
    ensures
        in_order(arranged(s)),
        arranged(s).to_multiset() == s.to_multiset(),
    decreases s.len(),
{
    if s.len() > 0 {
        let rest = s.drop_last();
        lemma_arranged(rest);
        let r = arranged(rest);
        let x = s.last();
        match first_where(r.len() as int, after_at(r, x)) {
            Some(p) => {
                crate::search::lemma_first_some(r.len() as int, after_at(r, x));
                let t = r.insert(p, x);
                assert forall|i: int, j: int| 0 <= i < j < t.len() implies !entry_before(
                    #[trigger] t[j],
                    #[trigger] t[i],
                ) by {
                    if i < p && j == p {
                        assert(!after_at(r, x)(i));
                    } else if i == p {
                        assert(t[j] == r[j - 1]);
                        assert(after_at(r, x)(p));
                        lemma_entry_order(r[j - 1], x, r[p]);
                        if j - 1 > p {
                            assert(!entry_before(r[j - 1], r[p]));
                        } else {
                            lemma_entry_order(x, r[p], x);
                        }
                    } else if j < p {
                        assert(t[i] == r[i] && t[j] == r[j]);
                    } else if i < p {
                        assert(t[i] == r[i] && t[j] == r[j - 1]);
                    } else {
                        assert(t[i] == r[i - 1] && t[j] == r[j - 1]);
                    }
                }
                vstd::seq_lib::to_multiset_insert(r, p, x);
            },
            None => {
                assert forall|k: int| 0 <= k < r.len() implies !#[trigger] after_at(r, x)(k) by {
                    if after_at(r, x)(k) {
                        lemma_least_after(r, x, k);
                    }
                }
                let t = r.push(x);
                assert forall|i: int, j: int| 0 <= i < j < t.len() implies !entry_before(
                    #[trigger] t[j],
                    #[trigger] t[i],
                ) by {
                    if j == r.len() {
                        assert(!after_at(r, x)(i));
                    } else {
                        assert(t[i] == r[i] && t[j] == r[j]);
                    }
                }
                vstd::seq_lib::to_multiset_build(r, x);
            },
        }
        assert(rest.push(x) =~= s);
        vstd::seq_lib::to_multiset_build(rest, x);
    }
}

/// A position where `x` sorts before the entry yields a first such position.
proof fn lemma_least_after(r: Seq<EntryModel>, x: EntryModel, k: int)
    requires
        0 <= k < r.len(),
        after_at(r, x)(k),
    ensures
        first_where(r.len() as int, after_at(r, x)) is Some,
    decreases k,
{
    if forall|j: int| 0 <= j < k ==> !#[trigger] after_at(r, x)(j) {
        lemma_first_found(r.len() as int, after_at(r, x), k);
    } else {
        let j = choose|j: int| 0 <= j < k && #[trigger] after_at(r, x)(j);
        lemma_least_after(r, x, j);
    }
}

/// No entry of `es` scores above the top score.
proof fn lemma_top_score(groups: Seq<(char, Seq<char>)>, es: Seq<EntryModel>, t: Seq<char>)
    ensures
        forall|i: int| 0 <= i < es.len() ==> score_of(groups, #[trigger] es[i], t) <= top_score(groups, es, t),
    decreases es.len(),
{
    if es.len() > 0 {
        lemma_top_score(groups, es.drop_last(), t);
        assert forall|i: int| 0 <= i < es.len() implies score_of(groups, #[trigger] es[i], t) <= top_score(
            groups,
            es,
            t,
        ) by {
            if i < es.len() - 1 {
                assert(es[i] == es.drop_last()[i]);
            }
        }
    }
}

/// The entries scoring `top` all do.
proof fn lemma_scoring(groups: Seq<(char, Seq<char>)>, es: Seq<EntryModel>, t: Seq<char>, top: int)
    ensures
        forall|i: int|
            0 <= i < scoring(groups, es, t, top).len() ==> score_of(
                groups,
                #[trigger] scoring(groups, es, t, top)[i],
                t,
            ) == top,
    decreases es.len(),
{
    if es.len() > 0 {
        lemma_scoring(groups, es.drop_last(), t, top);
        let p = scoring(groups, es.drop_last(), t, top);
        assert forall|i: int| 0 <= i < scoring(groups, es, t, top).len() implies score_of(
            groups,
            #[trigger] scoring(groups, es, t, top)[i],
            t,
        ) == top by {
            if i < p.len() {
                assert(scoring(groups, es, t, top)[i] == p[i]);
            }
        }
    }
}

/// What [`best`] returns: the entries tied at the highest score, none of
/// them scoring zero, no entry scoring higher, sorted visible first, then by
/// label, then by id, and each top scorer listed exactly as often as it
/// occurs.
pub proof fn lemma_best_is_the_sorted_top(groups: Seq<(char, Seq<char>)>, es: Seq<EntryModel>, token: Seq<char>)
    ensures
        in_order(best_of(groups, es, token)),
        forall|i: int|
            0 <= i < best_of(groups, es, token).len() ==> score_of(
                groups,
                #[trigger] best_of(groups, es, token)[i],
                normalized(token),
            ) == top_score(groups, es, normalized(token)) && top_score(groups, es, normalized(token)) > 0,
        forall|i: int|
            0 <= i < es.len() ==> score_of(groups, #[trigger] es[i], normalized(token)) <= top_score(
                groups,
                es,
                normalized(token),
            ),
        best_of(groups, es, token).len() > 0 ==> best_of(groups, es, token).to_multiset() == scoring(
            groups,
            es,
            normalized(token),
            top_score(groups, es, normalized(token)),
        ).to_multiset(),
{
    let t = normalized(token);
    let top = top_score(groups, es, t);
    lemma_top_score(groups, es, t);
    let s = scoring(groups, es, t, top);
    lemma_arranged(s);
    lemma_scoring(groups, es, t, top);
    if t.len() != 0 && top != 0 {
        let r = arranged(s);
        assert forall|i: int| 0 <= i < r.len() implies score_of(groups, #[trigger] r[i], t) == top by {
            assert(r.contains(r[i]));
            vstd::seq_lib::to_multiset_contains(r, r[i]);
            vstd::seq_lib::to_multiset_contains(s, r[i]);
            assert(s.contains(r[i]));
            let k = choose|k: int| 0 <= k < s.len() && s[k] == r[i];
            assert(score_of(groups, s[k], t) == top);
        }
        lemma_top_nonneg(groups, es, t);
    }
}

/// The top score is never negative.
proof fn lemma_top_nonneg(groups: Seq<(char, Seq<char>)>, es: Seq<EntryModel>, t: Seq<char>)
    ensures
        top_score(groups, es, t) >= 0,
    decreases es.len(),
{
    if es.len() > 0 {
        lemma_top_nonneg(groups, es.drop_last(), t);
    }
}

} // verus!
