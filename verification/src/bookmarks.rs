//! Chrome/Chromium bookmark import: parse the browser's `Bookmarks` JSON
//! tree into URL entries, and turn those into concrete shortcut rows
//! (`key => url`) on an existing alias. Locating and reading the file stay
//! in the binary.

use vstd::prelude::*;
use vstd::set_lib::{lemma_int_range, lemma_len_subset, lemma_map_size, set_int_range};

use crate::alias::{alias_views, find_named, named, not_found_msg, with_shortcuts, AliasDef, AliasView};
use crate::order::{compare, lemma_lt_asymmetric, lemma_lt_total, lemma_lt_transitive, seq_lt};
use crate::search::{first_where, lemma_first_found, lemma_first_none, lemma_first_some};
use crate::shortcuts::ShortcutMap;
use crate::text::{cat2, cat3, decimal, lemma_decimal_injective, u64_to_string, views, chars_of, eq_str, is_blank, lower, owned, string_of, to_lower, trim, trim_seq};

verus! {

broadcast use vstd::std_specs::vec::group_vec_axioms;

/// Hard cap on entries imported in one run.
pub const MAX_IMPORT: usize = 300;

/// A JSON document as plain values; object members keep the order the
/// parser yields them in. A number carries its value when it is a
/// non-negative integer that fits a `u64` (`Number::as_u64`), else `None`.
#[derive(Debug)]
pub enum Json {
    Null,
    Bool(bool),
    Number(Option<u64>),
    Str(String),
    Array(Vec<Json>),
    Object(Vec<(String, Json)>),
}

#[verifier::external_type_specification]
#[verifier::external_body]
pub struct ExJsonValue(serde_json::Value);

/// What `serde_json` parses `text` to, as a [`Json`] tree, or its error
/// message.
pub uninterp spec fn json_text(text: Seq<char>) -> Result<Json, Seq<char>>;

/// A `serde_json::Value` as a [`Json`] tree, variant by variant; a number
/// keeps what `Number::as_u64` reads of it.
#[verifier::external_body]
fn json_of(v: serde_json::Value) -> Json {
    match v {
        serde_json::Value::Null => Json::Null,
        serde_json::Value::Bool(b) => Json::Bool(b),
        serde_json::Value::Number(n) => Json::Number(n.as_u64()),
        serde_json::Value::String(s) => Json::Str(s),
        serde_json::Value::Array(a) => Json::Array(a.into_iter().map(json_of).collect()),
        serde_json::Value::Object(o) => Json::Object(o.into_iter().map(|(k, v)| (k, json_of(v))).collect()),
    }
}

/// `serde_json::from_str::<serde_json::Value>(text)`: the tree, or the
/// parser's error message; a function of the text alone.
#[verifier::external_body]
pub(crate) fn parse_json(text: &str) -> (r: Result<Json, String>)
    ensures
        match json_text(text@) {
            Ok(j) => r == Ok::<Json, String>(j),
            Err(m) => r matches Err(e) && e@ == m,
        },
{
    match serde_json::from_str::<serde_json::Value>(text) {
        Ok(v) => Ok(json_of(v)),
        Err(e) => Err(e.to_string()),
    }
}

/// One bookmark worth importing.
#[derive(Debug, Clone, PartialEq)]
pub struct Entry {
    /// Bookmark title; blank titles fall back to the URL host for the key.
    pub title: String,
    /// `http`/`https` URL, never blank.
    pub url: String,
    /// Normalized parent-folder chain (`"Dev/Tools"`); empty at the top level.
    pub folder: String,
}

/// An entry as plain values: title, url, folder chain.
pub type EntryModel = (Seq<char>, Seq<char>, Seq<char>);

/// The model of an entry.
pub open spec fn entry_model(e: Entry) -> EntryModel {
    (e.title@, e.url@, e.folder@)
}

/// The models of a list of entries.
pub open spec fn entry_models(v: Seq<Entry>) -> Seq<EntryModel> {
    v.map_values(|e: Entry| entry_model(e))
}

/// Member `i` of `fields` is named `key`.
pub open spec fn named_at(fields: Vec<(String, Json)>, key: Seq<char>) -> spec_fn(int) -> bool {
    |i: int| fields[i].0@ == key
}

/// The member named `key` of an object (the first one), if `j` is an
/// object that has it.
pub open spec fn member(j: Json, key: Seq<char>) -> Option<Json> {
    match j {
        Json::Object(fields) => match first_where(fields.len() as int, named_at(fields, key)) {
            Some(i) => Some(fields[i].1),
            None => None,
        },
        _ => None,
    }
}

/// The string a member holds, `""` when it is missing or not a string.
pub open spec fn member_str(j: Json, key: Seq<char>) -> Seq<char> {
    match member(j, key) {
        Some(Json::Str(s)) => s@,
        _ => Seq::empty(),
    }
}

/// Starts with `p`.
pub open spec fn has_prefix(s: Seq<char>, p: Seq<char>) -> bool {
    p.len() <= s.len() && s.take(p.len() as int) == p
}

/// An `http`/`https` URL, ASCII case-insensitively.
pub open spec fn http_url(url: Seq<char>) -> bool {
    let l = url.map_values(|c: char| lower(c));
    has_prefix(l, "http://"@) || has_prefix(l, "https://"@)
}

/// Parent chain plus `name`, skipping blanks; levels are joined with `/`.
pub open spec fn joined_folder(parent: Seq<char>, name: Seq<char>) -> Seq<char> {
    if name.len() == 0 {
        parent
    } else if parent.len() == 0 {
        name
    } else {
        parent + "/"@ + name
    }
}

/// The entries under a folder node: the ones of its `children` array, in
/// order; none when it has no such array.
pub open spec fn node_entries(n: Json, folder: Seq<char>) -> Seq<EntryModel>
    decreases n, 0int, 0int,
{
    match n {
        Json::Object(fields) => match first_where(fields.len() as int, named_at(fields, "children"@)) {
            Some(i) => {
                proof {
                    lemma_first_some(fields.len() as int, named_at(fields, "children"@));
                    assert(decreases_to!(fields => fields[i]));
                }
                match fields[i].1 {
                    Json::Array(items) => list_entries(items, items.len() as int, folder),
                    _ => Seq::empty(),
                }
            },
            None => Seq::empty(),
        },
        _ => Seq::empty(),
    }
}

/// The entries of the first `k` children.
pub open spec fn list_entries(items: Vec<Json>, k: int, folder: Seq<char>) -> Seq<EntryModel>
    decreases items, 1int, k,
{
    if k <= 0 || k > items.len() {
        Seq::empty()
    } else {
        list_entries(items, k - 1, folder) + child_entries(items[k - 1], folder)
    }
}

/// The entries one child contributes: a `url` node with an http(s) URL is
/// one entry (URL trimmed), a `folder` node its own entries with its
/// trimmed name pushed onto the chain, anything else none.
pub open spec fn child_entries(c: Json, folder: Seq<char>) -> Seq<EntryModel>
    decreases c, 1int, 0int,
{
    let kind = member_str(c, "type"@);
    let name = member_str(c, "name"@);
    if kind == "url"@ {
        let url = trim_seq(member_str(c, "url"@));
        if http_url(url) {
            seq![(name, url, folder)]
        } else {
            Seq::empty()
        }
    } else if kind == "folder"@ {
        node_entries(c, joined_folder(folder, trim_seq(name)))
    } else {
        Seq::empty()
    }
}

/// The entries under the roots of a bookmarks document, root by root.
pub open spec fn roots_entries(roots: Vec<(String, Json)>, k: int) -> Seq<EntryModel>
    decreases k,
{
    if k <= 0 || k > roots.len() {
        Seq::empty()
    } else {
        roots_entries(roots, k - 1) + node_entries(roots[k - 1].1, Seq::empty())
    }
}

/// The entries of a whole document: every root under its `roots` object.
pub open spec fn root_entries(root: Json) -> Seq<EntryModel> {
    match member(root, "roots"@) {
        Some(Json::Object(roots)) => roots_entries(roots, roots.len() as int),
        _ => Seq::empty(),
    }
}

/// `s` with every entry whose URL an earlier one already has dropped.
pub open spec fn first_by_url(s: Seq<EntryModel>) -> Seq<EntryModel>
    decreases s.len(),
{
    if s.len() == 0 {
        Seq::empty()
    } else {
        let p = first_by_url(s.drop_last());
        if exists|j: int| 0 <= j < p.len() && #[trigger] p[j].1 == s.last().1 {
            p
        } else {
            p.push(s.last())
        }
    }
}

/// What a document imports: its entries in tree order, duplicates by URL
/// dropped (the first stays), at most [`MAX_IMPORT`] of them.
pub open spec fn imported(root: Json) -> Seq<EntryModel> {
    let d = first_by_url(root_entries(root));
    if d.len() <= MAX_IMPORT {
        d
    } else {
        d.take(MAX_IMPORT as int)
    }
}

/// What parsing the text of a bookmarks file gives.
pub open spec fn parsed(text: Seq<char>) -> Result<Seq<EntryModel>, Seq<char>> {
    match json_text(text) {
        Ok(root) => Ok(imported(root)),
        Err(m) => Err("invalid bookmarks json: "@ + m),
    }
}

/// Index of the first member of `fields` named `key`.
fn member_index(fields: &Vec<(String, Json)>, key: &str) -> (r: Option<usize>)
    ensures
        match first_where(fields.len() as int, named_at(*fields, key@)) {
            Some(i) => r == Some(i as usize),
            None => r is None,
        },
{
    let n = fields.len();
    for i in 0..n
        invariant
            n == fields.len(),
            forall|j: int| 0 <= j < i ==> !#[trigger] named_at(*fields, key@)(j),
    {
        if eq_str(fields[i].0.as_str(), key) {
            proof {
                lemma_first_found(n as int, named_at(*fields, key@), i as int);
            }
            return Some(i);
        }
    }
    proof {
        lemma_first_none(n as int, named_at(*fields, key@));
    }
    None
}

/// The string member `key` of `j` holds, `""` when there is none.
fn member_str_of(j: &Json, key: &str) -> (r: String)
    ensures
        r@ == member_str(*j, key@),
{
    match j {
        Json::Object(fields) => match member_index(fields, key) {
            Some(i) => match &fields[i].1 {
                Json::Str(s) => s.clone(),
                _ => String::new(),
            },
            None => String::new(),
        },
        _ => String::new(),
    }
}

/// True for `http`/`https` URLs, case-insensitively.
fn is_http(url: &str) -> (r: bool)
    ensures
        r == http_url(url@),
{
    let v = chars_of(url);
    let ghost l = url@.map_values(|c: char| lower(c));
    lower_prefix(&v, "http://") || lower_prefix(&v, "https://")
}

/// `v`, ASCII-lowercased, starts with `p`.
fn lower_prefix(v: &Vec<char>, p: &str) -> (r: bool)
    ensures
        r == has_prefix(v@.map_values(|c: char| lower(c)), p@),
{
    let pv = chars_of(p);
    let ghost l = v@.map_values(|c: char| lower(c));
    if pv.len() > v.len() {
        return false;
    }
    let n = pv.len();
    for i in 0..n
        invariant
            n == pv.len(),
            n <= v.len(),
            pv@ == p@,
            l == v@.map_values(|c: char| lower(c)),
            forall|j: int| 0 <= j < i ==> l[j] == pv@[j],
    {
        if to_lower(v[i]) != pv[i] {
            assert(l.take(n as int)[i as int] != p@[i as int]);
            return false;
        }
    }
    assert(l.take(n as int) =~= p@);
    true
}

/// Parent chain + `name`, skipping blanks; levels are joined with `/`.
fn join_folder(parent: &str, name: &str) -> (r: String)
    ensures
        r@ == joined_folder(parent@, name@),
{
    if name.is_empty() {
        owned(parent)
    } else if parent.is_empty() {
        owned(name)
    } else {
        cat3(parent, "/", name)
    }
}

/// Append the entries under folder node `n`.
fn walk_node(n: &Json, folder: &str, out: &mut Vec<Entry>)
    ensures
        entry_models(final(out)@) == entry_models(old(out)@) + node_entries(*n, folder@),
    decreases n, 0int, 0int,
{
    match n {
        Json::Object(fields) => match member_index(fields, "children") {
            Some(i) => {
                proof {
                    lemma_first_some(fields.len() as int, named_at(*fields, "children"@));
                }
                match &fields[i].1 {
                    Json::Array(items) => walk_list(items, folder, out),
                    _ => {
                        assert(entry_models(out@) =~= entry_models(out@) + Seq::<EntryModel>::empty());
                    },
                }
            },
            None => {
                assert(entry_models(out@) =~= entry_models(out@) + Seq::<EntryModel>::empty());
            },
        },
        _ => {
            assert(entry_models(out@) =~= entry_models(out@) + Seq::<EntryModel>::empty());
        },
    }
}

/// Append the entries of every child in `items`.
fn walk_list(items: &Vec<Json>, folder: &str, out: &mut Vec<Entry>)
    ensures
        entry_models(final(out)@) == entry_models(old(out)@) + list_entries(*items, items.len() as int, folder@),
    decreases items, 1int, 0int,
{
    let ghost before = entry_models(out@);
    let n = items.len();
    assert(before =~= before + list_entries(*items, 0, folder@));
    for k in 0..n
        invariant
            n == items.len(),
            entry_models(out@) == before + list_entries(*items, k as int, folder@),
    {
        walk_child(&items[k], folder, out);
        assert(list_entries(*items, k + 1, folder@) == list_entries(*items, k as int, folder@)
            + child_entries(items[k as int], folder@));
        assert(entry_models(out@) =~= before + list_entries(*items, k + 1, folder@));
    }
}

/// Append what one child contributes.
fn walk_child(c: &Json, folder: &str, out: &mut Vec<Entry>)
    ensures
        entry_models(final(out)@) == entry_models(old(out)@) + child_entries(*c, folder@),
    decreases c, 1int, 0int,
{
    let kind = member_str_of(c, "type");
    let name = member_str_of(c, "name");
    if eq_str(kind.as_str(), "url") {
        let raw = member_str_of(c, "url");
        let url = trim(raw.as_str());
        if is_http(url.as_str()) {
            let ghost before = out@;
            let e = Entry { title: name, url, folder: owned(folder) };
            out.push(e);
            assert(entry_models(out@) =~= entry_models(before) + seq![entry_model(e)]);
        } else {
            assert(entry_models(out@) =~= entry_models(out@) + Seq::<EntryModel>::empty());
        }
    } else if eq_str(kind.as_str(), "folder") {
        let t = trim(name.as_str());
        let f = join_folder(folder, t.as_str());
        walk_node(c, f.as_str(), out);
    } else {
        assert(entry_models(out@) =~= entry_models(out@) + Seq::<EntryModel>::empty());
    }
}

/// An independent copy of an entry.
fn dup_entry(e: &Entry) -> (r: Entry)
    ensures
        entry_model(r) == entry_model(*e),
{
    Entry { title: e.title.clone(), url: e.url.clone(), folder: e.folder.clone() }
}

/// The entries of a parsed bookmarks document, in tree order: `url` nodes
/// with an http(s) URL become entries, `folder` nodes recurse with their
/// name pushed onto the folder chain, anything else is ignored; duplicates
/// by URL keep the first occurrence, and at most [`MAX_IMPORT`] entries are
/// returned.
pub fn entries_of(root: &Json) -> (r: Vec<Entry>)
    ensures
        entry_models(r@) == imported(*root),
{
    let mut all: Vec<Entry> = Vec::new();
    match root {
        Json::Object(fields) => match member_index(fields, "roots") {
            Some(i) => {
                proof {
                    lemma_first_some(fields.len() as int, named_at(*fields, "roots"@));
                }
                match &fields[i].1 {
                    Json::Object(roots) => {
                        let n = roots.len();
                        let top = String::new();
                        for k in 0..n
                            invariant
                                n == roots.len(),
                                top@ == Seq::<char>::empty(),
                                entry_models(all@) == roots_entries(*roots, k as int),
                        {
                            walk_node(&roots[k].1, top.as_str(), &mut all);
                        }
                    },
                    _ => {},
                }
            },
            None => {},
        },
        _ => {},
    }
    let ghost s = entry_models(all@);
    assert(s == root_entries(*root));
    let mut kept: Vec<Entry> = Vec::new();
    let n = all.len();
    for i in 0..n
        invariant
            n == all.len(),
            s == entry_models(all@),
            entry_models(kept@) == first_by_url(s.take(i as int)),
    {
        let ghost p = entry_models(kept@);
        assert(s.take(i + 1).drop_last() =~= s.take(i as int));
        let mut seen = false;
        let m = kept.len();
        for j in 0..m
            invariant
                m == kept.len(),
                n == all.len(),
                i < n,
                s == entry_models(all@),
                p == entry_models(kept@),
                seen <==> exists|t: int| 0 <= t < j && #[trigger] p[t].1 == s[i as int].1,
        {
            assert(p[j as int] == entry_model(kept@[j as int]));
            assert(s[i as int] == entry_model(all@[i as int]));
            if eq_str(kept[j].url.as_str(), all[i].url.as_str()) {
                assert(p[j as int].1 == s[i as int].1);
                seen = true;
            } else {
                assert(p[j as int].1 != s[i as int].1);
            }
        }
        if !seen {
            kept.push(dup_entry(&all[i]));
            assert(entry_models(kept@) =~= p.push(s[i as int]));
        }
    }
    assert(s.take(n as int) =~= s);
    kept.truncate(MAX_IMPORT);
    kept
}

/// Parse the text of a Chrome `Bookmarks` file into entries (see
/// [`entries_of`]); text that is not JSON is refused with the parser's
/// message.
pub fn parse(json: &str) -> (r: Result<Vec<Entry>, String>)
    ensures
        match parsed(json@) {
            Ok(es) => r matches Ok(v) && entry_models(v@) == es,
            Err(m) => r matches Err(e) && e@ == m,
        },
{
    match parse_json(json) {
        Ok(root) => Ok(entries_of(&root)),
        Err(e) => Err(cat2("invalid bookmarks json: ", e.as_str())),
    }
}

// ----------------------------------------------------------------------
// Keys
// ----------------------------------------------------------------------

/// Characters a key keeps: lowercase ASCII letters, digits, `.`, `_`, `-`.
pub open spec fn slug_char(c: char) -> bool {
    ('a' <= c && c <= 'z') || ('0' <= c && c <= '9') || c == '.' || c == '_' || c == '-'
}

/// The slug of `s` before trimming: ASCII-lowercased, kept characters as
/// they are, every run of others one `-` (none at the start or right after
/// a `-` or `.`).
pub open spec fn slug_raw(s: Seq<char>) -> Seq<char>
    decreases s.len(),
{
    if s.len() == 0 {
        Seq::empty()
    } else {
        let p = slug_raw(s.drop_last());
        let c = lower(s.last());
        if slug_char(c) {
            p.push(c)
        } else if p.len() > 0 && p.last() != '-' && p.last() != '.' {
            p.push('-')
        } else {
            p
        }
    }
}

/// `s` without leading `c`s.
pub open spec fn strip_front(s: Seq<char>, c: char) -> Seq<char>
    decreases s.len(),
{
    if s.len() > 0 && s[0] == c {
        strip_front(s.drop_first(), c)
    } else {
        s
    }
}

/// `s` without trailing `c`s.
pub open spec fn strip_back(s: Seq<char>, c: char) -> Seq<char>
    decreases s.len(),
{
    if s.len() > 0 && s.last() == c {
        strip_back(s.drop_last(), c)
    } else {
        s
    }
}

/// Lowercase ASCII slug: runs of characters outside `[a-z0-9._-]` become a
/// single `-`, which is also trimmed from both ends.
pub open spec fn slug_of(s: Seq<char>) -> Seq<char> {
    strip_back(strip_front(slug_raw(s), '-'), '-')
}

/// A kept slug character.
fn is_slug_char(c: char) -> (r: bool)
    ensures
        r == slug_char(c),
{
    ('a' <= c && c <= 'z') || ('0' <= c && c <= '9') || c == '.' || c == '_' || c == '-'
}

/// Lowercase ASCII slug of `raw` (see [`slug_of`]).
pub fn slug(raw: &str) -> (r: String)
    ensures
        r@ == slug_of(raw@),
{
    let v = chars_of(raw);
    let n = v.len();
    let mut out: Vec<char> = Vec::new();
    for i in 0..n
        invariant
            n == v.len(),
            v@ == raw@,
            out@ == slug_raw(raw@.take(i as int)),
    {
        assert(raw@.take(i + 1).drop_last() =~= raw@.take(i as int));
        let c = to_lower(v[i]);
        if is_slug_char(c) {
            out.push(c);
        } else if out.len() > 0 && out[out.len() - 1] != '-' && out[out.len() - 1] != '.' {
            out.push('-');
        }
    }
    assert(raw@.take(n as int) =~= raw@);
    let ghost o = out@;
    let m = out.len();
    let mut lo: usize = 0;
    assert(o.subrange(0, m as int) =~= o);
    while lo < m && out[lo] == '-'
        invariant
            o == out@,
            m == out.len(),
            lo <= m,
            strip_front(o, '-') == strip_front(o.subrange(lo as int, m as int), '-'),
        decreases m - lo,
    {
        assert(o.subrange(lo as int, m as int).drop_first() =~= o.subrange(lo + 1, m as int));
        lo += 1;
    }
    let ghost t = o.subrange(lo as int, m as int);
    assert(strip_front(o, '-') == t);
    let mut hi: usize = m;
    while hi > lo && out[hi - 1] == '-'
        invariant
            o == out@,
            m == out.len(),
            lo <= hi <= m,
            strip_back(t, '-') == strip_back(o.subrange(lo as int, hi as int), '-'),
        decreases hi,
    {
        assert(o.subrange(lo as int, hi as int).drop_last() =~= o.subrange(lo as int, hi - 1));
        hi -= 1;
    }
    string_of(&out, lo, hi)
}

/// `u[i..i + 3]` is `://`.
pub open spec fn scheme_at(u: Seq<char>) -> spec_fn(int) -> bool {
    |i: int| u[i] == ':' && u[i + 1] == '/' && u[i + 2] == '/'
}

/// What follows the first `://`, `""` when there is none.
pub open spec fn after_scheme(u: Seq<char>) -> Seq<char> {
    match first_where(u.len() - 2, scheme_at(u)) {
        Some(i) => u.skip(i + 3),
        None => Seq::empty(),
    }
}

/// `r[i]` starts the path, query or fragment.
pub open spec fn path_at(r: Seq<char>) -> spec_fn(int) -> bool {
    |i: int| r[i] == '/' || r[i] == '?' || r[i] == '#'
}

/// The authority of a URL: after the scheme, up to the path.
pub open spec fn authority(u: Seq<char>) -> Seq<char> {
    let r = after_scheme(u);
    match first_where(r.len() as int, path_at(r)) {
        Some(e) => r.take(e),
        None => r,
    }
}

/// What follows the last `c` in `h` (all of `h` without one).
pub open spec fn after_last(h: Seq<char>, c: char) -> Seq<char>
    decreases h.len(),
{
    if h.len() == 0 {
        h
    } else if h.last() == c {
        Seq::empty()
    } else {
        after_last(h.drop_last(), c).push(h.last())
    }
}

/// `h[i]` is `c`.
pub open spec fn char_at(h: Seq<char>, c: char) -> spec_fn(int) -> bool {
    |i: int| h[i] == c
}

/// What comes before the first `c` in `h` (all of `h` without one).
pub open spec fn before_first(h: Seq<char>, c: char) -> Seq<char> {
    match first_where(h.len() as int, char_at(h, c)) {
        Some(k) => h.take(k),
        None => h,
    }
}

/// Host part of an http(s) URL: authority up to the path, without the
/// `user@` prefix or `:port` suffix (`""` when there is no authority).
pub open spec fn host_of_url(u: Seq<char>) -> Seq<char> {
    before_first(after_last(authority(u), '@'), ':')
}

/// Host part of a URL (see [`host_of_url`]).
fn host_of(url: &str) -> (r: String)
    ensures
        r@ == host_of_url(url@),
{
    let v = chars_of(url);
    let n = v.len();
    let ghost u = url@;
    // the first `://`
    let mut start: usize = 0;
    let mut i: usize = 0;
    let mut found = false;
    while !found && i < n && n - i > 2
        invariant
            v@ == u,
            n == v.len(),
            i <= n,
            found ==> i + 2 < n && scheme_at(u)(i as int) && start == i + 3,
            forall|j: int| 0 <= j < i ==> !#[trigger] scheme_at(u)(j),
        decreases n - i, if found { 0int } else { 1int },
    {
        if v[i] == ':' && v[i + 1] == '/' && v[i + 2] == '/' {
            start = i + 3;
            found = true;
        } else {
            i += 1;
        }
    }
    if found {
        proof {
            lemma_first_found(u.len() - 2, scheme_at(u), i as int);
        }
    } else {
        proof {
            lemma_first_none(u.len() - 2, scheme_at(u));
        }
    }
    let rest = if found {
        string_of(&v, start, n)
    } else {
        String::new()
    };
    assert(rest@ =~= after_scheme(u));
    let r = chars_of(rest.as_str());
    let rn = r.len();
    let ghost rs = rest@;
    let mut end: usize = 0;
    while end < rn && r[end] != '/' && r[end] != '?' && r[end] != '#'
        invariant
            r@ == rs,
            rn == r.len(),
            end <= rn,
            forall|j: int| 0 <= j < end ==> !#[trigger] path_at(rs)(j),
        decreases rn - end,
    {
        end += 1;
    }
    if end < rn {
        proof {
            lemma_first_found(rn as int, path_at(rs), end as int);
        }
    } else {
        proof {
            lemma_first_none(rn as int, path_at(rs));
        }
        assert(rs.take(rn as int) =~= rs);
    }
    let ghost a = rs.take(end as int);
    assert(a == authority(u));
    // after the last `@`
    let mut from: usize = 0;
    for k in 0..end
        invariant
            r@ == rs,
            rn == r.len(),
            end <= rn,
            a == rs.take(end as int),
            from <= k,
            after_last(a.take(k as int), '@') == rs.subrange(from as int, k as int),
    {
        assert(a.take(k + 1).drop_last() =~= a.take(k as int));
        if r[k] == '@' {
            from = k + 1;
            assert(rs.subrange(from as int, k + 1) =~= Seq::<char>::empty());
        } else {
            assert(rs.subrange(from as int, k + 1) =~= rs.subrange(from as int, k as int).push(r[k as int]));
        }
    }
    assert(a.take(end as int) =~= a);
    let ghost b = rs.subrange(from as int, end as int);
    // up to the first `:`
    let mut stop: usize = from;
    while stop < end && r[stop] != ':'
        invariant
            r@ == rs,
            rn == r.len(),
            from <= stop <= end <= rn,
            b == rs.subrange(from as int, end as int),
            forall|j: int| 0 <= j < stop - from ==> !#[trigger] char_at(b, ':')(j),
        decreases end - stop,
    {
        stop += 1;
    }
    if stop < end {
        proof {
            lemma_first_found(b.len() as int, char_at(b, ':'), stop - from);
        }
        assert(b.take(stop - from) =~= rs.subrange(from as int, stop as int));
    } else {
        proof {
            lemma_first_none(b.len() as int, char_at(b, ':'));
        }
    }
    string_of(&r, from, stop)
}

/// Starts with `p`.
fn starts_with(v: &Vec<char>, p: &str) -> (r: bool)
    ensures
        r == has_prefix(v@, p@),
{
    let pv = chars_of(p);
    if pv.len() > v.len() {
        return false;
    }
    let n = pv.len();
    for i in 0..n
        invariant
            n == pv.len(),
            n <= v.len(),
            pv@ == p@,
            forall|j: int| 0 <= j < i ==> v@[j] == pv@[j],
    {
        if v[i] != pv[i] {
            assert(v@.take(n as int)[i as int] != p@[i as int]);
            return false;
        }
    }
    assert(v@.take(n as int) =~= p@);
    true
}

/// A host without a leading `www.`.
pub open spec fn www_stripped(h: Seq<char>) -> Seq<char> {
    if has_prefix(h, "www."@) {
        h.skip("www."@.len() as int)
    } else {
        h
    }
}

/// Preferred key for an entry: the title's slug, else the slug of the URL
/// host without a leading `www.`, else `bookmark`.
pub open spec fn base_key_of(title: Seq<char>, url: Seq<char>) -> Seq<char> {
    let t = slug_of(title);
    if t.len() > 0 {
        t
    } else {
        let h = slug_of(www_stripped(host_of_url(url)));
        if h.len() > 0 {
            h
        } else {
            "bookmark"@
        }
    }
}

/// Preferred key for an entry (see [`base_key_of`]).
fn base_key(title: &str, url: &str) -> (r: String)
    ensures
        r@ == base_key_of(title@, url@),
{
    let from_title = slug(title);
    if !from_title.as_str().is_empty() {
        return from_title;
    }
    let host = host_of(url);
    let hv = chars_of(host.as_str());
    let www = chars_of("www.");
    let bare = if starts_with(&hv, "www.") {
        string_of(&hv, www.len(), hv.len())
    } else {
        host
    };
    assert(bare@ =~= www_stripped(host_of_url(url@)));
    let from_host = slug(bare.as_str());
    if from_host.as_str().is_empty() {
        owned("bookmark")
    } else {
        from_host
    }
}

// ----------------------------------------------------------------------
// Planning
// ----------------------------------------------------------------------

/// `<key>-<n>`.
pub open spec fn numbered_key(key: Seq<char>, n: nat) -> Seq<char> {
    key + "-"@ + decimal(n)
}

/// `n` is the first number from 2 up whose `<key>-<n>` is not taken.
pub open spec fn first_free(key: Seq<char>, taken: Set<Seq<char>>, n: nat) -> bool {
    &&& n >= 2
    &&& !taken.contains(numbered_key(key, n))
    &&& forall|m: nat| 2 <= m < n ==> taken.contains(#[trigger] numbered_key(key, m))
}

/// The first free `<key>-<n>` with `n` counting up from 2.
pub open spec fn numbered_of(key: Seq<char>, taken: Set<Seq<char>>) -> Seq<char> {
    numbered_key(key, choose|n: nat| first_free(key, taken, n))
}

/// Different numbers give different keys.
proof fn lemma_numbered_injective(key: Seq<char>, a: nat, b: nat)
    requires
        numbered_key(key, a) == numbered_key(key, b),
    ensures
        a == b,
{
    reveal_strlit("-");
    assert(numbered_key(key, a).skip(key.len() + 1int) =~= decimal(a));
    assert(numbered_key(key, b).skip(key.len() + 1int) =~= decimal(b));
    lemma_decimal_injective(a, b);
}

/// A finite set holds at most its size of the keys `<key>-2` ..
/// `<key>-<n>`.
proof fn lemma_few_taken(key: Seq<char>, t: Set<Seq<char>>, n: int)
    requires
        t.finite(),
        2 <= n,
        forall|m: nat| 2 <= m <= n ==> t.contains(#[trigger] numbered_key(key, m)),
    ensures
        n - 1 <= t.len(),
{
    let x = set_int_range(2, n + 1);
    let f = |m: int| numbered_key(key, m as nat);
    lemma_int_range(2, n + 1);
    assert forall|a: int, b: int| x.contains(a) && x.contains(b) && #[trigger] f(a) == #[trigger] f(b) implies a == b by {
        lemma_numbered_injective(key, a as nat, b as nat);
    }
    let y = x.map(f);
    lemma_map_size(x, y, f);
    assert forall|k: Seq<char>| y.contains(k) implies t.contains(k) by {
        let a = choose|a: int| x.contains(a) && f(a) == k;
        assert(t.contains(numbered_key(key, a as nat)));
    }
    lemma_len_subset(y, t);
}

/// `s` is one of the strings of `v`.
fn in_list(v: &Vec<String>, s: &str) -> (r: bool)
    ensures
        r == views(v@).contains(s@),
{
    let n = v.len();
    for i in 0..n
        invariant
            n == v.len(),
            forall|j: int| 0 <= j < i ==> views(v@)[j] != s@,
    {
        if eq_str(v[i].as_str(), s) {
            assert(views(v@)[i as int] == s@);
            return true;
        }
    }
    false
}

/// First free `<key>-<n>` with `n` counting up from 2.
fn numbered(key: &str, taken: &Vec<String>) -> (r: String)
    requires
        taken.len() + 2 < usize::MAX,
    ensures
        r@ == numbered_of(key@, views(taken@).to_set()),
{
    let ghost t = views(taken@).to_set();
    proof {
        views(taken@).lemma_cardinality_of_set();
        reveal_strlit("-");
    }
    let mut n: usize = 2;
    loop
        invariant
            t == views(taken@).to_set(),
            t.finite(),
            t.len() <= taken.len(),
            2 <= n <= taken.len() + 2,
            taken.len() + 2 < usize::MAX,
            forall|m: nat| 2 <= m < n ==> t.contains(#[trigger] numbered_key(key@, m)),
        decreases taken.len() + 2 - n,
    {
        let digits = u64_to_string(n as u64);
        let cand = cat3(key, "-", digits.as_str());
        assert(cand@ == numbered_key(key@, n as nat));
        if !in_list(taken, cand.as_str()) {
            assert(first_free(key@, t, n as nat));
            proof {
                let c = choose|c: nat| first_free(key@, t, c);
                if c < n {
                    assert(t.contains(numbered_key(key@, c)));
                } else if c > n {
                    assert(t.contains(numbered_key(key@, n as nat)));
                }
            }
            return cand;
        }
        proof {
            lemma_few_taken(key@, t, n as int);
        }
        n += 1;
    }
}

/// The state while planning: keys in use, URLs already registered, and
/// the pairs picked so far.
pub struct PlanState {
    pub taken: Set<Seq<char>>,
    pub seen: Set<Seq<char>>,
    pub fresh: Seq<(Seq<char>, Seq<char>)>,
}

/// The key an entry gets: the plain key when free, else the folder-qualified
/// `<folder>-<key>` when there is a folder and that is free, else the first
/// free numbered one.
pub open spec fn key_for(taken: Set<Seq<char>>, e: EntryModel) -> Seq<char> {
    let key = base_key_of(e.0, e.1);
    let folder = slug_of(e.2);
    if !taken.contains(key) {
        key
    } else if folder.len() > 0 && !taken.contains(folder + "-"@ + key) {
        folder + "-"@ + key
    } else {
        numbered_of(key, taken)
    }
}

/// One entry planned: a URL already registered (or listed before) is left
/// alone, any other gets a fresh key.
pub open spec fn plan_step(st: PlanState, e: EntryModel) -> PlanState {
    if st.seen.contains(e.1) {
        st
    } else {
        let k = key_for(st.taken, e);
        PlanState { taken: st.taken.insert(k), seen: st.seen.insert(e.1), fresh: st.fresh.push((k, e.1)) }
    }
}

/// The state after planning `es` in order.
pub open spec fn plan_from(st: PlanState, es: Seq<EntryModel>) -> PlanState
    decreases es.len(),
{
    if es.len() == 0 {
        st
    } else {
        plan_step(plan_from(st, es.drop_last()), es.last())
    }
}

/// The fresh `key => url` pairs for `es` against the shortcut table
/// `existing`.
pub open spec fn planned(existing: Map<Seq<char>, Seq<char>>, es: Seq<EntryModel>) -> Seq<(Seq<char>, Seq<char>)> {
    plan_from(PlanState { taken: existing.dom(), seen: existing.values(), fresh: Seq::empty() }, es).fresh
}

/// The models of a list of pairs.
pub open spec fn pair_views(v: Seq<(String, String)>) -> Seq<(Seq<char>, Seq<char>)> {
    v.map_values(|p: (String, String)| (p.0@, p.1@))
}

/// Fresh `key => url` pairs for `entries`, skipping URLs that are already
/// registered in `existing`: a re-run of the same export adds nothing and
/// never overwrites. Keys never collide with `existing` keys or with keys
/// picked earlier in the same run.
///
/// Naming order per entry: the plain slug of the title, then
/// `<folder>-<key>` (folder chain slugified) when that is free, then
/// `<key>-2`, `<key>-3`, ...
pub fn plan(existing: &ShortcutMap, entries: &[Entry]) -> (r: Vec<(String, String)>)
    requires
        existing@.dom().len() + entries@.len() + 2 < usize::MAX,
    ensures
        pair_views(r@) == planned(existing@, entry_models(entries@)),
{
    let mut taken = existing.keys();
    let ghost m = existing@;
    assert(views(taken@).to_set() =~= m.dom()) by {
        assert forall|k: Seq<char>| m.dom().contains(k) implies views(taken@).contains(k) by {
            let i = choose|i: int| 0 <= i < taken.len() && #[trigger] taken@[i]@ == k;
            assert(views(taken@)[i] == k);
        }
    }
    let nk = taken.len();
    let mut seen: Vec<String> = Vec::new();
    for i in 0..nk
        invariant
            nk == taken.len(),
            m == existing@,
            views(taken@).to_set() == m.dom(),
            seen.len() == i,
            forall|v: Seq<char>| views(seen@).contains(v) <==> exists|j: int| 0 <= j < i && #[trigger] m[views(taken@)[j]] == v,
    {
        assert(views(taken@).to_set().contains(views(taken@)[i as int]));
        assert(m.dom().contains(taken@[i as int]@));
        let v = existing.get(taken[i].as_str());
        match v {
            Some(v) => {
                let ghost before = views(seen@);
                let ghost k = views(taken@)[i as int];
                assert(m[k] == v@);
                seen.push(v.clone());
                assert(views(seen@) =~= before.push(v@));
                assert forall|w: Seq<char>| views(seen@).contains(w) <==> exists|j: int| 0 <= j < i + 1 && #[trigger] m[views(taken@)[j]] == w by {
                    if views(seen@).contains(w) {
                        let q = choose|q: int| 0 <= q < views(seen@).len() && views(seen@)[q] == w;
                        if q == i {
                            assert(m[views(taken@)[i as int]] == w);
                        } else {
                            assert(before[q] == w);
                            assert(before.contains(w));
                        }
                    }
                    if exists|j: int| 0 <= j < i + 1 && #[trigger] m[views(taken@)[j]] == w {
                        let j = choose|j: int| 0 <= j < i + 1 && #[trigger] m[views(taken@)[j]] == w;
                        if j == i {
                            assert(views(seen@)[i as int] == w);
                        } else {
                            assert(before.contains(w));
                            let q = choose|q: int| 0 <= q < before.len() && before[q] == w;
                            assert(views(seen@)[q] == w);
                        }
                    }
                }
            },
            None => {
                assert(false);
            },
        }
    }
    assert(views(seen@).to_set() =~= m.values()) by {
        assert forall|w: Seq<char>| m.values().contains(w) implies views(seen@).contains(w) by {
            let k = choose|k: Seq<char>| #[trigger] m.dom().contains(k) && m[k] == w;
            assert(views(taken@).to_set().contains(k));
            let j = choose|j: int| 0 <= j < views(taken@).len() && views(taken@)[j] == k;
            assert(m[views(taken@)[j]] == w);
        }
        assert forall|w: Seq<char>| views(seen@).contains(w) implies m.values().contains(w) by {
            let j = choose|j: int| 0 <= j < nk && #[trigger] m[views(taken@)[j]] == w;
            assert(views(taken@).to_set().contains(views(taken@)[j]));
            assert(m.contains_value(w));
        }
    }
    let ghost es = entry_models(entries@);
    let ghost init = PlanState { taken: m.dom(), seen: m.values(), fresh: Seq::empty() };
    let mut fresh: Vec<(String, String)> = Vec::new();
    let n = entries.len();
    for i in 0..n
        invariant
            n == entries.len(),
            es == entry_models(entries@),
            taken.len() <= nk + i,
            nk == existing@.dom().len(),
            nk + n + 2 < usize::MAX,
            views(taken@).to_set() == plan_from(init, es.take(i as int)).taken,
            views(seen@).to_set() == plan_from(init, es.take(i as int)).seen,
            pair_views(fresh@) == plan_from(init, es.take(i as int)).fresh,
    {
        let ghost st = plan_from(init, es.take(i as int));
        assert(es.take(i + 1).drop_last() =~= es.take(i as int));
        let e = &entries[i];
        assert(es[i as int] == entry_model(*e));
        if !in_list(&seen, e.url.as_str()) {
            let key = base_key(e.title.as_str(), e.url.as_str());
            let folder = slug(e.folder.as_str());
            let qualified = cat3(folder.as_str(), "-", key.as_str());
            let cand = if !in_list(&taken, key.as_str()) {
                key
            } else if !folder.as_str().is_empty() && !in_list(&taken, qualified.as_str()) {
                qualified
            } else {
                numbered(key.as_str(), &taken)
            };
            assert(cand@ == key_for(st.taken, es[i as int]));
            let ghost t0 = taken@;
            let ghost s0 = seen@;
            let ghost f0 = fresh@;
            taken.push(cand.clone());
            seen.push(e.url.clone());
            fresh.push((cand, e.url.clone()));
            assert(views(taken@) =~= views(t0).push(key_for(st.taken, es[i as int])));
            assert(views(seen@) =~= views(s0).push(e.url@));
            proof {
                views(t0).lemma_push_to_set_commute(key_for(st.taken, es[i as int]));
                views(s0).lemma_push_to_set_commute(e.url@);
            }
            assert(pair_views(fresh@) =~= pair_views(f0).push((key_for(st.taken, es[i as int]), e.url@)));
        }
    }
    assert(es.take(n as int) =~= es);
    fresh
}

// ----------------------------------------------------------------------
// Merging
// ----------------------------------------------------------------------

/// The table after merging `fresh` pairs in order, keys already present
/// left untouched, and how many pairs were added.
pub open spec fn merged_table(m: Map<Seq<char>, Seq<char>>, fresh: Seq<(Seq<char>, Seq<char>)>) -> (Map<Seq<char>, Seq<char>>, nat)
    decreases fresh.len(),
{
    if fresh.len() == 0 {
        (m, 0)
    } else {
        let p = merged_table(m, fresh.drop_last());
        let kv = fresh.last();
        if p.0.dom().contains(kv.0) {
            p
        } else {
            (p.0.insert(kv.0, kv.1), p.1 + 1)
        }
    }
}

/// Merge `fresh` pairs into the alias named `target`. Existing keys are left
/// untouched; returns how many pairs were actually added. `Err` when no
/// alias has that name.
pub fn merge_into(aliases: &mut Vec<AliasDef>, target: &str, fresh: &[(String, String)]) -> (r: Result<usize, String>)
    ensures
        match named(alias_views(old(aliases)@), target@) {
            None => r matches Err(e) && e@ == not_found_msg(target@) && alias_views(final(aliases)@) == alias_views(
                old(aliases)@,
            ),
            Some(i) => {
                let mt = merged_table(alias_views(old(aliases)@)[i].shortcuts, pair_views(fresh@));
                &&& r == Ok::<usize, String>(mt.1 as usize)
                &&& alias_views(final(aliases)@) == alias_views(old(aliases)@).update(
                    i,
                    with_shortcuts(alias_views(old(aliases)@)[i], mt.0),
                )
            },
        },
{
    let idx = match find_named(aliases, target) {
        Some(i) => i,
        None => {
            return Err(cat2("alias not found: ", target));
        },
    };
    let ghost v0 = alias_views(aliases@);
    let mut def = aliases[idx].duplicate();
    let ghost fv = pair_views(fresh@);
    let mut added: usize = 0;
    let n = fresh.len();
    for i in 0..n
        invariant
            n == fresh.len(),
            fv == pair_views(fresh@),
            added <= i,
            merged_table(v0[idx as int].shortcuts, fv.take(i as int)) == (def.shortcuts@, added as nat),
            def@ == with_shortcuts(v0[idx as int], def.shortcuts@),
    {
        assert(fv.take(i + 1).drop_last() =~= fv.take(i as int));
        assert(fv[i as int] == (fresh@[i as int].0@, fresh@[i as int].1@));
        if !def.shortcuts.contains_key(fresh[i].0.as_str()) {
            def.shortcuts.insert(fresh[i].0.clone(), fresh[i].1.clone());
            added += 1;
        }
    }
    assert(fv.take(n as int) =~= fv);
    aliases.set(idx, def);
    assert(alias_views(aliases@) =~= v0.update(idx as int, with_shortcuts(v0[idx as int], merged_table(v0[idx as int].shortcuts, fv).0)));
    Ok(added)
}

/// What importing `entries` into the alias named `target` does: the fresh
/// pairs planned against its table merged into it, with the count added;
/// `Err` when no alias has that name.
pub open spec fn imported_into(v: Seq<AliasView>, target: Seq<char>, es: Seq<EntryModel>) -> Result<(Seq<AliasView>, nat), Seq<char>> {
    match named(v, target) {
        None => Err(not_found_msg(target)),
        Some(i) => {
            let mt = merged_table(v[i].shortcuts, planned(v[i].shortcuts, es));
            Ok((v.update(i, with_shortcuts(v[i], mt.0)), mt.1))
        },
    }
}

/// Plan `entries` against the current keys of `target` and merge the
/// result; a re-run with the same entries adds nothing.
pub fn merge_entries(aliases: &mut Vec<AliasDef>, target: &str, entries: &[Entry]) -> (r: Result<usize, String>)
    requires
        forall|i: int| 0 <= i < old(aliases)@.len() ==> #[trigger] old(aliases)@[i]@.shortcuts.dom().len() + entries@.len() + 2 < usize::MAX,
    ensures
        match imported_into(alias_views(old(aliases)@), target@, entry_models(entries@)) {
            Err(m) => r matches Err(e) && e@ == m && alias_views(final(aliases)@) == alias_views(old(aliases)@),
            Ok((v, c)) => r == Ok::<usize, String>(c as usize) && alias_views(final(aliases)@) == v,
        },
{
    let idx = match find_named(aliases, target) {
        Some(i) => i,
        None => {
            return Err(cat2("alias not found: ", target));
        },
    };
    assert(alias_views(aliases@)[idx as int] == aliases@[idx as int]@);
    let fresh = plan(&aliases[idx].shortcuts, entries);
    merge_into(aliases, target, fresh.as_slice())
}

/// Parse the text of a bookmarks file and merge it into the alias named
/// `target` (see [`parse`] and [`merge_entries`]); unreadable JSON is
/// refused before the alias is looked up.
pub fn merge_bookmarks(aliases: &mut Vec<AliasDef>, target: &str, json: &str) -> (r: Result<usize, String>)
    requires
        forall|i: int| 0 <= i < old(aliases)@.len() ==> #[trigger] old(aliases)@[i]@.shortcuts.dom().len() + MAX_IMPORT + 2 < usize::MAX,
    ensures
        match parsed(json@) {
            Err(m) => r matches Err(e) && e@ == m && alias_views(final(aliases)@) == alias_views(old(aliases)@),
            Ok(es) => match imported_into(alias_views(old(aliases)@), target@, es) {
                Err(m) => r matches Err(e) && e@ == m && alias_views(final(aliases)@) == alias_views(old(aliases)@),
                Ok((v, c)) => r == Ok::<usize, String>(c as usize) && alias_views(final(aliases)@) == v,
            },
        },
{
    let entries = parse(json)?;
    assert(entries.len() <= MAX_IMPORT);
    merge_entries(aliases, target, entries.as_slice())
}

// ----------------------------------------------------------------------
// Re-running an import
// ----------------------------------------------------------------------

/// A finite set of keys leaves some `<key>-<n>` free, and so a first one.
proof fn lemma_first_free_from(key: Seq<char>, t: Set<Seq<char>>, k: int)
    requires
        t.finite(),
        2 <= k,
        forall|m: nat| 2 <= m < k ==> t.contains(#[trigger] numbered_key(key, m)),
    ensures
        exists|n: nat| first_free(key, t, n),
    decreases t.len() + 2 - k,
{
    if !t.contains(numbered_key(key, k as nat)) {
        assert(first_free(key, t, k as nat));
    } else {
        lemma_few_taken(key, t, k);
        lemma_first_free_from(key, t, k + 1);
    }
}

/// The key an entry gets is not taken yet.
proof fn lemma_key_is_free(taken: Set<Seq<char>>, e: EntryModel)
    requires
        taken.finite(),
    ensures
        !taken.contains(key_for(taken, e)),
{
    let key = base_key_of(e.0, e.1);
    lemma_first_free_from(key, taken, 2);
}

/// The URLs of a list of pairs.
pub open spec fn has_url(f: Seq<(Seq<char>, Seq<char>)>, u: Seq<char>) -> bool {
    exists|j: int| 0 <= j < f.len() && #[trigger] f[j].1 == u
}

/// The keys of a list of pairs.
pub open spec fn has_key(f: Seq<(Seq<char>, Seq<char>)>, k: Seq<char>) -> bool {
    exists|j: int| 0 <= j < f.len() && #[trigger] f[j].0 == k
}

/// What planning against table `m` keeps true: the keys in use are the
/// table's and the fresh ones, the URLs seen are the table's values and the
/// fresh ones, and fresh keys are new and distinct.
pub open spec fn plan_inv(m: Map<Seq<char>, Seq<char>>, st: PlanState) -> bool {
    &&& st.taken.finite()
    &&& forall|k: Seq<char>| #[trigger] st.taken.contains(k) <==> m.dom().contains(k) || has_key(st.fresh, k)
    &&& forall|u: Seq<char>| #[trigger] st.seen.contains(u) <==> m.values().contains(u) || has_url(st.fresh, u)
    &&& forall|j: int| 0 <= j < st.fresh.len() ==> !m.dom().contains(#[trigger] st.fresh[j].0)
    &&& forall|i: int, j: int| 0 <= i < j < st.fresh.len() ==> #[trigger] st.fresh[i].0 != #[trigger] st.fresh[j].0
}

/// The URLs of `es` that get planned: in input order, each the first time
/// it occurs, leaving out those already in `stored`.
pub open spec fn first_urls(stored: Set<Seq<char>>, es: Seq<EntryModel>) -> Seq<Seq<char>>
    decreases es.len(),
{
    if es.len() == 0 {
        Seq::empty()
    } else {
        let p = first_urls(stored, es.drop_last());
        let u = es.last().1;
        if stored.contains(u) || exists|j: int| 0 <= j < es.len() - 1 && #[trigger] es[j].1 == u {
            p
        } else {
            p.push(u)
        }
    }
}

/// The URLs of a list of pairs, in order.
pub open spec fn urls_of(f: Seq<(Seq<char>, Seq<char>)>) -> Seq<Seq<char>> {
    f.map_values(|p: (Seq<char>, Seq<char>)| p.1)
}

/// Planning has seen exactly the stored URLs and those of the entries, and
/// picks the URLs [`first_urls`] lists.
proof fn lemma_plan_urls(m: Map<Seq<char>, Seq<char>>, es: Seq<EntryModel>)
    ensures
        forall|u: Seq<char>|
            #[trigger] plan_from(PlanState { taken: m.dom(), seen: m.values(), fresh: Seq::empty() }, es).seen.contains(u)
                <==> m.values().contains(u) || exists|j: int| 0 <= j < es.len() && #[trigger] es[j].1 == u,
        urls_of(plan_from(PlanState { taken: m.dom(), seen: m.values(), fresh: Seq::empty() }, es).fresh)
            == first_urls(m.values(), es),
    decreases es.len(),
{
    let init = PlanState { taken: m.dom(), seen: m.values(), fresh: Seq::empty() };
    if es.len() == 0 {
        assert(urls_of(init.fresh) =~= Seq::<Seq<char>>::empty());
    } else {
        let rest = es.drop_last();
        lemma_plan_urls(m, rest);
        let st = plan_from(init, rest);
        let e = es.last();
        assert(st.seen.contains(e.1) <==> (m.values().contains(e.1) || exists|j: int|
            0 <= j < es.len() - 1 && #[trigger] es[j].1 == e.1)) by {
            if exists|j: int| 0 <= j < rest.len() && #[trigger] rest[j].1 == e.1 {
                let j = choose|j: int| 0 <= j < rest.len() && #[trigger] rest[j].1 == e.1;
                assert(es[j].1 == e.1);
            }
            if exists|j: int| 0 <= j < es.len() - 1 && #[trigger] es[j].1 == e.1 {
                let j = choose|j: int| 0 <= j < es.len() - 1 && #[trigger] es[j].1 == e.1;
                assert(rest[j].1 == e.1);
            }
        }
        let st2 = plan_from(init, es);
        assert forall|u: Seq<char>| #[trigger] st2.seen.contains(u) <==> m.values().contains(u) || exists|j: int|
            0 <= j < es.len() && #[trigger] es[j].1 == u by {
            if exists|j: int| 0 <= j < rest.len() && #[trigger] rest[j].1 == u {
                let j = choose|j: int| 0 <= j < rest.len() && #[trigger] rest[j].1 == u;
                assert(es[j].1 == u);
            }
            if exists|j: int| 0 <= j < es.len() && #[trigger] es[j].1 == u {
                let j = choose|j: int| 0 <= j < es.len() && #[trigger] es[j].1 == u;
                if j < rest.len() {
                    assert(rest[j].1 == u);
                }
            }
        }
        if !st.seen.contains(e.1) {
            let k = key_for(st.taken, e);
            assert(urls_of(st.fresh.push((k, e.1))) =~= urls_of(st.fresh).push(e.1));
        }
    }
}

/// Planning keeps the entries' URLs in their input order, each the first
/// time it occurs, leaving out URLs the table already stores; every key it
/// picks is new to the table, and no key is picked twice.
pub proof fn lemma_plan_order_and_keys(m: Map<Seq<char>, Seq<char>>, es: Seq<EntryModel>)
    requires
        m.dom().finite(),
    ensures
        urls_of(planned(m, es)) == first_urls(m.values(), es),
        forall|j: int| 0 <= j < planned(m, es).len() ==> !m.dom().contains(#[trigger] planned(m, es)[j].0),
        forall|i: int, j: int|
            0 <= i < j < planned(m, es).len() ==> #[trigger] planned(m, es)[i].0 != #[trigger] planned(m, es)[j].0,
{
    lemma_plan_urls(m, es);
    lemma_plan_inv(m, es);
}

/// Planning keeps [`plan_inv`] and sees every entry's URL.
proof fn lemma_plan_inv(m: Map<Seq<char>, Seq<char>>, es: Seq<EntryModel>)
    requires
        m.dom().finite(),
    ensures
        plan_inv(m, plan_from(PlanState { taken: m.dom(), seen: m.values(), fresh: Seq::empty() }, es)),
        forall|j: int| 0 <= j < es.len() ==> plan_from(
            PlanState { taken: m.dom(), seen: m.values(), fresh: Seq::empty() },
            es,
        ).seen.contains(#[trigger] es[j].1),
    decreases es.len(),
{
    let init = PlanState { taken: m.dom(), seen: m.values(), fresh: Seq::empty() };
    if es.len() == 0 {
        assert(plan_inv(m, init));
    } else {
        lemma_plan_inv(m, es.drop_last());
        let st = plan_from(init, es.drop_last());
        let e = es.last();
        if !st.seen.contains(e.1) {
            let k = key_for(st.taken, e);
            lemma_key_is_free(st.taken, e);
            let st2 = plan_step(st, e);
            assert(st2.fresh == st.fresh.push((k, e.1)));
            assert forall|x: Seq<char>| #[trigger] st2.taken.contains(x) <==> m.dom().contains(x) || has_key(st2.fresh, x) by {
                if has_key(st.fresh, x) {
                    let j = choose|j: int| 0 <= j < st.fresh.len() && #[trigger] st.fresh[j].0 == x;
                    assert(st2.fresh[j].0 == x);
                }
                if has_key(st2.fresh, x) && x != k {
                    let j = choose|j: int| 0 <= j < st2.fresh.len() && #[trigger] st2.fresh[j].0 == x;
                    assert(st.fresh[j].0 == x);
                }
                assert(st2.fresh[st.fresh.len() as int].0 == k);
            }
            assert forall|u: Seq<char>| #[trigger] st2.seen.contains(u) <==> m.values().contains(u) || has_url(st2.fresh, u) by {
                if has_url(st.fresh, u) {
                    let j = choose|j: int| 0 <= j < st.fresh.len() && #[trigger] st.fresh[j].1 == u;
                    assert(st2.fresh[j].1 == u);
                }
                if has_url(st2.fresh, u) && u != e.1 {
                    let j = choose|j: int| 0 <= j < st2.fresh.len() && #[trigger] st2.fresh[j].1 == u;
                    assert(st.fresh[j].1 == u);
                }
                assert(st2.fresh[st.fresh.len() as int].1 == e.1);
            }
            assert forall|j: int| 0 <= j < st2.fresh.len() implies !m.dom().contains(#[trigger] st2.fresh[j].0) by {
                if j == st.fresh.len() {
                    assert(!st.taken.contains(k));
                }
            }
            assert forall|i: int, j: int| 0 <= i < j < st2.fresh.len() implies #[trigger] st2.fresh[i].0 != #[trigger] st2.fresh[j].0 by {
                if j == st.fresh.len() {
                    assert(has_key(st.fresh, st.fresh[i].0));
                    assert(st.taken.contains(st.fresh[i].0));
                }
            }
        }
        assert forall|j: int| 0 <= j < es.len() implies plan_from(init, es).seen.contains(#[trigger] es[j].1) by {
            if j < es.len() - 1 {
                assert(es.drop_last()[j] == es[j]);
            }
        }
    }
}

/// Merging pairs whose keys are new and distinct adds every one of them.
proof fn lemma_merge_fresh(m: Map<Seq<char>, Seq<char>>, f: Seq<(Seq<char>, Seq<char>)>)
    requires
        forall|j: int| 0 <= j < f.len() ==> !m.dom().contains(#[trigger] f[j].0),
        forall|i: int, j: int| 0 <= i < j < f.len() ==> #[trigger] f[i].0 != #[trigger] f[j].0,
    ensures
        merged_table(m, f).1 == f.len(),
        forall|k: Seq<char>| #[trigger] m.dom().contains(k) ==> merged_table(m, f).0.dom().contains(k) && merged_table(m, f).0[k] == m[k],
        forall|j: int| 0 <= j < f.len() ==> merged_table(m, f).0.dom().contains(#[trigger] f[j].0) && merged_table(m, f).0[f[j].0] == f[j].1,
    decreases f.len(),
{
    if f.len() > 0 {
        let g = f.drop_last();
        lemma_merge_fresh(m, g);
        let p = merged_table(m, g);
        let kv = f.last();
        assert forall|k: Seq<char>| p.0.dom().contains(k) implies k != kv.0 by {
            if !m.dom().contains(k) {
                assert(!p.0.dom().contains(k) || exists|j: int| 0 <= j < g.len() && g[j].0 == k) by {
                    lemma_merged_keys(m, g);
                }
                if p.0.dom().contains(k) {
                    let j = choose|j: int| 0 <= j < g.len() && g[j].0 == k;
                    assert(f[j].0 != f[f.len() - 1].0);
                }
            }
        }
        assert forall|j: int| 0 <= j < f.len() implies merged_table(m, f).0.dom().contains(#[trigger] f[j].0) && merged_table(m, f).0[f[j].0] == f[j].1 by {
            if j < f.len() - 1 {
                assert(g[j] == f[j]);
            }
        }
    }
}

/// Every key of a merged table was in the table or among the pairs.
proof fn lemma_merged_keys(m: Map<Seq<char>, Seq<char>>, f: Seq<(Seq<char>, Seq<char>)>)
    ensures
        forall|k: Seq<char>| #[trigger] merged_table(m, f).0.dom().contains(k) ==> m.dom().contains(k) || exists|j: int| 0 <= j < f.len() && f[j].0 == k,
    decreases f.len(),
{
    if f.len() > 0 {
        let g = f.drop_last();
        lemma_merged_keys(m, g);
        assert forall|k: Seq<char>| #[trigger] merged_table(m, f).0.dom().contains(k) implies m.dom().contains(k) || exists|j: int| 0 <= j < f.len() && f[j].0 == k by {
            if merged_table(m, g).0.dom().contains(k) && !m.dom().contains(k) {
                let j = choose|j: int| 0 <= j < g.len() && g[j].0 == k;
                assert(f[j].0 == k);
            }
            if !merged_table(m, g).0.dom().contains(k) {
                assert(f[f.len() - 1].0 == k);
            }
        }
    }
}

/// Merging never overwrites: every key of the table keeps its value, and
/// the count is at most the number of pairs.
pub proof fn lemma_merge_keeps_existing(m: Map<Seq<char>, Seq<char>>, f: Seq<(Seq<char>, Seq<char>)>)
    ensures
        forall|k: Seq<char>| #[trigger] m.dom().contains(k) ==> merged_table(m, f).0.dom().contains(k) && merged_table(m, f).0[k] == m[k],
        merged_table(m, f).1 <= f.len(),
    decreases f.len(),
{
    if f.len() > 0 {
        lemma_merge_keeps_existing(m, f.drop_last());
    }
}

/// With every URL already seen, planning picks nothing.
proof fn lemma_plan_all_seen(st: PlanState, es: Seq<EntryModel>)
    requires
        forall|j: int| 0 <= j < es.len() ==> st.seen.contains(#[trigger] es[j].1),
    ensures
        plan_from(st, es) == st,
    decreases es.len(),
{
    if es.len() > 0 {
        assert forall|j: int| 0 <= j < es.drop_last().len() implies st.seen.contains(#[trigger] es.drop_last()[j].1) by {
            assert(es.drop_last()[j] == es[j]);
        }
        lemma_plan_all_seen(st, es.drop_last());
        assert(st.seen.contains(es[es.len() - 1].1));
    }
}

/// Importing the same entries twice: the second run adds nothing and
/// changes nothing, since every URL of the first run is now registered.
pub proof fn lemma_import_is_rerunnable(v: Seq<AliasView>, target: Seq<char>, es: Seq<EntryModel>)
    requires
        forall|i: int| 0 <= i < v.len() ==> #[trigger] v[i].shortcuts.dom().finite(),
        imported_into(v, target, es) is Ok,
    ensures
        imported_into(imported_into(v, target, es)->Ok_0.0, target, es) == Ok::<(Seq<AliasView>, nat), Seq<char>>(
            (imported_into(v, target, es)->Ok_0.0, 0),
        ),
{
    let i = named(v, target)->0;
    crate::search::lemma_first_some(v.len() as int, crate::alias::name_is(v, target));
    let m = v[i].shortcuts;
    let init = PlanState { taken: m.dom(), seen: m.values(), fresh: Seq::empty() };
    lemma_plan_inv(m, es);
    let st = plan_from(init, es);
    let f = st.fresh;
    lemma_merge_fresh(m, f);
    let m2 = merged_table(m, f).0;
    let v2 = v.update(i, with_shortcuts(v[i], m2));
    // the alias is found at the same place
    assert forall|j: int| 0 <= j < v2.len() implies #[trigger] v2[j].name == v[j].name by {}
    assert forall|j: int| 0 <= j < i implies !#[trigger] crate::alias::name_is(v2, target)(j) by {
        assert(!crate::alias::name_is(v, target)(j));
    }
    crate::search::lemma_first_found(v2.len() as int, crate::alias::name_is(v2, target), i);
    assert(named(v2, target) == Some(i));
    // every URL of the entries is a value of the merged table
    assert forall|j: int| 0 <= j < es.len() implies m2.values().contains(#[trigger] es[j].1) by {
        let u = es[j].1;
        assert(st.seen.contains(u));
        if m.values().contains(u) {
            let k = choose|k: Seq<char>| #[trigger] m.dom().contains(k) && m[k] == u;
            assert(m2.dom().contains(k) && m2[k] == u);
        } else {
            let q = choose|q: int| 0 <= q < f.len() && #[trigger] f[q].1 == u;
            assert(m2.dom().contains(f[q].0) && m2[f[q].0] == u);
        }
    }
    let init2 = PlanState { taken: m2.dom(), seen: m2.values(), fresh: Seq::empty() };
    lemma_plan_all_seen(init2, es);
    assert(v2[i].shortcuts == m2);
    assert(planned(m2, es) =~= Seq::<(Seq<char>, Seq<char>)>::empty());
    assert(v2.update(i, with_shortcuts(v2[i], m2)) =~= v2);
}

// ----------------------------------------------------------------------
// Profile order
// ----------------------------------------------------------------------

/// Profile `a` is tried before profile `b`: `Default` first, the rest by
/// name.
pub open spec fn profile_before(a: Seq<char>, b: Seq<char>) -> bool {
    let da = a == "Default"@;
    let db = b == "Default"@;
    (da && !db) || (da == db && seq_lt(a, b))
}

/// No profile comes after one it should precede.
pub open spec fn profile_sorted(s: Seq<Seq<char>>) -> bool {
    forall|i: int, j: int| 0 <= i < j < s.len() ==> !profile_before(#[trigger] s[j], #[trigger] s[i])
}

/// [`profile_before`] is a strict order, total up to equal names.
proof fn lemma_profile_order(a: Seq<char>, b: Seq<char>, c: Seq<char>)
    ensures
        profile_before(a, b) ==> !profile_before(b, a),
        profile_before(a, b) && profile_before(b, c) ==> profile_before(a, c),
        a == b || profile_before(a, b) || profile_before(b, a),
{
    lemma_lt_asymmetric(a, b);
    lemma_lt_total(a, b);
    if seq_lt(a, b) && seq_lt(b, c) {
        lemma_lt_transitive(a, b, c);
    }
}

/// Profile `a` is tried before profile `b`.
fn before(a: &str, b: &str) -> (r: bool)
    ensures
        r == profile_before(a@, b@),
{
    let da = eq_str(a, "Default");
    let db = eq_str(b, "Default");
    if da && !db {
        return true;
    }
    if da != db {
        return false;
    }
    let av = chars_of(a);
    let bv = chars_of(b);
    compare(&av, &bv) < 0
}

/// The profile directories in the order they are tried: `Default` first,
/// then the others by name; every name kept.
pub fn profile_order(names: Vec<String>) -> (r: Vec<String>)
    ensures
        profile_sorted(views(r@)),
        views(r@).to_multiset() == views(names@).to_multiset(),
{
    let mut out: Vec<String> = Vec::new();
    let n = names.len();
    assert(views(out@) =~= views(names@).take(0));
    for i in 0..n
        invariant
            n == names.len(),
            profile_sorted(views(out@)),
            views(out@).to_multiset() == views(names@).take(i as int).to_multiset(),
    {
        let x = &names[i];
        let ghost o = views(out@);
        let mut p: usize = 0;
        while p < out.len() && !before(x.as_str(), out[p].as_str())
            invariant
                o == views(out@),
                p <= out.len(),
                forall|k: int| 0 <= k < p ==> !profile_before(x@, #[trigger] o[k]),
            decreases out.len() - p,
        {
            p += 1;
        }
        out.insert(p, x.clone());
        let ghost o2 = views(out@);
        assert(o2 =~= o.insert(p as int, x@));
        assert forall|a: int, b: int| 0 <= a < b < o2.len() implies !profile_before(#[trigger] o2[b], #[trigger] o2[a]) by {
            if a < p && b == p {
                assert(!profile_before(x@, o[a]));
            } else if a < p && b > p {
                assert(o2[b] == o[b - 1]);
            } else if a == p {
                assert(o2[b] == o[b - 1]);
                lemma_profile_order(o[b - 1], x@, o[p as int]);
                if b - 1 > p {
                    assert(!profile_before(o[b - 1], o[p as int]));
                }
            } else if b < p {
                assert(o2[a] == o[a] && o2[b] == o[b]);
            } else {
                assert(o2[a] == o[a - 1]);
                assert(o2[b] == o[b - 1]);
            }
        }
        proof {
            vstd::seq_lib::to_multiset_insert(o, p as int, x@);
            assert(views(names@).take(i + 1) =~= views(names@).take(i as int).push(x@));
            vstd::seq_lib::to_multiset_build(views(names@).take(i as int), x@);
        }
    }
    assert(views(names@).take(n as int) =~= views(names@));
    out
}

} // verus!
