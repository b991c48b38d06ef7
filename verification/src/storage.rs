//! The persisted store: user aliases, history entries and key config, plus
//! the migrations applied to a store read from disk. Reading and writing
//! the JSON file is left to the caller.

use base64::Engine;
use vstd::prelude::*;
use vstd::utf8::{decode_utf8, encode_utf8, valid_utf8};

use crate::alias::{
    alias_views, default_views, defaults, find_named, named, AliasDef, AliasView,
};
use crate::keyspec::{describe, described, parse, parsed, DEFAULT_COMMAND_SPEC, DEFAULT_SPEC};
use crate::bookmarks::{json_text, parse_json, Json};
use crate::text::{cat2, cat3, eq_fold, eq_ignore_case, eq_str, owned, push_char};

verus! {

/// Hard cap on stored history entries (newest kept).
pub const MAX_HISTORY: usize = 10_000;

/// Current on-disk schema version.
pub const SCHEMA_VERSION: u32 = 5;

/// First schema version whose files carry base64-encoded shortcut values.
pub const SHORTCUTS_B64_VERSION: u32 = 5;

// ----------------------------------------------------------------------
// Base64
// ----------------------------------------------------------------------

/// Standard-alphabet, padded base64 text of `bytes` (the `base64` crate's
/// `STANDARD` engine).
pub uninterp spec fn b64_encode(bytes: Seq<u8>) -> Seq<char>;

/// What the `STANDARD` engine decodes `text` to, `None` when it is not
/// valid padded base64.
pub uninterp spec fn b64_decode(text: Seq<char>) -> Option<Seq<u8>>;

/// `STANDARD.encode(s.as_bytes())`: the base64 text of the UTF-8 bytes of
/// `s`. Besides naming the result, the contract states the engine's
/// round trip: decoding the text gives the bytes back.
#[verifier::external_body]
pub fn encode_b64(s: &str) -> (r: String)
    ensures
        r@ == b64_encode(encode_utf8(s@)),
        b64_decode(r@) == Some(encode_utf8(s@)),
{
    base64::engine::general_purpose::STANDARD.encode(s.as_bytes())
}

/// `STANDARD.decode(s.as_bytes())`, with the error turned into `None`.
#[verifier::external_body]
fn decode_b64_bytes(s: &str) -> (r: Option<Vec<u8>>)
    ensures
        match b64_decode(s@) {
            Some(b) => r matches Some(v) && v@ == b,
            None => r is None,
        },
{
    base64::engine::general_purpose::STANDARD.decode(s.as_bytes()).ok()
}

/// `String::from_utf8`, with the error turned into `None`: `Some` exactly
/// for valid UTF-8, holding the decoded chars.
#[verifier::external_body]
fn utf8_string(b: Vec<u8>) -> (r: Option<String>)
    ensures
        r is Some <==> valid_utf8(b@),
        r matches Some(s) ==> s@ == decode_utf8(b@),
{
    String::from_utf8(b).ok()
}

/// The text stored as base64 `s`; `s` itself when it is not valid base64
/// of UTF-8 text.
pub open spec fn decoded_text(s: Seq<char>) -> Seq<char> {
    match b64_decode(s) {
        Some(b) => if valid_utf8(b) {
            decode_utf8(b)
        } else {
            s
        },
        None => s,
    }
}

/// Base64-decode; on invalid input the input string is returned as-is.
pub fn decode_b64(s: &str) -> (r: String)
    ensures
        r@ == decoded_text(s@),
{
    match decode_b64_bytes(s) {
        Some(b) => match utf8_string(b) {
            Some(t) => t,
            None => owned(s),
        },
        None => owned(s),
    }
}

/// Decoding what was encoded gives the text back.
pub proof fn lemma_b64_roundtrip(s: Seq<char>)
    ensures
        b64_decode(b64_encode(encode_utf8(s))) == Some(encode_utf8(s)) ==> decoded_text(
            b64_encode(encode_utf8(s)),
        ) == s,
{
    vstd::utf8::encode_utf8_valid_utf8(s);
    vstd::utf8::encode_utf8_decode_utf8(s);
}

// ----------------------------------------------------------------------
// History entries
// ----------------------------------------------------------------------

/// One recorded execution. The input is stored base64-encoded so arbitrary
/// text survives the JSON roundtrip untouched.
#[derive(Debug, Clone, PartialEq)]
pub struct HistoryEntry {
    pub alias: String,
    pub input_b64: String,
    pub ts: u64,
}

/// A history entry as plain values: alias, encoded input, timestamp.
pub type EntryView = (Seq<char>, Seq<char>, u64);

/// The model of an entry.
pub open spec fn entry_view(e: HistoryEntry) -> EntryView {
    (e.alias@, e.input_b64@, e.ts)
}

/// The models of a history list.
pub open spec fn entry_views(h: Seq<HistoryEntry>) -> Seq<EntryView> {
    h.map_values(|e: HistoryEntry| entry_view(e))
}

/// The stored (encoded) form of an input.
pub open spec fn encoded(input: Seq<char>) -> Seq<char> {
    b64_encode(encode_utf8(input))
}

impl HistoryEntry {
    /// Build an entry, base64-encoding the plain input.
    pub fn new(alias: &str, input: &str, ts: u64) -> (e: HistoryEntry)
        ensures
            entry_view(e) == (alias@, encoded(input@), ts),
            decoded_text(e.input_b64@) == input@,
    {
        let enc = encode_b64(input);
        proof {
            lemma_b64_roundtrip(input@);
        }
        HistoryEntry { alias: owned(alias), input_b64: enc, ts }
    }

    /// Decode the stored input.
    pub fn input(&self) -> (r: String)
        ensures
            r@ == decoded_text(self.input_b64@),
    {
        decode_b64(self.input_b64.as_str())
    }

    /// Dedup key: `alias` + NUL + plain input.
    pub fn key(&self) -> (r: String)
        ensures
            r@ == self.alias@ + seq!['\0'] + decoded_text(self.input_b64@),
    {
        let mut r = self.alias.clone();
        push_char(&mut r, '\0');
        let input = self.input();
        r.append(input.as_str());
        r
    }

    /// An independent copy.
    pub fn duplicate(&self) -> (r: HistoryEntry)
        ensures
            entry_view(r) == entry_view(*self),
    {
        HistoryEntry { alias: self.alias.clone(), input_b64: self.input_b64.clone(), ts: self.ts }
    }
}

/// Drop all but the newest [`MAX_HISTORY`] entries (history is newest first).
pub fn trim_history(history: &mut Vec<HistoryEntry>)
    ensures
        entry_views(final(history)@) == if old(history)@.len() <= MAX_HISTORY {
            entry_views(old(history)@)
        } else {
            entry_views(old(history)@).take(MAX_HISTORY as int)
        },
{
    history.truncate(MAX_HISTORY);
    proof {
        if old(history)@.len() > MAX_HISTORY {
            assert(entry_views(history@) =~= entry_views(old(history)@).take(MAX_HISTORY as int));
        } else {
            assert(entry_views(history@) =~= entry_views(old(history)@));
        }
    }
}

// ----------------------------------------------------------------------
// Config and store
// ----------------------------------------------------------------------

/// User preferences persisted alongside the aliases/history.
#[derive(Debug, Clone, PartialEq)]
pub struct Config {
    /// Wake-key spec string.
    pub wake_key: String,
    /// Command-palette key spec.
    pub command_key: String,
}

impl Default for Config {
    fn default() -> (c: Self)
        ensures
            c.wake_key@ == DEFAULT_SPEC@,
            c.command_key@ == DEFAULT_COMMAND_SPEC@,
    {
        Config { wake_key: owned(DEFAULT_SPEC), command_key: owned(DEFAULT_COMMAND_SPEC) }
    }
}

/// Persisted state: the aliases exactly as stored (a fresh store is seeded
/// with [`defaults`]), the history newest first, and the key config.
#[derive(Debug, Clone, PartialEq)]
pub struct Store {
    pub config: Config,
    pub aliases: Vec<AliasDef>,
    pub history: Vec<HistoryEntry>,
    /// Schema version the store was read at (or written for).
    pub version: u32,
    /// Runtime-only: the file declared a newer schema; never write it back.
    pub from_newer_version: bool,
    /// Runtime-only: what loading had to do to the file, for a one-time
    /// status line.
    pub load_notice: Option<String>,
}

impl Default for Store {
    fn default() -> (s: Self)
        ensures
            s.config.wake_key@ == DEFAULT_SPEC@,
            s.config.command_key@ == DEFAULT_COMMAND_SPEC@,
            alias_views(s.aliases@) == default_views(),
            s.history@.len() == 0,
            s.version == SCHEMA_VERSION,
            !s.from_newer_version,
            s.load_notice is None,
    {
        Store {
            config: Config::default(),
            aliases: defaults(),
            history: Vec::new(),
            version: SCHEMA_VERSION,
            from_newer_version: false,
            load_notice: None,
        }
    }
}

impl Store {
    /// An independent copy with the same contents.
    pub fn duplicate(&self) -> (r: Store)
        ensures
            r.config == self.config,
            alias_views(r.aliases@) == alias_views(self.aliases@),
            entry_views(r.history@) == entry_views(self.history@),
            r.version == self.version,
            r.from_newer_version == self.from_newer_version,
            r.load_notice == self.load_notice,
    {
        let mut aliases: Vec<AliasDef> = Vec::new();
        let n = self.aliases.len();
        for i in 0..n
            invariant
                n == self.aliases.len(),
                alias_views(aliases@) == alias_views(self.aliases@).take(i as int),
        {
            let ghost before = aliases@;
            aliases.push(self.aliases[i].duplicate());
            assert(alias_views(aliases@) =~= alias_views(before).push(self.aliases@[i as int]@));
            assert(alias_views(self.aliases@).take(i + 1) =~= alias_views(self.aliases@).take(
                i as int,
            ).push(self.aliases@[i as int]@));
        }
        assert(alias_views(self.aliases@).take(n as int) =~= alias_views(self.aliases@));
        let mut history: Vec<HistoryEntry> = Vec::new();
        let m = self.history.len();
        for i in 0..m
            invariant
                m == self.history.len(),
                entry_views(history@) == entry_views(self.history@).take(i as int),
        {
            let ghost before = history@;
            history.push(self.history[i].duplicate());
            assert(entry_views(history@) =~= entry_views(before).push(entry_view(self.history@[i as int])));
            assert(entry_views(self.history@).take(i + 1) =~= entry_views(self.history@).take(
                i as int,
            ).push(entry_view(self.history@[i as int])));
        }
        assert(entry_views(self.history@).take(m as int) =~= entry_views(self.history@));
        let load_notice = match &self.load_notice {
            Some(n) => Some(n.clone()),
            None => None,
        };
        Store {
            config: Config {
                wake_key: self.config.wake_key.clone(),
                command_key: self.config.command_key.clone(),
            },
            aliases,
            history,
            version: self.version,
            from_newer_version: self.from_newer_version,
            load_notice,
        }
    }
}

/// Validate a wake-key spec and persist its canonical form into the store;
/// a rejected spec leaves the store as it was.
pub fn set_wake_key(store: &mut Store, spec: &str) -> (r: Result<(), String>)
    ensures
        match parsed(spec@) {
            Ok(k) => r is Ok && final(store).config.wake_key@ == described(k),
            Err(m) => (r matches Err(e) && e@ == m) && final(store).config.wake_key@ == old(
                store,
            ).config.wake_key@,
        },
        final(store).config.command_key@ == old(store).config.command_key@,
        alias_views(final(store).aliases@) == alias_views(old(store).aliases@),
        entry_views(final(store).history@) == entry_views(old(store).history@),
        final(store).version == old(store).version,
        final(store).from_newer_version == old(store).from_newer_version,
        final(store).load_notice == old(store).load_notice,
        r is Err ==> *final(store) == *old(store),
{
    match parse(spec) {
        Ok(k) => {
            store.config.wake_key = describe(&k);
            Ok(())
        },
        Err(e) => Err(e),
    }
}

/// Validate a command-palette key spec and persist its canonical form into
/// the store; a rejected spec leaves the store as it was.
pub fn set_command_key(store: &mut Store, spec: &str) -> (r: Result<(), String>)
    ensures
        match parsed(spec@) {
            Ok(k) => r is Ok && final(store).config.command_key@ == described(k),
            Err(m) => (r matches Err(e) && e@ == m) && final(store).config.command_key@ == old(
                store,
            ).config.command_key@,
        },
        final(store).config.wake_key@ == old(store).config.wake_key@,
        alias_views(final(store).aliases@) == alias_views(old(store).aliases@),
        entry_views(final(store).history@) == entry_views(old(store).history@),
        final(store).version == old(store).version,
        final(store).from_newer_version == old(store).from_newer_version,
        final(store).load_notice == old(store).load_notice,
        r is Err ==> *final(store) == *old(store),
{
    match parse(spec) {
        Ok(k) => {
            store.config.command_key = describe(&k);
            Ok(())
        },
        Err(e) => Err(e),
    }
}

/// Which legacy file a missing `path` may fall back to: only the default
/// store location (`default`) does, and never the same file twice.
pub fn legacy_fallback(path: &str, default: &str, legacy: Option<String>) -> (r: Option<String>)
    ensures
        r == (match legacy {
            Some(old) => if path@ == default@ && old@ != path@ {
                Some(old)
            } else {
                None
            },
            None => None,
        }),
{
    if !eq_str(path, default) {
        return None;
    }
    match legacy {
        Some(old) => if eq_str(old.as_str(), path) {
            None
        } else {
            Some(old)
        },
        None => None,
    }
}

/// The `version` member of an object's members (the last one of that name,
/// as the parser keeps it) as a `u32`: `None` when there is no such member,
/// it is not a non-negative integer, or it does not fit a `u32`.
pub open spec fn member_version(ms: Seq<(String, Json)>) -> Option<u32>
    decreases ms.len(),
{
    if ms.len() == 0 {
        None
    } else if ms.last().0@ == "version"@ {
        match ms.last().1 {
            Json::Number(Some(v)) => if v <= u32::MAX {
                Some(v as u32)
            } else {
                None
            },
            _ => None,
        }
    } else {
        member_version(ms.drop_last())
    }
}

/// The schema version a parsed document declares: its top-level object's
/// `version` member; `None` for a document that does not parse or is not
/// an object.
pub open spec fn version_of(doc: Result<Json, Seq<char>>) -> Option<u32> {
    match doc {
        Ok(Json::Object(ms)) => member_version(ms@),
        _ => None,
    }
}

/// The `version` a JSON document declares, if any, read from the raw text
/// when the typed parse failed.
pub fn declared_version(data: &str) -> (r: Option<u32>)
    ensures
        r == version_of(json_text(data@)),
{
    match parse_json(data) {
        Ok(Json::Object(ms)) => {
            assert(version_of(json_text(data@)) == member_version(ms@));
            let mut i = ms.len();
            assert(ms@.take(i as int) =~= ms@);
            while i > 0
                invariant
                    i <= ms.len(),
                    version_of(json_text(data@)) == member_version(ms@),
                    member_version(ms@) == member_version(ms@.take(i as int)),
                decreases i,
            {
                let ghost t = ms@.take(i as int);
                assert(t.drop_last() =~= ms@.take(i - 1));
                assert(t.last() == ms@[i - 1]);
                if eq_str(ms[i - 1].0.as_str(), "version") {
                    return match &ms[i - 1].1 {
                        Json::Number(Some(v)) => if *v <= 4294967295u64 {
                            Some(*v as u32)
                        } else {
                            None
                        },
                        _ => None,
                    };
                }
                i -= 1;
            }
            None
        },
        _ => None,
    }
}

/// A file that failed the typed parse but declares a schema `version`
/// newer than this build's was written by a newer build.
pub fn declared_newer(version: Option<u32>) -> (r: bool)
    ensures
        r == (version matches Some(v) && v > SCHEMA_VERSION),
{
    match version {
        Some(v) => v > SCHEMA_VERSION,
        None => false,
    }
}

/// The store to run on when the file was written by a newer build in a
/// shape this build cannot parse: read-only defaults, so the exit save
/// cannot clobber the file.
pub fn newer_store() -> (s: Store)
    ensures
        s.from_newer_version,
        s.load_notice is None,
        s.version == SCHEMA_VERSION,
        alias_views(s.aliases@) == default_views(),
        s.history@.len() == 0,
        s.config.wake_key@ == DEFAULT_SPEC@,
        s.config.command_key@ == DEFAULT_COMMAND_SPEC@,
{
    let mut s = Store::default();
    s.from_newer_version = true;
    s
}

/// The one-time notice after a corrupt store: where it was moved, or that
/// it was kept in place when the move failed.
pub open spec fn corrupt_notice(moved: bool, path: Seq<char>, aside: Seq<char>) -> Seq<char> {
    if moved {
        "corrupt store moved to "@ + aside
    } else {
        "store could not be parsed; kept at "@ + path
    }
}

/// The fresh store that replaces a corrupt file at `path` (moved to `aside`
/// when `moved`): seeded defaults carrying the notice.
pub fn corrupt_store(moved: bool, path: &str, aside: &str) -> (s: Store)
    ensures
        s.load_notice matches Some(n) && n@ == corrupt_notice(moved, path@, aside@),
        !s.from_newer_version,
        s.version == SCHEMA_VERSION,
        alias_views(s.aliases@) == default_views(),
        s.history@.len() == 0,
        s.config.wake_key@ == DEFAULT_SPEC@,
        s.config.command_key@ == DEFAULT_COMMAND_SPEC@,
{
    let mut s = Store::default();
    let notice = if moved {
        cat2("corrupt store moved to ", aside)
    } else {
        cat2("store could not be parsed; kept at ", path)
    };
    s.load_notice = Some(notice);
    s
}

// ----------------------------------------------------------------------
// Migration
// ----------------------------------------------------------------------

/// One merge step: a stored alias replaces the first alias of its name, or
/// is appended when the name is new.
pub open spec fn merge_step(m: Seq<AliasView>, d: AliasView) -> Seq<AliasView> {
    match named(m, d.name) {
        Some(i) => m.update(i, d),
        None => m.push(d),
    }
}

/// Seeded defaults first, same-name stored aliases replacing them in place,
/// other stored names appended in order.
pub open spec fn merged(stored: Seq<AliasView>) -> Seq<AliasView>
    decreases stored.len(),
{
    if stored.len() == 0 {
        default_views()
    } else {
        merge_step(merged(stored.drop_last()), stored.last())
    }
}

/// Migration helper: seeded defaults first, same-name stored aliases replace
/// them in place, and any other stored names are appended at the end.
pub fn merge_defaults(stored: Vec<AliasDef>) -> (r: Vec<AliasDef>)
    ensures
        alias_views(r@) == merged(alias_views(stored@)),
{
    let mut merged_defs = defaults();
    let n = stored.len();
    for i in 0..n
        invariant
            n == stored.len(),
            alias_views(merged_defs@) == merged(alias_views(stored@).take(i as int)),
    {
        let d = stored[i].duplicate();
        let ghost before = alias_views(merged_defs@);
        proof {
            assert(alias_views(stored@).take(i + 1).drop_last() =~= alias_views(stored@).take(
                i as int,
            ));
            assert(alias_views(stored@).take(i + 1).last() == d@);
        }
        match find_named(&merged_defs, d.name.as_str()) {
            Some(j) => {
                merged_defs.remove(j);
                merged_defs.insert(j, d);
                assert(alias_views(merged_defs@) =~= before.update(j as int, stored@[i as int]@));
            },
            None => {
                merged_defs.push(d);
                assert(alias_views(merged_defs@) =~= before.push(stored@[i as int]@));
            },
        }
    }
    assert(alias_views(stored@).take(n as int) =~= alias_views(stored@));
    merged_defs
}

/// The alias list the launcher works with: the stored aliases merged over
/// the seeded defaults (defaults first, a stored alias replacing the default
/// of its name in place, other stored names appended).
pub fn merge_aliases(stored: &[AliasDef]) -> (r: Vec<AliasDef>)
    ensures
        alias_views(r@) == merged(alias_views(stored@)),
{
    let mut copy: Vec<AliasDef> = Vec::new();
    let n = stored.len();
    for i in 0..n
        invariant
            n == stored@.len(),
            alias_views(copy@) == alias_views(stored@).take(i as int),
    {
        let ghost before = copy@;
        copy.push(stored[i].duplicate());
        assert(alias_views(copy@) =~= alias_views(before).push(stored@[i as int]@));
        assert(alias_views(stored@).take(i + 1) =~= alias_views(stored@).take(i as int).push(
            stored@[i as int]@,
        ));
    }
    assert(alias_views(stored@).take(n as int) =~= alias_views(stored@));
    merge_defaults(copy)
}

/// Backfill one newly seeded default unless an alias of that name already
/// exists (up to ASCII case); existing definitions are never touched.
pub fn append_default_alias(aliases: &mut Vec<AliasDef>, def: AliasDef)
    ensures
        (exists|i: int| 0 <= i < old(aliases)@.len() && eq_fold(#[trigger] old(aliases)@[i].name@, def.name@))
            ==> alias_views(final(aliases)@) == alias_views(old(aliases)@),
        !(exists|i: int| 0 <= i < old(aliases)@.len() && eq_fold(#[trigger] old(aliases)@[i].name@, def.name@))
            ==> alias_views(final(aliases)@) == alias_views(old(aliases)@).push(def@),
{
    let n = aliases.len();
    for i in 0..n
        invariant
            n == aliases.len(),
            aliases@ == old(aliases)@,
            forall|j: int| 0 <= j < i ==> !eq_fold(#[trigger] aliases@[j].name@, def.name@),
    {
        if eq_ignore_case(aliases[i].name.as_str(), def.name.as_str()) {
            return;
        }
    }
    let ghost before = alias_views(aliases@);
    aliases.push(def);
    assert(alias_views(aliases@) =~= before.push(def@));
}

/// The value of every shortcut decoded from base64.
pub open spec fn decoded_values(m: Map<Seq<char>, Seq<char>>) -> Map<Seq<char>, Seq<char>> {
    Map::new(|k: Seq<char>| m.dom().contains(k), |k: Seq<char>| decoded_text(m[k]))
}

/// `d` with its shortcut values decoded.
pub open spec fn decoded_alias(d: AliasView) -> AliasView {
    crate::alias::with_shortcuts(d, decoded_values(d.shortcuts))
}

/// Decode the values of one alias's shortcut table.
fn decode_values_of(def: &mut AliasDef)
    ensures
        final(def)@ == decoded_alias(old(def)@),
{
    let keys = def.shortcuts.keys();
    let ghost m0 = def.shortcuts@;
    let n = keys.len();
    for i in 0..n
        invariant
            n == keys.len(),
            def.name@ == old(def).name@,
            crate::text::views(def.triggers@) == crate::text::views(old(def).triggers@),
            crate::alias::opt_view(def.linux) == crate::alias::opt_view(old(def).linux),
            crate::alias::opt_view(def.macos) == crate::alias::opt_view(old(def).macos),
            m0 == old(def).shortcuts@,
            crate::order::strictly_sorted(crate::text::views(keys@)),
            forall|k: Seq<char>|
                m0.dom().contains(k) <==> exists|j: int| 0 <= j < keys.len() && #[trigger] keys@[j]@ == k,
            def.shortcuts@.dom() == m0.dom(),
            forall|k: Seq<char>|
                #![trigger def.shortcuts@[k]]
                m0.dom().contains(k) ==> def.shortcuts@[k] == if (exists|j: int|
                    0 <= j < i && #[trigger] keys@[j]@ == k) {
                    decoded_text(m0[k])
                } else {
                    m0[k]
                },
    {
        let key = keys[i].clone();
        proof {
            assert(m0.dom().contains(key@));
            // keys are distinct, so this key was not decoded yet
            assert forall|j: int| 0 <= j < i implies #[trigger] keys@[j]@ != key@ by {
                assert(crate::order::seq_lt(crate::text::views(keys@)[j], crate::text::views(keys@)[i as int]));
                crate::order::lemma_lt_irreflexive(key@);
            }
        }
        let value = match def.shortcuts.get(key.as_str()) {
            Some(v) => v.clone(),
            None => {
                assert(false);
                String::new()
            },
        };
        let dv = decode_b64(value.as_str());
        let ghost before = def.shortcuts@;
        def.shortcuts.insert(key, dv);
        proof {
            assert forall|k: Seq<char>| m0.dom().contains(k) implies #[trigger] def.shortcuts@[k] == if (exists|j: int|
                0 <= j < i + 1 && #[trigger] keys@[j]@ == k) {
                decoded_text(m0[k])
            } else {
                m0[k]
            } by {
                if k == keys@[i as int]@ {
                    assert(keys@[i as int]@ == k);
                } else {
                    if exists|j: int| 0 <= j < i + 1 && #[trigger] keys@[j]@ == k {
                        let j = choose|j: int| 0 <= j < i + 1 && #[trigger] keys@[j]@ == k;
                        assert(j < i);
                    }
                }
            }
            assert(def.shortcuts@.dom() =~= m0.dom());
        }
    }
    proof {
        assert(def.shortcuts@ =~= decoded_values(m0)) by {
            assert forall|k: Seq<char>| #[trigger] def.shortcuts@.dom().contains(k) implies def.shortcuts@[k]
                == decoded_values(m0)[k] by {
                let j = choose|j: int| 0 <= j < keys.len() && #[trigger] keys@[j]@ == k;
                assert(exists|j: int| 0 <= j < n && #[trigger] keys@[j]@ == k);
            }
        }
    }
}

/// Decode the shortcut values of every alias.
pub fn decode_shortcut_values(store: &mut Store)
    ensures
        alias_views(final(store).aliases@) == alias_views(old(store).aliases@).map_values(
            |d: AliasView| decoded_alias(d),
        ),
        final(store).config == old(store).config,
        final(store).history == old(store).history,
        final(store).version == old(store).version,
        final(store).from_newer_version == old(store).from_newer_version,
        final(store).load_notice == old(store).load_notice,
{
    let n = store.aliases.len();
    let ghost a0 = alias_views(store.aliases@);
    for i in 0..n
        invariant
            n == store.aliases.len(),
            a0 == alias_views(old(store).aliases@),
            store.config == old(store).config,
            store.history == old(store).history,
            store.version == old(store).version,
            store.from_newer_version == old(store).from_newer_version,
            store.load_notice == old(store).load_notice,
            alias_views(store.aliases@).len() == a0.len(),
            forall|j: int| 0 <= j < i ==> #[trigger] alias_views(store.aliases@)[j] == decoded_alias(a0[j]),
            forall|j: int| i <= j < n ==> #[trigger] alias_views(store.aliases@)[j] == a0[j],
    {
        let ghost before = alias_views(store.aliases@);
        assert(before[i as int] == a0[i as int]);
        decode_values_of(&mut store.aliases[i]);
        assert(alias_views(store.aliases@) =~= before.update(i as int, decoded_alias(a0[i as int])));
    }
    assert(alias_views(store.aliases@) =~= a0.map_values(|d: AliasView| decoded_alias(d)));
}

/// Some alias is called `app` (up to ASCII case).
pub open spec fn app_taken(a: Seq<AliasView>) -> bool {
    exists|i: int| 0 <= i < a.len() && eq_fold(#[trigger] a[i].name, "app"@)
}

/// The aliases after migrating a store read at `version`: stores older
/// than 2 get the defaults merged back in, stores older than 4 get `app`
/// appended unless some alias is already called that (up to ASCII case).
pub open spec fn migrated(version: u32, aliases: Seq<AliasView>) -> Seq<AliasView> {
    let a1 = if version < 2 {
        merged(aliases)
    } else {
        aliases
    };
    if version < 4 && !app_taken(a1) {
        a1.push(crate::launch::app_view())
    } else {
        a1
    }
}

/// Version migration: stores older than version 2 hold only overrides of
/// the seeded defaults, so the defaults are merged back in first; version 4
/// seeded the `app` alias, so older snapshots get it appended unless they
/// already define that name; every older version is then bumped to
/// [`SCHEMA_VERSION`].
pub fn migrate(store: &mut Store)
    ensures
        final(store).version == if old(store).version < SCHEMA_VERSION {
            SCHEMA_VERSION
        } else {
            old(store).version
        },
        alias_views(final(store).aliases@) == migrated(old(store).version, alias_views(old(store).aliases@)),
        final(store).config == old(store).config,
        final(store).history == old(store).history,
        final(store).from_newer_version == old(store).from_newer_version,
        final(store).load_notice == old(store).load_notice,
{
    if store.version < 2 {
        let mut taken: Vec<AliasDef> = Vec::new();
        std::mem::swap(&mut taken, &mut store.aliases);
        store.aliases = merge_defaults(taken);
    }
    let ghost a1 = alias_views(store.aliases@);
    assert(a1 == if old(store).version < 2 {
        merged(alias_views(old(store).aliases@))
    } else {
        alias_views(old(store).aliases@)
    });
    if store.version < 4 {
        let app = crate::launch::default_def();
        let ghost before = store.aliases@;
        append_default_alias(&mut store.aliases, app);
        proof {
            let taken_spec = app_taken(a1);
            let taken_impl = exists|i: int|
                0 <= i < before.len() && eq_fold(#[trigger] before[i].name@, app.name@);
            if taken_spec {
                let i = choose|i: int| 0 <= i < a1.len() && eq_fold(#[trigger] a1[i].name, "app"@);
                assert(a1[i] == before[i]@);
                assert(eq_fold(before[i].name@, app.name@));
            }
            if taken_impl {
                let i = choose|i: int|
                    0 <= i < before.len() && eq_fold(#[trigger] before[i].name@, app.name@);
                assert(a1[i] == before[i]@);
                assert(eq_fold(a1[i].name, "app"@));
            }
            assert(taken_spec == taken_impl);
            if taken_spec {
                assert(alias_views(store.aliases@) == a1);
            } else {
                assert(alias_views(store.aliases@) == a1.push(crate::launch::app_view()));
            }
        }
    }
    assert(alias_views(store.aliases@) == migrated(old(store).version, alias_views(old(store).aliases@)));
    if store.version < SCHEMA_VERSION {
        store.version = SCHEMA_VERSION;
    }
}

/// The aliases of a store read at `version` (not newer than this build):
/// shortcut values decoded when the file uses the base64 encoding, then
/// migrated.
pub open spec fn accepted_aliases(version: u32, aliases: Seq<AliasView>) -> Seq<AliasView> {
    migrated(
        version,
        if version >= SHORTCUTS_B64_VERSION {
            aliases.map_values(|d: AliasView| decoded_alias(d))
        } else {
            aliases
        },
    )
}

/// A store written by this build comes back with every shortcut value
/// decoded: the same aliases in the same order, each keeping its name,
/// triggers, commands and shortcut keys, each value the text its stored
/// base64 decodes to.
pub proof fn lemma_accept_decodes_values(aliases: Seq<AliasView>, version: u32)
    requires
        SHORTCUTS_B64_VERSION <= version <= SCHEMA_VERSION,
    ensures
        accepted_aliases(version, aliases).len() == aliases.len(),
        forall|i: int|
            0 <= i < aliases.len() ==> {
                let d = #[trigger] accepted_aliases(version, aliases)[i];
                &&& d.name == aliases[i].name
                &&& d.triggers == aliases[i].triggers
                &&& d.linux == aliases[i].linux
                &&& d.macos == aliases[i].macos
                &&& d.shortcuts.dom() == aliases[i].shortcuts.dom()
                &&& forall|k: Seq<char>|
                    #[trigger] aliases[i].shortcuts.dom().contains(k) ==> d.shortcuts[k] == decoded_text(
                        aliases[i].shortcuts[k],
                    )
            },
{
    let dec = aliases.map_values(|d: AliasView| decoded_alias(d));
    assert(accepted_aliases(version, aliases) == dec);
    assert forall|i: int| 0 <= i < aliases.len() implies (#[trigger] dec[i]).shortcuts.dom()
        == aliases[i].shortcuts.dom() by {
        assert(decoded_values(aliases[i].shortcuts).dom() =~= aliases[i].shortcuts.dom());
    }
}

/// Finish a parsed store: a store from a newer build is returned verbatim
/// and marked read-only; otherwise shortcut values are base64-decoded when
/// the file already uses the v5 encoding, older versions are migrated and
/// history is trimmed.
pub fn accept(store: Store) -> (r: Store)
    ensures
        store.version <= SCHEMA_VERSION ==> alias_views(r.aliases@) == accepted_aliases(
            store.version,
            alias_views(store.aliases@),
        ),
        r.config == store.config,
        r.load_notice == store.load_notice,
        store.version > SCHEMA_VERSION ==> r.from_newer_version && r.version == store.version
            && alias_views(r.aliases@) == alias_views(store.aliases@) && entry_views(r.history@)
            == entry_views(store.history@),
        store.version <= SCHEMA_VERSION ==> r.version == SCHEMA_VERSION && r.from_newer_version
            == store.from_newer_version && entry_views(r.history@) == (if store.history@.len()
            <= MAX_HISTORY {
            entry_views(store.history@)
        } else {
            entry_views(store.history@).take(MAX_HISTORY as int)
        }),
{
    let mut store = store;
    if store.version > SCHEMA_VERSION {
        store.from_newer_version = true;
        return store;
    }
    if store.version >= SHORTCUTS_B64_VERSION {
        decode_shortcut_values(&mut store);
    }
    migrate(&mut store);
    trim_history(&mut store.history);
    store
}

} // verus!
