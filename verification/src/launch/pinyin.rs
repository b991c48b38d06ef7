//! Pinyin initials, for matching a name by the acronym a launcher user types.
//!
//! `文件管理器` (wen jian guan li qi) is reachable as `wjglq`, the shorthand
//! someone types into a launcher. Only initials are computed, and every
//! reading counts, so a character with two readings gives two letters and a
//! name two acronyms. ASCII letters and digits stand for themselves, so mixed
//! names stay predictable; any other character without a reading adds
//! nothing.
//!
//! The readings come from a table of groups `(letter, characters)`: the
//! characters that have a reading starting with `letter`.

use vstd::prelude::*;

use crate::text::{chars_of, eq_str, is_alnum, is_ascii_alnum, lower, owned, push_char, to_lower, views};

verus! {

/// How many acronym variants a single name may produce before the tail is
/// dropped. Reached only by names built from many characters with several
/// readings.
pub const MAX_VARIANTS: usize = 128;

/// The reading groups as plain values.
pub open spec fn group_views<'a>(groups: Seq<(char, &'a str)>) -> Seq<(char, Seq<char>)> {
    groups.map_values(|g: (char, &'a str)| (g.0, g.1@))
}

/// Every group letter lies at most 31 places after `a`, so it names a bit
/// of a `u32`.
pub open spec fn letters_fit(groups: Seq<(char, Seq<char>)>) -> bool {
    forall|i: int| 0 <= i < groups.len() ==> 97 <= (#[trigger] groups[i]).0 as u32 <= 128
}

/// Some reading of `c` in the table starts with the letter `n` places after
/// `a`.
pub open spec fn reads_at(groups: Seq<(char, Seq<char>)>, c: char, n: int) -> bool {
    exists|i: int|
        0 <= i < groups.len() && (#[trigger] groups[i]).0 as u32 == 97 + n && groups[i].1.contains(c)
}

/// The letter `n` places after `a`.
pub open spec fn letter_at(n: int) -> char {
    ((97 + n) as u8) as char
}

/// Bit `n` of a mask is set.
pub open spec fn bit_set(mask: u32, n: u32) -> bool {
    (mask & (1u32 << n)) != 0
}

/// The initials of `c` among the first `n` letters, in alphabetical order.
pub open spec fn letters_upto(groups: Seq<(char, Seq<char>)>, c: char, n: int) -> Seq<char>
    decreases n,
{
    if n <= 0 {
        Seq::empty()
    } else {
        letters_upto(groups, c, n - 1) + if reads_at(groups, c, n - 1) {
            seq![letter_at(n - 1)]
        } else {
            Seq::<char>::empty()
        }
    }
}

/// Initial letters of one character: itself, lower-cased, for an ASCII
/// letter or digit; else the first letter of each of its readings, in
/// alphabetical order.
pub open spec fn initials_of(groups: Seq<(char, Seq<char>)>, c: char) -> Seq<char> {
    if is_alnum(c) {
        seq![lower(c)]
    } else {
        letters_upto(groups, c, 26)
    }
}

/// Every variant in `vs` extended by each of `ls`, variant by variant.
pub open spec fn grown(vs: Seq<Seq<char>>, ls: Seq<char>) -> Seq<Seq<char>>
    decreases vs.len(),
{
    if vs.len() == 0 {
        Seq::empty()
    } else {
        grown(vs.drop_last(), ls) + ls.map_values(|l: char| vs.last().push(l))
    }
}

/// At most the first `n` of `s` (`Vec::truncate`).
pub open spec fn cut<A>(s: Seq<A>, n: int) -> Seq<A> {
    if s.len() <= n {
        s
    } else {
        s.take(n)
    }
}

/// The acronym variants a name spells, before duplicates and one-letter
/// variants are dropped: one empty variant to start, and each character with
/// initials multiplies the variants by its letters, keeping the first
/// [`MAX_VARIANTS`].
pub open spec fn variants_of(groups: Seq<(char, Seq<char>)>, name: Seq<char>) -> Seq<Seq<char>>
    decreases name.len(),
{
    if name.len() == 0 {
        seq![Seq::<char>::empty()]
    } else {
        let prev = variants_of(groups, name.drop_last());
        let ls = initials_of(groups, name.last());
        if ls.len() == 0 {
            prev
        } else {
            cut(grown(prev, ls), MAX_VARIANTS as int)
        }
    }
}

/// The variants of at least two letters, each kept where it first occurs.
pub open spec fn first_long(s: Seq<Seq<char>>) -> Seq<Seq<char>>
    decreases s.len(),
{
    if s.len() == 0 {
        Seq::empty()
    } else {
        let p = first_long(s.drop_last());
        if s.last().len() > 1 && !p.contains(s.last()) {
            p.push(s.last())
        } else {
            p
        }
    }
}

/// Every acronym a name spells, in the order the variants come.
pub open spec fn acronyms_of(groups: Seq<(char, Seq<char>)>, name: Seq<char>) -> Seq<Seq<char>> {
    first_long(variants_of(groups, name))
}

/// Setting bit `k` adds exactly that bit.
proof fn lemma_set_bit(m: u32, k: u32, n: u32)
    requires
        k < 32,
        n < 32,
    ensures
        bit_set(m | (1u32 << k), n) <==> (bit_set(m, n) || n == k),
{
    assert(((m | (1u32 << k)) & (1u32 << n)) != 0 <==> ((m & (1u32 << n)) != 0 || n == k))
        by (bit_vector)
        requires
            k < 32,
            n < 32,
    ;
}

/// No bit of zero is set.
proof fn lemma_zero_bits(n: u32)
    requires
        n < 32,
    ensures
        !bit_set(0, n),
{
    assert((0u32 & (1u32 << n)) == 0) by (bit_vector)
        requires
            n < 32,
    ;
}

/// Whether `c` occurs among the chars of `s` (`str::contains` with a char).
fn has_char(s: &str, c: char) -> (r: bool)
    ensures
        r == s@.contains(c),
{
    let v = chars_of(s);
    let n = v.len();
    for i in 0..n
        invariant
            n == v.len(),
            v@ == s@,
            forall|j: int| 0 <= j < i ==> v@[j] != c,
    {
        if v[i] == c {
            assert(s@[i as int] == c);
            return true;
        }
    }
    false
}

/// Bit `n` set when `character` has a reading starting with the letter `n`
/// places after `a`.
pub fn initial_mask(groups: &[(char, &str)], character: char) -> (r: u32)
    requires
        letters_fit(group_views(groups@)),
    ensures
        forall|n: u32| n < 32 ==> (bit_set(r, n) <==> reads_at(group_views(groups@), character, n as int)),
{
    let ghost g = group_views(groups@);
    let mut mask: u32 = 0;
    proof {
        assert forall|n: u32| n < 32 implies (bit_set(mask, n) <==> reads_at(
            g.take(0),
            character,
            n as int,
        )) by {
            lemma_zero_bits(n);
        }
    }
    let len = groups.len();
    for i in 0..len
        invariant
            len == groups@.len(),
            g == group_views(groups@),
            letters_fit(g),
            forall|n: u32| n < 32 ==> (bit_set(mask, n) <==> reads_at(g.take(i as int), character, n as int)),
    {
        let (letter, characters) = groups[i];
        assert(g[i as int] == (letter, characters@));
        let hit = has_char(characters, character);
        let ghost before = mask;
        if hit {
            let shift: u32 = letter as u32 - 97;
            mask = mask | (1u32 << shift);
            proof {
                assert forall|n: u32| n < 32 implies (bit_set(mask, n) <==> reads_at(
                    g.take(i + 1),
                    character,
                    n as int,
                )) by {
                    lemma_set_bit(before, shift, n);
                    if n == shift {
                        assert(g.take(i + 1)[i as int] == g[i as int]);
                    }
                    if reads_at(g.take(i + 1), character, n as int) {
                        let j = choose|j: int|
                            0 <= j < g.take(i + 1).len() && (#[trigger] g.take(i + 1)[j]).0 as u32 == 97
                                + n && g.take(i + 1)[j].1.contains(character);
                        if j < i {
                            assert(g.take(i as int)[j] == g[j]);
                        }
                    }
                    if reads_at(g.take(i as int), character, n as int) {
                        let j = choose|j: int|
                            0 <= j < g.take(i as int).len() && (#[trigger] g.take(i as int)[j]).0 as u32
                                == 97 + n && g.take(i as int)[j].1.contains(character);
                        assert(g.take(i + 1)[j] == g[j]);
                    }
                }
            }
        } else {
            proof {
                assert forall|n: u32| n < 32 implies (bit_set(mask, n) <==> reads_at(
                    g.take(i + 1),
                    character,
                    n as int,
                )) by {
                    if reads_at(g.take(i + 1), character, n as int) {
                        let j = choose|j: int|
                            0 <= j < g.take(i + 1).len() && (#[trigger] g.take(i + 1)[j]).0 as u32 == 97
                                + n && g.take(i + 1)[j].1.contains(character);
                        assert(g.take(i as int)[j] == g[j]);
                    }
                    if reads_at(g.take(i as int), character, n as int) {
                        let j = choose|j: int|
                            0 <= j < g.take(i as int).len() && (#[trigger] g.take(i as int)[j]).0 as u32
                                == 97 + n && g.take(i as int)[j].1.contains(character);
                        assert(g.take(i + 1)[j] == g[j]);
                    }
                }
            }
        }
    }
    assert(g.take(len as int) =~= g);
    mask
}

/// Initial letters of one character: itself, lower-cased, for an ASCII
/// letter or digit, and every reading's first letter, alphabetically, for a
/// character in the table. Spaces, punctuation and characters without a
/// reading give no letters at all.
pub fn initials(groups: &[(char, &str)], character: char) -> (r: Vec<char>)
    requires
        letters_fit(group_views(groups@)),
    ensures
        r@ == initials_of(group_views(groups@), character),
{
    if is_ascii_alnum(character) {
        let mut one: Vec<char> = Vec::new();
        one.push(to_lower(character));
        assert(one@ =~= seq![lower(character)]);
        return one;
    }
    let ghost g = group_views(groups@);
    let mask = initial_mask(groups, character);
    let mut out: Vec<char> = Vec::new();
    for shift in 0..26u32
        invariant
            g == group_views(groups@),
            forall|n: u32| n < 32 ==> (bit_set(mask, n) <==> reads_at(g, character, n as int)),
            out@ == letters_upto(g, character, shift as int),
    {
        assert(bit_set(mask, shift) <==> reads_at(g, character, shift as int));
        if (mask & (1u32 << shift)) != 0 {
            let b: u8 = (97 + shift) as u8;
            assert(b as char == letter_at(shift as int));
            out.push(b as char);
            assert(out@ =~= letters_upto(g, character, shift + 1));
        } else {
            assert(out@ =~= letters_upto(g, character, shift + 1));
        }
    }
    out
}

/// Every initials acronym `name` can spell, most common readings first.
///
/// Once [`MAX_VARIANTS`] is hit the remaining combinations are dropped, so
/// an acronym is not guaranteed to be listed for absurdly ambiguous input.
/// Acronyms shorter than two letters are dropped: a one-letter key is noise
/// in a launcher, where the full name already matches.
pub fn acronyms(groups: &[(char, &str)], name: &str) -> (r: Vec<String>)
    requires
        letters_fit(group_views(groups@)),
    ensures
        views(r@) == acronyms_of(group_views(groups@), name@),
{
    let ghost g = group_views(groups@);
    let chars = chars_of(name);
    let mut variants: Vec<String> = Vec::new();
    variants.push(String::new());
    assert(views(variants@) =~= variants_of(g, name@.take(0)));
    let n = chars.len();
    for i in 0..n
        invariant
            n == chars.len(),
            chars@ == name@,
            g == group_views(groups@),
            letters_fit(g),
            views(variants@) == variants_of(g, name@.take(i as int)),
    {
        assert(name@.take(i + 1).drop_last() =~= name@.take(i as int));
        assert(name@.take(i + 1).last() == chars@[i as int]);
        let letters = initials(groups, chars[i]);
        if letters.len() > 0 {
            let ghost vs = views(variants@);
            let mut next: Vec<String> = Vec::new();
            let m = variants.len();
            for j in 0..m
                invariant
                    m == variants.len(),
                    vs == views(variants@),
                    views(next@) == grown(vs.take(j as int), letters@),
            {
                assert(vs.take(j + 1).drop_last() =~= vs.take(j as int));
                assert(vs.take(j + 1).last() == variants@[j as int]@);
                let ghost base = views(next@);
                let k = letters.len();
                for l in 0..k
                    invariant
                        k == letters.len(),
                        m == variants.len(),
                        j < m,
                        vs == views(variants@),
                        views(next@) == base + letters@.take(l as int).map_values(
                            |c: char| variants@[j as int]@.push(c),
                        ),
                {
                    let mut one = owned(variants[j].as_str());
                    push_char(&mut one, letters[l]);
                    let ghost before = views(next@);
                    next.push(one);
                    assert(views(next@) =~= before.push(one@));
                    assert(letters@.take(l + 1).map_values(|c: char| variants@[j as int]@.push(c))
                        =~= letters@.take(l as int).map_values(|c: char| variants@[j as int]@.push(c)).push(
                        variants@[j as int]@.push(letters@[l as int]),
                    ));
                }
                assert(letters@.take(k as int) =~= letters@);
            }
            assert(vs.take(m as int) =~= vs);
            let ghost full = views(next@);
            next.truncate(MAX_VARIANTS);
            assert(views(next@) =~= cut(full, MAX_VARIANTS as int));
            variants = next;
        }
    }
    assert(name@.take(n as int) =~= name@);
    let ghost all = views(variants@);
    let mut unique: Vec<String> = Vec::new();
    let total = variants.len();
    for i in 0..total
        invariant
            total == variants.len(),
            all == views(variants@),
            views(unique@) == first_long(all.take(i as int)),
    {
        assert(all.take(i + 1).drop_last() =~= all.take(i as int));
        assert(all.take(i + 1).last() == variants@[i as int]@);
        let v = &variants[i];
        let long = chars_of(v.as_str()).len() > 1;
        if long {
            let mut seen = false;
            let u = unique.len();
            for k in 0..u
                invariant
                    u == unique.len(),
                    seen <==> exists|q: int| 0 <= q < k && unique@[q]@ == v@,
            {
                if eq_str(unique[k].as_str(), v.as_str()) {
                    seen = true;
                }
            }
            proof {
                if views(unique@).contains(v@) {
                    let q = choose|q: int| 0 <= q < views(unique@).len() && views(unique@)[q] == v@;
                    assert(unique@[q]@ == v@);
                }
                if seen {
                    let q = choose|q: int| 0 <= q < u && unique@[q]@ == v@;
                    assert(views(unique@)[q] == v@);
                }
            }
            if !seen {
                let ghost before = views(unique@);
                unique.push(owned(v.as_str()));
                assert(views(unique@) =~= before.push(v@));
            }
        }
    }
    assert(all.take(total as int) =~= all);
    unique
}

/// Variants never outnumber [`MAX_VARIANTS`].
proof fn lemma_variants_bounded(groups: Seq<(char, Seq<char>)>, name: Seq<char>)
    ensures
        variants_of(groups, name).len() <= MAX_VARIANTS,
    decreases name.len(),
{
    if name.len() > 0 {
        lemma_variants_bounded(groups, name.drop_last());
    }
}

/// The kept variants are distinct, each at least two letters long, and no
/// more than the variants they come from.
proof fn lemma_first_long(s: Seq<Seq<char>>)
    ensures
        first_long(s).no_duplicates(),
        first_long(s).len() <= s.len(),
        forall|i: int| 0 <= i < first_long(s).len() ==> (#[trigger] first_long(s)[i]).len() > 1,
    decreases s.len(),
{
    if s.len() > 0 {
        lemma_first_long(s.drop_last());
        let p = first_long(s.drop_last());
        if s.last().len() > 1 && !p.contains(s.last()) {
            let q = p.push(s.last());
            assert forall|i: int, j: int| 0 <= i < q.len() && 0 <= j < q.len() && i != j implies q[i]
                != q[j] by {
                if i == p.len() {
                    assert(p[j] == q[j]);
                } else if j == p.len() {
                    assert(p[i] == q[i]);
                }
            }
        }
    }
}

/// An ASCII lower-case letter or digit.
pub open spec fn key_char(c: char) -> bool {
    ('a' <= c && c <= 'z') || ('0' <= c && c <= '9')
}

/// Text made of ASCII lower-case letters and digits only.
pub open spec fn key_text(s: Seq<char>) -> bool {
    forall|i: int| 0 <= i < s.len() ==> key_char(#[trigger] s[i])
}

/// Initials are ASCII lower-case letters or digits.
proof fn lemma_initials_key_chars(groups: Seq<(char, Seq<char>)>, c: char)
    ensures
        key_text(initials_of(groups, c)),
{
    if !is_alnum(c) {
        lemma_letters_key_chars(groups, c, 26);
    }
}

proof fn lemma_letters_key_chars(groups: Seq<(char, Seq<char>)>, c: char, n: int)
    requires
        n <= 26,
    ensures
        key_text(letters_upto(groups, c, n)),
    decreases n,
{
    if n > 0 {
        lemma_letters_key_chars(groups, c, n - 1);
        let p = letters_upto(groups, c, n - 1);
        let x: u8 = (97 + n - 1) as u8;
        assert(x as char == letter_at(n - 1));
        assert(97 <= x <= 122);
        assert(key_char(x as char));
        if reads_at(groups, c, n - 1) {
            let q = p + seq![letter_at(n - 1)];
            assert forall|i: int| 0 <= i < q.len() implies key_char(#[trigger] q[i]) by {
                if i < p.len() {
                    assert(q[i] == p[i]);
                }
            }
        } else {
            assert(p + Seq::<char>::empty() =~= p);
        }
    }
}

/// Growing variants of key text by key chars gives key text.
proof fn lemma_grown_key_text(vs: Seq<Seq<char>>, ls: Seq<char>)
    requires
        forall|i: int| 0 <= i < vs.len() ==> key_text(#[trigger] vs[i]),
        key_text(ls),
    ensures
        forall|i: int| 0 <= i < grown(vs, ls).len() ==> key_text(#[trigger] grown(vs, ls)[i]),
    decreases vs.len(),
{
    if vs.len() > 0 {
        let init = vs.drop_last();
        assert forall|i: int| 0 <= i < init.len() implies key_text(#[trigger] init[i]) by {
            assert(init[i] == vs[i]);
        }
        lemma_grown_key_text(init, ls);
        let p = grown(init, ls);
        let last = vs.last();
        assert(key_text(last));
        let q = ls.map_values(|l: char| last.push(l));
        let g = p + q;
        assert forall|i: int| 0 <= i < g.len() implies key_text(#[trigger] g[i]) by {
            if i >= p.len() {
                let k = i - p.len();
                assert(g[i] == last.push(ls[k]));
                assert(key_char(ls[k]));
                assert forall|m: int| 0 <= m < g[i].len() implies key_char(#[trigger] g[i][m]) by {
                    if m < last.len() {
                        assert(g[i][m] == last[m]);
                    }
                }
            } else {
                assert(g[i] == p[i]);
            }
        }
    }
}

/// Every variant of a name is key text.
proof fn lemma_variants_key_text(groups: Seq<(char, Seq<char>)>, name: Seq<char>)
    ensures
        forall|i: int| 0 <= i < variants_of(groups, name).len() ==> key_text(
            #[trigger] variants_of(groups, name)[i],
        ),
    decreases name.len(),
{
    if name.len() == 0 {
        assert(key_text(Seq::<char>::empty()));
    } else {
        lemma_variants_key_text(groups, name.drop_last());
        let prev = variants_of(groups, name.drop_last());
        let ls = initials_of(groups, name.last());
        lemma_initials_key_chars(groups, name.last());
        if ls.len() > 0 {
            lemma_grown_key_text(prev, ls);
            let g = grown(prev, ls);
            let c = cut(g, MAX_VARIANTS as int);
            assert forall|i: int| 0 <= i < c.len() implies key_text(#[trigger] c[i]) by {
                assert(c[i] == g[i]);
            }
        }
    }
}

/// What [`first_long`] keeps comes from its input.
proof fn lemma_first_long_from(s: Seq<Seq<char>>)
    ensures
        forall|i: int| 0 <= i < first_long(s).len() ==> s.contains(#[trigger] first_long(s)[i]),
    decreases s.len(),
{
    if s.len() > 0 {
        lemma_first_long_from(s.drop_last());
        let p = first_long(s.drop_last());
        assert forall|i: int| 0 <= i < first_long(s).len() implies s.contains(#[trigger] first_long(s)[i]) by {
            if i < p.len() {
                assert(first_long(s)[i] == p[i]);
                let k = choose|k: int| 0 <= k < s.drop_last().len() && s.drop_last()[k] == p[i];
                assert(s[k] == p[i]);
            } else {
                assert(first_long(s)[i] == s.last());
                assert(s[s.len() - 1] == s.last());
            }
        }
    }
}

/// Every name spells at most [`MAX_VARIANTS`] acronyms, all distinct, each
/// at least two letters long and made of ASCII lower-case letters and
/// digits.
pub proof fn lemma_acronyms_bounded(groups: Seq<(char, Seq<char>)>, name: Seq<char>)
    ensures
        acronyms_of(groups, name).len() <= MAX_VARIANTS,
        acronyms_of(groups, name).no_duplicates(),
        forall|i: int|
            0 <= i < acronyms_of(groups, name).len() ==> (#[trigger] acronyms_of(groups, name)[i]).len() >= 2,
        forall|i: int| 0 <= i < acronyms_of(groups, name).len() ==> key_text(#[trigger] acronyms_of(groups, name)[i]),
{
    lemma_variants_bounded(groups, name);
    let v = variants_of(groups, name);
    lemma_first_long(v);
    lemma_first_long_from(v);
    lemma_variants_key_text(groups, name);
    assert forall|i: int| 0 <= i < acronyms_of(groups, name).len() implies key_text(
        #[trigger] acronyms_of(groups, name)[i],
    ) by {
        let k = choose|k: int| 0 <= k < v.len() && v[k] == first_long(v)[i];
        assert(key_text(v[k]));
    }
}

} // verus!
