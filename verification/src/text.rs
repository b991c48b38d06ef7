//! Character and string primitives the rest of the library is written in:
//! Unicode whitespace, ASCII case folding, trimming and whitespace
//! tokenization, each with the spec function its contract speaks of.

use vstd::prelude::*;

verus! {

/// Unicode `White_Space`: exactly the characters `char::is_whitespace`
/// accepts.
pub open spec fn is_ws(c: char) -> bool {
    let u = c as u32;
    ||| 9 <= u <= 13
    ||| u == 32
    ||| u == 0x85
    ||| u == 0xA0
    ||| u == 0x1680
    ||| 0x2000 <= u <= 0x200A
    ||| u == 0x2028
    ||| u == 0x2029
    ||| u == 0x202F
    ||| u == 0x205F
    ||| u == 0x3000
}

/// ASCII letter or digit.
pub open spec fn is_alnum(c: char) -> bool {
    let u = c as u32;
    ||| 48 <= u <= 57
    ||| 65 <= u <= 90
    ||| 97 <= u <= 122
}

/// ASCII upper-case letter.
pub open spec fn is_upper(c: char) -> bool {
    65 <= c as u32 <= 90
}

/// ASCII lower-casing of one char; every other char is kept.
pub open spec fn lower(c: char) -> char {
    if is_upper(c) {
        ((c as u32 + 32) as u8) as char
    } else {
        c
    }
}

/// ASCII lower-casing of a whole sequence.
pub open spec fn lower_seq(s: Seq<char>) -> Seq<char> {
    s.map_values(|c: char| lower(c))
}

/// The contents of a list of strings.
pub open spec fn views(v: Seq<String>) -> Seq<Seq<char>> {
    v.map_values(|s: String| s@)
}

/// Equal up to ASCII case (`str::eq_ignore_ascii_case`).
pub open spec fn eq_fold(a: Seq<char>, b: Seq<char>) -> bool {
    lower_seq(a) == lower_seq(b)
}

/// `char::is_whitespace`.
pub fn is_whitespace(c: char) -> (r: bool)
    ensures
        r == is_ws(c),
{
    let u = c as u32;
    (9 <= u && u <= 13) || u == 32 || u == 0x85 || u == 0xA0 || u == 0x1680 || (0x2000 <= u && u
        <= 0x200A) || u == 0x2028 || u == 0x2029 || u == 0x202F || u == 0x205F || u == 0x3000
}

/// `char::is_ascii_alphanumeric`.
pub fn is_ascii_alnum(c: char) -> (r: bool)
    ensures
        r == is_alnum(c),
{
    let u = c as u32;
    (48 <= u && u <= 57) || (65 <= u && u <= 90) || (97 <= u && u <= 122)
}

/// `char::to_ascii_lowercase`.
pub fn to_lower(c: char) -> (r: char)
    ensures
        r == lower(c),
{
    let u = c as u32;
    if 65 <= u && u <= 90 {
        let b: u8 = (u + 32) as u8;
        b as char
    } else {
        c
    }
}

/// Index of the first non-whitespace char at or after `i`.
pub open spec fn lead(s: Seq<char>, i: int) -> int
    decreases s.len() - i,
{
    if 0 <= i < s.len() && is_ws(s[i]) {
        lead(s, i + 1)
    } else {
        i
    }
}

/// End of the text once trailing whitespace down to `lo` is dropped.
pub open spec fn trail(s: Seq<char>, lo: int, j: int) -> int
    decreases j - lo,
{
    if lo < j && j <= s.len() && is_ws(s[j - 1]) {
        trail(s, lo, j - 1)
    } else {
        j
    }
}

/// `str::trim`: leading and trailing whitespace dropped.
pub open spec fn trim_seq(s: Seq<char>) -> Seq<char> {
    let a = lead(s, 0);
    s.subrange(a, trail(s, a, s.len() as int))
}

/// Skipping leading whitespace from `i` passes only whitespace and stops
/// inside the text, on the first other char.
pub proof fn lemma_lead_bounds(s: Seq<char>, i: int)
    requires
        0 <= i <= s.len(),
    ensures
        i <= lead(s, i) <= s.len(),
        forall|k: int| i <= k < lead(s, i) ==> is_ws(#[trigger] s[k]),
        lead(s, i) < s.len() ==> !is_ws(s[lead(s, i)]),
    decreases s.len() - i,
{
    if i < s.len() && is_ws(s[i]) {
        lemma_lead_bounds(s, i + 1);
    }
}

/// Dropping trailing whitespace before `j` passes only whitespace and stops
/// no lower than `lo`, after the last other char.
pub proof fn lemma_trail_bounds(s: Seq<char>, lo: int, j: int)
    requires
        0 <= lo <= j <= s.len(),
    ensures
        lo <= trail(s, lo, j) <= j,
        forall|k: int| trail(s, lo, j) <= k < j ==> is_ws(#[trigger] s[k]),
        trail(s, lo, j) > lo ==> !is_ws(s[trail(s, lo, j) - 1]),
    decreases j - lo,
{
    if lo < j && is_ws(s[j - 1]) {
        lemma_trail_bounds(s, lo, j - 1);
    }
}

/// Trimming never lengthens a text.
pub proof fn lemma_trim_len(s: Seq<char>)
    ensures
        trim_seq(s).len() <= s.len(),
{
    lemma_lead_bounds(s, 0);
    lemma_trail_bounds(s, lead(s, 0), s.len() as int);
}

/// `String::push`: the string's chars with `c` appended.
#[verifier::external_body]
pub(crate) fn push_char(s: &mut String, c: char)
    ensures
        final(s)@ == old(s)@.push(c),
{
    s.push(c);
}

/// The chars of `s`, in order.
pub fn chars_of(s: &str) -> (v: Vec<char>)
    ensures
        v@ == s@,
{
    let mut v: Vec<char> = Vec::new();
    for c in it: s.chars()
        invariant
            v@ == it.seq().take(it.index() as int),
    {
        v.push(c);
    }
    v
}

/// The chars `v[lo..hi]` as a `String`.
pub fn string_of(v: &Vec<char>, lo: usize, hi: usize) -> (r: String)
    requires
        lo <= hi <= v.len(),
    ensures
        r@ == v@.subrange(lo as int, hi as int),
{
    let mut out = String::new();
    let mut k = lo;
    while k < hi
        invariant
            lo <= k <= hi <= v.len(),
            out@ == v@.subrange(lo as int, k as int),
        decreases hi - k,
    {
        push_char(&mut out, v[k]);
        k += 1;
        assert(out@ =~= v@.subrange(lo as int, k as int));
    }
    out
}

/// Bounds of the trimmed text: `v[lo..hi]` is `v` without surrounding
/// whitespace.
pub fn trim_bounds(v: &Vec<char>) -> (r: (usize, usize))
    ensures
        r.0 == lead(v@, 0),
        r.1 == trail(v@, r.0 as int, v@.len() as int),
        r.0 <= r.1 <= v.len(),
        v@.subrange(r.0 as int, r.1 as int) == trim_seq(v@),
{
    let mut i: usize = 0;
    while i < v.len() && is_whitespace(v[i])
        invariant
            0 <= i <= v.len(),
            lead(v@, 0) == lead(v@, i as int),
        decreases v.len() - i,
    {
        i += 1;
    }
    let mut j: usize = v.len();
    while j > i && is_whitespace(v[j - 1])
        invariant
            i <= j <= v.len(),
            trail(v@, i as int, v@.len() as int) == trail(v@, i as int, j as int),
        decreases j,
    {
        j -= 1;
    }
    (i, j)
}

/// `str::trim`, owned.
pub fn trim(s: &str) -> (r: String)
    ensures
        r@ == trim_seq(s@),
{
    let v = chars_of(s);
    let (a, b) = trim_bounds(&v);
    string_of(&v, a, b)
}

/// `str::to_lowercase`, which follows the Unicode case tables; this
/// library does not restate those tables and names the result instead.
pub uninterp spec fn unicode_lower(s: Seq<char>) -> Seq<char>;

/// `str::to_lowercase`: the Unicode lower-case form of `s`. The contract
/// claims only that the result is a function of the text (named
/// [`unicode_lower`]); which characters change is left to std.
#[verifier::external_body]
pub(crate) fn to_lowercase(s: &str) -> (r: String)
    ensures
        r@ == unicode_lower(s@),
{
    s.to_lowercase()
}

/// `char::is_alphanumeric`, which follows Unicode's alphabetic and numeric
/// properties; this library names the answer instead of restating them.
pub uninterp spec fn unicode_alnum(c: char) -> bool;

/// `char::is_alphanumeric`: whether `c` is alphabetic or numeric in
/// Unicode. The contract claims only that the answer is a function of `c`
/// (named [`unicode_alnum`]); which characters qualify is left to std.
#[verifier::external_body]
pub(crate) fn is_alphanumeric(c: char) -> (r: bool)
    ensures
        r == unicode_alnum(c),
{
    c.is_alphanumeric()
}

/// An owned copy of `s`.
pub fn owned(s: &str) -> (r: String)
    ensures
        r@ == s@,
{
    let v = chars_of(s);
    string_of(&v, 0, v.len())
}

/// `a` followed by `b`.
pub fn cat2(a: &str, b: &str) -> (r: String)
    ensures
        r@ == a@ + b@,
{
    let mut r = owned(a);
    r.append(b);
    r
}

/// `a`, `b` and `c` in a row.
pub fn cat3(a: &str, b: &str, c: &str) -> (r: String)
    ensures
        r@ == a@ + b@ + c@,
{
    let mut r = owned(a);
    r.append(b);
    r.append(c);
    r
}

/// `a` to `d` in a row.
pub fn cat4(a: &str, b: &str, c: &str, d: &str) -> (r: String)
    ensures
        r@ == a@ + b@ + c@ + d@,
{
    let mut r = owned(a);
    r.append(b);
    r.append(c);
    r.append(d);
    r
}

/// `a` to `e` in a row.
pub fn cat5(a: &str, b: &str, c: &str, d: &str, e: &str) -> (r: String)
    ensures
        r@ == a@ + b@ + c@ + d@ + e@,
{
    let mut r = owned(a);
    r.append(b);
    r.append(c);
    r.append(d);
    r.append(e);
    r
}

/// Whether `a` and `b` hold the same text.
pub fn eq_str(a: &str, b: &str) -> (r: bool)
    ensures
        r <==> a@ == b@,
{
    let x = chars_of(a);
    let y = chars_of(b);
    if x.len() != y.len() {
        return false;
    }
    let mut i: usize = 0;
    while i < x.len()
        invariant
            x.len() == y.len(),
            x@ == a@,
            y@ == b@,
            i <= x.len(),
            forall|j: int| 0 <= j < i ==> x@[j] == y@[j],
        decreases x.len() - i,
    {
        if x[i] != y[i] {
            assert(a@[i as int] != b@[i as int]);
            return false;
        }
        i += 1;
    }
    assert(x@ =~= y@);
    true
}

/// `str::eq_ignore_ascii_case`.
pub fn eq_ignore_case(a: &str, b: &str) -> (r: bool)
    ensures
        r <==> eq_fold(a@, b@),
{
    let x = chars_of(a);
    let y = chars_of(b);
    if x.len() != y.len() {
        assert(lower_seq(a@).len() != lower_seq(b@).len());
        return false;
    }
    let mut i: usize = 0;
    while i < x.len()
        invariant
            x.len() == y.len(),
            x@ == a@,
            y@ == b@,
            i <= x.len(),
            forall|j: int| 0 <= j < i ==> lower(x@[j]) == lower(y@[j]),
        decreases x.len() - i,
    {
        if to_lower(x[i]) != to_lower(y[i]) {
            assert(lower_seq(a@)[i as int] != lower_seq(b@)[i as int]);
            return false;
        }
        i += 1;
    }
    assert(lower_seq(a@) =~= lower_seq(b@));
    true
}

/// The items of `list` with `sep` between neighbours (`[T]::join`).
pub open spec fn join(list: Seq<Seq<char>>, sep: Seq<char>) -> Seq<char>
    decreases list.len(),
{
    if list.len() == 0 {
        Seq::empty()
    } else if list.len() == 1 {
        list[0]
    } else {
        join(list.drop_last(), sep) + sep + list.last()
    }
}

/// Each item of a list sits whole inside the joined text.
pub proof fn lemma_join_holds(list: Seq<Seq<char>>, sep: Seq<char>, j: int) -> (a: int)
    requires
        0 <= j < list.len(),
    ensures
        0 <= a,
        a + list[j].len() <= join(list, sep).len(),
        join(list, sep).subrange(a, a + list[j].len()) == list[j],
    decreases list.len(),
{
    let t = join(list, sep);
    if list.len() == 1 {
        assert(t.subrange(0, list[j].len() as int) =~= list[j]);
        0
    } else if j == list.len() - 1 {
        let head = join(list.drop_last(), sep) + sep;
        let a = head.len() as int;
        assert(t == head + list.last());
        assert(t.subrange(a, a + list[j].len()) =~= list[j]);
        a
    } else {
        let a = lemma_join_holds(list.drop_last(), sep, j);
        let head = join(list.drop_last(), sep);
        assert(list.drop_last()[j] == list[j]);
        assert(t == head + sep + list.last());
        assert(t.subrange(a, a + list[j].len()) =~= head.subrange(a, a + list[j].len()));
        a
    }
}

/// `list.join(sep)`.
pub fn join_strings(list: &Vec<String>, sep: &str) -> (r: String)
    ensures
        r@ == join(views(list@), sep@),
{
    let mut r = String::new();
    let n = list.len();
    for i in 0..n
        invariant
            n == list.len(),
            r@ == join(views(list@).take(i as int), sep@),
    {
        let ghost before = r@;
        if i > 0 {
            r.append(sep);
        }
        r.append(list[i].as_str());
        proof {
            let t = views(list@).take(i + 1);
            assert(t.last() == list@[i as int]@);
            if i > 0 {
                assert(t.drop_last() =~= views(list@).take(i as int));
            } else {
                assert(r@ =~= list@[0]@);
            }
        }
    }
    assert(views(list@).take(n as int) =~= views(list@));
    r
}

/// The decimal digit for `d < 10`.
pub open spec fn digit(d: nat) -> char {
    ((48 + d) as u8) as char
}

/// Decimal spelling of `n`, most significant digit first, no leading zeros.
pub open spec fn decimal(n: nat) -> Seq<char>
    decreases n,
{
    if n < 10 {
        seq![digit(n)]
    } else {
        decimal(n / 10).push(digit(n % 10))
    }
}

/// The number a string of decimal digits spells.
pub open spec fn digits_value(s: Seq<char>) -> int
    decreases s.len(),
{
    if s.len() == 0 {
        0
    } else {
        digits_value(s.drop_last()) * 10 + (s.last() as int - 48)
    }
}

/// A digit char's code is 48 plus its value.
pub proof fn lemma_digit_code(d: nat)
    requires
        d < 10,
    ensures
        digit(d) as int == 48 + d,
{
    let b: u8 = (48 + d) as u8;
    assert(b as int == 48 + d);
    assert((b as char) as int == b as int);
}

/// Reading the spelling back gives the number.
pub proof fn lemma_decimal_value(n: nat)
    ensures
        digits_value(decimal(n)) == n,
    decreases n,
{
    if n < 10 {
        lemma_digit_code(n);
        assert(decimal(n).drop_last() =~= Seq::<char>::empty());
        assert(digits_value(Seq::<char>::empty()) == 0);
        assert(digits_value(decimal(n)) == digits_value(decimal(n).drop_last()) * 10 + (decimal(n).last() as int - 48));
    } else {
        lemma_digit_code(n % 10);
        lemma_decimal_value(n / 10);
        assert(decimal(n).drop_last() =~= decimal(n / 10));
        assert(decimal(n).last() == digit(n % 10));
        assert(digits_value(decimal(n)) == digits_value(decimal(n).drop_last()) * 10 + (decimal(n).last() as int - 48));
        assert(n == (n / 10) * 10 + n % 10) by (nonlinear_arith);
    }
}

/// Different numbers are spelled differently.
pub proof fn lemma_decimal_injective(a: nat, b: nat)
    requires
        decimal(a) == decimal(b),
    ensures
        a == b,
{
    lemma_decimal_value(a);
    lemma_decimal_value(b);
}

/// Decimal spelling of a signed number (`-` before negatives).
pub open spec fn signed_decimal(n: int) -> Seq<char> {
    if n < 0 {
        seq!['-'] + decimal((-n) as nat)
    } else {
        decimal(n as nat)
    }
}

/// `n.to_string()` for an unsigned number.
pub fn u64_to_string(n: u64) -> (r: String)
    ensures
        r@ == decimal(n as nat),
    decreases n,
{
    if n < 10 {
        let mut r = String::new();
        push_char(&mut r, ((48 + n) as u8) as char);
        assert(r@ =~= seq![digit(n as nat)]);
        r
    } else {
        let mut r = u64_to_string(n / 10);
        push_char(&mut r, ((48 + n % 10) as u8) as char);
        r
    }
}

/// `n.to_string()` for a signed number.
pub fn i64_to_string(n: i64) -> (r: String)
    ensures
        r@ == signed_decimal(n as int),
{
    if n < 0 {
        let m: u64 = if n == i64::MIN {
            9223372036854775808u64
        } else {
            (-n) as u64
        };
        let digits = u64_to_string(m);
        let mut r = String::new();
        push_char(&mut r, '-');
        r.append(digits.as_str());
        assert(r@ =~= seq!['-'] + decimal((-(n as int)) as nat));
        r
    } else {
        u64_to_string(n as u64)
    }
}

/// `pat` occurs in `s` starting at `i`.
pub open spec fn occurs_at(s: Seq<char>, pat: Seq<char>, i: int) -> bool {
    0 <= i && i + pat.len() <= s.len() && s.subrange(i, i + pat.len()) == pat
}

/// `pat` occurs somewhere in `s` (`str::contains`).
pub open spec fn contains_seq(s: Seq<char>, pat: Seq<char>) -> bool {
    exists|i: int| occurs_at(s, pat, i)
}

/// Whether `pat` occurs in `v` at `i`.
pub fn occurs_at_exec(v: &Vec<char>, pat: &Vec<char>, i: usize) -> (r: bool)
    ensures
        r == occurs_at(v@, pat@, i as int),
{
    if i > v.len() || pat.len() > v.len() - i {
        return false;
    }
    let mut k: usize = 0;
    while k < pat.len()
        invariant
            i + pat.len() <= v.len(),
            k <= pat.len(),
            forall|j: int| 0 <= j < k ==> v@[i + j] == pat@[j],
        decreases pat.len() - k,
    {
        if v[i + k] != pat[k] {
            assert(v@.subrange(i as int, i + pat.len())[k as int] != pat@[k as int]);
            return false;
        }
        k += 1;
    }
    assert(v@.subrange(i as int, i + pat.len()) =~= pat@);
    true
}

/// `str::contains`.
pub fn contains(s: &str, pat: &str) -> (r: bool)
    ensures
        r == contains_seq(s@, pat@),
{
    let v = chars_of(s);
    let p = chars_of(pat);
    let mut i: usize = 0;
    while i < v.len()
        invariant
            v@ == s@,
            p@ == pat@,
            i <= v.len(),
            forall|j: int| 0 <= j < i ==> !#[trigger] occurs_at(s@, pat@, j),
        decreases v.len() - i,
    {
        if occurs_at_exec(&v, &p, i) {
            return true;
        }
        i += 1;
    }
    if occurs_at_exec(&v, &p, i) {
        return true;
    }
    assert forall|j: int| !#[trigger] occurs_at(s@, pat@, j) by {
        if 0 <= j < i {
        } else if j > i {
            assert(j > v.len());
        }
    }
    false
}

/// Every non-overlapping occurrence of `pat` (scanning left to right)
/// replaced by `with` (`str::replace`, for a non-empty pattern).
pub open spec fn replace_seq(s: Seq<char>, pat: Seq<char>, with: Seq<char>) -> Seq<char>
    decreases s.len(),
{
    if pat.len() == 0 || s.len() == 0 {
        s
    } else if occurs_at(s, pat, 0) {
        with + replace_seq(s.subrange(pat.len() as int, s.len() as int), pat, with)
    } else {
        seq![s[0]] + replace_seq(s.drop_first(), pat, with)
    }
}

/// The first `l` chars of `r` are all other than `c`.
pub open spec fn free_of(r: Seq<char>, c: char, l: int) -> bool {
    l <= r.len() && forall|j: int| 0 <= j < l ==> #[trigger] r[j] != c
}

/// Up to the first `c` it puts in, replacing `pat` by the single char `c`
/// leaves the text as it was.
proof fn lemma_replace_prefix(s: Seq<char>, pat: Seq<char>, c: char, l: int)
    requires
        pat.len() > 0,
        0 <= l,
        free_of(replace_seq(s, pat, seq![c]), c, l),
    ensures
        l <= s.len(),
        s.subrange(0, l) == replace_seq(s, pat, seq![c]).subrange(0, l),
    decreases s.len(),
{
    let r = replace_seq(s, pat, seq![c]);
    if l == 0 {
        assert(s.subrange(0, 0) =~= r.subrange(0, 0));
    } else if s.len() == 0 {
        assert(r.len() == 0);
    } else if occurs_at(s, pat, 0) {
        assert(r[0] != c);
        assert(r[0] == c);
    } else {
        let rest = replace_seq(s.drop_first(), pat, seq![c]);
        assert(r == seq![s[0]] + rest);
        assert forall|j: int| 0 <= j < l - 1 implies #[trigger] rest[j] != c by {
            assert(r[j + 1] != c);
            assert(r[j + 1] == rest[j]);
        }
        assert(free_of(rest, c, l - 1));
        lemma_replace_prefix(s.drop_first(), pat, c, l - 1);
        assert(s.subrange(0, l) =~= r.subrange(0, l)) by {
            assert forall|j: int| 0 <= j < l implies s.subrange(0, l)[j] == r.subrange(0, l)[j] by {
                if j > 0 {
                    assert(s.drop_first().subrange(0, l - 1)[j - 1] == rest.subrange(0, l - 1)[j - 1]);
                }
            }
        }
    }
}

/// Replacing every `pat` by a char that `pat` does not contain leaves no
/// `pat` behind.
pub proof fn lemma_replace_leaves_none(s: Seq<char>, pat: Seq<char>, c: char)
    requires
        pat.len() > 0,
        !pat.contains(c),
    ensures
        !contains_seq(replace_seq(s, pat, seq![c]), pat),
    decreases s.len(),
{
    let r = replace_seq(s, pat, seq![c]);
    if s.len() == 0 {
        assert forall|i: int| !occurs_at(r, pat, i) by {}
    } else if occurs_at(s, pat, 0) {
        let rest = replace_seq(s.subrange(pat.len() as int, s.len() as int), pat, seq![c]);
        lemma_replace_leaves_none(s.subrange(pat.len() as int, s.len() as int), pat, c);
        assert(r == seq![c] + rest);
        assert forall|i: int| !occurs_at(r, pat, i) by {
            if occurs_at(r, pat, i) {
                if i == 0 {
                    assert(r.subrange(0, pat.len() as int)[0] == pat[0]);
                    assert(pat[0] == c);
                } else {
                    assert(rest.subrange(i - 1, i - 1 + pat.len()) =~= r.subrange(i, i + pat.len()));
                    assert(occurs_at(rest, pat, i - 1));
                }
            }
        }
    } else {
        let rest = replace_seq(s.drop_first(), pat, seq![c]);
        lemma_replace_leaves_none(s.drop_first(), pat, c);
        assert(r == seq![s[0]] + rest);
        assert forall|i: int| !occurs_at(r, pat, i) by {
            if occurs_at(r, pat, i) {
                if i == 0 {
                    assert forall|j: int| 0 <= j < pat.len() implies #[trigger] r[j] != c by {
                        assert(r.subrange(0, pat.len() as int)[j] == pat[j]);
                    }
                    assert(free_of(r, c, pat.len() as int));
                    lemma_replace_prefix(s, pat, c, pat.len() as int);
                    assert(s.subrange(0, pat.len() as int) == pat);
                    assert(occurs_at(s, pat, 0));
                } else {
                    assert(rest.subrange(i - 1, i - 1 + pat.len()) =~= r.subrange(i, i + pat.len()));
                    assert(occurs_at(rest, pat, i - 1));
                }
            }
        }
    }
}

/// A piece of a text holds no pattern the text does not hold.
pub proof fn lemma_subrange_no_occurrence(s: Seq<char>, pat: Seq<char>, a: int, b: int)
    requires
        0 <= a <= b <= s.len(),
        !contains_seq(s, pat),
    ensures
        !contains_seq(s.subrange(a, b), pat),
{
    assert forall|i: int| !occurs_at(s.subrange(a, b), pat, i) by {
        if occurs_at(s.subrange(a, b), pat, i) {
            assert(s.subrange(a + i, a + i + pat.len()) =~= s.subrange(a, b).subrange(i, i + pat.len()));
            assert(occurs_at(s, pat, a + i));
        }
    }
}

/// `str::replace` for a non-empty pattern.
pub fn replace_all(s: &str, pat: &str, with: &str) -> (r: String)
    requires
        pat@.len() > 0,
    ensures
        r@ == replace_seq(s@, pat@, with@),
{
    let v = chars_of(s);
    let p = chars_of(pat);
    let mut out = String::new();
    let mut i: usize = 0;
    assert(s@.subrange(0, s@.len() as int) =~= s@);
    assert(out@ + replace_seq(s@, pat@, with@) =~= replace_seq(s@, pat@, with@));
    while i < v.len()
        invariant
            v@ == s@,
            p@ == pat@,
            p@.len() > 0,
            i <= v.len(),
            replace_seq(s@, pat@, with@) == out@ + replace_seq(
                s@.subrange(i as int, s@.len() as int),
                pat@,
                with@,
            ),
        decreases v.len() - i,
    {
        let ghost rest = s@.subrange(i as int, s@.len() as int);
        if occurs_at_exec(&v, &p, i) {
            proof {
                assert(rest.subrange(0, pat@.len() as int) =~= s@.subrange(
                    i as int,
                    i + pat@.len(),
                ));
                assert(rest.subrange(pat@.len() as int, rest.len() as int) =~= s@.subrange(
                    i + pat@.len(),
                    s@.len() as int,
                ));
            }
            out.append(with);
            i += p.len();
        } else {
            proof {
                assert(!occurs_at(rest, pat@, 0)) by {
                    if occurs_at(rest, pat@, 0) {
                        assert(rest.subrange(0, pat@.len() as int) =~= s@.subrange(
                            i as int,
                            i + pat@.len(),
                        ));
                    }
                }
                assert(rest.drop_first() =~= s@.subrange(i + 1, s@.len() as int));
            }
            push_char(&mut out, v[i]);
            i += 1;
        }
    }
    assert(s@.subrange(i as int, s@.len() as int) =~= Seq::<char>::empty());
    assert(out@ + Seq::<char>::empty() =~= out@);
    out
}

/// `r` is an error carrying exactly the message `m`.
pub open spec fn err_msg<T>(r: Result<T, String>, m: Seq<char>) -> bool {
    match r {
        Err(e) => e@ == m,
        Ok(_) => false,
    }
}

/// Nothing but whitespace (or nothing at all).
pub open spec fn blank(s: Seq<char>) -> bool {
    forall|i: int| 0 <= i < s.len() ==> is_ws(#[trigger] s[i])
}

/// The text of an optional `&str`.
pub open spec fn opt_str(v: Option<&str>) -> Option<Seq<char>> {
    match v {
        Some(s) => Some(s@),
        None => None,
    }
}

/// Whether `s` is empty or all whitespace.
pub fn is_blank(s: &str) -> (r: bool)
    ensures
        r <==> blank(s@),
        r <==> trim_seq(s@).len() == 0,
{
    let v = chars_of(s);
    let (a, b) = trim_bounds(&v);
    proof {
        lemma_lead_bounds(v@, 0);
        lemma_trail_bounds(v@, a as int, v@.len() as int);
        if a < b {
            assert(!is_ws(v@[a as int]));
        }
    }
    a == b
}

} // verus!
