//! Character-level text utilities with their mathematical meaning.
//!
//! Strings are modelled by their character sequences (`s@`).  Every
//! operation here is stated over `Seq<char>` so that the site adapters and
//! the web layer can speak precisely about the strings they build.
use vstd::prelude::*;

verus! {

// ── Specifications ──────────────────────────────────────────────────────────

/// Unicode `White_Space` characters (the set `char::is_whitespace` accepts).
pub open spec fn is_ws(c: char) -> bool {
    ||| c == '\t'
    ||| c == '\n'
    ||| c == '\u{0B}'
    ||| c == '\u{0C}'
    ||| c == '\r'
    ||| c == ' '
    ||| c == '\u{85}'
    ||| c == '\u{A0}'
    ||| c == '\u{1680}'
    ||| ('\u{2000}' <= c && c <= '\u{200A}')
    ||| c == '\u{2028}'
    ||| c == '\u{2029}'
    ||| c == '\u{202F}'
    ||| c == '\u{205F}'
    ||| c == '\u{3000}'
}

/// The sequence with leading whitespace removed.
pub open spec fn trim_start(s: Seq<char>) -> Seq<char>
    decreases s.len(),
{
    if s.len() > 0 && is_ws(s[0]) {
        trim_start(s.drop_first())
    } else {
        s
    }
}

/// The sequence with trailing whitespace removed.
pub open spec fn trim_end(s: Seq<char>) -> Seq<char>
    decreases s.len(),
{
    if s.len() > 0 && is_ws(s.last()) {
        trim_end(s.drop_last())
    } else {
        s
    }
}

/// The sequence with whitespace removed at both ends (`str::trim`).
pub open spec fn trim(s: Seq<char>) -> Seq<char> {
    trim_end(trim_start(s))
}

/// The sequence with trailing occurrences of `c` removed (`trim_end_matches`).
pub open spec fn trim_end_char(s: Seq<char>, c: char) -> Seq<char>
    decreases s.len(),
{
    if s.len() > 0 && s.last() == c {
        trim_end_char(s.drop_last(), c)
    } else {
        s
    }
}

/// ASCII lowercase mapping of one character.
pub open spec fn ascii_lower(c: char) -> char {
    if 'A' <= c && c <= 'Z' {
        ((c as u32) + 32) as char
    } else {
        c
    }
}

/// ASCII lowercase mapping of a sequence (`to_ascii_lowercase`).
pub open spec fn lower(s: Seq<char>) -> Seq<char> {
    s.map_values(|c: char| ascii_lower(c))
}

/// `p` is a prefix of `s`.
pub open spec fn has_prefix(s: Seq<char>, p: Seq<char>) -> bool {
    p.len() <= s.len() && s.subrange(0, p.len() as int) == p
}

/// `p` is a suffix of `s`.
pub open spec fn has_suffix(s: Seq<char>, p: Seq<char>) -> bool {
    p.len() <= s.len() && s.subrange(s.len() - p.len(), s.len() as int) == p
}

/// `p` occurs in `s` starting at position `i`.
pub open spec fn occurs_at(s: Seq<char>, p: Seq<char>, i: int) -> bool {
    0 <= i && i + p.len() <= s.len() && s.subrange(i, i + p.len()) == p
}

/// `p` occurs somewhere in `s` (`str::contains`).
pub open spec fn has_infix(s: Seq<char>, p: Seq<char>) -> bool {
    exists|i: int| occurs_at(s, p, i)
}

/// ASCII case-insensitive equality (`eq_ignore_ascii_case`).
pub open spec fn eq_ignore_case(a: Seq<char>, b: Seq<char>) -> bool {
    lower(a) == lower(b)
}

// ── Basic conversions ───────────────────────────────────────────────────────

/// Appends one character to a string (`String::push`).
#[verifier::external_body]
pub(crate) fn push_char(s: &mut String, c: char)
    ensures
        final(s)@ == old(s)@.push(c),
{
    s.push(c);
}

/// Collects the characters of `s` into a vector.
pub fn chars_of(s: &str) -> (v: Vec<char>)
    ensures
        v@ == s@,
{
    let mut v: Vec<char> = Vec::new();
    for c in it: s.chars()
        invariant
            v@ == it.seq().take(it.index() as int),
    {
        v.push(c);
    }
    v
}

/// Builds a string from a slice of characters.
pub fn string_of(v: &[char]) -> (s: String)
    ensures
        s@ == v@,
{
    let mut s = String::new();
    let mut i: usize = 0;
    while i < v.len()
        invariant
            i <= v.len(),
            s@ == v@.take(i as int),
        decreases v.len() - i,
    {
        push_char(&mut s, v[i]);
        assert(v@.take(i as int).push(v@[i as int]) =~= v@.take(i + 1));
        i += 1;
    }
    assert(v@.take(v.len() as int) =~= v@);
    s
}

/// Builds a string from the characters of `v` in `[from, to)`.
pub fn string_of_range(v: &[char], from: usize, to: usize) -> (s: String)
    requires
        from <= to <= v.len(),
    ensures
        s@ == v@.subrange(from as int, to as int),
{
    let mut s = String::new();
    let mut i: usize = from;
    while i < to
        invariant
            from <= i <= to <= v.len(),
            s@ == v@.subrange(from as int, i as int),
        decreases to - i,
    {
        push_char(&mut s, v[i]);
        assert(v@.subrange(from as int, i as int).push(v@[i as int]) =~= v@.subrange(
            from as int,
            i + 1,
        ));
        i += 1;
    }
    s
}

/// Copies a string slice into an owned string.
pub fn owned(s: &str) -> (r: String)
    ensures
        r@ == s@,
{
    let v = chars_of(s);
    string_of(v.as_slice())
}

/// Appends the characters of `t` to `s`.
pub fn append_str(s: &mut String, t: &str)
    ensures
        final(s)@ == old(s)@ + t@,
{
    let v = chars_of(t);
    let ghost s0 = s@;
    let mut i: usize = 0;
    while i < v.len()
        invariant
            i <= v.len(),
            v@ == t@,
            s@ == s0 + v@.take(i as int),
        decreases v.len() - i,
    {
        push_char(s, v[i]);
        assert(s0 + v@.take(i as int).push(v@[i as int]) =~= s0 + v@.take(i + 1));
        i += 1;
    }
    assert(v@.take(v.len() as int) =~= v@);
}

// ── Whitespace ──────────────────────────────────────────────────────────────

/// Whether `c` is a Unicode whitespace character (`char::is_whitespace`).
pub fn is_whitespace(c: char) -> (b: bool)
    ensures
        b == is_ws(c),
{
    c == '\t' || c == '\n' || c == '\u{0B}' || c == '\u{0C}' || c == '\r' || c == ' ' || c
        == '\u{85}' || c == '\u{A0}' || c == '\u{1680}' || ('\u{2000}' <= c && c <= '\u{200A}')
        || c == '\u{2028}' || c == '\u{2029}' || c == '\u{202F}' || c == '\u{205F}' || c
        == '\u{3000}'
}

proof fn lemma_trim_start_skip(s: Seq<char>, i: int)
    requires
        0 <= i <= s.len(),
        forall|k: int| 0 <= k < i ==> is_ws(#[trigger] s[k]),
    ensures
        trim_start(s) == trim_start(s.skip(i)),
    decreases i,
{
    if i > 0 {
        lemma_trim_start_skip(s, i - 1);
        assert(s.skip(i - 1).drop_first() =~= s.skip(i));
        assert(s.skip(i - 1)[0] == s[i - 1]);
    } else {
        assert(s.skip(0) =~= s);
    }
}

proof fn lemma_trim_end_take(s: Seq<char>, j: int)
    requires
        0 <= j <= s.len(),
        forall|k: int| j <= k < s.len() ==> is_ws(#[trigger] s[k]),
    ensures
        trim_end(s) == trim_end(s.take(j)),
    decreases s.len() - j,
{
    if j < s.len() {
        lemma_trim_end_take(s, j + 1);
        assert(s.take(j + 1).drop_last() =~= s.take(j));
        assert(s.take(j + 1).last() == s[j]);
    } else {
        assert(s.take(j) =~= s);
    }
}

/// Position bounds `(a, b)` of the trimmed part of `v`.
pub fn trim_bounds(v: &[char]) -> (r: (usize, usize))
    ensures
        r.0 <= r.1 <= v.len(),
        v@.subrange(r.0 as int, r.1 as int) == trim(v@),
{
    let mut a: usize = 0;
    while a < v.len() && is_whitespace(v[a])
        invariant
            a <= v.len(),
            forall|k: int| 0 <= k < a ==> is_ws(#[trigger] v@[k]),
        decreases v.len() - a,
    {
        a += 1;
    }
    let ghost t = v@.skip(a as int);
    proof {
        lemma_trim_start_skip(v@, a as int);
        if t.len() > 0 {
            assert(t[0] == v@[a as int]);
        }
    }
    assert(trim_start(v@) == t);
    let mut b: usize = v.len();
    while b > a && is_whitespace(v[b - 1])
        invariant
            a <= b <= v.len(),
            t == v@.skip(a as int),
            forall|k: int| b - a <= k < t.len() ==> is_ws(#[trigger] t[k]),
        decreases b,
    {
        assert(t[b - 1 - a] == v@[b - 1]);
        b -= 1;
    }
    proof {
        lemma_trim_end_take(t, (b - a) as int);
        let u = t.take((b - a) as int);
        if u.len() > 0 {
            assert(u.last() == v@[b - 1]);
        }
        assert(u =~= v@.subrange(a as int, b as int));
    }
    (a, b)
}

/// `str::trim`, returning an owned string.
pub fn trim_str(s: &str) -> (r: String)
    ensures
        r@ == trim(s@),
{
    let v = chars_of(s);
    let (a, b) = trim_bounds(v.as_slice());
    string_of_range(v.as_slice(), a, b)
}

/// `str::trim_end_matches(c)` for a single character, returning an owned string.
pub fn trim_end_matches_char(s: &str, c: char) -> (r: String)
    ensures
        r@ == trim_end_char(s@, c),
{
    let v = chars_of(s);
    let mut b: usize = v.len();
    assert(s@.take(b as int) =~= s@);
    while b > 0 && v[b - 1] == c
        invariant
            b <= v.len(),
            v@ == s@,
            trim_end_char(s@, c) == trim_end_char(s@.take(b as int), c),
        decreases b,
    {
        assert(s@.take(b as int).drop_last() =~= s@.take(b - 1));
        b -= 1;
    }
    assert(s@.take(0) =~= Seq::<char>::empty());
    proof {
        if b > 0 {
            assert(s@.take(b as int).last() == v@[b - 1]);
        }
    }
    string_of_range(v.as_slice(), 0, b)
}

// ── Case and affixes ────────────────────────────────────────────────────────

/// ASCII lowercase of one character.
pub fn to_ascii_lower(c: char) -> (r: char)
    ensures
        r == ascii_lower(c),
{
    if 'A' <= c && c <= 'Z' {
        let code: u32 = c as u32;
        assert(65 <= code <= 90);
        let lowered: u32 = code + 32;
        assert(97 <= lowered <= 122);
        lowered as u8 as char
    } else {
        c
    }
}

/// ASCII lowercase of a character vector.
pub fn lower_chars(v: &[char]) -> (r: Vec<char>)
    ensures
        r@ == lower(v@),
{
    let mut r: Vec<char> = Vec::new();
    let mut i: usize = 0;
    while i < v.len()
        invariant
            i <= v.len(),
            r@ == lower(v@.take(i as int)),
        decreases v.len() - i,
    {
        r.push(to_ascii_lower(v[i]));
        assert(lower(v@.take(i + 1)) =~= lower(v@.take(i as int)).push(ascii_lower(v@[i as int])));
        i += 1;
    }
    assert(v@.take(v.len() as int) =~= v@);
    r
}

/// Whether `v[from..]` starts with `p`.
pub fn occurs_at_exec(v: &[char], p: &[char], from: usize) -> (b: bool)
    requires
        from <= v.len(),
    ensures
        b == occurs_at(v@, p@, from as int),
{
    if p.len() > v.len() - from {
        return false;
    }
    let mut i: usize = 0;
    while i < p.len()
        invariant
            i <= p.len(),
            from + p.len() <= v.len(),
            forall|k: int| 0 <= k < i ==> v@[from + k] == p@[k],
        decreases p.len() - i,
    {
        if v[from + i] != p[i] {
            assert(v@.subrange(from as int, from + p.len())[i as int] != p@[i as int]);
            return false;
        }
        i += 1;
    }
    assert(v@.subrange(from as int, from + p.len()) =~= p@);
    true
}

/// `starts_with` over character vectors.
pub fn starts_with_chars(v: &[char], p: &[char]) -> (b: bool)
    ensures
        b == has_prefix(v@, p@),
{
    occurs_at_exec(v, p, 0)
}

/// `ends_with` over character vectors.
pub fn ends_with_chars(v: &[char], p: &[char]) -> (b: bool)
    ensures
        b == has_suffix(v@, p@),
{
    if p.len() > v.len() {
        return false;
    }
    occurs_at_exec(v, p, v.len() - p.len())
}

/// `contains` over character vectors.
pub fn contains_chars(v: &[char], p: &[char]) -> (b: bool)
    ensures
        b == has_infix(v@, p@),
{
    if p.len() > v.len() {
        assert forall|i: int| !occurs_at(v@, p@, i) by {}
        return false;
    }
    if p.len() == 0 {
        assert(occurs_at(v@, p@, 0)) by {
            assert(v@.subrange(0, 0) =~= p@);
        }
        return true;
    }
    let mut i: usize = 0;
    while i <= v.len() - p.len()
        invariant
            1 <= p.len() <= v.len(),
            i <= v.len() - p.len() + 1,
            forall|k: int| 0 <= k < i ==> !occurs_at(v@, p@, k),
        decreases v.len() - p.len() + 1 - i,
    {
        if occurs_at_exec(v, p, i) {
            return true;
        }
        i += 1;
    }
    assert forall|k: int| !occurs_at(v@, p@, k) by {
        if 0 <= k && k + p.len() <= v.len() {
            assert(k < i);
        }
    }
    false
}

/// Character-wise equality of two character vectors.
pub fn chars_eq(a: &[char], b: &[char]) -> (r: bool)
    ensures
        r == (a@ == b@),
{
    if a.len() != b.len() {
        return false;
    }
    let r = occurs_at_exec(a, b, 0);
    assert(r ==> a@.subrange(0, a.len() as int) =~= a@);
    assert(a@ == b@ ==> a@.subrange(0, a.len() as int) =~= a@);
    r
}

/// Character-wise equality of two string slices.
pub fn str_eq(a: &str, b: &str) -> (r: bool)
    ensures
        r == (a@ == b@),
{
    let x = chars_of(a);
    let y = chars_of(b);
    chars_eq(x.as_slice(), y.as_slice())
}

/// ASCII case-insensitive equality (`eq_ignore_ascii_case`).
pub fn eq_ignore_ascii_case(a: &[char], b: &[char]) -> (r: bool)
    ensures
        r == eq_ignore_case(a@, b@),
{
    let x = lower_chars(a);
    let y = lower_chars(b);
    chars_eq(x.as_slice(), y.as_slice())
}


// ── Joining and splitting ───────────────────────────────────────────────────

/// Concatenation of `parts` with `sep` between consecutive parts (`join`).
pub open spec fn join(parts: Seq<Seq<char>>, sep: Seq<char>) -> Seq<char>
    decreases parts.len(),
{
    if parts.len() == 0 {
        Seq::empty()
    } else if parts.len() == 1 {
        parts[0]
    } else {
        join(parts.drop_last(), sep) + sep + parts.last()
    }
}

/// Views of a vector of strings.
pub open spec fn views(v: Seq<String>) -> Seq<Seq<char>> {
    v.map_values(|s: String| s@)
}

/// Joins strings with a separator (`[String]::join`).
pub fn join_strings(parts: &Vec<String>, sep: &str) -> (r: String)
    ensures
        r@ == join(views(parts@), sep@),
{
    let mut r = String::new();
    let mut i: usize = 0;
    while i < parts.len()
        invariant
            i <= parts.len(),
            r@ == join(views(parts@.take(i as int)), sep@),
        decreases parts.len() - i,
    {
        let ghost prev = views(parts@.take(i as int));
        let ghost next = views(parts@.take(i + 1));
        assert(next.drop_last() =~= prev);
        assert(next.last() == parts@[i as int]@);
        if i > 0 {
            append_str(&mut r, sep);
        }
        append_str(&mut r, parts[i].as_str());
        proof {
            if i == 0 {
                assert(r@ =~= next[0]);
            }
        }
        i += 1;
    }
    assert(parts@.take(parts.len() as int) =~= parts@);
    r
}

/// Pieces of `s` between occurrences of `c` (`str::split(c)`).
pub open spec fn split_char(s: Seq<char>, c: char) -> Seq<Seq<char>>
    decreases s.len(),
{
    if s.len() == 0 {
        seq![Seq::<char>::empty()]
    } else {
        let prev = split_char(s.drop_last(), c);
        if s.last() == c {
            prev.push(Seq::empty())
        } else {
            prev.update(prev.len() - 1, prev.last().push(s.last()))
        }
    }
}

proof fn lemma_split_char_nonempty(s: Seq<char>, c: char)
    ensures
        split_char(s, c).len() >= 1,
    decreases s.len(),
{
    if s.len() > 0 {
        lemma_split_char_nonempty(s.drop_last(), c);
    }
}

/// Splits `s` at every occurrence of `c` (`str::split(c)`).
pub fn split_on_char(s: &str, c: char) -> (r: Vec<String>)
    ensures
        views(r@) == split_char(s@, c),
{
    let v = chars_of(s);
    let mut out: Vec<String> = Vec::new();
    let mut start: usize = 0;
    let mut i: usize = 0;
    assert(s@.take(0) =~= Seq::<char>::empty());
    assert(s@.subrange(0, 0) =~= Seq::<char>::empty());
    assert(views(out@).push(Seq::<char>::empty()) =~= seq![Seq::<char>::empty()]);
    while i < v.len()
        invariant
            start <= i <= v.len(),
            v@ == s@,
            split_char(s@.take(i as int), c) == views(out@).push(s@.subrange(start as int, i as int)),
        decreases v.len() - i,
    {
        let ghost t = s@.take(i + 1);
        assert(t.drop_last() =~= s@.take(i as int));
        assert(t.last() == v@[i as int]);
        if v[i] == c {
            let piece = string_of_range(v.as_slice(), start, i);
            out.push(piece);
            assert(views(out@) =~= split_char(s@.take(i as int), c));
            i += 1;
            start = i;
            assert(s@.subrange(start as int, i as int) =~= Seq::<char>::empty());
        } else {
            assert(s@.subrange(start as int, i + 1) =~= s@.subrange(start as int, i as int).push(v@[i as int]));
            i += 1;
        }
    }
    let piece = string_of_range(v.as_slice(), start, v.len());
    out.push(piece);
    assert(s@.take(v.len() as int) =~= s@);
    assert(views(out@) =~= split_char(s@, c));
    out
}

/// Maximal runs of non-whitespace characters (`str::split_whitespace`).
pub open spec fn ws_tokens(s: Seq<char>) -> Seq<Seq<char>>
    decreases s.len(),
{
    if s.len() == 0 {
        Seq::empty()
    } else {
        let prev = ws_tokens(s.drop_last());
        if is_ws(s.last()) {
            prev
        } else if s.len() >= 2 && !is_ws(s[s.len() - 2]) {
            prev.update(prev.len() - 1, prev.last().push(s.last()))
        } else {
            prev.push(seq![s.last()])
        }
    }
}

proof fn lemma_ws_tokens_nonempty_when_open(s: Seq<char>)
    requires
        s.len() >= 1,
        !is_ws(s.last()),
    ensures
        ws_tokens(s).len() >= 1,
    decreases s.len(),
{
    if s.len() >= 2 && !is_ws(s[s.len() - 2]) {
        assert(s.drop_last().last() == s[s.len() - 2]);
        lemma_ws_tokens_nonempty_when_open(s.drop_last());
    }
}

/// Splits `s` into whitespace-separated tokens (`str::split_whitespace`).
pub fn split_whitespace(s: &str) -> (r: Vec<String>)
    ensures
        views(r@) == ws_tokens(s@),
{
    let v = chars_of(s);
    let mut out: Vec<String> = Vec::new();
    let mut start: usize = 0;
    let mut in_token = false;
    let mut i: usize = 0;
    while i < v.len()
        invariant
            i <= v.len(),
            v@ == s@,
            in_token ==> start < i,
            in_token <==> (i >= 1 && !is_ws(s@[i - 1])),
            in_token ==> ws_tokens(s@.take(i as int)) == views(out@).push(s@.subrange(start as int, i as int)),
            !in_token ==> ws_tokens(s@.take(i as int)) == views(out@),
        decreases v.len() - i,
    {
        let ghost t = s@.take(i + 1);
        assert(t.drop_last() =~= s@.take(i as int));
        assert(t.last() == v@[i as int]);
        if i >= 1 {
            assert(t[t.len() - 2] == s@[i - 1]);
        }
        if is_whitespace(v[i]) {
            if in_token {
                let piece = string_of_range(v.as_slice(), start, i);
                out.push(piece);
                assert(views(out@) =~= ws_tokens(s@.take(i as int)));
            }
            in_token = false;
        } else {
            if in_token {
                assert(s@.subrange(start as int, i + 1) =~= s@.subrange(start as int, i as int).push(v@[i as int]));
            } else {
                start = i;
                assert(s@.subrange(start as int, i + 1) =~= seq![v@[i as int]]);
            }
            in_token = true;
        }
        i += 1;
    }
    if in_token {
        let piece = string_of_range(v.as_slice(), start, v.len());
        out.push(piece);
    }
    assert(s@.take(v.len() as int) =~= s@);
    assert(views(out@) =~= ws_tokens(s@));
    out
}

// ── Decimal numbers ─────────────────────────────────────────────────────────

/// The ASCII digit for `d` (`d < 10`).
pub open spec fn digit_char(d: nat) -> char {
    ((48 + d) as u32) as char
}

/// Decimal representation of `n` without leading zeros (`u64::to_string`).
pub open spec fn decimal(n: nat) -> Seq<char>
    decreases n,
{
    if n < 10 {
        seq![digit_char(n)]
    } else {
        decimal(n / 10).push(digit_char(n % 10))
    }
}

fn digit(d: u64) -> (c: char)
    requires
        d < 10,
    ensures
        c == digit_char(d as nat),
{
    let code: u8 = 48 + d as u8;
    code as char
}

fn decimal_chars(n: u64) -> (v: Vec<char>)
    ensures
        v@ == decimal(n as nat),
    decreases n,
{
    if n < 10 {
        let mut v: Vec<char> = Vec::new();
        v.push(digit(n));
        assert(v@ =~= seq![digit_char(n as nat)]);
        v
    } else {
        let mut v = decimal_chars(n / 10);
        v.push(digit(n % 10));
        v
    }
}

/// Decimal string of an unsigned integer (`u64::to_string`).
pub fn u64_to_string(n: u64) -> (s: String)
    ensures
        s@ == decimal(n as nat),
{
    let v = decimal_chars(n);
    string_of(v.as_slice())
}

/// Appends the decimal representation of `n` to `s`.
pub fn append_u64(s: &mut String, n: u64)
    ensures
        final(s)@ == old(s)@ + decimal(n as nat),
{
    let d = u64_to_string(n);
    append_str(s, d.as_str());
}

/// Whether `c` is an ASCII decimal digit.
pub open spec fn is_digit(c: char) -> bool {
    '0' <= c && c <= '9'
}

/// Numeric value of a digit character.
pub open spec fn digit_value(c: char) -> nat {
    ((c as u32) - 48) as nat
}

/// Value of a sequence of decimal digits.
pub open spec fn digits_value(s: Seq<char>) -> nat
    decreases s.len(),
{
    if s.len() == 0 {
        0
    } else {
        digits_value(s.drop_last()) * 10 + digit_value(s.last())
    }
}

/// Digits of an unsigned decimal literal: an optional `+` is dropped.
pub open spec fn unsigned_digits(s: Seq<char>) -> Seq<char> {
    if s.len() > 0 && s[0] == '+' {
        s.drop_first()
    } else {
        s
    }
}

/// Value accepted by `str::parse` for an unsigned integer type of maximum `max`:
/// an optional `+` followed by one or more ASCII digits, not exceeding `max`.
pub open spec fn parse_unsigned(s: Seq<char>, max: nat) -> Option<nat> {
    let d = unsigned_digits(s);
    if d.len() == 0 || !(forall|i: int| 0 <= i < d.len() ==> is_digit(#[trigger] d[i])) {
        None
    } else if digits_value(d) > max {
        None
    } else {
        Some(digits_value(d))
    }
}

proof fn lemma_digits_value_monotone(s: Seq<char>, k: int)
    requires
        0 <= k <= s.len(),
        forall|i: int| 0 <= i < s.len() ==> is_digit(#[trigger] s[i]),
    ensures
        digits_value(s.take(k)) <= digits_value(s),
    decreases s.len() - k,
{
    if k < s.len() {
        lemma_digits_value_monotone(s, k + 1);
        assert(s.take(k + 1).drop_last() =~= s.take(k));
    } else {
        assert(s.take(k) =~= s);
    }
}

/// `str::parse::<u64>()`, as an option.
pub fn parse_u64(s: &str) -> (r: Option<u64>)
    ensures
        r matches Some(x) ==> parse_unsigned(s@, u64::MAX as nat) == Some(x as nat),
        r is None ==> parse_unsigned(s@, u64::MAX as nat) is None,
{
    let v = chars_of(s);
    let start: usize = if v.len() > 0 && v[0] == '+' { 1 } else { 0 };
    let ghost d = unsigned_digits(s@);
    assert(d =~= s@.skip(start as int));
    if start == v.len() {
        assert(d.len() == 0);
        return None;
    }
    let mut acc: u64 = 0;
    assert(d.take(0) =~= Seq::<char>::empty());
    let mut i: usize = start;
    while i < v.len()
        invariant
            start <= i <= v.len(),
            v@ == s@,
            d == s@.skip(start as int),
            d == unsigned_digits(s@),
            forall|k: int| 0 <= k < i - start ==> is_digit(#[trigger] d[k]),
            acc as nat == digits_value(d.take(i - start)),
        decreases v.len() - i,
    {
        let c = v[i];
        assert(d[i - start] == c);
        if !('0' <= c && c <= '9') {
            assert(!is_digit(d[i - start]));
            return None;
        }
        let dv: u64 = ((c as u32) - 48) as u64;
        assert(d.take(i - start + 1).drop_last() =~= d.take(i - start));
        assert(d.take(i - start + 1).last() == c);
        if acc > (u64::MAX - dv) / 10 {
            proof {
                assert(acc * 10 + dv > u64::MAX) by (nonlinear_arith)
                    requires acc > (u64::MAX - dv) / 10, dv <= 9;
                let rest_digits = forall|k: int| 0 <= k < d.len() ==> is_digit(#[trigger] d[k]);
                if rest_digits {
                    lemma_digits_value_monotone(d, i - start + 1);
                }
            }
            return None;
        }
        acc = acc * 10 + dv;
        i += 1;
    }
    assert(d.take(i - start) =~= d);
    Some(acc)
}

/// `str::parse::<u32>()`, as an option.
pub fn parse_u32(s: &str) -> (r: Option<u32>)
    ensures
        r matches Some(x) ==> parse_unsigned(s@, u32::MAX as nat) == Some(x as nat),
        r is None ==> parse_unsigned(s@, u32::MAX as nat) is None,
{
    match parse_u64(s) {
        Some(x) => {
            if x <= u32::MAX as u64 {
                Some(x as u32)
            } else {
                None
            }
        },
        None => {
            proof {
                let d = unsigned_digits(s@);
                if d.len() > 0 && (forall|i: int| 0 <= i < d.len() ==> is_digit(#[trigger] d[i])) {
                    assert(digits_value(d) > u64::MAX);
                }
            }
            None
        },
    }
}

// ── Ordering ────────────────────────────────────────────────────────────────

/// Lexicographic order of character sequences by code point (`str` ordering).
pub open spec fn seq_lt(a: Seq<char>, b: Seq<char>) -> bool
    decreases a.len(),
{
    if a.len() == 0 {
        b.len() > 0
    } else if b.len() == 0 {
        false
    } else if a[0] != b[0] {
        a[0] < b[0]
    } else {
        seq_lt(a.drop_first(), b.drop_first())
    }
}

proof fn lemma_seq_lt_skip(a: Seq<char>, b: Seq<char>, i: int)
    requires
        0 <= i <= a.len(),
        i <= b.len(),
        forall|k: int| 0 <= k < i ==> a[k] == b[k],
    ensures
        seq_lt(a, b) == seq_lt(a.skip(i), b.skip(i)),
    decreases i,
{
    if i > 0 {
        lemma_seq_lt_skip(a, b, i - 1);
        assert(a.skip(i - 1).drop_first() =~= a.skip(i));
        assert(b.skip(i - 1).drop_first() =~= b.skip(i));
        assert(a.skip(i - 1)[0] == a[i - 1]);
        assert(b.skip(i - 1)[0] == b[i - 1]);
    } else {
        assert(a.skip(0) =~= a);
        assert(b.skip(0) =~= b);
    }
}

/// Strict lexicographic comparison of two strings.
pub fn str_lt(a: &str, b: &str) -> (r: bool)
    ensures
        r == seq_lt(a@, b@),
{
    let x = chars_of(a);
    let y = chars_of(b);
    let mut i: usize = 0;
    while i < x.len() && i < y.len() && x[i] == y[i]
        invariant
            i <= x.len(),
            i <= y.len(),
            x@ == a@,
            y@ == b@,
            forall|k: int| 0 <= k < i ==> a@[k] == b@[k],
        decreases x.len() - i,
    {
        i += 1;
    }
    proof {
        lemma_seq_lt_skip(a@, b@, i as int);
        if i < x.len() {
            assert(a@.skip(i as int)[0] == x@[i as int]);
        }
        if i < y.len() {
            assert(b@.skip(i as int)[0] == y@[i as int]);
        }
    }
    if i == x.len() {
        i < y.len()
    } else if i == y.len() {
        false
    } else {
        x[i] < y[i]
    }
}

} // verus!
