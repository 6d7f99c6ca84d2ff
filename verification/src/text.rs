//! Character-level helpers: decimal rendering, case folding, JSON string
//! literals, whitespace trimming, path joining and small queries over
//! character sequences.

use vstd::prelude::*;

verus! {

// ---------------------------------------------------------------------
// Decimal rendering
// ---------------------------------------------------------------------

/// The character for a decimal digit.
pub open spec fn digit_char(d: nat) -> char {
    ((48 + d) as u8) as char
}

/// Decimal rendering of a natural number, most significant digit first,
/// without leading zeros (zero itself renders as `0`).
pub open spec fn decimal(n: nat) -> Seq<char>
    decreases n,
{
    if n < 10 {
        seq![digit_char(n)]
    } else {
        decimal(n / 10).push(digit_char(n % 10))
    }
}

proof fn lemma_digit_char(d: nat)
    requires
        d < 10,
    ensures
        digit_char(d) as u32 == 48 + d,
{
}

pub proof fn lemma_decimal_len(n: nat)
    ensures
        decimal(n).len() >= 1,
        n >= 10 ==> decimal(n).len() == decimal(n / 10).len() + 1,
    decreases n,
{
}

/// Different numbers render differently.
pub proof fn lemma_decimal_injective(a: nat, b: nat)
    requires
        decimal(a) == decimal(b),
    ensures
        a == b,
    decreases a + b,
{
    let da = decimal(a);
    if a < 10 && b < 10 {
        assert(da[0] == decimal(b)[0]);
        lemma_digit_char(a);
        lemma_digit_char(b);
    } else if a < 10 {
        lemma_decimal_len(b / 10);
        assert(decimal(b).len() >= 2);
    } else if b < 10 {
        lemma_decimal_len(a / 10);
        assert(decimal(a).len() >= 2);
    } else {
        assert(decimal(a).drop_last() =~= decimal(a / 10));
        assert(decimal(b).drop_last() =~= decimal(b / 10));
        lemma_decimal_injective(a / 10, b / 10);
        assert(da.last() == decimal(b).last());
        lemma_digit_char(a % 10);
        lemma_digit_char(b % 10);
    }
}

/// Appends one character to a string (`String::push`).
#[verifier::external_body]
pub(crate) fn push_char(s: &mut String, c: char)
    ensures
        final(s)@ == old(s)@.push(c),
{
    s.push(c);
}

/// Appends a string slice to a string.
pub fn push_str(out: &mut String, s: &str)
    ensures
        final(out)@ == old(out)@ + s@,
{
    out.append(s);
}

/// Appends the decimal rendering of `n`.
pub fn push_decimal(out: &mut String, n: u64)
    ensures
        final(out)@ == old(out)@ + decimal(n as nat),
    decreases n,
{
    if n >= 10 {
        push_decimal(out, n / 10);
    }
    let d: u8 = (n % 10) as u8;
    let c: char = (48u8 + d) as char;
    push_char(out, c);
}

/// The decimal rendering of `n` as a new string.
pub fn decimal_string(n: u64) -> (s: String)
    ensures
        s@ == decimal(n as nat),
{
    let mut s = String::new();
    push_decimal(&mut s, n);
    s
}

/// The characters of an optional string.
pub open spec fn opt_view(o: Option<String>) -> Option<Seq<char>> {
    match o {
        Some(s) => Some(s@),
        None => None,
    }
}

// ---------------------------------------------------------------------
// Moving between `&str`, `String` and `Vec<char>`
// ---------------------------------------------------------------------

/// The characters of `s`, in order.
pub fn chars_of(s: &str) -> (v: Vec<char>)
    ensures
        v@ == s@,
{
    let mut v: Vec<char> = Vec::new();
    for c in it: s.chars()
        invariant
            v@ == it.seq().take(it.index() as int),
            it.seq() == s@,
    {
        v.push(c);
    }
    v
}

/// Appends the characters `v[from..to]`.
pub fn push_range(out: &mut String, v: &Vec<char>, from: usize, to: usize)
    requires
        from <= to <= v.len(),
    ensures
        final(out)@ == old(out)@ + v@.subrange(from as int, to as int),
{
    let mut i = from;
    while i < to
        invariant
            from <= i <= to <= v.len(),
            out@ == old(out)@ + v@.subrange(from as int, i as int),
        decreases to - i,
    {
        push_char(out, v[i]);
        assert(v@.subrange(from as int, i + 1) =~= v@.subrange(from as int, i as int).push(v@[i as int]));
        i += 1;
    }
}

/// The characters `v[from..to]` as a new string.
pub fn string_of_range(v: &Vec<char>, from: usize, to: usize) -> (s: String)
    requires
        from <= to <= v.len(),
    ensures
        s@ == v@.subrange(from as int, to as int),
{
    let mut s = String::new();
    push_range(&mut s, v, from, to);
    s
}

// ---------------------------------------------------------------------
// Prefixes and substrings
// ---------------------------------------------------------------------

/// `p` is a prefix of `s`.
pub open spec fn is_prefix(p: Seq<char>, s: Seq<char>) -> bool {
    p.len() <= s.len() && s.take(p.len() as int) == p
}

/// `p` occurs in `s` starting at position `i`.
pub open spec fn occurs_at(s: Seq<char>, p: Seq<char>, i: int) -> bool {
    0 <= i && i + p.len() <= s.len() && s.subrange(i, i + p.len()) == p
}

/// `p` occurs somewhere in `s` (`str::contains`; the empty pattern
/// occurs in every string).
pub open spec fn contains_seq(s: Seq<char>, p: Seq<char>) -> bool {
    exists|i: int| occurs_at(s, p, i)
}

/// Whether `p` occurs in `v` at position `i`.
pub fn occurs_at_exec(v: &Vec<char>, p: &Vec<char>, i: usize) -> (r: bool)
    ensures
        r == occurs_at(v@, p@, i as int),
{
    if i > v.len() || p.len() > v.len() - i {
        return false;
    }
    let mut k: usize = 0;
    while k < p.len()
        invariant
            i + p.len() <= v.len(),
            k <= p.len(),
            forall|j: int| 0 <= j < k ==> v@[i + j] == p@[j],
        decreases p.len() - k,
    {
        if v[i + k] != p[k] {
            assert(v@.subrange(i as int, i + p.len())[k as int] != p@[k as int]);
            return false;
        }
        k += 1;
    }
    assert(v@.subrange(i as int, i + p.len()) =~= p@);
    true
}

/// Whether `p` is a prefix of `v`.
pub fn starts_with(v: &Vec<char>, p: &str) -> (r: bool)
    ensures
        r == is_prefix(p@, v@),
{
    let pv = chars_of(p);
    let r = occurs_at_exec(v, &pv, 0);
    proof {
        if r {
            assert(v@.subrange(0, p@.len() as int) =~= v@.take(p@.len() as int));
        } else if p@.len() <= v@.len() {
            assert(v@.subrange(0, p@.len() as int) =~= v@.take(p@.len() as int));
        }
    }
    r
}

/// Whether `p` occurs anywhere in `v`.
pub fn contains_exec(v: &Vec<char>, p: &Vec<char>) -> (r: bool)
    ensures
        r == contains_seq(v@, p@),
{
    if p.len() > v.len() {
        return false;
    }
    let mut i: usize = 0;
    loop
        invariant
            p.len() <= v.len(),
            i <= v.len() - p.len(),
            forall|j: int| 0 <= j < i ==> !occurs_at(v@, p@, j),
        decreases v.len() - p.len() - i,
    {
        if occurs_at_exec(v, p, i) {
            return true;
        }
        if i == v.len() - p.len() {
            return false;
        }
        i += 1;
    }
}

// ---------------------------------------------------------------------
// Searching for characters
// ---------------------------------------------------------------------

/// Number of leading characters of `s` that are not in `stops`: the
/// index of the first character that is, or the length of `s`.
pub open spec fn index_of_first(s: Seq<char>, stops: Seq<char>) -> nat
    decreases s.len(),
{
    if s.len() == 0 {
        0
    } else if stops.contains(s[0]) {
        0
    } else {
        1 + index_of_first(s.drop_first(), stops)
    }
}

/// One past the index of the last occurrence of `c` in `s`, or zero
/// when `c` does not occur: `s.skip(index_after_last(s, c))` is what
/// follows the last `c`.
pub open spec fn index_after_last(s: Seq<char>, c: char) -> nat
    decreases s.len(),
{
    if s.len() == 0 {
        0
    } else if s.last() == c {
        s.len()
    } else {
        index_after_last(s.drop_last(), c)
    }
}

pub proof fn lemma_index_after_last_bound(s: Seq<char>, c: char)
    ensures
        index_after_last(s, c) <= s.len(),
        forall|j: int| index_after_last(s, c) <= j < s.len() ==> #[trigger] s[j] != c,
        index_after_last(s, c) > 0 ==> s[index_after_last(s, c) - 1] == c,
    decreases s.len(),
{
    if s.len() > 0 && s.last() != c {
        lemma_index_after_last_bound(s.drop_last(), c);
        assert forall|j: int| index_after_last(s, c) <= j < s.len() implies #[trigger] s[j] != c by {
            if j < s.len() - 1 {
                assert(s[j] == s.drop_last()[j]);
            }
        }
    }
}

pub proof fn lemma_index_of_first_step(s: Seq<char>, stops: Seq<char>, i: int)
    requires
        0 <= i < s.len(),
        !stops.contains(s[i]),
    ensures
        index_of_first(s.skip(i), stops) == 1 + index_of_first(s.skip(i + 1), stops),
{
    assert(s.skip(i).drop_first() =~= s.skip(i + 1));
}

/// Appending text without `c` leaves the position after the last `c`
/// unchanged.
pub proof fn lemma_index_after_last_append(p: Seq<char>, e: Seq<char>, c: char)
    requires
        !e.contains(c),
    ensures
        index_after_last(p + e, c) == index_after_last(p, c),
    decreases e.len(),
{
    if e.len() == 0 {
        assert(p + e =~= p);
    } else {
        assert((p + e).last() == e.last());
        assert(e.last() == e[e.len() - 1]);
        assert((p + e).drop_last() =~= p + e.drop_last());
        assert forall|i: int| 0 <= i < e.drop_last().len() implies e.drop_last()[i] != c by {
            assert(e.drop_last()[i] == e[i]);
        }
        lemma_index_after_last_append(p, e.drop_last(), c);
    }
}

pub proof fn lemma_index_after_last_step(s: Seq<char>, c: char, i: int)
    requires
        0 <= i < s.len(),
    ensures
        index_after_last(s.take(i + 1), c) == if s[i] == c {
            i + 1
        } else {
            index_after_last(s.take(i), c) as int
        },
{
    assert(s.take(i + 1).drop_last() =~= s.take(i));
}

// ---------------------------------------------------------------------
// ASCII case folding
// ---------------------------------------------------------------------

/// `char::to_ascii_lowercase`.
pub open spec fn ascii_lower_char(c: char) -> char {
    if 'A' <= c && c <= 'Z' {
        ((c as u32) + 32) as char
    } else {
        c
    }
}

/// `str::to_ascii_lowercase`.
pub open spec fn ascii_lower(s: Seq<char>) -> Seq<char> {
    s.map_values(|c: char| ascii_lower_char(c))
}

/// Lower-casing twice is lower-casing once.
pub proof fn lemma_ascii_lower_idempotent(s: Seq<char>)
    ensures
        ascii_lower(ascii_lower(s)) == ascii_lower(s),
{
    assert(ascii_lower(ascii_lower(s)) =~= ascii_lower(s));
}

pub fn ascii_lower_char_exec(c: char) -> (r: char)
    ensures
        r == ascii_lower_char(c),
{
    if 'A' <= c && c <= 'Z' {
        let b: u8 = c as u8;
        ((b + 32) as u8) as char
    } else {
        c
    }
}

/// Appends the ASCII-lowercased characters `v[from..to]`.
pub fn push_ascii_lower_range(out: &mut String, v: &Vec<char>, from: usize, to: usize)
    requires
        from <= to <= v.len(),
    ensures
        final(out)@ == old(out)@ + ascii_lower(v@.subrange(from as int, to as int)),
{
    let mut i = from;
    while i < to
        invariant
            from <= i <= to <= v.len(),
            out@ == old(out)@ + ascii_lower(v@.subrange(from as int, i as int)),
        decreases to - i,
    {
        let c = ascii_lower_char_exec(v[i]);
        push_char(out, c);
        assert(ascii_lower(v@.subrange(from as int, i + 1)) =~= ascii_lower(
            v@.subrange(from as int, i as int),
        ).push(c));
        i += 1;
    }
}

/// `str::to_ascii_lowercase`.
pub fn to_ascii_lowercase(s: &str) -> (r: String)
    ensures
        r@ == ascii_lower(s@),
{
    let v = chars_of(s);
    let mut out = String::new();
    push_ascii_lower_range(&mut out, &v, 0, v.len());
    assert(v@.subrange(0, v@.len() as int) =~= v@);
    out
}

// ---------------------------------------------------------------------
// JSON string literals
// ---------------------------------------------------------------------

/// Lower-case hexadecimal digit.
pub open spec fn hex_digit(d: nat) -> char {
    if d < 10 {
        ((48 + d) as u8) as char
    } else {
        ((87 + d) as u8) as char
    }
}

/// How one character is written inside a JSON string literal:
/// quote and backslash are backslash-escaped, the control characters
/// below U+0020 use their short escape where JSON has one and
/// `\u00xx` otherwise, every other character stands for itself.
pub open spec fn json_escape_char(c: char) -> Seq<char> {
    if c == '"' {
        seq!['\\', '"']
    } else if c == '\\' {
        seq!['\\', '\\']
    } else if c == '\x08' {
        seq!['\\', 'b']
    } else if c == '\t' {
        seq!['\\', 't']
    } else if c == '\n' {
        seq!['\\', 'n']
    } else if c == '\x0C' {
        seq!['\\', 'f']
    } else if c == '\r' {
        seq!['\\', 'r']
    } else if (c as u32) < 0x20 {
        seq!['\\', 'u', '0', '0', hex_digit((c as u32 / 16) as nat), hex_digit((c as u32 % 16) as nat)]
    } else {
        seq![c]
    }
}

/// The escaped contents of a JSON string literal for `s`.
pub open spec fn json_escape(s: Seq<char>) -> Seq<char>
    decreases s.len(),
{
    if s.len() == 0 {
        Seq::empty()
    } else {
        json_escape(s.drop_last()) + json_escape_char(s.last())
    }
}

/// The JSON string literal for `s`, quotes included.
pub open spec fn json_string(s: Seq<char>) -> Seq<char> {
    seq!['"'] + json_escape(s) + seq!['"']
}

/// A JSON string literal for `s`, or `null`.
pub open spec fn json_or_null(s: Option<Seq<char>>) -> Seq<char> {
    match s {
        Some(t) => json_string(t),
        None => seq!['n', 'u', 'l', 'l'],
    }
}

/// Serialises a string slice as a JSON string literal
/// (`serde_json::to_string` on a `str`). The contract states serde_json's
/// escaping rule for strings (its `ESCAPE` table and `write_char_escape`):
/// the literal is the characters of `s` between double quotes, with quote,
/// backslash and the controls below U+0020 escaped, `\u00xx` in lower-case
/// hex for the controls without a short form. Serialising a `str` into
/// serde_json's in-memory buffer has no failing path, so the error arm is
/// never taken.
#[verifier::external_body]
pub(crate) fn json_quote(s: &str) -> (r: String)
    ensures
        r@ == json_string(s@),
{
    match serde_json::to_string(s) {
        Ok(t) => t,
        Err(_) => String::new(),
    }
}

/// A JSON string literal for `s`, or `null` when there is none.
pub fn json_quote_or_null(s: Option<&str>) -> (r: String)
    ensures
        r@ == json_or_null(match s {
            Some(t) => Some(t@),
            None => None,
        }),
{
    match s {
        Some(t) => json_quote(t),
        None => {
            let mut r = String::new();
            push_str(&mut r, "null");
            proof {
                reveal_strlit("null");
            }
            r
        },
    }
}

// ---------------------------------------------------------------------
// Whitespace
// ---------------------------------------------------------------------

/// Unicode `White_Space` (`char::is_whitespace`).
pub open spec fn is_whitespace(c: char) -> bool {
    let u = c as u32;
    ||| u == 0x20
    ||| (0x09 <= u && u <= 0x0D)
    ||| u == 0x85
    ||| u == 0xA0
    ||| u == 0x1680
    ||| (0x2000 <= u && u <= 0x200A)
    ||| u == 0x2028
    ||| u == 0x2029
    ||| u == 0x202F
    ||| u == 0x205F
    ||| u == 0x3000
}

pub fn is_whitespace_exec(c: char) -> (r: bool)
    ensures
        r == is_whitespace(c),
{
    let u = c as u32;
    u == 0x20 || (0x09 <= u && u <= 0x0D) || u == 0x85 || u == 0xA0 || u == 0x1680 || (0x2000
        <= u && u <= 0x200A) || u == 0x2028 || u == 0x2029 || u == 0x202F || u == 0x205F || u
        == 0x3000
}

/// The characters that trimming removes: double quotes when `quotes`
/// is set (`trim_matches('"')`), whitespace otherwise (`trim`).
pub open spec fn trimmed_char(quotes: bool, c: char) -> bool {
    if quotes {
        c == '"'
    } else {
        is_whitespace(c)
    }
}

/// Number of leading characters of `s` that trimming removes.
pub open spec fn leading(s: Seq<char>, quotes: bool) -> nat
    decreases s.len(),
{
    if s.len() == 0 || !trimmed_char(quotes, s[0]) {
        0
    } else {
        1 + leading(s.drop_first(), quotes)
    }
}

/// Number of trailing characters of `s` that trimming removes.
pub open spec fn trailing(s: Seq<char>, quotes: bool) -> nat
    decreases s.len(),
{
    if s.len() == 0 || !trimmed_char(quotes, s.last()) {
        0
    } else {
        1 + trailing(s.drop_last(), quotes)
    }
}

/// `s` without the removable characters at either end.
pub open spec fn trim_by(s: Seq<char>, quotes: bool) -> Seq<char> {
    let a = leading(s, quotes);
    let rest = s.skip(a as int);
    rest.take(rest.len() - trailing(rest, quotes))
}

/// `str::trim`.
pub open spec fn trim(s: Seq<char>) -> Seq<char> {
    trim_by(s, false)
}

/// `str::trim_matches('"')`.
pub open spec fn trim_quotes(s: Seq<char>) -> Seq<char> {
    trim_by(s, true)
}

pub fn trimmed_char_exec(quotes: bool, c: char) -> (r: bool)
    ensures
        r == trimmed_char(quotes, c),
{
    if quotes {
        c == '"'
    } else {
        is_whitespace_exec(c)
    }
}

/// The bounds `[a, b)` of `v[from..to]` with whitespace (or quotes, when
/// `quotes` is set) removed from both ends.
pub fn trim_bounds(v: &Vec<char>, from: usize, to: usize, quotes: bool) -> (r: (usize, usize))
    requires
        from <= to <= v.len(),
    ensures
        from <= r.0 <= r.1 <= to,
        v@.subrange(r.0 as int, r.1 as int) == trim_by(v@.subrange(from as int, to as int), quotes),
{
    let ghost p = quotes;
    let ghost s = v@.subrange(from as int, to as int);
    let mut a = from;
    while a < to && trimmed_char_exec(quotes, v[a])
        invariant
            from <= a <= to <= v.len(),
            s == v@.subrange(from as int, to as int),
            p == quotes,
            leading(s, p) == (a - from) + leading(v@.subrange(a as int, to as int), p),
        decreases to - a,
    {
        assert(v@.subrange(a as int, to as int).drop_first() =~= v@.subrange(a + 1, to as int));
        assert(v@.subrange(a as int, to as int)[0] == v@[a as int]);
        a += 1;
    }
    assert(leading(v@.subrange(a as int, to as int), p) == 0);
    let ghost rest = v@.subrange(a as int, to as int);
    assert(s.skip(leading(s, p) as int) =~= rest);
    let mut b = to;
    while b > a && trimmed_char_exec(quotes, v[b - 1])
        invariant
            a <= b <= to <= v.len(),
            rest == v@.subrange(a as int, to as int),
            p == quotes,
            trailing(rest, p) == (to - b) + trailing(v@.subrange(a as int, b as int), p),
        decreases b - a,
    {
        assert(v@.subrange(a as int, b as int).drop_last() =~= v@.subrange(a as int, b - 1));
        assert(v@.subrange(a as int, b as int).last() == v@[b - 1]);
        b -= 1;
    }
    assert(trailing(v@.subrange(a as int, b as int), p) == 0);
    assert(rest.take(rest.len() - trailing(rest, p)) =~= v@.subrange(a as int, b as int));
    (a, b)
}

// ---------------------------------------------------------------------
// Paths
// ---------------------------------------------------------------------

/// `Path::join` on Unix paths: an absolute `p` replaces `base`; otherwise
/// a `/` separates the two unless `base` is empty or already ends in one.
pub open spec fn path_join(base: Seq<char>, p: Seq<char>) -> Seq<char> {
    if p.len() > 0 && p[0] == '/' {
        p
    } else if base.len() == 0 || base.last() == '/' {
        base + p
    } else {
        base + seq!['/'] + p
    }
}

pub fn path_join_exec(base: &str, p: &str) -> (r: String)
    ensures
        r@ == path_join(base@, p@),
{
    let pv = chars_of(p);
    let bv = chars_of(base);
    let mut out = String::new();
    if pv.len() > 0 && pv[0] == '/' {
        push_str(&mut out, p);
        return out;
    }
    push_str(&mut out, base);
    if !(bv.len() == 0 || bv[bv.len() - 1] == '/') {
        push_char(&mut out, '/');
    }
    push_str(&mut out, p);
    out
}

/// The final component of a Unix path, as `Path::file_name` documents it:
/// the path's parts between `/` separators, with empty parts (repeated or
/// trailing separators) and `.` parts ignored; none when no part is left
/// or the last one is `..`, else that last part.
pub open spec fn final_component(p: Seq<char>) -> Option<Seq<char>>
    decreases p.len(),
{
    let k = index_after_last(p, '/');
    let part = p.skip(k as int);
    if part.len() == 0 || part == seq!['.'] {
        if k == 0 {
            None
        } else {
            proof {
                lemma_index_after_last_bound(p, '/');
            }
            final_component(p.take(k - 1))
        }
    } else if part == seq!['.', '.'] {
        None
    } else {
        Some(part)
    }
}

/// `Path::new(p).file_name()`, as an owned string: the final component of
/// the path (`to_string_lossy` gives the text unchanged, since the path
/// came from a `str`).
#[verifier::external_body]
pub(crate) fn file_name(p: &str) -> (r: Option<String>)
    ensures
        opt_view(r) == final_component(p@),
{
    std::path::Path::new(p).file_name().map(|n| n.to_string_lossy().into_owned())
}

// ---------------------------------------------------------------------
// Unicode case folding
// ---------------------------------------------------------------------

/// What `str::to_lowercase` returns for `s`.
pub uninterp spec fn unicode_lowercase(s: Seq<char>) -> Seq<char>;

/// `str::to_lowercase`: Unicode lower-case mapping, a function of the
/// text alone; its tables are left to the name `unicode_lowercase`.
#[verifier::external_body]
pub(crate) fn to_lowercase(s: &str) -> (r: String)
    ensures
        r@ == unicode_lowercase(s@),
{
    s.to_lowercase()
}

/// Whether the characters of `v` are exactly those of `s`.
pub fn eq_str(v: &Vec<char>, s: &str) -> (r: bool)
    ensures
        r == (v@ == s@),
{
    let p = chars_of(s);
    if p.len() != v.len() {
        return false;
    }
    let r = occurs_at_exec(v, &p, 0);
    assert(v@.subrange(0, v@.len() as int) =~= v@);
    r
}

} // verus!
