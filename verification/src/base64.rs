//! Standard base64 (RFC 4648 alphabet, `=` padding). Decoding is strict:
//! the length is a multiple of four, padding appears only in the last
//! group, and the bits that padding discards are zero, so every byte
//! string has exactly one encoding and decoding undoes encoding.

use vstd::prelude::*;
use crate::text::{chars_of, push_char};

verus! {

/// The alphabet character for a six-bit value.
pub open spec fn b64_char(v: u8) -> char {
    if v < 26 {
        (65 + v) as char
    } else if v < 52 {
        (97 + (v - 26)) as char
    } else if v < 62 {
        (48 + (v - 52)) as char
    } else if v == 62 {
        '+'
    } else {
        '/'
    }
}

/// The six-bit value of an alphabet character; none for anything else
/// (the padding character included).
pub open spec fn b64_value(c: char) -> Option<u8> {
    let u = c as u32;
    if 65 <= u && u <= 90 {
        Some((u - 65) as u8)
    } else if 97 <= u && u <= 122 {
        Some((u - 97 + 26) as u8)
    } else if 48 <= u && u <= 57 {
        Some((u - 48 + 52) as u8)
    } else if c == '+' {
        Some(62u8)
    } else if c == '/' {
        Some(63u8)
    } else {
        None
    }
}

/// The four six-bit values that encode three bytes.
pub open spec fn split_group(b0: u8, b1: u8, b2: u8) -> (u8, u8, u8, u8) {
    (b0 >> 2, ((b0 & 3) << 4) | (b1 >> 4), ((b1 & 15) << 2) | (b2 >> 6), b2 & 63)
}

/// The three bytes that four six-bit values encode.
pub open spec fn join_group(c0: u8, c1: u8, c2: u8, c3: u8) -> (u8, u8, u8) {
    ((c0 << 2) | (c1 >> 4), ((c1 & 15) << 4) | (c2 >> 2), ((c2 & 3) << 6) | c3)
}

/// The base64 encoding of `b`.
pub open spec fn encode_spec(b: Seq<u8>) -> Seq<char>
    decreases b.len(),
{
    if b.len() == 0 {
        Seq::empty()
    } else if b.len() == 1 {
        let g = split_group(b[0], 0, 0);
        seq![b64_char(g.0), b64_char(g.1), '=', '=']
    } else if b.len() == 2 {
        let g = split_group(b[0], b[1], 0);
        seq![b64_char(g.0), b64_char(g.1), b64_char(g.2), '=']
    } else {
        let g = split_group(b[0], b[1], b[2]);
        seq![b64_char(g.0), b64_char(g.1), b64_char(g.2), b64_char(g.3)] + encode_spec(b.skip(3))
    }
}

/// The bytes that the final group `s[0..4]` stands for, when it is a
/// canonical group with padding: `xx==` with the low four bits of the
/// second value zero, or `xxx=` with the low two bits of the third value
/// zero.
pub open spec fn decode_padded(s: Seq<char>) -> Option<Seq<u8>> {
    if s.len() == 4 && s[3] == '=' && b64_value(s[0]).is_some() && b64_value(s[1]).is_some() {
        let c0 = b64_value(s[0]).unwrap();
        let c1 = b64_value(s[1]).unwrap();
        if s[2] == '=' {
            if c1 & 15 == 0 {
                Some(seq![join_group(c0, c1, 0, 0).0])
            } else {
                None
            }
        } else if b64_value(s[2]).is_some() {
            let c2 = b64_value(s[2]).unwrap();
            if c2 & 3 == 0 {
                let g = join_group(c0, c1, c2, 0);
                Some(seq![g.0, g.1])
            } else {
                None
            }
        } else {
            None
        }
    } else {
        None
    }
}

/// Strict decoding: the bytes that `s` encodes, or none when `s` is not
/// a canonical base64 string.
pub open spec fn decode_spec(s: Seq<char>) -> Option<Seq<u8>>
    decreases s.len(),
{
    if s.len() == 0 {
        Some(Seq::empty())
    } else if s.len() < 4 {
        None
    } else if b64_value(s[0]).is_some() && b64_value(s[1]).is_some() && b64_value(s[2]).is_some()
        && b64_value(s[3]).is_some() {
        let g = join_group(
            b64_value(s[0]).unwrap(),
            b64_value(s[1]).unwrap(),
            b64_value(s[2]).unwrap(),
            b64_value(s[3]).unwrap(),
        );
        match decode_spec(s.skip(4)) {
            Some(rest) => Some(seq![g.0, g.1, g.2] + rest),
            None => None,
        }
    } else {
        decode_padded(s)
    }
}

// ---------------------------------------------------------------------
// Lemmas
// ---------------------------------------------------------------------

proof fn lemma_char_value(v: u8)
    requires
        v < 64,
    ensures
        b64_value(b64_char(v)) == Some(v),
        b64_char(v) != '=',
{
}

proof fn lemma_value_char(c: char)
    requires
        b64_value(c).is_some(),
    ensures
        b64_value(c).unwrap() < 64,
        b64_char(b64_value(c).unwrap()) == c,
        c != '=',
{
    let u = c as u32;
    assert((u as char) == c);
}

proof fn lemma_split_join(b0: u8, b1: u8, b2: u8)
    ensures
        ({
            let g = split_group(b0, b1, b2);
            &&& g.0 < 64
            &&& g.1 < 64
            &&& g.2 < 64
            &&& g.3 < 64
            &&& join_group(g.0, g.1, g.2, g.3) == (b0, b1, b2)
            &&& (b2 == 0 ==> g.3 == 0 && g.2 & 3 == 0)
            &&& (b1 == 0 && b2 == 0 ==> g.2 == 0 && g.1 & 15 == 0)
        }),
{
    assert((b0 >> 2) < 64 && (((b0 & 3) << 4) | (b1 >> 4)) < 64 && (((b1 & 15) << 2) | (b2 >> 6))
        < 64 && (b2 & 63) < 64) by (bit_vector);
    assert(((b0 >> 2) << 2) | ((((b0 & 3) << 4) | (b1 >> 4)) >> 4) == b0) by (bit_vector);
    assert((((((b0 & 3) << 4) | (b1 >> 4)) & 15) << 4) | ((((b1 & 15) << 2) | (b2 >> 6)) >> 2)
        == b1) by (bit_vector);
    assert((((((b1 & 15) << 2) | (b2 >> 6)) & 3) << 6) | (b2 & 63) == b2) by (bit_vector);
    assert(b2 == 0 ==> (b2 & 63) == 0 && ((((b1 & 15) << 2) | (b2 >> 6)) & 3) == 0)
        by (bit_vector);
    assert(b1 == 0 && b2 == 0 ==> (((b1 & 15) << 2) | (b2 >> 6)) == 0 && ((((b0 & 3) << 4) | (b1
        >> 4)) & 15) == 0) by (bit_vector);
}

proof fn lemma_join_split(c0: u8, c1: u8, c2: u8, c3: u8)
    requires
        c0 < 64,
        c1 < 64,
        c2 < 64,
        c3 < 64,
    ensures
        ({
            let g = join_group(c0, c1, c2, c3);
            &&& split_group(g.0, g.1, g.2) == (c0, c1, c2, c3)
            &&& (c1 & 15 == 0 && c2 == 0 && c3 == 0 ==> g.1 == 0 && g.2 == 0)
            &&& (c2 & 3 == 0 && c3 == 0 ==> g.2 == 0)
        }),
{
    assert(c0 < 64 && c1 < 64 ==> (((c0 << 2) | (c1 >> 4)) >> 2) == c0) by (bit_vector);
    assert(c0 < 64 && c1 < 64 && c2 < 64 ==> (((((c0 << 2) | (c1 >> 4)) & 3) << 4) | ((((c1
        & 15) << 4) | (c2 >> 2)) >> 4)) == c1) by (bit_vector);
    assert(c1 < 64 && c2 < 64 && c3 < 64 ==> (((((c1 & 15) << 4) | (c2 >> 2)) & 15) << 2) | ((((
    c2 & 3) << 6) | c3) >> 6) == c2) by (bit_vector);
    assert(c2 < 64 && c3 < 64 ==> ((((c2 & 3) << 6) | c3) & 63) == c3) by (bit_vector);
    assert(c1 & 15 == 0 && c2 == 0 && c3 == 0 ==> (((c1 & 15) << 4) | (c2 >> 2)) == 0 && (((c2
        & 3) << 6) | c3) == 0) by (bit_vector);
    assert(c2 & 3 == 0 && c3 == 0 ==> (((c2 & 3) << 6) | c3) == 0) by (bit_vector);
}

/// Decoding undoes encoding: every byte string comes back from its
/// base64 text.
pub proof fn lemma_decode_encode(b: Seq<u8>)
    ensures
        decode_spec(encode_spec(b)) == Some(b),
    decreases b.len(),
{
    let s = encode_spec(b);
    if b.len() == 0 {
    } else if b.len() == 1 {
        lemma_split_join(b[0], 0, 0);
        let g = split_group(b[0], 0, 0);
        lemma_char_value(g.0);
        lemma_char_value(g.1);
        assert(decode_padded(s) == Some(b));
    } else if b.len() == 2 {
        lemma_split_join(b[0], b[1], 0);
        let g = split_group(b[0], b[1], 0);
        lemma_char_value(g.0);
        lemma_char_value(g.1);
        lemma_char_value(g.2);
        assert(decode_padded(s) == Some(b));
    } else {
        lemma_split_join(b[0], b[1], b[2]);
        let g = split_group(b[0], b[1], b[2]);
        lemma_char_value(g.0);
        lemma_char_value(g.1);
        lemma_char_value(g.2);
        lemma_char_value(g.3);
        lemma_decode_encode(b.skip(3));
        let head = seq![b64_char(g.0), b64_char(g.1), b64_char(g.2), b64_char(g.3)];
        assert(s == head + encode_spec(b.skip(3)));
        assert(s.skip(4) =~= encode_spec(b.skip(3)));
        assert(seq![b[0], b[1], b[2]] + b.skip(3) =~= b);
    }
}

/// Encoding undoes decoding: a string that decodes is the encoding of
/// what it decodes to, so no byte string has two accepted encodings.
pub proof fn lemma_encode_decode(s: Seq<char>)
    requires
        decode_spec(s).is_some(),
    ensures
        encode_spec(decode_spec(s).unwrap()) == s,
    decreases s.len(),
{
    if s.len() == 0 {
        assert(s =~= Seq::<char>::empty());
    } else if b64_value(s[0]).is_some() && b64_value(s[1]).is_some() && b64_value(s[2]).is_some()
        && b64_value(s[3]).is_some() {
        let c0 = b64_value(s[0]).unwrap();
        let c1 = b64_value(s[1]).unwrap();
        let c2 = b64_value(s[2]).unwrap();
        let c3 = b64_value(s[3]).unwrap();
        lemma_value_char(s[0]);
        lemma_value_char(s[1]);
        lemma_value_char(s[2]);
        lemma_value_char(s[3]);
        lemma_join_split(c0, c1, c2, c3);
        let g = join_group(c0, c1, c2, c3);
        let rest = decode_spec(s.skip(4)).unwrap();
        lemma_encode_decode(s.skip(4));
        let b = seq![g.0, g.1, g.2] + rest;
        assert(b.skip(3) =~= rest);
        assert(b[0] == g.0 && b[1] == g.1 && b[2] == g.2);
        if rest.len() == 0 {
            assert(s.skip(4).len() == 0) by {
                if s.skip(4).len() > 0 {
                    assert(encode_spec(rest).len() == 0);
                }
            }
            assert(encode_spec(b.skip(3)) =~= Seq::<char>::empty());
        }
        assert(s =~= seq![s[0], s[1], s[2], s[3]] + s.skip(4));
    } else {
        let c0 = b64_value(s[0]).unwrap();
        let c1 = b64_value(s[1]).unwrap();
        lemma_value_char(s[0]);
        lemma_value_char(s[1]);
        if s[2] == '=' {
            lemma_join_split(c0, c1, 0, 0);
            assert(s =~= seq![s[0], s[1], '=', '=']);
        } else {
            let c2 = b64_value(s[2]).unwrap();
            lemma_value_char(s[2]);
            lemma_join_split(c0, c1, c2, 0);
            assert(s =~= seq![s[0], s[1], s[2], '=']);
        }
    }
}

// ---------------------------------------------------------------------
// Executable encoding and decoding
// ---------------------------------------------------------------------

fn b64_char_exec(v: u8) -> (c: char)
    requires
        v < 64,
    ensures
        c == b64_char(v),
{
    if v < 26 {
        (65u8 + v) as char
    } else if v < 52 {
        (97u8 + (v - 26)) as char
    } else if v < 62 {
        (48u8 + (v - 52)) as char
    } else if v == 62 {
        '+'
    } else {
        '/'
    }
}

fn b64_value_exec(c: char) -> (r: Option<u8>)
    ensures
        r == b64_value(c),
{
    let u = c as u32;
    if 65 <= u && u <= 90 {
        Some((u - 65) as u8)
    } else if 97 <= u && u <= 122 {
        Some((u - 97 + 26) as u8)
    } else if 48 <= u && u <= 57 {
        Some((u - 48 + 52) as u8)
    } else if c == '+' {
        Some(62u8)
    } else if c == '/' {
        Some(63u8)
    } else {
        None
    }
}

fn split_group_exec(b0: u8, b1: u8, b2: u8) -> (g: (u8, u8, u8, u8))
    ensures
        g == split_group(b0, b1, b2),
{
    (b0 >> 2, ((b0 & 3) << 4) | (b1 >> 4), ((b1 & 15) << 2) | (b2 >> 6), b2 & 63)
}

fn join_group_exec(c0: u8, c1: u8, c2: u8, c3: u8) -> (g: (u8, u8, u8))
    ensures
        g == join_group(c0, c1, c2, c3),
{
    ((c0 << 2) | (c1 >> 4), ((c1 & 15) << 4) | (c2 >> 2), ((c2 & 3) << 6) | c3)
}

/// Appends the base64 encoding of `b` to `out`.
pub fn push_encoded(out: &mut String, b: &[u8])
    ensures
        final(out)@ == old(out)@ + encode_spec(b@),
{
    let n = b.len();
    let mut i: usize = 0;
    assert(b@.skip(0) =~= b@);
    while i < n
        invariant
            n == b@.len(),
            i <= n,
            old(out)@ + encode_spec(b@) == out@ + encode_spec(b@.skip(i as int)),
        decreases n - i,
    {
        let ghost rest = b@.skip(i as int);
        let left = n - i;
        let b0 = b[i];
        let b1 = if left > 1 { b[i + 1] } else { 0 };
        let b2 = if left > 2 { b[i + 2] } else { 0 };
        let g = split_group_exec(b0, b1, b2);
        assert(rest.len() == left && rest[0] == b0);
        assert(left > 1 ==> rest[1] == b1);
        assert(left > 2 ==> rest[2] == b2);
        proof {
            lemma_split_join(b0, b1, b2);
        }
        let ghost before = out@;
        push_char(out, b64_char_exec(g.0));
        push_char(out, b64_char_exec(g.1));
        if left > 1 {
            push_char(out, b64_char_exec(g.2));
        } else {
            push_char(out, '=');
        }
        if left > 2 {
            push_char(out, b64_char_exec(g.3));
        } else {
            push_char(out, '=');
        }
        if left <= 3 {
            assert(b@.skip(n as int) =~= Seq::<u8>::empty());
            if left == 3 {
                assert(rest.skip(3) =~= Seq::<u8>::empty());
                assert(encode_spec(rest.skip(3)) =~= Seq::<char>::empty());
            }
            assert(out@ =~= before + encode_spec(rest));
            i = n;
        } else {
            assert(rest.skip(3) =~= b@.skip(i + 3));
            assert(out@ + encode_spec(b@.skip(i + 3)) =~= before + encode_spec(rest));
            i += 3;
        }
    }
}

/// The base64 encoding of `b`.
pub fn encode(b: &[u8]) -> (s: String)
    ensures
        s@ == encode_spec(b@),
{
    let mut s = String::new();
    push_encoded(&mut s, b);
    s
}

/// Strict base64 decoding: the bytes that `s` encodes, or `None` when
/// `s` is not a canonical base64 string.
pub fn decode(s: &str) -> (r: Option<Vec<u8>>)
    ensures
        match r {
            Some(b) => decode_spec(s@) == Some(b@),
            None => decode_spec(s@).is_none(),
        },
{
    let v = chars_of(s);
    let n = v.len();
    let mut out: Vec<u8> = Vec::new();
    let mut i: usize = 0;
    assert(v@.skip(0) =~= v@);
    while i < n
        invariant
            n == v@.len(),
            v@ == s@,
            i <= n,
            decode_spec(s@) == match decode_spec(v@.skip(i as int)) {
                Some(rest) => Some(out@ + rest),
                None => None,
            },
        decreases n - i,
    {
        let ghost t = v@.skip(i as int);
        if n - i < 4 {
            return None;
        }
        assert(t[0] == v@[i as int] && t[1] == v@[i + 1] && t[2] == v@[i + 2] && t[3] == v@[i
            + 3]);
        let x0 = b64_value_exec(v[i]);
        let x1 = b64_value_exec(v[i + 1]);
        let x2 = b64_value_exec(v[i + 2]);
        let x3 = b64_value_exec(v[i + 3]);
        match (x0, x1, x2, x3) {
            (Some(c0), Some(c1), Some(c2), Some(c3)) => {
                let g = join_group_exec(c0, c1, c2, c3);
                let ghost before = out@;
                out.push(g.0);
                out.push(g.1);
                out.push(g.2);
                assert(t.skip(4) =~= v@.skip(i + 4));
                proof {
                    match decode_spec(v@.skip(i + 4)) {
                        Some(rest) => {
                            assert(out@ + rest =~= before + (seq![g.0, g.1, g.2] + rest));
                        },
                        None => {},
                    }
                }
                i += 4;
            },
            (Some(c0), Some(c1), _, _) => {
                if n - i != 4 || v[i + 3] != '=' {
                    return None;
                }
                assert(t =~= v@.subrange(i as int, n as int));
                if v[i + 2] == '=' {
                    if c1 & 15 != 0 {
                        return None;
                    }
                    let g = join_group_exec(c0, c1, 0, 0);
                    out.push(g.0);
                } else {
                    match x2 {
                        Some(c2) => {
                            if c2 & 3 != 0 {
                                return None;
                            }
                            let g = join_group_exec(c0, c1, c2, 0);
                            out.push(g.0);
                            out.push(g.1);
                        },
                        None => {
                            return None;
                        },
                    }
                }
                assert(v@.skip(n as int) =~= Seq::<char>::empty());
                i = n;
            },
            _ => {
                return None;
            },
        }
    }
    assert(v@.skip(n as int) =~= Seq::<char>::empty());
    assert(out@ + Seq::<u8>::empty() =~= out@);
    Some(out)
}

} // verus!
