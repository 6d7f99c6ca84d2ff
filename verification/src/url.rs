//! Host extraction for absolute http(s) URLs: the same-host rule of the
//! crawler and the site lookup of login filling need nothing more.

use vstd::prelude::*;
use crate::text::{
    ascii_lower, ascii_lower_char, chars_of, index_after_last, index_of_first, is_prefix,
    lemma_ascii_lower_idempotent, lemma_index_after_last_bound, lemma_index_after_last_step,
    lemma_index_of_first_step, occurs_at_exec, push_ascii_lower_range, starts_with,
};

verus! {

/// The characters that end the authority part of a URL.
pub open spec fn authority_stops() -> Seq<char> {
    seq!['/', '?', '#']
}

/// The character that ends the host inside the authority.
pub open spec fn port_stops() -> Seq<char> {
    seq![':']
}

/// The prefix that is stripped from hosts, as often as it repeats.
pub open spec fn www_prefix() -> Seq<char> {
    seq!['w', 'w', 'w', '.']
}

/// What follows the scheme of an `https://` or `http://` URL.
pub open spec fn scheme_rest(url: Seq<char>) -> Option<Seq<char>> {
    if is_prefix("https://"@, url) {
        Some(url.skip("https://"@.len() as int))
    } else if is_prefix("http://"@, url) {
        Some(url.skip("http://"@.len() as int))
    } else {
        None
    }
}

/// `s` with every leading `www.` removed (`trim_start_matches("www.")`).
pub open spec fn strip_www(s: Seq<char>) -> Seq<char>
    decreases s.len(),
{
    if is_prefix(www_prefix(), s) {
        strip_www(s.skip(4))
    } else {
        s
    }
}

/// The host part of `rest` (the URL after its scheme) before `www.`
/// stripping: the authority up to the first `/`, `?` or `#`, after its
/// last `@`, before its first `:`.
pub open spec fn raw_host(rest: Seq<char>) -> Seq<char> {
    let authority = rest.take(index_of_first(rest, authority_stops()) as int);
    let after_user = authority.skip(index_after_last(authority, '@') as int);
    after_user.take(index_of_first(after_user, port_stops()) as int)
}

/// The host of an absolute http(s) URL, without leading `www.` and in
/// ASCII lower case; none for other schemes or an empty host.
pub open spec fn host_of_spec(url: Seq<char>) -> Option<Seq<char>> {
    match scheme_rest(url) {
        None => None,
        Some(rest) => {
            let host = raw_host(rest);
            if host.len() == 0 {
                None
            } else {
                Some(ascii_lower(strip_www(host)))
            }
        },
    }
}

fn is_authority_stop(c: char) -> (r: bool)
    ensures
        r == authority_stops().contains(c),
{
    let r = c == '/' || c == '?' || c == '#';
    proof {
        if r {
            if c == '/' {
                assert(authority_stops()[0] == c);
            } else if c == '?' {
                assert(authority_stops()[1] == c);
            } else {
                assert(authority_stops()[2] == c);
            }
        }
    }
    r
}

fn is_port_stop(c: char) -> (r: bool)
    ensures
        r == port_stops().contains(c),
{
    let r = c == ':';
    proof {
        if r {
            assert(port_stops()[0] == c);
        }
    }
    r
}

/// Scans `v[from..to]` for the first stop character: one of the
/// authority stops when `authority` is set, the port stop otherwise.
fn scan_first(v: &Vec<char>, from: usize, to: usize, authority: bool) -> (r: usize)
    requires
        from <= to <= v.len(),
    ensures
        from <= r <= to,
        r - from == index_of_first(
            v@.subrange(from as int, to as int),
            if authority {
                authority_stops()
            } else {
                port_stops()
            },
        ),
{
    let ghost stops = if authority {
        authority_stops()
    } else {
        port_stops()
    };
    let ghost s = v@.subrange(from as int, to as int);
    let mut i = from;
    assert(s.skip(0) =~= s);
    loop
        invariant
            from <= i <= to <= v.len(),
            s == v@.subrange(from as int, to as int),
            stops == if authority {
                authority_stops()
            } else {
                port_stops()
            },
            index_of_first(s, stops) == (i - from) + index_of_first(s.skip(i - from), stops),
        ensures
            from <= i <= to,
            index_of_first(s, stops) == i - from,
        decreases to - i,
    {
        if i == to {
            assert(index_of_first(s.skip(i - from), stops) == 0);
            break;
        }
        let hit = if authority {
            is_authority_stop(v[i])
        } else {
            is_port_stop(v[i])
        };
        if hit {
            assert(s.skip(i - from)[0] == v@[i as int]);
            assert(index_of_first(s.skip(i - from), stops) == 0);
            break;
        }
        assert(s[i - from] == v@[i as int]);
        proof { lemma_index_of_first_step(s, stops, (i - from) as int); }
        i += 1;
    }
    i
}

/// The host of an absolute http(s) URL, lower-cased, with any leading
/// `www.` removed; `None` for other schemes or an empty host.
pub fn host_of(url: &str) -> (r: Option<String>)
    ensures
        match r {
            Some(h) => host_of_spec(url@) == Some(h@),
            None => host_of_spec(url@).is_none(),
        },
{
    proof {
        reveal_strlit("https://");
        reveal_strlit("http://");
        reveal_strlit("www.");
    }
    let v = chars_of(url);
    let start: usize = if starts_with(&v, "https://") {
        8
    } else if starts_with(&v, "http://") {
        7
    } else {
        return None;
    };
    let ghost rest = v@.skip(start as int);
    assert(v@.subrange(start as int, v@.len() as int) =~= rest);
    // The authority ends at the first '/', '?' or '#'.
    let end = scan_first(&v, start, v.len(), true);
    let ghost authority = rest.take(index_of_first(rest, authority_stops()) as int);
    assert(authority =~= v@.subrange(start as int, end as int));
    // The host starts after the authority's last '@'.
    let mut hs = start;
    let mut i = start;
    while i < end
        invariant
            start <= hs <= i <= end <= v.len(),
            authority == v@.subrange(start as int, end as int),
            hs - start == index_after_last(authority.take(i - start), '@'),
        decreases end - i,
    {
        proof { lemma_index_after_last_step(authority, '@', (i - start) as int); }
        if v[i] == '@' {
            hs = i + 1;
        }
        i += 1;
    }
    assert(authority.take(end - start) =~= authority);
    let ghost after_user = authority.skip(index_after_last(authority, '@') as int);
    assert(after_user =~= v@.subrange(hs as int, end as int));
    // The host ends at the first ':'.
    let he = scan_first(&v, hs, end, false);
    let ghost host = after_user.take(index_of_first(after_user, port_stops()) as int);
    assert(host =~= v@.subrange(hs as int, he as int));
    assert(host == raw_host(rest));
    if he == hs {
        return None;
    }
    // Strip every leading "www.".
    let www = chars_of("www.");
    let mut t = hs;
    while he - t >= 4 && occurs_at_exec(&v, &www, t)
        invariant
            hs <= t <= he <= v.len(),
            www@ == www_prefix(),
            strip_www(host) == strip_www(v@.subrange(t as int, he as int)),
            host == v@.subrange(hs as int, he as int),
        decreases he - t,
    {
        assert(v@.subrange(t as int, he as int).take(4) =~= v@.subrange(t as int, t + 4));
        assert(v@.subrange(t as int, he as int).skip(4) =~= v@.subrange(t + 4, he as int));
        t += 4;
    }
    proof {
        let tail = v@.subrange(t as int, he as int);
        if is_prefix(www_prefix(), tail) {
            assert(tail.take(4) =~= v@.subrange(t as int, t + 4));
        }
    }
    let mut out = String::new();
    push_ascii_lower_range(&mut out, &v, t, he);
    Some(out)
}

/// Hosts come out in ASCII lower case, so the same-host rule does not
/// depend on how a URL capitalises its host.
pub proof fn lemma_host_lower_case(url: Seq<char>)
    ensures
        host_of_spec(url) matches Some(h) ==> forall|i: int|
            0 <= i < h.len() ==> !('A' <= #[trigger] h[i] && h[i] <= 'Z'),
{
}

/// A character that cannot occur in a host as `host_of` extracts it: an
/// authority stop, the user-info separator or the port separator.
pub open spec fn host_delimiter(c: char) -> bool {
    c == '/' || c == '?' || c == '#' || c == '@' || c == ':'
}

proof fn lemma_authority_stop(c: char)
    ensures
        authority_stops().contains(c) <==> (c == '/' || c == '?' || c == '#'),
        port_stops().contains(c) <==> c == ':',
{
    if c == '/' {
        assert(authority_stops()[0] == c);
    } else if c == '?' {
        assert(authority_stops()[1] == c);
    } else if c == '#' {
        assert(authority_stops()[2] == c);
    }
    if c == ':' {
        assert(port_stops()[0] == c);
    }
}

/// The characters before the first stop are no stops; with no stop at all
/// the whole sequence comes before it.
proof fn lemma_index_of_first_chars(s: Seq<char>, stops: Seq<char>)
    ensures
        index_of_first(s, stops) <= s.len(),
        forall|j: int| 0 <= j < index_of_first(s, stops) ==> !stops.contains(#[trigger] s[j]),
        (forall|j: int| 0 <= j < s.len() ==> !stops.contains(#[trigger] s[j])) ==> index_of_first(
            s,
            stops,
        ) == s.len(),
    decreases s.len(),
{
    if s.len() > 0 && !stops.contains(s[0]) {
        lemma_index_of_first_chars(s.drop_first(), stops);
        assert forall|j: int| 0 <= j < index_of_first(s, stops) implies !stops.contains(
            #[trigger] s[j],
        ) by {
            if j > 0 {
                assert(s[j] == s.drop_first()[j - 1]);
            }
        }
        if forall|j: int| 0 <= j < s.len() ==> !stops.contains(#[trigger] s[j]) {
            assert forall|j: int| 0 <= j < s.drop_first().len() implies !stops.contains(
                #[trigger] s.drop_first()[j],
            ) by {
                assert(s.drop_first()[j] == s[j + 1]);
            }
        }
    }
}

/// Stripping `www.` leaves a suffix.
proof fn lemma_strip_www_suffix(s: Seq<char>)
    ensures
        strip_www(s).len() <= s.len(),
        strip_www(s) == s.skip(s.len() - strip_www(s).len()),
    decreases s.len(),
{
    if is_prefix(www_prefix(), s) {
        let t = s.skip(4);
        lemma_strip_www_suffix(t);
        assert(t.skip(t.len() - strip_www(t).len()) =~= s.skip(s.len() - strip_www(t).len()));
    } else {
        assert(s.skip(0) =~= s);
    }
}

/// The raw host holds no delimiter.
proof fn lemma_raw_host_chars(rest: Seq<char>)
    ensures
        forall|i: int| 0 <= i < raw_host(rest).len() ==> !host_delimiter(#[trigger] raw_host(rest)[i]),
{
    let authority = rest.take(index_of_first(rest, authority_stops()) as int);
    lemma_index_of_first_chars(rest, authority_stops());
    let k = index_after_last(authority, '@');
    lemma_index_after_last_bound(authority, '@');
    let after_user = authority.skip(k as int);
    lemma_index_of_first_chars(after_user, port_stops());
    let host = after_user.take(index_of_first(after_user, port_stops()) as int);
    assert(host == raw_host(rest));
    assert forall|i: int| 0 <= i < host.len() implies !host_delimiter(#[trigger] host[i]) by {
        let c = host[i];
        assert(c == after_user[i]);
        assert(c == authority[k + i]);
        assert(c == rest[k + i]);
        lemma_authority_stop(c);
        assert(!authority_stops().contains(rest[k + i]));
        assert(!port_stops().contains(after_user[i]));
    }
}

/// Feeding a host back as `https://<host>` gives the same host, for every
/// host that does not itself begin with `www.` (a host written `WWW.` in a
/// URL keeps that prefix, since stripping comes before lower-casing) and is
/// not empty (a URL whose host is only `www.` yields an empty host).
pub proof fn lemma_host_round_trip(u: Seq<char>, h: Seq<char>)
    requires
        host_of_spec(u) == Some(h),
        h.len() > 0,
        !is_prefix(www_prefix(), h),
    ensures
        host_of_spec("https://"@ + h) == Some(h),
{
    reveal_strlit("https://");
    reveal_strlit("http://");
    let rest = scheme_rest(u).unwrap();
    let raw = raw_host(rest);
    lemma_raw_host_chars(rest);
    lemma_strip_www_suffix(raw);
    let t = strip_www(raw);
    assert(h == ascii_lower(t));
    assert forall|i: int| 0 <= i < h.len() implies !host_delimiter(#[trigger] h[i]) by {
        let m = raw.len() - t.len();
        assert(t[i] == raw[m + i]);
        assert(h[i] == ascii_lower_char(t[i]));
    }
    let url = "https://"@ + h;
    assert(url.take(8) =~= "https://"@);
    assert(url.skip(8) =~= h);
    assert(scheme_rest(url) == Some(h));
    lemma_index_of_first_chars(h, authority_stops());
    assert forall|j: int| 0 <= j < h.len() implies !authority_stops().contains(#[trigger] h[j]) by {
        lemma_authority_stop(h[j]);
    }
    assert(h.take(h.len() as int) =~= h);
    lemma_index_after_last_bound(h, '@');
    assert(index_after_last(h, '@') == 0) by {
        if index_after_last(h, '@') > 0 {
            assert(!host_delimiter(h[index_after_last(h, '@') - 1]));
        }
    }
    assert(h.skip(0) =~= h);
    lemma_index_of_first_chars(h, port_stops());
    assert forall|j: int| 0 <= j < h.len() implies !port_stops().contains(#[trigger] h[j]) by {
        lemma_authority_stop(h[j]);
    }
    assert(raw_host(h) == h);
    assert(strip_www(h) == h);
    lemma_ascii_lower_idempotent(t);
}

} // verus!
