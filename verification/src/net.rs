//! Endpoint parsing for TCP reachability checks.
//!
//! Accepts URLs such as `http://host:4317`, `https://host/v1/x`, or a bare
//! `host:port`, and yields the `host:port` to connect to.

use crate::text::{
    before_first, before_first_chars, chars_of, concat_chars, contains_char, is_ws,
    lemma_prefix_len, lemma_prefix_len_bound, lemma_trim_end_prefix, starts_with,
    starts_with_chars, string_of, strip_all_prefix, strip_all_prefix_chars, trim, trim_chars,
    trim_end, trim_start,
};
use vstd::prelude::*;

verus! {

/// The `host:port` that `endpoint` designates, if any.
///
/// Surrounding whitespace is ignored; any leading `https://` repetitions and
/// then `http://` repetitions are removed; the authority ends at the first
/// `/`, then at the first `?`, then at the first `#`, and is trimmed.  An
/// authority without `:` gets port 443 when the endpoint starts with
/// `https://` and port 4317 otherwise.
pub open spec fn spec_parse_host_port(endpoint: Seq<char>) -> Option<Seq<char>> {
    let raw = trim(endpoint);
    let without_scheme = strip_all_prefix(strip_all_prefix(raw, "https://"@), "http://"@);
    let authority = trim(
        before_first(before_first(before_first(without_scheme, '/'), '?'), '#'),
    );
    if authority.len() == 0 {
        None
    } else if authority.contains(':') {
        Some(authority)
    } else if starts_with(raw, "https://"@) {
        Some(authority + ":443"@)
    } else {
        Some(authority + ":4317"@)
    }
}

/// Extracts `host:port` from `endpoint`.
pub fn parse_host_port(endpoint: &str) -> (r: Option<String>)
    ensures
        match r {
            Some(addr) => spec_parse_host_port(endpoint@) == Some(addr@),
            None => spec_parse_host_port(endpoint@) is None,
        },
{
    let chars = chars_of(endpoint);
    let raw = trim_chars(&chars);
    let https = chars_of("https://");
    let http = chars_of("http://");
    let no_https = strip_all_prefix_chars(&raw, &https);
    let without_scheme = strip_all_prefix_chars(&no_https, &http);
    let path_cut = before_first_chars(&without_scheme, '/');
    let query_cut = before_first_chars(&path_cut, '?');
    let fragment_cut = before_first_chars(&query_cut, '#');
    let authority = trim_chars(&fragment_cut);
    if authority.len() == 0 {
        return None;
    }
    if contains_char(&authority, ':') {
        return Some(string_of(&authority));
    }
    let port = if starts_with_chars(&raw, &https) {
        chars_of(":443")
    } else {
        chars_of(":4317")
    };
    let addr = concat_chars(&authority, &port);
    Some(string_of(&addr))
}

/// A character missing from `s` is missing from every part of it.
proof fn lemma_absent_in_subrange(s: Seq<char>, c: char, i: int, j: int)
    requires
        0 <= i <= j <= s.len(),
        !s.contains(c),
    ensures
        !s.subrange(i, j).contains(c),
{
    if s.subrange(i, j).contains(c) {
        let k = choose|k: int| 0 <= k < j - i && s.subrange(i, j)[k] == c;
        assert(s[i + k] == c);
    }
}

/// `trim_start(s)` is what is left of `s` after some leading characters.
proof fn lemma_trim_start_suffix(s: Seq<char>)
    ensures
        trim_start(s).len() <= s.len(),
        trim_start(s) == s.skip(s.len() - trim_start(s).len()),
    decreases s.len(),
{
    if s.len() > 0 && is_ws(s[0]) {
        lemma_trim_start_suffix(s.drop_first());
        let t = trim_start(s);
        assert(s.drop_first().skip(s.len() - 1 - t.len()) =~= s.skip(s.len() - t.len()));
    } else {
        assert(s.skip(0) =~= s);
    }
}

/// A character missing from `s` is missing from `trim(s)`.
proof fn lemma_absent_after_trim(s: Seq<char>, c: char)
    requires
        !s.contains(c),
    ensures
        !trim(s).contains(c),
{
    let t = trim_start(s);
    lemma_trim_start_suffix(s);
    lemma_absent_in_subrange(s, c, s.len() - t.len(), s.len() as int);
    assert(t =~= s.subrange(s.len() - t.len(), s.len() as int));
    lemma_trim_end_prefix(t);
    lemma_absent_in_subrange(t, c, 0, trim_end(t).len() as int);
}

/// `before_first(s, c)` holds no `c` and is a prefix of `s`.
proof fn lemma_before_first_prefix(s: Seq<char>, c: char)
    ensures
        before_first(s, c).len() <= s.len(),
        before_first(s, c) == s.subrange(0, before_first(s, c).len() as int),
        !before_first(s, c).contains(c),
{
    lemma_prefix_len_bound(s, c);
    let b = before_first(s, c);
    if b.contains(c) {
        let k = choose|k: int| 0 <= k < b.len() && b[k] == c;
        assert(s[k] == c);
    }
}

/// Whatever `endpoint` is, an address comes out as `host:port`: it holds a
/// `:`, and no `/`, `?` or `#` of a path, query or fragment.
pub proof fn lemma_parse_gives_host_and_port(endpoint: Seq<char>)
    ensures
        spec_parse_host_port(endpoint) matches Some(a) ==> a.contains(':') && !a.contains('/')
            && !a.contains('?') && !a.contains('#'),
{
    reveal_strlit(":443");
    reveal_strlit(":4317");
    let raw = trim(endpoint);
    let without_scheme = strip_all_prefix(strip_all_prefix(raw, "https://"@), "http://"@);
    let b1 = before_first(without_scheme, '/');
    let b2 = before_first(b1, '?');
    let b3 = before_first(b2, '#');
    let authority = trim(b3);
    lemma_before_first_prefix(without_scheme, '/');
    lemma_before_first_prefix(b1, '?');
    lemma_before_first_prefix(b2, '#');
    lemma_absent_in_subrange(b1, '/', 0, b2.len() as int);
    lemma_absent_in_subrange(b2, '/', 0, b3.len() as int);
    lemma_absent_in_subrange(b2, '?', 0, b3.len() as int);
    lemma_absent_after_trim(b3, '/');
    lemma_absent_after_trim(b3, '?');
    lemma_absent_after_trim(b3, '#');
    if authority.len() > 0 && !authority.contains(':') {
        let port = if starts_with(raw, "https://"@) {
            ":443"@
        } else {
            ":4317"@
        };
        let a = authority + port;
        assert(a[authority.len() as int] == ':');
        assert forall|c: char| c == '/' || c == '?' || c == '#' implies !a.contains(c) by {
            if a.contains(c) {
                let k = choose|k: int| 0 <= k < a.len() && a[k] == c;
                if k < authority.len() {
                    assert(authority[k] == c);
                } else {
                    assert(port[k - authority.len()] == c);
                }
            }
        }
    }
}

/// Trailing whitespace after a part that does not end with whitespace is
/// trimmed from the rest only.
proof fn lemma_trim_end_after(a: Seq<char>, b: Seq<char>)
    requires
        a.len() > 0,
        !is_ws(a.last()),
    ensures
        trim_end(a + b) == a + trim_end(b),
    decreases b.len(),
{
    if b.len() == 0 {
        assert(a + b =~= a);
        assert(a + trim_end(b) =~= a);
    } else if is_ws(b.last()) {
        assert((a + b).drop_last() =~= a + b.drop_last());
        lemma_trim_end_after(a, b.drop_last());
    }
}

/// Text whose part before the first `/` (or its end) holds no `:` starts
/// with neither scheme.
proof fn lemma_no_scheme(u: Seq<char>, m: int)
    requires
        0 <= m <= u.len(),
        forall|j: int| 0 <= j < m ==> u[j] != ':',
        m == u.len() || u[m] == '/',
    ensures
        !starts_with(u, "https://"@),
        !starts_with(u, "http://"@),
{
    reveal_strlit("https://");
    reveal_strlit("http://");
    if starts_with(u, "https://"@) {
        assert(u.subrange(0, 8)[5] == u[5]);
        assert(u.subrange(0, 8)[m] == u[m]);
    }
    if starts_with(u, "http://"@) {
        assert(u.subrange(0, 7)[4] == u[4]);
        assert(u.subrange(0, 7)[m] == u[m]);
    }
}

/// A host that names no port gets the default one, whatever path, query or
/// fragment follows it: 4317 for `http://` and for a bare host, 443 for
/// `https://`.  The host is a non-empty name with no whitespace at either
/// end and no `:`, `/`, `?` or `#`.
pub proof fn lemma_parse_default_port(host: Seq<char>, path: Seq<char>)
    requires
        host.len() > 0,
        !is_ws(host[0]),
        !is_ws(host.last()),
        !host.contains(':'),
        !host.contains('/'),
        !host.contains('?'),
        !host.contains('#'),
    ensures
        spec_parse_host_port("http://"@ + host + "/"@ + path) == Some(host + ":4317"@),
        spec_parse_host_port("https://"@ + host + "/"@ + path) == Some(host + ":443"@),
        spec_parse_host_port(host) == Some(host + ":4317"@),
{
    reveal_strlit("https://");
    reveal_strlit("http://");
    reveal_strlit("/");
    let slash = "/"@;
    assert forall|j: int| 0 <= j < host.len() implies host[j] != ':' && host[j] != '/' && host[j]
        != '?' && host[j] != '#' by {
        if host[j] == ':' {
            assert(host.contains(':'));
        }
        if host[j] == '/' {
            assert(host.contains('/'));
        }
        if host[j] == '?' {
            assert(host.contains('?'));
        }
        if host[j] == '#' {
            assert(host.contains('#'));
        }
    }
    // The host alone is its own authority.
    lemma_prefix_len(host, '?', host.len());
    lemma_prefix_len(host, '#', host.len());
    lemma_prefix_len(host, '/', host.len());
    assert(host.take(host.len() as int) =~= host);
    assert(trim_start(host) == host);
    assert(trim_end(host) == host);
    assert(trim(host) == host);
    // After the scheme: the host, then `/` and the trimmed path.
    let tp = trim_end(path);
    let rest = host + slash + tp;
    assert(rest[host.len() as int] == '/');
    assert forall|j: int| 0 <= j < host.len() implies rest[j] != ':' by {
        assert(rest[j] == host[j]);
    }
    lemma_no_scheme(rest, host.len() as int);
    lemma_no_scheme(host, host.len() as int);
    assert forall|j: int| 0 <= j < host.len() implies rest[j] != '/' by {
        assert(rest[j] == host[j]);
    }
    lemma_prefix_len(rest, '/', host.len());
    assert(rest.take(host.len() as int) =~= host);
    // http://
    let e1 = "http://"@ + host + slash + path;
    lemma_trim_end_after("http://"@ + host + slash, path);
    assert(trim_start(e1) == e1);
    let raw1 = trim(e1);
    assert(raw1 =~= "http://"@ + rest);
    assert(!starts_with(raw1, "https://"@)) by {
        assert(raw1.subrange(0, 8)[4] == ':');
    }
    assert(starts_with(raw1, "http://"@)) by {
        assert(raw1.subrange(0, 7) =~= "http://"@);
    }
    assert(raw1.skip(7) =~= rest);
    assert(strip_all_prefix(raw1, "http://"@) == strip_all_prefix(rest, "http://"@));
    // https://
    let e2 = "https://"@ + host + slash + path;
    lemma_trim_end_after("https://"@ + host + slash, path);
    assert(trim_start(e2) == e2);
    let raw2 = trim(e2);
    assert(raw2 =~= "https://"@ + rest);
    assert(starts_with(raw2, "https://"@)) by {
        assert(raw2.subrange(0, 8) =~= "https://"@);
    }
    assert(raw2.skip(8) =~= rest);
    assert(strip_all_prefix(raw2, "https://"@) == strip_all_prefix(rest, "https://"@));
}

/// The positions in `is_ipv4` whose flag is `want`, in order.
pub open spec fn positions_where(is_ipv4: Seq<bool>, want: bool) -> Seq<usize>
    decreases is_ipv4.len(),
{
    if is_ipv4.len() == 0 {
        seq![]
    } else {
        positions_where(is_ipv4.drop_last(), want) + if is_ipv4.last() == want {
            seq![(is_ipv4.len() - 1) as usize]
        } else {
            seq![]
        }
    }
}

fn append_positions(out: &mut Vec<usize>, is_ipv4: &Vec<bool>, want: bool)
    ensures
        final(out)@ == old(out)@ + positions_where(is_ipv4@, want),
{
    let ghost start = out@;
    let mut i: usize = 0;
    while i < is_ipv4.len()
        invariant
            i <= is_ipv4.len(),
            out@ == start + positions_where(is_ipv4@.take(i as int), want),
        decreases is_ipv4.len() - i,
    {
        proof {
            assert(is_ipv4@.take(i + 1).drop_last() =~= is_ipv4@.take(i as int));
        }
        if is_ipv4[i] == want {
            out.push(i);
        }
        proof {
            assert(out@ =~= start + positions_where(is_ipv4@.take(i + 1), want));
        }
        i = i + 1;
    }
    assert(is_ipv4@.take(is_ipv4.len() as int) =~= is_ipv4@);
}

/// The order in which to try resolved addresses, given whether each one is
/// IPv4: every IPv4 address first, then the others, each group in its
/// resolved order (a stable sort on "is not IPv4"), so that hosts without
/// IPv6 connectivity do not hang on an IPv6 address.
pub fn reachability_order(is_ipv4: &Vec<bool>) -> (order: Vec<usize>)
    ensures
        order@ == ipv4_first(is_ipv4@),
{
    let mut order: Vec<usize> = Vec::new();
    append_positions(&mut order, is_ipv4, true);
    append_positions(&mut order, is_ipv4, false);
    order
}

proof fn lemma_positions_where(f: Seq<bool>, want: bool)
    requires
        f.len() <= usize::MAX,
    ensures
        forall|k: int|
            0 <= k < positions_where(f, want).len() ==> (#[trigger] positions_where(f, want)[k])
                < f.len() && f[positions_where(f, want)[k] as int] == want,
        forall|i: int| 0 <= i < f.len() && f[i] == want ==> positions_where(f, want).contains(i as usize),
        positions_where(f, true).len() + positions_where(f, false).len() == f.len(),
    decreases f.len(),
{
    if f.len() > 0 {
        let d = f.drop_last();
        lemma_positions_where(d, want);
        lemma_positions_where(d, !want);
        let p = positions_where(d, want);
        let w = positions_where(f, want);
        assert forall|k: int| 0 <= k < w.len() implies (#[trigger] w[k]) < f.len() && f[w[k] as int]
            == want by {
            if k < p.len() {
                assert(w[k] == p[k]);
                assert(f[p[k] as int] == d[p[k] as int]);
            }
        }
        assert forall|i: int| 0 <= i < f.len() && f[i] == want implies w.contains(i as usize) by {
            if i < f.len() - 1 {
                assert(d[i] == f[i]);
                let k = choose|k: int| 0 <= k < p.len() && p[k] == i as usize;
                assert(w[k] == p[k]);
            } else {
                assert(w[w.len() - 1] == i as usize);
            }
        }
    }
}

/// The order in which resolved addresses are tried.
pub open spec fn ipv4_first(is_ipv4: Seq<bool>) -> Seq<usize> {
    positions_where(is_ipv4, true) + positions_where(is_ipv4, false)
}

/// Every resolved address is tried: the order lists as many positions as
/// there are addresses, each position is one of them, every position
/// appears, and no IPv6 address comes before an IPv4 one.
pub proof fn lemma_reachability_order_tries_every_address(is_ipv4: Seq<bool>)
    requires
        is_ipv4.len() <= usize::MAX,
    ensures
        ipv4_first(is_ipv4).len() == is_ipv4.len(),
        forall|k: int|
            0 <= k < ipv4_first(is_ipv4).len() ==> (#[trigger] ipv4_first(is_ipv4)[k])
                < is_ipv4.len(),
        forall|i: int|
            0 <= i < is_ipv4.len() ==> #[trigger] ipv4_first(is_ipv4).contains(i as usize),
        forall|a: int, b: int|
            #![trigger ipv4_first(is_ipv4)[a], ipv4_first(is_ipv4)[b]]
            0 <= a < b < ipv4_first(is_ipv4).len() && !is_ipv4[ipv4_first(is_ipv4)[a] as int]
                ==> !is_ipv4[ipv4_first(is_ipv4)[b] as int],
{
    lemma_positions_where(is_ipv4, true);
    lemma_positions_where(is_ipv4, false);
    let t = positions_where(is_ipv4, true);
    let f = positions_where(is_ipv4, false);
    let order = ipv4_first(is_ipv4);
    assert(order == t + f);
    assert forall|k: int| 0 <= k < order.len() implies (#[trigger] order[k]) < is_ipv4.len() by {
        if k < t.len() {
            assert(order[k] == t[k]);
        } else {
            assert(order[k] == f[k - t.len()]);
        }
    }
    assert forall|i: int| 0 <= i < is_ipv4.len() implies #[trigger] ipv4_first(is_ipv4).contains(i as usize) by {
        if is_ipv4[i] {
            let k = choose|k: int| 0 <= k < t.len() && t[k] == i as usize;
            assert(order[k] == t[k]);
        } else {
            let k = choose|k: int| 0 <= k < f.len() && f[k] == i as usize;
            assert(order[t.len() + k] == f[k]);
        }
        assert(ipv4_first(is_ipv4).contains(i as usize));
    }
    assert forall|a: int, b: int|
        0 <= a < b < order.len() && !is_ipv4[order[a] as int] implies !is_ipv4[order[b] as int] by {
        if a < t.len() {
            assert(order[a] == t[a]);
            assert(is_ipv4[t[a] as int]);
        }
        assert(b >= t.len());
        assert(order[b] == f[b - t.len()]);
        assert(!is_ipv4[f[b - t.len()] as int]);
    }
    assert(order.len() == is_ipv4.len());
}

} // verus!
