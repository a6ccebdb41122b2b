use crate::config::view_opt_str;
use crate::strutil::{
    contains_char, find_last, has_char, rfind_char, split_on, split_str, trim_brackets,
    trim_brackets_str,
};
use vstd::prelude::*;
use vstd::string::*;

verus! {

// ------------------------------------------------------------------
// IPv4 literals
// ------------------------------------------------------------------

pub open spec fn is_digit(c: char) -> bool {
    '0' <= c && c <= '9'
}

pub open spec fn digit_val(c: char) -> int {
    c as u32 - '0' as u32
}

pub open spec fn all_digits(s: Seq<char>) -> bool {
    forall|i: int| 0 <= i < s.len() ==> is_digit(s[i])
}

/// The decimal value of a digit string.
pub open spec fn dec_val(s: Seq<char>) -> int
    decreases s.len(),
{
    if s.len() == 0 {
        0
    } else {
        dec_val(s.drop_last()) * 10 + digit_val(s.last())
    }
}

/// One decimal octet of a dotted quad: one to three digits, no
/// leading zero, value at most 255.
pub open spec fn is_dec_octet(s: Seq<char>) -> bool {
    1 <= s.len() <= 3 && all_digits(s) && (s[0] == '0' ==> s.len() == 1) && dec_val(s) <= 255
}

/// An IPv4 literal: exactly four dot-separated decimal octets.
pub open spec fn is_ipv4_literal(s: Seq<char>) -> bool {
    let ps = split_on(s, '.');
    ps.len() == 4 && (forall|i: int| 0 <= i < 4 ==> is_dec_octet(ps[i]))
}

fn digit_char(c: char) -> (r: bool)
    ensures
        r == is_digit(c),
{
    '0' <= c && c <= '9'
}

fn is_dec_octet_str(p: &str) -> (r: bool)
    ensures
        r == is_dec_octet(p@),
{
    let n: usize = p.unicode_len();
    if n < 1 || n > 3 {
        return false;
    }
    let mut i: usize = 0;
    while i < n
        invariant
            0 <= i <= n,
            n == p@.len(),
            forall|m: int| 0 <= m < i ==> is_digit(p@[m]),
        decreases n - i,
    {
        if !digit_char(p.get_char(i)) {
            return false;
        }
        i = i + 1;
    }
    if p.get_char(0) == '0' && n != 1 {
        return false;
    }
    let d0: u32 = p.get_char(0) as u32 - '0' as u32;
    let val: u32;
    if n == 1 {
        val = d0;
        proof {
            assert(p@.drop_last() =~= p@.take(0));
            assert(dec_val(p@.take(0)) == 0);
            assert(dec_val(p@) == digit_val(p@[0]));
        }
    } else if n == 2 {
        let d1: u32 = p.get_char(1) as u32 - '0' as u32;
        val = d0 * 10 + d1;
        proof {
            assert(p@.take(1).drop_last() =~= p@.take(0));
            assert(p@.take(1).last() == p@[0]);
            assert(dec_val(p@.take(0)) == 0);
            assert(dec_val(p@.take(1)) == digit_val(p@[0]));
            assert(p@.drop_last() =~= p@.take(1));
            assert(dec_val(p@) == digit_val(p@[0]) * 10 + digit_val(p@[1]));
        }
    } else {
        let d1: u32 = p.get_char(1) as u32 - '0' as u32;
        let d2: u32 = p.get_char(2) as u32 - '0' as u32;
        val = d0 * 100 + d1 * 10 + d2;
        proof {
            assert(p@.take(1).drop_last() =~= p@.take(0));
            assert(p@.take(1).last() == p@[0]);
            assert(dec_val(p@.take(0)) == 0);
            assert(dec_val(p@.take(1)) == digit_val(p@[0]));
            assert(p@.take(2).drop_last() =~= p@.take(1));
            assert(p@.take(2).last() == p@[1]);
            assert(dec_val(p@.take(2)) == digit_val(p@[0]) * 10 + digit_val(p@[1]));
            assert(p@.drop_last() =~= p@.take(2));
            assert(dec_val(p@) == dec_val(p@.take(2)) * 10 + digit_val(p@[2]));
        }
    }
    proof {
        assert(dec_val(p@) == val);
    }
    val <= 255
}

pub fn is_ipv4_literal_str(p: &str) -> (r: bool)
    ensures
        r == is_ipv4_literal(p@),
{
    let ps = split_str(p, '.');
    let n: usize = ps.len();
    proof {
        assert(ps.deep_view().len() == n);
    }
    if n != 4 {
        return false;
    }
    let mut i: usize = 0;
    while i < 4
        invariant
            0 <= i <= 4,
            ps.len() == 4,
            ps.deep_view() == split_on(p@, '.'),
            ps.deep_view().len() == 4,
            forall|m: int| 0 <= m < i ==> is_dec_octet(ps.deep_view()[m]),
        decreases 4 - i,
    {
        proof {
            assert(ps.deep_view()[i as int] == ps@[i as int]@);
        }
        if !is_dec_octet_str(ps[i].as_str()) {
            return false;
        }
        i = i + 1;
    }
    true
}

// ------------------------------------------------------------------
// IPv6 literals
// ------------------------------------------------------------------

pub open spec fn is_hex_digit(c: char) -> bool {
    is_digit(c) || ('a' <= c && c <= 'f') || ('A' <= c && c <= 'F')
}

/// One colon-separated group: one to four hexadecimal digits.
pub open spec fn is_hex_group(s: Seq<char>) -> bool {
    1 <= s.len() <= 4 && (forall|i: int| 0 <= i < s.len() ==> is_hex_digit(s[i]))
}

pub open spec fn all_hex_range(ps: Seq<Seq<char>>, a: int, b: int) -> bool {
    forall|i: int| a <= i < b ==> is_hex_group(ps[i])
}

pub open spec fn nonempty_range(ps: Seq<Seq<char>>, a: int, b: int) -> bool {
    forall|i: int| a <= i < b ==> ps[i].len() > 0
}

/// Group count of the pieces from `b` on; an embedded IPv4 quad in
/// last position stands for two groups.
pub open spec fn tail_units(ps: Seq<Seq<char>>, b: int) -> int {
    let n = ps.len() as int;
    if b < n && is_ipv4_literal(ps[n - 1]) {
        n - b + 1
    } else {
        n - b
    }
}

/// The pieces after a `::`: hexadecimal groups, of which the last
/// may instead be an embedded IPv4 quad.
pub open spec fn tail_ok(ps: Seq<Seq<char>>, b: int) -> bool {
    let n = ps.len() as int;
    b >= n || (all_hex_range(ps, b, n - 1) && (is_hex_group(ps[n - 1]) || is_ipv4_literal(
        ps[n - 1],
    )))
}

/// A `::`-compressed address: hexadecimal groups before the
/// compression (the first `a` pieces), a well-formed tail from
/// piece `b` on, and at most seven groups in all, so that the
/// compression stands for at least one zero group.
pub open spec fn compressed_ok(ps: Seq<Seq<char>>, a: int, b: int) -> bool {
    all_hex_range(ps, 0, a) && tail_ok(ps, b) && a + tail_units(ps, b) <= 7
}

/// Index of the first empty piece, or -1.
pub open spec fn first_empty(ps: Seq<Seq<char>>) -> int
    decreases ps.len(),
{
    if ps.len() == 0 {
        -1
    } else if ps[0].len() == 0 {
        0
    } else {
        let r = first_empty(ps.skip(1));
        if r < 0 {
            -1
        } else {
            r + 1
        }
    }
}

pub proof fn lemma_first_empty_at(ps: Seq<Seq<char>>, k: int)
    requires
        0 <= k <= ps.len(),
        forall|j: int| 0 <= j < k ==> ps[j].len() > 0,
        k < ps.len() ==> ps[k].len() == 0,
    ensures
        first_empty(ps) == if k < ps.len() {
            k
        } else {
            -1
        },
    decreases k,
{
    if k == 0 {
    } else {
        assert(ps[0].len() > 0);
        lemma_first_empty_at(ps.skip(1), k - 1);
    }
}

/// How the colon-separated pieces of an IPv6 literal may look:
/// eight groups without compression (seven when the last piece is
/// an embedded IPv4 quad), or one `::`, written as a leading,
/// trailing or interior pair of empty pieces, with at most seven
/// groups around it; `::` alone is the unspecified address.
pub open spec fn ipv6_pieces_ok(ps: Seq<Seq<char>>) -> bool {
    let n = ps.len() as int;
    let j = first_empty(ps);
    if j < 0 {
        (n == 8 && all_hex_range(ps, 0, 8)) || (n == 7 && all_hex_range(ps, 0, 6)
            && is_ipv4_literal(ps[6]))
    } else if j == 0 {
        n >= 3 && ps[1].len() == 0 && ((n == 3 && ps[2].len() == 0) || (nonempty_range(ps, 2, n)
            && compressed_ok(ps, 0, 2)))
    } else if j == n - 2 && ps[n - 1].len() == 0 {
        compressed_ok(ps, n - 2, n)
    } else if 0 < j < n - 1 {
        nonempty_range(ps, j + 1, n) && compressed_ok(ps, j, j + 1)
    } else {
        false
    }
}

/// An IPv6 literal as the host of an endpoint may carry one.
pub open spec fn is_ipv6_literal(s: Seq<char>) -> bool {
    contains_char(s, ':') && ipv6_pieces_ok(split_on(s, ':'))
}

fn hex_digit_char(c: char) -> (r: bool)
    ensures
        r == is_hex_digit(c),
{
    ('0' <= c && c <= '9') || ('a' <= c && c <= 'f') || ('A' <= c && c <= 'F')
}

fn is_hex_group_str(p: &str) -> (r: bool)
    ensures
        r == is_hex_group(p@),
{
    let n: usize = p.unicode_len();
    if n < 1 || n > 4 {
        return false;
    }
    let mut i: usize = 0;
    while i < n
        invariant
            0 <= i <= n,
            n == p@.len(),
            forall|m: int| 0 <= m < i ==> is_hex_digit(p@[m]),
        decreases n - i,
    {
        if !hex_digit_char(p.get_char(i)) {
            return false;
        }
        i = i + 1;
    }
    true
}

fn all_hex_range_str(ps: &Vec<String>, a: usize, b: usize) -> (r: bool)
    requires
        a <= b,
        b <= ps.len(),
    ensures
        r == all_hex_range(ps.deep_view(), a as int, b as int),
{
    let mut i: usize = a;
    while i < b
        invariant
            a <= i <= b,
            b <= ps.len(),
            ps.deep_view().len() == ps.len(),
            forall|m: int| a <= m < i ==> is_hex_group(ps.deep_view()[m]),
        decreases b - i,
    {
        proof {
            assert(ps.deep_view()[i as int] == ps@[i as int]@);
        }
        if !is_hex_group_str(ps[i].as_str()) {
            return false;
        }
        i = i + 1;
    }
    true
}

fn nonempty_range_str(ps: &Vec<String>, a: usize, b: usize) -> (r: bool)
    requires
        a <= b,
        b <= ps.len(),
    ensures
        r == nonempty_range(ps.deep_view(), a as int, b as int),
{
    let mut i: usize = a;
    while i < b
        invariant
            a <= i <= b,
            b <= ps.len(),
            ps.deep_view().len() == ps.len(),
            forall|m: int| a <= m < i ==> ps.deep_view()[m].len() > 0,
        decreases b - i,
    {
        proof {
            assert(ps.deep_view()[i as int] == ps@[i as int]@);
        }
        if ps[i].as_str().unicode_len() == 0 {
            return false;
        }
        i = i + 1;
    }
    true
}

fn first_empty_str(ps: &Vec<String>) -> (r: Option<usize>)
    ensures
        match r {
            Some(i) => first_empty(ps.deep_view()) == i as int && (i as int)
                < ps.deep_view().len(),
            None => first_empty(ps.deep_view()) == -1,
        },
{
    let n: usize = ps.len();
    let mut i: usize = 0;
    while i < n
        invariant
            0 <= i <= n,
            n == ps.len(),
            ps.deep_view().len() == n,
            forall|m: int| 0 <= m < i ==> ps.deep_view()[m].len() > 0,
        decreases n - i,
    {
        proof {
            assert(ps.deep_view()[i as int] == ps@[i as int]@);
        }
        if ps[i].as_str().unicode_len() == 0 {
            proof {
                lemma_first_empty_at(ps.deep_view(), i as int);
            }
            return Some(i);
        }
        i = i + 1;
    }
    proof {
        lemma_first_empty_at(ps.deep_view(), n as int);
    }
    None
}

fn compressed_str(ps: &Vec<String>, a: usize, b: usize) -> (r: bool)
    requires
        a <= ps.len(),
        b <= ps.len(),
        ps.len() <= 9,
    ensures
        r == compressed_ok(ps.deep_view(), a as int, b as int),
{
    let n: usize = ps.len();
    proof {
        assert(ps.deep_view().len() == n);
    }
    if !all_hex_range_str(ps, 0, a) {
        return false;
    }
    let mut units: usize = n - b;
    if b < n {
        proof {
            assert(ps.deep_view()[n as int - 1] == ps@[n as int - 1]@);
        }
        let last_v4 = is_ipv4_literal_str(ps[n - 1].as_str());
        if last_v4 {
            units = units + 1;
        }
        if !all_hex_range_str(ps, b, n - 1) {
            return false;
        }
        if !last_v4 && !is_hex_group_str(ps[n - 1].as_str()) {
            return false;
        }
    }
    a + units <= 7
}

pub fn is_ipv6_literal_str(s: &str) -> (r: bool)
    ensures
        r == is_ipv6_literal(s@),
{
    if !has_char(s, ':') {
        return false;
    }
    let ps = split_str(s, ':');
    let n: usize = ps.len();
    let ghost dv = ps.deep_view();
    proof {
        assert(dv.len() == n);
    }
    if n > 9 {
        return false;
    }
    match first_empty_str(&ps) {
        Option::None => {
            if n == 8 {
                all_hex_range_str(&ps, 0, 8)
            } else if n == 7 {
                proof {
                    assert(dv[6] == ps@[6]@);
                }
                if all_hex_range_str(&ps, 0, 6) {
                    is_ipv4_literal_str(ps[6].as_str())
                } else {
                    false
                }
            } else {
                false
            }
        },
        Option::Some(j) => {
            if j == 0 {
                if n >= 3 && ps[1].as_str().unicode_len() == 0 {
                    proof {
                        assert(dv[1] == ps@[1]@);
                        assert(dv[2] == ps@[2]@);
                    }
                    if n == 3 && ps[2].as_str().unicode_len() == 0 {
                        true
                    } else if nonempty_range_str(&ps, 2, n) {
                        compressed_str(&ps, 0, 2)
                    } else {
                        false
                    }
                } else {
                    proof {
                        if n >= 2 {
                            assert(dv[1] == ps@[1]@);
                        }
                    }
                    false
                }
            } else if j + 2 == n && ps[n - 1].as_str().unicode_len() == 0 {
                proof {
                    assert(dv[n as int - 1] == ps@[n as int - 1]@);
                }
                compressed_str(&ps, n - 2, n)
            } else if j + 1 < n {
                proof {
                    assert(dv[n as int - 1] == ps@[n as int - 1]@);
                }
                if nonempty_range_str(&ps, j + 1, n) {
                    compressed_str(&ps, j, j + 1)
                } else {
                    false
                }
            } else {
                false
            }
        },
    }
}

// ------------------------------------------------------------------
// Domain extraction and the manifest URL
// ------------------------------------------------------------------

/// The host before the last `:` of the endpoint, brackets stripped;
/// a domain only when it is no IP literal, holds a dot, and neither
/// starts nor ends with one.
pub open spec fn extract_domain_spec(ep: Seq<char>) -> Option<Seq<char>> {
    let i = find_last(ep, ':');
    if i < 0 {
        Option::None
    } else {
        let host = trim_brackets(ep.take(i));
        if is_ipv4_literal(host) || is_ipv6_literal(host) {
            Option::None
        } else if contains_char(host, '.') && host[0] != '.' && host.last() != '.' {
            Option::Some(host)
        } else {
            Option::None
        }
    }
}

/// Extract the domain name out of a peer endpoint such as
/// `vpn.example.com:51820`. Endpoints without a port, IP-literal
/// hosts (bracketed or not) and single-label or malformed dotted
/// hosts give None.
pub fn extract_domain(endpoint: &str) -> (r: Option<String>)
    ensures
        view_opt_str(r) == extract_domain_spec(endpoint@),
{
    match rfind_char(endpoint, ':') {
        Option::None => None,
        Option::Some(i) => {
            let before = endpoint.substring_char(0, i);
            proof {
                assert(endpoint@.subrange(0, i as int) =~= endpoint@.take(i as int));
            }
            let host = trim_brackets_str(before);
            if is_ipv4_literal_str(host) || is_ipv6_literal_str(host) {
                None
            } else {
                let hn: usize = host.unicode_len();
                if has_char(host, '.') && host.get_char(0) != '.' && host.get_char(hn - 1) != '.' {
                    Some(host.to_owned())
                } else {
                    None
                }
            }
        },
    }
}

/// The fixed manifest location under a peer's domain:
/// `https://auto.<domain>/routes.json`.
pub open spec fn url_of(domain: Seq<char>) -> Seq<char> {
    "https://auto."@ + domain + "/routes.json"@
}

/// Derive the manifest URL from a peer's domain name.
pub fn manifest_url(domain: &str) -> (r: String)
    ensures
        r@ == url_of(domain@),
{
    let mut out = String::new();
    out.append("https://auto.");
    out.append(domain);
    out.append("/routes.json");
    out
}

} // verus!
