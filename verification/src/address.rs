//! The address grammar of the transport.
//!
//! A peer is named by a token of the form `host:port`. The grammar this
//! layer accepts is the dotted-quad form: `host` is four decimal octets
//! separated by dots, each octet at most 255 and without a leading zero
//! (`0` itself is allowed), and `port` is one to five decimal digits whose
//! value is at most 65535 (leading zeros are allowed). The grammar is
//! stated by recursive-descent specification functions; the executable
//! parsers are proved to decide it exactly.

use vstd::prelude::*;

verus! {

use vstd::string::StrSliceExecFns;

/// A resolved peer address: the four octets of the host and the port.
#[derive(Clone, Copy, Debug, PartialEq, Eq, Structural)]
pub struct PeerAddress {
    pub o0: u8,
    pub o1: u8,
    pub o2: u8,
    pub o3: u8,
    pub port: u16,
}

/// A decimal digit.
pub open spec fn is_digit(c: char) -> bool {
    48 <= c as int && c as int <= 57
}

/// The numeric value of a decimal digit.
pub open spec fn digit_val(c: char) -> int {
    c as int - 48
}

/// Every character of `s` is a decimal digit.
pub open spec fn all_digits(s: Seq<char>) -> bool {
    forall|i: int| 0 <= i < s.len() ==> is_digit(#[trigger] s[i])
}

/// The value of `s` read as a decimal numeral.
pub open spec fn digits_val(s: Seq<char>) -> int
    decreases s.len(),
{
    if s.len() == 0 {
        0
    } else {
        digits_val(s.drop_last()) * 10 + digit_val(s.last())
    }
}

/// Powers of ten, the bound on a numeral's value by its length.
pub open spec fn pow10(n: nat) -> int
    decreases n,
{
    if n == 0 {
        1
    } else {
        10 * pow10((n - 1) as nat)
    }
}

/// A numeral's value is non-negative and below ten to its length.
pub proof fn lemma_digits_val_bound(s: Seq<char>)
    requires
        all_digits(s),
    ensures
        0 <= digits_val(s) < pow10(s.len()),
    decreases s.len(),
{
    if s.len() > 0 {
        assert(all_digits(s.drop_last()));
        lemma_digits_val_bound(s.drop_last());
        assert(is_digit(s.last()));
    }
}

/// Reading one more digit multiplies the value by ten and adds the digit.
pub proof fn lemma_digits_val_push(s: Seq<char>, c: char)
    ensures
        digits_val(s.push(c)) == digits_val(s) * 10 + digit_val(c),
{
    assert(s.push(c).drop_last() =~= s);
    assert(s.push(c).last() == c);
}

/// The length of the run of decimal digits that starts at `from`.
pub open spec fn digit_run(s: Seq<char>, from: int) -> int
    decreases s.len() - from when 0 <= from <= s.len()
{
    if from < s.len() && is_digit(s[from]) {
        1 + digit_run(s, from + 1)
    } else {
        0
    }
}

/// `digit_run` is exactly the distance to the first non-digit.
pub proof fn lemma_digit_run_is(s: Seq<char>, from: int, k: int)
    requires
        0 <= from,
        from + k <= s.len(),
        0 <= k,
        forall|j: int| from <= j < from + k ==> is_digit(#[trigger] s[j]),
        from + k == s.len() || !is_digit(s[from + k]),
    ensures
        digit_run(s, from) == k,
    decreases k,
{
    if k == 0 {
    } else {
        assert(is_digit(s[from]));
        lemma_digit_run_is(s, from + 1, k - 1);
    }
}

/// An octet of a dotted-quad host, read at position `from`: one to three
/// digits, no leading zero unless the octet is `0` itself, value at most
/// 255. Yields the value and the position just past the octet.
pub open spec fn octet_at(s: Seq<char>, from: int) -> Option<(u8, int)> {
    let k = digit_run(s, from);
    if 0 <= from <= s.len() && 1 <= k <= 3 && (k == 1 || s[from] != '0')
        && digits_val(s.subrange(from, from + k)) <= 255 {
        Some((digits_val(s.subrange(from, from + k)) as u8, from + k))
    } else {
        None
    }
}

/// An octet that must be preceded by a dot at position `p`.
pub open spec fn dot_octet_at(s: Seq<char>, p: int) -> Option<(u8, int)> {
    if 0 <= p < s.len() && s[p] == '.' {
        octet_at(s, p + 1)
    } else {
        None
    }
}

/// A dotted-quad host read at position `from`: four octets separated by
/// dots. Yields the octets and the position just past the host.
pub open spec fn spec_parse_ipv4_at(s: Seq<char>, from: int) -> Option<((u8, u8, u8, u8), int)> {
    match octet_at(s, from) {
        Some((a, p1)) => match dot_octet_at(s, p1) {
            Some((b, p2)) => match dot_octet_at(s, p2) {
                Some((c, p3)) => match dot_octet_at(s, p3) {
                    Some((d, p4)) => Some(((a, b, c, d), p4)),
                    None => None,
                },
                None => None,
            },
            None => None,
        },
        None => None,
    }
}

/// A host string: a dotted quad and nothing after it.
pub open spec fn spec_parse_ipv4(s: Seq<char>) -> Option<(u8, u8, u8, u8)> {
    match spec_parse_ipv4_at(s, 0) {
        Some((q, end)) => if end == s.len() {
            Some(q)
        } else {
            None
        },
        None => None,
    }
}

/// A port string: one to five decimal digits, value at most 65535.
pub open spec fn spec_parse_port(s: Seq<char>) -> Option<u16> {
    if 1 <= s.len() <= 5 && all_digits(s) && digits_val(s) <= 65535 {
        Some(digits_val(s) as u16)
    } else {
        None
    }
}

/// A host/port pair resolved to a peer address.
pub open spec fn spec_resolve_host_port(host: Seq<char>, port: Seq<char>) -> Option<PeerAddress> {
    match (spec_parse_ipv4(host), spec_parse_port(port)) {
        (Some(q), Some(p)) => Some(
            PeerAddress { o0: q.0, o1: q.1, o2: q.2, o3: q.3, port: p },
        ),
        _ => None,
    }
}

/// An address token `host:port` resolved to a peer address: a dotted quad,
/// then a colon, then a port filling the rest of the token.
pub open spec fn spec_resolve_token(s: Seq<char>) -> Option<PeerAddress> {
    match spec_parse_ipv4_at(s, 0) {
        Some((q, p)) => if p < s.len() && s[p] == ':'
            && spec_parse_port(s.subrange(p + 1, s.len() as int)) is Some {
            Some(
                PeerAddress {
                    o0: q.0,
                    o1: q.1,
                    o2: q.2,
                    o3: q.3,
                    port: spec_parse_port(s.subrange(p + 1, s.len() as int)).unwrap(),
                },
            )
        } else {
            None
        },
        None => None,
    }
}

/// The split an address token resolves through: the host part before the
/// colon that follows the dotted quad, and the port part after it.
pub open spec fn spec_split_token(s: Seq<char>) -> Option<(Seq<char>, Seq<char>)> {
    match spec_parse_ipv4_at(s, 0) {
        Some((q, p)) => if p < s.len() && s[p] == ':' {
            Some((s.subrange(0, p), s.subrange(p + 1, s.len() as int)))
        } else {
            None
        },
        None => None,
    }
}

/// A digit run stays within the sequence, holds only digits, and ends at
/// the first non-digit.
proof fn lemma_digit_run_shape(s: Seq<char>, from: int)
    requires
        0 <= from <= s.len(),
    ensures
        0 <= digit_run(s, from),
        from + digit_run(s, from) <= s.len(),
        forall|j: int| from <= j < from + digit_run(s, from) ==> is_digit(#[trigger] s[j]),
        from + digit_run(s, from) == s.len() || !is_digit(s[from + digit_run(s, from)]),
    decreases s.len() - from,
{
    if from < s.len() && is_digit(s[from]) {
        lemma_digit_run_shape(s, from + 1);
    }
}

/// A digit run that ends by position `m` is unchanged when the sequence is
/// cut at `m`.
proof fn lemma_digit_run_prefix(s: Seq<char>, m: int, from: int)
    requires
        0 <= from <= m <= s.len(),
        from + digit_run(s, from) <= m,
    ensures
        digit_run(s.subrange(0, m), from) == digit_run(s, from),
{
    let t = s.subrange(0, m);
    let k = digit_run(s, from);
    lemma_digit_run_shape(s, from);
    assert(forall|j: int| from <= j < from + k ==> is_digit(#[trigger] t[j]));
    lemma_digit_run_is(t, from, k);
}

/// An octet that ends by position `m` is unchanged when the sequence is
/// cut at `m`.
proof fn lemma_octet_prefix(s: Seq<char>, m: int, from: int)
    requires
        0 <= from <= m <= s.len(),
        octet_at(s, from) matches Some((v, end)) && end <= m,
    ensures
        octet_at(s.subrange(0, m), from) == octet_at(s, from),
{
    let t = s.subrange(0, m);
    let k = digit_run(s, from);
    lemma_digit_run_prefix(s, m, from);
    assert(t.subrange(from, from + k) =~= s.subrange(from, from + k));
}

/// A dot-preceded octet that ends by position `m` is unchanged when the
/// sequence is cut at `m`.
proof fn lemma_dot_octet_prefix(s: Seq<char>, m: int, p: int)
    requires
        0 <= m <= s.len(),
        dot_octet_at(s, p) matches Some((v, end)) && end <= m,
    ensures
        dot_octet_at(s.subrange(0, m), p) == dot_octet_at(s, p),
{
    lemma_octet_prefix(s, m, p + 1);
}

/// A dotted-quad host that ends by position `m` is unchanged when the
/// sequence is cut at `m`.
proof fn lemma_ipv4_at_prefix(s: Seq<char>, m: int)
    requires
        0 <= m <= s.len(),
        spec_parse_ipv4_at(s, 0) matches Some((q, end)) && end <= m,
    ensures
        spec_parse_ipv4_at(s.subrange(0, m), 0) == spec_parse_ipv4_at(s, 0),
{
    if let Some((a, p1)) = octet_at(s, 0) {
        if let Some((b, p2)) = dot_octet_at(s, p1) {
            if let Some((c, p3)) = dot_octet_at(s, p2) {
                if let Some((d, p4)) = dot_octet_at(s, p3) {
                    lemma_octet_prefix(s, m, 0);
                    lemma_dot_octet_prefix(s, m, p1);
                    lemma_dot_octet_prefix(s, m, p2);
                    lemma_dot_octet_prefix(s, m, p3);
                }
            }
        }
    }
}

/// Resolver consistency: resolving an address token directly agrees with
/// splitting it into its host and port parts and resolving those. In
/// particular the host part of a split token parses as exactly the dotted
/// quad the token was read with.
pub proof fn lemma_split_token_resolves(s: Seq<char>)
    ensures
        spec_split_token(s) matches Some((h, p)) ==> spec_resolve_token(s)
            == spec_resolve_host_port(h, p),
        spec_split_token(s) is None ==> spec_resolve_token(s) is None,
{
    if let Some((q, pc)) = spec_parse_ipv4_at(s, 0) {
        if pc < s.len() && s[pc] == ':' {
            lemma_ipv4_at_prefix(s, pc);
            assert(s.subrange(0, pc).len() == pc);
        }
    }
}

/// Whether `c` is a decimal digit.
fn is_digit_exec(c: char) -> (r: bool)
    ensures
        r == is_digit(c),
{
    let d = c as u32;
    48 <= d && d <= 57
}

/// Reads the digit run starting at `from` and returns the position just
/// past it.
fn scan_digits(s: &str, from: usize) -> (end: usize)
    requires
        from <= s@.len(),
    ensures
        from <= end <= s@.len(),
        digit_run(s@, from as int) == end - from,
        forall|j: int| from <= j < end ==> is_digit(#[trigger] s@[j]),
        end < s@.len() ==> !is_digit(s@[end as int]),
{
    let n = s.unicode_len();
    let mut i = from;
    while i < n && is_digit_exec(s.get_char(i))
        invariant
            from <= i <= n,
            n == s@.len(),
            forall|j: int| from <= j < i ==> is_digit(#[trigger] s@[j]),
        decreases n - i,
    {
        i = i + 1;
    }
    proof {
        lemma_digit_run_is(s@, from as int, i - from);
    }
    i
}

/// The value of the all-digit range `[from, to)` of `s`.
fn digits_value(s: &str, from: usize, to: usize) -> (v: u32)
    requires
        from <= to <= s@.len(),
        to - from <= 5,
        forall|j: int| from <= j < to ==> is_digit(#[trigger] s@[j]),
    ensures
        v == digits_val(s@.subrange(from as int, to as int)),
        v <= 99999,
{
    let mut v: u32 = 0;
    let mut i = from;
    proof {
        assert(s@.subrange(from as int, from as int) =~= Seq::<char>::empty());
    }
    while i < to
        invariant
            from <= i <= to <= s@.len(),
            to - from <= 5,
            forall|j: int| from <= j < to ==> is_digit(#[trigger] s@[j]),
            v == digits_val(s@.subrange(from as int, i as int)),
            v < pow10((i - from) as nat),
        decreases to - i,
    {
        let c = s.get_char(i);
        let d = c as u32;
        proof {
            let pre = s@.subrange(from as int, i as int);
            assert(is_digit(s@[i as int]));
            lemma_digits_val_push(pre, s@[i as int]);
            assert(s@.subrange(from as int, i as int + 1) =~= pre.push(s@[i as int]));
            assert(pow10(((i + 1) - from) as nat) == 10 * pow10((i - from) as nat));
            reveal_with_fuel(pow10, 6);
            assert(pow10(5nat) == 100000);
            assert(pow10((i - from) as nat) <= pow10(4nat)) by {
                lemma_pow10_le((i - from) as nat, 4nat);
            }
        }
        v = v * 10 + (d - 48);
        i = i + 1;
    }
    proof {
        assert(pow10((i - from) as nat) <= pow10(5nat)) by {
            lemma_pow10_le((i - from) as nat, 5nat);
        }
        reveal_with_fuel(pow10, 6);
        assert(pow10(5nat) == 100000);
    }
    v
}

/// Powers of ten grow with the exponent.
proof fn lemma_pow10_le(a: nat, b: nat)
    requires
        a <= b,
    ensures
        pow10(a) <= pow10(b),
    decreases b,
{
    if a < b {
        lemma_pow10_le(a, (b - 1) as nat);
        assert(pow10((b - 1) as nat) >= 1) by {
            lemma_pow10_pos((b - 1) as nat);
        }
    }
}

/// Powers of ten are positive.
proof fn lemma_pow10_pos(n: nat)
    ensures
        pow10(n) >= 1,
    decreases n,
{
    if n > 0 {
        lemma_pow10_pos((n - 1) as nat);
    }
}

/// Reads one octet at `from`, returning its value and the position just
/// past it, exactly as the grammar defines it.
fn read_octet(s: &str, from: usize) -> (r: Option<(u8, usize)>)
    requires
        from <= s@.len(),
    ensures
        r matches Some((v, p)) ==> octet_at(s@, from as int) == Some((v, p as int)) && p
            <= s@.len(),
        r is None ==> octet_at(s@, from as int) is None,
{
    let end = scan_digits(s, from);
    let k = end - from;
    if k < 1 || k > 3 {
        return None;
    }
    if k > 1 && s.get_char(from) == '0' {
        return None;
    }
    let v = digits_value(s, from, end);
    proof {
        lemma_digits_val_bound(s@.subrange(from as int, end as int));
    }
    if v > 255 {
        return None;
    }
    Some((v as u8, end))
}

/// Reads a dot and then one octet at `p`.
fn read_dot_octet(s: &str, p: usize) -> (r: Option<(u8, usize)>)
    requires
        p <= s@.len(),
    ensures
        r matches Some((v, q)) ==> dot_octet_at(s@, p as int) == Some((v, q as int)) && q
            <= s@.len(),
        r is None ==> dot_octet_at(s@, p as int) is None,
{
    let n = s.unicode_len();
    if p >= n || s.get_char(p) != '.' {
        return None;
    }
    read_octet(s, p + 1)
}

/// Reads a dotted-quad host at `from`, returning the octets and the
/// position just past them.
fn read_ipv4_at(s: &str, from: usize) -> (r: Option<((u8, u8, u8, u8), usize)>)
    requires
        from <= s@.len(),
    ensures
        r matches Some((q, p)) ==> spec_parse_ipv4_at(s@, from as int) == Some((q, p as int))
            && p <= s@.len(),
        r is None ==> spec_parse_ipv4_at(s@, from as int) is None,
{
    let (a, p1) = match read_octet(s, from) {
        Some(x) => x,
        None => {
            return None;
        },
    };
    let (b, p2) = match read_dot_octet(s, p1) {
        Some(x) => x,
        None => {
            return None;
        },
    };
    let (c, p3) = match read_dot_octet(s, p2) {
        Some(x) => x,
        None => {
            return None;
        },
    };
    let (d, p4) = match read_dot_octet(s, p3) {
        Some(x) => x,
        None => {
            return None;
        },
    };
    Some(((a, b, c, d), p4))
}

/// Parses a dotted-quad host string, deciding the host grammar exactly.
pub fn parse_ipv4(s: &str) -> (r: Option<(u8, u8, u8, u8)>)
    ensures
        r == spec_parse_ipv4(s@),
{
    let n = s.unicode_len();
    match read_ipv4_at(s, 0) {
        Some((q, end)) => if end == n {
            Some(q)
        } else {
            None
        },
        None => None,
    }
}

/// Parses a port string, deciding the port grammar exactly.
pub fn parse_port(s: &str) -> (r: Option<u16>)
    ensures
        r == spec_parse_port(s@),
{
    let n = s.unicode_len();
    if n < 1 || n > 5 {
        return None;
    }
    let end = scan_digits(s, 0);
    if end < n {
        proof {
            assert(!is_digit(s@[end as int]));
        }
        return None;
    }
    let v = digits_value(s, 0, n);
    proof {
        assert(s@.subrange(0, n as int) =~= s@);
    }
    if v > 65535 {
        None
    } else {
        Some(v as u16)
    }
}

/// Resolves a host string and a port string to a peer address; `None` when
/// either breaks the grammar.
pub fn resolve_host_port(host: &str, port: &str) -> (r: Option<PeerAddress>)
    ensures
        r == spec_resolve_host_port(host@, port@),
{
    let q = match parse_ipv4(host) {
        Some(q) => q,
        None => {
            return None;
        },
    };
    let p = match parse_port(port) {
        Some(p) => p,
        None => {
            return None;
        },
    };
    Some(PeerAddress { o0: q.0, o1: q.1, o2: q.2, o3: q.3, port: p })
}

/// Resolves an address token `host:port` to a peer address; `None` when
/// the token breaks the grammar.
pub fn resolve_token(token: &str) -> (r: Option<PeerAddress>)
    ensures
        r == spec_resolve_token(token@),
{
    let n = token.unicode_len();
    let (q, p) = match read_ipv4_at(token, 0) {
        Some(x) => x,
        None => {
            return None;
        },
    };
    if p >= n || token.get_char(p) != ':' {
        return None;
    }
    let port_part = token.substring_char(p + 1, n);
    let port = match parse_port(port_part) {
        Some(v) => v,
        None => {
            return None;
        },
    };
    Some(PeerAddress { o0: q.0, o1: q.1, o2: q.2, o3: q.3, port })
}

/// Splits an address token into its host and port parts: the resolver
/// interface the broadcast path consumes. `None` when the token breaks
/// the grammar.
pub fn parse_ip_address(token: &str) -> (r: Option<(&str, &str)>)
    ensures
        r matches Some((h, p)) ==> spec_split_token(token@) == Some((h@, p@)),
        r is None ==> spec_split_token(token@) is None,
{
    let n = token.unicode_len();
    let (_q, p) = match read_ipv4_at(token, 0) {
        Some(x) => x,
        None => {
            return None;
        },
    };
    if p >= n || token.get_char(p) != ':' {
        return None;
    }
    let host = token.substring_char(0, p);
    let port = token.substring_char(p + 1, n);
    Some((host, port))
}

} // verus!
