//! The address grammar shared by node records and dial targets.
//!
//! An address is one of:
//! - `<ip>:<port>` — a dotted-quad IPv4 address, or a bracketed IPv6
//!   address of colon-separated hex groups with at most one `::`
//!   compression, a trailing dotted quad standing for the last two
//!   groups, and an optional numeric `%scope` id — then a decimal port,
//!   which may carry leading zeros,
//! - `unix:<path>` — an explicit Unix-domain socket path,
//! - `/<path>` — an implicit filesystem-path Unix socket,
//! - `@<name>` — an implicit abstract Unix socket.
//!
//! An address may not embed a terminator character: neither NUL, which the
//! platform's socket interfaces cannot carry, nor a line break, which the
//! snapshot format reserves as its record separator.

use vstd::prelude::*;
use vstd::string::StrSliceExecFns;

verus! {

/// The position of the first occurrence of `c` at or after `i`, or the
/// length of `t` if `c` does not occur there.
pub open spec fn find_char(t: Seq<char>, c: char, i: int) -> int
    decreases t.len() - i,
{
    if i < 0 || i >= t.len() {
        t.len() as int
    } else if t[i] == c {
        i
    } else {
        find_char(t, c, i + 1)
    }
}

/// If `c` is absent from `[a, b)` and `b` is the end of `t` or holds `c`,
/// then `b` is the first occurrence of `c` at or after `a`.
pub(crate) proof fn lemma_find_char_eq(t: Seq<char>, c: char, a: int, b: int)
    requires
        0 <= a <= b <= t.len(),
        forall|k: int| a <= k < b ==> t[k] != c,
        b == t.len() || t[b] == c,
    ensures
        find_char(t, c, a) == b,
    decreases b - a,
{
    if a < b {
        lemma_find_char_eq(t, c, a + 1, b);
    }
}

/// A decimal digit.
pub open spec fn is_digit_char(c: char) -> bool {
    ('0' as u32) <= (c as u32) && (c as u32) <= ('9' as u32)
}

/// The numeric value of a decimal digit.
pub open spec fn digit_val(c: char) -> nat {
    ((c as u32) - ('0' as u32)) as nat
}

/// Every character of `s` is a decimal digit.
pub open spec fn all_digits(s: Seq<char>) -> bool {
    forall|i: int| 0 <= i < s.len() ==> is_digit_char(s[i])
}

/// The value of a digit string, most significant digit first.
pub open spec fn dec_val(s: Seq<char>) -> nat
    decreases s.len(),
{
    if s.len() == 0 {
        0
    } else {
        dec_val(s.drop_last()) * 10 + digit_val(s.last())
    }
}

/// One octet of a dotted-quad IPv4 address: one to three digits, value at
/// most 255, with no leading zero.
pub open spec fn is_dec_octet(s: Seq<char>) -> bool {
    &&& 1 <= s.len() <= 3
    &&& all_digits(s)
    &&& dec_val(s) <= 255
    &&& (s.len() > 1 ==> s[0] != '0')
}

/// A decimal port: digits, any number of leading zeros, value at most
/// 65535.
pub open spec fn is_port_str(s: Seq<char>) -> bool {
    &&& 1 <= s.len()
    &&& all_digits(s)
    &&& dec_val(s) <= 65535
}

/// A numeric scope id: digits, any number of leading zeros, value at
/// most `u32::MAX`.
pub open spec fn is_scope_str(s: Seq<char>) -> bool {
    &&& 1 <= s.len()
    &&& all_digits(s)
    &&& dec_val(s) <= u32::MAX
}

/// `p1 < p2 < p3` are the positions of the three dots and `p4` the position
/// of the colon in an IPv4 address-and-port string.
pub open spec fn ipv4_split_at(s: Seq<char>, p1: int, p2: int, p3: int, p4: int) -> bool {
    &&& 0 < p1 < p2 < p3 < p4 < s.len()
    &&& s[p1] == '.'
    &&& s[p2] == '.'
    &&& s[p3] == '.'
    &&& s[p4] == ':'
    &&& is_dec_octet(s.subrange(0, p1))
    &&& is_dec_octet(s.subrange(p1 + 1, p2))
    &&& is_dec_octet(s.subrange(p2 + 1, p3))
    &&& is_dec_octet(s.subrange(p3 + 1, p4))
    &&& is_port_str(s.subrange(p4 + 1, s.len() as int))
}

/// `s` is `<ipv4>:<port>`: four dot-separated octets, a colon, and a port.
pub open spec fn is_ipv4_port(s: Seq<char>) -> bool {
    exists|p1: int, p2: int, p3: int, p4: int| ipv4_split_at(s, p1, p2, p3, p4)
}

/// `p1 < p2 < p3` are the positions of the three dots of a bare
/// dotted-quad IPv4 address.
pub open spec fn ipv4_quad_split_at(s: Seq<char>, p1: int, p2: int, p3: int) -> bool {
    &&& 0 < p1 < p2 < p3 < s.len()
    &&& s[p1] == '.'
    &&& s[p2] == '.'
    &&& s[p3] == '.'
    &&& is_dec_octet(s.subrange(0, p1))
    &&& is_dec_octet(s.subrange(p1 + 1, p2))
    &&& is_dec_octet(s.subrange(p2 + 1, p3))
    &&& is_dec_octet(s.subrange(p3 + 1, s.len() as int))
}

/// `s` is a bare dotted-quad IPv4 address: four dot-separated octets and
/// nothing else — the form that may close an IPv6 address, standing for
/// its last two groups.
pub open spec fn is_ipv4_quad(s: Seq<char>) -> bool {
    exists|p1: int, p2: int, p3: int| ipv4_quad_split_at(s, p1, p2, p3)
}

/// A hexadecimal digit.
pub open spec fn is_hex_char(c: char) -> bool {
    ||| ('0' as u32) <= (c as u32) && (c as u32) <= ('9' as u32)
    ||| ('a' as u32) <= (c as u32) && (c as u32) <= ('f' as u32)
    ||| ('A' as u32) <= (c as u32) && (c as u32) <= ('F' as u32)
}

/// The position of the first non-hex character at or after `i`, or the
/// length of `s` if hex digits run to the end.
pub open spec fn first_nonhex(s: Seq<char>, i: int) -> int
    decreases s.len() - i,
{
    if i < 0 || i >= s.len() {
        s.len() as int
    } else if !is_hex_char(s[i]) {
        i
    } else {
        first_nonhex(s, i + 1)
    }
}

/// Reads the rest of an IPv6 address body after `count` explicit groups:
/// a trailing dotted-quad IPv4 address standing for the last two groups,
/// or one hex group of one to four digits followed by the end, a single
/// colon and further groups, or a `::` compression standing for the
/// missing groups. Exactly eight groups must be explicit unless a
/// compression appears, and at most one compression may.
pub open spec fn ipv6_groups(t: Seq<char>, count: int, compressed: bool) -> bool
    decreases t.len(),
{
    let e = first_nonhex(t, 0);
    if count >= 8 {
        false
    } else if is_ipv4_quad(t) {
        if compressed {
            count + 2 <= 7
        } else {
            count + 2 == 8
        }
    } else if e < 1 || e > 4 {
        false
    } else if e >= t.len() {
        if compressed {
            count + 1 <= 7
        } else {
            count + 1 == 8
        }
    } else if t[e] != ':' {
        false
    } else if e + 1 < t.len() && t[e + 1] == ':' {
        if compressed {
            false
        } else if e + 2 >= t.len() {
            count + 1 <= 7
        } else {
            ipv6_groups(t.subrange(e + 2, t.len() as int), count + 1, true)
        }
    } else if e + 1 >= t.len() {
        false
    } else {
        ipv6_groups(t.subrange(e + 1, t.len() as int), count + 1, compressed)
    }
}

/// The text between the brackets of an IPv6 address: colon-separated hex
/// groups, one run of which may be compressed to `::` — also standing
/// alone, at the start, or at the end.
pub open spec fn ipv6_text(t: Seq<char>) -> bool {
    if t.len() >= 2 && t[0] == ':' && t[1] == ':' {
        t.len() == 2 || ipv6_groups(t.subrange(2, t.len() as int), 0, true)
    } else {
        ipv6_groups(t, 0, false)
    }
}

/// The whole text between the brackets: the IPv6 address, optionally
/// followed by `%` and a numeric scope id.
pub open spec fn ipv6_inner(t: Seq<char>) -> bool {
    let p = find_char(t, '%', 0);
    if p < 0 || p >= t.len() {
        ipv6_text(t)
    } else {
        ipv6_text(t.subrange(0, p)) && is_scope_str(t.subrange(p + 1, t.len() as int))
    }
}

/// `s` is `[<ipv6>]:<port>`: a bracketed IPv6 address, with an optional
/// numeric scope id, then a colon and a port.
pub open spec fn is_ipv6_port(s: Seq<char>) -> bool {
    &&& s.len() > 0
    &&& s[0] == '['
    &&& {
        let j = find_char(s, ']', 1);
        &&& 1 <= j
        &&& j + 1 < s.len()
        &&& s[j + 1] == ':'
        &&& ipv6_inner(s.subrange(1, j))
        &&& is_port_str(s.subrange(j + 2, s.len() as int))
    }
}

/// `s` parses as an IP address and port.
pub open spec fn is_ip_port(s: Seq<char>) -> bool {
    is_ipv4_port(s) || is_ipv6_port(s)
}

/// The position of the first non-digit character at or after `i`, or the
/// length of `s` if every remaining character is a digit.
pub open spec fn first_nondigit(s: Seq<char>, i: int) -> int
    decreases s.len() - i,
{
    if i < 0 || i >= s.len() {
        s.len() as int
    } else if !is_digit_char(s[i]) {
        i
    } else {
        first_nondigit(s, i + 1)
    }
}

/// `10^n`.
pub open spec fn pow10(n: nat) -> nat
    decreases n,
{
    if n == 0 {
        1
    } else {
        10 * pow10((n - 1) as nat)
    }
}

/// The first non-digit at or after `i` lies between `i` and the length.
proof fn lemma_first_nondigit_bounds(s: Seq<char>, i: int)
    requires
        0 <= i <= s.len(),
    ensures
        i <= first_nondigit(s, i) <= s.len(),
    decreases s.len() - i,
{
    if i < s.len() && is_digit_char(s[i]) {
        lemma_first_nondigit_bounds(s, i + 1);
    }
}

/// If `[a, b)` holds only digits and `b` is the end of `s` or a non-digit,
/// then `b` is the first non-digit at or after `a`.
proof fn lemma_first_nondigit_eq(s: Seq<char>, a: int, b: int)
    requires
        0 <= a <= b <= s.len(),
        forall|k: int| a <= k < b ==> is_digit_char(s[k]),
        b == s.len() || !is_digit_char(s[b]),
    ensures
        first_nondigit(s, a) == b,
    decreases b - a,
{
    if a == b {
    } else {
        assert(is_digit_char(s[a]));
        lemma_first_nondigit_eq(s, a + 1, b);
    }
}

/// Deterministic reading of the IPv4 grammar: each field is the maximal
/// digit run before the next separator.
pub open spec fn det_ipv4_port(s: Seq<char>) -> bool {
    let p1 = first_nondigit(s, 0);
    let p2 = first_nondigit(s, p1 + 1);
    let p3 = first_nondigit(s, p2 + 1);
    let p4 = first_nondigit(s, p3 + 1);
    &&& p1 < s.len() && s[p1] == '.'
    &&& p2 < s.len() && s[p2] == '.'
    &&& p3 < s.len() && s[p3] == '.'
    &&& p4 < s.len() && s[p4] == ':'
    &&& is_dec_octet(s.subrange(0, p1))
    &&& is_dec_octet(s.subrange(p1 + 1, p2))
    &&& is_dec_octet(s.subrange(p2 + 1, p3))
    &&& is_dec_octet(s.subrange(p3 + 1, p4))
    &&& is_port_str(s.subrange(p4 + 1, s.len() as int))
}

/// A digit segment of a witness split is maximal, so the split positions
/// are exactly the first non-digits, and the two grammar readings agree.
pub proof fn lemma_ipv4_port_iff_det(s: Seq<char>)
    ensures
        is_ipv4_port(s) <==> det_ipv4_port(s),
{
    if is_ipv4_port(s) {
        let (p1, p2, p3, p4) = choose|p1: int, p2: int, p3: int, p4: int|
            ipv4_split_at(s, p1, p2, p3, p4);
        assert(forall|k: int| 0 <= k < p1 ==> s.subrange(0, p1)[k] == s[k]);
        lemma_first_nondigit_eq(s, 0, p1);
        assert(forall|k: int| p1 + 1 <= k < p2 ==> s.subrange(p1 + 1, p2)[k - (p1 + 1)] == s[k]);
        lemma_first_nondigit_eq(s, p1 + 1, p2);
        assert(forall|k: int| p2 + 1 <= k < p3 ==> s.subrange(p2 + 1, p3)[k - (p2 + 1)] == s[k]);
        lemma_first_nondigit_eq(s, p2 + 1, p3);
        assert(forall|k: int| p3 + 1 <= k < p4 ==> s.subrange(p3 + 1, p4)[k - (p3 + 1)] == s[k]);
        lemma_first_nondigit_eq(s, p3 + 1, p4);
        assert(det_ipv4_port(s));
    }
    if det_ipv4_port(s) {
        let p1 = first_nondigit(s, 0);
        lemma_first_nondigit_bounds(s, 0);
        let p2 = first_nondigit(s, p1 + 1);
        lemma_first_nondigit_bounds(s, p1 + 1);
        let p3 = first_nondigit(s, p2 + 1);
        lemma_first_nondigit_bounds(s, p2 + 1);
        let p4 = first_nondigit(s, p3 + 1);
        lemma_first_nondigit_bounds(s, p3 + 1);
        assert(ipv4_split_at(s, p1, p2, p3, p4));
    }
}

/// Deterministic reading of a bare dotted quad: each octet is the
/// maximal digit run before the next dot, and the last runs to the end.
pub open spec fn det_ipv4_quad(s: Seq<char>) -> bool {
    let p1 = first_nondigit(s, 0);
    let p2 = first_nondigit(s, p1 + 1);
    let p3 = first_nondigit(s, p2 + 1);
    &&& p1 < s.len() && s[p1] == '.'
    &&& p2 < s.len() && s[p2] == '.'
    &&& p3 < s.len() && s[p3] == '.'
    &&& is_dec_octet(s.subrange(0, p1))
    &&& is_dec_octet(s.subrange(p1 + 1, p2))
    &&& is_dec_octet(s.subrange(p2 + 1, p3))
    &&& is_dec_octet(s.subrange(p3 + 1, s.len() as int))
}

/// As for the address-and-port form, a witness split of a bare dotted
/// quad is forced onto the maximal digit runs, so the two readings agree.
pub proof fn lemma_ipv4_quad_iff_det(s: Seq<char>)
    ensures
        is_ipv4_quad(s) <==> det_ipv4_quad(s),
{
    if is_ipv4_quad(s) {
        let (p1, p2, p3) = choose|p1: int, p2: int, p3: int| ipv4_quad_split_at(s, p1, p2, p3);
        assert(forall|k: int| 0 <= k < p1 ==> s.subrange(0, p1)[k] == s[k]);
        lemma_first_nondigit_eq(s, 0, p1);
        assert(forall|k: int| p1 + 1 <= k < p2 ==> s.subrange(p1 + 1, p2)[k - (p1 + 1)] == s[k]);
        lemma_first_nondigit_eq(s, p1 + 1, p2);
        assert(forall|k: int| p2 + 1 <= k < p3 ==> s.subrange(p2 + 1, p3)[k - (p2 + 1)] == s[k]);
        lemma_first_nondigit_eq(s, p2 + 1, p3);
        assert(det_ipv4_quad(s));
    }
    if det_ipv4_quad(s) {
        let p1 = first_nondigit(s, 0);
        lemma_first_nondigit_bounds(s, 0);
        let p2 = first_nondigit(s, p1 + 1);
        lemma_first_nondigit_bounds(s, p1 + 1);
        let p3 = first_nondigit(s, p2 + 1);
        lemma_first_nondigit_bounds(s, p2 + 1);
        assert(ipv4_quad_split_at(s, p1, p2, p3));
    }
}

/// Extending a digit string never shrinks its value.
pub(crate) proof fn lemma_dec_val_monotone(s: Seq<char>, k: int, m: int)
    requires
        0 <= k <= m <= s.len(),
    ensures
        dec_val(s.subrange(0, k)) <= dec_val(s.subrange(0, m)),
    decreases m - k,
{
    if k < m {
        lemma_dec_val_monotone(s, k, m - 1);
        assert(s.subrange(0, m).drop_last() =~= s.subrange(0, m - 1));
        assert(dec_val(s.subrange(0, m)) == dec_val(s.subrange(0, m - 1)) * 10 + digit_val(
            s.subrange(0, m).last(),
        ));
    }
}

/// `s` starts with the explicit `unix:` prefix.
pub open spec fn starts_with_unix(s: Seq<char>) -> bool {
    s.len() >= 5 && s[0] == 'u' && s[1] == 'n' && s[2] == 'i' && s[3] == 'x' && s[4] == ':'
}

/// `s` embeds no terminator character.
pub open spec fn no_terminator(s: Seq<char>) -> bool {
    forall|i: int| 0 <= i < s.len() ==> s[i] != '\n' && s[i] != '\u{0}'
}

/// A well-formed node address: non-empty, free of terminator characters,
/// and in one of the four grammar forms.
pub open spec fn valid_node_addr(s: Seq<char>) -> bool {
    &&& s.len() > 0
    &&& no_terminator(s)
    &&& (is_ip_port(s) || s[0] == '@' || s[0] == '/' || starts_with_unix(s))
}

/// Returns the position of the first non-digit character at or after
/// `start`, or the length of `s` when digits run to the end.
fn digit_run_end(s: &str, start: usize, n: usize) -> (e: usize)
    requires
        n == s@.len(),
        start <= n,
    ensures
        start <= e <= n,
        e == first_nondigit(s@, start as int),
        forall|k: int| start <= k < e ==> is_digit_char(s@[k]),
        e < n ==> !is_digit_char(s@[e as int]),
{
    let mut i: usize = start;
    while i < n
        invariant
            start <= i <= n,
            n == s@.len(),
            forall|k: int| start <= k < i ==> is_digit_char(s@[k]),
        decreases n - i,
    {
        let c = s.get_char(i);
        let u = c as u32;
        if u < 48 || u > 57 {
            proof {
                lemma_first_nondigit_eq(s@, start as int, i as int);
            }
            return i;
        }
        i = i + 1;
    }
    proof {
        lemma_first_nondigit_eq(s@, start as int, n as int);
    }
    n
}

/// Returns the position of the first occurrence of `c` at or after
/// `start`, or the length of `s` if there is none.
pub(crate) fn find_char_exec(s: &str, c: char, start: usize, n: usize) -> (e: usize)
    requires
        n == s@.len(),
        start <= n,
    ensures
        start <= e <= n,
        e == find_char(s@, c, start as int),
        forall|k: int| start <= k < e ==> s@[k] != c,
        e < n ==> s@[e as int] == c,
    decreases n - start,
{
    let mut i: usize = start;
    while i < n
        invariant
            start <= i <= n,
            n == s@.len(),
            forall|k: int| start <= k < i ==> s@[k] != c,
        decreases n - i,
    {
        if s.get_char(i) == c {
            proof {
                lemma_find_char_eq(s@, c, start as int, i as int);
            }
            return i;
        }
        i = i + 1;
    }
    proof {
        lemma_find_char_eq(s@, c, start as int, n as int);
    }
    n
}

/// Checks that `[start, end)` of `s` is a well-formed octet, computing its
/// value left to right.
fn check_octet(s: &str, start: usize, end: usize, n: usize) -> (r: bool)
    requires
        n == s@.len(),
        start <= end <= n,
        forall|k: int| start <= k < end ==> is_digit_char(s@[k]),
    ensures
        r == is_dec_octet(s@.subrange(start as int, end as int)),
{
    let len = end - start;
    if len < 1 || len > 3 {
        return false;
    }
    if len > 1 && s.get_char(start) == '0' {
        assert(s@.subrange(start as int, end as int)[0] == s@[start as int]);
        return false;
    }
    let mut v: u32 = 0;
    let mut i: usize = start;
    while i < end
        invariant
            n == s@.len(),
            start <= i <= end <= n,
            end - start <= 3,
            forall|k: int| start <= k < end ==> is_digit_char(s@[k]),
            v == dec_val(s@.subrange(start as int, i as int)),
            v < pow10((i - start) as nat),
            v <= 999,
        decreases end - i,
    {
        let c = s.get_char(i);
        let d = (c as u32) - 48;
        proof {
            assert(s@.subrange(start as int, i + 1).drop_last() =~= s@.subrange(
                start as int,
                i as int,
            ));
            assert(s@.subrange(start as int, i + 1).last() == s@[i as int]);
            reveal_with_fuel(pow10, 4);
        }
        v = v * 10 + d;
        i = i + 1;
    }
    assert(s@.subrange(start as int, end as int) =~= s@.subrange(start as int, i as int));
    v <= 255
}

/// Checks that `[start, end)` of `s` is a well-formed port.
/// Checks that `[start, end)` of `s` is a non-empty digit field whose
/// value is at most `bound`, whatever its digit count.
fn check_bounded_dec(s: &str, start: usize, end: usize, n: usize, bound: u64) -> (r: bool)
    requires
        n == s@.len(),
        start <= end <= n,
        forall|k: int| start <= k < end ==> is_digit_char(s@[k]),
    ensures
        r == (end - start >= 1 && dec_val(s@.subrange(start as int, end as int)) <= bound),
{
    let ghost seg = s@.subrange(start as int, end as int);
    if end - start < 1 {
        return false;
    }
    let mut v: u64 = 0;
    let mut i: usize = start;
    while i < end
        invariant
            n == s@.len(),
            start <= i <= end <= n,
            seg == s@.subrange(start as int, end as int),
            forall|k: int| start <= k < end ==> is_digit_char(s@[k]),
            v as nat == dec_val(s@.subrange(start as int, i as int)),
            v <= bound,
        decreases end - i,
    {
        let c = s.get_char(i);
        let d = (c as u32) as u64 - 48;
        proof {
            assert(s@.subrange(start as int, i + 1).drop_last() =~= s@.subrange(
                start as int,
                i as int,
            ));
            assert(s@.subrange(start as int, i + 1).last() == s@[i as int]);
        }
        if v > (u64::MAX - d) / 10 {
            proof {
                assert((v as nat) * 10 + (d as nat) > u64::MAX) by (nonlinear_arith)
                    requires
                        v as nat > ((u64::MAX - d as nat) as nat) / 10,
                        d as nat <= 9,
                ;
                assert(dec_val(s@.subrange(start as int, i + 1)) > u64::MAX);
                lemma_dec_val_monotone(seg, i + 1 - start, end - start);
                assert(seg.subrange(0, i + 1 - start) =~= s@.subrange(start as int, i + 1));
                assert(seg.subrange(0, (end - start) as int) =~= seg);
                assert(dec_val(seg) > u64::MAX);
            }
            return false;
        }
        v = v * 10 + d;
        if v > bound {
            proof {
                lemma_dec_val_monotone(seg, i + 1 - start, end - start);
                assert(seg.subrange(0, i + 1 - start) =~= s@.subrange(start as int, i + 1));
                assert(seg.subrange(0, (end - start) as int) =~= seg);
            }
            return false;
        }
        i = i + 1;
    }
    assert(seg =~= s@.subrange(start as int, i as int));
    true
}

/// Checks that `[start, end)` of `s` is a well-formed port.
fn check_port(s: &str, start: usize, end: usize, n: usize) -> (r: bool)
    requires
        n == s@.len(),
        start <= end <= n,
        forall|k: int| start <= k < end ==> is_digit_char(s@[k]),
    ensures
        r == is_port_str(s@.subrange(start as int, end as int)),
{
    proof {
        let seg = s@.subrange(start as int, end as int);
        assert forall|k: int| 0 <= k < seg.len() implies is_digit_char(#[trigger] seg[k]) by {
            assert(seg[k] == s@[start + k]);
        }
    }
    check_bounded_dec(s, start, end, n, 65535)
}

/// Checks that `[start, end)` of `s` is a well-formed numeric scope id.
fn check_scope(s: &str, start: usize, end: usize, n: usize) -> (r: bool)
    requires
        n == s@.len(),
        start <= end <= n,
        forall|k: int| start <= k < end ==> is_digit_char(s@[k]),
    ensures
        r == is_scope_str(s@.subrange(start as int, end as int)),
{
    proof {
        let seg = s@.subrange(start as int, end as int);
        assert forall|k: int| 0 <= k < seg.len() implies is_digit_char(#[trigger] seg[k]) by {
            assert(seg[k] == s@[start + k]);
        }
    }
    check_bounded_dec(s, start, end, n, 4294967295)
}

/// Decides whether `s` is `<ipv4>:<port>`.
fn check_ipv4_port(s: &str, n: usize) -> (r: bool)
    requires
        n == s@.len(),
    ensures
        r == is_ipv4_port(s@),
{
    proof {
        lemma_ipv4_port_iff_det(s@);
    }
    let p1 = digit_run_end(s, 0, n);
    if p1 >= n || s.get_char(p1) != '.' || !check_octet(s, 0, p1, n) {
        return false;
    }
    let p2 = digit_run_end(s, p1 + 1, n);
    if p2 >= n || s.get_char(p2) != '.' || !check_octet(s, p1 + 1, p2, n) {
        return false;
    }
    let p3 = digit_run_end(s, p2 + 1, n);
    if p3 >= n || s.get_char(p3) != '.' || !check_octet(s, p2 + 1, p3, n) {
        return false;
    }
    let p4 = digit_run_end(s, p3 + 1, n);
    if p4 >= n || s.get_char(p4) != ':' || !check_octet(s, p3 + 1, p4, n) {
        return false;
    }
    let p5 = digit_run_end(s, p4 + 1, n);
    if p5 < n {
        proof {
            assert(s@.subrange(p4 + 1, n as int)[p5 - (p4 + 1)] == s@[p5 as int]);
        }
        return false;
    }
    check_port(s, p4 + 1, n, n)
}

/// Returns the position of the first non-hex character at or after
/// `start`, or the length of `s` when hex digits run to the end.
fn hex_run_end(s: &str, start: usize, n: usize) -> (e: usize)
    requires
        n == s@.len(),
        start <= n,
    ensures
        start <= e <= n,
        e == first_nonhex(s@, start as int),
        forall|k: int| start <= k < e ==> is_hex_char(s@[k]),
        e < n ==> !is_hex_char(s@[e as int]),
{
    let mut i: usize = start;
    while i < n
        invariant
            start <= i <= n,
            n == s@.len(),
            forall|k: int| start <= k < i ==> is_hex_char(s@[k]),
        decreases n - i,
    {
        let c = s.get_char(i);
        let u = c as u32;
        if !((u >= 48 && u <= 57) || (u >= 97 && u <= 102) || (u >= 65 && u <= 70)) {
            proof {
                lemma_first_nonhex_eq(s@, start as int, i as int);
            }
            return i;
        }
        i = i + 1;
    }
    proof {
        lemma_first_nonhex_eq(s@, start as int, n as int);
    }
    n
}

/// If `[a, b)` holds only hex digits and `b` is the end of `s` or a
/// non-hex character, then `b` is the first non-hex at or after `a`.
proof fn lemma_first_nonhex_eq(s: Seq<char>, a: int, b: int)
    requires
        0 <= a <= b <= s.len(),
        forall|k: int| a <= k < b ==> is_hex_char(s[k]),
        b == s.len() || !is_hex_char(s[b]),
    ensures
        first_nonhex(s, a) == b,
    decreases b - a,
{
    if a < b {
        assert(is_hex_char(s[a]));
        lemma_first_nonhex_eq(s, a + 1, b);
    }
}

/// Decides the rest of an IPv6 address body after `count` explicit
/// groups.
/// Decides whether `s` is a bare dotted-quad IPv4 address.
fn check_ipv4_quad(s: &str, n: usize) -> (r: bool)
    requires
        n == s@.len(),
    ensures
        r == is_ipv4_quad(s@),
{
    proof {
        lemma_ipv4_quad_iff_det(s@);
    }
    let p1 = digit_run_end(s, 0, n);
    if p1 >= n || s.get_char(p1) != '.' || !check_octet(s, 0, p1, n) {
        return false;
    }
    let p2 = digit_run_end(s, p1 + 1, n);
    if p2 >= n || s.get_char(p2) != '.' || !check_octet(s, p1 + 1, p2, n) {
        return false;
    }
    let p3 = digit_run_end(s, p2 + 1, n);
    if p3 >= n || s.get_char(p3) != '.' || !check_octet(s, p2 + 1, p3, n) {
        return false;
    }
    let p4 = digit_run_end(s, p3 + 1, n);
    if p4 < n {
        proof {
            assert(s@.subrange(p3 + 1, n as int)[p4 - (p3 + 1)] == s@[p4 as int]);
        }
        return false;
    }
    check_octet(s, p3 + 1, n, n)
}

fn check_ipv6_groups(t: &str, count: u32, compressed: bool) -> (r: bool)
    ensures
        r == ipv6_groups(t@, count as int, compressed),
    decreases t@.len(),
{
    let n = t.unicode_len();
    if count >= 8 {
        return false;
    }
    if check_ipv4_quad(t, n) {
        return if compressed {
            count + 2 <= 7
        } else {
            count + 2 == 8
        };
    }
    let e = hex_run_end(t, 0, n);
    if e < 1 || e > 4 {
        return false;
    }
    if e >= n {
        return if compressed {
            count + 1 <= 7
        } else {
            count + 1 == 8
        };
    }
    if t.get_char(e) != ':' {
        return false;
    }
    if e + 1 < n && t.get_char(e + 1) == ':' {
        if compressed {
            return false;
        }
        if e + 2 >= n {
            return count + 1 <= 7;
        }
        return check_ipv6_groups(t.substring_char(e + 2, n), count + 1, true);
    }
    if e + 1 >= n {
        return false;
    }
    check_ipv6_groups(t.substring_char(e + 1, n), count + 1, compressed)
}

/// Decides the text between the brackets of an IPv6 address.
fn check_ipv6_text(t: &str) -> (r: bool)
    ensures
        r == ipv6_text(t@),
{
    let n = t.unicode_len();
    if n >= 2 && t.get_char(0) == ':' && t.get_char(1) == ':' {
        if n == 2 {
            return true;
        }
        return check_ipv6_groups(t.substring_char(2, n), 0, true);
    }
    check_ipv6_groups(t, 0, false)
}

/// Decides the whole text between the brackets: the address and an
/// optional numeric scope id.
fn check_ipv6_inner(t: &str) -> (r: bool)
    ensures
        r == ipv6_inner(t@),
{
    let n = t.unicode_len();
    let p = find_char_exec(t, '%', 0, n);
    if p >= n {
        return check_ipv6_text(t);
    }
    if !check_ipv6_text(t.substring_char(0, p)) {
        return false;
    }
    let e = digit_run_end(t, p + 1, n);
    if e < n {
        proof {
            assert(t@.subrange(p + 1, n as int)[e - (p + 1)] == t@[e as int]);
        }
        return false;
    }
    check_scope(t, p + 1, n, n)
}

/// Decides whether `s` is `[<ipv6>]:<port>`, given that it opens with a
/// bracket.
fn check_ipv6_port(s: &str, n: usize) -> (r: bool)
    requires
        n == s@.len(),
        n > 0,
        s@[0] == '[',
    ensures
        r == is_ipv6_port(s@),
{
    let j = find_char_exec(s, ']', 1, n);
    if j >= n {
        return false;
    }
    if j + 1 >= n {
        return false;
    }
    if s.get_char(j + 1) != ':' {
        return false;
    }
    if !check_ipv6_inner(s.substring_char(1, j)) {
        return false;
    }
    let e = digit_run_end(s, j + 2, n);
    if e < n {
        proof {
            assert(s@.subrange(j + 2, n as int)[e - (j + 2)] == s@[e as int]);
        }
        return false;
    }
    check_port(s, j + 2, n, n)
}

/// Decides whether `s` parses as an IP address and port.
pub fn check_ip_port(s: &str) -> (r: bool)
    ensures
        r == is_ip_port(s@),
{
    let n = s.unicode_len();
    if n > 0 && s.get_char(0) == '[' {
        proof {
            lemma_ipv4_port_iff_det(s@);
            assert(first_nondigit(s@, 0) == 0);
            assert(!det_ipv4_port(s@));
        }
        check_ipv6_port(s, n)
    } else {
        assert(!is_ipv6_port(s@));
        check_ipv4_port(s, n)
    }
}

/// Decides whether `s` is a well-formed node address.
pub fn check_node_addr(s: &str) -> (r: bool)
    ensures
        r == valid_node_addr(s@),
{
    let n = s.unicode_len();
    if n == 0 {
        return false;
    }
    let mut i: usize = 0;
    while i < n
        invariant
            n == s@.len(),
            i <= n,
            forall|k: int| 0 <= k < i ==> s@[k] != '\n' && s@[k] != '\u{0}',
        decreases n - i,
    {
        let c = s.get_char(i);
        if c == '\n' || c == '\u{0}' {
            return false;
        }
        i = i + 1;
    }
    if check_ip_port(s) {
        return true;
    }
    let c0 = s.get_char(0);
    if c0 == '@' || c0 == '/' {
        return true;
    }
    if n >= 5 && s.get_char(0) == 'u' && s.get_char(1) == 'n' && s.get_char(2) == 'i'
        && s.get_char(3) == 'x' && s.get_char(4) == ':' {
        return true;
    }
    false
}

/// Character-by-character string equality.
pub fn str_eq(a: &str, b: &str) -> (r: bool)
    ensures
        r == (a@ == b@),
{
    let na = a.unicode_len();
    let nb = b.unicode_len();
    if na != nb {
        assert(a@ != b@);
        return false;
    }
    let mut i: usize = 0;
    while i < na
        invariant
            i <= na,
            na == a@.len(),
            na == b@.len(),
            forall|k: int| 0 <= k < i ==> a@[k] == b@[k],
        decreases na - i,
    {
        if a.get_char(i) != b.get_char(i) {
            assert(a@ != b@);
            return false;
        }
        i = i + 1;
    }
    assert(a@ =~= b@);
    true
}

/// Where a dial target routes: over TCP, or over a Unix-domain socket with
/// the given path.
#[derive(Clone, Debug, PartialEq, Eq)]
pub enum DialTarget {
    Tcp(String),
    Unix(String),
}

/// Routes a dial address: an explicit `unix:` prefix selects a Unix-domain
/// dial on the remainder of the string, everything else must parse as
/// IP address and port and selects a TCP dial; anything else is rejected
/// before any socket call.
pub fn classify_dial_addr(addr: &str) -> (r: Result<DialTarget, String>)
    ensures
        starts_with_unix(addr@) ==> (r matches Ok(t) && (t matches DialTarget::Unix(p)
            && p@ == addr@.subrange(5, addr@.len() as int))),
        !starts_with_unix(addr@) && is_ip_port(addr@) ==> (r matches Ok(t) && (t
            matches DialTarget::Tcp(a) && a@ == addr@)),
        !starts_with_unix(addr@) && !is_ip_port(addr@) ==> r is Err,
{
    let n = addr.unicode_len();
    if n >= 5 && addr.get_char(0) == 'u' && addr.get_char(1) == 'n' && addr.get_char(2) == 'i'
        && addr.get_char(3) == 'x' && addr.get_char(4) == ':' {
        let path = addr.substring_char(5, n);
        return Ok(DialTarget::Unix(String::from_str(path)));
    }
    if check_ip_port(addr) {
        return Ok(DialTarget::Tcp(String::from_str(addr)));
    }
    Err("invalid dial address".to_owned())
}

} // verus!
