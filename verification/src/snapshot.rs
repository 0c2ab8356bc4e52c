//! The durable text snapshot format of the node registry.
//!
//! One record per line, `<id> <role> <address>`, each line closed by a
//! line break. The id and the role are decimal numbers; the address is
//! the rest of the line, so it may itself contain spaces. Decoding a
//! snapshot rendered from any valid record list gives back exactly that
//! list.

use vstd::prelude::*;
use vstd::string::StrSliceExecFns;
use vstd::string::StringExecFns;
use crate::addr::find_char;
use crate::addr::lemma_find_char_eq;
use crate::addr::lemma_dec_val_monotone;
use crate::addr::find_char_exec;
use crate::addr::is_digit_char;
use crate::addr::digit_val;
use crate::addr::all_digits;
use crate::addr::dec_val;
use crate::addr::valid_node_addr;
use crate::store::NodeInfo;
use crate::store::NodeInfoV;
use crate::store::NodeRole;
use crate::store::NodeStoreError;
use crate::store::NodeStoreResult;
use crate::store::nodes_valid;

verus! {

/// The decimal digit character for a value below ten.
pub open spec fn digit_char(d: nat) -> char {
    if d == 0 {
        '0'
    } else if d == 1 {
        '1'
    } else if d == 2 {
        '2'
    } else if d == 3 {
        '3'
    } else if d == 4 {
        '4'
    } else if d == 5 {
        '5'
    } else if d == 6 {
        '6'
    } else if d == 7 {
        '7'
    } else if d == 8 {
        '8'
    } else {
        '9'
    }
}

/// The decimal rendering of a number, most significant digit first, with
/// no leading zeros.
pub open spec fn dec_digits(n: nat) -> Seq<char>
    decreases n,
{
    if n < 10 {
        seq![digit_char(n)]
    } else {
        dec_digits(n / 10).push(digit_char(n % 10))
    }
}

/// Decimal rendering consists of digits, is non-empty, and decodes back
/// to the rendered number.
proof fn lemma_dec_digits_round_trip(n: nat)
    ensures
        dec_digits(n).len() >= 1,
        all_digits(dec_digits(n)),
        dec_val(dec_digits(n)) == n,
    decreases n,
{
    if n < 10 {
        let s = dec_digits(n);
        assert(s == seq![digit_char(n)]);
        assert(s.drop_last() =~= Seq::<char>::empty());
        assert(dec_val(Seq::<char>::empty()) == 0);
        assert(s.last() == digit_char(n));
        assert(dec_val(s) == dec_val(s.drop_last()) * 10 + digit_val(s.last()));
        assert(dec_val(s) == digit_val(digit_char(n)));
    } else {
        lemma_dec_digits_round_trip(n / 10);
        let s = dec_digits(n);
        let p = dec_digits(n / 10);
        assert(s == p.push(digit_char(n % 10)));
        assert(s.drop_last() =~= p);
        assert(s.last() == digit_char(n % 10));
        assert(dec_val(s) == dec_val(p) * 10 + digit_val(digit_char(n % 10)));
        assert forall|k: int| 0 <= k < s.len() implies is_digit_char(#[trigger] s[k]) by {
            if k < p.len() {
                assert(s[k] == p[k]);
            } else {
                assert(s[k] == digit_char(n % 10));
            }
        }
    }
}

/// The role encoded by a small decimal value.
pub open spec fn role_of_val(v: nat) -> NodeRole {
    if v == 0 {
        NodeRole::Voter
    } else if v == 1 {
        NodeRole::StandBy
    } else {
        NodeRole::Spare
    }
}

/// One snapshot line (without its closing line break).
pub open spec fn render_node(n: NodeInfoV) -> Seq<char> {
    dec_digits(n.id as nat) + seq![' '] + dec_digits(n.role.spec_value() as nat) + seq![' ']
        + n.addr
}

/// The whole snapshot: every record's line, each closed by a line break.
pub open spec fn render_nodes(ns: Seq<NodeInfoV>) -> Seq<char>
    decreases ns.len(),
{
    if ns.len() == 0 {
        Seq::empty()
    } else {
        render_nodes(ns.drop_last()) + render_node(ns.last()) + seq!['\n']
    }
}

/// Decodes one snapshot line: a decimal id, a space, a decimal role in
/// the fixed range, a space, and a non-empty address taking the rest of
/// the line.
pub open spec fn parse_line(l: Seq<char>) -> Option<NodeInfoV> {
    let s1 = find_char(l, ' ', 0);
    let s2 = find_char(l, ' ', s1 + 1);
    if s1 >= l.len() || s2 >= l.len() {
        None
    } else {
        let idseg = l.subrange(0, s1);
        let roleseg = l.subrange(s1 + 1, s2);
        let addr = l.subrange(s2 + 1, l.len() as int);
        if idseg.len() < 1 || !all_digits(idseg) || dec_val(idseg) > u64::MAX {
            None
        } else if roleseg.len() < 1 || !all_digits(roleseg) || dec_val(roleseg) > 2 {
            None
        } else if addr.len() < 1 {
            None
        } else {
            Some(
                NodeInfoV {
                    id: dec_val(idseg) as u64,
                    addr,
                    role: role_of_val(dec_val(roleseg)),
                },
            )
        }
    }
}

/// Decodes a whole snapshot: a sequence of line-break-terminated lines.
pub open spec fn parse_nodes(t: Seq<char>) -> Option<Seq<NodeInfoV>>
    decreases t.len(),
{
    if t.len() == 0 {
        Some(Seq::empty())
    } else {
        let k = find_char(t, '\n', 0);
        if k < 0 || k >= t.len() {
            None
        } else {
            match parse_line(t.subrange(0, k)) {
                None => None,
                Some(n) => match parse_nodes(t.subrange(k + 1, t.len() as int)) {
                    None => None,
                    Some(rest) => Some(seq![n] + rest),
                },
            }
        }
    }
}

/// A snapshot can be read line-first: the first line renders the first
/// record.
proof fn lemma_render_unfold_first(ns: Seq<NodeInfoV>)
    requires
        ns.len() > 0,
    ensures
        render_nodes(ns) =~= render_node(ns.first()) + seq!['\n'] + render_nodes(ns.drop_first()),
    decreases ns.len(),
{
    if ns.len() == 1 {
        assert(ns.drop_last() =~= Seq::<NodeInfoV>::empty());
        assert(ns.drop_first() =~= Seq::<NodeInfoV>::empty());
        assert(ns.last() == ns.first());
    } else {
        let dl = ns.drop_last();
        lemma_render_unfold_first(dl);
        assert(dl.first() == ns.first());
        assert(ns.drop_first().drop_last() =~= dl.drop_first());
        assert(ns.drop_first().last() == ns.last());
        assert(ns.drop_first().len() > 0);
        assert(render_nodes(ns.drop_first()) == render_nodes(ns.drop_first().drop_last())
            + render_node(ns.drop_first().last()) + seq!['\n']);
        assert(render_nodes(ns) =~= render_node(ns.first()) + seq!['\n'] + render_nodes(
            ns.drop_first(),
        ));
    }
}

/// A rendered line holds no line break when the address holds none.
proof fn lemma_render_node_no_newline(n: NodeInfoV)
    requires
        forall|i: int| 0 <= i < n.addr.len() ==> n.addr[i] != '\n',
    ensures
        forall|i: int| 0 <= i < render_node(n).len() ==> #[trigger] render_node(n)[i] != '\n',
{
    lemma_dec_digits_round_trip(n.id as nat);
    lemma_dec_digits_round_trip(n.role.spec_value() as nat);
    let a = dec_digits(n.id as nat);
    let b = dec_digits(n.role.spec_value() as nat);
    let l = render_node(n);
    assert forall|i: int| 0 <= i < l.len() implies #[trigger] l[i] != '\n' by {
        if i < a.len() {
            assert(l[i] == a[i]);
            assert(is_digit_char(a[i]));
        } else if i == a.len() {
            assert(l[i] == ' ');
        } else if i < a.len() + 1 + b.len() {
            assert(l[i] == b[i - (a.len() + 1)]);
            assert(is_digit_char(b[i - (a.len() + 1)]));
        } else if i == a.len() + 1 + b.len() {
            assert(l[i] == ' ');
        } else {
            assert(l[i] == n.addr[i - (a.len() + 1 + b.len() + 1)]);
        }
    }
}

/// Decoding a rendered line gives back exactly the rendered record.
proof fn lemma_parse_render_node(n: NodeInfoV)
    requires
        n.addr.len() > 0,
    ensures
        parse_line(render_node(n)) == Some(n),
{
    lemma_dec_digits_round_trip(n.id as nat);
    lemma_dec_digits_round_trip(n.role.spec_value() as nat);
    let a = dec_digits(n.id as nat);
    let b = dec_digits(n.role.spec_value() as nat);
    let l = render_node(n);
    let s1 = a.len() as int;
    let s2 = (a.len() + 1 + b.len()) as int;
    assert forall|k: int| 0 <= k < s1 implies l[k] != ' ' by {
        assert(l[k] == a[k]);
        assert(is_digit_char(a[k]));
    }
    assert(l[s1] == ' ');
    lemma_find_char_eq(l, ' ', 0, s1);
    assert forall|k: int| s1 + 1 <= k < s2 implies l[k] != ' ' by {
        assert(l[k] == b[k - (s1 + 1)]);
        assert(is_digit_char(b[k - (s1 + 1)]));
    }
    assert(l[s2] == ' ');
    lemma_find_char_eq(l, ' ', s1 + 1, s2);
    assert(l.subrange(0, s1) =~= a);
    assert(l.subrange(s1 + 1, s2) =~= b);
    assert(l.subrange(s2 + 1, l.len() as int) =~= n.addr);
    assert(dec_val(a) == n.id as nat);
    assert(dec_val(b) == n.role.spec_value() as nat);
    assert(role_of_val(n.role.spec_value() as nat) == n.role);
}

/// A valid record list survives the snapshot round trip: decoding its
/// rendering gives back exactly the list.
pub proof fn lemma_snapshot_round_trip(ns: Seq<NodeInfoV>)
    requires
        nodes_valid(ns),
    ensures
        parse_nodes(render_nodes(ns)) == Some(ns),
    decreases ns.len(),
{
    if ns.len() == 0 {
        assert(render_nodes(ns).len() == 0);
        assert(parse_nodes(render_nodes(ns)) == Some(Seq::<NodeInfoV>::empty()));
        assert(ns =~= Seq::<NodeInfoV>::empty());
    } else {
        let h = ns.first();
        let rest = ns.drop_first();
        assert(valid_node_addr(ns[0].addr));
        assert(h.addr.len() > 0);
        lemma_render_unfold_first(ns);
        let line = render_node(h);
        let t = render_nodes(ns);
        lemma_render_node_no_newline(h);
        assert forall|k: int| 0 <= k < line.len() implies t[k] != '\n' by {
            assert(t[k] == line[k]);
        }
        assert(t[line.len() as int] == '\n');
        lemma_find_char_eq(t, '\n', 0, line.len() as int);
        assert(t.subrange(0, line.len() as int) =~= line);
        lemma_parse_render_node(h);
        assert(t.subrange(line.len() as int + 1, t.len() as int) =~= render_nodes(rest));
        assert forall|i: int| 0 <= i < rest.len() implies valid_node_addr(
            #[trigger] rest[i].addr,
        ) by {
            assert(rest[i] == ns[i + 1]);
        }
        assert forall|i: int, j: int| 0 <= i < j < rest.len() implies #[trigger] rest[i].id
            != #[trigger] rest[j].id && rest[i].addr != rest[j].addr by {
            assert(rest[i] == ns[i + 1] && rest[j] == ns[j + 1]);
            assert(ns[i + 1].id != ns[j + 1].id && ns[i + 1].addr != ns[j + 1].addr);
        }
        lemma_snapshot_round_trip(rest);
        assert(parse_nodes(t) == Some(seq![h] + rest));
        assert(seq![h] + rest =~= ns);
    }
}

/// Relies on std's `String::push`: appends exactly the given character.
#[verifier::external_body]
fn push_char(s: &mut String, c: char)
    ensures
        final(s)@ == old(s)@.push(c),
{
    s.push(c);
}

/// Appends the decimal rendering of `n`.
fn push_dec(out: &mut String, n: u64)
    ensures
        final(out)@ == old(out)@ + dec_digits(n as nat),
    decreases n,
{
    if n < 10 {
        let c = match n {
            0 => '0',
            1 => '1',
            2 => '2',
            3 => '3',
            4 => '4',
            5 => '5',
            6 => '6',
            7 => '7',
            8 => '8',
            _ => '9',
        };
        push_char(out, c);
        assert(out@ =~= old(out)@ + dec_digits(n as nat));
    } else {
        push_dec(out, n / 10);
        let d = n % 10;
        let c = match d {
            0 => '0',
            1 => '1',
            2 => '2',
            3 => '3',
            4 => '4',
            5 => '5',
            6 => '6',
            7 => '7',
            8 => '8',
            _ => '9',
        };
        push_char(out, c);
        assert(out@ =~= old(out)@ + dec_digits(n as nat));
    }
}

/// Renders the whole record list into snapshot text.
pub fn render_snapshot(nodes: &Vec<NodeInfo>) -> (r: String)
    ensures
        r@ == render_nodes(nodes.deep_view()),
{
    let ghost ns = nodes.deep_view();
    let mut out = String::new();
    let mut i: usize = 0;
    while i < nodes.len()
        invariant
            i <= nodes.len(),
            ns == nodes.deep_view(),
            out@ == render_nodes(ns.subrange(0, i as int)),
        decreases nodes.len() - i,
    {
        let cur = &nodes[i];
        proof {
            assert(ns[i as int] == cur@);
        }
        push_dec(&mut out, cur.id);
        push_char(&mut out, ' ');
        push_dec(&mut out, cur.role.value() as u64);
        push_char(&mut out, ' ');
        out.append(cur.addr.as_str());
        push_char(&mut out, '\n');
        proof {
            assert(ns.subrange(0, i + 1).drop_last() =~= ns.subrange(0, i as int));
            assert(ns.subrange(0, i + 1).last() == ns[i as int]);
            assert(out@ =~= render_nodes(ns.subrange(0, i as int)) + render_node(ns[i as int])
                + seq!['\n']);
        }
        i = i + 1;
    }
    assert(ns.subrange(0, nodes.len() as int) =~= ns);
    out
}

/// Decodes the decimal field `[start, end)` of `s`, rejecting empty or
/// non-digit fields and values that do not fit.
fn parse_dec_field(s: &str, start: usize, end: usize, n: usize) -> (r: Option<u64>)
    requires
        n == s@.len(),
        start <= end <= n,
    ensures
        r is Some <==> (end - start >= 1 && all_digits(s@.subrange(start as int, end as int))
            && dec_val(s@.subrange(start as int, end as int)) <= u64::MAX),
        r matches Some(v) ==> v as nat == dec_val(s@.subrange(start as int, end as int)),
{
    let ghost seg = s@.subrange(start as int, end as int);
    if end - start < 1 {
        return None;
    }
    let mut v: u64 = 0;
    let mut i: usize = start;
    while i < end
        invariant
            start <= i <= end <= n,
            n == s@.len(),
            seg == s@.subrange(start as int, end as int),
            forall|k: int| start <= k < i ==> is_digit_char(s@[k]),
            v as nat == dec_val(s@.subrange(start as int, i as int)),
        decreases end - i,
    {
        let c = s.get_char(i);
        let u = c as u32;
        if u < 48 || u > 57 {
            proof {
                assert(seg[i - start] == s@[i as int]);
                assert(!is_digit_char(seg[i - start]));
            }
            return None;
        }
        let d = (u - 48) as u64;
        proof {
            assert(s@.subrange(start as int, i + 1).drop_last() =~= s@.subrange(
                start as int,
                i as int,
            ));
            assert(s@.subrange(start as int, i + 1).last() == s@[i as int]);
        }
        if v > (u64::MAX - d) / 10 {
            proof {
                assert((v as nat) * 10 + (d as nat) > u64::MAX) by (nonlinear_arith)
                    requires
                        v as nat > ((u64::MAX - d as nat) as nat) / 10,
                        d as nat <= 9,
                ;
                assert(dec_val(s@.subrange(start as int, i + 1)) > u64::MAX);
                lemma_dec_val_monotone(seg, i + 1 - start, end - start);
                assert(seg.subrange(0, i + 1 - start) =~= s@.subrange(start as int, i + 1));
                assert(seg.subrange(0, (end - start) as int) =~= seg);
                assert(dec_val(seg) > u64::MAX);
            }
            return None;
        }
        v = v * 10 + d;
        i = i + 1;
    }
    proof {
        assert(seg =~= s@.subrange(start as int, i as int));
    }
    Some(v)
}

/// Decodes one snapshot line into a record.
fn parse_line_exec(l: &str) -> (r: NodeStoreResult<NodeInfo>)
    ensures
        parse_line(l@) matches Some(nv) ==> (r matches Ok(node) && node@ == nv),
        parse_line(l@) is None ==> (r matches Err(e) && e matches NodeStoreError::Serialization(
            _,
        )),
{
    let n = l.unicode_len();
    let s1 = find_char_exec(l, ' ', 0, n);
    if s1 >= n {
        return Err(NodeStoreError::Serialization("malformed snapshot line".to_owned()));
    }
    let s2 = find_char_exec(l, ' ', s1 + 1, n);
    if s2 >= n {
        return Err(NodeStoreError::Serialization("malformed snapshot line".to_owned()));
    }
    let id = match parse_dec_field(l, 0, s1, n) {
        None => {
            return Err(NodeStoreError::Serialization("bad snapshot id field".to_owned()));
        },
        Some(v) => v,
    };
    let role_v = match parse_dec_field(l, s1 + 1, s2, n) {
        None => {
            return Err(NodeStoreError::Serialization("bad snapshot role field".to_owned()));
        },
        Some(v) => v,
    };
    if role_v > 2 {
        return Err(NodeStoreError::Serialization("bad snapshot role field".to_owned()));
    }
    let role = if role_v == 0 {
        NodeRole::Voter
    } else if role_v == 1 {
        NodeRole::StandBy
    } else {
        NodeRole::Spare
    };
    if s2 + 1 >= n {
        return Err(NodeStoreError::Serialization("empty snapshot address".to_owned()));
    }
    let addr = String::from_str(l.substring_char(s2 + 1, n));
    Ok(NodeInfo { id, addr, role })
}

/// Decodes a whole snapshot text into a record list; any malformed line
/// fails the whole decode.
pub fn parse_snapshot(text: &str) -> (r: NodeStoreResult<Vec<NodeInfo>>)
    ensures
        parse_nodes(text@) matches Some(ns) ==> (r matches Ok(v) && v.deep_view() == ns),
        parse_nodes(text@) is None ==> (r matches Err(e) && e
            matches NodeStoreError::Serialization(_)),
    decreases text@.len(),
{
    let n = text.unicode_len();
    if n == 0 {
        let empty: Vec<NodeInfo> = Vec::new();
        assert(empty.deep_view() =~= Seq::<NodeInfoV>::empty());
        return Ok(empty);
    }
    let k = find_char_exec(text, '\n', 0, n);
    if k >= n {
        return Err(NodeStoreError::Serialization("unterminated snapshot line".to_owned()));
    }
    let line = text.substring_char(0, k);
    let node = match parse_line_exec(line) {
        Err(e) => {
            return Err(e);
        },
        Ok(node) => node,
    };
    let rest = text.substring_char(k + 1, n);
    let mut rest_nodes = match parse_snapshot(rest) {
        Err(e) => {
            return Err(e);
        },
        Ok(v) => v,
    };
    let mut out: Vec<NodeInfo> = Vec::new();
    let ghost nv = node@;
    let ghost restv = rest_nodes.deep_view();
    out.push(node);
    out.append(&mut rest_nodes);
    proof {
        assert(out.deep_view() =~= seq![nv] + restv);
    }
    Ok(out)
}

} // verus!
