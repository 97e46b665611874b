//! The policy expression grammar and its parser.
//!
//! A policy expression is a JSON-shaped object with a single key:
//! `{"ATT": "name"}` for an attribute leaf, `{"AND": [e, ...]}` or
//! `{"OR": [e, ...]}` for a connective over one or more children. A list of
//! more than two children folds to the right into binary nodes, which keeps
//! conjunction and disjunction semantics and the listed order of
//! disjuncts. String contents may not contain `"` or `\`; blanks may stand
//! between tokens. The spec-level parser below is the definition of the
//! grammar; the executable parser returns exactly what it says.

use vstd::prelude::*;
use vstd::utf8::{encode_utf8, valid_utf8};

use crate::AbeError;
use crate::names::sbytes;
use crate::policy::{Policy, PolicyNode, pv};

verus! {

/// The bytes of the attribute leaf key.
pub open spec fn att_key() -> Seq<u8> {
    seq![65u8, 84u8, 84u8]
}

/// The bytes of the conjunction key.
pub open spec fn and_key() -> Seq<u8> {
    seq![65u8, 78u8, 68u8]
}

/// The bytes of the disjunction key.
pub open spec fn or_key() -> Seq<u8> {
    seq![79u8, 82u8]
}

/// Whether a byte is a blank: space, tab, line feed or carriage return.
pub open spec fn is_ws(b: u8) -> bool {
    b == 32 || b == 9 || b == 10 || b == 13
}

/// The first position at or after `i` that does not hold a blank.
pub open spec fn skip_ws(s: Seq<u8>, i: int) -> int
    decreases s.len() - i,
{
    if 0 <= i && i < s.len() && is_ws(s[i]) {
        skip_ws(s, i + 1)
    } else {
        i
    }
}

/// The position of the closing quote of a string whose content starts at
/// `i`, or `None` when the string is unterminated or holds a `\` escape.
pub open spec fn scan_string_end(s: Seq<u8>, i: int) -> Option<int>
    decreases s.len() - i,
{
    if !(0 <= i && i < s.len()) {
        None
    } else if s[i] == 34 {
        Some(i)
    } else if s[i] == 92 {
        None
    } else {
        scan_string_end(s, i + 1)
    }
}

/// Parses a quoted string at position `i`: its content bytes and the
/// position after the closing quote.
pub open spec fn spec_parse_string(s: Seq<u8>, i: int) -> Option<(Seq<u8>, int)> {
    if 0 <= i && i < s.len() && s[i] == 34 {
        match scan_string_end(s, i + 1) {
            Some(q) => Some((s.subrange(i + 1, q), q + 1)),
            None => None,
        }
    } else {
        None
    }
}

/// Parses one policy object at position `i`: the tree it denotes and the
/// position after its closing brace. `fuel` bounds the recursion depth; the
/// entry point supplies more than any expression of the given length can use.
pub open spec fn spec_parse_node(s: Seq<u8>, i: int, fuel: nat) -> Option<(Policy, int)>
    decreases fuel,
{
    if fuel == 0 {
        None
    } else {
        let a = skip_ws(s, i);
        if !(a < s.len() && s[a] == 123) {
            None
        } else {
            match spec_parse_string(s, skip_ws(s, a + 1)) {
                None => None,
                Some((key, c)) => {
                    let d = skip_ws(s, c);
                    if !(d < s.len() && s[d] == 58) {
                        None
                    } else {
                        let e = skip_ws(s, d + 1);
                        if key == att_key() {
                            match spec_parse_string(s, e) {
                                None => None,
                                Some((name, f)) => {
                                    if !valid_utf8(name) {
                                        None
                                    } else {
                                        let g = skip_ws(s, f);
                                        if g < s.len() && s[g] == 125 {
                                            Some((Policy::Attr(name), g + 1))
                                        } else {
                                            None
                                        }
                                    }
                                },
                            }
                        } else if key == and_key() || key == or_key() {
                            if !(e < s.len() && s[e] == 91) {
                                None
                            } else {
                                match spec_parse_list(s, e + 1, key == and_key(), (fuel - 1) as nat) {
                                    None => None,
                                    Some((p, f)) => {
                                        let g = skip_ws(s, f);
                                        if g < s.len() && s[g] == 125 {
                                            Some((p, g + 1))
                                        } else {
                                            None
                                        }
                                    },
                                }
                            }
                        } else {
                            None
                        }
                    }
                },
            }
        }
    }
}

/// Parses a non-empty `,`-separated list of policy objects up to its closing
/// bracket, folding the children to the right under the chosen connective.
pub open spec fn spec_parse_list(s: Seq<u8>, i: int, is_and: bool, fuel: nat) -> Option<
    (Policy, int),
>
    decreases fuel,
{
    if fuel == 0 {
        None
    } else {
        match spec_parse_node(s, i, (fuel - 1) as nat) {
            None => None,
            Some((p1, m)) => {
                let d = skip_ws(s, m);
                if d < s.len() && s[d] == 93 {
                    Some((p1, d + 1))
                } else if d < s.len() && s[d] == 44 {
                    match spec_parse_list(s, d + 1, is_and, (fuel - 1) as nat) {
                        None => None,
                        Some((p2, j)) => Some(
                            (
                                if is_and {
                                    Policy::And(Box::new(p1), Box::new(p2))
                                } else {
                                    Policy::Or(Box::new(p1), Box::new(p2))
                                },
                                j,
                            ),
                        ),
                    }
                } else {
                    None
                }
            },
        }
    }
}

/// The policy tree an expression denotes, or `None` when it is malformed.
pub open spec fn spec_parse(s: Seq<u8>) -> Option<Policy> {
    match spec_parse_node(s, 0, s.len() as nat) {
        Some((p, j)) => if skip_ws(s, j) == s.len() {
            Some(p)
        } else {
            None
        },
        None => None,
    }
}

/// Whether a byte string can stand as an attribute name inside a policy
/// expression: valid UTF-8 with no quote and no backslash.
pub open spec fn wf_name(n: Seq<u8>) -> bool {
    valid_utf8(n) && forall|k: int| 0 <= k < n.len() ==> n[k] != 34 && n[k] != 92
}

/// Whether every leaf name of a policy can stand in a policy expression.
pub open spec fn wf_policy(p: Policy) -> bool
    decreases p,
{
    match p {
        Policy::Attr(n) => wf_name(n),
        Policy::And(l, r) => wf_policy(*l) && wf_policy(*r),
        Policy::Or(l, r) => wf_policy(*l) && wf_policy(*r),
    }
}

/// The canonical expression of a policy tree, without blanks.
pub open spec fn render(p: Policy) -> Seq<u8>
    decreases p,
{
    match p {
        Policy::Attr(n) => seq![123u8, 34u8, 65u8, 84u8, 84u8, 34u8, 58u8, 34u8] + n + seq![
            34u8,
            125u8,
        ],
        Policy::And(l, r) => seq![123u8, 34u8, 65u8, 78u8, 68u8, 34u8, 58u8, 91u8] + render(*l)
            + seq![44u8] + render(*r) + seq![93u8, 125u8],
        Policy::Or(l, r) => seq![123u8, 34u8, 79u8, 82u8, 34u8, 58u8, 91u8] + render(*l) + seq![
            44u8,
        ] + render(*r) + seq![93u8, 125u8],
    }
}

/// The number of nodes of a policy tree.
spec fn psize(p: Policy) -> nat
    decreases p,
{
    match p {
        Policy::Attr(_) => 1,
        Policy::And(l, r) => 1 + psize(*l) + psize(*r),
        Policy::Or(l, r) => 1 + psize(*l) + psize(*r),
    }
}

proof fn lemma_scan_over(s: Seq<u8>, i: int, n: Seq<u8>)
    requires
        0 <= i,
        i + n.len() < s.len(),
        forall|k: int| 0 <= k < n.len() ==> n[k] != 34 && #[trigger] n[k] != 92,
        s.subrange(i, i + n.len()) == n,
        s[i + n.len()] == 34,
    ensures
        scan_string_end(s, i) == Some(i + n.len()),
    decreases n.len(),
{
    if n.len() == 0 {
    } else {
        assert(s[i] == n[0]);
        assert(s.subrange(i + 1, i + n.len()) =~= n.subrange(1, n.len() as int));
        lemma_scan_over(s, i + 1, n.subrange(1, n.len() as int));
    }
}

proof fn lemma_parse_string_at(s: Seq<u8>, i: int, n: Seq<u8>)
    requires
        0 <= i,
        i + n.len() + 2 <= s.len(),
        forall|k: int| 0 <= k < n.len() ==> n[k] != 34 && #[trigger] n[k] != 92,
        s[i] == 34,
        s.subrange(i + 1, i + 1 + n.len()) == n,
        s[i + 1 + n.len()] == 34,
    ensures
        spec_parse_string(s, i) == Some((n, i + n.len() + 2)),
{
    lemma_scan_over(s, i + 1, n);
    assert(s.subrange(i + 1, i + 1 + n.len()) == n);
}

proof fn lemma_psize_pos(p: Policy)
    ensures
        psize(p) >= 1,
{
    match p {
        Policy::Attr(_) => {},
        Policy::And(l, r) => {},
        Policy::Or(l, r) => {},
    }
}

/// Parsing is complete for the grammar: the canonical expression of any
/// well-formed policy tree, wherever it stands in a larger byte string,
/// parses back to exactly that tree, whatever bytes surround it.
#[verifier::rlimit(100)]
proof fn lemma_parse_render_at(s: Seq<u8>, i: int, p: Policy, fuel: nat)
    requires
        wf_policy(p),
        0 <= i,
        i + render(p).len() <= s.len(),
        s.subrange(i, i + render(p).len()) == render(p),
        fuel >= 2 * psize(p),
    ensures
        spec_parse_node(s, i, fuel) == Some((p, i + render(p).len())),
    decreases p,
{
    let rp = render(p);
    assert forall|k: int| 0 <= k < rp.len() implies s[i + k] == rp[k] by {
        assert(s.subrange(i, i + rp.len())[k] == s[i + k]);
    }
    match p {
        Policy::Attr(n) => {
            let head = seq![123u8, 34u8, 65u8, 84u8, 84u8, 34u8, 58u8, 34u8];
            let tail = seq![34u8, 125u8];
            assert(rp == head + n + tail);
            assert forall|k: int| 0 <= k < 8 implies s[i + k] == head[k] by {
                assert(rp[k] == head[k]);
            }
            assert(skip_ws(s, i) == i);
            assert(skip_ws(s, i + 1) == i + 1);
            assert(s.subrange(i + 2, i + 5) =~= att_key());
            lemma_parse_string_at(s, i + 1, att_key());
            assert(skip_ws(s, i + 6) == i + 6);
            assert(s[i + 6] == 58);
            assert(skip_ws(s, i + 7) == i + 7);
            assert forall|k: int| 0 <= k < n.len() implies s[i + 8 + k] == n[k] by {
                assert(rp[8 + k] == n[k]);
            }
            assert(s.subrange(i + 8, i + 8 + n.len()) =~= n);
            assert(s[i + 8 + n.len() as int] == 34) by {
                assert(rp[8 + n.len() as int] == tail[0]);
            }
            lemma_parse_string_at(s, i + 7, n);
            assert(s[i + 9 + n.len() as int] == 125) by {
                assert(rp[9 + n.len() as int] == tail[1]);
            }
            assert(skip_ws(s, i + 9 + n.len()) == i + 9 + n.len());
            assert(spec_parse_node(s, i, fuel) == Some((p, i + 10 + n.len())));
            assert(rp.len() == 10 + n.len());
        },
        Policy::And(l, r) => {
            let head = seq![123u8, 34u8, 65u8, 78u8, 68u8, 34u8, 58u8, 91u8];
            let ll = render(*l).len() as int;
            let lr = render(*r).len() as int;
            assert(rp == head + render(*l) + seq![44u8] + render(*r) + seq![93u8, 125u8]);
            assert(rp.len() == 11 + ll + lr);
            assert forall|k: int| 0 <= k < 8 implies s[i + k] == head[k] by {
                assert(rp[k] == head[k]);
            }
            assert(skip_ws(s, i) == i);
            assert(skip_ws(s, i + 1) == i + 1);
            assert(s.subrange(i + 2, i + 5) =~= and_key());
            lemma_parse_string_at(s, i + 1, and_key());
            assert(skip_ws(s, i + 6) == i + 6);
            assert(skip_ws(s, i + 7) == i + 7);
            assert(and_key() != att_key());
            assert(and_key() == and_key() || and_key() == or_key());
            // the first child's segment
            assert(s.subrange(i + 8, i + 8 + ll) =~= render(*l)) by {
                assert forall|k: int| 0 <= k < ll implies s[i + 8 + k] == render(*l)[k] by {
                    assert(rp[8 + k] == render(*l)[k]);
                }
            }
            lemma_psize_pos(*l);
            lemma_psize_pos(*r);
            lemma_parse_render_at(s, i + 8, *l, (fuel - 2) as nat);
            let m = i + 8 + ll;
            assert(s[m] == 44) by {
                assert(rp[8 + ll] == 44);
            }
            assert(skip_ws(s, m) == m);
            // the second child's segment
            assert(s.subrange(m + 1, m + 1 + lr) =~= render(*r)) by {
                assert forall|k: int| 0 <= k < lr implies s[m + 1 + k] == render(*r)[k] by {
                    assert(rp[9 + ll + k] == render(*r)[k]);
                }
            }
            lemma_parse_render_at(s, m + 1, *r, (fuel - 3) as nat);
            let m2 = m + 1 + lr;
            assert(s[m2] == 93) by {
                assert(rp[9 + ll + lr] == 93);
            }
            assert(skip_ws(s, m2) == m2);
            assert(spec_parse_list(s, m + 1, true, (fuel - 2) as nat) == Some((*r, m2 + 1)));
            assert(spec_parse_list(s, i + 8, true, (fuel - 1) as nat) == Some((p, m2 + 1)));
            assert(s[m2 + 1] == 125) by {
                assert(rp[10 + ll + lr] == 125);
            }
            assert(skip_ws(s, m2 + 1) == m2 + 1);
            assert(spec_parse_node(s, i, fuel) == Some((p, m2 + 2)));
        },
        Policy::Or(l, r) => {
            let head = seq![123u8, 34u8, 79u8, 82u8, 34u8, 58u8, 91u8];
            let ll = render(*l).len() as int;
            let lr = render(*r).len() as int;
            assert(rp == head + render(*l) + seq![44u8] + render(*r) + seq![93u8, 125u8]);
            assert(rp.len() == 10 + ll + lr);
            assert forall|k: int| 0 <= k < 7 implies s[i + k] == head[k] by {
                assert(rp[k] == head[k]);
            }
            assert(skip_ws(s, i) == i);
            assert(skip_ws(s, i + 1) == i + 1);
            assert(s.subrange(i + 2, i + 4) =~= or_key());
            lemma_parse_string_at(s, i + 1, or_key());
            assert(skip_ws(s, i + 5) == i + 5);
            assert(skip_ws(s, i + 6) == i + 6);
            assert(or_key() != att_key());
            assert(or_key() != and_key());
            assert(s.subrange(i + 7, i + 7 + ll) =~= render(*l)) by {
                assert forall|k: int| 0 <= k < ll implies s[i + 7 + k] == render(*l)[k] by {
                    assert(rp[7 + k] == render(*l)[k]);
                }
            }
            lemma_psize_pos(*l);
            lemma_psize_pos(*r);
            lemma_parse_render_at(s, i + 7, *l, (fuel - 2) as nat);
            let m = i + 7 + ll;
            assert(s[m] == 44) by {
                assert(rp[7 + ll] == 44);
            }
            assert(skip_ws(s, m) == m);
            assert(s.subrange(m + 1, m + 1 + lr) =~= render(*r)) by {
                assert forall|k: int| 0 <= k < lr implies s[m + 1 + k] == render(*r)[k] by {
                    assert(rp[8 + ll + k] == render(*r)[k]);
                }
            }
            lemma_parse_render_at(s, m + 1, *r, (fuel - 3) as nat);
            let m2 = m + 1 + lr;
            assert(s[m2] == 93) by {
                assert(rp[8 + ll + lr] == 93);
            }
            assert(skip_ws(s, m2) == m2);
            assert(spec_parse_list(s, m + 1, false, (fuel - 2) as nat) == Some((*r, m2 + 1)));
            assert(spec_parse_list(s, i + 7, false, (fuel - 1) as nat) == Some((p, m2 + 1)));
            assert(s[m2 + 1] == 125) by {
                assert(rp[9 + ll + lr] == 125);
            }
            assert(skip_ws(s, m2 + 1) == m2 + 1);
            assert(spec_parse_node(s, i, fuel) == Some((p, m2 + 2)));
        },
    }
}

proof fn lemma_render_len(p: Policy)
    ensures
        render(p).len() >= 2 * psize(p),
    decreases p,
{
    match p {
        Policy::Attr(_) => {},
        Policy::And(l, r) => {
            lemma_render_len(*l);
            lemma_render_len(*r);
        },
        Policy::Or(l, r) => {
            lemma_render_len(*l);
            lemma_render_len(*r);
        },
    }
}

/// The round trip of the grammar: the canonical expression of any
/// well-formed policy tree parses back to exactly that tree. Together with
/// the parser's own contract, any tree a caller can write down is accepted,
/// so the parser rejects only genuinely malformed expressions.
pub proof fn lemma_parse_render_round_trip(p: Policy)
    requires
        wf_policy(p),
    ensures
        spec_parse(render(p)) == Some(p),
{
    let s = render(p);
    lemma_render_len(p);
    assert(s.subrange(0, s.len() as int) =~= s);
    lemma_parse_render_at(s, 0, p, s.len() as nat);
    assert(skip_ws(s, s.len() as int) == s.len());
}

/// Relies on `String::from_utf8`: it returns a string exactly when the bytes
/// are valid UTF-8, and that string's encoding is those bytes.
#[verifier::external_body]
fn string_from_utf8(v: Vec<u8>) -> (r: Option<String>)
    ensures
        r is Some <==> valid_utf8(v@),
        r is Some ==> encode_utf8(r.unwrap()@) == v@,
{
    String::from_utf8(v).ok()
}

fn skip_ws_x(s: &[u8], i: usize) -> (r: usize)
    requires
        i <= s@.len(),
    ensures
        i <= r <= s@.len(),
        r == skip_ws(s@, i as int),
    decreases s@.len() - i,
{
    if i < s.len() {
        let b = s[i];
        if b == 32 || b == 9 || b == 10 || b == 13 {
            return skip_ws_x(s, i + 1);
        }
    }
    i
}

fn scan_end_x(s: &[u8], i: usize) -> (r: Option<usize>)
    requires
        i <= s@.len(),
    ensures
        r is Some <==> scan_string_end(s@, i as int) is Some,
        r matches Some(q) ==> q as int == scan_string_end(s@, i as int).unwrap() && i <= q
            < s@.len(),
    decreases s@.len() - i,
{
    if i >= s.len() {
        None
    } else if s[i] == 34 {
        Some(i)
    } else if s[i] == 92 {
        None
    } else {
        scan_end_x(s, i + 1)
    }
}

fn parse_string_x(s: &[u8], i: usize) -> (r: Option<(Vec<u8>, usize)>)
    requires
        i <= s@.len(),
    ensures
        r is Some <==> spec_parse_string(s@, i as int) is Some,
        r matches Some(p) ==> {
            let sp = spec_parse_string(s@, i as int).unwrap();
            p.0@ == sp.0 && p.1 as int == sp.1 && p.1 <= s@.len()
        },
{
    if i < s.len() && s[i] == 34 {
        match scan_end_x(s, i + 1) {
            Some(q) => {
                let mut v: Vec<u8> = Vec::new();
                let mut k: usize = i + 1;
                while k < q
                    invariant
                        i + 1 <= k <= q < s@.len(),
                        v@ == s@.subrange(i as int + 1, k as int),
                    decreases q - k,
                {
                    v.push(s[k]);
                    proof {
                        assert(s@.subrange(i as int + 1, k + 1) =~= s@.subrange(
                            i as int + 1,
                            k as int,
                        ).push(s@[k as int]));
                    }
                    k = k + 1;
                }
                Some((v, q + 1))
            },
            None => None,
        }
    } else {
        None
    }
}

fn is_key3(v: &Vec<u8>, a: u8, b: u8, c: u8) -> (r: bool)
    ensures
        r == (v@ == seq![a, b, c]),
{
    if v.len() == 3 {
        let r = v[0] == a && v[1] == b && v[2] == c;
        proof {
            if r {
                assert(v@ =~= seq![a, b, c]);
            } else {
                if v@ == seq![a, b, c] {
                    assert(v@[0] == a && v@[1] == b && v@[2] == c);
                }
            }
        }
        r
    } else {
        assert(v@.len() != seq![a, b, c].len());
        false
    }
}

fn is_key2(v: &Vec<u8>, a: u8, b: u8) -> (r: bool)
    ensures
        r == (v@ == seq![a, b]),
{
    if v.len() == 2 {
        let r = v[0] == a && v[1] == b;
        proof {
            if r {
                assert(v@ =~= seq![a, b]);
            } else {
                if v@ == seq![a, b] {
                    assert(v@[0] == a && v@[1] == b);
                }
            }
        }
        r
    } else {
        assert(v@.len() != seq![a, b].len());
        false
    }
}

fn parse_node_x(s: &[u8], i: usize, fuel: usize) -> (r: Result<(PolicyNode, usize), AbeError>)
    requires
        i <= s@.len(),
    ensures
        spec_parse_node(s@, i as int, fuel as nat) matches Some(sp) ==> r matches Ok(p)
            && pv(p.0) == sp.0 && p.1 as int == sp.1 && p.1 <= s@.len(),
        spec_parse_node(s@, i as int, fuel as nat) is None ==> r == Err::<
            (PolicyNode, usize),
            AbeError,
        >(AbeError::PolicyParseError),
    decreases fuel,
{
    if fuel == 0 {
        return Err(AbeError::PolicyParseError);
    }
    let a = skip_ws_x(s, i);
    if !(a < s.len() && s[a] == 123) {
        return Err(AbeError::PolicyParseError);
    }
    match parse_string_x(s, skip_ws_x(s, a + 1)) {
        None => Err(AbeError::PolicyParseError),
        Some((key, c)) => {
            let d = skip_ws_x(s, c);
            if !(d < s.len() && s[d] == 58) {
                return Err(AbeError::PolicyParseError);
            }
            let e = skip_ws_x(s, d + 1);
            if is_key3(&key, 65, 84, 84) {
                match parse_string_x(s, e) {
                    None => Err(AbeError::PolicyParseError),
                    Some((name, f)) => {
                        let ghost nv = name@;
                        match string_from_utf8(name) {
                            None => Err(AbeError::PolicyParseError),
                            Some(nm) => {
                                let g = skip_ws_x(s, f);
                                if g < s.len() && s[g] == 125 {
                                    proof {
                                        assert(pv(PolicyNode::Attr(nm)) == Policy::Attr(nv));
                                    }
                                    Ok((PolicyNode::Attr(nm), g + 1))
                                } else {
                                    Err(AbeError::PolicyParseError)
                                }
                            },
                        }
                    },
                }
            } else if is_key3(&key, 65, 78, 68) || is_key2(&key, 79, 82) {
                let is_and = is_key3(&key, 65, 78, 68);
                if !(e < s.len() && s[e] == 91) {
                    return Err(AbeError::PolicyParseError);
                }
                match parse_list_x(s, e + 1, is_and, fuel - 1) {
                    Err(_) => Err(AbeError::PolicyParseError),
                    Ok((p, f)) => {
                        let g = skip_ws_x(s, f);
                        if g < s.len() && s[g] == 125 {
                            Ok((p, g + 1))
                        } else {
                            Err(AbeError::PolicyParseError)
                        }
                    },
                }
            } else {
                Err(AbeError::PolicyParseError)
            }
        },
    }
}

fn parse_list_x(s: &[u8], i: usize, is_and: bool, fuel: usize) -> (r: Result<
    (PolicyNode, usize),
    AbeError,
>)
    requires
        i <= s@.len(),
    ensures
        spec_parse_list(s@, i as int, is_and, fuel as nat) matches Some(sp) ==> r matches Ok(p)
            && pv(p.0) == sp.0 && p.1 as int == sp.1 && p.1 <= s@.len(),
        spec_parse_list(s@, i as int, is_and, fuel as nat) is None ==> r == Err::<
            (PolicyNode, usize),
            AbeError,
        >(AbeError::PolicyParseError),
    decreases fuel,
{
    if fuel == 0 {
        return Err(AbeError::PolicyParseError);
    }
    match parse_node_x(s, i, fuel - 1) {
        Err(_) => Err(AbeError::PolicyParseError),
        Ok((p1, m)) => {
            let d = skip_ws_x(s, m);
            if d < s.len() && s[d] == 93 {
                Ok((p1, d + 1))
            } else if d < s.len() && s[d] == 44 {
                match parse_list_x(s, d + 1, is_and, fuel - 1) {
                    Err(_) => Err(AbeError::PolicyParseError),
                    Ok((p2, j)) => {
                        let node = if is_and {
                            PolicyNode::And(Box::new(p1), Box::new(p2))
                        } else {
                            PolicyNode::Or(Box::new(p1), Box::new(p2))
                        };
                        Ok((node, j))
                    },
                }
            } else {
                Err(AbeError::PolicyParseError)
            }
        },
    }
}

/// Parses a policy expression into its tree, reporting `PolicyParseError`
/// exactly on the strings the grammar rejects.
pub fn parse_policy(s: &str) -> (r: Result<PolicyNode, AbeError>)
    ensures
        spec_parse(sbytes(s@)) matches Some(p) ==> r matches Ok(t) && pv(t) == p,
        spec_parse(sbytes(s@)) is None ==> r == Err::<PolicyNode, AbeError>(
            AbeError::PolicyParseError,
        ),
{
    let bytes = s.as_bytes();
    match parse_node_x(bytes, 0, bytes.len()) {
        Err(e) => Err(e),
        Ok((t, j)) => {
            let g = skip_ws_x(bytes, j);
            if g == bytes.len() {
                Ok(t)
            } else {
                Err(AbeError::PolicyParseError)
            }
        },
    }
}

} // verus!
