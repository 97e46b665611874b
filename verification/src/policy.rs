//! Boolean access policies over attribute names: the tree form, the
//! satisfaction judgment, and the choice of a minimal satisfying leaf set.

use vstd::prelude::*;

use crate::names::{name_eq, sbytes};

verus! {

/// The mathematical form of a policy: a finite tree of attribute leaves under
/// binary conjunction and disjunction. Leaf names are kept as the bytes of
/// their UTF-8 encoding.
pub enum Policy {
    Attr(Seq<u8>),
    And(Box<Policy>, Box<Policy>),
    Or(Box<Policy>, Box<Policy>),
}

/// The executable form of a policy tree, as produced from a policy expression.
pub enum PolicyNode {
    Attr(String),
    And(Box<PolicyNode>, Box<PolicyNode>),
    Or(Box<PolicyNode>, Box<PolicyNode>),
}

/// The mathematical tree that an executable tree stands for.
pub open spec fn pv(t: PolicyNode) -> Policy
    decreases t,
{
    match t {
        PolicyNode::Attr(a) => Policy::Attr(sbytes(a@)),
        PolicyNode::And(l, r) => Policy::And(Box::new(pv(*l)), Box::new(pv(*r))),
        PolicyNode::Or(l, r) => Policy::Or(Box::new(pv(*l)), Box::new(pv(*r))),
    }
}

/// The views of a list of held attribute names.
pub open spec fn names_view(ns: Seq<String>) -> Seq<Seq<u8>> {
    ns.map_values(|s: String| sbytes(s@))
}

/// Whether one of the held names is the given attribute, up to case.
pub open spec fn holds_name(names: Seq<Seq<u8>>, a: Seq<u8>) -> bool {
    exists|i: int| 0 <= i < names.len() && name_eq(#[trigger] names[i], a)
}

/// Whether a set of held attribute names satisfies a policy: a leaf asks for
/// its attribute (case-insensitively), a conjunction for both children, a
/// disjunction for either child.
pub open spec fn sat(p: Policy, names: Seq<Seq<u8>>) -> bool
    decreases p,
{
    match p {
        Policy::Attr(a) => holds_name(names, a),
        Policy::And(l, r) => sat(*l, names) && sat(*r, names),
        Policy::Or(l, r) => sat(*l, names) || sat(*r, names),
    }
}

/// The leaf attribute names of a policy, left to right.
pub open spec fn leaves(p: Policy) -> Seq<Seq<u8>>
    decreases p,
{
    match p {
        Policy::Attr(a) => seq![a],
        Policy::And(l, r) => leaves(*l) + leaves(*r),
        Policy::Or(l, r) => leaves(*l) + leaves(*r),
    }
}

/// The minimal leaf set that proves satisfaction, for a satisfied policy: a
/// conjunction needs both children's sets, a disjunction takes the first
/// satisfied child in listed order.
pub open spec fn prune(p: Policy, names: Seq<Seq<u8>>) -> Seq<Seq<u8>>
    recommends
        sat(p, names),
    decreases p,
{
    match p {
        Policy::Attr(a) => seq![a],
        Policy::And(l, r) => prune(*l, names) + prune(*r, names),
        Policy::Or(l, r) => if sat(*l, names) {
            prune(*l, names)
        } else {
            prune(*r, names)
        },
    }
}

/// The positions, among the policy's leaves in leaf order, of the leaves the
/// minimal satisfying choice picks.
pub open spec fn chosen_idx(p: Policy, names: Seq<Seq<u8>>) -> Seq<int>
    recommends
        sat(p, names),
    decreases p,
{
    match p {
        Policy::Attr(_) => seq![0int],
        Policy::And(l, r) => chosen_idx(*l, names) + chosen_idx(*r, names).map_values(
            |x: int| x + leaves(*l).len(),
        ),
        Policy::Or(l, r) => if sat(*l, names) {
            chosen_idx(*l, names)
        } else {
            chosen_idx(*r, names).map_values(|x: int| x + leaves(*l).len())
        },
    }
}

/// The chosen positions point into the policy's leaves.
pub proof fn lemma_chosen_idx_bounds(p: Policy, names: Seq<Seq<u8>>)
    requires
        sat(p, names),
    ensures
        forall|k: int|
            0 <= k < chosen_idx(p, names).len() ==> 0 <= #[trigger] chosen_idx(p, names)[k]
                < leaves(p).len(),
    decreases p,
{
    match p {
        Policy::Attr(_) => {
            assert(chosen_idx(p, names) == seq![0int]);
            assert(chosen_idx(p, names)[0] == 0);
            assert(leaves(p).len() == 1);
        },
        Policy::And(l, r) => {
            lemma_chosen_idx_bounds(*l, names);
            lemma_chosen_idx_bounds(*r, names);
            assert forall|k: int| 0 <= k < chosen_idx(p, names).len() implies 0
                <= #[trigger] chosen_idx(p, names)[k] < leaves(p).len() by {
                let il = chosen_idx(*l, names);
                let ir = chosen_idx(*r, names);
                let m = ir.map_values(|x: int| x + leaves(*l).len());
                assert(chosen_idx(p, names) == il + m);
                assert(leaves(p) == leaves(*l) + leaves(*r));
                if k < il.len() {
                    assert(chosen_idx(p, names)[k] == il[k]);
                } else {
                    assert(chosen_idx(p, names)[k] == m[k - il.len()]);
                    assert(m[k - il.len()] == ir[k - il.len()] + leaves(*l).len());
                }
            }
        },
        Policy::Or(l, r) => {
            if sat(*l, names) {
                lemma_chosen_idx_bounds(*l, names);
                assert(chosen_idx(p, names) == chosen_idx(*l, names));
                assert(leaves(p) == leaves(*l) + leaves(*r));
            } else {
                lemma_chosen_idx_bounds(*r, names);
                assert forall|k: int| 0 <= k < chosen_idx(p, names).len() implies 0
                    <= #[trigger] chosen_idx(p, names)[k] < leaves(p).len() by {
                    let ir = chosen_idx(*r, names);
                    let m = ir.map_values(|x: int| x + leaves(*l).len());
                    assert(chosen_idx(p, names) == m);
                    assert(leaves(p) == leaves(*l) + leaves(*r));
                    assert(chosen_idx(p, names)[k] == ir[k] + leaves(*l).len());
                }
            }
        },
    }
}

/// The chosen positions name exactly the leaves of the minimal satisfying
/// choice, in the same order.
pub proof fn lemma_chosen_idx_prune(p: Policy, names: Seq<Seq<u8>>)
    requires
        sat(p, names),
    ensures
        chosen_idx(p, names).len() == prune(p, names).len(),
        forall|k: int|
            0 <= k < chosen_idx(p, names).len() ==> leaves(p)[#[trigger] chosen_idx(p, names)[k]]
                == prune(p, names)[k],
    decreases p,
{
    lemma_chosen_idx_bounds(p, names);
    match p {
        Policy::Attr(_) => {},
        Policy::And(l, r) => {
            lemma_chosen_idx_bounds(*l, names);
            lemma_chosen_idx_bounds(*r, names);
            lemma_chosen_idx_prune(*l, names);
            lemma_chosen_idx_prune(*r, names);
            assert forall|k: int| 0 <= k < chosen_idx(p, names).len() implies leaves(
                p,
            )[#[trigger] chosen_idx(p, names)[k]] == prune(p, names)[k] by {
                let il = chosen_idx(*l, names);
                let ir = chosen_idx(*r, names);
                if k < il.len() {
                    assert(chosen_idx(p, names)[k] == il[k]);
                    assert(leaves(p)[il[k]] == leaves(*l)[il[k]]);
                    assert(prune(p, names)[k] == prune(*l, names)[k]);
                } else {
                    let k2 = k - il.len();
                    assert(chosen_idx(p, names)[k] == ir[k2] + leaves(*l).len());
                    assert(leaves(p)[ir[k2] + leaves(*l).len()] == leaves(*r)[ir[k2]]);
                    assert(prune(p, names)[k] == prune(*r, names)[k2]);
                }
            }
        },
        Policy::Or(l, r) => {
            if sat(*l, names) {
                lemma_chosen_idx_bounds(*l, names);
                lemma_chosen_idx_prune(*l, names);
                assert forall|k: int| 0 <= k < chosen_idx(p, names).len() implies leaves(
                    p,
                )[#[trigger] chosen_idx(p, names)[k]] == prune(p, names)[k] by {
                    let il = chosen_idx(*l, names);
                    assert(chosen_idx(p, names) == il);
                    assert(leaves(p) == leaves(*l) + leaves(*r));
                    assert(0 <= il[k] < leaves(*l).len());
                    assert(leaves(p)[il[k]] == leaves(*l)[il[k]]);
                    assert(prune(p, names) == prune(*l, names));
                }
            } else {
                lemma_chosen_idx_bounds(*r, names);
                lemma_chosen_idx_prune(*r, names);
                assert forall|k: int| 0 <= k < chosen_idx(p, names).len() implies leaves(
                    p,
                )[#[trigger] chosen_idx(p, names)[k]] == prune(p, names)[k] by {
                    let ir = chosen_idx(*r, names);
                    assert(chosen_idx(p, names)[k] == ir[k] + leaves(*l).len());
                    assert(leaves(p)[ir[k] + leaves(*l).len()] == leaves(*r)[ir[k]]);
                }
            }
        },
    }
}

/// Every chosen leaf is a leaf of the policy.
pub proof fn lemma_prune_in_leaves(p: Policy, names: Seq<Seq<u8>>)
    requires
        sat(p, names),
    ensures
        forall|j: int|
            0 <= j < prune(p, names).len() ==> leaves(p).contains(#[trigger] prune(p, names)[j]),
    decreases p,
{
    match p {
        Policy::Attr(a) => {
            assert(leaves(p)[0] == a);
        },
        Policy::And(l, r) => {
            lemma_prune_in_leaves(*l, names);
            lemma_prune_in_leaves(*r, names);
            assert forall|j: int| 0 <= j < prune(p, names).len() implies leaves(p).contains(
                #[trigger] prune(p, names)[j],
            ) by {
                let pl = prune(*l, names);
                if j < pl.len() {
                    let k = choose|k: int| 0 <= k < leaves(*l).len() && leaves(*l)[k] == pl[j];
                    assert(leaves(p)[k] == pl[j]);
                } else {
                    let pj = prune(*r, names)[j - pl.len()];
                    let k = choose|k: int| 0 <= k < leaves(*r).len() && leaves(*r)[k] == pj;
                    assert(leaves(p)[leaves(*l).len() + k] == pj);
                }
            }
        },
        Policy::Or(l, r) => {
            if sat(*l, names) {
                lemma_prune_in_leaves(*l, names);
                assert forall|j: int| 0 <= j < prune(p, names).len() implies leaves(p).contains(
                    #[trigger] prune(p, names)[j],
                ) by {
                    let k = choose|k: int|
                        0 <= k < leaves(*l).len() && leaves(*l)[k] == prune(*l, names)[j];
                    assert(leaves(p)[k] == prune(*l, names)[j]);
                }
            } else {
                lemma_prune_in_leaves(*r, names);
                assert forall|j: int| 0 <= j < prune(p, names).len() implies leaves(p).contains(
                    #[trigger] prune(p, names)[j],
                ) by {
                    let k = choose|k: int|
                        0 <= k < leaves(*r).len() && leaves(*r)[k] == prune(*r, names)[j];
                    assert(leaves(p)[leaves(*l).len() + k] == prune(*r, names)[j]);
                }
            }
        },
    }
}

/// Every chosen leaf is matched, case-insensitively, by one of the held
/// names: the holder really owns the attributes the chosen set asks for.
pub proof fn lemma_prune_matched(p: Policy, names: Seq<Seq<u8>>)
    requires
        sat(p, names),
    ensures
        forall|j: int|
            0 <= j < prune(p, names).len() ==> holds_name(names, #[trigger] prune(p, names)[j]),
    decreases p,
{
    match p {
        Policy::Attr(a) => {
            assert forall|j: int| 0 <= j < prune(p, names).len() implies holds_name(
                names,
                #[trigger] prune(p, names)[j],
            ) by {
                assert(prune(p, names) == seq![a]);
                assert(prune(p, names)[j] == a);
            }
        },
        Policy::And(l, r) => {
            lemma_prune_matched(*l, names);
            lemma_prune_matched(*r, names);
            assert forall|j: int| 0 <= j < prune(p, names).len() implies holds_name(
                names,
                #[trigger] prune(p, names)[j],
            ) by {
                let pl = prune(*l, names);
                let pr = prune(*r, names);
                assert(prune(p, names) == pl + pr);
                if j < pl.len() {
                    assert(prune(p, names)[j] == pl[j]);
                } else {
                    assert(prune(p, names)[j] == pr[j - pl.len()]);
                }
            }
        },
        Policy::Or(l, r) => {
            if sat(*l, names) {
                lemma_prune_matched(*l, names);
                assert forall|j: int| 0 <= j < prune(p, names).len() implies holds_name(
                    names,
                    #[trigger] prune(p, names)[j],
                ) by {
                    assert(prune(p, names) == prune(*l, names));
                    assert(holds_name(names, prune(*l, names)[j]));
                }
            } else {
                lemma_prune_matched(*r, names);
                assert forall|j: int| 0 <= j < prune(p, names).len() implies holds_name(
                    names,
                    #[trigger] prune(p, names)[j],
                ) by {
                    assert(prune(p, names) == prune(*r, names));
                    assert(holds_name(names, prune(*r, names)[j]));
                }
            }
        },
    }
}

/// Case-insensitivity of lookups: two spellings of one name are found under
/// exactly the same collections, so issuance and encryption treat them as
/// the same attribute.
pub proof fn lemma_holds_name_case_insensitive(names: Seq<Seq<u8>>, a1: Seq<u8>, a2: Seq<u8>)
    requires
        name_eq(a1, a2),
    ensures
        holds_name(names, a1) == holds_name(names, a2),
{
    if holds_name(names, a1) {
        let i = choose|i: int| 0 <= i < names.len() && name_eq(#[trigger] names[i], a1);
        assert(name_eq(names[i], a2));
    }
    if holds_name(names, a2) {
        let i = choose|i: int| 0 <= i < names.len() && name_eq(#[trigger] names[i], a2);
        assert(name_eq(names[i], a1));
    }
}

/// Satisfaction only grows with the held names: any set that matches every
/// name of a satisfying set (up to case) satisfies the policy too.
pub proof fn lemma_sat_superset(p: Policy, names1: Seq<Seq<u8>>, names2: Seq<Seq<u8>>)
    requires
        sat(p, names1),
        forall|i: int| 0 <= i < names1.len() ==> holds_name(names2, #[trigger] names1[i]),
    ensures
        sat(p, names2),
    decreases p,
{
    match p {
        Policy::Attr(a) => {
            let i = choose|i: int| 0 <= i < names1.len() && name_eq(#[trigger] names1[i], a);
            let j = choose|j: int| 0 <= j < names2.len() && name_eq(#[trigger] names2[j], names1[i]);
            assert(name_eq(names2[j], a));
        },
        Policy::And(l, r) => {
            lemma_sat_superset(*l, names1, names2);
            lemma_sat_superset(*r, names1, names2);
        },
        Policy::Or(l, r) => {
            if sat(*l, names1) {
                lemma_sat_superset(*l, names1, names2);
            } else {
                lemma_sat_superset(*r, names1, names2);
            }
        },
    }
}

/// The minimal chosen leaf set is itself sufficient to prove satisfaction: a
/// holder of exactly the chosen attributes satisfies the policy.
pub proof fn lemma_prune_satisfies(p: Policy, names: Seq<Seq<u8>>)
    requires
        sat(p, names),
    ensures
        sat(p, prune(p, names)),
    decreases p,
{
    match p {
        Policy::Attr(a) => {
            assert(prune(p, names)[0] == a);
        },
        Policy::And(l, r) => {
            lemma_prune_satisfies(*l, names);
            lemma_prune_satisfies(*r, names);
            let pl = prune(*l, names);
            let pr = prune(*r, names);
            assert(prune(p, names) == pl + pr);
            assert forall|i: int| 0 <= i < pl.len() implies holds_name(
                pl + pr,
                #[trigger] pl[i],
            ) by {
                assert((pl + pr)[i] == pl[i]);
            }
            assert forall|i: int| 0 <= i < pr.len() implies holds_name(
                pl + pr,
                #[trigger] pr[i],
            ) by {
                assert((pl + pr)[pl.len() + i] == pr[i]);
            }
            lemma_sat_superset(*l, pl, pl + pr);
            lemma_sat_superset(*r, pr, pl + pr);
        },
        Policy::Or(l, r) => {
            if sat(*l, names) {
                lemma_prune_satisfies(*l, names);
                assert(prune(p, names) == prune(*l, names));
            } else {
                lemma_prune_satisfies(*r, names);
                assert(prune(p, names) == prune(*r, names));
            }
        },
    }
}

/// Case-insensitivity of satisfaction: replacing every held name by any name
/// with the same case-normalized form leaves the judgment unchanged.
pub proof fn lemma_sat_case_insensitive(p: Policy, names1: Seq<Seq<u8>>, names2: Seq<Seq<u8>>)
    requires
        names1.len() == names2.len(),
        forall|i: int|
            0 <= i < names1.len() ==> name_eq(#[trigger] names1[i], #[trigger] names2[i]),
    ensures
        sat(p, names1) == sat(p, names2),
    decreases p,
{
    match p {
        Policy::Attr(a) => {
            if holds_name(names1, a) {
                let i = choose|i: int| 0 <= i < names1.len() && name_eq(#[trigger] names1[i], a);
                assert(name_eq(names2[i], a));
            }
            if holds_name(names2, a) {
                let i = choose|i: int| 0 <= i < names2.len() && name_eq(#[trigger] names2[i], a);
                assert(name_eq(names1[i], a));
            }
        },
        Policy::And(l, r) => {
            lemma_sat_case_insensitive(*l, names1, names2);
            lemma_sat_case_insensitive(*r, names1, names2);
        },
        Policy::Or(l, r) => {
            lemma_sat_case_insensitive(*l, names1, names2);
            lemma_sat_case_insensitive(*r, names1, names2);
        },
    }
}

/// Decides whether the held attribute names satisfy the policy.
pub fn satisfies(t: &PolicyNode, names: &Vec<String>) -> (r: bool)
    ensures
        r == sat(pv(*t), names_view(names@)),
    decreases *t,
{
    match t {
        PolicyNode::Attr(a) => {
            let n = names.len();
            let mut i: usize = 0;
            while i < n
                invariant
                    n == names@.len(),
                    0 <= i <= n,
                    pv(*t) == Policy::Attr(sbytes(a@)),
                    forall|k: int|
                        0 <= k < i ==> !name_eq(#[trigger] names_view(names@)[k], sbytes(a@)),
                decreases n - i,
            {
                if crate::names::str_name_eq(names[i].as_str(), a.as_str()) {
                    proof {
                        assert(names_view(names@)[i as int] == sbytes(names@[i as int]@));
                        assert(holds_name(names_view(names@), sbytes(a@)));
                    }
                    return true;
                }
                i = i + 1;
            }
            proof {
                assert(!holds_name(names_view(names@), sbytes(a@))) by {
                    assert forall|k: int|
                        0 <= k < names_view(names@).len() implies !name_eq(
                        #[trigger] names_view(names@)[k],
                        sbytes(a@),
                    ) by {}
                }
            }
            false
        },
        PolicyNode::And(l, r) => {
            let sl = satisfies(&**l, names);
            let sr = satisfies(&**r, names);
            sl && sr
        },
        PolicyNode::Or(l, r) => {
            let sl = satisfies(&**l, names);
            if sl {
                true
            } else {
                satisfies(&**r, names)
            }
        },
    }
}

/// Returns the minimal leaf set proving satisfaction, or `None` when the held
/// names do not satisfy the policy.
pub fn calc_pruned(t: &PolicyNode, names: &Vec<String>) -> (r: Option<Vec<String>>)
    ensures
        r is Some <==> sat(pv(*t), names_view(names@)),
        r is Some ==> names_view(r.unwrap()@) == prune(pv(*t), names_view(names@)),
    decreases *t,
{
    match t {
        PolicyNode::Attr(a) => {
            if satisfies(t, names) {
                let mut v: Vec<String> = Vec::new();
                v.push(a.clone());
                proof {
                    assert(names_view(v@) =~= prune(pv(*t), names_view(names@)));
                }
                Some(v)
            } else {
                None
            }
        },
        PolicyNode::And(l, r) => {
            match calc_pruned(&**l, names) {
                None => None,
                Some(mut vl) => match calc_pruned(&**r, names) {
                    None => None,
                    Some(mut vr) => {
                        vl.append(&mut vr);
                        proof {
                            assert(names_view(vl@) =~= prune(pv(*t), names_view(names@)));
                        }
                        Some(vl)
                    },
                },
            }
        },
        PolicyNode::Or(l, r) => {
            match calc_pruned(&**l, names) {
                Some(vl) => Some(vl),
                None => calc_pruned(&**r, names),
            }
        },
    }
}

} // verus!
