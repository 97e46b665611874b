//! The linear secret-sharing engine over a policy tree.
//!
//! A conjunction splits its incoming share into two shares that sum to it
//! (one drawn fresh at random); a disjunction hands its share to every child
//! unchanged; a leaf files the share it receives under its attribute. The
//! reconstruction coefficient propagates unchanged along this tree, so every
//! chosen row's coefficient is one.
//!
//! The executable functions compute with opaque field elements. The scalar
//! model below mirrors the same distribution rule over the integers, and the
//! reconstruction law proves that along any satisfying choice of leaves the
//! chosen shares sum back to the secret exactly.

use vstd::prelude::*;

use crate::groups::{fr_one, fr_random, fr_sub};
use crate::names::sbytes;
use crate::policy::{Policy, PolicyNode, chosen_idx, leaves, pv, sat};

verus! {

/// The number of conjunction nodes of a policy: how many fresh scalars one
/// share distribution draws.
pub open spec fn and_count(p: Policy) -> nat
    decreases p,
{
    match p {
        Policy::Attr(_) => 0,
        Policy::And(l, r) => 1 + and_count(*l) + and_count(*r),
        Policy::Or(l, r) => and_count(*l) + and_count(*r),
    }
}

/// The scalar model of share distribution: the share of each leaf, in leaf
/// order, when the secret `s` is distributed over `p` and the conjunctions
/// consume the fresh scalars `rnd`, in node order.
pub open spec fn shares_model(p: Policy, s: int, rnd: Seq<int>) -> Seq<int>
    decreases p,
{
    match p {
        Policy::Attr(_) => seq![s],
        Policy::And(l, r) => shares_model(*l, rnd[0], rnd.skip(1).take(and_count(*l) as int))
            + shares_model(*r, s - rnd[0], rnd.skip(1 + and_count(*l) as int)),
        Policy::Or(l, r) => shares_model(*l, s, rnd.take(and_count(*l) as int)) + shares_model(
            *r,
            s,
            rnd.skip(and_count(*l) as int),
        ),
    }
}

/// The sum of the shares at the given leaf positions.
pub open spec fn sum_at(sh: Seq<int>, idx: Seq<int>) -> int
    decreases idx.len(),
{
    if idx.len() == 0 {
        0
    } else {
        sh[idx[0]] + sum_at(sh, idx.skip(1))
    }
}

/// One share per leaf, whatever the secret and the drawn scalars.
pub proof fn lemma_shares_model_len(p: Policy, s: int, rnd: Seq<int>)
    ensures
        shares_model(p, s, rnd).len() == leaves(p).len(),
    decreases p,
{
    match p {
        Policy::Attr(_) => {},
        Policy::And(l, r) => {
            lemma_shares_model_len(*l, rnd[0], rnd.skip(1).take(and_count(*l) as int));
            lemma_shares_model_len(*r, s - rnd[0], rnd.skip(1 + and_count(*l) as int));
        },
        Policy::Or(l, r) => {
            lemma_shares_model_len(*l, s, rnd.take(and_count(*l) as int));
            lemma_shares_model_len(*r, s, rnd.skip(and_count(*l) as int));
        },
    }
}

proof fn lemma_sum_prefix(sh1: Seq<int>, sh2: Seq<int>, idx: Seq<int>)
    requires
        forall|k: int| 0 <= k < idx.len() ==> 0 <= #[trigger] idx[k] < sh1.len(),
    ensures
        sum_at(sh1 + sh2, idx) == sum_at(sh1, idx),
    decreases idx.len(),
{
    if idx.len() == 0 {
    } else {
        assert((sh1 + sh2)[idx[0]] == sh1[idx[0]]);
        lemma_sum_prefix(sh1, sh2, idx.skip(1));
    }
}

proof fn lemma_sum_shift(sh1: Seq<int>, sh2: Seq<int>, idx: Seq<int>)
    requires
        forall|k: int| 0 <= k < idx.len() ==> 0 <= #[trigger] idx[k] < sh2.len(),
    ensures
        sum_at(sh1 + sh2, idx.map_values(|x: int| x + sh1.len())) == sum_at(sh2, idx),
    decreases idx.len(),
{
    let shifted = idx.map_values(|x: int| x + sh1.len());
    if idx.len() == 0 {
    } else {
        assert(shifted[0] == idx[0] + sh1.len());
        assert((sh1 + sh2)[idx[0] + sh1.len()] == sh2[idx[0]]);
        assert(shifted.skip(1) =~= idx.skip(1).map_values(|x: int| x + sh1.len()));
        lemma_sum_shift(sh1, sh2, idx.skip(1));
    }
}

proof fn lemma_sum_append_idx(sh: Seq<int>, idx1: Seq<int>, idx2: Seq<int>)
    ensures
        sum_at(sh, idx1 + idx2) == sum_at(sh, idx1) + sum_at(sh, idx2),
    decreases idx1.len(),
{
    if idx1.len() == 0 {
        assert(idx1 + idx2 =~= idx2);
    } else {
        assert((idx1 + idx2)[0] == idx1[0]);
        assert((idx1 + idx2).skip(1) =~= idx1.skip(1) + idx2);
        lemma_sum_append_idx(sh, idx1.skip(1), idx2);
    }
}

/// The reconstruction law of the sharing discipline: however the fresh
/// scalars come out, the shares filed at the leaves chosen for a satisfying
/// attribute set sum back to the distributed secret exactly. This is the
/// linear-reconstruction core of decryption: with every chosen row's
/// coefficient equal to one, combining the chosen rows recovers the blinding
/// secret, and distributing zero the same way contributes nothing.
pub proof fn lemma_reconstruction(p: Policy, names: Seq<Seq<u8>>, s: int, rnd: Seq<int>)
    requires
        sat(p, names),
        rnd.len() >= and_count(p),
    ensures
        sum_at(shares_model(p, s, rnd), chosen_idx(p, names)) == s,
    decreases p,
{
    crate::policy::lemma_chosen_idx_bounds(p, names);
    match p {
        Policy::Attr(_) => {
            let sh = shares_model(p, s, rnd);
            assert(sh == seq![s]);
            assert(chosen_idx(p, names) == seq![0int]);
            assert(seq![0int].skip(1) =~= Seq::<int>::empty());
            assert(sum_at(sh, Seq::<int>::empty()) == 0);
            assert(seq![0int][0] == 0);
            assert(sum_at(sh, seq![0int]) == sh[0] + sum_at(sh, seq![0int].skip(1)));
            assert(sh[0] == s);
        },
        Policy::And(l, r) => {
            let n = and_count(*l) as int;
            let rl = rnd.skip(1).take(n);
            let rr = rnd.skip(1 + n);
            let shl = shares_model(*l, rnd[0], rl);
            let shr = shares_model(*r, s - rnd[0], rr);
            lemma_shares_model_len(*l, rnd[0], rl);
            lemma_shares_model_len(*r, s - rnd[0], rr);
            crate::policy::lemma_chosen_idx_bounds(*l, names);
            crate::policy::lemma_chosen_idx_bounds(*r, names);
            lemma_reconstruction(*l, names, rnd[0], rl);
            lemma_reconstruction(*r, names, s - rnd[0], rr);
            let il = chosen_idx(*l, names);
            let ir = chosen_idx(*r, names).map_values(|x: int| x + leaves(*l).len());
            assert(chosen_idx(p, names) == il + ir);
            lemma_sum_append_idx(shl + shr, il, ir);
            lemma_sum_prefix(shl, shr, il);
            assert(ir =~= chosen_idx(*r, names).map_values(|x: int| x + shl.len()));
            lemma_sum_shift(shl, shr, chosen_idx(*r, names));
        },
        Policy::Or(l, r) => {
            let n = and_count(*l) as int;
            let rl = rnd.take(n);
            let rr = rnd.skip(n);
            let shl = shares_model(*l, s, rl);
            let shr = shares_model(*r, s, rr);
            lemma_shares_model_len(*l, s, rl);
            lemma_shares_model_len(*r, s, rr);
            if sat(*l, names) {
                crate::policy::lemma_chosen_idx_bounds(*l, names);
                lemma_reconstruction(*l, names, s, rl);
                assert(chosen_idx(p, names) == chosen_idx(*l, names));
                lemma_sum_prefix(shl, shr, chosen_idx(*l, names));
            } else {
                crate::policy::lemma_chosen_idx_bounds(*r, names);
                lemma_reconstruction(*r, names, s, rr);
                assert(chosen_idx(p, names) == chosen_idx(*r, names).map_values(
                    |x: int| x + leaves(*l).len(),
                ));
                assert(chosen_idx(p, names) =~= chosen_idx(*r, names).map_values(
                    |x: int| x + shl.len(),
                ));
                lemma_sum_shift(shl, shr, chosen_idx(*r, names));
            }
        },
    }
}

/// Distributes a secret scalar over the policy: one share per leaf, filed
/// under that leaf's attribute name, in leaf order. The conjunction splits
/// draw fresh randomness on every call.
pub fn gen_shares(secret: rabe_bn::Fr, t: &PolicyNode) -> (r: Vec<(String, rabe_bn::Fr)>)
    ensures
        r@.len() == leaves(pv(*t)).len(),
        forall|i: int| 0 <= i < r@.len() ==> sbytes(#[trigger] r@[i].0@) == leaves(pv(*t))[i],
    decreases *t,
{
    match t {
        PolicyNode::Attr(a) => {
            let mut v: Vec<(String, rabe_bn::Fr)> = Vec::new();
            v.push((a.clone(), secret));
            v
        },
        PolicyNode::And(l, r) => {
            let r1 = fr_random();
            let mut vl = gen_shares(r1, &**l);
            let mut vr = gen_shares(fr_sub(secret, r1), &**r);
            vl.append(&mut vr);
            vl
        },
        PolicyNode::Or(l, r) => {
            let mut vl = gen_shares(secret, &**l);
            let mut vr = gen_shares(secret, &**r);
            vl.append(&mut vr);
            vl
        },
    }
}

fn coefficients_from(t: &PolicyNode, c: rabe_bn::Fr) -> (r: Vec<(String, rabe_bn::Fr)>)
    ensures
        r@.len() == leaves(pv(*t)).len(),
        forall|i: int| 0 <= i < r@.len() ==> sbytes(#[trigger] r@[i].0@) == leaves(pv(*t))[i],
    decreases *t,
{
    match t {
        PolicyNode::Attr(a) => {
            let mut v: Vec<(String, rabe_bn::Fr)> = Vec::new();
            v.push((a.clone(), c));
            v
        },
        PolicyNode::And(l, r) => {
            let mut vl = coefficients_from(&**l, c);
            let mut vr = coefficients_from(&**r, c);
            vl.append(&mut vr);
            vl
        },
        PolicyNode::Or(l, r) => {
            let mut vl = coefficients_from(&**l, c);
            let mut vr = coefficients_from(&**r, c);
            vl.append(&mut vr);
            vl
        },
    }
}

/// The reconstruction coefficient of each leaf, in leaf order: the root's
/// coefficient one, propagated unchanged through conjunctions (whose two
/// shares sum) and disjunctions (whose children repeat the share).
pub fn calc_coefficients(t: &PolicyNode) -> (r: Vec<(String, rabe_bn::Fr)>)
    ensures
        r@.len() == leaves(pv(*t)).len(),
        forall|i: int| 0 <= i < r@.len() ==> sbytes(#[trigger] r@[i].0@) == leaves(pv(*t))[i],
{
    coefficients_from(t, fr_one())
}

} // verus!

