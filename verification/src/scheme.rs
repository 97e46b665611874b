//! The decentralized ciphertext-policy scheme: global setup, per-authority
//! key generation, identity-bound user key issuance, policy-driven
//! encryption, and policy-gated decryption.

use vstd::prelude::*;

use crate::AbeError;
use crate::crypt::{open_sealed, seal};
use crate::groups::{
    fr_random, fr_zero, g1_add, g1_mul_fr, g1_random, g2_add, g2_mul_fr, g2_random, gt_inverse,
    gt_mul, gt_one, gt_pow, hash_to_g1, pairing_of,
};
use crate::names::{name_eq, norm_bytes, sbytes};
use crate::parse::{parse_policy, spec_parse};
use crate::policy::{
    Policy, holds_name, leaves, lemma_prune_in_leaves, lemma_prune_matched, names_view, prune,
    pv, sat,
};
use crate::sharing::{calc_coefficients, gen_shares};

verus! {

/// The global parameters: one generator from each source group. No secret
/// material; created once and shared by every authority and user.
pub struct Aw11GlobalKey {
    pub g1: rabe_bn::G1,
    pub g2: rabe_bn::G2,
}

/// An authority's public key: one entry per governed attribute, holding the
/// blinded exponent in the target group and the generator power in the
/// second source group.
pub struct Aw11PublicKey {
    pub attrs: Vec<(String, rabe_bn::Gt, rabe_bn::G2)>,
}

/// An authority's master key: one entry per governed attribute, holding the
/// two secret scalars. Never leaves the authority.
pub struct Aw11MasterKey {
    pub attrs: Vec<(String, rabe_bn::Fr, rabe_bn::Fr)>,
}

/// A user's secret key: the identity it is bound to, and one group element
/// per issued attribute.
pub struct Aw11SecretKey {
    pub gid: String,
    pub attrs: Vec<(String, rabe_bn::G1)>,
}

/// A ciphertext: the policy expression it was produced under, the blinding
/// element, one three-element row per policy leaf, and the sealed payload.
pub struct Aw11Ciphertext {
    pub policy: String,
    pub c_0: rabe_bn::Gt,
    pub c: Vec<(String, rabe_bn::Gt, rabe_bn::G2, rabe_bn::G2)>,
    pub ct: Vec<u8>,
}

/// A global context holding the global parameters.
pub struct Aw11GlobalContext {
    pub gk: Aw11GlobalKey,
}

/// An authority context holding one authority's key pair.
pub struct Aw11Context {
    pub msk: Aw11MasterKey,
    pub pk: Aw11PublicKey,
}

/// The attribute names an authority's public key governs, in entry order.
pub open spec fn pk_names(pk: Aw11PublicKey) -> Seq<Seq<u8>> {
    pk.attrs@.map_values(|e: (String, rabe_bn::Gt, rabe_bn::G2)| sbytes(e.0@))
}

/// The attribute names a master key governs, in entry order.
pub open spec fn msk_names(msk: Aw11MasterKey) -> Seq<Seq<u8>> {
    msk.attrs@.map_values(|e: (String, rabe_bn::Fr, rabe_bn::Fr)| sbytes(e.0@))
}

/// The attribute names a user key holds, in issuance order.
pub open spec fn sk_names(sk: Aw11SecretKey) -> Seq<Seq<u8>> {
    sk.attrs@.map_values(|e: (String, rabe_bn::G1)| sbytes(e.0@))
}

/// The attribute names of a ciphertext's rows, in row order.
pub open spec fn ct_names(ct: Aw11Ciphertext) -> Seq<Seq<u8>> {
    ct.c@.map_values(|e: (String, rabe_bn::Gt, rabe_bn::G2, rabe_bn::G2)| sbytes(e.0@))
}

/// Whether some supplied authority covers the attribute, up to case.
pub open spec fn pks_have(pks: Seq<Aw11PublicKey>, a: Seq<u8>) -> bool {
    exists|i: int| 0 <= i < pks.len() && holds_name(pk_names(#[trigger] pks[i]), a)
}

/// Whether every leaf of the policy is covered by some supplied authority.
pub open spec fn pks_cover(pks: Seq<Aw11PublicKey>, p: Policy) -> bool {
    forall|k: int| 0 <= k < leaves(p).len() ==> pks_have(pks, #[trigger] leaves(p)[k])
}

/// Creates the global parameters by sampling one generator per source group.
pub fn setup() -> Aw11GlobalKey {
    Aw11GlobalKey { g1: g1_random(), g2: g2_random() }
}

/// Sets up one authority over its attribute set: per attribute, two fresh
/// secret scalars and the derived public entry, filed under the name's
/// case-normalized spelling. Fails exactly when the attribute list is empty.
pub fn authgen(gk: &Aw11GlobalKey, attributes: &Vec<String>) -> (r: Result<
    (Aw11PublicKey, Aw11MasterKey),
    AbeError,
>)
    ensures
        r is Err <==> attributes@.len() == 0,
        r is Err ==> r == Err::<(Aw11PublicKey, Aw11MasterKey), AbeError>(AbeError::EmptyInput),
        r matches Ok((pk, msk)) ==> {
            &&& pk.attrs@.len() == attributes@.len()
            &&& msk.attrs@.len() == attributes@.len()
            &&& forall|i: int|
                0 <= i < attributes@.len() ==> sbytes((#[trigger] pk.attrs@[i]).0@) == norm_bytes(
                    sbytes(attributes@[i]@),
                )
            &&& forall|i: int|
                0 <= i < attributes@.len() ==> sbytes((#[trigger] msk.attrs@[i]).0@) == norm_bytes(
                    sbytes(attributes@[i]@),
                )
        },
{
    if attributes.len() == 0 {
        return Err(AbeError::EmptyInput);
    }
    let mut pk: Vec<(String, rabe_bn::Gt, rabe_bn::G2)> = Vec::new();
    let mut msk: Vec<(String, rabe_bn::Fr, rabe_bn::Fr)> = Vec::new();
    let n = attributes.len();
    let mut i: usize = 0;
    while i < n
        invariant
            n == attributes@.len(),
            0 <= i <= n,
            pk@.len() == i,
            msk@.len() == i,
            forall|k: int|
                0 <= k < i ==> sbytes((#[trigger] pk@[k]).0@) == norm_bytes(
                    sbytes(attributes@[k]@),
                ),
            forall|k: int|
                0 <= k < i ==> sbytes((#[trigger] msk@[k]).0@) == norm_bytes(
                    sbytes(attributes@[k]@),
                ),
        decreases n - i,
    {
        let alpha = fr_random();
        let y = fr_random();
        msk.push((crate::names::normalize(attributes[i].as_str()), alpha, y));
        pk.push((
            crate::names::normalize(attributes[i].as_str()),
            gt_pow(pairing_of(gk.g1, gk.g2), alpha),
            g2_mul_fr(gk.g2, y),
        ));
        i = i + 1;
    }
    Ok((Aw11PublicKey { attrs: pk }, Aw11MasterKey { attrs: msk }))
}

/// Issues one attribute into an existing user key: looks the attribute up in
/// the authority's master key (case-insensitively), binds it to the key's
/// identity through the hash-to-group term, and appends the component under
/// the attribute's case-normalized spelling. Reports `EmptyInput` for an
/// empty attribute or identity and `AttributeNotFound` when the authority
/// does not govern the attribute; the key is unchanged on any failure.
pub fn add_attribute(
    gk: &Aw11GlobalKey,
    msk: &Aw11MasterKey,
    attribute: &String,
    sk: &mut Aw11SecretKey,
) -> (r: Result<(), AbeError>)
    ensures
        r == Err::<(), AbeError>(AbeError::EmptyInput) <==> (attribute@.len() == 0 || old(
            sk,
        ).gid@.len() == 0),
        r == Err::<(), AbeError>(AbeError::AttributeNotFound) <==> (attribute@.len() > 0 && old(
            sk,
        ).gid@.len() > 0 && !holds_name(msk_names(*msk), sbytes(attribute@))),
        r is Ok <==> (attribute@.len() > 0 && old(sk).gid@.len() > 0 && holds_name(
            msk_names(*msk),
            sbytes(attribute@),
        )),
        r is Err ==> *final(sk) == *old(sk),
        r is Ok ==> {
            &&& attribute@.len() > 0 && old(sk).gid@.len() > 0
            &&& holds_name(msk_names(*msk), sbytes(attribute@))
            &&& final(sk).gid == old(sk).gid
            &&& final(sk).attrs@.len() == old(sk).attrs@.len() + 1
            &&& forall|i: int|
                0 <= i < old(sk).attrs@.len() ==> #[trigger] final(sk).attrs@[i] == old(
                    sk,
                ).attrs@[i]
            &&& sbytes(final(sk).attrs@[old(sk).attrs@.len() as int].0@) == norm_bytes(
                sbytes(attribute@),
            )
        },
{
    if attribute.as_str().is_empty() || sk.gid.as_str().is_empty() {
        return Err(AbeError::EmptyInput);
    }
    let n = msk.attrs.len();
    let mut i: usize = 0;
    while i < n
        invariant
            n == msk.attrs@.len(),
            0 <= i <= n,
            attribute@.len() > 0,
            old(sk).gid@.len() > 0,
            *sk == *old(sk),
            forall|k: int| 0 <= k < i ==> !name_eq(#[trigger] msk_names(*msk)[k], sbytes(attribute@)),
        decreases n - i,
    {
        if crate::names::str_name_eq(msk.attrs[i].0.as_str(), attribute.as_str()) {
            proof {
                assert(msk_names(*msk)[i as int] == sbytes(msk.attrs@[i as int].0@));
                assert(holds_name(msk_names(*msk), sbytes(attribute@)));
            }
            let alpha = msk.attrs[i].1;
            let y = msk.attrs[i].2;
            let h = hash_to_g1(&gk.g1, sk.gid.as_str());
            let component = g1_add(g1_mul_fr(gk.g1, alpha), g1_mul_fr(h, y));
            sk.attrs.push((crate::names::normalize(attribute.as_str()), component));
            return Ok(());
        }
        i = i + 1;
    }
    proof {
        assert forall|k: int| 0 <= k < msk_names(*msk).len() implies !name_eq(
            #[trigger] msk_names(*msk)[k],
            sbytes(attribute@),
        ) by {}
    }
    Err(AbeError::AttributeNotFound)
}

/// The first failure that issuing the listed attributes in order runs into:
/// `EmptyInput` for an empty name, `AttributeNotFound` for one the master
/// key does not govern, `None` when every issuance succeeds.
pub open spec fn issue_err(mnames: Seq<Seq<u8>>, attrs: Seq<Seq<char>>) -> Option<AbeError>
    decreases attrs.len(),
{
    if attrs.len() == 0 {
        None
    } else if attrs[0].len() == 0 {
        Some(AbeError::EmptyInput)
    } else if !holds_name(mnames, sbytes(attrs[0])) {
        Some(AbeError::AttributeNotFound)
    } else {
        issue_err(mnames, attrs.skip(1))
    }
}

proof fn lemma_issue_err_step(mnames: Seq<Seq<u8>>, attrs: Seq<Seq<char>>, i: int)
    requires
        0 <= i <= attrs.len(),
        forall|k: int|
            0 <= k < i ==> (#[trigger] attrs[k]).len() > 0 && holds_name(mnames, sbytes(attrs[k])),
    ensures
        issue_err(mnames, attrs) == issue_err(mnames, attrs.skip(i)),
    decreases i,
{
    if i > 0 {
        lemma_issue_err_step(mnames, attrs, i - 1);
        assert(attrs.skip(i - 1).len() > 0);
        assert(attrs.skip(i - 1)[0] == attrs[i - 1]);
        assert(attrs.skip(i - 1).skip(1) =~= attrs.skip(i));
    } else {
        assert(attrs.skip(0) =~= attrs);
    }
}

/// The attribute-name views of a list of strings, at the character level.
pub open spec fn attrs_view(attributes: Seq<String>) -> Seq<Seq<char>> {
    attributes.map_values(|s: String| s@)
}

/// Builds a fresh user key for the identity over the listed attributes, by
/// issuing each in order from the master key. Fails with `EmptyInput` when
/// the identity or the list is empty, and otherwise reports the first
/// issuance failure, leaving no partial result behind.
pub fn keygen(
    gk: &Aw11GlobalKey,
    msk: &Aw11MasterKey,
    name: &String,
    attributes: &Vec<String>,
) -> (r: Result<Aw11SecretKey, AbeError>)
    ensures
        (attributes@.len() == 0 || name@.len() == 0) ==> r == Err::<Aw11SecretKey, AbeError>(
            AbeError::EmptyInput,
        ),
        attributes@.len() > 0 && name@.len() > 0 ==> match issue_err(
            msk_names(*msk),
            attrs_view(attributes@),
        ) {
            Some(e) => r == Err::<Aw11SecretKey, AbeError>(e),
            None => r matches Ok(sk) && {
                &&& sk.gid@ == name@
                &&& sk.attrs@.len() == attributes@.len()
                &&& forall|i: int|
                    0 <= i < attributes@.len() ==> sbytes((#[trigger] sk.attrs@[i]).0@)
                        == norm_bytes(sbytes(attributes@[i]@))
            },
        },
{
    if attributes.len() == 0 || name.as_str().is_empty() {
        return Err(AbeError::EmptyInput);
    }
    let mut sk = Aw11SecretKey { gid: name.clone(), attrs: Vec::new() };
    let n = attributes.len();
    let mut i: usize = 0;
    while i < n
        invariant
            n == attributes@.len(),
            0 <= i <= n,
            name@.len() > 0,
            sk.gid@ == name@,
            sk.attrs@.len() == i,
            forall|k: int|
                0 <= k < i ==> sbytes((#[trigger] sk.attrs@[k]).0@) == norm_bytes(
                    sbytes(attributes@[k]@),
                ),
            forall|k: int|
                0 <= k < i ==> (#[trigger] attrs_view(attributes@)[k]).len() > 0 && holds_name(
                    msk_names(*msk),
                    sbytes(attrs_view(attributes@)[k]),
                ),
        decreases n - i,
    {
        let res = add_attribute(gk, msk, &attributes[i], &mut sk);
        match res {
            Ok(()) => {},
            Err(e) => {
                proof {
                    let av = attrs_view(attributes@);
                    let rest = av.skip(i as int);
                    lemma_issue_err_step(msk_names(*msk), av, i as int);
                    assert(av.len() == n);
                    assert(rest.len() == n - i);
                    assert(rest[0] == av[i as int]);
                    assert(av[i as int] == attributes@[i as int]@);
                    assert(issue_err(msk_names(*msk), rest) == Some(e));
                }
                return Err(e);
            },
        }
        i = i + 1;
    }
    proof {
        let av = attrs_view(attributes@);
        assert(av.len() == n);
        lemma_issue_err_step(msk_names(*msk), av, n as int);
        assert(av.skip(n as int).len() == 0);
    }
    Ok(sk)
}

/// Finds the entry of the given attribute among the supplied authorities'
/// public keys. When several supplied authorities govern the same attribute
/// name, the first matching entry in supplied order is bound: the entry
/// returned is the first match of the first authority that has one, a
/// deterministic tie-break of this implementation, not a promise of the
/// construction.
pub fn find_pk_attr(pks: &Vec<Aw11PublicKey>, attr: &String) -> (r: Option<
    (String, rabe_bn::Gt, rabe_bn::G2),
>)
    ensures
        r is Some <==> pks_have(pks@, sbytes(attr@)),
        r matches Some(e) ==> name_eq(sbytes(e.0@), sbytes(attr@)) && exists|i: int, j: int|
            {
                &&& 0 <= i < pks@.len()
                &&& 0 <= j < pks@[i].attrs@.len()
                &&& #[trigger] pks@[i].attrs@[j] == e
                &&& forall|i2: int|
                    0 <= i2 < i ==> !holds_name(pk_names(#[trigger] pks@[i2]), sbytes(attr@))
                &&& forall|j2: int|
                    0 <= j2 < j ==> !name_eq(#[trigger] pk_names(pks@[i])[j2], sbytes(attr@))
            },
{
    let n = pks.len();
    let mut i: usize = 0;
    while i < n
        invariant
            n == pks@.len(),
            0 <= i <= n,
            forall|k: int|
                0 <= k < i ==> !holds_name(pk_names(#[trigger] pks@[k]), sbytes(attr@)),
        decreases n - i,
    {
        let m = pks[i].attrs.len();
        let mut j: usize = 0;
        while j < m
            invariant
                n == pks@.len(),
                0 <= i < n,
                m == pks@[i as int].attrs@.len(),
                0 <= j <= m,
                forall|k: int|
                    0 <= k < i ==> !holds_name(pk_names(#[trigger] pks@[k]), sbytes(attr@)),
                forall|k: int|
                    0 <= k < j ==> !name_eq(
                        #[trigger] pk_names(pks@[i as int])[k],
                        sbytes(attr@),
                    ),
            decreases m - j,
        {
            if crate::names::str_name_eq(pks[i].attrs[j].0.as_str(), attr.as_str()) {
                proof {
                    assert(pk_names(pks@[i as int])[j as int] == sbytes(
                        pks@[i as int].attrs@[j as int].0@,
                    ));
                    assert(holds_name(pk_names(pks@[i as int]), sbytes(attr@)));
                    assert(pks_have(pks@, sbytes(attr@)));
                }
                let e = (pks[i].attrs[j].0.clone(), pks[i].attrs[j].1, pks[i].attrs[j].2);
                proof {
                    let gi = i as int;
                    let gj = j as int;
                    assert(pks@[gi].attrs@[gj] == e);
                    assert({
                        &&& 0 <= gi < pks@.len()
                        &&& 0 <= gj < pks@[gi].attrs@.len()
                        &&& pks@[gi].attrs@[gj] == e
                        &&& forall|i2: int|
                            0 <= i2 < gi ==> !holds_name(
                                pk_names(#[trigger] pks@[i2]),
                                sbytes(attr@),
                            )
                        &&& forall|j2: int|
                            0 <= j2 < gj ==> !name_eq(
                                #[trigger] pk_names(pks@[gi])[j2],
                                sbytes(attr@),
                            )
                    });
                }
                return Some(e);
            }
            j = j + 1;
        }
        proof {
            assert forall|k: int| 0 <= k < pk_names(pks@[i as int]).len() implies !name_eq(
                #[trigger] pk_names(pks@[i as int])[k],
                sbytes(attr@),
            ) by {}
        }
        i = i + 1;
    }
    proof {
        if pks_have(pks@, sbytes(attr@)) {
            let i = choose|i: int|
                0 <= i < pks@.len() && holds_name(pk_names(#[trigger] pks@[i]), sbytes(attr@));
            assert(false);
        }
    }
    None
}

fn find_sk_attr(sk: &Aw11SecretKey, attr: &String) -> (r: Option<(String, rabe_bn::G1)>)
    ensures
        r is Some <==> holds_name(sk_names(*sk), sbytes(attr@)),
        r matches Some(e) ==> name_eq(sbytes(e.0@), sbytes(attr@)),
{
    let n = sk.attrs.len();
    let mut i: usize = 0;
    while i < n
        invariant
            n == sk.attrs@.len(),
            0 <= i <= n,
            forall|k: int| 0 <= k < i ==> !name_eq(#[trigger] sk_names(*sk)[k], sbytes(attr@)),
        decreases n - i,
    {
        if crate::names::str_name_eq(sk.attrs[i].0.as_str(), attr.as_str()) {
            proof {
                assert(sk_names(*sk)[i as int] == sbytes(sk.attrs@[i as int].0@));
                assert(holds_name(sk_names(*sk), sbytes(attr@)));
            }
            return Some((sk.attrs[i].0.clone(), sk.attrs[i].1));
        }
        i = i + 1;
    }
    proof {
        assert forall|k: int| 0 <= k < sk_names(*sk).len() implies !name_eq(
            #[trigger] sk_names(*sk)[k],
            sbytes(attr@),
        ) by {}
    }
    None
}

fn find_ct_attr(ct: &Aw11Ciphertext, attr: &String) -> (r: Option<
    (String, rabe_bn::Gt, rabe_bn::G2, rabe_bn::G2),
>)
    ensures
        r is Some <==> holds_name(ct_names(*ct), sbytes(attr@)),
        r matches Some(e) ==> name_eq(sbytes(e.0@), sbytes(attr@)),
{
    let n = ct.c.len();
    let mut i: usize = 0;
    while i < n
        invariant
            n == ct.c@.len(),
            0 <= i <= n,
            forall|k: int| 0 <= k < i ==> !name_eq(#[trigger] ct_names(*ct)[k], sbytes(attr@)),
        decreases n - i,
    {
        if crate::names::str_name_eq(ct.c[i].0.as_str(), attr.as_str()) {
            proof {
                assert(ct_names(*ct)[i as int] == sbytes(ct.c@[i as int].0@));
                assert(holds_name(ct_names(*ct), sbytes(attr@)));
            }
            return Some((ct.c[i].0.clone(), ct.c[i].1, ct.c[i].2, ct.c[i].3));
        }
        i = i + 1;
    }
    proof {
        assert forall|k: int| 0 <= k < ct_names(*ct).len() implies !name_eq(
            #[trigger] ct_names(*ct)[k],
            sbytes(attr@),
        ) by {}
    }
    None
}

fn find_coeff(coeffs: &Vec<(String, rabe_bn::Fr)>, attr: &String) -> (r: Option<rabe_bn::Fr>)
    ensures
        r is Some <==> exists|i: int|
            0 <= i < coeffs@.len() && name_eq(sbytes((#[trigger] coeffs@[i]).0@), sbytes(attr@)),
{
    let n = coeffs.len();
    let mut i: usize = 0;
    while i < n
        invariant
            n == coeffs@.len(),
            0 <= i <= n,
            forall|k: int|
                0 <= k < i ==> !name_eq(sbytes((#[trigger] coeffs@[k]).0@), sbytes(attr@)),
        decreases n - i,
    {
        if crate::names::str_name_eq(coeffs[i].0.as_str(), attr.as_str()) {
            return Some(coeffs[i].1);
        }
        i = i + 1;
    }
    None
}

/// Encrypts the payload under the policy expression: compiles the policy,
/// distributes a fresh session secret (and a zero blinding share) over its
/// leaves, binds each leaf to the covering authority's public entry under
/// fresh per-row randomness, and seals the payload under a fresh session
/// element of the target group. Each row is filed under its leaf's
/// case-normalized name. The payload length bound is the sealing cipher's.
pub fn encrypt(
    gk: &Aw11GlobalKey,
    pks: &Vec<Aw11PublicKey>,
    policy: &String,
    plaintext: &[u8],
) -> (r: Result<Aw11Ciphertext, AbeError>)
    requires
        plaintext@.len() <= 0xF_FFFF_FFE0,
    ensures
        spec_parse(sbytes(policy@)) is None ==> r == Err::<Aw11Ciphertext, AbeError>(
            AbeError::PolicyParseError,
        ),
        spec_parse(sbytes(policy@)) matches Some(p) ==> {
            &&& !pks_cover(pks@, p) ==> r == Err::<Aw11Ciphertext, AbeError>(
                AbeError::AttributeNotFound,
            )
            &&& pks_cover(pks@, p) ==> (r matches Ok(ct) && {
                &&& ct.policy@ == policy@
                &&& ct.c@.len() == leaves(p).len()
                &&& forall|k: int|
                    0 <= k < ct.c@.len() ==> sbytes((#[trigger] ct.c@[k]).0@) == norm_bytes(
                        leaves(p)[k],
                    )
                &&& ct.ct@.len() == plaintext@.len() + 28
            })
        },
{
    let t = match parse_policy(policy.as_str()) {
        Err(e) => {
            return Err(e);
        },
        Ok(t) => t,
    };
    let ghost p = pv(t);
    proof {
        assert(spec_parse(sbytes(policy@)) == Some(p));
    }
    let s = fr_random();
    let msg = pairing_of(g1_random(), g2_random());
    let c_0 = gt_mul(msg, gt_pow(pairing_of(gk.g1, gk.g2), s));
    let s_shares = gen_shares(s, &t);
    let w_shares = gen_shares(fr_zero(), &t);
    let n = s_shares.len();
    let mut c: Vec<(String, rabe_bn::Gt, rabe_bn::G2, rabe_bn::G2)> = Vec::new();
    let mut k: usize = 0;
    while k < n
        invariant
            p == pv(t),
            spec_parse(sbytes(policy@)) == Some(p),
            n == s_shares@.len(),
            s_shares@.len() == leaves(p).len(),
            w_shares@.len() == leaves(p).len(),
            forall|j: int|
                0 <= j < s_shares@.len() ==> sbytes(#[trigger] s_shares@[j].0@) == leaves(p)[j],
            0 <= k <= n,
            c@.len() == k,
            forall|j: int|
                0 <= j < k ==> sbytes((#[trigger] c@[j]).0@) == norm_bytes(leaves(p)[j]),
            forall|j: int| 0 <= j < k ==> pks_have(pks@, #[trigger] leaves(p)[j]),
        decreases n - k,
    {
        let r_x = fr_random();
        match find_pk_attr(pks, &s_shares[k].0) {
            None => {
                proof {
                    assert(!pks_have(pks@, leaves(p)[k as int]));
                }
                return Err(AbeError::AttributeNotFound);
            },
            Some(e) => {
                c.push(
                    (
                        crate::names::normalize(s_shares[k].0.as_str()),
                        gt_mul(gt_pow(pairing_of(gk.g1, gk.g2), s_shares[k].1), gt_pow(e.1, r_x)),
                        g2_mul_fr(gk.g2, r_x),
                        g2_add(g2_mul_fr(e.2, r_x), g2_mul_fr(gk.g2, w_shares[k].1)),
                    ),
                );
            },
        }
        k = k + 1;
    }
    let sealed = seal(&msg, plaintext);
    Ok(Aw11Ciphertext { policy: policy.clone(), c_0, c, ct: sealed })
}

/// Decrypts a ciphertext with a user key: reports `PolicyUnsatisfied`
/// exactly when the key's attributes do not satisfy the ciphertext's policy;
/// otherwise reconstructs the blinding element from the minimal satisfying
/// rows and opens the sealed payload, surfacing an authentication failure as
/// `SymmetricDecryptFailure`. A ciphertext whose rows do not carry a chosen
/// leaf is reported as `InternalInconsistency`.
pub fn decrypt(gk: &Aw11GlobalKey, sk: &Aw11SecretKey, ct: &Aw11Ciphertext) -> (r: Result<
    Vec<u8>,
    AbeError,
>)
    ensures
        spec_parse(sbytes(ct.policy@)) is None ==> r == Err::<Vec<u8>, AbeError>(
            AbeError::PolicyParseError,
        ),
        spec_parse(sbytes(ct.policy@)) matches Some(p) ==> {
            &&& (r == Err::<Vec<u8>, AbeError>(AbeError::PolicyUnsatisfied) <==> !sat(
                p,
                sk_names(*sk),
            ))
            &&& sat(p, sk_names(*sk)) ==> {
                &&& (forall|k: int|
                    0 <= k < prune(p, sk_names(*sk)).len() ==> holds_name(
                        ct_names(*ct),
                        #[trigger] prune(p, sk_names(*sk))[k],
                    )) ==> (r matches Ok(_) || r == Err::<Vec<u8>, AbeError>(
                    AbeError::SymmetricDecryptFailure,
                ))
                &&& (exists|k: int|
                    0 <= k < prune(p, sk_names(*sk)).len() && !holds_name(
                        ct_names(*ct),
                        #[trigger] prune(p, sk_names(*sk))[k],
                    )) ==> r == Err::<Vec<u8>, AbeError>(AbeError::InternalInconsistency)
            }
        },
{
    let mut names: Vec<String> = Vec::new();
    let n = sk.attrs.len();
    let mut i: usize = 0;
    while i < n
        invariant
            n == sk.attrs@.len(),
            0 <= i <= n,
            names@.len() == i,
            forall|j: int| 0 <= j < i ==> (#[trigger] names@[j])@ == sk.attrs@[j].0@,
        decreases n - i,
    {
        names.push(sk.attrs[i].0.clone());
        i = i + 1;
    }
    proof {
        assert(names_view(names@) =~= sk_names(*sk));
    }
    let t = match parse_policy(ct.policy.as_str()) {
        Err(e) => {
            return Err(e);
        },
        Ok(t) => t,
    };
    let ghost p = pv(t);
    let ghost ns = sk_names(*sk);
    proof {
        assert(spec_parse(sbytes(ct.policy@)) == Some(p));
    }
    if !crate::policy::satisfies(&t, &names) {
        return Err(AbeError::PolicyUnsatisfied);
    }
    let pruned = match crate::policy::calc_pruned(&t, &names) {
        Some(v) => v,
        None => {
            proof {
                assert(false);
            }
            return Err(AbeError::InternalInconsistency);
        },
    };
    let coeffs = calc_coefficients(&t);
    let h = hash_to_g1(&gk.g1, sk.gid.as_str());
    let mut acc = gt_one();
    let m = pruned.len();
    let mut j: usize = 0;
    while j < m
        invariant
            p == pv(t),
            spec_parse(sbytes(ct.policy@)) == Some(p),
            ns == sk_names(*sk),
            sat(p, ns),
            m == pruned@.len(),
            names_view(pruned@) == prune(p, ns),
            prune(p, ns).len() == m,
            coeffs@.len() == leaves(p).len(),
            forall|i2: int|
                0 <= i2 < coeffs@.len() ==> sbytes((#[trigger] coeffs@[i2]).0@) == leaves(p)[i2],
            0 <= j <= m,
            forall|k: int| 0 <= k < j ==> holds_name(ct_names(*ct), #[trigger] prune(p, ns)[k]),
        decreases m - j,
    {
        proof {
            lemma_prune_matched(p, ns);
            lemma_prune_in_leaves(p, ns);
            assert(names_view(pruned@)[j as int] == sbytes(pruned@[j as int]@));
        }
        let ske = match find_sk_attr(sk, &pruned[j]) {
            Some(e) => e,
            None => {
                proof {
                    assert(holds_name(ns, prune(p, ns)[j as int]));
                    assert(false);
                }
                return Err(AbeError::InternalInconsistency);
            },
        };
        let cte = match find_ct_attr(ct, &pruned[j]) {
            Some(e) => e,
            None => {
                proof {
                    assert(!holds_name(ct_names(*ct), prune(p, ns)[j as int]));
                }
                return Err(AbeError::InternalInconsistency);
            },
        };
        let coeff = match find_coeff(&coeffs, &pruned[j]) {
            Some(cf) => cf,
            None => {
                proof {
                    let x = prune(p, ns)[j as int];
                    assert(leaves(p).contains(x));
                    let i2 = choose|i2: int| 0 <= i2 < leaves(p).len() && leaves(p)[i2] == x;
                    assert(sbytes(coeffs@[i2].0@) == x);
                    assert(name_eq(sbytes(coeffs@[i2].0@), sbytes(pruned@[j as int]@)));
                    assert(false);
                }
                return Err(AbeError::InternalInconsistency);
            },
        };
        let num = gt_mul(cte.1, pairing_of(h, cte.3));
        let den = pairing_of(ske.1, cte.2);
        acc = gt_mul(acc, gt_pow(gt_mul(num, gt_inverse(den)), coeff));
        j = j + 1;
    }
    let recovered = gt_mul(ct.c_0, gt_inverse(acc));
    match open_sealed(&recovered, &ct.ct) {
        Some(pt) => Ok(pt),
        None => Err(AbeError::SymmetricDecryptFailure),
    }
}

} // verus!
