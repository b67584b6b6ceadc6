//! Ring laws for the degree-6 level of the tower, carried over from the
//! degree-2 level: congruence of the canonical operations, commutativity and
//! associativity of addition and multiplication, the shift-and-wrap
//! non-residue multiplication being multiplication by `v`, the Karatsuba
//! recombination, and the inversion relation producing inverses.
use vstd::prelude::*;
use crate::gf::{fc, lemma_fc_id, lemma_fc_range};
use crate::vals::{V2, V6, v2_canon, v2_zero, v2_one, v2_add, v2_sub, v2_mul, v2_nr, v2_inv_rel,
    j2_add, j2_sub, j2_neg, j2_mul, j2_nr, fc2, v6_canon, v6_zero, v6_one, v6_v, v6_add, v6_sub,
    v6_neg, v6_mul, v6_nr, v6_t0, v6_t1, v6_t2, v6_denom, v6_inv_rel, j6_add, j6_sub, j6_neg,
    j6_mul, j6_nr, j6_t0, j6_t1, j6_t2, j6_denom, fc6};
use crate::laws2::{lemma_v2_mul_fc, lemma_v2_add_laws, lemma_j2_mul_comm, lemma_j2_mul_assoc,
    lemma_j2_distrib, lemma_j2_nr_mul, lemma_fc2_twice, lemma_j2_add_cong, lemma_j2_sub_cong,
    lemma_j2_mul_cong, lemma_j2_nr_cong, lemma_j2_neg_cong, lemma_v2_mul_inverse,
    lemma_j2_neg_mul, lemma_v2_sub_sub};

verus! {

pub proof fn lemma_fc6_twice(x: V6)
    ensures
        fc6(fc6(x)) == fc6(x),
{
    lemma_fc2_twice(x.c0);
    lemma_fc2_twice(x.c1);
    lemma_fc2_twice(x.c2);
}

/// Congruent arguments give congruent degree-6 products.
pub proof fn lemma_j6_mul_cong(a: V6, b: V6, a2: V6, b2: V6)
    requires
        fc6(a) == fc6(a2),
        fc6(b) == fc6(b2),
    ensures
        fc6(j6_mul(a, b)) == fc6(j6_mul(a2, b2)),
{
    lemma_j2_mul_cong(a.c0, b.c0, a2.c0, b2.c0);
    lemma_j2_mul_cong(a.c0, b.c1, a2.c0, b2.c1);
    lemma_j2_mul_cong(a.c0, b.c2, a2.c0, b2.c2);
    lemma_j2_mul_cong(a.c1, b.c0, a2.c1, b2.c0);
    lemma_j2_mul_cong(a.c1, b.c1, a2.c1, b2.c1);
    lemma_j2_mul_cong(a.c1, b.c2, a2.c1, b2.c2);
    lemma_j2_mul_cong(a.c2, b.c0, a2.c2, b2.c0);
    lemma_j2_mul_cong(a.c2, b.c1, a2.c2, b2.c1);
    lemma_j2_mul_cong(a.c2, b.c2, a2.c2, b2.c2);
    // coordinate 0
    lemma_j2_add_cong(
        j2_mul(a.c1, b.c2),
        j2_mul(a.c2, b.c1),
        j2_mul(a2.c1, b2.c2),
        j2_mul(a2.c2, b2.c1),
    );
    lemma_j2_nr_cong(
        j2_add(j2_mul(a.c1, b.c2), j2_mul(a.c2, b.c1)),
        j2_add(j2_mul(a2.c1, b2.c2), j2_mul(a2.c2, b2.c1)),
    );
    lemma_j2_add_cong(
        j2_mul(a.c0, b.c0),
        j2_nr(j2_add(j2_mul(a.c1, b.c2), j2_mul(a.c2, b.c1))),
        j2_mul(a2.c0, b2.c0),
        j2_nr(j2_add(j2_mul(a2.c1, b2.c2), j2_mul(a2.c2, b2.c1))),
    );
    // coordinate 1
    lemma_j2_add_cong(
        j2_mul(a.c0, b.c1),
        j2_mul(a.c1, b.c0),
        j2_mul(a2.c0, b2.c1),
        j2_mul(a2.c1, b2.c0),
    );
    lemma_j2_nr_cong(j2_mul(a.c2, b.c2), j2_mul(a2.c2, b2.c2));
    lemma_j2_add_cong(
        j2_add(j2_mul(a.c0, b.c1), j2_mul(a.c1, b.c0)),
        j2_nr(j2_mul(a.c2, b.c2)),
        j2_add(j2_mul(a2.c0, b2.c1), j2_mul(a2.c1, b2.c0)),
        j2_nr(j2_mul(a2.c2, b2.c2)),
    );
    // coordinate 2
    lemma_j2_add_cong(
        j2_mul(a.c0, b.c2),
        j2_mul(a.c1, b.c1),
        j2_mul(a2.c0, b2.c2),
        j2_mul(a2.c1, b2.c1),
    );
    lemma_j2_add_cong(
        j2_add(j2_mul(a.c0, b.c2), j2_mul(a.c1, b.c1)),
        j2_mul(a.c2, b.c0),
        j2_add(j2_mul(a2.c0, b2.c2), j2_mul(a2.c1, b2.c1)),
        j2_mul(a2.c2, b2.c0),
    );
}

/// Every coordinate a canonical degree-6 operation yields is canonical.
pub proof fn lemma_v6_ops_canon(x: V6, y: V6)
    ensures
        v6_canon(v6_add(x, y)),
        v6_canon(v6_sub(x, y)),
        v6_canon(v6_neg(x)),
        v6_canon(v6_mul(x, y)),
        v6_canon(v6_nr(x)),
        v6_canon(fc6(x)),
{
    broadcast use lemma_fc_range;

}

/// Addition at degree 6 is commutative and associative, with `zero` as the
/// neutral element on canonical inputs.
pub proof fn lemma_v6_add_laws(x: V6, y: V6, z: V6)
    ensures
        v6_add(x, y) == v6_add(y, x),
        v6_add(v6_add(x, y), z) == v6_add(x, v6_add(y, z)),
        v6_canon(x) ==> v6_add(x, v6_zero()) == x,
{
    lemma_v2_add_laws(x.c0, y.c0, z.c0);
    lemma_v2_add_laws(x.c1, y.c1, z.c1);
    lemma_v2_add_laws(x.c2, y.c2, z.c2);
}

/// The unreduced degree-6 product is commutative.
pub proof fn lemma_j6_mul_comm(x: V6, y: V6)
    ensures
        j6_mul(x, y) == j6_mul(y, x),
{
    lemma_j2_mul_comm(x.c0, y.c0);
    lemma_j2_mul_comm(x.c0, y.c1);
    lemma_j2_mul_comm(x.c0, y.c2);
    lemma_j2_mul_comm(x.c1, y.c0);
    lemma_j2_mul_comm(x.c1, y.c1);
    lemma_j2_mul_comm(x.c1, y.c2);
    lemma_j2_mul_comm(x.c2, y.c0);
    lemma_j2_mul_comm(x.c2, y.c1);
    lemma_j2_mul_comm(x.c2, y.c2);
}

/// Multiplication at degree 6 is commutative, with `one` as the neutral
/// element on canonical inputs.
pub proof fn lemma_v6_mul_comm(x: V6, y: V6)
    ensures
        v6_mul(x, y) == v6_mul(y, x),
        v6_canon(x) ==> v6_mul(x, v6_one()) == x,
{
    lemma_j6_mul_comm(x, y);
    if v6_canon(x) {
        lemma_fc_id(x.c0.c0);
        lemma_fc_id(x.c0.c1);
        lemma_fc_id(x.c1.c0);
        lemma_fc_id(x.c1.c1);
        lemma_fc_id(x.c2.c0);
        lemma_fc_id(x.c2.c1);
    }
}

/// The unreduced degree-6 product is associative: every one of the 27
/// triple products lands in the same place on both sides.
#[verifier::rlimit(60)]
pub proof fn lemma_j6_mul_assoc(x: V6, y: V6, z: V6)
    ensures
        j6_mul(j6_mul(x, y), z) == j6_mul(x, j6_mul(y, z)),
{
    let s0 = j2_add(j2_mul(x.c1, y.c2), j2_mul(x.c2, y.c1));
    let t0 = j2_add(j2_mul(y.c1, z.c2), j2_mul(y.c2, z.c1));
    let m1h = j2_add(j2_mul(x.c0, y.c1), j2_mul(x.c1, y.c0));
    let n1h = j2_add(j2_mul(y.c0, z.c1), j2_mul(y.c1, z.c0));
    let m2h = j2_add(j2_mul(x.c0, y.c2), j2_mul(x.c1, y.c1));
    let n2h = j2_add(j2_mul(y.c0, z.c2), j2_mul(y.c1, z.c1));
    // expand the products of m's coordinates with z's
    // m.c0 * z.ck
    lemma_j2_distrib(j2_mul(x.c0, y.c0), j2_nr(s0), z.c0);
    lemma_j2_distrib(j2_mul(x.c0, y.c0), j2_nr(s0), z.c1);
    lemma_j2_distrib(j2_mul(x.c0, y.c0), j2_nr(s0), z.c2);
    lemma_j2_nr_mul(s0, z.c0);
    lemma_j2_nr_mul(s0, z.c1);
    lemma_j2_nr_mul(s0, z.c2);
    lemma_j2_distrib(j2_mul(x.c1, y.c2), j2_mul(x.c2, y.c1), z.c0);
    lemma_j2_distrib(j2_mul(x.c1, y.c2), j2_mul(x.c2, y.c1), z.c1);
    lemma_j2_distrib(j2_mul(x.c1, y.c2), j2_mul(x.c2, y.c1), z.c2);
    // m.c1 * z.ck
    lemma_j2_distrib(m1h, j2_nr(j2_mul(x.c2, y.c2)), z.c0);
    lemma_j2_distrib(m1h, j2_nr(j2_mul(x.c2, y.c2)), z.c1);
    lemma_j2_distrib(m1h, j2_nr(j2_mul(x.c2, y.c2)), z.c2);
    lemma_j2_distrib(j2_mul(x.c0, y.c1), j2_mul(x.c1, y.c0), z.c0);
    lemma_j2_distrib(j2_mul(x.c0, y.c1), j2_mul(x.c1, y.c0), z.c1);
    lemma_j2_distrib(j2_mul(x.c0, y.c1), j2_mul(x.c1, y.c0), z.c2);
    lemma_j2_nr_mul(j2_mul(x.c2, y.c2), z.c0);
    lemma_j2_nr_mul(j2_mul(x.c2, y.c2), z.c1);
    lemma_j2_nr_mul(j2_mul(x.c2, y.c2), z.c2);
    // m.c2 * z.ck
    lemma_j2_distrib(m2h, j2_mul(x.c2, y.c0), z.c0);
    lemma_j2_distrib(m2h, j2_mul(x.c2, y.c0), z.c1);
    lemma_j2_distrib(m2h, j2_mul(x.c2, y.c0), z.c2);
    lemma_j2_distrib(j2_mul(x.c0, y.c2), j2_mul(x.c1, y.c1), z.c0);
    lemma_j2_distrib(j2_mul(x.c0, y.c2), j2_mul(x.c1, y.c1), z.c1);
    lemma_j2_distrib(j2_mul(x.c0, y.c2), j2_mul(x.c1, y.c1), z.c2);
    // expand the products of x's coordinates with n's
    lemma_j2_distrib(j2_mul(y.c0, z.c0), j2_nr(t0), x.c0);
    lemma_j2_distrib(j2_mul(y.c0, z.c0), j2_nr(t0), x.c1);
    lemma_j2_distrib(j2_mul(y.c0, z.c0), j2_nr(t0), x.c2);
    lemma_j2_nr_mul(x.c0, t0);
    lemma_j2_nr_mul(x.c1, t0);
    lemma_j2_nr_mul(x.c2, t0);
    lemma_j2_distrib(j2_mul(y.c1, z.c2), j2_mul(y.c2, z.c1), x.c0);
    lemma_j2_distrib(j2_mul(y.c1, z.c2), j2_mul(y.c2, z.c1), x.c1);
    lemma_j2_distrib(j2_mul(y.c1, z.c2), j2_mul(y.c2, z.c1), x.c2);
    lemma_j2_distrib(n1h, j2_nr(j2_mul(y.c2, z.c2)), x.c0);
    lemma_j2_distrib(n1h, j2_nr(j2_mul(y.c2, z.c2)), x.c1);
    lemma_j2_distrib(n1h, j2_nr(j2_mul(y.c2, z.c2)), x.c2);
    lemma_j2_distrib(j2_mul(y.c0, z.c1), j2_mul(y.c1, z.c0), x.c0);
    lemma_j2_distrib(j2_mul(y.c0, z.c1), j2_mul(y.c1, z.c0), x.c1);
    lemma_j2_distrib(j2_mul(y.c0, z.c1), j2_mul(y.c1, z.c0), x.c2);
    lemma_j2_nr_mul(x.c0, j2_mul(y.c2, z.c2));
    lemma_j2_nr_mul(x.c1, j2_mul(y.c2, z.c2));
    lemma_j2_nr_mul(x.c2, j2_mul(y.c2, z.c2));
    lemma_j2_distrib(n2h, j2_mul(y.c2, z.c0), x.c0);
    lemma_j2_distrib(n2h, j2_mul(y.c2, z.c0), x.c1);
    lemma_j2_distrib(n2h, j2_mul(y.c2, z.c0), x.c2);
    lemma_j2_distrib(j2_mul(y.c0, z.c2), j2_mul(y.c1, z.c1), x.c0);
    lemma_j2_distrib(j2_mul(y.c0, z.c2), j2_mul(y.c1, z.c1), x.c1);
    lemma_j2_distrib(j2_mul(y.c0, z.c2), j2_mul(y.c1, z.c1), x.c2);
    // reassociate all 27 triple products
    lemma_j2_mul_assoc(x.c0, y.c0, z.c0);
    lemma_j2_mul_assoc(x.c0, y.c0, z.c1);
    lemma_j2_mul_assoc(x.c0, y.c0, z.c2);
    lemma_j2_mul_assoc(x.c0, y.c1, z.c0);
    lemma_j2_mul_assoc(x.c0, y.c1, z.c1);
    lemma_j2_mul_assoc(x.c0, y.c1, z.c2);
    lemma_j2_mul_assoc(x.c0, y.c2, z.c0);
    lemma_j2_mul_assoc(x.c0, y.c2, z.c1);
    lemma_j2_mul_assoc(x.c0, y.c2, z.c2);
    lemma_j2_mul_assoc(x.c1, y.c0, z.c0);
    lemma_j2_mul_assoc(x.c1, y.c0, z.c1);
    lemma_j2_mul_assoc(x.c1, y.c0, z.c2);
    lemma_j2_mul_assoc(x.c1, y.c1, z.c0);
    lemma_j2_mul_assoc(x.c1, y.c1, z.c1);
    lemma_j2_mul_assoc(x.c1, y.c1, z.c2);
    lemma_j2_mul_assoc(x.c1, y.c2, z.c0);
    lemma_j2_mul_assoc(x.c1, y.c2, z.c1);
    lemma_j2_mul_assoc(x.c1, y.c2, z.c2);
    lemma_j2_mul_assoc(x.c2, y.c0, z.c0);
    lemma_j2_mul_assoc(x.c2, y.c0, z.c1);
    lemma_j2_mul_assoc(x.c2, y.c0, z.c2);
    lemma_j2_mul_assoc(x.c2, y.c1, z.c0);
    lemma_j2_mul_assoc(x.c2, y.c1, z.c1);
    lemma_j2_mul_assoc(x.c2, y.c1, z.c2);
    lemma_j2_mul_assoc(x.c2, y.c2, z.c0);
    lemma_j2_mul_assoc(x.c2, y.c2, z.c1);
    lemma_j2_mul_assoc(x.c2, y.c2, z.c2);
}

/// Multiplication at degree 6 is associative.
pub proof fn lemma_v6_mul_assoc(x: V6, y: V6, z: V6)
    ensures
        v6_mul(v6_mul(x, y), z) == v6_mul(x, v6_mul(y, z)),
{
    lemma_fc6_twice(j6_mul(x, y));
    lemma_fc6_twice(j6_mul(y, z));
    lemma_j6_mul_cong(fc6(j6_mul(x, y)), z, j6_mul(x, y), z);
    lemma_j6_mul_cong(x, fc6(j6_mul(y, z)), x, j6_mul(y, z));
    lemma_j6_mul_assoc(x, y, z);
}

/// The shift-and-wrap non-residue multiplication is multiplication by the
/// tower element `v`.
pub proof fn lemma_v6_nr_is_mul_v(x: V6)
    ensures
        v6_nr(x) == v6_mul(x, v6_v()),
        j6_nr(x) == j6_mul(x, v6_v()),
        j6_nr(x) == j6_mul(v6_v(), x),
{
}

/// Multiplying by the non-residue commutes with the unreduced product.
pub proof fn lemma_j6_nr_mul(x: V6, y: V6)
    ensures
        j6_mul(j6_nr(x), y) == j6_nr(j6_mul(x, y)),
        j6_mul(x, j6_nr(y)) == j6_nr(j6_mul(x, y)),
{
    lemma_v6_nr_is_mul_v(x);
    lemma_v6_nr_is_mul_v(y);
    lemma_v6_nr_is_mul_v(j6_mul(x, y));
    lemma_j6_mul_assoc(v6_v(), x, y);
    lemma_j6_mul_comm(v6_v(), x);
    lemma_j6_mul_assoc(x, v6_v(), y);
    lemma_j6_mul_comm(v6_v(), y);
    lemma_j6_mul_assoc(x, y, v6_v());
}

/// Congruent arguments give congruent degree-6 sums, differences,
/// negations and non-residue multiples.
pub proof fn lemma_j6_lin_cong(a: V6, b: V6, a2: V6, b2: V6)
    requires
        fc6(a) == fc6(a2),
        fc6(b) == fc6(b2),
    ensures
        fc6(j6_add(a, b)) == fc6(j6_add(a2, b2)),
        fc6(j6_sub(a, b)) == fc6(j6_sub(a2, b2)),
        fc6(j6_neg(a)) == fc6(j6_neg(a2)),
        fc6(j6_nr(a)) == fc6(j6_nr(a2)),
{
    lemma_j2_add_cong(a.c0, b.c0, a2.c0, b2.c0);
    lemma_j2_add_cong(a.c1, b.c1, a2.c1, b2.c1);
    lemma_j2_add_cong(a.c2, b.c2, a2.c2, b2.c2);
    lemma_j2_sub_cong(a.c0, b.c0, a2.c0, b2.c0);
    lemma_j2_sub_cong(a.c1, b.c1, a2.c1, b2.c1);
    lemma_j2_sub_cong(a.c2, b.c2, a2.c2, b2.c2);
    lemma_j2_neg_cong(a.c0, a2.c0);
    lemma_j2_neg_cong(a.c1, a2.c1);
    lemma_j2_neg_cong(a.c2, a2.c2);
    lemma_j2_nr_cong(a.c2, a2.c2);
}

/// The Karatsuba recombination `(p + q)(r + s) - pr - qs` equals the pair
/// of cross products `ps + qr`, at degree 6.
#[verifier::rlimit(100)]
pub proof fn lemma_v6_karatsuba(p: V6, q: V6, r: V6, s: V6)
    ensures
        v6_sub(v6_sub(v6_mul(v6_add(p, q), v6_add(r, s)), v6_mul(p, r)), v6_mul(q, s)) == v6_add(
            v6_mul(p, s),
            v6_mul(q, r),
        ),
{
    let ja = j6_mul(j6_add(p, q), j6_add(r, s));
    // the canonical product of the canonical sums is the canonicalised
    // unreduced product of the unreduced sums
    lemma_fc6_twice(j6_add(p, q));
    lemma_fc6_twice(j6_add(r, s));
    lemma_j6_mul_cong(fc6(j6_add(p, q)), fc6(j6_add(r, s)), j6_add(p, q), j6_add(r, s));
    assert(v6_mul(v6_add(p, q), v6_add(r, s)) == fc6(ja));
    // peel the canonicalisations off the two subtractions
    lemma_fc6_twice(ja);
    lemma_fc6_twice(j6_mul(p, r));
    lemma_fc6_twice(j6_mul(q, s));
    lemma_fc6_twice(j6_mul(p, s));
    lemma_fc6_twice(j6_mul(q, r));
    lemma_j6_lin_cong(fc6(ja), fc6(j6_mul(p, r)), ja, j6_mul(p, r));
    lemma_fc6_twice(j6_sub(ja, j6_mul(p, r)));
    lemma_j6_lin_cong(
        fc6(j6_sub(ja, j6_mul(p, r))),
        fc6(j6_mul(q, s)),
        j6_sub(ja, j6_mul(p, r)),
        j6_mul(q, s),
    );
    lemma_j6_lin_cong(fc6(j6_mul(p, s)), fc6(j6_mul(q, r)), j6_mul(p, s), j6_mul(q, r));
    // the unreduced identity
    lemma_j6_distrib(p, q, j6_add(r, s));
    lemma_j6_distrib(r, s, p);
    lemma_j6_distrib(r, s, q);
}

/// Whatever witnesses the degree-6 inversion gadget supplies, the product
/// of an element with the gadget's result is `one`.
#[verifier::rlimit(100)]
pub proof fn lemma_v6_mul_inverse(x: V6, r: V6)
    requires
        v6_inv_rel(x, r),
    ensures
        v6_mul(x, r) == v6_one(),
{
    let d = choose|d: V2|
        #[trigger] v2_inv_rel(v6_denom(x), d) && r == V6 {
            c0: v2_mul(v6_t0(x), d),
            c1: v2_mul(v6_t1(x), d),
            c2: v2_mul(v6_t2(x), d),
        };
    lemma_v2_mul_inverse(v6_denom(x), d);
    let t0 = j6_t0(x);
    let t1 = j6_t1(x);
    let t2 = j6_t2(x);
    // the result coordinates are congruent to the unreduced scaled adjugate
    lemma_v2_mul_fc(t0, d);
    lemma_v2_mul_fc(t1, d);
    lemma_v2_mul_fc(t2, d);
    let u0 = j2_mul(t0, d);
    let u1 = j2_mul(t1, d);
    let u2 = j2_mul(t2, d);
    assert(r == V6 { c0: fc2(u0), c1: fc2(u1), c2: fc2(u2) });
    lemma_fc6_twice(V6 { c0: u0, c1: u1, c2: u2 });
    lemma_j6_mul_cong(x, r, x, V6 { c0: u0, c1: u1, c2: u2 });
    lemma_adj_scaled(x, d);
    // coordinate 0: the degree-2 inverse witness makes it one
    lemma_v2_mul_fc(j6_denom(x), d);
    assert(fc2(j2_mul(j6_denom(x), d)) == v2_mul(v6_denom(x), d));
    // coordinates 1 and 2: zero stays zero
    lemma_fc_id(0);
    assert(v6_mul(x, r).c1 == fc2(j6_mul(x, (V6 { c0: u0, c1: u1, c2: u2 })).c1));
    assert(v6_mul(x, r).c1 == v2_zero());
    assert(v6_mul(x, r).c2 == v2_zero());
}

/// Scaling the adjugate by a common factor `d` turns the product of an
/// element with its scaled adjugate into the scaled denominator in the
/// constant coordinate, and zero elsewhere.
proof fn lemma_adj_scaled(x: V6, d: V2)
    ensures
        j6_mul(
            x,
            (V6 {
                c0: j2_mul(j6_t0(x), d),
                c1: j2_mul(j6_t1(x), d),
                c2: j2_mul(j6_t2(x), d),
            }),
        ).c0 == j2_mul(j6_denom(x), d),
        j6_mul(
            x,
            (V6 {
                c0: j2_mul(j6_t0(x), d),
                c1: j2_mul(j6_t1(x), d),
                c2: j2_mul(j6_t2(x), d),
            }),
        ).c1 == (V2 { c0: 0, c1: 0 }),
        j6_mul(
            x,
            (V6 {
                c0: j2_mul(j6_t0(x), d),
                c1: j2_mul(j6_t1(x), d),
                c2: j2_mul(j6_t2(x), d),
            }),
        ).c2 == (V2 { c0: 0, c1: 0 }),
{
    let t0 = j6_t0(x);
    let t1 = j6_t1(x);
    let t2 = j6_t2(x);
    // pull the common factor d out of every product
    lemma_j2_mul_assoc(x.c0, t0, d);
    lemma_j2_mul_assoc(x.c0, t1, d);
    lemma_j2_mul_assoc(x.c0, t2, d);
    lemma_j2_mul_assoc(x.c1, t0, d);
    lemma_j2_mul_assoc(x.c1, t1, d);
    lemma_j2_mul_assoc(x.c1, t2, d);
    lemma_j2_mul_assoc(x.c2, t0, d);
    lemma_j2_mul_assoc(x.c2, t1, d);
    lemma_j2_mul_assoc(x.c2, t2, d);
    lemma_j2_distrib(j2_mul(x.c1, t2), j2_mul(x.c2, t1), d);
    lemma_j2_nr_mul(j2_add(j2_mul(x.c1, t2), j2_mul(x.c2, t1)), d);
    lemma_j2_distrib(j2_mul(x.c0, t0), j2_nr(j2_add(j2_mul(x.c1, t2), j2_mul(x.c2, t1))), d);
    lemma_j2_distrib(j2_mul(x.c0, t1), j2_mul(x.c1, t0), d);
    lemma_j2_nr_mul(j2_mul(x.c2, t2), d);
    lemma_j2_distrib(j2_add(j2_mul(x.c0, t1), j2_mul(x.c1, t0)), j2_nr(j2_mul(x.c2, t2)), d);
    lemma_j2_distrib(j2_mul(x.c0, t2), j2_mul(x.c1, t1), d);
    lemma_j2_distrib(j2_add(j2_mul(x.c0, t2), j2_mul(x.c1, t1)), j2_mul(x.c2, t0), d);
    // the unreduced adjugate identities: coordinate 0 is the denominator,
    // coordinates 1 and 2 vanish
    lemma_adjugate(x);
    let u = V6 { c0: j2_mul(t0, d), c1: j2_mul(t1, d), c2: j2_mul(t2, d) };
    assert(j2_mul(x.c0, u.c2) == j2_mul(j2_mul(x.c0, t2), d));
    assert(j6_mul(x, u).c2 == j2_mul(
        j2_add(j2_add(j2_mul(x.c0, t2), j2_mul(x.c1, t1)), j2_mul(x.c2, t0)),
        d,
    ));
    assert(j2_add(j2_add(j2_mul(x.c0, t2), j2_mul(x.c1, t1)), j2_mul(x.c2, t0)) == (V2 {
        c0: 0,
        c1: 0,
    }));
    vstd::arithmetic::mul::lemma_mul_basics(d.c0);
    vstd::arithmetic::mul::lemma_mul_basics(d.c1);
    assert(j2_mul((V2 { c0: 0, c1: 0 }), d) == (V2 { c0: 0, c1: 0 }));
    assert(j6_mul(x, u).c1 == j2_mul(
        j2_add(j2_add(j2_mul(x.c0, t1), j2_mul(x.c1, t0)), j2_nr(j2_mul(x.c2, t2))),
        d,
    ));
    assert(j2_add(j2_add(j2_mul(x.c0, t1), j2_mul(x.c1, t0)), j2_nr(j2_mul(x.c2, t2))) == (V2 {
        c0: 0,
        c1: 0,
    }));
}

/// The adjugate identities behind the degree-6 inversion: multiplying an
/// element by its adjugate gives the denominator in the constant coordinate
/// and zero elsewhere.
proof fn lemma_adjugate(x: V6)
    ensures
        j6_mul(x, (V6 { c0: j6_t0(x), c1: j6_t1(x), c2: j6_t2(x) })).c0 == j6_denom(x),
        j6_mul(x, (V6 { c0: j6_t0(x), c1: j6_t1(x), c2: j6_t2(x) })).c1 == (V2 { c0: 0, c1: 0 }),
        j6_mul(x, (V6 { c0: j6_t0(x), c1: j6_t1(x), c2: j6_t2(x) })).c2 == (V2 { c0: 0, c1: 0 }),
{
    let m00 = j2_mul(x.c0, x.c0);
    let m01 = j2_mul(x.c0, x.c1);
    let m02 = j2_mul(x.c0, x.c2);
    let m11 = j2_mul(x.c1, x.c1);
    let m12 = j2_mul(x.c1, x.c2);
    let m22 = j2_mul(x.c2, x.c2);
    // expand the products with the three adjugate coordinates
    lemma_j2_distrib(m00, j2_nr(m12), x.c0);
    lemma_j2_distrib(m00, j2_nr(m12), x.c1);
    lemma_j2_distrib(m00, j2_nr(m12), x.c2);
    lemma_j2_distrib(j2_nr(m22), m01, x.c0);
    lemma_j2_distrib(j2_nr(m22), m01, x.c1);
    lemma_j2_distrib(j2_nr(m22), m01, x.c2);
    lemma_j2_distrib(m11, m02, x.c0);
    lemma_j2_distrib(m11, m02, x.c1);
    lemma_j2_distrib(m11, m02, x.c2);
    lemma_j2_mul_comm(x.c0, j6_t0(x));
    lemma_j2_mul_comm(x.c0, j6_t1(x));
    lemma_j2_mul_comm(x.c0, j6_t2(x));
    lemma_j2_mul_comm(x.c1, j6_t0(x));
    lemma_j2_mul_comm(x.c1, j6_t1(x));
    lemma_j2_mul_comm(x.c1, j6_t2(x));
    lemma_j2_mul_comm(x.c2, j6_t0(x));
    lemma_j2_mul_comm(x.c2, j6_t1(x));
    lemma_j2_mul_comm(x.c2, j6_t2(x));
    lemma_j2_nr_mul(m22, x.c0);
    lemma_j2_nr_mul(m22, x.c1);
    lemma_j2_nr_mul(m22, x.c2);
    lemma_j2_nr_mul(m12, x.c0);
    lemma_j2_nr_mul(m12, x.c1);
    lemma_j2_nr_mul(m12, x.c2);
    // match the triple products pairwise
    lemma_j2_mul_assoc(x.c0, x.c0, x.c1);
    lemma_j2_mul_comm(m00, x.c1);
    lemma_j2_mul_assoc(x.c0, x.c2, x.c2);
    lemma_j2_mul_comm(m02, x.c2);
    lemma_j2_mul_assoc(x.c1, x.c1, x.c2);
    lemma_j2_mul_comm(m11, x.c2);
    lemma_j2_mul_assoc(x.c0, x.c1, x.c1);
    lemma_j2_mul_comm(m01, x.c1);
    lemma_j2_mul_assoc(x.c0, x.c0, x.c2);
    lemma_j2_mul_comm(m00, x.c2);
    lemma_j2_mul_assoc(x.c1, x.c2, x.c2);
    lemma_j2_mul_comm(m12, x.c2);
    lemma_j2_mul_assoc(x.c0, x.c1, x.c2);
    lemma_j2_mul_comm(m01, x.c2);
    lemma_j2_mul_comm(m02, x.c1);
    lemma_j2_mul_assoc(x.c0, x.c2, x.c1);
    lemma_j2_mul_comm(x.c1, x.c2);
    lemma_j2_mul_comm(x.c0, x.c1);
    lemma_j2_mul_comm(x.c0, x.c2);
}

/// The schoolbook product written with the canonical degree-2 operations
/// equals the canonicalised unreduced product: the bridge between what the
/// multiplication gadget computes coordinate by coordinate and `v6_mul`.
pub proof fn lemma_v6_mul_expand(x: V6, y: V6)
    ensures
        v6_mul(x, y) == (V6 {
            c0: v2_add(v2_mul(x.c0, y.c0), v2_nr(v2_add(v2_mul(x.c1, y.c2), v2_mul(x.c2, y.c1)))),
            c1: v2_add(v2_add(v2_mul(x.c0, y.c1), v2_mul(x.c1, y.c0)), v2_nr(v2_mul(x.c2, y.c2))),
            c2: v2_add(v2_add(v2_mul(x.c0, y.c2), v2_mul(x.c1, y.c1)), v2_mul(x.c2, y.c0)),
        }),
{
    // coordinate 0
    lemma_fc2_twice(j2_mul(x.c1, y.c2));
    lemma_fc2_twice(j2_mul(x.c2, y.c1));
    lemma_j2_add_cong(
        fc2(j2_mul(x.c1, y.c2)),
        fc2(j2_mul(x.c2, y.c1)),
        j2_mul(x.c1, y.c2),
        j2_mul(x.c2, y.c1),
    );
    lemma_fc2_twice(j2_add(j2_mul(x.c1, y.c2), j2_mul(x.c2, y.c1)));
    lemma_j2_nr_cong(
        fc2(j2_add(j2_mul(x.c1, y.c2), j2_mul(x.c2, y.c1))),
        j2_add(j2_mul(x.c1, y.c2), j2_mul(x.c2, y.c1)),
    );
    lemma_fc2_twice(j2_mul(x.c0, y.c0));
    lemma_fc2_twice(j2_nr(j2_add(j2_mul(x.c1, y.c2), j2_mul(x.c2, y.c1))));
    lemma_j2_add_cong(
        fc2(j2_mul(x.c0, y.c0)),
        fc2(j2_nr(j2_add(j2_mul(x.c1, y.c2), j2_mul(x.c2, y.c1)))),
        j2_mul(x.c0, y.c0),
        j2_nr(j2_add(j2_mul(x.c1, y.c2), j2_mul(x.c2, y.c1))),
    );
    // coordinate 1
    lemma_fc2_twice(j2_mul(x.c0, y.c1));
    lemma_fc2_twice(j2_mul(x.c1, y.c0));
    lemma_j2_add_cong(
        fc2(j2_mul(x.c0, y.c1)),
        fc2(j2_mul(x.c1, y.c0)),
        j2_mul(x.c0, y.c1),
        j2_mul(x.c1, y.c0),
    );
    lemma_fc2_twice(j2_mul(x.c2, y.c2));
    lemma_j2_nr_cong(fc2(j2_mul(x.c2, y.c2)), j2_mul(x.c2, y.c2));
    lemma_fc2_twice(j2_add(j2_mul(x.c0, y.c1), j2_mul(x.c1, y.c0)));
    lemma_fc2_twice(j2_nr(j2_mul(x.c2, y.c2)));
    lemma_j2_add_cong(
        fc2(j2_add(j2_mul(x.c0, y.c1), j2_mul(x.c1, y.c0))),
        fc2(j2_nr(j2_mul(x.c2, y.c2))),
        j2_add(j2_mul(x.c0, y.c1), j2_mul(x.c1, y.c0)),
        j2_nr(j2_mul(x.c2, y.c2)),
    );
    // coordinate 2
    lemma_fc2_twice(j2_mul(x.c0, y.c2));
    lemma_fc2_twice(j2_mul(x.c1, y.c1));
    lemma_j2_add_cong(
        fc2(j2_mul(x.c0, y.c2)),
        fc2(j2_mul(x.c1, y.c1)),
        j2_mul(x.c0, y.c2),
        j2_mul(x.c1, y.c1),
    );
    lemma_fc2_twice(j2_add(j2_mul(x.c0, y.c2), j2_mul(x.c1, y.c1)));
    lemma_fc2_twice(j2_mul(x.c2, y.c0));
    lemma_j2_add_cong(
        fc2(j2_add(j2_mul(x.c0, y.c2), j2_mul(x.c1, y.c1))),
        fc2(j2_mul(x.c2, y.c0)),
        j2_add(j2_mul(x.c0, y.c2), j2_mul(x.c1, y.c1)),
        j2_mul(x.c2, y.c0),
    );
}

/// Subtracting a sum is subtracting both parts in turn, at degree 6.
pub proof fn lemma_v6_sub_sub(x: V6, a: V6, b: V6)
    ensures
        v6_sub(x, v6_add(a, b)) == v6_sub(v6_sub(x, a), b),
{
    lemma_v2_sub_sub(x.c0, a.c0, b.c0);
    lemma_v2_sub_sub(x.c1, a.c1, b.c1);
    lemma_v2_sub_sub(x.c2, a.c2, b.c2);
}

/// Negation pulls out of the unreduced degree-6 product, on either side.
pub proof fn lemma_j6_neg_mul(x: V6, y: V6)
    ensures
        j6_mul(j6_neg(x), y) == j6_neg(j6_mul(x, y)),
        j6_mul(x, j6_neg(y)) == j6_neg(j6_mul(x, y)),
{
    lemma_j2_neg_mul(x.c0, y.c0);
    lemma_j2_neg_mul(x.c0, y.c1);
    lemma_j2_neg_mul(x.c0, y.c2);
    lemma_j2_neg_mul(x.c1, y.c0);
    lemma_j2_neg_mul(x.c1, y.c1);
    lemma_j2_neg_mul(x.c1, y.c2);
    lemma_j2_neg_mul(x.c2, y.c0);
    lemma_j2_neg_mul(x.c2, y.c1);
    lemma_j2_neg_mul(x.c2, y.c2);
}

/// The unreduced degree-6 product distributes over sums, on either side.
pub proof fn lemma_j6_distrib(x: V6, y: V6, z: V6)
    ensures
        j6_mul(j6_add(x, y), z) == j6_add(j6_mul(x, z), j6_mul(y, z)),
        j6_mul(z, j6_add(x, y)) == j6_add(j6_mul(z, x), j6_mul(z, y)),
{
    lemma_j2_distrib(x.c0, y.c0, z.c0);
    lemma_j2_distrib(x.c0, y.c0, z.c1);
    lemma_j2_distrib(x.c0, y.c0, z.c2);
    lemma_j2_distrib(x.c1, y.c1, z.c0);
    lemma_j2_distrib(x.c1, y.c1, z.c1);
    lemma_j2_distrib(x.c1, y.c1, z.c2);
    lemma_j2_distrib(x.c2, y.c2, z.c0);
    lemma_j2_distrib(x.c2, y.c2, z.c1);
    lemma_j2_distrib(x.c2, y.c2, z.c2);
}

} // verus!
