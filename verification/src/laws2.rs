//! Ring laws for the degree-2 level of the tower: canonicalising an
//! argument never changes an operation's result, addition and multiplication
//! are commutative and associative, the written-out non-residue
//! multiplication is multiplication by `xi`, and the inversion relation
//! really produces inverses.
use vstd::prelude::*;
use crate::gf::{fmul, fneg, fc, in_field, lemma_fc_add, lemma_fc_sub, lemma_fc_mul,
    lemma_fc_twice, lemma_fc_range, lemma_fc_id};
use crate::vals::{V2, v2_canon, v2_zero, v2_one, v2_xi, v2_add, v2_sub, v2_neg, v2_mul, v2_scale,
    v2_nr, v2_norm, v2_inv_rel, j2_add, j2_sub, j2_neg, j2_mul, j2_nr, fc2};
use vstd::arithmetic::mul::{lemma_mul_is_distributive_add, lemma_mul_is_distributive_add_other_way,
    lemma_mul_is_distributive_sub, lemma_mul_is_distributive_sub_other_way,
    lemma_mul_is_associative, lemma_mul_is_commutative, lemma_mul_unary_negation};

verus! {

/// Canonicalising an argument first does not change a product.
pub proof fn lemma_v2_mul_fc(x: V2, y: V2)
    ensures
        v2_mul(fc2(x), y) == v2_mul(x, y),
        v2_mul(x, fc2(y)) == v2_mul(x, y),
        v2_mul(fc2(x), fc2(y)) == v2_mul(x, y),
{
    lemma_fc_mul(x.c0, y.c0);
    lemma_fc_mul(x.c1, y.c1);
    lemma_fc_mul(x.c0, y.c1);
    lemma_fc_mul(x.c1, y.c0);
    lemma_fc_sub(x.c0 * y.c0, x.c1 * y.c1);
    lemma_fc_add(x.c0 * y.c1, x.c1 * y.c0);
    lemma_fc_sub(fc(x.c0) * y.c0, fc(x.c1) * y.c1);
    lemma_fc_add(fc(x.c0) * y.c1, fc(x.c1) * y.c0);
    lemma_fc_sub(x.c0 * fc(y.c0), x.c1 * fc(y.c1));
    lemma_fc_add(x.c0 * fc(y.c1), x.c1 * fc(y.c0));
    lemma_fc_sub(fc(x.c0) * fc(y.c0), fc(x.c1) * fc(y.c1));
    lemma_fc_add(fc(x.c0) * fc(y.c1), fc(x.c1) * fc(y.c0));
    lemma_fc_mul(x.c0, fc(y.c0));
    lemma_fc_mul(x.c1, fc(y.c1));
    lemma_fc_mul(x.c0, fc(y.c1));
    lemma_fc_mul(x.c1, fc(y.c0));
    lemma_fc_mul(fc(x.c0), fc(y.c0));
    lemma_fc_mul(fc(x.c1), fc(y.c1));
    lemma_fc_mul(fc(x.c0), fc(y.c1));
    lemma_fc_mul(fc(x.c1), fc(y.c0));
}

/// Canonicalising an argument first does not change a sum, difference,
/// negation or non-residue multiplication.
pub proof fn lemma_v2_lin_fc(x: V2, y: V2)
    ensures
        v2_add(fc2(x), y) == v2_add(x, y),
        v2_add(x, fc2(y)) == v2_add(x, y),
        v2_add(fc2(x), fc2(y)) == v2_add(x, y),
        v2_sub(fc2(x), y) == v2_sub(x, y),
        v2_sub(x, fc2(y)) == v2_sub(x, y),
        v2_sub(fc2(x), fc2(y)) == v2_sub(x, y),
        v2_neg(fc2(x)) == v2_neg(x),
        v2_nr(fc2(x)) == v2_nr(x),
{
    lemma_fc_add(x.c0, y.c0);
    lemma_fc_add(x.c1, y.c1);
    lemma_fc_sub(x.c0, y.c0);
    lemma_fc_sub(x.c1, y.c1);
    lemma_fc_sub(0, x.c0);
    lemma_fc_sub(0, x.c1);
    lemma_fc_sub(x.c0, x.c1);
    lemma_fc_add(x.c0, x.c1);
}

/// Every coordinate a canonical operation yields is a canonical residue.
pub proof fn lemma_v2_ops_canon(x: V2, y: V2)
    ensures
        v2_canon(v2_add(x, y)),
        v2_canon(v2_sub(x, y)),
        v2_canon(v2_neg(x)),
        v2_canon(v2_mul(x, y)),
        v2_canon(v2_nr(x)),
        v2_canon(fc2(x)),
{
    broadcast use lemma_fc_range;

}

/// Addition at degree 2 is commutative and associative, with `zero` as the
/// neutral element on canonical inputs.
pub proof fn lemma_v2_add_laws(x: V2, y: V2, z: V2)
    ensures
        v2_add(x, y) == v2_add(y, x),
        v2_add(v2_add(x, y), z) == v2_add(x, v2_add(y, z)),
        v2_canon(x) ==> v2_add(x, v2_zero()) == x,
{
    lemma_fc_add(x.c0 + y.c0, z.c0);
    lemma_fc_add(x.c1 + y.c1, z.c1);
    lemma_fc_add(x.c0, y.c0 + z.c0);
    lemma_fc_add(x.c1, y.c1 + z.c1);
    if v2_canon(x) {
        lemma_fc_id(x.c0);
        lemma_fc_id(x.c1);
    }
}

/// The unreduced integer product is commutative.
pub proof fn lemma_j2_mul_comm(x: V2, y: V2)
    ensures
        j2_mul(x, y) == j2_mul(y, x),
{
    lemma_mul_is_commutative(x.c0, y.c0);
    lemma_mul_is_commutative(x.c1, y.c1);
    lemma_mul_is_commutative(x.c0, y.c1);
    lemma_mul_is_commutative(x.c1, y.c0);
}

/// Multiplication at degree 2 is commutative, with `one` as the neutral
/// element on canonical inputs.
pub proof fn lemma_v2_mul_comm(x: V2, y: V2)
    ensures
        v2_mul(x, y) == v2_mul(y, x),
        v2_canon(x) ==> v2_mul(x, v2_one()) == x,
{
    lemma_j2_mul_comm(x, y);
    if v2_canon(x) {
        lemma_fc_id(x.c0);
        lemma_fc_id(x.c1);
    }
}

/// The unreduced integer product is associative, by distributing and
/// reassociating each of the eight triple products.
pub proof fn lemma_j2_mul_assoc(x: V2, y: V2, z: V2)
    ensures
        j2_mul(j2_mul(x, y), z) == j2_mul(x, j2_mul(y, z)),
{
    lemma_mul_is_distributive_sub_other_way(z.c0, x.c0 * y.c0, x.c1 * y.c1);
    lemma_mul_is_distributive_add_other_way(z.c1, x.c0 * y.c1, x.c1 * y.c0);
    lemma_mul_is_distributive_sub_other_way(z.c1, x.c0 * y.c0, x.c1 * y.c1);
    lemma_mul_is_distributive_add_other_way(z.c0, x.c0 * y.c1, x.c1 * y.c0);
    lemma_mul_is_distributive_sub(x.c0, y.c0 * z.c0, y.c1 * z.c1);
    lemma_mul_is_distributive_add(x.c1, y.c0 * z.c1, y.c1 * z.c0);
    lemma_mul_is_distributive_add(x.c0, y.c0 * z.c1, y.c1 * z.c0);
    lemma_mul_is_distributive_sub(x.c1, y.c0 * z.c0, y.c1 * z.c1);
    lemma_mul_is_associative(x.c0, y.c0, z.c0);
    lemma_mul_is_associative(x.c0, y.c0, z.c1);
    lemma_mul_is_associative(x.c0, y.c1, z.c0);
    lemma_mul_is_associative(x.c0, y.c1, z.c1);
    lemma_mul_is_associative(x.c1, y.c0, z.c0);
    lemma_mul_is_associative(x.c1, y.c0, z.c1);
    lemma_mul_is_associative(x.c1, y.c1, z.c0);
    lemma_mul_is_associative(x.c1, y.c1, z.c1);
}

/// The unreduced integer product distributes over sums and differences,
/// on either side.
pub proof fn lemma_j2_distrib(x: V2, y: V2, z: V2)
    ensures
        j2_mul(j2_add(x, y), z) == j2_add(j2_mul(x, z), j2_mul(y, z)),
        j2_mul(z, j2_add(x, y)) == j2_add(j2_mul(z, x), j2_mul(z, y)),
        j2_mul(j2_sub(x, y), z) == j2_sub(j2_mul(x, z), j2_mul(y, z)),
        j2_mul(z, j2_sub(x, y)) == j2_sub(j2_mul(z, x), j2_mul(z, y)),
{
    lemma_mul_is_distributive_add_other_way(z.c0, x.c0, y.c0);
    lemma_mul_is_distributive_add_other_way(z.c1, x.c1, y.c1);
    lemma_mul_is_distributive_add_other_way(z.c1, x.c0, y.c0);
    lemma_mul_is_distributive_add_other_way(z.c0, x.c1, y.c1);
    lemma_mul_is_distributive_add(z.c0, x.c0, y.c0);
    lemma_mul_is_distributive_add(z.c1, x.c1, y.c1);
    lemma_mul_is_distributive_add(z.c0, x.c1, y.c1);
    lemma_mul_is_distributive_add(z.c1, x.c0, y.c0);
    lemma_mul_is_distributive_sub_other_way(z.c0, x.c0, y.c0);
    lemma_mul_is_distributive_sub_other_way(z.c1, x.c1, y.c1);
    lemma_mul_is_distributive_sub_other_way(z.c1, x.c0, y.c0);
    lemma_mul_is_distributive_sub_other_way(z.c0, x.c1, y.c1);
    lemma_mul_is_distributive_sub(z.c0, x.c0, y.c0);
    lemma_mul_is_distributive_sub(z.c1, x.c1, y.c1);
    lemma_mul_is_distributive_sub(z.c0, x.c1, y.c1);
    lemma_mul_is_distributive_sub(z.c1, x.c0, y.c0);
}

/// Negation pulls out of the unreduced product, on either side.
pub proof fn lemma_j2_neg_mul(x: V2, y: V2)
    ensures
        j2_mul(j2_neg(x), y) == j2_neg(j2_mul(x, y)),
        j2_mul(x, j2_neg(y)) == j2_neg(j2_mul(x, y)),
{
    lemma_mul_unary_negation(x.c0, y.c0);
    lemma_mul_unary_negation(x.c1, y.c1);
    lemma_mul_unary_negation(x.c0, y.c1);
    lemma_mul_unary_negation(x.c1, y.c0);
}

/// Multiplying by the non-residue commutes with the unreduced product.
pub proof fn lemma_j2_nr_mul(x: V2, y: V2)
    ensures
        j2_mul(j2_nr(x), y) == j2_nr(j2_mul(x, y)),
        j2_mul(x, j2_nr(y)) == j2_nr(j2_mul(x, y)),
{
    lemma_mul_is_distributive_sub_other_way(y.c0, x.c0, x.c1);
    lemma_mul_is_distributive_sub_other_way(y.c1, x.c0, x.c1);
    lemma_mul_is_distributive_add_other_way(y.c0, x.c0, x.c1);
    lemma_mul_is_distributive_add_other_way(y.c1, x.c0, x.c1);
    lemma_mul_is_distributive_sub(x.c0, y.c0, y.c1);
    lemma_mul_is_distributive_sub(x.c1, y.c0, y.c1);
    lemma_mul_is_distributive_add(x.c0, y.c0, y.c1);
    lemma_mul_is_distributive_add(x.c1, y.c0, y.c1);
}

/// Multiplication at degree 2 is associative.
pub proof fn lemma_v2_mul_assoc(x: V2, y: V2, z: V2)
    ensures
        v2_mul(v2_mul(x, y), z) == v2_mul(x, v2_mul(y, z)),
{
    lemma_v2_mul_fc(j2_mul(x, y), z);
    lemma_v2_mul_fc(x, j2_mul(y, z));
    lemma_j2_mul_assoc(x, y, z);
}

/// The written-out non-residue multiplication is multiplication by `xi`.
pub proof fn lemma_v2_nr_is_mul_xi(x: V2)
    ensures
        v2_nr(x) == v2_mul(x, v2_xi()),
{
}

/// Coordinate-wise scaling is multiplication by the lifted scalar.
pub proof fn lemma_v2_scale_is_mul(x: V2, s: int)
    ensures
        v2_scale(x, s) == v2_mul(x, V2 { c0: s, c1: 0 }),
{
}

/// Subtracting a sum is subtracting both parts in turn.
pub proof fn lemma_v2_sub_sub(x: V2, a: V2, b: V2)
    ensures
        v2_sub(x, v2_add(a, b)) == v2_sub(v2_sub(x, a), b),
{
    lemma_fc_sub(x.c0, a.c0 + b.c0);
    lemma_fc_sub(x.c1, a.c1 + b.c1);
    lemma_fc_sub(x.c0 - a.c0, b.c0);
    lemma_fc_sub(x.c1 - a.c1, b.c1);
}

/// The Karatsuba recombination `(p + q)(r + s) - pr - qs` equals the pair
/// of cross products `ps + qr`.
pub proof fn lemma_v2_karatsuba(p: V2, q: V2, r: V2, s: V2)
    ensures
        v2_sub(v2_sub(v2_mul(v2_add(p, q), v2_add(r, s)), v2_mul(p, r)), v2_mul(q, s)) == v2_add(
            v2_mul(p, s),
            v2_mul(q, r),
        ),
{
    let ja = j2_mul(j2_add(p, q), j2_add(r, s));
    lemma_v2_mul_fc(j2_add(p, q), j2_add(r, s));
    assert(v2_mul(v2_add(p, q), v2_add(r, s)) == fc2(ja)) by {
        lemma_v2_mul_fc(p, q);
    };
    lemma_v2_lin_fc(ja, j2_mul(p, r));
    lemma_v2_lin_fc(j2_sub(ja, j2_mul(p, r)), j2_mul(q, s));
    lemma_v2_lin_fc(j2_mul(p, s), j2_mul(q, r));
    lemma_j2_distrib(p, q, j2_add(r, s));
    lemma_j2_distrib(r, s, p);
    lemma_j2_distrib(r, s, q);
}

/// A canonical degree-2 value is unchanged by canonicalisation.
pub proof fn lemma_fc2_id(x: V2)
    requires
        v2_canon(x),
    ensures
        fc2(x) == x,
{
    lemma_fc_id(x.c0);
    lemma_fc_id(x.c1);
}

pub proof fn lemma_fc2_twice(x: V2)
    ensures
        fc2(fc2(x)) == fc2(x),
{
    lemma_fc_twice(x.c0);
    lemma_fc_twice(x.c1);
}

/// Congruent arguments give congruent sums.
pub proof fn lemma_j2_add_cong(a: V2, b: V2, a2: V2, b2: V2)
    requires
        fc2(a) == fc2(a2),
        fc2(b) == fc2(b2),
    ensures
        fc2(j2_add(a, b)) == fc2(j2_add(a2, b2)),
{
    lemma_v2_lin_fc(a, b);
    lemma_v2_lin_fc(a2, b2);
}

/// Congruent arguments give congruent differences.
pub proof fn lemma_j2_sub_cong(a: V2, b: V2, a2: V2, b2: V2)
    requires
        fc2(a) == fc2(a2),
        fc2(b) == fc2(b2),
    ensures
        fc2(j2_sub(a, b)) == fc2(j2_sub(a2, b2)),
{
    lemma_v2_lin_fc(a, b);
    lemma_v2_lin_fc(a2, b2);
}

/// Congruent arguments give congruent products.
pub proof fn lemma_j2_mul_cong(a: V2, b: V2, a2: V2, b2: V2)
    requires
        fc2(a) == fc2(a2),
        fc2(b) == fc2(b2),
    ensures
        fc2(j2_mul(a, b)) == fc2(j2_mul(a2, b2)),
{
    lemma_v2_mul_fc(a, b);
    lemma_v2_mul_fc(a2, b2);
}

/// Congruent arguments give congruent non-residue multiples.
pub proof fn lemma_j2_nr_cong(a: V2, a2: V2)
    requires
        fc2(a) == fc2(a2),
    ensures
        fc2(j2_nr(a)) == fc2(j2_nr(a2)),
{
    lemma_v2_lin_fc(a, a);
    lemma_v2_lin_fc(a2, a2);
}

/// Congruent arguments give congruent negations.
pub proof fn lemma_j2_neg_cong(a: V2, a2: V2)
    requires
        fc2(a) == fc2(a2),
    ensures
        fc2(j2_neg(a)) == fc2(j2_neg(a2)),
{
    lemma_v2_lin_fc(a, a);
    lemma_v2_lin_fc(a2, a2);
}

/// The inversion gadget's result is unique: the norm's inverse witness is
/// unique, and the result coordinates are functions of it.
pub proof fn lemma_v2_inv_rel_unique(x: V2, r1: V2, r2: V2)
    requires
        v2_inv_rel(x, r1),
        v2_inv_rel(x, r2),
    ensures
        r1 == r2,
{
    let d1 = choose|d: int|
        in_field(d) && #[trigger] fmul(v2_norm(x), d) == 1 && r1 == V2 {
            c0: fmul(x.c0, d),
            c1: fmul(fneg(x.c1), d),
        };
    let d2 = choose|d: int|
        in_field(d) && #[trigger] fmul(v2_norm(x), d) == 1 && r2 == V2 {
            c0: fmul(x.c0, d),
            c1: fmul(fneg(x.c1), d),
        };
    crate::gf::lemma_inverse_unique(v2_norm(x), d1, d2);
}

/// Whatever witness the inversion gadget supplies, the product of an element
/// with the gadget's result is `one`.
pub proof fn lemma_v2_mul_inverse(x: V2, r: V2)
    requires
        v2_inv_rel(x, r),
    ensures
        v2_mul(x, r) == v2_one(),
{
    let d = choose|d: int|
        in_field(d) && #[trigger] fmul(v2_norm(x), d) == 1 && r == V2 {
            c0: fmul(x.c0, d),
            c1: fmul(fneg(x.c1), d),
        };
    // the hypothesis canonicalises to fc((x0^2 + x1^2) * d) == 1
    lemma_fc_mul(x.c0 * x.c0 + x.c1 * x.c1, d);
    assert(fc((x.c0 * x.c0 + x.c1 * x.c1) * d) == 1);
    // the result coordinates canonicalise to fc(x0 * d) and fc(-x1 * d)
    lemma_fc_mul(-x.c1, d);
    assert(r.c0 == fc(x.c0 * d) && r.c1 == fc(-x.c1 * d));
    // first product coordinate: fc(x0 (x0 d) - x1 (-x1 d)) == fc((x0^2 + x1^2) d)
    lemma_fc_mul(x.c0, x.c0 * d);
    lemma_fc_mul(x.c1, -x.c1 * d);
    lemma_fc_sub(x.c0 * (x.c0 * d), x.c1 * (-x.c1 * d));
    assert(x.c0 * (x.c0 * d) - x.c1 * (-x.c1 * d) == (x.c0 * x.c0 + x.c1 * x.c1) * d)
        by (nonlinear_arith);
    // second product coordinate: fc(x0 (-x1 d) + x1 (x0 d)) == fc(0)
    lemma_fc_mul(x.c0, -x.c1 * d);
    lemma_fc_mul(x.c1, x.c0 * d);
    lemma_fc_add(x.c0 * (-x.c1 * d), x.c1 * (x.c0 * d));
    assert(x.c0 * (-x.c1 * d) + x.c1 * (x.c0 * d) == 0) by (nonlinear_arith);
    assert(fc(0) == 0) by {
        lemma_fc_id(0);
    };
    assert(v2_mul(x, r).c1 == 0);
}

} // verus!
