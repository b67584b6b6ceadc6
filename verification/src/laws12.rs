//! Ring laws for the degree-12 level of the tower: congruence, commutativity
//! and associativity of addition and multiplication, the conjugate-norm
//! identity, and the inversion relation producing inverses.
use vstd::prelude::*;
use crate::gf::{lemma_fc_id, lemma_fc_range};
use crate::vals::{V6, V12, v6_canon, v6_zero, v6_one, v6_add, v6_sub, v6_neg, v6_mul, v6_nr,
    v6_inv_rel, j6_add, j6_sub, j6_neg, j6_mul, j6_nr, fc6, v12_canon, v12_zero, v12_one, v12_add,
    v12_sub, v12_mul, v12_conj, v12_norm, j12_norm, v12_inv_rel, j12_mul, fc12};
use crate::laws6::{lemma_fc6_twice, lemma_j6_mul_cong, lemma_j6_lin_cong, lemma_v6_add_laws,
    lemma_j6_mul_comm, lemma_v6_mul_comm, lemma_j6_mul_assoc, lemma_j6_distrib, lemma_j6_nr_mul,
    lemma_j6_neg_mul, lemma_v6_mul_inverse, lemma_v6_ops_canon};

verus! {

pub proof fn lemma_fc12_twice(x: V12)
    ensures
        fc12(fc12(x)) == fc12(x),
{
    lemma_fc6_twice(x.c0);
    lemma_fc6_twice(x.c1);
}

/// Congruent arguments give congruent degree-12 products.
pub proof fn lemma_j12_mul_cong(a: V12, b: V12, a2: V12, b2: V12)
    requires
        fc12(a) == fc12(a2),
        fc12(b) == fc12(b2),
    ensures
        fc12(j12_mul(a, b)) == fc12(j12_mul(a2, b2)),
{
    lemma_j6_mul_cong(a.c0, b.c0, a2.c0, b2.c0);
    lemma_j6_mul_cong(a.c0, b.c1, a2.c0, b2.c1);
    lemma_j6_mul_cong(a.c1, b.c0, a2.c1, b2.c0);
    lemma_j6_mul_cong(a.c1, b.c1, a2.c1, b2.c1);
    lemma_j6_lin_cong(j6_mul(a.c1, b.c1), j6_mul(a.c1, b.c1), j6_mul(a2.c1, b2.c1), j6_mul(a2.c1, b2.c1));
    lemma_j6_lin_cong(
        j6_mul(a.c0, b.c0),
        j6_nr(j6_mul(a.c1, b.c1)),
        j6_mul(a2.c0, b2.c0),
        j6_nr(j6_mul(a2.c1, b2.c1)),
    );
    lemma_j6_lin_cong(
        j6_mul(a.c0, b.c1),
        j6_mul(a.c1, b.c0),
        j6_mul(a2.c0, b2.c1),
        j6_mul(a2.c1, b2.c0),
    );
}

/// Every coordinate a canonical degree-12 operation yields is canonical.
pub proof fn lemma_v12_ops_canon(x: V12, y: V12)
    ensures
        v12_canon(v12_add(x, y)),
        v12_canon(v12_sub(x, y)),
        v12_canon(v12_mul(x, y)),
        v12_canon(fc12(x)),
        v12_canon(x) ==> v12_canon(v12_conj(x)),
{
    broadcast use lemma_fc_range;

    lemma_v6_ops_canon(x.c0, y.c0);
    lemma_v6_ops_canon(x.c1, y.c1);
    if v12_canon(x) {
        lemma_v6_ops_canon(x.c1, x.c1);
    }
}

/// Addition at degree 12 is commutative and associative, with `zero` as the
/// neutral element on canonical inputs.
pub proof fn lemma_v12_add_laws(x: V12, y: V12, z: V12)
    ensures
        v12_add(x, y) == v12_add(y, x),
        v12_add(v12_add(x, y), z) == v12_add(x, v12_add(y, z)),
        v12_canon(x) ==> v12_add(x, v12_zero()) == x,
{
    lemma_v6_add_laws(x.c0, y.c0, z.c0);
    lemma_v6_add_laws(x.c1, y.c1, z.c1);
}

/// Multiplication at degree 12 is commutative, with `one` as the neutral
/// element on canonical inputs.
pub proof fn lemma_v12_mul_comm(x: V12, y: V12)
    ensures
        v12_mul(x, y) == v12_mul(y, x),
        v12_canon(x) ==> v12_mul(x, v12_one()) == x,
{
    lemma_j6_mul_comm(x.c0, y.c0);
    lemma_j6_mul_comm(x.c0, y.c1);
    lemma_j6_mul_comm(x.c1, y.c0);
    lemma_j6_mul_comm(x.c1, y.c1);
    if v12_canon(x) {
        lemma_v6_mul_comm(x.c0, v6_one());
        lemma_v6_mul_comm(x.c1, v6_one());
        // products with the zero half vanish
        lemma_mul_zero6(x.c0);
        lemma_mul_zero6(x.c1);
        lemma_fc_id(0);
        lemma_fc6_id_canon(x.c0);
        lemma_fc6_id_canon(x.c1);
    }
}

/// A canonical degree-6 value is unchanged by canonicalisation.
proof fn lemma_fc6_id_canon(x: V6)
    requires
        v6_canon(x),
    ensures
        fc6(x) == x,
{
    lemma_fc_id(x.c0.c0);
    lemma_fc_id(x.c0.c1);
    lemma_fc_id(x.c1.c0);
    lemma_fc_id(x.c1.c1);
    lemma_fc_id(x.c2.c0);
    lemma_fc_id(x.c2.c1);
}

/// Multiplying by the all-zero degree-6 element gives zero.
proof fn lemma_mul_zero6(x: V6)
    ensures
        j6_mul(x, v6_zero()) == v6_zero(),
        j6_mul(v6_zero(), x) == v6_zero(),
{
    vstd::arithmetic::mul::lemma_mul_basics(x.c0.c0);
    vstd::arithmetic::mul::lemma_mul_basics(x.c0.c1);
    vstd::arithmetic::mul::lemma_mul_basics(x.c1.c0);
    vstd::arithmetic::mul::lemma_mul_basics(x.c1.c1);
    vstd::arithmetic::mul::lemma_mul_basics(x.c2.c0);
    vstd::arithmetic::mul::lemma_mul_basics(x.c2.c1);
}

/// The unreduced degree-12 product is associative.
pub proof fn lemma_j12_mul_assoc(x: V12, y: V12, z: V12)
    ensures
        j12_mul(j12_mul(x, y), z) == j12_mul(x, j12_mul(y, z)),
{
    // left side: distribute the products of the first factor's halves
    lemma_j6_distrib(j6_mul(x.c0, y.c0), j6_nr(j6_mul(x.c1, y.c1)), z.c0);
    lemma_j6_distrib(j6_mul(x.c0, y.c0), j6_nr(j6_mul(x.c1, y.c1)), z.c1);
    lemma_j6_distrib(j6_mul(x.c0, y.c1), j6_mul(x.c1, y.c0), z.c0);
    lemma_j6_distrib(j6_mul(x.c0, y.c1), j6_mul(x.c1, y.c0), z.c1);
    lemma_j6_nr_mul(j6_mul(x.c1, y.c1), z.c0);
    lemma_j6_nr_mul(j6_mul(x.c1, y.c1), z.c1);
    // right side: distribute the products with the second factor's halves
    lemma_j6_distrib(j6_mul(y.c0, z.c0), j6_nr(j6_mul(y.c1, z.c1)), x.c0);
    lemma_j6_distrib(j6_mul(y.c0, z.c0), j6_nr(j6_mul(y.c1, z.c1)), x.c1);
    lemma_j6_distrib(j6_mul(y.c0, z.c1), j6_mul(y.c1, z.c0), x.c0);
    lemma_j6_distrib(j6_mul(y.c0, z.c1), j6_mul(y.c1, z.c0), x.c1);
    lemma_j6_nr_mul(x.c0, j6_mul(y.c1, z.c1));
    lemma_j6_nr_mul(x.c1, j6_mul(y.c1, z.c1));
    // reassociate the eight triple products
    lemma_j6_mul_assoc(x.c0, y.c0, z.c0);
    lemma_j6_mul_assoc(x.c0, y.c0, z.c1);
    lemma_j6_mul_assoc(x.c0, y.c1, z.c0);
    lemma_j6_mul_assoc(x.c0, y.c1, z.c1);
    lemma_j6_mul_assoc(x.c1, y.c0, z.c0);
    lemma_j6_mul_assoc(x.c1, y.c0, z.c1);
    lemma_j6_mul_assoc(x.c1, y.c1, z.c0);
    lemma_j6_mul_assoc(x.c1, y.c1, z.c1);
}

/// Multiplication at degree 12 is associative.
pub proof fn lemma_v12_mul_assoc(x: V12, y: V12, z: V12)
    ensures
        v12_mul(v12_mul(x, y), z) == v12_mul(x, v12_mul(y, z)),
{
    lemma_fc12_twice(j12_mul(x, y));
    lemma_fc12_twice(j12_mul(y, z));
    lemma_j12_mul_cong(fc12(j12_mul(x, y)), z, j12_mul(x, y), z);
    lemma_j12_mul_cong(x, fc12(j12_mul(y, z)), x, j12_mul(y, z));
    lemma_j12_mul_assoc(x, y, z);
}

/// The Karatsuba-free form of the degree-12 product written with the
/// canonical degree-6 operations: the bridge between what the
/// multiplication gadget computes and `v12_mul`.
pub proof fn lemma_v12_mul_expand(x: V12, y: V12)
    ensures
        v12_mul(x, y) == (V12 {
            c0: v6_add(v6_mul(x.c0, y.c0), v6_nr(v6_mul(x.c1, y.c1))),
            c1: v6_add(v6_mul(x.c0, y.c1), v6_mul(x.c1, y.c0)),
        }),
{
    lemma_fc6_twice(j6_mul(x.c1, y.c1));
    lemma_j6_lin_cong(
        fc6(j6_mul(x.c1, y.c1)),
        fc6(j6_mul(x.c1, y.c1)),
        j6_mul(x.c1, y.c1),
        j6_mul(x.c1, y.c1),
    );
    lemma_fc6_twice(j6_mul(x.c0, y.c0));
    lemma_fc6_twice(j6_nr(j6_mul(x.c1, y.c1)));
    lemma_j6_lin_cong(
        fc6(j6_mul(x.c0, y.c0)),
        fc6(j6_nr(j6_mul(x.c1, y.c1))),
        j6_mul(x.c0, y.c0),
        j6_nr(j6_mul(x.c1, y.c1)),
    );
    lemma_fc6_twice(j6_mul(x.c0, y.c1));
    lemma_fc6_twice(j6_mul(x.c1, y.c0));
    lemma_j6_lin_cong(
        fc6(j6_mul(x.c0, y.c1)),
        fc6(j6_mul(x.c1, y.c0)),
        j6_mul(x.c0, y.c1),
        j6_mul(x.c1, y.c0),
    );
}

/// The degree-6 norm written with the canonical degree-6 operations: the
/// bridge between what the norm gadget computes and `v12_norm`.
pub proof fn lemma_v12_norm_expand(x: V12)
    ensures
        v12_norm(x) == v6_sub(v6_mul(x.c0, x.c0), v6_nr(v6_mul(x.c1, x.c1))),
{
    lemma_fc6_twice(j6_mul(x.c1, x.c1));
    lemma_j6_lin_cong(
        fc6(j6_mul(x.c1, x.c1)),
        fc6(j6_mul(x.c1, x.c1)),
        j6_mul(x.c1, x.c1),
        j6_mul(x.c1, x.c1),
    );
    lemma_fc6_twice(j6_mul(x.c0, x.c0));
    lemma_fc6_twice(j6_nr(j6_mul(x.c1, x.c1)));
    lemma_j6_lin_cong(
        fc6(j6_mul(x.c0, x.c0)),
        fc6(j6_nr(j6_mul(x.c1, x.c1))),
        j6_mul(x.c0, x.c0),
        j6_nr(j6_mul(x.c1, x.c1)),
    );
}

/// The product of an element with its conjugate is its degree-6 norm,
/// lifted into the constant half.
pub proof fn lemma_j12_conj_norm(x: V12)
    ensures
        j12_mul(x, (V12 { c0: x.c0, c1: j6_neg(x.c1) })).c0 == j12_norm(x),
        j12_mul(x, (V12 { c0: x.c0, c1: j6_neg(x.c1) })).c1 == j6_add(
            j6_neg(j6_mul(x.c0, x.c1)),
            j6_mul(x.c1, x.c0),
        ),
        j6_add(j6_neg(j6_mul(x.c0, x.c1)), j6_mul(x.c1, x.c0)) == v6_zero(),
{
    lemma_j6_neg_mul(x.c0, x.c1);
    lemma_j6_neg_mul(x.c1, x.c1);
    lemma_j6_mul_comm(x.c1, x.c0);
}

/// Whatever witnesses the degree-12 inversion gadget supplies, the product
/// of an element with the gadget's result is `one`.
#[verifier::rlimit(60)]
pub proof fn lemma_v12_mul_inverse(x: V12, r: V12)
    requires
        v12_inv_rel(x, r),
    ensures
        v12_mul(x, r) == v12_one(),
{
    let d = choose|d: V6|
        #[trigger] v6_inv_rel(v12_norm(x), d) && r == V12 {
            c0: v6_mul(x.c0, d),
            c1: v6_mul(v6_neg(x.c1), d),
        };
    lemma_v6_mul_inverse(v12_norm(x), d);
    // the result halves are congruent to the unreduced scaled conjugate
    let u0 = j6_mul(x.c0, d);
    let u1 = j6_mul(j6_neg(x.c1), d);
    lemma_fc6_twice(j6_neg(x.c1));
    lemma_j6_mul_cong(fc6(j6_neg(x.c1)), d, j6_neg(x.c1), d);
    assert(r == V12 { c0: fc6(u0), c1: fc6(u1) });
    lemma_fc12_twice(V12 { c0: u0, c1: u1 });
    lemma_j12_mul_cong(x, r, x, V12 { c0: u0, c1: u1 });
    // pull the common factor d out of both halves
    lemma_j6_mul_assoc(x.c0, x.c0, d);
    lemma_j6_mul_assoc(x.c1, j6_neg(x.c1), d);
    lemma_j6_mul_assoc(x.c0, j6_neg(x.c1), d);
    lemma_j6_mul_assoc(x.c1, x.c0, d);
    lemma_j6_neg_mul(x.c1, x.c1);
    lemma_j6_neg_mul(x.c0, x.c1);
    lemma_j6_neg_mul(j6_mul(x.c1, x.c1), d);
    lemma_j6_neg_mul(j6_mul(x.c0, x.c1), d);
    lemma_j6_nr_mul(j6_mul(x.c1, x.c1), d);
    lemma_j6_mul_comm(x.c1, x.c0);
    // first half: (x0^2 - v x1^2) d == norm * d, which the witness makes one
    lemma_j6_distrib(j6_mul(x.c0, x.c0), j6_neg(j6_nr(j6_mul(x.c1, x.c1))), d);
    lemma_j6_neg_mul(j6_nr(j6_mul(x.c1, x.c1)), d);
    assert(j12_mul(x, (V12 { c0: u0, c1: u1 })).c0 == j6_mul(j12_norm(x), d));
    lemma_fc6_twice(j12_norm(x));
    lemma_j6_mul_cong(fc6(j12_norm(x)), d, j12_norm(x), d);
    assert(fc6(j6_mul(j12_norm(x), d)) == v6_mul(v12_norm(x), d));
    // second half: (-(x0 x1) + x1 x0) d == 0
    lemma_j6_distrib(j6_neg(j6_mul(x.c0, x.c1)), j6_mul(x.c1, x.c0), d);
    lemma_mul_zero6(d);
    lemma_fc_id(0);
    assert(v12_mul(x, r).c1 == v6_zero());
}

} // verus!
