//! Degree-12 tower-field gadgets.  An `Fp12` element is a pair of degree-6
//! elements `c0 + c1 * w` with `w^2 = v`.  Multiplication is Karatsuba over
//! the degree-6 halves; conjugation negates the `w` half, and inversion
//! scales the conjugate by the inverse of the degree-6 norm.
use vstd::prelude::*;
use crate::vals::{V6, V12, v6_v, v6_mul, v6_nr, v6_add, v6_neg, v6_inv_rel, v12_zero, v12_one,
    v12_add, v12_sub, v12_mul, v12_conj, v12_norm, v12_inv_rel};
use crate::laws6::{lemma_v6_karatsuba, lemma_v6_nr_is_mul_v, lemma_v6_sub_sub};
use crate::laws12::{lemma_v12_mul_expand, lemma_v12_norm_expand};
use crate::gf::invertible;
use crate::vals::{v2_norm, v6_denom};
use crate::circuit::{CircuitCtx, ctx_wf, sat, gadget_frame, inv_free, sat_extendable,
    lemma_sat_extends, lemma_extends_trans, lemma_extends_gate_back, lemma_inv_free_extendable,
    lemma_prefix_index, lemma_prefix_trans};
use crate::fp2::Fp2;
use crate::fp6::Fp6;

verus! {

/// A degree-12 tower element: two degree-6 elements.
#[derive(Clone, Copy, Debug)]
pub struct Fp12 {
    pub c0: Fp6,
    pub c1: Fp6,
}

impl Fp12 {
    pub open spec fn wf(self, c: CircuitCtx) -> bool {
        self.c0.wf(c) && self.c1.wf(c)
    }

    pub open spec fn vals(self, a: Seq<int>) -> V12 {
        V12 { c0: self.c0.vals(a), c1: self.c1.vals(a) }
    }

    pub fn new(c0: Fp6, c1: Fp6) -> (r: Fp12)
        ensures
            r == (Fp12 { c0, c1 }),
    {
        Fp12 { c0, c1 }
    }

    /// The additive identity.
    pub fn zero(builder: &mut CircuitCtx) -> (r: Fp12)
        requires
            ctx_wf(*old(builder)),
        ensures
            gadget_frame(*old(builder), *final(builder), 2),
            r.wf(*final(builder)),
            forall|a: Seq<int>| sat(*final(builder), a) ==> #[trigger] r.vals(a) == v12_zero(),

            inv_free(*old(builder), *final(builder)),
            sat_extendable(*old(builder), *final(builder)),
    {
        broadcast use lemma_sat_extends, lemma_extends_trans, lemma_extends_gate_back;

        let c0 = Fp6::zero(builder);
        let c1 = Fp6::zero(builder);
        proof {
            lemma_inv_free_extendable(*old(builder), *builder);
        }
        Fp12 { c0, c1 }
    }

    /// The multiplicative identity: constant one in the lowest coordinate,
    /// constant zero everywhere else.
    pub fn one(builder: &mut CircuitCtx) -> (r: Fp12)
        requires
            ctx_wf(*old(builder)),
        ensures
            gadget_frame(*old(builder), *final(builder), 2),
            r.wf(*final(builder)),
            forall|a: Seq<int>| sat(*final(builder), a) ==> #[trigger] r.vals(a) == v12_one(),

            inv_free(*old(builder), *final(builder)),
            sat_extendable(*old(builder), *final(builder)),
    {
        broadcast use lemma_sat_extends, lemma_extends_trans, lemma_extends_gate_back;

        let one = builder.constant(1);
        let zero = builder.constant(0);
        let zz = Fp2 { c0: zero, c1: zero };
        let c0 = Fp6 { c0: Fp2 { c0: one, c1: zero }, c1: zz, c2: zz };
        let c1 = Fp6 { c0: zz, c1: zz, c2: zz };
        proof {
            lemma_inv_free_extendable(*old(builder), *builder);
        }
        Fp12 { c0, c1 }
    }

    /// Pointwise field addition.
    pub fn add(builder: &mut CircuitCtx, a: &Fp12, b: &Fp12) -> (r: Fp12)
        requires
            ctx_wf(*old(builder)),
            a.wf(*old(builder)),
            b.wf(*old(builder)),
        ensures
            gadget_frame(*old(builder), *final(builder), 12),
            r.wf(*final(builder)),
            forall|asn: Seq<int>|
                sat(*final(builder), asn) ==> #[trigger] r.vals(asn) == v12_add(
                    a.vals(asn),
                    b.vals(asn),
                ),

            inv_free(*old(builder), *final(builder)),
            sat_extendable(*old(builder), *final(builder)),
    {
        broadcast use lemma_sat_extends, lemma_extends_trans, lemma_extends_gate_back;

        let c0 = Fp6::add(builder, &a.c0, &b.c0);
        let c1 = Fp6::add(builder, &a.c1, &b.c1);
        proof {
            lemma_inv_free_extendable(*old(builder), *builder);
        }
        Fp12 { c0, c1 }
    }

    /// Pointwise field subtraction.
    pub fn sub(builder: &mut CircuitCtx, a: &Fp12, b: &Fp12) -> (r: Fp12)
        requires
            ctx_wf(*old(builder)),
            a.wf(*old(builder)),
            b.wf(*old(builder)),
        ensures
            gadget_frame(*old(builder), *final(builder), 12),
            r.wf(*final(builder)),
            forall|asn: Seq<int>|
                sat(*final(builder), asn) ==> #[trigger] r.vals(asn) == v12_sub(
                    a.vals(asn),
                    b.vals(asn),
                ),

            inv_free(*old(builder), *final(builder)),
            sat_extendable(*old(builder), *final(builder)),
    {
        broadcast use lemma_sat_extends, lemma_extends_trans, lemma_extends_gate_back;

        let c0 = Fp6::sub(builder, &a.c0, &b.c0);
        let c1 = Fp6::sub(builder, &a.c1, &b.c1);
        proof {
            lemma_inv_free_extendable(*old(builder), *builder);
        }
        Fp12 { c0, c1 }
    }

    /// Karatsuba multiplication over the degree-6 halves, with one
    /// multiplication by the constant element `v` for the `w^2` wrap.
    #[verifier::rlimit(100)]
    pub fn mul(builder: &mut CircuitCtx, a: &Fp12, b: &Fp12) -> (r: Fp12)
        requires
            ctx_wf(*old(builder)),
            a.wf(*old(builder)),
            b.wf(*old(builder)),
        ensures
            gadget_frame(*old(builder), *final(builder), 352),
            r.wf(*final(builder)),
            forall|asn: Seq<int>|
                sat(*final(builder), asn) ==> #[trigger] r.vals(asn) == v12_mul(
                    a.vals(asn),
                    b.vals(asn),
                ),

            inv_free(*old(builder), *final(builder)),
            sat_extendable(*old(builder), *final(builder)),
    {
        broadcast use lemma_sat_extends, lemma_extends_trans, lemma_extends_gate_back;

        let a0b0 = Fp6::mul(builder, &a.c0, &b.c0);
        let a1b1 = Fp6::mul(builder, &a.c1, &b.c1);
        // the tower element v, as a constant
        let zero = builder.constant(0);
        let ghost snap_zero = *builder;
        let one = builder.constant(1);
        let ghost snap_one = *builder;
        let zz = Fp2 { c0: zero, c1: zero };
        let v = Fp6 { c0: zz, c1: Fp2 { c0: one, c1: zero }, c2: zz };
        let a1b1_v = Fp6::mul(builder, &a1b1, &v);
        let c0 = Fp6::add(builder, &a0b0, &a1b1_v);
        let a0_plus_a1 = Fp6::add(builder, &a.c0, &a.c1);
        let b0_plus_b1 = Fp6::add(builder, &b.c0, &b.c1);
        let mid = Fp6::mul(builder, &a0_plus_a1, &b0_plus_b1);
        let mid = Fp6::sub(builder, &mid, &a0b0);
        let mid = Fp6::sub(builder, &mid, &a1b1);
        let r = Fp12 { c0, c1: mid };
        proof {
            assert forall|asn: Seq<int>| sat(*builder, asn) implies #[trigger] r.vals(asn)
                == v12_mul(a.vals(asn), b.vals(asn)) by {
                let av = a.vals(asn);
                let bv = b.vals(asn);
                assert(v.vals(asn) == v6_v());
                lemma_v12_mul_expand(av, bv);
                lemma_v6_nr_is_mul_v(v6_mul(av.c1, bv.c1));
                lemma_v6_karatsuba(av.c0, av.c1, bv.c0, bv.c1);
            }
            lemma_inv_free_extendable(*old(builder), *builder);
        }
        r
    }

    /// Squaring, meeting the same contract as multiplication by itself.
    #[verifier::rlimit(100)]
    pub fn square(builder: &mut CircuitCtx, a: &Fp12) -> (r: Fp12)
        requires
            ctx_wf(*old(builder)),
            a.wf(*old(builder)),
        ensures
            gadget_frame(*old(builder), *final(builder), 271),
            r.wf(*final(builder)),
            forall|asn: Seq<int>|
                sat(*final(builder), asn) ==> #[trigger] r.vals(asn) == v12_mul(
                    a.vals(asn),
                    a.vals(asn),
                ),

            inv_free(*old(builder), *final(builder)),
            sat_extendable(*old(builder), *final(builder)),
    {
        broadcast use lemma_sat_extends, lemma_extends_trans, lemma_extends_gate_back;

        let a0_sq = Fp6::mul(builder, &a.c0, &a.c0);
        let a1_sq = Fp6::mul(builder, &a.c1, &a.c1);
        let a0_a1 = Fp6::add(builder, &a.c0, &a.c1);
        let a1_sq_xi = Fp6::mul_by_nonresidue(builder, &a1_sq);
        let c0 = Fp6::add(builder, &a0_sq, &a1_sq_xi);
        let a0_a1_sq = Fp6::mul(builder, &a0_a1, &a0_a1);
        let a0_sq_plus_a1_sq = Fp6::add(builder, &a0_sq, &a1_sq);
        let c1 = Fp6::sub(builder, &a0_a1_sq, &a0_sq_plus_a1_sq);
        let r = Fp12 { c0, c1 };
        proof {
            assert forall|asn: Seq<int>| sat(*builder, asn) implies #[trigger] r.vals(asn)
                == v12_mul(a.vals(asn), a.vals(asn)) by {
                let av = a.vals(asn);
                lemma_v12_mul_expand(av, av);
                lemma_v6_karatsuba(av.c0, av.c1, av.c0, av.c1);
                lemma_v6_sub_sub(
                    v6_mul(v6_add(av.c0, av.c1), v6_add(av.c0, av.c1)),
                    v6_mul(av.c0, av.c0),
                    v6_mul(av.c1, av.c1),
                );
            }
            lemma_inv_free_extendable(*old(builder), *builder);
        }
        r
    }

    /// Conjugation over the degree-6 subfield: negate the `w` half.
    pub fn conjugate(builder: &mut CircuitCtx, a: &Fp12) -> (r: Fp12)
        requires
            ctx_wf(*old(builder)),
            a.wf(*old(builder)),
        ensures
            gadget_frame(*old(builder), *final(builder), 6),
            r.wf(*final(builder)),
            forall|asn: Seq<int>|
                sat(*final(builder), asn) ==> #[trigger] r.vals(asn) == v12_conj(a.vals(asn)),

            inv_free(*old(builder), *final(builder)),
            sat_extendable(*old(builder), *final(builder)),
    {
        broadcast use lemma_sat_extends, lemma_extends_trans, lemma_extends_gate_back;

        let neg_c1 = Fp6::neg(builder, &a.c1);
        proof {
            lemma_inv_free_extendable(*old(builder), *builder);
        }
        Fp12 { c0: a.c0, c1: neg_c1 }
    }

    /// The degree-6 norm `a0^2 - v a1^2`.
    pub fn norm(builder: &mut CircuitCtx, a: &Fp12) -> (r: Fp6)
        requires
            ctx_wf(*old(builder)),
            a.wf(*old(builder)),
        ensures
            gadget_frame(*old(builder), *final(builder), 173),
            r.wf(*final(builder)),
            forall|asn: Seq<int>|
                sat(*final(builder), asn) ==> #[trigger] r.vals(asn) == v12_norm(a.vals(asn)),

            inv_free(*old(builder), *final(builder)),
            sat_extendable(*old(builder), *final(builder)),
    {
        broadcast use lemma_sat_extends, lemma_extends_trans, lemma_extends_gate_back;

        let a0_sq = Fp6::mul(builder, &a.c0, &a.c0);
        let a1_sq = Fp6::mul(builder, &a.c1, &a.c1);
        let xi_a1_sq = Fp6::mul_by_nonresidue(builder, &a1_sq);
        let r = Fp6::sub(builder, &a0_sq, &xi_a1_sq);
        proof {
            assert forall|asn: Seq<int>| sat(*builder, asn) implies #[trigger] r.vals(asn)
                == v12_norm(a.vals(asn)) by {
                lemma_v12_norm_expand(a.vals(asn));
            }
            lemma_inv_free_extendable(*old(builder), *builder);
        }
        r
    }

    /// Norm-based inversion: the conjugate scaled by the degree-6 inverse
    /// of the norm.
    pub fn inverse(builder: &mut CircuitCtx, a: &Fp12) -> (r: Fp12)
        requires
            ctx_wf(*old(builder)),
            a.wf(*old(builder)),
        ensures
            gadget_frame(*old(builder), *final(builder), 449),
            r.wf(*final(builder)),
            forall|asn: Seq<int>|
                sat(*final(builder), asn) ==> v12_inv_rel(a.vals(asn), #[trigger] r.vals(asn)),
            forall|asn0: Seq<int>|
                #[trigger] sat(*old(builder), asn0) && asn0.len() == old(builder).gates@.len()
                    && invertible(v2_norm(v6_denom(v12_norm(a.vals(asn0))))) ==> exists|asn: Seq<int>|
                    #[trigger] sat(*final(builder), asn) && asn.len()
                        == final(builder).gates@.len() && asn0.is_prefix_of(asn),
    {
        broadcast use lemma_extends_gate_back, lemma_sat_extends, lemma_extends_trans;

        let norm = Self::norm(builder, a);
        let ghost s1 = *builder;
        let norm_inv = Fp6::inverse(builder, &norm);
        let ghost s2 = *builder;
        let conj = Self::conjugate(builder, a);
        let ghost s3 = *builder;
        let c0 = Fp6::mul(builder, &conj.c0, &norm_inv);
        let ghost s4 = *builder;
        let c1 = Fp6::mul(builder, &conj.c1, &norm_inv);
        let r = Fp12 { c0, c1 };
        proof {
            lemma_extends_trans(s3, s4, *builder);
            lemma_extends_trans(s2, s3, *builder);
            lemma_extends_trans(s1, s2, *builder);
            lemma_extends_trans(*old(builder), s1, *builder);
            lemma_inv_free_extendable(*old(builder), s1);
            lemma_inv_free_extendable(s2, *builder);
            assert forall|asn0: Seq<int>|
                #[trigger] sat(*old(builder), asn0) && asn0.len() == old(builder).gates@.len()
                    && invertible(v2_norm(v6_denom(v12_norm(a.vals(asn0))))) implies exists|asn: Seq<int>|
                #[trigger] sat(*builder, asn) && asn.len() == builder.gates@.len()
                    && asn0.is_prefix_of(asn) by {
                // fill the norm chain forward
                let asn1 = choose|asn1: Seq<int>|
                    #[trigger] sat(s1, asn1) && asn1.len() == s1.gates@.len() && asn0.is_prefix_of(
                        asn1,
                    );
                lemma_prefix_index(asn0, asn1, a.c0.c0.c0 as int);
                lemma_prefix_index(asn0, asn1, a.c0.c0.c1 as int);
                lemma_prefix_index(asn0, asn1, a.c0.c1.c0 as int);
                lemma_prefix_index(asn0, asn1, a.c0.c1.c1 as int);
                lemma_prefix_index(asn0, asn1, a.c0.c2.c0 as int);
                lemma_prefix_index(asn0, asn1, a.c0.c2.c1 as int);
                lemma_prefix_index(asn0, asn1, a.c1.c0.c0 as int);
                lemma_prefix_index(asn0, asn1, a.c1.c0.c1 as int);
                lemma_prefix_index(asn0, asn1, a.c1.c1.c0 as int);
                lemma_prefix_index(asn0, asn1, a.c1.c1.c1 as int);
                lemma_prefix_index(asn0, asn1, a.c1.c2.c0 as int);
                lemma_prefix_index(asn0, asn1, a.c1.c2.c1 as int);
                assert(a.vals(asn1) == a.vals(asn0));
                // the norm wires carry the degree-6 norm of the input
                assert(norm.vals(asn1) == v12_norm(a.vals(asn1)));
                // an invertible norm keeps the degree-6 inversion satisfiable
                let asn2 = choose|asn2: Seq<int>|
                    #[trigger] sat(s2, asn2) && asn2.len() == s2.gates@.len() && asn1.is_prefix_of(
                        asn2,
                    );
                // fill the scaled conjugate forward
                let asn3 = choose|asn3: Seq<int>|
                    #[trigger] sat(*builder, asn3) && asn3.len() == builder.gates@.len()
                        && asn2.is_prefix_of(asn3);
                lemma_prefix_trans(asn0, asn1, asn2);
                lemma_prefix_trans(asn0, asn2, asn3);
                assert(sat(*builder, asn3) && asn3.len() == builder.gates@.len()
                    && asn0.is_prefix_of(asn3));
            }
            assert forall|asn: Seq<int>| sat(*builder, asn) implies v12_inv_rel(
                a.vals(asn),
                #[trigger] r.vals(asn),
            ) by {
                let av = a.vals(asn);
                let d = norm_inv.vals(asn);
                lemma_sat_extends(s1, *builder, asn);
                lemma_sat_extends(s2, *builder, asn);
                lemma_sat_extends(s3, *builder, asn);
                lemma_sat_extends(s4, *builder, asn);
                assert(norm.vals(asn) == v12_norm(av));
                assert(v6_inv_rel(norm.vals(asn), d));
                assert(v6_inv_rel(v12_norm(av), d));
                assert(conj.vals(asn) == v12_conj(av));
                assert(r.vals(asn) == V12 {
                    c0: v6_mul(av.c0, d),
                    c1: v6_mul(v6_neg(av.c1), d),
                });
            }
        }
        r
    }
}

} // verus!
