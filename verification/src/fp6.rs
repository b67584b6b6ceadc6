//! Degree-6 tower-field gadgets.  An `Fp6` element is a triple of degree-2
//! elements `c0 + c1 * v + c2 * v^2` with `v^3 = xi`.  Multiplication uses
//! the Karatsuba recombination; its contract states the schoolbook product.
use vstd::prelude::*;
use crate::vals::{V2, V6, v2_mul, v2_nr, v2_add, v2_sub, v2_norm, v2_inv_rel, j2_mul, j2_nr, j2_sub, j2_add,
    fc2, v6_zero, v6_add, v6_sub, v6_neg, v6_mul, v6_nr, v6_t0, v6_t1, v6_t2, v6_denom, v6_inv_rel,
    j6_t0, j6_t1, j6_t2, j6_denom};
use crate::laws2::{lemma_v2_karatsuba, lemma_v2_add_laws, lemma_fc2_id, lemma_fc2_twice,
    lemma_j2_sub_cong, lemma_j2_add_cong, lemma_j2_mul_cong, lemma_j2_nr_cong};
use crate::laws6::lemma_v6_mul_expand;
use crate::gf::invertible;
use crate::circuit::{CircuitCtx, ctx_wf, sat, extends, gadget_frame, inv_free, sat_extendable,
    lemma_sat_extends, lemma_extends_trans, lemma_extends_gate_back, lemma_sat_values_in_field,
    lemma_inv_free_extendable, lemma_prefix_index, lemma_prefix_trans};
use crate::fp2::Fp2;

verus! {

/// A degree-6 tower element: three degree-2 elements.
#[derive(Clone, Copy, Debug)]
pub struct Fp6 {
    pub c0: Fp2,
    pub c1: Fp2,
    pub c2: Fp2,
}

impl Fp6 {
    pub open spec fn wf(self, c: CircuitCtx) -> bool {
        self.c0.wf(c) && self.c1.wf(c) && self.c2.wf(c)
    }

    pub open spec fn vals(self, a: Seq<int>) -> V6 {
        V6 { c0: self.c0.vals(a), c1: self.c1.vals(a), c2: self.c2.vals(a) }
    }

    pub fn new(c0: Fp2, c1: Fp2, c2: Fp2) -> (r: Fp6)
        ensures
            r == (Fp6 { c0, c1, c2 }),
    {
        Fp6 { c0, c1, c2 }
    }

    /// The additive identity: one zero constant shared by all coordinates.
    pub fn zero(builder: &mut CircuitCtx) -> (r: Fp6)
        requires
            ctx_wf(*old(builder)),
        ensures
            gadget_frame(*old(builder), *final(builder), 1),
            r.wf(*final(builder)),
            forall|a: Seq<int>| sat(*final(builder), a) ==> #[trigger] r.vals(a) == v6_zero(),
            inv_free(*old(builder), *final(builder)),
            sat_extendable(*old(builder), *final(builder)),
    {
        let z = builder.constant(0);
        let zz = Fp2 { c0: z, c1: z };
        proof {
            lemma_inv_free_extendable(*old(builder), *builder);
        }
        Fp6 { c0: zz, c1: zz, c2: zz }
    }

    /// Pointwise field addition.
    pub fn add(builder: &mut CircuitCtx, a: &Fp6, b: &Fp6) -> (r: Fp6)
        requires
            ctx_wf(*old(builder)),
            a.wf(*old(builder)),
            b.wf(*old(builder)),
        ensures
            gadget_frame(*old(builder), *final(builder), 6),
            r.wf(*final(builder)),
            forall|asn: Seq<int>|
                sat(*final(builder), asn) ==> #[trigger] r.vals(asn) == v6_add(
                    a.vals(asn),
                    b.vals(asn),
                ),
            inv_free(*old(builder), *final(builder)),
            sat_extendable(*old(builder), *final(builder)),
    {
        broadcast use lemma_sat_extends, lemma_extends_trans, lemma_extends_gate_back;

        let c0 = Fp2::add(builder, &a.c0, &b.c0);
        let c1 = Fp2::add(builder, &a.c1, &b.c1);
        let c2 = Fp2::add(builder, &a.c2, &b.c2);
        proof {
            lemma_inv_free_extendable(*old(builder), *builder);
        }
        Fp6 { c0, c1, c2 }
    }

    /// Pointwise field subtraction.
    pub fn sub(builder: &mut CircuitCtx, a: &Fp6, b: &Fp6) -> (r: Fp6)
        requires
            ctx_wf(*old(builder)),
            a.wf(*old(builder)),
            b.wf(*old(builder)),
        ensures
            gadget_frame(*old(builder), *final(builder), 6),
            r.wf(*final(builder)),
            forall|asn: Seq<int>|
                sat(*final(builder), asn) ==> #[trigger] r.vals(asn) == v6_sub(
                    a.vals(asn),
                    b.vals(asn),
                ),
            inv_free(*old(builder), *final(builder)),
            sat_extendable(*old(builder), *final(builder)),
    {
        broadcast use lemma_sat_extends, lemma_extends_trans, lemma_extends_gate_back;

        let c0 = Fp2::sub(builder, &a.c0, &b.c0);
        let c1 = Fp2::sub(builder, &a.c1, &b.c1);
        let c2 = Fp2::sub(builder, &a.c2, &b.c2);
        proof {
            lemma_inv_free_extendable(*old(builder), *builder);
        }
        Fp6 { c0, c1, c2 }
    }

    /// Pointwise field negation.
    pub fn neg(builder: &mut CircuitCtx, a: &Fp6) -> (r: Fp6)
        requires
            ctx_wf(*old(builder)),
            a.wf(*old(builder)),
        ensures
            gadget_frame(*old(builder), *final(builder), 6),
            r.wf(*final(builder)),
            forall|asn: Seq<int>|
                sat(*final(builder), asn) ==> #[trigger] r.vals(asn) == v6_neg(a.vals(asn)),
            inv_free(*old(builder), *final(builder)),
            sat_extendable(*old(builder), *final(builder)),
    {
        broadcast use lemma_sat_extends, lemma_extends_trans, lemma_extends_gate_back;

        let c0 = Fp2::neg(builder, &a.c0);
        let c1 = Fp2::neg(builder, &a.c1);
        let c2 = Fp2::neg(builder, &a.c2);
        proof {
            lemma_inv_free_extendable(*old(builder), *builder);
        }
        Fp6 { c0, c1, c2 }
    }

    #[verifier::rlimit(100)]
    /// Karatsuba-style multiplication: three coordinate products, three
    /// recombinations, and `xi` on the wrap-around terms.  The contract is
    /// the schoolbook product.
    pub fn mul(builder: &mut CircuitCtx, a: &Fp6, b: &Fp6) -> (r: Fp6)
        requires
            ctx_wf(*old(builder)),
            a.wf(*old(builder)),
            b.wf(*old(builder)),
        ensures
            gadget_frame(*old(builder), *final(builder), 80),
            r.wf(*final(builder)),
            forall|asn: Seq<int>|
                sat(*final(builder), asn) ==> #[trigger] r.vals(asn) == v6_mul(
                    a.vals(asn),
                    b.vals(asn),
                ),
            inv_free(*old(builder), *final(builder)),
            sat_extendable(*old(builder), *final(builder)),
    {
        broadcast use lemma_sat_extends, lemma_extends_trans, lemma_extends_gate_back;

        let a0b0 = Fp2::mul(builder, &a.c0, &b.c0);
        let a1b1 = Fp2::mul(builder, &a.c1, &b.c1);
        let a2b2 = Fp2::mul(builder, &a.c2, &b.c2);

        let t0 = Fp2::add(builder, &a.c1, &a.c2);
        let t1 = Fp2::add(builder, &b.c1, &b.c2);
        let t2 = Fp2::mul(builder, &t0, &t1);
        let t2 = Fp2::sub(builder, &t2, &a1b1);
        let t2 = Fp2::sub(builder, &t2, &a2b2);
        let t2_xi = Fp2::mul_by_nonresidue(builder, &t2);
        let c0 = Fp2::add(builder, &a0b0, &t2_xi);

        let t3 = Fp2::add(builder, &a.c0, &a.c1);
        let t4 = Fp2::add(builder, &b.c0, &b.c1);
        let t5 = Fp2::mul(builder, &t3, &t4);
        let t5 = Fp2::sub(builder, &t5, &a0b0);
        let t5 = Fp2::sub(builder, &t5, &a1b1);
        let a2b2_xi = Fp2::mul_by_nonresidue(builder, &a2b2);
        let c1 = Fp2::add(builder, &t5, &a2b2_xi);

        let t6 = Fp2::add(builder, &a.c0, &a.c2);
        let t7 = Fp2::add(builder, &b.c0, &b.c2);
        let t8 = Fp2::mul(builder, &t6, &t7);
        let t8 = Fp2::sub(builder, &t8, &a0b0);
        let t8 = Fp2::sub(builder, &t8, &a2b2);
        let c2 = Fp2::add(builder, &t8, &a1b1);

        let r = Fp6 { c0, c1, c2 };
        proof {
            assert forall|asn: Seq<int>| sat(*builder, asn) implies #[trigger] r.vals(asn)
                == v6_mul(a.vals(asn), b.vals(asn)) by {
                let av = a.vals(asn);
                let bv = b.vals(asn);
                lemma_v6_mul_expand(av, bv);
                lemma_v2_karatsuba(av.c1, av.c2, bv.c1, bv.c2);
                lemma_v2_karatsuba(av.c0, av.c1, bv.c0, bv.c1);
                lemma_v2_karatsuba(av.c0, av.c2, bv.c0, bv.c2);
                // reorder the last coordinate's sum
                lemma_add_reorder(v2_mul(av.c0, bv.c2), v2_mul(av.c2, bv.c0), v2_mul(av.c1, bv.c1));
            }
            lemma_inv_free_extendable(*old(builder), *builder);
        }
        r
    }

    /// Multiplication by `v`: the top coordinate wraps through `xi`, the
    /// others shift up.
    pub fn mul_by_nonresidue(builder: &mut CircuitCtx, a: &Fp6) -> (r: Fp6)
        requires
            ctx_wf(*old(builder)),
            a.wf(*old(builder)),
        ensures
            gadget_frame(*old(builder), *final(builder), 7),
            r.wf(*final(builder)),
            forall|asn: Seq<int>|
                sat(*final(builder), asn) ==> #[trigger] r.vals(asn) == v6_nr(a.vals(asn)),
            inv_free(*old(builder), *final(builder)),
            sat_extendable(*old(builder), *final(builder)),
    {
        let c0 = Fp2::mul_by_nonresidue(builder, &a.c2);
        let r = Fp6 { c0, c1: a.c0, c2: a.c1 };
        proof {
            assert forall|asn: Seq<int>| sat(*builder, asn) implies #[trigger] r.vals(asn)
                == v6_nr(a.vals(asn)) by {
                lemma_sat_values_in_field(*builder, asn);
                lemma_fc2_id(a.c0.vals(asn));
                lemma_fc2_id(a.c1.vals(asn));
            }
            lemma_inv_free_extendable(*old(builder), *builder);
        }
        r
    }

    /// Norm-based inversion: the adjugate coordinates scaled by the
    /// degree-2 inverse of the denominator.
    #[verifier::rlimit(100)]
    pub fn inverse(builder: &mut CircuitCtx, a: &Fp6) -> (r: Fp6)
        requires
            ctx_wf(*old(builder)),
            a.wf(*old(builder)),
        ensures
            gadget_frame(*old(builder), *final(builder), 110),
            r.wf(*final(builder)),
            forall|asn: Seq<int>|
                sat(*final(builder), asn) ==> v6_inv_rel(a.vals(asn), #[trigger] r.vals(asn)),
            forall|asn0: Seq<int>|
                #[trigger] sat(*old(builder), asn0) && asn0.len() == old(builder).gates@.len()
                    && invertible(v2_norm(v6_denom(a.vals(asn0)))) ==> exists|asn: Seq<int>|
                    #[trigger] sat(*final(builder), asn) && asn.len()
                        == final(builder).gates@.len() && asn0.is_prefix_of(asn),
    {
        broadcast use lemma_sat_extends, lemma_extends_trans, lemma_extends_gate_back;

        // t0 = c0^2 - xi (c1 c2)
        let c0_sq = Fp2::square(builder, &a.c0);
        let c1c2 = Fp2::mul(builder, &a.c1, &a.c2);
        let xi_c1c2 = Fp2::mul_by_nonresidue(builder, &c1c2);
        let t0 = Fp2::sub(builder, &c0_sq, &xi_c1c2);
        // t1 = xi c2^2 - c0 c1
        let c2_sq = Fp2::square(builder, &a.c2);
        let xi_c2sq = Fp2::mul_by_nonresidue(builder, &c2_sq);
        let c0c1 = Fp2::mul(builder, &a.c0, &a.c1);
        let t1 = Fp2::sub(builder, &xi_c2sq, &c0c1);
        // t2 = c1^2 - c0 c2
        let c1_sq = Fp2::square(builder, &a.c1);
        let c0c2 = Fp2::mul(builder, &a.c0, &a.c2);
        let t2 = Fp2::sub(builder, &c1_sq, &c0c2);
        // denom = c0 t0 + xi (c2 t1 + c1 t2)
        let c0t0 = Fp2::mul(builder, &a.c0, &t0);
        let c2t1 = Fp2::mul(builder, &a.c2, &t1);
        let c1t2 = Fp2::mul(builder, &a.c1, &t2);
        let sum = Fp2::add(builder, &c2t1, &c1t2);
        let xi_sum = Fp2::mul_by_nonresidue(builder, &sum);
        let denom = Fp2::add(builder, &c0t0, &xi_sum);
        let ghost s_pre = *builder;
        let denom_inv = Fp2::inverse(builder, &denom);
        let ghost s_post = *builder;
        // scale the adjugate
        let c0_res = Fp2::mul(builder, &t0, &denom_inv);
        let c1_res = Fp2::mul(builder, &t1, &denom_inv);
        let c2_res = Fp2::mul(builder, &t2, &denom_inv);
        let r = Fp6 { c0: c0_res, c1: c1_res, c2: c2_res };
        proof {
            lemma_inv_free_extendable(*old(builder), s_pre);
            lemma_inv_free_extendable(s_post, *builder);
            assert forall|asn0: Seq<int>|
                #[trigger] sat(*old(builder), asn0) && asn0.len() == old(builder).gates@.len()
                    && invertible(v2_norm(v6_denom(a.vals(asn0)))) implies exists|asn: Seq<int>|
                #[trigger] sat(*builder, asn) && asn.len() == builder.gates@.len()
                    && asn0.is_prefix_of(asn) by {
                // fill the adjugate and denominator chain forward
                let asn1 = choose|asn1: Seq<int>|
                    #[trigger] sat(s_pre, asn1) && asn1.len() == s_pre.gates@.len()
                        && asn0.is_prefix_of(asn1);
                lemma_prefix_index(asn0, asn1, a.c0.c0 as int);
                lemma_prefix_index(asn0, asn1, a.c0.c1 as int);
                lemma_prefix_index(asn0, asn1, a.c1.c0 as int);
                lemma_prefix_index(asn0, asn1, a.c1.c1 as int);
                lemma_prefix_index(asn0, asn1, a.c2.c0 as int);
                lemma_prefix_index(asn0, asn1, a.c2.c1 as int);
                let av = a.vals(asn1);
                assert(av == a.vals(asn0));
                // the denominator wires carry the degree-2 denominator value
                lemma_computed_adjugate(av);
                assert(t0.vals(asn1) == v6_t0(av));
                assert(t1.vals(asn1) == v6_t1(av));
                assert(t2.vals(asn1) == v6_t2(av));
                assert(denom.vals(asn1) == v6_denom(av));
                // an invertible denominator keeps the inversion satisfiable
                let asn2 = choose|asn2: Seq<int>|
                    #[trigger] sat(s_post, asn2) && asn2.len() == s_post.gates@.len()
                        && asn1.is_prefix_of(asn2);
                // fill the scaled adjugate forward
                let asn3 = choose|asn3: Seq<int>|
                    #[trigger] sat(*builder, asn3) && asn3.len() == builder.gates@.len()
                        && asn2.is_prefix_of(asn3);
                lemma_prefix_trans(asn0, asn1, asn2);
                lemma_prefix_trans(asn0, asn2, asn3);
                assert(sat(*builder, asn3) && asn3.len() == builder.gates@.len()
                    && asn0.is_prefix_of(asn3));
            }
            assert forall|asn: Seq<int>| sat(*builder, asn) implies v6_inv_rel(
                a.vals(asn),
                #[trigger] r.vals(asn),
            ) by {
                let av = a.vals(asn);
                let d = denom_inv.vals(asn);
                lemma_computed_adjugate(av);
                assert(t0.vals(asn) == v6_t0(av));
                assert(t1.vals(asn) == v6_t1(av));
                assert(t2.vals(asn) == v6_t2(av));
                assert(denom.vals(asn) == v6_denom(av));
                assert(v2_inv_rel(v6_denom(av), d));
                assert(r.vals(asn) == V6 {
                    c0: v2_mul(v6_t0(av), d),
                    c1: v2_mul(v6_t1(av), d),
                    c2: v2_mul(v6_t2(av), d),
                });
            }
        }
        r
    }
}

/// `(x + z) + y == (x + y) + z` for canonical sums.
proof fn lemma_add_reorder(x: V2, z: V2, y: V2)
    ensures
        v2_add(v2_add(x, z), y) == v2_add(v2_add(x, y), z),
{
    lemma_v2_add_laws(x, z, y);
    lemma_v2_add_laws(x, y, z);
    lemma_v2_add_laws(z, y, x);
    lemma_v2_add_laws(y, z, x);
}

/// The coordinate chain the inversion gadget computes agrees with the
/// canonical adjugate and denominator.
proof fn lemma_computed_adjugate(av: V6)
    ensures
        v2_sub(
            v2_mul(av.c0, av.c0),
            v2_nr(v2_mul(av.c1, av.c2)),
        ) == v6_t0(av),
        v2_sub(
            v2_nr(v2_mul(av.c2, av.c2)),
            v2_mul(av.c0, av.c1),
        ) == v6_t1(av),
        v2_sub(
            v2_mul(av.c1, av.c1),
            v2_mul(av.c0, av.c2),
        ) == v6_t2(av),
        v2_add(
            v2_mul(av.c0, v6_t0(av)),
            v2_nr(v2_add(v2_mul(av.c2, v6_t1(av)), v2_mul(av.c1, v6_t2(av)))),
        ) == v6_denom(av),
{
    // the three adjugate coordinates
    lemma_fc2_twice(j2_mul(av.c1, av.c2));
    lemma_j2_nr_cong(fc2(j2_mul(av.c1, av.c2)), j2_mul(av.c1, av.c2));
    lemma_fc2_twice(j2_nr(j2_mul(av.c1, av.c2)));
    lemma_j2_sub_cong(
        fc2(j2_mul(av.c0, av.c0)),
        fc2(j2_nr(j2_mul(av.c1, av.c2))),
        j2_mul(av.c0, av.c0),
        j2_nr(j2_mul(av.c1, av.c2)),
    );
    lemma_fc2_twice(j2_mul(av.c0, av.c0));
    lemma_fc2_twice(j2_mul(av.c2, av.c2));
    lemma_j2_nr_cong(fc2(j2_mul(av.c2, av.c2)), j2_mul(av.c2, av.c2));
    lemma_fc2_twice(j2_nr(j2_mul(av.c2, av.c2)));
    lemma_fc2_twice(j2_mul(av.c0, av.c1));
    lemma_j2_sub_cong(
        fc2(j2_nr(j2_mul(av.c2, av.c2))),
        fc2(j2_mul(av.c0, av.c1)),
        j2_nr(j2_mul(av.c2, av.c2)),
        j2_mul(av.c0, av.c1),
    );
    lemma_fc2_twice(j2_mul(av.c1, av.c1));
    lemma_fc2_twice(j2_mul(av.c0, av.c2));
    lemma_j2_sub_cong(
        fc2(j2_mul(av.c1, av.c1)),
        fc2(j2_mul(av.c0, av.c2)),
        j2_mul(av.c1, av.c1),
        j2_mul(av.c0, av.c2),
    );
    // the denominator: replace each canonical factor by its unreduced form
    lemma_fc2_twice(j6_t0(av));
    lemma_fc2_twice(j6_t1(av));
    lemma_fc2_twice(j6_t2(av));
    lemma_j2_mul_cong(av.c0, fc2(j6_t0(av)), av.c0, j6_t0(av));
    lemma_j2_mul_cong(av.c2, fc2(j6_t1(av)), av.c2, j6_t1(av));
    lemma_j2_mul_cong(av.c1, fc2(j6_t2(av)), av.c1, j6_t2(av));
    lemma_fc2_twice(j2_mul(av.c2, j6_t1(av)));
    lemma_fc2_twice(j2_mul(av.c1, j6_t2(av)));
    lemma_j2_add_cong(
        fc2(j2_mul(av.c2, j6_t1(av))),
        fc2(j2_mul(av.c1, j6_t2(av))),
        j2_mul(av.c2, j6_t1(av)),
        j2_mul(av.c1, j6_t2(av)),
    );
    lemma_fc2_twice(j2_add(j2_mul(av.c2, j6_t1(av)), j2_mul(av.c1, j6_t2(av))));
    lemma_j2_nr_cong(
        fc2(j2_add(j2_mul(av.c2, j6_t1(av)), j2_mul(av.c1, j6_t2(av)))),
        j2_add(j2_mul(av.c2, j6_t1(av)), j2_mul(av.c1, j6_t2(av))),
    );
    lemma_fc2_twice(j2_mul(av.c0, j6_t0(av)));
    lemma_fc2_twice(j2_nr(j2_add(j2_mul(av.c2, j6_t1(av)), j2_mul(av.c1, j6_t2(av)))));
    lemma_j2_add_cong(
        fc2(j2_mul(av.c0, j6_t0(av))),
        fc2(j2_nr(j2_add(j2_mul(av.c2, j6_t1(av)), j2_mul(av.c1, j6_t2(av))))),
        j2_mul(av.c0, j6_t0(av)),
        j2_nr(j2_add(j2_mul(av.c2, j6_t1(av)), j2_mul(av.c1, j6_t2(av)))),
    );
}

} // verus!
