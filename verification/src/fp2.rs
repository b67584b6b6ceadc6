//! Degree-2 tower-field gadgets.  An `Fp2` element is a pair of wires
//! `c0 + c1 * u` with `u^2 = -1`; every operation appends fresh gates and
//! returns a fresh element, and its contract gives the values of the result
//! wires, under every satisfying assignment, as the corresponding `vals`
//! operation on the input values.
use vstd::prelude::*;
use crate::gf::{fmul, in_field, lemma_fc_add, lemma_fc_sub};
use crate::vals::{V2, v2_zero, v2_xi, v2_add, v2_sub, v2_neg, v2_mul, v2_scale, v2_nr, v2_norm,
    v2_inv_rel};
use crate::laws2::lemma_v2_nr_is_mul_xi;
use crate::gf::invertible;
use crate::circuit::{CircuitCtx, Gate, ctx_wf, sat, extends, gadget_frame, inv_free,
    sat_extendable, lemma_sat_extends, lemma_extends_trans, lemma_extends_gate,
    lemma_inv_free_extendable, lemma_prefix_index, lemma_prefix_trans};

verus! {

/// A degree-2 tower element: two wires of the circuit context.
#[derive(Clone, Copy, Debug)]
pub struct Fp2 {
    pub c0: usize,
    pub c1: usize,
}

impl Fp2 {
    /// Both wires are defined in the context.
    pub open spec fn wf(self, c: CircuitCtx) -> bool {
        self.c0 < c.gates@.len() && self.c1 < c.gates@.len()
    }

    /// The value of this element under an assignment.
    pub open spec fn vals(self, a: Seq<int>) -> V2 {
        V2 { c0: a[self.c0 as int], c1: a[self.c1 as int] }
    }

    pub fn new(c0: usize, c1: usize) -> (r: Fp2)
        ensures
            r == (Fp2 { c0, c1 }),
    {
        Fp2 { c0, c1 }
    }

    /// The additive identity, both coordinates a zero constant.
    pub fn zero(builder: &mut CircuitCtx) -> (r: Fp2)
        requires
            ctx_wf(*old(builder)),
        ensures
            gadget_frame(*old(builder), *final(builder), 1),
            r.wf(*final(builder)),
            forall|a: Seq<int>| sat(*final(builder), a) ==> #[trigger] r.vals(a) == v2_zero(),
            inv_free(*old(builder), *final(builder)),
            sat_extendable(*old(builder), *final(builder)),
    {
        let z = builder.constant(0);
        proof {
            lemma_inv_free_extendable(*old(builder), *builder);
        }
        Fp2 { c0: z, c1: z }
    }

    /// Pointwise field addition.
    pub fn add(builder: &mut CircuitCtx, a: &Fp2, b: &Fp2) -> (r: Fp2)
        requires
            ctx_wf(*old(builder)),
            a.wf(*old(builder)),
            b.wf(*old(builder)),
        ensures
            gadget_frame(*old(builder), *final(builder), 2),
            r.wf(*final(builder)),
            forall|asn: Seq<int>|
                sat(*final(builder), asn) ==> #[trigger] r.vals(asn) == v2_add(
                    a.vals(asn),
                    b.vals(asn),
                ),
            inv_free(*old(builder), *final(builder)),
            sat_extendable(*old(builder), *final(builder)),
    {
        let c0 = builder.add(a.c0, b.c0);
        let c1 = builder.add(a.c1, b.c1);
        proof {
            lemma_inv_free_extendable(*old(builder), *builder);
        }
        Fp2 { c0, c1 }
    }

    /// Pointwise field subtraction.
    pub fn sub(builder: &mut CircuitCtx, a: &Fp2, b: &Fp2) -> (r: Fp2)
        requires
            ctx_wf(*old(builder)),
            a.wf(*old(builder)),
            b.wf(*old(builder)),
        ensures
            gadget_frame(*old(builder), *final(builder), 2),
            r.wf(*final(builder)),
            forall|asn: Seq<int>|
                sat(*final(builder), asn) ==> #[trigger] r.vals(asn) == v2_sub(
                    a.vals(asn),
                    b.vals(asn),
                ),
            inv_free(*old(builder), *final(builder)),
            sat_extendable(*old(builder), *final(builder)),
    {
        let c0 = builder.sub(a.c0, b.c0);
        let c1 = builder.sub(a.c1, b.c1);
        proof {
            lemma_inv_free_extendable(*old(builder), *builder);
        }
        Fp2 { c0, c1 }
    }

    /// Pointwise field negation.
    pub fn neg(builder: &mut CircuitCtx, a: &Fp2) -> (r: Fp2)
        requires
            ctx_wf(*old(builder)),
            a.wf(*old(builder)),
        ensures
            gadget_frame(*old(builder), *final(builder), 2),
            r.wf(*final(builder)),
            forall|asn: Seq<int>|
                sat(*final(builder), asn) ==> #[trigger] r.vals(asn) == v2_neg(a.vals(asn)),
            inv_free(*old(builder), *final(builder)),
            sat_extendable(*old(builder), *final(builder)),
    {
        let c0 = builder.neg(a.c0);
        let c1 = builder.neg(a.c1);
        proof {
            lemma_inv_free_extendable(*old(builder), *builder);
        }
        Fp2 { c0, c1 }
    }

    /// `(a + b u)(c + d u) = (ac - bd) + (ad + bc) u`.
    pub fn mul(builder: &mut CircuitCtx, a: &Fp2, b: &Fp2) -> (r: Fp2)
        requires
            ctx_wf(*old(builder)),
            a.wf(*old(builder)),
            b.wf(*old(builder)),
        ensures
            gadget_frame(*old(builder), *final(builder), 6),
            r.wf(*final(builder)),
            forall|asn: Seq<int>|
                sat(*final(builder), asn) ==> #[trigger] r.vals(asn) == v2_mul(
                    a.vals(asn),
                    b.vals(asn),
                ),
            inv_free(*old(builder), *final(builder)),
            sat_extendable(*old(builder), *final(builder)),
    {
        let ac = builder.mul(a.c0, b.c0);
        let bd = builder.mul(a.c1, b.c1);
        let re = builder.sub(ac, bd);
        let ad = builder.mul(a.c0, b.c1);
        let bc = builder.mul(a.c1, b.c0);
        let im = builder.add(ad, bc);
        let r = Fp2 { c0: re, c1: im };
        proof {
            assert forall|asn: Seq<int>| sat(*builder, asn) implies #[trigger] r.vals(asn)
                == v2_mul(a.vals(asn), b.vals(asn)) by {
                let av = a.vals(asn);
                let bv = b.vals(asn);
                lemma_fc_sub(av.c0 * bv.c0, av.c1 * bv.c1);
                lemma_fc_add(av.c0 * bv.c1, av.c1 * bv.c0);
            }
            lemma_inv_free_extendable(*old(builder), *builder);
        }
        r
    }

    /// Squaring, as multiplication of an element by itself.
    pub fn square(builder: &mut CircuitCtx, a: &Fp2) -> (r: Fp2)
        requires
            ctx_wf(*old(builder)),
            a.wf(*old(builder)),
        ensures
            gadget_frame(*old(builder), *final(builder), 6),
            r.wf(*final(builder)),
            forall|asn: Seq<int>|
                sat(*final(builder), asn) ==> #[trigger] r.vals(asn) == v2_mul(
                    a.vals(asn),
                    a.vals(asn),
                ),
            inv_free(*old(builder), *final(builder)),
            sat_extendable(*old(builder), *final(builder)),
    {
        Self::mul(builder, a, a)
    }

    /// Norm-based inversion: the witness-solved inverse of the norm
    /// `c0^2 + c1^2` scales the conjugate.  An assignment that gives the
    /// norm the value zero satisfies no context containing these gates.
    pub fn inverse(builder: &mut CircuitCtx, a: &Fp2) -> (r: Fp2)
        requires
            ctx_wf(*old(builder)),
            a.wf(*old(builder)),
        ensures
            gadget_frame(*old(builder), *final(builder), 7),
            r.wf(*final(builder)),
            forall|asn: Seq<int>|
                sat(*final(builder), asn) ==> v2_inv_rel(a.vals(asn), #[trigger] r.vals(asn)),
            forall|asn0: Seq<int>|
                #[trigger] sat(*old(builder), asn0) && asn0.len() == old(builder).gates@.len()
                    && invertible(v2_norm(a.vals(asn0))) ==> exists|asn: Seq<int>|
                    #[trigger] sat(*final(builder), asn) && asn.len()
                        == final(builder).gates@.len() && asn0.is_prefix_of(asn),
    {
        let c0_sq = builder.mul(a.c0, a.c0);
        let c1_sq = builder.mul(a.c1, a.c1);
        let denom = builder.add(c0_sq, c1_sq);
        let ghost s_norm = *builder;
        let denom_inv = builder.inverse(denom);
        let ghost s_inv = *builder;
        let re = builder.mul(a.c0, denom_inv);
        let neg_c1 = builder.neg(a.c1);
        let im = builder.mul(neg_c1, denom_inv);
        let r = Fp2 { c0: re, c1: im };
        proof {
            lemma_inv_free_extendable(*old(builder), s_norm);
            lemma_inv_free_extendable(s_inv, *builder);
            assert forall|asn0: Seq<int>|
                #[trigger] sat(*old(builder), asn0) && asn0.len() == old(builder).gates@.len()
                    && invertible(v2_norm(a.vals(asn0))) implies exists|asn: Seq<int>|
                #[trigger] sat(*builder, asn) && asn.len() == builder.gates@.len()
                    && asn0.is_prefix_of(asn) by {
                // fill the norm chain forward
                let asn1 = choose|asn1: Seq<int>|
                    #[trigger] sat(s_norm, asn1) && asn1.len() == s_norm.gates@.len()
                        && asn0.is_prefix_of(asn1);
                lemma_prefix_index(asn0, asn1, a.c0 as int);
                lemma_prefix_index(asn0, asn1, a.c1 as int);
                // the denominator wire carries the norm of the input
                let av = a.vals(asn1);
                lemma_fc_add(av.c0 * av.c0, av.c1 * av.c1);
                assert(asn1[denom as int] == v2_norm(av));
                // the inversion gate keeps an invertible norm satisfiable
                let asn2 = choose|asn2: Seq<int>|
                    #[trigger] sat(s_inv, asn2) && asn2.len() == s_inv.gates@.len()
                        && asn1.is_prefix_of(asn2);
                // fill the scaled conjugate forward
                let asn3 = choose|asn3: Seq<int>|
                    #[trigger] sat(*builder, asn3) && asn3.len() == builder.gates@.len()
                        && asn2.is_prefix_of(asn3);
                lemma_prefix_trans(asn0, asn1, asn2);
                lemma_prefix_trans(asn0, asn2, asn3);
                assert(sat(*builder, asn3) && asn3.len() == builder.gates@.len()
                    && asn0.is_prefix_of(asn3));
            }
            assert forall|asn: Seq<int>| sat(*builder, asn) implies v2_inv_rel(
                a.vals(asn),
                #[trigger] r.vals(asn),
            ) by {
                let av = a.vals(asn);
                let d = asn[denom_inv as int];
                lemma_fc_add(av.c0 * av.c0, av.c1 * av.c1);
                assert(asn[denom as int] == v2_norm(av));
                assert(in_field(d) && fmul(v2_norm(av), d) == 1);
                assert(r.vals(asn) == V2 {
                    c0: fmul(av.c0, d),
                    c1: fmul(crate::gf::fneg(av.c1), d),
                });
            }
        }
        r
    }

    /// Coordinate-wise scaling by a base-field wire.
    pub fn mul_scalar(builder: &mut CircuitCtx, a: &Fp2, scalar: usize) -> (r: Fp2)
        requires
            ctx_wf(*old(builder)),
            a.wf(*old(builder)),
            scalar < old(builder).gates@.len(),
        ensures
            gadget_frame(*old(builder), *final(builder), 2),
            r.wf(*final(builder)),
            forall|asn: Seq<int>|
                sat(*final(builder), asn) ==> #[trigger] r.vals(asn) == v2_scale(
                    a.vals(asn),
                    asn[scalar as int],
                ),
            inv_free(*old(builder), *final(builder)),
            sat_extendable(*old(builder), *final(builder)),
    {
        let c0 = builder.mul(a.c0, scalar);
        let c1 = builder.mul(a.c1, scalar);
        proof {
            lemma_inv_free_extendable(*old(builder), *builder);
        }
        Fp2 { c0, c1 }
    }

    /// Multiplication by the fixed non-residue `xi = 1 + u`.
    pub fn mul_by_nonresidue(builder: &mut CircuitCtx, a: &Fp2) -> (r: Fp2)
        requires
            ctx_wf(*old(builder)),
            a.wf(*old(builder)),
        ensures
            gadget_frame(*old(builder), *final(builder), 7),
            r.wf(*final(builder)),
            forall|asn: Seq<int>|
                sat(*final(builder), asn) ==> #[trigger] r.vals(asn) == v2_nr(a.vals(asn)),
            inv_free(*old(builder), *final(builder)),
            sat_extendable(*old(builder), *final(builder)),
    {
        let one = builder.constant(1);
        let ghost mid = *builder;
        let xi = Fp2 { c0: one, c1: one };
        let r = Self::mul(builder, a, &xi);
        proof {
            lemma_extends_trans(*old(builder), mid, *builder);
            lemma_extends_gate(mid, *builder, old(builder).gates@.len() as int);
            lemma_inv_free_extendable(*old(builder), *builder);
            assert forall|asn: Seq<int>| sat(*builder, asn) implies #[trigger] r.vals(asn)
                == v2_nr(a.vals(asn)) by {
                lemma_sat_extends(mid, *builder, asn);
                assert(xi.vals(asn) == v2_xi());
                lemma_v2_nr_is_mul_xi(a.vals(asn));
            }
        }
        r
    }
}

} // verus!
