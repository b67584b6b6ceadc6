//! Affine curve-point gadgets: addition and doubling over the base field
//! (`G1Point`) and over the quadratic extension (`G2Point`).  The chord and
//! tangent slopes divide through witness-solved inverses, so the gadgets
//! assume generic position: inputs to `add` must have distinct
//! x-coordinates and inputs to `double` a nonzero y-coordinate, or no
//! satisfying assignment exists.  Neither gadget detects degenerate inputs
//! in-circuit.
use vstd::prelude::*;
use crate::gf::{fadd, fsub, fmul, in_field, invertible};
use crate::vals::{V2, v2_add, v2_sub, v2_mul, v2_scale, v2_norm, v2_inv_rel};
use crate::circuit::{CircuitCtx, ctx_wf, sat, gadget_frame, lemma_sat_extends,
    lemma_extends_trans, lemma_extends_gate_back, lemma_inv_free_extendable, lemma_prefix_index,
    lemma_prefix_trans};
use crate::fp2::Fp2;

verus! {

/// The value of a base-curve point under an assignment.
pub ghost struct PtV {
    pub x: int,
    pub y: int,
}

/// The value of a twist-curve point under an assignment.
pub ghost struct Pt2V {
    pub x: V2,
    pub y: V2,
}

/// The chord-addition relation: some witness inverts the x-difference, and
/// the result coordinates follow the slope formulas.
pub open spec fn g1_add_rel(p: PtV, q: PtV, r: PtV) -> bool {
    exists|d: int|
        in_field(d) && #[trigger] fmul(fsub(q.x, p.x), d) == 1 && r == (PtV {
            x: fsub(fsub(fmul(fmul(fsub(q.y, p.y), d), fmul(fsub(q.y, p.y), d)), p.x), q.x),
            y: fsub(
                fmul(
                    fmul(fsub(q.y, p.y), d),
                    fsub(p.x, fsub(fsub(fmul(fmul(fsub(q.y, p.y), d), fmul(fsub(q.y, p.y), d)), p.x), q.x)),
                ),
                p.y,
            ),
        })
}

/// The tangent-doubling relation: some witness inverts `2 y`, and the
/// result coordinates follow the tangent formulas with slope
/// `3 x^2 / (2 y)`.
pub open spec fn g1_double_rel(p: PtV, r: PtV) -> bool {
    exists|d: int|
        in_field(d) && #[trigger] fmul(fmul(2, p.y), d) == 1 && r == (PtV {
            x: fsub(
                fmul(fmul(fmul(3, fmul(p.x, p.x)), d), fmul(fmul(3, fmul(p.x, p.x)), d)),
                fmul(2, p.x),
            ),
            y: fsub(
                fmul(
                    fmul(fmul(3, fmul(p.x, p.x)), d),
                    fsub(
                        p.x,
                        fsub(
                            fmul(fmul(fmul(3, fmul(p.x, p.x)), d), fmul(fmul(3, fmul(p.x, p.x)), d)),
                            fmul(2, p.x),
                        ),
                    ),
                ),
                p.y,
            ),
        })
}

/// The chord-addition relation over the quadratic extension.
pub open spec fn g2_add_rel(p: Pt2V, q: Pt2V, r: Pt2V) -> bool {
    exists|d: V2|
        v2_inv_rel(v2_sub(q.x, p.x), d) && r == (Pt2V {
            x: v2_sub(
                v2_mul(v2_mul(v2_sub(q.y, p.y), d), v2_mul(v2_sub(q.y, p.y), d)),
                v2_add(p.x, q.x),
            ),
            y: v2_sub(
                v2_mul(
                    #[trigger] v2_mul(v2_sub(q.y, p.y), d),
                    v2_sub(
                        p.x,
                        v2_sub(
                            v2_mul(v2_mul(v2_sub(q.y, p.y), d), v2_mul(v2_sub(q.y, p.y), d)),
                            v2_add(p.x, q.x),
                        ),
                    ),
                ),
                p.y,
            ),
        })
}

/// The tangent-doubling relation over the quadratic extension, with slope
/// `3 x^2 / (2 y)` built by coordinate scaling.
pub open spec fn g2_double_rel(p: Pt2V, r: Pt2V) -> bool {
    exists|d: V2|
        v2_inv_rel(v2_scale(p.y, 2), d) && r == (Pt2V {
            x: v2_sub(
                v2_mul(
                    v2_mul(v2_scale(v2_mul(p.x, p.x), 3), d),
                    v2_mul(v2_scale(v2_mul(p.x, p.x), 3), d),
                ),
                v2_scale(p.x, 2),
            ),
            y: v2_sub(
                v2_mul(
                    #[trigger] v2_mul(v2_scale(v2_mul(p.x, p.x), 3), d),
                    v2_sub(
                        p.x,
                        v2_sub(
                            v2_mul(
                                v2_mul(v2_scale(v2_mul(p.x, p.x), 3), d),
                                v2_mul(v2_scale(v2_mul(p.x, p.x), 3), d),
                            ),
                            v2_scale(p.x, 2),
                        ),
                    ),
                ),
                p.y,
            ),
        })
}

/// The tangent-doubling output is unique: the inverse witness is unique
/// and the coordinates are functions of it.
pub proof fn lemma_g2_double_rel_unique(p: Pt2V, r1: Pt2V, r2: Pt2V)
    requires
        g2_double_rel(p, r1),
        g2_double_rel(p, r2),
    ensures
        r1 == r2,
{
    let d1 = choose|d: V2|
        v2_inv_rel(v2_scale(p.y, 2), d) && #[trigger] v2_mul(v2_scale(v2_mul(p.x, p.x), 3), d)
            == v2_mul(v2_scale(v2_mul(p.x, p.x), 3), d) && r1 == (Pt2V {
            x: v2_sub(
                v2_mul(
                    v2_mul(v2_scale(v2_mul(p.x, p.x), 3), d),
                    v2_mul(v2_scale(v2_mul(p.x, p.x), 3), d),
                ),
                v2_scale(p.x, 2),
            ),
            y: v2_sub(
                v2_mul(
                    v2_mul(v2_scale(v2_mul(p.x, p.x), 3), d),
                    v2_sub(
                        p.x,
                        v2_sub(
                            v2_mul(
                                v2_mul(v2_scale(v2_mul(p.x, p.x), 3), d),
                                v2_mul(v2_scale(v2_mul(p.x, p.x), 3), d),
                            ),
                            v2_scale(p.x, 2),
                        ),
                    ),
                ),
                p.y,
            ),
        });
    let d2 = choose|d: V2|
        v2_inv_rel(v2_scale(p.y, 2), d) && #[trigger] v2_mul(v2_scale(v2_mul(p.x, p.x), 3), d)
            == v2_mul(v2_scale(v2_mul(p.x, p.x), 3), d) && r2 == (Pt2V {
            x: v2_sub(
                v2_mul(
                    v2_mul(v2_scale(v2_mul(p.x, p.x), 3), d),
                    v2_mul(v2_scale(v2_mul(p.x, p.x), 3), d),
                ),
                v2_scale(p.x, 2),
            ),
            y: v2_sub(
                v2_mul(
                    v2_mul(v2_scale(v2_mul(p.x, p.x), 3), d),
                    v2_sub(
                        p.x,
                        v2_sub(
                            v2_mul(
                                v2_mul(v2_scale(v2_mul(p.x, p.x), 3), d),
                                v2_mul(v2_scale(v2_mul(p.x, p.x), 3), d),
                            ),
                            v2_scale(p.x, 2),
                        ),
                    ),
                ),
                p.y,
            ),
        });
    crate::laws2::lemma_v2_inv_rel_unique(v2_scale(p.y, 2), d1, d2);
}

/// A base-curve point in affine coordinates: two wires.
#[derive(Clone, Copy, Debug)]
pub struct G1Point {
    pub x: usize,
    pub y: usize,
}

impl G1Point {
    pub open spec fn wf(self, c: CircuitCtx) -> bool {
        self.x < c.gates@.len() && self.y < c.gates@.len()
    }

    pub open spec fn vals(self, a: Seq<int>) -> PtV {
        PtV { x: a[self.x as int], y: a[self.y as int] }
    }

    pub fn new(x: usize, y: usize) -> (r: G1Point)
        ensures
            r == (G1Point { x, y }),
    {
        G1Point { x, y }
    }

    /// Chord addition of two points with distinct x-coordinates.
    pub fn add(builder: &mut CircuitCtx, p: &G1Point, q: &G1Point) -> (r: G1Point)
        requires
            ctx_wf(*old(builder)),
            p.wf(*old(builder)),
            q.wf(*old(builder)),
        ensures
            gadget_frame(*old(builder), *final(builder), 10),
            r.wf(*final(builder)),
            forall|asn: Seq<int>|
                sat(*final(builder), asn) ==> g1_add_rel(p.vals(asn), q.vals(asn), #[trigger] r.vals(asn)),
            forall|asn0: Seq<int>|
                #[trigger] sat(*old(builder), asn0) && asn0.len() == old(builder).gates@.len()
                    && invertible(fsub(q.vals(asn0).x, p.vals(asn0).x)) ==> exists|asn: Seq<int>|
                    #[trigger] sat(*final(builder), asn) && asn.len()
                        == final(builder).gates@.len() && asn0.is_prefix_of(asn),
    {
        broadcast use lemma_sat_extends, lemma_extends_trans, lemma_extends_gate_back;

        let x_diff = builder.sub(q.x, p.x);
        let y_diff = builder.sub(q.y, p.y);
        let ghost s_pre = *builder;
        let x_diff_inv = builder.inverse(x_diff);
        let ghost s_post = *builder;
        let lambda = builder.mul(y_diff, x_diff_inv);
        let lambda_sq = builder.mul(lambda, lambda);
        let x3_intermediate = builder.sub(lambda_sq, p.x);
        let x3 = builder.sub(x3_intermediate, q.x);
        let x1_minus_x3 = builder.sub(p.x, x3);
        let lambda_times_x1_minus_x3 = builder.mul(lambda, x1_minus_x3);
        let y3 = builder.sub(lambda_times_x1_minus_x3, p.y);
        let r = G1Point { x: x3, y: y3 };
        proof {
            lemma_inv_free_extendable(*old(builder), s_pre);
            lemma_inv_free_extendable(s_post, *builder);
            assert forall|asn0: Seq<int>|
                #[trigger] sat(*old(builder), asn0) && asn0.len() == old(builder).gates@.len()
                    && invertible(fsub(q.vals(asn0).x, p.vals(asn0).x)) implies exists|asn: Seq<int>|
                #[trigger] sat(*builder, asn) && asn.len() == builder.gates@.len()
                    && asn0.is_prefix_of(asn) by {
                let asn1 = choose|asn1: Seq<int>|
                    #[trigger] sat(s_pre, asn1) && asn1.len() == s_pre.gates@.len()
                        && asn0.is_prefix_of(asn1);
                lemma_prefix_index(asn0, asn1, p.x as int);
                lemma_prefix_index(asn0, asn1, q.x as int);
                assert(asn1[x_diff as int] == fsub(q.vals(asn0).x, p.vals(asn0).x));
                let asn2 = choose|asn2: Seq<int>|
                    #[trigger] sat(s_post, asn2) && asn2.len() == s_post.gates@.len()
                        && asn1.is_prefix_of(asn2);
                let asn3 = choose|asn3: Seq<int>|
                    #[trigger] sat(*builder, asn3) && asn3.len() == builder.gates@.len()
                        && asn2.is_prefix_of(asn3);
                lemma_prefix_trans(asn0, asn1, asn2);
                lemma_prefix_trans(asn0, asn2, asn3);
                assert(sat(*builder, asn3) && asn3.len() == builder.gates@.len()
                    && asn0.is_prefix_of(asn3));
            }
            assert forall|asn: Seq<int>| sat(*builder, asn) implies g1_add_rel(
                p.vals(asn),
                q.vals(asn),
                #[trigger] r.vals(asn),
            ) by {
                let d = asn[x_diff_inv as int];
                assert(fmul(fsub(q.vals(asn).x, p.vals(asn).x), d) == 1);
            }
        }
        r
    }

    /// Tangent doubling of a point with nonzero y-coordinate.
    pub fn double(builder: &mut CircuitCtx, p: &G1Point) -> (r: G1Point)
        requires
            ctx_wf(*old(builder)),
            p.wf(*old(builder)),
        ensures
            gadget_frame(*old(builder), *final(builder), 13),
            r.wf(*final(builder)),
            forall|asn: Seq<int>|
                sat(*final(builder), asn) ==> g1_double_rel(p.vals(asn), #[trigger] r.vals(asn)),
            forall|asn0: Seq<int>|
                #[trigger] sat(*old(builder), asn0) && asn0.len() == old(builder).gates@.len()
                    && invertible(fmul(2, p.vals(asn0).y)) ==> exists|asn: Seq<int>|
                    #[trigger] sat(*final(builder), asn) && asn.len()
                        == final(builder).gates@.len() && asn0.is_prefix_of(asn),
    {
        broadcast use lemma_sat_extends, lemma_extends_trans, lemma_extends_gate_back;

        let three = builder.constant(3);
        let two = builder.constant(2);
        let x1_sq = builder.mul(p.x, p.x);
        let numerator = builder.mul(three, x1_sq);
        let denominator = builder.mul(two, p.y);
        let ghost s_pre = *builder;
        let denominator_inv = builder.inverse(denominator);
        let ghost s_post = *builder;
        let lambda = builder.mul(numerator, denominator_inv);
        let lambda_sq = builder.mul(lambda, lambda);
        let two_x1 = builder.mul(two, p.x);
        let x3 = builder.sub(lambda_sq, two_x1);
        let x1_minus_x3 = builder.sub(p.x, x3);
        let lambda_times_x1_minus_x3 = builder.mul(lambda, x1_minus_x3);
        let y3 = builder.sub(lambda_times_x1_minus_x3, p.y);
        let r = G1Point { x: x3, y: y3 };
        proof {
            lemma_inv_free_extendable(*old(builder), s_pre);
            lemma_inv_free_extendable(s_post, *builder);
            assert forall|asn0: Seq<int>|
                #[trigger] sat(*old(builder), asn0) && asn0.len() == old(builder).gates@.len()
                    && invertible(fmul(2, p.vals(asn0).y)) implies exists|asn: Seq<int>|
                #[trigger] sat(*builder, asn) && asn.len() == builder.gates@.len()
                    && asn0.is_prefix_of(asn) by {
                let asn1 = choose|asn1: Seq<int>|
                    #[trigger] sat(s_pre, asn1) && asn1.len() == s_pre.gates@.len()
                        && asn0.is_prefix_of(asn1);
                lemma_prefix_index(asn0, asn1, p.y as int);
                assert(asn1[two as int] == 2);
                assert(asn1[denominator as int] == fmul(2, p.vals(asn0).y));
                let asn2 = choose|asn2: Seq<int>|
                    #[trigger] sat(s_post, asn2) && asn2.len() == s_post.gates@.len()
                        && asn1.is_prefix_of(asn2);
                let asn3 = choose|asn3: Seq<int>|
                    #[trigger] sat(*builder, asn3) && asn3.len() == builder.gates@.len()
                        && asn2.is_prefix_of(asn3);
                lemma_prefix_trans(asn0, asn1, asn2);
                lemma_prefix_trans(asn0, asn2, asn3);
                assert(sat(*builder, asn3) && asn3.len() == builder.gates@.len()
                    && asn0.is_prefix_of(asn3));
            }
            assert forall|asn: Seq<int>| sat(*builder, asn) implies g1_double_rel(
                p.vals(asn),
                #[trigger] r.vals(asn),
            ) by {
                let d = asn[denominator_inv as int];
                assert(fmul(fmul(2, p.vals(asn).y), d) == 1);
            }
        }
        r
    }
}

/// A twist-curve point in affine coordinates over the quadratic extension.
#[derive(Clone, Copy, Debug)]
pub struct G2Point {
    pub x: Fp2,
    pub y: Fp2,
}

impl G2Point {
    pub open spec fn wf(self, c: CircuitCtx) -> bool {
        self.x.wf(c) && self.y.wf(c)
    }

    pub open spec fn vals(self, a: Seq<int>) -> Pt2V {
        Pt2V { x: self.x.vals(a), y: self.y.vals(a) }
    }

    pub fn new(x: Fp2, y: Fp2) -> (r: G2Point)
        ensures
            r == (G2Point { x, y }),
    {
        G2Point { x, y }
    }

    /// Chord addition of two twist points with distinct x-coordinates.
    pub fn add(builder: &mut CircuitCtx, p: &G2Point, q: &G2Point) -> (r: G2Point)
        requires
            ctx_wf(*old(builder)),
            p.wf(*old(builder)),
            q.wf(*old(builder)),
        ensures
            gadget_frame(*old(builder), *final(builder), 37),
            r.wf(*final(builder)),
            forall|asn: Seq<int>|
                sat(*final(builder), asn) ==> g2_add_rel(p.vals(asn), q.vals(asn), #[trigger] r.vals(asn)),
            forall|asn0: Seq<int>|
                #[trigger] sat(*old(builder), asn0) && asn0.len() == old(builder).gates@.len()
                    && invertible(v2_norm(v2_sub(q.vals(asn0).x, p.vals(asn0).x))) ==> exists|
                asn: Seq<int>,
                |
                    #[trigger] sat(*final(builder), asn) && asn.len()
                        == final(builder).gates@.len() && asn0.is_prefix_of(asn),
    {
        broadcast use lemma_sat_extends, lemma_extends_trans, lemma_extends_gate_back;

        let x_diff = Fp2::sub(builder, &q.x, &p.x);
        let y_diff = Fp2::sub(builder, &q.y, &p.y);
        let ghost s_pre = *builder;
        let x_diff_inv = Fp2::inverse(builder, &x_diff);
        let ghost s_post = *builder;
        let lambda = Fp2::mul(builder, &y_diff, &x_diff_inv);
        let lambda_sq = Fp2::mul(builder, &lambda, &lambda);
        let x1_plus_x2 = Fp2::add(builder, &p.x, &q.x);
        let x3 = Fp2::sub(builder, &lambda_sq, &x1_plus_x2);
        let x1_minus_x3 = Fp2::sub(builder, &p.x, &x3);
        let lambda_mul = Fp2::mul(builder, &lambda, &x1_minus_x3);
        let y3 = Fp2::sub(builder, &lambda_mul, &p.y);
        let r = G2Point { x: x3, y: y3 };
        proof {
            lemma_inv_free_extendable(*old(builder), s_pre);
            lemma_inv_free_extendable(s_post, *builder);
            assert forall|asn0: Seq<int>|
                #[trigger] sat(*old(builder), asn0) && asn0.len() == old(builder).gates@.len()
                    && invertible(v2_norm(v2_sub(q.vals(asn0).x, p.vals(asn0).x))) implies exists|
                asn: Seq<int>,
            |
                #[trigger] sat(*builder, asn) && asn.len() == builder.gates@.len()
                    && asn0.is_prefix_of(asn) by {
                let asn1 = choose|asn1: Seq<int>|
                    #[trigger] sat(s_pre, asn1) && asn1.len() == s_pre.gates@.len()
                        && asn0.is_prefix_of(asn1);
                lemma_prefix_index(asn0, asn1, p.x.c0 as int);
                lemma_prefix_index(asn0, asn1, p.x.c1 as int);
                lemma_prefix_index(asn0, asn1, q.x.c0 as int);
                lemma_prefix_index(asn0, asn1, q.x.c1 as int);
                assert(x_diff.vals(asn1) == v2_sub(q.vals(asn0).x, p.vals(asn0).x));
                let asn2 = choose|asn2: Seq<int>|
                    #[trigger] sat(s_post, asn2) && asn2.len() == s_post.gates@.len()
                        && asn1.is_prefix_of(asn2);
                let asn3 = choose|asn3: Seq<int>|
                    #[trigger] sat(*builder, asn3) && asn3.len() == builder.gates@.len()
                        && asn2.is_prefix_of(asn3);
                lemma_prefix_trans(asn0, asn1, asn2);
                lemma_prefix_trans(asn0, asn2, asn3);
                assert(sat(*builder, asn3) && asn3.len() == builder.gates@.len()
                    && asn0.is_prefix_of(asn3));
            }
            assert forall|asn: Seq<int>| sat(*builder, asn) implies g2_add_rel(
                p.vals(asn),
                q.vals(asn),
                #[trigger] r.vals(asn),
            ) by {
                let d = x_diff_inv.vals(asn);
                assert(v2_inv_rel(v2_sub(q.vals(asn).x, p.vals(asn).x), d));
                assert(v2_mul(v2_sub(q.vals(asn).y, p.vals(asn).y), d) == lambda.vals(asn));
            }
        }
        r
    }

    /// Tangent doubling of a twist point with nonzero y-coordinate.
    pub fn double(builder: &mut CircuitCtx, p: &G2Point) -> (r: G2Point)
        requires
            ctx_wf(*old(builder)),
            p.wf(*old(builder)),
        ensures
            gadget_frame(*old(builder), *final(builder), 45),
            r.wf(*final(builder)),
            forall|asn: Seq<int>|
                sat(*final(builder), asn) ==> g2_double_rel(p.vals(asn), #[trigger] r.vals(asn)),
            forall|asn0: Seq<int>|
                #[trigger] sat(*old(builder), asn0) && asn0.len() == old(builder).gates@.len()
                    && invertible(v2_norm(v2_scale(p.vals(asn0).y, 2))) ==> exists|asn: Seq<int>|
                    #[trigger] sat(*final(builder), asn) && asn.len()
                        == final(builder).gates@.len() && asn0.is_prefix_of(asn),
    {
        broadcast use lemma_sat_extends, lemma_extends_trans, lemma_extends_gate_back;

        let three = builder.constant(3);
        let two = builder.constant(2);
        let x1_sq = Fp2::mul(builder, &p.x, &p.x);
        let numerator = Fp2::mul_scalar(builder, &x1_sq, three);
        let denominator = Fp2::mul_scalar(builder, &p.y, two);
        let ghost s_pre = *builder;
        let denominator_inv = Fp2::inverse(builder, &denominator);
        let ghost s_post = *builder;
        let lambda = Fp2::mul(builder, &numerator, &denominator_inv);
        let lambda_sq = Fp2::mul(builder, &lambda, &lambda);
        let two_x1 = Fp2::mul_scalar(builder, &p.x, two);
        let x3 = Fp2::sub(builder, &lambda_sq, &two_x1);
        let x1_minus_x3 = Fp2::sub(builder, &p.x, &x3);
        let lambda_mul = Fp2::mul(builder, &lambda, &x1_minus_x3);
        let y3 = Fp2::sub(builder, &lambda_mul, &p.y);
        let r = G2Point { x: x3, y: y3 };
        proof {
            lemma_inv_free_extendable(*old(builder), s_pre);
            lemma_inv_free_extendable(s_post, *builder);
            assert forall|asn0: Seq<int>|
                #[trigger] sat(*old(builder), asn0) && asn0.len() == old(builder).gates@.len()
                    && invertible(v2_norm(v2_scale(p.vals(asn0).y, 2))) implies exists|asn: Seq<int>|
                #[trigger] sat(*builder, asn) && asn.len() == builder.gates@.len()
                    && asn0.is_prefix_of(asn) by {
                let asn1 = choose|asn1: Seq<int>|
                    #[trigger] sat(s_pre, asn1) && asn1.len() == s_pre.gates@.len()
                        && asn0.is_prefix_of(asn1);
                lemma_prefix_index(asn0, asn1, p.y.c0 as int);
                lemma_prefix_index(asn0, asn1, p.y.c1 as int);
                assert(asn1[two as int] == 2);
                assert(denominator.vals(asn1) == v2_scale(p.vals(asn0).y, 2));
                let asn2 = choose|asn2: Seq<int>|
                    #[trigger] sat(s_post, asn2) && asn2.len() == s_post.gates@.len()
                        && asn1.is_prefix_of(asn2);
                let asn3 = choose|asn3: Seq<int>|
                    #[trigger] sat(*builder, asn3) && asn3.len() == builder.gates@.len()
                        && asn2.is_prefix_of(asn3);
                lemma_prefix_trans(asn0, asn1, asn2);
                lemma_prefix_trans(asn0, asn2, asn3);
                assert(sat(*builder, asn3) && asn3.len() == builder.gates@.len()
                    && asn0.is_prefix_of(asn3));
            }
            assert forall|asn: Seq<int>| sat(*builder, asn) implies g2_double_rel(
                p.vals(asn),
                #[trigger] r.vals(asn),
            ) by {
                let d = denominator_inv.vals(asn);
                assert(v2_inv_rel(v2_scale(p.vals(asn).y, 2), d));
                assert(v2_mul(v2_scale(v2_mul(p.vals(asn).x, p.vals(asn).x), 3), d)
                    == lambda.vals(asn));
            }
        }
        r
    }
}

} // verus!
