//! The Miller-loop and final-exponentiation gadgets.  A fixed, public bit
//! sequence derived from the curve parameter drives a statically unrolled
//! loop, so the number of gates the loop emits is a function of that
//! sequence alone, and of nothing about the input points.
//!
//! The line value produced by the doubling step is a placeholder returning
//! the multiplicative identity, and the hard part of the final
//! exponentiation is a simplified squaring chain; both are stated exactly
//! as such in the contracts.
use vstd::prelude::*;
use crate::gf::invertible;
use crate::vals::{V2, V6, V12, v2_sub, v2_add, v2_mul, v2_scale, v2_zero, v2_norm, v2_inv_rel,
    v6_zero, v6_denom, v12_mul, v12_one, v12_conj, v12_norm, v12_inv_rel};
use crate::circuit::{CircuitCtx, ctx_wf, sat, extends, gadget_frame, inv_free, sat_extendable,
    lemma_sat_extends, lemma_extends_trans, lemma_extends_gate_back, lemma_extends_gate,
    lemma_inv_free_extendable, lemma_prefix_index, lemma_prefix_trans};
use crate::fp2::Fp2;
use crate::fp6::Fp6;
use crate::fp12::Fp12;
use crate::ec::{PtV, Pt2V, G1Point, G2Point, g2_double_rel};

verus! {

/// The number of bits in the fixed sequence that drives the Miller loop.
pub const MILLER_BITS: usize = 35;

/// The fixed public bit sequence that drives the Miller loop, by position:
/// 01101000 00110100 00010011 00001000 001.
pub open spec fn miller_bit(i: int) -> int {
    if i == 1 || i == 2 || i == 4 || i == 10 || i == 11 || i == 13 || i == 19 || i == 22 || i == 23
        || i == 28 || i == 34 {
        1
    } else {
        0
    }
}

/// The bit the loop reads at position `i`.
fn ate_bit(i: usize) -> (b: u8)
    requires
        i < MILLER_BITS,
    ensures
        b as int == miller_bit(i as int),
{
    if i == 1 || i == 2 || i == 4 || i == 10 || i == 11 || i == 13 || i == 19 || i == 22 || i == 23
        || i == 28 || i == 34 {
        1
    } else {
        0
    }
}

/// The line value the addition step emits: `lambda * p.x - p.y` in the
/// lowest tower coordinate, zero everywhere else.
pub open spec fn g2_astep_line(lam: V2, p: PtV) -> V12 {
    V12 {
        c0: V6 {
            c0: v2_sub(v2_scale(lam, p.x), (V2 { c0: p.y, c1: 0 })),
            c1: v2_zero(),
            c2: v2_zero(),
        },
        c1: v6_zero(),
    }
}

/// How the addition step constrains its outputs: the chord-slope relation
/// together with the line value built from the slope and the base point.
pub open spec fn g2_astep_rel(rp: Pt2V, q: Pt2V, p: PtV, rnew: Pt2V, line: V12) -> bool {
    exists|d: V2|
        v2_inv_rel(v2_sub(q.x, rp.x), d) && {
            let lam = #[trigger] v2_mul(v2_sub(q.y, rp.y), d);
            let x3 = v2_sub(v2_mul(lam, lam), v2_add(rp.x, q.x));
            rnew == (Pt2V { x: x3, y: v2_sub(v2_mul(lam, v2_sub(rp.x, x3)), rp.y) }) && line
                == g2_astep_line(lam, p)
        }
}

/// The addition-step output is unique: the inverse witness is unique and
/// the coordinates and line are functions of it.
pub proof fn lemma_g2_astep_rel_unique(
    rp: Pt2V,
    q: Pt2V,
    p: PtV,
    r1: Pt2V,
    l1: V12,
    r2: Pt2V,
    l2: V12,
)
    requires
        g2_astep_rel(rp, q, p, r1, l1),
        g2_astep_rel(rp, q, p, r2, l2),
    ensures
        r1 == r2,
        l1 == l2,
{
    let d1 = choose|d: V2|
        v2_inv_rel(v2_sub(q.x, rp.x), d) && {
            let lam = #[trigger] v2_mul(v2_sub(q.y, rp.y), d);
            let x3 = v2_sub(v2_mul(lam, lam), v2_add(rp.x, q.x));
            r1 == (Pt2V { x: x3, y: v2_sub(v2_mul(lam, v2_sub(rp.x, x3)), rp.y) }) && l1
                == g2_astep_line(lam, p)
        };
    let d2 = choose|d: V2|
        v2_inv_rel(v2_sub(q.x, rp.x), d) && {
            let lam = #[trigger] v2_mul(v2_sub(q.y, rp.y), d);
            let x3 = v2_sub(v2_mul(lam, lam), v2_add(rp.x, q.x));
            r2 == (Pt2V { x: x3, y: v2_sub(v2_mul(lam, v2_sub(rp.x, x3)), rp.y) }) && l2
                == g2_astep_line(lam, p)
        };
    crate::laws2::lemma_v2_inv_rel_unique(v2_sub(q.x, rp.x), d1, d2);
}

/// One Miller-loop iteration: square the accumulator, double the running
/// point folding in the placeholder line, and, when the bit is set, add
/// the input point folding in the chord line.
#[verifier::opaque]
pub open spec fn miller_step(pv: PtV, qv: Pt2V, b: int, f0: V12, r0: Pt2V, f2: V12, r2: Pt2V) -> bool {
    exists|rd: Pt2V|
        #[trigger] g2_double_rel(r0, rd) && {
            let f1 = v12_mul(v12_one(), v12_mul(f0, f0));
            if b == 1 {
                exists|la: V12| #[trigger] g2_astep_rel(rd, qv, pv, r2, la) && f2 == v12_mul(la, f1)
            } else {
                f2 == f1 && r2 == rd
            }
        }
}

/// One Miller-loop iteration determines its outputs: the doubling and
/// addition steps are unique, and the accumulator updates are functions of
/// their line values.
pub proof fn lemma_miller_step_unique(
    pv: PtV,
    qv: Pt2V,
    b: int,
    f0: V12,
    r0: Pt2V,
    f2: V12,
    r2: Pt2V,
    f3: V12,
    r3: Pt2V,
)
    requires
        miller_step(pv, qv, b, f0, r0, f2, r2),
        miller_step(pv, qv, b, f0, r0, f3, r3),
    ensures
        f2 == f3,
        r2 == r3,
{
    reveal(miller_step);
    let rd1 = choose|rd: Pt2V|
        #[trigger] g2_double_rel(r0, rd) && {
            let f1 = v12_mul(v12_one(), v12_mul(f0, f0));
            if b == 1 {
                exists|la: V12| #[trigger] g2_astep_rel(rd, qv, pv, r2, la) && f2 == v12_mul(la, f1)
            } else {
                f2 == f1 && r2 == rd
            }
        };
    let rd2 = choose|rd: Pt2V|
        #[trigger] g2_double_rel(r0, rd) && {
            let f1 = v12_mul(v12_one(), v12_mul(f0, f0));
            if b == 1 {
                exists|la: V12| #[trigger] g2_astep_rel(rd, qv, pv, r3, la) && f3 == v12_mul(la, f1)
            } else {
                f3 == f1 && r3 == rd
            }
        };
    crate::ec::lemma_g2_double_rel_unique(r0, rd1, rd2);
    if b == 1 {
        let f1 = v12_mul(v12_one(), v12_mul(f0, f0));
        let la1 = choose|la: V12|
            #[trigger] g2_astep_rel(rd1, qv, pv, r2, la) && f2 == v12_mul(la, f1);
        let la2 = choose|la: V12|
            #[trigger] g2_astep_rel(rd2, qv, pv, r3, la) && f3 == v12_mul(la, f1);
        lemma_g2_astep_rel_unique(rd1, qv, pv, r2, la1, r3, la2);
    }
}

/// A doubling relation holding of any output means the tangent
/// denominator of the input point is invertible.
proof fn lemma_double_rel_invertible(p: Pt2V, r: Pt2V)
    requires
        g2_double_rel(p, r),
    ensures
        invertible(v2_norm(v2_scale(p.y, 2))),
{
    let d = choose|d: V2|
        v2_inv_rel(v2_scale(p.y, 2), d) && r == (Pt2V {
            x: v2_sub(
                v2_mul(
                    v2_mul(v2_scale(v2_mul(p.x, p.x), 3), d),
                    v2_mul(v2_scale(v2_mul(p.x, p.x), 3), d),
                ),
                v2_scale(p.x, 2),
            ),
            y: v2_sub(
                v2_mul(
                    #[trigger] v2_mul(v2_scale(v2_mul(p.x, p.x), 3), d),
                    v2_sub(
                        p.x,
                        v2_sub(
                            v2_mul(
                                v2_mul(v2_scale(v2_mul(p.x, p.x), 3), d),
                                v2_mul(v2_scale(v2_mul(p.x, p.x), 3), d),
                            ),
                            v2_scale(p.x, 2),
                        ),
                    ),
                ),
                p.y,
            ),
        });
    let dd = choose|dd: int|
        crate::gf::in_field(dd) && #[trigger] crate::gf::fmul(v2_norm(v2_scale(p.y, 2)), dd) == 1
            && d == (V2 {
            c0: crate::gf::fmul(v2_scale(p.y, 2).c0, dd),
            c1: crate::gf::fmul(crate::gf::fneg(v2_scale(p.y, 2).c1), dd),
        });
    assert(crate::gf::fmul(v2_norm(v2_scale(p.y, 2)), dd) == 1);
}

/// An addition relation holding of any output means the chord denominator
/// against the fixed point is invertible.
proof fn lemma_astep_rel_invertible(rp: Pt2V, q: Pt2V, p: PtV, rnew: Pt2V, line: V12)
    requires
        g2_astep_rel(rp, q, p, rnew, line),
    ensures
        invertible(v2_norm(v2_sub(q.x, rp.x))),
{
    let d = choose|d: V2|
        v2_inv_rel(v2_sub(q.x, rp.x), d) && {
            let lam = #[trigger] v2_mul(v2_sub(q.y, rp.y), d);
            let x3 = v2_sub(v2_mul(lam, lam), v2_add(rp.x, q.x));
            rnew == (Pt2V { x: x3, y: v2_sub(v2_mul(lam, v2_sub(rp.x, x3)), rp.y) }) && line
                == g2_astep_line(lam, p)
        };
    let dd = choose|dd: int|
        crate::gf::in_field(dd) && #[trigger] crate::gf::fmul(v2_norm(v2_sub(q.x, rp.x)), dd) == 1
            && d == (V2 {
            c0: crate::gf::fmul(v2_sub(q.x, rp.x).c0, dd),
            c1: crate::gf::fmul(crate::gf::fneg(v2_sub(q.x, rp.x).c1), dd),
        });
    assert(crate::gf::fmul(v2_norm(v2_sub(q.x, rp.x)), dd) == 1);
}

/// The loop's remaining steps can all be taken from the given state: at
/// every doubling the running point's tangent denominator is invertible,
/// and at every addition the chord denominator is, down the whole chain.
pub open spec fn miller_can(pv: PtV, qv: Pt2V, i: int, f: V12, rr: Pt2V) -> bool
    decreases MILLER_BITS - i,
{
    if i >= MILLER_BITS {
        true
    } else {
        exists|f2: V12, r2: Pt2V|
            #[trigger] miller_step(pv, qv, miller_bit(i), f, rr, f2, r2) && miller_can(
                pv,
                qv,
                i + 1,
                f2,
                r2,
            )
    }
}

/// The accumulator and running point after the first `n` bits.
pub open spec fn miller_rel(pv: PtV, qv: Pt2V, n: int, f: V12, rr: Pt2V) -> bool
    decreases n,
{
    if n <= 0 {
        f == v12_one() && rr == qv
    } else {
        exists|fp: V12, rp: Pt2V|
            #[trigger] miller_step(pv, qv, miller_bit(n - 1), fp, rp, f, rr) && miller_rel(
                pv,
                qv,
                n - 1,
                fp,
                rp,
            )
    }
}

/// Gates emitted by one Miller-loop iteration for a given bit.
pub open spec fn miller_step_gates(b: int) -> int {
    if b == 1 {
        (271 + 47 + 352 + 42 + 352) as int
    } else {
        (271 + 47 + 352) as int
    }
}

/// Gates emitted by the first `n` Miller-loop iterations.
pub open spec fn miller_gates_upto(n: int) -> int
    decreases n,
{
    if n <= 0 {
        0
    } else {
        miller_gates_upto(n - 1) + miller_step_gates(miller_bit(n - 1))
    }
}

/// Gates emitted by the whole Miller loop, initial accumulator included:
/// a closed function of the fixed bit sequence, so any two runs of the
/// loop emit exactly the same number of constraints.
pub open spec fn miller_gate_total() -> int {
    2 + miller_gates_upto(MILLER_BITS as int)
}

/// The doubling step: tangent-double the running point and emit the
/// placeholder line value `one`.
pub fn g2_double_step(builder: &mut CircuitCtx, r: &G2Point, _p: &G1Point) -> (res: (G2Point, Fp12))
    requires
        ctx_wf(*old(builder)),
        r.wf(*old(builder)),
    ensures
        gadget_frame(*old(builder), *final(builder), 47),
        res.0.wf(*final(builder)),
        res.1.wf(*final(builder)),
        forall|asn: Seq<int>|
            sat(*final(builder), asn) ==> g2_double_rel(r.vals(asn), #[trigger] res.0.vals(asn))
                && res.1.vals(asn) == v12_one(),
        forall|asn0: Seq<int>|
            #[trigger] sat(*old(builder), asn0) && asn0.len() == old(builder).gates@.len()
                && invertible(v2_norm(v2_scale(r.vals(asn0).y, 2))) ==> exists|asn: Seq<int>|
                #[trigger] sat(*final(builder), asn) && asn.len() == final(builder).gates@.len()
                    && asn0.is_prefix_of(asn),
{
    broadcast use lemma_sat_extends, lemma_extends_trans, lemma_extends_gate_back;

    let x_sq = Fp2::square(builder, &r.x);
    let three = builder.constant(3);
    let three_x_sq_c0 = builder.mul(x_sq.c0, three);
    let three_x_sq_c1 = builder.mul(x_sq.c1, three);
    let three_x_sq = Fp2 { c0: three_x_sq_c0, c1: three_x_sq_c1 };
    let two = builder.constant(2);
    let two_y_c0 = builder.mul(r.y.c0, two);
    let two_y_c1 = builder.mul(r.y.c1, two);
    let two_y = Fp2 { c0: two_y_c0, c1: two_y_c1 };
    let ghost s_pre = *builder;
    let two_y_inv = Fp2::inverse(builder, &two_y);
    let ghost s_post = *builder;
    let lambda = Fp2::mul(builder, &three_x_sq, &two_y_inv);
    let lambda_sq = Fp2::square(builder, &lambda);
    let two_x_c0 = builder.mul(r.x.c0, two);
    let two_x_c1 = builder.mul(r.x.c1, two);
    let two_x = Fp2 { c0: two_x_c0, c1: two_x_c1 };
    let new_x = Fp2::sub(builder, &lambda_sq, &two_x);
    let x_minus_new_x = Fp2::sub(builder, &r.x, &new_x);
    let lambda_mul = Fp2::mul(builder, &lambda, &x_minus_new_x);
    let new_y = Fp2::sub(builder, &lambda_mul, &r.y);
    let r_new = G2Point { x: new_x, y: new_y };
    let line = Fp12::one(builder);
    proof {
        lemma_inv_free_extendable(*old(builder), s_pre);
        lemma_inv_free_extendable(s_post, *builder);
        assert forall|asn0: Seq<int>|
            #[trigger] sat(*old(builder), asn0) && asn0.len() == old(builder).gates@.len()
                && invertible(v2_norm(v2_scale(r.vals(asn0).y, 2))) implies exists|asn: Seq<int>|
            #[trigger] sat(*builder, asn) && asn.len() == builder.gates@.len()
                && asn0.is_prefix_of(asn) by {
            let asn1 = choose|asn1: Seq<int>|
                #[trigger] sat(s_pre, asn1) && asn1.len() == s_pre.gates@.len()
                    && asn0.is_prefix_of(asn1);
            lemma_prefix_index(asn0, asn1, r.y.c0 as int);
            lemma_prefix_index(asn0, asn1, r.y.c1 as int);
            assert(asn1[two as int] == 2);
            assert(two_y.vals(asn1) == v2_scale(r.vals(asn0).y, 2));
            let asn2 = choose|asn2: Seq<int>|
                #[trigger] sat(s_post, asn2) && asn2.len() == s_post.gates@.len()
                    && asn1.is_prefix_of(asn2);
            let asn3 = choose|asn3: Seq<int>|
                #[trigger] sat(*builder, asn3) && asn3.len() == builder.gates@.len()
                    && asn2.is_prefix_of(asn3);
            lemma_prefix_trans(asn0, asn1, asn2);
            lemma_prefix_trans(asn0, asn2, asn3);
            assert(sat(*builder, asn3) && asn3.len() == builder.gates@.len() && asn0.is_prefix_of(
                asn3,
            ));
        }
        assert forall|asn: Seq<int>| sat(*builder, asn) implies g2_double_rel(
            r.vals(asn),
            #[trigger] r_new.vals(asn),
        ) && line.vals(asn) == v12_one() by {
            let rv = r.vals(asn);
            let d = two_y_inv.vals(asn);
            assert(x_sq.vals(asn) == v2_mul(rv.x, rv.x));
            assert(three_x_sq.vals(asn) == v2_scale(v2_mul(rv.x, rv.x), 3));
            assert(two_y.vals(asn) == v2_scale(rv.y, 2));
            assert(two_x.vals(asn) == v2_scale(rv.x, 2));
            assert(v2_inv_rel(v2_scale(rv.y, 2), d));
            assert(v2_mul(v2_scale(v2_mul(rv.x, rv.x), 3), d) == lambda.vals(asn));
        }
    }
    (r_new, line)
}

/// The addition step: chord-add the fixed input point into the running
/// point and emit the line value `lambda * p.x - p.y`.
pub fn g2_add_step(builder: &mut CircuitCtx, r: &G2Point, q: &G2Point, p: &G1Point) -> (res: (
    G2Point,
    Fp12,
))
    requires
        ctx_wf(*old(builder)),
        r.wf(*old(builder)),
        q.wf(*old(builder)),
        p.wf(*old(builder)),
    ensures
        gadget_frame(*old(builder), *final(builder), 42),
        res.0.wf(*final(builder)),
        res.1.wf(*final(builder)),
        forall|asn: Seq<int>|
            sat(*final(builder), asn) ==> g2_astep_rel(
                r.vals(asn),
                q.vals(asn),
                p.vals(asn),
                #[trigger] res.0.vals(asn),
                res.1.vals(asn),
            ),
        forall|asn0: Seq<int>|
            #[trigger] sat(*old(builder), asn0) && asn0.len() == old(builder).gates@.len()
                && invertible(v2_norm(v2_sub(q.vals(asn0).x, r.vals(asn0).x))) ==> exists|
            asn: Seq<int>,
            |
                #[trigger] sat(*final(builder), asn) && asn.len() == final(builder).gates@.len()
                    && asn0.is_prefix_of(asn),
{
    broadcast use lemma_sat_extends, lemma_extends_trans, lemma_extends_gate_back;

    let x_diff = Fp2::sub(builder, &q.x, &r.x);
    let y_diff = Fp2::sub(builder, &q.y, &r.y);
    let ghost s_pre = *builder;
    let x_diff_inv = Fp2::inverse(builder, &x_diff);
    let ghost s_post = *builder;
    let lambda = Fp2::mul(builder, &y_diff, &x_diff_inv);
    let lambda_sq = Fp2::square(builder, &lambda);
    let sum_xr_xq = Fp2::add(builder, &r.x, &q.x);
    let new_x = Fp2::sub(builder, &lambda_sq, &sum_xr_xq);
    let xr_minus_newx = Fp2::sub(builder, &r.x, &new_x);
    let lambda_mul = Fp2::mul(builder, &lambda, &xr_minus_newx);
    let new_y = Fp2::sub(builder, &lambda_mul, &r.y);
    let r_new = G2Point { x: new_x, y: new_y };
    // the line value: lambda * p.x - p.y in the lowest coordinate
    let lambda_px_c0 = builder.mul(lambda.c0, p.x);
    let lambda_px_c1 = builder.mul(lambda.c1, p.x);
    let lambda_px = Fp2 { c0: lambda_px_c0, c1: lambda_px_c1 };
    let zero = builder.constant(0);
    let py_fp2 = Fp2 { c0: p.y, c1: zero };
    let c0_fp2 = Fp2::sub(builder, &lambda_px, &py_fp2);
    let zero_fp2 = Fp2 { c0: zero, c1: zero };
    let zero_fp6 = Fp6 { c0: zero_fp2, c1: zero_fp2, c2: zero_fp2 };
    let c0 = Fp6 { c0: c0_fp2, c1: zero_fp2, c2: zero_fp2 };
    let line = Fp12 { c0, c1: zero_fp6 };
    proof {
        lemma_inv_free_extendable(*old(builder), s_pre);
        lemma_inv_free_extendable(s_post, *builder);
        assert forall|asn0: Seq<int>|
            #[trigger] sat(*old(builder), asn0) && asn0.len() == old(builder).gates@.len()
                && invertible(v2_norm(v2_sub(q.vals(asn0).x, r.vals(asn0).x))) implies exists|
            asn: Seq<int>,
        |
            #[trigger] sat(*builder, asn) && asn.len() == builder.gates@.len()
                && asn0.is_prefix_of(asn) by {
            let asn1 = choose|asn1: Seq<int>|
                #[trigger] sat(s_pre, asn1) && asn1.len() == s_pre.gates@.len()
                    && asn0.is_prefix_of(asn1);
            lemma_prefix_index(asn0, asn1, r.x.c0 as int);
            lemma_prefix_index(asn0, asn1, r.x.c1 as int);
            lemma_prefix_index(asn0, asn1, q.x.c0 as int);
            lemma_prefix_index(asn0, asn1, q.x.c1 as int);
            assert(x_diff.vals(asn1) == v2_sub(q.vals(asn0).x, r.vals(asn0).x));
            let asn2 = choose|asn2: Seq<int>|
                #[trigger] sat(s_post, asn2) && asn2.len() == s_post.gates@.len()
                    && asn1.is_prefix_of(asn2);
            let asn3 = choose|asn3: Seq<int>|
                #[trigger] sat(*builder, asn3) && asn3.len() == builder.gates@.len()
                    && asn2.is_prefix_of(asn3);
            lemma_prefix_trans(asn0, asn1, asn2);
            lemma_prefix_trans(asn0, asn2, asn3);
            assert(sat(*builder, asn3) && asn3.len() == builder.gates@.len() && asn0.is_prefix_of(
                asn3,
            ));
        }
        assert forall|asn: Seq<int>| sat(*builder, asn) implies g2_astep_rel(
            r.vals(asn),
            q.vals(asn),
            p.vals(asn),
            #[trigger] r_new.vals(asn),
            line.vals(asn),
        ) by {
            let rv = r.vals(asn);
            let qv = q.vals(asn);
            let pv = p.vals(asn);
            let d = x_diff_inv.vals(asn);
            assert(v2_inv_rel(v2_sub(qv.x, rv.x), d));
            assert(v2_mul(v2_sub(qv.y, rv.y), d) == lambda.vals(asn));
            assert(lambda_px.vals(asn) == v2_scale(lambda.vals(asn), pv.x));
            assert(py_fp2.vals(asn) == (V2 { c0: pv.y, c1: 0 }));
            assert(line.vals(asn) == g2_astep_line(lambda.vals(asn), pv));
        }
    }
    (r_new, line)
}

/// One iteration of the Miller loop: square the accumulator, double the
/// running point and fold in its placeholder line, and, when the bit is
/// set, add the input point and fold in its chord line.
fn miller_iter(builder: &mut CircuitCtx, p: &G1Point, q: &G2Point, f: &Fp12, r: &G2Point, bit: u8) -> (res: (
    Fp12,
    G2Point,
))
    requires
        ctx_wf(*old(builder)),
        p.wf(*old(builder)),
        q.wf(*old(builder)),
        f.wf(*old(builder)),
        r.wf(*old(builder)),
        bit == 0 || bit == 1,
    ensures
        gadget_frame(*old(builder), *final(builder), miller_step_gates(bit as int)),
        res.0.wf(*final(builder)),
        res.1.wf(*final(builder)),
        forall|asn: Seq<int>|
            #[trigger] sat(*final(builder), asn) ==> miller_step(
                p.vals(asn),
                q.vals(asn),
                bit as int,
                f.vals(asn),
                r.vals(asn),
                res.0.vals(asn),
                res.1.vals(asn),
            ),
        forall|asn0: Seq<int>|
            #[trigger] sat(*old(builder), asn0) && asn0.len() == old(builder).gates@.len() && (
            exists|f2: V12, r2: Pt2V|
                #[trigger] miller_step(
                    p.vals(asn0),
                    q.vals(asn0),
                    bit as int,
                    f.vals(asn0),
                    r.vals(asn0),
                    f2,
                    r2,
                )) ==> exists|asn: Seq<int>|
                #[trigger] sat(*final(builder), asn) && asn.len() == final(builder).gates@.len()
                    && asn0.is_prefix_of(asn),
{
    broadcast use lemma_extends_gate_back;

    let ghost c_in = *builder;
    let fsq = Fp12::square(builder, f);
    let ghost s1 = *builder;
    let (r2, ell_d) = g2_double_step(builder, r, p);
    let ghost s2 = *builder;
    let f1 = Fp12::mul(builder, &ell_d, &fsq);
    let ghost s3 = *builder;
    if bit == 1 {
        let (r3, ell_a) = g2_add_step(builder, &r2, q, p);
        let ghost s4 = *builder;
        let f2 = Fp12::mul(builder, &ell_a, &f1);
        proof {
            lemma_extends_trans(s3, s4, *builder);
            lemma_extends_trans(s2, s3, *builder);
            lemma_extends_trans(s1, s2, *builder);
            lemma_extends_trans(c_in, s1, *builder);
            assert forall|asn: Seq<int>| #[trigger] sat(*builder, asn) implies miller_step(
                p.vals(asn),
                q.vals(asn),
                bit as int,
                f.vals(asn),
                r.vals(asn),
                f2.vals(asn),
                r3.vals(asn),
            ) by {
                reveal(miller_step);
                let pv = p.vals(asn);
                let qv = q.vals(asn);
                let fin = f.vals(asn);
                let rin = r.vals(asn);
                lemma_sat_extends(s1, *builder, asn);
                lemma_sat_extends(s2, *builder, asn);
                lemma_sat_extends(s3, *builder, asn);
                lemma_sat_extends(s4, *builder, asn);
                assert(fsq.vals(asn) == v12_mul(fin, fin));
                assert(g2_double_rel(rin, r2.vals(asn)));
                assert(f1.vals(asn) == v12_mul(v12_one(), v12_mul(fin, fin)));
                assert(g2_astep_rel(r2.vals(asn), qv, pv, r3.vals(asn), ell_a.vals(asn)));
                assert(f2.vals(asn) == v12_mul(ell_a.vals(asn), f1.vals(asn)));
            }
            assert forall|asn0: Seq<int>|
                #[trigger] sat(c_in, asn0) && asn0.len() == c_in.gates@.len() && (exists|
                fc: V12,
                rc: Pt2V,
            |
                #[trigger] miller_step(
                    p.vals(asn0),
                    q.vals(asn0),
                    bit as int,
                    f.vals(asn0),
                    r.vals(asn0),
                    fc,
                    rc,
                )) implies exists|asn: Seq<int>|
                #[trigger] sat(*builder, asn) && asn.len() == builder.gates@.len()
                    && asn0.is_prefix_of(asn) by {
                reveal(miller_step);
                let pv = p.vals(asn0);
                let qv = q.vals(asn0);
                let fv = f.vals(asn0);
                let rv = r.vals(asn0);
                let (fc, rc) = choose|fc: V12, rc: Pt2V|
                    #[trigger] miller_step(pv, qv, bit as int, fv, rv, fc, rc);
                let rd = choose|rd: Pt2V|
                    #[trigger] g2_double_rel(rv, rd) && {
                        let fone = v12_mul(v12_one(), v12_mul(fv, fv));
                        exists|la: V12|
                            #[trigger] g2_astep_rel(rd, qv, pv, rc, la) && fc == v12_mul(la, fone)
                    };
                // the tangent denominator of the running point is invertible
                lemma_double_rel_invertible(rv, rd);
                let asn1 = choose|asn1: Seq<int>|
                    #[trigger] sat(s1, asn1) && asn1.len() == s1.gates@.len() && asn0.is_prefix_of(
                        asn1,
                    );
                lemma_prefix_index(asn0, asn1, r.y.c0 as int);
                lemma_prefix_index(asn0, asn1, r.y.c1 as int);
                assert(r.vals(asn1).y == rv.y);
                let asn2 = choose|asn2: Seq<int>|
                    #[trigger] sat(s2, asn2) && asn2.len() == s2.gates@.len() && asn1.is_prefix_of(
                        asn2,
                    );
                let asn3 = choose|asn3: Seq<int>|
                    #[trigger] sat(s3, asn3) && asn3.len() == s3.gates@.len() && asn2.is_prefix_of(
                        asn3,
                    );
                // the doubled point's value is the chain's doubled point
                lemma_prefix_trans(asn0, asn1, asn2);
                assert forall|w: int| 0 <= w < c_in.gates@.len() implies asn2[w] == asn0[w] by {
                    lemma_prefix_index(asn0, asn2, w);
                }
                assert(r.vals(asn2) == rv);
                assert(g2_double_rel(r.vals(asn2), r2.vals(asn2)));
                crate::ec::lemma_g2_double_rel_unique(rv, rd, r2.vals(asn2));
                lemma_prefix_index(asn2, asn3, r2.x.c0 as int);
                lemma_prefix_index(asn2, asn3, r2.x.c1 as int);
                lemma_prefix_index(asn2, asn3, r2.y.c0 as int);
                lemma_prefix_index(asn2, asn3, r2.y.c1 as int);
                assert(r2.vals(asn3) == rd);
                lemma_prefix_trans(asn0, asn2, asn3);
                assert forall|w: int| 0 <= w < c_in.gates@.len() implies asn3[w] == asn0[w] by {
                    lemma_prefix_index(asn0, asn3, w);
                }
                assert(q.vals(asn3) == qv);
                // the chord denominator against the fixed point is invertible
                let la = choose|la: V12|
                    #[trigger] g2_astep_rel(rd, qv, pv, rc, la) && fc == v12_mul(
                        la,
                        v12_mul(v12_one(), v12_mul(fv, fv)),
                    );
                lemma_astep_rel_invertible(rd, qv, pv, rc, la);
                let asn4 = choose|asn4: Seq<int>|
                    #[trigger] sat(s4, asn4) && asn4.len() == s4.gates@.len() && asn3.is_prefix_of(
                        asn4,
                    );
                let asn5 = choose|asn5: Seq<int>|
                    #[trigger] sat(*builder, asn5) && asn5.len() == builder.gates@.len()
                        && asn4.is_prefix_of(asn5);
                lemma_prefix_trans(asn0, asn3, asn4);
                lemma_prefix_trans(asn0, asn4, asn5);
                assert(sat(*builder, asn5) && asn5.len() == builder.gates@.len()
                    && asn0.is_prefix_of(asn5));
            }
        }
        (f2, r3)
    } else {
        proof {
            lemma_extends_trans(s2, s3, *builder);
            lemma_extends_trans(s1, s2, *builder);
            lemma_extends_trans(c_in, s1, *builder);
            assert forall|asn: Seq<int>| #[trigger] sat(*builder, asn) implies miller_step(
                p.vals(asn),
                q.vals(asn),
                bit as int,
                f.vals(asn),
                r.vals(asn),
                f1.vals(asn),
                r2.vals(asn),
            ) by {
                reveal(miller_step);
                let fin = f.vals(asn);
                let rin = r.vals(asn);
                lemma_sat_extends(s1, *builder, asn);
                lemma_sat_extends(s2, *builder, asn);
                assert(fsq.vals(asn) == v12_mul(fin, fin));
                assert(g2_double_rel(rin, r2.vals(asn)));
                assert(f1.vals(asn) == v12_mul(v12_one(), v12_mul(fin, fin)));
            }
            assert forall|asn0: Seq<int>|
                #[trigger] sat(c_in, asn0) && asn0.len() == c_in.gates@.len() && (exists|
                fc: V12,
                rc: Pt2V,
            |
                #[trigger] miller_step(
                    p.vals(asn0),
                    q.vals(asn0),
                    bit as int,
                    f.vals(asn0),
                    r.vals(asn0),
                    fc,
                    rc,
                )) implies exists|asn: Seq<int>|
                #[trigger] sat(*builder, asn) && asn.len() == builder.gates@.len()
                    && asn0.is_prefix_of(asn) by {
                reveal(miller_step);
                let pv = p.vals(asn0);
                let qv = q.vals(asn0);
                let fv = f.vals(asn0);
                let rv = r.vals(asn0);
                let (fc, rc) = choose|fc: V12, rc: Pt2V|
                    #[trigger] miller_step(pv, qv, bit as int, fv, rv, fc, rc);
                let rd = choose|rd: Pt2V|
                    #[trigger] g2_double_rel(rv, rd) && {
                        let fone = v12_mul(v12_one(), v12_mul(fv, fv));
                        fc == fone && rc == rd
                    };
                lemma_double_rel_invertible(rv, rd);
                let asn1 = choose|asn1: Seq<int>|
                    #[trigger] sat(s1, asn1) && asn1.len() == s1.gates@.len() && asn0.is_prefix_of(
                        asn1,
                    );
                lemma_prefix_index(asn0, asn1, r.y.c0 as int);
                lemma_prefix_index(asn0, asn1, r.y.c1 as int);
                assert(r.vals(asn1).y == rv.y);
                let asn2 = choose|asn2: Seq<int>|
                    #[trigger] sat(s2, asn2) && asn2.len() == s2.gates@.len() && asn1.is_prefix_of(
                        asn2,
                    );
                let asn3 = choose|asn3: Seq<int>|
                    #[trigger] sat(s3, asn3) && asn3.len() == s3.gates@.len() && asn2.is_prefix_of(
                        asn3,
                    );
                lemma_prefix_trans(asn0, asn1, asn2);
                lemma_prefix_trans(asn0, asn2, asn3);
                assert(sat(*builder, asn3) && asn3.len() == builder.gates@.len()
                    && asn0.is_prefix_of(asn3));
            }
        }
        (f1, r2)
    }
}

/// Advancing the step chain: if the accumulator and running point satisfy
/// the chain after `i` bits and one more iteration's step relation binds
/// them to the new pair, the new pair satisfies the chain after `i + 1`.
proof fn lemma_miller_chain(
    c_in: CircuitCtx,
    cfin: CircuitCtx,
    p: G1Point,
    q: G2Point,
    f_in: Fp12,
    r_in: G2Point,
    f2: Fp12,
    r2: G2Point,
    i: int,
    b: int,
)
    requires
        0 <= i,
        b == miller_bit(i),
        extends(c_in, cfin),
        forall|asn: Seq<int>|
            sat(c_in, asn) ==> miller_rel(
                p.vals(asn),
                q.vals(asn),
                i,
                #[trigger] f_in.vals(asn),
                r_in.vals(asn),
            ),
        forall|asn: Seq<int>|
            #[trigger] sat(cfin, asn) ==> miller_step(
                p.vals(asn),
                q.vals(asn),
                b,
                f_in.vals(asn),
                r_in.vals(asn),
                f2.vals(asn),
                r2.vals(asn),
            ),
    ensures
        forall|asn: Seq<int>|
            sat(cfin, asn) ==> miller_rel(
                p.vals(asn),
                q.vals(asn),
                i + 1,
                #[trigger] f2.vals(asn),
                r2.vals(asn),
            ),
{
    assert forall|asn: Seq<int>| sat(cfin, asn) implies miller_rel(
        p.vals(asn),
        q.vals(asn),
        i + 1,
        #[trigger] f2.vals(asn),
        r2.vals(asn),
    ) by {
        let pv = p.vals(asn);
        let qv = q.vals(asn);
        let fin = f_in.vals(asn);
        let rin = r_in.vals(asn);
        lemma_sat_extends(c_in, cfin, asn);
        assert(miller_rel(pv, qv, i, fin, rin));
        assert(miller_step(pv, qv, miller_bit(i + 1 - 1), fin, rin, f2.vals(asn), r2.vals(asn)));
    }
}

/// The Miller loop: starting from the identity accumulator and the twist
/// input point, square, double and conditionally add for each bit of the
/// fixed sequence.  The loop emits exactly `miller_gate_total()` gates,
/// whatever the input points, and under every satisfying assignment the
/// output value closes the step chain of `miller_rel`.
pub fn miller_loop(builder: &mut CircuitCtx, p: &G1Point, q: &G2Point) -> (f: Fp12)
    requires
        ctx_wf(*old(builder)),
        p.wf(*old(builder)),
        q.wf(*old(builder)),
    ensures
        gadget_frame(*old(builder), *final(builder), miller_gate_total()),
        f.wf(*final(builder)),
        forall|asn: Seq<int>|
            #[trigger] sat(*final(builder), asn) ==> exists|rr: Pt2V|
                #[trigger] miller_rel(
                    p.vals(asn),
                    q.vals(asn),
                    MILLER_BITS as int,
                    f.vals(asn),
                    rr,
                ),
        forall|asn0: Seq<int>|
            #[trigger] sat(*old(builder), asn0) && asn0.len() == old(builder).gates@.len()
                && miller_can(p.vals(asn0), q.vals(asn0), 0, v12_one(), q.vals(asn0)) ==> exists|
            asn: Seq<int>,
            |
                #[trigger] sat(*final(builder), asn) && asn.len() == final(builder).gates@.len()
                    && asn0.is_prefix_of(asn),
{
    let mut f = Fp12::one(builder);
    let ghost c_base = *builder;
    let mut r = G2Point { x: q.x, y: q.y };
    proof {
        assert forall|asn0: Seq<int>|
            #[trigger] sat(*old(builder), asn0) && asn0.len() == old(builder).gates@.len()
                && miller_can(p.vals(asn0), q.vals(asn0), 0, v12_one(), q.vals(asn0)) implies exists|
            asni: Seq<int>,
        |
            #[trigger] sat(c_base, asni) && asni.len() == c_base.gates@.len() && asn0.is_prefix_of(
                asni,
            ) && miller_can(p.vals(asn0), q.vals(asn0), 0, f.vals(asni), r.vals(asni)) by {
            let asni = choose|asni: Seq<int>|
                #[trigger] sat(c_base, asni) && asni.len() == c_base.gates@.len()
                    && asn0.is_prefix_of(asni);
            assert(f.vals(asni) == v12_one());
            lemma_prefix_index(asn0, asni, q.x.c0 as int);
            lemma_prefix_index(asn0, asni, q.x.c1 as int);
            lemma_prefix_index(asn0, asni, q.y.c0 as int);
            lemma_prefix_index(asn0, asni, q.y.c1 as int);
            assert(r.vals(asni) == q.vals(asn0));
            assert(sat(c_base, asni) && asni.len() == c_base.gates@.len() && asn0.is_prefix_of(
                asni,
            ) && miller_can(p.vals(asn0), q.vals(asn0), 0, f.vals(asni), r.vals(asni)));
        }
    }
    let mut i: usize = 0;
    while i < MILLER_BITS
        invariant
            i <= MILLER_BITS,
            ctx_wf(*builder),
            extends(*old(builder), *builder),
            builder.eqs@ == old(builder).eqs@,
            builder.hashes@ == old(builder).hashes@,
            builder.pub_inputs@ == old(builder).pub_inputs@,
            builder.gates@.len() == old(builder).gates@.len() + 2 + miller_gates_upto(i as int),
            forall|j: int|
                old(builder).gates@.len() <= j < builder.gates@.len() ==> !((
                #[trigger] builder.gates@[j]) is Input),
            p.wf(*builder),
            q.wf(*builder),
            f.wf(*builder),
            r.wf(*builder),
            forall|asn: Seq<int>|
                sat(*builder, asn) ==> miller_rel(
                    p.vals(asn),
                    q.vals(asn),
                    i as int,
                    #[trigger] f.vals(asn),
                    r.vals(asn),
                ),
            p.wf(*old(builder)),
            q.wf(*old(builder)),
            forall|asn0: Seq<int>|
                #[trigger] sat(*old(builder), asn0) && asn0.len() == old(builder).gates@.len()
                    && miller_can(p.vals(asn0), q.vals(asn0), 0, v12_one(), q.vals(asn0))
                    ==> exists|asni: Seq<int>|
                    #[trigger] sat(*builder, asni) && asni.len() == builder.gates@.len()
                        && asn0.is_prefix_of(asni) && miller_can(
                        p.vals(asn0),
                        q.vals(asn0),
                        i as int,
                        f.vals(asni),
                        r.vals(asni),
                    ),
        decreases MILLER_BITS - i,
    {
        let ghost c_in = *builder;
        let ghost f_in = f;
        let ghost r_in = r;
        let bit = ate_bit(i);
        let (f2, r2) = miller_iter(builder, p, q, &f, &r, bit);
        f = f2;
        r = r2;
        proof {
            lemma_extends_trans(*old(builder), c_in, *builder);
            lemma_miller_chain(c_in, *builder, *p, *q, f_in, r_in, f, r, i as int, bit as int);
            assert forall|asn0: Seq<int>|
                #[trigger] sat(*old(builder), asn0) && asn0.len() == old(builder).gates@.len()
                    && miller_can(p.vals(asn0), q.vals(asn0), 0, v12_one(), q.vals(asn0)) implies exists|
                asni: Seq<int>,
            |
                #[trigger] sat(*builder, asni) && asni.len() == builder.gates@.len()
                    && asn0.is_prefix_of(asni) && miller_can(
                    p.vals(asn0),
                    q.vals(asn0),
                    i as int + 1,
                    f.vals(asni),
                    r.vals(asni),
                ) by {
                let pv = p.vals(asn0);
                let qv = q.vals(asn0);
                assert(exists|asni: Seq<int>|
                    #[trigger] sat(c_in, asni) && asni.len() == c_in.gates@.len()
                        && asn0.is_prefix_of(asni) && miller_can(
                        pv,
                        qv,
                        i as int,
                        f_in.vals(asni),
                        r_in.vals(asni),
                    ));
                let asni = choose|asni: Seq<int>|
                    #[trigger] sat(c_in, asni) && asni.len() == c_in.gates@.len()
                        && asn0.is_prefix_of(asni) && miller_can(
                        pv,
                        qv,
                        i as int,
                        f_in.vals(asni),
                        r_in.vals(asni),
                    );
                assert(asn0.is_prefix_of(asni) && asni.len() == c_in.gates@.len());
                lemma_prefix_index(asn0, asni, p.x as int);
                lemma_prefix_index(asn0, asni, p.y as int);
                lemma_prefix_index(asn0, asni, q.x.c0 as int);
                lemma_prefix_index(asn0, asni, q.x.c1 as int);
                lemma_prefix_index(asn0, asni, q.y.c0 as int);
                lemma_prefix_index(asn0, asni, q.y.c1 as int);
                assert(p.vals(asni) == pv && q.vals(asni) == qv);
                // the chain supplies the next step
                let (fc, rc) = choose|fc: V12, rc: Pt2V|
                    #[trigger] miller_step(
                        pv,
                        qv,
                        miller_bit(i as int),
                        f_in.vals(asni),
                        r_in.vals(asni),
                        fc,
                        rc,
                    ) && miller_can(pv, qv, i as int + 1, fc, rc);
                // the iteration's gates stay satisfiable
                let asnj = choose|asnj: Seq<int>|
                    #[trigger] sat(*builder, asnj) && asnj.len() == builder.gates@.len()
                        && asni.is_prefix_of(asnj);
                assert forall|w: int| 0 <= w < asni.len() implies asnj[w] == asni[w] by {
                    lemma_prefix_index(asni, asnj, w);
                }
                assert(f_in.vals(asnj) == f_in.vals(asni) && r_in.vals(asnj) == r_in.vals(asni));
                assert(p.vals(asnj) == pv && q.vals(asnj) == qv);
                // the new accumulator and point are the chain's next state
                assert(miller_step(
                    pv,
                    qv,
                    bit as int,
                    f_in.vals(asni),
                    r_in.vals(asni),
                    f.vals(asnj),
                    r.vals(asnj),
                ));
                lemma_miller_step_unique(
                    pv,
                    qv,
                    bit as int,
                    f_in.vals(asni),
                    r_in.vals(asni),
                    fc,
                    rc,
                    f.vals(asnj),
                    r.vals(asnj),
                );
                lemma_prefix_trans(asn0, asni, asnj);
                assert(sat(*builder, asnj) && asnj.len() == builder.gates@.len()
                    && asn0.is_prefix_of(asnj) && miller_can(
                    pv,
                    qv,
                    i as int + 1,
                    f.vals(asnj),
                    r.vals(asnj),
                ));
            }
            assert forall|j: int|
                old(builder).gates@.len() <= j < builder.gates@.len() implies !((
            #[trigger] builder.gates@[j]) is Input) by {
                if j < c_in.gates@.len() {
                    lemma_extends_gate(c_in, *builder, j);
                }
            }
        }
        i = i + 1;
    }
    proof {
        assert forall|asn: Seq<int>| #[trigger] sat(*builder, asn) implies exists|rr: Pt2V|
            #[trigger] miller_rel(
                p.vals(asn),
                q.vals(asn),
                MILLER_BITS as int,
                f.vals(asn),
                rr,
            ) by {
            assert(miller_rel(
                p.vals(asn),
                q.vals(asn),
                MILLER_BITS as int,
                f.vals(asn),
                r.vals(asn),
            ));
        }
    }
    f
}

/// How the final exponentiation constrains its output: the easy part
/// `conjugate(f) * inverse(f)` followed by the simplified squaring chain
/// `f1^2 * f1^4 * f1^16`.
pub open spec fn fexp_rel(fv: V12, res: V12) -> bool {
    exists|fi: V12|
        #[trigger] v12_inv_rel(fv, fi) && {
            let f1 = v12_mul(v12_conj(fv), fi);
            let f1_sq = v12_mul(f1, f1);
            let f1_quad = v12_mul(f1_sq, f1_sq);
            let f1_8 = v12_mul(f1_quad, f1_quad);
            let f1_16 = v12_mul(f1_8, f1_8);
            res == v12_mul(v12_mul(f1_sq, f1_quad), f1_16)
        }
}

/// The final exponentiation: the easy part lands the accumulator in the
/// conjugate-over-inverse coset; the hard part is the simplified squaring
/// chain `f1^2 * f1^4 * f1^16`.
pub fn final_exponentiation(builder: &mut CircuitCtx, f: &Fp12) -> (result: Fp12)
    requires
        ctx_wf(*old(builder)),
        f.wf(*old(builder)),
    ensures
        gadget_frame(*old(builder), *final(builder), 2595),
        result.wf(*final(builder)),
        forall|asn: Seq<int>|
            sat(*final(builder), asn) ==> fexp_rel(f.vals(asn), #[trigger] result.vals(asn)),
        forall|asn0: Seq<int>|
            #[trigger] sat(*old(builder), asn0) && asn0.len() == old(builder).gates@.len()
                && invertible(v2_norm(v6_denom(v12_norm(f.vals(asn0))))) ==> exists|asn: Seq<int>|
                #[trigger] sat(*final(builder), asn) && asn.len() == final(builder).gates@.len()
                    && asn0.is_prefix_of(asn),
{
    broadcast use lemma_sat_extends, lemma_extends_trans, lemma_extends_gate_back;

    let f_inv = Fp12::inverse(builder, f);
    let ghost s1 = *builder;
    let f_conj = Fp12::conjugate(builder, f);
    let ghost s2 = *builder;
    let f1 = Fp12::mul(builder, &f_conj, &f_inv);
    let ghost s3 = *builder;
    let f1_sq = Fp12::square(builder, &f1);
    let ghost s4 = *builder;
    let f1_quad = Fp12::square(builder, &f1_sq);
    let ghost s5 = *builder;
    let f1_8 = Fp12::square(builder, &f1_quad);
    let ghost s6 = *builder;
    let f1_16 = Fp12::square(builder, &f1_8);
    let ghost s7 = *builder;
    let temp = Fp12::mul(builder, &f1_sq, &f1_quad);
    let ghost s8 = *builder;
    let result = Fp12::mul(builder, &temp, &f1_16);
    proof {
        lemma_inv_free_extendable(s1, *builder);
        assert forall|asn0: Seq<int>|
            #[trigger] sat(*old(builder), asn0) && asn0.len() == old(builder).gates@.len()
                && invertible(v2_norm(v6_denom(v12_norm(f.vals(asn0))))) implies exists|
            asn: Seq<int>,
        |
            #[trigger] sat(*builder, asn) && asn.len() == builder.gates@.len()
                && asn0.is_prefix_of(asn) by {
            // the inversion's own extension clause covers the easy part
            let asn1 = choose|asn1: Seq<int>|
                #[trigger] sat(s1, asn1) && asn1.len() == s1.gates@.len() && asn0.is_prefix_of(
                    asn1,
                );
            // the squaring chain fills forward
            let asn2 = choose|asn2: Seq<int>|
                #[trigger] sat(*builder, asn2) && asn2.len() == builder.gates@.len()
                    && asn1.is_prefix_of(asn2);
            lemma_prefix_trans(asn0, asn1, asn2);
            assert(sat(*builder, asn2) && asn2.len() == builder.gates@.len() && asn0.is_prefix_of(
                asn2,
            ));
        }
        assert forall|asn: Seq<int>| sat(*builder, asn) implies fexp_rel(
            f.vals(asn),
            #[trigger] result.vals(asn),
        ) by {
            let fv = f.vals(asn);
            let fi = f_inv.vals(asn);
            assert(v12_inv_rel(fv, fi));
            assert(f_conj.vals(asn) == v12_conj(fv));
            assert(f1.vals(asn) == v12_mul(v12_conj(fv), fi));
        }
    }
    result
}

} // verus!
