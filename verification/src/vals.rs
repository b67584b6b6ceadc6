//! Value-level model of the extension tower: what the coordinates of a
//! degree-2 / degree-6 / degree-12 element are, as canonical residues, and
//! the field operations on them.  Gadget contracts state the values of their
//! output wires in terms of these operations.
//!
//! The tower is `F(u)` with `u^2 = -1`, then `F(u)(v)` with `v^3 = xi` for
//! the non-residue `xi = 1 + u`, then `F(u)(v)(w)` with `w^2 = v`.
//!
//! Beside each canonical operation stands an all-integer counterpart (the
//! `j`-prefixed functions, computed without reduction); the proofs relate the
//! two and carry ring identities over from plain integers.
use vstd::prelude::*;
use crate::gf::{fadd, fsub, fmul, fneg, fc, in_field};

verus! {

/// A degree-2 element by its coordinates: `c0 + c1 * u`.
pub ghost struct V2 {
    pub c0: int,
    pub c1: int,
}

/// A degree-6 element by its degree-2 coordinates: `c0 + c1 * v + c2 * v^2`.
pub ghost struct V6 {
    pub c0: V2,
    pub c1: V2,
    pub c2: V2,
}

/// A degree-12 element by its degree-6 coordinates: `c0 + c1 * w`.
pub ghost struct V12 {
    pub c0: V6,
    pub c1: V6,
}

// ---------------------------------------------------------------- degree 2

pub open spec fn v2_canon(x: V2) -> bool {
    in_field(x.c0) && in_field(x.c1)
}

pub open spec fn v2_zero() -> V2 {
    V2 { c0: 0, c1: 0 }
}

pub open spec fn v2_one() -> V2 {
    V2 { c0: 1, c1: 0 }
}

/// The non-residue `xi = 1 + u` whose cube root generates the degree-6 level.
pub open spec fn v2_xi() -> V2 {
    V2 { c0: 1, c1: 1 }
}

pub open spec fn v2_add(x: V2, y: V2) -> V2 {
    V2 { c0: fadd(x.c0, y.c0), c1: fadd(x.c1, y.c1) }
}

pub open spec fn v2_sub(x: V2, y: V2) -> V2 {
    V2 { c0: fsub(x.c0, y.c0), c1: fsub(x.c1, y.c1) }
}

pub open spec fn v2_neg(x: V2) -> V2 {
    V2 { c0: fneg(x.c0), c1: fneg(x.c1) }
}

/// `(a + b u)(c + d u) = (ac - bd) + (ad + bc) u`, coordinates reduced.
pub open spec fn v2_mul(x: V2, y: V2) -> V2 {
    fc2(j2_mul(x, y))
}

/// Coordinate-wise scaling by a base-field value.
pub open spec fn v2_scale(x: V2, s: int) -> V2 {
    V2 { c0: fmul(x.c0, s), c1: fmul(x.c1, s) }
}

/// Multiplication by the fixed non-residue `xi = 1 + u`, written out.
pub open spec fn v2_nr(x: V2) -> V2 {
    fc2(j2_nr(x))
}

/// The norm `c0^2 + c1^2` used by the degree-2 inversion gadget.
pub open spec fn v2_norm(x: V2) -> int {
    fc(x.c0 * x.c0 + x.c1 * x.c1)
}

/// How the degree-2 inversion gadget constrains its result: some witness `d`
/// inverts the norm, and the result is the conjugate scaled by `d`.
pub open spec fn v2_inv_rel(x: V2, r: V2) -> bool {
    exists|d: int|
        in_field(d) && #[trigger] fmul(v2_norm(x), d) == 1 && r == V2 {
            c0: fmul(x.c0, d),
            c1: fmul(fneg(x.c1), d),
        }
}

// integer (unreduced) counterparts

pub open spec fn j2_add(x: V2, y: V2) -> V2 {
    V2 { c0: x.c0 + y.c0, c1: x.c1 + y.c1 }
}

pub open spec fn j2_sub(x: V2, y: V2) -> V2 {
    V2 { c0: x.c0 - y.c0, c1: x.c1 - y.c1 }
}

pub open spec fn j2_neg(x: V2) -> V2 {
    V2 { c0: -x.c0, c1: -x.c1 }
}

pub open spec fn j2_mul(x: V2, y: V2) -> V2 {
    V2 {
        c0: x.c0 * y.c0 - x.c1 * y.c1,
        c1: x.c0 * y.c1 + x.c1 * y.c0,
    }
}

pub open spec fn j2_nr(x: V2) -> V2 {
    V2 { c0: x.c0 - x.c1, c1: x.c0 + x.c1 }
}

/// Canonicalise both coordinates.
pub open spec fn fc2(x: V2) -> V2 {
    V2 { c0: fc(x.c0), c1: fc(x.c1) }
}

// ---------------------------------------------------------------- degree 6

pub open spec fn v6_canon(x: V6) -> bool {
    v2_canon(x.c0) && v2_canon(x.c1) && v2_canon(x.c2)
}

pub open spec fn v6_zero() -> V6 {
    V6 { c0: v2_zero(), c1: v2_zero(), c2: v2_zero() }
}

pub open spec fn v6_one() -> V6 {
    V6 { c0: v2_one(), c1: v2_zero(), c2: v2_zero() }
}

/// The degree-6 element `v`, the non-residue of the degree-12 level.
pub open spec fn v6_v() -> V6 {
    V6 { c0: v2_zero(), c1: v2_one(), c2: v2_zero() }
}

pub open spec fn v6_add(x: V6, y: V6) -> V6 {
    V6 { c0: v2_add(x.c0, y.c0), c1: v2_add(x.c1, y.c1), c2: v2_add(x.c2, y.c2) }
}

pub open spec fn v6_sub(x: V6, y: V6) -> V6 {
    V6 { c0: v2_sub(x.c0, y.c0), c1: v2_sub(x.c1, y.c1), c2: v2_sub(x.c2, y.c2) }
}

pub open spec fn v6_neg(x: V6) -> V6 {
    V6 { c0: v2_neg(x.c0), c1: v2_neg(x.c1), c2: v2_neg(x.c2) }
}

/// Schoolbook product with the wrap-around terms multiplied by `xi`
/// (`v^3 = xi`), coordinates reduced.
pub open spec fn v6_mul(x: V6, y: V6) -> V6 {
    fc6(j6_mul(x, y))
}

/// Multiplication by `v`: shift the coordinates and wrap the top one
/// through `xi`.
pub open spec fn v6_nr(x: V6) -> V6 {
    fc6(j6_nr(x))
}

// the adjugate coordinates the degree-6 inversion gadget computes, unreduced

pub open spec fn j6_t0(x: V6) -> V2 {
    j2_sub(j2_mul(x.c0, x.c0), j2_nr(j2_mul(x.c1, x.c2)))
}

pub open spec fn j6_t1(x: V6) -> V2 {
    j2_sub(j2_nr(j2_mul(x.c2, x.c2)), j2_mul(x.c0, x.c1))
}

pub open spec fn j6_t2(x: V6) -> V2 {
    j2_sub(j2_mul(x.c1, x.c1), j2_mul(x.c0, x.c2))
}

pub open spec fn j6_denom(x: V6) -> V2 {
    j2_add(
        j2_mul(x.c0, j6_t0(x)),
        j2_nr(j2_add(j2_mul(x.c2, j6_t1(x)), j2_mul(x.c1, j6_t2(x)))),
    )
}

/// The adjugate coordinates `c0^2 - xi c1 c2`, `xi c2^2 - c0 c1`,
/// `c1^2 - c0 c2` of the degree-6 inversion, reduced.
pub open spec fn v6_t0(x: V6) -> V2 {
    fc2(j6_t0(x))
}

pub open spec fn v6_t1(x: V6) -> V2 {
    fc2(j6_t1(x))
}

pub open spec fn v6_t2(x: V6) -> V2 {
    fc2(j6_t2(x))
}

/// The degree-2 denominator `c0 t0 + xi (c2 t1 + c1 t2)` of the degree-6
/// inversion: the norm of the element down to the degree-2 level.
pub open spec fn v6_denom(x: V6) -> V2 {
    fc2(j6_denom(x))
}

/// How the degree-6 inversion gadget constrains its result: a degree-2
/// inversion witness for the denominator scales the adjugate coordinates.
pub open spec fn v6_inv_rel(x: V6, r: V6) -> bool {
    exists|d: V2|
        #[trigger] v2_inv_rel(v6_denom(x), d) && r == V6 {
            c0: v2_mul(v6_t0(x), d),
            c1: v2_mul(v6_t1(x), d),
            c2: v2_mul(v6_t2(x), d),
        }
}

pub open spec fn j6_add(x: V6, y: V6) -> V6 {
    V6 { c0: j2_add(x.c0, y.c0), c1: j2_add(x.c1, y.c1), c2: j2_add(x.c2, y.c2) }
}

pub open spec fn j6_sub(x: V6, y: V6) -> V6 {
    V6 { c0: j2_sub(x.c0, y.c0), c1: j2_sub(x.c1, y.c1), c2: j2_sub(x.c2, y.c2) }
}

pub open spec fn j6_neg(x: V6) -> V6 {
    V6 { c0: j2_neg(x.c0), c1: j2_neg(x.c1), c2: j2_neg(x.c2) }
}

pub open spec fn j6_mul(x: V6, y: V6) -> V6 {
    V6 {
        c0: j2_add(j2_mul(x.c0, y.c0), j2_nr(j2_add(j2_mul(x.c1, y.c2), j2_mul(x.c2, y.c1)))),
        c1: j2_add(j2_add(j2_mul(x.c0, y.c1), j2_mul(x.c1, y.c0)), j2_nr(j2_mul(x.c2, y.c2))),
        c2: j2_add(j2_add(j2_mul(x.c0, y.c2), j2_mul(x.c1, y.c1)), j2_mul(x.c2, y.c0)),
    }
}

pub open spec fn j6_nr(x: V6) -> V6 {
    V6 { c0: j2_nr(x.c2), c1: x.c0, c2: x.c1 }
}

pub open spec fn fc6(x: V6) -> V6 {
    V6 { c0: fc2(x.c0), c1: fc2(x.c1), c2: fc2(x.c2) }
}

// --------------------------------------------------------------- degree 12

pub open spec fn v12_canon(x: V12) -> bool {
    v6_canon(x.c0) && v6_canon(x.c1)
}

pub open spec fn v12_zero() -> V12 {
    V12 { c0: v6_zero(), c1: v6_zero() }
}

pub open spec fn v12_one() -> V12 {
    V12 { c0: v6_one(), c1: v6_zero() }
}

/// `(a0 + a1 w)(b0 + b1 w) = (a0 b0 + v a1 b1) + (a0 b1 + a1 b0) w`,
/// coordinates reduced.
pub open spec fn v12_mul(x: V12, y: V12) -> V12 {
    fc12(j12_mul(x, y))
}

pub open spec fn v12_add(x: V12, y: V12) -> V12 {
    V12 { c0: v6_add(x.c0, y.c0), c1: v6_add(x.c1, y.c1) }
}

pub open spec fn v12_sub(x: V12, y: V12) -> V12 {
    V12 { c0: v6_sub(x.c0, y.c0), c1: v6_sub(x.c1, y.c1) }
}

/// Conjugation over the degree-6 subfield: negate the `w` coordinate.
pub open spec fn v12_conj(x: V12) -> V12 {
    V12 { c0: x.c0, c1: v6_neg(x.c1) }
}

/// The degree-6 norm `a0^2 - v a1^2` used by the degree-12 inversion
/// gadget, unreduced and reduced.
pub open spec fn j12_norm(x: V12) -> V6 {
    j6_sub(j6_mul(x.c0, x.c0), j6_nr(j6_mul(x.c1, x.c1)))
}

pub open spec fn v12_norm(x: V12) -> V6 {
    fc6(j12_norm(x))
}

/// How the degree-12 inversion gadget constrains its result: a degree-6
/// inversion witness for the norm scales the conjugate.
pub open spec fn v12_inv_rel(x: V12, r: V12) -> bool {
    exists|d: V6|
        #[trigger] v6_inv_rel(v12_norm(x), d) && r == V12 {
            c0: v6_mul(x.c0, d),
            c1: v6_mul(v6_neg(x.c1), d),
        }
}

pub open spec fn j12_mul(x: V12, y: V12) -> V12 {
    V12 {
        c0: j6_add(j6_mul(x.c0, y.c0), j6_nr(j6_mul(x.c1, y.c1))),
        c1: j6_add(j6_mul(x.c0, y.c1), j6_mul(x.c1, y.c0)),
    }
}

pub open spec fn fc12(x: V12) -> V12 {
    V12 { c0: fc6(x.c0), c1: fc6(x.c1) }
}

} // verus!
