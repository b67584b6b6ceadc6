//! The base prime field: canonical residues modulo the Goldilocks prime,
//! spec-level field operations, and verified executable modular arithmetic
//! used by the witness evaluator.
use vstd::prelude::*;
use vstd::arithmetic::div_mod::*;
use vstd::arithmetic::mul::*;
use vstd::arithmetic::power::*;

verus! {

/// Order of the Goldilocks prime field, 2^64 - 2^32 + 1.
pub const FIELD_ORDER: u64 = 0xFFFF_FFFF_0000_0001;

/// Canonical residue of an integer modulo the field order.
pub open spec fn fc(x: int) -> int {
    x % (FIELD_ORDER as int)
}

/// `x` is a canonical field value.
pub open spec fn in_field(x: int) -> bool {
    0 <= x < FIELD_ORDER as int
}

pub open spec fn fadd(x: int, y: int) -> int {
    fc(x + y)
}

pub open spec fn fsub(x: int, y: int) -> int {
    fc(x - y)
}

pub open spec fn fmul(x: int, y: int) -> int {
    fc(x * y)
}

pub open spec fn fneg(x: int) -> int {
    fc(-x)
}

/// The residue the Fermat exponentiation assigns to `x`; for nonzero field
/// elements this is the multiplicative inverse.
pub open spec fn pinv(x: int) -> int {
    fc(pow(x, (FIELD_ORDER - 2) as nat))
}

/// `x` has a multiplicative inverse: the non-degeneracy hypothesis under
/// which an inversion gadget's constraints stay satisfiable.
pub open spec fn invertible(x: int) -> bool {
    exists|d: int| in_field(d) && #[trigger] fmul(x, d) == 1
}

pub broadcast proof fn lemma_fc_range(x: int)
    ensures
        #[trigger] in_field(fc(x)),
{
    lemma_mod_bound(x, FIELD_ORDER as int);
}

pub broadcast proof fn lemma_fc_id(x: int)
    requires
        in_field(x),
    ensures
        #[trigger] fc(x) == x,
{
    lemma_small_mod(x as nat, FIELD_ORDER as nat);
}

/// Dropping an inner canonicalisation under addition changes nothing.
pub proof fn lemma_fc_add(x: int, y: int)
    ensures
        fc(fc(x) + fc(y)) == fc(x + y),
        fc(fc(x) + y) == fc(x + y),
        fc(x + fc(y)) == fc(x + y),
{
    lemma_add_mod_noop(x, y, FIELD_ORDER as int);
    lemma_add_mod_noop_right(x, y, FIELD_ORDER as int);
    lemma_add_mod_noop_right(y, x, FIELD_ORDER as int);
    lemma_mod_twice(x, FIELD_ORDER as int);
    lemma_mod_twice(y, FIELD_ORDER as int);
    lemma_add_mod_noop(fc(x), y, FIELD_ORDER as int);
    lemma_add_mod_noop(x, fc(y), FIELD_ORDER as int);
}

/// Dropping an inner canonicalisation under subtraction changes nothing.
pub proof fn lemma_fc_sub(x: int, y: int)
    ensures
        fc(fc(x) - fc(y)) == fc(x - y),
        fc(fc(x) - y) == fc(x - y),
        fc(x - fc(y)) == fc(x - y),
{
    lemma_sub_mod_noop(x, y, FIELD_ORDER as int);
    lemma_sub_mod_noop_right(x, y, FIELD_ORDER as int);
    lemma_mod_twice(x, FIELD_ORDER as int);
    lemma_mod_twice(y, FIELD_ORDER as int);
    lemma_sub_mod_noop(fc(x), y, FIELD_ORDER as int);
    lemma_sub_mod_noop(x, fc(y), FIELD_ORDER as int);
}

/// Dropping an inner canonicalisation under multiplication changes nothing.
pub proof fn lemma_fc_mul(x: int, y: int)
    ensures
        fc(fc(x) * fc(y)) == fc(x * y),
        fc(fc(x) * y) == fc(x * y),
        fc(x * fc(y)) == fc(x * y),
{
    lemma_mul_mod_noop_general(x, y, FIELD_ORDER as int);
}

pub proof fn lemma_fc_twice(x: int)
    ensures
        fc(fc(x)) == fc(x),
{
    lemma_mod_twice(x, FIELD_ORDER as int);
}

/// A multiplicative inverse is unique: two canonical values that both
/// multiply `v` to one are equal.
pub proof fn lemma_inverse_unique(v: int, d1: int, d2: int)
    requires
        in_field(d1),
        in_field(d2),
        fmul(v, d1) == 1,
        fmul(v, d2) == 1,
    ensures
        d1 == d2,
{
    // d1 == d1 * (v * d2) == (d1 * v) * d2 == d2, all modulo the order
    lemma_fc_id(d1);
    lemma_fc_id(d2);
    lemma_fc_id(1int);
    lemma_fc_mul(d1, v * d2);
    lemma_mul_is_associative(d1, v, d2);
    lemma_fc_mul(d1 * v, d2);
    lemma_mul_is_commutative(d1, v);
    assert(fc(d1 * fc(v * d2)) == fc(fc(v * d1) * d2));
    assert(fc(d1 * 1) == fc(1 * d2));
}

/// Sum of two canonical field values, reduced.
pub fn add_m(a: u64, b: u64) -> (r: u64)
    requires
        in_field(a as int),
        in_field(b as int),
    ensures
        r as int == fadd(a as int, b as int),
        in_field(r as int),
{
    proof {
        lemma_fc_range(a as int + b as int);
    }
    let s: u128 = a as u128 + b as u128;
    (s % (FIELD_ORDER as u128)) as u64
}

/// Difference of two canonical field values, reduced.
pub fn sub_m(a: u64, b: u64) -> (r: u64)
    requires
        in_field(a as int),
        in_field(b as int),
    ensures
        r as int == fsub(a as int, b as int),
        in_field(r as int),
{
    if a >= b {
        proof {
            lemma_small_mod((a - b) as nat, FIELD_ORDER as nat);
        }
        a - b
    } else {
        proof {
            lemma_mod_add_multiples_vanish(a as int - b as int, FIELD_ORDER as int);
            lemma_small_mod((a as int + FIELD_ORDER as int - b as int) as nat, FIELD_ORDER as nat);
        }
        a + (FIELD_ORDER - b)
    }
}

/// Negation of a canonical field value, reduced.
pub fn neg_m(a: u64) -> (r: u64)
    requires
        in_field(a as int),
    ensures
        r as int == fneg(a as int),
        in_field(r as int),
{
    if a == 0 {
        proof {
            lemma_small_mod(0nat, FIELD_ORDER as nat);
        }
        0
    } else {
        proof {
            lemma_mod_add_multiples_vanish(-(a as int), FIELD_ORDER as int);
            lemma_small_mod((FIELD_ORDER - a) as nat, FIELD_ORDER as nat);
        }
        FIELD_ORDER - a
    }
}

/// Product of two canonical field values, reduced.
pub fn mul_m(a: u64, b: u64) -> (r: u64)
    requires
        in_field(a as int),
        in_field(b as int),
    ensures
        r as int == fmul(a as int, b as int),
        in_field(r as int),
{
    proof {
        lemma_mul_upper_bound(a as int, FIELD_ORDER as int - 1, b as int, FIELD_ORDER as int - 1);
        lemma_mul_nonnegative(a as int, b as int);
        lemma_fc_range(a as int * b as int);
        assert((FIELD_ORDER as int - 1) * (FIELD_ORDER as int - 1) < u128::MAX as int)
            by (nonlinear_arith);
    }
    let p: u128 = (a as u128) * (b as u128);
    (p % (FIELD_ORDER as u128)) as u64
}

/// Fermat exponentiation: raises `a` to the power `FIELD_ORDER - 2` by
/// square-and-multiply, so for nonzero `a` the result is the inverse.
pub fn inv_m(a: u64) -> (r: u64)
    requires
        in_field(a as int),
    ensures
        r as int == pinv(a as int),
        in_field(r as int),
{
    let mut result: u64 = 1;
    let mut base: u64 = a;
    let mut e: u64 = FIELD_ORDER - 2;
    proof {
        lemma_fc_id(1int);
        lemma_fc_mul(1int, pow(a as int, (FIELD_ORDER - 2) as nat));
        lemma_pow1(a as int);
    }
    while e > 0
        invariant
            in_field(result as int),
            in_field(base as int),
            fc(result as int * pow(base as int, e as nat)) == pinv(a as int),
        decreases e,
    {
        let ghost e0: nat = e as nat;
        let ghost b0: int = base as int;
        let ghost r0: int = result as int;
        if e % 2 == 1 {
            result = mul_m(result, base);
            proof {
                // r0 * b0^e == (r0 * b0) * b0^(e - 1)
                lemma_pow_adds(b0, 1nat, (e0 - 1) as nat);
                lemma_pow1(b0);
                lemma_mul_is_associative(r0, b0, pow(b0, (e0 - 1) as nat));
                lemma_fc_mul(r0 * b0, pow(b0, (e0 - 1) as nat));
            }
        }
        let ghost e1: nat = if e0 % 2 == 1 { (e0 - 1) as nat } else { e0 };
        let ghost r1: int = result as int;
        base = mul_m(base, base);
        e = e / 2;
        proof {
            assert(e1 == 2 * (e as nat));
            // b0^e1 == (b0 * b0)^(e1 / 2)
            lemma_pow_multiplies(b0, 2nat, e as nat);
            lemma_square_is_pow2(b0);
            assert(pow(b0, e1) == pow(b0 * b0, e as nat));
            // replacing the squared base by its residue is harmless under fc
            lemma_pow_mod_noop(b0 * b0, e as nat, FIELD_ORDER as int);
            lemma_fc_mul(r1, pow(base as int, e as nat));
            lemma_fc_mul(r1, pow(b0 * b0, e as nat));
        }
    }
    proof {
        lemma_pow0(base as int);
        lemma_fc_id(result as int);
    }
    result
}

} // verus!
