//! Tower-field gadget behaviour, checked by building small circuits and
//! evaluating them with the witness generator.
use pairing_gadgets::circuit::CircuitCtx;
use pairing_gadgets::eval::generate_witness;
use pairing_gadgets::fp2::Fp2;
use pairing_gadgets::fp6::Fp6;
use pairing_gadgets::fp12::Fp12;
use pairing_gadgets::gf::{add_m, sub_m, mul_m, neg_m, inv_m, FIELD_ORDER};

fn fp2_inputs(b: &mut CircuitCtx) -> Fp2 {
    let c0 = b.alloc_input();
    let c1 = b.alloc_input();
    Fp2::new(c0, c1)
}

fn fp6_inputs(b: &mut CircuitCtx) -> Fp6 {
    let c0 = fp2_inputs(b);
    let c1 = fp2_inputs(b);
    let c2 = fp2_inputs(b);
    Fp6::new(c0, c1, c2)
}

fn fp12_inputs(b: &mut CircuitCtx) -> Fp12 {
    let c0 = fp6_inputs(b);
    let c1 = fp6_inputs(b);
    Fp12::new(c0, c1)
}

fn fp2_of(asn: &[u64], x: &Fp2) -> [u64; 2] {
    [asn[x.c0], asn[x.c1]]
}

fn fp6_of(asn: &[u64], x: &Fp6) -> [u64; 6] {
    let a = fp2_of(asn, &x.c0);
    let b = fp2_of(asn, &x.c1);
    let c = fp2_of(asn, &x.c2);
    [a[0], a[1], b[0], b[1], c[0], c[1]]
}

fn fp12_of(asn: &[u64], x: &Fp12) -> [u64; 12] {
    let a = fp6_of(asn, &x.c0);
    let b = fp6_of(asn, &x.c1);
    [
        a[0], a[1], a[2], a[3], a[4], a[5], b[0], b[1], b[2], b[3], b[4], b[5],
    ]
}

#[test]
fn base_field_ops_exact() {
    assert_eq!(add_m(FIELD_ORDER - 1, 1), 0);
    assert_eq!(add_m(3, 4), 7);
    assert_eq!(sub_m(3, 5), FIELD_ORDER - 2);
    assert_eq!(neg_m(1), FIELD_ORDER - 1);
    assert_eq!(neg_m(0), 0);
    // 2^64 mod (2^64 - 2^32 + 1) == 2^32 - 1
    assert_eq!(mul_m(1 << 32, 1 << 32), (1 << 32) - 1);
    let d = inv_m(2);
    assert_eq!(mul_m(2, d), 1);
    let d7 = inv_m(7);
    assert_eq!(mul_m(7, d7), 1);
}

#[test]
fn fp2_mul_inverse_is_one() {
    let mut b = CircuitCtx::new();
    let a = fp2_inputs(&mut b);
    let inv = Fp2::inverse(&mut b, &a);
    let prod = Fp2::mul(&mut b, &a, &inv);
    let asn = generate_witness(&b, &vec![5, 7]).unwrap();
    assert_eq!(fp2_of(&asn, &prod), [1, 0]);
}

#[test]
fn fp6_mul_inverse_is_one() {
    let mut b = CircuitCtx::new();
    let a = fp6_inputs(&mut b);
    let inv = Fp6::inverse(&mut b, &a);
    let prod = Fp6::mul(&mut b, &a, &inv);
    let asn = generate_witness(&b, &vec![5, 7, 11, 13, 17, 19]).unwrap();
    assert_eq!(fp6_of(&asn, &prod), [1, 0, 0, 0, 0, 0]);
}

#[test]
fn fp12_mul_inverse_is_one() {
    let mut b = CircuitCtx::new();
    let a = fp12_inputs(&mut b);
    let inv = Fp12::inverse(&mut b, &a);
    let prod = Fp12::mul(&mut b, &a, &inv);
    let vals: Vec<u64> = vec![5, 7, 11, 13, 17, 19, 23, 29, 31, 37, 41, 43];
    let asn = generate_witness(&b, &vals).unwrap();
    assert_eq!(fp12_of(&asn, &prod), [1, 0, 0, 0, 0, 0, 0, 0, 0, 0, 0, 0]);
}

#[test]
fn fp2_inverse_of_zero_unsatisfiable() {
    let mut b = CircuitCtx::new();
    let a = fp2_inputs(&mut b);
    let _inv = Fp2::inverse(&mut b, &a);
    assert!(generate_witness(&b, &vec![0, 0]).is_none());
}

#[test]
fn witness_rejects_out_of_range_input() {
    let mut b = CircuitCtx::new();
    let _a = b.alloc_input();
    assert!(generate_witness(&b, &vec![FIELD_ORDER]).is_none());
    assert!(generate_witness(&b, &vec![]).is_none());
}

#[test]
fn connect_checks_equality() {
    let mut b = CircuitCtx::new();
    let x = b.alloc_input();
    let y = b.alloc_input();
    b.connect(x, y);
    assert!(generate_witness(&b, &vec![4, 4]).is_some());
    assert!(generate_witness(&b, &vec![4, 5]).is_none());
}

#[test]
fn add_and_mul_commute_degree2() {
    let mut b = CircuitCtx::new();
    let x = fp2_inputs(&mut b);
    let y = fp2_inputs(&mut b);
    let s1 = Fp2::add(&mut b, &x, &y);
    let s2 = Fp2::add(&mut b, &y, &x);
    let m1 = Fp2::mul(&mut b, &x, &y);
    let m2 = Fp2::mul(&mut b, &y, &x);
    let asn = generate_witness(&b, &vec![123456789, 987654321, 555555, 10203040]).unwrap();
    assert_eq!(fp2_of(&asn, &s1), fp2_of(&asn, &s2));
    assert_eq!(fp2_of(&asn, &m1), fp2_of(&asn, &m2));
}

#[test]
fn add_and_mul_associate_degree2() {
    let mut b = CircuitCtx::new();
    let x = fp2_inputs(&mut b);
    let y = fp2_inputs(&mut b);
    let z = fp2_inputs(&mut b);
    let xy = Fp2::add(&mut b, &x, &y);
    let s1 = Fp2::add(&mut b, &xy, &z);
    let yz = Fp2::add(&mut b, &y, &z);
    let s2 = Fp2::add(&mut b, &x, &yz);
    let mxy = Fp2::mul(&mut b, &x, &y);
    let m1 = Fp2::mul(&mut b, &mxy, &z);
    let myz = Fp2::mul(&mut b, &y, &z);
    let m2 = Fp2::mul(&mut b, &x, &myz);
    let asn = generate_witness(
        &b,
        &vec![FIELD_ORDER - 1, 2, 3, FIELD_ORDER - 5, 8, 13],
    )
    .unwrap();
    assert_eq!(fp2_of(&asn, &s1), fp2_of(&asn, &s2));
    assert_eq!(fp2_of(&asn, &m1), fp2_of(&asn, &m2));
}

#[test]
fn add_and_mul_commute_and_associate_degree6() {
    let mut b = CircuitCtx::new();
    let x = fp6_inputs(&mut b);
    let y = fp6_inputs(&mut b);
    let z = fp6_inputs(&mut b);
    let m1 = Fp6::mul(&mut b, &x, &y);
    let m2 = Fp6::mul(&mut b, &y, &x);
    let mxy = Fp6::mul(&mut b, &x, &y);
    let a1 = Fp6::mul(&mut b, &mxy, &z);
    let myz = Fp6::mul(&mut b, &y, &z);
    let a2 = Fp6::mul(&mut b, &x, &myz);
    let s1 = Fp6::add(&mut b, &x, &y);
    let s2 = Fp6::add(&mut b, &y, &x);
    let vals: Vec<u64> = (0..18).map(|i| 1000 + 37 * i as u64 * i as u64).collect();
    let asn = generate_witness(&b, &vals).unwrap();
    assert_eq!(fp6_of(&asn, &m1), fp6_of(&asn, &m2));
    assert_eq!(fp6_of(&asn, &a1), fp6_of(&asn, &a2));
    assert_eq!(fp6_of(&asn, &s1), fp6_of(&asn, &s2));
}

#[test]
fn add_and_mul_commute_and_associate_degree12() {
    let mut b = CircuitCtx::new();
    let x = fp12_inputs(&mut b);
    let y = fp12_inputs(&mut b);
    let z = fp12_inputs(&mut b);
    let m1 = Fp12::mul(&mut b, &x, &y);
    let m2 = Fp12::mul(&mut b, &y, &x);
    let mxy = Fp12::mul(&mut b, &x, &y);
    let a1 = Fp12::mul(&mut b, &mxy, &z);
    let myz = Fp12::mul(&mut b, &y, &z);
    let a2 = Fp12::mul(&mut b, &x, &myz);
    let s1 = Fp12::add(&mut b, &x, &y);
    let s2 = Fp12::add(&mut b, &y, &x);
    let vals: Vec<u64> = (0..36).map(|i| 77 + 991 * i as u64 * i as u64 * i as u64).collect();
    let asn = generate_witness(&b, &vals).unwrap();
    assert_eq!(fp12_of(&asn, &m1), fp12_of(&asn, &m2));
    assert_eq!(fp12_of(&asn, &a1), fp12_of(&asn, &a2));
    assert_eq!(fp12_of(&asn, &s1), fp12_of(&asn, &s2));
}

#[test]
fn fp2_square_matches_mul() {
    let mut b = CircuitCtx::new();
    let x = fp2_inputs(&mut b);
    let sq = Fp2::square(&mut b, &x);
    let m = Fp2::mul(&mut b, &x, &x);
    let asn = generate_witness(&b, &vec![17, 23]).unwrap();
    assert_eq!(fp2_of(&asn, &sq), fp2_of(&asn, &m));
}

#[test]
fn fp12_square_matches_mul() {
    let mut b = CircuitCtx::new();
    let x = fp12_inputs(&mut b);
    let sq = Fp12::square(&mut b, &x);
    let m = Fp12::mul(&mut b, &x, &x);
    let vals: Vec<u64> = (0..12).map(|i| 3 + 5 * i as u64).collect();
    let asn = generate_witness(&b, &vals).unwrap();
    assert_eq!(fp12_of(&asn, &sq), fp12_of(&asn, &m));
}

#[test]
fn nonresidue_is_mul_by_xi_degree2() {
    let mut b = CircuitCtx::new();
    let x = fp2_inputs(&mut b);
    let xi = fp2_inputs(&mut b);
    let nr = Fp2::mul_by_nonresidue(&mut b, &x);
    let m = Fp2::mul(&mut b, &x, &xi);
    // xi = 1 + u
    let asn = generate_witness(&b, &vec![987, 654, 1, 1]).unwrap();
    assert_eq!(fp2_of(&asn, &nr), fp2_of(&asn, &m));
}

#[test]
fn nonresidue_is_mul_by_v_degree6() {
    let mut b = CircuitCtx::new();
    let x = fp6_inputs(&mut b);
    let v = fp6_inputs(&mut b);
    let nr = Fp6::mul_by_nonresidue(&mut b, &x);
    let m = Fp6::mul(&mut b, &x, &v);
    // v = (0, 1, 0) over the degree-2 level
    let asn = generate_witness(
        &b,
        &vec![31, 41, 59, 26, 53, 58, 0, 0, 1, 0, 0, 0],
    )
    .unwrap();
    assert_eq!(fp6_of(&asn, &nr), fp6_of(&asn, &m));
}

#[test]
fn fp2_scalar_scaling() {
    let mut b = CircuitCtx::new();
    let x = fp2_inputs(&mut b);
    let s = b.alloc_input();
    let r = Fp2::mul_scalar(&mut b, &x, s);
    let asn = generate_witness(&b, &vec![10, 20, 3]).unwrap();
    assert_eq!(fp2_of(&asn, &r), [30, 60]);
}

#[test]
fn fp12_constants() {
    let mut b = CircuitCtx::new();
    let one = Fp12::one(&mut b);
    let zero = Fp12::zero(&mut b);
    let asn = generate_witness(&b, &vec![]).unwrap();
    assert_eq!(fp12_of(&asn, &one), [1, 0, 0, 0, 0, 0, 0, 0, 0, 0, 0, 0]);
    assert_eq!(fp12_of(&asn, &zero), [0; 12]);
}
