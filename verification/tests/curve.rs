//! Curve-point gadgets against an independently computed reference: the
//! reference arithmetic below works directly on integers modulo the field
//! order, with Fermat inversion, and shares no code with the library.
use pairing_gadgets::circuit::CircuitCtx;
use pairing_gadgets::eval::generate_witness;
use pairing_gadgets::ec::{G1Point, G2Point};
use pairing_gadgets::fp2::Fp2;

const P: u128 = 0xFFFF_FFFF_0000_0001;

fn radd(a: u128, b: u128) -> u128 {
    (a + b) % P
}

fn rsub(a: u128, b: u128) -> u128 {
    (a + P - b) % P
}

fn rmul(a: u128, b: u128) -> u128 {
    (a * b) % P
}

fn rpow(mut b: u128, mut e: u128) -> u128 {
    let mut acc: u128 = 1;
    while e > 0 {
        if e % 2 == 1 {
            acc = rmul(acc, b);
        }
        b = rmul(b, b);
        e /= 2;
    }
    acc
}

fn rinv(a: u128) -> u128 {
    rpow(a, P - 2)
}

/// Reference affine chord addition over the base field.
fn ref_g1_add(px: u128, py: u128, qx: u128, qy: u128) -> (u128, u128) {
    let lam = rmul(rsub(qy, py), rinv(rsub(qx, px)));
    let x3 = rsub(rsub(rmul(lam, lam), px), qx);
    let y3 = rsub(rmul(lam, rsub(px, x3)), py);
    (x3, y3)
}

/// Reference affine tangent doubling over the base field.
fn ref_g1_double(px: u128, py: u128) -> (u128, u128) {
    let lam = rmul(rmul(3, rmul(px, px)), rinv(rmul(2, py)));
    let x3 = rsub(rmul(lam, lam), rmul(2, px));
    let y3 = rsub(rmul(lam, rsub(px, x3)), py);
    (x3, y3)
}

// reference arithmetic over the quadratic extension, pairs (c0, c1)

fn e2add(a: (u128, u128), b: (u128, u128)) -> (u128, u128) {
    (radd(a.0, b.0), radd(a.1, b.1))
}

fn e2sub(a: (u128, u128), b: (u128, u128)) -> (u128, u128) {
    (rsub(a.0, b.0), rsub(a.1, b.1))
}

fn e2mul(a: (u128, u128), b: (u128, u128)) -> (u128, u128) {
    (
        rsub(rmul(a.0, b.0), rmul(a.1, b.1)),
        radd(rmul(a.0, b.1), rmul(a.1, b.0)),
    )
}

fn e2inv(a: (u128, u128)) -> (u128, u128) {
    let n = rinv(radd(rmul(a.0, a.0), rmul(a.1, a.1)));
    (rmul(a.0, n), rmul(rsub(0, a.1), n))
}

/// Reference affine chord addition over the quadratic extension.
fn ref_g2_add(
    px: (u128, u128),
    py: (u128, u128),
    qx: (u128, u128),
    qy: (u128, u128),
) -> ((u128, u128), (u128, u128)) {
    let lam = e2mul(e2sub(qy, py), e2inv(e2sub(qx, px)));
    let x3 = e2sub(e2sub(e2mul(lam, lam), px), qx);
    let y3 = e2sub(e2mul(lam, e2sub(px, x3)), py);
    (x3, y3)
}

fn fp2_inputs(b: &mut CircuitCtx) -> Fp2 {
    let c0 = b.alloc_input();
    let c1 = b.alloc_input();
    Fp2::new(c0, c1)
}

#[test]
fn g1_add_matches_reference() {
    let mut b = CircuitCtx::new();
    let px = b.alloc_input();
    let py = b.alloc_input();
    let qx = b.alloc_input();
    let qy = b.alloc_input();
    let p = G1Point::new(px, py);
    let q = G1Point::new(qx, qy);
    let r = G1Point::add(&mut b, &p, &q);
    let asn = generate_witness(&b, &vec![1234567890, 987654321, 11111111, 22222222]).unwrap();
    let (ex, ey) = ref_g1_add(1234567890, 987654321, 11111111, 22222222);
    assert_eq!(asn[r.x] as u128, ex);
    assert_eq!(asn[r.y] as u128, ey);
}

#[test]
fn g1_double_matches_reference() {
    let mut b = CircuitCtx::new();
    let px = b.alloc_input();
    let py = b.alloc_input();
    let p = G1Point::new(px, py);
    let r = G1Point::double(&mut b, &p);
    let asn = generate_witness(&b, &vec![1234567890, 987654321]).unwrap();
    let (ex, ey) = ref_g1_double(1234567890, 987654321);
    assert_eq!(asn[r.x] as u128, ex);
    assert_eq!(asn[r.y] as u128, ey);
}

#[test]
fn g2_add_matches_reference() {
    let mut b = CircuitCtx::new();
    let x1 = fp2_inputs(&mut b);
    let y1 = fp2_inputs(&mut b);
    let x2 = fp2_inputs(&mut b);
    let y2 = fp2_inputs(&mut b);
    let p = G2Point::new(x1, y1);
    let q = G2Point::new(x2, y2);
    let r = G2Point::add(&mut b, &p, &q);
    let vals: Vec<u64> = vec![11111111, 22222222, 33333333, 44444444, 1234, 5678, 9012, 3456];
    let asn = generate_witness(&b, &vals).unwrap();
    let (ex, ey) = ref_g2_add(
        (11111111, 22222222),
        (33333333, 44444444),
        (1234, 5678),
        (9012, 3456),
    );
    assert_eq!((asn[r.x.c0] as u128, asn[r.x.c1] as u128), ex);
    assert_eq!((asn[r.y.c0] as u128, asn[r.y.c1] as u128), ey);
}

#[test]
fn g1_double_of_zero_y_unsatisfiable() {
    let mut b = CircuitCtx::new();
    let px = b.alloc_input();
    let py = b.alloc_input();
    let p = G1Point::new(px, py);
    let _r = G1Point::double(&mut b, &p);
    assert!(generate_witness(&b, &vec![5, 0]).is_none());
}
