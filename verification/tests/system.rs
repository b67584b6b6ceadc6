//! Whole-system behaviour: constraint-count determinism of the Miller
//! loop, the digest bindings of the signature gadget, and the end-to-end
//! assembly with witness generation and public-input checking.
use pairing_gadgets::circuit::CircuitCtx;
use pairing_gadgets::eval::{generate_witness, public_values, matches_public_inputs};
use pairing_gadgets::ec::{G1Point, G2Point};
use pairing_gadgets::fp2::Fp2;
use pairing_gadgets::pairing::miller_loop;
use pairing_gadgets::assembly::{build_pairing_circuit, build_full_circuit};
use pairing_gadgets::signature::verify_poseidon_signature;

fn point_inputs(b: &mut CircuitCtx) -> (G1Point, G2Point) {
    let px = b.alloc_input();
    let py = b.alloc_input();
    let qx0 = b.alloc_input();
    let qx1 = b.alloc_input();
    let qy0 = b.alloc_input();
    let qy1 = b.alloc_input();
    (
        G1Point::new(px, py),
        G2Point::new(Fp2::new(qx0, qx1), Fp2::new(qy0, qy1)),
    )
}

#[test]
fn miller_loop_constraint_count_is_input_independent() {
    let mut b1 = CircuitCtx::new();
    let (p1, q1) = point_inputs(&mut b1);
    let before1 = b1.n_gates();
    let _f1 = miller_loop(&mut b1, &p1, &q1);
    let emitted1 = b1.n_gates() - before1;

    let mut b2 = CircuitCtx::new();
    // a second circuit with extra gates before the loop and other wires
    let extra = b2.alloc_input();
    let _ = b2.mul(extra, extra);
    let (p2, q2) = point_inputs(&mut b2);
    let before2 = b2.n_gates();
    let _f2 = miller_loop(&mut b2, &p2, &q2);
    let emitted2 = b2.n_gates() - before2;

    assert_eq!(emitted1, emitted2);

    // two different satisfying witnesses of the same circuit leave the
    // constraint count untouched: it is fixed before any witness exists
    let n = b1.n_gates();
    let w1 = generate_witness(&b1, &vec![1234567890, 987654321, 11111111, 22222222, 33333333, 44444444]);
    let w2 = generate_witness(&b1, &vec![1111, 2222, 3333, 4444, 5555, 6666]);
    assert!(w1.is_some());
    assert!(w2.is_some());
    assert_eq!(b1.n_gates(), n);
}

#[test]
fn signature_gadget_records_digest_binding() {
    let mut b = CircuitCtx::new();
    let m0 = b.alloc_input();
    let m1 = b.alloc_input();
    let d0 = b.alloc_input();
    let d1 = b.alloc_input();
    let d2 = b.alloc_input();
    let d3 = b.alloc_input();
    let message = vec![m0, m1];
    let digest = vec![d0, d1, d2, d3];
    verify_poseidon_signature(&mut b, &message, &digest);
    assert_eq!(b.hashes.len(), 1);
    assert_eq!(b.hashes[0].inputs, message);
    assert_eq!(b.hashes[0].outputs, digest);
    // the binding adds no arithmetic gates
    assert_eq!(b.n_gates(), 6);
}

#[test]
fn pairing_circuit_satisfiable_on_example_points() {
    let mut b = CircuitCtx::new();
    let (p, q, _out) = build_pairing_circuit(&mut b);
    // the six point coordinates are the first six declared input wires,
    // in declaration order
    assert_eq!(
        [p.x, p.y, q.x.c0, q.x.c1, q.y.c0, q.y.c1],
        [0, 1, 2, 3, 4, 5]
    );
    let asn = generate_witness(
        &b,
        &vec![1234567890, 987654321, 11111111, 22222222, 33333333, 44444444],
    );
    assert!(asn.is_some());
}

#[test]
fn end_to_end_assembly_witness_and_public_inputs() {
    let mut b = CircuitCtx::new();
    let layout = build_full_circuit(&mut b, 4);

    // the input wires come in the contract's declaration order: the two
    // message/digest pairs, the point coordinates, then the new
    // ciphertext followed immediately by its digest
    assert_eq!(layout.ciphertext_msg, vec![0, 1, 2, 3]);
    assert_eq!(layout.ciphertext_hash, vec![4, 5, 6, 7]);
    assert_eq!(layout.rk_msg, vec![8, 9, 10, 11]);
    assert_eq!(layout.rk_hash, vec![12, 13, 14, 15]);
    assert_eq!(
        [
            layout.p.x,
            layout.p.y,
            layout.q.x.c0,
            layout.q.x.c1,
            layout.q.y.c0,
            layout.q.y.c1
        ],
        [16, 17, 18, 19, 20, 21]
    );
    for j in 1..4 {
        assert_eq!(layout.new_ciphertext[j], layout.new_ciphertext[0] + j);
        assert_eq!(layout.new_hash[j], layout.new_hash[0] + j);
    }
    assert_eq!(layout.new_hash[0], layout.new_ciphertext[3] + 1);

    // witness assignment, in input-declaration order: ciphertext message
    // and digest, re-encryption-key message and digest, the example point
    // coordinates, the new ciphertext and its digest
    let mut inputs: Vec<u64> = Vec::new();
    inputs.extend_from_slice(&[100, 101, 102, 103]);
    inputs.extend_from_slice(&[1111, 2222, 3333, 4444]);
    inputs.extend_from_slice(&[200, 201, 202, 203]);
    inputs.extend_from_slice(&[5555, 6666, 7777, 8888]);
    inputs.extend_from_slice(&[1234567890, 987654321, 11111111, 22222222, 33333333, 44444444]);
    inputs.extend_from_slice(&[300, 301, 302, 303]);
    inputs.extend_from_slice(&[1212, 3434, 5656, 7878]);

    let asn = generate_witness(&b, &inputs).expect("witness generation must succeed");

    // the message wires carry the assigned values
    assert_eq!(asn[layout.ciphertext_msg[0]], 100);
    assert_eq!(asn[layout.ciphertext_msg[3]], 103);
    assert_eq!(asn[layout.rk_msg[0]], 200);
    assert_eq!(asn[layout.new_ciphertext[3]], 303);

    // the public inputs are the point coordinates and the new digest
    let pubs = public_values(&b, &asn);
    assert_eq!(
        pubs,
        vec![1234567890, 987654321, 11111111, 22222222, 33333333, 44444444, 1212, 3434, 5656, 7878]
    );
    assert!(matches_public_inputs(&b, &asn, &pubs));

    // flipping any single public input is rejected
    for k in 0..pubs.len() {
        let mut flipped = pubs.clone();
        flipped[k] = flipped[k] + 1;
        assert!(!matches_public_inputs(&b, &asn, &flipped));
    }
    // as is a list of the wrong length
    let mut short = pubs.clone();
    short.pop();
    assert!(!matches_public_inputs(&b, &asn, &short));
}
