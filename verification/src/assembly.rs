//! Top-level assembly: declare the input wires, wire the signature-binding
//! and pairing gadgets into one constraint system, and mark the curve-point
//! coordinates and the computed digest as public inputs.  Witness
//! assignment and the proving backend are driven by the caller.
use vstd::prelude::*;
use crate::gf::{in_field, invertible};
use crate::vals::{V12, v2_canon, v2_norm, v6_denom, v12_norm, v12_one};
use crate::circuit::{CircuitCtx, DIGEST_WIDTH, ctx_wf, sat, extends, hash_consistent, wire_vals,
    inputs_in_order, lemma_sat_extends, lemma_extends_trans, lemma_extends_gate,
    lemma_extends_gate_back, lemma_hash_consistent_extends, lemma_inputs_in_order_extends,
    lemma_input_extendable, lemma_inv_free_extendable, lemma_prefix_index, lemma_prefix_trans};
use crate::eval::{inputs_before, lemma_block_cursor, lemma_inputs_before_flat};
use crate::fp2::Fp2;
use crate::fp12::Fp12;
use crate::ec::{PtV, Pt2V, G1Point, G2Point};
use crate::pairing::{miller_loop, final_exponentiation, miller_rel, miller_can, fexp_rel,
    miller_gate_total, MILLER_BITS};
use crate::signature::verify_poseidon_signature;

verus! {

/// Generic position for a point pair: the Miller loop's step chain can be
/// taken from beginning to end, and whatever value it produces has an
/// invertible norm chain for the final exponentiation.
pub open spec fn pairing_generic(pv: PtV, qv: Pt2V) -> bool {
    &&& miller_can(pv, qv, 0, v12_one(), qv)
    &&& forall|fv: V12, rr: Pt2V|
        #[trigger] miller_rel(pv, qv, MILLER_BITS as int, fv, rr) ==> invertible(
            v2_norm(v6_denom(v12_norm(fv))),
        )
}

/// The pairing output is bound to the input points: some Miller-loop value
/// for the points closes the step chain, and the output closes the final
/// exponentiation over it.
pub open spec fn pairing_rel(pv: PtV, qv: Pt2V, out: V12) -> bool {
    exists|mv: V12, rr: Pt2V|
        #[trigger] miller_rel(pv, qv, MILLER_BITS as int, mv, rr) && fexp_rel(mv, out)
}

/// Declare `n` fresh input wires, returned in declaration order.
fn alloc_inputs(builder: &mut CircuitCtx, n: usize) -> (r: Vec<usize>)
    requires
        ctx_wf(*old(builder)),
    ensures
        ctx_wf(*final(builder)),
        extends(*old(builder), *final(builder)),
        final(builder).gates@.len() == old(builder).gates@.len() + n,
        final(builder).eqs@ == old(builder).eqs@,
        final(builder).hashes@ == old(builder).hashes@,
        final(builder).pub_inputs@ == old(builder).pub_inputs@,
        r@.len() == n,
        inputs_in_order(*final(builder), r@, old(builder).gates@.len() as int),
{
    let mut r: Vec<usize> = Vec::new();
    let mut i: usize = 0;
    while i < n
        invariant
            ctx_wf(*builder),
            extends(*old(builder), *builder),
            builder.gates@.len() == old(builder).gates@.len() + i,
            builder.eqs@ == old(builder).eqs@,
            builder.hashes@ == old(builder).hashes@,
            builder.pub_inputs@ == old(builder).pub_inputs@,
            i <= n,
            r@.len() == i,
            inputs_in_order(*builder, r@, old(builder).gates@.len() as int),
        decreases n - i,
    {
        let ghost c_in = *builder;
        let w = builder.alloc_input();
        r.push(w);
        proof {
            lemma_extends_trans(*old(builder), c_in, *builder);
        }
        i = i + 1;
    }
    r
}

/// The point coordinates in witness-declaration order: `p.x`, `p.y`,
/// `q.x.c0`, `q.x.c1`, `q.y.c0`, `q.y.c1`.
pub open spec fn point_wires(p: G1Point, q: G2Point) -> Seq<usize> {
    seq![p.x, p.y, q.x.c0, q.x.c1, q.y.c0, q.y.c1]
}

/// Declare the six input wires of a base/twist point pair and run the
/// pairing gadgets over them: the Miller loop followed by the final
/// exponentiation.  The returned coordinates are exactly the six freshly
/// declared input wires, in declaration order.
pub fn build_pairing_circuit(builder: &mut CircuitCtx) -> (res: (G1Point, G2Point, Fp12))
    requires
        ctx_wf(*old(builder)),
    ensures
        ctx_wf(*final(builder)),
        extends(*old(builder), *final(builder)),
        final(builder).gates@.len() == old(builder).gates@.len() + 6 + miller_gate_total() + 2595,
        final(builder).eqs@ == old(builder).eqs@,
        final(builder).hashes@ == old(builder).hashes@,
        final(builder).pub_inputs@ == old(builder).pub_inputs@,
        res.0.x == old(builder).gates@.len(),
        res.0.y == old(builder).gates@.len() + 1,
        res.1.x.c0 == old(builder).gates@.len() + 2,
        res.1.x.c1 == old(builder).gates@.len() + 3,
        res.1.y.c0 == old(builder).gates@.len() + 4,
        res.1.y.c1 == old(builder).gates@.len() + 5,
        inputs_in_order(*final(builder), point_wires(res.0, res.1), old(builder).gates@.len() as int),
        forall|j: int|
            old(builder).gates@.len() + 6 <= j < final(builder).gates@.len() ==> !((
            #[trigger] final(builder).gates@[j]) is Input),
        forall|j: int|
            0 <= j < 6 ==> inputs_before(
                *final(builder),
                (#[trigger] point_wires(res.0, res.1)[j]) as int,
            ) == inputs_before(*final(builder), old(builder).gates@.len() as int) + j,
        inputs_before(*final(builder), final(builder).gates@.len() as int) == inputs_before(
            *final(builder),
            old(builder).gates@.len() as int,
        ) + 6,
        res.0.wf(*final(builder)),
        res.1.wf(*final(builder)),
        res.2.wf(*final(builder)),
        forall|asn: Seq<int>|
            #[trigger] sat(*final(builder), asn) ==> pairing_rel(
                res.0.vals(asn),
                res.1.vals(asn),
                res.2.vals(asn),
            ),
        forall|asn0: Seq<int>, pv: PtV, qv: Pt2V|
            #![trigger sat(*old(builder), asn0), pairing_generic(pv, qv)]
            sat(*old(builder), asn0) && asn0.len() == old(builder).gates@.len() && in_field(pv.x)
                && in_field(pv.y) && v2_canon(qv.x) && v2_canon(qv.y) && pairing_generic(pv, qv)
                ==> exists|asn: Seq<int>|
                #[trigger] sat(*final(builder), asn) && asn.len() == final(builder).gates@.len()
                    && asn0.is_prefix_of(asn) && res.0.vals(asn) == pv && res.1.vals(asn) == qv,
{
    broadcast use lemma_extends_gate_back;

    let px = builder.alloc_input();
    let py = builder.alloc_input();
    let p = G1Point { x: px, y: py };
    let qx_c0 = builder.alloc_input();
    let qx_c1 = builder.alloc_input();
    let qy_c0 = builder.alloc_input();
    let qy_c1 = builder.alloc_input();
    let qx = Fp2 { c0: qx_c0, c1: qx_c1 };
    let qy = Fp2 { c0: qy_c0, c1: qy_c1 };
    let q = G2Point { x: qx, y: qy };
    let ghost s0 = *builder;
    proof {
        assert(inputs_in_order(s0, point_wires(p, q), old(builder).gates@.len() as int));
    }
    let f = miller_loop(builder, &p, &q);
    let ghost s1 = *builder;
    let f_final = final_exponentiation(builder, &f);
    proof {
        lemma_extends_trans(s0, s1, *builder);
        lemma_extends_trans(*old(builder), s0, *builder);
        lemma_inputs_in_order_extends(
            s0,
            *builder,
            point_wires(p, q),
            old(builder).gates@.len() as int,
        );
        // the gadget gates declare no inputs, so the input cursor counts
        // exactly the six point coordinates
        assert forall|j: int|
            old(builder).gates@.len() + 6 <= j < builder.gates@.len() implies !((
        #[trigger] builder.gates@[j]) is Input) by {}
        lemma_block_cursor(*builder, point_wires(p, q), old(builder).gates@.len() as int);
        lemma_inputs_before_flat(
            *builder,
            old(builder).gates@.len() as int + 6,
            builder.gates@.len() as int,
        );
        assert forall|asn0: Seq<int>, pv: PtV, qv: Pt2V|
            #![trigger sat(*old(builder), asn0), pairing_generic(pv, qv)]
            sat(*old(builder), asn0) && asn0.len() == old(builder).gates@.len() && in_field(pv.x)
                && in_field(pv.y) && v2_canon(qv.x) && v2_canon(qv.y) && pairing_generic(
                pv,
                qv,
            ) implies exists|asn: Seq<int>|
            #[trigger] sat(*builder, asn) && asn.len() == builder.gates@.len() && asn0.is_prefix_of(
                asn,
            ) && p.vals(asn) == pv && q.vals(asn) == qv by {
            let vs = seq![pv.x, pv.y, qv.x.c0, qv.x.c1, qv.y.c0, qv.y.c1];
            assert forall|j: int|
                old(builder).gates@.len() <= j < s0.gates@.len() implies (
            #[trigger] s0.gates@[j]) is Input by {
                assert(point_wires(p, q)[j - old(builder).gates@.len()] as int == j);
            }
            lemma_input_extendable(*old(builder), s0, asn0, vs);
            let asn1 = asn0 + vs;
            assert(p.vals(asn1) == pv && q.vals(asn1) == qv);
            // the Miller loop stays satisfiable for a generic pair
            assert(miller_can(p.vals(asn1), q.vals(asn1), 0, v12_one(), q.vals(asn1)));
            let asn2 = choose|asn2: Seq<int>|
                #[trigger] sat(s1, asn2) && asn2.len() == s1.gates@.len() && asn1.is_prefix_of(
                    asn2,
                );
            lemma_prefix_index(asn1, asn2, p.x as int);
            lemma_prefix_index(asn1, asn2, p.y as int);
            lemma_prefix_index(asn1, asn2, q.x.c0 as int);
            lemma_prefix_index(asn1, asn2, q.x.c1 as int);
            lemma_prefix_index(asn1, asn2, q.y.c0 as int);
            lemma_prefix_index(asn1, asn2, q.y.c1 as int);
            assert(p.vals(asn2) == pv && q.vals(asn2) == qv);
            // its output closes the step chain, so the exponentiation's
            // norm chain is invertible
            let rr = choose|rr: Pt2V|
                #[trigger] miller_rel(pv, qv, MILLER_BITS as int, f.vals(asn2), rr);
            assert(miller_rel(pv, qv, MILLER_BITS as int, f.vals(asn2), rr));
            assert(invertible(v2_norm(v6_denom(v12_norm(f.vals(asn2))))));
            let asn3 = choose|asn3: Seq<int>|
                #[trigger] sat(*builder, asn3) && asn3.len() == builder.gates@.len()
                    && asn2.is_prefix_of(asn3);
            lemma_prefix_trans(asn1, asn2, asn3);
            lemma_prefix_trans(asn0, asn1, asn3);
            lemma_prefix_index(asn1, asn3, p.x as int);
            lemma_prefix_index(asn1, asn3, p.y as int);
            lemma_prefix_index(asn1, asn3, q.x.c0 as int);
            lemma_prefix_index(asn1, asn3, q.x.c1 as int);
            lemma_prefix_index(asn1, asn3, q.y.c0 as int);
            lemma_prefix_index(asn1, asn3, q.y.c1 as int);
            assert(sat(*builder, asn3) && asn3.len() == builder.gates@.len() && asn0.is_prefix_of(
                asn3,
            ) && p.vals(asn3) == pv && q.vals(asn3) == qv);
        }
        assert forall|asn: Seq<int>| #[trigger] sat(*builder, asn) implies pairing_rel(
            p.vals(asn),
            q.vals(asn),
            f_final.vals(asn),
        ) by {
            lemma_sat_extends(s1, *builder, asn);
            let mv = f.vals(asn);
            let rr = choose|rr: Pt2V|
                miller_rel(p.vals(asn), q.vals(asn), MILLER_BITS as int, mv, rr);
            assert(miller_rel(p.vals(asn), q.vals(asn), MILLER_BITS as int, mv, rr));
            assert(fexp_rel(mv, f_final.vals(asn)));
        }
    }
    (p, q, f_final)
}

/// Every wire the assembly hands back, with the roles the witness phase
/// needs: the two message vectors and their digest targets, the curve
/// points, the pairing output, and the freshly hashed ciphertext.
pub struct CircuitLayout {
    pub ciphertext_msg: Vec<usize>,
    pub ciphertext_hash: Vec<usize>,
    pub rk_msg: Vec<usize>,
    pub rk_hash: Vec<usize>,
    pub p: G1Point,
    pub q: G2Point,
    pub pairing_out: Fp12,
    pub new_ciphertext: Vec<usize>,
    pub new_hash: Vec<usize>,
}

/// The public-input wires of the full circuit, in registration order: the
/// base-point and twist-point coordinates, then the computed digest.
pub open spec fn layout_pub_wires(l: CircuitLayout) -> Seq<usize> {
    seq![l.p.x, l.p.y, l.q.x.c0, l.q.x.c1, l.q.y.c0, l.q.y.c1] + l.new_hash@
}

/// Assemble the full constraint system: bind a ciphertext digest and a
/// re-encryption-key digest to their messages, build the pairing circuit,
/// hash a newly supplied ciphertext, and register the point coordinates
/// and the new digest as public inputs.
#[verifier::rlimit(100)]
pub fn build_full_circuit(builder: &mut CircuitCtx, msg_len: usize) -> (layout: CircuitLayout)
    requires
        ctx_wf(*old(builder)),
    ensures
        ctx_wf(*final(builder)),
        extends(*old(builder), *final(builder)),
        final(builder).gates@.len() == old(builder).gates@.len() + 3 * msg_len + 18
            + miller_gate_total() + 2595,
        final(builder).eqs@ == old(builder).eqs@,
        final(builder).hashes@.len() == old(builder).hashes@.len() + 3,
        final(builder).pub_inputs@ == old(builder).pub_inputs@ + layout_pub_wires(layout),
        layout.ciphertext_msg@.len() == msg_len,
        layout.rk_msg@.len() == msg_len,
        layout.new_ciphertext@.len() == msg_len,
        layout.ciphertext_hash@.len() == DIGEST_WIDTH,
        layout.rk_hash@.len() == DIGEST_WIDTH,
        layout.new_hash@.len() == DIGEST_WIDTH,
        layout.p.wf(*final(builder)),
        layout.q.wf(*final(builder)),
        layout.pairing_out.wf(*final(builder)),
        // every role's wires are exactly the freshly declared input wires,
        // in declaration order: the order in which the witness phase must
        // supply values
        inputs_in_order(*final(builder), layout.ciphertext_msg@, old(builder).gates@.len() as int),
        inputs_in_order(
            *final(builder),
            layout.ciphertext_hash@,
            old(builder).gates@.len() + msg_len as int,
        ),
        inputs_in_order(
            *final(builder),
            layout.rk_msg@,
            old(builder).gates@.len() + msg_len + 4,
        ),
        inputs_in_order(
            *final(builder),
            layout.rk_hash@,
            old(builder).gates@.len() + 2 * msg_len + 4,
        ),
        inputs_in_order(
            *final(builder),
            point_wires(layout.p, layout.q),
            old(builder).gates@.len() + 2 * msg_len + 8,
        ),
        layout.p.x == old(builder).gates@.len() + 2 * msg_len + 8,
        layout.p.y == old(builder).gates@.len() + 2 * msg_len + 9,
        layout.q.x.c0 == old(builder).gates@.len() + 2 * msg_len + 10,
        layout.q.x.c1 == old(builder).gates@.len() + 2 * msg_len + 11,
        layout.q.y.c0 == old(builder).gates@.len() + 2 * msg_len + 12,
        layout.q.y.c1 == old(builder).gates@.len() + 2 * msg_len + 13,
        inputs_in_order(
            *final(builder),
            layout.new_ciphertext@,
            old(builder).gates@.len() + 2 * msg_len + 14 + miller_gate_total() + 2595,
        ),
        inputs_in_order(
            *final(builder),
            layout.new_hash@,
            old(builder).gates@.len() + 3 * msg_len + 14 + miller_gate_total() + 2595,
        ),
        // the witness cursor: the position of each declared wire among the
        // circuit's input gates, in declaration order, so the order in
        // which `generate_witness` consumes values is fixed by contract
        forall|j: int|
            0 <= j < msg_len ==> inputs_before(
                *final(builder),
                (#[trigger] layout.ciphertext_msg@[j]) as int,
            ) == inputs_before(*final(builder), old(builder).gates@.len() as int) + j,
        forall|j: int|
            0 <= j < DIGEST_WIDTH ==> inputs_before(
                *final(builder),
                (#[trigger] layout.ciphertext_hash@[j]) as int,
            ) == inputs_before(*final(builder), old(builder).gates@.len() as int) + msg_len + j,
        forall|j: int|
            0 <= j < msg_len ==> inputs_before(
                *final(builder),
                (#[trigger] layout.rk_msg@[j]) as int,
            ) == inputs_before(*final(builder), old(builder).gates@.len() as int) + msg_len + 4 + j,
        forall|j: int|
            0 <= j < DIGEST_WIDTH ==> inputs_before(
                *final(builder),
                (#[trigger] layout.rk_hash@[j]) as int,
            ) == inputs_before(*final(builder), old(builder).gates@.len() as int) + 2 * msg_len + 4
                + j,
        forall|j: int|
            0 <= j < 6 ==> inputs_before(
                *final(builder),
                (#[trigger] point_wires(layout.p, layout.q)[j]) as int,
            ) == inputs_before(*final(builder), old(builder).gates@.len() as int) + 2 * msg_len + 8
                + j,
        forall|j: int|
            0 <= j < msg_len ==> inputs_before(
                *final(builder),
                (#[trigger] layout.new_ciphertext@[j]) as int,
            ) == inputs_before(*final(builder), old(builder).gates@.len() as int) + 2 * msg_len
                + 14 + j,
        forall|j: int|
            0 <= j < DIGEST_WIDTH ==> inputs_before(
                *final(builder),
                (#[trigger] layout.new_hash@[j]) as int,
            ) == inputs_before(*final(builder), old(builder).gates@.len() as int) + 3 * msg_len
                + 14 + j,
        inputs_before(*final(builder), final(builder).gates@.len() as int) == inputs_before(
            *final(builder),
            old(builder).gates@.len() as int,
        ) + 3 * msg_len + 18,
        // the two provided digests are bound to their messages, and the
        // new digest to the new ciphertext, under any hash the backend uses
        forall|asn: Seq<int>, h: spec_fn(Seq<int>) -> Seq<int>|
            #[trigger] hash_consistent(*final(builder), asn, h) ==> wire_vals(
                asn,
                layout.ciphertext_hash@,
            ) == h(wire_vals(asn, layout.ciphertext_msg@)) && wire_vals(asn, layout.rk_hash@) == h(
                wire_vals(asn, layout.rk_msg@),
            ) && wire_vals(asn, layout.new_hash@) == h(wire_vals(asn, layout.new_ciphertext@)),
        // the pairing output is bound to the points
        forall|asn: Seq<int>|
            #[trigger] sat(*final(builder), asn) ==> pairing_rel(
                layout.p.vals(asn),
                layout.q.vals(asn),
                layout.pairing_out.vals(asn),
            ),
        // and the whole system stays satisfiable for any generic point pair:
        // message, digest and ciphertext wires are free inputs
        forall|asn0: Seq<int>, pv: PtV, qv: Pt2V|
            #![trigger sat(*old(builder), asn0), pairing_generic(pv, qv)]
            sat(*old(builder), asn0) && asn0.len() == old(builder).gates@.len() && in_field(pv.x)
                && in_field(pv.y) && v2_canon(qv.x) && v2_canon(qv.y) && pairing_generic(pv, qv)
                ==> exists|asn: Seq<int>|
                #[trigger] sat(*final(builder), asn) && asn.len() == final(builder).gates@.len()
                    && asn0.is_prefix_of(asn) && layout.p.vals(asn) == pv && layout.q.vals(asn)
                    == qv,
{
    broadcast use lemma_sat_extends, lemma_extends_trans;

    // ciphertext message and its digest binding
    let ciphertext_msg = alloc_inputs(builder, msg_len);
    let ghost s1 = *builder;
    let ciphertext_hash = alloc_inputs(builder, DIGEST_WIDTH);
    let ghost s2 = *builder;
    verify_poseidon_signature(builder, &ciphertext_msg, &ciphertext_hash);
    let ghost s3 = *builder;
    // re-encryption-key message and its digest binding
    let rk_msg = alloc_inputs(builder, msg_len);
    let ghost s4 = *builder;
    let rk_hash = alloc_inputs(builder, DIGEST_WIDTH);
    let ghost s5 = *builder;
    verify_poseidon_signature(builder, &rk_msg, &rk_hash);
    let ghost s6 = *builder;
    // the pairing circuit
    let (p, q, pairing_out) = build_pairing_circuit(builder);
    let ghost s7 = *builder;
    // hash of the newly supplied ciphertext
    let new_ciphertext = alloc_inputs(builder, msg_len);
    let ghost s8 = *builder;
    let new_hash = alloc_inputs(builder, DIGEST_WIDTH);
    let ghost s9 = *builder;
    verify_poseidon_signature(builder, &new_ciphertext, &new_hash);
    let ghost s10 = *builder;
    // register the public inputs
    builder.register_public_input(p.x);
    builder.register_public_input(p.y);
    builder.register_public_input(q.x.c0);
    builder.register_public_input(q.x.c1);
    builder.register_public_input(q.y.c0);
    builder.register_public_input(q.y.c1);
    let nh0 = new_hash[0];
    let nh1 = new_hash[1];
    let nh2 = new_hash[2];
    let nh3 = new_hash[3];
    builder.register_public_input(nh0);
    builder.register_public_input(nh1);
    builder.register_public_input(nh2);
    builder.register_public_input(nh3);
    let layout = CircuitLayout {
        ciphertext_msg,
        ciphertext_hash,
        rk_msg,
        rk_hash,
        p,
        q,
        pairing_out,
        new_ciphertext,
        new_hash,
    };
    proof {
        assert(final_pub_ok(*old(builder), *builder, layout)) by {
            assert(builder.pub_inputs@ =~= old(builder).pub_inputs@ + layout_pub_wires(layout));
        };
        // the declared input blocks survive every later extension
        let b0 = old(builder).gates@.len() as int;
        lemma_inputs_in_order_extends(s1, *builder, layout.ciphertext_msg@, b0);
        lemma_inputs_in_order_extends(s2, *builder, layout.ciphertext_hash@, b0 + msg_len as int);
        lemma_inputs_in_order_extends(s4, *builder, layout.rk_msg@, b0 + msg_len + 4);
        lemma_inputs_in_order_extends(s5, *builder, layout.rk_hash@, b0 + 2 * msg_len + 4);
        lemma_inputs_in_order_extends(
            s7,
            *builder,
            point_wires(layout.p, layout.q),
            b0 + 2 * msg_len + 8,
        );
        lemma_inputs_in_order_extends(
            s8,
            *builder,
            layout.new_ciphertext@,
            b0 + 2 * msg_len + 14 + miller_gate_total() + 2595,
        );
        lemma_inputs_in_order_extends(
            s9,
            *builder,
            layout.new_hash@,
            b0 + 3 * msg_len + 14 + miller_gate_total() + 2595,
        );
        // cursor accounting: the declared blocks each advance the input
        // cursor by their length, the pairing gadget gates not at all
        let m = msg_len as int;
        lemma_block_cursor(*builder, layout.ciphertext_msg@, b0);
        lemma_block_cursor(*builder, layout.ciphertext_hash@, b0 + m);
        lemma_block_cursor(*builder, layout.rk_msg@, b0 + m + 4);
        lemma_block_cursor(*builder, layout.rk_hash@, b0 + 2 * m + 4);
        lemma_block_cursor(*builder, point_wires(layout.p, layout.q), b0 + 2 * m + 8);
        let x0 = b0 + 2 * m + 14 + miller_gate_total() + 2595;
        assert forall|j: int| b0 + 2 * m + 14 <= j < x0 implies !((
        #[trigger] builder.gates@[j]) is Input) by {
            lemma_extends_gate(s7, *builder, j);
        }
        lemma_inputs_before_flat(*builder, b0 + 2 * m + 14, x0);
        lemma_block_cursor(*builder, layout.new_ciphertext@, x0);
        lemma_block_cursor(*builder, layout.new_hash@, x0 + m);
        assert forall|asn: Seq<int>, h: spec_fn(Seq<int>) -> Seq<int>|
            #[trigger] hash_consistent(*builder, asn, h) implies wire_vals(
            asn,
            layout.ciphertext_hash@,
        ) == h(wire_vals(asn, layout.ciphertext_msg@)) && wire_vals(asn, layout.rk_hash@) == h(
            wire_vals(asn, layout.rk_msg@),
        ) && wire_vals(asn, layout.new_hash@) == h(wire_vals(asn, layout.new_ciphertext@)) by {
            lemma_hash_consistent_extends(s3, *builder, asn, h);
            lemma_hash_consistent_extends(s6, *builder, asn, h);
            lemma_hash_consistent_extends(s10, *builder, asn, h);
        }
        assert forall|asn: Seq<int>| #[trigger] sat(*builder, asn) implies pairing_rel(
            layout.p.vals(asn),
            layout.q.vals(asn),
            layout.pairing_out.vals(asn),
        ) by {
            lemma_sat_extends(s7, *builder, asn);
        }
        assert forall|asn0: Seq<int>, pv: PtV, qv: Pt2V|
            #![trigger sat(*old(builder), asn0), pairing_generic(pv, qv)]
            sat(*old(builder), asn0) && asn0.len() == old(builder).gates@.len() && in_field(pv.x)
                && in_field(pv.y) && v2_canon(qv.x) && v2_canon(qv.y) && pairing_generic(
                pv,
                qv,
            ) implies exists|asn: Seq<int>|
            #[trigger] sat(*builder, asn) && asn.len() == builder.gates@.len() && asn0.is_prefix_of(
                asn,
            ) && layout.p.vals(asn) == pv && layout.q.vals(asn) == qv by {
            // the message and digest blocks before the pairing are all
            // free input wires
            assert forall|j: int|
                old(builder).gates@.len() <= j < s6.gates@.len() implies !((
            #[trigger] s6.gates@[j]) is Inv) by {
                if j < b0 + m {
                    assert(layout.ciphertext_msg@[j - b0] as int == j);
                } else if j < b0 + m + 4 {
                    assert(layout.ciphertext_hash@[j - (b0 + m)] as int == j);
                } else if j < b0 + 2 * m + 4 {
                    assert(layout.rk_msg@[j - (b0 + m + 4)] as int == j);
                } else {
                    assert(layout.rk_hash@[j - (b0 + 2 * m + 4)] as int == j);
                }
            }
            lemma_inv_free_extendable(*old(builder), s6);
            let asn1 = choose|asn1: Seq<int>|
                #[trigger] sat(s6, asn1) && asn1.len() == s6.gates@.len() && asn0.is_prefix_of(
                    asn1,
                );
            // the pairing circuit extends with the chosen generic points
            let asn2 = choose|asn2: Seq<int>|
                #[trigger] sat(s7, asn2) && asn2.len() == s7.gates@.len() && asn1.is_prefix_of(
                    asn2,
                ) && layout.p.vals(asn2) == pv && layout.q.vals(asn2) == qv;
            // the new ciphertext and its digest are free input wires
            assert forall|j: int|
                s7.gates@.len() <= j < builder.gates@.len() implies !((
            #[trigger] builder.gates@[j]) is Inv) by {
                if j < x0 + m {
                    assert(layout.new_ciphertext@[j - x0] as int == j);
                } else {
                    assert(layout.new_hash@[j - (x0 + m)] as int == j);
                }
            }
            lemma_inv_free_extendable(s7, *builder);
            let asn3 = choose|asn3: Seq<int>|
                #[trigger] sat(*builder, asn3) && asn3.len() == builder.gates@.len()
                    && asn2.is_prefix_of(asn3);
            lemma_prefix_trans(asn0, asn1, asn2);
            lemma_prefix_trans(asn0, asn2, asn3);
            lemma_prefix_index(asn2, asn3, layout.p.x as int);
            lemma_prefix_index(asn2, asn3, layout.p.y as int);
            lemma_prefix_index(asn2, asn3, layout.q.x.c0 as int);
            lemma_prefix_index(asn2, asn3, layout.q.x.c1 as int);
            lemma_prefix_index(asn2, asn3, layout.q.y.c0 as int);
            lemma_prefix_index(asn2, asn3, layout.q.y.c1 as int);
            assert(sat(*builder, asn3) && asn3.len() == builder.gates@.len() && asn0.is_prefix_of(
                asn3,
            ) && layout.p.vals(asn3) == pv && layout.q.vals(asn3) == qv);
        }
    }
    layout
}

/// The registered public inputs are exactly the layout's, appended to
/// whatever was registered before.
pub open spec fn final_pub_ok(c1: CircuitCtx, c2: CircuitCtx, l: CircuitLayout) -> bool {
    c2.pub_inputs@ == c1.pub_inputs@ + layout_pub_wires(l)
}

} // verus!
