//! The signature-binding gadget: bind externally supplied digest wires to
//! the permutation-hash of a sequence of message wires.  The hash itself is
//! a capability of the proving backend; here it is an abstract function
//! over which the binding law quantifies.
use vstd::prelude::*;
use crate::circuit::{CircuitCtx, HashBind, DIGEST_WIDTH, ctx_wf, sat, extends, hash_consistent,
    wire_vals};

verus! {

/// Recompute the permutation-hash of `message` in-circuit and assert
/// per-component equality with `provided_hash`: under any satisfying
/// assignment that is consistent with a hash function `h`, the digest
/// wires carry exactly `h` of the message wires.
pub fn verify_poseidon_signature(
    builder: &mut CircuitCtx,
    message: &Vec<usize>,
    provided_hash: &Vec<usize>,
)
    requires
        ctx_wf(*old(builder)),
        forall|j: int| 0 <= j < message@.len() ==> message@[j] < old(builder).gates@.len(),
        provided_hash@.len() == DIGEST_WIDTH,
        forall|j: int| 0 <= j < provided_hash@.len() ==> provided_hash@[j] < old(
            builder,
        ).gates@.len(),
    ensures
        ctx_wf(*final(builder)),
        extends(*old(builder), *final(builder)),
        final(builder).gates@ == old(builder).gates@,
        final(builder).eqs@ == old(builder).eqs@,
        final(builder).pub_inputs@ == old(builder).pub_inputs@,
        final(builder).hashes@.len() == old(builder).hashes@.len() + 1,
        final(builder).hashes@.last().inputs@ == message@,
        final(builder).hashes@.last().outputs@ == provided_hash@,
        forall|asn: Seq<int>, h: spec_fn(Seq<int>) -> Seq<int>|
            #[trigger] hash_consistent(*final(builder), asn, h) ==> wire_vals(asn, provided_hash@)
                == h(wire_vals(asn, message@)),
{
    let inputs = clone_wires(message);
    let outputs = clone_wires(provided_hash);
    builder.bind_hash(inputs, outputs);
    proof {
        let n = old(builder).hashes@.len() as int;
        assert forall|asn: Seq<int>, h: spec_fn(Seq<int>) -> Seq<int>|
            #[trigger] hash_consistent(*builder, asn, h) implies wire_vals(asn, provided_hash@)
            == h(wire_vals(asn, message@)) by {
            assert(wire_vals(asn, builder.hashes@[n].outputs@) == h(
                wire_vals(asn, builder.hashes@[n].inputs@),
            ));
        }
    }
}

/// Copy a list of wire indices.
fn clone_wires(ws: &Vec<usize>) -> (r: Vec<usize>)
    ensures
        r@ == ws@,
{
    let mut r: Vec<usize> = Vec::new();
    let mut i: usize = 0;
    while i < ws.len()
        invariant
            i <= ws@.len(),
            r@ == ws@.take(i as int),
        decreases ws@.len() - i,
    {
        r.push(ws[i]);
        proof {
            assert(r@ =~= ws@.take(i as int + 1));
        }
        i = i + 1;
    }
    proof {
        assert(ws@.take(ws@.len() as int) =~= ws@);
    }
    r
}

} // verus!
