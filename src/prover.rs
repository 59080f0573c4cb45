//! Binding commitments over an inference: model digest, input digest and output digest.
//!
//! A "proof" here is a versioned byte string: one format byte, then the BLAKE3 digest of
//! the model digest, the input digest and the output digest (all zero when the output
//! stays private), in that order. It is a hash commitment, not a zero-knowledge proof:
//! anyone holding the three public digests can compute it without running the model,
//! so it attests which model, input and output were named together, not that the
//! output was computed. A proving system that attests the computation takes the place
//! of `bind` behind the same format byte and `verify` interface.

use vstd::prelude::*;
use crate::integrity::{
    blake3_finalize, blake3_of, blake3_update, blake3_update_parallel, hash, hash_parallel,
    zero_digest,
};

verus! {

/// The proof format that this library writes and reads.
pub const PROOF_FORMAT_VERSION: u8 = 1;

/// Bytes of a proof: the format byte and one digest.
pub const PROOF_LEN: usize = 33;

/// The values that a proof is checked against.
pub struct PublicInputs {
    pub model_digest: [u8; 32],
    pub input_digest: [u8; 32],
    /// All zero when the output stays private.
    pub output_digest: [u8; 32],
}

/// A proof together with the public inputs it was produced over.
pub struct Proof {
    pub bytes: Vec<u8>,
    pub public_inputs: PublicInputs,
}

/// Errors of proof handling.
#[derive(PartialEq, Eq, Structural)]
pub enum ProverError {
    CircuitSynthesis,
    MemoryLimitExceeded,
    /// The bytes are not a proof of a format this library reads.
    SerializationError,
}

/// The digest that a proof carries for the three public digests.
pub open spec fn binding_of(model: Seq<u8>, input: Seq<u8>, output: Seq<u8>) -> Seq<u8> {
    blake3_of(model + input + output)
}

/// The bytes of the proof over the three public digests.
pub open spec fn proof_bytes_of(model: Seq<u8>, input: Seq<u8>, output: Seq<u8>) -> Seq<u8> {
    seq![PROOF_FORMAT_VERSION] + binding_of(model, input, output)
}

/// The public output digest: the output's digest, or the zero filler when it stays private.
pub open spec fn output_commitment(output: Seq<u8>, private_output: bool) -> Seq<u8> {
    if private_output {
        zero_digest()
    } else {
        blake3_of(output)
    }
}

/// Whether `bytes` prove the given model, input and (optional) output digests.
pub open spec fn proof_checks(
    bytes: Seq<u8>,
    model: Seq<u8>,
    input: Seq<u8>,
    output: Option<Seq<u8>>,
) -> bool {
    bytes == proof_bytes_of(
        model,
        input,
        match output {
            Some(o) => o,
            None => zero_digest(),
        },
    )
}

/// Whether a proof checks against the public inputs it carries.
pub open spec fn proof_valid(p: Proof) -> bool {
    p.bytes@ == proof_bytes_of(
        p.public_inputs.model_digest@,
        p.public_inputs.input_digest@,
        p.public_inputs.output_digest@,
    )
}

/// The proofs of `s` that check, in their order.
pub open spec fn valid_proofs(s: Seq<Proof>) -> Seq<Proof>
    decreases s.len(),
{
    if s.len() == 0 {
        s
    } else if proof_valid(s.last()) {
        valid_proofs(s.drop_last()).push(s.last())
    } else {
        valid_proofs(s.drop_last())
    }
}

/// The proof bytes produced for a model digest, an input and an output.
pub open spec fn generated_bytes(
    model: Seq<u8>,
    input: Seq<u8>,
    output: Seq<u8>,
    private_output: bool,
) -> Seq<u8> {
    proof_bytes_of(model, blake3_of(input), output_commitment(output, private_output))
}

/// Proof equivalence: the proof generated for a model, an input and an output (the
/// same bytes on the accelerated and on the portable path) checks against the model
/// digest, the input's digest and the output's digest, or no output when it is private.
pub proof fn lemma_proof_equivalence(
    model: Seq<u8>,
    input: Seq<u8>,
    output: Seq<u8>,
    private_output: bool,
)
    ensures
        proof_checks(
            generated_bytes(model, input, output, private_output),
            model,
            blake3_of(input),
            if private_output {
                None
            } else {
                Some(blake3_of(output))
            },
        ),
{
}

/// Digest of `data` on the chosen path.
fn digest_on(data: &[u8], accelerated: bool) -> (r: [u8; 32])
    ensures
        r@ == blake3_of(data@),
{
    if accelerated {
        hash_parallel(data)
    } else {
        hash(data)
    }
}

/// The proof bytes for three digests.
fn bind(model: &[u8; 32], input: &[u8; 32], output: &[u8; 32], accelerated: bool) -> (r: Vec<u8>)
    ensures
        r@ == proof_bytes_of(model@, input@, output@),
{
    let mut h = blake3::Hasher::new();
    if accelerated {
        blake3_update_parallel(&mut h, model.as_slice());
        blake3_update_parallel(&mut h, input.as_slice());
        blake3_update_parallel(&mut h, output.as_slice());
    } else {
        blake3_update(&mut h, model.as_slice());
        blake3_update(&mut h, input.as_slice());
        blake3_update(&mut h, output.as_slice());
    }
    assert(Seq::<u8>::empty() + model@ + input@ + output@ =~= model@ + input@ + output@);
    let digest = blake3_finalize(&h);
    let mut out: Vec<u8> = Vec::new();
    out.push(PROOF_FORMAT_VERSION);
    let mut i: usize = 0;
    while i < 32
        invariant
            i <= 32,
            digest@.len() == 32,
            out@ == seq![PROOF_FORMAT_VERSION] + digest@.subrange(0, i as int),
        decreases 32 - i,
    {
        out.push(digest[i]);
        assert(out@ =~= seq![PROOF_FORMAT_VERSION] + digest@.subrange(0, i + 1));
        i = i + 1;
    }
    assert(digest@.subrange(0, 32) =~= digest@);
    out
}

/// Produces the commitment that binds `output` to the model with digest `model_digest`
/// and to `input` (see the module documentation: it does not attest the computation).
/// With `private_output` the output's digest is replaced by zeros. The accelerated path
/// hashes on worker threads; both paths give the same bytes.
pub fn generate_proof(
    model_digest: &[u8; 32],
    input: &[u8],
    output: &[u8],
    private_output: bool,
    accelerated: bool,
) -> (r: Proof)
    ensures
        r.public_inputs.model_digest@ == model_digest@,
        r.public_inputs.input_digest@ == blake3_of(input@),
        r.public_inputs.output_digest@ == output_commitment(output@, private_output),
        r.bytes@ == generated_bytes(model_digest@, input@, output@, private_output),
        proof_valid(r),
{
    let input_digest = digest_on(input, accelerated);
    let output_digest: [u8; 32] = if private_output {
        let z: [u8; 32] = [0u8; 32];
        assert(z@ =~= zero_digest());
        z
    } else {
        digest_on(output, accelerated)
    };
    let bytes = bind(model_digest, &input_digest, &output_digest, accelerated);
    Proof {
        bytes,
        public_inputs: PublicInputs {
            model_digest: *model_digest,
            input_digest,
            output_digest,
        },
    }
}

/// The binding digest of a proof, or `SerializationError` when the bytes are not a proof
/// of the supported format.
pub fn parse_proof(bytes: &[u8]) -> (r: Result<[u8; 32], ProverError>)
    ensures
        (bytes@.len() == PROOF_LEN && bytes@[0] == PROOF_FORMAT_VERSION) ==> (r matches Ok(d)
            && d@ == bytes@.subrange(1, 33)),
        !(bytes@.len() == PROOF_LEN && bytes@[0] == PROOF_FORMAT_VERSION) ==> r == Err::<
            [u8; 32],
            ProverError,
        >(ProverError::SerializationError),
{
    if bytes.len() != PROOF_LEN || bytes[0] != PROOF_FORMAT_VERSION {
        return Err(ProverError::SerializationError);
    }
    let mut d: [u8; 32] = [0u8; 32];
    let mut i: usize = 0;
    while i < 32
        invariant
            i <= 32,
            bytes@.len() == 33,
            d@.len() == 32,
            forall|j: int| 0 <= j < i ==> d@[j] == bytes@[j + 1],
        decreases 32 - i,
    {
        d[i] = bytes[i + 1];
        i = i + 1;
    }
    assert(d@ =~= bytes@.subrange(1, 33));
    Ok(d)
}

/// Whether `proof` proves the model digest, the input digest and the output digest
/// (`None` for a private output).
pub fn verify(
    proof: &[u8],
    model_digest: &[u8; 32],
    input_digest: &[u8; 32],
    output_digest: Option<&[u8; 32]>,
) -> (r: bool)
    ensures
        r == proof_checks(
            proof@,
            model_digest@,
            input_digest@,
            match output_digest {
                Some(o) => Some(o@),
                None => None,
            },
        ),
{
    let zero: [u8; 32] = [0u8; 32];
    assert(zero@ =~= zero_digest());
    let out: &[u8; 32] = match output_digest {
        Some(o) => o,
        None => &zero,
    };
    assert(out@ == match output_digest {
        Some(o) => o@,
        None => zero_digest(),
    });
    let expected = bind(model_digest, input_digest, out, false);
    if proof.len() != expected.len() {
        return false;
    }
    let mut i: usize = 0;
    while i < proof.len()
        invariant
            i <= proof@.len(),
            proof@.len() == expected@.len(),
            forall|j: int| 0 <= j < i ==> proof@[j] == expected@[j],
            proof_checks(
                proof@,
                model_digest@,
                input_digest@,
                match output_digest {
                    Some(o) => Some(o@),
                    None => None,
                },
            ) == (proof@ == expected@),
        decreases proof@.len() - i,
    {
        if proof[i] != expected[i] {
            assert(proof@[i as int] != expected@[i as int]);
            assert(proof@ != expected@);
            return false;
        }
        i = i + 1;
    }
    assert(proof@ =~= expected@);
    true
}

/// Whether a proof checks against the public inputs it carries.
pub fn verify_proof(proof: &Proof) -> (r: bool)
    ensures
        r == proof_valid(*proof),
{
    verify(
        proof.bytes.as_slice(),
        &proof.public_inputs.model_digest,
        &proof.public_inputs.input_digest,
        Some(&proof.public_inputs.output_digest),
    )
}

/// Batch verification: the proofs that check, in their order.
pub fn validate_updates(updates: Vec<Proof>) -> (r: Vec<Proof>)
    ensures
        r@ == valid_proofs(updates@),
{
    let ghost orig = updates@;
    let mut rest = updates;
    let mut out: Vec<Proof> = Vec::new();
    let ghost mut j: int = 0;
    assert(orig.subrange(0, 0) =~= Seq::<Proof>::empty());
    assert(orig.subrange(0, orig.len() as int) =~= orig);
    while rest.len() > 0
        invariant
            0 <= j <= orig.len(),
            rest@ == orig.subrange(j, orig.len() as int),
            out@ == valid_proofs(orig.subrange(0, j)),
        decreases rest@.len(),
    {
        let p = rest.remove(0);
        assert(orig.subrange(0, j + 1).drop_last() =~= orig.subrange(0, j));
        assert(orig.subrange(0, j + 1).last() == p);
        if verify_proof(&p) {
            out.push(p);
        }
        proof {
            j = j + 1;
        }
        assert(rest@ =~= orig.subrange(j, orig.len() as int));
    }
    assert(orig.subrange(0, j) =~= orig);
    out
}

} // verus!
