//! The hash invocation: a stateless wrapper around the fixed-rate Poseidon
//! permutation, and the hashing of whole values.

use vstd::prelude::*;

use crate::field::FieldElement;
use crate::value::{Value, Visibility, flatten, flatten_value, visibility_of, value_wf};

use snarkvm_algorithms::crypto_hash::Poseidon;
use snarkvm_curves::edwards_bls12::Fq;
use snarkvm_utilities::{FromBytes, ToBytes};

verus! {

broadcast use vstd::std_specs::vec::group_vec_axioms;

/// The digest of the rate-8 Poseidon permutation over a field-element
/// sequence. The permutation is a fixed cryptographic function of the input
/// sequence alone; its value is not re-stated here.
pub uninterp spec fn poseidon8_digest(inputs: Seq<nat>) -> nat;

/// The little-endian bytes of a field element's limbs.
fn fe_to_bytes(f: &FieldElement) -> (r: Vec<u8>)
    ensures
        r@.len() == 32,
{
    let mut out: Vec<u8> = Vec::new();
    push_limb(&mut out, f.l0);
    push_limb(&mut out, f.l1);
    push_limb(&mut out, f.l2);
    push_limb(&mut out, f.l3);
    out
}

/// Appends the eight little-endian bytes of one limb.
fn push_limb(out: &mut Vec<u8>, x: u64) -> (r: ())
    ensures
        final(out)@.len() == old(out)@.len() + 8,
{
    let mut v = x;
    let mut k: usize = 0;
    while k < 8
        invariant
            0 <= k <= 8,
            out@.len() == old(out)@.len() + k,
        decreases 8 - k,
    {
        out.push((v % 256) as u8);
        v = v / 256;
        k = k + 1;
    }
}

/// A field element from 32 little-endian bytes, limb by limb.
fn fe_from_bytes(b: &Vec<u8>) -> (r: FieldElement)
    requires
        b@.len() == 32,
{
    FieldElement {
        l0: read_limb(b, 0),
        l1: read_limb(b, 8),
        l2: read_limb(b, 16),
        l3: read_limb(b, 24),
    }
}

/// One limb from eight little-endian bytes at the given offset.
fn read_limb(b: &Vec<u8>, off: usize) -> (r: u64)
    requires
        off <= 24,
        b@.len() == 32,
{
    (b[off] as u64) + (b[off + 1] as u64) * 0x100 + (b[off + 2] as u64) * 0x10000 + (b[off + 3]
        as u64) * 0x1000000 + (b[off + 4] as u64) * 0x100000000 + (b[off + 5] as u64)
        * 0x10000000000 + (b[off + 6] as u64) * 0x1000000000000 + (b[off + 7] as u64)
        * 0x100000000000000
}

/// Relies on `snarkvm_algorithms::crypto_hash::Poseidon` with input rate 8,
/// over the field's default Poseidon parameters: hashing a sequence of field
/// elements returns one canonical field element that is a function of the
/// input sequence alone.
#[verifier::external_body]
fn poseidon8_hash(inputs: &Vec<FieldElement>) -> (r: FieldElement)
    requires
        forall|i: int| 0 <= i < inputs@.len() ==> (#[trigger] inputs@[i]).inv(),
    ensures
        r.value() == poseidon8_digest(inputs@.map_values(|f: FieldElement| f.value())),
        r.inv(),
{
    let hasher = Poseidon::<Fq, 8>::setup();
    let fields: Vec<Fq> = inputs.iter().map(|f| Fq::read_le(&fe_to_bytes(f)[..]).unwrap()).collect();
    fe_from_bytes(&hasher.evaluate(&fields).to_bytes_le().unwrap())
}

/// What hashing a value yields: the Poseidon digest of its field encoding,
/// tagged with the joined visibility of its leaves; or nothing, for a value
/// whose leaves the instruction rejects.
pub open spec fn digest_of(v: Value) -> Option<(nat, Visibility)> {
    match flatten_value(v) {
        Some(fs) => Some((poseidon8_digest(fs), visibility_of(v))),
        None => None,
    }
}

/// Whether a hash outcome is the one `digest_of` prescribes for the value.
pub open spec fn hash_result_matches(v: Value, r: Option<(FieldElement, Visibility)>) -> bool {
    match (digest_of(v), r) {
        (Some(dm), Some(fm)) => fm.0.value() == dm.0 && fm.1 == dm.1,
        (None, None) => true,
        _ => false,
    }
}

/// Hashes a value: flattens it into field elements and applies the
/// permutation. Returns `None` exactly when some leaf kind of the value has
/// no field encoding.
pub fn hash_value(v: &Value) -> (r: Option<(FieldElement, Visibility)>)
    requires
        value_wf(*v),
    ensures
        hash_result_matches(*v, r),
        r is Some <==> flatten_value(*v) is Some,
        r is Some ==> (r->0).0.inv(),
{
    match flatten(v) {
        None => None,
        Some((fs, vis)) => {
            let d = poseidon8_hash(&fs);
            Some((d, vis))
        },
    }
}

/// Determinism law: hashing one value twice yields identical digests and
/// identical visibilities, whatever the two runs returned.
pub proof fn lemma_hash_deterministic(
    v: Value,
    r1: Option<(FieldElement, Visibility)>,
    r2: Option<(FieldElement, Visibility)>,
)
    requires
        hash_result_matches(v, r1),
        hash_result_matches(v, r2),
    ensures
        r1 is Some <==> r2 is Some,
        r1 is Some ==> (r1->0).0.value() == (r2->0).0.value() && (r1->0).1 == (r2->0).1,
{
}

} // verus!
