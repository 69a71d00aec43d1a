//! The contract that every compression proof system for relaxed R1CS meets.
use vstd::prelude::*;
use crate::commitment::{commit_spec, CommitmentKey};
use crate::errors::NovaError;
use crate::r1cs::{
    canonical, relation_holds, InstanceModel, R1CSShape, RelaxedR1CSInstance,
    RelaxedR1CSWitness, ShapeModel, WitnessModel, MODULUS,
};

verus! {

/// The smallest key that the shape's own vectors need: one generator for
/// each witness value and one for each error value.
pub open spec fn shape_floor(s: ShapeModel) -> nat {
    if s.num_vars >= s.num_cons {
        s.num_vars
    } else {
        s.num_cons
    }
}

/// Holds when the instance and witness have the sizes that the shape declares.
pub open spec fn dims_agree(s: ShapeModel, inst: InstanceModel, wit: WitnessModel) -> bool {
    &&& wit.w.len() == s.num_vars
    &&& wit.e.len() == s.num_cons
    &&& inst.x.len() == s.num_io
}

/// Holds when every value of the instance and witness is a field element.
pub open spec fn values_canonical(inst: InstanceModel, wit: WitnessModel) -> bool {
    &&& canonical(wit.w)
    &&& canonical(wit.e)
    &&& canonical(inst.x)
    &&& inst.u < MODULUS
}

/// Holds when `wit` is a witness for `inst` under the key `ck` and the shape
/// `s`: the sizes agree, the key is long enough, the witness opens both
/// commitments and satisfies the relaxed equation.
pub open spec fn satisfies(ck: Seq<u64>, s: ShapeModel, inst: InstanceModel, wit: WitnessModel) -> bool {
    &&& s.wf()
    &&& dims_agree(s, inst, wit)
    &&& ck.len() >= shape_floor(s)
    &&& values_canonical(inst, wit)
    &&& commit_spec(ck, wit.w) == inst.comm_w
    &&& commit_spec(ck, wit.e) == inst.comm_e
    &&& relation_holds(s, wit.w, wit.e, inst.u, inst.x)
}

/// The floor of a system that needs no generators of its own.
pub fn default_commitment_key_floor(shape: &R1CSShape) -> (r: usize)
    ensures
        r == 0,
{
    0
}

/// A key built for a larger floor meets every smaller one: in particular, a
/// key with at least `larger` generators, where `larger` is at least the
/// floor that system `B` declares for `s`, meets that floor, so setup on a
/// well-formed shape does not reject it as too small.
pub proof fn lemma_floor_monotone<B: RelaxedR1CSSNARKTrait>(ck: Seq<u64>, s: ShapeModel, larger: nat)
    requires
        ck.len() >= larger,
        larger >= B::floor_of(s),
    ensures
        ck.len() >= B::floor_of(s),
{
}

/// A proof system that compresses one relaxed R1CS instance/witness pair
/// into a proof that anyone holding the verifier key can check.
pub trait RelaxedR1CSSNARKTrait: Sized {
    /// The key that the prover uses.
    type ProverKey;

    /// The key that the verifier uses.
    type VerifierKey;

    /// The fewest generators that this system needs in a commitment key for
    /// shape `s`: a function of the shape alone.
    spec fn floor_of(s: ShapeModel) -> nat;

    /// Holds of every verifier key that setup returns.
    spec fn verifier_key_wf(vk: Self::VerifierKey) -> bool;

    /// The bytes that a proof is persisted as.
    spec fn proof_bytes(self) -> Seq<u8>;

    /// The bytes that a prover key is persisted as.
    spec fn prover_key_bytes(pk: Self::ProverKey) -> Seq<u8>;

    /// The bytes that a verifier key is persisted as.
    spec fn verifier_key_bytes(vk: Self::VerifierKey) -> Seq<u8>;

    /// Holds when two proofs are interchangeable in every later call.
    spec fn same_proof(self, other: Self) -> bool;

    /// Holds when two prover keys are interchangeable in every later call.
    spec fn same_prover_key(a: Self::ProverKey, b: Self::ProverKey) -> bool;

    /// Holds when two verifier keys are interchangeable in every later call.
    spec fn same_verifier_key(a: Self::VerifierKey, b: Self::VerifierKey) -> bool;

    /// Holds when `pk` is the prover key that setup derives from `ck` and `s`.
    spec fn prover_key_for(pk: Self::ProverKey, ck: Seq<u64>, s: ShapeModel) -> bool;

    /// Holds when `vk` is the verifier key that setup derives from `ck` and `s`.
    spec fn verifier_key_for(vk: Self::VerifierKey, ck: Seq<u64>, s: ShapeModel) -> bool;

    /// Holds when `self` is the proof that prove makes for these inputs.
    spec fn proves(self, ck: Seq<u64>, s: ShapeModel, inst: InstanceModel, wit: WitnessModel) -> bool;

    /// Holds when verification of `self` against `vk` and `inst` succeeds.
    spec fn accepts(self, vk: Self::VerifierKey, inst: InstanceModel) -> bool;

    /// The minimum size of the commitment key that setup accepts for the
    /// shape. A system with no needs of its own returns
    /// [`default_commitment_key_floor`].
    fn commitment_key_floor(shape: &R1CSShape) -> (r: usize)
        ensures
            r == Self::floor_of(shape@),
    ;

    /// Derives the prover and verifier keys for a shape.
    fn setup(ck: &CommitmentKey, shape: &R1CSShape) -> (r: Result<
        (Self::ProverKey, Self::VerifierKey),
        NovaError,
    >)
        ensures
            shape@.wf() && ck@.len() >= Self::floor_of(shape@) <==> r is Ok,
            r matches Ok((pk, vk)) ==> Self::prover_key_for(pk, ck@, shape@)
                && Self::verifier_key_for(vk, ck@, shape@) && Self::verifier_key_wf(vk),
            !shape@.wf() ==> r == Err::<(Self::ProverKey, Self::VerifierKey), NovaError>(
                NovaError::SetupFailure,
            ),
            shape@.wf() && ck@.len() < Self::floor_of(shape@) ==> r == Err::<
                (Self::ProverKey, Self::VerifierKey),
                NovaError,
            >(NovaError::KeyTooSmall),
    ;

    /// Proves that `wit` satisfies the relaxed shape for `inst`.
    fn prove(
        ck: &CommitmentKey,
        pk: &Self::ProverKey,
        shape: &R1CSShape,
        inst: &RelaxedR1CSInstance,
        wit: &RelaxedR1CSWitness,
    ) -> (r: Result<Self, NovaError>)
        ensures
            r matches Ok(p) ==> satisfies(ck@, shape@, inst@, wit@) && p.proves(
                ck@,
                shape@,
                inst@,
                wit@,
            ),
            Self::prover_key_for(*pk, ck@, shape@) && satisfies(ck@, shape@, inst@, wit@)
                ==> r is Ok,
            shape@.wf() && !dims_agree(shape@, inst@, wit@) ==> r == Err::<Self, NovaError>(
                NovaError::ShapeMismatch,
            ),
            shape@.wf() && Self::prover_key_for(*pk, ck@, shape@) && dims_agree(shape@, inst@, wit@)
                && ck@.len() >= Self::floor_of(shape@) && !satisfies(ck@, shape@, inst@, wit@)
                ==> r == Err::<Self, NovaError>(NovaError::UnsatisfiedRelation),
    ;

    /// Checks the proof against the public instance.
    fn verify(&self, vk: &Self::VerifierKey, inst: &RelaxedR1CSInstance) -> (r: Result<
        (),
        NovaError,
    >)
        ensures
            r is Ok <==> self.accepts(*vk, inst@),
            r is Err ==> r == Err::<(), NovaError>(NovaError::VerificationFailure),
    ;

    /// Writes a proof as bytes.
    fn encode_proof(&self) -> (r: Vec<u8>)
        ensures
            r@ == self.proof_bytes(),
    ;

    /// Reads a proof back from bytes; the bytes of any proof give back one
    /// interchangeable with it.
    fn decode_proof(b: &Vec<u8>) -> (r: Option<Self>)
        ensures
            forall|p: Self| #[trigger] p.proof_bytes() == b@ ==> (r matches Some(q) && q.same_proof(p)),
    ;

    /// Writes a prover key as bytes.
    fn encode_prover_key(pk: &Self::ProverKey) -> (r: Vec<u8>)
        ensures
            r@ == Self::prover_key_bytes(*pk),
    ;

    /// Reads a prover key back from bytes; the bytes of any prover key give
    /// back one interchangeable with it.
    fn decode_prover_key(b: &Vec<u8>) -> (r: Option<Self::ProverKey>)
        ensures
            forall|pk: Self::ProverKey| #[trigger] Self::prover_key_bytes(pk) == b@ ==> (r matches Some(
                q,
            ) && Self::same_prover_key(q, pk)),
    ;

    /// Writes a verifier key as bytes.
    fn encode_verifier_key(vk: &Self::VerifierKey) -> (r: Vec<u8>)
        ensures
            r@ == Self::verifier_key_bytes(*vk),
    ;

    /// Reads a verifier key back from bytes; the bytes of any verifier key
    /// that setup can return give back one interchangeable with it.
    fn decode_verifier_key(b: &Vec<u8>) -> (r: Option<Self::VerifierKey>)
        ensures
            forall|vk: Self::VerifierKey|
                Self::verifier_key_wf(vk) && #[trigger] Self::verifier_key_bytes(vk) == b@ ==> (
                r matches Some(q) && Self::same_verifier_key(q, vk)),
    ;

    /// Interchangeable proofs get the same verdict from every key and instance.
    proof fn lemma_same_proof(p: Self, q: Self, vk: Self::VerifierKey, inst: InstanceModel)
        requires
            q.same_proof(p),
        ensures
            q.accepts(vk, inst) == p.accepts(vk, inst),
    ;

    /// Interchangeable prover keys are derived from the same inputs, so
    /// prove succeeds with one exactly where it succeeds with the other.
    proof fn lemma_same_prover_key(pk: Self::ProverKey, q: Self::ProverKey, ck: Seq<u64>, s: ShapeModel)
        requires
            Self::same_prover_key(q, pk),
        ensures
            Self::prover_key_for(q, ck, s) == Self::prover_key_for(pk, ck, s),
    ;

    /// Interchangeable verifier keys are derived from the same inputs and
    /// accept the same proofs.
    proof fn lemma_same_verifier_key(
        vk: Self::VerifierKey,
        q: Self::VerifierKey,
        p: Self,
        ck: Seq<u64>,
        s: ShapeModel,
        inst: InstanceModel,
    )
        requires
            Self::same_verifier_key(q, vk),
        ensures
            Self::verifier_key_for(q, ck, s) == Self::verifier_key_for(vk, ck, s),
            p.accepts(q, inst) == p.accepts(vk, inst),
    ;

    /// An honest proof checks under a verifier key that setup derived from
    /// the same commitment key and shape.
    proof fn lemma_completeness(
        p: Self,
        vk: Self::VerifierKey,
        ck: Seq<u64>,
        s: ShapeModel,
        inst: InstanceModel,
        wit: WitnessModel,
    )
        requires
            Self::verifier_key_for(vk, ck, s),
            satisfies(ck, s, inst, wit),
            p.proves(ck, s, inst, wit),
        ensures
            p.accepts(vk, inst),
    ;

    /// A proof that verifies attests to a witness: some witness opens the
    /// instance's commitments and satisfies the relaxed equation under the
    /// commitment key and shape that the verifier key was derived from.
    proof fn lemma_soundness(p: Self, vk: Self::VerifierKey, ck: Seq<u64>, s: ShapeModel, inst: InstanceModel)
        requires
            Self::verifier_key_for(vk, ck, s),
            p.accepts(vk, inst),
        ensures
            exists|wit: WitnessModel| satisfies(ck, s, inst, wit),
    ;

    /// Two verifier keys that setup derived from the same inputs accept the
    /// same proofs.
    proof fn lemma_setup_deterministic(
        p: Self,
        vk1: Self::VerifierKey,
        vk2: Self::VerifierKey,
        ck: Seq<u64>,
        s: ShapeModel,
        inst: InstanceModel,
    )
        requires
            Self::verifier_key_for(vk1, ck, s),
            Self::verifier_key_for(vk2, ck, s),
        ensures
            p.accepts(vk1, inst) == p.accepts(vk2, inst),
    ;
}

} // verus!
