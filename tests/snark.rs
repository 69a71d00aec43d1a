use nova_snark::codec::{decode_words, encode_words};
use nova_snark::commitment::CommitmentKey;
use nova_snark::direct::{DirectSNARK, ProverKey, VerifierKey};
use nova_snark::errors::NovaError;
use nova_snark::r1cs::{field_add, field_mul, R1CSShape, RelaxedR1CSInstance, RelaxedR1CSWitness, MODULUS};
use nova_snark::snark::{default_commitment_key_floor, RelaxedR1CSSNARKTrait};

// Columns of z: w0 = 0, w1 = 1, u = 2, x0 = 3.
// Row 0: w0 * w0 = w1. Row 1: w1 * u = x0 (scaled by u).
fn square_shape() -> R1CSShape {
    R1CSShape {
        num_cons: 2,
        num_vars: 2,
        num_io: 1,
        a: vec![(0, 0, 1), (1, 1, 1)],
        b: vec![(0, 0, 1), (1, 2, 1)],
        c: vec![(0, 1, 1), (1, 3, 1)],
    }
}

fn key() -> CommitmentKey {
    CommitmentKey::from_generators(&vec![2, 5])
}

fn square_instance() -> (RelaxedR1CSInstance, RelaxedR1CSWitness) {
    let inst = RelaxedR1CSInstance { comm_w: 2 * 3 + 5 * 9, comm_e: 0, x: vec![9], u: 1 };
    let wit = RelaxedR1CSWitness { w: vec![3, 9], e: vec![0, 0] };
    (inst, wit)
}

fn keys() -> (ProverKey, VerifierKey) {
    match DirectSNARK::setup(&key(), &square_shape()) {
        Ok(k) => k,
        Err(e) => panic!("setup failed: {:?}", e),
    }
}

fn honest_proof() -> DirectSNARK {
    let (pk, _) = keys();
    let (inst, wit) = square_instance();
    match DirectSNARK::prove(&key(), &pk, &square_shape(), &inst, &wit) {
        Ok(p) => p,
        Err(e) => panic!("prove failed: {:?}", e),
    }
}

#[test]
fn default_floor_is_zero() {
    assert_eq!(default_commitment_key_floor(&square_shape()), 0);
}

#[test]
fn floor_is_largest_committed_vector() {
    assert_eq!(DirectSNARK::commitment_key_floor(&square_shape()), 2);
    assert_eq!(DirectSNARK::commitment_key_floor(&square_shape()), DirectSNARK::commitment_key_floor(&square_shape()));
    let mut s = square_shape();
    s.num_vars = 5;
    s.num_io = 0;
    assert_eq!(DirectSNARK::commitment_key_floor(&s), 5);
}

#[test]
fn key_meeting_floor_is_accepted() {
    let floor = DirectSNARK::commitment_key_floor(&square_shape());
    let exact = CommitmentKey::from_generators(&vec![7; floor]);
    assert!(DirectSNARK::setup(&exact, &square_shape()).is_ok());
    let larger = CommitmentKey::from_generators(&vec![7; floor + 3]);
    assert!(DirectSNARK::setup(&larger, &square_shape()).is_ok());
    let smaller = CommitmentKey::from_generators(&vec![7; floor - 1]);
    assert!(matches!(DirectSNARK::setup(&smaller, &square_shape()), Err(NovaError::KeyTooSmall)));
}

#[test]
fn completeness_on_a_strict_instance() {
    let (_, vk) = keys();
    let (inst, _) = square_instance();
    let p = honest_proof();
    assert_eq!(p.w, vec![3, 9]);
    assert_eq!(p.e, vec![0, 0]);
    assert_eq!(p.verify(&vk, &inst), Ok(()));
}

#[test]
fn completeness_on_a_relaxed_instance() {
    // With u = 2 row 0 reads 9 = 2 * 9 + E0, so E0 = -9.
    let e0 = MODULUS - 9;
    let inst = RelaxedR1CSInstance { comm_w: 51, comm_e: (2 * e0) % MODULUS, x: vec![9], u: 2 };
    let wit = RelaxedR1CSWitness { w: vec![3, 9], e: vec![e0, 0] };
    let (pk, vk) = keys();
    let p = DirectSNARK::prove(&key(), &pk, &square_shape(), &inst, &wit).unwrap();
    assert_eq!(p.verify(&vk, &inst), Ok(()));
}

#[test]
fn setup_rejects_small_key() {
    let ck = CommitmentKey::from_generators(&vec![2]);
    assert!(matches!(DirectSNARK::setup(&ck, &square_shape()), Err(NovaError::KeyTooSmall)));
}

#[test]
fn setup_rejects_malformed_shape() {
    let mut s = square_shape();
    s.a.push((2, 0, 1));
    assert!(matches!(DirectSNARK::setup(&key(), &s), Err(NovaError::SetupFailure)));
    let mut s = square_shape();
    s.c.push((0, 4, 1));
    assert!(matches!(DirectSNARK::setup(&key(), &s), Err(NovaError::SetupFailure)));
}

#[test]
fn prove_rejects_wrong_witness_length() {
    let (pk, _) = keys();
    let (inst, _) = square_instance();
    let wit = RelaxedR1CSWitness { w: vec![3, 9, 0], e: vec![0, 0] };
    assert!(matches!(
        DirectSNARK::prove(&key(), &pk, &square_shape(), &inst, &wit),
        Err(NovaError::ShapeMismatch)
    ));
}

#[test]
fn prove_rejects_wrong_public_input_length() {
    let (pk, _) = keys();
    let (mut inst, wit) = square_instance();
    inst.x = vec![9, 9];
    assert!(matches!(
        DirectSNARK::prove(&key(), &pk, &square_shape(), &inst, &wit),
        Err(NovaError::ShapeMismatch)
    ));
}

#[test]
fn prove_rejects_foreign_prover_key() {
    let pk = ProverKey { num_cons: 3, num_vars: 2, num_io: 1 };
    let (inst, wit) = square_instance();
    assert!(matches!(
        DirectSNARK::prove(&key(), &pk, &square_shape(), &inst, &wit),
        Err(NovaError::ShapeMismatch)
    ));
}

#[test]
fn prove_rejects_small_key() {
    let (pk, _) = keys();
    let (inst, wit) = square_instance();
    let ck = CommitmentKey::from_generators(&vec![2]);
    assert!(matches!(
        DirectSNARK::prove(&ck, &pk, &square_shape(), &inst, &wit),
        Err(NovaError::KeyTooSmall)
    ));
}

#[test]
fn prove_rejects_flipped_bit() {
    let (pk, _) = keys();
    let (inst, mut wit) = square_instance();
    wit.w[1] ^= 1;
    assert!(matches!(
        DirectSNARK::prove(&key(), &pk, &square_shape(), &inst, &wit),
        Err(NovaError::UnsatisfiedRelation)
    ));
}

#[test]
fn prove_rejects_committed_but_unsatisfied_witness() {
    let (pk, _) = keys();
    let inst = RelaxedR1CSInstance { comm_w: 2 * 3 + 5 * 8, comm_e: 0, x: vec![8], u: 1 };
    let wit = RelaxedR1CSWitness { w: vec![3, 8], e: vec![0, 0] };
    assert!(matches!(
        DirectSNARK::prove(&key(), &pk, &square_shape(), &inst, &wit),
        Err(NovaError::UnsatisfiedRelation)
    ));
}

#[test]
fn prove_rejects_non_canonical_value() {
    let (pk, _) = keys();
    let (mut inst, mut wit) = square_instance();
    wit.e[0] = MODULUS;
    inst.comm_e = (2 * MODULUS) % MODULUS;
    assert!(matches!(
        DirectSNARK::prove(&key(), &pk, &square_shape(), &inst, &wit),
        Err(NovaError::UnsatisfiedRelation)
    ));
}

#[test]
fn verify_rejects_mutated_proof() {
    let (_, vk) = keys();
    let (inst, _) = square_instance();
    let mut p = honest_proof();
    p.w[0] = 4;
    assert_eq!(p.verify(&vk, &inst), Err(NovaError::VerificationFailure));
    let mut p = honest_proof();
    p.e[1] = 1;
    assert_eq!(p.verify(&vk, &inst), Err(NovaError::VerificationFailure));
    let mut p = honest_proof();
    p.e.push(0);
    assert_eq!(p.verify(&vk, &inst), Err(NovaError::VerificationFailure));
}

#[test]
fn verify_rejects_substituted_instance() {
    let (_, vk) = keys();
    let p = honest_proof();
    let (mut inst, _) = square_instance();
    inst.x = vec![10];
    assert_eq!(p.verify(&vk, &inst), Err(NovaError::VerificationFailure));
    let (mut inst, _) = square_instance();
    inst.comm_w = 52;
    assert_eq!(p.verify(&vk, &inst), Err(NovaError::VerificationFailure));
}

#[test]
fn setup_is_deterministic() {
    let (_, vk1) = keys();
    let (_, vk2) = keys();
    let (inst, _) = square_instance();
    let p = honest_proof();
    assert_eq!(p.verify(&vk1, &inst), Ok(()));
    assert_eq!(p.verify(&vk2, &inst), Ok(()));
}

#[test]
fn proof_bytes_round_trip() {
    let p = honest_proof();
    let bytes = p.to_bytes();
    assert_eq!(bytes.len(), 8 * 6);
    assert_eq!(&bytes[0..8], &[2, 0, 0, 0, 0, 0, 0, 0]);
    assert_eq!(&bytes[16..24], &[9, 0, 0, 0, 0, 0, 0, 0]);
    let q = DirectSNARK::from_bytes(&bytes).unwrap();
    assert_eq!(q.w, p.w);
    assert_eq!(q.e, p.e);
    let (_, vk) = keys();
    let (inst, _) = square_instance();
    assert_eq!(q.verify(&vk, &inst), Ok(()));
}

#[test]
fn proof_bytes_reject_truncation() {
    let bytes = honest_proof().to_bytes();
    assert!(DirectSNARK::from_bytes(&bytes[..bytes.len() - 1].to_vec()).is_none());
    assert!(DirectSNARK::from_bytes(&bytes[..bytes.len() - 8].to_vec()).is_none());
    assert!(DirectSNARK::from_bytes(&Vec::new()).is_none());
}

#[test]
fn prover_key_bytes_round_trip() {
    let (pk, _) = keys();
    let bytes = pk.to_bytes();
    assert_eq!(bytes, vec![2, 0, 0, 0, 0, 0, 0, 0, 2, 0, 0, 0, 0, 0, 0, 0, 1, 0, 0, 0, 0, 0, 0, 0]);
    let pk2 = ProverKey::from_bytes(&bytes).unwrap();
    assert_eq!((pk2.num_cons, pk2.num_vars, pk2.num_io), (2, 2, 1));
    let (inst, wit) = square_instance();
    assert!(DirectSNARK::prove(&key(), &pk2, &square_shape(), &inst, &wit).is_ok());
    assert!(ProverKey::from_bytes(&bytes[..16].to_vec()).is_none());
}

#[test]
fn words_codec() {
    let bytes = encode_words(&vec![0x0102030405060708, 1]);
    assert_eq!(bytes, vec![8, 7, 6, 5, 4, 3, 2, 1, 1, 0, 0, 0, 0, 0, 0, 0]);
    assert_eq!(decode_words(&bytes), Some(vec![0x0102030405060708, 1]));
    assert_eq!(decode_words(&vec![1, 2, 3]), None);
}

#[test]
fn commitment_is_inner_product() {
    let ck = CommitmentKey::from_generators(&vec![MODULUS + 2, 5, 7]);
    assert_eq!(ck.capacity(), 3);
    assert_eq!(ck.commit(&vec![1]), 2);
    assert_eq!(ck.commit(&vec![3, 9]), 51);
    assert_eq!(ck.commit(&vec![]), 0);
}

#[test]
fn field_arithmetic_wraps() {
    assert_eq!(field_mul(MODULUS - 1, MODULUS - 1), 1);
    assert_eq!(field_add(MODULUS - 1, 2), 1);
}

#[test]
fn relaxed_equation_check() {
    let s = square_shape();
    assert!(s.is_well_formed());
    assert!(s.is_sat_relaxed(&vec![3, 9], &vec![0, 0], 1, &vec![9]));
    assert!(!s.is_sat_relaxed(&vec![3, 9], &vec![0, 0], 1, &vec![8]));
}

#[test]
fn verifier_key_bytes_round_trip() {
    let (_, vk) = keys();
    let bytes = vk.to_bytes();
    // 3 words of generators, 3 dimensions, 3 matrices of 2 entries each.
    assert_eq!(bytes.len(), 8 * (3 + 3 + 3 * 9));
    assert_eq!(&bytes[0..8], &[2, 0, 0, 0, 0, 0, 0, 0]);
    let vk2 = VerifierKey::from_bytes(&bytes).unwrap();
    assert_eq!(vk2.ck.generators(), vec![2, 5]);
    assert_eq!(vk2.shape.num_cons, 2);
    assert_eq!(vk2.shape.c, vec![(0, 1, 1), (1, 3, 1)]);
    let (inst, _) = square_instance();
    assert_eq!(honest_proof().verify(&vk2, &inst), Ok(()));
    let mut p = honest_proof();
    p.w[1] = 10;
    assert_eq!(p.verify(&vk2, &inst), Err(NovaError::VerificationFailure));
}

#[test]
fn verifier_key_bytes_reject_bad_input() {
    let (_, vk) = keys();
    let bytes = vk.to_bytes();
    assert!(VerifierKey::from_bytes(&bytes[..bytes.len() - 8].to_vec()).is_none());
    let mut extra = bytes.clone();
    extra.extend_from_slice(&[0; 8]);
    assert!(VerifierKey::from_bytes(&extra).is_none());
    // A generator outside the field is refused.
    let mut bad = bytes.clone();
    bad[8..16].copy_from_slice(&MODULUS.to_le_bytes());
    assert!(VerifierKey::from_bytes(&bad).is_none());
}

#[test]
fn commitment_key_from_canonical() {
    assert!(CommitmentKey::from_canonical(vec![1, MODULUS]).is_none());
    let ck = CommitmentKey::from_canonical(vec![1, MODULUS - 1]).unwrap();
    assert_eq!(ck.generators(), vec![1, MODULUS - 1]);
}

#[test]
fn trait_codec_round_trips() {
    let (pk, vk) = keys();
    let p = honest_proof();
    let q = DirectSNARK::decode_proof(&p.encode_proof()).unwrap();
    assert_eq!((q.w.clone(), q.e.clone()), (p.w.clone(), p.e.clone()));
    let pk2 = DirectSNARK::decode_prover_key(&DirectSNARK::encode_prover_key(&pk)).unwrap();
    let vk2 = DirectSNARK::decode_verifier_key(&DirectSNARK::encode_verifier_key(&vk)).unwrap();
    let (inst, wit) = square_instance();
    let r = DirectSNARK::prove(&key(), &pk2, &square_shape(), &inst, &wit).unwrap();
    assert_eq!(r.verify(&vk2, &inst), Ok(()));
    assert_eq!(q.verify(&vk2, &inst), Ok(()));
    assert!(DirectSNARK::decode_proof(&vec![1, 2, 3]).is_none());
}
