use ark_backend::ir::{Computation, LinComb, Parameter, ProgIterator, QuadComb, Statement, Var, Witness};
use ark_backend::scheme::UniversalScheme;
use ark_backend::serialize::{
    decode_fr, decode_g1, decode_g2, fr_round_trip, g1_round_trip, g2_round_trip, parse_fr,
    parse_g1, parse_g2, parse_g2_fq,
};
use ark_backend::synthesis::{allocate, ark_combination, BackendSystem, Handle, SymbolTable};
use ark_backend::Error;
use ark_bn254::{Fq, Fr};
use ark_ec::AffineCurve;
use ark_ff::{FromBytes, ToBytes};
use ark_relations::r1cs::{ConstraintSynthesizer, ConstraintSystem, ConstraintSystemRef, SynthesisError};
use ark_std::rand::SeedableRng;

struct Circuit(Computation);

impl ConstraintSynthesizer<Fr> for Circuit {
    fn generate_constraints(self, cs: ConstraintSystemRef<Fr>) -> Result<(), SynthesisError> {
        let mut backend = BackendSystem { cs };
        self.0.generate_constraints(&mut backend).map_err(|e| match e {
            Error::MissingAssignment => SynthesisError::AssignmentMissing,
            _ => SynthesisError::MissingCS,
        })
    }
}

fn one_coeff() -> Fr {
    Fr::from(1u64)
}

/// One public output equal to one private input: `1 * in = out`.
fn passthrough() -> ProgIterator {
    ProgIterator {
        arguments: vec![Parameter { id: Var::Aux(0), private: true }],
        return_count: 1,
        statements: vec![Statement::Constraint(
            QuadComb {
                left: LinComb(vec![(Var::One, one_coeff())]),
                right: LinComb(vec![(Var::Aux(0), one_coeff())]),
            },
            LinComb(vec![(Var::Out(0), one_coeff())]),
        )],
    }
}

fn witness_three() -> Witness {
    Witness(vec![(Var::Aux(0), Fr::from(3u64)), (Var::Out(0), Fr::from(3u64))])
}

#[test]
fn soundness_round_trip() {
    let mut rng = ark_std::rand::rngs::StdRng::seed_from_u64(7);
    let pk = ark_gm17::generate_random_parameters::<ark_bn254::Bn254, _, _>(
        Circuit(Computation::without_witness(passthrough())),
        &mut rng,
    )
    .unwrap();
    let prove_comp = Computation::with_witness(passthrough(), witness_three());
    let publics = prove_comp.public_inputs_values().unwrap();
    assert_eq!(publics, vec![Fr::from(3u64)]);
    let proof = ark_gm17::create_random_proof(Circuit(prove_comp), &pk, &mut rng).unwrap();
    let pvk = ark_gm17::prepare_verifying_key(&pk.vk);
    assert!(ark_gm17::verify_proof(&pvk, &proof, &publics).unwrap());
}

#[test]
fn tamper_sensitivity() {
    let mut rng = ark_std::rand::rngs::StdRng::seed_from_u64(11);
    let pk = ark_gm17::generate_random_parameters::<ark_bn254::Bn254, _, _>(
        Circuit(Computation::without_witness(passthrough())),
        &mut rng,
    )
    .unwrap();
    let prove_comp = Computation::with_witness(passthrough(), witness_three());
    let publics = prove_comp.public_inputs_values().unwrap();
    let proof = ark_gm17::create_random_proof(Circuit(prove_comp), &pk, &mut rng).unwrap();
    let pvk = ark_gm17::prepare_verifying_key(&pk.vk);
    assert!(ark_gm17::verify_proof(&pvk, &proof, &publics).unwrap());

    // flip one bit of the proof's byte encoding
    let mut bytes: Vec<u8> = Vec::new();
    proof.a.write(&mut bytes).unwrap();
    bytes[0] ^= 1;
    let tampered_a = ark_bn254::G1Affine::read(&bytes[..]).unwrap();
    let tampered = ark_gm17::Proof { a: tampered_a, b: proof.b, c: proof.c };
    assert!(!ark_gm17::verify_proof(&pvk, &tampered, &publics).unwrap_or(false));
}

#[test]
fn missing_witness_fails() {
    // the witness lacks the private input's value
    let w = Witness(vec![(Var::Out(0), Fr::from(3u64))]);
    let comp = Computation::with_witness(passthrough(), w);
    let cs = ConstraintSystem::<Fr>::new_ref();
    let mut backend = BackendSystem { cs };
    assert_eq!(comp.generate_constraints(&mut backend), Err(Error::MissingAssignment));
}

#[test]
fn missing_witness_yields_no_proof() {
    let mut rng = ark_std::rand::rngs::StdRng::seed_from_u64(13);
    let pk = ark_gm17::generate_random_parameters::<ark_bn254::Bn254, _, _>(
        Circuit(Computation::without_witness(passthrough())),
        &mut rng,
    )
    .unwrap();
    let w = Witness(vec![(Var::Out(0), Fr::from(3u64))]);
    let comp = Computation::with_witness(passthrough(), w);
    assert!(ark_gm17::create_random_proof(Circuit(comp), &pk, &mut rng).is_err());
}

#[test]
fn dead_reference_is_reported() {
    let comp = Computation::without_witness(passthrough());
    let mut backend = BackendSystem { cs: ConstraintSystemRef::None };
    assert_eq!(comp.generate_constraints(&mut backend), Err(Error::MissingConstraintSystem));
}

#[test]
fn allocation_is_memoized() {
    let cs = ConstraintSystem::<Fr>::new_ref();
    let mut backend = BackendSystem { cs: cs.clone() };
    let mut symbols = SymbolTable(Vec::new());
    let w = Witness(vec![(Var::Aux(5), Fr::from(9u64))]);
    let h1 = allocate(&mut backend, &mut symbols, &w, Var::Aux(5)).unwrap();
    let h2 = allocate(&mut backend, &mut symbols, &w, Var::Aux(5)).unwrap();
    assert_eq!(h1, h2);
    assert_eq!(cs.num_witness_variables(), 1);
}

#[test]
fn visibility_mirrors_classification() {
    let cs = ConstraintSystem::<Fr>::new_ref();
    let mut backend = BackendSystem { cs: cs.clone() };
    let mut symbols = SymbolTable(Vec::new());
    let w = Witness(vec![(Var::Out(0), Fr::from(2u64)), (Var::Aux(1), Fr::from(4u64))]);
    let out_handle = allocate(&mut backend, &mut symbols, &w, Var::Out(0)).unwrap();
    let aux_handle = allocate(&mut backend, &mut symbols, &w, Var::Aux(1)).unwrap();
    let one_handle = allocate(&mut backend, &mut symbols, &w, Var::One).unwrap();
    // the built-in one is instance 0, so the first fresh input gets index 1
    assert_eq!(out_handle, Handle::Instance(1));
    assert_eq!(aux_handle, Handle::Witness(0));
    assert_eq!(one_handle, Handle::One);
}

#[test]
fn combination_allocates_and_keeps_coefficients() {
    let cs = ConstraintSystem::<Fr>::new_ref();
    let mut backend = BackendSystem { cs: cs.clone() };
    let mut symbols = SymbolTable(Vec::new());
    let w = Witness(vec![(Var::Aux(1), Fr::from(4u64)), (Var::Aux(2), Fr::from(5u64))]);
    let lc = LinComb(vec![
        (Var::Aux(2), Fr::from(20u64)),
        (Var::Aux(1), Fr::from(10u64)),
    ])
    .into_canonical();
    let terms = ark_combination(&lc, &mut backend, &mut symbols, &w).unwrap();
    assert_eq!(
        terms,
        vec![(Fr::from(10u64), Handle::Witness(0)), (Fr::from(20u64), Handle::Witness(1))]
    );
}

#[test]
fn canonicalize_is_order_independent() {
    let c1 = LinComb(vec![
        (Var::Aux(1), Fr::from(3u64)),
        (Var::Aux(2), Fr::from(5u64)),
        (Var::Aux(1), Fr::from(7u64)),
    ])
    .into_canonical();
    let c2 = LinComb(vec![
        (Var::Aux(2), Fr::from(5u64)),
        (Var::Aux(1), Fr::from(7u64)),
        (Var::Aux(1), Fr::from(3u64)),
    ])
    .into_canonical();
    assert_eq!(c1.0, c2.0);
    assert_eq!(c1.0, vec![(Var::Aux(1), Fr::from(10u64)), (Var::Aux(2), Fr::from(5u64))]);
}

#[test]
fn canonicalize_permuted_agrees() {
    let t1 = LinComb(vec![
        (Var::Out(0), Fr::from(2u64)),
        (Var::Aux(4), Fr::from(6u64)),
        (Var::Aux(4), Fr::from(1u64)),
    ]);
    let t2 = LinComb(vec![
        (Var::Aux(4), Fr::from(1u64)),
        (Var::Out(0), Fr::from(2u64)),
        (Var::Aux(4), Fr::from(6u64)),
    ]);
    let (c1, c2) = ark_backend::lincomb::canonicalize_permuted(&t1, &t2);
    assert_eq!(c1.0, c2.0);
    assert_eq!(c1.0, vec![(Var::Out(0), Fr::from(2u64)), (Var::Aux(4), Fr::from(7u64))]);
}

#[test]
fn synthesis_fills_the_backend_system() {
    let comp = Computation::with_witness(passthrough(), witness_three());
    let cs = ConstraintSystem::<Fr>::new_ref();
    let mut backend = BackendSystem { cs: cs.clone() };
    assert_eq!(comp.generate_constraints(&mut backend), Ok(()));
    assert_eq!(cs.num_constraints(), 1);
    // the built-in one plus the public output
    assert_eq!(cs.num_instance_variables(), 2);
    // the private argument
    assert_eq!(cs.num_witness_variables(), 1);
}

#[test]
fn canonicalize_orders_by_identifier() {
    let c = LinComb(vec![
        (Var::Aux(3), Fr::from(1u64)),
        (Var::Out(0), Fr::from(2u64)),
        (Var::One, Fr::from(4u64)),
    ])
    .into_canonical();
    assert_eq!(
        c.0,
        vec![
            (Var::One, Fr::from(4u64)),
            (Var::Out(0), Fr::from(2u64)),
            (Var::Aux(3), Fr::from(1u64)),
        ]
    );
}

#[test]
fn field_element_round_trip() {
    for v in [0u64, 1, 2, 0xdead_beef, u64::MAX] {
        let e = Fr::from(v);
        assert_eq!(fr_round_trip(&e), Some(e));
        let s = parse_fr(&e);
        assert_eq!(decode_fr(&s), Some(e));
    }
}

#[test]
fn field_element_vectors() {
    assert_eq!(parse_fr(&Fr::from(0u64)), format!("0x{}", "00".repeat(32)));
    assert_eq!(parse_fr(&Fr::from(1u64)), format!("0x{}01", "00".repeat(31)));
    assert_eq!(parse_fr(&Fr::from(0x1234u64)), format!("0x{}1234", "00".repeat(30)));
}

#[test]
fn decode_rejects_malformed_strings() {
    assert_eq!(decode_fr("0x00"), None);
    assert_eq!(decode_fr(&format!("0y{}", "00".repeat(32))), None);
    assert_eq!(decode_fr(&format!("0x{}0g", "00".repeat(31))), None);
}

#[test]
fn g1_generator_round_trip() {
    let g = ark_bn254::G1Affine::prime_subgroup_generator();
    let enc = parse_g1(&g.x, &g.y);
    assert_eq!(enc.0, format!("0x{}01", "00".repeat(31)));
    assert_eq!(enc.1, format!("0x{}02", "00".repeat(31)));
    assert_eq!(decode_g1(&enc), Some((g.x, g.y)));
    assert_eq!(g1_round_trip(&g.x, &g.y), Some((g.x, g.y)));
}

#[test]
fn g1_identity_coordinates_round_trip() {
    let z = Fq::from(0u64);
    assert_eq!(g1_round_trip(&z, &z), Some((z, z)));
}

#[test]
fn g1_matches_native_point_encoding() {
    // the coordinate-wise encoding equals splitting the point's own byte
    // encoding in half (infinity flag stripped) and reversing each half
    let g = ark_bn254::G1Affine::prime_subgroup_generator();
    let mut bytes: Vec<u8> = Vec::new();
    g.write(&mut bytes).unwrap();
    let length = bytes.len() - 1;
    let half = length / 2;
    let mut x = bytes[0..half].to_vec();
    let mut y = bytes[half..length].to_vec();
    x.reverse();
    y.reverse();
    let enc = parse_g1(&g.x, &g.y);
    assert_eq!(enc.0, format!("0x{}", hex::encode(&x)));
    assert_eq!(enc.1, format!("0x{}", hex::encode(&y)));
}

#[test]
fn g2_generator_round_trip() {
    let g = ark_bn254::G2Affine::prime_subgroup_generator();
    let enc = parse_g2(&g.x.c0, &g.x.c1, &g.y.c0, &g.y.c1);
    assert_eq!(decode_g2(&enc), Some((g.x.c0, g.x.c1, g.y.c0, g.y.c1)));
    assert_eq!(
        g2_round_trip(&g.x.c0, &g.x.c1, &g.y.c0, &g.y.c1),
        Some((g.x.c0, g.x.c1, g.y.c0, g.y.c1))
    );
}

#[test]
fn g2_matches_native_point_encoding() {
    // the limb-wise encoding equals splitting the point's own byte encoding
    // into four limbs (infinity flag stripped) and reversing each limb
    let g = ark_bn254::G2Affine::prime_subgroup_generator();
    let mut bytes: Vec<u8> = Vec::new();
    g.write(&mut bytes).unwrap();
    let length = bytes.len() - 1;
    let limb = length / 4;
    let mut limbs: Vec<String> = Vec::new();
    for i in 0..4 {
        let mut part = bytes[i * limb..(i + 1) * limb].to_vec();
        part.reverse();
        limbs.push(format!("0x{}", hex::encode(&part)));
    }
    let enc = parse_g2(&g.x.c0, &g.x.c1, &g.y.c0, &g.y.c1);
    assert_eq!(enc.0 .0, limbs[0]);
    assert_eq!(enc.0 .1, limbs[1]);
    assert_eq!(enc.1 .0, limbs[2]);
    assert_eq!(enc.1 .1, limbs[3]);
}

#[test]
fn g2_fq_encoding() {
    let x = Fq::from(1u64);
    let y = Fq::from(2u64);
    let enc = parse_g2_fq(&x, &y);
    assert_eq!(enc.0, format!("0x{}01", "00".repeat(31)));
    assert_eq!(enc.1, format!("0x{}02", "00".repeat(31)));
}

#[test]
fn public_inputs_in_declared_order() {
    let prog = ProgIterator {
        arguments: vec![
            Parameter { id: Var::Aux(7), private: false },
            Parameter { id: Var::Aux(8), private: true },
        ],
        return_count: 1,
        statements: vec![],
    };
    let w = Witness(vec![
        (Var::Aux(7), Fr::from(4u64)),
        (Var::Aux(8), Fr::from(6u64)),
        (Var::Out(0), Fr::from(9u64)),
    ]);
    assert_eq!(prog.public_inputs(&w), Ok(vec![Fr::from(4u64), Fr::from(9u64)]));

    let missing = Witness(vec![(Var::Aux(7), Fr::from(4u64))]);
    assert_eq!(prog.public_inputs(&missing), Err(Error::MissingAssignment));
}

#[test]
fn setup_too_small() {
    let scheme = UniversalScheme { min_constraints: 4 };
    let prog = passthrough();
    assert_eq!(prog.constraint_count(), 1);
    assert_eq!(scheme.check_circuit_size(prog.constraint_count()), Err(Error::SetupTooSmall));
    assert_eq!(scheme.check_circuit_size(4), Ok(()));
    assert_eq!(scheme.check_circuit_size(5), Ok(()));
}
