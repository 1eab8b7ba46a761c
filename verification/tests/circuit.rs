use bellman::gadgets::multipack;
use bellman::gadgets::test::TestConstraintSystem;
use bellman::Circuit;
use bls12_381::Scalar;
use zk4log::circuit::{witness_values, CommitmentCircuit};
use zk4log::commitment::commit;
use zk4log::preimage::pad_preimage;

fn shape_of(circuit: CommitmentCircuit) -> (usize, usize) {
    let mut cs = TestConstraintSystem::<Scalar>::new();
    circuit.synthesize(&mut cs).unwrap();
    (cs.num_inputs(), cs.num_constraints())
}

#[test]
fn witness_values_are_the_bits_least_significant_first() {
    let mut buffer = [0u8; 80];
    buffer[0] = 0b0000_0101;
    buffer[79] = 0x80;
    let values = witness_values(&Some(buffer));
    assert_eq!(values.len(), 640);
    assert_eq!(values[0], Some(true));
    assert_eq!(values[1], Some(false));
    assert_eq!(values[2], Some(true));
    assert!(values[3..632].iter().all(|v| *v == Some(false)));
    assert!(values[632..639].iter().all(|v| *v == Some(false)));
    assert_eq!(values[639], Some(true));
}

#[test]
fn witness_values_without_a_preimage_are_unknown() {
    let values = witness_values(&None);
    assert_eq!(values.len(), 640);
    assert!(values.iter().all(|v| v.is_none()));
}

#[test]
fn circuit_shape_does_not_depend_on_the_witness() {
    let zeros = shape_of(CommitmentCircuit { preimage: Some([0u8; 80]) });
    let letters = shape_of(CommitmentCircuit { preimage: Some([65u8; 80]) });
    assert_eq!(zeros, letters);
    // one input is the constant one, two hold the 256 digest bits
    assert_eq!(zeros.0, 3);
}

#[test]
fn circuit_is_satisfied_by_a_preimage_and_exposes_its_commitment() {
    let buffer = pad_preimage(b"secret1ABCDEFGHabcdefgh").unwrap();
    let mut cs = TestConstraintSystem::<Scalar>::new();
    CommitmentCircuit { preimage: Some(buffer) }.synthesize(&mut cs).unwrap();
    assert!(cs.is_satisfied());

    let commitment = commit(&buffer);
    let inputs = multipack::compute_multipacking::<Scalar>(&multipack::bytes_to_bits_le(&commitment));
    assert_eq!(inputs.len(), 2);
    assert!(cs.verify(&inputs));

    let mut other = commitment.clone();
    other[0] ^= 1;
    let wrong = multipack::compute_multipacking::<Scalar>(&multipack::bytes_to_bits_le(&other));
    assert!(!cs.verify(&wrong));
}

#[test]
fn circuit_for_proving_holds_the_buffer_and_the_one_for_keys_holds_none() {
    let mut buffer = [0u8; 80];
    buffer[3] = 9;
    assert_eq!(CommitmentCircuit::with_witness(&buffer).preimage, Some(buffer));
    assert_eq!(CommitmentCircuit::without_witness().preimage, None);
}
