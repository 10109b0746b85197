use zkrelations::crh;
use zkrelations::cs::SynthesisError;
use zkrelations::field::{Fr, P};
use zkrelations::lifecycle::{prove, setup, verify};
use zkrelations::mul_circuit::MulCircuit;
use zkrelations::path_circuit::PathCheckCircuit;
use zkrelations::tree::{verify_path, MerkleTree};

fn fr(x: u64) -> Fr {
    Fr::from_u64(x)
}

fn demo_leaves() -> Vec<Vec<u8>> {
    (0u8..5).map(|b| vec![b; 30]).collect()
}

fn leaf_and_root_inputs(leaf: &[u8], root: Fr) -> Vec<Fr> {
    let mut inputs: Vec<Fr> = leaf.iter().map(|b| fr(*b as u64)).collect();
    inputs.push(root);
    inputs
}

#[test]
fn mul_round_trip_accepts() {
    let a = fr(3);
    let b = fr(5);
    let c = a.mul(b);
    let rel = MulCircuit::for_proving(a, b, c);
    let pp = setup(&MulCircuit::for_setup(), fr(11)).unwrap();
    let proof = prove(&rel, &pp, fr(7)).unwrap();
    let publics = vec![a, c];
    assert_eq!(verify(&proof, &publics, &pp), Ok(true));
}

#[test]
fn mul_wrong_witness_rejected() {
    let a = fr(3);
    let b = fr(5);
    let c = fr(16); // 3 * 5 = 15, so this public value is inconsistent
    let rel = MulCircuit::for_proving(a, b, c);
    let pp = setup(&MulCircuit::for_setup(), fr(11)).unwrap();
    let proof = prove(&rel, &pp, fr(7)).unwrap();
    let publics = vec![a, c];
    assert_eq!(verify(&proof, &publics, &pp), Ok(false));
}

#[test]
fn mul_swapped_publics_rejected() {
    let a = fr(3);
    let b = fr(5);
    let c = a.mul(b);
    let rel = MulCircuit::for_proving(a, b, c);
    let pp = setup(&MulCircuit::for_setup(), fr(11)).unwrap();
    let proof = prove(&rel, &pp, fr(7)).unwrap();
    // the public-input order (a, c) is load-bearing; (c, a) must not verify
    assert_eq!(verify(&proof, &vec![c, a], &pp), Ok(false));
}

#[test]
fn native_path_round_trip_all_indices() {
    let params = crh::setup(42);
    let leaves = demo_leaves();
    let tree = MerkleTree::build(&params, 5, &leaves).unwrap();
    let root = tree.root();
    for i in 0..5usize {
        let path = tree.path_for(i, &leaves[i]).unwrap();
        assert!(verify_path(&params, root, &leaves[i], &path));
    }
}

#[test]
fn native_path_wrong_leaf_rejected() {
    let params = crh::setup(42);
    let leaves = demo_leaves();
    let tree = MerkleTree::build(&params, 5, &leaves).unwrap();
    let root = tree.root();
    let path = tree.path_for(1, &leaves[1]).unwrap();
    assert!(!verify_path(&params, root, &leaves[2], &path));
}

#[test]
fn membership_demo_scenario() {
    // five leaves of 30 repeated bytes each, height 5: 27 slots stay empty
    let params = crh::setup(42);
    let leaves = demo_leaves();
    let tree = MerkleTree::build(&params, 5, &leaves).unwrap();
    let root = tree.root();
    let leaf = leaves[4].clone();
    let path = tree.path_for(4, &leaf).unwrap();
    assert!(verify_path(&params, root, &leaf, &path));

    let pp = setup(&PathCheckCircuit::for_setup(params, 5), fr(11)).unwrap();
    let rel = PathCheckCircuit::for_proving(params, leaf.clone(), root, path);
    let proof = prove(&rel, &pp, fr(7)).unwrap();
    let publics = leaf_and_root_inputs(&leaf, root);
    assert_eq!(verify(&proof, &publics, &pp), Ok(true));

    // the same proof against a wrong root must be rejected, not error
    let wrong_root = fr(root.v ^ 1);
    let wrong_publics = leaf_and_root_inputs(&leaf, wrong_root);
    assert_eq!(verify(&proof, &wrong_publics, &pp), Ok(false));
}

#[test]
fn tampered_sibling_rejected() {
    let params = crh::setup(42);
    let leaves = demo_leaves();
    let tree = MerkleTree::build(&params, 5, &leaves).unwrap();
    let root = tree.root();
    let leaf = leaves[3].clone();
    let pp = setup(&PathCheckCircuit::for_setup(params, 5), fr(11)).unwrap();
    for level in 0..5usize {
        let mut path = tree.path_for(3, &leaf).unwrap();
        path.siblings[level] = fr(path.siblings[level].v ^ 1);
        let rel = PathCheckCircuit::for_proving(params, leaf.clone(), root, path);
        let proof = prove(&rel, &pp, fr(7)).unwrap();
        let publics = leaf_and_root_inputs(&leaf, root);
        assert_eq!(verify(&proof, &publics, &pp), Ok(false));
    }
}

#[test]
fn flipped_position_bit_rejected() {
    let params = crh::setup(42);
    let leaves = demo_leaves();
    let tree = MerkleTree::build(&params, 5, &leaves).unwrap();
    let root = tree.root();
    let leaf = leaves[2].clone();
    let pp = setup(&PathCheckCircuit::for_setup(params, 5), fr(11)).unwrap();
    for level in 0..5usize {
        let mut path = tree.path_for(2, &leaf).unwrap();
        path.positions[level] = !path.positions[level];
        let rel = PathCheckCircuit::for_proving(params, leaf.clone(), root, path);
        let proof = prove(&rel, &pp, fr(7)).unwrap();
        let publics = leaf_and_root_inputs(&leaf, root);
        assert_eq!(verify(&proof, &publics, &pp), Ok(false));
    }
}

#[test]
fn tampered_proof_witness_rejected() {
    let a = fr(3);
    let b = fr(5);
    let c = a.mul(b);
    let pp = setup(&MulCircuit::for_setup(), fr(11)).unwrap();
    let mut proof = prove(&MulCircuit::for_proving(a, b, c), &pp, fr(7)).unwrap();
    proof.witness_values[0] = fr(6);
    assert_eq!(verify(&proof, &vec![a, c], &pp), Ok(false));
}

#[test]
fn setup_is_shape_deterministic() {
    let params = crh::setup(42);
    let p1 = setup(&PathCheckCircuit::for_setup(params, 5), fr(11)).unwrap();
    let p2 = setup(&PathCheckCircuit::for_setup(params, 5), fr(99)).unwrap();
    assert_eq!(p1.num_inputs, p2.num_inputs);
    assert_eq!(p1.num_witnesses, p2.num_witnesses);
    assert_eq!(p1.constraints, p2.constraints);
    // a proving-mode synthesis records the same shape the setup pass did
    let leaves = demo_leaves();
    let tree = MerkleTree::build(&params, 5, &leaves).unwrap();
    let path = tree.path_for(0, &leaves[0]).unwrap();
    let rel = PathCheckCircuit::for_proving(params, leaves[0].clone(), tree.root(), path);
    let proof = prove(&rel, &p1, fr(7)).unwrap();
    assert_eq!(proof.witness_values.len(), p1.num_witnesses);
}

#[test]
fn missing_assignment_fails_proving() {
    let pp = setup(&MulCircuit::for_setup(), fr(11)).unwrap();
    assert!(matches!(
        prove(&MulCircuit::for_setup(), &pp, fr(7)),
        Err(SynthesisError::AssignmentMissing)
    ));
    let params = crh::setup(42);
    let pb = setup(&PathCheckCircuit::for_setup(params, 5), fr(11)).unwrap();
    assert!(matches!(
        prove(&PathCheckCircuit::for_setup(params, 5), &pb, fr(7)),
        Err(SynthesisError::AssignmentMissing)
    ));
}

#[test]
fn degenerate_randomness_fails_proving() {
    let a = fr(3);
    let b = fr(5);
    let c = a.mul(b);
    let pp = setup(&MulCircuit::for_setup(), fr(11)).unwrap();
    assert!(matches!(
        prove(&MulCircuit::for_proving(a, b, c), &pp, fr(0)),
        Err(SynthesisError::BackendFailure)
    ));
}

#[test]
fn oversized_batch_fails_build() {
    let params = crh::setup(42);
    let leaves: Vec<Vec<u8>> = (0u8..3).map(|b| vec![b; 30]).collect();
    assert!(matches!(
        MerkleTree::build(&params, 1, &leaves),
        Err(SynthesisError::TreeTooLarge)
    ));
}

#[test]
fn out_of_range_index_fails_path() {
    let params = crh::setup(42);
    let leaves = demo_leaves();
    let tree = MerkleTree::build(&params, 5, &leaves).unwrap();
    assert!(matches!(
        tree.path_for(32, &leaves[0]),
        Err(SynthesisError::IndexOutOfRange)
    ));
}

#[test]
fn malformed_public_inputs_fail_verification() {
    let a = fr(3);
    let b = fr(5);
    let c = a.mul(b);
    let pp = setup(&MulCircuit::for_setup(), fr(11)).unwrap();
    let proof = prove(&MulCircuit::for_proving(a, b, c), &pp, fr(7)).unwrap();
    assert_eq!(
        verify(&proof, &vec![a], &pp),
        Err(SynthesisError::MalformedInput)
    );
}

#[test]
fn field_arithmetic_exact_values() {
    assert_eq!(Fr::from_u64(P + 5).v, 5);
    assert_eq!(fr(P - 1).add(fr(2)).v, 1);
    assert_eq!(fr(4).sub(fr(9)).v, P - 5);
    assert_eq!(fr(1 << 20).mul(fr(1 << 15)).v, (1u64 << 35) % P);
    assert_eq!(fr(0).neg().v, 0);
    assert_eq!(fr(7).neg().v, P - 7);
}

#[test]
fn compression_exact_value() {
    let params = crh::setup(7);
    assert_eq!(params.s.v, 7);
    // 2*1 + 3*2 + 7 = 15
    assert_eq!(crh::compress(&params, fr(1), fr(2)).v, 15);
    // the order of the children matters
    assert_ne!(
        crh::compress(&params, fr(1), fr(2)).v,
        crh::compress(&params, fr(2), fr(1)).v
    );
}

#[test]
fn leaf_hash_deterministic_and_sensitive() {
    let params = crh::setup(42);
    let a = vec![1u8; 30];
    let mut b = vec![1u8; 30];
    b[29] = 2;
    assert_eq!(crh::hash_leaf(&params, &a).v, crh::hash_leaf(&params, &a).v);
    assert_ne!(crh::hash_leaf(&params, &a).v, crh::hash_leaf(&params, &b).v);
}
