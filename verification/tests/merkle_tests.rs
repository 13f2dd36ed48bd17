use vcsv::csv::parse_csv;
use vcsv::hashing::hash;
use vcsv::merkle::{
    fold_to_root, inclusion_proof, merkelize, proof_to_hex, verify_inclusion, verify_inclusion_hex,
    InclusionProofString, MerkleProof,
};
use vcsv::VcsvError;

fn root_hex_of(root: &[u8]) -> Vec<u8> {
    format!("0x{}", hex::encode(root)).into_bytes()
}

#[test]
fn inclusion_round_trip_ok() {
    let csv = b"id,price,qty\n1,120,3\n2,80,1\n3,200,5\n";
    let doc = parse_csv(csv, None).unwrap();

    let row: usize = 1;
    let proof_bytes = inclusion_proof(&doc, row).unwrap();
    assert!(!proof_bytes.siblings.is_empty());

    let root = fold_to_root(&proof_bytes.leaf, &proof_bytes.siblings, row);

    let proof_hex = InclusionProofString {
        leaf: format!("0x{}", hex::encode(&proof_bytes.leaf)).into_bytes(),
        siblings: proof_bytes
            .siblings
            .iter()
            .map(|h| format!("0x{}", hex::encode(h)).into_bytes())
            .collect(),
    };

    assert!(verify_inclusion_hex(&root_hex_of(&root), &proof_hex, row).unwrap());
}

#[test]
fn inclusion_fails_when_sibling_tampered() {
    let csv = b"id,price,qty\n1,120,3\n2,80,1\n3,200,5\n4,150,2\n";
    let doc = parse_csv(csv, None).unwrap();

    let row: usize = 2;
    let mut proof_bytes = inclusion_proof(&doc, row).unwrap();
    let correct_root = fold_to_root(&proof_bytes.leaf, &proof_bytes.siblings, row);

    proof_bytes.siblings[0][0] ^= 0x01;

    let bad_hex = InclusionProofString {
        leaf: format!("0x{}", hex::encode(&proof_bytes.leaf)).into_bytes(),
        siblings: proof_bytes
            .siblings
            .iter()
            .map(|h| format!("0x{}", hex::encode(h)).into_bytes())
            .collect(),
    };

    assert!(!verify_inclusion_hex(&root_hex_of(&correct_root), &bad_hex, row).unwrap());
}

#[test]
fn inclusion_handles_odd_leaf_duplication() {
    let csv = b"id,price,qty\n1,10,1\n2,20,2\n3,30,3\n";
    let doc = parse_csv(csv, None).unwrap();

    let row: usize = 2;
    let proof_bytes = inclusion_proof(&doc, row).unwrap();
    let root = fold_to_root(&proof_bytes.leaf, &proof_bytes.siblings, row);

    let proof_hex = proof_to_hex(&proof_bytes);

    assert!(verify_inclusion_hex(&root_hex_of(&root), &proof_hex, row).unwrap());
}

#[test]
fn round_trip_holds_for_every_row() {
    let csv = b"id,price,qty\n1,120,3\n2,80,1\n3,200,5\n4,150,2\n5,60,9\n";
    let doc = parse_csv(csv, None).unwrap();
    let root = merkelize(&doc).unwrap();
    for row in 0..5usize {
        let p = inclusion_proof(&doc, row).unwrap();
        assert!(verify_inclusion(&root, &p, row));
    }
}

#[test]
fn tampering_any_single_bit_invalidates() {
    let csv = b"id,price,qty\n1,120,3\n2,80,1\n3,200,5\n";
    let doc = parse_csv(csv, None).unwrap();
    let root = merkelize(&doc).unwrap();
    let row: usize = 1;
    let p = inclusion_proof(&doc, row).unwrap();
    assert!(verify_inclusion(&root, &p, row));
    for s in 0..p.siblings.len() {
        for byte in 0..32usize {
            for bit in 0..8u8 {
                let mut siblings = p.siblings.clone();
                siblings[s][byte] ^= 1u8 << bit;
                let tampered = MerkleProof {
                    leaf: p.leaf.clone(),
                    siblings,
                };
                assert!(!verify_inclusion(&root, &tampered, row));
            }
        }
    }
}

#[test]
fn odd_count_duplication_matches_independent_value() {
    // three rows, and a fourth dataset formed by duplicating the last row
    let csv3 = b"id,price,qty\n1,10,1\n2,20,2\n3,30,3\n";
    let csv4 = b"id,price,qty\n1,10,1\n2,20,2\n3,30,3\n3,30,3\n";
    let doc3 = parse_csv(csv3, None).unwrap();
    let doc4 = parse_csv(csv4, None).unwrap();
    let root3 = merkelize(&doc3).unwrap();
    let root4 = merkelize(&doc4).unwrap();
    assert_eq!(root3, root4);

    // independently computed: H(H(a||b) || H(c||c)) with tiny_keccak directly
    let keccak = |bytes: &[u8]| -> Vec<u8> {
        let mut k = tiny_keccak::Keccak::v256();
        let mut out = [0u8; 32];
        tiny_keccak::Hasher::update(&mut k, bytes);
        tiny_keccak::Hasher::finalize(k, &mut out);
        out.to_vec()
    };
    let a = keccak(b"1,10,1");
    let b = keccak(b"2,20,2");
    let c = keccak(b"3,30,3");
    let ab = keccak(&[a.clone(), b.clone()].concat());
    let cc = keccak(&[c.clone(), c.clone()].concat());
    let expected = keccak(&[ab, cc].concat());
    assert_eq!(root3, expected);
}

#[test]
fn hashing_and_tree_are_deterministic() {
    let bytes = b"id,price\n1,2\n3,4\n";
    assert_eq!(hash(bytes), hash(bytes));
    let doc1 = parse_csv(bytes, None).unwrap();
    let doc2 = parse_csv(bytes, None).unwrap();
    assert_eq!(merkelize(&doc1).unwrap(), merkelize(&doc2).unwrap());
}

#[test]
fn keccak_matches_known_vector() {
    // keccak-256 of the empty input
    let expected = hex::decode("c5d2460186f7233c927e7db2dcc703c0e500b653ca82273b7bfad8045d85a470")
        .unwrap();
    assert_eq!(hash(b""), expected);
}

#[test]
fn three_leaf_proof_has_two_levels_and_folds_to_root() {
    let csv = b"id,price,qty\n1,120,3\n2,80,1\n3,200,5\n";
    let doc = parse_csv(csv, None).unwrap();
    let row: usize = 1;
    let p = inclusion_proof(&doc, row).unwrap();
    assert_eq!(p.siblings.len(), 2);
    let folded = fold_to_root(&p.leaf, &p.siblings, row);
    assert_eq!(folded, merkelize(&doc).unwrap());
}

#[test]
fn empty_dataset_is_rejected() {
    let csv = b"id,price,qty\n";
    let doc = parse_csv(csv, None).unwrap();
    assert_eq!(merkelize(&doc).unwrap_err(), VcsvError::EmptyDataset);
}

#[test]
fn out_of_bounds_row_is_rejected() {
    let csv = b"id,price,qty\n1,120,3\n";
    let doc = parse_csv(csv, None).unwrap();
    assert_eq!(
        inclusion_proof(&doc, 1).unwrap_err(),
        VcsvError::RowIndexOutOfBounds
    );
}

#[test]
fn wrong_row_index_yields_false_not_error() {
    let csv = b"id,price,qty\n1,120,3\n2,80,1\n3,200,5\n4,150,2\n";
    let doc = parse_csv(csv, None).unwrap();
    let root = merkelize(&doc).unwrap();
    let p = inclusion_proof(&doc, 2).unwrap();
    assert!(!verify_inclusion(&root, &p, 3));
}

#[test]
fn malformed_root_hex_is_an_error_not_false() {
    let csv = b"id,price,qty\n1,120,3\n2,80,1\n";
    let doc = parse_csv(csv, None).unwrap();
    let p = proof_to_hex(&inclusion_proof(&doc, 0).unwrap());
    assert_eq!(
        verify_inclusion_hex(b"0x12zz", &p, 0).unwrap_err(),
        VcsvError::MalformedHex
    );
    assert_eq!(
        verify_inclusion_hex(b"0x1234", &p, 0).unwrap_err(),
        VcsvError::InvalidRootLength
    );
}
