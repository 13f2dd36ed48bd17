use vcsv::commitment::{
    build_commitment, decode_commitment, encode_commitment, execute_input, CommitmentVersion,
    PublicValues,
};
use vcsv::Input;
use vcsv::csv::parse_csv;
use vcsv::hashing::hash;
use vcsv::hexstr::{hex_decode, hex_encode, parse_root_hex};
use vcsv::merkle::merkelize;
use vcsv::{op_to_u8, Op, VcsvError};

const CSV: &[u8] = b"id,price,qty\n1,120,3\n2,80,1\n3,200,5\n";

#[test]
fn sum_commitment_over_flat_hash() {
    let pv = build_commitment(CSV, b"price", Op::Sum, CommitmentVersion::FlatHash).unwrap();
    assert_eq!(pv.file_root, hash(CSV));
    assert_eq!(pv.op, 0);
    assert_eq!(pv.col_hash, hash(b"price"));
    assert_eq!(pv.n_rows, 3);
    assert_eq!(pv.result, 400);
    assert_eq!(pv.decimal_points, 0);
}

#[test]
fn mean_commitment_over_merkle_root() {
    let pv = build_commitment(CSV, b"price", Op::Mean, CommitmentVersion::MerkleRoot).unwrap();
    let doc = parse_csv(CSV, None).unwrap();
    assert_eq!(pv.file_root, merkelize(&doc).unwrap());
    assert_eq!(pv.op, 1);
    assert_eq!(pv.n_rows, 3);
    assert_eq!(pv.result, 133333);
    assert_eq!(pv.decimal_points, 3);
}

#[test]
fn median_is_reported_unsupported() {
    assert_eq!(
        build_commitment(CSV, b"price", Op::Median, CommitmentVersion::FlatHash).unwrap_err(),
        VcsvError::Unsupported
    );
    assert_eq!(
        build_commitment(CSV, b"price", Op::Median, CommitmentVersion::MerkleRoot).unwrap_err(),
        VcsvError::Unsupported
    );
}

#[test]
fn hash_is_a_content_hash_passthrough() {
    // the committed content hash rides the 32-byte file-commitment field;
    // the numeric result field carries nothing
    let flat = build_commitment(CSV, b"price", Op::Hash, CommitmentVersion::FlatHash).unwrap();
    assert_eq!(flat.file_root, hash(CSV));
    assert_eq!(flat.op, 3);
    assert_eq!(flat.col_hash, hash(b"price"));
    assert_eq!(flat.n_rows, 3);
    assert_eq!(flat.result, 0);
    assert_eq!(flat.decimal_points, 0);

    let rooted = build_commitment(CSV, b"price", Op::Hash, CommitmentVersion::MerkleRoot).unwrap();
    let doc = parse_csv(CSV, None).unwrap();
    assert_eq!(rooted.file_root, merkelize(&doc).unwrap());
    assert_eq!(rooted.n_rows, 3);
    assert_eq!(rooted.result, 0);
}

#[test]
fn hash_over_zero_rows_still_needs_rows_for_a_merkle_root() {
    let header_only = b"id,price\n";
    let flat = build_commitment(header_only, b"price", Op::Hash, CommitmentVersion::FlatHash)
        .unwrap();
    assert_eq!(flat.file_root, hash(header_only));
    assert_eq!(flat.n_rows, 0);
    assert_eq!(
        build_commitment(header_only, b"price", Op::Hash, CommitmentVersion::MerkleRoot)
            .unwrap_err(),
        VcsvError::EmptyDataset
    );
}

#[test]
fn builder_propagates_reader_errors() {
    assert_eq!(
        build_commitment(b"\xff", b"a", Op::Sum, CommitmentVersion::FlatHash).unwrap_err(),
        VcsvError::InvalidEncoding
    );
    assert_eq!(
        build_commitment(b"", b"a", Op::Sum, CommitmentVersion::FlatHash).unwrap_err(),
        VcsvError::EmptyInput
    );
    assert_eq!(
        build_commitment(CSV, b"total", Op::Sum, CommitmentVersion::FlatHash).unwrap_err(),
        VcsvError::ColumnNotFound
    );
    assert_eq!(
        build_commitment(b"id,price\n", b"price", Op::Sum, CommitmentVersion::MerkleRoot)
            .unwrap_err(),
        VcsvError::EmptyDataset
    );
}

#[test]
fn an_input_record_runs_end_to_end() {
    let input = Input {
        csv: CSV.to_vec(),
        col: b"price".to_vec(),
        op: Op::Sum,
    };
    let record = execute_input(&input, CommitmentVersion::MerkleRoot).unwrap();
    assert_eq!(record.len(), 91);
    let decoded = decode_commitment(&record).unwrap();
    let doc = parse_csv(CSV, None).unwrap();
    assert_eq!(decoded.file_root, merkelize(&doc).unwrap());
    assert_eq!(decoded.op, 0);
    assert_eq!(decoded.col_hash, hash(b"price"));
    assert_eq!(decoded.n_rows, 3);
    assert_eq!(decoded.result, 400);
    assert_eq!(decoded.decimal_points, 0);
}

#[test]
fn op_tags_are_stable() {
    assert_eq!(op_to_u8(Op::Sum), 0);
    assert_eq!(op_to_u8(Op::Mean), 1);
    assert_eq!(op_to_u8(Op::Median), 2);
    assert_eq!(op_to_u8(Op::Hash), 3);
}

fn sample_record(decimal_points: u16) -> PublicValues {
    PublicValues {
        file_root: vec![7u8; 32],
        op: 1,
        col_hash: vec![9u8; 32],
        n_rows: 3,
        result: -133333,
        decimal_points,
    }
}

#[test]
fn scaled_wire_form_round_trips() {
    let pv = sample_record(3);
    let bytes = encode_commitment(&pv, CommitmentVersion::MerkleRoot);
    assert_eq!(bytes.len(), 91);
    let back = decode_commitment(&bytes).unwrap();
    assert_eq!(back.file_root, pv.file_root);
    assert_eq!(back.op, pv.op);
    assert_eq!(back.col_hash, pv.col_hash);
    assert_eq!(back.n_rows, pv.n_rows);
    assert_eq!(back.result, pv.result);
    assert_eq!(back.decimal_points, 3);
}

#[test]
fn flat_wire_form_round_trips_with_scale_zero() {
    let pv = sample_record(0);
    let bytes = encode_commitment(&pv, CommitmentVersion::FlatHash);
    assert_eq!(bytes.len(), 89);
    let back = decode_commitment(&bytes).unwrap();
    assert_eq!(back.result, pv.result);
    assert_eq!(back.n_rows, pv.n_rows);
    assert_eq!(back.decimal_points, 0);
}

#[test]
fn commitment_decode_rejects_malformed_records() {
    assert_eq!(
        decode_commitment(&[0u8; 90]).unwrap_err(),
        VcsvError::MalformedCommitment
    );
    let mut bytes = encode_commitment(&sample_record(0), CommitmentVersion::FlatHash);
    bytes[32] = 4; // unknown operation tag
    assert_eq!(
        decode_commitment(&bytes).unwrap_err(),
        VcsvError::MalformedCommitment
    );
}

#[test]
fn hex_text_round_trips() {
    let bytes: Vec<u8> = (0u8..=255).collect();
    let text = hex_encode(&bytes);
    assert_eq!(text, hex::encode(&bytes).into_bytes());
    assert_eq!(hex_decode(&text).unwrap(), bytes);
    // upper-case digits decode too
    assert_eq!(hex_decode(b"AB0f").unwrap(), vec![0xab, 0x0f]);
}

#[test]
fn hex_decode_rejects_bad_text() {
    assert_eq!(hex_decode(b"abc").unwrap_err(), VcsvError::MalformedHex);
    assert_eq!(hex_decode(b"zz").unwrap_err(), VcsvError::MalformedHex);
}

#[test]
fn root_parsing_validates_length_and_digits() {
    let good = format!("0x{}", hex::encode([5u8; 32]));
    assert_eq!(parse_root_hex(good.as_bytes()).unwrap(), vec![5u8; 32]);
    // the prefix may be absent
    assert_eq!(
        parse_root_hex(hex::encode([5u8; 32]).as_bytes()).unwrap(),
        vec![5u8; 32]
    );
    assert_eq!(
        parse_root_hex(b"0x1234").unwrap_err(),
        VcsvError::InvalidRootLength
    );
    assert_eq!(
        parse_root_hex(b"0x12g4").unwrap_err(),
        VcsvError::MalformedHex
    );
}
