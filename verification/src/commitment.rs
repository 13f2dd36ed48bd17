//! The public commitment record and its two wire forms: the flat-hash form
//! without a decimal scale, and the Merkle-root form with one. Integers
//! travel little-endian with fixed widths.

use vstd::prelude::*;

use crate::aggregate::{mean_col, spec_mean_col, spec_sum_col, sum_col};
use crate::bytesutil::first_index;
use crate::csv::{parse_csv, spec_header_cols, spec_rows};
use crate::hashing::{hash, keccak256};
use crate::merkle::{merkelize, spec_leaves, spec_root};
use crate::{op_to_u8, spec_op_to_u8, Input, Op, VcsvError};

verus! {

/// The size of a record without the decimal scale: two 32-byte commitments,
/// a one-byte operation tag, a u64 row count and an i128 result.
pub const WIRE_LEN_FLAT: usize = 89;

/// The size of a record with the trailing u16 decimal scale.
pub const WIRE_LEN_SCALED: usize = 91;

/// Which wire form a commitment takes, and with it what the file commitment
/// means: a flat hash of the raw file bytes, or the Merkle root over rows.
#[derive(Clone, Copy, Debug, PartialEq, Eq, Structural)]
pub enum CommitmentVersion {
    FlatHash,
    MerkleRoot,
}

/// The public record a verifier trusts: the file commitment, the operation
/// tag, the column-name commitment, the row count, the result and its
/// decimal scale.
#[derive(Debug)]
pub struct PublicValues {
    pub file_root: Vec<u8>,
    pub op: u8,
    pub col_hash: Vec<u8>,
    pub n_rows: u64,
    pub result: i128,
    pub decimal_points: u16,
}

impl PublicValues {
    /// Both commitments are 32 bytes and the operation tag is known.
    pub open spec fn wf(&self) -> bool {
        &&& self.file_root@.len() == 32
        &&& self.col_hash@.len() == 32
        &&& self.op <= 3
    }
}

/// The two's-complement unsigned reading of a signed 128-bit value.
pub open spec fn i128_as_u128(x: int) -> int {
    if x >= 0 {
        x
    } else {
        x + 0x100000000000000000000000000000000
    }
}

/// The signed reading of an unsigned 128-bit value.
pub open spec fn u128_as_i128(u: int) -> int {
    if u <= i128::MAX {
        u
    } else {
        u - 0x100000000000000000000000000000000
    }
}

pub proof fn lemma_i128_u128_round_trip(x: int)
    requires
        i128::MIN <= x <= i128::MAX,
    ensures
        u128_as_i128(i128_as_u128(x)) == x,
{
}

/// A signed result as 16 little-endian two's-complement bytes.
pub open spec fn spec_i128_to_le_bytes(x: int) -> Seq<u8> {
    vstd::bytes::spec_u128_to_le_bytes(i128_as_u128(x) as u128)
}

fn i128_to_le_bytes(x: i128) -> (r: Vec<u8>)
    ensures
        r@ == spec_i128_to_le_bytes(x as int),
        r@.len() == 16,
{
    let u: u128 = if x >= 0 {
        x as u128
    } else {
        let m: u128 = (-(x + 1)) as u128;
        u128::MAX - m
    };
    proof {
        assert(u as int == i128_as_u128(x as int));
        vstd::bytes::lemma_auto_spec_u128_to_from_le_bytes();
    }
    vstd::bytes::u128_to_le_bytes(u)
}

fn i128_from_le_bytes(s: &[u8]) -> (x: i128)
    requires
        s@.len() == 16,
    ensures
        x as int == u128_as_i128(vstd::bytes::spec_u128_from_le_bytes(s@) as int),
{
    let u: u128 = vstd::bytes::u128_from_le_bytes(s);
    if u <= 0x7fffffffffffffffffffffffffffffff {
        u as i128
    } else {
        let m: u128 = u128::MAX - u;
        -(m as i128) - 1
    }
}

/// The scaled wire form: file commitment, operation tag, column commitment,
/// row count, result, decimal scale.
pub open spec fn spec_encode_scaled(pv: PublicValues) -> Seq<u8> {
    pv.file_root@ + seq![pv.op] + pv.col_hash@ + vstd::bytes::spec_u64_to_le_bytes(pv.n_rows)
        + spec_i128_to_le_bytes(pv.result as int) + vstd::bytes::spec_u16_to_le_bytes(
        pv.decimal_points,
    )
}

/// The flat wire form: as the scaled form, without the decimal scale.
pub open spec fn spec_encode_flat(pv: PublicValues) -> Seq<u8> {
    pv.file_root@ + seq![pv.op] + pv.col_hash@ + vstd::bytes::spec_u64_to_le_bytes(pv.n_rows)
        + spec_i128_to_le_bytes(pv.result as int)
}

/// Encode a commitment record in the chosen wire form.
pub fn encode_commitment(pv: &PublicValues, version: CommitmentVersion) -> (r: Vec<u8>)
    requires
        pv.wf(),
    ensures
        version == CommitmentVersion::FlatHash ==> r@ == spec_encode_flat(*pv) && r@.len() == 89,
        version == CommitmentVersion::MerkleRoot ==> r@ == spec_encode_scaled(*pv) && r@.len()
            == 91,
{
    proof {
        vstd::bytes::lemma_auto_spec_u64_to_from_le_bytes();
        vstd::bytes::lemma_auto_spec_u16_to_from_le_bytes();
    }
    let mut out: Vec<u8> = Vec::new();
    let mut k: usize = 0;
    while k < pv.file_root.len()
        invariant
            k <= pv.file_root@.len(),
            out@ == pv.file_root@.subrange(0, k as int),
        decreases pv.file_root@.len() - k,
    {
        out.push(pv.file_root[k]);
        assert(pv.file_root@.subrange(0, k + 1 as int) =~= pv.file_root@.subrange(
            0,
            k as int,
        ).push(pv.file_root@[k as int]));
        k = k + 1;
    }
    assert(out@ =~= pv.file_root@);
    out.push(pv.op);
    assert(out@ =~= pv.file_root@ + seq![pv.op]);
    let mut k2: usize = 0;
    while k2 < pv.col_hash.len()
        invariant
            k2 <= pv.col_hash@.len(),
            out@ == pv.file_root@ + seq![pv.op] + pv.col_hash@.subrange(0, k2 as int),
        decreases pv.col_hash@.len() - k2,
    {
        out.push(pv.col_hash[k2]);
        assert(pv.file_root@ + seq![pv.op] + pv.col_hash@.subrange(0, k2 + 1 as int) =~= (
        pv.file_root@ + seq![pv.op] + pv.col_hash@.subrange(0, k2 as int)).push(
            pv.col_hash@[k2 as int],
        ));
        k2 = k2 + 1;
    }
    assert(out@ =~= pv.file_root@ + seq![pv.op] + pv.col_hash@);
    let rows_bytes = vstd::bytes::u64_to_le_bytes(pv.n_rows);
    let mut k3: usize = 0;
    while k3 < rows_bytes.len()
        invariant
            k3 <= rows_bytes@.len(),
            rows_bytes@ == vstd::bytes::spec_u64_to_le_bytes(pv.n_rows),
            out@ == pv.file_root@ + seq![pv.op] + pv.col_hash@ + rows_bytes@.subrange(
                0,
                k3 as int,
            ),
        decreases rows_bytes@.len() - k3,
    {
        out.push(rows_bytes[k3]);
        assert(pv.file_root@ + seq![pv.op] + pv.col_hash@ + rows_bytes@.subrange(0, k3 + 1 as int)
            =~= (pv.file_root@ + seq![pv.op] + pv.col_hash@ + rows_bytes@.subrange(
            0,
            k3 as int,
        )).push(rows_bytes@[k3 as int]));
        k3 = k3 + 1;
    }
    assert(out@ =~= pv.file_root@ + seq![pv.op] + pv.col_hash@ + rows_bytes@);
    let result_bytes = i128_to_le_bytes(pv.result);
    let mut k4: usize = 0;
    while k4 < result_bytes.len()
        invariant
            k4 <= result_bytes@.len(),
            result_bytes@ == spec_i128_to_le_bytes(pv.result as int),
            out@ == pv.file_root@ + seq![pv.op] + pv.col_hash@ + vstd::bytes::spec_u64_to_le_bytes(
                pv.n_rows,
            ) + result_bytes@.subrange(0, k4 as int),
        decreases result_bytes@.len() - k4,
    {
        out.push(result_bytes[k4]);
        assert(pv.file_root@ + seq![pv.op] + pv.col_hash@ + vstd::bytes::spec_u64_to_le_bytes(
            pv.n_rows,
        ) + result_bytes@.subrange(0, k4 + 1 as int) =~= (pv.file_root@ + seq![pv.op] + pv.col_hash@
            + vstd::bytes::spec_u64_to_le_bytes(pv.n_rows) + result_bytes@.subrange(
            0,
            k4 as int,
        )).push(result_bytes@[k4 as int]));
        k4 = k4 + 1;
    }
    assert(out@ =~= spec_encode_flat(*pv));
    assert(vstd::bytes::spec_u64_to_le_bytes(pv.n_rows).len() == 8);
    match version {
        CommitmentVersion::FlatHash => out,
        CommitmentVersion::MerkleRoot => {
            let scale_bytes = vstd::bytes::u16_to_le_bytes(pv.decimal_points);
            let b0 = scale_bytes[0];
            let b1 = scale_bytes[1];
            out.push(b0);
            out.push(b1);
            assert(out@ =~= spec_encode_scaled(*pv)) by {
                assert(scale_bytes@ =~= seq![scale_bytes@[0], scale_bytes@[1]]);
            }
            out
        },
    }
}

/// Decode a commitment record of either wire form.
///
/// Fails with `MalformedCommitment` exactly when the length is neither of
/// the two wire sizes or the operation tag is unknown; a flat record decodes
/// with decimal scale 0.
pub fn decode_commitment(bytes: &[u8]) -> (r: Result<PublicValues, VcsvError>)
    ensures
        r matches Ok(pv) <==> ((bytes@.len() == 89 || bytes@.len() == 91) && bytes@[32] <= 3),
        r matches Err(e) ==> e == VcsvError::MalformedCommitment,
        r matches Ok(pv) ==> {
            &&& pv.file_root@ == bytes@.subrange(0, 32)
            &&& pv.op == bytes@[32]
            &&& pv.col_hash@ == bytes@.subrange(33, 65)
            &&& pv.n_rows == vstd::bytes::spec_u64_from_le_bytes(bytes@.subrange(65, 73))
            &&& pv.result as int == u128_as_i128(
                vstd::bytes::spec_u128_from_le_bytes(bytes@.subrange(73, 89)) as int,
            )
            &&& pv.decimal_points as int == if bytes@.len() == 91 {
                vstd::bytes::spec_u16_from_le_bytes(bytes@.subrange(89, 91)) as int
            } else {
                0
            }
            &&& pv.wf()
        },
{
    let n: usize = bytes.len();
    if n != WIRE_LEN_FLAT && n != WIRE_LEN_SCALED {
        return Err(VcsvError::MalformedCommitment);
    }
    let op: u8 = bytes[32];
    if op > 3 {
        return Err(VcsvError::MalformedCommitment);
    }
    let file_root = crate::bytesutil::copy_range(bytes, 0, 32);
    let col_hash = crate::bytesutil::copy_range(bytes, 33, 65);
    let n_rows = vstd::bytes::u64_from_le_bytes(vstd::slice::slice_subrange(bytes, 65, 73));
    let result = i128_from_le_bytes(vstd::slice::slice_subrange(bytes, 73, 89));
    let decimal_points: u16 = if n == WIRE_LEN_SCALED {
        vstd::bytes::u16_from_le_bytes(vstd::slice::slice_subrange(bytes, 89, 91))
    } else {
        0
    };
    Ok(PublicValues { file_root, op, col_hash, n_rows, result, decimal_points })
}

/// Round-trip law for the scaled wire form: every field of a well-formed
/// record is read back exactly from its encoding.
pub proof fn lemma_encode_scaled_round_trip(pv: PublicValues)
    requires
        pv.wf(),
    ensures
        spec_encode_scaled(pv).len() == 91,
        spec_encode_scaled(pv).subrange(0, 32) == pv.file_root@,
        spec_encode_scaled(pv)[32] == pv.op,
        spec_encode_scaled(pv).subrange(33, 65) == pv.col_hash@,
        vstd::bytes::spec_u64_from_le_bytes(spec_encode_scaled(pv).subrange(65, 73)) == pv.n_rows,
        u128_as_i128(
            vstd::bytes::spec_u128_from_le_bytes(spec_encode_scaled(pv).subrange(73, 89)) as int,
        ) == pv.result as int,
        vstd::bytes::spec_u16_from_le_bytes(spec_encode_scaled(pv).subrange(89, 91))
            == pv.decimal_points,
{
    vstd::bytes::lemma_auto_spec_u64_to_from_le_bytes();
    vstd::bytes::lemma_auto_spec_u128_to_from_le_bytes();
    vstd::bytes::lemma_auto_spec_u16_to_from_le_bytes();
    let e = spec_encode_scaled(pv);
    assert(e.subrange(0, 32) =~= pv.file_root@);
    assert(e.subrange(33, 65) =~= pv.col_hash@);
    assert(e.subrange(65, 73) =~= vstd::bytes::spec_u64_to_le_bytes(pv.n_rows));
    assert(e.subrange(73, 89) =~= spec_i128_to_le_bytes(pv.result as int));
    assert(e.subrange(89, 91) =~= vstd::bytes::spec_u16_to_le_bytes(pv.decimal_points));
    lemma_i128_u128_round_trip(pv.result as int);
}

/// Round-trip law for the flat wire form: as the scaled form, with the
/// decimal scale absent.
pub proof fn lemma_encode_flat_round_trip(pv: PublicValues)
    requires
        pv.wf(),
    ensures
        spec_encode_flat(pv).len() == 89,
        spec_encode_flat(pv).subrange(0, 32) == pv.file_root@,
        spec_encode_flat(pv)[32] == pv.op,
        spec_encode_flat(pv).subrange(33, 65) == pv.col_hash@,
        vstd::bytes::spec_u64_from_le_bytes(spec_encode_flat(pv).subrange(65, 73)) == pv.n_rows,
        u128_as_i128(
            vstd::bytes::spec_u128_from_le_bytes(spec_encode_flat(pv).subrange(73, 89)) as int,
        ) == pv.result as int,
{
    vstd::bytes::lemma_auto_spec_u64_to_from_le_bytes();
    vstd::bytes::lemma_auto_spec_u128_to_from_le_bytes();
    let e = spec_encode_flat(pv);
    assert(e.subrange(0, 32) =~= pv.file_root@);
    assert(e.subrange(33, 65) =~= pv.col_hash@);
    assert(e.subrange(65, 73) =~= vstd::bytes::spec_u64_to_le_bytes(pv.n_rows));
    assert(e.subrange(73, 89) =~= spec_i128_to_le_bytes(pv.result as int));
    lemma_i128_u128_round_trip(pv.result as int);
}

/// The reader's gates: valid UTF-8, a header line, and the requested column
/// present among the trimmed headers.
pub open spec fn spec_doc_gates_ok(bytes: Seq<u8>, col: Seq<u8>) -> bool {
    &&& vstd::utf8::valid_utf8(bytes)
    &&& bytes.len() > 0
    &&& spec_header_cols(bytes).contains(col)
}

/// Everything a successful commitment needs: the reader's gates, a supported
/// operation whose aggregation succeeds (`Hash` aggregates nothing), and at
/// least one row when the file commitment is a Merkle root.
pub open spec fn spec_commit_gates_ok(
    bytes: Seq<u8>,
    col: Seq<u8>,
    op: Op,
    version: CommitmentVersion,
) -> bool {
    let rows = spec_rows(bytes);
    let idx = first_index(spec_header_cols(bytes), col);
    &&& spec_doc_gates_ok(bytes, col)
    &&& (op == Op::Sum || op == Op::Mean || op == Op::Hash)
    &&& (op == Op::Sum ==> spec_sum_col(rows, idx) matches Ok(_))
    &&& (op == Op::Mean ==> spec_mean_col(rows, idx) matches Ok(_))
    &&& (version == CommitmentVersion::MerkleRoot ==> rows.len() > 0)
}

/// Build the public commitment over raw CSV bytes, a column name and an
/// operation: parse, aggregate, and commit to the file, the column name, the
/// row count and the result.
///
/// The file commitment is the keccak-256 of the raw bytes in the flat-hash
/// version and the Merkle root over rows in the Merkle-root version. The
/// reader's and the aggregator's errors pass through unchanged; a
/// Merkle-root commitment over zero rows fails with `EmptyDataset`.
///
/// `Hash` is the no-aggregation passthrough: the committed content hash is
/// the 32-byte file commitment itself, the row count is the number of data
/// rows, and the numeric `result` carries no meaning — it is fixed at zero
/// with scale zero, and callers must not read it as an aggregate. `Median`
/// is reported as `Unsupported`.
pub fn build_commitment(csv_bytes: &[u8], col: &[u8], op: Op, version: CommitmentVersion) -> (r:
    Result<PublicValues, VcsvError>)
    ensures
        r matches Ok(pv) ==> {
            let rows = spec_rows(csv_bytes@);
            let idx = first_index(spec_header_cols(csv_bytes@), col@);
            &&& vstd::utf8::valid_utf8(csv_bytes@)
            &&& csv_bytes@.len() > 0
            &&& spec_header_cols(csv_bytes@).contains(col@)
            &&& (op == Op::Sum || op == Op::Mean || op == Op::Hash)
            &&& pv.op == spec_op_to_u8(op)
            &&& pv.col_hash@ == keccak256(col@)
            &&& pv.file_root@ == (match version {
                CommitmentVersion::FlatHash => keccak256(csv_bytes@),
                CommitmentVersion::MerkleRoot => spec_root(spec_leaves(rows)),
            })
            &&& (version == CommitmentVersion::MerkleRoot ==> rows.len() > 0)
            &&& (op == Op::Sum ==> spec_sum_col(rows, idx) == Ok::<(int, int), VcsvError>((
                pv.n_rows as int,
                pv.result as int,
            )) && pv.decimal_points == 0)
            &&& (op == Op::Mean ==> spec_mean_col(rows, idx) == Ok::<(int, int, int), VcsvError>((
                pv.n_rows as int,
                pv.result as int,
                pv.decimal_points as int,
            )))
            &&& (op == Op::Hash ==> pv.n_rows == rows.len() && pv.result == 0
                && pv.decimal_points == 0)
            &&& pv.wf()
        },
        !vstd::utf8::valid_utf8(csv_bytes@) <==> r == Err::<PublicValues, VcsvError>(
            VcsvError::InvalidEncoding,
        ),
        (vstd::utf8::valid_utf8(csv_bytes@) && csv_bytes@.len() == 0) <==> r == Err::<
            PublicValues,
            VcsvError,
        >(VcsvError::EmptyInput),
        (vstd::utf8::valid_utf8(csv_bytes@) && csv_bytes@.len() > 0 && !spec_header_cols(
            csv_bytes@,
        ).contains(col@)) <==> r == Err::<PublicValues, VcsvError>(VcsvError::ColumnNotFound),
        (vstd::utf8::valid_utf8(csv_bytes@) && csv_bytes@.len() > 0 && spec_header_cols(
            csv_bytes@,
        ).contains(col@) && op == Op::Median) <==> r == Err::<PublicValues, VcsvError>(
            VcsvError::Unsupported,
        ),
        spec_commit_gates_ok(csv_bytes@, col@, op, version) <==> r matches Ok(_),
        ({
            let rows = spec_rows(csv_bytes@);
            let idx = first_index(spec_header_cols(csv_bytes@), col@);
            &&& ((spec_doc_gates_ok(csv_bytes@, col@) && op == Op::Sum && (spec_sum_col(
                rows,
                idx,
            ) matches Err(e) && r == Err::<PublicValues, VcsvError>(e))) || !(spec_doc_gates_ok(
                csv_bytes@,
                col@,
            ) && op == Op::Sum && spec_sum_col(rows, idx) matches Err(_)))
            &&& ((spec_doc_gates_ok(csv_bytes@, col@) && op == Op::Mean && (spec_mean_col(
                rows,
                idx,
            ) matches Err(e) && r == Err::<PublicValues, VcsvError>(e))) || !(spec_doc_gates_ok(
                csv_bytes@,
                col@,
            ) && op == Op::Mean && spec_mean_col(rows, idx) matches Err(_)))
            &&& (spec_doc_gates_ok(csv_bytes@, col@) && (op == Op::Sum && spec_sum_col(
                rows,
                idx,
            ) matches Ok(_) || op == Op::Mean && spec_mean_col(rows, idx) matches Ok(_) || op
                == Op::Hash) && version == CommitmentVersion::MerkleRoot && rows.len() == 0 ==> r
                == Err::<PublicValues, VcsvError>(VcsvError::EmptyDataset))
        }),
{
    let doc = match parse_csv(csv_bytes, Some(col)) {
        Result::Ok(d) => d,
        Result::Err(e) => {
            return Err(e);
        },
    };
    let (n_rows, value, scale) = match op {
        Op::Sum => {
            match sum_col(&doc) {
                Result::Ok(t) => t,
                Result::Err(e) => {
                    proof {
                        crate::aggregate::lemma_sum_col_err_kinds(doc.rows(), doc.idx as int);
                    }
                    return Err(e);
                },
            }
        },
        Op::Mean => {
            match mean_col(&doc) {
                Result::Ok(t) => t,
                Result::Err(e) => {
                    proof {
                        crate::aggregate::lemma_mean_col_err_kinds(doc.rows(), doc.idx as int);
                    }
                    return Err(e);
                },
            }
        },
        Op::Median => {
            return Err(VcsvError::Unsupported);
        },
        Op::Hash => {
            // the passthrough: the content hash below is the commitment; the
            // numeric result field carries nothing
            (doc.lines.len() as u64, 0, 0)
        },
    };
    let file_root: Vec<u8> = match version {
        CommitmentVersion::FlatHash => hash(csv_bytes),
        CommitmentVersion::MerkleRoot => {
            match merkelize(&doc) {
                Result::Ok(root) => root,
                Result::Err(e) => {
                    return Err(e);
                },
            }
        },
    };
    let col_hash = hash(col);
    Ok(
        PublicValues {
            file_root,
            op: op_to_u8(op),
            col_hash,
            n_rows,
            result: value,
            decimal_points: scale,
        },
    )
}

/// What a successfully encoded record commits to, byte for byte: the file
/// commitment, the operation tag, the column commitment, and the aggregate —
/// the row count, the result, and, in the scaled wire form, the decimal
/// scale.
pub open spec fn spec_record_matches(
    bytes: Seq<u8>,
    col: Seq<u8>,
    op: Op,
    version: CommitmentVersion,
    b: Seq<u8>,
) -> bool {
    let rows = spec_rows(bytes);
    let idx = first_index(spec_header_cols(bytes), col);
    let wire_rows = vstd::bytes::spec_u64_from_le_bytes(b.subrange(65, 73)) as int;
    let wire_result = u128_as_i128(
        vstd::bytes::spec_u128_from_le_bytes(b.subrange(73, 89)) as int,
    );
    let wire_scale = vstd::bytes::spec_u16_from_le_bytes(b.subrange(89, 91)) as int;
    &&& b.len() == (if version == CommitmentVersion::MerkleRoot {
        91int
    } else {
        89int
    })
    &&& b.subrange(0, 32) == (match version {
        CommitmentVersion::FlatHash => keccak256(bytes),
        CommitmentVersion::MerkleRoot => spec_root(spec_leaves(rows)),
    })
    &&& b[32] == spec_op_to_u8(op)
    &&& b.subrange(33, 65) == keccak256(col)
    &&& (op == Op::Sum ==> spec_sum_col(rows, idx) == Ok::<(int, int), VcsvError>((
        wire_rows,
        wire_result,
    )) && (version == CommitmentVersion::MerkleRoot ==> wire_scale == 0))
    &&& (op == Op::Mean ==> (spec_mean_col(rows, idx) matches Ok(t) && t.0 == wire_rows && t.1
        == wire_result && (version == CommitmentVersion::MerkleRoot ==> t.2 == wire_scale)))
    &&& (op == Op::Hash ==> wire_rows == rows.len() && wire_result == 0 && (version
        == CommitmentVersion::MerkleRoot ==> wire_scale == 0))
}

/// Run one input record end to end: parse, aggregate, commit and encode the
/// byte-exact public-values record the proving backend commits to.
///
/// The builder's errors pass through unchanged; on success every field of
/// the record is pinned: the file commitment of the chosen version, the
/// operation tag, the column commitment, and the committed row count, result
/// and decimal scale.
pub fn execute_input(input: &Input, version: CommitmentVersion) -> (r: Result<Vec<u8>, VcsvError>)
    ensures
        r matches Ok(b) ==> spec_record_matches(input.csv@, input.col@, input.op, version, b@),
        !vstd::utf8::valid_utf8(input.csv@) <==> r == Err::<Vec<u8>, VcsvError>(
            VcsvError::InvalidEncoding,
        ),
        (vstd::utf8::valid_utf8(input.csv@) && input.csv@.len() == 0) <==> r == Err::<
            Vec<u8>,
            VcsvError,
        >(VcsvError::EmptyInput),
        (vstd::utf8::valid_utf8(input.csv@) && input.csv@.len() > 0 && !spec_header_cols(
            input.csv@,
        ).contains(input.col@)) <==> r == Err::<Vec<u8>, VcsvError>(VcsvError::ColumnNotFound),
        (vstd::utf8::valid_utf8(input.csv@) && input.csv@.len() > 0 && spec_header_cols(
            input.csv@,
        ).contains(input.col@) && input.op == Op::Median) <==> r == Err::<Vec<u8>, VcsvError>(
            VcsvError::Unsupported,
        ),
        spec_commit_gates_ok(input.csv@, input.col@, input.op, version) <==> r matches Ok(_),
{
    let pv = match build_commitment(
        input.csv.as_slice(),
        input.col.as_slice(),
        input.op,
        version,
    ) {
        Result::Ok(pv) => pv,
        Result::Err(e) => {
            return Err(e);
        },
    };
    let encoded = encode_commitment(&pv, version);
    proof {
        if version == CommitmentVersion::MerkleRoot {
            lemma_encode_scaled_round_trip(pv);
        } else {
            lemma_encode_flat_round_trip(pv);
        }
    }
    Ok(encoded)
}

} // verus!
