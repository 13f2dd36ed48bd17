//! Verifiable CSV analytics: canonical CSV interpretation, deterministic
//! fixed-point aggregation, a keccak-based hashing scheme, a binary Merkle
//! tree over row hashes, and inclusion-proof generation and verification.

pub mod aggregate;
pub mod bytesutil;
pub mod commitment;
pub mod csv;
pub mod hashing;
pub mod hexstr;
pub mod merkle;

use vstd::prelude::*;

verus! {

/// Every caller-visible failure of the library. Proof *invalidity* is not an
/// error: verification returns a plain boolean.
#[derive(Clone, Copy, Debug, PartialEq, Eq, Structural)]
pub enum VcsvError {
    /// The CSV bytes are not valid UTF-8.
    InvalidEncoding,
    /// The CSV has no header line at all (no bytes).
    EmptyInput,
    /// The requested column name is absent from the headers.
    ColumnNotFound,
    /// A row has fewer fields than the resolved column index requires.
    MissingField,
    /// A field fails the strict integer grammar.
    MalformedInteger,
    /// An accumulator or a parsed value exceeds the signed 128-bit range.
    IntegerOverflow,
    /// Inclusion-proof generation was requested for a nonexistent row.
    RowIndexOutOfBounds,
    /// A root hex string does not decode to exactly 32 bytes.
    InvalidRootLength,
    /// A hex string holds a non-hex character or an odd number of digits.
    MalformedHex,
    /// A Merkle build was requested over zero rows.
    EmptyDataset,
    /// The requested operation is not implemented (the median).
    Unsupported,
    /// A commitment record has a wrong length or an unknown operation tag.
    MalformedCommitment,
}

/// The aggregation operation committed to in the public record. `Hash` is
/// the no-aggregation passthrough: its commitment is the content hash in the
/// record's 32-byte file-commitment field, and its numeric result field
/// carries no meaning.
#[derive(Clone, Copy, Debug, PartialEq, Eq, Structural)]
pub enum Op {
    Sum,
    Mean,
    Median,
    Hash,
}

/// Which prover backend the surrounding shell should talk to. The library
/// never talks to one; the tag only rides along in the input record.
#[derive(Clone, Copy, Debug, PartialEq, Eq, Structural)]
pub enum Backend {
    Cpu,
    Network,
}

/// The byte-exact input record handed to the external proving backend.
#[derive(Debug)]
pub struct Input {
    pub csv: Vec<u8>,
    pub col: Vec<u8>,
    pub op: Op,
}

/// The wire tag of an operation.
pub open spec fn spec_op_to_u8(op: Op) -> u8 {
    match op {
        Op::Sum => 0,
        Op::Mean => 1,
        Op::Median => 2,
        Op::Hash => 3,
    }
}

/// Encode an operation as its one-byte wire tag.
pub fn op_to_u8(op: Op) -> (r: u8)
    ensures
        r == spec_op_to_u8(op),
{
    match op {
        Op::Sum => 0,
        Op::Mean => 1,
        Op::Median => 2,
        Op::Hash => 3,
    }
}

} // verus!
