//! The row-level Merkle tree: leaf hashes over canonical row bytes, the
//! bottom-up fold with last-node duplication at every odd level, and the
//! inclusion-proof generator and verifier.

use vstd::prelude::*;

use crate::bytesutil::{bytes_eq, concat_bytes, lemma_views_push, views};
use crate::csv::{Csv, COMMA};
use crate::hashing::{hash, keccak256};
use crate::hexstr::{hex_decode, hex_encode_prefixed, hex_ok, parse_root_hex, spec_hex_decode, spec_hex_encode, spec_strip_0x};
use crate::VcsvError;

verus! {

/// The canonical byte representation of a row: its trimmed fields rejoined
/// with a comma, the exact separator the reader split on.
pub open spec fn spec_join(fields: Seq<Seq<u8>>) -> Seq<u8>
    decreases fields.len(),
{
    if fields.len() == 0 {
        Seq::empty()
    } else if fields.len() == 1 {
        fields[0]
    } else {
        spec_join(fields.drop_last()) + seq![COMMA] + fields.last()
    }
}

/// The leaf hash of a row.
pub open spec fn spec_leaf(row: Seq<Seq<u8>>) -> Seq<u8> {
    keccak256(spec_join(row))
}

/// One leaf hash per row, in row order.
pub open spec fn spec_leaves(rows: Seq<Seq<Seq<u8>>>) -> Seq<Seq<u8>> {
    Seq::new(rows.len(), |i: int| spec_leaf(rows[i]))
}

/// An internal node: the hash of the two children's bytes concatenated.
pub open spec fn spec_node(l: Seq<u8>, r: Seq<u8>) -> Seq<u8> {
    keccak256(l + r)
}

/// The index a node is paired with at a level of the given length: its right
/// or left neighbour, or itself when it is the unmatched last node.
pub open spec fn sibling_of(i: int, len: int) -> int {
    if i % 2 == 0 {
        if i + 1 < len {
            i + 1
        } else {
            i
        }
    } else {
        i - 1
    }
}

/// The level above: pairs folded left to right, the unmatched last node
/// paired with itself.
pub open spec fn next_level(level: Seq<Seq<u8>>) -> Seq<Seq<u8>> {
    Seq::new(
        (level.len() + 1) / 2,
        |j: int|
            if 2 * j + 1 < level.len() {
                spec_node(level[2 * j], level[2 * j + 1])
            } else {
                spec_node(level[2 * j], level[2 * j])
            },
    )
}

/// The root over a leaf level: fold levels until one hash remains. A single
/// leaf is its own root.
pub open spec fn spec_root(level: Seq<Seq<u8>>) -> Seq<u8>
    recommends
        level.len() >= 1,
    decreases level.len(),
{
    if level.len() == 0 {
        Seq::empty()
    } else if level.len() == 1 {
        level[0]
    } else {
        spec_root(next_level(level))
    }
}

/// The authentication path: one sibling hash per level, leaf level first.
pub open spec fn spec_path(level: Seq<Seq<u8>>, i: int) -> Seq<Seq<u8>>
    recommends
        0 <= i < level.len(),
    decreases level.len(),
{
    if level.len() <= 1 {
        Seq::empty()
    } else {
        seq![level[sibling_of(i, level.len() as int)]] + spec_path(next_level(level), i / 2)
    }
}

/// Replaying a path: at each level the current hash is combined with the
/// sibling, on the left when the position is even, on the right when odd.
pub open spec fn spec_fold(cur: Seq<u8>, siblings: Seq<Seq<u8>>, i: int) -> Seq<u8>
    decreases siblings.len(),
{
    if siblings.len() == 0 {
        cur
    } else {
        let combined = if i % 2 == 0 {
            spec_node(cur, siblings.first())
        } else {
            spec_node(siblings.first(), cur)
        };
        spec_fold(combined, siblings.drop_first(), i / 2)
    }
}

/// Round-trip law: for any leaf level with at least one node and any valid
/// index, folding that leaf with its authentication path reproduces the
/// root. This is what makes a generated inclusion proof verify.
pub proof fn lemma_inclusion_round_trip(level: Seq<Seq<u8>>, i: int)
    requires
        1 <= level.len(),
        0 <= i < level.len(),
    ensures
        spec_fold(level[i], spec_path(level, i), i) == spec_root(level),
    decreases level.len(),
{
    if level.len() == 1 {
        assert(spec_path(level, i) =~= Seq::<Seq<u8>>::empty());
    } else {
        let len = level.len() as int;
        let nl = next_level(level);
        let s = level[sibling_of(i, len)];
        let path = spec_path(level, i);
        assert(path.first() == s);
        assert(path.drop_first() =~= spec_path(nl, i / 2));
        let combined = if i % 2 == 0 {
            spec_node(level[i], s)
        } else {
            spec_node(s, level[i])
        };
        assert(0 <= i / 2 < nl.len());
        assert(combined == nl[i / 2]) by {
            if i % 2 == 0 {
                assert(2 * (i / 2) == i);
            } else {
                assert(2 * (i / 2) == i - 1);
            }
        }
        lemma_inclusion_round_trip(nl, i / 2);
    }
}

/// The round-trip law at the document level: for any row set with at least
/// one row and any valid row index, replaying the generated path over that
/// row's leaf hash reproduces the Merkle root, so verification accepts.
pub proof fn lemma_document_round_trip(rows: Seq<Seq<Seq<u8>>>, r: int)
    requires
        1 <= rows.len(),
        0 <= r < rows.len(),
    ensures
        spec_fold(spec_leaf(rows[r]), spec_path(spec_leaves(rows), r), r) == spec_root(
            spec_leaves(rows),
        ),
{
    lemma_inclusion_round_trip(spec_leaves(rows), r);
}

/// Odd-count duplication law: at any level with an odd count of at least
/// three nodes, appending a copy of the last node leaves the root unchanged,
/// because the unmatched last node is already paired with itself. (With a
/// single node the tree degenerates: that node is its own root, while two
/// copies hash to a fresh node.)
pub proof fn lemma_odd_duplication(level: Seq<Seq<u8>>)
    requires
        level.len() >= 3,
        level.len() % 2 == 1,
    ensures
        spec_root(level.push(level.last())) == spec_root(level),
{
    let pushed = level.push(level.last());
    assert(next_level(pushed) =~= next_level(level));
}

/// Determinism of the hash primitive: any two digests of the same bytes are
/// byte-identical.
pub proof fn lemma_hash_deterministic(s: Seq<u8>, r1: Seq<u8>, r2: Seq<u8>)
    requires
        r1 == keccak256(s),
        r2 == keccak256(s),
    ensures
        r1 == r2,
{
}

/// Determinism of the tree: any two roots built over the same leaf sequence
/// are byte-identical.
pub proof fn lemma_root_deterministic(leaves: Seq<Seq<u8>>, r1: Seq<u8>, r2: Seq<u8>)
    requires
        r1 == spec_root(leaves),
        r2 == spec_root(leaves),
    ensures
        r1 == r2,
{
}

/// Append a slice's bytes to a vector.
fn append_bytes(dest: &mut Vec<u8>, src: &[u8])
    ensures
        final(dest)@ == old(dest)@ + src@,
{
    let mut k: usize = 0;
    while k < src.len()
        invariant
            k <= src@.len(),
            dest@ == old(dest)@ + src@.subrange(0, k as int),
        decreases src@.len() - k,
    {
        dest.push(src[k]);
        assert(old(dest)@ + src@.subrange(0, k + 1 as int) =~= (old(dest)@ + src@.subrange(
            0,
            k as int,
        )).push(src@[k as int]));
        k = k + 1;
    }
    assert(old(dest)@ + src@.subrange(0, src@.len() as int) =~= old(dest)@ + src@);
}

/// Rejoin a row's fields with commas into the canonical row bytes.
pub fn join_row(row: &Vec<Vec<u8>>) -> (r: Vec<u8>)
    ensures
        r@ == spec_join(views(row@)),
{
    let mut out: Vec<u8> = Vec::new();
    let mut i: usize = 0;
    assert(out@ =~= spec_join(views(row@).take(0)));
    while i < row.len()
        invariant
            i <= row@.len(),
            out@ == spec_join(views(row@).take(i as int)),
        decreases row@.len() - i,
    {
        proof {
            assert(views(row@).take(i + 1).drop_last() =~= views(row@).take(i as int));
            assert(views(row@).take(i + 1).last() == row@[i as int]@);
        }
        if i > 0 {
            out.push(COMMA);
            append_bytes(&mut out, row[i].as_slice());
            assert(out@ =~= spec_join(views(row@).take(i as int)) + seq![COMMA] + row@[i as int]@);
        } else {
            append_bytes(&mut out, row[i].as_slice());
            assert(out@ =~= row@[0int]@);
        }
        i = i + 1;
    }
    assert(views(row@).take(row@.len() as int) =~= views(row@));
    out
}

/// One leaf hash per row of the document, in row order.
fn leaf_hashes(csv: &Csv) -> (r: Vec<Vec<u8>>)
    ensures
        views(r@) == spec_leaves(csv.rows()),
        forall|k: int| 0 <= k < r@.len() ==> views(r@)[k].len() == 32,
{
    let mut r: Vec<Vec<u8>> = Vec::new();
    let mut i: usize = 0;
    let n: usize = csv.lines.len();
    while i < n
        invariant
            i <= n,
            n == csv.lines@.len(),
            views(r@) == spec_leaves(csv.rows()).take(i as int),
            forall|k: int| 0 <= k < r@.len() ==> views(r@)[k].len() == 32,
        decreases n - i,
    {
        let row_bytes = join_row(&csv.lines[i]);
        let h = hash(row_bytes.as_slice());
        proof {
            lemma_views_push(r@, h);
            assert(csv.rows()[i as int] == views(csv.lines@[i as int]@));
            assert(spec_leaves(csv.rows()).take(i + 1) =~= spec_leaves(csv.rows()).take(
                i as int,
            ).push(spec_leaf(csv.rows()[i as int])));
        }
        r.push(h);
        i = i + 1;
    }
    assert(spec_leaves(csv.rows()).take(n as int) =~= spec_leaves(csv.rows()));
    r
}

/// Fold one level into the next: pairs hashed left to right, the unmatched
/// last node hashed with itself.
fn next_level_exec(cur: &Vec<Vec<u8>>) -> (r: Vec<Vec<u8>>)
    ensures
        views(r@) == next_level(views(cur@)),
        forall|k: int| 0 <= k < r@.len() ==> views(r@)[k].len() == 32,
{
    let n: usize = cur.len();
    let half: usize = n / 2;
    let out_len: usize = if n % 2 == 0 {
        half
    } else {
        half + 1
    };
    assert(out_len as int == (n as int + 1) / 2);
    let mut r: Vec<Vec<u8>> = Vec::new();
    let mut j: usize = 0;
    assert(views(r@) =~= next_level(views(cur@)).take(0));
    while j < out_len
        invariant
            j <= out_len,
            n == cur@.len(),
            out_len as int == (n as int + 1) / 2,
            views(r@) == next_level(views(cur@)).take(j as int),
            forall|k: int| 0 <= k < r@.len() ==> views(r@)[k].len() == 32,
        decreases out_len - j,
    {
        assert(2 * (j as int) < n as int);
        let a: usize = 2 * j;
        let left = &cur[a];
        let combined: Vec<u8> = if a + 1 < n {
            concat_bytes(left.as_slice(), cur[a + 1].as_slice())
        } else {
            concat_bytes(left.as_slice(), left.as_slice())
        };
        let h = hash(combined.as_slice());
        proof {
            lemma_views_push(r@, h);
            let nl = next_level(views(cur@));
            assert(h@ == nl[j as int]);
            assert(nl.take(j + 1) =~= nl.take(j as int).push(nl[j as int]));
        }
        r.push(h);
        j = j + 1;
    }
    proof {
        let nl = next_level(views(cur@));
        assert(nl.take(nl.len() as int) =~= nl);
    }
    r
}

/// Build the Merkle root over the document's rows.
///
/// Fails with `EmptyDataset` exactly when the document has zero rows;
/// otherwise the root is the bottom-up fold over the row leaf hashes, with
/// the last node of every odd-sized level paired with itself.
pub fn merkelize(csv: &Csv) -> (r: Result<Vec<u8>, VcsvError>)
    ensures
        r matches Err(e) ==> e == VcsvError::EmptyDataset,
        (r matches Err(e)) <==> csv.rows().len() == 0,
        r matches Ok(root) ==> root@ == spec_root(spec_leaves(csv.rows())) && root@.len() == 32,
{
    if csv.lines.len() == 0 {
        return Err(VcsvError::EmptyDataset);
    }
    let mut hashes = leaf_hashes(csv);
    assert(views(hashes@).len() >= 1);
    while hashes.len() > 1
        invariant
            hashes@.len() >= 1,
            spec_root(spec_leaves(csv.rows())) == spec_root(views(hashes@)),
            forall|k: int| 0 <= k < hashes@.len() ==> views(hashes@)[k].len() == 32,
        decreases hashes@.len(),
    {
        let next = next_level_exec(&hashes);
        proof {
            assert(views(next@).len() == (views(hashes@).len() + 1) / 2);
        }
        hashes = next;
    }
    let root = match hashes.pop() {
        Option::Some(h) => h,
        Option::None => {
            proof {
                assert(false);
            }
            Vec::new()
        },
    };
    assert(root@ == views(hashes@.push(root))[0]);
    Ok(root)
}

/// An inclusion proof: the row's leaf hash and the ordered sibling hashes
/// from the leaf level up to (not including) the root.
#[derive(Debug)]
pub struct MerkleProof {
    pub leaf: Vec<u8>,
    pub siblings: Vec<Vec<u8>>,
}

/// Generate the inclusion proof for one row.
///
/// Fails with `RowIndexOutOfBounds` exactly when the index is not a valid
/// row; otherwise the proof holds the row's leaf hash and one sibling per
/// level, with a node's unmatched self serving as its own sibling.
pub fn inclusion_proof(csv: &Csv, row_idx: usize) -> (r: Result<MerkleProof, VcsvError>)
    ensures
        r matches Err(e) ==> e == VcsvError::RowIndexOutOfBounds,
        (r matches Err(e)) <==> row_idx >= csv.rows().len(),
        r matches Ok(p) ==> {
            &&& p.leaf@ == spec_leaf(csv.rows()[row_idx as int])
            &&& views(p.siblings@) == spec_path(spec_leaves(csv.rows()), row_idx as int)
            &&& p.leaf@.len() == 32
        },
{
    if row_idx >= csv.lines.len() {
        return Err(VcsvError::RowIndexOutOfBounds);
    }
    let mut levels = leaf_hashes(csv);
    assert(levels@.len() == csv.rows().len()) by {
        assert(views(levels@).len() == levels@.len());
        assert(spec_leaves(csv.rows()).len() == csv.rows().len());
    }
    assert(csv.rows().len() == csv.lines@.len());
    let leaf = vstd::slice::slice_to_vec(levels[row_idx].as_slice());
    assert(leaf@ == spec_leaf(csv.rows()[row_idx as int])) by {
        assert(leaf@ == views(levels@)[row_idx as int]);
    }
    assert(leaf@.len() == 32) by {
        assert(views(levels@)[row_idx as int].len() == 32);
    }
    let mut siblings: Vec<Vec<u8>> = Vec::new();
    let mut i: usize = row_idx;
    assert(views(siblings@) + spec_path(views(levels@), i as int) =~= spec_path(
        views(levels@),
        i as int,
    ));
    while levels.len() > 1
        invariant
            i < levels@.len(),
            leaf@ == spec_leaf(csv.rows()[row_idx as int]),
            leaf@.len() == 32,
            row_idx < csv.rows().len(),
            spec_path(spec_leaves(csv.rows()), row_idx as int) == views(siblings@) + spec_path(
                views(levels@),
                i as int,
            ),
        decreases levels@.len(),
    {
        let len: usize = levels.len();
        let sib_idx: usize = if i % 2 == 0 {
            if i + 1 < len {
                i + 1
            } else {
                i
            }
        } else {
            i - 1
        };
        assert(sib_idx as int == sibling_of(i as int, len as int));
        let sib = vstd::slice::slice_to_vec(levels[sib_idx].as_slice());
        proof {
            lemma_views_push(siblings@, sib);
            assert(spec_path(views(levels@), i as int).first() == views(levels@)[sib_idx as int]);
            assert(spec_path(views(levels@), i as int).drop_first() =~= spec_path(
                next_level(views(levels@)),
                i as int / 2,
            ));
            assert(views(siblings@) + spec_path(views(levels@), i as int) =~= views(
                siblings@.push(sib),
            ) + spec_path(next_level(views(levels@)), i as int / 2));
        }
        siblings.push(sib);
        let next = next_level_exec(&levels);
        proof {
            assert(views(next@).len() == (views(levels@).len() + 1) / 2);
        }
        levels = next;
        i = i / 2;
    }
    proof {
        assert(spec_path(views(levels@), i as int) =~= Seq::<Seq<u8>>::empty());
        assert(views(siblings@) + Seq::<Seq<u8>>::empty() =~= views(siblings@));
    }
    Ok(MerkleProof { leaf, siblings })
}

/// Replay an inclusion proof from the leaf upward and return the recomputed
/// candidate root.
pub fn fold_to_root(leaf: &[u8], siblings: &Vec<Vec<u8>>, row_idx: usize) -> (r: Vec<u8>)
    ensures
        r@ == spec_fold(leaf@, views(siblings@), row_idx as int),
{
    let mut cur = vstd::slice::slice_to_vec(leaf);
    let mut i: usize = row_idx;
    let mut k: usize = 0;
    let n: usize = siblings.len();
    assert(views(siblings@).skip(0) =~= views(siblings@));
    while k < n
        invariant
            k <= n,
            n == siblings@.len(),
            spec_fold(leaf@, views(siblings@), row_idx as int) == spec_fold(
                cur@,
                views(siblings@).skip(k as int),
                i as int,
            ),
        decreases n - k,
    {
        let sib = &siblings[k];
        let combined: Vec<u8> = if i % 2 == 0 {
            concat_bytes(cur.as_slice(), sib.as_slice())
        } else {
            concat_bytes(sib.as_slice(), cur.as_slice())
        };
        proof {
            let rest = views(siblings@).skip(k as int);
            assert(rest.first() == views(siblings@)[k as int]);
            assert(rest.drop_first() =~= views(siblings@).skip(k + 1));
        }
        cur = hash(combined.as_slice());
        i = i / 2;
        k = k + 1;
    }
    assert(views(siblings@).skip(n as int) =~= Seq::<Seq<u8>>::empty());
    cur
}

/// Verify an inclusion proof against a claimed root: replay the path and
/// compare. Invalidity is a plain `false`, never an error.
pub fn verify_inclusion(root: &[u8], proof: &MerkleProof, row_idx: usize) -> (r: bool)
    ensures
        r == (spec_fold(proof.leaf@, views(proof.siblings@), row_idx as int) == root@),
{
    let computed = fold_to_root(proof.leaf.as_slice(), &proof.siblings, row_idx);
    bytes_eq(computed.as_slice(), root)
}

/// The persisted form of an inclusion proof: each hash as `0x`-prefixed
/// lower-case hex text.
#[derive(Debug)]
pub struct InclusionProofString {
    pub leaf: Vec<u8>,
    pub siblings: Vec<Vec<u8>>,
}

/// Render an inclusion proof as hex text.
pub fn proof_to_hex(p: &MerkleProof) -> (r: InclusionProofString)
    ensures
        r.leaf@ == seq![48u8, 120u8] + spec_hex_encode(p.leaf@),
        views(r.siblings@) == views(p.siblings@).map_values(
            |h: Seq<u8>| seq![48u8, 120u8] + spec_hex_encode(h),
        ),
{
    let leaf = hex_encode_prefixed(p.leaf.as_slice());
    let mut siblings: Vec<Vec<u8>> = Vec::new();
    let mut k: usize = 0;
    let n: usize = p.siblings.len();
    while k < n
        invariant
            k <= n,
            n == p.siblings@.len(),
            siblings@.len() == k,
            forall|m: int|
                0 <= m < k ==> views(siblings@)[m] == seq![48u8, 120u8] + spec_hex_encode(
                    views(p.siblings@)[m],
                ),
        decreases n - k,
    {
        let s = hex_encode_prefixed(p.siblings[k].as_slice());
        proof {
            lemma_views_push(siblings@, s);
        }
        siblings.push(s);
        k = k + 1;
    }
    assert(views(siblings@) =~= views(p.siblings@).map_values(
        |h: Seq<u8>| seq![48u8, 120u8] + spec_hex_encode(h),
    ));
    InclusionProofString { leaf, siblings }
}

/// Whether every hash of a hex-text proof decodes.
pub open spec fn proof_hex_ok(p: InclusionProofString) -> bool {
    &&& hex_ok(spec_strip_0x(p.leaf@))
    &&& forall|k: int|
        0 <= k < p.siblings@.len() ==> hex_ok(spec_strip_0x(#[trigger] views(p.siblings@)[k]))
}

/// The sibling hashes a hex-text proof denotes.
pub open spec fn spec_decoded_siblings(p: InclusionProofString) -> Seq<Seq<u8>> {
    views(p.siblings@).map_values(|h: Seq<u8>| spec_hex_decode(spec_strip_0x(h)))
}

/// Strip a leading `0x`, if one is there.
fn strip_0x<'a>(s: &'a [u8]) -> (r: &'a [u8])
    ensures
        r@ == spec_strip_0x(s@),
{
    if s.len() >= 2 && s[0] == 48 && s[1] == 120 {
        let t = vstd::slice::slice_subrange(s, 2, s.len());
        proof {
            assert(t@ =~= spec_strip_0x(s@));
        }
        t
    } else {
        s
    }
}

/// Verify a hex-text inclusion proof against a hex-text root.
///
/// The root must be decodable hex of exactly 32 bytes (`MalformedHex` or
/// `InvalidRootLength` otherwise); then every proof hash must decode
/// (`MalformedHex` otherwise); the verdict itself is the plain boolean of
/// the replayed fold, never an error.
pub fn verify_inclusion_hex(root_hex: &[u8], proof: &InclusionProofString, row_idx: usize) -> (r:
    Result<bool, VcsvError>)
    ensures
        r matches Ok(b) <==> (hex_ok(spec_strip_0x(root_hex@)) && spec_strip_0x(root_hex@).len()
            == 64 && proof_hex_ok(*proof)),
        r matches Ok(b) ==> b == (spec_fold(
            spec_hex_decode(spec_strip_0x(proof.leaf@)),
            spec_decoded_siblings(*proof),
            row_idx as int,
        ) == spec_hex_decode(spec_strip_0x(root_hex@))),
        r == Err::<bool, VcsvError>(VcsvError::InvalidRootLength) <==> (hex_ok(
            spec_strip_0x(root_hex@),
        ) && spec_strip_0x(root_hex@).len() != 64),
        r == Err::<bool, VcsvError>(VcsvError::MalformedHex) <==> (!hex_ok(
            spec_strip_0x(root_hex@),
        ) || (hex_ok(spec_strip_0x(root_hex@)) && spec_strip_0x(root_hex@).len() == 64
            && !proof_hex_ok(*proof))),
{
    let root = match parse_root_hex(root_hex) {
        Result::Ok(v) => v,
        Result::Err(e) => {
            return Err(e);
        },
    };
    let leaf = match hex_decode(strip_0x(proof.leaf.as_slice())) {
        Result::Ok(v) => v,
        Result::Err(e) => {
            return Err(e);
        },
    };
    let mut decoded: Vec<Vec<u8>> = Vec::new();
    let mut k: usize = 0;
    let n: usize = proof.siblings.len();
    while k < n
        invariant
            k <= n,
            n == proof.siblings@.len(),
            decoded@.len() == k,
            hex_ok(spec_strip_0x(root_hex@)),
            spec_strip_0x(root_hex@).len() == 64,
            root@ == spec_hex_decode(spec_strip_0x(root_hex@)),
            hex_ok(spec_strip_0x(proof.leaf@)),
            leaf@ == spec_hex_decode(spec_strip_0x(proof.leaf@)),
            forall|m: int| 0 <= m < k ==> hex_ok(spec_strip_0x(#[trigger] views(proof.siblings@)[m])),
            forall|m: int|
                0 <= m < k ==> views(decoded@)[m] == spec_hex_decode(
                    spec_strip_0x(views(proof.siblings@)[m]),
                ),
        decreases n - k,
    {
        let d = match hex_decode(strip_0x(proof.siblings[k].as_slice())) {
            Result::Ok(v) => v,
            Result::Err(e) => {
                assert(!proof_hex_ok(*proof)) by {
                    assert(!hex_ok(spec_strip_0x(views(proof.siblings@)[k as int])));
                }
                return Err(e);
            },
        };
        proof {
            lemma_views_push(decoded@, d);
        }
        decoded.push(d);
        k = k + 1;
    }
    assert(views(decoded@) =~= spec_decoded_siblings(*proof));
    let computed = fold_to_root(leaf.as_slice(), &decoded, row_idx);
    Ok(bytes_eq(computed.as_slice(), root.as_slice()))
}

} // verus!
