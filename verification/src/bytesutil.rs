//! Small verified helpers over byte vectors and sequences that the reader,
//! the Merkle builder and the hex codec share.

use vstd::prelude::*;

verus! {

/// The sequence of byte-sequence views of a vector-of-vectors.
pub open spec fn views(v: Seq<Vec<u8>>) -> Seq<Seq<u8>> {
    v.map_values(|x: Vec<u8>| x@)
}

/// The sequence of row views (each row a sequence of field byte sequences).
pub open spec fn row_views(v: Seq<Vec<Vec<u8>>>) -> Seq<Seq<Seq<u8>>> {
    v.map_values(|r: Vec<Vec<u8>>| views(r@))
}

pub proof fn lemma_views_push(v: Seq<Vec<u8>>, x: Vec<u8>)
    ensures
        views(v.push(x)) == views(v).push(x@),
{
    assert(views(v.push(x)) =~= views(v).push(x@));
}

pub proof fn lemma_row_views_push(v: Seq<Vec<Vec<u8>>>, x: Vec<Vec<u8>>)
    ensures
        row_views(v.push(x)) == row_views(v).push(views(x@)),
{
    assert(row_views(v.push(x)) =~= row_views(v).push(views(x@)));
}

/// The index of the first occurrence of `x` in `s`, or `s.len()` if `s` does
/// not contain `x`.
pub open spec fn first_index<A>(s: Seq<A>, x: A) -> int
    decreases s.len(),
{
    if s.len() == 0 {
        0
    } else if s.first() == x {
        0
    } else {
        1 + first_index(s.drop_first(), x)
    }
}

/// `first_index` is pinned by any witness position `m` that is preceded only
/// by non-occurrences and is itself an occurrence or the end.
pub proof fn lemma_first_index_is<A>(s: Seq<A>, x: A, m: int)
    requires
        0 <= m <= s.len(),
        forall|k: int| 0 <= k < m ==> s[k] != x,
        m < s.len() ==> s[m] == x,
    ensures
        first_index(s, x) == m,
    decreases s.len(),
{
    if s.len() == 0 {
    } else if s.first() == x {
        assert(m == 0);
    } else {
        assert(s[0] != x);
        assert(m >= 1);
        lemma_first_index_is(s.drop_first(), x, m - 1);
    }
}

/// Copy the byte range `[a, b)` of a slice into a fresh vector.
pub fn copy_range(s: &[u8], a: usize, b: usize) -> (v: Vec<u8>)
    requires
        a <= b <= s@.len(),
    ensures
        v@ == s@.subrange(a as int, b as int),
{
    let mut v: Vec<u8> = Vec::new();
    let mut i: usize = a;
    while i < b
        invariant
            a <= i <= b <= s@.len(),
            v@ == s@.subrange(a as int, i as int),
        decreases b - i,
    {
        v.push(s[i]);
        assert(s@.subrange(a as int, i + 1 as int) =~= s@.subrange(a as int, i as int).push(
            s@[i as int],
        ));
        i = i + 1;
    }
    v
}

/// Byte-for-byte equality of two slices.
pub fn bytes_eq(a: &[u8], b: &[u8]) -> (r: bool)
    ensures
        r == (a@ == b@),
{
    if a.len() != b.len() {
        assert(a@ != b@) by {
            assert(a@.len() != b@.len());
        }
        return false;
    }
    let n: usize = a.len();
    let mut i: usize = 0;
    while i < n
        invariant
            i <= n,
            n == a@.len() == b@.len(),
            forall|k: int| 0 <= k < i ==> a@[k] == b@[k],
        decreases n - i,
    {
        if a[i] != b[i] {
            return false;
        }
        i = i + 1;
    }
    assert(a@ =~= b@);
    true
}

/// Concatenate two byte vectors into a fresh one.
pub fn concat_bytes(a: &[u8], b: &[u8]) -> (v: Vec<u8>)
    ensures
        v@ == a@ + b@,
{
    let mut v: Vec<u8> = Vec::new();
    let mut i: usize = 0;
    while i < a.len()
        invariant
            i <= a@.len(),
            v@ == a@.subrange(0, i as int),
        decreases a@.len() - i,
    {
        v.push(a[i]);
        assert(a@.subrange(0, i + 1 as int) =~= a@.subrange(0, i as int).push(a@[i as int]));
        i = i + 1;
    }
    assert(v@ =~= a@);
    let mut j: usize = 0;
    while j < b.len()
        invariant
            j <= b@.len(),
            v@ == a@ + b@.subrange(0, j as int),
        decreases b@.len() - j,
    {
        v.push(b[j]);
        assert(a@ + b@.subrange(0, j + 1 as int) =~= (a@ + b@.subrange(0, j as int)).push(
            b@[j as int],
        ));
        j = j + 1;
    }
    assert(a@ + b@.subrange(0, b@.len() as int) =~= a@ + b@);
    v
}

} // verus!
