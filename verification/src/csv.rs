//! Canonical CSV interpretation: raw bytes become a header list, a resolved
//! column index, and an ordered sequence of rows of trimmed fields. This
//! stage is purely structural; no numeric validation happens here.

use vstd::prelude::*;

use crate::bytesutil::{
    bytes_eq, copy_range, first_index, lemma_first_index_is, lemma_views_push,
    lemma_row_views_push, row_views, views,
};
use crate::VcsvError;

verus! {

pub const COMMA: u8 = 44;

pub const NEWLINE: u8 = 10;

/// ASCII whitespace: space, horizontal tab, line feed, form feed, carriage
/// return (the bytes `u8::is_ascii_whitespace` accepts).
pub open spec fn is_ascii_ws(b: u8) -> bool {
    b == 32 || b == 9 || b == 10 || b == 12 || b == 13
}

fn is_ws(b: u8) -> (r: bool)
    ensures
        r == is_ascii_ws(b),
{
    b == 32 || b == 9 || b == 10 || b == 12 || b == 13
}

pub open spec fn trim_start_spec(s: Seq<u8>) -> Seq<u8>
    decreases s.len(),
{
    if s.len() > 0 && is_ascii_ws(s.first()) {
        trim_start_spec(s.drop_first())
    } else {
        s
    }
}

pub open spec fn trim_end_spec(s: Seq<u8>) -> Seq<u8>
    decreases s.len(),
{
    if s.len() > 0 && is_ascii_ws(s.last()) {
        trim_end_spec(s.drop_last())
    } else {
        s
    }
}

/// The field with ASCII whitespace removed from both ends; every inner byte
/// is untouched.
pub open spec fn spec_trim(s: Seq<u8>) -> Seq<u8> {
    trim_end_spec(trim_start_spec(s))
}

/// Trim ASCII whitespace from both ends of a byte slice. The result is a
/// view into the original bytes; nothing is allocated.
pub fn trim_ascii<'a>(s: &'a [u8]) -> (r: &'a [u8])
    ensures
        r@ == spec_trim(s@),
{
    let n: usize = s.len();
    assert(s@.subrange(0, n as int) =~= s@);
    let mut i: usize = 0;
    while i < n && is_ws(s[i])
        invariant
            i <= n,
            n == s@.len(),
            trim_start_spec(s@) == trim_start_spec(s@.subrange(i as int, n as int)),
        decreases n - i,
    {
        assert(s@.subrange(i as int, n as int).drop_first() =~= s@.subrange(i + 1, n as int));
        i = i + 1;
    }
    assert(trim_start_spec(s@) == s@.subrange(i as int, n as int));
    let mut j: usize = n;
    while j > i && is_ws(s[j - 1])
        invariant
            i <= j <= n,
            n == s@.len(),
            trim_start_spec(s@) == s@.subrange(i as int, n as int),
            trim_end_spec(s@.subrange(i as int, n as int)) == trim_end_spec(
                s@.subrange(i as int, j as int),
            ),
        decreases j,
    {
        assert(s@.subrange(i as int, j as int).drop_last() =~= s@.subrange(i as int, j - 1));
        j = j - 1;
    }
    assert(spec_trim(s@) == s@.subrange(i as int, j as int));
    vstd::slice::slice_subrange(s, i, j)
}

/// Split a byte sequence at every occurrence of `sep`. A sequence without
/// the separator is one piece; `n` separators give `n + 1` pieces.
pub open spec fn spec_split(s: Seq<u8>, sep: u8) -> Seq<Seq<u8>>
    decreases s.len(),
{
    let k = first_index(s, sep);
    if !(0 <= k < s.len()) {
        seq![s]
    } else {
        seq![s.subrange(0, k)] + spec_split(s.subrange(k + 1, s.len() as int), sep)
    }
}

/// Split a byte slice at every occurrence of `sep` into owned pieces.
pub fn split_bytes(s: &[u8], sep: u8) -> (r: Vec<Vec<u8>>)
    ensures
        views(r@) == spec_split(s@, sep),
{
    let n: usize = s.len();
    let mut r: Vec<Vec<u8>> = Vec::new();
    assert(s@.subrange(0, n as int) =~= s@);
    assert(views(r@) + spec_split(s@, sep) =~= spec_split(s@, sep));
    let mut start: usize = 0;
    let mut j: usize = 0;
    while j < n
        invariant
            start <= j <= n,
            n == s@.len(),
            spec_split(s@, sep) == views(r@) + spec_split(s@.subrange(start as int, n as int), sep),
            forall|k: int| start <= k < j ==> s@[k] != sep,
        decreases n - j,
    {
        if s[j] == sep {
            let piece = copy_range(s, start, j);
            proof {
                let t = s@.subrange(start as int, n as int);
                assert forall|k: int| 0 <= k < j - start implies t[k] != sep by {
                    assert(t[k] == s@[start + k]);
                }
                assert(t[j - start] == sep);
                lemma_first_index_is(t, sep, j - start);
                assert(t.subrange(0, j - start) =~= s@.subrange(start as int, j as int));
                assert(t.subrange(j - start + 1, t.len() as int) =~= s@.subrange(
                    j + 1,
                    n as int,
                ));
                lemma_views_push(r@, piece);
                assert(views(r@.push(piece)) + spec_split(s@.subrange(j + 1, n as int), sep)
                    =~= views(r@) + (seq![piece@] + spec_split(s@.subrange(j + 1, n as int), sep)));
            }
            r.push(piece);
            start = j + 1;
        }
        j = j + 1;
    }
    let tail = copy_range(s, start, n);
    proof {
        let t = s@.subrange(start as int, n as int);
        assert forall|k: int| 0 <= k < t.len() implies t[k] != sep by {
            assert(t[k] == s@[start + k]);
        }
        lemma_first_index_is(t, sep, t.len() as int);
        lemma_views_push(r@, tail);
        assert(views(r@) + seq![tail@] =~= views(r@.push(tail)));
    }
    r.push(tail);
    r
}

/// One line split at commas, every field trimmed.
pub open spec fn spec_row_of_line(l: Seq<u8>) -> Seq<Seq<u8>> {
    spec_split(l, COMMA).map_values(|f: Seq<u8>| spec_trim(f))
}

/// Split a line at commas and trim each field.
pub fn split_trim(s: &[u8]) -> (r: Vec<Vec<u8>>)
    ensures
        views(r@) == spec_row_of_line(s@),
{
    let parts = split_bytes(s, COMMA);
    let mut r: Vec<Vec<u8>> = Vec::new();
    let mut k: usize = 0;
    while k < parts.len()
        invariant
            k <= parts@.len(),
            views(parts@) == spec_split(s@, COMMA),
            r@.len() == k,
            forall|m: int| 0 <= m < k ==> views(r@)[m] == spec_trim(views(parts@)[m]),
        decreases parts@.len() - k,
    {
        let trimmed = vstd::slice::slice_to_vec(trim_ascii(parts[k].as_slice()));
        proof {
            lemma_views_push(r@, trimmed);
        }
        r.push(trimmed);
        k = k + 1;
    }
    assert(views(r@) =~= spec_row_of_line(s@));
    r
}

/// The parsed CSV: the raw header line, the trimmed column names, the data
/// rows (each a vector of trimmed fields), and the resolved column index.
#[derive(Debug)]
pub struct Csv {
    pub lines: Vec<Vec<Vec<u8>>>,
    pub headers: Vec<u8>,
    pub cols: Vec<Vec<u8>>,
    pub idx: usize,
}

impl Csv {
    /// The rows as a mathematical sequence of sequences of field bytes.
    pub open spec fn rows(&self) -> Seq<Seq<Seq<u8>>> {
        row_views(self.lines@)
    }

    /// The trimmed column names as a mathematical sequence.
    pub open spec fn columns(&self) -> Seq<Seq<u8>> {
        views(self.cols@)
    }

    /// The resolved column index stays valid for the document's lifetime.
    pub open spec fn wf(&self) -> bool {
        self.idx < self.cols@.len()
    }
}

/// The document's text lines: the byte sequence split at every line feed.
pub open spec fn spec_lines(bytes: Seq<u8>) -> Seq<Seq<u8>> {
    spec_split(bytes, NEWLINE)
}

/// The trimmed column names of the header line.
pub open spec fn spec_header_cols(bytes: Seq<u8>) -> Seq<Seq<u8>> {
    spec_row_of_line(spec_lines(bytes).first())
}

/// The data rows drawn from a sequence of text lines: every non-empty line
/// becomes a row of trimmed fields; empty lines are skipped.
pub open spec fn spec_rows_of_lines(lines: Seq<Seq<u8>>) -> Seq<Seq<Seq<u8>>>
    decreases lines.len(),
{
    if lines.len() == 0 {
        Seq::empty()
    } else if lines.first().len() == 0 {
        spec_rows_of_lines(lines.drop_first())
    } else {
        seq![spec_row_of_line(lines.first())] + spec_rows_of_lines(lines.drop_first())
    }
}

proof fn lemma_rows_of_lines_push(lines: Seq<Seq<u8>>, l: Seq<u8>)
    ensures
        spec_rows_of_lines(lines.push(l)) == if l.len() == 0 {
            spec_rows_of_lines(lines)
        } else {
            spec_rows_of_lines(lines).push(spec_row_of_line(l))
        },
    decreases lines.len(),
{
    if lines.len() == 0 {
        assert(lines.push(l).drop_first() =~= lines);
        if l.len() != 0 {
            assert(seq![spec_row_of_line(l)] + spec_rows_of_lines(lines) =~= spec_rows_of_lines(
                lines,
            ).push(spec_row_of_line(l)));
        }
    } else {
        assert(lines.push(l).first() == lines.first());
        assert(lines.push(l).drop_first() =~= lines.drop_first().push(l));
        lemma_rows_of_lines_push(lines.drop_first(), l);
        if l.len() != 0 {
            assert(seq![spec_row_of_line(lines.first())] + spec_rows_of_lines(
                lines.drop_first(),
            ).push(spec_row_of_line(l)) =~= (seq![spec_row_of_line(lines.first())]
                + spec_rows_of_lines(lines.drop_first())).push(spec_row_of_line(l)));
        }
    }
}

/// The data rows of the document: every non-empty line after the header.
pub open spec fn spec_rows(bytes: Seq<u8>) -> Seq<Seq<Seq<u8>>> {
    spec_rows_of_lines(spec_lines(bytes).drop_first())
}

/// Turn raw CSV bytes into a document, resolving `col` to a column index.
///
/// - `InvalidEncoding` exactly when the bytes are not valid UTF-8;
/// - `EmptyInput` exactly when the bytes are empty (no header line at all);
/// - `ColumnNotFound` exactly when a requested name is absent from the
///   trimmed headers;
/// - otherwise the document holds the header line, the trimmed column names,
///   and one row of trimmed fields per non-empty data line, with `idx` the
///   first index of the requested name (0 when none was requested).
pub fn parse_csv(csv: &[u8], col: Option<&[u8]>) -> (r: Result<Csv, VcsvError>)
    ensures
        r matches Err(e) ==> (e == VcsvError::InvalidEncoding || e == VcsvError::EmptyInput
            || e == VcsvError::ColumnNotFound),
        r == Err::<Csv, VcsvError>(VcsvError::InvalidEncoding) <==> !vstd::utf8::valid_utf8(csv@),
        r == Err::<Csv, VcsvError>(VcsvError::EmptyInput) <==> (vstd::utf8::valid_utf8(csv@)
            && csv@.len() == 0),
        r == Err::<Csv, VcsvError>(VcsvError::ColumnNotFound) <==> (vstd::utf8::valid_utf8(csv@)
            && csv@.len() > 0 && (col matches Some(c) && !spec_header_cols(csv@).contains(c@))),
        r matches Ok(d) ==> {
            &&& vstd::utf8::valid_utf8(csv@)
            &&& csv@.len() > 0
            &&& d.headers@ == spec_lines(csv@).first()
            &&& d.columns() == spec_header_cols(csv@)
            &&& d.rows() == spec_rows(csv@)
            &&& d.wf()
            &&& match col {
                Option::None => d.idx == 0,
                Option::Some(c) => d.idx == first_index(spec_header_cols(csv@), c@),
            }
        },
{
    if !utf8_check(csv) {
        return Err(VcsvError::InvalidEncoding);
    }
    if csv.len() == 0 {
        return Err(VcsvError::EmptyInput);
    }
    let lines = split_bytes(csv, NEWLINE);
    assert(views(lines@).len() >= 1);
    assert(lines@.len() >= 1);
    let headers = vstd::slice::slice_to_vec(lines[0].as_slice());
    assert(headers@ == spec_lines(csv@).first());
    let cols = split_trim(headers.as_slice());
    let idx: usize = match col {
        Option::None => 0,
        Option::Some(c) => {
            let mut i: usize = 0;
            let mut found: bool = false;
            while i < cols.len() && !found
                invariant
                    i <= cols@.len(),
                    views(cols@) == spec_header_cols(csv@),
                    found ==> i < cols@.len() && views(cols@)[i as int] == c@,
                    forall|k: int| 0 <= k < i ==> views(cols@)[k] != c@,
                decreases cols@.len() - i + (if found { 0int } else { 1int }),
            {
                if bytes_eq(cols[i].as_slice(), c) {
                    found = true;
                } else {
                    i = i + 1;
                }
            }
            if !found {
                proof {
                    assert(forall|k: int|
                        0 <= k < spec_header_cols(csv@).len() ==> spec_header_cols(csv@)[k] != c@);
                }
                return Err(VcsvError::ColumnNotFound);
            }
            proof {
                lemma_first_index_is(spec_header_cols(csv@), c@, i as int);
                assert(spec_header_cols(csv@).contains(c@)) by {
                    assert(spec_header_cols(csv@)[i as int] == c@);
                }
            }
            i
        },
    };
    assert(idx < cols@.len()) by {
        assert(views(cols@).len() >= 1);
    }
    let mut rows: Vec<Vec<Vec<u8>>> = Vec::new();
    let mut li: usize = 1;
    while li < lines.len()
        invariant
            1 <= li <= lines@.len(),
            views(lines@) == spec_lines(csv@),
            row_views(rows@) == spec_rows_of_lines(
                views(lines@).subrange(1, li as int),
            ),
        decreases lines@.len() - li,
    {
        let line = &lines[li];
        proof {
            assert(views(lines@).subrange(1, li + 1) =~= views(lines@).subrange(
                1,
                li as int,
            ).push(lines@[li as int]@));
            lemma_rows_of_lines_push(views(lines@).subrange(1, li as int), lines@[li as int]@);
        }
        if line.len() > 0 {
            let row = split_trim(line.as_slice());
            proof {
                lemma_row_views_push(rows@, row);
            }
            rows.push(row);
        }
        li = li + 1;
    }
    proof {
        assert(views(lines@).subrange(1, views(lines@).len() as int) =~= views(
            lines@,
        ).drop_first());
    }
    Ok(Csv { lines: rows, headers, cols, idx })
}

/// Relies on `core::str::from_utf8`: it returns `Ok` exactly when the bytes
/// are valid UTF-8 (vstd's `valid_utf8` is that notion).
#[verifier::external_body]
fn utf8_check(bytes: &[u8]) -> (r: bool)
    ensures
        r == vstd::utf8::valid_utf8(bytes@),
{
    core::str::from_utf8(bytes).is_ok()
}

} // verus!
