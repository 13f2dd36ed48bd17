//! The deterministic integer parser and the aggregator: strict 128-bit
//! integer grammar, overflow-checked summation, and a fixed-point mean with
//! round-half-away-from-zero at a fixed decimal scale.

use vstd::prelude::*;

use crate::csv::Csv;
use crate::VcsvError;

verus! {

/// The decimal scale of a mean: the committed value is `value / 10^3`.
pub const MEAN_SCALE: u16 = 3;

pub const MEAN_MULTIPLIER: i128 = 1000;

pub open spec fn is_digit(b: u8) -> bool {
    48 <= b <= 57
}

pub open spec fn all_digits(s: Seq<u8>) -> bool {
    forall|k: int| 0 <= k < s.len() ==> is_digit(#[trigger] s[k])
}

/// The strict integer grammar: an optional leading minus sign, then one or
/// more ASCII digits. No `+`, no whitespace, no separators, no exponent.
pub open spec fn is_int_literal(s: Seq<u8>) -> bool {
    if s.len() >= 1 && s[0] == 45 {
        s.len() >= 2 && all_digits(s.drop_first())
    } else {
        s.len() >= 1 && all_digits(s)
    }
}

/// The digit part of a literal (the bytes after an optional minus sign).
pub open spec fn spec_digits(s: Seq<u8>) -> Seq<u8> {
    if s.len() >= 1 && s[0] == 45 {
        s.drop_first()
    } else {
        s
    }
}

/// The base-10 value of a digit string.
pub open spec fn digits_value(s: Seq<u8>) -> int
    decreases s.len(),
{
    if s.len() == 0 {
        0
    } else {
        digits_value(s.drop_last()) * 10 + (s.last() - 48)
    }
}

/// The signed value denoted by an integer literal.
pub open spec fn spec_int_value(s: Seq<u8>) -> int {
    if s.len() >= 1 && s[0] == 45 {
        -digits_value(spec_digits(s))
    } else {
        digits_value(spec_digits(s))
    }
}

/// Whether the magnitude of a literal's value fits the accumulator. The
/// parser accumulates the magnitude before applying the sign, so the one
/// value whose magnitude is `i128::MAX + 1` is rejected as overflow even
/// though `-(i128::MAX + 1)` itself would fit.
pub open spec fn int_fits(s: Seq<u8>) -> bool {
    digits_value(spec_digits(s)) <= i128::MAX
}

pub proof fn lemma_digits_value_nonneg(s: Seq<u8>)
    requires
        all_digits(s),
    ensures
        digits_value(s) >= 0,
    decreases s.len(),
{
    if s.len() > 0 {
        assert(all_digits(s.drop_last())) by {
            assert(forall|k: int|
                0 <= k < s.len() - 1 ==> #[trigger] s.drop_last()[k] == s[k]);
        }
        lemma_digits_value_nonneg(s.drop_last());
    }
}

/// The value of a digit-string prefix never exceeds the value of the whole.
pub proof fn lemma_digits_value_prefix(s: Seq<u8>, k: int)
    requires
        all_digits(s),
        0 <= k <= s.len(),
    ensures
        digits_value(s.take(k)) <= digits_value(s),
    decreases s.len(),
{
    if k == s.len() {
        assert(s.take(k) =~= s);
    } else {
        assert(all_digits(s.drop_last())) by {
            assert(forall|m: int|
                0 <= m < s.len() - 1 ==> #[trigger] s.drop_last()[m] == s[m]);
        }
        assert(s.take(k) =~= s.drop_last().take(k));
        lemma_digits_value_prefix(s.drop_last(), k);
        lemma_digits_value_nonneg(s.drop_last());
    }
}

/// Parse a trimmed field as a signed 128-bit integer under the strict
/// grammar, detecting overflow at every multiply-and-add step.
pub fn parse_i128(s: &[u8]) -> (r: Result<i128, VcsvError>)
    ensures
        r == Err::<i128, VcsvError>(VcsvError::MalformedInteger) <==> !is_int_literal(s@),
        r == Err::<i128, VcsvError>(VcsvError::IntegerOverflow) <==> (is_int_literal(s@)
            && !int_fits(s@)),
        r matches Ok(v) ==> is_int_literal(s@) && int_fits(s@) && v == spec_int_value(s@),
        r matches Err(e) ==> (e == VcsvError::MalformedInteger || e == VcsvError::IntegerOverflow),
{
    let n: usize = s.len();
    let neg: bool = n > 0 && s[0] == 45;
    let start: usize = if neg { 1 } else { 0 };
    let ghost digits = spec_digits(s@);
    proof {
        assert(digits =~= s@.subrange(start as int, n as int));
    }
    if start >= n {
        // empty input, or a lone minus sign
        return Err(VcsvError::MalformedInteger);
    }
    // First pass: the grammar. Every byte after the optional sign must be a
    // digit.
    let mut i: usize = start;
    while i < n
        invariant
            start <= i <= n,
            n == s@.len(),
            digits == s@.subrange(start as int, n as int),
            neg == (s@.len() > 0 && s@[0] == 45),
            start == (if neg { 1int } else { 0int }),
            start < n,
            forall|k: int| start <= k < i ==> is_digit(#[trigger] s@[k]),
        decreases n - i,
    {
        let d = s[i];
        if d < 48 || d > 57 {
            assert(!all_digits(digits)) by {
                assert(digits[i - start] == s@[i as int]);
            }
            assert(!is_int_literal(s@)) by {
                if s@.len() >= 1 && s@[0] == 45 {
                    assert(s@.drop_first() =~= digits);
                } else {
                    assert(s@ =~= digits);
                }
            }
            return Err(VcsvError::MalformedInteger);
        }
        i = i + 1;
    }
    proof {
        assert(all_digits(digits)) by {
            assert(forall|k: int|
                0 <= k < digits.len() ==> digits[k] == #[trigger] s@[start + k]);
        }
        assert(is_int_literal(s@)) by {
            if s@.len() >= 1 && s@[0] == 45 {
                assert(s@.drop_first() =~= digits);
            } else {
                assert(s@ =~= digits);
            }
        }
    }
    // Second pass: accumulate, detecting overflow at every multiply-and-add
    // step. An overflowing step bounds the whole value from below.
    let mut acc: i128 = 0;
    let mut j: usize = start;
    while j < n
        invariant
            start <= j <= n,
            n == s@.len(),
            digits == spec_digits(s@),
            digits == s@.subrange(start as int, n as int),
            start < n,
            is_int_literal(s@),
            all_digits(digits),
            forall|k: int| start <= k < n ==> is_digit(#[trigger] s@[k]),
            0 <= acc,
            acc == digits_value(digits.take(j - start)),
        decreases n - j,
    {
        let d = s[j];
        let dv: i128 = (d - 48) as i128;
        proof {
            assert(digits.take(j - start + 1).drop_last() =~= digits.take(j - start));
            assert(digits.take(j - start + 1).last() == s@[j as int]);
        }
        let shifted = match acc.checked_mul(10) {
            Option::Some(t) => t,
            Option::None => {
                proof {
                    lemma_digits_value_prefix(digits, j - start + 1);
                }
                return Err(VcsvError::IntegerOverflow);
            },
        };
        let next = match shifted.checked_add(dv) {
            Option::Some(t) => t,
            Option::None => {
                proof {
                    lemma_digits_value_prefix(digits, j - start + 1);
                }
                return Err(VcsvError::IntegerOverflow);
            },
        };
        acc = next;
        j = j + 1;
    }
    proof {
        assert(digits.take(n - start) =~= digits);
    }
    if neg {
        Ok(-acc)
    } else {
        Ok(acc)
    }
}

/// The running sum over the selected column, folded row by row: the row
/// count and the overflow-checked total, or the first failure in row order.
pub open spec fn spec_sum_col(rows: Seq<Seq<Seq<u8>>>, idx: int) -> Result<(int, int), VcsvError>
    decreases rows.len(),
{
    if rows.len() == 0 {
        Ok((0, 0))
    } else {
        match spec_sum_col(rows.drop_last(), idx) {
            Result::Err(e) => Err(e),
            Result::Ok((n, s)) => {
                let row = rows.last();
                if !(0 <= idx < row.len()) {
                    Err(VcsvError::MissingField)
                } else if !is_int_literal(row[idx]) {
                    Err(VcsvError::MalformedInteger)
                } else if !int_fits(row[idx]) {
                    Err(VcsvError::IntegerOverflow)
                } else if !(i128::MIN <= s + spec_int_value(row[idx]) <= i128::MAX) {
                    Err(VcsvError::IntegerOverflow)
                } else {
                    Ok((n + 1, s + spec_int_value(row[idx])))
                }
            },
        }
    }
}

/// The fold fails only on a missing field, a malformed literal, or an
/// overflow.
pub proof fn lemma_sum_col_err_kinds(rows: Seq<Seq<Seq<u8>>>, idx: int)
    ensures
        spec_sum_col(rows, idx) matches Err(e) ==> (e == VcsvError::MissingField || e
            == VcsvError::MalformedInteger || e == VcsvError::IntegerOverflow),
    decreases rows.len(),
{
    if rows.len() > 0 {
        lemma_sum_col_err_kinds(rows.drop_last(), idx);
    }
}

/// The mean fails only as the sum does, or with an overflow of the scaled
/// numerator.
pub proof fn lemma_mean_col_err_kinds(rows: Seq<Seq<Seq<u8>>>, idx: int)
    ensures
        spec_mean_col(rows, idx) matches Err(e) ==> (e == VcsvError::MissingField || e
            == VcsvError::MalformedInteger || e == VcsvError::IntegerOverflow),
{
    lemma_sum_col_err_kinds(rows, idx);
}

/// An error of a prefix fold is the error of the whole fold.
proof fn lemma_sum_col_err_prefix(rows: Seq<Seq<Seq<u8>>>, idx: int, k: int, e: VcsvError)
    requires
        0 <= k <= rows.len(),
        spec_sum_col(rows.take(k), idx) == Err::<(int, int), VcsvError>(e),
    ensures
        spec_sum_col(rows, idx) == Err::<(int, int), VcsvError>(e),
    decreases rows.len(),
{
    if k == rows.len() {
        assert(rows.take(k) =~= rows);
    } else {
        assert(rows.drop_last().take(k) =~= rows.take(k));
        lemma_sum_col_err_prefix(rows.drop_last(), idx, k, e);
    }
}

/// Malformed-field law: a field in the selected column that breaks the
/// strict integer grammar fails the whole sum with `MalformedInteger` —
/// never a partial or garbage numeric result. The fold surfaces the first
/// failure in row order, so the law asks that the rows before the malformed
/// one fold cleanly; with an earlier failure the sum still fails, with that
/// row's error.
pub proof fn lemma_malformed_field_fails_sum(rows: Seq<Seq<Seq<u8>>>, idx: int, j: int)
    requires
        0 <= j < rows.len(),
        0 <= idx < rows[j].len(),
        !is_int_literal(rows[j][idx]),
        spec_sum_col(rows.take(j), idx) matches Ok(_),
    ensures
        spec_sum_col(rows, idx) == Err::<(int, int), VcsvError>(VcsvError::MalformedInteger),
{
    assert(rows.take(j + 1).drop_last() =~= rows.take(j));
    assert(rows.take(j + 1).last() == rows[j]);
    lemma_sum_col_err_prefix(rows, idx, j + 1, VcsvError::MalformedInteger);
}

/// Sum the selected column of every row with overflow checking.
///
/// Succeeds exactly when every row has the selected field, every field obeys
/// the strict integer grammar with an in-range magnitude, and every running
/// total stays within the signed 128-bit range; the result is then the row
/// count, the exact total, and decimal scale 0.
pub fn sum_col(csv: &Csv) -> (r: Result<(u64, i128, u16), VcsvError>)
    ensures
        ({
            let sp = spec_sum_col(csv.rows(), csv.idx as int);
            match r {
                Ok(t) => sp == Ok::<(int, int), VcsvError>((t.0 as int, t.1 as int)) && t.2 == 0
                    && t.0 == csv.rows().len(),
                Err(e) => sp == Err::<(int, int), VcsvError>(e),
            }
        }),
{
    let ghost rows = csv.rows();
    let ghost idx = csv.idx as int;
    let n: usize = csv.lines.len();
    let mut sum: i128 = 0;
    let mut i: usize = 0;
    while i < n
        invariant
            i <= n,
            n == csv.lines@.len(),
            rows == csv.rows(),
            idx == csv.idx as int,
            rows.len() == n,
            spec_sum_col(rows.take(i as int), idx) == Ok::<(int, int), VcsvError>((
                i as int,
                sum as int,
            )),
        decreases n - i,
    {
        let row = &csv.lines[i];
        proof {
            assert(rows.take(i + 1).drop_last() =~= rows.take(i as int));
            assert(rows.take(i + 1).last() == rows[i as int]);
            assert(rows[i as int] == crate::bytesutil::views(csv.lines@[i as int]@));
            assert(rows[i as int].len() == row@.len());
        }
        if csv.idx >= row.len() {
            proof {
                lemma_sum_col_err_prefix(rows, idx, i + 1, VcsvError::MissingField);
            }
            return Err(VcsvError::MissingField);
        }
        let field = &row[csv.idx];
        proof {
            assert(rows[i as int][idx] == row@[idx]@);
        }
        match parse_i128(field.as_slice()) {
            Result::Err(e) => {
                proof {
                    lemma_sum_col_err_prefix(rows, idx, i + 1, e);
                }
                return Err(e);
            },
            Result::Ok(v) => {
                match sum.checked_add(v) {
                    Option::None => {
                        proof {
                            lemma_sum_col_err_prefix(rows, idx, i + 1, VcsvError::IntegerOverflow);
                        }
                        return Err(VcsvError::IntegerOverflow);
                    },
                    Option::Some(s2) => {
                        sum = s2;
                    },
                }
            },
        }
        i = i + 1;
    }
    proof {
        assert(rows.take(n as int) =~= rows);
    }
    Ok((n as u64, sum, 0))
}

/// `p / q` rounded half away from zero, for `q > 0`.
pub open spec fn round_div_half_away(p: int, q: int) -> int {
    if p >= 0 {
        if 2 * (p % q) >= q {
            p / q + 1
        } else {
            p / q
        }
    } else {
        if 2 * ((-p) % q) >= q {
            -((-p) / q + 1)
        } else {
            -((-p) / q)
        }
    }
}

/// The mean over the selected column at decimal scale 3: the sum scaled by
/// 10^3 and divided by the row count, rounded half away from zero. Zero data
/// rows yield the distinguishable degenerate record `(0, 0, 0)`.
pub open spec fn spec_mean_col(rows: Seq<Seq<Seq<u8>>>, idx: int) -> Result<
    (int, int, int),
    VcsvError,
> {
    match spec_sum_col(rows, idx) {
        Result::Err(e) => Err(e),
        Result::Ok((n, s)) => {
            if n == 0 {
                Ok((0, 0, 0))
            } else if !(-i128::MAX <= s * 1000 <= i128::MAX) {
                Err(VcsvError::IntegerOverflow)
            } else {
                Ok((n, round_div_half_away(s * 1000, n), 3))
            }
        },
    }
}

/// The fixed-point mean of the selected column.
///
/// Succeeds exactly when the sum does and the scaled numerator `sum * 10^3`
/// has magnitude at most `i128::MAX`; with zero data rows it returns the
/// degenerate `(0, 0, 0)`, distinguishable by its zero row count.
pub fn mean_col(csv: &Csv) -> (r: Result<(u64, i128, u16), VcsvError>)
    ensures
        ({
            let sp = spec_mean_col(csv.rows(), csv.idx as int);
            match r {
                Ok(t) => sp == Ok::<(int, int, int), VcsvError>((
                    t.0 as int,
                    t.1 as int,
                    t.2 as int,
                )),
                Err(e) => sp == Err::<(int, int, int), VcsvError>(e),
            }
        }),
{
    let (n_rows, sum, _scale) = match sum_col(csv) {
        Result::Ok(t) => t,
        Result::Err(e) => {
            return Err(e);
        },
    };
    if n_rows == 0 {
        return Ok((0, 0, 0));
    }
    let scaled = match sum.checked_mul(MEAN_MULTIPLIER) {
        Option::Some(t) => t,
        Option::None => {
            return Err(VcsvError::IntegerOverflow);
        },
    };
    if scaled == i128::MIN {
        return Err(VcsvError::IntegerOverflow);
    }
    let negative: bool = scaled < 0;
    let mag_i: i128 = if negative {
        -scaled
    } else {
        scaled
    };
    let mag: u128 = mag_i as u128;
    let nn: u128 = n_rows as u128;
    let q: u128 = mag / nn;
    let rem: u128 = mag % nn;
    proof {
        assert(q <= mag) by (nonlinear_arith)
            requires
                nn >= 1,
                q == mag / nn,
                mag >= 0,
        ;
    }
    let rounded: u128 = if rem >= nn - rem {
        // 2 * rem >= nn: round the magnitude up, away from zero
        proof {
            assert(q + 1 <= mag) by (nonlinear_arith)
                requires
                    nn >= 1,
                    q == mag / nn,
                    rem == mag % nn,
                    2 * rem >= nn,
                    mag >= 0,
            ;
        }
        q + 1
    } else {
        q
    };
    let value: i128 = if negative {
        -(rounded as i128)
    } else {
        rounded as i128
    };
    proof {
        assert(2 * (mag as int % nn as int) >= nn as int <==> rem >= nn - rem);
        if negative {
            assert(spec_int_mean_matches(sum as int, n_rows as int, value as int));
        } else {
            assert(spec_int_mean_matches(sum as int, n_rows as int, value as int));
        }
    }
    Ok((n_rows, value, MEAN_SCALE))
}

/// The computed fixed-point value agrees with the rounding specification.
pub open spec fn spec_int_mean_matches(s: int, n: int, v: int) -> bool {
    v == round_div_half_away(s * 1000, n)
}

} // verus!
