//! The hex text form of hashes: lower-case, `0x`-prefixed, two digits per
//! byte. Inclusion-proof artifacts and verification inputs travel in it.

use vstd::prelude::*;

use crate::VcsvError;

verus! {

/// ASCII digit, or a hex letter of either case.
pub open spec fn is_hex_digit(b: u8) -> bool {
    (48 <= b <= 57) || (97 <= b <= 102) || (65 <= b <= 70)
}

/// The value of one hex digit.
pub open spec fn hex_val(b: u8) -> int
    recommends
        is_hex_digit(b),
{
    if 48 <= b <= 57 {
        b - 48
    } else if 97 <= b <= 102 {
        b - 87
    } else {
        b - 55
    }
}

/// The lower-case hex digit of a value below 16.
pub open spec fn hex_digit_lower(v: int) -> u8
    recommends
        0 <= v < 16,
{
    if v < 10 {
        (48 + v) as u8
    } else {
        (87 + v) as u8
    }
}

/// Lower-case hex text of a byte sequence: two digits per byte, high nibble
/// first, no prefix.
pub open spec fn spec_hex_encode(b: Seq<u8>) -> Seq<u8> {
    Seq::new(
        2 * b.len(),
        |i: int|
            if i % 2 == 0 {
                hex_digit_lower(b[i / 2] as int / 16)
            } else {
                hex_digit_lower(b[i / 2] as int % 16)
            },
    )
}

pub open spec fn all_hex(s: Seq<u8>) -> bool {
    forall|k: int| 0 <= k < s.len() ==> is_hex_digit(#[trigger] s[k])
}

/// Hex text that decodes: an even count of hex digits.
pub open spec fn hex_ok(s: Seq<u8>) -> bool {
    s.len() % 2 == 0 && all_hex(s)
}

/// The bytes denoted by hex text.
pub open spec fn spec_hex_decode(s: Seq<u8>) -> Seq<u8>
    recommends
        hex_ok(s),
{
    Seq::new(s.len() / 2, |k: int| (16 * hex_val(s[2 * k]) + hex_val(s[2 * k + 1])) as u8)
}

/// The text with a leading `0x` removed, if one is there.
pub open spec fn spec_strip_0x(s: Seq<u8>) -> Seq<u8> {
    if s.len() >= 2 && s[0] == 48 && s[1] == 120 {
        s.skip(2)
    } else {
        s
    }
}

/// Encoding always decodes back to the same bytes.
pub proof fn lemma_hex_round_trip(b: Seq<u8>)
    ensures
        hex_ok(spec_hex_encode(b)),
        spec_hex_decode(spec_hex_encode(b)) == b,
{
    let e = spec_hex_encode(b);
    assert forall|k: int| 0 <= k < e.len() implies is_hex_digit(#[trigger] e[k]) by {
        if k % 2 == 0 {
            assert(e[k] == hex_digit_lower(b[k / 2] as int / 16));
        } else {
            assert(e[k] == hex_digit_lower(b[k / 2] as int % 16));
        }
    }
    assert forall|k: int| 0 <= k < b.len() implies spec_hex_decode(e)[k] == b[k] by {
        assert(e[2 * k] == hex_digit_lower(b[k] as int / 16));
        assert(e[2 * k + 1] == hex_digit_lower(b[k] as int % 16));
        assert(hex_val(hex_digit_lower(b[k] as int / 16)) == b[k] as int / 16);
        assert(hex_val(hex_digit_lower(b[k] as int % 16)) == b[k] as int % 16);
        assert(16 * (b[k] as int / 16) + b[k] as int % 16 == b[k]);
    }
    assert(spec_hex_decode(e) =~= b);
}

/// Encode bytes as lower-case hex text without a prefix.
pub fn hex_encode(b: &[u8]) -> (r: Vec<u8>)
    ensures
        r@ == spec_hex_encode(b@),
{
    let mut out: Vec<u8> = Vec::new();
    let mut i: usize = 0;
    let n: usize = b.len();
    while i < n
        invariant
            i <= n,
            n == b@.len(),
            out@.len() == 2 * i,
            forall|k: int| 0 <= k < 2 * i ==> out@[k] == spec_hex_encode(b@)[k],
        decreases n - i,
    {
        let byte = b[i];
        let hi: u8 = byte / 16;
        let lo: u8 = byte % 16;
        let c1: u8 = if hi < 10 {
            48 + hi
        } else {
            87 + hi
        };
        let c2: u8 = if lo < 10 {
            48 + lo
        } else {
            87 + lo
        };
        proof {
            assert(spec_hex_encode(b@)[2 * i as int] == hex_digit_lower(b@[i as int] as int / 16));
            assert(spec_hex_encode(b@)[2 * i as int + 1] == hex_digit_lower(b@[i as int] as int % 16));
        }
        out.push(c1);
        out.push(c2);
        i = i + 1;
    }
    assert(out@ =~= spec_hex_encode(b@));
    out
}

/// Encode bytes as `0x`-prefixed lower-case hex text.
pub fn hex_encode_prefixed(b: &[u8]) -> (r: Vec<u8>)
    ensures
        r@ == seq![48u8, 120u8] + spec_hex_encode(b@),
{
    let mut out: Vec<u8> = Vec::new();
    out.push(48);
    out.push(120);
    let digits = hex_encode(b);
    let mut i: usize = 0;
    while i < digits.len()
        invariant
            i <= digits@.len(),
            digits@ == spec_hex_encode(b@),
            out@ == seq![48u8, 120u8] + digits@.subrange(0, i as int),
        decreases digits@.len() - i,
    {
        out.push(digits[i]);
        assert(seq![48u8, 120u8] + digits@.subrange(0, i + 1 as int) =~= (seq![48u8, 120u8]
            + digits@.subrange(0, i as int)).push(digits@[i as int]));
        i = i + 1;
    }
    assert(seq![48u8, 120u8] + digits@.subrange(0, digits@.len() as int) =~= seq![48u8, 120u8]
        + digits@);
    out
}

/// The value of one hex digit byte, if it is one.
fn hex_digit_val(b: u8) -> (r: Option<u8>)
    ensures
        r matches Some(v) ==> is_hex_digit(b) && v as int == hex_val(b),
        r is None <==> !is_hex_digit(b),
{
    if 48 <= b && b <= 57 {
        Some(b - 48)
    } else if 97 <= b && b <= 102 {
        Some(b - 87)
    } else if 65 <= b && b <= 70 {
        Some(b - 55)
    } else {
        None
    }
}

/// Decode hex text (no prefix) into bytes.
///
/// Fails with `MalformedHex` exactly when the text has an odd length or a
/// non-hex byte.
pub fn hex_decode(s: &[u8]) -> (r: Result<Vec<u8>, VcsvError>)
    ensures
        r matches Ok(v) <==> hex_ok(s@),
        r matches Ok(v) ==> v@ == spec_hex_decode(s@),
        r matches Err(e) ==> e == VcsvError::MalformedHex,
{
    let n: usize = s.len();
    if n % 2 != 0 {
        return Err(VcsvError::MalformedHex);
    }
    let mut out: Vec<u8> = Vec::new();
    let mut k: usize = 0;
    while 2 * k < n
        invariant
            2 * k <= n,
            n == s@.len(),
            n % 2 == 0,
            out@.len() == k,
            forall|m: int| 0 <= m < 2 * k ==> is_hex_digit(#[trigger] s@[m]),
            forall|m: int| 0 <= m < k ==> out@[m] == spec_hex_decode(s@)[m],
        decreases n - 2 * k,
    {
        let h = match hex_digit_val(s[2 * k]) {
            Option::Some(v) => v,
            Option::None => {
                return Err(VcsvError::MalformedHex);
            },
        };
        let l = match hex_digit_val(s[2 * k + 1]) {
            Option::Some(v) => v,
            Option::None => {
                return Err(VcsvError::MalformedHex);
            },
        };
        out.push(16 * h + l);
        k = k + 1;
    }
    proof {
        assert(2 * k as int == n as int);
        assert(all_hex(s@));
        assert(out@ =~= spec_hex_decode(s@));
    }
    Ok(out)
}

/// Parse a verifier-supplied root: an optionally `0x`-prefixed hex string
/// that must decode to exactly 32 bytes.
///
/// Fails with `MalformedHex` exactly when the stripped text is not decodable
/// hex, and with `InvalidRootLength` exactly when it decodes to any length
/// other than 32 bytes.
pub fn parse_root_hex(s: &[u8]) -> (r: Result<Vec<u8>, VcsvError>)
    ensures
        r matches Ok(v) <==> (hex_ok(spec_strip_0x(s@)) && spec_strip_0x(s@).len() == 64),
        r matches Ok(v) ==> v@ == spec_hex_decode(spec_strip_0x(s@)) && v@.len() == 32,
        r == Err::<Vec<u8>, VcsvError>(VcsvError::MalformedHex) <==> !hex_ok(spec_strip_0x(s@)),
        r == Err::<Vec<u8>, VcsvError>(VcsvError::InvalidRootLength) <==> (hex_ok(spec_strip_0x(s@))
            && spec_strip_0x(s@).len() != 64),
{
    let stripped: &[u8] = if s.len() >= 2 && s[0] == 48 && s[1] == 120 {
        let t = vstd::slice::slice_subrange(s, 2, s.len());
        proof {
            assert(t@ =~= spec_strip_0x(s@));
        }
        t
    } else {
        s
    };
    let decoded = match hex_decode(stripped) {
        Result::Ok(v) => v,
        Result::Err(e) => {
            return Err(e);
        },
    };
    if decoded.len() != 32 {
        return Err(VcsvError::InvalidRootLength);
    }
    Ok(decoded)
}

} // verus!
