//! Percent encoding and decoding of path bytes, with a proof that decoding
//! inverts encoding.

use vstd::prelude::*;

verus! {

/// The numeric value of an ASCII hexadecimal digit, if the byte is one.
pub open spec fn spec_hex_val(b: u8) -> Option<u8> {
    if 0x30 <= b && b <= 0x39 {
        Some((b - 0x30) as u8)
    } else if 0x41 <= b && b <= 0x46 {
        Some((b - 0x41 + 10) as u8)
    } else if 0x61 <= b && b <= 0x66 {
        Some((b - 0x61 + 10) as u8)
    } else {
        None
    }
}

/// Decodes one ASCII hexadecimal digit.
pub fn hex_val(b: u8) -> (r: Option<u8>)
    ensures
        r == spec_hex_val(b),
{
    if 0x30 <= b && b <= 0x39 {
        Some(b - 0x30)
    } else if 0x41 <= b && b <= 0x46 {
        Some(b - 0x41 + 10)
    } else if 0x61 <= b && b <= 0x66 {
        Some(b - 0x61 + 10)
    } else {
        None
    }
}

/// The upper-case ASCII hexadecimal digit for a value below 16.
pub open spec fn spec_hex_digit(v: u8) -> u8 {
    if v < 10 {
        (0x30 + v) as u8
    } else {
        (0x41 + v - 10) as u8
    }
}

/// Encodes one value below 16 as an upper-case hexadecimal digit.
pub fn hex_digit(v: u8) -> (r: u8)
    requires
        v < 16,
    ensures
        r == spec_hex_digit(v),
{
    if v < 10 {
        0x30 + v
    } else {
        0x41 + v - 10
    }
}

/// Bytes that a path may carry unencoded: ASCII letters, digits, and
/// `-` `.` `_` `~` `/`.
pub open spec fn spec_is_path_safe(b: u8) -> bool {
    (0x30 <= b && b <= 0x39) || (0x41 <= b && b <= 0x5a) || (0x61 <= b && b <= 0x7a) || b == 0x2d
        || b == 0x2e || b == 0x5f || b == 0x7e || b == 0x2f
}

/// Tests whether a byte may stay unencoded in a path.
pub fn is_path_safe(b: u8) -> (r: bool)
    ensures
        r == spec_is_path_safe(b),
{
    (0x30 <= b && b <= 0x39) || (0x41 <= b && b <= 0x5a) || (0x61 <= b && b <= 0x7a) || b == 0x2d
        || b == 0x2e || b == 0x5f || b == 0x7e || b == 0x2f
}

/// Percent-decodes a byte sequence: each `%` followed by two hexadecimal
/// digits becomes the byte they denote; every other byte passes through.
pub open spec fn spec_percent_decode(s: Seq<u8>) -> Seq<u8>
    decreases s.len(),
{
    if s.len() == 0 {
        Seq::empty()
    } else if s[0] == 0x25 && s.len() >= 3 && spec_hex_val(s[1]) is Some && spec_hex_val(
        s[2],
    ) is Some {
        seq![
            (spec_hex_val(s[1])->Some_0 * 16 + spec_hex_val(s[2])->Some_0) as u8,
        ] + spec_percent_decode(s.skip(3))
    } else {
        seq![s[0]] + spec_percent_decode(s.skip(1))
    }
}

/// The percent-encoded form of one byte.
pub open spec fn spec_encode_byte(b: u8) -> Seq<u8> {
    if spec_is_path_safe(b) {
        seq![b]
    } else {
        seq![0x25u8, spec_hex_digit((b / 16) as u8), spec_hex_digit((b % 16) as u8)]
    }
}

/// Percent-encodes a byte sequence: path-safe bytes pass through, every
/// other byte becomes `%` and two hexadecimal digits.
pub open spec fn spec_percent_encode(s: Seq<u8>) -> Seq<u8>
    decreases s.len(),
{
    if s.len() == 0 {
        Seq::empty()
    } else {
        spec_encode_byte(s[0]) + spec_percent_encode(s.skip(1))
    }
}

/// Percent-decodes `s`.
pub fn percent_decode(s: &Vec<u8>) -> (r: Vec<u8>)
    ensures
        r@ == spec_percent_decode(s@),
{
    let mut out: Vec<u8> = Vec::new();
    let mut i: usize = 0;
    proof {
        assert(s@.skip(0) =~= s@);
        assert(out@ + spec_percent_decode(s@) =~= spec_percent_decode(s@));
    }
    while i < s.len()
        invariant
            i <= s@.len(),
            out@ + spec_percent_decode(s@.skip(i as int)) == spec_percent_decode(s@),
        decreases s@.len() - i,
    {
        let ghost pre = s@.skip(i as int);
        proof {
            assert(pre.len() == s@.len() - i);
            assert(pre[0] == s@[i as int]);
        }
        if s[i] == 0x25 && s.len() - i >= 3 {
            proof {
                assert(pre[1] == s@[i + 1]);
                assert(pre[2] == s@[i + 2]);
            }
            let h1 = hex_val(s[i + 1]);
            let h2 = hex_val(s[i + 2]);
            if h1.is_some() && h2.is_some() {
                out.push(h1.unwrap() * 16 + h2.unwrap());
                proof {
                    assert(pre.skip(3) =~= s@.skip(i + 3));
                    assert(out@ + spec_percent_decode(s@.skip(i + 3)) =~= spec_percent_decode(s@));
                }
                i = i + 3;
            } else {
                out.push(s[i]);
                proof {
                    assert(pre.skip(1) =~= s@.skip(i + 1));
                    assert(out@ + spec_percent_decode(s@.skip(i + 1)) =~= spec_percent_decode(s@));
                }
                i = i + 1;
            }
        } else {
            out.push(s[i]);
            proof {
                assert(pre.skip(1) =~= s@.skip(i + 1));
                assert(out@ + spec_percent_decode(s@.skip(i + 1)) =~= spec_percent_decode(s@));
            }
            i = i + 1;
        }
    }
    proof {
        assert(s@.skip(s@.len() as int) =~= Seq::<u8>::empty());
        assert(out@ =~= spec_percent_decode(s@));
    }
    out
}

/// Percent-encodes `s`.
pub fn percent_encode(s: &Vec<u8>) -> (r: Vec<u8>)
    ensures
        r@ == spec_percent_encode(s@),
{
    let mut out: Vec<u8> = Vec::new();
    let mut i: usize = 0;
    proof {
        assert(s@.skip(0) =~= s@);
        assert(out@ + spec_percent_encode(s@) =~= spec_percent_encode(s@));
    }
    while i < s.len()
        invariant
            i <= s@.len(),
            out@ + spec_percent_encode(s@.skip(i as int)) == spec_percent_encode(s@),
        decreases s@.len() - i,
    {
        let ghost pre = s@.skip(i as int);
        proof {
            assert(pre[0] == s@[i as int]);
        }
        let b = s[i];
        if is_path_safe(b) {
            out.push(b);
        } else {
            out.push(0x25);
            out.push(hex_digit(b / 16));
            out.push(hex_digit(b % 16));
        }
        proof {
            assert(pre.skip(1) =~= s@.skip(i + 1));
            assert(out@ + spec_percent_encode(s@.skip(i + 1)) =~= spec_percent_encode(s@));
        }
        i = i + 1;
    }
    proof {
        assert(s@.skip(s@.len() as int) =~= Seq::<u8>::empty());
        assert(out@ =~= spec_percent_encode(s@));
    }
    out
}

/// A hexadecimal digit decodes back to the value it encodes.
proof fn lemma_hex_digit_val(v: u8)
    requires
        v < 16,
    ensures
        spec_hex_val(spec_hex_digit(v)) == Some(v),
{
}

/// Percent-decoding inverts percent-encoding: every byte sequence survives
/// the round trip unchanged.
pub proof fn lemma_percent_round_trip(s: Seq<u8>)
    ensures
        spec_percent_decode(spec_percent_encode(s)) == s,
    decreases s.len(),
{
    if s.len() == 0 {
        assert(spec_percent_decode(spec_percent_encode(s)) =~= s);
    } else {
        let b = s[0];
        let rest = s.skip(1);
        lemma_percent_round_trip(rest);
        let enc = spec_percent_encode(s);
        if spec_is_path_safe(b) {
            assert(enc =~= seq![b] + spec_percent_encode(rest));
            assert(enc[0] == b && b != 0x25);
            assert(enc.skip(1) =~= spec_percent_encode(rest));
            assert(spec_percent_decode(enc) == seq![b] + spec_percent_decode(enc.skip(1)));
            assert(spec_percent_decode(enc) =~= s);
        } else {
            let hi = (b / 16) as u8;
            let lo = (b % 16) as u8;
            assert(b as int / 16 < 16 && b as int % 16 < 16 && (b as int / 16) * 16 + b as int
                % 16 == b as int) by (nonlinear_arith)
                requires
                    (b as int) < 256,
            ;
            assert(hi < 16 && lo < 16);
            lemma_hex_digit_val(hi);
            lemma_hex_digit_val(lo);
            assert(enc =~= seq![0x25u8, spec_hex_digit(hi), spec_hex_digit(lo)]
                + spec_percent_encode(rest));
            assert(enc.len() >= 3);
            assert(enc[0] == 0x25 && enc[1] == spec_hex_digit(hi) && enc[2] == spec_hex_digit(lo));
            assert(hi * 16 + lo == b);
            assert(enc.skip(3) =~= spec_percent_encode(rest));
            assert(spec_percent_decode(enc) == seq![b] + spec_percent_decode(enc.skip(3)));
            assert(spec_percent_decode(enc) =~= s);
        }
    }
}

} // verus!
