//! Randomness for the snapping mechanism: random bit strings, a truncated
//! geometric sample with parameter one half, and the bit strings of
//! IEEE-754 double precision numbers.

use vstd::prelude::*;
use vstd::arithmetic::power2::{pow2, lemma2_to64, lemma2_to64_rest, lemma_pow2_strictly_increases};
use openssl::error::ErrorStack;
use crate::binary::{
    all_binary, binary_value, byte_to_binary, bytes_bits, bytes_to_binary_string, digit_char, first_one_position,
    format_binary, is_binary_digit, lemma_bits_shape, lemma_bits_value, lemma_bytes_bits_index,
    lemma_bytes_bits_len, lemma_value_bits, lemma_value_bound, lemma_value_first_difference, parse_radix2_u64, radix2_digits, radix2_valid,
    radix2_value, spec_bits, spec_parse_radix2_u64,
};

verus! {

#[verifier::external_type_specification]
#[verifier::external_body]
pub struct ExErrorStack(ErrorStack);

/// The system's cryptographic random number generator reported a failure.
#[derive(Debug, Clone, Copy, PartialEq, Eq, Structural)]
pub enum RandomnessError {
    GeneratorFailed,
}

/// Calls `openssl::rand::rand_bytes` on the whole buffer (OpenSSL's
/// `RAND_bytes`). OpenSSL asserts that the length fits a C `int`, hence the
/// precondition. The contract claims only that the buffer keeps its length:
/// which bytes OpenSSL writes is chance, and is not stated.
#[verifier::external_body]
fn openssl_rand_bytes(buf: &mut Vec<u8>) -> (r: Result<(), ErrorStack>)
    requires
        old(buf)@.len() <= i32::MAX,
    ensures
        final(buf)@.len() == old(buf)@.len(),
{
    openssl::rand::rand_bytes(buf.as_mut_slice())
}

/// Draws `n_bytes` bytes from OpenSSL's generator.
fn random_bytes(n_bytes: usize) -> (r: Result<Vec<u8>, RandomnessError>)
    requires
        n_bytes <= i32::MAX,
    ensures
        r matches Ok(b) ==> b@.len() == n_bytes,
{
    let mut buffer: Vec<u8> = vec![0u8; n_bytes];
    match openssl_rand_bytes(&mut buffer) {
        Ok(()) => Ok(buffer),
        Err(_) => Err(RandomnessError::GeneratorFailed),
    }
}

/// Draws `n_bytes` random bytes and writes each as its eight binary digits,
/// most significant first, all joined into one string.
pub fn get_bytes(n_bytes: usize) -> (r: Result<String, RandomnessError>)
    requires
        n_bytes <= i32::MAX,
    ensures
        r matches Ok(s) ==> {
            &&& s@.len() == 8 * n_bytes
            &&& all_binary(s@)
            &&& exists|b: Seq<u8>| b.len() == n_bytes && s@ == #[trigger] bytes_bits(b)
        },
{
    let buffer = match random_bytes(n_bytes) {
        Ok(b) => b,
        Err(e) => return Err(e),
    };
    let s = bytes_to_binary_string(&buffer);
    assert(buffer@.len() == n_bytes && s@ == bytes_bits(buffer@));
    Ok(s)
}

/// `g` is what the truncated geometric sampler gives for the bit string
/// `bits`: one more than the position of the first `'1'`, or 1024 where no
/// `'1'` stands in the first 1023 positions.
pub open spec fn is_geometric_sample(bits: Seq<char>, g: int) -> bool {
    &&& 1 <= g <= 1024
    &&& forall|k: int| 0 <= k < g - 1 && k < bits.len() ==> bits[k] != '1'
    &&& g < 1024 ==> g - 1 < bits.len() && bits[g - 1] == '1'
}

/// A bit string determines its geometric sample: no two values fit it.
pub proof fn lemma_geometric_sample_unique(bits: Seq<char>, g1: int, g2: int)
    requires
        is_geometric_sample(bits, g1),
        is_geometric_sample(bits, g2),
    ensures
        g1 == g2,
{
    if g1 < g2 {
        assert(bits[g1 - 1] == '1');
    } else if g2 < g1 {
        assert(bits[g2 - 1] == '1');
    }
}

/// More leading zero bits never give a smaller sample: where the bits of
/// `b1` spell a number no larger than the bits of `b2` do, the sample of
/// `b1` is no smaller than the sample of `b2`.
pub proof fn lemma_geometric_monotone(b1: Seq<u8>, b2: Seq<u8>, g1: int, g2: int)
    requires
        b1.len() == b2.len(),
        is_geometric_sample(bytes_bits(b1), g1),
        is_geometric_sample(bytes_bits(b2), g2),
        binary_value(bytes_bits(b1)) <= binary_value(bytes_bits(b2)),
    ensures
        g1 >= g2,
{
    lemma_bytes_bits_len(b1);
    lemma_bytes_bits_len(b2);
    if g1 < g2 {
        let t1 = bytes_bits(b1);
        let t2 = bytes_bits(b2);
        assert forall|k: int| 0 <= k <= g1 - 1 implies t2[k] != '1' by {}
        lemma_value_first_difference(t1, t2, g1 - 1);
    }
}

/// The truncated geometric sample (parameter one half) that the bytes
/// determine: their bits are read in order, most significant bit of each
/// byte first, and the result is one more than the index of the first `1`
/// bit; where all bits are 0, or the first `1` is bit 1023, it is 1024.
pub fn geometric_from_bytes(bytes: &Vec<u8>) -> (g: i16)
    requires
        bytes.len() <= 128,
    ensures
        is_geometric_sample(bytes_bits(bytes@), g as int),
{
    let ghost bits = bytes_bits(bytes@);
    proof {
        lemma_bytes_bits_len(bytes@);
    }
    let mut geom: i16 = 1024;
    let n = bytes.len();
    for i in 0..n
        invariant
            n == bytes.len(),
            n <= 128,
            bits == bytes_bits(bytes@),
            bits.len() == 8 * n,
            1 <= geom <= 1024,
            forall|k: int| 0 <= k < geom - 1 && k < 8 * i ==> bits[k] != '1',
            geom < 1024 ==> geom - 1 < 8 * i && bits[geom - 1] == '1',
    {
        // the bits of one byte, and the first `1` among them
        let binary_string = byte_to_binary(bytes[i]);
        let first_one_index = first_one_position(binary_string.as_str());
        proof {
            lemma_bits_shape(bytes@[i as int] as nat, 8);
            assert forall|j: int| 0 <= j < 8 implies bits[8 * i + j] == binary_string@[j] by {
                lemma_bytes_bits_index(bytes@, i as int, j);
            }
        }
        let first_one_overall_index: i16;
        match first_one_index {
            Some(p) => {
                first_one_overall_index = 8 * (i as i16) + (p as i16);
            },
            None => {
                first_one_overall_index = 1024;
            },
        }
        let candidate = first_one_overall_index + 1;
        if candidate < geom {
            geom = candidate;
        }
        proof {
            assert forall|k: int| 0 <= k < geom - 1 && k < 8 * (i + 1) implies bits[k] != '1' by {
                if k >= 8 * i {
                    assert(bits[8 * i + (k - 8 * i)] == binary_string@[k - 8 * i]);
                }
            }
        }
    }
    geom
}

/// Draws 128 random bytes, one at a time, and returns the truncated
/// geometric sample that their 1024 bits determine (see
/// `geometric_from_bytes`).
pub fn get_geom_prob_one_half() -> (r: Result<i16, RandomnessError>)
    ensures
        r matches Ok(g) ==> {
            &&& 1 <= g <= 1024
            &&& exists|b: Seq<u8>| b.len() == 128 && is_geometric_sample(#[trigger] bytes_bits(b), g as int)
        },
{
    let mut bytes: Vec<u8> = Vec::new();
    for i in 0..128usize
        invariant
            bytes@.len() == i,
    {
        let drawn = match random_bytes(1) {
            Ok(b) => b,
            Err(e) => return Err(e),
        };
        bytes.push(drawn[0]);
    }
    let g = geometric_from_bytes(&bytes);
    assert(bytes@.len() == 128 && is_geometric_sample(bytes_bits(bytes@), g as int));
    Ok(g)
}

/// The 64-character bit string of a double: the sign bit, then the 11
/// exponent bits, then the 52 mantissa bits, each most significant first.
pub open spec fn spec_ieee754_binary(sign: bool, exponent: nat, mantissa: nat) -> Seq<char> {
    seq![digit_char(sign)] + spec_bits(exponent, 11) + spec_bits(mantissa, 52)
}

/// The largest raw exponent of a double, plus one.
pub const EXPONENT_LIMIT: u16 = 2048;

/// The largest raw mantissa of a double, plus one.
pub const MANTISSA_LIMIT: u64 = 0x10_0000_0000_0000;

/// Writes the raw sign, exponent and mantissa of a double as its
/// 64-character IEEE-754 bit string.
pub fn ieee754_parts_to_binary(sign: bool, exponent: u16, mantissa: u64) -> (s: String)
    requires
        exponent < EXPONENT_LIMIT,
        mantissa < MANTISSA_LIMIT,
    ensures
        s@ == spec_ieee754_binary(sign, exponent as nat, mantissa as nat),
        s@.len() == 64,
        all_binary(s@),
{
    let mut binary_string = String::new();
    proof {
        reveal_strlit("1");
        reveal_strlit("0");
    }
    if sign {
        binary_string.append("1");
    } else {
        binary_string.append("0");
    }
    let exponent_string = format_binary(exponent as u64, 11);
    let mantissa_string = format_binary(mantissa, 52);
    binary_string.append(exponent_string.as_str());
    binary_string.append(mantissa_string.as_str());
    proof {
        lemma_bits_shape(exponent as nat, 11);
        lemma_bits_shape(mantissa as nat, 52);
        let s = binary_string@;
        assert(s =~= spec_ieee754_binary(sign, exponent as nat, mantissa as nat));
        assert forall|i: int| 0 <= i < s.len() implies is_binary_digit(#[trigger] s[i]) by {
            if i >= 12 {
                assert(s[i] == mantissa_string@[i - 12]);
            } else if i >= 1 {
                assert(s[i] == exponent_string@[i - 1]);
            }
        }
    }
    binary_string
}

pub open spec fn is_decimal_digit(c: char) -> bool {
    '0' <= c <= '9'
}

/// What reading a 64-character bit string back into sign, exponent and
/// mantissa gives: the sign character must be a decimal digit (any but `'0'`
/// means negative), characters 1 to 11 must read as a `u16` and the rest as
/// a `u64` under `from_str_radix(.., 2)`. No result where any of that fails.
pub open spec fn spec_binary_to_ieee754_parts(s: Seq<char>) -> Option<(bool, u16, u64)> {
    let exponent = s.subrange(1, 12);
    let mantissa = s.subrange(12, s.len() as int);
    if s.len() >= 12 && is_decimal_digit(s[0]) && radix2_valid(exponent) && radix2_value(exponent)
        <= u16::MAX && spec_parse_radix2_u64(mantissa) is Some {
        Some((s[0] != '0', radix2_value(exponent) as u16, spec_parse_radix2_u64(mantissa)->0))
    } else {
        None
    }
}

proof fn lemma_pow2_at_most_2048(k: nat)
    requires
        k <= 11,
    ensures
        pow2(k) <= 2048,
{
    lemma2_to64();
    if k < 11 {
        lemma_pow2_strictly_increases(k, 11);
    }
}

/// Reads an IEEE-754 bit string back into raw sign, exponent and mantissa;
/// `None` where the string does not have that form (see
/// `spec_binary_to_ieee754_parts`).
pub fn binary_to_ieee754_parts(binary_string: &str) -> (r: Option<(bool, u16, u64)>)
    ensures
        r == spec_binary_to_ieee754_parts(binary_string@),
{
    let n = binary_string.unicode_len();
    if n < 12 {
        return None;
    }
    // the sign: a decimal digit, negative unless it is zero
    let sign = binary_string.get_char(0);
    if !('0' <= sign && sign <= '9') {
        return None;
    }
    let sign_bool = sign != '0';
    // the exponent: characters 1 to 11
    let exponent = match parse_radix2_u64(binary_string, 1, 12) {
        Some(e) => e,
        None => return None,
    };
    proof {
        let digits = radix2_digits(binary_string@.subrange(1, 12));
        lemma_value_bound(digits);
        lemma_pow2_at_most_2048(digits.len());
    }
    // the mantissa: the rest
    let mantissa = match parse_radix2_u64(binary_string, 12, n) {
        Some(m) => m,
        None => return None,
    };
    Some((sign_bool, exponent as u16, mantissa))
}

/// Writing sign, exponent and mantissa as a bit string and reading it back
/// gives the same three parts.
pub proof fn lemma_ieee754_binary_roundtrip(sign: bool, exponent: u16, mantissa: u64)
    requires
        exponent < EXPONENT_LIMIT,
        mantissa < MANTISSA_LIMIT,
    ensures
        spec_binary_to_ieee754_parts(spec_ieee754_binary(sign, exponent as nat, mantissa as nat))
            == Some((sign, exponent, mantissa)),
{
    let e = spec_bits(exponent as nat, 11);
    let m = spec_bits(mantissa as nat, 52);
    let s = spec_ieee754_binary(sign, exponent as nat, mantissa as nat);
    lemma_bits_shape(exponent as nat, 11);
    lemma_bits_shape(mantissa as nat, 52);
    lemma2_to64();
    lemma2_to64_rest();
    lemma_bits_value(exponent as nat, 11);
    lemma_bits_value(mantissa as nat, 52);
    assert(s.subrange(1, 12) =~= e);
    assert(s.subrange(12, s.len() as int) =~= m);
    assert(is_binary_digit(e[0]));
    assert(radix2_digits(e) =~= e);
    assert(is_binary_digit(m[0]));
    assert(radix2_digits(m) =~= m);
}


/// Reading a 64-character bit string into sign, exponent and mantissa and
/// writing those back gives the string.
pub proof fn lemma_ieee754_binary_written_back(s: Seq<char>)
    requires
        s.len() == 64,
        all_binary(s),
    ensures
        spec_binary_to_ieee754_parts(s) matches Some((sign, exponent, mantissa)) && exponent
            < EXPONENT_LIMIT && mantissa < MANTISSA_LIMIT && spec_ieee754_binary(
            sign,
            exponent as nat,
            mantissa as nat,
        ) == s,
{
    let e = s.subrange(1, 12);
    let m = s.subrange(12, 64);
    assert(is_binary_digit(s[0]));
    assert(all_binary(e)) by {
        assert forall|i: int| 0 <= i < e.len() implies is_binary_digit(#[trigger] e[i]) by {
            assert(e[i] == s[i + 1]);
        }
    }
    assert(all_binary(m)) by {
        assert forall|i: int| 0 <= i < m.len() implies is_binary_digit(#[trigger] m[i]) by {
            assert(m[i] == s[i + 12]);
        }
    }
    assert(is_binary_digit(e[0]));
    assert(is_binary_digit(m[0]));
    assert(radix2_digits(e) =~= e);
    assert(radix2_digits(m) =~= m);
    lemma_value_bound(e);
    lemma_value_bound(m);
    lemma2_to64();
    lemma2_to64_rest();
    lemma_value_bits(e);
    lemma_value_bits(m);
    assert(s.subrange(12, s.len() as int) =~= m);
    let sign = s[0] != '0';
    assert(digit_char(sign) == s[0]);
    assert(spec_ieee754_binary(sign, binary_value(e), binary_value(m)) =~= s);
}

} // verus!
