//! Binary strings: fixed-width rendering of integers, the bit strings of
//! bytes, and reading binary digits back.

use vstd::prelude::*;
use vstd::arithmetic::power2::{pow2, lemma_pow2_unfold, lemma_pow2_pos, lemma2_to64};

verus! {

/// The character that writes one binary digit.
pub open spec fn digit_char(bit: bool) -> char {
    if bit { '1' } else { '0' }
}

/// The `width` lowest binary digits of `x`, most significant first.
pub open spec fn spec_bits(x: nat, width: nat) -> Seq<char>
    decreases width,
{
    if width == 0 {
        Seq::empty()
    } else {
        spec_bits(x / 2, (width - 1) as nat).push(digit_char(x % 2 == 1))
    }
}

/// The value of a string read as binary, most significant digit first;
/// every character but `'1'` counts as a zero digit.
pub open spec fn binary_value(s: Seq<char>) -> nat
    decreases s.len(),
{
    if s.len() == 0 {
        0
    } else {
        2 * binary_value(s.drop_last()) + (if s.last() == '1' { 1nat } else { 0nat })
    }
}

pub open spec fn is_binary_digit(c: char) -> bool {
    c == '0' || c == '1'
}

pub open spec fn all_binary(s: Seq<char>) -> bool {
    forall|i: int| 0 <= i < s.len() ==> is_binary_digit(#[trigger] s[i])
}

/// The eight digits of a byte, most significant first (as `{:08b}` writes it).
pub open spec fn byte_bits(b: u8) -> Seq<char> {
    spec_bits(b as nat, 8)
}

/// The digits of every byte, in order.
pub open spec fn bytes_bits(bytes: Seq<u8>) -> Seq<char>
    decreases bytes.len(),
{
    if bytes.len() == 0 {
        Seq::empty()
    } else {
        bytes_bits(bytes.drop_last()) + byte_bits(bytes.last())
    }
}

pub proof fn lemma_bits_shape(x: nat, width: nat)
    ensures
        spec_bits(x, width).len() == width,
        all_binary(spec_bits(x, width)),
    decreases width,
{
    if width > 0 {
        lemma_bits_shape(x / 2, (width - 1) as nat);
    }
}

/// Reading back the `width` digits of a number below `2^width` gives the number.
pub proof fn lemma_bits_value(x: nat, width: nat)
    requires
        x < pow2(width),
    ensures
        binary_value(spec_bits(x, width)) == x,
    decreases width,
{
    if width == 0 {
        lemma2_to64();
        assert(spec_bits(x, width) =~= Seq::empty());
    } else {
        lemma_pow2_unfold(width);
        let s = spec_bits(x, width);
        lemma_bits_value(x / 2, (width - 1) as nat);
        assert(s.drop_last() =~= spec_bits(x / 2, (width - 1) as nat));
    }
}

/// A string of `n` characters has a binary value below `2^n`.
pub proof fn lemma_value_bound(s: Seq<char>)
    ensures
        binary_value(s) < pow2(s.len()),
    decreases s.len(),
{
    if s.len() == 0 {
        lemma2_to64();
    } else {
        lemma_value_bound(s.drop_last());
        lemma_pow2_unfold(s.len());
    }
}

/// The value of a prefix never exceeds the value of the whole string.
pub proof fn lemma_value_prefix(s: Seq<char>, k: int)
    requires
        0 <= k <= s.len(),
    ensures
        binary_value(s.subrange(0, k)) <= binary_value(s),
    decreases s.len(),
{
    if k < s.len() {
        assert(s.drop_last() =~= s.subrange(0, s.len() - 1));
        lemma_value_prefix(s.drop_last(), k);
        assert(s.drop_last().subrange(0, k) =~= s.subrange(0, k));
    } else {
        assert(s.subrange(0, k) =~= s);
    }
}

pub proof fn lemma_bytes_bits_len(bytes: Seq<u8>)
    ensures
        bytes_bits(bytes).len() == 8 * bytes.len(),
        all_binary(bytes_bits(bytes)),
    decreases bytes.len(),
{
    if bytes.len() > 0 {
        lemma_bytes_bits_len(bytes.drop_last());
        lemma_bits_shape(bytes.last() as nat, 8);
        let a = bytes_bits(bytes.drop_last());
        let b = byte_bits(bytes.last());
        assert forall|i: int| 0 <= i < (a + b).len() implies is_binary_digit(#[trigger] (a + b)[i]) by {
            if i < a.len() {
                assert((a + b)[i] == a[i]);
            } else {
                assert((a + b)[i] == b[i - a.len()]);
            }
        }
    }
}

/// Digit `8 * i + j` of the bit string of `bytes` is digit `j` of byte `i`.
pub proof fn lemma_bytes_bits_index(bytes: Seq<u8>, i: int, j: int)
    requires
        0 <= i < bytes.len(),
        0 <= j < 8,
    ensures
        bytes_bits(bytes)[8 * i + j] == byte_bits(bytes[i])[j],
    decreases bytes.len(),
{
    let prefix = bytes.drop_last();
    lemma_bytes_bits_len(prefix);
    lemma_bits_shape(bytes.last() as nat, 8);
    if i < bytes.len() - 1 {
        lemma_bytes_bits_index(prefix, i, j);
        assert(8 * i + j < 8 * prefix.len()) by (nonlinear_arith)
            requires
                i < prefix.len(),
                j < 8,
        ;
    } else {
        assert(8 * i + j - 8 * prefix.len() == j) by (nonlinear_arith)
            requires
                i == prefix.len(),
        ;
    }
}

/// Writing back the value of a binary string, at its own width, gives the string.
pub proof fn lemma_value_bits(t: Seq<char>)
    requires
        all_binary(t),
    ensures
        spec_bits(binary_value(t), t.len()) == t,
    decreases t.len(),
{
    if t.len() > 0 {
        let prefix = t.drop_last();
        assert(all_binary(prefix)) by {
            assert forall|i: int| 0 <= i < prefix.len() implies is_binary_digit(#[trigger] prefix[i]) by {
                assert(prefix[i] == t[i]);
            }
        }
        lemma_value_bits(prefix);
        assert(is_binary_digit(t[t.len() - 1]));
        assert(spec_bits(binary_value(t), t.len()) =~= t);
    }
}

/// A string without any `'1'` has value zero.
pub proof fn lemma_value_zero(t: Seq<char>)
    requires
        forall|i: int| 0 <= i < t.len() ==> t[i] != '1',
    ensures
        binary_value(t) == 0,
    decreases t.len(),
{
    if t.len() > 0 {
        lemma_value_zero(t.drop_last());
    }
}

/// The value of a string is the value of its first `k` digits shifted
/// past the rest, plus the value of the rest.
pub proof fn lemma_value_split(t: Seq<char>, k: int)
    requires
        0 <= k <= t.len(),
    ensures
        binary_value(t) == binary_value(t.subrange(0, k)) * pow2((t.len() - k) as nat)
            + binary_value(t.subrange(k, t.len() as int)),
    decreases t.len(),
{
    if k == t.len() {
        lemma2_to64();
        assert(t.subrange(0, k) =~= t);
        assert(t.subrange(k, t.len() as int) =~= Seq::<char>::empty());
    } else {
        let prefix = t.drop_last();
        lemma_value_split(prefix, k);
        assert(prefix.subrange(0, k) =~= t.subrange(0, k));
        let rest = t.subrange(k, t.len() as int);
        assert(rest.drop_last() =~= prefix.subrange(k, prefix.len() as int));
        lemma_pow2_unfold((t.len() - k) as nat);
        let a = binary_value(t.subrange(0, k));
        let big = pow2((t.len() - k - 1) as nat);
        assert(2 * (a * big) == a * (2 * big)) by (nonlinear_arith);
    }
}

/// Of two strings of one length, the one with a `'1'` at a position where
/// the other has no `'1'` up to and including it has the larger value.
pub proof fn lemma_value_first_difference(t1: Seq<char>, t2: Seq<char>, p: int)
    requires
        t1.len() == t2.len(),
        0 <= p < t1.len(),
        t1[p] == '1',
        forall|k: int| 0 <= k <= p ==> t2[k] != '1',
    ensures
        binary_value(t2) < binary_value(t1),
{
    let n = t1.len();
    let big = pow2((n - (p + 1)) as nat);
    lemma_value_split(t1, p + 1);
    lemma_value_split(t2, p + 1);
    lemma_value_zero(t2.subrange(0, p + 1));
    lemma_value_bound(t2.subrange(p + 1, n as int));
    let head = t1.subrange(0, p + 1);
    assert(head.last() == '1');
    let a = binary_value(head);
    assert(a >= 1);
    lemma_pow2_pos((n - (p + 1)) as nat);
    assert(a * big >= big) by (nonlinear_arith)
        requires
            a >= 1,
            big > 0,
    ;
}

/// Writes the `width` lowest binary digits of `x`, most significant first,
/// padded with zeros on the left.
pub fn format_binary(x: u64, width: usize) -> (s: String)
    ensures
        s@ == spec_bits(x as nat, width as nat),
    decreases width,
{
    if width == 0 {
        String::new()
    } else {
        let mut s = format_binary(x / 2, width - 1);
        proof {
            reveal_strlit("1");
            reveal_strlit("0");
        }
        if x % 2 == 1 {
            s.append("1");
        } else {
            s.append("0");
        }
        s
    }
}

/// The eight binary digits of a byte.
pub fn byte_to_binary(b: u8) -> (s: String)
    ensures
        s@ == byte_bits(b),
{
    format_binary(b as u64, 8)
}

/// The bit strings of all bytes, joined in order: the string that
/// `get_bytes` hands out for the bytes it drew.
pub fn bytes_to_binary_string(bytes: &Vec<u8>) -> (s: String)
    ensures
        s@ == bytes_bits(bytes@),
        s@.len() == 8 * bytes.len(),
        all_binary(s@),
{
    let mut s = String::new();
    let n = bytes.len();
    for i in 0..n
        invariant
            n == bytes.len(),
            s@ == bytes_bits(bytes@.subrange(0, i as int)),
    {
        let part = byte_to_binary(bytes[i]);
        s.append(part.as_str());
        assert(bytes@.subrange(0, i + 1).drop_last() =~= bytes@.subrange(0, i as int));
    }
    assert(bytes@.subrange(0, n as int) =~= bytes@);
    proof {
        lemma_bytes_bits_len(bytes@);
    }
    s
}

/// The position of the first `'1'` in `s`, if there is one.
pub fn first_one_position(s: &str) -> (r: Option<usize>)
    ensures
        match r {
            Some(p) => p < s@.len() && s@[p as int] == '1' && forall|j: int|
                0 <= j < p ==> s@[j] != '1',
            None => forall|j: int| 0 <= j < s@.len() ==> s@[j] != '1',
        },
{
    let n = s.unicode_len();
    for i in 0..n
        invariant
            n == s@.len(),
            forall|j: int| 0 <= j < i ==> s@[j] != '1',
    {
        if s.get_char(i) == '1' {
            return Some(i);
        }
    }
    None
}

/// The digits that `from_str_radix(s, 2)` reads: one leading `'+'` is skipped.
pub open spec fn radix2_digits(s: Seq<char>) -> Seq<char> {
    if s.len() > 0 && s[0] == '+' {
        s.drop_first()
    } else {
        s
    }
}

/// `s` is an optional `'+'` followed by at least one binary digit and nothing else.
pub open spec fn radix2_valid(s: Seq<char>) -> bool {
    radix2_digits(s).len() > 0 && all_binary(radix2_digits(s))
}

pub open spec fn radix2_value(s: Seq<char>) -> nat {
    binary_value(radix2_digits(s))
}

/// What `u64::from_str_radix(s, 2)` gives: the number, or no number when a
/// digit is missing or wrong or the value does not fit in 64 bits.
pub open spec fn spec_parse_radix2_u64(s: Seq<char>) -> Option<u64> {
    if radix2_valid(s) && radix2_value(s) <= u64::MAX {
        Some(radix2_value(s) as u64)
    } else {
        None
    }
}

/// Reads the characters `from..to` of `s` as `u64::from_str_radix(.., 2)` does.
pub fn parse_radix2_u64(s: &str, from: usize, to: usize) -> (r: Option<u64>)
    requires
        from <= to <= s@.len(),
    ensures
        r == spec_parse_radix2_u64(s@.subrange(from as int, to as int)),
{
    let ghost t = s@.subrange(from as int, to as int);
    let mut start = from;
    if from < to && s.get_char(from) == '+' {
        start = from + 1;
    }
    let ghost d = s@.subrange(start as int, to as int);
    assert(radix2_digits(t) =~= d);
    if start == to {
        return None;
    }
    let mut v: u64 = 0;
    let mut i = start;
    assert(s@.subrange(start as int, start as int) =~= Seq::<char>::empty());
    while i < to
        invariant
            start <= i <= to,
            to <= s@.len(),
            d == s@.subrange(start as int, to as int),
            radix2_digits(s@.subrange(from as int, to as int)) == d,
            v == binary_value(s@.subrange(start as int, i as int)),
            forall|k: int| start <= k < i ==> is_binary_digit(#[trigger] s@[k]),
        decreases to - i,
    {
        let c = s.get_char(i);
        if c != '0' && c != '1' {
            assert(d[i - start] == c);
            assert(!all_binary(d));
            return None;
        }
        let digit: u64 = if c == '1' { 1 } else { 0 };
        let ghost next = s@.subrange(start as int, i + 1);
        assert(next.drop_last() =~= s@.subrange(start as int, i as int));
        assert(binary_value(next) == 2 * v + digit);
        if v > (u64::MAX - digit) / 2 {
            proof {
                assert(d.subrange(0, i + 1 - start) =~= next);
                lemma_value_prefix(d, i + 1 - start);
            }
            return None;
        }
        v = 2 * v + digit;
        i = i + 1;
    }
    assert(s@.subrange(start as int, to as int) =~= d);
    assert(all_binary(d));
    Some(v)
}

} // verus!
