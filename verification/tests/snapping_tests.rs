use whitenoise_runtime::binary::{
    byte_to_binary, bytes_to_binary_string, first_one_position, format_binary, parse_radix2_u64,
};
use whitenoise_runtime::snapping::{
    binary_to_ieee754_parts, geometric_from_bytes, get_bytes, get_geom_prob_one_half,
    ieee754_parts_to_binary,
};

#[test]
fn format_binary_pads_with_zeros() {
    assert_eq!(format_binary(5, 8), "00000101");
    assert_eq!(format_binary(0, 3), "000");
    assert_eq!(format_binary(6, 0), "");
    assert_eq!(format_binary(1023, 11), "01111111111");
}

#[test]
fn byte_to_binary_writes_most_significant_first() {
    assert_eq!(byte_to_binary(255), "11111111");
    assert_eq!(byte_to_binary(128), "10000000");
    assert_eq!(byte_to_binary(1), "00000001");
    assert_eq!(byte_to_binary(0), "00000000");
}

#[test]
fn bytes_to_binary_string_joins_bytes_in_order() {
    assert_eq!(bytes_to_binary_string(&vec![1u8, 128u8]), "0000000110000000");
    assert_eq!(bytes_to_binary_string(&vec![]), "");
}

#[test]
fn first_one_position_finds_the_first_one() {
    assert_eq!(first_one_position("0010"), Some(2));
    assert_eq!(first_one_position("1111"), Some(0));
    assert_eq!(first_one_position("0000"), None);
    assert_eq!(first_one_position(""), None);
}

#[test]
fn parse_radix2_reads_like_from_str_radix() {
    let cases = ["101", "+11", "", "+", "12", "-1", "0000000000000000000000000000000000000000000000000000000000000000000001"];
    for case in cases.iter() {
        let expected = u64::from_str_radix(case, 2).ok();
        assert_eq!(parse_radix2_u64(case, 0, case.chars().count()), expected, "case {:?}", case);
    }
    let max = "1".repeat(64);
    assert_eq!(parse_radix2_u64(&max, 0, 64), Some(u64::MAX));
    let over = "1".repeat(65);
    assert_eq!(parse_radix2_u64(&over, 0, 65), None);
    assert_eq!(parse_radix2_u64("x101y", 1, 4), Some(5));
}

#[test]
fn get_bytes_gives_eight_binary_digits_per_byte() {
    let s = get_bytes(4).unwrap();
    assert_eq!(s.len(), 32);
    assert!(s.chars().all(|c| c == '0' || c == '1'));
    assert_eq!(get_bytes(0).unwrap(), "");
}

#[test]
fn geometric_is_one_more_than_first_set_bit() {
    let mut bytes = vec![0u8; 128];
    assert_eq!(geometric_from_bytes(&bytes), 1024);
    bytes[0] = 0x80;
    assert_eq!(geometric_from_bytes(&bytes), 1);
    bytes[0] = 0x01;
    assert_eq!(geometric_from_bytes(&bytes), 8);
    bytes[0] = 0;
    bytes[1] = 0x20;
    bytes[5] = 0xff;
    assert_eq!(geometric_from_bytes(&bytes), 11);
}

#[test]
fn geometric_is_capped_at_1024() {
    let mut bytes = vec![0u8; 128];
    bytes[127] = 0x01;
    assert_eq!(geometric_from_bytes(&bytes), 1024);
    bytes[127] = 0x02;
    assert_eq!(geometric_from_bytes(&bytes), 1023);
    assert_eq!(geometric_from_bytes(&vec![0u8; 3]), 1024);
}

#[test]
fn get_geom_prob_one_half_is_in_range() {
    for _ in 0..20 {
        let g = get_geom_prob_one_half().unwrap();
        assert!(1 <= g && g <= 1024);
    }
}

#[test]
fn ieee754_parts_of_one() {
    let s = ieee754_parts_to_binary(false, 1023, 0);
    assert_eq!(s, format!("0{}{}", "01111111111", "0".repeat(52)));
    assert_eq!(s, format!("{:064b}", 1.0f64.to_bits()));
}

#[test]
fn ieee754_parts_of_a_negative_number() {
    let bits = (-2.5f64).to_bits();
    let sign = bits >> 63 == 1;
    let exponent = ((bits >> 52) & 0x7ff) as u16;
    let mantissa = bits & ((1u64 << 52) - 1);
    let s = ieee754_parts_to_binary(sign, exponent, mantissa);
    assert_eq!(s, format!("{:064b}", bits));
    assert_eq!(binary_to_ieee754_parts(&s), Some((sign, exponent, mantissa)));
}

#[test]
fn binary_to_ieee754_parts_round_trip() {
    for &(sign, exponent, mantissa) in [(false, 0u16, 0u64), (true, 2047, (1u64 << 52) - 1), (false, 1, 12345)].iter() {
        let s = ieee754_parts_to_binary(sign, exponent, mantissa);
        assert_eq!(s.len(), 64);
        assert_eq!(binary_to_ieee754_parts(&s), Some((sign, exponent, mantissa)));
    }
}

#[test]
fn binary_to_ieee754_parts_rejects_malformed_strings() {
    assert_eq!(binary_to_ieee754_parts("0101"), None);
    assert_eq!(binary_to_ieee754_parts("x01111111111000"), None);
    assert_eq!(binary_to_ieee754_parts("001111111112000"), None);
    assert_eq!(binary_to_ieee754_parts("001111111111"), None);
    assert_eq!(binary_to_ieee754_parts("00111111111102"), None);
}

#[test]
fn binary_to_ieee754_parts_accepts_what_the_parsers_accept() {
    // any decimal digit but zero means a negative sign
    assert_eq!(binary_to_ieee754_parts("501111111111101"), Some((true, 1023, 5)));
    // a leading plus sign is read by from_str_radix
    assert_eq!(binary_to_ieee754_parts("0+0000000011+1"), Some((false, 3, 1)));
    // a long mantissa with leading zeros still fits
    let s = format!("0{}{}", "00000000001", "0".repeat(80) + "11");
    assert_eq!(binary_to_ieee754_parts(&s), Some((false, 1, 3)));
}

#[test]
fn get_bytes_draws_random_bits() {
    // 256 random bits are all zero with probability 2^-256
    let s = get_bytes(32).unwrap();
    assert!(s.contains('1'));
    assert_ne!(get_bytes(32).unwrap(), get_bytes(32).unwrap());
}

#[test]
fn geometric_never_grows_with_a_larger_number() {
    let mut small = vec![0u8; 128];
    small[3] = 0x10;
    let mut large = vec![0u8; 128];
    large[3] = 0x10;
    large[2] = 0x01;
    assert!(geometric_from_bytes(&small) >= geometric_from_bytes(&large));
    assert_eq!(geometric_from_bytes(&small), 28);
    assert_eq!(geometric_from_bytes(&large), 24);
}

#[test]
fn written_back_bit_string_is_the_same() {
    let s = format!("1{}{}", "10000000011", "01".repeat(26));
    let (sign, exponent, mantissa) = binary_to_ieee754_parts(&s).unwrap();
    assert_eq!(ieee754_parts_to_binary(sign, exponent, mantissa), s);
}
