use erlangrt::defs::{BitSize, SizeBytes};

#[test]
fn with_bits_and_accessors() {
    let bs = BitSize::with_bits(17);
    assert_eq!(bs.bits, 17);
    assert_eq!(bs.get_bytes_rounded_down(), 2);
    assert_eq!(bs.get_byte_size_rounded_up().bytes(), 3);
    assert_eq!(bs.get_last_byte_bits(), 1);
}

#[test]
fn with_bytes() {
    let bs = BitSize::with_bytes(3);
    assert_eq!(bs.bits, 24);
    assert_eq!(bs.get_bytes_rounded_down(), 3);
    assert_eq!(bs.get_last_byte_bits(), 0);
}

#[test]
fn with_unit() {
    // size=3, unit=8 → 24 bits
    let bs = BitSize::with_unit(3, 8);
    assert_eq!(bs.bits, 24);

    // size=5, unit=1 → 5 bits
    let bs2 = BitSize::with_unit(5, 1);
    assert_eq!(bs2.bits, 5);
}

#[test]
fn zero_is_empty() {
    assert!(BitSize::zero().is_empty());
    assert!(!BitSize::with_bits(1).is_empty());
}

#[test]
fn add_and_sub() {
    let a = BitSize::with_bits(10);
    let b = BitSize::with_bits(7);
    assert_eq!((a + b).bits, 17);
    assert_eq!((a - b).bits, 3);
}

#[test]
fn ordering() {
    let small = BitSize::with_bits(5);
    let big = BitSize::with_bits(100);
    assert!(small < big);
    assert!(big > small);
    assert_eq!(small, BitSize::with_bits(5));
}

// --- Edge cases ---

#[test]
fn single_bit_rounding() {
    let bs = BitSize::with_bits(1);
    assert_eq!(bs.get_bytes_rounded_down(), 0);
    assert_eq!(bs.get_byte_size_rounded_up().bytes(), 1);
    assert_eq!(bs.get_last_byte_bits(), 1);
}

#[test]
fn exact_byte_boundary_no_hanging() {
    for n in &[8, 16, 24, 64, 128] {
        let bs = BitSize::with_bits(*n);
        assert_eq!(bs.get_last_byte_bits(), 0, "bits={}", n);
        assert_eq!(bs.get_bytes_rounded_down(), n / 8);
        assert_eq!(bs.get_byte_size_rounded_up().bytes(), n / 8);
    }
}

#[test]
fn one_below_byte_boundary() {
    // 7 bits: 0 full bytes, 7 hanging bits
    let bs = BitSize::with_bits(7);
    assert_eq!(bs.get_bytes_rounded_down(), 0);
    assert_eq!(bs.get_byte_size_rounded_up().bytes(), 1);
    assert_eq!(bs.get_last_byte_bits(), 7);
}

#[test]
fn one_above_byte_boundary() {
    // 9 bits: 1 full byte, 1 hanging bit
    let bs = BitSize::with_bits(9);
    assert_eq!(bs.get_bytes_rounded_down(), 1);
    assert_eq!(bs.get_byte_size_rounded_up().bytes(), 2);
    assert_eq!(bs.get_last_byte_bits(), 1);
}

#[test]
fn with_unit_1() {
    // unit=1 means bits directly
    let bs = BitSize::with_unit(13, 1);
    assert_eq!(bs.bits, 13);
}

#[test]
fn with_unit_large() {
    // unit=128 (used in some OTP binary patterns)
    let bs = BitSize::with_unit(3, 128);
    assert_eq!(bs.bits, 384);
}

#[test]
fn with_bytesize() {
    let sb = SizeBytes::new(10);
    let bs = BitSize::with_bytesize(sb);
    assert_eq!(bs.bits, 80);
}

#[test]
fn words_rounded_up_edge() {
    // On 64-bit: 1 word = 8 bytes = 64 bits
    // 63 bits → 7 bytes rounded down → 1 word
    let bs63 = BitSize::with_bits(63);
    assert_eq!(bs63.get_words_rounded_up().words, 1);

    // 64 bits → 8 bytes → 1 word
    let bs64 = BitSize::with_bits(64);
    assert_eq!(bs64.get_words_rounded_up().words, 1);

    // 65 bits → 8 bytes rounded down → 1 word
    let bs65 = BitSize::with_bits(65);
    assert_eq!(bs65.get_words_rounded_up().words, 1);
}

#[test]
fn sub_to_zero() {
    let a = BitSize::with_bits(42);
    let b = BitSize::with_bits(42);
    let result = a - b;
    assert_eq!(result.bits, 0);
    assert!(result.is_empty());
}

#[test]
fn sizes_are_ordered_by_their_bits() {
    let zero = BitSize::zero();
    let five = BitSize::with_bits(5);
    assert!(zero <= five);
    assert!(five > zero);
    assert!(!(five < five));
    assert_eq!(five.partial_cmp(&five), Some(std::cmp::Ordering::Equal));
    assert_eq!(five.cmp(&BitSize::with_bits(6)), std::cmp::Ordering::Less);
    assert_eq!(five + zero, five);
    assert_eq!(five - five, zero);
}
