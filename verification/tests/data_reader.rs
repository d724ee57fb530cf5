use erlangrt::defs::data_reader::{BitReader, ByteReader, TDataReader};
use erlangrt::defs::{BitSize, SizeBytes};

#[test]
fn bit_reader_aligned_reads_bytes_directly() {
    let data: &'static [u8] = &[0xDE, 0xAD, 0xBE, 0xEF];
    let reader = BitReader::new(data, BitSize::zero());
    assert_eq!(reader.read(0), 0xDE);
    assert_eq!(reader.read(1), 0xAD);
    assert_eq!(reader.read(2), 0xBE);
    assert_eq!(reader.read(3), 0xEF);
}

#[test]
fn bit_reader_offset_4bits_shifts_correctly() {
    // Data: [0xAB, 0xCD] → bits: 1010_1011 1100_1101
    // With 4-bit offset, reading byte 0 should give: 1011_1100 = 0xBC
    let data: &'static [u8] = &[0xAB, 0xCD];
    let reader = BitReader::new(data, BitSize::with_bits(4));
    let b = reader.read(0);
    assert_eq!(b, 0xBC, "Expected 0xBC, got 0x{:02X}", b);
}

#[test]
fn bit_reader_offset_1bit() {
    // Data: [0x80] → bits: 1000_0000
    // With 1-bit offset, reading byte 0 should give: 0000_0000 = 0x00
    let data: &'static [u8] = &[0x80, 0x00];
    let reader = BitReader::new(data, BitSize::with_bits(1));
    assert_eq!(reader.read(0), 0x00);
}

#[test]
fn bit_reader_add_offset() {
    let data: &'static [u8] = &[0xFF, 0x00];
    let reader = BitReader::new(data, BitSize::zero());
    let shifted = reader.add_bit_offset(BitSize::with_bits(8));
    assert_eq!(shifted.read(0), 0x00);
}

#[test]
fn bit_reader_get_bit_size() {
    let data: &'static [u8] = &[0, 0, 0]; // 3 bytes = 24 bits
    let reader = BitReader::new(data, BitSize::with_bits(5));
    // 24 - 5 = 19 bits remaining
    assert_eq!(reader.get_bit_size().bits, 19);
}

#[test]
fn bit_reader_out_of_bounds_returns_zero() {
    let data: &'static [u8] = &[0xFF];
    let reader = BitReader::new(data, BitSize::zero());
    // Reading beyond the data should return 0
    assert_eq!(reader.read(1), 0);
    assert_eq!(reader.read(100), 0);
}

#[test]
fn byte_reader_basic() {
    let data: Vec<u8> = vec![1, 2, 3, 4, 5];
    let reader = ByteReader::new(data.as_slice(), data.len());
    assert_eq!(reader.read(0), 1);
    assert_eq!(reader.read(4), 5);
    assert_eq!(reader.get_bit_size().bits, 40);
}

// --- Edge cases ---

#[test]
fn bit_reader_offset_7bits() {
    // Data: [0xFF, 0x00] → bits: 1111_1111 0000_0000
    // Offset 7 bits: skip 1111_111 → remaining starts at last bit of 0xFF
    // Reading byte 0: take bit7 of 0xFF (=1) then bits 0-6 of 0x00 (=0000000)
    // Result: 1000_0000 = 0x80
    let data: &'static [u8] = &[0xFF, 0x00];
    let reader = BitReader::new(data, BitSize::with_bits(7));
    assert_eq!(reader.read(0), 0x80);
}

#[test]
fn bit_reader_single_byte_data() {
    let data: &'static [u8] = &[0xAA]; // 1010_1010
    let reader = BitReader::new(data, BitSize::zero());
    assert_eq!(reader.read(0), 0xAA);
    // Out of bounds
    assert_eq!(reader.read(1), 0);
}

#[test]
fn bit_reader_empty_data() {
    let data: &'static [u8] = &[];
    let reader = BitReader::new(data, BitSize::zero());
    assert_eq!(reader.get_bit_size().bits, 0);
    assert_eq!(reader.read(0), 0);
}

#[test]
fn bit_reader_chained_offsets() {
    // Data: [0x12, 0x34, 0x56]
    // Apply offsets step by step
    let data: &'static [u8] = &[0x12, 0x34, 0x56];
    let r0 = BitReader::new(data, BitSize::zero());
    assert_eq!(r0.read(0), 0x12);

    let r8 = r0.add_bit_offset(BitSize::with_bits(8));
    assert_eq!(r8.read(0), 0x34);

    let r16 = r8.add_bit_offset(BitSize::with_bits(8));
    assert_eq!(r16.read(0), 0x56);

    // Double-jump from zero
    let r16b = r0.add_bit_offset(BitSize::with_bits(16));
    assert_eq!(r16b.read(0), 0x56);
}

#[test]
fn bit_reader_cross_byte_boundary_all_ones() {
    // Data: [0xFF, 0xFF] → all 1s
    // Any offset should still read 0xFF for the first virtual byte
    let data: &'static [u8] = &[0xFF, 0xFF];
    for offset in 0..8 {
        let reader = BitReader::new(data, BitSize::with_bits(offset));
        assert_eq!(reader.read(0), 0xFF, "offset={}", offset);
    }
}

#[test]
fn bit_reader_alternating_bits_various_offsets() {
    // Data: [0xAA, 0xAA] → 1010_1010 1010_1010
    // Offset 1: 010_1010_1 = 0x55
    // Offset 2: 10_1010_10 = 0xAA
    let data: &'static [u8] = &[0xAA, 0xAA];
    let r1 = BitReader::new(data, BitSize::with_bits(1));
    assert_eq!(r1.read(0), 0x55);
    let r2 = BitReader::new(data, BitSize::with_bits(2));
    assert_eq!(r2.read(0), 0xAA);
}

#[test]
fn bit_reader_last_byte_partial_shift() {
    // Data: [0x80] → 1000_0000
    // Offset 0, reading byte 0 → 0x80
    // Offset 1 → 0000_000 + no next byte → 0x00
    let data: &'static [u8] = &[0x80];
    let r0 = BitReader::new(data, BitSize::zero());
    assert_eq!(r0.read(0), 0x80);
    let r1 = BitReader::new(data, BitSize::with_bits(1));
    assert_eq!(r1.read(0), 0x00);
}

#[test]
fn byte_reader_set_offset_and_size() {
    let data: Vec<u8> = vec![10, 20, 30, 40, 50];
    let reader = ByteReader::new(data.as_slice(), data.len());
    // Skip 2 bytes, take 2 bytes
    let sub = reader.set_offset_and_size(SizeBytes::new(2), SizeBytes::new(2));
    assert_eq!(sub.read(0), 30);
    assert_eq!(sub.read(1), 40);
    assert_eq!(sub.get_bit_size().bits, 16);
}

#[test]
fn byte_reader_zero_length() {
    let data: Vec<u8> = vec![];
    let reader = ByteReader::new(data.as_slice(), 0);
    assert_eq!(reader.get_bit_size().bits, 0);
}
