use erlangrt::beam::opcodes::binary::bs_match::OpcodeBsMatch;
use erlangrt::term::Term;

#[test]
fn expected_u64_positive_small() {
    let val = Term::make_small_signed(42);
    assert_eq!(OpcodeBsMatch::test_expected_u64(val.copy(), 8), Some(42));
    assert_eq!(OpcodeBsMatch::test_expected_u64(val.copy(), 6), Some(42));
    // 42 doesn't fit in 5 bits (max 31)
    assert_eq!(OpcodeBsMatch::test_expected_u64(val.copy(), 5), None);
}

#[test]
fn expected_u64_zero() {
    let val = Term::make_small_signed(0);
    assert_eq!(OpcodeBsMatch::test_expected_u64(val.copy(), 1), Some(0));
    assert_eq!(OpcodeBsMatch::test_expected_u64(val.copy(), 8), Some(0));
    assert_eq!(OpcodeBsMatch::test_expected_u64(val.copy(), 64), Some(0));
}

#[test]
fn expected_u64_max_unsigned_8bit() {
    let val = Term::make_small_signed(255);
    assert_eq!(OpcodeBsMatch::test_expected_u64(val.copy(), 8), Some(255));
    assert_eq!(OpcodeBsMatch::test_expected_u64(val.copy(), 7), None); // 255 > 127
}

#[test]
fn expected_u64_negative_8bit() {
    // -1 in 8-bit two's complement = 0xFF = 255
    let val = Term::make_small_signed(-1);
    assert_eq!(OpcodeBsMatch::test_expected_u64(val.copy(), 8), Some(255));
}

#[test]
fn expected_u64_negative_16bit() {
    // -1 in 16-bit = 0xFFFF = 65535
    let val = Term::make_small_signed(-1);
    assert_eq!(OpcodeBsMatch::test_expected_u64(val.copy(), 16), Some(65535));
}

#[test]
fn expected_u64_too_many_bits() {
    let val = Term::make_small_signed(1);
    // bits > 64 should return None
    assert_eq!(OpcodeBsMatch::test_expected_u64(val.copy(), 65), None);
    assert_eq!(OpcodeBsMatch::test_expected_u64(val.copy(), 128), None);
}

#[test]
fn expected_u64_full_64bit() {
    let val = Term::make_small_signed(-1);
    // -1 in 64-bit = u64::MAX
    assert_eq!(
        OpcodeBsMatch::test_expected_u64(val.copy(), 64),
        Some(u64::MAX)
    );
}

// --- Edge cases ---

#[test]
fn expected_u64_one_bit() {
    // 0 fits in 1 bit, 1 fits in 1 bit, 2 does not
    assert_eq!(OpcodeBsMatch::test_expected_u64(Term::make_small_signed(0), 1), Some(0));
    assert_eq!(OpcodeBsMatch::test_expected_u64(Term::make_small_signed(1), 1), Some(1));
    assert_eq!(OpcodeBsMatch::test_expected_u64(Term::make_small_signed(2), 1), None);
}

#[test]
fn expected_u64_zero_bits() {
    // 0 bits: only 0 fits (bits < 64, n >= 1<<0 = 1 for anything > 0)
    assert_eq!(OpcodeBsMatch::test_expected_u64(Term::make_small_signed(0), 0), Some(0));
    assert_eq!(OpcodeBsMatch::test_expected_u64(Term::make_small_signed(1), 0), None);
}

#[test]
fn expected_u64_exact_boundary_values() {
    // 127 fits in 7 bits (max = 127), 128 does not
    assert_eq!(OpcodeBsMatch::test_expected_u64(Term::make_small_signed(127), 7), Some(127));
    assert_eq!(OpcodeBsMatch::test_expected_u64(Term::make_small_signed(128), 7), None);
    // 128 fits in 8 bits
    assert_eq!(OpcodeBsMatch::test_expected_u64(Term::make_small_signed(128), 8), Some(128));
}

#[test]
fn expected_u64_negative_too_small() {
    // -129 in 8 bits: base = 256, 256 + (-129) = 127... wait that's positive
    // Actually: -128 in 8 bits = 128 (0x80). -129 would be 256-129=127, but
    // conceptually -129 doesn't fit in signed 8-bit range [-128, 127].
    // The function wraps: base=256, 256 + (-129) = 127, which is >= 0 → Some(127)
    // This is how Erlang bs_match =:= works: it wraps around.
    let val = Term::make_small_signed(-129);
    let result = OpcodeBsMatch::test_expected_u64(val.copy(), 8);
    assert_eq!(result, Some(127));
}

#[test]
fn expected_u64_negative_exact_min_8bit() {
    // -128 in 8 bits = 0x80 = 128
    let val = Term::make_small_signed(-128);
    assert_eq!(OpcodeBsMatch::test_expected_u64(val.copy(), 8), Some(128));
}

#[test]
fn expected_u64_large_positive_32bit() {
    // 0x7FFFFFFF (2^31 - 1) in 32 bits
    let val = Term::make_small_signed(0x7FFFFFFF);
    assert_eq!(OpcodeBsMatch::test_expected_u64(val.copy(), 32), Some(0x7FFFFFFF));
    assert_eq!(OpcodeBsMatch::test_expected_u64(val.copy(), 31), Some(0x7FFFFFFF));
    assert_eq!(OpcodeBsMatch::test_expected_u64(val.copy(), 30), None);
}

#[test]
fn expected_u64_non_small_returns_none() {
    // A nil term is not a small integer
    let val = Term::nil();
    assert_eq!(OpcodeBsMatch::test_expected_u64(val.copy(), 8), None);
}
