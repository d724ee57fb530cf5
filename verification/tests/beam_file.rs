use erlangrt::beam::loader::beam_file::BeamFile;
use erlangrt::fail::RtErr;
use erlangrt::rt_util::bin_reader::BinaryReader;

#[test]
fn load_atoms_utf8_returns_error_instead_of_panicking_on_invalid_utf8() {
    let mut r = BinaryReader::from_bytes(vec![
        0, 0, 0, 1,    // one atom
        1,    // length
        0xff, // invalid UTF-8 byte
    ]);
    let mut bf = BeamFile::new();

    let err = bf.load_atoms_utf8(&mut r).unwrap_err();
    match err {
        RtErr::CodeLoadingFailed(msg) => {
            assert!(msg.contains("AtU8 atom parse failed"));
        }
        other => panic!("unexpected error: {:?}", other),
    }
}

// --- OTP 28 compact atom length tests ---

#[test]
fn read_compact_atom_length_single_byte_small() {
    // bit3=0 → value = byte >> 4. E.g. byte=0x50 → length=5
    let mut r = BinaryReader::from_bytes(vec![0x50]);
    let len = BeamFile::read_compact_atom_length(&mut r).unwrap();
    assert_eq!(len, 5);
}

#[test]
fn read_compact_atom_length_single_byte_zero() {
    // byte=0x00 → length=0
    let mut r = BinaryReader::from_bytes(vec![0x00]);
    let len = BeamFile::read_compact_atom_length(&mut r).unwrap();
    assert_eq!(len, 0);
}

#[test]
fn read_compact_atom_length_single_byte_max_15() {
    // byte=0xF0 → length=15
    let mut r = BinaryReader::from_bytes(vec![0xF0]);
    let len = BeamFile::read_compact_atom_length(&mut r).unwrap();
    assert_eq!(len, 15);
}

#[test]
fn read_compact_atom_length_two_byte_encoding() {
    // bit3=1, bit4=0 → hi = byte >> 5, lo = next_byte
    // byte=0x08 (bits: 0000_1000), hi=0, next=42 → length=42
    let mut r = BinaryReader::from_bytes(vec![0x08, 42]);
    let len = BeamFile::read_compact_atom_length(&mut r).unwrap();
    assert_eq!(len, 42);
}

#[test]
fn read_compact_atom_length_two_byte_large() {
    // byte=0x68 (bits: 0110_1000), hi=3, next=0xFF → length=3*256+255=1023
    let mut r = BinaryReader::from_bytes(vec![0x68, 0xFF]);
    let len = BeamFile::read_compact_atom_length(&mut r).unwrap();
    assert_eq!(len, 3 * 256 + 255);
}

#[test]
fn read_compact_atom_length_unsupported_encoding() {
    // bit3=1, bit4=1 → unsupported
    let mut r = BinaryReader::from_bytes(vec![0x18]);
    let err = BeamFile::read_compact_atom_length(&mut r).unwrap_err();
    match err {
        RtErr::CodeLoadingFailed(msg) => {
            assert!(msg.contains("Unsupported compact atom length"));
        }
        other => panic!("unexpected error: {:?}", other),
    }
}

#[test]
fn load_atoms_utf8_otp22_positive_count() {
    // Positive count=2, classic u8 length encoding
    let mut r = BinaryReader::from_bytes(vec![
        0, 0, 0, 2, // count=2 (positive, OTP 22 style)
        5, b'h', b'e', b'l', b'l', b'o',
        3, b'f', b'o', b'o',
    ]);
    let mut bf = BeamFile::new();
    bf.load_atoms_utf8(&mut r).unwrap();
    assert_eq!(bf.atoms.len(), 2);
    assert_eq!(bf.atoms[0], "hello");
    assert_eq!(bf.atoms[1], "foo");
}

#[test]
fn load_atoms_utf8_otp28_negative_count_compact() {
    // Negative count=-2 (as u32: 0xFFFFFFFE), compact atom lengths
    // Atom "lists" → len=5, compact byte: 5 << 4 = 0x50
    // Atom "ok"    → len=2, compact byte: 2 << 4 = 0x20
    let mut r = BinaryReader::from_bytes(vec![
        0xFF, 0xFF, 0xFF, 0xFE, // count=-2 as i32
        0x50, b'l', b'i', b's', b't', b's', // compact len=5, "lists"
        0x20, b'o', b'k',                     // compact len=2, "ok"
    ]);
    let mut bf = BeamFile::new();
    bf.load_atoms_utf8(&mut r).unwrap();
    assert_eq!(bf.atoms.len(), 2);
    assert_eq!(bf.atoms[0], "lists");
    assert_eq!(bf.atoms[1], "ok");
}

#[test]
fn load_literals_uncompressed_otp25() {
    // uncomp_sz=0 means uncompressed (OTP 25+)
    // Literal data: count=1, then one ETF literal: size=4, <<131, 97, 42>> (small_integer 42)
    let literal_data = vec![
        0, 0, 0, 1,    // count=1
        0, 0, 0, 3,    // size=3
        131, 97, 42,   // ETF: version=131, SMALL_INTEGER_EXT=97, value=42
    ];
    let chunk_sz = 4 + literal_data.len(); // uncomp_sz(4) + raw_data
    let mut data = vec![0, 0, 0, 0]; // uncomp_sz=0
    data.extend_from_slice(&literal_data);

    let mut r = BinaryReader::from_bytes(data);
    let mut bf = BeamFile::new();
    bf.load_literals(&mut r, chunk_sz).unwrap();
    assert_eq!(bf.lit_tab.len(), 1);
    // The decoded literal should be small integer 42
    assert!(bf.lit_tab[0].is_small());
    assert_eq!(bf.lit_tab[0].get_small_signed(), 42);
}

// --- Edge cases ---

#[test]
fn read_compact_atom_length_all_single_byte_values() {
    // Single-byte encoding covers lengths 0..15 (bit3=0, value = byte >> 4)
    for expected_len in 0..=15u8 {
        let byte = expected_len << 4; // bit3 is 0
        let mut r = BinaryReader::from_bytes(vec![byte]);
        let len = BeamFile::read_compact_atom_length(&mut r).unwrap();
        assert_eq!(len, expected_len as usize, "byte=0x{:02X}", byte);
    }
}

#[test]
fn read_compact_atom_length_two_byte_zero_hi() {
    // Two-byte: hi=0, lo=0 → length=0
    let mut r = BinaryReader::from_bytes(vec![0x08, 0x00]);
    let len = BeamFile::read_compact_atom_length(&mut r).unwrap();
    assert_eq!(len, 0);
}

#[test]
fn read_compact_atom_length_two_byte_max_hi() {
    // hi bits come from bits 5-7 of first byte: max hi = 0b111 = 7
    // byte = 0b111_01_000 = 0xE8, lo = 0xFF → length = 7*256 + 255 = 2047
    let mut r = BinaryReader::from_bytes(vec![0xE8, 0xFF]);
    let len = BeamFile::read_compact_atom_length(&mut r).unwrap();
    assert_eq!(len, 7 * 256 + 255);
}

#[test]
fn load_atoms_utf8_empty_atom_name() {
    // OTP 22 style: one atom with length 0 (empty atom '')
    let mut r = BinaryReader::from_bytes(vec![
        0, 0, 0, 1, // count=1
        0,           // length=0 (empty string)
    ]);
    let mut bf = BeamFile::new();
    bf.load_atoms_utf8(&mut r).unwrap();
    assert_eq!(bf.atoms.len(), 1);
    assert_eq!(bf.atoms[0], "");
}

#[test]
fn load_atoms_utf8_otp28_single_atom() {
    // Negative count=-1, compact encoding, atom "x" (len=1, byte=0x10)
    let mut r = BinaryReader::from_bytes(vec![
        0xFF, 0xFF, 0xFF, 0xFF, // count=-1 as u32
        0x10, b'x',             // compact len=1, "x"
    ]);
    let mut bf = BeamFile::new();
    bf.load_atoms_utf8(&mut r).unwrap();
    assert_eq!(bf.atoms.len(), 1);
    assert_eq!(bf.atoms[0], "x");
}

#[test]
fn load_atoms_utf8_otp28_zero_atoms() {
    // Edge: negative count=-0 is just 0, positive path, 0 atoms
    let mut r = BinaryReader::from_bytes(vec![0, 0, 0, 0]);
    let mut bf = BeamFile::new();
    bf.load_atoms_utf8(&mut r).unwrap();
    assert_eq!(bf.atoms.len(), 0);
}

#[test]
fn load_atoms_latin1_basic() {
    let mut r = BinaryReader::from_bytes(vec![
        0, 0, 0, 2, // count=2
        3, b'f', b'o', b'o',
        3, b'b', b'a', b'r',
    ]);
    let mut bf = BeamFile::new();
    bf.load_atoms_latin1(&mut r).unwrap();
    assert_eq!(bf.atoms, vec!["foo", "bar"]);
}

#[test]
fn load_atoms_latin1_empty() {
    let mut r = BinaryReader::from_bytes(vec![0, 0, 0, 0]);
    let mut bf = BeamFile::new();
    bf.load_atoms_latin1(&mut r).unwrap();
    assert_eq!(bf.atoms.len(), 0);
}

#[test]
fn load_atoms_utf8_multibyte_utf8_char() {
    // Atom with a 2-byte UTF-8 character: "ö" is 0xC3 0xB6
    let mut r = BinaryReader::from_bytes(vec![
        0, 0, 0, 1, // count=1 (positive, OTP 22)
        2,           // length=2 bytes
        0xC3, 0xB6,  // "ö" in UTF-8
    ]);
    let mut bf = BeamFile::new();
    bf.load_atoms_utf8(&mut r).unwrap();
    assert_eq!(bf.atoms.len(), 1);
    assert_eq!(bf.atoms[0], "ö");
}

#[test]
fn load_literals_uncompressed_multiple() {
    // Two uncompressed literals: 42 and 100
    let literal_data = vec![
        0, 0, 0, 2,    // count=2
        0, 0, 0, 3,    // size=3
        131, 97, 42,   // ETF small_integer 42
        0, 0, 0, 3,    // size=3
        131, 97, 100,  // ETF small_integer 100
    ];
    let chunk_sz = 4 + literal_data.len();
    let mut data = vec![0, 0, 0, 0]; // uncomp_sz=0
    data.extend_from_slice(&literal_data);

    let mut r = BinaryReader::from_bytes(data);
    let mut bf = BeamFile::new();
    bf.load_literals(&mut r, chunk_sz).unwrap();
    assert_eq!(bf.lit_tab.len(), 2);
    assert_eq!(bf.lit_tab[0].get_small_signed(), 42);
    assert_eq!(bf.lit_tab[1].get_small_signed(), 100);
}

#[test]
fn load_literals_uncompressed_zero_count() {
    // Zero literals
    let literal_data = vec![0, 0, 0, 0]; // count=0
    let chunk_sz = 4 + literal_data.len();
    let mut data = vec![0, 0, 0, 0]; // uncomp_sz=0
    data.extend_from_slice(&literal_data);

    let mut r = BinaryReader::from_bytes(data);
    let mut bf = BeamFile::new();
    bf.load_literals(&mut r, chunk_sz).unwrap();
    assert_eq!(bf.lit_tab.len(), 0);
}
