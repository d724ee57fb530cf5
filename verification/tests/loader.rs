use erlangrt::beam::loader::beam_file::BeamFile;
use erlangrt::beam::loader::load_time_structs::{LtExport, LtFun, LtImport};
use erlangrt::fail::{ReadError, RtErr};
use erlangrt::ext_term_format::decode;
use erlangrt::rt_util::bin_reader::BinaryReader;
use erlangrt::term::{BinRef, Term};

fn words(v: &[u32]) -> Vec<u8> {
    let mut out = Vec::new();
    for n in v {
        out.extend(n.to_be_bytes());
    }
    out
}

fn chunk(name: &str, data: &[u8]) -> Vec<u8> {
    let mut out = name.as_bytes().to_vec();
    out.extend((data.len() as u32).to_be_bytes());
    out.extend(data);
    while out.len() % 4 != 0 {
        out.push(0);
    }
    out
}

fn file(chunks: &[Vec<u8>]) -> Vec<u8> {
    let body: Vec<u8> = chunks.concat();
    let mut out = b"FOR1".to_vec();
    out.extend((body.len() as u32 + 4).to_be_bytes());
    out.extend(b"BEAM");
    out.extend(body);
    out
}

fn read(data: Vec<u8>) -> Result<BeamFile, RtErr> {
    BeamFile::read_chunks(&mut BinaryReader::from_bytes(data), 184)
}

fn code(highest: u32, bytes: &[u8]) -> Vec<u8> {
    let mut out = words(&[16, 0, highest, 3, 2]);
    out.extend(bytes);
    out
}

#[test]
fn a_whole_module_is_read() {
    let mut atoms = words(&[2]);
    atoms.extend([1, b'm', 2, 0xc3, 0xa9]);
    let mut literals = words(&[0, 2, 3]);
    literals.extend([131, 97, 42]);
    literals.extend(words(&[2]));
    literals.extend([131, 106]);
    let m = read(file(&[
        chunk("AtU8", &atoms),
        chunk("Code", &code(100, &[1, 16, 3])),
        chunk("ImpT", &words(&[1, 1, 2, 3])),
        chunk("ExpT", &words(&[1, 2, 0, 7])),
        chunk("LocT", &words(&[2, 1, 1, 1, 2, 2, 2])),
        chunk("FunT", &words(&[1, 1, 2, 3, 4, 5, 6])),
        chunk("LitT", &literals),
        chunk("Attr", &[1, 2, 3]),
        chunk("Line", &words(&[0, 0, 0, 0, 0])),
    ]))
    .unwrap();
    assert_eq!(m.atoms, vec!["m".to_string(), "\u{e9}".to_string()]);
    assert_eq!(m.code, vec![1, 16, 3]);
    assert_eq!(m.imports, vec![LtImport { mod_atom_i: 1, fun_atom_i: 2, arity: 3 }]);
    assert_eq!(m.exports, vec![LtExport { fun_atom_i: 2, arity: 0, label: 7 }]);
    assert_eq!(m.locals.len(), 2);
    assert_eq!(
        m.lambdas,
        vec![LtFun { fun_atom_i: 1, arity: 2, code_pos: 3, index: 4, nfrozen: 5, ouniq: 6 }]
    );
    assert_eq!(m.lit_tab, vec![Term::make_small_signed(42), Term::Nil]);
    assert_eq!(m.packed_literals, None);
}

#[test]
fn packed_literals_are_unpacked_later() {
    let mut packed = words(&[10]);
    packed.extend([1, 2, 3]);
    let mut m = read(file(&[chunk("LitT", &packed)])).unwrap();
    assert_eq!(m.packed_literals, Some((10, vec![1, 2, 3])));
    assert!(m.lit_tab.is_empty());
    assert!(matches!(
        m.unpack_literals(vec![0, 0]),
        Err(RtErr::CodeLoadingFailed(e)) if e.contains("LitT inflate failed")
    ));
    m.unpack_literals(vec![0, 0, 0, 1, 0, 0, 0, 2, 131, 106]).unwrap();
    assert_eq!(m.lit_tab, vec![Term::Nil]);
    assert_eq!(m.packed_literals, None);
}

#[test]
fn bad_modules_are_refused() {
    assert_eq!(read(vec![]).unwrap_err(), RtErr::ReadError(ReadError::PrematureEOF));
    assert_eq!(
        read(b"FOR2\0\0\0\x04BEAM".to_vec()).unwrap_err(),
        RtErr::ReadError(ReadError::BadSignature)
    );
    assert!(matches!(
        read(file(&[chunk("Nope", &[])])),
        Err(RtErr::CodeLoadingFailed(e)) if e.contains("Unexpected chunk: Nope")
    ));
    assert!(matches!(
        read(file(&[chunk("Code", &code(185, &[1]))])),
        Err(RtErr::CodeLoadingFailed(e)) if e.contains("newer and unsupported OTP version")
    ));
    let mut short = file(&[chunk("ImpT", &words(&[2, 1, 2, 3]))]);
    assert_eq!(read(short.clone()).unwrap_err(), RtErr::ReadError(ReadError::PrematureEOF));
    short.truncate(14);
    assert!(read(short).is_ok());
}

#[test]
fn readers_read() {
    let mut r = BinaryReader::from_bytes(vec![1, 0, 0, 1, 2, 0xe9, 0xc3, 0xa9, b'F', b'O', b'R', b'1']);
    assert!(r.has_more(12));
    assert!(!r.has_more(13));
    assert_eq!(r.read_u8(), Ok(1));
    assert_eq!(r.read_u32be(), Ok(258));
    assert_eq!(r.read_str_latin1(1), Ok("\u{e9}".to_string()));
    assert_eq!(r.read_str_utf8(2), Ok("\u{e9}".to_string()));
    assert_eq!(r.ensure_bytes(&[b'F', b'O', b'R', b'1']), Ok(()));
    assert_eq!(r.read_u8(), Err(ReadError::PrematureEOF));
    r.seek(5);
    assert_eq!(r.read_str_utf8(1), Err(ReadError::BadUtf8));
    r.seek(0);
    assert_eq!(r.ensure_bytes(&[1, 1, 1, 1]), Err(ReadError::BadSignature));
    r.seek(10);
    assert_eq!(r.read_bytes(2), Ok(vec![b'R', b'1']));
    assert_eq!(ReadError::PrematureEOF.text(), "premature end of data");
}

fn term(bytes: &[u8]) -> Result<(Term, Vec<Vec<u8>>), RtErr> {
    let mut data = vec![131];
    data.extend(bytes);
    let mut bins = Vec::new();
    let t = decode(&mut BinaryReader::from_bytes(data), &mut bins)?;
    Ok((t, bins))
}

fn plain(bytes: &[u8]) -> Term {
    let (t, bins) = term(bytes).unwrap();
    assert!(bins.is_empty());
    t
}

fn small(n: i64) -> Term {
    Term::make_small_signed(n)
}

#[test]
fn terms_are_read() {
    assert_eq!(plain(&[97, 200]), small(200));
    assert_eq!(plain(&[98, 0, 0, 1, 0]), small(256));
    assert_eq!(plain(&[98, 255, 255, 255, 254]), small(-2));
    assert_eq!(plain(&[110, 5, 0, 0, 0, 0, 0, 1]), small(1 << 32));
    assert_eq!(plain(&[110, 8, 1, 0, 0, 0, 0, 0, 0, 0, 128]), small(i64::MIN));
    assert_eq!(plain(&[100, 0, 1, 0xe9]), Term::make_atom("\u{e9}"));
    assert_eq!(plain(&[119, 2, 0xc3, 0xa9]), Term::make_atom("\u{e9}"));
    assert_eq!(plain(&[106]), Term::Nil);
    let list = |a: Term, b: Term| Term::Cons(Box::new(a), Box::new(b));
    assert_eq!(plain(&[107, 0, 2, 1, 2]), list(small(1), list(small(2), Term::Nil)));
    assert_eq!(plain(&[108, 0, 0, 0, 1, 97, 1, 97, 2]), list(small(1), small(2)));
    assert_eq!(
        plain(&[104, 2, 97, 1, 104, 0]),
        Term::make_tuple(vec![small(1), Term::make_tuple(vec![])])
    );
    assert_eq!(
        plain(&[116, 0, 0, 0, 1, 97, 1, 106]),
        Term::Assoc(vec![(small(1), Term::Nil)])
    );
    let (t, bins) = term(&[104, 2, 109, 0, 0, 0, 1, 7, 109, 0, 0, 0, 2, 8, 9]).unwrap();
    assert_eq!(bins, vec![vec![7], vec![8, 9]]);
    assert_eq!(
        t,
        Term::make_tuple(vec![
            Term::Binary(BinRef { bin: 0, offset: 0, bits: 8 }),
            Term::Binary(BinRef { bin: 1, offset: 0, bits: 16 }),
        ])
    );
}

#[test]
fn bad_terms_are_refused() {
    assert!(matches!(term(&[70]), Err(RtErr::CodeLoadingFailed(_))));
    assert!(matches!(term(&[110, 9, 0, 0, 0, 0, 0, 0, 0, 0, 0, 1]), Err(RtErr::CodeLoadingFailed(_))));
    assert_eq!(term(&[]), Err(RtErr::ReadError(ReadError::PrematureEOF)));
    assert_eq!(term(&[104, 2, 97, 1]), Err(RtErr::ReadError(ReadError::PrematureEOF)));
    assert_eq!(term(&[119, 1, 0xff]), Err(RtErr::ReadError(ReadError::BadUtf8)));
    let mut bins = Vec::new();
    assert!(decode(&mut BinaryReader::from_bytes(vec![130, 106]), &mut bins).is_err());
}
