//! Reading the chunks of a BEAM file.
use vstd::prelude::*;
use vstd::utf8;
use crate::beam::loader::load_time_structs::{LtExport, LtFun, LtImport};
use crate::beam::runtime;
use crate::ext_term_format;
use crate::fail;
use crate::fail::{ReadError, RtErr, RtErrV};
use crate::rt_util::bin_reader;
use crate::rt_util::bin_reader::BinaryReader;
use crate::term;
use crate::term::{Term, TermV};
use crate::util::text;
use crate::util::text::{concat2, concat3, str_eq, u64_to_hex, u64_to_text};

verus! {

/// A module as it is read from a file.
#[derive(Debug)]
pub struct BeamFile {
    /// The atoms.
    pub atoms: Vec<String>,
    /// The functions from other modules.
    pub imports: Vec<LtImport>,
    /// The functions for other modules.
    pub exports: Vec<LtExport>,
    /// The functions for the module itself.
    pub locals: Vec<LtExport>,
    /// The functions without a name.
    pub lambdas: Vec<LtFun>,
    /// The code, which is taken apart later.
    pub code: Vec<u8>,
    /// The literals.
    pub lit_tab: Vec<Term>,
    /// The bytes of the binaries among the literals.
    pub lit_bins: Vec<Vec<u8>>,
    /// Literals that are still compressed, and how many bytes they are without that. They stay so
    /// until [`BeamFile::unpack_literals`] gets them decompressed: the decoder of `compress` panics
    /// on some malformed data, so it is not called from here.
    pub packed_literals: Option<(u32, Vec<u8>)>,
}

/// What a module is.
#[verifier::ext_equal]
pub struct BeamV {
    pub atoms: Seq<Seq<char>>,
    pub imports: Seq<LtImport>,
    pub exports: Seq<LtExport>,
    pub locals: Seq<LtExport>,
    pub lambdas: Seq<LtFun>,
    pub code: Seq<u8>,
    pub literals: Seq<TermV>,
    pub bins: Seq<Seq<u8>>,
    pub packed: Option<(u32, Seq<u8>)>,
}

impl View for BeamFile {
    type V = BeamV;

    open spec fn view(&self) -> BeamV {
        BeamV {
            atoms: text::strings_view(self.atoms@),
            imports: self.imports@,
            exports: self.exports@,
            locals: self.locals@,
            lambdas: self.lambdas@,
            code: self.code@,
            literals: term::terms_view(self.lit_tab@),
            bins: runtime::bins_view(self.lit_bins@),
            packed: match self.packed_literals {
                Some((n, d)) => Some((n, d@)),
                None => None,
            },
        }
    }
}

/// The data ended too early.
pub open spec fn eof<T>() -> Result<T, RtErrV> {
    Err(RtErrV::ReadError(ReadError::PrematureEOF))
}

/// Loading failed, for this reason.
pub open spec fn loading_failed(why: Seq<char>) -> RtErrV {
    RtErrV::CodeLoadingFailed("beam/file: "@ + why)
}

fn load_error(why: &str) -> (r: RtErr)
    ensures
        r@ == loading_failed(why@),
{
    RtErr::CodeLoadingFailed(concat2("beam/file: ", why))
}

/// The length of an atom in its compact form, and what follows it.
pub open spec fn compact_length(d: Seq<u8>, at: int) -> Result<(nat, int), RtErrV> {
    if !bin_reader::within(d, at, 1) {
        eof()
    } else {
        let b = d[at];
        if (b / 8) % 2 == 0 {
            Ok(((b / 16) as nat, at + 1))
        } else if (b / 16) % 2 == 0 {
            if !bin_reader::within(d, at + 1, 1) {
                eof()
            } else {
                Ok((((b / 32) * 256 + d[at + 1]) as nat, at + 2))
            }
        } else {
            Err(
                loading_failed(
                    "Unsupported compact atom length encoding: 0x"@ + text::hex_padded(b as nat, 2),
                ),
            )
        }
    }
}

/// The length of an atom, and what follows it.
pub open spec fn atom_length(d: Seq<u8>, at: int, compact: bool) -> Result<(nat, int), RtErrV> {
    if compact {
        compact_length(d, at)
    } else if bin_reader::within(d, at, 1) {
        Ok((d[at] as nat, at + 1))
    } else {
        eof()
    }
}

/// Text of so many bytes.
pub open spec fn text_at(d: Seq<u8>, at: int, n: nat, wide: bool) -> Result<Seq<char>, ReadError> {
    if !bin_reader::within(d, at, n as int) {
        Err(ReadError::PrematureEOF)
    } else {
        let b = d.subrange(at, at + n);
        if !wide {
            Ok(bin_reader::latin1(b))
        } else if utf8::valid_utf8(b) {
            Ok(utf8::decode_utf8(b))
        } else {
            Err(ReadError::BadUtf8)
        }
    }
}

/// Why an atom could not be read.
pub open spec fn atom_error(wide: bool, i: nat, e: ReadError) -> RtErrV {
    loading_failed(
        if wide {
            "AtU8 atom parse failed at index "@
        } else {
            "Atom section parse failed at index "@
        } + (text::decimal(i) + ": "@ + e.spec_text()),
    )
}

/// The atoms from the `i`th on, and how reading them ends.
pub open spec fn atoms_at(d: Seq<u8>, at: int, i: nat, n: nat, compact: bool, wide: bool) -> (
    Seq<Seq<char>>,
    Result<int, RtErrV>,
)
    decreases n - i,
{
    if i >= n {
        (Seq::empty(), Ok(at))
    } else {
        match atom_length(d, at, compact) {
            Err(e) => (Seq::empty(), Err(e)),
            Ok((len, begin)) => match text_at(d, begin, len, wide) {
                Err(e) => (Seq::empty(), Err(atom_error(wide, i, e))),
                Ok(t) => {
                    let more = atoms_at(d, begin + len, i + 1, n, compact, wide);
                    (seq![t] + more.0, more.1)
                },
            },
        }
    }
}

/// How many atoms there are, and whether their lengths are compact: a number that is negative as
/// one of 32 bits counts them so.
pub open spec fn atom_count(raw: u32) -> (nat, bool) {
    if raw >= 0x8000_0000 {
        ((0x1_0000_0000 - raw) as nat, true)
    } else {
        (raw as nat, false)
    }
}

/// A table of atoms in UTF-8.
pub open spec fn utf8_atoms(d: Seq<u8>, at: int) -> (Seq<Seq<char>>, Result<int, RtErrV>) {
    if !bin_reader::within(d, at, 4) {
        (Seq::empty(), eof())
    } else {
        let (n, compact) = atom_count(bin_reader::u32_at(d, at));
        atoms_at(d, at + 4, 0, n, compact, true)
    }
}

/// A table of atoms in Latin-1.
pub open spec fn latin1_atoms(d: Seq<u8>, at: int) -> (Seq<Seq<char>>, Result<int, RtErrV>) {
    if !bin_reader::within(d, at, 4) {
        (Seq::empty(), eof())
    } else {
        atoms_at(d, at + 4, 0, bin_reader::u32_at(d, at) as nat, false, false)
    }
}

/// How many entries a table has, where it is all there.
pub open spec fn table_len(d: Seq<u8>, at: int, size: int) -> Option<nat> {
    if bin_reader::within(d, at, 4) && bin_reader::within(
        d,
        at + 4,
        bin_reader::u32_at(d, at) * size,
    ) {
        Some(bin_reader::u32_at(d, at) as nat)
    } else {
        None
    }
}

/// An entry of the table of imports.
pub open spec fn import_at(d: Seq<u8>, at: int) -> LtImport {
    LtImport {
        mod_atom_i: bin_reader::u32_at(d, at) as usize,
        fun_atom_i: bin_reader::u32_at(d, at + 4) as usize,
        arity: bin_reader::u32_at(d, at + 8) as usize,
    }
}

/// An entry of the table of exports.
pub open spec fn export_at(d: Seq<u8>, at: int) -> LtExport {
    LtExport {
        fun_atom_i: bin_reader::u32_at(d, at) as usize,
        arity: bin_reader::u32_at(d, at + 4) as usize,
        label: bin_reader::u32_at(d, at + 8) as usize,
    }
}

/// An entry of the table of functions without a name.
pub open spec fn fun_at(d: Seq<u8>, at: int) -> LtFun {
    LtFun {
        fun_atom_i: bin_reader::u32_at(d, at) as usize,
        arity: bin_reader::u32_at(d, at + 4) as usize,
        code_pos: bin_reader::u32_at(d, at + 8) as usize,
        index: bin_reader::u32_at(d, at + 12) as usize,
        nfrozen: bin_reader::u32_at(d, at + 16) as usize,
        ouniq: bin_reader::u32_at(d, at + 20) as usize,
    }
}

/// A table of imports.
pub open spec fn imports_at(d: Seq<u8>, at: int) -> Result<Seq<LtImport>, RtErrV> {
    match table_len(d, at, 12) {
        Some(n) => Ok(Seq::new(n, |i: int| import_at(d, at + 4 + 12 * i))),
        None => eof(),
    }
}

/// A table of exports.
pub open spec fn exports_at(d: Seq<u8>, at: int) -> Result<Seq<LtExport>, RtErrV> {
    match table_len(d, at, 12) {
        Some(n) => Ok(Seq::new(n, |i: int| export_at(d, at + 4 + 12 * i))),
        None => eof(),
    }
}

/// A table of functions without a name.
pub open spec fn funs_at(d: Seq<u8>, at: int) -> Result<Seq<LtFun>, RtErrV> {
    match table_len(d, at, 24) {
        Some(n) => Ok(Seq::new(n, |i: int| fun_at(d, at + 4 + 24 * i))),
        None => eof(),
    }
}

/// The code of a module: it stands behind five numbers, of which the third is the highest opcode.
pub open spec fn code_at(d: Seq<u8>, at: int, size: int, opcode_max: u32) -> Result<
    Seq<u8>,
    RtErrV,
> {
    if !bin_reader::within(d, at, 20) {
        eof()
    } else if bin_reader::u32_at(d, at + 8) > opcode_max {
        Err(
            RtErrV::CodeLoadingFailed(
                "BEAM file comes from a newer and unsupported OTP version"@,
            ),
        )
    } else if size < 20 || !bin_reader::within(d, at + 20, size - 20) {
        eof()
    } else {
        Ok(d.subrange(at + 20, at + size))
    }
}

/// So many literals: each is preceded by its size, which is passed over.
pub open spec fn literals_from(d: Seq<u8>, at: int, bins: Seq<Seq<u8>>, n: nat) -> Result<
    (Seq<TermV>, Seq<Seq<u8>>),
    RtErrV,
>
    decreases n,
{
    if n == 0 {
        Ok((Seq::empty(), bins))
    } else if !bin_reader::within(d, at, 4) {
        eof()
    } else {
        match ext_term_format::decoded(d, at + 4, bins) {
            Err(e) => Err(e),
            Ok((t, end, b1)) => match literals_from(d, end, b1, (n - 1) as nat) {
                Ok((more, b2)) => Ok((seq![t] + more, b2)),
                Err(e) => Err(e),
            },
        }
    }
}

/// A table of literals, given the bytes of the binaries that were read before.
pub open spec fn literals_of(d: Seq<u8>, bins: Seq<Seq<u8>>) -> Result<
    (Seq<TermV>, Seq<Seq<u8>>),
    RtErrV,
> {
    if !bin_reader::within(d, 0, 4) {
        eof()
    } else {
        literals_from(d, 4, bins, bin_reader::u32_at(d, 0) as nat)
    }
}

/// A module with the literals of a table.
pub open spec fn adding_literals(b: BeamV, d: Seq<u8>) -> Result<BeamV, RtErrV> {
    match literals_of(d, b.bins) {
        Ok((l, bins)) => Ok(BeamV { literals: b.literals + l, bins, ..b }),
        Err(e) => Err(e),
    }
}

/// A module with a table of literals. Where the size in front is zero they stand as they are;
/// otherwise they are compressed, and are kept so.
pub open spec fn with_literals(b: BeamV, d: Seq<u8>, at: int, size: int) -> Result<BeamV, RtErrV> {
    if !bin_reader::within(d, at, 4) || size < 4 || !bin_reader::within(d, at + 4, size - 4) {
        eof()
    } else {
        let full = bin_reader::u32_at(d, at);
        let raw = d.subrange(at + 4, at + size);
        if full == 0 {
            adding_literals(b, raw)
        } else {
            Ok(BeamV { packed: Some((full, raw)), ..b })
        }
    }
}

/// Whether a chunk is passed over.
pub open spec fn passed_over(name: Seq<char>) -> bool {
    ||| name == "Attr"@
    ||| name == "CInf"@
    ||| name == "Dbgi"@
    ||| name == "Docs"@
    ||| name == "Meta"@
    ||| name == "Type"@
    ||| name == "StrT"@
    ||| name == "Abst"@
}

/// A module with one more chunk.
pub open spec fn with_chunk(
    b: BeamV,
    d: Seq<u8>,
    name: Seq<char>,
    at: int,
    size: int,
    opcode_max: u32,
) -> Result<BeamV, RtErrV> {
    if name == "Atom"@ {
        match latin1_atoms(d, at) {
            (a, Ok(_)) => Ok(BeamV { atoms: b.atoms + a, ..b }),
            (_, Err(e)) => Err(e),
        }
    } else if name == "AtU8"@ {
        match utf8_atoms(d, at) {
            (a, Ok(_)) => Ok(BeamV { atoms: b.atoms + a, ..b }),
            (_, Err(e)) => Err(e),
        }
    } else if name == "Code"@ {
        match code_at(d, at, size, opcode_max) {
            Ok(code) => Ok(BeamV { code, ..b }),
            Err(e) => Err(e),
        }
    } else if name == "ExpT"@ {
        match exports_at(d, at) {
            Ok(exports) => Ok(BeamV { exports, ..b }),
            Err(e) => Err(e),
        }
    } else if name == "FunT"@ {
        match funs_at(d, at) {
            Ok(f) => Ok(BeamV { lambdas: b.lambdas + f, ..b }),
            Err(e) => Err(e),
        }
    } else if name == "ImpT"@ {
        match imports_at(d, at) {
            Ok(i) => Ok(BeamV { imports: b.imports + i, ..b }),
            Err(e) => Err(e),
        }
    } else if name == "Line"@ {
        if bin_reader::within(d, at, 20) {
            Ok(b)
        } else {
            eof()
        }
    } else if name == "LitT"@ {
        with_literals(b, d, at, size)
    } else if name == "LocT"@ {
        match exports_at(d, at) {
            Ok(locals) => Ok(BeamV { locals, ..b }),
            Err(e) => Err(e),
        }
    } else if passed_over(name) {
        Ok(b)
    } else {
        Err(loading_failed("Unexpected chunk: "@ + name))
    }
}

/// A size rounded up to whole words of four bytes.
pub open spec fn aligned(size: int) -> int {
    4 * ((size + 3) / 4)
}

/// A module with all chunks from a place on.
pub open spec fn with_chunks(b: BeamV, d: Seq<u8>, at: int, opcode_max: u32) -> Result<
    BeamV,
    RtErrV,
>
    decreases
            if at < d.len() {
                d.len() - at
            } else {
                0
            },
{
    if at < 0 || !bin_reader::within(d, at, 4) {
        Ok(b)
    } else if !bin_reader::within(d, at + 4, 4) {
        eof()
    } else {
        let name = bin_reader::latin1(d.subrange(at, at + 4));
        let size = bin_reader::u32_at(d, at + 4) as int;
        match with_chunk(b, d, name, at + 8, size, opcode_max) {
            Ok(b1) => with_chunks(b1, d, at + 8 + aligned(size), opcode_max),
            Err(e) => Err(e),
        }
    }
}

/// A module without anything.
pub open spec fn nothing() -> BeamV {
    BeamV {
        atoms: Seq::empty(),
        imports: Seq::empty(),
        exports: Seq::empty(),
        locals: Seq::empty(),
        lambdas: Seq::empty(),
        code: Seq::empty(),
        literals: Seq::empty(),
        bins: Seq::empty(),
        packed: None,
    }
}

/// The four bytes that a word of text is.
pub open spec fn word(a: u8, b: u8, c: u8, d: u8) -> Seq<u8> {
    seq![a, b, c, d]
}

/// Whether data begins as a BEAM file does.
pub open spec fn header(d: Seq<u8>) -> Result<(), ReadError> {
    if !bin_reader::within(d, 0, 4) {
        Err(ReadError::PrematureEOF)
    } else if d.subrange(0, 4) != word(70, 79, 82, 49) {
        Err(ReadError::BadSignature)
    } else if !bin_reader::within(d, 4, 4) || !bin_reader::within(d, 8, 4) {
        Err(ReadError::PrematureEOF)
    } else if d.subrange(8, 12) != word(66, 69, 65, 77) {
        Err(ReadError::BadSignature)
    } else {
        Ok(())
    }
}

/// The module in a file.
pub open spec fn module_of(d: Seq<u8>, opcode_max: u32) -> Result<BeamV, RtErrV> {
    match header(d) {
        Ok(()) => with_chunks(nothing(), d, 12, opcode_max),
        Err(e) => Err(RtErrV::ReadError(e)),
    }
}

impl BeamFile {
    /// A module without anything.
    pub fn new() -> (r: Self)
        ensures
            r@ == nothing(),
    {
        let r = BeamFile {
            atoms: Vec::new(),
            imports: Vec::new(),
            exports: Vec::new(),
            locals: Vec::new(),
            lambdas: Vec::new(),
            code: Vec::new(),
            lit_tab: Vec::new(),
            lit_bins: Vec::new(),
            packed_literals: None,
        };
        assert(r@ =~= nothing());
        r
    }

    /// Reads a module.
    pub fn read_chunks(r: &mut BinaryReader, opcode_max: u32) -> (res: Result<BeamFile, RtErr>)
        requires
            old(r).pos == 0,
            old(r).data@.len() <= usize::MAX / 2,
        ensures
            match res {
                Ok(b) => module_of(old(r).data@, opcode_max) == Ok::<BeamV, RtErrV>(b@),
                Err(e) => module_of(old(r).data@, opcode_max) == Err::<BeamV, RtErrV>(e@),
            },
    {
        let ghost d = r.data@;
        let mut bf: BeamFile = Self::new();
        let form: [u8; 4] = [70, 79, 82, 49];
        assert(form@ =~= word(70, 79, 82, 49));
        match r.ensure_bytes(&form) {
            Ok(()) => {},
            Err(e) => {
                return Err(RtErr::ReadError(e));
            },
        }
        match r.read_u32be() {
            Ok(_) => {},
            Err(e) => {
                return Err(RtErr::ReadError(e));
            },
        }
        let kind: [u8; 4] = [66, 69, 65, 77];
        assert(kind@ =~= word(66, 69, 65, 77));
        match r.ensure_bytes(&kind) {
            Ok(()) => {},
            Err(e) => {
                return Err(RtErr::ReadError(e));
            },
        }
        let total: usize = r.data.len();
        while r.has_more(4)
            invariant
                r.data@ == d,
                d == old(r).data@,
                total == d.len(),
                total <= usize::MAX / 2,
                header(d) is Ok,
                with_chunks(bf@, d, r.pos as int, opcode_max) == with_chunks(
                    nothing(),
                    d,
                    12,
                    opcode_max,
                ),
            decreases total - r.pos,
        {
            let at: usize = r.pos;
            let name: String = match r.read_str_latin1(4) {
                Ok(s) => s,
                Err(e) => {
                    return Err(RtErr::ReadError(e));
                },
            };
            let size: u32 = match r.read_u32be() {
                Ok(n) => n,
                Err(e) => {
                    return Err(RtErr::ReadError(e));
                },
            };
            let begin: usize = r.pos;
            match bf.load_chunk(r, name.as_str(), size, opcode_max) {
                Ok(()) => {},
                Err(e) => {
                    return Err(e);
                },
            }
            let step: u64 = 4 * ((size as u64 + 3) / 4);
            let left: usize = total - begin;
            let next: usize = if step >= left as u64 {
                total
            } else {
                begin + step as usize
            };
            proof {
                assert(step == aligned(size as int));
                if step >= left {
                    lemma_no_more(bf@, d, at + 8 + aligned(size as int), opcode_max);
                    lemma_no_more(bf@, d, total as int, opcode_max);
                }
            }
            r.seek(next);
        }
        Ok(bf)
    }

    /// Reads one chunk.
    fn load_chunk(&mut self, r: &mut BinaryReader, name: &str, size: u32, opcode_max: u32) -> (res:
        Result<(), RtErr>)
        requires
            old(r).data@.len() <= usize::MAX / 2,
            old(r).pos <= old(r).data@.len(),
        ensures
            final(r).data@ == old(r).data@,
            match res {
                Ok(()) => with_chunk(
                    old(self)@,
                    old(r).data@,
                    name@,
                    old(r).pos as int,
                    size as int,
                    opcode_max,
                ) == Ok::<BeamV, RtErrV>(final(self)@),
                Err(e) => with_chunk(
                    old(self)@,
                    old(r).data@,
                    name@,
                    old(r).pos as int,
                    size as int,
                    opcode_max,
                ) == Err::<BeamV, RtErrV>(e@),
            },
    {
        let ghost was = self@;
        if str_eq(name, "Atom") {
            self.load_atoms_latin1(r)
        } else if str_eq(name, "AtU8") {
            self.load_atoms_utf8(r)
        } else if str_eq(name, "Code") {
            self.load_code(r, size as usize, opcode_max)
        } else if str_eq(name, "ExpT") {
            match Self::load_exports(r) {
                Ok(e) => {
                    self.exports = e;
                    Ok(())
                },
                Err(e) => Err(e),
            }
        } else if str_eq(name, "FunT") {
            self.load_fun_table(r)
        } else if str_eq(name, "ImpT") {
            self.load_imports(r)
        } else if str_eq(name, "Line") {
            Self::load_line_info(r)
        } else if str_eq(name, "LitT") {
            self.load_literals(r, size as usize)
        } else if str_eq(name, "LocT") {
            match Self::load_exports(r) {
                Ok(e) => {
                    self.locals = e;
                    Ok(())
                },
                Err(e) => Err(e),
            }
        } else if str_eq(name, "Attr") || str_eq(name, "CInf") || str_eq(name, "Dbgi") || str_eq(
            name,
            "Docs",
        ) || str_eq(name, "Meta") || str_eq(name, "Type") || str_eq(name, "StrT") || str_eq(
            name,
            "Abst",
        ) {
            Ok(())
        } else {
            let why: String = concat2("Unexpected chunk: ", name);
            Err(load_error(why.as_str()))
        }
    }

    /// Reads atoms.
    fn load_atoms(&mut self, r: &mut BinaryReader, n: u32, compact: bool, wide: bool) -> (res:
        Result<(), RtErr>)
        ensures
            final(r).data@ == old(r).data@,
            ({
                let (a, end) = atoms_at(
                    old(r).data@,
                    old(r).pos as int,
                    0,
                    n as nat,
                    compact,
                    wide,
                );
                &&& final(self)@ == (BeamV { atoms: old(self)@.atoms + a, ..old(self)@ })
                &&& match res {
                    Ok(()) => end == Ok::<int, RtErrV>(final(r).pos as int),
                    Err(e) => end == Err::<int, RtErrV>(e@),
                }
            }),
    {
        let ghost d = r.data@;
        let ghost was = self@;
        let ghost (a, end) = atoms_at(d, r.pos as int, 0, n as nat, compact, wide);
        let mut i: u32 = 0;
        while i < n
            invariant
                i <= n,
                d == old(r).data@,
                r.data@ == d,
                was == old(self)@,
                (a, end) == atoms_at(d, old(r).pos as int, 0, n as nat, compact, wide),
                self@ == (BeamV { atoms: self@.atoms, ..was }),
                was.atoms + a == self@.atoms + atoms_at(
                    d,
                    r.pos as int,
                    i as nat,
                    n as nat,
                    compact,
                    wide,
                ).0,
                end == atoms_at(d, r.pos as int, i as nat, n as nat, compact, wide).1,
            decreases n - i,
        {
            let ghost sofar = self@.atoms;
            let ghost here = atoms_at(d, r.pos as int, i as nat, n as nat, compact, wide);
            let len: usize = if compact {
                match Self::read_compact_atom_length(r) {
                    Ok(n) => n,
                    Err(e) => {
                        assert(sofar + here.0 =~= sofar);
                        return Err(e);
                    },
                }
            } else {
                match r.read_u8() {
                    Ok(b) => b as usize,
                    Err(e) => {
                        assert(sofar + here.0 =~= sofar);
                        return Err(RtErr::ReadError(e));
                    },
                }
            };
            let ghost begin = r.pos as int;
            let t: Result<String, ReadError> = if wide {
                r.read_str_utf8(len)
            } else {
                r.read_str_latin1(len)
            };
            match t {
                Ok(s) => {
                    let ghost v = s@;
                    self.atoms.push(s);
                    proof {
                        assert(self@.atoms =~= sofar.push(v));
                        let more = atoms_at(
                            d,
                            begin + len,
                            (i + 1) as nat,
                            n as nat,
                            compact,
                            wide,
                        );
                        assert(sofar + (seq![v] + more.0) =~= sofar.push(v) + more.0);
                    }
                },
                Err(e) => {
                    assert(sofar + here.0 =~= sofar);
                    let index: String = u64_to_text(i as u64);
                    let tail: String = concat3(index.as_str(), ": ", e.text());
                    let why: String = concat2(
                        if wide {
                            "AtU8 atom parse failed at index "
                        } else {
                            "Atom section parse failed at index "
                        },
                        tail.as_str(),
                    );
                    return Err(load_error(why.as_str()));
                },
            }
            i += 1;
        }
        proof {
            let rest = atoms_at(d, r.pos as int, i as nat, n as nat, compact, wide);
            assert(self@.atoms + rest.0 =~= self@.atoms);
        }
        Ok(())
    }

    /// Reads a table of atoms in UTF-8.
    pub fn load_atoms_utf8(&mut self, r: &mut BinaryReader) -> (res: Result<(), RtErr>)
        ensures
            final(r).data@ == old(r).data@,
            ({
                let (a, end) = utf8_atoms(old(r).data@, old(r).pos as int);
                &&& final(self)@ == (BeamV { atoms: old(self)@.atoms + a, ..old(self)@ })
                &&& match res {
                    Ok(()) => end == Ok::<int, RtErrV>(final(r).pos as int),
                    Err(e) => end == Err::<int, RtErrV>(e@),
                }
            }),
    {
        let raw: u32 = match r.read_u32be() {
            Ok(n) => n,
            Err(e) => {
                assert(self@.atoms + Seq::<Seq<char>>::empty() =~= self@.atoms);
                return Err(RtErr::ReadError(e));
            },
        };
        if raw >= 0x8000_0000 {
            let n: u32 = (0xffff_ffff - raw) + 1;
            self.load_atoms(r, n, true, true)
        } else {
            self.load_atoms(r, raw, false, true)
        }
    }

    /// Reads the length of an atom in its compact form.
    pub fn read_compact_atom_length(r: &mut BinaryReader) -> (res: Result<usize, RtErr>)
        ensures
            final(r).data@ == old(r).data@,
            match res {
                Ok(n) => compact_length(old(r).data@, old(r).pos as int) == Ok::<
                    (nat, int),
                    RtErrV,
                >((n as nat, final(r).pos as int)),
                Err(e) => compact_length(old(r).data@, old(r).pos as int) == Err::<
                    (nat, int),
                    RtErrV,
                >(e@),
            },
    {
        let b: u8 = match r.read_u8() {
            Ok(b) => b,
            Err(e) => {
                return Err(RtErr::ReadError(e));
            },
        };
        if (b / 8) % 2 == 0 {
            Ok((b / 16) as usize)
        } else if (b / 16) % 2 == 0 {
            let low: u8 = match r.read_u8() {
                Ok(b) => b,
                Err(e) => {
                    return Err(RtErr::ReadError(e));
                },
            };
            Ok((b / 32) as usize * 256 + low as usize)
        } else {
            let digits: String = u64_to_hex(b as u64, 2);
            let why: String = concat2(
                "Unsupported compact atom length encoding: 0x",
                digits.as_str(),
            );
            Err(load_error(why.as_str()))
        }
    }

    /// Reads a table of atoms in Latin-1.
    pub fn load_atoms_latin1(&mut self, r: &mut BinaryReader) -> (res: Result<(), RtErr>)
        ensures
            final(r).data@ == old(r).data@,
            ({
                let (a, end) = latin1_atoms(old(r).data@, old(r).pos as int);
                &&& final(self)@ == (BeamV { atoms: old(self)@.atoms + a, ..old(self)@ })
                &&& match res {
                    Ok(()) => end == Ok::<int, RtErrV>(final(r).pos as int),
                    Err(e) => end == Err::<int, RtErrV>(e@),
                }
            }),
    {
        match r.read_u32be() {
            Ok(n) => self.load_atoms(r, n, false, false),
            Err(e) => {
                assert(self@.atoms + Seq::<Seq<char>>::empty() =~= self@.atoms);
                Err(RtErr::ReadError(e))
            },
        }
    }

    /// Reads the code.
    pub fn load_code(&mut self, r: &mut BinaryReader, size: usize, opcode_max: u32) -> (res: Result<
        (),
        RtErr,
    >)
        ensures
            final(r).data@ == old(r).data@,
            match res {
                Ok(()) => code_at(old(r).data@, old(r).pos as int, size as int, opcode_max) == Ok::<
                    Seq<u8>,
                    RtErrV,
                >(final(self)@.code) && final(self)@ == (BeamV {
                    code: final(self)@.code,
                    ..old(self)@
                }),
                Err(e) => code_at(old(r).data@, old(r).pos as int, size as int, opcode_max)
                    == Err::<Seq<u8>, RtErrV>(e@) && final(self)@ == old(self)@,
            },
    {
        let at: usize = r.pos;
        if !r.has_more(20) {
            return Err(RtErr::ReadError(ReadError::PrematureEOF));
        }
        r.seek(at + 8);
        match r.read_u32be() {
            Ok(max) => {
                if max > opcode_max {
                    return Err(
                        RtErr::CodeLoadingFailed(
                            "BEAM file comes from a newer and unsupported OTP version".to_string(),
                        ),
                    );
                }
            },
            Err(e) => {
                return Err(RtErr::ReadError(e));
            },
        }
        if size < 20 {
            return Err(RtErr::ReadError(ReadError::PrematureEOF));
        }
        r.seek(at + 20);
        match r.read_bytes(size - 20) {
            Ok(code) => {
                self.code = code;
                Ok(())
            },
            Err(e) => Err(RtErr::ReadError(e)),
        }
    }

    /// How many entries a table has, where it is all there.
    fn read_table_len(r: &mut BinaryReader, size: usize) -> (res: Option<u32>)
        requires
            0 < size <= 24,
        ensures
            final(r).data@ == old(r).data@,
            match res {
                Some(n) => table_len(old(r).data@, old(r).pos as int, size as int) == Some(n as nat)
                    && final(r).pos == old(r).pos + 4 && final(r).pos + n * size <= old(
                    r,
                ).data@.len(),
                None => table_len(old(r).data@, old(r).pos as int, size as int) is None,
            },
    {
        let n: u32 = match r.read_u32be() {
            Ok(n) => n,
            Err(_) => {
                return None;
            },
        };
        let ghost d = r.data@;
        assert(0 <= n * size <= 0xffff_ffff * 24) by (nonlinear_arith)
            requires
                0 <= n <= 0xffff_ffff,
                0 < size <= 24,
        ;
        let bytes: u64 = n as u64 * size as u64;
        let left: u64 = (r.data.len() - r.pos) as u64;
        if bytes <= left {
            Some(n)
        } else {
            None
        }
    }

    /// A number whose place is known to be there.
    fn next_number(r: &mut BinaryReader) -> (n: usize)
        requires
            bin_reader::within(old(r).data@, old(r).pos as int, 4),
        ensures
            final(r).data@ == old(r).data@,
            final(r).pos == old(r).pos + 4,
            n == bin_reader::u32_at(old(r).data@, old(r).pos as int),
    {
        match r.read_u32be() {
            Ok(n) => n as usize,
            Err(_) => 0,
        }
    }

    /// Reads the table of imports.
    pub fn load_imports(&mut self, r: &mut BinaryReader) -> (res: Result<(), RtErr>)
        ensures
            final(r).data@ == old(r).data@,
            match res {
                Ok(()) => imports_at(old(r).data@, old(r).pos as int) matches Ok(i) && final(self)@
                    == (BeamV { imports: old(self)@.imports + i, ..old(self)@ }),
                Err(e) => imports_at(old(r).data@, old(r).pos as int) == Err::<
                    Seq<LtImport>,
                    RtErrV,
                >(e@) && final(self)@ == old(self)@,
            },
    {
        let ghost at = r.pos as int;
        let ghost d = r.data@;
        let ghost was = self@;
        let n: u32 = match Self::read_table_len(r, 12) {
            Some(n) => n,
            None => {
                return Err(RtErr::ReadError(ReadError::PrematureEOF));
            },
        };
        let ghost all = Seq::new(n as nat, |i: int| import_at(d, at + 4 + 12 * i));
        let mut k: u32 = 0;
        assert(was.imports + all.take(0) =~= was.imports);
        while k < n
            invariant
                k <= n,
                r.data@ == d,
                d == old(r).data@,
                at == old(r).pos,
                r.pos == at + 4 + 12 * k,
                at + 4 + 12 * n <= d.len(),
                all == Seq::new(n as nat, |i: int| import_at(d, at + 4 + 12 * i)),
                self@ == (BeamV { imports: was.imports + all.take(k as int), ..was }),
            decreases n - k,
        {
            let mod_atom_i: usize = Self::next_number(r);
            let fun_atom_i: usize = Self::next_number(r);
            let arity: usize = Self::next_number(r);
            let e = LtImport { mod_atom_i, fun_atom_i, arity };
            assert(e == all[k as int]);
            self.imports.push(e);
            assert(self@.imports =~= was.imports + all.take(k + 1));
            k += 1;
        }
        assert(all.take(n as int) =~= all);
        Ok(())
    }

    /// Reads a table of exports.
    pub fn load_exports(r: &mut BinaryReader) -> (res: Result<Vec<LtExport>, RtErr>)
        ensures
            final(r).data@ == old(r).data@,
            match res {
                Ok(v) => exports_at(old(r).data@, old(r).pos as int) == Ok::<
                    Seq<LtExport>,
                    RtErrV,
                >(v@),
                Err(e) => exports_at(old(r).data@, old(r).pos as int) == Err::<
                    Seq<LtExport>,
                    RtErrV,
                >(e@),
            },
    {
        let ghost at = r.pos as int;
        let ghost d = r.data@;
        let n: u32 = match Self::read_table_len(r, 12) {
            Some(n) => n,
            None => {
                return Err(RtErr::ReadError(ReadError::PrematureEOF));
            },
        };
        let ghost all = Seq::new(n as nat, |i: int| export_at(d, at + 4 + 12 * i));
        let mut out: Vec<LtExport> = Vec::new();
        let mut k: u32 = 0;
        while k < n
            invariant
                k <= n,
                r.data@ == d,
                d == old(r).data@,
                at == old(r).pos,
                r.pos == at + 4 + 12 * k,
                at + 4 + 12 * n <= d.len(),
                all == Seq::new(n as nat, |i: int| export_at(d, at + 4 + 12 * i)),
                out@ == all.take(k as int),
            decreases n - k,
        {
            let fun_atom_i: usize = Self::next_number(r);
            let arity: usize = Self::next_number(r);
            let label: usize = Self::next_number(r);
            let e = LtExport { fun_atom_i, arity, label };
            assert(e == all[k as int]);
            out.push(e);
            assert(out@ =~= all.take(k + 1));
            k += 1;
        }
        assert(all.take(n as int) =~= all);
        Ok(out)
    }

    /// Reads the table of functions without a name.
    pub fn load_fun_table(&mut self, r: &mut BinaryReader) -> (res: Result<(), RtErr>)
        ensures
            final(r).data@ == old(r).data@,
            match res {
                Ok(()) => funs_at(old(r).data@, old(r).pos as int) matches Ok(f) && final(self)@ == (
                BeamV { lambdas: old(self)@.lambdas + f, ..old(self)@ }),
                Err(e) => funs_at(old(r).data@, old(r).pos as int) == Err::<Seq<LtFun>, RtErrV>(e@)
                    && final(self)@ == old(self)@,
            },
    {
        let ghost at = r.pos as int;
        let ghost d = r.data@;
        let ghost was = self@;
        let n: u32 = match Self::read_table_len(r, 24) {
            Some(n) => n,
            None => {
                return Err(RtErr::ReadError(ReadError::PrematureEOF));
            },
        };
        let ghost all = Seq::new(n as nat, |i: int| fun_at(d, at + 4 + 24 * i));
        let mut k: u32 = 0;
        assert(was.lambdas + all.take(0) =~= was.lambdas);
        while k < n
            invariant
                k <= n,
                r.data@ == d,
                d == old(r).data@,
                at == old(r).pos,
                r.pos == at + 4 + 24 * k,
                at + 4 + 24 * n <= d.len(),
                all == Seq::new(n as nat, |i: int| fun_at(d, at + 4 + 24 * i)),
                self@ == (BeamV { lambdas: was.lambdas + all.take(k as int), ..was }),
            decreases n - k,
        {
            let fun_atom_i: usize = Self::next_number(r);
            let arity: usize = Self::next_number(r);
            let code_pos: usize = Self::next_number(r);
            let index: usize = Self::next_number(r);
            let nfrozen: usize = Self::next_number(r);
            let ouniq: usize = Self::next_number(r);
            let e = LtFun { fun_atom_i, arity, code_pos, index, nfrozen, ouniq };
            assert(e == all[k as int]);
            self.lambdas.push(e);
            assert(self@.lambdas =~= was.lambdas + all.take(k + 1));
            k += 1;
        }
        assert(all.take(n as int) =~= all);
        Ok(())
    }

    /// Reads the numbers in front of the line table. Nothing of the table is kept.
    fn load_line_info(r: &mut BinaryReader) -> (res: Result<(), RtErr>)
        ensures
            final(r).data@ == old(r).data@,
            match res {
                Ok(()) => bin_reader::within(old(r).data@, old(r).pos as int, 20),
                Err(e) => !bin_reader::within(old(r).data@, old(r).pos as int, 20) && e@
                    == RtErrV::ReadError(ReadError::PrematureEOF),
            },
    {
        if r.has_more(20) {
            Ok(())
        } else {
            Err(RtErr::ReadError(ReadError::PrematureEOF))
        }
    }

    /// Reads the table of literals.
    pub fn load_literals(&mut self, r: &mut BinaryReader, size: usize) -> (res: Result<(), RtErr>)
        ensures
            final(r).data@ == old(r).data@,
            match res {
                Ok(()) => with_literals(
                    old(self)@,
                    old(r).data@,
                    old(r).pos as int,
                    size as int,
                ) == Ok::<BeamV, RtErrV>(final(self)@),
                Err(e) => with_literals(
                    old(self)@,
                    old(r).data@,
                    old(r).pos as int,
                    size as int,
                ) == Err::<BeamV, RtErrV>(e@) && final(self)@ == old(self)@,
            },
    {
        let full: u32 = match r.read_u32be() {
            Ok(n) => n,
            Err(e) => {
                return Err(RtErr::ReadError(e));
            },
        };
        if size < 4 {
            return Err(RtErr::ReadError(ReadError::PrematureEOF));
        }
        let raw: Vec<u8> = match r.read_bytes(size - 4) {
            Ok(b) => b,
            Err(e) => {
                return Err(RtErr::ReadError(e));
            },
        };
        if full == 0 {
            self.decode_literals(raw)
        } else {
            self.packed_literals = Some((full, raw));
            Ok(())
        }
    }

    /// Takes up the literals, now that they are no longer compressed. They must be as many bytes
    /// as was said.
    pub fn unpack_literals(&mut self, inflated: Vec<u8>) -> (res: Result<(), RtErr>)
        requires
            old(self)@.packed is Some,
        ensures
            ({
                let said = (old(self)@.packed->0).0;
                match res {
                    Ok(()) => inflated@.len() == said && adding_literals(old(self)@, inflated@)
                        == Ok::<BeamV, RtErrV>(
                        (BeamV { packed: old(self)@.packed, ..final(self)@ }),
                    ) && final(self)@.packed is None,
                    Err(e) => final(self)@ == old(self)@ && if inflated@.len() != said {
                        e@ == loading_failed("LitT inflate failed"@)
                    } else {
                        adding_literals(old(self)@, inflated@) == Err::<BeamV, RtErrV>(e@)
                    },
                }
            }),
    {
        let said: u32 = match &self.packed_literals {
            Some(p) => p.0,
            None => 0,
        };
        if inflated.len() != said as usize {
            return Err(load_error("LitT inflate failed"));
        }
        match self.decode_literals(inflated) {
            Ok(()) => {
                self.packed_literals = None;
                Ok(())
            },
            Err(e) => Err(e),
        }
    }

    /// Takes literals apart.
    pub fn decode_literals(&mut self, data: Vec<u8>) -> (res: Result<(), RtErr>)
        ensures
            match res {
                Ok(()) => adding_literals(old(self)@, data@) == Ok::<BeamV, RtErrV>(final(self)@),
                Err(e) => adding_literals(old(self)@, data@) == Err::<BeamV, RtErrV>(e@)
                    && final(self)@ == old(self)@,
            },
    {
        let ghost was = self@;
        let before: usize = self.lit_bins.len();
        let ghost had = self.lit_bins@;
        match Self::read_literals(data, &mut self.lit_bins) {
            Ok(found) => {
                let mut found: Vec<Term> = found;
                let ghost all = found@;
                self.lit_tab.append(&mut found);
                assert(self@.literals =~= was.literals + term::terms_view(all));
                Ok(())
            },
            Err(e) => {
                self.lit_bins.truncate(before);
                assert(self.lit_bins@ =~= had);
                Err(e)
            },
        }
    }

    fn read_literals(data: Vec<u8>, bins: &mut Vec<Vec<u8>>) -> (res: Result<Vec<Term>, RtErr>)
        ensures
            (match res {
                Ok(v) => Ok::<(Seq<TermV>, Seq<Seq<u8>>), RtErrV>(
                    (term::terms_view(v@), runtime::bins_view(final(bins)@)),
                ),
                Err(e) => Err(e@),
            }) == literals_of(data@, runtime::bins_view(old(bins)@)),
            old(bins)@.is_prefix_of(final(bins)@),
    {
        let ghost d = data@;
        let ghost goal = literals_of(d, runtime::bins_view(bins@));
        let mut found: Vec<Term> = Vec::new();
        let mut r: BinaryReader = BinaryReader::from_bytes(data);
        let n: u32 = match r.read_u32be() {
            Ok(n) => n,
            Err(e) => {
                return Err(RtErr::ReadError(e));
            },
        };
        let mut i: u32 = 0;
        proof {
            assert(term::terms_view(found@) =~= Seq::<TermV>::empty());
            if goal is Ok {
                assert(term::terms_view(found@) + (goal->Ok_0).0 =~= (goal->Ok_0).0);
            }
        }
        while i < n
            invariant
                i <= n,
                r.data@ == d,
                d == data@,
                goal == literals_of(d, runtime::bins_view(old(bins)@)),
                old(bins)@.is_prefix_of(bins@),
                match literals_from(d, r.pos as int, runtime::bins_view(bins@), (n - i) as nat) {
                    Ok((l, b)) => goal == Ok::<(Seq<TermV>, Seq<Seq<u8>>), RtErrV>(
                        (term::terms_view(found@) + l, b),
                    ),
                    Err(e) => goal == Err::<(Seq<TermV>, Seq<Seq<u8>>), RtErrV>(e),
                },
            decreases n - i,
        {
            let ghost sofar = found@;
            match r.read_u32be() {
                Ok(_) => {},
                Err(e) => {
                    return Err(RtErr::ReadError(e));
                },
            }
            let t: Term = match ext_term_format::decode(&mut r, bins) {
                Ok(t) => t,
                Err(e) => {
                    return Err(e);
                },
            };
            let ghost tv = t@;
            found.push(t);
            proof {
                assert(term::terms_view(found@) =~= term::terms_view(sofar).push(tv));
                let rest = literals_from(
                    d,
                    r.pos as int,
                    runtime::bins_view(bins@),
                    (n - i - 1) as nat,
                );
                if rest is Ok {
                    let more = (rest->Ok_0).0;
                    assert(term::terms_view(sofar) + (seq![tv] + more) =~= term::terms_view(
                        sofar,
                    ).push(tv) + more);
                }
            }
            i += 1;
        }
        assert(term::terms_view(found@) + Seq::<TermV>::empty() =~= term::terms_view(found@));
        Ok(found)
    }
}

proof fn lemma_no_more(b: BeamV, d: Seq<u8>, at: int, opcode_max: u32)
    requires
        at + 4 > d.len(),
    ensures
        with_chunks(b, d, at, opcode_max) == Ok::<BeamV, RtErrV>(b),
{
}

/// Every length below 2048 has a compact form, of one byte below 16 and of two from there on.
pub proof fn law_compact_lengths(d: Seq<u8>, at: int, n: nat)
    requires
        n < 2048,
        bin_reader::within(d, at, 2),
        if n < 16 {
            d[at] == 16 * n
        } else {
            d[at] == (n / 256) * 32 + 8 && d[at + 1] == n % 256
        },
    ensures
        compact_length(d, at) == Ok::<(nat, int), RtErrV>(
            (
                n,
                if n < 16 {
                    at + 1
                } else {
                    at + 2
                },
            ),
        ),
{
}

/// A chunk of a kind that is passed over changes nothing of the module.
pub proof fn law_passed_over_changes_nothing(
    b: BeamV,
    d: Seq<u8>,
    name: Seq<char>,
    at: int,
    size: int,
    opcode_max: u32,
)
    requires
        passed_over(name),
    ensures
        with_chunk(b, d, name, at, size, opcode_max) == Ok::<BeamV, RtErrV>(b),
{
    reveal_strlit("Attr");
    reveal_strlit("CInf");
    reveal_strlit("Dbgi");
    reveal_strlit("Docs");
    reveal_strlit("Meta");
    reveal_strlit("Type");
    reveal_strlit("StrT");
    reveal_strlit("Abst");
    reveal_strlit("Atom");
    reveal_strlit("AtU8");
    reveal_strlit("Code");
    reveal_strlit("ExpT");
    reveal_strlit("FunT");
    reveal_strlit("ImpT");
    reveal_strlit("Line");
    reveal_strlit("LitT");
    reveal_strlit("LocT");
    assert(name[0] == "Attr"@[0] ==> name[1] == "Attr"@[1] || name[1] == "Abst"@[1]);
    assert("Atom"@[2] == 'o' && "AtU8"@[2] == 'U' && "Attr"@[2] == 't' && "Abst"@[2] == 's');
    assert("Code"@[1] == 'o' && "CInf"@[1] == 'I');
    assert("ExpT"@[0] == 'E' && "FunT"@[0] == 'F' && "ImpT"@[0] == 'I' && "Line"@[0] == 'L'
        && "LitT"@[0] == 'L' && "LocT"@[0] == 'L');
    assert("Dbgi"@[0] == 'D' && "Docs"@[0] == 'D' && "Meta"@[0] == 'M' && "Type"@[0] == 'T'
        && "StrT"@[0] == 'S');
}

// ---------------------------------------------------------------------------
// What was written is what is loaded
// ---------------------------------------------------------------------------
/// A number as four bytes, the highest first.
pub open spec fn be32(n: nat) -> Seq<u8> {
    seq![
        (n / 0x100_0000 % 256) as u8,
        (n / 0x1_0000 % 256) as u8,
        (n / 0x100 % 256) as u8,
        (n % 256) as u8,
    ]
}

/// These bytes stand at a place.
pub open spec fn holds(d: Seq<u8>, at: int, b: Seq<u8>) -> bool {
    0 <= at && at + b.len() <= d.len() && d.subrange(at, at + b.len()) == b
}

/// A table: how many rows there are, and the rows one behind the other.
#[verifier::opaque]
pub open spec fn table(rows: Seq<Seq<u8>>) -> Seq<u8> {
    be32(rows.len()) + rows.flatten()
}

/// An import as bytes.
pub open spec fn import_row(e: LtImport) -> Seq<u8> {
    be32(e.mod_atom_i as nat) + be32(e.fun_atom_i as nat) + be32(e.arity as nat)
}

/// An export as bytes.
pub open spec fn export_row(e: LtExport) -> Seq<u8> {
    be32(e.fun_atom_i as nat) + be32(e.arity as nat) + be32(e.label as nat)
}

/// A function without a name as bytes.
pub open spec fn fun_row(e: LtFun) -> Seq<u8> {
    be32(e.fun_atom_i as nat) + be32(e.arity as nat) + be32(e.code_pos as nat) + be32(
        e.index as nat,
    ) + be32(e.nfrozen as nat) + be32(e.ouniq as nat)
}

/// The number fits in four bytes.
pub open spec fn fits(n: usize) -> bool {
    n <= 0xffff_ffff
}

/// A number that was written is the number that is read.
pub proof fn law_number_comes_back(d: Seq<u8>, at: int, n: nat)
    requires
        n <= 0xffff_ffff,
        holds(d, at, be32(n)),
    ensures
        bin_reader::within(d, at, 4),
        bin_reader::u32_at(d, at) == n,
{
    let b = be32(n);
    assert(d.subrange(at, at + 4)[0] == b[0]);
    assert(d.subrange(at, at + 4)[1] == b[1]);
    assert(d.subrange(at, at + 4)[2] == b[2]);
    assert(d.subrange(at, at + 4)[3] == b[3]);
    assert(n == (n / 0x100_0000 % 256) * 0x100_0000 + (n / 0x1_0000 % 256) * 0x1_0000 + (n / 0x100
        % 256) * 0x100 + n % 256);
}

proof fn lemma_part(d: Seq<u8>, at: int, b: Seq<u8>, i: int, c: Seq<u8>)
    requires
        holds(d, at, b),
        0 <= i,
        i + c.len() <= b.len(),
        b.subrange(i, i + c.len()) == c,
    ensures
        holds(d, at + i, c),
{
    assert(d.subrange(at + i, at + i + c.len()) =~= d.subrange(at, at + b.len()).subrange(
        i,
        i + c.len(),
    ));
}

proof fn lemma_rows(rows: Seq<Seq<u8>>, k: nat, i: int)
    requires
        forall|j: int| 0 <= j < rows.len() ==> (#[trigger] rows[j]).len() == k,
        0 <= i < rows.len(),
    ensures
        rows.flatten().len() == k * rows.len(),
        0 <= k * i,
        k * i + k <= rows.flatten().len(),
        rows.flatten().subrange(k * i, k * i + k) == rows[i],
    decreases rows.len(),
{
    let more = rows.drop_first();
    assert forall|j: int| 0 <= j < more.len() implies (#[trigger] more[j]).len() == k by {
        assert(more[j] == rows[j + 1]);
    }
    lemma_rows_len(rows, k);
    lemma_rows_len(more, k);
    let all = rows.flatten();
    assert(all == rows.first() + more.flatten());
    assert(rows[0].len() == k);
    assert(k * i + k <= k * rows.len() && 0 <= k * i) by (nonlinear_arith)
        requires
            0 <= i < rows.len(),
            0 <= k,
    ;
    if i == 0 {
        assert(k * i == 0) by (nonlinear_arith)
            requires
                i == 0,
        ;
        assert(all.subrange(0, k as int) =~= rows[0]);
    } else {
        lemma_rows(more, k, i - 1);
        assert(k * i == k * (i - 1) + k) by (nonlinear_arith);
        assert(all.subrange(k * i, k * i + k) =~= more.flatten().subrange(
            k * (i - 1),
            k * (i - 1) + k,
        ));
        assert(more[i - 1] == rows[i]);
    }
}

proof fn lemma_rows_len(rows: Seq<Seq<u8>>, k: nat)
    requires
        forall|j: int| 0 <= j < rows.len() ==> (#[trigger] rows[j]).len() == k,
    ensures
        rows.flatten().len() == k * rows.len(),
    decreases rows.len(),
{
    if rows.len() > 0 {
        let more = rows.drop_first();
        assert forall|j: int| 0 <= j < more.len() implies (#[trigger] more[j]).len() == k by {
            assert(more[j] == rows[j + 1]);
        }
        lemma_rows_len(more, k);
        assert(rows[0].len() == k);
        assert(k * rows.len() == k * more.len() + k) by (nonlinear_arith)
            requires
                rows.len() == more.len() + 1,
        ;
    } else {
        assert(k * rows.len() == 0) by (nonlinear_arith)
            requires
                rows.len() == 0,
        ;
    }
}

proof fn lemma_table(d: Seq<u8>, at: int, rows: Seq<Seq<u8>>, k: nat)
    requires
        rows.len() <= 0xffff_ffff,
        forall|j: int| 0 <= j < rows.len() ==> (#[trigger] rows[j]).len() == k,
        holds(d, at, table(rows)),
    ensures
        table_len(d, at, k as int) == Some(rows.len()),
        forall|j: int| 0 <= j < rows.len() ==> holds(d, at + 4 + k * j, #[trigger] rows[j]),
{
    reveal(table);
    let t = table(rows);
    assert(t.subrange(0, 4) =~= be32(rows.len()));
    lemma_part(d, at, t, 0, be32(rows.len()));
    law_number_comes_back(d, at, rows.len());
    lemma_rows_len(rows, k);
    assert(k * rows.len() == rows.len() * k) by (nonlinear_arith);
    assert forall|j: int| 0 <= j < rows.len() implies holds(d, at + 4 + k * j, #[trigger] rows[j]) by {
        lemma_rows(rows, k, j);
        assert(t.subrange(4 + k * j, 4 + k * j + k) =~= rows.flatten().subrange(k * j, k * j + k));
        lemma_part(d, at, t, 4 + k * j, rows[j]);
    }
}

proof fn lemma_word(d: Seq<u8>, at: int, row: Seq<u8>, i: int, n: usize)
    requires
        holds(d, at, row),
        0 <= i,
        i + 4 <= row.len(),
        row.subrange(i, i + 4) == be32(n as nat),
        fits(n),
    ensures
        bin_reader::u32_at(d, at + i) == n,
{
    lemma_part(d, at, row, i, be32(n as nat));
    law_number_comes_back(d, at + i, n as nat);
}

/// A table of imports that was written is loaded as it was, entry for entry and in its order: an
/// import is found by the index under which it was written.
pub proof fn law_imports_come_back(d: Seq<u8>, at: int, imports: Seq<LtImport>)
    requires
        imports.len() <= 0xffff_ffff,
        forall|i: int|
            0 <= i < imports.len() ==> fits((#[trigger] imports[i]).mod_atom_i) && fits(
                imports[i].fun_atom_i,
            ) && fits(imports[i].arity),
        holds(d, at, table(imports.map_values(|e: LtImport| import_row(e)))),
    ensures
        imports_at(d, at) == Ok::<Seq<LtImport>, RtErrV>(imports),
{
    let rows = imports.map_values(|e: LtImport| import_row(e));
    assert forall|j: int| 0 <= j < rows.len() implies (#[trigger] rows[j]).len() == 12 by {
        assert(rows[j] == import_row(imports[j]));
    }
    lemma_table(d, at, rows, 12);
    let got = imports_at(d, at)->Ok_0;
    assert forall|i: int| 0 <= i < imports.len() implies got[i] == imports[i] by {
        let e = imports[i];
        let row = import_row(e);
        assert(rows[i] == row);
        assert(row.subrange(0, 4) =~= be32(e.mod_atom_i as nat));
        assert(row.subrange(4, 8) =~= be32(e.fun_atom_i as nat));
        assert(row.subrange(8, 12) =~= be32(e.arity as nat));
        let p = at + 4 + 12 * i;
        lemma_word(d, p, row, 0, e.mod_atom_i);
        lemma_word(d, p, row, 4, e.fun_atom_i);
        lemma_word(d, p, row, 8, e.arity);
    }
    assert(got =~= imports);
}

/// A table of exports that was written is loaded as it was, entry for entry and in its order.
pub proof fn law_exports_come_back(d: Seq<u8>, at: int, exports: Seq<LtExport>)
    requires
        exports.len() <= 0xffff_ffff,
        forall|i: int|
            0 <= i < exports.len() ==> fits((#[trigger] exports[i]).fun_atom_i) && fits(
                exports[i].arity,
            ) && fits(exports[i].label),
        holds(d, at, table(exports.map_values(|e: LtExport| export_row(e)))),
    ensures
        exports_at(d, at) == Ok::<Seq<LtExport>, RtErrV>(exports),
{
    let rows = exports.map_values(|e: LtExport| export_row(e));
    assert forall|j: int| 0 <= j < rows.len() implies (#[trigger] rows[j]).len() == 12 by {
        assert(rows[j] == export_row(exports[j]));
    }
    lemma_table(d, at, rows, 12);
    let got = exports_at(d, at)->Ok_0;
    assert forall|i: int| 0 <= i < exports.len() implies got[i] == exports[i] by {
        let e = exports[i];
        let row = export_row(e);
        assert(rows[i] == row);
        assert(row.subrange(0, 4) =~= be32(e.fun_atom_i as nat));
        assert(row.subrange(4, 8) =~= be32(e.arity as nat));
        assert(row.subrange(8, 12) =~= be32(e.label as nat));
        let p = at + 4 + 12 * i;
        lemma_word(d, p, row, 0, e.fun_atom_i);
        lemma_word(d, p, row, 4, e.arity);
        lemma_word(d, p, row, 8, e.label);
    }
    assert(got =~= exports);
}

/// A table of functions without a name that was written is loaded as it was, entry for entry and in
/// its order.
pub proof fn law_funs_come_back(d: Seq<u8>, at: int, funs: Seq<LtFun>)
    requires
        funs.len() <= 0xffff_ffff,
        forall|i: int|
            0 <= i < funs.len() ==> fits((#[trigger] funs[i]).fun_atom_i) && fits(funs[i].arity)
                && fits(funs[i].code_pos) && fits(funs[i].index) && fits(funs[i].nfrozen) && fits(
                funs[i].ouniq,
            ),
        holds(d, at, table(funs.map_values(|e: LtFun| fun_row(e)))),
    ensures
        funs_at(d, at) == Ok::<Seq<LtFun>, RtErrV>(funs),
{
    let rows = funs.map_values(|e: LtFun| fun_row(e));
    assert forall|j: int| 0 <= j < rows.len() implies (#[trigger] rows[j]).len() == 24 by {
        assert(rows[j] == fun_row(funs[j]));
    }
    lemma_table(d, at, rows, 24);
    let got = funs_at(d, at)->Ok_0;
    assert forall|i: int| 0 <= i < funs.len() implies got[i] == funs[i] by {
        let e = funs[i];
        let row = fun_row(e);
        assert(rows[i] == row);
        assert(row.subrange(0, 4) =~= be32(e.fun_atom_i as nat));
        assert(row.subrange(4, 8) =~= be32(e.arity as nat));
        assert(row.subrange(8, 12) =~= be32(e.code_pos as nat));
        assert(row.subrange(12, 16) =~= be32(e.index as nat));
        assert(row.subrange(16, 20) =~= be32(e.nfrozen as nat));
        assert(row.subrange(20, 24) =~= be32(e.ouniq as nat));
        let p = at + 4 + 24 * i;
        lemma_word(d, p, row, 0, e.fun_atom_i);
        lemma_word(d, p, row, 4, e.arity);
        lemma_word(d, p, row, 8, e.code_pos);
        lemma_word(d, p, row, 12, e.index);
        lemma_word(d, p, row, 16, e.nfrozen);
        lemma_word(d, p, row, 20, e.ouniq);
    }
    assert(got =~= funs);
}

/// The length of an atom in front of it: one byte, or its compact form of one byte below 16 and of
/// two from there on.
pub open spec fn length_bytes(n: nat, compact: bool) -> Seq<u8> {
    if !compact {
        seq![n as u8]
    } else if n < 16 {
        seq![(16 * n) as u8]
    } else {
        seq![((n / 256) * 32 + 8) as u8, (n % 256) as u8]
    }
}

/// The text of an atom as bytes, in UTF-8 or in Latin-1.
pub open spec fn atom_text(a: Seq<char>, wide: bool) -> Seq<u8> {
    if wide {
        utf8::encode_utf8(a)
    } else {
        a.map_values(|c: char| c as u8)
    }
}

/// An atom as bytes: its length and its text.
pub open spec fn atom_row(a: Seq<char>, compact: bool, wide: bool) -> Seq<u8> {
    length_bytes(atom_text(a, wide).len(), compact) + atom_text(a, wide)
}

/// The atom can be written so.
pub open spec fn writable(a: Seq<char>, compact: bool, wide: bool) -> bool {
    &&& atom_text(a, wide).len() <= if compact {
        2047
    } else {
        255nat
    }
    &&& !wide ==> forall|i: int| 0 <= i < a.len() ==> (a[i] as u8) as char == #[trigger] a[i]
}

proof fn lemma_atom(d: Seq<u8>, at: int, a: Seq<char>, compact: bool, wide: bool)
    requires
        writable(a, compact, wide),
        holds(d, at, atom_row(a, compact, wide)),
    ensures
        atom_length(d, at, compact) matches Ok((len, begin)) && len == atom_text(a, wide).len()
            && begin + len == at + atom_row(a, compact, wide).len() && text_at(d, begin, len, wide)
            == Ok::<Seq<char>, ReadError>(a),
{
    let text = atom_text(a, wide);
    let n = text.len();
    let front = length_bytes(n, compact);
    let row = atom_row(a, compact, wide);
    assert(row.subrange(0, front.len() as int) =~= front);
    assert(row.subrange(front.len() as int, row.len() as int) =~= text);
    lemma_part(d, at, row, 0, front);
    lemma_part(d, at, row, front.len() as int, text);
    assert(d[at] == d.subrange(at, at + front.len())[0]);
    if compact && n >= 16 {
        assert(d[at + 1] == d.subrange(at, at + front.len())[1]);
    }
    let begin = at + front.len();
    if wide {
        utf8::encode_utf8_valid_utf8(a);
        utf8::encode_utf8_decode_utf8(a);
    } else {
        let got = bin_reader::latin1(text);
        assert forall|i: int| 0 <= i < a.len() implies got[i] == a[i] by {
            assert(text[i] == a[i] as u8);
            assert((a[i] as u8) as char == a[i]);
        }
        assert(got =~= a);
    }
}

proof fn lemma_atoms(
    d: Seq<u8>,
    at: int,
    atoms: Seq<Seq<char>>,
    i: nat,
    compact: bool,
    wide: bool,
)
    requires
        forall|j: int| 0 <= j < atoms.len() ==> writable(#[trigger] atoms[j], compact, wide),
        holds(
            d,
            at,
            atoms.map_values(|a: Seq<char>| atom_row(a, compact, wide)).flatten(),
        ),
    ensures
        atoms_at(d, at, i, i + atoms.len(), compact, wide).0 == atoms,
        atoms_at(d, at, i, i + atoms.len(), compact, wide).1 is Ok,
    decreases atoms.len(),
{
    let f = |a: Seq<char>| atom_row(a, compact, wide);
    let rows = atoms.map_values(f);
    if atoms.len() > 0 {
        let a = atoms[0];
        let more = atoms.drop_first();
        let all = rows.flatten();
        assert(rows.drop_first() =~= more.map_values(f));
        assert(all == rows.first() + rows.drop_first().flatten());
        assert(rows.first() == atom_row(a, compact, wide));
        let k = rows.first().len() as int;
        assert(all.subrange(0, k) =~= rows.first());
        assert(all.subrange(k, all.len() as int) =~= more.map_values(f).flatten());
        lemma_part(d, at, all, 0, rows.first());
        lemma_part(d, at, all, k, more.map_values(f).flatten());
        lemma_atom(d, at, a, compact, wide);
        assert forall|j: int| 0 <= j < more.len() implies writable(#[trigger] more[j], compact, wide) by {
            assert(more[j] == atoms[j + 1]);
        }
        lemma_atoms(d, at + k, more, i + 1, compact, wide);
        assert(seq![a] + more =~= atoms);
    } else {
        assert(atoms =~= Seq::<Seq<char>>::empty());
    }
}

/// The atoms of a table are loaded as they were written, all of them and in their order, whichever
/// form the table has: in Latin-1, in UTF-8, or in UTF-8 with compact lengths, which a count below
/// zero announces.
pub proof fn law_atoms_come_back(d: Seq<u8>, at: int, atoms: Seq<Seq<char>>, compact: bool, wide: bool)
    requires
        wide || !compact,
        atoms.len() < 0x8000_0000,
        compact ==> atoms.len() > 0,
        forall|j: int| 0 <= j < atoms.len() ==> writable(#[trigger] atoms[j], compact, wide),
        holds(
            d,
            at,
            be32(
                if compact {
                    (0x1_0000_0000 - atoms.len()) as nat
                } else {
                    atoms.len()
                },
            ) + atoms.map_values(|a: Seq<char>| atom_row(a, compact, wide)).flatten(),
        ),
    ensures
        wide ==> utf8_atoms(d, at).0 == atoms && utf8_atoms(d, at).1 is Ok,
        !wide ==> latin1_atoms(d, at).0 == atoms && latin1_atoms(d, at).1 is Ok,
{
    let n = if compact {
        (0x1_0000_0000 - atoms.len()) as nat
    } else {
        atoms.len()
    };
    let rows = atoms.map_values(|a: Seq<char>| atom_row(a, compact, wide)).flatten();
    let all = be32(n) + rows;
    assert(all.subrange(0, 4) =~= be32(n));
    assert(all.subrange(4, all.len() as int) =~= rows);
    lemma_part(d, at, all, 0, be32(n));
    lemma_part(d, at, all, 4, rows);
    law_number_comes_back(d, at, n);
    lemma_atoms(d, at + 4, atoms, 0, compact, wide);
}

/// The code is loaded as it was written: it is all that stands behind the five numbers in front of
/// it, unless it was made for a machine with higher opcodes than this one has.
pub proof fn law_code_comes_back(
    d: Seq<u8>,
    at: int,
    numbers: Seq<u8>,
    max: nat,
    code: Seq<u8>,
    opcode_max: u32,
)
    requires
        numbers.len() == 20,
        max <= 0xffff_ffff,
        numbers.subrange(8, 12) == be32(max),
        holds(d, at, numbers + code),
    ensures
        code_at(d, at, 20 + code.len() as int, opcode_max) is Ok <==> max <= opcode_max,
        max <= opcode_max ==> code_at(d, at, 20 + code.len() as int, opcode_max) == Ok::<Seq<u8>, RtErrV>(
            code,
        ),
{
    let all = numbers + code;
    assert(all.subrange(8, 12) =~= numbers.subrange(8, 12));
    assert(all.subrange(20, all.len() as int) =~= code);
    lemma_part(d, at, all, 8, be32(max));
    lemma_part(d, at, all, 20, code);
    law_number_comes_back(d, at + 8, max);
}

/// A chunk: its name, the size of its content, the content, and zeros up to a whole word.
#[verifier::opaque]
pub open spec fn chunk(name: Seq<u8>, content: Seq<u8>) -> Seq<u8> {
    name + be32(content.len()) + content + Seq::new(
        ((4 - content.len() % 4) % 4) as nat,
        |i: int| 0u8,
    )
}

/// Chunks are loaded one after the other: what follows a chunk begins right behind it, and is
/// loaded on top of what the chunk gave.
pub proof fn law_chunk_by_chunk(
    b: BeamV,
    d: Seq<u8>,
    at: int,
    name: Seq<u8>,
    content: Seq<u8>,
    opcode_max: u32,
)
    requires
        name.len() == 4,
        content.len() <= 0xffff_ffff,
        holds(d, at, chunk(name, content)),
    ensures
        holds(d, at + 8, content),
        ({
            let one = with_chunk(
                b,
                d,
                bin_reader::latin1(name),
                at + 8,
                content.len() as int,
                opcode_max,
            );
            &&& one matches Ok(b1) ==> with_chunks(b, d, at, opcode_max) == with_chunks(
                b1,
                d,
                at + chunk(name, content).len(),
                opcode_max,
            )
            &&& one matches Err(e) ==> with_chunks(b, d, at, opcode_max) == Err::<BeamV, RtErrV>(e)
        }),
{
    lemma_chunk_parts(d, at, name, content);
    lemma_chunk_step(b, d, at, content.len() as int, opcode_max);
}

proof fn lemma_chunk_parts(d: Seq<u8>, at: int, name: Seq<u8>, content: Seq<u8>)
    requires
        name.len() == 4,
        content.len() <= 0xffff_ffff,
        holds(d, at, chunk(name, content)),
    ensures
        holds(d, at, name),
        holds(d, at + 8, content),
        bin_reader::within(d, at + 4, 4),
        bin_reader::u32_at(d, at + 4) == content.len(),
        chunk(name, content).len() == 8 + aligned(content.len() as int),
{
    reveal(chunk);
    let all = chunk(name, content);
    assert(all.subrange(0, 4) =~= name);
    assert(all.subrange(4, 8) =~= be32(content.len()));
    assert(all.subrange(8, 8 + content.len() as int) =~= content);
    lemma_part(d, at, all, 0, name);
    lemma_part(d, at, all, 4, be32(content.len()));
    lemma_part(d, at, all, 8, content);
    law_number_comes_back(d, at + 4, content.len());
}

proof fn lemma_chunk_len(name: Seq<u8>, content: Seq<u8>)
    ensures
        content.len() <= chunk(name, content).len(),
{
    reveal(chunk);
}

proof fn lemma_chunk_step(b: BeamV, d: Seq<u8>, at: int, size: int, opcode_max: u32)
    requires
        bin_reader::within(d, at, 8),
        bin_reader::u32_at(d, at + 4) == size,
    ensures
        with_chunks(b, d, at, opcode_max) == match with_chunk(
            b,
            d,
            bin_reader::latin1(d.subrange(at, at + 4)),
            at + 8,
            size,
            opcode_max,
        ) {
            Ok(b1) => with_chunks(b1, d, at + 8 + aligned(size), opcode_max),
            Err(e) => Err(e),
        },
{
}

/// The names of chunks as bytes.
proof fn lemma_chunk_names()
    ensures
        bin_reader::latin1(seq![65u8, 116, 85, 56]) == "AtU8"@,
        bin_reader::latin1(seq![65u8, 116, 111, 109]) == "Atom"@,
        bin_reader::latin1(seq![67u8, 111, 100, 101]) == "Code"@,
        bin_reader::latin1(seq![69u8, 120, 112, 84]) == "ExpT"@,
        bin_reader::latin1(seq![70u8, 117, 110, 84]) == "FunT"@,
        bin_reader::latin1(seq![73u8, 109, 112, 84]) == "ImpT"@,
        bin_reader::latin1(seq![76u8, 111, 99, 84]) == "LocT"@,
        "AtU8"@ != "Atom"@,
        "Code"@ != "Atom"@ && "Code"@ != "AtU8"@,
        "ExpT"@ != "Atom"@ && "ExpT"@ != "AtU8"@ && "ExpT"@ != "Code"@,
        "FunT"@ != "Atom"@ && "FunT"@ != "AtU8"@ && "FunT"@ != "Code"@ && "FunT"@ != "ExpT"@,
        "ImpT"@ != "Atom"@ && "ImpT"@ != "AtU8"@ && "ImpT"@ != "Code"@ && "ImpT"@ != "ExpT"@
            && "ImpT"@ != "FunT"@,
        "LocT"@ != "Atom"@ && "LocT"@ != "AtU8"@ && "LocT"@ != "Code"@ && "LocT"@ != "ExpT"@
            && "LocT"@ != "FunT"@ && "LocT"@ != "ImpT"@ && "LocT"@ != "Line"@ && "LocT"@ != "LitT"@,
{
    reveal_strlit("Atom");
    reveal_strlit("AtU8");
    reveal_strlit("Code");
    reveal_strlit("ExpT");
    reveal_strlit("FunT");
    reveal_strlit("ImpT");
    reveal_strlit("Line");
    reveal_strlit("LitT");
    reveal_strlit("LocT");
    assert(bin_reader::latin1(seq![65u8, 116, 85, 56]) =~= "AtU8"@);
    assert(bin_reader::latin1(seq![65u8, 116, 111, 109]) =~= "Atom"@);
    assert(bin_reader::latin1(seq![67u8, 111, 100, 101]) =~= "Code"@);
    assert(bin_reader::latin1(seq![69u8, 120, 112, 84]) =~= "ExpT"@);
    assert(bin_reader::latin1(seq![70u8, 117, 110, 84]) =~= "FunT"@);
    assert(bin_reader::latin1(seq![73u8, 109, 112, 84]) =~= "ImpT"@);
    assert(bin_reader::latin1(seq![76u8, 111, 99, 84]) =~= "LocT"@);
    assert("Atom"@[2] == 'o' && "AtU8"@[2] == 'U');
    assert("Atom"@[0] == 'A' && "AtU8"@[0] == 'A' && "Code"@[0] == 'C' && "ExpT"@[0] == 'E'
        && "FunT"@[0] == 'F' && "ImpT"@[0] == 'I' && "LocT"@[0] == 'L');
    assert("LocT"@[1] == 'o' && "Line"@[1] == 'i' && "LitT"@[1] == 'i');
}

/// The entries fit in a table.
pub open spec fn imports_fit(v: Seq<LtImport>) -> bool {
    v.len() <= 0xffff_ffff && forall|i: int|
        0 <= i < v.len() ==> fits((#[trigger] v[i]).mod_atom_i) && fits(v[i].fun_atom_i) && fits(
            v[i].arity,
        )
}

/// The entries fit in a table.
pub open spec fn exports_fit(v: Seq<LtExport>) -> bool {
    v.len() <= 0xffff_ffff && forall|i: int|
        0 <= i < v.len() ==> fits((#[trigger] v[i]).fun_atom_i) && fits(v[i].arity) && fits(
            v[i].label,
        )
}

/// The entries fit in a table.
pub open spec fn funs_fit(v: Seq<LtFun>) -> bool {
    v.len() <= 0xffff_ffff && forall|i: int|
        0 <= i < v.len() ==> fits((#[trigger] v[i]).fun_atom_i) && fits(v[i].arity) && fits(
            v[i].code_pos,
        ) && fits(v[i].index) && fits(v[i].nfrozen) && fits(v[i].ouniq)
}

/// The atoms fit in a table.
pub open spec fn atoms_fit(v: Seq<Seq<char>>) -> bool {
    v.len() < 0x8000_0000 && forall|j: int|
        0 <= j < v.len() ==> writable(#[trigger] v[j], false, true)
}

/// A chunk of imports.
pub open spec fn imports_chunk(v: Seq<LtImport>) -> Seq<u8> {
    chunk(seq![73u8, 109, 112, 84], table(v.map_values(|e: LtImport| import_row(e))))
}

/// A chunk of exports.
pub open spec fn exports_chunk(v: Seq<LtExport>) -> Seq<u8> {
    chunk(seq![69u8, 120, 112, 84], table(v.map_values(|e: LtExport| export_row(e))))
}

/// A chunk of local functions.
pub open spec fn locals_chunk(v: Seq<LtExport>) -> Seq<u8> {
    chunk(seq![76u8, 111, 99, 84], table(v.map_values(|e: LtExport| export_row(e))))
}

/// A chunk of functions without a name.
pub open spec fn funs_chunk(v: Seq<LtFun>) -> Seq<u8> {
    chunk(seq![70u8, 117, 110, 84], table(v.map_values(|e: LtFun| fun_row(e))))
}

/// A chunk of atoms in UTF-8.
pub open spec fn atoms_chunk(v: Seq<Seq<char>>) -> Seq<u8> {
    chunk(
        seq![65u8, 116, 85, 56],
        be32(v.len()) + v.map_values(|a: Seq<char>| atom_row(a, false, true)).flatten(),
    )
}

/// A chunk of code behind its five numbers.
pub open spec fn code_chunk(numbers: Seq<u8>, code: Seq<u8>) -> Seq<u8> {
    chunk(seq![67u8, 111, 100, 101], numbers + code)
}

proof fn lemma_with_imports(b: BeamV, d: Seq<u8>, at: int, size: int, opcode_max: u32, v: Seq<LtImport>)
    requires
        imports_at(d, at) == Ok::<Seq<LtImport>, RtErrV>(v),
    ensures
        with_chunk(b, d, "ImpT"@, at, size, opcode_max) == Ok::<BeamV, RtErrV>(
            BeamV { imports: b.imports + v, ..b },
        ),
{
    lemma_chunk_names();
}

proof fn lemma_with_exports(b: BeamV, d: Seq<u8>, at: int, size: int, opcode_max: u32, v: Seq<LtExport>)
    requires
        exports_at(d, at) == Ok::<Seq<LtExport>, RtErrV>(v),
    ensures
        with_chunk(b, d, "ExpT"@, at, size, opcode_max) == Ok::<BeamV, RtErrV>(
            BeamV { exports: v, ..b },
        ),
{
    lemma_chunk_names();
}

proof fn lemma_with_locals(b: BeamV, d: Seq<u8>, at: int, size: int, opcode_max: u32, v: Seq<LtExport>)
    requires
        exports_at(d, at) == Ok::<Seq<LtExport>, RtErrV>(v),
    ensures
        with_chunk(b, d, "LocT"@, at, size, opcode_max) == Ok::<BeamV, RtErrV>(
            BeamV { locals: v, ..b },
        ),
{
    lemma_chunk_names();
}

proof fn lemma_with_funs(b: BeamV, d: Seq<u8>, at: int, size: int, opcode_max: u32, v: Seq<LtFun>)
    requires
        funs_at(d, at) == Ok::<Seq<LtFun>, RtErrV>(v),
    ensures
        with_chunk(b, d, "FunT"@, at, size, opcode_max) == Ok::<BeamV, RtErrV>(
            BeamV { lambdas: b.lambdas + v, ..b },
        ),
{
    lemma_chunk_names();
}

proof fn lemma_with_atoms(b: BeamV, d: Seq<u8>, at: int, size: int, opcode_max: u32, v: Seq<Seq<char>>)
    requires
        utf8_atoms(d, at).0 == v && utf8_atoms(d, at).1 is Ok,
    ensures
        with_chunk(b, d, "AtU8"@, at, size, opcode_max) == Ok::<BeamV, RtErrV>(
            BeamV { atoms: b.atoms + v, ..b },
        ),
{
    lemma_chunk_names();
}

proof fn lemma_with_code(b: BeamV, d: Seq<u8>, at: int, size: int, opcode_max: u32, v: Seq<u8>)
    requires
        code_at(d, at, size, opcode_max) == Ok::<Seq<u8>, RtErrV>(v),
    ensures
        with_chunk(b, d, "Code"@, at, size, opcode_max) == Ok::<BeamV, RtErrV>(
            BeamV { code: v, ..b },
        ),
{
    lemma_chunk_names();
}

/// A chunk of imports adds them, in their order, behind those that are there.
pub proof fn law_imports_loaded(b: BeamV, d: Seq<u8>, at: int, v: Seq<LtImport>, opcode_max: u32)
    requires
        imports_fit(v),
        holds(d, at, imports_chunk(v)),
        imports_chunk(v).len() <= 0xffff_ffff,
    ensures
        with_chunks(b, d, at, opcode_max) == with_chunks(
            BeamV { imports: b.imports + v, ..b },
            d,
            at + imports_chunk(v).len(),
            opcode_max,
        ),
{
    lemma_chunk_names();
    let c = table(v.map_values(|e: LtImport| import_row(e)));
    lemma_chunk_len(seq![73u8, 109, 112, 84], c);
    law_chunk_by_chunk(b, d, at, seq![73u8, 109, 112, 84], c, opcode_max);
    law_imports_come_back(d, at + 8, v);
    lemma_with_imports(b, d, at + 8, c.len() as int, opcode_max, v);
}

/// A chunk of exports gives the exports.
pub proof fn law_exports_loaded(b: BeamV, d: Seq<u8>, at: int, v: Seq<LtExport>, opcode_max: u32)
    requires
        exports_fit(v),
        holds(d, at, exports_chunk(v)),
        exports_chunk(v).len() <= 0xffff_ffff,
    ensures
        with_chunks(b, d, at, opcode_max) == with_chunks(
            BeamV { exports: v, ..b },
            d,
            at + exports_chunk(v).len(),
            opcode_max,
        ),
{
    lemma_chunk_names();
    let c = table(v.map_values(|e: LtExport| export_row(e)));
    lemma_chunk_len(seq![69u8, 120, 112, 84], c);
    law_chunk_by_chunk(b, d, at, seq![69u8, 120, 112, 84], c, opcode_max);
    law_exports_come_back(d, at + 8, v);
    lemma_with_exports(b, d, at + 8, c.len() as int, opcode_max, v);
}

/// A chunk of local functions gives these.
pub proof fn law_locals_loaded(b: BeamV, d: Seq<u8>, at: int, v: Seq<LtExport>, opcode_max: u32)
    requires
        exports_fit(v),
        holds(d, at, locals_chunk(v)),
        locals_chunk(v).len() <= 0xffff_ffff,
    ensures
        with_chunks(b, d, at, opcode_max) == with_chunks(
            BeamV { locals: v, ..b },
            d,
            at + locals_chunk(v).len(),
            opcode_max,
        ),
{
    lemma_chunk_names();
    let c = table(v.map_values(|e: LtExport| export_row(e)));
    lemma_chunk_len(seq![76u8, 111, 99, 84], c);
    law_chunk_by_chunk(b, d, at, seq![76u8, 111, 99, 84], c, opcode_max);
    law_exports_come_back(d, at + 8, v);
    lemma_with_locals(b, d, at + 8, c.len() as int, opcode_max, v);
}

/// A chunk of functions without a name adds them, in their order, behind those that are there.
pub proof fn law_funs_loaded(b: BeamV, d: Seq<u8>, at: int, v: Seq<LtFun>, opcode_max: u32)
    requires
        funs_fit(v),
        holds(d, at, funs_chunk(v)),
        funs_chunk(v).len() <= 0xffff_ffff,
    ensures
        with_chunks(b, d, at, opcode_max) == with_chunks(
            BeamV { lambdas: b.lambdas + v, ..b },
            d,
            at + funs_chunk(v).len(),
            opcode_max,
        ),
{
    lemma_chunk_names();
    let c = table(v.map_values(|e: LtFun| fun_row(e)));
    lemma_chunk_len(seq![70u8, 117, 110, 84], c);
    law_chunk_by_chunk(b, d, at, seq![70u8, 117, 110, 84], c, opcode_max);
    law_funs_come_back(d, at + 8, v);
    lemma_with_funs(b, d, at + 8, c.len() as int, opcode_max, v);
}

/// A chunk of atoms adds them, in their order, behind those that are there.
pub proof fn law_atoms_loaded(b: BeamV, d: Seq<u8>, at: int, v: Seq<Seq<char>>, opcode_max: u32)
    requires
        atoms_fit(v),
        holds(d, at, atoms_chunk(v)),
        atoms_chunk(v).len() <= 0xffff_ffff,
    ensures
        with_chunks(b, d, at, opcode_max) == with_chunks(
            BeamV { atoms: b.atoms + v, ..b },
            d,
            at + atoms_chunk(v).len(),
            opcode_max,
        ),
{
    lemma_chunk_names();
    let c = be32(v.len()) + v.map_values(|a: Seq<char>| atom_row(a, false, true)).flatten();
    lemma_chunk_len(seq![65u8, 116, 85, 56], c);
    law_chunk_by_chunk(b, d, at, seq![65u8, 116, 85, 56], c, opcode_max);
    law_atoms_come_back(d, at + 8, v, false, true);
    lemma_with_atoms(b, d, at + 8, c.len() as int, opcode_max, v);
}

/// A chunk of code gives the code.
pub proof fn law_code_loaded(
    b: BeamV,
    d: Seq<u8>,
    at: int,
    numbers: Seq<u8>,
    max: nat,
    code: Seq<u8>,
    opcode_max: u32,
)
    requires
        numbers.len() == 20,
        numbers.subrange(8, 12) == be32(max),
        max <= opcode_max,
        holds(d, at, code_chunk(numbers, code)),
        code_chunk(numbers, code).len() <= 0xffff_ffff,
    ensures
        with_chunks(b, d, at, opcode_max) == with_chunks(
            BeamV { code, ..b },
            d,
            at + code_chunk(numbers, code).len(),
            opcode_max,
        ),
{
    lemma_chunk_names();
    lemma_chunk_len(seq![67u8, 111, 100, 101], numbers + code);
    law_chunk_by_chunk(b, d, at, seq![67u8, 111, 100, 101], numbers + code, opcode_max);
    law_code_comes_back(d, at + 8, numbers, max, code, opcode_max);
    lemma_with_code(b, d, at + 8, 20 + code.len() as int, opcode_max, code);
}

/// The two marks of a file, with a size between them.
#[verifier::opaque]
pub open spec fn file_head(size: nat) -> Seq<u8> {
    seq![70u8, 79, 82, 49] + be32(size) + seq![66u8, 69, 65, 77]
}

proof fn lemma_join(a: Seq<u8>, b: Seq<u8>, c: Seq<u8>)
    ensures
        holds(a + b + c, a.len() as int, b),
{
    assert((a + b + c).subrange(a.len() as int, (a.len() + b.len()) as int) =~= b);
}

/// A whole module comes back: a file with its atoms, its code, its imports, exports, local functions
/// and functions without a name is loaded as the module that has just these.
#[verifier::spinoff_prover]
pub proof fn law_module_comes_back(
    size: nat,
    m: BeamV,
    numbers: Seq<u8>,
    max: nat,
    opcode_max: u32,
    d: Seq<u8>,
)
    requires
        m.literals.len() == 0 && m.bins.len() == 0 && m.packed is None,
        atoms_fit(m.atoms),
        imports_fit(m.imports),
        exports_fit(m.exports),
        exports_fit(m.locals),
        funs_fit(m.lambdas),
        numbers.len() == 20,
        numbers.subrange(8, 12) == be32(max),
        max <= opcode_max,
        d == file_head(size) + atoms_chunk(m.atoms) + code_chunk(numbers, m.code) + imports_chunk(
            m.imports,
        ) + exports_chunk(m.exports) + locals_chunk(m.locals) + funs_chunk(m.lambdas),
        d.len() <= 0xffff_ffff,
    ensures
        module_of(d, opcode_max) == Ok::<BeamV, RtErrV>(m),
{
    let h = file_head(size);
    lemma_head_len(size);
    lemma_begins(h, m, numbers, d);
    assert(header(d) == Ok::<(), ReadError>(())) by {
        lemma_header(size, d);
    }
    lemma_loaded(h, m, numbers, max, opcode_max, d);
    lemma_module(d, m, opcode_max);
}

proof fn lemma_module(d: Seq<u8>, m: BeamV, opcode_max: u32)
    requires
        header(d) == Ok::<(), ReadError>(()),
        with_chunks(nothing(), d, 12, opcode_max) == Ok::<BeamV, RtErrV>(m),
    ensures
        module_of(d, opcode_max) == Ok::<BeamV, RtErrV>(m),
{
}

proof fn lemma_head_len(size: nat)
    ensures
        file_head(size).len() == 12,
{
    reveal(file_head);
}

proof fn lemma_header(size: nat, d: Seq<u8>)
    requires
        d.len() >= 12,
        d.subrange(0, 12) == file_head(size),
    ensures
        file_head(size).len() == 12,
        header(d) == Ok::<(), ReadError>(()),
{
    reveal(file_head);
    let h = file_head(size);
    assert(h.subrange(0, 4) =~= word(70, 79, 82, 49));
    assert(d.subrange(0, 4) =~= d.subrange(0, 12).subrange(0, 4));
    assert(h.subrange(8, 12) =~= word(66, 69, 65, 77));
    assert(d.subrange(8, 12) =~= d.subrange(0, 12).subrange(8, 12));
}

proof fn lemma_begins(h: Seq<u8>, m: BeamV, numbers: Seq<u8>, d: Seq<u8>)
    requires
        d == h + atoms_chunk(m.atoms) + code_chunk(numbers, m.code) + imports_chunk(m.imports)
            + exports_chunk(m.exports) + locals_chunk(m.locals) + funs_chunk(m.lambdas),
    ensures
        d.len() >= h.len(),
        d.subrange(0, h.len() as int) == h,
{
    lemma_seven(
        h,
        atoms_chunk(m.atoms),
        code_chunk(numbers, m.code),
        imports_chunk(m.imports),
        exports_chunk(m.exports),
        locals_chunk(m.locals),
        funs_chunk(m.lambdas),
    );
}

proof fn lemma_seven(
    h: Seq<u8>,
    k0: Seq<u8>,
    k1: Seq<u8>,
    k2: Seq<u8>,
    k3: Seq<u8>,
    k4: Seq<u8>,
    k5: Seq<u8>,
)
    ensures
        ({
            let d = h + k0 + k1 + k2 + k3 + k4 + k5;
            let a1 = (h.len() + k0.len()) as int;
            let a2 = (a1 + k1.len()) as int;
            let a3 = (a2 + k2.len()) as int;
            let a4 = (a3 + k3.len()) as int;
            let a5 = (a4 + k4.len()) as int;
            &&& d.len() == a5 + k5.len()
            &&& d.subrange(0, h.len() as int) == h
            &&& holds(d, h.len() as int, k0)
            &&& holds(d, a1, k1)
            &&& holds(d, a2, k2)
            &&& holds(d, a3, k3)
            &&& holds(d, a4, k4)
            &&& holds(d, a5, k5)
        }),
{
    let d = h + k0 + k1 + k2 + k3 + k4 + k5;
    assert(d.subrange(0, h.len() as int) =~= h);
    assert(d =~= h + k0 + (k1 + k2 + k3 + k4 + k5));
    lemma_join(h, k0, k1 + k2 + k3 + k4 + k5);
    assert(d =~= (h + k0) + k1 + (k2 + k3 + k4 + k5));
    lemma_join(h + k0, k1, k2 + k3 + k4 + k5);
    assert(d =~= (h + k0 + k1) + k2 + (k3 + k4 + k5));
    lemma_join(h + k0 + k1, k2, k3 + k4 + k5);
    assert(d =~= (h + k0 + k1 + k2) + k3 + (k4 + k5));
    lemma_join(h + k0 + k1 + k2, k3, k4 + k5);
    lemma_join(h + k0 + k1 + k2 + k3, k4, k5);
    assert(d =~= (h + k0 + k1 + k2 + k3 + k4) + k5 + Seq::<u8>::empty());
    lemma_join(h + k0 + k1 + k2 + k3 + k4, k5, Seq::<u8>::empty());
}

#[verifier::spinoff_prover]
proof fn lemma_loaded(
    h: Seq<u8>,
    m: BeamV,
    numbers: Seq<u8>,
    max: nat,
    opcode_max: u32,
    d: Seq<u8>,
)
    requires
        h.len() == 12,
        m.literals.len() == 0 && m.bins.len() == 0 && m.packed is None,
        atoms_fit(m.atoms),
        imports_fit(m.imports),
        exports_fit(m.exports),
        exports_fit(m.locals),
        funs_fit(m.lambdas),
        numbers.len() == 20,
        numbers.subrange(8, 12) == be32(max),
        max <= opcode_max,
        d == h + atoms_chunk(m.atoms) + code_chunk(numbers, m.code) + imports_chunk(m.imports)
            + exports_chunk(m.exports) + locals_chunk(m.locals) + funs_chunk(m.lambdas),
        d.len() <= 0xffff_ffff,
    ensures
        with_chunks(nothing(), d, 12, opcode_max) == Ok::<BeamV, RtErrV>(m),
{
    let k0 = atoms_chunk(m.atoms);
    let k1 = code_chunk(numbers, m.code);
    let k2 = imports_chunk(m.imports);
    let k3 = exports_chunk(m.exports);
    let k4 = locals_chunk(m.locals);
    let k5 = funs_chunk(m.lambdas);
    lemma_seven(h, k0, k1, k2, k3, k4, k5);
    let a1 = (12 + k0.len()) as int;
    let a2 = (a1 + k1.len()) as int;
    let a3 = (a2 + k2.len()) as int;
    let a4 = (a3 + k3.len()) as int;
    let a5 = (a4 + k4.len()) as int;
    let a6 = (a5 + k5.len()) as int;
    let b0 = nothing();
    let b1 = BeamV { atoms: b0.atoms + m.atoms, ..b0 };
    let b2 = BeamV { code: m.code, ..b1 };
    let b3 = BeamV { imports: b2.imports + m.imports, ..b2 };
    let b4 = BeamV { exports: m.exports, ..b3 };
    let b5 = BeamV { locals: m.locals, ..b4 };
    let b6 = BeamV { lambdas: b5.lambdas + m.lambdas, ..b5 };
    law_atoms_loaded(b0, d, 12, m.atoms, opcode_max);
    law_code_loaded(b1, d, a1, numbers, max, m.code, opcode_max);
    law_imports_loaded(b2, d, a2, m.imports, opcode_max);
    law_exports_loaded(b3, d, a3, m.exports, opcode_max);
    law_locals_loaded(b4, d, a4, m.locals, opcode_max);
    law_funs_loaded(b5, d, a5, m.lambdas, opcode_max);
    lemma_no_more(b6, d, a6, opcode_max);
    assert(b6 =~= m);
}

/// Data that does not begin as a BEAM file does is refused.
pub proof fn law_only_beam_files(d: Seq<u8>, opcode_max: u32)
    requires
        d.len() < 12 || d.subrange(0, 4) != seq![70u8, 79, 82, 49] || d.subrange(8, 12) != seq![
            66u8,
            69,
            65,
            77,
        ],
    ensures
        module_of(d, opcode_max) is Err,
{
}

/// Literals one behind the other: before each stands its size and the mark of a term.
pub open spec fn literal_bytes(v: Seq<TermV>) -> Seq<u8>
    decreases v.len(),
{
    if v.len() == 0 {
        Seq::empty()
    } else {
        let t = ext_term_format::term_bytes(v[0]);
        be32(t.len() + 1) + (seq![131u8] + t) + literal_bytes(v.drop_first())
    }
}

proof fn lemma_literal_parts(d: Seq<u8>, at: int, t: Seq<u8>, more: Seq<u8>)
    requires
        holds(d, at, be32(t.len() + 1) + (seq![131u8] + t) + more),
    ensures
        bin_reader::within(d, at, 5),
        d[at + 4] == 131,
        holds(d, at + 5, t),
        holds(d, at + 5 + t.len(), more),
{
    let all = be32(t.len() + 1) + (seq![131u8] + t) + more;
    let k = (5 + t.len()) as int;
    assert(all.subrange(5, k) =~= t);
    assert(all.subrange(k, all.len() as int) =~= more);
    lemma_part(d, at, all, 5, t);
    lemma_part(d, at, all, k, more);
    assert(all[4] == 131u8);
    assert(d.subrange(at, at + all.len())[4] == 131u8);
}

proof fn lemma_literal_first(d: Seq<u8>, at: int, bins: Seq<Seq<u8>>, t: TermV)
    requires
        ext_term_format::writable(t),
        bin_reader::within(d, at, 5),
        d[at + 4] == 131,
        holds(d, at + 5, ext_term_format::term_bytes(t)),
    ensures
        ext_term_format::decoded(d, at + 4, bins) == Ok::<(TermV, int, Seq<Seq<u8>>), RtErrV>(
            (t, at + 5 + ext_term_format::term_bytes(t).len(), bins),
        ),
{
    ext_term_format::law_term_comes_back(d, at + 5, bins, t);
}

proof fn lemma_literals(d: Seq<u8>, at: int, bins: Seq<Seq<u8>>, v: Seq<TermV>)
    requires
        forall|i: int| 0 <= i < v.len() ==> ext_term_format::writable(#[trigger] v[i]),
        holds(d, at, literal_bytes(v)),
    ensures
        literals_from(d, at, bins, v.len()) == Ok::<(Seq<TermV>, Seq<Seq<u8>>), RtErrV>((v, bins)),
    decreases v.len(),
{
    if v.len() == 0 {
        assert(v =~= Seq::<TermV>::empty());
    } else {
        let t = ext_term_format::term_bytes(v[0]);
        let more = v.drop_first();
        let k = (5 + t.len()) as int;
        lemma_literal_parts(d, at, t, literal_bytes(more));
        lemma_literal_first(d, at, bins, v[0]);
        assert forall|i: int| 0 <= i < more.len() implies ext_term_format::writable(
            #[trigger] more[i],
        ) by {
            assert(more[i] == v[i + 1]);
        }
        lemma_literals(d, at + k, bins, more);
        assert(seq![v[0]] + more =~= v);
    }
}

/// Literals that were written are loaded as they were, all of them and in their order, behind those
/// that are there.
pub proof fn law_literals_come_back(b: BeamV, v: Seq<TermV>)
    requires
        v.len() <= 0xffff_ffff,
        forall|i: int| 0 <= i < v.len() ==> ext_term_format::writable(#[trigger] v[i]),
    ensures
        adding_literals(b, be32(v.len()) + literal_bytes(v)) == Ok::<BeamV, RtErrV>(
            BeamV { literals: b.literals + v, ..b },
        ),
{
    let d = be32(v.len()) + literal_bytes(v);
    assert(d.subrange(0, 4) =~= be32(v.len()));
    assert(d.subrange(4, d.len() as int) =~= literal_bytes(v));
    law_number_comes_back(d, 0, v.len());
    lemma_literals(d, 4, b.bins, v);
}

/// A table of literals behind a size of zero is taken as it stands; behind any other size it is kept
/// as it is, with that size, until it is no longer compressed.
pub proof fn law_literals_kept_packed(b: BeamV, d: Seq<u8>, at: int, full: nat, raw: Seq<u8>)
    requires
        full <= 0xffff_ffff,
        holds(d, at, be32(full) + raw),
    ensures
        full == 0 ==> with_literals(b, d, at, 4 + raw.len() as int) == adding_literals(b, raw),
        full > 0 ==> with_literals(b, d, at, 4 + raw.len() as int) == Ok::<BeamV, RtErrV>(
            BeamV { packed: Some((full as u32, raw)), ..b },
        ),
{
    let all = be32(full) + raw;
    assert(all.subrange(0, 4) =~= be32(full));
    assert(all.subrange(4, all.len() as int) =~= raw);
    lemma_part(d, at, all, 0, be32(full));
    lemma_part(d, at, all, 4, raw);
    law_number_comes_back(d, at, full);
}

} // verus!
