//! Building a whole binary from a list of fields.
use vstd::prelude::*;
use vstd::arithmetic::div_mod;
use vstd::arithmetic::power2;
use crate::beam::disp_result::DispatchResult;
use crate::beam::opcodes::binary::bs_init_bits;
use crate::beam::opcodes::binary::bs_match;
use crate::beam::opcodes::binary::bs_match::OpcodeBsMatch;
use crate::beam::runtime;
use crate::beam::runtime::{CtxV, ProcV, Process, RuntimeContext};
use crate::defs::bits;
use crate::defs::bits::bit_at;
use crate::defs::bitsize::BitSize;
use crate::fail;
use crate::fail::{badarg, system_limit, RtErr, RtErrV};
use crate::term;
use crate::term::{BinRef, Term, TermV};

verus! {

/// How a field is laid out.
#[derive(Copy, Clone, Debug, PartialEq, Eq, Structural)]
pub struct BsFlags {
    /// The field begins at a whole byte.
    pub aligned: bool,
    /// The low bytes come first.
    pub little: bool,
    /// The number has a sign.
    pub signed: bool,
    /// The size is exact.
    pub exact: bool,
    /// The bytes come as the machine has them.
    pub native: bool,
}

/// How much of a binary a field takes.
#[derive(Copy, Clone, Debug, PartialEq, Eq, Structural)]
pub enum SizeOrAll {
    Bits(BitSize),
    All,
}

/// A field of a binary.
#[derive(Debug)]
pub enum CreateOp {
    Integer { unit: usize, flags: BsFlags, src: Term, size: usize },
    Binary { unit: usize, flags: BsFlags, src: Term, part: SizeOrAll },
}

/// What a field of a binary is.
pub enum CreateOpV {
    Integer { unit: usize, flags: BsFlags, src: TermV, size: usize },
    Binary { unit: usize, flags: BsFlags, src: TermV, part: SizeOrAll },
}

impl View for CreateOp {
    type V = CreateOpV;

    open spec fn view(&self) -> CreateOpV {
        match self {
            CreateOp::Integer { unit, flags, src, size } => CreateOpV::Integer {
                unit: *unit,
                flags: *flags,
                src: src@,
                size: *size,
            },
            CreateOp::Binary { unit, flags, src, part } => CreateOpV::Binary {
                unit: *unit,
                flags: *flags,
                src: src@,
                part: *part,
            },
        }
    }
}

/// What fields are.
pub open spec fn ops_view(v: Seq<CreateOp>) -> Seq<CreateOpV> {
    v.map_values(|op: CreateOp| op@)
}

/// Flags in the bits of a number.
pub open spec fn number_flags(n: i64) -> BsFlags {
    BsFlags {
        aligned: n as int % 2 == 1,
        little: (n as int / 2) % 2 == 1,
        signed: (n as int / 4) % 2 == 1,
        exact: (n as int / 8) % 2 == 1,
        native: (n as int / 16) % 2 == 1,
    }
}

/// Whether a list names an atom.
pub open spec fn names(list: TermV, name: Seq<char>) -> bool
    decreases list,
{
    match list {
        TermV::Cons(head, tail) => *head == TermV::Atom(name) || names(*tail, name),
        _ => false,
    }
}

/// Flags in a list of their names.
pub open spec fn named_flags(list: TermV) -> BsFlags {
    BsFlags {
        aligned: names(list, "aligned"@),
        little: names(list, "little"@),
        signed: names(list, "signed"@),
        exact: names(list, "exact"@),
        native: names(list, "native"@),
    }
}

/// No flags.
pub open spec fn no_flags() -> BsFlags {
    BsFlags { aligned: false, little: false, signed: false, exact: false, native: false }
}

/// The flags that a term stands for.
pub open spec fn flags_of(t: TermV) -> Result<BsFlags, RtErrV> {
    match t {
        TermV::Nil => Ok(no_flags()),
        TermV::Small(n) => Ok(number_flags(n)),
        TermV::Cons(_, _) => Ok(named_flags(t)),
        _ => Err(fail::atom_error("badarg"@)),
    }
}

/// The items of a list.
pub open spec fn items(list: TermV) -> Seq<TermV>
    decreases list,
{
    match list {
        TermV::Cons(head, tail) => seq![*head] + items(*tail),
        _ => Seq::empty(),
    }
}

/// The terms that describe fields, from a list or a tuple.
pub open spec fn flattened(t: TermV) -> Result<Seq<TermV>, RtErrV> {
    match t {
        TermV::Nil => Ok(Seq::empty()),
        TermV::Tuple(v) => Ok(v),
        TermV::Cons(_, _) => Ok(items(t)),
        _ => Err(fail::atom_error("badarg"@)),
    }
}

/// The field that six terms describe.
pub open spec fn field_of(t: Seq<TermV>) -> Result<CreateOpV, RtErrV> {
    let bad = Err(fail::atom_error("badarg"@));
    let is_integer = t[0] == TermV::Atom("integer"@);
    if !(t[0] is Atom) || !(is_integer || t[0] == TermV::Atom("binary"@)) || t.len() < 6 {
        bad
    } else {
        match bs_match::usize_of(t[2]) {
            None => bad,
            Some(unit) => match flags_of(t[3]) {
                Err(e) => Err(e),
                Ok(flags) => if !is_integer && t[5] == TermV::Atom("all"@) {
                    Ok(CreateOpV::Binary { unit, flags, src: t[4], part: SizeOrAll::All })
                } else {
                    match bs_match::usize_of(t[5]) {
                        None => bad,
                        Some(size) => if is_integer {
                            Ok(CreateOpV::Integer { unit, flags, src: t[4], size })
                        } else if size * unit > runtime::bit_limit() {
                            Err(fail::atom_error("system_limit"@))
                        } else {
                            Ok(
                                CreateOpV::Binary {
                                    unit,
                                    flags,
                                    src: t[4],
                                    part: SizeOrAll::Bits(BitSize { bits: (size * unit) as usize }),
                                },
                            )
                        },
                    }
                },
            },
        }
    }
}

/// The fields that terms describe, six terms each.
pub open spec fn fields_of(t: Seq<TermV>) -> Result<Seq<CreateOpV>, RtErrV>
    decreases t.len(),
{
    if t.len() == 0 {
        Ok(Seq::empty())
    } else {
        match field_of(t) {
            Err(e) => Err(e),
            Ok(op) => match fields_of(t.skip(6)) {
                Err(e) => Err(e),
                Ok(ops) => Ok(seq![op] + ops),
            },
        }
    }
}

/// How many bits a field takes.
pub open spec fn field_bits(c: CtxV, p: ProcV, op: CreateOpV) -> Result<int, RtErrV> {
    match op {
        CreateOpV::Integer { unit, size, .. } => if size * unit > runtime::bit_limit() {
            Err(fail::atom_error("system_limit"@))
        } else {
            Ok(size * unit)
        },
        CreateOpV::Binary { src, part, .. } => match part {
            SizeOrAll::Bits(n) => Ok(n.bits as int),
            SizeOrAll::All => match runtime::loaded(c, p, src) {
                TermV::Binary(b) => if runtime::valid(p, b) {
                    Ok(b.bits as int)
                } else {
                    Err(fail::atom_error("badarg"@))
                },
                _ => Err(fail::atom_error("badarg"@)),
            },
        },
    }
}

/// How many bits fields take, together with those that are there.
pub open spec fn total_bits(c: CtxV, p: ProcV, sum: int, ops: Seq<CreateOpV>) -> Result<int, RtErrV>
    decreases ops.len(),
{
    if ops.len() == 0 {
        Ok(sum)
    } else {
        match field_bits(c, p, ops[0]) {
            Err(e) => Err(e),
            Ok(n) => if sum + n > runtime::bit_limit() {
                Err(fail::atom_error("system_limit"@))
            } else {
                total_bits(c, p, sum + n, ops.skip(1))
            },
        }
    }
}

/// A bit of a whole number, counted from the lowest.
pub open spec fn low_bit(v: int, j: nat) -> bool {
    (v / power2::pow2(j) as int) % 2 == 1
}

/// Which bit of a number stands at a place of a field.
pub open spec fn bit_index(i: int, n: int, little: bool) -> int {
    if little {
        let byte = i / 8;
        let width = if n - 8 * byte < 8 {
            n - 8 * byte
        } else {
            8
        };
        8 * byte + (width - 1 - i % 8)
    } else {
        n - 1 - i
    }
}

/// A number in so many bits.
pub open spec fn number_bits(v: int, n: int, little: bool) -> Seq<bool> {
    Seq::new(n as nat, |i: int| low_bit(v, bit_index(i, n, little) as nat))
}

/// What comes of a field.
pub enum FieldV {
    /// Its bits.
    Laid(Seq<bool>),
    /// It is no binary, though it should be.
    NoBinary,
    /// An error.
    Failed(RtErrV),
}

/// The bits of a field.
pub open spec fn field(c: CtxV, p: ProcV, op: CreateOpV) -> FieldV {
    match op {
        CreateOpV::Integer { unit, flags, src, size } => match runtime::loaded(c, p, src) {
            TermV::Small(v) => FieldV::Laid(number_bits(v as int, size * unit, flags.little)),
            _ => FieldV::Failed(fail::atom_error("badarg"@)),
        },
        CreateOpV::Binary { src, part, .. } => match runtime::loaded(c, p, src) {
            TermV::Binary(b) => if !runtime::valid(p, b) {
                FieldV::NoBinary
            } else {
                match part {
                    SizeOrAll::All => FieldV::Laid(runtime::bits_at(p, b)),
                    SizeOrAll::Bits(n) => if n.bits > b.bits {
                        FieldV::Failed(fail::atom_error("badarg"@))
                    } else {
                        FieldV::Laid(runtime::bits_at(p, b).take(n.bits as int))
                    },
                }
            },
            _ => FieldV::NoBinary,
        },
    }
}

/// The bits of fields, behind those that are there.
pub open spec fn laid(c: CtxV, p: ProcV, sofar: Seq<bool>, ops: Seq<CreateOpV>) -> FieldV
    decreases ops.len(),
{
    if ops.len() == 0 {
        FieldV::Laid(sofar)
    } else {
        match field(c, p, ops[0]) {
            FieldV::Laid(b) => laid(c, p, sofar + b, ops.skip(1)),
            other => other,
        }
    }
}

/// Bits in bytes; those that the last byte has to spare are zero.
pub open spec fn packed(b: Seq<bool>) -> Seq<u8> {
    Seq::new(((b.len() + 7) / 8) as nat, |i: int| bits::number(bits::window(b, 8 * i, 8)) as u8)
}

/// A binary is built from fields.
pub open spec fn created(c: CtxV, p: ProcV, label: TermV, live: usize, dst: TermV, list: TermV) -> bs_init_bits::Step {
    match flattened(list) {
        Err(e) => (c, p, Err(e)),
        Ok(terms) => match fields_of(terms) {
            Err(e) => (c, p, Err(e)),
            Ok(ops) => match total_bits(c, p, 0, ops) {
                Err(e) => (c, p, Err(e)),
                Ok(n) => if n == 0 {
                    bs_init_bits::kept(c, p, runtime::empty_binary(), dst)
                } else {
                    let c1 = CtxV { live, ..c };
                    match laid(c, p, Seq::empty(), ops) {
                        FieldV::Laid(b) => {
                            let bin = p.bins.len() as usize;
                            bs_init_bits::kept(
                                c1,
                                ProcV { bins: p.bins.push(packed(b)), ..p },
                                TermV::Binary(BinRef { bin, offset: 0, bits: n as usize }),
                                dst,
                            )
                        },
                        FieldV::NoBinary => (
                            runtime::jumped(c1, label),
                            p,
                            Ok(DispatchResult::Normal),
                        ),
                        FieldV::Failed(e) => (c1, p, Err(e)),
                    }
                },
            },
        },
    }
}

/// Half of a number, rounded down.
fn half(v: i64) -> (r: i64)
    ensures
        r == v as int / 2,
{
    if v >= 0 {
        v / 2
    } else {
        -((-(v + 1)) / 2) - 1
    }
}

/// Half of a quotient is the quotient by twice the divisor.
proof fn lemma_half_of_quotient(v: int, d: int)
    requires
        d > 0,
    ensures
        (v / d) / 2 == v / (2 * d),
{
    let q = v / d;
    let r = v % d;
    let h = q / 2;
    let b = q % 2;
    div_mod::lemma_fundamental_div_mod(v, d);
    assert(v == h * (2 * d) + (d * b + r)) by (nonlinear_arith)
        requires
            v == d * q + r,
            q == 2 * h + b,
    ;
    assert(0 <= d * b + r < 2 * d) by (nonlinear_arith)
        requires
            0 <= r < d,
            0 <= b <= 1,
            d > 0,
    ;
    div_mod::lemma_fundamental_div_mod_converse(v, 2 * d, h, d * b + r);
}

/// A bit of a number, counted from the lowest.
fn bit_of_number(v: i64, j: usize) -> (r: bool)
    ensures
        r == low_bit(v as int, j as nat),
{
    let mut w: i64 = v;
    let mut k: usize = 0;
    proof {
        power2::lemma2_to64();
    }
    while k < j
        invariant
            k <= j,
            w == v as int / power2::pow2(k as nat) as int,
        decreases j - k,
    {
        proof {
            power2::lemma_pow2_unfold((k + 1) as nat);
            power2::lemma_pow2_pos(k as nat);
            lemma_half_of_quotient(v as int, power2::pow2(k as nat) as int);
        }
        w = half(w);
        k += 1;
    }
    let h: i64 = half(w);
    h as i128 * 2 != w as i128
}

/// What comes of a field.
pub enum Field {
    Laid(Vec<bool>),
    NoBinary,
    Failed(RtErr),
}

impl View for Field {
    type V = FieldV;

    open spec fn view(&self) -> FieldV {
        match self {
            Field::Laid(b) => FieldV::Laid(b@),
            Field::NoBinary => FieldV::NoBinary,
            Field::Failed(e) => FieldV::Failed(e@),
        }
    }
}

/// Builds a whole binary.
pub struct OpcodeBsCreateBin;

impl OpcodeBsCreateBin {
    fn list_names(list: &Term, name: &str) -> (r: bool)
        ensures
            r == names(list@, name@),
        decreases list,
    {
        match list {
            Term::Cons(head, tail) => {
                assert(decreases_to!(*list => (*list)->Cons_1));
                if head.is_atom_of(name) {
                    true
                } else {
                    Self::list_names(tail, name)
                }
            },
            _ => false,
        }
    }

    /// The flags that a term stands for.
    pub fn parse_flags(raw: &Term) -> (r: Result<BsFlags, RtErr>)
        ensures
            fail::result_view(r) == flags_of(raw@),
    {
        match raw {
            Term::Nil => Ok(
                BsFlags { aligned: false, little: false, signed: false, exact: false, native: false },
            ),
            Term::Small(n) => {
                let w: i128 = *n as i128 + 0x1_0000_0000_0000_0000;
                assert(w / 16 == *n as int / 16 + 0x1000_0000_0000_0000);
                assert(w / 8 == *n as int / 8 + 0x2000_0000_0000_0000);
                assert(w / 4 == *n as int / 4 + 0x4000_0000_0000_0000);
                assert(w / 2 == *n as int / 2 + 0x8000_0000_0000_0000);
                Ok(
                    BsFlags {
                        aligned: w % 2 == 1,
                        little: (w / 2) % 2 == 1,
                        signed: (w / 4) % 2 == 1,
                        exact: (w / 8) % 2 == 1,
                        native: (w / 16) % 2 == 1,
                    },
                )
            },
            Term::Cons(_, _) => Ok(
                BsFlags {
                    aligned: Self::list_names(raw, "aligned"),
                    little: Self::list_names(raw, "little"),
                    signed: Self::list_names(raw, "signed"),
                    exact: Self::list_names(raw, "exact"),
                    native: Self::list_names(raw, "native"),
                },
            ),
            _ => Err(badarg()),
        }
    }

    fn list_items(list: &Term, out: &mut Vec<Term>)
        ensures
            term::terms_view(final(out)@) == term::terms_view(old(out)@) + items(list@),
        decreases list,
    {
        let ghost was = out@;
        match list {
            Term::Cons(head, tail) => {
                assert(decreases_to!(*list => (*list)->Cons_1));
                out.push(head.copy());
                assert(term::terms_view(out@) =~= term::terms_view(was).push(head@));
                Self::list_items(tail, out);
                assert(term::terms_view(was).push(head@) + items(tail@) =~= term::terms_view(was)
                    + (seq![head@] + items(tail@)));
            },
            _ => {
                assert(term::terms_view(was) + items(list@) =~= term::terms_view(was));
            },
        }
    }

    /// The terms that describe fields.
    pub fn flatten_op_list(list: &Term) -> (r: Result<Vec<Term>, RtErr>)
        ensures
            match r {
                Ok(v) => flattened(list@) == Ok::<Seq<TermV>, RtErrV>(term::terms_view(v@)),
                Err(e) => flattened(list@) == Err::<Seq<TermV>, RtErrV>(e@),
            },
    {
        let mut out: Vec<Term> = Vec::new();
        assert(term::terms_view(out@) =~= Seq::<TermV>::empty());
        match list {
            Term::Nil => Ok(out),
            Term::Tuple(v) => {
                let ghost elems = term::terms_view(v@);
                assert(list@->Tuple_0 =~= elems);
                let mut i: usize = 0;
                while i < v.len()
                    invariant
                        i <= v@.len(),
                        elems == term::terms_view(v@),
                        term::terms_view(out@) == elems.take(i as int),
                    decreases v@.len() - i,
                {
                    let ghost was = out@;
                    out.push(v[i].copy());
                    assert(term::terms_view(out@) =~= term::terms_view(was).push(v@[i as int]@));
                    assert(elems.take(i + 1) =~= elems.take(i as int).push(v@[i as int]@));
                    i += 1;
                }
                assert(elems.take(i as int) =~= elems);
                Ok(out)
            },
            Term::Cons(_, _) => {
                Self::list_items(list, &mut out);
                assert(term::terms_view(out@) =~= items(list@));
                Ok(out)
            },
            _ => Err(badarg()),
        }
    }

    /// The field that six terms describe.
    fn parse_op(terms: &Vec<Term>, i: usize) -> (r: Result<CreateOp, RtErr>)
        requires
            i < terms@.len(),
        ensures
            match r {
                Ok(op) => field_of(term::terms_view(terms@).skip(i as int)) == Ok::<
                    CreateOpV,
                    RtErrV,
                >(op@) && i + 6 <= terms@.len(),
                Err(e) => field_of(term::terms_view(terms@).skip(i as int)) == Err::<
                    CreateOpV,
                    RtErrV,
                >(e@),
            },
    {
        let ghost t = term::terms_view(terms@).skip(i as int);
        let total: usize = terms.len();
        assert(t[0] == terms@[i as int]@);
        let is_integer: bool = terms[i].is_atom_of("integer");
        if !is_integer && !terms[i].is_atom_of("binary") {
            return Err(badarg());
        }
        if total - i < 6 {
            return Err(badarg());
        }
        proof {
            assert(t[2] == terms@[i + 2]@);
            assert(t[3] == terms@[i + 3]@);
            assert(t[4] == terms@[i + 4]@);
            assert(t[5] == terms@[i + 5]@);
        }
        let unit: usize = match OpcodeBsMatch::to_usize(&terms[i + 2]) {
            Some(n) => n,
            None => {
                return Err(badarg());
            },
        };
        let flags: BsFlags = match Self::parse_flags(&terms[i + 3]) {
            Ok(f) => f,
            Err(e) => {
                return Err(e);
            },
        };
        let src: Term = terms[i + 4].copy();
        if !is_integer && terms[i + 5].is_atom_of("all") {
            return Ok(CreateOp::Binary { unit, flags, src, part: SizeOrAll::All });
        }
        let size: usize = match OpcodeBsMatch::to_usize(&terms[i + 5]) {
            Some(n) => n,
            None => {
                return Err(badarg());
            },
        };
        if is_integer {
            return Ok(CreateOp::Integer { unit, flags, src, size });
        }
        match Self::bounded(size, unit) {
            Some(n) => Ok(
                CreateOp::Binary { unit, flags, src, part: SizeOrAll::Bits(BitSize::with_bits(n)) },
            ),
            None => Err(system_limit()),
        }
    }

    /// So many units of bits, where a binary can have them.
    fn bounded(size: usize, unit: usize) -> (r: Option<usize>)
        ensures
            match r {
                Some(n) => n == size * unit && size * unit <= runtime::bit_limit(),
                None => size * unit > runtime::bit_limit(),
            },
    {
        assert(0 <= size * unit <= 0xffff_ffff_ffff_ffff * 0xffff_ffff_ffff_ffff)
            by (nonlinear_arith)
            requires
                0 <= size <= 0xffff_ffff_ffff_ffff,
                0 <= unit <= 0xffff_ffff_ffff_ffff,
        ;
        let n: u128 = size as u128 * unit as u128;
        if n > (usize::MAX / 2 - 15) as u128 {
            None
        } else {
            Some(n as usize)
        }
    }

    /// The fields that terms describe.
    pub fn parse_ops(list: &Term) -> (r: Result<Vec<CreateOp>, RtErr>)
        ensures
            match r {
                Ok(ops) => flattened(list@) matches Ok(t) && fields_of(t) == Ok::<
                    Seq<CreateOpV>,
                    RtErrV,
                >(ops_view(ops@)),
                Err(e) => match flattened(list@) {
                    Ok(t) => fields_of(t) == Err::<Seq<CreateOpV>, RtErrV>(e@),
                    Err(f) => e@ == f,
                },
            },
    {
        let terms: Vec<Term> = match Self::flatten_op_list(list) {
            Ok(v) => v,
            Err(e) => {
                return Err(e);
            },
        };
        let ghost t = term::terms_view(terms@);
        let total: usize = terms.len();
        let mut out: Vec<CreateOp> = Vec::new();
        let mut i: usize = 0;
        proof {
            assert(t.skip(0) =~= t);
            assert(ops_view(out@) =~= Seq::<CreateOpV>::empty());
            if fields_of(t) is Ok {
                assert(Seq::<CreateOpV>::empty() + fields_of(t)->Ok_0 =~= fields_of(t)->Ok_0);
            }
        }
        while i < total
            invariant
                i <= total,
                total == terms@.len(),
                t == term::terms_view(terms@),
                flattened(list@) == Ok::<Seq<TermV>, RtErrV>(t),
                match fields_of(t.skip(i as int)) {
                    Ok(more) => fields_of(t) == Ok::<Seq<CreateOpV>, RtErrV>(ops_view(out@) + more),
                    Err(e) => fields_of(t) == Err::<Seq<CreateOpV>, RtErrV>(e),
                },
            decreases total - i,
        {
            let ghost was = ops_view(out@);
            let op: CreateOp = match Self::parse_op(&terms, i) {
                Ok(op) => op,
                Err(e) => {
                    return Err(e);
                },
            };
            proof {
                assert(t.skip(i as int).skip(6) =~= t.skip(i + 6));
                let more = fields_of(t.skip(i + 6));
                if more is Ok {
                    assert(was + (seq![op@] + more->Ok_0) =~= was.push(op@) + more->Ok_0);
                }
            }
            let ghost o = op@;
            out.push(op);
            assert(ops_view(out@) =~= was.push(o));
            i += 6;
        }
        proof {
            assert(t.skip(i as int) =~= Seq::<TermV>::empty());
            assert(ops_view(out@) + Seq::<CreateOpV>::empty() =~= ops_view(out@));
        }
        Ok(out)
    }

    /// How many bits a field takes.
    pub fn op_bits(ctx: &RuntimeContext, proc: &Process, op: &CreateOp) -> (r: Result<usize, RtErr>)
        requires
            runtime::proc_ok(proc@),
        ensures
            match r {
                Ok(n) => field_bits(ctx@, proc@, op@) == Ok::<int, RtErrV>(n as int),
                Err(e) => field_bits(ctx@, proc@, op@) == Err::<int, RtErrV>(e@),
            },
    {
        match op {
            CreateOp::Integer { unit, size, .. } => match Self::bounded(*size, *unit) {
                Some(n) => Ok(n),
                None => Err(system_limit()),
            },
            CreateOp::Binary { src, part, .. } => match part {
                SizeOrAll::Bits(n) => Ok(n.bits),
                SizeOrAll::All => {
                    let val: Term = ctx.load(src, proc);
                    match val {
                        Term::Binary(b) => if proc.is_valid(b) {
                            Ok(b.bits)
                        } else {
                            Err(badarg())
                        },
                        _ => Err(badarg()),
                    }
                },
            },
        }
    }

    fn maybe_jump_fail(ctx: &mut RuntimeContext, label: &Term) -> (r: DispatchResult)
        ensures
            r == DispatchResult::Normal,
            final(ctx)@ == runtime::jumped(old(ctx)@, label@),
    {
        ctx.jump(label);
        DispatchResult::Normal
    }

    /// The bits of a number.
    fn lay_number(v: i64, n: usize, little: bool) -> (r: Vec<bool>)
        requires
            n <= runtime::bit_limit(),
        ensures
            r@ == number_bits(v as int, n as int, little),
    {
        let ghost goal = number_bits(v as int, n as int, little);
        let mut out: Vec<bool> = Vec::new();
        let mut i: usize = 0;
        while i < n
            invariant
                i <= n,
                n <= runtime::bit_limit(),
                goal == number_bits(v as int, n as int, little),
                out@ == goal.take(i as int),
            decreases n - i,
        {
            let j: usize = if little {
                let byte: usize = i / 8;
                let left: usize = n - 8 * byte;
                let width: usize = if left < 8 {
                    left
                } else {
                    8
                };
                8 * byte + (width - 1 - i % 8)
            } else {
                n - 1 - i
            };
            let b: bool = bit_of_number(v, j);
            out.push(b);
            assert(out@ =~= goal.take(i + 1));
            i += 1;
        }
        assert(out@ =~= goal);
        out
    }

    /// The first bits of a binary.
    fn lay_binary(proc: &Process, b: BinRef, n: usize) -> (r: Vec<bool>)
        requires
            runtime::proc_ok(proc@),
            runtime::valid(proc@, b),
            n <= b.bits,
        ensures
            r@ == runtime::bits_at(proc@, b).take(n as int),
    {
        let ghost goal = runtime::bits_at(proc@, b).take(n as int);
        if b.bits == 0 {
            let none: Vec<bool> = Vec::new();
            assert(none@ =~= goal);
            return none;
        }
        assert(proc@.bins[b.bin as int] == proc.bins@[b.bin as int]@);
        assert(8 * proc@.bins[b.bin as int].len() <= usize::MAX / 2 - 8);
        let mut out: Vec<bool> = Vec::new();
        let mut i: usize = 0;
        while i < n
            invariant
                i <= n <= b.bits,
                b.bits > 0,
                b.bin < proc.bins@.len(),
                b.offset + b.bits <= 8 * proc.bins@[b.bin as int]@.len() <= usize::MAX / 2,
                proc@.bins[b.bin as int] == proc.bins@[b.bin as int]@,
                goal == runtime::bits_at(proc@, b).take(n as int),
                out@ == goal.take(i as int),
            decreases n - i,
        {
            let bit: bool = bit_at(proc.bins[b.bin].as_slice(), b.offset + i);
            out.push(bit);
            assert(out@ =~= goal.take(i + 1));
            i += 1;
        }
        assert(out@ =~= goal);
        out
    }

    /// The bits of a field.
    fn lay(ctx: &RuntimeContext, proc: &Process, op: &CreateOp) -> (r: Field)
        requires
            runtime::proc_ok(proc@),
            field_bits(ctx@, proc@, op@) is Ok,
        ensures
            r@ == field(ctx@, proc@, op@),
    {
        match op {
            CreateOp::Integer { unit, flags, src, size } => {
                let val: Term = ctx.load(src, proc);
                match val {
                    Term::Small(v) => match Self::bounded(*size, *unit) {
                        Some(n) => Field::Laid(Self::lay_number(v, n, flags.little)),
                        None => Field::NoBinary,
                    },
                    _ => Field::Failed(badarg()),
                }
            },
            CreateOp::Binary { src, part, .. } => {
                let val: Term = ctx.load(src, proc);
                match val {
                    Term::Binary(b) => {
                        if !proc.is_valid(b) {
                            return Field::NoBinary;
                        }
                        match part {
                            SizeOrAll::All => {
                                assert(runtime::bits_at(proc@, b).take(b.bits as int)
                                    =~= runtime::bits_at(proc@, b));
                                Field::Laid(Self::lay_binary(proc, b, b.bits))
                            },
                            SizeOrAll::Bits(n) => if n.bits > b.bits {
                                Field::Failed(badarg())
                            } else {
                                Field::Laid(Self::lay_binary(proc, b, n.bits))
                            },
                        }
                    },
                    _ => Field::NoBinary,
                }
            },
        }
    }

    /// Bits in bytes.
    fn pack(b: &Vec<bool>) -> (r: Vec<u8>)
        requires
            b@.len() <= runtime::bit_limit(),
        ensures
            r@ == packed(b@),
    {
        let n: usize = b.len();
        let bytes: usize = (n + 7) / 8;
        let mut out: Vec<u8> = Vec::new();
        let mut i: usize = 0;
        while i < bytes
            invariant
                i <= bytes,
                n == b@.len(),
                n <= runtime::bit_limit(),
                bytes == (n + 7) / 8,
                out@ == packed(b@).take(i as int),
            decreases bytes - i,
        {
            let ghost at = 8 * i as int;
            let mut acc: u8 = 0;
            let mut k: usize = 0;
            assert(bits::window(b@, at, 0) =~= Seq::<bool>::empty());
            while k < 8
                invariant
                    k <= 8,
                    i < bytes,
                    n == b@.len(),
                    n <= runtime::bit_limit(),
                    bytes == (n + 7) / 8,
                    at == 8 * i,
                    acc == bits::number(bits::window(b@, at, k as nat)),
                decreases 8 - k,
            {
                let ghost w = bits::window(b@, at, k as nat);
                proof {
                    assert(bits::window(b@, at, (k + 1) as nat).drop_last() =~= w);
                    bits::lemma_number_bound(w);
                    power2::lemma2_to64();
                    if k < 7 {
                        power2::lemma_pow2_strictly_increases(k as nat, 7);
                    }
                }
                let set: bool = 8 * i + k < n && b[8 * i + k];
                acc = 2 * acc + if set {
                    1
                } else {
                    0
                };
                k += 1;
            }
            out.push(acc);
            assert(out@ =~= packed(b@).take(i + 1));
            i += 1;
        }
        assert(out@ =~= packed(b@));
        out
    }

    /// Builds a binary from fields, and keeps it in a register.
    pub fn bs_create_bin(
        ctx: &mut RuntimeContext,
        proc: &mut Process,
        label: &Term,
        live: usize,
        dst: &Term,
        list: &Term,
    ) -> (r: Result<DispatchResult, RtErr>)
        requires
            runtime::proc_ok(old(proc)@),
        ensures
            (final(ctx)@, final(proc)@, fail::result_view(r)) == created(
                old(ctx)@,
                old(proc)@,
                label@,
                live,
                dst@,
                list@,
            ),
    {
        let ops: Vec<CreateOp> = match Self::parse_ops(list) {
            Ok(ops) => ops,
            Err(e) => {
                return Err(e);
            },
        };
        let ghost o = ops_view(ops@);
        let ghost c = ctx@;
        let ghost p = proc@;
        let mut total: usize = 0;
        let mut i: usize = 0;
        assert(o.skip(0) =~= o);
        while i < ops.len()
            invariant
                i <= ops@.len(),
                o == ops_view(ops@),
                ctx@ == c,
                proc@ == p,
                c == old(ctx)@,
                p == old(proc)@,
                runtime::proc_ok(p),
                total <= runtime::bit_limit(),
                flattened(list@) matches Ok(t) && fields_of(t) == Ok::<Seq<CreateOpV>, RtErrV>(o),
                total_bits(c, p, total as int, o.skip(i as int)) == total_bits(c, p, 0, o),
            decreases ops@.len() - i,
        {
            assert(o.skip(i as int)[0] == ops@[i as int]@);
            assert(o.skip(i as int).skip(1) =~= o.skip(i + 1));
            let n: usize = match Self::op_bits(ctx, proc, &ops[i]) {
                Ok(n) => n,
                Err(e) => {
                    return Err(e);
                },
            };
            if n > (usize::MAX / 2 - 15) - total {
                return Err(system_limit());
            }
            total = total + n;
            i += 1;
        }
        assert(o.skip(i as int) =~= Seq::<CreateOpV>::empty());
        if total == 0 {
            return match ctx.store_value(
                Term::Binary(BinRef { bin: 0, offset: 0, bits: 0 }),
                dst,
                proc,
            ) {
                Ok(()) => Ok(DispatchResult::Normal),
                Err(e) => Err(e),
            };
        }
        let mut laid_bits: Vec<bool> = Vec::new();
        let mut k: usize = 0;
        assert(o.skip(0) =~= o);
        while k < ops.len()
            invariant
                k <= ops@.len(),
                o == ops_view(ops@),
                ctx@ == c,
                proc@ == p,
                c == old(ctx)@,
                p == old(proc)@,
                runtime::proc_ok(p),
                0 < total <= runtime::bit_limit(),
                flattened(list@) matches Ok(t) && fields_of(t) == Ok::<Seq<CreateOpV>, RtErrV>(o),
                total_bits(c, p, 0, o) == Ok::<int, RtErrV>(total as int),
                laid_bits@.len() <= runtime::bit_limit(),
                total_bits(c, p, laid_bits@.len() as int, o.skip(k as int)) == Ok::<int, RtErrV>(
                    total as int,
                ),
                laid(c, p, laid_bits@, o.skip(k as int)) == laid(c, p, Seq::empty(), o),
            decreases ops@.len() - k,
        {
            assert(o.skip(k as int)[0] == ops@[k as int]@);
            assert(o.skip(k as int).skip(1) =~= o.skip(k + 1));
            let ghost sofar = laid_bits@;
            match Self::lay(ctx, proc, &ops[k]) {
                Field::Laid(b) => {
                    let mut more: Vec<bool> = b;
                    laid_bits.append(&mut more);
                },
                Field::NoBinary => {
                    ctx.live = live;
                    return Ok(Self::maybe_jump_fail(ctx, label));
                },
                Field::Failed(e) => {
                    ctx.live = live;
                    return Err(e);
                },
            }
            k += 1;
        }
        assert(o.skip(k as int) =~= Seq::<CreateOpV>::empty());
        ctx.live = live;
        let data: Vec<u8> = Self::pack(&laid_bits);
        let bin: usize = proc.add_bytes(data);
        match ctx.store_value(
            Term::Binary(BinRef { bin, offset: 0, bits: total }),
            dst,
            proc,
        ) {
            Ok(()) => Ok(DispatchResult::Normal),
            Err(e) => Err(e),
        }
    }
}

// ---------------------------------------------------------------------------
// What holds of every binary that is built
// ---------------------------------------------------------------------------
/// The bits of a byte are those that it was made of.
pub proof fn lemma_byte_has_bits(s: Seq<bool>, k: int)
    requires
        s.len() == 8,
        0 <= k < 8,
    ensures
        bits::number(s) < 256,
        bits::bit_of(bits::number(s) as u8, k) == s[k],
{
    reveal_with_fuel(bits::number, 9);
    let n0: int = if s[0] { 1 } else { 0 };
    let n1: int = if s[1] { 1 } else { 0 };
    let n2: int = if s[2] { 1 } else { 0 };
    let n3: int = if s[3] { 1 } else { 0 };
    let n4: int = if s[4] { 1 } else { 0 };
    let n5: int = if s[5] { 1 } else { 0 };
    let n6: int = if s[6] { 1 } else { 0 };
    let n7: int = if s[7] { 1 } else { 0 };
    let x = bits::number(s) as int;
    assert(x == 128 * n0 + 64 * n1 + 32 * n2 + 16 * n3 + 8 * n4 + 4 * n5 + 2 * n6 + n7);
    assert(x / 128 == n0);
    assert(x / 64 == 2 * n0 + n1);
    assert(x / 32 == 4 * n0 + 2 * n1 + n2);
    assert(x / 16 == 8 * n0 + 4 * n1 + 2 * n2 + n3);
    assert(x / 8 == 16 * n0 + 8 * n1 + 4 * n2 + 2 * n3 + n4);
    assert(x / 4 == 32 * n0 + 16 * n1 + 8 * n2 + 4 * n3 + 2 * n4 + n5);
    assert(x / 2 == 64 * n0 + 32 * n1 + 16 * n2 + 8 * n3 + 4 * n4 + 2 * n5 + n6);
    assert(k == 0 || k == 1 || k == 2 || k == 3 || k == 4 || k == 5 || k == 6 || k == 7);
}

/// The bytes of a binary hold just the bits that it was built from.
pub proof fn law_bytes_hold_the_bits(b: Seq<bool>)
    ensures
        bits::bits_of(packed(b)).take(b.len() as int) == b,
{
    let got = bits::bits_of(packed(b)).take(b.len() as int);
    assert forall|i: int| 0 <= i < b.len() implies got[i] == b[i] by {
        let w = bits::window(b, 8 * (i / 8), 8);
        lemma_byte_has_bits(w, i % 8);
        assert(w[i % 8] == b[i]);
    }
    assert(got =~= b);
}

proof fn lemma_number_of_prefix(v: int, n: int, k: int)
    requires
        0 <= k <= n,
    ensures
        bits::number(number_bits(v, n, false).take(k)) == (v / power2::pow2((n - k) as nat) as int)
            % power2::pow2(k as nat) as int,
    decreases k,
{
    let s = number_bits(v, n, false);
    power2::lemma_pow2_pos((n - k) as nat);
    power2::lemma_pow2_pos(k as nat);
    if k == 0 {
        power2::lemma2_to64();
        assert(s.take(0) =~= Seq::<bool>::empty());
    } else {
        lemma_number_of_prefix(v, n, k - 1);
        assert(s.take(k).drop_last() =~= s.take(k - 1));
        let d = power2::pow2((n - k) as nat) as int;
        let e = power2::pow2((k - 1) as nat) as int;
        power2::lemma_pow2_unfold((n - k + 1) as nat);
        power2::lemma_pow2_unfold(k as nat);
        power2::lemma_pow2_pos((k - 1) as nat);
        lemma_half_of_quotient(v, d);
        let w = v / d;
        let h = w / 2;
        let b = w % 2;
        let q = h / e;
        let r = h % e;
        div_mod::lemma_fundamental_div_mod(h, e);
        assert(w == q * (2 * e) + (2 * r + b)) by (nonlinear_arith)
            requires
                w == 2 * h + b,
                h == e * q + r,
        ;
        div_mod::lemma_fundamental_div_mod_converse(w, 2 * e, q, 2 * r + b);
        assert(s.take(k).last() == low_bit(v, (n - k) as nat));
    }
}

/// A number that was laid out in so many bits, the highest first, is matched as that number.
pub proof fn law_built_number_matches(v: i64, n: nat)
    requires
        bs_match::expected(TermV::Small(v), n) is Some,
    ensures
        bs_match::expected(TermV::Small(v), n) == Some(
            bits::number(number_bits(v as int, n as int, false)) as u64,
        ),
{
    let s = number_bits(v as int, n as int, false);
    lemma_number_of_prefix(v as int, n as int, n as int);
    assert(s.take(n as int) =~= s);
    power2::lemma2_to64();
    power2::lemma2_to64_rest();
    power2::lemma_pow2_pos(n);
    let m = power2::pow2(n) as int;
    if v >= 0 {
        div_mod::lemma_small_mod(v as nat, m as nat);
    } else {
        div_mod::lemma_fundamental_div_mod_converse(v as int, m, -1, v + m);
    }
}

/// A number laid out in `n` bits, the highest first, is that number modulo 2 to the `n`.
pub proof fn law_number_laid_out(v: int, n: nat)
    ensures
        number_bits(v, n as int, false).len() == n,
        bits::number(number_bits(v, n as int, false)) == v % power2::pow2(n) as int,
{
    let s = number_bits(v, n as int, false);
    lemma_number_of_prefix(v, n as int, n as int);
    assert(s.take(n as int) =~= s);
    power2::lemma2_to64();
    let k = n as int;
    assert((k - k) as nat == 0);
    assert(power2::pow2((k - k) as nat) as int == 1);
    assert(v / 1 == v);
    assert(k as nat == n);
    power2::lemma_pow2_pos(n);
}

/// A number laid out with the low bytes first has the bytes of the same number with the high bytes
/// first, in reverse.
pub proof fn law_little_end_first(v: int, bytes: nat, i: int)
    requires
        0 <= i < bytes,
    ensures
        number_bits(v, 8 * bytes as int, true).subrange(8 * i, 8 * i + 8) == number_bits(
            v,
            8 * bytes as int,
            false,
        ).subrange(8 * (bytes - 1 - i), 8 * (bytes - 1 - i) + 8),
{
    let n = 8 * bytes as int;
    let a = number_bits(v, n, true).subrange(8 * i, 8 * i + 8);
    let b = number_bits(v, n, false).subrange(8 * (bytes - 1 - i), 8 * (bytes - 1 - i) + 8);
    assert forall|k: int| 0 <= k < 8 implies a[k] == b[k] by {
        assert((8 * i + k) / 8 == i);
        assert((8 * i + k) % 8 == k);
    }
    assert(a =~= b);
}

/// The bits that a field adds, where it adds any.
pub open spec fn bits_of_field(c: CtxV, p: ProcV, op: CreateOpV) -> Seq<bool> {
    field(c, p, op)->Laid_0
}

/// The fields of a binary stand one behind the other, in the order in which they are given, and
/// each is there whole.
pub proof fn law_fields_in_order(c: CtxV, p: ProcV, sofar: Seq<bool>, ops: Seq<CreateOpV>)
    ensures
        laid(c, p, sofar, ops) is Laid <==> forall|i: int|
            0 <= i < ops.len() ==> field(c, p, #[trigger] ops[i]) is Laid,
        laid(c, p, sofar, ops) matches FieldV::Laid(b) ==> b == sofar + ops.map_values(
            |op: CreateOpV| bits_of_field(c, p, op),
        ).flatten(),
    decreases ops.len(),
{
    let f = |op: CreateOpV| bits_of_field(c, p, op);
    let all = ops.map_values(f);
    if ops.len() > 0 {
        let more = ops.skip(1);
        assert(all.drop_first() =~= more.map_values(f));
        assert(all.flatten() == all.first() + all.drop_first().flatten());
        if let FieldV::Laid(b) = field(c, p, ops[0]) {
            law_fields_in_order(c, p, sofar + b, more);
            assert(all.first() == b);
            assert(sofar + b + more.map_values(f).flatten() =~= sofar + all.flatten());
            assert forall|i: int| 0 <= i < ops.len() && (forall|j: int|
                0 <= j < more.len() ==> field(c, p, #[trigger] more[j]) is Laid) implies field(
                c,
                p,
                #[trigger] ops[i],
            ) is Laid by {
                if i > 0 {
                    assert(more[i - 1] == ops[i]);
                }
            }
            assert forall|j: int| 0 <= j < more.len() && (forall|i: int|
                0 <= i < ops.len() ==> field(c, p, #[trigger] ops[i]) is Laid) implies field(
                c,
                p,
                #[trigger] more[j],
            ) is Laid by {
                assert(more[j] == ops[j + 1]);
            }
        }
    } else {
        assert(sofar + all.flatten() =~= sofar);
    }
}

/// What a field adds: a whole number its value in its bits, a binary all its bits or as many of the
/// first as are asked for.
pub proof fn law_field_holds_value(
    c: CtxV,
    p: ProcV,
    flags: BsFlags,
    unit: usize,
    size: usize,
    v: i64,
    b: BinRef,
)
    ensures
        !flags.little ==> (field(
            c,
            p,
            CreateOpV::Integer { unit, flags, src: TermV::Small(v), size },
        ) matches FieldV::Laid(s) && s.len() == size * unit && bits::number(s) == v as int
            % power2::pow2((size * unit) as nat) as int),
        runtime::valid(p, b) ==> field(
            c,
            p,
            CreateOpV::Binary { unit, flags, src: TermV::Binary(b), part: SizeOrAll::All },
        ) == FieldV::Laid(runtime::bits_at(p, b)),
        runtime::valid(p, b) && size <= b.bits ==> field(
            c,
            p,
            CreateOpV::Binary {
                unit,
                flags,
                src: TermV::Binary(b),
                part: SizeOrAll::Bits(BitSize { bits: size }),
            },
        ) == FieldV::Laid(runtime::bits_at(p, b).take(size as int)),
        size > b.bits && runtime::valid(p, b) ==> field(
            c,
            p,
            CreateOpV::Binary {
                unit,
                flags,
                src: TermV::Binary(b),
                part: SizeOrAll::Bits(BitSize { bits: size }),
            },
        ) is Failed,
{
    assert(0 <= size * unit) by (nonlinear_arith)
        requires
            0 <= size,
            0 <= unit,
    ;
    law_number_laid_out(v as int, (size * unit) as nat);
}

proof fn lemma_laid_len(c: CtxV, p: ProcV, sofar: Seq<bool>, ops: Seq<CreateOpV>, n: int)
    requires
        total_bits(c, p, sofar.len() as int, ops) == Ok::<int, RtErrV>(n),
        laid(c, p, sofar, ops) is Laid,
    ensures
        laid(c, p, sofar, ops)->Laid_0.len() == n,
    decreases ops.len(),
{
    if ops.len() > 0 {
        let b = field(c, p, ops[0])->Laid_0;
        assert(b.len() == field_bits(c, p, ops[0])->Ok_0) by {
            match ops[0] {
                CreateOpV::Integer { unit, flags, src, size } => {
                    assert(0 <= size * unit) by (nonlinear_arith)
                        requires
                            0 <= size,
                            0 <= unit,
                    ;
                },
                CreateOpV::Binary { unit, flags, src, part } => {},
            }
        }
        lemma_laid_len(c, p, sofar + b, ops.skip(1), n);
    }
}

/// The binary that is built holds its fields: the bits of the first, then those of the second, and so
/// on, and none besides. It stands in storage of its own and in the register that was named.
pub proof fn law_built_binary_holds_fields(
    c: CtxV,
    p: ProcV,
    label: TermV,
    live: usize,
    reg: usize,
    terms: Seq<TermV>,
    ops: Seq<CreateOpV>,
)
    requires
        reg < c.x.len(),
        p.bins.len() <= usize::MAX,
        fields_of(terms) == Ok::<Seq<CreateOpV>, RtErrV>(ops),
        total_bits(c, p, 0, ops) is Ok,
        laid(c, p, Seq::empty(), ops) is Laid,
    ensures
        ({
            let (c1, p1, r) = created(c, p, label, live, TermV::RegX(reg), TermV::Tuple(terms));
            &&& r == Ok::<DispatchResult, RtErrV>(DispatchResult::Normal)
            &&& c1.ip == c.ip
            &&& c1.x.len() == c.x.len()
            &&& forall|i: int| 0 <= i < c.x.len() && i != reg ==> c1.x[i] == c.x[i]
            &&& p.bins.is_prefix_of(p1.bins)
            &&& p1.matches == p.matches && p1.y == p.y
            &&& c1.x[reg as int] matches TermV::Binary(b) && runtime::valid(p1, b)
                && runtime::bits_at(p1, b) == ops.map_values(
                |op: CreateOpV| bits_of_field(c, p, op),
            ).flatten()
        }),
{
    let e = Seq::<bool>::empty();
    let n = total_bits(c, p, 0, ops)->Ok_0;
    let b = laid(c, p, e, ops)->Laid_0;
    law_fields_in_order(c, p, e, ops);
    lemma_laid_len(c, p, e, ops, n);
    let all = ops.map_values(|op: CreateOpV| bits_of_field(c, p, op)).flatten();
    assert(e + all =~= all);
    law_bytes_hold_the_bits(b);
    let (c1, p1, r) = created(c, p, label, live, TermV::RegX(reg), TermV::Tuple(terms));
    assert(p.bins =~= p1.bins.subrange(0, p.bins.len() as int));
    if n == 0 {
        assert(b =~= Seq::<bool>::empty());
    } else {
        lemma_total_bound(c, p, 0, ops);
        let g = c1.x[reg as int]->Binary_0;
        assert(p1.bins[p.bins.len() as int] == packed(b));
        assert(bits::bits_of(packed(b)).len() >= n);
        assert(runtime::bits_at(p1, g) =~= bits::bits_of(packed(b)).take(n));
    }
}

proof fn lemma_total_bound(c: CtxV, p: ProcV, sum: int, ops: Seq<CreateOpV>)
    requires
        total_bits(c, p, sum, ops) is Ok,
        0 <= sum <= runtime::bit_limit(),
    ensures
        total_bits(c, p, sum, ops)->Ok_0 <= runtime::bit_limit(),
        total_bits(c, p, sum, ops)->Ok_0 >= sum,
    decreases ops.len(),
{
    if ops.len() > 0 {
        let n = field_bits(c, p, ops[0])->Ok_0;
        assert(n >= 0) by {
            match ops[0] {
                CreateOpV::Integer { unit, flags, src, size } => {
                    assert(0 <= size * unit) by (nonlinear_arith)
                        requires
                            0 <= size,
                            0 <= unit,
                    ;
                },
                CreateOpV::Binary { unit, flags, src, part } => {},
            }
        }
        lemma_total_bound(c, p, sum + n, ops.skip(1));
    }
}

/// Six terms are one field: its kind, its unit, its flags, its source and its size, in their places;
/// what follows them are the fields behind it.
pub proof fn law_six_terms_a_field(
    kind: bool,
    seg: TermV,
    unit: i64,
    src: TermV,
    size: i64,
    more: Seq<TermV>,
)
    requires
        0 < unit <= usize::MAX,
        0 <= size <= usize::MAX,
        size * unit <= runtime::bit_limit(),
        fields_of(more) is Ok,
    ensures
        ({
            let t = seq![
                TermV::Atom(
                    if kind {
                        "integer"@
                    } else {
                        "binary"@
                    },
                ),
                seg,
                TermV::Small(unit),
                TermV::Nil,
                src,
                TermV::Small(size),
            ] + more;
            fields_of(t) matches Ok(ops) && ops.len() == fields_of(more)->Ok_0.len() + 1 && ops.skip(1)
                == fields_of(more)->Ok_0 && if kind {
                ops[0] matches CreateOpV::Integer { unit: u, flags, src: f, size: z } && u == unit && f
                    == src && z == size && !flags.little && !flags.signed
            } else {
                ops[0] matches CreateOpV::Binary { unit: u, flags, src: f, part } && f == src && part
                    == SizeOrAll::Bits(BitSize { bits: (size * unit) as usize })
            }
        }),
{
    reveal_strlit("integer");
    reveal_strlit("binary");
    assert("integer"@.len() == 7 && "binary"@.len() == 6);
    let t = seq![
        TermV::Atom(
            if kind {
                "integer"@
            } else {
                "binary"@
            },
        ),
        seg,
        TermV::Small(unit),
        TermV::Nil,
        src,
        TermV::Small(size),
    ] + more;
    assert(t.skip(6) =~= more);
    let op = field_of(t)->Ok_0;
    let rest = fields_of(more)->Ok_0;
    assert((seq![op] + rest).skip(1) =~= rest);
}

/// A flag counts where its name stands anywhere in the list.
pub proof fn law_flags_by_name(list: TermV, name: Seq<char>)
    ensures
        names(list, name) <==> items(list).contains(TermV::Atom(name)),
        named_flags(list).little == names(list, "little"@),
        named_flags(list).signed == names(list, "signed"@),
        named_flags(list).native == names(list, "native"@),
        named_flags(list).aligned == names(list, "aligned"@),
        named_flags(list).exact == names(list, "exact"@),
    decreases list,
{
    if let TermV::Cons(head, tail) = list {
        law_flags_by_name(*tail, name);
        let rest = items(*tail);
        let all = seq![*head] + rest;
        assert(all[0] == *head);
        if rest.contains(TermV::Atom(name)) {
            let i = choose|i: int| 0 <= i < rest.len() && rest[i] == TermV::Atom(name);
            assert(all[i + 1] == TermV::Atom(name));
        }
        if all.contains(TermV::Atom(name)) {
            let i = choose|i: int| 0 <= i < all.len() && all[i] == TermV::Atom(name);
            if i > 0 {
                assert(rest[i - 1] == TermV::Atom(name));
            }
        }
    }
}

/// What a flag counts in a number.
pub open spec fn worth(flag: bool, n: int) -> int {
    if flag {
        n
    } else {
        0
    }
}

/// The flags of a number add up to it.
pub proof fn law_flags_of_number(n: i64)
    requires
        0 <= n < 32,
    ensures
        ({
            let f = number_flags(n);
            n as int == worth(f.aligned, 1) + worth(f.little, 2) + worth(f.signed, 4) + worth(
                f.exact,
                8,
            ) + worth(f.native, 16)
        }),
{
}

} // verus!
