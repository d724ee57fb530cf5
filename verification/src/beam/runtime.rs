//! Registers, the stack and the data that opcodes work on.
use vstd::prelude::*;
use crate::defs::bits;
use crate::defs::bitsize::BitSize;
use crate::fail;
use crate::fail::{ExceptionType, RtErr, RtErrV};
use crate::term;
use crate::term::{BinRef, Term, TermV};

verus! {

/// A match context: a binary, and how many of its bits have been matched.
#[derive(Copy, Clone, Debug, PartialEq, Eq, Structural)]
pub struct MatchState {
    pub src: BinRef,
    pub offset: usize,
}

/// The binary that is being built, and how many of its bits stand.
#[derive(Copy, Clone, Debug, PartialEq, Eq, Structural)]
pub struct CurrentBin {
    pub bin: usize,
    pub offset: BitSize,
}

/// The registers of the machine.
#[derive(Debug)]
pub struct RuntimeContext {
    /// The registers X.
    pub x: Vec<Term>,
    /// The next opcode.
    pub ip: usize,
    /// Where the running function returns to.
    pub cp: Option<usize>,
    /// How many registers X are in use.
    pub live: usize,
    /// The binary that is being built.
    pub current_bin: Option<CurrentBin>,
    /// The largest binary, in bytes.
    pub max_binary: usize,
}

/// Messages, and which of them is looked at.
#[derive(Debug)]
pub struct Mailbox {
    pub messages: Vec<Term>,
    pub read_index: usize,
}

/// A process: its stack and its data.
#[derive(Debug)]
pub struct Process {
    /// The registers Y.
    pub y: Vec<Term>,
    /// The bytes of the binaries.
    pub bins: Vec<Vec<u8>>,
    /// The match contexts.
    pub matches: Vec<MatchState>,
    /// How many frames would catch an exception.
    pub num_catches: usize,
    /// The exception that is being handled.
    pub exception: Option<(ExceptionType, Term)>,
    pub mailbox: Mailbox,
}

/// What the registers of the machine hold.
#[verifier::ext_equal]
pub struct CtxV {
    pub x: Seq<TermV>,
    pub ip: usize,
    pub cp: Option<usize>,
    pub live: usize,
    pub current: Option<CurrentBin>,
    pub max_binary: usize,
}

/// What a process holds.
#[verifier::ext_equal]
pub struct ProcV {
    pub y: Seq<TermV>,
    pub bins: Seq<Seq<u8>>,
    pub matches: Seq<MatchState>,
    pub catches: usize,
    pub exception: Option<(ExceptionType, TermV)>,
    pub messages: Seq<TermV>,
    pub read_index: usize,
}

/// What pieces of storage hold.
pub open spec fn bins_view(b: Seq<Vec<u8>>) -> Seq<Seq<u8>> {
    b.map_values(|v: Vec<u8>| v@)
}

impl View for RuntimeContext {
    type V = CtxV;

    open spec fn view(&self) -> CtxV {
        CtxV {
            x: term::terms_view(self.x@),
            ip: self.ip,
            cp: self.cp,
            live: self.live,
            current: self.current_bin,
            max_binary: self.max_binary,
        }
    }
}

impl View for Process {
    type V = ProcV;

    open spec fn view(&self) -> ProcV {
        ProcV {
            y: term::terms_view(self.y@),
            bins: bins_view(self.bins@),
            matches: self.matches@,
            catches: self.num_catches,
            exception: match self.exception {
                Some((c, t)) => Some((c, t@)),
                None => None,
            },
            messages: term::terms_view(self.mailbox.messages@),
            read_index: self.mailbox.read_index,
        }
    }
}

/// What holds of a process: the bits of the storage can be counted, and each match context stands
/// inside its binary.
pub open spec fn proc_ok(p: ProcV) -> bool {
    &&& forall|i: int| 0 <= i < p.bins.len() ==> 8 * (#[trigger] p.bins[i]).len() <= usize::MAX / 2 - 8
    &&& forall|i: int|
        0 <= i < p.matches.len() ==> valid(p, (#[trigger] p.matches[i]).src)
            && p.matches[i].offset <= p.matches[i].src.bits
}

/// Whether such bits stand somewhere. No bits at all need no place.
pub open spec fn valid(p: ProcV, b: BinRef) -> bool {
    b.bits == 0 || (b.bin < p.bins.len() && b.offset + b.bits <= 8 * p.bins[b.bin as int].len())
}

/// The bits of a binary.
pub open spec fn bits_at(p: ProcV, b: BinRef) -> Seq<bool> {
    if b.bits == 0 {
        Seq::empty()
    } else {
        bits::bits_of(p.bins[b.bin as int]).subrange(b.offset as int, b.offset + b.bits)
    }
}

/// The most bits that a binary can have.
pub open spec fn bit_limit() -> int {
    usize::MAX / 2 - 15
}

/// The binary without bits.
pub open spec fn empty_binary() -> TermV {
    TermV::Binary(BinRef { bin: 0, offset: 0, bits: 0 })
}

/// The code goes on at a label.
pub open spec fn jumped(c: CtxV, label: TermV) -> CtxV {
    match label {
        TermV::Code(n) => CtxV { ip: n, ..c },
        _ => c,
    }
}

/// The value of an operand.
pub open spec fn loaded(c: CtxV, p: ProcV, t: TermV) -> TermV {
    match t {
        TermV::RegX(n) => if n < c.x.len() {
            c.x[n as int]
        } else {
            TermV::NonValue
        },
        TermV::RegY(n) => if n < p.y.len() {
            p.y[n as int]
        } else {
            TermV::NonValue
        },
        _ => t,
    }
}

/// Whether an operand names a register in which a value can be kept.
pub open spec fn is_register(c: CtxV, p: ProcV, dst: TermV) -> bool {
    match dst {
        TermV::RegX(n) => n < c.x.len(),
        TermV::RegY(n) => n < p.y.len(),
        _ => false,
    }
}

/// A value is kept in a register.
pub open spec fn stored(c: CtxV, p: ProcV, val: TermV, dst: TermV) -> (CtxV, ProcV) {
    if !is_register(c, p, dst) {
        (c, p)
    } else {
        match dst {
            TermV::RegX(n) => (CtxV { x: c.x.update(n as int, val), ..c }, p),
            TermV::RegY(n) => (c, ProcV { y: p.y.update(n as int, val), ..p }),
            _ => (c, p),
        }
    }
}

/// What keeping a value gives.
pub open spec fn store_result(c: CtxV, p: ProcV, dst: TermV) -> Result<(), RtErrV> {
    if is_register(c, p, dst) {
        Ok(())
    } else {
        Err(RtErrV::BadRegister)
    }
}

impl RuntimeContext {
    /// Registers that are all empty.
    pub fn new(registers: usize, max_binary: usize) -> (r: Self)
        ensures
            r@ == (CtxV {
                x: Seq::new(registers as nat, |i: int| TermV::Nil),
                ip: 0,
                cp: None,
                live: 0,
                current: None,
                max_binary,
            }),
    {
        let mut x: Vec<Term> = Vec::new();
        let mut i: usize = 0;
        while i < registers
            invariant
                i <= registers,
                x@.len() == i,
                forall|j: int| 0 <= j < i ==> (#[trigger] x@[j])@ == TermV::Nil,
            decreases registers - i,
        {
            x.push(Term::Nil);
            i += 1;
        }
        let r = RuntimeContext { x, ip: 0, cp: None, live: 0, current_bin: None, max_binary };
        assert(r@.x =~= Seq::new(registers as nat, |i: int| TermV::Nil));
        r
    }

    /// Goes on at a label.
    pub fn jump(&mut self, label: &Term)
        ensures
            final(self)@ == jumped(old(self)@, label@),
    {
        match label {
            Term::Code(n) => {
                self.ip = *n;
            },
            _ => {},
        }
    }

    /// The value of a register X.
    pub fn get_x(&self, n: usize) -> (r: Term)
        requires
            n < self@.x.len(),
        ensures
            r@ == self@.x[n as int],
    {
        self.x[n].copy()
    }

    /// Keeps a value in a register X.
    pub fn set_x(&mut self, n: usize, val: Term)
        requires
            n < old(self)@.x.len(),
        ensures
            final(self)@ == (CtxV { x: old(self)@.x.update(n as int, val@), ..old(self)@ }),
    {
        let ghost was = self@;
        let ghost v = val@;
        self.x.set(n, val);
        assert(self@.x =~= was.x.update(n as int, v));
    }

    /// The value of an operand.
    pub fn load(&self, t: &Term, proc: &Process) -> (r: Term)
        ensures
            r@ == loaded(self@, proc@, t@),
    {
        match t {
            Term::RegX(n) => if *n < self.x.len() {
                self.x[*n].copy()
            } else {
                Term::NonValue
            },
            Term::RegY(n) => if *n < proc.y.len() {
                proc.y[*n].copy()
            } else {
                Term::NonValue
            },
            _ => t.copy(),
        }
    }

    /// Keeps a value in the register that an operand names.
    pub fn store_value(&mut self, val: Term, dst: &Term, proc: &mut Process) -> (r: Result<
        (),
        RtErr,
    >)
        ensures
            (final(self)@, final(proc)@) == stored(old(self)@, old(proc)@, val@, dst@),
            fail::result_view(r) == store_result(old(self)@, old(proc)@, dst@),
    {
        let ghost c = self@;
        let ghost p = proc@;
        let ghost v = val@;
        match dst {
            Term::RegX(n) => {
                if *n < self.x.len() {
                    self.set_x(*n, val);
                    return Ok(());
                }
            },
            Term::RegY(n) => {
                if *n < proc.y.len() {
                    proc.y.set(*n, val);
                    assert(proc@.y =~= p.y.update(*n as int, v));
                    return Ok(());
                }
            },
            _ => {},
        }
        Err(RtErr::BadRegister)
    }
}

impl Process {
    /// A process with so many registers Y.
    pub fn new(registers: usize) -> (r: Self)
        ensures
            r@ == (ProcV {
                y: Seq::new(registers as nat, |i: int| TermV::Nil),
                bins: Seq::empty(),
                matches: Seq::empty(),
                catches: 0,
                exception: None,
                messages: Seq::empty(),
                read_index: 0,
            }),
            proc_ok(r@),
    {
        let mut y: Vec<Term> = Vec::new();
        let mut i: usize = 0;
        while i < registers
            invariant
                i <= registers,
                y@.len() == i,
                forall|j: int| 0 <= j < i ==> (#[trigger] y@[j])@ == TermV::Nil,
            decreases registers - i,
        {
            y.push(Term::Nil);
            i += 1;
        }
        let r = Process {
            y,
            bins: Vec::new(),
            matches: Vec::new(),
            num_catches: 0,
            exception: None,
            mailbox: Mailbox { messages: Vec::new(), read_index: 0 },
        };
        assert(r@.y =~= Seq::new(registers as nat, |i: int| TermV::Nil));
        assert(r@.bins =~= Seq::<Seq<u8>>::empty());
        assert(r@.messages =~= Seq::<TermV>::empty());
        r
    }

    /// Whether such bits stand somewhere.
    pub fn is_valid(&self, b: BinRef) -> (r: bool)
        requires
            proc_ok(self@),
        ensures
            r == valid(self@, b),
    {
        if b.bits == 0 {
            return true;
        }
        if b.bin >= self.bins.len() {
            return false;
        }
        assert(self@.bins[b.bin as int] == self.bins@[b.bin as int]@);
        let total: usize = 8 * self.bins[b.bin].len();
        b.bits <= total && b.offset <= total - b.bits
    }

    /// Adds storage that is all zeros.
    pub fn add_zeros(&mut self, bytes: usize) -> (r: usize)
        requires
            proc_ok(old(self)@),
            8 * bytes <= usize::MAX / 2 - 8,
        ensures
            r == old(self)@.bins.len(),
            final(self)@ == (ProcV {
                bins: old(self)@.bins.push(Seq::new(bytes as nat, |i: int| 0u8)),
                ..old(self)@
            }),
            proc_ok(final(self)@),
    {
        let ghost p = self@;
        let mut v: Vec<u8> = Vec::new();
        let mut i: usize = 0;
        while i < bytes
            invariant
                i <= bytes,
                v@ == Seq::new(i as nat, |k: int| 0u8),
            decreases bytes - i,
        {
            v.push(0);
            i += 1;
            assert(v@ =~= Seq::new(i as nat, |k: int| 0u8));
        }
        let n: usize = self.bins.len();
        self.bins.push(v);
        proof {
            assert(self@.bins =~= p.bins.push(Seq::new(bytes as nat, |i: int| 0u8)));
            lemma_more_bins(p, Seq::new(bytes as nat, |i: int| 0u8));
        }
        n
    }

    /// Adds storage with these bytes.
    pub fn add_bytes(&mut self, data: Vec<u8>) -> (r: usize)
        requires
            proc_ok(old(self)@),
            8 * data@.len() <= usize::MAX / 2 - 8,
        ensures
            r == old(self)@.bins.len(),
            final(self)@ == (ProcV { bins: old(self)@.bins.push(data@), ..old(self)@ }),
            proc_ok(final(self)@),
    {
        let ghost p = self@;
        let ghost d = data@;
        let n: usize = self.bins.len();
        self.bins.push(data);
        proof {
            assert(self@.bins =~= p.bins.push(d));
            lemma_more_bins(p, d);
        }
        n
    }

    /// Starts to match a binary.
    pub fn add_match(&mut self, src: BinRef) -> (r: usize)
        requires
            proc_ok(old(self)@),
            valid(old(self)@, src),
        ensures
            r == old(self)@.matches.len(),
            final(self)@ == (ProcV {
                matches: old(self)@.matches.push(MatchState { src, offset: 0 }),
                ..old(self)@
            }),
            proc_ok(final(self)@),
    {
        let n: usize = self.matches.len();
        self.matches.push(MatchState { src, offset: 0 });
        assert(self@.bins =~= old(self)@.bins);
        n
    }

    /// Forgets the exception.
    pub fn clear_exception(&mut self)
        ensures
            final(self)@ == (ProcV { exception: None, ..old(self)@ }),
    {
        self.exception = None;
    }
}

/// More storage harms nothing.
pub proof fn lemma_more_bins(p: ProcV, data: Seq<u8>)
    requires
        proc_ok(p),
        8 * data.len() <= usize::MAX / 2 - 8,
    ensures
        proc_ok(ProcV { bins: p.bins.push(data), ..p }),
{
    let q = ProcV { bins: p.bins.push(data), ..p };
    assert forall|i: int| 0 <= i < q.matches.len() implies valid(q, (#[trigger] q.matches[i]).src)
        && q.matches[i].offset <= q.matches[i].src.bits by {
        assert(valid(p, p.matches[i].src));
    }
}

/// A value that is kept in a register is found there, and every other register holds what it held;
/// what is no register keeps nothing.
pub proof fn law_stored_is_loaded(c: CtxV, p: ProcV, val: TermV, dst: TermV, other: TermV)
    requires
        dst is RegX || dst is RegY,
        other is RegX || other is RegY,
        other != dst,
    ensures
        ({
            let (d, q) = stored(c, p, val, dst);
            &&& store_result(c, p, dst) is Ok ==> loaded(d, q, dst) == val
            &&& store_result(c, p, dst) is Err ==> (d, q) == (c, p)
            &&& loaded(d, q, other) == loaded(c, p, other)
            &&& d.x.len() == c.x.len() && q.y.len() == p.y.len()
            &&& d.ip == c.ip && q.bins == p.bins && q.matches == p.matches && q.messages
                == p.messages
        }),
        dst matches TermV::RegX(n) ==> (n < c.x.len() <==> store_result(c, p, dst) is Ok),
        dst matches TermV::RegY(n) ==> (n < p.y.len() <==> store_result(c, p, dst) is Ok),
{
}

/// An operand that is no register stands for itself; a label is where the code goes on.
pub proof fn law_operands_and_labels(c: CtxV, p: ProcV, t: TermV, n: usize)
    ensures
        !(t is RegX) && !(t is RegY) ==> loaded(c, p, t) == t,
        jumped(c, TermV::Code(n)).ip == n,
        jumped(c, TermV::Code(n)).x == c.x,
        jumped(c, TermV::Code(n)).live == c.live,
{
}

} // verus!
