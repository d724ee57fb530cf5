//! Raising and catching exceptions.
use vstd::prelude::*;
use crate::beam::disp_result::DispatchResult;
use crate::beam::runtime;
use crate::beam::runtime::{CtxV, ProcV, Process, RuntimeContext};
use crate::fail;
use crate::fail::{generic_tuple2_fail, tuple2, ExceptionType, RtErr, RtErrV};
use crate::term;
use crate::term::{Term, TermV};

verus! {

/// A value is kept in a register Y.
pub open spec fn y_set(p: ProcV, reg: TermV, val: TermV) -> (ProcV, Result<(), RtErrV>) {
    match reg {
        TermV::RegY(n) => if n < p.y.len() {
            (ProcV { y: p.y.update(n as int, val), ..p }, Ok(()))
        } else {
            (p, Err(RtErrV::BadRegister))
        },
        _ => (p, Err(RtErrV::BadRegister)),
    }
}

fn set_y(proc: &mut Process, reg: &Term, val: Term) -> (r: Result<(), RtErr>)
    ensures
        (final(proc)@, fail::result_view(r)) == y_set(old(proc)@, reg@, val@),
{
    let ghost p = proc@;
    let ghost v = val@;
    match reg {
        Term::RegY(n) => {
            if *n < proc.y.len() {
                proc.y.set(*n, val);
                assert(proc@.y =~= p.y.update(*n as int, v));
                return Ok(());
            }
        },
        _ => {},
    }
    Err(RtErr::BadRegister)
}

/// What keeping a value gives.
pub open spec fn normal(r: Result<(), RtErrV>) -> Result<DispatchResult, RtErrV> {
    match r {
        Ok(()) => Ok(DispatchResult::Normal),
        Err(e) => Err(e),
    }
}

/// A frame that catches exceptions is set up.
pub open spec fn guarded(p: ProcV, reg: TermV, at: usize) -> (ProcV, Result<DispatchResult, RtErrV>) {
    let (q, r) = y_set(
        ProcV { catches: (p.catches + 1) as usize, ..p },
        reg,
        TermV::Catch(at),
    );
    (q, normal(r))
}

/// A frame that catches exceptions is taken down.
pub open spec fn unguarded(p: ProcV, reg: TermV) -> (ProcV, Result<(), RtErrV>) {
    y_set(ProcV { catches: (p.catches - 1) as usize, ..p }, reg, TermV::Nil)
}

/// What came with an exception moves to the first registers.
pub open spec fn shifted(c: CtxV) -> CtxV {
    CtxV { x: c.x.update(0, c.x[1]).update(1, c.x[2]).update(2, c.x[3]), ..c }
}

fn guard(proc: &mut Process, reg: &Term, label: &Term) -> (r: Result<DispatchResult, RtErr>)
    requires
        old(proc)@.catches < usize::MAX,
        label@ is Code,
    ensures
        (final(proc)@, fail::result_view(r)) == guarded(old(proc)@, reg@, label@->Code_0),
{
    let at: usize = match label {
        Term::Code(n) => *n,
        _ => 0,
    };
    proc.num_catches = proc.num_catches + 1;
    match set_y(proc, reg, Term::Catch(at)) {
        Ok(()) => Ok(DispatchResult::Normal),
        Err(e) => Err(e),
    }
}

fn unguard(proc: &mut Process, reg: &Term) -> (r: Result<(), RtErr>)
    requires
        old(proc)@.catches > 0,
    ensures
        (final(proc)@, fail::result_view(r)) == unguarded(old(proc)@, reg@),
{
    proc.num_catches = proc.num_catches - 1;
    set_y(proc, reg, Term::Nil)
}

fn shift(ctx: &mut RuntimeContext)
    requires
        old(ctx)@.x.len() >= 4,
    ensures
        final(ctx)@ == shifted(old(ctx)@),
{
    let a: Term = ctx.get_x(1);
    let b: Term = ctx.get_x(2);
    let c: Term = ctx.get_x(3);
    ctx.set_x(0, a);
    ctx.set_x(1, b);
    ctx.set_x(2, c);
}

/// Begins to catch exceptions.
pub struct OpcodeTry;

impl OpcodeTry {
    /// Exceptions go to the label from now on.
    pub fn try_opcode(proc: &mut Process, yreg: &Term, label: &Term) -> (r: Result<
        DispatchResult,
        RtErr,
    >)
        requires
            old(proc)@.catches < usize::MAX,
            label@ is Code,
        ensures
            (final(proc)@, fail::result_view(r)) == guarded(old(proc)@, yreg@, label@->Code_0),
    {
        guard(proc, yreg, label)
    }
}

/// The end of what was tried.
pub open spec fn try_ended(c: CtxV, p: ProcV, reg: TermV) -> (
    CtxV,
    ProcV,
    Result<DispatchResult, RtErrV>,
) {
    let (q, r) = unguarded(p, reg);
    if r is Ok && c.x[0] == TermV::NonValue {
        (shifted(c), ProcV { exception: None, ..q }, Ok(DispatchResult::Normal))
    } else {
        (c, q, normal(r))
    }
}

/// Ends to catch exceptions.
pub struct OpcodeTryEnd;

impl OpcodeTryEnd {
    /// Exceptions are no longer caught. Where one was, what came with it moves to the first
    /// registers.
    pub fn try_end(ctx: &mut RuntimeContext, proc: &mut Process, yreg: &Term) -> (r: Result<
        DispatchResult,
        RtErr,
    >)
        requires
            old(proc)@.catches > 0,
            old(ctx)@.x.len() >= 4,
        ensures
            (final(ctx)@, final(proc)@, fail::result_view(r)) == try_ended(
                old(ctx)@,
                old(proc)@,
                yreg@,
            ),
    {
        match unguard(proc, yreg) {
            Ok(()) => {},
            Err(e) => {
                return Err(e);
            },
        }
        assert(ctx@.x[0] == ctx.x@[0]@);
        if ctx.x[0].is_non_value() {
            proc.clear_exception();
            shift(ctx);
        }
        Ok(DispatchResult::Normal)
    }
}

/// Begins to look at an exception.
pub struct OpcodeTryCase;

impl OpcodeTryCase {
    /// The exception is taken up: what came with it moves to the first registers.
    pub fn try_case(ctx: &mut RuntimeContext, proc: &mut Process, yreg: &Term) -> (r: Result<
        DispatchResult,
        RtErr,
    >)
        requires
            old(proc)@.catches > 0,
            old(ctx)@.x.len() >= 4,
        ensures
            ({
                let (q, kept) = unguarded(old(proc)@, yreg@);
                &&& fail::result_view(r) == normal(kept)
                &&& kept is Ok ==> final(ctx)@ == shifted(old(ctx)@) && final(proc)@ == (ProcV {
                    exception: None,
                    ..q
                })
                &&& kept is Err ==> final(ctx)@ == old(ctx)@ && final(proc)@ == q
            }),
    {
        match unguard(proc, yreg) {
            Ok(()) => {},
            Err(e) => {
                return Err(e);
            },
        }
        proc.clear_exception();
        shift(ctx);
        Ok(DispatchResult::Normal)
    }
}

/// The class of an exception that a stack trace tells.
pub fn get_trace_from_exc(trace: &Term) -> (r: Option<ExceptionType>)
    ensures
        r == if trace@ == TermV::Nil {
            None::<ExceptionType>
        } else {
            Some(ExceptionType::Error)
        },
{
    if trace.is_nil() {
        None
    } else {
        Some(ExceptionType::Error)
    }
}

/// Raises an exception.
pub struct OpcodeRaise;

impl OpcodeRaise {
    /// Raises an exception with a value.
    pub fn raise(trace: &Term, val: Term) -> (r: Result<DispatchResult, RtErr>)
        ensures
            r matches Err(e) && e@ == RtErrV::Exception(ExceptionType::Error, val@),
    {
        let class: ExceptionType = match get_trace_from_exc(trace) {
            Some(c) => c,
            None => ExceptionType::Error,
        };
        Err(RtErr::Exception(class, val))
    }
}

/// No clause took the value.
pub struct OpcodeTryCaseEnd;

impl OpcodeTryCaseEnd {
    /// Raises that no clause took a value.
    pub fn try_case_end(val: Term) -> (r: Result<DispatchResult, RtErr>)
        ensures
            r matches Err(e) && e@ == fail::pair_error("try_clause"@, val@),
    {
        Err(generic_tuple2_fail("try_clause", val))
    }
}

/// The class that an atom names.
pub open spec fn class_of(t: TermV) -> ExceptionType {
    if t == TermV::Atom("error"@) {
        ExceptionType::Error
    } else if t == TermV::Atom("exit"@) {
        ExceptionType::Exit
    } else if t == TermV::Atom("throw"@) {
        ExceptionType::Throw
    } else {
        ExceptionType::Error
    }
}

/// Raises an exception again.
pub struct OpcodeRawRaise;

impl OpcodeRawRaise {
    /// Raises the value in register 1, with the class in register 0.
    pub fn raw_raise(ctx: &RuntimeContext) -> (r: Result<DispatchResult, RtErr>)
        requires
            ctx@.x.len() >= 2,
        ensures
            r matches Err(e) && e@ == RtErrV::Exception(class_of(ctx@.x[0]), ctx@.x[1]),
    {
        let class: Term = ctx.get_x(0);
        let val: Term = ctx.get_x(1);
        let t: ExceptionType = if class.is_atom_of("error") {
            ExceptionType::Error
        } else if class.is_atom_of("exit") {
            ExceptionType::Exit
        } else if class.is_atom_of("throw") {
            ExceptionType::Throw
        } else {
            ExceptionType::Error
        };
        Err(RtErr::Exception(t, val))
    }
}

/// A function: its module, its name and how many arguments it takes.
#[derive(Debug, PartialEq, Eq)]
pub struct Mfa {
    pub m: Term,
    pub f: Term,
    pub arity: u32,
}

/// A stack trace of one function, or of none.
pub open spec fn trace_of(mfa: Option<(TermV, TermV, u32)>) -> TermV {
    match mfa {
        Some((m, f, arity)) => TermV::Cons(
            Box::new(TermV::Tuple(seq![m, f, TermV::Small(arity as i64), TermV::Nil])),
            Box::new(TermV::Nil),
        ),
        None => TermV::Nil,
    }
}

/// What a function is.
pub open spec fn mfa_view(mfa: Option<Mfa>) -> Option<(TermV, TermV, u32)> {
    match mfa {
        Some(x) => Some((x.m@, x.f@, x.arity)),
        None => None,
    }
}

/// Builds a stack trace.
pub struct OpcodeBuildStacktrace;

impl OpcodeBuildStacktrace {
    /// Puts into register 0 the stack trace of the function that is returned to, where it is
    /// known.
    pub fn build_stacktrace(ctx: &mut RuntimeContext, caller: Option<Mfa>) -> (r: Result<
        DispatchResult,
        RtErr,
    >)
        requires
            old(ctx)@.x.len() >= 1,
        ensures
            r == Ok::<DispatchResult, RtErr>(DispatchResult::Normal),
            final(ctx)@ == (CtxV {
                x: old(ctx)@.x.update(
                    0,
                    if old(ctx)@.cp is Some {
                        trace_of(mfa_view(caller))
                    } else {
                        TermV::Nil
                    },
                ),
                ..old(ctx)@
            }),
    {
        let mut trace: Term = Term::Nil;
        if ctx.cp.is_some() {
            match caller {
                Some(mfa) => {
                    let mut v: Vec<Term> = Vec::new();
                    v.push(mfa.m);
                    v.push(mfa.f);
                    v.push(Term::Small(mfa.arity as i64));
                    v.push(Term::Nil);
                    let entry: Term = Term::make_tuple(v);
                    assert(entry@->Tuple_0 =~= seq![
                        mfa.m@,
                        mfa.f@,
                        TermV::Small(mfa.arity as i64),
                        TermV::Nil,
                    ]);
                    trace = Term::Cons(Box::new(entry), Box::new(Term::Nil));
                },
                None => {},
            }
        }
        ctx.set_x(0, trace);
        Ok(DispatchResult::Normal)
    }
}

/// Begins to catch everything.
pub struct OpcodeCatch;

impl OpcodeCatch {
    /// Exceptions go to the label from now on.
    pub fn catch_opcode(proc: &mut Process, yreg: &Term, label: &Term) -> (r: Result<
        DispatchResult,
        RtErr,
    >)
        requires
            old(proc)@.catches < usize::MAX,
            label@ is Code,
        ensures
            (final(proc)@, fail::result_view(r)) == guarded(old(proc)@, yreg@, label@->Code_0),
    {
        guard(proc, yreg, label)
    }
}

/// What a caught exception leaves as a value.
pub open spec fn caught(class: TermV, val: TermV) -> TermV {
    if class == TermV::Atom("throw"@) {
        val
    } else {
        TermV::Tuple(seq![TermV::Atom("EXIT"@), val])
    }
}

/// Ends to catch everything.
pub struct OpcodeCatchEnd;

impl OpcodeCatchEnd {
    /// Exceptions are no longer caught. Where one was, what is left of it is in register 0.
    pub fn catch_end(ctx: &mut RuntimeContext, proc: &mut Process, yreg: &Term) -> (r: Result<
        DispatchResult,
        RtErr,
    >)
        requires
            old(proc)@.catches > 0,
            old(ctx)@.x.len() >= 3,
        ensures
            ({
                let (q, kept) = unguarded(old(proc)@, yreg@);
                &&& fail::result_view(r) == normal(kept)
                &&& if kept is Ok && old(ctx)@.x[0] == TermV::NonValue {
                    final(proc)@ == (ProcV { exception: None, ..q }) && final(ctx)@ == (CtxV {
                        x: old(ctx)@.x.update(0, caught(old(ctx)@.x[1], old(ctx)@.x[2])),
                        ..old(ctx)@
                    })
                } else {
                    final(proc)@ == q && final(ctx)@ == old(ctx)@
                }
            }),
    {
        match unguard(proc, yreg) {
            Ok(()) => {},
            Err(e) => {
                return Err(e);
            },
        }
        assert(ctx@.x[0] == ctx.x@[0]@);
        if ctx.x[0].is_non_value() {
            proc.clear_exception();
            let class: Term = ctx.get_x(1);
            let val: Term = ctx.get_x(2);
            if class.is_atom_of("throw") {
                ctx.set_x(0, val);
            } else {
                ctx.set_x(0, tuple2("EXIT", val));
            }
        }
        Ok(DispatchResult::Normal)
    }
}

/// Ending what was begun leaves as many frames as before, and an empty register.
pub proof fn law_end_undoes_begin(c: CtxV, p: ProcV, n: usize, at: usize)
    requires
        p.catches < usize::MAX,
        n < p.y.len(),
        c.x.len() >= 4,
        c.x[0] != TermV::NonValue,
    ensures
        ({
            let (q, r) = guarded(p, TermV::RegY(n), at);
            &&& r is Ok
            &&& q.y[n as int] == TermV::Catch(at)
            &&& try_ended(c, q, TermV::RegY(n)) == (
                c,
                ProcV { y: p.y.update(n as int, TermV::Nil), ..p },
                Ok::<DispatchResult, RtErrV>(DispatchResult::Normal),
            )
        }),
{
    let (q, r) = guarded(p, TermV::RegY(n), at);
    assert(try_ended(c, q, TermV::RegY(n)).1.y =~= p.y.update(n as int, TermV::Nil));
}

/// What came with an exception is in the first registers once it is taken up: its class, its value
/// and its trace, in this order; no other register changes.
pub proof fn law_exception_in_first_registers(c: CtxV, i: int)
    requires
        c.x.len() >= 4,
        0 <= i < c.x.len(),
    ensures
        shifted(c).x.len() == c.x.len(),
        i < 3 ==> shifted(c).x[i] == c.x[i + 1],
        i >= 3 ==> shifted(c).x[i] == c.x[i],
{
}

/// A thrown value is left as it is; any other exception is left as a pair that says so.
pub proof fn law_thrown_value_is_left(class: TermV, val: TermV)
    ensures
        caught(TermV::Atom("throw"@), val) == val,
        class != TermV::Atom("throw"@) ==> (caught(class, val) matches TermV::Tuple(t) && t.len()
            == 2 && t[0] == TermV::Atom("EXIT"@) && t[1] == val),
{
}

/// An exception that is raised again has the class that it had.
pub proof fn law_class_is_kept(t: TermV)
    ensures
        class_of(TermV::Atom("exit"@)) == ExceptionType::Exit,
        class_of(TermV::Atom("throw"@)) == ExceptionType::Throw,
        class_of(TermV::Atom("error"@)) == ExceptionType::Error,
        class_of(t) == ExceptionType::Exit ==> t == TermV::Atom("exit"@),
        class_of(t) == ExceptionType::Throw ==> t == TermV::Atom("throw"@),
{
    reveal_strlit("error");
    reveal_strlit("exit");
    reveal_strlit("throw");
    assert("error"@.len() == 5 && "exit"@.len() == 4 && "throw"@.len() == 5);
    assert("error"@[0] == 'e' && "throw"@[0] == 't');
}

/// Where an exception was raised in what was tried, the end of it clears the exception and moves what
/// came with it to the first registers; where none was, no register changes.
pub proof fn law_end_tells_exceptions(c: CtxV, p: ProcV, n: usize)
    requires
        p.catches > 0,
        n < p.y.len(),
        c.x.len() >= 4,
    ensures
        ({
            let (d, q, r) = try_ended(c, p, TermV::RegY(n));
            &&& r is Ok
            &&& q.catches + 1 == p.catches
            &&& q.y[n as int] == TermV::Nil
            &&& forall|j: int| 0 <= j < p.y.len() && j != n ==> #[trigger] q.y[j] == p.y[j]
            &&& c.x[0] == TermV::NonValue ==> q.exception is None && d.x[0] == c.x[1] && d.x[1]
                == c.x[2] && d.x[2] == c.x[3]
            &&& c.x[0] != TermV::NonValue ==> d == c && q.exception == p.exception
        }),
{
}

} // verus!
