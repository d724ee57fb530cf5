//! Matching the bits of a binary against a list of commands.
use vstd::prelude::*;
use vstd::arithmetic::power2;
use crate::beam::disp_result::DispatchResult;
use crate::beam::runtime;
use crate::beam::runtime::{CtxV, MatchState, ProcV, Process, RuntimeContext};
use crate::defs::bits;
use crate::defs::bits::number_at;
use crate::fail;
use crate::fail::{badarg, RtErr, RtErrV};
use crate::term;
use crate::term::{BinRef, Term, TermV};
use crate::util::text::str_eq;

verus! {

/// How many bits have not been matched yet.
pub open spec fn remaining(p: ProcV, ms: int) -> int {
    p.matches[ms].src.bits - p.matches[ms].offset
}

/// The bits that have not been matched yet.
pub open spec fn rest(p: ProcV, ms: int) -> BinRef {
    let m = p.matches[ms];
    BinRef {
        bin: m.src.bin,
        offset: (m.src.offset + m.offset) as usize,
        bits: (m.src.bits - m.offset) as usize,
    }
}

/// So many more bits have been matched.
pub open spec fn moved(p: ProcV, ms: int, n: int) -> ProcV {
    let m = p.matches[ms];
    ProcV {
        matches: p.matches.update(ms, MatchState { offset: (m.offset + n) as usize, ..m }),
        ..p
    }
}

/// The next bits to match, as a number.
pub open spec fn next_number(p: ProcV, ms: int, n: nat) -> nat {
    bits::number(runtime::bits_at(p, rest(p, ms)).take(n as int))
}

/// A small integer that can be a size.
pub open spec fn usize_of(t: TermV) -> Option<usize> {
    match t {
        TermV::Small(n) => if 0 <= n <= usize::MAX {
            Some(n as usize)
        } else {
            None
        },
        _ => None,
    }
}

/// The number that a small integer is in so many bits; a negative one counts from the top.
pub open spec fn expected(t: TermV, n: nat) -> Option<u64> {
    match t {
        TermV::Small(v) => if n > 64 {
            None
        } else if 0 <= v < power2::pow2(n) {
            Some(v as u64)
        } else if v < 0 && v + power2::pow2(n) >= 0 {
            Some((v + power2::pow2(n)) as u64)
        } else {
            None
        },
        _ => None,
    }
}

/// How many arguments a command takes.
pub open spec fn arity_of(op: Seq<char>) -> Option<nat> {
    if op == "ensure_at_least"@ {
        Some(2)
    } else if op == "ensure_exactly"@ {
        Some(1)
    } else if op == "=:="@ {
        Some(3)
    } else if op == "skip"@ {
        Some(1)
    } else if op == "get_tail"@ {
        Some(3)
    } else {
        None
    }
}

/// What comes of a command: the machine, and whether the match goes on.
pub type Outcome = (CtxV, ProcV, Result<bool, RtErrV>);

/// The rest of the binary is kept in a register.
pub open spec fn tail_kept(c: CtxV, p: ProcV, ms: int, live: usize, dst: TermV) -> Outcome {
    let empty = remaining(p, ms) == 0;
    let c1 = if empty {
        c
    } else {
        CtxV { live, ..c }
    };
    let val = if empty {
        runtime::empty_binary()
    } else {
        TermV::Binary(rest(p, ms))
    };
    let (c2, p2) = runtime::stored(c1, p, val, dst);
    (
        c2,
        p2,
        match runtime::store_result(c1, p, dst) {
            Ok(()) => Ok(true),
            Err(e) => Err(e),
        },
    )
}

/// What one command does, given all its arguments.
pub open spec fn command(c: CtxV, p: ProcV, ms: int, op: Seq<char>, args: Seq<TermV>) -> Outcome {
    if op == "ensure_at_least"@ {
        match (usize_of(args[0]), usize_of(args[1])) {
            (Some(size), Some(unit)) => (c, p, Ok(remaining(p, ms) >= size * unit)),
            _ => (c, p, Ok(false)),
        }
    } else if op == "ensure_exactly"@ {
        match usize_of(args[0]) {
            Some(size) => (c, p, Ok(remaining(p, ms) == size)),
            None => (c, p, Ok(false)),
        }
    } else if op == "=:="@ {
        match usize_of(args[1]) {
            Some(n) => if args[0] == TermV::Nil && remaining(p, ms) >= n && expected(
                args[2],
                n as nat,
            ) == Some(next_number(p, ms, n as nat) as u64) {
                (c, moved(p, ms, n as int), Ok(true))
            } else {
                (c, p, Ok(false))
            },
            None => (c, p, Ok(false)),
        }
    } else if op == "skip"@ {
        match usize_of(args[0]) {
            Some(n) => if remaining(p, ms) >= n {
                (c, moved(p, ms, n as int), Ok(true))
            } else {
                (c, p, Ok(false))
            },
            None => (c, p, Ok(false)),
        }
    } else if op == "get_tail"@ {
        match usize_of(args[0]) {
            Some(live) => tail_kept(c, p, ms, live, args[2]),
            None => (c, p, Ok(false)),
        }
    } else {
        (c, p, Ok(false))
    }
}

/// What a command does that stands in a tuple of its own.
pub open spec fn one(c: CtxV, p: ProcV, ms: int, cmd: TermV) -> Outcome {
    match cmd {
        TermV::Tuple(v) => if v.len() == 0 {
            (c, p, Err(fail::atom_error("badarg"@)))
        } else {
            match v[0] {
                TermV::Atom(op) => if arity_of(op) == Some((v.len() - 1) as nat) {
                    command(c, p, ms, op, v.skip(1))
                } else {
                    (c, p, Ok(false))
                },
                _ => (c, p, Err(fail::atom_error("badarg"@))),
            }
        },
        _ => (c, p, Err(fail::atom_error("badarg"@))),
    }
}

/// What commands do that stand one behind the other, each followed by its arguments.
pub open spec fn flat(c: CtxV, p: ProcV, ms: int, terms: Seq<TermV>) -> Outcome
    decreases terms.len(),
{
    if terms.len() == 0 {
        (c, p, Ok(true))
    } else {
        match terms[0] {
            TermV::Atom(op) => match arity_of(op) {
                Some(n) => if terms.len() < n + 1 {
                    (c, p, Ok(false))
                } else {
                    let (c1, p1, r) = command(c, p, ms, op, terms.subrange(1, 1 + n as int));
                    if r == Ok::<bool, RtErrV>(true) {
                        flat(c1, p1, ms, terms.skip(1 + n as int))
                    } else {
                        (c1, p1, r)
                    }
                },
                None => (c, p, Ok(false)),
            },
            _ => (c, p, Ok(false)),
        }
    }
}

/// What the commands of a tuple do, one tuple each.
pub open spec fn each(c: CtxV, p: ProcV, ms: int, cmds: Seq<TermV>) -> Outcome
    decreases cmds.len(),
{
    if cmds.len() == 0 {
        (c, p, Ok(true))
    } else {
        let (c1, p1, r) = one(c, p, ms, cmds[0]);
        if r == Ok::<bool, RtErrV>(true) {
            each(c1, p1, ms, cmds.skip(1))
        } else {
            (c1, p1, r)
        }
    }
}

/// What the commands of a list do, one tuple each. The list must end as lists do.
pub open spec fn listed(c: CtxV, p: ProcV, ms: int, cmds: TermV) -> Outcome
    decreases cmds,
{
    match cmds {
        TermV::Cons(head, tail) => {
            let (c1, p1, r) = one(c, p, ms, *head);
            if r == Ok::<bool, RtErrV>(true) {
                listed(c1, p1, ms, *tail)
            } else {
                (c1, p1, r)
            }
        },
        _ => (c, p, Ok(cmds == TermV::Nil)),
    }
}

/// What commands do.
pub open spec fn all(c: CtxV, p: ProcV, ms: int, cmds: TermV) -> Outcome {
    match cmds {
        TermV::Nil => (c, p, Ok(true)),
        TermV::Tuple(v) => if v.len() > 0 && v[0] is Atom {
            flat(c, p, ms, v)
        } else {
            each(c, p, ms, v)
        },
        TermV::Cons(_, _) => listed(c, p, ms, cmds),
        _ => (c, p, Err(fail::atom_error("badarg"@))),
    }
}

/// A match: where a command does not match, nothing of the binary has been matched, and the code
/// goes on at the label.
pub open spec fn matched(c: CtxV, p: ProcV, label: TermV, ms: int, cmds: TermV) -> (
    CtxV,
    ProcV,
    Result<DispatchResult, RtErrV>,
) {
    let (c1, p1, r) = all(c, p, ms, cmds);
    match r {
        Ok(true) => (c1, p1, Ok(DispatchResult::Normal)),
        Ok(false) => (
            runtime::jumped(c1, label),
            ProcV {
                matches: p1.matches.update(
                    ms,
                    MatchState { offset: p.matches[ms].offset, ..p1.matches[ms] },
                ),
                ..p1
            },
            Ok(DispatchResult::Normal),
        ),
        Err(e) => (c1, p1, Err(e)),
    }
}

/// 2 to the power of `n`.
fn power_of_two(n: usize) -> (r: i128)
    requires
        n <= 64,
    ensures
        r == power2::pow2(n as nat),
        r <= 0x1_0000_0000_0000_0000,
{
    let mut r: i128 = 1;
    let mut k: usize = 0;
    proof {
        power2::lemma2_to64();
        power2::lemma2_to64_rest();
    }
    while k < n
        invariant
            k <= n <= 64,
            r == power2::pow2(k as nat),
            r <= 0x1_0000_0000_0000_0000,
            power2::pow2(64) == 0x1_0000_0000_0000_0000,
        decreases n - k,
    {
        proof {
            power2::lemma_pow2_unfold((k + 1) as nat);
            if k + 1 < 64 {
                power2::lemma_pow2_strictly_increases((k + 1) as nat, 64);
            }
        }
        r = 2 * r;
        k += 1;
    }
    r
}

/// A match keeps to its binary.
pub open spec fn match_ok(p: ProcV, ms: int) -> bool {
    runtime::proc_ok(p) && 0 <= ms < p.matches.len()
}

proof fn lemma_moved_ok(p: ProcV, ms: int, n: int)
    requires
        match_ok(p, ms),
        0 <= n <= remaining(p, ms),
    ensures
        match_ok(moved(p, ms, n), ms),
{
    let q = moved(p, ms, n);
    assert forall|i: int| 0 <= i < q.matches.len() implies runtime::valid(
        q,
        (#[trigger] q.matches[i]).src,
    ) && q.matches[i].offset <= q.matches[i].src.bits by {
        assert(runtime::valid(p, p.matches[i].src));
    }
}

proof fn lemma_window_is_rest(p: ProcV, ms: int, n: nat)
    requires
        match_ok(p, ms),
        n <= remaining(p, ms),
    ensures
        ({
            let m = p.matches[ms];
            bits::window(
                bits::bits_of(p.bins[m.src.bin as int]),
                m.src.offset + m.offset,
                n,
            ) == runtime::bits_at(p, rest(p, ms)).take(n as int)
        }),
{
    let m = p.matches[ms];
    assert(runtime::valid(p, m.src));
    assert(bits::window(bits::bits_of(p.bins[m.src.bin as int]), m.src.offset + m.offset, n)
        =~= runtime::bits_at(p, rest(p, ms)).take(n as int));
}

/// Where a value is kept does not matter to a match.
proof fn lemma_stored_ok(c: CtxV, p: ProcV, val: TermV, dst: TermV, ms: int)
    requires
        match_ok(p, ms),
    ensures
        match_ok(runtime::stored(c, p, val, dst).1, ms),
{
    let q = runtime::stored(c, p, val, dst).1;
    assert(q.bins == p.bins);
    assert(q.matches == p.matches);
    assert forall|i: int| 0 <= i < q.matches.len() implies runtime::valid(
        q,
        (#[trigger] q.matches[i]).src,
    ) && q.matches[i].offset <= q.matches[i].src.bits by {
        assert(runtime::valid(p, p.matches[i].src));
    }
}

/// The rest of the binary of a match, as a term.
pub fn take_rest(proc: &Process, ms: usize) -> (r: Term)
    requires
        match_ok(proc@, ms as int),
    ensures
        r@ == if remaining(proc@, ms as int) == 0 {
            runtime::empty_binary()
        } else {
            TermV::Binary(rest(proc@, ms as int))
        },
{
    let m: MatchState = proc.matches[ms];
    assert(m == proc@.matches[ms as int]);
    assert(runtime::valid(proc@, m.src));
    let left: usize = m.src.bits - m.offset;
    if left == 0 {
        return Term::Binary(BinRef { bin: 0, offset: 0, bits: 0 });
    }
    Term::Binary(BinRef { bin: m.src.bin, offset: m.src.offset + m.offset, bits: left })
}

/// How many bits have not been matched yet.
pub fn bits_remaining(proc: &Process, ms: usize) -> (r: usize)
    requires
        match_ok(proc@, ms as int),
    ensures
        r == remaining(proc@, ms as int),
{
    let m: MatchState = proc.matches[ms];
    assert(m == proc@.matches[ms as int]);
    m.src.bits - m.offset
}

/// Goes on by so many bits.
pub fn increase_offset(proc: &mut Process, ms: usize, n: usize)
    requires
        match_ok(old(proc)@, ms as int),
        n <= remaining(old(proc)@, ms as int),
    ensures
        final(proc)@ == moved(old(proc)@, ms as int, n as int),
        match_ok(final(proc)@, ms as int),
{
    let ghost p = proc@;
    let m: MatchState = proc.matches[ms];
    assert(m == p.matches[ms as int]);
    proc.matches.set(ms, MatchState { src: m.src, offset: m.offset + n });
    proof {
        lemma_moved_ok(p, ms as int, n as int);
        assert(proc@.bins =~= p.bins);
    }
}

/// Matches a binary.
pub struct OpcodeBsMatch;

impl OpcodeBsMatch {
    fn fail_and_jump(ctx: &mut RuntimeContext, label: &Term)
        ensures
            final(ctx)@ == runtime::jumped(old(ctx)@, label@),
    {
        ctx.jump(label);
    }

    /// A small integer that can be a size.
    pub fn to_usize(v: &Term) -> (r: Option<usize>)
        ensures
            r == usize_of(v@),
    {
        match v {
            Term::Small(n) => if *n >= 0 && *n as u64 <= usize::MAX as u64 {
                Some(*n as usize)
            } else {
                None
            },
            _ => None,
        }
    }

    /// A small integer.
    pub fn to_i64(v: &Term) -> (r: Option<i64>)
        ensures
            r == v@.small(),
    {
        match v {
            Term::Small(n) => Some(*n),
            _ => None,
        }
    }

    /// The number that a small integer is in so many bits.
    pub fn expected_u64(value: &Term, bits: usize) -> (r: Option<u64>)
        ensures
            r == expected(value@, bits as nat),
    {
        if bits > 64 {
            return None;
        }
        let signed: i64 = match Self::to_i64(value) {
            Some(v) => v,
            None => {
                return None;
            },
        };
        let base: i128 = power_of_two(bits);
        if signed >= 0 {
            if signed as i128 >= base {
                return None;
            }
            return Some(signed as u64);
        }
        let n: i128 = base + signed as i128;
        if n < 0 {
            return None;
        }
        Some(n as u64)
    }

    /// The number that a small integer is in so many bits.
    pub fn test_expected_u64(value: Term, bits: usize) -> (r: Option<u64>)
        ensures
            r == expected(value@, bits as nat),
    {
        Self::expected_u64(&value, bits)
    }

    /// Whether the next bits are the given number.
    fn match_bits_eq(proc: &Process, ms: usize, bits: usize, value: &Term) -> (r: bool)
        requires
            match_ok(proc@, ms as int),
            bits <= remaining(proc@, ms as int),
        ensures
            r == (expected(value@, bits as nat) == Some(
                next_number(proc@, ms as int, bits as nat) as u64,
            )),
    {
        let want: u64 = match Self::expected_u64(value, bits) {
            Some(v) => v,
            None => {
                return false;
            },
        };
        let m: MatchState = proc.matches[ms];
        proof {
            assert(m == proc@.matches[ms as int]);
            assert(runtime::valid(proc@, m.src));
            lemma_window_is_rest(proc@, ms as int, bits as nat);
            if bits > 0 {
                assert(proc@.bins[m.src.bin as int] == proc.bins@[m.src.bin as int]@);
            }
        }
        let got: u64 = if bits == 0 {
            0
        } else {
            number_at(proc.bins[m.src.bin].as_slice(), m.src.offset + m.offset, bits)
        };
        got == want
    }

    /// Whether so many units of bits remain.
    fn ensure_remaining(proc: &Process, ms: usize, size: usize, unit: usize) -> (r: bool)
        requires
            match_ok(proc@, ms as int),
        ensures
            r == (remaining(proc@, ms as int) >= size * unit),
    {
        assert(size * unit <= 0xffff_ffff_ffff_ffff * 0xffff_ffff_ffff_ffff) by (nonlinear_arith)
            requires
                size <= 0xffff_ffff_ffff_ffff,
                unit <= 0xffff_ffff_ffff_ffff,
        ;
        assert(size as u128 * unit as u128 == size * unit);
        bits_remaining(proc, ms) as u128 >= size as u128 * unit as u128
    }

    /// Keeps the rest of the binary in a register.
    fn extract_tail(
        ctx: &mut RuntimeContext,
        proc: &mut Process,
        ms: usize,
        live: usize,
        dst: &Term,
    ) -> (r: Result<bool, RtErr>)
        requires
            match_ok(old(proc)@, ms as int),
        ensures
            (final(ctx)@, final(proc)@, fail::result_view(r)) == tail_kept(
                old(ctx)@,
                old(proc)@,
                ms as int,
                live,
                dst@,
            ),
            match_ok(final(proc)@, ms as int),
    {
        let left: usize = bits_remaining(proc, ms);
        if left > 0 {
            ctx.live = live;
        }
        let val: Term = take_rest(proc, ms);
        proof {
            lemma_stored_ok(ctx@, proc@, val@, dst@, ms as int);
        }
        match ctx.store_value(val, dst, proc) {
            Ok(()) => Ok(true),
            Err(e) => Err(e),
        }
    }

    /// One command, which stands at `i` with its arguments behind it.
    fn run_command(
        ctx: &mut RuntimeContext,
        proc: &mut Process,
        ms: usize,
        op: &str,
        terms: &Vec<Term>,
        i: usize,
        Ghost(n): Ghost<nat>,
    ) -> (r: Result<bool, RtErr>)
        requires
            match_ok(old(proc)@, ms as int),
            arity_of(op@) == Some(n),
            i + n < terms@.len(),
        ensures
            (final(ctx)@, final(proc)@, fail::result_view(r)) == command(
                old(ctx)@,
                old(proc)@,
                ms as int,
                op@,
                term::terms_view(terms@).subrange(i + 1, i + 1 + n),
            ),
            match_ok(final(proc)@, ms as int),
    {
        let ghost args = term::terms_view(terms@).subrange(i + 1, i + 1 + n);
        let total: usize = terms.len();
        assert(args[0] == terms@[i + 1]@);
        if str_eq(op, "ensure_at_least") {
            assert(args[1] == terms@[i + 2]@);
            let size: usize = match Self::to_usize(&terms[i + 1]) {
                Some(v) => v,
                None => {
                    return Ok(false);
                },
            };
            let unit: usize = match Self::to_usize(&terms[i + 2]) {
                Some(v) => v,
                None => {
                    return Ok(false);
                },
            };
            return Ok(Self::ensure_remaining(proc, ms, size, unit));
        }
        if str_eq(op, "ensure_exactly") {
            let size: usize = match Self::to_usize(&terms[i + 1]) {
                Some(v) => v,
                None => {
                    return Ok(false);
                },
            };
            return Ok(bits_remaining(proc, ms) == size);
        }
        if str_eq(op, "=:=") {
            assert(args[1] == terms@[i + 2]@);
            assert(args[2] == terms@[i + 3]@);
            let n: usize = match Self::to_usize(&terms[i + 2]) {
                Some(v) => v,
                None => {
                    return Ok(false);
                },
            };
            if !terms[i + 1].is_nil() || bits_remaining(proc, ms) < n {
                return Ok(false);
            }
            if !Self::match_bits_eq(proc, ms, n, &terms[i + 3]) {
                return Ok(false);
            }
            increase_offset(proc, ms, n);
            return Ok(true);
        }
        if str_eq(op, "skip") {
            let n: usize = match Self::to_usize(&terms[i + 1]) {
                Some(v) => v,
                None => {
                    return Ok(false);
                },
            };
            if bits_remaining(proc, ms) < n {
                return Ok(false);
            }
            increase_offset(proc, ms, n);
            return Ok(true);
        }
        assert(args[2] == terms@[i + 3]@);
        let live: usize = match Self::to_usize(&terms[i + 1]) {
            Some(v) => v,
            None => {
                return Ok(false);
            },
        };
        Self::extract_tail(ctx, proc, ms, live, &terms[i + 3])
    }

    /// How many arguments a command takes.
    fn arity(op: &str) -> (r: Option<usize>)
        ensures
            match r {
                Some(n) => arity_of(op@) == Some(n as nat) && n <= 3,
                None => arity_of(op@) is None,
            },
    {
        if str_eq(op, "ensure_at_least") {
            Some(2)
        } else if str_eq(op, "ensure_exactly") {
            Some(1)
        } else if str_eq(op, "=:=") {
            Some(3)
        } else if str_eq(op, "skip") {
            Some(1)
        } else if str_eq(op, "get_tail") {
            Some(3)
        } else {
            None
        }
    }

    /// A command that stands in a tuple of its own.
    fn run_one(ctx: &mut RuntimeContext, proc: &mut Process, ms: usize, cmd: &Term) -> (r: Result<
        bool,
        RtErr,
    >)
        requires
            match_ok(old(proc)@, ms as int),
        ensures
            (final(ctx)@, final(proc)@, fail::result_view(r)) == one(
                old(ctx)@,
                old(proc)@,
                ms as int,
                cmd@,
            ),
            match_ok(final(proc)@, ms as int),
    {
        let t: &Vec<Term> = match cmd {
            Term::Tuple(v) => v,
            _ => {
                return Err(badarg());
            },
        };
        if t.len() == 0 {
            return Err(badarg());
        }
        let ghost elems = term::terms_view(t@);
        assert(cmd@->Tuple_0 =~= elems);
        assert(elems[0] == t@[0]@);
        let op: &String = match &t[0] {
            Term::Atom(s) => s,
            _ => {
                return Err(badarg());
            },
        };
        let n: usize = match Self::arity(op.as_str()) {
            Some(n) => n,
            None => {
                return Ok(false);
            },
        };
        if t.len() != n + 1 {
            return Ok(false);
        }
        assert(elems.subrange(1, 1 + n) =~= elems.skip(1));
        Self::run_command(ctx, proc, ms, op.as_str(), t, 0, Ghost(n as nat))
    }

    /// Commands that stand one behind the other.
    fn run_flat_terms(
        ctx: &mut RuntimeContext,
        proc: &mut Process,
        ms: usize,
        terms: &Vec<Term>,
    ) -> (r: Result<bool, RtErr>)
        requires
            match_ok(old(proc)@, ms as int),
        ensures
            (final(ctx)@, final(proc)@, fail::result_view(r)) == flat(
                old(ctx)@,
                old(proc)@,
                ms as int,
                term::terms_view(terms@),
            ),
            match_ok(final(proc)@, ms as int),
    {
        let ghost all_terms = term::terms_view(terms@);
        let ghost c0 = ctx@;
        let ghost p0 = proc@;
        let total: usize = terms.len();
        let mut i: usize = 0;
        assert(all_terms.skip(0) =~= all_terms);
        while i < total
            invariant
                i <= total,
                total == terms@.len(),
                c0 == old(ctx)@,
                p0 == old(proc)@,
                all_terms == term::terms_view(terms@),
                match_ok(proc@, ms as int),
                flat(ctx@, proc@, ms as int, all_terms.skip(i as int)) == flat(
                    c0,
                    p0,
                    ms as int,
                    all_terms,
                ),
            decreases total - i,
        {
            let ghost here = all_terms.skip(i as int);
            assert(here[0] == terms@[i as int]@);
            let op: &String = match &terms[i] {
                Term::Atom(s) => s,
                _ => {
                    return Ok(false);
                },
            };
            let n: usize = match Self::arity(op.as_str()) {
                Some(n) => n,
                None => {
                    return Ok(false);
                },
            };
            if total - i < n + 1 {
                return Ok(false);
            }
            proof {
                assert(here.subrange(1, 1 + n) =~= all_terms.subrange(i + 1, i + 1 + n));
                assert(here.skip(1 + n as int) =~= all_terms.skip(i + 1 + n));
            }
            match Self::run_command(ctx, proc, ms, op.as_str(), terms, i, Ghost(n as nat)) {
                Ok(true) => {},
                Ok(false) => {
                    return Ok(false);
                },
                Err(e) => {
                    return Err(e);
                },
            }
            i = i + n + 1;
        }
        Ok(true)
    }

    /// The commands of a list.
    fn run_list(ctx: &mut RuntimeContext, proc: &mut Process, ms: usize, cmds: &Term) -> (r: Result<
        bool,
        RtErr,
    >)
        requires
            match_ok(old(proc)@, ms as int),
        ensures
            (final(ctx)@, final(proc)@, fail::result_view(r)) == listed(
                old(ctx)@,
                old(proc)@,
                ms as int,
                cmds@,
            ),
            match_ok(final(proc)@, ms as int),
        decreases cmds,
    {
        match cmds {
            Term::Cons(head, tail) => {
                assert(decreases_to!(*cmds => (*cmds)->Cons_1));
                match Self::run_one(ctx, proc, ms, head) {
                    Ok(true) => Self::run_list(ctx, proc, ms, tail),
                    Ok(false) => Ok(false),
                    Err(e) => Err(e),
                }
            },
            _ => Ok(cmds.is_nil()),
        }
    }

    /// Commands in any of their forms.
    pub fn run_commands(
        ctx: &mut RuntimeContext,
        proc: &mut Process,
        ms: usize,
        cmds: &Term,
    ) -> (r: Result<bool, RtErr>)
        requires
            match_ok(old(proc)@, ms as int),
        ensures
            (final(ctx)@, final(proc)@, fail::result_view(r)) == all(
                old(ctx)@,
                old(proc)@,
                ms as int,
                cmds@,
            ),
            match_ok(final(proc)@, ms as int),
    {
        match cmds {
            Term::Nil => Ok(true),
            Term::Tuple(t) => {
                let ghost elems = term::terms_view(t@);
                assert(cmds@->Tuple_0 =~= elems);
                if t.len() > 0 {
                    assert(elems[0] == t@[0]@);
                    match &t[0] {
                        Term::Atom(_) => {
                            return Self::run_flat_terms(ctx, proc, ms, t);
                        },
                        _ => {},
                    }
                }
                let ghost c0 = ctx@;
                let ghost p0 = proc@;
                let mut i: usize = 0;
                assert(elems.skip(0) =~= elems);
                while i < t.len()
                    invariant
                        i <= t@.len(),
                        c0 == old(ctx)@,
                        p0 == old(proc)@,
                        cmds@ == TermV::Tuple(elems),
                        !(elems.len() > 0 && elems[0] is Atom),
                        elems == term::terms_view(t@),
                        match_ok(proc@, ms as int),
                        each(ctx@, proc@, ms as int, elems.skip(i as int)) == each(
                            c0,
                            p0,
                            ms as int,
                            elems,
                        ),
                    decreases t@.len() - i,
                {
                    assert(elems.skip(i as int)[0] == t@[i as int]@);
                    assert(elems.skip(i as int).skip(1) =~= elems.skip(i + 1));
                    match Self::run_one(ctx, proc, ms, &t[i]) {
                        Ok(true) => {},
                        Ok(false) => {
                            return Ok(false);
                        },
                        Err(e) => {
                            return Err(e);
                        },
                    }
                    i += 1;
                }
                Ok(true)
            },
            Term::Cons(_, _) => Self::run_list(ctx, proc, ms, cmds),
            _ => Err(badarg()),
        }
    }

    /// Matches a binary against commands.
    pub fn bs_match(
        ctx: &mut RuntimeContext,
        proc: &mut Process,
        label: &Term,
        ms: usize,
        cmds: &Term,
    ) -> (r: Result<DispatchResult, RtErr>)
        requires
            match_ok(old(proc)@, ms as int),
        ensures
            (final(ctx)@, final(proc)@, fail::result_view(r)) == matched(
                old(ctx)@,
                old(proc)@,
                label@,
                ms as int,
                cmds@,
            ),
    {
        let saved: usize = proc.matches[ms].offset;
        match Self::run_commands(ctx, proc, ms, cmds) {
            Ok(true) => {},
            Ok(false) => {
                let ghost p1 = proc@;
                let m: MatchState = proc.matches[ms];
                proc.matches.set(ms, MatchState { src: m.src, offset: saved });
                assert(proc@.bins =~= p1.bins);
                Self::fail_and_jump(ctx, label);
            },
            Err(e) => {
                return Err(e);
            },
        }
        Ok(DispatchResult::Normal)
    }
}

// ---------------------------------------------------------------------------
// What holds of every match
// ---------------------------------------------------------------------------
/// A match that fails leaves the position where it was.
pub proof fn law_failed_match_rewinds(c: CtxV, p: ProcV, label: TermV, ms: int, cmds: TermV)
    requires
        match_ok(p, ms),
        all(c, p, ms, cmds).2 == Ok::<bool, RtErrV>(false),
    ensures
        matched(c, p, label, ms, cmds).1.matches == p.matches,
{
    lemma_all_forward(c, p, ms, cmds);
    assert(matched(c, p, label, ms, cmds).1.matches =~= p.matches);
}

/// A match never goes back, never leaves its binary, and touches no other match and no storage.
pub proof fn law_match_goes_forward(c: CtxV, p: ProcV, ms: int, cmds: TermV)
    requires
        match_ok(p, ms),
    ensures
        forward(p, all(c, p, ms, cmds).1, ms),
{
    lemma_all_forward(c, p, ms, cmds);
}

/// How a match can change a process.
pub open spec fn forward(p: ProcV, q: ProcV, ms: int) -> bool {
    &&& match_ok(q, ms)
    &&& q.bins == p.bins
    &&& q.matches.len() == p.matches.len()
    &&& q.matches[ms].src == p.matches[ms].src
    &&& q.matches[ms].offset >= p.matches[ms].offset
    &&& forall|i: int| 0 <= i < p.matches.len() && i != ms ==> q.matches[i] == p.matches[i]
}

proof fn lemma_command_forward(c: CtxV, p: ProcV, ms: int, op: Seq<char>, args: Seq<TermV>)
    requires
        match_ok(p, ms),
    ensures
        forward(p, command(c, p, ms, op, args).1, ms),
{
    if op == "=:="@ {
        match usize_of(args[1]) {
            Some(n) => {
                if remaining(p, ms) >= n {
                    lemma_moved_ok(p, ms, n as int);
                }
            },
            None => {},
        }
    } else if op == "skip"@ {
        match usize_of(args[0]) {
            Some(n) => {
                if remaining(p, ms) >= n {
                    lemma_moved_ok(p, ms, n as int);
                }
            },
            None => {},
        }
    } else if op == "get_tail"@ {
        let val = if remaining(p, ms) == 0 {
            runtime::empty_binary()
        } else {
            TermV::Binary(rest(p, ms))
        };
        match usize_of(args[0]) {
            Some(live) => {
                let c1 = if remaining(p, ms) == 0 {
                    c
                } else {
                    CtxV { live, ..c }
                };
                lemma_stored_ok(c1, p, val, args[2], ms);
            },
            None => {},
        }
    }
}

proof fn lemma_one_forward(c: CtxV, p: ProcV, ms: int, cmd: TermV)
    requires
        match_ok(p, ms),
    ensures
        forward(p, one(c, p, ms, cmd).1, ms),
{
    match cmd {
        TermV::Tuple(v) => {
            if v.len() > 0 {
                match v[0] {
                    TermV::Atom(op) => {
                        lemma_command_forward(c, p, ms, op, v.skip(1));
                    },
                    _ => {},
                }
            }
        },
        _ => {},
    }
}

proof fn lemma_flat_forward(c: CtxV, p: ProcV, ms: int, terms: Seq<TermV>)
    requires
        match_ok(p, ms),
    ensures
        forward(p, flat(c, p, ms, terms).1, ms),
    decreases terms.len(),
{
    if terms.len() > 0 {
        match terms[0] {
            TermV::Atom(op) => match arity_of(op) {
                Some(n) => {
                    if terms.len() >= n + 1 {
                        let args = terms.subrange(1, 1 + n as int);
                        lemma_command_forward(c, p, ms, op, args);
                        let (c1, p1, r) = command(c, p, ms, op, args);
                        if r == Ok::<bool, RtErrV>(true) {
                            lemma_flat_forward(c1, p1, ms, terms.skip(1 + n as int));
                        }
                    }
                },
                None => {},
            },
            _ => {},
        }
    }
}

proof fn lemma_each_forward(c: CtxV, p: ProcV, ms: int, cmds: Seq<TermV>)
    requires
        match_ok(p, ms),
    ensures
        forward(p, each(c, p, ms, cmds).1, ms),
    decreases cmds.len(),
{
    if cmds.len() > 0 {
        lemma_one_forward(c, p, ms, cmds[0]);
        let (c1, p1, r) = one(c, p, ms, cmds[0]);
        if r == Ok::<bool, RtErrV>(true) {
            lemma_each_forward(c1, p1, ms, cmds.skip(1));
        }
    }
}

proof fn lemma_listed_forward(c: CtxV, p: ProcV, ms: int, cmds: TermV)
    requires
        match_ok(p, ms),
    ensures
        forward(p, listed(c, p, ms, cmds).1, ms),
    decreases cmds,
{
    match cmds {
        TermV::Cons(head, tail) => {
            lemma_one_forward(c, p, ms, *head);
            let (c1, p1, r) = one(c, p, ms, *head);
            if r == Ok::<bool, RtErrV>(true) {
                lemma_listed_forward(c1, p1, ms, *tail);
            }
        },
        _ => {},
    }
}

proof fn lemma_all_forward(c: CtxV, p: ProcV, ms: int, cmds: TermV)
    requires
        match_ok(p, ms),
    ensures
        forward(p, all(c, p, ms, cmds).1, ms),
{
    match cmds {
        TermV::Tuple(v) => {
            if v.len() > 0 && v[0] is Atom {
                lemma_flat_forward(c, p, ms, v);
            } else {
                lemma_each_forward(c, p, ms, v);
            }
        },
        TermV::Cons(_, _) => {
            lemma_listed_forward(c, p, ms, cmds);
        },
        _ => {},
    }
}

// ---------------------------------------------------------------------------
// What each command is for
// ---------------------------------------------------------------------------
proof fn lemma_ops()
    ensures
        "ensure_at_least"@ != "ensure_exactly"@,
        "=:="@ != "ensure_at_least"@ && "=:="@ != "ensure_exactly"@,
        "skip"@ != "ensure_at_least"@ && "skip"@ != "ensure_exactly"@ && "skip"@ != "=:="@,
        "get_tail"@ != "ensure_at_least"@ && "get_tail"@ != "ensure_exactly"@ && "get_tail"@
            != "=:="@ && "get_tail"@ != "skip"@,
{
    reveal_strlit("ensure_at_least");
    reveal_strlit("ensure_exactly");
    reveal_strlit("=:=");
    reveal_strlit("skip");
    reveal_strlit("get_tail");
    assert("ensure_at_least"@.len() == 15 && "ensure_exactly"@.len() == 14 && "=:="@.len() == 3
        && "skip"@.len() == 4 && "get_tail"@.len() == 8);
}

/// The number that the next `n` bits of a match are, the highest bit first.
pub open spec fn next_bits(p: ProcV, ms: int, n: nat) -> nat {
    let m = p.matches[ms];
    bits::number(
        bits::window(bits::bits_of(p.bins[m.src.bin as int]), m.src.offset + m.offset, n),
    )
}

/// The match goes on: no jump, and so many more bits of its binary are matched.
pub open spec fn went_on(c: CtxV, p: ProcV, label: TermV, ms: int, cmds: TermV, n: int) -> bool {
    let (c1, p1, r) = matched(c, p, label, ms, cmds);
    &&& r == Ok::<DispatchResult, RtErrV>(DispatchResult::Normal)
    &&& c1 == c
    &&& p1.matches.len() == p.matches.len()
    &&& p1.matches[ms].src == p.matches[ms].src
    &&& p1.matches[ms].offset == p.matches[ms].offset + n
    &&& p1 == (ProcV { matches: p1.matches, ..p })
    &&& forall|i: int| 0 <= i < p.matches.len() && i != ms ==> p1.matches[i] == p.matches[i]
}

/// The match failed: the code goes on at the label, and everything else is as before.
pub open spec fn jumped_away(c: CtxV, p: ProcV, label: usize, ms: int, cmds: TermV) -> bool {
    let (c1, p1, r) = matched(c, p, TermV::Code(label), ms, cmds);
    &&& r == Ok::<DispatchResult, RtErrV>(DispatchResult::Normal)
    &&& c1.ip == label
    &&& c1 == (CtxV { ip: label, ..c })
    &&& p1 == p
}

proof fn lemma_flat_one(c: CtxV, p: ProcV, ms: int, op: Seq<char>, args: Seq<TermV>)
    requires
        arity_of(op) == Some(args.len()),
    ensures
        flat(c, p, ms, seq![TermV::Atom(op)] + args) == command(c, p, ms, op, args),
        one(c, p, ms, TermV::Tuple(seq![TermV::Atom(op)] + args)) == command(c, p, ms, op, args),
{
    let t = seq![TermV::Atom(op)] + args;
    assert(t.subrange(1, 1 + args.len() as int) =~= args);
    assert(t.skip(1) =~= args);
    assert(t.skip(1 + args.len() as int).len() == 0);
    reveal_with_fuel(flat, 2);
}

proof fn lemma_single(
    c: CtxV,
    p: ProcV,
    label: usize,
    ms: int,
    op: Seq<char>,
    args: Seq<TermV>,
)
    requires
        match_ok(p, ms),
        arity_of(op) == Some(args.len()),
        command(c, p, ms, op, args).0 == c,
        command(c, p, ms, op, args).1.matches[ms].src == p.matches[ms].src,
    ensures
        ({
            let cmds = TermV::Tuple(seq![TermV::Atom(op)] + args);
            let (c1, p1, r) = command(c, p, ms, op, args);
            &&& r == Ok::<bool, RtErrV>(false) && p1 == p ==> jumped_away(c, p, label, ms, cmds)
            &&& r == Ok::<bool, RtErrV>(true) ==> matched(c, p, TermV::Code(label), ms, cmds) == (
                c1,
                p1,
                Ok::<DispatchResult, RtErrV>(DispatchResult::Normal),
            )
        }),
{
    lemma_flat_one(c, p, ms, op, args);
    let cmds = TermV::Tuple(seq![TermV::Atom(op)] + args);
    let v = seq![TermV::Atom(op)] + args;
    assert(v[0] == TermV::Atom(op));
    assert(p.matches.update(ms, MatchState { offset: p.matches[ms].offset, ..p.matches[ms] })
        =~= p.matches);
}

/// A literal matches exactly where it stands: on a match with at least `n` bits left, the command
/// for a number of `n` bits goes on if and only if the next `n` bits are that number, a negative one
/// taken modulo 2 to the `n`; otherwise the whole match fails and jumps to its label.
pub proof fn law_literal_matches_itself(
    c: CtxV,
    p: ProcV,
    label: usize,
    ms: int,
    n: i64,
    v: i64,
)
    requires
        match_ok(p, ms),
        0 < n <= 64,
        n <= remaining(p, ms),
    ensures
        ({
            let cmds = TermV::Tuple(
                seq![TermV::Atom("=:="@), TermV::Nil, TermV::Small(n), TermV::Small(v)],
            );
            let top = power2::pow2(n as nat) as int;
            if -top <= v < top && next_bits(p, ms, n as nat) == v as int % top {
                went_on(c, p, TermV::Code(label), ms, cmds, n as int)
            } else {
                jumped_away(c, p, label, ms, cmds)
            }
        }),
{
    lemma_ops();
    let args = seq![TermV::Nil, TermV::Small(n), TermV::Small(v)];
    let op = "=:="@;
    assert(seq![TermV::Atom(op)] + args =~= seq![
        TermV::Atom(op),
        TermV::Nil,
        TermV::Small(n),
        TermV::Small(v),
    ]);
    let m = p.matches[ms];
    assert(runtime::valid(p, m.src));
    lemma_window_is_rest(p, ms, n as nat);
    bits::lemma_number_bound(runtime::bits_at(p, rest(p, ms)).take(n as int));
    power2::lemma2_to64();
    power2::lemma2_to64_rest();
    if n < 64 {
        power2::lemma_pow2_strictly_increases(n as nat, 64);
    }
    power2::lemma_pow2_pos(n as nat);
    let top = power2::pow2(n as nat) as int;
    if -top <= v < 0 {
        assert(v as int % top == (v + top) % top) by {
            vstd::arithmetic::div_mod::lemma_mod_add_multiples_vanish(v as int, top);
        }
        vstd::arithmetic::div_mod::lemma_small_mod((v + top) as nat, top as nat);
    } else if 0 <= v < top {
        vstd::arithmetic::div_mod::lemma_small_mod(v as nat, top as nat);
    }
    lemma_single(c, p, label, ms, op, args);
    lemma_moved_ok(p, ms, n as int);
}

/// Where a match stands at a whole byte, the command for eight bits goes on exactly where that byte
/// is the given one.
pub proof fn law_byte_matches_itself(c: CtxV, p: ProcV, label: usize, ms: int, i: int, v: u8)
    requires
        match_ok(p, ms),
        8 <= remaining(p, ms),
        p.matches[ms].src.offset + p.matches[ms].offset == 8 * i,
    ensures
        ({
            let cmds = TermV::Tuple(
                seq![TermV::Atom("=:="@), TermV::Nil, TermV::Small(8), TermV::Small(v as i64)],
            );
            if p.bins[p.matches[ms].src.bin as int][i] == v {
                went_on(c, p, TermV::Code(label), ms, cmds, 8)
            } else {
                jumped_away(c, p, label, ms, cmds)
            }
        }),
{
    let m = p.matches[ms];
    assert(runtime::valid(p, m.src));
    bits::law_aligned_window_is_byte(p.bins[m.src.bin as int], i);
    power2::lemma2_to64();
    let w = v as i64;
    assert(power2::pow2(8i64 as nat) == 256);
    assert(w as int % 256 == v);
    assert(next_bits(p, ms, 8i64 as nat) == p.bins[m.src.bin as int][i]);
    law_literal_matches_itself(c, p, label, ms, 8, w);
}

/// Bits that are passed over count as matched; where there are not so many, the match fails.
pub proof fn law_skip_passes_over(c: CtxV, p: ProcV, label: usize, ms: int, n: i64)
    requires
        match_ok(p, ms),
        0 <= n <= usize::MAX,
    ensures
        ({
            let cmds = TermV::Tuple(seq![TermV::Atom("skip"@), TermV::Small(n)]);
            if p.matches[ms].offset + n <= p.matches[ms].src.bits {
                went_on(c, p, TermV::Code(label), ms, cmds, n as int)
            } else {
                jumped_away(c, p, label, ms, cmds)
            }
        }),
{
    lemma_ops();
    let args = seq![TermV::Small(n)];
    assert(seq![TermV::Atom("skip"@)] + args =~= seq![TermV::Atom("skip"@), TermV::Small(n)]);
    lemma_single(c, p, label, ms, "skip"@, args);
}

/// A match goes on past a check of its length exactly where the length is as asked: so many units or
/// more, or so many bits and no more.
pub proof fn law_lengths_checked(c: CtxV, p: ProcV, label: usize, ms: int, n: i64, unit: i64)
    requires
        match_ok(p, ms),
        0 <= n <= usize::MAX,
        0 <= unit <= usize::MAX,
    ensures
        ({
            let cmds = TermV::Tuple(
                seq![TermV::Atom("ensure_at_least"@), TermV::Small(n), TermV::Small(unit)],
            );
            if p.matches[ms].offset + n * unit <= p.matches[ms].src.bits {
                went_on(c, p, TermV::Code(label), ms, cmds, 0)
            } else {
                jumped_away(c, p, label, ms, cmds)
            }
        }),
        ({
            let cmds = TermV::Tuple(seq![TermV::Atom("ensure_exactly"@), TermV::Small(n)]);
            if p.matches[ms].offset + n == p.matches[ms].src.bits {
                went_on(c, p, TermV::Code(label), ms, cmds, 0)
            } else {
                jumped_away(c, p, label, ms, cmds)
            }
        }),
{
    lemma_ops();
    let a = seq![TermV::Small(n), TermV::Small(unit)];
    assert(seq![TermV::Atom("ensure_at_least"@)] + a =~= seq![
        TermV::Atom("ensure_at_least"@),
        TermV::Small(n),
        TermV::Small(unit),
    ]);
    lemma_single(c, p, label, ms, "ensure_at_least"@, a);
    let b = seq![TermV::Small(n)];
    assert(seq![TermV::Atom("ensure_exactly"@)] + b =~= seq![
        TermV::Atom("ensure_exactly"@),
        TermV::Small(n),
    ]);
    lemma_single(c, p, label, ms, "ensure_exactly"@, b);
}

/// The tail of a match is a binary of just those bits that have not been matched; taking it moves
/// nothing.
pub proof fn law_tail_is_the_rest(c: CtxV, p: ProcV, label: TermV, ms: int, live: i64, reg: usize)
    requires
        match_ok(p, ms),
        0 <= live <= usize::MAX,
        reg < c.x.len(),
    ensures
        ({
            let cmds = TermV::Tuple(
                seq![
                    TermV::Atom("get_tail"@),
                    TermV::Small(live),
                    TermV::Small(1),
                    TermV::RegX(reg),
                ],
            );
            let (c1, p1, r) = matched(c, p, label, ms, cmds);
            &&& r == Ok::<DispatchResult, RtErrV>(DispatchResult::Normal)
            &&& c1.ip == c.ip
            &&& p1 == p
            &&& c1.x[reg as int] matches TermV::Binary(b) && runtime::valid(p, b)
                && runtime::bits_at(p, b) == runtime::bits_at(p, p.matches[ms].src).skip(
                p.matches[ms].offset as int,
            )
            &&& forall|i: int| 0 <= i < c.x.len() && i != reg ==> c1.x[i] == c.x[i]
        }),
{
    lemma_ops();
    let args = seq![TermV::Small(live), TermV::Small(1), TermV::RegX(reg)];
    let op = "get_tail"@;
    let v = seq![TermV::Atom(op)] + args;
    assert(v =~= seq![
        TermV::Atom(op),
        TermV::Small(live),
        TermV::Small(1),
        TermV::RegX(reg),
    ]);
    lemma_flat_one(c, p, ms, op, args);
    assert(v[0] == TermV::Atom(op));
    let m = p.matches[ms];
    assert(runtime::valid(p, m.src));
    let all_bits = runtime::bits_at(p, m.src);
    let want = all_bits.skip(m.offset as int);
    if remaining(p, ms) == 0 {
        assert(want =~= Seq::<bool>::empty());
    } else {
        assert(runtime::bits_at(p, rest(p, ms)) =~= want);
    }
}

/// Commands are done in their order, each from where the one before left off, up to the first that
/// does not match.
pub proof fn law_commands_in_turn(c: CtxV, p: ProcV, ms: int, a: Seq<TermV>, b: Seq<TermV>)
    ensures
        ({
            let (c1, p1, r) = each(c, p, ms, a);
            if r == Ok::<bool, RtErrV>(true) {
                each(c, p, ms, a + b) == each(c1, p1, ms, b)
            } else {
                each(c, p, ms, a + b) == (c1, p1, r)
            }
        }),
    decreases a.len(),
{
    if a.len() == 0 {
        assert(a + b =~= b);
    } else {
        assert((a + b)[0] == a[0]);
        assert((a + b).skip(1) =~= a.skip(1) + b);
        let (c1, p1, r) = one(c, p, ms, a[0]);
        if r == Ok::<bool, RtErrV>(true) {
            law_commands_in_turn(c1, p1, ms, a.skip(1), b);
        }
    }
}

/// A command that is not known, or has the wrong number of arguments, does not match.
pub proof fn law_unknown_command_fails(c: CtxV, p: ProcV, ms: int, op: Seq<char>, args: Seq<TermV>)
    requires
        op != "ensure_at_least"@ && op != "ensure_exactly"@ && op != "=:="@ && op != "skip"@ && op
            != "get_tail"@,
    ensures
        one(c, p, ms, TermV::Tuple(seq![TermV::Atom(op)] + args)) == (
            c,
            p,
            Ok::<bool, RtErrV>(false),
        ),
{
    assert((seq![TermV::Atom(op)] + args)[0] == TermV::Atom(op));
}

} // verus!
