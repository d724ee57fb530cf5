//! Maps and records.
use vstd::prelude::*;
use crate::beam::disp_result::DispatchResult;
use crate::beam::opcodes::binary::bs_init_bits;
use crate::beam::opcodes::binary::bs_match;
use crate::beam::opcodes::binary::bs_match::OpcodeBsMatch;
use crate::beam::runtime;
use crate::beam::runtime::{CtxV, ProcV, Process, RuntimeContext};
use crate::fail;
use crate::fail::{badarg, generic_tuple2_fail, RtErr, RtErrV};
use crate::term;
use crate::term::{Term, TermV};

verus! {

/// The pairs of a map.
pub type Pairs = Seq<(TermV, TermV)>;

/// Where a key stands in a map; behind all pairs where it does not.
pub open spec fn key_at(m: Pairs, k: TermV) -> nat
    decreases m.len(),
{
    if m.len() == 0 || m[0].0 == k {
        0
    } else {
        1 + key_at(m.skip(1), k)
    }
}

/// The value of a key.
pub open spec fn map_get(m: Pairs, k: TermV) -> Option<TermV> {
    if key_at(m, k) < m.len() {
        Some(m[key_at(m, k) as int].1)
    } else {
        None
    }
}

/// A map with a value for a key.
pub open spec fn map_put(m: Pairs, k: TermV, v: TermV) -> Pairs {
    if key_at(m, k) < m.len() {
        m.update(key_at(m, k) as int, (k, v))
    } else {
        m.push((k, v))
    }
}

/// A map with the values of pairs of operands.
pub open spec fn map_put_all(c: CtxV, p: ProcV, m: Pairs, t: Seq<TermV>) -> Pairs
    decreases t.len(),
{
    if t.len() < 2 {
        m
    } else {
        map_put_all(
            c,
            p,
            map_put(m, runtime::loaded(c, p, t[0]), runtime::loaded(c, p, t[1])),
            t.skip(2),
        )
    }
}

/// The first of the keys, every `step`th operand, that a map does not have.
pub open spec fn missing(c: CtxV, p: ProcV, m: Pairs, t: Seq<TermV>, step: nat) -> Option<TermV>
    decreases t.len(),
{
    if step == 0 || t.len() < step {
        None
    } else {
        let k = runtime::loaded(c, p, t[0]);
        if map_get(m, k) is None {
            Some(k)
        } else {
            missing(c, p, m, t.skip(step as int), step)
        }
    }
}

proof fn lemma_key_at(m: Pairs, k: TermV)
    ensures
        key_at(m, k) <= m.len(),
        key_at(m, k) < m.len() ==> m[key_at(m, k) as int].0 == k,
        forall|i: int| 0 <= i < key_at(m, k) ==> (#[trigger] m[i]).0 != k,
    decreases m.len(),
{
    if m.len() > 0 && m[0].0 != k {
        lemma_key_at(m.skip(1), k);
        assert forall|i: int| 0 <= i < key_at(m, k) implies (#[trigger] m[i]).0 != k by {
            if i > 0 {
                assert(m[i] == m.skip(1)[i - 1]);
            }
        }
    }
}

proof fn lemma_key_is_at(m: Pairs, k: TermV, i: int)
    requires
        0 <= i <= m.len(),
        i < m.len() ==> m[i].0 == k,
        forall|j: int| 0 <= j < i ==> (#[trigger] m[j]).0 != k,
    ensures
        key_at(m, k) == i,
{
    lemma_key_at(m, k);
}

/// Where a key stands in a map.
fn find_key(m: &Vec<(Term, Term)>, k: &Term) -> (r: usize)
    ensures
        r == key_at(term::pairs_view(m@), k@),
        r <= m@.len(),
{
    let ghost v = term::pairs_view(m@);
    let mut i: usize = 0;
    while i < m.len()
        invariant
            i <= m@.len(),
            v == term::pairs_view(m@),
            forall|j: int| 0 <= j < i ==> (#[trigger] v[j]).0 != k@,
        decreases m@.len() - i,
    {
        assert(v[i as int].0 == m@[i as int].0@);
        if m[i].0.same(k) {
            proof {
                lemma_key_is_at(v, k@, i as int);
            }
            return i;
        }
        i += 1;
    }
    proof {
        lemma_key_is_at(v, k@, i as int);
    }
    i
}

/// Puts a value for a key into a map.
fn put(m: &mut Vec<(Term, Term)>, k: Term, v: Term)
    ensures
        term::pairs_view(final(m)@) == map_put(term::pairs_view(old(m)@), k@, v@),
{
    let ghost was = term::pairs_view(m@);
    let ghost key = k@;
    let ghost val = v@;
    let i: usize = find_key(m, &k);
    if i < m.len() {
        m.set(i, (k, v));
        assert(term::pairs_view(m@) =~= was.update(i as int, (key, val)));
    } else {
        m.push((k, v));
        assert(term::pairs_view(m@) =~= was.push((key, val)));
    }
}

/// The elements of a tuple.
pub open spec fn tuple_of(t: TermV) -> Option<Seq<TermV>> {
    match t {
        TermV::Tuple(v) => Some(v),
        _ => None,
    }
}

/// The pairs of a map.
pub open spec fn assoc_of(t: TermV) -> Option<Pairs> {
    match t {
        TermV::Assoc(m) => Some(m),
        _ => None,
    }
}

fn elements(t: &Term) -> (r: Option<&Vec<Term>>)
    ensures
        match r {
            Some(v) => tuple_of(t@) == Some(term::terms_view(v@)),
            None => tuple_of(t@) is None,
        },
{
    match t {
        Term::Tuple(v) => {
            assert(t@->Tuple_0 =~= term::terms_view(v@));
            Some(v)
        },
        _ => None,
    }
}

fn pairs_in(t: &Term) -> (r: Option<&Vec<(Term, Term)>>)
    ensures
        match r {
            Some(m) => assoc_of(t@) == Some(term::pairs_view(m@)),
            None => assoc_of(t@) is None,
        },
{
    match t {
        Term::Assoc(m) => {
            assert(t@->Assoc_0 =~= term::pairs_view(m@));
            Some(m)
        },
        _ => None,
    }
}

/// The same pairs once more.
fn copy_pairs(m: &Vec<(Term, Term)>) -> (r: Vec<(Term, Term)>)
    ensures
        term::pairs_view(r@) == term::pairs_view(m@),
{
    let mut out: Vec<(Term, Term)> = Vec::new();
    let mut i: usize = 0;
    while i < m.len()
        invariant
            i <= m@.len(),
            out@.len() == i,
            forall|j: int|
                0 <= j < i ==> (#[trigger] out@[j]).0@ == m@[j].0@ && out@[j].1@ == m@[j].1@,
        decreases m@.len() - i,
    {
        out.push((m[i].0.copy(), m[i].1.copy()));
        i += 1;
    }
    assert(term::pairs_view(out@) =~= term::pairs_view(m@));
    out
}

fn put_all(ctx: &RuntimeContext, proc: &Process, m: &mut Vec<(Term, Term)>, t: &Vec<Term>)
    ensures
        term::pairs_view(final(m)@) == map_put_all(
            ctx@,
            proc@,
            term::pairs_view(old(m)@),
            term::terms_view(t@),
        ),
{
    let ghost v = term::terms_view(t@);
    let ghost was = term::pairs_view(m@);
    let total: usize = t.len();
    let mut i: usize = 0;
    assert(v.skip(0) =~= v);
    while total - i >= 2
        invariant
            i <= total,
            total == t@.len(),
            v == term::terms_view(t@),
            map_put_all(ctx@, proc@, term::pairs_view(m@), v.skip(i as int)) == map_put_all(
                ctx@,
                proc@,
                was,
                v,
            ),
        decreases total - i,
    {
        let ghost here = v.skip(i as int);
        proof {
            assert(here[0] == t@[i as int]@);
            assert(here[1] == t@[i + 1]@);
            assert(here.skip(2) =~= v.skip(i + 2));
        }
        let k: Term = ctx.load(&t[i], proc);
        let val: Term = ctx.load(&t[i + 1], proc);
        put(m, k, val);
        i += 2;
    }
}

fn first_missing(
    ctx: &RuntimeContext,
    proc: &Process,
    m: &Vec<(Term, Term)>,
    t: &Vec<Term>,
    step: usize,
) -> (r: Option<Term>)
    requires
        step > 0,
    ensures
        match r {
            Some(k) => missing(
                ctx@,
                proc@,
                term::pairs_view(m@),
                term::terms_view(t@),
                step as nat,
            ) == Some(k@),
            None => missing(
                ctx@,
                proc@,
                term::pairs_view(m@),
                term::terms_view(t@),
                step as nat,
            ) is None,
        },
{
    let ghost v = term::terms_view(t@);
    let ghost pairs = term::pairs_view(m@);
    let total: usize = t.len();
    let mut i: usize = 0;
    assert(v.skip(0) =~= v);
    while total - i >= step
        invariant
            i <= total,
            step > 0,
            total == t@.len(),
            v == term::terms_view(t@),
            pairs == term::pairs_view(m@),
            missing(ctx@, proc@, pairs, v.skip(i as int), step as nat) == missing(
                ctx@,
                proc@,
                pairs,
                v,
                step as nat,
            ),
        decreases total - i,
    {
        let ghost here = v.skip(i as int);
        proof {
            assert(here[0] == t@[i as int]@);
            assert(here.skip(step as int) =~= v.skip(i + step));
        }
        let k: Term = ctx.load(&t[i], proc);
        if find_key(m, &k) >= m.len() {
            return Some(k);
        }
        i = i + step;
    }
    None
}

fn keep(ctx: &mut RuntimeContext, proc: &mut Process, val: Term, dst: &Term) -> (r: Result<
    DispatchResult,
    RtErr,
>)
    ensures
        (final(ctx)@, final(proc)@, fail::result_view(r)) == bs_init_bits::kept(
            old(ctx)@,
            old(proc)@,
            val@,
            dst@,
        ),
{
    match ctx.store_value(val, dst, proc) {
        Ok(()) => Ok(DispatchResult::Normal),
        Err(e) => Err(e),
    }
}

/// A map is made from another one and pairs of operands.
pub open spec fn assoc_put(c: CtxV, p: ProcV, src: TermV, dst: TermV, t: TermV) -> bs_init_bits::Step {
    match (assoc_of(src), tuple_of(t)) {
        (Some(m), Some(v)) => bs_init_bits::kept(
            c,
            p,
            TermV::Assoc(map_put_all(c, p, m, v)),
            dst,
        ),
        _ => (c, p, Err(fail::atom_error("badarg"@))),
    }
}

/// Makes a map with more keys.
pub struct OpcodePutMapAssoc;

impl OpcodePutMapAssoc {
    /// Makes a map from another one and pairs of operands, and keeps it in a register.
    pub fn put_map_assoc(
        ctx: &mut RuntimeContext,
        proc: &mut Process,
        src: &Term,
        dst: &Term,
        pairs: &Term,
    ) -> (r: Result<DispatchResult, RtErr>)
        ensures
            (final(ctx)@, final(proc)@, fail::result_view(r)) == assoc_put(
                old(ctx)@,
                old(proc)@,
                src@,
                dst@,
                pairs@,
            ),
    {
        let (m, v) = match (pairs_in(src), elements(pairs)) {
            (Some(m), Some(v)) => (m, v),
            _ => {
                return Err(badarg());
            },
        };
        let mut new: Vec<(Term, Term)> = copy_pairs(m);
        put_all(ctx, proc, &mut new, v);
        let ghost now = term::pairs_view(new@);
        let val: Term = Term::Assoc(new);
        assert(val@->Assoc_0 =~= now);
        keep(ctx, proc, val, dst)
    }
}

/// A failure over a term: the code goes on at the label, or, where there is none, it is an error.
pub open spec fn failed_over(c: CtxV, p: ProcV, label: TermV, name: Seq<char>, t: TermV) -> bs_init_bits::Step {
    if label == TermV::Nil {
        (c, p, Err(fail::pair_error(name, t)))
    } else {
        (runtime::jumped(c, label), p, Ok(DispatchResult::Normal))
    }
}

fn fail_over(ctx: &mut RuntimeContext, proc: &Process, label: &Term, name: &str, t: Term) -> (r: Result<
    DispatchResult,
    RtErr,
>)
    ensures
        (final(ctx)@, proc@, fail::result_view(r)) == failed_over(
            old(ctx)@,
            proc@,
            label@,
            name@,
            t@,
        ),
{
    if label.is_nil() {
        return Err(generic_tuple2_fail(name, t));
    }
    ctx.jump(label);
    Ok(DispatchResult::Normal)
}

/// The values of keys that a map has are replaced.
pub open spec fn exact_put(c: CtxV, p: ProcV, label: TermV, src: TermV, dst: TermV, t: TermV) -> bs_init_bits::Step {
    match assoc_of(src) {
        None => failed_over(c, p, label, "badmap"@, src),
        Some(m) => match tuple_of(t) {
            None => (c, p, Err(fail::atom_error("badarg"@))),
            Some(v) => match missing(c, p, m, v, 2) {
                Some(k) => failed_over(c, p, label, "badkey"@, k),
                None => bs_init_bits::kept(c, p, TermV::Assoc(map_put_all(c, p, m, v)), dst),
            },
        },
    }
}

/// Makes a map with the same keys.
pub struct OpcodePutMapExact;

impl OpcodePutMapExact {
    /// Replaces the values of keys. All of them must be there.
    pub fn put_map_exact(
        ctx: &mut RuntimeContext,
        proc: &mut Process,
        label: &Term,
        src: &Term,
        dst: &Term,
        pairs: &Term,
    ) -> (r: Result<DispatchResult, RtErr>)
        ensures
            (final(ctx)@, final(proc)@, fail::result_view(r)) == exact_put(
                old(ctx)@,
                old(proc)@,
                label@,
                src@,
                dst@,
                pairs@,
            ),
    {
        let m: &Vec<(Term, Term)> = match pairs_in(src) {
            Some(m) => m,
            None => {
                return fail_over(ctx, proc, label, "badmap", src.copy());
            },
        };
        let v: &Vec<Term> = match elements(pairs) {
            Some(v) => v,
            None => {
                return Err(badarg());
            },
        };
        match first_missing(ctx, proc, m, v, 2) {
            Some(k) => {
                return fail_over(ctx, proc, label, "badkey", k);
            },
            None => {},
        }
        let mut new: Vec<(Term, Term)> = copy_pairs(m);
        put_all(ctx, proc, &mut new, v);
        let ghost now = term::pairs_view(new@);
        let val: Term = Term::Assoc(new);
        assert(val@->Assoc_0 =~= now);
        keep(ctx, proc, val, dst)
    }
}

/// Whether a map has all keys that are asked for. A map without keys never has.
pub open spec fn has_all(c: CtxV, p: ProcV, src: TermV, t: TermV, step: nat) -> bool {
    match (assoc_of(src), tuple_of(t)) {
        (Some(m), Some(v)) => m.len() > 0 && missing(c, p, m, v, step) is None,
        _ => false,
    }
}

/// Tests which keys a map has.
pub struct OpcodeHasMapFields;

impl OpcodeHasMapFields {
    /// Goes on at the label unless a map has all keys.
    pub fn has_map_fields(
        ctx: &mut RuntimeContext,
        proc: &Process,
        label: &Term,
        src: &Term,
        keys: &Term,
    ) -> (r: Result<DispatchResult, RtErr>)
        ensures
            r == Ok::<DispatchResult, RtErr>(DispatchResult::Normal),
            final(ctx)@ == if has_all(old(ctx)@, proc@, src@, keys@, 1) {
                old(ctx)@
            } else {
                runtime::jumped(old(ctx)@, label@)
            },
    {
        match (pairs_in(src), elements(keys)) {
            (Some(m), Some(v)) => {
                if m.len() > 0 {
                    match first_missing(ctx, proc, m, v, 1) {
                        None => {
                            return Ok(DispatchResult::Normal);
                        },
                        Some(_) => {},
                    }
                }
            },
            _ => {},
        }
        ctx.jump(label);
        Ok(DispatchResult::Normal)
    }
}

/// The values of keys are kept in registers, one after the other.
pub open spec fn elements_kept(c: CtxV, p: ProcV, m: Pairs, t: Seq<TermV>) -> bs_init_bits::Step
    decreases t.len(),
{
    if t.len() < 2 {
        (c, p, Ok(DispatchResult::Normal))
    } else {
        match map_get(m, runtime::loaded(c, p, t[0])) {
            None => (c, p, Err(fail::atom_error("badarg"@))),
            Some(v) => {
                let (c1, p1, r) = bs_init_bits::kept(c, p, v, t[1]);
                if r is Ok {
                    elements_kept(c1, p1, m, t.skip(2))
                } else {
                    (c1, p1, r)
                }
            },
        }
    }
}

/// Takes values from a map.
pub struct OpcodeGetMapElements;

impl OpcodeGetMapElements {
    /// Keeps the values of keys in registers, or goes on at the label where one is missing.
    pub fn get_map_elements(
        ctx: &mut RuntimeContext,
        proc: &mut Process,
        label: &Term,
        src: &Term,
        pairs: &Term,
    ) -> (r: Result<DispatchResult, RtErr>)
        ensures
            (final(ctx)@, final(proc)@, fail::result_view(r)) == if has_all(
                old(ctx)@,
                old(proc)@,
                src@,
                pairs@,
                2,
            ) {
                elements_kept(
                    old(ctx)@,
                    old(proc)@,
                    assoc_of(src@)->0,
                    tuple_of(pairs@)->0,
                )
            } else {
                (
                    runtime::jumped(old(ctx)@, label@),
                    old(proc)@,
                    Ok::<DispatchResult, RtErrV>(DispatchResult::Normal),
                )
            },
    {
        let ghost c0 = ctx@;
        let ghost p0 = proc@;
        let (m, t) = match (pairs_in(src), elements(pairs)) {
            (Some(m), Some(t)) => (m, t),
            _ => {
                ctx.jump(label);
                return Ok(DispatchResult::Normal);
            },
        };
        let all: bool = if m.len() == 0 {
            false
        } else {
            match first_missing(ctx, proc, m, t, 2) {
                None => true,
                Some(_) => false,
            }
        };
        if !all {
            ctx.jump(label);
            return Ok(DispatchResult::Normal);
        }
        let ghost v = term::terms_view(t@);
        let ghost mv = term::pairs_view(m@);
        let total: usize = t.len();
        let mut i: usize = 0;
        assert(v.skip(0) =~= v);
        while total - i >= 2
            invariant
                i <= total,
                c0 == old(ctx)@,
                p0 == old(proc)@,
                total == t@.len(),
                v == term::terms_view(t@),
                mv == term::pairs_view(m@),
                assoc_of(src@) == Some(mv),
                tuple_of(pairs@) == Some(v),
                has_all(c0, p0, src@, pairs@, 2),
                elements_kept(ctx@, proc@, mv, v.skip(i as int)) == elements_kept(c0, p0, mv, v),
            decreases total - i,
        {
            let ghost here = v.skip(i as int);
            proof {
                assert(here[0] == t@[i as int]@);
                assert(here[1] == t@[i + 1]@);
                assert(here.skip(2) =~= v.skip(i + 2));
            }
            let k: Term = ctx.load(&t[i], proc);
            let at: usize = find_key(m, &k);
            if at >= m.len() {
                return Err(badarg());
            }
            let val: Term = m[at].1.copy();
            assert(val@ == mv[at as int].1);
            match keep(ctx, proc, val, &t[i + 1]) {
                Ok(_) => {},
                Err(e) => {
                    return Err(e);
                },
            }
            i += 2;
        }
        Ok(DispatchResult::Normal)
    }
}

/// A tuple with elements replaced: pairs of a place, counted from one, and an operand.
pub open spec fn updated(c: CtxV, p: ProcV, elems: Seq<TermV>, t: Seq<TermV>) -> Option<Seq<TermV>>
    decreases t.len(),
{
    if t.len() < 2 {
        Some(elems)
    } else {
        match bs_match::usize_of(t[0]) {
            Some(i) => if 1 <= i <= elems.len() {
                updated(
                    c,
                    p,
                    elems.update(i - 1, runtime::loaded(c, p, t[1])),
                    t.skip(2),
                )
            } else {
                None
            },
            None => None,
        }
    }
}

/// A record is made from another one.
pub open spec fn record_updated(c: CtxV, p: ProcV, size: usize, src: TermV, dst: TermV, t: TermV) -> bs_init_bits::Step {
    let bad = (c, p, Err(fail::atom_error("badarg"@)));
    match (tuple_of(src), tuple_of(t)) {
        (Some(elems), Some(v)) => if size > elems.len() {
            bad
        } else {
            match updated(c, p, elems.take(size as int), v) {
                Some(now) => bs_init_bits::kept(c, p, TermV::Tuple(now), dst),
                None => bad,
            }
        },
        _ => bad,
    }
}

/// Updates a record.
pub struct OpcodeUpdateRecord;

impl OpcodeUpdateRecord {
    /// Makes a tuple from another one, with some elements replaced.
    pub fn update_record(
        ctx: &mut RuntimeContext,
        proc: &mut Process,
        size: usize,
        src: &Term,
        dst: &Term,
        updates: &Term,
    ) -> (r: Result<DispatchResult, RtErr>)
        ensures
            (final(ctx)@, final(proc)@, fail::result_view(r)) == record_updated(
                old(ctx)@,
                old(proc)@,
                size,
                src@,
                dst@,
                updates@,
            ),
    {
        let (elems, t) = match (elements(src), elements(updates)) {
            (Some(e), Some(t)) => (e, t),
            _ => {
                return Err(badarg());
            },
        };
        if size > elems.len() {
            return Err(badarg());
        }
        let ghost ev = term::terms_view(elems@);
        let mut new: Vec<Term> = Vec::new();
        let mut j: usize = 0;
        while j < size
            invariant
                j <= size <= elems@.len(),
                new@.len() == j,
                forall|k: int| 0 <= k < j ==> (#[trigger] new@[k])@ == elems@[k]@,
            decreases size - j,
        {
            new.push(elems[j].copy());
            j += 1;
        }
        let ghost first = term::terms_view(new@);
        assert(first =~= ev.take(size as int));
        let ghost v = term::terms_view(t@);
        let total: usize = t.len();
        let mut i: usize = 0;
        assert(v.skip(0) =~= v);
        while total - i >= 2
            invariant
                i <= total,
                total == t@.len(),
                v == term::terms_view(t@),
                new@.len() == size,
                ctx@ == old(ctx)@,
                proc@ == old(proc)@,
                tuple_of(src@) == Some(ev),
                tuple_of(updates@) == Some(v),
                size <= ev.len(),
                first == ev.take(size as int),
                updated(ctx@, proc@, term::terms_view(new@), v.skip(i as int)) == updated(
                    ctx@,
                    proc@,
                    first,
                    v,
                ),
            decreases total - i,
        {
            let ghost here = v.skip(i as int);
            let ghost was = term::terms_view(new@);
            proof {
                assert(here[0] == t@[i as int]@);
                assert(here[1] == t@[i + 1]@);
                assert(here.skip(2) =~= v.skip(i + 2));
            }
            let at: usize = match OpcodeBsMatch::to_usize(&t[i]) {
                Some(n) => n,
                None => {
                    return Err(badarg());
                },
            };
            if at == 0 || at > size {
                return Err(badarg());
            }
            let val: Term = ctx.load(&t[i + 1], proc);
            let ghost vv = val@;
            new.set(at - 1, val);
            assert(term::terms_view(new@) =~= was.update(at - 1, vv));
            i += 2;
        }
        let val: Term = Term::make_tuple(new);
        keep(ctx, proc, val, dst)
    }
}

/// Raises that a value is no such record.
pub struct OpcodeBadrecord;

impl OpcodeBadrecord {
    /// Raises that a value is no such record.
    pub fn badrecord(val: Term) -> (r: Result<DispatchResult, RtErr>)
        ensures
            r matches Err(e) && e@ == fail::pair_error("badrecord"@, val@),
    {
        Err(generic_tuple2_fail("badrecord", val))
    }
}

// ---------------------------------------------------------------------------
// What holds of every map
// ---------------------------------------------------------------------------
/// A key has the value that was put for it, and no other key is touched.
pub proof fn law_put_is_got(m: Pairs, k: TermV, v: TermV, other: TermV)
    requires
        other != k,
    ensures
        map_get(map_put(m, k, v), k) == Some(v),
        map_get(map_put(m, k, v), other) == map_get(m, other),
{
    let n = map_put(m, k, v);
    lemma_key_at(m, k);
    lemma_key_at(m, other);
    let i = key_at(m, k) as int;
    assert forall|j: int| 0 <= j < i implies (#[trigger] n[j]).0 != k by {
        assert(n[j] == m[j]);
    }
    lemma_key_is_at(n, k, i);
    let o = key_at(m, other) as int;
    assert forall|j: int| 0 <= j < o implies (#[trigger] n[j]).0 != other by {
        if j < m.len() && j != i {
            assert(n[j] == m[j]);
        }
    }
    if o < m.len() {
        assert(n[o] == m[o]);
        lemma_key_is_at(n, other, o);
    } else {
        assert forall|j: int| 0 <= j < n.len() implies (#[trigger] n[j]).0 != other by {
            if j < m.len() && j != i {
                assert(n[j] == m[j]);
            }
        }
        lemma_key_is_at(n, other, n.len() as int);
    }
}

/// Whether two maps have the same keys, at the same places.
pub open spec fn same_keys(m: Pairs, n: Pairs) -> bool {
    m.len() == n.len() && forall|i: int| 0 <= i < m.len() ==> (#[trigger] m[i]).0 == n[i].0
}

/// Replacing the values of keys that are there leaves the keys as they are.
pub proof fn law_exact_keeps_keys(c: CtxV, p: ProcV, m: Pairs, t: Seq<TermV>)
    requires
        missing(c, p, m, t, 2) is None,
    ensures
        same_keys(m, map_put_all(c, p, m, t)),
    decreases t.len(),
{
    if t.len() >= 2 {
        let k = runtime::loaded(c, p, t[0]);
        let v = runtime::loaded(c, p, t[1]);
        let n = map_put(m, k, v);
        lemma_key_at(m, k);
        assert(same_keys(m, n));
        lemma_missing_same(c, p, m, n, t.skip(2));
        law_exact_keeps_keys(c, p, n, t.skip(2));
    }
}

proof fn lemma_missing_same(c: CtxV, p: ProcV, m: Pairs, n: Pairs, t: Seq<TermV>)
    requires
        same_keys(m, n),
    ensures
        missing(c, p, m, t, 2) == missing(c, p, n, t, 2),
    decreases t.len(),
{
    if t.len() >= 2 {
        let k = runtime::loaded(c, p, t[0]);
        lemma_key_at(m, k);
        let i = key_at(m, k) as int;
        assert forall|j: int| 0 <= j < i implies (#[trigger] n[j]).0 != k by {
            assert(m[j].0 == n[j].0);
        }
        if i < m.len() {
            assert(m[i].0 == n[i].0);
        }
        lemma_key_is_at(n, k, i);
        lemma_missing_same(c, p, m, n, t.skip(2));
    }
}

/// A map knows a key exactly where one of its pairs has it, and gives the value of such a pair.
pub proof fn law_get_finds_pairs(m: Pairs, k: TermV)
    ensures
        map_get(m, k) is None <==> forall|i: int| 0 <= i < m.len() ==> (#[trigger] m[i]).0 != k,
        map_get(m, k) matches Some(v) ==> exists|i: int| 0 <= i < m.len() && #[trigger] m[i] == (k, v),
{
    lemma_key_at(m, k);
    let i = key_at(m, k) as int;
    if i < m.len() {
        assert(m[i] == (k, m[i].1));
    }
}

/// Of the values that are put for a key the last one counts; a key for which none is put keeps its
/// value.
pub proof fn law_last_put_wins(c: CtxV, p: ProcV, m: Pairs, t: Seq<TermV>, k: TermV, j: int)
    requires
        t.len() % 2 == 0,
        -1 <= j < t.len() / 2,
        j >= 0 ==> runtime::loaded(c, p, t[2 * j]) == k,
        forall|i: int| j < i < t.len() / 2 ==> runtime::loaded(c, p, #[trigger] t[2 * i]) != k,
    ensures
        map_get(map_put_all(c, p, m, t), k) == if j >= 0 {
            Some(runtime::loaded(c, p, t[2 * j + 1]))
        } else {
            map_get(m, k)
        },
    decreases t.len(),
{
    if t.len() >= 2 {
        let a = runtime::loaded(c, p, t[0]);
        let v = runtime::loaded(c, p, t[1]);
        let n = map_put(m, a, v);
        let rest = t.skip(2);
        assert forall|i: int| j - 1 < i < rest.len() / 2 && i >= 0 implies runtime::loaded(
            c,
            p,
            #[trigger] rest[2 * i],
        ) != k by {
            assert(rest[2 * i] == t[2 * (i + 1)]);
        }
        if j > 0 {
            assert(rest[2 * (j - 1)] == t[2 * j]);
            assert(rest[2 * (j - 1) + 1] == t[2 * j + 1]);
            law_last_put_wins(c, p, n, rest, k, j - 1);
        } else {
            law_last_put_wins(c, p, n, rest, k, -1);
            if j == 0 {
                assert(t[2 * 0int] == t[0]);
                law_put_is_got(m, k, v, if k == TermV::Nil {
                    TermV::NonValue
                } else {
                    TermV::Nil
                });
            } else {
                assert(t[2 * 0int] == t[0]);
                law_put_is_got(m, a, v, k);
            }
        }
    }
}

/// A map has all keys exactly where it has each of them.
pub proof fn law_missing_means_missing(c: CtxV, p: ProcV, m: Pairs, t: Seq<TermV>)
    ensures
        missing(c, p, m, t, 1) is None <==> forall|i: int|
            0 <= i < t.len() ==> map_get(m, runtime::loaded(c, p, #[trigger] t[i])) is Some,
        missing(c, p, m, t, 1) matches Some(k) ==> map_get(m, k) is None,
    decreases t.len(),
{
    if t.len() > 0 {
        let rest = t.skip(1);
        law_missing_means_missing(c, p, m, rest);
        assert forall|i: int| 0 <= i < t.len() && missing(c, p, m, t, 1) is None implies map_get(
            m,
            runtime::loaded(c, p, #[trigger] t[i]),
        ) is Some by {
            if i > 0 {
                assert(rest[i - 1] == t[i]);
            }
        }
        if missing(c, p, m, t, 1) is Some {
            if map_get(m, runtime::loaded(c, p, t[0])) is Some {
                let i = choose|i: int|
                    0 <= i < rest.len() && map_get(m, runtime::loaded(c, p, #[trigger] rest[i])) is None;
                assert(t[i + 1] == rest[i]);
            }
        }
    }
}

/// The keys of pairs that are to be replaced must all be there: the first that is not is what the
/// failure names, and then nothing is kept.
pub proof fn law_exact_needs_keys(
    c: CtxV,
    p: ProcV,
    m: Pairs,
    k: TermV,
    v: TermV,
    more: Seq<TermV>,
    dst: TermV,
)
    requires
        map_get(m, runtime::loaded(c, p, k)) is None,
    ensures
        exact_put(c, p, TermV::Nil, TermV::Assoc(m), dst, TermV::Tuple(seq![k, v] + more)) == (
            c,
            p,
            Err::<DispatchResult, RtErrV>(fail::pair_error("badkey"@, runtime::loaded(c, p, k))),
        ),
{
    let t = seq![k, v] + more;
    assert(t[0] == k);
}

/// The value of a key is taken to the register that is named for it; keys and registers go in
/// pairs, one pair after the other.
pub proof fn law_value_is_taken(c: CtxV, p: ProcV, m: Pairs, k: TermV, reg: usize, more: Seq<TermV>)
    requires
        reg < c.x.len(),
    ensures
        map_get(m, runtime::loaded(c, p, k)) matches Some(v) ==> elements_kept(
            c,
            p,
            m,
            seq![k, TermV::RegX(reg)] + more,
        ) == elements_kept(CtxV { x: c.x.update(reg as int, v), ..c }, p, m, more),
        map_get(m, runtime::loaded(c, p, k)) is None ==> elements_kept(
            c,
            p,
            m,
            seq![k, TermV::RegX(reg)] + more,
        ).2 is Err,
{
    let t = seq![k, TermV::RegX(reg)] + more;
    assert(t[0] == k && t[1] == TermV::RegX(reg));
    assert(t.skip(2) =~= more);
}

/// An update of a record replaces the element at its place, counted from one, and no other; the
/// updates behind it are made after it.
pub proof fn law_update_replaces_element(
    c: CtxV,
    p: ProcV,
    elems: Seq<TermV>,
    i: i64,
    v: TermV,
    more: Seq<TermV>,
)
    requires
        1 <= i <= elems.len(),
        i <= usize::MAX,
    ensures
        updated(c, p, elems, seq![TermV::Small(i), v] + more) == updated(
            c,
            p,
            elems.take(i - 1) + seq![runtime::loaded(c, p, v)] + elems.skip(i as int),
            more,
        ),
        updated(c, p, elems, Seq::empty()) == Some(elems),
{
    let t = seq![TermV::Small(i), v] + more;
    assert(t[0] == TermV::Small(i) && t[1] == v);
    assert(t.skip(2) =~= more);
    assert(elems.update(i - 1, runtime::loaded(c, p, v)) =~= elems.take(i - 1) + seq![
        runtime::loaded(c, p, v),
    ] + elems.skip(i as int));
}

} // verus!
