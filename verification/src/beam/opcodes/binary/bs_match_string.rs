//! Matching bytes that stand in the code.
use vstd::prelude::*;
use crate::beam::disp_result::DispatchResult;
use crate::beam::opcodes::binary::bs_create_bin;
use crate::beam::opcodes::binary::bs_match;
use crate::beam::opcodes::binary::bs_match::{bits_remaining, increase_offset};
use crate::beam::opcodes::binary::bs_utf8;
use crate::beam::runtime;
use crate::beam::runtime::{CtxV, MatchState, ProcV, Process, RuntimeContext};
use crate::defs::bits;
use crate::defs::bitsize::BitSize;
use crate::defs::data_reader::{BitReader, TDataReader};
use crate::fail::RtErr;
use crate::term::{BinRef, Term, TermV};

verus! {

/// The `i`th byte from where a binary begins; a binary without bits begins nowhere, and has zeros.
pub open spec fn byte_of(p: ProcV, b: BinRef, i: int) -> u8 {
    if b.bits == 0 {
        0
    } else {
        bits::number(bits::window(bits::bits_of(p.bins[b.bin as int]), b.offset + 8 * i, 8)) as u8
    }
}

/// Whether the next bytes of a match are those of a binary.
pub open spec fn same_bytes(p: ProcV, ms: int, b: BinRef, n: int) -> bool {
    forall|i: int| 0 <= i < n ==> #[trigger] bs_utf8::byte_ahead(p, ms, i) == byte_of(p, b, i)
}

/// So many bits are matched with a binary, or the code goes on at the label.
pub open spec fn string_matched(
    c: CtxV,
    p: ProcV,
    label: TermV,
    ms: int,
    n: usize,
    literal: TermV,
) -> (CtxV, ProcV) {
    if n <= bs_match::remaining(p, ms) && (literal matches TermV::Binary(b) && same_bytes(
        p,
        ms,
        b,
        n as int / 8,
    )) {
        (c, bs_match::moved(p, ms, n as int))
    } else {
        (runtime::jumped(c, label), p)
    }
}

/// Matches bytes that stand in the code.
pub struct OpcodeBsMatchString;

impl OpcodeBsMatchString {
    /// Matches whole bytes; where they differ, the code goes on at the label.
    pub fn bs_match_string(
        ctx: &mut RuntimeContext,
        proc: &mut Process,
        label: &Term,
        ms: usize,
        bits: usize,
        literal: &Term,
    ) -> (r: Result<DispatchResult, RtErr>)
        requires
            bs_match::match_ok(old(proc)@, ms as int),
            literal@ matches TermV::Binary(b) ==> runtime::valid(old(proc)@, b) && b.offset + bits
                <= usize::MAX,
        ensures
            r == Ok::<DispatchResult, RtErr>(DispatchResult::Normal),
            (final(ctx)@, final(proc)@) == string_matched(
                old(ctx)@,
                old(proc)@,
                label@,
                ms as int,
                bits,
                literal@,
            ),
    {
        if bits_remaining(proc, ms) < bits {
            ctx.jump(label);
            return Ok(DispatchResult::Normal);
        }
        let lit: BinRef = match literal {
            Term::Binary(b) => *b,
            _ => {
                ctx.jump(label);
                return Ok(DispatchResult::Normal);
            },
        };
        let n: usize = bits / 8;
        let m: MatchState = proc.matches[ms];
        let ghost p = proc@;
        proof {
            assert(m == p.matches[ms as int]);
            assert(runtime::valid(p, m.src));
            if m.src.bits > 0 {
                assert(p.bins[m.src.bin as int] == proc.bins@[m.src.bin as int]@);
            }
            if lit.bits > 0 {
                assert(p.bins[lit.bin as int] == proc.bins@[lit.bin as int]@);
            }
        }
        let mut same: bool = true;
        let mut i: usize = 0;
        while same && i < n
            invariant
                i <= n,
                n == bits / 8,
                proc@ == p,
                bits <= bs_match::remaining(p, ms as int),
                bs_match::match_ok(p, ms as int),
                m == p.matches[ms as int],
                runtime::valid(p, m.src),
                runtime::valid(p, lit),
                lit.offset + bits <= usize::MAX,
                m.src.bits > 0 ==> p.bins[m.src.bin as int] == proc.bins@[m.src.bin as int]@,
                lit.bits > 0 ==> p.bins[lit.bin as int] == proc.bins@[lit.bin as int]@,
                same ==> same_bytes(p, ms as int, lit, i as int),
                !same ==> !same_bytes(p, ms as int, lit, n as int),
            decreases n - i,
        {
            let reader = BitReader::new(
                proc.bins[m.src.bin].as_slice(),
                BitSize::with_bits(m.src.offset),
            ).add_bit_offset(BitSize::with_bits(m.offset));
            let a: u8 = reader.read(i);
            let b: u8 = if lit.bits == 0 {
                0
            } else {
                BitReader::new(
                    proc.bins[lit.bin].as_slice(),
                    BitSize::with_bits(lit.offset),
                ).read(i)
            };
            assert(a == bs_utf8::byte_ahead(p, ms as int, i as int));
            assert(b == byte_of(p, lit, i as int));
            if a != b {
                same = false;
            }
            i += 1;
        }
        if same {
            increase_offset(proc, ms, bits);
        } else {
            ctx.jump(label);
        }
        Ok(DispatchResult::Normal)
    }
}

/// The first bytes of a binary.
pub open spec fn bytes_of(p: ProcV, b: BinRef, n: int) -> Seq<u8> {
    Seq::new(n as nat, |i: int| byte_of(p, b, i))
}

/// The first bytes of a binary.
pub fn read_bytes(proc: &Process, b: BinRef, n: usize) -> (r: Vec<u8>)
    requires
        runtime::proc_ok(proc@),
        runtime::valid(proc@, b),
        b.bits > 0 ==> b.offset + 8 * n <= usize::MAX,
    ensures
        r@ == bytes_of(proc@, b, n as int),
{
    let mut v: Vec<u8> = Vec::new();
    let mut i: usize = 0;
    if b.bits == 0 {
        while i < n
            invariant
                i <= n,
                b.bits == 0,
                v@ == bytes_of(proc@, b, i as int),
            decreases n - i,
        {
            v.push(0);
            i += 1;
            assert(v@ =~= bytes_of(proc@, b, i as int));
        }
        return v;
    }
    assert(proc@.bins[b.bin as int] == proc.bins@[b.bin as int]@);
    let reader = BitReader::new(proc.bins[b.bin].as_slice(), BitSize::with_bits(b.offset));
    while i < n
        invariant
            i <= n,
            b.bits > 0,
            b.offset + 8 * n <= usize::MAX,
            reader.data@ == proc@.bins[b.bin as int],
            reader.offset.bits == b.offset,
            v@ == bytes_of(proc@, b, i as int),
        decreases n - i,
    {
        let byte: u8 = reader.read(i);
        v.push(byte);
        i += 1;
        assert(v@ =~= bytes_of(proc@, b, i as int));
    }
    assert(v@ =~= bytes_of(proc@, b, n as int));
    v
}

/// Bytes that stand in the code match where the next bits are theirs, and then just so many bits are
/// passed over; where any bit differs, or there are too few, the code goes on at the label, and the
/// match stays where it is.
pub proof fn law_string_matches_itself(
    c: CtxV,
    p: ProcV,
    label: usize,
    ms: int,
    n: usize,
    b: BinRef,
)
    requires
        bs_match::match_ok(p, ms),
        runtime::valid(p, b),
        n <= b.bits,
        n % 8 == 0,
    ensures
        ({
            let (d, q) = string_matched(c, p, TermV::Code(label), ms, n, TermV::Binary(b));
            let same = n <= bs_match::remaining(p, ms) && runtime::bits_at(
                p,
                bs_match::rest(p, ms),
            ).take(n as int) == runtime::bits_at(p, b).take(n as int);
            &&& same ==> d == c && q.matches[ms].offset == p.matches[ms].offset + n
                && q.matches[ms].src == p.matches[ms].src && q.bins == p.bins
            &&& !same ==> d.ip == label && d.x == c.x && q == p
        }),
{
    if n <= bs_match::remaining(p, ms) && n > 0 {
        let m = p.matches[ms];
        assert(runtime::valid(p, m.src));
        let r = bs_match::rest(p, ms);
        assert(8 * p.bins[m.src.bin as int].len() <= usize::MAX / 2 - 8);
        let x = bits::bits_of(p.bins[m.src.bin as int]);
        let y = bits::bits_of(p.bins[b.bin as int]);
        let u = runtime::bits_at(p, r).take(n as int);
        let v = runtime::bits_at(p, b).take(n as int);
        assert forall|i: int| 0 <= i < n as int / 8 implies (#[trigger] bs_utf8::byte_ahead(p, ms, i)
            == byte_of(p, b, i)) == (u.subrange(8 * i, 8 * i + 8) == v.subrange(8 * i, 8 * i + 8)) by {
            let a = bits::window(x, m.src.offset + m.offset + 8 * i, 8);
            let e = bits::window(y, b.offset + 8 * i, 8);
            assert(a =~= u.subrange(8 * i, 8 * i + 8));
            assert(e =~= v.subrange(8 * i, 8 * i + 8));
            bits::lemma_number_bound(a);
            bits::lemma_number_bound(e);
            vstd::arithmetic::power2::lemma2_to64();
            if bs_utf8::byte_ahead(p, ms, i) == byte_of(p, b, i) {
                assert(bits::number(a) == bits::number(e));
                bits::law_number_tells_bits(a, e);
            }
        }
        if same_bytes(p, ms, b, n as int / 8) {
            assert forall|k: int| 0 <= k < n implies u[k] == v[k] by {
                let i = k / 8;
                assert(bs_utf8::byte_ahead(p, ms, i) == byte_of(p, b, i));
                assert(u.subrange(8 * i, 8 * i + 8)[k - 8 * i] == v.subrange(8 * i, 8 * i + 8)[k - 8
                    * i]);
            }
            assert(u =~= v);
        }
    } else if n == 0 {
        assert(runtime::bits_at(p, bs_match::rest(p, ms)).take(0) =~= runtime::bits_at(p, b).take(
            0,
        ));
    }
}

/// The bytes that are read of a binary have its bits.
pub proof fn law_bytes_have_bits(p: ProcV, b: BinRef, n: int, k: int)
    requires
        runtime::valid(p, b),
        0 <= 8 * n <= b.bits,
        0 <= k < 8 * n,
    ensures
        bytes_of(p, b, n).len() == n,
        bits::bits_of(bytes_of(p, b, n))[k] == runtime::bits_at(p, b)[k],
{
    let i = k / 8;
    let w = bits::window(bits::bits_of(p.bins[b.bin as int]), b.offset + 8 * i, 8);
    bs_create_bin::lemma_byte_has_bits(w, k % 8);
    assert(bytes_of(p, b, n)[i] == bits::number(w) as u8);
}

} // verus!
