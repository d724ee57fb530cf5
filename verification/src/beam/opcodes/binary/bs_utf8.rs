//! Reading and writing characters in UTF-8.
use vstd::prelude::*;
use crate::beam::disp_result::DispatchResult;
use crate::beam::opcodes::binary::bs_match;
use crate::beam::opcodes::binary::bs_match::{bits_remaining, increase_offset};
use crate::beam::runtime;
use crate::beam::runtime::{CtxV, CurrentBin, MatchState, ProcV, Process, RuntimeContext};
use crate::defs::bits;
use crate::defs::bitsize::BitSize;
use crate::defs::data_reader::{BitReader, TDataReader};
use crate::fail;
use crate::fail::{badarg, RtErr, RtErrV};
use crate::term::{Term, TermV};

verus! {

/// A Unicode scalar value: a code point that is no surrogate.
pub open spec fn is_scalar(cp: int) -> bool {
    0 <= cp <= 0x10ffff && !(0xd800 <= cp <= 0xdfff)
}

/// What the first byte of a character says: how many bytes it has, and its first bits.
pub open spec fn first_byte(b: u8) -> Option<(usize, u32)> {
    if b < 0x80 {
        Some((1, b as u32))
    } else if 0xc0 <= b < 0xe0 {
        Some((2, (b - 0xc0) as u32))
    } else if 0xe0 <= b < 0xf0 {
        Some((3, (b - 0xe0) as u32))
    } else if 0xf0 <= b < 0xf8 {
        Some((4, (b - 0xf0) as u32))
    } else {
        None
    }
}

/// The bits of further bytes put behind those that are there.
pub open spec fn joined(partial: nat, more: Seq<u8>) -> Option<nat>
    decreases more.len(),
{
    if more.len() == 0 {
        Some(partial)
    } else {
        match joined(partial, more.drop_last()) {
            Some(p) => if 0x80 <= more.last() < 0xc0 {
                Some((64 * p + (more.last() - 0x80)) as nat)
            } else {
                None
            },
            None => None,
        }
    }
}

/// The smallest code point that needs so many bytes.
pub open spec fn smallest(len: int) -> int {
    if len == 1 {
        0
    } else if len == 2 {
        0x80
    } else if len == 3 {
        0x800
    } else {
        0x10000
    }
}

/// A code point from its first bits and its further bytes: none may be longer than it needs, and
/// none may be a surrogate.
pub open spec fn completed(partial: nat, more: Seq<u8>) -> Option<nat> {
    match joined(partial, more) {
        Some(cp) => if more.len() < 4 && cp >= smallest(more.len() + 1int) && !(0xd800 <= cp
            <= 0xdfff) {
            Some(cp)
        } else {
            None
        },
        None => None,
    }
}

/// The character at the front of bytes: how many bytes it has, and its code point.
pub open spec fn decoded(b: Seq<u8>) -> Option<(usize, nat)> {
    if b.len() == 0 {
        None
    } else {
        match first_byte(b[0]) {
            Some((len, partial)) => if b.len() < len {
                None
            } else {
                match completed(partial as nat, b.subrange(1, len as int)) {
                    Some(cp) => Some((len, cp)),
                    None => None,
                }
            },
            None => None,
        }
    }
}

/// A code point in UTF-8.
pub open spec fn encoded(cp: int) -> Seq<u8> {
    if cp < 0x80 {
        seq![cp as u8]
    } else if cp < 0x800 {
        seq![(0xc0 + cp / 64) as u8, (0x80 + cp % 64) as u8]
    } else if cp < 0x10000 {
        seq![(0xe0 + cp / 4096) as u8, (0x80 + (cp / 64) % 64) as u8, (0x80 + cp % 64) as u8]
    } else {
        seq![
            (0xf0 + cp / 262144) as u8,
            (0x80 + (cp / 4096) % 64) as u8,
            (0x80 + (cp / 64) % 64) as u8,
            (0x80 + cp % 64) as u8,
        ]
    }
}

/// The `i`th byte that has not been matched yet.
pub open spec fn byte_ahead(p: ProcV, ms: int, i: int) -> u8 {
    let m = p.matches[ms];
    bits::number(
        bits::window(
            bits::bits_of(p.bins[m.src.bin as int]),
            m.src.offset + m.offset + 8 * i,
            8,
        ),
    ) as u8
}

/// The whole bytes that have not been matched yet.
pub open spec fn bytes_ahead(p: ProcV, ms: int) -> Seq<u8> {
    Seq::new((bs_match::remaining(p, ms) / 8) as nat, |i: int| byte_ahead(p, ms, i))
}

/// The code point in a small integer; only its low bits count.
pub open spec fn code_point(n: i64) -> int {
    n as int % 0x1_0000_0000
}

/// A failure: the code goes on at the label, or, where there is none, it is an error.
pub open spec fn failed(c: CtxV, label: TermV) -> (CtxV, Result<DispatchResult, RtErrV>) {
    if label == TermV::Nil {
        (c, Err(fail::atom_error("badarg"@)))
    } else {
        (runtime::jumped(c, label), Ok(DispatchResult::Normal))
    }
}

/// Bytes written from a place on, as far as there is room.
pub open spec fn overwritten(data: Seq<u8>, at: int, b: Seq<u8>) -> Seq<u8> {
    Seq::new(
        data.len(),
        |i: int|
            if at <= i < at + b.len() {
                b[i - at]
            } else {
                data[i]
            },
    )
}

/// Bytes are written to the binary that is being built, from its last whole byte on.
pub open spec fn written(c: CtxV, p: ProcV, b: Seq<u8>, len: int) -> (CtxV, ProcV) {
    let cur = c.current->0;
    (
        CtxV {
            current: Some(
                CurrentBin {
                    offset: BitSize { bits: (cur.offset.bits + 8 * len) as usize },
                    ..cur
                },
            ),
            ..c
        },
        ProcV {
            bins: p.bins.update(
                cur.bin as int,
                overwritten(p.bins[cur.bin as int], cur.offset.bits as int / 8, b),
            ),
            ..p
        },
    )
}

/// Whether a binary is being built, and so many more bytes can be counted.
pub open spec fn can_write(c: CtxV, p: ProcV, len: int) -> bool {
    &&& runtime::proc_ok(p)
    &&& c.current is Some
    &&& c.current->0.bin < p.bins.len()
    &&& (c.current->0).offset.bits + 8 * len <= usize::MAX
}

/// What the first byte of a character says.
pub fn utf8_decode_first_byte(byte: u8) -> (r: Option<(usize, u32)>)
    ensures
        r == first_byte(byte),
{
    if byte < 0x80 {
        Some((1, byte as u32))
    } else if byte >= 0xc0 && byte < 0xe0 {
        Some((2, (byte - 0xc0) as u32))
    } else if byte >= 0xe0 && byte < 0xf0 {
        Some((3, (byte - 0xe0) as u32))
    } else if byte >= 0xf0 && byte < 0xf8 {
        Some((4, (byte - 0xf0) as u32))
    } else {
        None
    }
}

/// The bytes that a reader has behind the first.
pub open spec fn reader_bytes(data: Seq<u8>, at: int, len: int) -> Seq<u8> {
    Seq::new(
        (len - 1) as nat,
        |i: int| bits::number(bits::window(bits::bits_of(data), at + 8 * (i + 1), 8)) as u8,
    )
}

proof fn lemma_joined_none(partial: nat, more: Seq<u8>, k: int)
    requires
        0 <= k <= more.len(),
        joined(partial, more.take(k)) is None,
    ensures
        joined(partial, more) is None,
    decreases more.len() - k,
{
    if k < more.len() {
        assert(more.take(k + 1).drop_last() =~= more.take(k));
        lemma_joined_none(partial, more, k + 1);
    } else {
        assert(more.take(k) =~= more);
    }
}

/// Completes a code point from its further bytes.
pub fn utf8_decode_continuation(reader: &BitReader, partial: u32, char_len: usize) -> (r: Option<
    u32,
>)
    requires
        1 <= char_len <= 4,
        partial < 128,
        char_len > 1 ==> partial < 32,
        char_len > 2 ==> partial < 16,
        char_len > 3 ==> partial < 8,
        reader.offset.bits + 8 * char_len <= usize::MAX,
    ensures
        match r {
            Some(cp) => completed(
                partial as nat,
                reader_bytes(reader.data@, reader.offset.bits as int, char_len as int),
            ) == Some(cp as nat),
            None => completed(
                partial as nat,
                reader_bytes(reader.data@, reader.offset.bits as int, char_len as int),
            ) is None,
        },
        r matches Some(cp) ==> cp < 0x200000,
{
    let ghost more = reader_bytes(reader.data@, reader.offset.bits as int, char_len as int);
    let mut cp: u32 = partial;
    let mut i: usize = 1;
    assert(more.take(0) =~= Seq::<u8>::empty());
    while i < char_len
        invariant
            1 <= i <= char_len <= 4,
            reader.offset.bits + 8 * char_len <= usize::MAX,
            more == reader_bytes(reader.data@, reader.offset.bits as int, char_len as int),
            more.len() == char_len - 1,
            joined(partial as nat, more.take(i - 1)) == Some(cp as nat),
            char_len == 1 ==> cp < 128,
            char_len == 2 && i == 1 ==> cp < 32,
            char_len == 2 && i == 2 ==> cp < 2048,
            char_len == 3 && i == 1 ==> cp < 16,
            char_len == 3 && i == 2 ==> cp < 1024,
            char_len == 3 && i == 3 ==> cp < 65536,
            char_len == 4 && i == 1 ==> cp < 8,
            char_len == 4 && i == 2 ==> cp < 512,
            char_len == 4 && i == 3 ==> cp < 32768,
            char_len == 4 && i == 4 ==> cp < 0x200000,
        decreases char_len - i,
    {
        let b: u8 = reader.read(i);
        proof {
            assert(b == more[i - 1]);
            assert(more.take(i as int).drop_last() =~= more.take(i - 1));
            assert(more.take(i as int).last() == b);
        }
        if b < 0x80 || b >= 0xc0 {
            proof {
                lemma_joined_none(partial as nat, more, i as int);
            }
            return None;
        }
        cp = cp * 64 + (b - 0x80) as u32;
        i += 1;
    }
    assert(more.take(char_len - 1) =~= more);
    let least: u32 = if char_len == 1 {
        0
    } else if char_len == 2 {
        0x80
    } else if char_len == 3 {
        0x800
    } else {
        0x10000
    };
    if cp < least || (cp >= 0xd800 && cp <= 0xdfff) {
        return None;
    }
    Some(cp)
}

/// The character at the front of what has not been matched yet.
fn char_ahead(proc: &Process, ms: usize) -> (r: Option<(usize, u32)>)
    requires
        bs_match::match_ok(proc@, ms as int),
    ensures
        match r {
            Some((len, cp)) => decoded(bytes_ahead(proc@, ms as int)) == Some((len, cp as nat)) && 1
                <= len <= 4 && 8 * len <= bs_match::remaining(proc@, ms as int),
            None => decoded(bytes_ahead(proc@, ms as int)) is None,
        },
{
    let left: usize = bits_remaining(proc, ms);
    if left < 8 {
        return None;
    }
    let m: MatchState = proc.matches[ms];
    let ghost b = bytes_ahead(proc@, ms as int);
    proof {
        assert(m == proc@.matches[ms as int]);
        assert(runtime::valid(proc@, m.src));
        assert(proc@.bins[m.src.bin as int] == proc.bins@[m.src.bin as int]@);
    }
    let reader = BitReader::new(
        proc.bins[m.src.bin].as_slice(),
        BitSize::with_bits(m.src.offset),
    ).add_bit_offset(BitSize::with_bits(m.offset));
    let first: u8 = reader.read(0);
    assert(first == b[0]);
    let (len, partial) = match utf8_decode_first_byte(first) {
        Some(v) => v,
        None => {
            return None;
        },
    };
    if left / 8 < len {
        return None;
    }
    proof {
        assert(reader_bytes(reader.data@, reader.offset.bits as int, len as int) =~= b.subrange(
            1,
            len as int,
        ));
    }
    match utf8_decode_continuation(&reader, partial, len) {
        Some(cp) => Some((len, cp)),
        None => None,
    }
}

/// Takes one character from a match.
pub struct OpcodeBsGetUtf8;

impl OpcodeBsGetUtf8 {
    /// Takes one character from a match and keeps its code point in a register.
    pub fn bs_get_utf8(
        ctx: &mut RuntimeContext,
        proc: &mut Process,
        label: &Term,
        ms: usize,
        dst: &Term,
    ) -> (r: Result<DispatchResult, RtErr>)
        requires
            bs_match::match_ok(old(proc)@, ms as int),
        ensures
            match decoded(bytes_ahead(old(proc)@, ms as int)) {
                Some((len, cp)) => if cp <= 0x10ffff {
                    let p1 = bs_match::moved(old(proc)@, ms as int, 8 * len as int);
                    (final(ctx)@, final(proc)@) == runtime::stored(
                        old(ctx)@,
                        p1,
                        TermV::Small(cp as i64),
                        dst@,
                    ) && match runtime::store_result(old(ctx)@, p1, dst@) {
                        Ok(()) => r == Ok::<DispatchResult, RtErr>(DispatchResult::Normal),
                        Err(e) => r matches Err(f) && f@ == e,
                    }
                } else {
                    final(ctx)@ == runtime::jumped(old(ctx)@, label@) && final(proc)@ == old(
                        proc,
                    )@ && r == Ok::<DispatchResult, RtErr>(DispatchResult::Normal)
                },
                None => final(ctx)@ == runtime::jumped(old(ctx)@, label@) && final(proc)@ == old(
                    proc,
                )@ && r == Ok::<DispatchResult, RtErr>(DispatchResult::Normal),
            },
    {
        match char_ahead(proc, ms) {
            Some((len, cp)) => {
                if cp > 0x10ffff {
                    ctx.jump(label);
                    return Ok(DispatchResult::Normal);
                }
                increase_offset(proc, ms, len * 8);
                match ctx.store_value(Term::Small(cp as i64), dst, proc) {
                    Ok(()) => Ok(DispatchResult::Normal),
                    Err(e) => Err(e),
                }
            },
            None => {
                ctx.jump(label);
                Ok(DispatchResult::Normal)
            },
        }
    }
}

/// Skips one character of a match.
pub struct OpcodeBsSkipUtf8;

impl OpcodeBsSkipUtf8 {
    /// Skips one character of a match.
    pub fn bs_skip_utf8(
        ctx: &mut RuntimeContext,
        proc: &mut Process,
        label: &Term,
        ms: usize,
    ) -> (r: Result<DispatchResult, RtErr>)
        requires
            bs_match::match_ok(old(proc)@, ms as int),
        ensures
            r == Ok::<DispatchResult, RtErr>(DispatchResult::Normal),
            match decoded(bytes_ahead(old(proc)@, ms as int)) {
                Some((len, cp)) => final(ctx)@ == old(ctx)@ && final(proc)@ == bs_match::moved(
                    old(proc)@,
                    ms as int,
                    8 * len as int,
                ),
                None => final(ctx)@ == runtime::jumped(old(ctx)@, label@) && final(proc)@ == old(
                    proc,
                )@,
            },
    {
        match char_ahead(proc, ms) {
            Some((len, _)) => {
                increase_offset(proc, ms, len * 8);
            },
            None => {
                ctx.jump(label);
            },
        }
        Ok(DispatchResult::Normal)
    }
}

/// The code point in a term, where it is a scalar value.
pub open spec fn scalar_of(t: TermV) -> Option<int> {
    match t {
        TermV::Small(n) => if is_scalar(code_point(n)) {
            Some(code_point(n))
        } else {
            None
        },
        _ => None,
    }
}

fn scalar_in(t: &Term) -> (r: Option<u32>)
    ensures
        match r {
            Some(cp) => scalar_of(t@) == Some(cp as int),
            None => scalar_of(t@) is None,
        },
{
    match t {
        Term::Small(n) => {
            let wide: i128 = *n as i128 + 0x1_0000_0000_0000_0000;
            let cp: i128 = wide % 0x1_0000_0000;
            assert(cp == code_point(*n));
            if cp <= 0x10ffff && !(cp >= 0xd800 && cp <= 0xdfff) {
                Some(cp as u32)
            } else {
                None
            }
        },
        _ => None,
    }
}

fn fail_or_error(ctx: &mut RuntimeContext, label: &Term) -> (r: Result<DispatchResult, RtErr>)
    ensures
        (final(ctx)@, fail::result_view(r)) == failed(old(ctx)@, label@),
{
    if label.is_nil() {
        return Err(badarg());
    }
    ctx.jump(label);
    Ok(DispatchResult::Normal)
}

/// How many bytes a character takes.
pub struct OpcodeBsUtf8Size;

impl OpcodeBsUtf8Size {
    /// Keeps in a register how many bytes a code point takes.
    pub fn bs_utf8_size(
        ctx: &mut RuntimeContext,
        proc: &mut Process,
        label: &Term,
        src: &Term,
        dst: &Term,
    ) -> (r: Result<DispatchResult, RtErr>)
        ensures
            match scalar_of(src@) {
                Some(cp) => (final(ctx)@, final(proc)@) == runtime::stored(
                    old(ctx)@,
                    old(proc)@,
                    TermV::Small(encoded(cp).len() as i64),
                    dst@,
                ) && match runtime::store_result(old(ctx)@, old(proc)@, dst@) {
                    Ok(()) => r == Ok::<DispatchResult, RtErr>(DispatchResult::Normal),
                    Err(e) => r matches Err(f) && f@ == e,
                },
                None => final(proc)@ == old(proc)@ && (final(ctx)@, fail::result_view(r)) == failed(
                    old(ctx)@,
                    label@,
                ),
            },
    {
        let cp: u32 = match scalar_in(src) {
            Some(cp) => cp,
            None => {
                return fail_or_error(ctx, label);
            },
        };
        let n: i64 = if cp < 0x80 {
            1
        } else if cp < 0x800 {
            2
        } else if cp < 0x10000 {
            3
        } else {
            4
        };
        match ctx.store_value(Term::Small(n), dst, proc) {
            Ok(()) => Ok(DispatchResult::Normal),
            Err(e) => Err(e),
        }
    }
}

/// The bytes of a code point.
fn encode(cp: u32) -> (r: Vec<u8>)
    requires
        is_scalar(cp as int),
    ensures
        r@ == encoded(cp as int),
{
    let mut v: Vec<u8> = Vec::new();
    if cp < 0x80 {
        v.push(cp as u8);
    } else if cp < 0x800 {
        v.push((0xc0 + cp / 64) as u8);
        v.push((0x80 + cp % 64) as u8);
    } else if cp < 0x10000 {
        v.push((0xe0 + cp / 4096) as u8);
        v.push((0x80 + (cp / 64) % 64) as u8);
        v.push((0x80 + cp % 64) as u8);
    } else {
        v.push((0xf0 + cp / 262144) as u8);
        v.push((0x80 + (cp / 4096) % 64) as u8);
        v.push((0x80 + (cp / 64) % 64) as u8);
        v.push((0x80 + cp % 64) as u8);
    }
    assert(v@ =~= encoded(cp as int));
    v
}

/// Writes bytes to the binary that is being built, and counts `len` of them.
pub fn write_bytes(ctx: &mut RuntimeContext, proc: &mut Process, b: &Vec<u8>, len: usize)
    requires
        can_write(old(ctx)@, old(proc)@, len as int),
    ensures
        (final(ctx)@, final(proc)@) == written(old(ctx)@, old(proc)@, b@, len as int),
        runtime::proc_ok(final(proc)@),
{
    let ghost c0 = ctx@;
    let ghost p0 = proc@;
    let cur: CurrentBin = match ctx.current_bin {
        Some(cur) => cur,
        None => {
            return ;
        },
    };
    let at: usize = cur.offset.get_bytes_rounded_down();
    assert(p0.bins[cur.bin as int] == proc.bins@[cur.bin as int]@);
    let ghost data = p0.bins[cur.bin as int];
    let mut new: Vec<u8> = Vec::new();
    let total: usize = proc.bins[cur.bin].len();
    let mut i: usize = 0;
    while i < total
        invariant
            i <= total,
            cur.bin < proc.bins@.len(),
            data == proc.bins@[cur.bin as int]@,
            total == data.len(),
            proc@ == p0,
            new@ == overwritten(data, at as int, b@).take(i as int),
        decreases total - i,
    {
        let v: u8 = if i >= at && i - at < b.len() {
            b[i - at]
        } else {
            proc.bins[cur.bin][i]
        };
        new.push(v);
        assert(new@ =~= overwritten(data, at as int, b@).take(i + 1));
        i += 1;
    }
    assert(new@ =~= overwritten(data, at as int, b@));
    let ghost now = new@;
    proc.bins.set(cur.bin, new);
    ctx.current_bin = Some(
        CurrentBin { bin: cur.bin, offset: cur.offset + BitSize::with_bytes(len) },
    );
    proof {
        assert(proc@.bins =~= p0.bins.update(cur.bin as int, now));
        let q = proc@;
        assert forall|k: int| 0 <= k < q.bins.len() implies 8 * (#[trigger] q.bins[k]).len()
            <= usize::MAX / 2 - 8 by {
            assert(8 * p0.bins[k].len() <= usize::MAX / 2 - 8);
        }
        assert forall|k: int| 0 <= k < q.matches.len() implies runtime::valid(
            q,
            (#[trigger] q.matches[k]).src,
        ) && q.matches[k].offset <= q.matches[k].src.bits by {
            assert(runtime::valid(p0, p0.matches[k].src));
        }
    }
}

/// Writes a character to the binary that is being built.
pub struct OpcodeBsPutUtf8;

impl OpcodeBsPutUtf8 {
    /// Writes a code point in UTF-8 to the binary that is being built.
    pub fn bs_put_utf8(ctx: &mut RuntimeContext, proc: &mut Process, label: &Term, src: &Term) -> (r:
        Result<DispatchResult, RtErr>)
        requires
            can_write(old(ctx)@, old(proc)@, 4),
        ensures
            match scalar_of(src@) {
                Some(cp) => (final(ctx)@, final(proc)@) == written(
                    old(ctx)@,
                    old(proc)@,
                    encoded(cp),
                    encoded(cp).len() as int,
                ) && r == Ok::<DispatchResult, RtErr>(DispatchResult::Normal),
                None => final(proc)@ == old(proc)@ && (final(ctx)@, fail::result_view(r)) == failed(
                    old(ctx)@,
                    label@,
                ),
            },
    {
        let cp: u32 = match scalar_in(src) {
            Some(cp) => cp,
            None => {
                return fail_or_error(ctx, label);
            },
        };
        let b: Vec<u8> = encode(cp);
        let n: usize = b.len();
        write_bytes(ctx, proc, &b, n);
        Ok(DispatchResult::Normal)
    }
}

// ---------------------------------------------------------------------------
// What holds of every character
// ---------------------------------------------------------------------------
/// The bits that further bytes add.
proof fn lemma_joined(partial: nat, more: Seq<u8>)
    requires
        more.len() <= 3,
        forall|i: int| 0 <= i < more.len() ==> 0x80 <= #[trigger] more[i] < 0xc0,
    ensures
        more.len() == 0 ==> joined(partial, more) == Some(partial),
        more.len() == 1 ==> joined(partial, more) == Some((64 * partial + more[0] - 0x80) as nat),
        more.len() == 2 ==> joined(partial, more) == Some(
            (4096 * partial + 64 * (more[0] - 0x80) + more[1] - 0x80) as nat,
        ),
        more.len() == 3 ==> joined(partial, more) == Some(
            (262144 * partial + 4096 * (more[0] - 0x80) + 64 * (more[1] - 0x80) + more[2]
                - 0x80) as nat,
        ),
    decreases more.len(),
{
    if more.len() > 0 {
        let head = more.drop_last();
        assert forall|i: int| 0 <= i < head.len() implies 0x80 <= #[trigger] head[i] < 0xc0 by {
            assert(head[i] == more[i]);
        }
        lemma_joined(partial, head);
    }
}

/// Where the bits of further bytes can be joined, each byte is one that can follow.
proof fn lemma_joined_follow(partial: nat, more: Seq<u8>)
    requires
        joined(partial, more) is Some,
    ensures
        forall|i: int| 0 <= i < more.len() ==> 0x80 <= #[trigger] more[i] < 0xc0,
    decreases more.len(),
{
    if more.len() > 0 {
        let head = more.drop_last();
        lemma_joined_follow(partial, head);
        assert forall|i: int| 0 <= i < more.len() implies 0x80 <= #[trigger] more[i] < 0xc0 by {
            if i < head.len() {
                assert(head[i] == more[i]);
            }
        }
    }
}

/// The digits of a number to the base of 64.
proof fn lemma_digits(cp: int)
    requires
        0 <= cp,
    ensures
        cp == 64 * (cp / 64) + cp % 64,
        cp == 4096 * (cp / 4096) + 64 * ((cp / 64) % 64) + cp % 64,
        cp == 262144 * (cp / 262144) + 4096 * ((cp / 4096) % 64) + 64 * ((cp / 64) % 64) + cp % 64,
{
    let x = cp / 64;
    let y = x / 64;
    let z = y / 64;
    assert(y == cp / 4096);
    assert(z == cp / 262144);
}

/// A number from its digits to the base of 64.
proof fn lemma_from_digits(a: int, b: int, c: int, d: int)
    requires
        0 <= a,
        0 <= b < 64,
        0 <= c < 64,
        0 <= d < 64,
    ensures
        ({
            let cp = 262144 * a + 4096 * b + 64 * c + d;
            &&& cp % 64 == d
            &&& (cp / 64) % 64 == c
            &&& (cp / 4096) % 64 == b
            &&& cp / 64 == 4096 * a + 64 * b + c
            &&& cp / 4096 == 64 * a + b
            &&& cp / 262144 == a
        }),
{
    let cp = 262144 * a + 4096 * b + 64 * c + d;
    assert(cp / 64 == 4096 * a + 64 * b + c);
    assert(cp / 4096 == 64 * a + b);
    assert(cp / 262144 == a);
}

/// Whether a character in UTF-8 is read as the code point.
spec fn parts_fit(cp: int) -> bool {
    let e = encoded(cp);
    let more = e.subrange(1, e.len() as int);
    &&& 1 <= e.len() <= 4
    &&& first_byte(e[0]) matches Some((len, partial)) && len == e.len() && completed(
        partial as nat,
        more,
    ) == Some(cp as nat)
}

proof fn lemma_parts_short(cp: int)
    requires
        is_scalar(cp),
        cp < 0x800,
    ensures
        parts_fit(cp),
{
    let e = encoded(cp);
    let more = e.subrange(1, e.len() as int);
    lemma_digits(cp);
    if cp < 0x80 {
        lemma_joined(cp as nat, more);
    } else {
        assert(more[0] == 0x80 + cp % 64);
        lemma_joined((cp / 64) as nat, more);
    }
}

proof fn lemma_parts_three(cp: int)
    requires
        is_scalar(cp),
        0x800 <= cp < 0x10000,
    ensures
        parts_fit(cp),
{
    let e = encoded(cp);
    let more = e.subrange(1, 3);
    lemma_digits(cp);
    let a = cp / 4096;
    let b = (cp / 64) % 64;
    let c = cp % 64;
    assert(a < 16);
    assert(more[0] == 0x80 + b && more[1] == 0x80 + c);
    assert(first_byte(e[0]) == Some((3usize, a as u32)));
    lemma_joined(a as nat, more);
}

proof fn lemma_parts_four(cp: int)
    requires
        is_scalar(cp),
        0x10000 <= cp,
    ensures
        parts_fit(cp),
{
    let e = encoded(cp);
    let more = e.subrange(1, 4);
    lemma_digits(cp);
    let a = cp / 262144;
    let b = (cp / 4096) % 64;
    let c = (cp / 64) % 64;
    let d = cp % 64;
    assert(a < 5);
    assert(more[0] == 0x80 + b && more[1] == 0x80 + c && more[2] == 0x80 + d);
    assert(first_byte(e[0]) == Some((4usize, a as u32)));
    lemma_joined(a as nat, more);
}

/// What is written as a character is read back as that character, whatever follows.
pub proof fn law_written_is_read(cp: int, behind: Seq<u8>)
    requires
        is_scalar(cp),
    ensures
        decoded(encoded(cp) + behind) == Some((encoded(cp).len() as usize, cp as nat)),
{
    let e = encoded(cp);
    let b = e + behind;
    if cp < 0x800 {
        lemma_parts_short(cp);
    } else if cp < 0x10000 {
        lemma_parts_three(cp);
    } else {
        lemma_parts_four(cp);
    }
    assert(b[0] == e[0]);
    assert(b.subrange(1, e.len() as int) =~= e.subrange(1, e.len() as int));
}

/// What is read as a character is written with the same bytes.
pub proof fn law_read_is_written(b: Seq<u8>)
    requires
        decoded(b) matches Some((len, cp)) && cp <= 0x10ffff,
    ensures
        is_scalar((decoded(b)->0).1 as int),
        encoded((decoded(b)->0).1 as int) == b.take((decoded(b)->0).0 as int),
{
    let len = (decoded(b)->0).0;
    let cp = (decoded(b)->0).1 as int;
    let partial = (first_byte(b[0])->0).1 as nat;
    let more = b.subrange(1, len as int);
    lemma_joined_follow(partial, more);
    lemma_joined(partial, more);
    if len == 1 {
        assert(encoded(cp) =~= b.take(1));
    } else if len == 2 {
        assert(more[0] == b[1]);
        lemma_from_digits(0, 0, partial as int, b[1] - 0x80);
        assert(encoded(cp) =~= b.take(2));
    } else if len == 3 {
        assert(more[0] == b[1] && more[1] == b[2]);
        lemma_from_digits(0, partial as int, b[1] - 0x80, b[2] - 0x80);
        assert(encoded(cp) =~= b.take(3));
    } else {
        assert(more[0] == b[1] && more[1] == b[2] && more[2] == b[3]);
        lemma_from_digits(partial as int, b[1] - 0x80, b[2] - 0x80, b[3] - 0x80);
        assert(encoded(cp) =~= b.take(4));
    }
}

/// Bytes that are written stand in the binary that is being built, from where it had got to; all
/// others stay, in it and in every other binary, and building goes on behind them.
pub proof fn law_written_stands(c: CtxV, p: ProcV, b: Seq<u8>)
    requires
        can_write(c, p, b.len() as int),
        c.current->0.offset.bits % 8 == 0,
        c.current->0.offset.bits / 8 + b.len() <= p.bins[c.current->0.bin as int].len(),
    ensures
        ({
            let (c1, p1) = written(c, p, b, b.len() as int);
            let cur = c.current->0;
            let i = cur.offset.bits as int / 8;
            let old_data = p.bins[cur.bin as int];
            let data = p1.bins[cur.bin as int];
            &&& p1.bins.len() == p.bins.len()
            &&& data.len() == old_data.len()
            &&& data.subrange(i, i + b.len()) == b
            &&& data.take(i) == old_data.take(i)
            &&& data.skip(i + b.len()) == old_data.skip(i + b.len())
            &&& forall|k: int|
                0 <= k < p.bins.len() && k != cur.bin ==> #[trigger] p1.bins[k] == p.bins[k]
            &&& c1.current matches Some(d) && d.bin == cur.bin && d.offset.bits == cur.offset.bits + 8
                * b.len()
            &&& c1.x == c.x && c1.ip == c.ip
        }),
{
    let (c1, p1) = written(c, p, b, b.len() as int);
    let cur = c.current->0;
    let i = cur.offset.bits as int / 8;
    let old_data = p.bins[cur.bin as int];
    let data = p1.bins[cur.bin as int];
    assert(data.subrange(i, i + b.len()) =~= b);
    assert(data.take(i) =~= old_data.take(i));
    assert(data.skip(i + b.len()) =~= old_data.skip(i + b.len()));
}

/// Where a match stands at a whole byte, the bytes ahead of it are those of its binary from there
/// on.
pub proof fn law_bytes_ahead(p: ProcV, ms: int, i: int, k: int)
    requires
        bs_match::match_ok(p, ms),
        p.matches[ms].src.offset + p.matches[ms].offset == 8 * i,
        0 <= k < bs_match::remaining(p, ms) / 8,
    ensures
        bytes_ahead(p, ms).len() == bs_match::remaining(p, ms) / 8,
        bytes_ahead(p, ms)[k] == p.bins[p.matches[ms].src.bin as int][i + k],
{
    let m = p.matches[ms];
    assert(runtime::valid(p, m.src));
    bits::law_aligned_window_is_byte(p.bins[m.src.bin as int], i + k);
}

/// Only characters are read: bytes that are too few, that are longer than they need be, or that
/// stand for a surrogate are none.
pub proof fn law_only_characters_read(b: Seq<u8>)
    ensures
        decoded(b) matches Some((len, cp)) ==> 1 <= len <= 4 && len <= b.len() && !(0xd800 <= cp
            <= 0xdfff) && (len == 1 ==> cp < 0x80) && (len == 2 ==> 0x80 <= cp) && (len == 3
            ==> 0x800 <= cp) && (len == 4 ==> 0x10000 <= cp),
        b.len() > 0 && 0x80 <= b[0] < 0xc0 ==> decoded(b) is None,
        b.len() > 0 && b[0] >= 0xf8 ==> decoded(b) is None,
{
    if b.len() > 0 {
        if let Some((len, partial)) = first_byte(b[0]) {
            if b.len() >= len {
                let more = b.subrange(1, len as int);
                reveal_with_fuel(joined, 2);
            }
        }
    }
}

} // verus!
