//! Terms as they are written in files: the external term format.
use vstd::prelude::*;
use vstd::arithmetic::power;
use vstd::utf8;
use crate::beam::loader::beam_file;
use crate::beam::runtime;
use crate::fail::{ReadError, RtErr, RtErrV};
use crate::rt_util::bin_reader;
use crate::rt_util::bin_reader::BinaryReader;
use crate::term;
use crate::term::{BinRef, Term, TermV};

verus! {

/// The byte in front of a term that stands alone.
pub const VERSION: u8 = 131;

/// The pieces of storage that the binaries among some terms stand in.
pub type Bins = Seq<Seq<u8>>;

/// What reading a term gives: the term, the place behind it, and the storage of the binaries that
/// were read so far.
pub type Read = Result<(TermV, int, Bins), RtErrV>;

/// What reading several terms gives.
pub type ReadMany = Result<(Seq<TermV>, int, Bins), RtErrV>;

/// The data ended too early.
pub open spec fn eof<T>() -> Result<T, RtErrV> {
    Err(RtErrV::ReadError(ReadError::PrematureEOF))
}

/// The data holds something that cannot be read.
pub open spec fn unreadable() -> RtErrV {
    RtErrV::CodeLoadingFailed("ext_term_format: term cannot be read"@)
}

fn not_readable() -> (r: RtErr)
    ensures
        r@ == unreadable(),
{
    RtErr::CodeLoadingFailed("ext_term_format: term cannot be read".to_owned())
}

/// How many bytes are left from a place on.
pub open spec fn left(d: Seq<u8>, at: int) -> nat {
    if at < d.len() {
        (d.len() - at) as nat
    } else {
        0
    }
}

/// A number of four bytes as a number with a sign.
pub open spec fn signed(n: u32) -> i64 {
    if n >= 0x8000_0000 {
        (n - 0x1_0000_0000) as i64
    } else {
        n as i64
    }
}

/// Bytes as a number, the lowest first.
pub open spec fn little(b: Seq<u8>) -> nat
    decreases b.len(),
{
    if b.len() == 0 {
        0
    } else {
        b[0] as nat + 256 * little(b.skip(1))
    }
}

/// A size with a sign as a small integer, where it is one.
pub open spec fn small_of(sign: u8, size: nat) -> Option<i64> {
    if sign == 0 {
        if size <= 0x7fff_ffff_ffff_ffff {
            Some(size as i64)
        } else {
            None
        }
    } else if size <= 0x8000_0000_0000_0000 {
        Some((-(size as int)) as i64)
    } else {
        None
    }
}

/// A list of terms with the given tail.
pub open spec fn list_of(items: Seq<TermV>, tail: TermV) -> TermV
    decreases items.len(),
{
    if items.len() == 0 {
        tail
    } else {
        list_of(items.drop_last(), TermV::Cons(Box::new(items.last()), Box::new(tail)))
    }
}

/// Bytes as small integers.
pub open spec fn smalls(b: Seq<u8>) -> Seq<TermV> {
    b.map_values(|x: u8| TermV::Small(x as i64))
}

/// Terms taken two by two, as keys and values.
pub open spec fn pairs_of(t: Seq<TermV>) -> Seq<(TermV, TermV)> {
    Seq::new(t.len() / 2, |i: int| (t[2 * i], t[2 * i + 1]))
}

/// An atom of so many bytes.
pub open spec fn atom_at(d: Seq<u8>, at: int, n: int, wide: bool, bins: Bins) -> Read {
    if !bin_reader::within(d, at, n) {
        eof()
    } else {
        let b = d.subrange(at, at + n);
        if !wide {
            Ok((TermV::Atom(bin_reader::latin1(b)), at + n, bins))
        } else if utf8::valid_utf8(b) {
            Ok((TermV::Atom(utf8::decode_utf8(b)), at + n, bins))
        } else {
            Err(RtErrV::ReadError(ReadError::BadUtf8))
        }
    }
}

/// A binary: its bytes are kept behind those that were read before.
pub open spec fn binary_at(d: Seq<u8>, at: int, bins: Bins) -> Read {
    if !bin_reader::within(d, at, 4) || !bin_reader::within(
        d,
        at + 4,
        bin_reader::u32_at(d, at) as int,
    ) {
        eof()
    } else {
        let n = bin_reader::u32_at(d, at) as int;
        if n > usize::MAX / 16 || bins.len() >= usize::MAX {
            Err(unreadable())
        } else {
            Ok(
                (
                    TermV::Binary(
                        BinRef { bin: bins.len() as usize, offset: 0, bits: (8 * n) as usize },
                    ),
                    at + 4 + n,
                    bins.push(d.subrange(at + 4, at + 4 + n)),
                ),
            )
        }
    }
}

/// An integer of many bytes.
pub open spec fn big_at(d: Seq<u8>, at: int, bins: Bins) -> Read {
    if !bin_reader::within(d, at, 2) || !bin_reader::within(d, at + 2, d[at] as int) {
        eof()
    } else {
        let n = d[at] as int;
        match small_of(d[at + 1], little(d.subrange(at + 2, at + 2 + n))) {
            Some(v) => Ok((TermV::Small(v), at + 2 + n, bins)),
            None => Err(unreadable()),
        }
    }
}

/// A term that holds no other term, behind its tag.
pub open spec fn leaf_at(tag: u8, d: Seq<u8>, at: int, bins: Bins) -> Read {
    if tag == 97 {
        if bin_reader::within(d, at, 1) {
            Ok((TermV::Small(d[at] as i64), at + 1, bins))
        } else {
            eof()
        }
    } else if tag == 98 {
        if bin_reader::within(d, at, 4) {
            Ok((TermV::Small(signed(bin_reader::u32_at(d, at))), at + 4, bins))
        } else {
            eof()
        }
    } else if tag == 100 || tag == 118 {
        if bin_reader::within(d, at, 2) {
            atom_at(d, at + 2, bin_reader::u16_at(d, at) as int, tag == 118, bins)
        } else {
            eof()
        }
    } else if tag == 115 || tag == 119 {
        if bin_reader::within(d, at, 1) {
            atom_at(d, at + 1, d[at] as int, tag == 119, bins)
        } else {
            eof()
        }
    } else if tag == 106 {
        Ok((TermV::Nil, at, bins))
    } else if tag == 107 {
        if !bin_reader::within(d, at, 2) || !bin_reader::within(
            d,
            at + 2,
            bin_reader::u16_at(d, at) as int,
        ) {
            eof()
        } else {
            let n = bin_reader::u16_at(d, at) as int;
            Ok((list_of(smalls(d.subrange(at + 2, at + 2 + n)), TermV::Nil), at + 2 + n, bins))
        }
    } else if tag == 109 {
        binary_at(d, at, bins)
    } else if tag == 110 {
        big_at(d, at, bins)
    } else {
        Err(unreadable())
    }
}

/// How many terms a term holds, and where they begin: for a tuple, a list or a map.
pub open spec fn held(tag: u8, d: Seq<u8>, at: int) -> Option<(nat, int)> {
    if tag == 104 {
        if bin_reader::within(d, at, 1) {
            Some((d[at] as nat, at + 1))
        } else {
            None
        }
    } else if bin_reader::within(d, at, 4) {
        let n = bin_reader::u32_at(d, at) as nat;
        Some(
            (
                if tag == 116 {
                    2 * n
                } else if tag == 108 {
                    n + 1
                } else {
                    n
                },
                at + 4,
            ),
        )
    } else {
        None
    }
}

/// The term that holds other terms. The last one in a list is its tail.
pub open spec fn holding(tag: u8, t: Seq<TermV>) -> TermV {
    if tag == 108 {
        list_of(t.drop_last(), t.last())
    } else if tag == 116 {
        TermV::Assoc(pairs_of(t))
    } else {
        TermV::Tuple(t)
    }
}

/// Whether a tag begins a tuple, a list or a map.
pub open spec fn holds_terms(tag: u8) -> bool {
    tag == 104 || tag == 105 || tag == 108 || tag == 116
}

/// A term, from its tag on.
pub open spec fn term_at(d: Seq<u8>, at: int, bins: Bins) -> Read
    decreases left(d, at), 0nat,
{
    if !bin_reader::within(d, at, 1) {
        eof()
    } else if holds_terms(d[at]) {
        match held(d[at], d, at + 1) {
            None => eof(),
            Some((n, from)) => if from <= at {
                eof()
            } else {
                match terms_at(d, from, bins, n) {
                    Err(e) => Err(e),
                    Ok((t, end, b)) => Ok((holding(d[at], t), end, b)),
                }
            },
        }
    } else {
        leaf_at(d[at], d, at + 1, bins)
    }
}

/// So many terms, one behind the other. Each takes at least one byte.
pub open spec fn terms_at(d: Seq<u8>, at: int, bins: Bins, n: nat) -> ReadMany
    decreases left(d, at), n + 1,
{
    if n == 0 {
        Ok((Seq::empty(), at, bins))
    } else if !bin_reader::within(d, at, 1) {
        eof()
    } else {
        match term_at(d, at, bins) {
            Err(e) => Err(e),
            Ok((t, next, b1)) => if next <= at {
                eof()
            } else {
                match terms_at(d, next, b1, (n - 1) as nat) {
                    Err(e) => Err(e),
                    Ok((more, end, b2)) => Ok((seq![t] + more, end, b2)),
                }
            },
        }
    }
}

/// A term that stands alone, from its version on.
pub open spec fn decoded(d: Seq<u8>, at: int, bins: Bins) -> Read {
    if !bin_reader::within(d, at, 1) {
        eof()
    } else if d[at] != VERSION {
        Err(unreadable())
    } else {
        term_at(d, at + 1, bins)
    }
}

/// What reading a term gave.
pub open spec fn gave(res: Result<Term, RtErr>, end: int, bins: Bins) -> Read {
    match res {
        Ok(t) => Ok((t@, end, bins)),
        Err(e) => Err(e@),
    }
}

proof fn lemma_little_grows(b: Seq<u8>, i: int)
    requires
        0 < i <= b.len(),
    ensures
        little(b) >= 256 * little(b.skip(i)),
    decreases i,
{
    if i > 1 {
        lemma_little_grows(b.skip(1), i - 1);
        assert(b.skip(1).skip(i - 1) =~= b.skip(i));
    }
}

/// The number that bytes are, the lowest first, where it fits 64 bits.
fn little_number(b: &Vec<u8>) -> (r: Option<u64>)
    ensures
        match r {
            Some(n) => n == little(b@),
            None => little(b@) > u64::MAX,
        },
{
    let mut acc: u64 = 0;
    let mut i: usize = b.len();
    assert(little(b@.skip(b@.len() as int)) == 0);
    while i > 0
        invariant
            i <= b@.len(),
            acc == little(b@.skip(i as int)),
        decreases i,
    {
        if acc > 0xff_ffff_ffff_ffff {
            proof {
                lemma_little_grows(b@, i as int);
            }
            return None;
        }
        i -= 1;
        proof {
            assert(b@.skip(i as int)[0] == b@[i as int]);
            assert(b@.skip(i as int).skip(1) =~= b@.skip(i + 1));
        }
        acc = acc * 256 + b[i] as u64;
    }
    assert(b@.skip(0) =~= b@);
    Some(acc)
}

fn small_in(sign: u8, b: &Vec<u8>) -> (r: Option<i64>)
    ensures
        r == small_of(sign, little(b@)),
{
    match little_number(b) {
        None => None,
        Some(n) => if sign == 0 {
            if n <= 0x7fff_ffff_ffff_ffff {
                Some(n as i64)
            } else {
                None
            }
        } else if n <= 0x8000_0000_0000_0000 {
            Some((-(n as i128)) as i64)
        } else {
            None
        },
    }
}

fn make_list(items: Vec<Term>, tail: Term) -> (r: Term)
    ensures
        r@ == list_of(term::terms_view(items@), tail@),
{
    let mut items: Vec<Term> = items;
    let mut tail: Term = tail;
    let ghost goal = list_of(term::terms_view(items@), tail@);
    while items.len() > 0
        invariant
            list_of(term::terms_view(items@), tail@) == goal,
        decreases items@.len(),
    {
        let ghost v = items@;
        match items.pop() {
            Some(last) => {
                proof {
                    assert(term::terms_view(v).drop_last() =~= term::terms_view(items@));
                    assert(term::terms_view(v).last() == last@);
                }
                tail = Term::Cons(Box::new(last), Box::new(tail));
            },
            None => {},
        }
    }
    tail
}

fn make_smalls(b: &Vec<u8>) -> (r: Vec<Term>)
    ensures
        term::terms_view(r@) == smalls(b@),
{
    let mut out: Vec<Term> = Vec::new();
    let mut i: usize = 0;
    while i < b.len()
        invariant
            i <= b@.len(),
            out@.len() == i,
            forall|j: int| 0 <= j < i ==> (#[trigger] out@[j])@ == TermV::Small(b@[j] as i64),
        decreases b@.len() - i,
    {
        out.push(Term::Small(b[i] as i64));
        i += 1;
    }
    assert(term::terms_view(out@) =~= smalls(b@));
    out
}

fn make_pairs(items: &Vec<Term>) -> (r: Vec<(Term, Term)>)
    ensures
        term::pairs_view(r@) == pairs_of(term::terms_view(items@)),
{
    let mut out: Vec<(Term, Term)> = Vec::new();
    let total: usize = items.len();
    let n: usize = total / 2;
    let mut i: usize = 0;
    while i < n
        invariant
            i <= n,
            n == total / 2,
            total == items@.len(),
            out@.len() == i,
            forall|j: int|
                0 <= j < i ==> (#[trigger] out@[j]).0@ == items@[2 * j]@ && out@[j].1@ == items@[2 * j
                    + 1]@,
        decreases n - i,
    {
        out.push((items[2 * i].copy(), items[2 * i + 1].copy()));
        i += 1;
    }
    assert(term::pairs_view(out@) =~= pairs_of(term::terms_view(items@)));
    out
}

fn read_atom(r: &mut BinaryReader, n: usize, wide: bool) -> (res: Result<Term, RtErr>)
    ensures
        final(r).data@ == old(r).data@,
        forall|bins: Bins|
            gave(res, final(r).pos as int, bins) == #[trigger] atom_at(
                old(r).data@,
                old(r).pos as int,
                n as int,
                wide,
                bins,
            ),
{
    let read: Result<String, ReadError> = if wide {
        r.read_str_utf8(n)
    } else {
        r.read_str_latin1(n)
    };
    match read {
        Ok(s) => Ok(Term::Atom(s)),
        Err(e) => Err(RtErr::ReadError(e)),
    }
}

fn read_binary(r: &mut BinaryReader, bins: &mut Vec<Vec<u8>>) -> (res: Result<Term, RtErr>)
    ensures
        final(r).data@ == old(r).data@,
        gave(res, final(r).pos as int, runtime::bins_view(final(bins)@)) == binary_at(
            old(r).data@,
            old(r).pos as int,
            runtime::bins_view(old(bins)@),
        ),
        old(bins)@.is_prefix_of(final(bins)@),
{
    let n: u32 = match r.read_u32be() {
        Ok(n) => n,
        Err(e) => {
            return Err(RtErr::ReadError(e));
        },
    };
    let b: Vec<u8> = match r.read_bytes(n as usize) {
        Ok(b) => b,
        Err(e) => {
            return Err(RtErr::ReadError(e));
        },
    };
    let at: usize = bins.len();
    if n as usize > usize::MAX / 16 || at == usize::MAX {
        return Err(not_readable());
    }
    let ghost v = b@;
    let ghost was = bins@;
    bins.push(b);
    assert(runtime::bins_view(bins@) =~= runtime::bins_view(was).push(v));
    Ok(Term::Binary(BinRef { bin: at, offset: 0, bits: 8 * n as usize }))
}

fn read_leaf(tag: u8, r: &mut BinaryReader, bins: &mut Vec<Vec<u8>>) -> (res: Result<Term, RtErr>)
    ensures
        final(r).data@ == old(r).data@,
        gave(res, final(r).pos as int, runtime::bins_view(final(bins)@)) == leaf_at(
            tag,
            old(r).data@,
            old(r).pos as int,
            runtime::bins_view(old(bins)@),
        ),
        old(bins)@.is_prefix_of(final(bins)@),
{
    if tag == 97 {
        match r.read_u8() {
            Ok(n) => Ok(Term::Small(n as i64)),
            Err(e) => Err(RtErr::ReadError(e)),
        }
    } else if tag == 98 {
        match r.read_u32be() {
            Ok(n) => if n >= 0x8000_0000 {
                Ok(Term::Small(n as i64 - 0x1_0000_0000))
            } else {
                Ok(Term::Small(n as i64))
            },
            Err(e) => Err(RtErr::ReadError(e)),
        }
    } else if tag == 100 || tag == 118 {
        match r.read_u16be() {
            Ok(n) => read_atom(r, n as usize, tag == 118),
            Err(e) => Err(RtErr::ReadError(e)),
        }
    } else if tag == 115 || tag == 119 {
        match r.read_u8() {
            Ok(n) => read_atom(r, n as usize, tag == 119),
            Err(e) => Err(RtErr::ReadError(e)),
        }
    } else if tag == 106 {
        Ok(Term::Nil)
    } else if tag == 107 {
        let n: u16 = match r.read_u16be() {
            Ok(n) => n,
            Err(e) => {
                return Err(RtErr::ReadError(e));
            },
        };
        match r.read_bytes(n as usize) {
            Ok(b) => Ok(make_list(make_smalls(&b), Term::Nil)),
            Err(e) => Err(RtErr::ReadError(e)),
        }
    } else if tag == 109 {
        read_binary(r, bins)
    } else if tag == 110 {
        let n: u8 = match r.read_u8() {
            Ok(n) => n,
            Err(e) => {
                return Err(RtErr::ReadError(e));
            },
        };
        let sign: u8 = match r.read_u8() {
            Ok(s) => s,
            Err(e) => {
                return Err(RtErr::ReadError(e));
            },
        };
        match r.read_bytes(n as usize) {
            Ok(b) => match small_in(sign, &b) {
                Some(v) => Ok(Term::Small(v)),
                None => Err(not_readable()),
            },
            Err(e) => Err(RtErr::ReadError(e)),
        }
    } else {
        Err(not_readable())
    }
}

fn read_held(tag: u8, r: &mut BinaryReader) -> (res: Option<u64>)
    ensures
        final(r).data@ == old(r).data@,
        match res {
            Some(n) => held(tag, old(r).data@, old(r).pos as int) == Some(
                (n as nat, final(r).pos as int),
            ),
            None => held(tag, old(r).data@, old(r).pos as int) is None,
        },
{
    if tag == 104 {
        match r.read_u8() {
            Ok(n) => Some(n as u64),
            Err(_) => None,
        }
    } else {
        match r.read_u32be() {
            Ok(n) => if tag == 116 {
                Some(2 * n as u64)
            } else if tag == 108 {
                Some(n as u64 + 1)
            } else {
                Some(n as u64)
            },
            Err(_) => None,
        }
    }
}

/// Reads a term, from its tag on. The bytes of binaries are kept in `bins`.
pub fn decode_naked(r: &mut BinaryReader, bins: &mut Vec<Vec<u8>>) -> (res: Result<Term, RtErr>)
    ensures
        final(r).data@ == old(r).data@,
        gave(res, final(r).pos as int, runtime::bins_view(final(bins)@)) == term_at(
            old(r).data@,
            old(r).pos as int,
            runtime::bins_view(old(bins)@),
        ),
        old(bins)@.is_prefix_of(final(bins)@),
    decreases left(old(r).data@, old(r).pos as int), 0nat,
{
    let tag: u8 = match r.read_u8() {
        Ok(t) => t,
        Err(e) => {
            return Err(RtErr::ReadError(e));
        },
    };
    if !(tag == 104 || tag == 105 || tag == 108 || tag == 116) {
        return read_leaf(tag, r, bins);
    }
    let n: u64 = match read_held(tag, r) {
        Some(n) => n,
        None => {
            return Err(RtErr::ReadError(ReadError::PrematureEOF));
        },
    };
    let items: Vec<Term> = match decode_many(r, bins, n) {
        Ok(v) => v,
        Err(e) => {
            return Err(e);
        },
    };
    if tag == 108 {
        let mut items: Vec<Term> = items;
        let ghost all = term::terms_view(items@);
        match items.pop() {
            Some(tail) => {
                assert(all.drop_last() =~= term::terms_view(items@));
                assert(all.last() == tail@);
                Ok(make_list(items, tail))
            },
            None => Err(RtErr::ReadError(ReadError::PrematureEOF)),
        }
    } else if tag == 116 {
        let pairs: Vec<(Term, Term)> = make_pairs(&items);
        let t: Term = Term::Assoc(pairs);
        assert(t@->Assoc_0 =~= pairs_of(term::terms_view(items@)));
        Ok(t)
    } else {
        let ghost all = term::terms_view(items@);
        let t: Term = Term::make_tuple(items);
        assert(t@->Tuple_0 =~= all);
        Ok(t)
    }
}

/// Reads so many terms.
fn decode_many(r: &mut BinaryReader, bins: &mut Vec<Vec<u8>>, n: u64) -> (res: Result<
    Vec<Term>,
    RtErr,
>)
    ensures
        final(r).data@ == old(r).data@,
        (match res {
            Ok(v) => Ok::<(Seq<TermV>, int, Bins), RtErrV>(
                (term::terms_view(v@), final(r).pos as int, runtime::bins_view(final(bins)@)),
            ),
            Err(e) => Err(e@),
        }) == terms_at(
            old(r).data@,
            old(r).pos as int,
            runtime::bins_view(old(bins)@),
            n as nat,
        ),
        res matches Ok(v) ==> v@.len() == n,
        old(bins)@.is_prefix_of(final(bins)@),
    decreases left(old(r).data@, old(r).pos as int), n + 1,
{
    let ghost d = r.data@;
    let ghost goal = terms_at(d, r.pos as int, runtime::bins_view(bins@), n as nat);
    let mut out: Vec<Term> = Vec::new();
    let mut i: u64 = 0;
    proof {
        assert(term::terms_view(out@) =~= Seq::<TermV>::empty());
        if goal is Ok {
            assert(term::terms_view(out@) + (goal->Ok_0).0 =~= (goal->Ok_0).0);
        }
    }
    while i < n
        invariant
            i <= n,
            d == old(r).data@,
            r.data@ == d,
            r.pos >= old(r).pos,
            out@.len() == i,
            goal == terms_at(
                d,
                old(r).pos as int,
                runtime::bins_view(old(bins)@),
                n as nat,
            ),
            old(bins)@.is_prefix_of(bins@),
            match terms_at(d, r.pos as int, runtime::bins_view(bins@), (n - i) as nat) {
                Ok((more, end, b)) => goal == Ok::<(Seq<TermV>, int, Bins), RtErrV>(
                    (term::terms_view(out@) + more, end, b),
                ),
                Err(e) => goal == Err::<(Seq<TermV>, int, Bins), RtErrV>(e),
            },
        decreases n - i,
    {
        let ghost at = r.pos as int;
        let ghost had = bins@;
        let ghost sofar = out@;
        if !r.has_more(1) {
            return Err(RtErr::ReadError(ReadError::PrematureEOF));
        }
        let t: Term = match decode_naked(r, bins) {
            Ok(t) => t,
            Err(e) => {
                return Err(e);
            },
        };
        let ghost tv = t@;
        proof {
            lemma_goes_on(d, at, runtime::bins_view(had));
        }
        out.push(t);
        proof {
            assert(term::terms_view(out@) =~= term::terms_view(sofar).push(tv));
            let rest = terms_at(d, r.pos as int, runtime::bins_view(bins@), (n - i - 1) as nat);
            if rest is Ok {
                let more = (rest->Ok_0).0;
                assert(term::terms_view(sofar) + (seq![tv] + more) =~= term::terms_view(sofar).push(
                    tv,
                ) + more);
            }
        }
        i += 1;
    }
    proof {
        assert(term::terms_view(out@) + Seq::<TermV>::empty() =~= term::terms_view(out@));
    }
    Ok(out)
}

/// Reads a term that stands alone, from its version on. The bytes of binaries are kept in `bins`.
pub fn decode(r: &mut BinaryReader, bins: &mut Vec<Vec<u8>>) -> (res: Result<Term, RtErr>)
    ensures
        final(r).data@ == old(r).data@,
        gave(res, final(r).pos as int, runtime::bins_view(final(bins)@)) == decoded(
            old(r).data@,
            old(r).pos as int,
            runtime::bins_view(old(bins)@),
        ),
        old(bins)@.is_prefix_of(final(bins)@),
{
    match r.read_u8() {
        Ok(v) => if v == VERSION {
            decode_naked(r, bins)
        } else {
            Err(not_readable())
        },
        Err(e) => Err(RtErr::ReadError(e)),
    }
}

/// A term takes at least one byte.
proof fn lemma_goes_on(d: Seq<u8>, at: int, bins: Bins)
    ensures
        term_at(d, at, bins) matches Ok((t, end, b)) ==> at < end <= d.len(),
    decreases left(d, at), 0nat,
{
    if bin_reader::within(d, at, 1) && holds_terms(d[at]) {
        if let Some((n, from)) = held(d[at], d, at + 1) {
            lemma_go_on(d, from, bins, n);
        }
    }
}

proof fn lemma_go_on(d: Seq<u8>, at: int, bins: Bins, n: nat)
    requires
        at <= d.len(),
    ensures
        terms_at(d, at, bins, n) matches Ok((t, end, b)) ==> at <= end <= d.len() && t.len() == n,
    decreases left(d, at), n + 1,
{
    if n > 0 && bin_reader::within(d, at, 1) {
        lemma_goes_on(d, at, bins);
        if let Ok((t, next, b1)) = term_at(d, at, bins) {
            lemma_go_on(d, next, b1, (n - 1) as nat);
        }
    }
}

/// Reading never goes past the end of the data, and never stands still.
pub proof fn law_reading_goes_on(d: Seq<u8>, at: int, bins: Bins)
    ensures
        term_at(d, at, bins) matches Ok((t, end, b)) ==> at < end <= d.len(),
        decoded(d, at, bins) matches Ok((t, end, b)) ==> at + 1 < end <= d.len(),
{
    lemma_goes_on(d, at, bins);
    lemma_goes_on(d, at + 1, bins);
}

// ---------------------------------------------------------------------------
// What was written is what is read
// ---------------------------------------------------------------------------
/// A term in the external format, behind its version: small integers, atoms, lists, tuples and maps.
pub open spec fn term_bytes(t: TermV) -> Seq<u8>
    decreases t,
{
    match t {
        TermV::Small(v) => seq![98u8] + beam_file::be32((v as int % 0x1_0000_0000) as nat),
        TermV::Atom(a) => seq![119u8, utf8::encode_utf8(a).len() as u8] + utf8::encode_utf8(a),
        TermV::Nil => seq![106u8],
        TermV::Cons(head, rest) => seq![108u8] + beam_file::be32(1) + term_bytes(*head) + term_bytes(
            *rest,
        ),
        TermV::Tuple(v) => seq![105u8] + beam_file::be32(v.len()) + terms_bytes(v),
        TermV::Assoc(m) => seq![116u8] + beam_file::be32(m.len()) + pairs_bytes(m),
        _ => Seq::empty(),
    }
}

/// Terms one behind the other.
pub open spec fn terms_bytes(v: Seq<TermV>) -> Seq<u8>
    decreases v,
{
    if v.len() == 0 {
        Seq::empty()
    } else {
        term_bytes(v[0]) + terms_bytes(v.subrange(1, v.len() as int))
    }
}

/// Pairs of terms one behind the other.
pub open spec fn pairs_bytes(m: Seq<(TermV, TermV)>) -> Seq<u8>
    decreases m,
{
    if m.len() == 0 {
        Seq::empty()
    } else {
        proof {
            assert(decreases_to!(m => m[0]));
            assert(decreases_to!(m[0] => m[0].0));
            assert(decreases_to!(m[0] => m[0].1));
        }
        term_bytes(m[0].0) + term_bytes(m[0].1) + pairs_bytes(m.subrange(1, m.len() as int))
    }
}

/// The term can be written so.
pub open spec fn writable(t: TermV) -> bool
    decreases t,
{
    match t {
        TermV::Small(v) => -0x8000_0000 <= v < 0x8000_0000,
        TermV::Atom(a) => utf8::encode_utf8(a).len() <= 255,
        TermV::Nil => true,
        TermV::Cons(head, rest) => writable(*head) && writable(*rest),
        TermV::Tuple(v) => v.len() <= 0xffff_ffff && forall|i: int|
            0 <= i < v.len() ==> writable(#[trigger] v[i]),
        TermV::Assoc(m) => m.len() <= 0xffff_ffff && forall|i: int|
            0 <= i < m.len() ==> writable((#[trigger] m[i]).0) && writable(m[i].1),
        _ => false,
    }
}

proof fn lemma_split(d: Seq<u8>, at: int, a: Seq<u8>, b: Seq<u8>)
    requires
        beam_file::holds(d, at, a + b),
    ensures
        beam_file::holds(d, at, a),
        beam_file::holds(d, at + a.len(), b),
{
    let s = a + b;
    assert(d.subrange(at, at + a.len()) =~= d.subrange(at, at + s.len()).subrange(
        0,
        a.len() as int,
    ));
    assert(s.subrange(0, a.len() as int) =~= a);
    assert(d.subrange(at + a.len(), at + s.len()) =~= d.subrange(at, at + s.len()).subrange(
        a.len() as int,
        s.len() as int,
    ));
    assert(s.subrange(a.len() as int, s.len() as int) =~= b);
}

proof fn lemma_tag(d: Seq<u8>, at: int, tag: u8, more: Seq<u8>)
    requires
        beam_file::holds(d, at, seq![tag] + more),
    ensures
        bin_reader::within(d, at, 1),
        d[at] == tag,
        beam_file::holds(d, at + 1, more),
{
    lemma_split(d, at, seq![tag], more);
    assert(d.subrange(at, at + 1)[0] == tag);
}

/// A term that was written is read as that term, whatever stands before and behind it, and reading
/// ends right behind it.
pub proof fn law_term_comes_back(d: Seq<u8>, at: int, bins: Bins, t: TermV)
    requires
        writable(t),
        beam_file::holds(d, at, term_bytes(t)),
    ensures
        term_at(d, at, bins) == Ok::<(TermV, int, Bins), RtErrV>(
            (t, at + term_bytes(t).len(), bins),
        ),
        term_bytes(t).len() > 0,
    decreases t, 2nat, 0nat,
{
    match t {
        TermV::Cons(_, _) => {
            lemma_cons(d, at, bins, t);
        },
        TermV::Tuple(_) => {
            lemma_tuple(d, at, bins, t);
        },
        TermV::Assoc(_) => {
            lemma_assoc(d, at, bins, t);
        },
        _ => {
            lemma_leaf(d, at, bins, t);
        },
    }
}

proof fn lemma_leaf(d: Seq<u8>, at: int, bins: Bins, t: TermV)
    requires
        writable(t),
        beam_file::holds(d, at, term_bytes(t)),
        t is Small || t is Atom || t is Nil,
    ensures
        term_at(d, at, bins) == Ok::<(TermV, int, Bins), RtErrV>(
            (t, at + term_bytes(t).len(), bins),
        ),
        term_bytes(t).len() > 0,
{
    match t {
        TermV::Small(v) => {
            let n = (v as int % 0x1_0000_0000) as nat;
            lemma_tag(d, at, 98, beam_file::be32(n));
            beam_file::law_number_comes_back(d, at + 1, n);
        },
        TermV::Atom(a) => {
            let text = utf8::encode_utf8(a);
            let len = text.len() as u8;
            assert(term_bytes(t) =~= seq![119u8] + (seq![len] + text));
            lemma_tag(d, at, 119, seq![len] + text);
            lemma_tag(d, at + 1, len, text);
            utf8::encode_utf8_valid_utf8(a);
            utf8::encode_utf8_decode_utf8(a);
        },
        _ => {
            assert(seq![106u8] =~= seq![106u8] + Seq::<u8>::empty());
            lemma_tag(d, at, 106, Seq::<u8>::empty());
        },
    }
}

proof fn lemma_cons(d: Seq<u8>, at: int, bins: Bins, t: TermV)
    requires
        writable(t),
        beam_file::holds(d, at, term_bytes(t)),
        t is Cons,
    ensures
        term_at(d, at, bins) == Ok::<(TermV, int, Bins), RtErrV>(
            (t, at + term_bytes(t).len(), bins),
        ),
        term_bytes(t).len() > 0,
    decreases t, 1nat, 0nat,
{
    let head = t->Cons_0;
    let rest = t->Cons_1;
    let h = term_bytes(*head);
    let r = term_bytes(*rest);
    let one = beam_file::be32(1);
    assert(term_bytes(t) =~= seq![108u8] + (one + (h + r)));
    lemma_tag(d, at, 108, one + (h + r));
    lemma_split(d, at + 1, one, h + r);
    beam_file::law_number_comes_back(d, at + 1, 1);
    lemma_split(d, at + 5, h, r);
    law_term_comes_back(d, at + 5, bins, *head);
    law_term_comes_back(d, at + 5 + h.len(), bins, *rest);
    lemma_two(d, at + 5, bins, *head, *rest);
    let both = seq![*head, *rest];
    assert(both.drop_last() =~= seq![*head]);
    assert(seq![*head].drop_last() =~= Seq::<TermV>::empty());
    reveal_with_fuel(list_of, 2);
    assert(holding(108, both) == t);
    assert(held(108, d, at + 1) == Some((2nat, at + 5)));
}

proof fn lemma_tuple(d: Seq<u8>, at: int, bins: Bins, t: TermV)
    requires
        writable(t),
        beam_file::holds(d, at, term_bytes(t)),
        t is Tuple,
    ensures
        term_at(d, at, bins) == Ok::<(TermV, int, Bins), RtErrV>(
            (t, at + term_bytes(t).len(), bins),
        ),
        term_bytes(t).len() > 0,
    decreases t, 1nat, 0nat,
{
    let v = t->Tuple_0;
    let n = beam_file::be32(v.len());
    assert(term_bytes(t) =~= seq![105u8] + (n + terms_bytes(v)));
    lemma_tag(d, at, 105, n + terms_bytes(v));
    lemma_split(d, at + 1, n, terms_bytes(v));
    beam_file::law_number_comes_back(d, at + 1, v.len());
    assert forall|i: int| 0 <= i < v.len() implies decreases_to!(t => v[i]) by {
        assert(decreases_to!(t => v));
        assert(decreases_to!(v => v[i]));
    }
    lemma_terms(d, at + 5, bins, t, v);
    assert(held(105, d, at + 1) == Some((v.len(), at + 5)));
}

proof fn lemma_assoc(d: Seq<u8>, at: int, bins: Bins, t: TermV)
    requires
        writable(t),
        beam_file::holds(d, at, term_bytes(t)),
        t is Assoc,
    ensures
        term_at(d, at, bins) == Ok::<(TermV, int, Bins), RtErrV>(
            (t, at + term_bytes(t).len(), bins),
        ),
        term_bytes(t).len() > 0,
    decreases t, 1nat, 0nat,
{
    let m = t->Assoc_0;
    let n = beam_file::be32(m.len());
    assert(term_bytes(t) =~= seq![116u8] + (n + pairs_bytes(m)));
    lemma_tag(d, at, 116, n + pairs_bytes(m));
    lemma_split(d, at + 1, n, pairs_bytes(m));
    beam_file::law_number_comes_back(d, at + 1, m.len());
    assert forall|i: int| 0 <= i < m.len() implies decreases_to!(t => m[i].0) && decreases_to!(
        t => m[i].1
    ) by {
        assert(decreases_to!(t => m));
        assert(decreases_to!(m => m[i]));
        assert(decreases_to!(m[i] => m[i].0));
        assert(decreases_to!(m[i] => m[i].1));
    }
    lemma_pairs(d, at + 5, bins, t, m);
    assert(pairs_of(flat_pairs(m)) =~= m);
    assert(held(116, d, at + 1) == Some((2 * m.len(), at + 5)));
}

proof fn lemma_two(d: Seq<u8>, at: int, bins: Bins, a: TermV, b: TermV)
    requires
        at >= 0,
        term_at(d, at, bins) == Ok::<(TermV, int, Bins), RtErrV>(
            (a, at + term_bytes(a).len(), bins),
        ),
        term_bytes(a).len() > 0,
        term_bytes(b).len() > 0,
        term_at(d, at + term_bytes(a).len(), bins) == Ok::<(TermV, int, Bins), RtErrV>(
            (b, at + term_bytes(a).len() + term_bytes(b).len(), bins),
        ),
        at + term_bytes(a).len() + term_bytes(b).len() <= d.len(),
    ensures
        terms_at(d, at, bins, 2) == Ok::<(Seq<TermV>, int, Bins), RtErrV>(
            (seq![a, b], at + term_bytes(a).len() + term_bytes(b).len(), bins),
        ),
{
    reveal_with_fuel(terms_at, 3);
    assert(seq![a] + (seq![b] + Seq::<TermV>::empty()) =~= seq![a, b]);
}

proof fn lemma_terms(d: Seq<u8>, at: int, bins: Bins, t: TermV, v: Seq<TermV>)
    requires
        forall|i: int| 0 <= i < v.len() ==> writable(#[trigger] v[i]),
        forall|i: int| 0 <= i < v.len() ==> decreases_to!(t => #[trigger] v[i]),
        beam_file::holds(d, at, terms_bytes(v)),
    ensures
        terms_at(d, at, bins, v.len()) == Ok::<(Seq<TermV>, int, Bins), RtErrV>(
            (v, at + terms_bytes(v).len(), bins),
        ),
    decreases t, 0nat, v.len(),
{
    if v.len() == 0 {
        assert(v =~= Seq::<TermV>::empty());
    } else {
        let more = v.subrange(1, v.len() as int);
        let first = term_bytes(v[0]);
        lemma_split(d, at, first, terms_bytes(more));
        law_term_comes_back(d, at, bins, v[0]);
        assert forall|i: int| 0 <= i < more.len() implies writable(#[trigger] more[i])
            && decreases_to!(t => more[i]) by {
            assert(more[i] == v[i + 1]);
        }
        lemma_terms(d, at + first.len(), bins, t, more);
        assert(seq![v[0]] + more =~= v);
    }
}

/// Keys and values of pairs, one behind the other.
pub open spec fn flat_pairs(m: Seq<(TermV, TermV)>) -> Seq<TermV> {
    Seq::new(
        2 * m.len(),
        |i: int|
            if i % 2 == 0 {
                m[i / 2].0
            } else {
                m[i / 2].1
            },
    )
}

proof fn lemma_pairs(d: Seq<u8>, at: int, bins: Bins, t: TermV, m: Seq<(TermV, TermV)>)
    requires
        forall|i: int| 0 <= i < m.len() ==> writable((#[trigger] m[i]).0) && writable(m[i].1),
        forall|i: int|
            0 <= i < m.len() ==> decreases_to!(t => (#[trigger] m[i]).0) && decreases_to!(
                t => m[i].1
            ),
        beam_file::holds(d, at, pairs_bytes(m)),
    ensures
        terms_at(d, at, bins, 2 * m.len()) == Ok::<(Seq<TermV>, int, Bins), RtErrV>(
            (flat_pairs(m), at + pairs_bytes(m).len(), bins),
        ),
    decreases t, 0nat, m.len(),
{
    if m.len() == 0 {
        assert(flat_pairs(m) =~= Seq::<TermV>::empty());
    } else {
        let more = m.subrange(1, m.len() as int);
        let (a, b) = (m[0].0, m[0].1);
        let first = term_bytes(a) + term_bytes(b);
        lemma_split(d, at, first, pairs_bytes(more));
        lemma_split(d, at, term_bytes(a), term_bytes(b));
        law_term_comes_back(d, at, bins, a);
        law_term_comes_back(d, at + term_bytes(a).len(), bins, b);
        assert forall|i: int| 0 <= i < more.len() implies writable((#[trigger] more[i]).0) && writable(
            more[i].1,
        ) && decreases_to!(t => more[i].0) && decreases_to!(t => more[i].1) by {
            assert(more[i] == m[i + 1]);
        }
        lemma_pairs(d, at + first.len(), bins, t, more);
        let n = 2 * m.len();
        let p1 = at + term_bytes(a).len();
        assert(terms_at(d, p1, bins, (n - 1) as nat) == Ok::<(Seq<TermV>, int, Bins), RtErrV>(
            (seq![b] + flat_pairs(more), at + pairs_bytes(m).len(), bins),
        ));
        assert(seq![a] + (seq![b] + flat_pairs(more)) =~= flat_pairs(m));
    }
}

/// A list has its items in the order in which they were read, and ends with its tail.
pub proof fn law_list_in_order(items: Seq<TermV>, tail: TermV)
    requires
        items.len() > 0,
    ensures
        list_of(items, tail) == TermV::Cons(
            Box::new(items[0]),
            Box::new(list_of(items.drop_first(), tail)),
        ),
        list_of(Seq::empty(), tail) == tail,
    decreases items.len(),
{
    let front = items.drop_last();
    let next = TermV::Cons(Box::new(items.last()), Box::new(tail));
    reveal_with_fuel(list_of, 3);
    if items.len() > 1 {
        law_list_in_order(front, next);
        assert(items.drop_first().drop_last() =~= front.drop_first());
        assert(items.drop_first().last() == items.last());
    } else {
        assert(front =~= Seq::<TermV>::empty());
        assert(items.drop_first() =~= Seq::<TermV>::empty());
    }
}

/// A text of bytes is read as the list of its bytes, in their order.
pub proof fn law_string_is_list_of_bytes(d: Seq<u8>, at: int, bins: Bins, b: Seq<u8>)
    requires
        b.len() <= 0xffff,
        beam_file::holds(
            d,
            at,
            seq![107u8] + seq![(b.len() / 256) as u8, (b.len() % 256) as u8] + b,
        ),
    ensures
        term_at(d, at, bins) == Ok::<(TermV, int, Bins), RtErrV>(
            (
                list_of(b.map_values(|x: u8| TermV::Small(x as i64)), TermV::Nil),
                at + 3 + b.len(),
                bins,
            ),
        ),
{
    let n = seq![(b.len() / 256) as u8, (b.len() % 256) as u8];
    assert(seq![107u8] + n + b =~= seq![107u8] + (n + b));
    lemma_tag(d, at, 107, n + b);
    lemma_split(d, at + 1, n, b);
    assert(d.subrange(at + 1, at + 3)[0] == n[0]);
    assert(d.subrange(at + 1, at + 3)[1] == n[1]);
    assert(bin_reader::u16_at(d, at + 1) == b.len());
}

/// A binary is read as the bytes it was written with, in storage of its own.
pub proof fn law_binary_comes_back(d: Seq<u8>, at: int, bins: Bins, b: Seq<u8>)
    requires
        b.len() <= 0xffff_ffff,
        b.len() <= usize::MAX / 16,
        bins.len() < usize::MAX,
        beam_file::holds(d, at, seq![109u8] + beam_file::be32(b.len()) + b),
    ensures
        term_at(d, at, bins) matches Ok((TermV::Binary(r), end, out)) && end == at + 5 + b.len() && out
            == bins.push(b) && r.bin == bins.len() && r.offset == 0 && r.bits == 8 * b.len(),
{
    let n = beam_file::be32(b.len());
    assert(seq![109u8] + n + b =~= seq![109u8] + (n + b));
    lemma_tag(d, at, 109, n + b);
    lemma_split(d, at + 1, n, b);
    beam_file::law_number_comes_back(d, at + 1, b.len());
}

/// Small integers of one byte, and tuples whose size takes one byte, are read as well as the long
/// forms.
pub proof fn law_short_forms_read(d: Seq<u8>, at: int, bins: Bins)
    requires
        0 <= at,
        at + 2 <= d.len(),
    ensures
        d[at] == 97 ==> term_at(d, at, bins) == Ok::<(TermV, int, Bins), RtErrV>(
            (TermV::Small(d[at + 1] as i64), at + 2, bins),
        ),
        d[at] == 104 ==> (terms_at(d, at + 2, bins, d[at + 1] as nat) matches Ok((t, end, b))
            ==> term_at(d, at, bins) == Ok::<(TermV, int, Bins), RtErrV>((TermV::Tuple(t), end, b))),
        d[at] == 104 ==> (terms_at(d, at + 2, bins, d[at + 1] as nat) is Err ==> term_at(
            d,
            at,
            bins,
        ) is Err),
{
}

/// In a number whose lowest byte comes first, each byte counts 256 times what the one before it does.
pub proof fn law_lowest_byte_first(b: Seq<u8>, x: u8)
    ensures
        little(Seq::empty()) == 0,
        little(b.push(x)) == little(b) + x * power::pow(256, b.len()),
    decreases b.len(),
{
    reveal(power::pow);
    if b.len() == 0 {
        assert(b.push(x).skip(1) =~= Seq::<u8>::empty());
        assert(little(b.push(x).skip(1)) == 0);
        assert(power::pow(256, 0) == 1);
    } else {
        let t = b.skip(1);
        law_lowest_byte_first(t, x);
        assert(b.push(x).skip(1) =~= t.push(x));
        assert(power::pow(256, b.len()) == 256 * power::pow(256, (b.len() - 1) as nat));
        let p = power::pow(256, t.len());
        assert(256 * (x * p) == x * (256 * p)) by (nonlinear_arith);
    }
}

/// An integer of many bytes is its size, with its sign, as long as it is small enough.
pub proof fn law_long_integer_read(d: Seq<u8>, at: int, bins: Bins, b: Seq<u8>)
    requires
        0 <= at,
        at + 3 + b.len() <= d.len(),
        d[at] == 110,
        d[at + 1] == b.len(),
        d.subrange(at + 3, at + 3 + b.len()) == b,
        little(b) <= 0x7fff_ffff_ffff_ffff,
    ensures
        term_at(d, at, bins) matches Ok((t, end, more)) && end == at + 3 + b.len() && more == bins && (
        t matches TermV::Small(v) && v as int == if d[at + 2] == 0 {
            little(b) as int
        } else {
            -(little(b) as int)
        }),
{
}

/// An atom is read in all its forms: the old ones hold one character in each byte, the others UTF-8;
/// its length takes one byte or two.
pub proof fn law_atoms_read(d: Seq<u8>, at: int, bins: Bins, b: Seq<u8>, k: int)
    requires
        0 <= at,
        0 <= k < b.len(),
        at + 3 <= d.len(),
    ensures
        d[at] == 115 && d[at + 1] == b.len() && at + 2 + b.len() <= d.len() && d.subrange(
            at + 2,
            at + 2 + b.len(),
        ) == b ==> (term_at(d, at, bins) matches Ok((TermV::Atom(a), end, more)) && end == at + 2
            + b.len() && a.len() == b.len() && a[k] == b[k] as char),
        d[at] == 100 && d[at + 1] * 256 + d[at + 2] == b.len() && at + 3 + b.len() <= d.len()
            && d.subrange(at + 3, at + 3 + b.len()) == b ==> (term_at(d, at, bins) matches Ok(
            (TermV::Atom(a), end, more),
        ) && end == at + 3 + b.len() && a.len() == b.len() && a[k] == b[k] as char),
        d[at] == 118 && d[at + 1] * 256 + d[at + 2] == b.len() && at + 3 + b.len() <= d.len()
            && d.subrange(at + 3, at + 3 + b.len()) == b && utf8::valid_utf8(b) ==> term_at(
            d,
            at,
            bins,
        ) == Ok::<(TermV, int, Bins), RtErrV>(
            (TermV::Atom(utf8::decode_utf8(b)), (at + 3 + b.len()) as int, bins),
        ),
{
}

} // verus!
