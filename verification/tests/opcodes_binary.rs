use erlangrt::beam::disp_result::DispatchResult;
use erlangrt::beam::opcodes::binary::bs_append::OpcodeBsAppend;
use erlangrt::beam::opcodes::binary::bs_context_to_binary::OpcodeBsContextToBinary;
use erlangrt::beam::opcodes::binary::bs_create_bin::{BsFlags, OpcodeBsCreateBin};
use erlangrt::beam::opcodes::binary::bs_init_bits::OpcodeBsInitBits;
use erlangrt::beam::opcodes::binary::bs_match::OpcodeBsMatch;
use erlangrt::beam::opcodes::binary::bs_match_string::OpcodeBsMatchString;
use erlangrt::beam::opcodes::binary::bs_position::{
    OpcodeBsGetPosition, OpcodeBsGetTail, OpcodeBsSetPosition, OpcodeBsSkipBits2,
};
use erlangrt::beam::opcodes::binary::bs_put_string::OpcodeBsPutString;
use erlangrt::beam::opcodes::binary::bs_test_unit::{OpcodeBsTestTail2, OpcodeBsTestUnit};
use erlangrt::beam::opcodes::binary::bs_utf8::{
    utf8_decode_first_byte, OpcodeBsGetUtf8, OpcodeBsPutUtf8, OpcodeBsSkipUtf8, OpcodeBsUtf8Size,
};
use erlangrt::beam::runtime::{Process, RuntimeContext};
use erlangrt::fail::{ExceptionType, RtErr};
use erlangrt::term::{BinRef, Term};

const FAIL: Term = Term::Code(99);

fn ctx() -> RuntimeContext {
    RuntimeContext::new(8, 1 << 20)
}

fn small(n: i64) -> Term {
    Term::make_small_signed(n)
}

fn atom(name: &str) -> Term {
    Term::make_atom(name)
}

fn list(items: Vec<Term>) -> Term {
    let mut l = Term::Nil;
    for t in items.into_iter().rev() {
        l = Term::Cons(Box::new(t), Box::new(l));
    }
    l
}

/// A process with a match context over some bytes.
fn matching(bytes: &[u8]) -> (Process, usize) {
    let mut proc = Process::new(4);
    let bin = proc.add_bytes(bytes.to_vec());
    let ms = proc.add_match(BinRef { bin, offset: 0, bits: 8 * bytes.len() });
    (proc, ms)
}

fn bytes_in(proc: &Process, t: &Term) -> (Vec<u8>, usize) {
    match t {
        Term::Binary(b) => {
            assert_eq!(b.offset, 0);
            (proc.bins[b.bin].clone(), b.bits)
        }
        _ => panic!("no binary"),
    }
}

fn badarg<T: std::fmt::Debug>(r: Result<T, RtErr>) {
    match r {
        Err(RtErr::Exception(ExceptionType::Error, t)) => assert_eq!(t, atom("badarg")),
        other => panic!("{:?}", other),
    }
}

#[test]
fn commands_match_in_order() {
    let (mut proc, ms) = matching(&[0xab, 0xcd, 0xef]);
    let mut c = ctx();
    let cmds = Term::make_tuple(vec![
        atom("ensure_at_least"),
        small(16),
        small(1),
        atom("=:="),
        Term::Nil,
        small(4),
        small(0xa),
        atom("skip"),
        small(4),
        atom("get_tail"),
        small(3),
        small(8),
        Term::RegX(2),
    ]);
    let r = OpcodeBsMatch::bs_match(&mut c, &mut proc, &FAIL, ms, &cmds);
    assert_eq!(r, Ok(DispatchResult::Normal));
    assert_eq!(c.ip, 0);
    assert_eq!(proc.matches[ms].offset, 8);
    assert_eq!(c.get_x(2), Term::Binary(BinRef { bin: 0, offset: 8, bits: 16 }));
    assert_eq!(c.live, 3);
}

#[test]
fn a_failed_match_goes_back() {
    let (mut proc, ms) = matching(&[0xab, 0xcd]);
    let mut c = ctx();
    let cmds = list(vec![
        Term::make_tuple(vec![atom("skip"), small(3)]),
        Term::make_tuple(vec![atom("ensure_exactly"), small(14)]),
    ]);
    let r = OpcodeBsMatch::bs_match(&mut c, &mut proc, &FAIL, ms, &cmds);
    assert_eq!(r, Ok(DispatchResult::Normal));
    assert_eq!(c.ip, 99);
    assert_eq!(proc.matches[ms].offset, 0);
    badarg(OpcodeBsMatch::bs_match(&mut c, &mut proc, &FAIL, ms, &small(1)));
}

#[test]
fn negative_numbers_match_as_bits() {
    let (mut proc, ms) = matching(&[0xff, 0xfe]);
    let mut c = ctx();
    let cmds = Term::make_tuple(vec![
        Term::make_tuple(vec![atom("=:="), Term::Nil, small(16), small(-2)]),
        Term::make_tuple(vec![atom("ensure_exactly"), small(0)]),
    ]);
    OpcodeBsMatch::bs_match(&mut c, &mut proc, &FAIL, ms, &cmds).unwrap();
    assert_eq!(c.ip, 0);
    assert_eq!(proc.matches[ms].offset, 16);
}

#[test]
fn characters_are_read() {
    let (mut proc, ms) = matching("a\u{e9}\u{20ac}\u{1f600}".as_bytes());
    let mut c = ctx();
    for want in [0x61, 0xe9, 0x20ac, 0x1f600] {
        OpcodeBsGetUtf8::bs_get_utf8(&mut c, &mut proc, &FAIL, ms, &Term::RegX(0)).unwrap();
        assert_eq!(c.get_x(0), small(want));
    }
    assert_eq!(proc.matches[ms].offset, 80);
    assert_eq!(c.ip, 0);
    OpcodeBsGetUtf8::bs_get_utf8(&mut c, &mut proc, &FAIL, ms, &Term::RegX(0)).unwrap();
    assert_eq!(c.ip, 99);
}

#[test]
fn characters_are_skipped() {
    let (mut proc, ms) = matching(&[0xe2, 0x82, 0xac, 0x80]);
    let mut c = ctx();
    OpcodeBsSkipUtf8::bs_skip_utf8(&mut c, &mut proc, &FAIL, ms).unwrap();
    assert_eq!(proc.matches[ms].offset, 24);
    assert_eq!(c.ip, 0);
    // A byte that only goes on begins no character.
    OpcodeBsSkipUtf8::bs_skip_utf8(&mut c, &mut proc, &FAIL, ms).unwrap();
    assert_eq!(proc.matches[ms].offset, 24);
    assert_eq!(c.ip, 99);
    assert_eq!(utf8_decode_first_byte(0x80), None);
    assert_eq!(utf8_decode_first_byte(0x41), Some((1, 0x41)));
}

#[test]
fn characters_are_measured_and_written() {
    let mut proc = Process::new(0);
    let mut c = ctx();
    OpcodeBsUtf8Size::bs_utf8_size(&mut c, &mut proc, &FAIL, &small(0x20ac), &Term::RegX(1)).unwrap();
    assert_eq!(c.get_x(1), small(3));
    // A surrogate is no character.
    OpcodeBsUtf8Size::bs_utf8_size(&mut c, &mut proc, &FAIL, &small(0xd800), &Term::RegX(1)).unwrap();
    assert_eq!(c.ip, 99);
    badarg(OpcodeBsUtf8Size::bs_utf8_size(
        &mut c,
        &mut proc,
        &Term::Nil,
        &Term::Nil,
        &Term::RegX(1),
    ));

    OpcodeBsInitBits::bs_init_bits(&mut c, &mut proc, &FAIL, 7, 8, &Term::RegX(0)).unwrap();
    OpcodeBsPutUtf8::bs_put_utf8(&mut c, &mut proc, &FAIL, &small(0x20ac)).unwrap();
    OpcodeBsPutUtf8::bs_put_utf8(&mut c, &mut proc, &FAIL, &small(0x1f600)).unwrap();
    let (bytes, bits) = bytes_in(&proc, &c.get_x(0));
    assert_eq!(bits, 56);
    assert_eq!(bytes, "\u{20ac}\u{1f600}".as_bytes());
}

#[test]
fn strings_are_put_and_matched() {
    let mut proc = Process::new(0);
    let mut c = ctx();
    let bin = proc.add_bytes(b"hello".to_vec());
    let word = Term::Binary(BinRef { bin, offset: 0, bits: 40 });
    OpcodeBsInitBits::bs_init_bits(&mut c, &mut proc, &FAIL, 6, 8, &Term::RegX(0)).unwrap();
    OpcodeBsPutString::bs_put_string(&mut c, &mut proc, 5, &word).unwrap();
    let (bytes, bits) = bytes_in(&proc, &c.get_x(0));
    assert_eq!(bytes, b"hello\0");
    assert_eq!(bits, 48);

    let src = match c.get_x(0) {
        Term::Binary(b) => b,
        _ => panic!("no binary"),
    };
    let ms = proc.add_match(src);
    OpcodeBsMatchString::bs_match_string(&mut c, &mut proc, &FAIL, ms, 40, &word).unwrap();
    assert_eq!(c.ip, 0);
    assert_eq!(proc.matches[ms].offset, 40);
    OpcodeBsMatchString::bs_match_string(&mut c, &mut proc, &FAIL, ms, 8, &word).unwrap();
    assert_eq!(c.ip, 99);
    assert_eq!(proc.matches[ms].offset, 40);
}

#[test]
fn binaries_are_appended_to() {
    let mut proc = Process::new(0);
    let mut c = ctx();
    let bin = proc.add_bytes(vec![1, 2]);
    let b = Term::Binary(BinRef { bin, offset: 0, bits: 16 });
    OpcodeBsAppend::bs_append(&mut c, &mut proc, &FAIL, 1, 8, &b, &Term::RegX(3)).unwrap();
    OpcodeBsPutUtf8::bs_put_utf8(&mut c, &mut proc, &FAIL, &small(0x41)).unwrap();
    assert_eq!(bytes_in(&proc, &c.get_x(3)), (vec![1, 2, 0x41], 24));
    OpcodeBsAppend::bs_append(&mut c, &mut proc, &FAIL, 1, 8, &Term::Nil, &Term::RegX(3)).unwrap();
    assert_eq!(c.ip, 99);
}

fn integer(size: i64, flags: Term, value: Term) -> Vec<Term> {
    vec![atom("integer"), small(1), small(1), flags, value, small(size)]
}

#[test]
fn binaries_are_created() {
    let mut proc = Process::new(0);
    let mut c = ctx();
    let bin = proc.add_bytes(vec![0xf0, 0x0f]);
    c.set_x(1, Term::Binary(BinRef { bin, offset: 4, bits: 8 }));
    let mut ops = integer(4, Term::Nil, small(-1));
    ops.extend(integer(16, list(vec![atom("little")]), small(0x1234)));
    ops.extend(vec![atom("binary"), small(2), small(8), Term::Nil, Term::RegX(1), atom("all")]);
    ops.extend(integer(4, Term::Nil, small(5)));
    let r = OpcodeBsCreateBin::bs_create_bin(
        &mut c,
        &mut proc,
        &FAIL,
        2,
        &Term::RegX(0),
        &Term::make_tuple(ops),
    );
    assert_eq!(r, Ok(DispatchResult::Normal));
    assert_eq!(bytes_in(&proc, &c.get_x(0)), (vec![0xf3, 0x41, 0x20, 0x05], 32));
}

#[test]
fn created_numbers_match() {
    for value in [0i64, 1, 200, -5, i64::MIN, i64::MAX] {
        let mut proc = Process::new(0);
        let mut c = ctx();
        OpcodeBsCreateBin::bs_create_bin(
            &mut c,
            &mut proc,
            &FAIL,
            0,
            &Term::RegX(0),
            &Term::make_tuple(integer(64, Term::Nil, small(value))),
        )
        .unwrap();
        let src = match c.get_x(0) {
            Term::Binary(b) => b,
            _ => panic!("no binary"),
        };
        let ms = proc.add_match(src);
        let cmds = Term::make_tuple(vec![atom("=:="), Term::Nil, small(64), small(value)]);
        OpcodeBsMatch::bs_match(&mut c, &mut proc, &FAIL, ms, &cmds).unwrap();
        assert_eq!(c.ip, 0);
    }
}

#[test]
fn bad_fields_are_refused() {
    let mut proc = Process::new(0);
    let mut c = ctx();
    let bad = Term::make_tuple(vec![atom("float"), small(1), small(1), Term::Nil, small(1), small(1)]);
    badarg(OpcodeBsCreateBin::bs_create_bin(&mut c, &mut proc, &FAIL, 0, &Term::RegX(0), &bad));
    let short = Term::make_tuple(vec![atom("integer"), small(1)]);
    badarg(OpcodeBsCreateBin::bs_create_bin(&mut c, &mut proc, &FAIL, 0, &Term::RegX(0), &short));
    let mut tiny = RuntimeContext::new(2, 1);
    let r = OpcodeBsInitBits::bs_init_bits(&mut tiny, &mut proc, &FAIL, 2, 8, &Term::RegX(0));
    match r {
        Err(RtErr::Exception(ExceptionType::Error, t)) => assert_eq!(t, atom("system_limit")),
        other => panic!("{:?}", other),
    }
}

#[test]
fn flags_are_read() {
    let f = OpcodeBsCreateBin::parse_flags(&small(0b10110)).unwrap();
    assert_eq!(
        f,
        BsFlags { aligned: false, little: true, signed: true, exact: false, native: true }
    );
    let g = OpcodeBsCreateBin::parse_flags(&list(vec![atom("signed"), atom("other")])).unwrap();
    assert_eq!(
        g,
        BsFlags { aligned: false, little: false, signed: true, exact: false, native: false }
    );
    badarg(OpcodeBsCreateBin::parse_flags(&atom("little")));
}

#[test]
fn positions_are_kept() {
    let (mut proc, ms) = matching(&[1, 2, 3, 4]);
    let mut c = ctx();
    OpcodeBsSkipBits2::bs_skip_bits2(&mut c, &mut proc, &FAIL, ms, 3, 3).unwrap();
    assert_eq!(proc.matches[ms].offset, 9);
    OpcodeBsGetPosition::bs_get_position(&mut c, &mut proc, ms, &Term::RegX(5)).unwrap();
    assert_eq!(c.get_x(5), small(9));
    OpcodeBsSkipBits2::bs_skip_bits2(&mut c, &mut proc, &FAIL, ms, 1, 7).unwrap();
    OpcodeBsGetTail::bs_get_tail(&mut c, &mut proc, ms, &Term::RegX(6), 4).unwrap();
    assert_eq!(c.get_x(6), Term::Binary(BinRef { bin: 0, offset: 16, bits: 16 }));
    OpcodeBsSetPosition::bs_set_position(&mut c, &mut proc, ms, &Term::RegX(5)).unwrap();
    assert_eq!(proc.matches[ms].offset, 9);
    OpcodeBsSkipBits2::bs_skip_bits2(&mut c, &mut proc, &FAIL, ms, usize::MAX, 8).unwrap();
    assert_eq!(c.ip, 99);
    assert_eq!(proc.matches[ms].offset, 9);
}

#[test]
fn what_remains_is_tested() {
    let (mut proc, ms) = matching(&[1, 2, 3]);
    let mut c = ctx();
    OpcodeBsTestUnit::bs_test_unit(&mut c, &proc, &FAIL, ms, 8).unwrap();
    OpcodeBsTestTail2::bs_test_tail2(&mut c, &proc, &FAIL, ms, 24).unwrap();
    assert_eq!(c.ip, 0);
    OpcodeBsTestUnit::bs_test_unit(&mut c, &proc, &FAIL, ms, 16).unwrap();
    assert_eq!(c.ip, 99);
    c.ip = 0;
    OpcodeBsTestTail2::bs_test_tail2(&mut c, &proc, &FAIL, ms, 23).unwrap();
    assert_eq!(c.ip, 99);

    c.set_x(0, Term::Matching(ms));
    OpcodeBsSkipBits2::bs_skip_bits2(&mut c, &mut proc, &FAIL, ms, 1, 8).unwrap();
    OpcodeBsContextToBinary::bs_context_to_binary(&mut c, &mut proc, &Term::RegX(0)).unwrap();
    assert_eq!(c.get_x(0), Term::Binary(BinRef { bin: 0, offset: 8, bits: 16 }));
    OpcodeBsContextToBinary::bs_context_to_binary(&mut c, &mut proc, &Term::RegX(0)).unwrap();
    assert_eq!(c.get_x(0), Term::Binary(BinRef { bin: 0, offset: 8, bits: 16 }));
}

#[test]
fn a_value_needs_a_register() {
    let (mut proc, ms) = matching(&[1]);
    let mut c = ctx();
    assert_eq!(
        OpcodeBsGetPosition::bs_get_position(&mut c, &mut proc, ms, &Term::RegX(8)),
        Err(RtErr::BadRegister)
    );
    OpcodeBsGetPosition::bs_get_position(&mut c, &mut proc, ms, &Term::RegY(0)).unwrap();
    assert_eq!(proc.y[0], small(0));
}

fn system_limit<T: std::fmt::Debug>(r: Result<T, RtErr>) {
    match r {
        Err(RtErr::Exception(ExceptionType::Error, t)) => assert_eq!(t, atom("system_limit")),
        other => panic!("{:?}", other),
    }
}

#[test]
fn the_empty_binary_needs_no_storage() {
    let mut proc = Process::new(0);
    let mut c = ctx();
    OpcodeBsInitBits::bs_init_bits(&mut c, &mut proc, &Term::Nil, 0, 8, &Term::RegX(0)).unwrap();
    let empty = c.get_x(0);
    assert_eq!(empty, Term::Binary(BinRef { bin: 0, offset: 0, bits: 0 }));
    assert!(proc.bins.is_empty());

    OpcodeBsAppend::bs_append(&mut c, &mut proc, &FAIL, 0, 8, &empty, &Term::RegX(1)).unwrap();
    assert_eq!(c.get_x(1), empty);
    assert!(proc.bins.is_empty());

    let all = || vec![atom("binary"), small(2), small(8), Term::Nil, Term::RegX(0), atom("all")];
    let build = |c: &mut RuntimeContext, proc: &mut Process, ops: Vec<Term>| {
        let list = Term::make_tuple(ops);
        OpcodeBsCreateBin::bs_create_bin(c, proc, &FAIL, 1, &Term::RegX(2), &list)
    };
    assert_eq!(build(&mut c, &mut proc, all()), Ok(DispatchResult::Normal));
    assert_eq!(c.get_x(2), empty);
    let mut more = integer(8, Term::Nil, small(7));
    more.extend(all());
    assert_eq!(build(&mut c, &mut proc, more), Ok(DispatchResult::Normal));
    assert_eq!(bytes_in(&proc, &c.get_x(2)), (vec![7], 8));

    OpcodeBsAppend::bs_append(&mut c, &mut proc, &FAIL, 1, 8, &empty, &Term::RegX(3)).unwrap();
    OpcodeBsPutUtf8::bs_put_utf8(&mut c, &mut proc, &FAIL, &small(0x41)).unwrap();
    assert_eq!(bytes_in(&proc, &c.get_x(3)), (vec![0x41], 8));
}

#[test]
fn the_empty_binary_is_appended_to_in_a_new_process() {
    let mut proc = Process::new(0);
    let mut c = ctx();
    let empty = Term::Binary(BinRef { bin: 0, offset: 0, bits: 0 });
    OpcodeBsAppend::bs_append(&mut c, &mut proc, &Term::Nil, 2, 8, &empty, &Term::RegX(0)).unwrap();
    assert_eq!(bytes_in(&proc, &c.get_x(0)), (vec![0, 0], 16));
}

#[test]
fn nothing_is_left_to_match_of_the_empty_binary() {
    let mut proc = Process::new(0);
    let mut c = ctx();
    let ms = proc.add_match(BinRef { bin: 0, offset: 0, bits: 0 });
    let cmds = Term::make_tuple(vec![atom("=:="), Term::Nil, small(0), small(0)]);
    OpcodeBsMatch::bs_match(&mut c, &mut proc, &FAIL, ms, &cmds).unwrap();
    assert_eq!(c.ip, 0);
    let cmds = Term::make_tuple(vec![atom("=:="), Term::Nil, small(1), small(0)]);
    OpcodeBsMatch::bs_match(&mut c, &mut proc, &FAIL, ms, &cmds).unwrap();
    assert_eq!(c.ip, 99);
}

#[test]
fn binaries_that_are_too_large_are_refused_before_they_are_built() {
    let mut proc = Process::new(0);
    let mut c = ctx();
    let bin = proc.add_bytes(vec![1]);
    let b = Term::Binary(BinRef { bin, offset: 0, bits: 8 });
    for sz in [1usize << 40, usize::MAX / 8 - 1] {
        system_limit(OpcodeBsInitBits::bs_init_bits(&mut c, &mut proc, &FAIL, sz, 8, &Term::RegX(0)));
        system_limit(OpcodeBsAppend::bs_append(&mut c, &mut proc, &FAIL, sz, 8, &b, &Term::RegX(0)));
    }
    system_limit(OpcodeBsAppend::bs_append(
        &mut c,
        &mut proc,
        &FAIL,
        usize::MAX - 1,
        1,
        &b,
        &Term::RegX(0),
    ));
    assert_eq!(proc.bins.len(), 1);
    OpcodeBsAppend::bs_append(&mut c, &mut proc, &FAIL, usize::MAX - 1, 1, &small(1), &Term::RegX(0))
        .unwrap();
    assert_eq!(c.ip, 99);
}
