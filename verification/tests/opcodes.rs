use erlangrt::beam::disp_result::{DispatchResult, YieldType};
use erlangrt::beam::opcodes::op_float::{fp_index, FloatMove, OpcodeFmove};
use erlangrt::beam::opcodes::op_map::{
    OpcodeBadrecord, OpcodeGetMapElements, OpcodeHasMapFields, OpcodePutMapAssoc,
    OpcodePutMapExact, OpcodeUpdateRecord,
};
use erlangrt::beam::opcodes::op_message::{
    OpcodeLoopRec, OpcodeLoopRecEnd, OpcodeRemoveMessage, OpcodeSend, OpcodeTimeout, OpcodeWait,
    OpcodeWaitTimeout, Processes,
};
use erlangrt::beam::opcodes::op_try_catch::{
    get_trace_from_exc, Mfa, OpcodeBuildStacktrace, OpcodeCatch, OpcodeCatchEnd, OpcodeRaise,
    OpcodeRawRaise, OpcodeTry, OpcodeTryCase, OpcodeTryCaseEnd, OpcodeTryEnd,
};
use erlangrt::beam::runtime::{Process, RuntimeContext};
use erlangrt::fail::{ExceptionType, RtErr};
use erlangrt::term::Term;
use erlangrt::util::assoc::AssocMap;

const FAIL: Term = Term::Code(99);

fn ctx() -> RuntimeContext {
    RuntimeContext::new(8, 1 << 20)
}

fn small(n: i64) -> Term {
    Term::make_small_signed(n)
}

fn atom(name: &str) -> Term {
    Term::make_atom(name)
}

fn pair(name: &str, val: Term) -> Term {
    Term::make_tuple(vec![atom(name), val])
}

fn error<T: std::fmt::Debug>(r: Result<T, RtErr>, want: Term) {
    match r {
        Err(RtErr::Exception(ExceptionType::Error, t)) => assert_eq!(t, want),
        other => panic!("{:?}", other),
    }
}

#[test]
fn a_sent_message_waits_last() {
    let mut all = Processes { waiting: AssocMap::new() };
    all.waiting.insert(5u64, vec![small(1)]);
    let mut c = ctx();
    c.set_x(0, Term::Pid(5));
    c.set_x(1, atom("hi"));
    OpcodeSend::send(&mut all, &mut c).unwrap();
    assert_eq!(c.get_x(0), atom("hi"));
    assert_eq!(all.waiting.get(&5u64), Some(&vec![small(1), atom("hi")]));
    // A process that is gone gets nothing, and nobody minds.
    c.set_x(0, Term::Pid(6));
    OpcodeSend::send(&mut all, &mut c).unwrap();
    assert!(all.waiting.get(&6u64).is_none());
    error(OpcodeSend::send(&mut all, &mut c), atom("badarg"));
}

#[test]
fn messages_are_looked_at_and_taken() {
    let mut proc = Process::new(0);
    let mut c = ctx();
    proc.mailbox.messages = vec![small(1), small(2)];
    OpcodeLoopRec::loop_rec(&mut c, &proc, &FAIL).unwrap();
    assert_eq!(c.get_x(0), small(1));
    OpcodeLoopRecEnd::loop_rec_end(&mut c, &mut proc, &Term::Code(7)).unwrap();
    assert_eq!(c.ip, 7);
    OpcodeLoopRec::loop_rec(&mut c, &proc, &FAIL).unwrap();
    assert_eq!(c.get_x(0), small(2));
    OpcodeRemoveMessage::remove_message(&mut c, &mut proc).unwrap();
    assert_eq!(c.get_x(0), small(2));
    assert_eq!(proc.mailbox.messages, vec![small(1)]);
    assert_eq!(proc.mailbox.read_index, 0);
    OpcodeLoopRecEnd::loop_rec_end(&mut c, &mut proc, &Term::Code(7)).unwrap();
    OpcodeLoopRec::loop_rec(&mut c, &proc, &FAIL).unwrap();
    assert_eq!(c.ip, 99);
    OpcodeTimeout::timeout(&mut proc).unwrap();
    assert_eq!(proc.mailbox.read_index, 0);
}

#[test]
fn waiting_gives_up_the_turn() {
    let mut c = ctx();
    let r = OpcodeWait::wait(&mut c, &Term::Code(3)).unwrap();
    assert_eq!(r, DispatchResult::Yield(YieldType::InfiniteWait));
    assert_eq!(c.ip, 3);
    let r = OpcodeWaitTimeout::wait_timeout(&mut c, &FAIL, &small(0)).unwrap();
    assert_eq!(r, DispatchResult::Normal);
    assert_eq!(c.ip, 3);
    let r = OpcodeWaitTimeout::wait_timeout(&mut c, &FAIL, &small(10)).unwrap();
    assert_eq!(r, DispatchResult::Yield(YieldType::InfiniteWait));
    assert_eq!(c.ip, 99);
}

#[test]
fn exceptions_are_tried_and_taken_up() {
    let mut proc = Process::new(2);
    let mut c = ctx();
    OpcodeTry::try_opcode(&mut proc, &Term::RegY(1), &Term::Code(5)).unwrap();
    assert_eq!(proc.num_catches, 1);
    assert_eq!(proc.y[1], Term::Catch(5));
    c.set_x(0, small(42));
    OpcodeTryEnd::try_end(&mut c, &mut proc, &Term::RegY(1)).unwrap();
    assert_eq!(proc.num_catches, 0);
    assert_eq!(proc.y[1], Term::Nil);
    assert_eq!(c.get_x(0), small(42));

    OpcodeTry::try_opcode(&mut proc, &Term::RegY(0), &Term::Code(5)).unwrap();
    proc.exception = Some((ExceptionType::Exit, atom("boom")));
    c.set_x(0, Term::NonValue);
    c.set_x(1, atom("exit"));
    c.set_x(2, atom("boom"));
    c.set_x(3, Term::Nil);
    OpcodeTryCase::try_case(&mut c, &mut proc, &Term::RegY(0)).unwrap();
    assert_eq!(proc.exception, None);
    assert_eq!(c.get_x(0), atom("exit"));
    assert_eq!(c.get_x(1), atom("boom"));
    assert_eq!(c.get_x(2), Term::Nil);
    assert!(OpcodeTry::try_opcode(&mut proc, &Term::RegY(2), &Term::Code(5)).is_err());
}

#[test]
fn everything_is_caught() {
    for (class, want) in [
        ("throw", atom("v")),
        ("error", pair("EXIT", atom("v"))),
        ("exit", pair("EXIT", atom("v"))),
    ] {
        let mut proc = Process::new(1);
        let mut c = ctx();
        OpcodeCatch::catch_opcode(&mut proc, &Term::RegY(0), &Term::Code(5)).unwrap();
        c.set_x(0, Term::NonValue);
        c.set_x(1, atom(class));
        c.set_x(2, atom("v"));
        OpcodeCatchEnd::catch_end(&mut c, &mut proc, &Term::RegY(0)).unwrap();
        assert_eq!(c.get_x(0), want);
        assert_eq!(proc.num_catches, 0);
    }
}

#[test]
fn exceptions_are_raised() {
    assert_eq!(get_trace_from_exc(&Term::Nil), None);
    error(OpcodeRaise::raise(&Term::Nil, atom("oops")), atom("oops"));
    error(OpcodeTryCaseEnd::try_case_end(small(1)), pair("try_clause", small(1)));
    error(OpcodeBadrecord::badrecord(small(1)), pair("badrecord", small(1)));
    let mut c = ctx();
    c.set_x(1, small(9));
    for (name, class) in [
        ("error", ExceptionType::Error),
        ("exit", ExceptionType::Exit),
        ("throw", ExceptionType::Throw),
        ("other", ExceptionType::Error),
    ] {
        c.set_x(0, atom(name));
        assert_eq!(OpcodeRawRaise::raw_raise(&c), Err(RtErr::Exception(class, small(9))));
    }
}

#[test]
fn a_stack_trace_names_the_caller() {
    let mut c = ctx();
    c.set_x(0, small(1));
    let mfa = |n| Some(Mfa { m: atom("m"), f: atom("f"), arity: n });
    OpcodeBuildStacktrace::build_stacktrace(&mut c, mfa(2)).unwrap();
    assert_eq!(c.get_x(0), Term::Nil);
    c.cp = Some(4);
    OpcodeBuildStacktrace::build_stacktrace(&mut c, mfa(2)).unwrap();
    let entry = Term::make_tuple(vec![atom("m"), atom("f"), small(2), Term::Nil]);
    assert_eq!(c.get_x(0), Term::Cons(Box::new(entry), Box::new(Term::Nil)));
}

#[test]
fn maps_are_changed_and_read() {
    let mut proc = Process::new(0);
    let mut c = ctx();
    c.set_x(1, small(10));
    let map = Term::Assoc(vec![(atom("a"), small(1))]);
    let pairs = Term::make_tuple(vec![atom("b"), Term::RegX(1), atom("a"), small(2)]);
    OpcodePutMapAssoc::put_map_assoc(&mut c, &mut proc, &map, &Term::RegX(0), &pairs).unwrap();
    let now = c.get_x(0);

    let keys = Term::make_tuple(vec![atom("a"), atom("b")]);
    OpcodeHasMapFields::has_map_fields(&mut c, &proc, &FAIL, &now, &keys).unwrap();
    assert_eq!(c.ip, 0);
    OpcodeHasMapFields::has_map_fields(&mut c, &proc, &FAIL, &map, &keys).unwrap();
    assert_eq!(c.ip, 99);
    c.ip = 0;

    let wanted = Term::make_tuple(vec![atom("a"), Term::RegX(2), atom("b"), Term::RegX(3)]);
    OpcodeGetMapElements::get_map_elements(&mut c, &mut proc, &FAIL, &now, &wanted).unwrap();
    assert_eq!(c.get_x(2), small(2));
    assert_eq!(c.get_x(3), small(10));
    assert_eq!(c.ip, 0);
    OpcodeGetMapElements::get_map_elements(&mut c, &mut proc, &FAIL, &map, &wanted).unwrap();
    assert_eq!(c.ip, 99);
}

#[test]
fn exact_changes_need_their_keys() {
    let mut proc = Process::new(0);
    let mut c = ctx();
    let map = Term::Assoc(vec![(atom("a"), small(1))]);
    let good = Term::make_tuple(vec![atom("a"), small(7)]);
    OpcodePutMapExact::put_map_exact(&mut c, &mut proc, &Term::Nil, &map, &Term::RegX(0), &good)
        .unwrap();
    assert_eq!(c.get_x(0), Term::Assoc(vec![(atom("a"), small(7))]));
    let bad = Term::make_tuple(vec![atom("z"), small(7)]);
    error(
        OpcodePutMapExact::put_map_exact(&mut c, &mut proc, &Term::Nil, &map, &Term::RegX(0), &bad),
        pair("badkey", atom("z")),
    );
    OpcodePutMapExact::put_map_exact(&mut c, &mut proc, &FAIL, &map, &Term::RegX(0), &bad).unwrap();
    assert_eq!(c.ip, 99);
}

#[test]
fn records_are_updated() {
    let mut proc = Process::new(0);
    let mut c = ctx();
    c.set_x(1, atom("new"));
    let rec = Term::make_tuple(vec![atom("r"), small(1), small(2)]);
    let ups = Term::make_tuple(vec![small(3), Term::RegX(1)]);
    OpcodeUpdateRecord::update_record(&mut c, &mut proc, 3, &rec, &Term::RegX(0), &ups).unwrap();
    assert_eq!(c.get_x(0), Term::make_tuple(vec![atom("r"), small(1), atom("new")]));
    let bad = Term::make_tuple(vec![small(4), Term::RegX(1)]);
    error(
        OpcodeUpdateRecord::update_record(&mut c, &mut proc, 3, &rec, &Term::RegX(0), &bad),
        atom("badarg"),
    );
    error(
        OpcodeUpdateRecord::update_record(&mut c, &mut proc, 4, &rec, &Term::RegX(0), &ups),
        atom("badarg"),
    );
}

#[test]
fn moves_of_floats_are_told_apart() {
    let fp = Term::RegFp(3);
    assert_eq!(fp_index(&fp), 3);
    assert_eq!(OpcodeFmove::fmove_impl(&fp, &Term::RegFp(1)), FloatMove::Within(3, 1));
    assert_eq!(OpcodeFmove::fmove_impl(&fp, &Term::RegX(1)), FloatMove::Out(3));
    assert_eq!(OpcodeFmove::fmove_impl(&Term::RegX(1), &fp), FloatMove::In(3));
    assert_eq!(OpcodeFmove::fmove_impl(&Term::RegX(1), &Term::RegX(2)), FloatMove::Plain);
}
