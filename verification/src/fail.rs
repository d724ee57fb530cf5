//! What can go wrong in loading and running code.
use vstd::prelude::*;
use crate::term::{Term, TermV};

verus! {

/// Why data could not be read.
#[derive(Copy, Clone, Debug, PartialEq, Eq, Structural)]
pub enum ReadError {
    /// The data ended too early.
    PrematureEOF,
    /// The data does not begin as it should.
    BadSignature,
    /// The bytes are not UTF-8.
    BadUtf8,
}

/// The class of an exception.
#[derive(Copy, Clone, Debug, PartialEq, Eq, Structural)]
pub enum ExceptionType {
    Error,
    Exit,
    Throw,
}

/// An error of the runtime.
#[derive(Debug, PartialEq, Eq)]
pub enum RtErr {
    CodeLoadingFailed(String),
    ReadError(ReadError),
    Exception(ExceptionType, Term),
    /// An operand names no register in which a value can be kept.
    BadRegister,
}

/// What an error of the runtime is.
pub enum RtErrV {
    CodeLoadingFailed(Seq<char>),
    ReadError(ReadError),
    Exception(ExceptionType, TermV),
    BadRegister,
}

impl View for RtErr {
    type V = RtErrV;

    open spec fn view(&self) -> RtErrV {
        match self {
            RtErr::CodeLoadingFailed(s) => RtErrV::CodeLoadingFailed(s@),
            RtErr::ReadError(e) => RtErrV::ReadError(*e),
            RtErr::Exception(c, t) => RtErrV::Exception(*c, t@),
            RtErr::BadRegister => RtErrV::BadRegister,
        }
    }
}

/// What a result is, where only the error has a view.
pub open spec fn result_view<T>(r: Result<T, RtErr>) -> Result<T, RtErrV> {
    match r {
        Ok(t) => Ok(t),
        Err(e) => Err(e@),
    }
}

impl ReadError {
    pub open spec fn spec_text(self) -> Seq<char> {
        match self {
            ReadError::PrematureEOF => "premature end of data"@,
            ReadError::BadSignature => "bad signature"@,
            ReadError::BadUtf8 => "invalid UTF-8"@,
        }
    }

    /// The text of this error.
    pub fn text(&self) -> (r: &'static str)
        ensures
            r@ == self.spec_text(),
    {
        match self {
            ReadError::PrematureEOF => "premature end of data",
            ReadError::BadSignature => "bad signature",
            ReadError::BadUtf8 => "invalid UTF-8",
        }
    }
}

/// An error whose reason is an atom.
pub open spec fn atom_error(name: Seq<char>) -> RtErrV {
    RtErrV::Exception(ExceptionType::Error, TermV::Atom(name))
}

/// An error whose reason is a tuple of an atom and a value.
pub open spec fn pair_error(name: Seq<char>, val: TermV) -> RtErrV {
    RtErrV::Exception(ExceptionType::Error, TermV::Tuple(seq![TermV::Atom(name), val]))
}

/// An argument is bad.
pub fn badarg() -> (r: RtErr)
    ensures
        r@ == atom_error("badarg"@),
{
    RtErr::Exception(ExceptionType::Error, Term::make_atom("badarg"))
}

/// A limit of the system is reached.
pub fn system_limit() -> (r: RtErr)
    ensures
        r@ == atom_error("system_limit"@),
{
    RtErr::Exception(ExceptionType::Error, Term::make_atom("system_limit"))
}

/// A tuple of an atom and a value.
pub fn tuple2(name: &str, val: Term) -> (r: Term)
    ensures
        r@ == TermV::Tuple(seq![TermV::Atom(name@), val@]),
{
    let mut v: Vec<Term> = Vec::new();
    v.push(Term::make_atom(name));
    v.push(val);
    let ghost was = v@;
    let r = Term::make_tuple(v);
    assert(r@->Tuple_0 =~= seq![TermV::Atom(name@), val@]);
    r
}

/// An error whose reason is a tuple of an atom and a value.
pub fn generic_tuple2_fail(name: &str, val: Term) -> (r: RtErr)
    ensures
        r@ == pair_error(name@, val@),
{
    RtErr::Exception(ExceptionType::Error, tuple2(name, val))
}

} // verus!
