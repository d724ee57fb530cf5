//! Terms: the values that opcodes work on.
use vstd::prelude::*;
use crate::util::text::str_eq;

verus! {

/// Where the bits of a binary stand: which piece of storage, from which bit on, and how many.
#[derive(Copy, Clone, Debug, PartialEq, Eq, Structural)]
pub struct BinRef {
    pub bin: usize,
    pub offset: usize,
    pub bits: usize,
}

/// A value, or an operand that names a register or a place in the code.
#[derive(Debug, PartialEq, Eq)]
pub enum Term {
    /// The empty list.
    Nil,
    /// What stands where there is no value.
    NonValue,
    /// A small integer.
    Small(i64),
    /// An atom, by its name.
    Atom(String),
    /// A process.
    Pid(u64),
    /// A register X.
    RegX(usize),
    /// A register Y, on the stack.
    RegY(usize),
    /// A register for floating point.
    RegFp(usize),
    /// A place in the code.
    Code(usize),
    /// A place in the code at which an exception is caught.
    Catch(usize),
    /// A tuple.
    Tuple(Vec<Term>),
    /// A list cell: its head and its tail.
    Cons(Box<Term>, Box<Term>),
    /// A binary, or a part of one.
    Binary(BinRef),
    /// A match context.
    Matching(usize),
    /// A map, as its keys and values.
    Assoc(Vec<(Term, Term)>),
}

/// What a term is.
pub enum TermV {
    Nil,
    NonValue,
    Small(i64),
    Atom(Seq<char>),
    Pid(u64),
    RegX(usize),
    RegY(usize),
    RegFp(usize),
    Code(usize),
    Catch(usize),
    Tuple(Seq<TermV>),
    Cons(Box<TermV>, Box<TermV>),
    Binary(BinRef),
    Matching(usize),
    Assoc(Seq<(TermV, TermV)>),
}

impl Term {
    /// What this term is.
    pub open spec fn tree(&self) -> TermV
        decreases self,
    {
        match self {
            Term::Nil => TermV::Nil,
            Term::NonValue => TermV::NonValue,
            Term::Small(n) => TermV::Small(*n),
            Term::Atom(s) => TermV::Atom(s@),
            Term::Pid(n) => TermV::Pid(*n),
            Term::RegX(n) => TermV::RegX(*n),
            Term::RegY(n) => TermV::RegY(*n),
            Term::RegFp(n) => TermV::RegFp(*n),
            Term::Code(n) => TermV::Code(*n),
            Term::Catch(n) => TermV::Catch(*n),
            Term::Tuple(v) => TermV::Tuple(
                Seq::new(
                    v@.len(),
                    |i: int|
                        if 0 <= i < v@.len() {
                            v@[i].tree()
                        } else {
                            TermV::Nil
                        },
                ),
            ),
            Term::Cons(h, t) => TermV::Cons(Box::new(h.tree()), Box::new(t.tree())),
            Term::Binary(b) => TermV::Binary(*b),
            Term::Matching(n) => TermV::Matching(*n),
            Term::Assoc(m) => TermV::Assoc(
                Seq::new(
                    m@.len(),
                    |i: int|
                        if 0 <= i < m@.len() {
                            (m@[i].0.tree(), m@[i].1.tree())
                        } else {
                            (TermV::Nil, TermV::Nil)
                        },
                ),
            ),
        }
    }
}

impl View for Term {
    type V = TermV;

    open spec fn view(&self) -> TermV {
        self.tree()
    }
}

/// What terms are.
pub open spec fn terms_view(v: Seq<Term>) -> Seq<TermV> {
    v.map_values(|t: Term| t@)
}

/// What keys and values are.
pub open spec fn pairs_view(v: Seq<(Term, Term)>) -> Seq<(TermV, TermV)> {
    v.map_values(|p: (Term, Term)| (p.0@, p.1@))
}

impl TermV {
    /// The small integer, where it is one.
    pub open spec fn small(self) -> Option<i64> {
        match self {
            TermV::Small(n) => Some(n),
            _ => None,
        }
    }

    /// The elements of a tuple that is not empty.
    pub open spec fn elements(self) -> Seq<TermV> {
        match self {
            TermV::Tuple(v) => v,
            _ => Seq::empty(),
        }
    }
}

impl Term {
    /// Whether this is a small integer.
    pub fn is_small(&self) -> (r: bool)
        ensures
            r == (self@ is Small),
    {
        match self {
            Term::Small(_) => true,
            _ => false,
        }
    }

    /// The value of a small integer.
    pub fn get_small_signed(&self) -> (r: i64)
        requires
            self@ is Small,
        ensures
            self@ == TermV::Small(r),
    {
        match self {
            Term::Small(n) => *n,
            _ => 0,
        }
    }

    pub fn nil() -> (r: Term)
        ensures
            r@ == TermV::Nil,
    {
        Term::Nil
    }

    pub fn make_small_signed(n: i64) -> (r: Term)
        ensures
            r@ == TermV::Small(n),
    {
        Term::Small(n)
    }

    pub fn make_atom(name: &str) -> (r: Term)
        ensures
            r@ == TermV::Atom(name@),
    {
        Term::Atom(name.to_string())
    }

    pub fn make_tuple(v: Vec<Term>) -> (r: Term)
        ensures
            r@ == TermV::Tuple(terms_view(v@)),
    {
        let ghost was = v@;
        let r = Term::Tuple(v);
        assert(r@->Tuple_0 =~= terms_view(was));
        r
    }

    pub fn is_nil(&self) -> (r: bool)
        ensures
            r == (self@ == TermV::Nil),
    {
        match self {
            Term::Nil => true,
            _ => false,
        }
    }

    pub fn is_non_value(&self) -> (r: bool)
        ensures
            r == (self@ == TermV::NonValue),
    {
        match self {
            Term::NonValue => true,
            _ => false,
        }
    }

    /// Whether this is the atom of that name.
    pub fn is_atom_of(&self, name: &str) -> (r: bool)
        ensures
            r == (self@ == TermV::Atom(name@)),
    {
        match self {
            Term::Atom(s) => str_eq(s.as_str(), name),
            _ => false,
        }
    }

    /// The same term once more.
    pub fn copy(&self) -> (r: Term)
        ensures
            r@ == self@,
        decreases self,
    {
        match self {
            Term::Nil => Term::Nil,
            Term::NonValue => Term::NonValue,
            Term::Small(n) => Term::Small(*n),
            Term::Atom(s) => Term::Atom(s.clone()),
            Term::Pid(n) => Term::Pid(*n),
            Term::RegX(n) => Term::RegX(*n),
            Term::RegY(n) => Term::RegY(*n),
            Term::RegFp(n) => Term::RegFp(*n),
            Term::Code(n) => Term::Code(*n),
            Term::Catch(n) => Term::Catch(*n),
            Term::Tuple(v) => {
                let mut out: Vec<Term> = Vec::new();
                let mut i: usize = 0;
                while i < v.len()
                    invariant
                        i <= v@.len(),
                        out@.len() == i,
                        *self == Term::Tuple(*v),
                        forall|j: int| 0 <= j < i ==> (#[trigger] out@[j])@ == v@[j]@,
                    decreases v@.len() - i,
                {
                    assert(decreases_to!(*self => (*self)->Tuple_0));
                    assert(decreases_to!((*self)->Tuple_0 => (*self)->Tuple_0@));
                    assert(decreases_to!((*self)->Tuple_0@ => (*self)->Tuple_0@[i as int]));
                    out.push(v[i].copy());
                    i += 1;
                }
                let r = Term::Tuple(out);
                assert(r@->Tuple_0 =~= self@->Tuple_0);
                r
            },
            Term::Cons(h, t) => {
                assert(decreases_to!(*self => (*self)->Cons_0));
                assert(decreases_to!(*self => (*self)->Cons_1));
                let head: Term = h.copy();
                let tail: Term = t.copy();
                Term::Cons(Box::new(head), Box::new(tail))
            },
            Term::Binary(b) => Term::Binary(*b),
            Term::Matching(n) => Term::Matching(*n),
            Term::Assoc(m) => {
                let mut out: Vec<(Term, Term)> = Vec::new();
                let mut i: usize = 0;
                while i < m.len()
                    invariant
                        i <= m@.len(),
                        out@.len() == i,
                        *self == Term::Assoc(*m),
                        forall|j: int|
                            0 <= j < i ==> (#[trigger] out@[j]).0@ == m@[j].0@ && out@[j].1@
                                == m@[j].1@,
                    decreases m@.len() - i,
                {
                    assert(decreases_to!(*self => (*self)->Assoc_0));
                    assert(decreases_to!((*self)->Assoc_0 => (*self)->Assoc_0@));
                    assert(decreases_to!((*self)->Assoc_0@ => (*self)->Assoc_0@[i as int]));
                    assert(decreases_to!((*self)->Assoc_0@[i as int] => (*self)->Assoc_0@[i as int].0));
                    assert(decreases_to!((*self)->Assoc_0@[i as int] => (*self)->Assoc_0@[i as int].1));
                    let k: Term = m[i].0.copy();
                    let v: Term = m[i].1.copy();
                    out.push((k, v));
                    i += 1;
                }
                let r = Term::Assoc(out);
                assert(r@->Assoc_0 =~= self@->Assoc_0);
                r
            },
        }
    }

    /// Whether two terms are the same.
    pub fn same(&self, other: &Term) -> (r: bool)
        ensures
            r == (self@ == other@),
        decreases self,
    {
        match (self, other) {
            (Term::Nil, Term::Nil) => true,
            (Term::NonValue, Term::NonValue) => true,
            (Term::Small(a), Term::Small(b)) => *a == *b,
            (Term::Atom(a), Term::Atom(b)) => str_eq(a.as_str(), b.as_str()),
            (Term::Pid(a), Term::Pid(b)) => *a == *b,
            (Term::RegX(a), Term::RegX(b)) => *a == *b,
            (Term::RegY(a), Term::RegY(b)) => *a == *b,
            (Term::RegFp(a), Term::RegFp(b)) => *a == *b,
            (Term::Code(a), Term::Code(b)) => *a == *b,
            (Term::Catch(a), Term::Catch(b)) => *a == *b,
            (Term::Tuple(a), Term::Tuple(b)) => {
                let ghost x = self@->Tuple_0;
                let ghost y = other@->Tuple_0;
                if a.len() != b.len() {
                    assert(x.len() != y.len());
                    return false;
                }
                let mut i: usize = 0;
                while i < a.len()
                    invariant
                        i <= a@.len(),
                        a@.len() == b@.len(),
                        *self == Term::Tuple(*a),
                        *other == Term::Tuple(*b),
                        self@ == TermV::Tuple(x),
                        other@ == TermV::Tuple(y),
                        x.len() == a@.len(),
                        y.len() == b@.len(),
                        forall|j: int| 0 <= j < i ==> #[trigger] x[j] == y[j],
                    decreases a@.len() - i,
                {
                    assert(decreases_to!(*self => (*self)->Tuple_0));
                    assert(decreases_to!((*self)->Tuple_0 => (*self)->Tuple_0@));
                    assert(decreases_to!((*self)->Tuple_0@ => (*self)->Tuple_0@[i as int]));
                    assert(x[i as int] == a@[i as int]@);
                    assert(y[i as int] == b@[i as int]@);
                    if !a[i].same(&b[i]) {
                        return false;
                    }
                    i += 1;
                }
                assert(x =~= y);
                true
            },
            (Term::Cons(a, b), Term::Cons(c, d)) => {
                assert(decreases_to!(*self => (*self)->Cons_0));
                assert(decreases_to!(*self => (*self)->Cons_1));
                let heads: bool = a.same(c);
                let tails: bool = b.same(d);
                heads && tails
            },
            (Term::Binary(a), Term::Binary(b)) => *a == *b,
            (Term::Matching(a), Term::Matching(b)) => *a == *b,
            (Term::Assoc(a), Term::Assoc(b)) => {
                let ghost x = self@->Assoc_0;
                let ghost y = other@->Assoc_0;
                if a.len() != b.len() {
                    assert(x.len() != y.len());
                    return false;
                }
                let mut i: usize = 0;
                while i < a.len()
                    invariant
                        i <= a@.len(),
                        a@.len() == b@.len(),
                        *self == Term::Assoc(*a),
                        *other == Term::Assoc(*b),
                        self@ == TermV::Assoc(x),
                        other@ == TermV::Assoc(y),
                        x.len() == a@.len(),
                        y.len() == b@.len(),
                        forall|j: int| 0 <= j < i ==> #[trigger] x[j] == y[j],
                    decreases a@.len() - i,
                {
                    assert(decreases_to!(*self => (*self)->Assoc_0));
                    assert(decreases_to!((*self)->Assoc_0 => (*self)->Assoc_0@));
                    assert(decreases_to!((*self)->Assoc_0@ => (*self)->Assoc_0@[i as int]));
                    assert(decreases_to!((*self)->Assoc_0@[i as int] => (*self)->Assoc_0@[i as int].0));
                    assert(decreases_to!((*self)->Assoc_0@[i as int] => (*self)->Assoc_0@[i as int].1));
                    assert(x[i as int] == (a@[i as int].0@, a@[i as int].1@));
                    assert(y[i as int] == (b@[i as int].0@, b@[i as int].1@));
                    if !a[i].0.same(&b[i].0) {
                        return false;
                    }
                    if !a[i].1.same(&b[i].1) {
                        return false;
                    }
                    i += 1;
                }
                assert(x =~= y);
                true
            },
            _ => false,
        }
    }
}

} // verus!
