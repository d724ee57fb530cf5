//! JSON values, and their reading and printing.
use vstd::prelude::*;
use serde_json::Value;
use crate::util::text;
use crate::util::text::str_eq;

verus! {

/// A JSON number.
#[derive(Debug, PartialEq, Eq)]
pub enum JsonNum {
    /// A whole number that is not negative.
    PosInt(u64),
    /// A negative whole number.
    NegInt(i64),
    /// Any other number, in its printed form.
    Decimal(String),
}

/// A JSON value. An object is kept as its members, in order.
#[derive(Debug, Eq)]
pub enum Json {
    Null,
    Bool(bool),
    Num(JsonNum),
    Str(String),
    Array(Vec<Json>),
    Object(Vec<(String, Json)>),
}

/// What a JSON number is.
pub enum NumV {
    PosInt(u64),
    NegInt(i64),
    Decimal(Seq<char>),
}

/// What a JSON value is.
pub enum JsonV {
    Null,
    Bool(bool),
    Num(NumV),
    Str(Seq<char>),
    Array(Seq<JsonV>),
    Object(Seq<(Seq<char>, JsonV)>),
}

impl View for JsonNum {
    type V = NumV;

    open spec fn view(&self) -> NumV {
        match self {
            JsonNum::PosInt(n) => NumV::PosInt(*n),
            JsonNum::NegInt(n) => NumV::NegInt(*n),
            JsonNum::Decimal(s) => NumV::Decimal(s@),
        }
    }
}

impl Json {
    /// What this value is.
    pub open spec fn tree(&self) -> JsonV
        decreases self,
    {
        match self {
            Json::Null => JsonV::Null,
            Json::Bool(b) => JsonV::Bool(*b),
            Json::Num(n) => JsonV::Num(n@),
            Json::Str(s) => JsonV::Str(s@),
            Json::Array(a) => JsonV::Array(
                Seq::new(
                    a@.len(),
                    |i: int|
                        if 0 <= i < a@.len() {
                            a@[i].tree()
                        } else {
                            JsonV::Null
                        },
                ),
            ),
            Json::Object(m) => JsonV::Object(
                Seq::new(
                    m@.len(),
                    |i: int|
                        if 0 <= i < m@.len() {
                            (m@[i].0@, m@[i].1.tree())
                        } else {
                            (Seq::empty(), JsonV::Null)
                        },
                ),
            ),
        }
    }
}

impl View for Json {
    type V = JsonV;

    open spec fn view(&self) -> JsonV {
        self.tree()
    }
}

/// The value of the first member called `k`.
pub open spec fn member(s: Seq<(Seq<char>, JsonV)>, k: Seq<char>) -> Option<JsonV>
    decreases s.len(),
{
    if s.len() == 0 {
        None
    } else if s[0].0 == k {
        Some(s[0].1)
    } else {
        member(s.drop_first(), k)
    }
}

impl JsonV {
    /// The member `k` of an object; nothing for any other value.
    pub open spec fn get(self, k: Seq<char>) -> Option<JsonV> {
        match self {
            JsonV::Object(m) => member(m, k),
            _ => None,
        }
    }

    /// The text of a string value.
    pub open spec fn text(self) -> Option<Seq<char>> {
        match self {
            JsonV::Str(s) => Some(s),
            _ => None,
        }
    }

    /// The text of the string member `k`.
    pub open spec fn get_text(self, k: Seq<char>) -> Option<Seq<char>> {
        match self.get(k) {
            Some(v) => v.text(),
            None => None,
        }
    }

    /// The elements of an array.
    pub open spec fn items(self) -> Option<Seq<JsonV>> {
        match self {
            JsonV::Array(a) => Some(a),
            _ => None,
        }
    }

    /// The number as an unsigned integer, where it is one.
    pub open spec fn unsigned(self) -> Option<u64> {
        match self {
            JsonV::Num(NumV::PosInt(n)) => Some(n),
            _ => None,
        }
    }

    /// The number as a signed integer, where it fits one.
    pub open spec fn signed(self) -> Option<i64> {
        match self {
            JsonV::Num(NumV::PosInt(n)) => if n <= i64::MAX {
                Some(n as i64)
            } else {
                None
            },
            JsonV::Num(NumV::NegInt(n)) => Some(n),
            _ => None,
        }
    }

    /// The number member `k` as an unsigned integer.
    pub open spec fn get_unsigned(self, k: Seq<char>) -> Option<u64> {
        match self.get(k) {
            Some(v) => v.unsigned(),
            None => None,
        }
    }

    /// The truth value of a boolean.
    pub open spec fn truth(self) -> Option<bool> {
        match self {
            JsonV::Bool(b) => Some(b),
            _ => None,
        }
    }
}

/// Two values are the same JSON value: the members of an object count by their names, not by
/// their order.
pub open spec fn same_json(a: JsonV, b: JsonV) -> bool
    decreases a,
{
    match (a, b) {
        (JsonV::Array(x), JsonV::Array(y)) => x.len() == y.len() && forall|i: int|
            0 <= i < x.len() ==> same_json(#[trigger] x[i], y[i]),
        (JsonV::Object(x), JsonV::Object(y)) => x.len() == y.len() && forall|i: int|
            0 <= i < x.len() ==> (member(y, (#[trigger] x[i]).0) matches Some(v) && same_json(x[i].1, v)),
        (JsonV::Array(_), _) => false,
        (JsonV::Object(_), _) => false,
        _ => a == b,
    }
}

/// What is the same as an object has the same value under each of its names.
pub proof fn lemma_same_member(x: Seq<(Seq<char>, JsonV)>, w: JsonV, i: int)
    requires
        same_json(JsonV::Object(x), w),
        0 <= i < x.len(),
    ensures
        w.get(x[i].0) matches Some(u) && same_json(x[i].1, u),
        x[i].1 is Str ==> w.get(x[i].0) == Some(x[i].1) && w.get_text(x[i].0) == x[i].1.text(),
        x[i].1 is Num ==> w.get(x[i].0) == Some(x[i].1) && w.get_unsigned(x[i].0)
            == x[i].1.unsigned(),
{
    let k = x[i].0;
    let u = w.get(k)->0;
    assert(same_json(x[i].1, u));
}

/// Where all names differ, the first member of a name is the one at its place.
pub proof fn lemma_member_at(m: Seq<(Seq<char>, JsonV)>, i: int)
    requires
        0 <= i < m.len(),
        forall|a: int, b: int|
            0 <= a < m.len() && 0 <= b < m.len() && a != b ==> (#[trigger] m[a]).0 != (
            #[trigger] m[b]).0,
    ensures
        member(m, m[i].0) == Some(m[i].1),
    decreases m.len(),
{
    if i > 0 {
        let t = m.drop_first();
        assert(m[0].0 != m[i].0);
        assert forall|a: int, b: int| 0 <= a < t.len() && 0 <= b < t.len() && a != b implies (
        #[trigger] t[a]).0 != (#[trigger] t[b]).0 by {
            assert(t[a] == m[a + 1] && t[b] == m[b + 1]);
        }
        assert(t[i - 1] == m[i]);
        lemma_member_at(t, i - 1);
    }
}

/// A plain value is the same as itself.
pub proof fn lemma_same_self(v: JsonV)
    requires
        plain(v),
    ensures
        same_json(v, v),
    decreases v,
{
    match v {
        JsonV::Array(a) => {
            assert forall|i: int| 0 <= i < a.len() implies same_json(#[trigger] a[i], a[i]) by {
                lemma_same_self(a[i]);
            }
        },
        JsonV::Object(m) => {
            assert forall|i: int| 0 <= i < m.len() implies (member(m, (#[trigger] m[i]).0) matches Some(w)
                && same_json(m[i].1, w)) by {
                assert(decreases_to!(m => m[i]));
                lemma_same_self(m[i].1);
                lemma_member_at(m, i);
            }
        },
        _ => {},
    }
}

/// What is the same as an object with distinct names has the same names, and no others.
proof fn lemma_same_names(x: Seq<(Seq<char>, JsonV)>, y: Seq<(Seq<char>, JsonV)>)
    requires
        same_json(JsonV::Object(x), JsonV::Object(y)),
        forall|i: int, j: int|
            0 <= i < x.len() && 0 <= j < x.len() && i != j ==> (#[trigger] x[i]).0 != (
            #[trigger] x[j]).0,
    ensures
        forall|i: int, j: int|
            0 <= i < y.len() && 0 <= j < y.len() && i != j ==> (#[trigger] y[i]).0 != (
            #[trigger] y[j]).0,
        forall|j: int|
            0 <= j < y.len() ==> exists|i: int|
                0 <= i < x.len() && (#[trigger] x[i]).0 == (#[trigger] y[j]).0,
{
    let nx = x.map_values(|e: (Seq<char>, JsonV)| e.0);
    let ny = y.map_values(|e: (Seq<char>, JsonV)| e.0);
    assert(nx.no_duplicates()) by {
        assert forall|i: int, j: int| 0 <= i < nx.len() && 0 <= j < nx.len() && i != j implies nx[i]
            != nx[j] by {
            assert(x[i].0 != x[j].0);
        }
    }
    assert(nx.to_set().subset_of(ny.to_set())) by {
        assert forall|k: Seq<char>| nx.to_set().contains(k) implies ny.to_set().contains(k) by {
            let i = choose|i: int| 0 <= i < nx.len() && nx[i] == k;
            assert(x[i].0 == k);
            lemma_member_is(y, k);
            let j = choose|j: int| 0 <= j < y.len() && (#[trigger] y[j]).0 == k;
            assert(ny[j] == k);
        }
    }
    nx.unique_seq_to_set();
    ny.lemma_cardinality_of_set();
    vstd::seq_lib::seq_to_set_is_finite(ny);
    vstd::seq_lib::seq_to_set_is_finite(nx);
    vstd::set_lib::lemma_len_subset(nx.to_set(), ny.to_set());
    ny.lemma_no_dup_set_cardinality();
    vstd::set_lib::lemma_subset_equality(nx.to_set(), ny.to_set());
    assert forall|i: int, j: int| 0 <= i < y.len() && 0 <= j < y.len() && i != j implies (
    #[trigger] y[i]).0 != (#[trigger] y[j]).0 by {
        assert(ny[i] != ny[j]);
    }
    assert forall|j: int| 0 <= j < y.len() implies exists|i: int|
        0 <= i < x.len() && (#[trigger] x[i]).0 == (#[trigger] y[j]).0 by {
        assert(ny.to_set().contains(ny[j]));
        assert(nx.to_set().contains(ny[j]));
        let i = choose|i: int| 0 <= i < nx.len() && nx[i] == ny[j];
        assert(x[i].0 == y[j].0);
    }
}

proof fn lemma_member_is(m: Seq<(Seq<char>, JsonV)>, k: Seq<char>)
    requires
        member(m, k) is Some,
    ensures
        exists|j: int| 0 <= j < m.len() && (#[trigger] m[j]).0 == k,
    decreases m.len(),
{
    if m[0].0 != k {
        lemma_member_is(m.drop_first(), k);
        let j = choose|j: int| 0 <= j < m.drop_first().len() && (#[trigger] m.drop_first()[j]).0 == k;
        assert(m[j + 1].0 == k);
    }
}

/// What is the same as a plain value is plain, and no deeper.
pub proof fn lemma_same_plain(a: JsonV, b: JsonV, depth: nat)
    requires
        same_json(a, b),
        plain(a),
        shallow(a, depth),
    ensures
        plain(b),
        shallow(b, depth),
    decreases a,
{
    match a {
        JsonV::Array(x) => {
            let y = b->Array_0;
            assert forall|i: int| 0 <= i < y.len() implies plain(#[trigger] y[i]) && shallow(
                y[i],
                (depth - 1) as nat,
            ) by {
                assert(same_json(x[i], y[i]));
                lemma_same_plain(x[i], y[i], (depth - 1) as nat);
            }
        },
        JsonV::Object(x) => {
            let y = b->Object_0;
            lemma_same_names(x, y);
            assert forall|j: int| 0 <= j < y.len() implies plain((#[trigger] y[j]).1) && y[j].0
                != reserved_name() && shallow(y[j].1, (depth - 1) as nat) by {
                let i = choose|i: int| 0 <= i < x.len() && (#[trigger] x[i]).0 == y[j].0;
                lemma_member_at(y, j);
                assert(decreases_to!(x => x[i]));
                lemma_same_plain(x[i].1, y[j].1, (depth - 1) as nat);
            }
        },
        _ => {},
    }
}

/// Two values that are the same are both null or both not.
pub proof fn lemma_same_null(a: JsonV, b: JsonV)
    requires
        same_json(a, b),
    ensures
        a == JsonV::Null <==> b == JsonV::Null,
{
}

/// How deep arrays and objects are nested in a value.
pub open spec fn shallow(v: JsonV, depth: nat) -> bool
    decreases v,
{
    match v {
        JsonV::Array(a) => depth > 0 && forall|i: int|
            0 <= i < a.len() ==> shallow(#[trigger] a[i], (depth - 1) as nat),
        JsonV::Object(m) => depth > 0 && forall|i: int|
            0 <= i < m.len() ==> shallow((#[trigger] m[i]).1, (depth - 1) as nat),
        _ => true,
    }
}

/// A name that the reader of `serde_json` takes for a mark of its own: an object whose first
/// member is called so is not read as that object.
pub open spec fn reserved_name() -> Seq<char> {
    "$serde_json::private::RawValue"@
}

/// All numbers within a value are whole, and no object has two members of one name, or one with
/// the reserved name.
pub open spec fn plain(v: JsonV) -> bool
    decreases v,
{
    match v {
        JsonV::Num(NumV::Decimal(_)) => false,
        JsonV::Num(NumV::NegInt(n)) => n < 0,
        JsonV::Array(a) => forall|i: int| 0 <= i < a.len() ==> plain(#[trigger] a[i]),
        JsonV::Object(m) => {
            &&& forall|i: int|
                0 <= i < m.len() ==> plain((#[trigger] m[i]).1) && m[i].0 != reserved_name()
            &&& forall|i: int, j: int|
                0 <= i < m.len() && 0 <= j < m.len() && i != j ==> (#[trigger] m[i]).0 != (
                #[trigger] m[j]).0
        },
        _ => true,
    }
}

/// How deep the reader of `serde_json` follows arrays and objects.
pub open spec fn reader_depth() -> nat {
    127
}

/// A value that reads back as the same value from its printed text: whole numbers, distinct
/// member names that are not reserved, and no deeper than the reader goes.
pub open spec fn storable(v: JsonV) -> bool {
    plain(v) && shallow(v, reader_depth())
}

/// The same names in the same order, each with the same value.
pub open spec fn same_members(a: Seq<(Seq<char>, JsonV)>, b: Seq<(Seq<char>, JsonV)>) -> bool {
    a.len() == b.len() && forall|i: int|
        0 <= i < a.len() ==> (#[trigger] a[i]).0 == b[i].0 && same_json(a[i].1, b[i].1)
}

/// A short name is not the reserved one.
pub proof fn lemma_short_name(name: Seq<char>)
    requires
        name.len() < 30,
    ensures
        name != reserved_name(),
{
    reveal_strlit("$serde_json::private::RawValue");
    assert(reserved_name().len() == 30);
}

/// An object whose members are plain, with short and distinct names, can be stored where its
/// members are no deeper than the reader goes from there.
pub proof fn lemma_record_storable(m: Seq<(Seq<char>, JsonV)>, depth: nat)
    requires
        forall|i: int|
            0 <= i < m.len() ==> plain((#[trigger] m[i]).1) && shallow(m[i].1, depth)
                && m[i].0.len() < 30,
        forall|i: int, j: int|
            0 <= i < m.len() && 0 <= j < m.len() && i != j ==> (#[trigger] m[i]).0 != (
            #[trigger] m[j]).0,
    ensures
        plain(JsonV::Object(m)),
        shallow(JsonV::Object(m), depth + 1),
{
    assert forall|i: int| 0 <= i < m.len() implies plain((#[trigger] m[i]).1) && m[i].0
        != reserved_name() by {
        lemma_short_name(m[i].0);
    }
}

/// The view of an optional reference to a value.
pub open spec fn opt_view(o: Option<&Json>) -> Option<JsonV> {
    match o {
        Some(j) => Some(j@),
        None => None,
    }
}

impl Json {
    /// A copy of this value.
    pub fn dup(&self) -> (r: Json)
        ensures
            r@ == self@,
        decreases self,
    {
        match self {
            Json::Null => Json::Null,
            Json::Bool(b) => Json::Bool(*b),
            Json::Num(n) => match n {
                JsonNum::PosInt(k) => Json::Num(JsonNum::PosInt(*k)),
                JsonNum::NegInt(k) => Json::Num(JsonNum::NegInt(*k)),
                JsonNum::Decimal(s) => Json::Num(JsonNum::Decimal(s.clone())),
            },
            Json::Str(s) => Json::Str(s.clone()),
            Json::Array(a) => {
                let mut out: Vec<Json> = Vec::new();
                let mut i: usize = 0;
                while i < a.len()
                    invariant
                        i <= a@.len(),
                        out@.len() == i,
                        *self == Json::Array(*a),
                        forall|j: int| 0 <= j < i ==> (#[trigger] out@[j])@ == a@[j]@,
                    decreases a@.len() - i,
                {
                    assert(decreases_to!(*self => (*self)->Array_0));
                    assert(decreases_to!((*self)->Array_0 => (*self)->Array_0@));
                    assert(decreases_to!((*self)->Array_0@ => (*self)->Array_0@[i as int]));
                    out.push(a[i].dup());
                    i += 1;
                }
                let r = Json::Array(out);
                assert(r@->Array_0 =~= self@->Array_0);
                r
            },
            Json::Object(m) => {
                let mut out: Vec<(String, Json)> = Vec::new();
                let mut i: usize = 0;
                while i < m.len()
                    invariant
                        i <= m@.len(),
                        out@.len() == i,
                        *self == Json::Object(*m),
                        forall|j: int|
                            0 <= j < i ==> (#[trigger] out@[j]).0@ == m@[j].0@ && out@[j].1@
                                == m@[j].1@,
                    decreases m@.len() - i,
                {
                    let e = &m[i];
                    assert(decreases_to!(*self => (*self)->Object_0));
                    assert(decreases_to!((*self)->Object_0 => (*self)->Object_0@));
                    assert(decreases_to!((*self)->Object_0@ => (*self)->Object_0@[i as int]));
                    assert(decreases_to!((*self)->Object_0@[i as int] => (*self)->Object_0@[i as int].1));
                    out.push((e.0.clone(), e.1.dup()));
                    i += 1;
                }
                let r = Json::Object(out);
                assert(r@->Object_0 =~= self@->Object_0);
                r
            },
        }
    }

    /// Whether two values are the same JSON value.
    pub fn same(&self, other: &Json) -> (r: bool)
        ensures
            r == same_json(self@, other@),
        decreases self,
    {
        match (self, other) {
            (Json::Null, Json::Null) => true,
            (Json::Bool(a), Json::Bool(b)) => *a == *b,
            (Json::Num(a), Json::Num(b)) => match (a, b) {
                (JsonNum::PosInt(x), JsonNum::PosInt(y)) => *x == *y,
                (JsonNum::NegInt(x), JsonNum::NegInt(y)) => *x == *y,
                (JsonNum::Decimal(x), JsonNum::Decimal(y)) => *x == *y,
                _ => false,
            },
            (Json::Str(a), Json::Str(b)) => *a == *b,
            (Json::Array(a), Json::Array(b)) => {
                if a.len() != b.len() {
                    return false;
                }
                let ghost x = self@->Array_0;
                let ghost y = other@->Array_0;
                let mut i: usize = 0;
                while i < a.len()
                    invariant
                        i <= a@.len(),
                        a@.len() == b@.len(),
                        *self == Json::Array(*a),
                        *other == Json::Array(*b),
                        self@ == JsonV::Array(x),
                        other@ == JsonV::Array(y),
                        x.len() == a@.len(),
                        y.len() == b@.len(),
                        forall|j: int| 0 <= j < i ==> same_json(#[trigger] x[j], y[j]),
                    decreases a@.len() - i,
                {
                    assert(decreases_to!(*self => (*self)->Array_0));
                    assert(decreases_to!((*self)->Array_0 => (*self)->Array_0@));
                    assert(decreases_to!((*self)->Array_0@ => (*self)->Array_0@[i as int]));
                    assert(x[i as int] == a@[i as int]@);
                    assert(y[i as int] == b@[i as int]@);
                    if !a[i].same(&b[i]) {
                        assert(!same_json(x[i as int], y[i as int]));
                        return false;
                    }
                    i += 1;
                }
                true
            },
            (Json::Object(a), Json::Object(b)) => {
                if a.len() != b.len() {
                    return false;
                }
                let ghost x = self@->Object_0;
                let ghost y = other@->Object_0;
                let mut i: usize = 0;
                while i < a.len()
                    invariant
                        i <= a@.len(),
                        a@.len() == b@.len(),
                        *self == Json::Object(*a),
                        *other == Json::Object(*b),
                        self@ == JsonV::Object(x),
                        other@ == JsonV::Object(y),
                        x.len() == a@.len(),
                        y.len() == b@.len(),
                        forall|j: int|
                            0 <= j < i ==> (member(y, (#[trigger] x[j]).0) matches Some(v)
                                && same_json(x[j].1, v)),
                    decreases a@.len() - i,
                {
                    assert(decreases_to!(*self => (*self)->Object_0));
                    assert(decreases_to!((*self)->Object_0 => (*self)->Object_0@));
                    assert(decreases_to!((*self)->Object_0@ => (*self)->Object_0@[i as int]));
                    assert(decreases_to!((*self)->Object_0@[i as int] => (*self)->Object_0@[i as int].1));
                    let e = &a[i];
                    assert(x[i as int] == (e.0@, e.1@));
                    match other.get(e.0.as_str()) {
                        Some(v) => {
                            if !e.1.same(v) {
                                return false;
                            }
                        },
                        None => {
                            return false;
                        },
                    }
                    i += 1;
                }
                true
            },
            _ => {
                assert(self@ != other@);
                false
            },
        }
    }

    /// The first member called `k`, where this is an object that has one.
    pub fn get(&self, k: &str) -> (r: Option<&Json>)
        ensures
            opt_view(r) == self@.get(k@),
    {
        match self {
            Json::Object(m) => {
                let mut i: usize = 0;
                let ghost all = self@->Object_0;
                assert(all.skip(0) =~= all);
                while i < m.len()
                    invariant
                        i <= m@.len(),
                        *self == Json::Object(*m),
                        all == self@->Object_0,
                        all.len() == m@.len(),
                        member(all, k@) == member(all.skip(i as int), k@),
                    decreases m@.len() - i,
                {
                    let e = &m[i];
                    assert(all[i as int] == (e.0@, e.1@));
                    let ghost rest = all.skip(i as int);
                    assert(rest[0] == all[i as int]);
                    assert(rest.drop_first() =~= all.skip(i as int + 1));
                    if str_eq(e.0.as_str(), k) {
                        return Some(&e.1);
                    }
                    i += 1;
                }
                None
            },
            _ => None,
        }
    }

    /// The text of a string value.
    pub fn as_str(&self) -> (r: Option<&String>)
        ensures
            r is Some <==> self@.text() is Some,
            r matches Some(s) ==> self@.text() == Some(s@),
    {
        match self {
            Json::Str(s) => Some(s),
            _ => None,
        }
    }

    /// The text of the string member `k`.
    pub fn get_str(&self, k: &str) -> (r: Option<&String>)
        ensures
            r is Some <==> self@.get_text(k@) is Some,
            r matches Some(s) ==> self@.get_text(k@) == Some(s@),
    {
        match self.get(k) {
            Some(v) => v.as_str(),
            None => None,
        }
    }

    /// The elements of an array.
    pub fn as_array(&self) -> (r: Option<&Vec<Json>>)
        ensures
            r is Some <==> self@.items() is Some,
            r matches Some(a) ==> {
                &&& self@.items() == Some(array_view(a@))
                &&& self@.items()->0.len() == a@.len()
            },
    {
        match self {
            Json::Array(a) => {
                assert(self@->Array_0 =~= array_view(a@));
                Some(a)
            },
            _ => None,
        }
    }

    /// The number as an unsigned integer, where it is one.
    pub fn as_u64(&self) -> (r: Option<u64>)
        ensures
            r == self@.unsigned(),
    {
        match self {
            Json::Num(JsonNum::PosInt(n)) => Some(*n),
            _ => None,
        }
    }

    /// The number as a signed integer, where it fits one.
    pub fn as_i64(&self) -> (r: Option<i64>)
        ensures
            r == self@.signed(),
    {
        match self {
            Json::Num(JsonNum::PosInt(n)) => if *n <= 0x7fff_ffff_ffff_ffff {
                Some(*n as i64)
            } else {
                None
            },
            Json::Num(JsonNum::NegInt(n)) => Some(*n),
            _ => None,
        }
    }

    /// The number member `k` as an unsigned integer.
    pub fn get_u64(&self, k: &str) -> (r: Option<u64>)
        ensures
            r == self@.get_unsigned(k@),
    {
        match self.get(k) {
            Some(v) => v.as_u64(),
            None => None,
        }
    }

    /// The truth value of a boolean.
    pub fn as_bool(&self) -> (r: Option<bool>)
        ensures
            r == self@.truth(),
    {
        match self {
            Json::Bool(b) => Some(*b),
            _ => None,
        }
    }
}

impl Json {
    /// Reads a value from its text.
    pub fn parse(text: &str) -> (r: Result<Json, String>)
        ensures
            parse_view(r) == json_parsed(text@),
    {
        parse_json(text)
    }

    /// The text of this value, on one line. The members of objects come in the order of their
    /// names. Reading the text gives the same value back, where its numbers are whole, its names
    /// distinct and not reserved, and its nesting not too deep.
    pub fn to_text(&self) -> (r: String)
        ensures
            r@ == json_text(self@),
            storable(self@) ==> reads_back(r@, self@),
            r@.len() > 0 && !text::is_white(r@[0]),
    {
        print_json(self)
    }

    /// The text of this value, on one line. The members of an object come in their own order,
    /// those of objects within it in the order of their names. Reading the text gives the same
    /// value back, where its numbers are whole, its names distinct and not reserved, and its
    /// nesting not too deep. Another record with the same members prints the same.
    pub fn to_record(&self) -> (r: String)
        ensures
            r@ == record_text(self@),
            storable(self@) ==> reads_back(r@, self@),
            r@.len() > 0 && !text::is_white(r@[0]),
            self@ matches JsonV::Object(m) ==> (plain(self@) ==> forall|n: Seq<(Seq<char>, JsonV)>|
                same_members(m, n) ==> #[trigger] json_record(n) == r@),
    {
        match self {
            Json::Object(m) => {
                proof {
                    lemma_object_tree(*m);
                }
                print_record(m)
            },
            _ => print_json(self),
        }
    }

    /// The text of this value, with line breaks and indentation. Reading it gives the same value
    /// back, where its numbers are whole, its names distinct and not reserved, and its nesting
    /// not too deep.
    pub fn to_pretty(&self) -> (r: String)
        ensures
            r@ == json_pretty(self@),
            storable(self@) ==> reads_back(r@, self@),
    {
        print_json_pretty(self)
    }
}

impl PartialEq for Json {
    fn eq(&self, other: &Json) -> (r: bool) {
        self.same(other)
    }
}

impl vstd::std_specs::cmp::PartialEqSpecImpl for Json {
    open spec fn obeys_eq_spec() -> bool {
        true
    }

    open spec fn eq_spec(&self, other: &Json) -> bool {
        same_json(self@, other@)
    }
}

impl Clone for Json {
    fn clone(&self) -> (r: Json)
        ensures
            r@ == self@,
    {
        self.dup()
    }
}

/// What the names of a list are.
pub open spec fn names_view(s: Seq<&str>) -> Seq<Seq<char>> {
    Seq::new(s.len(), |i: int| s[i]@)
}

/// Values under their names.
pub open spec fn named(names: Seq<Seq<char>>, values: Seq<JsonV>) -> Seq<(Seq<char>, JsonV)> {
    Seq::new(values.len(), |i: int| (names[i], values[i]))
}

/// A record may be written as an object, or as a list of its values in the order of their names,
/// of which only the first `least` have to be there. Such a list is taken for the object; a list
/// with fewer values or more is no record.
pub open spec fn record(v: JsonV, names: Seq<Seq<char>>, least: nat) -> JsonV {
    match v {
        JsonV::Array(a) => if least <= a.len() <= names.len() {
            JsonV::Object(named(names, a))
        } else {
            JsonV::Null
        },
        _ => v,
    }
}

impl Json {
    /// This record as an object.
    pub fn as_record(&self, names: &Vec<&str>, least: usize) -> (r: Json)
        ensures
            r@ == record(self@, names_view(names@), least as nat),
    {
        match self {
            Json::Array(a) => {
                let ghost vs = array_view(a@);
                let ghost ns = names_view(names@);
                proof {
                    lemma_array_tree(*a);
                }
                if a.len() < least || a.len() > names.len() {
                    return Json::Null;
                }
                let mut o = ObjectBuilder::new();
                let mut i: usize = 0;
                assert(o@ =~= named(ns, vs).take(0));
                while i < a.len()
                    invariant
                        i <= a@.len() <= names@.len(),
                        vs == array_view(a@),
                        ns == names_view(names@),
                        o@ == named(ns, vs).take(i as int),
                    decreases a@.len() - i,
                {
                    o.put(names[i], a[i].dup());
                    i += 1;
                    assert(o@ =~= named(ns, vs).take(i as int));
                }
                assert(named(ns, vs).take(i as int) =~= named(ns, vs));
                o.build()
            },
            _ => self.dup(),
        }
    }
}

/// The texts among `a`, in order; other values are left out.
pub open spec fn texts(a: Seq<JsonV>) -> Seq<Seq<char>>
    decreases a.len(),
{
    if a.len() == 0 {
        Seq::empty()
    } else {
        match a.last().text() {
            Some(s) => texts(a.drop_last()).push(s),
            None => texts(a.drop_last()),
        }
    }
}

/// What the values of a list are.
pub open spec fn array_view(s: Seq<Json>) -> Seq<JsonV> {
    s.map_values(|j: Json| j@)
}

/// The value of a member list.
pub open spec fn members_view(s: Seq<(String, Json)>) -> Seq<(Seq<char>, JsonV)> {
    s.map_values(|e: (String, Json)| (e.0@, e.1@))
}

/// The strings of an array value; other elements are left out.
pub fn collect_texts(a: &Vec<Json>) -> (r: Vec<String>)
    ensures
        text::strings_view(r@) == texts(array_view(a@)),
{
    let mut out: Vec<String> = Vec::new();
    let ghost v = array_view(a@);
    let mut i: usize = 0;
    assert(v.take(0) =~= Seq::<JsonV>::empty());
    assert(text::strings_view(out@) =~= Seq::<Seq<char>>::empty());
    while i < a.len()
        invariant
            i <= a@.len(),
            v == array_view(a@),
            text::strings_view(out@) == texts(v.take(i as int)),
        decreases a@.len() - i,
    {
        let ghost before = out@;
        assert(v.take(i as int + 1).drop_last() =~= v.take(i as int));
        assert(v.take(i as int + 1).last() == a@[i as int]@);
        if let Some(s) = a[i].as_str() {
            out.push(s.clone());
            assert(text::strings_view(out@) =~= text::strings_view(before).push(s@));
        }
        i += 1;
    }
    assert(v.take(i as int) =~= v);
    out
}

/// An array value holds what its elements are.
pub proof fn lemma_array_tree(a: Vec<Json>)
    ensures
        Json::Array(a)@ == JsonV::Array(array_view(a@)),
{
    assert(Json::Array(a)@->Array_0 =~= array_view(a@));
}

/// An object value holds what its members are.
pub proof fn lemma_object_tree(m: Vec<(String, Json)>)
    ensures
        Json::Object(m)@ == JsonV::Object(members_view(m@)),
{
    assert(Json::Object(m)@->Object_0 =~= members_view(m@));
}

/// An object builder: members are added one after the other.
pub struct ObjectBuilder {
    members: Vec<(String, Json)>,
}

impl View for ObjectBuilder {
    type V = Seq<(Seq<char>, JsonV)>;

    closed spec fn view(&self) -> Seq<(Seq<char>, JsonV)> {
        members_view(self.members@)
    }
}

impl ObjectBuilder {
    /// No members yet.
    pub fn new() -> (r: Self)
        ensures
            r@ == Seq::<(Seq<char>, JsonV)>::empty(),
    {
        let r = ObjectBuilder { members: Vec::new() };
        assert(r@ =~= Seq::<(Seq<char>, JsonV)>::empty());
        r
    }

    /// Adds one member at the end.
    pub fn put(&mut self, k: &str, v: Json)
        ensures
            final(self)@ == old(self)@.push((k@, v@)),
    {
        self.members.push((k.to_owned(), v));
        assert(self@ =~= old(self)@.push((k@, v@)));
    }

    /// Adds one string member at the end.
    pub fn put_str(&mut self, k: &str, v: &str)
        ensures
            final(self)@ == old(self)@.push((k@, JsonV::Str(v@))),
    {
        self.put(k, Json::Str(v.to_owned()));
    }

    /// Adds one number member at the end.
    pub fn put_u64(&mut self, k: &str, v: u64)
        ensures
            final(self)@ == old(self)@.push((k@, JsonV::Num(NumV::PosInt(v)))),
    {
        self.put(k, Json::Num(JsonNum::PosInt(v)));
    }

    /// The object with the members added.
    pub fn build(self) -> (r: Json)
        ensures
            r@ == JsonV::Object(self@),
    {
        proof {
            lemma_object_tree(self.members);
        }
        Json::Object(self.members)
    }
}

/// A JSON value as `serde_json` keeps it.
#[verifier::external_type_specification]
#[verifier::external_body]
pub struct ExValue(serde_json::Value);

/// What [`serde_json::from_str`] reads from a text: the value, or the error's message.
pub uninterp spec fn json_parsed(text: Seq<char>) -> Result<JsonV, Seq<char>>;

/// The text that [`serde_json::Value`] prints for a value on one line.
pub uninterp spec fn json_text(v: JsonV) -> Seq<char>;

/// The text that [`serde_json::to_string_pretty`] prints for a value.
pub uninterp spec fn json_pretty(v: JsonV) -> Seq<char>;

/// The text that the serializer of `serde_json` writes for members in their order.
pub uninterp spec fn json_record(m: Seq<(Seq<char>, JsonV)>) -> Seq<char>;

/// The text of a value whose members come in their own order.
pub open spec fn record_text(v: JsonV) -> Seq<char> {
    match v {
        JsonV::Object(m) => json_record(m),
        _ => json_text(v),
    }
}

/// Reading the text gives the same value as `v`.
pub open spec fn reads_back(text: Seq<char>, v: JsonV) -> bool {
    json_parsed(text) matches Ok(w) && same_json(v, w)
}

/// What a reading gave.
pub open spec fn parse_view(r: Result<Json, String>) -> Result<JsonV, Seq<char>> {
    match r {
        Ok(j) => Ok(j@),
        Err(e) => Err(e@),
    }
}

/// Changes a `serde_json` value to a [`Json`], member by member. Nothing is stated of it.
#[verifier::external_body]
fn json_from_value(v: Value) -> (r: Json) {
    match v {
        Value::Null => Json::Null,
        Value::Bool(b) => Json::Bool(b),
        Value::Number(n) => match (n.as_u64(), n.as_i64()) {
            (Some(u), _) => Json::Num(JsonNum::PosInt(u)),
            (None, Some(i)) => Json::Num(JsonNum::NegInt(i)),
            (None, None) => Json::Num(JsonNum::Decimal(n.to_string())),
        },
        Value::String(s) => Json::Str(s),
        Value::Array(a) => Json::Array(a.into_iter().map(json_from_value).collect()),
        Value::Object(m) => Json::Object(
            m.into_iter().map(|(k, w)| (k, json_from_value(w))).collect(),
        ),
    }
}

/// Changes a [`Json`] to a `serde_json` value, member by member. Nothing is stated of it.
#[verifier::external_body]
fn json_to_value(j: &Json) -> (r: Value) {
    match j {
        Json::Null => Value::Null,
        Json::Bool(b) => Value::Bool(*b),
        Json::Num(JsonNum::PosInt(n)) => Value::from(*n),
        Json::Num(JsonNum::NegInt(n)) => Value::from(*n),
        Json::Num(JsonNum::Decimal(s)) => s.parse().map_or(Value::Null, Value::Number),
        Json::Str(s) => Value::String(s.clone()),
        Json::Array(a) => Value::Array(a.iter().map(json_to_value).collect()),
        Json::Object(m) => Value::Object(
            m.iter().map(|(k, w)| (k.clone(), json_to_value(w))).collect(),
        ),
    }
}

/// Calls [`serde_json::from_str`]: the value that the text holds, or the message of the
/// error that it gives. The result depends on the text alone. Not stated: of members with one
/// name only the last is kept, so a record in which a name occurs twice is not told from one in
/// which it occurs once.
#[verifier::external_body]
pub(crate) fn parse_json(text: &str) -> (r: Result<Json, String>)
    ensures
        parse_view(r) == json_parsed(text@),
{
    match serde_json::from_str::<Value>(text) {
        Ok(v) => Ok(json_from_value(v)),
        Err(e) => Err(e.to_string()),
    }
}

/// Calls `to_string` on a [`serde_json::Value`]: its text on one line. The result depends
/// on the value alone. Reading the text of a value with whole numbers and distinct names that
/// are not reserved, no deeper than the reader goes, gives the same value back. Of a value with
/// other numbers this is not stated: its digits may be rounded when they are read. The text does
/// not begin with white space.
#[verifier::external_body]
pub(crate) fn print_json(j: &Json) -> (r: String)
    ensures
        r@ == json_text(j@),
        storable(j@) ==> reads_back(r@, j@),
        r@.len() > 0 && !text::is_white(r@[0]),
{
    json_to_value(j).to_string()
}

/// Calls [`serde_json::to_string_pretty`] on a value, which cannot fail on one whose keys
/// are strings. The result depends on the value alone. Reading the text of a value with whole
/// numbers and distinct names that are not reserved, no deeper than the reader goes, gives the
/// same value back.
#[verifier::external_body]
pub(crate) fn print_json_pretty(j: &Json) -> (r: String)
    ensures
        r@ == json_pretty(j@),
        storable(j@) ==> reads_back(r@, j@),
{
    let v = json_to_value(j);
    serde_json::to_string_pretty(&v).unwrap_or_else(|_| v.to_string())
}

/// Calls `collect_map` on a [`serde_json::Serializer`] that writes to memory, which cannot fail
/// for keys that are strings: the members on one line, in their order; each value is printed as
/// [`serde_json::Value`] prints it. The result depends on the members alone. Reading the text of
/// members with whole numbers and distinct names that are not reserved, no deeper than the reader
/// goes, gives the same object back. Members with the same names and the same values print the
/// same, since the objects within them are printed in the order of their names. The text does not
/// begin with white space.
#[verifier::external_body]
fn print_record(m: &Vec<(String, Json)>) -> (r: String)
    ensures
        r@ == json_record(members_view(m@)),
        storable(JsonV::Object(members_view(m@))) ==> reads_back(
            r@,
            JsonV::Object(members_view(m@)),
        ),
        plain(JsonV::Object(members_view(m@))) ==> forall|n: Seq<(Seq<char>, JsonV)>|
            same_members(members_view(m@), n) ==> #[trigger] json_record(n) == r@,
        r@.len() > 0 && !text::is_white(r@[0]),
{
    let mut out: Vec<u8> = Vec::new();
    let items = m.iter().map(|e| (&e.0, json_to_value(&e.1)));
    let mut writer = serde_json::Serializer::new(&mut out);
    let _written = serde::Serializer::collect_map(&mut writer, items);
    String::from_utf8(out).unwrap_or_default()
}

/// The texts of a list are its strings, in order; nothing else in it counts.
pub proof fn law_texts_of_list(a: Seq<JsonV>)
    ensures
        texts(a) == a.filter(|v: JsonV| v is Str).map_values(|v: JsonV| v->Str_0),
    decreases a.len(),
{
    reveal(Seq::filter);
    if a.len() > 0 {
        law_texts_of_list(a.drop_last());
    }
    assert(texts(a) =~= a.filter(|v: JsonV| v is Str).map_values(|v: JsonV| v->Str_0));
}

/// A record that is written as a list has each value under the name of its place.
pub proof fn law_record_by_place(a: Seq<JsonV>, names: Seq<Seq<char>>, least: nat, i: int)
    requires
        names.no_duplicates(),
        least <= a.len() <= names.len(),
        0 <= i < a.len(),
    ensures
        record(JsonV::Array(a), names, least).get(names[i]) == Some(a[i]),
{
    let m = named(names, a);
    assert forall|x: int, y: int| 0 <= x < m.len() && 0 <= y < m.len() && x != y implies (
    #[trigger] m[x]).0 != (#[trigger] m[y]).0 by {
        assert(names[x] != names[y]);
    }
    lemma_member_at(m, i);
}

/// The first member with a name is the one that is found; without such a member nothing is.
pub proof fn law_first_member_found(m: Seq<(Seq<char>, JsonV)>, k: Seq<char>)
    ensures
        JsonV::Object(m).get(k) is None <==> forall|i: int|
            0 <= i < m.len() ==> (#[trigger] m[i]).0 != k,
        JsonV::Object(m).get(k) matches Some(v) ==> exists|i: int|
            0 <= i < m.len() && (#[trigger] m[i]).0 == k && m[i].1 == v && (forall|j: int|
                0 <= j < i ==> (#[trigger] m[j]).0 != k),
    decreases m.len(),
{
    if m.len() > 0 && m[0].0 != k {
        let t = m.drop_first();
        law_first_member_found(t, k);
        if member(t, k) is Some {
            let v = member(t, k)->0;
            let i = choose|i: int|
                0 <= i < t.len() && (#[trigger] t[i]).0 == k && t[i].1 == v && (forall|j: int|
                    0 <= j < i ==> (#[trigger] t[j]).0 != k);
            assert(m[i + 1] == t[i]);
            assert forall|j: int| 0 <= j < i + 1 implies (#[trigger] m[j]).0 != k by {
                if j > 0 {
                    assert(t[j - 1] == m[j]);
                }
            }
        } else {
            assert forall|i: int| 0 <= i < m.len() implies (#[trigger] m[i]).0 != k by {
                if i > 0 {
                    assert(t[i - 1] == m[i]);
                }
            }
        }
    } else if m.len() > 0 {
        assert(m[0].0 == k);
    }
}

} // verus!
