//! A map kept as a list of entries with distinct keys.
use vstd::prelude::*;
use crate::util::text;

verus! {

/// A key that is told apart by a mathematical identity.
pub trait MapKey: Sized {
    /// What identifies a key.
    type Id;

    /// The identity of this key.
    spec fn id(&self) -> Self::Id;

    /// Whether two keys are the same.
    fn same(&self, other: &Self) -> (r: bool)
        ensures
            r == (self.id() == other.id()),
    ;

    /// A second key with the same identity.
    fn dup(&self) -> (r: Self)
        ensures
            r.id() == self.id(),
    ;
}

impl MapKey for String {
    type Id = Seq<char>;

    open spec fn id(&self) -> Seq<char> {
        self@
    }

    fn same(&self, other: &Self) -> (r: bool) {
        *self == *other
    }

    fn dup(&self) -> (r: Self) {
        self.clone()
    }
}

impl MapKey for u64 {
    type Id = u64;

    open spec fn id(&self) -> u64 {
        *self
    }

    fn same(&self, other: &Self) -> (r: bool) {
        *self == *other
    }

    fn dup(&self) -> (r: Self) {
        *self
    }
}

impl MapKey for (String, String) {
    type Id = (Seq<char>, Seq<char>);

    open spec fn id(&self) -> (Seq<char>, Seq<char>) {
        (self.0@, self.1@)
    }

    fn same(&self, other: &Self) -> (r: bool) {
        self.0 == other.0 && self.1 == other.1
    }

    fn dup(&self) -> (r: Self) {
        (self.0.clone(), self.1.clone())
    }
}

/// A finite map from `K` to `V`. No key occurs twice among its entries.
pub struct AssocMap<K: MapKey, V> {
    entries: Vec<(K, V)>,
}

/// The map that a list of entries with distinct keys stands for.
pub open spec fn entries_map<K: MapKey, V>(s: Seq<(K, V)>) -> Map<K::Id, V>
    decreases s.len(),
{
    if s.len() == 0 {
        Map::empty()
    } else {
        entries_map(s.drop_last()).insert(s.last().0.id(), s.last().1)
    }
}

/// No two entries have the same key.
pub open spec fn distinct_keys<K: MapKey, V>(s: Seq<(K, V)>) -> bool {
    forall|i: int, j: int|
        0 <= i < s.len() && 0 <= j < s.len() && i != j ==> (#[trigger] s[i]).0.id() != (
        #[trigger] s[j]).0.id()
}

/// Every entry is found in the map, and every key of the map has an entry.
pub proof fn lemma_entries_map<K: MapKey, V>(s: Seq<(K, V)>)
    requires
        distinct_keys(s),
    ensures
        forall|i: int|
            0 <= i < s.len() ==> entries_map(s).dom().contains((#[trigger] s[i]).0.id())
                && entries_map(s)[s[i].0.id()] == s[i].1,
        forall|k: K::Id| #[trigger]
            entries_map(s).dom().contains(k) ==> exists|i: int|
                0 <= i < s.len() && (#[trigger] s[i]).0.id() == k,
        entries_map(s).dom().finite(),
        entries_map(s).dom().len() == s.len(),
    decreases s.len(),
{
    if s.len() > 0 {
        let t = s.drop_last();
        assert(distinct_keys(t)) by {
            assert forall|i: int, j: int|
                0 <= i < t.len() && 0 <= j < t.len() && i != j implies (#[trigger] t[i]).0.id() != (
            #[trigger] t[j]).0.id() by {
                assert(t[i] == s[i] && t[j] == s[j]);
            }
        }
        lemma_entries_map(t);
        let last = s.len() - 1;
        assert(!entries_map(t).dom().contains(s[last].0.id())) by {
            if entries_map(t).dom().contains(s[last].0.id()) {
                let i = choose|i: int| 0 <= i < t.len() && (#[trigger] t[i]).0.id() == s[last].0.id();
                assert(t[i] == s[i]);
            }
        }
        assert forall|i: int| 0 <= i < s.len() implies entries_map(s).dom().contains(
            (#[trigger] s[i]).0.id(),
        ) && entries_map(s)[s[i].0.id()] == s[i].1 by {
            if i < last {
                assert(t[i] == s[i]);
            }
        }
        assert forall|k: K::Id| #[trigger] entries_map(s).dom().contains(k) implies exists|i: int|
            0 <= i < s.len() && (#[trigger] s[i]).0.id() == k by {
            if k == s[last].0.id() {
                assert(s[last].0.id() == k);
            } else {
                assert(entries_map(t).dom().contains(k));
                let i = choose|i: int| 0 <= i < t.len() && (#[trigger] t[i]).0.id() == k;
                assert(t[i] == s[i]);
            }
        }
    }
}

/// Two lists with distinct keys that hold the same entries stand for the same map.
proof fn lemma_same_map<K: MapKey, V>(s: Seq<(K, V)>, m: Map<K::Id, V>)
    requires
        distinct_keys(s),
        forall|i: int|
            0 <= i < s.len() ==> m.dom().contains((#[trigger] s[i]).0.id()) && m[s[i].0.id()]
                == s[i].1,
        forall|k: K::Id| #[trigger]
            m.dom().contains(k) ==> exists|i: int| 0 <= i < s.len() && (#[trigger] s[i]).0.id()
                == k,
    ensures
        entries_map(s) == m,
{
    lemma_entries_map(s);
    let e = entries_map(s);
    assert forall|k: K::Id| e.dom().contains(k) == m.dom().contains(k) by {
        if m.dom().contains(k) {
            let i = choose|i: int| 0 <= i < s.len() && (#[trigger] s[i]).0.id() == k;
            assert(e.dom().contains(s[i].0.id()));
        }
        if e.dom().contains(k) {
            let i = choose|i: int| 0 <= i < s.len() && (#[trigger] s[i]).0.id() == k;
            assert(m.dom().contains(s[i].0.id()));
        }
    }
    assert forall|k: K::Id| e.dom().contains(k) implies e[k] == m[k] by {
        let i = choose|i: int| 0 <= i < s.len() && (#[trigger] s[i]).0.id() == k;
        assert(e[s[i].0.id()] == s[i].1);
    }
    assert(e =~= m);
}

impl<K: MapKey, V> View for AssocMap<K, V> {
    type V = Map<K::Id, V>;

    closed spec fn view(&self) -> Map<K::Id, V> {
        entries_map(self.entries@)
    }
}

impl<K: MapKey, V> AssocMap<K, V> {
    #[verifier::type_invariant]
    spec fn inv(self) -> bool {
        distinct_keys(self.entries@)
    }

    /// The entries in the order in which they are kept.
    pub closed spec fn order(&self) -> Seq<(K, V)> {
        self.entries@
    }

    /// The empty map.
    pub fn new() -> (r: Self)
        ensures
            r@ == Map::<K::Id, V>::empty(),
            r.order().len() == 0,
    {
        let r = AssocMap { entries: Vec::new() };
        assert(r@ =~= Map::<K::Id, V>::empty());
        r
    }

    /// Ties the entry list to the map that it stands for.
    pub(crate) fn facts(&self)
        ensures
            distinct_keys(self.order()),
            self@ == entries_map(self.order()),
            self@.dom().finite(),
            self@.dom().len() == self.order().len(),
            self.order().len() <= usize::MAX,
            forall|i: int|
                0 <= i < self.order().len() ==> self@.dom().contains(
                    (#[trigger] self.order()[i]).0.id(),
                ) && self@[self.order()[i].0.id()] == self.order()[i].1,
            forall|k: K::Id| #[trigger]
                self@.dom().contains(k) ==> exists|i: int|
                    0 <= i < self.order().len() && (#[trigger] self.order()[i]).0.id() == k,
    {
        proof {
            use_type_invariant(self);
            lemma_entries_map(self.entries@);
        }
        let n: usize = self.entries.len();
    }

    /// How many entries the map has.
    pub fn len(&self) -> (r: usize)
        ensures
            r == self@.dom().len(),
            r == self.order().len(),
            self@.dom().finite(),
    {
        self.facts();
        self.entries.len()
    }

    /// The entry at position `i`.
    pub fn entry(&self, i: usize) -> (r: (&K, &V))
        requires
            i < self.order().len(),
        ensures
            *r.0 == self.order()[i as int].0,
            *r.1 == self.order()[i as int].1,
            self@.dom().contains(r.0.id()),
            self@[r.0.id()] == *r.1,
    {
        self.facts();
        let e = &self.entries[i];
        (&e.0, &e.1)
    }

    /// The position of a key, or the number of entries where it has none.
    fn position(&self, k: &K) -> (r: usize)
        ensures
            r <= self.entries@.len(),
            r < self.entries@.len() <==> self@.dom().contains(k.id()),
            r < self.entries@.len() ==> self.entries@[r as int].0.id() == k.id()
                && self@[k.id()] == self.entries@[r as int].1,
    {
        self.facts();
        let n: usize = self.entries.len();
        let mut i: usize = 0;
        while i < n
            invariant
                n == self.entries@.len(),
                i <= n,
                self.order() == self.entries@,
                forall|j: int| 0 <= j < i ==> (#[trigger] self.entries@[j]).0.id() != k.id(),
                forall|j: int|
                    0 <= j < self.order().len() ==> self@.dom().contains(
                        (#[trigger] self.order()[j]).0.id(),
                    ) && self@[self.order()[j].0.id()] == self.order()[j].1,
            decreases n - i,
        {
            if self.entries[i].0.same(k) {
                assert(self.order()[i as int].0.id() == k.id());
                return i;
            }
            i += 1;
        }
        i
    }

    /// Whether the map has an entry for `k`.
    pub fn contains_key(&self, k: &K) -> (r: bool)
        ensures
            r == self@.dom().contains(k.id()),
    {
        self.position(k) < self.entries.len()
    }

    /// The value kept for `k`.
    pub fn get(&self, k: &K) -> (r: Option<&V>)
        ensures
            r is Some <==> self@.dom().contains(k.id()),
            r matches Some(v) ==> *v == self@[k.id()],
    {
        let i: usize = self.position(k);
        if i < self.entries.len() {
            Some(&self.entries[i].1)
        } else {
            None
        }
    }

    /// Keeps `v` for `k`, in place of what was kept before.
    pub fn insert(&mut self, k: K, v: V) -> (r: Option<V>)
        ensures
            final(self)@ == old(self)@.insert(k.id(), v),
            r is Some <==> old(self)@.dom().contains(k.id()),
            r matches Some(w) ==> w == old(self)@[k.id()],
            !old(self)@.dom().contains(k.id()) ==> final(self).order() == old(self).order().push(
                (k, v),
            ),
    {
        let r = self.remove(&k);
        self.facts();
        let mut es: Vec<(K, V)> = Vec::new();
        core::mem::swap(&mut es, &mut self.entries);
        let ghost before = es@;
        let ghost m = entries_map(before);
        es.push((k, v));
        proof {
            assert(es@.drop_last() =~= before);
            assert forall|i: int, j: int|
                0 <= i < es@.len() && 0 <= j < es@.len() && i != j implies (
            #[trigger] es@[i]).0.id() != (#[trigger] es@[j]).0.id() by {
                if i < before.len() {
                    assert(es@[i] == before[i]);
                    assert(m.dom().contains(before[i].0.id()));
                }
                if j < before.len() {
                    assert(es@[j] == before[j]);
                    assert(m.dom().contains(before[j].0.id()));
                }
            }
        }
        self.entries = es;
        assert(self@ =~= old(self)@.insert(k.id(), v));
        r
    }

    /// Drops the entry for `k`.
    pub fn remove(&mut self, k: &K) -> (r: Option<V>)
        ensures
            final(self)@ == old(self)@.remove(k.id()),
            r is Some <==> old(self)@.dom().contains(k.id()),
            r matches Some(v) ==> v == old(self)@[k.id()],
            r is None ==> final(self).order() == old(self).order(),
            r is Some ==> exists|i: int|
                0 <= i < old(self).order().len() && old(self).order()[i].0.id() == k.id()
                    && final(self).order() == #[trigger] old(self).order().remove(i),
    {
        self.facts();
        let i: usize = self.position(k);
        if i < self.entries.len() {
            let mut es: Vec<(K, V)> = Vec::new();
            core::mem::swap(&mut es, &mut self.entries);
            let ghost before = es@;
            let e = es.remove(i);
            proof {
                assert forall|a: int| 0 <= a < es@.len() implies #[trigger] es@[a] == before[if a
                    < i { a } else { a + 1 }] by {}
                assert(distinct_keys(es@));
                assert forall|a: int| 0 <= a < es@.len() implies old(self)@.remove(
                    k.id(),
                ).dom().contains((#[trigger] es@[a]).0.id()) && old(self)@.remove(
                    k.id(),
                )[es@[a].0.id()] == es@[a].1 by {
                    let b = if a < i { a } else { a + 1 };
                    assert(es@[a] == before[b]);
                    assert(before[b].0.id() != before[i as int].0.id());
                    assert(old(self).order()[b] == before[b]);
                }
                assert forall|q: K::Id| #[trigger] old(self)@.remove(
                    k.id(),
                ).dom().contains(q) implies exists|a: int|
                    0 <= a < es@.len() && (#[trigger] es@[a]).0.id() == q by {
                    assert(old(self)@.dom().contains(q));
                    let b = choose|b: int|
                        0 <= b < before.len() && (#[trigger] old(self).order()[b]).0.id() == q;
                    let a = if b < i { b } else { b - 1 };
                    assert(es@[a] == before[b]);
                }
                lemma_same_map(es@, old(self)@.remove(k.id()));
            }
            self.entries = es;
            assert(old(self).order().remove(i as int) =~= self.order());
            Some(e.1)
        } else {
            assert(old(self)@.remove(k.id()) =~= old(self)@);
            None
        }
    }
}

impl<V> AssocMap<String, V> {
    /// The keys, each once.
    pub fn keys(&self) -> (r: Vec<String>)
        ensures
            r@.len() == self@.dom().len(),
            text::strings_view(r@).no_duplicates(),
            forall|k: Seq<char>| #[trigger]
                text::strings_view(r@).contains(k) <==> self@.dom().contains(k),
    {
        self.facts();
        let ghost ord = self.order();
        let mut out: Vec<String> = Vec::new();
        let n: usize = self.len();
        let mut i: usize = 0;
        while i < n
            invariant
                i <= n,
                n == ord.len(),
                ord == self.order(),
                out@.len() == i,
                forall|j: int| 0 <= j < i ==> (#[trigger] out@[j])@ == ord[j].0@,
            decreases n - i,
        {
            let (k, _) = self.entry(i);
            out.push(k.clone());
            i += 1;
        }
        proof {
            let keys = text::strings_view(out@);
            assert forall|k: Seq<char>| #[trigger] keys.contains(k) <==> self@.dom().contains(k) by {
                if keys.contains(k) {
                    let j = choose|j: int| 0 <= j < keys.len() && keys[j] == k;
                    assert(out@[j]@ == ord[j].0@);
                    assert(self@.dom().contains(ord[j].0.id()));
                }
                if self@.dom().contains(k) {
                    let j = choose|j: int| 0 <= j < ord.len() && (#[trigger] ord[j]).0.id() == k;
                    assert(out@[j]@ == k);
                    assert(keys[j] == k);
                }
            }
            assert forall|a: int, b: int| 0 <= a < keys.len() && 0 <= b < keys.len() && a != b implies keys[a] != keys[b] by {
                assert(out@[a]@ == ord[a].0.id());
                assert(out@[b]@ == ord[b].0.id());
            }
        }
        out
    }

    /// Whether the map has an entry for the string `k`.
    pub fn contains_str(&self, k: &str) -> (r: bool)
        ensures
            r == self@.dom().contains(k@),
    {
        self.contains_key(&k.to_owned())
    }

    /// The value kept for the string `k`.
    pub fn get_str(&self, k: &str) -> (r: Option<&V>)
        ensures
            r is Some <==> self@.dom().contains(k@),
            r matches Some(v) ==> *v == self@[k@],
    {
        self.get(&k.to_owned())
    }

    /// Drops the entry for the string `k`.
    pub fn remove_str(&mut self, k: &str) -> (r: Option<V>)
        ensures
            final(self)@ == old(self)@.remove(k@),
            r is Some <==> old(self)@.dom().contains(k@),
            r matches Some(v) ==> v == old(self)@[k@],
    {
        self.remove(&k.to_owned())
    }
}

} // verus!
