//! How the results of several workers become one.
use vstd::prelude::*;
use crate::json;
use crate::json::{Json, JsonNum, JsonV, NumV, ObjectBuilder};
use crate::util::text;
use crate::util::text::{str_eq, strip_char};

verus! {

/// Makes one result of several.
pub trait ResultAggregator {
    /// The result of the given ones.
    fn aggregate(&self, results: &Vec<Json>) -> (r: Json);
}

/// Puts the results side by side.
#[derive(Debug, Clone, Copy, PartialEq, Eq, Structural)]
pub struct ConcatAggregator;

/// Counts the values of one field.
#[derive(Debug, PartialEq, Eq)]
pub struct VoteAggregator {
    pub field: String,
}

/// Puts the members of the results into one object.
#[derive(Debug, Clone, Copy, PartialEq, Eq, Structural)]
pub struct MergeAggregator;

impl ResultAggregator for ConcatAggregator {
    fn aggregate(&self, results: &Vec<Json>) -> (r: Json)
        ensures
            r@ == JsonV::Array(json::array_view(results@)),
    {
        let mut out: Vec<Json> = Vec::new();
        let mut i: usize = 0;
        while i < results.len()
            invariant
                i <= results@.len(),
                out@.len() == i,
                forall|j: int| 0 <= j < i ==> (#[trigger] out@[j])@ == results@[j]@,
            decreases results@.len() - i,
        {
            out.push(results[i].dup());
            i += 1;
        }
        proof {
            json::lemma_array_tree(out);
            assert(json::array_view(out@) =~= json::array_view(results@));
        }
        Json::Array(out)
    }
}

// ---------------------------------------------------------------------------
// Votes
// ---------------------------------------------------------------------------
/// The ballots: the printed values of a field, of the results that have it.
pub open spec fn ballots(results: Seq<JsonV>, field: Seq<char>) -> Seq<Seq<char>>
    decreases results.len(),
{
    if results.len() == 0 {
        Seq::empty()
    } else {
        let before = ballots(results.drop_last(), field);
        match results.last().get(field) {
            Some(v) => before.push(json::json_text(v)),
            None => before,
        }
    }
}

/// How often a text is among the ballots.
pub open spec fn votes_for(b: Seq<Seq<char>>, t: Seq<char>) -> nat
    decreases b.len(),
{
    if b.len() == 0 {
        0
    } else if b.last() == t {
        votes_for(b.drop_last(), t) + 1
    } else {
        votes_for(b.drop_last(), t)
    }
}

/// A text without the quotes around it.
pub open spec fn unquoted(t: Seq<char>) -> Seq<char> {
    text::strip_back(text::strip_front(t, '"'), '"')
}

/// A list of counts holds every ballot once, with its votes, and nothing else.
pub open spec fn tallied(b: Seq<Seq<char>>, t: Seq<(Seq<char>, u64)>) -> bool {
    &&& forall|i: int, j: int|
        0 <= i < t.len() && 0 <= j < t.len() && i != j ==> (#[trigger] t[i]).0 != (#[trigger] t[j]).0
    &&& forall|i: int| 0 <= i < t.len() ==> (#[trigger] t[i]).1 == votes_for(b, t[i].0) && t[i].1 > 0
    &&& forall|x: Seq<char>| #[trigger] votes_for(b, x) > 0 ==> exists|i: int|
        0 <= i < t.len() && (#[trigger] t[i]).0 == x
}

/// A ballot that no other has more votes than.
pub open spec fn leads(b: Seq<Seq<char>>, w: Seq<char>) -> bool {
    &&& votes_for(b, w) > 0
    &&& forall|x: Seq<char>| #[trigger] votes_for(b, x) <= votes_for(b, w)
}

/// What a vote gives: a ballot with the most votes, and the votes of each. Ballots that differ
/// only in the quotes around them share a name; the votes of one of them stand under it.
pub open spec fn vote_outcome(b: Seq<Seq<char>>, winner: JsonV, votes: JsonV) -> bool {
    &&& if b.len() == 0 {
        winner == JsonV::Str(Seq::empty())
    } else {
        exists|w: Seq<char>| #[trigger] leads(b, w) && winner == JsonV::Str(unquoted(w))
    }
    &&& votes is Object
    &&& forall|x: Seq<char>| #[trigger] votes_for(b, x) > 0 ==> votes.get(unquoted(x)) is Some
    &&& forall|k: Seq<char>| (#[trigger] votes.get(k)) is Some ==> exists|x: Seq<char>|
        #[trigger] votes_for(b, x) > 0 && unquoted(x) == k && votes.get(k) == Some(
            JsonV::Num(NumV::PosInt(votes_for(b, x) as u64)),
        )
}

proof fn lemma_votes_bounded(b: Seq<Seq<char>>, t: Seq<char>)
    ensures
        votes_for(b, t) <= b.len(),
    decreases b.len(),
{
    if b.len() > 0 {
        lemma_votes_bounded(b.drop_last(), t);
    }
}

proof fn lemma_ballots_bounded(results: Seq<JsonV>, field: Seq<char>)
    ensures
        ballots(results, field).len() <= results.len(),
    decreases results.len(),
{
    if results.len() > 0 {
        lemma_ballots_bounded(results.drop_last(), field);
    }
}

/// What a list of counts is.
pub open spec fn tally_view(s: Seq<(String, u64)>) -> Seq<(Seq<char>, u64)> {
    s.map_values(|e: (String, u64)| (e.0@, e.1))
}

/// Adds one ballot to the counts.
fn add_ballot(counts: Vec<(String, u64)>, ballot: String, before: Ghost<Seq<Seq<char>>>) -> (r: Vec<
    (String, u64),
>)
    requires
        tallied(before@, tally_view(counts@)),
        before@.len() < u64::MAX,
    ensures
        tallied(before@.push(ballot@), tally_view(r@)),
{
    let ghost b = before@;
    let ghost after = b.push(ballot@);
    let ghost t = tally_view(counts@);
    assert(after.drop_last() =~= b);
    let mut counts = counts;
    let mut i: usize = 0;
    while i < counts.len()
        invariant
            i <= counts@.len(),
            t == tally_view(counts@),
            forall|j: int| 0 <= j < i ==> (#[trigger] t[j]).0 != ballot@,
            tallied(b, t),
            b == before@,
            after == b.push(ballot@),
            after.drop_last() == b,
            b.len() < u64::MAX,
        decreases counts@.len() - i,
    {
        if str_eq(counts[i].0.as_str(), ballot.as_str()) {
            proof {
                assert(t[i as int].0 == ballot@);
                lemma_votes_bounded(b, ballot@);
            }
            let n: u64 = counts[i].1 + 1;
            counts.set(i, (ballot, n));
            proof {
                let u = tally_view(counts@);
                assert(u =~= t.update(i as int, (ballot@, n)));
                assert forall|x: Seq<char>| #[trigger] votes_for(after, x) > 0 implies exists|j: int|
                    0 <= j < u.len() && (#[trigger] u[j]).0 == x by {
                    if x == ballot@ {
                        assert(u[i as int].0 == x);
                    } else {
                        assert(votes_for(b, x) > 0);
                        let j = choose|j: int| 0 <= j < t.len() && (#[trigger] t[j]).0 == x;
                        assert(u[j].0 == x);
                    }
                }
                assert forall|j: int| 0 <= j < u.len() implies (#[trigger] u[j]).1 == votes_for(
                    after,
                    u[j].0,
                ) && u[j].1 > 0 by {
                    if j != i {
                        assert(t[j].0 != t[i as int].0);
                    }
                }
            }
            return counts;
        }
        assert(t[i as int].0 != ballot@);
        i += 1;
    }
    proof {
        if votes_for(b, ballot@) > 0 {
            let j = choose|j: int| 0 <= j < t.len() && (#[trigger] t[j]).0 == ballot@;
        }
    }
    counts.push((ballot, 1));
    proof {
        let u = tally_view(counts@);
        assert(u =~= t.push((ballot@, 1u64)));
        assert forall|x: Seq<char>| #[trigger] votes_for(after, x) > 0 implies exists|j: int|
            0 <= j < u.len() && (#[trigger] u[j]).0 == x by {
            if x == ballot@ {
                assert(u[t.len() as int].0 == x);
            } else {
                assert(votes_for(b, x) > 0);
                let j = choose|j: int| 0 <= j < t.len() && (#[trigger] t[j]).0 == x;
                assert(u[j].0 == x);
            }
        }
        assert forall|j: int| 0 <= j < u.len() implies (#[trigger] u[j]).1 == votes_for(
            after,
            u[j].0,
        ) && u[j].1 > 0 by {
            if j < t.len() {
                assert(t[j].0 != ballot@);
            }
        }
    }
    counts
}

/// The counts of the ballots.
fn tally(results: &Vec<Json>, field: &String) -> (r: Vec<(String, u64)>)
    ensures
        tallied(ballots(json::array_view(results@), field@), tally_view(r@)),
{
    let ghost v = json::array_view(results@);
    let mut counts: Vec<(String, u64)> = Vec::new();
    let n: usize = results.len();
    let mut i: usize = 0;
    assert(v.take(0) =~= Seq::<JsonV>::empty());
    assert(tallied(ballots(v.take(0), field@), tally_view(counts@)));
    while i < n
        invariant
            i <= n,
            n == results@.len(),
            v == json::array_view(results@),
            tallied(ballots(v.take(i as int), field@), tally_view(counts@)),
        decreases n - i,
    {
        let ghost b = ballots(v.take(i as int), field@);
        proof {
            assert(v.take(i + 1).drop_last() =~= v.take(i as int));
            lemma_ballots_bounded(v.take(i as int), field@);
        }
        if let Some(value) = results[i].get(field.as_str()) {
            let ballot: String = value.to_text();
            counts = add_ballot(counts, ballot, Ghost(b));
        }
        i += 1;
    }
    assert(v.take(i as int) =~= v);
    counts
}

/// The position of a count that no other exceeds.
fn best(counts: &Vec<(String, u64)>) -> (r: usize)
    requires
        counts@.len() > 0,
    ensures
        r < counts@.len(),
        forall|j: int| 0 <= j < counts@.len() ==> (#[trigger] counts@[j]).1 <= counts@[r as int].1,
{
    let mut k: usize = 0;
    let mut i: usize = 1;
    while i < counts.len()
        invariant
            k < i <= counts@.len(),
            forall|j: int| 0 <= j < i ==> (#[trigger] counts@[j]).1 <= counts@[k as int].1,
        decreases counts@.len() - i,
    {
        if counts[i].1 > counts[k].1 {
            k = i;
        }
        i += 1;
    }
    k
}

/// Puts a member into a list of members, in place of one of the same name.
pub open spec fn put_member(s: Seq<(Seq<char>, JsonV)>, k: Seq<char>, v: JsonV) -> Seq<
    (Seq<char>, JsonV),
>
    decreases s.len(),
{
    if s.len() == 0 {
        seq![(k, v)]
    } else if s[0].0 == k {
        seq![(k, v)] + s.drop_first()
    } else {
        seq![s[0]] + put_member(s.drop_first(), k, v)
    }
}

/// A member that was put is found under its name, and the others stay.
pub proof fn lemma_put_member(s: Seq<(Seq<char>, JsonV)>, k: Seq<char>, v: JsonV, q: Seq<char>)
    ensures
        json::member(put_member(s, k, v), q) == if q == k {
            Some(v)
        } else {
            json::member(s, q)
        },
    decreases s.len(),
{
    let t = put_member(s, k, v);
    if s.len() == 0 {
        assert(t.drop_first() =~= s);
    } else if s[0].0 == k {
        assert(t.drop_first() =~= s.drop_first());
    } else {
        lemma_put_member(s.drop_first(), k, v, q);
        assert(t.drop_first() =~= put_member(s.drop_first(), k, v));
    }
}

fn put_in(members: &mut Vec<(String, Json)>, k: &String, v: Json)
    ensures
        json::members_view(final(members)@) == put_member(
            json::members_view(old(members)@),
            k@,
            v@,
        ),
{
    let ghost all = json::members_view(members@);
    let ghost goal = put_member(all, k@, v@);
    let n: usize = members.len();
    let mut i: usize = 0;
    assert(all.skip(0) =~= all);
    assert(all.take(0) + put_member(all.skip(0), k@, v@) =~= goal);
    while i < n
        invariant
            i <= n,
            n == members@.len(),
            all == json::members_view(members@),
            goal == all.take(i as int) + put_member(all.skip(i as int), k@, v@),
            members@ == old(members)@,
            goal == put_member(json::members_view(old(members)@), k@, v@),
        decreases n - i,
    {
        let ghost rest = all.skip(i as int);
        assert(rest[0] == all[i as int]);
        assert(rest.drop_first() =~= all.skip(i + 1));
        if str_eq(members[i].0.as_str(), k.as_str()) {
            members.set(i, (k.clone(), v));
            assert(json::members_view(members@) =~= goal);
            return;
        }
        assert(all.take(i + 1) + put_member(all.skip(i + 1), k@, v@) =~= goal);
        i += 1;
    }
    members.push((k.clone(), v));
    assert(json::members_view(members@) =~= goal);
}

impl ResultAggregator for VoteAggregator {
    fn aggregate(&self, results: &Vec<Json>) -> (r: Json)
        ensures
            exists|winner: JsonV, votes: JsonV| #[trigger]
                vote_outcome(ballots(json::array_view(results@), self.field@), winner, votes)
                    && r@ == JsonV::Object(seq![("winner"@, winner), ("votes"@, votes)]),
    {
        let ghost b = ballots(json::array_view(results@), self.field@);
        let counts: Vec<(String, u64)> = tally(results, &self.field);
        let ghost t = tally_view(counts@);
        let mut winner: String = String::new();
        if counts.len() > 0 {
            let k: usize = best(&counts);
            winner = strip_char(counts[k].0.as_str(), '"');
            proof {
                let w = t[k as int].0;
                assert forall|x: Seq<char>| #[trigger] votes_for(b, x) <= votes_for(b, w) by {
                    if votes_for(b, x) > 0 {
                        let j = choose|j: int| 0 <= j < t.len() && (#[trigger] t[j]).0 == x;
                        assert(counts@[j].1 == t[j].1);
                    }
                }
                assert(leads(b, w));
                assert(winner@ == unquoted(w));
                if b.len() == 0 {
                    lemma_votes_bounded(b, w);
                }
            }
        } else {
            proof {
                if b.len() > 0 {
                    assert(votes_for(b, b.last()) > 0);
                }
                assert(winner@ =~= Seq::<char>::empty());
            }
        }
        let mut votes: Vec<(String, Json)> = Vec::new();
        let mut i: usize = 0;
        let ghost mut m = json::members_view(votes@);
        while i < counts.len()
            invariant
                i <= counts@.len(),
                t == tally_view(counts@),
                m == json::members_view(votes@),
                forall|j: int| 0 <= j < i ==> json::member(m, unquoted((#[trigger] t[j]).0)) is Some,
                forall|k: Seq<char>| (#[trigger] json::member(m, k)) is Some ==> exists|j: int|
                    0 <= j < i && unquoted((#[trigger] t[j]).0) == k && json::member(m, k) == Some(
                        JsonV::Num(NumV::PosInt(t[j].1)),
                    ),
            decreases counts@.len() - i,
        {
            let key: String = strip_char(counts[i].0.as_str(), '"');
            let value: Json = Json::Num(JsonNum::PosInt(counts[i].1));
            let ghost before = m;
            put_in(&mut votes, &key, value);
            proof {
                m = json::members_view(votes@);
                assert(key@ == unquoted(t[i as int].0));
                assert forall|j: int| 0 <= j < i + 1 implies json::member(
                    m,
                    unquoted((#[trigger] t[j]).0),
                ) is Some by {
                    lemma_put_member(before, key@, value@, unquoted(t[j].0));
                }
                assert forall|k: Seq<char>| (#[trigger] json::member(m, k)) is Some implies exists|
                    j: int,
                |
                    0 <= j < i + 1 && unquoted((#[trigger] t[j]).0) == k && json::member(m, k)
                        == Some(JsonV::Num(NumV::PosInt(t[j].1))) by {
                    lemma_put_member(before, key@, value@, k);
                    if k == key@ {
                        assert(unquoted(t[i as int].0) == k);
                    } else {
                        assert(json::member(before, k) is Some);
                    }
                }
            }
            i += 1;
        }
        let ghost vs = JsonV::Object(m);
        let mut o = ObjectBuilder::new();
        o.put_str("winner", winner.as_str());
        proof {
            json::lemma_object_tree(votes);
        }
        o.put("votes", Json::Object(votes));
        proof {
            let ws = JsonV::Str(winner@);
            assert forall|x: Seq<char>| #[trigger] votes_for(b, x) > 0 implies vs.get(
                unquoted(x),
            ) is Some by {
                let j = choose|j: int| 0 <= j < t.len() && (#[trigger] t[j]).0 == x;
                assert(json::member(m, unquoted(t[j].0)) is Some);
            }
            assert forall|k: Seq<char>| (#[trigger] vs.get(k)) is Some implies exists|x: Seq<char>|
                #[trigger] votes_for(b, x) > 0 && unquoted(x) == k && vs.get(k) == Some(
                    JsonV::Num(NumV::PosInt(votes_for(b, x) as u64)),
                ) by {
                assert(json::member(m, k) is Some);
                let j = choose|j: int|
                    0 <= j < t.len() && unquoted((#[trigger] t[j]).0) == k && json::member(m, k)
                        == Some(JsonV::Num(NumV::PosInt(t[j].1)));
                assert(votes_for(b, t[j].0) > 0);
            }
            assert(vote_outcome(b, ws, vs));
            assert(o@ =~= seq![("winner"@, ws), ("votes"@, vs)]);
        }
        o.build()
    }
}

// ---------------------------------------------------------------------------
// Merging
// ---------------------------------------------------------------------------
/// A new value beside the one that is there: arrays are joined, else the new value counts.
pub open spec fn joined(old_value: JsonV, new_value: JsonV) -> JsonV {
    match (old_value, new_value) {
        (JsonV::Array(a), JsonV::Array(b)) => JsonV::Array(a + b),
        _ => new_value,
    }
}

/// One more member.
pub open spec fn merge_member(s: Seq<(Seq<char>, JsonV)>, k: Seq<char>, v: JsonV) -> Seq<
    (Seq<char>, JsonV),
> {
    put_member(
        s,
        k,
        match json::member(s, k) {
            Some(w) => joined(w, v),
            None => v,
        },
    )
}

/// The members of one object are added one after the other.
pub open spec fn merge_object(
    s: Seq<(Seq<char>, JsonV)>,
    members: Seq<(Seq<char>, JsonV)>,
) -> Seq<(Seq<char>, JsonV)>
    decreases members.len(),
{
    if members.len() == 0 {
        s
    } else {
        merge_member(
            merge_object(s, members.drop_last()),
            members.last().0,
            members.last().1,
        )
    }
}

/// The members of all results that are objects, one after the other.
pub open spec fn merge_all(results: Seq<JsonV>) -> Seq<(Seq<char>, JsonV)>
    decreases results.len(),
{
    if results.len() == 0 {
        Seq::empty()
    } else {
        match results.last() {
            JsonV::Object(m) => merge_object(merge_all(results.drop_last()), m),
            _ => merge_all(results.drop_last()),
        }
    }
}

/// The member of a name, where there is one.
fn member_of<'a>(members: &'a Vec<(String, Json)>, k: &String) -> (r: Option<&'a Json>)
    ensures
        json::opt_view(r) == json::member(json::members_view(members@), k@),
{
    let ghost all = json::members_view(members@);
    let mut i: usize = 0;
    assert(all.skip(0) =~= all);
    while i < members.len()
        invariant
            i <= members@.len(),
            all == json::members_view(members@),
            json::member(all, k@) == json::member(all.skip(i as int), k@),
        decreases members@.len() - i,
    {
        let ghost rest = all.skip(i as int);
        assert(rest[0] == all[i as int]);
        assert(rest.drop_first() =~= all.skip(i + 1));
        if str_eq(members[i].0.as_str(), k.as_str()) {
            return Some(&members[i].1);
        }
        i += 1;
    }
    None
}

fn join_values(old_value: &Json, new_value: &Json) -> (r: Json)
    ensures
        r@ == joined(old_value@, new_value@),
{
    match (old_value, new_value) {
        (Json::Array(a), Json::Array(b)) => {
            let mut out: Vec<Json> = Vec::new();
            let mut i: usize = 0;
            while i < a.len()
                invariant
                    i <= a@.len(),
                    out@.len() == i,
                    forall|j: int| 0 <= j < i ==> (#[trigger] out@[j])@ == a@[j]@,
                decreases a@.len() - i,
            {
                out.push(a[i].dup());
                i += 1;
            }
            let ghost first = out@;
            let mut k: usize = 0;
            while k < b.len()
                invariant
                    k <= b@.len(),
                    out@.len() == a@.len() + k,
                    forall|j: int| 0 <= j < a@.len() ==> (#[trigger] out@[j])@ == a@[j]@,
                    forall|j: int|
                        a@.len() <= j < a@.len() + k ==> (#[trigger] out@[j])@ == b@[j
                            - a@.len()]@,
                decreases b@.len() - k,
            {
                out.push(b[k].dup());
                k += 1;
            }
            proof {
                json::lemma_array_tree(*a);
                json::lemma_array_tree(*b);
                json::lemma_array_tree(out);
                assert(json::array_view(out@) =~= json::array_view(a@) + json::array_view(b@));
            }
            Json::Array(out)
        },
        _ => new_value.dup(),
    }
}

impl ResultAggregator for MergeAggregator {
    fn aggregate(&self, results: &Vec<Json>) -> (r: Json)
        ensures
            r@ == JsonV::Object(merge_all(json::array_view(results@))),
    {
        let ghost v = json::array_view(results@);
        let mut merged: Vec<(String, Json)> = Vec::new();
        let mut i: usize = 0;
        assert(v.take(0) =~= Seq::<JsonV>::empty());
        assert(json::members_view(merged@) =~= merge_all(v.take(0)));
        while i < results.len()
            invariant
                i <= results@.len(),
                v == json::array_view(results@),
                json::members_view(merged@) == merge_all(v.take(i as int)),
            decreases results@.len() - i,
        {
            assert(v.take(i + 1).drop_last() =~= v.take(i as int));
            assert(v.take(i + 1).last() == results@[i as int]@);
            let ghost before = json::members_view(merged@);
            if let Json::Object(map) = &results[i] {
                proof {
                    json::lemma_object_tree(*map);
                }
                let ghost ms = json::members_view(map@);
                let mut k: usize = 0;
                assert(ms.take(0) =~= Seq::<(Seq<char>, JsonV)>::empty());
                while k < map.len()
                    invariant
                        k <= map@.len(),
                        ms == json::members_view(map@),
                        json::members_view(merged@) == merge_object(before, ms.take(k as int)),
                    decreases map@.len() - k,
                {
                    assert(ms.take(k + 1).drop_last() =~= ms.take(k as int));
                    let e = &map[k];
                    assert(ms[k as int] == (e.0@, e.1@));
                    let value: Json = match member_of(&merged, &e.0) {
                        Some(w) => join_values(w, &e.1),
                        None => e.1.dup(),
                    };
                    put_in(&mut merged, &e.0, value);
                    k += 1;
                }
                assert(ms.take(k as int) =~= ms);
            }
            i += 1;
        }
        assert(v.take(i as int) =~= v);
        proof {
            json::lemma_object_tree(merged);
        }
        Json::Object(merged)
    }
}

/// One of the ways to make one result of several.
pub enum Aggregator {
    Concat(ConcatAggregator),
    Vote(VoteAggregator),
    Merge(MergeAggregator),
}

impl ResultAggregator for Aggregator {
    fn aggregate(&self, results: &Vec<Json>) -> (r: Json)
        ensures
            match *self {
                Aggregator::Concat(a) => call_ensures(
                    ConcatAggregator::aggregate,
                    (&a, results),
                    r,
                ),
                Aggregator::Vote(a) => call_ensures(VoteAggregator::aggregate, (&a, results), r),
                Aggregator::Merge(a) => call_ensures(MergeAggregator::aggregate, (&a, results), r),
            },
    {
        match self {
            Aggregator::Concat(a) => a.aggregate(results),
            Aggregator::Vote(a) => a.aggregate(results),
            Aggregator::Merge(a) => a.aggregate(results),
        }
    }
}

/// The aggregator of a name. Unknown names give the one that puts results side by side.
pub fn build_aggregator(strategy: &str) -> (r: Aggregator)
    ensures
        if strategy@ == "vote"@ {
            r matches Aggregator::Vote(v) && v.field@ == "decision"@
        } else if strategy@ == "merge"@ {
            r is Merge
        } else {
            r is Concat
        },
{
    if str_eq(strategy, "vote") {
        Aggregator::Vote(VoteAggregator { field: "decision".to_owned() })
    } else if str_eq(strategy, "merge") {
        Aggregator::Merge(MergeAggregator)
    } else {
        Aggregator::Concat(ConcatAggregator)
    }
}

/// The last value of a name counts, unless it is an array.
pub proof fn law_merge_last_wins(results: Seq<JsonV>, members: Seq<(Seq<char>, JsonV)>, k: Seq<char>, v: JsonV)
    requires
        !(v is Array),
    ensures
        json::member(
            merge_all(results.push(JsonV::Object(members.push((k, v))))),
            k,
        ) == Some(v),
{
    let rs = results.push(JsonV::Object(members.push((k, v))));
    assert(rs.drop_last() =~= results);
    let ms = members.push((k, v));
    assert(ms.drop_last() =~= members);
    let s = merge_object(merge_all(results), members);
    let w = match json::member(s, k) {
        Some(w) => joined(w, v),
        None => v,
    };
    lemma_put_member(s, k, w, k);
}

/// The votes for a text are the ballots that are that text.
pub proof fn law_votes_are_ballots(b: Seq<Seq<char>>, t: Seq<char>)
    ensures
        votes_for(b, t) == b.filter(|x: Seq<char>| x == t).len(),
    decreases b.len(),
{
    reveal(Seq::filter);
    if b.len() > 0 {
        law_votes_are_ballots(b.drop_last(), t);
    }
}

/// Every result that has the field votes with its value, in the order of the results, and no other
/// does.
pub proof fn law_each_result_votes(results: Seq<JsonV>, field: Seq<char>)
    ensures
        ballots(results, field) == results.filter(|r: JsonV| r.get(field) is Some).map_values(
            |r: JsonV| json::json_text(r.get(field)->0),
        ),
    decreases results.len(),
{
    reveal(Seq::filter);
    let f = |r: JsonV| r.get(field) is Some;
    let g = |r: JsonV| json::json_text(r.get(field)->0);
    if results.len() > 0 {
        let front = results.drop_last();
        law_each_result_votes(front, field);
        assert(ballots(results, field) =~= results.filter(f).map_values(g));
    } else {
        assert(results.filter(f).map_values(g) =~= Seq::<Seq<char>>::empty());
    }
}

/// Merging loses no name: what an earlier result has under a name stays, unless a later one has the
/// name too, and lists under the same name are put one behind the other.
pub proof fn law_merge_adds(results: Seq<JsonV>, k: Seq<char>, v: JsonV, other: Seq<char>)
    requires
        other != k,
    ensures
        ({
            let before = merge_all(results);
            let after = merge_all(results.push(JsonV::Object(seq![(k, v)])));
            &&& json::member(after, other) == json::member(before, other)
            &&& json::member(before, k) is None ==> json::member(after, k) == Some(v)
            &&& json::member(before, k) matches Some(JsonV::Array(a)) ==> (v is Array ==> json::member(
                after,
                k,
            ) == Some(JsonV::Array(a + v->Array_0)))
            &&& json::member(before, k) is Some && !(json::member(before, k)->0 is Array && v is Array)
                ==> json::member(after, k) == Some(v)
        }),
        merge_all(results.push(v)) == merge_all(results) || v is Object,
{
    let before = merge_all(results);
    let m = seq![(k, v)];
    assert(results.push(JsonV::Object(m)).drop_last() =~= results);
    assert(results.push(v).drop_last() =~= results);
    assert(m.drop_last() =~= Seq::<(Seq<char>, JsonV)>::empty());
    reveal_with_fuel(merge_object, 2);
    let w = match json::member(before, k) {
        Some(x) => joined(x, v),
        None => v,
    };
    lemma_put_member(before, k, w, k);
    lemma_put_member(before, k, w, other);
}

/// The members of an object are merged one after the other.
pub proof fn law_merge_in_turn(
    s: Seq<(Seq<char>, JsonV)>,
    a: Seq<(Seq<char>, JsonV)>,
    b: Seq<(Seq<char>, JsonV)>,
)
    ensures
        merge_object(s, a + b) == merge_object(merge_object(s, a), b),
    decreases b.len(),
{
    if b.len() == 0 {
        assert(a + b =~= a);
    } else {
        assert((a + b).drop_last() =~= a + b.drop_last());
        assert((a + b).last() == b.last());
        law_merge_in_turn(s, a, b.drop_last());
    }
}

} // verus!
