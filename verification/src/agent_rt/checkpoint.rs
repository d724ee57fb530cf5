//! Checkpoints of orchestrations, kept by key.
use vstd::prelude::*;
use crate::util::text;
use crate::json::{Json, JsonV};
use crate::util::assoc::AssocMap;
use crate::util::text::chars_of;

verus! {

/// A checkpoint and when it was last written.
pub struct Stored {
    pub value: Json,
    pub updated_at: i64,
}

/// A checkpoint store in memory. Each entry knows when it was last written.
pub struct InMemoryCheckpointStore {
    inner: AssocMap<String, Stored>,
}

/// What a store holds: by key, the checkpoint and the time of its last writing.
pub type StoreV = Map<Seq<char>, (JsonV, i64)>;

impl View for InMemoryCheckpointStore {
    type V = StoreV;

    closed spec fn view(&self) -> StoreV {
        self.inner@.map_values(|s: Stored| (s.value@, s.updated_at))
    }
}

impl InMemoryCheckpointStore {
    /// An empty store.
    pub fn new() -> (r: Self)
        ensures
            r@ == Map::<Seq<char>, (JsonV, i64)>::empty(),
    {
        let r = InMemoryCheckpointStore { inner: AssocMap::new() };
        assert(r@ =~= Map::<Seq<char>, (JsonV, i64)>::empty());
        r
    }

    /// Keeps a checkpoint under a key, in place of what was there.
    pub fn save(&mut self, key: &str, checkpoint: &Json, now: i64)
        ensures
            final(self)@ == old(self)@.insert(key@, (checkpoint@, now)),
    {
        self.inner.insert(key.to_owned(), Stored { value: checkpoint.dup(), updated_at: now });
        assert(self@ =~= old(self)@.insert(key@, (checkpoint@, now)));
    }

    /// The checkpoint under a key.
    pub fn load(&self, key: &str) -> (r: Option<Json>)
        ensures
            r is Some <==> self@.dom().contains(key@),
            r matches Some(j) ==> j@ == self@[key@].0,
    {
        match self.inner.get_str(key) {
            Some(s) => Some(s.value.dup()),
            None => None,
        }
    }

    /// Drops the checkpoint under a key.
    pub fn delete(&mut self, key: &str)
        ensures
            final(self)@ == old(self)@.remove(key@),
    {
        self.inner.remove_str(key);
        assert(self@ =~= old(self)@.remove(key@));
    }

    /// The keys of all checkpoints, each once.
    pub fn list_keys(&self) -> (r: Vec<String>)
        ensures
            text::strings_view(r@).no_duplicates(),
            forall|k: Seq<char>| #[trigger]
                text::strings_view(r@).contains(k) <==> self@.dom().contains(k),
    {
        proof {
            assert(self@.dom() =~= self.inner@.dom());
        }
        self.inner.keys()
    }

    /// Drops the checkpoints last written before `epoch_secs`, and tells how many there were.
    pub fn prune_before(&mut self, epoch_secs: i64) -> (r: u64)
        ensures
            final(self)@ == kept_since(old(self)@, epoch_secs),
            r == old(self)@.dom().len() - kept_since(old(self)@, epoch_secs).dom().len(),
    {
        self.inner.facts();
        let ghost ord = self.inner.order();
        let ghost m = self.inner@;
        let mut kept: AssocMap<String, Stored> = AssocMap::new();
        let n: usize = self.inner.len();
        let mut i: usize = 0;
        while i < n
            invariant
                i <= n,
                n == ord.len(),
                ord == self.inner.order(),
                m == self.inner@,
                crate::util::assoc::distinct_keys(ord),
                forall|q: Seq<char>| #[trigger]
                    kept@.dom().contains(q) <==> exists|j: int|
                        0 <= j < i && (#[trigger] ord[j]).0@ == q && ord[j].1.updated_at >= epoch_secs,
                forall|q: Seq<char>| #[trigger]
                    kept@.dom().contains(q) ==> m.dom().contains(q) && kept@[q].value@ == m[q].value@
                        && kept@[q].updated_at == m[q].updated_at,
            decreases n - i,
        {
            let (k, s) = self.inner.entry(i);
            let ghost before = kept@;
            if s.updated_at >= epoch_secs {
                kept.insert(k.clone(), Stored { value: s.value.dup(), updated_at: s.updated_at });
            }
            assert forall|q: Seq<char>| #[trigger] kept@.dom().contains(q) <==> exists|j: int|
                0 <= j < i + 1 && (#[trigger] ord[j]).0@ == q && ord[j].1.updated_at >= epoch_secs by {
                if before.dom().contains(q) {
                    let j = choose|j: int|
                        0 <= j < i && (#[trigger] ord[j]).0@ == q && ord[j].1.updated_at >= epoch_secs;
                    assert(ord[j].0@ == q);
                }
                if kept@.dom().contains(q) && !before.dom().contains(q) {
                    assert(ord[i as int].0@ == q);
                }
            }
            i += 1;
        }
        proof {
            let goal = kept_since(old(self)@, epoch_secs);
            let got = kept@.map_values(|s: Stored| (s.value@, s.updated_at));
            assert forall|q: Seq<char>| got.dom().contains(q) == goal.dom().contains(q) by {
                if goal.dom().contains(q) {
                    assert(m.dom().contains(q));
                    let j = choose|j: int| 0 <= j < ord.len() && (#[trigger] ord[j]).0@ == q;
                    assert(ord[j].0@ == q && ord[j].1.updated_at >= epoch_secs);
                }
                if got.dom().contains(q) {
                    let j = choose|j: int|
                        0 <= j < n && (#[trigger] ord[j]).0@ == q && ord[j].1.updated_at >= epoch_secs;
                    assert(m[ord[j].0@] == ord[j].1);
                }
            }
            assert(got =~= goal);
            assert(goal.dom() =~= kept@.dom());
            assert(old(self)@.dom() =~= m.dom());
            vstd::set_lib::lemma_len_subset(goal.dom(), old(self)@.dom());
        }
        let left: usize = kept.len();
        self.inner = kept;
        (n - left) as u64
    }
}

/// The checkpoints last written at `since` or later.
pub open spec fn kept_since(s: StoreV, since: i64) -> StoreV {
    Map::new(|k: Seq<char>| s.dom().contains(k) && s[k].1 >= since, |k: Seq<char>| s[k])
}

/// The time before which a checkpoint is stale, `ttl_secs` before `now_secs`.
pub fn prune_cutoff(now_secs: i64, ttl_secs: u64) -> (r: i64)
    requires
        now_secs >= 0,
        ttl_secs <= i64::MAX,
    ensures
        r == now_secs - ttl_secs,
{
    now_secs - ttl_secs as i64
}

/// A letter or digit of ASCII, a dash or an underscore.
pub open spec fn safe_char(c: char) -> bool {
    ||| 'a' <= c && c <= 'z'
    ||| 'A' <= c && c <= 'Z'
    ||| '0' <= c && c <= '9'
    ||| c == '-'
    ||| c == '_'
}

/// The name of a checkpoint's file: the key, with an underscore in place of each character
/// that is not safe in a file name.
pub open spec fn checkpoint_file(key: Seq<char>) -> Seq<char> {
    key.map_values(
        |c: char|
            if safe_char(c) {
                c
            } else {
                '_'
            },
    ) + ".json"@
}

/// What comes before the name of a file in a directory: the directory and a slash, where it does
/// not end in one. Nothing comes before a name in the working directory.
pub open spec fn within_dir(dir: Seq<char>) -> Seq<char> {
    if dir.len() == 0 || dir.last() == '/' {
        dir
    } else {
        dir + "/"@
    }
}

/// A checkpoint store that keeps each checkpoint in a file of a directory.
pub struct FileCheckpointStore {
    pub dir: String,
}

impl FileCheckpointStore {
    /// The path of the file for a key: it is in the directory, or in the working directory where
    /// there is none.
    pub fn checkpoint_path(&self, key: &str) -> (r: String)
        ensures
            r@ == within_dir(self.dir@) + checkpoint_file(key@),
    {
        let chars: Vec<char> = chars_of(key);
        let mut name: String = String::new();
        let mut i: usize = 0;
        let ghost safe = key@.map_values(
            |c: char|
                if safe_char(c) {
                    c
                } else {
                    '_'
                },
        );
        assert(name@ =~= safe.take(0));
        while i < chars.len()
            invariant
                i <= chars@.len(),
                chars@ == key@,
                safe == key@.map_values(
                    |c: char|
                        if safe_char(c) {
                            c
                        } else {
                            '_'
                        },
                ),
                name@ == safe.take(i as int),
            decreases chars@.len() - i,
        {
            let c: char = chars[i];
            let ok: bool = ('a' <= c && c <= 'z') || ('A' <= c && c <= 'Z') || ('0' <= c && c
                <= '9') || c == '-' || c == '_';
            if ok {
                name.push(c);
            } else {
                name.push('_');
            }
            i += 1;
            assert(name@ =~= safe.take(i as int));
        }
        assert(safe.take(i as int) =~= safe);
        let mut path: String = self.dir.clone();
        let dir: Vec<char> = chars_of(self.dir.as_str());
        if dir.len() > 0 && dir[dir.len() - 1] != '/' {
            path.append("/");
        }
        path.append(name.as_str());
        path.append(".json");
        assert(path@ =~= within_dir(self.dir@) + checkpoint_file(key@));
        path
    }
}

/// The file name of a checkpoint never leads out of the store's directory: it holds no
/// slash, and no dot before its ending.
pub proof fn law_checkpoint_file_is_safe(key: Seq<char>, i: int)
    requires
        0 <= i < key.len(),
    ensures
        safe_char(checkpoint_file(key)[i]),
{
}

/// What was saved last under a key is what is loaded, other keys are not touched, and a key that
/// was deleted has nothing.
pub proof fn law_saved_is_loaded(
    s: Map<Seq<char>, (JsonV, i64)>,
    key: Seq<char>,
    other: Seq<char>,
    value: JsonV,
    now: i64,
)
    requires
        other != key,
    ensures
        s.insert(key, (value, now)).dom().contains(key),
        s.insert(key, (value, now))[key].0 == value,
        s.insert(key, (value, now)).dom().contains(other) == s.dom().contains(other),
        s.dom().contains(other) ==> s.insert(key, (value, now))[other] == s[other],
        !s.remove(key).dom().contains(key),
{
}

/// A checkpoint that is young enough survives pruning, and an older one does not.
pub proof fn law_pruned_by_age(s: Map<Seq<char>, (JsonV, i64)>, key: Seq<char>, since: i64)
    requires
        s.dom().contains(key),
    ensures
        kept_since(s, since).dom().contains(key) <==> s[key].1 >= since,
        s[key].1 >= since ==> kept_since(s, since)[key] == s[key],
{
}

} // verus!
