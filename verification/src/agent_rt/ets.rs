//! Tables in memory, each with an owner and rules of access.
use vstd::prelude::*;
use crate::util::text;
use crate::agent_rt::error::{AgentRtError, ErrorV};
use crate::agent_rt::types::AgentPid;
use crate::json::{Json, JsonV};
use crate::util::assoc::{AssocMap, MapKey};

verus! {

/// Who may use a table: everybody, everybody to read and the owner to write, or the owner
/// alone.
#[derive(Debug, Clone, Copy, PartialEq, Eq, Structural)]
pub enum AccessType {
    Public,
    Protected,
    Private,
}

/// The id of a table.
#[derive(Debug, Clone, Copy, PartialEq, Eq, Hash, Structural)]
pub enum TableId {
    Ets(u64),
    Dets(u64),
}

impl MapKey for TableId {
    type Id = TableId;

    open spec fn id(&self) -> TableId {
        *self
    }

    fn same(&self, other: &Self) -> (r: bool) {
        *self == *other
    }

    fn dup(&self) -> (r: Self) {
        *self
    }
}

/// Gives out table numbers, one after the other, starting with one.
pub struct TableIdSource {
    next: u64,
}

impl View for TableIdSource {
    type V = u64;

    closed spec fn view(&self) -> u64 {
        self.next
    }
}

impl TableIdSource {
    /// A source that has given out nothing yet.
    pub fn new() -> (r: Self)
        ensures
            r@ == 1,
    {
        TableIdSource { next: 1 }
    }

    /// A source whose next number is `next`.
    pub fn starting_at(next: u64) -> (r: Self)
        ensures
            r@ == next,
    {
        TableIdSource { next }
    }
}

impl TableId {
    /// The id of the next table in memory. The count starts over after the greatest `u64`.
    pub fn next_ets(source: &mut TableIdSource) -> (r: Self)
        ensures
            r == TableId::Ets(old(source)@),
            final(source)@ == if old(source)@ == u64::MAX {
                0
            } else {
                old(source)@ + 1
            },
    {
        let n: u64 = source.next;
        source.next = if n == u64::MAX { 0 } else { n + 1 };
        TableId::Ets(n)
    }
}

/// Whether `caller` may write to a table of `owner`.
pub open spec fn may_write(access: AccessType, owner: AgentPid, caller: AgentPid) -> bool {
    access == AccessType::Public || caller == owner
}

/// Whether `caller` may read a table of `owner`.
pub open spec fn may_read(access: AccessType, owner: AgentPid, caller: AgentPid) -> bool {
    access != AccessType::Private || caller == owner
}

/// Tells whether `caller` may write to a table of `owner`.
pub fn check_write(access: AccessType, owner: AgentPid, caller: AgentPid) -> (r: Result<
    (),
    AgentRtError,
>)
    ensures
        r is Ok <==> may_write(access, owner, caller),
        r matches Err(e) ==> e@ == ErrorV::Ets("write access denied"@),
{
    match access {
        AccessType::Public => Ok(()),
        _ => if caller == owner {
            Ok(())
        } else {
            Err(AgentRtError::Ets("write access denied".to_owned()))
        },
    }
}

/// Tells whether `caller` may read a table of `owner`.
pub fn check_read(access: AccessType, owner: AgentPid, caller: AgentPid) -> (r: Result<
    (),
    AgentRtError,
>)
    ensures
        r is Ok <==> may_read(access, owner, caller),
        r matches Err(e) ==> e@ == ErrorV::Ets("read access denied"@),
{
    match access {
        AccessType::Private => if caller == owner {
            Ok(())
        } else {
            Err(AgentRtError::Ets("read access denied".to_owned()))
        },
        _ => Ok(()),
    }
}

/// A table in memory.
pub struct EtsTable {
    pub name: String,
    pub access: AccessType,
    pub owner: AgentPid,
    pub heir: Option<AgentPid>,
    pub data: AssocMap<String, Json>,
    pub max_entries: usize,
}

/// What the values of a map are.
pub open spec fn values_view(m: Map<Seq<char>, Json>) -> Map<Seq<char>, JsonV> {
    m.map_values(|j: Json| j@)
}

/// What a table is.
#[verifier::ext_equal]
pub struct TableV {
    pub name: Seq<char>,
    pub access: AccessType,
    pub owner: AgentPid,
    pub heir: Option<AgentPid>,
    pub data: Map<Seq<char>, JsonV>,
    pub max_entries: usize,
}

impl View for EtsTable {
    type V = TableV;

    open spec fn view(&self) -> TableV {
        TableV {
            name: self.name@,
            access: self.access,
            owner: self.owner,
            heir: self.heir,
            data: values_view(self.data@),
            max_entries: self.max_entries,
        }
    }
}

impl EtsTable {
    /// An empty table.
    pub fn new(
        name: String,
        access: AccessType,
        owner: AgentPid,
        heir: Option<AgentPid>,
        max_entries: usize,
    ) -> (r: Self)
        ensures
            r@ == (TableV {
                name: name@,
                access,
                owner,
                heir,
                data: Map::empty(),
                max_entries,
            }),
    {
        let r = EtsTable { name, access, owner, heir, data: AssocMap::new(), max_entries };
        assert(r@.data =~= Map::<Seq<char>, JsonV>::empty());
        r
    }

    /// Tells whether `caller` may write to this table.
    pub fn check_write_access(&self, caller: AgentPid) -> (r: Result<(), AgentRtError>)
        ensures
            r is Ok <==> may_write(self@.access, self@.owner, caller),
            r matches Err(e) ==> e@ == ErrorV::Ets("write access denied"@),
    {
        check_write(self.access, self.owner, caller)
    }

    /// Tells whether `caller` may read this table.
    pub fn check_read_access(&self, caller: AgentPid) -> (r: Result<(), AgentRtError>)
        ensures
            r is Ok <==> may_read(self@.access, self@.owner, caller),
            r matches Err(e) ==> e@ == ErrorV::Ets("read access denied"@),
    {
        check_read(self.access, self.owner, caller)
    }
}

/// The tables of a runtime.
pub struct EtsRegistry {
    tables: AssocMap<TableId, EtsTable>,
    ids: TableIdSource,
    max_tables: usize,
    max_entries_per_table: usize,
}

/// What the tables of a runtime are.
#[verifier::ext_equal]
pub struct EtsV {
    pub tables: Map<TableId, TableV>,
    pub next: u64,
    pub max_tables: usize,
    pub max_entries: usize,
}

impl View for EtsRegistry {
    type V = EtsV;

    closed spec fn view(&self) -> EtsV {
        EtsV {
            tables: self.tables@.map_values(|t: EtsTable| t@),
            next: self.ids@,
            max_tables: self.max_tables,
            max_entries: self.max_entries_per_table,
        }
    }
}

/// The tables with one of them changed.
pub open spec fn with_table(e: EtsV, tid: TableId, t: TableV) -> EtsV {
    EtsV { tables: e.tables.insert(tid, t), ..e }
}

/// A table takes an entry: one that it has already, or a new one while it is not full.
pub open spec fn has_room(t: TableV, key: Seq<char>) -> bool {
    t.data.dom().contains(key) || t.data.dom().len() < t.max_entries
}

fn not_found() -> (r: AgentRtError)
    ensures
        r@ == ErrorV::Ets("table not found"@),
{
    AgentRtError::Ets("table not found".to_owned())
}

impl EtsRegistry {
    /// No tables, and how many there may be, with how many entries each. The ids of the tables
    /// start with one: registries beside each other get sources of their own, see
    /// [`EtsRegistry::with_ids`].
    pub fn new(max_tables: usize, max_entries_per_table: usize) -> (r: Self)
        ensures
            r@ == (EtsV {
                tables: Map::empty(),
                next: 1,
                max_tables,
                max_entries: max_entries_per_table,
            }),
    {
        Self::with_ids(max_tables, max_entries_per_table, TableIdSource::new())
    }

    /// No tables yet; their ids come from the given source.
    pub fn with_ids(max_tables: usize, max_entries_per_table: usize, ids: TableIdSource) -> (r: Self)
        ensures
            r@ == (EtsV {
                tables: Map::empty(),
                next: ids@,
                max_tables,
                max_entries: max_entries_per_table,
            }),
    {
        let r = EtsRegistry {
            tables: AssocMap::new(),
            ids,
            max_tables,
            max_entries_per_table,
        };
        assert(r@.tables =~= Map::<TableId, TableV>::empty());
        r
    }

    /// Makes a table, while there is room for one more.
    pub fn create(
        &mut self,
        name: &str,
        access: AccessType,
        owner: AgentPid,
        heir: Option<AgentPid>,
    ) -> (r: Result<TableId, AgentRtError>)
        ensures
            r is Ok <==> old(self)@.tables.dom().len() < old(self)@.max_tables,
            r matches Ok(tid) ==> {
                &&& tid == TableId::Ets(old(self)@.next)
                &&& final(self)@.next == if old(self)@.next == u64::MAX {
                    0
                } else {
                    old(self)@.next + 1
                }
                &&& final(self)@.max_tables == old(self)@.max_tables
                &&& final(self)@.max_entries == old(self)@.max_entries
                &&& final(self)@.tables == old(self)@.tables.insert(
                    tid,
                    TableV {
                        name: name@,
                        access,
                        owner,
                        heir,
                        data: Map::empty(),
                        max_entries: old(self)@.max_entries,
                    },
                )
            },
            r matches Err(e) ==> e@ == ErrorV::Ets("max tables exceeded"@) && final(self)@
                == old(self)@,
    {
        proof {
            assert(self@.tables.dom() =~= self.tables@.dom());
        }
        if self.tables.len() >= self.max_tables {
            return Err(AgentRtError::Ets("max tables exceeded".to_owned()));
        }
        let tid: TableId = TableId::next_ets(&mut self.ids);
        let table = EtsTable::new(name.to_owned(), access, owner, heir, self.max_entries_per_table);
        self.tables.insert(tid, table);
        assert(self@.tables =~= old(self)@.tables.insert(tid, table@));
        Ok(tid)
    }

    /// Drops a table; only its owner may.
    pub fn destroy(&mut self, tid: &TableId, caller: AgentPid) -> (r: Result<(), AgentRtError>)
        ensures
            ({
                let e0 = old(self)@;
                if !e0.tables.dom().contains(*tid) {
                    r matches Err(e) && e@ == ErrorV::Ets("table not found"@) && final(self)@ == e0
                } else if e0.tables[*tid].owner != caller {
                    r matches Err(e) && e@ == ErrorV::Ets("only owner can destroy table"@)
                        && final(self)@ == e0
                } else {
                    r is Ok && final(self)@ == (EtsV { tables: e0.tables.remove(*tid), ..e0 })
                }
            }),
    {
        match self.tables.get(tid) {
            Some(t) => {
                if t.owner != caller {
                    return Err(AgentRtError::Ets("only owner can destroy table".to_owned()));
                }
            },
            None => {
                return Err(not_found());
            },
        }
        self.tables.remove(tid);
        assert(self@.tables =~= old(self)@.tables.remove(*tid));
        Ok(())
    }

    /// The value under a key of a table.
    pub fn get(&self, tid: &TableId, key: &str) -> (r: Result<Option<Json>, AgentRtError>)
        ensures
            r is Ok <==> self@.tables.dom().contains(*tid),
            r matches Ok(v) ==> {
                let data = self@.tables[*tid].data;
                &&& v is Some <==> data.dom().contains(key@)
                &&& v matches Some(j) ==> j@ == data[key@]
            },
            r matches Err(e) ==> e@ == ErrorV::Ets("table not found"@),
    {
        match self.tables.get(tid) {
            Some(t) => match t.data.get_str(key) {
                Some(j) => Ok(Some(j.dup())),
                None => Ok(None),
            },
            None => Err(not_found()),
        }
    }

    /// Keeps a value under a key of a table.
    pub fn put(&mut self, tid: &TableId, key: &str, value: &Json, caller: AgentPid) -> (r: Result<
        (),
        AgentRtError,
    >)
        ensures
            ({
                let e0 = old(self)@;
                let t = e0.tables[*tid];
                if !e0.tables.dom().contains(*tid) {
                    r matches Err(e) && e@ == ErrorV::Ets("table not found"@) && final(self)@ == e0
                } else if !may_write(t.access, t.owner, caller) {
                    r matches Err(e) && e@ == ErrorV::Ets("write access denied"@) && final(self)@
                        == e0
                } else if !has_room(t, key@) {
                    r matches Err(e) && e@ == ErrorV::Ets("table full"@) && final(self)@ == e0
                } else {
                    r is Ok && final(self)@ == with_table(
                        e0,
                        *tid,
                        TableV { data: t.data.insert(key@, value@), ..t },
                    )
                }
            }),
    {
        let ghost e0 = self@;
        match self.tables.get(tid) {
            Some(t) => {
                proof {
                    assert(t@.data.dom() =~= t.data@.dom());
                    assert(e0.tables[*tid] == t@);
                }
                t.check_write_access(caller)?;
                if !t.data.contains_str(key) && t.data.len() >= t.max_entries {
                    return Err(AgentRtError::Ets("table full".to_owned()));
                }
            },
            None => {
                return Err(not_found());
            },
        }
        if let Some(t) = self.tables.remove(tid) {
            let mut t = t;
            let ghost before = t@;
            t.data.insert(key.to_owned(), value.dup());
            assert(t@.data =~= before.data.insert(key@, value@));
            self.tables.insert(*tid, t);
            assert(self@.tables =~= e0.tables.insert(*tid, t@));
        }
        Ok(())
    }

    /// Drops the entry under a key of a table.
    pub fn delete_key(&mut self, tid: &TableId, key: &str, caller: AgentPid) -> (r: Result<
        (),
        AgentRtError,
    >)
        ensures
            ({
                let e0 = old(self)@;
                let t = e0.tables[*tid];
                if !e0.tables.dom().contains(*tid) {
                    r matches Err(e) && e@ == ErrorV::Ets("table not found"@) && final(self)@ == e0
                } else if !may_write(t.access, t.owner, caller) {
                    r matches Err(e) && e@ == ErrorV::Ets("write access denied"@) && final(self)@
                        == e0
                } else {
                    r is Ok && final(self)@ == with_table(
                        e0,
                        *tid,
                        TableV { data: t.data.remove(key@), ..t },
                    )
                }
            }),
    {
        let ghost e0 = self@;
        match self.tables.get(tid) {
            Some(t) => {
                t.check_write_access(caller)?;
            },
            None => {
                return Err(not_found());
            },
        }
        if let Some(t) = self.tables.remove(tid) {
            let mut t = t;
            let ghost before = t@;
            t.data.remove_str(key);
            assert(t@.data =~= before.data.remove(key@));
            self.tables.insert(*tid, t);
            assert(self@.tables =~= e0.tables.insert(*tid, t@));
        }
        Ok(())
    }

    /// How many entries a table has.
    pub fn count(&self, tid: &TableId) -> (r: Result<usize, AgentRtError>)
        ensures
            r is Ok <==> self@.tables.dom().contains(*tid),
            r matches Ok(n) ==> n == self@.tables[*tid].data.dom().len(),
            r matches Err(e) ==> e@ == ErrorV::Ets("table not found"@),
    {
        match self.tables.get(tid) {
            Some(t) => {
                proof {
                    assert(t@.data.dom() =~= t.data@.dom());
                }
                Ok(t.data.len())
            },
            None => Err(not_found()),
        }
    }

    /// The keys of a table, each once.
    pub fn keys(&self, tid: &TableId) -> (r: Result<Vec<String>, AgentRtError>)
        ensures
            r is Ok <==> self@.tables.dom().contains(*tid),
            r matches Ok(v) ==> {
                &&& text::strings_view(v@).no_duplicates()
                &&& forall|k: Seq<char>| #[trigger]
                    text::strings_view(v@).contains(k) <==> self@.tables[*tid].data.dom().contains(
                        k,
                    )
            },
            r matches Err(e) ==> e@ == ErrorV::Ets("table not found"@),
    {
        match self.tables.get(tid) {
            Some(t) => {
                proof {
                    assert(t@.data.dom() =~= t.data@.dom());
                }
                Ok(t.data.keys())
            },
            None => Err(not_found()),
        }
    }
}

/// A table never holds more entries than it may: a put keeps the bound.
pub proof fn law_put_keeps_capacity(t: TableV, key: Seq<char>, value: JsonV)
    requires
        t.data.dom().finite(),
        t.data.dom().len() <= t.max_entries,
        has_room(t, key),
    ensures
        t.data.insert(key, value).dom().len() <= t.max_entries,
{
    assert(t.data.insert(key, value).dom() =~= t.data.dom().insert(key));
}

/// Who may write may read.
pub proof fn law_writers_may_read(access: AccessType, owner: AgentPid, caller: AgentPid)
    requires
        may_write(access, owner, caller),
    ensures
        may_read(access, owner, caller),
{
}

/// A table gives back what was put under a key, until it is put anew or deleted; other keys and
/// other tables are not touched.
pub proof fn law_put_is_got(
    e: EtsV,
    tid: TableId,
    other_table: TableId,
    key: Seq<char>,
    other: Seq<char>,
    value: JsonV,
)
    requires
        e.tables.dom().contains(tid),
        other_table != tid,
        other != key,
    ensures
        ({
            let t = e.tables[tid];
            let put = with_table(e, tid, TableV { data: t.data.insert(key, value), ..t });
            let deleted = with_table(e, tid, TableV { data: t.data.remove(key), ..t });
            &&& put.tables[tid].data.dom().contains(key) && put.tables[tid].data[key] == value
            &&& put.tables[tid].data.dom().contains(other) == t.data.dom().contains(other)
            &&& t.data.dom().contains(other) ==> put.tables[tid].data[other] == t.data[other]
            &&& !deleted.tables[tid].data.dom().contains(key)
            &&& put.tables.dom().contains(other_table) == e.tables.dom().contains(other_table)
            &&& e.tables.dom().contains(other_table) ==> put.tables[other_table]
                == e.tables[other_table]
        }),
{
}

/// A public table is everybody's, a private one only its owner's, and a protected one everybody
/// may read and only its owner may write.
pub proof fn law_access_by_kind(owner: AgentPid, caller: AgentPid)
    ensures
        may_read(AccessType::Public, owner, caller) && may_write(AccessType::Public, owner, caller),
        may_read(AccessType::Protected, owner, caller),
        may_write(AccessType::Protected, owner, caller) <==> caller == owner,
        may_read(AccessType::Private, owner, caller) <==> caller == owner,
        may_write(AccessType::Private, owner, caller) <==> caller == owner,
{
}

/// A table that is full takes no new key, and still takes a new value for a key that it has; one
/// that is not full takes any key.
pub proof fn law_full_table_takes_no_key(t: TableV, key: Seq<char>)
    ensures
        t.data.dom().contains(key) ==> has_room(t, key),
        t.data.dom().len() < t.max_entries ==> has_room(t, key),
        t.data.dom().len() >= t.max_entries && !t.data.dom().contains(key) ==> !has_room(t, key),
{
}

} // verus!
