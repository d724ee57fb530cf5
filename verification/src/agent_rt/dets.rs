//! Tables that last: a snapshot file and a log of the changes since.
use vstd::prelude::*;
use crate::json;
use crate::util::text;
use crate::agent_rt::ets;
use crate::agent_rt::error::{AgentRtError, ErrorV};
use crate::agent_rt::ets::{check_read, check_write, AccessType};
use crate::agent_rt::types::AgentPid;
use crate::json::{Json, JsonV, NumV, ObjectBuilder};
use crate::util::assoc::{AssocMap, MapKey};
use crate::util::text::{blank, concat2, concat3, starts_with, str_eq, u64_to_text};

verus! {

/// The version of the file format.
pub const SCHEMA_VERSION: u64 = 1;

/// The lines of a table's files: the snapshot, where there is one, and the log.
pub struct DetsFiles {
    pub dat: Option<Vec<String>>,
    pub log: Vec<String>,
}

/// What a table's files are.
#[verifier::ext_equal]
pub struct FilesV {
    pub dat: Option<Seq<Seq<char>>>,
    pub log: Seq<Seq<char>>,
}

impl View for DetsFiles {
    type V = FilesV;

    open spec fn view(&self) -> FilesV {
        FilesV {
            dat: match self.dat {
                Some(v) => Some(text::strings_view(v@)),
                None => None,
            },
            log: text::strings_view(self.log@),
        }
    }
}

/// The contents of a table.
pub type Contents = Map<Seq<char>, JsonV>;

// ---------------------------------------------------------------------------
// The lines of the files
// ---------------------------------------------------------------------------
/// The header of a snapshot.
pub open spec fn header_record(table: Seq<char>) -> JsonV {
    JsonV::Object(
        seq![
            ("schema_version"@, JsonV::Num(NumV::PosInt(SCHEMA_VERSION))),
            ("type"@, JsonV::Str("dets"@)),
            ("table"@, JsonV::Str(table)),
        ],
    )
}

/// An entry of a snapshot.
pub open spec fn entry_record(key: Seq<char>, value: JsonV) -> JsonV {
    JsonV::Object(seq![("key"@, JsonV::Str(key)), ("value"@, value)])
}

/// The log entry of a put.
pub open spec fn put_record(key: Seq<char>, value: JsonV) -> JsonV {
    JsonV::Object(
        seq![("op"@, JsonV::Str("put"@)), ("key"@, JsonV::Str(key)), ("value"@, value)],
    )
}

/// The log entry of a delete.
pub open spec fn delete_record(key: Seq<char>) -> JsonV {
    JsonV::Object(seq![("op"@, JsonV::Str("delete"@)), ("key"@, JsonV::Str(key))])
}

/// The names of the members of a header.
pub open spec fn header_names() -> Seq<Seq<char>> {
    seq!["schema_version"@, "type"@, "table"@]
}

/// The names of the members of an entry.
pub open spec fn entry_names() -> Seq<Seq<char>> {
    seq!["key"@, "value"@]
}

/// The names of the members of a log entry.
pub open spec fn change_names() -> Seq<Seq<char>> {
    seq!["op"@, "key"@, "value"@]
}

/// The schema version that a header gives.
pub open spec fn header_of(line: Seq<char>) -> Result<u64, Seq<char>> {
    match json::json_parsed(line) {
        Ok(v) => version_in(json::record(v, header_names(), 3)),
        Err(e) => Err(e),
    }
}

/// The schema version in a header.
pub open spec fn version_in(v: JsonV) -> Result<u64, Seq<char>> {
    if v.get_unsigned("schema_version"@) matches Some(n) && n <= u32::MAX && v.get_text(
        "type"@,
    ) is Some && v.get_text("table"@) is Some {
        Ok(v.get_unsigned("schema_version"@)->0)
    } else {
        Err("a member is missing or has the wrong type"@)
    }
}

/// The key and the value that a line of a snapshot gives.
pub open spec fn entry_of(line: Seq<char>) -> Result<(Seq<char>, JsonV), Seq<char>> {
    match json::json_parsed(line) {
        Ok(v) => pair_in(json::record(v, entry_names(), 2)),
        Err(e) => Err(e),
    }
}

/// The key and the value in an entry.
pub open spec fn pair_in(v: JsonV) -> Result<(Seq<char>, JsonV), Seq<char>> {
    if v.get_text("key"@) is Some && v.get("value"@) is Some {
        Ok((v.get_text("key"@)->0, v.get("value"@)->0))
    } else {
        Err("a member is missing or has the wrong type"@)
    }
}

/// A change of a table.
pub enum ChangeV {
    Put(Seq<char>, JsonV),
    Delete(Seq<char>),
    Nothing,
}

/// The change that a line of the log gives.
pub open spec fn change_of(line: Seq<char>) -> Result<ChangeV, Seq<char>> {
    match json::json_parsed(line) {
        Ok(v) => change_in(json::record(v, change_names(), 3)),
        Err(e) => Err(e),
    }
}

/// The change in a log entry. A put without a value changes nothing, and neither does an
/// operation of another name.
pub open spec fn change_in(v: JsonV) -> Result<ChangeV, Seq<char>> {
    match (v.get_text("op"@), v.get_text("key"@)) {
        (Some(op), Some(key)) => if op == "put"@ {
            match v.get("value"@) {
                Some(w) => Ok(ChangeV::Put(key, w)),
                None => Ok(ChangeV::Nothing),
            }
        } else if op == "delete"@ {
            Ok(ChangeV::Delete(key))
        } else {
            Ok(ChangeV::Nothing)
        },
        _ => Err("a member is missing or has the wrong type"@),
    }
}

/// The contents after a change.
pub open spec fn changed(m: Contents, c: ChangeV) -> Contents {
    match c {
        ChangeV::Put(k, v) => m.insert(k, v),
        ChangeV::Delete(k) => m.remove(k),
        ChangeV::Nothing => m,
    }
}

/// The error of a snapshot of a later format.
pub open spec fn version_error(n: u64) -> Seq<char> {
    "schema version "@ + text::decimal(n as nat) + " not supported, max supported: 1"@
}

/// What the lines of a snapshot give: whether the header is still to come, and the contents.
/// Blank lines do not count, and the first other line is the header.
pub open spec fn read_dat(lines: Seq<Seq<char>>) -> Result<(bool, Contents), Seq<char>>
    decreases lines.len(),
{
    if lines.len() == 0 {
        Ok((true, Map::empty()))
    } else {
        match read_dat(lines.drop_last()) {
            Ok((first, m)) => if text::is_blank(lines.last()) {
                Ok((first, m))
            } else if first {
                match header_of(lines.last()) {
                    Ok(n) => if n > SCHEMA_VERSION {
                        Err(version_error(n))
                    } else {
                        Ok((false, m))
                    },
                    Err(e) => Err("bad dat header: "@ + e),
                }
            } else {
                match entry_of(lines.last()) {
                    Ok((k, v)) => Ok((false, m.insert(k, v))),
                    Err(e) => Err("bad dat entry: "@ + e),
                }
            },
            Err(e) => Err(e),
        }
    }
}

/// The contents after the changes of a log.
pub open spec fn read_log(m: Contents, lines: Seq<Seq<char>>) -> Result<Contents, Seq<char>>
    decreases lines.len(),
{
    if lines.len() == 0 {
        Ok(m)
    } else {
        match read_log(m, lines.drop_last()) {
            Ok(n) => if text::is_blank(lines.last()) {
                Ok(n)
            } else {
                match change_of(lines.last()) {
                    Ok(c) => Ok(changed(n, c)),
                    Err(e) => Err("bad log entry: "@ + e),
                }
            },
            Err(e) => Err(e),
        }
    }
}

/// The contents that a table's files give: those of the snapshot, with the changes of the log.
pub open spec fn recovered(f: FilesV) -> Result<Contents, Seq<char>> {
    let base = match f.dat {
        Some(lines) => read_dat(lines),
        None => Ok((true, Map::empty())),
    };
    match base {
        Ok((_, m)) => read_log(m, f.log),
        Err(e) => Err(e),
    }
}

/// A change of a table, read from the log.
pub enum Change {
    Put(String, Json),
    Delete(String),
    Nothing,
}

impl View for Change {
    type V = ChangeV;

    open spec fn view(&self) -> ChangeV {
        match self {
            Change::Put(k, v) => ChangeV::Put(k@, v@),
            Change::Delete(k) => ChangeV::Delete(k@),
            Change::Nothing => ChangeV::Nothing,
        }
    }
}

fn shape_error() -> (r: String)
    ensures
        r@ == "a member is missing or has the wrong type"@,
{
    "a member is missing or has the wrong type".to_owned()
}

/// Reads the header of a snapshot.
pub fn decode_header(line: &str) -> (r: Result<u64, String>)
    ensures
        (match r {
            Ok(n) => Ok(n),
            Err(e) => Err(e@),
        }) == header_of(line@),
{
    match Json::parse(line) {
        Ok(j) => {
            let names: Vec<&str> = vec!["schema_version", "type", "table"];
            assert(json::names_view(names@) =~= header_names());
            let v: Json = j.as_record(&names, 3);
            match v.get_u64("schema_version") {
                Some(n) => if n <= 0xffff_ffff && v.get_str("type").is_some() && v.get_str(
                    "table",
                ).is_some() {
                    Ok(n)
                } else {
                    Err(shape_error())
                },
                None => Err(shape_error()),
            }
        },
        Err(e) => Err(e),
    }
}

/// Reads an entry of a snapshot.
pub fn decode_entry(line: &str) -> (r: Result<(String, Json), String>)
    ensures
        (match r {
            Ok(e) => Ok((e.0@, e.1@)),
            Err(e) => Err(e@),
        }) == entry_of(line@),
{
    match Json::parse(line) {
        Ok(j) => {
            let names: Vec<&str> = vec!["key", "value"];
            assert(json::names_view(names@) =~= entry_names());
            let v: Json = j.as_record(&names, 2);
            match (v.get_str("key"), v.get("value")) {
                (Some(k), Some(w)) => Ok((k.clone(), w.dup())),
                _ => Err(shape_error()),
            }
        },
        Err(e) => Err(e),
    }
}

/// Reads a change from a line of the log.
pub fn decode_change(line: &str) -> (r: Result<Change, String>)
    ensures
        (match r {
            Ok(c) => Ok(c@),
            Err(e) => Err(e@),
        }) == change_of(line@),
{
    match Json::parse(line) {
        Ok(j) => {
            let names: Vec<&str> = vec!["op", "key", "value"];
            assert(json::names_view(names@) =~= change_names());
            let v: Json = j.as_record(&names, 3);
            match (v.get_str("op"), v.get_str("key")) {
                (Some(op), Some(key)) => if str_eq(op.as_str(), "put") {
                    match v.get("value") {
                        Some(w) => Ok(Change::Put(key.clone(), w.dup())),
                        None => Ok(Change::Nothing),
                    }
                } else if str_eq(op.as_str(), "delete") {
                    Ok(Change::Delete(key.clone()))
                } else {
                    Ok(Change::Nothing)
                },
                _ => Err(shape_error()),
            }
        },
        Err(e) => Err(e),
    }
}

fn make_header(table: &str) -> (r: Json)
    ensures
        r@ == header_record(table@),
{
    let mut o = ObjectBuilder::new();
    o.put_u64("schema_version", SCHEMA_VERSION);
    o.put_str("type", "dets");
    o.put_str("table", table);
    assert(o@ =~= header_record(table@)->Object_0);
    o.build()
}

fn make_entry(key: &str, value: &Json) -> (r: Json)
    ensures
        r@ == entry_record(key@, value@),
{
    let mut o = ObjectBuilder::new();
    o.put_str("key", key);
    o.put("value", value.dup());
    assert(o@ =~= entry_record(key@, value@)->Object_0);
    o.build()
}

fn make_put(key: &str, value: &Json) -> (r: Json)
    ensures
        r@ == put_record(key@, value@),
{
    let mut o = ObjectBuilder::new();
    o.put_str("op", "put");
    o.put_str("key", key);
    o.put("value", value.dup());
    assert(o@ =~= put_record(key@, value@)->Object_0);
    o.build()
}

fn make_delete(key: &str) -> (r: Json)
    ensures
        r@ == delete_record(key@),
{
    let mut o = ObjectBuilder::new();
    o.put_str("op", "delete");
    o.put_str("key", key);
    assert(o@ =~= delete_record(key@)->Object_0);
    o.build()
}

// ---------------------------------------------------------------------------
// What is read back
// ---------------------------------------------------------------------------
/// A value that the files can give back: whole numbers, distinct names that are not reserved,
/// and no deeper than the reader goes within a record.
pub open spec fn lasting(v: JsonV) -> bool {
    json::plain(v) && json::shallow(v, 126)
}

/// All values of a table can be given back by its files.
pub open spec fn all_lasting(m: Contents) -> bool {
    forall|k: Seq<char>| #[trigger] m.dom().contains(k) ==> lasting(m[k])
}

/// The same keys with the same JSON values.
pub open spec fn alike(m: Contents, n: Contents) -> bool {
    &&& m.dom() == n.dom()
    &&& forall|k: Seq<char>| #[trigger] m.dom().contains(k) ==> json::same_json(m[k], n[k])
}

/// The files give back the contents.
pub open spec fn mirrored(f: FilesV, m: Contents) -> bool {
    recovered(f) matches Ok(n) && alike(m, n)
}

proof fn lemma_put_line(line: Seq<char>, k: Seq<char>, v: JsonV)
    requires
        json::reads_back(line, put_record(k, v)),
    ensures
        change_of(line) matches Ok(ChangeV::Put(k2, w)) && k2 == k && json::same_json(v, w),
{
    let x = put_record(k, v)->Object_0;
    let w = json::json_parsed(line)->Ok_0;
    assert(x[0] == ("op"@, JsonV::Str("put"@)));
    assert(x[1] == ("key"@, JsonV::Str(k)));
    assert(x[2] == ("value"@, v));
    json::lemma_same_member(x, w, 0);
    json::lemma_same_member(x, w, 1);
    json::lemma_same_member(x, w, 2);
}

proof fn lemma_delete_line(line: Seq<char>, k: Seq<char>)
    requires
        json::reads_back(line, delete_record(k)),
    ensures
        change_of(line) == Ok::<ChangeV, Seq<char>>(ChangeV::Delete(k)),
{
    let x = delete_record(k)->Object_0;
    assert(x[0] == ("op"@, JsonV::Str("delete"@)));
    assert(x[1] == ("key"@, JsonV::Str(k)));
    let w = json::json_parsed(line)->Ok_0;
    json::lemma_same_member(x, w, 0);
    json::lemma_same_member(x, w, 1);
    reveal_strlit("put");
    reveal_strlit("delete");
    assert("put"@.len() != "delete"@.len());
}

proof fn lemma_entry_line(line: Seq<char>, k: Seq<char>, v: JsonV)
    requires
        json::reads_back(line, entry_record(k, v)),
    ensures
        entry_of(line) matches Ok((k2, w)) && k2 == k && json::same_json(v, w),
{
    let x = entry_record(k, v)->Object_0;
    assert(x[0] == ("key"@, JsonV::Str(k)));
    assert(x[1] == ("value"@, v));
    let w = json::json_parsed(line)->Ok_0;
    json::lemma_same_member(x, w, 0);
    json::lemma_same_member(x, w, 1);
}

proof fn lemma_header_line(line: Seq<char>, table: Seq<char>)
    requires
        json::reads_back(line, header_record(table)),
    ensures
        header_of(line) == Ok::<u64, Seq<char>>(SCHEMA_VERSION),
{
    let x = header_record(table)->Object_0;
    assert(x[0] == ("schema_version"@, JsonV::Num(NumV::PosInt(SCHEMA_VERSION))));
    assert(x[1] == ("type"@, JsonV::Str("dets"@)));
    assert(x[2] == ("table"@, JsonV::Str(table)));
    let w = json::json_parsed(line)->Ok_0;
    json::lemma_same_member(x, w, 0);
    json::lemma_same_member(x, w, 1);
    json::lemma_same_member(x, w, 2);
}

proof fn lemma_records_storable(k: Seq<char>, v: JsonV)
    requires
        lasting(v),
    ensures
        json::storable(put_record(k, v)),
        json::storable(entry_record(k, v)),
{
    reveal_strlit("op");
    reveal_strlit("key");
    reveal_strlit("value");
    assert("op"@.len() == 2 && "key"@.len() == 3 && "value"@.len() == 5);
    json::lemma_record_storable(put_record(k, v)->Object_0, 126);
    json::lemma_record_storable(entry_record(k, v)->Object_0, 126);
}

proof fn lemma_marks_storable(k: Seq<char>)
    ensures
        json::storable(delete_record(k)),
        json::storable(header_record(k)),
{
    reveal_strlit("op");
    reveal_strlit("key");
    reveal_strlit("schema_version");
    reveal_strlit("type");
    reveal_strlit("table");
    assert("op"@.len() == 2 && "key"@.len() == 3 && "schema_version"@.len() == 14 && "type"@.len()
        == 4 && "table"@.len() == 5);
    json::lemma_record_storable(delete_record(k)->Object_0, 126);
    json::lemma_record_storable(header_record(k)->Object_0, 126);
}

/// A log with one more line gives the contents with one more change.
proof fn lemma_log_push(f: FilesV, line: Seq<char>, m: Contents, c: ChangeV)
    requires
        recovered(f) == Ok::<Contents, Seq<char>>(m),
        change_of(line) == Ok::<ChangeV, Seq<char>>(c),
        !text::is_blank(line),
    ensures
        recovered(FilesV { log: f.log.push(line), ..f }) == Ok::<Contents, Seq<char>>(
            changed(m, c),
        ),
{
    assert(f.log.push(line).drop_last() =~= f.log);
}

// ---------------------------------------------------------------------------
// The table
// ---------------------------------------------------------------------------
/// A table that lasts.
pub struct DetsTable {
    pub name: String,
    pub access: AccessType,
    pub owner: AgentPid,
    pub heir: Option<AgentPid>,
    cache: AssocMap<String, Json>,
    max_entries: usize,
    dirty_count: usize,
    compact_threshold: usize,
    log_open: bool,
}

/// What a table is.
#[verifier::ext_equal]
pub struct DetsV {
    pub name: Seq<char>,
    pub access: AccessType,
    pub owner: AgentPid,
    pub heir: Option<AgentPid>,
    pub cache: Contents,
    pub max_entries: usize,
    /// How many changes the log holds.
    pub dirty: usize,
    /// After how many changes a new snapshot is due.
    pub threshold: usize,
    /// Whether changes are written to the log.
    pub log_open: bool,
}

impl View for DetsTable {
    type V = DetsV;

    closed spec fn view(&self) -> DetsV {
        DetsV {
            name: self.name@,
            access: self.access,
            owner: self.owner,
            heir: self.heir,
            cache: ets::values_view(self.cache@),
            max_entries: self.max_entries,
            dirty: self.dirty_count,
            threshold: self.compact_threshold,
            log_open: self.log_open,
        }
    }
}

/// `entries` lists the contents, each key once.
pub open spec fn lists(entries: Seq<(Seq<char>, JsonV)>, m: Contents) -> bool {
    &&& entries.len() == m.dom().len()
    &&& forall|i: int|
        0 <= i < entries.len() ==> m.dom().contains((#[trigger] entries[i]).0) && m[entries[i].0]
            == entries[i].1
    &&& forall|i: int, j: int|
        0 <= i < entries.len() && 0 <= j < entries.len() && i != j ==> (#[trigger] entries[i]).0
            != (#[trigger] entries[j]).0
    &&& forall|k: Seq<char>| #[trigger]
        m.dom().contains(k) ==> exists|i: int| 0 <= i < entries.len() && (#[trigger] entries[i]).0
            == k
}

/// The lines of a snapshot: the header, then one line for each entry.
pub open spec fn snapshot_lines(table: Seq<char>, entries: Seq<(Seq<char>, JsonV)>) -> Seq<Seq<char>> {
    seq![json::record_text(header_record(table))] + entries.map_values(
        |e: (Seq<char>, JsonV)| json::record_text(entry_record(e.0, e.1)),
    )
}

/// The map that the first entries of a list stand for.
spec fn entries_contents(entries: Seq<(Seq<char>, JsonV)>) -> Contents
    decreases entries.len(),
{
    if entries.len() == 0 {
        Map::empty()
    } else {
        entries_contents(entries.drop_last()).insert(entries.last().0, entries.last().1)
    }
}

proof fn lemma_lists_contents(entries: Seq<(Seq<char>, JsonV)>, m: Contents)
    requires
        lists(entries, m),
    ensures
        entries_contents(entries) == m,
{
    lemma_entries_contents(entries);
    let e = entries_contents(entries);
    assert forall|k: Seq<char>| e.dom().contains(k) == m.dom().contains(k) by {
        if m.dom().contains(k) {
            let i = choose|i: int| 0 <= i < entries.len() && (#[trigger] entries[i]).0 == k;
            assert(e.dom().contains(entries[i].0));
        }
    }
    assert forall|k: Seq<char>| e.dom().contains(k) implies e[k] == m[k] by {
        let i = choose|i: int| 0 <= i < entries.len() && (#[trigger] entries[i]).0 == k;
        assert(e[entries[i].0] == entries[i].1);
    }
    assert(e =~= m);
}

proof fn lemma_entries_contents(entries: Seq<(Seq<char>, JsonV)>)
    requires
        forall|i: int, j: int|
            0 <= i < entries.len() && 0 <= j < entries.len() && i != j ==> (
            #[trigger] entries[i]).0 != (#[trigger] entries[j]).0,
    ensures
        forall|i: int|
            0 <= i < entries.len() ==> entries_contents(entries).dom().contains(
                (#[trigger] entries[i]).0,
            ) && entries_contents(entries)[entries[i].0] == entries[i].1,
        forall|k: Seq<char>| #[trigger]
            entries_contents(entries).dom().contains(k) ==> exists|i: int|
                0 <= i < entries.len() && (#[trigger] entries[i]).0 == k,
    decreases entries.len(),
{
    if entries.len() > 0 {
        let t = entries.drop_last();
        assert forall|i: int, j: int| 0 <= i < t.len() && 0 <= j < t.len() && i != j implies (
        #[trigger] t[i]).0 != (#[trigger] t[j]).0 by {
            assert(t[i] == entries[i] && t[j] == entries[j]);
        }
        lemma_entries_contents(t);
        let last = entries.len() - 1;
        assert forall|i: int| 0 <= i < entries.len() implies entries_contents(entries).dom().contains(
            (#[trigger] entries[i]).0,
        ) && entries_contents(entries)[entries[i].0] == entries[i].1 by {
            if i < last {
                assert(t[i] == entries[i]);
                assert(entries[i].0 != entries[last].0);
            }
        }
        assert forall|k: Seq<char>| #[trigger] entries_contents(entries).dom().contains(
            k,
        ) implies exists|i: int| 0 <= i < entries.len() && (#[trigger] entries[i]).0 == k by {
            if k == entries[last].0 {
                assert(entries[last].0 == k);
            } else {
                assert(entries_contents(t).dom().contains(k));
                let i = choose|i: int| 0 <= i < t.len() && (#[trigger] t[i]).0 == k;
                assert(entries[i].0 == k);
            }
        }
    }
}

/// A table takes an entry: one that it has already, or a new one while it is not full.
pub open spec fn takes(t: DetsV, key: Seq<char>) -> bool {
    t.cache.dom().contains(key) || t.cache.dom().len() < t.max_entries
}

/// One change more.
pub open spec fn one_more(n: usize) -> usize {
    if n == usize::MAX {
        n
    } else {
        (n + 1) as usize
    }
}

/// The files and the table after a change with the given log line: the line is written where
/// the log is open, and where that makes enough changes, a new snapshot takes the place of
/// the files.
pub open spec fn after_change(
    f0: FilesV,
    t0: DetsV,
    line: Seq<char>,
    cache: Contents,
    f1: FilesV,
    t1: DetsV,
) -> bool {
    let t = DetsV { cache, dirty: one_more(t0.dirty), ..t0 };
    if t.dirty >= t.threshold {
        &&& t1 == (DetsV { dirty: 0, log_open: true, ..t })
        &&& f1.log == Seq::<Seq<char>>::empty()
        &&& exists|entries: Seq<(Seq<char>, JsonV)>| #[trigger]
            lists(entries, cache) && f1.dat == Some(snapshot_lines(t0.name, entries))
    } else {
        &&& t1 == t
        &&& f1.dat == f0.dat
        &&& f1.log == if t0.log_open {
            f0.log.push(line)
        } else {
            f0.log
        }
    }
}

impl DetsTable {
    /// Opens a table from the lines of its files.
    pub fn open(
        name: &str,
        files: &DetsFiles,
        access: AccessType,
        owner: AgentPid,
        heir: Option<AgentPid>,
        max_entries: usize,
        compact_threshold: usize,
    ) -> (r: Result<DetsTable, AgentRtError>)
        ensures
            r is Ok <==> recovered(files@) is Ok,
            r matches Ok(t) ==> t@ == (DetsV {
                name: name@,
                access,
                owner,
                heir,
                cache: recovered(files@)->Ok_0,
                max_entries,
                dirty: 0,
                threshold: compact_threshold,
                log_open: true,
            }),
            r matches Err(e) ==> recovered(files@) == Err::<Contents, Seq<char>>(
                (e@->Ets_0),
            ) && e@ is Ets,
            r matches Ok(t) ==> (all_lasting(t@.cache) ==> mirrored(files@, t@.cache)),
    {
        let mut cache: AssocMap<String, Json> = AssocMap::new();
        assert(ets::values_view(cache@) =~= Map::<Seq<char>, JsonV>::empty());
        if let Some(lines) = &files.dat {
            let ghost all = text::strings_view(lines@);
            let mut first: bool = true;
            let mut i: usize = 0;
            assert(all.take(0) =~= Seq::<Seq<char>>::empty());
            while i < lines.len()
                invariant
                    i <= lines@.len(),
                    all == text::strings_view(lines@),
                    files@.dat == Some(all),
                    read_dat(all.take(i as int)) == Ok::<(bool, Contents), Seq<char>>(
                        (first, ets::values_view(cache@)),
                    ),
                decreases lines@.len() - i,
            {
                let line = lines[i].as_str();
                let ghost before = ets::values_view(cache@);
                proof {
                    assert(all.take(i as int + 1).drop_last() =~= all.take(i as int));
                    assert(all.take(i as int + 1).last() == line@);
                }
                if !blank(line) {
                    if first {
                        match decode_header(line) {
                            Ok(n) => {
                                if n > SCHEMA_VERSION {
                                    let num: String = u64_to_text(n);
                                    let msg: String = concat3(
                                        "schema version ",
                                        num.as_str(),
                                        " not supported, max supported: 1",
                                    );
                                    proof {
                                        lemma_dat_error(all, i as int + 1, msg@);
                                    }
                                    return Err(AgentRtError::Ets(msg));
                                }
                                first = false;
                            },
                            Err(e) => {
                                let msg: String = concat2("bad dat header: ", e.as_str());
                                proof {
                                    lemma_dat_error(all, i as int + 1, msg@);
                                }
                                return Err(AgentRtError::Ets(msg));
                            },
                        }
                    } else {
                        match decode_entry(line) {
                            Ok(e) => {
                                cache.insert(e.0, e.1);
                                assert(ets::values_view(cache@) =~= before.insert(e.0@, e.1@));
                            },
                            Err(e) => {
                                let msg: String = concat2("bad dat entry: ", e.as_str());
                                proof {
                                    lemma_dat_error(all, i as int + 1, msg@);
                                }
                                return Err(AgentRtError::Ets(msg));
                            },
                        }
                    }
                }
                i += 1;
            }
            assert(all.take(i as int) =~= all);
        }
        let ghost base = ets::values_view(cache@);
        let ghost log = text::strings_view(files.log@);
        let mut j: usize = 0;
        assert(log.take(0) =~= Seq::<Seq<char>>::empty());
        assert(recovered(files@) == read_log(base, log));
        while j < files.log.len()
            invariant
                j <= files.log@.len(),
                log == text::strings_view(files.log@),
                recovered(files@) == read_log(base, log),
                read_log(base, log.take(j as int)) == Ok::<Contents, Seq<char>>(
                    ets::values_view(cache@),
                ),
            decreases files.log@.len() - j,
        {
            let line = files.log[j].as_str();
            let ghost before = ets::values_view(cache@);
            proof {
                assert(log.take(j as int + 1).drop_last() =~= log.take(j as int));
                assert(log.take(j as int + 1).last() == line@);
            }
            if !blank(line) {
                match decode_change(line) {
                    Ok(c) => match c {
                        Change::Put(k, v) => {
                            cache.insert(k, v);
                            assert(ets::values_view(cache@) =~= before.insert(k@, v@));
                        },
                        Change::Delete(k) => {
                            cache.remove(&k);
                            assert(ets::values_view(cache@) =~= before.remove(k@));
                        },
                        Change::Nothing => {},
                    },
                    Err(e) => {
                        let msg: String = concat2("bad log entry: ", e.as_str());
                        proof {
                            lemma_log_error(base, log, j as int + 1, msg@);
                        }
                        return Err(AgentRtError::Ets(msg));
                    },
                }
            }
            j += 1;
        }
        assert(log.take(j as int) =~= log);
        proof {
            let m = ets::values_view(cache@);
            if all_lasting(m) {
                assert forall|k: Seq<char>| #[trigger] m.dom().contains(k) implies json::same_json(
                    m[k],
                    m[k],
                ) by {
                    json::lemma_same_self(m[k]);
                }
            }
        }
        Ok(
            DetsTable {
                name: name.to_owned(),
                access,
                owner,
                heir,
                cache,
                max_entries,
                dirty_count: 0,
                compact_threshold,
                log_open: true,
            },
        )
    }

    /// The value under a key.
    pub fn get(&self, key: &str, caller: AgentPid) -> (r: Result<Option<Json>, AgentRtError>)
        ensures
            r is Ok <==> ets::may_read(self@.access, self@.owner, caller),
            r matches Ok(v) ==> {
                &&& v is Some <==> self@.cache.dom().contains(key@)
                &&& v matches Some(j) ==> j@ == self@.cache[key@]
            },
            r matches Err(e) ==> e@ == ErrorV::Ets("read access denied"@),
    {
        check_read(self.access, self.owner, caller)?;
        match self.cache.get_str(key) {
            Some(v) => Ok(Some(v.dup())),
            None => Ok(None),
        }
    }

    /// The log line of a put, where the caller may write and there is room. The table itself
    /// changes only once the line is in the log: see [`DetsTable::finish_put`].
    pub fn begin_put(&self, key: &str, value: &Json, caller: AgentPid) -> (r: Result<
        String,
        AgentRtError,
    >)
        ensures
            if !ets::may_write(self@.access, self@.owner, caller) {
                r matches Err(e) && e@ == ErrorV::Ets("write access denied"@)
            } else if !takes(self@, key@) {
                r matches Err(e) && e@ == ErrorV::Ets("table full"@)
            } else {
                r matches Ok(line) && line@ == json::record_text(put_record(key@, value@)) && (lasting(
                    value@,
                ) ==> json::reads_back(line@, put_record(key@, value@))) && !text::is_blank(line@)
            },
    {
        proof {
            assert(self@.cache.dom() =~= self.cache@.dom());
        }
        check_write(self.access, self.owner, caller)?;
        if !self.cache.contains_str(key) && self.cache.len() >= self.max_entries {
            return Err(AgentRtError::Ets("table full".to_owned()));
        }
        let rec = make_put(key, value);
        proof {
            if lasting(value@) {
                lemma_records_storable(key@, value@);
            }
        }
        Ok(rec.to_record())
    }

    /// Puts the value into the table, once its line is in the log. Tells whether a new snapshot
    /// is due.
    pub fn finish_put(&mut self, key: &str, value: &Json) -> (r: bool)
        ensures
            final(self)@ == (DetsV {
                cache: old(self)@.cache.insert(key@, value@),
                dirty: one_more(old(self)@.dirty),
                ..old(self)@
            }),
            r == (final(self)@.dirty >= final(self)@.threshold),
    {
        self.cache.insert(key.to_owned(), value.dup());
        self.dirty_count = if self.dirty_count == usize::MAX {
            self.dirty_count
        } else {
            self.dirty_count + 1
        };
        assert(self@.cache =~= old(self)@.cache.insert(key@, value@));
        self.dirty_count >= self.compact_threshold
    }

    /// The log line of a delete, where the caller may write.
    pub fn begin_delete(&self, key: &str, caller: AgentPid) -> (r: Result<String, AgentRtError>)
        ensures
            if !ets::may_write(self@.access, self@.owner, caller) {
                r matches Err(e) && e@ == ErrorV::Ets("write access denied"@)
            } else {
                r matches Ok(line) && line@ == json::record_text(delete_record(key@))
                    && json::reads_back(line@, delete_record(key@)) && !text::is_blank(line@)
            },
    {
        check_write(self.access, self.owner, caller)?;
        let rec = make_delete(key);
        proof {
            lemma_marks_storable(key@);
        }
        Ok(rec.to_record())
    }

    /// Drops a key from the table, once that is in the log. Tells whether a new snapshot is due.
    pub fn finish_delete(&mut self, key: &str) -> (r: bool)
        ensures
            final(self)@ == (DetsV {
                cache: old(self)@.cache.remove(key@),
                dirty: one_more(old(self)@.dirty),
                ..old(self)@
            }),
            r == (final(self)@.dirty >= final(self)@.threshold),
    {
        self.cache.remove_str(key);
        self.dirty_count = if self.dirty_count == usize::MAX {
            self.dirty_count
        } else {
            self.dirty_count + 1
        };
        assert(self@.cache =~= old(self)@.cache.remove(key@));
        self.dirty_count >= self.compact_threshold
    }

    /// Whether changes are written to the log.
    pub fn log_is_open(&self) -> (r: bool)
        ensures
            r == self@.log_open,
    {
        self.log_open
    }

    /// The lines of a snapshot of this table. Reading them gives the contents back, where all
    /// values last.
    pub fn snapshot(&self) -> (r: Vec<String>)
        ensures
            exists|entries: Seq<(Seq<char>, JsonV)>| #[trigger]
                lists(entries, self@.cache) && text::strings_view(r@) == snapshot_lines(
                    self@.name,
                    entries,
                ),
            all_lasting(self@.cache) ==> mirrored(
                FilesV { dat: Some(text::strings_view(r@)), log: Seq::empty() },
                self@.cache,
            ),
    {
        self.cache.facts();
        let ghost ord = self.cache.order();
        let ghost entries = ord.map_values(|e: (String, Json)| (e.0@, e.1@));
        let mut lines: Vec<String> = Vec::new();
        let head = make_header(self.name.as_str()).to_record();
        let ghost good = all_lasting(self@.cache);
        proof {
            lemma_marks_storable(self.name@);
            lemma_header_line(head@, self.name@);
            assert(!text::is_blank(head@));
        }
        lines.push(head);
        let n: usize = self.cache.len();
        let mut i: usize = 0;
        let ghost mut m: Contents = Map::empty();
        proof {
            let v = text::strings_view(lines@);
            assert(v =~= seq![head@]);
            assert(v.drop_last() =~= Seq::<Seq<char>>::empty());
            assert(v =~= snapshot_lines(self.name@, entries.take(0)));
            assert(read_dat(v.drop_last()) == Ok::<(bool, Contents), Seq<char>>(
                (true, Map::empty()),
            ));
            assert(alike(entries_contents(entries.take(0)), m));
        }
        while i < n
            invariant
                i <= n,
                n == ord.len(),
                ord == self.cache.order(),
                entries == ord.map_values(|e: (String, Json)| (e.0@, e.1@)),
                good == all_lasting(self@.cache),
                forall|q: int|
                    0 <= q < ord.len() ==> self.cache@.dom().contains((#[trigger] ord[q]).0.id())
                        && self.cache@[ord[q].0.id()] == ord[q].1,
                text::strings_view(lines@) == snapshot_lines(self.name@, entries.take(i as int)),
                good ==> read_dat(text::strings_view(lines@)) == Ok::<(bool, Contents), Seq<char>>(
                    (false, m),
                ) && alike(entries_contents(entries.take(i as int)), m),
            decreases n - i,
        {
            let (k, v) = self.cache.entry(i);
            let ghost before = text::strings_view(lines@);
            let line = make_entry(k.as_str(), v).to_record();
            lines.push(line);
            proof {
                let after = text::strings_view(lines@);
                assert(after =~= before.push(line@));
                let done = entries.take(i as int);
                let next = entries.take(i as int + 1);
                assert(next =~= done.push((k@, v@)));
                assert(next.drop_last() =~= done);
                assert(after =~= snapshot_lines(self.name@, next));
                if good {
                    assert(self@.cache.dom().contains(k@));
                    assert(lasting(v@));
                    lemma_records_storable(k@, v@);
                    lemma_entry_line(line@, k@, v@);
                    assert(!text::is_blank(line@));
                    let w = entry_of(line@)->Ok_0.1;
                    assert(after.drop_last() =~= before);
                    m = m.insert(k@, w);
                    assert(alike(entries_contents(next), m)) by {
                        let c = entries_contents(next);
                        assert(c.dom() =~= m.dom());
                    }
                }
            }
            i += 1;
        }
        proof {
            assert(entries.take(i as int) =~= entries);
            assert(self@.cache.dom() =~= self.cache@.dom());
            self.lemma_listing(ord, entries);
            lemma_lists_contents(entries, self@.cache);
        }
        lines
    }

    /// The snapshot is in place and the log is empty.
    pub fn finish_compact(&mut self)
        ensures
            final(self)@ == (DetsV { dirty: 0, log_open: true, ..old(self)@ }),
    {
        self.log_open = true;
        self.dirty_count = 0;
    }

    /// Keeps a value under a key, in the log and in the table.
    pub fn put(&mut self, files: &mut DetsFiles, key: &str, value: &Json, caller: AgentPid) -> (r: Result<
        (),
        AgentRtError,
    >)
        ensures
            ({
                let (f0, t0) = (old(files)@, old(self)@);
                if !ets::may_write(t0.access, t0.owner, caller) {
                    r matches Err(e) && e@ == ErrorV::Ets("write access denied"@) && final(self)@
                        == t0 && final(files)@ == f0
                } else if !takes(t0, key@) {
                    r matches Err(e) && e@ == ErrorV::Ets("table full"@) && final(self)@ == t0
                        && final(files)@ == f0
                } else {
                    r is Ok && after_change(
                        f0,
                        t0,
                        json::record_text(put_record(key@, value@)),
                        t0.cache.insert(key@, value@),
                        final(files)@,
                        final(self)@,
                    )
                }
            }),
            r is Ok ==> call_done(
                old(files)@,
                old(self)@,
                CallV::Put(key@, value@),
                final(files)@,
                final(self)@,
            ),
    {
        let ghost f0 = files@;
        let ghost t0 = self@;
        let line: String = self.begin_put(key, value, caller)?;
        let ghost good = mirrored(f0, t0.cache) && all_lasting(t0.cache) && t0.log_open && lasting(
            value@,
        );
        if self.log_open {
            let ghost before = files.log@;
            files.log.push(line);
            proof {
                assert(text::strings_view(files.log@) =~= text::strings_view(before).push(line@));
                assert(files@ =~= (FilesV { log: f0.log.push(line@), ..f0 }));
                if good {
                    lemma_put_line(line@, key@, value@);
                    let c = change_of(line@)->Ok_0;
                    let m = recovered(f0)->Ok_0;
                    lemma_log_push(f0, line@, m, c);
                    assert(alike(t0.cache.insert(key@, value@), changed(m, c))) by {
                        assert(t0.cache.insert(key@, value@).dom() =~= changed(m, c).dom());
                    }
                }
            }
        }
        let due: bool = self.finish_put(key, value);
        if due {
            self.compact(files);
        }
        Ok(())
    }

    /// Drops a key, in the log and in the table.
    pub fn delete_key(&mut self, files: &mut DetsFiles, key: &str, caller: AgentPid) -> (r: Result<
        (),
        AgentRtError,
    >)
        ensures
            ({
                let (f0, t0) = (old(files)@, old(self)@);
                if !ets::may_write(t0.access, t0.owner, caller) {
                    r matches Err(e) && e@ == ErrorV::Ets("write access denied"@) && final(self)@
                        == t0 && final(files)@ == f0
                } else {
                    r is Ok && after_change(
                        f0,
                        t0,
                        json::record_text(delete_record(key@)),
                        t0.cache.remove(key@),
                        final(files)@,
                        final(self)@,
                    )
                }
            }),
            r is Ok ==> call_done(
                old(files)@,
                old(self)@,
                CallV::Delete(key@),
                final(files)@,
                final(self)@,
            ),
    {
        let ghost f0 = files@;
        let ghost t0 = self@;
        let line: String = self.begin_delete(key, caller)?;
        let ghost good = mirrored(f0, t0.cache) && all_lasting(t0.cache) && t0.log_open;
        if self.log_open {
            let ghost before = files.log@;
            files.log.push(line);
            proof {
                assert(text::strings_view(files.log@) =~= text::strings_view(before).push(line@));
                assert(files@ =~= (FilesV { log: f0.log.push(line@), ..f0 }));
                if good {
                    lemma_delete_line(line@, key@);
                    let m = recovered(f0)->Ok_0;
                    lemma_log_push(f0, line@, m, ChangeV::Delete(key@));
                    assert(alike(t0.cache.remove(key@), m.remove(key@))) by {
                        assert(t0.cache.remove(key@).dom() =~= m.remove(key@).dom());
                    }
                }
            }
        }
        let due: bool = self.finish_delete(key);
        if due {
            self.compact(files);
        }
        Ok(())
    }

    /// Writes a new snapshot and empties the log.
    pub fn compact(&mut self, files: &mut DetsFiles)
        ensures
            final(self)@ == (DetsV { dirty: 0, log_open: true, ..old(self)@ }),
            final(files)@.log == Seq::<Seq<char>>::empty(),
            exists|entries: Seq<(Seq<char>, JsonV)>| #[trigger]
                lists(entries, old(self)@.cache) && final(files)@.dat == Some(
                    snapshot_lines(old(self)@.name, entries),
                ),
            all_lasting(old(self)@.cache) ==> mirrored(final(files)@, old(self)@.cache),
            call_done(old(files)@, old(self)@, CallV::Compact, final(files)@, final(self)@),
    {
        let lines: Vec<String> = self.snapshot();
        files.dat = Some(lines);
        files.log = Vec::new();
        assert(files@.log =~= Seq::<Seq<char>>::empty());
        self.finish_compact();
    }

    /// Changes are no longer written to the log.
    pub fn close(&mut self)
        ensures
            final(self)@ == (DetsV { log_open: false, ..old(self)@ }),
    {
        self.log_open = false;
    }

    /// How many entries the table has.
    pub fn count(&self, caller: AgentPid) -> (r: Result<usize, AgentRtError>)
        ensures
            r is Ok <==> ets::may_read(self@.access, self@.owner, caller),
            r matches Ok(n) ==> n == self@.cache.dom().len(),
            r matches Err(e) ==> e@ == ErrorV::Ets("read access denied"@),
    {
        proof {
            assert(self@.cache.dom() =~= self.cache@.dom());
        }
        check_read(self.access, self.owner, caller)?;
        Ok(self.cache.len())
    }

    /// The entries that a test takes. Each is tested once.
    pub fn filter<F: Fn(&str, &Json) -> bool>(&self, caller: AgentPid, predicate: F) -> (r: Result<
        Vec<(String, Json)>,
        AgentRtError,
    >)
        requires
            forall|k: &str, v: &Json| #[trigger] call_requires(predicate, (k, v)),
        ensures
            r is Ok <==> ets::may_read(self@.access, self@.owner, caller),
            r matches Ok(out) ==> taken_by(self@.cache, predicate, json::members_view(out@)),
            r matches Err(e) ==> e@ == ErrorV::Ets("read access denied"@),
    {
        check_read(self.access, self.owner, caller)?;
        self.cache.facts();
        let ghost ord = self.cache.order();
        let ghost entries = ord.map_values(|e: (String, Json)| (e.0@, e.1@));
        let ghost mut taken: Seq<bool> = Seq::empty();
        let mut out: Vec<(String, Json)> = Vec::new();
        let n: usize = self.cache.len();
        let mut i: usize = 0;
        assert(json::members_view(out@) =~= kept_entries(entries.take(0), taken));
        while i < n
            invariant
                i <= n,
                n == ord.len(),
                ord == self.cache.order(),
                entries == ord.map_values(|e: (String, Json)| (e.0@, e.1@)),
                forall|k: &str, v: &Json| #[trigger] call_requires(predicate, (k, v)),
                taken.len() == i,
                forall|j: int| 0 <= j < i ==> #[trigger] answered(predicate, entries[j], taken[j]),
                json::members_view(out@) == kept_entries(entries.take(i as int), taken),
            decreases n - i,
        {
            let (k, v) = self.cache.entry(i);
            let ghost before = out@;
            let yes: bool = predicate(k.as_str(), v);
            if yes {
                out.push((k.clone(), v.dup()));
                assert(json::members_view(out@) =~= json::members_view(before).push((k@, v@)));
            }
            proof {
                let next = taken.push(yes);
                assert(next.drop_last() =~= taken);
                assert(entries.take(i as int + 1).drop_last() =~= entries.take(i as int));
                assert(entries.take(i as int + 1).last() == (k@, v@));
                assert(answered(predicate, entries[i as int], yes));
                assert forall|j: int| 0 <= j < i + 1 implies #[trigger] answered(
                    predicate,
                    entries[j],
                    next[j],
                ) by {
                    if j < i {
                        assert(answered(predicate, entries[j], taken[j]));
                    }
                }
                taken = next;
            }
            i += 1;
        }
        proof {
            assert(entries.take(i as int) =~= entries);
            self.lemma_listing(ord, entries);
            assert(tested(predicate, entries, taken));
            assert(filtered(entries, taken, json::members_view(out@)));
            assert(taken_by(self@.cache, predicate, json::members_view(out@)));
        }
        Ok(out)
    }

    proof fn lemma_listing(&self, ord: Seq<(String, Json)>, entries: Seq<(Seq<char>, JsonV)>)
        requires
            entries == ord.map_values(|e: (String, Json)| (e.0@, e.1@)),
            crate::util::assoc::distinct_keys(ord),
            ord.len() == self.cache@.dom().len(),
            forall|i: int|
                0 <= i < ord.len() ==> self.cache@.dom().contains((#[trigger] ord[i]).0.id())
                    && self.cache@[ord[i].0.id()] == ord[i].1,
            forall|k: Seq<char>| #[trigger]
                self.cache@.dom().contains(k) ==> exists|i: int|
                    0 <= i < ord.len() && (#[trigger] ord[i]).0.id() == k,
        ensures
            lists(entries, self@.cache),
    {
        assert(self@.cache.dom() =~= self.cache@.dom());
        assert forall|a: int| 0 <= a < entries.len() implies self@.cache.dom().contains(
            (#[trigger] entries[a]).0,
        ) && self@.cache[entries[a].0] == entries[a].1 by {
            assert(self.cache@.dom().contains(ord[a].0.id()));
        }
        assert forall|a: int, b: int|
            0 <= a < entries.len() && 0 <= b < entries.len() && a != b implies (
        #[trigger] entries[a]).0 != (#[trigger] entries[b]).0 by {
            assert(ord[a].0.id() != ord[b].0.id());
        }
        assert forall|k: Seq<char>| #[trigger] self@.cache.dom().contains(k) implies exists|a: int|
            0 <= a < entries.len() && (#[trigger] entries[a]).0 == k by {
            assert(self.cache@.dom().contains(k));
            let a = choose|a: int| 0 <= a < ord.len() && (#[trigger] ord[a]).0.id() == k;
            assert(entries[a].0 == k);
        }
    }

    /// The entries whose key begins with `prefix`.
    pub fn scan(&self, prefix: &str, caller: AgentPid) -> (r: Result<Vec<(String, Json)>, AgentRtError>)
        ensures
            r is Ok <==> ets::may_read(self@.access, self@.owner, caller),
            r matches Ok(out) ==> taken_by_prefix(self@.cache, prefix@, json::members_view(out@)),
            r matches Err(e) ==> e@ == ErrorV::Ets("read access denied"@),
    {
        check_read(self.access, self.owner, caller)?;
        self.cache.facts();
        let ghost ord = self.cache.order();
        let ghost entries = ord.map_values(|e: (String, Json)| (e.0@, e.1@));
        let ghost mut taken: Seq<bool> = Seq::empty();
        let mut out: Vec<(String, Json)> = Vec::new();
        let n: usize = self.cache.len();
        let mut i: usize = 0;
        assert(json::members_view(out@) =~= kept_entries(entries.take(0), taken));
        while i < n
            invariant
                i <= n,
                n == ord.len(),
                ord == self.cache.order(),
                entries == ord.map_values(|e: (String, Json)| (e.0@, e.1@)),
                taken.len() == i,
                forall|j: int|
                    0 <= j < i ==> #[trigger] taken[j] == prefix@.is_prefix_of(entries[j].0),
                json::members_view(out@) == kept_entries(entries.take(i as int), taken),
            decreases n - i,
        {
            let (k, v) = self.cache.entry(i);
            let ghost before = out@;
            let yes: bool = starts_with(k.as_str(), prefix);
            if yes {
                out.push((k.clone(), v.dup()));
                assert(json::members_view(out@) =~= json::members_view(before).push((k@, v@)));
            }
            proof {
                let next = taken.push(yes);
                assert(next.drop_last() =~= taken);
                assert(entries.take(i as int + 1).drop_last() =~= entries.take(i as int));
                assert(entries.take(i as int + 1).last() == (k@, v@));
                taken = next;
            }
            i += 1;
        }
        proof {
            assert(entries.take(i as int) =~= entries);
            self.lemma_listing(ord, entries);
            assert(begins(prefix@, entries, taken));
            assert(filtered(entries, taken, json::members_view(out@)));
            assert(taken_by_prefix(self@.cache, prefix@, json::members_view(out@)));
        }
        Ok(out)
    }
}

/// Opening a table from files that mirror it gives every value back, and no other. The table
/// that is found can be given back again.
pub proof fn law_reopen_gives_back(f: FilesV, m: Contents, k: Seq<char>)
    requires
        mirrored(f, m),
    ensures
        recovered(f) is Ok,
        recovered(f)->Ok_0.dom().contains(k) <==> m.dom().contains(k),
        m.dom().contains(k) ==> json::same_json(m[k], recovered(f)->Ok_0[k]),
        all_lasting(m) ==> all_lasting(recovered(f)->Ok_0),
{
    let n = recovered(f)->Ok_0;
    if all_lasting(m) {
        assert forall|q: Seq<char>| #[trigger] n.dom().contains(q) implies lasting(n[q]) by {
            assert(m.dom().contains(q));
            json::lemma_same_plain(m[q], n[q], 126);
        }
    }
}

/// A new table and its empty files mirror each other.
pub proof fn law_empty_files_mirror()
    ensures
        mirrored(FilesV { dat: None, log: Seq::empty() }, Map::empty()),
        all_lasting(Map::empty()),
{
}

/// A call that changes a table.
pub enum CallV {
    Put(Seq<char>, JsonV),
    Delete(Seq<char>),
    Compact,
}

/// The files give the table back, now and after changes.
pub open spec fn in_step(f: FilesV, t: DetsV) -> bool {
    mirrored(f, t.cache) && all_lasting(t.cache) && t.log_open
}

/// The contents after a call.
pub open spec fn called(m: Contents, c: CallV) -> Contents {
    match c {
        CallV::Put(k, v) => m.insert(k, v),
        CallV::Delete(k) => m.remove(k),
        CallV::Compact => m,
    }
}

/// The contents after calls, one after the other.
pub open spec fn called_all(m: Contents, calls: Seq<CallV>) -> Contents
    decreases calls.len(),
{
    if calls.len() == 0 {
        m
    } else {
        called(called_all(m, calls.drop_last()), calls.last())
    }
}

/// A call that was not refused: the table has the contents after it, its settings are as before,
/// and where the files gave the table back, they still do, if a value that was put can be given
/// back at all.
pub open spec fn call_done(f0: FilesV, t0: DetsV, c: CallV, f1: FilesV, t1: DetsV) -> bool {
    &&& t1.cache == called(t0.cache, c)
    &&& t1 == (DetsV { cache: t1.cache, dirty: t1.dirty, log_open: t1.log_open, ..t0 })
    &&& in_step(f0, t0) && (c matches CallV::Put(_, v) ==> lasting(v)) ==> in_step(f1, t1)
}

/// Calls that were not refused, with the files and the table before, between and after them.
pub open spec fn calls_done(trace: Seq<(FilesV, DetsV)>, calls: Seq<CallV>) -> bool {
    &&& trace.len() == calls.len() + 1
    &&& forall|i: int|
        0 <= i < calls.len() ==> call_done(
            (#[trigger] trace[i]).0,
            trace[i].1,
            calls[i],
            trace[i + 1].0,
            trace[i + 1].1,
        )
}

/// All values that calls put can be given back by the files.
pub open spec fn puts_last(calls: Seq<CallV>) -> bool {
    forall|i: int|
        0 <= i < calls.len() ==> ((#[trigger] calls[i]) matches CallV::Put(_, v) ==> lasting(v))
}

proof fn lemma_calls(trace: Seq<(FilesV, DetsV)>, calls: Seq<CallV>)
    requires
        calls_done(trace, calls),
        in_step(trace[0].0, trace[0].1),
        puts_last(calls),
    ensures
        in_step(trace.last().0, trace.last().1),
        trace.last().1.cache == called_all(trace[0].1.cache, calls),
    decreases calls.len(),
{
    if calls.len() > 0 {
        let n = calls.len() - 1;
        let most = calls.drop_last();
        let before = trace.drop_last();
        assert forall|i: int| 0 <= i < most.len() implies call_done(
            (#[trigger] before[i]).0,
            before[i].1,
            most[i],
            before[i + 1].0,
            before[i + 1].1,
        ) by {
            assert(before[i] == trace[i] && before[i + 1] == trace[i + 1] && most[i] == calls[i]);
        }
        assert forall|i: int| 0 <= i < most.len() implies ((#[trigger] most[i]) matches CallV::Put(
            _,
            v,
        ) ==> lasting(v)) by {
            assert(most[i] == calls[i]);
        }
        lemma_calls(before, most);
        assert(before.last() == trace[n as int]);
        assert(calls[n as int] == calls.last());
        assert(call_done(
            trace[n as int].0,
            trace[n as int].1,
            calls[n as int],
            trace[n + 1].0,
            trace[n + 1].1,
        ));
    }
}

/// Whatever was put into a new table, dropped from it and compacted, in any order, opening it anew
/// from its files gives the same keys with the same values, and as many of them.
pub proof fn law_calls_come_back(trace: Seq<(FilesV, DetsV)>, calls: Seq<CallV>, k: Seq<char>)
    requires
        calls_done(trace, calls),
        trace[0].0 == (FilesV { dat: None, log: Seq::empty() }),
        trace[0].1.cache == Contents::empty(),
        trace[0].1.log_open,
        puts_last(calls),
    ensures
        ({
            let m = called_all(Map::empty(), calls);
            let found = recovered(trace.last().0);
            &&& trace.last().1.cache == m
            &&& found matches Ok(n) && {
                &&& n.dom().contains(k) <==> m.dom().contains(k)
                &&& m.dom().contains(k) ==> json::same_json(m[k], n[k])
                &&& n.dom().len() == m.dom().len()
            }
        }),
{
    law_empty_files_mirror();
    lemma_calls(trace, calls);
    law_reopen_gives_back(trace.last().0, trace.last().1.cache, k);
}

/// A test was asked about an entry and gave this answer.
pub open spec fn answered<F: Fn(&str, &Json) -> bool>(
    predicate: F,
    e: (Seq<char>, JsonV),
    yes: bool,
) -> bool {
    exists|k: &str, v: &Json| #[trigger]
        call_ensures(predicate, (k, v), yes) && k@ == e.0 && v@ == e.1
}

/// An entry is taken where its key begins with `prefix`.
pub open spec fn begins(prefix: Seq<char>, entries: Seq<(Seq<char>, JsonV)>, taken: Seq<bool>) -> bool {
    forall|j: int| 0 <= j < entries.len() ==> #[trigger] taken[j] == prefix.is_prefix_of(entries[j].0)
}

/// What a test answered to each entry.
pub open spec fn tested<F: Fn(&str, &Json) -> bool>(
    predicate: F,
    entries: Seq<(Seq<char>, JsonV)>,
    taken: Seq<bool>,
) -> bool {
    forall|j: int| 0 <= j < entries.len() ==> #[trigger] answered(predicate, entries[j], taken[j])
}

/// `out` lists the entries of `m` to which the test answered yes.
pub open spec fn taken_by<F: Fn(&str, &Json) -> bool>(
    m: Contents,
    predicate: F,
    out: Seq<(Seq<char>, JsonV)>,
) -> bool {
    exists|entries: Seq<(Seq<char>, JsonV)>, taken: Seq<bool>| #[trigger]
        filtered(entries, taken, out) && lists(entries, m) && tested(predicate, entries, taken)
}

/// `out` lists the entries of `m` whose key begins with `prefix`.
pub open spec fn taken_by_prefix(
    m: Contents,
    prefix: Seq<char>,
    out: Seq<(Seq<char>, JsonV)>,
) -> bool {
    exists|entries: Seq<(Seq<char>, JsonV)>, taken: Seq<bool>| #[trigger]
        filtered(entries, taken, out) && lists(entries, m) && begins(prefix, entries, taken)
}

/// The entries that are taken, in order.
pub open spec fn kept_entries(entries: Seq<(Seq<char>, JsonV)>, taken: Seq<bool>) -> Seq<(Seq<char>, JsonV)>
    decreases entries.len(),
{
    if entries.len() == 0 {
        Seq::empty()
    } else if taken.last() {
        kept_entries(entries.drop_last(), taken.drop_last()).push(entries.last())
    } else {
        kept_entries(entries.drop_last(), taken.drop_last())
    }
}

/// `out` holds the entries that are taken.
pub open spec fn filtered(
    entries: Seq<(Seq<char>, JsonV)>,
    taken: Seq<bool>,
    out: Seq<(Seq<char>, JsonV)>,
) -> bool {
    taken.len() == entries.len() && out == kept_entries(entries, taken)
}

proof fn lemma_dat_error(all: Seq<Seq<char>>, n: int, msg: Seq<char>)
    requires
        0 <= n <= all.len(),
        read_dat(all.take(n)) == Err::<(bool, Contents), Seq<char>>(msg),
    ensures
        read_dat(all) == Err::<(bool, Contents), Seq<char>>(msg),
    decreases all.len() - n,
{
    if n == all.len() {
        assert(all.take(n) =~= all);
    } else {
        assert(all.take(n + 1).drop_last() =~= all.take(n));
        lemma_dat_error(all, n + 1, msg);
    }
}

proof fn lemma_log_error(m: Contents, all: Seq<Seq<char>>, n: int, msg: Seq<char>)
    requires
        0 <= n <= all.len(),
        read_log(m, all.take(n)) == Err::<Contents, Seq<char>>(msg),
    ensures
        read_log(m, all) == Err::<Contents, Seq<char>>(msg),
    decreases all.len() - n,
{
    if n == all.len() {
        assert(all.take(n) =~= all);
    } else {
        assert(all.take(n + 1).drop_last() =~= all.take(n));
        lemma_log_error(m, all, n + 1, msg);
    }
}

/// An entry is among those that are taken.
spec fn is_taken(
    entries: Seq<(Seq<char>, JsonV)>,
    taken: Seq<bool>,
    e: (Seq<char>, JsonV),
) -> bool {
    exists|j: int| 0 <= j < entries.len() && taken[j] && #[trigger] entries[j] == e
}

proof fn lemma_kept_entries(entries: Seq<(Seq<char>, JsonV)>, taken: Seq<bool>)
    requires
        taken.len() == entries.len(),
    ensures
        forall|j: int|
            0 <= j < entries.len() && taken[j] ==> kept_entries(entries, taken).contains(
                #[trigger] entries[j],
            ),
        forall|i: int|
            0 <= i < kept_entries(entries, taken).len() ==> is_taken(
                entries,
                taken,
                #[trigger] kept_entries(entries, taken)[i],
            ),
    decreases entries.len(),
{
    if entries.len() > 0 {
        let e = entries.drop_last();
        let t = taken.drop_last();
        lemma_kept_entries(e, t);
        let before = kept_entries(e, t);
        let all = kept_entries(entries, taken);
        let n = entries.len() - 1;
        assert(entries.last() == entries[n] && taken.last() == taken[n]);
        assert forall|j: int| 0 <= j < entries.len() && taken[j] implies all.contains(
            #[trigger] entries[j],
        ) by {
            if j < n {
                assert(e[j] == entries[j] && t[j] == taken[j]);
                assert(before.contains(e[j]));
                let i = choose|i: int| 0 <= i < before.len() && before[i] == e[j];
                assert(all[i] == entries[j]);
            } else {
                assert(all[before.len() as int] == entries[j]);
            }
        }
        assert forall|i: int| 0 <= i < all.len() implies is_taken(
            entries,
            taken,
            #[trigger] all[i],
        ) by {
            if i < before.len() {
                assert(all[i] == before[i]);
                assert(is_taken(e, t, before[i]));
                let j = choose|j: int|
                    0 <= j < e.len() && t[j] && #[trigger] e[j] == before[i];
                assert(entries[j] == all[i] && taken[j]);
            } else {
                assert(entries[n] == all[i] && taken[n]);
            }
        }
    }
}

/// A scan finds every entry whose key begins so, with its value, and no other.
pub proof fn law_scan_finds_prefix(
    m: Contents,
    prefix: Seq<char>,
    out: Seq<(Seq<char>, JsonV)>,
    k: Seq<char>,
)
    requires
        taken_by_prefix(m, prefix, out),
    ensures
        m.dom().contains(k) && prefix.is_prefix_of(k) ==> out.contains((k, m[k])),
        forall|i: int|
            0 <= i < out.len() ==> m.dom().contains((#[trigger] out[i]).0) && m[out[i].0] == out[i].1
                && prefix.is_prefix_of(out[i].0),
{
    let (entries, taken) = choose|entries: Seq<(Seq<char>, JsonV)>, taken: Seq<bool>| #[trigger]
        filtered(entries, taken, out) && lists(entries, m) && begins(prefix, entries, taken);
    lemma_kept_entries(entries, taken);
    if m.dom().contains(k) && prefix.is_prefix_of(k) {
        let j = choose|j: int| 0 <= j < entries.len() && (#[trigger] entries[j]).0 == k;
        assert(taken[j]);
        assert(entries[j] == (k, m[k]));
        assert(out.contains(entries[j]));
    }
    assert forall|i: int| 0 <= i < out.len() implies m.dom().contains((#[trigger] out[i]).0)
        && m[out[i].0] == out[i].1 && prefix.is_prefix_of(out[i].0) by {
        assert(is_taken(entries, taken, kept_entries(entries, taken)[i]));
        let j = choose|j: int|
            0 <= j < entries.len() && taken[j] && #[trigger] entries[j] == kept_entries(
                entries,
                taken,
            )[i];
        assert(taken[j] == prefix.is_prefix_of(entries[j].0));
    }
}

/// A filter finds every entry to which its test can only answer yes, and none to which it can only
/// answer no.
pub proof fn law_filter_finds<F: Fn(&str, &Json) -> bool>(
    m: Contents,
    predicate: F,
    out: Seq<(Seq<char>, JsonV)>,
    k: Seq<char>,
)
    requires
        taken_by(m, predicate, out),
        m.dom().contains(k),
    ensures
        !answered(predicate, (k, m[k]), false) ==> out.contains((k, m[k])),
        !answered(predicate, (k, m[k]), true) ==> !out.contains((k, m[k])),
{
    let (entries, taken) = choose|entries: Seq<(Seq<char>, JsonV)>, taken: Seq<bool>| #[trigger]
        filtered(entries, taken, out) && lists(entries, m) && tested(predicate, entries, taken);
    lemma_kept_entries(entries, taken);
    let j = choose|j: int| 0 <= j < entries.len() && (#[trigger] entries[j]).0 == k;
    assert(entries[j] == (k, m[k]));
    assert(answered(predicate, entries[j], taken[j]));
    if out.contains((k, m[k])) {
        let i = choose|i: int| 0 <= i < out.len() && out[i] == (k, m[k]);
        assert(is_taken(entries, taken, kept_entries(entries, taken)[i]));
        let h = choose|h: int|
            0 <= h < entries.len() && taken[h] && #[trigger] entries[h] == kept_entries(
                entries,
                taken,
            )[i];
        assert(answered(predicate, entries[h], taken[h]));
    }
    if taken[j] {
        assert(out.contains(entries[j]));
    }
}

/// The changes of a log count in their order: the last one decides, and touches no other key.
pub proof fn law_last_change_decides(
    m: Contents,
    lines: Seq<Seq<char>>,
    line: Seq<char>,
    k: Seq<char>,
    v: JsonV,
    other: Seq<char>,
)
    requires
        read_log(m, lines) is Ok,
        !text::is_blank(line),
        other != k,
    ensures
        change_of(line) == Ok::<ChangeV, Seq<char>>(ChangeV::Put(k, v)) ==> (read_log(
            m,
            lines.push(line),
        ) matches Ok(n) && n.dom().contains(k) && n[k] == v && (n.dom().contains(other)
            <==> read_log(m, lines)->Ok_0.dom().contains(other)) && (n.dom().contains(other)
            ==> n[other] == read_log(m, lines)->Ok_0[other])),
        change_of(line) == Ok::<ChangeV, Seq<char>>(ChangeV::Delete(k)) ==> (read_log(
            m,
            lines.push(line),
        ) matches Ok(n) && !n.dom().contains(k) && (n.dom().contains(other) <==> read_log(
            m,
            lines,
        )->Ok_0.dom().contains(other))),
        change_of(line) is Err ==> read_log(m, lines.push(line)) is Err,
{
    assert(lines.push(line).drop_last() =~= lines);
}

} // verus!
