//! A mailbox that lasts: messages are written ahead to a log, and what has been dealt with is
//! acknowledged.
use vstd::prelude::*;
use crate::json;
use crate::util::text;
use crate::agent_rt::wire;
use crate::agent_rt::error::{AgentRtError, ErrorV};
use crate::agent_rt::types::{Message, MessageV};
use crate::agent_rt::wire::{decode_message, encode_message};
use crate::json::{Json, JsonNum, JsonV, NumV, ObjectBuilder};
use crate::util::text::{blank, concat2, parse_u64, trim, u64_to_text};

verus! {

/// The version of the file format.
pub const SCHEMA_VERSION: u64 = 1;

/// A message in the log.
#[derive(Debug)]
pub struct WalEntry {
    pub seq: u64,
    pub ts: i64,
    pub msg: Message,
}

/// What an entry of the log is.
pub struct EntryV {
    pub seq: u64,
    pub ts: i64,
    pub msg: MessageV,
}

impl View for WalEntry {
    type V = EntryV;

    open spec fn view(&self) -> EntryV {
        EntryV { seq: self.seq, ts: self.ts, msg: self.msg@ }
    }
}

/// What the entries of a list are.
pub open spec fn entries_view(s: Seq<WalEntry>) -> Seq<EntryV> {
    s.map_values(|e: WalEntry| e@)
}

/// The contents of a mailbox's files: the lines of the log, and the text that names the last
/// message dealt with. A file may not be there yet.
pub struct WalFiles {
    pub wal: Option<Vec<String>>,
    pub ack: Option<String>,
}

/// What a mailbox's files are.
#[verifier::ext_equal]
pub struct WalFilesV {
    pub wal: Option<Seq<Seq<char>>>,
    pub ack: Option<Seq<char>>,
}

impl View for WalFiles {
    type V = WalFilesV;

    open spec fn view(&self) -> WalFilesV {
        WalFilesV {
            wal: match self.wal {
                Some(v) => Some(text::strings_view(v@)),
                None => None,
            },
            ack: match self.ack {
                Some(s) => Some(s@),
                None => None,
            },
        }
    }
}

// ---------------------------------------------------------------------------
// The lines of the log
// ---------------------------------------------------------------------------
/// The header of a log.
pub open spec fn header_record(stable_id: Seq<char>) -> JsonV {
    JsonV::Object(
        seq![
            ("schema_version"@, JsonV::Num(NumV::PosInt(SCHEMA_VERSION))),
            ("type"@, JsonV::Str("wal"@)),
            ("stable_id"@, JsonV::Str(stable_id)),
        ],
    )
}

/// A whole number as JSON.
pub open spec fn int_json(n: i64) -> JsonV {
    if n >= 0 {
        JsonV::Num(NumV::PosInt(n as u64))
    } else {
        JsonV::Num(NumV::NegInt(n))
    }
}

/// An entry as JSON.
pub open spec fn entry_record(e: EntryV) -> JsonV {
    JsonV::Object(
        seq![
            ("seq"@, JsonV::Num(NumV::PosInt(e.seq))),
            ("ts"@, int_json(e.ts)),
            ("msg"@, wire::message_json(e.msg)),
        ],
    )
}

/// The names of the members of an entry.
pub open spec fn entry_names() -> Seq<Seq<char>> {
    seq!["seq"@, "ts"@, "msg"@]
}

/// The entry that a line gives.
pub open spec fn entry_of(line: Seq<char>) -> Result<EntryV, Seq<char>> {
    match json::json_parsed(line) {
        Ok(v) => entry_in(json::record(v, entry_names(), 3)),
        Err(e) => Err(e),
    }
}

/// The entry that the members of an object give.
pub open spec fn entry_in(v: JsonV) -> Result<EntryV, Seq<char>> {
    match (v.get_unsigned("seq"@), v.get("ts"@), v.get("msg"@)) {
        (Some(seq), Some(t), Some(m)) => match (t.signed(), wire::message_of(m)) {
            (Some(ts), Some(msg)) => Ok(EntryV { seq, ts, msg }),
            _ => Err("a member is missing or has the wrong type"@),
        },
        _ => Err("a member is missing or has the wrong type"@),
    }
}

/// The lines that are not blank.
pub open spec fn solid(lines: Seq<Seq<char>>) -> Seq<Seq<char>>
    decreases lines.len(),
{
    if lines.len() == 0 {
        Seq::empty()
    } else if text::is_blank(lines.last()) {
        solid(lines.drop_last())
    } else {
        solid(lines.drop_last()).push(lines.last())
    }
}

/// The lines that hold entries: those that are not blank, without the header.
pub open spec fn data(lines: Seq<Seq<char>>) -> Seq<Seq<char>> {
    if solid(lines).len() == 0 {
        Seq::empty()
    } else {
        solid(lines).drop_first()
    }
}

/// All entries of the log that can be read.
pub open spec fn readable(lines: Seq<Seq<char>>) -> Seq<EntryV>
    decreases lines.len(),
{
    if lines.len() == 0 {
        Seq::empty()
    } else {
        match entry_of(lines.last()) {
            Ok(e) => readable(lines.drop_last()).push(e),
            Err(_) => readable(lines.drop_last()),
        }
    }
}

/// The entries after `acked`.
pub open spec fn unacked(es: Seq<EntryV>, acked: u64) -> Seq<EntryV>
    decreases es.len(),
{
    if es.len() == 0 {
        Seq::empty()
    } else if es.last().seq > acked {
        unacked(es.drop_last(), acked).push(es.last())
    } else {
        unacked(es.drop_last(), acked)
    }
}

/// The entries that are still to be dealt with, in order; the first line that cannot be read
/// is an error.
pub open spec fn pending(lines: Seq<Seq<char>>, acked: u64) -> Result<Seq<EntryV>, Seq<char>>
    decreases lines.len(),
{
    if lines.len() == 0 {
        Ok(Seq::empty())
    } else {
        match pending(lines.drop_last(), acked) {
            Ok(es) => match entry_of(lines.last()) {
                Ok(e) => if e.seq > acked {
                    Ok(es.push(e))
                } else {
                    Ok(es)
                },
                Err(e) => Err("bad entry: "@ + e),
            },
            Err(e) => Err(e),
        }
    }
}

/// The greatest number among entries; zero where there is none.
pub open spec fn top_seq(es: Seq<EntryV>) -> u64
    decreases es.len(),
{
    if es.len() == 0 {
        0
    } else if es.last().seq > top_seq(es.drop_last()) {
        es.last().seq
    } else {
        top_seq(es.drop_last())
    }
}

/// The larger of two numbers.
pub open spec fn larger(a: u64, b: u64) -> u64 {
    if a > b {
        a
    } else {
        b
    }
}

/// The lines of a log that holds a header and these entries.
pub open spec fn log_of(id: Seq<char>, es: Seq<EntryV>) -> Seq<Seq<char>> {
    seq![json::record_text(header_record(id))] + es.map_values(
        |e: EntryV| json::record_text(entry_record(e)),
    )
}

/// The lines of a log without the messages that are dealt with.
pub open spec fn rewritten(m: MailV, lines: Seq<Seq<char>>) -> Seq<Seq<char>> {
    log_of(m.id, unacked(readable(data(lines)), m.acked))
}

/// The lines of the log; none where there is no file.
pub open spec fn wal_lines(f: WalFilesV) -> Seq<Seq<char>> {
    match f.wal {
        Some(v) => v,
        None => Seq::empty(),
    }
}

/// The number that was acknowledged last; zero where there is no file.
pub open spec fn acked_in(f: WalFilesV) -> Result<u64, Seq<char>> {
    match f.ack {
        Some(s) => text::number(text::trimmed(s)),
        None => Ok(0),
    }
}

/// Two entries with the same contents.
pub open spec fn same_entry(a: EntryV, b: EntryV) -> bool {
    a.seq == b.seq && a.ts == b.ts && wire::same_message(a.msg, b.msg)
}

/// Two lists of entries with the same contents.
pub open spec fn same_entries(a: Seq<EntryV>, b: Seq<EntryV>) -> bool {
    a.len() == b.len() && forall|i: int| 0 <= i < a.len() ==> same_entry(#[trigger] a[i], b[i])
}

/// All messages of a list can be given back by the log.
pub open spec fn all_lasting(es: Seq<EntryV>) -> bool {
    forall|i: int| 0 <= i < es.len() ==> wire::lasting_message((#[trigger] es[i]).msg)
}

proof fn lemma_solid_push(lines: Seq<Seq<char>>, x: Seq<char>)
    requires
        !text::is_blank(x),
    ensures
        solid(lines.push(x)) == solid(lines).push(x),
        solid(lines).len() > 0 ==> data(lines.push(x)) == data(lines).push(x),
        solid(lines).len() == 0 ==> data(lines.push(x)) == Seq::<Seq<char>>::empty(),
{
    assert(lines.push(x).drop_last() =~= lines);
    if solid(lines).len() > 0 {
        assert(data(lines.push(x)) =~= data(lines).push(x));
    } else {
        assert(data(lines.push(x)) =~= Seq::<Seq<char>>::empty());
    }
}

/// A line that gives an entry adds it to what can be read.
proof fn lemma_entry_push(lines: Seq<Seq<char>>, x: Seq<char>, e: EntryV, acked: u64)
    requires
        entry_of(x) == Ok::<EntryV, Seq<char>>(e),
    ensures
        readable(lines.push(x)) == readable(lines).push(e),
        top_seq(readable(lines.push(x))) == if e.seq > top_seq(readable(lines)) {
            e.seq
        } else {
            top_seq(readable(lines))
        },
        pending(lines, acked) matches Ok(es) ==> pending(lines.push(x), acked) == Ok::<
            Seq<EntryV>,
            Seq<char>,
        >(
            if e.seq > acked {
                es.push(e)
            } else {
                es
            },
        ),
{
    assert(lines.push(x).drop_last() =~= lines);
    assert(readable(lines).push(e).drop_last() =~= readable(lines));
}

proof fn lemma_entry_back(line: Seq<char>, e: EntryV)
    requires
        json::reads_back(line, entry_record(e)),
    ensures
        entry_of(line) matches Ok(q) && same_entry(e, q),
{
    let x = entry_record(e)->Object_0;
    let w = json::json_parsed(line)->Ok_0;
    assert(x[0] == ("seq"@, JsonV::Num(NumV::PosInt(e.seq))));
    assert(x[1] == ("ts"@, int_json(e.ts)));
    assert(x[2] == ("msg"@, wire::message_json(e.msg)));
    json::lemma_same_member(x, w, 0);
    json::lemma_same_member(x, w, 1);
    json::lemma_same_member(x, w, 2);
    wire::law_message_comes_back(e.msg, w.get("msg"@)->0);
}

proof fn lemma_entry_storable(e: EntryV)
    requires
        wire::lasting_message(e.msg),
    ensures
        json::storable(entry_record(e)),
{
    wire::lemma_message_plain(e.msg);
    reveal_strlit("seq");
    reveal_strlit("ts");
    reveal_strlit("msg");
    assert("seq"@[0] == 's' && "msg"@[0] == 'm' && "ts"@.len() == 2 && "seq"@.len() == 3
        && "msg"@.len() == 3);
    json::lemma_record_storable(entry_record(e)->Object_0, 126);
}

/// Entries with the same contents have the same line.
proof fn lemma_same_line(e: EntryV, q: EntryV)
    requires
        same_entry(e, q),
        wire::lasting_message(e.msg),
    ensures
        json::same_members(entry_record(e)->Object_0, entry_record(q)->Object_0),
{
    wire::lemma_message_same(e.msg, q.msg);
}

/// What is left of entries still has the greatest number, where that is left.
proof fn lemma_unacked_top(es: Seq<EntryV>, acked: u64)
    ensures
        larger(top_seq(unacked(es, acked)), acked) == larger(top_seq(es), acked),
    decreases es.len(),
{
    if es.len() > 0 {
        lemma_unacked_top(es.drop_last(), acked);
        let rest = unacked(es.drop_last(), acked);
        if es.last().seq > acked {
            assert(rest.push(es.last()).drop_last() =~= rest);
        }
    }
}

/// Entries with the same contents have the same greatest number.
proof fn lemma_same_top(a: Seq<EntryV>, b: Seq<EntryV>)
    requires
        same_entries(a, b),
    ensures
        top_seq(a) == top_seq(b),
    decreases a.len(),
{
    if a.len() > 0 {
        assert(same_entry(a[a.len() - 1], b[a.len() - 1]));
        assert forall|i: int| 0 <= i < a.len() - 1 implies same_entry(
            #[trigger] a.drop_last()[i],
            b.drop_last()[i],
        ) by {
            assert(same_entry(a[i], b[i]));
        }
        lemma_same_top(a.drop_last(), b.drop_last());
    }
}

fn make_header(stable_id: &str) -> (r: Json)
    ensures
        r@ == header_record(stable_id@),
{
    let mut o = ObjectBuilder::new();
    o.put_u64("schema_version", SCHEMA_VERSION);
    o.put_str("type", "wal");
    o.put_str("stable_id", stable_id);
    assert(o@ =~= header_record(stable_id@)->Object_0);
    o.build()
}

/// The line of an entry with the given number, time and message.
pub fn encode_entry(seq: u64, ts: i64, msg: &Message) -> (r: String)
    ensures
        r@ == json::record_text(entry_record(EntryV { seq, ts, msg: msg@ })),
        !text::is_blank(r@),
        wire::lasting_message(msg@) ==> (entry_of(r@) matches Ok(q) && same_entry(
            EntryV { seq, ts, msg: msg@ },
            q,
        ) && json::record_text(entry_record(q)) == r@ && wire::lasting_message(q.msg)),
{
    let mut o = ObjectBuilder::new();
    o.put_u64("seq", seq);
    if ts >= 0 {
        o.put_u64("ts", ts as u64);
    } else {
        o.put("ts", Json::Num(JsonNum::NegInt(ts)));
    }
    o.put("msg", encode_message(msg));
    let ghost e = EntryV { seq, ts, msg: msg@ };
    assert(o@ =~= entry_record(e)->Object_0);
    let line: String = o.build().to_record();
    proof {
        if wire::lasting_message(msg@) {
            lemma_entry_storable(e);
            lemma_entry_back(line@, e);
            lemma_same_line(e, entry_of(line@)->Ok_0);
            wire::lemma_same_lasting(e.msg, (entry_of(line@)->Ok_0).msg);
        }
    }
    line
}

/// Reads the entry of a line.
pub fn decode_entry(line: &str) -> (r: Result<WalEntry, String>)
    ensures
        (match r {
            Ok(e) => Ok(e@),
            Err(e) => Err(e@),
        }) == entry_of(line@),
{
    let j: Json = match Json::parse(line) {
        Ok(j) => j,
        Err(e) => {
            return Err(e);
        },
    };
    let names: Vec<&str> = vec!["seq", "ts", "msg"];
    assert(json::names_view(names@) =~= entry_names());
    let v: Json = j.as_record(&names, 3);
    match (v.get_u64("seq"), v.get("ts"), v.get("msg")) {
        (Some(seq), Some(t), Some(m)) => match (t.as_i64(), decode_message(m)) {
            (Some(ts), Some(msg)) => Ok(WalEntry { seq, ts, msg }),
            _ => Err("a member is missing or has the wrong type".to_owned()),
        },
        _ => Err("a member is missing or has the wrong type".to_owned()),
    }
}

/// The lines that hold entries.
fn data_lines(lines: &Vec<String>) -> (r: Vec<String>)
    ensures
        text::strings_view(r@) == data(text::strings_view(lines@)),
{
    let ghost all = text::strings_view(lines@);
    let mut out: Vec<String> = Vec::new();
    let mut first: bool = true;
    let mut i: usize = 0;
    assert(text::strings_view(out@) =~= data(all.take(0)));
    while i < lines.len()
        invariant
            i <= lines@.len(),
            all == text::strings_view(lines@),
            first == (solid(all.take(i as int)).len() == 0),
            text::strings_view(out@) == data(all.take(i as int)),
        decreases lines@.len() - i,
    {
        let ghost before = out@;
        let ghost x = lines@[i as int]@;
        assert(all.take(i as int + 1) =~= all.take(i as int).push(x));
        if !blank(lines[i].as_str()) {
            proof {
                lemma_solid_push(all.take(i as int), x);
            }
            if first {
                first = false;
            } else {
                out.push(lines[i].clone());
                assert(text::strings_view(out@) =~= text::strings_view(before).push(x));
            }
        } else {
            assert(all.take(i as int + 1).drop_last() =~= all.take(i as int));
        }
        i += 1;
    }
    assert(all.take(i as int) =~= all);
    out
}

// ---------------------------------------------------------------------------
// The mailbox
// ---------------------------------------------------------------------------
/// A mailbox that lasts.
pub struct DurableMailbox {
    stable_id: String,
    sequence: u64,
    last_acked_seq: u64,
}

/// What a mailbox is.
#[verifier::ext_equal]
pub struct MailV {
    pub id: Seq<char>,
    /// The number of the last message written.
    pub sequence: u64,
    /// The number of the last message dealt with.
    pub acked: u64,
}

impl View for DurableMailbox {
    type V = MailV;

    closed spec fn view(&self) -> MailV {
        MailV { id: self.stable_id@, sequence: self.sequence, acked: self.last_acked_seq }
    }
}

/// The number of the last message written, by what the files hold: that of the last message in
/// the log, or of the last one dealt with, which need not be in the log any more.
pub open spec fn counted(f: WalFilesV, acked: u64) -> u64 {
    larger(top_seq(readable(data(wal_lines(f)))), acked)
}

/// The mailbox is what its files say.
pub open spec fn in_step(f: WalFilesV, m: MailV) -> bool {
    acked_in(f) == Ok::<u64, Seq<char>>(m.acked) && m.sequence == counted(f, m.acked)
}

impl DurableMailbox {
    /// Opens a mailbox. It goes on counting after the last message of the log and the last one
    /// dealt with. Where there is no log yet, one is begun with a header.
    pub fn open(stable_id: &str, files: &mut WalFiles) -> (r: Result<DurableMailbox, AgentRtError>)
        ensures
            r is Ok <==> acked_in(old(files)@) is Ok,
            r matches Ok(m) ==> {
                &&& m@ == (MailV {
                    id: stable_id@,
                    sequence: counted(old(files)@, acked_in(old(files)@)->Ok_0),
                    acked: acked_in(old(files)@)->Ok_0,
                })
                &&& final(files)@ == (WalFilesV {
                    wal: match old(files)@.wal {
                        Some(v) => Some(v),
                        None => Some(seq![json::record_text(header_record(stable_id@))]),
                    },
                    ..old(files)@
                })
                &&& in_step(final(files)@, m@)
            },
            r matches Err(e) ==> final(files)@ == old(files)@ && e@ is DurableMailbox && e@
                == ErrorV::DurableMailbox("bad ack file: "@ + acked_in(old(files)@)->Err_0),
    {
        let acked: u64 = match &files.ack {
            Some(s) => {
                let t: String = trim(s.as_str());
                match parse_u64(t.as_str()) {
                    Ok(n) => n,
                    Err(e) => {
                        return Err(AgentRtError::DurableMailbox(concat2("bad ack file: ", e.as_str())));
                    },
                }
            },
            None => 0,
        };
        let mut top: u64 = 0;
        let ghost f0 = files@;
        let missing: bool = files.wal.is_none();
        if let Some(lines) = &files.wal {
            let body: Vec<String> = data_lines(lines);
            let ghost d = text::strings_view(body@);
            let mut i: usize = 0;
            assert(d.take(0) =~= Seq::<Seq<char>>::empty());
            while i < body.len()
                invariant
                    i <= body@.len(),
                    d == text::strings_view(body@),
                    top == top_seq(readable(d.take(i as int))),
                decreases body@.len() - i,
            {
                let ghost x = body@[i as int]@;
                assert(d.take(i as int + 1) =~= d.take(i as int).push(x));
                assert(d.take(i as int + 1).drop_last() =~= d.take(i as int));
                if let Ok(e) = decode_entry(body[i].as_str()) {
                    proof {
                        lemma_entry_push(d.take(i as int), x, e@, 0);
                    }
                    if e.seq > top {
                        top = e.seq;
                    }
                }
                i += 1;
            }
            assert(d.take(i as int) =~= d);
        }
        if missing {
            let head: String = make_header(stable_id).to_record();
            let mut lines: Vec<String> = Vec::new();
            lines.push(head);
            proof {
                let v = text::strings_view(lines@);
                assert(v =~= seq![json::record_text(header_record(stable_id@))]);
                lemma_solid_push(Seq::empty(), head@);
                assert(v =~= Seq::<Seq<char>>::empty().push(head@));
            }
            files.wal = Some(lines);
        }
        let sequence: u64 = if top > acked {
            top
        } else {
            acked
        };
        Ok(DurableMailbox { stable_id: stable_id.to_owned(), sequence, last_acked_seq: acked })
    }

    /// Gives a message the next number, and makes its line for the log.
    pub fn begin_append(&mut self, msg: &Message, ts: i64) -> (r: (u64, String))
        requires
            old(self)@.sequence < u64::MAX,
        ensures
            final(self)@ == (MailV { sequence: (old(self)@.sequence + 1) as u64, ..old(self)@ }),
            r.0 == final(self)@.sequence,
            r.1@ == json::record_text(entry_record(EntryV { seq: r.0, ts, msg: msg@ })),
            !text::is_blank(r.1@),
            wire::lasting_message(msg@) ==> (entry_of(r.1@) matches Ok(q) && same_entry(
                EntryV { seq: r.0, ts, msg: msg@ },
                q,
            ) && wire::lasting_message(q.msg)),
    {
        self.sequence = self.sequence + 1;
        let line: String = encode_entry(self.sequence, ts, msg);
        (self.sequence, line)
    }

    /// Writes a message to the log under the next number. Where the mailbox is what its files
    /// say, it stays so, and what is still to be dealt with then ends with this message.
    pub fn append(&mut self, files: &mut WalFiles, msg: &Message, ts: i64) -> (r: u64)
        requires
            old(self)@.sequence < u64::MAX,
        ensures
            r == old(self)@.sequence + 1,
            final(self)@ == (MailV { sequence: r, ..old(self)@ }),
            final(files)@.ack == old(files)@.ack,
            final(files)@.wal == match old(files)@.wal {
                Some(v) => Some(
                    v.push(json::record_text(entry_record(EntryV { seq: r, ts, msg: msg@ }))),
                ),
                None => None,
            },
            ({
                let before = data(wal_lines(old(files)@));
                let after = data(wal_lines(final(files)@));
                wire::lasting_message(msg@) && solid(wal_lines(old(files)@)).len() > 0 ==> {
                    &&& in_step(old(files)@, old(self)@) ==> r > old(self)@.acked && in_step(
                        final(files)@,
                        final(self)@,
                    )
                    &&& all_lasting(readable(before)) ==> all_lasting(readable(after))
                    &&& pending(before, old(self)@.acked) is Ok && r > old(self)@.acked ==> (pending(
                        after,
                        old(self)@.acked,
                    ) matches Ok(es) && es.len() > 0 && pending(before, old(self)@.acked) == Ok::<
                        Seq<EntryV>,
                        Seq<char>,
                    >(es.drop_last()) && same_entry(EntryV { seq: r, ts, msg: msg@ }, es.last()))
                }
            }),
    {
        let ghost f0 = files@;
        let (n, line) = self.begin_append(msg, ts);
        let mut wal = None;
        core::mem::swap(&mut wal, &mut files.wal);
        if let Some(lines) = wal {
            let mut lines = lines;
            let ghost before = text::strings_view(lines@);
            lines.push(line);
            let ghost after = text::strings_view(lines@);
            files.wal = Some(lines);
            proof {
                assert(after =~= before.push(line@));
                lemma_solid_push(before, line@);
                if wire::lasting_message(msg@) && solid(before).len() > 0 {
                    let q = entry_of(line@)->Ok_0;
                    lemma_entry_push(data(before), line@, q, old(self)@.acked);
                    let had = readable(data(before));
                    if all_lasting(had) {
                        assert forall|k: int| 0 <= k < had.push(q).len() implies wire::lasting_message(
                            (#[trigger] had.push(q)[k]).msg,
                        ) by {
                            if k < had.len() {
                                assert(had.push(q)[k] == had[k]);
                            }
                        }
                    }
                    if pending(data(before), old(self)@.acked) is Ok && n > old(self)@.acked {
                        let es = pending(data(before), old(self)@.acked)->Ok_0;
                        assert(es.push(q).drop_last() =~= es);
                    }
                }
            }
        }
        n
    }

    /// The messages that are still to be dealt with, in order.
    pub fn replay(&self, files: &WalFiles) -> (r: Result<Vec<WalEntry>, AgentRtError>)
        ensures
            match pending(data(wal_lines(files@)), self@.acked) {
                Ok(es) => r matches Ok(v) && entries_view(v@) == es,
                Err(e) => r matches Err(x) && x@ == ErrorV::DurableMailbox(e),
            },
    {
        let mut out: Vec<WalEntry> = Vec::new();
        assert(entries_view(out@) =~= Seq::<EntryV>::empty());
        let lines = match &files.wal {
            Some(v) => v,
            None => {
                return Ok(out);
            },
        };
        let body: Vec<String> = data_lines(lines);
        let ghost d = text::strings_view(body@);
        let mut i: usize = 0;
        assert(d.take(0) =~= Seq::<Seq<char>>::empty());
        while i < body.len()
            invariant
                i <= body@.len(),
                d == text::strings_view(body@),
                d == data(wal_lines(files@)),
                pending(d.take(i as int), self@.acked) == Ok::<Seq<EntryV>, Seq<char>>(
                    entries_view(out@),
                ),
            decreases body@.len() - i,
        {
            let ghost x = body@[i as int]@;
            let ghost before = out@;
            assert(d.take(i as int + 1) =~= d.take(i as int).push(x));
            assert(d.take(i as int + 1).drop_last() =~= d.take(i as int));
            match decode_entry(body[i].as_str()) {
                Ok(e) => {
                    if e.seq > self.last_acked_seq {
                        out.push(e);
                        assert(entries_view(out@) =~= entries_view(before).push(e@));
                    }
                },
                Err(e) => {
                    let msg: String = concat2("bad entry: ", e.as_str());
                    proof {
                        lemma_pending_error(d, i as int + 1, self@.acked, msg@);
                    }
                    return Err(AgentRtError::DurableMailbox(msg));
                },
            }
            i += 1;
        }
        assert(d.take(i as int) =~= d);
        Ok(out)
    }

    /// All messages of the log that can be read, in order.
    pub fn replay_all(&self, files: &WalFiles) -> (r: Vec<WalEntry>)
        ensures
            entries_view(r@) == readable(data(wal_lines(files@))),
    {
        let mut out: Vec<WalEntry> = Vec::new();
        assert(entries_view(out@) =~= Seq::<EntryV>::empty());
        let lines = match &files.wal {
            Some(v) => v,
            None => {
                return out;
            },
        };
        let body: Vec<String> = data_lines(lines);
        let ghost d = text::strings_view(body@);
        let mut i: usize = 0;
        assert(d.take(0) =~= Seq::<Seq<char>>::empty());
        while i < body.len()
            invariant
                i <= body@.len(),
                d == text::strings_view(body@),
                d == data(wal_lines(files@)),
                readable(d.take(i as int)) == entries_view(out@),
            decreases body@.len() - i,
        {
            let ghost x = body@[i as int]@;
            let ghost before = out@;
            assert(d.take(i as int + 1) =~= d.take(i as int).push(x));
            assert(d.take(i as int + 1).drop_last() =~= d.take(i as int));
            if let Ok(e) = decode_entry(body[i].as_str()) {
                out.push(e);
                assert(entries_view(out@) =~= entries_view(before).push(e@));
            }
            i += 1;
        }
        assert(d.take(i as int) =~= d);
        out
    }

    /// The messages up to `seq` are dealt with. What the file then holds reads back as `seq`.
    pub fn ack(&mut self, files: &mut WalFiles, seq: u64)
        ensures
            final(self)@ == (MailV { acked: seq, ..old(self)@ }),
            final(files)@ == (WalFilesV { ack: Some(text::decimal(seq as nat)), ..old(files)@ }),
            acked_in(final(files)@) == Ok::<u64, Seq<char>>(seq),
            in_step(old(files)@, old(self)@) && old(self)@.acked <= seq <= old(self)@.sequence
                ==> in_step(final(files)@, final(self)@),
    {
        files.ack = Some(u64_to_text(seq));
        self.last_acked_seq = seq;
        proof {
            text::law_numeral_reads_back(seq);
            text::lemma_numeral_trimmed(seq as nat);
        }
    }

    /// The lines of a log without the messages that are dealt with. Where the messages can be
    /// given back by a file, the lines hold the same messages, and rewriting them again changes
    /// nothing.
    pub fn truncated(&self, files: &WalFiles) -> (r: Vec<String>)
        ensures
            text::strings_view(r@) == rewritten(self@, wal_lines(files@)),
            ({
                let kept = unacked(readable(data(wal_lines(files@))), self@.acked);
                let lines = text::strings_view(r@);
                all_lasting(kept) ==> {
                    &&& pending(data(lines), self@.acked) matches Ok(es) && same_entries(kept, es)
                    &&& rewritten(self@, lines) == lines
                    &&& all_lasting(readable(data(lines)))
                    &&& larger(top_seq(readable(data(lines))), self@.acked) == larger(
                        top_seq(readable(data(wal_lines(files@)))),
                        self@.acked,
                    )
                }
            }),
    {
        let all: Vec<WalEntry> = self.replay_all(files);
        let ghost es = entries_view(all@);
        let head: String = make_header(self.stable_id.as_str()).to_record();
        let ghost h = head@;
        let mut lines: Vec<String> = Vec::new();
        lines.push(head);
        let ghost f = |e: EntryV| json::record_text(entry_record(e));
        let ghost acked = self@.acked;
        let mut i: usize = 0;
        let ghost mut got: Seq<EntryV> = Seq::empty();
        proof {
            let v = text::strings_view(lines@);
            assert(v =~= Seq::<Seq<char>>::empty().push(h));
            lemma_solid_push(Seq::empty(), h);
            assert(es.take(0) =~= Seq::<EntryV>::empty());
            assert(v =~= seq![h] + unacked(es.take(0), acked).map_values(f));
            assert(unacked(es.take(0), acked).map_values(f) =~= got.map_values(f));
        }
        while i < all.len()
            invariant
                i <= all@.len(),
                es == entries_view(all@),
                acked == self@.acked,
                f == (|e: EntryV| json::record_text(entry_record(e))),
                solid(text::strings_view(lines@)).len() > 0,
                text::strings_view(lines@) == seq![h] + unacked(es.take(i as int), acked).map_values(
                    f,
                ),
                all_lasting(unacked(es.take(i as int), acked)) ==> {
                    &&& pending(data(text::strings_view(lines@)), acked) == Ok::<
                        Seq<EntryV>,
                        Seq<char>,
                    >(got)
                    &&& same_entries(unacked(es.take(i as int), acked), got)
                    &&& readable(data(text::strings_view(lines@))) == got
                    &&& all_lasting(got)
                    &&& unacked(got, acked) == got
                    &&& got.map_values(f) == unacked(es.take(i as int), acked).map_values(f)
                },
            decreases all@.len() - i,
        {
            let ghost before = text::strings_view(lines@);
            let ghost kept0 = unacked(es.take(i as int), acked);
            assert(es.take(i as int + 1).drop_last() =~= es.take(i as int));
            assert(es.take(i as int + 1).last() == all@[i as int]@);
            if all[i].seq > self.last_acked_seq {
                let line: String = encode_entry(all[i].seq, all[i].ts, &all[i].msg);
                lines.push(line);
                proof {
                    let e = all@[i as int]@;
                    let kept1 = unacked(es.take(i as int + 1), acked);
                    assert(kept1 =~= kept0.push(e));
                    assert(text::strings_view(lines@) =~= before.push(line@));
                    assert(kept1.map_values(f) =~= kept0.map_values(f).push(f(e)));
                    assert(text::strings_view(lines@) =~= seq![h] + kept1.map_values(f));
                    lemma_solid_push(before, line@);
                    if all_lasting(kept1) {
                        assert(all_lasting(kept0)) by {
                            assert forall|k: int| 0 <= k < kept0.len() implies wire::lasting_message(
                                (#[trigger] kept0[k]).msg,
                            ) by {
                                assert(kept1[k] == kept0[k]);
                            }
                        }
                        assert(kept1[kept0.len() as int] == e);
                        let q = entry_of(line@)->Ok_0;
                        lemma_entry_push(data(before), line@, q, acked);
                        let more = got.push(q);
                        assert(more.drop_last() =~= got);
                        assert(more.map_values(f) =~= got.map_values(f).push(f(q)));
                        assert(f(q) == f(e));
                        assert(same_entries(kept1, more)) by {
                            assert forall|k: int| 0 <= k < kept1.len() implies same_entry(
                                #[trigger] kept1[k],
                                more[k],
                            ) by {
                                if k < kept0.len() {
                                    assert(kept1[k] == kept0[k]);
                                }
                            }
                        }
                        assert(all_lasting(more)) by {
                            assert forall|k: int| 0 <= k < more.len() implies wire::lasting_message(
                                (#[trigger] more[k]).msg,
                            ) by {
                                if k < got.len() {
                                    assert(more[k] == got[k]);
                                }
                            }
                        }
                        got = more;
                    }
                }
            }
            i += 1;
        }
        assert(es.take(i as int) =~= es);
        proof {
            let kept = unacked(es, acked);
            if all_lasting(kept) {
                lemma_same_top(kept, got);
                lemma_unacked_top(es, acked);
            }
        }
        lines
    }

    /// Rewrites the log without the messages that are dealt with. Where the messages can be
    /// given back by a file, what is still to be dealt with stays the same, the mailbox stays
    /// what its files say, and rewriting the log again changes nothing.
    pub fn truncate(&mut self, files: &mut WalFiles)
        ensures
            final(self)@ == old(self)@,
            final(files)@.ack == old(files)@.ack,
            final(files)@.wal == Some(rewritten(old(self)@, wal_lines(old(files)@))),
            ({
                let kept = unacked(readable(data(wal_lines(old(files)@))), old(self)@.acked);
                let lines = wal_lines(final(files)@);
                all_lasting(kept) ==> {
                    &&& pending(data(lines), old(self)@.acked) matches Ok(es) && same_entries(
                        kept,
                        es,
                    )
                    &&& rewritten(old(self)@, lines) == lines
                    &&& all_lasting(readable(data(lines)))
                    &&& in_step(old(files)@, old(self)@) ==> in_step(final(files)@, final(self)@)
                }
            }),
    {
        let lines: Vec<String> = self.truncated(files);
        files.wal = Some(lines);
    }

    /// The number of the last message dealt with.
    pub fn last_acked_seq(&self) -> (r: u64)
        ensures
            r == self@.acked,
    {
        self.last_acked_seq
    }

    /// The number of the last message written.
    pub fn current_seq(&self) -> (r: u64)
        ensures
            r == self@.sequence,
    {
        self.sequence
    }
}

proof fn lemma_pending_error(d: Seq<Seq<char>>, n: int, acked: u64, msg: Seq<char>)
    requires
        0 <= n <= d.len(),
        pending(d.take(n), acked) == Err::<Seq<EntryV>, Seq<char>>(msg),
    ensures
        pending(d, acked) == Err::<Seq<EntryV>, Seq<char>>(msg),
    decreases d.len() - n,
{
    if n == d.len() {
        assert(d.take(n) =~= d);
    } else {
        assert(d.take(n + 1).drop_last() =~= d.take(n));
        lemma_pending_error(d, n + 1, acked, msg);
    }
}

/// Where every line can be read, what is to be dealt with is what is not acknowledged.
pub proof fn law_pending_is_unacked(d: Seq<Seq<char>>, acked: u64)
    requires
        forall|i: int| 0 <= i < d.len() ==> entry_of(#[trigger] d[i]) is Ok,
    ensures
        pending(d, acked) == Ok::<Seq<EntryV>, Seq<char>>(unacked(readable(d), acked)),
    decreases d.len(),
{
    if d.len() > 0 {
        let t = d.drop_last();
        assert forall|i: int| 0 <= i < t.len() implies entry_of(#[trigger] t[i]) is Ok by {
            assert(t[i] == d[i]);
        }
        law_pending_is_unacked(t, acked);
        assert(d.last() == d[d.len() - 1]);
        let e = entry_of(d.last())->Ok_0;
        assert(readable(t).push(e).drop_last() =~= readable(t));
    }
}

/// Where all messages of a log can be given back by a file, so can those still to be dealt with.
pub proof fn law_rest_lasts(es: Seq<EntryV>, acked: u64)
    requires
        all_lasting(es),
    ensures
        all_lasting(unacked(es, acked)),
    decreases es.len(),
{
    if es.len() > 0 {
        let t = es.drop_last();
        assert forall|k: int| 0 <= k < t.len() implies wire::lasting_message((#[trigger] t[k]).msg) by {
            assert(t[k] == es[k]);
        }
        law_rest_lasts(t, acked);
        assert(es.last() == es[es.len() - 1]);
        let r = unacked(t, acked);
        assert forall|k: int| 0 <= k < unacked(es, acked).len() implies wire::lasting_message(
            (#[trigger] unacked(es, acked)[k]).msg,
        ) by {
            if k < r.len() {
                assert(unacked(es, acked)[k] == r[k]);
            }
        }
    }
}

/// Nothing that is acknowledged is dealt with again.
pub proof fn law_acked_not_replayed(d: Seq<Seq<char>>, acked: u64, i: int)
    requires
        pending(d, acked) is Ok,
        0 <= i < pending(d, acked)->Ok_0.len(),
    ensures
        pending(d, acked)->Ok_0[i].seq > acked,
    decreases d.len(),
{
    if d.len() > 0 {
        let prev = pending(d.drop_last(), acked)->Ok_0;
        if i < prev.len() {
            law_acked_not_replayed(d.drop_last(), acked, i);
        }
    }
}

/// A mailbox that is what its files say is found again when it is opened anew: it goes on with
/// the next number, which is neither in the log nor dealt with.
pub proof fn law_reopen_goes_on(f: WalFilesV, m: MailV)
    requires
        in_step(f, m),
    ensures
        acked_in(f) == Ok::<u64, Seq<char>>(m.acked),
        counted(f, m.acked) == m.sequence,
        m.acked <= m.sequence,
        forall|i: int|
            0 <= i < readable(data(wal_lines(f))).len() ==> (#[trigger] readable(
                data(wal_lines(f)),
            )[i]).seq <= m.sequence,
{
    let es = readable(data(wal_lines(f)));
    assert forall|i: int| 0 <= i < es.len() implies (#[trigger] es[i]).seq <= m.sequence by {
        lemma_top_is_top(es, i);
    }
}

proof fn lemma_top_is_top(es: Seq<EntryV>, i: int)
    requires
        0 <= i < es.len(),
    ensures
        es[i].seq <= top_seq(es),
    decreases es.len(),
{
    if i < es.len() - 1 {
        lemma_top_is_top(es.drop_last(), i);
    }
}

/// What is still to be dealt with is every entry behind the last one dealt with, in the order of the
/// log, and no other.
pub proof fn law_unacked_exactly(es: Seq<EntryV>, acked: u64)
    ensures
        unacked(es, acked) == es.filter(|e: EntryV| e.seq > acked),
    decreases es.len(),
{
    reveal(Seq::filter);
    if es.len() > 0 {
        law_unacked_exactly(es.drop_last(), acked);
    } else {
        assert(unacked(es, acked) =~= es.filter(|e: EntryV| e.seq > acked));
    }
}

/// Every line of a log that holds an entry gives that entry, in its place.
pub proof fn law_every_line_read(d: Seq<Seq<char>>, i: int)
    requires
        forall|k: int| 0 <= k < d.len() ==> entry_of(#[trigger] d[k]) is Ok,
        0 <= i < d.len(),
    ensures
        readable(d).len() == d.len(),
        Ok::<EntryV, Seq<char>>(readable(d)[i]) == entry_of(d[i]),
    decreases d.len(),
{
    let t = d.drop_last();
    assert forall|k: int| 0 <= k < t.len() implies entry_of(#[trigger] t[k]) is Ok by {
        assert(t[k] == d[k]);
    }
    assert(d.last() == d[d.len() - 1]);
    assert(t.len() == 0 ==> readable(t).len() == 0);
    if i < t.len() {
        law_every_line_read(t, i);
        assert(t[i] == d[i]);
    } else if t.len() > 0 {
        law_every_line_read(t, 0);
    }
}

/// Blank lines do not count: the lines of a log are all others, in their order, and the first of
/// them is the header.
pub proof fn law_blank_lines_do_not_count(lines: Seq<Seq<char>>)
    ensures
        solid(lines) == lines.filter(|l: Seq<char>| !text::is_blank(l)),
        solid(lines).len() > 0 ==> solid(lines) == seq![solid(lines)[0]] + data(lines),
    decreases lines.len(),
{
    reveal(Seq::filter);
    if lines.len() > 0 {
        law_blank_lines_do_not_count(lines.drop_last());
    } else {
        assert(solid(lines) =~= lines.filter(|l: Seq<char>| !text::is_blank(l)));
    }
    if solid(lines).len() > 0 {
        assert(solid(lines) =~= seq![solid(lines)[0]] + data(lines));
    }
}

/// The greatest number among entries is one of them, and no entry has a greater one.
pub proof fn law_top_is_greatest(es: Seq<EntryV>)
    ensures
        forall|i: int| 0 <= i < es.len() ==> (#[trigger] es[i]).seq <= top_seq(es),
        es.len() > 0 && top_seq(es) > 0 ==> exists|i: int|
            0 <= i < es.len() && (#[trigger] es[i]).seq == top_seq(es),
    decreases es.len(),
{
    if es.len() > 0 {
        let t = es.drop_last();
        law_top_is_greatest(t);
        let n = es.len() - 1;
        assert(es.last() == es[n]);
        assert forall|i: int| 0 <= i < es.len() implies (#[trigger] es[i]).seq <= top_seq(es) by {
            if i < n {
                assert(t[i] == es[i]);
            }
        }
        if top_seq(es) > 0 && es.last().seq <= top_seq(t) {
            let i = choose|i: int| 0 <= i < t.len() && (#[trigger] t[i]).seq == top_seq(t);
            assert(es[i].seq == top_seq(es));
        }
    }
}

/// The number in the file of what is dealt with is read as it was written; without the file it is
/// zero.
pub proof fn law_ack_is_read(wal: Option<Seq<Seq<char>>>, n: u64)
    ensures
        acked_in(WalFilesV { wal, ack: Some(text::decimal(n as nat)) }) == Ok::<u64, Seq<char>>(n),
        acked_in(WalFilesV { wal, ack: None }) == Ok::<u64, Seq<char>>(0),
{
    text::lemma_numeral_trimmed(n as nat);
    text::law_numeral_reads_back(n);
}

} // verus!
