//! The settings of the runtime, and their reading from TOML.
use vstd::prelude::*;
use toml::Value;
use crate::agent_rt::error::{AgentRtError, ErrorV};
use crate::agent_rt::release;
use crate::json;
use crate::json::{Json, JsonNum, JsonV};
use crate::util::text::concat2;

verus! {

/// The settings of the scheduler.
#[derive(Debug, Clone, Copy, PartialEq, Eq, Structural)]
pub struct RuntimeConfig {
    pub worker_count: usize,
    pub mailbox_capacity: usize,
    pub max_reductions: u32,
}

/// Where checkpoints are kept, and for how long.
#[derive(Debug, PartialEq, Eq)]
pub struct CheckpointConfig {
    pub store: String,
    pub path: String,
    pub ttl_hours: u64,
    pub prune_interval_secs: u64,
}

/// Whether and where the server listens.
#[derive(Debug, PartialEq, Eq)]
pub struct ServerConfig {
    pub enabled: bool,
    pub bind: String,
}

/// What is logged, and how.
#[derive(Debug, PartialEq, Eq)]
pub struct LogConfig {
    pub level: String,
    pub format: String,
}

/// All settings.
#[derive(Debug, PartialEq, Eq)]
pub struct AppConfig {
    pub runtime: RuntimeConfig,
    pub checkpoint: CheckpointConfig,
    pub server: ServerConfig,
    pub logging: LogConfig,
}

/// An agent that may be started with the runtime.
#[derive(Debug, PartialEq, Eq)]
pub struct AgentConfig {
    pub name: String,
    pub provider: String,
    pub model: Option<String>,
    pub system_prompt: Option<String>,
    pub tools: Vec<String>,
    pub auto_start: bool,
    pub max_iterations: Option<usize>,
    pub timeout_ms: Option<u64>,
}

/// An outside server whose tools agents may use.
#[derive(Debug, PartialEq, Eq)]
pub struct McpServerEntry {
    pub name: String,
    pub transport: String,
    pub command: Option<String>,
    pub args: Option<Vec<String>>,
    pub env: Option<Vec<(String, String)>>,
    pub url: Option<String>,
    pub auth_token_env: Option<String>,
    pub timeout_ms: Option<u64>,
}

/// What the settings of checkpoints are.
pub struct CheckpointV {
    pub store: Seq<char>,
    pub path: Seq<char>,
    pub ttl_hours: u64,
    pub prune_interval_secs: u64,
}

impl View for CheckpointConfig {
    type V = CheckpointV;

    open spec fn view(&self) -> CheckpointV {
        CheckpointV {
            store: self.store@,
            path: self.path@,
            ttl_hours: self.ttl_hours,
            prune_interval_secs: self.prune_interval_secs,
        }
    }
}

/// What the settings of the server are.
pub struct ListenV {
    pub enabled: bool,
    pub bind: Seq<char>,
}

impl View for ServerConfig {
    type V = ListenV;

    open spec fn view(&self) -> ListenV {
        ListenV { enabled: self.enabled, bind: self.bind@ }
    }
}

/// What the settings of the log are.
pub struct LogV {
    pub level: Seq<char>,
    pub format: Seq<char>,
}

impl View for LogConfig {
    type V = LogV;

    open spec fn view(&self) -> LogV {
        LogV { level: self.level@, format: self.format@ }
    }
}

/// What all settings are.
pub struct ConfigV {
    pub runtime: RuntimeConfig,
    pub checkpoint: CheckpointV,
    pub server: ListenV,
    pub logging: LogV,
}

impl View for AppConfig {
    type V = ConfigV;

    open spec fn view(&self) -> ConfigV {
        ConfigV {
            runtime: self.runtime,
            checkpoint: self.checkpoint@,
            server: self.server@,
            logging: self.logging@,
        }
    }
}

// ---------------------------------------------------------------------------
// Defaults
// ---------------------------------------------------------------------------
/// The settings of the scheduler where nothing else is said.
pub open spec fn default_runtime() -> RuntimeConfig {
    RuntimeConfig { worker_count: 4, mailbox_capacity: 1024, max_reductions: 200 }
}

/// The settings of checkpoints where nothing else is said.
pub open spec fn default_checkpoint() -> CheckpointV {
    CheckpointV {
        store: "sqlite"@,
        path: "./zeptobeam.db"@,
        ttl_hours: 24,
        prune_interval_secs: 3600,
    }
}

/// The settings of the server where nothing else is said.
pub open spec fn default_server() -> ListenV {
    ListenV { enabled: true, bind: "127.0.0.1:9090"@ }
}

/// The settings of the log where nothing else is said.
pub open spec fn default_log() -> LogV {
    LogV { level: "info"@, format: "pretty"@ }
}

/// All settings where nothing else is said.
pub open spec fn default_config() -> ConfigV {
    ConfigV {
        runtime: default_runtime(),
        checkpoint: default_checkpoint(),
        server: default_server(),
        logging: default_log(),
    }
}

impl Default for RuntimeConfig {
    fn default() -> (r: Self)
        ensures
            r == default_runtime(),
    {
        RuntimeConfig { worker_count: 4, mailbox_capacity: 1024, max_reductions: 200 }
    }
}

impl Default for CheckpointConfig {
    fn default() -> (r: Self)
        ensures
            r@ == default_checkpoint(),
    {
        CheckpointConfig {
            store: "sqlite".to_owned(),
            path: "./zeptobeam.db".to_owned(),
            ttl_hours: 24,
            prune_interval_secs: 3600,
        }
    }
}

impl Default for ServerConfig {
    fn default() -> (r: Self)
        ensures
            r@ == default_server(),
    {
        ServerConfig { enabled: true, bind: "127.0.0.1:9090".to_owned() }
    }
}

impl Default for LogConfig {
    fn default() -> (r: Self)
        ensures
            r@ == default_log(),
    {
        LogConfig { level: "info".to_owned(), format: "pretty".to_owned() }
    }
}

impl Default for AppConfig {
    fn default() -> (r: Self)
        ensures
            r@ == default_config(),
    {
        AppConfig {
            runtime: RuntimeConfig::default(),
            checkpoint: CheckpointConfig::default(),
            server: ServerConfig::default(),
            logging: LogConfig::default(),
        }
    }
}

// ---------------------------------------------------------------------------
// Reading
// ---------------------------------------------------------------------------
/// A text setting: the default where it is missing, nothing where it is no text.
pub open spec fn text_setting(v: JsonV, k: Seq<char>, default: Seq<char>) -> Option<Seq<char>> {
    match v.get(k) {
        None => Some(default),
        Some(JsonV::Str(s)) => Some(s),
        Some(_) => None,
    }
}

/// A number setting: the default where it is missing, nothing where it does not fit.
pub open spec fn number_setting(v: JsonV, k: Seq<char>, default: u64, most: u64) -> Option<u64> {
    match v.get(k) {
        None => Some(default),
        Some(x) => match x.unsigned() {
            Some(n) => if n <= most {
                Some(n)
            } else {
                None
            },
            None => None,
        },
    }
}

/// A truth setting: the default where it is missing, nothing where it is no truth value.
pub open spec fn truth_setting(v: JsonV, k: Seq<char>, default: bool) -> Option<bool> {
    match v.get(k) {
        None => Some(default),
        Some(x) => x.truth(),
    }
}

fn read_text(v: &Json, k: &str, default: &str) -> (r: Option<String>)
    ensures
        (match r {
            Some(s) => Some(s@),
            None => None,
        }) == text_setting(v@, k@, default@),
{
    match v.get(k) {
        None => Some(default.to_owned()),
        Some(Json::Str(s)) => Some(s.clone()),
        Some(_) => None,
    }
}

fn read_number(v: &Json, k: &str, default: u64, most: u64) -> (r: Option<u64>)
    ensures
        r == number_setting(v@, k@, default, most),
{
    match v.get(k) {
        None => Some(default),
        Some(x) => match x.as_u64() {
            Some(n) => if n <= most {
                Some(n)
            } else {
                None
            },
            None => None,
        },
    }
}

fn read_truth(v: &Json, k: &str, default: bool) -> (r: Option<bool>)
    ensures
        r == truth_setting(v@, k@, default),
{
    match v.get(k) {
        None => Some(default),
        Some(x) => x.as_bool(),
    }
}

/// The names of the settings of each table.
pub open spec fn runtime_names() -> Seq<Seq<char>> {
    seq!["worker_count"@, "mailbox_capacity"@, "max_reductions"@]
}

pub open spec fn checkpoint_names() -> Seq<Seq<char>> {
    seq!["store"@, "path"@, "ttl_hours"@, "prune_interval_secs"@]
}

pub open spec fn server_names() -> Seq<Seq<char>> {
    seq!["enabled"@, "bind"@]
}

pub open spec fn log_names() -> Seq<Seq<char>> {
    seq!["level"@, "format"@]
}

/// As many of the values as there are names.
pub open spec fn first_of(a: Seq<JsonV>, names: Seq<Seq<char>>) -> Seq<JsonV> {
    if a.len() <= names.len() {
        a
    } else {
        a.take(names.len() as int)
    }
}

/// A table of settings: an empty one where it is missing, nothing where it is no table. A list
/// gives the settings in the order of their names; what it has too many of does not count.
pub open spec fn table_of(v: JsonV, k: Seq<char>, names: Seq<Seq<char>>) -> Option<JsonV> {
    match v.get(k) {
        None => Some(JsonV::Object(Seq::empty())),
        Some(JsonV::Object(m)) => Some(JsonV::Object(m)),
        Some(JsonV::Array(a)) => Some(JsonV::Object(json::named(names, first_of(a, names)))),
        Some(_) => None,
    }
}

fn read_table(v: &Json, k: &str, names: &Vec<&str>) -> (r: Option<Json>)
    ensures
        (match r {
            Some(j) => Some(j@),
            None => None,
        }) == table_of(v@, k@, json::names_view(names@)),
{
    match v.get(k) {
        None => {
            let m: Vec<(String, Json)> = Vec::new();
            proof {
                json::lemma_object_tree(m);
                assert(json::members_view(m@) =~= Seq::empty());
            }
            Some(Json::Object(m))
        },
        Some(Json::Object(m)) => {
            let t: &Json = v.get(k)?;
            Some(t.dup())
        },
        Some(Json::Array(a)) => {
            proof {
                json::lemma_array_tree(*a);
            }
            let ghost all = json::array_view(a@);
            let n: usize = if a.len() <= names.len() {
                a.len()
            } else {
                names.len()
            };
            let mut first: Vec<Json> = Vec::new();
            let mut i: usize = 0;
            assert(json::array_view(first@) =~= all.take(0));
            while i < n
                invariant
                    i <= n <= a@.len(),
                    all == json::array_view(a@),
                    json::array_view(first@) == all.take(i as int),
                decreases n - i,
            {
                let ghost before = first@;
                let x: Json = a[i].dup();
                assert(x@ == all[i as int]);
                first.push(x);
                assert(json::array_view(first@) =~= json::array_view(before).push(x@));
                i += 1;
                assert(json::array_view(first@) =~= all.take(i as int));
            }
            assert(all.take(n as int) =~= first_of(all, json::names_view(names@)));
            proof {
                json::lemma_array_tree(first);
            }
            let t: Json = Json::Array(first);
            Some(t.as_record(names, 0))
        },
        Some(_) => None,
    }
}

/// The settings of the scheduler in a table.
pub open spec fn runtime_of(t: JsonV) -> Option<RuntimeConfig> {
    match (
        number_setting(t, "worker_count"@, 4, usize::MAX as u64),
        number_setting(t, "mailbox_capacity"@, 1024, usize::MAX as u64),
        number_setting(t, "max_reductions"@, 200, u32::MAX as u64),
    ) {
        (Some(w), Some(m), Some(x)) => Some(
            RuntimeConfig {
                worker_count: w as usize,
                mailbox_capacity: m as usize,
                max_reductions: x as u32,
            },
        ),
        _ => None,
    }
}

/// The settings of checkpoints in a table.
pub open spec fn checkpoint_of(t: JsonV) -> Option<CheckpointV> {
    let d = default_checkpoint();
    match (
        text_setting(t, "store"@, d.store),
        text_setting(t, "path"@, d.path),
        number_setting(t, "ttl_hours"@, d.ttl_hours, u64::MAX),
        number_setting(t, "prune_interval_secs"@, d.prune_interval_secs, u64::MAX),
    ) {
        (Some(store), Some(path), Some(ttl_hours), Some(prune_interval_secs)) => Some(
            CheckpointV { store, path, ttl_hours, prune_interval_secs },
        ),
        _ => None,
    }
}

/// The settings of the server in a table.
pub open spec fn server_of(t: JsonV) -> Option<ListenV> {
    let d = default_server();
    match (truth_setting(t, "enabled"@, d.enabled), text_setting(t, "bind"@, d.bind)) {
        (Some(enabled), Some(bind)) => Some(ListenV { enabled, bind }),
        _ => None,
    }
}

/// The settings of the log in a table.
pub open spec fn log_of(t: JsonV) -> Option<LogV> {
    let d = default_log();
    match (text_setting(t, "level"@, d.level), text_setting(t, "format"@, d.format)) {
        (Some(level), Some(format)) => Some(LogV { level, format }),
        _ => None,
    }
}

/// All settings in a document: what is missing has its default.
pub open spec fn config_of(v: JsonV) -> Option<ConfigV> {
    match (
        table_of(v, "runtime"@, runtime_names()),
        table_of(v, "checkpoint"@, checkpoint_names()),
        table_of(v, "server"@, server_names()),
        table_of(v, "logging"@, log_names()),
    ) {
        (Some(r), Some(c), Some(s), Some(l)) => match (
            runtime_of(r),
            checkpoint_of(c),
            server_of(s),
            log_of(l),
        ) {
            (Some(runtime), Some(checkpoint), Some(server), Some(logging)) => Some(
                ConfigV { runtime, checkpoint, server, logging },
            ),
            _ => None,
        },
        _ => None,
    }
}

/// The settings that were read, or what is wrong with them.
pub open spec fn config_in(parsed: Result<JsonV, Seq<char>>) -> Result<ConfigV, ErrorV> {
    match parsed {
        Err(e) => Err(ErrorV::Config("parse TOML: "@ + e)),
        Ok(v) => match config_of(v) {
            Some(c) => Ok(c),
            None => Err(ErrorV::Config("parse TOML: "@ + release::BAD_MEMBER@)),
        },
    }
}

/// What reading gave.
pub open spec fn config_view(r: Result<AppConfig, AgentRtError>) -> Result<ConfigV, ErrorV> {
    match r {
        Ok(c) => Ok(c@),
        Err(e) => Err(e@),
    }
}

fn read_config(v: &Json) -> (r: Option<AppConfig>)
    ensures
        (match r {
            Some(c) => Some(c@),
            None => None,
        }) == config_of(v@),
{
    let runtime_keys: Vec<&str> = vec!["worker_count", "mailbox_capacity", "max_reductions"];
    assert(json::names_view(runtime_keys@) =~= runtime_names());
    let checkpoint_keys: Vec<&str> = vec!["store", "path", "ttl_hours", "prune_interval_secs"];
    assert(json::names_view(checkpoint_keys@) =~= checkpoint_names());
    let server_keys: Vec<&str> = vec!["enabled", "bind"];
    assert(json::names_view(server_keys@) =~= server_names());
    let log_keys: Vec<&str> = vec!["level", "format"];
    assert(json::names_view(log_keys@) =~= log_names());
    let t: Json = read_table(v, "runtime", &runtime_keys)?;
    let c: Json = read_table(v, "checkpoint", &checkpoint_keys)?;
    let s: Json = read_table(v, "server", &server_keys)?;
    let l: Json = read_table(v, "logging", &log_keys)?;
    let worker_count: u64 = read_number(&t, "worker_count", 4, usize::MAX as u64)?;
    let mailbox_capacity: u64 = read_number(&t, "mailbox_capacity", 1024, usize::MAX as u64)?;
    let max_reductions: u64 = read_number(&t, "max_reductions", 200, 0xffff_ffff)?;
    let runtime = RuntimeConfig {
        worker_count: worker_count as usize,
        mailbox_capacity: mailbox_capacity as usize,
        max_reductions: max_reductions as u32,
    };
    let checkpoint = CheckpointConfig {
        store: read_text(&c, "store", "sqlite")?,
        path: read_text(&c, "path", "./zeptobeam.db")?,
        ttl_hours: read_number(&c, "ttl_hours", 24, u64::MAX)?,
        prune_interval_secs: read_number(&c, "prune_interval_secs", 3600, u64::MAX)?,
    };
    let server = ServerConfig {
        enabled: read_truth(&s, "enabled", true)?,
        bind: read_text(&s, "bind", "127.0.0.1:9090")?,
    };
    let logging = LogConfig {
        level: read_text(&l, "level", "info")?,
        format: read_text(&l, "format", "pretty")?,
    };
    Some(AppConfig { runtime, checkpoint, server, logging })
}

/// The settings in a document that was read, or what is wrong with them.
pub fn config_from(parsed: Result<Json, String>) -> (r: Result<AppConfig, AgentRtError>)
    ensures
        config_view(r) == config_in(json::parse_view(parsed)),
{
    match parsed {
        Err(e) => Err(AgentRtError::Config(concat2("parse TOML: ", e.as_str()))),
        Ok(v) => match read_config(&v) {
            Some(c) => Ok(c),
            None => Err(AgentRtError::Config(concat2("parse TOML: ", release::BAD_MEMBER))),
        },
    }
}

/// Reads settings from the text of a TOML document.
pub fn load_config_from_str(s: &str) -> (r: Result<AppConfig, AgentRtError>)
    ensures
        config_view(r) == config_in(toml_parsed(s@)),
{
    config_from(parse_toml(s))
}

/// A TOML value as `toml` keeps it.
#[verifier::external_type_specification]
#[verifier::external_body]
pub struct ExTomlValue(toml::Value);

/// What [`toml::from_str`] reads from a text: the document as one value, or the error's message.
pub uninterp spec fn toml_parsed(text: Seq<char>) -> Result<JsonV, Seq<char>>;

/// The name of the member under which `toml` hands a date on.
const DATE_MEMBER: &'static str = "$__toml_private_datetime";

/// Changes a `toml` value to a [`Json`], member by member; a date is an object with the one member
/// under which `toml` hands it on. Nothing is stated of it.
#[verifier::external_body]
fn json_from_toml(v: Value) -> (r: Json) {
    match v {
        Value::String(s) => Json::Str(s),
        Value::Integer(n) => Json::Num(
            u64::try_from(n).map_or(JsonNum::NegInt(n), JsonNum::PosInt),
        ),
        Value::Float(x) => Json::Num(JsonNum::Decimal(x.to_string())),
        Value::Boolean(b) => Json::Bool(b),
        Value::Datetime(d) => Json::Object(vec![(DATE_MEMBER.to_owned(), Json::Str(d.to_string()))]),
        Value::Array(a) => Json::Array(a.into_iter().map(json_from_toml).collect()),
        Value::Table(t) => Json::Object(
            t.into_iter().map(|(k, w)| (k, json_from_toml(w))).collect(),
        ),
    }
}

/// Calls [`toml::from_str`] for a table: the document that the text holds, or the message of the
/// error that it gives. The result depends on the text alone.
#[verifier::external_body]
pub(crate) fn parse_toml(text: &str) -> (r: Result<Json, String>)
    ensures
        json::parse_view(r) == toml_parsed(text@),
{
    match toml::from_str::<toml::Table>(text) {
        Ok(t) => Ok(json_from_toml(Value::Table(t))),
        Err(e) => Err(e.to_string()),
    }
}

// ---------------------------------------------------------------------------
// What holds of every document
// ---------------------------------------------------------------------------
/// An empty document gives every setting its default.
pub proof fn law_empty_gives_defaults()
    ensures
        config_in(Ok(JsonV::Object(Seq::empty()))) == Ok::<ConfigV, ErrorV>(default_config()),
{
}

/// A document that says nothing of a table leaves that table at its defaults.
pub proof fn law_missing_table_is_default(v: JsonV)
    requires
        config_of(v) is Some,
    ensures
        v.get("runtime"@) is None ==> (config_of(v)->0).runtime == default_runtime(),
        v.get("checkpoint"@) is None ==> (config_of(v)->0).checkpoint == default_checkpoint(),
        v.get("server"@) is None ==> (config_of(v)->0).server == default_server(),
        v.get("logging"@) is None ==> (config_of(v)->0).logging == default_log(),
{
    let t = JsonV::Object(Seq::empty());
    assert(forall|k: Seq<char>| #[trigger] t.get(k) is None);
}

/// A setting that is given is the one that counts.
pub proof fn law_given_settings_count(v: JsonV, t: JsonV)
    requires
        config_of(v) is Some,
        t is Object,
    ensures
        v.get("runtime"@) == Some(t) ==> {
            let c = (config_of(v)->0).runtime;
            &&& t.get_unsigned("worker_count"@) matches Some(n) ==> c.worker_count == n
            &&& t.get_unsigned("mailbox_capacity"@) matches Some(n) ==> c.mailbox_capacity == n
            &&& t.get_unsigned("max_reductions"@) matches Some(n) ==> c.max_reductions == n
        },
        v.get("checkpoint"@) == Some(t) ==> {
            let c = (config_of(v)->0).checkpoint;
            &&& t.get_text("store"@) matches Some(s) ==> c.store == s
            &&& t.get_text("path"@) matches Some(s) ==> c.path == s
            &&& t.get_unsigned("ttl_hours"@) matches Some(n) ==> c.ttl_hours == n
            &&& t.get_unsigned("prune_interval_secs"@) matches Some(n) ==> c.prune_interval_secs == n
        },
        v.get("server"@) == Some(t) ==> {
            let c = (config_of(v)->0).server;
            &&& t.get("enabled"@) matches Some(JsonV::Bool(b)) ==> c.enabled == b
            &&& t.get_text("bind"@) matches Some(s) ==> c.bind == s
        },
        v.get("logging"@) == Some(t) ==> {
            let c = (config_of(v)->0).logging;
            &&& t.get_text("level"@) matches Some(s) ==> c.level == s
            &&& t.get_text("format"@) matches Some(s) ==> c.format == s
        },
{
}

/// A setting of the wrong kind is refused, and with it the whole document.
pub proof fn law_wrong_settings_refused(v: JsonV, t: JsonV)
    requires
        t is Object,
        v.get("checkpoint"@) == Some(t),
        t.get("store"@) matches Some(x) && !(x is Str),
    ensures
        config_of(v) is None,
        config_in(Ok(v)) is Err,
{
}

} // verus!
