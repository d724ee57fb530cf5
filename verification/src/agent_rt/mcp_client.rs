//! Outside servers, and the tools that agents use of them.
use vstd::prelude::*;
use crate::agent_rt::config::McpServerEntry;
use crate::agent_rt::types;
use crate::agent_rt::types::AgentPid;
use crate::json::{Json, JsonV};
use crate::util::assoc::{AssocMap, MapKey};
use crate::util::text;
use crate::util::text::{chars_of, concat2, concat3, find_in, str_eq, string_of, trim};

verus! {

/// What can go wrong with an outside server.
#[derive(Debug, PartialEq, Eq)]
pub enum McpClientError {
    ServerNotFound(String),
    Transport(String),
    Protocol(String),
    ToolNotFound(String),
    NotInitialized,
    Config(String),
}

/// What an error is.
pub enum ClientErrorV {
    ServerNotFound(Seq<char>),
    Transport(Seq<char>),
    Protocol(Seq<char>),
    ToolNotFound(Seq<char>),
    NotInitialized,
    Config(Seq<char>),
}

impl View for McpClientError {
    type V = ClientErrorV;

    open spec fn view(&self) -> ClientErrorV {
        match self {
            McpClientError::ServerNotFound(s) => ClientErrorV::ServerNotFound(s@),
            McpClientError::Transport(s) => ClientErrorV::Transport(s@),
            McpClientError::Protocol(s) => ClientErrorV::Protocol(s@),
            McpClientError::ToolNotFound(s) => ClientErrorV::ToolNotFound(s@),
            McpClientError::NotInitialized => ClientErrorV::NotInitialized,
            McpClientError::Config(s) => ClientErrorV::Config(s@),
        }
    }
}

impl ClientErrorV {
    /// The text of an error.
    pub open spec fn text(self) -> Seq<char> {
        match self {
            ClientErrorV::ServerNotFound(s) => "MCP server '"@ + s + "' not found"@,
            ClientErrorV::Transport(s) => "MCP transport error: "@ + s,
            ClientErrorV::Protocol(s) => "MCP protocol error: "@ + s,
            ClientErrorV::ToolNotFound(s) => "MCP tool '"@ + s + "' not found"@,
            ClientErrorV::NotInitialized => "MCP session not initialized"@,
            ClientErrorV::Config(s) => "MCP config error: "@ + s,
        }
    }
}

impl McpClientError {
    /// The text of this error.
    pub fn text(&self) -> (r: String)
        ensures
            r@ == self@.text(),
    {
        match self {
            McpClientError::ServerNotFound(s) => concat3("MCP server '", s.as_str(), "' not found"),
            McpClientError::Transport(s) => concat2("MCP transport error: ", s.as_str()),
            McpClientError::Protocol(s) => concat2("MCP protocol error: ", s.as_str()),
            McpClientError::ToolNotFound(s) => concat3("MCP tool '", s.as_str(), "' not found"),
            McpClientError::NotInitialized => "MCP session not initialized".to_owned(),
            McpClientError::Config(s) => concat2("MCP config error: ", s.as_str()),
        }
    }
}

/// The seconds of a time in milliseconds, rounded up, and at least one; thirty where no time is
/// given.
pub open spec fn whole_seconds(timeout_ms: Option<u64>) -> u64 {
    match timeout_ms {
        Some(ms) => if ms == 0 {
            1
        } else {
            ((ms + 999) / 1000) as u64
        },
        None => 30,
    }
}

/// The seconds of a time in milliseconds, rounded up, and at least one.
pub fn timeout_secs_from_ms(timeout_ms: Option<u64>) -> (r: u64)
    ensures
        r == whole_seconds(timeout_ms),
{
    match timeout_ms {
        Some(ms) => {
            let mut secs: u64 = ms / 1000;
            if ms % 1000 != 0 {
                secs = secs + 1;
            }
            if secs < 1 {
                1
            } else {
                secs
            }
        },
        None => 30,
    }
}

// ---------------------------------------------------------------------------
// Names of tools
// ---------------------------------------------------------------------------
/// A name names a tool of an outside server.
pub open spec fn is_remote_name(name: Seq<char>) -> bool {
    text::find(name, "__"@) is Some
}

/// The server and the tool in a name: what stands before and after the first double underscore.
pub open spec fn name_parts(name: Seq<char>) -> Option<(Seq<char>, Seq<char>)> {
    match text::find(name, "__"@) {
        Some(i) => Some((name.take(i), name.skip(i + 2))),
        None => None,
    }
}

/// The server and the tool in a name, where both are there.
pub open spec fn full_name(name: Seq<char>) -> Result<(Seq<char>, Seq<char>), ClientErrorV> {
    match name_parts(name) {
        Some((server, tool)) => if server.len() == 0 || tool.len() == 0 {
            Err(ClientErrorV::ToolNotFound(name))
        } else {
            Ok((server, tool))
        },
        None => Err(ClientErrorV::ToolNotFound(name)),
    }
}

/// The name under which agents know a tool of a server.
pub open spec fn remote_name(server: Seq<char>, tool: Seq<char>) -> Seq<char> {
    server + "__"@ + tool
}

/// What the parts of a name are.
pub open spec fn parts_view(r: Option<(String, String)>) -> Option<(Seq<char>, Seq<char>)> {
    match r {
        Some(p) => Some((p.0@, p.1@)),
        None => None,
    }
}

/// What the search for the parts of a name gave.
pub open spec fn full_view(r: Result<(String, String), McpClientError>) -> Result<
    (Seq<char>, Seq<char>),
    ClientErrorV,
> {
    match r {
        Ok(p) => Ok((p.0@, p.1@)),
        Err(e) => Err(e@),
    }
}

/// A tool of a server, as it was found there.
#[derive(Debug, PartialEq, Eq)]
pub struct CachedTool {
    pub server_name: String,
    pub remote_name: String,
    pub description: String,
    pub input_schema: Json,
}

/// What a tool of a server is.
pub struct CachedV {
    pub server: Seq<char>,
    pub remote: Seq<char>,
    pub description: Seq<char>,
    pub schema: JsonV,
}

impl View for CachedTool {
    type V = CachedV;

    open spec fn view(&self) -> CachedV {
        CachedV {
            server: self.server_name@,
            remote: self.remote_name@,
            description: self.description@,
            schema: self.input_schema@,
        }
    }
}

/// A tool of a server, as agents know it.
#[derive(Debug, PartialEq, Eq)]
pub struct McpRemoteTool {
    pub server_name: String,
    pub tool_name: String,
    pub remote_name: String,
    pub description: String,
    pub parameters: Json,
}

/// A tool that agents know is a tool of a server.
pub open spec fn known_as(t: McpRemoteTool, c: CachedV) -> bool {
    &&& t.server_name@ == c.server
    &&& t.tool_name@ == remote_name(c.server, c.remote)
    &&& t.remote_name@ == c.remote
    &&& t.description@ == c.description
    &&& t.parameters@ == c.schema
}

impl McpRemoteTool {
    /// The server of this tool.
    pub fn server_name(&self) -> (r: &str)
        ensures
            r@ == self.server_name@,
    {
        self.server_name.as_str()
    }

    /// The name under which agents know this tool.
    pub fn tool_name(&self) -> (r: &str)
        ensures
            r@ == self.tool_name@,
    {
        self.tool_name.as_str()
    }

    /// The name of this tool on its server.
    pub fn remote_name(&self) -> (r: &str)
        ensures
            r@ == self.remote_name@,
    {
        self.remote_name.as_str()
    }

    /// What this tool does.
    pub fn description(&self) -> (r: &str)
        ensures
            r@ == self.description@,
    {
        self.description.as_str()
    }

    /// The schema of this tool's arguments.
    pub fn parameters(&self) -> (r: &Json)
        ensures
            *r == self.parameters,
    {
        &self.parameters
    }
}

// ---------------------------------------------------------------------------
// Connections
// ---------------------------------------------------------------------------
/// How to reach a server.
#[derive(Debug, PartialEq, Eq)]
pub enum Connection {
    Stdio { command: String, args: Vec<String>, env: Vec<(String, String)>, timeout_secs: u64 },
    Http { url: String, timeout_secs: u64, bearer: Option<String> },
}

/// What a way to reach a server is.
pub enum ConnectionV {
    Stdio {
        command: Seq<char>,
        args: Seq<Seq<char>>,
        env: Seq<(Seq<char>, Seq<char>)>,
        timeout_secs: u64,
    },
    Http { url: Seq<char>, timeout_secs: u64, bearer: Option<Seq<char>> },
}

/// What pairs of texts are.
pub open spec fn pairs_view(s: Seq<(String, String)>) -> Seq<(Seq<char>, Seq<char>)> {
    s.map_values(|p: (String, String)| (p.0@, p.1@))
}

impl View for Connection {
    type V = ConnectionV;

    open spec fn view(&self) -> ConnectionV {
        match self {
            Connection::Stdio { command, args, env, timeout_secs } => ConnectionV::Stdio {
                command: command@,
                args: text::strings_view(args@),
                env: pairs_view(env@),
                timeout_secs: *timeout_secs,
            },
            Connection::Http { url, timeout_secs, bearer } => ConnectionV::Http {
                url: url@,
                timeout_secs: *timeout_secs,
                bearer: types::opt_str(*bearer),
            },
        }
    }
}

/// What a search for a connection gave.
pub open spec fn connection_view(r: Result<Connection, McpClientError>) -> Result<
    ConnectionV,
    ClientErrorV,
> {
    match r {
        Ok(c) => Ok(c@),
        Err(e) => Err(e@),
    }
}

/// The token of a server, given what the environment holds under the name that the settings
/// give: it has to be there, and not blank.
pub open spec fn token_of(c: McpServerEntry, found: Option<Seq<char>>) -> Result<
    Option<Seq<char>>,
    ClientErrorV,
> {
    match c.auth_token_env {
        None => Ok(None),
        Some(name) => match found {
            None => Err(
                ClientErrorV::Config(
                    "Missing auth token env var '"@ + name@ + "' for MCP server '"@ + c.name@ + "'"@,
                ),
            ),
            Some(raw) => if text::trimmed(raw).len() == 0 {
                Err(
                    ClientErrorV::Config(
                        "Auth token env var '"@ + name@ + "' is empty for MCP server '"@ + c.name@
                            + "'"@,
                    ),
                )
            } else {
                Ok(Some(text::trimmed(raw)))
            },
        },
    }
}

/// How a server is reached, after its settings and what the environment holds.
pub open spec fn connection_of(c: McpServerEntry, found: Option<Seq<char>>) -> Result<
    ConnectionV,
    ClientErrorV,
> {
    if c.transport@ == "stdio"@ {
        match c.command {
            None => Err(
                ClientErrorV::Config(
                    "Missing 'command' for stdio transport in '"@ + c.name@ + "'"@,
                ),
            ),
            Some(command) => Ok(
                ConnectionV::Stdio {
                    command: command@,
                    args: match c.args {
                        Some(a) => text::strings_view(a@),
                        None => Seq::empty(),
                    },
                    env: match c.env {
                        Some(e) => pairs_view(e@),
                        None => Seq::empty(),
                    },
                    timeout_secs: whole_seconds(c.timeout_ms),
                },
            ),
        }
    } else if c.transport@ == "http"@ {
        match c.url {
            None => Err(
                ClientErrorV::Config("Missing 'url' for http transport in '"@ + c.name@ + "'"@),
            ),
            Some(url) => match token_of(c, found) {
                Ok(bearer) => Ok(
                    ConnectionV::Http {
                        url: url@,
                        timeout_secs: whole_seconds(c.timeout_ms),
                        bearer,
                    },
                ),
                Err(e) => Err(e),
            },
        }
    } else {
        Err(
            ClientErrorV::Config(
                "Unknown transport '"@ + c.transport@ + "' for server '"@ + c.name@ + "'"@,
            ),
        )
    }
}

fn copy_strings(v: &Vec<String>) -> (r: Vec<String>)
    ensures
        text::strings_view(r@) == text::strings_view(v@),
{
    let mut out: Vec<String> = Vec::new();
    let mut i: usize = 0;
    while i < v.len()
        invariant
            i <= v@.len(),
            out@.len() == i,
            forall|j: int| 0 <= j < i ==> (#[trigger] out@[j])@ == v@[j]@,
        decreases v@.len() - i,
    {
        out.push(v[i].clone());
        i += 1;
    }
    assert(text::strings_view(out@) =~= text::strings_view(v@));
    out
}

fn copy_pairs(v: &Vec<(String, String)>) -> (r: Vec<(String, String)>)
    ensures
        pairs_view(r@) == pairs_view(v@),
{
    let mut out: Vec<(String, String)> = Vec::new();
    let mut i: usize = 0;
    while i < v.len()
        invariant
            i <= v@.len(),
            out@.len() == i,
            forall|j: int|
                0 <= j < i ==> (#[trigger] out@[j]).0@ == v@[j].0@ && out@[j].1@ == v@[j].1@,
        decreases v@.len() - i,
    {
        out.push((v[i].0.clone(), v[i].1.clone()));
        i += 1;
    }
    assert(pairs_view(out@) =~= pairs_view(v@));
    out
}

fn quoted(a: &str, x: &str, b: &str, y: &str) -> (r: McpClientError)
    ensures
        r@ == ClientErrorV::Config(a@ + x@ + b@ + y@ + "'"@),
{
    let mut m: String = concat3(a, x, b);
    m.append(y);
    m.append("'");
    McpClientError::Config(m)
}

/// What an optional text is.
pub open spec fn opt_text(o: Option<&str>) -> Option<Seq<char>> {
    match o {
        Some(s) => Some(s@),
        None => None,
    }
}

/// The token of a server, given what the environment holds.
fn bearer_token(c: &McpServerEntry, found: Option<&str>) -> (r: Result<
    Option<String>,
    McpClientError,
>)
    ensures
        (match r {
            Ok(o) => Ok(types::opt_str(o)),
            Err(e) => Err(e@),
        }) == token_of(*c, opt_text(found)),
{
    let name: &String = match &c.auth_token_env {
        Some(n) => n,
        None => {
            return Ok(None);
        },
    };
    let raw: &str = match found {
        Some(s) => s,
        None => {
            return Err(
                quoted(
                    "Missing auth token env var '",
                    name.as_str(),
                    "' for MCP server '",
                    c.name.as_str(),
                ),
            );
        },
    };
    let token: String = trim(raw);
    if token.as_str().unicode_len() == 0 {
        return Err(
            quoted(
                "Auth token env var '",
                name.as_str(),
                "' is empty for MCP server '",
                c.name.as_str(),
            ),
        );
    }
    Ok(Some(token))
}

// ---------------------------------------------------------------------------
// Sessions
// ---------------------------------------------------------------------------
/// What an agent has of the outside servers.
pub struct McpClientSession {
    pub agent_pid: AgentPid,
    /// The servers that are connected.
    pub clients: Vec<String>,
    /// The tools of all servers, once they are known.
    pub tools_cache: Option<Vec<CachedTool>>,
    pub initialized: bool,
}

/// A server is among those that are connected.
pub open spec fn connected(clients: Seq<String>, server: Seq<char>) -> bool {
    exists|i: int| 0 <= i < clients.len() && (#[trigger] clients[i])@ == server
}

/// The server to ask, and the tool to ask it for, where the server is connected.
pub open spec fn route(clients: Seq<String>, name: Seq<char>) -> Result<
    (Seq<char>, Seq<char>),
    ClientErrorV,
> {
    match full_name(name) {
        Ok((server, tool)) => if connected(clients, server) {
            Ok((server, tool))
        } else {
            Err(ClientErrorV::ServerNotFound(server))
        },
        Err(e) => Err(e),
    }
}

/// What tools of servers are.
pub open spec fn cache_view(s: Seq<CachedTool>) -> Seq<CachedV> {
    s.map_values(|c: CachedTool| c@)
}

/// A tool that a server says it has: its name, its description if any, and its schema.
#[derive(Debug, PartialEq, Eq)]
pub struct OfferedTool {
    pub name: String,
    pub description: Option<String>,
    pub input_schema: Json,
}

/// A tool that a server says it has, as it is kept.
pub open spec fn cached_of(server: Seq<char>, t: OfferedTool) -> CachedV {
    CachedV {
        server,
        remote: t.name@,
        description: match t.description {
            Some(d) => d@,
            None => Seq::empty(),
        },
        schema: t.input_schema@,
    }
}

/// Tools that a server says it has, as they are kept.
pub open spec fn cached_all(server: Seq<char>, ts: Seq<OfferedTool>) -> Seq<CachedV> {
    ts.map_values(|t: OfferedTool| cached_of(server, t))
}

/// What went wrong when a server was initialized.
pub open spec fn init_failed(server: Seq<char>, e: Seq<char>) -> ClientErrorV {
    ClientErrorV::Protocol("Failed to initialize "@ + server + ": "@ + e)
}

/// What went wrong when the tools of a server were listed.
pub open spec fn list_failed(server: Seq<char>, e: Seq<char>) -> ClientErrorV {
    ClientErrorV::Protocol("Failed to list tools from "@ + server + ": "@ + e)
}

impl McpClientSession {
    /// A session without connections.
    pub fn new(agent_pid: AgentPid) -> (r: Self)
        ensures
            r.agent_pid == agent_pid,
            r.clients@ == Seq::<String>::empty(),
            r.tools_cache is None,
            !r.initialized,
    {
        McpClientSession { agent_pid, clients: Vec::new(), tools_cache: None, initialized: false }
    }

    /// The agent of this session.
    pub fn agent_pid(&self) -> (r: AgentPid)
        ensures
            r == self.agent_pid,
    {
        self.agent_pid
    }

    /// How a server is reached, given what the environment holds under the name that its
    /// settings give.
    pub fn connect_to_server(config: &McpServerEntry, token: Option<&str>) -> (r: Result<
        Connection,
        McpClientError,
    >)
        ensures
            connection_view(r) == connection_of(*config, opt_text(token)),
    {
        proof {
            lemma_transports();
        }
        if str_eq(config.transport.as_str(), "stdio") {
            let command: String = match &config.command {
                Some(c) => c.clone(),
                None => {
                    return Err(
                        McpClientError::Config(
                            concat3(
                                "Missing 'command' for stdio transport in '",
                                config.name.as_str(),
                                "'",
                            ),
                        ),
                    );
                },
            };
            let args: Vec<String> = match &config.args {
                Some(a) => copy_strings(a),
                None => Vec::new(),
            };
            let env: Vec<(String, String)> = match &config.env {
                Some(e) => copy_pairs(e),
                None => Vec::new(),
            };
            proof {
                if config.args is None {
                    assert(text::strings_view(args@) =~= Seq::<Seq<char>>::empty());
                }
                if config.env is None {
                    assert(pairs_view(env@) =~= Seq::<(Seq<char>, Seq<char>)>::empty());
                }
            }
            Ok(
                Connection::Stdio {
                    command,
                    args,
                    env,
                    timeout_secs: timeout_secs_from_ms(config.timeout_ms),
                },
            )
        } else if str_eq(config.transport.as_str(), "http") {
            let url: String = match &config.url {
                Some(u) => u.clone(),
                None => {
                    return Err(
                        McpClientError::Config(
                            concat3(
                                "Missing 'url' for http transport in '",
                                config.name.as_str(),
                                "'",
                            ),
                        ),
                    );
                },
            };
            match bearer_token(config, token) {
                Ok(bearer) => Ok(
                    Connection::Http {
                        url,
                        timeout_secs: timeout_secs_from_ms(config.timeout_ms),
                        bearer,
                    },
                ),
                Err(e) => Err(e),
            }
        } else {
            Err(
                quoted(
                    "Unknown transport '",
                    config.transport.as_str(),
                    "' for server '",
                    config.name.as_str(),
                ),
            )
        }
    }

    /// Keeps what a server that was connected offers, after what others offer.
    pub fn add_server(
        found: &mut Vec<CachedTool>,
        clients: &mut Vec<String>,
        server: &str,
        offered: Vec<OfferedTool>,
    )
        ensures
            cache_view(final(found)@) == cache_view(old(found)@) + cached_all(server@, offered@),
            text::strings_view(final(clients)@) == text::strings_view(old(clients)@).push(server@),
    {
        let ghost before = cache_view(found@);
        let ghost all = offered@;
        assert(cache_view(found@) =~= before + cached_all(server@, all.take(0)));
        for t in it: offered
            invariant
                it.seq() == all,
                cache_view(found@) == before + cached_all(server@, all.take(it.index())),
        {
            let ghost n = it.index();
            let ghost kept = cache_view(found@);
            let description: String = match t.description {
                Some(d) => d,
                None => String::new(),
            };
            proof {
                if t.description is None {
                    assert(description@ =~= Seq::<char>::empty());
                }
            }
            let c = CachedTool {
                server_name: server.to_owned(),
                remote_name: t.name,
                description,
                input_schema: t.input_schema,
            };
            let ghost shown = c@;
            found.push(c);
            proof {
                assert(shown == cached_of(server@, all[n]));
                assert(cache_view(found@) =~= kept.push(shown));
                assert(cached_all(server@, all.take(n + 1)) =~= cached_all(
                    server@,
                    all.take(n),
                ).push(shown));
                assert(cache_view(found@) =~= before + cached_all(server@, all.take(n + 1)));
            }
        }
        assert(all.take(all.len() as int) =~= all);
        let ghost names = text::strings_view(clients@);
        clients.push(server.to_owned());
        assert(text::strings_view(clients@) =~= names.push(server@));
    }

    /// The session has connected to all servers.
    pub fn finish_initialize(&mut self, found: Vec<CachedTool>, clients: Vec<String>)
        ensures
            final(self).agent_pid == old(self).agent_pid,
            final(self).clients == clients,
            final(self).tools_cache == Some(found),
            final(self).initialized,
    {
        self.clients = clients;
        self.tools_cache = Some(found);
        self.initialized = true;
    }

    /// The tools of all servers, as agents know them, in order. Their servers have to be
    /// connected.
    pub fn get_cached_tools(&self) -> (r: Result<Vec<McpRemoteTool>, McpClientError>)
        ensures
            match self.tools_cache {
                None => r matches Err(e) && e@ == ClientErrorV::NotInitialized,
                Some(cache) => match r {
                    Ok(tools) => tools@.len() == cache@.len() && forall|i: int|
                        0 <= i < tools@.len() ==> known_as(#[trigger] tools@[i], cache@[i]@)
                            && connected(self.clients@, cache@[i].server_name@),
                    Err(e) => exists|i: int|
                        0 <= i < cache@.len() && !connected(
                            self.clients@,
                            (#[trigger] cache@[i]).server_name@,
                        ) && e@ == ClientErrorV::ServerNotFound(cache@[i].server_name@) && (forall|
                            j: int,
                        |
                            0 <= j < i ==> connected(
                                self.clients@,
                                (#[trigger] cache@[j]).server_name@,
                            )),
                },
            },
    {
        let cache: &Vec<CachedTool> = match &self.tools_cache {
            Some(c) => c,
            None => {
                return Err(McpClientError::NotInitialized);
            },
        };
        let mut out: Vec<McpRemoteTool> = Vec::new();
        let mut i: usize = 0;
        while i < cache.len()
            invariant
                i <= cache@.len(),
                self.tools_cache == Some(*cache),
                out@.len() == i,
                forall|j: int|
                    0 <= j < i ==> known_as(#[trigger] out@[j], cache@[j]@) && connected(
                        self.clients@,
                        cache@[j].server_name@,
                    ),
            decreases cache@.len() - i,
        {
            let c = &cache[i];
            if !crate::agent_rt::tool_factory::has_name(&self.clients, c.server_name.as_str()) {
                proof {
                    assert forall|j: int| 0 <= j < i implies connected(
                        self.clients@,
                        (#[trigger] cache@[j]).server_name@,
                    ) by {
                        assert(known_as(out@[j], cache@[j]@));
                    }
                    assert(!connected(self.clients@, cache@[i as int].server_name@));
                }
                return Err(McpClientError::ServerNotFound(c.server_name.clone()));
            }
            out.push(
                McpRemoteTool {
                    server_name: c.server_name.clone(),
                    tool_name: concat3(c.server_name.as_str(), "__", c.remote_name.as_str()),
                    remote_name: c.remote_name.clone(),
                    description: c.description.clone(),
                    parameters: c.input_schema.dup(),
                },
            );
            i += 1;
        }
        Ok(out)
    }

    /// Whether a name names a tool of an outside server.
    pub fn is_mcp_tool_name(name: &str) -> (r: bool)
        ensures
            r == is_remote_name(name@),
    {
        text::contains(name, "__")
    }

    /// The server and the tool in a name, if it holds them.
    pub fn parse_tool_name(name: &str) -> (r: Option<(String, String)>)
        ensures
            parts_view(r) == name_parts(name@),
    {
        let cs: Vec<char> = chars_of(name);
        let n: usize = cs.len();
        proof {
            assert(cs@.skip(0) =~= name@);
            reveal_strlit("__");
            assert("__"@.len() == 2);
        }
        match find_in(&cs, "__", 0) {
            Some(i) => {
                let server: String = string_of(&cs, 0, i);
                let tool: String = string_of(&cs, i + 2, n);
                assert(server@ =~= name@.take(i as int));
                assert(tool@ =~= name@.skip(i + 2));
                Some((server, tool))
            },
            None => None,
        }
    }

    /// The server and the tool in a name. Both have to be there.
    pub fn parse_namespaced_name(namespaced: &str) -> (r: Result<(String, String), McpClientError>)
        ensures
            full_view(r) == full_name(namespaced@),
    {
        match Self::parse_tool_name(namespaced) {
            Some((server, tool)) => if server.as_str().unicode_len() == 0
                || tool.as_str().unicode_len() == 0 {
                Err(McpClientError::ToolNotFound(namespaced.to_owned()))
            } else {
                Ok((server, tool))
            },
            None => Err(McpClientError::ToolNotFound(namespaced.to_owned())),
        }
    }

    /// The server to ask, and the tool to ask it for, where a tool is called by its name.
    pub fn route_call(&self, namespaced: &str) -> (r: Result<(String, String), McpClientError>)
        ensures
            full_view(r) == route(self.clients@, namespaced@),
    {
        match Self::parse_namespaced_name(namespaced) {
            Ok((server, tool)) => if crate::agent_rt::tool_factory::has_name(
                &self.clients,
                server.as_str(),
            ) {
                Ok((server, tool))
            } else {
                Err(McpClientError::ServerNotFound(server))
            },
            Err(e) => Err(e),
        }
    }

    /// The session lets go of all servers and their tools.
    pub fn disconnect(&mut self)
        ensures
            final(self).agent_pid == old(self).agent_pid,
            final(self).clients@ == Seq::<String>::empty(),
            final(self).tools_cache is None,
            !final(self).initialized,
    {
        self.clients = Vec::new();
        self.tools_cache = None;
        self.initialized = false;
    }
}

proof fn lemma_transports()
    ensures
        "stdio"@ != "http"@,
{
    reveal_strlit("stdio");
    reveal_strlit("http");
    assert("stdio"@.len() == 5 && "http"@.len() == 4);
}

/// The error of a server that could not be initialized.
pub fn initialize_error(server: &str, e: &str) -> (r: McpClientError)
    ensures
        r@ == init_failed(server@, e@),
{
    let mut m: String = concat3("Failed to initialize ", server, ": ");
    m.append(e);
    McpClientError::Protocol(m)
}

/// The error of a server whose tools could not be listed.
pub fn list_error(server: &str, e: &str) -> (r: McpClientError)
    ensures
        r@ == list_failed(server@, e@),
{
    let mut m: String = concat3("Failed to list tools from ", server, ": ");
    m.append(e);
    McpClientError::Protocol(m)
}

// ---------------------------------------------------------------------------
// Answers of servers
// ---------------------------------------------------------------------------
/// Texts with a line break between them.
pub open spec fn lines(s: Seq<Seq<char>>) -> Seq<char>
    decreases s.len(),
{
    if s.len() == 0 {
        Seq::empty()
    } else if s.len() == 1 {
        s[0]
    } else {
        lines(s.drop_last()) + "\n"@ + s.last()
    }
}

/// What a tool of a server gave: its texts, or a word in their place where there are none.
pub open spec fn output_of(texts: Seq<Seq<char>>, is_error: bool) -> Seq<char> {
    if lines(texts).len() > 0 {
        lines(texts)
    } else if is_error {
        "MCP tool returned error"@
    } else {
        "(no output)"@
    }
}

/// What a tool of a server gave, as one text.
pub fn tool_output(texts: &Vec<String>, is_error: bool) -> (r: String)
    ensures
        r@ == output_of(text::strings_view(texts@), is_error),
{
    let ghost all = text::strings_view(texts@);
    let mut out: String = String::new();
    let mut i: usize = 0;
    assert(out@ =~= lines(all.take(0)));
    while i < texts.len()
        invariant
            i <= texts@.len(),
            all == text::strings_view(texts@),
            out@ == lines(all.take(i as int)),
        decreases texts@.len() - i,
    {
        let ghost now = all.take(i + 1);
        assert(now.drop_last() =~= all.take(i as int));
        assert(now.last() == texts@[i as int]@);
        let ghost before = out@;
        if i > 0 {
            out.append("\n");
        }
        out.append(texts[i].as_str());
        proof {
            if i == 0 {
                assert(now[0] == texts@[0]@);
                assert(out@ =~= texts@[0]@);
            }
            assert(out@ =~= lines(now));
        }
        i += 1;
    }
    assert(all.take(i as int) =~= all);
    if out.as_str().unicode_len() > 0 {
        out
    } else if is_error {
        "MCP tool returned error".to_owned()
    } else {
        "(no output)".to_owned()
    }
}

/// The session after a response of a server: a name in its header, if it is not blank, counts
/// from now on.
pub fn session_after(current: Option<String>, header: Option<&str>) -> (r: Option<String>)
    ensures
        types::opt_str(r) == match opt_text(header) {
            Some(h) => if text::trimmed(h).len() > 0 {
                Some(text::trimmed(h))
            } else {
                types::opt_str(current)
            },
            None => types::opt_str(current),
        },
{
    match header {
        Some(h) => {
            let t: String = trim(h);
            if t.as_str().unicode_len() > 0 {
                Some(t)
            } else {
                current
            }
        },
        None => current,
    }
}

/// What is said of a response that is no success.
pub fn http_error(status: &str, body: &str) -> (r: String)
    ensures
        r@ == "HTTP "@ + status@ + " from MCP server: "@ + body@,
{
    let mut m: String = concat3("HTTP ", status, " from MCP server: ");
    m.append(body);
    m
}

// ---------------------------------------------------------------------------
// The manager
// ---------------------------------------------------------------------------
/// Knows the outside servers, and the session of each agent.
pub struct McpClientManager {
    pub server_configs: Vec<McpServerEntry>,
    pub sessions: AssocMap<u64, McpClientSession>,
    pub enabled: bool,
}

impl McpClientManager {
    /// A manager of the given servers.
    pub fn new(server_configs: Vec<McpServerEntry>) -> (r: Self)
        ensures
            r.server_configs == server_configs,
            r.sessions@ == Map::<u64, McpClientSession>::empty(),
            r.enabled == (server_configs@.len() > 0),
    {
        let enabled: bool = server_configs.len() > 0;
        McpClientManager { server_configs, sessions: AssocMap::new(), enabled }
    }

    /// A manager without servers.
    pub fn empty() -> (r: Self)
        ensures
            r.server_configs@ == Seq::<McpServerEntry>::empty(),
            r.sessions@ == Map::<u64, McpClientSession>::empty(),
            !r.enabled,
    {
        McpClientManager { server_configs: Vec::new(), sessions: AssocMap::new(), enabled: false }
    }

    /// Whether there are servers.
    pub fn is_enabled(&self) -> (r: bool)
        ensures
            r == self.enabled,
    {
        self.enabled
    }

    /// Makes sure that an agent has a session. Without servers it cannot have one.
    pub fn get_or_create_session(&mut self, agent_pid: AgentPid) -> (r: Result<(), McpClientError>)
        ensures
            final(self).server_configs == old(self).server_configs,
            final(self).enabled == old(self).enabled,
            !old(self).enabled ==> (r matches Err(e) && e@ == ClientErrorV::Config(
                "MCP is not configured"@,
            )) && final(self).sessions@ == old(self).sessions@,
            old(self).enabled ==> r is Ok && final(self).sessions@.dom()
                == old(self).sessions@.dom().insert(agent_pid.0),
            old(self).sessions@.dom().contains(agent_pid.0) ==> final(self).sessions@
                == old(self).sessions@,
            old(self).enabled && !old(self).sessions@.dom().contains(agent_pid.0) ==> {
                let s = final(self).sessions@[agent_pid.0];
                &&& final(self).sessions@ == old(self).sessions@.insert(agent_pid.0, s)
                &&& s.agent_pid == agent_pid
                &&& s.clients@.len() == 0
                &&& s.tools_cache is None
                &&& !s.initialized
            },
    {
        if !self.enabled {
            return Err(McpClientError::Config("MCP is not configured".to_owned()));
        }
        if self.sessions.contains_key(&agent_pid.raw()) {
            assert(self.sessions@.dom() =~= self.sessions@.dom().insert(agent_pid.0));
            return Ok(());
        }
        self.sessions.insert(agent_pid.raw(), McpClientSession::new(agent_pid));
        Ok(())
    }

    /// The session of an agent, if it has one.
    pub fn get_session(&self, agent_pid: AgentPid) -> (r: Option<&McpClientSession>)
        ensures
            r is Some <==> self.sessions@.dom().contains(agent_pid.0),
            r matches Some(s) ==> *s == self.sessions@[agent_pid.0],
    {
        self.sessions.get(&agent_pid.raw())
    }

    /// Keeps a session, in place of the one that its agent had.
    pub fn put_session(&mut self, session: McpClientSession)
        ensures
            final(self).server_configs == old(self).server_configs,
            final(self).enabled == old(self).enabled,
            final(self).sessions@ == old(self).sessions@.insert(session.agent_pid.0, session),
    {
        self.sessions.insert(session.agent_pid.raw(), session);
    }

    /// Takes the session of an agent away, if it has one.
    pub fn close_session(&mut self, agent_pid: AgentPid) -> (r: Option<McpClientSession>)
        ensures
            final(self).server_configs == old(self).server_configs,
            final(self).enabled == old(self).enabled,
            final(self).sessions@ == old(self).sessions@.remove(agent_pid.0),
            r is Some <==> old(self).sessions@.dom().contains(agent_pid.0),
            r matches Some(s) ==> s == old(self).sessions@[agent_pid.0],
    {
        self.sessions.remove(&agent_pid.raw())
    }

    /// The tools that an agent knows already; none where it has no session yet.
    pub fn try_get_tools_for_agent(&self, agent_pid: AgentPid) -> (r: Result<
        Vec<McpRemoteTool>,
        McpClientError,
    >)
        ensures
            !self.sessions@.dom().contains(agent_pid.0) ==> (r matches Ok(v) && v@.len() == 0),
            self.sessions@.dom().contains(agent_pid.0) ==> call_ensures(
                McpClientSession::get_cached_tools,
                (&self.sessions@[agent_pid.0],),
                r,
            ),
    {
        match self.sessions.get(&agent_pid.raw()) {
            Some(s) => s.get_cached_tools(),
            None => Ok(Vec::new()),
        }
    }

    /// The names of the servers, in order.
    pub fn server_names(&self) -> (r: Vec<String>)
        ensures
            text::strings_view(r@) == self.server_configs@.map_values(|c: McpServerEntry| c.name@),
    {
        let mut out: Vec<String> = Vec::new();
        let mut i: usize = 0;
        while i < self.server_configs.len()
            invariant
                i <= self.server_configs@.len(),
                out@.len() == i,
                forall|j: int|
                    0 <= j < i ==> (#[trigger] out@[j])@ == self.server_configs@[j].name@,
            decreases self.server_configs@.len() - i,
        {
            out.push(self.server_configs[i].name.clone());
            i += 1;
        }
        assert(text::strings_view(out@) =~= self.server_configs@.map_values(
            |c: McpServerEntry| c.name@,
        ));
        out
    }

    /// The servers.
    pub fn server_configs(&self) -> (r: &Vec<McpServerEntry>)
        ensures
            *r == self.server_configs,
    {
        &self.server_configs
    }

    /// Lets go of all sessions.
    pub fn shutdown(&mut self)
        ensures
            final(self).server_configs == old(self).server_configs,
            final(self).enabled == old(self).enabled,
            final(self).sessions@ == Map::<u64, McpClientSession>::empty(),
    {
        self.sessions = AssocMap::new();
    }
}

// ---------------------------------------------------------------------------
// What holds of every name
// ---------------------------------------------------------------------------
/// The name of a tool leads back to its server and itself, as long as the server's name neither
/// holds a double underscore nor ends in an underscore.
pub proof fn law_name_leads_back(server: Seq<char>, tool: Seq<char>)
    requires
        server.len() > 0,
        tool.len() > 0,
        forall|i: int| 0 <= i < server.len() - 1 ==> !(#[trigger] server[i] == '_' && server[i + 1] == '_'),
        server.last() != '_',
    ensures
        full_name(remote_name(server, tool)) == Ok::<(Seq<char>, Seq<char>), ClientErrorV>(
            (server, tool),
        ),
{
    reveal_strlit("__");
    let p = "__"@;
    assert(p.len() == 2 && p[0] == '_' && p[1] == '_');
    let name = remote_name(server, tool);
    let n = server.len() as int;
    assert(name.subrange(n, n + 2) =~= p);
    assert forall|j: int| 0 <= j < n implies !#[trigger] text::occurs_at(name, p, j) by {
        if text::occurs_at(name, p, j) {
            let s = name.subrange(j, j + 2);
            assert(s[0] == '_' && s[1] == '_');
            assert(name[j] == server[j]);
            if j < n - 1 {
                assert(name[j + 1] == server[j + 1]);
                assert(server[j] == '_');
            } else {
                assert(server.last() == server[j]);
            }
        }
    }
    assert(text::first_occurrence(name, p, n));
    text::lemma_find(name, p, n);
    assert(name.take(n) =~= server);
    assert(name.skip(n + 2) =~= tool);
}

/// A time in milliseconds is rounded up to whole seconds, never down, and never to nothing.
pub proof fn law_time_is_rounded_up(ms: u64)
    ensures
        whole_seconds(Some(ms)) * 1000 >= ms,
        whole_seconds(Some(ms)) >= 1,
        ms > 0 ==> (whole_seconds(Some(ms)) - 1) * 1000 < ms,
        ms == 0 ==> whole_seconds(Some(ms)) == 1,
        whole_seconds(None) == 30,
{
}

/// The texts of a tool follow each other in order, one line break apart; one text stands as it is.
pub proof fn law_texts_in_order(s: Seq<Seq<char>>, last: Seq<char>)
    ensures
        lines(seq![last]) == last,
        s.len() > 0 ==> lines(s.push(last)) == lines(s).push('\n') + last,
        lines(Seq::empty()).len() == 0,
{
    reveal_strlit("\n");
    let all = s.push(last);
    assert(all.drop_last() =~= s);
    assert(lines(s) + "\n"@ =~= lines(s).push('\n'));
}

/// What a tool gives is its texts; only where it gives none does a word stand in their place, and it
/// tells an error from silence.
pub proof fn law_output_is_texts(texts: Seq<Seq<char>>, is_error: bool)
    ensures
        lines(texts).len() > 0 ==> output_of(texts, is_error) == lines(texts),
        output_of(texts, is_error).len() > 0,
        lines(texts).len() == 0 ==> output_of(texts, true) != output_of(texts, false),
{
    reveal_strlit("MCP tool returned error");
    reveal_strlit("(no output)");
    assert("MCP tool returned error"@.len() == 23 && "(no output)"@.len() == 11);
}

/// A server is reached as its settings say: by its command with the arguments and the environment of
/// the settings, or at its address with the token that the environment holds.
pub proof fn law_reached_as_set(c: McpServerEntry, found: Option<Seq<char>>)
    ensures
        c.transport@ == "stdio"@ ==> (c.command matches Some(command) ==> (connection_of(
            c,
            found,
        ) matches Ok(ConnectionV::Stdio { command: x, args, env, timeout_secs }) && x == command@ && (
        c.args matches Some(a) ==> args == text::strings_view(a@)) && (c.env matches Some(e) ==> env
            == pairs_view(e@)) && timeout_secs == whole_seconds(c.timeout_ms))),
        c.transport@ == "http"@ && (c.auth_token_env is None || found is Some && text::trimmed(
            found->0,
        ).len() > 0) ==> (c.url matches Some(url) ==> (connection_of(
            c,
            found,
        ) matches Ok(ConnectionV::Http { url: x, timeout_secs, bearer }) && x == url@ && bearer == (
        if c.auth_token_env is Some {
            Some(text::trimmed(found->0))
        } else {
            None
        }) && timeout_secs == whole_seconds(c.timeout_ms))),
        c.transport@ == "http"@ && c.auth_token_env is Some && found is None ==> connection_of(
            c,
            found,
        ) is Err,
        c.transport@ != "stdio"@ && c.transport@ != "http"@ ==> connection_of(c, found) is Err,
        c.transport@ == "stdio"@ && c.command is None ==> connection_of(c, found) is Err,
        c.transport@ == "http"@ && c.url is None ==> connection_of(c, found) is Err,
{
    reveal_strlit("stdio");
    reveal_strlit("http");
    assert("stdio"@.len() == 5 && "http"@.len() == 4);
}

/// A tool that is called by its name reaches its server, where that is connected, and no other; where
/// it is not, the caller learns which one is missing.
pub proof fn law_call_reaches_server(clients: Seq<String>, server: Seq<char>, tool: Seq<char>)
    requires
        server.len() > 0,
        tool.len() > 0,
        forall|i: int| 0 <= i < server.len() - 1 ==> !(#[trigger] server[i] == '_' && server[i + 1] == '_'),
        server.last() != '_',
    ensures
        (exists|i: int| 0 <= i < clients.len() && (#[trigger] clients[i])@ == server) ==> route(
            clients,
            remote_name(server, tool),
        ) == Ok::<(Seq<char>, Seq<char>), ClientErrorV>((server, tool)),
        (forall|i: int| 0 <= i < clients.len() ==> (#[trigger] clients[i])@ != server) ==> route(
            clients,
            remote_name(server, tool),
        ) == Err::<(Seq<char>, Seq<char>), ClientErrorV>(ClientErrorV::ServerNotFound(server)),
{
    law_name_leads_back(server, tool);
}

} // verus!
