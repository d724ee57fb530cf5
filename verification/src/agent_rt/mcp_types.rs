//! What clients and the server tell each other: capabilities, tools, and results.
use vstd::prelude::*;
use crate::agent_rt::mcp_jsonrpc;
use crate::agent_rt::mcp_jsonrpc::optional_member;
use crate::agent_rt::types;
use crate::json;
use crate::json::{Json, JsonV, NumV, ObjectBuilder};
use crate::util::text::concat3;

pub mod error_codes;

verus! {

/// The version of the protocol.
pub const MCP_PROTOCOL_VERSION: &'static str = "2024-11-05";

/// The version of this software.
pub const SOFTWARE_VERSION: &'static str = "0.1.0";

/// The name of this software.
pub const SOFTWARE_NAME: &'static str = "zeptoclaw";

/// What the server can do with tools.
#[derive(Debug, Clone, Copy, PartialEq, Eq, Structural)]
pub struct ToolsCapability {
    pub list_changed: Option<bool>,
}

/// What the server can do.
#[derive(Debug, Clone, Copy, PartialEq, Eq, Structural)]
pub struct ServerCapabilities {
    pub tools: Option<ToolsCapability>,
}

impl ServerCapabilities {
    /// A server with tools, whose list does not change.
    pub fn with_tools() -> (r: Self)
        ensures
            r == (ServerCapabilities { tools: Some(ToolsCapability { list_changed: Some(false) }) }),
    {
        ServerCapabilities { tools: Some(ToolsCapability { list_changed: Some(false) }) }
    }
}

impl Default for ServerCapabilities {
    fn default() -> (r: Self)
        ensures
            r == (ServerCapabilities { tools: Some(ToolsCapability { list_changed: Some(false) }) }),
    {
        Self::with_tools()
    }
}

/// The JSON value of what the server can do.
pub open spec fn capabilities_json(c: ServerCapabilities) -> JsonV {
    match c.tools {
        Some(t) => JsonV::Object(
            seq![
                (
                    "tools"@,
                    match t.list_changed {
                        Some(b) => JsonV::Object(seq![("list_changed"@, JsonV::Bool(b))]),
                        None => JsonV::Object(Seq::empty()),
                    },
                ),
            ],
        ),
        None => JsonV::Object(Seq::empty()),
    }
}

/// The name and version of a piece of software.
#[derive(Debug, PartialEq, Eq)]
pub struct Implementation {
    pub name: String,
    pub version: String,
}

/// What a piece of software is.
pub struct SoftwareV {
    pub name: Seq<char>,
    pub version: Seq<char>,
}

impl View for Implementation {
    type V = SoftwareV;

    open spec fn view(&self) -> SoftwareV {
        SoftwareV { name: self.name@, version: self.version@ }
    }
}

/// This software.
pub open spec fn this_software() -> SoftwareV {
    SoftwareV { name: SOFTWARE_NAME@, version: SOFTWARE_VERSION@ }
}

impl Implementation {
    /// This software.
    pub fn zeptoclaw() -> (r: Self)
        ensures
            r@ == this_software(),
    {
        Implementation { name: SOFTWARE_NAME.to_owned(), version: SOFTWARE_VERSION.to_owned() }
    }
}

/// The name and version of the server.
#[derive(Debug, PartialEq, Eq)]
pub struct ServerInfo {
    pub name: String,
    pub version: String,
}

impl Default for ServerInfo {
    fn default() -> (r: Self)
        ensures
            r.name@ == SOFTWARE_NAME@,
            r.version@ == SOFTWARE_VERSION@,
    {
        ServerInfo { name: SOFTWARE_NAME.to_owned(), version: SOFTWARE_VERSION.to_owned() }
    }
}

/// The parameters of the first request.
#[derive(Debug, PartialEq, Eq)]
pub struct InitializeParams {
    pub protocol_version: String,
    pub capabilities: Option<Json>,
    pub client_info: Option<Implementation>,
}

/// What the parameters of the first request are.
pub struct InitializeV {
    pub protocol_version: Seq<char>,
    pub capabilities: Option<JsonV>,
    pub client_info: Option<SoftwareV>,
}

impl View for InitializeParams {
    type V = InitializeV;

    open spec fn view(&self) -> InitializeV {
        InitializeV {
            protocol_version: self.protocol_version@,
            capabilities: mcp_jsonrpc::opt_json(self.capabilities),
            client_info: match self.client_info {
                Some(i) => Some(i@),
                None => None,
            },
        }
    }
}

/// The JSON value of a piece of software.
pub open spec fn software_json(i: SoftwareV) -> JsonV {
    JsonV::Object(seq![("name"@, JsonV::Str(i.name)), ("version"@, JsonV::Str(i.version))])
}

/// The JSON value of the parameters of the first request.
pub open spec fn initialize_json(p: InitializeV) -> JsonV {
    let a = seq![("protocol_version"@, JsonV::Str(p.protocol_version))];
    let b = mcp_jsonrpc::with_member(a, "capabilities"@, p.capabilities);
    JsonV::Object(
        mcp_jsonrpc::with_member(
            b,
            "client_info"@,
            match p.client_info {
                Some(i) => Some(software_json(i)),
                None => None,
            },
        ),
    )
}

/// The names of the parameters of the first request.
pub open spec fn initialize_names() -> Seq<Seq<char>> {
    seq!["protocol_version"@, "capabilities"@, "client_info"@]
}

/// The names of what a piece of software says of itself.
pub open spec fn software_names() -> Seq<Seq<char>> {
    seq!["name"@, "version"@]
}

/// The piece of software in a JSON value.
pub open spec fn software_in(v: JsonV) -> Option<SoftwareV> {
    let c = json::record(v, software_names(), 2);
    match (c.get_text("name"@), c.get_text("version"@)) {
        (Some(name), Some(version)) => Some(SoftwareV { name, version }),
        _ => None,
    }
}

/// The parameters of the first request in a JSON value. The version has to be there, and who
/// the client is has to be complete where it is there.
pub open spec fn initialize_in(v: JsonV) -> Option<InitializeV> {
    let r = json::record(v, initialize_names(), 3);
    match r.get_text("protocol_version"@) {
        None => None,
        Some(protocol_version) => {
            let capabilities = mcp_jsonrpc::member_or_none(r, "capabilities"@);
            match mcp_jsonrpc::member_or_none(r, "client_info"@) {
                None => Some(InitializeV { protocol_version, capabilities, client_info: None }),
                Some(c) => match software_in(c) {
                    Some(i) => Some(
                        InitializeV { protocol_version, capabilities, client_info: Some(i) },
                    ),
                    None => None,
                },
            }
        },
    }
}

impl Implementation {
    /// The JSON value of this software.
    pub fn to_json(&self) -> (r: Json)
        ensures
            r@ == software_json(self@),
    {
        let mut o = ObjectBuilder::new();
        o.put_str("name", self.name.as_str());
        o.put_str("version", self.version.as_str());
        assert(o@ =~= software_json(self@)->Object_0);
        o.build()
    }
}

impl InitializeParams {
    /// The JSON value of these parameters.
    pub fn to_json(&self) -> (r: Json)
        ensures
            r@ == initialize_json(self@),
    {
        let mut o = ObjectBuilder::new();
        o.put_str("protocol_version", self.protocol_version.as_str());
        assert(o@ =~= seq![("protocol_version"@, JsonV::Str(self.protocol_version@))]);
        if let Some(c) = &self.capabilities {
            o.put("capabilities", c.dup());
        }
        if let Some(i) = &self.client_info {
            o.put("client_info", i.to_json());
        }
        o.build()
    }

    /// The parameters in a JSON value, if it holds them.
    pub fn from_json(v: &Json) -> (r: Option<Self>)
        ensures
            r is Some <==> initialize_in(v@) is Some,
            r matches Some(p) ==> initialize_in(v@) == Some(p@),
    {
        let names: Vec<&str> = vec!["protocol_version", "capabilities", "client_info"];
        assert(json::names_view(names@) =~= initialize_names());
        let r: Json = v.as_record(&names, 3);
        let protocol_version: String = r.get_str("protocol_version")?.clone();
        let capabilities: Option<Json> = optional_member(&r, "capabilities");
        let client_info: Option<Implementation> = match optional_member(&r, "client_info") {
            None => None,
            Some(c) => {
                let names: Vec<&str> = vec!["name", "version"];
                assert(json::names_view(names@) =~= software_names());
                let c: Json = c.as_record(&names, 2);
                let name: String = c.get_str("name")?.clone();
                let version: String = c.get_str("version")?.clone();
                Some(Implementation { name, version })
            },
        };
        Some(InitializeParams { protocol_version, capabilities, client_info })
    }
}

/// The result of the first request.
#[derive(Debug, PartialEq, Eq)]
pub struct InitializeResult {
    pub protocol_version: String,
    pub capabilities: ServerCapabilities,
    pub server_info: Implementation,
}

/// The JSON value of the result of the first request.
pub open spec fn welcome(version: Seq<char>, c: ServerCapabilities, i: SoftwareV) -> JsonV {
    JsonV::Object(
        seq![
            ("protocol_version"@, JsonV::Str(version)),
            ("capabilities"@, capabilities_json(c)),
            ("server_info"@, software_json(i)),
        ],
    )
}

impl InitializeResult {
    /// The result of this software.
    pub fn default_result() -> (r: Self)
        ensures
            r.protocol_version@ == MCP_PROTOCOL_VERSION@,
            r.capabilities == (ServerCapabilities {
                tools: Some(ToolsCapability { list_changed: Some(false) }),
            }),
            r.server_info@ == this_software(),
    {
        InitializeResult {
            protocol_version: MCP_PROTOCOL_VERSION.to_owned(),
            capabilities: ServerCapabilities::default(),
            server_info: Implementation::zeptoclaw(),
        }
    }

    /// The JSON value of this result.
    pub fn to_json(&self) -> (r: Json)
        ensures
            r@ == welcome(self.protocol_version@, self.capabilities, self.server_info@),
    {
        let mut c = ObjectBuilder::new();
        if let Some(t) = self.capabilities.tools {
            let mut inner = ObjectBuilder::new();
            if let Some(b) = t.list_changed {
                inner.put("list_changed", Json::Bool(b));
                assert(inner@ =~= seq![("list_changed"@, JsonV::Bool(b))]);
            }
            let j: Json = inner.build();
            c.put("tools", j);
            assert(c@ =~= seq![("tools"@, j@)]);
        }
        let mut o = ObjectBuilder::new();
        o.put_str("protocol_version", self.protocol_version.as_str());
        o.put("capabilities", c.build());
        o.put("server_info", self.server_info.to_json());
        assert(o@ =~= welcome(
            self.protocol_version@,
            self.capabilities,
            self.server_info@,
        )->Object_0);
        o.build()
    }
}

/// A tool that the server offers.
#[derive(Debug, PartialEq, Eq)]
pub struct Tool {
    pub name: String,
    pub description: Option<String>,
    pub input_schema: Option<Json>,
}

/// What a tool is.
pub struct ToolV {
    pub name: Seq<char>,
    pub description: Option<Seq<char>>,
    pub schema: Option<JsonV>,
}

impl View for Tool {
    type V = ToolV;

    open spec fn view(&self) -> ToolV {
        ToolV {
            name: self.name@,
            description: types::opt_str(self.description),
            schema: mcp_jsonrpc::opt_json(self.input_schema),
        }
    }
}

impl Tool {
    /// A tool with a description and the schema of its arguments.
    pub fn new(name: &str, description: &str, schema: Json) -> (r: Self)
        ensures
            r@ == (ToolV {
                name: name@,
                description: Some(description@),
                schema: Some(schema@),
            }),
    {
        Tool {
            name: name.to_owned(),
            description: Some(description.to_owned()),
            input_schema: Some(schema),
        }
    }
}

/// A tool, as it is listed.
#[derive(Debug, PartialEq, Eq)]
pub struct ToolInfo {
    pub name: String,
    pub description: Option<String>,
    pub input_schema: Option<Json>,
}

impl View for ToolInfo {
    type V = ToolV;

    open spec fn view(&self) -> ToolV {
        ToolV {
            name: self.name@,
            description: types::opt_str(self.description),
            schema: mcp_jsonrpc::opt_json(self.input_schema),
        }
    }
}

/// The JSON value of a tool. What is not there is left out.
pub open spec fn tool_json(t: ToolV) -> JsonV {
    let a = seq![("name"@, JsonV::Str(t.name))];
    let b = mcp_jsonrpc::with_member(
        a,
        "description"@,
        match t.description {
            Some(d) => Some(JsonV::Str(d)),
            None => None,
        },
    );
    JsonV::Object(mcp_jsonrpc::with_member(b, "input_schema"@, t.schema))
}

impl ToolInfo {
    /// A tool with the schema of its arguments. It always succeeds.
    pub fn new(name: &str, schema: Json) -> (r: Result<Self, &'static str>)
        ensures
            r matches Ok(t) && t@ == (ToolV {
                name: name@,
                description: None,
                schema: Some(schema@),
            }),
    {
        Ok(ToolInfo { name: name.to_owned(), description: None, input_schema: Some(schema) })
    }

    /// This tool with a description.
    pub fn with_description(self, description: &str) -> (r: Self)
        ensures
            r@ == (ToolV { description: Some(description@), ..self@ }),
    {
        ToolInfo {
            name: self.name,
            description: Some(description.to_owned()),
            input_schema: self.input_schema,
        }
    }

    /// The JSON value of this tool.
    pub fn to_json(&self) -> (r: Json)
        ensures
            r@ == tool_json(self@),
    {
        let mut o = ObjectBuilder::new();
        o.put_str("name", self.name.as_str());
        assert(o@ =~= seq![("name"@, JsonV::Str(self.name@))]);
        if let Some(d) = &self.description {
            o.put_str("description", d.as_str());
        }
        if let Some(s) = &self.input_schema {
            o.put("input_schema", s.dup());
        }
        o.build()
    }
}

/// The parameters of a request for the list of tools.
#[derive(Debug, PartialEq, Eq)]
pub struct ToolsListParams {
    pub cursor: Option<String>,
}

impl Default for ToolsListParams {
    fn default() -> (r: Self)
        ensures
            r.cursor is None,
    {
        ToolsListParams { cursor: None }
    }
}

/// The names of the parameters of a request for the list of tools.
pub open spec fn list_names() -> Seq<Seq<char>> {
    seq!["cursor"@]
}

/// A value holds the parameters of a request for the list of tools: a record whose cursor, if
/// there is one, is a text.
pub open spec fn is_list_params(value: JsonV) -> bool {
    let v = json::record(value, list_names(), 1);
    v is Object && match mcp_jsonrpc::member_or_none(v, "cursor"@) {
        Some(c) => c is Str,
        None => true,
    }
}

impl ToolsListParams {
    /// The parameters in a JSON value, if it holds them.
    pub fn from_json(v: &Json) -> (r: Option<Self>)
        ensures
            r is Some <==> is_list_params(v@),
            r matches Some(p) ==> types::opt_str(p.cursor) == json::record(
                v@,
                list_names(),
                1,
            ).get_text("cursor"@),
    {
        let names: Vec<&str> = vec!["cursor"];
        assert(json::names_view(names@) =~= list_names());
        let v: Json = v.as_record(&names, 1);
        match &v {
            Json::Object(_) => match optional_member(&v, "cursor") {
                None => {
                    assert(v@.get_text("cursor"@) is None);
                    Some(ToolsListParams { cursor: None })
                },
                Some(Json::Str(s)) => Some(ToolsListParams { cursor: Some(s) }),
                Some(_) => None,
            },
            _ => None,
        }
    }

    /// The JSON value of these parameters.
    pub fn to_json(&self) -> (r: Json)
        ensures
            r@ == JsonV::Object(
                match self.cursor {
                    Some(c) => seq![("cursor"@, JsonV::Str(c@))],
                    None => Seq::empty(),
                },
            ),
    {
        let mut o = ObjectBuilder::new();
        if let Some(c) = &self.cursor {
            o.put_str("cursor", c.as_str());
            assert(o@ =~= seq![("cursor"@, JsonV::Str(c@))]);
        }
        o.build()
    }
}

/// A list of tools.
#[derive(Debug, PartialEq, Eq)]
pub struct ToolsListResult {
    pub tools: Vec<ToolInfo>,
    pub next_cursor: Option<String>,
}

/// What tools are.
pub open spec fn tools_view(s: Seq<ToolInfo>) -> Seq<ToolV> {
    s.map_values(|t: ToolInfo| t@)
}

/// The JSON value of a list of tools.
pub open spec fn tools_list_json(tools: Seq<ToolV>, cursor: Option<Seq<char>>) -> JsonV {
    JsonV::Object(
        mcp_jsonrpc::with_member(
            seq![("tools"@, JsonV::Array(tools.map_values(|t: ToolV| tool_json(t))))],
            "next_cursor"@,
            match cursor {
                Some(c) => Some(JsonV::Str(c)),
                None => None,
            },
        ),
    )
}

impl ToolsListResult {
    /// The JSON value of this list.
    pub fn to_json(&self) -> (r: Json)
        ensures
            r@ == tools_list_json(tools_view(self.tools@), types::opt_str(self.next_cursor)),
    {
        let mut list: Vec<Json> = Vec::new();
        let mut i: usize = 0;
        while i < self.tools.len()
            invariant
                i <= self.tools@.len(),
                list@.len() == i,
                forall|j: int| 0 <= j < i ==> (#[trigger] list@[j])@ == tool_json(self.tools@[j]@),
            decreases self.tools@.len() - i,
        {
            list.push(self.tools[i].to_json());
            i += 1;
        }
        let ghost shown = tools_view(self.tools@).map_values(|t: ToolV| tool_json(t));
        proof {
            json::lemma_array_tree(list);
            assert(json::array_view(list@) =~= shown);
        }
        let mut o = ObjectBuilder::new();
        o.put("tools", Json::Array(list));
        assert(o@ =~= seq![("tools"@, JsonV::Array(shown))]);
        if let Some(c) = &self.next_cursor {
            o.put_str("next_cursor", c.as_str());
        }
        o.build()
    }
}

/// The parameters of a call of a tool.
#[derive(Debug, PartialEq, Eq)]
pub struct ToolsCallParams {
    pub name: String,
    pub arguments: Option<Json>,
}

/// The names of the parameters of a call.
pub open spec fn call_names() -> Seq<Seq<char>> {
    seq!["name"@, "arguments"@]
}

/// The parameters of a call in a JSON value: the name of the tool, and its arguments.
pub open spec fn call_in(v: JsonV) -> Option<(Seq<char>, Option<JsonV>)> {
    let r = json::record(v, call_names(), 2);
    match r.get_text("name"@) {
        Some(name) => Some((name, mcp_jsonrpc::member_or_none(r, "arguments"@))),
        None => None,
    }
}

impl ToolsCallParams {
    /// The parameters in a JSON value, if it holds them.
    pub fn from_json(v: &Json) -> (r: Option<Self>)
        ensures
            r is Some <==> call_in(v@) is Some,
            r matches Some(p) ==> call_in(v@) == Some(
                (p.name@, mcp_jsonrpc::opt_json(p.arguments)),
            ),
    {
        let names: Vec<&str> = vec!["name", "arguments"];
        assert(json::names_view(names@) =~= call_names());
        let r: Json = v.as_record(&names, 2);
        let name: String = r.get_str("name")?.clone();
        Some(ToolsCallParams { name, arguments: optional_member(&r, "arguments") })
    }
}

/// A part of what a tool gives.
#[derive(Debug, PartialEq, Eq)]
pub enum ToolContent {
    Text { text: String },
}

/// A part of what a tool gives.
pub type ToolOutputContent = ToolContent;

/// The JSON value of a text that a tool gives.
pub open spec fn text_content(text: Seq<char>) -> JsonV {
    JsonV::Object(seq![("type"@, JsonV::Str("text"@)), ("text"@, JsonV::Str(text))])
}

impl ToolContent {
    /// A text.
    pub fn text(text: &str) -> (r: Self)
        ensures
            r matches ToolContent::Text { text: t } && t@ == text@,
    {
        ToolContent::Text { text: text.to_owned() }
    }

    /// The JSON value of this part.
    pub fn to_json(&self) -> (r: Json)
        ensures
            *self matches ToolContent::Text { text: t } && r@ == text_content(t@),
    {
        match self {
            ToolContent::Text { text } => {
                let mut o = ObjectBuilder::new();
                o.put_str("type", "text");
                o.put_str("text", text.as_str());
                assert(o@ =~= text_content(text@)->Object_0);
                o.build()
            },
        }
    }
}

/// What a tool gives.
#[derive(Debug, PartialEq, Eq)]
pub struct ToolsCallResult {
    pub content: Option<Vec<ToolContent>>,
    pub is_error: Option<bool>,
}

/// The JSON value of a part of what a tool gives.
pub open spec fn content_json(c: ToolContent) -> JsonV {
    match c {
        ToolContent::Text { text } => text_content(text@),
    }
}

/// The JSON value of what a tool gives. What is not there is left out.
pub open spec fn call_result_json(content: Option<Seq<ToolContent>>, is_error: Option<bool>) -> JsonV {
    let a = mcp_jsonrpc::with_member(
        Seq::empty(),
        "content"@,
        match content {
            Some(s) => Some(JsonV::Array(s.map_values(|c: ToolContent| content_json(c)))),
            None => None,
        },
    );
    JsonV::Object(
        mcp_jsonrpc::with_member(
            a,
            "is_error"@,
            match is_error {
                Some(b) => Some(JsonV::Bool(b)),
                None => None,
            },
        ),
    )
}

impl ToolsCallResult {
    /// The JSON value of this result.
    pub fn to_json(&self) -> (r: Json)
        ensures
            r@ == call_result_json(
                match self.content {
                    Some(v) => Some(v@),
                    None => None,
                },
                self.is_error,
            ),
    {
        let mut o = ObjectBuilder::new();
        if let Some(parts) = &self.content {
            let mut list: Vec<Json> = Vec::new();
            let mut i: usize = 0;
            while i < parts.len()
                invariant
                    i <= parts@.len(),
                    list@.len() == i,
                    forall|j: int| 0 <= j < i ==> (#[trigger] list@[j])@ == content_json(parts@[j]),
                decreases parts@.len() - i,
            {
                list.push(parts[i].to_json());
                i += 1;
            }
            proof {
                json::lemma_array_tree(list);
                assert(json::array_view(list@) =~= parts@.map_values(
                    |c: ToolContent| content_json(c),
                ));
            }
            o.put("content", Json::Array(list));
        }
        if let Some(b) = self.is_error {
            o.put("is_error", Json::Bool(b));
        }
        o.build()
    }
}

/// Something that a tool refers to.
#[derive(Debug, PartialEq, Eq)]
pub struct EmbeddedResource {
    pub uri: String,
    pub mime_type: Option<String>,
    pub text: Option<String>,
    pub blob: Option<String>,
}

/// The parameters of a sign of life.
#[derive(Debug, Clone, Copy, PartialEq, Eq, Structural)]
pub struct PingParams;

impl Default for PingParams {
    fn default() -> (r: Self)
        ensures
            r == PingParams,
    {
        PingParams
    }
}

/// The result of a sign of life.
#[derive(Debug, Clone, Copy, PartialEq, Eq, Structural)]
pub struct PingResult;

impl Default for PingResult {
    fn default() -> (r: Self)
        ensures
            r == PingResult,
    {
        PingResult
    }
}

/// A process, as it is listed.
#[derive(Debug, PartialEq, Eq)]
pub struct ProcessInfo {
    pub pid: u64,
    pub status: String,
    pub priority: String,
    pub mailbox_depth: usize,
}

/// What is listed of a process.
pub struct ProcessInfoV {
    pub pid: u64,
    pub status: Seq<char>,
    pub priority: Seq<char>,
    pub mailbox_depth: nat,
}

impl View for ProcessInfo {
    type V = ProcessInfoV;

    open spec fn view(&self) -> ProcessInfoV {
        ProcessInfoV {
            pid: self.pid,
            status: self.status@,
            priority: self.priority@,
            mailbox_depth: self.mailbox_depth as nat,
        }
    }
}

/// The JSON value of what is listed of a process.
pub open spec fn process_json(p: ProcessInfoV) -> JsonV {
    JsonV::Object(
        seq![
            ("pid"@, JsonV::Num(NumV::PosInt(p.pid))),
            ("status"@, JsonV::Str(p.status)),
            ("priority"@, JsonV::Str(p.priority)),
            ("mailbox_depth"@, JsonV::Num(NumV::PosInt(p.mailbox_depth as u64))),
        ],
    )
}

impl ProcessInfo {
    /// The JSON value of this process.
    pub fn to_json(&self) -> (r: Json)
        ensures
            r@ == process_json(self@),
    {
        let mut o = ObjectBuilder::new();
        o.put_u64("pid", self.pid);
        o.put_str("status", self.status.as_str());
        o.put_str("priority", self.priority.as_str());
        o.put_u64("mailbox_depth", self.mailbox_depth as u64);
        assert(o@ =~= process_json(self@)->Object_0);
        o.build()
    }
}

/// An orchestration that was asked for.
#[derive(Debug, PartialEq, Eq)]
pub struct SpawnOrchestrationResult {
    pub orchestration_id: String,
    pub status: String,
}

/// Where an orchestration stands.
#[derive(Debug, PartialEq, Eq)]
pub struct OrchestrationStatusResult {
    pub orchestration_id: String,
    pub status: String,
    pub results: Option<Vec<Json>>,
}

/// The JSON value of where an orchestration stands.
pub open spec fn orchestration_json(
    id: Seq<char>,
    status: Seq<char>,
    results: Option<Seq<JsonV>>,
) -> JsonV {
    JsonV::Object(
        mcp_jsonrpc::with_member(
            seq![("orchestration_id"@, JsonV::Str(id)), ("status"@, JsonV::Str(status))],
            "results"@,
            match results {
                Some(s) => Some(JsonV::Array(s)),
                None => None,
            },
        ),
    )
}

impl SpawnOrchestrationResult {
    /// The JSON value of this result.
    pub fn to_json(&self) -> (r: Json)
        ensures
            r@ == orchestration_json(self.orchestration_id@, self.status@, None),
    {
        let mut o = ObjectBuilder::new();
        o.put_str("orchestration_id", self.orchestration_id.as_str());
        o.put_str("status", self.status.as_str());
        assert(o@ =~= seq![
            ("orchestration_id"@, JsonV::Str(self.orchestration_id@)),
            ("status"@, JsonV::Str(self.status@)),
        ]);
        o.build()
    }
}

impl OrchestrationStatusResult {
    /// The JSON value of this result.
    pub fn to_json(&self) -> (r: Json)
        ensures
            r@ == orchestration_json(
                self.orchestration_id@,
                self.status@,
                match self.results {
                    Some(v) => Some(json::array_view(v@)),
                    None => None,
                },
            ),
    {
        let mut o = ObjectBuilder::new();
        o.put_str("orchestration_id", self.orchestration_id.as_str());
        o.put_str("status", self.status.as_str());
        assert(o@ =~= seq![
            ("orchestration_id"@, JsonV::Str(self.orchestration_id@)),
            ("status"@, JsonV::Str(self.status@)),
        ]);
        if let Some(v) = &self.results {
            let mut list: Vec<Json> = Vec::new();
            let mut i: usize = 0;
            while i < v.len()
                invariant
                    i <= v@.len(),
                    list@.len() == i,
                    forall|j: int| 0 <= j < i ==> (#[trigger] list@[j])@ == v@[j]@,
                decreases v@.len() - i,
            {
                list.push(v[i].dup());
                i += 1;
            }
            proof {
                json::lemma_array_tree(list);
                assert(json::array_view(list@) =~= json::array_view(v@));
            }
            o.put("results", Json::Array(list));
        }
        o.build()
    }
}

/// The processes that there are.
#[derive(Debug, PartialEq, Eq)]
pub struct ListProcessesResult {
    pub processes: Vec<ProcessInfo>,
}

/// What is listed of processes.
pub open spec fn processes_view(s: Seq<ProcessInfo>) -> Seq<ProcessInfoV> {
    s.map_values(|p: ProcessInfo| p@)
}

/// The JSON value of a list of processes.
pub open spec fn processes_json(s: Seq<ProcessInfoV>) -> JsonV {
    JsonV::Object(
        seq![("processes"@, JsonV::Array(s.map_values(|p: ProcessInfoV| process_json(p))))],
    )
}

/// The texts of what is listed of processes, with commas between them.
pub open spec fn listed_texts(s: Seq<ProcessInfoV>) -> Seq<char>
    decreases s.len(),
{
    if s.len() == 0 {
        Seq::empty()
    } else if s.len() == 1 {
        json::record_text(process_json(s.last()))
    } else {
        listed_texts(s.drop_last()) + ","@ + json::record_text(process_json(s.last()))
    }
}

/// The text of a list of processes: the members of each come in their own order.
pub open spec fn processes_text(s: Seq<ProcessInfoV>) -> Seq<char> {
    "{\"processes\":["@ + listed_texts(s) + "]}"@
}

impl ListProcessesResult {
    /// The text of this list.
    pub fn to_text(&self) -> (r: String)
        ensures
            r@ == processes_text(processes_view(self.processes@)),
    {
        let ghost all = processes_view(self.processes@);
        let mut listed: String = String::new();
        let mut i: usize = 0;
        assert(all.take(0) =~= Seq::<ProcessInfoV>::empty());
        assert(listed@ =~= listed_texts(all.take(0)));
        while i < self.processes.len()
            invariant
                i <= self.processes@.len(),
                all == processes_view(self.processes@),
                listed@ == listed_texts(all.take(i as int)),
            decreases self.processes@.len() - i,
        {
            let ghost before = listed@;
            assert(all.take(i as int + 1).drop_last() =~= all.take(i as int));
            assert(all.take(i as int + 1).last() == self.processes@[i as int]@);
            if i > 0 {
                listed.append(",");
            }
            let one: String = self.processes[i].to_json().to_record();
            listed.append(one.as_str());
            i += 1;
            assert(listed@ =~= listed_texts(all.take(i as int)));
        }
        assert(all.take(i as int) =~= all);
        concat3("{\"processes\":[", listed.as_str(), "]}")
    }

    /// The JSON value of this list.
    pub fn to_json(&self) -> (r: Json)
        ensures
            r@ == processes_json(processes_view(self.processes@)),
    {
        let mut list: Vec<Json> = Vec::new();
        let mut i: usize = 0;
        while i < self.processes.len()
            invariant
                i <= self.processes@.len(),
                list@.len() == i,
                forall|j: int|
                    0 <= j < i ==> (#[trigger] list@[j])@ == process_json(self.processes@[j]@),
            decreases self.processes@.len() - i,
        {
            list.push(self.processes[i].to_json());
            i += 1;
        }
        let ghost shown = processes_view(self.processes@).map_values(
            |p: ProcessInfoV| process_json(p),
        );
        proof {
            json::lemma_array_tree(list);
            assert(json::array_view(list@) =~= shown);
        }
        let mut o = ObjectBuilder::new();
        o.put("processes", Json::Array(list));
        assert(o@ =~= seq![("processes"@, JsonV::Array(shown))]);
        o.build()
    }
}

/// Whether a message was sent.
#[derive(Debug, Clone, Copy, PartialEq, Eq, Structural)]
pub struct SendMessageResult {
    pub success: bool,
}

/// Whether a process was told to end.
#[derive(Debug, Clone, Copy, PartialEq, Eq, Structural)]
pub struct CancelProcessResult {
    pub success: bool,
}

/// The JSON value of a success or failure.
pub open spec fn success_json(b: bool) -> JsonV {
    JsonV::Object(seq![("success"@, JsonV::Bool(b))])
}

fn success_value(b: bool) -> (r: Json)
    ensures
        r@ == success_json(b),
{
    let mut o = ObjectBuilder::new();
    o.put("success", Json::Bool(b));
    assert(o@ =~= success_json(b)->Object_0);
    o.build()
}

impl SendMessageResult {
    /// The JSON value of this result.
    pub fn to_json(&self) -> (r: Json)
        ensures
            r@ == success_json(self.success),
    {
        success_value(self.success)
    }
}

impl CancelProcessResult {
    /// The JSON value of this result.
    pub fn to_json(&self) -> (r: Json)
        ensures
            r@ == success_json(self.success),
    {
        success_value(self.success)
    }
}

/// What the counters show.
#[derive(Debug, Clone, Copy, PartialEq, Eq, Structural)]
pub struct GetMetricsResult {
    pub uptime_secs: u64,
    pub active_processes: usize,
    pub messages_sent_total: u64,
    pub messages_processed_total: u64,
}

/// The JSON value of what the counters show.
pub open spec fn metrics_json(m: GetMetricsResult) -> JsonV {
    JsonV::Object(
        seq![
            ("uptime_secs"@, JsonV::Num(NumV::PosInt(m.uptime_secs))),
            ("active_processes"@, JsonV::Num(NumV::PosInt(m.active_processes as u64))),
            ("messages_sent_total"@, JsonV::Num(NumV::PosInt(m.messages_sent_total))),
            ("messages_processed_total"@, JsonV::Num(NumV::PosInt(m.messages_processed_total))),
        ],
    )
}

impl GetMetricsResult {
    /// The JSON value of this result.
    pub fn to_json(&self) -> (r: Json)
        ensures
            r@ == metrics_json(*self),
    {
        let mut o = ObjectBuilder::new();
        o.put_u64("uptime_secs", self.uptime_secs);
        o.put_u64("active_processes", self.active_processes as u64);
        o.put_u64("messages_sent_total", self.messages_sent_total);
        o.put_u64("messages_processed_total", self.messages_processed_total);
        assert(o@ =~= metrics_json(*self)->Object_0);
        o.build()
    }
}

// ---------------------------------------------------------------------------
// The tools of the server
// ---------------------------------------------------------------------------
/// The schema of a text argument.
pub open spec fn text_argument(description: Seq<char>) -> JsonV {
    JsonV::Object(
        seq![("type"@, JsonV::Str("string"@)), ("description"@, JsonV::Str(description))],
    )
}

fn text_arg(description: &str) -> (r: Json)
    ensures
        r@ == text_argument(description@),
{
    let mut o = ObjectBuilder::new();
    o.put_str("type", "string");
    o.put_str("description", description);
    assert(o@ =~= text_argument(description@)->Object_0);
    o.build()
}

/// The schema of arguments: what each is, and which have to be there.
pub open spec fn arguments_schema(
    properties: Seq<(Seq<char>, JsonV)>,
    required: Option<Seq<JsonV>>,
) -> JsonV {
    JsonV::Object(
        mcp_jsonrpc::with_member(
            seq![("type"@, JsonV::Str("object"@)), ("properties"@, JsonV::Object(properties))],
            "required"@,
            match required {
                Some(s) => Some(JsonV::Array(s)),
                None => None,
            },
        ),
    )
}

fn schema_of(properties: ObjectBuilder, required: Vec<Json>) -> (r: Json)
    ensures
        r@ == arguments_schema(
            properties@,
            if required@.len() == 0 {
                None
            } else {
                Some(json::array_view(required@))
            },
        ),
{
    let mut o = ObjectBuilder::new();
    o.put_str("type", "object");
    o.put("properties", properties.build());
    assert(o@ =~= seq![
        ("type"@, JsonV::Str("object"@)),
        ("properties"@, JsonV::Object(properties@)),
    ]);
    if required.len() > 0 {
        proof {
            json::lemma_array_tree(required);
        }
        o.put("required", Json::Array(required));
    }
    o.build()
}

/// The schema of the arguments of `spawn_orchestration`.
pub open spec fn spawn_orchestration_schema_v() -> JsonV {
    arguments_schema(
        seq![
            ("goal"@, text_argument("The goal or task description for the orchestration"@)),
            (
                "max_concurrency"@,
                JsonV::Object(
                    seq![
                        ("type"@, JsonV::Str("integer"@)),
                        ("description"@, JsonV::Str("Maximum concurrent workers"@)),
                        ("minimum"@, JsonV::Num(NumV::PosInt(1))),
                        ("default"@, JsonV::Num(NumV::PosInt(3))),
                    ],
                ),
            ),
        ],
        Some(seq![JsonV::Str("goal"@)]),
    )
}

/// The schema of the arguments of `spawn_orchestration`.
pub fn spawn_orchestration_schema() -> (r: Json)
    ensures
        r@ == spawn_orchestration_schema_v(),
{
    let mut m = ObjectBuilder::new();
    m.put_str("type", "integer");
    m.put_str("description", "Maximum concurrent workers");
    m.put_u64("minimum", 1);
    m.put_u64("default", 3);
    let most: Json = m.build();
    let mut p = ObjectBuilder::new();
    p.put("goal", text_arg("The goal or task description for the orchestration"));
    p.put("max_concurrency", most);
    let mut required: Vec<Json> = Vec::new();
    required.push(Json::Str("goal".to_owned()));
    proof {
        assert(json::array_view(required@) =~= seq![JsonV::Str("goal"@)]);
        assert(most@->Object_0 =~= seq![
            ("type"@, JsonV::Str("integer"@)),
            ("description"@, JsonV::Str("Maximum concurrent workers"@)),
            ("minimum"@, JsonV::Num(NumV::PosInt(1))),
            ("default"@, JsonV::Num(NumV::PosInt(3))),
        ]);
        assert(p@ =~= seq![
            ("goal"@, text_argument("The goal or task description for the orchestration"@)),
            ("max_concurrency"@, most@),
        ]);
    }
    schema_of(p, required)
}

/// The schema of the arguments of `get_orchestration_status`.
pub open spec fn get_orchestration_status_schema_v() -> JsonV {
    arguments_schema(
        seq![("orchestration_id"@, text_argument("The orchestration ID (PID) to check"@))],
        Some(seq![JsonV::Str("orchestration_id"@)]),
    )
}

/// The schema of the arguments of `get_orchestration_status`.
pub fn get_orchestration_status_schema() -> (r: Json)
    ensures
        r@ == get_orchestration_status_schema_v(),
{
    let mut p = ObjectBuilder::new();
    p.put("orchestration_id", text_arg("The orchestration ID (PID) to check"));
    let mut required: Vec<Json> = Vec::new();
    required.push(Json::Str("orchestration_id".to_owned()));
    proof {
        assert(json::array_view(required@) =~= seq![JsonV::Str("orchestration_id"@)]);
        assert(p@ =~= seq![
            ("orchestration_id"@, text_argument("The orchestration ID (PID) to check"@)),
        ]);
    }
    schema_of(p, required)
}

/// The schema of a tool without arguments.
pub open spec fn no_arguments_v() -> JsonV {
    arguments_schema(Seq::empty(), None)
}

/// The schema of the arguments of `list_processes`.
pub fn list_processes_schema() -> (r: Json)
    ensures
        r@ == no_arguments_v(),
{
    schema_of(ObjectBuilder::new(), Vec::new())
}

/// The schema of the arguments of `send_message`.
pub open spec fn send_message_schema_v() -> JsonV {
    arguments_schema(
        seq![
            ("pid"@, text_argument("Target process ID"@)),
            ("message"@, text_argument("Message content to send"@)),
        ],
        Some(seq![JsonV::Str("pid"@), JsonV::Str("message"@)]),
    )
}

/// The schema of the arguments of `send_message`.
pub fn send_message_schema() -> (r: Json)
    ensures
        r@ == send_message_schema_v(),
{
    let mut p = ObjectBuilder::new();
    p.put("pid", text_arg("Target process ID"));
    p.put("message", text_arg("Message content to send"));
    let mut required: Vec<Json> = Vec::new();
    required.push(Json::Str("pid".to_owned()));
    required.push(Json::Str("message".to_owned()));
    proof {
        assert(json::array_view(required@) =~= seq![JsonV::Str("pid"@), JsonV::Str("message"@)]);
        assert(p@ =~= seq![
            ("pid"@, text_argument("Target process ID"@)),
            ("message"@, text_argument("Message content to send"@)),
        ]);
    }
    schema_of(p, required)
}

/// The schema of the arguments of `get_metrics`.
pub fn get_metrics_schema() -> (r: Json)
    ensures
        r@ == no_arguments_v(),
{
    schema_of(ObjectBuilder::new(), Vec::new())
}

/// The schema of the arguments of `cancel_process`.
pub open spec fn cancel_process_schema_v() -> JsonV {
    arguments_schema(
        seq![
            ("pid"@, text_argument("Process ID to cancel"@)),
            (
                "reason"@,
                JsonV::Object(
                    seq![
                        ("type"@, JsonV::Str("string"@)),
                        ("description"@, JsonV::Str("Reason for cancellation"@)),
                        ("default"@, JsonV::Str("cancelled via MCP"@)),
                    ],
                ),
            ),
        ],
        Some(seq![JsonV::Str("pid"@)]),
    )
}

/// The schema of the arguments of `cancel_process`.
pub fn cancel_process_schema() -> (r: Json)
    ensures
        r@ == cancel_process_schema_v(),
{
    let mut m = ObjectBuilder::new();
    m.put_str("type", "string");
    m.put_str("description", "Reason for cancellation");
    m.put_str("default", "cancelled via MCP");
    let reason: Json = m.build();
    let mut p = ObjectBuilder::new();
    p.put("pid", text_arg("Process ID to cancel"));
    p.put("reason", reason);
    let mut required: Vec<Json> = Vec::new();
    required.push(Json::Str("pid".to_owned()));
    proof {
        assert(json::array_view(required@) =~= seq![JsonV::Str("pid"@)]);
        assert(reason@->Object_0 =~= seq![
            ("type"@, JsonV::Str("string"@)),
            ("description"@, JsonV::Str("Reason for cancellation"@)),
            ("default"@, JsonV::Str("cancelled via MCP"@)),
        ]);
        assert(p@ =~= seq![
            ("pid"@, text_argument("Process ID to cancel"@)),
            ("reason"@, reason@),
        ]);
    }
    schema_of(p, required)
}

/// One tool.
pub open spec fn described(name: Seq<char>, description: Seq<char>, schema: JsonV) -> ToolV {
    ToolV { name, description: Some(description), schema: Some(schema) }
}

/// The tools of the server.
pub open spec fn all_tools() -> Seq<ToolV> {
    seq![
        described(
            "spawn_orchestration"@,
            "Start a new orchestration with a goal"@,
            spawn_orchestration_schema_v(),
        ),
        described(
            "get_orchestration_status"@,
            "Check status/results of an orchestration by ID"@,
            get_orchestration_status_schema_v(),
        ),
        described("list_processes"@, "List active agent processes"@, no_arguments_v()),
        described("send_message"@, "Send a message to a process by PID"@, send_message_schema_v()),
        described("get_metrics"@, "Get runtime metrics snapshot"@, no_arguments_v()),
        described("cancel_process"@, "Terminate a process by PID"@, cancel_process_schema_v()),
    ]
}

/// The tools of the server.
pub fn build_tools_list() -> (r: Vec<Tool>)
    ensures
        r@.map_values(|t: Tool| t@) == all_tools(),
{
    let mut v: Vec<Tool> = Vec::new();
    v.push(
        Tool::new(
            "spawn_orchestration",
            "Start a new orchestration with a goal",
            spawn_orchestration_schema(),
        ),
    );
    v.push(
        Tool::new(
            "get_orchestration_status",
            "Check status/results of an orchestration by ID",
            get_orchestration_status_schema(),
        ),
    );
    v.push(Tool::new("list_processes", "List active agent processes", list_processes_schema()));
    v.push(
        Tool::new("send_message", "Send a message to a process by PID", send_message_schema()),
    );
    v.push(Tool::new("get_metrics", "Get runtime metrics snapshot", get_metrics_schema()));
    v.push(Tool::new("cancel_process", "Terminate a process by PID", cancel_process_schema()));
    assert(v@.map_values(|t: Tool| t@) =~= all_tools());
    v
}

/// The name of a tool and its arguments are read as they stand in a call; without a name there is no
/// call.
pub proof fn law_call_is_read(v: JsonV)
    requires
        v is Object,
    ensures
        v.get_text("name"@) matches Some(name) ==> (call_in(v) matches Some(c) && c.0 == name && (
        v.get("arguments"@) matches Some(a) ==> (a != JsonV::Null ==> c.1 == Some(a))) && (v.get(
            "arguments"@,
        ) is None ==> c.1 is None)),
        v.get_text("name"@) is None ==> call_in(v) is None,
{
}

/// The version that a client speaks is read as it stands in its first request; without one there is
/// no such request, nor with half of what a client says of itself.
pub proof fn law_version_is_read(v: JsonV, c: JsonV)
    requires
        v is Object,
        c is Object,
    ensures
        v.get_text("protocol_version"@) is None ==> initialize_in(v) is None,
        v.get_text("protocol_version"@) matches Some(version) ==> (v.get("client_info"@) is None ==> (
        initialize_in(v) matches Some(p) && p.protocol_version == version && p.client_info is None)),
        v.get_text("protocol_version"@) matches Some(version) ==> (v.get("client_info"@) == Some(c)
            && c.get_text("name"@) is Some && c.get_text("version"@) is Some ==> (initialize_in(
            v,
        ) matches Some(p) && p.protocol_version == version && (p.client_info matches Some(i)
            && Some(i.name) == c.get_text("name"@) && Some(i.version) == c.get_text("version"@)))),
        v.get("client_info"@) == Some(c) && (c.get_text("name"@) is None || c.get_text("version"@)
            is None) ==> initialize_in(v) is None,
{
}

/// What is listed of processes stands there in order, with commas between.
pub proof fn law_listed_in_order(s: Seq<ProcessInfoV>, last: ProcessInfoV)
    ensures
        listed_texts(seq![last]) == json::record_text(process_json(last)),
        s.len() > 0 ==> listed_texts(s.push(last)) == listed_texts(s).push(',') + json::record_text(
            process_json(last),
        ),
        listed_texts(Seq::empty()).len() == 0,
{
    reveal_strlit(",");
    assert(s.push(last).drop_last() =~= s);
    assert(listed_texts(s) + ","@ =~= listed_texts(s).push(','));
}

} // verus!
