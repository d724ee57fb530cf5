//! The server on standard input and output: one request in a line, one response in a line.
use vstd::prelude::*;
use crate::agent_rt::mcp_jsonrpc;
use crate::agent_rt::mcp_jsonrpc::{JsonRpcRequest, JsonRpcResponse, RequestV, ResponseV};
use crate::agent_rt::mcp_server;
use crate::agent_rt::mcp_server::{
    McpProtocolHandler, McpSession, ServerV, SessionV, BAD_MEMBER,
};
use crate::agent_rt::mcp_types::error_codes;
use crate::agent_rt::types;
use crate::agent_rt::types::AgentBehavior;
use crate::json;
use crate::json::{Json, JsonV};
use crate::util::text;
use crate::util::text::{concat2, str_eq, trim};

verus! {

/// Answers lines, and remembers the session of its client.
pub struct McpStdioListener<B: AgentBehavior> {
    pub handler: McpProtocolHandler<B>,
    pub session_id: Option<String>,
}

/// The request in a text, or what is wrong with it.
pub open spec fn request_of(parsed: Result<JsonV, Seq<char>>) -> Result<RequestV, Seq<char>> {
    match parsed {
        Err(e) => Err(e),
        Ok(v) => match mcp_jsonrpc::request_in(v) {
            Some(q) => Ok(q),
            None => Err(BAD_MEMBER@),
        },
    }
}

/// The response to a text that is no request.
pub open spec fn parse_error(e: Seq<char>) -> ResponseV {
    mcp_jsonrpc::error_response(None, error_codes::PARSE_ERROR, "Parse error: "@ + e)
}

/// A server with a new session that may be used at once.
pub open spec fn with_session<B: AgentBehavior>(s: ServerV<B>, now: u128) -> ServerV<B> {
    let id = mcp_server::uuid_text(s.next_uuid);
    let fresh = s.sessions.insert(id, mcp_server::new_session(id, now));
    ServerV {
        sessions: mcp_server::alive(fresh, s.session_timeout, now).insert(
            id,
            SessionV { initialized: true, ..mcp_server::new_session(id, now) },
        ),
        next_uuid: mcp_server::next_id(s.next_uuid),
        ..s
    }
}

/// A request in a line: what becomes of the server and the session, and the response. After a
/// first request that succeeded, the client goes on in a session of its own.
pub open spec fn line_answered<B: AgentBehavior>(
    s0: ServerV<B>,
    sid0: Option<Seq<char>>,
    q: Result<RequestV, Seq<char>>,
    now: u128,
    s1: ServerV<B>,
    sid1: Option<Seq<char>>,
    r: ResponseV,
) -> bool {
    match q {
        Err(e) => s1 == s0 && sid1 == sid0 && r == parse_error(e),
        Ok(q) => exists|t: ServerV<B>| #[trigger]
            mcp_server::answered(s0, q, sid0, now, t, r) && if q.method == "initialize"@
                && r.error is None {
                s1 == with_session(t, now) && sid1 == Some(mcp_server::uuid_text(t.next_uuid))
            } else {
                s1 == t && sid1 == sid0
            },
    }
}

/// What was read, or what is wrong with it.
pub open spec fn read_view(r: Result<JsonRpcRequest, String>) -> Result<RequestV, Seq<char>> {
    match r {
        Ok(q) => Ok(q@),
        Err(e) => Err(e@),
    }
}

/// The request in a value that was read, or what is wrong with it.
pub fn request_from(parsed: Result<Json, String>) -> (r: Result<JsonRpcRequest, String>)
    ensures
        read_view(r) == request_of(json::parse_view(parsed)),
{
    match parsed {
        Err(e) => Err(e),
        Ok(v) => match JsonRpcRequest::from_json(&v) {
            Some(q) => Ok(q),
            None => Err(BAD_MEMBER.to_owned()),
        },
    }
}

impl<B: AgentBehavior> McpStdioListener<B> {
    /// A listener without a session.
    pub fn new(handler: McpProtocolHandler<B>) -> (r: Self)
        ensures
            r.handler == handler,
            r.session_id is None,
    {
        McpStdioListener { handler, session_id: None }
    }

    /// Answers a request that was read, or the failure to read one.
    pub fn handle_request(&mut self, request: Result<JsonRpcRequest, String>, now: u128) -> (r:
        JsonRpcResponse)
        requires
            old(self).handler.state.wf(),
        ensures
            final(self).handler.state.wf(),
            line_answered(
                old(self).handler.state@,
                types::opt_str(old(self).session_id),
                read_view(request),
                now,
                final(self).handler.state@,
                types::opt_str(final(self).session_id),
                r@,
            ),
    {
        let request: JsonRpcRequest = match request {
            Ok(q) => q,
            Err(e) => {
                let m: String = concat2("Parse error: ", e.as_str());
                return JsonRpcResponse::error(None, error_codes::PARSE_ERROR, m.as_str());
            },
        };
        let first: bool = str_eq(request.method.as_str(), "initialize");
        let sid: Option<&str> = match &self.session_id {
            Some(s) => Some(s.as_str()),
            None => None,
        };
        let response: JsonRpcResponse = self.handler.handle_request(request, sid, now);
        let ghost t = self.handler.state@;
        let good: bool = match response.error {
            Some(_) => false,
            None => true,
        };
        if first && good {
            let id: String = self.handler.state.create_session(now);
            let ghost fresh = self.handler.state@.sessions;
            if let Some(s) = self.handler.state.get_session(id.as_str(), now) {
                let mut s: McpSession = s;
                s.mark_initialized();
                self.handler.state.update_session(s, now);
            }
            proof {
                let live = mcp_server::alive(fresh, t.session_timeout, now);
                assert(live.dom().contains(id@));
                assert(live[id@] == mcp_server::new_session(id@, now));
                assert(self.handler.state@ =~= with_session(t, now));
            }
            self.session_id = Some(id);
        }
        response
    }

    /// Answers one line. An empty line has no answer.
    pub fn handle_line(&mut self, line: &str, now: u128) -> (r: Option<String>)
        requires
            old(self).handler.state.wf(),
        ensures
            final(self).handler.state.wf(),
            text::trimmed(line@).len() == 0 <==> r is None,
            r is None ==> final(self).handler.state@ == old(self).handler.state@
                && types::opt_str(final(self).session_id) == types::opt_str(old(self).session_id),
            r matches Some(out) ==> exists|resp: ResponseV| #[trigger]
                line_answered(
                    old(self).handler.state@,
                    types::opt_str(old(self).session_id),
                    request_of(json::json_parsed(text::trimmed(line@))),
                    now,
                    final(self).handler.state@,
                    types::opt_str(final(self).session_id),
                    resp,
                ) && out@ == json::record_text(resp.json()),
    {
        let line: String = trim(line);
        if line.as_str().unicode_len() == 0 {
            return None;
        }
        let request: Result<JsonRpcRequest, String> = request_from(Json::parse(line.as_str()));
        let response: JsonRpcResponse = self.handle_request(request, now);
        let ghost shown = response@;
        Some(response.to_json().to_record())
    }
}

/// A line that is no request leaves the server as it was, and is answered with an error.
pub proof fn law_bad_line_changes_nothing<B: AgentBehavior>(
    s0: ServerV<B>,
    sid0: Option<Seq<char>>,
    e: Seq<char>,
    now: u128,
    s1: ServerV<B>,
    sid1: Option<Seq<char>>,
    r: ResponseV,
)
    requires
        line_answered(s0, sid0, Err(e), now, s1, sid1, r),
    ensures
        s1 == s0,
        sid1 == sid0,
        r.error matches Some(x) && x.code == error_codes::PARSE_ERROR,
{
}

/// After a first request that succeeded, the client has a session that is initialized and alive; any
/// other request leaves it in the session that it had.
pub proof fn law_client_keeps_session<B: AgentBehavior>(
    s0: ServerV<B>,
    sid0: Option<Seq<char>>,
    q: RequestV,
    now: u128,
    s1: ServerV<B>,
    sid1: Option<Seq<char>>,
    r: ResponseV,
)
    requires
        line_answered(s0, sid0, Ok(q), now, s1, sid1, r),
    ensures
        r.id == q.id,
        q.method == "initialize"@ && r.error is None ==> (sid1 matches Some(id)
            && s1.sessions.dom().contains(id) && s1.sessions[id].initialized
            && s1.sessions[id].last_active == now),
        q.method != "initialize"@ || r.error is Some ==> sid1 == sid0,
{
}

/// A text that holds no request is refused with the code for such texts.
pub proof fn law_no_request_refused(e: Seq<char>)
    ensures
        parse_error(e).id is None,
        parse_error(e).result is None,
        parse_error(e).error matches Some(x) && x.code == error_codes::PARSE_ERROR,
        request_of(Err(e)) is Err,
{
}

} // verus!
