//! Requests and responses, and their form as JSON values.
use vstd::prelude::*;
use crate::json;
use crate::json::{Json, JsonNum, JsonV, NumV, ObjectBuilder};
use crate::util::text::concat2;

verus! {

/// The version of the protocol.
pub const JSONRPC_VERSION: &'static str = "2.0";

/// A request. One without an id is a notification.
#[derive(Debug, PartialEq, Eq)]
pub struct JsonRpcRequest {
    pub jsonrpc: String,
    pub id: Option<Json>,
    pub method: String,
    pub params: Option<Json>,
}

/// What a request is.
pub struct RequestV {
    pub jsonrpc: Seq<char>,
    pub id: Option<JsonV>,
    pub method: Seq<char>,
    pub params: Option<JsonV>,
}

/// What an optional value is.
pub open spec fn opt_json(o: Option<Json>) -> Option<JsonV> {
    match o {
        Some(j) => Some(j@),
        None => None,
    }
}

/// A copy of an optional value.
pub fn dup_opt(o: &Option<Json>) -> (r: Option<Json>)
    ensures
        opt_json(r) == opt_json(*o),
{
    match o {
        Some(j) => Some(j.dup()),
        None => None,
    }
}

impl View for JsonRpcRequest {
    type V = RequestV;

    open spec fn view(&self) -> RequestV {
        RequestV {
            jsonrpc: self.jsonrpc@,
            id: opt_json(self.id),
            method: self.method@,
            params: opt_json(self.params),
        }
    }
}

/// An error in a response.
#[derive(Debug, PartialEq, Eq)]
pub struct JsonRpcError {
    pub code: i64,
    pub message: String,
    pub data: Option<Json>,
}

/// What an error is.
pub struct RpcErrorV {
    pub code: i64,
    pub message: Seq<char>,
    pub data: Option<JsonV>,
}

impl View for JsonRpcError {
    type V = RpcErrorV;

    open spec fn view(&self) -> RpcErrorV {
        RpcErrorV { code: self.code, message: self.message@, data: opt_json(self.data) }
    }
}

/// A response: a result or an error.
#[derive(Debug, PartialEq, Eq)]
pub struct JsonRpcResponse {
    pub jsonrpc: String,
    pub id: Option<Json>,
    pub result: Option<Json>,
    pub error: Option<JsonRpcError>,
}

/// What a response is.
pub struct ResponseV {
    pub jsonrpc: Seq<char>,
    pub id: Option<JsonV>,
    pub result: Option<JsonV>,
    pub error: Option<RpcErrorV>,
}

/// What an optional error is.
pub open spec fn opt_error(o: Option<JsonRpcError>) -> Option<RpcErrorV> {
    match o {
        Some(e) => Some(e@),
        None => None,
    }
}

impl View for JsonRpcResponse {
    type V = ResponseV;

    open spec fn view(&self) -> ResponseV {
        ResponseV {
            jsonrpc: self.jsonrpc@,
            id: opt_json(self.id),
            result: opt_json(self.result),
            error: opt_error(self.error),
        }
    }
}

/// A response with a result.
pub open spec fn success_response(id: Option<JsonV>, result: JsonV) -> ResponseV {
    ResponseV { jsonrpc: JSONRPC_VERSION@, id, result: Some(result), error: None }
}

/// A response with an error.
pub open spec fn error_response(id: Option<JsonV>, code: i64, message: Seq<char>) -> ResponseV {
    ResponseV {
        jsonrpc: JSONRPC_VERSION@,
        id,
        result: None,
        error: Some(RpcErrorV { code, message, data: None }),
    }
}

/// A message: a request or a response.
#[derive(Debug, PartialEq, Eq)]
pub enum JsonRpcMessage {
    Request(JsonRpcRequest),
    Response(JsonRpcResponse),
}

/// The members of a list, and one more where there is a value for it.
pub open spec fn with_member(
    s: Seq<(Seq<char>, JsonV)>,
    k: Seq<char>,
    v: Option<JsonV>,
) -> Seq<(Seq<char>, JsonV)> {
    match v {
        Some(x) => s.push((k, x)),
        None => s,
    }
}

fn put_opt(o: &mut ObjectBuilder, k: &str, v: &Option<Json>)
    ensures
        final(o)@ == with_member(old(o)@, k@, opt_json(*v)),
{
    if let Some(j) = v {
        o.put(k, j.dup());
    }
}

/// The JSON number of an integer.
pub open spec fn number_of(n: i64) -> JsonV {
    if n < 0 {
        JsonV::Num(NumV::NegInt(n))
    } else {
        JsonV::Num(NumV::PosInt(n as u64))
    }
}

fn number(n: i64) -> (r: Json)
    ensures
        r@ == number_of(n),
{
    if n < 0 {
        Json::Num(JsonNum::NegInt(n))
    } else {
        Json::Num(JsonNum::PosInt(n as u64))
    }
}

impl RequestV {
    /// The JSON value of a request. What is not there is left out.
    pub open spec fn json(self) -> JsonV {
        let a = seq![("jsonrpc"@, JsonV::Str(self.jsonrpc))];
        let b = with_member(a, "id"@, self.id).push(("method"@, JsonV::Str(self.method)));
        JsonV::Object(with_member(b, "params"@, self.params))
    }
}

impl RpcErrorV {
    /// The JSON value of an error.
    pub open spec fn json(self) -> JsonV {
        JsonV::Object(
            with_member(
                seq![("code"@, number_of(self.code)), ("message"@, JsonV::Str(self.message))],
                "data"@,
                self.data,
            ),
        )
    }
}

impl ResponseV {
    /// The JSON value of a response. What is not there is left out.
    pub open spec fn json(self) -> JsonV {
        let a = seq![("jsonrpc"@, JsonV::Str(self.jsonrpc))];
        let b = with_member(with_member(a, "id"@, self.id), "result"@, self.result);
        JsonV::Object(
            with_member(
                b,
                "error"@,
                match self.error {
                    Some(e) => Some(e.json()),
                    None => None,
                },
            ),
        )
    }
}

/// A member that may be missing or null.
pub open spec fn member_or_none(v: JsonV, k: Seq<char>) -> Option<JsonV> {
    match v.get(k) {
        Some(JsonV::Null) => None,
        o => o,
    }
}

/// A member that may be missing or null.
pub fn optional_member(v: &Json, k: &str) -> (r: Option<Json>)
    ensures
        opt_json(r) == member_or_none(v@, k@),
{
    match v.get(k) {
        Some(Json::Null) => None,
        Some(j) => {
            assert(!(j@ is Null));
            Some(j.dup())
        },
        None => None,
    }
}

/// The names of the members of a request.
pub open spec fn request_names() -> Seq<Seq<char>> {
    seq!["jsonrpc"@, "id"@, "method"@, "params"@]
}

/// The request in a JSON value: its version and method have to be there.
pub open spec fn request_in(value: JsonV) -> Option<RequestV> {
    let v = json::record(value, request_names(), 4);
    match (v.get_text("jsonrpc"@), v.get_text("method"@)) {
        (Some(jsonrpc), Some(method)) => Some(
            RequestV {
                jsonrpc,
                id: member_or_none(v, "id"@),
                method,
                params: member_or_none(v, "params"@),
            },
        ),
        _ => None,
    }
}

impl JsonRpcRequest {
    /// A request without parameters.
    pub fn new(id: Option<Json>, method: &str) -> (r: Self)
        ensures
            r@ == (RequestV {
                jsonrpc: JSONRPC_VERSION@,
                id: opt_json(id),
                method: method@,
                params: None,
            }),
    {
        JsonRpcRequest {
            jsonrpc: JSONRPC_VERSION.to_owned(),
            id,
            method: method.to_owned(),
            params: None,
        }
    }

    /// This request with parameters.
    pub fn with_params(self, params: Json) -> (r: Self)
        ensures
            r@ == (RequestV { params: Some(params@), ..self@ }),
    {
        JsonRpcRequest { jsonrpc: self.jsonrpc, id: self.id, method: self.method, params: Some(params) }
    }

    /// Whether nobody waits for a response.
    pub fn is_notification(&self) -> (r: bool)
        ensures
            r == (self@.id is None),
    {
        match self.id {
            Some(_) => false,
            None => true,
        }
    }

    /// The JSON value of this request.
    pub fn to_json(&self) -> (r: Json)
        ensures
            r@ == self@.json(),
    {
        let mut o = ObjectBuilder::new();
        o.put_str("jsonrpc", self.jsonrpc.as_str());
        assert(o@ =~= seq![("jsonrpc"@, JsonV::Str(self.jsonrpc@))]);
        put_opt(&mut o, "id", &self.id);
        o.put_str("method", self.method.as_str());
        put_opt(&mut o, "params", &self.params);
        o.build()
    }

    /// The request in a JSON value, if there is one.
    pub fn from_json(v: &Json) -> (r: Option<Self>)
        ensures
            r is Some <==> request_in(v@) is Some,
            r matches Some(q) ==> request_in(v@) == Some(q@),
    {
        let names: Vec<&str> = vec!["jsonrpc", "id", "method", "params"];
        assert(json::names_view(names@) =~= request_names());
        let v: Json = v.as_record(&names, 4);
        let jsonrpc: String = v.get_str("jsonrpc")?.clone();
        let method: String = v.get_str("method")?.clone();
        Some(
            JsonRpcRequest {
                jsonrpc,
                id: optional_member(&v, "id"),
                method,
                params: optional_member(&v, "params"),
            },
        )
    }
}

impl JsonRpcResponse {
    /// A response with a result.
    pub fn success(id: Option<Json>, result: Json) -> (r: Self)
        ensures
            r@ == success_response(opt_json(id), result@),
    {
        JsonRpcResponse {
            jsonrpc: JSONRPC_VERSION.to_owned(),
            id,
            result: Some(result),
            error: None,
        }
    }

    /// A response with an error.
    pub fn error(id: Option<Json>, code: i64, message: &str) -> (r: Self)
        ensures
            r@ == error_response(opt_json(id), code, message@),
    {
        JsonRpcResponse {
            jsonrpc: JSONRPC_VERSION.to_owned(),
            id,
            result: None,
            error: Some(JsonRpcError { code, message: message.to_owned(), data: None }),
        }
    }

    /// A response with the given error.
    pub fn from_error(id: Option<Json>, error: JsonRpcError) -> (r: Self)
        ensures
            r@ == (ResponseV {
                jsonrpc: JSONRPC_VERSION@,
                id: opt_json(id),
                result: None,
                error: Some(error@),
            }),
    {
        JsonRpcResponse {
            jsonrpc: JSONRPC_VERSION.to_owned(),
            id,
            result: None,
            error: Some(error),
        }
    }

    /// The JSON value of this response.
    pub fn to_json(&self) -> (r: Json)
        ensures
            r@ == self@.json(),
    {
        let mut o = ObjectBuilder::new();
        o.put_str("jsonrpc", self.jsonrpc.as_str());
        assert(o@ =~= seq![("jsonrpc"@, JsonV::Str(self.jsonrpc@))]);
        put_opt(&mut o, "id", &self.id);
        put_opt(&mut o, "result", &self.result);
        if let Some(e) = &self.error {
            o.put("error", e.to_json());
        }
        o.build()
    }
}

impl JsonRpcError {
    /// An error.
    pub fn new(code: i64, message: &str, data: Option<Json>) -> (r: Self)
        ensures
            r@ == (RpcErrorV { code, message: message@, data: opt_json(data) }),
    {
        JsonRpcError { code, message: message.to_owned(), data }
    }

    /// The JSON value of this error.
    pub fn to_json(&self) -> (r: Json)
        ensures
            r@ == self@.json(),
    {
        let mut o = ObjectBuilder::new();
        o.put("code", number(self.code));
        o.put_str("message", self.message.as_str());
        assert(o@ =~= seq![
            ("code"@, number_of(self.code)),
            ("message"@, JsonV::Str(self.message@)),
        ]);
        put_opt(&mut o, "data", &self.data);
        o.build()
    }

    /// The text is not JSON.
    pub fn parse_error(message: &str) -> (r: Self)
        ensures
            r@.code == -32700,
            r@.message == message@,
            r@.data is None,
    {
        Self::new(-32700, message, None)
    }

    /// The value is not a request.
    pub fn invalid_request(message: &str) -> (r: Self)
        ensures
            r@.code == -32600,
            r@.message == message@,
            r@.data is None,
    {
        Self::new(-32600, message, None)
    }

    /// There is no such method.
    pub fn method_not_found(method: &str) -> (r: Self)
        ensures
            r@.code == -32601,
            r@.message == "Method not found: "@ + method@,
            r@.data is None,
    {
        let m: String = concat2("Method not found: ", method);
        Self::new(-32601, m.as_str(), None)
    }

    /// The parameters do not fit the method.
    pub fn invalid_params(message: &str) -> (r: Self)
        ensures
            r@.code == -32602,
            r@.message == message@,
            r@.data is None,
    {
        Self::new(-32602, message, None)
    }

    /// The server itself failed.
    pub fn internal_error(message: &str) -> (r: Self)
        ensures
            r@.code == -32603,
            r@.message == message@,
            r@.data is None,
    {
        Self::new(-32603, message, None)
    }

    /// There is no such session.
    pub fn session_not_found() -> (r: Self)
        ensures
            r@.code == -32001,
            r@.message == "Session not found"@,
            r@.data is None,
    {
        Self::new(-32001, "Session not found", None)
    }

    /// The server was not initialized.
    pub fn not_initialized() -> (r: Self)
        ensures
            r@.code == -32002,
            r@.message == "Server not initialized"@,
            r@.data is None,
    {
        Self::new(-32002, "Server not initialized", None)
    }

    /// The server was initialized before.
    pub fn already_initialized() -> (r: Self)
        ensures
            r@.code == -32003,
            r@.message == "Server already initialized"@,
            r@.data is None,
    {
        Self::new(-32003, "Server already initialized", None)
    }

    /// There is no such tool.
    pub fn tool_not_found(name: &str) -> (r: Self)
        ensures
            r@.code == -32004,
            r@.message == "Tool not found: "@ + name@,
            r@.data is None,
    {
        let m: String = concat2("Tool not found: ", name);
        Self::new(-32004, m.as_str(), None)
    }
}

// ---------------------------------------------------------------------------
// What holds of every request
// ---------------------------------------------------------------------------
proof fn lemma_names_differ()
    ensures
        "jsonrpc"@ != "id"@,
        "jsonrpc"@ != "method"@,
        "jsonrpc"@ != "params"@,
        "id"@ != "method"@,
        "id"@ != "params"@,
        "method"@ != "params"@,
{
    reveal_strlit("jsonrpc");
    reveal_strlit("id");
    reveal_strlit("method");
    reveal_strlit("params");
    assert("jsonrpc"@.len() == 7 && "id"@.len() == 2 && "method"@.len() == 6 && "params"@.len() == 6);
    assert("method"@[0] == 'm' && "params"@[0] == 'p');
}

/// A request is found again in its JSON value, as long as neither its id nor its parameters are
/// null.
pub proof fn law_request_comes_back(q: RequestV)
    requires
        q.id != Some(JsonV::Null),
        q.params != Some(JsonV::Null),
    ensures
        request_in(q.json()) == Some(q),
{
    lemma_names_differ();
    let v = q.json();
    let m = v->Object_0;
    reveal_with_fuel(json::member, 5);
    assert(m[0] == ("jsonrpc"@, JsonV::Str(q.jsonrpc)));
    let t = m.drop_first();
    if q.id is Some {
        assert(t[0] == ("id"@, q.id->0));
        let u = t.drop_first();
        assert(u[0] == ("method"@, JsonV::Str(q.method)));
        let w = u.drop_first();
        if q.params is Some {
            assert(w[0] == ("params"@, q.params->0));
        } else {
            assert(w.len() == 0);
        }
    } else {
        assert(t[0] == ("method"@, JsonV::Str(q.method)));
        let w = t.drop_first();
        if q.params is Some {
            assert(w[0] == ("params"@, q.params->0));
            assert(w.drop_first().len() == 0);
        } else {
            assert(w.len() == 0);
        }
    }
}

/// The form of responses outside: what is there stands under its name, and what is not there is left
/// out.
pub proof fn law_response_form(r: ResponseV)
    requires
        r.id != Some(JsonV::Null),
        r.result is Some <==> r.error is None,
    ensures
        r.json().get_text("jsonrpc"@) == Some(r.jsonrpc),
        r.json().get("id"@) == r.id,
        r.json().get("result"@) == r.result,
        r.error is None ==> r.json().get("error"@) is None,
        r.error matches Some(e) ==> (r.json().get("error"@) matches Some(v) && v.get("code"@) == Some(
            number_of(e.code),
        ) && v.get_text("message"@) == Some(e.message)),
{
    reveal_strlit("jsonrpc");
    reveal_strlit("id");
    reveal_strlit("result");
    reveal_strlit("error");
    reveal_strlit("code");
    reveal_strlit("message");
    assert("jsonrpc"@.len() == 7 && "id"@.len() == 2 && "result"@.len() == 6 && "error"@.len() == 5);
    assert("code"@.len() == 4 && "message"@.len() == 7);
    reveal_with_fuel(json::member, 4);
    let m = r.json()->Object_0;
    assert(m[0] == ("jsonrpc"@, JsonV::Str(r.jsonrpc)));
    let t = m.drop_first();
    if r.id is Some {
        assert(t[0] == ("id"@, r.id->0));
        assert(t.drop_first()[0] == m[2]);
        assert(t.drop_first().drop_first().len() == 0);
    } else {
        assert(t[0] == m[1]);
        assert(t.drop_first().len() == 0);
    }
    if let Some(e) = r.error {
        let x = e.json()->Object_0;
        assert(x[0] == ("code"@, number_of(e.code)));
        assert(x.drop_first()[0] == ("message"@, JsonV::Str(e.message)));
    }
}

/// A number of an error is shown as it is, negative or not.
pub proof fn law_number_is_shown(n: i64)
    ensures
        n >= 0 ==> number_of(n).unsigned() == Some(n as u64),
        n < 0 ==> number_of(n) == JsonV::Num(NumV::NegInt(n)),
{
}

} // verus!
