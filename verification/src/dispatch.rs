//! The RPC dispatcher: route one decoded request envelope to
//! `initialize`, `tools/list` or `tools/call`, consult the registry,
//! and produce the response envelope — or the protocol error — that
//! the transport hands back to the caller.

use vstd::prelude::*;
use crate::json::{jv_get, JVal, JsonValue};
use crate::registry::{find_name, McpServer, ToolDescriptor};
use crate::types::{
    CallToolRequest, CallToolResult, Content, InitializeResult, ListToolsResult, McpError,
    ServerCapabilities, ServerInfo, ToolResult, LATEST_PROTOCOL_VERSION,
};

verus! {

broadcast use vstd::string::group_string_axioms;

/// The model of a request correlation id: a non-negative wire number, a
/// text, or an explicit null, each echoed verbatim in the reply.
pub enum IdModel {
    Num(u64),
    Str(Seq<char>),
    Null,
}

/// A request correlation id, in the shapes JSON-RPC gives one: a
/// non-negative number, a text, or an explicit null. The reply echoes
/// it verbatim.
#[derive(Debug, PartialEq)]
pub enum RequestId {
    Num(u64),
    Str(String),
    Null,
}

impl View for RequestId {
    type V = IdModel;

    open spec fn view(&self) -> IdModel {
        match self {
            RequestId::Num(n) => IdModel::Num(*n),
            RequestId::Str(s) => IdModel::Str(s@),
            RequestId::Null => IdModel::Null,
        }
    }
}

/// The JSON document an id is written as: the number where it fits the
/// signed wire integer, its decimal text beyond that, the text, or null.
pub open spec fn id_json_model(id: IdModel) -> JVal {
    match id {
        IdModel::Num(n) => if n <= 0x7fffffffffffffff {
            JVal::Int(n as int)
        } else {
            JVal::NumText(crate::ser::dec_digits(n as nat))
        },
        IdModel::Str(s) => JVal::Str(s),
        IdModel::Null => JVal::Null,
    }
}

/// The id a document value denotes: a non-negative number within the
/// unsigned 64-bit range — decoded, or read back from a kept lexeme — a
/// text, or null; anything else cannot be recovered and falls back to
/// the id zero.
pub open spec fn id_of_jval(v: JVal) -> IdModel {
    match v {
        JVal::Int(n) => if 0 <= n <= 0xffffffffffffffff {
            IdModel::Num(n as u64)
        } else {
            IdModel::Num(0)
        },
        JVal::NumText(t) => match crate::parse::numtext_u64(t) {
            Some(n) => IdModel::Num(n),
            None => IdModel::Num(0),
        },
        JVal::Str(s) => IdModel::Str(s),
        JVal::Null => IdModel::Null,
        _ => IdModel::Num(0),
    }
}

impl RequestId {
    /// A copy of this id.
    pub fn dup(&self) -> (r: RequestId)
        ensures
            r@ == self@,
    {
        match self {
            RequestId::Num(n) => RequestId::Num(*n),
            RequestId::Str(s) => RequestId::Str(s.clone()),
            RequestId::Null => RequestId::Null,
        }
    }

    /// Write this id as a document.
    pub fn to_json(&self) -> (r: JsonValue)
        ensures
            r@ == id_json_model(self@),
    {
        match self {
            RequestId::Num(n) => {
                if *n <= 0x7fffffffffffffffu64 {
                    JsonValue::Int(*n as i64)
                } else {
                    JsonValue::NumText(crate::ser::dec_string(*n))
                }
            }
            RequestId::Str(s) => JsonValue::Str(s.clone()),
            RequestId::Null => JsonValue::Null,
        }
    }
}

/// Decode the id a document value denotes.
pub fn id_of_json(v: &JsonValue) -> (r: RequestId)
    ensures
        r@ == id_of_jval(v@),
{
    match v {
        JsonValue::Int(n) => if *n >= 0 {
            RequestId::Num(*n as u64)
        } else {
            RequestId::Num(0)
        },
        JsonValue::NumText(t) => match crate::parse::numtext_u64_exec(t.as_str()) {
            Some(n) => RequestId::Num(n),
            None => RequestId::Num(0),
        },
        JsonValue::Str(s) => RequestId::Str(s.clone()),
        JsonValue::Null => RequestId::Null,
        _ => RequestId::Num(0),
    }
}

/// The model of a decoded request envelope: a correlation id where the
/// caller expects a reply, a method name, and a parameter document.
pub struct ReqModel {
    pub id: Option<IdModel>,
    pub method: Seq<char>,
    pub params: JVal,
}

/// A decoded request envelope. A request without an id is a
/// notification: it is processed but never answered.
pub struct RequestEnvelope {
    pub id: Option<RequestId>,
    pub method: String,
    pub params: JsonValue,
}

impl View for RequestEnvelope {
    type V = ReqModel;

    open spec fn view(&self) -> ReqModel {
        ReqModel {
            id: match self.id {
                Some(i) => Some(i@),
                None => None,
            },
            method: self.method@,
            params: self.params@,
        }
    }
}

/// The model of a response envelope: success carrying a result
/// document, or failure carrying an error code and message. The id
/// echoes the request's.
pub enum RespModel {
    Success { id: IdModel, result: JVal },
    Failure { id: IdModel, code: int, message: Seq<char> },
}

/// A response envelope: success carrying a result document, or failure
/// carrying an error code and message. The id echoes the request's,
/// except where none could be recovered from malformed input and the
/// fallback id stands in its place.
pub enum ResponseEnvelope {
    Success { id: RequestId, result: JsonValue },
    Failure { id: RequestId, code: i64, message: String },
}

impl View for ResponseEnvelope {
    type V = RespModel;

    open spec fn view(&self) -> RespModel {
        match *self {
            ResponseEnvelope::Success { id, result } => RespModel::Success {
                id: id@,
                result: result@,
            },
            ResponseEnvelope::Failure { id, code, message } => RespModel::Failure {
                id: id@,
                code: code as int,
                message: message@,
            },
        }
    }
}

impl ResponseEnvelope {
    /// Whether this envelope reports success.
    pub fn is_success(&self) -> (r: bool)
        ensures
            r == (self@ is Success),
    {
        match self {
            ResponseEnvelope::Success { .. } => true,
            ResponseEnvelope::Failure { .. } => false,
        }
    }

    /// The failure envelope for a protocol error, under the given id.
    pub fn of_error(id: RequestId, e: &McpError) -> (r: ResponseEnvelope)
        ensures
            r@ == (RespModel::Failure {
                id: id@,
                code: e.spec_code(),
                message: e.spec_message(),
            }),
    {
        ResponseEnvelope::Failure { id, code: e.code(), message: e.message() }
    }
}

/// The capability flags of a registry: each tool name, announced `true`.
pub open spec fn caps_model(tools: Seq<ToolDescriptor>) -> Seq<(Seq<char>, JVal)> {
    Seq::new(tools.len(), |i: int| (tools[i].name@, JVal::Bool(true)))
}

/// The result document of `initialize`: protocol version, capabilities,
/// server information, and the fixed guidance line.
pub open spec fn init_result_model(s: McpServer) -> JVal {
    JVal::Obj(
        seq![
            ("protocolVersion"@, JVal::Str("2024-11-05"@)),
            ("capabilities"@, JVal::Obj(seq![("tools"@, JVal::Obj(caps_model(s.tools@)))])),
            ("serverInfo"@, JVal::Obj(
                seq![("name"@, JVal::Str(s.name@)), ("version"@, JVal::Str(s.version@))],
            )),
            ("instructions"@, JVal::Str("Use tools/list to see available tools"@)),
        ],
    )
}

/// The result document of `tools/list`: every registered tool's entry,
/// in registry order, and no next-page token — pagination is not
/// implemented, so there are never further pages.
pub open spec fn list_result_model(s: McpServer) -> JVal {
    JVal::Obj(
        seq![
            ("tools"@, JVal::Arr(
                Seq::new(s.tools@.len(), |i: int| s.tools@[i].entry_model()),
            )),
        ],
    )
}

/// Law: the `tools/list` document holds exactly one entry per
/// registered tool — after registering N uniquely-named tools it lists
/// exactly N entries — and no next-page indicator: pagination is not
/// implemented, so there are never further pages.
pub proof fn lemma_list_result_counts(s: McpServer)
    ensures
        jv_get(list_result_model(s), "tools"@) == Some(
            JVal::Arr(Seq::new(s.tools@.len(), |i: int| s.tools@[i].entry_model())),
        ),
        jv_get(list_result_model(s), "nextPageToken"@) is None,
{
    reveal_strlit("tools");
    reveal_strlit("nextPageToken");
    let fields = list_result_model(s)->Obj_0;
    assert(fields[0].0 == "tools"@);
    assert("tools"@.len() == 5 && "nextPageToken"@.len() == 13);
    assert(fields[0].0 != "nextPageToken"@);
    assert(fields.last() == fields[0]);
    assert(fields.drop_last() =~= Seq::<(Seq<char>, JVal)>::empty());
    assert(crate::json::obj_lookup(Seq::<(Seq<char>, JVal)>::empty(), "nextPageToken"@)
        is None);
}

/// The decoded parameters of `tools/call`: the tool name, and the
/// argument object — empty when absent or null, refused when of any
/// other shape.
pub open spec fn parse_call_params(p: JVal) -> Option<(Seq<char>, JVal)> {
    match jv_get(p, "name"@) {
        Some(nv) => match nv {
            JVal::Str(n) => match jv_get(p, "arguments"@) {
                None => Some((n, JVal::Obj(Seq::empty()))),
                Some(av) => match av {
                    JVal::Null => Some((n, JVal::Obj(Seq::empty()))),
                    JVal::Obj(o) => Some((n, JVal::Obj(o))),
                    _ => None,
                },
            },
            _ => None,
        },
        None => None,
    }
}

impl CallToolRequest {
    /// Decode the parameters of a `tools/call` request: the tool name,
    /// and the argument object — kept only when one was given.
    pub fn from_params(params: &JsonValue) -> (r: Option<CallToolRequest>)
        ensures
            match r {
                Some(q) => parse_call_params(params@) == Some(
                    (q.name@, match q.arguments {
                        Some(a) => a@,
                        None => JVal::Obj(Seq::empty()),
                    }),
                ),
                None => parse_call_params(params@) is None,
            },
    {
        let name = match params.get_field("name") {
            Some(nv) => match nv.as_str_val() {
                Some(n) => n.clone(),
                None => {
                    return None;
                }
            },
            None => {
                return None;
            }
        };
        let arguments = match params.get_field("arguments") {
            None => None,
            Some(av) => match av {
                JsonValue::Null => None,
                JsonValue::Obj(_) => Some(av.deep_clone()),
                _ => {
                    return None;
                }
            },
        };
        proof {
            assert(JsonValue::field_models_of(Seq::<(String, JsonValue)>::empty())
                =~= Seq::<(Seq<char>, JVal)>::empty());
        }
        Some(CallToolRequest { name, arguments })
    }
}

/// One text content entry of a `tools/call` result document.
pub open spec fn text_content_model(t: Seq<char>) -> JVal {
    JVal::Obj(seq![("type"@, JVal::Str("text"@)), ("text"@, JVal::Str(t))])
}

/// The reply to a completed tool invocation: a success envelope
/// repackaging the tool's result — its business-error flag copied
/// through — or, where the tool could not run at all, a failure
/// envelope with the generic server error code.
pub open spec fn tool_reply_model(id: IdModel, o: Result<ToolResult, String>) -> RespModel {
    match o {
        Ok(tr) => RespModel::Success {
            id,
            result: JVal::Obj(
                seq![
                    ("content"@, JVal::Arr(
                        Seq::new(tr.content@.len(), |i: int| text_content_model(
                            tr.content@[i].text@,
                        )),
                    )),
                    ("isError"@, JVal::Bool(tr.is_error)),
                ],
            ),
        },
        Err(_) => RespModel::Failure { id, code: -32000, message: "Server error"@ },
    }
}

/// The failure reply to an unknown method.
pub open spec fn method_not_found_model(id: IdModel) -> RespModel {
    RespModel::Failure { id, code: -32601, message: "Method not found"@ }
}

/// Everything the dispatcher promises of one handled request: the
/// reply each method draws, keyed by the request's id — a request
/// without one draws none — with the tool outcome of `tools/call`
/// quantified over what the invocation capability may return.
pub open spec fn dispatch_post<F: Fn(String, JsonValue) -> Result<ToolResult, String>>(
    s: McpServer,
    invoke: F,
    req: ReqModel,
    r: Result<Option<ResponseEnvelope>, McpError>,
) -> bool {
    &&& (req.method == "initialize"@ ==> match (req.id, r) {
        (Some(i), Ok(Some(e))) => e@ == RespModel::Success {
            id: i,
            result: init_result_model(s),
        },
        (None, Ok(None)) => true,
        _ => false,
    })
    &&& (req.method == "tools/list"@ ==> match (req.id, r) {
        (Some(i), Ok(Some(e))) => e@ == RespModel::Success {
            id: i,
            result: list_result_model(s),
        },
        (None, Ok(None)) => true,
        _ => false,
    })
    &&& (req.method == "tools/call"@ ==> match parse_call_params(req.params) {
        None => r == Err::<Option<ResponseEnvelope>, McpError>(McpError::InvalidParams),
        Some((name, args)) => match find_name(s.tools@, name) {
            None => r == Err::<Option<ResponseEnvelope>, McpError>(McpError::MethodNotFound),
            Some(_) => exists|ns: String, av: JsonValue, o: Result<ToolResult, String>|
                {
                    &&& ns@ == name
                    &&& av@ == args
                    &&& #[trigger] call_ensures(invoke, (ns, av), o)
                    &&& match (req.id, r) {
                        (Some(i), Ok(Some(e))) => e@ == tool_reply_model(i, o),
                        (None, Ok(None)) => true,
                        _ => false,
                    }
                },
        },
    })
    &&& (req.method != "initialize"@ && req.method != "tools/list"@
        && req.method != "tools/call"@ ==> match (req.id, r) {
        (Some(i), Ok(Some(e))) => e@ == method_not_found_model(i),
        (None, Ok(None)) => true,
        _ => false,
    })
    &&& (match r {
        Ok(Some(e)) => resp_wf(e@),
        _ => true,
    })
}

impl McpServer {
    /// Build the `initialize` result document.
    #[verifier::loop_isolation(false)]
    pub fn initialize_result(&self) -> (r: JsonValue)
        ensures
            r@ == init_result_model(*self),
    {
        let mut names: Vec<String> = Vec::new();
        for i in 0..self.tools.len()
            invariant
                names@.len() == i,
                forall|j: int| 0 <= j < i ==> (#[trigger] names@[j])@ == self.tools@[j].name@,
        {
            names.push(self.tools[i].name.clone());
        }
        let init = InitializeResult {
            protocol_version: String::from_str(LATEST_PROTOCOL_VERSION),
            capabilities: ServerCapabilities { tools: names },
            server_info: ServerInfo { name: self.name.clone(), version: self.version.clone() },
            instructions: Some(String::from_str("Use tools/list to see available tools")),
        };
        let r = init.to_json();
        proof {
            assert(ServerCapabilities::flags_model(init.capabilities.tools@)
                =~= caps_model(self.tools@));
            assert(init.json_model()->Obj_0 =~= init_result_model(*self)->Obj_0);
        }
        r
    }

    /// Build the `tools/list` result document.
    pub fn list_result(&self) -> (r: JsonValue)
        ensures
            r@ == list_result_model(*self),
    {
        let tools = self.list();
        let ltr = ListToolsResult { tools, next_page_token: None };
        let r = ltr.to_json();
        proof {
            assert(ListToolsResult::tools_model(ltr.tools@)
                =~= Seq::new(self.tools@.len(), |i: int| self.tools@[i].entry_model()));
            assert(ltr.json_model()->Obj_0 =~= list_result_model(*self)->Obj_0);
        }
        r
    }

    /// Handle one decoded request envelope. The tool behaviour is
    /// supplied as the invocation capability `invoke`, called with a
    /// registered tool's name and the request's argument object.
    ///
    /// A request without an id is processed but draws no reply. A
    /// protocol error is returned to the transport as `Err`; a tool's
    /// own failure travels inside a reply envelope.
    #[verifier::loop_isolation(false)]
    pub fn handle_request<F: Fn(String, JsonValue) -> Result<ToolResult, String>>(
        &self,
        invoke: F,
        req: &RequestEnvelope,
    ) -> (r: Result<Option<ResponseEnvelope>, McpError>)
        requires
            forall|args: (String, JsonValue)| #[trigger] call_requires(invoke, args),
        ensures
            dispatch_post(*self, invoke, req@, r),
    {
        proof {
            // The three method names are pairwise distinct texts; one
            // distinguishing character each makes that concrete.
            reveal_strlit("initialize");
            reveal_strlit("tools/list");
            reveal_strlit("tools/call");
            assert("initialize"@[0] == 'i');
            assert("tools/list"@[0] == 't');
            assert("tools/call"@[0] == 't');
            assert("tools/list"@[6] == 'l');
            assert("tools/call"@[6] == 'c');
            assert("initialize"@ != "tools/list"@);
            assert("tools/list"@ != "tools/call"@);
            assert("initialize"@ != "tools/call"@);
        }
        if crate::strutil::str_eq(req.method.as_str(), "initialize") {
            let result = self.initialize_result();
            match &req.id {
                Some(i) => Ok(Some(ResponseEnvelope::Success { id: i.dup(), result })),
                None => Ok(None),
            }
        } else if crate::strutil::str_eq(req.method.as_str(), "tools/list") {
            let result = self.list_result();
            match &req.id {
                Some(i) => Ok(Some(ResponseEnvelope::Success { id: i.dup(), result })),
                None => Ok(None),
            }
        } else if crate::strutil::str_eq(req.method.as_str(), "tools/call") {
            let request = match CallToolRequest::from_params(&req.params) {
                Some(q) => q,
                None => {
                    return Err(McpError::InvalidParams);
                }
            };
            let name = request.name;
            let args = match request.arguments {
                Some(a) => a,
                None => JsonValue::Obj(Vec::new()),
            };
            proof {
                assert(JsonValue::field_models_of(Seq::<(String, JsonValue)>::empty())
                    =~= Seq::<(Seq<char>, JVal)>::empty());
            }
            if self.lookup(name.as_str()).is_none() {
                return Err(McpError::MethodNotFound);
            }
            let ghost gname = name@;
            let ghost gargs = args@;
            let outcome = invoke(name, args);
            let reply = match outcome {
                Ok(tr) => {
                    let mut content: Vec<Content> = Vec::new();
                    let mut k: usize = 0;
                    while k < tr.content.len()
                        invariant
                            content@.len() == k <= tr.content@.len(),
                            forall|j: int| 0 <= j < k ==> (#[trigger] content@[j]).json_model()
                                == text_content_model(tr.content@[j].text@),
                        decreases tr.content@.len() - k,
                    {
                        content.push(Content::Text { text: tr.content[k].text.clone() });
                        k = k + 1;
                    }
                    let ctr = CallToolResult { content, is_error: Some(tr.is_error) };
                    let result = ctr.to_json();
                    proof {
                        assert(CallToolResult::contents_model(ctr.content@)
                            =~= Seq::new(tr.content@.len(), |i: int| text_content_model(
                                tr.content@[i].text@,
                            )));
                        assert(ctr.json_model()->Obj_0 =~= seq![
                            ("content"@, JVal::Arr(
                                Seq::new(tr.content@.len(), |i: int| text_content_model(
                                    tr.content@[i].text@,
                                )),
                            )),
                            ("isError"@, JVal::Bool(tr.is_error)),
                        ]);
                    }
                    ReplyKind::Done(result)
                }
                Err(_) => ReplyKind::Hard,
            };
            match (&req.id, reply) {
                (Some(i), ReplyKind::Done(result)) => Ok(
                    Some(ResponseEnvelope::Success { id: i.dup(), result }),
                ),
                (Some(i), ReplyKind::Hard) => Ok(
                    Some(ResponseEnvelope::Failure {
                        id: i.dup(),
                        code: -32000,
                        message: String::from_str("Server error"),
                    }),
                ),
                (None, _) => Ok(None),
            }
        } else {
            match &req.id {
                Some(i) => Ok(Some(ResponseEnvelope::Failure {
                    id: i.dup(),
                    code: -32601,
                    message: String::from_str("Method not found"),
                })),
                None => Ok(None),
            }
        }
    }

    /// Handle a notification: only the initialized notification is
    /// known; every other method is refused.
    pub fn handle_notification(&self, method: &str, _params: Option<JsonValue>) -> (r: Result<
        (),
        McpError,
    >)
        ensures
            method@ == "notifications/initialized"@ ==> r == Ok::<(), McpError>(()),
            method@ != "notifications/initialized"@ ==> r == Err::<(), McpError>(
                McpError::MethodNotFound,
            ),
    {
        if crate::strutil::str_eq(method, "notifications/initialized") {
            Ok(())
        } else {
            Err(McpError::MethodNotFound)
        }
    }
}

/// How a completed invocation is reported: a result document, or a
/// hard failure.
enum ReplyKind {
    Done(JsonValue),
    Hard,
}

/// The envelope a decoded document describes, if it is a valid request:
/// an object with a string `method`; an absent id makes a notification,
/// a present one is decoded as an id; absent params read as null.
pub open spec fn req_of_jval(v: JVal) -> Option<ReqModel> {
    match v {
        JVal::Obj(fields) => match crate::json::obj_lookup(fields, "method"@) {
            Some(mv) => match mv {
                JVal::Str(m) => {
                    let id = match crate::json::obj_lookup(fields, "id"@) {
                        None => None,
                        Some(iv) => Some(id_of_jval(iv)),
                    };
                    let params = match crate::json::obj_lookup(fields, "params"@) {
                        Some(p) => p,
                        None => JVal::Null,
                    };
                    Some(ReqModel { id, method: m, params })
                }
                _ => None,
            },
            None => None,
        },
        _ => None,
    }
}

/// Rebuild a canonical request envelope from a decoded document.
pub fn request_of_json(v: &JsonValue) -> (r: Option<RequestEnvelope>)
    ensures
        match r {
            Some(req) => req_of_jval(v@) == Some(req@),
            None => req_of_jval(v@) is None,
        },
{
    let method = match v.get_field("method") {
        Some(mv) => match mv.as_str_val() {
            Some(m) => m.clone(),
            None => {
                return None;
            }
        },
        None => {
            return None;
        }
    };
    let id: Option<RequestId> = match v.get_field("id") {
        None => None,
        Some(iv) => Some(id_of_json(iv)),
    };
    let params = match v.get_field("params") {
        Some(p) => p.deep_clone(),
        None => JsonValue::Null,
    };
    Some(RequestEnvelope { id, method, params })
}

/// The id to correlate a reply with when the request could not be
/// decoded: the document's `id`, as far as one can be read off it, else
/// the fallback id zero.
pub open spec fn recover_id_model(v: JVal) -> IdModel {
    match crate::json::jv_get(v, "id"@) {
        Some(iv) => id_of_jval(iv),
        None => IdModel::Num(0),
    }
}

/// Recover a best-effort correlation id from a decoded document.
pub fn recover_id(v: &JsonValue) -> (r: RequestId)
    ensures
        r@ == recover_id_model(v@),
{
    match v.get_field("id") {
        Some(iv) => id_of_json(iv),
        None => RequestId::Num(0),
    }
}

/// Whether an envelope's error code fits the wire's signed number range.
pub open spec fn resp_wf(e: RespModel) -> bool {
    match e {
        RespModel::Success { .. } => true,
        RespModel::Failure { code, .. } => -0x8000000000000000 <= code <= 0x7fffffffffffffff,
    }
}

/// The document a response envelope is written as: the protocol tag,
/// then the result or the error object, then the echoed id.
pub open spec fn resp_json_model(e: RespModel) -> JVal {
    match e {
        RespModel::Success { id, result } => JVal::Obj(
            seq![
                ("jsonrpc"@, JVal::Str("2.0"@)),
                ("result"@, result),
                ("id"@, id_json_model(id)),
            ],
        ),
        RespModel::Failure { id, code, message } => JVal::Obj(
            seq![
                ("jsonrpc"@, JVal::Str("2.0"@)),
                ("error"@, JVal::Obj(
                    seq![("code"@, JVal::Int(code)), ("message"@, JVal::Str(message))],
                )),
                ("id"@, id_json_model(id)),
            ],
        ),
    }
}

/// The canonical wire text of a response envelope.
pub open spec fn ser_response(e: RespModel) -> Seq<char> {
    crate::ser::ser_json(resp_json_model(e))
}

impl ResponseEnvelope {
    /// Write this envelope as a document.
    pub fn to_json(&self) -> (r: JsonValue)
        ensures
            r@ == resp_json_model(self@),
    {
        broadcast use crate::json::lemma_field_models_of_push;
        let mut fields: Vec<(String, JsonValue)> = Vec::new();
        fields.push((String::from_str("jsonrpc"), JsonValue::Str(String::from_str("2.0"))));
        match self {
            ResponseEnvelope::Success { id, result } => {
                fields.push((String::from_str("result"), result.deep_clone()));
                fields.push((String::from_str("id"), id.to_json()));
            }
            ResponseEnvelope::Failure { id, code, message } => {
                let mut err: Vec<(String, JsonValue)> = Vec::new();
                err.push((String::from_str("code"), JsonValue::Int(*code)));
                err.push((String::from_str("message"), JsonValue::Str(message.clone())));
                proof {
                    assert(JsonValue::field_models_of(err@) =~= seq![
                        ("code"@, JVal::Int(*code as int)),
                        ("message"@, JVal::Str(message@)),
                    ]);
                }
                fields.push((String::from_str("error"), JsonValue::Obj(err)));
                fields.push((String::from_str("id"), id.to_json()));
            }
        }
        proof {
            assert(JsonValue::field_models_of(fields@) =~= resp_json_model(self@)->Obj_0);
        }
        JsonValue::Obj(fields)
    }

    /// The canonical wire text of this envelope.
    pub fn encode(&self) -> (r: String)
        ensures
            r@ == ser_response(self@),
    {
        let j = self.to_json();
        crate::ser::json_to_string(&j)
    }
}

} // verus!
