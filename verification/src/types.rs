//! Protocol data types: tool results, server information, the payloads
//! of the three RPC methods, and the protocol-level error kinds. Each
//! payload type carries a verified builder that renders it as a JSON
//! document, together with the spec-level model of that document.

use vstd::prelude::*;
use crate::json::{JVal, JsonValue};

verus! {

/// The protocol revision this server speaks.
pub const LATEST_PROTOCOL_VERSION: &'static str = "2024-11-05";

/// One content item produced by a tool: a kind tag and a text body.
/// This core only ever produces the text kind.
pub struct ToolContent {
    pub kind: String,
    pub text: String,
}

/// What a tool invocation hands back when the tool itself ran: a list of
/// content items, and a flag that marks a business-level failure. A
/// business-level failure is distinct from a protocol error: the RPC
/// response that carries it is still a success response.
pub struct ToolResult {
    pub content: Vec<ToolContent>,
    pub is_error: bool,
}

impl ToolResult {
    /// A plain success: one text item, no business error.
    pub fn plain(text: String) -> (r: ToolResult)
        ensures
            r.content@.len() == 1,
            r.content@[0].kind@ == "text"@,
            r.content@[0].text@ == text@,
            !r.is_error,
    {
        ToolResult {
            content: vec![ToolContent { kind: String::from_str("text"), text }],
            is_error: false,
        }
    }

    /// A business failure: the reason as one text item, the error flag
    /// set. The reply that carries it is still a success response.
    pub fn business_error(text: String) -> (r: ToolResult)
        ensures
            r.content@.len() == 1,
            r.content@[0].kind@ == "text"@,
            r.content@[0].text@ == text@,
            r.is_error,
    {
        ToolResult {
            content: vec![ToolContent { kind: String::from_str("text"), text }],
            is_error: true,
        }
    }
}

/// A name/version pair describing an implementation.
pub struct Implementation {
    pub name: String,
    pub version: String,
}

/// Whether a client tracks changes to its root set.
pub struct RootsCapability {
    pub list_changed: bool,
}

/// What the server can do: the names of its registered tools. Each name
/// listed here is announced with the value `true`.
pub struct ServerCapabilities {
    pub tools: Vec<String>,
}

/// The server's own name and version.
pub struct ServerInfo {
    pub name: String,
    pub version: String,
}

/// The result payload of the `initialize` method.
pub struct InitializeResult {
    pub protocol_version: String,
    pub capabilities: ServerCapabilities,
    pub server_info: ServerInfo,
    pub instructions: Option<String>,
}

/// An `initialize` result wrapped as a response body.
pub struct InitializeResponse {
    pub result: InitializeResult,
}

/// A JSON-RPC message shell around some content.
pub struct JsonRpcMessage<T> {
    pub jsonrpc: String,
    pub id: Option<u64>,
    pub content: T,
}

/// One entry of a `tools/list` result: a tool's name, description and
/// derived input schema.
pub struct Tool {
    pub name: String,
    pub description: String,
    pub input_schema: JsonValue,
}

/// The result payload of the `tools/list` method. Pagination is not
/// implemented: the page token is always absent.
pub struct ListToolsResult {
    pub tools: Vec<Tool>,
    pub next_page_token: Option<String>,
}

/// The decoded parameters of a `tools/call` request: the tool's name and
/// an optional argument object.
pub struct CallToolRequest {
    pub name: String,
    pub arguments: Option<JsonValue>,
}

/// The result payload of a `tools/call` method whose tool ran.
pub struct CallToolResult {
    pub content: Vec<Content>,
    pub is_error: Option<bool>,
}

/// A content entry of a `tools/call` result.
pub enum Content {
    Text { text: String },
    Image { url: String, mime_type: Option<String> },
    EmbeddedResource { uri: String, name: Option<String> },
}

/// A result the server can produce, by the method that produced it.
pub enum ServerResult {
    InitializeResult(InitializeResult),
}

impl From<InitializeResult> for ServerResult {
    /// Wrap an `initialize` result as a server result.
    fn from(value: InitializeResult) -> (r: ServerResult) {
        ServerResult::InitializeResult(value)
    }
}

impl vstd::std_specs::convert::FromSpecImpl<InitializeResult> for ServerResult {
    open spec fn obeys_from_spec() -> bool {
        true
    }

    open spec fn from_spec(value: InitializeResult) -> ServerResult {
        ServerResult::InitializeResult(value)
    }
}

/// A protocol-level error of the dispatcher.
#[derive(Debug)]
pub enum McpError {
    InvalidRequest,
    InvalidParams,
    MethodNotFound,
    InternalError,
}

impl McpError {
    /// The JSON-RPC error code of this error.
    pub open spec fn spec_code(self) -> int {
        match self {
            McpError::InvalidRequest => -32600,
            McpError::InvalidParams => -32602,
            McpError::MethodNotFound => -32601,
            McpError::InternalError => -32000,
        }
    }

    /// The JSON-RPC error code of this error.
    pub fn code(&self) -> (r: i64)
        ensures
            r as int == self.spec_code(),
    {
        match self {
            McpError::InvalidRequest => -32600,
            McpError::InvalidParams => -32602,
            McpError::MethodNotFound => -32601,
            McpError::InternalError => -32000,
        }
    }

    /// The standard message that goes with this error's code.
    pub open spec fn spec_message(self) -> Seq<char> {
        match self {
            McpError::InvalidRequest => "Invalid request"@,
            McpError::InvalidParams => "Invalid parameters"@,
            McpError::MethodNotFound => "Method not found"@,
            McpError::InternalError => "Server error"@,
        }
    }

    /// The standard message that goes with this error's code.
    pub fn message(&self) -> (r: String)
        ensures
            r@ == self.spec_message(),
    {
        match self {
            McpError::InvalidRequest => String::from_str("Invalid request"),
            McpError::InvalidParams => String::from_str("Invalid parameters"),
            McpError::MethodNotFound => String::from_str("Method not found"),
            McpError::InternalError => String::from_str("Server error"),
        }
    }
}

impl ServerInfo {
    /// The JSON document announcing this name and version.
    pub open spec fn json_model(self) -> JVal {
        JVal::Obj(
            seq![
                ("name"@, JVal::Str(self.name@)),
                ("version"@, JVal::Str(self.version@)),
            ],
        )
    }

    /// Render this value as a JSON document.
    pub fn to_json(&self) -> (r: JsonValue)
        ensures
            r@ == self.json_model(),
    {
        broadcast use crate::json::lemma_field_models_of_push;
        let mut fields: Vec<(String, JsonValue)> = Vec::new();
        fields.push((String::from_str("name"), JsonValue::Str(self.name.clone())));
        fields.push((String::from_str("version"), JsonValue::Str(self.version.clone())));
        proof {
            assert(JsonValue::field_models_of(fields@) =~= self.json_model()->Obj_0);
        }
        JsonValue::Obj(fields)
    }
}

impl ServerCapabilities {
    /// One flag per tool name, each announced as `true`.
    pub open spec fn flags_model(names: Seq<String>) -> Seq<(Seq<char>, JVal)> {
        Seq::new(names.len(), |i: int| (names[i]@, JVal::Bool(true)))
    }

    /// The JSON document announcing these capabilities.
    pub open spec fn json_model(self) -> JVal {
        JVal::Obj(seq![("tools"@, JVal::Obj(Self::flags_model(self.tools@)))])
    }

    /// Render this value as a JSON document.
    #[verifier::loop_isolation(false)]
    pub fn to_json(&self) -> (r: JsonValue)
        ensures
            r@ == self.json_model(),
    {
        broadcast use crate::json::lemma_field_models_of_push;
        let mut flags: Vec<(String, JsonValue)> = Vec::new();
        for i in 0..self.tools.len()
            invariant
                JsonValue::field_models_of(flags@)
                    =~= Self::flags_model(self.tools@.take(i as int)),
        {
            flags.push((self.tools[i].clone(), JsonValue::Bool(true)));
            proof {
                assert(self.tools@.take(i + 1).drop_last() =~= self.tools@.take(i as int));
                assert(Self::flags_model(self.tools@.take(i + 1))
                    =~= Self::flags_model(self.tools@.take(i as int))
                        .push((self.tools@[i as int]@, JVal::Bool(true))));
            }
        }
        proof {
            assert(self.tools@.take(self.tools@.len() as int) =~= self.tools@);
        }
        let mut fields: Vec<(String, JsonValue)> = Vec::new();
        fields.push((String::from_str("tools"), JsonValue::Obj(flags)));
        proof {
            assert(JsonValue::field_models_of(fields@) =~= self.json_model()->Obj_0);
        }
        JsonValue::Obj(fields)
    }
}

impl InitializeResult {
    /// The JSON document carrying this `initialize` result.
    pub open spec fn json_model(self) -> JVal {
        JVal::Obj(
            seq![
                ("protocolVersion"@, JVal::Str(self.protocol_version@)),
                ("capabilities"@, self.capabilities.json_model()),
                ("serverInfo"@, self.server_info.json_model()),
            ] + match self.instructions {
                Some(s) => seq![("instructions"@, JVal::Str(s@))],
                None => Seq::empty(),
            },
        )
    }

    /// Render this value as a JSON document.
    pub fn to_json(&self) -> (r: JsonValue)
        ensures
            r@ == self.json_model(),
    {
        broadcast use crate::json::lemma_field_models_of_push;
        let mut fields: Vec<(String, JsonValue)> = Vec::new();
        fields.push((
            String::from_str("protocolVersion"),
            JsonValue::Str(self.protocol_version.clone()),
        ));
        fields.push((String::from_str("capabilities"), self.capabilities.to_json()));
        fields.push((String::from_str("serverInfo"), self.server_info.to_json()));
        match &self.instructions {
            Some(s) => {
                fields.push((String::from_str("instructions"), JsonValue::Str(s.clone())));
            }
            None => {}
        }
        proof {
            assert(JsonValue::field_models_of(fields@) =~= self.json_model()->Obj_0);
        }
        JsonValue::Obj(fields)
    }
}

impl Content {
    /// The JSON document of one content entry, tagged by its kind.
    pub open spec fn json_model(self) -> JVal {
        match self {
            Content::Text { text } => JVal::Obj(
                seq![
                    ("type"@, JVal::Str("text"@)),
                    ("text"@, JVal::Str(text@)),
                ],
            ),
            Content::Image { url, mime_type } => JVal::Obj(
                seq![
                    ("type"@, JVal::Str("image"@)),
                    ("url"@, JVal::Str(url@)),
                    ("mime_type"@, match mime_type {
                        Some(m) => JVal::Str(m@),
                        None => JVal::Null,
                    }),
                ],
            ),
            Content::EmbeddedResource { uri, name } => JVal::Obj(
                seq![
                    ("type"@, JVal::Str("resource"@)),
                    ("uri"@, JVal::Str(uri@)),
                    ("name"@, match name {
                        Some(n) => JVal::Str(n@),
                        None => JVal::Null,
                    }),
                ],
            ),
        }
    }

    /// Render this value as a JSON document.
    pub fn to_json(&self) -> (r: JsonValue)
        ensures
            r@ == self.json_model(),
    {
        broadcast use crate::json::lemma_field_models_of_push;
        let mut fields: Vec<(String, JsonValue)> = Vec::new();
        match self {
            Content::Text { text } => {
                fields.push((String::from_str("type"), JsonValue::Str(String::from_str("text"))));
                fields.push((String::from_str("text"), JsonValue::Str(text.clone())));
            }
            Content::Image { url, mime_type } => {
                fields.push((String::from_str("type"), JsonValue::Str(String::from_str("image"))));
                fields.push((String::from_str("url"), JsonValue::Str(url.clone())));
                let m = match mime_type {
                    Some(m) => JsonValue::Str(m.clone()),
                    None => JsonValue::Null,
                };
                fields.push((String::from_str("mime_type"), m));
            }
            Content::EmbeddedResource { uri, name } => {
                fields.push((
                    String::from_str("type"),
                    JsonValue::Str(String::from_str("resource")),
                ));
                fields.push((String::from_str("uri"), JsonValue::Str(uri.clone())));
                let n = match name {
                    Some(n) => JsonValue::Str(n.clone()),
                    None => JsonValue::Null,
                };
                fields.push((String::from_str("name"), n));
            }
        }
        proof {
            assert(JsonValue::field_models_of(fields@) =~= self.json_model()->Obj_0);
        }
        JsonValue::Obj(fields)
    }
}

impl CallToolResult {
    /// The models of a sequence of content entries.
    pub open spec fn contents_model(content: Seq<Content>) -> Seq<JVal> {
        Seq::new(content.len(), |i: int| content[i].json_model())
    }

    /// The JSON document carrying this `tools/call` result.
    pub open spec fn json_model(self) -> JVal {
        JVal::Obj(
            seq![("content"@, JVal::Arr(Self::contents_model(self.content@)))]
                + match self.is_error {
                    Some(b) => seq![("isError"@, JVal::Bool(b))],
                    None => Seq::empty(),
                },
        )
    }

    /// Render this value as a JSON document.
    #[verifier::loop_isolation(false)]
    pub fn to_json(&self) -> (r: JsonValue)
        ensures
            r@ == self.json_model(),
    {
        broadcast use crate::json::lemma_models_of_push, crate::json::lemma_field_models_of_push;
        let mut items: Vec<JsonValue> = Vec::new();
        for i in 0..self.content.len()
            invariant
                JsonValue::models_of(items@)
                    =~= Self::contents_model(self.content@.take(i as int)),
        {
            items.push(self.content[i].to_json());
            proof {
                assert(Self::contents_model(self.content@.take(i + 1))
                    =~= Self::contents_model(self.content@.take(i as int))
                        .push(self.content@[i as int].json_model()));
            }
        }
        proof {
            assert(self.content@.take(self.content@.len() as int) =~= self.content@);
        }
        let mut fields: Vec<(String, JsonValue)> = Vec::new();
        fields.push((String::from_str("content"), JsonValue::Arr(items)));
        match self.is_error {
            Some(b) => {
                fields.push((String::from_str("isError"), JsonValue::Bool(b)));
            }
            None => {}
        }
        proof {
            assert(JsonValue::field_models_of(fields@) =~= self.json_model()->Obj_0);
        }
        JsonValue::Obj(fields)
    }
}

impl Tool {
    /// The JSON document of one `tools/list` entry.
    pub open spec fn json_model(self) -> JVal {
        JVal::Obj(
            seq![
                ("name"@, JVal::Str(self.name@)),
                ("description"@, JVal::Str(self.description@)),
                ("input_schema"@, self.input_schema@),
            ],
        )
    }

    /// Render this value as a JSON document.
    pub fn to_json(&self) -> (r: JsonValue)
        ensures
            r@ == self.json_model(),
    {
        broadcast use crate::json::lemma_field_models_of_push;
        let mut fields: Vec<(String, JsonValue)> = Vec::new();
        fields.push((String::from_str("name"), JsonValue::Str(self.name.clone())));
        fields.push((String::from_str("description"), JsonValue::Str(self.description.clone())));
        fields.push((String::from_str("input_schema"), self.input_schema.deep_clone()));
        proof {
            assert(JsonValue::field_models_of(fields@) =~= self.json_model()->Obj_0);
        }
        JsonValue::Obj(fields)
    }
}

impl ListToolsResult {
    /// The models of a sequence of tool entries.
    pub open spec fn tools_model(tools: Seq<Tool>) -> Seq<JVal> {
        Seq::new(tools.len(), |i: int| tools[i].json_model())
    }

    /// The JSON document carrying this `tools/list` result. Pagination is
    /// not implemented, so the page token field is absent whenever the
    /// token is.
    pub open spec fn json_model(self) -> JVal {
        JVal::Obj(
            seq![("tools"@, JVal::Arr(Self::tools_model(self.tools@)))]
                + match self.next_page_token {
                    Some(t) => seq![("nextPageToken"@, JVal::Str(t@))],
                    None => Seq::empty(),
                },
        )
    }

    /// Render this value as a JSON document.
    #[verifier::loop_isolation(false)]
    pub fn to_json(&self) -> (r: JsonValue)
        ensures
            r@ == self.json_model(),
    {
        broadcast use crate::json::lemma_models_of_push, crate::json::lemma_field_models_of_push;
        let mut items: Vec<JsonValue> = Vec::new();
        for i in 0..self.tools.len()
            invariant
                JsonValue::models_of(items@) =~= Self::tools_model(self.tools@.take(i as int)),
        {
            items.push(self.tools[i].to_json());
            proof {
                assert(Self::tools_model(self.tools@.take(i + 1))
                    =~= Self::tools_model(self.tools@.take(i as int))
                        .push(self.tools@[i as int].json_model()));
            }
        }
        proof {
            assert(self.tools@.take(self.tools@.len() as int) =~= self.tools@);
        }
        let mut fields: Vec<(String, JsonValue)> = Vec::new();
        fields.push((String::from_str("tools"), JsonValue::Arr(items)));
        match &self.next_page_token {
            Some(t) => {
                fields.push((String::from_str("nextPageToken"), JsonValue::Str(t.clone())));
            }
            None => {}
        }
        proof {
            assert(JsonValue::field_models_of(fields@) =~= self.json_model()->Obj_0);
        }
        JsonValue::Obj(fields)
    }
}

} // verus!
