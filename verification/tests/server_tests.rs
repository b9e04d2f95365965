//! The dispatcher seen from outside: discovery, invocation, and the
//! protocol errors, driven through `handle_request` with a mock tool.

use toolrpc::dispatch::{RequestEnvelope, RequestId, ResponseEnvelope};
use toolrpc::json::JsonValue;
use toolrpc::registry::{McpServer, ToolDescriptor};
use toolrpc::schema::{ParamType, ParameterSpec};
use toolrpc::types::{
    InitializeResult, McpError, ServerCapabilities, ServerInfo, ServerResult, ToolContent,
    ToolResult,
};

fn mock_tool_descriptor() -> ToolDescriptor {
    ToolDescriptor {
        name: "mock_tool".to_string(),
        description: "A mock tool for testing".to_string(),
        params: vec![ParameterSpec {
            name: "echo".to_string(),
            ty: ParamType::Text,
            optional: false,
            description: String::new(),
        }],
    }
}

fn mock_invoke(_name: String, args: JsonValue) -> Result<ToolResult, String> {
    let echo = match args.get_field("echo") {
        Some(JsonValue::Str(s)) => s.clone(),
        _ => return Err("Missing echo parameter".to_string()),
    };
    Ok(ToolResult {
        content: vec![ToolContent { kind: "text".to_string(), text: echo }],
        is_error: false,
    })
}

fn obj(fields: Vec<(&str, JsonValue)>) -> JsonValue {
    JsonValue::Obj(fields.into_iter().map(|(k, v)| (k.to_string(), v)).collect())
}

#[test]
fn test_tools_list() {
    let mut server = McpServer::new("test-server", "1.0.0");
    server.register_tool(mock_tool_descriptor());

    let request = RequestEnvelope {
        id: Some(RequestId::Num(1)),
        method: "tools/list".to_string(),
        params: JsonValue::Null,
    };
    let response = server.handle_request(mock_invoke, &request).unwrap();

    match response {
        Some(ResponseEnvelope::Success { id, result }) => {
            assert_eq!(id, RequestId::Num(1));
            let tools = match result.get_field("tools") {
                Some(JsonValue::Arr(items)) => items,
                _ => panic!("Expected tools array"),
            };
            assert_eq!(tools.len(), 1);
            match tools[0].get_field("name") {
                Some(JsonValue::Str(s)) => assert_eq!(s, "mock_tool"),
                _ => panic!("Expected tool name"),
            }
            match tools[0].get_field("description") {
                Some(JsonValue::Str(s)) => assert_eq!(s, "A mock tool for testing"),
                _ => panic!("Expected tool description"),
            }
            assert!(result.get_field("nextPageToken").is_none());
        }
        _ => panic!("Expected successful response"),
    }
}

#[test]
fn test_tool_execution() {
    let mut server = McpServer::new("test-server", "1.0.0");
    server.register_tool(mock_tool_descriptor());

    let params = obj(vec![
        ("name", JsonValue::Str("mock_tool".to_string())),
        ("arguments", obj(vec![("echo", JsonValue::Str("Hello, World!".to_string()))])),
    ]);
    let request = RequestEnvelope {
        id: Some(RequestId::Num(1)),
        method: "tools/call".to_string(),
        params,
    };
    let response = server.handle_request(mock_invoke, &request).unwrap();

    match response {
        Some(ResponseEnvelope::Success { id, result }) => {
            assert_eq!(id, RequestId::Num(1));
            let content = match result.get_field("content") {
                Some(JsonValue::Arr(items)) => items,
                _ => panic!("Expected content array"),
            };
            assert_eq!(content.len(), 1);
            match content[0].get_field("text") {
                Some(JsonValue::Str(s)) => assert_eq!(s, "Hello, World!"),
                _ => panic!("Expected text content"),
            }
            assert_eq!(result.get_field("isError"), Some(&JsonValue::Bool(false)));
        }
        _ => panic!("Expected successful response"),
    }
}

#[test]
fn test_unknown_tool() {
    let server = McpServer::new("test-server", "1.0.0");

    let params = obj(vec![
        ("name", JsonValue::Str("non_existent_tool".to_string())),
        ("arguments", obj(vec![])),
    ]);
    let request = RequestEnvelope {
        id: Some(RequestId::Num(1)),
        method: "tools/call".to_string(),
        params,
    };
    let response = server.handle_request(mock_invoke, &request);
    assert!(matches!(response, Err(McpError::MethodNotFound)));
}

#[test]
fn test_invalid_method() {
    let server = McpServer::new("test-server", "1.0.0");

    let request = RequestEnvelope {
        id: Some(RequestId::Num(1)),
        method: "invalid/method".to_string(),
        params: JsonValue::Null,
    };
    let response = server.handle_request(mock_invoke, &request).unwrap();

    match response {
        Some(ResponseEnvelope::Failure { code, message, .. }) => {
            assert_eq!(code, -32601);
            assert_eq!(message, "Method not found");
        }
        _ => panic!("Expected failure response"),
    }
}

#[test]
fn test_initialize() {
    let mut server = McpServer::new("test-server", "1.0.0");
    server.register_tool(mock_tool_descriptor());

    let request = RequestEnvelope {
        id: Some(RequestId::Num(1)),
        method: "initialize".to_string(),
        params: JsonValue::Null,
    };
    let response = server.handle_request(mock_invoke, &request).unwrap();

    match response {
        Some(ResponseEnvelope::Success { id, result }) => {
            assert_eq!(id, RequestId::Num(1));
            match result.get_field("serverInfo") {
                Some(info) => {
                    assert_eq!(info.get_field("name"), Some(&JsonValue::Str("test-server".to_string())));
                    assert_eq!(info.get_field("version"), Some(&JsonValue::Str("1.0.0".to_string())));
                }
                None => panic!("Expected serverInfo"),
            }
            assert_eq!(
                result.get_field("protocolVersion"),
                Some(&JsonValue::Str(toolrpc::types::LATEST_PROTOCOL_VERSION.to_string()))
            );
            match result.get_field("capabilities").and_then(|c| c.get_field("tools")) {
                Some(JsonValue::Obj(flags)) => {
                    assert_eq!(flags.len(), 1);
                    assert_eq!(flags[0].0, "mock_tool");
                    assert_eq!(flags[0].1, JsonValue::Bool(true));
                }
                _ => panic!("Expected capability flags"),
            }
        }
        _ => panic!("Expected successful response"),
    }
}

#[test]
fn test_notification_draws_no_reply() {
    let mut server = McpServer::new("test-server", "1.0.0");
    server.register_tool(mock_tool_descriptor());

    let request = RequestEnvelope {
        id: None,
        method: "tools/list".to_string(),
        params: JsonValue::Null,
    };
    let response = server.handle_request(mock_invoke, &request).unwrap();
    assert!(response.is_none());
}

#[test]
fn test_invalid_params_errors() {
    let mut server = McpServer::new("test-server", "1.0.0");
    server.register_tool(mock_tool_descriptor());

    // Parameters that are not an object at all.
    let request = RequestEnvelope {
        id: Some(RequestId::Num(1)),
        method: "tools/call".to_string(),
        params: JsonValue::Int(3),
    };
    assert!(matches!(
        server.handle_request(mock_invoke, &request),
        Err(McpError::InvalidParams)
    ));

    // A name that is not a string.
    let request = RequestEnvelope {
        id: Some(RequestId::Num(1)),
        method: "tools/call".to_string(),
        params: obj(vec![("name", JsonValue::Int(1))]),
    };
    assert!(matches!(
        server.handle_request(mock_invoke, &request),
        Err(McpError::InvalidParams)
    ));

    // Arguments of a non-object, non-null shape.
    let request = RequestEnvelope {
        id: Some(RequestId::Num(1)),
        method: "tools/call".to_string(),
        params: obj(vec![
            ("name", JsonValue::Str("mock_tool".to_string())),
            ("arguments", JsonValue::Int(2)),
        ]),
    };
    assert!(matches!(
        server.handle_request(mock_invoke, &request),
        Err(McpError::InvalidParams)
    ));
}

#[test]
fn test_tool_hard_failure_is_server_error() {
    let mut server = McpServer::new("test-server", "1.0.0");
    server.register_tool(mock_tool_descriptor());

    // The mock tool fails hard when `echo` is missing: the dispatcher
    // reports a generic server error, not a successful reply.
    let params = obj(vec![
        ("name", JsonValue::Str("mock_tool".to_string())),
        ("arguments", obj(vec![])),
    ]);
    let request = RequestEnvelope {
        id: Some(RequestId::Num(7)),
        method: "tools/call".to_string(),
        params,
    };
    let response = server.handle_request(mock_invoke, &request).unwrap();
    match response {
        Some(ResponseEnvelope::Failure { id, code, message }) => {
            assert_eq!(id, RequestId::Num(7));
            assert_eq!(code, -32000);
            assert_eq!(message, "Server error");
        }
        _ => panic!("Expected failure response"),
    }
}

#[test]
fn test_server_result_wraps_initialize() {
    let init = InitializeResult {
        protocol_version: toolrpc::types::LATEST_PROTOCOL_VERSION.to_string(),
        capabilities: ServerCapabilities { tools: vec![] },
        server_info: ServerInfo { name: "s".to_string(), version: "1".to_string() },
        instructions: None,
    };
    let wrapped = ServerResult::from(init);
    match wrapped {
        ServerResult::InitializeResult(r) => {
            assert_eq!(r.server_info.name, "s");
            assert!(r.instructions.is_none());
        }
    }
}

#[test]
fn test_handle_notification_methods() {
    let server = McpServer::new("test-server", "1.0.0");
    assert!(server.handle_notification("notifications/initialized", None).is_ok());
    assert!(matches!(
        server.handle_notification("notifications/unknown", None),
        Err(McpError::MethodNotFound)
    ));
}
