//! The two transports' decision cores, driven end to end: a calculator
//! server over the line-framed stream, and the session directory of
//! the push transport.

use toolrpc::dispatch::{RequestEnvelope, RequestId, ResponseEnvelope};
use toolrpc::json::JsonValue;
use toolrpc::registry::{McpServer, ToolDescriptor};
use toolrpc::schema::{ParamType, ParameterSpec};
use toolrpc::session::{endpoint_event, fresh_session_id, submit_request, SessionDirectory, SubmitStep};
use toolrpc::stream::{encode_line, handle_line};
use toolrpc::types::ToolResult;

fn int_param(name: &str) -> ParameterSpec {
    ParameterSpec {
        name: name.to_string(),
        ty: ParamType::Integer64,
        optional: false,
        description: String::new(),
    }
}

fn calc_tool(name: &str, description: &str) -> ToolDescriptor {
    ToolDescriptor {
        name: name.to_string(),
        description: description.to_string(),
        params: vec![int_param("a"), int_param("b")],
    }
}

fn calculator_server(name: &str, version: &str) -> McpServer {
    McpServer::new(name, version)
        .with_tool(calc_tool("calculator_add", "Add two numbers"))
        .with_tool(calc_tool("calculator_subtract", "Subtract two numbers"))
        .with_tool(calc_tool("calculator_multiply", "Multiply two numbers"))
        .with_tool(calc_tool("calculator_divide", "Divide two numbers"))
}

fn calc_invoke(name: String, args: JsonValue) -> Result<ToolResult, String> {
    let a = match args.get_field("a") {
        Some(JsonValue::Int(v)) => *v,
        _ => return Err("Missing required parameter: a".to_string()),
    };
    let b = match args.get_field("b") {
        Some(JsonValue::Int(v)) => *v,
        _ => return Err("Missing required parameter: b".to_string()),
    };
    let show = |n: i64| toolrpc::ser::json_to_string(&JsonValue::Int(n));
    match name.as_str() {
        "calculator_add" => Ok(ToolResult::plain(show(a + b))),
        "calculator_subtract" => Ok(ToolResult::plain(show(a - b))),
        "calculator_multiply" => Ok(ToolResult::plain(show(a * b))),
        "calculator_divide" => {
            if b == 0 {
                Ok(ToolResult::business_error("Cannot divide by zero".to_string()))
            } else {
                Ok(ToolResult::plain(show(a / b)))
            }
        }
        _ => Err("unknown tool".to_string()),
    }
}

fn call_text(result: &JsonValue) -> String {
    match result.get_field("content") {
        Some(JsonValue::Arr(items)) => match items[0].get_field("text") {
            Some(JsonValue::Str(s)) => s.clone(),
            _ => panic!("Expected text content"),
        },
        _ => panic!("Expected content array"),
    }
}

#[test]
fn test_calculator_add() {
    let server = calculator_server("test-server", "1.0.0");

    let line = r#"{"jsonrpc":"2.0","id":1,"method":"tools/call","params":{"name":"calculator_add","arguments":{"a":2,"b":3}}}"#;
    let response = handle_line(&server, calc_invoke, line).expect("Expected a reply");

    // The write loop frames every reply as one line; decode it back.
    let framed = encode_line(&response);
    assert!(framed.ends_with('\n'));
    let echoed = toolrpc::parse::parse_text(framed.trim_end()).unwrap();
    match echoed.get_field("result") {
        Some(result) => {
            assert_eq!(call_text(result), "5"); // 2 + 3 = 5
        }
        None => panic!("Expected successful response"),
    }
}

#[test]
fn test_calculator() {
    let server = calculator_server("test-calculator", "1.0.0");

    // Addition.
    let params = JsonValue::Obj(vec![
        ("name".to_string(), JsonValue::Str("calculator_add".to_string())),
        (
            "arguments".to_string(),
            JsonValue::Obj(vec![
                ("a".to_string(), JsonValue::Int(2)),
                ("b".to_string(), JsonValue::Int(3)),
            ]),
        ),
    ]);
    let request = RequestEnvelope { id: Some(RequestId::Num(1)), method: "tools/call".to_string(), params };
    match server.handle_request(calc_invoke, &request).unwrap() {
        Some(ResponseEnvelope::Success { result, .. }) => {
            assert_eq!(call_text(&result), "5"); // 2 + 3 = 5
        }
        _ => panic!("Expected successful response"),
    }

    // Division.
    let params = JsonValue::Obj(vec![
        ("name".to_string(), JsonValue::Str("calculator_divide".to_string())),
        (
            "arguments".to_string(),
            JsonValue::Obj(vec![
                ("a".to_string(), JsonValue::Int(10)),
                ("b".to_string(), JsonValue::Int(2)),
            ]),
        ),
    ]);
    let request = RequestEnvelope { id: Some(RequestId::Num(2)), method: "tools/call".to_string(), params };
    match server.handle_request(calc_invoke, &request).unwrap() {
        Some(ResponseEnvelope::Success { result, .. }) => {
            assert_eq!(call_text(&result), "5"); // 10 / 2 = 5
        }
        _ => panic!("Expected successful response"),
    }

    // Division by zero: a business error inside a successful reply.
    let params = JsonValue::Obj(vec![
        ("name".to_string(), JsonValue::Str("calculator_divide".to_string())),
        (
            "arguments".to_string(),
            JsonValue::Obj(vec![
                ("a".to_string(), JsonValue::Int(1)),
                ("b".to_string(), JsonValue::Int(0)),
            ]),
        ),
    ]);
    let request = RequestEnvelope { id: Some(RequestId::Num(3)), method: "tools/call".to_string(), params };
    match server.handle_request(calc_invoke, &request).unwrap() {
        Some(ResponseEnvelope::Success { result, .. }) => {
            assert_eq!(call_text(&result), "Cannot divide by zero");
            assert_eq!(result.get_field("isError"), Some(&JsonValue::Bool(true)));
        }
        _ => panic!("Expected successful response"),
    }
}

#[test]
fn test_calculator_tools_list() {
    let server = calculator_server("test-calculator", "1.0.0");

    let request = RequestEnvelope {
        id: Some(RequestId::Num(1)),
        method: "tools/list".to_string(),
        params: JsonValue::Null,
    };
    match server.handle_request(calc_invoke, &request).unwrap() {
        Some(ResponseEnvelope::Success { result, .. }) => {
            let tools = match result.get_field("tools") {
                Some(JsonValue::Arr(items)) => items,
                _ => panic!("Expected tools array"),
            };
            // Should have 4 calculator tools.
            assert_eq!(tools.len(), 4);

            let tool_info: Vec<(String, String)> = tools
                .iter()
                .map(|t| {
                    let name = match t.get_field("name") {
                        Some(JsonValue::Str(s)) => s.clone(),
                        _ => panic!("Expected name"),
                    };
                    let description = match t.get_field("description") {
                        Some(JsonValue::Str(s)) => s.clone(),
                        _ => panic!("Expected description"),
                    };
                    (name, description)
                })
                .collect();

            let has = |n: &str, d: &str| {
                tool_info.iter().any(|(a, b)| a == n && b == d)
            };
            assert!(has("calculator_add", "Add two numbers"));
            assert!(has("calculator_subtract", "Subtract two numbers"));
            assert!(has("calculator_multiply", "Multiply two numbers"));
            assert!(has("calculator_divide", "Divide two numbers"));

            let add_tool = tools
                .iter()
                .find(|t| t.get_field("name") == Some(&JsonValue::Str("calculator_add".to_string())))
                .unwrap();
            let schema = add_tool.get_field("input_schema").unwrap();
            assert_eq!(schema.get_field("type"), Some(&JsonValue::Str("object".to_string())));
            let properties = schema.get_field("properties").unwrap();
            let a = properties.get_field("a").unwrap();
            let b = properties.get_field("b").unwrap();
            assert_eq!(a.get_field("type"), Some(&JsonValue::Str("integer".to_string())));
            assert_eq!(b.get_field("type"), Some(&JsonValue::Str("integer".to_string())));
        }
        _ => panic!("Expected successful response"),
    }
}

#[test]
fn test_sse_transport() {
    // The push transport's pieces come up around a fresh server.
    let server = McpServer::new("test-server", "1.0.0");
    let directory: SessionDirectory<u32> = SessionDirectory::new();
    assert_eq!(directory.count(), 0);
    assert_eq!(server.list().len(), 0);
}

#[test]
fn test_two_sessions_are_isolated() {
    // Scenario: opening the push channel twice issues two distinct
    // session ids, and a message submitted under one id reaches only
    // that session's channel.
    let mut directory: SessionDirectory<u32> = SessionDirectory::new();
    let id1 = fresh_session_id();
    let id2 = fresh_session_id();
    assert_eq!(id1.len(), 36);
    assert_eq!(id2.len(), 36);
    assert_ne!(id1, id2);

    assert!(directory.open_session(id1.clone(), 1));
    assert!(directory.open_session(id2.clone(), 2));
    assert_eq!(directory.count(), 2);

    // Routing under each id resolves to that session's channel alone.
    assert_eq!(directory.lookup(&id1), Some(&1));
    assert_eq!(directory.lookup(&id2), Some(&2));
    assert_eq!(directory.lookup("no-such-session"), None);

    // The announcement embeds the session's own id.
    assert_eq!(endpoint_event(&id1), format!("/message?sessionId={}", id1));

    // Re-opening a taken id is refused; tearing a session down removes it.
    assert!(!directory.open_session(id1.clone(), 9));
    assert!(directory.remove_session(&id1));
    assert_eq!(directory.lookup(&id1), None);
    assert!(!directory.remove_session(&id1));
    assert_eq!(directory.count(), 1);
}

#[test]
fn test_open_fresh_session() {
    // A freshly drawn session id is 36 characters and lands in the
    // directory; two draws stay apart.
    let mut directory: SessionDirectory<u8> = SessionDirectory::new();
    let id1 = directory.open_fresh(1).expect("a fresh id is free");
    let id2 = directory.open_fresh(2).expect("a fresh id is free");
    assert_eq!(id1.len(), 36);
    assert_eq!(id2.len(), 36);
    assert_ne!(id1, id2);
    assert_eq!(directory.lookup(&id1), Some(&1));
    assert_eq!(directory.lookup(&id2), Some(&2));
}

#[test]
fn test_submit_pushes_only_success() {
    let server = calculator_server("test-server", "1.0.0");

    // A successful call: the push event carries the identical text.
    let req = toolrpc::stream::decode_request(
        r#"{"jsonrpc":"2.0","id":4,"method":"tools/call","params":{"name":"calculator_add","arguments":{"a":1,"b":1}}}"#,
    )
    .unwrap();
    match submit_request(&server, calc_invoke, &req) {
        SubmitStep::Reply { body, push } => {
            assert_eq!(push, Some(body));
        }
        _ => panic!("Expected a direct reply"),
    }

    // An unknown method: a failure reply, nothing pushed.
    let req = toolrpc::stream::decode_request(
        r#"{"jsonrpc":"2.0","id":5,"method":"no/such","params":{}}"#,
    )
    .unwrap();
    match submit_request(&server, calc_invoke, &req) {
        SubmitStep::Reply { body, push } => {
            assert!(push.is_none());
            assert!(body.contains("-32601"));
        }
        _ => panic!("Expected a direct reply"),
    }
}

#[test]
fn test_submit_protocol_error() {
    // A submitted call for an unregistered tool surfaces the protocol
    // error at the transport, for the host to map to a generic
    // failure status.
    let server = calculator_server("test-server", "1.0.0");
    let req = toolrpc::stream::decode_request(
        r#"{"jsonrpc":"2.0","id":6,"method":"tools/call","params":{"name":"missing","arguments":{}}}"#,
    )
    .unwrap();
    match submit_request(&server, calc_invoke, &req) {
        SubmitStep::Protocol(toolrpc::types::McpError::MethodNotFound) => {}
        _ => panic!("Expected a protocol error"),
    }
}

#[test]
fn test_stream_recovers_after_bad_line() {
    // Scenario: a non-JSON line draws one parse error, the session
    // lives on, and the following well-formed line is dispatched
    // normally.
    let server = calculator_server("test-server", "1.0.0");

    let bad = handle_line(&server, calc_invoke, "this is not json").expect("Expected a reply");
    match &bad {
        ResponseEnvelope::Failure { id, code, message } => {
            assert_eq!(*id, RequestId::Num(0));
            assert_eq!(*code, -32700);
            assert_eq!(message, "Parse error");
        }
        _ => panic!("Expected a parse error"),
    }

    // Valid JSON that is no envelope still recovers the id it carries.
    let bad2 = handle_line(&server, calc_invoke, r#"{"id":7,"params":{}}"#).expect("Expected a reply");
    match &bad2 {
        ResponseEnvelope::Failure { id, code, .. } => {
            assert_eq!(*id, RequestId::Num(7));
            assert_eq!(*code, -32700);
        }
        _ => panic!("Expected a parse error"),
    }

    let good = handle_line(
        &server,
        calc_invoke,
        r#"{"jsonrpc":"2.0","id":8,"method":"tools/call","params":{"name":"calculator_add","arguments":{"a":4,"b":4}}}"#,
    )
    .expect("Expected a reply");
    match good {
        ResponseEnvelope::Success { id, result } => {
            assert_eq!(id, RequestId::Num(8));
            assert_eq!(call_text(&result), "8");
        }
        _ => panic!("Expected a successful reply"),
    }

    // A notification is processed without a reply.
    let silent = handle_line(
        &server,
        calc_invoke,
        r#"{"jsonrpc":"2.0","method":"tools/call","params":{"name":"calculator_add","arguments":{"a":1,"b":2}}}"#,
    );
    assert!(silent.is_none());
}

#[test]
fn test_ids_echoed_verbatim() {
    let server = calculator_server("test-server", "1.0.0");

    // A string id is echoed as the same string.
    let reply = handle_line(
        &server,
        calc_invoke,
        r#"{"jsonrpc":"2.0","id":"abc-1","method":"tools/list","params":{}}"#,
    )
    .unwrap();
    assert!(encode_line(&reply).contains(r#""id":"abc-1""#));
    match reply {
        ResponseEnvelope::Success { id, .. } => {
            assert_eq!(id, RequestId::Str("abc-1".to_string()))
        }
        _ => panic!("Expected a successful reply"),
    }

    // An explicit null id marks a call, and the reply echoes null.
    let reply = handle_line(
        &server,
        calc_invoke,
        r#"{"jsonrpc":"2.0","id":null,"method":"tools/list","params":{}}"#,
    )
    .unwrap();
    assert!(encode_line(&reply).contains(r#""id":null"#));

    // An id past the signed 64-bit range still comes back as itself.
    let reply = handle_line(
        &server,
        calc_invoke,
        r#"{"jsonrpc":"2.0","id":18446744073709551615,"method":"tools/list","params":{}}"#,
    )
    .unwrap();
    assert!(encode_line(&reply).contains(r#""id":18446744073709551615"#));
    match reply {
        ResponseEnvelope::Success { id, .. } => assert_eq!(id, RequestId::Num(u64::MAX)),
        _ => panic!("Expected a successful reply"),
    }

    // An id no reading recovers falls back to zero.
    let reply = handle_line(
        &server,
        calc_invoke,
        r#"{"jsonrpc":"2.0","id":-3,"method":"tools/list","params":{}}"#,
    )
    .unwrap();
    match reply {
        ResponseEnvelope::Success { id, .. } => assert_eq!(id, RequestId::Num(0)),
        _ => panic!("Expected a successful reply"),
    }
}

fn lexeme_invoke(_name: String, args: JsonValue) -> Result<ToolResult, String> {
    match args.get_field("x") {
        Some(JsonValue::NumText(t)) => Ok(ToolResult::plain(format!("lex:{}", t))),
        Some(JsonValue::Int(v)) => Ok(ToolResult::plain(format!("int:{}", v))),
        _ => Err("missing x".to_string()),
    }
}

#[test]
fn test_fractional_arguments_reach_the_tool() {
    // A declared number-taking tool receives a fractional argument as
    // its exact lexeme, and an integer one decoded.
    let mut server = McpServer::new("test-server", "1.0.0");
    server.register_tool(ToolDescriptor {
        name: "measure".to_string(),
        description: "Takes a number".to_string(),
        params: vec![ParameterSpec {
            name: "x".to_string(),
            ty: ParamType::Number,
            optional: false,
            description: String::new(),
        }],
    });
    let reply = handle_line(
        &server,
        lexeme_invoke,
        r#"{"jsonrpc":"2.0","id":1,"method":"tools/call","params":{"name":"measure","arguments":{"x":2.5}}}"#,
    )
    .unwrap();
    match reply {
        ResponseEnvelope::Success { result, .. } => assert_eq!(call_text(&result), "lex:2.5"),
        _ => panic!("Expected a successful reply"),
    }
    let reply = handle_line(
        &server,
        lexeme_invoke,
        r#"{"jsonrpc":"2.0","id":2,"method":"tools/call","params":{"name":"measure","arguments":{"x":4}}}"#,
    )
    .unwrap();
    match reply {
        ResponseEnvelope::Success { result, .. } => assert_eq!(call_text(&result), "int:4"),
        _ => panic!("Expected a successful reply"),
    }
}
