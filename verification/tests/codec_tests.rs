//! The JSON codec and the registry laws, on concrete values: canonical
//! writing, lenient reading, byte-stable response round trips, and the
//! replace-on-reregistration behaviour.

use toolrpc::dispatch::{RequestEnvelope, RequestId, ResponseEnvelope};
use toolrpc::json::JsonValue;
use toolrpc::parse::parse_text;
use toolrpc::registry::{McpServer, ToolDescriptor};
use toolrpc::schema::{ParamType, ParameterSpec};
use toolrpc::ser::json_to_string;
use toolrpc::types::{McpError, ToolContent, ToolResult};

fn no_tool(_name: String, _args: JsonValue) -> Result<ToolResult, String> {
    Err("no tools in this test".to_string())
}

fn sample_payload() -> JsonValue {
    JsonValue::Obj(vec![
        ("text".to_string(), JsonValue::Str("line\nbreak \"quoted\" back\\slash é".to_string())),
        ("neg".to_string(), JsonValue::Int(-42)),
        ("big".to_string(), JsonValue::Int(i64::MAX)),
        ("small".to_string(), JsonValue::Int(i64::MIN)),
        ("flags".to_string(), JsonValue::Arr(vec![
            JsonValue::Bool(true),
            JsonValue::Bool(false),
            JsonValue::Null,
        ])),
        ("ctrl".to_string(), JsonValue::Str("tab\there \u{1} bell".to_string())),
    ])
}

#[test]
fn test_response_roundtrip_success() {
    // Serialize a response envelope, deserialize it, re-serialize:
    // byte for byte the same.
    let envelope = ResponseEnvelope::Success { id: RequestId::Num(17), result: sample_payload() };
    let first = envelope.encode();
    let reread = parse_text(&first).expect("the writer's output parses");
    let second = json_to_string(&reread);
    assert_eq!(first, second);

    // An independent JSON reader agrees about the shape.
    let outside: serde_json::Value = serde_json::from_str(&first).unwrap();
    assert_eq!(outside["jsonrpc"], "2.0");
    assert_eq!(outside["id"], 17);
    assert_eq!(outside["result"]["neg"], -42);
    assert_eq!(outside["result"]["text"], "line\nbreak \"quoted\" back\\slash é");
}

#[test]
fn test_response_roundtrip_failure() {
    let envelope = ResponseEnvelope::Failure {
        id: RequestId::Num(3),
        code: -32601,
        message: "Method not found".to_string(),
    };
    let first = envelope.encode();
    let reread = parse_text(&first).expect("the writer's output parses");
    let second = json_to_string(&reread);
    assert_eq!(first, second);

    let outside: serde_json::Value = serde_json::from_str(&first).unwrap();
    assert_eq!(outside["error"]["code"], -32601);
    assert_eq!(outside["error"]["message"], "Method not found");
    assert_eq!(outside["id"], 3);
}

#[test]
fn test_writer_exact_text() {
    let doc = JsonValue::Obj(vec![
        ("a".to_string(), JsonValue::Arr(vec![JsonValue::Int(1), JsonValue::Int(-2)])),
        ("s".to_string(), JsonValue::Str("x\"y\\z\n\u{1}".to_string())),
        ("n".to_string(), JsonValue::Null),
    ]);
    assert_eq!(
        json_to_string(&doc),
        "{\"a\":[1,-2],\"s\":\"x\\\"y\\\\z\\n\\u0001\",\"n\":null}"
    );
    assert_eq!(json_to_string(&JsonValue::Int(0)), "0");
    assert_eq!(json_to_string(&JsonValue::Int(i64::MIN)), "-9223372036854775808");
    assert_eq!(json_to_string(&JsonValue::Bool(true)), "true");
    assert_eq!(json_to_string(&JsonValue::Str(String::new())), "\"\"");
}

#[test]
fn test_reader_accepts_and_rejects() {
    // Whitespace between tokens is accepted.
    let v = parse_text(" { \"a\" : [ 1 , -2 , true , null , \"x\\n\" ] } ").unwrap();
    match v.get_field("a") {
        Some(JsonValue::Arr(items)) => {
            assert_eq!(items.len(), 5);
            assert_eq!(items[0], JsonValue::Int(1));
            assert_eq!(items[1], JsonValue::Int(-2));
            assert_eq!(items[2], JsonValue::Bool(true));
            assert_eq!(items[3], JsonValue::Null);
            assert_eq!(items[4], JsonValue::Str("x\n".to_string()));
        }
        _ => panic!("Expected array"),
    }

    // Escapes, unicode escapes over the whole scalar range included.
    assert_eq!(parse_text(r#""A\t\/""#), Some(JsonValue::Str("A\t/".to_string())));
    assert_eq!(parse_text(r#""\u0041\u00e9""#), Some(JsonValue::Str("A\u{e9}".to_string())));
    assert_eq!(parse_text(r#""\u0100""#), Some(JsonValue::Str("\u{100}".to_string())));
    assert_eq!(parse_text(r#""\u4e2d\u6587""#), Some(JsonValue::Str("\u{4e2d}\u{6587}".to_string())));
    // A surrogate pair decodes to one character; a lone surrogate is
    // malformed.
    assert_eq!(parse_text(r#""\ud83d\ude00""#), Some(JsonValue::Str("\u{1f600}".to_string())));
    assert_eq!(parse_text(r#""\ud83d""#), None);
    assert_eq!(parse_text(r#""\ude00""#), None);
    assert_eq!(parse_text(r#""\ud83dA""#), None);

    // The 64-bit boundary: beyond it, the number keeps its lexeme.
    assert_eq!(parse_text("9223372036854775807"), Some(JsonValue::Int(i64::MAX)));
    assert_eq!(parse_text("-9223372036854775808"), Some(JsonValue::Int(i64::MIN)));
    assert_eq!(
        parse_text("9223372036854775808"),
        Some(JsonValue::NumText("9223372036854775808".to_string()))
    );

    // Fractions and exponents survive as their exact lexemes.
    assert_eq!(parse_text("1.5"), Some(JsonValue::NumText("1.5".to_string())));
    assert_eq!(parse_text("1e5"), Some(JsonValue::NumText("1e5".to_string())));
    assert_eq!(parse_text("-2.5E+10"), Some(JsonValue::NumText("-2.5E+10".to_string())));
    assert_eq!(parse_text("0.25"), Some(JsonValue::NumText("0.25".to_string())));

    // Rejected shapes: broken numbers, trailing text, bare words.
    assert_eq!(parse_text("1."), None);
    assert_eq!(parse_text("1e"), None);
    assert_eq!(parse_text("1e+"), None);
    assert_eq!(parse_text("01"), None);
    assert_eq!(parse_text("{} extra"), None);
    assert_eq!(parse_text("nope"), None);
    assert_eq!(parse_text(""), None);
    assert_eq!(parse_text("\"unterminated"), None);
    assert_eq!(parse_text("[1,]"), None);
    assert_eq!(parse_text("{\"a\":}"), None);

    // Reading what an outside writer produced.
    let outside = serde_json::to_string(&serde_json::Value::Array(vec![
        serde_json::Value::from(1),
        serde_json::Value::from("two"),
        serde_json::Value::Null,
    ]))
    .unwrap();
    let v = parse_text(&outside).unwrap();
    match v {
        JsonValue::Arr(ref items) => {
            assert_eq!(items[1], JsonValue::Str("two".to_string()));
        }
        _ => panic!("Expected array"),
    }
}

#[test]
fn test_reregistration_replaces() {
    // Registering a second descriptor under an existing name replaces
    // the first: one entry remains, with the second's description and
    // schema.
    let mut server = McpServer::new("test-server", "1.0.0");
    server.register_tool(ToolDescriptor {
        name: "thing".to_string(),
        description: "first".to_string(),
        params: vec![],
    });
    server.register_tool(ToolDescriptor {
        name: "thing".to_string(),
        description: "second".to_string(),
        params: vec![ParameterSpec {
            name: "n".to_string(),
            ty: ParamType::Integer64,
            optional: false,
            description: String::new(),
        }],
    });

    let listed = server.list();
    assert_eq!(listed.len(), 1);
    assert_eq!(listed[0].name, "thing");
    assert_eq!(listed[0].description, "second");
    let props = listed[0].input_schema.get_field("properties").unwrap();
    assert!(props.get_field("n").is_some());
}

#[test]
fn test_list_is_idempotent() {
    // Listing twice without an intervening registration yields
    // identical results.
    let mut server = McpServer::new("test-server", "1.0.0");
    for name in ["alpha", "beta", "gamma"] {
        server.register_tool(ToolDescriptor {
            name: name.to_string(),
            description: format!("tool {}", name),
            params: vec![],
        });
    }
    let first = server.list();
    let second = server.list();
    assert_eq!(first.len(), second.len());
    for (a, b) in first.iter().zip(second.iter()) {
        assert_eq!(a.name, b.name);
        assert_eq!(a.description, b.description);
        assert_eq!(a.input_schema, b.input_schema);
    }
}

#[test]
fn test_list_counts_unique_names() {
    // After registering N uniquely-named tools, tools/list returns
    // exactly N entries and no next-page token.
    let mut server = McpServer::new("test-server", "1.0.0");
    for name in ["one", "two", "three", "four", "five"] {
        server.register_tool(ToolDescriptor {
            name: name.to_string(),
            description: String::new(),
            params: vec![],
        });
    }
    let request = RequestEnvelope {
        id: Some(RequestId::Num(1)),
        method: "tools/list".to_string(),
        params: JsonValue::Null,
    };
    match server.handle_request(no_tool, &request).unwrap() {
        Some(ResponseEnvelope::Success { result, .. }) => {
            match result.get_field("tools") {
                Some(JsonValue::Arr(items)) => assert_eq!(items.len(), 5),
                _ => panic!("Expected tools array"),
            }
            assert!(result.get_field("nextPageToken").is_none());
        }
        _ => panic!("Expected successful response"),
    }
}

#[test]
fn test_error_surface() {
    let of = |e: &McpError| {
        let env = ResponseEnvelope::of_error(RequestId::Num(9), e);
        match env {
            ResponseEnvelope::Failure { id, code, message } => (id, code, message),
            _ => panic!("Expected a failure envelope"),
        }
    };
    assert_eq!(
        of(&McpError::InvalidRequest),
        (RequestId::Num(9), -32600, "Invalid request".to_string())
    );
    assert_eq!(
        of(&McpError::InvalidParams),
        (RequestId::Num(9), -32602, "Invalid parameters".to_string())
    );
    assert_eq!(
        of(&McpError::MethodNotFound),
        (RequestId::Num(9), -32601, "Method not found".to_string())
    );
    assert_eq!(
        of(&McpError::InternalError),
        (RequestId::Num(9), -32000, "Server error".to_string())
    );
}

#[test]
fn test_number_lexeme_round_trip() {
    // A non-integer number written back is byte-for-byte the lexeme it
    // came in as.
    for text in ["1.5", "-0.25", "2.5e-3", "1E+10", "18446744073709551616"] {
        let v = parse_text(text).unwrap();
        assert_eq!(json_to_string(&v), text);
    }
    let doc = parse_text("{\"x\":[1.5,2,3e8]}").unwrap();
    assert_eq!(json_to_string(&doc), "{\"x\":[1.5,2,3e8]}");
}

#[test]
fn test_duplicate_object_keys_last_wins() {
    // Of duplicated object keys, the later binding wins, as the common
    // JSON readers have it.
    let v = parse_text(r#"{"a":1,"a":2}"#).unwrap();
    assert_eq!(v.get_field("a"), Some(&JsonValue::Int(2)));
    let v = parse_text(r#"{"id":1,"method":"x","id":9,"method":"y"}"#).unwrap();
    assert_eq!(v.get_field("id"), Some(&JsonValue::Int(9)));
    assert_eq!(v.get_field("method"), Some(&JsonValue::Str("y".to_string())));
}
