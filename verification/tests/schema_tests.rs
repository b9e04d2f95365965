//! The schema deriver: fragments, the required list, and description
//! extraction from documentation blocks.

use toolrpc::json::JsonValue;
use toolrpc::schema::{derive_schema, extract_param_doc, ParamType, ParameterSpec};

fn param(name: &str, ty: ParamType, optional: bool, description: &str) -> ParameterSpec {
    ParameterSpec {
        name: name.to_string(),
        ty,
        optional,
        description: description.to_string(),
    }
}

fn required_names(schema: &JsonValue) -> Vec<String> {
    match schema.get_field("required") {
        Some(JsonValue::Arr(items)) => items
            .iter()
            .map(|v| match v {
                JsonValue::Str(s) => s.clone(),
                _ => panic!("Expected a name"),
            })
            .collect(),
        _ => panic!("Expected a required list"),
    }
}

#[test]
fn test_doc_comment_schema() {
    // A method documented as:
    //   This is a test method
    //
    //   # Parameters
    //   * `value` - A test parameter
    let docs = "This is a test method\n\n# Parameters\n* `value` - A test parameter";
    let desc = extract_param_doc(docs, "value");
    assert_eq!(desc, "A test parameter");

    let params = vec![param("value", ParamType::Text, false, &desc)];
    let schema = derive_schema(&params);
    assert_eq!(schema.get_field("type"), Some(&JsonValue::Str("object".to_string())));
    let value_prop = schema.get_field("properties").unwrap().get_field("value").unwrap();
    assert_eq!(value_prop.get_field("type"), Some(&JsonValue::Str("string".to_string())));
    assert_eq!(
        value_prop.get_field("description"),
        Some(&JsonValue::Str("A test parameter".to_string()))
    );
    assert_eq!(required_names(&schema), vec!["value".to_string()]);
}

#[test]
fn test_two_documented_params() {
    let docs = "Another test method\nwith multiple doc attributes\n\n# Parameters\n* `x` - First value\n* `y` - Second value";
    assert_eq!(extract_param_doc(docs, "x"), "First value");
    assert_eq!(extract_param_doc(docs, "y"), "Second value");

    let params = vec![
        param("x", ParamType::Integer32, false, "First value"),
        param("y", ParamType::Integer32, false, "Second value"),
    ];
    let schema = derive_schema(&params);
    let props = schema.get_field("properties").unwrap();
    let x = props.get_field("x").unwrap();
    assert_eq!(x.get_field("type"), Some(&JsonValue::Str("integer".to_string())));
    assert_eq!(x.get_field("description"), Some(&JsonValue::Str("First value".to_string())));
    let y = props.get_field("y").unwrap();
    assert_eq!(y.get_field("type"), Some(&JsonValue::Str("integer".to_string())));
    assert_eq!(y.get_field("description"), Some(&JsonValue::Str("Second value".to_string())));
    assert_eq!(required_names(&schema), vec!["x".to_string(), "y".to_string()]);
}

#[test]
fn test_optional_param_schema() {
    // The derived required set holds exactly the non-optional names and
    // never an optional one; an optional type is widened to allow null.
    let params = vec![
        param("required", ParamType::Text, false, "A required parameter"),
        param("optional", ParamType::Integer32, true, "An optional parameter"),
    ];
    let schema = derive_schema(&params);

    let props = schema.get_field("properties").unwrap();
    let required_prop = props.get_field("required").unwrap();
    assert_eq!(required_prop.get_field("type"), Some(&JsonValue::Str("string".to_string())));
    assert_eq!(
        required_prop.get_field("description"),
        Some(&JsonValue::Str("A required parameter".to_string()))
    );

    let optional_prop = props.get_field("optional").unwrap();
    assert_eq!(
        optional_prop.get_field("type"),
        Some(&JsonValue::Arr(vec![
            JsonValue::Str("integer".to_string()),
            JsonValue::Str("null".to_string()),
        ]))
    );
    assert_eq!(optional_prop.get_field("format"), Some(&JsonValue::Str("int32".to_string())));
    assert_eq!(
        optional_prop.get_field("description"),
        Some(&JsonValue::Str("An optional parameter".to_string()))
    );

    let required = required_names(&schema);
    assert_eq!(required, vec!["required".to_string()]);
    assert!(!required.contains(&"optional".to_string()));
}

#[test]
fn test_empty_parameter_list() {
    // A tool with no parameters gets the empty object schema.
    let schema = derive_schema(&Vec::new());
    assert_eq!(schema.get_field("type"), Some(&JsonValue::Str("object".to_string())));
    assert_eq!(schema.get_field("properties"), Some(&JsonValue::Obj(vec![])));
    assert_eq!(schema.get_field("required"), Some(&JsonValue::Arr(vec![])));
}

#[test]
fn test_receiver_param_excluded() {
    let params = vec![
        param("self", ParamType::Object, false, ""),
        param("n", ParamType::Integer64, false, ""),
    ];
    let schema = derive_schema(&params);
    let props = schema.get_field("properties").unwrap();
    assert!(props.get_field("self").is_none());
    assert!(props.get_field("n").is_some());
    assert_eq!(required_names(&schema), vec!["n".to_string()]);
}

#[test]
fn test_param_doc_variants() {
    // A bullet reference without backticks.
    assert_eq!(extract_param_doc("* width - how wide", "width"), "how wide");
    // A dash bullet.
    assert_eq!(extract_param_doc("- height - how tall", "height"), "how tall");
    // No matching line leaves the description empty.
    assert_eq!(extract_param_doc("nothing relevant here", "depth"), "");
    // Only the first matching line counts.
    assert_eq!(
        extract_param_doc("* `n` - first\n* `n` - second", "n"),
        "first"
    );
    // An empty documentation block.
    assert_eq!(extract_param_doc("", "x"), "");
}

#[test]
fn test_number_and_boolean_fragments() {
    let params = vec![
        param("ratio", ParamType::Number, false, ""),
        param("flag", ParamType::Boolean, true, ""),
        param("big", ParamType::Integer64, false, ""),
        param("items", ParamType::Array, false, ""),
    ];
    let schema = derive_schema(&params);
    let props = schema.get_field("properties").unwrap();
    let ratio = props.get_field("ratio").unwrap();
    assert_eq!(ratio.get_field("type"), Some(&JsonValue::Str("number".to_string())));
    assert_eq!(ratio.get_field("format"), Some(&JsonValue::Str("double".to_string())));
    let flag = props.get_field("flag").unwrap();
    assert_eq!(
        flag.get_field("type"),
        Some(&JsonValue::Arr(vec![
            JsonValue::Str("boolean".to_string()),
            JsonValue::Str("null".to_string()),
        ]))
    );
    assert!(flag.get_field("format").is_none());
    let big = props.get_field("big").unwrap();
    assert_eq!(big.get_field("format"), Some(&JsonValue::Str("int64".to_string())));
    let items = props.get_field("items").unwrap();
    assert_eq!(items.get_field("type"), Some(&JsonValue::Str("array".to_string())));
    assert_eq!(required_names(&schema), vec!["ratio".to_string(), "big".to_string(), "items".to_string()]);
}

#[test]
fn test_doc_cleaning_trims_unicode_whitespace() {
    // A documentation line padded with non-ASCII whitespace cleans the
    // same as one padded with spaces.
    assert_eq!(extract_param_doc("\u{a0}* `pad` - padded entry\u{2003}", "pad"), "padded entry");
    assert_eq!(extract_param_doc("* `pad` - padded entry", "pad"), "padded entry");
}
