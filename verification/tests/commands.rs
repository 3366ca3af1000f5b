use rfc_cli::commands::init::{init_actions, update_mcp_json, McpConfigError};
use rfc_cli::commands::view::{view_output, viewer_command, ViewOutput};
use rfc_cli::json::Json;
use serde_json::Value;

fn to_value(json: &Json) -> Value {
    match json {
        Json::Null => Value::Null,
        Json::Bool(b) => Value::Bool(*b),
        Json::Number(n) => Value::Number(n.parse().unwrap()),
        Json::Str(s) => Value::String(s.clone()),
        Json::Array(items) => Value::Array(items.iter().map(to_value).collect()),
        Json::Object(fields) => {
            let mut map = serde_json::Map::new();
            for (k, v) in fields {
                map.insert(k.clone(), to_value(v));
            }
            Value::Object(map)
        }
    }
}

fn from_value(value: &Value) -> Json {
    match value {
        Value::Null => Json::Null,
        Value::Bool(b) => Json::Bool(*b),
        Value::Number(n) => Json::Number(n.to_string()),
        Value::String(s) => Json::Str(s.clone()),
        Value::Array(items) => Json::Array(items.iter().map(from_value).collect()),
        Value::Object(map) => Json::Object(map.iter().map(|(k, v)| (k.clone(), from_value(v))).collect()),
    }
}

fn update(text: &str) -> Result<Value, McpConfigError> {
    update_mcp_json(from_value(&serde_json::from_str::<Value>(text).unwrap())).map(|j| to_value(&j))
}

fn value(text: &str) -> Value {
    serde_json::from_str(text).unwrap()
}

#[test]
fn mcp_config_gets_server_entry() {
    assert_eq!(
        update("{}").ok().unwrap(),
        value(r#"{"mcpServers":{"rfc-cli":{"command":"rfc-cli","args":["mcp"]}}}"#)
    );
    assert_eq!(
        update(r#"{"other":1,"mcpServers":{"x":{"command":"x"},"rfc-cli":{"old":true}}}"#).ok().unwrap(),
        value(r#"{"other":1,"mcpServers":{"x":{"command":"x"},"rfc-cli":{"command":"rfc-cli","args":["mcp"]}}}"#)
    );
}

#[test]
fn mcp_config_update_is_idempotent() {
    let once = update(r#"{"keep":[1],"mcpServers":{"y":{}}}"#).ok().unwrap();
    let twice = update_mcp_json(from_value(&once)).ok().map(|j| to_value(&j)).unwrap();
    assert_eq!(once, twice);
}

#[test]
fn mcp_config_must_be_objects() {
    assert!(matches!(update("[1]"), Err(McpConfigError::NotAnObject)));
    assert!(matches!(update(r#"{"mcpServers":[]}"#), Err(McpConfigError::ServersNotAnObject)));
}

#[test]
fn init_creates_what_is_missing() {
    let a = init_actions(false, false);
    assert!(a.create_rfcs_dir && a.create_index && !a.already_initialized);
    let a = init_actions(true, false);
    assert!(!a.create_rfcs_dir && a.create_index && !a.already_initialized);
    let a = init_actions(true, true);
    assert!(!a.create_rfcs_dir && !a.create_index && a.already_initialized);
}

#[test]
fn view_output_prefers_raw_then_viewer() {
    assert!(matches!(view_output(true, Some("glow".to_string())), ViewOutput::Print));
    assert!(matches!(view_output(false, None), ViewOutput::Print));
    assert!(matches!(view_output(false, Some(" \t".to_string())), ViewOutput::Print));
    match view_output(false, Some("glow -p".to_string())) {
        ViewOutput::Render(v) => assert_eq!(v, "glow -p"),
        _ => panic!("expected a viewer"),
    }
}

#[test]
fn viewer_command_splits_on_whitespace() {
    let (program, args) = viewer_command("  bat\t--language md \u{3000} -p ");
    assert_eq!(program, "bat");
    assert_eq!(args, vec!["--language".to_string(), "md".to_string(), "-p".to_string()]);
    let (program, args) = viewer_command("less");
    assert_eq!(program, "less");
    assert!(args.is_empty());
}
