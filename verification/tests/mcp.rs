use rfc_cli::commands::mcp::{
    execute, handle_request, internal, invalid_params, load_readonly_index, plan_tool, run_tool,
    tool_call_response, Dispatch, Incoming, ToolCall, ToolData, ToolError, Turn,
};
use rfc_cli::index::{Index, IndexEntry};
use rfc_cli::json::Json;
use serde_json::{Number, Value};

fn to_value(json: &Json) -> Value {
    match json {
        Json::Null => Value::Null,
        Json::Bool(b) => Value::Bool(*b),
        Json::Number(n) => Value::Number(n.parse::<Number>().unwrap()),
        Json::Str(s) => Value::String(s.clone()),
        Json::Array(items) => Value::Array(items.iter().map(to_value).collect()),
        Json::Object(fields) => {
            let mut map = serde_json::Map::new();
            for (k, v) in fields {
                map.insert(k.clone(), to_value(v));
            }
            Value::Object(map)
        }
    }
}

fn from_value(value: &Value) -> Json {
    match value {
        Value::Null => Json::Null,
        Value::Bool(b) => Json::Bool(*b),
        Value::Number(n) => Json::Number(n.to_string()),
        Value::String(s) => Json::Str(s.clone()),
        Value::Array(items) => Json::Array(items.iter().map(from_value).collect()),
        Value::Object(map) => Json::Object(map.iter().map(|(k, v)| (k.clone(), from_value(v))).collect()),
    }
}

fn parse(text: &str) -> Json {
    from_value(&serde_json::from_str::<Value>(text).unwrap())
}

fn value(text: &str) -> Value {
    serde_json::from_str::<Value>(text).unwrap()
}

/// Numbers of up to four digits, zero-padded to four.
fn normalize(number: &str) -> Result<String, String> {
    if number.is_empty() || number.len() > 4 || !number.chars().all(|c| c.is_ascii_digit()) {
        return Err(format!("Invalid RFC number: {}", number));
    }
    Ok(format!("{:0>4}", number))
}

fn statuses() -> Vec<String> {
    vec!["draft".to_string(), "accepted".to_string(), "rejected".to_string()]
}

fn entry(number: &str, title: &str, status: &str, deps: &[&str]) -> IndexEntry {
    IndexEntry {
        number: number.to_string(),
        title: title.to_string(),
        status: status.to_string(),
        dependencies: deps.iter().map(|d| d.to_string()).collect(),
        superseded_by: None,
        links: Vec::new(),
    }
}

fn sample_index() -> Index {
    Index {
        rfcs: vec![
            entry("0001", "RFC-0001: base", "accepted", &[]),
            entry("0002", "RFC-0002: next", "draft", &["RFC-0001", "RFC-0009", "RFC-x"]),
            entry("0003", "RFC-0003: other", "draft", &["RFC-0001"]),
        ],
    }
}

fn reply(request: &str) -> Value {
    match handle_request(&parse(request), &statuses(), &normalize) {
        Ok(Some(Dispatch::Reply(response))) => to_value(&response),
        other => panic!("expected a reply, got {:?}", other.map(|d| d.map(|_| ()))),
    }
}

fn planned(request: &str) -> (Json, ToolCall) {
    match handle_request(&parse(request), &statuses(), &normalize) {
        Ok(Some(Dispatch::CallTool { id, call })) => (id, call),
        _ => panic!("expected a tool call"),
    }
}

/// Runs a tool call request against an index and returns the response.
fn call_with_index(request: &str, index: Result<Index, ToolError>) -> Value {
    let (id, call) = planned(request);
    let outcome = run_tool(call, ToolData::Index(index), &normalize);
    let text = match &outcome {
        Ok(structured) => Ok(serde_json::to_string(&to_value(structured)).unwrap()),
        Err(_) => Ok(String::new()),
    };
    to_value(&tool_call_response(id, outcome, text))
}

fn structured(request: &str) -> Value {
    call_with_index(request, Ok(sample_index()))["result"]["structuredContent"].clone()
}

#[test]
fn tools_list_contains_read_only_tools() {
    let response = reply(r#"{"jsonrpc":"2.0","id":1,"method":"tools/list","params":{}}"#);
    let tools = response["result"]["tools"].as_array().unwrap();

    assert!(tools.iter().any(|tool| tool["name"] == "list_rfcs"));
    assert!(tools.iter().any(|tool| tool["name"] == "view_rfc"));
    assert!(tools.iter().any(|tool| tool["name"] == "get_rfc_status"));
    assert!(tools.iter().any(|tool| tool["name"] == "get_rfc_dependencies"));
}

#[test]
fn list_tool_returns_structured_content_without_writing_index() {
    let index = Index { rfcs: vec![entry("0001", "RFC-0001: test", "draft", &[])] };
    let response = call_with_index(
        r#"{"jsonrpc":"2.0","id":1,"method":"tools/call","params":{"name":"list_rfcs","arguments":{}}}"#,
        Ok(index),
    );
    assert_eq!(response["result"]["structuredContent"]["rfcs"][0]["number"], "0001");
    assert!(response["result"]["content"][0]["text"].as_str().unwrap().contains("\"0001\""));
}

#[test]
fn tools_list_schema_names_valid_statuses() {
    let response = reply(r#"{"jsonrpc":"2.0","id":7,"method":"tools/list"}"#);
    let tools = response["result"]["tools"].as_array().unwrap();
    assert_eq!(tools.len(), 5);
    assert_eq!(tools[0]["name"], "ping");
    assert_eq!(
        tools[1]["inputSchema"]["properties"]["status"]["enum"],
        value(r#"["draft","accepted","rejected"]"#)
    );
    assert_eq!(tools[2]["inputSchema"]["required"], value(r#"["number"]"#));
    assert_eq!(tools[0]["inputSchema"]["additionalProperties"], Value::Bool(false));
    assert!(tools[0]["inputSchema"].get("required").is_none());
}

#[test]
fn initialize_reports_protocol_and_server() {
    let response = reply(r#"{"jsonrpc":"2.0","id":"a","method":"initialize","params":{}}"#);
    assert_eq!(
        response,
        value(
            r#"{"jsonrpc":"2.0","id":"a","result":{"protocolVersion":"2024-11-05","capabilities":{"tools":{}},"serverInfo":{"name":"rfc-cli","version":"0.1.4"}}}"#
        )
    );
}

#[test]
fn ping_answers_empty_result() {
    let response = reply(r#"{"jsonrpc":"2.0","id":3,"method":"ping"}"#);
    assert_eq!(response, value(r#"{"jsonrpc":"2.0","id":3,"result":{}}"#));
}

#[test]
fn notification_gets_no_answer() {
    let r = handle_request(&parse(r#"{"jsonrpc":"2.0","method":"ping"}"#), &statuses(), &normalize);
    assert!(matches!(r, Ok(None)));
}

#[test]
fn missing_method_is_an_error() {
    let r = handle_request(&parse(r#"{"jsonrpc":"2.0","id":1}"#), &statuses(), &normalize);
    match r {
        Err(message) => assert_eq!(message, "MCP message missing method"),
        _ => panic!("expected an error"),
    }
    let r = handle_request(&parse(r#"{"jsonrpc":"2.0","id":1,"method":5}"#), &statuses(), &normalize);
    assert!(r.is_err());
}

#[test]
fn unknown_method_is_not_found() {
    let response = reply(r#"{"jsonrpc":"2.0","id":2,"method":"resources/list"}"#);
    assert_eq!(
        response,
        value(r#"{"jsonrpc":"2.0","id":2,"error":{"code":-32601,"message":"Method not found: resources/list"}}"#)
    );
}

#[test]
fn tool_call_without_name_is_invalid() {
    let response = reply(r#"{"jsonrpc":"2.0","id":2,"method":"tools/call","params":{"name":""}}"#);
    assert_eq!(response["error"]["code"], -32602);
    assert_eq!(response["error"]["message"], "tools/call requires non-empty field: name");
    let response = reply(r#"{"jsonrpc":"2.0","id":2,"method":"tools/call"}"#);
    assert_eq!(response["error"]["code"], -32602);
}

#[test]
fn unknown_tool_is_invalid() {
    let response = reply(r#"{"jsonrpc":"2.0","id":2,"method":"tools/call","params":{"name":"edit_rfc"}}"#);
    assert_eq!(response["error"]["message"], "Unknown tool: edit_rfc");
    assert_eq!(response["error"]["code"], -32602);
}

#[test]
fn tool_arguments_must_be_an_object() {
    let response = reply(
        r#"{"jsonrpc":"2.0","id":2,"method":"tools/call","params":{"name":"list_rfcs","arguments":[1]}}"#,
    );
    assert_eq!(response["error"]["message"], "Tool arguments must be an object");
}

#[test]
fn argument_errors_name_the_field() {
    let response = reply(
        r#"{"jsonrpc":"2.0","id":2,"method":"tools/call","params":{"name":"view_rfc","arguments":{}}}"#,
    );
    assert_eq!(response["error"]["message"], "Missing or invalid field: number");
    let response = reply(
        r#"{"jsonrpc":"2.0","id":2,"method":"tools/call","params":{"name":"list_rfcs","arguments":{"status":""}}}"#,
    );
    assert_eq!(response["error"]["message"], "Invalid field: status");
    let response = reply(
        r#"{"jsonrpc":"2.0","id":2,"method":"tools/call","params":{"name":"get_rfc_dependencies","arguments":{"number":"1","reverse":"yes"}}}"#,
    );
    assert_eq!(response["error"]["message"], "Invalid field: reverse");
}

#[test]
fn unnormalizable_number_is_invalid() {
    let response = reply(
        r#"{"jsonrpc":"2.0","id":2,"method":"tools/call","params":{"name":"get_rfc_status","arguments":{"number":"abc"}}}"#,
    );
    assert_eq!(response["error"]["code"], -32602);
    assert_eq!(response["error"]["message"], "Invalid RFC number: abc");
}

#[test]
fn ping_tool_answers_pong() {
    let (id, call) = planned(r#"{"jsonrpc":"2.0","id":9,"method":"tools/call","params":{"name":"ping"}}"#);
    let outcome = run_tool(call, ToolData::Nothing, &normalize);
    let text = Ok(serde_json::to_string(&to_value(outcome.as_ref().unwrap())).unwrap());
    let response = to_value(&tool_call_response(id, outcome, text));
    assert_eq!(response["result"]["structuredContent"], value(r#"{"ok":true,"message":"pong"}"#));
    assert_eq!(response["result"]["isError"], Value::Bool(false));
    assert_eq!(response["result"]["content"][0]["type"], "text");
}

#[test]
fn list_filters_by_status() {
    let all = structured(r#"{"jsonrpc":"2.0","id":1,"method":"tools/call","params":{"name":"list_rfcs"}}"#);
    assert_eq!(all["rfcs"].as_array().unwrap().len(), 3);
    let drafts = structured(
        r#"{"jsonrpc":"2.0","id":1,"method":"tools/call","params":{"name":"list_rfcs","arguments":{"status":"draft"}}}"#,
    );
    let drafts = drafts["rfcs"].as_array().unwrap();
    assert_eq!(drafts.len(), 2);
    assert_eq!(drafts[0]["number"], "0002");
    assert_eq!(drafts[1]["number"], "0003");
    assert_eq!(
        drafts[0],
        value(r#"{"number":"0002","title":"RFC-0002: next","status":"draft","dependencies":["RFC-0001","RFC-0009","RFC-x"],"superseded_by":null,"links":[]}"#)
    );
}

#[test]
fn status_of_known_and_unknown_rfc() {
    let found = structured(
        r#"{"jsonrpc":"2.0","id":1,"method":"tools/call","params":{"name":"get_rfc_status","arguments":{"number":"1"}}}"#,
    );
    assert_eq!(found, value(r#"{"number":"0001","status":"accepted"}"#));
    let missing = call_with_index(
        r#"{"jsonrpc":"2.0","id":1,"method":"tools/call","params":{"name":"get_rfc_status","arguments":{"number":"42"}}}"#,
        Ok(sample_index()),
    );
    assert_eq!(missing["error"]["code"], -32602);
    assert_eq!(missing["error"]["message"], "RFC-0042 not found.");
}

#[test]
fn forward_dependencies_resolve_references() {
    let deps = structured(
        r#"{"jsonrpc":"2.0","id":1,"method":"tools/call","params":{"name":"get_rfc_dependencies","arguments":{"number":"2"}}}"#,
    );
    assert_eq!(
        deps,
        value(
            r#"{"number":"0002","reverse":false,"dependencies":[
                {"number":"0001","title":"RFC-0001: base","status":"accepted"},
                {"reference":"RFC-0009","number":"0009","not_found":true},
                {"reference":"RFC-x","invalid":true}]}"#
        )
    );
}

#[test]
fn reverse_dependencies_list_dependents() {
    let deps = structured(
        r#"{"jsonrpc":"2.0","id":1,"method":"tools/call","params":{"name":"get_rfc_dependencies","arguments":{"number":"0001","reverse":true}}}"#,
    );
    assert_eq!(
        deps,
        value(
            r#"{"number":"0001","reverse":true,"dependencies":[
                {"number":"0002","title":"RFC-0002: next","status":"draft"},
                {"number":"0003","title":"RFC-0003: other","status":"draft"}]}"#
        )
    );
}

#[test]
fn dependencies_of_unknown_rfc_are_not_found() {
    let response = call_with_index(
        r#"{"jsonrpc":"2.0","id":1,"method":"tools/call","params":{"name":"get_rfc_dependencies","arguments":{"number":"7","reverse":true}}}"#,
        Ok(sample_index()),
    );
    assert_eq!(response["error"]["message"], "RFC-0007 not found.");
}

#[test]
fn index_errors_are_internal() {
    let response = call_with_index(
        r#"{"jsonrpc":"2.0","id":1,"method":"tools/call","params":{"name":"list_rfcs"}}"#,
        load_readonly_index(false, Ok(sample_index())),
    );
    assert_eq!(response["error"]["code"], -32603);
    assert_eq!(response["error"]["message"], "docs/rfcs/ not found. Run \"rfc-cli init\" first.");
    let response = call_with_index(
        r#"{"jsonrpc":"2.0","id":1,"method":"tools/call","params":{"name":"get_rfc_status","arguments":{"number":"1"}}}"#,
        load_readonly_index(true, Err("broken index".to_string())),
    );
    assert_eq!(response["error"]["code"], -32603);
    assert_eq!(response["error"]["message"], "broken index");
    assert!(load_readonly_index(true, Ok(sample_index())).is_ok());
}

#[test]
fn view_tool_reads_document() {
    let request = r#"{"jsonrpc":"2.0","id":4,"method":"tools/call","params":{"name":"view_rfc","arguments":{"number":"1"}}}"#;
    let (id, call) = planned(request);
    match &call {
        ToolCall::ViewRfc { number, normalized } => {
            assert_eq!(number, "1");
            assert_eq!(normalized, "0001");
        }
        _ => panic!("expected view_rfc"),
    }
    let outcome = run_tool(call, ToolData::Document(Ok(Some("# Hello\n".to_string()))), &normalize);
    let text = Ok(serde_json::to_string(&to_value(outcome.as_ref().unwrap())).unwrap());
    let response = to_value(&tool_call_response(id, outcome, text));
    assert_eq!(response["result"]["structuredContent"], value(r##"{"number":"0001","content":"# Hello\n"}"##));

    let (id, call) = planned(request);
    let outcome = run_tool(call, ToolData::Document(Ok(None)), &normalize);
    let response = to_value(&tool_call_response(id, outcome, Ok(String::new())));
    assert_eq!(response["error"]["message"], "RFC-0001 not found.");
    assert_eq!(response["error"]["code"], -32602);

    let (id, call) = planned(request);
    let outcome = run_tool(call, ToolData::Document(Err("Failed to read x".to_string())), &normalize);
    let response = to_value(&tool_call_response(id, outcome, Ok(String::new())));
    assert_eq!(response["error"]["code"], -32603);
}

#[test]
fn tool_errors_map_to_codes() {
    let r = to_value(&tool_call_response(Json::Number("5".to_string()), Err(invalid_params("bad".to_string())), Ok(String::new())));
    assert_eq!(r, value(r#"{"jsonrpc":"2.0","id":5,"error":{"code":-32602,"message":"bad"}}"#));
    let r = to_value(&tool_call_response(Json::Null, Err(internal("worse".to_string())), Ok(String::new())));
    assert_eq!(r, value(r#"{"jsonrpc":"2.0","id":null,"error":{"code":-32603,"message":"worse"}}"#));
    let r = to_value(&tool_call_response(Json::Null, Ok(Json::Null), Err("oops".to_string())));
    assert_eq!(r["error"]["message"], "Failed to serialize result: oops");
    assert_eq!(r["error"]["code"], -32603);
}

#[test]
fn response_echoes_request_id() {
    let response = reply(r#"{"jsonrpc":"2.0","id":{"k":[1,2]},"method":"ping"}"#);
    assert_eq!(response["id"], value(r#"{"k":[1,2]}"#));
    assert_eq!(response["jsonrpc"], "2.0");
}

#[test]
fn plan_checks_arguments_in_order() {
    let args = parse(r#"{"number":"","reverse":3}"#);
    match plan_tool("get_rfc_dependencies", &args, &normalize) {
        Err(ToolError::InvalidParams(m)) => assert_eq!(m, "Missing or invalid field: number"),
        _ => panic!("expected the number error first"),
    }
}

#[test]
fn server_turns_follow_the_stream() {
    assert!(matches!(execute(Incoming::End, &statuses(), &normalize), Turn::Stop(Ok(()))));
    match execute(Incoming::Unreadable("bad frame".to_string()), &statuses(), &normalize) {
        Turn::Stop(Err(m)) => assert_eq!(m, "bad frame"),
        _ => panic!("expected a stop"),
    }
    let turn = execute(Incoming::Request(parse(r#"{"jsonrpc":"2.0","method":"notifications/initialized"}"#)), &statuses(), &normalize);
    assert!(matches!(turn, Turn::Skip));
    let turn = execute(Incoming::Request(parse(r#"{"jsonrpc":"2.0","id":1,"method":"ping"}"#)), &statuses(), &normalize);
    assert!(matches!(turn, Turn::Answer(_)));
    let turn = execute(Incoming::Request(parse(r#"{"jsonrpc":"2.0","id":1}"#)), &statuses(), &normalize);
    assert!(matches!(turn, Turn::Stop(Err(_))));
    let turn = execute(
        Incoming::Request(parse(r#"{"jsonrpc":"2.0","id":1,"method":"tools/call","params":{"name":"ping"}}"#)),
        &statuses(),
        &normalize,
    );
    assert!(matches!(turn, Turn::Call { call: ToolCall::Ping, .. }));
}
