//! What the commands promise, stated over their inputs and results.
use vstd::prelude::*;

use crate::commands::init::{updated_config, McpConfigError};
use crate::commands::mcp::{
    lemma_tool_names, plan_spec, status_result, ToolCallV, ToolErrorV,
};
use crate::commands::mcp::{
    lemma_list_without_filter, list_json, schema_json, string_type, tool_json, tool_specs_json,
};
use crate::index::text_array;
use crate::commands::mcp::{
    initialize_json, readonly_index_result, request_method, request_spec, tool_response_json,
    view_result, DispatchV,
};
use crate::index::{find_entry, IndexV};
use crate::commands::mcp::{
    pong_json, run_spec, status_result as status_of, turn_spec, IncomingV, ToolDataV, TurnV,
};
use crate::text::{is_space, parse_usize, trim, IntError};
use crate::commands::mcp::{
    dependencies_result, lemma_dependents, lemma_list_with_filter, strip_rfc_prefix,
};
use crate::index::{dependency_json, entry_json, lemma_find_from, IndexEntryV};
use crate::json::{distinct_keys, get_field, lemma_lookup_distinct, JsonV};

verus! {

/// `init` refuses a `.mcp.json` exactly when it is not an object, or when its
/// `mcpServers` exists and is not an object; every other configuration is
/// updated.
pub proof fn lemma_update_fails_exactly(config: JsonV)
    ensures
        (updated_config(config) is Err) <==> (!(config is Object) || servers_not_object(config)),
        (updated_config(config) == Err::<JsonV, McpConfigError>(McpConfigError::NotAnObject)) <==> !(
        config is Object),
        (updated_config(config) == Err::<JsonV, McpConfigError>(
            McpConfigError::ServersNotAnObject,
        )) <==> (config is Object && servers_not_object(config)),
{
}

/// The configuration has an `mcpServers` field that is not an object.
pub open spec fn servers_not_object(config: JsonV) -> bool {
    match get_field(config, "mcpServers"@) {
        Some(servers) => !(servers is Object),
        None => false,
    }
}

/// `get_rfc_status` succeeds exactly when the index holds an RFC with the
/// normalised number, and then reports that number with the status of the
/// first such RFC; otherwise it says the RFC was not found.
pub proof fn lemma_status_reports_matching_rfc(normalized: Seq<char>, entries: Seq<IndexEntryV>)
    ensures
        (status_result(normalized, entries) is Ok) <==> (exists|i: int|
            0 <= i < entries.len() && (#[trigger] entries[i]).number == normalized),
        forall|i: int|
            0 <= i < entries.len() && (#[trigger] entries[i]).number == normalized && (forall|k: int|
                0 <= k < i ==> entries[k].number != normalized) ==> status_result(normalized, entries)
                == Ok::<JsonV, ToolErrorV>(
                JsonV::Object(
                    seq![
                        ("number"@, JsonV::Str(normalized)),
                        ("status"@, JsonV::Str(entries[i].status)),
                    ],
                ),
            ),
        (status_result(normalized, entries) is Err) ==> status_result(normalized, entries) == Err::<
            JsonV,
            ToolErrorV,
        >(ToolErrorV::InvalidParams("RFC-"@ + normalized + " not found."@)),
{
    lemma_find_from(entries, normalized, 0);
    assert forall|i: int|
        0 <= i < entries.len() && (#[trigger] entries[i]).number == normalized && (forall|k: int|
            0 <= k < i ==> entries[k].number != normalized) implies status_result(normalized, entries)
        == Ok::<JsonV, ToolErrorV>(
        JsonV::Object(
            seq![("number"@, JsonV::Str(normalized)), ("status"@, JsonV::Str(entries[i].status))],
        ),
    ) by {
        let k = crate::index::find_entry(entries, normalized)->Some_0;
        if k < i {
        } else if k > i {
        }
    }
}

/// The argument `key` is a non-empty string.
pub open spec fn has_text(arguments: JsonV, key: Seq<char>) -> bool {
    match get_field(arguments, key) {
        Some(JsonV::Str(s)) => s.len() > 0,
        _ => false,
    }
}

/// The string that the argument `key` holds (empty where it holds none).
pub open spec fn text_of(arguments: JsonV, key: Seq<char>) -> Seq<char> {
    match get_field(arguments, key) {
        Some(JsonV::Str(s)) => s,
        _ => Seq::empty(),
    }
}

/// The argument `key` is absent or a boolean.
pub open spec fn flag_or_absent(arguments: JsonV, key: Seq<char>) -> bool {
    match get_field(arguments, key) {
        None => true,
        Some(JsonV::Bool(_)) => true,
        _ => false,
    }
}

/// The argument `key` is absent or a non-empty string.
pub open spec fn text_or_absent(arguments: JsonV, key: Seq<char>) -> bool {
    get_field(arguments, key) is None || has_text(arguments, key)
}

/// The `get_rfc_dependencies` call that checking plans: it is planned
/// exactly when the arguments are an object with a non-empty `number`
/// string, `reverse` is absent or a boolean, and the number normalises;
/// then it is for the normalised number, and lists the reverse dependencies
/// exactly when `reverse` is `true`.
pub proof fn lemma_plan_dependencies(arguments: JsonV, n: Result<Seq<char>, Seq<char>>)
    ensures
        (plan_spec("get_rfc_dependencies"@, arguments, n) is Ok) <==> (arguments is Object
            && has_text(arguments, "number"@) && flag_or_absent(arguments, "reverse"@) && n is Ok),
        (plan_spec("get_rfc_dependencies"@, arguments, n) is Ok) ==> plan_spec(
            "get_rfc_dependencies"@,
            arguments,
            n,
        )->Ok_0 == (ToolCallV::GetRfcDependencies {
            normalized: n->Ok_0,
            reverse: get_field(arguments, "reverse"@) == Some(JsonV::Bool(true)),
        }),
{
    lemma_tool_names();
}

/// The `view_rfc` and `get_rfc_status` calls that checking plans: planned
/// exactly when the arguments are an object with a non-empty `number` string
/// that normalises; `view_rfc` keeps the number as given beside the
/// normalised one, and a number that does not normalise is answered with
/// the normaliser's message.
pub proof fn lemma_plan_number_tools(arguments: JsonV, n: Result<Seq<char>, Seq<char>>)
    ensures
        (plan_spec("view_rfc"@, arguments, n) is Ok) <==> (arguments is Object && has_text(
            arguments,
            "number"@,
        ) && n is Ok),
        (plan_spec("get_rfc_status"@, arguments, n) is Ok) <==> (arguments is Object && has_text(
            arguments,
            "number"@,
        ) && n is Ok),
        (plan_spec("view_rfc"@, arguments, n) is Ok) ==> plan_spec("view_rfc"@, arguments, n)->Ok_0
            == (ToolCallV::ViewRfc { number: text_of(arguments, "number"@), normalized: n->Ok_0 }),
        (plan_spec("get_rfc_status"@, arguments, n) is Ok) ==> plan_spec(
            "get_rfc_status"@,
            arguments,
            n,
        )->Ok_0 == (ToolCallV::GetRfcStatus { normalized: n->Ok_0 }),
        (arguments is Object && has_text(arguments, "number"@) && n is Err) ==> plan_spec(
            "get_rfc_status"@,
            arguments,
            n,
        ) == Err::<ToolCallV, ToolErrorV>(ToolErrorV::InvalidParams(n->Err_0)),
{
    lemma_tool_names();
}

/// The `list_rfcs` call that checking plans: planned exactly when the
/// arguments are an object whose `status` is absent or a non-empty string,
/// and then filtered by that status when it is given.
pub proof fn lemma_plan_list(arguments: JsonV, n: Result<Seq<char>, Seq<char>>)
    ensures
        (plan_spec("list_rfcs"@, arguments, n) is Ok) <==> (arguments is Object && text_or_absent(
            arguments,
            "status"@,
        )),
        (plan_spec("list_rfcs"@, arguments, n) is Ok) ==> plan_spec("list_rfcs"@, arguments, n)->Ok_0
            == (ToolCallV::ListRfcs {
            status: if has_text(arguments, "status"@) {
                Some(text_of(arguments, "status"@))
            } else {
                None
            },
        }),
{
    lemma_tool_names();
}

/// A list of texts as a JSON array of strings, in order.
pub open spec fn strings_json(texts: Seq<Seq<char>>) -> JsonV {
    JsonV::Array(Seq::new(texts.len(), |i: int| JsonV::Str(texts[i])))
}

proof fn lemma_entry_keys()
    ensures
        "number"@ != "title"@,
        "number"@ != "status"@,
        "number"@ != "dependencies"@,
        "number"@ != "superseded_by"@,
        "number"@ != "links"@,
        "title"@ != "status"@,
        "title"@ != "dependencies"@,
        "title"@ != "superseded_by"@,
        "title"@ != "links"@,
        "status"@ != "dependencies"@,
        "status"@ != "superseded_by"@,
        "status"@ != "links"@,
        "dependencies"@ != "superseded_by"@,
        "dependencies"@ != "links"@,
        "superseded_by"@ != "links"@,
{
    reveal_strlit("number");
    reveal_strlit("title");
    reveal_strlit("status");
    reveal_strlit("dependencies");
    reveal_strlit("superseded_by");
    reveal_strlit("links");
    assert("number"@.len() == 6 && "title"@.len() == 5 && "status"@.len() == 6);
    assert("dependencies"@.len() == 12 && "superseded_by"@.len() == 13 && "links"@.len() == 5);
    assert("number"@[0] != "status"@[0]);
    assert("title"@[0] != "links"@[0]);
}

/// What `list_rfcs` reports of an RFC is the RFC's own data: its number,
/// title, status, dependencies, successor (null only where it has none) and
/// links.
pub proof fn lemma_entry_json_fields(e: IndexEntryV)
    ensures
        get_field(entry_json(e), "number"@) == Some(JsonV::Str(e.number)),
        get_field(entry_json(e), "title"@) == Some(JsonV::Str(e.title)),
        get_field(entry_json(e), "status"@) == Some(JsonV::Str(e.status)),
        get_field(entry_json(e), "dependencies"@) == Some(strings_json(e.dependencies)),
        get_field(entry_json(e), "superseded_by"@) == Some(
            match e.superseded_by {
                Some(s) => JsonV::Str(s),
                None => JsonV::Null,
            },
        ),
        get_field(entry_json(e), "links"@) == Some(strings_json(e.links)),
{
    lemma_entry_keys();
    let f = entry_json(e)->Object_0;
    assert(distinct_keys(f));
    lemma_lookup_distinct(f, 0);
    lemma_lookup_distinct(f, 1);
    lemma_lookup_distinct(f, 2);
    lemma_lookup_distinct(f, 3);
    lemma_lookup_distinct(f, 4);
    lemma_lookup_distinct(f, 5);
}

/// What a dependency listing reports of an RFC is its number, title and
/// status.
pub proof fn lemma_dependency_json_fields(e: IndexEntryV)
    ensures
        get_field(dependency_json(e), "number"@) == Some(JsonV::Str(e.number)),
        get_field(dependency_json(e), "title"@) == Some(JsonV::Str(e.title)),
        get_field(dependency_json(e), "status"@) == Some(JsonV::Str(e.status)),
{
    lemma_entry_keys();
    let f = dependency_json(e)->Object_0;
    assert(distinct_keys(f));
    lemma_lookup_distinct(f, 0);
    lemma_lookup_distinct(f, 1);
    lemma_lookup_distinct(f, 2);
}

/// Without a filter, `list_rfcs` reports every RFC of the index, in index
/// order, each with its own data.
pub proof fn lemma_list_reports_every_rfc(entries: Seq<IndexEntryV>)
    ensures
        get_field(list_json(entries, None), "rfcs"@) matches Some(JsonV::Array(items)) && items.len()
            == entries.len() && forall|i: int|
            0 <= i < entries.len() ==> get_field(#[trigger] items[i], "superseded_by"@) == Some(
                match entries[i].superseded_by {
                    Some(s) => JsonV::Str(s),
                    None => JsonV::Null,
                },
            ) && get_field(items[i], "number"@) == Some(JsonV::Str(entries[i].number))
                && get_field(items[i], "status"@) == Some(JsonV::Str(entries[i].status))
                && get_field(items[i], "title"@) == Some(JsonV::Str(entries[i].title)),
{
    lemma_list_without_filter(entries);
    let f = list_json(entries, None)->Object_0;
    assert(distinct_keys(f));
    lemma_lookup_distinct(f, 0);
    let items = f[0].1->Array_0;
    assert forall|i: int| 0 <= i < entries.len() implies get_field(#[trigger] items[i], "superseded_by"@)
        == Some(
        match entries[i].superseded_by {
            Some(s) => JsonV::Str(s),
            None => JsonV::Null,
        },
    ) && get_field(items[i], "number"@) == Some(JsonV::Str(entries[i].number)) && get_field(
        items[i],
        "status"@,
    ) == Some(JsonV::Str(entries[i].status)) && get_field(items[i], "title"@) == Some(
        JsonV::Str(entries[i].title),
    ) by {
        lemma_entry_json_fields(entries[i]);
    }
}

/// The field `key` of a value (null where there is none).
pub open spec fn member(value: JsonV, key: Seq<char>) -> JsonV {
    match get_field(value, key) {
        Some(v) => v,
        None => JsonV::Null,
    }
}

/// How the tool `tool` describes its argument `argument` in `tools/list`.
pub open spec fn argument_schema(tool: JsonV, argument: Seq<char>) -> JsonV {
    member(member(member(tool, "inputSchema"@), "properties"@), argument)
}

/// The type that the tool's schema gives its argument.
pub open spec fn argument_type(tool: JsonV, argument: Seq<char>) -> JsonV {
    member(argument_schema(tool, argument), "type"@)
}

/// The tool's schema admits no argument beyond its properties.
pub open spec fn closed_schema(tool: JsonV) -> bool {
    member(member(tool, "inputSchema"@), "additionalProperties"@) == JsonV::Bool(false)
}

/// The tool's schema requires exactly the `number` argument.
pub open spec fn requires_number(tool: JsonV) -> bool {
    member(member(tool, "inputSchema"@), "required"@) == JsonV::Array(seq![JsonV::Str("number"@)])
}

proof fn lemma_schema_keys()
    ensures
        "name"@ != "description"@,
        "name"@ != "inputSchema"@,
        "description"@ != "inputSchema"@,
        "type"@ != "properties"@,
        "type"@ != "required"@,
        "type"@ != "additionalProperties"@,
        "properties"@ != "required"@,
        "properties"@ != "additionalProperties"@,
        "required"@ != "additionalProperties"@,
        "number"@ != "reverse"@,
        "type"@ != "enum"@,
{
    reveal_strlit("name");
    reveal_strlit("description");
    reveal_strlit("inputSchema");
    reveal_strlit("type");
    reveal_strlit("properties");
    reveal_strlit("required");
    reveal_strlit("additionalProperties");
    reveal_strlit("number");
    reveal_strlit("reverse");
    reveal_strlit("enum");
    assert("name"@.len() == 4 && "description"@.len() == 11 && "inputSchema"@.len() == 11);
    assert("description"@[0] != "inputSchema"@[0]);
    assert("type"@.len() == 4 && "properties"@.len() == 10 && "required"@.len() == 8);
    assert("additionalProperties"@.len() == 20 && "number"@.len() == 6 && "reverse"@.len() == 7);
    assert("enum"@[0] != "type"@[0]);
}

proof fn lemma_tool_members(
    name: Seq<char>,
    description: Seq<char>,
    properties: Seq<(Seq<char>, JsonV)>,
    required: Seq<Seq<char>>,
)
    ensures
        member(tool_json(name, description, schema_json(properties, required)), "name"@)
            == JsonV::Str(name),
        member(tool_json(name, description, schema_json(properties, required)), "inputSchema"@)
            == schema_json(properties, required),
        member(schema_json(properties, required), "properties"@) == JsonV::Object(properties),
        member(schema_json(properties, required), "additionalProperties"@) == JsonV::Bool(false),
        required.len() > 0 ==> member(schema_json(properties, required), "required"@) == text_array(
            required,
        ),
{
    lemma_schema_keys();
    let t = tool_json(name, description, schema_json(properties, required))->Object_0;
    assert(distinct_keys(t));
    lemma_lookup_distinct(t, 0);
    lemma_lookup_distinct(t, 2);
    let f = schema_json(properties, required)->Object_0;
    if required.len() == 0 {
        assert(f =~= seq![
            ("type"@, JsonV::Str("object"@)),
            ("properties"@, JsonV::Object(properties)),
            ("additionalProperties"@, JsonV::Bool(false)),
        ]);
        assert(distinct_keys(f));
        lemma_lookup_distinct(f, 1);
        lemma_lookup_distinct(f, 2);
    } else {
        assert(f =~= seq![
            ("type"@, JsonV::Str("object"@)),
            ("properties"@, JsonV::Object(properties)),
            ("required"@, text_array(required)),
            ("additionalProperties"@, JsonV::Bool(false)),
        ]);
        assert(distinct_keys(f));
        lemma_lookup_distinct(f, 1);
        lemma_lookup_distinct(f, 2);
        lemma_lookup_distinct(f, 3);
    }
}

/// `tools/list` offers the five tools, and the schema of each names every
/// argument that the tool reads, with the type that the tool accepts, and
/// admits no other: `list_rfcs` a string `status` from `statuses`,
/// `view_rfc` and `get_rfc_status` a required string `number`, and
/// `get_rfc_dependencies` a required string `number` and a boolean
/// `reverse`.
pub proof fn lemma_tool_schemas(statuses: Seq<Seq<char>>)
    ensures
        tool_specs_json(statuses).len() == 5,
        member(tool_specs_json(statuses)[0], "name"@) == JsonV::Str("ping"@),
        member(tool_specs_json(statuses)[1], "name"@) == JsonV::Str("list_rfcs"@),
        member(tool_specs_json(statuses)[2], "name"@) == JsonV::Str("view_rfc"@),
        member(tool_specs_json(statuses)[3], "name"@) == JsonV::Str("get_rfc_status"@),
        member(tool_specs_json(statuses)[4], "name"@) == JsonV::Str("get_rfc_dependencies"@),
        forall|i: int| 0 <= i < 5 ==> closed_schema(#[trigger] tool_specs_json(statuses)[i]),
        argument_type(tool_specs_json(statuses)[1], "status"@) == JsonV::Str("string"@),
        member(argument_schema(tool_specs_json(statuses)[1], "status"@), "enum"@) == text_array(
            statuses,
        ),
        argument_type(tool_specs_json(statuses)[2], "number"@) == JsonV::Str("string"@),
        requires_number(tool_specs_json(statuses)[2]),
        argument_type(tool_specs_json(statuses)[3], "number"@) == JsonV::Str("string"@),
        requires_number(tool_specs_json(statuses)[3]),
        argument_type(tool_specs_json(statuses)[4], "number"@) == JsonV::Str("string"@),
        argument_type(tool_specs_json(statuses)[4], "reverse"@) == JsonV::Str("boolean"@),
        requires_number(tool_specs_json(statuses)[4]),
{
    lemma_schema_keys();
    let tools = tool_specs_json(statuses);
    let empty_props: Seq<(Seq<char>, JsonV)> = Seq::empty();
    let none: Seq<Seq<char>> = Seq::empty();
    let status_schema = JsonV::Object(
        seq![("type"@, JsonV::Str("string"@)), ("enum"@, text_array(statuses))],
    );
    let list_props = seq![("status"@, status_schema)];
    let number_props = seq![("number"@, string_type())];
    let dep_props = seq![
        ("number"@, string_type()),
        ("reverse"@, JsonV::Object(seq![("type"@, JsonV::Str("boolean"@))])),
    ];
    let req = seq!["number"@];
    lemma_tool_members("ping"@, "Health check for the RFC MCP server."@, empty_props, none);
    lemma_tool_members("list_rfcs"@, "List RFCs, optionally filtered by status."@, list_props, none);
    lemma_tool_members(
        "view_rfc"@,
        "Read the complete Markdown content of an RFC."@,
        number_props,
        req,
    );
    lemma_tool_members("get_rfc_status"@, "Get the current status of an RFC."@, number_props, req);
    lemma_tool_members(
        "get_rfc_dependencies"@,
        "Get forward or reverse dependencies of an RFC."@,
        dep_props,
        req,
    );
    assert(distinct_keys(list_props));
    lemma_lookup_distinct(list_props, 0);
    assert(distinct_keys(status_schema->Object_0));
    lemma_lookup_distinct(status_schema->Object_0, 0);
    lemma_lookup_distinct(status_schema->Object_0, 1);
    assert(distinct_keys(number_props));
    lemma_lookup_distinct(number_props, 0);
    assert(distinct_keys(dep_props));
    lemma_lookup_distinct(dep_props, 0);
    lemma_lookup_distinct(dep_props, 1);
    let st = string_type()->Object_0;
    assert(distinct_keys(st));
    lemma_lookup_distinct(st, 0);
    let bt = seq![("type"@, JsonV::Str("boolean"@))];
    assert(distinct_keys(bt));
    lemma_lookup_distinct(bt, 0);
    assert(text_array(req) =~= JsonV::Array(seq![JsonV::Str("number"@)])) by {
        assert(text_array(req)->Array_0 =~= seq![JsonV::Str("number"@)]);
    }
    assert forall|i: int| 0 <= i < 5 implies closed_schema(#[trigger] tools[i]) by {}
}

proof fn lemma_response_keys()
    ensures
        "jsonrpc"@ != "id"@,
        "jsonrpc"@ != "result"@,
        "jsonrpc"@ != "error"@,
        "id"@ != "result"@,
        "id"@ != "error"@,
        "result"@ != "error"@,
        "code"@ != "message"@,
        "content"@ != "structuredContent"@,
        "content"@ != "isError"@,
        "structuredContent"@ != "isError"@,
        "type"@ != "text"@,
        "protocolVersion"@ != "capabilities"@,
        "protocolVersion"@ != "serverInfo"@,
        "capabilities"@ != "serverInfo"@,
        "name"@ != "version"@,
        "number"@ != "content"@,
{
    reveal_strlit("jsonrpc");
    reveal_strlit("id");
    reveal_strlit("result");
    reveal_strlit("error");
    reveal_strlit("code");
    reveal_strlit("message");
    reveal_strlit("content");
    reveal_strlit("structuredContent");
    reveal_strlit("isError");
    reveal_strlit("type");
    reveal_strlit("text");
    reveal_strlit("protocolVersion");
    reveal_strlit("capabilities");
    reveal_strlit("serverInfo");
    reveal_strlit("name");
    reveal_strlit("version");
    reveal_strlit("number");
    assert("jsonrpc"@.len() == 7 && "id"@.len() == 2 && "result"@.len() == 6 && "error"@.len()
        == 5);
    assert("code"@.len() == 4 && "message"@.len() == 7);
    assert("content"@.len() == 7 && "structuredContent"@.len() == 17 && "isError"@.len() == 7);
    assert("content"@[0] != "isError"@[0]);
    assert("type"@[1] != "text"@[1]);
    assert("protocolVersion"@.len() == 15 && "capabilities"@.len() == 12 && "serverInfo"@.len()
        == 10);
    assert("name"@.len() == 4 && "version"@.len() == 7);
    assert("number"@.len() == 6);
}

/// The parts of a JSON-RPC response.
proof fn lemma_response_parts(id: JsonV, body_key: Seq<char>, body: JsonV)
    requires
        body_key == "result"@ || body_key == "error"@,
    ensures
        ({
            let r = JsonV::Object(
                seq![("jsonrpc"@, JsonV::Str("2.0"@)), ("id"@, id), (body_key, body)],
            );
            &&& member(r, body_key) == body
            &&& body_key == "result"@ ==> get_field(r, "error"@) is None
            &&& body_key == "error"@ ==> get_field(r, "result"@) is None
        }),
{
    lemma_response_keys();
    let f = seq![("jsonrpc"@, JsonV::Str("2.0"@)), ("id"@, id), (body_key, body)];
    assert(distinct_keys(f));
    lemma_lookup_distinct(f, 2);
    if body_key == "result"@ {
        assert forall|j: int| 0 <= j < f.len() implies f[j].0 != "error"@ by {}
        crate::json::lemma_lookup_absent(f, "error"@);
    } else {
        assert forall|j: int| 0 <= j < f.len() implies f[j].0 != "result"@ by {}
        crate::json::lemma_lookup_absent(f, "result"@);
    }
}

proof fn lemma_error_parts(code: int, message: Seq<char>)
    ensures
        ({
            let e = JsonV::Object(
                seq![
                    ("code"@, JsonV::Number(crate::text::int_text(code))),
                    ("message"@, JsonV::Str(message)),
                ],
            );
            &&& member(e, "code"@) == JsonV::Number(crate::text::int_text(code))
            &&& member(e, "message"@) == JsonV::Str(message)
        }),
{
    lemma_response_keys();
    let f = seq![
        ("code"@, JsonV::Number(crate::text::int_text(code))),
        ("message"@, JsonV::Str(message)),
    ];
    assert(distinct_keys(f));
    lemma_lookup_distinct(f, 0);
    lemma_lookup_distinct(f, 1);
}

/// The code of an error response.
pub open spec fn error_code(response: JsonV) -> JsonV {
    member(member(response, "error"@), "code"@)
}

/// The message of an error response.
pub open spec fn error_message(response: JsonV) -> JsonV {
    member(member(response, "error"@), "message"@)
}

/// The answer to a tool call: a successful call returns its structured
/// result, with its JSON text as the only content item and `isError` false;
/// a call refused for its arguments is a -32602 error and one that failed
/// inside, or whose result could not be written as text, a -32603 error,
/// each with the failure's message.
pub proof fn lemma_tool_response_content(
    id: JsonV,
    outcome: Result<JsonV, ToolErrorV>,
    serialized: Result<Seq<char>, Seq<char>>,
)
    ensures
        ({
            let r = tool_response_json(id, outcome, serialized);
            &&& (outcome is Ok && serialized is Ok) ==> {
                &&& get_field(r, "error"@) is None
                &&& member(member(r, "result"@), "structuredContent"@) == outcome->Ok_0
                &&& member(member(r, "result"@), "isError"@) == JsonV::Bool(false)
                &&& member(member(r, "result"@), "content"@) == JsonV::Array(
                    seq![
                        JsonV::Object(
                            seq![
                                ("type"@, JsonV::Str("text"@)),
                                ("text"@, JsonV::Str(serialized->Ok_0)),
                            ],
                        ),
                    ],
                )
            }
            &&& (outcome is Ok && serialized is Err) ==> {
                &&& get_field(r, "result"@) is None
                &&& error_code(r) == JsonV::Number(crate::text::int_text(-32603))
                &&& error_message(r) == JsonV::Str(
                    "Failed to serialize result: "@ + serialized->Err_0,
                )
            }
            &&& outcome matches Err(ToolErrorV::InvalidParams(m)) ==> {
                &&& get_field(r, "result"@) is None
                &&& error_code(r) == JsonV::Number(crate::text::int_text(-32602))
                &&& error_message(r) == JsonV::Str(m)
            }
            &&& outcome matches Err(ToolErrorV::Internal(m)) ==> {
                &&& get_field(r, "result"@) is None
                &&& error_code(r) == JsonV::Number(crate::text::int_text(-32603))
                &&& error_message(r) == JsonV::Str(m)
            }
        }),
{
    lemma_response_keys();
    let r = tool_response_json(id, outcome, serialized);
    let body = r->Object_0[2].1;
    match outcome {
        Ok(structured) => match serialized {
            Ok(t) => {
                lemma_response_parts(id, "result"@, body);
                let f = body->Object_0;
                assert(distinct_keys(f));
                lemma_lookup_distinct(f, 0);
                lemma_lookup_distinct(f, 1);
                lemma_lookup_distinct(f, 2);
            },
            Err(e) => {
                lemma_response_parts(id, "error"@, body);
                lemma_error_parts(-32603, "Failed to serialize result: "@ + e);
            },
        },
        Err(ToolErrorV::InvalidParams(m)) => {
            lemma_response_parts(id, "error"@, body);
            lemma_error_parts(-32602, m);
        },
        Err(ToolErrorV::Internal(m)) => {
            lemma_response_parts(id, "error"@, body);
            lemma_error_parts(-32603, m);
        },
    }
}

/// How each method is answered: `initialize` with the protocol version and
/// the server's name and version, `ping` with an empty result, `tools/list`
/// with the tools, and any method the server does not know with a -32601
/// error that names it; a request without a method is refused.
pub proof fn lemma_methods_answered(
    request: JsonV,
    statuses: Seq<Seq<char>>,
    n: Result<Seq<char>, Seq<char>>,
)
    ensures
        request_method(request) is None ==> request_spec(request, statuses, n) == Err::<
            Option<DispatchV>,
            Seq<char>,
        >("MCP message missing method"@),
        ({
            let r = request_spec(request, statuses, n);
            let m = request_method(request)->Some_0;
            (request_method(request) is Some && get_field(request, "id"@) is Some) ==> {
                &&& m == "initialize"@ ==> {
                    &&& r->Ok_0->Some_0 is Reply
                    &&& member(member(r->Ok_0->Some_0->Reply_0, "result"@), "protocolVersion"@)
                        == JsonV::Str("2024-11-05"@)
                    &&& member(
                        member(member(r->Ok_0->Some_0->Reply_0, "result"@), "serverInfo"@),
                        "name"@,
                    ) == JsonV::Str("rfc-cli"@)
                    &&& member(
                        member(member(r->Ok_0->Some_0->Reply_0, "result"@), "serverInfo"@),
                        "version"@,
                    ) == JsonV::Str("0.1.4"@)
                }
                &&& m == "ping"@ ==> r->Ok_0->Some_0 is Reply && member(
                    r->Ok_0->Some_0->Reply_0,
                    "result"@,
                ) == JsonV::Object(Seq::empty())
                &&& m == "tools/list"@ ==> r->Ok_0->Some_0 is Reply && member(
                    member(r->Ok_0->Some_0->Reply_0, "result"@),
                    "tools"@,
                ) == JsonV::Array(tool_specs_json(statuses))
                &&& (m != "initialize"@ && m != "ping"@ && m != "tools/list"@ && m
                    != "tools/call"@) ==> {
                    &&& r->Ok_0->Some_0 is Reply
                    &&& error_code(r->Ok_0->Some_0->Reply_0) == JsonV::Number(
                        crate::text::int_text(-32601),
                    )
                    &&& error_message(r->Ok_0->Some_0->Reply_0) == JsonV::Str(
                        "Method not found: "@ + m,
                    )
                }
            }
        }),
{
    crate::commands::mcp::lemma_method_names();
    lemma_response_keys();
    reveal_strlit("tools");
    if request_method(request) is Some && get_field(request, "id"@) is Some {
        let id = get_field(request, "id"@)->Some_0;
        let m = request_method(request)->Some_0;
        if m == "initialize"@ {
            lemma_response_parts(id, "result"@, initialize_json());
            let f = initialize_json()->Object_0;
            assert(distinct_keys(f));
            lemma_lookup_distinct(f, 0);
            lemma_lookup_distinct(f, 2);
            let info = f[2].1->Object_0;
            assert(distinct_keys(info));
            lemma_lookup_distinct(info, 0);
            lemma_lookup_distinct(info, 1);
        } else if m == "ping"@ {
            lemma_response_parts(id, "result"@, JsonV::Object(Seq::empty()));
        } else if m == "tools/list"@ {
            let body = JsonV::Object(seq![("tools"@, JsonV::Array(tool_specs_json(statuses)))]);
            lemma_response_parts(id, "result"@, body);
            lemma_lookup_distinct(body->Object_0, 0);
        } else if m != "tools/call"@ {
            let body = JsonV::Object(
                seq![
                    ("code"@, JsonV::Number(crate::text::int_text(-32601))),
                    ("message"@, JsonV::Str("Method not found: "@ + m)),
                ],
            );
            lemma_response_parts(id, "error"@, body);
            lemma_error_parts(-32601, "Method not found: "@ + m);
        }
    }
}

/// The index the read-only tools work on is the loaded one exactly when the
/// project has `docs/rfcs/` and loading it succeeded; otherwise the failure
/// is internal, with the loader's message or the advice to run `init`.
pub proof fn lemma_readonly_index(rfcs_dir_exists: bool, loaded: Result<IndexV, Seq<char>>)
    ensures
        (readonly_index_result(rfcs_dir_exists, loaded) is Ok) <==> (rfcs_dir_exists && loaded is Ok),
        (readonly_index_result(rfcs_dir_exists, loaded) is Ok) ==> readonly_index_result(
            rfcs_dir_exists,
            loaded,
        )->Ok_0 == loaded->Ok_0,
        (rfcs_dir_exists && loaded is Err) ==> readonly_index_result(rfcs_dir_exists, loaded)
            == Err::<IndexV, ToolErrorV>(ToolErrorV::Internal(loaded->Err_0)),
        !rfcs_dir_exists ==> readonly_index_result(rfcs_dir_exists, loaded) == Err::<
            IndexV,
            ToolErrorV,
        >(ToolErrorV::Internal("docs/rfcs/ not found. Run \"rfc-cli init\" first."@)),
{
}

/// `view_rfc` answers with the normalised number and the file's content,
/// says the RFC was not found where there is no file, and reports a file
/// that could not be read as an internal failure.
pub proof fn lemma_view_reports_document(
    normalized: Seq<char>,
    document: Result<Option<Seq<char>>, Seq<char>>,
)
    ensures
        document matches Ok(Some(content)) ==> view_result(normalized, document) is Ok && member(
            view_result(normalized, document)->Ok_0,
            "content"@,
        ) == JsonV::Str(content) && member(view_result(normalized, document)->Ok_0, "number"@)
            == JsonV::Str(normalized),
        document == Ok::<Option<Seq<char>>, Seq<char>>(None) ==> view_result(normalized, document)
            == Err::<JsonV, ToolErrorV>(
            ToolErrorV::InvalidParams("RFC-"@ + normalized + " not found."@),
        ),
        document matches Err(m) ==> view_result(normalized, document) == Err::<JsonV, ToolErrorV>(
            ToolErrorV::Internal(m),
        ),
{
    lemma_response_keys();
    match document {
        Ok(Some(content)) => {
            let f = view_result(normalized, document)->Ok_0->Object_0;
            assert(distinct_keys(f));
            lemma_lookup_distinct(f, 0);
            lemma_lookup_distinct(f, 1);
        },
        _ => {},
    }
}

proof fn lemma_dependency_keys()
    ensures
        "number"@ != "reverse"@,
        "number"@ != "dependencies"@,
        "reverse"@ != "dependencies"@,
        "reference"@ != "number"@,
        "reference"@ != "not_found"@,
        "number"@ != "not_found"@,
        "reference"@ != "invalid"@,
{
    reveal_strlit("number");
    reveal_strlit("reverse");
    reveal_strlit("dependencies");
    reveal_strlit("reference");
    reveal_strlit("not_found");
    reveal_strlit("invalid");
    assert("number"@.len() == 6 && "reverse"@.len() == 7 && "dependencies"@.len() == 12);
    assert("reference"@.len() == 9 && "not_found"@.len() == 9 && "invalid"@.len() == 7);
    assert("reference"@[0] != "not_found"@[0]);
}

/// A reference without its `RFC-` prefix: `RFC-x` gives `x`, and a text
/// that does not start with `RFC-` is kept.
pub proof fn lemma_strip_rfc_prefix(x: Seq<char>)
    ensures
        strip_rfc_prefix("RFC-"@ + x) == x,
        !("RFC-"@.is_prefix_of(x)) ==> strip_rfc_prefix(x) == x,
{
    reveal_strlit("RFC-");
    assert(("RFC-"@ + x).take(4) =~= "RFC-"@);
    assert(("RFC-"@ + x).skip(4) =~= x);
    if x.len() >= 4 && x.take(4) == "RFC-"@ {
        assert forall|i: int| 0 <= i < 4 implies "RFC-"@[i] == x[i] by {
            assert(x.take(4)[i] == x[i]);
        }
    }
}

/// `get_rfc_dependencies` succeeds exactly when the index holds an RFC with
/// the normalised number, and answers with that number and the direction
/// asked for. The reverse listing holds exactly the RFCs that list
/// `RFC-<number>` among their dependencies. The forward listing has one
/// item per dependency of the first RFC with that number, in order: the
/// RFC that the normalised reference names where the index has one, a
/// `not_found` item with the normalised number where it has none, and an
/// `invalid` item where the reference does not normalise.
pub proof fn lemma_dependencies_listing(
    normalized: Seq<char>,
    reverse: bool,
    entries: Seq<IndexEntryV>,
    outs: Seq<Result<Seq<char>, Seq<char>>>,
)
    ensures
        (dependencies_result(normalized, reverse, entries, outs) is Ok) <==> (exists|i: int|
            0 <= i < entries.len() && (#[trigger] entries[i]).number == normalized),
        (dependencies_result(normalized, reverse, entries, outs) is Err) ==> dependencies_result(
            normalized,
            reverse,
            entries,
            outs,
        ) == Err::<JsonV, ToolErrorV>(
            ToolErrorV::InvalidParams("RFC-"@ + normalized + " not found."@),
        ),
        ({
            let r = dependencies_result(normalized, reverse, entries, outs);
            let items = member(r->Ok_0, "dependencies"@)->Array_0;
            (r is Ok) ==> {
                &&& member(r->Ok_0, "number"@) == JsonV::Str(normalized)
                &&& member(r->Ok_0, "reverse"@) == JsonV::Bool(reverse)
                &&& member(r->Ok_0, "dependencies"@) is Array
                &&& reverse ==> forall|j: int|
                    0 <= j < items.len() ==> exists|i: int|
                        0 <= i < entries.len() && entries[i].dependencies.contains(
                            "RFC-"@ + normalized,
                        ) && #[trigger] items[j] == dependency_json(entries[i])
                &&& reverse ==> forall|i: int|
                    0 <= i < entries.len() && (#[trigger] entries[i]).dependencies.contains(
                        "RFC-"@ + normalized,
                    ) ==> items.contains(dependency_json(entries[i]))
            }
        }),
        forall|k: int|
            0 <= k < entries.len() && (#[trigger] entries[k]).number == normalized && (forall|m: int|
                0 <= m < k ==> entries[m].number != normalized) && !reverse ==> {
                let items = member(
                    dependencies_result(normalized, reverse, entries, outs)->Ok_0,
                    "dependencies"@,
                )->Array_0;
                let refs = entries[k].dependencies;
                &&& items.len() == refs.len()
                &&& forall|q: int, i: int|
                    0 <= q < items.len() && 0 <= i < entries.len() && outs[q] == Ok::<
                        Seq<char>,
                        Seq<char>,
                    >(entries[i].number) && (forall|m: int|
                        0 <= m < i ==> entries[m].number != entries[i].number) ==> #[trigger] items[q]
                        == dependency_json(#[trigger] entries[i])
                &&& forall|q: int|
                    0 <= q < items.len() && outs[q] is Ok && (forall|i: int|
                        0 <= i < entries.len() ==> entries[i].number != outs[q]->Ok_0) ==> {
                        &&& member(#[trigger] items[q], "not_found"@) == JsonV::Bool(true)
                        &&& member(items[q], "number"@) == JsonV::Str(outs[q]->Ok_0)
                        &&& member(items[q], "reference"@) == JsonV::Str(refs[q])
                    }
                &&& forall|q: int|
                    0 <= q < items.len() && outs[q] is Err ==> {
                        &&& member(#[trigger] items[q], "invalid"@) == JsonV::Bool(true)
                        &&& member(items[q], "reference"@) == JsonV::Str(refs[q])
                    }
            },
{
    lemma_dependency_keys();
    lemma_find_from(entries, normalized, 0);
    let r = dependencies_result(normalized, reverse, entries, outs);
    if r is Ok {
        let f = r->Ok_0->Object_0;
        assert(distinct_keys(f));
        lemma_lookup_distinct(f, 0);
        lemma_lookup_distinct(f, 1);
        lemma_lookup_distinct(f, 2);
        if reverse {
            lemma_dependents(entries, "RFC-"@ + normalized);
        }
    }
    assert forall|k: int|
        0 <= k < entries.len() && (#[trigger] entries[k]).number == normalized && (forall|m: int|
            0 <= m < k ==> entries[m].number != normalized) && !reverse implies {
        let items = member(
            dependencies_result(normalized, reverse, entries, outs)->Ok_0,
            "dependencies"@,
        )->Array_0;
        let refs = entries[k].dependencies;
        &&& items.len() == refs.len()
        &&& forall|q: int, i: int|
            0 <= q < items.len() && 0 <= i < entries.len() && outs[q] == Ok::<Seq<char>, Seq<char>>(
                entries[i].number,
            ) && (forall|m: int| 0 <= m < i ==> entries[m].number != entries[i].number)
                ==> #[trigger] items[q] == dependency_json(#[trigger] entries[i])
        &&& forall|q: int|
            0 <= q < items.len() && outs[q] is Ok && (forall|i: int|
                0 <= i < entries.len() ==> entries[i].number != outs[q]->Ok_0) ==> {
                &&& member(#[trigger] items[q], "not_found"@) == JsonV::Bool(true)
                &&& member(items[q], "number"@) == JsonV::Str(outs[q]->Ok_0)
                &&& member(items[q], "reference"@) == JsonV::Str(refs[q])
            }
        &&& forall|q: int|
            0 <= q < items.len() && outs[q] is Err ==> {
                &&& member(#[trigger] items[q], "invalid"@) == JsonV::Bool(true)
                &&& member(items[q], "reference"@) == JsonV::Str(refs[q])
            }
    } by {
        let kk = find_entry(entries, normalized)->Some_0;
        if kk < k {
        } else if kk > k {
        }
        let items = member(
            dependencies_result(normalized, reverse, entries, outs)->Ok_0,
            "dependencies"@,
        )->Array_0;
        let refs = entries[k].dependencies;
        assert forall|q: int, i: int|
            0 <= q < items.len() && 0 <= i < entries.len() && outs[q] == Ok::<Seq<char>, Seq<char>>(
                entries[i].number,
            ) && (forall|m: int| 0 <= m < i ==> entries[m].number != entries[i].number)
                implies #[trigger] items[q] == dependency_json(#[trigger] entries[i]) by {
            lemma_find_from(entries, entries[i].number, 0);
            let ii = find_entry(entries, entries[i].number)->Some_0;
            if ii < i {
            } else if ii > i {
            }
        }
        assert forall|q: int|
            0 <= q < items.len() && outs[q] is Ok && (forall|i: int|
                0 <= i < entries.len() ==> entries[i].number != outs[q]->Ok_0) implies {
            &&& member(#[trigger] items[q], "not_found"@) == JsonV::Bool(true)
            &&& member(items[q], "number"@) == JsonV::Str(outs[q]->Ok_0)
            &&& member(items[q], "reference"@) == JsonV::Str(refs[q])
        } by {
            lemma_find_from(entries, outs[q]->Ok_0, 0);
            let g = items[q]->Object_0;
            assert(distinct_keys(g));
            lemma_lookup_distinct(g, 0);
            lemma_lookup_distinct(g, 1);
            lemma_lookup_distinct(g, 2);
        }
        assert forall|q: int| 0 <= q < items.len() && outs[q] is Err implies {
            &&& member(#[trigger] items[q], "invalid"@) == JsonV::Bool(true)
            &&& member(items[q], "reference"@) == JsonV::Str(refs[q])
        } by {
            let g = items[q]->Object_0;
            assert(distinct_keys(g));
            lemma_lookup_distinct(g, 0);
            lemma_lookup_distinct(g, 1);
        }
    }
}

/// With a status filter, `list_rfcs` reports exactly the RFCs that have that
/// status.
pub proof fn lemma_list_reports_status(entries: Seq<IndexEntryV>, status: Seq<char>)
    ensures
        ({
            let items = member(list_json(entries, Some(status)), "rfcs"@)->Array_0;
            &&& member(list_json(entries, Some(status)), "rfcs"@) is Array
            &&& forall|j: int|
                0 <= j < items.len() ==> exists|i: int|
                    0 <= i < entries.len() && entries[i].status == status && #[trigger] items[j]
                        == entry_json(entries[i])
            &&& forall|i: int|
                0 <= i < entries.len() && (#[trigger] entries[i]).status == status
                    ==> items.contains(entry_json(entries[i]))
        }),
{
    lemma_list_with_filter(entries, status);
    let f = list_json(entries, Some(status))->Object_0;
    assert(distinct_keys(f));
    lemma_lookup_distinct(f, 0);
}

/// A planned tool call answers from what it read: `ping` with
/// `{"ok": true, "message": "pong"}`; a call that needs the index fails
/// with the index's own failure where it could not be loaded, and otherwise
/// gives its tool's result on that index; `view_rfc` gives its result on
/// the file's content.
pub proof fn lemma_run_uses_what_was_read(
    call: ToolCallV,
    data: ToolDataV,
    outs: Seq<Result<Seq<char>, Seq<char>>>,
)
    ensures
        call is Ping ==> run_spec(call, data, outs) is Ok && member(
            run_spec(call, data, outs)->Ok_0,
            "ok"@,
        ) == JsonV::Bool(true) && member(run_spec(call, data, outs)->Ok_0, "message"@) == JsonV::Str(
            "pong"@,
        ),
        (!(call is Ping) && !(call is ViewRfc)) ==> (match data {
            ToolDataV::Index(Err(e)) => run_spec(call, data, outs) == Err::<JsonV, ToolErrorV>(e),
            _ => true,
        }),
        (match (call, data) {
            (ToolCallV::ListRfcs { status }, ToolDataV::Index(Ok(ix))) => run_spec(call, data, outs)
                == Ok::<JsonV, ToolErrorV>(list_json(ix.rfcs, status)),
            (ToolCallV::GetRfcStatus { normalized }, ToolDataV::Index(Ok(ix))) => run_spec(
                call,
                data,
                outs,
            ) == status_of(normalized, ix.rfcs),
            (
                ToolCallV::GetRfcDependencies { normalized, reverse },
                ToolDataV::Index(Ok(ix)),
            ) => run_spec(call, data, outs) == dependencies_result(
                normalized,
                reverse,
                ix.rfcs,
                outs,
            ),
            (ToolCallV::ViewRfc { number, normalized }, ToolDataV::Document(d)) => run_spec(
                call,
                data,
                outs,
            ) == view_result(normalized, d),
            _ => true,
        }),
{
    reveal_strlit("ok");
    reveal_strlit("message");
    assert("ok"@.len() == 2 && "message"@.len() == 7);
    if call is Ping {
        let f = pong_json()->Object_0;
        assert(distinct_keys(f));
        lemma_lookup_distinct(f, 0);
        lemma_lookup_distinct(f, 1);
    }
}

/// A `tools/call` request with an `id`: without a non-empty tool name it is
/// answered with a -32602 error; a call whose arguments are refused is
/// answered with the refusal; otherwise the call is planned for that `id`,
/// with the request's `arguments` (`{}` where there are none).
pub proof fn lemma_tool_call_request(
    request: JsonV,
    statuses: Seq<Seq<char>>,
    n: Result<Seq<char>, Seq<char>>,
)
    requires
        request_method(request) == Some("tools/call"@),
        get_field(request, "id"@) is Some,
    ensures
        ({
            let id = get_field(request, "id"@)->Some_0;
            let params = member(request, "params"@);
            let name = member(params, "name"@);
            let arguments = match get_field(params, "arguments"@) {
                Some(a) => a,
                None => JsonV::Object(Seq::empty()),
            };
            let d = request_spec(request, statuses, n)->Ok_0->Some_0;
            &&& request_spec(request, statuses, n) is Ok
            &&& !(name is Str && name->Str_0.len() > 0) ==> {
                &&& d is Reply
                &&& error_code(d->Reply_0) == JsonV::Number(crate::text::int_text(-32602))
                &&& error_message(d->Reply_0) == JsonV::Str(
                    "tools/call requires non-empty field: name"@,
                )
            }
            &&& (name is Str && name->Str_0.len() > 0) ==> match plan_spec(
                name->Str_0,
                arguments,
                n,
            ) {
                Ok(call) => d == (DispatchV::CallTool { id, call }),
                Err(e) => d == DispatchV::Reply(tool_response_json(id, Err(e), Ok(Seq::empty()))),
            }
        }),
{
    crate::commands::mcp::lemma_method_names();
    lemma_response_keys();
    let id = get_field(request, "id"@)->Some_0;
    let params = member(request, "params"@);
    let raw = get_field(params, "name"@);
    if !(member(params, "name"@) is Str && member(params, "name"@)->Str_0.len() > 0) {
        let body = JsonV::Object(
            seq![
                ("code"@, JsonV::Number(crate::text::int_text(-32602))),
                ("message"@, JsonV::Str("tools/call requires non-empty field: name"@)),
            ],
        );
        lemma_response_parts(id, "error"@, body);
        lemma_error_parts(-32602, "tools/call requires non-empty field: name"@);
    }
    assert(params == crate::commands::mcp::field_or_empty(request, "params"@) || get_field(
        request,
        "params"@,
    ) is None);
    if get_field(request, "params"@) is None {
        crate::json::lemma_lookup_absent(Seq::<(Seq<char>, JsonV)>::empty(), "name"@);
        crate::json::lemma_lookup_absent(Seq::<(Seq<char>, JsonV)>::empty(), "arguments"@);
    }
}

/// One turn of the server: the end of the stream stops it cleanly, an
/// unreadable stream stops it with that error, a request that cannot be
/// handled stops it with the error, a notification is skipped, and every
/// other request is answered or planned as handling says.
pub proof fn lemma_turns(incoming: IncomingV, statuses: Seq<Seq<char>>, n: Result<Seq<char>, Seq<char>>)
    ensures
        incoming is End ==> turn_spec(incoming, statuses, n) == TurnV::Stop(Ok(())),
        incoming matches IncomingV::Unreadable(m) ==> turn_spec(incoming, statuses, n)
            == TurnV::Stop(Err(m)),
        incoming matches IncomingV::Request(request) ==> match request_spec(request, statuses, n) {
            Err(m) => turn_spec(incoming, statuses, n) == TurnV::Stop(Err(m)),
            Ok(None) => turn_spec(incoming, statuses, n) == TurnV::Skip,
            Ok(Some(DispatchV::Reply(r))) => turn_spec(incoming, statuses, n) == TurnV::Answer(r),
            Ok(Some(DispatchV::CallTool { id, call })) => turn_spec(incoming, statuses, n)
                == (TurnV::Call { id, call }),
        },
{
}

/// Trimming keeps one piece of the text: everything before and after it is
/// whitespace, and the piece neither starts nor ends with whitespace.
pub proof fn lemma_trim_piece(s: Seq<char>)
    ensures
        exists|a: int, b: int|
            #![trigger s.subrange(a, b)]
            0 <= a <= b <= s.len() && trim(s) == s.subrange(a, b) && (forall|i: int|
                0 <= i < a ==> is_space(s[i])) && (forall|i: int| b <= i < s.len() ==> is_space(s[i]))
                && (a < b ==> !is_space(s[a]) && !is_space(s[b - 1])),
{
    crate::text::lemma_leading_space_bound(s);
    let a = crate::text::leading_space(s) as int;
    let rest = s.skip(a);
    lemma_trailing_space_facts(rest);
    let t = crate::text::trailing_space(rest) as int;
    let b = s.len() - t;
    assert(rest.take(rest.len() - t) =~= s.subrange(a, b));
    assert forall|i: int| b <= i < s.len() implies is_space(s[i]) by {
        assert(s[i] == rest[i - a]);
    }
    if a < b {
        assert(s[a] == rest[0]);
        assert(s[b - 1] == rest[rest.len() - t - 1]);
    }
    assert(trim(s) == s.subrange(a, b));
}

proof fn lemma_trailing_space_facts(s: Seq<char>)
    ensures
        crate::text::trailing_space(s) <= s.len(),
        forall|i: int| s.len() - crate::text::trailing_space(s) <= i < s.len() ==> is_space(s[i]),
        crate::text::trailing_space(s) < s.len() ==> !is_space(
            s[s.len() - crate::text::trailing_space(s) - 1],
        ),
    decreases s.len(),
{
    if s.len() > 0 && is_space(s.last()) {
        lemma_trailing_space_facts(s.drop_last());
        assert forall|i: int| s.len() - crate::text::trailing_space(s) <= i < s.len() implies is_space(s[i]) by {
            if i < s.len() - 1 {
                assert(s.drop_last()[i] == s[i]);
            }
        }
        if crate::text::trailing_space(s) < s.len() {
            assert(s.drop_last()[s.len() - crate::text::trailing_space(s) - 1] == s[s.len()
                - crate::text::trailing_space(s) - 1]);
        }
    }
}

proof fn lemma_parse_digits_rejects(s: Seq<char>, i: int, acc: nat, k: int)
    requires
        0 <= i <= k < s.len(),
        !('0' <= s[k] <= '9'),
    ensures
        parse_digits_is_err(s, i, acc),
    decreases s.len() - i,
{
    if i < k && '0' <= s[i] <= '9' {
        let next = acc * 10 + (s[i] as u32 - '0' as u32);
        if next <= usize::MAX {
            lemma_parse_digits_rejects(s, i + 1, next as nat, k);
        }
    }
}

pub open spec fn parse_digits_is_err(s: Seq<char>, i: int, acc: nat) -> bool {
    crate::text::parse_digits(s, i, acc) is Err
}

/// `usize::from_str` refuses a text that is empty or that holds anything but
/// decimal digits after an optional leading `+`, and accepts only values
/// that fit in a `usize`.
pub proof fn lemma_parse_usize_refuses(s: Seq<char>, k: int)
    ensures
        s.len() == 0 ==> parse_usize(s) == Err::<nat, IntError>(IntError::Empty),
        (0 <= k < s.len() && !('0' <= s[k] <= '9') && !(k == 0 && s[0] == '+' && s.len() > 1))
            ==> parse_usize(s) is Err,
        parse_usize(s) matches Ok(v) ==> v <= usize::MAX,
{
    if 0 <= k < s.len() && !('0' <= s[k] <= '9') && !(k == 0 && s[0] == '+' && s.len() > 1) {
        if !(s.len() == 1 && (s[0] == '+' || s[0] == '-')) {
            if s[0] == '+' {
                lemma_parse_digits_rejects(s, 1, 0, k);
            } else {
                lemma_parse_digits_rejects(s, 0, 0, k);
            }
        }
    }
    if s.len() > 0 {
        lemma_parse_digits_bound(s, if s[0] == '+' { 1 } else { 0 }, 0);
    }
}

proof fn lemma_parse_digits_bound(s: Seq<char>, i: int, acc: nat)
    requires
        acc <= usize::MAX,
    ensures
        crate::text::parse_digits(s, i, acc) matches Ok(v) ==> v <= usize::MAX,
    decreases s.len() - i,
{
    if i < s.len() && '0' <= s[i] <= '9' {
        let next = acc * 10 + (s[i] as u32 - '0' as u32);
        if next <= usize::MAX {
            lemma_parse_digits_bound(s, i + 1, next as nat);
        }
    }
}

} // verus!
