//! The MCP server: JSON-RPC requests in, responses out, with read-only RFC
//! tools.
use vstd::prelude::*;
use vstd::string::StringExecFns;

use crate::json::{
    array, fields_view, get_field, lookup, lookup_field, object, push_field, push_item, same_text,
    text, Json, JsonV,
};
use crate::index::{
    dependency_json, entries_view, entry_json, find_entry, find_entry_index,
    index_entry_to_dependency_json, index_entry_to_json, lemma_find_from, text_array,
    texts_to_json, texts_view, Index, IndexEntry, IndexEntryV, IndexV,
};
use crate::text::chars_of;
use vstd::string::StrSliceExecFns;
use crate::text::{i64_text, int_text};

verus! {

/// Why a tool call failed.
#[derive(Debug)]
pub enum ToolError {
    /// The caller's arguments are wrong (JSON-RPC code -32602).
    InvalidParams(String),
    /// The server could not do the work (JSON-RPC code -32603).
    Internal(String),
}

pub enum ToolErrorV {
    InvalidParams(Seq<char>),
    Internal(Seq<char>),
}

impl View for ToolError {
    type V = ToolErrorV;

    open spec fn view(&self) -> ToolErrorV {
        match self {
            ToolError::InvalidParams(m) => ToolErrorV::InvalidParams(m@),
            ToolError::Internal(m) => ToolErrorV::Internal(m@),
        }
    }
}

pub fn invalid_params(message: String) -> (r: ToolError)
    ensures
        r@ == ToolErrorV::InvalidParams(message@),
{
    ToolError::InvalidParams(message)
}

pub fn internal(message: String) -> (r: ToolError)
    ensures
        r@ == ToolErrorV::Internal(message@),
{
    ToolError::Internal(message)
}

/// A JSON object given by its fields.
pub open spec fn obj(fields: Seq<(Seq<char>, JsonV)>) -> JsonV {
    JsonV::Object(fields)
}

/// A successful JSON-RPC response.
pub open spec fn success_json(id: JsonV, result: JsonV) -> JsonV {
    obj(seq![("jsonrpc"@, JsonV::Str("2.0"@)), ("id"@, id), ("result"@, result)])
}

/// A JSON-RPC error response.
pub open spec fn error_json(id: JsonV, code: int, message: Seq<char>) -> JsonV {
    obj(
        seq![
            ("jsonrpc"@, JsonV::Str("2.0"@)),
            ("id"@, id),
            (
                "error"@,
                obj(seq![("code"@, JsonV::Number(int_text(code))), ("message"@, JsonV::Str(message))]),
            ),
        ],
    )
}

pub fn success(id: Json, result: Json) -> (r: Json)
    ensures
        r@ == success_json(id@, result@),
{
    let mut f: Vec<(String, Json)> = Vec::new();
    push_field(&mut f, "jsonrpc", text("2.0"));
    push_field(&mut f, "id", id);
    push_field(&mut f, "result", result);
    let r = object(f);
    assert(fields_view(f@) =~= success_json(id@, result@)->Object_0);
    r
}

pub fn error(id: Json, code: i64, message: &str) -> (r: Json)
    ensures
        r@ == error_json(id@, code as int, message@),
{
    let mut e: Vec<(String, Json)> = Vec::new();
    push_field(&mut e, "code", Json::Number(i64_text(code)));
    push_field(&mut e, "message", text(message));
    let inner = object(e);
    let mut f: Vec<(String, Json)> = Vec::new();
    push_field(&mut f, "jsonrpc", text("2.0"));
    push_field(&mut f, "id", id);
    push_field(&mut f, "error", inner);
    let r = object(f);
    assert(fields_view(e@) =~= seq![
        ("code"@, JsonV::Number(int_text(code as int))),
        ("message"@, JsonV::Str(message@)),
    ]);
    assert(fields_view(f@) =~= error_json(id@, code as int, message@)->Object_0);
    r
}

/// `text` with `suffix` after it.
pub fn concat(text: &str, suffix: &str) -> (r: String)
    ensures
        r@ == text@ + suffix@,
{
    let mut s = text.to_owned();
    s.append(suffix);
    s
}

pub open spec fn not_object_error() -> ToolErrorV {
    ToolErrorV::InvalidParams("Tool arguments must be an object"@)
}

/// The arguments of a tool call, which must be an object.
pub open spec fn arg_object_spec(arguments: JsonV) -> Result<Seq<(Seq<char>, JsonV)>, ToolErrorV> {
    match arguments {
        JsonV::Object(fields) => Ok(fields),
        _ => Err(not_object_error()),
    }
}

/// A field that must hold a non-empty string.
pub open spec fn required_text(fields: Seq<(Seq<char>, JsonV)>, field: Seq<char>) -> Result<
    Seq<char>,
    ToolErrorV,
> {
    match lookup(fields, field) {
        Some(JsonV::Str(s)) if s.len() > 0 => Ok(s),
        _ => Err(ToolErrorV::InvalidParams("Missing or invalid field: "@ + field)),
    }
}

/// A field that may be absent, and otherwise holds a non-empty string.
pub open spec fn optional_text(fields: Seq<(Seq<char>, JsonV)>, field: Seq<char>) -> Result<
    Option<Seq<char>>,
    ToolErrorV,
> {
    match lookup(fields, field) {
        None => Ok(None),
        Some(JsonV::Str(s)) if s.len() > 0 => Ok(Some(s)),
        _ => Err(ToolErrorV::InvalidParams("Invalid field: "@ + field)),
    }
}

/// A field that may be absent, and otherwise holds a boolean.
pub open spec fn optional_flag(fields: Seq<(Seq<char>, JsonV)>, field: Seq<char>) -> Result<
    Option<bool>,
    ToolErrorV,
> {
    match lookup(fields, field) {
        None => Ok(None),
        Some(JsonV::Bool(b)) => Ok(Some(b)),
        _ => Err(ToolErrorV::InvalidParams("Invalid field: "@ + field)),
    }
}

pub fn arg_object(arguments: &Json) -> (r: Result<&Vec<(String, Json)>, ToolError>)
    ensures
        match r {
            Ok(fields) => arg_object_spec(arguments@) == Ok::<
                Seq<(Seq<char>, JsonV)>,
                ToolErrorV,
            >(fields_view(fields@)),
            Err(e) => arg_object_spec(arguments@) == Err::<Seq<(Seq<char>, JsonV)>, ToolErrorV>(
                e@,
            ),
        },
{
    match arguments {
        Json::Object(fields) => {
            proof {
                crate::json::lemma_object_view(*fields);
            }
            Ok(fields)
        },
        _ => Err(invalid_params("Tool arguments must be an object".to_owned())),
    }
}

pub fn get_required_string(arguments: &Vec<(String, Json)>, field: &str) -> (r: Result<
    String,
    ToolError,
>)
    ensures
        match r {
            Ok(s) => required_text(fields_view(arguments@), field@) == Ok::<Seq<char>, ToolErrorV>(
                s@,
            ),
            Err(e) => required_text(fields_view(arguments@), field@) == Err::<
                Seq<char>,
                ToolErrorV,
            >(e@),
        },
{
    match lookup_field(arguments, field) {
        Some(Json::Str(s)) => {
            if !s.as_str().is_empty() {
                return Ok(s.clone());
            }
        },
        _ => {},
    }
    Err(invalid_params(concat("Missing or invalid field: ", field)))
}

pub fn get_optional_string(arguments: &Vec<(String, Json)>, field: &str) -> (r: Result<
    Option<String>,
    ToolError,
>)
    ensures
        match r {
            Ok(Some(s)) => optional_text(fields_view(arguments@), field@) == Ok::<
                Option<Seq<char>>,
                ToolErrorV,
            >(Some(s@)),
            Ok(None) => optional_text(fields_view(arguments@), field@) == Ok::<
                Option<Seq<char>>,
                ToolErrorV,
            >(None),
            Err(e) => optional_text(fields_view(arguments@), field@) == Err::<
                Option<Seq<char>>,
                ToolErrorV,
            >(e@),
        },
{
    match lookup_field(arguments, field) {
        None => Ok(None),
        Some(Json::Str(s)) => {
            if !s.as_str().is_empty() {
                Ok(Some(s.clone()))
            } else {
                Err(invalid_params(concat("Invalid field: ", field)))
            }
        },
        _ => Err(invalid_params(concat("Invalid field: ", field))),
    }
}

pub fn get_optional_bool(arguments: &Vec<(String, Json)>, field: &str) -> (r: Result<
    Option<bool>,
    ToolError,
>)
    ensures
        match r {
            Ok(b) => optional_flag(fields_view(arguments@), field@) == Ok::<
                Option<bool>,
                ToolErrorV,
            >(b),
            Err(e) => optional_flag(fields_view(arguments@), field@) == Err::<
                Option<bool>,
                ToolErrorV,
            >(e@),
        },
{
    match lookup_field(arguments, field) {
        None => Ok(None),
        Some(Json::Bool(b)) => Ok(Some(*b)),
        _ => Err(invalid_params(concat("Invalid field: ", field))),
    }
}

/// The schema of a tool's arguments: an object with the given properties,
/// those in `required` required, and no other property.
pub open spec fn schema_json(properties: Seq<(Seq<char>, JsonV)>, required: Seq<Seq<char>>) -> JsonV {
    obj(
        seq![("type"@, JsonV::Str("object"@)), ("properties"@, obj(properties))] + if required.len()
            == 0 {
            Seq::empty()
        } else {
            seq![("required"@, text_array(required))]
        } + seq![("additionalProperties"@, JsonV::Bool(false))],
    )
}

/// How `tools/list` describes a tool.
pub open spec fn tool_json(name: Seq<char>, description: Seq<char>, schema: JsonV) -> JsonV {
    obj(
        seq![
            ("name"@, JsonV::Str(name)),
            ("description"@, JsonV::Str(description)),
            ("inputSchema"@, schema),
        ],
    )
}

pub open spec fn string_type() -> JsonV {
    obj(seq![("type"@, JsonV::Str("string"@))])
}

/// The tools that the server offers, with their argument schemas; a status
/// filter must be one of `statuses`.
pub open spec fn tool_specs_json(statuses: Seq<Seq<char>>) -> Seq<JsonV> {
    seq![
        tool_json(
            "ping"@,
            "Health check for the RFC MCP server."@,
            schema_json(Seq::empty(), Seq::empty()),
        ),
        tool_json(
            "list_rfcs"@,
            "List RFCs, optionally filtered by status."@,
            schema_json(
                seq![
                    (
                        "status"@,
                        obj(
                            seq![
                                ("type"@, JsonV::Str("string"@)),
                                ("enum"@, text_array(statuses)),
                            ],
                        ),
                    ),
                ],
                Seq::empty(),
            ),
        ),
        tool_json(
            "view_rfc"@,
            "Read the complete Markdown content of an RFC."@,
            schema_json(seq![("number"@, string_type())], seq!["number"@]),
        ),
        tool_json(
            "get_rfc_status"@,
            "Get the current status of an RFC."@,
            schema_json(seq![("number"@, string_type())], seq!["number"@]),
        ),
        tool_json(
            "get_rfc_dependencies"@,
            "Get forward or reverse dependencies of an RFC."@,
            schema_json(
                seq![
                    ("number"@, string_type()),
                    ("reverse"@, obj(seq![("type"@, JsonV::Str("boolean"@))])),
                ],
                seq!["number"@],
            ),
        ),
    ]
}

fn type_json(name: &str) -> (r: Json)
    ensures
        r@ == obj(seq![("type"@, JsonV::Str(name@))]),
{
    let mut f: Vec<(String, Json)> = Vec::new();
    push_field(&mut f, "type", text(name));
    let r = object(f);
    assert(fields_view(f@) =~= seq![("type"@, JsonV::Str(name@))]);
    r
}

fn schema(properties: Vec<(String, Json)>, required: Vec<String>) -> (r: Json)
    ensures
        r@ == schema_json(fields_view(properties@), texts_view(required@)),
{
    let props = object(properties);
    let mut f: Vec<(String, Json)> = Vec::new();
    push_field(&mut f, "type", text("object"));
    push_field(&mut f, "properties", props);
    if required.len() > 0 {
        push_field(&mut f, "required", texts_to_json(&required));
    }
    push_field(&mut f, "additionalProperties", Json::Bool(false));
    let r = object(f);
    assert(fields_view(f@) =~= schema_json(
        fields_view(properties@),
        texts_view(required@),
    )->Object_0);
    r
}

fn number_required() -> (r: Vec<String>)
    ensures
        texts_view(r@) == seq!["number"@],
{
    let r = vec!["number".to_owned()];
    assert(texts_view(r@) =~= seq!["number"@]);
    r
}

fn tool(name: &str, description: &str, input_schema: Json) -> (r: Json)
    ensures
        r@ == tool_json(name@, description@, input_schema@),
{
    let mut f: Vec<(String, Json)> = Vec::new();
    push_field(&mut f, "name", text(name));
    push_field(&mut f, "description", text(description));
    push_field(&mut f, "inputSchema", input_schema);
    let r = object(f);
    assert(fields_view(f@) =~= tool_json(name@, description@, input_schema@)->Object_0);
    r
}

/// The tools that the server offers.
pub fn tool_specs(valid_statuses: &Vec<String>) -> (r: Vec<Json>)
    ensures
        crate::json::items_view(r@) == tool_specs_json(texts_view(valid_statuses@)),
{
    let mut tools: Vec<Json> = Vec::new();

    push_item(&mut tools, tool("ping", "Health check for the RFC MCP server.", schema(Vec::new(), Vec::new())));
    proof {
        assert(fields_view(Seq::<(String, Json)>::empty()) =~= Seq::empty());
        assert(texts_view(Seq::<String>::empty()) =~= Seq::empty());
    }

    let mut status_fields: Vec<(String, Json)> = Vec::new();
    push_field(&mut status_fields, "type", text("string"));
    push_field(&mut status_fields, "enum", texts_to_json(valid_statuses));
    let status_schema = object(status_fields);
    let mut list_props: Vec<(String, Json)> = Vec::new();
    push_field(&mut list_props, "status", status_schema);
    push_item(&mut tools, tool("list_rfcs", "List RFCs, optionally filtered by status.", schema(list_props, Vec::new())));

    let mut view_props: Vec<(String, Json)> = Vec::new();
    push_field(&mut view_props, "number", type_json("string"));
    push_item(&mut tools, tool("view_rfc", "Read the complete Markdown content of an RFC.", schema(view_props, number_required())));

    let mut status_props: Vec<(String, Json)> = Vec::new();
    push_field(&mut status_props, "number", type_json("string"));
    push_item(&mut tools, tool("get_rfc_status", "Get the current status of an RFC.", schema(status_props, number_required())));

    let mut dep_props: Vec<(String, Json)> = Vec::new();
    push_field(&mut dep_props, "number", type_json("string"));
    push_field(&mut dep_props, "reverse", type_json("boolean"));
    push_item(&mut tools, tool("get_rfc_dependencies", "Get forward or reverse dependencies of an RFC.", schema(dep_props, number_required())));

    proof {
        assert(fields_view(status_fields@) =~= seq![
            ("type"@, JsonV::Str("string"@)),
            ("enum"@, text_array(texts_view(valid_statuses@))),
        ]);
        assert(fields_view(list_props@) =~= seq![
            ("status"@, obj(seq![
                ("type"@, JsonV::Str("string"@)),
                ("enum"@, text_array(texts_view(valid_statuses@))),
            ])),
        ]);
        assert(fields_view(view_props@) =~= seq![("number"@, string_type())]);
        assert(fields_view(status_props@) =~= seq![("number"@, string_type())]);
        assert(fields_view(dep_props@) =~= seq![
            ("number"@, string_type()),
            ("reverse"@, obj(seq![("type"@, JsonV::Str("boolean"@))])),
        ]);
        assert(crate::json::items_view(tools@) =~= tool_specs_json(texts_view(valid_statuses@)));
    }
    tools
}

/// A text result, by its characters.
pub open spec fn text_result_view(r: Result<String, String>) -> Result<Seq<char>, Seq<char>> {
    match r {
        Ok(s) => Ok(s@),
        Err(e) => Err(e@),
    }
}

/// `out` is a result that the RFC-number normaliser `f` may give for
/// `input`.
pub open spec fn normalizes<F: Fn(&str) -> Result<String, String>>(
    f: F,
    input: Seq<char>,
    out: Result<Seq<char>, Seq<char>>,
) -> bool {
    exists|arg: &str, r: Result<String, String>|
        #![trigger f.ensures((arg,), r)]
        arg@ == input && f.ensures((arg,), r) && text_result_view(r) == out
}

/// A tool call whose arguments have been checked, with what it needs to know.
#[derive(Debug)]
pub enum ToolCall {
    Ping,
    ListRfcs { status: Option<String> },
    ViewRfc { number: String, normalized: String },
    GetRfcStatus { normalized: String },
    GetRfcDependencies { normalized: String, reverse: bool },
}

pub enum ToolCallV {
    Ping,
    ListRfcs { status: Option<Seq<char>> },
    ViewRfc { number: Seq<char>, normalized: Seq<char> },
    GetRfcStatus { normalized: Seq<char> },
    GetRfcDependencies { normalized: Seq<char>, reverse: bool },
}

impl View for ToolCall {
    type V = ToolCallV;

    open spec fn view(&self) -> ToolCallV {
        match self {
            ToolCall::Ping => ToolCallV::Ping,
            ToolCall::ListRfcs { status } => ToolCallV::ListRfcs {
                status: match status {
                    Some(s) => Some(s@),
                    None => None,
                },
            },
            ToolCall::ViewRfc { number, normalized } => ToolCallV::ViewRfc {
                number: number@,
                normalized: normalized@,
            },
            ToolCall::GetRfcStatus { normalized } => ToolCallV::GetRfcStatus {
                normalized: normalized@,
            },
            ToolCall::GetRfcDependencies { normalized, reverse } => ToolCallV::GetRfcDependencies {
                normalized: normalized@,
                reverse: *reverse,
            },
        }
    }
}

/// The RFC number that checking a tool call's arguments normalises, if it
/// gets that far.
pub open spec fn normalized_input(name: Seq<char>, arguments: JsonV) -> Option<Seq<char>> {
    match arguments {
        JsonV::Object(fields) => if name == "view_rfc"@ || name == "get_rfc_status"@ {
            match required_text(fields, "number"@) {
                Ok(number) => Some(number),
                Err(_) => None,
            }
        } else if name == "get_rfc_dependencies"@ {
            match required_text(fields, "number"@) {
                Ok(number) => match optional_flag(fields, "reverse"@) {
                    Ok(_) => Some(number),
                    Err(_) => None,
                },
                Err(_) => None,
            }
        } else {
            None
        },
        _ => None,
    }
}

/// Checking a call of tool `name` with `arguments`, where `n` is what the
/// normaliser gives for its RFC number: the arguments are checked in the
/// order the tool reads them, and the first error is the answer.
pub open spec fn plan_spec(name: Seq<char>, arguments: JsonV, n: Result<Seq<char>, Seq<char>>) -> Result<
    ToolCallV,
    ToolErrorV,
> {
    if name == "ping"@ {
        Ok(ToolCallV::Ping)
    } else if name == "list_rfcs"@ {
        match arg_object_spec(arguments) {
            Err(e) => Err(e),
            Ok(fields) => match optional_text(fields, "status"@) {
                Err(e) => Err(e),
                Ok(status) => Ok(ToolCallV::ListRfcs { status }),
            },
        }
    } else if name == "view_rfc"@ || name == "get_rfc_status"@ || name
        == "get_rfc_dependencies"@ {
        match arg_object_spec(arguments) {
            Err(e) => Err(e),
            Ok(fields) => match required_text(fields, "number"@) {
                Err(e) => Err(e),
                Ok(number) => {
                    let reverse = optional_flag(fields, "reverse"@);
                    if name == "get_rfc_dependencies"@ && reverse is Err {
                        Err(reverse->Err_0)
                    } else {
                        match n {
                            Err(m) => Err(ToolErrorV::InvalidParams(m)),
                            Ok(normalized) => if name == "view_rfc"@ {
                                Ok(ToolCallV::ViewRfc { number, normalized })
                            } else if name == "get_rfc_status"@ {
                                Ok(ToolCallV::GetRfcStatus { normalized })
                            } else {
                                Ok(
                                    ToolCallV::GetRfcDependencies {
                                        normalized,
                                        reverse: match reverse {
                                            Ok(Some(b)) => b,
                                            _ => false,
                                        },
                                    },
                                )
                            },
                        }
                    }
                },
            },
        }
    } else {
        Err(ToolErrorV::InvalidParams("Unknown tool: "@ + name))
    }
}

pub open spec fn plan_result_view(r: Result<ToolCall, ToolError>) -> Result<ToolCallV, ToolErrorV> {
    match r {
        Ok(c) => Ok(c@),
        Err(e) => Err(e@),
    }
}

/// Whether the normaliser accepts every text.
pub open spec fn total_normalizer<F: Fn(&str) -> Result<String, String>>(f: F) -> bool {
    forall|s: &str| #[trigger] f.requires((s,))
}

/// The tools' names differ from one another.
pub proof fn lemma_tool_names()
    ensures
        "ping"@.len() == 4,
        "list_rfcs"@.len() == 9,
        "view_rfc"@.len() == 8,
        "get_rfc_status"@.len() == 14,
        "get_rfc_dependencies"@.len() == 20,
{
    reveal_strlit("ping");
    reveal_strlit("list_rfcs");
    reveal_strlit("view_rfc");
    reveal_strlit("get_rfc_status");
    reveal_strlit("get_rfc_dependencies");
}

/// Checks the arguments of a call of tool `name`: the work that the call
/// then needs is in the result.
pub fn plan_tool<F: Fn(&str) -> Result<String, String>>(
    name: &str,
    arguments: &Json,
    normalize: &F,
) -> (r: Result<ToolCall, ToolError>)
    requires
        total_normalizer(*normalize),
    ensures
        exists|n: Result<Seq<char>, Seq<char>>|
            {
                &&& (normalized_input(name@, arguments@) matches Some(number) ==> normalizes(
                    *normalize,
                    number,
                    n,
                ))
                &&& plan_result_view(r) == plan_spec(name@, arguments@, n)
            },
{
    let ghost unnormalized: Result<Seq<char>, Seq<char>> = Err(Seq::empty());
    proof {
        lemma_tool_names();
    }
    if same_text(name, "ping") {
        assert(plan_result_view(Ok(ToolCall::Ping)) == plan_spec(name@, arguments@, unnormalized));
        return Ok(ToolCall::Ping);
    }
    if same_text(name, "list_rfcs") {
        let fields = match arg_object(arguments) {
            Ok(f) => f,
            Err(e) => {
                assert(plan_result_view(Err(e)) == plan_spec(name@, arguments@, unnormalized));
                return Err(e);
            },
        };
        let r = match get_optional_string(fields, "status") {
            Ok(status) => Ok(ToolCall::ListRfcs { status }),
            Err(e) => Err(e),
        };
        assert(plan_result_view(r) == plan_spec(name@, arguments@, unnormalized));
        return r;
    }
    let is_view = same_text(name, "view_rfc");
    let is_status = same_text(name, "get_rfc_status");
    let is_deps = same_text(name, "get_rfc_dependencies");
    if !(is_view || is_status || is_deps) {
        let r = Err(invalid_params(concat("Unknown tool: ", name)));
        assert(plan_result_view(r) == plan_spec(name@, arguments@, unnormalized));
        return r;
    }
    let fields = match arg_object(arguments) {
        Ok(f) => f,
        Err(e) => {
            assert(plan_result_view(Err(e)) == plan_spec(name@, arguments@, unnormalized));
            return Err(e);
        },
    };
    let number = match get_required_string(fields, "number") {
        Ok(n) => n,
        Err(e) => {
            assert(plan_result_view(Err(e)) == plan_spec(name@, arguments@, unnormalized));
            return Err(e);
        },
    };
    let mut reverse = false;
    if is_deps {
        match get_optional_bool(fields, "reverse") {
            Ok(b) => {
                reverse = match b {
                    Some(x) => x,
                    None => false,
                };
            },
            Err(e) => {
                assert(plan_result_view(Err(e)) == plan_spec(name@, arguments@, unnormalized));
                return Err(e);
            },
        }
    }
    let res = normalize(number.as_str());
    let ghost n = text_result_view(res);
    assert(normalizes(*normalize, number@, n));
    let r = match res {
        Err(m) => Err(invalid_params(m)),
        Ok(normalized) => {
            if is_view {
                Ok(ToolCall::ViewRfc { number, normalized })
            } else if is_status {
                Ok(ToolCall::GetRfcStatus { normalized })
            } else {
                Ok(ToolCall::GetRfcDependencies { normalized, reverse })
            }
        },
    };
    assert(plan_result_view(r) == plan_spec(name@, arguments@, n));
    r
}

/// Whether an RFC passes the status filter.
pub open spec fn status_selected(e: IndexEntryV, status: Option<Seq<char>>) -> bool {
    match status {
        None => true,
        Some(s) => e.status == s,
    }
}

/// The RFCs that pass the status filter, in index order, as `list_rfcs`
/// reports them.
pub open spec fn listed_rfcs(entries: Seq<IndexEntryV>, status: Option<Seq<char>>) -> Seq<JsonV>
    decreases entries.len(),
{
    if entries.len() == 0 {
        Seq::empty()
    } else {
        let rest = listed_rfcs(entries.drop_last(), status);
        if status_selected(entries.last(), status) {
            rest.push(entry_json(entries.last()))
        } else {
            rest
        }
    }
}

pub open spec fn list_json(entries: Seq<IndexEntryV>, status: Option<Seq<char>>) -> JsonV {
    obj(seq![("rfcs"@, JsonV::Array(listed_rfcs(entries, status)))])
}

pub open spec fn opt_view(s: Option<String>) -> Option<Seq<char>> {
    match s {
        Some(t) => Some(t@),
        None => None,
    }
}

/// `list_rfcs`, once the index is loaded: the RFCs whose status is
/// `status` (all of them without a filter).
pub fn list_rfcs(status: &Option<String>, index: &Index) -> (r: Json)
    ensures
        r@ == list_json(index@.rfcs, opt_view(*status)),
{
    let ghost ev = index@.rfcs;
    let mut items: Vec<Json> = Vec::new();
    let mut i: usize = 0;
    while i < index.rfcs.len()
        invariant
            0 <= i <= index.rfcs.len(),
            ev == index@.rfcs,
            ev == entries_view(index.rfcs@),
            crate::json::items_view(items@) == listed_rfcs(ev.take(i as int), opt_view(*status)),
        decreases index.rfcs.len() - i,
    {
        let entry = &index.rfcs[i];
        let keep = match status {
            None => true,
            Some(filter) => entry.status == *filter,
        };
        assert(ev.take(i + 1).drop_last() =~= ev.take(i as int));
        assert(ev.take(i + 1).last() == entry@);
        if keep {
            push_item(&mut items, index_entry_to_json(entry));
        }
        i = i + 1;
    }
    assert(ev.take(i as int) =~= ev);
    let arr = array(items);
    let mut f: Vec<(String, Json)> = Vec::new();
    push_field(&mut f, "rfcs", arr);
    let r = object(f);
    assert(fields_view(f@) =~= list_json(ev, opt_view(*status))->Object_0);
    r
}

/// `RFC-<number> not found.`
pub open spec fn not_found_text(normalized: Seq<char>) -> Seq<char> {
    "RFC-"@ + normalized + " not found."@
}

pub fn not_found_message(normalized: &str) -> (r: String)
    ensures
        r@ == not_found_text(normalized@),
{
    let mut s = "RFC-".to_owned();
    s.append(normalized);
    s.append(" not found.");
    s
}

pub open spec fn tool_result_view(r: Result<Json, ToolError>) -> Result<JsonV, ToolErrorV> {
    match r {
        Ok(j) => Ok(j@),
        Err(e) => Err(e@),
    }
}

/// `get_rfc_status`, once the index is loaded.
pub open spec fn status_result(normalized: Seq<char>, entries: Seq<IndexEntryV>) -> Result<
    JsonV,
    ToolErrorV,
> {
    match find_entry(entries, normalized) {
        None => Err(ToolErrorV::InvalidParams(not_found_text(normalized))),
        Some(k) => Ok(
            obj(
                seq![
                    ("number"@, JsonV::Str(normalized)),
                    ("status"@, JsonV::Str(entries[k].status)),
                ],
            ),
        ),
    }
}

pub fn get_rfc_status(normalized: &String, index: &Index) -> (r: Result<Json, ToolError>)
    ensures
        tool_result_view(r) == status_result(normalized@, index@.rfcs),
{
    proof {
        lemma_find_from(index@.rfcs, normalized@, 0);
    }
    match find_entry_index(&index.rfcs, normalized.as_str()) {
        None => Err(invalid_params(not_found_message(normalized.as_str()))),
        Some(k) => {
            let mut f: Vec<(String, Json)> = Vec::new();
            push_field(&mut f, "number", Json::Str(normalized.clone()));
            push_field(&mut f, "status", Json::Str(index.rfcs[k].status.clone()));
            let r = object(f);
            assert(fields_view(f@) =~= status_result(normalized@, index@.rfcs)->Ok_0->Object_0);
            Ok(r)
        },
    }
}

/// `view_rfc`, once the RFC's file has been looked for: `document` is the
/// file's content, nothing where there is no such file, or why it could not
/// be read.
pub open spec fn view_result(normalized: Seq<char>, document: Result<Option<Seq<char>>, Seq<char>>) -> Result<
    JsonV,
    ToolErrorV,
> {
    match document {
        Err(m) => Err(ToolErrorV::Internal(m)),
        Ok(None) => Err(ToolErrorV::InvalidParams(not_found_text(normalized))),
        Ok(Some(content)) => Ok(
            obj(seq![("number"@, JsonV::Str(normalized)), ("content"@, JsonV::Str(content))]),
        ),
    }
}

pub open spec fn document_view(d: Result<Option<String>, String>) -> Result<
    Option<Seq<char>>,
    Seq<char>,
> {
    match d {
        Err(m) => Err(m@),
        Ok(None) => Ok(None),
        Ok(Some(c)) => Ok(Some(c@)),
    }
}

pub fn view_rfc(normalized: &String, document: Result<Option<String>, String>) -> (r: Result<
    Json,
    ToolError,
>)
    ensures
        tool_result_view(r) == view_result(normalized@, document_view(document)),
{
    match document {
        Err(m) => Err(internal(m)),
        Ok(None) => Err(invalid_params(not_found_message(normalized.as_str()))),
        Ok(Some(content)) => {
            let mut f: Vec<(String, Json)> = Vec::new();
            push_field(&mut f, "number", Json::Str(normalized.clone()));
            push_field(&mut f, "content", Json::Str(content));
            let r = object(f);
            assert(fields_view(f@) =~= seq![
                ("number"@, JsonV::Str(normalized@)),
                ("content"@, JsonV::Str(content@)),
            ]);
            Ok(r)
        },
    }
}

/// A dependency reference without its `RFC-` prefix.
pub open spec fn strip_rfc_prefix(reference: Seq<char>) -> Seq<char> {
    if reference.len() >= 4 && reference.take(4) == "RFC-"@ {
        reference.skip(4)
    } else {
        reference
    }
}

pub fn strip_rfc_prefix_text(reference: &str) -> (r: String)
    ensures
        r@ == strip_rfc_prefix(reference@),
{
    proof {
        reveal_strlit("RFC-");
    }
    let c = chars_of(reference);
    let n = c.len();
    if n >= 4 && c[0] == 'R' && c[1] == 'F' && c[2] == 'C' && c[3] == '-' {
        assert(reference@.take(4) =~= "RFC-"@);
        assert(reference@.subrange(4, n as int) =~= reference@.skip(4));
        reference.substring_char(4, n).to_owned()
    } else {
        if n >= 4 {
            assert(reference@.take(4) != "RFC-"@) by {
                if reference@.take(4) == "RFC-"@ {
                    assert(reference@.take(4)[0] == 'R');
                    assert(reference@.take(4)[1] == 'F');
                    assert(reference@.take(4)[2] == 'C');
                    assert(reference@.take(4)[3] == '-');
                }
            }
        }
        reference.to_owned()
    }
}

/// What a forward dependency listing says of one reference, given what the
/// normaliser made of it.
pub open spec fn forward_item(
    reference: Seq<char>,
    normalized: Result<Seq<char>, Seq<char>>,
    entries: Seq<IndexEntryV>,
) -> JsonV {
    match normalized {
        Ok(number) => match find_entry(entries, number) {
            Some(k) => dependency_json(entries[k]),
            None => obj(
                seq![
                    ("reference"@, JsonV::Str(reference)),
                    ("number"@, JsonV::Str(number)),
                    ("not_found"@, JsonV::Bool(true)),
                ],
            ),
        },
        Err(_) => obj(seq![("reference"@, JsonV::Str(reference)), ("invalid"@, JsonV::Bool(true))]),
    }
}

/// The RFCs that list `reference` among their dependencies, in index order.
pub open spec fn dependents(entries: Seq<IndexEntryV>, reference: Seq<char>) -> Seq<JsonV>
    decreases entries.len(),
{
    if entries.len() == 0 {
        Seq::empty()
    } else {
        let rest = dependents(entries.drop_last(), reference);
        if entries.last().dependencies.contains(reference) {
            rest.push(dependency_json(entries.last()))
        } else {
            rest
        }
    }
}

pub open spec fn dependencies_json(normalized: Seq<char>, reverse: bool, items: Seq<JsonV>) -> JsonV {
    obj(
        seq![
            ("number"@, JsonV::Str(normalized)),
            ("reverse"@, JsonV::Bool(reverse)),
            ("dependencies"@, JsonV::Array(items)),
        ],
    )
}

/// The texts that a forward listing hands to the normaliser: the RFC's
/// references, each without its `RFC-` prefix.
pub open spec fn forward_inputs(normalized: Seq<char>, reverse: bool, entries: Seq<IndexEntryV>) -> Seq<
    Seq<char>,
> {
    match find_entry(entries, normalized) {
        Some(k) => if reverse {
            Seq::empty()
        } else {
            Seq::new(
                entries[k].dependencies.len(),
                |j: int| strip_rfc_prefix(entries[k].dependencies[j]),
            )
        },
        None => Seq::empty(),
    }
}

/// `get_rfc_dependencies`, once the index is loaded; `outs` is what the
/// normaliser made of each forward reference.
pub open spec fn dependencies_result(
    normalized: Seq<char>,
    reverse: bool,
    entries: Seq<IndexEntryV>,
    outs: Seq<Result<Seq<char>, Seq<char>>>,
) -> Result<JsonV, ToolErrorV> {
    match find_entry(entries, normalized) {
        None => Err(ToolErrorV::InvalidParams(not_found_text(normalized))),
        Some(k) => if reverse {
            Ok(dependencies_json(normalized, true, dependents(entries, "RFC-"@ + normalized)))
        } else {
            let refs = entries[k].dependencies;
            Ok(
                dependencies_json(
                    normalized,
                    false,
                    Seq::new(refs.len(), |j: int| forward_item(refs[j], outs[j], entries)),
                ),
            )
        },
    }
}

fn contains_text(v: &Vec<String>, s: &str) -> (r: bool)
    ensures
        r == texts_view(v@).contains(s@),
{
    let mut i: usize = 0;
    while i < v.len()
        invariant
            0 <= i <= v.len(),
            forall|j: int| 0 <= j < i ==> v@[j]@ != s@,
        decreases v.len() - i,
    {
        if same_text(v[i].as_str(), s) {
            assert(texts_view(v@)[i as int] == s@);
            return true;
        }
        i = i + 1;
    }
    assert forall|j: int| 0 <= j < texts_view(v@).len() implies texts_view(v@)[j] != s@ by {}
    false
}

fn forward_entry<F: Fn(&str) -> Result<String, String>>(
    reference: &String,
    index: &Index,
    normalize: &F,
) -> (r: (Json, Ghost<Result<Seq<char>, Seq<char>>>))
    requires
        total_normalizer(*normalize),
    ensures
        normalizes(*normalize, strip_rfc_prefix(reference@), r.1@),
        r.0@ == forward_item(reference@, r.1@, index@.rfcs),
{
    let stripped = strip_rfc_prefix_text(reference.as_str());
    let res = normalize(stripped.as_str());
    let ghost n = text_result_view(res);
    assert(normalizes(*normalize, stripped@, n));
    proof {
        lemma_find_from(index@.rfcs, n->Ok_0, 0);
    }
    let item = match res {
        Ok(number) => match find_entry_index(&index.rfcs, number.as_str()) {
            Some(k) => index_entry_to_dependency_json(&index.rfcs[k]),
            None => {
                let mut f: Vec<(String, Json)> = Vec::new();
                push_field(&mut f, "reference", Json::Str(reference.clone()));
                push_field(&mut f, "number", Json::Str(number));
                push_field(&mut f, "not_found", Json::Bool(true));
                let r = object(f);
                assert(fields_view(f@) =~= forward_item(reference@, n, index@.rfcs)->Object_0);
                r
            },
        },
        Err(_) => {
            let mut f: Vec<(String, Json)> = Vec::new();
            push_field(&mut f, "reference", Json::Str(reference.clone()));
            push_field(&mut f, "invalid", Json::Bool(true));
            let r = object(f);
            assert(fields_view(f@) =~= forward_item(reference@, n, index@.rfcs)->Object_0);
            r
        },
    };
    (item, Ghost(n))
}

fn dependencies_object(normalized: &String, reverse: bool, items: Vec<Json>) -> (r: Json)
    ensures
        r@ == dependencies_json(normalized@, reverse, crate::json::items_view(items@)),
{
    let arr = array(items);
    let mut f: Vec<(String, Json)> = Vec::new();
    push_field(&mut f, "number", Json::Str(normalized.clone()));
    push_field(&mut f, "reverse", Json::Bool(reverse));
    push_field(&mut f, "dependencies", arr);
    let r = object(f);
    assert(fields_view(f@) =~= dependencies_json(
        normalized@,
        reverse,
        crate::json::items_view(items@),
    )->Object_0);
    r
}

/// `get_rfc_dependencies`, once the index is loaded: the RFCs that the RFC
/// depends on, or with `reverse` those that depend on it.
pub fn get_rfc_dependencies<F: Fn(&str) -> Result<String, String>>(
    normalized: &String,
    reverse: bool,
    index: &Index,
    normalize: &F,
) -> (r: Result<Json, ToolError>)
    requires
        total_normalizer(*normalize),
    ensures
        exists|outs: Seq<Result<Seq<char>, Seq<char>>>|
            {
                &&& outs.len() == forward_inputs(normalized@, reverse, index@.rfcs).len()
                &&& forall|j: int|
                    0 <= j < outs.len() ==> normalizes(
                        *normalize,
                        #[trigger] forward_inputs(normalized@, reverse, index@.rfcs)[j],
                        outs[j],
                    )
                &&& tool_result_view(r) == dependencies_result(
                    normalized@,
                    reverse,
                    index@.rfcs,
                    outs,
                )
            },
{
    let ghost ev = index@.rfcs;
    let ghost none: Seq<Result<Seq<char>, Seq<char>>> = Seq::empty();
    proof {
        lemma_find_from(ev, normalized@, 0);
    }
    let k = match find_entry_index(&index.rfcs, normalized.as_str()) {
        None => {
            let r = Err(invalid_params(not_found_message(normalized.as_str())));
            assert(tool_result_view(r) == dependencies_result(normalized@, reverse, ev, none));
            return r;
        },
        Some(k) => k,
    };
    if reverse {
        let reference = concat("RFC-", normalized.as_str());
        let mut items: Vec<Json> = Vec::new();
        let mut i: usize = 0;
        while i < index.rfcs.len()
            invariant
                0 <= i <= index.rfcs.len(),
                ev == index@.rfcs,
                ev == entries_view(index.rfcs@),
                reference@ == "RFC-"@ + normalized@,
                crate::json::items_view(items@) == dependents(ev.take(i as int), reference@),
            decreases index.rfcs.len() - i,
        {
            let entry = &index.rfcs[i];
            assert(ev.take(i + 1).drop_last() =~= ev.take(i as int));
            assert(ev.take(i + 1).last() == entry@);
            if contains_text(&entry.dependencies, reference.as_str()) {
                push_item(&mut items, index_entry_to_dependency_json(entry));
            }
            i = i + 1;
        }
        assert(ev.take(i as int) =~= ev);
        let r = Ok(dependencies_object(normalized, true, items));
        assert(tool_result_view(r) == dependencies_result(normalized@, reverse, ev, none));
        return r;
    }
    let refs = &index.rfcs[k].dependencies;
    let ghost inputs = forward_inputs(normalized@, reverse, ev);
    let ghost rv = texts_view(refs@);
    assert(ev[k as int].dependencies == rv);
    let mut items: Vec<Json> = Vec::new();
    let ghost mut outs: Seq<Result<Seq<char>, Seq<char>>> = Seq::empty();
    let mut j: usize = 0;
    while j < refs.len()
        invariant
            0 <= j <= refs.len(),
            total_normalizer(*normalize),
            ev == index@.rfcs,
            rv == texts_view(refs@),
            inputs.len() == refs.len(),
            forall|q: int| 0 <= q < refs.len() ==> inputs[q] == strip_rfc_prefix(rv[q]),
            outs.len() == j,
            items@.len() == j,
            forall|q: int| 0 <= q < j ==> normalizes(*normalize, inputs[q], outs[q]),
            forall|q: int|
                0 <= q < j ==> (#[trigger] items@[q])@ == forward_item(rv[q], outs[q], ev),
        decreases refs.len() - j,
    {
        let (item, Ghost(n)) = forward_entry(&refs[j], index, normalize);
        items.push(item);
        proof {
            outs = outs.push(n);
        }
        j = j + 1;
    }
    let r = Ok(dependencies_object(normalized, false, items));
    assert(crate::json::items_view(items@) =~= Seq::new(
        rv.len(),
        |q: int| forward_item(rv[q], outs[q], ev),
    ));
    assert(tool_result_view(r) == dependencies_result(normalized@, reverse, ev, outs));
    r
}

pub open spec fn index_missing_text() -> Seq<char> {
    "docs/rfcs/ not found. Run \"rfc-cli init\" first."@
}

pub open spec fn index_result_view(r: Result<Index, ToolError>) -> Result<IndexV, ToolErrorV> {
    match r {
        Ok(i) => Ok(i@),
        Err(e) => Err(e@),
    }
}

pub open spec fn loaded_view(r: Result<Index, String>) -> Result<IndexV, Seq<char>> {
    match r {
        Ok(i) => Ok(i@),
        Err(e) => Err(e@),
    }
}

/// The index that the read-only tools work on: an internal error where the
/// project has no `docs/rfcs/` directory, or where loading the index (or
/// bringing it up to date with the RFC files, without writing it) failed.
pub open spec fn readonly_index_result(rfcs_dir_exists: bool, loaded: Result<IndexV, Seq<char>>) -> Result<
    IndexV,
    ToolErrorV,
> {
    if !rfcs_dir_exists {
        Err(ToolErrorV::Internal(index_missing_text()))
    } else {
        match loaded {
            Ok(i) => Ok(i),
            Err(m) => Err(ToolErrorV::Internal(m)),
        }
    }
}

pub fn load_readonly_index(rfcs_dir_exists: bool, loaded: Result<Index, String>) -> (r: Result<
    Index,
    ToolError,
>)
    ensures
        index_result_view(r) == readonly_index_result(rfcs_dir_exists, loaded_view(loaded)),
{
    if !rfcs_dir_exists {
        return Err(internal("docs/rfcs/ not found. Run \"rfc-cli init\" first.".to_owned()));
    }
    match loaded {
        Ok(i) => Ok(i),
        Err(m) => Err(internal(m)),
    }
}

/// What a planned tool call reads before it can answer.
#[derive(Debug)]
pub enum ToolData {
    /// Nothing (`ping`).
    Nothing,
    /// The read-only index.
    Index(Result<Index, ToolError>),
    /// The RFC's file: its content, nothing where it does not exist, or why
    /// it could not be read.
    Document(Result<Option<String>, String>),
}

pub enum ToolDataV {
    Nothing,
    Index(Result<IndexV, ToolErrorV>),
    Document(Result<Option<Seq<char>>, Seq<char>>),
}

impl View for ToolData {
    type V = ToolDataV;

    open spec fn view(&self) -> ToolDataV {
        match self {
            ToolData::Nothing => ToolDataV::Nothing,
            ToolData::Index(r) => ToolDataV::Index(index_result_view(*r)),
            ToolData::Document(d) => ToolDataV::Document(document_view(*d)),
        }
    }
}

/// What each planned call reads.
pub open spec fn data_fits(call: ToolCallV, data: ToolDataV) -> bool {
    match call {
        ToolCallV::Ping => data is Nothing,
        ToolCallV::ViewRfc { .. } => data is Document,
        _ => data is Index,
    }
}

/// What `ToolCall::needs` answers.
#[derive(Debug)]
pub enum Need {
    Nothing,
    Index,
    Document,
}

impl ToolCall {
    /// What the call reads before it can answer.
    pub fn needs(&self) -> (r: Need)
        ensures
            r is Nothing <==> self@ is Ping,
            r is Document <==> self@ is ViewRfc,
            r is Index <==> !(self@ is Ping || self@ is ViewRfc),
    {
        match self {
            ToolCall::Ping => Need::Nothing,
            ToolCall::ViewRfc { .. } => Need::Document,
            _ => Need::Index,
        }
    }
}

/// `{"ok": true, "message": "pong"}`
pub open spec fn pong_json() -> JsonV {
    obj(seq![("ok"@, JsonV::Bool(true)), ("message"@, JsonV::Str("pong"@))])
}

/// The texts that running `call` hands to the normaliser.
pub open spec fn run_inputs(call: ToolCallV, data: ToolDataV) -> Seq<Seq<char>> {
    match (call, data) {
        (ToolCallV::GetRfcDependencies { normalized, reverse }, ToolDataV::Index(Ok(ix))) => forward_inputs(normalized, reverse, ix.rfcs),
        _ => Seq::empty(),
    }
}

/// The structured result of a planned tool call, given what it read and what
/// the normaliser made of the texts it was handed.
pub open spec fn run_spec(call: ToolCallV, data: ToolDataV, outs: Seq<Result<Seq<char>, Seq<char>>>) -> Result<
    JsonV,
    ToolErrorV,
> {
    match call {
        ToolCallV::Ping => Ok(pong_json()),
        ToolCallV::ViewRfc { number, normalized } => match data {
            ToolDataV::Document(d) => view_result(normalized, d),
            _ => Err(ToolErrorV::Internal(Seq::empty())),
        },
        ToolCallV::ListRfcs { status } => match data {
            ToolDataV::Index(Ok(ix)) => Ok(list_json(ix.rfcs, status)),
            ToolDataV::Index(Err(e)) => Err(e),
            _ => Err(ToolErrorV::Internal(Seq::empty())),
        },
        ToolCallV::GetRfcStatus { normalized } => match data {
            ToolDataV::Index(Ok(ix)) => status_result(normalized, ix.rfcs),
            ToolDataV::Index(Err(e)) => Err(e),
            _ => Err(ToolErrorV::Internal(Seq::empty())),
        },
        ToolCallV::GetRfcDependencies { normalized, reverse } => match data {
            ToolDataV::Index(Ok(ix)) => dependencies_result(normalized, reverse, ix.rfcs, outs),
            ToolDataV::Index(Err(e)) => Err(e),
            _ => Err(ToolErrorV::Internal(Seq::empty())),
        },
    }
}

/// Runs a planned tool call on what it read.
pub fn run_tool<F: Fn(&str) -> Result<String, String>>(
    call: ToolCall,
    data: ToolData,
    normalize: &F,
) -> (r: Result<Json, ToolError>)
    requires
        total_normalizer(*normalize),
        data_fits(call@, data@),
    ensures
        exists|outs: Seq<Result<Seq<char>, Seq<char>>>|
            {
                &&& outs.len() == run_inputs(call@, data@).len()
                &&& forall|j: int|
                    0 <= j < outs.len() ==> normalizes(
                        *normalize,
                        #[trigger] run_inputs(call@, data@)[j],
                        outs[j],
                    )
                &&& tool_result_view(r) == run_spec(call@, data@, outs)
            },
{
    let ghost none: Seq<Result<Seq<char>, Seq<char>>> = Seq::empty();
    let ghost cv = call@;
    let ghost dv = data@;
    match call {
        ToolCall::Ping => {
            let mut f: Vec<(String, Json)> = Vec::new();
            push_field(&mut f, "ok", Json::Bool(true));
            push_field(&mut f, "message", text("pong"));
            let r = Ok(object(f));
            assert(fields_view(f@) =~= pong_json()->Object_0);
            assert(tool_result_view(r) == run_spec(cv, dv, none));
            assert(run_inputs(cv, dv).len() == 0);
            r
        },
        ToolCall::ViewRfc { number, normalized } => match data {
            ToolData::Document(d) => {
                let r = view_rfc(&normalized, d);
                assert(tool_result_view(r) == run_spec(cv, dv, none));
                r
            },
            _ => {
                assert(false);
                Err(internal(String::new()))
            },
        },
        ToolCall::ListRfcs { status } => match data {
            ToolData::Index(Ok(ix)) => {
                let r = Ok(list_rfcs(&status, &ix));
                assert(tool_result_view(r) == run_spec(cv, dv, none));
                r
            },
            ToolData::Index(Err(e)) => {
                let r = Err(e);
                assert(tool_result_view(r) == run_spec(cv, dv, none));
                r
            },
            _ => {
                assert(false);
                Err(internal(String::new()))
            },
        },
        ToolCall::GetRfcStatus { normalized } => match data {
            ToolData::Index(Ok(ix)) => {
                let r = get_rfc_status(&normalized, &ix);
                assert(tool_result_view(r) == run_spec(cv, dv, none));
                r
            },
            ToolData::Index(Err(e)) => {
                let r = Err(e);
                assert(tool_result_view(r) == run_spec(cv, dv, none));
                r
            },
            _ => {
                assert(false);
                Err(internal(String::new()))
            },
        },
        ToolCall::GetRfcDependencies { normalized, reverse } => match data {
            ToolData::Index(Ok(ix)) => {
                let r = get_rfc_dependencies(&normalized, reverse, &ix, normalize);
                proof {
                    let inputs = forward_inputs(normalized@, reverse, ix@.rfcs);
                    let outs = choose|outs: Seq<Result<Seq<char>, Seq<char>>>|
                        {
                            &&& outs.len() == inputs.len()
                            &&& forall|j: int|
                                0 <= j < outs.len() ==> normalizes(
                                    *normalize,
                                    #[trigger] inputs[j],
                                    outs[j],
                                )
                            &&& tool_result_view(r) == dependencies_result(
                                normalized@,
                                reverse,
                                ix@.rfcs,
                                outs,
                            )
                        };
                    assert(run_inputs(cv, dv) == inputs);
                    assert(tool_result_view(r) == run_spec(cv, dv, outs));
                }
                r
            },
            ToolData::Index(Err(e)) => {
                let r = Err(e);
                assert(tool_result_view(r) == run_spec(cv, dv, none));
                r
            },
            _ => {
                assert(false);
                Err(internal(String::new()))
            },
        },
    }
}

/// The answer to a `tools/call` request: the structured result with its JSON
/// text as content, or the error with its JSON-RPC code.
pub open spec fn tool_response_json(
    id: JsonV,
    outcome: Result<JsonV, ToolErrorV>,
    serialized: Result<Seq<char>, Seq<char>>,
) -> JsonV {
    match outcome {
        Ok(structured) => match serialized {
            Ok(t) => success_json(
                id,
                obj(
                    seq![
                        (
                            "content"@,
                            JsonV::Array(
                                seq![obj(seq![("type"@, JsonV::Str("text"@)), ("text"@, JsonV::Str(t))])],
                            ),
                        ),
                        ("structuredContent"@, structured),
                        ("isError"@, JsonV::Bool(false)),
                    ],
                ),
            ),
            Err(e) => error_json(id, -32603, "Failed to serialize result: "@ + e),
        },
        Err(ToolErrorV::InvalidParams(m)) => error_json(id, -32602, m),
        Err(ToolErrorV::Internal(m)) => error_json(id, -32603, m),
    }
}

/// Builds the response to a tool call from its outcome; `serialized` is the
/// JSON text of a structured result (and is not read after an error).
pub fn tool_call_response(id: Json, outcome: Result<Json, ToolError>, serialized: Result<String, String>) -> (r: Json)
    ensures
        r@ == tool_response_json(id@, tool_result_view(outcome), text_result_view(serialized)),
{
    match outcome {
        Ok(structured) => match serialized {
            Ok(t) => {
                let mut item: Vec<(String, Json)> = Vec::new();
                push_field(&mut item, "type", text("text"));
                push_field(&mut item, "text", Json::Str(t));
                let item_json = object(item);
                let mut items: Vec<Json> = Vec::new();
                push_item(&mut items, item_json);
                let content = array(items);
                let mut f: Vec<(String, Json)> = Vec::new();
                push_field(&mut f, "content", content);
                push_field(&mut f, "structuredContent", structured);
                push_field(&mut f, "isError", Json::Bool(false));
                let result = object(f);
                assert(fields_view(item@) =~= seq![("type"@, JsonV::Str("text"@)), ("text"@, JsonV::Str(t@))]);
                assert(crate::json::items_view(items@) =~= seq![obj(seq![("type"@, JsonV::Str("text"@)), ("text"@, JsonV::Str(t@))])]);
                assert(fields_view(f@) =~= tool_response_json(id@, tool_result_view(outcome), text_result_view(serialized))->Object_0[2].1->Object_0);
                success(id, result)
            },
            Err(e) => error(id, -32603, concat("Failed to serialize result: ", e.as_str()).as_str()),
        },
        Err(ToolError::InvalidParams(m)) => error(id, -32602, m.as_str()),
        Err(ToolError::Internal(m)) => error(id, -32603, m.as_str()),
    }
}

/// What the server does with a request.
#[derive(Debug)]
pub enum Dispatch {
    /// Send this response.
    Reply(Json),
    /// Run this tool call (after reading what it needs) and answer `id`.
    CallTool { id: Json, call: ToolCall },
}

pub enum DispatchV {
    Reply(JsonV),
    CallTool { id: JsonV, call: ToolCallV },
}

impl View for Dispatch {
    type V = DispatchV;

    open spec fn view(&self) -> DispatchV {
        match self {
            Dispatch::Reply(j) => DispatchV::Reply(j@),
            Dispatch::CallTool { id, call } => DispatchV::CallTool { id: id@, call: call@ },
        }
    }
}

/// The `initialize` result: protocol version, capabilities and server info.
pub open spec fn initialize_json() -> JsonV {
    obj(
        seq![
            ("protocolVersion"@, JsonV::Str("2024-11-05"@)),
            ("capabilities"@, obj(seq![("tools"@, obj(Seq::empty()))])),
            (
                "serverInfo"@,
                obj(seq![("name"@, JsonV::Str("rfc-cli"@)), ("version"@, JsonV::Str("0.1.4"@))]),
            ),
        ],
    )
}

pub open spec fn request_method(request: JsonV) -> Option<Seq<char>> {
    match get_field(request, "method"@) {
        Some(JsonV::Str(m)) => Some(m),
        _ => None,
    }
}

/// A field of an object, or `{}` where there is none.
pub open spec fn field_or_empty(value: JsonV, key: Seq<char>) -> JsonV {
    match get_field(value, key) {
        Some(v) => v,
        None => obj(Seq::empty()),
    }
}

pub open spec fn tool_name(params: JsonV) -> Option<Seq<char>> {
    match get_field(params, "name"@) {
        Some(JsonV::Str(s)) if s.len() > 0 => Some(s),
        _ => None,
    }
}

/// The answer to a `tools/call` request `id` with `params`.
pub open spec fn tool_call_dispatch(id: JsonV, params: JsonV, n: Result<Seq<char>, Seq<char>>) -> DispatchV {
    match tool_name(params) {
        None => DispatchV::Reply(
            error_json(id, -32602, "tools/call requires non-empty field: name"@),
        ),
        Some(name) => match plan_spec(name, field_or_empty(params, "arguments"@), n) {
            Ok(call) => DispatchV::CallTool { id, call },
            Err(e) => DispatchV::Reply(tool_response_json(id, Err(e), Ok(Seq::empty()))),
        },
    }
}

/// The RFC number that handling `request` normalises, if any.
pub open spec fn request_normalized_input(request: JsonV) -> Option<Seq<char>> {
    if request_method(request) == Some("tools/call"@) && get_field(request, "id"@) is Some {
        let params = field_or_empty(request, "params"@);
        match tool_name(params) {
            Some(name) => normalized_input(name, field_or_empty(params, "arguments"@)),
            None => None,
        }
    } else {
        None
    }
}

/// How the server handles `request`: a request without a method is an
/// error; a notification (no `id`) gets no answer; `initialize`, `ping` and
/// `tools/list` are answered at once, `tools/call` is planned, and any other
/// method is answered "not found".
pub open spec fn request_spec(
    request: JsonV,
    statuses: Seq<Seq<char>>,
    n: Result<Seq<char>, Seq<char>>,
) -> Result<Option<DispatchV>, Seq<char>> {
    match request_method(request) {
        None => Err("MCP message missing method"@),
        Some(method) => match get_field(request, "id"@) {
            None => Ok(None),
            Some(id) => {
                let params = field_or_empty(request, "params"@);
                Ok(
                    Some(
                        if method == "initialize"@ {
                            DispatchV::Reply(success_json(id, initialize_json()))
                        } else if method == "ping"@ {
                            DispatchV::Reply(success_json(id, obj(Seq::empty())))
                        } else if method == "tools/list"@ {
                            DispatchV::Reply(
                                success_json(
                                    id,
                                    obj(seq![("tools"@, JsonV::Array(tool_specs_json(statuses)))]),
                                ),
                            )
                        } else if method == "tools/call"@ {
                            tool_call_dispatch(id, params, n)
                        } else {
                            DispatchV::Reply(error_json(id, -32601, "Method not found: "@ + method))
                        },
                    ),
                )
            },
        },
    }
}

pub open spec fn dispatch_result_view(r: Result<Option<Dispatch>, String>) -> Result<
    Option<DispatchV>,
    Seq<char>,
> {
    match r {
        Ok(Some(d)) => Ok(Some(d@)),
        Ok(None) => Ok(None),
        Err(e) => Err(e@),
    }
}

/// The methods differ from one another.
pub proof fn lemma_method_names()
    ensures
        "initialize"@ != "ping"@,
        "initialize"@ != "tools/list"@,
        "initialize"@ != "tools/call"@,
        "ping"@ != "tools/list"@,
        "ping"@ != "tools/call"@,
        "tools/list"@ != "tools/call"@,
{
    reveal_strlit("initialize");
    reveal_strlit("ping");
    reveal_strlit("tools/list");
    reveal_strlit("tools/call");
    assert("initialize"@[0] != "tools/list"@[0]);
    assert("initialize"@[0] != "tools/call"@[0]);
    assert("tools/list"@[6] != "tools/call"@[6]);
}

fn initialize_result() -> (r: Json)
    ensures
        r@ == initialize_json(),
{
    let mut caps: Vec<(String, Json)> = Vec::new();
    push_field(&mut caps, "tools", object(Vec::new()));
    let mut info: Vec<(String, Json)> = Vec::new();
    push_field(&mut info, "name", text("rfc-cli"));
    push_field(&mut info, "version", text("0.1.4"));
    let mut f: Vec<(String, Json)> = Vec::new();
    push_field(&mut f, "protocolVersion", text("2024-11-05"));
    push_field(&mut f, "capabilities", object(caps));
    push_field(&mut f, "serverInfo", object(info));
    let r = object(f);
    assert(fields_view(Seq::<(String, Json)>::empty()) =~= Seq::empty());
    assert(fields_view(caps@) =~= seq![("tools"@, obj(Seq::empty()))]);
    assert(fields_view(info@) =~= seq![("name"@, JsonV::Str("rfc-cli"@)), ("version"@, JsonV::Str("0.1.4"@))]);
    assert(fields_view(f@) =~= initialize_json()->Object_0);
    r
}

/// A field of an object, copied, or `{}` where there is none.
fn copy_field_or_empty(value: &Json, key: &str) -> (r: Json)
    ensures
        r@ == field_or_empty(value@, key@),
{
    match value.get(key) {
        Some(v) => v.deep_copy(),
        None => {
            let r = object(Vec::new());
            assert(fields_view(Seq::<(String, Json)>::empty()) =~= Seq::empty());
            r
        },
    }
}

/// Handles one JSON-RPC request.
pub fn handle_request<F: Fn(&str) -> Result<String, String>>(
    request: &Json,
    valid_statuses: &Vec<String>,
    normalize: &F,
) -> (r: Result<Option<Dispatch>, String>)
    requires
        total_normalizer(*normalize),
    ensures
        exists|n: Result<Seq<char>, Seq<char>>|
            {
                &&& (request_normalized_input(request@) matches Some(number) ==> normalizes(
                    *normalize,
                    number,
                    n,
                ))
                &&& dispatch_result_view(r) == request_spec(request@, texts_view(valid_statuses@), n)
            },
{
    let ghost unnormalized: Result<Seq<char>, Seq<char>> = Err(Seq::empty());
    let ghost statuses = texts_view(valid_statuses@);
    proof {
        lemma_method_names();
    }
    let method = match request.get("method") {
        Some(m) => match m.as_text() {
            Some(s) => s,
            None => {
                let r = Err("MCP message missing method".to_owned());
                assert(dispatch_result_view(r) == request_spec(request@, statuses, unnormalized));
                return r;
            },
        },
        None => {
            let r = Err("MCP message missing method".to_owned());
            assert(dispatch_result_view(r) == request_spec(request@, statuses, unnormalized));
            return r;
        },
    };
    let id = match request.get("id") {
        Some(v) => v.deep_copy(),
        None => {
            let r = Ok(None);
            assert(dispatch_result_view(r) == request_spec(request@, statuses, unnormalized));
            return r;
        },
    };
    let params = copy_field_or_empty(request, "params");
    if same_text(method.as_str(), "initialize") {
        let r = Ok(Some(Dispatch::Reply(success(id, initialize_result()))));
        assert(dispatch_result_view(r) == request_spec(request@, statuses, unnormalized));
        return r;
    }
    if same_text(method.as_str(), "ping") {
        let r = Ok(Some(Dispatch::Reply(success(id, object(Vec::new())))));
        assert(fields_view(Seq::<(String, Json)>::empty()) =~= Seq::empty());
        assert(dispatch_result_view(r) == request_spec(request@, statuses, unnormalized));
        return r;
    }
    if same_text(method.as_str(), "tools/list") {
        let tools = array(tool_specs(valid_statuses));
        let mut f: Vec<(String, Json)> = Vec::new();
        push_field(&mut f, "tools", tools);
        let result = object(f);
        assert(fields_view(f@) =~= seq![("tools"@, JsonV::Array(tool_specs_json(statuses)))]);
        let r = Ok(Some(Dispatch::Reply(success(id, result))));
        assert(dispatch_result_view(r) == request_spec(request@, statuses, unnormalized));
        return r;
    }
    if same_text(method.as_str(), "tools/call") {
        let name = match params.get("name") {
            Some(Json::Str(s)) => {
                if s.as_str().is_empty() {
                    None
                } else {
                    Some(s)
                }
            },
            _ => None,
        };
        let name = match name {
            Some(s) => s,
            None => {
                let r = Ok(
                    Some(
                        Dispatch::Reply(
                            error(id, -32602, "tools/call requires non-empty field: name"),
                        ),
                    ),
                );
                assert(dispatch_result_view(r) == request_spec(request@, statuses, unnormalized));
                return r;
            },
        };
        let arguments = copy_field_or_empty(&params, "arguments");
        let plan = plan_tool(name.as_str(), &arguments, normalize);
        let ghost n = choose|n: Result<Seq<char>, Seq<char>>|
            {
                &&& (normalized_input(name@, arguments@) matches Some(number) ==> normalizes(
                    *normalize,
                    number,
                    n,
                ))
                &&& plan_result_view(plan) == plan_spec(name@, arguments@, n)
            };
        let r = match plan {
            Ok(call) => Ok(Some(Dispatch::CallTool { id, call })),
            Err(e) => Ok(Some(Dispatch::Reply(tool_call_response(id, Err(e), Ok(String::new()))))),
        };
        assert(dispatch_result_view(r) == request_spec(request@, statuses, n));
        return r;
    }
    let r = Ok(
        Some(Dispatch::Reply(error(id, -32601, concat("Method not found: ", method.as_str()).as_str()))),
    );
    assert(dispatch_result_view(r) == request_spec(request@, statuses, unnormalized));
    r
}

/// What the server read from the client next.
#[derive(Debug)]
pub enum Incoming {
    /// The client closed the stream.
    End,
    /// The stream could not be read as a message; why.
    Unreadable(String),
    /// A JSON-RPC request or notification.
    Request(Json),
}

pub enum IncomingV {
    End,
    Unreadable(Seq<char>),
    Request(JsonV),
}

impl View for Incoming {
    type V = IncomingV;

    open spec fn view(&self) -> IncomingV {
        match self {
            Incoming::End => IncomingV::End,
            Incoming::Unreadable(m) => IncomingV::Unreadable(m@),
            Incoming::Request(j) => IncomingV::Request(j@),
        }
    }
}

/// What the server does next.
#[derive(Debug)]
pub enum Turn {
    /// Stop serving, successfully or with this error.
    Stop(Result<(), String>),
    /// Nothing to answer; read the next message.
    Skip,
    /// Send this response, then read the next message.
    Answer(Json),
    /// Run this tool call, send its response to `id`, then read on.
    Call { id: Json, call: ToolCall },
}

pub enum TurnV {
    Stop(Result<(), Seq<char>>),
    Skip,
    Answer(JsonV),
    Call { id: JsonV, call: ToolCallV },
}

impl View for Turn {
    type V = TurnV;

    open spec fn view(&self) -> TurnV {
        match self {
            Turn::Stop(Ok(())) => TurnV::Stop(Ok(())),
            Turn::Stop(Err(m)) => TurnV::Stop(Err(m@)),
            Turn::Skip => TurnV::Skip,
            Turn::Answer(j) => TurnV::Answer(j@),
            Turn::Call { id, call } => TurnV::Call { id: id@, call: call@ },
        }
    }
}

/// One turn of the server loop: the end of the stream stops it cleanly, an
/// unreadable stream or a request without a method stops it with the error,
/// and every other request is handled as `request_spec` says.
pub open spec fn turn_spec(
    incoming: IncomingV,
    statuses: Seq<Seq<char>>,
    n: Result<Seq<char>, Seq<char>>,
) -> TurnV {
    match incoming {
        IncomingV::End => TurnV::Stop(Ok(())),
        IncomingV::Unreadable(m) => TurnV::Stop(Err(m)),
        IncomingV::Request(request) => match request_spec(request, statuses, n) {
            Err(m) => TurnV::Stop(Err(m)),
            Ok(None) => TurnV::Skip,
            Ok(Some(DispatchV::Reply(response))) => TurnV::Answer(response),
            Ok(Some(DispatchV::CallTool { id, call })) => TurnV::Call { id, call },
        },
    }
}

pub open spec fn incoming_normalized_input(incoming: IncomingV) -> Option<Seq<char>> {
    match incoming {
        IncomingV::Request(request) => request_normalized_input(request),
        _ => None,
    }
}

/// Runs the MCP server one message at a time: what to do with what was read.
pub fn execute<F: Fn(&str) -> Result<String, String>>(
    incoming: Incoming,
    valid_statuses: &Vec<String>,
    normalize: &F,
) -> (r: Turn)
    requires
        total_normalizer(*normalize),
    ensures
        exists|n: Result<Seq<char>, Seq<char>>|
            {
                &&& (incoming_normalized_input(incoming@) matches Some(number) ==> normalizes(
                    *normalize,
                    number,
                    n,
                ))
                &&& r@ == turn_spec(incoming@, texts_view(valid_statuses@), n)
            },
{
    let ghost unnormalized: Result<Seq<char>, Seq<char>> = Err(Seq::empty());
    let ghost iv = incoming@;
    let ghost statuses = texts_view(valid_statuses@);
    match incoming {
        Incoming::End => {
            let r = Turn::Stop(Ok(()));
            assert(r@ == turn_spec(iv, statuses, unnormalized));
            r
        },
        Incoming::Unreadable(m) => {
            let r = Turn::Stop(Err(m));
            assert(r@ == turn_spec(iv, statuses, unnormalized));
            r
        },
        Incoming::Request(request) => {
            let handled = handle_request(&request, valid_statuses, normalize);
            let ghost n = choose|n: Result<Seq<char>, Seq<char>>|
                {
                    &&& (request_normalized_input(request@) matches Some(number) ==> normalizes(
                        *normalize,
                        number,
                        n,
                    ))
                    &&& dispatch_result_view(handled) == request_spec(request@, statuses, n)
                };
            let r = match handled {
                Err(m) => Turn::Stop(Err(m)),
                Ok(None) => Turn::Skip,
                Ok(Some(Dispatch::Reply(response))) => Turn::Answer(response),
                Ok(Some(Dispatch::CallTool { id, call })) => Turn::Call { id, call },
            };
            assert(r@ == turn_spec(iv, statuses, n));
            r
        },
    }
}

proof fn lemma_response_fields(id: JsonV, body_key: Seq<char>, body: JsonV)
    requires
        body_key == "result"@ || body_key == "error"@,
    ensures
        lookup(seq![("jsonrpc"@, JsonV::Str("2.0"@)), ("id"@, id), (body_key, body)], "id"@) == Some(
            id,
        ),
        lookup(seq![("jsonrpc"@, JsonV::Str("2.0"@)), ("id"@, id), (body_key, body)], "jsonrpc"@)
            == Some(JsonV::Str("2.0"@)),
{
    reveal_strlit("jsonrpc");
    reveal_strlit("id");
    reveal_strlit("result");
    reveal_strlit("error");
    let f = seq![("jsonrpc"@, JsonV::Str("2.0"@)), ("id"@, id), (body_key, body)];
    assert(f.drop_last() =~= seq![("jsonrpc"@, JsonV::Str("2.0"@)), ("id"@, id)]);
    assert(f.drop_last().drop_last() =~= seq![("jsonrpc"@, JsonV::Str("2.0"@))]);
    assert(f.drop_last().drop_last().drop_last() =~= Seq::<(Seq<char>, JsonV)>::empty());
    assert("jsonrpc"@ != "id"@) by {
        assert("jsonrpc"@.len() != "id"@.len());
    }
    reveal_with_fuel(lookup, 4);
}

/// A JSON-RPC response, success or error, has `"jsonrpc": "2.0"` and the
/// `id` of the request it answers.
pub open spec fn answers(response: JsonV, id: JsonV) -> bool {
    &&& get_field(response, "id"@) == Some(id)
    &&& get_field(response, "jsonrpc"@) == Some(JsonV::Str("2.0"@))
}

/// Every response to a tool call answers the call's `id`, whatever the
/// call's outcome.
pub proof fn lemma_tool_response_answers_id(
    id: JsonV,
    outcome: Result<JsonV, ToolErrorV>,
    serialized: Result<Seq<char>, Seq<char>>,
)
    ensures
        answers(tool_response_json(id, outcome, serialized), id),
{
    match outcome {
        Ok(structured) => match serialized {
            Ok(t) => {
                lemma_response_fields(
                    id,
                    "result"@,
                    tool_response_json(id, outcome, serialized)->Object_0[2].1,
                );
            },
            Err(e) => {
                lemma_response_fields(
                    id,
                    "error"@,
                    tool_response_json(id, outcome, serialized)->Object_0[2].1,
                );
            },
        },
        Err(e) => {
            lemma_response_fields(
                id,
                "error"@,
                tool_response_json(id, outcome, serialized)->Object_0[2].1,
            );
        },
    }
}

/// Every request that has a method and an `id` is answered: with a response
/// to that `id`, or with a tool call planned for that `id`.
pub proof fn lemma_request_answers_id(
    request: JsonV,
    statuses: Seq<Seq<char>>,
    n: Result<Seq<char>, Seq<char>>,
)
    requires
        request_method(request) is Some,
        get_field(request, "id"@) is Some,
    ensures
        request_spec(request, statuses, n) matches Ok(Some(d)) && match d {
            DispatchV::Reply(response) => answers(response, get_field(request, "id"@)->Some_0),
            DispatchV::CallTool { id, call } => id == get_field(request, "id"@)->Some_0,
        },
{
    let id = get_field(request, "id"@)->Some_0;
    let method = request_method(request)->Some_0;
    let params = field_or_empty(request, "params"@);
    let r = request_spec(request, statuses, n);
    let d = r->Ok_0->Some_0;
    match d {
        DispatchV::Reply(response) => {
            lemma_response_fields(id, "result"@, response->Object_0[2].1);
            lemma_response_fields(id, "error"@, response->Object_0[2].1);
            if method == "tools/call"@ {
                match tool_name(params) {
                    None => {},
                    Some(name) => match plan_spec(name, field_or_empty(params, "arguments"@), n) {
                        Ok(call) => {},
                        Err(e) => {
                            lemma_tool_response_answers_id(id, Err(e), Ok(Seq::empty()));
                        },
                    },
                }
            }
        },
        DispatchV::CallTool { .. } => {},
    }
}

/// A notification (a request without an `id`) gets no answer.
pub proof fn lemma_notification_unanswered(
    request: JsonV,
    statuses: Seq<Seq<char>>,
    n: Result<Seq<char>, Seq<char>>,
)
    requires
        request_method(request) is Some,
        get_field(request, "id"@) is None,
    ensures
        request_spec(request, statuses, n) == Ok::<Option<DispatchV>, Seq<char>>(None),
{
}

/// Without a status filter `list_rfcs` lists every RFC of the index, in
/// index order.
pub proof fn lemma_list_without_filter(entries: Seq<IndexEntryV>)
    ensures
        listed_rfcs(entries, None) == Seq::new(entries.len(), |i: int| entry_json(entries[i])),
    decreases entries.len(),
{
    if entries.len() > 0 {
        lemma_list_without_filter(entries.drop_last());
        assert(listed_rfcs(entries, None) =~= Seq::new(
            entries.len(),
            |i: int| entry_json(entries[i]),
        ));
    }
}

/// With a status filter `list_rfcs` lists exactly the RFCs that have that
/// status: each listed item is such an RFC, and each such RFC is listed.
pub proof fn lemma_list_with_filter(entries: Seq<IndexEntryV>, status: Seq<char>)
    ensures
        forall|j: int|
            0 <= j < listed_rfcs(entries, Some(status)).len() ==> exists|i: int|
                0 <= i < entries.len() && entries[i].status == status && #[trigger] listed_rfcs(
                    entries,
                    Some(status),
                )[j] == entry_json(entries[i]),
        forall|i: int|
            0 <= i < entries.len() && #[trigger] entries[i].status == status ==> listed_rfcs(
                entries,
                Some(status),
            ).contains(entry_json(entries[i])),
    decreases entries.len(),
{
    if entries.len() > 0 {
        let p = entries.drop_last();
        lemma_list_with_filter(p, status);
        let l = listed_rfcs(entries, Some(status));
        let lp = listed_rfcs(p, Some(status));
        assert forall|j: int| 0 <= j < l.len() implies exists|i: int|
            0 <= i < entries.len() && entries[i].status == status && #[trigger] l[j] == entry_json(
                entries[i],
            ) by {
            if j < lp.len() {
                assert(l[j] == lp[j]);
                let i = choose|i: int|
                    0 <= i < p.len() && p[i].status == status && #[trigger] lp[j] == entry_json(
                        p[i],
                    );
                assert(entries[i] == p[i]);
            } else {
                assert(l[j] == entry_json(entries.last()));
                assert(entries[entries.len() - 1] == entries.last());
            }
        }
        assert forall|i: int| 0 <= i < entries.len() && #[trigger] entries[i].status == status implies l.contains(
            entry_json(entries[i]),
        ) by {
            if i < p.len() {
                assert(p[i] == entries[i]);
                assert(lp.contains(entry_json(p[i])));
                let k = choose|k: int| 0 <= k < lp.len() && lp[k] == entry_json(p[i]);
                assert(l[k] == lp[k]);
            } else {
                assert(l[l.len() - 1] == entry_json(entries[i]));
            }
        }
    }
}

/// The reverse listing for a reference holds exactly the RFCs that list that
/// reference among their dependencies.
pub proof fn lemma_dependents(entries: Seq<IndexEntryV>, reference: Seq<char>)
    ensures
        forall|j: int|
            0 <= j < dependents(entries, reference).len() ==> exists|i: int|
                0 <= i < entries.len() && entries[i].dependencies.contains(reference)
                    && #[trigger] dependents(entries, reference)[j] == dependency_json(entries[i]),
        forall|i: int|
            0 <= i < entries.len() && (#[trigger] entries[i]).dependencies.contains(reference)
                ==> dependents(entries, reference).contains(dependency_json(entries[i])),
    decreases entries.len(),
{
    if entries.len() > 0 {
        let p = entries.drop_last();
        lemma_dependents(p, reference);
        let l = dependents(entries, reference);
        let lp = dependents(p, reference);
        assert forall|j: int| 0 <= j < l.len() implies exists|i: int|
            0 <= i < entries.len() && entries[i].dependencies.contains(reference) && #[trigger] l[j]
                == dependency_json(entries[i]) by {
            if j < lp.len() {
                assert(l[j] == lp[j]);
                let i = choose|i: int|
                    0 <= i < p.len() && p[i].dependencies.contains(reference) && #[trigger] lp[j]
                        == dependency_json(p[i]);
                assert(entries[i] == p[i]);
            } else {
                assert(l[j] == dependency_json(entries.last()));
                assert(entries[entries.len() - 1] == entries.last());
            }
        }
        assert forall|i: int|
            0 <= i < entries.len() && (#[trigger] entries[i]).dependencies.contains(
                reference,
            ) implies l.contains(dependency_json(entries[i])) by {
            if i < p.len() {
                assert(p[i] == entries[i]);
                assert(lp.contains(dependency_json(p[i])));
                let k = choose|k: int| 0 <= k < lp.len() && lp[k] == dependency_json(p[i]);
                assert(l[k] == lp[k]);
            } else {
                assert(l[l.len() - 1] == dependency_json(entries[i]));
            }
        }
    }
}

} // verus!
