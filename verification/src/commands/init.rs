//! `init`: what the command creates, and how it registers the MCP server in
//! the project's `.mcp.json`.
use vstd::prelude::*;

use crate::json::{
    array, get_field, fields_view, lemma_object_view, lookup, object, push_field, push_item, same_text, text,
    Json, JsonV,
};

verus! {

/// What `init` does in a project.
#[derive(Debug)]
pub struct InitActions {
    pub create_rfcs_dir: bool,
    pub create_index: bool,
    pub already_initialized: bool,
}

/// `init` creates what is missing, and says so when nothing is.
pub fn init_actions(rfcs_dir_exists: bool, index_exists: bool) -> (r: InitActions)
    ensures
        r.create_rfcs_dir == !rfcs_dir_exists,
        r.create_index == !index_exists,
        r.already_initialized == (rfcs_dir_exists && index_exists),
{
    InitActions {
        create_rfcs_dir: !rfcs_dir_exists,
        create_index: !index_exists,
        already_initialized: rfcs_dir_exists && index_exists,
    }
}

/// Why `.mcp.json` could not be updated.
#[derive(Debug)]
pub enum McpConfigError {
    /// The file does not hold a JSON object.
    NotAnObject,
    /// Its `mcpServers` is not a JSON object.
    ServersNotAnObject,
}

/// `{"command": "rfc-cli", "args": ["mcp"]}`
pub open spec fn server_entry_json() -> JsonV {
    JsonV::Object(
        seq![
            ("command"@, JsonV::Str("rfc-cli"@)),
            ("args"@, JsonV::Array(seq![JsonV::Str("mcp"@)])),
        ],
    )
}

/// The position of the first field named `key` from `i` on.
pub open spec fn key_from(fields: Seq<(Seq<char>, JsonV)>, key: Seq<char>, i: int) -> Option<int>
    decreases fields.len() - i,
{
    if i < 0 || i >= fields.len() {
        None
    } else if fields[i].0 == key {
        Some(i)
    } else {
        key_from(fields, key, i + 1)
    }
}

/// The fields with `key` set to `value`: the field keeps its place where it
/// exists, and comes last where it did not.
pub open spec fn set_field(fields: Seq<(Seq<char>, JsonV)>, key: Seq<char>, value: JsonV) -> Seq<
    (Seq<char>, JsonV),
> {
    match key_from(fields, key, 0) {
        Some(i) => fields.update(i, (key, value)),
        None => fields.push((key, value)),
    }
}

/// The configuration with the `rfc-cli` server registered under
/// `mcpServers` (which is created where it is missing).
pub open spec fn updated_config(config: JsonV) -> Result<JsonV, McpConfigError> {
    match config {
        JsonV::Object(fields) => {
            let servers = match lookup(fields, "mcpServers"@) {
                Some(v) => v,
                None => JsonV::Object(Seq::empty()),
            };
            match servers {
                JsonV::Object(entries) => Ok(
                    JsonV::Object(
                        set_field(
                            fields,
                            "mcpServers"@,
                            JsonV::Object(set_field(entries, "rfc-cli"@, server_entry_json())),
                        ),
                    ),
                ),
                _ => Err(McpConfigError::ServersNotAnObject),
            }
        },
        _ => Err(McpConfigError::NotAnObject),
    }
}

pub proof fn lemma_key_from(fields: Seq<(Seq<char>, JsonV)>, key: Seq<char>, i: int)
    requires
        0 <= i,
    ensures
        key_from(fields, key, i) matches Some(k) ==> i <= k < fields.len() && fields[k].0 == key
            && forall|j: int| i <= j < k ==> fields[j].0 != key,
        key_from(fields, key, i) is None ==> forall|j: int|
            i <= j < fields.len() ==> fields[j].0 != key,
    decreases fields.len() - i,
{
    if i < fields.len() && fields[i].0 != key {
        lemma_key_from(fields, key, i + 1);
    }
}

/// `lookup` finds the field at the first position that holds its key.
pub proof fn lemma_lookup_key(fields: Seq<(Seq<char>, JsonV)>, key: Seq<char>)
    ensures
        lookup(fields, key) == match key_from(fields, key, 0) {
            Some(k) => Some(fields[k].1),
            None => None::<JsonV>,
        },
    decreases fields.len(),
{
    lemma_key_from(fields, key, 0);
    if fields.len() > 0 {
        let p = fields.drop_last();
        lemma_lookup_key(p, key);
        lemma_key_from(p, key, 0);
        match key_from(p, key, 0) {
            Some(k) => {
                assert(p[k] == fields[k]);
                assert forall|j: int| 0 <= j < k implies fields[j].0 != key by {
                    assert(p[j] == fields[j]);
                }
                assert(fields[k].0 == key);
                lemma_key_from_at(fields, key, k);
            },
            None => {
                assert forall|j: int| 0 <= j < fields.len() - 1 implies fields[j].0 != key by {
                    assert(p[j] == fields[j]);
                }
                if fields.last().0 == key {
                    lemma_key_from_at(fields, key, fields.len() - 1);
                } else {
                    lemma_key_from_none(fields, key);
                }
            },
        }
    }
}

proof fn lemma_key_from_at(fields: Seq<(Seq<char>, JsonV)>, key: Seq<char>, k: int)
    requires
        0 <= k < fields.len(),
        fields[k].0 == key,
        forall|j: int| 0 <= j < k ==> fields[j].0 != key,
    ensures
        key_from(fields, key, 0) == Some(k),
{
    lemma_key_from(fields, key, 0);
    match key_from(fields, key, 0) {
        Some(k2) => {
            if k2 < k {
            } else if k2 > k {
            }
        },
        None => {},
    }
}

proof fn lemma_key_from_none(fields: Seq<(Seq<char>, JsonV)>, key: Seq<char>)
    requires
        forall|j: int| 0 <= j < fields.len() ==> fields[j].0 != key,
    ensures
        key_from(fields, key, 0) is None,
{
    lemma_key_from(fields, key, 0);
}

/// The position of the first field named `key`.
pub fn find_key(fields: &Vec<(String, Json)>, key: &str) -> (r: Option<usize>)
    ensures
        match r {
            Some(k) => key_from(fields_view(fields@), key@, 0) == Some(k as int),
            None => key_from(fields_view(fields@), key@, 0) is None,
        },
{
    let ghost fv = fields_view(fields@);
    let mut i: usize = 0;
    while i < fields.len()
        invariant
            0 <= i <= fields.len(),
            fv == fields_view(fields@),
            key_from(fv, key@, 0) == key_from(fv, key@, i as int),
        decreases fields.len() - i,
    {
        if same_text(fields[i].0.as_str(), key) {
            assert(fv[i as int].0 == key@);
            return Some(i);
        }
        i = i + 1;
    }
    None
}

/// Sets the field `key` to `value` (see `set_field`).
pub fn set_field_exec(fields: &mut Vec<(String, Json)>, key: &str, value: Json)
    ensures
        fields_view(final(fields)@) == set_field(fields_view(old(fields)@), key@, value@),
{
    let ghost fv = fields_view(fields@);
    proof {
        lemma_key_from(fv, key@, 0);
    }
    match find_key(fields, key) {
        Some(i) => {
            fields.set(i, (key.to_owned(), value));
            assert(fields_view(fields@) =~= fv.update(i as int, (key@, value@)));
        },
        None => {
            fields.push((key.to_owned(), value));
            assert(fields_view(fields@) =~= fv.push((key@, value@)));
        },
    }
}

fn server_entry() -> (r: Json)
    ensures
        r@ == server_entry_json(),
{
    let mut args: Vec<Json> = Vec::new();
    push_item(&mut args, text("mcp"));
    let mut f: Vec<(String, Json)> = Vec::new();
    push_field(&mut f, "command", text("rfc-cli"));
    push_field(&mut f, "args", array(args));
    assert(crate::json::items_view(args@) =~= seq![JsonV::Str("mcp"@)]);
    assert(fields_view(f@) =~= server_entry_json()->Object_0);
    object(f)
}

/// Registers the `rfc-cli` server in a `.mcp.json` configuration.
pub fn update_mcp_json(config: Json) -> (r: Result<Json, McpConfigError>)
    ensures
        match r {
            Ok(c) => updated_config(config@) == Ok::<JsonV, McpConfigError>(c@),
            Err(e) => updated_config(config@) == Err::<JsonV, McpConfigError>(e),
        },
{
    match config {
        Json::Object(mut fields) => {
            proof {
                lemma_object_view(fields);
            }
            let ghost fv = fields_view(fields@);
            proof {
                lemma_lookup_key(fv, "mcpServers"@);
                lemma_key_from(fv, "mcpServers"@, 0);
            }
            let pos = find_key(&fields, "mcpServers");
            let servers: Json = match pos {
                Some(k) => {
                    let s = fields[k].1.deep_copy();
                    s
                },
                None => object(Vec::new()),
            };
            assert(fields_view(Seq::<(String, Json)>::empty()) =~= Seq::empty());
            match servers {
                Json::Object(mut entries) => {
                    proof {
                        lemma_object_view(entries);
                    }
                    set_field_exec(&mut entries, "rfc-cli", server_entry());
                    set_field_exec(&mut fields, "mcpServers", object(entries));
                    Ok(object(fields))
                },
                _ => Err(McpConfigError::ServersNotAnObject),
            }
        },
        _ => Err(McpConfigError::NotAnObject),
    }
}

proof fn lemma_key_from_set(fields: Seq<(Seq<char>, JsonV)>, key: Seq<char>, value: JsonV, other: Seq<char>)
    ensures
        key_from(set_field(fields, key, value), key, 0) is Some,
        set_field(fields, key, value)[key_from(set_field(fields, key, value), key, 0)->Some_0] == (
        key,
        value,
        ),
        other != key ==> key_from(set_field(fields, key, value), other, 0) == key_from(
            fields,
            other,
            0,
        ),
{
    let g = set_field(fields, key, value);
    lemma_key_from(fields, key, 0);
    lemma_key_from(fields, other, 0);
    match key_from(fields, key, 0) {
        Some(i) => {
            assert forall|j: int| 0 <= j < i implies g[j].0 != key by {
                assert(g[j] == fields[j]);
            }
            lemma_key_from_at(g, key, i);
        },
        None => {
            assert forall|j: int| 0 <= j < fields.len() implies g[j].0 != key by {
                assert(g[j] == fields[j]);
            }
            lemma_key_from_at(g, key, fields.len() as int);
        },
    }
    if other != key {
        match key_from(fields, other, 0) {
            Some(k) => {
                assert forall|j: int| 0 <= j < k implies g[j].0 != other by {
                    if j < fields.len() {
                        if key_from(fields, key, 0) == Some(j) {
                        } else {
                            assert(g[j] == fields[j]);
                        }
                    }
                }
                if key_from(fields, key, 0) != Some(k) {
                    assert(g[k] == fields[k]);
                }
                lemma_key_from_at(g, other, k);
            },
            None => {
                assert forall|j: int| 0 <= j < g.len() implies g[j].0 != other by {
                    if j < fields.len() && key_from(fields, key, 0) != Some(j) {
                        assert(g[j] == fields[j]);
                    }
                }
                lemma_key_from_none(g, other);
            },
        }
    }
}

/// Setting a field reads back: the field holds the value set, and every
/// other field is unchanged.
pub proof fn lemma_set_field_lookup(fields: Seq<(Seq<char>, JsonV)>, key: Seq<char>, value: JsonV, other: Seq<char>)
    ensures
        lookup(set_field(fields, key, value), key) == Some(value),
        other != key ==> lookup(set_field(fields, key, value), other) == lookup(fields, other),
{
    lemma_key_from_set(fields, key, value, other);
    lemma_lookup_key(set_field(fields, key, value), key);
    lemma_lookup_key(set_field(fields, key, value), other);
    lemma_lookup_key(fields, other);
    let g = set_field(fields, key, value);
    if other != key {
        match key_from(fields, other, 0) {
            Some(k) => {
                lemma_key_from(fields, other, 0);
                lemma_key_from(fields, key, 0);
                if key_from(fields, key, 0) != Some(k) {
                    assert(g[k] == fields[k]);
                }
            },
            None => {},
        }
    }
}

/// Setting a field to the value it already holds changes nothing.
pub proof fn lemma_set_field_again(fields: Seq<(Seq<char>, JsonV)>, key: Seq<char>, value: JsonV)
    ensures
        set_field(set_field(fields, key, value), key, value) == set_field(fields, key, value),
{
    let g = set_field(fields, key, value);
    lemma_key_from_set(fields, key, value, key);
    lemma_key_from(g, key, 0);
    let i = key_from(g, key, 0)->Some_0;
    assert(g.update(i, (key, value)) =~= g);
}

/// Registering the server a second time changes nothing: running `init`
/// again leaves `.mcp.json` as the first run wrote it.
pub proof fn lemma_update_idempotent(config: JsonV)
    requires
        updated_config(config) is Ok,
    ensures
        updated_config(updated_config(config)->Ok_0) == updated_config(config),
{
    let fields = config->Object_0;
    let servers = match lookup(fields, "mcpServers"@) {
        Some(v) => v,
        None => JsonV::Object(Seq::empty()),
    };
    let entries = servers->Object_0;
    let new_entries = set_field(entries, "rfc-cli"@, server_entry_json());
    let new_fields = set_field(fields, "mcpServers"@, JsonV::Object(new_entries));
    lemma_set_field_lookup(fields, "mcpServers"@, JsonV::Object(new_entries), "mcpServers"@);
    lemma_set_field_again(entries, "rfc-cli"@, server_entry_json());
    lemma_set_field_again(fields, "mcpServers"@, JsonV::Object(new_entries));
}

/// After registration the configuration names the server under
/// `mcpServers`; every other top-level field, and every other server, is
/// as it was.
pub proof fn lemma_update_registers(config: JsonV, key: Seq<char>, server: Seq<char>)
    requires
        updated_config(config) is Ok,
    ensures
        ({
            let updated = updated_config(config)->Ok_0;
            let servers = get_field(updated, "mcpServers"@)->Some_0;
            &&& get_field(servers, "rfc-cli"@) == Some(server_entry_json())
            &&& key != "mcpServers"@ ==> get_field(updated, key) == get_field(config, key)
            &&& server != "rfc-cli"@ ==> get_field(servers, server) == match get_field(
                config,
                "mcpServers"@,
            ) {
                Some(old) => get_field(old, server),
                None => None,
            }
        }),
{
    let fields = config->Object_0;
    let servers = match lookup(fields, "mcpServers"@) {
        Some(v) => v,
        None => JsonV::Object(Seq::empty()),
    };
    let entries = servers->Object_0;
    let new_entries = set_field(entries, "rfc-cli"@, server_entry_json());
    lemma_set_field_lookup(fields, "mcpServers"@, JsonV::Object(new_entries), key);
    lemma_set_field_lookup(entries, "rfc-cli"@, server_entry_json(), server);
}

} // verus!
