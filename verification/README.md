# rfc_cli

The logic of rfc-cli's `init`, `view` and `mcp` commands, verified with Verus.

- `src/json.rs` — JSON documents and their mathematical model.
- `src/text.rs` — whitespace, trimming, word splitting, integer text.
- `src/framing.rs` — reading MCP messages from a byte stream (one JSON line,
  or a `Content-Length` header block and body) and writing responses; with
  the read-back and streaming laws.
- `src/index.rs` — the RFC index that the tools read.
- `src/commands/mcp.rs` — the JSON-RPC server: requests, tool planning,
  tool results and responses, and one turn of the server loop.
- `src/commands/init.rs` — registering the server in `.mcp.json`.
- `src/commands/view.rs` — choosing between printing and a viewer.
- `app/` — the files, streams, environment and JSON text around them.
