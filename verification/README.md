# xyz-rust

One command definition — an argument struct's field metadata, its hints
and a handler — served as CLI subcommands and as an HTTP REST service with
an OpenAPI document.  The MCP mode's decisions are part of the library;
this build carries no MCP server runtime, so `mcp` answers that the
frontend is not compiled in.

The decisions are a Verus-verified library (`src/`):

- `dispatch`, `builtins`, `config`: which mode the process arguments ask
  for, the reserved mode words and the built-in `--xyz.*` parameters;
- `cli::{tree, parse, app, help, completion, render}`, `overview`: the
  command tree, flag parsing, argument binding, the run plan, help,
  completion scripts, the rendering of results and the overview;
- `command`, `field`, `schema`, `registry`: command names, field
  descriptions turned into metadata (tags, defaults and enum values read),
  definition-time hints merged into field bindings, frontend defaults,
  input schemas and the registry;
- `validate`: the `validate` tag and the rule checks over a value's
  outcomes;
- `httpapi`, `openapi`: request binding, routes, Bearer and CORS
  decisions, the OpenAPI plan;
- `mcp`: the `mcp` mode's options, protocol versions, tool descriptions,
  annotations and tool-call results;
- `errors`, `lang`, `logx`, `scalar`, `text`, `json`, `blocks`, `rename`,
  `decode`, `version`, `ctx`: the shared vocabulary.

`app/` is the unverified runtime around it: process environment, standard
streams, signal wiring, the `serde_json` conversions of the OpenAPI
document and of float readings, the display of floating-point numbers, and
the axum server.  Request bodies are parsed and results written as JSON by
`serde_json` through the library (`json::parse_json`, `json::pretty_json`,
`json::compact_json`).

Verify with `verus` on `src/lib.rs`; the tests under `tests/` exercise the
library through its public API.
