# mcp2cli

A command-line adapter that turns MCP servers, OpenAPI specifications and GraphQL
endpoints into commands, with saved configurations ("bake"), sessions, OAuth and
output formatting.

The logic is a library verified with Verus; the program around it does the I/O.

## Layout

- `src/` — the verified library.
  - `json.rs`, `text.rs`, `strmap.rs`, `types.rs`: JSON values, text operations and
    the command and parameter model, each with its mathematical view.
  - `openapi.rs`, `refs.rs`, `request.rs`, `yaml.rs`: command extraction from
    OpenAPI documents, `$ref` resolution, request planning and response reading,
    YAML documents as JSON.
  - `mcp.rs`, `wire.rs`, `session.rs`: MCP tools and results, the JSON-RPC messages
    and replies, and the session daemon's protocol.
  - `graphql.rs`: type mapping, command extraction, selection sets and documents.
  - `bake.rs`, `bake_laws.rs`, `store.rs`: saved configurations, their command-line
    form (with the proof that it reads back to the same configuration, for the
    configurations that the command line can express) and the store that keeps them
    by name. The command line of a saved configuration carries its filters too: one
    `--include`, `--exclude` or `--methods` flag for each pattern or method.
  - `cli.rs`, `dynamic.rs`, `handler.rs`, `listing.rs`, `filter.rs`, `coerce.rs`,
    `names.rs`, `helpers.rs`: routing an invocation, a command's own arguments (read
    with clap), listings, filters, value coercion and names.
  - `oauth.rs`, `secrets.rs`, `error.rs`: OAuth tokens, PKCE and forms, secret
    references, and errors.
- `app/` — the program: argument parsing, files, processes, sockets and HTTP.
- `tests/` — tests of the library.
