# kondi

Kondi is an MCP proxy: a daemon (`kondid`) connects to several upstream MCP
servers and offers their tools to an agent through three meta-tools (keyword
search over the tools, filtering the tool catalog with code, and running code
that calls the tools), and a command line (`kondi`) manages its servers.

This crate holds the logic of the proxy as a verified library and the
`kondi` command line around it. The daemon's MCP server, its JavaScript
engine and the desktop application are not part of it; the library holds
what they decide (the admin API's decisions, the search plan and ranking,
the sandbox scripts, the response limits).

## Layout

- `src/` is the library, written in Verus: every function carries a contract
  and is proved against it, except a few wrappers around calls into `std`
  and `serde_json` (`#[verifier::external_body]`), whose contracts are
  trusted: building a string from characters, `char::is_alphanumeric`,
  `str::to_lowercase`, and `serde_json`'s string quoting and parsing.
  - `text`, `json`, `order`: strings as character sequences, a JSON value
    model with its compact rendering, and sequence utilities (sorted sets,
    first occurrences, counts).
  - `catalog`: the tool catalog, its JSON form, its summary line and the
    TypeScript declarations generated from the tools' input schemas.
  - `bm25`: the inverted index over the catalog, the search plan of a query
    and the ranking of scored documents.
  - `config`, `import`, `cli`: the configuration model, importing servers
    from a coding agent's JSON configuration, and what the command line
    computes (server definitions from arguments, the direct commands,
    waiting for the daemon, its status lines, service files).
  - `admin`: the admin API's requests, authorization and responses, and the
    decisions taken while a request that changes the configuration is served.
  - `server`, `sandbox`: the meta-tools' defaults, truncating long tool
    results and the text of a failed run, and the scripts the
    JavaScript sandbox runs.
- `tests/` runs the library on concrete values.
- `app/` is the program around it: argument parsing, files, HTTP, the
  floating-point BM25 scores, and serialization.
