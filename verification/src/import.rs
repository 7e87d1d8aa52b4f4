//! Importing server definitions from the configuration files of a coding
//! agent: one in the user's home directory and a project's `.mcp.json`.
//!
//! Reading the files is the caller's part; this module takes their text.
use vstd::prelude::*;
use crate::config::{NameMap, ServerConfig, ServerSpec};
use crate::json::{as_str, get, parse_json, parsed_json, str_member, get_str, Json};
use crate::config::opt_view;
use crate::text::{chars_of, copy_string, strip_prefix, strip_prefix_chars, string_from, string_of, views};

verus! {

broadcast use vstd::string::group_string_axioms;

/// Where an imported server was found.
#[derive(PartialEq, Eq, Structural, Clone, Copy)]
pub enum ImportSource {
    AgentConfig,
}

impl ImportSource {
    /// The name of the source, as it is displayed.
    pub fn label(&self) -> (r: String)
        ensures
            r@ == "agent"@,
    {
        string_from("agent")
    }
}

/// A server found in an external configuration.
pub struct ImportedServer {
    pub name: String,
    pub config: ServerConfig,
    pub source: ImportSource,
}

/// Why a server definition was skipped.
#[derive(PartialEq, Eq, Structural, Clone, Copy)]
pub enum ImportError {
    /// The definition is not a JSON object.
    NotAnObject,
    /// A stdio server without a `command` string.
    MissingCommand,
    /// An HTTP or SSE server without a `url` string.
    MissingUrl,
}

impl ImportError {
    /// The message of the error.
    pub fn message(&self) -> (r: String)
        ensures
            *self == ImportError::NotAnObject ==> r@ == "server config is not an object"@,
            *self == ImportError::MissingCommand ==> r@ == "missing command"@,
            *self == ImportError::MissingUrl ==> r@ == "missing url"@,
    {
        match self {
            ImportError::NotAnObject => string_from("server config is not an object"),
            ImportError::MissingCommand => string_from("missing command"),
            ImportError::MissingUrl => string_from("missing url"),
        }
    }
}

/// A server definition that was skipped, and why.
pub struct SkippedServer {
    pub name: String,
    pub error: ImportError,
}

// ---------------------------------------------------------------------------
// Specifications
// ---------------------------------------------------------------------------

/// The string members among the first `n` members of an object, as a map;
/// a later member of the same name wins.
pub open spec fn string_members(m: Seq<(String, Json)>, n: nat) -> Map<Seq<char>, Seq<char>>
    decreases n,
{
    if n == 0 || n > m.len() {
        Map::empty()
    } else {
        let prev = string_members(m, (n - 1) as nat);
        match m[n - 1].1 {
            Json::Str(s) => prev.insert(m[n - 1].0@, s@),
            _ => prev,
        }
    }
}

/// The string members of a value that is an object; empty for anything else.
pub open spec fn json_string_map(value: Option<Json>) -> Map<Seq<char>, Seq<char>> {
    match value {
        Some(Json::Object(m)) => string_members(m@, m@.len()),
        _ => Map::empty(),
    }
}

/// The strings among the first `n` items of an array, in order.
pub open spec fn string_items(v: Seq<Json>, n: nat) -> Seq<Seq<char>>
    decreases n,
{
    if n == 0 || n > v.len() {
        seq![]
    } else {
        string_items(v, (n - 1) as nat) + match v[n - 1] {
            Json::Str(s) => seq![s@],
            _ => seq![],
        }
    }
}

/// The strings of a value that is an array; empty for anything else.
pub open spec fn json_strings(value: Option<Json>) -> Seq<Seq<char>> {
    match value {
        Some(Json::Array(v)) => string_items(v@, v@.len()),
        _ => seq![],
    }
}

/// The `Authorization` header, or else the `authorization` header.
pub open spec fn auth_header_value(h: Map<Seq<char>, Seq<char>>) -> Option<Seq<char>> {
    if h.contains_key("Authorization"@) {
        Some(h["Authorization"@])
    } else if h.contains_key("authorization"@) {
        Some(h["authorization"@])
    } else {
        None
    }
}

/// The headers without the header that `auth_header_value` took.
pub open spec fn headers_without_auth(h: Map<Seq<char>, Seq<char>>) -> Map<Seq<char>, Seq<char>> {
    if h.contains_key("Authorization"@) {
        h.remove("Authorization"@)
    } else {
        h.remove("authorization"@)
    }
}

/// A bearer token and the remaining headers: the authorization header with
/// its `Bearer ` or `bearer ` prefix taken off, or, when it has neither, no
/// token and the header kept as `Authorization`.
pub open spec fn auth_split(h: Map<Seq<char>, Seq<char>>) -> (Option<Seq<char>>, Map<Seq<char>, Seq<char>>) {
    let rest = headers_without_auth(h);
    match auth_header_value(h) {
        None => (None, rest),
        Some(v) => match strip_prefix(v, "Bearer "@) {
            Some(t) => (Some(t), rest),
            None => match strip_prefix(v, "bearer "@) {
                Some(t) => (Some(t), rest),
                None => (None, rest.insert("Authorization"@, v)),
            },
        },
    }
}

/// What a server definition of an agent configuration stands for: an
/// error, nothing (a transport that is not imported), or a server.
pub open spec fn server_entry(value: Json) -> Result<Option<ServerSpec>, ImportError> {
    match value {
        Json::Object(_) => {
            let transport = match str_member(value, "type"@) {
                Some(t) => t,
                None => "stdio"@,
            };
            if transport == "stdio"@ {
                match str_member(value, "command"@) {
                    None => Err(ImportError::MissingCommand),
                    Some(c) => Ok(
                        Some(
                            ServerSpec::Stdio {
                                command: c,
                                args: json_strings(get(value, "args"@)),
                                env: json_string_map(get(value, "env"@)),
                            },
                        ),
                    ),
                }
            } else if transport == "http"@ || transport == "sse"@ {
                match str_member(value, "url"@) {
                    None => Err(ImportError::MissingUrl),
                    Some(u) => {
                        let (auth, headers) = auth_split(json_string_map(get(value, "headers"@)));
                        if transport == "http"@ {
                            Ok(Some(ServerSpec::Http { url: u, auth, headers }))
                        } else {
                            Ok(Some(ServerSpec::Sse { url: u, auth, headers }))
                        }
                    },
                }
            } else {
                Ok(None)
            }
        },
        _ => Err(ImportError::NotAnObject),
    }
}

/// The servers defined among the first `n` members of `mcpServers`.
pub open spec fn imported_from(m: Seq<(String, Json)>, n: nat) -> Seq<(Seq<char>, ServerSpec)>
    decreases n,
{
    if n == 0 || n > m.len() {
        seq![]
    } else {
        imported_from(m, (n - 1) as nat) + match server_entry(m[n - 1].1) {
            Ok(Some(s)) => seq![(m[n - 1].0@, s)],
            _ => seq![],
        }
    }
}

/// The definitions skipped among the first `n` members of `mcpServers`.
pub open spec fn skipped_from(m: Seq<(String, Json)>, n: nat) -> Seq<(Seq<char>, ImportError)>
    decreases n,
{
    if n == 0 || n > m.len() {
        seq![]
    } else {
        skipped_from(m, (n - 1) as nat) + match server_entry(m[n - 1].1) {
            Err(e) => seq![(m[n - 1].0@, e)],
            _ => seq![],
        }
    }
}

/// The `mcpServers` object of a configuration file, as members.
pub open spec fn mcp_servers(root: Json) -> Seq<(String, Json)> {
    match get(root, "mcpServers"@) {
        Some(Json::Object(m)) => m@,
        _ => seq![],
    }
}

/// The servers a configuration file defines, in order.
pub open spec fn file_servers(root: Json) -> Seq<(Seq<char>, ServerSpec)> {
    imported_from(mcp_servers(root), mcp_servers(root).len())
}

/// The definitions of a configuration file that are skipped, in order.
pub open spec fn file_skipped(root: Json) -> Seq<(Seq<char>, ImportError)> {
    skipped_from(mcp_servers(root), mcp_servers(root).len())
}

/// Name and configuration of each imported server.
pub open spec fn imported_view(v: Seq<ImportedServer>) -> Seq<(Seq<char>, ServerSpec)> {
    v.map_values(|s: ImportedServer| (s.name@, s.config@))
}

/// Name and error of each skipped definition.
pub open spec fn skipped_view(v: Seq<SkippedServer>) -> Seq<(Seq<char>, ImportError)> {
    v.map_values(|s: SkippedServer| (s.name@, s.error))
}

/// The value an optional reference points to.
pub open spec fn deref_opt(o: Option<&Json>) -> Option<Json> {
    match o {
        Some(j) => Some(*j),
        None => None,
    }
}

// ---------------------------------------------------------------------------
// Parsing
// ---------------------------------------------------------------------------

/// The string members of a value that is an object, as a map.
pub fn parse_json_string_map(value: Option<&Json>) -> (r: NameMap<String>)
    ensures
        r@ == json_string_map(deref_opt(value)),
{
    let mut map: NameMap<String> = NameMap::new();
    match value {
        Some(Json::Object(m)) => {
            let mut i: usize = 0;
            while i < m.len()
                invariant
                    i <= m.len(),
                    map@ == string_members(m@, i as nat),
                decreases m.len() - i,
            {
                match &m[i].1 {
                    Json::Str(s) => {
                        let _ = map.insert(copy_string(&m[i].0), copy_string(s));
                    },
                    _ => {},
                }
                i = i + 1;
            }
            map
        },
        _ => map,
    }
}

/// The strings of a value that is an array, in order.
pub fn json_string_list(value: Option<&Json>) -> (r: Vec<String>)
    ensures
        views(r@) == json_strings(deref_opt(value)),
{
    let mut out: Vec<String> = Vec::new();
    match value {
        Some(Json::Array(v)) => {
            let mut i: usize = 0;
            while i < v.len()
                invariant
                    i <= v.len(),
                    views(out@) == string_items(v@, i as nat),
                decreases v.len() - i,
            {
                match &v[i] {
                    Json::Str(s) => {
                        let ghost before = views(out@);
                        out.push(copy_string(s));
                        assert(views(out@) =~= before + seq![s@]);
                    },
                    _ => {
                        assert(string_items(v@, (i + 1) as nat) =~= string_items(v@, i as nat));
                    },
                }
                i = i + 1;
            }
            out
        },
        _ => out,
    }
}

/// Takes the authorization header out of the headers: a bearer token when
/// the header has the `Bearer ` (or `bearer `) prefix; otherwise the header
/// stays, as `Authorization`.
pub fn extract_auth_header(headers: NameMap<String>) -> (r: (Option<String>, NameMap<String>))
    ensures
        (opt_view(r.0), r.1@) == auth_split(headers@),
{
    let ghost h = headers@;
    let mut headers = headers;
    let v = match headers.remove("Authorization") {
        Some(v) => Some(v),
        None => headers.remove("authorization"),
    };
    assert(headers@ == headers_without_auth(h));
    match v {
        None => (None, headers),
        Some(v) => {
            let vc = chars_of(v.as_str());
            match strip_prefix_chars(&vc, "Bearer ") {
                Some(t) => (Some(string_of(&t)), headers),
                None => match strip_prefix_chars(&vc, "bearer ") {
                    Some(t) => (Some(string_of(&t)), headers),
                    None => {
                        let _ = headers.insert(string_from("Authorization"), v);
                        (None, headers)
                    },
                },
            }
        },
    }
}

/// Reads one server definition of an agent configuration: a stdio
/// server (the default transport), an HTTP or SSE server, nothing for other
/// transports, or the reason it cannot be read.
pub fn parse_agent_server(name: &str, value: &Json) -> (r: Result<Option<ImportedServer>, ImportError>)
    ensures
        r matches Ok(Some(s)) ==> server_entry(*value) == Ok::<Option<ServerSpec>, ImportError>(Some(s.config@))
            && s.name@ == name@ && s.source == ImportSource::AgentConfig,
        r matches Ok(None) ==> server_entry(*value) == Ok::<Option<ServerSpec>, ImportError>(None),
        r matches Err(e) ==> server_entry(*value) == Err::<Option<ServerSpec>, ImportError>(e),
{
    match value {
        Json::Object(_) => {
            let transport: String = match get_str(value, "type") {
                Some(t) => copy_string(t),
                None => string_from("stdio"),
            };
            if transport == string_from("stdio") {
                let command = match get_str(value, "command") {
                    Some(c) => copy_string(c),
                    None => {
                        return Err(ImportError::MissingCommand);
                    },
                };
                let args = json_string_list(value.get("args"));
                let env = parse_json_string_map(value.get("env"));
                let config = ServerConfig::Stdio { command, args, env };
                Ok(Some(ImportedServer { name: string_from(name), config, source: ImportSource::AgentConfig }))
            } else if transport == string_from("http") || transport == string_from("sse") {
                let url = match get_str(value, "url") {
                    Some(u) => copy_string(u),
                    None => {
                        return Err(ImportError::MissingUrl);
                    },
                };
                let headers = parse_json_string_map(value.get("headers"));
                let (auth, headers) = extract_auth_header(headers);
                let config = if transport == string_from("http") {
                    ServerConfig::Http { url, auth, headers }
                } else {
                    ServerConfig::Sse { url, auth, headers }
                };
                Ok(Some(ImportedServer { name: string_from(name), config, source: ImportSource::AgentConfig }))
            } else {
                Ok(None)
            }
        },
        _ => Err(ImportError::NotAnObject),
    }
}

/// Reads the `mcpServers` of an agent configuration: the servers it
/// defines, in order, and the definitions that were skipped, with the
/// reason.
pub fn parse_agent_json(root: &Json) -> (r: (Vec<ImportedServer>, Vec<SkippedServer>))
    ensures
        imported_view(r.0@) == file_servers(*root),
        skipped_view(r.1@) == file_skipped(*root),
{
    let mut servers: Vec<ImportedServer> = Vec::new();
    let mut skipped: Vec<SkippedServer> = Vec::new();
    match root.get("mcpServers") {
        Some(Json::Object(m)) => {
            let mut i: usize = 0;
            while i < m.len()
                invariant
                    i <= m.len(),
                    mcp_servers(*root) == m@,
                    imported_view(servers@) == imported_from(m@, i as nat),
                    skipped_view(skipped@) == skipped_from(m@, i as nat),
                decreases m.len() - i,
            {
                let ghost before_s = imported_view(servers@);
                let ghost before_k = skipped_view(skipped@);
                match parse_agent_server(m[i].0.as_str(), &m[i].1) {
                    Ok(Some(s)) => {
                        servers.push(s);
                        assert(imported_view(servers@) =~= before_s.push(
                            (m@[i as int].0@, servers@.last().config@),
                        ));
                        assert(skipped_from(m@, (i + 1) as nat) =~= before_k);
                    },
                    Ok(None) => {
                        assert(imported_from(m@, (i + 1) as nat) =~= before_s);
                        assert(skipped_from(m@, (i + 1) as nat) =~= before_k);
                    },
                    Err(e) => {
                        skipped.push(SkippedServer { name: copy_string(&m[i].0), error: e });
                        assert(skipped_view(skipped@) =~= before_k.push((m@[i as int].0@, e)));
                        assert(imported_from(m@, (i + 1) as nat) =~= before_s);
                    },
                }
                i = i + 1;
            }
        },
        _ => {},
    }
    (servers, skipped)
}

/// Why a configuration file could not be read.
#[derive(PartialEq, Eq, Structural, Clone, Copy)]
pub enum AgentFileError {
    /// The text of the file is not JSON.
    NotJson,
}

impl AgentFileError {
    /// The message of the error (the caller adds the file's path).
    pub fn message(&self) -> (r: String)
        ensures
            r@ == "failed to parse"@,
    {
        string_from("failed to parse")
    }
}

/// Whether the text of a configuration file is JSON.
pub open spec fn is_json(content: Seq<char>) -> bool {
    parsed_json(content) is Some
}

/// The servers defined in a configuration file, given by its text (none
/// when it is not JSON).
pub open spec fn text_servers(content: Seq<char>) -> Seq<(Seq<char>, ServerSpec)> {
    match parsed_json(content) {
        Some(root) => file_servers(root),
        None => seq![],
    }
}

/// The definitions skipped in a configuration file, given by its text.
pub open spec fn text_skipped(content: Seq<char>) -> Seq<(Seq<char>, ImportError)> {
    match parsed_json(content) {
        Some(root) => file_skipped(root),
        None => seq![],
    }
}

/// Reads an agent configuration file from its text: the servers it defines,
/// in order, and the definitions that were skipped, with the reason; an
/// error when the text is not JSON.
pub fn parse_agent_file(content: &str) -> (r: Result<(Vec<ImportedServer>, Vec<SkippedServer>), AgentFileError>)
    ensures
        parsed_json(content@) is None ==> r == Err::<(Vec<ImportedServer>, Vec<SkippedServer>), AgentFileError>(
            AgentFileError::NotJson,
        ),
        parsed_json(content@) matches Some(root) ==> (r matches Ok((s, k)) && imported_view(s@) == file_servers(root)
            && skipped_view(k@) == file_skipped(root)),
{
    match parse_json(content) {
        Some(root) => Ok(parse_agent_json(&root)),
        None => Err(AgentFileError::NotJson),
    }
}

/// Why importing failed.
#[derive(PartialEq, Eq, Structural, Clone, Copy)]
pub enum AgentConfigError {
    /// The user's file is not JSON.
    UserFile(AgentFileError),
    /// The project's file is not JSON.
    ProjectFile(AgentFileError),
}

/// The servers of the user's and the project's agent configuration files,
/// given by their text (`None` for a file that is absent), user's first,
/// and the definitions skipped in them; an error when a present file is not
/// JSON, the user's file checked first.
pub fn import_agent_config(user_config: Option<&str>, project_config: Option<&str>) -> (r: Result<(
    Vec<ImportedServer>,
    Vec<SkippedServer>,
), AgentConfigError>)
    ensures
        user_config matches Some(u) && !is_json(u@) ==> r == Err::<
            (Vec<ImportedServer>, Vec<SkippedServer>),
            AgentConfigError,
        >(AgentConfigError::UserFile(AgentFileError::NotJson)),
        !(user_config matches Some(u) && !is_json(u@)) && (project_config matches Some(p) && !is_json(p@))
            ==> r == Err::<(Vec<ImportedServer>, Vec<SkippedServer>), AgentConfigError>(
            AgentConfigError::ProjectFile(AgentFileError::NotJson),
        ),
        !(user_config matches Some(u) && !is_json(u@)) && !(project_config matches Some(p) && !is_json(p@)) ==> (
        r matches Ok((s, k)) && imported_view(s@) == (match user_config {
            Some(u) => text_servers(u@),
            None => seq![],
        }) + (match project_config {
            Some(p) => text_servers(p@),
            None => seq![],
        }) && skipped_view(k@) == (match user_config {
            Some(u) => text_skipped(u@),
            None => seq![],
        }) + (match project_config {
            Some(p) => text_skipped(p@),
            None => seq![],
        })),
{
    let mut servers: Vec<ImportedServer> = Vec::new();
    let mut skipped: Vec<SkippedServer> = Vec::new();
    match user_config {
        Some(u) => match parse_agent_file(u) {
            Ok((s, k)) => {
                servers = s;
                skipped = k;
            },
            Err(e) => {
                return Err(AgentConfigError::UserFile(e));
            },
        },
        None => {},
    }
    let ghost s0 = imported_view(servers@);
    let ghost k0 = skipped_view(skipped@);
    match project_config {
        Some(p) => match parse_agent_file(p) {
            Ok((s, k)) => {
                let mut s = s;
                let mut k = k;
                let ghost s1 = imported_view(s@);
                let ghost k1 = skipped_view(k@);
                let ghost a = servers@;
                let ghost b = s@;
                servers.append(&mut s);
                assert(imported_view(servers@) =~= s0 + s1) by {
                    assert(servers@ == a + b);
                }
                let ghost c = skipped@;
                let ghost d = k@;
                skipped.append(&mut k);
                assert(skipped_view(skipped@) =~= k0 + k1) by {
                    assert(skipped@ == c + d);
                }
            },
            Err(e) => {
                return Err(AgentConfigError::ProjectFile(e));
            },
        },
        None => {
            assert(s0 + seq![] =~= s0);
            assert(k0 + seq![] =~= k0);
        },
    }
    Ok((servers, skipped))
}

// ---------------------------------------------------------------------------
// Laws
// ---------------------------------------------------------------------------

/// An `Authorization: Bearer <token>` header becomes the token, and no
/// authorization header is left among the headers.
pub proof fn law_bearer_header_becomes_token(h: Map<Seq<char>, Seq<char>>, token: Seq<char>)
    requires
        h.contains_key("Authorization"@),
        h["Authorization"@] == "Bearer "@ + token,
    ensures
        auth_split(h) == (Some(token), h.remove("Authorization"@)),
        !auth_split(h).1.contains_key("Authorization"@),
{
    let v = "Bearer "@ + token;
    assert(v.take("Bearer "@.len() as int) =~= "Bearer "@);
    assert(v.skip("Bearer "@.len() as int) =~= token);
}

/// An authorization header that is no bearer token gives no token and stays
/// among the headers, as `Authorization`.
pub proof fn law_other_authorization_is_kept(h: Map<Seq<char>, Seq<char>>)
    requires
        auth_header_value(h) is Some,
        strip_prefix(auth_header_value(h)->0, "Bearer "@) is None,
        strip_prefix(auth_header_value(h)->0, "bearer "@) is None,
    ensures
        auth_split(h).0 is None,
        auth_split(h).1.contains_key("Authorization"@),
        auth_split(h).1["Authorization"@] == auth_header_value(h)->0,
{
}

/// A definition without `type` is a stdio server.
pub proof fn law_default_transport_is_stdio(value: Json, command: Seq<char>)
    requires
        value is Object,
        str_member(value, "type"@) is None,
        str_member(value, "command"@) == Some(command),
    ensures
        server_entry(value) matches Ok(Some(ServerSpec::Stdio { command: c, .. })) && c == command,
{
}

/// The transport of a server definition: its `type`, `stdio` when it has
/// none.
pub open spec fn transport_of(value: Json) -> Seq<char> {
    match str_member(value, "type"@) {
        Some(t) => t,
        None => "stdio"@,
    }
}

/// A server definition cannot be read exactly when it is no object, or is a
/// stdio server without a `command`, or an HTTP or SSE server without a
/// `url`; it stands for nothing exactly when it is an object of another
/// transport.
pub proof fn law_server_entry_cases(value: Json)
    ensures
        server_entry(value) is Err <==> (!(value is Object) || (transport_of(value) == "stdio"@ && str_member(
            value,
            "command"@,
        ) is None) || ((transport_of(value) == "http"@ || transport_of(value) == "sse"@) && str_member(
            value,
            "url"@,
        ) is None)),
        server_entry(value) == Ok::<Option<ServerSpec>, ImportError>(None) <==> (value is Object && transport_of(
            value,
        ) != "stdio"@ && transport_of(value) != "http"@ && transport_of(value) != "sse"@),
{
    reveal_strlit("stdio");
    reveal_strlit("http");
    reveal_strlit("sse");
    assert("stdio"@.len() == 5 && "http"@.len() == 4 && "sse"@.len() == 3);
}

} // verus!
