//! The admin API: its requests and responses, who may call it, and the
//! decisions taken while a request is served.
//!
//! Serving a request that changes the configuration alternates work of the
//! daemon (loading and saving the configuration, importing, reconnecting to
//! the servers) with decisions; the decisions are [`AdminTask::begin`] and
//! [`AdminTask::step`], from the task and the outcome of the last piece of
//! work to the next task and the next piece of work.
use vstd::prelude::*;
use crate::catalog::{servers_of, CatalogEntry};
use crate::config::{Config, ServerConfig, ServerSpec};
use crate::import::{imported_view, ImportedServer};
use crate::json::{as_str, Json};
use crate::order::{distinct_in_order, position};
use crate::text::{
    chars_of, copy_string, decimal, decimal_chars, decimal_u64, push_all, push_str, strip_prefix, strip_prefix_chars,
    string_from, string_of, trim, trim_chars, views,
};

verus! {

broadcast use vstd::string::group_string_axioms;

/// Where `ImportConfig` imports from.
pub enum AdminImportSource {
    Agent,
}

/// A request to the admin API.
pub enum AdminRequest {
    AddMcp { name: String, config: ServerConfig },
    RemoveMcp { name: String },
    ListMcp,
    Status,
    ImportConfig { source: AdminImportSource },
    Shutdown,
}

/// A response of the admin API.
pub struct AdminResponse {
    pub ok: bool,
    pub message: String,
    pub data: Option<Json>,
}

impl AdminResponse {
    /// A success.
    pub fn ok(message: String) -> (r: AdminResponse)
        ensures
            r.ok,
            r.message == message,
            r.data is None,
    {
        AdminResponse { ok: true, message, data: None }
    }

    /// A success carrying data.
    pub fn ok_with_data(message: String, data: Json) -> (r: AdminResponse)
        ensures
            r.ok,
            r.message == message,
            r.data == Some(data),
    {
        AdminResponse { ok: true, message, data: Some(data) }
    }

    /// A failure.
    pub fn err(message: String) -> (r: AdminResponse)
        ensures
            !r.ok,
            r.message == message,
            r.data is None,
    {
        AdminResponse { ok: false, message, data: None }
    }
}

// ---------------------------------------------------------------------------
// Authorization
// ---------------------------------------------------------------------------

/// Whether a request with the given `authorization` header may be served:
/// always when no token is configured; otherwise only when the header is
/// `Bearer ` followed by the token (white space around it ignored).
pub open spec fn authorized(expected: Option<Seq<char>>, header: Option<Seq<char>>) -> bool {
    match expected {
        None => true,
        Some(e) => match header {
            Some(h) => match strip_prefix(h, "Bearer "@) {
                Some(t) => trim(t) == e,
                None => false,
            },
            None => false,
        },
    }
}

/// Checks the `authorization` header of an admin request.
pub fn authorize(expected: &Option<String>, header: Option<&str>) -> (r: bool)
    ensures
        r == authorized(crate::config::opt_view(*expected), match header {
            Some(h) => Some(h@),
            None => None,
        }),
{
    match expected {
        None => true,
        Some(e) => match header {
            Some(h) => match strip_prefix_chars(&chars_of(h), "Bearer ") {
                Some(t) => string_of(&trim_chars(&t)) == *e,
                None => false,
            },
            None => false,
        },
    }
}

/// The answer to a request that is not authorized.
pub fn unauthorized() -> (r: AdminResponse)
    ensures
        !r.ok,
        r.message@ == "unauthorized"@,
        r.data is None,
{
    AdminResponse::err(string_from("unauthorized"))
}

// ---------------------------------------------------------------------------
// Status and listing
// ---------------------------------------------------------------------------

fn number(n: u64) -> (j: Json)
    ensures
        number_text(j) == Some(decimal(n as nat)),
{
    Json::Number(string_of(&decimal_u64(n)))
}

/// The distinct server names of a catalog, in the order they first occur.
pub fn distinct_servers(entries: &[CatalogEntry]) -> (r: Vec<String>)
    ensures
        views(r@) == distinct_in_order(servers_of(entries@)),
{
    let mut names: Vec<String> = Vec::new();
    let mut i: usize = 0;
    while i < entries.len()
        invariant
            i <= entries@.len(),
            views(names@) == distinct_in_order(servers_of(entries@.take(i as int))),
        decreases entries@.len() - i,
    {
        let ghost pre = servers_of(entries@.take(i as int));
        let ghost next = servers_of(entries@.take(i + 1 as int));
        assert(next =~= pre.push(entries@[i as int].server@));
        assert(next.drop_last() == pre);
        match position(&names, &entries[i].server) {
            Some(p) => {
                assert(views(names@)[p as int] == next.last());
            },
            None => {
                let ghost before = views(names@);
                names.push(copy_string(&entries[i].server));
                assert(views(names@) =~= before.push(next.last()));
            },
        }
        i = i + 1;
    }
    assert(entries@.take(entries@.len() as int) == entries@);
    names
}

/// The text of a number.
pub open spec fn number_text(j: Json) -> Option<Seq<char>> {
    match j {
        Json::Number(t) => Some(t@),
        _ => None,
    }
}

/// The status data: process id, number of servers, uptime and version, as
/// the members of a JSON object in the order of a `serde_json` map.
pub open spec fn is_status_data(j: Json, pid: u32, server_count: nat, uptime_secs: u64, version: Seq<char>) -> bool {
    match j {
        Json::Object(m) => {
            &&& m@.len() == 4
            &&& m@[0].0@ == "pid"@ && number_text(m@[0].1) == Some(decimal(pid as nat))
            &&& m@[1].0@ == "server_count"@ && number_text(m@[1].1) == Some(decimal(server_count))
            &&& m@[2].0@ == "uptime_secs"@ && number_text(m@[2].1) == Some(decimal(uptime_secs as nat))
            &&& m@[3].0@ == "version"@ && as_str(m@[3].1) == Some(version)
        },
        _ => false,
    }
}

/// The answer to `Status`: the daemon runs; with its process id, uptime,
/// version and the number of distinct servers in the catalog.
pub fn status_response(pid: u32, uptime_secs: u64, version: &str, entries: &[CatalogEntry]) -> (r: AdminResponse)
    ensures
        r.ok,
        r.message@ == "daemon running"@,
        r.data matches Some(d) && is_status_data(
            d,
            pid,
            distinct_in_order(servers_of(entries@)).len(),
            uptime_secs,
            version@,
        ),
{
    let names = distinct_servers(entries);
    let mut m: Vec<(String, Json)> = Vec::new();
    m.push((string_from("pid"), number(pid as u64)));
    m.push((string_from("server_count"), number(names.len() as u64)));
    m.push((string_from("uptime_secs"), number(uptime_secs)));
    m.push((string_from("version"), Json::Str(string_from(version))));
    AdminResponse::ok_with_data(string_from("daemon running"), Json::Object(m))
}

/// The list data: one object `{"name": ...}` per server.
pub open spec fn is_server_list(j: Json, names: Seq<Seq<char>>) -> bool {
    match j {
        Json::Array(v) => v@.len() == names.len() && forall|i: int|
            0 <= i < v@.len() ==> match #[trigger] v@[i] {
                Json::Object(m) => m@.len() == 1 && m@[0].0@ == "name"@ && as_str(m@[0].1) == Some(names[i]),
                _ => false,
            },
        _ => false,
    }
}

/// The answer to `ListMcp`: the distinct servers of the catalog, and how
/// many there are.
pub fn list_response(entries: &[CatalogEntry]) -> (r: AdminResponse)
    ensures
        r.ok,
        r.message@ == decimal(distinct_in_order(servers_of(entries@)).len()) + " server(s) registered"@,
        r.data matches Some(d) && is_server_list(d, distinct_in_order(servers_of(entries@))),
{
    let names = distinct_servers(entries);
    let mut v: Vec<Json> = Vec::new();
    let mut i: usize = 0;
    while i < names.len()
        invariant
            i <= names.len(),
            v@.len() == i,
            forall|k: int|
                0 <= k < i ==> match #[trigger] v@[k] {
                    Json::Object(m) => m@.len() == 1 && m@[0].0@ == "name"@ && as_str(m@[0].1) == Some(names@[k]@),
                    _ => false,
                },
        decreases names.len() - i,
    {
        let mut m: Vec<(String, Json)> = Vec::new();
        m.push((string_from("name"), Json::Str(copy_string(&names[i]))));
        v.push(Json::Object(m));
        i = i + 1;
    }
    let mut msg = decimal_chars(names.len());
    push_str(&mut msg, " server(s) registered");
    AdminResponse::ok_with_data(string_of(&msg), Json::Array(v))
}

// ---------------------------------------------------------------------------
// Serving requests that change the configuration
// ---------------------------------------------------------------------------

/// The next piece of work of the daemon.
pub enum AdminAction {
    /// Load the configuration file.
    LoadConfig,
    /// Import the servers of the coding agent's configuration.
    ImportAgent,
    /// Save this configuration, then reconnect to its servers and rebuild the
    /// catalog, the index and the sandbox.
    SaveAndReconnect(Config),
    /// Answer with the status of the daemon (see [`status_response`]).
    ReportStatus,
    /// Answer with the servers of the catalog (see [`list_response`]).
    ListServers,
    /// Answer, then stop the daemon.
    Shutdown(AdminResponse),
    /// Answer; the request is served.
    Respond(AdminResponse),
}

/// The outcome of the last piece of work.
pub enum AdminEvent {
    ConfigLoaded(Config),
    Imported(Vec<ImportedServer>),
    /// The configuration was saved and the servers reconnected.
    Applied,
    /// The work failed; the text says why.
    Failed(String),
}

/// A request being served.
pub enum AdminTask {
    Add { name: String, config: ServerConfig },
    AddApplying { name: String },
    Remove { name: String },
    RemoveApplying { name: String },
    Import,
    ImportLoading { servers: Vec<ImportedServer> },
    ImportApplying { count: usize },
    Done,
}

/// The configured servers after adding the given servers in order.
pub open spec fn insert_all(m: Map<Seq<char>, ServerSpec>, s: Seq<(Seq<char>, ServerSpec)>) -> Map<Seq<char>, ServerSpec>
    decreases s.len(),
{
    if s.len() == 0 {
        m
    } else {
        insert_all(m, s.drop_last()).insert(s.last().0, s.last().1)
    }
}

/// What a failure of the work of a task is answered with: its text after a
/// prefix that names the request.
pub open spec fn failure_prefix(t: AdminTask) -> Seq<char> {
    match t {
        AdminTask::Add { .. } | AdminTask::AddApplying { .. } => "failed to add server: "@,
        AdminTask::Remove { .. } | AdminTask::RemoveApplying { .. } => "failed to remove server: "@,
        _ => "import failed: "@,
    }
}

/// The events a task waits for: the outcome of the work it asked for.
pub open spec fn accepts(t: AdminTask, e: AdminEvent) -> bool {
    match e {
        AdminEvent::Failed(_) => !(t is Done),
        AdminEvent::ConfigLoaded(_) => t is Add || t is Remove || t is ImportLoading,
        AdminEvent::Imported(_) => t is Import,
        AdminEvent::Applied => t is AddApplying || t is RemoveApplying || t is ImportApplying,
    }
}

/// What follows an event: a failure is answered with its text after the
/// prefix of the request; a loaded configuration is changed as the request
/// asks (a server to remove that is not there is answered as not found)
/// and handed on to be saved; once it is applied, the request is answered.
pub open spec fn step_spec(t: AdminTask, e: AdminEvent, r: (AdminTask, AdminAction)) -> bool {
    match (t, e) {
        (_, AdminEvent::Failed(msg)) => r.0 is Done && match r.1 {
            AdminAction::Respond(resp) => !resp.ok && resp.message@ == failure_prefix(t) + msg@
                && resp.data is None,
            _ => false,
        },
        (AdminTask::Add { name, config }, AdminEvent::ConfigLoaded(loaded)) => r.0 == (AdminTask::AddApplying {
            name,
        }) && match r.1 {
            AdminAction::SaveAndReconnect(c) => c.servers@ == loaded.servers@.insert(name@, config@)
                && c.admin == loaded.admin,
            _ => false,
        },
        (AdminTask::AddApplying { name }, AdminEvent::Applied) => r.0 is Done && match r.1 {
            AdminAction::Respond(resp) => resp.ok && resp.message@ == "added server '"@ + name@ + "'"@
                && resp.data is None,
            _ => false,
        },
        (AdminTask::Remove { name }, AdminEvent::ConfigLoaded(loaded)) => if loaded.servers@.contains_key(
            name@,
        ) {
            r.0 == (AdminTask::RemoveApplying { name }) && match r.1 {
                AdminAction::SaveAndReconnect(c) => c.servers@ == loaded.servers@.remove(name@) && c.admin
                    == loaded.admin,
                _ => false,
            }
        } else {
            r.0 is Done && match r.1 {
                AdminAction::Respond(resp) => !resp.ok && resp.message@ == "server '"@ + name@
                    + "' not found"@ && resp.data is None,
                _ => false,
            }
        },
        (AdminTask::RemoveApplying { name }, AdminEvent::Applied) => r.0 is Done && match r.1 {
            AdminAction::Respond(resp) => resp.ok && resp.message@ == "removed server '"@ + name@ + "'"@
                && resp.data is None,
            _ => false,
        },
        (AdminTask::Import, AdminEvent::Imported(servers)) => r.0 == (AdminTask::ImportLoading { servers })
            && r.1 is LoadConfig,
        (AdminTask::ImportLoading { servers }, AdminEvent::ConfigLoaded(loaded)) => r.0 == (
        AdminTask::ImportApplying { count: servers@.len() as usize }) && match r.1 {
            AdminAction::SaveAndReconnect(c) => c.servers@ == insert_all(
                loaded.servers@,
                imported_view(servers@),
            ) && c.admin == loaded.admin,
            _ => false,
        },
        (AdminTask::ImportApplying { count }, AdminEvent::Applied) => r.0 is Done && match r.1 {
            AdminAction::Respond(resp) => resp.ok && resp.message@ == "imported "@ + decimal(count as nat)
                + " server(s) from agent config"@ && resp.data is None,
            _ => false,
        },
        _ => true,
    }
}

fn quoted_message(before: &str, name: &String, after: &str) -> (r: String)
    ensures
        r@ == before@ + name@ + after@,
{
    let mut v = chars_of(before);
    push_str(&mut v, name.as_str());
    push_str(&mut v, after);
    string_of(&v)
}

/// Adds each imported server to the configuration, in order.
fn add_all(cfg: &mut Config, servers: Vec<ImportedServer>)
    ensures
        final(cfg).servers@ == insert_all(old(cfg).servers@, imported_view(servers@)),
        final(cfg).admin == old(cfg).admin,
{
    let ghost start = cfg.servers@;
    let ghost all = servers@;
    let n = servers.len();
    let mut servers = servers;
    let mut k: usize = 0;
    assert(all.skip(0) == all);
    assert(imported_view(all).take(0) =~= Seq::<(Seq<char>, ServerSpec)>::empty());
    while servers.len() > 0
        invariant
            all.len() == n,
            servers@ == all.skip(k as int),
            k <= n,
            cfg.servers@ == insert_all(start, imported_view(all).take(k as int)),
            cfg.admin == old(cfg).admin,
        decreases servers.len(),
    {
        let s = servers.remove(0);
        assert(s == all[k as int]);
        cfg.add_server(s.name, s.config);
        k = k + 1;
        assert(imported_view(all).take(k as int).drop_last() == imported_view(all).take(k - 1 as int));
        assert(servers@ == all.skip(k as int));
    }
    assert(imported_view(all).take(n as int) == imported_view(all));
}

impl AdminTask {
    /// Whether the task waits for this event.
    pub fn accepts(&self, e: &AdminEvent) -> (r: bool)
        ensures
            r == accepts(*self, *e),
    {
        match e {
            AdminEvent::Failed(_) => !matches!(self, AdminTask::Done),
            AdminEvent::ConfigLoaded(_) => matches!(self, AdminTask::Add { .. })
                || matches!(self, AdminTask::Remove { .. })
                || matches!(self, AdminTask::ImportLoading { .. }),
            AdminEvent::Imported(_) => matches!(self, AdminTask::Import),
            AdminEvent::Applied => matches!(self, AdminTask::AddApplying { .. })
                || matches!(self, AdminTask::RemoveApplying { .. })
                || matches!(self, AdminTask::ImportApplying { .. }),
        }
    }

    /// Starts serving a request: a change of the configuration begins with
    /// loading it (an import, with importing); status and listing are
    /// answered from the catalog; a shutdown is answered, then done.
    pub fn begin(req: AdminRequest) -> (r: (AdminTask, AdminAction))
        ensures
            req matches AdminRequest::AddMcp { name, config } ==> r.0 == (AdminTask::Add { name, config })
                && r.1 is LoadConfig,
            req matches AdminRequest::RemoveMcp { name } ==> r.0 == (AdminTask::Remove { name }) && r.1 is LoadConfig,
            req is ImportConfig ==> r.0 is Import && r.1 is ImportAgent,
            req is Status ==> r.0 is Done && r.1 is ReportStatus,
            req is ListMcp ==> r.0 is Done && r.1 is ListServers,
            req is Shutdown ==> r.0 is Done && (r.1 matches AdminAction::Shutdown(resp) && resp.ok
                && resp.message@ == "daemon shutting down"@ && resp.data is None),
    {
        match req {
            AdminRequest::AddMcp { name, config } => (AdminTask::Add { name, config }, AdminAction::LoadConfig),
            AdminRequest::RemoveMcp { name } => (AdminTask::Remove { name }, AdminAction::LoadConfig),
            AdminRequest::ImportConfig { .. } => (AdminTask::Import, AdminAction::ImportAgent),
            AdminRequest::Status => (AdminTask::Done, AdminAction::ReportStatus),
            AdminRequest::ListMcp => (AdminTask::Done, AdminAction::ListServers),
            AdminRequest::Shutdown => (
                AdminTask::Done,
                AdminAction::Shutdown(AdminResponse::ok(string_from("daemon shutting down"))),
            ),
        }
    }

    /// Decides what follows the outcome of the last piece of work.
    pub fn step(self, event: AdminEvent) -> (r: (AdminTask, AdminAction))
        requires
            accepts(self, event),
        ensures
            step_spec(self, event, r),
    {
        let ghost task = self;
        match event {
            AdminEvent::Failed(e) => {
                let prefix = match self {
                    AdminTask::Add { .. } | AdminTask::AddApplying { .. } => "failed to add server: ",
                    AdminTask::Remove { .. } | AdminTask::RemoveApplying { .. } => "failed to remove server: ",
                    _ => "import failed: ",
                };
                let mut v = chars_of(prefix);
                push_str(&mut v, e.as_str());
                (AdminTask::Done, AdminAction::Respond(AdminResponse::err(string_of(&v))))
            },
            AdminEvent::ConfigLoaded(cfg) => {
                let mut cfg = cfg;
                match self {
                    AdminTask::Add { name, config } => {
                        cfg.add_server(copy_string(&name), config);
                        (AdminTask::AddApplying { name }, AdminAction::SaveAndReconnect(cfg))
                    },
                    AdminTask::Remove { name } => {
                        if cfg.remove_server(name.as_str()) {
                            (AdminTask::RemoveApplying { name }, AdminAction::SaveAndReconnect(cfg))
                        } else {
                            let msg = quoted_message("server '", &name, "' not found");
                            (AdminTask::Done, AdminAction::Respond(AdminResponse::err(msg)))
                        }
                    },
                    AdminTask::ImportLoading { servers } => {
                        let count = servers.len();
                        add_all(&mut cfg, servers);
                        (AdminTask::ImportApplying { count }, AdminAction::SaveAndReconnect(cfg))
                    },
                    _ => (AdminTask::Done, AdminAction::LoadConfig),
                }
            },
            AdminEvent::Imported(servers) => (AdminTask::ImportLoading { servers }, AdminAction::LoadConfig),
            AdminEvent::Applied => match self {
                AdminTask::AddApplying { name } => {
                    let msg = quoted_message("added server '", &name, "'");
                    (AdminTask::Done, AdminAction::Respond(AdminResponse::ok(msg)))
                },
                AdminTask::RemoveApplying { name } => {
                    let msg = quoted_message("removed server '", &name, "'");
                    (AdminTask::Done, AdminAction::Respond(AdminResponse::ok(msg)))
                },
                AdminTask::ImportApplying { count } => {
                    let mut v = chars_of("imported ");
                    let d = decimal_chars(count);
                    push_all(&mut v, &d);
                    push_str(&mut v, " server(s) from agent config");
                    (AdminTask::Done, AdminAction::Respond(AdminResponse::ok(string_of(&v))))
                },
                _ => (AdminTask::Done, AdminAction::LoadConfig),
            },
        }
    }
}

// ---------------------------------------------------------------------------
// Laws
// ---------------------------------------------------------------------------

/// Without a configured token every request is served.
pub proof fn law_no_token_serves_all(header: Option<Seq<char>>)
    ensures
        authorized(None, header),
{
}

/// With a configured token, a request is served when it carries exactly
/// `Bearer <token>`, and never when it carries no header.
pub proof fn law_token_must_match(token: Seq<char>)
    requires
        trim(token) == token,
    ensures
        authorized(Some(token), Some("Bearer "@ + token)),
        !authorized(Some(token), None),
{
    let v = "Bearer "@ + token;
    assert(v.take("Bearer "@.len() as int) =~= "Bearer "@);
    assert(v.skip("Bearer "@.len() as int) =~= token);
}

/// A failure at any point of serving a request is answered as a failure
/// whose message names the request, and the request is then served: no
/// further work is asked for, so no configuration is saved and no
/// reconnection replaces the catalog, the index or the sandbox after it.
pub proof fn law_failure_is_answered(t: AdminTask, e: String, r: (AdminTask, AdminAction))
    requires
        !(t is Done),
        step_spec(t, AdminEvent::Failed(e), r),
    ensures
        r.0 is Done,
        r.1 matches AdminAction::Respond(resp) && !resp.ok && resp.message@ == failure_prefix(t) + e@,
        !(r.1 is SaveAndReconnect),
{
}

/// After an import, a name that imported servers have maps to the
/// definition of its last occurrence `i` among them: imported definitions
/// replace configured servers of the same name, and later ones earlier ones.
pub proof fn law_import_replaces_by_name(
    m: Map<Seq<char>, ServerSpec>,
    s: Seq<(Seq<char>, ServerSpec)>,
    n: Seq<char>,
    i: int,
)
    requires
        0 <= i < s.len(),
        s[i].0 == n,
        forall|j: int| i < j < s.len() ==> s[j].0 != n,
    ensures
        insert_all(m, s).contains_key(n),
        insert_all(m, s)[n] == s[i].1,
    decreases s.len(),
{
    let t = s.drop_last();
    let last = s[s.len() - 1];
    assert(insert_all(m, s) == insert_all(m, t).insert(last.0, last.1));
    if i < s.len() - 1 {
        assert(last.0 != n);
        assert forall|j: int| i < j < t.len() implies t[j].0 != n by {
            assert(t[j] == s[j]);
        }
        law_import_replaces_by_name(m, t, n, i);
    }
}

/// After an import, a name that no imported server has keeps what the
/// configuration had for it (or stays absent).
pub proof fn law_import_keeps_other_names(
    m: Map<Seq<char>, ServerSpec>,
    s: Seq<(Seq<char>, ServerSpec)>,
    n: Seq<char>,
)
    requires
        forall|j: int| 0 <= j < s.len() ==> s[j].0 != n,
    ensures
        insert_all(m, s).contains_key(n) == m.contains_key(n),
        m.contains_key(n) ==> insert_all(m, s)[n] == m[n],
    decreases s.len(),
{
    if s.len() > 0 {
        let t = s.drop_last();
        let last = s[s.len() - 1];
        assert(last.0 != n);
        assert(insert_all(m, s) == insert_all(m, t).insert(last.0, last.1));
        assert forall|j: int| 0 <= j < t.len() implies t[j].0 != n by {
            assert(t[j] == s[j]);
        }
        law_import_keeps_other_names(m, t, n);
    }
}

} // verus!
