//! What the `kondi` command line computes: server definitions from its
//! arguments, the changes and messages of its direct commands, how it waits
//! for the daemon, what it prints of the daemon's status, and the files that
//! install the daemon as a login service.
use vstd::prelude::*;
use crate::config::{opt_view, Config, NameMap, ServerConfig, ServerSpec};
use crate::json::{as_str, get, Json};
use crate::text::is_ascii_digit;
use crate::text::{
    chars_of, contains_char, copy_string, has_prefix, push_all, push_str, replace, replace_chars,
    split_once, split_once_chars, starts_with, string_from, string_of, trim, trim_chars, views,
    lemma_replace_absent, decimal, decimal_u64, strip_prefix, strip_prefix_chars,
};

verus! {

broadcast use vstd::string::group_string_axioms;

// ---------------------------------------------------------------------------
// Server definitions from arguments
// ---------------------------------------------------------------------------

/// Why the arguments of `kondi add` define no server.
pub enum CliError {
    /// An HTTP or SSE server without a URL.
    MissingUrl,
    /// A stdio server without a command.
    MissingCommand,
    /// A transport other than `http`, `sse` and `stdio`.
    UnknownTransport(String),
}

impl CliError {
    /// The message of the error.
    pub fn message(&self) -> (r: String)
        ensures
            *self is MissingUrl ==> r@ == "missing URL"@,
            *self is MissingCommand ==> r@ == "missing command"@,
            *self matches CliError::UnknownTransport(t) ==> r@ == "unknown transport '"@ + t@
                + "'. Use: http, sse, or stdio"@,
    {
        match self {
            CliError::MissingUrl => string_from("missing URL"),
            CliError::MissingCommand => string_from("missing command"),
            CliError::UnknownTransport(t) => {
                let mut v = chars_of("unknown transport '");
                push_str(&mut v, t.as_str());
                push_str(&mut v, "'. Use: http, sse, or stdio");
                string_of(&v)
            },
        }
    }
}

/// `Key: Value` arguments as headers: each argument with a `:` gives the
/// trimmed text before it as name and the trimmed text after it as value;
/// other arguments are ignored; a later header of the same name wins.
pub open spec fn headers_map(raw: Seq<Seq<char>>, n: nat) -> Map<Seq<char>, Seq<char>>
    decreases n,
{
    if n == 0 || n > raw.len() {
        Map::empty()
    } else {
        let prev = headers_map(raw, (n - 1) as nat);
        match split_once(raw[n - 1], ':') {
            Some((k, v)) => prev.insert(trim(k), trim(v)),
            None => prev,
        }
    }
}

/// `KEY=VALUE` arguments as environment variables: split at the first `=`,
/// nothing trimmed; other arguments are ignored; a later one wins.
pub open spec fn envs_map(raw: Seq<Seq<char>>, n: nat) -> Map<Seq<char>, Seq<char>>
    decreases n,
{
    if n == 0 || n > raw.len() {
        Map::empty()
    } else {
        let prev = envs_map(raw, (n - 1) as nat);
        match split_once(raw[n - 1], '=') {
            Some((k, v)) => prev.insert(k, v),
            None => prev,
        }
    }
}

/// Parses `Key: Value` header arguments.
pub fn parse_headers_vec(raw: &[String]) -> (r: NameMap<String>)
    ensures
        r@ == headers_map(views(raw@), raw@.len()),
{
    let mut map: NameMap<String> = NameMap::new();
    let mut i: usize = 0;
    while i < raw.len()
        invariant
            i <= raw@.len(),
            map@ == headers_map(views(raw@), i as nat),
        decreases raw@.len() - i,
    {
        match split_once_chars(&chars_of(raw[i].as_str()), ':') {
            Some((k, v)) => {
                let _ = map.insert(string_of(&trim_chars(&k)), string_of(&trim_chars(&v)));
            },
            None => {},
        }
        i = i + 1;
    }
    map
}

/// Parses `KEY=VALUE` environment arguments.
pub fn parse_envs_vec(raw: &[String]) -> (r: NameMap<String>)
    ensures
        r@ == envs_map(views(raw@), raw@.len()),
{
    let mut map: NameMap<String> = NameMap::new();
    let mut i: usize = 0;
    while i < raw.len()
        invariant
            i <= raw@.len(),
            map@ == envs_map(views(raw@), i as nat),
        decreases raw@.len() - i,
    {
        match split_once_chars(&chars_of(raw[i].as_str()), '=') {
            Some((k, v)) => {
                let _ = map.insert(string_of(&k), string_of(&v));
            },
            None => {},
        }
        i = i + 1;
    }
    map
}

/// The transport of `kondi add`: the one given, else `http` for a first
/// argument that is an `http://` or `https://` URL or for no argument, else
/// `stdio`.
pub open spec fn effective_transport(transport: Option<Seq<char>>, args: Seq<Seq<char>>) -> Seq<char> {
    match transport {
        Some(t) => t,
        None => if args.len() == 0 {
            "http"@
        } else if starts_with(args[0], "http://"@) || starts_with(args[0], "https://"@) {
            "http"@
        } else {
            "stdio"@
        },
    }
}

/// The arguments without their leading `--` separators.
pub open spec fn skip_separators(args: Seq<Seq<char>>) -> Seq<Seq<char>>
    decreases args.len(),
{
    if args.len() > 0 && args[0] == "--"@ {
        skip_separators(args.drop_first())
    } else {
        args
    }
}

fn skip_separators_exec(args: &[String]) -> (r: Vec<String>)
    ensures
        views(r@) == skip_separators(views(args@)),
{
    let sep = string_from("--");
    let mut i: usize = 0;
    assert(views(args@).skip(0) == views(args@));
    while i < args.len() && args[i] == sep
        invariant
            i <= args@.len(),
            sep@ == "--"@,
            skip_separators(views(args@)) == skip_separators(views(args@).skip(i as int)),
        decreases args@.len() - i,
    {
        assert(views(args@).skip(i as int).drop_first() == views(args@).skip(i + 1));
        i = i + 1;
    }
    let mut r: Vec<String> = Vec::new();
    let start = i;
    while i < args.len()
        invariant
            start <= i <= args@.len(),
            views(r@) == views(args@).subrange(start as int, i as int),
        decreases args@.len() - i,
    {
        let ghost before = views(r@);
        r.push(copy_string(&args[i]));
        assert(views(r@) =~= before.push(args@[i as int]@));
        i = i + 1;
    }
    r
}

/// The bearer token of an `--auth` value: the value without a leading
/// `Bearer ` (or `bearer `), the value itself when it has neither.
pub open spec fn bearer_token(a: Seq<char>) -> Seq<char> {
    match strip_prefix(a, "Bearer "@) {
        Some(t) => t,
        None => match strip_prefix(a, "bearer "@) {
            Some(t) => t,
            None => a,
        },
    }
}

/// The token of an optional `--auth` value.
pub open spec fn auth_token(a: Option<Seq<char>>) -> Option<Seq<char>> {
    match a {
        Some(v) => Some(bearer_token(v)),
        None => None,
    }
}

/// Takes the token out of an `--auth` value.
fn strip_bearer(auth: Option<String>) -> (r: Option<String>)
    ensures
        opt_view(r) == auth_token(opt_view(auth)),
{
    match auth {
        None => None,
        Some(a) => {
            let v = chars_of(a.as_str());
            match strip_prefix_chars(&v, "Bearer ") {
                Some(t) => Some(string_of(&t)),
                None => match strip_prefix_chars(&v, "bearer ") {
                    Some(t) => Some(string_of(&t)),
                    None => Some(a),
                },
            }
        },
    }
}

/// What `kondi add` defines: the server of the effective transport, its URL
/// or command taken from the arguments after any leading `--`; the `--auth`
/// value is kept as the bearer token, without its `Bearer ` prefix.
pub fn parse_server_config(
    transport: Option<String>,
    auth: Option<String>,
    headers: Vec<String>,
    envs: Vec<String>,
    args: &[String],
) -> (r: Result<ServerConfig, CliError>)
    ensures
        ({
            let t = effective_transport(opt_view(transport), views(args@));
            let a = skip_separators(views(args@));
            &&& t == "http"@ && a.len() > 0 ==> (r matches Ok(c) && c@ == ServerSpec::Http {
                url: a[0],
                auth: auth_token(opt_view(auth)),
                headers: headers_map(views(headers@), headers@.len()),
            })
            &&& t == "sse"@ && a.len() > 0 ==> (r matches Ok(c) && c@ == ServerSpec::Sse {
                url: a[0],
                auth: auth_token(opt_view(auth)),
                headers: headers_map(views(headers@), headers@.len()),
            })
            &&& (t == "http"@ || t == "sse"@) && a.len() == 0 ==> (r matches Err(CliError::MissingUrl))
            &&& t == "stdio"@ && a.len() > 0 ==> (r matches Ok(c) && c@ == ServerSpec::Stdio {
                command: a[0],
                args: a.drop_first(),
                env: envs_map(views(envs@), envs@.len()),
            })
            &&& t == "stdio"@ && a.len() == 0 ==> (r matches Err(CliError::MissingCommand))
            &&& t != "http"@ && t != "sse"@ && t != "stdio"@ ==> (r matches Err(
                CliError::UnknownTransport(u),
            ) && u@ == t)
        }),
{
    proof {
        reveal_strlit("http");
        reveal_strlit("sse");
        reveal_strlit("stdio");
    }
    let ghost tv = effective_transport(opt_view(transport), views(args@));
    let transport: String = match transport {
        Some(t) => t,
        None => if args.len() == 0 {
            string_from("http")
        } else {
            let first = chars_of(args[0].as_str());
            if has_prefix(&first, "http://") || has_prefix(&first, "https://") {
                string_from("http")
            } else {
                string_from("stdio")
            }
        },
    };
    assert(transport@ == tv);
    let rest = skip_separators_exec(args);
    if transport == string_from("http") || transport == string_from("sse") {
        if rest.len() == 0 {
            return Err(CliError::MissingUrl);
        }
        let url = copy_string(&rest[0]);
        let headers = parse_headers_vec(headers.as_slice());
        let auth = strip_bearer(auth);
        if transport == string_from("http") {
            Ok(ServerConfig::Http { url, auth, headers })
        } else {
            Ok(ServerConfig::Sse { url, auth, headers })
        }
    } else if transport == string_from("stdio") {
        if rest.len() == 0 {
            return Err(CliError::MissingCommand);
        }
        let command = copy_string(&rest[0]);
        let mut cmd_args: Vec<String> = Vec::new();
        let mut i: usize = 1;
        while i < rest.len()
            invariant
                1 <= i <= rest@.len(),
                views(cmd_args@) == views(rest@).subrange(1, i as int),
            decreases rest@.len() - i,
        {
            let ghost before = views(cmd_args@);
            cmd_args.push(copy_string(&rest[i]));
            assert(views(cmd_args@) =~= before.push(rest@[i as int]@));
            i = i + 1;
        }
        assert(views(rest@).subrange(1, rest@.len() as int) =~= views(rest@).drop_first());
        let env = parse_envs_vec(envs.as_slice());
        Ok(ServerConfig::Stdio { command, args: cmd_args, env })
    } else {
        Err(CliError::UnknownTransport(transport))
    }
}

// ---------------------------------------------------------------------------
// Login service
// ---------------------------------------------------------------------------

/// Text escaped for XML: `&`, `<`, `>` and `"` replaced by their entities,
/// in that order.
pub open spec fn xml_escaped(s: Seq<char>) -> Seq<char> {
    replace(replace(replace(replace(s, "&"@, "&amp;"@), "<"@, "&lt;"@), ">"@, "&gt;"@), "\""@, "&quot;"@)
}

/// Escapes text for XML.
pub fn xml_escape(s: &str) -> (r: String)
    ensures
        r@ == xml_escaped(s@),
{
    proof {
        reveal_strlit("&");
        reveal_strlit("<");
        reveal_strlit(">");
        reveal_strlit("\"");
    }
    let a = replace_chars(&chars_of(s), "&", "&amp;");
    let b = replace_chars(&a, "<", "&lt;");
    let c = replace_chars(&b, ">", "&gt;");
    let d = replace_chars(&c, "\"", "&quot;");
    string_of(&d)
}

/// What installing or removing the login service needs done: files to
/// write, a program to run, a message to print.
pub struct ServiceInstall {
    /// The directory to create.
    pub dir: String,
    /// The service file to write.
    pub path: String,
    /// The contents of the service file.
    pub contents: String,
    /// The program that loads the service, and its arguments.
    pub program: String,
    pub args: Vec<String>,
    /// What to print once it is done.
    pub message: String,
}

/// What removing the login service needs done.
pub struct ServiceRemoval {
    /// The service file; when it is absent, nothing is done but printing
    /// `absent_message`.
    pub path: String,
    /// The program that unloads the service, and its arguments.
    pub program: String,
    pub args: Vec<String>,
    pub removed_message: String,
    pub absent_message: String,
}

/// Why the login service cannot be installed or removed.
pub enum ServiceError {
    /// The daemon's path holds a line break, which a unit file cannot hold.
    PathHasNewline,
    /// `HOME` is not set.
    NoHome,
}

impl ServiceError {
    /// The message of the error.
    pub fn message(&self) -> (r: String)
        ensures
            *self is PathHasNewline ==> r@ == "kondid path contains a newline — installation aborted"@,
            *self is NoHome ==> r@ == "HOME not set"@,
    {
        match self {
            ServiceError::PathHasNewline => string_from("kondid path contains a newline — installation aborted"),
            ServiceError::NoHome => string_from("HOME not set"),
        }
    }
}

/// The systemd user unit that runs the daemon at `kondid`.
pub open spec fn systemd_unit(kondid: Seq<char>) -> Seq<char> {
    "[Unit]\nDescription=Kondi MCP daemon\nAfter=network.target\n\n[Service]\nExecStart="@ + kondid + "\nRestart=on-failure\nRestartSec=5\n\n[Install]\nWantedBy=default.target\n"@
}

/// The LaunchAgent property list that runs the daemon at `kondid`.
pub open spec fn launch_agent_plist(kondid: Seq<char>) -> Seq<char> {
    "<?xml version=\"1.0\" encoding=\"UTF-8\"?>\n<!DOCTYPE plist PUBLIC \"-//Apple//DTD PLIST 1.0//EN\"\n  \"http://www.apple.com/DTDs/PropertyList-1.0.dtd\">\n<plist version=\"1.0\">\n<dict>\n  <key>Label</key>             <string>app.kondi.daemon</string>\n  <key>ProgramArguments</key>  <array><string>"@ + xml_escaped(kondid) + "</string></array>\n  <key>RunAtLoad</key>         <true/>\n  <key>KeepAlive</key>         <false/>\n  <key>StandardOutPath</key>   <string>/tmp/kondid.log</string>\n  <key>StandardErrorPath</key> <string>/tmp/kondid.err</string>\n</dict>\n</plist>\n"@
}

fn concat(a: &str, b: &str) -> (r: String)
    ensures
        r@ == a@ + b@,
{
    let mut v = chars_of(a);
    push_str(&mut v, b);
    string_of(&v)
}

fn strings2(a: &str, b: &str, c: &str, d: &str) -> (r: Vec<String>)
    ensures
        views(r@) == seq![a@, b@, c@, d@],
{
    let mut v: Vec<String> = Vec::new();
    v.push(string_from(a));
    v.push(string_from(b));
    v.push(string_from(c));
    v.push(string_from(d));
    assert(views(v@) =~= seq![a@, b@, c@, d@]);
    v
}

/// Installing the daemon as a systemd user service: the unit file
/// `.config/systemd/user/kondid.service` under the home directory, enabled
/// and started with `systemctl --user enable --now kondid`.
pub fn install_service(kondid: &str, home: Option<String>) -> (r: Result<ServiceInstall, ServiceError>)
    ensures
        kondid@.contains('\n') ==> r matches Err(ServiceError::PathHasNewline),
        !kondid@.contains('\n') && home is None ==> r matches Err(ServiceError::NoHome),
        !kondid@.contains('\n') && home is Some ==> (r matches Ok(p) && {
            let h = home->0@;
            &&& p.dir@ == h + "/.config/systemd/user"@
            &&& p.path@ == h + "/.config/systemd/user/kondid.service"@
            &&& p.contents@ == systemd_unit(kondid@)
            &&& p.program@ == "systemctl"@
            &&& views(p.args@) == seq!["--user"@, "enable"@, "--now"@, "kondid"@]
            &&& p.message@ == "kondid installed as systemd user service: "@ + p.path@
        }),
{
    if contains_char(&chars_of(kondid), '\n') {
        return Err(ServiceError::PathHasNewline);
    }
    let home = match home {
        Some(h) => h,
        None => {
            return Err(ServiceError::NoHome);
        },
    };
    let dir = concat(home.as_str(), "/.config/systemd/user");
    let path = concat(home.as_str(), "/.config/systemd/user/kondid.service");
    let contents = {
        let mut v = chars_of("[Unit]\nDescription=Kondi MCP daemon\nAfter=network.target\n\n[Service]\nExecStart=");
        push_str(&mut v, kondid);
        push_str(&mut v, "\nRestart=on-failure\nRestartSec=5\n\n[Install]\nWantedBy=default.target\n");
        string_of(&v)
    };
    let message = concat("kondid installed as systemd user service: ", path.as_str());
    Ok(ServiceInstall {
        dir,
        path,
        contents,
        program: string_from("systemctl"),
        args: strings2("--user", "enable", "--now", "kondid"),
        message,
    })
}

/// Removing the systemd user service: disabled and stopped with
/// `systemctl --user disable --now kondid`, then its unit file removed.
pub fn uninstall_service(home: Option<String>) -> (r: Result<ServiceRemoval, ServiceError>)
    ensures
        home is None ==> r matches Err(ServiceError::NoHome),
        home is Some ==> (r matches Ok(p) && {
            &&& p.path@ == home->0@ + "/.config/systemd/user/kondid.service"@
            &&& p.program@ == "systemctl"@
            &&& views(p.args@) == seq!["--user"@, "disable"@, "--now"@, "kondid"@]
            &&& p.removed_message@ == "kondid systemd service removed"@
            &&& p.absent_message@ == "kondid is not installed as a systemd service"@
        }),
{
    let home = match home {
        Some(h) => h,
        None => {
            return Err(ServiceError::NoHome);
        },
    };
    Ok(ServiceRemoval {
        path: concat(home.as_str(), "/.config/systemd/user/kondid.service"),
        program: string_from("systemctl"),
        args: strings2("--user", "disable", "--now", "kondid"),
        removed_message: string_from("kondid systemd service removed"),
        absent_message: string_from("kondid is not installed as a systemd service"),
    })
}

/// Installing the daemon as a macOS LaunchAgent: the property list
/// `Library/LaunchAgents/app.kondi.daemon.plist` under the home directory,
/// loaded with `launchctl load -w`.
pub fn install_launch_agent(kondid: &str, home: Option<String>) -> (r: Result<ServiceInstall, ServiceError>)
    ensures
        home is None ==> r matches Err(ServiceError::NoHome),
        home is Some ==> (r matches Ok(p) && {
            let h = home->0@;
            &&& p.dir@ == h + "/Library/LaunchAgents"@
            &&& p.path@ == h + "/Library/LaunchAgents/app.kondi.daemon.plist"@
            &&& p.contents@ == launch_agent_plist(kondid@)
            &&& p.program@ == "launchctl"@
            &&& views(p.args@) == seq!["load"@, "-w"@, p.path@]
            &&& p.message@ == "kondid installed as LaunchAgent: "@ + p.path@
        }),
{
    let home = match home {
        Some(h) => h,
        None => {
            return Err(ServiceError::NoHome);
        },
    };
    let dir = concat(home.as_str(), "/Library/LaunchAgents");
    let path = concat(home.as_str(), "/Library/LaunchAgents/app.kondi.daemon.plist");
    let escaped = xml_escape(kondid);
    let contents = {
        let mut v = chars_of("<?xml version=\"1.0\" encoding=\"UTF-8\"?>\n<!DOCTYPE plist PUBLIC \"-//Apple//DTD PLIST 1.0//EN\"\n  \"http://www.apple.com/DTDs/PropertyList-1.0.dtd\">\n<plist version=\"1.0\">\n<dict>\n  <key>Label</key>             <string>app.kondi.daemon</string>\n  <key>ProgramArguments</key>  <array><string>");
        push_str(&mut v, escaped.as_str());
        push_str(&mut v, "</string></array>\n  <key>RunAtLoad</key>         <true/>\n  <key>KeepAlive</key>         <false/>\n  <key>StandardOutPath</key>   <string>/tmp/kondid.log</string>\n  <key>StandardErrorPath</key> <string>/tmp/kondid.err</string>\n</dict>\n</plist>\n");
        string_of(&v)
    };
    let message = concat("kondid installed as LaunchAgent: ", path.as_str());
    let mut args: Vec<String> = Vec::new();
    args.push(string_from("load"));
    args.push(string_from("-w"));
    args.push(copy_string(&path));
    assert(views(args@) =~= seq!["load"@, "-w"@, path@]);
    Ok(ServiceInstall { dir, path, contents, program: string_from("launchctl"), args, message })
}

/// Removing the LaunchAgent: unloaded with `launchctl unload -w`, then its
/// property list removed.
pub fn uninstall_launch_agent(home: Option<String>) -> (r: Result<ServiceRemoval, ServiceError>)
    ensures
        home is None ==> r matches Err(ServiceError::NoHome),
        home is Some ==> (r matches Ok(p) && {
            &&& p.path@ == home->0@ + "/Library/LaunchAgents/app.kondi.daemon.plist"@
            &&& p.program@ == "launchctl"@
            &&& views(p.args@) == seq!["unload"@, "-w"@, p.path@]
            &&& p.removed_message@ == "kondid LaunchAgent removed"@
            &&& p.absent_message@ == "kondid is not installed as a LaunchAgent"@
        }),
{
    let home = match home {
        Some(h) => h,
        None => {
            return Err(ServiceError::NoHome);
        },
    };
    let path = concat(home.as_str(), "/Library/LaunchAgents/app.kondi.daemon.plist");
    let mut args: Vec<String> = Vec::new();
    args.push(string_from("unload"));
    args.push(string_from("-w"));
    args.push(copy_string(&path));
    assert(views(args@) =~= seq!["unload"@, "-w"@, path@]);
    Ok(ServiceRemoval {
        path,
        program: string_from("launchctl"),
        args,
        removed_message: string_from("kondid LaunchAgent removed"),
        absent_message: string_from("kondid is not installed as a LaunchAgent"),
    })
}

/// How long the daemon has run, as `<minutes>m <seconds>s`.
pub fn uptime_text(secs: u64) -> (r: String)
    ensures
        r@ == decimal((secs / 60) as nat) + "m "@ + decimal((secs % 60) as nat) + "s"@,
{
    let mut v = decimal_u64(secs / 60);
    push_str(&mut v, "m ");
    let s = decimal_u64(secs % 60);
    push_all(&mut v, &s);
    push_str(&mut v, "s");
    string_of(&v)
}

/// The base URL of the admin API of a daemon listening on `port` of the
/// loopback interface.
pub fn admin_url(port: u16) -> (r: String)
    ensures
        r@ == "http://127.0.0.1:"@ + decimal(port as nat),
{
    let mut v = chars_of("http://127.0.0.1:");
    let d = decimal_u64(port as u64);
    push_all(&mut v, &d);
    string_of(&v)
}

// ---------------------------------------------------------------------------
// Direct commands
// ---------------------------------------------------------------------------

fn quoted(before: &str, name: &str, after: &str) -> (r: String)
    ensures
        r@ == before@ + name@ + after@,
{
    let mut v = chars_of(before);
    push_str(&mut v, name);
    push_str(&mut v, after);
    string_of(&v)
}

/// `kondi add`: adds the server to the configuration (replacing one of the
/// same name) and gives the message to print.
pub fn add_configured(cfg: &mut Config, name: String, config: ServerConfig) -> (r: String)
    ensures
        final(cfg).servers@ == old(cfg).servers@.insert(name@, config@),
        final(cfg).admin == old(cfg).admin,
        r@ == "added server '"@ + name@ + "'"@,
{
    let msg = quoted("added server '", name.as_str(), "'");
    cfg.add_server(name, config);
    msg
}

/// `kondi remove`: removes the server from the configuration; tells whether
/// there was one (and the configuration is to be saved), and the message to
/// print.
pub fn remove_configured(cfg: &mut Config, name: &str) -> (r: (bool, String))
    ensures
        r.0 == old(cfg).servers@.contains_key(name@),
        final(cfg).servers@ == old(cfg).servers@.remove(name@),
        final(cfg).admin == old(cfg).admin,
        r.0 ==> r.1@ == "removed server '"@ + name@ + "'"@,
        !r.0 ==> r.1@ == "server '"@ + name@ + "' not found"@,
{
    if cfg.remove_server(name) {
        (true, quoted("removed server '", name, "'"))
    } else {
        (false, quoted("server '", name, "' not found"))
    }
}

// ---------------------------------------------------------------------------
// Waiting for the daemon
// ---------------------------------------------------------------------------

/// The number of health checks made while waiting for the daemon.
pub const WAIT_PROBES: u32 = 30;

/// What is waited for: the daemon to answer its health check, or to stop
/// answering it.
pub enum WaitGoal {
    Up,
    Down,
}

/// A wait for the daemon: its goal and the health checks it may still make.
pub struct DaemonWait {
    pub goal: WaitGoal,
    pub probes_left: u32,
}

/// The next piece of work of a wait.
pub enum WaitStep {
    /// Sleep, then check the daemon's health with the given timeout.
    Probe { sleep_ms: u64, timeout_ms: u64 },
    /// The goal is reached.
    Reached,
    /// The goal was not reached in time; the text says so.
    TimedOut(String),
}

/// The probe of a goal: after the daemon was started, every 100 ms with a
/// 2 s timeout; after it was told to stop, every 200 ms with a 300 ms
/// timeout.
pub open spec fn probe_of(goal: WaitGoal) -> WaitStep {
    match goal {
        WaitGoal::Up => WaitStep::Probe { sleep_ms: 100, timeout_ms: 2000 },
        WaitGoal::Down => WaitStep::Probe { sleep_ms: 200, timeout_ms: 300 },
    }
}

/// The message of a wait that timed out.
pub open spec fn timeout_message(goal: WaitGoal) -> Seq<char> {
    match goal {
        WaitGoal::Up => "kondid did not start in time — run `kondid` manually"@,
        WaitGoal::Down => "daemon did not stop in time"@,
    }
}

fn probe(goal: &WaitGoal) -> (r: WaitStep)
    ensures
        r == probe_of(*goal),
{
    match goal {
        WaitGoal::Up => WaitStep::Probe { sleep_ms: 100, timeout_ms: 2000 },
        WaitGoal::Down => WaitStep::Probe { sleep_ms: 200, timeout_ms: 300 },
    }
}

/// Where a wait stands: still checking, with the checks it may still make;
/// the goal reached; or timed out.
pub enum WaitState {
    Probing(nat),
    Reached,
    TimedOut,
}

/// Whether a health check's answer meets the goal.
pub open spec fn meets(goal: WaitGoal, answered: bool) -> bool {
    answered <==> goal is Up
}

/// Where a wait stands after a health check, from where it stood before.
pub open spec fn next_state(goal: WaitGoal, st: WaitState, answered: bool) -> WaitState {
    match st {
        WaitState::Probing(n) => if meets(goal, answered) {
            WaitState::Reached
        } else if n <= 1 {
            WaitState::TimedOut
        } else {
            WaitState::Probing((n - 1) as nat)
        },
        _ => st,
    }
}

/// Where a wait for `goal` stands after the answers to its health checks,
/// in order.
pub open spec fn state_after(goal: WaitGoal, answers: Seq<bool>) -> WaitState
    decreases answers.len(),
{
    if answers.len() == 0 {
        WaitState::Probing(WAIT_PROBES as nat)
    } else {
        next_state(goal, state_after(goal, answers.drop_last()), answers.last())
    }
}

/// Where a wait stands, from its state and its next piece of work.
pub open spec fn state_of(w: DaemonWait, s: WaitStep) -> WaitState {
    match s {
        WaitStep::Probe { .. } => WaitState::Probing(w.probes_left as nat),
        WaitStep::Reached => WaitState::Reached,
        WaitStep::TimedOut(_) => WaitState::TimedOut,
    }
}

impl DaemonWait {
    /// Starts waiting: all the health checks are left, and the first is made.
    pub fn begin(goal: WaitGoal) -> (r: (DaemonWait, WaitStep))
        ensures
            r.0.goal == goal,
            r.0.probes_left == WAIT_PROBES,
            r.1 == probe_of(goal),
            state_of(r.0, r.1) == state_after(goal, seq![]),
    {
        let p = probe(&goal);
        (DaemonWait { goal, probes_left: WAIT_PROBES }, p)
    }

    /// What follows a health check (`answered` tells whether the daemon
    /// answered it): the goal is reached when the daemon answers (waiting
    /// for it to start) or does not (waiting for it to stop); else the
    /// next check is made, unless this was the last one.
    pub fn step(self, answered: bool) -> (r: (DaemonWait, WaitStep))
        ensures
            r.0.goal == self.goal,
            (answered <==> self.goal is Up) ==> r.1 is Reached && r.0.probes_left == self.probes_left,
            !(answered <==> self.goal is Up) && self.probes_left <= 1 ==> (r.1 matches WaitStep::TimedOut(m)
                && m@ == timeout_message(self.goal)) && r.0.probes_left == 0,
            !(answered <==> self.goal is Up) && self.probes_left > 1 ==> r.1 == probe_of(self.goal)
                && r.0.probes_left == self.probes_left - 1,
            state_of(r.0, r.1) == next_state(self.goal, WaitState::Probing(self.probes_left as nat), answered),
    {
        let up = match self.goal {
            WaitGoal::Up => true,
            WaitGoal::Down => false,
        };
        if answered == up {
            (self, WaitStep::Reached)
        } else if self.probes_left <= 1 {
            let msg = match self.goal {
                WaitGoal::Up => string_from("kondid did not start in time — run `kondid` manually"),
                WaitGoal::Down => string_from("daemon did not stop in time"),
            };
            (DaemonWait { goal: self.goal, probes_left: 0 }, WaitStep::TimedOut(msg))
        } else {
            let p = probe(&self.goal);
            (DaemonWait { goal: self.goal, probes_left: self.probes_left - 1 }, p)
        }
    }
}

// ---------------------------------------------------------------------------
// Daemon status
// ---------------------------------------------------------------------------

/// The value of a decimal digit.
pub open spec fn digit_value(c: char) -> nat {
    ((c as u32) - 48) as nat
}

/// Whether every character of `t` is a decimal digit.
pub open spec fn all_digits(t: Seq<char>) -> bool {
    forall|i: int| 0 <= i < t.len() ==> is_ascii_digit(#[trigger] t[i])
}

/// The value of a sequence of decimal digits.
pub open spec fn digits_value(t: Seq<char>) -> nat
    decreases t.len(),
{
    if t.len() == 0 {
        0
    } else {
        digits_value(t.drop_last()) * 10 + digit_value(t.last())
    }
}

/// A JSON number read as a `u64` (as `Value::as_u64`): the number when its
/// text is a non-negative integer that fits in 64 bits.
pub open spec fn number_u64(j: Json) -> Option<u64> {
    match j {
        Json::Number(t) => if t@.len() > 0 && all_digits(t@) && digits_value(t@) <= u64::MAX {
            Some(digits_value(t@) as u64)
        } else {
            None
        },
        _ => None,
    }
}

/// A member of an object read as a `u64`.
pub open spec fn member_u64(data: Json, key: Seq<char>) -> Option<u64> {
    match get(data, key) {
        Some(v) => number_u64(v),
        None => None,
    }
}

proof fn lemma_digits_value_grows(t: Seq<char>, i: int, j: int)
    requires
        0 <= i <= j <= t.len(),
    ensures
        digits_value(t.take(i)) <= digits_value(t.take(j)),
    decreases j - i,
{
    if i < j {
        lemma_digits_value_grows(t, i, j - 1);
        assert(t.take(j).drop_last() == t.take(j - 1));
    }
}

fn number_as_u64(j: &Json) -> (r: Option<u64>)
    ensures
        r == number_u64(*j),
{
    match j {
        Json::Number(t) => {
            let cs = chars_of(t.as_str());
            if cs.len() == 0 {
                return None;
            }
            let mut v: u64 = 0;
            let mut i: usize = 0;
            assert(cs@.take(0) =~= Seq::<char>::empty());
            while i < cs.len()
                invariant
                    i <= cs@.len(),
                    cs@ == t@,
                    cs@.len() > 0,
                    number_u64(*j) == (if cs@.len() > 0 && all_digits(cs@) && digits_value(cs@) <= u64::MAX {
                        Some(digits_value(cs@) as u64)
                    } else {
                        None::<u64>
                    }),
                    all_digits(cs@.take(i as int)),
                    v == digits_value(cs@.take(i as int)),
                decreases cs@.len() - i,
            {
                let c = cs[i];
                assert(cs@.take(i + 1 as int).drop_last() == cs@.take(i as int));
                assert(cs@.take(i + 1 as int).last() == c);
                if !('0' <= c && c <= '9') {
                    assert(!is_ascii_digit(cs@[i as int]));
                    return None;
                }
                let d = ((c as u32) - 48) as u64;
                assert(d == digit_value(c));
                if v > 1844674407370955161 || (v == 1844674407370955161 && d > 5) {
                    proof {
                        assert(digits_value(cs@.take(i + 1 as int)) > u64::MAX);
                        lemma_digits_value_grows(cs@, i + 1, cs@.len() as int);
                        assert(cs@.take(cs@.len() as int) == cs@);
                    }
                    return None;
                }
                v = v * 10 + d;
                i = i + 1;
            }
            assert(cs@.take(cs@.len() as int) == cs@);
            Some(v)
        },
        _ => None,
    }
}

/// The lines `kondi daemon status` prints under "kondid is running": the
/// process id, the uptime, the version and the number of servers, each when
/// the status data holds it.
pub open spec fn status_report(data: Json) -> Seq<Seq<char>> {
    (match member_u64(data, "pid"@) {
        Some(n) => seq!["  PID:      "@ + decimal(n as nat)],
        None => seq![],
    }) + (match member_u64(data, "uptime_secs"@) {
        Some(n) => seq!["  Uptime:   "@ + decimal((n / 60) as nat) + "m "@ + decimal((n % 60) as nat) + "s"@],
        None => seq![],
    }) + (match get(data, "version"@) {
        Some(v) => match as_str(v) {
            Some(t) => seq!["  Version:  "@ + t],
            None => seq![],
        },
        None => seq![],
    }) + (match member_u64(data, "server_count"@) {
        Some(n) => seq!["  Servers:  "@ + decimal(n as nat) + " connected"@],
        None => seq![],
    })
}

fn member_as_u64(data: &Json, key: &str) -> (r: Option<u64>)
    ensures
        r == member_u64(*data, key@),
{
    match data.get(key) {
        Some(v) => number_as_u64(v),
        None => None,
    }
}

/// The lines of the daemon's status (see [`status_report`]).
pub fn status_lines(data: &Json) -> (r: Vec<String>)
    ensures
        views(r@) == status_report(*data),
{
    let mut lines: Vec<String> = Vec::new();
    let ghost a: Seq<Seq<char>> = match member_u64(*data, "pid"@) {
        Some(n) => seq!["  PID:      "@ + decimal(n as nat)],
        None => seq![],
    };
    if let Some(pid) = member_as_u64(data, "pid") {
        let mut v = chars_of("  PID:      ");
        push_all(&mut v, &decimal_u64(pid));
        lines.push(string_of(&v));
    }
    assert(views(lines@) =~= a);
    let ghost b: Seq<Seq<char>> = match member_u64(*data, "uptime_secs"@) {
        Some(n) => seq!["  Uptime:   "@ + decimal((n / 60) as nat) + "m "@ + decimal((n % 60) as nat) + "s"@],
        None => seq![],
    };
    if let Some(up) = member_as_u64(data, "uptime_secs") {
        let mut v = chars_of("  Uptime:   ");
        let t = uptime_text(up);
        push_str(&mut v, t.as_str());
        assert(v@ =~= "  Uptime:   "@ + decimal((up / 60) as nat) + "m "@ + decimal((up % 60) as nat) + "s"@);
        lines.push(string_of(&v));
    }
    assert(views(lines@) =~= a + b);
    let ghost c: Seq<Seq<char>> = match get(*data, "version"@) {
        Some(v) => match as_str(v) {
            Some(t) => seq!["  Version:  "@ + t],
            None => seq![],
        },
        None => seq![],
    };
    match data.get("version") {
        Some(Json::Str(version)) => {
            let mut v = chars_of("  Version:  ");
            push_str(&mut v, version.as_str());
            lines.push(string_of(&v));
        },
        _ => {},
    }
    assert(views(lines@) =~= a + b + c);
    let ghost d: Seq<Seq<char>> = match member_u64(*data, "server_count"@) {
        Some(n) => seq!["  Servers:  "@ + decimal(n as nat) + " connected"@],
        None => seq![],
    };
    if let Some(count) = member_as_u64(data, "server_count") {
        let mut v = chars_of("  Servers:  ");
        push_all(&mut v, &decimal_u64(count));
        push_str(&mut v, " connected");
        lines.push(string_of(&v));
    }
    assert(views(lines@) =~= a + b + c + d);
    lines
}

// ---------------------------------------------------------------------------
// Laws
// ---------------------------------------------------------------------------

/// Escaped text holds no `<`, `>` or `"`: it can stand inside an XML element
/// or attribute.
pub proof fn law_xml_escaped_is_safe(s: Seq<char>)
    ensures
        !xml_escaped(s).contains('<'),
        !xml_escaped(s).contains('>'),
        !xml_escaped(s).contains('"'),
{
    reveal_strlit("&");
    reveal_strlit("<");
    reveal_strlit(">");
    reveal_strlit("\"");
    reveal_strlit("&amp;");
    reveal_strlit("&lt;");
    reveal_strlit("&gt;");
    reveal_strlit("&quot;");
    let a = replace(s, "&"@, "&amp;"@);
    let b = replace(a, "<"@, "&lt;"@);
    let c = replace(b, ">"@, "&gt;"@);
    assert("<"@ =~= seq!['<']);
    assert(">"@ =~= seq!['>']);
    assert("\""@ =~= seq!['"']);
    assert(!"&lt;"@.contains('<')) by {
        assert("&lt;"@ =~= seq!['&', 'l', 't', ';']);
    }
    assert(!"&gt;"@.contains('<') && !"&gt;"@.contains('>')) by {
        assert("&gt;"@ =~= seq!['&', 'g', 't', ';']);
    }
    assert(!"&quot;"@.contains('<') && !"&quot;"@.contains('>') && !"&quot;"@.contains('"')) by {
        assert("&quot;"@ =~= seq!['&', 'q', 'u', 'o', 't', ';']);
    }
    lemma_replace_absent(a, "<"@, "&lt;"@, '<');
    lemma_replace_absent(b, ">"@, "&gt;"@, '<');
    lemma_replace_absent(b, ">"@, "&gt;"@, '>');
    lemma_replace_absent(c, "\""@, "&quot;"@, '<');
    lemma_replace_absent(c, "\""@, "&quot;"@, '>');
    lemma_replace_absent(c, "\""@, "&quot;"@, '"');
}

/// Without `--transport`, a first argument that is an `http://` or
/// `https://` URL selects HTTP, and any other first argument selects stdio.
pub proof fn law_transport_from_url(args: Seq<Seq<char>>)
    requires
        args.len() > 0,
    ensures
        (starts_with(args[0], "http://"@) || starts_with(args[0], "https://"@)) ==> effective_transport(
            None,
            args,
        ) == "http"@,
        !(starts_with(args[0], "http://"@) || starts_with(args[0], "https://"@)) ==> effective_transport(
            None,
            args,
        ) == "stdio"@,
{
}

/// An `--auth` value `Bearer <token>` is stored as the token alone.
pub proof fn law_auth_keeps_token(token: Seq<char>)
    ensures
        auth_token(Some("Bearer "@ + token)) == Some(token),
        auth_token(Some("bearer "@ + token)) == Some(token),
{
    let v = "Bearer "@ + token;
    assert(v.take("Bearer "@.len() as int) =~= "Bearer "@);
    assert(v.skip("Bearer "@.len() as int) =~= token);
    let w = "bearer "@ + token;
    reveal_strlit("Bearer ");
    reveal_strlit("bearer ");
    assert(w.take("Bearer "@.len() as int) != "Bearer "@) by {
        assert(w[0] != "Bearer "@[0]);
    }
    assert(w.take("bearer "@.len() as int) =~= "bearer "@);
    assert(w.skip("bearer "@.len() as int) =~= token);
}

proof fn lemma_wait_unmet(goal: WaitGoal, answers: Seq<bool>)
    requires
        answers.len() <= WAIT_PROBES,
        forall|j: int| 0 <= j < answers.len() ==> !meets(goal, #[trigger] answers[j]),
    ensures
        answers.len() < WAIT_PROBES ==> state_after(goal, answers) == WaitState::Probing(
            (WAIT_PROBES - answers.len()) as nat,
        ),
        answers.len() == WAIT_PROBES ==> state_after(goal, answers) == WaitState::TimedOut,
    decreases answers.len(),
{
    if answers.len() > 0 {
        let t = answers.drop_last();
        assert forall|j: int| 0 <= j < t.len() implies !meets(goal, #[trigger] t[j]) by {
            assert(t[j] == answers[j]);
        }
        lemma_wait_unmet(goal, t);
        assert(!meets(goal, answers[answers.len() - 1]));
    }
}

proof fn lemma_wait_settled(goal: WaitGoal, answers: Seq<bool>, k: int)
    requires
        0 <= k <= answers.len(),
        !(state_after(goal, answers.take(k)) is Probing),
    ensures
        state_after(goal, answers) == state_after(goal, answers.take(k)),
    decreases answers.len() - k,
{
    if k < answers.len() {
        assert(answers.take(k + 1).drop_last() == answers.take(k));
        lemma_wait_settled(goal, answers, k + 1);
    } else {
        assert(answers.take(k) == answers);
    }
}

/// A wait for the daemon, given the answers to its health checks in order:
/// it keeps checking while no answer meets its goal, is reached at the first
/// answer that does when that is among the first `WAIT_PROBES`, and times
/// out after `WAIT_PROBES` checks otherwise; later answers change nothing.
pub proof fn law_wait_outcome(goal: WaitGoal, answers: Seq<bool>, k: int)
    requires
        0 <= k <= answers.len(),
        forall|j: int| 0 <= j < k ==> !meets(goal, #[trigger] answers[j]),
        k == answers.len() || meets(goal, answers[k]),
    ensures
        k < WAIT_PROBES ==> state_after(goal, answers.take(k)) == WaitState::Probing((WAIT_PROBES - k) as nat),
        k < WAIT_PROBES && k < answers.len() ==> state_after(goal, answers) == WaitState::Reached,
        k >= WAIT_PROBES ==> state_after(goal, answers) == WaitState::TimedOut,
{
    if k < WAIT_PROBES {
        let t = answers.take(k);
        assert forall|j: int| 0 <= j < t.len() implies !meets(goal, #[trigger] t[j]) by {
            assert(t[j] == answers[j]);
        }
        lemma_wait_unmet(goal, t);
        if k < answers.len() {
            assert(answers.take(k + 1).drop_last() == t);
            assert(answers.take(k + 1).last() == answers[k]);
            lemma_wait_settled(goal, answers, k + 1);
        }
    } else {
        let t = answers.take(WAIT_PROBES as int);
        assert forall|j: int| 0 <= j < t.len() implies !meets(goal, #[trigger] t[j]) by {
            assert(t[j] == answers[j]);
        }
        lemma_wait_unmet(goal, t);
        lemma_wait_settled(goal, answers, WAIT_PROBES as int);
    }
}

} // verus!
