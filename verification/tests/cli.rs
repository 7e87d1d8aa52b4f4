use kondi::cli::{add_configured, remove_configured, status_lines, DaemonWait, WaitGoal, WaitStep};
use kondi::json::Json;
use kondi::admin::{AdminAction, AdminEvent, AdminRequest, AdminTask};
use kondi::cli::{
    install_launch_agent, install_service, parse_envs_vec, parse_headers_vec, parse_server_config,
    uninstall_service, xml_escape, CliError, ServiceError,
};
use kondi::config::{Config, ServerConfig};

fn strings(v: &[&str]) -> Vec<String> {
    v.iter().map(|s| s.to_string()).collect()
}

/// What `kondi add` does to a configuration.
fn add(cfg: &mut Config, transport: Option<&str>, auth: Option<&str>, headers: &[&str], name: &str, args: &[&str]) -> Result<(), String> {
    let c = parse_server_config(
        transport.map(|t| t.to_string()),
        auth.map(|t| t.to_string()),
        strings(headers),
        Vec::new(),
        &strings(args),
    )
    .map_err(|e| e.message())?;
    cfg.add_server(name.to_string(), c);
    Ok(())
}

#[test]
fn add_http_server_auto_detected() {
    let mut cfg = Config::default();
    add(&mut cfg, None, None, &[], "myserver", &["https://api.example.com/mcp"]).unwrap();
    match cfg.servers.get("myserver") {
        Some(ServerConfig::Http { url, .. }) => assert_eq!(url, "https://api.example.com/mcp"),
        _ => panic!("expected an http server"),
    }
}

#[test]
fn add_stdio_server() {
    let mut cfg = Config::default();
    add(&mut cfg, Some("stdio"), None, &[], "ghserver", &["--", "npx", "-y", "@modelcontextprotocol/server-github"]).unwrap();
    match cfg.servers.get("ghserver") {
        Some(ServerConfig::Stdio { command, args, .. }) => {
            assert_eq!(command, "npx");
            assert_eq!(args, &strings(&["-y", "@modelcontextprotocol/server-github"]));
        }
        _ => panic!("expected a stdio server"),
    }
}

#[test]
fn add_server_with_auth() {
    let mut cfg = Config::default();
    add(&mut cfg, None, Some("Bearer token123"), &[], "authserver", &["https://api.example.com/mcp"]).unwrap();
    match cfg.servers.get("authserver") {
        Some(ServerConfig::Http { auth, .. }) => assert!(auth.as_deref().unwrap().contains("token123")),
        _ => panic!("expected an http server"),
    }
}

#[test]
fn add_server_with_custom_header() {
    let mut cfg = Config::default();
    add(&mut cfg, None, None, &["X-Api-Key: abc"], "hdrserver", &["https://api.example.com/mcp"]).unwrap();
    match cfg.servers.get("hdrserver") {
        Some(ServerConfig::Http { headers, .. }) => assert_eq!(headers.get("X-Api-Key").map(|v| v.as_str()), Some("abc")),
        _ => panic!("expected an http server"),
    }
}

#[test]
fn add_multiple_servers() {
    let mut cfg = Config::default();
    add(&mut cfg, None, None, &[], "server1", &["https://one.example.com/mcp"]).unwrap();
    add(&mut cfg, None, None, &[], "server2", &["https://two.example.com/mcp"]).unwrap();
    assert!(cfg.servers.contains_key("server1"));
    assert!(cfg.servers.contains_key("server2"));
}

#[test]
fn remove_existing_server() {
    let mut cfg = Config::default();
    add(&mut cfg, None, None, &[], "toremove", &["https://api.example.com/mcp"]).unwrap();
    assert!(cfg.remove_server("toremove"));
}

#[test]
fn remove_nonexistent_server() {
    let (task, action) = AdminTask::begin(AdminRequest::RemoveMcp { name: "ghost".to_string() });
    assert!(matches!(action, AdminAction::LoadConfig));
    match task.step(AdminEvent::ConfigLoaded(Config::default())) {
        (_, AdminAction::Respond(resp)) => {
            assert!(!resp.ok);
            assert!(resp.message.contains("server 'ghost' not found"));
        }
        _ => panic!("expected an answer"),
    }
}

#[test]
fn add_unknown_transport_fails() {
    let mut cfg = Config::default();
    let err = add(&mut cfg, Some("grpc"), None, &[], "badserver", &["https://api.example.com/mcp"]).unwrap_err();
    assert!(err.contains("unknown transport"));
    assert_eq!(err, "unknown transport 'grpc'. Use: http, sse, or stdio");
}

#[test]
fn transport_defaults() {
    let no_args = parse_server_config(None, None, vec![], vec![], &[]);
    assert!(matches!(no_args, Err(CliError::MissingUrl)));
    let cmd = parse_server_config(None, None, vec![], strings(&["A=1", "B=x=y", "junk"]), &strings(&["--", "--", "/bin/srv", "--flag"]));
    match cmd {
        Ok(ServerConfig::Stdio { command, args, env }) => {
            assert_eq!(command, "/bin/srv");
            assert_eq!(args, strings(&["--flag"]));
            assert_eq!(env.get("B").map(|v| v.as_str()), Some("x=y"));
            assert_eq!(env.entries().len(), 2);
        }
        _ => panic!("expected a stdio server"),
    }
    assert!(matches!(parse_server_config(Some("stdio".into()), None, vec![], vec![], &strings(&["--"])), Err(CliError::MissingCommand)));
    assert!(matches!(parse_server_config(Some("sse".into()), None, vec![], vec![], &strings(&["http://h/sse"])), Ok(ServerConfig::Sse { .. })));
}

#[test]
fn header_and_env_arguments() {
    let h = parse_headers_vec(&strings(&["  Key :  v a l  ", "nocolon", "K2:x:y"]));
    assert_eq!(h.get("Key").map(|v| v.as_str()), Some("v a l"));
    assert_eq!(h.get("K2").map(|v| v.as_str()), Some("x:y"));
    assert_eq!(h.entries().len(), 2);
    let e = parse_envs_vec(&strings(&[" A = b"]));
    assert_eq!(e.get(" A ").map(|v| v.as_str()), Some(" b"));
}

#[test]
fn xml_escaping() {
    assert_eq!(xml_escape("a<b>&\"c\""), "a&lt;b&gt;&amp;&quot;c&quot;");
    assert_eq!(xml_escape("&lt;"), "&amp;lt;");
}

#[test]
fn systemd_service_plan() {
    match install_service("/bin/kondid\nx", Some("/h".into())) {
        Err(e) => {
            assert!(matches!(e, ServiceError::PathHasNewline));
            assert_eq!(e.message(), "kondid path contains a newline — installation aborted");
        }
        Ok(_) => panic!("expected an error"),
    }
    assert!(matches!(install_service("/bin/kondid", None), Err(ServiceError::NoHome)));
    let p = install_service("/usr/bin/kondid", Some("/home/u".into())).ok().unwrap();
    assert_eq!(p.dir, "/home/u/.config/systemd/user");
    assert_eq!(p.path, "/home/u/.config/systemd/user/kondid.service");
    assert_eq!(
        p.contents,
        "[Unit]\nDescription=Kondi MCP daemon\nAfter=network.target\n\n[Service]\nExecStart=/usr/bin/kondid\nRestart=on-failure\nRestartSec=5\n\n[Install]\nWantedBy=default.target\n"
    );
    assert_eq!(p.program, "systemctl");
    assert_eq!(p.args, strings(&["--user", "enable", "--now", "kondid"]));
    let r = uninstall_service(Some("/home/u".into())).ok().unwrap();
    assert_eq!(r.args, strings(&["--user", "disable", "--now", "kondid"]));
    assert_eq!(r.absent_message, "kondid is not installed as a systemd service");
}

#[test]
fn launch_agent_plan() {
    let p = install_launch_agent("/Apps/K&D/kondid", Some("/Users/u".into())).ok().unwrap();
    assert_eq!(p.path, "/Users/u/Library/LaunchAgents/app.kondi.daemon.plist");
    assert!(p.contents.contains("<array><string>/Apps/K&amp;D/kondid</string></array>"));
    assert!(p.contents.starts_with("<?xml version=\"1.0\" encoding=\"UTF-8\"?>\n"));
    assert_eq!(p.args, strings(&["load", "-w", "/Users/u/Library/LaunchAgents/app.kondi.daemon.plist"]));
}

#[test]
fn admin_url_of_port() {
    assert_eq!(kondi::cli::admin_url(7337), "http://127.0.0.1:7337");
    assert_eq!(kondi::cli::admin_url(0), "http://127.0.0.1:0");
    assert_eq!(kondi::cli::admin_url(65535), "http://127.0.0.1:65535");
}

#[test]
fn auth_value_is_stored_as_bearer_token() {
    let mut cfg = Config::default();
    add(&mut cfg, None, Some("Bearer token123"), &[], "a", &["https://api.example.com/mcp"]).unwrap();
    add(&mut cfg, Some("sse"), Some("bearer xyz"), &[], "b", &["https://api.example.com/sse"]).unwrap();
    add(&mut cfg, None, Some("Basic abc"), &[], "c", &["https://api.example.com/mcp"]).unwrap();
    match cfg.servers.get("a") {
        Some(ServerConfig::Http { auth, .. }) => assert_eq!(auth.as_deref(), Some("token123")),
        _ => panic!("expected an http server"),
    }
    match cfg.servers.get("b") {
        Some(ServerConfig::Sse { auth, .. }) => assert_eq!(auth.as_deref(), Some("xyz")),
        _ => panic!("expected an sse server"),
    }
    match cfg.servers.get("c") {
        Some(ServerConfig::Http { auth, .. }) => assert_eq!(auth.as_deref(), Some("Basic abc")),
        _ => panic!("expected an http server"),
    }
}

#[test]
fn direct_commands_change_and_report() {
    let mut cfg = Config::default();
    let c = match parse_server_config(None, None, vec![], vec![], &strings(&["https://x.example/mcp"])) {
        Ok(c) => c,
        Err(e) => panic!("{}", e.message()),
    };
    assert_eq!(add_configured(&mut cfg, "x".to_string(), c), "added server 'x'");
    assert_eq!(remove_configured(&mut cfg, "x"), (true, "removed server 'x'".to_string()));
    assert_eq!(remove_configured(&mut cfg, "x"), (false, "server 'x' not found".to_string()));
}

#[test]
fn waiting_for_the_daemon() {
    let (mut w, mut step) = DaemonWait::begin(WaitGoal::Up);
    let mut probes = 0;
    loop {
        match step {
            WaitStep::Probe { sleep_ms, timeout_ms } => {
                assert_eq!((sleep_ms, timeout_ms), (100, 2000));
                probes += 1;
                let (nw, ns) = w.step(false);
                w = nw;
                step = ns;
            }
            WaitStep::Reached => panic!("never answered"),
            WaitStep::TimedOut(m) => {
                assert_eq!(m, "kondid did not start in time — run `kondid` manually");
                break;
            }
        }
    }
    assert_eq!(probes, 30);
    let (w, step) = DaemonWait::begin(WaitGoal::Down);
    assert!(matches!(step, WaitStep::Probe { sleep_ms: 200, timeout_ms: 300 }));
    assert!(matches!(w.step(false).1, WaitStep::Reached));
}

#[test]
fn status_report_lines() {
    let data = Json::Object(vec![
        ("pid".to_string(), Json::Number("4242".to_string())),
        ("server_count".to_string(), Json::Number("3".to_string())),
        ("uptime_secs".to_string(), Json::Number("125".to_string())),
        ("version".to_string(), Json::Str("0.1.0".to_string())),
    ]);
    assert_eq!(
        status_lines(&data),
        vec!["  PID:      4242", "  Uptime:   2m 5s", "  Version:  0.1.0", "  Servers:  3 connected"]
    );
    let odd = Json::Object(vec![
        ("pid".to_string(), Json::Number("-1".to_string())),
        ("uptime_secs".to_string(), Json::Number("18446744073709551616".to_string())),
        ("server_count".to_string(), Json::Number("18446744073709551615".to_string())),
    ]);
    assert_eq!(status_lines(&odd), vec!["  Servers:  18446744073709551615 connected"]);
}
