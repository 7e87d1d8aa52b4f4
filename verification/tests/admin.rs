use kondi::admin::{
    authorize, list_response, status_response, unauthorized, AdminAction, AdminEvent, AdminImportSource, AdminRequest,
    AdminResponse, AdminTask,
};
use kondi::catalog::CatalogEntry;
use kondi::config::{Config, NameMap, ServerConfig};
use kondi::import::{ImportSource, ImportedServer};
use kondi::json::{compact_string, Json};

fn entry(server: &str, name: &str) -> CatalogEntry {
    CatalogEntry { server: server.into(), name: name.into(), description: String::new(), input_schema: Json::Object(vec![]) }
}

fn http(url: &str) -> ServerConfig {
    ServerConfig::Http { url: url.into(), auth: None, headers: NameMap::new() }
}

fn respond(action: AdminAction) -> AdminResponse {
    match action {
        AdminAction::Respond(r) => r,
        _ => panic!("expected an answer"),
    }
}

#[test]
fn admin_responses() {
    let r = AdminResponse::ok("fine".into());
    assert!(r.ok && r.message == "fine" && r.data.is_none());
    let r = AdminResponse::err("bad".into());
    assert!(!r.ok && r.message == "bad");
    let r = AdminResponse::ok_with_data("d".into(), Json::Null);
    assert!(r.ok && matches!(r.data, Some(Json::Null)));
    assert_eq!(unauthorized().message, "unauthorized");
}

#[test]
fn bearer_token_check() {
    let token = Some("secret".to_string());
    assert!(authorize(&None, None));
    assert!(authorize(&None, Some("anything")));
    assert!(authorize(&token, Some("Bearer secret")));
    assert!(authorize(&token, Some("Bearer  secret  ")));
    assert!(!authorize(&token, Some("bearer secret")));
    assert!(!authorize(&token, Some("Bearer other")));
    assert!(!authorize(&token, None));
}

#[test]
fn status_and_list() {
    let entries = vec![entry("b", "x"), entry("a", "y"), entry("b", "z")];
    let s = status_response(42, 125, "0.1.0", &entries);
    assert!(s.ok);
    assert_eq!(s.message, "daemon running");
    assert_eq!(compact_string(&s.data.unwrap()), "{\"pid\":42,\"server_count\":2,\"uptime_secs\":125,\"version\":\"0.1.0\"}");
    let l = list_response(&entries);
    assert_eq!(l.message, "2 server(s) registered");
    assert_eq!(compact_string(&l.data.unwrap()), "[{\"name\":\"b\"},{\"name\":\"a\"}]");
}

#[test]
fn add_request_flow() {
    let (task, action) = AdminTask::begin(AdminRequest::AddMcp { name: "web".into(), config: http("https://w") });
    assert!(matches!(action, AdminAction::LoadConfig));
    let (task, action) = task.step(AdminEvent::ConfigLoaded(Config::default()));
    match action {
        AdminAction::SaveAndReconnect(cfg) => assert!(cfg.servers.contains_key("web")),
        _ => panic!("expected the configuration to save"),
    }
    let (task, action) = task.step(AdminEvent::Applied);
    assert_eq!(respond(action).message, "added server 'web'");
    assert!(matches!(task, AdminTask::Done));
}

#[test]
fn failures_are_answered_with_their_request() {
    let (task, _) = AdminTask::begin(AdminRequest::AddMcp { name: "web".into(), config: http("https://w") });
    let (_, action) = task.step(AdminEvent::Failed("disk full".into()));
    let r = respond(action);
    assert!(!r.ok);
    assert_eq!(r.message, "failed to add server: disk full");
    let (task, _) = AdminTask::begin(AdminRequest::RemoveMcp { name: "x".into() });
    assert_eq!(respond(task.step(AdminEvent::Failed("e".into())).1).message, "failed to remove server: e");
    let (task, _) = AdminTask::begin(AdminRequest::ImportConfig { source: AdminImportSource::Agent });
    assert_eq!(respond(task.step(AdminEvent::Failed("HOME not set".into())).1).message, "import failed: HOME not set");
}

#[test]
fn remove_request_flow() {
    let mut cfg = Config::default();
    cfg.add_server("web".into(), http("https://w"));
    let (task, _) = AdminTask::begin(AdminRequest::RemoveMcp { name: "web".into() });
    let (task, action) = task.step(AdminEvent::ConfigLoaded(cfg));
    match action {
        AdminAction::SaveAndReconnect(c) => assert!(!c.servers.contains_key("web")),
        _ => panic!("expected the configuration to save"),
    }
    assert_eq!(respond(task.step(AdminEvent::Applied).1).message, "removed server 'web'");
}

#[test]
fn import_request_flow() {
    let (task, action) = AdminTask::begin(AdminRequest::ImportConfig { source: AdminImportSource::Agent });
    assert!(matches!(action, AdminAction::ImportAgent));
    let servers = vec![
        ImportedServer { name: "a".into(), config: http("https://a"), source: ImportSource::AgentConfig },
        ImportedServer { name: "b".into(), config: http("https://b"), source: ImportSource::AgentConfig },
    ];
    let (task, action) = task.step(AdminEvent::Imported(servers));
    assert!(matches!(action, AdminAction::LoadConfig));
    assert!(task.accepts(&AdminEvent::ConfigLoaded(Config::default())));
    assert!(!task.accepts(&AdminEvent::Applied));
    let (task, action) = task.step(AdminEvent::ConfigLoaded(Config::default()));
    match action {
        AdminAction::SaveAndReconnect(c) => {
            assert!(c.servers.contains_key("a") && c.servers.contains_key("b"));
        }
        _ => panic!("expected the configuration to save"),
    }
    assert_eq!(respond(task.step(AdminEvent::Applied).1).message, "imported 2 server(s) from agent config");
}

#[test]
fn immediate_requests() {
    assert!(matches!(AdminTask::begin(AdminRequest::Status).1, AdminAction::ReportStatus));
    assert!(matches!(AdminTask::begin(AdminRequest::ListMcp).1, AdminAction::ListServers));
    match AdminTask::begin(AdminRequest::Shutdown).1 {
        AdminAction::Shutdown(r) => assert_eq!(r.message, "daemon shutting down"),
        _ => panic!("expected shutdown"),
    }
}
