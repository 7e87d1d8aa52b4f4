use kondi::config::{NameMap, ServerConfig};
use kondi::import::{
    extract_auth_header, import_agent_config, parse_agent_file, parse_agent_json, parse_agent_server,
    AgentConfigError, AgentFileError,
    parse_json_string_map, ImportError, ImportSource,
};
use kondi::json::Json;

fn obj(members: Vec<(&str, Json)>) -> Json {
    Json::Object(members.into_iter().map(|(k, v)| (k.to_string(), v)).collect())
}

fn text(t: &str) -> Json {
    Json::Str(t.to_string())
}

fn headers(pairs: &[(&str, &str)]) -> NameMap<String> {
    let mut m = NameMap::new();
    for (k, v) in pairs {
        m.insert(k.to_string(), v.to_string());
    }
    m
}

#[test]
fn auth_header_bearer_becomes_token() {
    let (auth, rest) = extract_auth_header(headers(&[("Authorization", "Bearer abc"), ("X", "1")]));
    assert_eq!(auth.as_deref(), Some("abc"));
    assert!(!rest.contains_key("Authorization"));
    assert_eq!(rest.get("X").map(|v| v.as_str()), Some("1"));
    let (auth, rest) = extract_auth_header(headers(&[("authorization", "bearer low")]));
    assert_eq!(auth.as_deref(), Some("low"));
    assert_eq!(rest.entries().len(), 0);
}

#[test]
fn auth_header_other_scheme_is_kept() {
    let (auth, rest) = extract_auth_header(headers(&[("authorization", "Basic xyz")]));
    assert_eq!(auth, None);
    assert_eq!(rest.get("Authorization").map(|v| v.as_str()), Some("Basic xyz"));
    assert!(!rest.contains_key("authorization"));
    // With both spellings, only `Authorization` is taken.
    let (auth, rest) = extract_auth_header(headers(&[("Authorization", "Bearer a"), ("authorization", "Bearer b")]));
    assert_eq!(auth.as_deref(), Some("a"));
    assert_eq!(rest.get("authorization").map(|v| v.as_str()), Some("Bearer b"));
}

#[test]
fn agent_servers_of_each_transport() {
    let stdio = obj(vec![
        ("args", Json::Array(vec![text("-y"), Json::Number("3".into()), text("pkg")])),
        ("command", text("npx")),
        ("env", obj(vec![("TOKEN", text("t")), ("N", Json::Number("1".into()))])),
    ]);
    let s = parse_agent_server("gh", &stdio).ok().unwrap().unwrap();
    assert_eq!(s.name, "gh");
    assert!(s.source == ImportSource::AgentConfig);
    assert_eq!(s.source.label(), "agent");
    match s.config {
        ServerConfig::Stdio { command, args, env } => {
            assert_eq!(command, "npx");
            assert_eq!(args, vec!["-y".to_string(), "pkg".to_string()]);
            assert_eq!(env.get("TOKEN").map(|v| v.as_str()), Some("t"));
            assert!(!env.contains_key("N"));
        }
        _ => panic!("expected stdio"),
    }
    let http = obj(vec![
        ("headers", obj(vec![("Authorization", text("Bearer k")), ("X-A", text("b"))])),
        ("type", text("http")),
        ("url", text("https://h/mcp")),
    ]);
    match parse_agent_server("h", &http).ok().unwrap().unwrap().config {
        ServerConfig::Http { url, auth, headers } => {
            assert_eq!(url, "https://h/mcp");
            assert_eq!(auth.as_deref(), Some("k"));
            assert_eq!(headers.entries().len(), 1);
        }
        _ => panic!("expected http"),
    }
    let sse = obj(vec![("type", text("sse")), ("url", text("https://h/sse"))]);
    assert!(matches!(parse_agent_server("s", &sse).ok().unwrap().unwrap().config, ServerConfig::Sse { .. }));
    let other = obj(vec![("type", text("internal"))]);
    assert!(matches!(parse_agent_server("o", &other), Ok(None)));
}

#[test]
fn agent_server_errors() {
    assert!(matches!(parse_agent_server("a", &text("x")), Err(ImportError::NotAnObject)));
    assert!(matches!(parse_agent_server("b", &obj(vec![])), Err(ImportError::MissingCommand)));
    assert!(matches!(parse_agent_server("c", &obj(vec![("type", text("http"))])), Err(ImportError::MissingUrl)));
    assert_eq!(ImportError::MissingUrl.message(), "missing url");
    assert_eq!(ImportError::NotAnObject.message(), "server config is not an object");
}

#[test]
fn agent_config_file() {
    let root = obj(vec![(
        "mcpServers",
        obj(vec![
            ("bad", Json::Null),
            ("gh", obj(vec![("command", text("npx"))])),
            ("web", obj(vec![("type", text("http")), ("url", text("https://w"))])),
        ]),
    )]);
    let (servers, skipped) = parse_agent_json(&root);
    let names: Vec<&str> = servers.iter().map(|s| s.name.as_str()).collect();
    assert_eq!(names, vec!["gh", "web"]);
    assert_eq!(skipped.len(), 1);
    assert_eq!(skipped[0].name, "bad");
    assert!(skipped[0].error == ImportError::NotAnObject);
    let (none, _) = parse_agent_json(&obj(vec![("other", Json::Null)]));
    assert!(none.is_empty());
    let user_text = r#"{"mcpServers": {"web": {"type": "http", "url": "https://w", "headers": {"Authorization": "Bearer t"}},
        "gh": {"command": "npx", "args": ["-y", "x"]}, "bad": null, "int": {"type": "internal"}}, "other": 1}"#;
    let project_text = r#"{"mcpServers": {"p": {"command": "run"}}}"#;
    let (all, skipped) = match import_agent_config(Some(user_text), Some(project_text)) {
        Ok(r) => r,
        Err(_) => panic!("both files are JSON"),
    };
    let names: Vec<&str> = all.iter().map(|s| s.name.as_str()).collect();
    assert_eq!(names, vec!["gh", "web", "p"]);
    assert_eq!(skipped.len(), 1);
    assert_eq!(skipped[0].name, "bad");
    match &all[1].config {
        ServerConfig::Http { url, auth, headers } => {
            assert_eq!(url, "https://w");
            assert_eq!(auth.as_deref(), Some("t"));
            assert_eq!(headers.entries().len(), 0);
        }
        _ => panic!("expected http"),
    }
    match &all[0].config {
        ServerConfig::Stdio { command, args, .. } => {
            assert_eq!(command, "npx");
            assert_eq!(args, &vec!["-y".to_string(), "x".to_string()]);
        }
        _ => panic!("expected stdio"),
    }
    let only = match import_agent_config(None, Some(project_text)) {
        Ok((s, _)) => s,
        Err(_) => panic!("the project file is JSON"),
    };
    assert_eq!(only.len(), 1);
    assert!(import_agent_config(None, None).is_ok_and(|(s, k)| s.is_empty() && k.is_empty()));
}

#[test]
fn agent_files_that_are_not_json() {
    assert!(matches!(import_agent_config(Some("{not json"), Some("{}")), Err(AgentConfigError::UserFile(AgentFileError::NotJson))));
    assert!(matches!(import_agent_config(Some("{}"), Some("[1,")), Err(AgentConfigError::ProjectFile(AgentFileError::NotJson))));
    assert!(matches!(import_agent_config(Some(""), Some("[1,")), Err(AgentConfigError::UserFile(AgentFileError::NotJson))));
    assert!(matches!(parse_agent_file("nope"), Err(AgentFileError::NotJson)));
    assert_eq!(AgentFileError::NotJson.message(), "failed to parse");
    match parse_agent_file(r#"{"mcpServers": {"a": {"command": "c"}, "b": 3}}"#) {
        Ok((s, k)) => {
            assert_eq!(s.len(), 1);
            assert_eq!(k.len(), 1);
            assert!(k[0].error == ImportError::NotAnObject);
        }
        Err(_) => panic!("the text is JSON"),
    }
}

#[test]
fn string_map_of_object() {
    let m = parse_json_string_map(Some(&obj(vec![("a", text("1")), ("b", Json::Bool(true)), ("a", text("2"))])));
    assert_eq!(m.get("a").map(|v| v.as_str()), Some("2"));
    assert_eq!(m.entries().len(), 1);
    assert_eq!(parse_json_string_map(Some(&text("x"))).entries().len(), 0);
    assert_eq!(parse_json_string_map(None).entries().len(), 0);
}
