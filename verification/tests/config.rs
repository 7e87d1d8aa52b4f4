use kondi::config::{config_dir, default_config_path, pid_path, runtime_dir, Config, NameMap, ServerConfig};

#[test]
fn test_admin_config_default_port() {
    let config = Config::default();
    assert_eq!(config.admin.port, 7337);
}

#[test]
fn config_add_and_remove_servers() {
    let mut config = Config::default();
    config.add_server(
        "test".to_string(),
        ServerConfig::Http { url: "https://example.com".to_string(), auth: Some("token123".to_string()), headers: NameMap::new() },
    );
    assert!(config.servers.contains_key("test"));
    match config.servers.get("test") {
        Some(ServerConfig::Http { url, auth, .. }) => {
            assert_eq!(url, "https://example.com");
            assert_eq!(auth.as_deref(), Some("token123"));
        }
        _ => panic!("expected an http server"),
    }
    assert!(config.remove_server("test"));
    assert!(!config.servers.contains_key("test"));
    assert!(!config.remove_server("test"));
}

#[test]
fn name_map_replaces_in_place() {
    let mut m: NameMap<String> = NameMap::new();
    assert_eq!(m.insert("a".to_string(), "1".to_string()), None);
    assert_eq!(m.insert("b".to_string(), "2".to_string()), None);
    assert_eq!(m.insert("a".to_string(), "3".to_string()), Some("1".to_string()));
    let keys: Vec<&str> = m.entries().iter().map(|(k, _)| k.as_str()).collect();
    assert_eq!(keys, vec!["a", "b"]);
    assert_eq!(m.get("a").map(|v| v.as_str()), Some("3"));
    assert_eq!(m.remove("b"), Some("2".to_string()));
    assert_eq!(m.remove("b"), None);
    assert_eq!(m.entries().len(), 1);
}

#[test]
fn config_directory_rules() {
    assert_eq!(config_dir(Some("/xdg".to_string()), Some("/home/u".to_string())).as_deref(), Some("/xdg"));
    assert_eq!(config_dir(None, Some("/home/u".to_string())).as_deref(), Some("/home/u/.config"));
    assert_eq!(config_dir(None, Some("/home/u/".to_string())).as_deref(), Some("/home/u/.config"));
    assert_eq!(config_dir(None, None), None);
}

#[test]
fn config_file_paths() {
    let dir = Some("/home/u/.config".to_string());
    assert_eq!(default_config_path(&dir).ok().as_deref(), Some("/home/u/.config/kondi/config.toml"));
    assert_eq!(pid_path(&dir).ok().as_deref(), Some("/home/u/.config/kondi/kondid.pid"));
    assert_eq!(runtime_dir(&dir).ok().as_deref(), Some("/home/u/.config/kondi"));
    match default_config_path(&None) {
        Err(e) => assert_eq!(e.message(), "could not determine config directory"),
        Ok(_) => panic!("expected an error"),
    }
    assert!(pid_path(&None).is_err());
}
