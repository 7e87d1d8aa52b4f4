use kondi::catalog::{json_type_to_ts, is_valid_js_ident, Catalog, CatalogEntry, ToolInfo};
use kondi::json::Json;

fn s(t: &str) -> String {
    t.to_string()
}

fn obj(members: Vec<(&str, Json)>) -> Json {
    Json::Object(members.into_iter().map(|(k, v)| (k.to_string(), v)).collect())
}

fn text(t: &str) -> Json {
    Json::Str(t.to_string())
}

fn make_entry(server: &str, name: &str, desc: &str, schema: Json) -> CatalogEntry {
    CatalogEntry { server: s(server), name: s(name), description: s(desc), input_schema: schema }
}

#[test]
fn test_catalog_from_tools_entry_fields() {
    let catalog = Catalog::from_entries(vec![
        make_entry("github", "create_issue", "Create a new issue", obj(vec![])),
        make_entry("slack", "send_message", "Send a message", obj(vec![])),
    ]);
    assert_eq!(catalog.entries().len(), 2);
    assert_eq!(catalog.entries()[0].server, "github");
    assert_eq!(catalog.entries()[0].name, "create_issue");
}

#[test]
fn test_type_declarations_basic() {
    // Members in the order of a serde_json map: sorted by name.
    let schema = obj(vec![
        ("properties", obj(vec![("url", obj(vec![("type", text("string"))]))])),
        ("required", Json::Array(vec![text("url")])),
        ("type", text("object")),
    ]);
    let catalog = Catalog::from_entries(vec![make_entry("my-server", "navigate", "Navigate to URL", schema)]);
    let decls = catalog.type_declarations();
    assert!(decls.contains("declare const my_server:"), "decls: {decls}");
    assert!(decls.contains("navigate(params:"), "decls: {decls}");
    assert!(decls.contains("url: string"), "decls: {decls}");
}

#[test]
fn type_declarations_exact_text() {
    let schema = obj(vec![(
        "properties",
        obj(vec![
            ("count", obj(vec![("type", text("integer"))])),
            ("mode", obj(vec![("enum", Json::Array(vec![text("a"), Json::Number(s("2")), Json::Null]))])),
        ]),
    ), ("required", Json::Array(vec![text("count")]))]);
    let catalog = Catalog::from_entries(vec![
        make_entry("zeta", "run", "Runs\nit */ now", schema),
        make_entry("alpha", "bad-name", "", obj(vec![])),
        make_entry("9lives", "x", "", obj(vec![])),
    ]);
    let expected = "declare const tools: Array<{ server: string; name: string; description: string; input_schema: any }>;\n\n\
declare const alpha: {\n  \"bad-name\"(params: {  }): Promise<any>;\n};\n\n\
declare const zeta: {\n  /** Runs it * / now */\n  run(params: { count: number; mode?: \"a\" | 2 | null }): Promise<any>;\n};\n\n";
    assert_eq!(catalog.type_declarations(), expected);
}

#[test]
fn json_types_to_typescript() {
    assert_eq!(json_type_to_ts(&obj(vec![("type", text("array"))])).iter().collect::<String>(), "any[]");
    assert_eq!(
        json_type_to_ts(&obj(vec![("items", obj(vec![("type", text("boolean"))])), ("type", text("array"))]))
            .iter()
            .collect::<String>(),
        "boolean[]"
    );
    assert_eq!(json_type_to_ts(&obj(vec![("type", text("object"))])).iter().collect::<String>(), "Record<string, any>");
    assert_eq!(
        json_type_to_ts(&obj(vec![("properties", obj(vec![])), ("type", text("object"))])).iter().collect::<String>(),
        "Record<string, any>"
    );
    assert_eq!(
        json_type_to_ts(&obj(vec![
            ("properties", obj(vec![("a b", obj(vec![("type", text("null"))]))])),
            ("type", text("object")),
        ]))
        .iter()
        .collect::<String>(),
        "{ \"a b\"?: null }"
    );
    assert_eq!(json_type_to_ts(&text("string")).iter().collect::<String>(), "any");
    assert_eq!(json_type_to_ts(&obj(vec![("type", text("weird"))])).iter().collect::<String>(), "any");
    assert_eq!(json_type_to_ts(&obj(vec![("type", text("number"))])).iter().collect::<String>(), "number");
}

#[test]
fn js_identifiers() {
    let ident = |t: &str| is_valid_js_ident(&t.chars().collect());
    assert!(ident("my_server"));
    assert!(ident("$x1"));
    assert!(!ident(""));
    assert!(!ident("1abc"));
    assert!(!ident("my-server"));
}

#[test]
fn add_server_tools_appends_entries() {
    let mut catalog = Catalog::new();
    catalog.add_server_tools(
        "github",
        vec![
            ToolInfo { name: s("create_issue"), description: Some(s("Create")), input_schema: obj(vec![]) },
            ToolInfo { name: s("close"), description: None, input_schema: obj(vec![]) },
        ],
    );
    catalog.add_server_tools("slack", vec![ToolInfo { name: s("send"), description: None, input_schema: obj(vec![]) }]);
    let e = catalog.entries();
    assert_eq!(e.len(), 3);
    assert_eq!((e[1].server.as_str(), e[1].name.as_str(), e[1].description.as_str()), ("github", "close", ""));
    assert_eq!(e[2].server, "slack");
    assert_eq!(catalog.summary(), "3 total tools (github: 2 tools, slack: 1 tools)");
}

#[test]
fn summary_of_empty_catalog() {
    assert_eq!(Catalog::new().summary(), "0 total tools ()");
}

#[test]
fn catalog_as_json() {
    let catalog = Catalog::from_entries(vec![make_entry("s", "n", "d", obj(vec![]))]);
    let j = catalog.to_json_value();
    assert_eq!(kondi::json::compact_string(&j), "[{\"description\":\"d\",\"input_schema\":{},\"name\":\"n\",\"server\":\"s\"}]");
}

#[test]
fn doc_lines_cannot_end_the_comment() {
    let catalog = Catalog::from_entries(vec![make_entry("s", "t", "x**/y\r\n*/", obj(vec![]))]);
    let decls = catalog.type_declarations();
    assert!(decls.contains("  /** x** /y\r * / */\n"), "decls: {decls}");
}
