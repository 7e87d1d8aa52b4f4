use kondi::catalog::{Catalog, CatalogEntry};
use kondi::json::Json;
use kondi::sandbox::{agent_source_text, call_tool_error, execute_script, extract_agent_body, search_code_script};

#[test]
fn agent_code_framing() {
    assert_eq!(agent_source_text("return 1;", "declare const x: any;"), "declare const x: any;\nasync function __agent__() {\nreturn 1;\n}");
    assert_eq!(extract_agent_body("var a;\nasync function __agent__() {\n  return 1 + 2;\n}\n"), "return 1 + 2;");
    assert_eq!(extract_agent_body("no function here"), "no function here");
    assert_eq!(extract_agent_body("async function __agent__() { x"), "x");
    assert_eq!(search_code_script("return tools;"), "(async () => { return tools; })()");
}

#[test]
fn execute_script_declares_servers() {
    let catalog = Catalog::from_entries(vec![CatalogEntry {
        server: "my-srv".into(),
        name: "echo".into(),
        description: "Echo \"it\"".into(),
        input_schema: Json::Object(vec![]),
    }]);
    let script = execute_script(&catalog, "return 3;");
    assert!(script.starts_with("(async () => { const my_srv = new Proxy({}, {"));
    assert!(script.contains("await __call_tool(\"my-srv\", tool, JSON.stringify(args));"));
    assert!(script.contains(
        "const tools = [{\"description\":\"Echo \\\"it\\\"\",\"input_schema\":{},\"name\":\"echo\",\"server\":\"my-srv\"}];\nreturn 3; })()"
    ));
}

#[test]
fn failed_call_as_json() {
    assert_eq!(call_tool_error("no server \"x\""), "{\"error\":\"no server \\\"x\\\"\"}");
}
