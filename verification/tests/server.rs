use kondi::server::{effective_max_length, effective_top_k, tool_error_text, tool_result_text, CodeTool, DEFAULT_TOP_K};
use kondi::server::{truncate_response, DEFAULT_MAX_LENGTH};

#[test]
fn short_responses_are_kept() {
    assert_eq!(truncate_response("hello".into(), 5), "hello");
    assert_eq!(truncate_response("hello".into(), 0), "hello");
    assert_eq!(DEFAULT_MAX_LENGTH, 40000);
}

#[test]
fn long_responses_are_cut_at_a_line_break() {
    let r = truncate_response("line1\nline2\nline3".into(), 9);
    assert_eq!(
        r,
        "line1\n\n[truncated — 12 chars omitted. Use your code to extract only the data you need, or increase max_length.]"
    );
    let r = truncate_response("abcdefgh".into(), 3);
    assert!(r.starts_with("abc\n\n[truncated — 5 chars omitted."));
    // Lengths count characters, not bytes.
    let r = truncate_response("éé\nxyz".into(), 4);
    assert!(r.starts_with("éé\n\n[truncated — 4 chars omitted."));
}

#[test]
fn limits_count_characters() {
    assert_eq!(truncate_response("éé".into(), 2), "éé");
    let r = truncate_response("ééé".into(), 2);
    assert_eq!(
        r,
        "éé\n\n[truncated — 1 chars omitted. Use your code to extract only the data you need, or increase max_length.]"
    );
}

#[test]
fn meta_tool_defaults_and_errors() {
    assert_eq!(DEFAULT_TOP_K, 20);
    assert_eq!(effective_top_k(None), 20);
    assert_eq!(effective_top_k(Some(3)), 3);
    assert_eq!(effective_max_length(None), 40000);
    assert_eq!(effective_max_length(Some(7)), 7);
    assert_eq!(tool_error_text(CodeTool::Execute, "boom"), "execute error: boom");
    assert_eq!(tool_error_text(CodeTool::SearchCode, "bad"), "search_code error: bad");
    assert_eq!(tool_result_text("short".into(), None), "short");
    assert!(tool_result_text("abc\ndef".into(), Some(5)).starts_with("abc\n\n[truncated — 4 chars omitted."));
}
