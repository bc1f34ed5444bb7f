use lokb::ingest::{dir_extensions, file_extension, ingest_document, raw_file_info};
use lokb::mcp::{call_target, route_method, route_tool, rpc_error_code, McpMethod, ToolName};
use lokb::sources::{add_source, extract_snippet};
use lokb::types::{ContentType, PrivacyLevel};

#[test]
fn directory_formats() {
    let (exts, html) = dir_extensions("html-dir").unwrap();
    assert_eq!(exts, vec!["html".to_string(), "htm".to_string()]);
    assert!(html);
    let (exts, html) = dir_extensions("markdown-dir").unwrap();
    assert_eq!(exts, vec!["md".to_string()]);
    assert!(!html);
    let err = dir_extensions("zim").unwrap_err();
    assert_eq!(err.message(), "incremental update not supported for format: zim");
}

#[test]
fn file_extensions_follow_path_rules() {
    assert_eq!(file_extension("a.md"), Some("md".to_string()));
    assert_eq!(file_extension("a.tar.gz"), Some("gz".to_string()));
    assert_eq!(file_extension("a."), Some("".to_string()));
    assert_eq!(file_extension(".md"), None);
    assert_eq!(file_extension("README"), None);
    assert_eq!(file_extension(".."), None);
}

#[test]
fn raw_files_of_a_directory() {
    let md = vec!["md".to_string()];
    let f = raw_file_info("note.md", "# Note".to_string(), &md, false, None).unwrap();
    assert_eq!((f.external_id.as_str(), f.filename.as_str(), f.content.as_str()), ("note", "note.md", "# Note"));
    assert!(raw_file_info("note.txt", "x".to_string(), &md, false, None).is_none());

    let html = vec!["html".to_string(), "htm".to_string()];
    let f = raw_file_info("page.htm", "<p>Hi</p>".to_string(), &html, true, htmd::convert("<p>Hi</p>").ok()).unwrap();
    assert_eq!(f.external_id, "page");
    assert_eq!(f.filename, "page.md");
    assert!(f.content.contains("Hi"));
    assert!(!f.content.contains("<p>"));
    let g = raw_file_info("page.htm", "<p>Hi</p>".to_string(), &html, true, Some("converted".to_string())).unwrap();
    assert_eq!(g.content, "converted");
    let h = raw_file_info("page.htm", "<p>Hi</p>".to_string(), &html, true, None).unwrap();
    assert_eq!(h.content, "Hi");
}

#[test]
fn ingested_files_are_english_articles() {
    let personal = add_source("diary", "markdown-dir", "personal", false).unwrap();
    let d = ingest_document("day1", "day1.md", "# Monday\ntext", &personal);
    assert_eq!(d.title, "Monday");
    assert_eq!(d.external_id, "day1");
    assert_eq!(d.language.as_deref(), Some("en"));
    assert_eq!(d.content_type, ContentType::Article);
    assert_eq!(d.privacy_level, PrivacyLevel::Private);
    assert_eq!(d.source_id, personal.id);
}

#[test]
fn mcp_routing() {
    assert_eq!(route_method("initialize").unwrap(), McpMethod::Initialize);
    assert_eq!(route_method("notifications/initialized").unwrap(), McpMethod::Initialized);
    assert_eq!(route_method("tools/list").unwrap(), McpMethod::ToolsList);
    assert_eq!(route_method("tools/call").unwrap(), McpMethod::ToolsCall);
    assert_eq!(route_method("ping").unwrap_err(), "unknown method: ping");
    assert_eq!(route_tool("status").unwrap(), ToolName::Status);
    assert_eq!(route_tool("delete").unwrap_err(), "unknown tool: delete");
    assert_eq!(call_target(false, Some("search")).unwrap_err(), "missing params");
    assert_eq!(call_target(true, None).unwrap_err(), "missing tool name");
    assert_eq!(call_target(true, Some("read")).unwrap(), ToolName::Read);
    assert_eq!(rpc_error_code(true), -32700);
    assert_eq!(rpc_error_code(false), -32000);
}

#[test]
fn snippets() {
    assert_eq!(extract_snippet("  short  ", 0, 200), "short");
    let long = "a".repeat(150);
    assert_eq!(extract_snippet(&long, 0, 200), format!("{}...", "a".repeat(100)));
    let text = format!("{}MIDDLE{}", "x".repeat(50), "y".repeat(50));
    assert_eq!(extract_snippet(&text, 53, 10), "...xxMIDDLEyy...");
}
