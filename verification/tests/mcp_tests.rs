use workflow::mcp::{McpConfigSource, McpServerConfig, McpTransport};

fn server(name: &str, url: &str) -> McpServerConfig {
    McpServerConfig { name: name.to_string(), transport: McpTransport::Sse { url: url.to_string() } }
}

#[test]
fn add_replaces_same_name_in_place() {
    let src = McpConfigSource::new("/tmp/mcp.json".to_string());
    assert_eq!(src.path(), "/tmp/mcp.json");
    let list = src.add_server(vec![server("a", "1"), server("b", "2")], server("a", "3"));
    assert_eq!(list.len(), 2);
    assert_eq!(list[0].name, "a");
    assert!(matches!(&list[0].transport, McpTransport::Sse { url } if url == "3"));
    let list = src.add_server(list, server("c", "4"));
    assert_eq!(list.len(), 3);
    assert_eq!(list[2].name, "c");
}

#[test]
fn remove_reports_whether_anything_went() {
    let src = McpConfigSource::new("x".to_string());
    let (list, removed) = src.remove_server(vec![server("a", "1"), server("b", "2")], "a");
    assert!(removed);
    assert_eq!(list.len(), 1);
    let (list, removed) = src.remove_server(list, "zzz");
    assert!(!removed);
    assert_eq!(list.len(), 1);
}

#[test]
fn array_form_detection() {
    assert!(McpConfigSource::is_array_form("  [ ]"));
    assert!(!McpConfigSource::is_array_form("{\"servers\": []}"));
    assert!(!McpConfigSource::is_array_form(""));
}
