//! MCP servers: transports, tools and what they answer.

use carter::config::settings::McpServerConfig;
use carter::json::parse_json;
use carter::mcp::manager::{sorted_names, start_order};
use carter::mcp::tool::{flatten_content, CallArguments, ContentBlock, McpReply, McpTool, MAX_OUTPUT_BYTES};
use carter::mcp::transport::{build_headers, checked_header, connect, Transport};

fn server(transport: &str) -> McpServerConfig {
    McpServerConfig { transport: transport.into(), command: None, args: vec![], env: vec![], url: None, headers: vec![] }
}

#[test]
fn servers_are_started_in_the_order_of_their_names() {
    let v = vec![("b".to_string(), server("stdio")), ("a".to_string(), server("http"))];
    assert_eq!(start_order(&v), vec!["a", "b"]);
    let names = vec!["c".to_string(), "a".to_string(), "b".to_string()];
    assert_eq!(sorted_names(&names), vec!["a", "b", "c"]);
}

#[test]
fn transports_need_their_parts() {
    assert!(connect(&server("stdio")).is_err());
    assert!(connect(&server("http")).is_err());
    assert!(matches!(connect(&server("smoke")), Err(e) if e.contains("smoke")));
    let mut s = server("stdio");
    s.command = Some("npx".into());
    s.args = vec!["-y".into()];
    assert!(matches!(connect(&s), Ok(Transport::Stdio { command, args, .. }) if command == "npx" && args == vec!["-y"]));
    let mut h = server("http");
    h.url = Some("https://example.com/mcp".into());
    h.headers = vec![("Authorization".into(), "Bearer t".into())];
    assert!(matches!(connect(&h), Ok(Transport::Http { url, headers })
        if url == "https://example.com/mcp" && headers == vec![("authorization".to_string(), "Bearer t".to_string())]));
}

#[test]
fn bad_headers_are_refused() {
    let bad_name = vec![("bad name".to_string(), "v".to_string())];
    assert!(matches!(build_headers(&bad_name), Err(e) if e.contains("bad name")));
    let bad_value = vec![("x-a".to_string(), "line\nfeed".to_string())];
    assert!(build_headers(&bad_value).is_err());
    assert!(checked_header("k", "v", Err("flaw".into()), None).is_err());
    assert!(matches!(checked_header("K", "v", Ok("k".into()), None), Ok((k, v)) if k == "k" && v == "v"));
}

#[test]
fn tools_are_named_after_their_server() {
    let t = McpTool::new("fs", "read".into(), "reads".into(), parse_json("{}").unwrap());
    assert!(t.full_name.contains("fs") && t.full_name.contains("read"));
    assert_eq!(t.remote_name, "read");
    assert_eq!(t.spec().name, t.full_name);
}

#[test]
fn arguments_must_be_an_object() {
    assert!(matches!(McpTool::arguments(&parse_json("null").unwrap()), CallArguments::Absent));
    assert!(matches!(McpTool::arguments(&parse_json(r#"{"a":1}"#).unwrap()), CallArguments::Object(v) if v.len() == 1));
    assert!(matches!(McpTool::arguments(&parse_json("[1]").unwrap()), CallArguments::Refused(r) if !r.ok));
}

#[test]
fn content_is_flattened() {
    let blocks = vec![ContentBlock::Text("a".into()), ContentBlock::Image, ContentBlock::Text("b".into())];
    let t = flatten_content(&blocks);
    assert!(t.contains('a') && t.contains('b') && t.contains("image"));
    assert!(t.find('a').unwrap() < t.rfind('b').unwrap());
    let ok = McpTool::answer(&McpReply::Content { blocks: vec![ContentBlock::Text("fine".into())], is_error: false });
    assert!(ok.ok && ok.content == "fine");
    let bad = McpTool::answer(&McpReply::Content { blocks: vec![ContentBlock::Text("oops".into())], is_error: true });
    assert!(!bad.ok);
    assert!(!McpTool::answer(&McpReply::Failed { error: "gone".into() }).ok);
    let long = McpTool::answer(&McpReply::Content { blocks: vec![ContentBlock::Text("x".repeat(MAX_OUTPUT_BYTES + 5000))], is_error: false });
    assert!(long.content.len() < MAX_OUTPUT_BYTES + 5000);
}

#[test]
fn headers_are_token_names_with_printable_values() {
    let one = |k: &str, v: &str| build_headers(&vec![(k.to_string(), v.to_string())]);
    let name = "!#$%&'*+-.^_`|~09azAZ";
    assert_eq!(one(name, "tab\there é").unwrap()[0].0, name.to_ascii_lowercase());
    assert_eq!(one(&"x".repeat(65535), "").unwrap()[0].0.len(), 65535);
    for bad in ["", "a b", "a:b", "é", "a\"b", "a/b"] {
        assert_eq!(one(bad, "v").unwrap_err(), format!("invalid header name {bad:?}: invalid HTTP header name"));
    }
    assert!(one(&"x".repeat(65536), "").is_err());
    for bad in ["a\nb", "\u{7f}", "\u{0}"] {
        assert_eq!(one("k", bad).unwrap_err(), "invalid header value for \"k\": failed to parse header value");
    }
}
