use bible_mcp::mcp_config::{is_blank, merge_config_text, merge_mcp_config_text, ConfigParseError};
use bible_mcp::mcp_config::{merge_mcp_config, server_entry, Json};
use serde_json::Value;

fn to_json(v: &Value) -> Json {
    match v {
        Value::Null => Json::Null,
        Value::Bool(b) => Json::Bool(*b),
        Value::Number(n) => Json::Number(n.to_string()),
        Value::String(s) => Json::Text(s.clone()),
        Value::Array(a) => Json::Array(a.iter().map(to_json).collect()),
        Value::Object(m) => Json::Object(m.iter().map(|(k, v)| (k.clone(), to_json(v))).collect()),
    }
}

fn parse(text: &str) -> Json {
    to_json(&serde_json::from_str::<Value>(text).unwrap())
}

fn get<'a>(j: &'a Json, key: &str) -> &'a Json {
    match j {
        Json::Object(es) => &es.iter().find(|(k, _)| k == key).expect("missing member").1,
        _ => panic!("not an object"),
    }
}

fn text(j: &Json) -> &str {
    match j {
        Json::Text(s) => s.as_str(),
        _ => panic!("not a string"),
    }
}

fn texts(j: &Json) -> Vec<&str> {
    match j {
        Json::Array(a) => a.iter().map(text).collect(),
        _ => panic!("not an array"),
    }
}

fn has(j: &Json, key: &str) -> bool {
    match j {
        Json::Object(es) => es.iter().any(|(k, _)| k == key),
        _ => false,
    }
}

#[test]
fn merge_mcp_config_adds_server_to_empty_object() {
    let merged = merge_mcp_config_text("{}").unwrap();
    assert_eq!(text(get(get(get(&merged, "mcpServers"), "bible"), "command")), "bible-mcp");
    assert_eq!(texts(get(get(get(&merged, "mcpServers"), "bible"), "args")), vec!["serve"]);
}

#[test]
fn merge_mcp_config_preserves_other_servers() {
    let merged = merge_mcp_config_text(
        r#"{"mcpServers":{"other":{"command":"demo","args":["serve"]}},"theme":"dark"}"#,
    )
    .unwrap();

    assert_eq!(text(get(&merged, "theme")), "dark");
    assert_eq!(text(get(get(get(&merged, "mcpServers"), "other"), "command")), "demo");
    assert_eq!(text(get(get(get(&merged, "mcpServers"), "bible"), "command")), "bible-mcp");
}

#[test]
fn merge_replaces_a_root_that_is_not_an_object() {
    let merged = merge_mcp_config(parse("[1, 2]"));
    assert_eq!(text(get(get(get(&merged, "mcpServers"), "bible"), "command")), "bible-mcp");
    match &merged {
        Json::Object(es) => assert_eq!(es.len(), 1),
        _ => panic!("not an object"),
    }
}

#[test]
fn merge_replaces_servers_that_are_not_an_object() {
    let merged = merge_mcp_config(parse(r#"{"mcpServers": 3, "x": null}"#));
    assert!(has(&merged, "x"));
    let servers = get(&merged, "mcpServers");
    assert!(has(servers, "bible"));
    match servers {
        Json::Object(es) => assert_eq!(es.len(), 1),
        _ => panic!("not an object"),
    }
}

#[test]
fn merge_overwrites_an_old_bible_entry() {
    let merged = merge_mcp_config(parse(r#"{"mcpServers":{"bible":{"command":"old"}}}"#));
    let entry = get(get(&merged, "mcpServers"), "bible");
    assert_eq!(text(get(entry, "command")), "bible-mcp");
    assert_eq!(texts(get(entry, "args")), vec!["serve"]);
}

#[test]
fn merge_twice_is_merge_once() {
    let once = merge_mcp_config(parse(r#"{"mcpServers":{"a":{"command":"x"}},"k":true}"#));
    let twice = merge_mcp_config(parse(
        r#"{"mcpServers":{"a":{"command":"x"},"bible":{"command":"bible-mcp","args":["serve"]}},"k":true}"#,
    ));
    for m in [&once, &twice] {
        assert!(has(m, "k"));
        assert_eq!(text(get(get(get(m, "mcpServers"), "a"), "command")), "x");
        assert_eq!(text(get(get(get(m, "mcpServers"), "bible"), "command")), "bible-mcp");
        match get(m, "mcpServers") {
            Json::Object(es) => assert_eq!(es.len(), 2),
            _ => panic!("not an object"),
        }
    }
}

#[test]
fn server_entry_shape() {
    let e = server_entry();
    assert_eq!(text(get(&e, "command")), "bible-mcp");
    assert_eq!(texts(get(&e, "args")), vec!["serve"]);
}

#[test]
fn blank_or_invalid_config_text() {
    assert!(is_blank(""));
    assert!(is_blank(" \n\t\u{3000}"));
    assert!(!is_blank(" {} "));
    let err = || Err(ConfigParseError { message: "EOF while parsing".to_string() });
    let merged = merge_config_text("  \n", err()).unwrap();
    assert_eq!(text(get(get(get(&merged, "mcpServers"), "bible"), "command")), "bible-mcp");
    let refused = merge_config_text("{", err()).unwrap_err();
    assert_eq!(refused.message, "EOF while parsing");
}

#[test]
fn merge_config_text_parses_or_refuses() {
    let merged = merge_mcp_config_text("{\"theme\":\"dark\"}").unwrap();
    assert_eq!(text(get(&merged, "theme")), "dark");
    assert_eq!(text(get(get(get(&merged, "mcpServers"), "bible"), "command")), "bible-mcp");
    let blank = merge_mcp_config_text("  \n").unwrap();
    assert_eq!(text(get(get(get(&blank, "mcpServers"), "bible"), "command")), "bible-mcp");
    let not_object = merge_mcp_config_text("[1,2]").unwrap();
    assert_eq!(text(get(get(get(&not_object, "mcpServers"), "bible"), "command")), "bible-mcp");
    assert!(merge_mcp_config_text("{").is_err());
}
