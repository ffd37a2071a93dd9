use gaokao_apply::mcp::{
    decide_reply, enabled_servers, tool_output_text, ContentItem, McpServerConfig, McpSession,
    ReplyDecision, RpcReply,
};

fn server(id: &str, enabled: bool) -> McpServerConfig {
    McpServerConfig {
        id: id.to_string(),
        name: id.to_string(),
        command: "uvx".to_string(),
        args: vec![id.to_string()],
        env: vec![],
        enabled,
    }
}

#[test]
fn only_enabled_servers_are_contacted() {
    let servers = vec![server("a", true), server("b", false), server("c", true)];
    assert_eq!(enabled_servers(&servers), vec![0, 2]);
    assert!(enabled_servers(&vec![]).is_empty());
}

#[test]
fn request_ids_start_at_one_and_increase() {
    let mut s = McpSession::new();
    assert!(s.can_issue());
    assert_eq!(s.issue_request_id(), 1);
    assert_eq!(s.issue_request_id(), 2);
    assert_eq!(s.issue_request_id(), 3);
}

#[test]
fn reply_lines() {
    let ok = Some(RpcReply { id: Some(2), error: None });
    let err = Some(RpcReply { id: Some(2), error: Some("{\"code\":-1}".to_string()) });
    let other = Some(RpcReply { id: Some(1), error: None });
    assert!(matches!(decide_reply(10, "{...}", &ok, 2), ReplyDecision::Accept));
    match decide_reply(10, "{...}", &err, 2) {
        ReplyDecision::Fail(m) => assert_eq!(m, "MCP error: {\"code\":-1}"),
        _ => panic!("expected failure"),
    }
    assert!(matches!(decide_reply(10, "{...}", &other, 2), ReplyDecision::Continue));
    assert!(matches!(decide_reply(10, "log line", &None, 2), ReplyDecision::Continue));
    assert!(matches!(decide_reply(2, " \n", &None, 2), ReplyDecision::Continue));
    match decide_reply(0, "", &None, 2) {
        ReplyDecision::Fail(m) => assert_eq!(m, "MCP process closed"),
        _ => panic!("expected failure"),
    }
}

#[test]
fn tool_output() {
    let items = vec![
        ContentItem::Text(Some("第一行".to_string())),
        ContentItem::Text(None),
        ContentItem::Other("{\"type\":\"image\"}".to_string()),
        ContentItem::Text(Some("end".to_string())),
    ];
    assert_eq!(tool_output_text(&Some(items), "ignored"), "第一行\n{\"type\":\"image\"}\nend");
    assert_eq!(tool_output_text(&Some(vec![]), "ignored"), "");
    assert_eq!(tool_output_text(&None, "{\"x\":1}"), "{\"x\":1}");
}
