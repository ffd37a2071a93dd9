use gaokao_apply::chat::{
    bearer_authorization, chat_completions_url, classify_sse_line, includes_system_prompt,
    request_tool, resolve_server_id, tag_tool, ChatStream, SseLine, StreamDelta, ToolCallDelta, ToolInfo,
};

fn tools() -> Option<Vec<ToolInfo>> {
    Some(vec![
        ToolInfo { name: Some("query_rank".to_string()), server_id: Some("mcp-gaokao-rank".to_string()) },
        ToolInfo { name: Some("search".to_string()), server_id: None },
        ToolInfo { name: Some("query_rank".to_string()), server_id: Some("other".to_string()) },
    ])
}

fn fragment(index: u64, id: Option<&str>, name: Option<&str>, args: Option<&str>) -> ToolCallDelta {
    ToolCallDelta {
        index,
        id: id.map(|s| s.to_string()),
        name: name.map(|s| s.to_string()),
        arguments: args.map(|s| s.to_string()),
    }
}

fn event(content: Option<&str>, calls: Vec<ToolCallDelta>, finish: Option<&str>) -> StreamDelta {
    StreamDelta {
        content: content.map(|s| s.to_string()),
        tool_calls: calls,
        finish_reason: finish.map(|s| s.to_string()),
    }
}

#[test]
fn endpoint_url() {
    assert_eq!(chat_completions_url("https://api.openai.com/v1"), "https://api.openai.com/v1/chat/completions");
    assert_eq!(chat_completions_url("https://x.test/v1//"), "https://x.test/v1/chat/completions");
    assert_eq!(chat_completions_url(""), "/chat/completions");
}

#[test]
fn authorization_header() {
    assert_eq!(bearer_authorization("sk-1"), "Bearer sk-1");
}

#[test]
fn system_prompt_inclusion() {
    assert!(includes_system_prompt(&Some("你是助手".to_string())));
    assert!(!includes_system_prompt(&Some(" \n ".to_string())));
    assert!(!includes_system_prompt(&None));
}

#[test]
fn sse_lines() {
    assert!(matches!(classify_sse_line("data: [DONE]"), SseLine::Done));
    match classify_sse_line("data: {\"a\":1}") {
        SseLine::Data(d) => assert_eq!(d, "{\"a\":1}"),
        _ => panic!("expected data"),
    }
    assert!(matches!(classify_sse_line(": keep-alive"), SseLine::Other));
    assert!(matches!(classify_sse_line("data:[DONE]"), SseLine::Other));
    assert!(matches!(classify_sse_line(""), SseLine::Other));
}

#[test]
fn partial_lines_stay_buffered() {
    let mut s = ChatStream::new();
    let lines = s.push_chunk(b"data: {\"x\":1}\ndata: [DO");
    assert_eq!(lines, vec!["data: {\"x\":1}".to_string()]);
    let lines = s.push_chunk(b"NE]\n");
    assert_eq!(lines, vec!["data: [DONE]".to_string(), "".to_string()]);
    let lines = s.push_chunk(b"  data: a  \r\n\n");
    assert_eq!(lines, vec!["data: a".to_string(), "".to_string(), "".to_string()]);
}

#[test]
fn chunk_split_inside_a_character_becomes_replacement() {
    let mut s = ChatStream::new();
    let bytes = "中\n".as_bytes();
    assert!(s.push_chunk(&bytes[..1]).is_empty());
    let lines = s.push_chunk(&bytes[1..]);
    assert_eq!(lines, vec!["\u{FFFD}\u{FFFD}\u{FFFD}".to_string(), "".to_string()]);
}

#[test]
fn server_ids() {
    assert_eq!(resolve_server_id("query_rank", "", &tools()), "mcp-gaokao-rank");
    assert_eq!(resolve_server_id("query_rank", "given", &tools()), "given");
    assert_eq!(resolve_server_id("search", "", &tools()), "");
    assert_eq!(resolve_server_id("missing", "", &tools()), "");
    assert_eq!(resolve_server_id("query_rank", "", &None), "");
}

#[test]
fn content_is_shown_unless_empty() {
    let mut s = ChatStream::new();
    assert_eq!(s.apply_delta(&event(Some("你好"), vec![], None), &None), Some("你好".to_string()));
    assert_eq!(s.apply_delta(&event(Some(""), vec![], None), &None), None);
    assert_eq!(s.apply_delta(&event(None, vec![], Some("stop")), &None), None);
    assert!(s.finish_eof(&None).is_empty());
}

#[test]
fn tool_call_fragments_assemble() {
    let t = tools();
    let mut s = ChatStream::new();
    s.apply_delta(&event(None, vec![fragment(0, Some("call_1"), Some("query_rank"), Some("{\"sco"))], None), &t);
    s.apply_delta(&event(None, vec![fragment(0, None, None, Some("re\":600}"))], None), &t);
    s.apply_delta(&event(None, vec![fragment(1, Some("call_2"), Some("search"), Some("{}"))], Some("tool_calls")), &t);
    let calls = s.finish_eof(&t);
    assert_eq!(calls.len(), 2);
    assert_eq!(calls[0].id, "call_1");
    assert_eq!(calls[0].name, "query_rank");
    assert_eq!(calls[0].arguments, "{\"score\":600}");
    assert_eq!(calls[0].server_id, "mcp-gaokao-rank");
    assert_eq!(calls[1].id, "call_2");
    assert_eq!(calls[1].server_id, "");
}

#[test]
fn done_and_end_of_stream_both_flush_open_calls() {
    let t = tools();
    let mut s = ChatStream::new();
    s.apply_delta(&event(None, vec![fragment(3, Some("c"), Some("query_rank"), Some("{}"))], None), &t);
    let calls = s.finish_done(&t);
    assert_eq!(calls.len(), 1);
    assert_eq!(calls[0].arguments, "{}");
    assert_eq!(calls[0].server_id, "mcp-gaokao-rank");

    let mut s = ChatStream::new();
    s.apply_delta(&event(None, vec![fragment(3, Some("c"), Some("query_rank"), Some("{}"))], None), &t);
    let calls = s.finish_eof(&t);
    assert_eq!(calls.len(), 1);
    assert_eq!(calls[0].id, "c");
    assert_eq!(calls[0].arguments, "{}");
    assert_eq!(calls[0].server_id, "mcp-gaokao-rank");

    // Calls completed by a `tool_calls` finish come first, then the open ones.
    let mut s = ChatStream::new();
    s.apply_delta(&event(None, vec![fragment(0, Some("a"), Some("search"), Some("{}"))], Some("tool_calls")), &t);
    s.apply_delta(&event(None, vec![fragment(1, Some("b"), Some("query_rank"), Some("{\"x\":1}"))], None), &t);
    let calls = s.finish_eof(&t);
    let ids: Vec<&str> = calls.iter().map(|c| c.id.as_str()).collect();
    assert_eq!(ids, vec!["a", "b"]);
}

fn members(pairs: &[(&str, &str)]) -> Vec<(String, String)> {
    pairs.iter().map(|(k, v)| (k.to_string(), v.to_string())).collect()
}

#[test]
fn mcp_tool_is_shaped_for_the_request() {
    let r = request_tool(Some(members(&[
        ("_serverId", "\"mcp-gaokao-rank\""),
        ("_serverName", "\"gaokao rank\""),
        ("description", "\"rank by score\""),
        ("inputSchema", "{\"type\":\"object\"}"),
        ("name", "\"query_rank\""),
    ])));
    assert!(r.wrap_as_function);
    assert_eq!(
        r.members,
        Some(members(&[
            ("description", "\"rank by score\""),
            ("parameters", "{\"type\":\"object\"}"),
            ("name", "\"query_rank\""),
        ]))
    );
}

#[test]
fn input_schema_replaces_parameters() {
    let r = request_tool(Some(members(&[
        ("inputSchema", "1"),
        ("parameters", "2"),
        ("type", "\"function\""),
    ])));
    assert!(!r.wrap_as_function);
    assert_eq!(r.members, Some(members(&[("parameters", "1"), ("type", "\"function\"")])));
}

#[test]
fn tool_without_schema_keeps_parameters() {
    let r = request_tool(Some(members(&[("name", "\"a\""), ("parameters", "{}")])));
    assert!(r.wrap_as_function);
    assert_eq!(r.members, Some(members(&[("name", "\"a\""), ("parameters", "{}")])));
}

#[test]
fn non_object_tool_is_wrapped_unchanged() {
    let r = request_tool(None);
    assert!(r.wrap_as_function);
    assert_eq!(r.members, None);
}

#[test]
fn listed_tool_is_tagged_with_its_server() {
    let id = "\"mcp-gaokao-rank\"".to_string();
    let name = "\"gaokao rank\"".to_string();
    let r = tag_tool(Some(members(&[("name", "\"query_rank\""), ("description", "\"d\"")])), &id, &name);
    assert_eq!(
        r,
        Some(members(&[
            ("name", "\"query_rank\""),
            ("description", "\"d\""),
            ("_serverId", "\"mcp-gaokao-rank\""),
            ("_serverName", "\"gaokao rank\""),
        ]))
    );
    // An existing tag is replaced in place.
    let r = tag_tool(Some(members(&[("_serverId", "\"old\""), ("name", "\"a\"")])), &id, &name);
    assert_eq!(
        r,
        Some(members(&[
            ("_serverId", "\"mcp-gaokao-rank\""),
            ("name", "\"a\""),
            ("_serverName", "\"gaokao rank\""),
        ]))
    );
    assert_eq!(tag_tool(None, &id, &name), None);
}

/// The payloads of the `data: ` lines that the chunks yield, in order.
fn data_lines(chunks: &[&str]) -> (Vec<String>, bool) {
    let mut st = ChatStream::new();
    let mut out = Vec::new();
    let mut done = false;
    for c in chunks {
        for line in st.push_chunk(c.as_bytes()) {
            match classify_sse_line(&line) {
                SseLine::Data(d) => out.push(d),
                SseLine::Done => done = true,
                SseLine::Other => {}
            }
        }
    }
    (out, done)
}

#[test]
fn chunking_does_not_change_the_lines() {
    let body = "data: {\"a\":1}\n\ndata: {\"b\":2}\n\ndata: [DONE]\n";
    let whole = data_lines(&[body]);
    assert_eq!(whole, (vec!["{\"a\":1}".to_string(), "{\"b\":2}".to_string()], true));
    for cuts in [
        vec!["data: {\"a\":1}\n", "\ndata: {\"b\":2}", "\n\ndata: [DONE]\n"],
        vec!["data: {\"", "a\":1}\n\nda", "ta: {\"b\":2}\n\ndata: [DONE", "]\n"],
        vec!["d", "ata: {\"a\":1}\n\ndata: {\"b\":2}\n\ndata: [DONE]", "\n"],
    ] {
        assert_eq!(data_lines(&cuts), whole);
    }
}

#[test]
fn cut_after_whitespace_loses_it() {
    // A cut right after a space trims that space from the buffered line.
    let (lines, _) = data_lines(&["data: a ", "b\n"]);
    assert_eq!(lines, vec!["ab".to_string()]);
    let (lines, _) = data_lines(&["data: a b\n"]);
    assert_eq!(lines, vec!["a b".to_string()]);
}

#[test]
fn blank_and_other_lines_change_nothing() {
    let plain = data_lines(&["data: {\"a\":1}\ndata: [DONE]\n"]);
    let noisy = data_lines(&[": keep-alive\n\nevent: message\n   \ndata: {\"a\":1}\nid: 7\n\ndata: [DONE]\n"]);
    assert_eq!(plain, noisy);
}
