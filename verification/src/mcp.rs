//! The MCP (Model Context Protocol) client side: server configurations,
//! JSON-RPC request ids, matching of reply lines to a request, and the text of
//! a tool call's result.
use vstd::prelude::*;
use vstd::string::StringExecFns;
use crate::text::{append_chars, chars_of, join, join_chars, seqs_of, string_of, trim, trim_chars};

verus! {

/// How to start an MCP server.
#[derive(Debug, Clone)]
pub struct McpServerConfig {
    pub id: String,
    pub name: String,
    pub command: String,
    pub args: Vec<String>,
    /// Environment variables for the server process, as (name, value) pairs.
    pub env: Vec<(String, String)>,
    pub enabled: bool,
}

/// Positions of the enabled servers among `servers`, in order.
pub open spec fn enabled_positions(servers: Seq<McpServerConfig>) -> Seq<usize>
    decreases servers.len(),
{
    if servers.len() == 0 {
        seq![]
    } else {
        let r = enabled_positions(servers.drop_last());
        if servers.last().enabled {
            r.push((servers.len() - 1) as usize)
        } else {
            r
        }
    }
}

/// The positions of the servers to contact: the enabled ones, in order.
pub fn enabled_servers(servers: &Vec<McpServerConfig>) -> (r: Vec<usize>)
    ensures
        r@ == enabled_positions(servers@),
{
    let mut out: Vec<usize> = Vec::new();
    let mut i: usize = 0;
    assert(servers@.take(0) =~= Seq::<McpServerConfig>::empty());
    while i < servers.len()
        invariant
            0 <= i <= servers@.len(),
            out@ == enabled_positions(servers@.take(i as int)),
        decreases servers@.len() - i,
    {
        assert(servers@.take(i + 1).drop_last() =~= servers@.take(i as int));
        if servers[i].enabled {
            out.push(i);
        }
        i = i + 1;
    }
    assert(servers@.take(servers@.len() as int) =~= servers@);
    out
}

/// The request-id counter of one connection to an MCP server; ids start at 1.
pub struct McpSession {
    next_id: u64,
}

impl McpSession {
    /// The id that the next request gets.
    pub closed spec fn next_id(&self) -> u64 {
        self.next_id
    }

    /// A new connection's counter.
    pub fn new() -> (r: McpSession)
        ensures
            r.next_id() == 1,
    {
        McpSession { next_id: 1 }
    }

    /// Whether another request id can be issued.
    pub fn can_issue(&self) -> (r: bool)
        ensures
            r == (self.next_id() < u64::MAX),
    {
        self.next_id < u64::MAX
    }

    /// Issues the id of a new request.
    pub fn issue_request_id(&mut self) -> (id: u64)
        requires
            old(self).next_id() < u64::MAX,
        ensures
            id == old(self).next_id(),
            final(self).next_id() == old(self).next_id() + 1,
    {
        let id = self.next_id;
        self.next_id = self.next_id + 1;
        id
    }
}

/// What a reply line holds, as far as matching reads it: its numeric `id`
/// and, where it has an `error` member, that member's JSON text.
#[derive(Debug, Clone)]
pub struct RpcReply {
    pub id: Option<u64>,
    pub error: Option<String>,
}

/// What to do with a line read from the server.
#[derive(Debug)]
pub enum ReplyDecision {
    /// Read the next line.
    Continue,
    /// The line is the reply to the request; its `result` is the answer.
    Accept,
    /// The request fails with this message.
    Fail(String),
}

/// The error when the server's output ends.
pub open spec fn process_closed_error() -> Seq<char> {
    "MCP process closed"@
}

/// The decision for a line: at the end of the output the request fails;
/// blank lines and lines that are not the JSON reply with the request's id
/// are skipped; the reply fails with its error, or is accepted.
pub open spec fn reply_decision_spec(
    bytes_read: usize,
    line: Seq<char>,
    parsed: Option<RpcReply>,
    expected: u64,
) -> Option<Option<Seq<char>>> {
    if bytes_read == 0 {
        Some(Some(process_closed_error()))
    } else if trim(line).len() == 0 {
        None
    } else {
        match parsed {
            Some(reply) => if reply.id == Some(expected) {
                match reply.error {
                    Some(e) => Some(Some("MCP error: "@ + e@)),
                    None => Some(None),
                }
            } else {
                None
            },
            None => None,
        }
    }
}

/// Only the reply that carries the request's id settles the request: at the
/// end of the output the request fails; any other line (blank, not JSON, a
/// notification without an id, or a reply to another request) is skipped;
/// a non-blank line whose id is the request's id is accepted, or fails with
/// its `error` member.
pub proof fn lemma_only_the_matching_reply_settles(
    bytes_read: usize,
    line: Seq<char>,
    parsed: Option<RpcReply>,
    expected: u64,
)
    ensures
        bytes_read == 0 ==> reply_decision_spec(bytes_read, line, parsed, expected) == Some(
            Some("MCP process closed"@),
        ),
        bytes_read > 0 && !(parsed matches Some(p) && p.id == Some(expected))
            ==> reply_decision_spec(bytes_read, line, parsed, expected) is None,
        bytes_read > 0 && trim(line).len() == 0 ==> reply_decision_spec(
            bytes_read,
            line,
            parsed,
            expected,
        ) is None,
        (bytes_read > 0 && trim(line).len() > 0) ==> (parsed matches Some(p) ==> (p.id == Some(
            expected,
        ) ==> reply_decision_spec(bytes_read, line, parsed, expected) == match p.error {
            Some(e) => Some(Some("MCP error: "@ + e@)),
            None => Some(None),
        })),
{
}

/// Decides what a line read from the server means for the request with id
/// `expected`. `bytes_read` is what the read returned (0 at the end of the
/// output); `parsed` is the line, trimmed, read as JSON, if it is JSON.
pub fn decide_reply(bytes_read: usize, line: &str, parsed: &Option<RpcReply>, expected: u64) -> (r:
    ReplyDecision)
    ensures
        match reply_decision_spec(bytes_read, line@, *parsed, expected) {
            None => r matches ReplyDecision::Continue,
            Some(None) => r matches ReplyDecision::Accept,
            Some(Some(msg)) => r matches ReplyDecision::Fail(m) && m@ == msg,
        },
        bytes_read > 0 && !(parsed matches Some(p) && p.id == Some(expected)) ==> r matches ReplyDecision::Continue,
{
    if bytes_read == 0 {
        return ReplyDecision::Fail(String::from_str("MCP process closed"));
    }
    let c = chars_of(line);
    let t = trim_chars(c.as_slice());
    if t.len() == 0 {
        return ReplyDecision::Continue;
    }
    match parsed {
        Some(reply) => {
            if reply.id == Some(expected) {
                match &reply.error {
                    Some(e) => {
                        let mut m = String::from_str("MCP error: ");
                        m.append(e.as_str());
                        ReplyDecision::Fail(m)
                    },
                    None => ReplyDecision::Accept,
                }
            } else {
                ReplyDecision::Continue
            }
        },
        None => ReplyDecision::Continue,
    }
}

/// An item of a tool result's `content` array: a `text` item with its text
/// (if that is a string), or any other item as its JSON text.
#[derive(Debug, Clone)]
pub enum ContentItem {
    Text(Option<String>),
    Other(String),
}

/// The texts that the content items contribute, in order.
pub open spec fn item_texts(items: Seq<ContentItem>) -> Seq<Seq<char>>
    decreases items.len(),
{
    if items.len() == 0 {
        seq![]
    } else {
        let r = item_texts(items.drop_last());
        match items.last() {
            ContentItem::Text(Some(t)) => r.push(t@),
            ContentItem::Text(None) => r,
            ContentItem::Other(j) => r.push(j@),
        }
    }
}

/// The text of a tool call's result: its content items' texts joined by
/// newlines when it has a `content` array, else the whole result as JSON.
pub fn tool_output_text(content: &Option<Vec<ContentItem>>, result_json: &str) -> (r: String)
    ensures
        match content {
            Some(items) => r@ == join(item_texts(items@), seq!['\n']),
            None => r@ == result_json@,
        },
{
    match content {
        None => String::from_str(result_json),
        Some(items) => {
            let mut texts: Vec<Vec<char>> = Vec::new();
            let mut i: usize = 0;
            assert(items@.take(0) =~= Seq::<ContentItem>::empty());
            while i < items.len()
                invariant
                    0 <= i <= items@.len(),
                    seqs_of(texts@) == item_texts(items@.take(i as int)),
                decreases items@.len() - i,
            {
                assert(items@.take(i + 1).drop_last() =~= items@.take(i as int));
                let ghost before = texts@;
                match &items[i] {
                    ContentItem::Text(Some(t)) => {
                        texts.push(chars_of(t.as_str()));
                        assert(seqs_of(texts@) =~= seqs_of(before).push(t@));
                    },
                    ContentItem::Text(None) => {},
                    ContentItem::Other(j) => {
                        texts.push(chars_of(j.as_str()));
                        assert(seqs_of(texts@) =~= seqs_of(before).push(j@));
                    },
                }
                i = i + 1;
            }
            assert(items@.take(items@.len() as int) =~= items@);
            let nl = ['\n'];
            assert(nl@ =~= seq!['\n']);
            let joined = join_chars(&texts, &nl);
            string_of(joined.as_slice())
        },
    }
}

} // verus!
