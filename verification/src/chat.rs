//! The streaming chat-completions protocol: the request's URL and headers,
//! the server-sent-events line buffer, and the assembly of streamed tool-call
//! deltas into complete tool calls.
use vstd::prelude::*;
use vstd::string::StringExecFns;
use vstd::utf8::{decode_utf8, valid_utf8};
use crate::text::is_ws;
use crate::text::{
    append_chars, chars_eq, chars_of, from_utf8_lossy, lemma_decode_concat, lemma_split_concat,
    lemma_split_nonempty, lemma_split_without_sep, lemma_trim_after_trim, lemma_trim_idempotent,
    lossy_text, seqs_of, split_on, starts_with, string_of, sub_vec, trim, trim_chars,
};

verus! {

/// A message of a conversation.
#[derive(Debug, Clone)]
pub struct ChatMessage {
    pub role: String,
    pub content: String,
}

/// Whether the system prompt goes into the request: it is given and not only
/// whitespace.
pub fn includes_system_prompt(system_prompt: &Option<String>) -> (r: bool)
    ensures
        r == (system_prompt matches Some(p) && trim(p@).len() > 0),
{
    match system_prompt {
        Some(p) => {
            let c = chars_of(p.as_str());
            let t = trim_chars(c.as_slice());
            t.len() > 0
        },
        None => false,
    }
}

/// `s` without its trailing `/` characters (`str::trim_end_matches('/')`).
pub open spec fn trim_end_slashes(s: Seq<char>) -> Seq<char>
    decreases s.len(),
{
    if s.len() > 0 && s.last() == '/' {
        trim_end_slashes(s.drop_last())
    } else {
        s
    }
}

/// The chat-completions endpoint under the API base URL `base`.
pub fn chat_completions_url(base: &str) -> (r: String)
    ensures
        r@ == trim_end_slashes(base@) + "/chat/completions"@,
{
    let c = chars_of(base);
    let mut j = c.len();
    assert(c@.subrange(0, j as int) =~= c@);
    while j > 0 && c[j - 1] == '/'
        invariant
            j <= c@.len(),
            trim_end_slashes(c@) == trim_end_slashes(c@.subrange(0, j as int)),
        decreases j,
    {
        assert(c@.subrange(0, j as int).drop_last() =~= c@.subrange(0, j - 1));
        j = j - 1;
    }
    let mut out = sub_vec(c.as_slice(), 0, j);
    let tail = chars_of("/chat/completions");
    append_chars(&mut out, tail.as_slice());
    string_of(out.as_slice())
}

/// The `Authorization` header value for API key `key`.
pub fn bearer_authorization(key: &str) -> (r: String)
    ensures
        r@ == "Bearer "@ + key@,
{
    let mut s = String::from_str("Bearer ");
    s.append(key);
    s
}

/// A line of the event stream, classified.
#[derive(Debug)]
pub enum SseLine {
    /// `data: [DONE]`: the stream is complete.
    Done,
    /// `data: ` followed by a JSON payload.
    Data(String),
    /// Anything else.
    Other,
}

/// `line` without the prefix `data: `, if it has it.
pub open spec fn data_payload(line: Seq<char>) -> Option<Seq<char>> {
    if starts_with(line, "data: "@) {
        Some(line.skip(6))
    } else {
        None
    }
}

/// Classifies a trimmed line of the event stream.
pub fn classify_sse_line(line: &str) -> (r: SseLine)
    ensures
        match data_payload(line@) {
            Some(d) => if d == "[DONE]"@ {
                r matches SseLine::Done
            } else {
                r matches SseLine::Data(s) && s@ == d
            },
            None => r matches SseLine::Other,
        },
{
    let c = chars_of(line);
    let prefix = chars_of("data: ");
    proof {
        reveal_strlit("data: ");
    }
    if c.len() >= 6 && chars_eq(sub_vec(c.as_slice(), 0, 6).as_slice(), prefix.as_slice()) {
        let payload = sub_vec(c.as_slice(), 6, c.len());
        assert(payload@ =~= c@.skip(6));
        let done = chars_of("[DONE]");
        if chars_eq(payload.as_slice(), done.as_slice()) {
            SseLine::Done
        } else {
            SseLine::Data(string_of(payload.as_slice()))
        }
    } else {
        assert(!starts_with(c@, "data: "@)) by {
            if c@.len() >= 6 {
                assert(c@.take(6) =~= c@.subrange(0, 6));
            }
        }
        SseLine::Other
    }
}

/// The complete lines (trimmed) that the buffered text `buf` holds, and the
/// trimmed partial line that stays buffered (empty when `buf` ends with a
/// newline).
pub open spec fn buffered_lines(buf: Seq<char>) -> (Seq<Seq<char>>, Seq<char>) {
    let pieces = split_on(buf, '\n');
    let complete = if buf.len() > 0 && buf.last() == '\n' {
        pieces
    } else {
        pieces.drop_last()
    };
    (complete.map_values(|l: Seq<char>| trim(l)), trim(pieces.last()))
}

/// No piece of `split_on(s, sep)` holds `sep`.
pub proof fn lemma_split_pieces_exclude_sep(s: Seq<char>, sep: char)
    ensures
        split_on(s, sep).len() >= 1,
        forall|i: int, j: int|
            0 <= i < split_on(s, sep).len() && 0 <= j < split_on(s, sep)[i].len() ==> #[trigger] split_on(
                s,
                sep,
            )[i][j] != sep,
    decreases s.len(),
{
    if s.len() > 0 {
        lemma_split_pieces_exclude_sep(s.drop_last(), sep);
        let p = split_on(s.drop_last(), sep);
        if s.last() != sep {
            let q = split_on(s, sep);
            assert forall|i: int, j: int|
                0 <= i < q.len() && 0 <= j < q[i].len() implies #[trigger] q[i][j] != sep by {
                if i == q.len() - 1 && j == q[i].len() - 1 {
                } else if i == q.len() - 1 {
                    assert(q[i][j] == p.last()[j]);
                } else {
                    assert(q[i] == p[i]);
                }
            }
        } else {
            let q = split_on(s, sep);
            assert forall|i: int, j: int|
                0 <= i < q.len() && 0 <= j < q[i].len() implies #[trigger] q[i][j] != sep by {
                if i < p.len() {
                    assert(q[i] == p[i]);
                }
            }
        }
    }
}

/// `trim(l)` is a part of `l`: it holds no character that `l` lacks.
proof fn lemma_trim_keeps_absent(l: Seq<char>, c: char)
    requires
        forall|j: int| 0 <= j < l.len() ==> l[j] != c,
    ensures
        forall|j: int| 0 <= j < trim(l).len() ==> trim(l)[j] != c,
{
    crate::text::lemma_trim_shape(l);
    let (a, b) = choose|a: int, b: int| 0 <= a <= b <= l.len() && trim(l) == l.subrange(a, b);
    assert forall|j: int| 0 <= j < trim(l).len() implies trim(l)[j] != c by {
        assert(trim(l)[j] == l[a + j]);
    }
}

/// The event-stream buffer hands out complete lines without newlines, and
/// a buffer that ends with a newline keeps nothing back.
pub proof fn lemma_buffered_lines_shape(buf: Seq<char>)
    ensures
        forall|i: int, j: int|
            0 <= i < buffered_lines(buf).0.len() && 0 <= j < buffered_lines(buf).0[i].len()
                ==> #[trigger] buffered_lines(buf).0[i][j] != '\n',
        forall|j: int| 0 <= j < buffered_lines(buf).1.len() ==> buffered_lines(buf).1[j] != '\n',
        buf.len() > 0 && buf.last() == '\n' ==> buffered_lines(buf).1.len() == 0,
{
    lemma_split_pieces_exclude_sep(buf, '\n');
    let pieces = split_on(buf, '\n');
    let lines = buffered_lines(buf).0;
    assert forall|i: int, j: int| 0 <= i < lines.len() && 0 <= j < lines[i].len() implies #[trigger] lines[i][j] != '\n' by {
        assert(forall|t: int| 0 <= t < pieces[i].len() ==> pieces[i][t] != '\n');
        lemma_trim_keeps_absent(pieces[i], '\n');
    }
    assert(forall|t: int| 0 <= t < pieces.last().len() ==> pieces.last()[t] != '\n');
    lemma_trim_keeps_absent(pieces.last(), '\n');
    if buf.len() > 0 && buf.last() == '\n' {
        assert(pieces.last() == Seq::<char>::empty());
        assert(trim(Seq::<char>::empty()) =~= Seq::<char>::empty());
    }
}

/// A tool the model may call: its name (`name`, or `function.name`) and the
/// id of the MCP server that provides it (`_serverId`), where present as
/// strings.
#[derive(Debug, Clone)]
pub struct ToolInfo {
    pub name: Option<String>,
    pub server_id: Option<String>,
}

/// Index of the first tool named `name` among `tools[k..]`.
pub open spec fn first_tool_named(tools: Seq<ToolInfo>, name: Seq<char>, k: int) -> Option<int>
    decreases tools.len() - k,
{
    if k < 0 || k >= tools.len() {
        None
    } else if tools[k].name matches Some(n) && n@ == name {
        Some(k)
    } else {
        first_tool_named(tools, name, k + 1)
    }
}

/// The server id of the first tool named `name`, or empty.
pub open spec fn tool_server(tools: Option<Vec<ToolInfo>>, name: Seq<char>) -> Seq<char> {
    match tools {
        None => seq![],
        Some(ts) => match first_tool_named(ts@, name, 0) {
            None => seq![],
            Some(k) => match ts@[k].server_id {
                Some(s) => s@,
                None => seq![],
            },
        },
    }
}

/// The server of a tool call: the one already known, else the one of the
/// first tool with its name, else empty.
pub open spec fn resolved_server(name: Seq<char>, server: Seq<char>, tools: Option<Vec<ToolInfo>>) -> Seq<
    char,
> {
    if server.len() > 0 {
        server
    } else {
        tool_server(tools, name)
    }
}

/// Resolve server_id for a tool call delta entry
pub fn resolve_server_id(tc_name: &str, tc_server: &str, tools: &Option<Vec<ToolInfo>>) -> (r:
    String)
    ensures
        r@ == resolved_server(tc_name@, tc_server@, *tools),
{
    let server = chars_of(tc_server);
    if server.len() > 0 {
        return string_of(server.as_slice());
    }
    match tools {
        None => String::new(),
        Some(ts) => {
            let name = chars_of(tc_name);
            let mut k: usize = 0;
            while k < ts.len()
                invariant
                    0 <= k <= ts@.len(),
                    name@ == tc_name@,
                    tc_server@.len() == 0,
                    *tools == Some(*ts),
                    first_tool_named(ts@, tc_name@, 0) == first_tool_named(ts@, tc_name@, k as int),
                decreases ts@.len() - k,
            {
                match &ts[k].name {
                    Some(n) => {
                        let nc = chars_of(n.as_str());
                        if chars_eq(nc.as_slice(), name.as_slice()) {
                            assert(ts@[k as int].name matches Some(nn) && nn@ == tc_name@);
                            assert(first_tool_named(ts@, tc_name@, k as int) == Some(k as int));
                            return match &ts[k].server_id {
                                Some(s) => s.clone(),
                                None => String::new(),
                            };
                        }
                    },
                    None => {},
                }
                k = k + 1;
            }
            String::new()
        },
    }
}

/// The members of a JSON object as (key, value) pairs, where each value is
/// held as its JSON text.
pub open spec fn member_views(ms: Seq<(String, String)>) -> Seq<(Seq<char>, Seq<char>)> {
    ms.map_values(|m: (String, String)| (m.0@, m.1@))
}

/// Whether some member of `ms` has key `k`.
pub open spec fn has_key(ms: Seq<(Seq<char>, Seq<char>)>, k: Seq<char>) -> bool {
    exists|i: int| 0 <= i < ms.len() && ms[i].0 == k
}

/// The members of a tool object as the chat request sends them: the
/// bookkeeping members `_serverId` and `_serverName` are dropped, and MCP's
/// `inputSchema` becomes `parameters` (taking the place of any `parameters`
/// member where the object has an `inputSchema`).
pub open spec fn request_members(ms: Seq<(Seq<char>, Seq<char>)>, schema: bool) -> Seq<
    (Seq<char>, Seq<char>),
>
    decreases ms.len(),
{
    if ms.len() == 0 {
        seq![]
    } else {
        let r = request_members(ms.drop_last(), schema);
        let k = ms.last().0;
        if k == "_serverId"@ || k == "_serverName"@ || (schema && k == "parameters"@) {
            r
        } else if k == "inputSchema"@ {
            r.push(("parameters"@, ms.last().1))
        } else {
            r.push(ms.last())
        }
    }
}

/// A tool as the chat request sends it: the members of the tool object (none
/// where the tool is not a JSON object), and whether it goes out wrapped as
/// `{"type": "function", "function": ...}`, which it does when it has no
/// `type` member.
#[derive(Debug, Clone)]
pub struct RequestTool {
    pub members: Option<Vec<(String, String)>>,
    pub wrap_as_function: bool,
}

/// Whether `s` reads `lit`.
fn str_is(s: &String, lit: &str) -> (r: bool)
    ensures
        r == (s@ == lit@),
{
    let a = chars_of(s.as_str());
    let b = chars_of(lit);
    chars_eq(a.as_slice(), b.as_slice())
}

/// Whether some member of `ms` has key `key`.
fn has_member(ms: &Vec<(String, String)>, key: &str) -> (r: bool)
    ensures
        r == has_key(member_views(ms@), key@),
{
    let ghost mv = member_views(ms@);
    let mut i: usize = 0;
    while i < ms.len()
        invariant
            0 <= i <= ms@.len(),
            mv == member_views(ms@),
            forall|j: int| 0 <= j < i ==> mv[j].0 != key@,
        decreases ms@.len() - i,
    {
        if str_is(&ms[i].0, key) {
            assert(mv[i as int].0 == key@);
            return true;
        }
        i = i + 1;
    }
    false
}

/// The form in which the chat request sends a tool given by the members of
/// its JSON object (`None` where the tool is not an object).
pub fn request_tool(members: Option<Vec<(String, String)>>) -> (r: RequestTool)
    ensures
        match members {
            None => r.members is None && r.wrap_as_function,
            Some(ms) => {
                let mv = member_views(ms@);
                &&& r.members matches Some(out) && member_views(out@) == request_members(
                    mv,
                    has_key(mv, "inputSchema"@),
                )
                &&& r.wrap_as_function == !has_key(mv, "type"@)
            },
        },
{
    match members {
        None => RequestTool { members: None, wrap_as_function: true },
        Some(ms) => {
            let ghost mv = member_views(ms@);
            let schema = has_member(&ms, "inputSchema");
            let typed = has_member(&ms, "type");
            let mut out: Vec<(String, String)> = Vec::new();
            let mut i: usize = 0;
            assert(mv.take(0) =~= Seq::<(Seq<char>, Seq<char>)>::empty());
            while i < ms.len()
                invariant
                    0 <= i <= ms@.len(),
                    mv == member_views(ms@),
                    member_views(out@) == request_members(mv.take(i as int), schema),
                decreases ms@.len() - i,
            {
                assert(mv.take(i + 1).drop_last() =~= mv.take(i as int));
                assert(mv.take(i + 1).last() == mv[i as int]);
                let ghost before = out@;
                let key = &ms[i].0;
                if str_is(key, "_serverId") || str_is(key, "_serverName") || (schema && str_is(
                    key,
                    "parameters",
                )) {
                } else if str_is(key, "inputSchema") {
                    out.push((String::from_str("parameters"), ms[i].1.clone()));
                    assert(member_views(out@) =~= member_views(before).push(
                        ("parameters"@, mv[i as int].1),
                    ));
                } else {
                    out.push((key.clone(), ms[i].1.clone()));
                    assert(member_views(out@) =~= member_views(before).push(mv[i as int]));
                }
                i = i + 1;
            }
            assert(mv.take(ms@.len() as int) =~= mv);
            RequestTool { members: Some(out), wrap_as_function: !typed }
        },
    }
}

/// `ms` with member `k` set to `v`: its value replaced where `k` is a key,
/// else the member added at the end.
pub open spec fn set_member(ms: Seq<(Seq<char>, Seq<char>)>, k: Seq<char>, v: Seq<char>) -> Seq<
    (Seq<char>, Seq<char>),
> {
    if has_key(ms, k) {
        ms.map_values(|m: (Seq<char>, Seq<char>)| if m.0 == k { (k, v) } else { m })
    } else {
        ms.push((k, v))
    }
}

/// The members of a tool listed by an MCP server, tagged with the server:
/// `_serverId` set to `id` and then `_serverName` set to `name` (both JSON
/// texts).
pub open spec fn tagged_members(ms: Seq<(Seq<char>, Seq<char>)>, id: Seq<char>, name: Seq<char>) -> Seq<
    (Seq<char>, Seq<char>),
> {
    set_member(set_member(ms, "_serverId"@, id), "_serverName"@, name)
}

/// `ms` with member `key` set to `value`.
fn set_member_of(ms: Vec<(String, String)>, key: &str, value: &String) -> (r: Vec<(String, String)>)
    ensures
        member_views(r@) == set_member(member_views(ms@), key@, value@),
{
    let ghost mv = member_views(ms@);
    let present = has_member(&ms, key);
    let mut out: Vec<(String, String)> = Vec::new();
    let mut i: usize = 0;
    while i < ms.len()
        invariant
            0 <= i <= ms@.len(),
            mv == member_views(ms@),
            member_views(out@) == mv.take(i as int).map_values(
                |m: (Seq<char>, Seq<char>)| if present && m.0 == key@ { (key@, value@) } else { m },
            ),
        decreases ms@.len() - i,
    {
        let ghost before = out@;
        if present && str_is(&ms[i].0, key) {
            out.push((String::from_str(key), value.clone()));
        } else {
            out.push((ms[i].0.clone(), ms[i].1.clone()));
        }
        assert(member_views(out@) =~= mv.take(i + 1).map_values(
            |m: (Seq<char>, Seq<char>)| if present && m.0 == key@ { (key@, value@) } else { m },
        )) by {
            assert(member_views(out@) =~= member_views(before).push(member_views(out@).last()));
            assert(mv[i as int] == (ms@[i as int].0@, ms@[i as int].1@));
        }
        i = i + 1;
    }
    assert(mv.take(ms@.len() as int) =~= mv);
    if present {
        assert(member_views(out@) =~= mv.map_values(
            |m: (Seq<char>, Seq<char>)| if m.0 == key@ { (key@, value@) } else { m },
        ));
        out
    } else {
        assert(member_views(out@) =~= mv) by {
            assert forall|j: int| 0 <= j < mv.len() implies #[trigger] member_views(out@)[j]
                == mv[j] by {}
        }
        let ghost before = out@;
        out.push((String::from_str(key), value.clone()));
        assert(member_views(out@) =~= mv.push((key@, value@)));
        out
    }
}

/// A tool listed by an MCP server, tagged with the server's id and name
/// (given as JSON texts); a tool that is not a JSON object (`None`) stays as
/// it is.
pub fn tag_tool(
    members: Option<Vec<(String, String)>>,
    server_id: &String,
    server_name: &String,
) -> (r: Option<Vec<(String, String)>>)
    ensures
        match members {
            None => r is None,
            Some(ms) => r matches Some(out) && member_views(out@) == tagged_members(
                member_views(ms@),
                server_id@,
                server_name@,
            ),
        },
{
    match members {
        None => None,
        Some(ms) => {
            let with_id = set_member_of(ms, "_serverId", server_id);
            Some(set_member_of(with_id, "_serverName", server_name))
        },
    }
}

/// A streamed fragment of a tool call (`choices[0].delta.tool_calls[..]`).
#[derive(Debug, Clone)]
pub struct ToolCallDelta {
    pub index: u64,
    pub id: Option<String>,
    pub name: Option<String>,
    pub arguments: Option<String>,
}

/// One streamed event (`choices[0]`): text content, tool-call fragments and
/// the finish reason, where present as strings.
#[derive(Debug, Clone)]
pub struct StreamDelta {
    pub content: Option<String>,
    pub tool_calls: Vec<ToolCallDelta>,
    pub finish_reason: Option<String>,
}

/// A complete tool call that the model asks for.
#[derive(Debug, Clone)]
pub struct ToolCall {
    pub id: String,
    pub name: String,
    pub arguments: String,
    pub server_id: String,
}

/// A tool call being assembled from fragments.
#[derive(Debug, Clone)]
pub struct PartialCall {
    pub index: u64,
    pub id: String,
    pub name: String,
    pub arguments: String,
    pub server_id: String,
}

/// Mathematical form of a tool call under assembly.
pub struct CallView {
    pub index: u64,
    pub id: Seq<char>,
    pub name: Seq<char>,
    pub arguments: Seq<char>,
    pub server_id: Seq<char>,
}

/// Mathematical form of a complete tool call.
pub struct ToolCallView {
    pub id: Seq<char>,
    pub name: Seq<char>,
    pub arguments: Seq<char>,
    pub server_id: Seq<char>,
}

impl View for PartialCall {
    type V = CallView;

    open spec fn view(&self) -> CallView {
        CallView {
            index: self.index,
            id: self.id@,
            name: self.name@,
            arguments: self.arguments@,
            server_id: self.server_id@,
        }
    }
}

impl View for ToolCall {
    type V = ToolCallView;

    open spec fn view(&self) -> ToolCallView {
        ToolCallView {
            id: self.id@,
            name: self.name@,
            arguments: self.arguments@,
            server_id: self.server_id@,
        }
    }
}

/// The views of the calls under assembly.
pub open spec fn call_views(v: Seq<PartialCall>) -> Seq<CallView> {
    v.map_values(|c: PartialCall| c@)
}

/// The views of complete calls.
pub open spec fn tool_call_views(v: Seq<ToolCall>) -> Seq<ToolCallView> {
    v.map_values(|c: ToolCall| c@)
}

/// Position of the call with stream index `index`.
pub open spec fn call_position(calls: Seq<CallView>, index: u64) -> Option<int>
    decreases calls.len(),
{
    if calls.len() == 0 {
        None
    } else if calls.last().index == index {
        Some(calls.len() - 1)
    } else {
        call_position(calls.drop_last(), index)
    }
}

/// The calls after one fragment: a call for a new index starts empty; the id
/// and name are replaced where given (a new name also fixing the server from
/// the tool list), and the argument text is appended.
pub open spec fn apply_fragment(
    calls: Seq<CallView>,
    d: ToolCallDelta,
    tools: Option<Vec<ToolInfo>>,
) -> Seq<CallView> {
    let (cs, k) = match call_position(calls, d.index) {
        Some(k) => (calls, k),
        None => (
            calls.push(
                CallView {
                    index: d.index,
                    id: seq![],
                    name: seq![],
                    arguments: seq![],
                    server_id: seq![],
                },
            ),
            calls.len() as int,
        ),
    };
    let e = cs[k];
    let e1 = match d.id {
        Some(id) => CallView { id: id@, ..e },
        None => e,
    };
    let e2 = match d.name {
        Some(n) => CallView { name: n@, server_id: tool_server(tools, n@), ..e1 },
        None => e1,
    };
    let e3 = match d.arguments {
        Some(a) => CallView { arguments: e2.arguments + a@, ..e2 },
        None => e2,
    };
    cs.update(k, e3)
}

/// The calls after the fragments `ds`, in order.
pub open spec fn apply_fragments(
    calls: Seq<CallView>,
    ds: Seq<ToolCallDelta>,
    tools: Option<Vec<ToolInfo>>,
) -> Seq<CallView>
    decreases ds.len(),
{
    if ds.len() == 0 {
        calls
    } else {
        apply_fragment(apply_fragments(calls, ds.drop_last(), tools), ds.last(), tools)
    }
}

/// `call_position` finds the call with the index, and finds none only when
/// there is none.
proof fn lemma_call_position(calls: Seq<CallView>, index: u64)
    ensures
        match call_position(calls, index) {
            Some(k) => 0 <= k < calls.len() && calls[k].index == index,
            None => forall|k: int| 0 <= k < calls.len() ==> #[trigger] calls[k].index != index,
        },
    decreases calls.len(),
{
    if calls.len() > 0 && calls.last().index != index {
        lemma_call_position(calls.drop_last(), index);
        if call_position(calls, index) is None {
            assert forall|k: int| 0 <= k < calls.len() implies #[trigger] calls[k].index
                != index by {
                if k < calls.len() - 1 {
                    assert(calls[k] == calls.drop_last()[k]);
                }
            }
        }
    }
}

/// A fragment never gives two calls the same stream index.
pub proof fn lemma_fragment_keeps_indices_distinct(
    calls: Seq<CallView>,
    d: ToolCallDelta,
    tools: Option<Vec<ToolInfo>>,
)
    requires
        distinct_indices(calls),
    ensures
        distinct_indices(apply_fragment(calls, d, tools)),
{
    lemma_call_position(calls, d.index);
    let r = apply_fragment(calls, d, tools);
    match call_position(calls, d.index) {
        Some(k) => {
            assert forall|i: int, j: int| 0 <= i < j < r.len() implies #[trigger] r[i].index
                != #[trigger] r[j].index by {
                assert(r[i].index == calls[i].index && r[j].index == calls[j].index);
            }
        },
        None => {
            assert forall|i: int, j: int| 0 <= i < j < r.len() implies #[trigger] r[i].index
                != #[trigger] r[j].index by {
                if j < calls.len() {
                    assert(r[i].index == calls[i].index && r[j].index == calls[j].index);
                } else {
                    assert(r[i].index == calls[i].index);
                }
            }
        },
    }
}

/// The argument fragments of one tool call concatenate in order: a call
/// started by fragment `d1` and continued by `d2` holds `d1`'s argument text
/// followed by `d2`'s.
pub proof fn lemma_arguments_concatenate(
    calls: Seq<CallView>,
    d1: ToolCallDelta,
    d2: ToolCallDelta,
    tools: Option<Vec<ToolInfo>>,
)
    requires
        call_position(calls, d1.index) is None,
        d2.index == d1.index,
        d1.arguments is Some,
        d2.arguments is Some,
    ensures
        apply_fragments(calls, seq![d1, d2], tools)[calls.len() as int].arguments == d1.arguments->0@
            + d2.arguments->0@,
        apply_fragments(calls, seq![d1, d2], tools)[calls.len() as int].index == d1.index,
{
    let ds = seq![d1, d2];
    assert(ds.drop_last() =~= seq![d1]);
    assert(ds.drop_last().drop_last() =~= Seq::<ToolCallDelta>::empty());
    let after1 = apply_fragment(calls, d1, tools);
    assert(seq![d1].drop_last() =~= Seq::<ToolCallDelta>::empty());
    assert(seq![d1].last() == d1);
    assert(apply_fragments(calls, Seq::<ToolCallDelta>::empty(), tools) == calls);
    assert(apply_fragments(calls, seq![d1], tools) == after1);
    assert(after1.len() == calls.len() + 1);
    assert(after1.last().index == d1.index);
    assert(call_position(after1, d2.index) == Some(calls.len() as int));
    assert(after1[calls.len() as int].arguments == Seq::<char>::empty() + d1.arguments->0@);
    assert(Seq::<char>::empty() + d1.arguments->0@ =~= d1.arguments->0@);
}

/// The complete call that an assembled call becomes.
pub open spec fn completed(c: CallView, tools: Option<Vec<ToolInfo>>) -> ToolCallView {
    ToolCallView {
        id: c.id,
        name: c.name,
        arguments: c.arguments,
        server_id: resolved_server(c.name, c.server_id, tools),
    }
}

/// The complete calls that the assembled calls become, in order.
pub open spec fn completed_all(cs: Seq<CallView>, tools: Option<Vec<ToolInfo>>) -> Seq<ToolCallView> {
    cs.map_values(|c: CallView| completed(c, tools))
}

/// The text content to show for an event: its content, unless empty.
pub open spec fn shown_content(d: StreamDelta) -> Option<Seq<char>> {
    match d.content {
        Some(c) => if c@.len() > 0 {
            Some(c@)
        } else {
            None
        },
        None => None,
    }
}

/// The contents of the events, one after the other (an event without
/// content adding nothing).
pub open spec fn received_contents(ds: Seq<StreamDelta>) -> Seq<char>
    decreases ds.len(),
{
    if ds.len() == 0 {
        seq![]
    } else {
        received_contents(ds.drop_last()) + match ds.last().content {
            Some(c) => c@,
            None => seq![],
        }
    }
}

/// The contents shown for the events, one after the other.
pub open spec fn shown_contents(ds: Seq<StreamDelta>) -> Seq<char>
    decreases ds.len(),
{
    if ds.len() == 0 {
        seq![]
    } else {
        shown_contents(ds.drop_last()) + match shown_content(ds.last()) {
            Some(c) => c,
            None => seq![],
        }
    }
}

/// Every non-empty content is shown as it came, so that what is shown over
/// a stream of events is exactly all the content received, whitespace and
/// line breaks included; an event shows nothing only where its content is
/// absent or empty.
pub proof fn lemma_shown_contents_are_received(ds: Seq<StreamDelta>)
    ensures
        shown_contents(ds) == received_contents(ds),
        forall|i: int|
            0 <= i < ds.len() ==> (shown_content(#[trigger] ds[i]) is None <==> (ds[i].content
                is None || ds[i].content->0@.len() == 0)),
        forall|i: int|
            0 <= i < ds.len() && (#[trigger] ds[i]).content is Some && ds[i].content->0@.len()
                > 0 ==> shown_content(ds[i]) == Some(ds[i].content->0@),
    decreases ds.len(),
{
    if ds.len() > 0 {
        lemma_shown_contents_are_received(ds.drop_last());
        match ds.last().content {
            Some(c) => {
                if c@.len() == 0 {
                    assert(received_contents(ds.drop_last()) + c@ =~= received_contents(
                        ds.drop_last(),
                    ) + Seq::<char>::empty());
                }
            },
            None => {},
        }
        assert forall|i: int| 0 <= i < ds.len() implies (shown_content(#[trigger] ds[i]) is None
            <==> (ds[i].content is None || ds[i].content->0@.len() == 0)) by {
            if i < ds.len() - 1 {
                assert(ds[i] == ds.drop_last()[i]);
            }
        }
    }
}

/// Whether an event finishes the current tool calls.
pub open spec fn finishes_tool_calls(d: StreamDelta) -> bool {
    d.finish_reason matches Some(f) && f@ == "tool_calls"@
}

/// The state of one streamed chat response: the buffered partial line, the
/// tool calls under assembly (at most one per stream index), and the tool
/// calls already completed.
pub struct ChatStream {
    buffer: Vec<char>,
    calls: Vec<PartialCall>,
    pending: Vec<ToolCall>,
}

/// Whether no two calls share a stream index.
pub open spec fn distinct_indices(calls: Seq<CallView>) -> bool {
    forall|i: int, j: int|
        0 <= i < j < calls.len() ==> #[trigger] calls[i].index != #[trigger] calls[j].index
}

impl ChatStream {
    /// The buffered partial line.
    pub closed spec fn buffer_view(&self) -> Seq<char> {
        self.buffer@
    }

    /// The tool calls under assembly.
    pub closed spec fn calls_view(&self) -> Seq<CallView> {
        call_views(self.calls@)
    }

    /// The completed tool calls.
    pub closed spec fn pending_view(&self) -> Seq<ToolCallView> {
        tool_call_views(self.pending@)
    }

    /// A fresh stream.
    pub fn new() -> (r: ChatStream)
        ensures
            r.buffer_view() == Seq::<char>::empty(),
            r.calls_view() == Seq::<CallView>::empty(),
            r.pending_view() == Seq::<ToolCallView>::empty(),
    {
        let r = ChatStream { buffer: Vec::new(), calls: Vec::new(), pending: Vec::new() };
        assert(call_views(r.calls@) =~= Seq::<CallView>::empty());
        assert(tool_call_views(r.pending@) =~= Seq::<ToolCallView>::empty());
        r
    }

    /// Adds a received chunk (decoded as lossy UTF-8) to the buffer and returns
    /// the complete lines, trimmed, in order; the trimmed partial last line
    /// stays buffered.
    pub fn push_chunk(&mut self, chunk: &[u8]) -> (r: Vec<String>)
        ensures
            ({
                let (complete, rest) = buffered_lines(old(self).buffer_view() + lossy_text(chunk@));
                &&& r@.map_values(|s: String| s@) == complete
                &&& final(self).buffer_view() == rest
            }),
            final(self).calls_view() == old(self).calls_view(),
            final(self).pending_view() == old(self).pending_view(),
    {
        let text = from_utf8_lossy(chunk);
        assert(text@ == lossy_text(chunk@));
        let piece = chars_of(text.as_str());
        let mut buf = sub_vec(self.buffer.as_slice(), 0, self.buffer.len());
        assert(self.buffer@.subrange(0, self.buffer@.len() as int) =~= self.buffer@);
        append_chars(&mut buf, piece.as_slice());
        let ghost b = buf@;
        let pieces = crate::text::split_chars(buf.as_slice(), '\n');
        let ends_nl = buf.len() > 0 && buf[buf.len() - 1] == '\n';
        let count = if ends_nl {
            pieces.len()
        } else {
            pieces.len() - 1
        };
        let mut out: Vec<String> = Vec::new();
        let mut i: usize = 0;
        while i < count
            invariant
                0 <= i <= count <= pieces@.len(),
                pieces@.len() >= 1,
                seqs_of(pieces@) == split_on(b, '\n'),
                count == if b.len() > 0 && b.last() == '\n' {
                    pieces@.len()
                } else {
                    (pieces@.len() - 1) as nat
                },
                out@.map_values(|s: String| s@) == seqs_of(pieces@).take(i as int).map_values(
                    |l: Seq<char>| trim(l),
                ),
            decreases count - i,
        {
            let t = trim_chars(pieces[i].as_slice());
            let ghost before = out@;
            out.push(string_of(t.as_slice()));
            assert(out@.map_values(|s: String| s@) =~= seqs_of(pieces@).take(i + 1).map_values(
                |l: Seq<char>| trim(l),
            )) by {
                assert(seqs_of(pieces@)[i as int] == pieces@[i as int]@);
                assert(out@.map_values(|s: String| s@) =~= before.map_values(|s: String| s@).push(
                    trim(pieces@[i as int]@),
                ));
            }
            i = i + 1;
        }
        assert(seqs_of(pieces@).take(count as int) =~= (if b.len() > 0 && b.last() == '\n' {
            split_on(b, '\n')
        } else {
            split_on(b, '\n').drop_last()
        }));
        let last = trim_chars(pieces[pieces.len() - 1].as_slice());
        assert(seqs_of(pieces@).last() == pieces@[pieces@.len() - 1]@);
        self.buffer = last;
        out
    }

    /// Position of the call with stream index `index`.
    fn find_call(&self, index: u64) -> (r: Option<usize>)
        ensures
            match r {
                Some(k) => call_position(self.calls_view(), index) == Some(k as int) && k
                    < self.calls@.len(),
                None => call_position(self.calls_view(), index) is None,
            },
    {
        let ghost cv = call_views(self.calls@);
        let mut i = self.calls.len();
        assert(cv.take(i as int) =~= cv);
        while i > 0
            invariant
                i <= self.calls@.len(),
                cv == call_views(self.calls@),
                call_position(cv, index) == call_position(cv.take(i as int), index),
            decreases i,
        {
            assert(cv.take(i as int).drop_last() =~= cv.take(i - 1));
            if self.calls[i - 1].index == index {
                assert(cv.take(i as int).last() == self.calls@[i - 1]@);
                return Some(i - 1);
            }
            i = i - 1;
        }
        None
    }

    /// Applies one tool-call fragment.
    fn apply_one(&mut self, d: &ToolCallDelta, tools: &Option<Vec<ToolInfo>>)
        ensures
            final(self).calls_view() == apply_fragment(old(self).calls_view(), *d, *tools),
            final(self).buffer_view() == old(self).buffer_view(),
            final(self).pending_view() == old(self).pending_view(),
    {
        let ghost cv0 = call_views(self.calls@);
        let k = match self.find_call(d.index) {
            Some(k) => k,
            None => {
                self.calls.push(
                    PartialCall {
                        index: d.index,
                        id: String::new(),
                        name: String::new(),
                        arguments: String::new(),
                        server_id: String::new(),
                    },
                );
                assert(call_views(self.calls@) =~= cv0.push(
                    CallView {
                        index: d.index,
                        id: seq![],
                        name: seq![],
                        arguments: seq![],
                        server_id: seq![],
                    },
                ));
                self.calls.len() - 1
            },
        };
        let ghost cs = call_views(self.calls@);
        let c = &self.calls[k];
        let mut e = PartialCall {
            index: c.index,
            id: c.id.clone(),
            name: c.name.clone(),
            arguments: c.arguments.clone(),
            server_id: c.server_id.clone(),
        };
        assert(e@ == cs[k as int]);
        match &d.id {
            Some(id) => {
                e.id = id.clone();
            },
            None => {},
        }
        match &d.name {
            Some(n) => {
                e.name = n.clone();
                e.server_id = resolve_server_id(n.as_str(), "", tools);
                proof {
                    reveal_strlit("");
                }
            },
            None => {},
        }
        match &d.arguments {
            Some(a) => {
                e.arguments.append(a.as_str());
            },
            None => {},
        }
        let ghost before = self.calls@;
        self.calls.set(k, e);
        assert(call_views(self.calls@) =~= cs.update(k as int, e@));
    }

    /// Handles one event: applies its tool-call fragments in order, moves the
    /// assembled calls to the completed ones when it finishes them, and
    /// returns the text content to show, if any.
    pub fn apply_delta(&mut self, delta: &StreamDelta, tools: &Option<Vec<ToolInfo>>) -> (r:
        Option<String>)
        ensures
            match shown_content(*delta) {
                Some(c) => r matches Some(s) && s@ == c,
                None => r is None,
            },
            match delta.content {
                Some(c) => if c@.len() > 0 {
                    r matches Some(s) && s@ == c@
                } else {
                    r is None
                },
                None => r is None,
            },
            final(self).buffer_view() == old(self).buffer_view(),
            ({
                let cs = apply_fragments(old(self).calls_view(), delta.tool_calls@, *tools);
                if finishes_tool_calls(*delta) {
                    &&& final(self).pending_view() == old(self).pending_view() + completed_all(
                        cs,
                        *tools,
                    )
                    &&& final(self).calls_view() == Seq::<CallView>::empty()
                } else {
                    &&& final(self).pending_view() == old(self).pending_view()
                    &&& final(self).calls_view() == cs
                }
            }),
    {
        let ghost cv0 = self.calls_view();
        let mut j: usize = 0;
        assert(delta.tool_calls@.take(0) =~= Seq::<ToolCallDelta>::empty());
        while j < delta.tool_calls.len()
            invariant
                0 <= j <= delta.tool_calls@.len(),
                self.calls_view() == apply_fragments(cv0, delta.tool_calls@.take(j as int), *tools),
                self.buffer_view() == old(self).buffer_view(),
                self.pending_view() == old(self).pending_view(),
            decreases delta.tool_calls@.len() - j,
        {
            assert(delta.tool_calls@.take(j + 1).drop_last() =~= delta.tool_calls@.take(j as int));
            self.apply_one(&delta.tool_calls[j], tools);
            j = j + 1;
        }
        assert(delta.tool_calls@.take(delta.tool_calls@.len() as int) =~= delta.tool_calls@);
        let finishing = match &delta.finish_reason {
            Some(f) => {
                let fc = chars_of(f.as_str());
                let want = chars_of("tool_calls");
                chars_eq(fc.as_slice(), want.as_slice())
            },
            None => false,
        };
        if finishing {
            self.flush(tools);
        }
        match &delta.content {
            Some(c) => {
                if c.as_str().is_empty() {
                    None
                } else {
                    Some(c.clone())
                }
            },
            None => None,
        }
    }

    /// Moves the calls under assembly, completed, to the completed calls.
    fn flush(&mut self, tools: &Option<Vec<ToolInfo>>)
        ensures
            final(self).pending_view() == old(self).pending_view() + completed_all(
                old(self).calls_view(),
                *tools,
            ),
            final(self).calls_view() == Seq::<CallView>::empty(),
            final(self).buffer_view() == old(self).buffer_view(),
    {
        let ghost cv = self.calls_view();
        let ghost pv0 = self.pending_view();
        let mut i: usize = 0;
        assert(completed_all(cv.take(0), *tools) =~= Seq::<ToolCallView>::empty());
        assert(pv0 + Seq::<ToolCallView>::empty() =~= pv0);
        while i < self.calls.len()
            invariant
                0 <= i <= self.calls@.len(),
                cv == call_views(self.calls@),
                self.pending_view() == pv0 + completed_all(cv.take(i as int), *tools),
                self.buffer_view() == old(self).buffer_view(),
            decreases self.calls@.len() - i,
        {
            let c = &self.calls[i];
            let server = resolve_server_id(c.name.as_str(), c.server_id.as_str(), tools);
            let call = ToolCall {
                id: c.id.clone(),
                name: c.name.clone(),
                arguments: c.arguments.clone(),
                server_id: server,
            };
            let ghost before = self.pending@;
            assert(call@ == completed(cv[i as int], *tools));
            self.pending.push(call);
            assert(tool_call_views(self.pending@) =~= tool_call_views(before).push(call@));
            assert(completed_all(cv.take(i + 1), *tools) =~= completed_all(cv.take(i as int), *tools).push(
                completed(cv[i as int], *tools),
            ));
            i = i + 1;
        }
        assert(cv.take(cv.len() as int) =~= cv);
        self.calls = Vec::new();
        assert(call_views(self.calls@) =~= Seq::<CallView>::empty());
    }

    /// The tool calls to return at `data: [DONE]`: the completed ones, then
    /// those still under assembly, completed.
    pub fn finish_done(self, tools: &Option<Vec<ToolInfo>>) -> (r: Vec<ToolCall>)
        ensures
            tool_call_views(r@) == self.pending_view() + completed_all(self.calls_view(), *tools),
    {
        let mut s = self;
        s.flush(tools);
        s.pending
    }

    /// The tool calls to return when the stream ends without `data: [DONE]`:
    /// as at `[DONE]`, the completed ones, then those still under assembly,
    /// completed.
    pub fn finish_eof(self, tools: &Option<Vec<ToolInfo>>) -> (r: Vec<ToolCall>)
        ensures
            tool_call_views(r@) == self.pending_view() + completed_all(self.calls_view(), *tools),
    {
        let mut s = self;
        s.flush(tools);
        s.pending
    }
}

/// What a whole streamed response has produced so far, line by line: the
/// tool calls under assembly, the completed ones, the text contents shown,
/// and, once `data: [DONE]` has come, the tool calls returned.
pub struct StreamRun {
    pub calls: Seq<CallView>,
    pub pending: Seq<ToolCallView>,
    pub shown: Seq<Seq<char>>,
    pub done: Option<Seq<ToolCallView>>,
}

/// The tool calls that a run returns: those returned at `[DONE]`, or, where
/// the stream ended without it, the completed ones followed by those still
/// under assembly, completed (`finish_eof`).
pub open spec fn run_result(r: StreamRun, tools: Option<Vec<ToolInfo>>) -> Seq<ToolCallView> {
    match r.done {
        Some(calls) => calls,
        None => r.pending + completed_all(r.calls, tools),
    }
}

/// The run before any line: nothing assembled, shown or returned.
pub open spec fn initial_run() -> StreamRun {
    StreamRun { calls: seq![], pending: seq![], shown: seq![], done: None }
}

/// One trimmed line of the event stream, `json` being the reading of a
/// `data: ` payload as an event (`None` where the payload is not one): after
/// `[DONE]` nothing changes; `[DONE]` returns the completed calls and those
/// under assembly, completed (`finish_done`); an event is applied as
/// `apply_delta` applies it, and its content shown; every other line is
/// skipped.
pub open spec fn line_step(
    r: StreamRun,
    line: Seq<char>,
    json: spec_fn(Seq<char>) -> Option<StreamDelta>,
    tools: Option<Vec<ToolInfo>>,
) -> StreamRun {
    if r.done is Some {
        r
    } else {
        match data_payload(line) {
            None => r,
            Some(d) => if d == "[DONE]"@ {
                StreamRun { done: Some(r.pending + completed_all(r.calls, tools)), ..r }
            } else {
                match json(d) {
                    None => r,
                    Some(delta) => {
                        let cs = apply_fragments(r.calls, delta.tool_calls@, tools);
                        let shown = match shown_content(delta) {
                            Some(c) => r.shown.push(c),
                            None => r.shown,
                        };
                        if finishes_tool_calls(delta) {
                            StreamRun {
                                calls: seq![],
                                pending: r.pending + completed_all(cs, tools),
                                shown,
                                done: None,
                            }
                        } else {
                            StreamRun { calls: cs, pending: r.pending, shown, done: None }
                        }
                    },
                }
            },
        }
    }
}

/// The run after the lines `ls`, in order.
pub open spec fn run_lines(
    r: StreamRun,
    ls: Seq<Seq<char>>,
    json: spec_fn(Seq<char>) -> Option<StreamDelta>,
    tools: Option<Vec<ToolInfo>>,
) -> StreamRun
    decreases ls.len(),
{
    if ls.len() == 0 {
        r
    } else {
        line_step(run_lines(r, ls.drop_last(), json, tools), ls.last(), json, tools)
    }
}

/// A line that changes nothing: blank, not a `data: ` line, or a `data: `
/// line whose payload is neither `[DONE]` nor an event.
pub open spec fn ignorable(line: Seq<char>, json: spec_fn(Seq<char>) -> Option<StreamDelta>) -> bool {
    match data_payload(line) {
        None => true,
        Some(d) => d != "[DONE]"@ && json(d) is None,
    }
}

/// The bytes of the chunks, in order.
pub open spec fn concat_bytes(chunks: Seq<Seq<u8>>) -> Seq<u8>
    decreases chunks.len(),
{
    if chunks.len() == 0 {
        seq![]
    } else {
        concat_bytes(chunks.drop_last()) + chunks.last()
    }
}

/// The lines that `push_chunk` hands out, over all the chunks in order,
/// starting from a fresh stream, and what stays buffered.
pub open spec fn fed_chunks(chunks: Seq<Seq<u8>>) -> (Seq<Seq<char>>, Seq<char>)
    decreases chunks.len(),
{
    if chunks.len() == 0 {
        (seq![], seq![])
    } else {
        let (ls, rest) = fed_chunks(chunks.drop_last());
        let (more, rest2) = buffered_lines(rest + lossy_text(chunks.last()));
        (ls + more, rest2)
    }
}

/// Where a stream may be cut without changing what it yields: at its start,
/// after a newline, or after a character that is not whitespace (the
/// buffered partial line is kept trimmed).
pub open spec fn clean_cut(s: Seq<char>) -> bool {
    s.len() == 0 || s.last() == '\n' || !is_ws(s.last())
}

/// Running lines `a` and then `b` is running `a + b`.
proof fn lemma_run_append(
    r: StreamRun,
    a: Seq<Seq<char>>,
    b: Seq<Seq<char>>,
    json: spec_fn(Seq<char>) -> Option<StreamDelta>,
    tools: Option<Vec<ToolInfo>>,
)
    ensures
        run_lines(r, a + b, json, tools) == run_lines(run_lines(r, a, json, tools), b, json, tools),
    decreases b.len(),
{
    if b.len() == 0 {
        assert(a + b =~= a);
    } else {
        assert((a + b).drop_last() =~= a + b.drop_last());
        assert((a + b).last() == b.last());
        lemma_run_append(r, a, b.drop_last(), json, tools);
    }
}

/// Ignorable lines change nothing.
proof fn lemma_run_ignorable(
    r: StreamRun,
    zs: Seq<Seq<char>>,
    json: spec_fn(Seq<char>) -> Option<StreamDelta>,
    tools: Option<Vec<ToolInfo>>,
)
    requires
        forall|i: int| 0 <= i < zs.len() ==> ignorable(#[trigger] zs[i], json),
    ensures
        run_lines(r, zs, json, tools) == r,
    decreases zs.len(),
{
    if zs.len() > 0 {
        assert(ignorable(zs[zs.len() - 1], json));
        lemma_run_ignorable(r, zs.drop_last(), json, tools);
    }
}

/// Blank lines, lines that are not `data: ` lines, and `data: ` lines whose
/// payload is neither `[DONE]` nor an event, wherever they are inserted,
/// change neither the tool calls returned nor the contents shown.
pub proof fn lemma_ignorable_lines_change_nothing(
    r: StreamRun,
    xs: Seq<Seq<char>>,
    zs: Seq<Seq<char>>,
    ys: Seq<Seq<char>>,
    json: spec_fn(Seq<char>) -> Option<StreamDelta>,
    tools: Option<Vec<ToolInfo>>,
)
    requires
        forall|i: int| 0 <= i < zs.len() ==> ignorable(#[trigger] zs[i], json),
    ensures
        run_lines(r, xs + zs + ys, json, tools) == run_lines(r, xs + ys, json, tools),
{
    lemma_run_append(r, xs + zs, ys, json, tools);
    lemma_run_append(r, xs, zs, json, tools);
    lemma_run_ignorable(run_lines(r, xs, json, tools), zs, json, tools);
    lemma_run_append(r, xs, ys, json, tools);
}

/// A blank line is no `data: ` line.
proof fn lemma_blank_ignorable()
    ensures
        data_payload(Seq::<char>::empty()) is None,
{
    reveal_strlit("data: ");
}

/// Cutting the text of a stream after `s`, at a clean cut, changes nothing:
/// the lines of `s + t` run as the lines of `s` followed by those of the
/// buffered rest of `s` with `t`, and the same rest stays buffered.
proof fn lemma_one_cut(
    r: StreamRun,
    s: Seq<char>,
    t: Seq<char>,
    json: spec_fn(Seq<char>) -> Option<StreamDelta>,
    tools: Option<Vec<ToolInfo>>,
)
    requires
        clean_cut(s),
    ensures
        run_lines(r, buffered_lines(s + t).0, json, tools) == run_lines(
            run_lines(r, buffered_lines(s).0, json, tools),
            buffered_lines(buffered_lines(s).1 + t).0,
            json,
            tools,
        ),
        buffered_lines(s + t).1 == buffered_lines(buffered_lines(s).1 + t).1,
{
    let p = split_on(s, '\n');
    lemma_split_nonempty(s, '\n');
    lemma_split_pieces_exclude_sep(s, '\n');
    let x = p.last();
    let u = trim(x);
    assert(forall|j: int| 0 <= j < x.len() ==> x[j] != '\n') by {
        assert forall|j: int| 0 <= j < x.len() implies x[j] != '\n' by {
            assert(p[p.len() - 1][j] != '\n');
        }
    }
    lemma_trim_keeps_absent(x, '\n');
    lemma_split_without_sep(u, '\n');
    assert(buffered_lines(s).1 == u);
    // `x` is empty or ends with a character that is not whitespace.
    if s.len() > 0 {
        let p0 = split_on(s.drop_last(), '\n');
        lemma_split_nonempty(s.drop_last(), '\n');
        if s.last() == '\n' {
            assert(x == Seq::<char>::empty());
        } else {
            assert(x == p0.last().push(s.last()));
        }
    } else {
        assert(x == Seq::<char>::empty());
    }
    let xs = p.drop_last().map_values(|l: Seq<char>| trim(l));
    // The lines of `s` run as `xs`.
    assert(run_lines(r, buffered_lines(s).0, json, tools) == run_lines(r, xs, json, tools)) by {
        if s.len() > 0 && s.last() == '\n' {
            assert(p =~= p.drop_last().push(x));
            assert(buffered_lines(s).0 =~= xs.push(trim(x)));
            assert(trim(x) =~= Seq::<char>::empty());
            lemma_blank_ignorable();
            let ls = xs.push(Seq::<char>::empty());
            assert(ls.drop_last() =~= xs);
            assert(data_payload(ls.last()) is None);
            assert(run_lines(r, ls, json, tools) == line_step(
                run_lines(r, xs, json, tools),
                Seq::<char>::empty(),
                json,
                tools,
            ));
        } else {
            assert(buffered_lines(s).0 =~= xs);
        }
    }
    if t.len() == 0 {
        assert(s + t =~= s);
        assert(u + t =~= u);
        assert(buffered_lines(u).0 =~= Seq::<Seq<char>>::empty()) by {
            if u.len() > 0 {
                assert(u[u.len() - 1] != '\n');
            }
        }
        lemma_trim_idempotent(x);
        if s.len() > 0 && s.last() == '\n' {
            lemma_split_nonempty(s, '\n');
        }
    } else {
        let q = split_on(t, '\n');
        lemma_split_nonempty(t, '\n');
        lemma_split_concat(s, t, '\n');
        lemma_split_concat(u, t, '\n');
        assert(seq![u].drop_last() =~= Seq::<Seq<char>>::empty());
        let qx = q.update(0, x + q[0]);
        let qu = q.update(0, u + q[0]);
        assert(split_on(s + t, '\n') == p.drop_last() + qx);
        assert(split_on(u + t, '\n') =~= qu);
        lemma_trim_after_trim(x, q[0]);
        let tx = qx.map_values(|l: Seq<char>| trim(l));
        let tu = qu.map_values(|l: Seq<char>| trim(l));
        assert(tx =~= tu);
        assert((s + t).last() == t.last());
        assert((u + t).last() == t.last());
        assert((p.drop_last() + qx).map_values(|l: Seq<char>| trim(l)) =~= xs + tx);
        if t.last() == '\n' {
            assert(buffered_lines(s + t).0 =~= xs + tu);
            assert(buffered_lines(u + t).0 =~= tu);
        } else {
            assert((p.drop_last() + qx).drop_last() =~= p.drop_last() + qx.drop_last());
            assert(qx.drop_last().map_values(|l: Seq<char>| trim(l)) =~= tu.drop_last());
            assert(buffered_lines(s + t).0 =~= xs + tu.drop_last());
            assert(buffered_lines(u + t).0 =~= tu.drop_last());
        }
        assert((p.drop_last() + qx).last() == qx.last());
        assert(trim(qx.last()) == tx[tx.len() - 1]);
        assert(trim(qu.last()) == tu[tu.len() - 1]);
        lemma_run_append(r, xs, buffered_lines(u + t).0, json, tools);
    }
}

/// The chunks of `chunks.take(k)` decode, together, as valid UTF-8.
proof fn lemma_concat_valid(chunks: Seq<Seq<u8>>, k: int)
    requires
        0 <= k <= chunks.len(),
        forall|i: int| 0 <= i < chunks.len() ==> valid_utf8(#[trigger] chunks[i]),
    ensures
        valid_utf8(concat_bytes(chunks.take(k))),
    decreases k,
{
    if k > 0 {
        lemma_concat_valid(chunks, k - 1);
        assert(chunks.take(k).drop_last() =~= chunks.take(k - 1));
        assert(valid_utf8(chunks[k - 1]));
        lemma_decode_concat(concat_bytes(chunks.take(k - 1)), chunks[k - 1]);
    } else {
        assert(concat_bytes(chunks.take(0)) == Seq::<u8>::empty());
        assert(valid_utf8(Seq::<u8>::empty())) by {
            reveal_with_fuel(valid_utf8, 1);
        }
    }
}

/// The first `k` chunks yield, line by line, what their text yields read in
/// one piece.
proof fn lemma_chunking_prefix(
    r: StreamRun,
    chunks: Seq<Seq<u8>>,
    k: int,
    json: spec_fn(Seq<char>) -> Option<StreamDelta>,
    tools: Option<Vec<ToolInfo>>,
)
    requires
        0 <= k <= chunks.len(),
        forall|i: int| 0 <= i < chunks.len() ==> valid_utf8(#[trigger] chunks[i]),
        forall|j: int|
            1 <= j < chunks.len() ==> clean_cut(decode_utf8(concat_bytes(#[trigger] chunks.take(j)))),
    ensures
        ({
            let whole = buffered_lines(decode_utf8(concat_bytes(chunks.take(k))));
            &&& run_lines(r, fed_chunks(chunks.take(k)).0, json, tools) == run_lines(
                r,
                whole.0,
                json,
                tools,
            )
            &&& fed_chunks(chunks.take(k)).1 == whole.1
        }),
    decreases k,
{
    if k == 0 {
        assert(chunks.take(0) =~= Seq::<Seq<u8>>::empty());
        assert(decode_utf8(Seq::<u8>::empty()) =~= Seq::<char>::empty());
        assert(split_on(Seq::<char>::empty(), '\n') == seq![Seq::<char>::empty()]);
        assert(buffered_lines(Seq::<char>::empty()).0 =~= Seq::<Seq<char>>::empty());
        assert(trim(Seq::<char>::empty()) =~= Seq::<char>::empty());
    } else {
        lemma_chunking_prefix(r, chunks, k - 1, json, tools);
        let prev = chunks.take(k - 1);
        let c = chunks[k - 1];
        assert(chunks.take(k).drop_last() =~= prev);
        assert(chunks.take(k).last() == c);
        assert(valid_utf8(c));
        lemma_concat_valid(chunks, k - 1);
        lemma_decode_concat(concat_bytes(prev), c);
        let sk = decode_utf8(concat_bytes(prev));
        let t = decode_utf8(c);
        assert(lossy_text(c) == t);
        assert(decode_utf8(concat_bytes(chunks.take(k))) == sk + t);
        if k - 1 >= 1 {
            assert(clean_cut(decode_utf8(concat_bytes(chunks.take(k - 1)))));
        } else {
            assert(concat_bytes(prev) == Seq::<u8>::empty());
            assert(decode_utf8(Seq::<u8>::empty()) =~= Seq::<char>::empty());
        }
        lemma_one_cut(r, sk, t, json, tools);
        let fed = fed_chunks(prev);
        let more = buffered_lines(fed.1 + t).0;
        lemma_run_append(r, fed.0, more, json, tools);
    }
}

/// Cutting a stream into chunks differently changes neither the tool calls
/// returned nor the contents shown, where every chunk is valid UTF-8 and
/// every cut comes after a newline or after a character that is not
/// whitespace: the lines that `push_chunk` hands out over the chunks run as
/// the lines of the whole text read in one piece, and the same partial line
/// stays buffered.
pub proof fn lemma_chunking_keeps_outcome(
    r: StreamRun,
    chunks: Seq<Seq<u8>>,
    json: spec_fn(Seq<char>) -> Option<StreamDelta>,
    tools: Option<Vec<ToolInfo>>,
)
    requires
        forall|i: int| 0 <= i < chunks.len() ==> valid_utf8(#[trigger] chunks[i]),
        forall|j: int|
            1 <= j < chunks.len() ==> clean_cut(decode_utf8(concat_bytes(#[trigger] chunks.take(j)))),
    ensures
        run_lines(r, fed_chunks(chunks).0, json, tools) == run_lines(
            r,
            buffered_lines(decode_utf8(concat_bytes(chunks))).0,
            json,
            tools,
        ),
        fed_chunks(chunks).1 == buffered_lines(decode_utf8(concat_bytes(chunks))).1,
{
    lemma_chunking_prefix(r, chunks, chunks.len() as int, json, tools);
    assert(chunks.take(chunks.len() as int) =~= chunks);
}

} // verus!
