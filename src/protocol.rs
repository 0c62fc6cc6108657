use vstd::prelude::*;

use crate::text::{decimal, push_decimal, same_text};

verus! {

/// Whether `line` holds exactly one JSON document.
pub uninterp spec fn json_parses(line: Seq<char>) -> bool;

/// The string found at the JSON pointer `pointer` in the document held by `line`, if the
/// line is a document and the pointer leads to a string.
pub uninterp spec fn json_text_at(line: Seq<char>, pointer: Seq<char>) -> Option<Seq<char>>;

/// A hexadecimal digit, lower case.
pub open spec fn hex_digit(n: nat) -> char {
    if n < 10 {
        (48 + n) as char
    } else {
        (87 + n) as char
    }
}

/// How a JSON string writes one character: quote and backslash escaped, the five control
/// characters with short escapes written so, the other control characters as `\u00XX`,
/// everything else as it is.
pub open spec fn json_escaped_char(c: char) -> Seq<char> {
    if c == '"' {
        seq!['\\', '"']
    } else if c == '\\' {
        seq!['\\', '\\']
    } else if c == '\u{8}' {
        seq!['\\', 'b']
    } else if c == '\t' {
        seq!['\\', 't']
    } else if c == '\n' {
        seq!['\\', 'n']
    } else if c == '\u{c}' {
        seq!['\\', 'f']
    } else if c == '\r' {
        seq!['\\', 'r']
    } else if (c as u32) < 0x20 {
        seq!['\\', 'u', '0', '0', hex_digit((c as u32 / 16) as nat), hex_digit((c as u32 % 16) as nat)]
    } else {
        seq![c]
    }
}

/// The characters of `s`, each written as a JSON string writes it.
pub open spec fn json_escaped(s: Seq<char>) -> Seq<char>
    decreases s.len(),
{
    if s.len() == 0 {
        Seq::empty()
    } else {
        json_escaped(s.drop_last()) + json_escaped_char(s.last())
    }
}

/// The JSON string literal that encodes `s`: its escaped characters between quotes.
pub open spec fn json_quoted(s: Seq<char>) -> Seq<char> {
    seq!['"'] + json_escaped(s) + seq!['"']
}

pub open spec fn no_line_feed(s: Seq<char>) -> bool {
    forall|i: int| 0 <= i < s.len() ==> s[i] != '\n'
}

proof fn lemma_no_line_feed_concat(a: Seq<char>, b: Seq<char>)
    requires
        no_line_feed(a),
        no_line_feed(b),
    ensures
        no_line_feed(a + b),
{
    assert forall|i: int| 0 <= i < (a + b).len() implies (a + b)[i] != '\n' by {
        if i < a.len() {
            assert((a + b)[i] == a[i]);
        } else {
            assert((a + b)[i] == b[i - a.len()]);
        }
    }
}

proof fn lemma_escaped_no_line_feed(s: Seq<char>)
    ensures
        no_line_feed(json_escaped(s)),
    decreases s.len(),
{
    if s.len() > 0 {
        lemma_escaped_no_line_feed(s.drop_last());
        let c = s.last();
        let e = json_escaped_char(c);
        if !(c == '"' || c == '\\' || c == '\u{8}' || c == '\t' || c == '\n' || c == '\u{c}' || c
            == '\r') && (c as u32) < 0x20 {
            let hi = (c as u32 / 16) as nat;
            let lo = (c as u32 % 16) as nat;
            assert(hex_digit(hi) as u32 == if hi < 10 { 48 + hi } else { 87 + hi });
            assert(hex_digit(lo) as u32 == if lo < 10 { 48 + lo } else { 87 + lo });
        }
        assert(no_line_feed(e));
        lemma_no_line_feed_concat(json_escaped(s.drop_last()), e);
    }
}

/// Relies on `serde_json::from_str::<Value>`: it succeeds exactly on one JSON document.
#[verifier::external_body]
pub(crate) fn parses_as_json(line: &str) -> (r: bool)
    ensures
        r == json_parses(line@),
{
    serde_json::from_str::<serde_json::Value>(line).is_ok()
}

/// Relies on `serde_json::from_str::<Value>` and `Value::pointer`: the string reached by
/// following `pointer` through the parsed document.
#[verifier::external_body]
pub(crate) fn text_at(line: &str, pointer: &str) -> (r: Option<String>)
    ensures
        match r {
            Some(t) => json_text_at(line@, pointer@) == Some(t@),
            None => json_text_at(line@, pointer@) is None,
        },
{
    let v: serde_json::Value = match serde_json::from_str(line) {
        Ok(v) => v,
        Err(_) => return None,
    };
    match v.pointer(pointer) {
        Some(serde_json::Value::String(s)) => Some(s.clone()),
        _ => None,
    }
}

/// Relies on `serde_json::to_string` on a `str` (`format_escaped_str`): the string between
/// quotes, escaped as `json_escaped_char` says. Writing a string into memory does not fail.
#[verifier::external_body]
fn quote_json(s: &str) -> (r: String)
    ensures
        r@ == json_quoted(s@),
{
    match serde_json::to_string(s) {
        Ok(t) => t,
        Err(_) => String::new(),
    }
}

/// One event of the agent's output stream.
pub enum PiEvent {
    AgentStart,
    TextDelta(String),
    ThinkingDelta(String),
    ToolStart { name: String },
    ToolUpdate(String),
    ToolEnd,
    AgentEnd,
    Error(String),
}

/// The mathematical value of a `PiEvent`.
pub ghost enum EventView {
    AgentStart,
    TextDelta(Seq<char>),
    ThinkingDelta(Seq<char>),
    ToolStart(Seq<char>),
    ToolUpdate(Seq<char>),
    ToolEnd,
    AgentEnd,
    Error(Seq<char>),
}

impl View for PiEvent {
    type V = EventView;

    open spec fn view(&self) -> EventView {
        match self {
            PiEvent::AgentStart => EventView::AgentStart,
            PiEvent::TextDelta(t) => EventView::TextDelta(t@),
            PiEvent::ThinkingDelta(t) => EventView::ThinkingDelta(t@),
            PiEvent::ToolStart { name } => EventView::ToolStart(name@),
            PiEvent::ToolUpdate(t) => EventView::ToolUpdate(t@),
            PiEvent::ToolEnd => EventView::ToolEnd,
            PiEvent::AgentEnd => EventView::AgentEnd,
            PiEvent::Error(t) => EventView::Error(t@),
        }
    }
}

/// The string fields of one protocol line that decoding looks at.
pub struct RawEvent {
    /// `/type`
    pub kind: Option<String>,
    /// `/assistantMessageEvent/type`
    pub delta_kind: Option<String>,
    /// `/assistantMessageEvent/delta`
    pub delta: Option<String>,
    /// `/assistantMessageEvent/partial/name`
    pub partial_name: Option<String>,
    /// `/assistantMessageEvent/reason`
    pub reason: Option<String>,
    /// `/tool/name`
    pub tool_name: Option<String>,
    /// `/output`
    pub output: Option<String>,
    /// `/error`
    pub error: Option<String>,
}

pub ghost struct RawEventView {
    pub kind: Option<Seq<char>>,
    pub delta_kind: Option<Seq<char>>,
    pub delta: Option<Seq<char>>,
    pub partial_name: Option<Seq<char>>,
    pub reason: Option<Seq<char>>,
    pub tool_name: Option<Seq<char>>,
    pub output: Option<Seq<char>>,
    pub error: Option<Seq<char>>,
}

pub open spec fn opt_view(o: Option<String>) -> Option<Seq<char>> {
    match o {
        Some(s) => Some(s@),
        None => None,
    }
}

impl View for RawEvent {
    type V = RawEventView;

    open spec fn view(&self) -> RawEventView {
        RawEventView {
            kind: opt_view(self.kind),
            delta_kind: opt_view(self.delta_kind),
            delta: opt_view(self.delta),
            partial_name: opt_view(self.partial_name),
            reason: opt_view(self.reason),
            tool_name: opt_view(self.tool_name),
            output: opt_view(self.output),
            error: opt_view(self.error),
        }
    }
}

pub open spec fn text_or(o: Option<Seq<char>>, default: Seq<char>) -> Seq<char> {
    match o {
        Some(t) => t,
        None => default,
    }
}

/// The event that a message update with these fields stands for.
pub open spec fn update_event_of_raw(r: RawEventView) -> EventView {
    let dk = text_or(r.delta_kind, Seq::empty());
    let delta = text_or(r.delta, Seq::empty());
    if dk == "text_delta"@ {
        EventView::TextDelta(delta)
    } else if dk == "thinking_delta"@ {
        EventView::ThinkingDelta(delta)
    } else if dk == "toolcall_start"@ {
        EventView::ToolStart(text_or(r.partial_name, "unknown"@))
    } else if dk == "toolcall_delta"@ {
        EventView::ToolUpdate(delta)
    } else if dk == "done"@ {
        EventView::AgentEnd
    } else if dk == "error"@ {
        EventView::Error(text_or(r.reason, "unknown error"@))
    } else {
        EventView::TextDelta(Seq::empty())
    }
}

/// The event that a line with these fields stands for. Unknown kinds, at the top level
/// or inside a message update, give an empty text delta.
pub open spec fn event_of_raw(r: RawEventView) -> EventView {
    let kind = text_or(r.kind, Seq::empty());
    if kind == "agent_start"@ {
        EventView::AgentStart
    } else if kind == "agent_end"@ {
        EventView::AgentEnd
    } else if kind == "message_update"@ {
        update_event_of_raw(r)
    } else if kind == "tool_execution_start"@ {
        EventView::ToolStart(text_or(r.tool_name, "tool"@))
    } else if kind == "tool_execution_update"@ {
        EventView::ToolUpdate(text_or(r.output, Seq::empty()))
    } else if kind == "tool_execution_end"@ {
        EventView::ToolEnd
    } else if kind == "error"@ {
        EventView::Error(text_or(r.error, "unknown error"@))
    } else {
        EventView::TextDelta(Seq::empty())
    }
}

/// The fields of `line` that decoding reads.
pub open spec fn fields_of(line: Seq<char>) -> RawEventView {
    RawEventView {
        kind: json_text_at(line, "/type"@),
        delta_kind: json_text_at(line, "/assistantMessageEvent/type"@),
        delta: json_text_at(line, "/assistantMessageEvent/delta"@),
        partial_name: json_text_at(line, "/assistantMessageEvent/partial/name"@),
        reason: json_text_at(line, "/assistantMessageEvent/reason"@),
        tool_name: json_text_at(line, "/tool/name"@),
        output: json_text_at(line, "/output"@),
        error: json_text_at(line, "/error"@),
    }
}

/// The event that one inbound line decodes to: an error carrying the line where it is no
/// JSON document.
pub open spec fn decoded(line: Seq<char>) -> EventView {
    if json_parses(line) {
        event_of_raw(fields_of(line))
    } else {
        EventView::Error("Invalid JSON: "@ + line)
    }
}

/// The codec is permissive: a line that is no JSON document becomes an error event that
/// carries the line, and a document whose kind is not one the protocol knows becomes an
/// empty text delta, so that additions to the protocol never stop the stream.
pub proof fn lemma_decoding_is_permissive(line: Seq<char>)
    ensures
        !json_parses(line) ==> decoded(line) == EventView::Error("Invalid JSON: "@ + line),
        ({
            let kind = text_or(json_text_at(line, "/type"@), Seq::empty());
            json_parses(line) && kind != "agent_start"@ && kind != "agent_end"@ && kind
                != "message_update"@ && kind != "tool_execution_start"@ && kind
                != "tool_execution_update"@ && kind != "tool_execution_end"@ && kind != "error"@
                ==> decoded(line) == EventView::TextDelta(Seq::empty())
        }),
{
}

fn text_or_default(o: &Option<String>, default: &str) -> (r: String)
    ensures
        r@ == text_or(opt_view(*o), default@),
{
    match o {
        Some(t) => t.clone(),
        None => String::from_str(default),
    }
}

fn update_event(raw: &RawEvent) -> (e: PiEvent)
    ensures
        e@ == update_event_of_raw(raw@),
{
    proof {
        reveal_strlit("");
        assert(""@ =~= Seq::<char>::empty());
    }
    let dk = text_or_default(&raw.delta_kind, "");
    let dk = dk.as_str();
    let delta = text_or_default(&raw.delta, "");
    if same_text(dk, "text_delta") {
        PiEvent::TextDelta(delta)
    } else if same_text(dk, "thinking_delta") {
        PiEvent::ThinkingDelta(delta)
    } else if same_text(dk, "toolcall_start") {
        PiEvent::ToolStart { name: text_or_default(&raw.partial_name, "unknown") }
    } else if same_text(dk, "toolcall_delta") {
        PiEvent::ToolUpdate(delta)
    } else if same_text(dk, "done") {
        PiEvent::AgentEnd
    } else if same_text(dk, "error") {
        PiEvent::Error(text_or_default(&raw.reason, "unknown error"))
    } else {
        PiEvent::TextDelta(String::new())
    }
}

/// Decodes the fields of one line into an event.
pub fn event_from_raw(raw: &RawEvent) -> (e: PiEvent)
    ensures
        e@ == event_of_raw(raw@),
{
    proof {
        reveal_strlit("");
        assert(""@ =~= Seq::<char>::empty());
    }
    let kind = text_or_default(&raw.kind, "");
    let kind = kind.as_str();
    if same_text(kind, "agent_start") {
        PiEvent::AgentStart
    } else if same_text(kind, "agent_end") {
        PiEvent::AgentEnd
    } else if same_text(kind, "message_update") {
        update_event(raw)
    } else if same_text(kind, "tool_execution_start") {
        PiEvent::ToolStart { name: text_or_default(&raw.tool_name, "tool") }
    } else if same_text(kind, "tool_execution_update") {
        PiEvent::ToolUpdate(text_or_default(&raw.output, ""))
    } else if same_text(kind, "tool_execution_end") {
        PiEvent::ToolEnd
    } else if same_text(kind, "error") {
        PiEvent::Error(text_or_default(&raw.error, "unknown error"))
    } else {
        PiEvent::TextDelta(String::new())
    }
}

/// Decodes one line of the agent's output. Never fails: a line that is no JSON document
/// becomes an error event that carries it.
pub fn parse_rpc_event(line: &str) -> (e: PiEvent)
    ensures
        e@ == decoded(line@),
{
    proof {
        reveal_strlit("");
        assert(""@ =~= Seq::<char>::empty());
    }
    if !parses_as_json(line) {
        let mut msg = String::from_str("Invalid JSON: ");
        msg.append(line);
        return PiEvent::Error(msg);
    }
    let kind = text_at(line, "/type");
    let kind_text = text_or_default(&kind, "");
    let kt = kind_text.as_str();
    let mut raw = RawEvent {
        kind,
        delta_kind: None,
        delta: None,
        partial_name: None,
        reason: None,
        tool_name: None,
        output: None,
        error: None,
    };
    if same_text(kt, "message_update") {
        raw.delta_kind = text_at(line, "/assistantMessageEvent/type");
        raw.delta = text_at(line, "/assistantMessageEvent/delta");
        raw.partial_name = text_at(line, "/assistantMessageEvent/partial/name");
        raw.reason = text_at(line, "/assistantMessageEvent/reason");
    } else if same_text(kt, "tool_execution_start") {
        raw.tool_name = text_at(line, "/tool/name");
    } else if same_text(kt, "tool_execution_update") {
        raw.output = text_at(line, "/output");
    } else if same_text(kt, "error") {
        raw.error = text_at(line, "/error");
    }
    event_from_raw(&raw)
}

/// What an outbound request asks of the agent.
#[derive(Clone, Copy, PartialEq, Eq, Structural)]
pub enum RequestKind {
    Prompt,
    Steer,
    FollowUp,
}

pub open spec fn request_kind_text(k: RequestKind) -> Seq<char> {
    match k {
        RequestKind::Prompt => "prompt"@,
        RequestKind::Steer => "steer"@,
        RequestKind::FollowUp => "follow_up"@,
    }
}

/// The newline-terminated line that sends `message` as request number `id`.
pub open spec fn request_line(id: nat, kind: RequestKind, message: Seq<char>) -> Seq<char> {
    "{\"id\":\"req-"@ + decimal(id) + "\",\"type\":\""@ + request_kind_text(kind)
        + "\",\"message\":"@ + json_quoted(message) + "}\n"@
}

/// An encoded request is exactly one line: it ends with a line feed and holds no other.
pub proof fn lemma_request_is_one_line(id: nat, kind: RequestKind, message: Seq<char>)
    ensures
        request_line(id, kind, message).len() >= 1,
        request_line(id, kind, message).last() == '\n',
        no_line_feed(request_line(id, kind, message).drop_last()),
{
    reveal_strlit("{\"id\":\"req-");
    reveal_strlit("\",\"type\":\"");
    reveal_strlit("\",\"message\":");
    reveal_strlit("}\n");
    reveal_strlit("prompt");
    reveal_strlit("steer");
    reveal_strlit("follow_up");
    crate::text::lemma_decimal_value(id);
    lemma_escaped_no_line_feed(message);
    let d = decimal(id);
    assert(no_line_feed(d)) by {
        assert forall|i: int| 0 <= i < d.len() implies d[i] != '\n' by {
            assert(crate::text::is_digit(d[i]));
        }
    }
    let q = json_quoted(message);
    lemma_no_line_feed_concat(seq!['"'], json_escaped(message));
    lemma_no_line_feed_concat(seq!['"'] + json_escaped(message), seq!['"']);
    let a = "{\"id\":\"req-"@;
    let b = "\",\"type\":\""@;
    let c = "\",\"message\":"@;
    let k = request_kind_text(kind);
    assert(no_line_feed(a));
    assert(no_line_feed(b));
    assert(no_line_feed(c));
    assert(no_line_feed(k));
    lemma_no_line_feed_concat(a, d);
    lemma_no_line_feed_concat(a + d, b);
    lemma_no_line_feed_concat(a + d + b, k);
    lemma_no_line_feed_concat(a + d + b + k, c);
    lemma_no_line_feed_concat(a + d + b + k + c, q);
    lemma_no_line_feed_concat(a + d + b + k + c + q, seq!['}']);
    let core = a + d + b + k + c + q;
    assert("}\n"@ =~= seq!['}', '\n']);
    assert(request_line(id, kind, message) =~= (core + seq!['}']).push('\n'));
    assert((core + seq!['}']).push('\n').drop_last() =~= core + seq!['}']);
}

/// Numbers the requests sent to one agent process: `req-1`, `req-2`, ...
pub struct RequestEncoder {
    sent: u64,
}

impl View for RequestEncoder {
    /// How many requests have been encoded.
    type V = nat;

    closed spec fn view(&self) -> nat {
        self.sent as nat
    }
}

impl RequestEncoder {
    pub fn new() -> (r: Self)
        ensures
            r@ == 0,
    {
        RequestEncoder { sent: 0 }
    }

    /// How many requests have been encoded.
    pub fn sent(&self) -> (r: u64)
        ensures
            r == self@,
    {
        self.sent
    }

    /// Encodes the next request; its number is one more than the last one's.
    pub fn encode(&mut self, kind: RequestKind, message: &str) -> (line: String)
        requires
            old(self)@ < u64::MAX,
        ensures
            final(self)@ == old(self)@ + 1,
            line@ == request_line(final(self)@, kind, message@),
    {
        self.sent = self.sent + 1;
        let mut line = String::from_str("{\"id\":\"req-");
        push_decimal(&mut line, self.sent);
        line.append("\",\"type\":\"");
        match kind {
            RequestKind::Prompt => line.append("prompt"),
            RequestKind::Steer => line.append("steer"),
            RequestKind::FollowUp => line.append("follow_up"),
        }
        line.append("\",\"message\":");
        let quoted = quote_json(message);
        line.append(quoted.as_str());
        line.append("}\n");
        line
    }
}

} // verus!
