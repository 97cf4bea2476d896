//! Chat messages with a deterministic serialization: the key order of a message is
//! fixed, so the bytes of a prompt prefix are stable.

use crate::digest::{blake3_digest, blake3_hash};
use crate::json::{Json, JsonV, gives, jsons, lacks, lemma_view, members, plain, text_of, text_value};
use crate::text::{chars_of, string_of_range};
use vstd::prelude::*;
use vstd::utf8::encode_utf8;

verus! {

#[derive(Debug, Clone, Copy, PartialEq, Eq, Hash, Structural)]
pub enum Role {
    System,
    Developer,
    User,
    Assistant,
    Tool,
}

impl Role {
    pub open spec fn name(self) -> Seq<char> {
        match self {
            Role::System => "system"@,
            Role::Developer => "developer"@,
            Role::User => "user"@,
            Role::Assistant => "assistant"@,
            Role::Tool => "tool"@,
        }
    }

    pub fn as_str(self) -> (r: &'static str)
        ensures
            r@ == self.name(),
    {
        match self {
            Role::System => "system",
            Role::Developer => "developer",
            Role::User => "user",
            Role::Assistant => "assistant",
            Role::Tool => "tool",
        }
    }
}

/// A call of a tool, with its arguments as a JSON object.
#[derive(Debug)]
pub struct ToolCall {
    pub id: String,
    pub name: String,
    pub arguments: Json,
}

pub struct ToolCallV {
    pub id: Seq<char>,
    pub name: Seq<char>,
    pub arguments: JsonV,
}

impl View for ToolCall {
    type V = ToolCallV;

    open spec fn view(&self) -> ToolCallV {
        ToolCallV { id: self.id@, name: self.name@, arguments: self.arguments@ }
    }
}

pub open spec fn calls_view(v: Seq<ToolCall>) -> Seq<ToolCallV> {
    Seq::new(v.len(), |i: int| v[i]@)
}

impl ToolCallV {
    /// The bytes that identify a call in loop detection: its name and its arguments.
    pub open spec fn fingerprint_bytes(self) -> Seq<u8> {
        encode_utf8(self.name) + seq![0u8] + encode_utf8(text_of(self.arguments))
    }

    pub open spec fn fingerprint(self) -> Seq<u8> {
        blake3_digest(self.fingerprint_bytes())
    }
}

/// Appends bytes.
pub fn push_bytes(out: &mut Vec<u8>, b: &[u8])
    ensures
        final(out)@ == old(out)@ + b@,
{
    let mut i: usize = 0;
    while i < b.len()
        invariant
            i <= b.len(),
            out@ == old(out)@ + b@.take(i as int),
        decreases b.len() - i,
    {
        out.push(b[i]);
        i += 1;
    }
    assert(b@.take(b@.len() as int) =~= b@);
}

impl ToolCall {
    /// Digest of name and arguments, for loop detection.
    pub fn fingerprint(&self) -> (r: [u8; 32])
        ensures
            r@ == self@.fingerprint(),
    {
        let mut b: Vec<u8> = Vec::new();
        push_bytes(&mut b, self.name.as_str().as_bytes());
        b.push(0u8);
        let args = self.arguments.to_text();
        push_bytes(&mut b, args.as_str().as_bytes());
        assert(b@ =~= self@.fingerprint_bytes());
        blake3_hash(b.as_slice())
    }

    pub fn copy(&self) -> (r: ToolCall)
        ensures
            r@ == self@,
    {
        ToolCall { id: self.id.clone(), name: self.name.clone(), arguments: self.arguments.copy() }
    }
}

/// Copies a list of calls.
pub fn copy_calls(v: &Vec<ToolCall>) -> (r: Vec<ToolCall>)
    ensures
        calls_view(r@) == calls_view(v@),
{
    let mut out: Vec<ToolCall> = Vec::new();
    let mut i: usize = 0;
    while i < v.len()
        invariant
            i <= v.len(),
            calls_view(out@) == calls_view(v@).take(i as int),
        decreases v.len() - i,
    {
        let ghost before = out@;
        out.push(v[i].copy());
        assert(calls_view(out@) =~= calls_view(before).push(v@[i as int]@));
        i += 1;
    }
    assert(calls_view(v@).take(v@.len() as int) =~= calls_view(v@));
    out
}

pub open spec fn opt_string(s: Option<String>) -> Option<Seq<char>> {
    match s {
        Some(t) => Some(t@),
        None => None,
    }
}

/// What is known of a message beside what is sent.
#[derive(Debug)]
pub struct MsgMeta {
    pub turn: u32,
    pub tool_name: Option<String>,
    pub is_error: bool,
    pub truncated: bool,
    /// Where the full text of a shortened tool result lies.
    pub spill_path: Option<String>,
    /// Marks the summary that a compaction leaves.
    pub is_summary: bool,
    /// Marks the message that carries the repository map.
    pub is_repo_map: bool,
    /// Reasoning text, kept for display and never sent again.
    pub reasoning: Option<String>,
}

pub struct MsgMetaV {
    pub turn: u32,
    pub tool_name: Option<Seq<char>>,
    pub is_error: bool,
    pub truncated: bool,
    pub spill_path: Option<Seq<char>>,
    pub is_summary: bool,
    pub is_repo_map: bool,
    pub reasoning: Option<Seq<char>>,
}

impl View for MsgMeta {
    type V = MsgMetaV;

    open spec fn view(&self) -> MsgMetaV {
        MsgMetaV {
            turn: self.turn,
            tool_name: opt_string(self.tool_name),
            is_error: self.is_error,
            truncated: self.truncated,
            spill_path: opt_string(self.spill_path),
            is_summary: self.is_summary,
            is_repo_map: self.is_repo_map,
            reasoning: opt_string(self.reasoning),
        }
    }
}

impl MsgMetaV {
    pub open spec fn empty() -> MsgMetaV {
        MsgMetaV {
            turn: 0,
            tool_name: None,
            is_error: false,
            truncated: false,
            spill_path: None,
            is_summary: false,
            is_repo_map: false,
            reasoning: None,
        }
    }
}

impl Default for MsgMeta {
    fn default() -> (r: MsgMeta)
        ensures
            r@ == MsgMetaV::empty(),
    {
        MsgMeta {
            turn: 0,
            tool_name: None,
            is_error: false,
            truncated: false,
            spill_path: None,
            is_summary: false,
            is_repo_map: false,
            reasoning: None,
        }
    }
}

pub fn copy_opt(s: &Option<String>) -> (r: Option<String>)
    ensures
        opt_string(r) == opt_string(*s),
{
    match s {
        Some(t) => Some(t.clone()),
        None => None,
    }
}

#[derive(Debug)]
pub struct Message {
    pub role: Role,
    pub content: String,
    pub tool_calls: Vec<ToolCall>,
    pub tool_call_id: Option<String>,
    /// The token count of the message, once it is known.
    pub tokens: Option<u32>,
    pub meta: MsgMeta,
}

pub struct MessageV {
    pub role: Role,
    pub content: Seq<char>,
    pub tool_calls: Seq<ToolCallV>,
    pub tool_call_id: Option<Seq<char>>,
    pub tokens: Option<u32>,
    pub meta: MsgMetaV,
}

impl View for Message {
    type V = MessageV;

    open spec fn view(&self) -> MessageV {
        MessageV {
            role: self.role,
            content: self.content@,
            tool_calls: calls_view(self.tool_calls@),
            tool_call_id: opt_string(self.tool_call_id),
            tokens: self.tokens,
            meta: self.meta@,
        }
    }
}

pub open spec fn messages(v: Seq<Message>) -> Seq<MessageV> {
    Seq::new(v.len(), |i: int| v[i]@)
}

/// What a call is sent as.
pub open spec fn call_value(c: ToolCallV) -> JsonV {
    JsonV::Object(
        seq![
            ("id"@, JsonV::Str(c.id)),
            ("type"@, JsonV::Str("function"@)),
            (
                "function"@,
                JsonV::Object(
                    seq![("name"@, JsonV::Str(c.name)), ("arguments"@, JsonV::Str(text_of(c.arguments)))],
                ),
            ),
        ],
    )
}

impl MessageV {
    /// A message with a role and a text and nothing else.
    pub open spec fn plain(role: Role, content: Seq<char>) -> MessageV {
        MessageV {
            role,
            content,
            tool_calls: Seq::empty(),
            tool_call_id: None,
            tokens: None,
            meta: MsgMetaV::empty(),
        }
    }

    /// What the message is sent as: its keys in the order `role`, `content`,
    /// `tool_calls`, `tool_call_id`, the last two only where there is something to
    /// say.
    pub open spec fn value(self) -> JsonV {
        let head = seq![("role"@, JsonV::Str(self.role.name())), ("content"@, JsonV::Str(self.content))];
        let calls = if self.tool_calls.len() > 0 {
            seq![
                (
                    "tool_calls"@,
                    JsonV::Array(Seq::new(self.tool_calls.len(), |i: int| call_value(self.tool_calls[i]))),
                ),
            ]
        } else {
            Seq::empty()
        };
        let id = match self.tool_call_id {
            Some(id) => seq![("tool_call_id"@, JsonV::Str(id))],
            None => Seq::empty(),
        };
        JsonV::Object(head + calls + id)
    }
}

/// What is noted of a message is never sent: messages that differ in nothing else are sent
/// alike.
pub proof fn law_notes_are_never_sent(m: MessageV, meta: MsgMetaV, tokens: Option<u32>)
    ensures
        (MessageV { meta, tokens, ..m }).value() == m.value(),
{
    let other = MessageV { meta, tokens, ..m };
    let calls = Seq::new(m.tool_calls.len(), |i: int| call_value(m.tool_calls[i]));
    assert(Seq::new(other.tool_calls.len(), |i: int| call_value(other.tool_calls[i])) =~= calls);
}

/// Makes an object out of its members.
pub fn object(m: Vec<(String, Json)>) -> (r: Json)
    ensures
        r@ == JsonV::Object(members(m@)),
{
    let r = Json::Object(m);
    proof {
        lemma_view(r);
    }
    r
}

/// Makes an array out of its items.
pub fn array(v: Vec<Json>) -> (r: Json)
    ensures
        r@ == JsonV::Array(jsons(v@)),
{
    let r = Json::Array(v);
    proof {
        lemma_view(r);
    }
    r
}

/// Appends a member.
pub fn push_member(m: &mut Vec<(String, Json)>, key: &str, v: Json)
    ensures
        members(final(m)@) == members(old(m)@).push((key@, v@)),
{
    m.push((key.to_owned(), v));
    assert(members(m@) =~= members(old(m)@).push((key@, v@)));
}

fn call_to_value(c: &ToolCall) -> (r: Json)
    ensures
        r@ == call_value(c@),
{
    let mut f: Vec<(String, Json)> = Vec::new();
    push_member(&mut f, "name", text_value(c.name.as_str()));
    push_member(&mut f, "arguments", text_value(c.arguments.to_text().as_str()));
    let ghost fv = members(f@);
    assert(fv =~= seq![("name"@, JsonV::Str(c.name@)), ("arguments"@, JsonV::Str(text_of(c.arguments@)))]);
    let mut m: Vec<(String, Json)> = Vec::new();
    push_member(&mut m, "id", text_value(c.id.as_str()));
    push_member(&mut m, "type", text_value("function"));
    push_member(&mut m, "function", object(f));
    assert(members(m@) =~= seq![
        ("id"@, JsonV::Str(c.id@)),
        ("type"@, JsonV::Str("function"@)),
        ("function"@, JsonV::Object(fv)),
    ]);
    object(m)
}

/// The number of bytes of a text.
pub open spec fn byte_len(s: Seq<char>) -> nat {
    encode_utf8(s).len()
}

pub fn bytes_in(s: &str) -> (r: usize)
    ensures
        r == byte_len(s@),
{
    s.as_bytes().len()
}

/// The number of characters, from `i` on, at which the text before takes `n` bytes.
pub open spec fn bytes_at(s: Seq<char>, n: nat, i: int) -> Option<int>
    decreases s.len() + 1 - i,
{
    if i < 0 || i > s.len() {
        None
    } else if byte_len(s.take(i)) == n {
        Some(i)
    } else {
        bytes_at(s, n, i + 1)
    }
}

/// The text of the first `n` bytes, where no character lies across their end.
pub fn byte_prefix(s: &str, n: usize) -> (r: Option<String>)
    ensures
        match r {
            Some(h) => bytes_at(s@, n as nat, 0) matches Some(k) && 0 <= k <= s@.len() && h@ == s@.take(k),
            None => bytes_at(s@, n as nat, 0) is None,
        },
{
    let cs = chars_of(s);
    let mut i: usize = 0;
    while i < cs.len()
        invariant
            cs@ == s@,
            i <= cs.len(),
            bytes_at(s@, n as nat, 0) == bytes_at(s@, n as nat, i as int),
        decreases cs.len() - i,
    {
        let head = string_of_range(&cs, 0, i);
        assert(head@ =~= s@.take(i as int));
        if bytes_in(head.as_str()) == n {
            return Some(head);
        }
        i += 1;
    }
    proof {
        reveal_with_fuel(bytes_at, 2);
        assert(s@.take(i as int) =~= s@);
    }
    if bytes_in(s) == n {
        Some(s.to_owned())
    } else {
        None
    }
}

/// The sum of the sizes of the first `n` calls.
pub open spec fn calls_size(c: Seq<ToolCallV>, n: nat) -> nat
    decreases n,
{
    if n == 0 || n > c.len() {
        0
    } else {
        calls_size(c, (n - 1) as nat) + byte_len(c[n - 1].name) + byte_len(text_of(c[n - 1].arguments)) + 24
    }
}

pub open spec fn at_most(n: nat, max: nat) -> nat {
    if n <= max {
        n
    } else {
        max
    }
}

impl MsgMeta {
    pub fn copy(&self) -> (r: MsgMeta)
        ensures
            r@ == self@,
    {
        MsgMeta {
            turn: self.turn,
            tool_name: copy_opt(&self.tool_name),
            is_error: self.is_error,
            truncated: self.truncated,
            spill_path: copy_opt(&self.spill_path),
            is_summary: self.is_summary,
            is_repo_map: self.is_repo_map,
            reasoning: copy_opt(&self.reasoning),
        }
    }
}

impl Message {
    pub fn copy(&self) -> (r: Message)
        ensures
            r@ == self@,
    {
        Message {
            role: self.role,
            content: self.content.clone(),
            tool_calls: copy_calls(&self.tool_calls),
            tool_call_id: copy_opt(&self.tool_call_id),
            tokens: self.tokens,
            meta: self.meta.copy(),
        }
    }

    pub fn new(role: Role, content: &str) -> (r: Message)
        ensures
            r@ == MessageV::plain(role, content@),
    {
        let r = Message {
            role,
            content: content.to_owned(),
            tool_calls: Vec::new(),
            tool_call_id: None,
            tokens: None,
            meta: MsgMeta::default(),
        };
        assert(r@.tool_calls =~= Seq::<ToolCallV>::empty());
        r
    }

    pub fn system(c: &str) -> (r: Message)
        ensures
            r@ == MessageV::plain(Role::System, c@),
    {
        Message::new(Role::System, c)
    }

    pub fn developer(c: &str) -> (r: Message)
        ensures
            r@ == MessageV::plain(Role::Developer, c@),
    {
        Message::new(Role::Developer, c)
    }

    pub fn user(c: &str) -> (r: Message)
        ensures
            r@ == MessageV::plain(Role::User, c@),
    {
        Message::new(Role::User, c)
    }

    pub fn assistant(c: &str, calls: Vec<ToolCall>) -> (r: Message)
        ensures
            r@ == (MessageV { tool_calls: calls_view(calls@), ..MessageV::plain(Role::Assistant, c@) }),
    {
        let mut m = Message::new(Role::Assistant, c);
        m.tool_calls = calls;
        m
    }

    pub fn tool(call_id: &str, name: &str, content: &str, is_error: bool) -> (r: Message)
        ensures
            r@ == (MessageV {
                tool_call_id: Some(call_id@),
                meta: MsgMetaV { tool_name: Some(name@), is_error, ..MsgMetaV::empty() },
                ..MessageV::plain(Role::Tool, content@)
            }),
    {
        let mut m = Message::new(Role::Tool, content);
        m.tool_call_id = Some(call_id.to_owned());
        m.meta.tool_name = Some(name.to_owned());
        m.meta.is_error = is_error;
        m
    }

    /// The JSON object that is sent, with its keys in a fixed order.
    pub fn to_value(&self) -> (r: Json)
        ensures
            r@ == self@.value(),
    {
        let mut m: Vec<(String, Json)> = Vec::new();
        push_member(&mut m, "role", text_value(self.role.as_str()));
        push_member(&mut m, "content", text_value(self.content.as_str()));
        let ghost head = seq![("role"@, JsonV::Str(self.role.name())), ("content"@, JsonV::Str(self.content@))];
        assert(members(m@) =~= head);
        if self.tool_calls.len() > 0 {
            let mut calls: Vec<Json> = Vec::new();
            let mut i: usize = 0;
            let ghost want = Seq::new(self@.tool_calls.len(), |i: int| call_value(self@.tool_calls[i]));
            while i < self.tool_calls.len()
                invariant
                    i <= self.tool_calls.len(),
                    want.len() == self.tool_calls.len(),
                    forall|k: int| 0 <= k < want.len() ==> want[k] == call_value(#[trigger] self.tool_calls@[k]@),
                    jsons(calls@) == want.take(i as int),
                decreases self.tool_calls.len() - i,
            {
                let ghost before = calls@;
                calls.push(call_to_value(&self.tool_calls[i]));
                assert(jsons(calls@) =~= jsons(before).push(call_value(self.tool_calls@[i as int]@)));
                i += 1;
            }
            assert(jsons(calls@) =~= want);
            push_member(&mut m, "tool_calls", array(calls));
        }
        let ghost mid = members(m@);
        if let Some(id) = &self.tool_call_id {
            push_member(&mut m, "tool_call_id", text_value(id.as_str()));
        }
        assert(members(m@) =~= self@.value()->Object_0);
        object(m)
    }

    /// Rough size in bytes, for token estimates: the text, and for each call its
    /// name, its arguments and a fixed share. Saturates at `usize::MAX`.
    pub fn chars(&self) -> (r: usize)
        ensures
            r == at_most(
                byte_len(self.content@) + calls_size(calls_view(self.tool_calls@), self.tool_calls@.len()),
                usize::MAX as nat,
            ),
    {
        let mut n: usize = bytes_in(self.content.as_str());
        let mut i: usize = 0;
        let ghost cs = calls_view(self.tool_calls@);
        while i < self.tool_calls.len()
            invariant
                i <= self.tool_calls.len(),
                cs == calls_view(self.tool_calls@),
                n == at_most(byte_len(self.content@) + calls_size(cs, i as nat), usize::MAX as nat),
            decreases self.tool_calls.len() - i,
        {
            let c = &self.tool_calls[i];
            let a = bytes_in(c.name.as_str());
            let b = bytes_in(c.arguments.to_text().as_str());
            assert(cs[i as int] == c@);
            n = n.saturating_add(a).saturating_add(b).saturating_add(24);
            i += 1;
        }
        n
    }
}

/// A message is sent with the name of its role and its text; its calls, where it has any, each
/// with its identifier, its name and its arguments as text, in their order; and the identifier
/// of the call that it answers, where it answers one.
#[verifier::rlimit(40)]
pub proof fn law_a_message_is_sent_whole(m: MessageV)
    ensures
        m.value() is Object,
        ({
            let o = m.value()->Object_0;
            &&& m.role == Role::System ==> gives(o, "role"@, JsonV::Str("system"@))
            &&& m.role == Role::Developer ==> gives(o, "role"@, JsonV::Str("developer"@))
            &&& m.role == Role::User ==> gives(o, "role"@, JsonV::Str("user"@))
            &&& m.role == Role::Assistant ==> gives(o, "role"@, JsonV::Str("assistant"@))
            &&& m.role == Role::Tool ==> gives(o, "role"@, JsonV::Str("tool"@))
            &&& gives(o, "content"@, JsonV::Str(m.content))
            &&& m.tool_calls.len() == 0 ==> lacks(o, "tool_calls"@)
            &&& m.tool_calls.len() > 0 ==> exists|a: Seq<JsonV>| #[trigger]
                gives(o, "tool_calls"@, JsonV::Array(a)) && a.len() == m.tool_calls.len() && forall|i: int|
                    0 <= i < a.len() ==> sent_call(#[trigger] a[i], m.tool_calls[i])
            &&& m.tool_call_id is None ==> lacks(o, "tool_call_id"@)
            &&& m.tool_call_id matches Some(id) ==> gives(o, "tool_call_id"@, JsonV::Str(id))
        }),
{
    reveal_strlit("role");
    reveal_strlit("content");
    reveal_strlit("tool_calls");
    reveal_strlit("tool_call_id");
    let o = m.value()->Object_0;
    assert("role"@.len() == 4 && "content"@.len() == 7 && "tool_calls"@.len() == 10 && "tool_call_id"@.len() == 12);
    assert(o[0] == ("role"@, JsonV::Str(m.role.name())));
    assert(o[1] == ("content"@, JsonV::Str(m.content)));
    assert(gives(o, "role"@, JsonV::Str(m.role.name())));
    if m.tool_calls.len() > 0 {
        let a = Seq::new(m.tool_calls.len(), |i: int| call_value(m.tool_calls[i]));
        assert(o[2] == ("tool_calls"@, JsonV::Array(a)));
        assert(gives(o, "tool_calls"@, JsonV::Array(a)));
        assert forall|i: int| 0 <= i < a.len() implies sent_call(#[trigger] a[i], m.tool_calls[i]) by {
            lemma_sent_call(m.tool_calls[i]);
        }
    }
    if let Some(id) = m.tool_call_id {
        assert(o[o.len() - 1] == ("tool_call_id"@, JsonV::Str(id)));
        assert(gives(o, "tool_call_id"@, JsonV::Str(id)));
    }
}

/// A value is what a call is sent as.
pub open spec fn sent_call(v: JsonV, c: ToolCallV) -> bool {
    &&& v is Object
    &&& gives(v->Object_0, "id"@, JsonV::Str(c.id))
    &&& gives(v->Object_0, "type"@, JsonV::Str("function"@))
    &&& exists|f: Seq<(Seq<char>, JsonV)>| #[trigger]
        gives(v->Object_0, "function"@, JsonV::Object(f)) && gives(f, "name"@, JsonV::Str(c.name)) && gives(
            f,
            "arguments"@,
            JsonV::Str(text_of(c.arguments)),
        )
}

proof fn lemma_sent_call(c: ToolCallV)
    ensures
        sent_call(call_value(c), c),
{
    reveal_strlit("id");
    reveal_strlit("type");
    reveal_strlit("function");
    reveal_strlit("name");
    reveal_strlit("arguments");
    assert("id"@.len() == 2 && "type"@.len() == 4 && "function"@.len() == 8);
    assert("name"@.len() == 4 && "arguments"@.len() == 9);
    let v = call_value(c)->Object_0;
    let f = seq![("name"@, JsonV::Str(c.name)), ("arguments"@, JsonV::Str(text_of(c.arguments)))];
    assert(v[0] == ("id"@, JsonV::Str(c.id)));
    assert(v[1] == ("type"@, JsonV::Str("function"@)));
    assert(v[2] == ("function"@, JsonV::Object(f)));
    assert(f[0] == ("name"@, JsonV::Str(c.name)));
    assert(f[1] == ("arguments"@, JsonV::Str(text_of(c.arguments))));
    assert(gives(v, "function"@, JsonV::Object(f)));
}

/// Calls are told apart by their names and by the texts of their arguments, and by nothing
/// else.
pub proof fn law_calls_are_told_apart(a: ToolCallV, b: ToolCallV)
    ensures
        a.name == b.name && a.arguments == b.arguments ==> a.fingerprint() == b.fingerprint(),
        a.name == b.name && encode_utf8(text_of(a.arguments)) != encode_utf8(text_of(b.arguments)) ==> a.fingerprint_bytes()
            != b.fingerprint_bytes(),
        encode_utf8(a.name) != encode_utf8(b.name) && text_of(a.arguments) == text_of(b.arguments) ==> a.fingerprint_bytes()
            != b.fingerprint_bytes(),
        a.fingerprint() == blake3_digest(a.fingerprint_bytes()),
{
    let x = encode_utf8(a.name);
    let y = encode_utf8(b.name);
    let s = encode_utf8(text_of(a.arguments));
    let t = encode_utf8(text_of(b.arguments));
    if a.fingerprint_bytes() == b.fingerprint_bytes() {
        let f = a.fingerprint_bytes();
        let g = b.fingerprint_bytes();
        if x == y {
            assert(f.skip(x.len() as int + 1) =~= s);
            assert(g.skip(x.len() as int + 1) =~= t);
        }
        if s == t {
            assert(f.len() == g.len());
            assert(x.len() == y.len());
            assert(f.take(x.len() as int) =~= x);
            assert(g.take(x.len() as int) =~= y);
        }
    }
}

/// Where the first bytes of a text end a character, they are those of the characters up to there.
pub proof fn law_bytes_end_a_character(s: Seq<char>, n: nat, i: int)
    requires
        0 <= i,
    ensures
        bytes_at(s, n, i) matches Some(k) ==> i <= k <= s.len() && byte_len(s.take(k)) == n,
        bytes_at(s, n, i) is None ==> forall|k: int| i <= k <= s.len() ==> byte_len(#[trigger] s.take(k)) != n,
    decreases s.len() + 1 - i,
{
    if i <= s.len() && byte_len(s.take(i)) != n {
        law_bytes_end_a_character(s, n, i + 1);
    }
}

/// Each call adds the bytes of its name and of its arguments, and 24 more.
pub proof fn law_a_call_adds_its_size(c: Seq<ToolCallV>, x: ToolCallV)
    ensures
        calls_size(Seq::<ToolCallV>::empty(), 0) == 0,
        calls_size(c.push(x), c.len() + 1) == calls_size(c, c.len()) + byte_len(x.name) + byte_len(text_of(x.arguments))
            + 24,
{
    lemma_calls_size_same(c, c.push(x), c.len());
    assert(c.push(x)[c.len() as int] == x);
}

proof fn lemma_calls_size_same(a: Seq<ToolCallV>, b: Seq<ToolCallV>, n: nat)
    requires
        n <= a.len(),
        n <= b.len(),
        forall|i: int| 0 <= i < n ==> a[i] == b[i],
    ensures
        calls_size(a, n) == calls_size(b, n),
    decreases n,
{
    if n > 0 {
        lemma_calls_size_same(a, b, (n - 1) as nat);
    }
}

} // verus!
