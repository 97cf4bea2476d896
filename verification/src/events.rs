//! What the agent tells of its work, and how it is written line by line.

use crate::client::{json_fraction, json_nat};
use crate::json::{Json, JsonV, Number, NumberV, jsons, members, text_of, text_value};
use crate::message::{ToolCall, ToolCallV, array, calls_view, object, opt_string};
use crate::sse::{Timings, TimingsV};
use crate::task::TaskClass;
use crate::text::{dec, dec_u128, dec_u64};
use vstd::prelude::*;

verus! {

#[derive(Debug)]
#[allow(inconsistent_fields)]
pub enum AgentEvent {
    /// A turn begins.
    TurnStart { turn: u32, task: TaskClass, effort: String },
    ReasoningDelta { text: String },
    ContentDelta { text: String },
    /// An answer is complete: its text without the calls, and the calls.
    AssistantMessage { content: String, tool_calls: Vec<ToolCall> },
    ToolCallStart { id: String, name: String, arguments: Json },
    ToolCallResult { id: String, name: String, output: String, is_error: bool, truncated: bool, elapsed_ms: u64 },
    PermissionRequested { id: String, name: String, preview: Option<String> },
    PermissionResolved { id: String, allowed: bool },
    Verify { command: String, ok: bool, output: String },
    Compaction { messages_before: usize, messages_after: usize, summary_tokens: u32 },
    /// The fractions are decimal text.
    Metrics { timings: Timings, ctx_used: u32, ctx_total: u32, cache_ratio: String, decode_tps: String },
    Warning { text: String },
    Error { text: String },
    Finished { reason: String, turns: u32 },
    /// A subagent works on a task; what comes until it has finished is its own.
    AgentSpawned { id: u64, kind: String, task: String },
    AgentFinished { id: u64, outcome: String, turns: u32 },
}

#[allow(inconsistent_fields)]
pub enum AgentEventV {
    TurnStart { turn: u32, task: TaskClass, effort: Seq<char> },
    ReasoningDelta { text: Seq<char> },
    ContentDelta { text: Seq<char> },
    AssistantMessage { content: Seq<char>, tool_calls: Seq<ToolCallV> },
    ToolCallStart { id: Seq<char>, name: Seq<char>, arguments: JsonV },
    ToolCallResult { id: Seq<char>, name: Seq<char>, output: Seq<char>, is_error: bool, truncated: bool, elapsed_ms: u64 },
    PermissionRequested { id: Seq<char>, name: Seq<char>, preview: Option<Seq<char>> },
    PermissionResolved { id: Seq<char>, allowed: bool },
    Verify { command: Seq<char>, ok: bool, output: Seq<char> },
    Compaction { messages_before: usize, messages_after: usize, summary_tokens: u32 },
    Metrics { timings: TimingsV, ctx_used: u32, ctx_total: u32, cache_ratio: Seq<char>, decode_tps: Seq<char> },
    Warning { text: Seq<char> },
    Error { text: Seq<char> },
    Finished { reason: Seq<char>, turns: u32 },
    AgentSpawned { id: u64, kind: Seq<char>, task: Seq<char> },
    AgentFinished { id: u64, outcome: Seq<char>, turns: u32 },
}

impl View for AgentEvent {
    type V = AgentEventV;

    open spec fn view(&self) -> AgentEventV {
        match self {
            AgentEvent::TurnStart { turn, task, effort } => AgentEventV::TurnStart { turn: *turn, task: *task, effort: effort@ },
            AgentEvent::ReasoningDelta { text } => AgentEventV::ReasoningDelta { text: text@ },
            AgentEvent::ContentDelta { text } => AgentEventV::ContentDelta { text: text@ },
            AgentEvent::AssistantMessage { content, tool_calls } => AgentEventV::AssistantMessage { content: content@, tool_calls: calls_view(tool_calls@) },
            AgentEvent::ToolCallStart { id, name, arguments } => AgentEventV::ToolCallStart { id: id@, name: name@, arguments: arguments@ },
            AgentEvent::ToolCallResult { id, name, output, is_error, truncated, elapsed_ms } => AgentEventV::ToolCallResult { id: id@, name: name@, output: output@, is_error: *is_error, truncated: *truncated, elapsed_ms: *elapsed_ms },
            AgentEvent::PermissionRequested { id, name, preview } => AgentEventV::PermissionRequested { id: id@, name: name@, preview: opt_string(*preview) },
            AgentEvent::PermissionResolved { id, allowed } => AgentEventV::PermissionResolved { id: id@, allowed: *allowed },
            AgentEvent::Verify { command, ok, output } => AgentEventV::Verify { command: command@, ok: *ok, output: output@ },
            AgentEvent::Compaction { messages_before, messages_after, summary_tokens } => AgentEventV::Compaction { messages_before: *messages_before, messages_after: *messages_after, summary_tokens: *summary_tokens },
            AgentEvent::Metrics { timings, ctx_used, ctx_total, cache_ratio, decode_tps } => AgentEventV::Metrics { timings: timings@, ctx_used: *ctx_used, ctx_total: *ctx_total, cache_ratio: cache_ratio@, decode_tps: decode_tps@ },
            AgentEvent::Warning { text } => AgentEventV::Warning { text: text@ },
            AgentEvent::Error { text } => AgentEventV::Error { text: text@ },
            AgentEvent::Finished { reason, turns } => AgentEventV::Finished { reason: reason@, turns: *turns },
            AgentEvent::AgentSpawned { id, kind, task } => AgentEventV::AgentSpawned { id: *id, kind: kind@, task: task@ },
            AgentEvent::AgentFinished { id, outcome, turns } => AgentEventV::AgentFinished { id: *id, outcome: outcome@, turns: *turns },
        }
    }
}

/// Events by their views.
pub open spec fn told(v: Seq<AgentEvent>) -> Seq<AgentEventV> {
    Seq::new(v.len(), |i: int| v[i]@)
}

pub open spec fn text_or_null(s: Option<Seq<char>>) -> JsonV {
    match s {
        Some(t) => JsonV::Str(t),
        None => JsonV::Null,
    }
}

/// The word for a class of tasks.
pub open spec fn class_word(t: TaskClass) -> Seq<char> {
    match t {
        TaskClass::CommitMsg => "commit_msg"@,
        _ => t.name(),
    }
}

pub open spec fn calls_value(c: Seq<ToolCallV>) -> JsonV {
    JsonV::Array(
        Seq::new(
            c.len(),
            |i: int|
                JsonV::Object(
                    seq![
                        ("id"@, JsonV::Str(c[i].id)),
                        ("name"@, JsonV::Str(c[i].name)),
                        ("arguments"@, c[i].arguments),
                    ],
                ),
        ),
    )
}

/// A whole number in decimal.
pub open spec fn signed(n: int) -> Seq<char> {
    if n < 0 {
        "-"@ + dec((-n) as nat)
    } else {
        dec(n as nat)
    }
}

/// A time is written as a fraction, however it was given.
pub open spec fn time_value(n: NumberV) -> JsonV {
    match n {
        NumberV::PosInt(k) => json_fraction(dec(k as nat)),
        NumberV::NegInt(k) => json_fraction(signed(k as int)),
        NumberV::Float(s) => json_fraction(s),
    }
}

pub open spec fn timings_value(t: TimingsV) -> JsonV {
    JsonV::Object(
        seq![
            ("prompt_n"@, json_nat(t.prompt_n as u64)),
            ("cache_n"@, json_nat(t.cache_n as u64)),
            ("prompt_ms"@, time_value(t.prompt_ms)),
            ("predicted_n"@, json_nat(t.predicted_n as u64)),
            ("predicted_ms"@, time_value(t.predicted_ms)),
            ("draft_n"@, json_nat(t.draft_n as u64)),
            ("draft_n_accepted"@, json_nat(t.draft_n_accepted as u64)),
        ],
    )
}

impl AgentEventV {
    /// What is written: the sort of the event first, then what belongs to it.
    pub open spec fn value(self) -> JsonV {
        match self {
            AgentEventV::TurnStart { turn, task, effort } => JsonV::Object(
                seq![
                    ("type"@, JsonV::Str("turn_start"@)),
                    ("turn"@, json_nat(turn as u64)),
                    ("task"@, JsonV::Str(class_word(task))),
                    ("effort"@, JsonV::Str(effort)),
                ],
            ),
            AgentEventV::ReasoningDelta { text } => JsonV::Object(
                seq![
                    ("type"@, JsonV::Str("reasoning_delta"@)),
                    ("text"@, JsonV::Str(text)),
                ],
            ),
            AgentEventV::ContentDelta { text } => JsonV::Object(
                seq![
                    ("type"@, JsonV::Str("content_delta"@)),
                    ("text"@, JsonV::Str(text)),
                ],
            ),
            AgentEventV::AssistantMessage { content, tool_calls } => JsonV::Object(
                seq![
                    ("type"@, JsonV::Str("assistant_message"@)),
                    ("content"@, JsonV::Str(content)),
                    ("tool_calls"@, calls_value(tool_calls)),
                ],
            ),
            AgentEventV::ToolCallStart { id, name, arguments } => JsonV::Object(
                seq![
                    ("type"@, JsonV::Str("tool_call_start"@)),
                    ("id"@, JsonV::Str(id)),
                    ("name"@, JsonV::Str(name)),
                    ("arguments"@, arguments),
                ],
            ),
            AgentEventV::ToolCallResult { id, name, output, is_error, truncated, elapsed_ms } => JsonV::Object(
                seq![
                    ("type"@, JsonV::Str("tool_call_result"@)),
                    ("id"@, JsonV::Str(id)),
                    ("name"@, JsonV::Str(name)),
                    ("output"@, JsonV::Str(output)),
                    ("is_error"@, JsonV::Bool(is_error)),
                    ("truncated"@, JsonV::Bool(truncated)),
                    ("elapsed_ms"@, json_nat(elapsed_ms as u64)),
                ],
            ),
            AgentEventV::PermissionRequested { id, name, preview } => JsonV::Object(
                seq![
                    ("type"@, JsonV::Str("permission_requested"@)),
                    ("id"@, JsonV::Str(id)),
                    ("name"@, JsonV::Str(name)),
                    ("preview"@, text_or_null(preview)),
                ],
            ),
            AgentEventV::PermissionResolved { id, allowed } => JsonV::Object(
                seq![
                    ("type"@, JsonV::Str("permission_resolved"@)),
                    ("id"@, JsonV::Str(id)),
                    ("allowed"@, JsonV::Bool(allowed)),
                ],
            ),
            AgentEventV::Verify { command, ok, output } => JsonV::Object(
                seq![
                    ("type"@, JsonV::Str("verify"@)),
                    ("command"@, JsonV::Str(command)),
                    ("ok"@, JsonV::Bool(ok)),
                    ("output"@, JsonV::Str(output)),
                ],
            ),
            AgentEventV::Compaction { messages_before, messages_after, summary_tokens } => JsonV::Object(
                seq![
                    ("type"@, JsonV::Str("compaction"@)),
                    ("messages_before"@, json_nat(messages_before as u64)),
                    ("messages_after"@, json_nat(messages_after as u64)),
                    ("summary_tokens"@, json_nat(summary_tokens as u64)),
                ],
            ),
            AgentEventV::Metrics { timings, ctx_used, ctx_total, cache_ratio, decode_tps } => JsonV::Object(
                seq![
                    ("type"@, JsonV::Str("metrics"@)),
                    ("timings"@, timings_value(timings)),
                    ("ctx_used"@, json_nat(ctx_used as u64)),
                    ("ctx_total"@, json_nat(ctx_total as u64)),
                    ("cache_ratio"@, json_fraction(cache_ratio)),
                    ("decode_tps"@, json_fraction(decode_tps)),
                ],
            ),
            AgentEventV::Warning { text } => JsonV::Object(
                seq![
                    ("type"@, JsonV::Str("warning"@)),
                    ("text"@, JsonV::Str(text)),
                ],
            ),
            AgentEventV::Error { text } => JsonV::Object(
                seq![
                    ("type"@, JsonV::Str("error"@)),
                    ("text"@, JsonV::Str(text)),
                ],
            ),
            AgentEventV::Finished { reason, turns } => JsonV::Object(
                seq![
                    ("type"@, JsonV::Str("finished"@)),
                    ("reason"@, JsonV::Str(reason)),
                    ("turns"@, json_nat(turns as u64)),
                ],
            ),
            AgentEventV::AgentSpawned { id, kind, task } => JsonV::Object(
                seq![
                    ("type"@, JsonV::Str("agent_spawned"@)),
                    ("id"@, json_nat(id as u64)),
                    ("kind"@, JsonV::Str(kind)),
                    ("task"@, JsonV::Str(task)),
                ],
            ),
            AgentEventV::AgentFinished { id, outcome, turns } => JsonV::Object(
                seq![
                    ("type"@, JsonV::Str("agent_finished"@)),
                    ("id"@, json_nat(id as u64)),
                    ("outcome"@, JsonV::Str(outcome)),
                    ("turns"@, json_nat(turns as u64)),
                ],
            ),
        }
    }
}

fn opt_text(s: &Option<String>) -> (r: Json)
    ensures
        r@ == text_or_null(opt_string(*s)),
{
    match s {
        Some(t) => text_value(t.as_str()),
        None => Json::Null,
    }
}

fn show_class(t: TaskClass) -> (r: &'static str)
    ensures
        r@ == class_word(t),
{
    match t {
        TaskClass::CommitMsg => "commit_msg",
        _ => t.as_str(),
    }
}

fn show_calls(c: &Vec<ToolCall>) -> (r: Json)
    ensures
        r@ == calls_value(calls_view(c@)),
{
    let mut out: Vec<Json> = Vec::new();
    let mut i: usize = 0;
    let ghost want = calls_value(calls_view(c@))->Array_0;
    while i < c.len()
        invariant
            i <= c.len(),
            want == calls_value(calls_view(c@))->Array_0,
            jsons(out@) == want.take(i as int),
        decreases c.len() - i,
    {
        let m = vec![
            ("id".to_owned(), text_value(c[i].id.as_str())),
            ("name".to_owned(), text_value(c[i].name.as_str())),
            ("arguments".to_owned(), c[i].arguments.copy()),
        ];
        let ghost mv = members(m@);
        let ghost b = out@;
        assert(JsonV::Object(mv) == want[i as int]) by {
            assert(mv =~= want[i as int]->Object_0);
        }
        out.push(object(m));
        assert(jsons(out@) =~= jsons(b).push(want[i as int]));
        i += 1;
    }
    assert(jsons(out@) =~= want);
    array(out)
}

fn show_time(n: &Number) -> (r: Json)
    ensures
        r@ == time_value(n@),
{
    match n {
        Number::PosInt(k) => Json::Number(Number::Float(dec_u64(*k))),
        Number::NegInt(k) => {
            let s = if *k < 0 {
                "-".to_owned().concat(dec_u128((-(*k as i128)) as u128).as_str())
            } else {
                dec_u128(*k as u128)
            };
            Json::Number(Number::Float(s))
        },
        Number::Float(s) => Json::Number(Number::Float(s.clone())),
    }
}

fn whole(n: u32) -> (r: Json)
    ensures
        r@ == json_nat(n as u64),
{
    Json::Number(Number::PosInt(n as u64))
}

fn show_timings(t: &Timings) -> (r: Json)
    ensures
        r@ == timings_value(t@),
{
    let m = vec![
        ("prompt_n".to_owned(), whole(t.prompt_n)),
        ("cache_n".to_owned(), whole(t.cache_n)),
        ("prompt_ms".to_owned(), show_time(&t.prompt_ms)),
        ("predicted_n".to_owned(), whole(t.predicted_n)),
        ("predicted_ms".to_owned(), show_time(&t.predicted_ms)),
        ("draft_n".to_owned(), whole(t.draft_n)),
        ("draft_n_accepted".to_owned(), whole(t.draft_n_accepted)),
    ];
    assert(members(m@) =~= timings_value(t@)->Object_0);
    object(m)
}

impl AgentEvent {
    fn to_members(&self) -> (r: Vec<(String, Json)>)
        ensures
            self@.value() == JsonV::Object(members(r@)),
    {
        match self {
            AgentEvent::TurnStart { turn, task, effort } => {
                let m = vec![
                    ("type".to_owned(), text_value("turn_start")),
                    ("turn".to_owned(), Json::Number(Number::PosInt(*turn as u64))),
                    ("task".to_owned(), text_value(show_class(*task))),
                    ("effort".to_owned(), text_value(effort.as_str())),
                ];
                assert(members(m@) =~= self@.value()->Object_0);
                m
            },
            AgentEvent::ReasoningDelta { text } => {
                let m = vec![
                    ("type".to_owned(), text_value("reasoning_delta")),
                    ("text".to_owned(), text_value(text.as_str())),
                ];
                assert(members(m@) =~= self@.value()->Object_0);
                m
            },
            AgentEvent::ContentDelta { text } => {
                let m = vec![
                    ("type".to_owned(), text_value("content_delta")),
                    ("text".to_owned(), text_value(text.as_str())),
                ];
                assert(members(m@) =~= self@.value()->Object_0);
                m
            },
            AgentEvent::AssistantMessage { content, tool_calls } => {
                let m = vec![
                    ("type".to_owned(), text_value("assistant_message")),
                    ("content".to_owned(), text_value(content.as_str())),
                    ("tool_calls".to_owned(), show_calls(tool_calls)),
                ];
                assert(members(m@) =~= self@.value()->Object_0);
                m
            },
            AgentEvent::ToolCallStart { id, name, arguments } => {
                let m = vec![
                    ("type".to_owned(), text_value("tool_call_start")),
                    ("id".to_owned(), text_value(id.as_str())),
                    ("name".to_owned(), text_value(name.as_str())),
                    ("arguments".to_owned(), arguments.copy()),
                ];
                assert(members(m@) =~= self@.value()->Object_0);
                m
            },
            AgentEvent::ToolCallResult { id, name, output, is_error, truncated, elapsed_ms } => {
                let m = vec![
                    ("type".to_owned(), text_value("tool_call_result")),
                    ("id".to_owned(), text_value(id.as_str())),
                    ("name".to_owned(), text_value(name.as_str())),
                    ("output".to_owned(), text_value(output.as_str())),
                    ("is_error".to_owned(), Json::Bool(*is_error)),
                    ("truncated".to_owned(), Json::Bool(*truncated)),
                    ("elapsed_ms".to_owned(), Json::Number(Number::PosInt(*elapsed_ms as u64))),
                ];
                assert(members(m@) =~= self@.value()->Object_0);
                m
            },
            AgentEvent::PermissionRequested { id, name, preview } => {
                let m = vec![
                    ("type".to_owned(), text_value("permission_requested")),
                    ("id".to_owned(), text_value(id.as_str())),
                    ("name".to_owned(), text_value(name.as_str())),
                    ("preview".to_owned(), opt_text(preview)),
                ];
                assert(members(m@) =~= self@.value()->Object_0);
                m
            },
            AgentEvent::PermissionResolved { id, allowed } => {
                let m = vec![
                    ("type".to_owned(), text_value("permission_resolved")),
                    ("id".to_owned(), text_value(id.as_str())),
                    ("allowed".to_owned(), Json::Bool(*allowed)),
                ];
                assert(members(m@) =~= self@.value()->Object_0);
                m
            },
            AgentEvent::Verify { command, ok, output } => {
                let m = vec![
                    ("type".to_owned(), text_value("verify")),
                    ("command".to_owned(), text_value(command.as_str())),
                    ("ok".to_owned(), Json::Bool(*ok)),
                    ("output".to_owned(), text_value(output.as_str())),
                ];
                assert(members(m@) =~= self@.value()->Object_0);
                m
            },
            AgentEvent::Compaction { messages_before, messages_after, summary_tokens } => {
                let m = vec![
                    ("type".to_owned(), text_value("compaction")),
                    ("messages_before".to_owned(), Json::Number(Number::PosInt(*messages_before as u64))),
                    ("messages_after".to_owned(), Json::Number(Number::PosInt(*messages_after as u64))),
                    ("summary_tokens".to_owned(), Json::Number(Number::PosInt(*summary_tokens as u64))),
                ];
                assert(members(m@) =~= self@.value()->Object_0);
                m
            },
            AgentEvent::Metrics { timings, ctx_used, ctx_total, cache_ratio, decode_tps } => {
                let m = vec![
                    ("type".to_owned(), text_value("metrics")),
                    ("timings".to_owned(), show_timings(timings)),
                    ("ctx_used".to_owned(), Json::Number(Number::PosInt(*ctx_used as u64))),
                    ("ctx_total".to_owned(), Json::Number(Number::PosInt(*ctx_total as u64))),
                    ("cache_ratio".to_owned(), Json::Number(Number::Float(cache_ratio.clone()))),
                    ("decode_tps".to_owned(), Json::Number(Number::Float(decode_tps.clone()))),
                ];
                assert(members(m@) =~= self@.value()->Object_0);
                m
            },
            AgentEvent::Warning { text } => {
                let m = vec![
                    ("type".to_owned(), text_value("warning")),
                    ("text".to_owned(), text_value(text.as_str())),
                ];
                assert(members(m@) =~= self@.value()->Object_0);
                m
            },
            AgentEvent::Error { text } => {
                let m = vec![
                    ("type".to_owned(), text_value("error")),
                    ("text".to_owned(), text_value(text.as_str())),
                ];
                assert(members(m@) =~= self@.value()->Object_0);
                m
            },
            AgentEvent::Finished { reason, turns } => {
                let m = vec![
                    ("type".to_owned(), text_value("finished")),
                    ("reason".to_owned(), text_value(reason.as_str())),
                    ("turns".to_owned(), Json::Number(Number::PosInt(*turns as u64))),
                ];
                assert(members(m@) =~= self@.value()->Object_0);
                m
            },
            AgentEvent::AgentSpawned { id, kind, task } => {
                let m = vec![
                    ("type".to_owned(), text_value("agent_spawned")),
                    ("id".to_owned(), Json::Number(Number::PosInt(*id as u64))),
                    ("kind".to_owned(), text_value(kind.as_str())),
                    ("task".to_owned(), text_value(task.as_str())),
                ];
                assert(members(m@) =~= self@.value()->Object_0);
                m
            },
            AgentEvent::AgentFinished { id, outcome, turns } => {
                let m = vec![
                    ("type".to_owned(), text_value("agent_finished")),
                    ("id".to_owned(), Json::Number(Number::PosInt(*id as u64))),
                    ("outcome".to_owned(), text_value(outcome.as_str())),
                    ("turns".to_owned(), Json::Number(Number::PosInt(*turns as u64))),
                ];
                assert(members(m@) =~= self@.value()->Object_0);
                m
            },
        }
    }

    /// What is written of the event.
    pub fn to_value(&self) -> (r: Json)
        ensures
            r@ == self@.value(),
    {
        object(self.to_members())
    }

    /// The event on a line.
    pub fn to_line(&self) -> (r: String)
        ensures
            r@ == text_of(self@.value()),
    {
        self.to_value().to_text()
    }
}

/// An event is written with its sort first, and behind that everything that it says, each under
/// its own name.
#[verifier::rlimit(40)]
pub proof fn law_events_say_what_they_are(e: AgentEventV)
    ensures
        e.value() is Object,
        ({
            let o = e.value()->Object_0;
            match e {
                AgentEventV::TurnStart { turn, task, effort } => {
                    &&& o.len() == 4
                    &&& o[0] == ("type"@, JsonV::Str("turn_start"@))
                    &&& o[1] == ("turn"@, json_nat(turn as u64))
                    &&& o[2] == ("task"@, JsonV::Str(class_word(task)))
                    &&& o[3] == ("effort"@, JsonV::Str(effort))
                },
                AgentEventV::ReasoningDelta { text } => {
                    &&& o.len() == 2
                    &&& o[0] == ("type"@, JsonV::Str("reasoning_delta"@))
                    &&& o[1] == ("text"@, JsonV::Str(text))
                },
                AgentEventV::ContentDelta { text } => {
                    &&& o.len() == 2
                    &&& o[0] == ("type"@, JsonV::Str("content_delta"@))
                    &&& o[1] == ("text"@, JsonV::Str(text))
                },
                AgentEventV::AssistantMessage { content, tool_calls } => {
                    &&& o.len() == 3
                    &&& o[0] == ("type"@, JsonV::Str("assistant_message"@))
                    &&& o[1] == ("content"@, JsonV::Str(content))
                    &&& o[2] == ("tool_calls"@, calls_value(tool_calls))
                },
                AgentEventV::ToolCallStart { id, name, arguments } => {
                    &&& o.len() == 4
                    &&& o[0] == ("type"@, JsonV::Str("tool_call_start"@))
                    &&& o[1] == ("id"@, JsonV::Str(id))
                    &&& o[2] == ("name"@, JsonV::Str(name))
                    &&& o[3] == ("arguments"@, arguments)
                },
                AgentEventV::ToolCallResult { id, name, output, is_error, truncated, elapsed_ms } => {
                    &&& o.len() == 7
                    &&& o[0] == ("type"@, JsonV::Str("tool_call_result"@))
                    &&& o[1] == ("id"@, JsonV::Str(id))
                    &&& o[2] == ("name"@, JsonV::Str(name))
                    &&& o[3] == ("output"@, JsonV::Str(output))
                    &&& o[4] == ("is_error"@, JsonV::Bool(is_error))
                    &&& o[5] == ("truncated"@, JsonV::Bool(truncated))
                    &&& o[6] == ("elapsed_ms"@, json_nat(elapsed_ms as u64))
                },
                AgentEventV::PermissionRequested { id, name, preview } => {
                    &&& o.len() == 4
                    &&& o[0] == ("type"@, JsonV::Str("permission_requested"@))
                    &&& o[1] == ("id"@, JsonV::Str(id))
                    &&& o[2] == ("name"@, JsonV::Str(name))
                    &&& o[3] == ("preview"@, text_or_null(preview))
                },
                AgentEventV::PermissionResolved { id, allowed } => {
                    &&& o.len() == 3
                    &&& o[0] == ("type"@, JsonV::Str("permission_resolved"@))
                    &&& o[1] == ("id"@, JsonV::Str(id))
                    &&& o[2] == ("allowed"@, JsonV::Bool(allowed))
                },
                AgentEventV::Verify { command, ok, output } => {
                    &&& o.len() == 4
                    &&& o[0] == ("type"@, JsonV::Str("verify"@))
                    &&& o[1] == ("command"@, JsonV::Str(command))
                    &&& o[2] == ("ok"@, JsonV::Bool(ok))
                    &&& o[3] == ("output"@, JsonV::Str(output))
                },
                AgentEventV::Compaction { messages_before, messages_after, summary_tokens } => {
                    &&& o.len() == 4
                    &&& o[0] == ("type"@, JsonV::Str("compaction"@))
                    &&& o[1] == ("messages_before"@, json_nat(messages_before as u64))
                    &&& o[2] == ("messages_after"@, json_nat(messages_after as u64))
                    &&& o[3] == ("summary_tokens"@, json_nat(summary_tokens as u64))
                },
                AgentEventV::Metrics { timings, ctx_used, ctx_total, cache_ratio, decode_tps } => {
                    &&& o.len() == 6
                    &&& o[0] == ("type"@, JsonV::Str("metrics"@))
                    &&& o[1] == ("timings"@, timings_value(timings))
                    &&& o[2] == ("ctx_used"@, json_nat(ctx_used as u64))
                    &&& o[3] == ("ctx_total"@, json_nat(ctx_total as u64))
                    &&& o[4] == ("cache_ratio"@, json_fraction(cache_ratio))
                    &&& o[5] == ("decode_tps"@, json_fraction(decode_tps))
                },
                AgentEventV::Warning { text } => {
                    &&& o.len() == 2
                    &&& o[0] == ("type"@, JsonV::Str("warning"@))
                    &&& o[1] == ("text"@, JsonV::Str(text))
                },
                AgentEventV::Error { text } => {
                    &&& o.len() == 2
                    &&& o[0] == ("type"@, JsonV::Str("error"@))
                    &&& o[1] == ("text"@, JsonV::Str(text))
                },
                AgentEventV::Finished { reason, turns } => {
                    &&& o.len() == 3
                    &&& o[0] == ("type"@, JsonV::Str("finished"@))
                    &&& o[1] == ("reason"@, JsonV::Str(reason))
                    &&& o[2] == ("turns"@, json_nat(turns as u64))
                },
                AgentEventV::AgentSpawned { id, kind, task } => {
                    &&& o.len() == 4
                    &&& o[0] == ("type"@, JsonV::Str("agent_spawned"@))
                    &&& o[1] == ("id"@, json_nat(id as u64))
                    &&& o[2] == ("kind"@, JsonV::Str(kind))
                    &&& o[3] == ("task"@, JsonV::Str(task))
                },
                AgentEventV::AgentFinished { id, outcome, turns } => {
                    &&& o.len() == 4
                    &&& o[0] == ("type"@, JsonV::Str("agent_finished"@))
                    &&& o[1] == ("id"@, json_nat(id as u64))
                    &&& o[2] == ("outcome"@, JsonV::Str(outcome))
                    &&& o[3] == ("turns"@, json_nat(turns as u64))
                },
            }
        }),
{
}

} // verus!
