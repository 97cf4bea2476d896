//! The agent's loop as a machine: an answer comes in, and the agent says what is told,
//! what is asked of the tools, and whether the turn is over.

use crate::client::{ChatRequest, RequestV, opt_json};
use crate::config::{Profile, ProfileV};
use crate::context::{ContextStore, ContextV, counted, goal, repaired_tail, restarted, values};
use crate::digest::blake3_digest;
use crate::events::{AgentEvent, AgentEventV, told};
use crate::guard::{
    GuardError, GuardErrorV, GuardV, LoopGuard, count_of, law_repeated_texts_and_turns_are_reported,
};
use crate::json::{Json, JsonV, opt_str, text_value};
use crate::message::{
    Message, MessageV, MsgMetaV, Role, ToolCall, ToolCallV, at_most, calls_view, copy_calls,
    messages, opt_string,
};
use crate::parser::{OutcomeV, ParseOutcome, ParserV, ToolCallParser, parse_outcome};
use crate::registry::{ToolRegistry, ToolSpecV, names_of};
use crate::sse::{Timings, ToolCallAcc, ToolCallAccV, accs};
use crate::task::TaskClass;
use crate::text::{
    at, chars_of, contains, copy_strings, find, find_from, holds, join, joined, lemma_find_from,
    lowered, slice, string_of, strings, to_lowered, trim, trimmed,
};
use crate::truncate::{TruncInfo, TruncV, hint};
use vstd::prelude::*;
use vstd::string::*;
use vstd::utf8::encode_utf8;

verus! {

/// How a turn of the user's ended.
#[derive(Debug, PartialEq, Eq)]
pub enum AgentOutcome {
    /// The model gave its final answer.
    EndTurn,
    MaxTurns,
    Aborted,
    LoopDetected(String),
    EngineError(String),
}

pub enum AgentOutcomeV {
    EndTurn,
    MaxTurns,
    Aborted,
    LoopDetected(Seq<char>),
    EngineError(Seq<char>),
}

impl View for AgentOutcome {
    type V = AgentOutcomeV;

    open spec fn view(&self) -> AgentOutcomeV {
        match self {
            AgentOutcome::EndTurn => AgentOutcomeV::EndTurn,
            AgentOutcome::MaxTurns => AgentOutcomeV::MaxTurns,
            AgentOutcome::Aborted => AgentOutcomeV::Aborted,
            AgentOutcome::LoopDetected(s) => AgentOutcomeV::LoopDetected(s@),
            AgentOutcome::EngineError(s) => AgentOutcomeV::EngineError(s@),
        }
    }
}

impl AgentOutcomeV {
    pub open spec fn name(self) -> Seq<char> {
        match self {
            AgentOutcomeV::EndTurn => "end_turn"@,
            AgentOutcomeV::MaxTurns => "max_turns"@,
            AgentOutcomeV::Aborted => "aborted"@,
            AgentOutcomeV::LoopDetected(_) => "loop_detected"@,
            AgentOutcomeV::EngineError(_) => "engine_error"@,
        }
    }
}

impl AgentOutcome {
    pub fn as_str(&self) -> (r: &'static str)
        ensures
            r@ == self@.name(),
    {
        match self {
            AgentOutcome::EndTurn => "end_turn",
            AgentOutcome::MaxTurns => "max_turns",
            AgentOutcome::Aborted => "aborted",
            AgentOutcome::LoopDetected(_) => "loop_detected",
            AgentOutcome::EngineError(_) => "engine_error",
        }
    }
}

/// How hard a well-formed call is insisted on.
#[derive(Debug, Clone, Copy, PartialEq, Eq, Structural)]
pub enum RetryLevel {
    Normal,
    Reminded,
    Forced,
}

/// What a tool gave.
#[derive(Debug)]
pub struct ToolOutput {
    pub text: String,
    pub is_error: bool,
    /// The files that were edited.
    pub edits: Vec<String>,
    pub truncated: Option<TruncInfo>,
}

pub struct OutputV {
    pub text: Seq<char>,
    pub is_error: bool,
    pub edits: Seq<Seq<char>>,
    /// How the text was shortened, where it was.
    pub truncated: Option<TruncV>,
}

impl OutputV {
    /// The file that holds the whole text, where it was shortened.
    pub open spec fn spilled(self) -> Option<Seq<char>> {
        match self.truncated {
            Some(i) => Some(i.spill_path),
            None => None,
        }
    }
}

impl View for ToolOutput {
    type V = OutputV;

    open spec fn view(&self) -> OutputV {
        OutputV {
            text: self.text@,
            is_error: self.is_error,
            edits: strings(self.edits@),
            truncated: match self.truncated {
                Some(i) => Some(i@),
                None => None,
            },
        }
    }
}

impl ToolOutput {
    /// An output that only says what went wrong.
    pub fn error(text: &str) -> (r: ToolOutput)
        ensures
            r@ == (OutputV { text: text@, is_error: true, edits: Seq::empty(), truncated: None }),
    {
        let r = ToolOutput { text: text.to_owned(), is_error: true, edits: Vec::new(), truncated: None };
        assert(r@.edits =~= Seq::empty());
        r
    }
}

pub struct Agent {
    pub ctx: ContextStore,
    pub registry: ToolRegistry,
    pub parser: ToolCallParser,
    pub guard: LoopGuard,
    pub task: TaskClass,
    pub retry: RetryLevel,
    /// An effort that the user set; else that of the task counts.
    pub effort_override: Option<String>,
    /// Whether what the tools give is kept from the events.
    pub quiet: bool,
}

#[verifier::ext_equal]
pub struct AgentV {
    pub ctx: ContextV,
    pub tools: Seq<ToolSpecV>,
    pub parser: ParserV,
    pub guard: GuardV,
    pub task: TaskClass,
    pub retry: RetryLevel,
    pub effort_override: Option<Seq<char>>,
    pub quiet: bool,
}

impl View for Agent {
    type V = AgentV;

    open spec fn view(&self) -> AgentV {
        AgentV {
            ctx: self.ctx@,
            tools: self.registry@.tools,
            parser: self.parser@,
            guard: self.guard@,
            task: self.task,
            retry: self.retry,
            effort_override: opt_string(self.effort_override),
            quiet: self.quiet,
        }
    }
}

// ---------------------------------------------------------------- thinking in the text

/// A text with the thinking between two marks taken out of it. Thinking that is not
/// closed goes to the end.
pub open spec fn cut_out(content: Seq<char>, open: Seq<char>, close: Seq<char>) -> Option<(Seq<char>, Seq<char>)> {
    match find_from(content, open, 0) {
        Some(s) => Some(
            match find_from(content, close, 0) {
                Some(e) => (
                    trimmed(content.take(s) + content.skip(e + close.len())),
                    trimmed(content.subrange(s + open.len(), e)),
                ),
                None => (trimmed(content.take(s)), trimmed(content.skip(s + open.len()))),
            },
        ),
        None => None,
    }
}

/// Whether the closing mark, where there is one, comes behind the opening one.
pub open spec fn in_order(content: Seq<char>, open: Seq<char>, close: Seq<char>) -> bool {
    match (find_from(content, open, 0), find_from(content, close, 0)) {
        (Some(s), Some(e)) => s + open.len() <= e,
        _ => true,
    }
}

/// Whether the thinking can be taken out of a text: the first mark that occurs is closed
/// behind itself, if at all.
pub open spec fn separable(content: Seq<char>) -> bool {
    if find_from(content, "<think>"@, 0) is Some {
        in_order(content, "<think>"@, "</think>"@)
    } else {
        in_order(content, "<thought>"@, "</thought>"@)
    }
}

/// The text and the thinking of an answer. Where no thinking came apart from the text, it
/// is looked for between marks in it.
pub open spec fn separated(content: Seq<char>, reasoning: Seq<char>) -> (Seq<char>, Seq<char>) {
    if reasoning.len() > 0 {
        (content, reasoning)
    } else {
        match cut_out(content, "<think>"@, "</think>"@) {
            Some(p) => p,
            None => match cut_out(content, "<thought>"@, "</thought>"@) {
                Some(p) => p,
                None => (content, reasoning),
            },
        }
    }
}

fn take_out(cs: &Vec<char>, open: &str, close: &str) -> (r: Option<(String, String)>)
    requires
        in_order(cs@, open@, close@),
    ensures
        match r {
            Some(p) => cut_out(cs@, open@, close@) == Some((p.0@, p.1@)),
            None => cut_out(cs@, open@, close@) is None,
        },
{
    let op = chars_of(open);
    let cl = chars_of(close);
    match find(cs, &op, 0) {
        Some(s) => {
            let mut kept = slice(cs, 0, s);
            assert(kept@ =~= cs@.take(s as int));
            let end: usize = match find(cs, &cl, 0) {
                Some(e) => {
                    let mut rest = slice(cs, e + cl.len(), cs.len());
                    assert(rest@ =~= cs@.skip(e + close@.len()));
                    let ghost a = kept@;
                    let ghost b = rest@;
                    kept.append(&mut rest);
                    assert(kept@ =~= a + b);
                    e
                },
                None => cs.len(),
            };
            let thought = slice(cs, s + op.len(), end);
            assert(find_from(cs@, close@, 0) is None ==> thought@ =~= cs@.skip(s + open@.len()));
            Some((string_of(&trim(&kept)), string_of(&trim(&thought))))
        },
        None => None,
    }
}

/// Whether the thinking can be taken out of a text.
pub fn can_separate(content: &str) -> (r: bool)
    ensures
        r == separable(content@),
{
    let cs = chars_of(content);
    let (open, close) = if find(&cs, &chars_of("<think>"), 0).is_some() {
        ("<think>", "</think>")
    } else {
        ("<thought>", "</thought>")
    };
    match (find(&cs, &chars_of(open), 0), find(&cs, &chars_of(close), 0)) {
        (Some(s), Some(e)) => s + chars_of(open).len() <= e,
        _ => true,
    }
}

/// Takes the thinking out of an answer.
pub fn separate_thinking(content: String, reasoning: String) -> (r: (String, String))
    requires
        reasoning@.len() > 0 || separable(content@),
    ensures
        (r.0@, r.1@) == separated(content@, reasoning@),
{
    if !reasoning.as_str().is_empty() {
        return (content, reasoning);
    }
    let cs = chars_of(content.as_str());
    if find(&cs, &chars_of("<think>"), 0).is_some() {
        if let Some(p) = take_out(&cs, "<think>", "</think>") {
            return p;
        }
    }
    if let Some(p) = take_out(&cs, "<thought>", "</thought>") {
        return p;
    }
    (content, reasoning)
}

// ---------------------------------------------------------------- the machine

/// What the agent does next.
#[derive(Debug)]
pub enum Next {
    /// The turn is over.
    Done(AgentOutcome),
    /// The model is asked again.
    Again,
    /// The calls are run, and what they give is handed back.
    Execute(Vec<ToolCall>),
}

pub enum NextV {
    Done(AgentOutcomeV),
    Again,
    Execute(Seq<ToolCallV>),
}

impl View for Next {
    type V = NextV;

    open spec fn view(&self) -> NextV {
        match self {
            Next::Done(o) => NextV::Done(o@),
            Next::Again => NextV::Again,
            Next::Execute(c) => NextV::Execute(calls_view(c@)),
        }
    }
}

/// What is told, and what is done next.
#[derive(Debug)]
pub struct TurnStep {
    pub events: Vec<AgentEvent>,
    pub next: Next,
}

pub open spec fn warning(text: Seq<char>) -> AgentEventV {
    AgentEventV::Warning { text }
}

/// The outcome of a turn that the guard ends.
pub open spec fn guard_outcome(e: GuardErrorV) -> AgentOutcomeV {
    match e {
        GuardErrorV::MaxTurns(_) => AgentOutcomeV::MaxTurns,
        _ => AgentOutcomeV::LoopDetected(e.message()),
    }
}

/// The message of an answer.
pub open spec fn answer_message(content: Seq<char>, calls: Seq<ToolCallV>, reasoning: Seq<char>, turn: u32) -> MessageV {
    MessageV {
        tool_calls: calls,
        meta: MsgMetaV {
            turn,
            reasoning: if reasoning.len() == 0 {
                None
            } else {
                Some(reasoning)
            },
            ..MsgMetaV::empty()
        },
        ..MessageV::plain(Role::Assistant, content)
    }
}

/// The message of what a tool gave.
pub open spec fn result_message(
    id: Seq<char>,
    name: Seq<char>,
    text: Seq<char>,
    is_error: bool,
    spill: Option<Seq<char>>,
    turn: u32,
) -> MessageV {
    MessageV {
        tool_call_id: Some(id),
        meta: MsgMetaV {
            turn,
            tool_name: Some(name),
            is_error,
            truncated: spill is Some,
            spill_path: spill,
            ..MsgMetaV::empty()
        },
        ..MessageV::plain(Role::Tool, text)
    }
}

/// What the model is told of a call that cannot be read.
pub open spec fn malformed_hint(level: RetryLevel, error: Seq<char>, snippet: Seq<char>, names: Seq<Seq<char>>) -> Seq<
    char,
> {
    if level == RetryLevel::Normal {
        "Your tool call could not be parsed: "@ + error + ". Snippet: "@ + snippet
            + "\nRespond again using the native tool-call format with valid JSON arguments. Available tools: "@ + joined(
            names,
            ", "@,
        ) + "."@
    } else {
        "Tool call still malformed: "@ + error + ". You MUST emit a well-formed tool call now."@
    }
}

pub open spec fn raised(level: RetryLevel) -> RetryLevel {
    if level == RetryLevel::Normal {
        RetryLevel::Reminded
    } else {
        RetryLevel::Forced
    }
}

/// What the model is told of a call that it repeats.
pub open spec fn repeat_hint(e: GuardErrorV) -> Seq<char> {
    e.message()
        + ". Stop repeating this call. Either use a different approach or explain to the user why you are stuck."@
}

/// The log with the same answer to each of the first `n` calls.
pub open spec fn answered_all(log: Seq<MessageV>, calls: Seq<ToolCallV>, text: Seq<char>, n: nat) -> Seq<MessageV>
    decreases n,
{
    if n == 0 || n > calls.len() {
        log
    } else {
        answered_all(log, calls, text, (n - 1) as nat).push(
            result_message(calls[n - 1].id, calls[n - 1].name, text, true, None, 0),
        )
    }
}

/// The results that were taken before one was repeated too often, and the guard's report
/// of that one.
pub open spec fn after_results(a: AgentV, rs: Seq<(ToolCallV, OutputV)>, i: int) -> (AgentV, Option<GuardErrorV>)
    decreases rs.len() - i,
{
    if i < 0 || i >= rs.len() {
        (a, None)
    } else {
        let (call, out) = rs[i];
        let (g, e) = if out.is_error {
            a.guard.after_error(call.name, out.text)
        } else {
            (a.guard, None)
        };
        let b = AgentV { guard: g, ..a };
        if e is Some {
            (b, e)
        } else {
            after_results(
                b.said(result_message(call.id, call.name, out.text, out.is_error, out.spilled(), g.turn)),
                rs,
                i + 1,
            )
        }
    }
}

/// The files that the first `n` results edited.
pub open spec fn edited(rs: Seq<(ToolCallV, OutputV)>, n: nat) -> Seq<Seq<char>>
    decreases n,
{
    if n == 0 || n > rs.len() {
        Seq::empty()
    } else {
        edited(rs, (n - 1) as nat) + rs[n - 1].1.edits
    }
}

pub open spec fn results_view(v: Seq<(ToolCall, ToolOutput)>) -> Seq<(ToolCallV, OutputV)> {
    Seq::new(v.len(), |i: int| (v[i].0@, v[i].1@))
}

impl AgentV {
    /// The agent with one more message.
    pub open spec fn said(self, m: MessageV) -> AgentV {
        AgentV { ctx: ContextV { log: self.ctx.log.push(m), ..self.ctx }, ..self }
    }

    /// The agent after a turn was counted, and whether that ends it.
    pub open spec fn turned(self) -> (AgentV, Seq<AgentEventV>, NextV) {
        let (g, e) = self.guard.after_turn();
        let a = AgentV { guard: g, ..self };
        match e {
            Some(e) => (a, seq![warning(e.message())], NextV::Done(guard_outcome(e))),
            None => (a, Seq::empty(), NextV::Again),
        }
    }

    /// The agent after a restart with the user's first request.
    pub open spec fn restarted(self) -> AgentV {
        AgentV {
            ctx: ContextV {
                log: restarted(self.ctx.log),
                summary_at: Some((restarted(self.ctx.log).len() - 1) as nat),
                compactions: counted(self.ctx.compactions),
                last_prompt_total: None,
                ..self.ctx
            },
            guard: GuardV::fresh(self.guard.max_turns),
            retry: RetryLevel::Normal,
            ..self
        }
    }

    pub open spec fn effort(self, p: ProfileV) -> Seq<char> {
        match self.effort_override {
            Some(e) => e,
            None => self.task.effort_of(p),
        }
    }

    /// The request for the next answer.
    pub open spec fn request(self, p: ProfileV, tool_choice: Option<JsonV>, max_tokens: Option<u32>) -> RequestV {
        RequestV {
            tools: if self.tools.len() == 0 {
                None
            } else {
                Some(self.ctx.prefix.tools_json)
            },
            tool_choice,
            max_tokens: Some(
                match max_tokens {
                    Some(n) => n,
                    None => p.max_tokens,
                },
            ),
            ..RequestV::fresh(p.asked_model(), values(self.ctx.request()))
        }.with_sampling(self.task.sampling_of(p)).with_effort(self.effort(p))
    }

    /// What follows an answer without calls: it is the last, unless it was given too
    /// often.
    pub open spec fn on_text(self, content: Seq<char>, reasoning: Seq<char>) -> (AgentV, Seq<AgentEventV>, NextV) {
        let (g, e) = self.guard.after_text(content);
        let a = AgentV { guard: g, ..self };
        match e {
            Some(e) => (a, seq![warning(e.message())], NextV::Done(guard_outcome(e))),
            None => (
                AgentV { retry: RetryLevel::Normal, ..a.said(answer_message(content, Seq::empty(), reasoning, g.turn)) },
                seq![AgentEventV::AssistantMessage { content, tool_calls: Seq::empty() }],
                NextV::Done(AgentOutcomeV::EndTurn),
            ),
        }
    }

    /// What follows an answer whose calls cannot be read: it is kept, with a hint, and the
    /// model is asked again.
    pub open spec fn on_malformed(self, content: Seq<char>, error: Seq<char>, snippet: Seq<char>) -> (
        AgentV,
        Seq<AgentEventV>,
        NextV,
    ) {
        let hint = malformed_hint(self.retry, error, snippet, names_of(self.tools));
        let a = self.said(answer_message(content, Seq::empty(), Seq::empty(), self.guard.turn)).said(
            MessageV::plain(Role::User, hint),
        );
        let (b, es, next) = AgentV { retry: raised(self.retry), ..a }.turned();
        (b, seq![warning("malformed tool call ("@ + error + "); retrying"@)] + es, next)
    }

    /// What follows an answer with calls: they are run, unless one is repeated; then the
    /// model is told so, and a repetition after that ends the turn.
    pub open spec fn on_calls(self, calls: Seq<ToolCallV>, leftover: Seq<char>, reasoning: Seq<char>) -> (
        AgentV,
        Seq<AgentEventV>,
        NextV,
    ) {
        let a = AgentV { retry: RetryLevel::Normal, ..self }.said(
            answer_message(leftover, calls, reasoning, self.guard.turn),
        );
        let told = AgentEventV::AssistantMessage { content: leftover, tool_calls: calls };
        let (g, e) = self.guard.after_calls(calls);
        let b = AgentV { guard: g, ..a };
        match e {
            None => (b, seq![told], NextV::Execute(calls)),
            Some(e) => {
                if e matches GuardErrorV::RepeatedCall(_, n) && n >= 4 {
                    (b, seq![told, warning(e.message())], NextV::Done(guard_outcome(e)))
                } else {
                    let c = AgentV {
                        ctx: ContextV { log: answered_all(b.ctx.log, calls, repeat_hint(e), calls.len()), ..b.ctx },
                        ..b
                    };
                    let (d, es, next) = c.turned();
                    (d, seq![told, warning(e.message())] + es, next)
                }
            },
        }
    }

    /// What follows an answer.
    pub open spec fn on_answer(self, native: Seq<ToolCallAccV>, content: Seq<char>, reasoning: Seq<char>) -> (
        AgentV,
        Seq<AgentEventV>,
        NextV,
    ) {
        let (o, next_id) = parse_outcome(self.parser, native, content);
        let a = AgentV { parser: ParserV { next_id, ..self.parser }, ..self };
        match o {
            OutcomeV::NoCalls => a.on_text(content, reasoning),
            OutcomeV::Malformed { error, snippet } => a.on_malformed(content, error, snippet),
            OutcomeV::Calls { calls, leftover_text, .. } => a.on_calls(calls, leftover_text, reasoning),
        }
    }
}

/// The words that tell that the context of the engine is full.
pub open spec fn tells_of_overflow(err: Seq<char>) -> bool {
    let l = lowered(err);
    ||| holds(l, "context"@) && (holds(l, "exceed"@) || holds(l, "full"@) || holds(l, "too long"@) || holds(
        l,
        "overflow"@,
    ) || holds(l, "length"@))
    ||| holds(l, "n_ctx"@)
}

pub fn is_context_overflow(err: &str) -> (r: bool)
    ensures
        r == tells_of_overflow(err@),
{
    let s = string_of(&to_lowered(err));
    let l = s.as_str();
    (contains(l, "context") && (contains(l, "exceed") || contains(l, "full") || contains(l, "too long") || contains(
        l,
        "overflow",
    ) || contains(l, "length"))) || contains(l, "n_ctx")
}

/// What follows an answer that did not come.
#[derive(Debug)]
pub enum FailedStep {
    /// The user broke it off.
    Aborted,
    /// The context was full; the agent has started again, and this is told.
    Restarted(Vec<AgentEvent>),
    /// The engine failed, and this is told.
    Failed(Vec<AgentEvent>),
}

pub open spec fn restart_text(goal: Seq<char>) -> Seq<char> {
    "context reached capacity: restarted session with fresh context for task \""@ + goal + "\""@
}

fn one_event(e: AgentEvent) -> (r: Vec<AgentEvent>)
    ensures
        told(r@) == seq![e@],
{
    let r = vec![e];
    assert(told(r@) =~= seq![e@]);
    r
}

fn no_events() -> (r: Vec<AgentEvent>)
    ensures
        told(r@) == Seq::<AgentEventV>::empty(),
{
    let r: Vec<AgentEvent> = Vec::new();
    assert(told(r@) =~= Seq::<AgentEventV>::empty());
    r
}

fn push_events(a: &mut Vec<AgentEvent>, more: Vec<AgentEvent>)
    ensures
        told(final(a)@) == told(old(a)@) + told(more@),
{
    let mut m = more;
    let ghost x = a@;
    let ghost y = m@;
    a.append(&mut m);
    assert(told(a@) =~= told(x) + told(y));
}

fn warn(text: String) -> (r: AgentEvent)
    ensures
        r@ == warning(text@),
{
    AgentEvent::Warning { text }
}

fn outcome_of_guard(e: &GuardError) -> (r: AgentOutcome)
    ensures
        r@ == guard_outcome(e@),
{
    match e {
        GuardError::MaxTurns(_) => AgentOutcome::MaxTurns,
        _ => AgentOutcome::LoopDetected(e.to_string()),
    }
}

fn opt_reasoning(reasoning: &str) -> (r: Option<String>)
    ensures
        opt_string(r) == if reasoning@.len() == 0 {
            None
        } else {
            Some(reasoning@)
        },
{
    if reasoning.is_empty() {
        None
    } else {
        Some(reasoning.to_owned())
    }
}

impl Agent {
    /// The guard is in order.
    pub open spec fn wf(self) -> bool {
        self.guard.wf()
    }

    pub fn new(ctx: ContextStore, registry: ToolRegistry, task: TaskClass, max_turns: u32) -> (r: Agent)
        ensures
            r.wf(),
            r@ == (AgentV {
                ctx: ctx@,
                tools: registry@.tools,
                parser: ParserV { known: names_of(registry@.tools), next_id: 1 },
                guard: GuardV::fresh(max_turns),
                task,
                retry: RetryLevel::Normal,
                effort_override: None,
                quiet: false,
            }),
    {
        let parser = ToolCallParser::new(registry.names());
        Agent {
            ctx,
            registry,
            parser,
            guard: LoopGuard::new(max_turns),
            task,
            retry: RetryLevel::Normal,
            effort_override: None,
            quiet: false,
        }
    }

    pub fn effort(&self, profile: &Profile) -> (r: String)
        ensures
            r@ == self@.effort(profile@),
    {
        match &self.effort_override {
            Some(e) => e.clone(),
            None => self.task.effort(profile).to_owned(),
        }
    }

    /// The request for the next answer.
    pub fn build_request(&self, profile: &Profile, tool_choice: Option<Json>, max_tokens: Option<u32>) -> (r: ChatRequest)
        ensures
            r@ == self@.request(profile@, opt_json(tool_choice), max_tokens),
    {
        let mut req = ChatRequest::new(profile.request_model().as_str(), self.ctx.to_request_messages());
        if !self.registry.is_empty() {
            req.tools = Some(self.ctx.tools_json().copy());
        }
        req.tool_choice = tool_choice;
        req.max_tokens = Some(
            match max_tokens {
                Some(n) => n,
                None => profile.max_tokens,
            },
        );
        let req = req.sampling(self.task.sampling(profile));
        req.reasoning_effort(self.effort(profile).as_str())
    }

    /// The request for the next answer of a turn: a call is demanded where the model could
    /// not be brought to write one.
    pub fn turn_request(&self, profile: &Profile) -> (r: ChatRequest)
        ensures
            r@ == self@.request(
                profile@,
                if self@.retry == RetryLevel::Forced {
                    Some(JsonV::Str("required"@))
                } else {
                    None
                },
                None,
            ),
    {
        let choice = if self.retry == RetryLevel::Forced {
            Some(text_value("required"))
        } else {
            None
        };
        self.build_request(profile, choice, None)
    }

    /// Begins a turn of the user's.
    pub fn run_turn(&mut self, user_input: &str)
        requires
            old(self).wf(),
        ensures
            final(self).wf(),
            final(self)@ == (AgentV {
                guard: GuardV::fresh(old(self)@.guard.max_turns),
                ..old(self)@.said(MessageV::plain(Role::User, user_input@))
            }),
    {
        self.ctx.push(Message::user(user_input));
        self.guard.new_user_message();
    }

    /// Breaks a turn off: calls at the end that have no results are dropped.
    pub fn abort_turn(&mut self) -> (r: AgentOutcome)
        ensures
            r@ == AgentOutcomeV::Aborted,
            final(self)@ == (AgentV {
                ctx: ContextV { log: repaired_tail(old(self)@.ctx.log), ..old(self)@.ctx },
                ..old(self)@
            }),
            old(self).wf() ==> final(self).wf(),
    {
        self.ctx.repair_tail();
        AgentOutcome::Aborted
    }

    /// Starts again with the user's first request, and tells so.
    pub fn start_again(&mut self) -> (r: AgentEvent)
        ensures
            final(self).wf(),
            final(self)@ == old(self)@.restarted(),
            r@ == warning(restart_text(goal(old(self)@.ctx.log))),
    {
        let goal = self.ctx.restart_with_goal();
        self.guard = LoopGuard::new(self.guard.max_turns());
        self.retry = RetryLevel::Normal;
        warn(
            "context reached capacity: restarted session with fresh context for task \"".to_owned().concat(
                goal.as_str(),
            ).concat("\""),
        )
    }

    /// Starts again where the context is full.
    pub fn start_again_if_full(&mut self, estimates: &Vec<u32>) -> (r: Option<AgentEvent>)
        requires
            old(self).wf(),
            old(self)@.ctx.countable(estimates@),
        ensures
            final(self).wf(),
            if old(self)@.ctx.used(estimates@) >= old(self)@.ctx.n_ctx {
                &&& final(self)@ == old(self)@.restarted()
                &&& r matches Some(e) && e@ == warning(restart_text(goal(old(self)@.ctx.log)))
            } else {
                final(self)@ == old(self)@ && r is None
            },
    {
        if self.ctx.is_full(estimates) {
            Some(self.start_again())
        } else {
            None
        }
    }

    /// What follows an answer that did not come.
    pub fn on_failure(&mut self, cancelled: bool, err: &str, full: bool) -> (r: FailedStep)
        requires
            old(self).wf(),
        ensures
            final(self).wf(),
            match r {
                FailedStep::Aborted => cancelled && final(self)@ == (AgentV {
                    ctx: ContextV { log: repaired_tail(old(self)@.ctx.log), ..old(self)@.ctx },
                    ..old(self)@
                }),
                FailedStep::Restarted(es) => {
                    &&& !cancelled
                    &&& tells_of_overflow(err@) || full
                    &&& final(self)@ == old(self)@.restarted()
                    &&& told(es@) == seq![
                        warning("engine context full ("@ + err@ + "); restarting with fresh context"@),
                        warning(restart_text(goal(old(self)@.ctx.log))),
                    ]
                },
                FailedStep::Failed(es) => {
                    &&& !cancelled
                    &&& !tells_of_overflow(err@) && !full
                    &&& final(self)@ == old(self)@
                    &&& told(es@) == seq![AgentEventV::Error { text: err@ }]
                },
            },
    {
        if cancelled {
            let _ = self.abort_turn();
            return FailedStep::Aborted;
        }
        if is_context_overflow(err) || full {
            let first = warn(
                "engine context full (".to_owned().concat(err).concat("); restarting with fresh context"),
            );
            let second = self.start_again();
            let es = vec![first, second];
            assert(told(es@) =~= seq![first@, second@]);
            return FailedStep::Restarted(es);
        }
        FailedStep::Failed(one_event(AgentEvent::Error { text: err.to_owned() }))
    }

    fn guarded(e: &GuardError) -> (r: TurnStep)
        ensures
            told(r.events@) == seq![warning(e@.message())],
            r.next@ == NextV::Done(guard_outcome(e@)),
    {
        TurnStep { events: one_event(warn(e.to_string())), next: Next::Done(outcome_of_guard(e)) }
    }

    /// Counts a turn; says whether that ends it.
    pub fn finish_turn(&mut self) -> (r: TurnStep)
        requires
            old(self).wf(),
        ensures
            final(self).wf(),
            (final(self)@, told(r.events@), r.next@) == old(self)@.turned(),
    {
        match self.guard.next_turn() {
            Ok(_) => TurnStep { events: no_events(), next: Next::Again },
            Err(e) => Agent::guarded(&e),
        }
    }

    fn on_text(&mut self, content: String, reasoning: &str) -> (r: TurnStep)
        requires
            old(self).wf(),
        ensures
            final(self).wf(),
            (final(self)@, told(r.events@), r.next@) == old(self)@.on_text(content@, reasoning@),
    {
        match self.guard.observe_text(content.as_str()) {
            Err(e) => Agent::guarded(&e),
            Ok(_) => {
                let none: Vec<ToolCall> = Vec::new();
                let mut m = Message::assistant(content.as_str(), none);
                m.meta.reasoning = opt_reasoning(reasoning);
                m.meta.turn = self.guard.turn();
                assert(m@.tool_calls =~= Seq::<ToolCallV>::empty());
                assert(m@ == answer_message(content@, Seq::empty(), reasoning@, self.guard@.turn));
                self.ctx.push(m);
                self.retry = RetryLevel::Normal;
                let calls: Vec<ToolCall> = Vec::new();
                let e = AgentEvent::AssistantMessage { content, tool_calls: calls };
                assert(calls_view(calls@) =~= Seq::<ToolCallV>::empty());
                TurnStep { events: one_event(e), next: Next::Done(AgentOutcome::EndTurn) }
            },
        }
    }

    fn hint(&self, error: &str, snippet: &str) -> (r: String)
        ensures
            r@ == malformed_hint(self@.retry, error@, snippet@, names_of(self@.tools)),
    {
        if self.retry == RetryLevel::Normal {
            "Your tool call could not be parsed: ".to_owned().concat(error).concat(". Snippet: ").concat(
                snippet,
            ).concat(
                "\nRespond again using the native tool-call format with valid JSON arguments. Available tools: ",
            ).concat(join(&self.registry.names(), ", ").as_str()).concat(".")
        } else {
            "Tool call still malformed: ".to_owned().concat(error).concat(
                ". You MUST emit a well-formed tool call now.",
            )
        }
    }

    fn on_malformed(&mut self, content: &str, error: &str, snippet: &str) -> (r: TurnStep)
        requires
            old(self).wf(),
        ensures
            final(self).wf(),
            (final(self)@, told(r.events@), r.next@) == old(self)@.on_malformed(content@, error@, snippet@),
    {
        let ghost start = self@;
        let none: Vec<ToolCall> = Vec::new();
        let mut m = Message::assistant(content, none);
        m.meta.turn = self.guard.turn();
        assert(m@.tool_calls =~= Seq::<ToolCallV>::empty());
        assert(m@ == answer_message(content@, Seq::empty(), Seq::empty(), self.guard@.turn));
        let hint = self.hint(error, snippet);
        self.ctx.push(m);
        self.ctx.push(Message::user(hint.as_str()));
        self.retry = if self.retry == RetryLevel::Normal {
            RetryLevel::Reminded
        } else {
            RetryLevel::Forced
        };
        let mut events = one_event(
            warn("malformed tool call (".to_owned().concat(error).concat("); retrying")),
        );
        let step = self.finish_turn();
        push_events(&mut events, step.events);
        TurnStep { events, next: step.next }
    }

    fn answer_all(&mut self, calls: &Vec<ToolCall>, text: &str)
        requires
            old(self).wf(),
        ensures
            final(self).wf(),
            final(self)@ == (AgentV {
                ctx: ContextV {
                    log: answered_all(old(self)@.ctx.log, calls_view(calls@), text@, calls@.len()),
                    ..old(self)@.ctx
                },
                ..old(self)@
            }),
    {
        let ghost start = self@;
        let ghost cv = calls_view(calls@);
        let mut i: usize = 0;
        while i < calls.len()
            invariant
                i <= calls.len(),
                self.wf(),
                start == old(self)@,
                cv == calls_view(calls@),
                self@ == (AgentV {
                    ctx: ContextV { log: answered_all(start.ctx.log, cv, text@, i as nat), ..start.ctx },
                    ..start
                }),
            decreases calls.len() - i,
        {
            assert(cv[i as int] == calls@[i as int]@);
            let m = Message::tool(calls[i].id.as_str(), calls[i].name.as_str(), text, true);
            assert(m@ == result_message(cv[i as int].id, cv[i as int].name, text@, true, None, 0));
            self.ctx.push(m);
            i += 1;
        }
    }

    fn on_calls(&mut self, calls: Vec<ToolCall>, leftover: &str, reasoning: &str) -> (r: TurnStep)
        requires
            old(self).wf(),
        ensures
            final(self).wf(),
            (final(self)@, told(r.events@), r.next@) == old(self)@.on_calls(
                calls_view(calls@),
                leftover@,
                reasoning@,
            ),
    {
        self.retry = RetryLevel::Normal;
        let mut m = Message::assistant(leftover, copy_calls(&calls));
        m.meta.reasoning = opt_reasoning(reasoning);
        m.meta.turn = self.guard.turn();
        assert(m@ == answer_message(leftover@, calls_view(calls@), reasoning@, self.guard@.turn));
        self.ctx.push(m);
        let said = AgentEvent::AssistantMessage { content: leftover.to_owned(), tool_calls: copy_calls(&calls) };
        match self.guard.observe_calls(&calls) {
            Ok(_) => TurnStep { events: one_event(said), next: Next::Execute(calls) },
            Err(e) => {
                let warned = warn(e.to_string());
                let mut events = vec![said, warned];
                assert(told(events@) =~= seq![said@, warned@]);
                let too_often = match &e {
                    GuardError::RepeatedCall(_, n) => *n >= 4,
                    _ => false,
                };
                if too_often {
                    return TurnStep { events, next: Next::Done(outcome_of_guard(&e)) };
                }
                let text = e.to_string().concat(
                    ". Stop repeating this call. Either use a different approach or explain to the user why you are stuck.",
                );
                self.answer_all(&calls, text.as_str());
                let step = self.finish_turn();
                push_events(&mut events, step.events);
                TurnStep { events, next: step.next }
            },
        }
    }

    /// Takes an answer, its thinking already apart from its text.
    pub fn on_answer(&mut self, native: &Vec<ToolCallAcc>, content: String, reasoning: &str) -> (r: TurnStep)
        requires
            old(self).wf(),
        ensures
            final(self).wf(),
            (final(self)@, told(r.events@), r.next@) == old(self)@.on_answer(accs(native@), content@, reasoning@),
    {
        match self.parser.parse(native, content.as_str()) {
            ParseOutcome::NoCalls => self.on_text(content, reasoning),
            ParseOutcome::Malformed { error, snippet } => self.on_malformed(
                content.as_str(),
                error.as_str(),
                snippet.as_str(),
            ),
            ParseOutcome::Calls(pc) => self.on_calls(pc.calls, pc.leftover_text.as_str(), reasoning),
        }
    }

    /// Takes the size of a prompt from what the server measured: the tokens that it read and
    /// those from the cache.
    pub fn note_timings(&mut self, t: &Timings) -> (r: u32)
        ensures
            r == at_most((t.prompt_n + t.cache_n) as nat, u32::MAX as nat),
            final(self)@ == (AgentV {
                ctx: ContextV {
                    last_prompt_total: Some(r),
                    reported_at: old(self)@.ctx.log.len(),
                    ..old(self)@.ctx
                },
                ..old(self)@
            }),
            old(self).wf() ==> final(self).wf(),
    {
        let total: u32 = t.prompt_n.saturating_add(t.cache_n);
        let _ = self.ctx.observe_prompt_total(total);
        total
    }

    /// Takes what the tools gave, in order. A result that is repeated too often ends the
    /// turn, and is not kept.
    pub fn on_results(&mut self, results: &Vec<(ToolCall, ToolOutput)>) -> (r: Result<Vec<String>, TurnStep>)
        requires
            old(self).wf(),
        ensures
            final(self).wf(),
            final(self)@ == after_results(old(self)@, results_view(results@), 0).0,
            match after_results(old(self)@, results_view(results@), 0).1 {
                None => r matches Ok(edits) && strings(edits@) == edited(results_view(results@), results@.len()),
                Some(e) => r matches Err(s) && told(s.events@) == seq![warning(e.message())] && s.next@ == NextV::Done(
                    guard_outcome(e),
                ),
            },
    {
        let ghost start = self@;
        let ghost rv = results_view(results@);
        let mut edits: Vec<String> = Vec::new();
        let mut i: usize = 0;
        assert(strings(edits@) =~= Seq::<Seq<char>>::empty());
        while i < results.len()
            invariant
                i <= results.len(),
                self.wf(),
                start == old(self)@,
                rv == results_view(results@),
                after_results(start, rv, 0) == after_results(self@, rv, i as int),
                strings(edits@) == edited(rv, i as nat),
            decreases results.len() - i,
        {
            let call = &results[i].0;
            let out = &results[i].1;
            assert(rv[i as int] == (call@, out@));
            if out.is_error {
                if let Err(e) = self.guard.observe_error(call.name.as_str(), out.text.as_str()) {
                    return Err(Agent::guarded(&e));
                }
            }
            let mut m = Message::tool(call.id.as_str(), call.name.as_str(), out.text.as_str(), out.is_error);
            m.meta.truncated = out.truncated.is_some();
            m.meta.spill_path = match &out.truncated {
                Some(t) => Some(t.spill_path.clone()),
                None => None,
            };
            m.meta.turn = self.guard.turn();
            assert(m@ == result_message(
                call.id@,
                call.name@,
                out.text@,
                out.is_error,
                out@.spilled(),
                self.guard@.turn,
            ));
            self.ctx.push(m);
            let mut more = copy_strings(&out.edits);
            let ghost x = edits@;
            let ghost y = more@;
            edits.append(&mut more);
            assert(strings(edits@) =~= strings(x) + strings(y));
            i += 1;
        }
        Ok(edits)
    }

    pub fn turn(&self) -> (r: u32)
        ensures
            r == self@.guard.turn,
    {
        self.guard.turn()
    }

    pub fn transcript(&self) -> (r: &Vec<Message>)
        ensures
            messages(r@) == self@.ctx.log,
    {
        self.ctx.log()
    }

    /// The last answer that has a text.
    pub fn last_assistant_text(&self) -> (r: Option<&str>)
        ensures
            opt_str(r) == last_answer(self@.ctx.log, self@.ctx.log.len()),
    {
        let log = self.ctx.log();
        let ghost lv = messages(log@);
        let mut i: usize = log.len();
        while i > 0
            invariant
                i <= log.len(),
                lv == messages(log@),
                lv == self@.ctx.log,
                last_answer(lv, lv.len()) == last_answer(lv, i as nat),
            decreases i,
        {
            assert(lv[i - 1] == log@[i - 1]@);
            if log[i - 1].role == Role::Assistant && !log[i - 1].content.as_str().is_empty() {
                return Some(log[i - 1].content.as_str());
            }
            i -= 1;
        }
        None
    }
}

/// The text of the last answer with one among the first `n` messages.
pub open spec fn last_answer(log: Seq<MessageV>, n: nat) -> Option<Seq<char>>
    decreases n,
{
    if n == 0 || n > log.len() {
        None
    } else if log[n - 1].role == Role::Assistant && log[n - 1].content.len() > 0 {
        Some(log[n - 1].content)
    } else {
        last_answer(log, (n - 1) as nat)
    }
}

// ---------------------------------------------------------------- laws

proof fn lemma_answered_adds(log: Seq<MessageV>, calls: Seq<ToolCallV>, text: Seq<char>, n: nat)
    requires
        n <= calls.len(),
    ensures
        answered_all(log, calls, text, n).len() == log.len() + n,
        answered_all(log, calls, text, n).take(log.len() as int) == log,
    decreases n,
{
    if n > 0 {
        lemma_answered_adds(log, calls, text, (n - 1) as nat);
        let p = answered_all(log, calls, text, (n - 1) as nat);
        let r = answered_all(log, calls, text, n);
        assert(r.take(log.len() as int) =~= p.take(log.len() as int));
    } else {
        assert(log.take(log.len() as int) =~= log);
    }
}

/// Taking an answer only adds to the conversation: what every request began with, and all
/// that was said before, stays as it was, so that the engine can use it again.
pub proof fn law_answers_only_add(a: AgentV, native: Seq<ToolCallAccV>, content: Seq<char>, reasoning: Seq<char>)
    ensures
        ({
            let b = a.on_answer(native, content, reasoning).0;
            &&& b.ctx.prefix == a.ctx.prefix
            &&& b.ctx.log.len() >= a.ctx.log.len()
            &&& b.ctx.log.take(a.ctx.log.len() as int) == a.ctx.log
        }),
{
    let n = a.ctx.log.len() as int;
    let b = a.on_answer(native, content, reasoning).0;
    if let OutcomeV::Calls { calls, leftover_text, .. } = parse_outcome(a.parser, native, content).0 {
        let (g, e) = a.guard.after_calls(calls);
        let log = a.ctx.log.push(answer_message(leftover_text, calls, reasoning, a.guard.turn));
        if let Some(e) = e {
            lemma_answered_adds(log, calls, repeat_hint(e), calls.len());
            let all = answered_all(log, calls, repeat_hint(e), calls.len());
            assert(all.take(n) =~= all.take(n + 1).take(n));
        }
        assert(log.take(n) =~= a.ctx.log);
    }
    assert(b.ctx.log.take(n) =~= a.ctx.log);
}

/// Taking results only adds to the conversation, and where the turn goes on there is one
/// message for each result.
pub proof fn law_results_only_add(a: AgentV, rs: Seq<(ToolCallV, OutputV)>, i: int)
    requires
        0 <= i <= rs.len(),
    ensures
        ({
            let (b, e) = after_results(a, rs, i);
            &&& b.ctx.prefix == a.ctx.prefix
            &&& b.ctx.log.len() >= a.ctx.log.len()
            &&& b.ctx.log.take(a.ctx.log.len() as int) == a.ctx.log
            &&& e is None ==> b.ctx.log.len() == a.ctx.log.len() + rs.len() - i
        }),
    decreases rs.len() - i,
{
    let n = a.ctx.log.len() as int;
    if i < rs.len() {
        let (call, out) = rs[i];
        let (g, e) = if out.is_error {
            a.guard.after_error(call.name, out.text)
        } else {
            (a.guard, None)
        };
        let b = AgentV { guard: g, ..a };
        if e is None {
            let c = b.said(result_message(call.id, call.name, out.text, out.is_error, out.spilled(), g.turn));
            law_results_only_add(c, rs, i + 1);
            let d = after_results(c, rs, i + 1).0;
            assert(d.ctx.log.take(n) =~= d.ctx.log.take(n + 1).take(n));
            assert(c.ctx.log.take(n) =~= a.ctx.log);
        }
    }
    assert(a.ctx.log.take(n) =~= a.ctx.log);
}

/// A call that cannot be read is pointed out once; after a second one a call is demanded.
pub proof fn law_malformed_calls_escalate(
    a: AgentV,
    content: Seq<char>,
    error: Seq<char>,
    snippet: Seq<char>,
)
    requires
        a.retry == RetryLevel::Normal,
    ensures
        ({
            let b = a.on_malformed(content, error, snippet).0;
            let c = b.on_malformed(content, error, snippet).0;
            &&& b.retry == RetryLevel::Reminded
            &&& c.retry == RetryLevel::Forced
        }),
{
}

/// With a cap on the turns no turn goes on beyond it.
pub proof fn law_turns_are_capped(a: AgentV)
    requires
        a.guard.max_turns > 0,
        a.guard.turn + 1 >= a.guard.max_turns,
    ensures
        a.turned().2 == NextV::Done(AgentOutcomeV::MaxTurns),
{
}

/// A message is an answer of the model.
pub open spec fn is_answer(m: MessageV, content: Seq<char>, calls: Seq<ToolCallV>, reasoning: Seq<char>, turn: u32) -> bool {
    &&& m.role == Role::Assistant
    &&& m.content == content
    &&& m.tool_calls == calls
    &&& m.tool_call_id is None
    &&& m.meta.turn == turn
    &&& !m.meta.is_summary && !m.meta.is_repo_map
    &&& reasoning.len() > 0 ==> m.meta.reasoning == Some(reasoning)
    &&& reasoning.len() == 0 ==> m.meta.reasoning is None
}

/// A message is the result of a call.
pub open spec fn is_result(m: MessageV, call: ToolCallV, text: Seq<char>, is_error: bool) -> bool {
    &&& m.role == Role::Tool
    &&& m.tool_call_id == Some(call.id)
    &&& m.meta.tool_name == Some(call.name)
    &&& m.content == text
    &&& m.meta.is_error == is_error
    &&& m.tool_calls.len() == 0
    &&& !m.meta.is_summary && !m.meta.is_repo_map
}

/// An answer without calls is added to the conversation, is told, and ends the turn, unless the
/// model gives it for the third time.
#[verifier::rlimit(40)]
pub proof fn law_an_answer_in_words_ends_the_turn(
    a: AgentV,
    native: Seq<ToolCallAccV>,
    content: Seq<char>,
    reasoning: Seq<char>,
)
    requires
        parse_outcome(a.parser, native, content).0 is NoCalls,
        a.guard.texts.len() <= 8,
    ensures
        ({
            let (b, events, next) = a.on_answer(native, content, reasoning);
            let n = count_of(a.guard.texts, blake3_digest(encode_utf8(trimmed(content)))) + 1;
            &&& trimmed(content).len() == 0 || n < 3 ==> {
                &&& next == NextV::Done(AgentOutcomeV::EndTurn)
                &&& b.ctx.log.len() == a.ctx.log.len() + 1
                &&& b.ctx.log.drop_last() == a.ctx.log
                &&& is_answer(b.ctx.log.last(), content, Seq::empty(), reasoning, a.guard.turn)
                &&& events == seq![AgentEventV::AssistantMessage { content, tool_calls: Seq::empty() }]
            }
            &&& trimmed(content).len() > 0 && n >= 3 ==> next is Done && next->Done_0 is LoopDetected && b.ctx.log
                == a.ctx.log
        }),
{
    lemma_text_seen(a.guard, content);
    let b = a.on_answer(native, content, reasoning).0;
    if b.ctx.log.len() == a.ctx.log.len() + 1 {
        assert(b.ctx.log.drop_last() =~= a.ctx.log);
    }
}

proof fn lemma_text_seen(g: GuardV, text: Seq<char>)
    requires
        g.texts.len() <= 8,
    ensures
        ({
            let n = count_of(g.texts, blake3_digest(encode_utf8(trimmed(text)))) + 1;
            let (after, e) = g.after_text(text);
            &&& trimmed(text).len() == 0 ==> e is None
            &&& trimmed(text).len() > 0 && n >= 3 ==> e == Some(GuardErrorV::RepeatedOutput(n))
            &&& trimmed(text).len() > 0 && n < 3 ==> e is None
            &&& after.turn == g.turn
        }),
{
    let h = GuardV { turn: 0, ..g };
    law_repeated_texts_and_turns_are_reported(h, text);
    assert(h.after_text(text).1 == g.after_text(text).1);
}

/// An answer with calls is added to the conversation with all of them, and they are run, as
/// they were asked for. A call that is repeated for the third time is not run: every call of
/// the answer gets the same error as its result, and the model goes on; one that is repeated
/// more often ends the turn.
#[verifier::rlimit(40)]
pub proof fn law_calls_are_run_as_asked(
    a: AgentV,
    native: Seq<ToolCallAccV>,
    content: Seq<char>,
    reasoning: Seq<char>,
)
    requires
        parse_outcome(a.parser, native, content).0 is Calls,
    ensures
        ({
            let o = parse_outcome(a.parser, native, content).0;
            let calls = o->calls;
            let (b, events, next) = a.on_answer(native, content, reasoning);
            let n = a.ctx.log.len() as int;
            let seen = a.guard.after_calls(calls).1;
            &&& b.ctx.log.len() > n
            &&& b.ctx.log.take(n) == a.ctx.log
            &&& is_answer(b.ctx.log[n], o->leftover_text, calls, reasoning, a.guard.turn)
            &&& events.len() > 0 && events[0] == (AgentEventV::AssistantMessage {
                content: o->leftover_text,
                tool_calls: calls,
            })
            &&& b.retry == RetryLevel::Normal
            &&& seen is None ==> next == NextV::Execute(calls) && b.ctx.log.len() == n + 1
            &&& seen is Some ==> !(next is Execute)
            &&& seen matches Some(GuardErrorV::RepeatedCall(_, m)) ==> {
                &&& m >= 4 ==> next is Done && next->Done_0 is LoopDetected && b.ctx.log.len() == n + 1
                &&& m < 4 ==> {
                    &&& b.ctx.log.len() == n + 1 + calls.len()
                    &&& forall|i: int|
                        0 <= i < calls.len() ==> is_result(
                            #[trigger] b.ctx.log[n + 1 + i],
                            calls[i],
                            repeat_hint(seen->Some_0),
                            true,
                        )
                    &&& a.guard.turn < u32::MAX && (a.guard.max_turns == 0 || a.guard.turn + 1 < a.guard.max_turns)
                        ==> next is Again
                }
            }
        }),
{
    law_answers_only_add(a, native, content, reasoning);
    let o = parse_outcome(a.parser, native, content).0;
    let calls = o->calls;
    let n = a.ctx.log.len() as int;
    let b = a.on_answer(native, content, reasoning).0;
    let log = a.ctx.log.push(answer_message(o->leftover_text, calls, reasoning, a.guard.turn));
    if let Some(e) = a.guard.after_calls(calls).1 {
        lemma_answered(log, calls, repeat_hint(e), calls.len());
        let all = answered_all(log, calls, repeat_hint(e), calls.len());
        assert(all[n] == all.take(n + 1)[n]);
        if !(e matches GuardErrorV::RepeatedCall(_, m) && m >= 4) {
            assert(b.ctx.log == all);
            assert forall|i: int| 0 <= i < calls.len() implies is_result(
                #[trigger] b.ctx.log[n + 1 + i],
                calls[i],
                repeat_hint(e),
                true,
            ) by {
                assert(is_result(all[log.len() + i], calls[i], repeat_hint(e), true));
            }
        }
    }
}

proof fn lemma_answered(log: Seq<MessageV>, calls: Seq<ToolCallV>, text: Seq<char>, n: nat)
    requires
        n <= calls.len(),
    ensures
        answered_all(log, calls, text, n).len() == log.len() + n,
        answered_all(log, calls, text, n).take(log.len() as int) == log,
        forall|i: int|
            0 <= i < n ==> is_result(#[trigger] answered_all(log, calls, text, n)[log.len() + i], calls[i], text, true),
    decreases n,
{
    if n > 0 {
        lemma_answered(log, calls, text, (n - 1) as nat);
        let p = answered_all(log, calls, text, (n - 1) as nat);
        let r = answered_all(log, calls, text, n);
        assert(r.take(log.len() as int) =~= p.take(log.len() as int));
        assert forall|i: int| 0 <= i < n implies is_result(#[trigger] r[log.len() + i], calls[i], text, true) by {
            if i < n - 1 {
                assert(r[log.len() + i] == p[log.len() + i]);
            }
        }
    } else {
        assert(log.take(log.len() as int) =~= log);
    }
}

/// An answer whose calls cannot be read is kept as the model wrote it, with a message of the
/// user's behind it that says what is wrong with it, and the model is asked again as long as
/// there are turns.
#[verifier::rlimit(40)]
pub proof fn law_a_malformed_answer_is_pointed_out(
    a: AgentV,
    native: Seq<ToolCallAccV>,
    content: Seq<char>,
    reasoning: Seq<char>,
)
    requires
        parse_outcome(a.parser, native, content).0 is Malformed,
        a.guard.turn < u32::MAX,
    ensures
        ({
            let error = parse_outcome(a.parser, native, content).0->error;
            let (b, events, next) = a.on_answer(native, content, reasoning);
            let n = a.ctx.log.len() as int;
            &&& b.ctx.log.len() == n + 2
            &&& b.ctx.log.take(n) == a.ctx.log
            &&& b.ctx.log[n].role == Role::Assistant && b.ctx.log[n].content == content
            &&& b.ctx.log[n + 1].role == Role::User && holds(b.ctx.log[n + 1].content, error)
            &&& b.guard.turn == a.guard.turn + 1
            &&& a.guard.max_turns == 0 || a.guard.turn + 1 < a.guard.max_turns ==> next is Again
            &&& a.guard.max_turns > 0 && a.guard.turn + 1 >= a.guard.max_turns ==> next == NextV::Done(
                AgentOutcomeV::MaxTurns,
            )
        }),
{
    let error = parse_outcome(a.parser, native, content).0->error;
    let snippet = parse_outcome(a.parser, native, content).0->snippet;
    let b = a.on_answer(native, content, reasoning).0;
    let n = a.ctx.log.len() as int;
    assert(b.ctx.log.take(n) =~= a.ctx.log);
    let t = b.ctx.log[n + 1].content;
    if a.retry == RetryLevel::Normal {
        let h = "Your tool call could not be parsed: "@;
        assert(t.subrange(h.len() as int, h.len() as int + error.len()) =~= error);
        assert(at(t, h.len() as int, error));
    } else {
        let h = "Tool call still malformed: "@;
        assert(t.subrange(h.len() as int, h.len() as int + error.len()) =~= error);
        assert(at(t, h.len() as int, error));
    }
}

/// Every result becomes a message under the identifier of its call, with its text and whether
/// it is an error, in the order of the calls; and every file that was edited is among those to
/// check.
pub proof fn law_every_result_is_told(a: AgentV, rs: Seq<(ToolCallV, OutputV)>, i: int, k: int)
    requires
        0 <= i <= k < rs.len(),
        after_results(a, rs, i).1 is None,
    ensures
        ({
            let log = after_results(a, rs, i).0.ctx.log;
            let m = log[a.ctx.log.len() + k - i];
            &&& log.len() == a.ctx.log.len() + rs.len() - i
            &&& is_result(m, rs[k].0, rs[k].1.text, rs[k].1.is_error)
            &&& m.meta.truncated == rs[k].1.truncated is Some
        }),
        forall|e: Seq<char>| rs[k].1.edits.contains(e) ==> #[trigger] edited(rs, rs.len()).contains(e),
    decreases rs.len() - i,
{
    law_results_only_add(a, rs, i);
    lemma_edited(rs, rs.len(), k);
    let (call, out) = rs[i];
    let (g, e) = if out.is_error {
        a.guard.after_error(call.name, out.text)
    } else {
        (a.guard, None)
    };
    let c = AgentV { guard: g, ..a }.said(
        result_message(call.id, call.name, out.text, out.is_error, out.spilled(), g.turn),
    );
    law_results_only_add(c, rs, i + 1);
    let log = after_results(a, rs, i).0.ctx.log;
    let n = a.ctx.log.len() as int;
    if k == i {
        assert(log[n] == log.take(n + 1)[n]);
    } else {
        law_every_result_is_told(c, rs, i + 1, k);
        assert(c.ctx.log.len() + k - (i + 1) == n + k - i);
    }
}

proof fn lemma_edited(rs: Seq<(ToolCallV, OutputV)>, n: nat, k: int)
    requires
        n <= rs.len(),
        0 <= k < n,
    ensures
        forall|e: Seq<char>| rs[k].1.edits.contains(e) ==> #[trigger] edited(rs, n).contains(e),
    decreases n,
{
    let p = edited(rs, (n - 1) as nat);
    let q = rs[n - 1].1.edits;
    let r = edited(rs, n);
    if k < n - 1 {
        lemma_edited(rs, (n - 1) as nat, k);
    }
    assert forall|e: Seq<char>| rs[k].1.edits.contains(e) implies #[trigger] r.contains(e) by {
        if k < n - 1 {
            assert(p.contains(e));
            let i = choose|i: int| 0 <= i < p.len() && p[i] == e;
            assert(r[i] == e);
        } else {
            let i = choose|i: int| 0 <= i < q.len() && q[i] == e;
            assert(r[p.len() + i] == e);
        }
    }
}

/// A request asks the model of the profile for an answer to the whole conversation, with the
/// tools of the agent, where it has any, and for no more tokens than asked for, or than the
/// profile allows.
pub proof fn law_a_request_holds_the_conversation(a: AgentV, p: ProfileV, choice: Option<JsonV>, max: Option<u32>)
    ensures
        ({
            let r = a.request(p, choice, max);
            &&& r.model == p.asked_model()
            &&& r.messages.len() == a.ctx.log.len() + 1
            &&& r.messages[0] == a.ctx.prefix.system.value()
            &&& forall|i: int| 0 <= i < a.ctx.log.len() ==> r.messages[i + 1] == (#[trigger] a.ctx.log[i]).value()
            &&& a.tools.len() == 0 ==> r.tools is None
            &&& a.tools.len() > 0 ==> r.tools == Some(a.ctx.prefix.tools_json)
            &&& r.tool_choice == choice
            &&& max is Some ==> r.max_tokens == max
            &&& max is None ==> r.max_tokens == Some(p.max_tokens)
            &&& r.temperature == a.task.sampling_of(p).temperature
            &&& r.top_p == a.task.sampling_of(p).top_p
            &&& r.top_k == a.task.sampling_of(p).top_k
            &&& r.stream
            &&& r.cache_prompt == Some(true)
            &&& a.effort_override matches Some(e) ==> a.effort(p) == e
        }),
{
}

/// Thinking between marks is taken out of an answer and kept apart; thinking that came apart
/// leaves the answer as it is, and so does an answer without marks.
#[verifier::rlimit(40)]
pub proof fn law_thinking_is_taken_out(thought: Seq<char>, answer: Seq<char>, reasoning: Seq<char>)
    requires
        forall|i: int| 0 <= i < thought.len() ==> #[trigger] thought[i] != '<',
        forall|i: int| 0 <= i < answer.len() ==> #[trigger] answer[i] != '<',
    ensures
        separated("<think>"@ + thought + "</think>"@ + answer, Seq::empty()) == (trimmed(answer), trimmed(thought)),
        reasoning.len() > 0 ==> separated(answer, reasoning) == (answer, reasoning),
        separated(answer, Seq::empty()) == (answer, Seq::<char>::empty()),
        separated("<think>"@ + thought, Seq::empty()) == (trimmed(Seq::<char>::empty()), trimmed(thought)),
{
    reveal_strlit("<think>");
    reveal_strlit("</think>");
    reveal_strlit("<thought>");
    let o = "<think>"@;
    let c = "</think>"@;
    let s = o + thought + c + answer;
    lemma_find_from(s, o, 0);
    assert(s.subrange(0, 7) =~= o);
    assert(at(s, 0, o));
    lemma_find_from(s, c, 0);
    let k = 7 + thought.len() as int;
    assert(s.subrange(k, k + 8) =~= c);
    assert(at(s, k, c));
    assert forall|j: int| 0 <= j < k implies !#[trigger] at(s, j, c) by {
        if at(s, j, c) {
            let w = s.subrange(j, j + 8);
            assert(w[0] == s[j] && w[1] == s[j + 1]);
            if j == 0 {
                assert(s[1] == 't');
            } else if j < 7 {
                assert(s[j] == o[j]);
            } else {
                assert(s[j] == thought[j - 7]);
            }
        }
    }
    assert(find_from(s, o, 0) == Some(0int));
    assert(find_from(s, c, 0) == Some(k));
    assert(s.take(0) + s.skip(k + 8) =~= answer);
    assert(s.subrange(7, k) =~= thought);
    lemma_no_mark(answer, "<think>"@);
    lemma_no_mark(answer, "<thought>"@);
    let t = o + thought;
    lemma_find_from(t, o, 0);
    assert(t.subrange(0, 7) =~= o);
    assert(at(t, 0, o));
    lemma_find_from(t, c, 0);
    if find_from(t, c, 0) is Some {
        let j = find_from(t, c, 0)->Some_0;
        let w = t.subrange(j, j + 8);
        assert(w[0] == t[j] && w[1] == t[j + 1]);
        if j == 0 {
            assert(t[1] == 't');
        } else if j < 7 {
            assert(t[j] == o[j]);
        } else {
            assert(t[j] == thought[j - 7]);
        }
    }
    assert(t.skip(7) =~= thought);
    assert(t.subrange(7, t.len() as int) =~= thought);
    assert(t.take(0) =~= Seq::<char>::empty());
}

proof fn lemma_no_mark(s: Seq<char>, mark: Seq<char>)
    requires
        forall|i: int| 0 <= i < s.len() ==> #[trigger] s[i] != '<',
        mark.len() > 0,
        mark[0] == '<',
    ensures
        find_from(s, mark, 0) is None,
{
    lemma_find_from(s, mark, 0);
    if find_from(s, mark, 0) is Some {
        let j = find_from(s, mark, 0)->Some_0;
        assert(s.subrange(j, j + mark.len())[0] == s[j]);
    }
}

/// The last answer is the text of the last message of the assistant that has one.
pub proof fn law_the_last_answer_counts(log: Seq<MessageV>, n: nat, k: int)
    requires
        0 <= k < n <= log.len(),
        log[k].role == Role::Assistant,
        log[k].content.len() > 0,
        forall|j: int| k < j < n ==> (#[trigger] log[j]).role != Role::Assistant || log[j].content.len() == 0,
    ensures
        last_answer(log, n) == Some(log[k].content),
    decreases n,
{
    if k < n - 1 {
        assert(log[n - 1].role != Role::Assistant || log[n - 1].content.len() == 0);
        law_the_last_answer_counts(log, (n - 1) as nat, k);
    }
}

/// A model whose call cannot be read is reminded, and then forced; the first time it is told the
/// tools that there are, and what it wrote. What the guard reports ends a turn as a loop, but for
/// the number of turns.
#[verifier::rlimit(40)]
pub proof fn law_a_model_is_reminded_then_forced(
    a: AgentV,
    native: Seq<ToolCallAccV>,
    content: Seq<char>,
    reasoning: Seq<char>,
)
    requires
        parse_outcome(a.parser, native, content).0 is Malformed,
    ensures
        ({
            let o = parse_outcome(a.parser, native, content).0;
            let b = a.on_answer(native, content, reasoning).0;
            let told = b.ctx.log.last().content;
            &&& a.retry == RetryLevel::Normal ==> b.retry == RetryLevel::Reminded && holds(told, o->snippet) && holds(
                told,
                joined(names_of(a.tools), ", "@),
            )
            &&& a.retry != RetryLevel::Normal ==> b.retry == RetryLevel::Forced
        }),
        forall|e: GuardErrorV| !(e is MaxTurns) ==> #[trigger] guard_outcome(e) is LoopDetected,
        forall|e: GuardErrorV| e is MaxTurns ==> #[trigger] guard_outcome(e) == AgentOutcomeV::MaxTurns,
{
    let o = parse_outcome(a.parser, native, content).0;
    let b = a.on_answer(native, content, reasoning).0;
    if a.retry == RetryLevel::Normal {
        let t = b.ctx.log.last().content;
        let names = joined(names_of(a.tools), ", "@);
        let h = "Your tool call could not be parsed: "@ + o->error + ". Snippet: "@;
        let m = "\nRespond again using the native tool-call format with valid JSON arguments. Available tools: "@;
        assert(t == h + o->snippet + m + names + "."@);
        let k = h.len() as int;
        assert(t.subrange(k, k + o->snippet.len()) =~= o->snippet);
        assert(at(t, k, o->snippet));
        let q = k + o->snippet.len() + m.len();
        assert(t.subrange(q, q + names.len()) =~= names);
        assert(at(t, q, names));
    }
}

} // verus!
