//! A turn of the agent from its beginning to its end: what has happened comes in, and what
//! is to be done next goes out. Whoever drives it counts tokens, asks the engine, runs the
//! tools and the checks, and hands back what came of it.

use crate::agent::{
    Agent, AgentOutcome, AgentOutcomeV, AgentV, FailedStep, Next, NextV, OutputV, ToolOutput,
    TurnStep, after_results, answer_message, edited, guard_outcome, is_result, law_answers_only_add,
    law_every_result_is_told, law_results_only_add, restart_text, result_message, results_view,
    separable, separate_thinking, separated, tells_of_overflow, warning,
};
use crate::config::{Profile, ProfileV, check_lists};
use crate::context::{ContextV, goal, law_no_call_is_left_without_results, repaired_tail};
use crate::events::{AgentEvent, AgentEventV, told};
use crate::execute::{
    CheckRun, add_verification, check_commands, checks_of, some_failed, verification_call,
    verification_text,
};
use crate::json::{JsonV, member};
use crate::message::{Role, ToolCall, ToolCallV, at_most, calls_view};
use crate::sse::{Answer, AnswerV};
use crate::text::{joined, strings};
use vstd::prelude::*;
use vstd::string::*;

verus! {

/// What has happened. `estimates` holds a token estimate for each message of the
/// conversation as it is then.
#[derive(Debug)]
#[allow(inconsistent_fields)]
pub enum LoopEvent {
    /// A turn goes on, or is broken off.
    Began { cancelled: bool, estimates: Vec<u32> },
    /// The messages were counted after a restart.
    Counted { estimates: Vec<u32> },
    /// The conversation was summarized, or could not be.
    Compacted { error: Option<String>, estimates: Vec<u32> },
    /// An answer has come.
    Answered { answer: Answer },
    /// No answer has come.
    Failed { cancelled: bool, error: String, estimates: Vec<u32> },
    /// The tools have run.
    Ran { results: Vec<(ToolCall, ToolOutput)> },
    /// The checks have run.
    Checked { commands: Vec<String>, runs: Vec<CheckRun> },
}

/// What is to be done.
#[derive(Debug)]
pub enum LoopAction {
    /// Go on with the turn from its beginning.
    Begin,
    /// Count the messages.
    Count,
    /// Summarize the conversation.
    Compact,
    /// Ask the engine.
    Ask,
    /// Run the tools.
    Execute(Vec<ToolCall>),
    /// Run the checks: at most the first few of these.
    Check(Vec<String>),
    /// The turn is over.
    Done(AgentOutcome),
}

pub enum LoopActionV {
    Begin,
    Count,
    Compact,
    Ask,
    Execute(Seq<ToolCallV>),
    Check(Seq<Seq<char>>),
    Done(AgentOutcomeV),
}

impl View for LoopAction {
    type V = LoopActionV;

    open spec fn view(&self) -> LoopActionV {
        match self {
            LoopAction::Begin => LoopActionV::Begin,
            LoopAction::Count => LoopActionV::Count,
            LoopAction::Compact => LoopActionV::Compact,
            LoopAction::Ask => LoopActionV::Ask,
            LoopAction::Execute(c) => LoopActionV::Execute(calls_view(c@)),
            LoopAction::Check(c) => LoopActionV::Check(strings(c@)),
            LoopAction::Done(o) => LoopActionV::Done(o@),
        }
    }
}

/// What is told, and what is to be done.
#[derive(Debug)]
pub struct LoopStep {
    pub events: Vec<AgentEvent>,
    pub action: LoopAction,
}

/// What a turn goes by beside the agent itself: the tokens at which the conversation is
/// summarized, those that an answer needs, and whether the paths are those of Windows.
#[derive(Debug)]
pub struct LoopLimits {
    pub limit: u32,
    pub reserve: u32,
    pub windows: bool,
}

pub open spec fn action_of(n: NextV) -> LoopActionV {
    match n {
        NextV::Done(o) => LoopActionV::Done(o),
        NextV::Again => LoopActionV::Begin,
        NextV::Execute(c) => LoopActionV::Execute(c),
    }
}

impl AgentV {
    pub open spec fn aborted(self) -> AgentV {
        AgentV { ctx: ContextV { log: repaired_tail(self.ctx.log), ..self.ctx }, ..self }
    }

    pub open spec fn is_full(self, estimates: Seq<u32>) -> bool {
        self.ctx.used(estimates) >= self.ctx.n_ctx
    }

    pub open spec fn restart_event(self) -> AgentEventV {
        warning(restart_text(goal(self.ctx.log)))
    }

    pub open spec fn turn_event(self, p: ProfileV) -> AgentEventV {
        AgentEventV::TurnStart { turn: self.guard.turn, task: self.task, effort: self.effort(p) }
    }

    /// What follows where the context is not full: it is summarized where it grows too
    /// large, else the engine is asked.
    pub open spec fn asked(self, p: ProfileV, l: LoopLimits, estimates: Seq<u32>) -> (Seq<AgentEventV>, LoopActionV) {
        if self.ctx.used(estimates) >= l.limit || self.ctx.used(estimates) + l.reserve > self.ctx.n_ctx {
            (Seq::empty(), LoopActionV::Compact)
        } else {
            (seq![self.turn_event(p)], LoopActionV::Ask)
        }
    }

    /// What follows an answer, its thinking taken out of its text.
    pub open spec fn answered(self, a: AnswerV) -> (AgentV, Seq<AgentEventV>, NextV) {
        let (content, reasoning) = separated(a.content, a.reasoning);
        let b = match a.timings {
            Some(t) => AgentV {
                ctx: ContextV {
                    last_prompt_total: Some(at_most((t.prompt_n + t.cache_n) as nat, u32::MAX as nat) as u32),
                    reported_at: self.ctx.log.len(),
                    ..self.ctx
                },
                ..self
            },
            None => self,
        };
        b.on_answer(a.calls, content, reasoning)
    }

    /// What follows the results of the tools.
    pub open spec fn ran(
        self,
        rs: Seq<(ToolCallV, OutputV)>,
        checks: Seq<(Seq<char>, Seq<Seq<char>>)>,
        windows: bool,
    ) -> (AgentV, Seq<AgentEventV>, LoopActionV) {
        let (b, e) = after_results(self, rs, 0);
        match e {
            Some(e) => (b, seq![warning(e.message())], LoopActionV::Done(guard_outcome(e))),
            None => {
                let edits = edited(rs, rs.len());
                let commands = checks_of(edits, checks, edits.len(), windows);
                if commands.len() > 0 {
                    (b, Seq::empty(), LoopActionV::Check(commands))
                } else {
                    let (c, es, next) = b.turned();
                    (c, es, action_of(next))
                }
            },
        }
    }

    /// The agent with the checks in its conversation.
    pub open spec fn checked(self, commands: Seq<Seq<char>>, runs: Seq<CheckRun>) -> AgentV {
        let turn = self.guard.turn;
        let call = verification_call(turn, commands);
        self.said(answer_message(Seq::empty(), seq![call], Seq::empty(), turn)).said(
            result_message(call.id, "shell"@, verification_text(runs), some_failed(runs), None, turn),
        )
    }

    /// What follows an event: the agent after it, what is told, and what is to be done.
    pub open spec fn after_event(
        self,
        e: LoopEvent,
        p: ProfileV,
        l: LoopLimits,
        checks: Seq<(Seq<char>, Seq<Seq<char>>)>,
    ) -> (AgentV, Seq<AgentEventV>, LoopActionV) {
        match e {
            LoopEvent::Began { cancelled, estimates } => if cancelled {
                (self.aborted(), Seq::empty(), LoopActionV::Done(AgentOutcomeV::Aborted))
            } else if self.is_full(estimates@) {
                (self.restarted(), seq![self.restart_event()], LoopActionV::Count)
            } else {
                (self, self.asked(p, l, estimates@).0, self.asked(p, l, estimates@).1)
            },
            LoopEvent::Counted { estimates } => (
                self,
                self.asked(p, l, estimates@).0,
                self.asked(p, l, estimates@).1,
            ),
            LoopEvent::Compacted { error, estimates } => {
                let first = match error {
                    Some(m) => seq![warning("compaction failed: "@ + m@)],
                    None => Seq::empty(),
                };
                if self.is_full(estimates@) {
                    let b = self.restarted();
                    (b, first + seq![self.restart_event(), b.turn_event(p)], LoopActionV::Ask)
                } else {
                    (self, first + seq![self.turn_event(p)], LoopActionV::Ask)
                }
            },
            LoopEvent::Answered { answer } => {
                let (b, es, next) = self.answered(answer@);
                (b, es, action_of(next))
            },
            LoopEvent::Failed { cancelled, error, estimates } => if cancelled {
                (self.aborted(), Seq::empty(), LoopActionV::Done(AgentOutcomeV::Aborted))
            } else if tells_of_overflow(error@) || self.is_full(estimates@) {
                (
                    self.restarted(),
                    seq![
                        warning("engine context full ("@ + error@ + "); restarting with fresh context"@),
                        self.restart_event(),
                    ],
                    LoopActionV::Begin,
                )
            } else {
                (
                    self,
                    seq![AgentEventV::Error { text: error@ }],
                    LoopActionV::Done(AgentOutcomeV::EngineError(error@)),
                )
            },
            LoopEvent::Ran { results } => self.ran(results_view(results@), checks, l.windows),
            LoopEvent::Checked { commands, runs } => {
                let (b, es, next) = self.checked(strings(commands@), runs@).turned();
                (b, es, action_of(next))
            },
        }
    }

    /// Whether an event can follow: the estimates are of the messages that there are, and
    /// the thinking can be taken out of an answer.
    pub open spec fn can_follow(self, e: LoopEvent) -> bool {
        match e {
            LoopEvent::Began { estimates, .. } => self.ctx.countable(estimates@),
            LoopEvent::Counted { estimates } => self.ctx.countable(estimates@),
            LoopEvent::Compacted { estimates, .. } => self.ctx.countable(estimates@),
            LoopEvent::Answered { answer } => answer@.reasoning.len() > 0 || separable(answer@.content),
            LoopEvent::Failed { estimates, .. } => self.ctx.countable(estimates@),
            _ => true,
        }
    }
}

fn from_next(s: TurnStep) -> (r: LoopStep)
    ensures
        told(r.events@) == told(s.events@),
        r.action@ == action_of(s.next@),
{
    let action = match s.next {
        Next::Done(o) => LoopAction::Done(o),
        Next::Again => LoopAction::Begin,
        Next::Execute(c) => LoopAction::Execute(c),
    };
    LoopStep { events: s.events, action }
}

fn no_events() -> (r: Vec<AgentEvent>)
    ensures
        told(r@) == Seq::<AgentEventV>::empty(),
{
    let r: Vec<AgentEvent> = Vec::new();
    assert(told(r@) =~= Seq::<AgentEventV>::empty());
    r
}

fn push_event(v: &mut Vec<AgentEvent>, e: AgentEvent)
    ensures
        told(final(v)@) == told(old(v)@).push(e@),
{
    let ghost b = v@;
    v.push(e);
    assert(told(v@) =~= told(b).push(e@));
}

impl Agent {
    fn turn_start(&self, profile: &Profile) -> (r: AgentEvent)
        ensures
            r@ == self@.turn_event(profile@),
    {
        AgentEvent::TurnStart { turn: self.turn(), task: self.task, effort: self.effort(profile) }
    }

    fn ask(&self, profile: &Profile, l: &LoopLimits, estimates: &Vec<u32>) -> (r: LoopStep)
        requires
            self@.ctx.countable(estimates@),
        ensures
            (told(r.events@), r.action@) == self@.asked(profile@, *l, estimates@),
    {
        let mut events = no_events();
        if self.ctx.needs_compaction(l.limit, l.reserve, estimates) {
            return LoopStep { events, action: LoopAction::Compact };
        }
        push_event(&mut events, self.turn_start(profile));
        assert(told(events@) =~= seq![self@.turn_event(profile@)]);
        LoopStep { events, action: LoopAction::Ask }
    }

    fn on_began(&mut self, cancelled: bool, estimates: &Vec<u32>, profile: &Profile, l: &LoopLimits) -> (r: LoopStep)
        requires
            old(self).wf(),
            old(self)@.ctx.countable(estimates@),
        ensures
            final(self).wf(),
            (final(self)@, told(r.events@), r.action@) == if cancelled {
                (old(self)@.aborted(), Seq::empty(), LoopActionV::Done(AgentOutcomeV::Aborted))
            } else if old(self)@.is_full(estimates@) {
                (old(self)@.restarted(), seq![old(self)@.restart_event()], LoopActionV::Count)
            } else {
                (
                    old(self)@,
                    old(self)@.asked(profile@, *l, estimates@).0,
                    old(self)@.asked(profile@, *l, estimates@).1,
                )
            },
    {
        if cancelled {
            return LoopStep { events: no_events(), action: LoopAction::Done(self.abort_turn()) };
        }
        match self.start_again_if_full(estimates) {
            Some(e) => {
                let events = vec![e];
                assert(told(events@) =~= seq![e@]);
                LoopStep { events, action: LoopAction::Count }
            },
            None => self.ask(profile, l, estimates),
        }
    }

    fn on_compacted(&mut self, error: Option<String>, estimates: &Vec<u32>, profile: &Profile) -> (r: LoopStep)
        requires
            old(self).wf(),
            old(self)@.ctx.countable(estimates@),
        ensures
            final(self).wf(),
            ({
                let first = match error {
                    Some(m) => seq![warning("compaction failed: "@ + m@)],
                    None => Seq::empty(),
                };
                let b = old(self)@.restarted();
                (final(self)@, told(r.events@), r.action@) == if old(self)@.is_full(estimates@) {
                    (b, first + seq![old(self)@.restart_event(), b.turn_event(profile@)], LoopActionV::Ask)
                } else {
                    (old(self)@, first + seq![old(self)@.turn_event(profile@)], LoopActionV::Ask)
                }
            }),
    {
        let ghost start = self@;
        let mut events = no_events();
        if let Some(m) = &error {
            push_event(
                &mut events,
                AgentEvent::Warning { text: "compaction failed: ".to_owned().concat(m.as_str()) },
            );
        }
        let ghost first = told(events@);
        proof {
            if let Some(m) = &error {
                assert(first =~= seq![warning("compaction failed: "@ + m@)]);
            }
        }
        if let Some(e) = self.start_again_if_full(estimates) {
            push_event(&mut events, e);
        }
        let ts = self.turn_start(profile);
        push_event(&mut events, ts);
        proof {
            if start.is_full(estimates@) {
                assert(told(events@) =~= first + seq![start.restart_event(), ts@]);
            } else {
                assert(told(events@) =~= first + seq![ts@]);
            }
        }
        LoopStep { events, action: LoopAction::Ask }
    }

    fn on_answered(&mut self, answer: Answer) -> (r: LoopStep)
        requires
            old(self).wf(),
            answer@.reasoning.len() > 0 || separable(answer@.content),
        ensures
            final(self).wf(),
            ({
                let (b, es, next) = old(self)@.answered(answer@);
                (final(self)@, told(r.events@), r.action@) == (b, es, action_of(next))
            }),
    {
        let (content, reasoning) = separate_thinking(answer.content, answer.reasoning);
        if let Some(t) = &answer.timings {
            let _ = self.note_timings(t);
        }
        from_next(self.on_answer(&answer.calls, content, reasoning.as_str()))
    }

    fn on_failed(&mut self, cancelled: bool, error: String, estimates: &Vec<u32>) -> (r: LoopStep)
        requires
            old(self).wf(),
            old(self)@.ctx.countable(estimates@),
        ensures
            final(self).wf(),
            (final(self)@, told(r.events@), r.action@) == if cancelled {
                (old(self)@.aborted(), Seq::empty(), LoopActionV::Done(AgentOutcomeV::Aborted))
            } else if tells_of_overflow(error@) || old(self)@.is_full(estimates@) {
                (
                    old(self)@.restarted(),
                    seq![
                        warning("engine context full ("@ + error@ + "); restarting with fresh context"@),
                        old(self)@.restart_event(),
                    ],
                    LoopActionV::Begin,
                )
            } else {
                (
                    old(self)@,
                    seq![(AgentEventV::Error { text: error@ })],
                    LoopActionV::Done(AgentOutcomeV::EngineError(error@)),
                )
            },
    {
        let full = self.ctx.is_full(estimates);
        match self.on_failure(cancelled, error.as_str(), full) {
            FailedStep::Aborted => LoopStep {
                events: no_events(),
                action: LoopAction::Done(AgentOutcome::Aborted),
            },
            FailedStep::Restarted(events) => LoopStep { events, action: LoopAction::Begin },
            FailedStep::Failed(events) => LoopStep {
                events,
                action: LoopAction::Done(AgentOutcome::EngineError(error)),
            },
        }
    }

    fn on_ran(
        &mut self,
        results: &Vec<(ToolCall, ToolOutput)>,
        checks: &Vec<(String, Vec<String>)>,
        windows: bool,
    ) -> (r: LoopStep)
        requires
            old(self).wf(),
        ensures
            final(self).wf(),
            (final(self)@, told(r.events@), r.action@) == old(self)@.ran(
                results_view(results@),
                check_lists(checks@),
                windows,
            ),
    {
        match self.on_results(results) {
            Err(s) => from_next(s),
            Ok(edits) => {
                let commands = check_commands(&edits, checks, windows);
                if commands.len() > 0 {
                    LoopStep { events: no_events(), action: LoopAction::Check(commands) }
                } else {
                    from_next(self.finish_turn())
                }
            },
        }
    }

    /// Takes what has happened; says what is told and what is to be done.
    pub fn run_loop(
        &mut self,
        event: LoopEvent,
        profile: &Profile,
        limits: &LoopLimits,
        checks: &Vec<(String, Vec<String>)>,
    ) -> (r: LoopStep)
        requires
            old(self).wf(),
            old(self)@.can_follow(event),
        ensures
            final(self).wf(),
            (final(self)@, told(r.events@), r.action@) == old(self)@.after_event(
                event,
                profile@,
                *limits,
                check_lists(checks@),
            ),
    {
        match event {
            LoopEvent::Began { cancelled, estimates } => self.on_began(cancelled, &estimates, profile, limits),
            LoopEvent::Counted { estimates } => self.ask(profile, limits, &estimates),
            LoopEvent::Compacted { error, estimates } => self.on_compacted(error, &estimates, profile),
            LoopEvent::Answered { answer } => self.on_answered(answer),
            LoopEvent::Failed { cancelled, error, estimates } => self.on_failed(cancelled, error, &estimates),
            LoopEvent::Ran { results } => self.on_ran(&results, checks, limits.windows),
            LoopEvent::Checked { commands, runs } => {
                add_verification(self, &commands, &runs);
                from_next(self.finish_turn())
            },
        }
    }
}

/// Nothing but a full context, an abort or a summary takes anything out of the
/// conversation: after every other event all that was said before is there as it was.
pub proof fn law_turn_keeps_what_was_said(
    a: AgentV,
    e: LoopEvent,
    p: ProfileV,
    l: LoopLimits,
    checks: Seq<(Seq<char>, Seq<Seq<char>>)>,
)
    requires
        match e {
            LoopEvent::Began { cancelled, estimates } => !cancelled && !a.is_full(estimates@),
            LoopEvent::Compacted { estimates, .. } => !a.is_full(estimates@),
            LoopEvent::Failed { cancelled, error, estimates } => !cancelled && !tells_of_overflow(error@) && !a.is_full(
                estimates@,
            ),
            _ => true,
        },
    ensures
        ({
            let b = a.after_event(e, p, l, checks).0;
            &&& b.ctx.prefix == a.ctx.prefix
            &&& b.ctx.log.len() >= a.ctx.log.len()
            &&& b.ctx.log.take(a.ctx.log.len() as int) == a.ctx.log
        }),
{
    let n = a.ctx.log.len() as int;
    assert(a.ctx.log.take(n) =~= a.ctx.log);
    match e {
        LoopEvent::Answered { answer } => {
            let (content, reasoning) = separated(answer@.content, answer@.reasoning);
            let b = match answer@.timings {
                Some(t) => AgentV {
                    ctx: ContextV {
                        last_prompt_total: Some(at_most((t.prompt_n + t.cache_n) as nat, u32::MAX as nat) as u32),
                        reported_at: a.ctx.log.len(),
                        ..a.ctx
                    },
                    ..a
                },
                None => a,
            };
            law_answers_only_add(b, answer@.calls, content, reasoning);
        },
        LoopEvent::Ran { results } => {
            law_results_only_add(a, results_view(results@), 0);
        },
        LoopEvent::Checked { commands, runs } => {
            let b = a.checked(strings(commands@), runs@);
            assert(b.ctx.log.take(n) =~= a.ctx.log);
        },
        _ => {},
    }
}

/// Whatever happens in a turn, the prefix of the conversation stays as it was frozen.
pub proof fn law_prefix_never_changes(
    a: AgentV,
    e: LoopEvent,
    p: ProfileV,
    l: LoopLimits,
    checks: Seq<(Seq<char>, Seq<Seq<char>>)>,
)
    ensures
        a.after_event(e, p, l, checks).0.ctx.prefix == a.ctx.prefix,
{
    match e {
        LoopEvent::Answered { .. } | LoopEvent::Ran { .. } | LoopEvent::Checked { .. } => {
            law_turn_keeps_what_was_said(a, e, p, l, checks);
        },
        _ => {},
    }
}

/// With a cap on the turns, every round through the tools counts a turn, so that a turn of
/// the user's ends.
pub proof fn law_every_round_counts(
    a: AgentV,
    e: LoopEvent,
    p: ProfileV,
    l: LoopLimits,
    checks: Seq<(Seq<char>, Seq<Seq<char>>)>,
)
    requires
        e is Ran || e is Checked,
        a.guard.turn < u32::MAX,
        a.after_event(e, p, l, checks).2 is Begin,
    ensures
        a.after_event(e, p, l, checks).0.guard.turn == a.guard.turn + 1,
        a.guard.max_turns > 0 ==> a.guard.turn + 1 < a.guard.max_turns,
{
    if let LoopEvent::Ran { results } = e {
        lemma_results_keep_turn(a, results_view(results@), 0);
    }
}

proof fn lemma_results_keep_turn(a: AgentV, rs: Seq<(ToolCallV, OutputV)>, i: int)
    ensures
        after_results(a, rs, i).0.guard.turn == a.guard.turn,
        after_results(a, rs, i).0.guard.max_turns == a.guard.max_turns,
    decreases rs.len() - i,
{
    if 0 <= i < rs.len() {
        let (call, out) = rs[i];
        let (g, e) = if out.is_error {
            a.guard.after_error(call.name, out.text)
        } else {
            (a.guard, None)
        };
        let b = AgentV { guard: g, ..a };
        if e is None {
            lemma_results_keep_turn(
                b.said(result_message(call.id, call.name, out.text, out.is_error, out.spilled(), g.turn)),
                rs,
                i + 1,
            );
        }
    }
}

/// A turn that is broken off ends as aborted, and asks nothing.
/// A conversation that fills the context begins anew; one that reaches the limit, or leaves
/// an answer too little room, is summarized; any other is put to the engine.
pub proof fn law_the_context_decides(
    a: AgentV,
    cancelled: bool,
    estimates: Vec<u32>,
    p: ProfileV,
    l: LoopLimits,
    checks: Seq<(Seq<char>, Seq<Seq<char>>)>,
)
    requires
        a.ctx.countable(estimates@),
    ensures
        ({
            let used = a.ctx.used(estimates@);
            let (b, events, action) = a.after_event(LoopEvent::Began { cancelled, estimates }, p, l, checks);
            &&& cancelled ==> action == LoopActionV::Done(AgentOutcomeV::Aborted)
            &&& !cancelled && used >= a.ctx.n_ctx ==> action is Count && b.ctx.compactions > a.ctx.compactions
                || a.ctx.compactions == u32::MAX && action is Count
            &&& !cancelled && used < a.ctx.n_ctx ==> {
                &&& b == a
                &&& used >= l.limit || used + l.reserve > a.ctx.n_ctx ==> action is Compact
                &&& used < l.limit && used + l.reserve <= a.ctx.n_ctx ==> {
                    &&& action is Ask
                    &&& events == seq![
                        AgentEventV::TurnStart { turn: a.guard.turn, task: a.task, effort: a.effort(p) },
                    ]
                }
            }
        }),
{
}

/// An engine whose context is full, or that says so, is asked again with a conversation begun
/// anew; any other error ends the turn, with the words of the error, and changes nothing.
pub proof fn law_an_error_ends_the_turn(
    a: AgentV,
    error: String,
    estimates: Vec<u32>,
    p: ProfileV,
    l: LoopLimits,
    checks: Seq<(Seq<char>, Seq<Seq<char>>)>,
)
    requires
        a.ctx.countable(estimates@),
    ensures
        ({
            let (b, events, action) = a.after_event(
                LoopEvent::Failed { cancelled: false, error, estimates },
                p,
                l,
                checks,
            );
            let full = a.ctx.used(estimates@) >= a.ctx.n_ctx || tells_of_overflow(error@);
            &&& full ==> action is Begin
            &&& !full ==> {
                &&& b == a
                &&& action == LoopActionV::Done(AgentOutcomeV::EngineError(error@))
                &&& events == seq![AgentEventV::Error { text: error@ }]
            }
        }),
{
}

/// The tokens that the engine counted for the prompt are those that are in use from then on,
/// as long as nothing else is said.
pub proof fn law_counted_tokens_are_in_use(a: AgentV, answer: AnswerV)
    requires
        answer.timings matches Some(t) && t.prompt_n + t.cache_n <= u32::MAX,
    ensures
        a.answered(answer).0.ctx.last_prompt_total == Some(
            (answer.timings->Some_0.prompt_n + answer.timings->Some_0.cache_n) as u32,
        ),
        a.answered(answer).0.ctx.reported_at == a.ctx.log.len(),
{
}

/// Checks stand in the conversation as a call of the shell and its result, which is an error
/// where one of them failed.
pub proof fn law_checks_are_told(a: AgentV, commands: Seq<Seq<char>>, runs: Seq<CheckRun>)
    ensures
        ({
            let log = a.checked(commands, runs).ctx.log;
            let n = a.ctx.log.len() as int;
            let call = log[n].tool_calls[0];
            &&& log.len() == n + 2
            &&& log.take(n) == a.ctx.log
            &&& log[n].role == Role::Assistant && log[n].tool_calls.len() == 1
            &&& call.name == "shell"@
            &&& call.arguments.get("command"@) == Some(JsonV::Str(joined(commands, " ; "@)))
            &&& is_result(
                log[n + 1],
                call,
                verification_text(runs),
                !(forall|i: int| 0 <= i < runs.len() ==> (#[trigger] runs[i]).ok),
            )
        }),
{
    let log = a.checked(commands, runs).ctx.log;
    let n = a.ctx.log.len() as int;
    assert(log.take(n) =~= a.ctx.log);
    let call = verification_call(a.guard.turn, commands);
    assert(log[n].tool_calls[0] == call);
    reveal_with_fuel(member, 2);
    assert(some_failed(runs) <==> !(forall|i: int| 0 <= i < runs.len() ==> (#[trigger] runs[i]).ok));
}

/// Once the tools have run, the checks of the files that were edited are run, where there are any;
/// else the turn goes on, as long as there are turns. Nothing of it is done where an error came
/// once too often: that ends the turn.
#[verifier::rlimit(40)]
pub proof fn law_what_follows_the_tools(
    a: AgentV,
    rs: Seq<(ToolCallV, OutputV)>,
    checks: Seq<(Seq<char>, Seq<Seq<char>>)>,
    windows: bool,
)
    requires
        a.guard.turn < u32::MAX,
    ensures
        ({
            let (b, events, action) = a.ran(rs, checks, windows);
            let stop = after_results(a, rs, 0).1;
            let edits = edited(rs, rs.len());
            let commands = checks_of(edits, checks, edits.len(), windows);
            &&& stop is Some ==> action is Done && action->Done_0 is LoopDetected
            &&& stop is None && commands.len() > 0 ==> action == LoopActionV::Check(commands) && b.ctx.log.len()
                == a.ctx.log.len() + rs.len()
            &&& stop is None && commands.len() == 0 ==> b.guard.turn == a.guard.turn + 1 && (a.guard.max_turns == 0
                || a.guard.turn + 1 < a.guard.max_turns ==> action is Begin) && (a.guard.max_turns > 0 && a.guard.turn + 1
                >= a.guard.max_turns ==> action == LoopActionV::Done(AgentOutcomeV::MaxTurns))
            &&& (forall|i: int| 0 <= i < rs.len() ==> !(#[trigger] rs[i]).1.is_error) ==> stop is None
        }),
{
    lemma_results_follow(a, rs, 0);
    if after_results(a, rs, 0).1 is None {
        if rs.len() > 0 {
            law_every_result_is_told(a, rs, 0, 0);
        }
    }
}

proof fn lemma_results_follow(a: AgentV, rs: Seq<(ToolCallV, OutputV)>, i: int)
    requires
        0 <= i <= rs.len(),
    ensures
        after_results(a, rs, i).0.guard.turn == a.guard.turn,
        after_results(a, rs, i).0.guard.max_turns == a.guard.max_turns,
        after_results(a, rs, i).1 matches Some(e) ==> e is RepeatedError,
        (forall|k: int| i <= k < rs.len() ==> !(#[trigger] rs[k]).1.is_error) ==> after_results(a, rs, i).1 is None,
    decreases rs.len() - i,
{
    if i < rs.len() {
        let (call, out) = rs[i];
        let (g, e) = if out.is_error {
            a.guard.after_error(call.name, out.text)
        } else {
            (a.guard, None)
        };
        let c = AgentV { guard: g, ..a }.said(
            result_message(call.id, call.name, out.text, out.is_error, out.spilled(), g.turn),
        );
        lemma_results_follow(c, rs, i + 1);
    }
}

/// A turn that is broken off leaves the conversation without calls that await their results.
/// The effort is the one that was set, or else that of the task.
pub proof fn law_a_broken_turn_leaves_no_calls(a: AgentV, p: ProfileV)
    ensures
        a.aborted().ctx.log.len() > 0 ==> !(a.aborted().ctx.log.last().role == Role::Assistant
            && a.aborted().ctx.log.last().tool_calls.len() > 0),
        a.aborted().ctx.log.len() <= a.ctx.log.len(),
        a.ctx.log.take(a.aborted().ctx.log.len() as int) == a.aborted().ctx.log,
        a.effort_override matches Some(e) ==> a.effort(p) == e,
        a.effort_override is None ==> a.effort(p) == a.task.effort_of(p),
{
    law_no_call_is_left_without_results(a.ctx.log);
}

} // verus!
