//! The agent: its turns, its tools, its subagents, its plans and what it tells.

use buzzcode::agent::{can_separate, is_context_overflow, separate_thinking, Agent, AgentOutcome, ToolOutput};
use buzzcode::config::Profile;
use buzzcode::context::{ContextStore, FrozenPrefix};
use buzzcode::events::AgentEvent;
use buzzcode::execute::{
    after_answer, check_commands, compaction_request, finish_output, glob_match, merge_output, spill_stem, take_summary,
    triage, verification_report, Batch, CheckRun, ToolEnd, Triage,
};
use buzzcode::handle::{stats, AgentCmd, AgentHandle, AgentMode, HandleStep};
use buzzcode::json::Json;
use buzzcode::message::{Message, ToolCall};
use buzzcode::plan::{write_plan, Plan, PlanStep, PlanWrite};
use buzzcode::prompt::{commit_message_prompt, explore_system_prompt, main_system_prompt, plan_system_prompt, PromptEnv};
use buzzcode::registry::{ToolRegistry, ToolSpec};
use buzzcode::slot::SlotOwner;
use buzzcode::sse::{Answer, ToolCallAcc};
use buzzcode::subagent::{explore_tools, subagent_report, SubagentKind};
use buzzcode::task::{normalize_effort, TaskClass};
use buzzcode::truncate::OutputBudget;
use buzzcode::turn::{LoopAction, LoopEvent, LoopLimits, LoopStep};

fn json(s: &str) -> Json {
    Json::parse(s).unwrap()
}

fn tool(name: &str) -> ToolSpec {
    ToolSpec {
        name: name.to_string(),
        schema: json("{\"type\":\"object\",\"required\":[\"path\"],\"properties\":{\"path\":{\"type\":\"string\"}}}"),
        openai: json(&format!("{{\"name\":\"{name}\"}}")),
    }
}

fn registry() -> ToolRegistry {
    let mut r = ToolRegistry::new();
    for n in ["read_file", "edit_file", "grep", "spawn_agent", "write_plan"] {
        r.register(tool(n)).unwrap();
    }
    r
}

fn agent(max_turns: u32) -> Agent {
    let prefix = FrozenPrefix::new(Message::system("sys"), json("[]"));
    Agent::new(ContextStore::new(prefix, 32768, 1), registry(), TaskClass::Edit, max_turns)
}

fn profile() -> Profile {
    Profile::builtin().remove(0)
}

fn estimates(a: &Agent) -> Vec<u32> {
    a.ctx.log().iter().map(|_| 1).collect()
}

fn answer(content: &str) -> Answer {
    let mut a = Answer::new();
    a.content = content.to_string();
    a
}

fn native(name: &str, arguments: &str) -> Answer {
    let mut a = Answer::new();
    a.calls = vec![ToolCallAcc { index: 0, id: "c1".into(), name: name.into(), arguments: arguments.into() }];
    a
}

const LIMITS: LoopLimits = LoopLimits { limit: 31129, reserve: 1024, windows: false };

fn checks() -> Vec<(String, Vec<String>)> {
    vec![("*.rs".to_string(), vec!["cargo check".to_string()])]
}

fn step(a: &mut Agent, e: LoopEvent) -> LoopStep {
    a.run_loop(e, &profile(), &LIMITS, &checks())
}

#[test]
fn a_turn_from_question_to_answer() {
    let mut a = agent(10);
    let prefix = a.ctx.prefix().hash_hex();
    a.run_turn("fix it");
    let es = estimates(&a);
    let s = step(&mut a, LoopEvent::Began { cancelled: false, estimates: es });
    assert!(matches!(s.action, LoopAction::Ask));
    assert!(matches!(s.events[0], AgentEvent::TurnStart { turn: 0, task: TaskClass::Edit, .. }));

    let s = step(&mut a, LoopEvent::Answered { answer: native("edit_file", "{\"path\":\"a.rs\"}") });
    let calls = match s.action {
        LoopAction::Execute(c) => c,
        o => panic!("{o:?}"),
    };
    assert_eq!(calls[0].name, "edit_file");
    let out = ToolOutput { text: "done".into(), is_error: false, edits: vec!["src/a.rs".into()], truncated: None };
    let s = step(&mut a, LoopEvent::Ran { results: vec![(calls[0].copy(), out)] });
    let commands = match s.action {
        LoopAction::Check(c) => c,
        o => panic!("{o:?}"),
    };
    assert_eq!(commands, vec!["cargo check"]);
    let runs = vec![CheckRun { command: "cargo check".into(), ok: true, output: "fine".into() }];
    let s = step(&mut a, LoopEvent::Checked { commands, runs });
    assert!(matches!(s.action, LoopAction::Begin), "{:?}", s.action);
    assert_eq!(a.turn(), 1);

    let s = step(&mut a, LoopEvent::Answered { answer: answer("All done.") });
    assert!(matches!(s.action, LoopAction::Done(AgentOutcome::EndTurn)));
    assert_eq!(a.last_assistant_text(), Some("All done."));
    assert_eq!(a.transcript()[0].content, "fix it");
    assert_eq!(a.transcript().len(), 6);
    assert_eq!(a.ctx.prefix().hash_hex(), prefix);
}

#[test]
fn a_turn_that_is_cut_off() {
    let mut a = agent(10);
    a.run_turn("x");
    let s = step(&mut a, LoopEvent::Began { cancelled: true, estimates: vec![1] });
    assert!(matches!(s.action, LoopAction::Done(AgentOutcome::Aborted)));
    let s = step(&mut a, LoopEvent::Failed { cancelled: false, error: "boom".into(), estimates: vec![1] });
    assert!(matches!(s.action, LoopAction::Done(AgentOutcome::EngineError(ref m)) if m == "boom"));
    let s = step(
        &mut a,
        LoopEvent::Failed { cancelled: false, error: "the request exceeds the available context size".into(), estimates: vec![1] },
    );
    assert!(matches!(s.action, LoopAction::Begin));
    assert_eq!(a.transcript().len(), 1);
}

#[test]
fn turns_are_capped() {
    let mut a = agent(1);
    a.run_turn("x");
    step(&mut a, LoopEvent::Answered { answer: native("grep", "{\"path\":\"a\"}") });
    let call = ToolCall { id: "c1".into(), name: "grep".into(), arguments: json("{\"path\":\"a\"}") };
    let out = ToolOutput { text: "hit".into(), is_error: false, edits: vec![], truncated: None };
    let s = step(&mut a, LoopEvent::Ran { results: vec![(call, out)] });
    assert!(matches!(s.action, LoopAction::Done(AgentOutcome::MaxTurns)), "{:?}", s.action);
}

#[test]
fn a_large_context_is_summarized() {
    let mut a = agent(10);
    a.run_turn("x");
    a.ctx.observe_prompt_total(31200);
    let es = estimates(&a);
    let s = step(&mut a, LoopEvent::Began { cancelled: false, estimates: es });
    assert!(matches!(s.action, LoopAction::Compact));
    let r = compaction_request(&a.ctx, &profile(), 600);
    assert!(r.to_value().to_text().contains("Summarize the conversation"));
    let e = take_summary(&mut a, "short", 5, 1);
    assert!(matches!(e, AgentEvent::Compaction { messages_before: 1, .. }));
    let s = step(&mut a, LoopEvent::Compacted { error: Some("no".into()), estimates: vec![1, 1] });
    assert!(matches!(s.action, LoopAction::Ask));
    assert!(matches!(s.events[0], AgentEvent::Warning { ref text } if text == "compaction failed: no"));
}

#[test]
fn malformed_calls_are_answered_with_more_and_more_help() {
    let mut a = agent(10);
    a.run_turn("x");
    for _ in 0..2 {
        let s = step(&mut a, LoopEvent::Answered { answer: answer("<tool_call>{\"name\": \"zzzqq\", \"arguments\": {}}</tool_call>") });
        assert!(matches!(s.action, LoopAction::Begin), "{:?}", s.action);
    }
    let choice = a.turn_request(&profile()).tool_choice.map(|j| j.to_text());
    assert_eq!(choice, Some("\"required\"".to_string()));
}

#[test]
fn thinking_is_taken_out_of_the_text() {
    assert!(can_separate("<think>a</think>b"));
    assert!(!can_separate("</think>b<think>a"));
    assert_eq!(separate_thinking("<think>a</think>b".into(), String::new()), ("b".to_string(), "a".to_string()));
    assert_eq!(separate_thinking("<think>a</think>b".into(), "r".into()).0, "<think>a</think>b");
    assert!(is_context_overflow("the request exceeds the available context size"));
    assert!(!is_context_overflow("connection refused"));
}

#[test]
fn calls_are_sorted_out() {
    let r = registry();
    let call = |name: &str, args: &str| ToolCall { id: "1".into(), name: name.into(), arguments: json(args) };
    match triage(&r, &call("nope", "{}"), true, false) {
        Triage::Refuse(m) => assert_eq!(m, "unknown tool `nope`; available: edit_file, grep, read_file, spawn_agent, write_plan"),
        _ => panic!("it must be refused"),
    }
    assert!(matches!(triage(&r, &call("grep", "{}"), true, false), Triage::Refuse(_)));
    assert!(matches!(triage(&r, &call("grep", "{\"path\":\"x\"}"), true, false), Triage::Run { beside_others: true }));
    assert!(matches!(triage(&r, &call("grep", "{\"path\":\"x\"}"), false, true), Triage::Ask));
    assert!(matches!(after_answer(false, true), Triage::Refuse(_)));
    assert!(matches!(after_answer(true, false), Triage::Run { beside_others: false }));
}

#[test]
fn results_come_in_the_order_of_the_calls() {
    let call = |id: &str| ToolCall { id: id.into(), name: "grep".into(), arguments: json("{}") };
    let mut b = Batch::new(3);
    b.put(2, call("c"), ToolOutput::error("3"));
    b.put(0, call("a"), ToolOutput::error("1"));
    let r = b.finish();
    assert_eq!(r.iter().map(|(c, _)| c.id.as_str()).collect::<Vec<_>>(), vec!["a", "c"]);
}

#[test]
fn outputs_are_cut_and_kept() {
    let budget = OutputBudget { max_bytes: 50, head_lines: 2, tail_lines: 1 };
    let long: String = (0..100).map(|i| format!("line {i}\n")).collect();
    let whole = ToolOutput { text: long.clone(), is_error: false, edits: vec![], truncated: None };
    let (out, spill) = finish_output(ToolEnd::Output(whole), &budget, "/s.txt");
    assert_eq!(spill, Some(long));
    let info = out.truncated.unwrap();
    assert_eq!(info.spill_path, "/s.txt");
    assert_eq!((info.total_lines, info.shown_head, info.shown_tail), (100, 2, 1));
    let (out, spill) = finish_output(ToolEnd::TimedOut, &budget, "/s.txt");
    assert!(out.is_error && spill.is_none());
    assert_eq!(out.text, "tool timed out after 600s");
    assert_eq!(finish_output(ToolEnd::Cancelled, &budget, "/s").0.text, "cancelled");
    assert_eq!(finish_output(ToolEnd::Failed("m".into()), &budget, "/s").0.text, "m");
    assert_eq!(spill_stem(3, "grep", "c1"), "t3-grep-c1");
}

#[test]
fn patterns_of_file_names() {
    assert!(glob_match("*", "anything"));
    assert!(glob_match("*.rs", "a.RS"));
    assert!(glob_match("Cargo.toml", "Cargo.toml"));
    assert!(glob_match("a?c", "abc"));
    assert!(!glob_match("*.rs", "a.py"));
    let edits = vec!["src/a.rs".to_string(), "b.rs".to_string(), "c.py".to_string()];
    assert_eq!(check_commands(&edits, &checks(), false), vec!["cargo check"]);
    assert!(check_commands(&vec!["c.py".to_string()], &checks(), false).is_empty());
}

#[test]
fn checks_are_reported() {
    let runs = vec![
        CheckRun { command: "a".into(), ok: true, output: "x".into() },
        CheckRun { command: "b".into(), ok: false, output: "y".into() },
    ];
    let (text, failed) = verification_report(&runs);
    assert!(failed);
    assert!(text.contains("$ a\n[ok]\nx\n"));
    assert!(text.contains("$ b\n[FAILED]\ny\n"));
    assert_eq!(merge_output("o", "e"), "o\ne");
    assert_eq!(merge_output("o", " \n"), "o");
    assert_eq!(merge_output("", "e"), "e");
}

#[test]
fn commands_to_a_running_agent() {
    let mut a = agent(10);
    let mut h = AgentHandle::new(false);
    assert!(matches!(h.command(&mut a, AgentCmd::SwitchMode { mode: AgentMode::Plan, first_message: None }), HandleStep::Tell(_)));
    assert!(matches!(h.command(&mut a, AgentCmd::SetEffort(Some("high".into()))), HandleStep::Idle));
    assert_eq!(a.effort(&profile()), "high");
    assert!(matches!(h.command(&mut a, AgentCmd::UserMessage("x".into())), HandleStep::Run(_)));
    assert!(h.is_busy());
    let e = h.finished(&AgentOutcome::EndTurn, 2);
    assert!(matches!(e, AgentEvent::Finished { turns: 2, .. }));
    assert!(!h.is_busy());
    let mut h = AgentHandle::new(true);
    assert!(matches!(h.command(&mut a, AgentCmd::SwitchMode { mode: AgentMode::Plan, first_message: None }), HandleStep::Make { .. }));
    let (e, next) = h.switched(AgentMode::Plan, Some("go".into()));
    assert!(matches!(e, AgentEvent::Warning { ref text } if text == "switched to Plan mode (fresh context)"));
    assert!(matches!(next, HandleStep::Run(ref t) if t == "go"));
    assert!(matches!(h.mode(), AgentMode::Plan));
    let st = stats(&a, &estimates(&a), 4);
    assert_eq!((st.n_ctx, st.messages, st.slot_switches), (32768, 0, 4));
    assert!(matches!(h.command(&mut a, AgentCmd::Shutdown), HandleStep::Stop));
}

#[test]
fn subagents_have_fewer_tools() {
    let full = registry();
    let names = SubagentKind::Explore.registry(&full).names();
    assert!(names.iter().all(|n| explore_tools().contains(n)));
    assert!(!SubagentKind::General.registry(&full).names().contains(&"spawn_agent".to_string()));
    let (text, is_error) = subagent_report(SubagentKind::Explore, &AgentOutcome::EndTurn, 3, Some("found"));
    assert!(text.contains("found") && !is_error);
    assert!(subagent_report(SubagentKind::Plan, &AgentOutcome::EngineError("x".into()), 0, None).1);
}

#[test]
fn plans_are_written_under_their_slug() {
    let plan = Plan {
        title: "Add: Logging & Tests!".into(),
        summary: "s".into(),
        steps: vec![PlanStep { n: 1, description: "d".into(), files: vec!["a.rs".into()], verification: "v".into() }],
        risks: vec![],
        questions: vec![],
    };
    assert_eq!(plan.slug(), "add-logging-tests");
    match write_plan(&plan, "/p", false) {
        PlanWrite::Write { markdown_path, json_path, markdown, .. } => {
            assert_eq!(markdown_path, "/p/add-logging-tests.md");
            assert_eq!(json_path, "/p/add-logging-tests.json");
            assert!(markdown.starts_with("# Add: Logging & Tests!"), "{markdown}");
        }
        PlanWrite::Refused(m) => panic!("{m}"),
    }
    assert!(matches!(write_plan(&Plan { steps: vec![], ..plan }, "/p", false), PlanWrite::Refused(_)));
}

#[test]
fn prompts_tell_of_the_surroundings() {
    let env = PromptEnv::detect("/w", true, false, "linux", vec!["grep".into()], vec!["Rust".into()], true);
    assert!(main_system_prompt(&env).contains("/w"));
    assert!(main_system_prompt(&env).contains("unchanged code.\n\n# Tool-call format\nUse the native"));
    assert!(main_system_prompt(&env).contains("or markdown.\n\n# Example\nuser: Add"));
    assert!(explore_system_prompt(&env).contains("/w"));
    assert!(plan_system_prompt(&env).contains("write_plan exactly once"));
    assert!(commit_message_prompt().starts_with("Write a git commit message"));
}

#[test]
fn efforts_and_classes() {
    let p = profile();
    assert_eq!(TaskClass::Plan.effort(&p), p.effort.plan);
    assert_eq!(TaskClass::Edit.as_str(), "edit");
    assert_eq!(normalize_effort(" HIGH "), Some("xhigh"));
    assert_eq!(normalize_effort("nope"), None);
}

#[test]
fn the_slot_goes_from_owner_to_owner() {
    let mut s = SlotOwner::new();
    assert!(!s.take(1).switched, "nobody is pushed out");
    assert!(!s.take(1).switched);
    assert_eq!(s.switch_count(), 0);
    let t = s.take(2);
    assert!(t.switched);
    assert_eq!(t.previous_owner, Some(1));
    assert_eq!(s.switch_count(), 1);
    s.reset_owner();
    assert_eq!(s.current_owner(), None);
}

#[test]
fn events_are_written_as_lines() {
    let e = AgentEvent::Warning { text: "w".into() };
    assert_eq!(e.to_line(), "{\"type\":\"warning\",\"text\":\"w\"}");
    let e = AgentEvent::Finished { reason: "end_turn".into(), turns: 2 };
    assert_eq!(e.to_value().to_text(), "{\"type\":\"finished\",\"reason\":\"end_turn\",\"turns\":2}");
}

#[test]
fn the_main_prompt_says_what_there_is() {
    for (git, map) in [(false, false), (false, true), (true, false), (true, true)] {
        for languages in [vec![], vec!["Rust".to_string(), "Go".to_string()]] {
            let none = languages.is_empty();
            let env = PromptEnv::detect("/w", git, false, "linux", vec!["grep".into(), "shell".into()], languages, map);
            let p = main_system_prompt(&env);
            assert_eq!(p.contains("A ranked repository map follows"), map);
            assert_eq!(p.contains("- Git repository: yes"), git);
            assert_eq!(p.contains("- Main languages: unknown"), none);
            assert!(p.contains("grep, shell"));
        }
    }
}
