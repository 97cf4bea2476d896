//! Messages, the context that is sent, the guard, the tools and the permissions.

use buzzcode::context::{ContextStore, FrozenPrefix};
use buzzcode::guard::{GuardError, LoopGuard};
use buzzcode::json::Json;
use buzzcode::message::{Message, ToolCall};
use buzzcode::permission::{PermissionBroker, PermissionClass, PermissionDecision, PermissionMode, Verdict};
use buzzcode::registry::{RegisterError, ToolRegistry, ToolSpec};
use buzzcode::tokens::{Lookup, TokenCounter};
use buzzcode::truncate::{apply, OutputBudget};

fn json(s: &str) -> Json {
    Json::parse(s).unwrap()
}

fn store() -> ContextStore {
    let prefix = FrozenPrefix::new(Message::system("sys"), json("[]"));
    ContextStore::new(prefix, 32768, 1)
}

fn estimates(s: &ContextStore) -> Vec<u32> {
    s.log().iter().map(|m| (m.content.len() as u32 + 3) / 4).collect()
}

fn full(s: &ContextStore) -> bool {
    s.is_full(&estimates(s))
}

/// Ninety-five hundredths of the window.
fn needs(s: &ContextStore, reserve: u32) -> bool {
    s.needs_compaction((s.n_ctx() as f32 * 0.95) as u32, reserve, &estimates(s))
}

#[test]
fn key_order_is_stable() {
    let m = Message::assistant(
        "x",
        vec![ToolCall { id: "1".into(), name: "t".into(), arguments: json("{\"b\":1,\"a\":2}") }],
    );
    let s = m.to_value().to_text();
    assert!(s.starts_with(r#"{"role":"assistant","content":"x","tool_calls":[{"id":"1","type":"function","function":{"name":"t","arguments":"{\"b\":1,\"a\":2}"}}]}"#));
}

#[test]
fn what_is_noted_of_a_message_is_not_sent() {
    let m = Message::tool("c1", "grep", "hit", true);
    assert_eq!(m.to_value().to_text(), r#"{"role":"tool","content":"hit","tool_call_id":"c1"}"#);
    assert_eq!(m.meta.tool_name.as_deref(), Some("grep"));
}

#[test]
fn prefix_bytes_stable_across_pushes() {
    let mut s = store();
    let h0 = s.prefix().bytes_hash;
    let r0 = s.request_text();
    s.push(Message::user("hello"));
    let r1 = s.request_text();
    assert!(r1.starts_with(r0.trim_end_matches(']')), "prefix bytes changed");
    assert_eq!(h0, s.prefix().bytes_hash);
}

#[test]
fn compaction_keeps_tail_turns_and_system() {
    let mut s = store();
    for i in 0..5 {
        s.push(Message::user(&format!("u{i}")));
        s.push(Message::assistant(&format!("a{i}"), vec![]));
    }
    let sys_before = s.to_request_messages()[0].to_text();
    s.compact("summary", 2);
    let msgs = s.to_request_messages();
    assert_eq!(msgs[0].to_text(), sys_before);
    assert!(s.log()[0].meta.is_summary);
    assert_eq!(s.log().len(), 1 + 4);
    assert_eq!(s.log()[1].content, "u3");
}

#[test]
fn compaction_triggers_at_95_percent() {
    let mut s = store();
    s.observe_prompt_total(31128);
    assert!(!needs(&s, 0));
    assert!(!full(&s));

    s.observe_prompt_total(31130);
    assert!(needs(&s, 0));
    assert!(!full(&s));

    s.observe_prompt_total(32768);
    assert!(needs(&s, 0));
    assert!(full(&s));
}

#[test]
fn what_the_server_reported_is_preferred() {
    let mut s = store();
    s.push(Message::user("0123456789abcdef"));
    assert_eq!(s.used_tokens_estimate(&estimates(&s)), 4 + 6);
    s.observe_prompt_total(1000);
    assert_eq!(s.used_tokens_estimate(&estimates(&s)), 1000);
    s.push(Message::assistant("01234567", vec![]));
    assert_eq!(s.used_tokens_estimate(&estimates(&s)), 1000 + 2 + 6);
    assert_eq!(s.used_tokens_now(&estimates(&s)), 1008);
}

#[test]
fn full_context_restart_preserves_initial_goal() {
    let mut s = store();
    s.push(Message::user("Build a web server in Rust"));
    s.push(Message::assistant("I will create main.rs", vec![]));
    s.push(Message::user("Also add logging"));
    s.observe_prompt_total(32768);
    assert!(full(&s));

    let goal = s.restart_with_goal();
    assert_eq!(goal, "Build a web server in Rust");
    assert_eq!(s.log().len(), 1);
    assert!(s.log()[0].content.contains("Build a web server in Rust"));
    assert!(!full(&s));
    assert_eq!(s.compactions, 1);
}

#[test]
fn a_restart_repeats_the_goal_in_full() {
    let mut s = store();
    s.push(Message::user("Go"));
    s.restart_with_goal();
    let text = &s.log()[0].content;
    assert!(text.starts_with("[Context reached capacity — restarted with fresh context]\nInitial task:\nGo\n\n"));
    assert!(text.ends_with(" from where you left off."));
}

#[test]
fn calls_without_results_are_dropped() {
    let mut s = store();
    s.push(Message::user("u"));
    s.push(Message::assistant("", vec![ToolCall { id: "1".into(), name: "t".into(), arguments: json("{}") }]));
    s.repair_tail();
    assert_eq!(s.log().len(), 1);
    s.set_repo_map("map");
    assert_eq!(s.log()[0].content, "[Repository map]\nmap");
}

#[test]
fn detects_repeat() {
    let mut g = LoopGuard::new(10);
    let c = vec![ToolCall { id: "1".into(), name: "grep".into(), arguments: json("{\"pattern\":\"x\"}") }];
    assert!(g.observe_calls(&c).is_ok());
    assert!(g.observe_calls(&c).is_ok());
    assert!(matches!(g.observe_calls(&c), Err(GuardError::RepeatedCall(_, 3))));
    assert!(matches!(g.observe_calls(&c), Err(GuardError::RepeatedCall(_, 4))));
}

#[test]
fn detects_repeated_output() {
    let mut g = LoopGuard::new(10);
    assert!(g.observe_text("I will check the file now.").is_ok());
    assert!(g.observe_text("I will check the file now.").is_ok());
    assert!(matches!(g.observe_text("I will check the file now."), Err(GuardError::RepeatedOutput(3))));
}

#[test]
fn detects_repeated_errors() {
    let mut g = LoopGuard::new(10);
    assert!(g.observe_error("read_file", "file not found: foo.txt").is_ok());
    assert!(g.observe_error("read_file", "file not found: foo.txt").is_ok());
    assert!(matches!(g.observe_error("read_file", "file not found: foo.txt"), Err(GuardError::RepeatedError(3))));
}

#[test]
fn digits_do_not_tell_errors_apart() {
    let mut g = LoopGuard::new(0);
    assert!(g.observe_error("t", "line 1").is_ok());
    assert!(g.observe_error("t", "line 22").is_ok());
    assert!(g.observe_error("t", "line 333").is_err());
    g.new_user_message();
    assert!(g.observe_error("t", "line 4").is_ok());
    assert!(g.next_turn().is_ok());
    let mut capped = LoopGuard::new(2);
    assert!(capped.next_turn().is_ok());
    let e = capped.next_turn().unwrap_err();
    assert!(matches!(e, GuardError::MaxTurns(2)));
    assert_eq!(e.to_string(), "maximum number of turns (2) reached");
}

#[test]
fn yolo_mode_never_needs_prompt() {
    let broker = PermissionBroker::new(PermissionMode::Yolo, &vec![], &vec![], false);
    let shell_call = ToolCall { id: "call_1".into(), name: "shell".into(), arguments: json("{\"command\": \"rm -rf /\"}") };
    assert!(!broker.needs_prompt(&shell_call, PermissionClass::Exec));
}

#[test]
fn ask_mode_prompts_for_exec_and_dangerous() {
    let broker = PermissionBroker::new(PermissionMode::Ask, &vec![], &vec![], false);
    let shell_call = ToolCall { id: "call_1".into(), name: "shell".into(), arguments: json("{\"command\": \"rm -rf /\"}") };
    assert!(broker.needs_prompt(&shell_call, PermissionClass::Exec));

    let read_call = ToolCall { id: "call_2".into(), name: "read_file".into(), arguments: json("{\"path\": \"src/main.rs\"}") };
    assert!(!broker.needs_prompt(&read_call, PermissionClass::ReadOnly));
}

#[test]
fn dangerous_commands_are_told_by_pattern() {
    let patterns = vec![r"\brm\s+-r".to_string()];
    let mut broker = PermissionBroker::new(PermissionMode::AutoAcceptEdits, &vec!["shell".to_string()], &patterns, true);
    let bad = ToolCall { id: "1".into(), name: "shell".into(), arguments: json("{\"command\": \"rm -rf x\"}") };
    let fine = ToolCall { id: "2".into(), name: "shell".into(), arguments: json("{\"command\": \"ls\"}") };
    assert!(broker.is_dangerous_shell(&bad));
    assert!(!broker.is_dangerous_shell(&fine));
    assert!(broker.needs_prompt(&bad, PermissionClass::ReadOnly));
    assert!(!broker.needs_prompt(&fine, PermissionClass::Exec));
    assert!(matches!(broker.resolve(&bad, PermissionClass::ReadOnly), Verdict::Ask));
    assert_eq!(broker.settle(&bad, None), PermissionDecision::Deny);
}

#[test]
fn a_tool_that_is_allowed_for_good_is_not_asked_for_again() {
    let mut broker = PermissionBroker::new(PermissionMode::Ask, &vec![], &vec!["rm".to_string()], true);
    let call = ToolCall { id: "1".into(), name: "shell".into(), arguments: json("{\"command\": \"ls\"}") };
    assert!(broker.needs_prompt(&call, PermissionClass::Exec));
    assert_eq!(broker.settle(&call, Some(PermissionDecision::Allow)), PermissionDecision::Allow);
    assert!(broker.needs_prompt(&call, PermissionClass::Exec));
    assert_eq!(broker.settle(&call, Some(PermissionDecision::AllowAlways)), PermissionDecision::AllowAlways);
    assert!(!broker.needs_prompt(&call, PermissionClass::Exec));
    let bad = ToolCall { id: "2".into(), name: "shell".into(), arguments: json("{\"command\": \"RM x\"}") };
    assert!(broker.needs_prompt(&bad, PermissionClass::Exec));
}

fn tool(name: &str) -> ToolSpec {
    ToolSpec {
        name: name.to_string(),
        schema: json("{\"type\":\"object\",\"required\":[\"path\"],\"properties\":{\"path\":{\"type\":\"string\"},\"n\":{\"type\":\"integer\"}}}"),
        openai: json(&format!("{{\"name\":\"{name}\"}}")),
    }
}

#[test]
fn tools_stand_in_the_order_of_their_names() {
    let mut r = ToolRegistry::new();
    assert!(r.register(tool("shell")).is_ok());
    assert!(r.register(tool("grep")).is_ok());
    assert!(matches!(r.register(tool("grep")), Err(RegisterError::Duplicate)));
    assert_eq!(r.names(), vec!["grep", "shell"]);
    assert_eq!(r.freeze().to_text(), "[{\"name\":\"grep\"},{\"name\":\"shell\"}]");
    assert!(matches!(r.register(tool("outline")), Err(RegisterError::Frozen)));
    assert_eq!(r.scoped(&vec!["grep".to_string()]).names(), vec!["grep"]);
    assert_eq!(r.without(&vec!["grep".to_string()]).names(), vec!["shell"]);
    assert_eq!(r.get("shell").unwrap().name, "shell");
}

#[test]
fn arguments_are_held_to_the_schema() {
    let mut r = ToolRegistry::new();
    r.register(tool("grep")).unwrap();
    assert!(r.validate("grep", &json("{\"path\":\"x\",\"n\":3}")).is_ok());
    assert!(r.validate("grep", &json("{\"path\":\"x\",\"n\":3.0}")).is_ok());
    for bad in ["{}", "{\"path\":1}", "{\"path\":\"x\",\"n\":2.5}", "[]"] {
        assert!(r.validate("grep", &json(bad)).is_err(), "{bad}");
    }
    assert!(r.validate("nope", &json("{}")).unwrap_err().to_string().contains("nope"));
}

#[test]
fn truncates_and_spills() {
    let text: String = (0..1000).map(|i| format!("line {i}\n")).collect();
    let t = apply(&text, &OutputBudget { max_bytes: 2000, head_lines: 20, tail_lines: 5 }, "/tmp/t1.txt");
    assert!(t.info.is_some());
    assert!(t.text.contains("lines omitted"));
    assert!(t.text.starts_with("line 0\n"));
    assert!(t.text.trim_end().ends_with("line 999"));
    assert_eq!(t.info.unwrap().spill_path, "/tmp/t1.txt");
}

#[test]
fn short_output_stays_whole() {
    let t = apply("a\nb\n", &OutputBudget { max_bytes: 100, head_lines: 2, tail_lines: 2 }, "x");
    assert_eq!(t.text, "a\nb\n");
    assert!(t.info.is_none());
}

#[test]
fn counts_are_remembered() {
    let mut c = TokenCounter::new();
    let key = match c.lookup("hello") {
        Lookup::Unknown(k) => k,
        _ => panic!("nothing was remembered yet"),
    };
    c.remember(key, 7);
    assert!(matches!(c.lookup("hello"), Lookup::Known(7)));
    assert!(matches!(c.lookup("other"), Lookup::Unknown(_)));
}
