//! The commands: settings from the command line, the doctor, the benchmarks, what is printed.

use buzzcode::bench::{
    bench_request, check_prefix, fits_context, is_left_out, read_finish, synthetic_part, task_passed, with_spec,
};
use buzzcode::cli::{apply_override, choose_profile, permission_mode, use_ctx, use_profile};
use buzzcode::config::{Config, McpServer};
use buzzcode::console::{compact, print_event};
use buzzcode::doctor::{
    build_finding, coherence_finding, cuda_finding, effort_finding, goes_live, gpu_finding, ram_finding, tool_finding,
    version_line, Finding, Level, Report,
};
use buzzcode::events::AgentEvent;
use buzzcode::handle::AgentMode;
use buzzcode::json::Json;
use buzzcode::mcp::{class_for, describe_tool, is_used, show_result, timeout_for, McpContent};
use buzzcode::permission::{PermissionClass, PermissionMode};
use buzzcode::prompt::PromptEnv;
use buzzcode::registry::{ToolRegistry, ToolSpec};
use buzzcode::setup::{agent_setup, chat_value, commit_message, commit_request, detect_languages, session_id};

fn json(s: &str) -> Json {
    Json::parse(s).unwrap()
}

#[test]
fn profiles_are_chosen_by_name() {
    let mut cfg = Config::default();
    cfg.finalize().unwrap();
    let second = cfg.profiles[1].name.clone();
    assert!(use_profile(&mut cfg, &second).is_ok());
    assert_eq!(cfg.active_profile().name, second);
    assert!(use_profile(&mut cfg, "nope").is_err());
    use_ctx(&mut cfg, 4096);
    assert_eq!(cfg.active_profile().ctx, 4096);
    assert_eq!(choose_profile(&cfg, &second, None).unwrap().name, second);
    assert!(choose_profile(&cfg, "nope", None).is_err());
    let mut made = cfg.profiles[0].copy();
    made.name = "made".into();
    assert!(apply_override(&mut cfg, "x.gguf", Some(made)).is_ok());
    assert_eq!(cfg.active_profile().name, "made");
    assert!(matches!(permission_mode(&cfg, Some(PermissionMode::Yolo)), PermissionMode::Yolo));
}

#[test]
fn findings_are_counted() {
    let mut r = Report::new();
    r.note(&Finding { level: Level::Good, text: "a".into() });
    r.note(&Finding { level: Level::Warn, text: "b".into() });
    r.note(&Finding { level: Level::Fail, text: "c".into() });
    assert_eq!((r.ok, r.warn, r.fail), (1, 1, 1));
    let (text, failed) = r.finish();
    assert!(text.contains('1'));
    assert_ne!(failed, Report::new().finish().1);
}

#[test]
fn what_the_doctor_says() {
    assert!(matches!(tool_finding("git", Some("/usr/bin/git")).level, Level::Good));
    assert!(!matches!(tool_finding("git", None).level, Level::Good));
    assert!(!matches!(cuda_finding(None).level, Level::Good));
    assert!(!matches!(gpu_finding(Err("none")).level, Level::Good));
    assert!(ram_finding(32 << 30, 16 << 30).text.contains("32"));
    assert_eq!(version_line("x\nversion: 10500 (abc)\ny"), "version: 10500 (abc)");
    assert!(build_finding("version: 10449 (abc)").is_some());
    assert!(build_finding("version: 10450 (abc)").is_none());
    assert!(goes_live(false, false, true, true));
    assert!(!goes_live(true, false, true, true));
    assert!(!matches!(coherence_finding("", "").level, Level::Good));
    assert!(matches!(effort_finding("ping a", "ping a").level, Level::Good));
    assert!(effort_finding("x ping a", "x ping b").text.contains("safe to vary"));
    assert!(matches!(effort_finding("high ping", "low ping").level, Level::Warn));
}

#[test]
fn prompts_that_fit() {
    assert!(fits_context(1000, 100, 4096));
    assert!(!fits_context(4000, 100, 4096));
    assert!(synthetic_part(7).contains('7'));
    assert_ne!(synthetic_part(7), synthetic_part(8));
    assert_eq!(bench_request("m", vec![], 5).to_value().get("max_tokens").unwrap().as_u64(), Some(5));
    let p = Config::default().profiles.remove(0);
    assert_eq!(with_spec(&p, "none").spec, "none");
}

#[test]
fn a_stable_prefix_is_seen() {
    let mut ms = vec![chat_value("system", "s"), chat_value("user", "u")];
    let (first, _) = check_prefix(&ms, None);
    assert_eq!(first.len(), 64);
    let (again, _) = check_prefix(&ms, Some(&first));
    assert_eq!(first, again);
    ms[0] = chat_value("system", "t");
    let (other, _) = check_prefix(&ms, Some(&first));
    assert_ne!(first, other);
}

#[test]
fn how_a_run_ended() {
    let out = "noise\n{\"type\":\"finished\",\"reason\":\"max_turns\",\"turns\":3}\nmore";
    assert_eq!(read_finish(out), (3, "max_turns".to_string()));
    assert_eq!(read_finish(""), (0, "?".to_string()));
    assert!(task_passed(Some(true), "end_turn"));
    assert!(!task_passed(Some(false), "end_turn"));
    assert!(is_left_out("target"));
    assert!(!is_left_out("src"));
}

#[test]
fn what_is_printed() {
    assert_eq!(compact(&json("{\"a\":1}")), "{\"a\":1}");
    let long = format!("{{\"a\":\"{}\"}}", "x".repeat(300));
    let c = compact(&json(&long));
    assert!(c.ends_with('…') && c.len() == 163);
    let (text, thinking) = print_event(&AgentEvent::ContentDelta { text: "hi".into() }, false);
    assert!(text.contains("hi") && !thinking);
    let (_, thinking) = print_event(&AgentEvent::ReasoningDelta { text: "hm".into() }, false);
    assert!(thinking);
}

fn server(trust: &str) -> McpServer {
    McpServer {
        name: "s".into(),
        command: "run".into(),
        args: vec![],
        env: vec![],
        trust: trust.into(),
        enabled: true,
        timeout_s: 1,
    }
}

#[test]
fn tools_of_other_servers() {
    let t = describe_tool(&server("ask"), "look", Some("Looks."), &json("{\"$schema\":\"x\",\"type\":\"object\"}"));
    assert_eq!(t.name, "mcp__s__look");
    assert_eq!(t.description, "[MCP s] Looks.");
    assert_eq!(t.schema.to_text(), "{\"type\":\"object\"}");
    assert!(matches!(t.class, PermissionClass::Network));
    assert!(matches!(class_for("readonly"), PermissionClass::ReadOnly));
    assert_eq!(timeout_for(&server("ask")), 5);
    assert!(is_used(&server("ask")));
    assert!(!is_used(&McpServer { enabled: false, ..server("ask") }));
    let content = vec![McpContent::Text("a".into()), McpContent::Image, McpContent::ResourceLink("u".into())];
    assert_eq!(show_result(&content, None), "a\n[image omitted]\n[resource link u]");
    assert_eq!(show_result(&vec![], Some(&json("{\"a\":1}"))), "{\n  \"a\": 1\n}");
}

#[test]
fn agents_for_modes() {
    let mut full = ToolRegistry::new();
    for n in ["read_file", "edit_file", "write_plan", "shell"] {
        full.register(ToolSpec { name: n.into(), schema: json("{}"), openai: json("{}") }).unwrap();
    }
    let cfg = Config::default();
    let env = PromptEnv::detect("/w", false, false, "linux", vec![], vec![], false);
    let plan = agent_setup(AgentMode::Plan, &full, &env, &cfg);
    let names = plan.registry.names();
    assert!(names.contains(&"write_plan".to_string()) && !names.contains(&"edit_file".to_string()), "{names:?}");
    let main = agent_setup(AgentMode::Main, &full, &env, &cfg);
    assert!(main.registry.names().contains(&"edit_file".to_string()));
    assert_eq!(main.max_turns, cfg.general.max_turns);
}

#[test]
fn commit_messages() {
    let cfg = Config::default();
    let r = commit_request(&cfg.profiles[0], "+ a line");
    assert!(r.to_value().to_text().contains("+ a line"));
    assert_eq!(commit_message("  Add it\n"), Some("Add it".to_string()));
    assert_eq!(commit_message("  \n"), None);
}

#[test]
fn languages_and_sessions() {
    let files = vec!["a.rs".to_string(), "b.rs".to_string(), "c.py".to_string(), "d".to_string()];
    let l = detect_languages(&files, false);
    assert_eq!(l[0], "Rust");
    assert_eq!(session_id(255), "ff");
    assert_eq!(session_id(0), "0");
}
