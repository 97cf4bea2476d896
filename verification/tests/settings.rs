//! The configuration, its layers and its places, and the stream of an answer.

use buzzcode::cli::{parse_ctx, parse_mode, CtxError};
use buzzcode::config::{trim_slashes, Config, ConfigError, Engine, Profile};
use buzzcode::merge::{
    load_layers, merge_into, persist_permission_mode, persist_profile, profile_entry, EnvOverrides,
};
use buzzcode::paths::{expand_path, Paths, Surroundings};
use buzzcode::permission::PermissionMode;
use buzzcode::sse::{parse_chunk, Answer, FinishReason, StreamEvent};
use buzzcode::toml_doc::Toml;

fn toml(s: &str) -> Toml {
    Toml::parse(s).unwrap()
}

fn no_overrides() -> EnvOverrides {
    EnvOverrides {
        profile: None,
        permission_mode: None,
        log_level: None,
        engine_url: None,
        engine_port: None,
        llama_server: None,
    }
}

#[test]
fn merges_named_arrays_by_name() {
    let mut base = toml(
        r#"
            [[profile]]
            name = "a"
            ctx = 1
            [[profile]]
            name = "b"
            ctx = 2
        "#,
    );
    let layer = toml(
        r#"
            [[profile]]
            name = "b"
            ctx = 99
            [[profile]]
            name = "c"
            ctx = 3
        "#,
    );
    merge_into(&mut base, &layer);
    let arr = base.get("profile").unwrap().as_array().unwrap();
    assert_eq!(arr.len(), 3);
    assert_eq!(arr[1].get("ctx").unwrap().as_integer(), Some(99));
    assert_eq!(arr[2].get_str("name"), Some("c"));
}

#[test]
fn deep_merges_tables() {
    let mut base = toml("[engine]\nport = 1\nhost = 'x'");
    let layer = toml("[engine]\nport = 2");
    merge_into(&mut base, &layer);
    assert_eq!(base.get("engine").unwrap().get("port").unwrap().as_integer(), Some(2));
    assert_eq!(base.get("engine").unwrap().get_str("host"), Some("x"));
}

#[test]
fn what_a_layer_does_not_name_is_kept() {
    let mut base = toml("a = 1\n[t]\nb = 2\n[[p]]\nname = 'x'\nn = 1\n[[p]]\nname = 'y'\nn = 2\n");
    let before = base.copy();
    merge_into(&mut base, &toml(""));
    assert!(base.same_as(&before));
    merge_into(&mut base, &toml("[[p]]\nname = 'y'\nn = 3\n"));
    assert_eq!(base.get("a").unwrap().as_integer(), Some(1));
    assert_eq!(base.get("t").unwrap().get("b").unwrap().as_integer(), Some(2));
    let p = base.get("p").unwrap().as_array().unwrap();
    assert_eq!(p[0].get("n").unwrap().as_integer(), Some(1));
    assert_eq!(p[1].get("n").unwrap().as_integer(), Some(3));
}

#[test]
fn other_lists_are_replaced() {
    let mut base = toml("xs = [1, 2, 3]");
    merge_into(&mut base, &toml("xs = [4]"));
    assert_eq!(base.get("xs").unwrap().as_array().unwrap().len(), 1);
}

#[test]
fn later_layers_win_and_the_environment_wins_over_all() {
    let env = EnvOverrides {
        profile: Some("p".into()),
        engine_url: Some("http://h:1".into()),
        engine_port: Some("9000".into()),
        ..no_overrides()
    };
    let doc = load_layers(
        toml("[general]\ndefault_profile = 'a'\n[engine]\nport = 1"),
        &vec![toml("[engine]\nport = 2"), toml("[engine]\nport = 3")],
        &env,
    );
    assert_eq!(doc.get("general").unwrap().get_str("default_profile"), Some("p"));
    assert_eq!(doc.get("engine").unwrap().get("port").unwrap().as_integer(), Some(9000));
    assert_eq!(doc.get("engine").unwrap().get_str("provider"), Some("external"));
    assert_eq!(doc.get("engine").unwrap().get_str("external_url"), Some("http://h:1"));
    let plain = load_layers(toml("a = 1"), &vec![], &EnvOverrides { engine_port: Some("x".into()), ..no_overrides() });
    assert!(plain.same_as(&toml("a = 1")));
}

#[test]
fn documents_are_written_back() {
    let doc = toml("a = 1\nb = [true, 'x']\n[t]\nc = 2.5\n");
    let text = doc.to_text().unwrap();
    assert!(toml(&text).same_as(&doc), "{text}");
    assert!(Toml::parse("a = ").is_err());
}

#[test]
fn profiles_are_stored_by_name() {
    let entry = profile_entry(&toml("name = 'a'\nctx = 5\nngl = 'auto'"), &toml("name = ''\nctx = 4\nngl = 'auto'"));
    assert_eq!(entry.get("ctx").unwrap().as_integer(), Some(5));
    assert!(entry.get("ngl").is_none());
    let mut doc = toml("[[profile]]\nname = 'a'\nctx = 1\n[[profile]]\nname = 'b'\n");
    assert!(persist_profile(&mut doc, entry, "a", true));
    let arr = doc.get("profile").unwrap().as_array().unwrap();
    assert_eq!(arr.len(), 2);
    assert_eq!(arr[1].get_str("name"), Some("a"));
    assert_eq!(doc.get("general").unwrap().get_str("default_profile"), Some("a"));
    assert!(persist_permission_mode(&mut doc, "yolo"));
    assert_eq!(doc.get("general").unwrap().get_str("permission_mode"), Some("yolo"));
    assert!(!persist_permission_mode(&mut Toml::Integer(1), "yolo"));
    let text = doc.to_text().unwrap();
    let loaded = load_layers(toml("[general]\npermission_mode = 'ask'"), &vec![toml(&text)], &no_overrides());
    assert_eq!(loaded.get("general").unwrap().get_str("permission_mode"), Some("yolo"));
}

#[test]
fn the_defaults_are_complete() {
    let mut c = Config::default();
    assert_eq!(c.general.default_profile, "qwen38-27b-fast");
    assert_eq!(c.profiles.len(), 7);
    assert!(c.finalize().is_ok());
    assert_eq!(c.active_profile().name, "qwen38-27b-fast");
    let before = format!("{c:?}");
    assert!(c.finalize().is_ok());
    assert_eq!(format!("{c:?}"), before, "what is complete stays as it is");
    assert!(c.profile("nope").is_none());
}

#[test]
fn a_configuration_without_its_default_profile_is_refused() {
    let mut c = Config::default();
    c.general.default_profile = "nope".into();
    match c.finalize() {
        Err(e) => {
            assert_eq!(e, ConfigError::UnknownDefault("nope".into()));
            assert!(e.to_string().contains("nope"));
        }
        Ok(_) => panic!("it must be refused"),
    }
    c.profiles.clear();
    assert_eq!(c.finalize().unwrap_err(), ConfigError::NoProfile);
}

#[test]
fn addresses_have_no_slash_at_the_end() {
    assert_eq!(trim_slashes("http://h/v1//"), "http://h/v1");
    let e = Engine::default();
    assert_eq!(e.base_url(), format!("http://{}:{}", e.host, e.port));
    let p = Profile::builtin().remove(0);
    assert!(!p.is_external(&e));
    assert_eq!(p.base_url(&e), e.base_url());
}

#[test]
fn places() {
    let p = Paths::discover(Some("/home/u"), "/w", false).unwrap();
    assert_eq!(p.user_config, "/home/u/.buzzcode/config.toml");
    assert_eq!(p.project_config, "/w/.buzzcode/config.toml");
    assert_eq!(p.plans_dir(), "/w/.buzzcode/plans");
    assert_eq!(p.ensure_dirs()[0], "/home/u/.buzzcode");
    assert!(Paths::discover(None, "/w", false).is_none());
}

#[test]
fn paths_are_expanded() {
    let env = Surroundings { home: Some("/h".into()), vars: vec![("A".into(), "x".into())], windows: false };
    assert_eq!(expand_path("plain/path", &env), "plain/path");
    assert_eq!(expand_path("~/m", &env), "/h/m");
    assert_eq!(expand_path("$A/${A}/%A%", &env), "x/x/x");
    assert_eq!(expand_path("$Aé", &env), "");
    assert_eq!(expand_path("50%", &env), "50%");
    assert_eq!(expand_path("%a%", &env), "");
    let windows = Surroundings { home: None, vars: vec![("UserProfile".into(), "C:\\u".into())], windows: true };
    assert_eq!(expand_path("%userprofile%\\m", &windows), "C:\\u\\m");
}

#[test]
fn context_sizes() {
    assert_eq!(parse_ctx("32768").unwrap(), 32768);
    assert_eq!(parse_ctx("256k").unwrap(), 262144);
    assert_eq!(parse_ctx("2.5k").unwrap(), 2560);
    assert_eq!(parse_ctx("2049").unwrap(), 2304);
    assert!(matches!(parse_ctx("1k"), Err(CtxError::OutOfRange)));
    assert!(matches!(parse_ctx("infk"), Err(CtxError::OutOfRange)));
    assert!(matches!(parse_ctx("x"), Err(CtxError::NotANumber)));
    assert!(matches!(parse_mode(Some("yolo")), Ok(Some(PermissionMode::Yolo))));
    assert!(parse_mode(Some("nope")).is_err());
}

#[test]
fn parses_content_and_tool_delta() {
    let d = r#"{"choices":[{"delta":{"content":"hi","tool_calls":[{"index":0,"id":"c1","function":{"name":"read_file","arguments":"{\"pa"}}]},"finish_reason":null}]}"#;
    let ev = parse_chunk(d);
    assert!(matches!(ev[0], StreamEvent::Content(ref s) if s == "hi"));
    assert!(matches!(ev[1], StreamEvent::ToolCallDelta { index: 0, .. }));
}

#[test]
fn parses_timings() {
    let d = r#"{"choices":[{"delta":{},"finish_reason":"stop"}],"timings":{"prompt_n":100,"cache_n":90,"prompt_ms":12.5,"predicted_n":10,"predicted_ms":250.0}}"#;
    let ev = parse_chunk(d);
    assert!(ev.iter().any(|e| matches!(e, StreamEvent::Timings(t) if t.cache_n == 90)));
}

#[test]
fn pieces_of_a_call_are_put_together() {
    let mut a = Answer::new();
    for d in [
        r#"{"choices":[{"delta":{"tool_calls":[{"index":0,"id":"c1","function":{"name":"grep","arguments":"{\"a\":"}}]}}]}"#,
        r#"{"choices":[{"delta":{"tool_calls":[{"index":0,"function":{"arguments":"1}"}}]}}]}"#,
        r#"{"choices":[{"delta":{"content":"x"},"finish_reason":"tool_calls"}]}"#,
    ] {
        for e in parse_chunk(d) {
            a.apply(e);
        }
    }
    assert_eq!(a.calls.len(), 1);
    assert_eq!(a.calls[0].id, "c1");
    assert_eq!(a.calls[0].name, "grep");
    assert_eq!(a.calls[0].arguments, "{\"a\":1}");
    assert_eq!(a.content, "x");
    assert!(matches!(a.finish, Some(FinishReason::ToolCalls)));
    assert!(a.error.is_none());
}

#[test]
fn mixed_pieces_find_their_calls() {
    let mut a = Answer::new();
    for d in [
        r#"{"choices":[{"delta":{"tool_calls":[{"index":0,"id":"a","function":{"name":"x","arguments":"1"}},{"index":1,"id":"b","function":{"name":"y","arguments":"2"}}]}}]}"#,
        r#"{"choices":[{"delta":{"tool_calls":[{"index":1,"function":{"arguments":"3"}},{"index":0,"function":{"arguments":"4"}}]}}]}"#,
    ] {
        for e in parse_chunk(d) {
            a.apply(e);
        }
    }
    assert_eq!(a.calls.iter().map(|c| c.arguments.as_str()).collect::<Vec<_>>(), vec!["14", "23"]);
    for e in parse_chunk(r#"{"error":{"message":"boom"}}"#) {
        a.apply(e);
    }
    assert_eq!(a.error.as_deref(), Some("boom"));
}
