//! The running engine: its command line, its client, its states, and the choice of a model.

use buzzcode::catalog::{
    assess, base_profile, configured_profile, discovered_profile, has_layer_weights, is_current, profile_for, select,
    table_head, truncate, Candidate, Source,
};
use buzzcode::client::{
    chat_error, is_healthy_reply, rendered_prompt, slot_body, slot_error, template_body, token_count, tokenize_body,
    ChatRequest, LlamaClient, ServerProps,
};
use buzzcode::config::{Config, EngineProvider};
use buzzcode::facts::ModelFacts;
use buzzcode::gpu::{GpuInfo, GpuMem};
use buzzcode::json::Json;
use buzzcode::manager::{
    after_attempt, kept_after_start, model_source, prepare, shrink_plan, wait_step, warmup_request, watch_step, Attempt,
    EngineManager, EngineState, ModelSource, Route, StartStep, WaitStep, WatchStep, MAX_ATTEMPTS, NANOS,
};
use buzzcode::paths::Surroundings;
use buzzcode::server::{model_display, LaunchFacts, LlamaServerArgs, LogTail};
use buzzcode::tune::TunedProfile;
use buzzcode::vram::{KvType, PlanOpts, VramPlan, VramPlanner, MIB};

fn json(s: &str) -> Json {
    Json::parse(s).unwrap()
}

fn env() -> Surroundings {
    Surroundings { home: Some("/h".into()), vars: vec![], windows: false }
}

fn plan(n_ctx: u32) -> VramPlan {
    VramPlan {
        ngl: 65,
        n_ctx,
        override_tensor: None,
        ffn_cpu_blocks: 0,
        ctx_checkpoints: 2,
        est_vram_bytes: 100 * MIB,
        est_cpu_weight_bytes: 0,
        free_vram_bytes: 2000 * MIB,
        rationale: "r".into(),
    }
}

fn facts() -> ModelFacts {
    ModelFacts {
        path: "/m/x.gguf".into(), name: "x".into(), arch: "qwen3".into(), quant: "Q4_K_M".into(),
        n_layer: 64, n_embd: 4096, n_head: 32, n_head_kv: 4, head_dim: 128, value_dim: 128,
        n_attn_layers: 64, n_recurrent_layers: 0, is_attn: vec![], n_ctx_train: 262144, n_vocab: 150_000,
        has_mtp: false, mtp_bytes: 0, layer_bytes: vec![100 * MIB; 64], layer_ffn_bytes: vec![70 * MIB; 64],
        nonlayer_bytes: 900 * MIB, total_bytes: 7300 * MIB, file_size: 7300 * MIB,
        recurrent_state_bytes_per_seq: 0, chat_template: None, n_params: 27_000_000_000,
        expert_count: 0, expert_used_count: 0,
    }
}

#[test]
fn the_server_gets_its_port_and_model() {
    let cfg = Config::default();
    let f = LaunchFacts {
        model: "/m/x.gguf".into(),
        draft: None,
        port: 8089,
        slots_dir: "/s".into(),
        log_file: "/l".into(),
    };
    let a = LlamaServerArgs::build(&cfg, &cfg.profiles[0], "/b/llama-server".into(), &plan(32768), &f, &env());
    let line = a.command_line();
    assert!(line.starts_with("\"/b/llama-server\" -m /m/x.gguf "), "{line}");
    assert!(a.args.windows(2).any(|w| w[0] == "--port" && w[1] == "8089"), "{line}");
    assert!(a.args.windows(2).any(|w| w[1] == "/m/x.gguf"), "{line}");
    assert_eq!(model_display("/m/x.gguf", false), "x.gguf");
}

#[test]
fn the_tail_of_a_log() {
    let mut t = LogTail::new(2);
    for l in ["a", "CUDA error: out of memory", "c"] {
        t.push(l.to_string());
    }
    assert_eq!(t.snapshot(), vec!["CUDA error: out of memory", "c"]);
    assert!(t.contains("out of"));
    assert!(t.looks_like_oom());
    assert_eq!(t.last_lines(1), "c");
}

#[test]
fn requests_are_written_in_order() {
    let cfg = Config::default();
    let r = ChatRequest::new("m", vec![json("{\"role\":\"user\",\"content\":\"x\"}")])
        .sampling(&cfg.profiles[0].sampling.coding)
        .reasoning_effort("none");
    let v = r.to_value();
    assert_eq!(v.get_str("model"), Some("m"));
    assert!(v.to_text().starts_with("{\"model\":\"m\",\"messages\":[{\"role\":\"user\",\"content\":\"x\"}]"));
    let kwargs = v.get("chat_template_kwargs").unwrap();
    assert_eq!(kwargs.get("enable_thinking").unwrap().as_bool(), Some(false));
    let w = warmup_request("a", vec![], None, "low").to_value();
    assert_eq!(w.get("max_tokens").unwrap().as_u64(), Some(1));
}

#[test]
fn addresses_of_the_client() {
    let c = LlamaClient::with_api_key("http://h:1/", Some("k".into()));
    assert_eq!(c.url("/health"), "http://h:1/health");
    assert_eq!(c.auth_header(), Some("Bearer k".to_string()));
    assert_eq!(LlamaClient::new("http://h:1").auth_header(), None);
    assert_eq!(c.slot_url(0, "save"), "http://h:1/slots/0?action=save");
}

#[test]
fn replies_of_the_server() {
    assert!(is_healthy_reply(Some("{\"status\":\"ok\"}")));
    assert!(!is_healthy_reply(Some("Unexpected endpoint (GET /health)")));
    assert_eq!(token_count(&json("{\"tokens\":[1,2,3]}")), 3);
    assert_eq!(token_count(&json("{}")), 0);
    assert_eq!(tokenize_body("x").get_str("content"), Some("x"));
    assert_eq!(rendered_prompt(&json("{\"prompt\":\"p\"}")), "p");
    assert_eq!(slot_body(Some("f")).get_str("filename"), Some("f"));
    assert!(template_body(&vec![], &None, &None).get("messages").is_some());
    assert!(slot_error("save", "500", &json("{\"e\":1}")).contains("500"));
    assert!(chat_error("400", "bad").contains("bad"));
    let props = ServerProps {
        model_path: "m".into(),
        total_slots: 1,
        chat_template: String::new(),
        default_generation_settings: json("{\"n_ctx\":4096}"),
        build_info: String::new(),
    };
    assert_eq!(props.n_ctx(), 4096);
    let read = ServerProps::read("{\"total_slots\":2,\"default_generation_settings\":{\"n_ctx\":8192}}");
    assert_eq!(read.lines(), vec!["  n_ctx   : 8192", "  slots   : 2"]);
    let read = ServerProps::read("[\"m.gguf\",2,\"\",{\"n_ctx\":4096}]");
    assert_eq!((read.model_path.as_str(), read.total_slots, read.n_ctx()), ("m.gguf", 2, 4096));
    assert!(ServerProps::read("[\"m.gguf\",2,\"\",null,\"b\",6]").lines().is_empty());
    assert!(ServerProps::read("{\"total_slots\":\"two\",\"model_path\":\"m\"}").lines().is_empty());
}

#[test]
fn a_failed_start_is_tried_with_less() {
    let f = facts();
    let p = shrink_plan(&f, plan(32768));
    assert_eq!(p.n_ctx, 28672);
    assert_eq!(p.rationale, "r\nOOM → ctx 28672");
    let p = shrink_plan(&f, plan(16384));
    assert_eq!((p.n_ctx, p.ffn_cpu_blocks), (16384, 4));
    let full = VramPlan { ffn_cpu_blocks: 25, ..plan(16384) };
    assert_eq!(shrink_plan(&f, full).ngl, 61);

    let log = LogTail::new(10);
    let oom = |error: &str| Attempt::Failed { oom: true, error: error.into() };
    assert!(matches!(after_attempt(1, plan(32768), &f, "m", oom("x"), &log, false), StartStep::Retry(ref p) if p.n_ctx == 28672));
    assert!(matches!(after_attempt(MAX_ATTEMPTS, plan(32768), &f, "m", oom("x"), &log, false), StartStep::Down { .. }));
    assert!(matches!(
        after_attempt(1, plan(32768), &f, "m", Attempt::Failed { oom: false, error: "x".into() }, &log, false),
        StartStep::Down { .. }
    ));
    assert!(matches!(
        after_attempt(1, plan(32768), &f, "m", Attempt::Healthy { n_ctx: 8192 }, &log, false),
        StartStep::Up(EngineState::Ready { n_ctx: 8192, .. })
    ));
}

#[test]
fn a_smaller_context_needs_no_more() {
    let f = facts();
    let p = VramPlanner { facts: &f, free_vram: 1 << 34, total_vram: 1 << 34, free_ram: 1 << 34 };
    let o = PlanOpts::default();
    assert!(p.estimate(65, 16384, 0, &o) < p.estimate(65, 32768, 0, &o));
    assert!(p.estimate(65, 16384, 4, &o) < p.estimate(65, 16384, 0, &o));
    assert_eq!(p.kv_bytes_per_token(KvType::Q8_0), 4 * 256 * 34 / 32 * 64);
}

#[test]
fn waiting_for_a_server() {
    assert!(matches!(wait_step(None, true, 5, 10), WaitStep::Up));
    assert!(matches!(wait_step(Some("exit code 1"), false, 5, 10), WaitStep::Failed(_)));
    assert!(matches!(wait_step(None, false, 11 * NANOS, 10), WaitStep::Failed(_)));
    assert!(matches!(wait_step(None, false, 3 * NANOS, 10), WaitStep::Wait(EngineState::Loading { elapsed_s: 3 })));
}

#[test]
fn watching_a_server() {
    let ready = EngineState::Ready { n_ctx: 1, model: "m".into() };
    assert!(matches!(watch_step(None, &ready, true, 0, 3), WatchStep::Watch));
    assert!(matches!(watch_step(Some("x"), &EngineState::Stopped, false, 0, 3), WatchStep::Leave));
    assert!(matches!(watch_step(Some("x"), &ready, false, 2, 3), WatchStep::Restart { attempts: 3, backoff_s: 4, .. }));
    assert!(matches!(watch_step(Some("x"), &ready, false, 3, 3), WatchStep::GiveUp(_)));
}

#[test]
fn the_manager_goes_from_state_to_state() {
    let cfg = Config::default();
    let profile = cfg.profiles[0].copy();
    let mut m = EngineManager::new(cfg, profile, &env());
    assert_eq!(m.base_url(), format!("http://{}:{}", m.config().engine.host, m.port()));
    m.set_port(9001, &env());
    assert!(m.base_url().ends_with(":9001"));
    assert!(matches!(m.start(false), Route::BringUp));
    assert!(matches!(m.state, EngineState::Resolving));
    let mem = GpuMem { total_mib: 16000, used_mib: 1000, free_mib: 15000 };
    let p = m.prepare_start(&facts(), &mem, 1 << 35, None);
    assert!(p.plan.ngl > 0);
    m.begin_attempt(1, &p.plan);
    assert!(matches!(m.state, EngineState::Starting { attempt: 1 }));
    let log = LogTail::new(4);
    let s = m.end_attempt(1, p.plan, &facts(), "x.gguf", Attempt::Healthy { n_ctx: 8192 }, &log, false);
    assert!(matches!(s, StartStep::Up(_)));
    assert!(m.state.is_ready());
    assert!(m.published, "the entry in the ledger follows the engine");
    assert!(matches!(m.start(true), Route::AlreadyUp));
    assert!(matches!(m.watch(Some("gone"), false), WatchStep::Restart { attempts: 1, .. }));
    assert!(m.stop(), "the entry is to be taken back");
    assert!(!m.stop());
    assert!(matches!(m.state, EngineState::Stopped));
}

#[test]
fn an_external_engine_is_only_asked() {
    let mut cfg = Config::default();
    cfg.engine.provider = EngineProvider::External;
    cfg.engine.external_url = "http://far:1".into();
    let profile = cfg.profiles[0].copy();
    let mut m = EngineManager::new(cfg, profile, &env());
    assert!(m.is_external());
    assert!(matches!(m.start(false), Route::External));
    assert!(m.external_started(false).is_err());
    assert!(m.external_started(true).is_ok());
}

#[test]
fn a_good_start_is_kept() {
    let t = kept_after_start(None, "m", "h", "p", &plan(8192), 0, 500, Some(900));
    assert_eq!((t.successes, t.measured_vram_mib), (1, Some(400)));
    let t = kept_after_start(Some(t), "m", "h", "p", &plan(8192), 9, 500, None);
    assert_eq!(t.successes, 2);
    assert_eq!(t.tuned_at, "1970-01-01T00:00:00Z");
    let t = kept_after_start(Some(t), "m", "h", "p", &plan(4096), 9, 500, None);
    assert_eq!(t.successes, 1);
    assert_eq!(t.tuned_at, "1970-01-01T00:00:09Z");
}

#[test]
fn a_kept_plan_is_taken_where_it_still_holds() {
    let cfg = Config::default();
    let profile = cfg.profiles[0].copy();
    let mem = GpuMem { total_mib: 16000, used_mib: 1000, free_mib: 15000 };
    let fresh = prepare(&cfg, &profile, &facts(), &mem, 1 << 35, None);
    let mut t = TunedProfile::from_plan("x", "h", &profile.name, &fresh.plan, 0);
    t.successes = 1;
    let again = prepare(&cfg, &profile, &facts(), &mem, 1 << 35, Some(&t));
    assert_eq!((again.plan.ngl, again.plan.n_ctx), (fresh.plan.ngl, fresh.plan.n_ctx));
}

#[test]
fn where_a_model_comes_from() {
    assert!(matches!(model_source(Some("/m/x.gguf".into()), "x.gguf", "/d"), ModelSource::Local(ref p) if p == "/m/x.gguf"));
    match model_source(None, "a/b:x-00001-of-00002.gguf", "/d") {
        ModelSource::Download { repo, shards, .. } => {
            assert_eq!(repo, "a/b");
            assert_eq!(shards.len(), 2);
        }
        _ => panic!("it must be fetched"),
    }
    match model_source(None, "a \"b\".gguf", "/d") {
        ModelSource::Missing(m) => assert!(m.starts_with("model \"a \\\"b\\\".gguf\" not found locally"), "{m}"),
        _ => panic!("it must be missing"),
    }
}

fn candidate(name: &str, path: &str) -> Candidate {
    Candidate {
        name: name.into(),
        source: Source::Local(path.into()),
        size_bytes: 1,
        arch: "a".into(),
        quant: "q".into(),
        has_mtp: false,
        plan: None,
        fits_gpu: true,
        note: String::new(),
        profile: None,
    }
}

#[test]
fn a_candidate_is_chosen_by_number_or_name() {
    let cs = vec![candidate("Alpha-7B", "/m/alpha.gguf"), candidate("Beta-8B", "/m/beta.gguf")];
    let cfg = Config::default();
    assert_eq!(select(&cs, &cfg, "2"), Some(1));
    assert_eq!(select(&cs, &cfg, "beta"), Some(1));
    assert_eq!(select(&cs, &cfg, "3"), None);
    assert_eq!(select(&cs, &cfg, "gamma"), None);
    assert!(cs[0].is_local());
    assert_eq!(cs[0].model_spec(), "/m/alpha.gguf");
    assert!(!is_current(&cs[0], None));
}

#[test]
fn profiles_are_made_for_models() {
    let cfg = Config::default();
    let p = base_profile("n", "m.gguf", true);
    assert_eq!((p.name.as_str(), p.model.as_str()), ("n", "m.gguf"));
    let c = candidate("Alpha-7B", "/m/alpha.gguf");
    let q = profile_for(&cfg, &c);
    assert_eq!(q.model, "/m/alpha.gguf");
    assert!(q.ctx_min <= q.ctx);
    assert!(has_layer_weights(&facts()));
    let (fits, gib, _) = assess(&facts(), &plan(32768));
    assert!(fits, "{gib}");
    let none: Vec<Option<String>> = cfg.profiles.iter().map(|_| None).collect();
    assert_eq!(configured_profile(&cfg, &none, &c.source, false), None);
    let mut some = none;
    some[1] = Some("/m/alpha.gguf".into());
    assert_eq!(configured_profile(&cfg, &some, &c.source, false), Some(cfg.profiles[1].name.clone()));
    assert_eq!(discovered_profile(&cfg, &some, "/m/alpha.gguf", "alpha", "Alpha", false, false).name, cfg.profiles[1].name);
    let g = GpuInfo { name: "G".into(), driver: "d".into(), mem: GpuMem { total_mib: 16384, used_mib: 0, free_mib: 8192 } };
    assert!(table_head(&g).contains("G"));
    assert_eq!(truncate("abcdef", 4), "abc…");
    assert_eq!(truncate("abc", 4), "abc");
}
