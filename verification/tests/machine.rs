//! The ledger of ports, the engine's own file, and the guardian of the graphics memory.

use buzzcode::json::Json;
use buzzcode::pidfile::{self, stop_message, stop_targets, EngineRecord};
use buzzcode::ports::{
    engine_extra, entry_at, first_port, health_url, lock_path, lock_step, next_port, publish_at, published_port,
    read_ledger, record, resolve_ledger, system_port, withdraw_at, LockStep, LockTry, PortStep, APP, LOCK_RETRY_MS,
};
use buzzcode::sentinel::{
    backoff_after, decide, gate_engine_start, is_acknowledged, next_backoff, read_line, refusal_message, stop_reason, turned_off,
    Blocker, Decision, Grant, Reserved, Sentinel, CLIENT,
};

fn json(s: &str) -> Json {
    Json::parse(s).unwrap()
}

fn plain_record(port: u16) -> Json {
    record(port, 1, 0, "h", vec![])
}

#[test]
fn the_env_override_wins_and_the_default_is_under_localappdata() {
    assert_eq!(resolve_ledger(Some("C:\tmp\\ports.json"), Some(r"C:\AppData"), None, false), "C:\tmp\\ports.json");
    assert_eq!(resolve_ledger(Some("   "), Some(r"C:\AppData"), None, false), r"C:\AppData/Buzzcaf/ports.json");
    assert_eq!(resolve_ledger(None, None, Some("/home/me"), false), "/home/me/.local/share/Buzzcaf/ports.json");
}

/// The port that is found where some are taken and the system offers another.
fn pick_port(preferred: u16, span: u16, taken: &[u16], offered: Option<u16>) -> u16 {
    let mut step = first_port(preferred);
    loop {
        match step {
            PortStep::Try(p) if !taken.contains(&p) => return p,
            PortStep::Try(p) => step = next_port(p, preferred, span),
            PortStep::AskSystem => return system_port(offered, preferred),
        }
    }
}

#[test]
fn a_free_port_is_taken_as_is() {
    let p = 54912;
    assert_eq!(pick_port(p, 5, &[], None), p);
}

#[test]
fn a_busy_port_is_stepped_over_and_left_alone() {
    let p = 54912;
    let got = pick_port(p, 5, &[p], None);
    assert_ne!(got, p, "we must not claim the port someone else holds");
    assert!(got > p && got <= p + 5, "expected p+1..=p+5, got {got}");
}

#[test]
fn an_exhausted_window_falls_back_to_an_os_port() {
    let p = 54912;
    let held = [p, p + 1, p + 2];
    let got = pick_port(p, 2, &held, Some(60001));
    assert_eq!(got, 60001);
    assert_eq!(pick_port(p, 2, &held, None), p);
    assert_eq!(pick_port(0, 2, &[], Some(60001)), 60001);
    assert_eq!(pick_port(65535, 5, &[65535], Some(60001)), 60001);
}

#[test]
fn publishing_writes_the_documented_shape() {
    let entry = record(
        8089,
        4711,
        1_789_041_600,
        "http://127.0.0.1:8089/health",
        engine_extra("qwen3.8-27b", "m.gguf"),
    );
    let ledger = publish_at("", APP, entry);
    let e = entry_at(&ledger, APP).expect("published");
    assert_eq!(e.get("port").unwrap().as_u64(), Some(8089));
    assert_eq!(e.get("pid").unwrap().as_u64(), Some(4711));
    assert_eq!(e.get_str("health"), Some("http://127.0.0.1:8089/health"));
    assert_eq!(e.get("extra").unwrap().get_str("alias"), Some("qwen3.8-27b"));
    assert_eq!(e.get("extra").unwrap().get_str("model"), Some("m.gguf"));
    let started = e.get_str("started_at").unwrap();
    assert!(started.contains('T') && started.ends_with('Z'), "{started}");
}

#[test]
fn publishing_merges_and_never_drops_another_app() {
    let before = r#"{"dexter":{"port":8098,"pid":1,"started_at":"t","health":"h","extra":{}}}"#;
    let ledger = publish_at(before, APP, record(8089, 1, 0, "http://127.0.0.1:8089/health", vec![]));
    assert_eq!(read_ledger(&ledger).len(), 2, "{ledger}");
    assert_eq!(entry_at(&ledger, "dexter").unwrap().get("port").unwrap().as_u64(), Some(8098));
    assert_eq!(entry_at(&ledger, APP).unwrap().get("port").unwrap().as_u64(), Some(8089));
}

#[test]
fn republishing_replaces_only_our_own_entry() {
    let a = publish_at("", "dexter", plain_record(8098));
    let b = publish_at(&a, APP, plain_record(8089));
    let c = publish_at(&b, APP, plain_record(8090));
    assert_eq!(published_port(&c, APP), Some(8090));
    assert_eq!(published_port(&c, "dexter"), Some(8098));
}

#[test]
fn withdrawing_removes_only_our_own_entry_and_is_idempotent() {
    let a = publish_at("", "dexter", plain_record(8098));
    let b = publish_at(&a, APP, plain_record(8089));
    let c = withdraw_at(&b, APP).expect("it was published");
    assert_eq!(withdraw_at(&c, APP), None);
    assert_eq!(withdraw_at(&c, "never-published"), None);
    assert_eq!(withdraw_at("{ not json", APP), None);
    assert!(entry_at(&c, APP).is_none());
    assert_eq!(published_port(&c, "dexter"), Some(8098));
}

#[test]
fn a_corrupt_ledger_is_rebuilt_rather_than_fatal() {
    let ledger = publish_at("{ not json at all", APP, plain_record(8089));
    assert_eq!(published_port(&ledger, APP), Some(8089));
}

#[test]
fn a_ledger_with_a_byte_order_mark_still_parses() {
    let ledger = format!("\u{feff}{}", r#"{"buzzcode":{"port":9001}}"#);
    assert_eq!(published_port(&ledger, APP), Some(9001));
}

#[test]
fn a_missing_ledger_reads_as_nothing_published() {
    assert!(read_ledger("").is_empty());
    assert!(entry_at("", APP).is_none());
}

#[test]
fn the_health_url_and_extra_are_what_the_family_expects() {
    assert_eq!(health_url("127.0.0.1", 8089), "http://127.0.0.1:8089/health");
    let e = Json::Object(engine_extra("a", "m.gguf"));
    assert_eq!(e.get_str("alias"), Some("a"));
    assert_eq!(e.get_str("model"), Some("m.gguf"));
}

#[test]
fn a_port_out_of_range_is_no_port() {
    assert_eq!(published_port(r#"{"buzzcode":{"port":70000}}"#, APP), None);
    assert_eq!(published_port(r#"{"buzzcode":{"port":"8089"}}"#, APP), None);
    assert_eq!(lock_path("/x/ports.json"), "/x/ports.json.lock");
}

fn engine_record() -> EngineRecord {
    EngineRecord {
        pid: 111,
        server_pid: Some(222),
        port: 8089,
        model: "Qwen3.8-27B-UD-IQ3_XXS.gguf".into(),
        alias: "qwen3.8-27b".into(),
        started_at: "2026-09-10T12:00:00Z".into(),
    }
}

#[test]
fn a_record_round_trips_through_json() {
    let text = pidfile::write(&engine_record());
    let back = pidfile::read(&text).unwrap();
    assert_eq!(back.pid, 111);
    assert_eq!(back.server_pid, Some(222));
    assert_eq!(back.port, 8089);
    assert_eq!(back.alias, "qwen3.8-27b");
}

#[test]
fn a_file_written_before_the_server_existed_still_parses() {
    let rec = pidfile::read(
        r#"{"pid":1,"port":8089,"model":"m.gguf","alias":"a","started_at":"2026-09-10T00:00:00Z"}"#,
    )
    .unwrap();
    assert_eq!(rec.server_pid, None);
}

#[test]
fn a_missing_file_reads_as_nothing_running() {
    assert!(pidfile::read("").is_none());
}

#[test]
fn a_file_with_a_byte_order_mark_still_parses() {
    let body = r#"{"pid":7,"port":8089,"model":"m","alias":"a","started_at":"t"}"#;
    assert_eq!(pidfile::read(&format!("\u{feff}{body}")).map(|r| r.pid), Some(7));
}

#[test]
fn garbage_reads_as_nothing_running_rather_than_an_error() {
    assert!(pidfile::read("{ not json").is_none());
}

#[test]
fn new_stamps_this_process_and_a_readable_time() {
    let rec = EngineRecord::new(8089, "m.gguf", "a", Some(9), 4711, 1_518_563_312);
    assert_eq!(rec.pid, 4711);
    assert_eq!(rec.started_at, "2018-02-13T23:08:32Z");
    assert!(rec.started_at.contains('T') && rec.started_at.ends_with('Z'), "{}", rec.started_at);
}

#[test]
fn the_engine_is_stopped_before_its_owner() {
    let t = stop_targets(&engine_record(), 5);
    assert_eq!(t.iter().map(|t| t.pid).collect::<Vec<_>>(), vec![222, 111]);
    assert_eq!(stop_targets(&engine_record(), 111).len(), 1);
    assert_eq!(stop_message(&engine_record(), &vec!["a".into(), "b".into()]).unwrap(), "stopped a and b");
    assert!(stop_message(&engine_record(), &vec![]).is_err());
    assert_eq!(pidfile::process_path(7), "/proc/7");
    assert_eq!(pidfile::path("/u", false), "/u/engine.json");
    assert!(pidfile::is_listed("\"llama-server.exe\",\"222\",\"Console\"", 222));
    assert!(!pidfile::is_listed("\"llama-server.exe\",\"2221\"", 222));
}

#[test]
fn the_status_tells_of_a_stale_record() {
    let lines = pidfile::status_lines("/u/engine.json", Some(&engine_record()), false, false);
    assert_eq!(lines[1], "  pid       : 111 (GONE — stale record)");
    assert_eq!(lines[2], "  server_pid: 222 (GONE)");
    assert_eq!(lines.len(), 8);
    assert_eq!(pidfile::status_lines("/u/engine.json", Some(&engine_record()), true, false).len(), 7);
    assert_eq!(pidfile::status_lines("/p", None, false, false), vec!["engine.json : none at /p"]);
}

#[test]
fn red_vram_stops_the_engine_but_yellow_does_not() {
    let red = json(r#"{"VramTight": {"level": "red", "free_mib": 512}}"#);
    let msg = stop_reason(&red, CLIENT).expect("red must stop the engine");
    assert!(msg.contains("512 MiB free"), "{msg}");
    assert!(stop_reason(&json(r#"{"VramTight": {"level": "yellow", "free_mib": 3000}}"#), CLIENT).is_none());
    assert!(stop_reason(&json(r#"{"VramRelief": {"free_mib": 9000}}"#), CLIENT).is_none());
    assert!(stop_reason(&json(r#"{"Heartbeat": {}}"#), CLIENT).is_none());
}

#[test]
fn preempt_is_obeyed_only_when_it_names_us() {
    let ours = json(r#"{"Preempt": {"client": "buzzcode", "by": "dexter", "mib": 5120, "deadline_secs": 20}}"#);
    let msg = stop_reason(&ours, CLIENT).expect("a Preempt aimed at us must stop the engine");
    assert!(msg.contains("dexter") && msg.contains("5120"), "{msg}");

    let theirs = json(r#"{"Preempt": {"client": "vrdeep", "by": "dexter", "mib": 5120}}"#);
    assert!(stop_reason(&theirs, CLIENT).is_none(), "someone else's preemption is not ours");

    let unaddressed = json(r#"{"Preempt": {"by": "dexter"}}"#);
    assert!(stop_reason(&unaddressed, CLIENT).is_some());
}

fn refused(free_mib: u64) -> Reserved {
    Reserved {
        granted: false,
        free_mib: Some(free_mib),
        reserved_mib: None,
        ram_free_mib: None,
        ram_reserved_mib: None,
        expires_in_secs: None,
        reason: None,
        blockers: None,
    }
}

#[test]
fn a_refusal_names_the_free_vram_the_holders_and_the_way_out() {
    let r = Reserved {
        ram_free_mib: Some(4096),
        reason: Some("not enough free VRAM".into()),
        blockers: Some(vec![Blocker {
            client: None,
            process: Some("VrDeep".into()),
            pid: Some(4242),
            vram_mib: Some(10240),
            ram_mib: None,
            class: Some("batch".into()),
            evictable: Some(false),
        }]),
        ..refused(1800)
    };
    let m = refusal_message(12500, 6500, &r);
    assert!(m.contains("1800 MiB VRAM free"), "{m}");
    assert!(m.contains("VrDeep (pid 4242) 10240 MiB VRAM, batch"), "{m}");
    assert!(m.contains("not enough free VRAM"), "{m}");
    assert!(m.contains("say 'pause batch jobs' to Dexter or stop the holder"), "{m}");
}

#[test]
fn an_old_service_without_blockers_still_produces_a_usable_message() {
    let m = refusal_message(12500, 6500, &refused(900));
    assert!(m.contains("900 MiB VRAM free"), "{m}");
    assert!(m.contains("not reported by this Sentinel build"), "{m}");
    assert!(m.contains("say 'pause batch jobs'"), "{m}");
}

#[test]
fn a_v2_refusal_with_nobody_holding_a_booking_does_not_blame_the_build() {
    let r = Reserved {
        ram_free_mib: Some(17867),
        reason: Some("not enough VRAM: 7602 MiB requested but only 3786 MiB available".into()),
        blockers: Some(vec![]),
        ..refused(7786)
    };
    let m = refusal_message(7602, 12224, &r);
    assert!(!m.contains("not reported by this Sentinel build"), "{m}");
    assert!(m.contains("nobody"), "{m}");
    assert!(m.contains("7786 MiB VRAM free"), "{m}");
    assert!(m.contains("say 'pause batch jobs'"), "{m}");
}

fn client() -> Sentinel {
    Sentinel::with_pipe("pipe")
}

#[test]
fn absent_sentinel_means_go_ahead() {
    let d = decide(None);
    assert!(matches!(d, Decision::Absent));
    assert!(!is_acknowledged(None));
    let (g, text) = gate_engine_start(d, false, 12500, 6500).ok().expect("an absent guardian never blocks a start");
    assert!(g.absent);
    assert!(text.is_none());
}

#[test]
fn register_accepts_the_old_ok_reply() {
    assert!(is_acknowledged(Some(&json("\"Ok\""))));
    let req = client().register_command(4711);
    let body = req.get("Register").unwrap();
    assert_eq!(body.get_str("client"), Some("buzzcode"));
    assert_eq!(body.get("pid").unwrap().as_u64(), Some(4711));
    assert_eq!(body.get_str("class"), Some("batch"));
    assert_eq!(body.get("priority").unwrap().as_u64(), Some(30));
    assert_eq!(body.get_str("label"), Some("buzzcode engine"));
}

#[test]
fn register_accepts_the_v2_registered_reply() {
    assert!(is_acknowledged(Some(&json(r#"{"Registered": {"token": "abc123"}}"#))));
}

#[test]
fn register_rejects_anything_else() {
    assert!(!is_acknowledged(Some(&json(r#"{"Error": "NotOwner"}"#))));
}

#[test]
fn a_granted_reserve_carries_the_free_vram() {
    let reply = json(
        r#"{"Reserved": {"granted": true, "free_mib": 14000, "reserved_mib": 12500,
            "ram_free_mib": 20000, "expires_in_secs": 90, "reason": "ok"}}"#,
    );
    match decide(Some(&reply)) {
        Decision::Granted(r) => {
            assert_eq!(r.free_mib, Some(14000));
            assert_eq!(r.reserved_mib, Some(12500));
        }
        _ => panic!("expected Granted"),
    }
    let req = client().reserve_command(12500, 6500, None);
    let body = req.get("Reserve").unwrap();
    assert_eq!(body.get_str("client"), Some("buzzcode"));
    assert_eq!(body.get("mib").unwrap().as_u64(), Some(12500));
    assert_eq!(body.get("ram_mib").unwrap().as_u64(), Some(6500));
    assert!(body.get("for_pid").is_none(), "for_pid is omitted before the server exists");
}

#[test]
fn for_pid_is_sent_once_the_server_pid_is_known() {
    let req = client().reserve_command(12500, 6500, Some(9090));
    assert_eq!(req.get("Reserve").unwrap().get("for_pid").unwrap().as_u64(), Some(9090));
}

#[test]
fn a_refused_reserve_stops_the_gate_with_the_blockers_named() {
    let reply = json(
        r#"{"Reserved": {
            "granted": false, "free_mib": 1800, "ram_free_mib": 4096,
            "reason": "not enough free VRAM",
            "blockers": [{"process": "VrDeep", "pid": 4242, "vram_mib": 10240,
                          "class": "batch", "evictable": false}]
        }}"#,
    );
    match decide(Some(&reply)) {
        Decision::Refused(r) => {
            assert_eq!(r.free_mib, Some(1800));
            let blockers = r.blockers.expect("a v2 reply carries the key");
            assert_eq!(blockers.len(), 1);
            assert_eq!(blockers[0].process.as_deref(), Some("VrDeep"));
        }
        _ => panic!("expected Refused"),
    }
    let err = gate_engine_start(decide(Some(&reply)), false, 12500, 6500).err().expect("a refusal must stop the start");
    assert!(err.message.contains("VrDeep"), "{}", err.message);
    assert_eq!(err.free_mib, Some(1800));
}

#[test]
fn force_starts_the_engine_over_a_refusal() {
    let reply = json(r#"{"Reserved": {"granted": false, "free_mib": 100}}"#);
    let (grant, _) = gate_engine_start(decide(Some(&reply)), true, 12500, 6500).ok().expect("--force must win");
    assert!(!grant.absent, "the booking is still held, so Release is sent on drop");
}

#[test]
fn release_sends_the_client_name() {
    assert_eq!(client().release_command().get("Release").unwrap().get_str("client"), Some("buzzcode"));
}

#[test]
fn subscribe_streams_events_to_the_handler() {
    let lines = [
        "\"Subscribed\"",
        r#"{"Heartbeat": {"at": 1}}"#,
        r#"{"VramTight": {"level": "yellow", "free_mib": 3000}}"#,
        r#"{"VramTight": {"level": "red", "free_mib": 400}}"#,
    ];
    let reasons: Vec<String> = lines
        .iter()
        .filter_map(|l| read_line(l.as_bytes()).unwrap())
        .filter_map(|v| stop_reason(&v, CLIENT))
        .collect();
    assert_eq!(reasons.len(), 1);
    assert!(reasons[0].contains("400 MiB free"), "{}", reasons[0]);
    assert_eq!(client().subscribe_command().get("Subscribe").unwrap().get_str("client"), Some("buzzcode"));
}

#[test]
fn a_booking_is_given_back_once() {
    let mut g = Grant::held();
    assert!(g.release());
    assert!(!g.release());
    assert!(!Grant::absent().release());
    assert!(!Grant { released: false, absent: true }.release());
}

#[test]
fn lines_and_waits() {
    assert!(matches!(read_line(b"  \n"), Ok(None)));
    assert!(read_line(b"{nope").is_err());
    assert_eq!(next_backoff(1), 2);
    assert_eq!(next_backoff(16), 30);
    assert_eq!(next_backoff(30), 30);
    assert_eq!(backoff_after(true, 16), 1);
    assert_eq!(backoff_after(false, 16), 16);
    assert!(turned_off(Some("off")));
    assert!(!turned_off(Some("on")));
    assert!(!turned_off(None));
}

#[test]
fn a_record_can_be_an_array() {
    let r = pidfile::read(r#"[1,2,8089,"m.gguf","a","t"]"#).unwrap();
    assert_eq!((r.pid, r.server_pid, r.port, r.model.as_str()), (1, Some(2), 8089, "m.gguf"));
    assert_eq!(pidfile::read(r#"[1,null,8089,"m","a","t"]"#).unwrap().server_pid, None);
    assert!(pidfile::read(r#"[1,2,8089,"m","a"]"#).is_none(), "the time is missing");
    assert!(pidfile::read(r#"[1,2,8089,"m","a","t",7]"#).is_none(), "too long");
    assert!(pidfile::read("7").is_none());
}

#[test]
fn a_lock_that_was_left_behind_is_broken() {
    let second = 1_000_000_000;
    assert_eq!(lock_step(LockTry::NotYet, None, 0), LockStep::Try);
    assert_eq!(lock_step(LockTry::NotYet, None, 5 * second), LockStep::GoOn);
    assert_eq!(lock_step(LockTry::Taken, Some(0), 0), LockStep::Hold);
    assert_eq!(lock_step(LockTry::Exists, Some(60 * second), 0), LockStep::Break);
    assert_eq!(lock_step(LockTry::Exists, Some(5 * second), 0), LockStep::Wait);
    assert_eq!(lock_step(LockTry::Exists, None, 0), LockStep::Break);
    assert_eq!(lock_step(LockTry::Failed, Some(0), 0), LockStep::GoOn);
    assert_eq!(LOCK_RETRY_MS, 20);
}

#[test]
fn entries_of_others_survive_numbers_with_fractions() {
    let ledger = r#"{"a":{"port":1,"load":0.1234567890123456789},"b":{"port":2,"x":[-3,{"y":"z"}]},"c":{"port":3,"big":1.7976931348623157e308}}"#;
    let text = publish_at(ledger, APP, plain_record(8089));
    assert_eq!(["a", "b", "c", APP].map(|k| published_port(&text, k)), [Some(1), Some(2), Some(3), Some(8089)]);
    assert_eq!(entry_at(&text, "b").unwrap().to_text(), r#"{"port":2,"x":[-3,{"y":"z"}]}"#);
    let back = withdraw_at(&text, "a").unwrap();
    assert_eq!(["a", "b", "c", APP].map(|k| published_port(&back, k)), [None, Some(2), Some(3), Some(8089)]);
    assert_eq!(withdraw_at(&back, "a"), None);
    let deep = format!("{}{}", "{\"a\":".repeat(126), "[]".to_string() + &"}".repeat(126));
    assert_eq!(read_ledger(&publish_at(&deep, APP, plain_record(1))).len(), 2);
}
