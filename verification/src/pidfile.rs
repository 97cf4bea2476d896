//! The record of a serving engine: who is serving, on which port, with which model.

use crate::client::json_nat;
use crate::config::Engine;
use crate::json::{
    Json, JsonV, Number, exact, field, get_field, has_fields, is_record, keys_distinct, lemma_member_at,
    lemma_view, member, members, opt_view, parsed, plain, pretty_text, readable, text_value,
};
use crate::message::{object, opt_string};
use crate::pathname::{join_path, under};
use crate::stamp::{END_OF_TIME, format_seconds, rfc3339_seconds};
use crate::symbols::{trim_leading, without_leading};
use crate::text::{chars_of, contains, dec, dec_u64, holds, join, joined, string_of, strings};
use vstd::prelude::*;
use vstd::string::*;

verus! {

#[derive(Debug)]
pub struct EngineRecord {
    /// The process that is serving.
    pub pid: u32,
    /// The engine's own process, once it has been started.
    pub server_pid: Option<u32>,
    pub port: u16,
    /// The file name of the model.
    pub model: String,
    /// The name that the engine answers to.
    pub alias: String,
    /// When it started, in RFC 3339.
    pub started_at: String,
}

pub struct RecordV {
    pub pid: u32,
    pub server_pid: Option<u32>,
    pub port: u16,
    pub model: Seq<char>,
    pub alias: Seq<char>,
    pub started_at: Seq<char>,
}

impl View for EngineRecord {
    type V = RecordV;

    open spec fn view(&self) -> RecordV {
        RecordV {
            pid: self.pid,
            server_pid: self.server_pid,
            port: self.port,
            model: self.model@,
            alias: self.alias@,
            started_at: self.started_at@,
        }
    }
}

impl EngineRecord {
    /// The record of a process that started at a point in time.
    pub fn new(
        port: u16,
        model: &str,
        alias: &str,
        server_pid: Option<u32>,
        pid: u32,
        now: u64,
    ) -> (r: EngineRecord)
        requires
            now < END_OF_TIME,
        ensures
            r@ == (RecordV {
                pid,
                server_pid,
                port,
                model: model@,
                alias: alias@,
                started_at: rfc3339_seconds(now),
            }),
    {
        EngineRecord {
            pid,
            server_pid,
            port,
            model: model.to_owned(),
            alias: alias.to_owned(),
            started_at: format_seconds(now),
        }
    }
}

/// Where the record is.
pub fn path(user_dir: &str, windows: bool) -> (r: String)
    ensures
        r@ == under(user_dir@, "engine.json"@, windows),
{
    join_path(user_dir, "engine.json", windows)
}

/// The file that the record is written to before it is renamed.
pub fn temp_path(user_dir: &str, windows: bool) -> (r: String)
    ensures
        r@ == under(user_dir@, "engine.json.tmp"@, windows),
{
    join_path(user_dir, "engine.json.tmp", windows)
}

/// The directory that is there as long as a process is alive.
pub fn process_path(pid: u32) -> (r: String)
    ensures
        r@ == "/proc/"@ + dec(pid as nat),
{
    "/proc/".to_owned().concat(dec_u64(pid as u64).as_str())
}

/// Whether the list of tasks that Windows prints names a process.
pub fn is_listed(tasks: &str, pid: u32) -> (r: bool)
    ensures
        r == holds(tasks@, "\""@ + dec(pid as nat) + "\""@),
{
    let quoted = "\"".to_owned().concat(dec_u64(pid as u64).as_str()).concat("\"");
    contains(tasks, quoted.as_str())
}

// ---------------------------------------------------------------- the file

impl RecordV {
    /// What is written.
    pub open spec fn value(self) -> JsonV {
        JsonV::Object(
            seq![
                ("pid"@, json_nat(self.pid as u64)),
                (
                    "server_pid"@,
                    match self.server_pid {
                        Some(p) => json_nat(p as u64),
                        None => JsonV::Null,
                    },
                ),
                ("port"@, json_nat(self.port as u64)),
                ("model"@, JsonV::Str(self.model)),
                ("alias"@, JsonV::Str(self.alias)),
                ("started_at"@, JsonV::Str(self.started_at)),
            ],
        )
    }
}

/// A number that is at most `max`.
pub open spec fn number_in(v: Option<JsonV>, max: u64) -> Option<u64> {
    match v {
        Some(j) => match j.u64() {
            Some(n) => if n <= max {
                Some(n)
            } else {
                None
            },
            None => None,
        },
        None => None,
    }
}

/// A text, where it is one.
pub open spec fn text_in(v: Option<JsonV>) -> Option<Seq<char>> {
    match v {
        Some(j) => j.str(),
        None => None,
    }
}

/// The record that a document holds: all of it must be there but the engine's process. An
/// array gives the fields by their place.
pub open spec fn record_in_value(v: JsonV) -> Option<RecordV> {
    let pid = number_in(field(v, "pid"@, 0), u32::MAX as u64);
    let server_field = field(v, "server_pid"@, 1);
    let absent = match server_field {
        None => true,
        Some(j) => j == JsonV::Null,
    };
    let server = number_in(server_field, u32::MAX as u64);
    let port = number_in(field(v, "port"@, 2), u16::MAX as u64);
    let model = text_in(field(v, "model"@, 3));
    let alias = text_in(field(v, "alias"@, 4));
    let started_at = text_in(field(v, "started_at"@, 5));
    match (pid, port, model, alias, started_at) {
        (Some(pid), Some(port), Some(model), Some(alias), Some(started_at)) => if is_record(v, 6) && (absent
            || server is Some) {
            Some(
                RecordV {
                    pid: pid as u32,
                    server_pid: if absent {
                        None
                    } else {
                        Some(server->Some_0 as u32)
                    },
                    port: port as u16,
                    model,
                    alias,
                    started_at,
                },
            )
        } else {
            None
        },
        _ => None,
    }
}

/// The record that a text holds; marks of the byte order before it do not count.
pub open spec fn record_in(text: Seq<char>) -> Option<RecordV> {
    match parsed(without_leading(text, '\u{feff}')) {
        Ok(v) => record_in_value(v),
        Err(_) => None,
    }
}

fn read_number(v: Option<&Json>, max: u64) -> (r: Option<u64>)
    ensures
        r == number_in(opt_view(v), max),
{
    match v {
        Some(j) => match j.as_u64() {
            Some(n) => if n <= max {
                Some(n)
            } else {
                None
            },
            None => None,
        },
        None => None,
    }
}

fn read_text(v: Option<&Json>) -> (r: Option<String>)
    ensures
        opt_string(r) == text_in(opt_view(v)),
{
    match v {
        Some(j) => match j.as_str() {
            Some(t) => Some(t.to_owned()),
            None => None,
        },
        None => None,
    }
}

/// Reads a record; none where the text holds none.
pub fn read(text: &str) -> (r: Option<EngineRecord>)
    ensures
        match r {
            Some(e) => record_in(text@) == Some(e@),
            None => record_in(text@) is None,
        },
{
    let body = string_of(&trim_leading(&chars_of(text), '\u{feff}'));
    let v = match Json::parse(body.as_str()) {
        Ok(v) => v,
        Err(_) => {
            return None;
        },
    };
    if !has_fields(&v, 6) {
        return None;
    }
    let server_field = get_field(&v, "server_pid", 1);
    let absent = match server_field {
        None => true,
        Some(j) => match j {
            Json::Null => true,
            _ => {
                proof {
                    lemma_view(*j);
                }
                false
            },
        },
    };
    let server = read_number(server_field, u32::MAX as u64);
    if !absent && server.is_none() {
        return None;
    }
    let server_pid = if absent {
        None
    } else {
        match server {
            Some(n) => Some(n as u32),
            None => None,
        }
    };
    match (
        read_number(get_field(&v, "pid", 0), u32::MAX as u64),
        read_number(get_field(&v, "port", 2), u16::MAX as u64),
        read_text(get_field(&v, "model", 3)),
        read_text(get_field(&v, "alias", 4)),
        read_text(get_field(&v, "started_at", 5)),
    ) {
        (Some(pid), Some(port), Some(model), Some(alias), Some(started_at)) => Some(
            EngineRecord {
                pid: pid as u32,
                server_pid,
                port: port as u16,
                model,
                alias,
                started_at,
            },
        ),
        _ => None,
    }
}

proof fn lemma_value_reads_back(r: RecordV)
    ensures
        record_in_value(r.value()) == Some(r),
        plain(r.value()),
{
    reveal_strlit("pid");
    reveal_strlit("server_pid");
    reveal_strlit("port");
    reveal_strlit("model");
    reveal_strlit("alias");
    reveal_strlit("started_at");
    let m = r.value()->Object_0;
    assert("model"@[0] != "alias"@[0]);
    lemma_members_distinct(m);
    assert forall|i: int| 0 <= i < 6 implies member(m, (#[trigger] m[i]).0) == Some(m[i].1) by {
        lemma_member_at(m, m[i].0, i);
    }
    assert(member(m, m[0].0) == Some(m[0].1));
    assert(member(m, m[1].0) == Some(m[1].1));
    assert(member(m, m[2].0) == Some(m[2].1));
    assert(member(m, m[3].0) == Some(m[3].1));
    assert(member(m, m[4].0) == Some(m[4].1));
    assert(member(m, m[5].0) == Some(m[5].1));
    reveal_with_fuel(readable, 2);
    reveal_with_fuel(exact, 2);
}

proof fn lemma_members_distinct(m: Seq<(Seq<char>, JsonV)>)
    requires
        m.len() == 6,
        m[0].0.len() == 3,
        m[1].0.len() == 10,
        m[1].0[1] == 'e',
        m[2].0.len() == 4,
        m[3].0.len() == 5,
        m[4].0.len() == 5,
        m[3].0[0] != m[4].0[0],
        m[5].0.len() == 10,
        m[5].0[1] == 't',
    ensures
        keys_distinct(m),
{
}

/// Writes a record. Reading what is written gives it back.
pub fn write(rec: &EngineRecord) -> (r: String)
    ensures
        r@ == pretty_text(rec@.value()),
        record_in(r@) == Some(rec@),
{
    let server = match rec.server_pid {
        Some(p) => Json::Number(Number::PosInt(p as u64)),
        None => Json::Null,
    };
    let m = vec![
        ("pid".to_owned(), Json::Number(Number::PosInt(rec.pid as u64))),
        ("server_pid".to_owned(), server),
        ("port".to_owned(), Json::Number(Number::PosInt(rec.port as u64))),
        ("model".to_owned(), text_value(rec.model.as_str())),
        ("alias".to_owned(), text_value(rec.alias.as_str())),
        ("started_at".to_owned(), text_value(rec.started_at.as_str())),
    ];
    assert(members(m@) =~= rec@.value()->Object_0);
    let v = object(m);
    let text = v.to_pretty_text();
    proof {
        lemma_value_reads_back(rec@);
        assert(without_leading(text@, '\u{feff}') == text@);
    }
    text
}

// ---------------------------------------------------------------- who is serving

/// Where the engine is: as its record says, else as the shared ledger says, else as it is
/// configured.
pub fn live_base_url(engine: &Engine, recorded: Option<u16>, published: Option<u16>) -> (r: String)
    ensures
        r@ == (match recorded {
            Some(p) => "http://"@ + engine.host@ + ":"@ + dec(p as nat),
            None => match published {
                Some(p) => "http://"@ + engine.host@ + ":"@ + dec(p as nat),
                None => engine@.base_url(),
            },
        }),
{
    let port = match recorded {
        Some(p) => Some(p),
        None => published,
    };
    match port {
        Some(p) => "http://".to_owned().concat(engine.host.as_str()).concat(":").concat(
            dec_u64(p as u64).as_str(),
        ),
        None => engine.base_url(),
    }
}

/// A process that is to be ended, and what it is called.
#[derive(Debug)]
pub struct StopTarget {
    pub pid: u32,
    pub label: String,
}

pub open spec fn target_views(v: Seq<StopTarget>) -> Seq<(u32, Seq<char>)> {
    Seq::new(v.len(), |i: int| (v[i].pid, v[i].label@))
}

/// The processes that a record names: the engine first, so that it is not left behind, then
/// the process that is serving, unless that is this one.
pub open spec fn targets_of(r: RecordV, own_pid: u32) -> Seq<(u32, Seq<char>)> {
    (match r.server_pid {
        Some(p) => seq![(p, "llama-server (pid "@ + dec(p as nat) + ")"@)],
        None => Seq::empty(),
    }) + (if r.pid != own_pid {
        seq![(r.pid, "buzzcode engine serve (pid "@ + dec(r.pid as nat) + ")"@)]
    } else {
        Seq::empty()
    })
}

pub fn stop_targets(rec: &EngineRecord, own_pid: u32) -> (r: Vec<StopTarget>)
    ensures
        target_views(r@) == targets_of(rec@, own_pid),
{
    let mut out: Vec<StopTarget> = Vec::new();
    if let Some(p) = rec.server_pid {
        let label = "llama-server (pid ".to_owned().concat(dec_u64(p as u64).as_str()).concat(")");
        out.push(StopTarget { pid: p, label });
    }
    let ghost first = target_views(out@);
    if rec.pid != own_pid {
        let label = "buzzcode engine serve (pid ".to_owned().concat(dec_u64(rec.pid as u64).as_str()).concat(")");
        out.push(StopTarget { pid: rec.pid, label });
    }
    assert(target_views(out@) =~= targets_of(rec@, own_pid));
    out
}

/// What is said after stopping: what was ended, or that nothing was running.
pub fn stop_message(rec: &EngineRecord, killed: &Vec<String>) -> (r: Result<String, String>)
    ensures
        match r {
            Ok(m) => killed@.len() > 0 && m@ == "stopped "@ + joined(strings(killed@), " and "@),
            Err(m) => killed@.len() == 0 && m@ == "engine.json named pid "@ + dec(rec.pid as nat) + " (server "@ + (
            match rec.server_pid {
                Some(p) => dec(p as nat),
                None => "-"@,
            }) + "), but neither is running — removed the stale record"@,
        },
{
    if killed.len() > 0 {
        return Ok("stopped ".to_owned().concat(join(killed, " and ").as_str()));
    }
    let server = match rec.server_pid {
        Some(p) => dec_u64(p as u64),
        None => "-".to_owned(),
    };
    Err(
        "engine.json named pid ".to_owned().concat(dec_u64(rec.pid as u64).as_str()).concat(" (server ").concat(
            server.as_str(),
        ).concat("), but neither is running — removed the stale record"),
    )
}

/// What is said of a process.
pub open spec fn running_word(running: bool, gone: Seq<char>) -> Seq<char> {
    if running {
        "running"@
    } else {
        gone
    }
}

/// What is shown of the record of an engine, and whether its processes still run.
pub open spec fn shown_record(path: Seq<char>, r: RecordV, serving: bool, server_alive: bool) -> Seq<Seq<char>> {
    seq![
        "engine.json : "@ + path,
        "  pid       : "@ + dec(r.pid as nat) + " ("@ + running_word(serving, "GONE — stale record"@) + ")"@,
        match r.server_pid {
            Some(p) => "  server_pid: "@ + dec(p as nat) + " ("@ + running_word(server_alive, "GONE"@) + ")"@,
            None => "  server_pid: -"@,
        },
        "  port      : "@ + dec(r.port as nat),
        "  model     : "@ + r.model,
        "  alias     : "@ + r.alias,
        "  started   : "@ + r.started_at,
    ] + if serving || server_alive {
        Seq::empty()
    } else {
        seq!["  → `buzzcode engine stop` clears the stale record."@]
    }
}

/// The lines on the record of an engine.
pub fn status_lines(path: &str, rec: Option<&EngineRecord>, serving: bool, server_alive: bool) -> (r: Vec<String>)
    ensures
        strings(r@) == (match rec {
            Some(e) => shown_record(path@, e@, serving, server_alive),
            None => seq!["engine.json : none at "@ + path@],
        }),
{
    match rec {
        None => {
            let out = vec!["engine.json : none at ".to_owned().concat(path)];
            assert(strings(out@) =~= seq!["engine.json : none at "@ + path@]);
            out
        },
        Some(e) => {
            let pid_word = if serving {
                "running"
            } else {
                "GONE — stale record"
            };
            let server_word = if server_alive {
                "running"
            } else {
                "GONE"
            };
            let server = match e.server_pid {
                Some(p) => "  server_pid: ".to_owned().concat(dec_u64(p as u64).as_str()).concat(" (").concat(
                    server_word,
                ).concat(")"),
                None => "  server_pid: -".to_owned(),
            };
            let mut out = vec![
                "engine.json : ".to_owned().concat(path),
                "  pid       : ".to_owned().concat(dec_u64(e.pid as u64).as_str()).concat(" (").concat(pid_word).concat(
                    ")",
                ),
                server,
                "  port      : ".to_owned().concat(dec_u64(e.port as u64).as_str()),
                "  model     : ".to_owned().concat(e.model.as_str()),
                "  alias     : ".to_owned().concat(e.alias.as_str()),
                "  started   : ".to_owned().concat(e.started_at.as_str()),
            ];
            if !serving && !server_alive {
                out.push("  → `buzzcode engine stop` clears the stale record.".to_owned());
            }
            assert(strings(out@) =~= shown_record(path@, e@, serving, server_alive));
            out
        },
    }
}

/// The engine is always ended before the process that watches over it.
pub proof fn law_engine_is_stopped_first(r: RecordV, own_pid: u32)
    ensures
        r.server_pid matches Some(p) ==> targets_of(r, own_pid).len() > 0 && targets_of(r, own_pid)[0].0 == p,
{
}

} // verus!
