//! The shared port ledger: which application listens where.
//!
//! A configured port is a wish. Where it is taken, the next free one is used, and
//! nobody is evicted. Once the engine answers, its entry is written into the ledger;
//! it is removed on a clean stop. The entries of other applications are left alone.

use crate::json::{
    Json, JsonV, LEVELS, Number, NumberV, comes_back_as, exact, find_member, keys_distinct,
    lemma_exact_comes_back, lemma_member_at, lemma_view, member, member_index, members, opt_str,
    parsed, pretty_text, readable, text_value,
};
use crate::message::{object, opt_string, push_member};
use crate::parser::{set_member, with_member};
use crate::pathname::{join_path, under};
use crate::stamp::{END_OF_TIME, format_seconds, rfc3339_seconds};
use crate::text::{
    begins, chars_of, dec, dec_u64, string_of, strip_prefixes, trim_str, trimmed, without_prefixes,
};
use vstd::prelude::*;
use vstd::string::*;

verus! {

/// The name under which the engine is published.
pub const APP: &'static str = "buzzcode";

/// How far past the preferred port is looked before the system is asked for one.
pub const SPAN: u16 = 20;

/// A text that is there and is not blank, without white space around it.
pub open spec fn given(s: Option<Seq<char>>) -> Option<Seq<char>> {
    match s {
        Some(t) => if trimmed(t).len() > 0 {
            Some(trimmed(t))
        } else {
            None
        },
        None => None,
    }
}

fn given_text(s: Option<&str>) -> (r: Option<String>)
    ensures
        opt_string(r) == given(opt_str(s)),
{
    match s {
        Some(t) => {
            let u = trim_str(t);
            if u.as_str().is_empty() {
                None
            } else {
                Some(u)
            }
        },
        None => None,
    }
}

/// Where the ledger is: where the environment says, else under the local data
/// directory, else under the home directory.
pub open spec fn ledger_of(
    env: Option<Seq<char>>,
    local: Option<Seq<char>>,
    home: Option<Seq<char>>,
    win: bool,
) -> Seq<char> {
    match given(env) {
        Some(p) => p,
        None => {
            let base = match given(local) {
                Some(d) => d,
                None => under(
                    under(
                        match home {
                            Some(h) => h,
                            None => "."@,
                        },
                        ".local"@,
                        win,
                    ),
                    "share"@,
                    win,
                ),
            };
            under(under(base, "Buzzcaf"@, win), "ports.json"@, win)
        },
    }
}

pub fn resolve_ledger(
    from_env: Option<&str>,
    local_appdata: Option<&str>,
    home: Option<&str>,
    windows: bool,
) -> (r: String)
    ensures
        r@ == ledger_of(opt_str(from_env), opt_str(local_appdata), opt_str(home), windows),
{
    if let Some(p) = given_text(from_env) {
        return p;
    }
    let base = match given_text(local_appdata) {
        Some(d) => d,
        None => {
            let h = match home {
                Some(h) => h,
                None => ".",
            };
            join_path(join_path(h, ".local", windows).as_str(), "share", windows)
        },
    };
    join_path(join_path(base.as_str(), "Buzzcaf", windows).as_str(), "ports.json", windows)
}

/// The file that locks the ledger.
pub fn lock_path(ledger: &str) -> (r: String)
    ensures
        r@ == ledger@ + ".lock"@,
{
    ledger.to_owned().concat(".lock")
}

/// For how long the lock is asked for: five seconds.
pub const LOCK_TIMEOUT_NS: u128 = 5_000_000_000;

/// The age from which on a lock was left behind: five seconds.
pub const LOCK_STALE_NS: u128 = 5_000_000_000;

/// How long is waited before the lock is asked for again.
pub const LOCK_RETRY_MS: u64 = 20;

/// What came of asking for the lock.
#[derive(Debug, Clone, Copy, PartialEq, Eq, Structural)]
pub enum LockTry {
    /// It is not asked for yet, or it is about to be asked for again.
    NotYet,
    Taken,
    /// Someone else has it.
    Exists,
    Failed,
}

#[derive(Debug, Clone, Copy, PartialEq, Eq, Structural)]
pub enum LockStep {
    Try,
    Hold,
    /// Remove it, then wait and ask again.
    Break,
    /// Wait and ask again.
    Wait,
    /// Go on without it.
    GoOn,
}

/// What is done about the lock, given what came of asking for it, how old it is where that
/// is known, and how long it was waited for. One that was left behind is broken, and nobody
/// waits for it for good.
pub open spec fn lock_after(tried: LockTry, age_ns: Option<u128>, waited_ns: u128) -> LockStep {
    match tried {
        LockTry::NotYet => if waited_ns < LOCK_TIMEOUT_NS {
            LockStep::Try
        } else {
            LockStep::GoOn
        },
        LockTry::Taken => LockStep::Hold,
        LockTry::Exists => match age_ns {
            Some(a) => if a > LOCK_STALE_NS {
                LockStep::Break
            } else {
                LockStep::Wait
            },
            None => LockStep::Break,
        },
        LockTry::Failed => LockStep::GoOn,
    }
}

pub fn lock_step(tried: LockTry, age_ns: Option<u128>, waited_ns: u128) -> (r: LockStep)
    ensures
        r == lock_after(tried, age_ns, waited_ns),
{
    match tried {
        LockTry::NotYet => if waited_ns < LOCK_TIMEOUT_NS {
            LockStep::Try
        } else {
            LockStep::GoOn
        },
        LockTry::Taken => LockStep::Hold,
        LockTry::Exists => match age_ns {
            Some(a) => if a > LOCK_STALE_NS {
                LockStep::Break
            } else {
                LockStep::Wait
            },
            None => LockStep::Break,
        },
        LockTry::Failed => LockStep::GoOn,
    }
}

// ---------------------------------------------------------------- choosing a port

/// The search for a port: try one, or ask the system.
#[derive(Debug, Clone, Copy, PartialEq, Eq, Structural)]
pub enum PortStep {
    Try(u16),
    AskSystem,
}

/// The last port that is tried.
pub open spec fn last_port(preferred: u16, span: u16) -> u16 {
    if preferred + span > u16::MAX {
        u16::MAX
    } else {
        (preferred + span) as u16
    }
}

/// The first step: the preferred port, unless it is zero.
pub fn first_port(preferred: u16) -> (r: PortStep)
    ensures
        r == (if preferred > 0 {
            PortStep::Try(preferred)
        } else {
            PortStep::AskSystem
        }),
{
    if preferred > 0 {
        PortStep::Try(preferred)
    } else {
        PortStep::AskSystem
    }
}

/// The step after a port was found taken: the next one of the window, or the system.
pub open spec fn after_taken(port: u16, preferred: u16, span: u16) -> PortStep {
    if port < last_port(preferred, span) {
        PortStep::Try((port + 1) as u16)
    } else {
        PortStep::AskSystem
    }
}

pub fn next_port(port: u16, preferred: u16, span: u16) -> (r: PortStep)
    ensures
        r == after_taken(port, preferred, span),
{
    let last: u16 = preferred.saturating_add(span);
    if port < last {
        PortStep::Try(port + 1)
    } else {
        PortStep::AskSystem
    }
}

/// The port that is used when the system was asked: its answer, or the preferred one
/// where it had none.
pub fn system_port(answer: Option<u16>, preferred: u16) -> (r: u16)
    ensures
        r == (match answer {
            Some(p) => p,
            None => preferred,
        }),
{
    match answer {
        Some(p) => p,
        None => preferred,
    }
}

/// The port that the search ends with when `free` tells which ports can be bound:
/// the first free one of the window; none where the system must be asked.
pub open spec fn found_port(preferred: u16, span: u16, free: spec_fn(u16) -> bool, port: u16) -> Option<u16>
    decreases last_port(preferred, span) + 1 - port,
{
    if free(port) {
        Some(port)
    } else {
        match after_taken(port, preferred, span) {
            PortStep::Try(q) => found_port(preferred, span, free, q),
            PortStep::AskSystem => None,
        }
    }
}

/// A port that somebody holds is never taken, and the free port that is taken is the
/// first of the window that is free. Where none is found, none of the window is.
pub proof fn law_first_free_port(preferred: u16, span: u16, free: spec_fn(u16) -> bool, port: u16)
    requires
        preferred <= port <= last_port(preferred, span),
    ensures
        match found_port(preferred, span, free, port) {
            Some(p) => {
                &&& port <= p <= last_port(preferred, span)
                &&& free(p)
                &&& forall|q: u16| port <= q < p ==> !#[trigger] free(q)
            },
            None => forall|q: u16| port <= q <= last_port(preferred, span) ==> !#[trigger] free(q),
        },
    decreases last_port(preferred, span) + 1 - port,
{
    if !free(port) && port < last_port(preferred, span) {
        law_first_free_port(preferred, span, free, (port + 1) as u16);
    }
}

// ---------------------------------------------------------------- the ledger

/// A text without byte order marks at its beginning.
pub open spec fn without_bom(s: Seq<char>) -> Seq<char> {
    without_prefixes(s, "\u{feff}"@)
}

/// The entries of a ledger by its text. One that is empty or damaged has none.
pub open spec fn entries(text: Seq<char>) -> Seq<(Seq<char>, JsonV)> {
    match parsed(without_bom(text)) {
        Ok(JsonV::Object(m)) => m,
        _ => Seq::empty(),
    }
}

/// Reads a ledger. Each key is in it once.
pub fn read_ledger(text: &str) -> (r: Vec<(String, Json)>)
    ensures
        members(r@) == entries(text@),
        readable(JsonV::Object(entries(text@)), LEVELS as nat),
{
    let t = string_of(&strip_prefixes(&chars_of(text), "\u{feff}"));
    match Json::parse(t.as_str()) {
        Ok(j) => {
            proof {
                lemma_view(j);
            }
            match j {
                Json::Object(m) => m,
                _ => {
                    let v: Vec<(String, Json)> = Vec::new();
                    assert(members(v@) =~= Seq::empty());
                    v
                },
            }
        },
        Err(_) => {
            let v: Vec<(String, Json)> = Vec::new();
            assert(members(v@) =~= Seq::empty());
            v
        },
    }
}

/// The entry of an application; what is no object is none.
pub open spec fn entry_of(m: Seq<(Seq<char>, JsonV)>, app: Seq<char>) -> Option<JsonV> {
    match member(m, app) {
        Some(JsonV::Object(o)) => Some(JsonV::Object(o)),
        _ => None,
    }
}

/// The entry of an application in a ledger.
pub fn entry_at(text: &str, app: &str) -> (r: Option<Json>)
    ensures
        match r {
            Some(j) => entry_of(entries(text@), app@) == Some(j@),
            None => entry_of(entries(text@), app@) is None,
        },
{
    let m = read_ledger(text);
    match find_member(&m, app) {
        Some(k) => {
            proof {
                lemma_view(m@[k as int].1);
            }
            match &m[k].1 {
                Json::Object(_) => Some(m[k].1.copy()),
                _ => None,
            }
        },
        None => None,
    }
}

/// The port that an entry states, where it is one.
pub open spec fn port_of(e: Option<JsonV>) -> Option<u16> {
    match e {
        Some(o) => match o.get("port"@) {
            Some(v) => match v.u64() {
                Some(n) => if n <= u16::MAX {
                    Some(n as u16)
                } else {
                    None
                },
                None => None,
            },
            None => None,
        },
        None => None,
    }
}

/// The port that an application published in a ledger.
pub fn published_port(text: &str, app: &str) -> (r: Option<u16>)
    ensures
        r == port_of(entry_of(entries(text@), app@)),
{
    match entry_at(text, app) {
        Some(e) => match e.get("port") {
            Some(v) => match v.as_u64() {
                Some(n) => if n <= 65535 {
                    Some(n as u16)
                } else {
                    None
                },
                None => None,
            },
            None => None,
        },
        None => None,
    }
}

/// A whole number.
pub fn json_u64(n: u64) -> (r: Json)
    ensures
        r@ == JsonV::Number(NumberV::PosInt(n)),
{
    Json::Number(Number::PosInt(n))
}

/// An entry of the ledger: its port, the process, when it started, where its health
/// is asked for, and what else there is to say.
pub open spec fn entry_value(
    port: u16,
    pid: u32,
    started_at: Seq<char>,
    health: Seq<char>,
    extra: Seq<(Seq<char>, JsonV)>,
) -> JsonV {
    JsonV::Object(
        seq![
            ("port"@, JsonV::Number(NumberV::PosInt(port as u64))),
            ("pid"@, JsonV::Number(NumberV::PosInt(pid as u64))),
            ("started_at"@, JsonV::Str(started_at)),
            ("health"@, JsonV::Str(health)),
            ("extra"@, JsonV::Object(extra)),
        ],
    )
}

/// An entry can be read where what else there is to say can be.
proof fn lemma_entry_readable(
    port: u16,
    pid: u32,
    started_at: Seq<char>,
    health: Seq<char>,
    extra: Seq<(Seq<char>, JsonV)>,
    depth: nat,
)
    ensures
        readable(JsonV::Object(extra), depth) ==> readable(
            entry_value(port, pid, started_at, health, extra),
            depth + 1,
        ),
{
    reveal_strlit("port");
    reveal_strlit("pid");
    reveal_strlit("started_at");
    reveal_strlit("health");
    reveal_strlit("extra");
    let m = entry_value(port, pid, started_at, health, extra)->Object_0;
    assert(m[0].0.len() == 4 && m[1].0.len() == 3 && m[2].0.len() == 10 && m[3].0.len() == 6 && m[4].0.len() == 5);
    reveal_with_fuel(readable, 2);
    if readable(JsonV::Object(extra), depth) {
        assert forall|i: int| 0 <= i < m.len() implies readable((#[trigger] m[i]).1, depth) by {
            assert(m[4].1 == JsonV::Object(extra));
        }
    }
}

/// The entry of a process that started at a point in time.
pub fn record(port: u16, pid: u32, now: u64, health: &str, extra: Vec<(String, Json)>) -> (r: Json)
    requires
        now < END_OF_TIME,
    ensures
        r@ == entry_value(port, pid, rfc3339_seconds(now), health@, members(extra@)),
        readable(JsonV::Object(members(extra@)), (LEVELS - 2) as nat) ==> readable(r@, (LEVELS - 1) as nat),
{
    let ghost ev = members(extra@);
    proof {
        lemma_entry_readable(port, pid, rfc3339_seconds(now), health@, ev, (LEVELS - 2) as nat);
    }
    let started_at = format_seconds(now);
    let mut m: Vec<(String, Json)> = Vec::new();
    push_member(&mut m, "port", json_u64(port as u64));
    push_member(&mut m, "pid", json_u64(pid as u64));
    push_member(&mut m, "started_at", text_value(started_at.as_str()));
    push_member(&mut m, "health", text_value(health));
    push_member(&mut m, "extra", object(extra));
    assert(members(m@) =~= entry_value(port, pid, started_at@, health@, ev)->Object_0);
    object(m)
}

/// The text of a ledger with the given entries.
pub open spec fn ledger_text(m: Seq<(Seq<char>, JsonV)>) -> Seq<char> {
    pretty_text(JsonV::Object(m)) + "\n"@
}

fn write_ledger(m: Vec<(String, Json)>) -> (r: String)
    ensures
        r@ == ledger_text(members(m@)),
        readable(JsonV::Object(members(m@)), LEVELS as nat) ==> comes_back_as(
            JsonV::Object(members(m@)),
            JsonV::Object(entries(r@)),
        ),
{
    let ghost mv = members(m@);
    let j = object(m);
    let t = j.to_pretty_text().concat("\n");
    proof {
        reveal_strlit("\u{feff}");
        assert(!begins(t@, "\u{feff}"@)) by {
            assert(t@[0] == '{');
            if begins(t@, "\u{feff}"@) {
                assert(t@.subrange(0, 1)[0] == "\u{feff}"@[0]);
            }
        }
        assert(without_bom(t@) == t@);
    }
    t
}

/// What is read in place of an entry: the same, but for floating-point numbers in it.
pub open spec fn survives(before: Option<JsonV>, after: Option<JsonV>) -> bool {
    match (before, after) {
        (Some(a), Some(b)) => comes_back_as(a, b) && (exact(a) ==> a == b),
        (None, None) => true,
        _ => false,
    }
}

/// The entries of all other applications survive, and so do their ports.
pub open spec fn others_survive(
    before: Seq<(Seq<char>, JsonV)>,
    after: Seq<(Seq<char>, JsonV)>,
    app: Seq<char>,
) -> bool {
    forall|other: Seq<char>|
        other != app ==> survives(#[trigger] member(before, other), member(after, other)) && port_of(
            entry_of(before, other),
        ) == port_of(entry_of(after, other))
}

/// The text of a ledger after an application published its entry. Where the entry can be
/// read, reading the text gives it, and those of all other applications.
pub fn publish_at(text: &str, app: &str, entry: Json) -> (r: String)
    ensures
        r@ == ledger_text(with_member(entries(text@), app@, entry@)),
        readable(entry@, (LEVELS - 1) as nat) ==> {
            &&& comes_back_as(
                JsonV::Object(with_member(entries(text@), app@, entry@)),
                JsonV::Object(entries(r@)),
            )
            &&& survives(Some(entry@), member(entries(r@), app@))
            &&& others_survive(entries(text@), entries(r@), app@)
        },
{
    let mut m = read_ledger(text);
    let ghost before = members(m@);
    let ghost ev = entry@;
    set_member(&mut m, app, entry);
    let ghost after = members(m@);
    let r = write_ledger(m);
    proof {
        if readable(ev, (LEVELS - 1) as nat) {
            lemma_with_member_readable(before, app@, ev, LEVELS as nat);
            lemma_all_survive(after, entries(r@));
            law_publish_touches_own_entry_only(before, app@, ev, app@);
            assert(survives(member(after, app@), member(entries(r@), app@)));
            assert forall|other: Seq<char>| other != app@ implies survives(
                #[trigger] member(before, other),
                member(entries(r@), other),
            ) && port_of(entry_of(before, other)) == port_of(entry_of(entries(r@), other)) by {
                law_publish_touches_own_entry_only(before, app@, ev, other);
                assert(survives(member(after, other), member(entries(r@), other)));
                lemma_port_survives(after, entries(r@), other);
            }
        }
    }
    r
}

/// Members that come back one by one are found under their keys.
proof fn lemma_survives(m: Seq<(Seq<char>, JsonV)>, o: Seq<(Seq<char>, JsonV)>, key: Seq<char>)
    requires
        comes_back_as(JsonV::Object(m), JsonV::Object(o)),
    ensures
        survives(member(m, key), member(o, key)),
    decreases m.len(),
{
    if m.len() > 0 {
        assert(o[0].0 == m[0].0 && comes_back_as(m[0].1, o[0].1));
        if m[0].0 == key {
            if exact(m[0].1) {
                lemma_exact_comes_back(m[0].1, o[0].1);
            }
        } else {
            let (x, y) = (m.drop_first(), o.drop_first());
            assert forall|i: int| 0 <= i < x.len() implies y[i].0 == (#[trigger] x[i]).0 && comes_back_as(
                x[i].1,
                y[i].1,
            ) by {
                assert(x[i] == m[i + 1] && y[i] == o[i + 1]);
            }
            lemma_survives(x, y, key);
        }
    }
}

proof fn lemma_all_survive(m: Seq<(Seq<char>, JsonV)>, o: Seq<(Seq<char>, JsonV)>)
    requires
        comes_back_as(JsonV::Object(m), JsonV::Object(o)),
    ensures
        forall|key: Seq<char>| survives(#[trigger] member(m, key), member(o, key)),
{
    assert forall|key: Seq<char>| survives(#[trigger] member(m, key), member(o, key)) by {
        lemma_survives(m, o, key);
    }
}

proof fn lemma_port_survives(m: Seq<(Seq<char>, JsonV)>, o: Seq<(Seq<char>, JsonV)>, app: Seq<char>)
    requires
        survives(member(m, app), member(o, app)),
    ensures
        port_of(entry_of(m, app)) == port_of(entry_of(o, app)),
{
    if let Some(JsonV::Object(a)) = member(m, app) {
        let b = member(o, app)->Some_0->Object_0;
        lemma_survives(a, b, "port"@);
    }
}

proof fn lemma_with_member_readable(m: Seq<(Seq<char>, JsonV)>, key: Seq<char>, v: JsonV, depth: nat)
    requires
        depth > 0,
        readable(JsonV::Object(m), depth),
        readable(v, (depth - 1) as nat),
    ensures
        readable(JsonV::Object(with_member(m, key, v)), depth),
{
    let n = with_member(m, key, v);
    assert(m.skip(0) =~= m);
    lemma_member_index(m, key, 0);
    assert forall|i: int| 0 <= i < n.len() implies readable((#[trigger] n[i]).1, (depth - 1) as nat) by {
        if i < m.len() {
            assert(readable(m[i].1, (depth - 1) as nat));
        }
    }
    assert forall|i: int, j: int| 0 <= i < j < n.len() implies (#[trigger] n[i]).0 != (#[trigger] n[j]).0 by {
        if j < m.len() {
            assert(m[i].0 != m[j].0);
        } else {
            assert(m[i].0 != key);
        }
    }
}

/// The entries without that of a key: the last one takes its place.
pub open spec fn without_member(m: Seq<(Seq<char>, JsonV)>, key: Seq<char>) -> Seq<(Seq<char>, JsonV)> {
    match member_index(m, key, 0) {
        Some(k) => if k == m.len() - 1 {
            m.drop_last()
        } else {
            m.update(k, m.last()).drop_last()
        },
        None => m,
    }
}

/// The text of a ledger once an application has no entry in it: as it was where it had none.
pub open spec fn withdrawn_text(text: Seq<char>, app: Seq<char>) -> Seq<char> {
    if member(entries(text), app) is Some {
        ledger_text(without_member(entries(text), app))
    } else {
        text
    }
}

/// The text of a ledger after an application withdrew its entry; none where it had
/// none and nothing is to be written. Reading the text gives the entries of all other
/// applications and none of this one, so that withdrawing again changes nothing.
pub fn withdraw_at(text: &str, app: &str) -> (r: Option<String>)
    ensures
        match r {
            Some(t) => {
                &&& member(entries(text@), app@) is Some
                &&& t@ == withdrawn_text(text@, app@)
                &&& comes_back_as(
                    JsonV::Object(without_member(entries(text@), app@)),
                    JsonV::Object(entries(t@)),
                )
                &&& member(entries(t@), app@) is None
                &&& others_survive(entries(text@), entries(t@), app@)
                &&& withdrawn_text(t@, app@) == t@
            },
            None => member(entries(text@), app@) is None && withdrawn_text(text@, app@) == text@,
        },
{
    let mut m = read_ledger(text);
    let ghost before = members(m@);
    match find_member(&m, app) {
        Some(k) => {
            m.swap_remove(k);
            let ghost after = members(m@);
            assert(after =~= without_member(before, app@));
            let t = write_ledger(m);
            proof {
                lemma_without_member_readable(before, app@, LEVELS as nat);
                lemma_all_survive(after, entries(t@));
                law_withdraw_touches_own_entry_only(before, app@, app@);
                assert(survives(member(after, app@), member(entries(t@), app@)));
                assert forall|other: Seq<char>| other != app@ implies survives(
                    #[trigger] member(before, other),
                    member(entries(t@), other),
                ) && port_of(entry_of(before, other)) == port_of(entry_of(entries(t@), other)) by {
                    law_withdraw_touches_own_entry_only(before, app@, other);
                    assert(survives(member(after, other), member(entries(t@), other)));
                    lemma_port_survives(after, entries(t@), other);
                }
            }
            Some(t)
        },
        None => None,
    }
}

proof fn lemma_without_member_readable(m: Seq<(Seq<char>, JsonV)>, key: Seq<char>, depth: nat)
    requires
        readable(JsonV::Object(m), depth),
    ensures
        readable(JsonV::Object(without_member(m, key)), depth),
{
    let n = without_member(m, key);
    law_withdraw_touches_own_entry_only(m, key, key);
    assert(m.skip(0) =~= m);
    lemma_member_index(m, key, 0);
    assert forall|i: int| 0 <= i < n.len() implies readable((#[trigger] n[i]).1, (depth - 1) as nat) by {
        assert(n[i] == m[i] || n[i] == m[m.len() - 1]);
        assert(readable(m[i].1, (depth - 1) as nat));
        assert(readable(m[m.len() - 1].1, (depth - 1) as nat));
    }
}

proof fn lemma_member_index(m: Seq<(Seq<char>, JsonV)>, key: Seq<char>, i: int)
    requires
        0 <= i <= m.len(),
    ensures
        match member_index(m, key, i) {
            Some(k) => i <= k < m.len() && m[k].0 == key && (forall|j: int| i <= j < k ==> (#[trigger] m[j]).0 != key)
                && member(m.skip(i), key) == Some(m[k].1),
            None => (forall|j: int| i <= j < m.len() ==> (#[trigger] m[j]).0 != key) && member(m.skip(i), key) is None,
        },
    decreases m.len() - i,
{
    if i < m.len() {
        assert(m.skip(i)[0] == m[i]);
        assert(m.skip(i).drop_first() =~= m.skip(i + 1));
        if m[i].0 != key {
            lemma_member_index(m, key, i + 1);
        }
    }
}

proof fn lemma_member_agrees(a: Seq<(Seq<char>, JsonV)>, b: Seq<(Seq<char>, JsonV)>, key: Seq<char>)
    requires
        a.len() == b.len(),
        forall|j: int| 0 <= j < a.len() ==> a[j] == b[j] || ((#[trigger] a[j]).0 != key && b[j].0 != key),
    ensures
        member(a, key) == member(b, key),
    decreases a.len(),
{
    if a.len() > 0 {
        let (x, y) = (a.drop_first(), b.drop_first());
        assert(a[0] == b[0] || (a[0].0 != key && b[0].0 != key));
        assert forall|j: int| 0 <= j < x.len() implies x[j] == y[j] || ((#[trigger] x[j]).0 != key && y[j].0 != key) by {
            assert(a[j + 1] == x[j] && b[j + 1] == y[j]);
        }
        lemma_member_agrees(x, y, key);
    }
}

proof fn lemma_member_push(m: Seq<(Seq<char>, JsonV)>, key: Seq<char>, other: (Seq<char>, JsonV))
    ensures
        other.0 != key ==> member(m.push(other), key) == member(m, key),
        other.0 == key && member(m, key) is None ==> member(m.push(other), key) == Some(other.1),
    decreases m.len(),
{
    if m.len() == 0 {
        assert(m.push(other)[0] == other);
        assert(m.push(other).drop_first() =~= m);
    } else {
        assert(m.push(other)[0] == m[0]);
        assert(m.push(other).drop_first() =~= m.drop_first().push(other));
        lemma_member_push(m.drop_first(), key, other);
    }
}

/// Publishing sets the entry of the application, and leaves every other as it was.
pub proof fn law_publish_touches_own_entry_only(
    m: Seq<(Seq<char>, JsonV)>,
    app: Seq<char>,
    entry: JsonV,
    other: Seq<char>,
)
    ensures
        member(with_member(m, app, entry), app) == Some(entry),
        other != app ==> member(with_member(m, app, entry), other) == member(m, other),
{
    let n = with_member(m, app, entry);
    assert(m.skip(0) =~= m);
    lemma_member_index(m, app, 0);
    match member_index(m, app, 0) {
        Some(k) => {
            assert(n.skip(0) =~= n);
            lemma_member_index(n, app, 0);
            assert(n[k] == (app, entry));
            let i = member_index(n, app, 0)->Some_0;
            if i < k {
                assert(n[i] == m[i]);
            }
            if other != app {
                assert forall|j: int| 0 <= j < n.len() implies n[j] == m[j] || ((#[trigger] n[j]).0 != other && m[j].0
                    != other) by {}
                lemma_member_agrees(n, m, other);
            }
        },
        None => {
            lemma_member_push(m, app, (app, entry));
            lemma_member_push(m, other, (app, entry));
        },
    }
}

proof fn lemma_member_somewhere(m: Seq<(Seq<char>, JsonV)>, key: Seq<char>, k: int)
    requires
        keys_distinct(m),
        0 <= k < m.len(),
        m[k].0 == key,
    ensures
        member(m, key) == Some(m[k].1),
{
    assert(m.skip(0) =~= m);
    lemma_member_index(m, key, 0);
    let i = member_index(m, key, 0);
    match i {
        Some(j) => {
            if j < k {
                assert(m[j].0 != m[k].0);
            } else if k < j {
                assert(m[k].0 != key);
            }
        },
        None => {
            assert(m[k].0 != key);
        },
    }
}

/// Withdrawing removes the entry of the application and no other, and a second time
/// changes nothing. A ledger holds each key once, as every JSON object does.
pub proof fn law_withdraw_touches_own_entry_only(m: Seq<(Seq<char>, JsonV)>, app: Seq<char>, other: Seq<char>)
    requires
        keys_distinct(m),
    ensures
        member(without_member(m, app), app) is None,
        other != app ==> member(without_member(m, app), other) == member(m, other),
        keys_distinct(without_member(m, app)),
        without_member(without_member(m, app), app) == without_member(m, app),
{
    let n = without_member(m, app);
    assert(m.skip(0) =~= m);
    assert(n.skip(0) =~= n);
    lemma_member_index(m, app, 0);
    lemma_member_index(n, app, 0);
    lemma_member_index(m, other, 0);
    lemma_member_index(n, other, 0);
    match member_index(m, app, 0) {
        Some(k) => {
            let last = m.len() - 1;
            assert forall|i: int| 0 <= i < n.len() implies (#[trigger] n[i]) == (if i == k {
                m[last]
            } else {
                m[i]
            }) by {}
            assert forall|i: int| 0 <= i < n.len() implies (#[trigger] n[i]).0 != app by {
                if i == k {
                    assert(m[k].0 != m[last].0);
                } else if i < k {
                    assert(m[i].0 != m[k].0);
                } else {
                    assert(m[k].0 != m[i].0);
                }
            }
            assert(keys_distinct(n)) by {
                assert forall|i: int, j: int| 0 <= i < j < n.len() implies (#[trigger] n[i]).0 != (#[trigger] n[j]).0 by {
                    let a = if i == k {
                        last
                    } else {
                        i
                    };
                    let b = if j == k {
                        last
                    } else {
                        j
                    };
                    if a < b {
                        assert(m[a].0 != m[b].0);
                    } else {
                        assert(m[b].0 != m[a].0);
                    }
                }
            }
            if other != app {
                match member_index(m, other, 0) {
                    Some(i) => {
                        let at = if i == last {
                            k
                        } else {
                            i
                        };
                        assert(i != k);
                        assert(n[at].0 == other);
                        lemma_member_somewhere(n, other, at);
                    },
                    None => {
                        if let Some(i) = member_index(n, other, 0) {
                            let a = if i == k {
                                last
                            } else {
                                i
                            };
                            assert(m[a].0 == other);
                        }
                    },
                }
            }
        },
        None => {},
    }
}

/// What is published of the engine beside its port: the alias and the model.
pub fn engine_extra(alias: &str, model: &str) -> (r: Vec<(String, Json)>)
    ensures
        members(r@) == seq![("alias"@, JsonV::Str(alias@)), ("model"@, JsonV::Str(model@))],
{
    let mut m: Vec<(String, Json)> = Vec::new();
    push_member(&mut m, "alias", text_value(alias));
    push_member(&mut m, "model", text_value(model));
    assert(members(m@) =~= seq![("alias"@, JsonV::Str(alias@)), ("model"@, JsonV::Str(model@))]);
    m
}

/// Where the health of an engine is asked for.
pub fn health_url(host: &str, port: u16) -> (r: String)
    ensures
        r@ == "http://"@ + host@ + ":"@ + dec(port as nat) + "/health"@,
{
    "http://".to_owned().concat(host).concat(":").concat(dec_u64(port as u64).as_str()).concat("/health")
}

/// A lock that is taken is held; one that somebody else holds is waited for, and broken where it
/// is older than five seconds; and nobody waits for more than five seconds.
pub proof fn law_nobody_waits_for_good(age: Option<u128>, waited: u128)
    ensures
        lock_after(LockTry::Taken, age, waited) == LockStep::Hold,
        lock_after(LockTry::Failed, age, waited) == LockStep::GoOn,
        waited < 5_000_000_000 ==> lock_after(LockTry::NotYet, age, waited) == LockStep::Try,
        waited >= 5_000_000_000 ==> lock_after(LockTry::NotYet, age, waited) == LockStep::GoOn,
        age matches Some(a) ==> (a <= 5_000_000_000 ==> lock_after(LockTry::Exists, age, waited) == LockStep::Wait) && (a
            > 5_000_000_000 ==> lock_after(LockTry::Exists, age, waited) == LockStep::Break),
        age is None ==> lock_after(LockTry::Exists, age, waited) == LockStep::Break,
{
}

/// The ledger is where the environment says, unless that is blank; else under the local data
/// directory, where there is one.
pub proof fn law_where_the_ledger_is(
    env: Option<Seq<char>>,
    local: Option<Seq<char>>,
    home: Option<Seq<char>>,
    win: bool,
)
    ensures
        env matches Some(p) ==> (trimmed(p).len() > 0 ==> ledger_of(env, local, home, win) == trimmed(p)),
        env is None || trimmed(env->Some_0).len() == 0 ==> (local matches Some(d) ==> (trimmed(d).len() > 0
            ==> ledger_of(env, local, home, win) == under(under(trimmed(d), "Buzzcaf"@, win), "ports.json"@, win))),
{
}

/// The port of an entry is the one that was written into it.
pub proof fn law_the_port_of_an_entry(
    port: u16,
    pid: u32,
    started_at: Seq<char>,
    health: Seq<char>,
    extra: Seq<(Seq<char>, JsonV)>,
    m: Seq<(Seq<char>, JsonV)>,
    app: Seq<char>,
)
    requires
        member(m, app) == Some(entry_value(port, pid, started_at, health, extra)),
    ensures
        port_of(entry_of(m, app)) == Some(port),
        entry_value(port, pid, started_at, health, extra).get("health"@) == Some(JsonV::Str(health)),
{
    reveal_with_fuel(member, 5);
    reveal_strlit("port");
    reveal_strlit("pid");
    reveal_strlit("started_at");
    reveal_strlit("health");
    assert("port"@.len() == 4 && "pid"@.len() == 3 && "started_at"@.len() == 10 && "health"@.len() == 6);
    let o = entry_value(port, pid, started_at, health, extra)->Object_0;
    lemma_member_at(o, "port"@, 0);
    lemma_member_at(o, "health"@, 3);
}

} // verus!
