//! Asking the guardian of the machine's memory before the GPU is taken.
//!
//! * A guardian that is absent, slow or damaged never keeps the engine from starting.
//! * A refusal is a refusal: it names who holds the card. Only the owner overrides it.
//! * Messages are one JSON value to a line.

use crate::discover::alike;
use crate::gguf::{from_utf8_lossy, lossy_text};
use crate::json::{
    Json, JsonV, NumberV, field, get_field, has_fields, is_record, jsons, lemma_view, member,
    members, opt_str, opt_view, parsed, text_value,
};
use crate::message::{object, opt_string, push_member};
use crate::ports::{given, json_u64};
use crate::text::{at, dec, dec_u64, holds, lowered, str_eq, string_of, to_lowered, trim_str, trimmed};
use vstd::prelude::*;
use vstd::string::*;

verus! {

/// The pipe of the service.
pub const DEFAULT_PIPE: &'static str = r"\\.\pipe\Sentinel";

/// The name under which the engine registers.
pub const CLIENT: &'static str = "buzzcode";

pub const CLASS: &'static str = "batch";

pub const PRIORITY: u32 = 30;

pub const LABEL: &'static str = "buzzcode engine";

/// How long a call may take, in milliseconds.
pub const CALL_TIMEOUT_MS: u64 = 300;

/// The pipe: as the environment says, where that is not blank, else the default.
pub fn resolve_pipe(from_env: Option<&str>) -> (r: String)
    ensures
        r@ == (match given(opt_str(from_env)) {
            Some(p) => p,
            None => DEFAULT_PIPE@,
        }),
{
    match from_env {
        Some(s) => {
            let t = trim_str(s);
            if t.as_str().is_empty() {
                DEFAULT_PIPE.to_owned()
            } else {
                t
            }
        },
        None => DEFAULT_PIPE.to_owned(),
    }
}

/// The value of the environment's switch that turns the guardian off.
pub fn turned_off(switch: Option<&str>) -> (r: bool)
    ensures
        r == (switch matches Some(s) && (s@ == "0"@ || s@ == "off"@ || s@ == "false"@)),
{
    match switch {
        Some(s) => str_eq(s, "0") || str_eq(s, "off") || str_eq(s, "false"),
        None => false,
    }
}

// ---------------------------------------------------------------- what is said

/// Who holds memory. What the service did not say is none.
#[derive(Debug)]
pub struct Blocker {
    pub client: Option<String>,
    pub process: Option<String>,
    pub pid: Option<u64>,
    pub vram_mib: Option<u64>,
    pub ram_mib: Option<u64>,
    pub class: Option<String>,
    pub evictable: Option<bool>,
}

pub struct BlockerV {
    pub client: Option<Seq<char>>,
    pub process: Option<Seq<char>>,
    pub pid: Option<u64>,
    pub vram_mib: Option<u64>,
    pub ram_mib: Option<u64>,
    pub class: Option<Seq<char>>,
    pub evictable: Option<bool>,
}

impl View for Blocker {
    type V = BlockerV;

    open spec fn view(&self) -> BlockerV {
        BlockerV {
            client: opt_string(self.client),
            process: opt_string(self.process),
            pid: self.pid,
            vram_mib: self.vram_mib,
            ram_mib: self.ram_mib,
            class: opt_string(self.class),
            evictable: self.evictable,
        }
    }
}

impl Default for Blocker {
    fn default() -> (r: Blocker)
        ensures
            r@ == (BlockerV {
                client: None,
                process: None,
                pid: None,
                vram_mib: None,
                ram_mib: None,
                class: None,
                evictable: None,
            }),
    {
        Blocker { client: None, process: None, pid: None, vram_mib: None, ram_mib: None, class: None, evictable: None }
    }
}

impl BlockerV {
    /// The blocker on one line.
    pub open spec fn line(self) -> Seq<char> {
        (match self.client {
            Some(c) => c,
            None => match self.process {
                Some(p) => p,
                None => "?"@,
            },
        }) + part_number(" (pid "@, self.pid, ")"@) + part_number(" "@, self.vram_mib, " MiB VRAM"@) + part_number(
            " + "@,
            self.ram_mib,
            " MiB RAM"@,
        ) + part_text(", "@, self.class) + (if self.evictable == Some(true) {
            ", evictable"@
        } else {
            Seq::empty()
        })
    }
}

impl Blocker {
    /// The blocker on one line.
    pub fn to_string(&self) -> (r: String)
        ensures
            r@ == self@.line(),
    {
        let who = match &self.client {
            Some(c) => c.clone(),
            None => match &self.process {
                Some(p) => p.clone(),
                None => "?".to_owned(),
            },
        };
        let evictable = match self.evictable {
            Some(e) => if e {
                ", evictable".to_owned()
            } else {
                String::new()
            },
            None => String::new(),
        };
        who.concat(number_part(" (pid ", self.pid, ")").as_str()).concat(
            number_part(" ", self.vram_mib, " MiB VRAM").as_str(),
        ).concat(number_part(" + ", self.ram_mib, " MiB RAM").as_str()).concat(
            text_part(", ", &self.class).as_str(),
        ).concat(evictable.as_str())
    }
}

/// A number between two texts; nothing where there is none.
pub open spec fn part_number(before: Seq<char>, n: Option<u64>, after: Seq<char>) -> Seq<char> {
    match n {
        Some(v) => before + dec(v as nat) + after,
        None => Seq::empty(),
    }
}

/// A text behind another; nothing where there is none.
pub open spec fn part_text(before: Seq<char>, s: Option<Seq<char>>) -> Seq<char> {
    match s {
        Some(v) => before + v,
        None => Seq::empty(),
    }
}

fn number_part(before: &str, n: Option<u64>, after: &str) -> (r: String)
    ensures
        r@ == part_number(before@, n, after@),
{
    match n {
        Some(v) => before.to_owned().concat(dec_u64(v).as_str()).concat(after),
        None => String::new(),
    }
}

fn text_part(before: &str, s: &Option<String>) -> (r: String)
    ensures
        r@ == part_text(before@, opt_string(*s)),
{
    match s {
        Some(v) => before.to_owned().concat(v.as_str()),
        None => String::new(),
    }
}

pub open spec fn blockers_view(v: Seq<Blocker>) -> Seq<BlockerV> {
    Seq::new(v.len(), |i: int| v[i]@)
}

/// The answer to a request for memory.
#[derive(Debug)]
pub struct Reserved {
    pub granted: bool,
    pub free_mib: Option<u64>,
    pub reserved_mib: Option<u64>,
    pub ram_free_mib: Option<u64>,
    pub ram_reserved_mib: Option<u64>,
    pub expires_in_secs: Option<u64>,
    pub reason: Option<String>,
    /// None where the answer says nothing of blockers; an empty list where it says
    /// that there are none.
    pub blockers: Option<Vec<Blocker>>,
}

pub struct ReservedV {
    pub granted: bool,
    pub free_mib: Option<u64>,
    pub reserved_mib: Option<u64>,
    pub ram_free_mib: Option<u64>,
    pub ram_reserved_mib: Option<u64>,
    pub expires_in_secs: Option<u64>,
    pub reason: Option<Seq<char>>,
    pub blockers: Option<Seq<BlockerV>>,
}

impl View for Reserved {
    type V = ReservedV;

    open spec fn view(&self) -> ReservedV {
        ReservedV {
            granted: self.granted,
            free_mib: self.free_mib,
            reserved_mib: self.reserved_mib,
            ram_free_mib: self.ram_free_mib,
            ram_reserved_mib: self.ram_reserved_mib,
            expires_in_secs: self.expires_in_secs,
            reason: opt_string(self.reason),
            blockers: match self.blockers {
                Some(b) => Some(blockers_view(b@)),
                None => None,
            },
        }
    }
}

impl Default for Reserved {
    fn default() -> (r: Reserved)
        ensures
            r@ == (ReservedV {
                granted: false,
                free_mib: None,
                reserved_mib: None,
                ram_free_mib: None,
                ram_reserved_mib: None,
                expires_in_secs: None,
                reason: None,
                blockers: None,
            }),
    {
        Reserved {
            granted: false,
            free_mib: None,
            reserved_mib: None,
            ram_free_mib: None,
            ram_reserved_mib: None,
            expires_in_secs: None,
            reason: None,
            blockers: None,
        }
    }
}

/// An optional number: absent and null are none, anything but a number is an error.
pub open spec fn opt_number(f: Option<JsonV>) -> Result<Option<u64>, ()> {
    match f {
        None => Ok(None),
        Some(JsonV::Null) => Ok(None),
        Some(v) => match v.u64() {
            Some(n) => Ok(Some(n)),
            None => Err(()),
        },
    }
}

pub open spec fn opt_text(f: Option<JsonV>) -> Result<Option<Seq<char>>, ()> {
    match f {
        None => Ok(None),
        Some(JsonV::Null) => Ok(None),
        Some(v) => match v.str() {
            Some(s) => Ok(Some(s)),
            None => Err(()),
        },
    }
}

pub open spec fn opt_flag(f: Option<JsonV>) -> Result<Option<bool>, ()> {
    match f {
        None => Ok(None),
        Some(JsonV::Null) => Ok(None),
        Some(v) => match v.bool() {
            Some(b) => Ok(Some(b)),
            None => Err(()),
        },
    }
}

fn read_number(f: Option<&Json>) -> (r: Result<Option<u64>, ()>)
    ensures
        r == opt_number(opt_view(f)),
{
    match f {
        None => Ok(None),
        Some(Json::Null) => Ok(None),
        Some(v) => match v.as_u64() {
            Some(n) => Ok(Some(n)),
            None => Err(()),
        },
    }
}

fn read_text(f: Option<&Json>) -> (r: Result<Option<String>, ()>)
    ensures
        match r {
            Ok(s) => opt_text(opt_view(f)) == Ok::<Option<Seq<char>>, ()>(opt_string(s)),
            Err(_) => opt_text(opt_view(f)) is Err,
        },
{
    match f {
        None => Ok(None),
        Some(Json::Null) => Ok(None),
        Some(v) => match v.as_str() {
            Some(s) => Ok(Some(s.to_owned())),
            None => Err(()),
        },
    }
}

fn read_flag(f: Option<&Json>) -> (r: Result<Option<bool>, ()>)
    ensures
        r == opt_flag(opt_view(f)),
{
    match f {
        None => Ok(None),
        Some(Json::Null) => Ok(None),
        Some(v) => match v.as_bool() {
            Some(b) => Ok(Some(b)),
            None => Err(()),
        },
    }
}

/// A blocker out of a record of its seven fields; none where a field is of the wrong
/// type.
pub open spec fn blocker_of(v: JsonV) -> Option<BlockerV> {
    if !is_record(v, 7) {
        None
    } else {
        match (
            opt_text(field(v, "client"@, 0)),
            opt_text(field(v, "process"@, 1)),
            opt_number(field(v, "pid"@, 2)),
            opt_number(field(v, "vram_mib"@, 3)),
            opt_number(field(v, "ram_mib"@, 4)),
            opt_text(field(v, "class"@, 5)),
            opt_flag(field(v, "evictable"@, 6)),
        ) {
            (Ok(client), Ok(process), Ok(pid), Ok(vram_mib), Ok(ram_mib), Ok(class), Ok(evictable)) => Some(
                BlockerV { client, process, pid, vram_mib, ram_mib, class, evictable },
            ),
            _ => None,
        }
    }
}

fn read_blocker(v: &Json) -> (r: Option<Blocker>)
    ensures
        match r {
            Some(b) => blocker_of(v@) == Some(b@),
            None => blocker_of(v@) is None,
        },
{
    if !has_fields(v, 7) {
        return None;
    }
    match (
        read_text(get_field(v, "client", 0)),
        read_text(get_field(v, "process", 1)),
        read_number(get_field(v, "pid", 2)),
        read_number(get_field(v, "vram_mib", 3)),
        read_number(get_field(v, "ram_mib", 4)),
        read_text(get_field(v, "class", 5)),
        read_flag(get_field(v, "evictable", 6)),
    ) {
        (Ok(client), Ok(process), Ok(pid), Ok(vram_mib), Ok(ram_mib), Ok(class), Ok(evictable)) => Some(
            Blocker { client, process, pid, vram_mib, ram_mib, class, evictable },
        ),
        _ => None,
    }
}

/// The first `n` blockers of a list; none where one of them is damaged.
pub open spec fn blockers_of(a: Seq<JsonV>, n: nat) -> Option<Seq<BlockerV>>
    decreases n,
{
    if n == 0 || n > a.len() {
        Some(Seq::empty())
    } else {
        match (blockers_of(a, (n - 1) as nat), blocker_of(a[n - 1])) {
            (Some(bs), Some(b)) => Some(bs.push(b)),
            _ => None,
        }
    }
}

/// The list of blockers: absent and null are none.
pub open spec fn opt_blockers(f: Option<JsonV>) -> Result<Option<Seq<BlockerV>>, ()> {
    match f {
        None => Ok(None),
        Some(JsonV::Null) => Ok(None),
        Some(JsonV::Array(a)) => match blockers_of(a, a.len()) {
            Some(bs) => Ok(Some(bs)),
            None => Err(()),
        },
        Some(_) => Err(()),
    }
}

proof fn lemma_blockers_fail(a: Seq<JsonV>, n: nat, m: nat)
    requires
        n <= m <= a.len(),
        blockers_of(a, n) is None,
    ensures
        blockers_of(a, m) is None,
    decreases m - n,
{
    if n < m {
        lemma_blockers_fail(a, n, (m - 1) as nat);
    }
}

fn read_blockers(f: Option<&Json>) -> (r: Result<Option<Vec<Blocker>>, ()>)
    ensures
        match r {
            Ok(Some(b)) => opt_blockers(opt_view(f)) == Ok::<Option<Seq<BlockerV>>, ()>(Some(blockers_view(b@))),
            Ok(None) => opt_blockers(opt_view(f)) == Ok::<Option<Seq<BlockerV>>, ()>(None),
            Err(_) => opt_blockers(opt_view(f)) is Err,
        },
{
    let v = match f {
        None => {
            return Ok(None);
        },
        Some(v) => v,
    };
    proof {
        lemma_view(*v);
    }
    match v {
        Json::Null => Ok(None),
        Json::Array(a) => {
            let ghost av = jsons(a@);
            let mut out: Vec<Blocker> = Vec::new();
            let mut i: usize = 0;
            assert(blockers_view(out@) =~= Seq::empty());
            while i < a.len()
                invariant
                    i <= a.len(),
                    av == jsons(a@),
                    v@ == JsonV::Array(av),
                    opt_view(f) == Some(v@),
                    blockers_of(av, i as nat) == Some(blockers_view(out@)),
                decreases a.len() - i,
            {
                assert(av[i as int] == a@[i as int]@);
                match read_blocker(&a[i]) {
                    Some(b) => {
                        let ghost before = out@;
                        out.push(b);
                        assert(blockers_view(out@) =~= blockers_view(before).push(b@));
                    },
                    None => {
                        proof {
                            lemma_blockers_fail(av, (i + 1) as nat, av.len());
                        }
                        return Err(());
                    },
                }
                i += 1;
            }
            Ok(Some(out))
        },
        _ => Err(()),
    }
}

/// The answer out of a record of its eight fields; none where a field is of the wrong
/// type.
pub open spec fn reserved_of(v: JsonV) -> Option<ReservedV> {
    let granted = match field(v, "granted"@, 0) {
        None => Some(false),
        Some(x) => x.bool(),
    };
    if !is_record(v, 8) {
        None
    } else {
        match (
            granted,
            opt_number(field(v, "free_mib"@, 1)),
            opt_number(field(v, "reserved_mib"@, 2)),
            opt_number(field(v, "ram_free_mib"@, 3)),
            opt_number(field(v, "ram_reserved_mib"@, 4)),
            opt_number(field(v, "expires_in_secs"@, 5)),
            opt_text(field(v, "reason"@, 6)),
            opt_blockers(field(v, "blockers"@, 7)),
        ) {
            (
                Some(granted),
                Ok(free_mib),
                Ok(reserved_mib),
                Ok(ram_free_mib),
                Ok(ram_reserved_mib),
                Ok(expires_in_secs),
                Ok(reason),
                Ok(blockers),
            ) => Some(
                ReservedV {
                    granted,
                    free_mib,
                    reserved_mib,
                    ram_free_mib,
                    ram_reserved_mib,
                    expires_in_secs,
                    reason,
                    blockers,
                },
            ),
            _ => None,
        }
    }
}

/// Reads an answer.
pub fn read_reserved(v: &Json) -> (r: Option<Reserved>)
    ensures
        match r {
            Some(x) => reserved_of(v@) == Some(x@),
            None => reserved_of(v@) is None,
        },
{
    if !has_fields(v, 8) {
        return None;
    }
    let granted = match get_field(v, "granted", 0) {
        None => Some(false),
        Some(x) => x.as_bool(),
    };
    match (
        granted,
        read_number(get_field(v, "free_mib", 1)),
        read_number(get_field(v, "reserved_mib", 2)),
        read_number(get_field(v, "ram_free_mib", 3)),
        read_number(get_field(v, "ram_reserved_mib", 4)),
        read_number(get_field(v, "expires_in_secs", 5)),
        read_text(get_field(v, "reason", 6)),
        read_blockers(get_field(v, "blockers", 7)),
    ) {
        (
            Some(granted),
            Ok(free_mib),
            Ok(reserved_mib),
            Ok(ram_free_mib),
            Ok(ram_reserved_mib),
            Ok(expires_in_secs),
            Ok(reason),
            Ok(blockers),
        ) => Some(
            Reserved {
                granted,
                free_mib,
                reserved_mib,
                ram_free_mib,
                ram_reserved_mib,
                expires_in_secs,
                reason,
                blockers,
            },
        ),
        _ => None,
    }
}

/// What came back from a request for memory.
#[derive(Debug)]
pub enum Decision {
    /// The guardian did not answer, or not to the point.
    Absent,
    Granted(Reserved),
    Refused(Reserved),
}

pub enum DecisionV {
    Absent,
    Granted(ReservedV),
    Refused(ReservedV),
}

impl View for Decision {
    type V = DecisionV;

    open spec fn view(&self) -> DecisionV {
        match self {
            Decision::Absent => DecisionV::Absent,
            Decision::Granted(r) => DecisionV::Granted(r@),
            Decision::Refused(r) => DecisionV::Refused(r@),
        }
    }
}

/// What a reply decides: only an object with a readable `Reserved` in it decides
/// anything.
pub open spec fn decided(reply: Option<JsonV>) -> DecisionV {
    match reply {
        Some(JsonV::Object(m)) => match member(m, "Reserved"@) {
            Some(inner) => match reserved_of(inner) {
                Some(r) => if r.granted {
                    DecisionV::Granted(r)
                } else {
                    DecisionV::Refused(r)
                },
                None => DecisionV::Absent,
            },
            None => DecisionV::Absent,
        },
        _ => DecisionV::Absent,
    }
}

/// Takes the reply to a request for memory; none where there was no reply.
pub fn decide(reply: Option<&Json>) -> (r: Decision)
    ensures
        r@ == decided(opt_view(reply)),
{
    let v = match reply {
        Some(v) => v,
        None => {
            return Decision::Absent;
        },
    };
    proof {
        lemma_view(*v);
    }
    if let Json::Object(_) = v {
        if let Some(inner) = v.get("Reserved") {
            if let Some(x) = read_reserved(inner) {
                return if x.granted {
                    Decision::Granted(x)
                } else {
                    Decision::Refused(x)
                };
            }
        }
    }
    Decision::Absent
}

/// The reply to a registration acknowledges it: the word `Ok`, or an object with
/// `Registered` in it.
pub open spec fn acknowledges(reply: Option<JsonV>) -> bool {
    match reply {
        Some(JsonV::Str(s)) => s == "Ok"@,
        Some(JsonV::Object(m)) => member(m, "Registered"@) is Some,
        _ => false,
    }
}

pub fn is_acknowledged(reply: Option<&Json>) -> (r: bool)
    ensures
        r == acknowledges(opt_view(reply)),
{
    match reply {
        Some(v) => {
            proof {
                lemma_view(*v);
            }
            match v {
                Json::Str(s) => str_eq(s.as_str(), "Ok"),
                Json::Object(_) => v.get("Registered").is_some(),
                _ => false,
            }
        },
        None => false,
    }
}

/// A command: an object of one key.
pub open spec fn command(name: Seq<char>, body: Seq<(Seq<char>, JsonV)>) -> JsonV {
    JsonV::Object(seq![(name, JsonV::Object(body))])
}

fn make_command(name: &str, body: Vec<(String, Json)>) -> (r: Json)
    ensures
        r@ == command(name@, members(body@)),
{
    let ghost bv = members(body@);
    let mut m: Vec<(String, Json)> = Vec::new();
    push_member(&mut m, name, object(body));
    assert(members(m@) =~= seq![(name@, JsonV::Object(bv))]);
    object(m)
}

pub struct Sentinel {
    pipe: String,
    client: String,
}

pub struct SentinelV {
    pub pipe: Seq<char>,
    pub client: Seq<char>,
}

impl View for Sentinel {
    type V = SentinelV;

    closed spec fn view(&self) -> SentinelV {
        SentinelV { pipe: self.pipe@, client: self.client@ }
    }
}

/// A number as JSON.
pub open spec fn num(n: nat) -> JsonV {
    JsonV::Number(NumberV::PosInt(n as u64))
}

impl Sentinel {
    /// A client on the pipe that the environment names.
    pub fn new(from_env: Option<&str>) -> (r: Sentinel)
        ensures
            r@ == (SentinelV {
                pipe: match given(opt_str(from_env)) {
                    Some(p) => p,
                    None => DEFAULT_PIPE@,
                },
                client: CLIENT@,
            }),
    {
        Sentinel::with_pipe(resolve_pipe(from_env).as_str())
    }

    pub fn with_pipe(pipe: &str) -> (r: Sentinel)
        ensures
            r@ == (SentinelV { pipe: pipe@, client: CLIENT@ }),
    {
        Sentinel { pipe: pipe.to_owned(), client: CLIENT.to_owned() }
    }

    pub fn pipe(&self) -> (r: &str)
        ensures
            r@ == self@.pipe,
    {
        self.pipe.as_str()
    }

    pub fn client(&self) -> (r: &str)
        ensures
            r@ == self@.client,
    {
        self.client.as_str()
    }

    /// The command that registers a process.
    pub fn register_command(&self, pid: u32) -> (r: Json)
        ensures
            r@ == command(
                "Register"@,
                seq![
                    ("client"@, JsonV::Str(self@.client)),
                    ("pid"@, num(pid as nat)),
                    ("class"@, JsonV::Str(CLASS@)),
                    ("priority"@, num(PRIORITY as nat)),
                    ("label"@, JsonV::Str(LABEL@)),
                ],
            ),
    {
        let mut m: Vec<(String, Json)> = Vec::new();
        push_member(&mut m, "client", text_value(self.client.as_str()));
        push_member(&mut m, "pid", json_u64(pid as u64));
        push_member(&mut m, "class", text_value(CLASS));
        push_member(&mut m, "priority", json_u64(PRIORITY as u64));
        push_member(&mut m, "label", text_value(LABEL));
        assert(members(m@) =~= seq![
            ("client"@, JsonV::Str(self@.client)),
            ("pid"@, num(pid as nat)),
            ("class"@, JsonV::Str(CLASS@)),
            ("priority"@, num(PRIORITY as nat)),
            ("label"@, JsonV::Str(LABEL@)),
        ]);
        make_command("Register", m)
    }

    /// The command that asks for memory, for the process that will use it where it
    /// is known.
    pub fn reserve_command(&self, mib: u64, ram_mib: u64, for_pid: Option<u32>) -> (r: Json)
        ensures
            r@ == command(
                "Reserve"@,
                seq![
                    ("client"@, JsonV::Str(self@.client)),
                    ("mib"@, num(mib as nat)),
                    ("ram_mib"@, num(ram_mib as nat)),
                ] + (match for_pid {
                    Some(p) => seq![("for_pid"@, num(p as nat))],
                    None => Seq::empty(),
                }),
            ),
    {
        let mut m: Vec<(String, Json)> = Vec::new();
        push_member(&mut m, "client", text_value(self.client.as_str()));
        push_member(&mut m, "mib", json_u64(mib));
        push_member(&mut m, "ram_mib", json_u64(ram_mib));
        if let Some(p) = for_pid {
            push_member(&mut m, "for_pid", json_u64(p as u64));
        }
        assert(members(m@) =~= seq![
            ("client"@, JsonV::Str(self@.client)),
            ("mib"@, num(mib as nat)),
            ("ram_mib"@, num(ram_mib as nat)),
        ] + (match for_pid {
            Some(p) => seq![("for_pid"@, num(p as nat))],
            None => Seq::empty(),
        }));
        make_command("Reserve", m)
    }

    /// The command that gives the memory back.
    pub fn release_command(&self) -> (r: Json)
        ensures
            r@ == command("Release"@, seq![("client"@, JsonV::Str(self@.client))]),
    {
        let mut m: Vec<(String, Json)> = Vec::new();
        push_member(&mut m, "client", text_value(self.client.as_str()));
        assert(members(m@) =~= seq![("client"@, JsonV::Str(self@.client))]);
        make_command("Release", m)
    }

    /// The command that subscribes to events.
    pub fn subscribe_command(&self) -> (r: Json)
        ensures
            r@ == command("Subscribe"@, seq![("client"@, JsonV::Str(self@.client))]),
    {
        let mut m: Vec<(String, Json)> = Vec::new();
        push_member(&mut m, "client", text_value(self.client.as_str()));
        assert(members(m@) =~= seq![("client"@, JsonV::Str(self@.client))]);
        make_command("Subscribe", m)
    }
}

/// What a line that was received says: nothing where it is blank, a value, or the
/// message of why it is none.
pub fn read_line(bytes: &[u8]) -> (r: Result<Option<Json>, String>)
    ensures
        ({
            let t = trimmed(lossy_text(bytes@));
            match r {
                Ok(None) => t.len() == 0,
                Ok(Some(v)) => t.len() > 0 && parsed(t) == Ok::<JsonV, Seq<char>>(v@),
                Err(e) => t.len() > 0 && parsed(t) == Err::<JsonV, Seq<char>>(e@),
            }
        }),
{
    let t = trim_str(from_utf8_lossy(bytes).as_str());
    if t.as_str().is_empty() {
        return Ok(None);
    }
    match Json::parse(t.as_str()) {
        Ok(v) => Ok(Some(v)),
        Err(e) => Err(e),
    }
}

/// How long to wait, in seconds, before the events are asked for again: twice as long
/// as the last time, half a minute at most.
pub fn next_backoff(seconds: u64) -> (r: u64)
    ensures
        r == (if 2 * seconds <= 30 {
            2 * seconds
        } else {
            30int
        }),
{
    if seconds <= 15 {
        2 * seconds
    } else {
        30
    }
}

/// How long to wait, in seconds, once a stream of events ended: a second where it ended well,
/// else what it is by now.
pub fn backoff_after(ended_well: bool, seconds: u64) -> (r: u64)
    ensures
        r == (if ended_well {
            1
        } else {
            seconds
        }),
{
    if ended_well {
        1
    } else {
        seconds
    }
}

// ---------------------------------------------------------------- starting the engine

/// Memory that is held, or would be: what is to be given back once the engine is up.
#[derive(Debug, Clone, Copy, PartialEq, Eq, Structural)]
pub struct Grant {
    /// There is nothing to give back any more.
    pub released: bool,
    /// The guardian never answered: nothing was booked.
    pub absent: bool,
}

impl Grant {
    pub fn absent() -> (r: Grant)
        ensures
            r == (Grant { released: true, absent: true }),
    {
        Grant { released: true, absent: true }
    }

    pub fn held() -> (r: Grant)
        ensures
            r == (Grant { released: false, absent: false }),
    {
        Grant { released: false, absent: false }
    }

    /// Gives the memory back. The result says whether the guardian is to be told, which it
    /// is at most once, and never where nothing was booked.
    pub fn release(&mut self) -> (r: bool)
        ensures
            r == (!old(self).released && !old(self).absent),
            *final(self) == (Grant { released: true, ..*old(self) }),
    {
        let held = !self.released && !self.absent;
        self.released = true;
        held
    }
}

/// A refusal, as it is shown.
#[derive(Debug)]
pub struct Refused {
    pub message: String,
    pub free_mib: Option<u64>,
    pub blockers: Vec<Blocker>,
}

/// The lines of the first `n` blockers.
pub open spec fn blocker_lines(b: Seq<BlockerV>, n: nat) -> Seq<char>
    decreases n,
{
    if n == 0 || n > b.len() {
        Seq::empty()
    } else {
        blocker_lines(b, (n - 1) as nat) + "\n    "@ + b[n - 1].line()
    }
}

/// What is shown of a refusal: what was asked for and what is free, the reason, who
/// holds the memory, and the way out.
pub open spec fn refusal(vram_mib: u64, ram_mib: u64, r: ReservedV) -> Seq<char> {
    "Sentinel refused the engine: asked for "@ + dec(vram_mib as nat) + " MiB VRAM + "@ + dec(ram_mib as nat)
        + " MiB RAM"@ + (match r.free_mib {
        Some(f) => ", "@ + dec(f as nat) + " MiB VRAM free"@,
        None => ", free VRAM unknown"@,
    }) + part_number(", "@, r.ram_free_mib, " MiB RAM free"@) + "."@ + part_text("\n  reason: "@, r.reason) + holders(
        r.blockers,
    ) + "\nsay 'pause batch jobs' to Dexter or stop the holder, then run this again (or pass --force)."@
}

/// Who holds the memory, as far as the service says.
pub open spec fn holders(b: Option<Seq<BlockerV>>) -> Seq<char> {
    match b {
        None => "\n  blockers: not reported by this Sentinel build"@,
        Some(b) => if b.len() == 0 {
            "\n  holding it: nobody — no other client has a booking, the card is simply this full"@
        } else {
            "\n  holding it:"@ + blocker_lines(b, b.len())
        },
    }
}

fn holders_text(b: &Option<Vec<Blocker>>) -> (r: String)
    ensures
        r@ == holders(
            match *b {
                Some(v) => Some(blockers_view(v@)),
                None => None,
            },
        ),
{
    match b {
        None => "\n  blockers: not reported by this Sentinel build".to_owned(),
        Some(list) => {
            if list.len() == 0 {
                return "\n  holding it: nobody — no other client has a booking, the card is simply this full".to_owned();
            }
            let ghost b = blockers_view(list@);
            let mut s = String::new();
            let mut i: usize = 0;
            while i < list.len()
                invariant
                    i <= list.len(),
                    b == blockers_view(list@),
                    s@ == blocker_lines(b, i as nat),
                decreases list.len() - i,
            {
                assert(b[i as int] == list@[i as int]@);
                s = s.concat("\n    ").concat(list[i].to_string().as_str());
                i += 1;
            }
            "\n  holding it:".to_owned().concat(s.as_str())
        },
    }
}

/// The text that a refused start shows.
pub fn refusal_message(vram_mib: u64, ram_mib: u64, r: &Reserved) -> (s: String)
    ensures
        s@ == refusal(vram_mib, ram_mib, r@),
{
    let free = match r.free_mib {
        Some(f) => ", ".to_owned().concat(dec_u64(f).as_str()).concat(" MiB VRAM free"),
        None => ", free VRAM unknown".to_owned(),
    };
    "Sentinel refused the engine: asked for ".to_owned().concat(dec_u64(vram_mib).as_str()).concat(
        " MiB VRAM + ",
    ).concat(dec_u64(ram_mib).as_str()).concat(" MiB RAM").concat(free.as_str()).concat(
        number_part(", ", r.ram_free_mib, " MiB RAM free").as_str(),
    ).concat(".").concat(text_part("\n  reason: ", &r.reason).as_str()).concat(
        holders_text(&r.blockers).as_str(),
    ).concat("\nsay 'pause batch jobs' to Dexter or stop the holder, then run this again (or pass --force).")
}

/// Whether the engine may start: it may where the guardian is absent, where memory
/// was granted, and where a refusal is overridden; the text is then what is shown.
pub fn gate_engine_start(d: Decision, forced: bool, vram_mib: u64, ram_mib: u64) -> (r: Result<
    (Grant, Option<String>),
    Refused,
>)
    ensures
        match d@ {
            DecisionV::Absent => r matches Ok((g, t)) && g == (Grant { released: true, absent: true }) && t is None,
            DecisionV::Granted(_) => r matches Ok((g, t)) && g == (Grant { released: false, absent: false })
                && t is None,
            DecisionV::Refused(x) => if forced {
                r matches Ok((g, t)) && g == (Grant { released: false, absent: false }) && opt_string(t) == Some(
                    refusal(vram_mib, ram_mib, x) + "\n(--force given: starting anyway)"@,
                )
            } else {
                r matches Err(e) && e.message@ == refusal(vram_mib, ram_mib, x) && e.free_mib == x.free_mib
                    && blockers_view(e.blockers@) == (match x.blockers {
                    Some(b) => b,
                    None => Seq::empty(),
                })
            },
        },
{
    match d {
        Decision::Absent => Ok((Grant::absent(), None)),
        Decision::Granted(_) => Ok((Grant::held(), None)),
        Decision::Refused(x) => {
            let message = refusal_message(vram_mib, ram_mib, &x);
            if forced {
                Ok((Grant::held(), Some(message.concat("\n(--force given: starting anyway)"))))
            } else {
                let blockers = match x.blockers {
                    Some(b) => b,
                    None => {
                        let v: Vec<Blocker> = Vec::new();
                        assert(blockers_view(v@) =~= Seq::empty());
                        v
                    },
                };
                Err(Refused { message, free_mib: x.free_mib, blockers })
            }
        },
    }
}

/// A guardian that does not answer, or not to the point, never keeps the engine from
/// starting: whatever is no object with a readable `Reserved` decides nothing.
pub proof fn law_absent_guardian_lets_go(reply: Option<JsonV>)
    requires
        !(reply matches Some(JsonV::Object(m)) && (member(m, "Reserved"@) matches Some(inner) && reserved_of(
            inner,
        ) is Some)),
    ensures
        decided(reply) is Absent,
{
}

// ---------------------------------------------------------------- events

/// What stops a serving engine, and the line to show: memory that is red, and a
/// preemption that is meant for this client or for nobody by name.
pub open spec fn stop_line(event: JsonV, client: Seq<char>) -> Option<Seq<char>> {
    match event {
        JsonV::Object(m) => if m.len() == 0 {
            None
        } else {
            let (key, body) = m[0];
            if key == "VramTight"@ {
                let level = match body.get_str("level"@) {
                    Some(l) => l,
                    None => Seq::empty(),
                };
                if lowered(level) != "red"@ {
                    None
                } else {
                    match crate::sse::get_u64(body, "free_mib"@) {
                        Some(f) => Some(
                            "Sentinel: VRAM is Red ("@ + dec(f as nat)
                                + " MiB free) — stopping the engine so the card recovers"@,
                        ),
                        None => Some("Sentinel: VRAM is Red — stopping the engine so the card recovers"@),
                    }
                }
            } else if key == "Preempt"@ {
                let by = match body.get_str("by"@) {
                    Some(b) => b,
                    None => "another client"@,
                };
                if body.get_str("client"@) matches Some(t) && t != client {
                    None
                } else {
                    match crate::sse::get_u64(body, "mib"@) {
                        Some(n) => Some(
                            "Sentinel: preempted by "@ + by + ", which needs "@ + dec(n as nat)
                                + " MiB — stopping the engine (re-run the job when it is done)"@,
                        ),
                        None => Some(
                            "Sentinel: preempted by "@ + by
                                + " — stopping the engine (re-run the job when it is done)"@,
                        ),
                    }
                }
            } else {
                None
            }
        },
        _ => None,
    }
}

fn number_under(v: &Json, key: &str) -> (r: Option<u64>)
    ensures
        r == crate::sse::get_u64(v@, key@),
{
    match v.get(key) {
        Some(x) => x.as_u64(),
        None => None,
    }
}

/// Whether an event tells a serving engine to stop, and the line to show.
pub fn stop_reason(event: &Json, client: &str) -> (r: Option<String>)
    ensures
        opt_string(r) == stop_line(event@, client@),
{
    proof {
        lemma_view(*event);
    }
    let m = match event {
        Json::Object(m) => m,
        _ => {
            return None;
        },
    };
    if m.len() == 0 {
        return None;
    }
    assert(members(m@)[0] == (m@[0].0@, m@[0].1@));
    let key = m[0].0.as_str();
    let body = &m[0].1;
    if str_eq(key, "VramTight") {
        let level = match body.get_str("level") {
            Some(l) => l.to_owned(),
            None => String::new(),
        };
        if !str_eq(string_of(&to_lowered(level.as_str())).as_str(), "red") {
            return None;
        }
        return match number_under(body, "free_mib") {
            Some(f) => Some(
                "Sentinel: VRAM is Red (".to_owned().concat(dec_u64(f).as_str()).concat(
                    " MiB free) — stopping the engine so the card recovers",
                ),
            ),
            None => Some("Sentinel: VRAM is Red — stopping the engine so the card recovers".to_owned()),
        };
    }
    if str_eq(key, "Preempt") {
        if let Some(t) = body.get_str("client") {
            if !str_eq(t, client) {
                return None;
            }
        }
        let by = match body.get_str("by") {
            Some(b) => b.to_owned(),
            None => "another client".to_owned(),
        };
        return match number_under(body, "mib") {
            Some(n) => Some(
                "Sentinel: preempted by ".to_owned().concat(by.as_str()).concat(", which needs ").concat(
                    dec_u64(n).as_str(),
                ).concat(" MiB — stopping the engine (re-run the job when it is done)"),
            ),
            None => Some(
                "Sentinel: preempted by ".to_owned().concat(by.as_str()).concat(
                    " — stopping the engine (re-run the job when it is done)",
                ),
            ),
        };
    }
    None
}

/// A reply with a `Reserved` in it decides by what is granted there, and hands on what it says of
/// the memory and why.
pub proof fn law_the_guardian_decides(
    m: Seq<(Seq<char>, JsonV)>,
    o: Seq<(Seq<char>, JsonV)>,
    granted: bool,
    free: u64,
    reason: Seq<char>,
)
    requires
        member(m, "Reserved"@) == Some(JsonV::Object(o)),
        member(o, "granted"@) == Some(JsonV::Bool(granted)),
        member(o, "free_mib"@) == Some(JsonV::Number(NumberV::PosInt(free))),
        member(o, "reason"@) == Some(JsonV::Str(reason)),
        member(o, "reserved_mib"@) is None,
        member(o, "ram_free_mib"@) is None,
        member(o, "ram_reserved_mib"@) is None,
        member(o, "expires_in_secs"@) is None,
        member(o, "blockers"@) is None,
    ensures
        granted ==> (decided(Some(JsonV::Object(m))) matches DecisionV::Granted(r) && r.free_mib == Some(free)
            && r.reason == Some(reason)),
        !granted ==> (decided(Some(JsonV::Object(m))) matches DecisionV::Refused(r) && r.free_mib == Some(free)
            && r.reason == Some(reason) && r.blockers is None),
{
}

/// Every blocker that a reply lists is handed on, in its order.
pub proof fn law_every_blocker_is_read(a: Seq<JsonV>, n: nat, i: int)
    requires
        n <= a.len(),
        0 <= i < n,
        blockers_of(a, n) is Some,
    ensures
        blockers_of(a, n)->Some_0.len() == n,
        blocker_of(a[i]) == Some(blockers_of(a, n)->Some_0[i]),
    decreases n,
{
    reveal_with_fuel(blockers_of, 2);
    if n > 1 {
        law_every_blocker_is_read(
            a,
            (n - 1) as nat,
            if i < n - 1 {
                i
            } else {
                0
            },
        );
    }
}

/// A refusal tells what was asked for, the reason and each of the blockers.
#[verifier::rlimit(40)]
pub proof fn law_a_refusal_tells_who_holds_the_memory(vram_mib: u64, ram_mib: u64, r: ReservedV, i: int)
    requires
        r.blockers matches Some(b) && 0 <= i < b.len(),
    ensures
        holds(refusal(vram_mib, ram_mib, r), r.blockers->Some_0[i].line()),
        r.reason matches Some(w) ==> holds(refusal(vram_mib, ram_mib, r), w),
        holds(refusal(vram_mib, ram_mib, r), dec(vram_mib as nat) + " MiB VRAM + "@ + dec(ram_mib as nat) + " MiB RAM"@),
{
    let b = r.blockers->Some_0;
    let t = refusal(vram_mib, ram_mib, r);
    let h0 = "Sentinel refused the engine: asked for "@;
    let x = dec(vram_mib as nat) + " MiB VRAM + "@ + dec(ram_mib as nat) + " MiB RAM"@;
    let free = match r.free_mib {
        Some(f) => ", "@ + dec(f as nat) + " MiB VRAM free"@,
        None => ", free VRAM unknown"@,
    };
    let ram = part_number(", "@, r.ram_free_mib, " MiB RAM free"@);
    let why = part_text("\n  reason: "@, r.reason);
    let way = "\nsay 'pause batch jobs' to Dexter or stop the holder, then run this again (or pass --force)."@;
    let head = h0 + dec(vram_mib as nat) + " MiB VRAM + "@ + dec(ram_mib as nat) + " MiB RAM"@ + free + ram + "."@;
    assert(t == head + why + holders(r.blockers) + way);
    assert(t.subrange(h0.len() as int, h0.len() as int + x.len()) =~= x);
    assert(at(t, h0.len() as int, x));
    if let Some(w) = r.reason {
        let k = head.len() as int + "\n  reason: "@.len() as int;
        assert(t.subrange(k, k + w.len()) =~= w);
        assert(at(t, k, w));
    }
    let l = b[i].line();
    let p = lemma_blocker_is_told(b, b.len(), i);
    let k = head.len() as int + why.len() as int + "\n  holding it:"@.len() as int + p;
    let lines = blocker_lines(b, b.len());
    assert(holders(r.blockers) == "\n  holding it:"@ + lines);
    assert(t.subrange(k, k + l.len()) =~= lines.subrange(p, p + l.len()));
    assert(at(t, k, l));
}

proof fn lemma_blocker_is_told(b: Seq<BlockerV>, n: nat, i: int) -> (p: int)
    requires
        0 <= i < n <= b.len(),
    ensures
        at(blocker_lines(b, n), p, b[i].line()),
    decreases n,
{
    let r = blocker_lines(b, n);
    let q = blocker_lines(b, (n - 1) as nat);
    let l = b[i].line();
    if i == n - 1 {
        let p = q.len() as int + "\n    "@.len() as int;
        assert(r.subrange(p, p + l.len()) =~= l);
        p
    } else {
        let p = lemma_blocker_is_told(b, (n - 1) as nat, i);
        assert(r.subrange(p, p + l.len()) =~= q.subrange(p, p + l.len()));
        p
    }
}

/// Red memory stops the engine, in any case of its letters, and no other level does; a
/// preemption stops it where it is meant for this client or for nobody by name.
pub proof fn law_what_stops_the_engine(body: JsonV, client: Seq<char>)
    ensures
        body.get_str("level"@) matches Some(l) ==> (stop_line(
            JsonV::Object(seq![("VramTight"@, body)]),
            client,
        ) is Some <==> alike(l, "red"@)),
        body.get_str("level"@) is None ==> stop_line(JsonV::Object(seq![("VramTight"@, body)]), client) is None,
        stop_line(JsonV::Object(seq![("Preempt"@, body)]), client) is Some <==> (body.get_str("client"@) is None
            || body.get_str("client"@) == Some(client)),
        forall|key: Seq<char>|
            key != "VramTight"@ && key != "Preempt"@ ==> #[trigger] stop_line(
                JsonV::Object(seq![(key, body)]),
                client,
            ) is None,
        body.get_str("by"@) matches Some(by) ==> (stop_line(JsonV::Object(seq![("Preempt"@, body)]), client) matches Some(t)
            ==> holds(t, by)),
{
    reveal_strlit("VramTight");
    reveal_strlit("Preempt");
    reveal_strlit("red");
    assert("VramTight"@.len() == 9 && "Preempt"@.len() == 7);
    assert(lowered("red"@) =~= "red"@);
    assert(lowered(Seq::<char>::empty()).len() == 0);
    if let Some(by) = body.get_str("by"@) {
        if let Some(t) = stop_line(JsonV::Object(seq![("Preempt"@, body)]), client) {
            let k = "Sentinel: preempted by "@.len() as int;
            assert(t.subrange(k, k + by.len()) =~= by);
            assert(at(t, k, by));
        }
    }
}

/// An answer that does not say that anything is granted grants nothing.
pub proof fn law_nothing_is_granted_unsaid(m: Seq<(Seq<char>, JsonV)>, o: Seq<(Seq<char>, JsonV)>)
    requires
        member(m, "Reserved"@) == Some(JsonV::Object(o)),
        member(o, "granted"@) is None,
    ensures
        !(decided(Some(JsonV::Object(m))) is Granted),
        !acknowledges(None),
        acknowledges(Some(JsonV::Str("Ok"@))),
        acknowledges(Some(JsonV::Object(m))) <==> member(m, "Registered"@) is Some,
{
}

} // verus!
