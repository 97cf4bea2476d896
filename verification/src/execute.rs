//! Running what the model asks for: which calls are run and how, in what order their
//! results are handed back, and the checks that follow an edit.

use crate::agent::{Agent, AgentV, OutputV, ToolOutput, answer_message, result_message, results_view};
use crate::client::{ChatRequest, RequestV};
use crate::config::{Profile, ProfileV, check_lists};
use crate::context::{ContextStore, ContextV, compacted, counted, cut_at, map_part, values};
use crate::events::{AgentEvent, AgentEventV};
use crate::json::{Json, JsonV, jsons, member, members, text_of, text_value};
use crate::message::{Message, ToolCall, ToolCallV, calls_view, object, opt_string};
use crate::pathname::{base_name, file_name};
use crate::prompt::{SUMMARIZE, summarize_prompt};
use crate::registry::{
    ToolRegistry, ToolSpecV, arguments_error, call_error, law_only_known_tools_are_called, names_of,
    sorted, tool_from, validate_against,
};
use crate::server::last_of;
use crate::task::TaskClass;
use crate::text::{
    at, begins, char_lists, chars_of, dec, dec_u64, ends, holds, join, joined,
    law_every_occurrence_is_replaced, lemma_find_from, lines, lines_of, list_contains, replace,
    replace_chars, replaced, string_of, strings, trim_str, trimmed, with_char,
};
use crate::truncate::{OutputBudget, apply, cuts, fits, shortened};
use vstd::prelude::*;
use vstd::string::*;
use vstd::utf8::encode_utf8;

verus! {

// ---------------------------------------------------------------- calls

/// What is done with a call.
#[derive(Debug)]
pub enum Triage {
    /// It is not run, and this is its result.
    Refuse(String),
    /// The user is asked first.
    Ask,
    /// It is run; one that only reads beside others of its sort.
    Run { beside_others: bool },
}

pub enum TriageV {
    Refuse(Seq<char>),
    Ask,
    Run(bool),
}

impl View for Triage {
    type V = TriageV;

    open spec fn view(&self) -> TriageV {
        match self {
            Triage::Refuse(s) => TriageV::Refuse(s@),
            Triage::Ask => TriageV::Ask,
            Triage::Run { beside_others } => TriageV::Run(*beside_others),
        }
    }
}

/// What is done with a call: one of an unknown tool or with wrong arguments is refused; one
/// that needs it is asked for; any other is run.
pub open spec fn triaged(tools: Seq<ToolSpecV>, c: ToolCallV, read_only: bool, prompts: bool) -> TriageV {
    match tool_from(tools, c.name, 0) {
        None => TriageV::Refuse(
            "unknown tool `"@ + c.name + "`; available: "@ + joined(names_of(tools), ", "@),
        ),
        Some(t) => match arguments_error(t.schema, c.arguments, ""@) {
            Some(e) => TriageV::Refuse(
                e.message() + ". Schema for `"@ + c.name + "`: "@ + text_of(t.schema),
            ),
            None => if prompts {
                TriageV::Ask
            } else {
                TriageV::Run(read_only)
            },
        },
    }
}

pub const DENIED: &'static str =
    "Denied by user. Do not retry this exact action; ask the user or choose another approach.";

/// What is done with a call. `prompts` says whether the user is to be asked for it.
pub fn triage(registry: &ToolRegistry, call: &ToolCall, read_only: bool, prompts: bool) -> (r: Triage)
    ensures
        r@ == triaged(registry@.tools, call@, read_only, prompts),
{
    let t = match registry.get(call.name.as_str()) {
        None => {
            return Triage::Refuse(
                "unknown tool `".to_owned().concat(call.name.as_str()).concat("`; available: ").concat(
                    join(&registry.names(), ", ").as_str(),
                ),
            );
        },
        Some(t) => t,
    };
    if let Err(e) = validate_against(&t.schema, &call.arguments, "") {
        return Triage::Refuse(
            e.to_string().concat(". Schema for `").concat(call.name.as_str()).concat("`: ").concat(
                t.schema.to_text().as_str(),
            ),
        );
    }
    if prompts {
        Triage::Ask
    } else {
        Triage::Run { beside_others: read_only }
    }
}

/// What is done with a call once the user has answered.
pub fn after_answer(allowed: bool, read_only: bool) -> (r: Triage)
    ensures
        r@ == if allowed {
            TriageV::Run(read_only)
        } else {
            TriageV::Refuse(DENIED@)
        },
{
    if allowed {
        Triage::Run { beside_others: read_only }
    } else {
        Triage::Refuse(DENIED.to_owned())
    }
}

/// The results of the calls of an answer, as they come in.
#[derive(Debug)]
pub struct Batch {
    slots: Vec<Option<(ToolCall, ToolOutput)>>,
}

pub open spec fn slot_view(s: Option<(ToolCall, ToolOutput)>) -> Option<(ToolCallV, OutputV)> {
    match s {
        Some(p) => Some((p.0@, p.1@)),
        None => None,
    }
}

/// The results that are there among the first `n` places, in order.
pub open spec fn present(s: Seq<Option<(ToolCallV, OutputV)>>, n: nat) -> Seq<(ToolCallV, OutputV)>
    decreases n,
{
    if n == 0 || n > s.len() {
        Seq::empty()
    } else {
        match s[n - 1] {
            Some(p) => present(s, (n - 1) as nat).push(p),
            None => present(s, (n - 1) as nat),
        }
    }
}

impl Batch {
    pub closed spec fn places(self) -> Seq<Option<(ToolCallV, OutputV)>> {
        Seq::new(self.slots@.len(), |i: int| slot_view(self.slots@[i]))
    }

    /// Room for the results of `n` calls.
    pub fn new(n: usize) -> (r: Batch)
        ensures
            r.places() == Seq::new(n as nat, |i: int| None::<(ToolCallV, OutputV)>),
    {
        let mut slots: Vec<Option<(ToolCall, ToolOutput)>> = Vec::new();
        let mut i: usize = 0;
        while i < n
            invariant
                i <= n,
                slots@.len() == i,
                forall|k: int| 0 <= k < i ==> (#[trigger] slots@[k]) is None,
            decreases n - i,
        {
            slots.push(None);
            i += 1;
        }
        let r = Batch { slots };
        assert(r.places() =~= Seq::new(n as nat, |i: int| None::<(ToolCallV, OutputV)>));
        r
    }

    /// Takes the result of the call at a place.
    pub fn put(&mut self, i: usize, call: ToolCall, out: ToolOutput)
        requires
            i < old(self).places().len(),
        ensures
            final(self).places() == old(self).places().update(i as int, Some((call@, out@))),
    {
        self.slots.set(i, Some((call, out)));
        assert(self.places() =~= old(self).places().update(i as int, Some((call@, out@))));
    }

    /// The results, in the order of the calls.
    pub fn finish(self) -> (r: Vec<(ToolCall, ToolOutput)>)
        ensures
            results_view(r@) == present(self.places(), self.places().len()),
    {
        let ghost pv = self.places();
        let mut out: Vec<(ToolCall, ToolOutput)> = Vec::new();
        assert(results_view(out@) =~= Seq::<(ToolCallV, OutputV)>::empty());
        let slots = self.slots;
        for s in it: slots
            invariant
                it.seq() == slots@,
                pv == Seq::new(slots@.len(), |i: int| slot_view(slots@[i])),
                results_view(out@) == present(pv, it.index() as nat),
        {
            let ghost k = it.index() as int;
            assert(pv[k] == slot_view(s));
            if let Some(p) = s {
                let ghost b = out@;
                out.push(p);
                assert(results_view(out@) =~= results_view(b).push((p.0@, p.1@)));
            }
        }
        out
    }
}

/// Once every call has a result, the results stand in the order of the calls, whatever
/// the order in which they came in.
pub proof fn law_results_in_the_order_of_calls(s: Seq<Option<(ToolCallV, OutputV)>>, n: nat)
    requires
        n <= s.len(),
        forall|i: int| 0 <= i < s.len() ==> (#[trigger] s[i]) is Some,
    ensures
        present(s, n).len() == n,
        forall|i: int| 0 <= i < n ==> #[trigger] present(s, n)[i] == s[i]->Some_0,
    decreases n,
{
    if n > 0 {
        law_results_in_the_order_of_calls(s, (n - 1) as nat);
    }
}

/// How a run of a tool ended.
#[derive(Debug)]
pub enum ToolEnd {
    Output(ToolOutput),
    Cancelled,
    Failed(String),
    TimedOut,
}

/// What a tool gave, whatever way it ended.
pub open spec fn end_output(e: ToolEnd) -> OutputV {
    let failed = |text: Seq<char>| OutputV { text, is_error: true, edits: Seq::empty(), truncated: None };
    match e {
        ToolEnd::Output(o) => o@,
        ToolEnd::Cancelled => failed("cancelled"@),
        ToolEnd::Failed(m) => failed(m@),
        ToolEnd::TimedOut => failed("tool timed out after 600s"@),
    }
}

/// The output of a tool within its budget. `spill` is the file that is to hold the whole
/// text where it is shortened; the text is handed back for it.
pub fn finish_output(end: ToolEnd, budget: &OutputBudget, spill: &str) -> (r: (ToolOutput, Option<String>))
    ensures
        ({
            let o = end_output(end);
            if fits(o.text, *budget) {
                r.0@ == o && r.1 is None
            } else {
                &&& r.0@ == (OutputV {
                    text: shortened(o.text, *budget, spill@),
                    truncated: Some(cuts(o.text, *budget).told(spill@)),
                    ..o
                })
                &&& opt_string(r.1) == Some(o.text)
            }
        }),
{
    let mut out = match end {
        ToolEnd::Output(o) => o,
        ToolEnd::Cancelled => ToolOutput::error("cancelled"),
        ToolEnd::Failed(m) => ToolOutput::error(m.as_str()),
        ToolEnd::TimedOut => ToolOutput::error("tool timed out after 600s"),
    };
    let t = apply(out.text.as_str(), budget, spill);
    match t.info {
        Some(i) => {
            let whole = out.text.clone();
            out.text = t.text;
            out.truncated = Some(i);
            (out, Some(whole))
        },
        None => (out, None),
    }
}

/// The name of the file for a whole output.
pub fn spill_stem(turn: u32, name: &str, id: &str) -> (r: String)
    ensures
        r@ == "t"@ + dec(turn as nat) + "-"@ + name@ + "-"@ + id@,
{
    "t".to_owned().concat(dec_u64(turn as u64).as_str()).concat("-").concat(name).concat("-").concat(id)
}

// ---------------------------------------------------------------- checks after edits

pub open spec fn low_byte(b: u8) -> u8 {
    if 65 <= b <= 90 {
        (b + 32) as u8
    } else {
        b
    }
}

/// Whether a name is as a pattern says: `*` stands for any text, `?` for any byte, and
/// letters count whatever their case.
pub open spec fn glob(p: Seq<u8>, s: Seq<u8>, i: int, j: int) -> bool
    decreases p.len() - i + s.len() - j,
{
    if i < 0 || j < 0 || i > p.len() || j > s.len() {
        false
    } else if i == p.len() {
        j == s.len()
    } else if p[i] == 42 {
        glob(p, s, i + 1, j) || (j < s.len() && glob(p, s, i, j + 1))
    } else {
        j < s.len() && (p[i] == 63 || low_byte(p[i]) == low_byte(s[j])) && glob(p, s, i + 1, j + 1)
    }
}

fn to_low_byte(b: u8) -> (r: u8)
    ensures
        r == low_byte(b),
{
    if 65 <= b && b <= 90 {
        b + 32
    } else {
        b
    }
}

fn glob_from(p: &[u8], s: &[u8], i: usize, j: usize) -> (r: bool)
    requires
        i <= p.len(),
        j <= s.len(),
    ensures
        r == glob(p@, s@, i as int, j as int),
    decreases p.len() - i + s.len() - j,
{
    if i == p.len() {
        j == s.len()
    } else if p[i] == 42 {
        glob_from(p, s, i + 1, j) || (j < s.len() && glob_from(p, s, i, j + 1))
    } else {
        j < s.len() && (p[i] == 63 || to_low_byte(p[i]) == to_low_byte(s[j])) && glob_from(p, s, i + 1, j + 1)
    }
}

/// Whether the name of a file is as a pattern says.
pub fn glob_match(pat: &str, name: &str) -> (r: bool)
    ensures
        r == glob(encode_utf8(pat@), encode_utf8(name@), 0, 0),
{
    glob_from(pat.as_bytes(), name.as_bytes(), 0, 0)
}

proof fn lemma_star_takes_all(p: Seq<u8>, s: Seq<u8>, i: int, j: int)
    requires
        i + 1 == p.len(),
        0 <= i,
        p[i] == 42,
        0 <= j <= s.len(),
    ensures
        glob(p, s, i, j),
    decreases s.len() - j,
{
    if j < s.len() {
        lemma_star_takes_all(p, s, i, j + 1);
    } else {
        assert(glob(p, s, i + 1, j));
    }
}

/// The pattern of a single star is every name.
pub proof fn law_star_matches_everything(s: Seq<u8>)
    ensures
        glob(seq![42u8], s, 0, 0),
{
    lemma_star_takes_all(seq![42u8], s, 0, 0);
}

proof fn lemma_glob_itself(s: Seq<u8>, i: int)
    requires
        0 <= i <= s.len(),
    ensures
        glob(s, s, i, i),
    decreases s.len() - i,
{
    if i < s.len() {
        lemma_glob_itself(s, i + 1);
        if s[i] == 42 {
            assert(glob(s, s, i + 1, i + 1));
            lemma_star_skips(s, s, i, i + 1);
        }
    }
}

proof fn lemma_star_skips(p: Seq<u8>, s: Seq<u8>, i: int, j: int)
    requires
        0 <= i < p.len(),
        p[i] == 42,
        1 <= j <= s.len(),
        glob(p, s, i + 1, j),
    ensures
        glob(p, s, i, j - 1),
{
    assert(glob(p, s, i, j));
}

/// Every name is as the pattern of the same text says.
pub proof fn law_name_matches_itself(s: Seq<u8>)
    ensures
        glob(s, s, 0, 0),
{
    lemma_glob_itself(s, 0);
}

/// A command for a file.
pub open spec fn command_for(command: Seq<char>, path: Seq<char>) -> Seq<char> {
    replaced(command, "{file}"@, with_char(path, seq!['\\'], '/'))
}

/// The commands with the first `n` of another list put behind them, each once.
pub open spec fn with_commands(cs: Seq<Seq<char>>, more: Seq<Seq<char>>, path: Seq<char>, n: nat) -> Seq<Seq<char>>
    decreases n,
{
    if n == 0 || n > more.len() {
        cs
    } else {
        let p = with_commands(cs, more, path, (n - 1) as nat);
        let c = command_for(more[n - 1], path);
        if p.contains(c) {
            p
        } else {
            p.push(c)
        }
    }
}

/// The commands with those of the first `n` patterns that a file is of.
pub open spec fn with_checks(
    cs: Seq<Seq<char>>,
    checks: Seq<(Seq<char>, Seq<Seq<char>>)>,
    path: Seq<char>,
    n: nat,
    windows: bool,
) -> Seq<Seq<char>>
    decreases n,
{
    if n == 0 || n > checks.len() {
        cs
    } else {
        let p = with_checks(cs, checks, path, (n - 1) as nat, windows);
        if glob(encode_utf8(checks[n - 1].0), encode_utf8(base_name(path, windows)), 0, 0) {
            with_commands(p, checks[n - 1].1, path, checks[n - 1].1.len())
        } else {
            p
        }
    }
}

/// The commands that check the first `n` edited files, each once.
pub open spec fn checks_of(
    edits: Seq<Seq<char>>,
    checks: Seq<(Seq<char>, Seq<Seq<char>>)>,
    n: nat,
    windows: bool,
) -> Seq<Seq<char>>
    decreases n,
{
    if n == 0 || n > edits.len() {
        Seq::empty()
    } else {
        with_checks(checks_of(edits, checks, (n - 1) as nat, windows), checks, edits[n - 1], checks.len(), windows)
    }
}

fn add_commands(cs: &mut Vec<String>, more: &Vec<String>, path: &str)
    ensures
        strings(final(cs)@) == with_commands(strings(old(cs)@), strings(more@), path@, more@.len()),
{
    let ghost start = strings(cs@);
    let ghost mv = strings(more@);
    let back = vec!['\\'];
    assert(back@ =~= seq!['\\']);
    let file = string_of(&replace_chars(&chars_of(path), &back, '/'));
    let mut i: usize = 0;
    while i < more.len()
        invariant
            i <= more.len(),
            start == strings(old(cs)@),
            mv == strings(more@),
            file@ == with_char(path@, seq!['\\'], '/'),
            strings(cs@) == with_commands(start, mv, path@, i as nat),
        decreases more.len() - i,
    {
        assert(mv[i as int] == more@[i as int]@);
        proof {
            reveal_strlit("{file}");
        }
        let c = string_of(&replace(&chars_of(more[i].as_str()), "{file}", file.as_str()));
        if !list_contains(cs, c.as_str()) {
            let ghost b = cs@;
            cs.push(c);
            assert(strings(cs@) =~= strings(b).push(c@));
        }
        i += 1;
    }
}

fn add_checks(cs: &mut Vec<String>, checks: &Vec<(String, Vec<String>)>, path: &str, windows: bool)
    ensures
        strings(final(cs)@) == with_checks(strings(old(cs)@), check_lists(checks@), path@, checks@.len(), windows),
{
    let ghost start = strings(cs@);
    let ghost kv = check_lists(checks@);
    let name = file_name(path, windows);
    let mut i: usize = 0;
    while i < checks.len()
        invariant
            i <= checks.len(),
            start == strings(old(cs)@),
            kv == check_lists(checks@),
            name@ == base_name(path@, windows),
            strings(cs@) == with_checks(start, kv, path@, i as nat, windows),
        decreases checks.len() - i,
    {
        assert(kv[i as int] == (checks@[i as int].0@, strings(checks@[i as int].1@)));
        if glob_match(checks[i].0.as_str(), name.as_str()) {
            add_commands(cs, &checks[i].1, path);
        }
        i += 1;
    }
}

/// The commands that check edited files.
pub fn check_commands(edits: &Vec<String>, checks: &Vec<(String, Vec<String>)>, windows: bool) -> (r: Vec<String>)
    ensures
        strings(r@) == checks_of(strings(edits@), check_lists(checks@), edits@.len(), windows),
{
    let mut cs: Vec<String> = Vec::new();
    let ghost ev = strings(edits@);
    let mut i: usize = 0;
    assert(strings(cs@) =~= Seq::<Seq<char>>::empty());
    while i < edits.len()
        invariant
            i <= edits.len(),
            ev == strings(edits@),
            strings(cs@) == checks_of(ev, check_lists(checks@), i as nat, windows),
        decreases edits.len() - i,
    {
        assert(ev[i as int] == edits@[i as int]@);
        add_checks(&mut cs, checks, edits[i].as_str(), windows);
        i += 1;
    }
    cs
}

pub open spec fn no_duplicates(v: Seq<Seq<char>>) -> bool {
    forall|i: int, j: int| 0 <= i < j < v.len() ==> #[trigger] v[i] != #[trigger] v[j]
}

proof fn lemma_commands_distinct(cs: Seq<Seq<char>>, more: Seq<Seq<char>>, path: Seq<char>, n: nat)
    requires
        no_duplicates(cs),
    ensures
        no_duplicates(with_commands(cs, more, path, n)),
    decreases n,
{
    if 0 < n <= more.len() {
        lemma_commands_distinct(cs, more, path, (n - 1) as nat);
        let p = with_commands(cs, more, path, (n - 1) as nat);
        let c = command_for(more[n - 1], path);
        if !p.contains(c) {
            let r = p.push(c);
            assert forall|i: int, j: int| 0 <= i < j < r.len() implies #[trigger] r[i] != #[trigger] r[j] by {
                if j == p.len() {
                    assert(p.contains(p[i]));
                } else {
                    assert(p[i] != p[j]);
                }
            }
        }
    }
}

proof fn lemma_checks_distinct(
    cs: Seq<Seq<char>>,
    checks: Seq<(Seq<char>, Seq<Seq<char>>)>,
    path: Seq<char>,
    n: nat,
    windows: bool,
)
    requires
        no_duplicates(cs),
    ensures
        no_duplicates(with_checks(cs, checks, path, n, windows)),
    decreases n,
{
    if 0 < n <= checks.len() {
        lemma_checks_distinct(cs, checks, path, (n - 1) as nat, windows);
        lemma_commands_distinct(
            with_checks(cs, checks, path, (n - 1) as nat, windows),
            checks[n - 1].1,
            path,
            checks[n - 1].1.len(),
        );
    }
}

/// However many files were edited, no command is run twice.
pub proof fn law_no_check_runs_twice(
    edits: Seq<Seq<char>>,
    checks: Seq<(Seq<char>, Seq<Seq<char>>)>,
    n: nat,
    windows: bool,
)
    ensures
        no_duplicates(checks_of(edits, checks, n, windows)),
    decreases n,
{
    if 0 < n <= edits.len() {
        law_no_check_runs_twice(edits, checks, (n - 1) as nat, windows);
        lemma_checks_distinct(
            checks_of(edits, checks, (n - 1) as nat, windows),
            checks,
            edits[n - 1],
            checks.len(),
            windows,
        );
    }
}

/// How many of the commands are run.
pub const MAX_CHECKS: usize = 3;

/// A command that was run.
#[derive(Debug)]
pub struct CheckRun {
    pub command: String,
    pub ok: bool,
    pub output: String,
}

pub open spec fn run_text(r: CheckRun) -> Seq<char> {
    "$ "@ + r.command@ + "\n["@ + (if r.ok {
        "ok"@
    } else {
        "FAILED"@
    }) + "]\n"@ + joined(last_of(lines_of(r.output@), 80), "\n"@) + "\n"@
}

/// The report on the first `n` runs.
pub open spec fn report_text(rs: Seq<CheckRun>, n: nat) -> Seq<char>
    decreases n,
{
    if n == 0 || n > rs.len() {
        Seq::empty()
    } else {
        report_text(rs, (n - 1) as nat) + run_text(rs[n - 1])
    }
}

pub open spec fn some_failed(rs: Seq<CheckRun>) -> bool {
    exists|i: int| 0 <= i < rs.len() && !(#[trigger] rs[i]).ok
}

/// What the model is told of the checks.
pub open spec fn verification_text(rs: Seq<CheckRun>) -> Seq<char> {
    (if some_failed(rs) {
        "Automatic verification after your edits FAILED. Fix these before finishing:\n"@
    } else {
        "Automatic verification after your edits passed.\n"@
    }) + report_text(rs, rs.len())
}

/// The call under which the checks stand in the conversation.
pub open spec fn verification_call(turn: u32, commands: Seq<Seq<char>>) -> ToolCallV {
    ToolCallV {
        id: "verify_"@ + dec(turn as nat),
        name: "shell"@,
        arguments: JsonV::Object(
            seq![("command"@, JsonV::Str(joined(commands, " ; "@))), ("_auto_verify"@, JsonV::Bool(true))],
        ),
    }
}

fn tail_text(output: &str) -> (r: String)
    ensures
        r@ == joined(last_of(lines_of(output@), 80), "\n"@),
{
    let ls = lines(&chars_of(output));
    let ghost lv = lines_of(output@);
    let from: usize = if ls.len() <= 80 {
        0
    } else {
        ls.len() - 80
    };
    let mut out: Vec<String> = Vec::new();
    let mut i: usize = from;
    while i < ls.len()
        invariant
            from <= i <= ls.len(),
            lv == char_lists(ls@),
            strings(out@) == lv.subrange(from as int, i as int),
        decreases ls.len() - i,
    {
        let ghost b = out@;
        let s = string_of(&ls[i]);
        out.push(s);
        assert(strings(out@) =~= strings(b).push(lv[i as int]));
        assert(lv.subrange(from as int, i + 1) =~= lv.subrange(from as int, i as int).push(lv[i as int]));
        i += 1;
    }
    assert(strings(out@) =~= last_of(lv, 80));
    join(&out, "\n")
}

fn show_run(r: &CheckRun) -> (s: String)
    ensures
        s@ == run_text(*r),
{
    let word = if r.ok {
        "ok"
    } else {
        "FAILED"
    };
    "$ ".to_owned().concat(r.command.as_str()).concat("\n[").concat(word).concat("]\n").concat(
        tail_text(r.output.as_str()).as_str(),
    ).concat("\n")
}

/// What the model is told of the checks, and whether one failed.
pub fn verification_report(rs: &Vec<CheckRun>) -> (r: (String, bool))
    ensures
        r.0@ == verification_text(rs@),
        r.1 == some_failed(rs@),
{
    let mut text = String::new();
    let mut failed = false;
    let mut i: usize = 0;
    assert(text@ =~= report_text(rs@, 0));
    while i < rs.len()
        invariant
            i <= rs.len(),
            text@ == report_text(rs@, i as nat),
            failed == exists|k: int| 0 <= k < i && !(#[trigger] rs@[k]).ok,
        decreases rs.len() - i,
    {
        text = text.concat(show_run(&rs[i]).as_str());
        if !rs[i].ok {
            failed = true;
        }
        i += 1;
    }
    let head = if failed {
        "Automatic verification after your edits FAILED. Fix these before finishing:\n".to_owned()
    } else {
        "Automatic verification after your edits passed.\n".to_owned()
    };
    (head.concat(text.as_str()), failed)
}

/// Adds the checks to the conversation as a call and its result.
pub fn add_verification(agent: &mut Agent, commands: &Vec<String>, runs: &Vec<CheckRun>)
    requires
        old(agent).wf(),
    ensures
        final(agent).wf(),
        ({
            let turn = old(agent)@.guard.turn;
            let call = verification_call(turn, strings(commands@));
            final(agent)@ == old(agent)@.said(answer_message(Seq::empty(), seq![call], Seq::empty(), turn)).said(
                result_message(call.id, "shell"@, verification_text(runs@), some_failed(runs@), None, turn),
            )
        }),
{
    let turn = agent.turn();
    let m = vec![
        ("command".to_owned(), text_value(join(commands, " ; ").as_str())),
        ("_auto_verify".to_owned(), Json::Bool(true)),
    ];
    let ghost call_v = verification_call(turn, strings(commands@));
    assert(members(m@) =~= call_v.arguments->Object_0);
    let id = "verify_".to_owned().concat(dec_u64(turn as u64).as_str());
    let call = ToolCall { id: id.clone(), name: "shell".to_owned(), arguments: object(m) };
    let calls = vec![call];
    assert(calls_view(calls@) =~= seq![call_v]);
    proof {
        reveal_strlit("");
        assert(""@ =~= Seq::<char>::empty());
    }
    let mut a = Message::assistant("", calls);
    a.meta.turn = turn;
    assert(a@ == answer_message(Seq::empty(), seq![call_v], Seq::empty(), turn));
    agent.ctx.push(a);
    let (text, failed) = verification_report(runs);
    let mut t = Message::tool(id.as_str(), "shell", text.as_str(), failed);
    t.meta.turn = turn;
    assert(t@ == result_message(id@, "shell"@, text@, failed, None, turn));
    agent.ctx.push(t);
}

/// The output of a command: what it printed, then what it complained of, on a line of its
/// own.
pub open spec fn merged_output(out: Seq<char>, err: Seq<char>) -> Seq<char> {
    if trimmed(err).len() == 0 {
        out
    } else if out.len() == 0 {
        err
    } else {
        out + "\n"@ + err
    }
}

pub fn merge_output(out: &str, err: &str) -> (r: String)
    ensures
        r@ == merged_output(out@, err@),
{
    if trim_str(err).as_str().is_empty() {
        out.to_owned()
    } else if out.is_empty() {
        err.to_owned()
    } else {
        out.to_owned().concat("\n").concat(err)
    }
}

// ---------------------------------------------------------------- compaction

/// The request for a summary of the conversation.
pub open spec fn summary_request(c: ContextV, p: ProfileV, max: u32) -> RequestV {
    let s = TaskClass::Summarize.sampling_of(p);
    let ask = JsonV::Object(
        seq![
            ("role"@, JsonV::Str("user"@)),
            ("content"@, JsonV::Str(SUMMARIZE@ + dec((max - 300) as nat) + " tokens. No preamble."@)),
        ],
    );
    RequestV {
        max_tokens: Some(max),
        temperature: s.temperature,
        top_p: s.top_p,
        top_k: s.top_k,
        presence_penalty: s.presence_penalty,
        ..RequestV::fresh(p.asked_model(), values(c.request()).push(ask))
    }.with_effort(TaskClass::Summarize.effort_of(p))
}

pub fn compaction_request(ctx: &ContextStore, profile: &Profile, max: u32) -> (r: ChatRequest)
    requires
        max >= 300,
    ensures
        r@ == summary_request(ctx@, profile@, max),
{
    let prompt = summarize_prompt(max - 300);
    let m = vec![("role".to_owned(), text_value("user")), ("content".to_owned(), text_value(prompt.as_str()))];
    let ghost ask = JsonV::Object(seq![("role"@, JsonV::Str("user"@)), ("content"@, JsonV::Str(prompt@))]);
    assert(members(m@) =~= ask->Object_0);
    let mut messages = ctx.to_request_messages();
    let ghost before = messages@;
    messages.push(object(m));
    assert(jsons(messages@) =~= jsons(before).push(ask));
    let s = TaskClass::Summarize.sampling(profile);
    let mut req = ChatRequest::new(profile.request_model().as_str(), messages);
    req.max_tokens = Some(max);
    req.temperature = s.temperature.clone();
    req.top_p = s.top_p.clone();
    req.top_k = s.top_k;
    req.presence_penalty = s.presence_penalty.clone();
    req.reasoning_effort(TaskClass::Summarize.effort(profile))
}

/// Takes a summary in the place of the older turns, and tells so.
pub fn take_summary(agent: &mut Agent, summary: &str, summary_tokens: u32, keep: usize) -> (r: AgentEvent)
    requires
        old(agent).wf(),
    ensures
        final(agent).wf(),
        final(agent)@ == (AgentV {
            ctx: ContextV {
                log: compacted(old(agent)@.ctx.log, summary@, keep as nat),
                summary_at: Some(
                    map_part(old(agent)@.ctx.log.take(cut_at(old(agent)@.ctx.log, keep as nat))).len(),
                ),
                compactions: counted(old(agent)@.ctx.compactions),
                last_prompt_total: None,
                ..old(agent)@.ctx
            },
            ..old(agent)@
        }),
        r@ == (AgentEventV::Compaction {
            messages_before: old(agent)@.ctx.log.len() as usize,
            messages_after: final(agent)@.ctx.log.len() as usize,
            summary_tokens,
        }),
{
    let rep = agent.ctx.compact(summary, keep);
    AgentEvent::Compaction {
        messages_before: rep.messages_before,
        messages_after: rep.messages_after,
        summary_tokens,
    }
}

/// A star stands for any text, so what is behind it may begin anywhere.
pub proof fn law_a_star_stands_for_any_text(p: Seq<u8>, s: Seq<u8>, i: int, j: int)
    requires
        0 <= i < p.len(),
        p[i] == 42,
        0 <= j <= s.len(),
    ensures
        glob(p, s, i, j) <==> exists|k: int| j <= k <= s.len() && #[trigger] glob(p, s, i + 1, k),
    decreases s.len() - j,
{
    if j < s.len() {
        law_a_star_stands_for_any_text(p, s, i, j + 1);
    }
    if glob(p, s, i + 1, j) {
        assert(j <= j <= s.len() && glob(p, s, i + 1, j));
    }
}

/// Two bytes count as the same letter.
pub open spec fn same_letter(a: u8, b: u8) -> bool {
    ||| a == b
    ||| 97 <= a <= 122 && b + 32 == a
    ||| 97 <= b <= 122 && a + 32 == b
}

/// Without a star a pattern stands for the names of its length that have its letters in their
/// places, whatever the case, and anything where it has a question mark.
pub proof fn law_letters_stand_for_themselves(p: Seq<u8>, s: Seq<u8>, i: int, j: int)
    requires
        0 <= i <= p.len(),
        0 <= j <= s.len(),
        forall|k: int| i <= k < p.len() ==> #[trigger] p[k] != 42,
    ensures
        glob(p, s, i, j) <==> p.len() - i == s.len() - j && forall|k: int|
            i <= k < p.len() ==> #[trigger] p[k] == 63 || same_letter(p[k], s[k - i + j]),
    decreases p.len() - i,
{
    if i < p.len() && j < s.len() {
        law_letters_stand_for_themselves(p, s, i + 1, j + 1);
        assert(low_byte(p[i]) == low_byte(s[j]) <==> same_letter(p[i], s[j]));
        if glob(p, s, i, j) {
            assert forall|k: int| i <= k < p.len() implies #[trigger] p[k] == 63 || same_letter(p[k], s[k - i + j]) by {
                if k > i {
                    assert(k - (i + 1) + (j + 1) == k - i + j);
                }
            }
        }
        if p.len() - i == s.len() - j && (forall|k: int|
            i <= k < p.len() ==> #[trigger] p[k] == 63 || same_letter(p[k], s[k - i + j])) {
            assert(p[i] == 63 || same_letter(p[i], s[i - i + j]));
            assert forall|k: int| i + 1 <= k < p.len() implies #[trigger] p[k] == 63 || same_letter(
                p[k],
                s[k - (i + 1) + (j + 1)],
            ) by {
                assert(k - (i + 1) + (j + 1) == k - i + j);
            }
        }
    }
}

/// A command checks a file: it is one of those of a pattern that the name of the file is as.
pub open spec fn checks_file(
    c: Seq<char>,
    path: Seq<char>,
    checks: Seq<(Seq<char>, Seq<Seq<char>>)>,
    k: int,
    windows: bool,
) -> bool {
    &&& glob(encode_utf8(checks[k].0), encode_utf8(base_name(path, windows)), 0, 0)
    &&& exists|j: int| 0 <= j < checks[k].1.len() && c == command_for(#[trigger] checks[k].1[j], path)
}

proof fn lemma_with_commands(cs: Seq<Seq<char>>, more: Seq<Seq<char>>, path: Seq<char>, n: nat)
    requires
        n <= more.len(),
    ensures
        forall|c: Seq<char>| #[trigger]
            with_commands(cs, more, path, n).contains(c) <==> cs.contains(c) || exists|j: int|
                0 <= j < n && c == command_for(#[trigger] more[j], path),
        cs.no_duplicates() ==> with_commands(cs, more, path, n).no_duplicates(),
    decreases n,
{
    if n > 0 {
        lemma_with_commands(cs, more, path, (n - 1) as nat);
        let p = with_commands(cs, more, path, (n - 1) as nat);
        let r = with_commands(cs, more, path, n);
        let x = command_for(more[n - 1], path);
        assert forall|c: Seq<char>| #[trigger] r.contains(c) <==> p.contains(c) || c == x by {
            if r.contains(c) && !p.contains(c) {
                let i = choose|i: int| 0 <= i < r.len() && r[i] == c;
                if i < p.len() {
                    assert(p[i] == c);
                }
            }
            if p.contains(c) {
                let i = choose|i: int| 0 <= i < p.len() && p[i] == c;
                assert(r[i] == c);
            }
            if c == x && !p.contains(x) {
                assert(r[p.len() as int] == x);
            }
        }
        assert forall|c: Seq<char>| #[trigger]
            r.contains(c) <==> cs.contains(c) || exists|j: int| 0 <= j < n && c == command_for(
                #[trigger] more[j],
                path,
            ) by {
            assert(p.contains(c) <==> cs.contains(c) || exists|j: int|
                0 <= j < n - 1 && c == command_for(#[trigger] more[j], path));
            if c == x {
                assert(c == command_for(more[n - 1], path));
            }
        }
    }
}

proof fn lemma_with_checks(
    cs: Seq<Seq<char>>,
    checks: Seq<(Seq<char>, Seq<Seq<char>>)>,
    path: Seq<char>,
    n: nat,
    windows: bool,
)
    requires
        n <= checks.len(),
    ensures
        forall|c: Seq<char>| #[trigger]
            with_checks(cs, checks, path, n, windows).contains(c) <==> cs.contains(c) || exists|k: int|
                0 <= k < n && #[trigger] checks_file(c, path, checks, k, windows),
        cs.no_duplicates() ==> with_checks(cs, checks, path, n, windows).no_duplicates(),
    decreases n,
{
    if n > 0 {
        lemma_with_checks(cs, checks, path, (n - 1) as nat, windows);
        let p = with_checks(cs, checks, path, (n - 1) as nat, windows);
        let r = with_checks(cs, checks, path, n, windows);
        lemma_with_commands(p, checks[n - 1].1, path, checks[n - 1].1.len());
        assert forall|c: Seq<char>| #[trigger]
            r.contains(c) <==> cs.contains(c) || exists|k: int|
                0 <= k < n && #[trigger] checks_file(c, path, checks, k, windows) by {
            assert(r.contains(c) <==> p.contains(c) || checks_file(c, path, checks, n - 1, windows));
            assert(p.contains(c) <==> cs.contains(c) || exists|k: int|
                0 <= k < n - 1 && #[trigger] checks_file(c, path, checks, k, windows));
        }
    }
}

/// Every command for a pattern that the name of an edited file is as is run, and no other; and
/// none is run twice.
pub proof fn law_edited_files_are_checked(
    edits: Seq<Seq<char>>,
    checks: Seq<(Seq<char>, Seq<Seq<char>>)>,
    n: nat,
    windows: bool,
)
    requires
        n <= edits.len(),
    ensures
        forall|c: Seq<char>| #[trigger]
            checks_of(edits, checks, n, windows).contains(c) <==> exists|e: int, k: int|
                0 <= e < n && 0 <= k < checks.len() && #[trigger] checks_file(c, edits[e], checks, k, windows),
        checks_of(edits, checks, n, windows).no_duplicates(),
    decreases n,
{
    if n > 0 {
        law_edited_files_are_checked(edits, checks, (n - 1) as nat, windows);
        let p = checks_of(edits, checks, (n - 1) as nat, windows);
        let r = checks_of(edits, checks, n, windows);
        lemma_with_checks(p, checks, edits[n - 1], checks.len(), windows);
        assert forall|c: Seq<char>| #[trigger]
            r.contains(c) <==> exists|e: int, k: int|
                0 <= e < n && 0 <= k < checks.len() && #[trigger] checks_file(c, edits[e], checks, k, windows) by {
            assert(r.contains(c) <==> p.contains(c) || exists|k: int|
                0 <= k < checks.len() && #[trigger] checks_file(c, edits[n - 1], checks, k, windows));
            assert(p.contains(c) <==> exists|e: int, k: int|
                0 <= e < n - 1 && 0 <= k < checks.len() && #[trigger] checks_file(c, edits[e], checks, k, windows));
        }
    }
}

/// The report tells of every run its command and whether it went well, and begins with whether
/// all of them did.
pub proof fn law_every_run_is_reported(rs: Seq<CheckRun>, i: int)
    requires
        0 <= i < rs.len(),
    ensures
        rs[i].ok ==> holds(verification_text(rs), "$ "@ + rs[i].command@ + "\n["@ + "ok"@ + "]\n"@),
        !rs[i].ok ==> holds(verification_text(rs), "$ "@ + rs[i].command@ + "\n["@ + "FAILED"@ + "]\n"@),
        !rs[i].ok ==> at(
            verification_text(rs),
            0,
            "Automatic verification after your edits FAILED. Fix these before finishing:\n"@,
        ),
        (forall|j: int| 0 <= j < rs.len() ==> (#[trigger] rs[j]).ok) ==> at(
            verification_text(rs),
            0,
            "Automatic verification after your edits passed.\n"@,
        ),
{
    let word = if rs[i].ok {
        "ok"@
    } else {
        "FAILED"@
    };
    let x = "$ "@ + rs[i].command@ + "\n["@ + word + "]\n"@;
    let p = lemma_run_is_in_report(rs, rs.len(), i, x);
    let h = if some_failed(rs) {
        "Automatic verification after your edits FAILED. Fix these before finishing:\n"@
    } else {
        "Automatic verification after your edits passed.\n"@
    };
    let t = verification_text(rs);
    let q = h.len() as int + p;
    assert(t.subrange(q, q + x.len()) =~= report_text(rs, rs.len()).subrange(p, p + x.len()));
    assert(at(t, q, x));
    assert(t.subrange(0, h.len() as int) =~= h);
}

proof fn lemma_run_is_in_report(rs: Seq<CheckRun>, n: nat, i: int, x: Seq<char>) -> (p: int)
    requires
        0 <= i < n <= rs.len(),
        x == "$ "@ + rs[i].command@ + "\n["@ + (if rs[i].ok {
            "ok"@
        } else {
            "FAILED"@
        }) + "]\n"@,
    ensures
        at(report_text(rs, n), p, x),
    decreases n,
{
    let r = report_text(rs, n);
    let b = report_text(rs, (n - 1) as nat);
    if i == n - 1 {
        let p = b.len() as int;
        assert(r.subrange(p, p + x.len()) =~= x);
        p
    } else {
        let p = lemma_run_is_in_report(rs, (n - 1) as nat, i, x);
        assert(r.subrange(p, p + x.len()) =~= b.subrange(p, p + x.len()));
        p
    }
}

/// A call of a tool that is not there is refused, and so is one whose arguments are not as the
/// tool wants them; of the others those are asked for that need it, and the rest are run, beside
/// others where they only read.
#[verifier::rlimit(40)]
pub proof fn law_calls_are_sorted_out(tools: Seq<ToolSpecV>, c: ToolCallV, read_only: bool, prompts: bool)
    requires
        sorted(tools),
    ensures
        ({
            let t = triaged(tools, c, read_only, prompts);
            let e = call_error(tools, c.name, c.arguments);
            &&& t is Refuse <==> e is Some
            &&& e is None && prompts ==> t is Ask
            &&& e is None && !prompts ==> t == TriageV::Run(read_only)
            &&& t matches TriageV::Refuse(text) ==> holds(text, "`"@ + c.name + "`"@)
        }),
{
    law_only_known_tools_are_called(tools, c.name, c.arguments);
    if let TriageV::Refuse(text) = triaged(tools, c, read_only, prompts) {
        reveal_strlit("`");
        reveal_strlit("unknown tool `");
        reveal_strlit("`; available: ");
        reveal_strlit(". Schema for `");
        reveal_strlit("`: ");
        let x = "`"@ + c.name + "`"@;
        match tool_from(tools, c.name, 0) {
            None => {
                let k = "unknown tool `"@.len() - 1;
                assert(text.subrange(k, k + x.len()) =~= x);
                assert(at(text, k, x));
            },
            Some(t) => {
                let e = arguments_error(t.schema, c.arguments, ""@)->Some_0;
                let k = e.message().len() + ". Schema for `"@.len() - 1;
                assert(text.subrange(k, k + x.len()) =~= x);
                assert(at(text, k, x));
            },
        }
    }
}

/// A tool that gave an output gave that; any other end is an error.
pub proof fn law_an_end_without_output_is_an_error(e: ToolEnd)
    ensures
        e matches ToolEnd::Output(o) ==> end_output(e) == o@,
        !(e is Output) ==> end_output(e).is_error && end_output(e).edits.len() == 0 && end_output(e).text.len() > 0
            || e is Failed && end_output(e).is_error,
        e matches ToolEnd::Failed(m) ==> end_output(e).text == m@,
{
    reveal_strlit("cancelled");
    reveal_strlit("tool timed out after 600s");
}

/// Nothing that a command printed is lost, nor what it complained of, unless that is blank.
pub proof fn law_both_outputs_are_kept(out: Seq<char>, err: Seq<char>)
    ensures
        begins(merged_output(out, err), out) || out.len() == 0,
        trimmed(err).len() > 0 ==> ends(merged_output(out, err), err),
        trimmed(err).len() == 0 ==> merged_output(out, err) == out,
        out.len() > 0 && trimmed(err).len() > 0 ==> merged_output(out, err).len() == out.len() + 1 + err.len(),
{
    let m = merged_output(out, err);
    reveal_strlit("\n");
    if trimmed(err).len() == 0 {
        assert(m.subrange(0, out.len() as int) =~= out);
    } else if out.len() == 0 {
        assert(m.subrange(m.len() - err.len(), m.len() as int) =~= err);
    } else {
        assert(m.subrange(0, out.len() as int) =~= out);
        assert(m.subrange(m.len() - err.len(), m.len() as int) =~= err);
    }
}

/// A summary is asked for of the whole conversation, without tools, in at most as many tokens.
pub proof fn law_a_summary_is_asked_for_of_everything(c: ContextV, p: ProfileV, max: u32)
    requires
        max >= 300,
    ensures
        ({
            let r = summary_request(c, p, max);
            &&& r.model == p.asked_model()
            &&& r.max_tokens == Some(max)
            &&& r.tools is None
            &&& r.messages.len() == c.log.len() + 2
            &&& r.messages[0] == c.prefix.system.value()
            &&& forall|i: int| 0 <= i < c.log.len() ==> r.messages[i + 1] == (#[trigger] c.log[i]).value()
            &&& r.messages.last().get_str("role"@) == Some("user"@)
            &&& r.temperature == p.sampling.instruct.temperature
        }),
{
    reveal_with_fuel(member, 2);
}

/// A command is run for a file by its path with forward slashes, which stands in the place of
/// `{file}`; a command without that is run as it is.
#[verifier::rlimit(40)]
pub proof fn law_a_command_gets_its_file(a: Seq<char>, b: Seq<char>, path: Seq<char>)
    requires
        forall|j: int| 0 <= j < a.len() ==> #[trigger] a[j] != '{',
        forall|j: int| 0 <= j < b.len() ==> #[trigger] b[j] != '{',
    ensures
        command_for(a, path) == a,
        !path.contains('\\') ==> command_for(a + "{file}"@ + b, path) == a + path + b,
        command_for(a + "{file}"@ + b, path).len() == a.len() + path.len() + b.len(),
        forall|i: int|
            0 <= i < path.len() ==> command_for(a + "{file}"@ + b, path)[a.len() + i] == (if #[trigger] path[i] == '\\' {
                '/'
            } else {
                path[i]
            }),
{
    reveal_strlit("{file}");
    let f = "{file}"@;
    let s = a + f + b;
    let p = with_char(path, seq!['\\'], '/');
    lemma_no_opening(a);
    lemma_no_opening(b);
    assert forall|j: int| 0 <= j < a.len() implies !#[trigger] at(s, j, f) by {
        if at(s, j, f) {
            assert(s.subrange(j, j + f.len())[0] == s[j]);
            assert(s[j] == a[j]);
        }
    }
    law_every_occurrence_is_replaced(a, f, b, p);
    lemma_find_from(a, f, 0);
    assert(seq!['\\'].contains('\\')) by {
        assert(seq!['\\'][0] == '\\');
    }
    assert forall|c: char| #[trigger] seq!['\\'].contains(c) implies c == '\\' by {}
    if !path.contains('\\') {
        assert forall|i: int| 0 <= i < path.len() implies #[trigger] p[i] == path[i] by {
            assert(path[i] != '\\');
        }
        assert(p =~= path);
    }
    let r = command_for(s, path);
    assert(r == a + p + b);
    assert forall|i: int| 0 <= i < path.len() implies r[a.len() + i] == (if #[trigger] path[i] == '\\' {
        '/'
    } else {
        path[i]
    }) by {
        assert(r[a.len() + i] == p[i]);
    }
}

proof fn lemma_no_opening(s: Seq<char>)
    requires
        forall|j: int| 0 <= j < s.len() ==> #[trigger] s[j] != '{',
    ensures
        !holds(s, "{file}"@),
{
    reveal_strlit("{file}");
    if holds(s, "{file}"@) {
        let i = choose|i: int| at(s, i, "{file}"@);
        assert(s.subrange(i, i + 6)[0] == s[i]);
    }
}

} // verus!
