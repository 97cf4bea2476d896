//! How a session is put together: the agent of each mode, the request for a commit message,
//! and the languages of a project.

use crate::client::{ChatRequest, RequestV};
use crate::config::{Config, Profile};
use crate::handle::AgentMode;
use crate::index::{LanguageCount, add_language, files_counted, law_one_more_is_counted, one_more};
use crate::json::{Json, JsonV, jsons, members, opt_str, text_value};
use crate::lang::{extension, file_extension};
use crate::message::{at_most, object, opt_string};
use crate::prompt::{
    COMMIT, PromptEnv, PromptEnvV, commit_message_prompt, main_prompt, main_system_prompt,
    plan_prompt, plan_system_prompt,
};
use crate::rank::{rank, ranked, views};
use crate::registry::{RegistryV, ToolRegistry, ToolSpecV, kept, names_of};
use crate::subagent::{explore_tools, reading_tools};
use crate::task::TaskClass;
use crate::text::{
    chars_of, copy_strings, lowered, str_eq, string_of, strings, to_lowered, trim, trim_matches,
    trimmed, without_ends,
};
use vstd::prelude::*;
use vstd::string::*;

verus! {

/// What an agent of a mode is made from.
pub struct AgentSetup {
    pub registry: ToolRegistry,
    pub system: String,
    pub task: TaskClass,
    pub max_turns: u32,
    pub map_tokens: u32,
}

/// The tools of a mode: all but plans, or those that read, with plans and further agents.
pub open spec fn mode_tools(mode: AgentMode, tools: Seq<ToolSpecV>) -> Seq<ToolSpecV> {
    match mode {
        AgentMode::Main => kept(tools, seq!["write_plan"@], false, tools.len()),
        AgentMode::Plan => kept(tools, reading_tools().push("write_plan"@).push("spawn_agent"@), true, tools.len()),
    }
}

/// What an agent of a mode is told.
pub open spec fn mode_prompt(mode: AgentMode, env: PromptEnvV) -> Seq<char> {
    match mode {
        AgentMode::Main => main_prompt(env),
        AgentMode::Plan => plan_prompt(env),
    }
}

/// What an agent of a mode is made from.
pub fn agent_setup(mode: AgentMode, full: &ToolRegistry, env: &PromptEnv, cfg: &Config) -> (r: AgentSetup)
    requires
        full.wf(),
    ensures
        r.registry.wf(),
        r.registry@ == (RegistryV { tools: mode_tools(mode, full@.tools), frozen: None }),
        r.system@ == mode_prompt(
            mode,
            PromptEnvV { tool_names: names_of(mode_tools(mode, full@.tools)), ..env@ },
        ),
        r.task == (match mode {
            AgentMode::Main => TaskClass::Chat,
            AgentMode::Plan => TaskClass::Plan,
        }),
        r.max_turns == cfg.general.max_turns,
        r.map_tokens == (match mode {
            AgentMode::Main => cfg.context.repo_map_tokens,
            AgentMode::Plan => cfg.context.repo_map_tokens_plan,
        }),
{
    let registry = match mode {
        AgentMode::Main => {
            let deny = vec!["write_plan".to_owned()];
            assert(strings(deny@) =~= seq!["write_plan"@]);
            full.without(&deny)
        },
        AgentMode::Plan => {
            let mut allow = explore_tools();
            let ghost b = allow@;
            allow.push("write_plan".to_owned());
            allow.push("spawn_agent".to_owned());
            assert(strings(allow@) =~= strings(b).push("write_plan"@).push("spawn_agent"@));
            full.scoped(&allow)
        },
    };
    let own = PromptEnv {
        os: env.os.clone(),
        shell: env.shell.clone(),
        cwd: env.cwd.clone(),
        is_git: env.is_git,
        languages: copy_strings(&env.languages),
        tool_names: registry.names(),
        has_repo_map: env.has_repo_map,
    };
    match mode {
        AgentMode::Main => AgentSetup {
            system: main_system_prompt(&own),
            registry,
            task: TaskClass::Chat,
            max_turns: cfg.general.max_turns,
            map_tokens: cfg.context.repo_map_tokens,
        },
        AgentMode::Plan => AgentSetup {
            system: plan_system_prompt(&own),
            registry,
            task: TaskClass::Plan,
            max_turns: cfg.general.max_turns,
            map_tokens: cfg.context.repo_map_tokens_plan,
        },
    }
}

proof fn lemma_kept_names(tools: Seq<ToolSpecV>, names: Seq<Seq<char>>, want: bool, n: nat, i: int)
    requires
        n <= tools.len(),
        0 <= i < kept(tools, names, want, n).len(),
    ensures
        names.contains(kept(tools, names, want, n)[i].name) == want,
    decreases n,
{
    let p = kept(tools, names, want, (n - 1) as nat);
    if i < p.len() {
        lemma_kept_names(tools, names, want, (n - 1) as nat, i);
    }
}

/// The main agent cannot write plans, and a planner has only tools that read, plan or ask
/// others.
pub proof fn law_modes_are_confined(tools: Seq<ToolSpecV>, i: int)
    ensures
        0 <= i < mode_tools(AgentMode::Main, tools).len() ==> mode_tools(AgentMode::Main, tools)[i].name
            != "write_plan"@,
        0 <= i < mode_tools(AgentMode::Plan, tools).len() ==> ({
            let name = mode_tools(AgentMode::Plan, tools)[i].name;
            reading_tools().contains(name) || name == "write_plan"@ || name == "spawn_agent"@
        }),
{
    if 0 <= i < mode_tools(AgentMode::Main, tools).len() {
        let deny = seq!["write_plan"@];
        lemma_kept_names(tools, deny, false, tools.len(), i);
        assert(deny[0] == "write_plan"@);
    }
    if 0 <= i < mode_tools(AgentMode::Plan, tools).len() {
        let allow = reading_tools().push("write_plan"@).push("spawn_agent"@);
        lemma_kept_names(tools, allow, true, tools.len(), i);
        let name = mode_tools(AgentMode::Plan, tools)[i].name;
        let k = choose|k: int| 0 <= k < allow.len() && allow[k] == name;
        if k < reading_tools().len() {
            assert(reading_tools()[k] == name);
        }
    }
}

// ---------------------------------------------------------------- commit messages

pub open spec fn chat_message(role: Seq<char>, content: Seq<char>) -> JsonV {
    JsonV::Object(seq![("role"@, JsonV::Str(role)), ("content"@, JsonV::Str(content))])
}

/// A message of a request.
pub fn chat_value(role: &str, content: &str) -> (r: Json)
    ensures
        r@ == chat_message(role@, content@),
{
    let m = vec![("role".to_owned(), text_value(role)), ("content".to_owned(), text_value(content))];
    assert(members(m@) =~= chat_message(role@, content@)->Object_0);
    object(m)
}

/// The request for a commit message.
pub fn commit_request(profile: &Profile, diff: &str) -> (r: ChatRequest)
    ensures
        ({
            let s = TaskClass::CommitMsg.sampling_of(profile@);
            r@ == RequestV {
                max_tokens: Some(200),
                temperature: s.temperature,
                top_p: s.top_p,
                top_k: s.top_k,
                presence_penalty: s.presence_penalty,
                ..RequestV::fresh(
                    profile@.asked_model(),
                    seq![chat_message("system"@, COMMIT@), chat_message("user"@, diff@)],
                )
            }.with_effort(TaskClass::CommitMsg.effort_of(profile@))
        }),
{
    let messages = vec![chat_value("system", commit_message_prompt()), chat_value("user", diff)];
    assert(jsons(messages@) =~= seq![chat_message("system"@, COMMIT@), chat_message("user"@, diff@)]);
    let s = TaskClass::CommitMsg.sampling(profile);
    let mut req = ChatRequest::new(profile.request_model().as_str(), messages);
    req.max_tokens = Some(200);
    req.temperature = s.temperature.clone();
    req.top_p = s.top_p.clone();
    req.top_k = s.top_k;
    req.presence_penalty = s.presence_penalty.clone();
    req.reasoning_effort(TaskClass::CommitMsg.effort(profile))
}

/// The commit message of an answer: without white space and backquotes around it; none
/// where nothing is left.
pub fn commit_message(content: &str) -> (r: Option<String>)
    ensures
        ({
            let m = trimmed(without_ends(trimmed(content@), '`'));
            opt_string(r) == if m.len() == 0 {
                None
            } else {
                Some(m)
            }
        }),
{
    let t = trim(&trim_matches(&trim(&chars_of(content)), '`'));
    if t.len() == 0 {
        None
    } else {
        Some(string_of(&t))
    }
}

// ---------------------------------------------------------------- the project

/// The language of files with an extension, by its common name.
pub open spec fn language_title(ext: Seq<char>) -> Option<Seq<char>> {
    let e = lowered(ext);
    if e == "rs"@ {
        Some("Rust"@)
    } else if e == "py"@ {
        Some("Python"@)
    } else if e == "ts"@ || e == "tsx"@ {
        Some("TypeScript"@)
    } else if e == "js"@ || e == "jsx"@ || e == "mjs"@ {
        Some("JavaScript"@)
    } else if e == "go"@ {
        Some("Go"@)
    } else if e == "c"@ || e == "h"@ {
        Some("C"@)
    } else if e == "cpp"@ || e == "cc"@ || e == "hpp"@ || e == "cxx"@ {
        Some("C++"@)
    } else if e == "java"@ {
        Some("Java"@)
    } else if e == "cs"@ {
        Some("C#"@)
    } else if e == "rb"@ {
        Some("Ruby"@)
    } else if e == "php"@ {
        Some("PHP"@)
    } else if e == "swift"@ {
        Some("Swift"@)
    } else if e == "kt"@ {
        Some("Kotlin"@)
    } else if e == "sh"@ || e == "ps1"@ {
        Some("Shell"@)
    } else {
        None
    }
}

fn title_of_extension(ext: &str) -> (r: Option<&'static str>)
    ensures
        opt_str(r) == language_title(ext@),
{
    let l = string_of(&to_lowered(ext));
    let e = l.as_str();
    if str_eq(e, "rs") {
        Some("Rust")
    } else if str_eq(e, "py") {
        Some("Python")
    } else if str_eq(e, "ts") || str_eq(e, "tsx") {
        Some("TypeScript")
    } else if str_eq(e, "js") || str_eq(e, "jsx") || str_eq(e, "mjs") {
        Some("JavaScript")
    } else if str_eq(e, "go") {
        Some("Go")
    } else if str_eq(e, "c") || str_eq(e, "h") {
        Some("C")
    } else if str_eq(e, "cpp") || str_eq(e, "cc") || str_eq(e, "hpp") || str_eq(e, "cxx") {
        Some("C++")
    } else if str_eq(e, "java") {
        Some("Java")
    } else if str_eq(e, "cs") {
        Some("C#")
    } else if str_eq(e, "rb") {
        Some("Ruby")
    } else if str_eq(e, "php") {
        Some("PHP")
    } else if str_eq(e, "swift") {
        Some("Swift")
    } else if str_eq(e, "kt") {
        Some("Kotlin")
    } else if str_eq(e, "sh") || str_eq(e, "ps1") {
        Some("Shell")
    } else {
        None
    }
}

/// The files that are looked at.
pub const MAX_FILES: usize = 20_000;

/// How many of the first `n` files there are of each language.
pub open spec fn titles_in(files: Seq<Seq<char>>, n: nat, windows: bool) -> Seq<(Seq<char>, usize)>
    decreases n,
{
    if n == 0 || n > files.len() {
        Seq::empty()
    } else {
        let p = titles_in(files, (n - 1) as nat, windows);
        let ext = match extension(files[n - 1], windows) {
            Some(e) => e,
            None => Seq::empty(),
        };
        match language_title(ext) {
            Some(t) => one_more(p, t),
            None => p,
        }
    }
}

/// The names of the first three.
pub open spec fn first_three(v: Seq<(Seq<char>, usize)>) -> Seq<Seq<char>> {
    Seq::new(at_most(v.len(), 3), |i: int| v[i].0)
}

fn name_first_three(v: &Vec<LanguageCount>) -> (r: Vec<String>)
    ensures
        strings(r@) == first_three(views(v@)),
{
    let ghost lv = views(v@);
    let mut out: Vec<String> = Vec::new();
    let mut i: usize = 0;
    assert(strings(out@) =~= first_three(lv).take(0));
    while i < v.len() && i < 3
        invariant
            i <= v.len(),
            i <= 3,
            lv == views(v@),
            strings(out@) == first_three(lv).take(i as int),
        decreases v.len() - i,
    {
        let ghost b = out@;
        out.push(v[i].name.clone());
        assert(strings(out@) =~= strings(b).push(lv[i as int].0));
        assert(first_three(lv).take(i + 1) =~= first_three(lv).take(i as int).push(lv[i as int].0));
        i += 1;
    }
    assert(strings(out@) =~= first_three(lv));
    out
}

/// The languages of a project: the three with the most files, of those that are looked at.
pub fn detect_languages(files: &Vec<String>, windows: bool) -> (r: Vec<String>)
    ensures
        ({
            let all = titles_in(strings(files@), at_most(files@.len(), MAX_FILES as nat), windows);
            strings(r@) == first_three(ranked::<LanguageCount>(all, all.len()))
        }),
{
    let ghost fv = strings(files@);
    let mut counts: Vec<LanguageCount> = Vec::new();
    let mut i: usize = 0;
    assert(views(counts@) =~= Seq::<(Seq<char>, usize)>::empty());
    while i < files.len() && i < MAX_FILES
        invariant
            i <= files.len(),
            i <= MAX_FILES,
            fv == strings(files@),
            views(counts@) == titles_in(fv, i as nat, windows),
        decreases files.len() - i,
    {
        assert(fv[i as int] == files@[i as int]@);
        let ext = match file_extension(files[i].as_str(), windows) {
            Some(e) => e,
            None => String::new(),
        };
        if let Some(t) = title_of_extension(ext.as_str()) {
            add_language(&mut counts, t);
        }
        i += 1;
    }
    name_first_three(&rank(counts))
}

/// The names of the three languages with the most files of an index.
pub fn main_languages(summary: &Vec<LanguageCount>) -> (r: Vec<String>)
    ensures
        strings(r@) == first_three(views(summary@)),
{
    name_first_three(summary)
}

/// A number in hexadecimal.
pub open spec fn hex_number(n: nat) -> Seq<char>
    decreases n,
{
    if n < 16 {
        seq![crate::digest::hex_digit(n as u8)]
    } else {
        hex_number(n / 16).push(crate::digest::hex_digit((n % 16) as u8))
    }
}

/// The name of a session: the seconds of its beginning, in hexadecimal.
pub fn session_id(seconds: u64) -> (r: String)
    ensures
        r@ == hex_number(seconds as nat),
    decreases seconds,
{
    let c = crate::digest::hex_char((seconds % 16) as u8);
    if seconds < 16 {
        let mut s = String::new();
        s.push(c);
        assert(s@ =~= hex_number(seconds as nat));
        s
    } else {
        let mut s = session_id(seconds / 16);
        s.push(c);
        s
    }
}

/// The main agent has every tool but the one that writes plans; a planner has every tool that
/// reads, that writes plans and that makes further agents. They keep their order.
pub proof fn law_a_mode_has_all_its_tools(tools: Seq<ToolSpecV>, i: int)
    requires
        0 <= i < tools.len(),
    ensures
        tools[i].name != "write_plan"@ ==> mode_tools(AgentMode::Main, tools).contains(tools[i]),
        reading_tools().contains(tools[i].name) || tools[i].name == "write_plan"@ || tools[i].name == "spawn_agent"@
            ==> mode_tools(AgentMode::Plan, tools).contains(tools[i]),
{
    let one = seq!["write_plan"@];
    let r = reading_tools();
    let all = r.push("write_plan"@).push("spawn_agent"@);
    assert(one[0] == "write_plan"@);
    assert forall|x: Seq<char>| one.contains(x) implies x == "write_plan"@ by {}
    assert(all[r.len() as int] == "write_plan"@);
    assert(all[r.len() as int + 1] == "spawn_agent"@);
    if r.contains(tools[i].name) {
        let k = choose|k: int| 0 <= k < r.len() && r[k] == tools[i].name;
        assert(all[k] == tools[i].name);
    }
    if tools[i].name != "write_plan"@ {
        lemma_kept_has(tools, one, false, tools.len(), i);
    }
    if all.contains(tools[i].name) {
        lemma_kept_has(tools, all, true, tools.len(), i);
    }
}

proof fn lemma_kept_has(tools: Seq<ToolSpecV>, names: Seq<Seq<char>>, want: bool, n: nat, i: int)
    requires
        0 <= i < n <= tools.len(),
        names.contains(tools[i].name) == want,
    ensures
        kept(tools, names, want, n).contains(tools[i]),
    decreases n,
{
    let r = kept(tools, names, want, n);
    let b = kept(tools, names, want, (n - 1) as nat);
    if i == n - 1 {
        assert(r[b.len() as int] == tools[i]);
    } else {
        lemma_kept_has(tools, names, want, (n - 1) as nat, i);
        let k = choose|k: int| 0 <= k < b.len() && b[k] == tools[i];
        assert(r[k] == tools[i]);
    }
}

/// A number in hexadecimal has the value of its digits.
pub proof fn law_hexadecimal_has_its_value(n: nat)
    ensures
        hex_value(hex_number(n)) == n,
    decreases n,
{
    if n >= 16 {
        law_hexadecimal_has_its_value(n / 16);
        let h = hex_number(n);
        assert(h.drop_last() =~= hex_number(n / 16));
        assert(h.last() == crate::digest::hex_digit((n % 16) as u8));
        lemma_hex_digit((n % 16) as u8);
        assert(n == (n / 16) * 16 + n % 16);
    } else {
        let h = hex_number(n);
        assert(h.drop_last() =~= Seq::<char>::empty());
        assert(hex_value(h.drop_last()) == 0);
        lemma_hex_digit(n as u8);
    }
}

pub open spec fn digit_of_hex(c: char) -> nat {
    if '0' <= c <= '9' {
        (c as u32 - 48) as nat
    } else {
        (c as u32 - 87) as nat
    }
}

/// The number that hexadecimal digits denote.
pub open spec fn hex_value(s: Seq<char>) -> nat
    decreases s.len(),
{
    if s.len() == 0 {
        0
    } else {
        hex_value(s.drop_last()) * 16 + digit_of_hex(s.last())
    }
}

proof fn lemma_hex_digit(n: u8)
    requires
        n < 16,
    ensures
        digit_of_hex(crate::digest::hex_digit(n)) == n,
{
}

/// The languages are called by their common names.
pub proof fn law_languages_have_their_names()
    ensures
        language_title("rs"@) == Some("Rust"@),
        language_title("py"@) == Some("Python"@),
        language_title("ts"@) == Some("TypeScript"@),
        language_title("tsx"@) == Some("TypeScript"@),
        language_title("js"@) == Some("JavaScript"@),
        language_title("jsx"@) == Some("JavaScript"@),
        language_title("mjs"@) == Some("JavaScript"@),
        language_title("go"@) == Some("Go"@),
        language_title("c"@) == Some("C"@),
        language_title("h"@) == Some("C"@),
        language_title("cpp"@) == Some("C++"@),
        language_title("cc"@) == Some("C++"@),
        language_title("hpp"@) == Some("C++"@),
        language_title("cxx"@) == Some("C++"@),
        language_title("java"@) == Some("Java"@),
        language_title("cs"@) == Some("C#"@),
        language_title("rb"@) == Some("Ruby"@),
        language_title("php"@) == Some("PHP"@),
        language_title("swift"@) == Some("Swift"@),
        language_title("kt"@) == Some("Kotlin"@),
        language_title("sh"@) == Some("Shell"@),
        language_title("ps1"@) == Some("Shell"@),
{
    lemma_title_rs();
    lemma_title_py();
    lemma_title_ts();
    lemma_title_js();
    lemma_title_go();
    lemma_title_c();
    lemma_title_cpp();
    lemma_title_java();
    lemma_title_cs();
    lemma_title_rb();
    lemma_title_php();
    lemma_title_swift();
    lemma_title_kt();
    lemma_title_sh();
}

proof fn lemma_title_rs()
    ensures
        language_title("rs"@) == Some("Rust"@),
{
    reveal_strlit("rs");
    assert(lowered("rs"@) =~= "rs"@);
}

proof fn lemma_title_py()
    ensures
        language_title("py"@) == Some("Python"@),
{
    reveal_strlit("rs");
    reveal_strlit("py");
    assert(lowered("py"@) =~= "py"@);
    assert("py"@[0] != "rs"@[0]);
}

proof fn lemma_title_ts()
    ensures
        language_title("ts"@) == Some("TypeScript"@),
        language_title("tsx"@) == Some("TypeScript"@),
{
    reveal_strlit("rs");
    reveal_strlit("py");
    reveal_strlit("ts");
    reveal_strlit("tsx");
    assert(lowered("ts"@) =~= "ts"@);
    assert("ts"@[0] != "rs"@[0]);
    assert("ts"@[0] != "py"@[0]);
    assert(lowered("tsx"@) =~= "tsx"@);
    assert("tsx"@.len() != "rs"@.len());
    assert("tsx"@.len() != "py"@.len());
}

#[verifier::rlimit(40)]
proof fn lemma_title_js()
    ensures
        language_title("js"@) == Some("JavaScript"@),
        language_title("jsx"@) == Some("JavaScript"@),
        language_title("mjs"@) == Some("JavaScript"@),
{
    reveal_strlit("rs");
    reveal_strlit("py");
    reveal_strlit("ts");
    reveal_strlit("tsx");
    reveal_strlit("js");
    reveal_strlit("jsx");
    reveal_strlit("mjs");
    assert(lowered("js"@) =~= "js"@);
    assert("js"@[0] != "rs"@[0]);
    assert("js"@[0] != "py"@[0]);
    assert("js"@[0] != "ts"@[0]);
    assert("js"@.len() != "tsx"@.len());
    assert(lowered("jsx"@) =~= "jsx"@);
    assert("jsx"@.len() != "rs"@.len());
    assert("jsx"@.len() != "py"@.len());
    assert("jsx"@.len() != "ts"@.len());
    assert("jsx"@[0] != "tsx"@[0]);
    assert(lowered("mjs"@) =~= "mjs"@);
    assert("mjs"@.len() != "rs"@.len());
    assert("mjs"@.len() != "py"@.len());
    assert("mjs"@.len() != "ts"@.len());
    assert("mjs"@[0] != "tsx"@[0]);
}

proof fn lemma_title_go()
    ensures
        language_title("go"@) == Some("Go"@),
{
    reveal_strlit("rs");
    reveal_strlit("py");
    reveal_strlit("ts");
    reveal_strlit("tsx");
    reveal_strlit("js");
    reveal_strlit("jsx");
    reveal_strlit("mjs");
    reveal_strlit("go");
    assert(lowered("go"@) =~= "go"@);
    assert("go"@[0] != "rs"@[0]);
    assert("go"@[0] != "py"@[0]);
    assert("go"@[0] != "ts"@[0]);
    assert("go"@.len() != "tsx"@.len());
    assert("go"@[0] != "js"@[0]);
    assert("go"@.len() != "jsx"@.len());
    assert("go"@.len() != "mjs"@.len());
}

proof fn lemma_title_c()
    ensures
        language_title("c"@) == Some("C"@),
        language_title("h"@) == Some("C"@),
{
    reveal_strlit("rs");
    reveal_strlit("py");
    reveal_strlit("ts");
    reveal_strlit("tsx");
    reveal_strlit("js");
    reveal_strlit("jsx");
    reveal_strlit("mjs");
    reveal_strlit("go");
    reveal_strlit("c");
    reveal_strlit("h");
    assert(lowered("c"@) =~= "c"@);
    assert("c"@.len() != "rs"@.len());
    assert("c"@.len() != "py"@.len());
    assert("c"@.len() != "ts"@.len());
    assert("c"@.len() != "tsx"@.len());
    assert("c"@.len() != "js"@.len());
    assert("c"@.len() != "jsx"@.len());
    assert("c"@.len() != "mjs"@.len());
    assert("c"@.len() != "go"@.len());
    assert(lowered("h"@) =~= "h"@);
    assert("h"@.len() != "rs"@.len());
    assert("h"@.len() != "py"@.len());
    assert("h"@.len() != "ts"@.len());
    assert("h"@.len() != "tsx"@.len());
    assert("h"@.len() != "js"@.len());
    assert("h"@.len() != "jsx"@.len());
    assert("h"@.len() != "mjs"@.len());
    assert("h"@.len() != "go"@.len());
}

#[verifier::rlimit(40)]
proof fn lemma_title_cpp()
    ensures
        language_title("cpp"@) == Some("C++"@),
        language_title("cc"@) == Some("C++"@),
        language_title("hpp"@) == Some("C++"@),
        language_title("cxx"@) == Some("C++"@),
{
    reveal_strlit("rs");
    reveal_strlit("py");
    reveal_strlit("ts");
    reveal_strlit("tsx");
    reveal_strlit("js");
    reveal_strlit("jsx");
    reveal_strlit("mjs");
    reveal_strlit("go");
    reveal_strlit("c");
    reveal_strlit("h");
    reveal_strlit("cpp");
    reveal_strlit("cc");
    reveal_strlit("hpp");
    reveal_strlit("cxx");
    assert(lowered("cpp"@) =~= "cpp"@);
    assert("cpp"@.len() != "rs"@.len());
    assert("cpp"@.len() != "py"@.len());
    assert("cpp"@.len() != "ts"@.len());
    assert("cpp"@[0] != "tsx"@[0]);
    assert("cpp"@.len() != "js"@.len());
    assert("cpp"@[0] != "jsx"@[0]);
    assert("cpp"@[0] != "mjs"@[0]);
    assert("cpp"@.len() != "go"@.len());
    assert("cpp"@.len() != "c"@.len());
    assert("cpp"@.len() != "h"@.len());
    assert(lowered("cc"@) =~= "cc"@);
    assert("cc"@[0] != "rs"@[0]);
    assert("cc"@[0] != "py"@[0]);
    assert("cc"@[0] != "ts"@[0]);
    assert("cc"@.len() != "tsx"@.len());
    assert("cc"@[0] != "js"@[0]);
    assert("cc"@.len() != "jsx"@.len());
    assert("cc"@.len() != "mjs"@.len());
    assert("cc"@[0] != "go"@[0]);
    assert("cc"@.len() != "c"@.len());
    assert("cc"@.len() != "h"@.len());
    assert(lowered("hpp"@) =~= "hpp"@);
    assert("hpp"@.len() != "rs"@.len());
    assert("hpp"@.len() != "py"@.len());
    assert("hpp"@.len() != "ts"@.len());
    assert("hpp"@[0] != "tsx"@[0]);
    assert("hpp"@.len() != "js"@.len());
    assert("hpp"@[0] != "jsx"@[0]);
    assert("hpp"@[0] != "mjs"@[0]);
    assert("hpp"@.len() != "go"@.len());
    assert("hpp"@.len() != "c"@.len());
    assert("hpp"@.len() != "h"@.len());
    assert(lowered("cxx"@) =~= "cxx"@);
    assert("cxx"@.len() != "rs"@.len());
    assert("cxx"@.len() != "py"@.len());
    assert("cxx"@.len() != "ts"@.len());
    assert("cxx"@[0] != "tsx"@[0]);
    assert("cxx"@.len() != "js"@.len());
    assert("cxx"@[0] != "jsx"@[0]);
    assert("cxx"@[0] != "mjs"@[0]);
    assert("cxx"@.len() != "go"@.len());
    assert("cxx"@.len() != "c"@.len());
    assert("cxx"@.len() != "h"@.len());
}

proof fn lemma_title_java()
    ensures
        language_title("java"@) == Some("Java"@),
{
    reveal_strlit("rs");
    reveal_strlit("py");
    reveal_strlit("ts");
    reveal_strlit("tsx");
    reveal_strlit("js");
    reveal_strlit("jsx");
    reveal_strlit("mjs");
    reveal_strlit("go");
    reveal_strlit("c");
    reveal_strlit("h");
    reveal_strlit("cpp");
    reveal_strlit("cc");
    reveal_strlit("hpp");
    reveal_strlit("cxx");
    reveal_strlit("java");
    assert(lowered("java"@) =~= "java"@);
    assert("java"@.len() != "rs"@.len());
    assert("java"@.len() != "py"@.len());
    assert("java"@.len() != "ts"@.len());
    assert("java"@.len() != "tsx"@.len());
    assert("java"@.len() != "js"@.len());
    assert("java"@.len() != "jsx"@.len());
    assert("java"@.len() != "mjs"@.len());
    assert("java"@.len() != "go"@.len());
    assert("java"@.len() != "c"@.len());
    assert("java"@.len() != "h"@.len());
    assert("java"@.len() != "cpp"@.len());
    assert("java"@.len() != "cc"@.len());
    assert("java"@.len() != "hpp"@.len());
    assert("java"@.len() != "cxx"@.len());
}

proof fn lemma_title_cs()
    ensures
        language_title("cs"@) == Some("C#"@),
{
    reveal_strlit("rs");
    reveal_strlit("py");
    reveal_strlit("ts");
    reveal_strlit("tsx");
    reveal_strlit("js");
    reveal_strlit("jsx");
    reveal_strlit("mjs");
    reveal_strlit("go");
    reveal_strlit("c");
    reveal_strlit("h");
    reveal_strlit("cpp");
    reveal_strlit("cc");
    reveal_strlit("hpp");
    reveal_strlit("cxx");
    reveal_strlit("java");
    reveal_strlit("cs");
    assert(lowered("cs"@) =~= "cs"@);
    assert("cs"@[0] != "rs"@[0]);
    assert("cs"@[0] != "py"@[0]);
    assert("cs"@[0] != "ts"@[0]);
    assert("cs"@.len() != "tsx"@.len());
    assert("cs"@[0] != "js"@[0]);
    assert("cs"@.len() != "jsx"@.len());
    assert("cs"@.len() != "mjs"@.len());
    assert("cs"@[0] != "go"@[0]);
    assert("cs"@.len() != "c"@.len());
    assert("cs"@.len() != "h"@.len());
    assert("cs"@.len() != "cpp"@.len());
    assert("cs"@[1] != "cc"@[1]);
    assert("cs"@.len() != "hpp"@.len());
    assert("cs"@.len() != "cxx"@.len());
    assert("cs"@.len() != "java"@.len());
}

proof fn lemma_title_rb()
    ensures
        language_title("rb"@) == Some("Ruby"@),
{
    reveal_strlit("rs");
    reveal_strlit("py");
    reveal_strlit("ts");
    reveal_strlit("tsx");
    reveal_strlit("js");
    reveal_strlit("jsx");
    reveal_strlit("mjs");
    reveal_strlit("go");
    reveal_strlit("c");
    reveal_strlit("h");
    reveal_strlit("cpp");
    reveal_strlit("cc");
    reveal_strlit("hpp");
    reveal_strlit("cxx");
    reveal_strlit("java");
    reveal_strlit("cs");
    reveal_strlit("rb");
    assert(lowered("rb"@) =~= "rb"@);
    assert("rb"@[1] != "rs"@[1]);
    assert("rb"@[0] != "py"@[0]);
    assert("rb"@[0] != "ts"@[0]);
    assert("rb"@.len() != "tsx"@.len());
    assert("rb"@[0] != "js"@[0]);
    assert("rb"@.len() != "jsx"@.len());
    assert("rb"@.len() != "mjs"@.len());
    assert("rb"@[0] != "go"@[0]);
    assert("rb"@.len() != "c"@.len());
    assert("rb"@.len() != "h"@.len());
    assert("rb"@.len() != "cpp"@.len());
    assert("rb"@[0] != "cc"@[0]);
    assert("rb"@.len() != "hpp"@.len());
    assert("rb"@.len() != "cxx"@.len());
    assert("rb"@.len() != "java"@.len());
    assert("rb"@[0] != "cs"@[0]);
}

proof fn lemma_title_php()
    ensures
        language_title("php"@) == Some("PHP"@),
{
    reveal_strlit("rs");
    reveal_strlit("py");
    reveal_strlit("ts");
    reveal_strlit("tsx");
    reveal_strlit("js");
    reveal_strlit("jsx");
    reveal_strlit("mjs");
    reveal_strlit("go");
    reveal_strlit("c");
    reveal_strlit("h");
    reveal_strlit("cpp");
    reveal_strlit("cc");
    reveal_strlit("hpp");
    reveal_strlit("cxx");
    reveal_strlit("java");
    reveal_strlit("cs");
    reveal_strlit("rb");
    reveal_strlit("php");
    assert(lowered("php"@) =~= "php"@);
    assert("php"@.len() != "rs"@.len());
    assert("php"@.len() != "py"@.len());
    assert("php"@.len() != "ts"@.len());
    assert("php"@[0] != "tsx"@[0]);
    assert("php"@.len() != "js"@.len());
    assert("php"@[0] != "jsx"@[0]);
    assert("php"@[0] != "mjs"@[0]);
    assert("php"@.len() != "go"@.len());
    assert("php"@.len() != "c"@.len());
    assert("php"@.len() != "h"@.len());
    assert("php"@[0] != "cpp"@[0]);
    assert("php"@.len() != "cc"@.len());
    assert("php"@[0] != "hpp"@[0]);
    assert("php"@[0] != "cxx"@[0]);
    assert("php"@.len() != "java"@.len());
    assert("php"@.len() != "cs"@.len());
    assert("php"@.len() != "rb"@.len());
}

proof fn lemma_title_swift()
    ensures
        language_title("swift"@) == Some("Swift"@),
{
    reveal_strlit("rs");
    reveal_strlit("py");
    reveal_strlit("ts");
    reveal_strlit("tsx");
    reveal_strlit("js");
    reveal_strlit("jsx");
    reveal_strlit("mjs");
    reveal_strlit("go");
    reveal_strlit("c");
    reveal_strlit("h");
    reveal_strlit("cpp");
    reveal_strlit("cc");
    reveal_strlit("hpp");
    reveal_strlit("cxx");
    reveal_strlit("java");
    reveal_strlit("cs");
    reveal_strlit("rb");
    reveal_strlit("php");
    reveal_strlit("swift");
    assert(lowered("swift"@) =~= "swift"@);
    assert("swift"@.len() != "rs"@.len());
    assert("swift"@.len() != "py"@.len());
    assert("swift"@.len() != "ts"@.len());
    assert("swift"@.len() != "tsx"@.len());
    assert("swift"@.len() != "js"@.len());
    assert("swift"@.len() != "jsx"@.len());
    assert("swift"@.len() != "mjs"@.len());
    assert("swift"@.len() != "go"@.len());
    assert("swift"@.len() != "c"@.len());
    assert("swift"@.len() != "h"@.len());
    assert("swift"@.len() != "cpp"@.len());
    assert("swift"@.len() != "cc"@.len());
    assert("swift"@.len() != "hpp"@.len());
    assert("swift"@.len() != "cxx"@.len());
    assert("swift"@.len() != "java"@.len());
    assert("swift"@.len() != "cs"@.len());
    assert("swift"@.len() != "rb"@.len());
    assert("swift"@.len() != "php"@.len());
}

proof fn lemma_title_kt()
    ensures
        language_title("kt"@) == Some("Kotlin"@),
{
    reveal_strlit("rs");
    reveal_strlit("py");
    reveal_strlit("ts");
    reveal_strlit("tsx");
    reveal_strlit("js");
    reveal_strlit("jsx");
    reveal_strlit("mjs");
    reveal_strlit("go");
    reveal_strlit("c");
    reveal_strlit("h");
    reveal_strlit("cpp");
    reveal_strlit("cc");
    reveal_strlit("hpp");
    reveal_strlit("cxx");
    reveal_strlit("java");
    reveal_strlit("cs");
    reveal_strlit("rb");
    reveal_strlit("php");
    reveal_strlit("swift");
    reveal_strlit("kt");
    assert(lowered("kt"@) =~= "kt"@);
    assert("kt"@[0] != "rs"@[0]);
    assert("kt"@[0] != "py"@[0]);
    assert("kt"@[0] != "ts"@[0]);
    assert("kt"@.len() != "tsx"@.len());
    assert("kt"@[0] != "js"@[0]);
    assert("kt"@.len() != "jsx"@.len());
    assert("kt"@.len() != "mjs"@.len());
    assert("kt"@[0] != "go"@[0]);
    assert("kt"@.len() != "c"@.len());
    assert("kt"@.len() != "h"@.len());
    assert("kt"@.len() != "cpp"@.len());
    assert("kt"@[0] != "cc"@[0]);
    assert("kt"@.len() != "hpp"@.len());
    assert("kt"@.len() != "cxx"@.len());
    assert("kt"@.len() != "java"@.len());
    assert("kt"@[0] != "cs"@[0]);
    assert("kt"@[0] != "rb"@[0]);
    assert("kt"@.len() != "php"@.len());
    assert("kt"@.len() != "swift"@.len());
}

proof fn lemma_title_sh()
    ensures
        language_title("sh"@) == Some("Shell"@),
        language_title("ps1"@) == Some("Shell"@),
{
    reveal_strlit("rs");
    reveal_strlit("py");
    reveal_strlit("ts");
    reveal_strlit("tsx");
    reveal_strlit("js");
    reveal_strlit("jsx");
    reveal_strlit("mjs");
    reveal_strlit("go");
    reveal_strlit("c");
    reveal_strlit("h");
    reveal_strlit("cpp");
    reveal_strlit("cc");
    reveal_strlit("hpp");
    reveal_strlit("cxx");
    reveal_strlit("java");
    reveal_strlit("cs");
    reveal_strlit("rb");
    reveal_strlit("php");
    reveal_strlit("swift");
    reveal_strlit("kt");
    reveal_strlit("sh");
    reveal_strlit("ps1");
    assert(lowered("sh"@) =~= "sh"@);
    assert("sh"@[0] != "rs"@[0]);
    assert("sh"@[0] != "py"@[0]);
    assert("sh"@[0] != "ts"@[0]);
    assert("sh"@.len() != "tsx"@.len());
    assert("sh"@[0] != "js"@[0]);
    assert("sh"@.len() != "jsx"@.len());
    assert("sh"@.len() != "mjs"@.len());
    assert("sh"@[0] != "go"@[0]);
    assert("sh"@.len() != "c"@.len());
    assert("sh"@.len() != "h"@.len());
    assert("sh"@.len() != "cpp"@.len());
    assert("sh"@[0] != "cc"@[0]);
    assert("sh"@.len() != "hpp"@.len());
    assert("sh"@.len() != "cxx"@.len());
    assert("sh"@.len() != "java"@.len());
    assert("sh"@[0] != "cs"@[0]);
    assert("sh"@[0] != "rb"@[0]);
    assert("sh"@.len() != "php"@.len());
    assert("sh"@.len() != "swift"@.len());
    assert("sh"@[0] != "kt"@[0]);
    assert(lowered("ps1"@) =~= "ps1"@);
    assert("ps1"@.len() != "rs"@.len());
    assert("ps1"@.len() != "py"@.len());
    assert("ps1"@.len() != "ts"@.len());
    assert("ps1"@[0] != "tsx"@[0]);
    assert("ps1"@.len() != "js"@.len());
    assert("ps1"@[0] != "jsx"@[0]);
    assert("ps1"@[0] != "mjs"@[0]);
    assert("ps1"@.len() != "go"@.len());
    assert("ps1"@.len() != "c"@.len());
    assert("ps1"@.len() != "h"@.len());
    assert("ps1"@[0] != "cpp"@[0]);
    assert("ps1"@.len() != "cc"@.len());
    assert("ps1"@[0] != "hpp"@[0]);
    assert("ps1"@[0] != "cxx"@[0]);
    assert("ps1"@.len() != "java"@.len());
    assert("ps1"@.len() != "cs"@.len());
    assert("ps1"@.len() != "rb"@.len());
    assert("ps1"@[1] != "php"@[1]);
    assert("ps1"@.len() != "swift"@.len());
    assert("ps1"@.len() != "kt"@.len());
}

/// The files of each language are counted: as many as there are with one of its extensions.
pub proof fn law_titles_are_counted(files: Seq<Seq<char>>, n: nat, title: Seq<char>, windows: bool)
    requires
        n <= files.len(),
        n < usize::MAX,
    ensures
        files_counted(titles_in(files, n, windows), title) == files.take(n as int).filter(
            |f: Seq<char>| is_titled(f, title, windows),
        ).len(),
        files_counted(titles_in(files, n, windows), title) <= n,
    decreases n,
{
    reveal(Seq::filter);
    let p = |f: Seq<char>| is_titled(f, title, windows);
    if n > 0 {
        law_titles_are_counted(files, (n - 1) as nat, title, windows);
        let t = files.take(n as int);
        assert(t.drop_last() =~= files.take(n - 1));
        assert(t.last() == files[n - 1]);
        let ext = match extension(files[n - 1], windows) {
            Some(e) => e,
            None => Seq::empty(),
        };
        if extension(files[n - 1], windows) is None {
            lemma_no_extension();
        }
        if let Some(l) = language_title(ext) {
            lemma_titles_at_most(files, (n - 1) as nat, l, windows);
            law_one_more_is_counted(titles_in(files, (n - 1) as nat, windows), l, title);
        }
    } else {
        assert(files.take(0).len() == 0);
    }
}

/// A file is of a language by its extension.
pub open spec fn is_titled(f: Seq<char>, title: Seq<char>, windows: bool) -> bool {
    extension(f, windows) matches Some(e) && language_title(e) == Some(title)
}

proof fn lemma_no_extension()
    ensures
        language_title(Seq::empty()) is None,
{
    reveal_strlit("rs");
    reveal_strlit("py");
    reveal_strlit("ts");
    reveal_strlit("tsx");
    reveal_strlit("js");
    reveal_strlit("jsx");
    reveal_strlit("mjs");
    reveal_strlit("go");
    reveal_strlit("c");
    reveal_strlit("h");
    reveal_strlit("cpp");
    reveal_strlit("cc");
    reveal_strlit("hpp");
    reveal_strlit("cxx");
    reveal_strlit("java");
    reveal_strlit("cs");
    reveal_strlit("rb");
    reveal_strlit("php");
    reveal_strlit("swift");
    reveal_strlit("kt");
    reveal_strlit("sh");
    reveal_strlit("ps1");
    assert(lowered(Seq::<char>::empty()).len() == 0);
}

proof fn lemma_titles_at_most(files: Seq<Seq<char>>, n: nat, title: Seq<char>, windows: bool)
    requires
        n <= files.len(),
        n < usize::MAX,
    ensures
        files_counted(titles_in(files, n, windows), title) <= n,
    decreases n,
{
    if n > 0 {
        lemma_titles_at_most(files, (n - 1) as nat, title, windows);
        let ext = match extension(files[n - 1], windows) {
            Some(e) => e,
            None => Seq::empty(),
        };
        if let Some(l) = language_title(ext) {
            lemma_titles_at_most(files, (n - 1) as nat, l, windows);
            law_one_more_is_counted(titles_in(files, (n - 1) as nat, windows), l, title);
        }
    }
}

} // verus!
