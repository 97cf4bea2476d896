//! Subagents: the tools they have, what they are told, and the report they give.

use crate::agent::AgentOutcome;
use crate::message::{byte_len, byte_prefix, bytes_at, bytes_in, law_bytes_end_a_character};
use crate::prompt::{
    PromptEnv, PromptEnvV, explore_prompt, explore_system_prompt, main_prompt, main_system_prompt,
    plan_prompt, plan_system_prompt,
};
use crate::registry::{RegistryV, ToolRegistry, ToolSpecV, kept};
use crate::task::TaskClass;
use crate::text::{copy_strings, dec, dec_u64, strings};
use vstd::prelude::*;
use vstd::string::*;
use vstd::utf8::is_ascii_chars_encode_utf8;

verus! {

#[derive(Debug, Clone, Copy, PartialEq, Eq, Structural)]
pub enum SubagentKind {
    Explore,
    Plan,
    General,
}

/// The tools that only read.
pub open spec fn reading_tools() -> Seq<Seq<char>> {
    seq![
        "read_file"@,
        "glob"@,
        "grep"@,
        "list_dir"@,
        "outline"@,
        "symbol_search"@,
        "repo_map"@,
        "git_status"@,
        "git_diff"@,
        "git_log"@,
    ]
}

pub fn explore_tools() -> (r: Vec<String>)
    ensures
        strings(r@) == reading_tools(),
{
    let r = vec![
        "read_file".to_owned(),
        "glob".to_owned(),
        "grep".to_owned(),
        "list_dir".to_owned(),
        "outline".to_owned(),
        "symbol_search".to_owned(),
        "repo_map".to_owned(),
        "git_status".to_owned(),
        "git_diff".to_owned(),
        "git_log".to_owned(),
    ];
    assert(strings(r@) =~= reading_tools());
    r
}

impl SubagentKind {
    /// The tools of a subagent: those that read, or all but those that make further agents
    /// and plans.
    pub open spec fn tools_among(self, tools: Seq<ToolSpecV>) -> Seq<ToolSpecV> {
        match self {
            SubagentKind::General => kept(tools, seq!["spawn_agent"@, "write_plan"@], false, tools.len()),
            _ => kept(tools, reading_tools(), true, tools.len()),
        }
    }

    pub open spec fn name(self) -> Seq<char> {
        match self {
            SubagentKind::Explore => "Explore"@,
            SubagentKind::Plan => "Plan"@,
            SubagentKind::General => "General"@,
        }
    }

    pub open spec fn prompt_for(self, env: PromptEnvV) -> Seq<char> {
        match self {
            SubagentKind::Explore => explore_prompt(env),
            SubagentKind::Plan => plan_prompt(env),
            SubagentKind::General => main_prompt(env),
        }
    }

    /// The tools that a subagent is held to; none where it is not.
    pub fn allowed_tools(self) -> (r: Option<Vec<String>>)
        ensures
            match r {
                Some(v) => self != SubagentKind::General && strings(v@) == reading_tools(),
                None => self == SubagentKind::General,
            },
    {
        match self {
            SubagentKind::Explore | SubagentKind::Plan => Some(explore_tools()),
            SubagentKind::General => None,
        }
    }

    pub fn task_class(self) -> (r: TaskClass)
        ensures
            r == (match self {
                SubagentKind::Explore => TaskClass::Explore,
                SubagentKind::Plan => TaskClass::Plan,
                SubagentKind::General => TaskClass::Chat,
            }),
    {
        match self {
            SubagentKind::Explore => TaskClass::Explore,
            SubagentKind::Plan => TaskClass::Plan,
            SubagentKind::General => TaskClass::Chat,
        }
    }

    pub fn max_turns(self) -> (r: u32)
        ensures
            r == (match self {
                SubagentKind::Explore => 15u32,
                SubagentKind::Plan => 20,
                SubagentKind::General => 25,
            }),
    {
        match self {
            SubagentKind::Explore => 15,
            SubagentKind::Plan => 20,
            SubagentKind::General => 25,
        }
    }

    /// The registry of a subagent.
    pub fn registry(self, full: &ToolRegistry) -> (r: ToolRegistry)
        requires
            full.wf(),
        ensures
            r.wf(),
            r@ == (RegistryV { tools: self.tools_among(full@.tools), frozen: None }),
    {
        match self.allowed_tools() {
            Some(allow) => full.scoped(&allow),
            None => {
                let deny = vec!["spawn_agent".to_owned(), "write_plan".to_owned()];
                assert(strings(deny@) =~= seq!["spawn_agent"@, "write_plan"@]);
                full.without(&deny)
            },
        }
    }

    /// The word for the sort of a subagent.
    pub fn as_str(self) -> (r: &'static str)
        ensures
            r@ == self.name(),
    {
        match self {
            SubagentKind::Explore => "Explore",
            SubagentKind::Plan => "Plan",
            SubagentKind::General => "General",
        }
    }

    /// What a subagent with the given tools is told.
    pub fn system_prompt(self, env: &PromptEnv, tool_names: Vec<String>) -> (r: String)
        ensures
            r@ == self.prompt_for(
                PromptEnvV { tool_names: strings(tool_names@), has_repo_map: false, ..env@ },
            ),
    {
        let own = PromptEnv {
            os: env.os.clone(),
            shell: env.shell.clone(),
            cwd: env.cwd.clone(),
            is_git: env.is_git,
            languages: copy_strings(&env.languages),
            tool_names,
            has_repo_map: false,
        };
        match self {
            SubagentKind::Explore => explore_system_prompt(&own),
            SubagentKind::Plan => plan_system_prompt(&own),
            SubagentKind::General => main_system_prompt(&own),
        }
    }
}

proof fn lemma_kept_only(tools: Seq<ToolSpecV>, names: Seq<Seq<char>>, want: bool, n: nat)
    requires
        n <= tools.len(),
    ensures
        forall|i: int|
            0 <= i < kept(tools, names, want, n).len() ==> names.contains(
                (#[trigger] kept(tools, names, want, n)[i]).name,
            ) == want,
    decreases n,
{
    if n > 0 {
        lemma_kept_only(tools, names, want, (n - 1) as nat);
        let p = kept(tools, names, want, (n - 1) as nat);
        let r = kept(tools, names, want, n);
        assert forall|i: int| 0 <= i < r.len() implies names.contains((#[trigger] r[i]).name) == want by {
            if i < p.len() {
                assert(r[i] == p[i]);
            }
        }
    }
}

/// A subagent that explores or plans has only tools that read, and no subagent can make
/// further subagents.
pub proof fn law_subagents_are_confined(kind: SubagentKind, tools: Seq<ToolSpecV>, i: int)
    requires
        0 <= i < kind.tools_among(tools).len(),
    ensures
        kind != SubagentKind::General ==> reading_tools().contains(kind.tools_among(tools)[i].name),
        kind.tools_among(tools)[i].name != "spawn_agent"@,
{
    lemma_kept_only(tools, reading_tools(), true, tools.len());
    let deny = seq!["spawn_agent"@, "write_plan"@];
    lemma_kept_only(tools, deny, false, tools.len());
    assert(deny[0] == "spawn_agent"@);
    assert(deny.contains("spawn_agent"@));
    reveal_strlit("spawn_agent");
    reveal_strlit("read_file");
    reveal_strlit("glob");
    reveal_strlit("grep");
    reveal_strlit("list_dir");
    reveal_strlit("outline");
    reveal_strlit("symbol_search");
    reveal_strlit("repo_map");
    reveal_strlit("git_status");
    reveal_strlit("git_diff");
    reveal_strlit("git_log");
    assert(forall|k: int| 0 <= k < reading_tools().len() ==> (#[trigger] reading_tools()[k]).len() != 11);
}

/// The most bytes of a report.
pub const REPORT_CAP: usize = 8000;

/// A report that is not too long, or its start.
pub open spec fn capped(s: Seq<char>) -> Seq<char> {
    if byte_len(s) <= REPORT_CAP {
        s
    } else {
        s.take(bytes_at(s, REPORT_CAP as nat, 0)->Some_0) + "…\n[report truncated]"@
    }
}

pub open spec fn report_of(last: Option<Seq<char>>) -> Seq<char> {
    match last {
        Some(t) => t,
        None => "(subagent produced no final message)"@,
    }
}

/// Whether a report can be cut at the cap: no character lies across it.
pub open spec fn cuttable(s: Seq<char>) -> bool {
    byte_len(s) <= REPORT_CAP || bytes_at(s, REPORT_CAP as nat, 0) is Some
}

/// Whether a report can be cut at the cap.
pub fn can_cut(s: &str) -> (r: bool)
    ensures
        r == cuttable(s@),
{
    bytes_in(s) <= REPORT_CAP || byte_prefix(s, REPORT_CAP).is_some()
}

/// The answer of a subagent to the agent that called it, and whether it is an error.
pub fn subagent_report(kind: SubagentKind, outcome: &AgentOutcome, turns: u32, last: Option<&str>) -> (r: (String, bool))
    requires
        last matches Some(t) ==> cuttable(t@),
    ensures
        r.0@ == "[subagent "@ + kind.name() + " · "@ + outcome@.name() + " · "@ + dec(turns as nat) + " turns]\n"@
            + capped(
            report_of(
                match last {
                    Some(t) => Some(t@),
                    None => None,
                },
            ),
        ),
        r.1 == !(outcome@ is EndTurn),
{
    let shown = match last {
        Some(report) => if bytes_in(report) <= REPORT_CAP {
            report.to_owned()
        } else {
            match byte_prefix(report, REPORT_CAP) {
                Some(head) => head.concat("…\n[report truncated]"),
                None => report.to_owned(),
            }
        },
        None => {
            proof {
                reveal_strlit("(subagent produced no final message)");
                let m = "(subagent produced no final message)"@;
                is_ascii_chars_encode_utf8(m);
            }
            "(subagent produced no final message)".to_owned()
        },
    };
    let text = "[subagent ".to_owned().concat(kind.as_str()).concat(" · ").concat(outcome.as_str()).concat(" · ").concat(
        dec_u64(turns as u64).as_str(),
    ).concat(" turns]\n").concat(shown.as_str());
    let failed = match outcome {
        AgentOutcome::EndTurn => false,
        _ => true,
    };
    (text, failed)
}

/// A report that is short enough is handed on as it is; of a longer one the beginning, with a mark
/// that it was cut.
pub proof fn law_a_report_is_cut_at_its_end(s: Seq<char>)
    requires
        cuttable(s),
    ensures
        byte_len(s) <= 8000 ==> capped(s) == s,
        byte_len(s) > 8000 ==> exists|k: int|
            0 <= k <= s.len() && byte_len(#[trigger] s.take(k)) == 8000 && capped(s) == s.take(k)
                + "…\n[report truncated]"@,
        report_of(Some(s)) == s,
{
    law_bytes_end_a_character(s, 8000, 0);
}

} // verus!
