//! The classes of tasks: how the next token is drawn in each, and with how much reasoning.

use crate::config::{Profile, ProfileV, Sampling, SamplingV};
use crate::json::opt_str;
use crate::text::{lowered, str_eq, string_of, to_lowered, trim_str, trimmed};
use vstd::prelude::*;

verus! {

#[derive(Debug, Clone, Copy, PartialEq, Eq, Hash, Structural)]
pub enum TaskClass {
    Chat,
    Plan,
    Explore,
    Edit,
    Summarize,
    CommitMsg,
}

impl TaskClass {
    pub open spec fn name(self) -> Seq<char> {
        match self {
            TaskClass::Chat => "chat"@,
            TaskClass::Plan => "plan"@,
            TaskClass::Explore => "explore"@,
            TaskClass::Edit => "edit"@,
            TaskClass::Summarize => "summarize"@,
            TaskClass::CommitMsg => "commit"@,
        }
    }

    pub open spec fn sampling_of(self, p: ProfileV) -> SamplingV {
        match self {
            TaskClass::Plan | TaskClass::Explore => p.sampling.thinking,
            TaskClass::Chat | TaskClass::Edit => p.sampling.coding,
            TaskClass::Summarize | TaskClass::CommitMsg => p.sampling.instruct,
        }
    }

    pub open spec fn effort_of(self, p: ProfileV) -> Seq<char> {
        match self {
            TaskClass::Plan => p.effort.plan,
            TaskClass::Explore => p.effort.explore,
            TaskClass::Edit => p.effort.edit,
            TaskClass::Chat => p.effort.chat,
            TaskClass::Summarize => p.effort.summarize,
            TaskClass::CommitMsg => p.effort.commit,
        }
    }

    pub fn sampling<'a>(self, p: &'a Profile) -> (r: &'a Sampling)
        ensures
            r@ == self.sampling_of(p@),
    {
        match self {
            TaskClass::Plan | TaskClass::Explore => &p.sampling.thinking,
            TaskClass::Chat | TaskClass::Edit => &p.sampling.coding,
            TaskClass::Summarize | TaskClass::CommitMsg => &p.sampling.instruct,
        }
    }

    pub fn effort<'a>(self, p: &'a Profile) -> (r: &'a str)
        ensures
            r@ == self.effort_of(p@),
    {
        match self {
            TaskClass::Plan => p.effort.plan.as_str(),
            TaskClass::Explore => p.effort.explore.as_str(),
            TaskClass::Edit => p.effort.edit.as_str(),
            TaskClass::Chat => p.effort.chat.as_str(),
            TaskClass::Summarize => p.effort.summarize.as_str(),
            TaskClass::CommitMsg => p.effort.commit.as_str(),
        }
    }

    pub fn as_str(self) -> (r: &'static str)
        ensures
            r@ == self.name(),
    {
        match self {
            TaskClass::Chat => "chat",
            TaskClass::Plan => "plan",
            TaskClass::Explore => "explore",
            TaskClass::Edit => "edit",
            TaskClass::Summarize => "summarize",
            TaskClass::CommitMsg => "commit",
        }
    }
}

/// The effort that a word of the user's means.
pub open spec fn effort_meant(s: Seq<char>) -> Option<Seq<char>> {
    let w = lowered(trimmed(s));
    if w == "xhigh"@ || w == "max"@ || w == "high"@ {
        Some("xhigh"@)
    } else if w == "medium"@ || w == "med"@ {
        Some("medium"@)
    } else if w == "low"@ {
        Some("low"@)
    } else if w == "none"@ || w == "off"@ || w == "no"@ {
        Some("none"@)
    } else {
        None
    }
}

pub fn normalize_effort(s: &str) -> (r: Option<&'static str>)
    ensures
        opt_str(r) == effort_meant(s@),
{
    let t = trim_str(s);
    let l = string_of(&to_lowered(t.as_str()));
    let w = l.as_str();
    if str_eq(w, "xhigh") || str_eq(w, "max") || str_eq(w, "high") {
        Some("xhigh")
    } else if str_eq(w, "medium") || str_eq(w, "med") {
        Some("medium")
    } else if str_eq(w, "low") {
        Some("low")
    } else if str_eq(w, "none") || str_eq(w, "off") || str_eq(w, "no") {
        Some("none")
    } else {
        None
    }
}

/// The words for an effort, in any case and with white space around them, mean it.
pub proof fn law_words_for_an_effort(s: Seq<char>)
    ensures
        ({
            let w = lowered(trimmed(s));
            &&& w == "xhigh"@ || w == "max"@ || w == "high"@ ==> effort_meant(s) == Some("xhigh"@)
            &&& w == "medium"@ || w == "med"@ ==> effort_meant(s) == Some("medium"@)
            &&& w == "low"@ ==> effort_meant(s) == Some("low"@)
            &&& w == "none"@ || w == "off"@ || w == "no"@ ==> effort_meant(s) == Some("none"@)
            &&& effort_meant(s) matches Some(e) ==> e == "xhigh"@ || e == "medium"@ || e == "low"@ || e == "none"@
        }),
{
    reveal_strlit("xhigh");
    reveal_strlit("max");
    reveal_strlit("high");
    reveal_strlit("medium");
    reveal_strlit("med");
    reveal_strlit("low");
    reveal_strlit("none");
    reveal_strlit("off");
    reveal_strlit("no");
    assert("xhigh"@.len() == 5 && "high"@[0] == 'h' && "medium"@.len() == 6 && "none"@.len() == 4 && "none"@[0] == 'n');
    assert("max"@[0] == 'm' && "med"@[0] == 'm' && "max"@[1] == 'a' && "med"@[1] == 'e' && "low"@[0] == 'l' && "off"@[0]
        == 'o' && "no"@.len() == 2 && "med"@.len() == 3 && "max"@.len() == 3 && "low"@.len() == 3 && "off"@.len() == 3);
}

/// Planning and exploring sample for thinking, chat and editing for code, summaries and messages
/// as instructed; and each class of tasks has the effort that the profile gives it.
pub proof fn law_tasks_go_by_the_profile(p: ProfileV)
    ensures
        TaskClass::Plan.sampling_of(p) == p.sampling.thinking,
        TaskClass::Explore.sampling_of(p) == p.sampling.thinking,
        TaskClass::Chat.sampling_of(p) == p.sampling.coding,
        TaskClass::Edit.sampling_of(p) == p.sampling.coding,
        TaskClass::Summarize.sampling_of(p) == p.sampling.instruct,
        TaskClass::CommitMsg.sampling_of(p) == p.sampling.instruct,
        TaskClass::Plan.effort_of(p) == p.effort.plan,
        TaskClass::Explore.effort_of(p) == p.effort.explore,
        TaskClass::Edit.effort_of(p) == p.effort.edit,
        TaskClass::Chat.effort_of(p) == p.effort.chat,
        TaskClass::Summarize.effort_of(p) == p.effort.summarize,
        TaskClass::CommitMsg.effort_of(p) == p.effort.commit,
{
}

} // verus!
