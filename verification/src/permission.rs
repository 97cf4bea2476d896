//! Permissions: whether a tool call may run, must be asked for, or is refused.

use crate::json::JsonV;
use crate::message::{ToolCall, ToolCallV};
use crate::search::{is_match, regex_matches};
use crate::text::{copy_strings, list_contains, str_eq, strings};
use vstd::prelude::*;
use vstd::string::*;

verus! {

#[derive(Debug, Clone, Copy, PartialEq, Eq, Structural)]
pub enum PermissionMode {
    Ask,
    AutoAcceptEdits,
    Yolo,
}

/// What a tool can do.
#[derive(Debug, Clone, Copy, PartialEq, Eq, Structural)]
pub enum PermissionClass {
    ReadOnly,
    Exec,
    Network,
}

impl PermissionMode {
    /// Whether the mode asks before a call of a tool of a class: what only reads is never
    /// asked for, anything else is, but in the mode that asks for nothing.
    pub open spec fn asks_for(self, class: PermissionClass) -> bool {
        self != PermissionMode::Yolo && class != PermissionClass::ReadOnly
    }

    pub fn requires_prompt(self, class: PermissionClass) -> (r: bool)
        ensures
            r == self.asks_for(class),
    {
        self != PermissionMode::Yolo && class != PermissionClass::ReadOnly
    }
}

#[derive(Debug, Clone, Copy, PartialEq, Eq, Structural)]
pub enum PermissionDecision {
    Allow,
    /// Allow this and the later calls of the same tool in this session.
    AllowAlways,
    Deny,
}

/// What is to be done with a call.
#[derive(Debug, Clone, Copy, PartialEq, Eq, Structural)]
pub enum Verdict {
    Allow,
    Deny,
    /// The user must be asked.
    Ask,
}

pub struct PermissionBroker {
    mode: PermissionMode,
    always_allow: Vec<String>,
    always_ask_shell: Vec<String>,
    has_ui: bool,
}

pub struct BrokerV {
    pub mode: PermissionMode,
    pub always_allow: Seq<Seq<char>>,
    pub always_ask_shell: Seq<Seq<char>>,
    pub has_ui: bool,
}

impl View for PermissionBroker {
    type V = BrokerV;

    closed spec fn view(&self) -> BrokerV {
        BrokerV {
            mode: self.mode,
            always_allow: strings(self.always_allow@),
            always_ask_shell: strings(self.always_ask_shell@),
            has_ui: self.has_ui,
        }
    }
}

/// The command of a shell call; empty where it has none.
pub open spec fn shell_command(c: ToolCallV) -> Seq<char> {
    match c.arguments.get_str("command"@) {
        Some(s) => s,
        None => Seq::empty(),
    }
}

/// One of the first `n` patterns matches a command, whatever the case. A pattern
/// that is no regular expression matches nothing.
pub open spec fn some_pattern_matches(patterns: Seq<Seq<char>>, cmd: Seq<char>, n: nat) -> bool
    decreases n,
{
    n > 0 && n <= patterns.len() && (some_pattern_matches(patterns, cmd, (n - 1) as nat) || regex_matches(
        "(?i)"@ + patterns[n - 1],
        cmd,
    ) == Some(true))
}

impl BrokerV {
    /// The call is a shell command that is always asked for.
    pub open spec fn dangerous(self, c: ToolCallV) -> bool {
        c.name == "shell"@ && some_pattern_matches(
            self.always_ask_shell,
            shell_command(c),
            self.always_ask_shell.len(),
        )
    }

    /// The user is to be asked about a call of a tool of a class.
    pub open spec fn prompts(self, c: ToolCallV, class: PermissionClass) -> bool {
        if self.mode == PermissionMode::Yolo {
            false
        } else if self.dangerous(c) {
            true
        } else if self.always_allow.contains(c.name) {
            false
        } else {
            self.mode.asks_for(class)
        }
    }

    /// The broker after a decision on a call of a tool: one that is allowed for good is
    /// remembered.
    pub open spec fn after(self, name: Seq<char>, d: PermissionDecision) -> BrokerV {
        BrokerV {
            always_allow: if d == PermissionDecision::AllowAlways && !self.always_allow.contains(name) {
                self.always_allow.push(name)
            } else {
                self.always_allow
            },
            ..self
        }
    }

    /// What is to be done with a call. Where nobody can be asked it is refused.
    pub open spec fn verdict(self, c: ToolCallV, class: PermissionClass) -> Verdict {
        if !self.prompts(c, class) {
            Verdict::Allow
        } else if self.has_ui {
            Verdict::Ask
        } else {
            Verdict::Deny
        }
    }
}

/// In the mode that asks for nothing every call is allowed, and none is asked for.
pub proof fn law_yolo_never_prompts(b: BrokerV, c: ToolCallV, class: PermissionClass)
    requires
        b.mode == PermissionMode::Yolo,
    ensures
        !b.prompts(c, class),
        b.verdict(c, class) == Verdict::Allow,
{
}

/// A dangerous shell command is asked for in every other mode, even where its tool
/// is always allowed; without a user interface it is refused.
pub proof fn law_dangerous_is_never_silent(b: BrokerV, c: ToolCallV, class: PermissionClass)
    requires
        b.mode != PermissionMode::Yolo,
        b.dangerous(c),
    ensures
        b.prompts(c, class),
        b.verdict(c, class) == (if b.has_ui {
            Verdict::Ask
        } else {
            Verdict::Deny
        }),
{
}

/// A tool that was allowed for good is not asked for again, but for dangerous commands.
pub proof fn law_allowed_for_good(b: BrokerV, c: ToolCallV, later: ToolCallV, class: PermissionClass)
    requires
        later.name == c.name,
        !b.dangerous(later),
    ensures
        !b.after(c.name, PermissionDecision::AllowAlways).prompts(later, class),
{
    let a = b.after(c.name, PermissionDecision::AllowAlways);
    if !b.always_allow.contains(c.name) {
        assert(a.always_allow.last() == c.name);
    }
}

impl PermissionBroker {
    pub fn new(
        mode: PermissionMode,
        always_allow: &Vec<String>,
        always_ask_shell: &Vec<String>,
        has_ui: bool,
    ) -> (r: PermissionBroker)
        ensures
            r@ == (BrokerV {
                mode,
                always_allow: strings(always_allow@),
                always_ask_shell: strings(always_ask_shell@),
                has_ui,
            }),
    {
        PermissionBroker {
            mode,
            always_allow: copy_strings(always_allow),
            always_ask_shell: copy_strings(always_ask_shell),
            has_ui,
        }
    }

    pub fn set_mode(&mut self, m: PermissionMode)
        ensures
            final(self)@ == (BrokerV { mode: m, ..old(self)@ }),
    {
        self.mode = m;
    }

    pub fn mode(&self) -> (r: PermissionMode)
        ensures
            r == self@.mode,
    {
        self.mode
    }

    pub fn is_dangerous_shell(&self, call: &ToolCall) -> (r: bool)
        ensures
            r == self@.dangerous(call@),
    {
        if !str_eq(call.name.as_str(), "shell") {
            return false;
        }
        let cmd = match call.arguments.get_str("command") {
            Some(s) => s.to_owned(),
            None => String::new(),
        };
        assert(cmd@ == shell_command(call@));
        let mut found = false;
        let mut i: usize = 0;
        let ghost ps = self@.always_ask_shell;
        while i < self.always_ask_shell.len()
            invariant
                i <= self.always_ask_shell.len(),
                ps == self@.always_ask_shell,
                cmd@ == shell_command(call@),
                found == some_pattern_matches(ps, cmd@, i as nat),
            decreases self.always_ask_shell.len() - i,
        {
            assert(ps[i as int] == self.always_ask_shell@[i as int]@);
            let p = "(?i)".to_owned().concat(self.always_ask_shell[i].as_str());
            match is_match(p.as_str(), cmd.as_str()) {
                Some(b) => {
                    if b {
                        found = true;
                    }
                },
                None => {},
            }
            i += 1;
        }
        found
    }

    /// Whether the user is to be asked about a call of a tool of a class.
    pub fn needs_prompt(&self, call: &ToolCall, class: PermissionClass) -> (r: bool)
        ensures
            r == self@.prompts(call@, class),
    {
        if self.mode == PermissionMode::Yolo {
            return false;
        }
        if self.is_dangerous_shell(call) {
            return true;
        }
        if list_contains(&self.always_allow, call.name.as_str()) {
            return false;
        }
        self.mode.requires_prompt(class)
    }

    /// What is to be done with a call.
    pub fn resolve(&self, call: &ToolCall, class: PermissionClass) -> (r: Verdict)
        ensures
            r == self@.verdict(call@, class),
    {
        if !self.needs_prompt(call, class) {
            Verdict::Allow
        } else if self.has_ui {
            Verdict::Ask
        } else {
            Verdict::Deny
        }
    }

    /// Takes the user's answer; no answer is a refusal. A tool that is allowed for
    /// good is remembered.
    pub fn settle(&mut self, call: &ToolCall, answer: Option<PermissionDecision>) -> (r: PermissionDecision)
        ensures
            r == (match answer {
                Some(d) => d,
                None => PermissionDecision::Deny,
            }),
            final(self)@ == old(self)@.after(call.name@, r),
    {
        let d = match answer {
            Some(d) => d,
            None => PermissionDecision::Deny,
        };
        if d == PermissionDecision::AllowAlways && !list_contains(&self.always_allow, call.name.as_str()) {
            self.always_allow.push(call.name.clone());
            assert(self@.always_allow =~= old(self)@.always_allow.push(call.name@));
        }
        d
    }
}

/// A command is dangerous where one of the patterns matches it, whatever the case, and only
/// there; and only that of a shell call is.
pub proof fn law_a_pattern_makes_dangerous(b: BrokerV, c: ToolCallV)
    ensures
        b.dangerous(c) <==> c.name == "shell"@ && exists|i: int|
            0 <= i < b.always_ask_shell.len() && regex_matches("(?i)"@ + #[trigger] b.always_ask_shell[i], shell_command(c))
                == Some(true),
        forall|cmd: Seq<char>| c.arguments.get("command"@) == Some(JsonV::Str(cmd)) ==> #[trigger] shell_command(c) == cmd,
{
    lemma_some_pattern(b.always_ask_shell, shell_command(c), b.always_ask_shell.len());
}

proof fn lemma_some_pattern(patterns: Seq<Seq<char>>, cmd: Seq<char>, n: nat)
    requires
        n <= patterns.len(),
    ensures
        some_pattern_matches(patterns, cmd, n) <==> exists|i: int|
            0 <= i < n && regex_matches("(?i)"@ + #[trigger] patterns[i], cmd) == Some(true),
    decreases n,
{
    if n > 0 {
        lemma_some_pattern(patterns, cmd, (n - 1) as nat);
    }
}

/// Outside the mode that asks for nothing, the user is asked for every call that does more than
/// read and is neither dangerous nor allowed for good, and for none that only reads; where
/// nobody can be asked, what would be asked for is refused.
pub proof fn law_who_is_asked(b: BrokerV, c: ToolCallV, class: PermissionClass)
    requires
        b.mode != PermissionMode::Yolo,
        !b.dangerous(c),
    ensures
        class == PermissionClass::ReadOnly ==> b.verdict(c, class) == Verdict::Allow,
        b.always_allow.contains(c.name) ==> b.verdict(c, class) == Verdict::Allow,
        class != PermissionClass::ReadOnly && !b.always_allow.contains(c.name) ==> b.prompts(c, class) && (b.has_ui
            ==> b.verdict(c, class) == Verdict::Ask) && (!b.has_ui ==> b.verdict(c, class) == Verdict::Deny),
{
}

/// A decision for one call is forgotten; one for good is remembered, for its tool alone.
pub proof fn law_only_decisions_for_good_are_kept(b: BrokerV, name: Seq<char>, d: PermissionDecision, other: Seq<char>)
    ensures
        d != PermissionDecision::AllowAlways ==> b.after(name, d) == b,
        d == PermissionDecision::AllowAlways ==> b.after(name, d).always_allow.contains(name),
        other != name ==> (b.after(name, d).always_allow.contains(other) <==> b.always_allow.contains(other)),
        b.after(name, d).mode == b.mode,
        b.after(name, d).always_ask_shell == b.always_ask_shell,
{
    let a = b.always_allow;
    let r = b.after(name, d).always_allow;
    if d == PermissionDecision::AllowAlways && !a.contains(name) {
        assert(r[a.len() as int] == name);
        if a.contains(other) {
            let i = choose|i: int| 0 <= i < a.len() && a[i] == other;
            assert(r[i] == other);
        }
        if r.contains(other) && other != name {
            let i = choose|i: int| 0 <= i < r.len() && r[i] == other;
            assert(a[i] == other);
        }
    }
}

} // verus!
