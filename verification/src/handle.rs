//! How an agent is driven: the commands it takes, and what each of them brings about.

use crate::agent::{Agent, AgentOutcome, AgentV, warning};
use crate::digest::hex;
use crate::events::{AgentEvent, AgentEventV};
use crate::message::opt_string;
use crate::task::TaskClass;
use vstd::prelude::*;
use vstd::string::*;

verus! {

#[derive(Debug, Clone, Copy, PartialEq, Eq, Structural)]
pub enum AgentMode {
    Main,
    Plan,
}

impl AgentMode {
    pub open spec fn name(self) -> Seq<char> {
        match self {
            AgentMode::Main => "Main"@,
            AgentMode::Plan => "Plan"@,
        }
    }

    pub fn as_str(self) -> (r: &'static str)
        ensures
            r@ == self.name(),
    {
        match self {
            AgentMode::Main => "Main",
            AgentMode::Plan => "Plan",
        }
    }
}

/// What an agent can be told to do.
#[derive(Debug)]
pub enum AgentCmd {
    UserMessage(String),
    /// Another agent takes over in the given mode, and gets a first message.
    SwitchMode { mode: AgentMode, first_message: Option<String> },
    SetEffort(Option<String>),
    SetTask(TaskClass),
    Compact,
    Stats,
    Shutdown,
}

/// What is known of an agent's context.
#[derive(Debug)]
pub struct AgentStats {
    pub used_tokens: u32,
    pub n_ctx: u32,
    pub compactions: u32,
    pub messages: usize,
    pub prefix_hash: String,
    pub turn: u32,
    pub slot_switches: u64,
}

/// What the driver does for a command.
#[derive(Debug)]
pub enum HandleStep {
    /// Run a turn with the text.
    Run(String),
    /// Make an agent for the mode.
    Make { mode: AgentMode, first_message: Option<String> },
    /// Summarize the conversation.
    Compact,
    /// Answer with what is known of the context.
    Answer,
    /// Nothing but to tell this.
    Tell(AgentEvent),
    /// Nothing.
    Idle,
    /// Stop.
    Stop,
}

pub enum HandleStepV {
    Run(Seq<char>),
    Make(AgentMode, Option<Seq<char>>),
    Compact,
    Answer,
    Tell(AgentEventV),
    Idle,
    Stop,
}

impl View for HandleStep {
    type V = HandleStepV;

    open spec fn view(&self) -> HandleStepV {
        match self {
            HandleStep::Run(s) => HandleStepV::Run(s@),
            HandleStep::Make { mode, first_message } => HandleStepV::Make(*mode, opt_string(*first_message)),
            HandleStep::Compact => HandleStepV::Compact,
            HandleStep::Answer => HandleStepV::Answer,
            HandleStep::Tell(e) => HandleStepV::Tell(e@),
            HandleStep::Idle => HandleStepV::Idle,
            HandleStep::Stop => HandleStepV::Stop,
        }
    }
}

/// The driver of an agent: what it is doing, and in which mode the agent is.
#[derive(Debug)]
pub struct AgentHandle {
    pub mode: AgentMode,
    pub busy: bool,
    /// Whether agents for other modes can be made.
    pub can_switch: bool,
}

/// What a command brings about.
pub open spec fn step_for(cmd: AgentCmd, can_switch: bool) -> HandleStepV {
    match cmd {
        AgentCmd::UserMessage(t) => HandleStepV::Run(t@),
        AgentCmd::SwitchMode { mode, first_message } => if can_switch {
            HandleStepV::Make(mode, opt_string(first_message))
        } else {
            HandleStepV::Tell(warning("mode switching not available"@))
        },
        AgentCmd::SetEffort(_) => HandleStepV::Idle,
        AgentCmd::SetTask(_) => HandleStepV::Idle,
        AgentCmd::Compact => HandleStepV::Compact,
        AgentCmd::Stats => HandleStepV::Answer,
        AgentCmd::Shutdown => HandleStepV::Stop,
    }
}

impl AgentHandle {
    pub fn new(can_switch: bool) -> (r: AgentHandle)
        ensures
            r.mode == AgentMode::Main,
            !r.busy,
            r.can_switch == can_switch,
    {
        AgentHandle { mode: AgentMode::Main, busy: false, can_switch }
    }

    pub fn mode(&self) -> (r: AgentMode)
        ensures
            r == self.mode,
    {
        self.mode
    }

    pub fn is_busy(&self) -> (r: bool)
        ensures
            r == self.busy,
    {
        self.busy
    }

    /// Takes a command: sets what it sets on the agent, and says what is to be done.
    pub fn command(&mut self, agent: &mut Agent, cmd: AgentCmd) -> (r: HandleStep)
        requires
            old(agent).wf(),
        ensures
            final(agent).wf(),
            r@ == step_for(cmd, old(self).can_switch),
            final(agent)@ == (match cmd {
                AgentCmd::SetEffort(e) => AgentV { effort_override: opt_string(e), ..old(agent)@ },
                AgentCmd::SetTask(t) => AgentV { task: t, ..old(agent)@ },
                _ => old(agent)@,
            }),
            final(self).busy == (r@ is Run || old(self).busy),
            final(self).mode == old(self).mode,
            final(self).can_switch == old(self).can_switch,
    {
        match cmd {
            AgentCmd::UserMessage(t) => {
                self.busy = true;
                HandleStep::Run(t)
            },
            AgentCmd::SwitchMode { mode, first_message } => {
                if self.can_switch {
                    HandleStep::Make { mode, first_message }
                } else {
                    HandleStep::Tell(AgentEvent::Warning { text: "mode switching not available".to_owned() })
                }
            },
            AgentCmd::SetEffort(e) => {
                agent.effort_override = e;
                HandleStep::Idle
            },
            AgentCmd::SetTask(t) => {
                agent.task = t;
                HandleStep::Idle
            },
            AgentCmd::Compact => HandleStep::Compact,
            AgentCmd::Stats => HandleStep::Answer,
            AgentCmd::Shutdown => HandleStep::Stop,
        }
    }

    /// An agent for another mode was made: it takes over, this is told, and its first
    /// message is run.
    pub fn switched(&mut self, mode: AgentMode, first_message: Option<String>) -> (r: (AgentEvent, HandleStep))
        ensures
            r.0@ == warning("switched to "@ + mode.name() + " mode (fresh context)"@),
            r.1@ == (match opt_string(first_message) {
                Some(t) => HandleStepV::Run(t),
                None => HandleStepV::Idle,
            }),
            final(self).mode == mode,
            final(self).busy == (first_message is Some || old(self).busy),
            final(self).can_switch == old(self).can_switch,
    {
        self.mode = mode;
        let e = AgentEvent::Warning {
            text: "switched to ".to_owned().concat(mode.as_str()).concat(" mode (fresh context)"),
        };
        match first_message {
            Some(t) => {
                self.busy = true;
                (e, HandleStep::Run(t))
            },
            None => (e, HandleStep::Idle),
        }
    }

    /// No agent for another mode could be made: this is told.
    pub fn switch_failed(&self, err: &str) -> (r: AgentEvent)
        ensures
            r@ == (AgentEventV::Error { text: "could not switch mode: "@ + err@ }),
    {
        AgentEvent::Error { text: "could not switch mode: ".to_owned().concat(err) }
    }

    /// A turn has ended: this is told.
    pub fn finished(&mut self, outcome: &AgentOutcome, turns: u32) -> (r: AgentEvent)
        ensures
            r@ == (AgentEventV::Finished { reason: outcome@.name(), turns }),
            !final(self).busy,
            final(self).mode == old(self).mode,
            final(self).can_switch == old(self).can_switch,
    {
        self.busy = false;
        AgentEvent::Finished { reason: outcome.as_str().to_owned(), turns }
    }
}

/// What is known of an agent's context. `estimates` holds a token estimate for each
/// message.
pub fn stats(agent: &Agent, estimates: &Vec<u32>, slot_switches: u64) -> (r: AgentStats)
    requires
        agent@.ctx.countable(estimates@),
    ensures
        r.used_tokens == agent@.ctx.estimated(estimates@),
        r.n_ctx == agent@.ctx.n_ctx,
        r.compactions == agent@.ctx.compactions,
        r.messages == agent@.ctx.log.len(),
        r.prefix_hash@ == hex(agent@.ctx.prefix.bytes_hash),
        r.turn == agent@.guard.turn,
        r.slot_switches == slot_switches,
{
    AgentStats {
        used_tokens: agent.ctx.used_tokens_estimate(estimates),
        n_ctx: agent.ctx.n_ctx(),
        compactions: agent.ctx.compactions(),
        messages: agent.ctx.len(),
        prefix_hash: agent.ctx.prefix().hash_hex(),
        turn: agent.turn(),
        slot_switches,
    }
}

/// What the user writes is run; another mode is switched to only where that can be done, with the
/// message that goes along; a summary, an answer and a stop are what they are called.
pub proof fn law_commands_do_what_they_say(cmd: AgentCmd, can_switch: bool)
    ensures
        cmd matches AgentCmd::UserMessage(t) ==> step_for(cmd, can_switch) == HandleStepV::Run(t@),
        cmd matches AgentCmd::SwitchMode { mode, first_message } ==> (can_switch ==> step_for(cmd, can_switch)
            == HandleStepV::Make(mode, opt_string(first_message))) && (!can_switch ==> step_for(cmd, can_switch) is Tell),
        cmd is Compact ==> step_for(cmd, can_switch) is Compact,
        cmd is Stats ==> step_for(cmd, can_switch) is Answer,
        cmd is Shutdown ==> step_for(cmd, can_switch) is Stop,
        cmd is SetEffort || cmd is SetTask ==> step_for(cmd, can_switch) is Idle,
{
}

} // verus!
