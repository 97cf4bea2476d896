//! The life of the engine: how it is brought up, what is done when it fails, and when it
//! is brought up again.

use crate::client::{ChatRequest, LlamaClient, RequestV, opt_json};
use crate::config::{Config, ConfigV, EngineV, Profile, ProfileV, without_slashes};
use crate::discover::{alike, eq_ignore_case, repo_and_file, split_repo_file};
use crate::download::{Download, shard_names, shards, splittable};
use crate::facts::{FactsV, ModelFacts};
use crate::gpu::{GpuMem, mib_bytes, shift_mib};
use crate::json::{Json, JsonV, jsons, lemma_view, opt_str};
use crate::message::{object, opt_string};
use crate::parser::{set_member, with_member};
use crate::pathname::base_name;
use crate::paths::Surroundings;
use crate::server::{LogTail, last_of, model_display};
use crate::stamp::{END_OF_TIME, rfc3339_seconds};
use crate::text::{
    at, debug_text, dec, dec_u64, holds, is_digit, joined, law_decimal_is_read_back, lower, lowered,
    number, quoted, str_eq, strings,
};
use crate::tune::{TunedProfile, TunedV};
use crate::vram::{
    KvType, MIB, PlanOpts, PlanPrefs, PlanV, PrefsV, Setup, VramPlan, VramPlanner,
    ffn_override_regex, kv_per_token, needed, override_of,
};
use vstd::prelude::*;
use vstd::string::*;

verus! {

/// What the engine is doing.
#[derive(Debug, PartialEq, Eq)]
pub enum EngineState {
    Stopped,
    Resolving,
    Starting { attempt: u32 },
    Loading { elapsed_s: u64 },
    Ready { n_ctx: u32, model: String },
    Crashed { attempts: u32, reason: String },
    Restarting,
    External,
}

pub enum StateV {
    Stopped,
    Resolving,
    Starting(u32),
    Loading(u64),
    Ready(u32, Seq<char>),
    Crashed(u32, Seq<char>),
    Restarting,
    External,
}

impl View for EngineState {
    type V = StateV;

    open spec fn view(&self) -> StateV {
        match self {
            EngineState::Stopped => StateV::Stopped,
            EngineState::Resolving => StateV::Resolving,
            EngineState::Starting { attempt } => StateV::Starting(*attempt),
            EngineState::Loading { elapsed_s } => StateV::Loading(*elapsed_s),
            EngineState::Ready { n_ctx, model } => StateV::Ready(*n_ctx, model@),
            EngineState::Crashed { attempts, reason } => StateV::Crashed(*attempts, reason@),
            EngineState::Restarting => StateV::Restarting,
            EngineState::External => StateV::External,
        }
    }
}

impl StateV {
    pub open spec fn ready(self) -> bool {
        self is Ready || self is External
    }

    /// The engine was told to stop, or is about to be started anew.
    pub open spec fn stopping(self) -> bool {
        self is Stopped || self is Restarting
    }
}

impl EngineState {
    pub fn is_ready(&self) -> (r: bool)
        ensures
            r == self@.ready(),
    {
        match self {
            EngineState::Ready { .. } | EngineState::External => true,
            _ => false,
        }
    }

    pub fn copy(&self) -> (r: EngineState)
        ensures
            r@ == self@,
    {
        match self {
            EngineState::Stopped => EngineState::Stopped,
            EngineState::Resolving => EngineState::Resolving,
            EngineState::Starting { attempt } => EngineState::Starting { attempt: *attempt },
            EngineState::Loading { elapsed_s } => EngineState::Loading { elapsed_s: *elapsed_s },
            EngineState::Ready { n_ctx, model } => EngineState::Ready { n_ctx: *n_ctx, model: model.clone() },
            EngineState::Crashed { attempts, reason } => EngineState::Crashed {
                attempts: *attempts,
                reason: reason.clone(),
            },
            EngineState::Restarting => EngineState::Restarting,
            EngineState::External => EngineState::External,
        }
    }

    fn is_stopping(&self) -> (r: bool)
        ensures
            r == self@.stopping(),
    {
        match self {
            EngineState::Stopped | EngineState::Restarting => true,
            _ => false,
        }
    }
}

// ---------------------------------------------------------------- where from

/// Where a model comes from.
#[derive(Debug)]
pub enum ModelSource {
    Local(String),
    Download { repo: String, shards: Vec<String>, dest: String },
    Missing(String),
}

pub enum ModelSourceV {
    Local(Seq<char>),
    Download(Seq<char>, Seq<Seq<char>>, Seq<char>),
    Missing(Seq<char>),
}

impl View for ModelSource {
    type V = ModelSourceV;

    open spec fn view(&self) -> ModelSourceV {
        match self {
            ModelSource::Local(p) => ModelSourceV::Local(p@),
            ModelSource::Download { repo, shards, dest } => ModelSourceV::Download(repo@, strings(shards@), dest@),
            ModelSource::Missing(m) => ModelSourceV::Missing(m@),
        }
    }
}

/// A model that was found is used; one given by its repository is fetched, shard by
/// shard; any other is missing.
pub open spec fn source_of(found: Option<Seq<char>>, model: Seq<char>, dest: Seq<char>) -> ModelSourceV {
    match found {
        Some(p) => ModelSourceV::Local(p),
        None => match repo_and_file(model).0 {
            Some(repo) => ModelSourceV::Download(repo, shards(repo_and_file(model).1), dest),
            None => ModelSourceV::Missing(
                "model "@ + debug_text(model)
                    + " not found locally (searched models_dir + extra_search_dirs) and is not a hf `repo:file` spec"@,
            ),
        },
    }
}

pub fn model_source(found: Option<String>, model: &str, dest: &str) -> (r: ModelSource)
    requires
        splittable(repo_and_file(model@).1),
    ensures
        r@ == source_of(opt_string(found), model@, dest@),
{
    match found {
        Some(p) => ModelSource::Local(p),
        None => {
            let (repo, file) = split_repo_file(model);
            match repo {
                Some(repo) => ModelSource::Download {
                    repo,
                    shards: shard_names(file.as_str()),
                    dest: dest.to_owned(),
                },
                None => ModelSource::Missing(
                    "model ".to_owned().concat(quoted(model).as_str()).concat(
                        " not found locally (searched models_dir + extra_search_dirs) and is not a hf `repo:file` spec",
                    ),
                ),
            }
        },
    }
}

// ---------------------------------------------------------------- planning

pub open spec fn opts_of(e: EngineV, p: ProfileV, has_mtp: bool) -> PlanOpts {
    PlanOpts {
        kv_type: if p.flash_attn {
            KvType::named(p.kv_type)
        } else {
            KvType::F16
        },
        ubatch: p.ubatch,
        ctx_checkpoints: p.ctx_checkpoints,
        mtp: p.spec == "draft-mtp"@ && has_mtp,
        cuda_context_bytes: mib_bytes(e.cuda_context_mib) as u64,
        safety_bytes: mib_bytes(e.vram_safety_mib) as u64,
    }
}

pub open spec fn prefs_of(p: ProfileV) -> PrefsV {
    PrefsV {
        pref_ctx: p.ctx,
        min_ctx: p.ctx_min,
        allow_offload: true,
        fixed_ngl: if alike(p.ngl, "auto"@) {
            None
        } else {
            match number(p.ngl, 0xffff_ffff) {
                Some(n) => Some(n as u32),
                None => None,
            }
        },
        fixed_ot: if alike(p.override_tensor, "auto"@) {
            None
        } else {
            Some(p.override_tensor)
        },
    }
}

/// What is planned for a model on the free memory.
pub open spec fn planned(e: EngineV, p: ProfileV, f: FactsV, free: u64) -> PlanV {
    Setup { f, free, prefs: prefs_of(p), o: opts_of(e, p, f.has_mtp) }.plan()
}

impl EngineManager {
    pub fn plan_opts_for(cfg: &Config, profile: &Profile, has_mtp: bool) -> (r: PlanOpts)
        ensures
            r == opts_of(cfg.engine@, profile@, has_mtp),
    {
        PlanOpts {
            kv_type: if profile.flash_attn {
                KvType::parse(profile.kv_type.as_str())
            } else {
                KvType::F16
            },
            ubatch: profile.ubatch,
            ctx_checkpoints: profile.ctx_checkpoints,
            mtp: str_eq(profile.spec.as_str(), "draft-mtp") && has_mtp,
            cuda_context_bytes: shift_mib(cfg.engine.cuda_context_mib),
            safety_bytes: shift_mib(cfg.engine.vram_safety_mib),
        }
    }

    pub fn plan_for(
        cfg: &Config,
        profile: &Profile,
        facts: &ModelFacts,
        free_vram_bytes: u64,
        total_vram_bytes: u64,
        free_ram: u64,
    ) -> (r: VramPlan)
        requires
            facts.n_layer < u32::MAX,
        ensures
            r@ == planned(cfg.engine@, profile@, facts@, free_vram_bytes),
    {
        let planner = VramPlanner { facts, free_vram: free_vram_bytes, total_vram: total_vram_bytes, free_ram };
        let prefs = PlanPrefs {
            pref_ctx: profile.ctx,
            min_ctx: profile.ctx_min,
            allow_offload: true,
            fixed_ngl: if profile.ngl_auto() {
                None
            } else {
                profile.ngl_value()
            },
            fixed_ot: if eq_ignore_case(profile.override_tensor.as_str(), "auto") {
                None
            } else {
                Some(profile.override_tensor.clone())
            },
        };
        let o = EngineManager::plan_opts_for(cfg, profile, facts.has_mtp);
        let ghost s = planner.setup(&prefs, &o);
        assert(s.prefs == prefs_of(profile@));
        planner.plan(&prefs, &o)
    }
}

// ---------------------------------------------------------------- bringing it up

/// The ways a start can go.
#[derive(Debug, Clone, Copy, PartialEq, Eq, Structural)]
pub enum Route {
    /// It is up and well: nothing is to be done.
    AlreadyUp,
    /// The engine runs elsewhere: it is only asked how it is.
    External,
    /// A server is to be started.
    BringUp,
}

pub fn start_route(state: &EngineState, healthy: bool, external: bool) -> (r: Route)
    ensures
        r == if state@.ready() && healthy {
            Route::AlreadyUp
        } else if external {
            Route::External
        } else {
            Route::BringUp
        },
{
    if state.is_ready() && healthy {
        Route::AlreadyUp
    } else if external {
        Route::External
    } else {
        Route::BringUp
    }
}

/// What becomes of an engine that runs elsewhere.
pub fn external_state(healthy: bool, base_url: &str, profile: &Profile) -> (r: Result<EngineState, String>)
    ensures
        match r {
            Ok(s) => healthy && s@ == StateV::Ready(profile.ctx, profile@.asked_model()),
            Err(e) => !healthy && e@ == "external engine at "@ + base_url@ + " is not healthy"@,
        },
{
    if healthy {
        Ok(EngineState::Ready { n_ctx: profile.ctx, model: profile.request_model() })
    } else {
        Err("external engine at ".to_owned().concat(base_url).concat(" is not healthy"))
    }
}

/// A model without a prediction head cannot draft by it.
pub open spec fn settled_profile(p: ProfileV, has_mtp: bool) -> ProfileV {
    if p.spec == "draft-mtp"@ && !has_mtp {
        ProfileV { spec: "none"@, ..p }
    } else {
        p
    }
}

/// A plan that worked before is used again where it did so under no better conditions
/// and is no worse than the fresh one.
pub open spec fn reusable(t: TunedV, fresh: PlanV, p: ProfileV, free_mib: u64) -> bool {
    &&& t.successes > 0
    &&& t.valid(free_mib)
    &&& alike(p.ngl, "auto"@)
    &&& t.n_ctx >= fresh.n_ctx
    &&& t.ngl >= fresh.ngl
    &&& t.ffn_cpu_blocks <= fresh.ffn_cpu_blocks
}

pub open spec fn chosen_plan(t: Option<TunedV>, fresh: PlanV, p: ProfileV, free_mib: u64) -> PlanV {
    match t {
        Some(v) => if reusable(v, fresh, p, free_mib) {
            v.plan()
        } else {
            fresh
        },
        None => fresh,
    }
}

/// What a start begins with.
#[derive(Debug)]
pub struct Prepared {
    pub profile: Profile,
    pub plan: VramPlan,
    /// What is asked of the guardian, in MiB.
    pub vram_mib: u64,
    pub ram_mib: u64,
}

pub open spec fn opt_tuned(t: Option<&TunedProfile>) -> Option<TunedV> {
    match t {
        Some(v) => Some(v@),
        None => None,
    }
}

/// Settles the profile, the plan and what is asked of the guardian.
pub fn prepare(
    cfg: &Config,
    profile: &Profile,
    facts: &ModelFacts,
    mem: &GpuMem,
    free_ram: u64,
    tuned: Option<&TunedProfile>,
) -> (r: Prepared)
    requires
        facts.n_layer < u32::MAX,
    ensures
        ({
            let p = settled_profile(profile@, facts.has_mtp);
            let fresh = planned(cfg.engine@, p, facts@, mib_bytes(mem.free_mib) as u64);
            let plan = chosen_plan(opt_tuned(tuned), fresh, p, mem.free_mib);
            &&& r.profile@ == p
            &&& r.plan@ == plan
            &&& r.vram_mib == plan.est_vram_bytes / MIB
            &&& r.ram_mib == cfg.engine.cache_ram_mb + plan.est_cpu_weight_bytes / MIB
        }),
{
    let mut p = profile.copy();
    if str_eq(p.spec.as_str(), "draft-mtp") && !facts.has_mtp {
        p.spec = "none".to_owned();
    }
    assert(p@ == settled_profile(profile@, facts.has_mtp));
    let fresh = EngineManager::plan_for(cfg, &p, facts, mem.free_bytes(), mem.total_bytes(), free_ram);
    let plan = match tuned {
        Some(t) => {
            if t.successes > 0 && t.still_valid(mem.free_mib) && p.ngl_auto() && t.n_ctx >= fresh.n_ctx && t.ngl
                >= fresh.ngl && t.ffn_cpu_blocks <= fresh.ffn_cpu_blocks {
                t.to_plan()
            } else {
                fresh
            }
        },
        None => fresh,
    };
    let vram_mib: u64 = plan.est_vram_bytes / MIB;
    let ram_mib: u64 = cfg.engine.cache_ram_mb as u64 + plan.est_cpu_weight_bytes / MIB;
    Prepared { profile: p, plan, vram_mib, ram_mib }
}

/// A plan that is used again has at least the context and the layers of the fresh one,
/// and offloads no more.
pub proof fn law_reused_plan_is_no_worse(t: Option<TunedV>, fresh: PlanV, p: ProfileV, free_mib: u64)
    ensures
        ({
            let c = chosen_plan(t, fresh, p, free_mib);
            c.n_ctx >= fresh.n_ctx && c.ngl >= fresh.ngl && c.ffn_cpu_blocks <= fresh.ffn_cpu_blocks
        }),
{
}

/// The tries that a start has.
pub const MAX_ATTEMPTS: u32 = 4;

/// How a try went.
#[derive(Debug)]
pub enum Attempt {
    /// The server answers; its context, or zero where it does not say.
    Healthy { n_ctx: u32 },
    Failed { oom: bool, error: String },
}

/// What follows a try.
#[derive(Debug)]
pub enum StartStep {
    Up(EngineState),
    Retry(VramPlan),
    Down { state: EngineState, message: String },
}

pub enum StartStepV {
    Up(StateV),
    Retry(PlanV),
    Down(StateV, Seq<char>),
}

impl View for StartStep {
    type V = StartStepV;

    open spec fn view(&self) -> StartStepV {
        match self {
            StartStep::Up(s) => StartStepV::Up(s@),
            StartStep::Retry(p) => StartStepV::Retry(p@),
            StartStep::Down { state, message } => StartStepV::Down(state@, message@),
        }
    }
}

/// A smaller plan: a smaller context first, then more feed-forward blocks on the CPU,
/// then fewer layers on the GPU.
pub open spec fn shrunk(n_layer: u32, p: PlanV) -> PlanV {
    if p.n_ctx > 16384 {
        let c: u32 = if p.n_ctx - 4096 >= 16384 {
            (p.n_ctx - 4096) as u32
        } else {
            16384
        };
        PlanV { n_ctx: c, rationale: p.rationale + ("\nOOM → ctx "@ + dec(c as nat)), ..p }
    } else if p.ffn_cpu_blocks < n_layer * 4 / 10 {
        let k = (p.ffn_cpu_blocks + 4) as u32;
        PlanV {
            ffn_cpu_blocks: k,
            override_tensor: Some(override_of(n_layer, k)),
            rationale: p.rationale + ("\nOOM → ffn_cpu_blocks "@ + dec(k as nat)),
            ..p
        }
    } else {
        let n: u32 = if p.ngl >= 4 {
            (p.ngl - 4) as u32
        } else {
            0
        };
        PlanV {
            ngl: n,
            override_tensor: None,
            ffn_cpu_blocks: 0,
            rationale: p.rationale + ("\nOOM → ngl "@ + dec(n as nat)),
            ..p
        }
    }
}

pub fn shrink_plan(facts: &ModelFacts, plan: VramPlan) -> (r: VramPlan)
    ensures
        r@ == shrunk(facts.n_layer, plan@),
{
    let mut p = plan;
    if p.n_ctx > 16384 {
        let c: u32 = if p.n_ctx - 4096 >= 16384 {
            p.n_ctx - 4096
        } else {
            16384
        };
        p.n_ctx = c;
        p.rationale = p.rationale.concat("\nOOM → ctx ".to_owned().concat(dec_u64(c as u64).as_str()).as_str());
    } else if (p.ffn_cpu_blocks as u64) < facts.n_layer as u64 * 4 / 10 {
        let k: u32 = p.ffn_cpu_blocks + 4;
        p.ffn_cpu_blocks = k;
        p.override_tensor = Some(ffn_override_regex(facts.n_layer, k));
        p.rationale = p.rationale.concat(
            "\nOOM → ffn_cpu_blocks ".to_owned().concat(dec_u64(k as u64).as_str()).as_str(),
        );
    } else {
        let n: u32 = p.ngl.saturating_sub(4);
        p.ngl = n;
        p.override_tensor = None;
        p.ffn_cpu_blocks = 0;
        p.rationale = p.rationale.concat("\nOOM → ngl ".to_owned().concat(dec_u64(n as u64).as_str()).as_str());
    }
    p
}

pub open spec fn step_after(
    attempt: u32,
    plan: PlanV,
    n_layer: u32,
    model: Seq<char>,
    outcome: Attempt,
    log: Seq<Seq<char>>,
    windows: bool,
) -> StartStepV {
    match outcome {
        Attempt::Healthy { n_ctx } => StartStepV::Up(
            StateV::Ready(
                if n_ctx > 0 {
                    n_ctx
                } else {
                    plan.n_ctx
                },
                base_name(model, windows),
            ),
        ),
        Attempt::Failed { oom, error } => if oom && attempt < MAX_ATTEMPTS {
            StartStepV::Retry(shrunk(n_layer, plan))
        } else {
            StartStepV::Down(
                StateV::Crashed(attempt, error@),
                "llama-server failed to become healthy: "@ + error@ + "\n--- last log lines ---\n"@ + joined(
                    last_of(log, 15),
                    "\n"@,
                ),
            )
        },
    }
}

/// What follows a try: a server that answers is up; one that ran out of memory is tried
/// again with a smaller plan, as long as there are tries; any other is given up.
pub fn after_attempt(
    attempt: u32,
    plan: VramPlan,
    facts: &ModelFacts,
    model: &str,
    outcome: Attempt,
    log: &LogTail,
    windows: bool,
) -> (r: StartStep)
    ensures
        r@ == step_after(attempt, plan@, facts.n_layer, model@, outcome, log.lines(), windows),
{
    match outcome {
        Attempt::Healthy { n_ctx } => {
            let n: u32 = if n_ctx > 0 {
                n_ctx
            } else {
                plan.n_ctx
            };
            StartStep::Up(EngineState::Ready { n_ctx: n, model: model_display(model, windows) })
        },
        Attempt::Failed { oom, error } => {
            if oom && attempt < MAX_ATTEMPTS {
                StartStep::Retry(shrink_plan(facts, plan))
            } else {
                let message = "llama-server failed to become healthy: ".to_owned().concat(error.as_str()).concat(
                    "\n--- last log lines ---\n",
                ).concat(log.last_lines(15).as_str());
                StartStep::Down { state: EngineState::Crashed { attempts: attempt, reason: error }, message }
            }
        },
    }
}

/// A start ends: a try is followed by another only before the last, and only where
/// memory ran out.
pub proof fn law_start_ends(
    attempt: u32,
    plan: PlanV,
    n_layer: u32,
    model: Seq<char>,
    outcome: Attempt,
    log: Seq<Seq<char>>,
    windows: bool,
)
    ensures
        step_after(attempt, plan, n_layer, model, outcome, log, windows) is Retry ==> attempt < MAX_ATTEMPTS && (
        outcome matches Attempt::Failed { oom, .. } && oom),
{
}

proof fn lemma_needed_smaller_ctx(f: FactsV, ngl: nat, a: nat, b: nat, k: nat, o: PlanOpts)
    requires
        a <= b,
    ensures
        needed(f, ngl, a, k, o) <= needed(f, ngl, b, k, o),
{
    let kv = kv_per_token(f, o.kv_type);
    assert(kv * a <= kv * b) by (nonlinear_arith)
        requires
            a <= b,
    ;
}

/// After memory ran out the next plan needs no more of it, as long as the context is
/// made smaller.
pub proof fn law_smaller_context_needs_no_more(f: FactsV, n_layer: u32, p: PlanV, o: PlanOpts)
    requires
        p.n_ctx > 16384,
    ensures
        ({
            let q = shrunk(n_layer, p);
            &&& q.n_ctx < p.n_ctx
            &&& q.n_ctx >= 16384
            &&& needed(f, q.ngl as nat, q.n_ctx as nat, q.ffn_cpu_blocks as nat, o) <= needed(
                f,
                p.ngl as nat,
                p.n_ctx as nat,
                p.ffn_cpu_blocks as nat,
                o,
            )
        }),
{
    let q = shrunk(n_layer, p);
    lemma_needed_smaller_ctx(f, p.ngl as nat, q.n_ctx as nat, p.n_ctx as nat, p.ffn_cpu_blocks as nat, o);
}

// ---------------------------------------------------------------- once it is up

/// What is kept after a start that went well: the plan that was kept before where it is
/// the same, else the new one; one more success; and the memory that was taken.
pub open spec fn tuned_after(
    prev: Option<TunedV>,
    model: Seq<char>,
    hash: Seq<char>,
    profile: Seq<char>,
    plan: PlanV,
    now: Seq<char>,
    measured: Option<u64>,
) -> TunedV {
    let fresh = TunedV::of_plan(model, hash, profile, plan, now);
    let t = match prev {
        Some(t) => if t.ngl != plan.ngl || t.n_ctx != plan.n_ctx || t.override_tensor != plan.override_tensor {
            fresh
        } else {
            t
        },
        None => fresh,
    };
    TunedV {
        successes: if t.successes < u32::MAX {
            (t.successes + 1) as u32
        } else {
            t.successes
        },
        measured_vram_mib: match measured {
            Some(m) => Some(m),
            None => t.measured_vram_mib,
        },
        ..t
    }
}

fn same_opt(a: &Option<String>, b: &Option<String>) -> (r: bool)
    ensures
        r == (opt_string(*a) == opt_string(*b)),
{
    match (a, b) {
        (Some(x), Some(y)) => str_eq(x.as_str(), y.as_str()),
        (None, None) => true,
        _ => false,
    }
}

pub open spec fn opt_kept(t: Option<TunedProfile>) -> Option<TunedV> {
    match t {
        Some(v) => Some(v@),
        None => None,
    }
}

/// What is kept after a start that went well. `used_before` and `used_now` are the memory
/// in use, in MiB, where it could be asked for.
pub fn kept_after_start(
    prev: Option<TunedProfile>,
    model: &str,
    hash: &str,
    profile: &str,
    plan: &VramPlan,
    now: u64,
    used_before: u64,
    used_now: Option<u64>,
) -> (r: TunedProfile)
    requires
        now < END_OF_TIME,
    ensures
        r@ == tuned_after(
            opt_kept(prev),
            model@,
            hash@,
            profile@,
            plan@,
            rfc3339_seconds(now),
            match used_now {
                Some(u) => Some(
                    if u >= used_before {
                        (u - used_before) as u64
                    } else {
                        0
                    },
                ),
                None => None,
            },
        ),
{
    let mut t = match prev {
        Some(t) => {
            if t.ngl != plan.ngl || t.n_ctx != plan.n_ctx || !same_opt(&t.override_tensor, &plan.override_tensor) {
                TunedProfile::from_plan(model, hash, profile, plan, now)
            } else {
                t
            }
        },
        None => TunedProfile::from_plan(model, hash, profile, plan, now),
    };
    if t.successes < u32::MAX {
        t.successes = t.successes + 1;
    }
    if let Some(u) = used_now {
        t.measured_vram_mib = Some(u.saturating_sub(used_before));
    }
    t
}

/// A start that went well makes its plan one that can be used again under the same
/// conditions.
pub proof fn law_success_makes_reusable(
    prev: Option<TunedV>,
    model: Seq<char>,
    hash: Seq<char>,
    profile: Seq<char>,
    plan: PlanV,
    now: Seq<char>,
    measured: Option<u64>,
    p: ProfileV,
)
    requires
        alike(p.ngl, "auto"@),
        prev matches Some(t) ==> t.ffn_cpu_blocks == plan.ffn_cpu_blocks,
    ensures
        ({
            let t = tuned_after(prev, model, hash, profile, plan, now, measured);
            reusable(t, plan, p, t.free_vram_mib_at_tune)
        }),
{
}

/// What is seen while the server loads.
#[derive(Debug)]
pub enum WaitStep {
    Up,
    Failed(String),
    Wait(EngineState),
}

pub enum WaitStepV {
    Up,
    Failed(Seq<char>),
    Wait(StateV),
}

impl View for WaitStep {
    type V = WaitStepV;

    open spec fn view(&self) -> WaitStepV {
        match self {
            WaitStep::Up => WaitStepV::Up,
            WaitStep::Failed(m) => WaitStepV::Failed(m@),
            WaitStep::Wait(s) => WaitStepV::Wait(s@),
        }
    }
}

pub const NANOS: u128 = 1_000_000_000;

/// One look at a server that loads: it may have ended, it may answer, it may have taken
/// too long.
pub fn wait_step(exited: Option<&str>, healthy: bool, elapsed_ns: u128, timeout_s: u64) -> (r: WaitStep)
    requires
        elapsed_ns / NANOS <= u64::MAX,
    ensures
        r@ == (match exited {
            Some(status) => WaitStepV::Failed("llama-server exited early: "@ + status@),
            None => if healthy {
                WaitStepV::Up
            } else if elapsed_ns > timeout_s * NANOS {
                WaitStepV::Failed("timeout after "@ + dec(timeout_s as nat) + "s waiting for /health"@)
            } else {
                WaitStepV::Wait(StateV::Loading((elapsed_ns / NANOS) as u64))
            },
        }),
{
    if let Some(status) = exited {
        return WaitStep::Failed("llama-server exited early: ".to_owned().concat(status));
    }
    if healthy {
        return WaitStep::Up;
    }
    if elapsed_ns > timeout_s as u128 * NANOS {
        return WaitStep::Failed(
            "timeout after ".to_owned().concat(dec_u64(timeout_s).as_str()).concat("s waiting for /health"),
        );
    }
    WaitStep::Wait(EngineState::Loading { elapsed_s: (elapsed_ns / NANOS) as u64 })
}

/// What the watcher of a running server does.
#[derive(Debug)]
pub enum WatchStep {
    /// The watch ends.
    Leave,
    /// Look again.
    Watch,
    /// The server died once too often.
    GiveUp(EngineState),
    /// The server died: it is started anew after some seconds.
    Restart { state: EngineState, attempts: u32, backoff_s: u64 },
}

pub enum WatchStepV {
    Leave,
    Watch,
    GiveUp(StateV),
    Restart(StateV, u32, u64),
}

impl View for WatchStep {
    type V = WatchStepV;

    open spec fn view(&self) -> WatchStepV {
        match self {
            WatchStep::Leave => WatchStepV::Leave,
            WatchStep::Watch => WatchStepV::Watch,
            WatchStep::GiveUp(s) => WatchStepV::GiveUp(s@),
            WatchStep::Restart { state, attempts, backoff_s } => WatchStepV::Restart(state@, *attempts, *backoff_s),
        }
    }
}

/// The seconds before a restart: one, two, four, then eight.
pub open spec fn backoff_of(attempts: u32) -> u64 {
    if attempts <= 1 {
        1
    } else if attempts == 2 {
        2
    } else if attempts == 3 {
        4
    } else {
        8
    }
}

pub open spec fn watch_after(
    exited: Option<Seq<char>>,
    state: StateV,
    has_process: bool,
    attempts: u32,
    restart_max: u32,
) -> WatchStepV {
    match exited {
        None => if state.stopping() && !has_process {
            WatchStepV::Leave
        } else {
            WatchStepV::Watch
        },
        Some(status) => if state.stopping() {
            WatchStepV::Leave
        } else {
            let n = if attempts < u32::MAX {
                (attempts + 1) as u32
            } else {
                attempts
            };
            if n > restart_max {
                WatchStepV::GiveUp(StateV::Crashed(n, status))
            } else {
                WatchStepV::Restart(StateV::Crashed(n, status), n, backoff_of(n))
            }
        },
    }
}

/// One look at a running server.
pub fn watch_step(
    exited: Option<&str>,
    state: &EngineState,
    has_process: bool,
    attempts: u32,
    restart_max: u32,
) -> (r: WatchStep)
    ensures
        r@ == watch_after(opt_str(exited), state@, has_process, attempts, restart_max),
{
    match exited {
        None => {
            if state.is_stopping() && !has_process {
                WatchStep::Leave
            } else {
                WatchStep::Watch
            }
        },
        Some(status) => {
            if state.is_stopping() {
                return WatchStep::Leave;
            }
            let n: u32 = attempts.saturating_add(1);
            let crashed = EngineState::Crashed { attempts: n, reason: status.to_owned() };
            if n > restart_max {
                return WatchStep::GiveUp(crashed);
            }
            let backoff: u64 = if n <= 1 {
                1
            } else if n == 2 {
                2
            } else if n == 3 {
                4
            } else {
                8
            };
            WatchStep::Restart { state: crashed, attempts: n, backoff_s: backoff }
        },
    }
}

/// A server that was told to stop is never brought up again by its watcher, and one that
/// died is brought up again no more often than allowed.
pub proof fn law_watcher_respects_stop_and_limit(
    exited: Option<Seq<char>>,
    state: StateV,
    has_process: bool,
    attempts: u32,
    restart_max: u32,
)
    ensures
        watch_after(exited, state, has_process, attempts, restart_max) matches WatchStepV::Restart(_, n, s) ==> (
        !state.stopping() && n <= restart_max && 1 <= s <= 8),
{
}

// ---------------------------------------------------------------- the manager

/// The engine as the rest of the program sees it.
#[derive(Debug)]
pub struct EngineManager {
    pub cfg: Config,
    pub profile: Profile,
    /// The port that the server is on; the configured one until another was taken.
    pub port: u16,
    pub client: LlamaClient,
    /// Whether the entry in the shared ledger is there, and so is to be withdrawn.
    pub published: bool,
    pub state: EngineState,
    pub plan: Option<VramPlan>,
    pub model_path: Option<String>,
    pub restart_attempts: u32,
    /// Whether a start ever went well.
    pub started_once: bool,
}

pub struct ManagerV {
    pub cfg: ConfigV,
    pub profile: ProfileV,
    pub port: u16,
    pub base: Seq<char>,
    pub key: Option<Seq<char>>,
    pub published: bool,
    pub state: StateV,
    pub plan: Option<PlanV>,
    pub model_path: Option<Seq<char>>,
    pub restart_attempts: u32,
    pub started_once: bool,
}

pub open spec fn opt_plan(p: Option<VramPlan>) -> Option<PlanV> {
    match p {
        Some(v) => Some(v@),
        None => None,
    }
}

impl View for EngineManager {
    type V = ManagerV;

    open spec fn view(&self) -> ManagerV {
        ManagerV {
            cfg: self.cfg@,
            profile: self.profile@,
            port: self.port,
            base: self.client.base(),
            key: self.client.key(),
            published: self.published,
            state: self.state@,
            plan: opt_plan(self.plan),
            model_path: opt_string(self.model_path),
            restart_attempts: self.restart_attempts,
            started_once: self.started_once,
        }
    }
}

impl ManagerV {
    /// The engine has stopped; its entry in the ledger, where there was one, is gone.
    pub open spec fn stopped(self) -> ManagerV {
        ManagerV { published: false, state: StateV::Stopped, ..self }
    }

    /// The engine after a try, together with what follows it.
    pub open spec fn after(self, step: StartStepV) -> ManagerV {
        match step {
            StartStepV::Up(s) => ManagerV { state: s, restart_attempts: 0, started_once: true, published: true, ..self },
            StartStepV::Retry(_) => self.stopped(),
            StartStepV::Down(s, _) => ManagerV { state: s, ..self.stopped() },
        }
    }
}

impl EngineManager {
    pub fn new(cfg: Config, profile: Profile, env: &Surroundings) -> (r: EngineManager)
        ensures
            r@ == (ManagerV {
                cfg: cfg@,
                profile: profile@,
                port: cfg.engine.port,
                base: without_slashes(profile@.url(cfg.engine@)),
                key: if profile.api_key@.len() > 0 {
                    Some(profile.api_key@)
                } else {
                    cfg.engine@.api_key_in(env@)
                },
                published: false,
                state: StateV::Stopped,
                plan: None,
                model_path: None,
                restart_attempts: 0,
                started_once: false,
            }),
    {
        let client = LlamaClient::with_api_key(
            profile.base_url(&cfg.engine).as_str(),
            profile.resolved_api_key(&cfg.engine, env),
        );
        EngineManager {
            port: cfg.engine.port,
            cfg,
            profile,
            client,
            published: false,
            state: EngineState::Stopped,
            plan: None,
            model_path: None,
            restart_attempts: 0,
            started_once: false,
        }
    }

    pub fn config(&self) -> (r: &Config)
        ensures
            *r == self.cfg,
    {
        &self.cfg
    }

    /// A copy of the profile.
    pub fn profile(&self) -> (r: Profile)
        ensures
            r@ == self@.profile,
    {
        self.profile.copy()
    }

    pub fn port(&self) -> (r: u16)
        ensures
            r == self.port,
    {
        self.port
    }

    pub fn base_url(&self) -> (r: &str)
        ensures
            r@ == self@.base,
    {
        self.client.base_url()
    }

    /// Takes another port; requests go there from then on.
    pub fn set_port(&mut self, port: u16, env: &Surroundings)
        ensures
            final(self)@ == (ManagerV {
                port,
                base: without_slashes("http://"@ + old(self)@.cfg.engine.host + ":"@ + dec(port as nat)),
                key: old(self)@.cfg.engine.api_key_in(env@),
                ..old(self)@
            }),
    {
        let url = "http://".to_owned().concat(self.cfg.engine.host.as_str()).concat(":").concat(
            dec_u64(port as u64).as_str(),
        );
        let key = self.cfg.engine.resolved_api_key(env);
        self.port = port;
        self.client = LlamaClient::with_api_key(url.as_str(), key);
    }

    /// The name under which the model is asked for.
    pub fn alias(&self) -> (r: String)
        ensures
            r@ == self@.profile.asked_model(),
    {
        self.profile.request_model()
    }

    /// The size of the context: of the engine that is up, else of the plan, else of the
    /// profile.
    pub fn n_ctx(&self) -> (r: u32)
        ensures
            r == (match self@.state {
                StateV::Ready(n, _) => n,
                StateV::External => self@.profile.ctx,
                _ => match self@.plan {
                    Some(p) => p.n_ctx,
                    None => self@.profile.ctx,
                },
            }),
    {
        match &self.state {
            EngineState::Ready { n_ctx, .. } => *n_ctx,
            EngineState::External => self.profile.ctx,
            _ => match &self.plan {
                Some(p) => p.n_ctx,
                None => self.profile.ctx,
            },
        }
    }

    pub fn is_external(&self) -> (r: bool)
        ensures
            r == self@.profile.external(self@.cfg.engine),
    {
        self.profile.is_external(&self.cfg.engine)
    }

    pub fn compute_plan(&self, facts: &ModelFacts, free_vram_bytes: u64, total_vram_bytes: u64, free_ram: u64) -> (r:
        VramPlan)
        requires
            facts.n_layer < u32::MAX,
        ensures
            r@ == planned(self@.cfg.engine, self@.profile, facts@, free_vram_bytes),
    {
        EngineManager::plan_for(&self.cfg, &self.profile, facts, free_vram_bytes, total_vram_bytes, free_ram)
    }

    /// Begins a start: says which way it goes. Unless the engine is up, it is resolving
    /// from then on.
    pub fn start(&mut self, healthy: bool) -> (r: Route)
        ensures
            r == if old(self)@.state.ready() && healthy {
                Route::AlreadyUp
            } else if old(self)@.profile.external(old(self)@.cfg.engine) {
                Route::External
            } else {
                Route::BringUp
            },
            final(self)@ == if r == Route::AlreadyUp {
                old(self)@
            } else {
                ManagerV { state: StateV::Resolving, ..old(self)@ }
            },
    {
        let external = self.is_external();
        let route = start_route(&self.state, healthy, external);
        if route != Route::AlreadyUp {
            self.state = EngineState::Resolving;
        }
        route
    }

    /// Ends a start of an engine that runs elsewhere.
    pub fn external_started(&mut self, healthy: bool) -> (r: Result<(), String>)
        ensures
            match r {
                Ok(_) => healthy && final(self)@ == (ManagerV {
                    state: StateV::Ready(old(self)@.profile.ctx, old(self)@.profile.asked_model()),
                    ..old(self)@
                }),
                Err(e) => !healthy && final(self)@ == old(self)@ && e@ == "external engine at "@ + old(self)@.base
                    + " is not healthy"@,
            },
    {
        match external_state(healthy, self.client.base_url(), &self.profile) {
            Ok(s) => {
                self.state = s;
                Ok(())
            },
            Err(e) => Err(e),
        }
    }

    /// Settles what a start begins with; the profile is the settled one from then on.
    pub fn prepare_start(
        &mut self,
        facts: &ModelFacts,
        mem: &GpuMem,
        free_ram: u64,
        tuned: Option<&TunedProfile>,
    ) -> (r: Prepared)
        requires
            facts.n_layer < u32::MAX,
        ensures
            ({
                let p = settled_profile(old(self)@.profile, facts.has_mtp);
                let fresh = planned(old(self)@.cfg.engine, p, facts@, mib_bytes(mem.free_mib) as u64);
                let plan = chosen_plan(opt_tuned(tuned), fresh, p, mem.free_mib);
                &&& r.profile@ == p
                &&& r.plan@ == plan
                &&& r.vram_mib == plan.est_vram_bytes / MIB
                &&& r.ram_mib == old(self)@.cfg.engine.cache_ram_mb + plan.est_cpu_weight_bytes / MIB
                &&& final(self)@ == (ManagerV { profile: p, ..old(self)@ })
            }),
    {
        let r = prepare(&self.cfg, &self.profile, facts, mem, free_ram, tuned);
        self.profile = r.profile.copy();
        r
    }

    /// Begins a try with a plan.
    pub fn begin_attempt(&mut self, attempt: u32, plan: &VramPlan)
        ensures
            final(self)@ == (ManagerV { state: StateV::Starting(attempt), plan: Some(plan@), ..old(self)@ }),
    {
        self.state = EngineState::Starting { attempt };
        self.plan = Some(plan.copy());
    }

    /// Ends a try. What came before it in the ledger is withdrawn, or the new entry is
    /// written, by the caller.
    pub fn end_attempt(
        &mut self,
        attempt: u32,
        plan: VramPlan,
        facts: &ModelFacts,
        model: &str,
        outcome: Attempt,
        log: &LogTail,
        windows: bool,
    ) -> (r: StartStep)
        ensures
            r@ == step_after(attempt, plan@, facts.n_layer, model@, outcome, log.lines(), windows),
            final(self)@ == old(self)@.after(r@),
    {
        let step = after_attempt(attempt, plan, facts, model, outcome, log, windows);
        match &step {
            StartStep::Up(s) => {
                self.state = s.copy();
                self.restart_attempts = 0;
                self.started_once = true;
                self.published = true;
            },
            StartStep::Retry(_) => {
                self.published = false;
                self.state = EngineState::Stopped;
            },
            StartStep::Down { state, .. } => {
                self.published = false;
                self.state = state.copy();
            },
        }
        step
    }

    /// Stops the engine; says whether its entry in the ledger is to be withdrawn.
    pub fn stop(&mut self) -> (r: bool)
        ensures
            r == old(self)@.published,
            final(self)@ == old(self)@.stopped(),
    {
        let was = self.published;
        self.published = false;
        self.state = EngineState::Stopped;
        was
    }

    /// Takes another profile, once the engine has stopped: what was known of the model is
    /// forgotten.
    pub fn switch_profile(&mut self, profile: Profile)
        ensures
            final(self)@ == (ManagerV {
                profile: profile@,
                model_path: None,
                plan: None,
                restart_attempts: 0,
                ..old(self)@
            }),
    {
        self.profile = profile;
        self.model_path = None;
        self.plan = None;
        self.restart_attempts = 0;
    }

    /// One look of the watcher. Where the server died its death is counted.
    pub fn watch(&mut self, exited: Option<&str>, has_process: bool) -> (r: WatchStep)
        ensures
            r@ == watch_after(
                opt_str(exited),
                old(self)@.state,
                has_process,
                old(self)@.restart_attempts,
                old(self)@.cfg.engine.restart_max,
            ),
            final(self)@ == (match r@ {
                WatchStepV::GiveUp(s) => ManagerV { state: s, restart_attempts: s->Crashed_0, ..old(self)@ },
                WatchStepV::Restart(s, n, _) => ManagerV { state: s, restart_attempts: n, ..old(self)@ },
                _ => old(self)@,
            }),
    {
        let step = watch_step(
            exited,
            &self.state,
            has_process,
            self.restart_attempts,
            self.cfg.engine.restart_max,
        );
        match &step {
            WatchStep::GiveUp(s) => {
                self.restart_attempts = self.restart_attempts.saturating_add(1);
                self.state = s.copy();
            },
            WatchStep::Restart { state, attempts, .. } => {
                self.restart_attempts = *attempts;
                self.state = state.copy();
            },
            _ => {},
        }
        step
    }
}

/// The entry in the ledger is there exactly while the engine is up: a try that went well
/// puts it there, and stopping, or a try that failed, takes it away.
pub proof fn law_entry_follows_the_engine(m: ManagerV, step: StartStepV)
    ensures
        m.after(step).published == step is Up,
        !m.stopped().published,
        m.stopped().stopped() == m.stopped(),
{
}

// ---------------------------------------------------------------- warming up

/// The request that fills the cache with what every request begins with: one token, the
/// effort of the session, no thinking.
pub open spec fn warmup_of(alias: Seq<char>, messages: Seq<JsonV>, tools: Option<JsonV>, effort: Seq<char>) -> RequestV {
    let q = RequestV { tools, max_tokens: Some(1), ..RequestV::fresh(alias, messages) }.with_effort(effort);
    RequestV {
        chat_template_kwargs: match q.chat_template_kwargs {
            Some(JsonV::Object(m)) => Some(JsonV::Object(with_member(m, "enable_thinking"@, JsonV::Bool(false)))),
            other => other,
        },
        ..q
    }
}

pub fn warmup_request(alias: &str, messages: Vec<Json>, tools: Option<Json>, effort: &str) -> (r: ChatRequest)
    ensures
        r@ == warmup_of(alias@, jsons(messages@), opt_json(tools), effort@),
{
    let mut q = ChatRequest::new(alias, messages);
    q.tools = tools;
    q.max_tokens = Some(1);
    let mut q = q.reasoning_effort(effort);
    let kw = match q.chat_template_kwargs {
        Some(k) => {
            proof {
                lemma_view(k);
            }
            match k {
                Json::Object(m) => {
                    let mut m2 = m;
                    set_member(&mut m2, "enable_thinking", Json::Bool(false));
                    Some(object(m2))
                },
                other => Some(other),
            }
        },
        None => None,
    };
    q.chat_template_kwargs = kw;
    q
}

/// Where memory ran out, one thing is given up at a time: first a piece of the context, as long
/// as that is above the least; then four more blocks go to the CPU, as long as few of the layers
/// are there; then four layers leave the GPU. What came before stands in the reasons.
pub proof fn law_little_is_given_up_at_a_time(n_layer: u32, p: PlanV)
    ensures
        ({
            let q = shrunk(n_layer, p);
            &&& p.n_ctx > 16384 ==> {
                &&& 16384 <= q.n_ctx < p.n_ctx && p.n_ctx - q.n_ctx <= 4096
                &&& p.n_ctx - q.n_ctx == 4096 || q.n_ctx == 16384
                &&& q.ngl == p.ngl && q.ffn_cpu_blocks == p.ffn_cpu_blocks && q.override_tensor == p.override_tensor
            }
            &&& p.n_ctx <= 16384 ==> q.n_ctx == p.n_ctx
            &&& p.n_ctx <= 16384 && 10 * (p.ffn_cpu_blocks + 1) <= 4 * n_layer ==> {
                &&& q.ffn_cpu_blocks == p.ffn_cpu_blocks + 4
                &&& q.override_tensor == Some(override_of(n_layer, (p.ffn_cpu_blocks + 4) as u32))
                &&& q.ngl == p.ngl
            }
            &&& p.n_ctx <= 16384 && 10 * (p.ffn_cpu_blocks + 1) > 4 * n_layer ==> {
                &&& q.ngl + 4 == p.ngl || q.ngl == 0 && p.ngl <= 4
                &&& q.override_tensor is None && q.ffn_cpu_blocks == 0
            }
            &&& q.rationale.len() > p.rationale.len() && q.rationale.take(p.rationale.len() as int) == p.rationale
            &&& q.est_vram_bytes == p.est_vram_bytes && q.ctx_checkpoints == p.ctx_checkpoints
        }),
{
    let q = shrunk(n_layer, p);
    reveal_strlit("\nOOM → ctx ");
    reveal_strlit("\nOOM → ffn_cpu_blocks ");
    reveal_strlit("\nOOM → ngl ");
    assert(q.rationale.take(p.rationale.len() as int) =~= p.rationale);
}

/// A server that answers is up, with the context that it tells, or else that of the plan; one
/// that ran out of memory is tried again with less, up to three times; any other is down, with
/// the number of the try and the error.
pub proof fn law_a_try_is_followed_up(
    attempt: u32,
    plan: PlanV,
    n_layer: u32,
    model: Seq<char>,
    outcome: Attempt,
    log: Seq<Seq<char>>,
    windows: bool,
)
    ensures
        ({
            let s = step_after(attempt, plan, n_layer, model, outcome, log, windows);
            match outcome {
                Attempt::Healthy { n_ctx } => s matches StartStepV::Up(StateV::Ready(c, m)) && m == base_name(
                    model,
                    windows,
                ) && (n_ctx > 0 ==> c == n_ctx) && (n_ctx == 0 ==> c == plan.n_ctx),
                Attempt::Failed { oom, error } => if oom && attempt <= 3 {
                    s == StartStepV::Retry(shrunk(n_layer, plan))
                } else {
                    s matches StartStepV::Down(st, m) && st == StateV::Crashed(attempt, error@) && holds(m, error@)
                },
            }
        }),
{
    let s = step_after(attempt, plan, n_layer, model, outcome, log, windows);
    if let StartStepV::Down(_, m) = s {
        if let Attempt::Failed { oom, error } = outcome {
            let h = "llama-server failed to become healthy: "@;
            assert(m.subrange(h.len() as int, h.len() as int + error@.len()) =~= error@);
            assert(at(m, h.len() as int, error@));
        }
    }
}

/// A server that died without being told to stop is started anew after one second, then two,
/// four and eight, as often as allowed, and then given up; one that runs is watched until it
/// was told to stop and is gone.
pub proof fn law_a_dead_server_is_started_anew(
    exited: Option<Seq<char>>,
    state: StateV,
    has_process: bool,
    attempts: u32,
    restart_max: u32,
)
    requires
        attempts < u32::MAX,
    ensures
        ({
            let s = watch_after(exited, state, has_process, attempts, restart_max);
            &&& exited is None && !(state.stopping() && !has_process) ==> s is Watch
            &&& exited is None && state.stopping() && !has_process ==> s is Leave
            &&& exited is Some && state.stopping() ==> s is Leave
            &&& exited matches Some(why) ==> !state.stopping() ==> {
                &&& attempts + 1 > restart_max ==> s == WatchStepV::GiveUp(StateV::Crashed((attempts + 1) as u32, why))
                &&& attempts + 1 <= restart_max ==> (s matches WatchStepV::Restart(st, n, wait) && st == StateV::Crashed(
                    n,
                    why,
                ) && n == attempts + 1 && (attempts == 0 ==> wait == 1) && (attempts == 1 ==> wait == 2) && (attempts == 2
                    ==> wait == 4) && (attempts >= 3 ==> wait == 8))
            }
        }),
{
}

/// What is kept after a start holds its plan, and gives it back; each success counts, and a
/// plan that differs begins anew.
pub proof fn law_a_plan_that_worked_is_kept(
    prev: Option<TunedV>,
    model: Seq<char>,
    hash: Seq<char>,
    profile: Seq<char>,
    plan: PlanV,
    now: Seq<char>,
    measured: Option<u64>,
)
    requires
        prev matches Some(t) ==> t.successes < u32::MAX,
    ensures
        ({
            let t = tuned_after(prev, model, hash, profile, plan, now, measured);
            let same = prev matches Some(o) && o.ngl == plan.ngl && o.n_ctx == plan.n_ctx && o.override_tensor
                == plan.override_tensor;
            &&& t.ngl == plan.ngl && t.n_ctx == plan.n_ctx && t.override_tensor == plan.override_tensor
            &&& t.plan().ngl == plan.ngl && t.plan().n_ctx == plan.n_ctx && t.plan().override_tensor
                == plan.override_tensor
            &&& t.plan().ffn_cpu_blocks == t.ffn_cpu_blocks
            &&& same ==> t.successes == prev->Some_0.successes + 1 && t.model_hash == prev->Some_0.model_hash
                && t.tuned_at == prev->Some_0.tuned_at
            &&& !same ==> {
                &&& t.successes == 1
                &&& t.ffn_cpu_blocks == plan.ffn_cpu_blocks
                &&& t.model_file == model && t.model_hash == hash && t.profile == profile && t.tuned_at == now
                &&& t.free_vram_mib_at_tune == plan.free_vram_bytes / 1048576
            }
            &&& measured is Some ==> t.measured_vram_mib == measured
        }),
{
}

/// What is planned goes by the profile: its contexts, the type of its cache where attention is
/// fast and two bytes an element where not, its layers and tensors where they are given, and
/// the memory that the engine keeps free.
pub proof fn law_a_plan_goes_by_the_profile(e: EngineV, p: ProfileV, has_mtp: bool)
    ensures
        prefs_of(p).pref_ctx == p.ctx,
        prefs_of(p).min_ctx == p.ctx_min,
        prefs_of(p).allow_offload,
        alike(p.ngl, "auto"@) ==> prefs_of(p).fixed_ngl is None,
        forall|n: u32| p.ngl == dec(n as nat) ==> #[trigger] prefs_of(p).fixed_ngl == Some(n),
        prefs_of(p).fixed_ot is None <==> alike(p.override_tensor, "auto"@),
        prefs_of(p).fixed_ot matches Some(t) ==> t == p.override_tensor,
        !p.flash_attn ==> opts_of(e, p, has_mtp).kv_type == KvType::F16,
        p.flash_attn ==> opts_of(e, p, has_mtp).kv_type == KvType::named(p.kv_type),
        opts_of(e, p, has_mtp).ubatch == p.ubatch,
        opts_of(e, p, has_mtp).ctx_checkpoints == p.ctx_checkpoints,
        e.vram_safety_mib < 0x1000_0000_0000 ==> opts_of(e, p, has_mtp).safety_bytes == e.vram_safety_mib * 1048576,
        e.cuda_context_mib < 0x1000_0000_0000 ==> opts_of(e, p, has_mtp).cuda_context_bytes == e.cuda_context_mib
            * 1048576,
        opts_of(e, p, has_mtp).mtp <==> has_mtp && p.spec == "draft-mtp"@,
{
    assert forall|n: u32| p.ngl == dec(n as nat) implies #[trigger] prefs_of(p).fixed_ngl == Some(n) by {
        law_decimal_is_read_back(n as nat, 0xffff_ffff);
        lemma_decimal_is_not_auto(n as nat);
    }
}

proof fn lemma_decimal_is_not_auto(n: nat)
    ensures
        !alike(dec(n), "auto"@),
{
    reveal_strlit("auto");
    law_decimal_is_read_back(n, n);
    if alike(dec(n), "auto"@) {
        assert(lowered(dec(n))[0] == lower(dec(n)[0]));
        assert(lowered("auto"@)[0] == lower("auto"@[0]));
        assert(is_digit(dec(n)[0]));
    }
}

/// A model that is there is used; one that is not is fetched where it is given as `repo:file`: all
/// its shards, to where it belongs; any other is missing.
pub proof fn law_where_a_model_comes_from(found: Option<Seq<char>>, model: Seq<char>, dest: Seq<char>)
    ensures
        found matches Some(p) ==> source_of(found, model, dest) == ModelSourceV::Local(p),
        found is None && repo_and_file(model).0 is None ==> source_of(found, model, dest) is Missing,
        found is None ==> (repo_and_file(model).0 matches Some(r) ==> source_of(found, model, dest)
            == ModelSourceV::Download(r, shards(repo_and_file(model).1), dest)),
{
}

/// A model that cannot draft by itself is not asked to, and nothing else of its profile is
/// changed.
pub proof fn law_only_drafting_is_given_up(p: ProfileV, has_mtp: bool)
    ensures
        has_mtp ==> settled_profile(p, has_mtp) == p,
        p.spec != "draft-mtp"@ ==> settled_profile(p, has_mtp) == p,
        !has_mtp && p.spec == "draft-mtp"@ ==> settled_profile(p, has_mtp).spec == "none"@,
        (ProfileV { spec: p.spec, ..settled_profile(p, has_mtp) }) == p,
{
}

/// A plan is used again where it has worked, where the free memory has not dropped by more than
/// 256 MiB since, where the layers are not fixed, and where it gives up nothing that the fresh one
/// does not; and only there.
pub proof fn law_when_a_plan_is_used_again(t: TunedV, fresh: PlanV, p: ProfileV, free_mib: u64)
    ensures
        reusable(t, fresh, p, free_mib) <==> t.successes >= 1 && t.free_vram_mib_at_tune <= free_mib + 256 && alike(
            p.ngl,
            "auto"@,
        ) && t.n_ctx >= fresh.n_ctx && t.ngl >= fresh.ngl && t.ffn_cpu_blocks <= fresh.ffn_cpu_blocks,
        reusable(t, fresh, p, free_mib) ==> chosen_plan(Some(t), fresh, p, free_mib) == t.plan(),
        !reusable(t, fresh, p, free_mib) ==> chosen_plan(Some(t), fresh, p, free_mib) == fresh,
        chosen_plan(None, fresh, p, free_mib) == fresh,
{
}

} // verus!
