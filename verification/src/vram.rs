//! The planner of GPU memory: it chooses the layers on the GPU, the context size and
//! what is offloaded, so that the model fits in the free memory with a margin.
//!
//! What is needed is the weights on the GPU, the key-value cache of the context, the
//! recurrent state with its checkpoints, the compute buffer, the prediction head, the
//! driver's own share and a safety margin.

use crate::facts::{FactsV, ModelFacts, gib, gib_text, mib, mib_text, wide_product};
use crate::message::{at_most, copy_opt, opt_string};
use crate::text::{dec, dec_u64, join, joined, lowered, str_eq, string_of, strings, to_lowered};
use vstd::prelude::*;
use vstd::string::*;

verus! {

pub const MIB: u64 = 0x10_0000;

#[derive(Debug, Clone, Copy, PartialEq, Eq, Structural)]
pub enum KvType {
    F16,
    BF16,
    Q8_0,
    Q4_0,
}

impl KvType {
    /// The type of a name, whatever its case; any other name is `q8_0`.
    pub open spec fn named(s: Seq<char>) -> KvType {
        let l = lowered(s);
        if l == "f16"@ {
            KvType::F16
        } else if l == "bf16"@ {
            KvType::BF16
        } else if l == "q4_0"@ {
            KvType::Q4_0
        } else {
            KvType::Q8_0
        }
    }

    pub open spec fn name(self) -> Seq<char> {
        match self {
            KvType::F16 => "f16"@,
            KvType::BF16 => "bf16"@,
            KvType::Q8_0 => "q8_0"@,
            KvType::Q4_0 => "q4_0"@,
        }
    }

    /// The bytes that 32 elements take, with the overhead of their block.
    pub open spec fn bytes_per_32(self) -> nat {
        match self {
            KvType::F16 | KvType::BF16 => 64,
            KvType::Q8_0 => 34,
            KvType::Q4_0 => 18,
        }
    }

    pub fn parse(s: &str) -> (r: KvType)
        ensures
            r == KvType::named(s@),
    {
        let l = string_of(&to_lowered(s));
        if str_eq(l.as_str(), "f16") {
            KvType::F16
        } else if str_eq(l.as_str(), "bf16") {
            KvType::BF16
        } else if str_eq(l.as_str(), "q4_0") {
            KvType::Q4_0
        } else {
            KvType::Q8_0
        }
    }

    pub fn flag(self) -> (r: &'static str)
        ensures
            r@ == self.name(),
    {
        match self {
            KvType::F16 => "f16",
            KvType::BF16 => "bf16",
            KvType::Q8_0 => "q8_0",
            KvType::Q4_0 => "q4_0",
        }
    }

    /// The bytes that 32 elements take.
    pub fn bytes_per_block(self) -> (r: u64)
        ensures
            r == self.bytes_per_32(),
    {
        match self {
            KvType::F16 | KvType::BF16 => 64,
            KvType::Q8_0 => 34,
            KvType::Q4_0 => 18,
        }
    }
}

#[derive(Debug, Clone, Copy)]
pub struct PlanOpts {
    pub kv_type: KvType,
    pub ubatch: u32,
    pub ctx_checkpoints: u32,
    pub mtp: bool,
    pub cuda_context_bytes: u64,
    pub safety_bytes: u64,
}

impl Default for PlanOpts {
    fn default() -> (r: PlanOpts)
        ensures
            r == (PlanOpts {
                kv_type: KvType::Q8_0,
                ubatch: 512,
                ctx_checkpoints: 8,
                mtp: true,
                cuda_context_bytes: (600 * MIB) as u64,
                safety_bytes: (350 * MIB) as u64,
            }),
    {
        PlanOpts {
            kv_type: KvType::Q8_0,
            ubatch: 512,
            ctx_checkpoints: 8,
            mtp: true,
            cuda_context_bytes: 600 * MIB,
            safety_bytes: 350 * MIB,
        }
    }
}

#[derive(Debug)]
pub struct PlanPrefs {
    pub pref_ctx: u32,
    pub min_ctx: u32,
    pub allow_offload: bool,
    /// A number of GPU layers that is not to be searched for.
    pub fixed_ngl: Option<u32>,
    /// The tensor override that goes with it; empty for none.
    pub fixed_ot: Option<String>,
}

pub struct PrefsV {
    pub pref_ctx: u32,
    pub min_ctx: u32,
    pub allow_offload: bool,
    pub fixed_ngl: Option<u32>,
    pub fixed_ot: Option<Seq<char>>,
}

impl View for PlanPrefs {
    type V = PrefsV;

    open spec fn view(&self) -> PrefsV {
        PrefsV {
            pref_ctx: self.pref_ctx,
            min_ctx: self.min_ctx,
            allow_offload: self.allow_offload,
            fixed_ngl: self.fixed_ngl,
            fixed_ot: opt_string(self.fixed_ot),
        }
    }
}

#[derive(Debug)]
pub struct VramPlan {
    pub ngl: u32,
    pub n_ctx: u32,
    pub override_tensor: Option<String>,
    /// The number of blocks at the end whose feed-forward part is on the CPU.
    pub ffn_cpu_blocks: u32,
    pub ctx_checkpoints: u32,
    pub est_vram_bytes: u64,
    pub est_cpu_weight_bytes: u64,
    pub free_vram_bytes: u64,
    pub rationale: String,
}

pub struct PlanV {
    pub ngl: u32,
    pub n_ctx: u32,
    pub override_tensor: Option<Seq<char>>,
    pub ffn_cpu_blocks: u32,
    pub ctx_checkpoints: u32,
    pub est_vram_bytes: u64,
    pub est_cpu_weight_bytes: u64,
    pub free_vram_bytes: u64,
    pub rationale: Seq<char>,
}

impl View for VramPlan {
    type V = PlanV;

    open spec fn view(&self) -> PlanV {
        PlanV {
            ngl: self.ngl,
            n_ctx: self.n_ctx,
            override_tensor: opt_string(self.override_tensor),
            ffn_cpu_blocks: self.ffn_cpu_blocks,
            ctx_checkpoints: self.ctx_checkpoints,
            est_vram_bytes: self.est_vram_bytes,
            est_cpu_weight_bytes: self.est_cpu_weight_bytes,
            free_vram_bytes: self.free_vram_bytes,
            rationale: self.rationale@,
        }
    }
}

impl VramPlan {
    pub fn copy(&self) -> (r: VramPlan)
        ensures
            r@ == self@,
    {
        VramPlan {
            ngl: self.ngl,
            n_ctx: self.n_ctx,
            override_tensor: copy_opt(&self.override_tensor),
            ffn_cpu_blocks: self.ffn_cpu_blocks,
            ctx_checkpoints: self.ctx_checkpoints,
            est_vram_bytes: self.est_vram_bytes,
            est_cpu_weight_bytes: self.est_cpu_weight_bytes,
            free_vram_bytes: self.free_vram_bytes,
            rationale: self.rationale.clone(),
        }
    }
}

// ---------------------------------------------------------------- the budget

pub open spec fn minus(a: nat, b: nat) -> nat {
    if a >= b {
        (a - b) as nat
    } else {
        0
    }
}

/// The largest number of bytes that can be stated.
pub open spec fn cap() -> nat {
    u64::MAX as nat
}

/// The bytes of the key-value cache for one token, rounded up.
pub open spec fn kv_per_token(f: FactsV, kv: KvType) -> nat {
    let e = f.n_head_kv as nat * (f.head_dim as nat + f.value_dim as nat) * f.n_attn_layers as nat * kv.bytes_per_32();
    at_most(((e + 31) / 32) as nat, cap())
}

/// The bytes of the compute buffer: a share for each token of a batch, within 256
/// and 1536 MiB.
pub open spec fn compute_buffer(f: FactsV, ubatch: u32) -> nat {
    let vocab = if f.n_vocab >= 32_000 {
        f.n_vocab as nat
    } else {
        32_000
    };
    let n = ubatch as nat * (f.n_embd as nat * 32 + vocab * 4);
    let low = if n >= 256 * MIB {
        n
    } else {
        (256 * MIB) as nat
    };
    at_most(low, (1536 * MIB) as nat)
}

/// The bytes of the recurrent state: a checkpoint takes half of it.
pub open spec fn state_total(f: FactsV, checkpoints: u32) -> nat {
    f.recurrent_state_bytes_per_seq as nat + (f.recurrent_state_bytes_per_seq as nat * checkpoints as nat) / 2
}

/// The bytes that are needed on the GPU for `ngl` layers, a context of `n_ctx`
/// tokens and the feed-forward parts of `k` blocks on the CPU.
pub open spec fn needed(f: FactsV, ngl: nat, n_ctx: nat, k: nat, o: PlanOpts) -> nat {
    let weights = minus(at_most(f.gpu_weights(ngl), cap()), at_most(f.ffn_tail(k), cap()));
    let mtp = if o.mtp && f.has_mtp {
        f.mtp_bytes as nat + (64 * MIB) as nat
    } else {
        0
    };
    at_most(
        weights + kv_per_token(f, o.kv_type) * n_ctx + state_total(f, o.ctx_checkpoints) + compute_buffer(f, o.ubatch)
            + mtp + o.cuda_context_bytes as nat + o.safety_bytes as nat,
        cap(),
    )
}

/// The bytes of the weights that stay on the CPU.
pub open spec fn on_cpu(f: FactsV, ngl: nat, k: nat) -> nat {
    at_most(
        minus(minus(f.total_bytes as nat, f.mtp_bytes as nat), at_most(f.gpu_weights(ngl), cap())) + at_most(
            f.ffn_tail(k),
            cap(),
        ),
        cap(),
    )
}

// ---------------------------------------------------------------- the search

/// What the planner works with.
pub struct Setup {
    pub f: FactsV,
    pub free: u64,
    pub prefs: PrefsV,
    pub o: PlanOpts,
}

impl Setup {
    /// The layers of the model and the output layer.
    pub open spec fn all_layers(self) -> nat {
        self.f.n_layer as nat + 1
    }

    pub open spec fn need(self, ngl: nat, n_ctx: nat, k: nat) -> nat {
        needed(self.f, ngl, n_ctx, k, self.o)
    }

    pub open spec fn fits(self, ngl: nat, n_ctx: nat, k: nat) -> bool {
        self.need(ngl, n_ctx, k) <= self.free
    }

    /// One step of 4096 tokens down, not below the least context.
    pub open spec fn smaller(self, ctx: nat) -> nat {
        let c = minus(ctx, 4096);
        if c >= self.prefs.min_ctx {
            c
        } else {
            self.prefs.min_ctx as nat
        }
    }

    /// The first smaller context at which all layers fit.
    pub open spec fn reduced(self, ctx: nat) -> Option<nat>
        decreases ctx,
    {
        if ctx <= self.prefs.min_ctx {
            None
        } else if self.smaller(ctx) < ctx {
            let c = self.smaller(ctx);
            if self.fits(self.all_layers(), c, 0) {
                Some(c)
            } else {
                self.reduced(c)
            }
        } else {
            None
        }
    }

    /// The least number of blocks, from `k` on, whose offloading makes all layers fit.
    pub open spec fn fewest(self, ctx: nat, k: nat) -> Option<nat>
        decreases self.f.n_layer + 1 - k,
    {
        if k > self.f.n_layer {
            None
        } else if self.fits(self.all_layers(), ctx, k) {
            Some(k)
        } else {
            self.fewest(ctx, k + 1)
        }
    }

    /// The blocks to offload at a context: the fewest that do, where they are at most
    /// four tenths of all, and the context is not below the least.
    pub open spec fn offload(self, ctx: nat) -> Option<nat> {
        if ctx < self.prefs.min_ctx {
            None
        } else {
            match self.fewest(ctx, 1) {
                Some(k) => if k * 10 <= self.f.n_layer * 4 {
                    Some(k)
                } else {
                    None
                },
                None => None,
            }
        }
    }

    /// A context between the preferred and the least, in steps of 4096.
    pub open spec fn middle_ctx(self) -> nat {
        ((self.prefs.pref_ctx as nat + self.prefs.min_ctx as nat) / 2 / 4096 * 4096) as nat
    }

    /// The most layers, from `ngl` down in steps of two, that fit at the least
    /// context.
    pub open spec fn fewer_layers(self, ngl: nat) -> Option<nat>
        decreases ngl,
    {
        if ngl == 0 {
            None
        } else if self.fits(ngl, self.prefs.min_ctx as nat, 0) {
            Some(ngl)
        } else {
            self.fewer_layers(minus(ngl, 2))
        }
    }

    /// The plan: what is fixed; else all layers at the preferred context; else at a
    /// smaller one; else, where that is allowed, with some blocks offloaded at the
    /// preferred, a middle or the least context; else with fewer layers; else none.
    pub open spec fn choice(self) -> Choice {
        let all = self.all_layers();
        let pref = self.prefs.pref_ctx as nat;
        let least = self.prefs.min_ctx as nat;
        if let Some(ngl) = self.prefs.fixed_ngl {
            Choice::Fixed(ngl as nat)
        } else if self.fits(all, pref, 0) {
            Choice::All
        } else if let Some(c) = self.reduced(pref) {
            Choice::Reduced(c)
        } else if !self.prefs.allow_offload {
            Choice::NoOffload
        } else if let Some(k) = self.offload(pref) {
            Choice::Offload(pref, k)
        } else if let Some(k) = self.offload(self.middle_ctx()) {
            Choice::Offload(self.middle_ctx(), k)
        } else if let Some(k) = self.offload(least) {
            Choice::Offload(least, k)
        } else if let Some(n) = self.fewer_layers(self.f.n_layer as nat) {
            Choice::Fewer(n)
        } else {
            Choice::Cpu
        }
    }

    /// The layers, the context, the offloaded blocks and the override of the plan.
    pub open spec fn chosen(self) -> (nat, nat, nat, Option<Seq<char>>) {
        let all = self.all_layers();
        let pref = self.prefs.pref_ctx as nat;
        let least = self.prefs.min_ctx as nat;
        match self.choice() {
            Choice::Fixed(n) => (
                n,
                pref,
                0,
                match self.prefs.fixed_ot {
                    Some(s) => if s.len() > 0 {
                        Some(s)
                    } else {
                        None
                    },
                    None => None,
                },
            ),
            Choice::All => (all, pref, 0, None),
            Choice::Reduced(c) => (all, c, 0, None),
            Choice::NoOffload => (all, least, 0, None),
            Choice::Offload(c, k) => (all, c, k, Some(override_of(self.f.n_layer, k as u32))),
            Choice::Fewer(n) => (n, least, 0, None),
            Choice::Cpu => (0, least, 0, None),
        }
    }

    /// The first line of the rationale: what there is, and what a token costs.
    pub open spec fn opening(self) -> Seq<char> {
        "free VRAM "@ + gib(self.free as nat) + " GiB; weights "@ + gib(self.f.total_bytes as nat) + " GiB; kv/token "@
            + dec(kv_per_token(self.f, self.o.kv_type)) + " B ("@ + dec(self.f.n_attn_layers as nat) + " attn layers, "@
            + self.o.kv_type.name() + "); recurrent state "@ + mib(self.f.recurrent_state_bytes_per_seq as nat)
            + " MiB/seq"@
    }

    /// The line that says that all layers are too big at the preferred context.
    pub open spec fn too_big(self) -> Seq<char> {
        "all layers @ ctx "@ + dec(self.prefs.pref_ctx as nat) + " → "@ + gib(
            self.need(self.all_layers(), self.prefs.pref_ctx as nat, 0),
        ) + " GiB (too big)"@
    }

    /// The line that says what was chosen.
    pub open spec fn verdict_line(self) -> Seq<char> {
        let (ngl, ctx, k, _) = self.chosen();
        let est = gib(self.need(ngl, ctx, k));
        match self.choice() {
            Choice::Fixed(n) => "profile fixes ngl="@ + dec(n) + "; est "@ + est + " GiB"@,
            Choice::All => "all "@ + dec(self.f.n_layer as nat) + " layers on GPU @ ctx "@ + dec(ctx) + " → "@ + est
                + " GiB (fits)"@,
            Choice::Reduced(c) => "all layers @ reduced ctx "@ + dec(c) + " → "@ + est + " GiB (fits)"@,
            Choice::NoOffload => "offload disabled; will likely OOM"@,
            Choice::Offload(c, k) => "FFN of last "@ + dec(k) + " blocks → CPU ("@ + gib(
                at_most(self.f.ffn_tail(k), cap()),
            ) + " GiB), ctx "@ + dec(c) + " → "@ + est + " GiB (fits)"@,
            Choice::Fewer(n) => "ngl "@ + dec(n) + "/"@ + dec(self.f.n_layer as nat) + " @ ctx "@ + dec(ctx) + " → "@
                + est + " GiB (fits; expect slow decode)"@,
            Choice::Cpu => "model does not fit on GPU at all; CPU inference"@,
        }
    }

    pub open spec fn rationale(self) -> Seq<char> {
        match self.choice() {
            Choice::Fixed(_) | Choice::All => self.opening() + "\n"@ + self.verdict_line(),
            _ => self.opening() + "\n"@ + self.too_big() + "\n"@ + self.verdict_line(),
        }
    }

    pub open spec fn plan(self) -> PlanV {
        let (ngl, ctx, k, ot) = self.chosen();
        PlanV {
            ngl: ngl as u32,
            n_ctx: ctx as u32,
            override_tensor: ot,
            ffn_cpu_blocks: k as u32,
            ctx_checkpoints: self.o.ctx_checkpoints,
            est_vram_bytes: self.need(ngl, ctx, k) as u64,
            est_cpu_weight_bytes: on_cpu(self.f, ngl, k) as u64,
            free_vram_bytes: self.free,
            rationale: self.rationale(),
        }
    }
}

/// Which way of fitting the model was found.
pub enum Choice {
    Fixed(nat),
    All,
    Reduced(nat),
    NoOffload,
    Offload(nat, nat),
    Fewer(nat),
    Cpu,
}

/// The numbers `from..to` in decimal.
pub open spec fn numbered(from: nat, to: nat) -> Seq<Seq<char>> {
    Seq::new(minus(to, from), |i: int| dec((from + i) as nat))
}

/// The tensor override that sends the feed-forward parts of the last `k` of `n`
/// blocks to the CPU.
pub open spec fn override_of(n: u32, k: u32) -> Seq<char> {
    r"blk\.("@ + joined(numbered(minus(n as nat, k as nat), n as nat), "|"@) + r")\.ffn_.*=CPU"@
}

proof fn lemma_reduced(s: Setup, ctx: nat)
    ensures
        s.reduced(ctx) matches Some(c) ==> s.prefs.min_ctx <= c < ctx && s.fits(s.all_layers(), c, 0),
    decreases ctx,
{
    if ctx > s.prefs.min_ctx && s.smaller(ctx) < ctx && !s.fits(s.all_layers(), s.smaller(ctx), 0) {
        lemma_reduced(s, s.smaller(ctx));
    }
}

proof fn lemma_fewest(s: Setup, ctx: nat, k: nat)
    requires
        k >= 1,
    ensures
        s.fewest(ctx, k) matches Some(j) ==> k <= j <= s.f.n_layer && s.fits(s.all_layers(), ctx, j),
    decreases s.f.n_layer + 1 - k,
{
    if k <= s.f.n_layer && !s.fits(s.all_layers(), ctx, k) {
        lemma_fewest(s, ctx, k + 1);
    }
}

proof fn lemma_fewer(s: Setup, ngl: nat)
    ensures
        s.fewer_layers(ngl) matches Some(n) ==> 1 <= n <= ngl && s.fits(n, s.prefs.min_ctx as nat, 0),
    decreases ngl,
{
    if ngl > 0 && !s.fits(ngl, s.prefs.min_ctx as nat, 0) {
        lemma_fewer(s, minus(ngl, 2));
    }
}

/// A plan is within the free memory, except where the number of layers is fixed,
/// where offloading is not allowed, or where nothing fits; and its context lies
/// between the least and the preferred one, where these are in order.
pub proof fn law_plan_fits(s: Setup)
    ensures
        ({
            let (ngl, ctx, k, _) = s.chosen();
            &&& s.need(ngl, ctx, k) <= s.free || s.choice() is Fixed || s.choice() is NoOffload || s.choice() is Cpu
            &&& s.prefs.min_ctx <= s.prefs.pref_ctx ==> s.prefs.min_ctx <= ctx <= s.prefs.pref_ctx
            &&& s.choice() is Fixed || ngl <= s.all_layers()
            &&& k <= s.f.n_layer
        }),
{
    let pref = s.prefs.pref_ctx as nat;
    lemma_reduced(s, pref);
    lemma_fewest(s, pref, 1);
    lemma_fewest(s, s.middle_ctx(), 1);
    lemma_fewest(s, s.prefs.min_ctx as nat, 1);
    lemma_fewer(s, s.f.n_layer as nat);
    assert(s.prefs.min_ctx <= s.prefs.pref_ctx ==> s.middle_ctx() <= pref);
}

/// Where all layers fit at the preferred context nothing is given up.
pub proof fn law_everything_on_gpu_when_it_fits(s: Setup)
    requires
        s.prefs.fixed_ngl is None,
        s.fits(s.all_layers(), s.prefs.pref_ctx as nat, 0),
    ensures
        s.chosen() == (s.all_layers(), s.prefs.pref_ctx as nat, 0nat, None::<Seq<char>>),
{
}

// ---------------------------------------------------------------- what a plan gives up

/// All layers do not fit at the context that is `j` steps of 4096 tokens below.
pub open spec fn too_big_at(s: Setup, pref: nat, j: nat) -> bool {
    needed(s.f, (s.f.n_layer + 1) as nat, (pref - 4096 * j) as nat, 0, s.o) > s.free
}

proof fn lemma_reduced_step(s: Setup, ctx: nat, pref: nat, i: nat)
    requires
        ctx == pref - 4096 * i,
        ctx >= s.prefs.min_ctx,
        forall|j: nat| j <= i ==> #[trigger] too_big_at(s, pref, j),
    ensures
        s.reduced(ctx) matches Some(c) ==> {
            &&& c == s.prefs.min_ctx || (pref - c) % 4096 == 0
            &&& forall|j: nat| pref - 4096 * j > c ==> #[trigger] too_big_at(s, pref, j)
        },
        s.reduced(ctx) is None ==> {
            &&& forall|j: nat| pref - 4096 * j >= s.prefs.min_ctx ==> #[trigger] too_big_at(s, pref, j)
            &&& pref > s.prefs.min_ctx ==> s.need(s.all_layers(), s.prefs.min_ctx as nat, 0) > s.free
        },
    decreases ctx,
{
    let all = s.all_layers();
    assert(too_big_at(s, pref, i));
    if ctx > s.prefs.min_ctx {
        let c = s.smaller(ctx);
        if ctx >= 4096 + s.prefs.min_ctx {
            assert(c == pref - 4096 * (i + 1));
            if !s.fits(all, c, 0) {
                assert(too_big_at(s, pref, i + 1));
                lemma_reduced_step(s, c, pref, i + 1);
            }
        } else {
            assert(c == s.prefs.min_ctx);
            assert(s.reduced(c) is None);
        }
    }
}

proof fn lemma_fewest_is_least(s: Setup, ctx: nat, k: nat)
    ensures
        s.fewest(ctx, k) matches Some(m) ==> k <= m <= s.f.n_layer && s.need(s.all_layers(), ctx, m) <= s.free
            && forall|j: nat| k <= j < m ==> #[trigger] s.need(s.all_layers(), ctx, j) > s.free,
        s.fewest(ctx, k) is None ==> forall|j: nat|
            k <= j <= s.f.n_layer ==> #[trigger] s.need(s.all_layers(), ctx, j) > s.free,
    decreases s.f.n_layer + 1 - k,
{
    if k <= s.f.n_layer && !s.fits(s.all_layers(), ctx, k) {
        lemma_fewest_is_least(s, ctx, k + 1);
    }
}

proof fn lemma_fewer_is_most(s: Setup, ngl: nat)
    ensures
        s.fewer_layers(ngl) matches Some(m) ==> 0 < m <= ngl && (ngl - m) % 2 == 0 && s.need(
            m,
            s.prefs.min_ctx as nat,
            0,
        ) <= s.free && forall|j: nat|
            m < j <= ngl && (ngl - j) % 2 == 0 ==> #[trigger] s.need(j, s.prefs.min_ctx as nat, 0) > s.free,
        s.fewer_layers(ngl) is None ==> forall|j: nat|
            0 < j <= ngl && (ngl - j) % 2 == 0 ==> #[trigger] s.need(j, s.prefs.min_ctx as nat, 0) > s.free,
    decreases ngl,
{
    if ngl > 0 && !s.fits(ngl, s.prefs.min_ctx as nat, 0) {
        lemma_fewer_is_most(s, minus(ngl, 2));
    }
}

/// Where a plan puts all layers on the GPU and asks for less context than is preferred, the
/// context is the greatest, of those a multiple of 4096 tokens below the preferred one and of
/// the least, at which they fit: at each greater one of them they do not.
pub proof fn law_no_context_is_given_up_for_nothing(s: Setup)
    requires
        s.prefs.fixed_ngl is None,
        s.f.n_layer < u32::MAX,
        s.plan().ngl == s.f.n_layer + 1,
        s.plan().ffn_cpu_blocks == 0,
        s.plan().n_ctx < s.prefs.pref_ctx,
        s.plan().est_vram_bytes <= s.free,
    ensures
        needed(s.f, (s.f.n_layer + 1) as nat, s.plan().n_ctx as nat, 0, s.o) <= s.free,
        s.plan().n_ctx >= s.prefs.min_ctx,
        s.plan().n_ctx == s.prefs.min_ctx || (s.prefs.pref_ctx - s.plan().n_ctx) % 4096 == 0,
        forall|j: nat|
            s.prefs.pref_ctx - 4096 * j > s.plan().n_ctx ==> #[trigger] too_big_at(s, s.prefs.pref_ctx as nat, j),
{
    let pref = s.prefs.pref_ctx as nat;
    if s.prefs.min_ctx <= pref && !s.fits(s.all_layers(), pref, 0) {
        assert(pref - 4096 * 0 == pref);
        assert(too_big_at(s, pref, 0));
        lemma_reduced_step(s, pref, pref, 0);
    }
    lemma_reduced(s, pref);
    lemma_fewest(s, pref, 1);
    lemma_fewest(s, s.middle_ctx(), 1);
    lemma_fewest(s, s.prefs.min_ctx as nat, 1);
    lemma_fewer(s, s.f.n_layer as nat);
}

/// Where a plan sends the feed-forward parts of blocks to the CPU, all layers would fit in no
/// other way at any of the contexts that are tried; it sends as few as do, at most four tenths
/// of all; the preferred context is given up only where so few do not do at it, and the one in
/// the middle only where they do not do there. All layers count as on the GPU, and the
/// override names the last blocks.
pub proof fn law_as_little_as_possible_is_offloaded(s: Setup)
    requires
        s.prefs.fixed_ngl is None,
        s.f.n_layer < u32::MAX,
        s.prefs.min_ctx <= s.prefs.pref_ctx,
        s.plan().ffn_cpu_blocks > 0,
    ensures
        ({
            let p = s.plan();
            let all = (s.f.n_layer + 1) as nat;
            let pref = s.prefs.pref_ctx as int;
            let least = s.prefs.min_ctx as int;
            let middle = (pref + least) / 2 / 4096 * 4096;
            &&& s.prefs.allow_offload
            &&& p.ngl == all
            &&& p.ffn_cpu_blocks * 10 <= s.f.n_layer * 4
            &&& needed(s.f, all, p.n_ctx as nat, p.ffn_cpu_blocks as nat, s.o) <= s.free
            &&& forall|k: nat|
                1 <= k < p.ffn_cpu_blocks ==> #[trigger] needed(s.f, all, p.n_ctx as nat, k, s.o) > s.free
            &&& p.n_ctx == pref || p.n_ctx == middle || p.n_ctx == least
            &&& p.n_ctx != pref ==> forall|k: nat|
                1 <= k && k * 10 <= s.f.n_layer * 4 ==> #[trigger] needed(s.f, all, pref as nat, k, s.o) > s.free
            &&& p.n_ctx != pref && p.n_ctx != middle && middle >= least ==> forall|k: nat|
                1 <= k && k * 10 <= s.f.n_layer * 4 ==> #[trigger] needed(s.f, all, middle as nat, k, s.o) > s.free
            &&& forall|j: nat| pref - 4096 * j >= least ==> #[trigger] too_big_at(s, pref as nat, j)
            &&& pref > least ==> needed(s.f, all, least as nat, 0, s.o) > s.free
            &&& p.override_tensor == Some(override_of(s.f.n_layer, p.ffn_cpu_blocks))
        }),
{
    let pref = s.prefs.pref_ctx as nat;
    let all = s.all_layers();
    if !s.fits(all, pref, 0) {
        assert(pref - 4096 * 0 == pref);
        assert(too_big_at(s, pref, 0));
        lemma_reduced_step(s, pref, pref, 0);
    }
    lemma_reduced(s, pref);
    lemma_fewest_is_least(s, pref, 1);
    lemma_fewest_is_least(s, s.middle_ctx(), 1);
    lemma_fewest_is_least(s, s.prefs.min_ctx as nat, 1);
    lemma_fewer(s, s.f.n_layer as nat);
    let p = s.plan();
    assert(s.choice() is Offload);
    assert forall|k: nat| 1 <= k < p.ffn_cpu_blocks implies #[trigger] needed(s.f, all, p.n_ctx as nat, k, s.o)
        > s.free by {
        assert(s.need(all, p.n_ctx as nat, k) > s.free);
    }
    if p.n_ctx != pref {
        assert(s.offload(pref) is None);
        assert forall|k: nat| 1 <= k && k * 10 <= s.f.n_layer * 4 implies #[trigger] needed(s.f, all, pref, k, s.o)
            > s.free by {
            assert(s.need(all, pref, k) == needed(s.f, all, pref, k, s.o));
        }
    }
    let middle = s.middle_ctx();
    if p.n_ctx != pref && p.n_ctx != middle && middle >= s.prefs.min_ctx {
        assert(s.offload(middle) is None);
        assert forall|k: nat| 1 <= k && k * 10 <= s.f.n_layer * 4 implies #[trigger] needed(s.f, all, middle, k, s.o)
            > s.free by {
            assert(s.need(all, middle, k) == needed(s.f, all, middle, k, s.o));
        }
    }
}

proof fn lemma_no_offload(s: Setup, ctx: nat)
    requires
        s.offload(ctx) is None,
        ctx >= s.prefs.min_ctx,
    ensures
        forall|k: nat|
            1 <= k && k * 10 <= s.f.n_layer * 4 ==> #[trigger] needed(s.f, (s.f.n_layer + 1) as nat, ctx, k, s.o)
                > s.free,
{
    lemma_fewest_is_least(s, ctx, 1);
    assert forall|k: nat| 1 <= k && k * 10 <= s.f.n_layer * 4 implies #[trigger] needed(
        s.f,
        (s.f.n_layer + 1) as nat,
        ctx,
        k,
        s.o,
    ) > s.free by {
        assert(s.need(s.all_layers(), ctx, k) == needed(s.f, (s.f.n_layer + 1) as nat, ctx, k, s.o));
    }
}

/// Where a plan leaves layers on the CPU, it does so at the least context, no two more would
/// fit, and even the fewest blocks that could be offloaded instead do not do at any context
/// that is tried.
pub proof fn law_layers_are_left_out_as_a_last_resort(s: Setup)
    requires
        s.prefs.fixed_ngl is None,
        s.f.n_layer < u32::MAX,
        s.prefs.min_ctx <= s.prefs.pref_ctx,
        s.plan().ngl <= s.f.n_layer,
    ensures
        ({
            let p = s.plan();
            let all = (s.f.n_layer + 1) as nat;
            let least = s.prefs.min_ctx as nat;
            &&& s.prefs.allow_offload
            &&& p.n_ctx == least
            &&& p.ffn_cpu_blocks == 0
            &&& p.override_tensor is None
            &&& p.ngl > 0 ==> needed(s.f, p.ngl as nat, least, 0, s.o) <= s.free && (s.f.n_layer - p.ngl) % 2 == 0
            &&& forall|n: nat|
                p.ngl < n <= s.f.n_layer && (s.f.n_layer - n) % 2 == 0 ==> #[trigger] needed(s.f, n, least, 0, s.o)
                    > s.free
            &&& forall|k: nat|
                1 <= k && k * 10 <= s.f.n_layer * 4 ==> #[trigger] needed(s.f, all, s.prefs.pref_ctx as nat, k, s.o)
                    > s.free
            &&& forall|k: nat|
                1 <= k && k * 10 <= s.f.n_layer * 4 ==> #[trigger] needed(s.f, all, least, k, s.o) > s.free
        }),
{
    let pref = s.prefs.pref_ctx as nat;
    let least = s.prefs.min_ctx as nat;
    let all = s.all_layers();
    lemma_reduced(s, pref);
    lemma_fewest(s, pref, 1);
    lemma_fewest(s, s.middle_ctx(), 1);
    lemma_fewest(s, least, 1);
    lemma_fewer_is_most(s, s.f.n_layer as nat);
    let p = s.plan();
    assert(s.choice() is Fewer || s.choice() is Cpu);
    lemma_no_offload(s, pref);
    lemma_no_offload(s, least);
    assert forall|n: nat| p.ngl < n <= s.f.n_layer && (s.f.n_layer - n) % 2 == 0 implies #[trigger] needed(
        s.f,
        n,
        least,
        0,
        s.o,
    ) > s.free by {
        assert(s.need(n, least, 0) > s.free);
    }
}

/// A text is there and is not empty.
pub open spec fn given_text(t: Option<Seq<char>>) -> bool {
    t is Some && t->Some_0.len() > 0
}

/// A number of layers that is fixed is taken as it is, at the preferred context, with the
/// override that goes with it. Whatever is planned, the estimates are those of the plan.
pub proof fn law_a_plan_states_its_own_estimates(s: Setup)
    requires
        s.f.n_layer < u32::MAX,
        s.prefs.min_ctx <= s.prefs.pref_ctx,
    ensures
        ({
            let p = s.plan();
            &&& p.est_vram_bytes == needed(s.f, p.ngl as nat, p.n_ctx as nat, p.ffn_cpu_blocks as nat, s.o)
            &&& p.free_vram_bytes == s.free
            &&& p.ctx_checkpoints == s.o.ctx_checkpoints
            &&& s.prefs.fixed_ngl matches Some(n) ==> p.ngl == n && p.n_ctx == s.prefs.pref_ctx && p.ffn_cpu_blocks == 0
            &&& s.prefs.fixed_ngl is Some && given_text(s.prefs.fixed_ot) ==> p.override_tensor == s.prefs.fixed_ot
            &&& p.override_tensor is Some <==> p.ffn_cpu_blocks > 0 || (s.prefs.fixed_ngl is Some && given_text(
                s.prefs.fixed_ot,
            ))
            &&& s.prefs.fixed_ngl is None && !s.prefs.allow_offload ==> p.ngl == s.f.n_layer + 1 && p.ffn_cpu_blocks == 0
        }),
{
    let pref = s.prefs.pref_ctx as nat;
    lemma_reduced(s, pref);
    lemma_fewest(s, pref, 1);
    lemma_fewest(s, s.middle_ctx(), 1);
    lemma_fewest(s, s.prefs.min_ctx as nat, 1);
    lemma_fewer(s, s.f.n_layer as nat);
    let (ngl, ctx, k, _) = s.chosen();
    assert(s.need(ngl, ctx, k) <= cap());
}

// ---------------------------------------------------------------- what memory is needed for

/// One more token of context takes the keys and the values of every attention layer: for each
/// head the two dimensions, at 64 bytes for 32 elements in half precision, 34 in eight bits
/// and 18 in four, rounded up to whole bytes.
pub proof fn law_a_token_takes_its_keys_and_values(f: FactsV, o: PlanOpts, ngl: nat, n_ctx: nat, k: nat)
    requires
        needed(f, ngl, n_ctx + 1, k, o) < u64::MAX,
    ensures
        ({
            let elements = f.n_head_kv as int * (f.head_dim as int + f.value_dim as int) * f.n_attn_layers as int;
            let more = needed(f, ngl, n_ctx + 1, k, o) - needed(f, ngl, n_ctx, k, o);
            let size = match o.kv_type {
                KvType::F16 | KvType::BF16 => 64int,
                KvType::Q8_0 => 34,
                KvType::Q4_0 => 18,
            };
            elements * size <= more * 32 < elements * size + 32
        }),
{
    let kv = kv_per_token(f, o.kv_type);
    assert(kv * (n_ctx + 1) == kv * n_ctx + kv) by (nonlinear_arith);
    let e = f.n_head_kv as nat * (f.head_dim as nat + f.value_dim as nat) * f.n_attn_layers as nat;
    assert(kv < cap()) by {
        assert(kv * n_ctx >= 0) by (nonlinear_arith)
            requires
                kv >= 0,
                n_ctx >= 0,
        ;
    }
    assert(e >= 0) by (nonlinear_arith)
        requires
            e == f.n_head_kv as nat * (f.head_dim as nat + f.value_dim as nat) * f.n_attn_layers as nat,
    ;
}

/// The layers are put on the GPU one by one from the first; one more than there are takes the
/// rest of the weights along. Offloading takes off the feed-forward parts from the last on.
pub proof fn law_weights_go_layer_by_layer(f: FactsV, n: nat)
    ensures
        f.gpu_weights(0) == 0,
        n < f.layer_bytes.len() ==> f.gpu_weights(n + 1) == f.gpu_weights(n) + f.layer_bytes[n as int],
        f.gpu_weights(f.layer_bytes.len() + 1) == f.gpu_weights(f.layer_bytes.len()) + f.nonlayer_bytes,
        n > f.layer_bytes.len() ==> f.gpu_weights(n) == f.gpu_weights(f.layer_bytes.len() + 1),
        f.ffn_tail(0) == 0,
        n < f.layer_ffn_bytes.len() ==> f.ffn_tail(n + 1) == f.ffn_tail(n) + f.layer_ffn_bytes[f.layer_ffn_bytes.len()
            - 1 - n],
        n >= f.layer_ffn_bytes.len() ==> f.ffn_tail(n) == f.ffn_tail(f.layer_ffn_bytes.len()),
{
}

/// What is needed is the weights on the GPU less what is offloaded and what is needed without
/// any; the latter grows by the recurrent state with every two checkpoints, and by what is
/// asked for as a margin and for the driver; a prediction head that is used takes its weights
/// and 64 MiB, one that is not takes nothing.
pub proof fn law_what_is_needed_adds_up(f: FactsV, o: PlanOpts, ngl: nat, n_ctx: nat, k: nat, m: u32)
    requires
        needed(f, ngl, n_ctx, k, o) < u64::MAX,
        f.gpu_weights(ngl) <= u64::MAX,
        f.ffn_tail(k) <= f.gpu_weights(ngl),
        o.ctx_checkpoints + 2 * m <= u32::MAX,
        f.layer_bytes.len() > 0,
    ensures
        needed(f, ngl, n_ctx, k, o) == f.gpu_weights(ngl) - f.ffn_tail(k) + needed(f, 0, n_ctx, 0, o),
        ({
            let more = PlanOpts { ctx_checkpoints: (o.ctx_checkpoints + 2 * m) as u32, ..o };
            needed(f, 0, n_ctx, 0, more) < u64::MAX ==> needed(f, 0, n_ctx, 0, more) == needed(f, 0, n_ctx, 0, o) + m
                * f.recurrent_state_bytes_per_seq
        }),
        ({
            let none = PlanOpts { mtp: false, cuda_context_bytes: 0, safety_bytes: 0, ctx_checkpoints: 0, ..o };
            let rest = needed(f, 0, 0, 0, none) - f.recurrent_state_bytes_per_seq;
            let rate = f.n_embd as int * 32 + (if f.n_vocab >= 32000 {
                f.n_vocab as int
            } else {
                32000
            }) * 4;
            &&& 256 * 0x10_0000 <= rest <= 1536 * 0x10_0000
            &&& rest > 256 * 0x10_0000 ==> rest <= o.ubatch * rate
            &&& rest < 1536 * 0x10_0000 ==> rest >= o.ubatch * rate
        }),
        needed(f, 0, n_ctx, 0, o) - needed(f, 0, n_ctx, 0, (PlanOpts { mtp: false, ..o })) == (if o.mtp && f.has_mtp {
            f.mtp_bytes + 64 * 0x10_0000
        } else {
            0
        }),
        needed(f, 0, n_ctx, 0, o) - needed(
            f,
            0,
            n_ctx,
            0,
            (PlanOpts { cuda_context_bytes: 0, safety_bytes: 0, ..o }),
        ) == o.cuda_context_bytes + o.safety_bytes,
{
    let kv = kv_per_token(f, o.kv_type);
    assert(kv * n_ctx >= 0) by (nonlinear_arith)
        requires
            kv >= 0,
            n_ctx >= 0,
    ;
    assert(kv * 0 == 0);
    let r = f.recurrent_state_bytes_per_seq as int;
    let c = o.ctx_checkpoints as int;
    let mm = m as int;
    assert(r * (c + 2 * mm) == r * c + 2 * (mm * r)) by (nonlinear_arith);
    assert(r * 0 == 0);
    assert(mm * r >= 0) by (nonlinear_arith)
        requires
            mm >= 0,
            r >= 0,
    ;
    assert(r * c >= 0) by (nonlinear_arith)
        requires
            c >= 0,
            r >= 0,
    ;
    assert((r * c + 2 * (mm * r)) / 2 == (r * c) / 2 + mm * r);
}

// ---------------------------------------------------------------- the planner

/// What the planner picks.
pub enum Pick {
    Fixed(u32),
    All,
    Reduced(u32),
    NoOffload,
    Offload(u32, u32),
    Fewer(u32),
    Cpu,
}

impl View for Pick {
    type V = Choice;

    open spec fn view(&self) -> Choice {
        match self {
            Pick::Fixed(n) => Choice::Fixed(*n as nat),
            Pick::All => Choice::All,
            Pick::Reduced(c) => Choice::Reduced(*c as nat),
            Pick::NoOffload => Choice::NoOffload,
            Pick::Offload(c, k) => Choice::Offload(*c as nat, *k as nat),
            Pick::Fewer(n) => Choice::Fewer(*n as nat),
            Pick::Cpu => Choice::Cpu,
        }
    }
}

pub struct VramPlanner<'a> {
    pub facts: &'a ModelFacts,
    pub free_vram: u64,
    pub total_vram: u64,
    pub free_ram: u64,
}

fn cap_u64(n: u128) -> (r: u64)
    ensures
        r == at_most(n as nat, cap()),
{
    if n <= u64::MAX as u128 {
        n as u64
    } else {
        u64::MAX
    }
}

/// The tensor override that sends the feed-forward parts of the last `k` of `n`
/// blocks to the CPU.
pub fn ffn_override_regex(n: u32, k: u32) -> (r: String)
    ensures
        r@ == override_of(n, k),
{
    let start: u32 = n.saturating_sub(k);
    let mut ids: Vec<String> = Vec::new();
    let mut i: u32 = start;
    let ghost want = numbered(start as nat, n as nat);
    while i < n
        invariant
            start <= i <= n,
            want == numbered(start as nat, n as nat),
            strings(ids@) == want.take(i - start),
        decreases n - i,
    {
        let ghost b = ids@;
        ids.push(dec_u64(i as u64));
        assert(strings(ids@) =~= strings(b).push(dec(i as nat)));
        i += 1;
    }
    assert(want.take(n - start) =~= want);
    r"blk\.(".to_owned().concat(join(&ids, "|").as_str()).concat(r")\.ffn_.*=CPU")
}

impl<'a> VramPlanner<'a> {
    /// The bytes of the key-value cache for one token.
    pub fn kv_bytes_per_token(&self, kv: KvType) -> (r: u64)
        ensures
            r == kv_per_token(self.facts@, kv),
    {
        let f = self.facts;
        let dims: u64 = f.head_dim as u64 + f.value_dim as u64;
        let a: u128 = wide_product(f.n_head_kv as u64, dims);
        let per_block = kv.bytes_per_block();
        proof {
            let (h, d, n, p) = (f.n_head_kv as int, dims as int, f.n_attn_layers as int, per_block as int);
            assert(0 <= h * d <= 0x1_0000_0000 * 0x2_0000_0000) by (nonlinear_arith)
                requires
                    0 <= h <= 0x1_0000_0000,
                    0 <= d <= 0x2_0000_0000,
            ;
            let x = h * d;
            assert(0 <= x * n <= 0x2_0000_0000_0000_0000 * 0x1_0000_0000) by (nonlinear_arith)
                requires
                    0 <= x <= 0x2_0000_0000_0000_0000,
                    0 <= n <= 0x1_0000_0000,
            ;
            let y = x * n;
            assert(0 <= y * p <= 0x2_0000_0000_0000_0000_0000_0000 * 64) by (nonlinear_arith)
                requires
                    0 <= y <= 0x2_0000_0000_0000_0000_0000_0000,
                    0 <= p <= 64,
            ;
        }
        let e: u128 = a * f.n_attn_layers as u128 * per_block as u128;
        cap_u64((e + 31) / 32)
    }

    /// The bytes of the compute buffer.
    pub fn compute_bytes(&self, ubatch: u32) -> (r: u64)
        ensures
            r == compute_buffer(self.facts@, ubatch),
    {
        let f = self.facts;
        let vocab: u64 = if f.n_vocab >= 32_000 {
            f.n_vocab as u64
        } else {
            32_000
        };
        let per_tok: u64 = f.n_embd as u64 * 32 + vocab * 4;
        let n: u128 = wide_product(ubatch as u64, per_tok);
        let low: u128 = if n >= 256 * MIB as u128 {
            n
        } else {
            256 * MIB as u128
        };
        if low <= 1536 * MIB as u128 {
            low as u64
        } else {
            1536 * MIB
        }
    }

    /// The bytes that are needed on the GPU.
    pub fn estimate(&self, ngl: u32, n_ctx: u32, ffn_cpu_blocks: u32, o: &PlanOpts) -> (r: u64)
        ensures
            r == needed(self.facts@, ngl as nat, n_ctx as nat, ffn_cpu_blocks as nat, *o),
    {
        let f = self.facts;
        let weights: u64 = f.weights_bytes_on_gpu(ngl).saturating_sub(f.ffn_tail_bytes(ffn_cpu_blocks as usize));
        let kv: u128 = wide_product(self.kv_bytes_per_token(o.kv_type), n_ctx as u64);
        let half: u128 = wide_product(f.recurrent_state_bytes_per_seq, o.ctx_checkpoints as u64) / 2;
        let rec: u128 = f.recurrent_state_bytes_per_seq as u128 + half;
        let mtp: u128 = if o.mtp && f.has_mtp {
            f.mtp_bytes as u128 + 64 * MIB as u128
        } else {
            0
        };
        proof {
            let (a, b) = (kv_per_token(self.facts@, o.kv_type) as int, n_ctx as int);
            assert(0 <= a * b <= 0xffff_ffff_ffff_ffff * 0xffff_ffff) by (nonlinear_arith)
                requires
                    0 <= a <= 0xffff_ffff_ffff_ffff,
                    0 <= b <= 0xffff_ffff,
            ;
            let (c, d) = (f.recurrent_state_bytes_per_seq as int, o.ctx_checkpoints as int);
            assert(0 <= c * d <= 0xffff_ffff_ffff_ffff * 0xffff_ffff) by (nonlinear_arith)
                requires
                    0 <= c <= 0xffff_ffff_ffff_ffff,
                    0 <= d <= 0xffff_ffff,
            ;
        }
        let sum: u128 = weights as u128 + kv + rec + self.compute_bytes(o.ubatch) as u128 + mtp
            + o.cuda_context_bytes as u128 + o.safety_bytes as u128;
        cap_u64(sum)
    }

    pub open spec fn setup(&self, prefs: &PlanPrefs, o: &PlanOpts) -> Setup {
        Setup { f: self.facts@, free: self.free_vram, prefs: prefs@, o: *o }
    }

    fn assemble(
        &self,
        ngl: u32,
        n_ctx: u32,
        k: u32,
        ot: Option<String>,
        est: u64,
        rationale: String,
        o: &PlanOpts,
    ) -> (r: VramPlan)
        ensures
            r@ == (PlanV {
                ngl,
                n_ctx,
                override_tensor: opt_string(ot),
                ffn_cpu_blocks: k,
                ctx_checkpoints: o.ctx_checkpoints,
                est_vram_bytes: est,
                est_cpu_weight_bytes: on_cpu(self.facts@, ngl as nat, k as nat) as u64,
                free_vram_bytes: self.free_vram,
                rationale: rationale@,
            }),
    {
        let f = self.facts;
        let cpu: u64 = f.total_bytes.saturating_sub(f.mtp_bytes).saturating_sub(
            f.weights_bytes_on_gpu(ngl),
        ).saturating_add(f.ffn_tail_bytes(k as usize));
        VramPlan {
            ngl,
            n_ctx,
            override_tensor: ot,
            ffn_cpu_blocks: k,
            ctx_checkpoints: o.ctx_checkpoints,
            est_vram_bytes: est,
            est_cpu_weight_bytes: cpu,
            free_vram_bytes: self.free_vram,
            rationale,
        }
    }

    fn find_reduced(&self, prefs: &PlanPrefs, o: &PlanOpts) -> (r: Option<u32>)
        requires
            self.facts.n_layer < u32::MAX,
        ensures
            match r {
                Some(c) => self.setup(prefs, o).reduced(prefs.pref_ctx as nat) == Some(c as nat),
                None => self.setup(prefs, o).reduced(prefs.pref_ctx as nat) is None,
            },
    {
        let all: u32 = self.facts.n_layer + 1;
        let ghost s = self.setup(prefs, o);
        let mut ctx: u32 = prefs.pref_ctx;
        while ctx > prefs.min_ctx
            invariant
                s == self.setup(prefs, o),
                all == s.all_layers(),
                s.reduced(prefs.pref_ctx as nat) == s.reduced(ctx as nat),
            decreases ctx,
        {
            let down: u32 = ctx.saturating_sub(4096);
            let c: u32 = if down >= prefs.min_ctx {
                down
            } else {
                prefs.min_ctx
            };
            assert(c == s.smaller(ctx as nat));
            if self.estimate(all, c, 0, o) <= self.free_vram {
                return Some(c);
            }
            ctx = c;
        }
        None
    }

    fn find_offload(&self, ctx: u32, prefs: &PlanPrefs, o: &PlanOpts) -> (r: Option<u32>)
        requires
            self.facts.n_layer < u32::MAX,
        ensures
            match r {
                Some(k) => self.setup(prefs, o).offload(ctx as nat) == Some(k as nat),
                None => self.setup(prefs, o).offload(ctx as nat) is None,
            },
    {
        if ctx < prefs.min_ctx {
            return None;
        }
        let n: u32 = self.facts.n_layer;
        let ghost s = self.setup(prefs, o);
        let mut k: u32 = 1;
        while k <= n
            invariant
                1 <= k <= n + 1,
                n < u32::MAX,
                n == self.facts.n_layer,
                s == self.setup(prefs, o),
                ctx >= prefs.min_ctx,
                s.fewest(ctx as nat, 1) == s.fewest(ctx as nat, k as nat),
            decreases n + 1 - k,
        {
            if self.estimate(n + 1, ctx, k, o) <= self.free_vram {
                if k as u64 * 10 <= n as u64 * 4 {
                    return Some(k);
                }
                return None;
            }
            k += 1;
        }
        None
    }

    fn find_fewer(&self, prefs: &PlanPrefs, o: &PlanOpts) -> (r: Option<u32>)
        ensures
            match r {
                Some(n) => self.setup(prefs, o).fewer_layers(self.facts.n_layer as nat) == Some(n as nat),
                None => self.setup(prefs, o).fewer_layers(self.facts.n_layer as nat) is None,
            },
    {
        let ghost s = self.setup(prefs, o);
        let mut ngl: u32 = self.facts.n_layer;
        while ngl > 0
            invariant
                s == self.setup(prefs, o),
                s.fewer_layers(self.facts.n_layer as nat) == s.fewer_layers(ngl as nat),
            decreases ngl,
        {
            if self.estimate(ngl, prefs.min_ctx, 0, o) <= self.free_vram {
                return Some(ngl);
            }
            ngl = ngl.saturating_sub(2);
        }
        None
    }

    fn opening_line(&self, prefs: &PlanPrefs, o: &PlanOpts) -> (r: String)
        ensures
            r@ == self.setup(prefs, o).opening(),
    {
        let f = self.facts;
        "free VRAM ".to_owned().concat(gib_text(self.free_vram).as_str()).concat(" GiB; weights ").concat(
            gib_text(f.total_bytes).as_str(),
        ).concat(" GiB; kv/token ").concat(dec_u64(self.kv_bytes_per_token(o.kv_type)).as_str()).concat(" B (").concat(
            dec_u64(f.n_attn_layers as u64).as_str(),
        ).concat(" attn layers, ").concat(o.kv_type.flag()).concat("); recurrent state ").concat(
            mib_text(f.recurrent_state_bytes_per_seq).as_str(),
        ).concat(" MiB/seq")
    }

    fn pick(&self, prefs: &PlanPrefs, o: &PlanOpts) -> (r: Pick)
        requires
            self.facts.n_layer < u32::MAX,
        ensures
            r@ == self.setup(prefs, o).choice(),
    {
        let ghost s = self.setup(prefs, o);
        if let Some(ngl) = prefs.fixed_ngl {
            return Pick::Fixed(ngl);
        }
        if self.estimate(self.facts.n_layer + 1, prefs.pref_ctx, 0, o) <= self.free_vram {
            return Pick::All;
        }
        if let Some(c) = self.find_reduced(prefs, o) {
            return Pick::Reduced(c);
        }
        if !prefs.allow_offload {
            return Pick::NoOffload;
        }
        if let Some(k) = self.find_offload(prefs.pref_ctx, prefs, o) {
            return Pick::Offload(prefs.pref_ctx, k);
        }
        let middle: u32 = ((prefs.pref_ctx as u64 + prefs.min_ctx as u64) / 2 / 4096 * 4096) as u32;
        assert(middle == s.middle_ctx());
        if let Some(k) = self.find_offload(middle, prefs, o) {
            return Pick::Offload(middle, k);
        }
        if let Some(k) = self.find_offload(prefs.min_ctx, prefs, o) {
            return Pick::Offload(prefs.min_ctx, k);
        }
        match self.find_fewer(prefs, o) {
            Some(n) => Pick::Fewer(n),
            None => Pick::Cpu,
        }
    }

    fn verdict_text(&self, prefs: &PlanPrefs, o: &PlanOpts, pick: &Pick, est: u64) -> (r: String)
        requires
            self.facts.n_layer < u32::MAX,
            pick@ == self.setup(prefs, o).choice(),
            ({
                let (ngl, ctx, k, _) = self.setup(prefs, o).chosen();
                est == self.setup(prefs, o).need(ngl, ctx, k)
            }),
        ensures
            r@ == self.setup(prefs, o).verdict_line(),
    {
        let f = self.facts;
        match pick {
            Pick::Fixed(n) => "profile fixes ngl=".to_owned().concat(dec_u64(*n as u64).as_str()).concat("; est ").concat(
                gib_text(est).as_str(),
            ).concat(" GiB"),
            Pick::All => "all ".to_owned().concat(dec_u64(f.n_layer as u64).as_str()).concat(
                " layers on GPU @ ctx ",
            ).concat(dec_u64(prefs.pref_ctx as u64).as_str()).concat(" → ").concat(gib_text(est).as_str()).concat(
                " GiB (fits)",
            ),
            Pick::Reduced(c) => "all layers @ reduced ctx ".to_owned().concat(dec_u64(*c as u64).as_str()).concat(
                " → ",
            ).concat(gib_text(est).as_str()).concat(" GiB (fits)"),
            Pick::NoOffload => "offload disabled; will likely OOM".to_owned(),
            Pick::Offload(c, k) => "FFN of last ".to_owned().concat(dec_u64(*k as u64).as_str()).concat(
                " blocks → CPU (",
            ).concat(gib_text(f.ffn_tail_bytes(*k as usize)).as_str()).concat(" GiB), ctx ").concat(
                dec_u64(*c as u64).as_str(),
            ).concat(" → ").concat(gib_text(est).as_str()).concat(" GiB (fits)"),
            Pick::Fewer(n) => "ngl ".to_owned().concat(dec_u64(*n as u64).as_str()).concat("/").concat(
                dec_u64(f.n_layer as u64).as_str(),
            ).concat(" @ ctx ").concat(dec_u64(prefs.min_ctx as u64).as_str()).concat(" → ").concat(
                gib_text(est).as_str(),
            ).concat(" GiB (fits; expect slow decode)"),
            Pick::Cpu => "model does not fit on GPU at all; CPU inference".to_owned(),
        }
    }

    fn too_big_text(&self, prefs: &PlanPrefs, o: &PlanOpts) -> (r: String)
        requires
            self.facts.n_layer < u32::MAX,
        ensures
            r@ == self.setup(prefs, o).too_big(),
    {
        let est = self.estimate(self.facts.n_layer + 1, prefs.pref_ctx, 0, o);
        "all layers @ ctx ".to_owned().concat(dec_u64(prefs.pref_ctx as u64).as_str()).concat(" → ").concat(
            gib_text(est).as_str(),
        ).concat(" GiB (too big)")
    }

    fn chosen_parts(&self, prefs: &PlanPrefs, o: &PlanOpts, pick: &Pick) -> (r: (u32, u32, u32, Option<String>))
        requires
            self.facts.n_layer < u32::MAX,
            pick@ == self.setup(prefs, o).choice(),
        ensures
            (r.0 as nat, r.1 as nat, r.2 as nat, opt_string(r.3)) == self.setup(prefs, o).chosen(),
    {
        let all: u32 = self.facts.n_layer + 1;
        match pick {
            Pick::Fixed(n) => {
                let ot = match &prefs.fixed_ot {
                    Some(x) => if x.as_str().is_empty() {
                        None
                    } else {
                        Some(x.clone())
                    },
                    None => None,
                };
                (*n, prefs.pref_ctx, 0, ot)
            },
            Pick::All => (all, prefs.pref_ctx, 0, None),
            Pick::Reduced(c) => (all, *c, 0, None),
            Pick::NoOffload => (all, prefs.min_ctx, 0, None),
            Pick::Offload(c, k) => (all, *c, *k, Some(ffn_override_regex(self.facts.n_layer, *k))),
            Pick::Fewer(n) => (*n, prefs.min_ctx, 0, None),
            Pick::Cpu => (0, prefs.min_ctx, 0, None),
        }
    }

    /// The plan for a model on the free memory.
    pub fn plan(&self, prefs: &PlanPrefs, o: &PlanOpts) -> (r: VramPlan)
        requires
            self.facts.n_layer < u32::MAX,
        ensures
            r@ == self.setup(prefs, o).plan(),
    {
        let pick = self.pick(prefs, o);
        let (ngl, ctx, k, ot) = self.chosen_parts(prefs, o, &pick);
        let est = self.estimate(ngl, ctx, k, o);
        let line = self.verdict_text(prefs, o, &pick, est);
        let head = self.opening_line(prefs, o).concat("\n");
        let head = match pick {
            Pick::Fixed(_) | Pick::All => head,
            _ => head.concat(self.too_big_text(prefs, o).as_str()).concat("\n"),
        };
        self.assemble(ngl, ctx, k, ot, est, head.concat(line.as_str()), o)
    }
}

} // verus!
