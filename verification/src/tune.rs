//! Plans that worked, kept for each model and profile.

use crate::digest::{blake3_digest, blake3_hash, hex, to_hex};
use crate::gpu::{mib_bytes, shift_mib};
use crate::message::{at_most, copy_opt, opt_string, push_bytes};
use crate::pathname::{join_path, under};
use crate::paths::Paths;
use crate::stamp::{END_OF_TIME, format_seconds, rfc3339_seconds};
use crate::text::{first_chars, take_chars};
use crate::vram::{MIB, PlanV, VramPlan};
use vstd::prelude::*;
use vstd::string::*;

verus! {

/// A plan that was tried. The measured rates are kept as decimal text.
#[derive(Debug)]
pub struct TunedProfile {
    pub model_file: String,
    pub model_hash: String,
    pub profile: String,
    pub ngl: u32,
    pub n_ctx: u32,
    pub override_tensor: Option<String>,
    pub ffn_cpu_blocks: u32,
    pub threads: Option<u32>,
    pub spec: Option<String>,
    pub measured_decode_tps: Option<String>,
    pub measured_prompt_tps: Option<String>,
    pub measured_vram_mib: Option<u64>,
    pub free_vram_mib_at_tune: u64,
    pub tuned_at: String,
    /// The starts in a row that went well with this plan.
    pub successes: u32,
}

#[verifier::ext_equal]
pub struct TunedV {
    pub model_file: Seq<char>,
    pub model_hash: Seq<char>,
    pub profile: Seq<char>,
    pub ngl: u32,
    pub n_ctx: u32,
    pub override_tensor: Option<Seq<char>>,
    pub ffn_cpu_blocks: u32,
    pub threads: Option<u32>,
    pub spec: Option<Seq<char>>,
    pub measured_decode_tps: Option<Seq<char>>,
    pub measured_prompt_tps: Option<Seq<char>>,
    pub measured_vram_mib: Option<u64>,
    pub free_vram_mib_at_tune: u64,
    pub tuned_at: Seq<char>,
    pub successes: u32,
}

impl View for TunedProfile {
    type V = TunedV;

    open spec fn view(&self) -> TunedV {
        TunedV {
            model_file: self.model_file@,
            model_hash: self.model_hash@,
            profile: self.profile@,
            ngl: self.ngl,
            n_ctx: self.n_ctx,
            override_tensor: opt_string(self.override_tensor),
            ffn_cpu_blocks: self.ffn_cpu_blocks,
            threads: self.threads,
            spec: opt_string(self.spec),
            measured_decode_tps: opt_string(self.measured_decode_tps),
            measured_prompt_tps: opt_string(self.measured_prompt_tps),
            measured_vram_mib: self.measured_vram_mib,
            free_vram_mib_at_tune: self.free_vram_mib_at_tune,
            tuned_at: self.tuned_at@,
            successes: self.successes,
        }
    }
}

impl TunedV {
    /// What is kept of a plan that was not tried yet.
    pub open spec fn of_plan(
        model: Seq<char>,
        hash: Seq<char>,
        profile: Seq<char>,
        plan: PlanV,
        now: Seq<char>,
    ) -> TunedV {
        TunedV {
            model_file: model,
            model_hash: hash,
            profile,
            ngl: plan.ngl,
            n_ctx: plan.n_ctx,
            override_tensor: plan.override_tensor,
            ffn_cpu_blocks: plan.ffn_cpu_blocks,
            threads: None,
            spec: None,
            measured_decode_tps: None,
            measured_prompt_tps: None,
            measured_vram_mib: None,
            free_vram_mib_at_tune: plan.free_vram_bytes / MIB,
            tuned_at: now,
            successes: 0,
        }
    }

    /// The plan that was kept.
    pub open spec fn plan(self) -> PlanV {
        PlanV {
            ngl: self.ngl,
            n_ctx: self.n_ctx,
            override_tensor: self.override_tensor,
            ffn_cpu_blocks: self.ffn_cpu_blocks,
            ctx_checkpoints: 8,
            est_vram_bytes: match self.measured_vram_mib {
                Some(m) => mib_bytes(m) as u64,
                None => 0,
            },
            est_cpu_weight_bytes: 0,
            free_vram_bytes: mib_bytes(self.free_vram_mib_at_tune) as u64,
            rationale: "restored tuned profile from "@ + self.tuned_at,
        }
    }

    /// Whether the free memory has not dropped by more than 256 MiB since.
    pub open spec fn valid(self, free_mib: u64) -> bool {
        free_mib + 256 >= self.free_vram_mib_at_tune
    }
}

/// The low `k` bytes of a number, the least first.
pub open spec fn low_bytes(n: nat, k: nat) -> Seq<u8>
    decreases k,
{
    if k == 0 {
        Seq::empty()
    } else {
        seq![(n % 256) as u8] + low_bytes(n / 256, (k - 1) as nat)
    }
}

/// How much of each end of a model file is looked at.
pub const PART: u64 = 0x10_0000;

/// What identifies a model file: its size, when it was written, its first mebibyte and its
/// last. Of a shorter file both are the whole.
pub open spec fn model_bytes(len: u64, mtime_ns: u64, head: Seq<u8>, tail: Seq<u8>) -> Seq<u8> {
    low_bytes(len as nat, 8) + low_bytes(mtime_ns as nat, 8) + head + tail
}

/// Whether two parts are as long as those of a file of a size.
pub open spec fn are_parts(len: u64, head: Seq<u8>, tail: Seq<u8>) -> bool {
    &&& head.len() == at_most(len as nat, PART as nat)
    &&& tail.len() == at_most(len as nat, PART as nat)
}

/// The numbers below this have `k` bytes.
pub open spec fn beyond_bytes(k: nat) -> nat
    decreases k,
{
    if k == 0 {
        1
    } else {
        256 * beyond_bytes((k - 1) as nat)
    }
}

proof fn lemma_low_bytes(a: nat, b: nat, k: nat)
    requires
        a < beyond_bytes(k),
        b < beyond_bytes(k),
    ensures
        low_bytes(a, k).len() == k,
        low_bytes(b, k).len() == k,
        low_bytes(a, k) == low_bytes(b, k) ==> a == b,
    decreases k,
{
    if k > 0 {
        let x = low_bytes(a, k);
        let y = low_bytes(b, k);
        let j = (k - 1) as nat;
        lemma_low_bytes(a / 256, b / 256, j);
        if x == y {
            assert(x[0] == (a % 256) as u8);
            assert(y[0] == (b % 256) as u8);
            assert(x.skip(1) =~= low_bytes(a / 256, j));
            assert(y.skip(1) =~= low_bytes(b / 256, j));
        }
    }
}

/// Model files that differ in their size, in the time at which they were written, in their
/// first mebibyte or in their last are told apart by what is hashed of them.
pub proof fn law_models_are_told_apart(
    len1: u64,
    mtime1: u64,
    head1: Seq<u8>,
    tail1: Seq<u8>,
    len2: u64,
    mtime2: u64,
    head2: Seq<u8>,
    tail2: Seq<u8>,
)
    requires
        are_parts(len1, head1, tail1),
        are_parts(len2, head2, tail2),
    ensures
        model_bytes(len1, mtime1, head1, tail1) == model_bytes(len2, mtime2, head2, tail2) <==> (len1 == len2 && mtime1
            == mtime2 && head1 == head2 && tail1 == tail2),
{
    let a = model_bytes(len1, mtime1, head1, tail1);
    let b = model_bytes(len2, mtime2, head2, tail2);
    reveal_with_fuel(beyond_bytes, 9);
    assert(beyond_bytes(8) == 0x1_0000_0000_0000_0000);
    lemma_low_bytes(len1 as nat, len2 as nat, 8);
    lemma_low_bytes(mtime1 as nat, mtime2 as nat, 8);
    if a == b {
        assert(a.subrange(0, 8) =~= low_bytes(len1 as nat, 8));
        assert(b.subrange(0, 8) =~= low_bytes(len2 as nat, 8));
        assert(a.subrange(8, 16) =~= low_bytes(mtime1 as nat, 8));
        assert(b.subrange(8, 16) =~= low_bytes(mtime2 as nat, 8));
        let n = head1.len() as int;
        assert(a.subrange(16, 16 + n) =~= head1);
        assert(b.subrange(16, 16 + n) =~= head2);
        assert(a.skip(16 + n) =~= tail1);
        assert(b.skip(16 + n) =~= tail2);
    }
}

fn push_low_bytes(b: &mut Vec<u8>, number: u64)
    ensures
        final(b)@ == old(b)@ + low_bytes(number as nat, 8),
{
    let ghost want = b@ + low_bytes(number as nat, 8);
    let mut n: u64 = number;
    let mut k: usize = 8;
    while k > 0
        invariant
            k <= 8,
            b@ + low_bytes(n as nat, k as nat) == want,
        decreases k,
    {
        let ghost before = b@;
        b.push((n % 256) as u8);
        assert(b@ + low_bytes((n / 256) as nat, (k - 1) as nat) =~= before + low_bytes(n as nat, k as nat));
        n = n / 256;
        k -= 1;
    }
    assert(b@ =~= want);
}

/// The identity of a model file: sixteen digits.
pub fn model_hash(len: u64, mtime_ns: u64, head: &[u8], tail: &[u8]) -> (r: String)
    ensures
        r@ == first_chars(hex(blake3_digest(model_bytes(len, mtime_ns, head@, tail@))), 16),
        r@.len() == 16,
{
    let mut b: Vec<u8> = Vec::new();
    push_low_bytes(&mut b, len);
    push_low_bytes(&mut b, mtime_ns);
    assert(b@ =~= low_bytes(len as nat, 8) + low_bytes(mtime_ns as nat, 8));
    push_bytes(&mut b, head);
    push_bytes(&mut b, tail);
    assert(b@ =~= model_bytes(len, mtime_ns, head@, tail@));
    take_chars(to_hex(&blake3_hash(b.as_slice())).as_str(), 16)
}

/// The file of a tuned plan.
pub open spec fn tuned_file(dir: Seq<char>, hash: Seq<char>, profile: Seq<char>, win: bool) -> Seq<char> {
    under(under(dir, "tune"@, win), hash + "-"@ + profile + ".toml"@, win)
}

pub fn tune_path(paths: &Paths, hash: &str, profile: &str) -> (r: String)
    ensures
        r@ == tuned_file(paths.user_dir@, hash@, profile@, paths.windows),
{
    let name = hash.to_owned().concat("-").concat(profile).concat(".toml");
    join_path(paths.tune_dir().as_str(), name.as_str(), paths.windows)
}

impl TunedProfile {
    pub fn from_plan(model: &str, hash: &str, profile: &str, plan: &VramPlan, now: u64) -> (r: TunedProfile)
        requires
            now < END_OF_TIME,
        ensures
            r@ == TunedV::of_plan(model@, hash@, profile@, plan@, rfc3339_seconds(now)),
    {
        TunedProfile {
            model_file: model.to_owned(),
            model_hash: hash.to_owned(),
            profile: profile.to_owned(),
            ngl: plan.ngl,
            n_ctx: plan.n_ctx,
            override_tensor: copy_opt(&plan.override_tensor),
            ffn_cpu_blocks: plan.ffn_cpu_blocks,
            threads: None,
            spec: None,
            measured_decode_tps: None,
            measured_prompt_tps: None,
            measured_vram_mib: None,
            free_vram_mib_at_tune: plan.free_vram_bytes / MIB,
            tuned_at: format_seconds(now),
            successes: 0,
        }
    }

    /// Whether the plan can be used again.
    pub fn still_valid(&self, free_vram_mib_now: u64) -> (r: bool)
        ensures
            r == self@.valid(free_vram_mib_now),
    {
        free_vram_mib_now as u128 + 256 >= self.free_vram_mib_at_tune as u128
    }

    pub fn to_plan(&self) -> (r: VramPlan)
        ensures
            r@ == self@.plan(),
    {
        let est: u64 = match self.measured_vram_mib {
            Some(m) => shift_mib(m),
            None => 0,
        };
        VramPlan {
            ngl: self.ngl,
            n_ctx: self.n_ctx,
            override_tensor: copy_opt(&self.override_tensor),
            ffn_cpu_blocks: self.ffn_cpu_blocks,
            ctx_checkpoints: 8,
            est_vram_bytes: est,
            est_cpu_weight_bytes: 0,
            free_vram_bytes: shift_mib(self.free_vram_mib_at_tune),
            rationale: "restored tuned profile from ".to_owned().concat(self.tuned_at.as_str()),
        }
    }
}

/// A plan that is kept and restored has the layers, the context and the offloading that
/// it had.
pub proof fn law_kept_plan_is_restored(
    model: Seq<char>,
    hash: Seq<char>,
    profile: Seq<char>,
    plan: PlanV,
    now: Seq<char>,
)
    ensures
        ({
            let p = TunedV::of_plan(model, hash, profile, plan, now).plan();
            &&& p.ngl == plan.ngl
            &&& p.n_ctx == plan.n_ctx
            &&& p.override_tensor == plan.override_tensor
            &&& p.ffn_cpu_blocks == plan.ffn_cpu_blocks
        }),
{
}

} // verus!
