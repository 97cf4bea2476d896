//! The models that there are, what is said of each, and how one is chosen by a word.

use crate::config::{Config, ConfigV, Profile, ProfileV, profile_views};
use crate::discover::{alike, eq_ignore_case};
use crate::facts::{FactsV, ModelFacts};
use crate::gpu::GpuInfo;
use crate::message::{at_most, byte_len, byte_prefix, bytes_at, bytes_in, opt_string};
use crate::pathname::{is_same_path, same_path};
use crate::text::{
    char_from, chars_of, contains, dec, dec_u64, ends, ends_with, find_char, holds, lowered, number,
    parse_number, replace_chars, str_eq, string_of, string_of_range, strip_suffix, to_lowered,
    trim_str, trimmed, with_char, without_suffix,
};
use crate::vram::{PlanV, VramPlan, minus};
use vstd::prelude::*;
use vstd::string::*;

verus! {

/// Where a model is.
#[derive(Debug, PartialEq, Eq)]
pub enum Source {
    Local(String),
    Download { repo: String, file: String },
}

pub enum SourceV {
    Local(Seq<char>),
    Download(Seq<char>, Seq<char>),
}

impl View for Source {
    type V = SourceV;

    open spec fn view(&self) -> SourceV {
        match self {
            Source::Local(p) => SourceV::Local(p@),
            Source::Download { repo, file } => SourceV::Download(repo@, file@),
        }
    }
}

/// A file that is known to be there to download, and its size in gibibytes as a decimal number.
pub const KNOWN_DOWNLOADS: [(&'static str, &'static str, &'static str); 12] = [
    ("unsloth/Qwen3.8-27B-GGUF", "Qwen3.8-27B-UD-IQ2_XXS.gguf", "6.77"),
    ("unsloth/Qwen3.8-27B-GGUF", "Qwen3.8-27B-UD-IQ2_S.gguf", "7.80"),
    ("unsloth/Qwen3.8-27B-GGUF", "Qwen3.8-27B-UD-Q2_K_XL.gguf", "9.15"),
    ("unsloth/Qwen3.8-27B-GGUF", "Qwen3.8-27B-UD-IQ3_XXS.gguf", "10.18"),
    ("unsloth/Qwen3.8-27B-GGUF", "Qwen3.8-27B-UD-IQ3_S.gguf", "11.21"),
    ("unsloth/Qwen3.8-27B-GGUF", "Qwen3.8-27B-UD-Q3_K_XL.gguf", "12.24"),
    ("unsloth/Qwen3.8-27B-GGUF", "Qwen3.8-27B-UD-IQ4_XS.gguf", "13.27"),
    ("unsloth/Qwen3.8-27B-GGUF", "Qwen3.8-27B-UD-Q4_K_S.gguf", "14.30"),
    ("unsloth/Qwen3.8-27B-GGUF", "Qwen3.8-27B-UD-Q4_K_M.gguf", "15.33"),
    ("unsloth/Qwen3.8-27B-GGUF", "Qwen3.8-27B-UD-Q4_K_XL.gguf", "16.35"),
    ("lmstudio-community/gemma-4-12B-it-GGUF", "gemma-4-12B-it-Q4_K_M.gguf", "6.87"),
    ("unsloth/Qwen3.8-Flash-Next-GGUF", "Qwen3.8-Flash-Next-Q4_K_M.gguf", "68.0"),
];

/// A model that can be run. What is measured in fractions is kept beside it.
#[derive(Debug)]
pub struct Candidate {
    pub name: String,
    pub source: Source,
    pub size_bytes: u64,
    pub arch: String,
    pub quant: String,
    pub has_mtp: bool,
    pub plan: Option<VramPlan>,
    pub fits_gpu: bool,
    pub note: String,
    /// The profile that is set up for this file.
    pub profile: Option<String>,
}

pub struct CandidateV {
    pub name: Seq<char>,
    pub source: SourceV,
    pub has_mtp: bool,
    pub plan_ctx: Option<u32>,
    pub profile: Option<Seq<char>>,
}

impl View for Candidate {
    type V = CandidateV;

    open spec fn view(&self) -> CandidateV {
        CandidateV {
            name: self.name@,
            source: self.source@,
            has_mtp: self.has_mtp,
            plan_ctx: match self.plan {
                Some(p) => Some(p.n_ctx),
                None => None,
            },
            profile: opt_string(self.profile),
        }
    }
}

pub open spec fn candidates(v: Seq<Candidate>) -> Seq<CandidateV> {
    Seq::new(v.len(), |i: int| v[i]@)
}

impl SourceV {
    /// How a profile names the model.
    pub open spec fn spec_text(self) -> Seq<char> {
        match self {
            SourceV::Local(p) => p,
            SourceV::Download(repo, file) => repo + ":"@ + file,
        }
    }
}

impl Candidate {
    pub fn is_local(&self) -> (r: bool)
        ensures
            r == self@.source is Local,
    {
        match self.source {
            Source::Local(_) => true,
            _ => false,
        }
    }

    pub fn model_spec(&self) -> (r: String)
        ensures
            r@ == self@.source.spec_text(),
    {
        self.source.spec_text()
    }
}

impl Source {
    fn spec_text(&self) -> (r: String)
        ensures
            r@ == self@.spec_text(),
    {
        match self {
            Source::Local(p) => p.clone(),
            Source::Download { repo, file } => repo.clone().concat(":").concat(file.as_str()),
        }
    }
}

// ---------------------------------------------------------------- a profile for a model

/// The profile for a model that none is set up for: its name and its context follow from
/// the name of the file.
pub open spec fn profile_of(name: Seq<char>, model: Seq<char>, has_mtp: bool) -> ProfileV {
    let stem = without_suffix(name, ".gguf"@);
    let low = lowered(stem);
    let gemma = holds(low, "gemma"@);
    let flash = holds(low, "flash"@) || holds(low, "qwen4"@);
    ProfileV {
        name: with_char(low, seq!['.', ' ', ':'], '-'),
        model,
        alias: stem,
        spec: if has_mtp {
            "draft-mtp"@
        } else {
            "none"@
        },
        reasoning_format: if gemma {
            "none"@
        } else {
            "deepseek"@
        },
        ctx: if !flash && gemma {
            32768
        } else {
            65536
        },
        ctx_min: if !flash && gemma {
            16384
        } else {
            32768
        },
        ..ProfileV::standard()
    }
}

pub fn base_profile(name: &str, model: &str, has_mtp: bool) -> (r: Profile)
    ensures
        r@ == profile_of(name@, model@, has_mtp),
{
    let stem = string_of(&strip_suffix(&chars_of(name), ".gguf"));
    let low = to_lowered(stem.as_str());
    let low_text = string_of(&low);
    let gemma = contains(low_text.as_str(), "gemma");
    let flash = contains(low_text.as_str(), "flash") || contains(low_text.as_str(), "qwen4");
    let marks = vec!['.', ' ', ':'];
    assert(marks@ =~= seq!['.', ' ', ':']);
    let mut p = Profile::default();
    p.name = string_of(&replace_chars(&low, &marks, '-'));
    p.model = model.to_owned();
    p.alias = stem;
    p.spec = if has_mtp {
        "draft-mtp".to_owned()
    } else {
        "none".to_owned()
    };
    p.reasoning_format = if gemma {
        "none".to_owned()
    } else {
        "deepseek".to_owned()
    };
    if !flash && gemma {
        p.ctx = 32768;
        p.ctx_min = 16384;
    } else {
        p.ctx = 65536;
        p.ctx_min = 32768;
    }
    p
}

/// The profile of a candidate: the one that is set up, else one made for it.
pub open spec fn profile_for_candidate(cfg: ConfigV, c: CandidateV) -> ProfileV {
    let own = match c.profile {
        Some(n) => cfg.profile(n),
        None => None,
    };
    match own {
        Some(p) => p,
        None => {
            let p = ProfileV { alias: c.name, ..profile_of(c.name, c.source.spec_text(), c.has_mtp) };
            match c.plan_ctx {
                Some(n) => ProfileV {
                    ctx: if n >= p.ctx_min {
                        n
                    } else {
                        p.ctx_min
                    },
                    ..p
                },
                None => p,
            }
        },
    }
}

pub fn profile_for(cfg: &Config, c: &Candidate) -> (r: Profile)
    ensures
        r@ == profile_for_candidate(cfg@, c@),
{
    if let Some(name) = &c.profile {
        if let Some(p) = cfg.profile(name.as_str()) {
            return p.copy();
        }
    }
    let mut p = base_profile(c.name.as_str(), c.model_spec().as_str(), c.has_mtp);
    p.alias = c.name.clone();
    if let Some(plan) = &c.plan {
        p.ctx = if plan.n_ctx >= p.ctx_min {
            plan.n_ctx
        } else {
            p.ctx_min
        };
    }
    p
}

/// A profile made for a model asks for no less than its least context.
pub proof fn law_made_profile_keeps_least_context(cfg: ConfigV, c: CandidateV)
    requires
        c.profile is None,
    ensures
        profile_for_candidate(cfg, c).ctx_min <= profile_for_candidate(cfg, c).ctx,
{
}

// ---------------------------------------------------------------- what is said of a model

/// Whether a file has weights in its layers.
pub fn has_layer_weights(facts: &ModelFacts) -> (r: bool)
    ensures
        r == exists|i: int| 0 <= i < facts.layer_bytes@.len() && #[trigger] facts.layer_bytes@[i] != 0,
{
    let mut i: usize = 0;
    while i < facts.layer_bytes.len()
        invariant
            i <= facts.layer_bytes.len(),
            forall|k: int| 0 <= k < i ==> #[trigger] facts.layer_bytes@[k] == 0,
        decreases facts.layer_bytes.len() - i,
    {
        if facts.layer_bytes[i] != 0 {
            return true;
        }
        i += 1;
    }
    false
}

/// Whether a plan keeps the whole model on the GPU.
pub open spec fn all_on_gpu(f: FactsV, p: PlanV) -> bool {
    p.ffn_cpu_blocks == 0 && p.ngl > f.layer_bytes.len()
}

/// What is said of a plan.
pub open spec fn plan_note(f: FactsV, p: PlanV) -> Seq<char> {
    let ctx = dec((p.n_ctx / 1024) as nat);
    if all_on_gpu(f, p) {
        "all on GPU @ "@ + ctx + "K ctx"@
    } else if p.ffn_cpu_blocks > 0 {
        "FFN of "@ + dec(p.ffn_cpu_blocks as nat) + " blocks on CPU @ "@ + ctx + "K ctx"@
    } else {
        "ngl "@ + dec(
            if p.ngl <= f.n_layer {
                p.ngl as nat
            } else {
                f.n_layer as nat
            },
        ) + "/"@ + dec(f.n_layer as nat) + " (CPU offload) @ "@ + ctx + "K ctx"@
    }
}

/// What a plan means for a model: whether all of it is on the GPU, the bytes of weights
/// that are, and what is said of it.
pub fn assess(facts: &ModelFacts, plan: &VramPlan) -> (r: (bool, u64, String))
    ensures
        r.0 == all_on_gpu(facts@, plan@),
        r.1 == minus(
            at_most(facts@.gpu_weights(plan.ngl as nat), u64::MAX as nat),
            at_most(facts@.ffn_tail(plan.ffn_cpu_blocks as nat), u64::MAX as nat),
        ),
        r.2@ == plan_note(facts@, plan@),
{
    let fits = plan.ffn_cpu_blocks == 0 && plan.ngl as usize > facts.layer_bytes.len();
    let bytes: u64 = facts.weights_bytes_on_gpu(plan.ngl).saturating_sub(
        facts.ffn_tail_bytes(plan.ffn_cpu_blocks as usize),
    );
    let ctx = dec_u64((plan.n_ctx / 1024) as u64);
    let note = if fits {
        "all on GPU @ ".to_owned().concat(ctx.as_str()).concat("K ctx")
    } else if plan.ffn_cpu_blocks > 0 {
        "FFN of ".to_owned().concat(dec_u64(plan.ffn_cpu_blocks as u64).as_str()).concat(" blocks on CPU @ ").concat(
            ctx.as_str(),
        ).concat("K ctx")
    } else {
        let n: u32 = if plan.ngl <= facts.n_layer {
            plan.ngl
        } else {
            facts.n_layer
        };
        "ngl ".to_owned().concat(dec_u64(n as u64).as_str()).concat("/").concat(
            dec_u64(facts.n_layer as u64).as_str(),
        ).concat(" (CPU offload) @ ").concat(ctx.as_str()).concat("K ctx")
    };
    (fits, bytes, note)
}

/// Files by their paths, where they were found.
pub open spec fn opt_strings_of(v: Seq<Option<String>>) -> Seq<Option<Seq<char>>> {
    Seq::new(v.len(), |i: int| opt_string(v[i]))
}

/// A file was found, and it is the one of a path.
pub open spec fn is_at_path(found: Option<Seq<char>>, path: Seq<char>, windows: bool) -> bool {
    match found {
        Some(f) => same_path(f, path, windows),
        None => false,
    }
}

/// The first profile from `i` on that is set up for a source. `found` holds the file that
/// each profile's model was found at.
pub open spec fn configured_from(
    ps: Seq<ProfileV>,
    found: Seq<Option<Seq<char>>>,
    source: SourceV,
    i: int,
    windows: bool,
) -> Option<Seq<char>>
    decreases ps.len() - i,
{
    if i < 0 || i >= ps.len() {
        None
    } else if match source {
        SourceV::Local(path) => i < found.len() && is_at_path(found[i], path, windows),
        SourceV::Download(_, _) => ps[i].model == source.spec_text(),
    } {
        Some(ps[i].name)
    } else {
        configured_from(ps, found, source, i + 1, windows)
    }
}

fn found_at(found: &Vec<Option<String>>, i: usize, path: &str, windows: bool) -> (r: bool)
    ensures
        r == (i < found@.len() && is_at_path(opt_strings_of(found@)[i as int], path@, windows)),
{
    if i >= found.len() {
        return false;
    }
    match &found[i] {
        Some(f) => is_same_path(f.as_str(), path, windows),
        None => false,
    }
}

/// The name of the profile that is set up for a source.
pub fn configured_profile(
    cfg: &Config,
    found: &Vec<Option<String>>,
    source: &Source,
    windows: bool,
) -> (r: Option<String>)
    ensures
        opt_string(r) == configured_from(cfg@.profiles, opt_strings_of(found@), source@, 0, windows),
{
    let ghost ps = profile_views(cfg.profiles@);
    let ghost fv = opt_strings_of(found@);
    let mut i: usize = 0;
    while i < cfg.profiles.len()
        invariant
            i <= cfg.profiles.len(),
            ps == profile_views(cfg.profiles@),
            fv == opt_strings_of(found@),
            configured_from(ps, fv, source@, 0, windows) == configured_from(ps, fv, source@, i as int, windows),
        decreases cfg.profiles.len() - i,
    {
        assert(ps[i as int] == cfg.profiles@[i as int]@);
        let hit = match source {
            Source::Local(path) => found_at(found, i, path.as_str(), windows),
            Source::Download { .. } => str_eq(cfg.profiles[i].model.as_str(), source.spec_text().as_str()),
        };
        if hit {
            return Some(cfg.profiles[i].name.clone());
        }
        i += 1;
    }
    None
}

/// Whether a profile is for a model that was discovered: by its file, by its alias, or
/// by the name of the model.
pub open spec fn serves(
    p: ProfileV,
    found: Option<Seq<char>>,
    path: Seq<char>,
    alias: Seq<char>,
    shown: Seq<char>,
    windows: bool,
) -> bool {
    is_at_path(found, path, windows) || alike(p.alias, alias) || alike(p.model, shown)
}

pub open spec fn serving_from(
    ps: Seq<ProfileV>,
    found: Seq<Option<Seq<char>>>,
    path: Seq<char>,
    alias: Seq<char>,
    shown: Seq<char>,
    i: int,
    windows: bool,
) -> Option<int>
    decreases ps.len() - i,
{
    if i < 0 || i >= ps.len() {
        None
    } else if serves(
        ps[i],
        if i < found.len() {
            found[i]
        } else {
            None
        },
        path,
        alias,
        shown,
        windows,
    ) {
        Some(i)
    } else {
        serving_from(ps, found, path, alias, shown, i + 1, windows)
    }
}

/// The profile for a discovered model: the first that is for it, else one made for it.
pub fn discovered_profile(
    cfg: &Config,
    found: &Vec<Option<String>>,
    path: &str,
    alias: &str,
    shown: &str,
    has_mtp: bool,
    windows: bool,
) -> (r: Profile)
    ensures
        r@ == (match serving_from(cfg@.profiles, opt_strings_of(found@), path@, alias@, shown@, 0, windows) {
            Some(i) => cfg@.profiles[i],
            None => ProfileV { alias: alias@, ..profile_of(shown@, path@, has_mtp) },
        }),
{
    let ghost ps = profile_views(cfg.profiles@);
    let ghost fv = opt_strings_of(found@);
    let mut i: usize = 0;
    while i < cfg.profiles.len()
        invariant
            i <= cfg.profiles.len(),
            ps == profile_views(cfg.profiles@),
            fv == opt_strings_of(found@),
            serving_from(ps, fv, path@, alias@, shown@, 0, windows) == serving_from(
                ps,
                fv,
                path@,
                alias@,
                shown@,
                i as int,
                windows,
            ),
        decreases cfg.profiles.len() - i,
    {
        assert(ps[i as int] == cfg.profiles@[i as int]@);
        let p = &cfg.profiles[i];
        if found_at(found, i, path, windows) || eq_ignore_case(p.alias.as_str(), alias) || eq_ignore_case(
            p.model.as_str(),
            shown,
        ) {
            return p.copy();
        }
        i += 1;
    }
    let mut p = base_profile(shown, path, has_mtp);
    p.alias = alias.to_owned();
    p
}

// ---------------------------------------------------------------- choosing

/// The first candidate from `i` on that is as asked.
pub open spec fn first_where(cs: Seq<CandidateV>, p: spec_fn(CandidateV) -> bool, i: int) -> Option<int>
    decreases cs.len() - i,
{
    if i < 0 || i >= cs.len() {
        None
    } else if p(cs[i]) {
        Some(i)
    } else {
        first_where(cs, p, i + 1)
    }
}

/// It is the model of a profile.
pub open spec fn of_profile(p: ProfileV) -> spec_fn(CandidateV) -> bool {
    |c: CandidateV| c.profile == Some(p.name) || alike(c.name, p.alias) || alike(c.name, p.model)
}

/// Its name, or what a profile calls it, is the word.
pub open spec fn called(word: Seq<char>) -> spec_fn(CandidateV) -> bool {
    |c: CandidateV| alike(c.name, word) || alike(c.source.spec_text(), word)
}

/// Its name without a tag or without the suffix is the word.
pub open spec fn stemmed(word: Seq<char>) -> spec_fn(CandidateV) -> bool {
    |c: CandidateV|
        alike(before_colon(c.name), word) || (ends(c.name, ".gguf"@) && alike(without_suffix(c.name, ".gguf"@), word))
}

/// Its name, its profile or what a profile calls it holds the word.
pub open spec fn holding(word: Seq<char>) -> spec_fn(CandidateV) -> bool {
    |c: CandidateV|
        holds(lowered(c.name), lowered(word)) || (c.profile matches Some(p) && holds(lowered(p), lowered(word)))
            || holds(lowered(c.source.spec_text()), lowered(word))
}

pub open spec fn before_colon(s: Seq<char>) -> Seq<char> {
    match char_from(s, ':', 0) {
        Some(k) => s.take(k),
        None => s,
    }
}

/// The candidate that a word means: a number counts from one; else the model of a
/// profile of that name; else the name; else the name without tag or suffix; else a part
/// of the name.
pub open spec fn meant(cs: Seq<CandidateV>, cfg: ConfigV, word: Seq<char>) -> Option<int> {
    let w = trimmed(word);
    match number(w, usize::MAX as nat) {
        Some(n) => if 1 <= n <= cs.len() {
            Some(n - 1)
        } else {
            None
        },
        None => {
            let by_profile = match cfg.profile(w) {
                Some(p) => first_where(cs, of_profile(p), 0),
                None => None,
            };
            if by_profile is Some {
                by_profile
            } else if first_where(cs, called(w), 0) is Some {
                first_where(cs, called(w), 0)
            } else if first_where(cs, stemmed(w), 0) is Some {
                first_where(cs, stemmed(w), 0)
            } else {
                first_where(cs, holding(w), 0)
            }
        },
    }
}

fn is_of_profile(c: &Candidate, p: &Profile) -> (r: bool)
    ensures
        r == of_profile(p@)(c@),
{
    let own = match &c.profile {
        Some(n) => str_eq(n.as_str(), p.name.as_str()),
        None => false,
    };
    own || eq_ignore_case(c.name.as_str(), p.alias.as_str()) || eq_ignore_case(c.name.as_str(), p.model.as_str())
}

fn is_called(c: &Candidate, word: &str) -> (r: bool)
    ensures
        r == called(word@)(c@),
{
    eq_ignore_case(c.name.as_str(), word) || eq_ignore_case(c.model_spec().as_str(), word)
}

fn is_stemmed(c: &Candidate, word: &str) -> (r: bool)
    ensures
        r == stemmed(word@)(c@),
{
    let cs = chars_of(c.name.as_str());
    let prefix = match find_char(&cs, ':', 0) {
        Some(k) => {
            let s = string_of_range(&cs, 0, k);
            assert(s@ =~= cs@.take(k as int));
            s
        },
        None => c.name.clone(),
    };
    if eq_ignore_case(prefix.as_str(), word) {
        return true;
    }
    ends_with(c.name.as_str(), ".gguf") && eq_ignore_case(string_of(&strip_suffix(&cs, ".gguf")).as_str(), word)
}

fn holds_lowered(s: &str, word: &str) -> (r: bool)
    ensures
        r == holds(lowered(s@), lowered(word@)),
{
    contains(string_of(&to_lowered(s)).as_str(), string_of(&to_lowered(word)).as_str())
}

fn is_holding(c: &Candidate, word: &str) -> (r: bool)
    ensures
        r == holding(word@)(c@),
{
    let own = match &c.profile {
        Some(p) => holds_lowered(p.as_str(), word),
        None => false,
    };
    holds_lowered(c.name.as_str(), word) || own || holds_lowered(c.model_spec().as_str(), word)
}

fn find_of_profile(cs: &Vec<Candidate>, p: &Profile) -> (r: Option<usize>)
    ensures
        match r {
            Some(i) => i < cs.len() && first_where(candidates(cs@), of_profile(p@), 0) == Some(i as int),
            None => first_where(candidates(cs@), of_profile(p@), 0) is None,
        },
{
    let ghost v = candidates(cs@);
    let mut i: usize = 0;
    while i < cs.len()
        invariant
            i <= cs.len(),
            v == candidates(cs@),
            first_where(v, of_profile(p@), 0) == first_where(v, of_profile(p@), i as int),
        decreases cs.len() - i,
    {
        assert(v[i as int] == cs@[i as int]@);
        if is_of_profile(&cs[i], p) {
            return Some(i);
        }
        i += 1;
    }
    None
}

fn find_called(cs: &Vec<Candidate>, word: &str) -> (r: Option<usize>)
    ensures
        match r {
            Some(i) => i < cs.len() && first_where(candidates(cs@), called(word@), 0) == Some(i as int),
            None => first_where(candidates(cs@), called(word@), 0) is None,
        },
{
    let ghost v = candidates(cs@);
    let mut i: usize = 0;
    while i < cs.len()
        invariant
            i <= cs.len(),
            v == candidates(cs@),
            first_where(v, called(word@), 0) == first_where(v, called(word@), i as int),
        decreases cs.len() - i,
    {
        assert(v[i as int] == cs@[i as int]@);
        if is_called(&cs[i], word) {
            return Some(i);
        }
        i += 1;
    }
    None
}

fn find_stemmed(cs: &Vec<Candidate>, word: &str) -> (r: Option<usize>)
    ensures
        match r {
            Some(i) => i < cs.len() && first_where(candidates(cs@), stemmed(word@), 0) == Some(i as int),
            None => first_where(candidates(cs@), stemmed(word@), 0) is None,
        },
{
    let ghost v = candidates(cs@);
    let mut i: usize = 0;
    while i < cs.len()
        invariant
            i <= cs.len(),
            v == candidates(cs@),
            first_where(v, stemmed(word@), 0) == first_where(v, stemmed(word@), i as int),
        decreases cs.len() - i,
    {
        assert(v[i as int] == cs@[i as int]@);
        if is_stemmed(&cs[i], word) {
            return Some(i);
        }
        i += 1;
    }
    None
}

fn find_holding(cs: &Vec<Candidate>, word: &str) -> (r: Option<usize>)
    ensures
        match r {
            Some(i) => i < cs.len() && first_where(candidates(cs@), holding(word@), 0) == Some(i as int),
            None => first_where(candidates(cs@), holding(word@), 0) is None,
        },
{
    let ghost v = candidates(cs@);
    let mut i: usize = 0;
    while i < cs.len()
        invariant
            i <= cs.len(),
            v == candidates(cs@),
            first_where(v, holding(word@), 0) == first_where(v, holding(word@), i as int),
        decreases cs.len() - i,
    {
        assert(v[i as int] == cs@[i as int]@);
        if is_holding(&cs[i], word) {
            return Some(i);
        }
        i += 1;
    }
    None
}

/// The place of the candidate that a word means.
pub fn select(cands: &Vec<Candidate>, cfg: &Config, sel: &str) -> (r: Option<usize>)
    ensures
        match r {
            Some(i) => i < cands.len() && meant(candidates(cands@), cfg@, sel@) == Some(i as int),
            None => meant(candidates(cands@), cfg@, sel@) is None,
        },
{
    let w = trim_str(sel);
    if let Some(n) = parse_number(&chars_of(w.as_str()), usize::MAX as u64) {
        if 1 <= n && n <= cands.len() as u64 {
            return Some((n - 1) as usize);
        }
        return None;
    }
    if let Some(p) = cfg.profile(w.as_str()) {
        if let Some(i) = find_of_profile(cands, p) {
            return Some(i);
        }
    }
    if let Some(i) = find_called(cands, w.as_str()) {
        return Some(i);
    }
    if let Some(i) = find_stemmed(cands, w.as_str()) {
        return Some(i);
    }
    find_holding(cands, w.as_str())
}

proof fn lemma_first_where(cs: Seq<CandidateV>, p: spec_fn(CandidateV) -> bool, i: int)
    requires
        0 <= i,
    ensures
        match first_where(cs, p, i) {
            Some(k) => i <= k < cs.len() && p(cs[k]),
            None => forall|k: int| i <= k < cs.len() ==> !p(#[trigger] cs[k]),
        },
    decreases cs.len() - i,
{
    if i < cs.len() && !p(cs[i]) {
        lemma_first_where(cs, p, i + 1);
    }
}

/// A word that means a candidate means one of those there are, and a word that is no
/// number and is the name of one always means one.
pub proof fn law_selection_is_among_the_candidates(cs: Seq<CandidateV>, cfg: ConfigV, word: Seq<char>)
    ensures
        meant(cs, cfg, word) matches Some(i) ==> 0 <= i < cs.len(),
        number(trimmed(word), usize::MAX as nat) is None && (exists|i: int|
            0 <= i < cs.len() && alike(#[trigger] cs[i].name, trimmed(word))) ==> meant(cs, cfg, word) is Some,
{
    let w = trimmed(word);
    if let Some(p) = cfg.profile(w) {
        lemma_first_where(cs, of_profile(p), 0);
    }
    lemma_first_where(cs, called(w), 0);
    lemma_first_where(cs, stemmed(w), 0);
    lemma_first_where(cs, holding(w), 0);
    if number(w, usize::MAX as nat) is None && (exists|i: int|
        0 <= i < cs.len() && alike(#[trigger] cs[i].name, w)) {
        let i = choose|i: int| 0 <= i < cs.len() && alike(#[trigger] cs[i].name, w);
        assert(called(w)(cs[i]));
    }
}

// ---------------------------------------------------------------- the table

/// The line above the table.
pub fn table_head(gpu: &GpuInfo) -> (r: String)
    ensures
        r@ == "GPU "@ + gpu.name@ + " · "@ + dec(gpu.mem.free_mib as nat) + " MiB free of "@ + dec(
            gpu.mem.total_mib as nat,
        ) + " MiB (other apps use "@ + dec(gpu.mem.used_mib as nat) + " MiB)\n"@,
{
    "GPU ".to_owned().concat(gpu.name.as_str()).concat(" · ").concat(dec_u64(gpu.mem.free_mib).as_str()).concat(
        " MiB free of ",
    ).concat(dec_u64(gpu.mem.total_mib).as_str()).concat(" MiB (other apps use ").concat(
        dec_u64(gpu.mem.used_mib).as_str(),
    ).concat(" MiB)\n")
}

/// Whether a candidate is the current model.
pub fn is_current(c: &Candidate, current: Option<&str>) -> (r: bool)
    ensures
        r == (match current {
            Some(n) => c@.profile == Some(n@) || alike(c@.name, n@) || ends(c@.source.spec_text(), n@),
            None => false,
        }),
{
    match current {
        Some(n) => {
            let own = match &c.profile {
                Some(p) => str_eq(p.as_str(), n),
                None => false,
            };
            own || eq_ignore_case(c.name.as_str(), n) || ends_with(c.model_spec().as_str(), n)
        },
        None => false,
    }
}

/// A text of at most `n` bytes stands for itself; a longer one is cut to one byte less and
/// ends in an ellipsis.
pub open spec fn cut(s: Seq<char>, n: nat) -> Seq<char> {
    if byte_len(s) <= n {
        s
    } else {
        s.take(bytes_at(s, (n - 1) as nat, 0)->Some_0) + "…"@
    }
}

pub fn truncate(s: &str, n: usize) -> (r: String)
    requires
        n > 0,
        byte_len(s@) <= n || bytes_at(s@, (n - 1) as nat, 0) is Some,
    ensures
        r@ == cut(s@, n as nat),
{
    if bytes_in(s) <= n {
        return s.to_owned();
    }
    match byte_prefix(s, n - 1) {
        Some(head) => head.concat("…"),
        None => s.to_owned(),
    }
}

/// A number counts the candidates from one; any other word goes by the first way of meaning
/// that gives one: the profile of that name, the name, the name without tag or suffix, a part of
/// the name. Within a way the first candidate counts.
#[verifier::rlimit(40)]
pub proof fn law_how_a_word_is_meant(cs: Seq<CandidateV>, cfg: ConfigV, word: Seq<char>)
    ensures
        ({
            let w = trimmed(word);
            let m = meant(cs, cfg, word);
            &&& number(w, usize::MAX as nat) matches Some(n) ==> (1 <= n <= cs.len() ==> m == Some(n - 1)) && (n == 0 || n
                > cs.len() ==> m is None)
            &&& number(w, usize::MAX as nat) is None && cfg.profile(w) is None ==> forall|i: int|
                0 <= i < cs.len() && alike(#[trigger] cs[i].name, w) && (forall|j: int|
                    0 <= j < i ==> !alike(#[trigger] cs[j].name, w) && !alike(cs[j].source.spec_text(), w)) ==> m
                    == Some(i)
            &&& number(w, usize::MAX as nat) is None ==> (cfg.profile(w) matches Some(p) ==> forall|i: int|
                0 <= i < cs.len() && #[trigger] cs[i].profile == Some(p.name) && (forall|j: int|
                    0 <= j < i ==> #[trigger] cs[j].profile != Some(p.name) && !alike(cs[j].name, p.alias) && !alike(
                        cs[j].name,
                        p.model,
                    )) ==> m == Some(i))
            &&& number(w, usize::MAX as nat) is None && m is Some ==> ({
                let c = cs[m->Some_0];
                ||| (cfg.profile(w) matches Some(p) && of_profile(p)(c))
                ||| alike(c.name, w)
                ||| alike(c.source.spec_text(), w)
                ||| alike(before_colon(c.name), w)
                ||| alike(without_suffix(c.name, ".gguf"@), w)
                ||| holds(lowered(c.name), lowered(w))
                ||| holds(lowered(c.source.spec_text()), lowered(w))
                ||| (c.profile matches Some(p) && holds(lowered(p), lowered(w)))
            })
        }),
{
    let w = trimmed(word);
    lemma_first_is_first(cs, called(w), 0);
    lemma_first_is_first(cs, stemmed(w), 0);
    lemma_first_is_first(cs, holding(w), 0);
    if let Some(p) = cfg.profile(w) {
        lemma_first_is_first(cs, of_profile(p), 0);
    }
    if number(w, usize::MAX as nat) is None && cfg.profile(w) is None {
        assert forall|i: int| 0 <= i < cs.len() && alike(#[trigger] cs[i].name, w) && (forall|j: int|
            0 <= j < i ==> !alike(#[trigger] cs[j].name, w) && !alike(cs[j].source.spec_text(), w)) implies meant(
            cs,
            cfg,
            word,
        ) == Some(i) by {
            assert(called(w)(cs[i]));
            let k = first_where(cs, called(w), 0)->Some_0;
            assert(called(w)(cs[k]));
            if k < i {
                assert(!alike(cs[k].name, w));
            }
        }
    }
    if let Some(p) = cfg.profile(w) {
        if number(w, usize::MAX as nat) is None {
            assert forall|i: int| 0 <= i < cs.len() && #[trigger] cs[i].profile == Some(p.name) && (forall|j: int|
                0 <= j < i ==> #[trigger] cs[j].profile != Some(p.name) && !alike(cs[j].name, p.alias) && !alike(
                    cs[j].name,
                    p.model,
                )) implies meant(cs, cfg, word) == Some(i) by {
                assert(of_profile(p)(cs[i]));
                let k = first_where(cs, of_profile(p), 0)->Some_0;
                assert(of_profile(p)(cs[k]));
                if k < i {
                    assert(cs[k].profile != Some(p.name));
                }
            }
        }
    }
}

proof fn lemma_first_is_first(cs: Seq<CandidateV>, p: spec_fn(CandidateV) -> bool, i: int)
    requires
        0 <= i,
    ensures
        match first_where(cs, p, i) {
            Some(k) => i <= k < cs.len() && p(cs[k]) && forall|j: int| i <= j < k ==> !p(#[trigger] cs[j]),
            None => forall|j: int| i <= j < cs.len() ==> !p(#[trigger] cs[j]),
        },
    decreases cs.len() - i,
{
    if i < cs.len() && !p(cs[i]) {
        lemma_first_is_first(cs, p, i + 1);
    }
}

/// A candidate that a profile is set up for is run by that profile; for any other one is made
/// that names its file or its download, goes by its name, and drafts only where the model can.
pub proof fn law_the_profile_of_a_candidate(cfg: ConfigV, c: CandidateV)
    ensures
        ({
            let p = profile_for_candidate(cfg, c);
            let own = c.profile is Some && cfg.profile(c.profile->Some_0) is Some;
            &&& own ==> Some(p) == cfg.profile(c.profile->Some_0)
            &&& !own ==> {
                &&& p.alias == c.name
                &&& c.source matches SourceV::Local(f) ==> p.model == f
                &&& c.source matches SourceV::Download(repo, file) ==> p.model == repo + ":"@ + file
                &&& c.has_mtp ==> p.spec == "draft-mtp"@
                &&& !c.has_mtp ==> p.spec == "none"@
                &&& c.plan_ctx matches Some(n) ==> p.ctx >= n && (p.ctx == n || p.ctx == p.ctx_min)
            }
        }),
{
}

/// The note on a plan tells what is not on the GPU.
pub proof fn law_a_note_tells_what_is_offloaded(f: FactsV, p: PlanV)
    ensures
        p.ffn_cpu_blocks == 0 && p.ngl > f.layer_bytes.len() ==> plan_note(f, p) == "all on GPU @ "@ + dec(
            (p.n_ctx / 1024) as nat,
        ) + "K ctx"@,
        p.ffn_cpu_blocks > 0 ==> plan_note(f, p) == "FFN of "@ + dec(p.ffn_cpu_blocks as nat) + " blocks on CPU @ "@ + dec(
            (p.n_ctx / 1024) as nat,
        ) + "K ctx"@,
        p.ffn_cpu_blocks == 0 && p.ngl <= f.layer_bytes.len() && p.ngl <= f.n_layer ==> plan_note(f, p) == "ngl "@ + dec(
            p.ngl as nat,
        ) + "/"@ + dec(f.n_layer as nat) + " (CPU offload) @ "@ + dec((p.n_ctx / 1024) as nat) + "K ctx"@,
{
}

/// The profile that is set up for a source is the first whose model was found at its file, or that
/// names its download.
pub proof fn law_the_profile_that_is_set_up(
    ps: Seq<ProfileV>,
    found: Seq<Option<Seq<char>>>,
    source: SourceV,
    from: int,
    i: int,
    windows: bool,
)
    requires
        0 <= from <= i < ps.len(),
        found.len() == ps.len(),
        suits_source(ps, found, source, i, windows),
        forall|j: int| from <= j < i ==> !#[trigger] suits_source(ps, found, source, j, windows),
    ensures
        configured_from(ps, found, source, from, windows) == Some(ps[i].name),
    decreases i - from,
{
    if from < i {
        assert(!suits_source(ps, found, source, from, windows));
        law_the_profile_that_is_set_up(ps, found, source, from + 1, i, windows);
    }
}

/// A profile is for a source: its model was found at that file, or it names that download.
pub open spec fn suits_source(
    ps: Seq<ProfileV>,
    found: Seq<Option<Seq<char>>>,
    source: SourceV,
    i: int,
    windows: bool,
) -> bool {
    match source {
        SourceV::Local(path) => found[i] matches Some(f) && same_path(f, path, windows),
        SourceV::Download(repo, file) => ps[i].model == repo + ":"@ + file,
    }
}

/// A model that was discovered is served by the first profile of its file, its alias or its name.
pub proof fn law_the_profile_that_serves(
    ps: Seq<ProfileV>,
    found: Seq<Option<Seq<char>>>,
    path: Seq<char>,
    alias: Seq<char>,
    shown: Seq<char>,
    from: int,
    windows: bool,
)
    requires
        0 <= from,
        found.len() == ps.len(),
    ensures
        match serving_from(ps, found, path, alias, shown, from, windows) {
            Some(k) => from <= k < ps.len() && (alike(ps[k].alias, alias) || alike(ps[k].model, shown) || (
            found[k] matches Some(f) && same_path(f, path, windows))) && forall|j: int|
                from <= j < k ==> !alike((#[trigger] ps[j]).alias, alias) && !alike(ps[j].model, shown),
            None => forall|j: int|
                from <= j < ps.len() ==> !alike((#[trigger] ps[j]).alias, alias) && !alike(ps[j].model, shown) && !(
                found[j] matches Some(f) && same_path(f, path, windows)),
        },
    decreases ps.len() - from,
{
    if from < ps.len() && !serves(ps[from], found[from], path, alias, shown, windows) {
        law_the_profile_that_serves(ps, found, path, alias, shown, from + 1, windows);
    }
}

/// A model whose name tells of Gemma is asked for half the context of others, and for no thinking
/// apart; its profile goes by the name of its file in lower case.
pub proof fn law_profiles_follow_from_names(name: Seq<char>, model: Seq<char>, has_mtp: bool)
    ensures
        ({
            let p = profile_of(name, model, has_mtp);
            let low = lowered(without_suffix(name, ".gguf"@));
            let gemma = holds(low, "gemma"@);
            let flash = holds(low, "flash"@) || holds(low, "qwen4"@);
            &&& p.model == model
            &&& gemma && !flash ==> p.ctx == 32768 && p.ctx_min == 16384
            &&& !gemma || flash ==> p.ctx == 65536 && p.ctx_min == 32768
            &&& gemma ==> p.reasoning_format == "none"@
            &&& !gemma ==> p.reasoning_format == "deepseek"@
            &&& p.name.len() == low.len()
            &&& forall|i: int|
                0 <= i < low.len() && low[i] != '.' && low[i] != ' ' && low[i] != ':' ==> #[trigger] p.name[i] == low[i]
            &&& forall|i: int|
                0 <= i < low.len() && (low[i] == '.' || low[i] == ' ' || low[i] == ':') ==> #[trigger] p.name[i] == '-'
        }),
{
    let marks = seq!['.', ' ', ':'];
    assert(marks[0] == '.' && marks[1] == ' ' && marks[2] == ':');
    assert forall|c: char| #[trigger] marks.contains(c) implies c == '.' || c == ' ' || c == ':' by {}
    assert(marks.contains('.') && marks.contains(' ') && marks.contains(':'));
}

} // verus!
