//! The settings: their tables, their defaults, and what is derived from them.

use crate::discover::{alike, eq_ignore_case};
use crate::message::opt_string;
use crate::paths::{Surroundings, SurroundingsV, expand_path, expanded, filled, text_pairs};
use crate::text::{
    begins, char_from, chars_of, contains, copy_strings, debug_text, dec, dec_u64, ends, ends_with,
    find_char, holds, number, parse_number, quoted, starts_with, str_eq, string_of_range, strings,
    trim_str, trimmed,
};
use vstd::prelude::*;
use vstd::string::*;

verus! {

/// How much is asked before a tool runs.
#[derive(Debug, Clone, Copy, PartialEq, Eq, Structural)]
pub enum PermissionModeCfg {
    Ask,
    AutoAcceptEdits,
    Yolo,
}

/// The `[general]` table.
#[derive(Debug)]
pub struct General {
    pub default_profile: String,
    pub permission_mode: PermissionModeCfg,
    /// The most turns for a request; 0 for no limit.
    pub max_turns: u32,
    pub log_level: String,
}

#[verifier::ext_equal]
pub struct GeneralV {
    pub default_profile: Seq<char>,
    pub permission_mode: PermissionModeCfg,
    pub max_turns: u32,
    pub log_level: Seq<char>,
}

impl View for General {
    type V = GeneralV;

    open spec fn view(&self) -> GeneralV {
        GeneralV {
            default_profile: self.default_profile@,
            permission_mode: self.permission_mode,
            max_turns: self.max_turns,
            log_level: self.log_level@,
        }
    }
}

impl GeneralV {
    /// The default settings.
    pub open spec fn standard() -> GeneralV {
        GeneralV {
            default_profile: "qwen38-27b-fast"@,
            permission_mode: PermissionModeCfg::Ask,
            max_turns: 0,
            log_level: "info"@,
        }
    }
}

impl Default for General {
    fn default() -> (r: Self)
        ensures
            r@ == GeneralV::standard(),
    {
        let r = General {
            default_profile: "qwen38-27b-fast".to_owned(),
            permission_mode: PermissionModeCfg::Ask,
            max_turns: 0,
            log_level: "info".to_owned(),
        };
        r
    }
}

/// Where the engine comes from: built here, a released build, or a server that runs
/// already.
#[derive(Debug, Clone, Copy, PartialEq, Eq, Structural)]
pub enum EngineProvider {
    Source,
    Prebuilt,
    External,
}

/// The `[engine]` table.
#[derive(Debug)]
pub struct Engine {
    pub provider: EngineProvider,
    /// An explicit path of the server; it goes before any other.
    pub server_binary: String,
    pub llama_cpp_dir: String,
    /// The tag or commit to build.
    pub pin: String,
    pub cuda_path: String,
    pub cuda_arch: String,
    pub host: String,
    pub port: u16,
    pub restart_max: u32,
    pub external_url: String,
    pub api_key: String,
    pub cache_ram_mb: u32,
    pub models_dir: String,
    /// More directories in which models are looked for.
    pub extra_search_dirs: Vec<String>,
    /// How long a start may take, in seconds.
    pub startup_timeout_s: u64,
    /// What is taken off the free memory before planning.
    pub vram_safety_mib: u64,
    pub cuda_context_mib: u64,
}

#[verifier::ext_equal]
pub struct EngineV {
    pub provider: EngineProvider,
    pub server_binary: Seq<char>,
    pub llama_cpp_dir: Seq<char>,
    pub pin: Seq<char>,
    pub cuda_path: Seq<char>,
    pub cuda_arch: Seq<char>,
    pub host: Seq<char>,
    pub port: u16,
    pub restart_max: u32,
    pub external_url: Seq<char>,
    pub api_key: Seq<char>,
    pub cache_ram_mb: u32,
    pub models_dir: Seq<char>,
    pub extra_search_dirs: Seq<Seq<char>>,
    pub startup_timeout_s: u64,
    pub vram_safety_mib: u64,
    pub cuda_context_mib: u64,
}

impl View for Engine {
    type V = EngineV;

    open spec fn view(&self) -> EngineV {
        EngineV {
            provider: self.provider,
            server_binary: self.server_binary@,
            llama_cpp_dir: self.llama_cpp_dir@,
            pin: self.pin@,
            cuda_path: self.cuda_path@,
            cuda_arch: self.cuda_arch@,
            host: self.host@,
            port: self.port,
            restart_max: self.restart_max,
            external_url: self.external_url@,
            api_key: self.api_key@,
            cache_ram_mb: self.cache_ram_mb,
            models_dir: self.models_dir@,
            extra_search_dirs: strings(self.extra_search_dirs@),
            startup_timeout_s: self.startup_timeout_s,
            vram_safety_mib: self.vram_safety_mib,
            cuda_context_mib: self.cuda_context_mib,
        }
    }
}

impl EngineV {
    /// The default settings.
    pub open spec fn standard() -> EngineV {
        EngineV {
            provider: EngineProvider::Source,
            server_binary: Seq::empty(),
            llama_cpp_dir: "B:/llama/llama.cpp"@,
            pin: Seq::empty(),
            cuda_path: Seq::empty(),
            cuda_arch: "120"@,
            host: "127.0.0.1"@,
            port: 8089,
            restart_max: 5,
            external_url: Seq::empty(),
            api_key: Seq::empty(),
            cache_ram_mb: 6144,
            models_dir: "B:/models"@,
            extra_search_dirs: seq!["~/.lmstudio/models"@, "~/.cache/lm-studio/models"@],
            startup_timeout_s: 300,
            vram_safety_mib: 256,
            cuda_context_mib: 550,
        }
    }
}

impl Default for Engine {
    fn default() -> (r: Self)
        ensures
            r@ == EngineV::standard(),
    {
        let r = Engine {
            provider: EngineProvider::Source,
            server_binary: String::new(),
            llama_cpp_dir: "B:/llama/llama.cpp".to_owned(),
            pin: String::new(),
            cuda_path: String::new(),
            cuda_arch: "120".to_owned(),
            host: "127.0.0.1".to_owned(),
            port: 8089,
            restart_max: 5,
            external_url: String::new(),
            api_key: String::new(),
            cache_ram_mb: 6144,
            models_dir: "B:/models".to_owned(),
            extra_search_dirs: vec!["~/.lmstudio/models".to_owned(), "~/.cache/lm-studio/models".to_owned()],
            startup_timeout_s: 300,
            vram_safety_mib: 256,
            cuda_context_mib: 550,
        };
        assert(r@.extra_search_dirs =~= EngineV::standard().extra_search_dirs);
        r
    }
}

/// How the next token is drawn. The fractions are kept as decimal text.
#[derive(Debug)]
pub struct Sampling {
    pub temperature: String,
    pub top_p: String,
    pub top_k: u32,
    pub min_p: String,
    pub presence_penalty: String,
    pub repeat_penalty: String,
}

#[verifier::ext_equal]
pub struct SamplingV {
    pub temperature: Seq<char>,
    pub top_p: Seq<char>,
    pub top_k: u32,
    pub min_p: Seq<char>,
    pub presence_penalty: Seq<char>,
    pub repeat_penalty: Seq<char>,
}

impl View for Sampling {
    type V = SamplingV;

    open spec fn view(&self) -> SamplingV {
        SamplingV {
            temperature: self.temperature@,
            top_p: self.top_p@,
            top_k: self.top_k,
            min_p: self.min_p@,
            presence_penalty: self.presence_penalty@,
            repeat_penalty: self.repeat_penalty@,
        }
    }
}

impl SamplingV {
    /// The default settings.
    pub open spec fn standard() -> SamplingV {
        SamplingV {
            temperature: "0.6"@,
            top_p: "0.95"@,
            top_k: 20,
            min_p: "0"@,
            presence_penalty: "0.1"@,
            repeat_penalty: "1.1"@,
        }
    }
}

impl Default for Sampling {
    fn default() -> (r: Self)
        ensures
            r@ == SamplingV::standard(),
    {
        let r = Sampling {
            temperature: "0.6".to_owned(),
            top_p: "0.95".to_owned(),
            top_k: 20,
            min_p: "0".to_owned(),
            presence_penalty: "0.1".to_owned(),
            repeat_penalty: "1.1".to_owned(),
        };
        r
    }
}

impl Sampling {
    pub fn copy(&self) -> (r: Sampling)
        ensures
            r@ == self@,
    {
        Sampling {
            temperature: self.temperature.clone(),
            top_p: self.top_p.clone(),
            top_k: self.top_k,
            min_p: self.min_p.clone(),
            presence_penalty: self.presence_penalty.clone(),
            repeat_penalty: self.repeat_penalty.clone(),
        }
    }
}

/// The sampling for each way of answering.
#[derive(Debug)]
pub struct SamplingSet {
    pub thinking: Sampling,
    pub coding: Sampling,
    pub instruct: Sampling,
}

#[verifier::ext_equal]
pub struct SamplingSetV {
    pub thinking: SamplingV,
    pub coding: SamplingV,
    pub instruct: SamplingV,
}

impl View for SamplingSet {
    type V = SamplingSetV;

    open spec fn view(&self) -> SamplingSetV {
        SamplingSetV {
            thinking: self.thinking@,
            coding: self.coding@,
            instruct: self.instruct@,
        }
    }
}

impl SamplingSetV {
    /// The default settings.
    pub open spec fn standard() -> SamplingSetV {
        SamplingSetV {
            thinking: SamplingV { temperature: "1"@, top_p: "0.95"@, top_k: 20, min_p: "0"@, presence_penalty: "0.1"@, repeat_penalty: "1.1"@ },
            coding: SamplingV { temperature: "0.6"@, top_p: "0.95"@, top_k: 20, min_p: "0"@, presence_penalty: "0.1"@, repeat_penalty: "1.1"@ },
            instruct: SamplingV { temperature: "0.7"@, top_p: "0.8"@, top_k: 20, min_p: "0"@, presence_penalty: "1.5"@, repeat_penalty: "1.1"@ },
        }
    }
}

impl Default for SamplingSet {
    fn default() -> (r: Self)
        ensures
            r@ == SamplingSetV::standard(),
    {
        let r = SamplingSet {
            thinking: Sampling { temperature: "1".to_owned(), top_p: "0.95".to_owned(), top_k: 20, min_p: "0".to_owned(), presence_penalty: "0.1".to_owned(), repeat_penalty: "1.1".to_owned() },
            coding: Sampling { temperature: "0.6".to_owned(), top_p: "0.95".to_owned(), top_k: 20, min_p: "0".to_owned(), presence_penalty: "0.1".to_owned(), repeat_penalty: "1.1".to_owned() },
            instruct: Sampling { temperature: "0.7".to_owned(), top_p: "0.8".to_owned(), top_k: 20, min_p: "0".to_owned(), presence_penalty: "1.5".to_owned(), repeat_penalty: "1.1".to_owned() },
        };
        r
    }
}

impl SamplingSet {
    pub fn copy(&self) -> (r: SamplingSet)
        ensures
            r@ == self@,
    {
        SamplingSet {
            thinking: self.thinking.copy(),
            coding: self.coding.copy(),
            instruct: self.instruct.copy(),
        }
    }
}

/// The effort of reasoning for each class of task: `xhigh`, `medium`, `low` or `none`.
#[derive(Debug)]
pub struct EffortMap {
    pub plan: String,
    pub explore: String,
    pub edit: String,
    pub chat: String,
    pub verify: String,
    pub summarize: String,
    pub commit: String,
}

#[verifier::ext_equal]
pub struct EffortMapV {
    pub plan: Seq<char>,
    pub explore: Seq<char>,
    pub edit: Seq<char>,
    pub chat: Seq<char>,
    pub verify: Seq<char>,
    pub summarize: Seq<char>,
    pub commit: Seq<char>,
}

impl View for EffortMap {
    type V = EffortMapV;

    open spec fn view(&self) -> EffortMapV {
        EffortMapV {
            plan: self.plan@,
            explore: self.explore@,
            edit: self.edit@,
            chat: self.chat@,
            verify: self.verify@,
            summarize: self.summarize@,
            commit: self.commit@,
        }
    }
}

impl EffortMapV {
    /// The default settings.
    pub open spec fn standard() -> EffortMapV {
        EffortMapV {
            plan: "xhigh"@,
            explore: "medium"@,
            edit: "medium"@,
            chat: "medium"@,
            verify: "medium"@,
            summarize: "none"@,
            commit: "none"@,
        }
    }
}

impl Default for EffortMap {
    fn default() -> (r: Self)
        ensures
            r@ == EffortMapV::standard(),
    {
        let r = EffortMap {
            plan: "xhigh".to_owned(),
            explore: "medium".to_owned(),
            edit: "medium".to_owned(),
            chat: "medium".to_owned(),
            verify: "medium".to_owned(),
            summarize: "none".to_owned(),
            commit: "none".to_owned(),
        };
        r
    }
}

impl EffortMap {
    pub fn copy(&self) -> (r: EffortMap)
        ensures
            r@ == self@,
    {
        EffortMap {
            plan: self.plan.clone(),
            explore: self.explore.clone(),
            edit: self.edit.clone(),
            chat: self.chat.clone(),
            verify: self.verify.clone(),
            summarize: self.summarize.clone(),
            commit: self.commit.clone(),
        }
    }
}

/// One `[[profile]]`: a model and how it is run.
#[derive(Debug)]
pub struct Profile {
    pub name: String,
    /// A repository and a file, or the path of a model.
    pub model: String,
    pub alias: String,
    pub ctx: u32,
    pub ctx_min: u32,
    pub kv_type: String,
    pub flash_attn: bool,
    pub batch: u32,
    pub ubatch: u32,
    pub threads: u32,
    pub threads_batch: u32,
    /// `auto` or a number.
    pub ngl: String,
    /// `auto`, nothing, or a list of overrides.
    pub override_tensor: String,
    /// `draft-mtp`, `ngram-simple` or `none`.
    pub spec: String,
    pub spec_draft_n_max: u32,
    pub draft_model: String,
    pub provider: Option<EngineProvider>,
    pub endpoint: String,
    pub api_key: String,
    pub ctx_checkpoints: u32,
    pub checkpoint_min_step: u32,
    pub reasoning_format: String,
    pub chat_template_file: String,
    pub no_mmap: bool,
    pub extra_args: Vec<String>,
    pub sampling: SamplingSet,
    pub effort: EffortMap,
    /// The most tokens of an answer.
    pub max_tokens: u32,
}

#[verifier::ext_equal]
pub struct ProfileV {
    pub name: Seq<char>,
    pub model: Seq<char>,
    pub alias: Seq<char>,
    pub ctx: u32,
    pub ctx_min: u32,
    pub kv_type: Seq<char>,
    pub flash_attn: bool,
    pub batch: u32,
    pub ubatch: u32,
    pub threads: u32,
    pub threads_batch: u32,
    pub ngl: Seq<char>,
    pub override_tensor: Seq<char>,
    pub spec: Seq<char>,
    pub spec_draft_n_max: u32,
    pub draft_model: Seq<char>,
    pub provider: Option<EngineProvider>,
    pub endpoint: Seq<char>,
    pub api_key: Seq<char>,
    pub ctx_checkpoints: u32,
    pub checkpoint_min_step: u32,
    pub reasoning_format: Seq<char>,
    pub chat_template_file: Seq<char>,
    pub no_mmap: bool,
    pub extra_args: Seq<Seq<char>>,
    pub sampling: SamplingSetV,
    pub effort: EffortMapV,
    pub max_tokens: u32,
}

impl View for Profile {
    type V = ProfileV;

    open spec fn view(&self) -> ProfileV {
        ProfileV {
            name: self.name@,
            model: self.model@,
            alias: self.alias@,
            ctx: self.ctx,
            ctx_min: self.ctx_min,
            kv_type: self.kv_type@,
            flash_attn: self.flash_attn,
            batch: self.batch,
            ubatch: self.ubatch,
            threads: self.threads,
            threads_batch: self.threads_batch,
            ngl: self.ngl@,
            override_tensor: self.override_tensor@,
            spec: self.spec@,
            spec_draft_n_max: self.spec_draft_n_max,
            draft_model: self.draft_model@,
            provider: self.provider,
            endpoint: self.endpoint@,
            api_key: self.api_key@,
            ctx_checkpoints: self.ctx_checkpoints,
            checkpoint_min_step: self.checkpoint_min_step,
            reasoning_format: self.reasoning_format@,
            chat_template_file: self.chat_template_file@,
            no_mmap: self.no_mmap,
            extra_args: strings(self.extra_args@),
            sampling: self.sampling@,
            effort: self.effort@,
            max_tokens: self.max_tokens,
        }
    }
}

impl ProfileV {
    /// The default settings.
    pub open spec fn standard() -> ProfileV {
        ProfileV {
            name: Seq::empty(),
            model: Seq::empty(),
            alias: "buzzcode"@,
            ctx: 65536,
            ctx_min: 32768,
            kv_type: "q8_0"@,
            flash_attn: true,
            batch: 2048,
            ubatch: 512,
            threads: 8,
            threads_batch: 16,
            ngl: "auto"@,
            override_tensor: "auto"@,
            spec: "draft-mtp"@,
            spec_draft_n_max: 2,
            draft_model: Seq::empty(),
            provider: None,
            endpoint: Seq::empty(),
            api_key: Seq::empty(),
            ctx_checkpoints: 8,
            checkpoint_min_step: 2048,
            reasoning_format: "deepseek"@,
            chat_template_file: Seq::empty(),
            no_mmap: true,
            extra_args: Seq::empty(),
            sampling: SamplingSetV::standard(),
            effort: EffortMapV::standard(),
            max_tokens: 8192,
        }
    }
}

impl Default for Profile {
    fn default() -> (r: Self)
        ensures
            r@ == ProfileV::standard(),
    {
        let r = Profile {
            name: String::new(),
            model: String::new(),
            alias: "buzzcode".to_owned(),
            ctx: 65536,
            ctx_min: 32768,
            kv_type: "q8_0".to_owned(),
            flash_attn: true,
            batch: 2048,
            ubatch: 512,
            threads: 8,
            threads_batch: 16,
            ngl: "auto".to_owned(),
            override_tensor: "auto".to_owned(),
            spec: "draft-mtp".to_owned(),
            spec_draft_n_max: 2,
            draft_model: String::new(),
            provider: None,
            endpoint: String::new(),
            api_key: String::new(),
            ctx_checkpoints: 8,
            checkpoint_min_step: 2048,
            reasoning_format: "deepseek".to_owned(),
            chat_template_file: String::new(),
            no_mmap: true,
            extra_args: Vec::new(),
            sampling: SamplingSet::default(),
            effort: EffortMap::default(),
            max_tokens: 8192,
        };
        assert(r@.extra_args =~= ProfileV::standard().extra_args);
        r
    }
}

impl Profile {
    pub fn copy(&self) -> (r: Profile)
        ensures
            r@ == self@,
    {
        Profile {
            name: self.name.clone(),
            model: self.model.clone(),
            alias: self.alias.clone(),
            ctx: self.ctx,
            ctx_min: self.ctx_min,
            kv_type: self.kv_type.clone(),
            flash_attn: self.flash_attn,
            batch: self.batch,
            ubatch: self.ubatch,
            threads: self.threads,
            threads_batch: self.threads_batch,
            ngl: self.ngl.clone(),
            override_tensor: self.override_tensor.clone(),
            spec: self.spec.clone(),
            spec_draft_n_max: self.spec_draft_n_max,
            draft_model: self.draft_model.clone(),
            provider: self.provider,
            endpoint: self.endpoint.clone(),
            api_key: self.api_key.clone(),
            ctx_checkpoints: self.ctx_checkpoints,
            checkpoint_min_step: self.checkpoint_min_step,
            reasoning_format: self.reasoning_format.clone(),
            chat_template_file: self.chat_template_file.clone(),
            no_mmap: self.no_mmap,
            extra_args: copy_strings(&self.extra_args),
            sampling: self.sampling.copy(),
            effort: self.effort.copy(),
            max_tokens: self.max_tokens,
        }
    }
}

pub open spec fn profile_views(v: Seq<Profile>) -> Seq<ProfileV> {
    Seq::new(v.len(), |i: int| v[i]@)
}

/// One `[[model_slot]]`: a second model.
#[derive(Debug)]
pub struct ModelSlot {
    pub role: String,
    pub enabled: bool,
    pub model: String,
    /// `cpu` or `gpu`.
    pub device: String,
    pub port: u16,
    pub parallel: u32,
    pub ctx: u32,
    pub use_for: Vec<String>,
}

#[verifier::ext_equal]
pub struct ModelSlotV {
    pub role: Seq<char>,
    pub enabled: bool,
    pub model: Seq<char>,
    pub device: Seq<char>,
    pub port: u16,
    pub parallel: u32,
    pub ctx: u32,
    pub use_for: Seq<Seq<char>>,
}

impl View for ModelSlot {
    type V = ModelSlotV;

    open spec fn view(&self) -> ModelSlotV {
        ModelSlotV {
            role: self.role@,
            enabled: self.enabled,
            model: self.model@,
            device: self.device@,
            port: self.port,
            parallel: self.parallel,
            ctx: self.ctx,
            use_for: strings(self.use_for@),
        }
    }
}

impl ModelSlotV {
    /// The default settings.
    pub open spec fn standard() -> ModelSlotV {
        ModelSlotV {
            role: "secondary"@,
            enabled: false,
            model: "gemma-4-12B-it-Q4_K_M.gguf"@,
            device: "cpu"@,
            port: 8090,
            parallel: 2,
            ctx: 8192,
            use_for: seq!["summarize"@, "commit"@],
        }
    }
}

impl Default for ModelSlot {
    fn default() -> (r: Self)
        ensures
            r@ == ModelSlotV::standard(),
    {
        let r = ModelSlot {
            role: "secondary".to_owned(),
            enabled: false,
            model: "gemma-4-12B-it-Q4_K_M.gguf".to_owned(),
            device: "cpu".to_owned(),
            port: 8090,
            parallel: 2,
            ctx: 8192,
            use_for: vec!["summarize".to_owned(), "commit".to_owned()],
        };
        assert(r@.use_for =~= ModelSlotV::standard().use_for);
        r
    }
}

pub open spec fn model_slot_views(v: Seq<ModelSlot>) -> Seq<ModelSlotV> {
    Seq::new(v.len(), |i: int| v[i]@)
}

/// The `[context]` table. The threshold is kept as decimal text.
#[derive(Debug)]
pub struct ContextCfg {
    pub compaction_threshold: String,
    pub output_reserve_tokens: u32,
    pub repo_map_tokens: u32,
    pub repo_map_tokens_plan: u32,
    pub tool_output_max_bytes: usize,
    pub tool_output_head_lines: usize,
    pub tool_output_tail_lines: usize,
    pub keep_tail_turns: usize,
    pub summary_max_tokens: u32,
}

#[verifier::ext_equal]
pub struct ContextCfgV {
    pub compaction_threshold: Seq<char>,
    pub output_reserve_tokens: u32,
    pub repo_map_tokens: u32,
    pub repo_map_tokens_plan: u32,
    pub tool_output_max_bytes: usize,
    pub tool_output_head_lines: usize,
    pub tool_output_tail_lines: usize,
    pub keep_tail_turns: usize,
    pub summary_max_tokens: u32,
}

impl View for ContextCfg {
    type V = ContextCfgV;

    open spec fn view(&self) -> ContextCfgV {
        ContextCfgV {
            compaction_threshold: self.compaction_threshold@,
            output_reserve_tokens: self.output_reserve_tokens,
            repo_map_tokens: self.repo_map_tokens,
            repo_map_tokens_plan: self.repo_map_tokens_plan,
            tool_output_max_bytes: self.tool_output_max_bytes,
            tool_output_head_lines: self.tool_output_head_lines,
            tool_output_tail_lines: self.tool_output_tail_lines,
            keep_tail_turns: self.keep_tail_turns,
            summary_max_tokens: self.summary_max_tokens,
        }
    }
}

impl ContextCfgV {
    /// The default settings.
    pub open spec fn standard() -> ContextCfgV {
        ContextCfgV {
            compaction_threshold: "0.95"@,
            output_reserve_tokens: 4096,
            repo_map_tokens: 2048,
            repo_map_tokens_plan: 4096,
            tool_output_max_bytes: 24_000,
            tool_output_head_lines: 150,
            tool_output_tail_lines: 50,
            keep_tail_turns: 2,
            summary_max_tokens: 1500,
        }
    }
}

impl Default for ContextCfg {
    fn default() -> (r: Self)
        ensures
            r@ == ContextCfgV::standard(),
    {
        let r = ContextCfg {
            compaction_threshold: "0.95".to_owned(),
            output_reserve_tokens: 4096,
            repo_map_tokens: 2048,
            repo_map_tokens_plan: 4096,
            tool_output_max_bytes: 24_000,
            tool_output_head_lines: 150,
            tool_output_tail_lines: 50,
            keep_tail_turns: 2,
            summary_max_tokens: 1500,
        };
        r
    }
}

/// The `[codeintel]` table.
#[derive(Debug)]
pub struct CodeIntel {
    pub enabled: bool,
    pub index_path: String,
    pub languages: Vec<String>,
    pub exclude: Vec<String>,
    pub max_file_bytes: u64,
}

#[verifier::ext_equal]
pub struct CodeIntelV {
    pub enabled: bool,
    pub index_path: Seq<char>,
    pub languages: Seq<Seq<char>>,
    pub exclude: Seq<Seq<char>>,
    pub max_file_bytes: u64,
}

impl View for CodeIntel {
    type V = CodeIntelV;

    open spec fn view(&self) -> CodeIntelV {
        CodeIntelV {
            enabled: self.enabled,
            index_path: self.index_path@,
            languages: strings(self.languages@),
            exclude: strings(self.exclude@),
            max_file_bytes: self.max_file_bytes,
        }
    }
}

impl CodeIntelV {
    /// The default settings.
    pub open spec fn standard() -> CodeIntelV {
        CodeIntelV {
            enabled: true,
            index_path: ".buzzcode/index.redb"@,
            languages: seq!["rust"@, "python"@, "typescript"@, "javascript"@, "go"@, "c"@, "cpp"@, "java"@, "json"@, "toml"@, "markdown"@],
            exclude: seq!["target/**"@, "node_modules/**"@, "dist/**"@, "build/**"@, "*.min.js"@, "*.lock"@],
            max_file_bytes: 1_500_000,
        }
    }
}

impl Default for CodeIntel {
    fn default() -> (r: Self)
        ensures
            r@ == CodeIntelV::standard(),
    {
        let r = CodeIntel {
            enabled: true,
            index_path: ".buzzcode/index.redb".to_owned(),
            languages: vec!["rust".to_owned(), "python".to_owned(), "typescript".to_owned(), "javascript".to_owned(), "go".to_owned(), "c".to_owned(), "cpp".to_owned(), "java".to_owned(), "json".to_owned(), "toml".to_owned(), "markdown".to_owned()],
            exclude: vec!["target/**".to_owned(), "node_modules/**".to_owned(), "dist/**".to_owned(), "build/**".to_owned(), "*.min.js".to_owned(), "*.lock".to_owned()],
            max_file_bytes: 1_500_000,
        };
        assert(r@.languages =~= CodeIntelV::standard().languages);
        assert(r@.exclude =~= CodeIntelV::standard().exclude);
        r
    }
}

/// The `[permissions]` table.
#[derive(Debug)]
pub struct Permissions {
    pub always_allow: Vec<String>,
    pub always_ask_shell_patterns: Vec<String>,
    /// Whether writes outside the project are refused.
    pub confine_writes_to_project: bool,
}

#[verifier::ext_equal]
pub struct PermissionsV {
    pub always_allow: Seq<Seq<char>>,
    pub always_ask_shell_patterns: Seq<Seq<char>>,
    pub confine_writes_to_project: bool,
}

impl View for Permissions {
    type V = PermissionsV;

    open spec fn view(&self) -> PermissionsV {
        PermissionsV {
            always_allow: strings(self.always_allow@),
            always_ask_shell_patterns: strings(self.always_ask_shell_patterns@),
            confine_writes_to_project: self.confine_writes_to_project,
        }
    }
}

impl PermissionsV {
    /// The default settings.
    pub open spec fn standard() -> PermissionsV {
        PermissionsV {
            always_allow: seq!["read_file"@, "glob"@, "grep"@, "list_dir"@, "outline"@, "symbol_search"@, "repo_map"@, "git_status"@, "git_diff"@, "git_log"@],
            always_ask_shell_patterns: seq![r"\brm\s+-r"@, r"Remove-Item\b.*-Recurse"@, r"git\s+push\b.*--force"@, r"git\s+reset\s+--hard"@, r"\bformat\b"@, r"rmdir\s+/s"@, r"del\s+/s"@],
            confine_writes_to_project: true,
        }
    }
}

impl Default for Permissions {
    fn default() -> (r: Self)
        ensures
            r@ == PermissionsV::standard(),
    {
        let r = Permissions {
            always_allow: vec!["read_file".to_owned(), "glob".to_owned(), "grep".to_owned(), "list_dir".to_owned(), "outline".to_owned(), "symbol_search".to_owned(), "repo_map".to_owned(), "git_status".to_owned(), "git_diff".to_owned(), "git_log".to_owned()],
            always_ask_shell_patterns: vec![r"\brm\s+-r".to_owned(), r"Remove-Item\b.*-Recurse".to_owned(), r"git\s+push\b.*--force".to_owned(), r"git\s+reset\s+--hard".to_owned(), r"\bformat\b".to_owned(), r"rmdir\s+/s".to_owned(), r"del\s+/s".to_owned()],
            confine_writes_to_project: true,
        };
        assert(r@.always_allow =~= PermissionsV::standard().always_allow);
        assert(r@.always_ask_shell_patterns =~= PermissionsV::standard().always_ask_shell_patterns);
        r
    }
}

/// One `[[mcp_server]]`.
#[derive(Debug)]
pub struct McpServer {
    pub name: String,
    pub command: String,
    pub args: Vec<String>,
    pub env: Vec<(String, String)>,
    /// `readonly`, `ask` or `yolo`.
    pub trust: String,
    pub enabled: bool,
    pub timeout_s: u64,
}

#[verifier::ext_equal]
pub struct McpServerV {
    pub name: Seq<char>,
    pub command: Seq<char>,
    pub args: Seq<Seq<char>>,
    pub env: Seq<(Seq<char>, Seq<char>)>,
    pub trust: Seq<char>,
    pub enabled: bool,
    pub timeout_s: u64,
}

impl View for McpServer {
    type V = McpServerV;

    open spec fn view(&self) -> McpServerV {
        McpServerV {
            name: self.name@,
            command: self.command@,
            args: strings(self.args@),
            env: text_pairs(self.env@),
            trust: self.trust@,
            enabled: self.enabled,
            timeout_s: self.timeout_s,
        }
    }
}

impl McpServerV {
    /// The default settings.
    pub open spec fn standard() -> McpServerV {
        McpServerV {
            name: Seq::empty(),
            command: Seq::empty(),
            args: Seq::empty(),
            env: Seq::empty(),
            trust: "ask"@,
            enabled: true,
            timeout_s: 60,
        }
    }
}

impl Default for McpServer {
    fn default() -> (r: Self)
        ensures
            r@ == McpServerV::standard(),
    {
        let r = McpServer {
            name: String::new(),
            command: String::new(),
            args: Vec::new(),
            env: Vec::new(),
            trust: "ask".to_owned(),
            enabled: true,
            timeout_s: 60,
        };
        assert(r@.args =~= McpServerV::standard().args);
        assert(r@.env =~= McpServerV::standard().env);
        r
    }
}

pub open spec fn mcp_server_views(v: Seq<McpServer>) -> Seq<McpServerV> {
    Seq::new(v.len(), |i: int| v[i]@)
}

/// The `[bench]` table.
#[derive(Debug)]
pub struct Bench {
    pub eval_dir: String,
}

#[verifier::ext_equal]
pub struct BenchV {
    pub eval_dir: Seq<char>,
}

impl View for Bench {
    type V = BenchV;

    open spec fn view(&self) -> BenchV {
        BenchV {
            eval_dir: self.eval_dir@,
        }
    }
}

impl BenchV {
    /// The default settings.
    pub open spec fn standard() -> BenchV {
        BenchV {
            eval_dir: "eval/tasks"@,
        }
    }
}

impl Default for Bench {
    fn default() -> (r: Self)
        ensures
            r@ == BenchV::standard(),
    {
        let r = Bench {
            eval_dir: "eval/tasks".to_owned(),
        };
        r
    }
}

/// The `[tui]` table.
#[derive(Debug)]
pub struct Tui {
    pub show_reasoning: bool,
    pub render_interval_ms: u64,
    pub max_transcript_blocks: usize,
    pub show_factory: bool,
    pub arcade_port: u16,
    pub arcade_auto_open: bool,
}

impl Tui {
    /// The default settings.
    pub open spec fn standard() -> Tui {
        Tui {
            show_reasoning: true,
            render_interval_ms: 33,
            max_transcript_blocks: 2000,
            show_factory: true,
            arcade_port: 8123,
            arcade_auto_open: false,
        }
    }
}

impl Default for Tui {
    fn default() -> (r: Self)
        ensures
            r == Tui::standard(),
    {
        let r = Tui {
            show_reasoning: true,
            render_interval_ms: 33,
            max_transcript_blocks: 2000,
            show_factory: true,
            arcade_port: 8123,
            arcade_auto_open: false,
        };
        r
    }
}

/// The checks of each file pattern.
pub open spec fn check_lists(v: Seq<(String, Vec<String>)>) -> Seq<(Seq<char>, Seq<Seq<char>>)> {
    Seq::new(v.len(), |i: int| (v[i].0@, strings(v[i].1@)))
}

/// The checks that are made by default.
pub open spec fn standard_checks() -> Seq<(Seq<char>, Seq<Seq<char>>)> {
    seq![
        ("*.rs"@, seq!["cargo check --message-format short"@]),
        ("*.py"@, seq!["ruff check {file}"@]),
        ("*.ts"@, seq!["npx tsc --noEmit -p ."@]),
        ("*.tsx"@, seq!["npx tsc --noEmit -p ."@]),
    ]
}

fn one_check(pattern: &str, command: &str) -> (r: (String, Vec<String>))
    ensures
        r.0@ == pattern@,
        strings(r.1@) == seq![command@],
{
    let v = vec![command.to_owned()];
    assert(strings(v@) =~= seq![command@]);
    (pattern.to_owned(), v)
}

fn default_checks() -> (r: Vec<(String, Vec<String>)>)
    ensures
        check_lists(r@) == standard_checks(),
{
    let r = vec![
        one_check("*.rs", "cargo check --message-format short"),
        one_check("*.py", "ruff check {file}"),
        one_check("*.ts", "npx tsc --noEmit -p ."),
        one_check("*.tsx", "npx tsc --noEmit -p ."),
    ];
    assert(check_lists(r@) =~= standard_checks());
    r
}

/// The whole configuration.
#[derive(Debug)]
pub struct Config {
    pub general: General,
    pub engine: Engine,
    pub profiles: Vec<Profile>,
    pub model_slots: Vec<ModelSlot>,
    pub context: ContextCfg,
    pub codeintel: CodeIntel,
    /// The commands that check an edited file, by its pattern.
    pub verify: Vec<(String, Vec<String>)>,
    pub permissions: Permissions,
    pub mcp_servers: Vec<McpServer>,
    pub bench: Bench,
    pub tui: Tui,
}

#[verifier::ext_equal]
pub struct ConfigV {
    pub general: GeneralV,
    pub engine: EngineV,
    pub profiles: Seq<ProfileV>,
    pub model_slots: Seq<ModelSlotV>,
    pub context: ContextCfgV,
    pub codeintel: CodeIntelV,
    pub verify: Seq<(Seq<char>, Seq<Seq<char>>)>,
    pub permissions: PermissionsV,
    pub mcp_servers: Seq<McpServerV>,
    pub bench: BenchV,
    pub tui: Tui,
}

impl View for Config {
    type V = ConfigV;

    open spec fn view(&self) -> ConfigV {
        ConfigV {
            general: self.general@,
            engine: self.engine@,
            profiles: profile_views(self.profiles@),
            model_slots: model_slot_views(self.model_slots@),
            context: self.context@,
            codeintel: self.codeintel@,
            verify: check_lists(self.verify@),
            permissions: self.permissions@,
            mcp_servers: mcp_server_views(self.mcp_servers@),
            bench: self.bench@,
            tui: self.tui,
        }
    }
}

impl ConfigV {
    /// The default settings.
    pub open spec fn standard() -> ConfigV {
        ConfigV {
            general: GeneralV::standard(),
            engine: EngineV::standard(),
            profiles: builtin_profiles(),
            model_slots: seq![ModelSlotV::standard()],
            context: ContextCfgV::standard(),
            codeintel: CodeIntelV::standard(),
            verify: standard_checks(),
            permissions: PermissionsV::standard(),
            mcp_servers: Seq::empty(),
            bench: BenchV::standard(),
            tui: Tui::standard(),
        }
    }
}

impl Default for Config {
    fn default() -> (r: Self)
        ensures
            r@ == ConfigV::standard(),
    {
        let r = Config {
            general: General::default(),
            engine: Engine::default(),
            profiles: Profile::builtin(),
            model_slots: vec![ModelSlot::default()],
            context: ContextCfg::default(),
            codeintel: CodeIntel::default(),
            verify: default_checks(),
            permissions: Permissions::default(),
            mcp_servers: Vec::new(),
            bench: Bench::default(),
            tui: Tui::default(),
        };
        assert(r@.profiles =~= ConfigV::standard().profiles);
        assert(r@.model_slots =~= ConfigV::standard().model_slots);
        assert(r@.verify =~= ConfigV::standard().verify);
        assert(r@.mcp_servers =~= ConfigV::standard().mcp_servers);
        r
    }
}

/// The profiles that are there from the start.
pub open spec fn builtin_profiles() -> Seq<ProfileV> {
    seq![
        ProfileV {
            name: "qwen38-27b-fast"@,
            model: "unsloth/Qwen3.8-27B-GGUF:Qwen3.8-27B-UD-IQ3_XXS.gguf"@,
            alias: "qwen3.8-27b"@,
            ctx: 61440,
            ctx_min: 61440,
            ..ProfileV::standard()
        },
        ProfileV {
            name: "qwen38-27b-quality"@,
            model: "unsloth/Qwen3.8-27B-GGUF:Qwen3.8-27B-UD-Q3_K_XL.gguf"@,
            alias: "qwen3.8-27b"@,
            ctx: 24576,
            ..ProfileV::standard()
        },
        ProfileV {
            name: "qwen38-27b-q4-local"@,
            model: "Qwen3.8-27B-Q4_K_M.gguf"@,
            alias: "qwen3.8-27b"@,
            ctx: 16384,
            ..ProfileV::standard()
        },
        ProfileV {
            name: "qwen38-27b-rewrite"@,
            model: "unsloth/Qwen3.8-27B-GGUF:Qwen3.8-27B-UD-IQ3_XXS.gguf"@,
            alias: "qwen3.8-27b"@,
            spec: "ngram-simple"@,
            spec_draft_n_max: 64,
            ..ProfileV::standard()
        },
        ProfileV {
            name: "qwen38-flash"@,
            model: "qwen3.8-flash-next"@,
            alias: "qwen3.8-flash-next"@,
            ctx: 65536,
            ctx_min: 32768,
            spec: "none"@,
            ..ProfileV::standard()
        },
        ProfileV {
            name: "gemma4-12b"@,
            model: "gemma-4-12B-it-Q4_K_M.gguf"@,
            alias: "google/gemma-4-12b"@,
            ctx: 32768,
            ctx_min: 16384,
            spec: "none"@,
            reasoning_format: "none"@,
            ..ProfileV::standard()
        },
        ProfileV {
            name: "lmstudio"@,
            model: "qwen3.8-flash-next"@,
            alias: "qwen3.8-flash-next"@,
            provider: Some(EngineProvider::External),
            endpoint: "http://127.0.0.1:1234/v1"@,
            ctx: 32768,
            ctx_min: 16384,
            spec: "none"@,
            ..ProfileV::standard()
        },
    ]
}

impl Profile {
    /// The profiles that are there from the start.
    pub fn builtin() -> (r: Vec<Profile>)
        ensures
            profile_views(r@) == builtin_profiles(),
    {
        let r = vec![
            Profile {
                name: "qwen38-27b-fast".to_owned(),
                model: "unsloth/Qwen3.8-27B-GGUF:Qwen3.8-27B-UD-IQ3_XXS.gguf".to_owned(),
                alias: "qwen3.8-27b".to_owned(),
                ctx: 61440,
                ctx_min: 61440,
                ..Profile::default()
            },
            Profile {
                name: "qwen38-27b-quality".to_owned(),
                model: "unsloth/Qwen3.8-27B-GGUF:Qwen3.8-27B-UD-Q3_K_XL.gguf".to_owned(),
                alias: "qwen3.8-27b".to_owned(),
                ctx: 24576,
                ..Profile::default()
            },
            Profile {
                name: "qwen38-27b-q4-local".to_owned(),
                model: "Qwen3.8-27B-Q4_K_M.gguf".to_owned(),
                alias: "qwen3.8-27b".to_owned(),
                ctx: 16384,
                ..Profile::default()
            },
            Profile {
                name: "qwen38-27b-rewrite".to_owned(),
                model: "unsloth/Qwen3.8-27B-GGUF:Qwen3.8-27B-UD-IQ3_XXS.gguf".to_owned(),
                alias: "qwen3.8-27b".to_owned(),
                spec: "ngram-simple".to_owned(),
                spec_draft_n_max: 64,
                ..Profile::default()
            },
            Profile {
                name: "qwen38-flash".to_owned(),
                model: "qwen3.8-flash-next".to_owned(),
                alias: "qwen3.8-flash-next".to_owned(),
                ctx: 65536,
                ctx_min: 32768,
                spec: "none".to_owned(),
                ..Profile::default()
            },
            Profile {
                name: "gemma4-12b".to_owned(),
                model: "gemma-4-12B-it-Q4_K_M.gguf".to_owned(),
                alias: "google/gemma-4-12b".to_owned(),
                ctx: 32768,
                ctx_min: 16384,
                spec: "none".to_owned(),
                reasoning_format: "none".to_owned(),
                ..Profile::default()
            },
            Profile {
                name: "lmstudio".to_owned(),
                model: "qwen3.8-flash-next".to_owned(),
                alias: "qwen3.8-flash-next".to_owned(),
                provider: Some(EngineProvider::External),
                endpoint: "http://127.0.0.1:1234/v1".to_owned(),
                ctx: 32768,
                ctx_min: 16384,
                spec: "none".to_owned(),
                ..Profile::default()
            },
        ];
        assert(profile_views(r@) =~= builtin_profiles());
        r
    }
}

// ---------------------------------------------------------------- what follows from them

impl EngineV {
    pub open spec fn base_url(self) -> Seq<char> {
        if self.provider == EngineProvider::External && self.external_url.len() > 0 {
            without_slashes(self.external_url)
        } else {
            "http://"@ + self.host + ":"@ + dec(self.port as nat)
        }
    }

    /// The key that is sent: the one that is set, else that of the environment.
    pub open spec fn api_key_in(self, env: SurroundingsV) -> Option<Seq<char>> {
        if trimmed(self.api_key).len() > 0 {
            Some(trimmed(self.api_key))
        } else {
            let found = match env.var("BUZZCODE_API_KEY"@) {
                Some(k) => Some(k),
                None => env.var("OPENAI_API_KEY"@),
            };
            match found {
                Some(k) => if trimmed(k).len() > 0 {
                    Some(k)
                } else {
                    None
                },
                None => None,
            }
        }
    }
}

/// The text without slashes at its end.
pub open spec fn without_slashes(s: Seq<char>) -> Seq<char>
    decreases s.len(),
{
    if s.len() > 0 && s.last() == '/' {
        without_slashes(s.drop_last())
    } else {
        s
    }
}

pub fn trim_slashes(s: &str) -> (r: String)
    ensures
        r@ == without_slashes(s@),
{
    let cs = chars_of(s);
    let mut n: usize = cs.len();
    assert(cs@.take(n as int) =~= cs@);
    while n > 0 && cs[n - 1] == '/'
        invariant
            n <= cs.len(),
            without_slashes(cs@) == without_slashes(cs@.take(n as int)),
        decreases n,
    {
        assert(cs@.take(n as int).drop_last() =~= cs@.take(n - 1));
        n -= 1;
    }
    assert(n > 0 ==> cs@.take(n as int).last() == cs@[n - 1]);
    let r = string_of_range(&cs, 0, n);
    assert(r@ =~= cs@.take(n as int));
    r
}

/// Path texts, each with the home directory and the variables put in.
pub open spec fn all_expanded(v: Seq<Seq<char>>, env: SurroundingsV) -> Seq<Seq<char>> {
    Seq::new(v.len(), |i: int| expanded(v[i], env))
}

impl Engine {
    pub fn models_dir_path(&self, env: &Surroundings) -> (r: String)
        ensures
            r@ == expanded(self.models_dir@, env@),
    {
        expand_path(self.models_dir.as_str(), env)
    }

    pub fn extra_search_paths(&self, env: &Surroundings) -> (r: Vec<String>)
        ensures
            strings(r@) == all_expanded(strings(self.extra_search_dirs@), env@),
    {
        let mut out: Vec<String> = Vec::new();
        let mut i: usize = 0;
        let ghost want = all_expanded(strings(self.extra_search_dirs@), env@);
        while i < self.extra_search_dirs.len()
            invariant
                i <= self.extra_search_dirs.len(),
                want == all_expanded(strings(self.extra_search_dirs@), env@),
                strings(out@) == want.take(i as int),
            decreases self.extra_search_dirs.len() - i,
        {
            let ghost b = out@;
            let p = expand_path(self.extra_search_dirs[i].as_str(), env);
            out.push(p);
            assert(strings(out@) =~= strings(b).push(want[i as int]));
            i += 1;
        }
        assert(strings(out@) =~= want);
        out
    }

    /// The address of the engine.
    pub fn base_url(&self) -> (r: String)
        ensures
            r@ == self@.base_url(),
    {
        if self.provider == EngineProvider::External && !self.external_url.as_str().is_empty() {
            trim_slashes(self.external_url.as_str())
        } else {
            "http://".to_owned().concat(self.host.as_str()).concat(":").concat(dec_u64(self.port as u64).as_str())
        }
    }

    pub fn resolved_api_key(&self, env: &Surroundings) -> (r: Option<String>)
        ensures
            opt_string(r) == self@.api_key_in(env@),
    {
        let own = trim_str(self.api_key.as_str());
        if !own.as_str().is_empty() {
            return Some(own);
        }
        let found = match env.var("BUZZCODE_API_KEY") {
            Some(k) => Some(k),
            None => env.var("OPENAI_API_KEY"),
        };
        match found {
            Some(k) => if trim_str(k).as_str().is_empty() {
                None
            } else {
                Some(k.to_owned())
            },
            None => None,
        }
    }
}

impl ProfileV {
    pub open spec fn filled(self) -> ProfileV {
        ProfileV {
            alias: if self.alias.len() == 0 {
                self.name
            } else {
                self.alias
            },
            ctx_min: if self.ctx_min > self.ctx {
                self.ctx
            } else {
                self.ctx_min
            },
            ..self
        }
    }

    /// Whether the model runs on a server of its own.
    pub open spec fn external(self, engine: EngineV) -> bool {
        ||| self.provider == Some(EngineProvider::External)
        ||| engine.provider == EngineProvider::External
        ||| self.name == "lmstudio"@
        ||| self.name == "ollama"@
        ||| self.endpoint.len() > 0
    }

    pub open spec fn url(self, engine: EngineV) -> Seq<char> {
        let outside = self.provider == Some(EngineProvider::External);
        if self.endpoint.len() > 0 {
            self.endpoint
        } else if (self.name == "lmstudio"@ || (outside && holds(self.alias, "lmstudio"@)))
            && engine.external_url.len() == 0 {
            "http://127.0.0.1:1234/v1"@
        } else if (self.name == "ollama"@ || begins(self.name, "ollama-"@) || outside) && engine.external_url.len()
            == 0 {
            "http://127.0.0.1:11434/v1"@
        } else {
            engine.base_url()
        }
    }

    /// The name under which the model is asked for.
    pub open spec fn asked_model(self) -> Seq<char> {
        if self.alias.len() > 0 {
            self.alias
        } else if self.model.len() > 0 && !ends(self.model, ".gguf"@) && !self.model.contains('/')
            && !self.model.contains('\\') {
            self.model
        } else {
            self.name
        }
    }
}

impl Profile {
    fn fill_defaults(&mut self)
        ensures
            final(self)@ == old(self)@.filled(),
    {
        if self.alias.as_str().is_empty() {
            self.alias = self.name.clone();
        }
        if self.ctx_min > self.ctx {
            self.ctx_min = self.ctx;
        }
    }

    pub fn is_external(&self, engine: &Engine) -> (r: bool)
        ensures
            r == self@.external(engine@),
    {
        self.outside() || engine.provider == EngineProvider::External || str_eq(self.name.as_str(), "lmstudio")
            || str_eq(self.name.as_str(), "ollama") || !self.endpoint.as_str().is_empty()
    }

    fn outside(&self) -> (r: bool)
        ensures
            r == (self@.provider == Some(EngineProvider::External)),
    {
        match self.provider {
            Some(EngineProvider::External) => true,
            _ => false,
        }
    }

    /// The address at which the model is asked.
    pub fn base_url(&self, engine: &Engine) -> (r: String)
        ensures
            r@ == self@.url(engine@),
    {
        if !self.endpoint.as_str().is_empty() {
            return self.endpoint.clone();
        }
        let outside = self.outside();
        let unset = engine.external_url.as_str().is_empty();
        let name = self.name.as_str();
        if (str_eq(name, "lmstudio") || (outside && contains(self.alias.as_str(), "lmstudio"))) && unset {
            return "http://127.0.0.1:1234/v1".to_owned();
        }
        if (str_eq(name, "ollama") || starts_with(name, "ollama-") || outside) && unset {
            return "http://127.0.0.1:11434/v1".to_owned();
        }
        engine.base_url()
    }

    pub fn resolved_api_key(&self, engine: &Engine, env: &Surroundings) -> (r: Option<String>)
        ensures
            opt_string(r) == if self.api_key@.len() > 0 {
                Some(self.api_key@)
            } else {
                engine@.api_key_in(env@)
            },
    {
        if !self.api_key.as_str().is_empty() {
            return Some(self.api_key.clone());
        }
        engine.resolved_api_key(env)
    }

    pub fn request_model(&self) -> (r: String)
        ensures
            r@ == self@.asked_model(),
    {
        if !self.alias.as_str().is_empty() {
            return self.alias.clone();
        }
        let cs = chars_of(self.model.as_str());
        let slash = find_char(&cs, '/', 0).is_some() || find_char(&cs, '\\', 0).is_some();
        proof {
            lemma_contains_char(cs@, '/');
            lemma_contains_char(cs@, '\\');
        }
        if !self.model.as_str().is_empty() && !ends_with(self.model.as_str(), ".gguf") && !slash {
            self.model.clone()
        } else {
            self.name.clone()
        }
    }

    /// Whether the number of layers on the GPU is left to the planner.
    pub fn ngl_auto(&self) -> (r: bool)
        ensures
            r == alike(self.ngl@, "auto"@),
    {
        eq_ignore_case(self.ngl.as_str(), "auto")
    }

    pub fn ngl_value(&self) -> (r: Option<u32>)
        ensures
            match r {
                Some(n) => number(self.ngl@, 0xffff_ffff) == Some(n as nat),
                None => number(self.ngl@, 0xffff_ffff) is None,
            },
    {
        match parse_number(&chars_of(self.ngl.as_str()), 0xffff_ffff) {
            Some(n) => Some(n as u32),
            None => None,
        }
    }
}

proof fn lemma_contains_char(s: Seq<char>, c: char)
    ensures
        char_from(s, c, 0) is Some <==> s.contains(c),
{
    lemma_char_found(s, c, 0);
    if char_from(s, c, 0) is None && s.contains(c) {
        let i = choose|i: int| 0 <= i < s.len() && s[i] == c;
        assert(s[i] != c);
    }
}

proof fn lemma_char_found(s: Seq<char>, c: char, i: int)
    requires
        0 <= i,
    ensures
        match char_from(s, c, i) {
            Some(k) => i <= k < s.len() && s[k] == c,
            None => forall|j: int| i <= j < s.len() ==> (#[trigger] s[j]) != c,
        },
    decreases s.len() - i,
{
    if i < s.len() && s[i] != c {
        lemma_char_found(s, c, i + 1);
    }
}

/// Why a configuration is refused.
#[derive(Debug, PartialEq, Eq)]
pub enum ConfigError {
    NoProfile,
    UnknownDefault(String),
}

impl ConfigError {
    pub fn to_string(&self) -> (r: String)
        ensures
            r@ == (match self {
                ConfigError::NoProfile => "no [[profile]] defined"@,
                ConfigError::UnknownDefault(n) => "general.default_profile = "@ + debug_text(n@)
                    + " does not match any [[profile]].name"@,
            }),
    {
        match self {
            ConfigError::NoProfile => "no [[profile]] defined".to_owned(),
            ConfigError::UnknownDefault(n) => "general.default_profile = ".to_owned().concat(
                quoted(n.as_str()).as_str(),
            ).concat(" does not match any [[profile]].name"
            ),
        }
    }
}

/// The first profile, from `i` on, with the given name.
pub open spec fn profile_from(v: Seq<ProfileV>, name: Seq<char>, i: int) -> Option<int>
    decreases v.len() - i,
{
    if i < 0 || i >= v.len() {
        None
    } else if v[i].name == name {
        Some(i)
    } else {
        profile_from(v, name, i + 1)
    }
}

/// The first slot, from `i` on, that is enabled and is for the second model.
pub open spec fn secondary_from(v: Seq<ModelSlotV>, i: int) -> Option<ModelSlotV>
    decreases v.len() - i,
{
    if i < 0 || i >= v.len() {
        None
    } else if v[i].enabled && v[i].role == "secondary"@ {
        Some(v[i])
    } else {
        secondary_from(v, i + 1)
    }
}

impl ConfigV {
    pub open spec fn profile(self, name: Seq<char>) -> Option<ProfileV> {
        match profile_from(self.profiles, name, 0) {
            Some(i) => Some(self.profiles[i]),
            None => None,
        }
    }

    /// Whether the default profile is there.
    pub open spec fn settled(self) -> bool {
        self.profile(self.general.default_profile) is Some
    }
}

impl Config {
    fn find_profile(&self, name: &str) -> (r: Option<usize>)
        ensures
            match r {
                Some(i) => i < self.profiles.len() && profile_from(self@.profiles, name@, 0) == Some(i as int),
                None => profile_from(self@.profiles, name@, 0) is None,
            },
    {
        let ghost pv = profile_views(self.profiles@);
        let mut i: usize = 0;
        while i < self.profiles.len()
            invariant
                i <= self.profiles.len(),
                pv == profile_views(self.profiles@),
                profile_from(pv, name@, 0) == profile_from(pv, name@, i as int),
            decreases self.profiles.len() - i,
        {
            assert(pv[i as int] == self.profiles@[i as int]@);
            if str_eq(self.profiles[i].name.as_str(), name) {
                return Some(i);
            }
            i += 1;
        }
        None
    }

    /// Checks the profiles and completes them.
    pub fn finalize(&mut self) -> (r: Result<(), ConfigError>)
        ensures
            match r {
                Ok(_) => old(self)@.settled() && final(self)@ == (ConfigV {
                    profiles: Seq::new(old(self)@.profiles.len(), |i: int| old(self)@.profiles[i].filled()),
                    ..old(self)@
                }),
                Err(ConfigError::NoProfile) => old(self)@.profiles.len() == 0 && *final(self) == *old(self),
                Err(ConfigError::UnknownDefault(n)) => old(self)@.profiles.len() > 0 && !old(self)@.settled() && n@
                    == old(self)@.general.default_profile && *final(self) == *old(self),
            },
    {
        if self.profiles.len() == 0 {
            return Err(ConfigError::NoProfile);
        }
        if self.find_profile(self.general.default_profile.as_str()).is_none() {
            return Err(ConfigError::UnknownDefault(self.general.default_profile.clone()));
        }
        let ghost start = self@;
        let mut i: usize = 0;
        while i < self.profiles.len()
            invariant
                i <= self.profiles.len(),
                self.profiles.len() == start.profiles.len(),
                self@ == (ConfigV {
                    profiles: Seq::new(
                        start.profiles.len(),
                        |k: int|
                            if k < i {
                                start.profiles[k].filled()
                            } else {
                                start.profiles[k]
                            },
                    ),
                    ..start
                }),
            decreases self.profiles.len() - i,
        {
            assert(self@.profiles[i as int] == self.profiles@[i as int]@);
            let ghost before = self@.profiles;
            let mut p = self.profiles[i].copy();
            p.fill_defaults();
            self.profiles.set(i, p);
            assert(self@.profiles =~= before.update(i as int, p@));
            assert(self@.profiles =~= Seq::new(
                start.profiles.len(),
                |k: int|
                    if k < i + 1 {
                        start.profiles[k].filled()
                    } else {
                        start.profiles[k]
                    },
            ));
            i += 1;
        }
        assert(self@.profiles =~= Seq::new(start.profiles.len(), |k: int| start.profiles[k].filled()));
        Ok(())
    }

    pub fn profile(&self, name: &str) -> (r: Option<&Profile>)
        ensures
            match r {
                Some(p) => self@.profile(name@) == Some(p@),
                None => self@.profile(name@) is None,
            },
    {
        match self.find_profile(name) {
            Some(i) => Some(&self.profiles[i]),
            None => None,
        }
    }

    /// The default profile.
    pub fn active_profile(&self) -> (r: &Profile)
        requires
            self@.settled(),
        ensures
            self@.profile(self@.general.default_profile) == Some(r@),
    {
        match self.find_profile(self.general.default_profile.as_str()) {
            Some(i) => &self.profiles[i],
            None => {
                assert(false);
                &self.profiles[0]
            },
        }
    }

    pub fn secondary_slot(&self) -> (r: Option<&ModelSlot>)
        ensures
            match r {
                Some(s) => secondary_from(self@.model_slots, 0) == Some(s@),
                None => secondary_from(self@.model_slots, 0) is None,
            },
    {
        let ghost sv = model_slot_views(self.model_slots@);
        let mut i: usize = 0;
        while i < self.model_slots.len()
            invariant
                i <= self.model_slots.len(),
                sv == model_slot_views(self.model_slots@),
                secondary_from(sv, 0) == secondary_from(sv, i as int),
            decreases self.model_slots.len() - i,
        {
            assert(sv[i as int] == self.model_slots@[i as int]@);
            if self.model_slots[i].enabled && str_eq(self.model_slots[i].role.as_str(), "secondary") {
                return Some(&self.model_slots[i]);
            }
            i += 1;
        }
        None
    }
}

/// The defaults are complete: their default profile is there.
pub proof fn law_defaults_are_settled()
    ensures
        ConfigV::standard().settled(),
{
    assert(builtin_profiles()[0].name == "qwen38-27b-fast"@);
}

proof fn lemma_profile_from_filled(v: Seq<ProfileV>, name: Seq<char>, i: int)
    requires
        0 <= i,
    ensures
        profile_from(Seq::new(v.len(), |k: int| v[k].filled()), name, i) == profile_from(v, name, i),
    decreases v.len() - i,
{
    if i < v.len() && v[i].name != name {
        lemma_profile_from_filled(v, name, i + 1);
    }
}

/// A configuration that was completed once is not changed by completing it again, and
/// its default profile is there.
pub proof fn law_finalize_is_stable(c: ConfigV)
    requires
        c.settled(),
    ensures
        ({
            let f = ConfigV { profiles: Seq::new(c.profiles.len(), |i: int| c.profiles[i].filled()), ..c };
            f.settled() && Seq::new(f.profiles.len(), |i: int| f.profiles[i].filled()) == f.profiles
        }),
{
    let f = ConfigV { profiles: Seq::new(c.profiles.len(), |i: int| c.profiles[i].filled()), ..c };
    lemma_profile_from_filled(c.profiles, c.general.default_profile, 0);
    assert(Seq::new(f.profiles.len(), |i: int| f.profiles[i].filled()) =~= f.profiles);
}

/// A profile is found under its name: the first of those that have it.
pub proof fn law_a_profile_is_found_by_name(c: ConfigV, name: Seq<char>)
    ensures
        match c.profile(name) {
            Some(p) => p.name == name && exists|i: int|
                0 <= i < c.profiles.len() && #[trigger] c.profiles[i] == p && forall|j: int|
                    0 <= j < i ==> (#[trigger] c.profiles[j]).name != name,
            None => forall|j: int| 0 <= j < c.profiles.len() ==> (#[trigger] c.profiles[j]).name != name,
        },
{
    lemma_profile_from(c.profiles, name, 0);
    if let Some(i) = profile_from(c.profiles, name, 0) {
        assert(c.profiles[i] == c.profile(name)->Some_0);
    }
}

pub proof fn lemma_profile_from(v: Seq<ProfileV>, name: Seq<char>, i: int)
    requires
        0 <= i,
    ensures
        match profile_from(v, name, i) {
            Some(k) => i <= k < v.len() && v[k].name == name && forall|j: int|
                i <= j < k ==> (#[trigger] v[j]).name != name,
            None => forall|j: int| i <= j < v.len() ==> (#[trigger] v[j]).name != name,
        },
    decreases v.len() - i,
{
    if i < v.len() && v[i].name != name {
        lemma_profile_from(v, name, i + 1);
    }
}

/// A profile is filled up: without an alias it goes by its name, and its least context is no
/// larger than its context. Nothing else is changed, and nothing at all where that holds.
pub proof fn law_a_profile_is_filled_up(p: ProfileV)
    ensures
        p.filled().alias.len() > 0 || p.name.len() == 0,
        p.alias.len() > 0 ==> p.filled().alias == p.alias,
        p.alias.len() == 0 ==> p.filled().alias == p.name,
        p.filled().ctx_min <= p.filled().ctx,
        p.filled().ctx == p.ctx,
        p.ctx_min <= p.ctx ==> p.filled().ctx_min == p.ctx_min,
        p.ctx_min > p.ctx ==> p.filled().ctx_min == p.ctx,
        p.filled().model == p.model,
        p.filled().name == p.name,
{
}

/// The engine is asked at its endpoint where one is given; LM Studio and Ollama at their own
/// ports where no address is given; an external engine at its address, without slashes at its
/// end; any other at its host and port.
pub proof fn law_where_the_engine_is_asked(p: ProfileV, e: EngineV)
    ensures
        p.endpoint.len() > 0 ==> p.url(e) == p.endpoint,
        p.endpoint.len() == 0 && e.external_url.len() == 0 && p.name == "lmstudio"@ ==> p.url(e)
            == "http://127.0.0.1:1234/v1"@,
        p.endpoint.len() == 0 && e.external_url.len() == 0 && p.name == "ollama"@ && !holds(p.alias, "lmstudio"@) ==> p.url(
            e,
        ) == "http://127.0.0.1:11434/v1"@,
        p.endpoint.len() == 0 && e.external_url.len() > 0 ==> p.url(e) == e.base_url(),
        e.provider != EngineProvider::External ==> e.base_url() == "http://"@ + e.host + ":"@ + dec(e.port as nat),
        e.external_url.len() == 0 ==> e.base_url() == "http://"@ + e.host + ":"@ + dec(e.port as nat),
        e.provider == EngineProvider::External && e.external_url.len() > 0 && e.external_url.last() != '/' ==> e.base_url()
            == e.external_url,
        e.provider == EngineProvider::External && e.external_url.len() > 0 ==> (e.base_url().len() == 0
            || e.base_url().last() != '/') && e.external_url.take(e.base_url().len() as int) == e.base_url() && (forall|
            i: int,
        |
            e.base_url().len() <= i < e.external_url.len() ==> #[trigger] e.external_url[i] == '/'),
{
    lemma_without_slashes(e.external_url);
    reveal_strlit("lmstudio");
    reveal_strlit("ollama");
    reveal_strlit("ollama-");
    assert("lmstudio"@.len() == 8 && "ollama"@.len() == 6);
}

proof fn lemma_without_slashes(s: Seq<char>)
    ensures
        ({
            let r = without_slashes(s);
            &&& r.len() <= s.len()
            &&& s.take(r.len() as int) == r
            &&& r.len() == 0 || r.last() != '/'
            &&& forall|i: int| r.len() <= i < s.len() ==> #[trigger] s[i] == '/'
            &&& s.len() > 0 && s.last() != '/' ==> r == s
        }),
    decreases s.len(),
{
    if s.len() > 0 && s.last() == '/' {
        let d = s.drop_last();
        lemma_without_slashes(d);
        let r = without_slashes(d);
        assert(s.take(r.len() as int) =~= d.take(r.len() as int));
        assert forall|i: int| r.len() <= i < s.len() implies #[trigger] s[i] == '/' by {
            if i < d.len() {
                assert(d[i] == s[i]);
            }
        }
    } else {
        assert(s.take(s.len() as int) =~= s);
    }
}

/// The model is asked for under its alias; without one under the name that it has, unless that is
/// a file; else under the name of the profile.
pub proof fn law_how_the_model_is_asked_for(p: ProfileV)
    ensures
        p.alias.len() > 0 ==> p.asked_model() == p.alias,
        p.alias.len() == 0 && (p.model.len() == 0 || ends(p.model, ".gguf"@) || p.model.contains('/') || p.model.contains(
            '\\',
        )) ==> p.asked_model() == p.name,
        p.alias.len() == 0 && p.model.len() > 0 && !ends(p.model, ".gguf"@) && !p.model.contains('/')
            && !p.model.contains('\\') ==> p.asked_model() == p.model,
        p.filled().name.len() > 0 ==> p.filled().asked_model() == p.filled().alias,
{
}

/// The key that is set is sent; without one that of the environment, this program's before the
/// common one; and none where that is blank.
pub proof fn law_the_key_that_is_sent(e: EngineV, env: SurroundingsV)
    ensures
        trimmed(e.api_key).len() > 0 ==> e.api_key_in(env) == Some(trimmed(e.api_key)),
        trimmed(e.api_key).len() == 0 ==> (env.var("BUZZCODE_API_KEY"@) matches Some(k) ==> (trimmed(k).len() > 0
            ==> e.api_key_in(env) == Some(k)) && (trimmed(k).len() == 0 ==> e.api_key_in(env) is None)),
        trimmed(e.api_key).len() == 0 && env.var("BUZZCODE_API_KEY"@) is None ==> (env.var(
            "OPENAI_API_KEY"@,
        ) matches Some(k) ==> (trimmed(k).len() > 0 ==> e.api_key_in(env) == Some(k))),
        trimmed(e.api_key).len() == 0 && env.var("BUZZCODE_API_KEY"@) is None && env.var("OPENAI_API_KEY"@) is None
            ==> e.api_key_in(env) is None,
{
}

/// The second model is the first that is enabled for that role.
pub proof fn law_the_second_model(v: Seq<ModelSlotV>, from: int, i: int)
    requires
        0 <= from <= i < v.len(),
        v[i].enabled,
        v[i].role == "secondary"@,
        forall|j: int| from <= j < i ==> !((#[trigger] v[j]).enabled && v[j].role == "secondary"@),
    ensures
        secondary_from(v, from) == Some(v[i]),
    decreases i - from,
{
    if from < i {
        assert(!(v[from].enabled && v[from].role == "secondary"@));
        law_the_second_model(v, from + 1, i);
    }
}

/// A model runs elsewhere where its profile or the engine says so, where its profile is that of LM
/// Studio or of Ollama, or where it has an endpoint; and nowhere else.
pub proof fn law_what_runs_elsewhere(p: ProfileV, e: EngineV)
    ensures
        e.provider == EngineProvider::External ==> p.external(e),
        p.provider == Some(EngineProvider::External) ==> p.external(e),
        p.endpoint.len() > 0 ==> p.external(e),
        p.name == "lmstudio"@ || p.name == "ollama"@ ==> p.external(e),
        p.external(e) ==> e.provider == EngineProvider::External || p.provider == Some(EngineProvider::External)
            || p.endpoint.len() > 0 || p.name == "lmstudio"@ || p.name == "ollama"@,
{
}

} // verus!
