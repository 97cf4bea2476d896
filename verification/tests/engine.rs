//! The engine: model files, memory plans, addresses.

use buzzcode::download::shard_names;
use buzzcode::facts::ModelFacts;
use buzzcode::gguf::TensorInfo;
use buzzcode::sentinel::{resolve_pipe, DEFAULT_PIPE};
use buzzcode::vram::{ffn_override_regex, PlanOpts, PlanPrefs, VramPlanner, MIB};

#[test]
fn shards() {
    let v = shard_names("Qwen3.8-27B-UD-Q4_K_XL-00001-of-00002.gguf");
    assert_eq!(v, vec!["Qwen3.8-27B-UD-Q4_K_XL-00001-of-00002.gguf", "Qwen3.8-27B-UD-Q4_K_XL-00002-of-00002.gguf"]);
    assert_eq!(shard_names("x.gguf"), vec!["x.gguf"]);
}

#[test]
fn q4k_bytes() {
    let t = TensorInfo { name: "blk.0.ffn_up.weight".into(), dims: vec![256, 2], ggml_type: 12, offset: 0 };
    assert_eq!(t.n_bytes(), 2 * 144);
    assert_eq!(t.block_index(), Some(0));
}

#[test]
fn pipe_path_defaults_and_honours_the_env_override() {
    assert_eq!(resolve_pipe(None), DEFAULT_PIPE);
    assert_eq!(resolve_pipe(Some("   ")), DEFAULT_PIPE);
    assert_eq!(resolve_pipe(Some(r"\\.\pipe\SentinelDev")), r"\\.\pipe\SentinelDev");
}

fn fake_facts(layers: u32, per_layer_bytes: u64) -> ModelFacts {
    ModelFacts {
        path: "x.gguf".into(), name: "t".into(), arch: "qwen3next".into(), quant: "Q3".into(),
        n_layer: layers, n_embd: 4096, n_head: 32, n_head_kv: 4, head_dim: 128, value_dim: 128,
        n_attn_layers: layers / 4, n_recurrent_layers: layers - layers / 4, is_attn: vec![],
        n_ctx_train: 262144, n_vocab: 150_000, has_mtp: true, mtp_bytes: 200 * MIB,
        layer_bytes: vec![per_layer_bytes; layers as usize],
        layer_ffn_bytes: vec![per_layer_bytes * 7 / 10; layers as usize],
        nonlayer_bytes: 900 * MIB, total_bytes: per_layer_bytes * layers as u64 + 900 * MIB, file_size: 0,
        recurrent_state_bytes_per_seq: 100 * MIB, chat_template: None, n_params: 27_000_000_000,
        expert_count: 0, expert_used_count: 0,
    }
}

#[test]
fn fits_all_on_gpu() {
    let f = fake_facts(64, 140 * MIB);
    let p = VramPlanner { facts: &f, free_vram: 13_700 * MIB, total_vram: 16_311 * MIB, free_ram: 20 << 30 };
    let plan = p.plan(
        &PlanPrefs { pref_ctx: 32768, min_ctx: 16384, allow_offload: true, fixed_ngl: None, fixed_ot: None },
        &PlanOpts::default(),
    );
    assert_eq!(plan.ngl, 65);
    assert_eq!(plan.n_ctx, 32768);
    assert!(plan.override_tensor.is_none());
}

#[test]
fn offloads_when_too_big() {
    let f = fake_facts(64, 250 * MIB);
    let p = VramPlanner { facts: &f, free_vram: 13_700 * MIB, total_vram: 16_311 * MIB, free_ram: 20 << 30 };
    let plan = p.plan(
        &PlanPrefs { pref_ctx: 32768, min_ctx: 16384, allow_offload: true, fixed_ngl: None, fixed_ot: None },
        &PlanOpts::default(),
    );
    assert!(plan.override_tensor.is_some() || plan.ngl < 65, "{}", plan.rationale);
    assert!(plan.est_vram_bytes <= 13_700 * MIB);
}

#[test]
fn regex_shape() {
    assert_eq!(ffn_override_regex(64, 2), r"blk\.(62|63)\.ffn_.*=CPU");
}
