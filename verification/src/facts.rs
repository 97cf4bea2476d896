//! What the planner and the harness need to know of a model, derived from its GGUF
//! header.

use crate::gguf::{GgufFile, GgufV, MetaV, TensorInfo, TensorV, file_type_name, meta, metas, quant_name};
use crate::message::{at_most, opt_string};
use crate::pathname::{base_name, file_name};
use crate::text::{
    begins, char_from, contains, dec, dec_u128, dec_u64, holds, is_digit, law_decimal_is_read_back,
    pad_zeros, padded,
};
use vstd::prelude::*;
use vstd::string::*;

verus! {

#[derive(Debug)]
pub struct ModelFacts {
    pub path: String,
    pub name: String,
    pub arch: String,
    pub quant: String,
    pub n_layer: u32,
    pub n_embd: u32,
    pub n_head: u32,
    pub n_head_kv: u32,
    pub head_dim: u32,
    pub value_dim: u32,
    pub n_attn_layers: u32,
    pub n_recurrent_layers: u32,
    pub is_attn: Vec<bool>,
    pub n_ctx_train: u32,
    pub n_vocab: u32,
    pub has_mtp: bool,
    pub mtp_bytes: u64,
    pub layer_bytes: Vec<u64>,
    pub layer_ffn_bytes: Vec<u64>,
    pub nonlayer_bytes: u64,
    pub total_bytes: u64,
    pub file_size: u64,
    pub recurrent_state_bytes_per_seq: u64,
    pub chat_template: Option<String>,
    /// The number of parameters, without those of the prediction head.
    pub n_params: u64,
    pub expert_count: u32,
    pub expert_used_count: u32,
}

#[verifier::ext_equal]
pub struct FactsV {
    pub path: Seq<char>,
    pub name: Seq<char>,
    pub arch: Seq<char>,
    pub quant: Seq<char>,
    pub n_layer: u32,
    pub n_embd: u32,
    pub n_head: u32,
    pub n_head_kv: u32,
    pub head_dim: u32,
    pub value_dim: u32,
    pub n_attn_layers: u32,
    pub n_recurrent_layers: u32,
    pub is_attn: Seq<bool>,
    pub n_ctx_train: u32,
    pub n_vocab: u32,
    pub has_mtp: bool,
    pub mtp_bytes: u64,
    pub layer_bytes: Seq<u64>,
    pub layer_ffn_bytes: Seq<u64>,
    pub nonlayer_bytes: u64,
    pub total_bytes: u64,
    pub file_size: u64,
    pub recurrent_state_bytes_per_seq: u64,
    pub chat_template: Option<Seq<char>>,
    pub n_params: u64,
    pub expert_count: u32,
    pub expert_used_count: u32,
}

impl View for ModelFacts {
    type V = FactsV;

    open spec fn view(&self) -> FactsV {
        FactsV {
            path: self.path@,
            name: self.name@,
            arch: self.arch@,
            quant: self.quant@,
            n_layer: self.n_layer,
            n_embd: self.n_embd,
            n_head: self.n_head,
            n_head_kv: self.n_head_kv,
            head_dim: self.head_dim,
            value_dim: self.value_dim,
            n_attn_layers: self.n_attn_layers,
            n_recurrent_layers: self.n_recurrent_layers,
            is_attn: self.is_attn@,
            n_ctx_train: self.n_ctx_train,
            n_vocab: self.n_vocab,
            has_mtp: self.has_mtp,
            mtp_bytes: self.mtp_bytes,
            layer_bytes: self.layer_bytes@,
            layer_ffn_bytes: self.layer_ffn_bytes@,
            nonlayer_bytes: self.nonlayer_bytes,
            total_bytes: self.total_bytes,
            file_size: self.file_size,
            recurrent_state_bytes_per_seq: self.recurrent_state_bytes_per_seq,
            chat_template: opt_string(self.chat_template),
            n_params: self.n_params,
            expert_count: self.expert_count,
            expert_used_count: self.expert_used_count,
        }
    }
}

// ---------------------------------------------------------------- tensors by layer

/// The number of a metadata entry, or a default.
pub open spec fn or_else(v: Option<u64>, d: u64) -> u64 {
    match v {
        Some(x) => x,
        None => d,
    }
}

/// The sum of a measure over the first `n` tensors.
pub open spec fn total(ts: Seq<TensorV>, n: nat, w: spec_fn(TensorV) -> nat) -> nat
    decreases n,
{
    if n == 0 || n > ts.len() {
        0
    } else {
        total(ts, (n - 1) as nat, w) + w(ts[n - 1])
    }
}

/// One of the first `n` tensors passes a test.
pub open spec fn some_tensor(ts: Seq<TensorV>, n: nat, p: spec_fn(TensorV) -> bool) -> bool
    decreases n,
{
    n > 0 && n <= ts.len() && (some_tensor(ts, (n - 1) as nat, p) || p(ts[n - 1]))
}

/// Blocks: the first `n_layer` are the layers of the model, those from there up to
/// `n_total` belong to the prediction head.
pub struct Blocks {
    pub n_layer: nat,
    pub n_total: nat,
}

/// The tensor belongs to the prediction head, by its name or by its block.
pub open spec fn is_mtp(t: TensorV, k: Blocks) -> bool {
    holds(t.name, "nextn"@) || holds(t.name, "mtp"@) || (t.block() matches Some(b) && k.n_layer <= b < k.n_total)
}

/// The layer of a tensor.
pub open spec fn layer_of(t: TensorV, k: Blocks) -> Option<nat> {
    if is_mtp(t, k) {
        None
    } else {
        match t.block() {
            Some(b) => if b < k.n_layer {
                Some(b)
            } else {
                None
            },
            None => None,
        }
    }
}

pub open spec fn all_bytes() -> spec_fn(TensorV) -> nat {
    |t: TensorV| t.bytes()
}

pub open spec fn mtp_weight(k: Blocks) -> spec_fn(TensorV) -> nat {
    |t: TensorV|
        if is_mtp(t, k) {
            t.bytes()
        } else {
            0
        }
}

pub open spec fn layer_weight(k: Blocks, b: nat) -> spec_fn(TensorV) -> nat {
    |t: TensorV|
        if layer_of(t, k) == Some(b) {
            t.bytes()
        } else {
            0
        }
}

pub open spec fn ffn_weight(k: Blocks, b: nat) -> spec_fn(TensorV) -> nat {
    |t: TensorV|
        if layer_of(t, k) == Some(b) && holds(t.name, ".ffn_"@) {
            t.bytes()
        } else {
            0
        }
}

/// What belongs neither to a layer nor to the prediction head.
pub open spec fn other_weight(k: Blocks) -> spec_fn(TensorV) -> nat {
    |t: TensorV|
        if !is_mtp(t, k) && layer_of(t, k) is None {
            t.bytes()
        } else {
            0
        }
}

pub open spec fn param_count(k: Blocks) -> spec_fn(TensorV) -> nat {
    |t: TensorV|
        if !is_mtp(t, k) {
            t.elements()
        } else {
            0
        }
}

/// The tensor's name says that it belongs to an attention layer.
pub open spec fn named_attn(name: Seq<char>) -> bool {
    holds(name, ".attn_k."@) || holds(name, ".attn_v."@) || holds(name, ".attn_kv."@)
}

/// The tensor's name says that it belongs to a recurrent layer.
pub open spec fn named_recurrent(name: Seq<char>) -> bool {
    holds(name, ".ssm_"@) || holds(name, ".attn_gate"@) || holds(name, ".linear_attn"@)
}

pub open spec fn attn_in(k: Blocks, b: nat) -> spec_fn(TensorV) -> bool {
    |t: TensorV| layer_of(t, k) == Some(b) && named_attn(t.name)
}

pub open spec fn recurrent_in(k: Blocks, b: nat) -> spec_fn(TensorV) -> bool {
    |t: TensorV| layer_of(t, k) == Some(b) && named_recurrent(t.name)
}

pub open spec fn mtp_tensor(k: Blocks) -> spec_fn(TensorV) -> bool {
    |t: TensorV| is_mtp(t, k)
}

/// The integers among the first `n` items.
pub open spec fn numbers_among(a: Seq<MetaV>, n: nat) -> Seq<u64>
    decreases n,
{
    if n == 0 || n > a.len() {
        Seq::empty()
    } else {
        match a[n - 1].u64() {
            Some(v) => numbers_among(a, (n - 1) as nat).push(v),
            None => numbers_among(a, (n - 1) as nat),
        }
    }
}

/// The greatest of the numbers; zero where there are none.
pub open spec fn greatest(a: Seq<u64>) -> u64
    decreases a.len(),
{
    if a.len() == 0 {
        0
    } else if a.last() > greatest(a.drop_last()) {
        a.last()
    } else {
        greatest(a.drop_last())
    }
}

/// How many of the first `n` flags are set.
pub open spec fn count_set(f: Seq<bool>, n: nat) -> nat
    decreases n,
{
    if n == 0 || n > f.len() {
        0
    } else {
        count_set(f, (n - 1) as nat) + (if f[n - 1] {
            1nat
        } else {
            0nat
        })
    }
}

impl GgufV {
    pub open spec fn blocks(self) -> Blocks {
        let nextn = or_else(self.arch_u64("nextn_predict_layers"@), 0) as u32;
        let all = or_else(self.arch_u64("block_count"@), 0) as u32;
        Blocks {
            n_layer: if all >= nextn {
                (all - nextn) as nat
            } else {
                0
            },
            n_total: all as nat,
        }
    }

    /// The numbers of key-value heads of the layers, where the metadata lists them.
    /// A layer with none is recurrent.
    pub open spec fn heads_by_layer(self) -> Seq<u64> {
        match self.arch_key("attention.head_count_kv"@) {
            Some(MetaV::Array(a)) => numbers_among(a, a.len()),
            _ => Seq::empty(),
        }
    }

    /// The interval of the attention layers, where the metadata gives one.
    pub open spec fn attention_interval(self) -> Option<u64> {
        match self.arch_u64("full_attention_interval"@) {
            Some(k) => if k > 1 {
                Some(k)
            } else {
                None
            },
            None => None,
        }
    }

    /// Whether layer `i` is an attention layer, and whether it is a recurrent one:
    /// by the list of heads, else by the interval, else by the names of its tensors.
    pub open spec fn layer_flags(self, i: int) -> (bool, bool) {
        let k = self.blocks();
        let per = self.heads_by_layer();
        let attn = some_tensor(self.tensors, self.tensors.len(), attn_in(k, i as nat));
        let rec = some_tensor(self.tensors, self.tensors.len(), recurrent_in(k, i as nat));
        if per.len() > 0 && per.len() >= k.n_layer {
            (per[i] > 0, rec || per[i] == 0)
        } else if per.len() == 0 && self.attention_interval() is Some {
            let on = (i + 1) % self.attention_interval()->Some_0 as int == 0;
            (on, !on)
        } else {
            (attn, rec)
        }
    }

    /// The attention layers. Where nothing tells the layers apart, all are.
    pub open spec fn attention_layers(self) -> Seq<bool> {
        let n = self.blocks().n_layer;
        if forall|i: int| 0 <= i < n ==> !(#[trigger] self.layer_flags(i)).0 && !self.layer_flags(i).1 {
            Seq::new(n, |i: int| true)
        } else {
            Seq::new(n, |i: int| self.layer_flags(i).0)
        }
    }

    pub open spec fn recurrent_layers(self) -> Seq<bool> {
        Seq::new(self.blocks().n_layer, |i: int| self.layer_flags(i).1)
    }

    /// The number of key-value heads; that of the heads where it is not given.
    pub open spec fn kv_heads(self) -> u32 {
        let given = match self.arch_key("attention.head_count_kv"@) {
            Some(MetaV::Array(a)) => greatest(self.heads_by_layer()) as u32,
            Some(v) => or_else(v.u64(), 0) as u32,
            None => 0,
        };
        if given == 0 {
            self.n_head()
        } else {
            given
        }
    }

    pub open spec fn n_head(self) -> u32 {
        or_else(self.arch_u64("attention.head_count"@), 0) as u32
    }

    pub open spec fn n_embd(self) -> u32 {
        or_else(self.arch_u64("embedding_length"@), 0) as u32
    }

    /// The width of a key: as given, else the embedding shared among the heads, else
    /// 128.
    pub open spec fn key_dim(self) -> u32 {
        match self.arch_u64("attention.key_length"@) {
            Some(v) => v as u32,
            None => if self.n_head() > 0 && self.n_embd() > 0 {
                (self.n_embd() / self.n_head()) as u32
            } else {
                128
            },
        }
    }

    /// The bytes of the recurrent state of a sequence, in 32-bit numbers: for each
    /// recurrent layer a convolution window and a state matrix for each head.
    pub open spec fn state_bytes(self) -> nat {
        let d_conv = or_else(self.arch_u64("ssm.conv_kernel"@), 4) as nat;
        let d_inner = match self.arch_u64("ssm.inner_size"@) {
            Some(v) => v as nat,
            None => self.n_embd() as nat * 2,
        };
        let d_state = or_else(self.arch_u64("ssm.state_size"@), 128) as nat;
        let heads = match self.arch_u64("ssm.time_step_rank"@) {
            Some(v) => v as nat,
            None => or_else(self.arch_u64("ssm.group_count"@), 32) as nat,
        };
        (d_conv * d_inner + heads * d_state * d_state) * 4 * count_set(
            self.recurrent_layers(),
            self.recurrent_layers().len(),
        )
    }

    /// The sizes of the model are in the range of `u64`.
    pub open spec fn measurable(self) -> bool {
        &&& forall|i: int| 0 <= i < self.tensors.len() ==> (#[trigger] self.tensors[i]).elements() <= u64::MAX
        &&& total(self.tensors, self.tensors.len(), all_bytes()) <= u64::MAX
        &&& total(self.tensors, self.tensors.len(), param_count(self.blocks())) <= u64::MAX
        &&& self.state_bytes() <= u64::MAX
    }

    /// The text of a metadata entry.
    pub open spec fn text(self, key: Seq<char>) -> Option<Seq<char>> {
        match meta(self.metadata, key) {
            Some(v) => v.str(),
            None => None,
        }
    }

    pub open spec fn facts(self) -> FactsV {
        let k = self.blocks();
        let ts = self.tensors;
        let n = ts.len();
        FactsV {
            path: self.path,
            name: match self.text("general.name"@) {
                Some(s) => s,
                None => Seq::empty(),
            },
            arch: self.arch(),
            quant: match meta(self.metadata, "general.file_type"@) {
                Some(v) => match v.u64() {
                    Some(t) => quant_name(t),
                    None => "?"@,
                },
                None => "?"@,
            },
            n_layer: k.n_layer as u32,
            n_embd: self.n_embd(),
            n_head: self.n_head(),
            n_head_kv: self.kv_heads(),
            head_dim: self.key_dim(),
            value_dim: match self.arch_u64("attention.value_length"@) {
                Some(v) => v as u32,
                None => self.key_dim(),
            },
            n_attn_layers: count_set(self.attention_layers(), k.n_layer) as u32,
            n_recurrent_layers: count_set(self.recurrent_layers(), k.n_layer) as u32,
            is_attn: self.attention_layers(),
            n_ctx_train: or_else(self.arch_u64("context_length"@), 32768) as u32,
            n_vocab: match meta(self.metadata, "tokenizer.ggml.tokens"@) {
                Some(MetaV::Array(a)) => a.len() as u32,
                _ => 0,
            },
            has_mtp: some_tensor(ts, n, mtp_tensor(k)),
            mtp_bytes: total(ts, n, mtp_weight(k)) as u64,
            layer_bytes: Seq::new(k.n_layer, |b: int| total(ts, n, layer_weight(k, b as nat)) as u64),
            layer_ffn_bytes: Seq::new(k.n_layer, |b: int| total(ts, n, ffn_weight(k, b as nat)) as u64),
            nonlayer_bytes: total(ts, n, other_weight(k)) as u64,
            total_bytes: total(ts, n, all_bytes()) as u64,
            file_size: self.file_size,
            recurrent_state_bytes_per_seq: self.state_bytes() as u64,
            chat_template: self.text("tokenizer.chat_template"@),
            n_params: total(ts, n, param_count(k)) as u64,
            expert_count: or_else(self.arch_u64("expert_count"@), 0) as u32,
            expert_used_count: or_else(self.arch_u64("expert_used_count"@), 0) as u32,
        }
    }
}

// ---------------------------------------------------------------- sums

proof fn lemma_total_grows(ts: Seq<TensorV>, a: nat, b: nat, w: spec_fn(TensorV) -> nat)
    requires
        a <= b <= ts.len(),
    ensures
        total(ts, a, w) <= total(ts, b, w),
    decreases b - a,
{
    if a < b {
        lemma_total_grows(ts, a, (b - 1) as nat, w);
    }
}

proof fn lemma_total_within(ts: Seq<TensorV>, n: nat, w: spec_fn(TensorV) -> nat, v: spec_fn(TensorV) -> nat)
    requires
        n <= ts.len(),
        forall|t: TensorV| #[trigger] w(t) <= v(t),
    ensures
        total(ts, n, w) <= total(ts, n, v),
    decreases n,
{
    if n > 0 {
        lemma_total_within(ts, (n - 1) as nat, w, v);
        assert(w(ts[n - 1]) <= v(ts[n - 1]));
    }
}

/// The bytes of a model are those of its layers, of its prediction head and of the
/// rest: no tensor is counted twice, and none is left out.
pub proof fn law_bytes_add_up(ts: Seq<TensorV>, k: Blocks)
    ensures
        total(ts, ts.len(), all_bytes()) == total(ts, ts.len(), mtp_weight(k)) + total(ts, ts.len(), other_weight(k))
            + layers_total(ts, ts.len(), k, k.n_layer),
{
    lemma_bytes_add_up(ts, ts.len(), k);
}

/// The bytes of the first `m` layers.
pub open spec fn layers_total(ts: Seq<TensorV>, n: nat, k: Blocks, m: nat) -> nat
    decreases m,
{
    if m == 0 {
        0
    } else {
        layers_total(ts, n, k, (m - 1) as nat) + total(ts, n, layer_weight(k, (m - 1) as nat))
    }
}

proof fn lemma_bytes_add_up(ts: Seq<TensorV>, n: nat, k: Blocks)
    requires
        n <= ts.len(),
    ensures
        total(ts, n, all_bytes()) == total(ts, n, mtp_weight(k)) + total(ts, n, other_weight(k)) + layers_total(
            ts,
            n,
            k,
            k.n_layer,
        ),
    decreases n,
{
    if n == 0 {
        lemma_layers_none(ts, k, k.n_layer);
    } else {
        lemma_bytes_add_up(ts, (n - 1) as nat, k);
        lemma_layers_step(ts, n, k, k.n_layer);
    }
}

proof fn lemma_layers_none(ts: Seq<TensorV>, k: Blocks, m: nat)
    ensures
        layers_total(ts, 0, k, m) == 0,
    decreases m,
{
    if m > 0 {
        lemma_layers_none(ts, k, (m - 1) as nat);
    }
}

proof fn lemma_layers_step(ts: Seq<TensorV>, n: nat, k: Blocks, m: nat)
    requires
        0 < n <= ts.len(),
    ensures
        layers_total(ts, n, k, m) == layers_total(ts, (n - 1) as nat, k, m) + (match layer_of(ts[n - 1], k) {
            Some(b) => if b < m {
                ts[n - 1].bytes()
            } else {
                0
            },
            None => 0,
        }),
    decreases m,
{
    if m > 0 {
        lemma_layers_step(ts, n, k, (m - 1) as nat);
    }
}

// ---------------------------------------------------------------- what the metadata says

impl GgufV {
    /// An entry of the metadata gives a key a value, and no later one gives it another.
    pub open spec fn says(self, key: Seq<char>, v: MetaV) -> bool {
        exists|i: int|
            0 <= i < self.metadata.len() && #[trigger] self.metadata[i] == (key, v) && forall|j: int|
                i < j < self.metadata.len() ==> (#[trigger] self.metadata[j]).0 != key
    }

    /// No entry of the metadata is of a key.
    pub open spec fn silent(self, key: Seq<char>) -> bool {
        forall|i: int| 0 <= i < self.metadata.len() ==> (#[trigger] self.metadata[i]).0 != key
    }
}

/// A value is a whole number, in whichever size it was written.
pub open spec fn is_number(v: MetaV, n: int) -> bool {
    match v {
        MetaV::U8(x) => x == n,
        MetaV::I8(x) => x == n,
        MetaV::U16(x) => x == n,
        MetaV::I16(x) => x == n,
        MetaV::U32(x) => x == n,
        MetaV::I32(x) => x == n,
        MetaV::U64(x) => x == n,
        MetaV::I64(x) => x == n,
        _ => false,
    }
}

proof fn lemma_meta(m: Seq<(Seq<char>, MetaV)>, key: Seq<char>, i: int)
    requires
        0 <= i < m.len(),
        m[i].0 == key,
        forall|j: int| i < j < m.len() ==> (#[trigger] m[j]).0 != key,
    ensures
        meta(m, key) == Some(m[i].1),
    decreases m.len(),
{
    if i < m.len() - 1 {
        assert(m[m.len() - 1].0 != key);
        let d = m.drop_last();
        assert forall|j: int| i < j < d.len() implies (#[trigger] d[j]).0 != key by {
            assert(d[j] == m[j]);
        }
        lemma_meta(d, key, i);
    }
}

proof fn lemma_no_meta(m: Seq<(Seq<char>, MetaV)>, key: Seq<char>)
    requires
        forall|j: int| 0 <= j < m.len() ==> (#[trigger] m[j]).0 != key,
    ensures
        meta(m, key) is None,
    decreases m.len(),
{
    if m.len() > 0 {
        let d = m.drop_last();
        assert forall|j: int| 0 <= j < d.len() implies (#[trigger] d[j]).0 != key by {
            assert(d[j] == m[j]);
        }
        assert(m[m.len() - 1].0 != key);
        lemma_no_meta(d, key);
    }
}

/// What is said of a key is what is found under it.
proof fn lemma_says(g: GgufV, key: Seq<char>)
    ensures
        forall|v: MetaV| #[trigger] g.says(key, v) ==> meta(g.metadata, key) == Some(v),
        g.silent(key) ==> meta(g.metadata, key) is None,
{
    assert forall|v: MetaV| #[trigger] g.says(key, v) implies meta(g.metadata, key) == Some(v) by {
        let i = choose|i: int|
            0 <= i < g.metadata.len() && #[trigger] g.metadata[i] == (key, v) && forall|j: int|
                i < j < g.metadata.len() ==> (#[trigger] g.metadata[j]).0 != key;
        lemma_meta(g.metadata, key, i);
    }
    if g.silent(key) {
        lemma_no_meta(g.metadata, key);
    }
}

/// A whole number under a key of the architecture's own, or none.
proof fn lemma_arch_number(g: GgufV, arch: Seq<char>, suffix: Seq<char>)
    requires
        g.says("general.architecture"@, MetaV::Str(arch)),
    ensures
        g.arch() == arch,
        forall|v: MetaV, n: int|
            #[trigger] g.says(arch + "."@ + suffix, v) && #[trigger] is_number(v, n) && n >= 0 ==> g.arch_u64(suffix)
                == Some(n as u64) && g.arch_key(suffix) == Some(v),
        g.silent(arch + "."@ + suffix) ==> g.arch_u64(suffix) is None && g.arch_key(suffix) is None,
{
    lemma_says(g, "general.architecture"@);
    lemma_says(g, arch + "."@ + suffix);
}

/// The sizes of a model are those that its metadata gives under the keys of its architecture:
/// each number under its own key, and what is used where it is missing.
pub proof fn law_sizes_are_those_of_the_metadata(g: GgufV, arch: Seq<char>, v: MetaV, n: int)
    requires
        g.says("general.architecture"@, MetaV::Str(arch)),
        is_number(v, n),
        0 <= n <= u32::MAX,
    ensures
        g.facts().arch == arch,
        g.says(arch + "."@ + "embedding_length"@, v) ==> g.facts().n_embd == n,
        g.says(arch + "."@ + "attention.head_count"@, v) ==> g.facts().n_head == n,
        g.says(arch + "."@ + "context_length"@, v) ==> g.facts().n_ctx_train == n,
        g.silent(arch + "."@ + "context_length"@) ==> g.facts().n_ctx_train == 32768,
        g.says(arch + "."@ + "expert_count"@, v) ==> g.facts().expert_count == n,
        g.says(arch + "."@ + "expert_used_count"@, v) ==> g.facts().expert_used_count == n,
        g.says(arch + "."@ + "attention.key_length"@, v) ==> g.facts().head_dim == n,
        g.says(arch + "."@ + "attention.value_length"@, v) ==> g.facts().value_dim == n,
        g.silent(arch + "."@ + "attention.value_length"@) ==> g.facts().value_dim == g.facts().head_dim,
        g.silent(arch + "."@ + "attention.key_length"@) && g.facts().n_head > 0 && g.facts().n_embd > 0
            ==> g.facts().head_dim == g.facts().n_embd / g.facts().n_head,
        g.silent(arch + "."@ + "attention.key_length"@) && (g.facts().n_head == 0 || g.facts().n_embd == 0)
            ==> g.facts().head_dim == 128,
        g.says(arch + "."@ + "block_count"@, v) && g.silent(arch + "."@ + "nextn_predict_layers"@)
            ==> g.facts().n_layer == n,
        g.facts().path == g.path,
        g.facts().file_size == g.file_size,
{
    lemma_arch_number(g, arch, "embedding_length"@);
    lemma_arch_number(g, arch, "attention.head_count"@);
    lemma_arch_number(g, arch, "context_length"@);
    lemma_arch_number(g, arch, "expert_count"@);
    lemma_arch_number(g, arch, "expert_used_count"@);
    lemma_arch_number(g, arch, "attention.key_length"@);
    lemma_arch_number(g, arch, "attention.value_length"@);
    lemma_arch_number(g, arch, "block_count"@);
    lemma_arch_number(g, arch, "nextn_predict_layers"@);
}

/// The blocks of the prediction head are counted in the metadata, but are no layers.
pub proof fn law_prediction_blocks_are_no_layers(g: GgufV, arch: Seq<char>, v: MetaV, n: int, w: MetaV, m: int)
    requires
        g.says("general.architecture"@, MetaV::Str(arch)),
        g.says(arch + "."@ + "block_count"@, v),
        is_number(v, n),
        g.says(arch + "."@ + "nextn_predict_layers"@, w),
        is_number(w, m),
        0 <= m <= n <= u32::MAX,
    ensures
        g.facts().n_layer == n - m,
        g.facts().layer_bytes.len() == n - m,
        g.facts().layer_ffn_bytes.len() == n - m,
        g.facts().is_attn.len() == n - m,
{
    lemma_arch_number(g, arch, "block_count"@);
    lemma_arch_number(g, arch, "nextn_predict_layers"@);
    let k = g.blocks();
    assert(k.n_layer == n - m);
}

/// The number of key-value heads is the one that the metadata gives; where it gives a list it
/// is the greatest of the list; only where it gives none, or zero, is it the number of heads.
pub proof fn law_key_value_heads_are_those_given(g: GgufV, arch: Seq<char>, v: MetaV, n: int, a: Seq<MetaV>)
    requires
        g.says("general.architecture"@, MetaV::Str(arch)),
    ensures
        g.says(arch + "."@ + "attention.head_count_kv"@, v) && is_number(v, n) && 0 < n <= u32::MAX
            ==> g.facts().n_head_kv == n,
        g.says(arch + "."@ + "attention.head_count_kv"@, v) && is_number(v, 0) ==> g.facts().n_head_kv
            == g.facts().n_head,
        g.silent(arch + "."@ + "attention.head_count_kv"@) ==> g.facts().n_head_kv == g.facts().n_head,
        g.says(arch + "."@ + "attention.head_count_kv"@, MetaV::Array(a)) && counts(a) && (exists|i: int|
            0 <= i < a.len() && !is_number(#[trigger] a[i], 0)) ==> {
            &&& exists|i: int| 0 <= i < a.len() && is_number(#[trigger] a[i], g.facts().n_head_kv as int)
            &&& forall|i: int, m: int|
                0 <= i < a.len() && #[trigger] is_number(a[i], m) ==> m <= g.facts().n_head_kv
        },
{
    let key = arch + "."@ + "attention.head_count_kv"@;
    lemma_arch_number(g, arch, "attention.head_count_kv"@);
    lemma_arch_number(g, arch, "attention.head_count"@);
    lemma_says(g, key);
    if g.says(key, MetaV::Array(a)) && counts(a) && exists|i: int|
        0 <= i < a.len() && !is_number(#[trigger] a[i], 0) {
        let i = choose|i: int| 0 <= i < a.len() && !is_number(#[trigger] a[i], 0);
        let per = numbers_among(a, a.len());
        lemma_counts(a, a.len());
        lemma_greatest(per);
        assert(per[i] > 0);
        let best = greatest(per);
        let at = choose|j: int| 0 <= j < per.len() && per[j] == best;
        assert(is_number(a[at], best as int));
        assert forall|j: int, m: int| 0 <= j < a.len() && #[trigger] is_number(a[j], m) implies m <= best by {
            assert(per[j] == m);
        }
    }
}

/// A list of whole numbers that are in the range of a count.
pub open spec fn counts(a: Seq<MetaV>) -> bool {
    forall|i: int| 0 <= i < a.len() ==> exists|m: int| 0 <= m <= u32::MAX && #[trigger] is_number(#[trigger] a[i], m)
}

proof fn lemma_counts(a: Seq<MetaV>, n: nat)
    requires
        counts(a),
        n <= a.len(),
    ensures
        numbers_among(a, n).len() == n,
        forall|i: int| 0 <= i < n ==> is_number(a[i], (#[trigger] numbers_among(a, n)[i]) as int),
        forall|i: int, m: int|
            0 <= i < n && #[trigger] is_number(a[i], m) ==> numbers_among(a, n)[i] == m && m <= u32::MAX,
    decreases n,
{
    if n > 0 {
        lemma_counts(a, (n - 1) as nat);
        let m = choose|m: int| 0 <= m <= u32::MAX && #[trigger] is_number(a[n - 1], m);
        assert(a[n - 1].u64() == Some(m as u64));
    }
}

proof fn lemma_greatest(a: Seq<u64>)
    ensures
        forall|i: int| 0 <= i < a.len() ==> #[trigger] a[i] <= greatest(a),
        greatest(a) > 0 ==> exists|i: int| 0 <= i < a.len() && #[trigger] a[i] == greatest(a),
    decreases a.len(),
{
    if a.len() > 0 {
        let d = a.drop_last();
        lemma_greatest(d);
        assert forall|i: int| 0 <= i < a.len() implies #[trigger] a[i] <= greatest(a) by {
            if i < d.len() {
                assert(d[i] == a[i]);
            }
        }
        if greatest(a) > 0 {
            if a.last() > greatest(d) {
                assert(a[a.len() - 1] == greatest(a));
            } else {
                let i = choose|i: int| 0 <= i < d.len() && #[trigger] d[i] == greatest(d);
                assert(a[i] == greatest(a));
            }
        }
    }
}

/// The words of the metadata are taken over: the name of the model, its chat template, its
/// type of file, and the number of its tokens.
pub proof fn law_words_are_those_of_the_metadata(g: GgufV, s: Seq<char>, v: MetaV, n: int, a: Seq<MetaV>)
    ensures
        g.says("general.name"@, MetaV::Str(s)) ==> g.facts().name == s,
        g.silent("general.name"@) ==> g.facts().name.len() == 0,
        g.says("tokenizer.chat_template"@, MetaV::Str(s)) ==> g.facts().chat_template == Some(s),
        g.silent("tokenizer.chat_template"@) ==> g.facts().chat_template is None,
        g.says("general.file_type"@, v) && is_number(v, n) && n >= 0 ==> g.facts().quant == quant_name(n as u64),
        g.silent("general.file_type"@) ==> g.facts().quant == "?"@,
        g.says("tokenizer.ggml.tokens"@, MetaV::Array(a)) && a.len() <= u32::MAX ==> g.facts().n_vocab == a.len(),
        g.silent("tokenizer.ggml.tokens"@) ==> g.facts().n_vocab == 0,
        g.silent("general.architecture"@) ==> g.facts().arch == "unknown"@,
{
    lemma_says(g, "general.name"@);
    lemma_says(g, "tokenizer.chat_template"@);
    lemma_says(g, "general.file_type"@);
    lemma_says(g, "tokenizer.ggml.tokens"@);
    lemma_says(g, "general.architecture"@);
}

proof fn lemma_count_set(f: Seq<bool>, n: nat)
    requires
        n <= f.len(),
    ensures
        count_set(f, n) == f.take(n as int).to_multiset().count(true),
        count_set(f, n) <= n,
    decreases n,
{
    broadcast use vstd::seq_lib::group_to_multiset_ensures;
    if n == 0 {
        assert(f.take(0) =~= Seq::<bool>::empty());
        assert(Seq::<bool>::empty().to_multiset() =~= vstd::multiset::Multiset::empty());
    } else {
        lemma_count_set(f, (n - 1) as nat);
        assert(f.take(n as int) =~= f.take(n - 1).push(f[n - 1]));
    }
}

/// The layers with attention are those to which a list in the metadata gives heads; without a
/// list every `n`-th, where it gives an interval; and as many as there are of them are
/// counted.
pub proof fn law_attention_layers_are_those_told(g: GgufV, arch: Seq<char>, a: Seq<MetaV>, v: MetaV, n: int, i: int)
    requires
        g.says("general.architecture"@, MetaV::Str(arch)),
        0 <= i < g.facts().n_layer,
    ensures
        g.facts().is_attn.len() == g.facts().n_layer,
        g.facts().n_attn_layers == g.facts().is_attn.to_multiset().count(true),
        g.says(arch + "."@ + "attention.head_count_kv"@, MetaV::Array(a)) && counts(a) && a.len() >= g.facts().n_layer
            ==> (g.facts().is_attn[i] <==> !is_number(a[i], 0)),
        g.silent(arch + "."@ + "attention.head_count_kv"@) && g.says(arch + "."@ + "full_attention_interval"@, v)
            && is_number(v, n) && n > 1 ==> (g.facts().is_attn[i] <==> (i + 1) % n == 0) && g.facts().n_attn_layers
            + g.facts().n_recurrent_layers == g.facts().n_layer,
{
    let key = arch + "."@ + "attention.head_count_kv"@;
    lemma_arch_number(g, arch, "attention.head_count_kv"@);
    lemma_arch_number(g, arch, "full_attention_interval"@);
    lemma_says(g, key);
    let layers = g.blocks().n_layer;
    let f = g.attention_layers();
    lemma_count_set(f, layers);
    assert(f.take(layers as int) =~= f);
    assert(layers == g.facts().n_layer);
    if g.says(key, MetaV::Array(a)) && counts(a) && a.len() >= layers {
        lemma_counts(a, a.len());
        let per = g.heads_by_layer();
        assert(is_number(a[i], per[i] as int));
        assert(g.layer_flags(i).0 || g.layer_flags(i).1);
    }
    if g.silent(key) && g.says(arch + "."@ + "full_attention_interval"@, v) && is_number(v, n) && n > 1 {
        assert(g.layer_flags(i).0 || g.layer_flags(i).1);
        lemma_flags_apart(g, layers);
    }
}

proof fn lemma_flags_apart(g: GgufV, n: nat)
    requires
        n <= g.blocks().n_layer,
        g.heads_by_layer().len() == 0,
        g.attention_interval() is Some,
        g.blocks().n_layer > 0,
    ensures
        count_set(g.attention_layers(), n) + count_set(g.recurrent_layers(), n) == n,
    decreases n,
{
    if n > 0 {
        lemma_flags_apart(g, (n - 1) as nat);
        assert(g.layer_flags(n - 1).0 == !g.layer_flags(n - 1).1);
        assert(g.layer_flags(0).0 || g.layer_flags(0).1);
    }
}

/// The recurrent state takes, for each recurrent layer, four bytes for each number of a window
/// and of a square matrix for each head.
pub proof fn law_recurrent_state_by_layer(g: GgufV, arch: Seq<char>, c: int, d: int, s: int, h: int)
    requires
        g.says("general.architecture"@, MetaV::Str(arch)),
        g.measurable(),
        g.says(arch + "."@ + "ssm.conv_kernel"@, MetaV::U32(c as u32)) && 0 <= c <= u32::MAX,
        g.says(arch + "."@ + "ssm.inner_size"@, MetaV::U32(d as u32)) && 0 <= d <= u32::MAX,
        g.says(arch + "."@ + "ssm.state_size"@, MetaV::U32(s as u32)) && 0 <= s <= u32::MAX,
        g.says(arch + "."@ + "ssm.time_step_rank"@, MetaV::U32(h as u32)) && 0 <= h <= u32::MAX,
    ensures
        g.facts().recurrent_state_bytes_per_seq == (c * d + h * s * s) * 4 * g.facts().n_recurrent_layers,
{
    assert(is_number(MetaV::U32(c as u32), c));
    assert(is_number(MetaV::U32(d as u32), d));
    assert(is_number(MetaV::U32(s as u32), s));
    assert(is_number(MetaV::U32(h as u32), h));
    lemma_arch_number(g, arch, "ssm.conv_kernel"@);
    lemma_arch_number(g, arch, "ssm.inner_size"@);
    lemma_arch_number(g, arch, "ssm.state_size"@);
    lemma_arch_number(g, arch, "ssm.time_step_rank"@);
    lemma_count_set(g.recurrent_layers(), g.recurrent_layers().len());
    assert(count_set(g.recurrent_layers(), g.recurrent_layers().len()) <= u32::MAX);
}

// ---------------------------------------------------------------- one tensor more

/// A name is that of a tensor of a block.
pub open spec fn in_block(name: Seq<char>, b: nat) -> bool {
    exists|rest: Seq<char>| name == "blk."@ + dec(b) + "."@ + rest
}

#[verifier::rlimit(40)]
proof fn lemma_block_of_name(t: TensorV, b: nat)
    requires
        in_block(t.name, b),
        b <= u32::MAX,
    ensures
        t.block() == Some(b),
{
    reveal_strlit("blk.");
    reveal_strlit(".");
    let rest = choose|rest: Seq<char>| t.name == "blk."@ + dec(b) + "."@ + rest;
    law_decimal_is_read_back(b, u32::MAX as nat);
    let d = dec(b);
    assert(t.name.subrange(0, 4) =~= "blk."@);
    let tail = t.name.skip(4);
    assert(tail =~= d + "."@ + rest);
    assert forall|i: int| 0 <= i < d.len() implies tail[i] != '.' by {
        assert(tail[i] == d[i]);
        assert(is_digit(d[i]));
    }
    lemma_char_at(tail, '.', 0, d.len() as int);
    assert(tail.take(d.len() as int) =~= d);
}

proof fn lemma_char_at(s: Seq<char>, c: char, i: int, k: int)
    requires
        0 <= i <= k < s.len(),
        s[k] == c,
        forall|j: int| i <= j < k ==> s[j] != c,
    ensures
        char_from(s, c, i) == Some(k),
    decreases k - i,
{
    if i < k {
        lemma_char_at(s, c, i + 1, k);
    }
}

proof fn lemma_total_same(ts: Seq<TensorV>, t: TensorV, n: nat, w: spec_fn(TensorV) -> nat)
    requires
        n <= ts.len(),
    ensures
        total(ts.push(t), n, w) == total(ts, n, w),
    decreases n,
{
    if n > 0 {
        lemma_total_same(ts, t, (n - 1) as nat, w);
        assert(ts.push(t)[n - 1] == ts[n - 1]);
    }
}

proof fn lemma_total_more(ts: Seq<TensorV>, t: TensorV, w: spec_fn(TensorV) -> nat)
    ensures
        total(ts.push(t), ts.len() + 1, w) == total(ts, ts.len(), w) + w(t),
{
    lemma_total_same(ts, t, ts.len(), w);
    assert(ts.push(t)[ts.len() as int] == t);
}

proof fn lemma_some_same(ts: Seq<TensorV>, t: TensorV, n: nat, p: spec_fn(TensorV) -> bool)
    requires
        n <= ts.len(),
    ensures
        some_tensor(ts.push(t), n, p) == some_tensor(ts, n, p),
    decreases n,
{
    if n > 0 {
        lemma_some_same(ts, t, (n - 1) as nat, p);
        assert(ts.push(t)[n - 1] == ts[n - 1]);
    }
}

/// A file with one tensor more than another. The bytes of the tensor are counted in the whole,
/// and once more: by its name in the prediction head, by the number of its block in its layer
/// or, behind the layers, in the prediction head, else in the rest. What is a feed-forward part
/// is counted as one. Nothing else changes.
pub proof fn law_each_tensor_counts_where_it_belongs(g: GgufV, t: TensorV, b: nat)
    requires
        ({
            let more = GgufV { tensors: g.tensors.push(t), ..g };
            g.measurable() && more.measurable()
        }),
    ensures
        ({
            let was = g.facts();
            let now = (GgufV { tensors: g.tensors.push(t), ..g }).facts();
            let head = holds(t.name, "nextn"@) || holds(t.name, "mtp"@);
            &&& now.total_bytes == was.total_bytes + t.bytes()
            &&& now.n_layer == was.n_layer
            &&& head ==> now.has_mtp && now.mtp_bytes == was.mtp_bytes + t.bytes() && now.layer_bytes == was.layer_bytes
                && now.layer_ffn_bytes == was.layer_ffn_bytes && now.nonlayer_bytes == was.nonlayer_bytes && now.n_params
                == was.n_params
            &&& !head && in_block(t.name, b) && b < was.n_layer ==> {
                &&& now.layer_bytes[b as int] == was.layer_bytes[b as int] + t.bytes()
                &&& forall|c: int|
                    0 <= c < was.n_layer && c != b ==> #[trigger] now.layer_bytes[c] == was.layer_bytes[c]
                        && now.layer_ffn_bytes[c] == was.layer_ffn_bytes[c]
                &&& now.layer_ffn_bytes[b as int] == was.layer_ffn_bytes[b as int] + (if holds(t.name, ".ffn_"@) {
                    t.bytes()
                } else {
                    0
                })
                &&& now.mtp_bytes == was.mtp_bytes && now.has_mtp == was.has_mtp && now.nonlayer_bytes
                    == was.nonlayer_bytes
                &&& now.n_params == was.n_params + t.elements()
            }
            &&& !head && in_block(t.name, b) && was.n_layer <= b < g.blocks().n_total ==> now.has_mtp && now.mtp_bytes
                == was.mtp_bytes + t.bytes() && now.layer_bytes == was.layer_bytes && now.nonlayer_bytes
                == was.nonlayer_bytes
            &&& !head && !begins(t.name, "blk."@) ==> now.nonlayer_bytes == was.nonlayer_bytes + t.bytes()
                && now.layer_bytes == was.layer_bytes && now.mtp_bytes == was.mtp_bytes && now.has_mtp == was.has_mtp
                && now.n_params == was.n_params + t.elements()
        }),
{
    let more = GgufV { tensors: g.tensors.push(t), ..g };
    let ts = g.tensors;
    let k = g.blocks();
    assert(more.blocks() == k);
    let was = g.facts();
    let now = more.facts();
    lemma_total_more(ts, t, all_bytes());
    lemma_total_more(ts, t, mtp_weight(k));
    lemma_total_more(ts, t, other_weight(k));
    lemma_total_more(ts, t, param_count(k));
    lemma_some_same(ts, t, ts.len(), mtp_tensor(k));
    assert(ts.push(t)[ts.len() as int] == t);
    lemma_total_within(ts, ts.len(), mtp_weight(k), all_bytes());
    lemma_total_within(ts.push(t), ts.len() + 1, mtp_weight(k), all_bytes());
    lemma_total_within(ts, ts.len(), other_weight(k), all_bytes());
    lemma_total_within(ts.push(t), ts.len() + 1, other_weight(k), all_bytes());
    assert forall|c: int| 0 <= c < k.n_layer implies #[trigger] now.layer_bytes[c] == was.layer_bytes[c] + layer_weight(
        k,
        c as nat,
    )(t) && now.layer_ffn_bytes[c] == was.layer_ffn_bytes[c] + ffn_weight(k, c as nat)(t) by {
        lemma_total_more(ts, t, layer_weight(k, c as nat));
        lemma_total_more(ts, t, ffn_weight(k, c as nat));
        lemma_total_within(ts, ts.len(), layer_weight(k, c as nat), all_bytes());
        lemma_total_within(ts.push(t), ts.len() + 1, layer_weight(k, c as nat), all_bytes());
        lemma_total_within(ts, ts.len(), ffn_weight(k, c as nat), all_bytes());
        lemma_total_within(ts.push(t), ts.len() + 1, ffn_weight(k, c as nat), all_bytes());
    }
    if in_block(t.name, b) && b < k.n_total {
        lemma_block_of_name(t, b);
        if b < k.n_layer && !is_mtp(t, k) {
            assert(now.layer_bytes[b as int] == was.layer_bytes[b as int] + layer_weight(k, b)(t));
            assert forall|c: int| 0 <= c < was.n_layer && c != b implies #[trigger] now.layer_bytes[c]
                == was.layer_bytes[c] && now.layer_ffn_bytes[c] == was.layer_ffn_bytes[c] by {
                assert(now.layer_bytes[c] == was.layer_bytes[c] + layer_weight(k, c as nat)(t));
                assert(now.layer_ffn_bytes[c] == was.layer_ffn_bytes[c] + ffn_weight(k, c as nat)(t));
                assert(layer_of(t, k) == Some(b) && b != c as nat);
            }
        }
    }
    if layer_of(t, k) is None {
        assert forall|c: int| 0 <= c < k.n_layer implies was.layer_bytes[c] == now.layer_bytes[c] by {}
        assert forall|c: int| 0 <= c < k.n_layer implies was.layer_ffn_bytes[c] == now.layer_ffn_bytes[c] by {
            assert(now.layer_bytes[c] == was.layer_bytes[c]);
        }
        assert(now.layer_bytes =~= was.layer_bytes);
        assert(now.layer_ffn_bytes =~= was.layer_ffn_bytes);
    }
}

fn or_default(v: Option<u64>, d: u64) -> (r: u64)
    ensures
        r == or_else(v, d),
{
    match v {
        Some(x) => x,
        None => d,
    }
}

/// The product of two numbers, in full.
pub fn wide_product(a: u64, b: u64) -> (r: u128)
    ensures
        r == a * b,
{
    proof {
        assert(a * b <= u64::MAX * u64::MAX) by (nonlinear_arith)
            requires
                a <= u64::MAX,
                b <= u64::MAX,
        ;
        assert(a * b >= 0) by (nonlinear_arith);
    }
    a as u128 * b as u128
}

fn count_flags(f: &Vec<bool>) -> (r: usize)
    ensures
        r == count_set(f@, f@.len()),
        r <= f.len(),
{
    let mut n: usize = 0;
    let mut i: usize = 0;
    while i < f.len()
        invariant
            i <= f.len(),
            n <= i,
            n == count_set(f@, i as nat),
        decreases f.len() - i,
    {
        if f[i] {
            n += 1;
        }
        i += 1;
    }
    n
}

fn mtp_exec(t: &TensorInfo, n_layer: u32, n_total: u32) -> (r: bool)
    ensures
        r == is_mtp(t@, Blocks { n_layer: n_layer as nat, n_total: n_total as nat }),
{
    if contains(t.name.as_str(), "nextn") || contains(t.name.as_str(), "mtp") {
        return true;
    }
    match t.block_index() {
        Some(b) => n_layer <= b && b < n_total,
        None => false,
    }
}

impl GgufFile {
    fn block_counts(&self) -> (r: (u32, u32))
        ensures
            self@.blocks() == (Blocks { n_layer: r.0 as nat, n_total: r.1 as nat }),
    {
        let nextn: u32 = or_default(self.arch_u64("nextn_predict_layers"), 0) as u32;
        let all: u32 = or_default(self.arch_u64("block_count"), 0) as u32;
        (all.saturating_sub(nextn), all)
    }

    fn head_list(&self) -> (r: Vec<u64>)
        ensures
            r@ == self@.heads_by_layer(),
    {
        let mut out: Vec<u64> = Vec::new();
        if let Some(v) = self.arch_key("attention.head_count_kv") {
            if let Some(a) = v.as_array() {
                let mut i: usize = 0;
                while i < a.len()
                    invariant
                        i <= a.len(),
                        out@ == numbers_among(metas(a@), i as nat),
                    decreases a.len() - i,
                {
                    assert(metas(a@)[i as int] == a@[i as int]@);
                    if let Some(x) = a[i].as_u64() {
                        out.push(x);
                    }
                    i += 1;
                }
            }
        }
        out
    }

    fn kv_head_count(&self, per: &Vec<u64>) -> (r: u32)
        requires
            per@ == self@.heads_by_layer(),
        ensures
            r == self@.kv_heads(),
    {
        let n_head: u32 = or_default(self.arch_u64("attention.head_count"), 0) as u32;
        let given: u32 = match self.arch_key("attention.head_count_kv") {
            Some(v) => match v.as_array() {
                Some(_) => {
                    let mut best: u64 = 0;
                    let mut i: usize = 0;
                    while i < per.len()
                        invariant
                            i <= per.len(),
                            best == greatest(per@.take(i as int)),
                        decreases per.len() - i,
                    {
                        assert(per@.take(i + 1).drop_last() =~= per@.take(i as int));
                        if per[i] > best {
                            best = per[i];
                        }
                        i += 1;
                    }
                    assert(per@.take(per@.len() as int) =~= per@);
                    best as u32
                },
                None => or_default(v.as_u64(), 0) as u32,
            },
            None => 0,
        };
        if given == 0 {
            n_head
        } else {
            given
        }
    }

    /// The flags that the names of the tensors give layer by layer.
    fn named_flags(&self, n_layer: u32, n_total: u32) -> (r: (Vec<bool>, Vec<bool>))
        requires
            self@.blocks() == (Blocks { n_layer: n_layer as nat, n_total: n_total as nat }),
        ensures
            r.0.len() == n_layer,
            r.1.len() == n_layer,
            forall|b: int|
                0 <= b < n_layer ==> #[trigger] r.0@[b] == some_tensor(
                    self@.tensors,
                    self@.tensors.len(),
                    attn_in(self@.blocks(), b as nat),
                ),
            forall|b: int|
                0 <= b < n_layer ==> #[trigger] r.1@[b] == some_tensor(
                    self@.tensors,
                    self@.tensors.len(),
                    recurrent_in(self@.blocks(), b as nat),
                ),
    {
        let mut attn: Vec<bool> = vec![false; n_layer as usize];
        let mut rec: Vec<bool> = vec![false; n_layer as usize];
        let ghost k = self@.blocks();
        let ghost ts = self@.tensors;
        let mut i: usize = 0;
        while i < self.tensors.len()
            invariant
                i <= self.tensors.len(),
                k == (Blocks { n_layer: n_layer as nat, n_total: n_total as nat }),
                ts == self@.tensors,
                attn.len() == n_layer,
                rec.len() == n_layer,
                forall|b: int|
                    0 <= b < n_layer ==> #[trigger] attn@[b] == some_tensor(ts, i as nat, attn_in(k, b as nat)),
                forall|b: int|
                    0 <= b < n_layer ==> #[trigger] rec@[b] == some_tensor(ts, i as nat, recurrent_in(k, b as nat)),
            decreases self.tensors.len() - i,
        {
            let t = &self.tensors[i];
            assert(ts[i as int] == t@);
            if !mtp_exec(t, n_layer, n_total) {
                if let Some(b) = t.block_index() {
                    if b < n_layer {
                        let name = t.name.as_str();
                        if contains(name, ".attn_k.") || contains(name, ".attn_v.") || contains(name, ".attn_kv.") {
                            attn.set(b as usize, true);
                        }
                        if contains(name, ".ssm_") || contains(name, ".attn_gate") || contains(name, ".linear_attn") {
                            rec.set(b as usize, true);
                        }
                    }
                }
            }
            i += 1;
        }
        (attn, rec)
    }

    /// The attention and the recurrent layers.
    fn layers_by_kind(&self, n_layer: u32, n_total: u32, per: &Vec<u64>) -> (r: (Vec<bool>, Vec<bool>))
        requires
            self@.blocks() == (Blocks { n_layer: n_layer as nat, n_total: n_total as nat }),
            per@ == self@.heads_by_layer(),
        ensures
            r.0@ == self@.attention_layers(),
            r.1@ == self@.recurrent_layers(),
            r.0.len() == n_layer,
            r.1.len() == n_layer,
    {
        let (mut attn, mut rec) = self.named_flags(n_layer, n_total);
        let ghost a0 = attn@;
        let ghost r0 = rec@;
        let interval = match self.arch_u64("full_attention_interval") {
            Some(k) => if k > 1 {
                Some(k)
            } else {
                None
            },
            None => None,
        };
        let n: usize = n_layer as usize;
        let mut any = false;
        let mut i: usize = 0;
        while i < n
            invariant
                i <= n,
                n == n_layer,
                attn.len() == n,
                rec.len() == n,
                a0.len() == n,
                r0.len() == n,
                per@ == self@.heads_by_layer(),
                interval == self@.attention_interval(),
                self@.blocks() == (Blocks { n_layer: n_layer as nat, n_total: n_total as nat }),
                forall|b: int| i <= b < n ==> #[trigger] attn@[b] == a0[b],
                forall|b: int| i <= b < n ==> #[trigger] rec@[b] == r0[b],
                forall|b: int|
                    0 <= b < n ==> #[trigger] a0[b] == some_tensor(
                        self@.tensors,
                        self@.tensors.len(),
                        attn_in(self@.blocks(), b as nat),
                    ),
                forall|b: int|
                    0 <= b < n ==> #[trigger] r0[b] == some_tensor(
                        self@.tensors,
                        self@.tensors.len(),
                        recurrent_in(self@.blocks(), b as nat),
                    ),
                forall|b: int| 0 <= b < i ==> (#[trigger] attn@[b], rec@[b]) == self@.layer_flags(b),
                any == exists|b: int| 0 <= b < i && (#[trigger] attn@[b] || rec@[b]),
            decreases n - i,
        {
            let ghost attn_before = attn@;
            let ghost rec_before = rec@;
            assert(attn@[i as int] == a0[i as int]);
            assert(rec@[i as int] == r0[i as int]);
            if per.len() > 0 && per.len() >= n {
                let on = per[i] > 0;
                attn.set(i, on);
                if !on {
                    rec.set(i, true);
                }
            } else if per.len() == 0 {
                if let Some(k) = interval {
                    let on = (i as u64 + 1) % k == 0;
                    attn.set(i, on);
                    rec.set(i, !on);
                }
            }
            assert((attn@[i as int], rec@[i as int]) == self@.layer_flags(i as int));
            proof {
                assert forall|b: int| 0 <= b < i implies attn@[b] == attn_before[b] && rec@[b] == rec_before[b] by {}
                if any {
                    let b = choose|b: int| 0 <= b < i && (#[trigger] attn_before[b] || rec_before[b]);
                    assert(attn@[b] || rec@[b]);
                }
            }
            if attn[i] || rec[i] {
                any = true;
            }
            i += 1;
        }
        if !any {
            let mut all: Vec<bool> = vec![true; n];
            assert forall|b: int| 0 <= b < n implies !(#[trigger] self@.layer_flags(b)).0 && !self@.layer_flags(b).1 by {
                assert((attn@[b], rec@[b]) == self@.layer_flags(b));
            }
            assert(all@ =~= self@.attention_layers());
            assert forall|b: int| 0 <= b < n implies rec@[b] == self@.recurrent_layers()[b] by {
                assert((attn@[b], rec@[b]) == self@.layer_flags(b));
            }
            assert(rec@ =~= self@.recurrent_layers());
            (all, rec)
        } else {
            proof {
                assert(exists|b: int| 0 <= b < i && (#[trigger] attn@[b] || rec@[b]));
                let b = choose|b: int| 0 <= b < i && (#[trigger] attn@[b] || rec@[b]);
                assert(0 <= b < n);
                assert((attn@[b], rec@[b]) == self@.layer_flags(b));
                assert(self@.layer_flags(b).0 || self@.layer_flags(b).1);
            }
            assert(attn@ =~= self@.attention_layers());
            assert forall|b: int| 0 <= b < n implies rec@[b] == self@.recurrent_layers()[b] by {
                assert((attn@[b], rec@[b]) == self@.layer_flags(b));
            }
            assert(rec@ =~= self@.recurrent_layers());
            (attn, rec)
        }
    }

    /// The bytes of the recurrent state; none where they are out of range.
    fn state_bytes_checked(&self, recurrent: &Vec<bool>) -> (r: Option<u64>)
        requires
            recurrent@ == self@.recurrent_layers(),
            recurrent.len() <= u32::MAX,
        ensures
            match r {
                Some(n) => n == self@.state_bytes(),
                None => self@.state_bytes() > u64::MAX,
            },
    {
        let d_conv: u64 = or_default(self.arch_u64("ssm.conv_kernel"), 4);
        let n_embd: u32 = or_default(self.arch_u64("embedding_length"), 0) as u32;
        let d_inner: u64 = match self.arch_u64("ssm.inner_size") {
            Some(v) => v,
            None => n_embd as u64 * 2,
        };
        let d_state: u64 = or_default(self.arch_u64("ssm.state_size"), 128);
        let heads: u64 = match self.arch_u64("ssm.time_step_rank") {
            Some(v) => v,
            None => or_default(self.arch_u64("ssm.group_count"), 32),
        };
        let count: u64 = count_flags(recurrent) as u64;
        proof {
            lemma_state(d_conv as nat, d_inner as nat, heads as nat, d_state as nat, count as nat);
        }
        if count == 0 {
            return Some(0);
        }
        let conv: u128 = wide_product(d_conv, d_inner);
        let row: u128 = wide_product(heads, d_state);
        if conv > u64::MAX as u128 || row > u64::MAX as u128 {
            return None;
        }
        let matrix: u128 = wide_product(row as u64, d_state);
        if matrix > u64::MAX as u128 {
            return None;
        }
        let per_layer: u128 = (conv + matrix) * 4;
        if per_layer > u64::MAX as u128 {
            return None;
        }
        let all: u128 = wide_product(per_layer as u64, count);
        if all > u64::MAX as u128 {
            return None;
        }
        Some(all as u64)
    }

    /// Whether the sizes of the model are in range.
    pub fn measurable(&self) -> (r: bool)
        ensures
            r == self@.measurable(),
    {
        let (n_layer, n_total) = self.block_counts();
        let per = self.head_list();
        let ghost k = self@.blocks();
        let ghost ts = self@.tensors;
        let mut bytes: u64 = 0;
        let mut params: u64 = 0;
        let mut i: usize = 0;
        while i < self.tensors.len()
            invariant
                i <= self.tensors.len(),
                k == self@.blocks(),
                k == (Blocks { n_layer: n_layer as nat, n_total: n_total as nat }),
                ts == self@.tensors,
                forall|j: int| 0 <= j < i ==> (#[trigger] ts[j]).elements() <= u64::MAX,
                bytes == total(ts, i as nat, all_bytes()),
                params == total(ts, i as nat, param_count(k)),
            decreases self.tensors.len() - i,
        {
            let t = &self.tensors[i];
            assert(ts[i as int] == t@);
            let e = match t.elements_checked() {
                Some(e) => e,
                None => {
                    return false;
                },
            };
            proof {
                lemma_total_grows(ts, (i + 1) as nat, ts.len(), all_bytes());
                lemma_total_grows(ts, (i + 1) as nat, ts.len(), param_count(k));
            }
            let b = match t.bytes_checked() {
                Some(b) => b,
                None => {
                    return false;
                },
            };
            bytes = match bytes.checked_add(b) {
                Some(s) => s,
                None => {
                    return false;
                },
            };
            if !mtp_exec(t, n_layer, n_total) {
                params = match params.checked_add(e) {
                    Some(s) => s,
                    None => {
                        return false;
                    },
                };
            }
            i += 1;
        }
        let (_, rec) = self.layers_by_kind(n_layer, n_total, &per);
        self.state_bytes_checked(&rec).is_some()
    }

    /// The bytes by layer, of the feed-forward part by layer, of the prediction head
    /// and of the rest; the number of parameters; and whether there is a prediction
    /// head.
    fn measure(&self, n_layer: u32, n_total: u32) -> (r: (Vec<u64>, Vec<u64>, u64, u64, u64, u64, bool))
        requires
            self@.blocks() == (Blocks { n_layer: n_layer as nat, n_total: n_total as nat }),
            self@.measurable(),
        ensures
            r.0@ == self@.facts().layer_bytes,
            r.1@ == self@.facts().layer_ffn_bytes,
            r.2 == self@.facts().mtp_bytes,
            r.3 == self@.facts().nonlayer_bytes,
            r.4 == self@.facts().n_params,
            r.5 == self@.facts().total_bytes,
            r.6 == self@.facts().has_mtp,
    {
        let ghost k = self@.blocks();
        let ghost ts = self@.tensors;
        let ghost all = ts.len();
        let mut layers: Vec<u64> = vec![0u64; n_layer as usize];
        let mut ffn: Vec<u64> = vec![0u64; n_layer as usize];
        let mut mtp: u64 = 0;
        let mut other: u64 = 0;
        let mut params: u64 = 0;
        let mut sum: u64 = 0;
        let mut has_mtp = false;
        let mut i: usize = 0;
        while i < self.tensors.len()
            invariant
                i <= self.tensors.len(),
                k == self@.blocks(),
                k == (Blocks { n_layer: n_layer as nat, n_total: n_total as nat }),
                ts == self@.tensors,
                all == ts.len(),
                self@.measurable(),
                layers.len() == n_layer,
                ffn.len() == n_layer,
                forall|b: int|
                    0 <= b < n_layer ==> #[trigger] layers@[b] == total(ts, i as nat, layer_weight(k, b as nat)),
                forall|b: int| 0 <= b < n_layer ==> #[trigger] ffn@[b] == total(ts, i as nat, ffn_weight(k, b as nat)),
                mtp == total(ts, i as nat, mtp_weight(k)),
                other == total(ts, i as nat, other_weight(k)),
                params == total(ts, i as nat, param_count(k)),
                sum == total(ts, i as nat, all_bytes()),
                has_mtp == some_tensor(ts, i as nat, mtp_tensor(k)),
            decreases self.tensors.len() - i,
        {
            let t = &self.tensors[i];
            assert(ts[i as int] == t@);
            let ghost next = (i + 1) as nat;
            proof {
                lemma_total_grows(ts, next, all, all_bytes());
                lemma_total_grows(ts, next, all, param_count(k));
                lemma_total_within(ts, next, mtp_weight(k), all_bytes());
                lemma_total_within(ts, next, other_weight(k), all_bytes());
                assert(t@.bytes() <= total(ts, next, all_bytes()));
            }
            let bytes = t.n_bytes();
            sum = sum + bytes;
            if mtp_exec(t, n_layer, n_total) {
                has_mtp = true;
                mtp = mtp + bytes;
            } else {
                params = params + t.n_elements();
                match t.block_index() {
                    Some(b) => {
                        if b < n_layer {
                            proof {
                                lemma_total_within(ts, next, layer_weight(k, b as nat), all_bytes());
                                lemma_total_within(ts, next, ffn_weight(k, b as nat), all_bytes());
                            }
                            let x = layers[b as usize] + bytes;
                            layers.set(b as usize, x);
                            if contains(t.name.as_str(), ".ffn_") {
                                let y = ffn[b as usize] + bytes;
                                ffn.set(b as usize, y);
                            }
                        } else {
                            other = other + bytes;
                        }
                    },
                    None => {
                        other = other + bytes;
                    },
                }
            }
            i += 1;
        }
        assert(layers@ =~= self@.facts().layer_bytes);
        assert(ffn@ =~= self@.facts().layer_ffn_bytes);
        (layers, ffn, mtp, other, params, sum, has_mtp)
    }

    fn text_of(&self, key: &str) -> (r: Option<String>)
        ensures
            opt_string(r) == self@.text(key@),
    {
        match self.get(key) {
            Some(v) => match v.as_str() {
                Some(s) => Some(s.to_owned()),
                None => None,
            },
            None => None,
        }
    }

    /// What the planner and the harness need to know of the model.
    pub fn facts(&self) -> (r: ModelFacts)
        requires
            self@.measurable(),
        ensures
            r@ == self@.facts(),
    {
        let (n_layer, n_total) = self.block_counts();
        let per = self.head_list();
        let n_embd: u32 = or_default(self.arch_u64("embedding_length"), 0) as u32;
        let n_head: u32 = or_default(self.arch_u64("attention.head_count"), 0) as u32;
        let n_head_kv = self.kv_head_count(&per);
        let head_dim: u32 = match self.arch_u64("attention.key_length") {
            Some(v) => v as u32,
            None => if n_head > 0 && n_embd > 0 {
                n_embd / n_head
            } else {
                128
            },
        };
        let value_dim: u32 = match self.arch_u64("attention.value_length") {
            Some(v) => v as u32,
            None => head_dim,
        };
        let (is_attn, is_recurrent) = self.layers_by_kind(n_layer, n_total, &per);
        let n_attn_layers: u32 = count_flags(&is_attn) as u32;
        let n_recurrent_layers: u32 = count_flags(&is_recurrent) as u32;
        let state: u64 = or_default(self.state_bytes_checked(&is_recurrent), 0);
        let (layer_bytes, layer_ffn_bytes, mtp_bytes, nonlayer_bytes, n_params, total_bytes, has_mtp) = self.measure(
            n_layer,
            n_total,
        );
        let n_vocab: u32 = match self.get("tokenizer.ggml.tokens") {
            Some(v) => match v.as_array() {
                Some(a) => a.len() as u32,
                None => 0,
            },
            None => 0,
        };
        let name = match self.text_of("general.name") {
            Some(s) => s,
            None => String::new(),
        };
        let quant = match self.get("general.file_type") {
            Some(v) => match v.as_u64() {
                Some(t) => file_type_name(t).to_owned(),
                None => "?".to_owned(),
            },
            None => "?".to_owned(),
        };
        ModelFacts {
            path: self.path.clone(),
            name,
            arch: self.arch(),
            quant,
            n_layer,
            n_embd,
            n_head,
            n_head_kv,
            head_dim,
            value_dim,
            n_attn_layers,
            n_recurrent_layers,
            is_attn,
            n_ctx_train: or_default(self.arch_u64("context_length"), 32768) as u32,
            n_vocab,
            has_mtp,
            mtp_bytes,
            layer_bytes,
            layer_ffn_bytes,
            nonlayer_bytes,
            total_bytes,
            file_size: self.file_size,
            recurrent_state_bytes_per_seq: state,
            chat_template: self.text_of("tokenizer.chat_template"),
            n_params,
            expert_count: or_default(self.arch_u64("expert_count"), 0) as u32,
            expert_used_count: or_default(self.arch_u64("expert_used_count"), 0) as u32,
        }
    }
}

/// Facts on the products of the state formula: none of the intermediate results is
/// greater than the whole.
proof fn lemma_state(a: nat, b: nat, h: nat, d: nat, n: nat)
    ensures
        a * b >= 0,
        n == 0 ==> (a * b + h * d * d) * 4 * n == 0,
        n > 0 ==> a * b <= (a * b + h * d * d) * 4 * n,
        n > 0 ==> h * d <= (a * b + h * d * d) * 4 * n,
        n > 0 ==> h * d * d <= (a * b + h * d * d) * 4 * n,
        n > 0 ==> (a * b + h * d * d) * 4 <= (a * b + h * d * d) * 4 * n,
{
    let x = a * b;
    let y = h * d * d;
    assert(x >= 0) by (nonlinear_arith)
        requires
            x == a * b,
    ;
    assert(y >= 0) by (nonlinear_arith)
        requires
            y == h * d * d,
    ;
    assert(h * d <= h * d * d) by (nonlinear_arith);
    let z = (x + y) * 4;
    if n == 0 {
        assert(z * n == 0) by (nonlinear_arith)
            requires
                n == 0,
        ;
    } else {
        assert(z <= z * n) by (nonlinear_arith)
            requires
                n >= 1,
                z >= 0,
        ;
    }
}

// ---------------------------------------------------------------- what follows

/// The sum of the first `n` numbers.
pub open spec fn sum_first(v: Seq<u64>, n: nat) -> nat
    decreases n,
{
    if n == 0 || n > v.len() {
        0
    } else {
        sum_first(v, (n - 1) as nat) + v[n - 1] as nat
    }
}

/// The sum of the numbers from place `from` on.
pub open spec fn sum_from(v: Seq<u64>, from: int) -> nat
    decreases v.len() - from,
{
    if from < 0 || from >= v.len() {
        0
    } else {
        v[from] as nat + sum_from(v, from + 1)
    }
}

/// The quotient rounded to the nearest, a half to the even one.
pub open spec fn rounded(n: nat, d: nat) -> nat {
    let q = n / d;
    let r = n % d;
    if 2 * r > d || (2 * r == d && q % 2 == 1) {
        q + 1
    } else {
        q
    }
}

/// A quotient in decimal with two places.
pub open spec fn two_places(n: nat, d: nat) -> Seq<char> {
    let h = rounded(n * 100, d);
    dec(h / 100) + "."@ + padded(dec(h % 100), 2)
}

/// Bytes in GiB with two places.
pub open spec fn gib(bytes: nat) -> Seq<char> {
    two_places(bytes, 0x4000_0000)
}

/// Bytes in whole MiB.
pub open spec fn mib(bytes: nat) -> Seq<char> {
    dec(rounded(bytes, 0x10_0000))
}

fn round(n: u128, d: u128) -> (r: u128)
    requires
        0 < d <= 0xffff_ffff_ffff,
        n <= 0xffff_ffff_ffff_ffff_ffff_ffff,
    ensures
        r == rounded(n as nat, d as nat),
        r <= n + 1,
{
    let q: u128 = n / d;
    let m: u128 = n % d;
    proof {
        assert(n as int / d as int <= n as int) by (nonlinear_arith)
            requires
                d >= 1,
                n >= 0,
        ;
    }
    if 2 * m > d || (2 * m == d && q % 2 == 1) {
        q + 1
    } else {
        q
    }
}

/// Bytes in GiB with one place.
pub open spec fn gib_tenths(bytes: nat) -> Seq<char> {
    let h = rounded(bytes * 10, 0x4000_0000);
    dec(h / 10) + "."@ + dec(h % 10)
}

/// Bytes in GiB with one place.
pub fn gib_tenths_text(bytes: u64) -> (r: String)
    ensures
        r@ == gib_tenths(bytes as nat),
{
    let h: u128 = round(bytes as u128 * 10, 0x4000_0000);
    dec_u128(h / 10).concat(".").concat(dec_u128(h % 10).as_str())
}

pub fn gib_text(bytes: u64) -> (r: String)
    ensures
        r@ == gib(bytes as nat),
{
    let h: u128 = round(bytes as u128 * 100, 0x4000_0000);
    let frac = dec_u128(h % 100);
    dec_u128(h / 100).concat(".").concat(pad_zeros(frac.as_str(), 2).as_str())
}

pub fn mib_text(bytes: u64) -> (r: String)
    ensures
        r@ == mib(bytes as nat),
{
    dec_u128(round(bytes as u128, 0x10_0000))
}

pub open spec fn flag_word(b: bool) -> Seq<char> {
    if b {
        "true"@
    } else {
        "false"@
    }
}

impl FactsV {
    /// The bytes of the weights that `ngl` layers put on the GPU; one layer more
    /// than there are takes the embeddings and the output there too.
    pub open spec fn gpu_weights(self, ngl: nat) -> nat {
        let n = self.layer_bytes.len();
        sum_first(
            self.layer_bytes,
            if ngl <= n {
                ngl
            } else {
                n
            },
        ) + (if ngl > n {
            self.nonlayer_bytes as nat
        } else {
            0
        })
    }

    /// The bytes of the feed-forward part of the last `k` blocks.
    pub open spec fn ffn_tail(self, k: nat) -> nat {
        let n = self.layer_ffn_bytes.len();
        sum_from(
            self.layer_ffn_bytes,
            if k <= n {
                n - k
            } else {
                0
            },
        )
    }

    pub open spec fn summary(self, win: bool) -> Seq<char> {
        self.name + " ["@ + self.arch + "] "@ + base_name(self.path, win) + " quant="@ + self.quant + " layers="@ + dec(
            self.n_layer as nat,
        ) + " (attn "@ + dec(self.n_attn_layers as nat) + ", recurrent "@ + dec(self.n_recurrent_layers as nat)
            + ") kv_heads="@ + dec(self.n_head_kv as nat) + " head_dim="@ + dec(self.head_dim as nat) + " ctx_train="@
            + dec(self.n_ctx_train as nat) + " mtp="@ + flag_word(self.has_mtp) + " weights="@ + gib(
            self.total_bytes as nat,
        ) + " GiB"@
    }
}

impl ModelFacts {
    /// The model has layers of both kinds.
    pub fn is_hybrid(&self) -> (r: bool)
        ensures
            r == (self.n_recurrent_layers > 0 && self.n_attn_layers > 0),
    {
        self.n_recurrent_layers > 0 && self.n_attn_layers > 0
    }

    /// The model is a mixture of experts.
    pub fn is_moe(&self) -> (r: bool)
        ensures
            r == (self.expert_count > 0 && self.expert_used_count > 0),
    {
        self.expert_count > 0 && self.expert_used_count > 0
    }

    /// The bytes of the weights that `ngl` layers put on the GPU, held to the range
    /// of `u64`.
    pub fn weights_bytes_on_gpu(&self, ngl: u32) -> (r: u64)
        ensures
            r == at_most(self@.gpu_weights(ngl as nat), u64::MAX as nat),
    {
        let len = self.layer_bytes.len();
        let n: usize = if (ngl as u64) <= len as u64 {
            ngl as usize
        } else {
            len
        };
        let mut s: u64 = 0;
        let mut i: usize = 0;
        while i < n
            invariant
                i <= n <= self.layer_bytes.len(),
                s == at_most(sum_first(self.layer_bytes@, i as nat), u64::MAX as nat),
            decreases n - i,
        {
            s = s.saturating_add(self.layer_bytes[i]);
            i += 1;
        }
        if ngl as u64 > len as u64 {
            s.saturating_add(self.nonlayer_bytes)
        } else {
            s
        }
    }

    /// The bytes that move to the CPU when the feed-forward parts of the last `k`
    /// blocks do, held to the range of `u64`.
    pub fn ffn_tail_bytes(&self, k: usize) -> (r: u64)
        ensures
            r == at_most(self@.ffn_tail(k as nat), u64::MAX as nat),
    {
        let n = self.layer_ffn_bytes.len();
        let from: usize = if k <= n {
            n - k
        } else {
            0
        };
        let mut s: u64 = 0;
        let mut i: usize = n;
        while i > from
            invariant
                from <= i <= n,
                n == self.layer_ffn_bytes.len(),
                s == at_most(sum_from(self.layer_ffn_bytes@, i as int), u64::MAX as nat),
            decreases i,
        {
            i -= 1;
            s = s.saturating_add(self.layer_ffn_bytes[i]);
        }
        s
    }

    /// One line on the model.
    pub fn summary(&self, windows: bool) -> (r: String)
        ensures
            r@ == self@.summary(windows),
    {
        let mtp = if self.has_mtp {
            "true"
        } else {
            "false"
        };
        self.name.clone().concat(" [").concat(self.arch.as_str()).concat("] ").concat(
            file_name(self.path.as_str(), windows).as_str(),
        ).concat(" quant=").concat(self.quant.as_str()).concat(" layers=").concat(
            dec_u64(self.n_layer as u64).as_str(),
        ).concat(" (attn ").concat(dec_u64(self.n_attn_layers as u64).as_str()).concat(", recurrent ").concat(
            dec_u64(self.n_recurrent_layers as u64).as_str(),
        ).concat(") kv_heads=").concat(dec_u64(self.n_head_kv as u64).as_str()).concat(" head_dim=").concat(
            dec_u64(self.head_dim as u64).as_str(),
        ).concat(" ctx_train=").concat(dec_u64(self.n_ctx_train as u64).as_str()).concat(" mtp=").concat(mtp).concat(
            " weights=",
        ).concat(gib_text(self.total_bytes).as_str()).concat(" GiB")
    }
}

} // verus!
