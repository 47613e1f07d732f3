//! Loading the standalone block drafter.
//!
//! The checkpoint names its tensors in the plain layout, or with `model.` in
//! front of every name. `markov_head.markov_w1` tells it from other drafters.
//! The drafter may carry its own embedding and language-model head; where it
//! does not, the target's are shared.

use vstd::prelude::*;

use crate::gpu::{DenseWeight, DevicePtr, F32Bits};
use crate::text::{decimal, join, join_numbered};
use crate::trace::GpuBackend;
use crate::weights::{dense_all, first_missing, name_views, LoadError, WeightStore};

verus! {

/// A drafter's `config.json`.
#[derive(Debug)]
pub struct DSparkConfig {
    pub hidden_size: usize,
    pub num_hidden_layers: usize,
    pub intermediate_size: usize,
    pub num_attention_heads: usize,
    pub num_key_value_heads: usize,
    pub head_dim: usize,
    pub vocab_size: usize,
    pub tie_word_embeddings: bool,
    /// Tokens drafted per block.
    pub block_size: usize,
    /// Rank of the Markov factors.
    pub markov_rank: usize,
    pub markov_head_type: Option<String>,
    /// The checkpoint has a trained confidence head.
    pub enable_confidence_head: bool,
    /// The confidence head reads the Markov row beside the hidden row.
    pub confidence_head_with_markov: bool,
    /// Fills the positions that are still to be predicted.
    pub mask_token_id: u32,
    /// The target layers whose hidden rows the drafter reads, shallow to deep.
    pub target_layer_ids: Vec<usize>,
    pub rms_norm_eps: F32Bits,
    pub max_position_embeddings: usize,
    /// The attention output is gated.
    pub attn_output_gate: bool,
    /// The rotary parameters, as they were written.
    pub rope_parameters: Option<String>,
}

/// The block size where the file names none.
pub fn default_block_size() -> (r: usize)
    ensures
        r == 7,
{
    7
}

/// The Markov rank where the file names none.
pub fn default_markov_rank() -> (r: usize)
    ensures
        r == 256,
{
    256
}

/// The bits of 1e-6, the norm epsilon where the file names none.
pub fn default_rms_eps() -> (r: F32Bits)
    ensures
        r == F32Bits(0x3586_37bd),
{
    F32Bits(0x3586_37bd)
}

pub open spec fn text_of(s: Option<String>) -> Option<Seq<char>> {
    match s {
        Some(t) => Some(t@),
        None => None,
    }
}

/// Two configurations say the same.
pub open spec fn same_config(a: DSparkConfig, b: DSparkConfig) -> bool {
    &&& a.hidden_size == b.hidden_size
    &&& a.num_hidden_layers == b.num_hidden_layers
    &&& a.intermediate_size == b.intermediate_size
    &&& a.num_attention_heads == b.num_attention_heads
    &&& a.num_key_value_heads == b.num_key_value_heads
    &&& a.head_dim == b.head_dim
    &&& a.vocab_size == b.vocab_size
    &&& a.tie_word_embeddings == b.tie_word_embeddings
    &&& a.block_size == b.block_size
    &&& a.markov_rank == b.markov_rank
    &&& text_of(a.markov_head_type) == text_of(b.markov_head_type)
    &&& a.enable_confidence_head == b.enable_confidence_head
    &&& a.confidence_head_with_markov == b.confidence_head_with_markov
    &&& a.mask_token_id == b.mask_token_id
    &&& a.target_layer_ids@ == b.target_layer_ids@
    &&& a.rms_norm_eps == b.rms_norm_eps
    &&& a.max_position_embeddings == b.max_position_embeddings
    &&& a.attn_output_gate == b.attn_output_gate
    &&& text_of(a.rope_parameters) == text_of(b.rope_parameters)
}

fn copy_text(s: &Option<String>) -> (r: Option<String>)
    ensures
        text_of(r) == text_of(*s),
{
    match s {
        Some(t) => Some(t.clone()),
        None => None,
    }
}

impl DSparkConfig {
    /// A copy.
    pub fn duplicate(&self) -> (r: DSparkConfig)
        ensures
            same_config(r, *self),
    {
        let mut target_layer_ids: Vec<usize> = Vec::new();
        let mut i: usize = 0;
        while i < self.target_layer_ids.len()
            invariant
                i <= self.target_layer_ids@.len(),
                target_layer_ids@ == self.target_layer_ids@.take(i as int),
            decreases self.target_layer_ids@.len() - i,
        {
            target_layer_ids.push(self.target_layer_ids[i]);
            i += 1;
            assert(target_layer_ids@ =~= self.target_layer_ids@.take(i as int));
        }
        assert(target_layer_ids@ =~= self.target_layer_ids@);
        DSparkConfig {
            hidden_size: self.hidden_size,
            num_hidden_layers: self.num_hidden_layers,
            intermediate_size: self.intermediate_size,
            num_attention_heads: self.num_attention_heads,
            num_key_value_heads: self.num_key_value_heads,
            head_dim: self.head_dim,
            vocab_size: self.vocab_size,
            tie_word_embeddings: self.tie_word_embeddings,
            block_size: self.block_size,
            markov_rank: self.markov_rank,
            markov_head_type: copy_text(&self.markov_head_type),
            enable_confidence_head: self.enable_confidence_head,
            confidence_head_with_markov: self.confidence_head_with_markov,
            mask_token_id: self.mask_token_id,
            target_layer_ids,
            rms_norm_eps: self.rms_norm_eps,
            max_position_embeddings: self.max_position_embeddings,
            attn_output_gate: self.attn_output_gate,
            rope_parameters: copy_text(&self.rope_parameters),
        }
    }
}

/// The weights of one drafter layer.
#[derive(Clone, Copy, PartialEq, Eq, Structural, Debug)]
pub struct DSparkLayerWeights {
    pub input_layernorm: DenseWeight,
    pub post_attention_layernorm: DenseWeight,
    pub q_proj: DenseWeight,
    pub k_proj: DenseWeight,
    pub v_proj: DenseWeight,
    pub o_proj: DenseWeight,
    pub q_norm: DenseWeight,
    pub k_norm: DenseWeight,
    pub gate_proj: DenseWeight,
    pub up_proj: DenseWeight,
    pub down_proj: DenseWeight,
}

/// The weights of the drafter.
#[derive(Debug)]
pub struct DSparkWeights {
    pub config: DSparkConfig,
    /// Projects the stack of target rows.
    pub fc: DenseWeight,
    /// Norm of the projected rows.
    pub hidden_norm: DenseWeight,
    /// Norm before the language-model head.
    pub norm: DenseWeight,
    /// The drafter's own embedding; without it the target's is shared.
    pub embed_tokens: Option<DenseWeight>,
    /// The drafter's own language-model head; without it the target's is shared.
    pub lm_head: Option<DenseWeight>,
    pub layers: Vec<DSparkLayerWeights>,
    pub markov_w1: DenseWeight,
    pub markov_w2: DenseWeight,
    /// The confidence head, weight and bias: there exactly where it is enabled.
    pub confidence_proj_weight: Option<DenseWeight>,
    pub confidence_proj_bias: Option<DenseWeight>,
}

// ── names ──
/// Every name of the checkpoint carries this in front.
pub open spec fn name_prefix(store: Map<Seq<char>, DevicePtr>) -> Seq<char> {
    if store.contains_key("model.markov_head.markov_w1.weight"@) {
        "model."@
    } else {
        ""@
    }
}

pub open spec fn is_dspark(store: Map<Seq<char>, DevicePtr>) -> bool {
    store.contains_key("markov_head.markov_w1.weight"@) || store.contains_key("model.markov_head.markov_w1.weight"@)
}

/// Whether a checkpoint holds this drafter.
pub fn store_has_dspark_weights(store: &WeightStore) -> (r: bool)
    requires
        store.wf(),
    ensures
        r == is_dspark(store@),
{
    store.contains("markov_head.markov_w1.weight") || store.contains("model.markov_head.markov_w1.weight")
}

/// A tensor of layer `i`.
pub open spec fn layer_name(prefix: Seq<char>, i: nat, tail: Seq<char>) -> Seq<char> {
    prefix + "layers."@ + decimal(i) + tail
}

/// The tensors of layer `i`.
pub open spec fn layer_names(prefix: Seq<char>, i: nat) -> Seq<Seq<char>> {
    seq![
        layer_name(prefix, i, ".input_layernorm.weight"@),
        layer_name(prefix, i, ".post_attention_layernorm.weight"@),
        layer_name(prefix, i, ".self_attn.q_proj.weight"@),
        layer_name(prefix, i, ".self_attn.k_proj.weight"@),
        layer_name(prefix, i, ".self_attn.v_proj.weight"@),
        layer_name(prefix, i, ".self_attn.o_proj.weight"@),
        layer_name(prefix, i, ".self_attn.q_norm.weight"@),
        layer_name(prefix, i, ".self_attn.k_norm.weight"@),
        layer_name(prefix, i, ".mlp.gate_proj.weight"@),
        layer_name(prefix, i, ".mlp.up_proj.weight"@),
        layer_name(prefix, i, ".mlp.down_proj.weight"@),
    ]
}

/// The tensors of the first `n` layers.
pub open spec fn all_layer_names(prefix: Seq<char>, n: nat) -> Seq<Seq<char>>
    decreases n,
{
    if n == 0 {
        Seq::empty()
    } else {
        all_layer_names(prefix, (n - 1) as nat) + layer_names(prefix, (n - 1) as nat)
    }
}

/// The tensors of the confidence head, where it is enabled.
pub open spec fn confidence_names(prefix: Seq<char>, enabled: bool) -> Seq<Seq<char>> {
    if enabled {
        seq![prefix + "confidence_head.proj.weight"@, prefix + "confidence_head.proj.bias"@]
    } else {
        Seq::empty()
    }
}

/// The tensors that every drafter of `n` layers has, in the order in which they
/// are looked up.
pub open spec fn required_names(prefix: Seq<char>, n: nat, confidence: bool) -> Seq<Seq<char>> {
    seq![prefix + "fc.weight"@, prefix + "hidden_norm.weight"@, prefix + "norm.weight"@] + all_layer_names(prefix, n)
        + seq![prefix + "markov_head.markov_w1.weight"@, prefix + "markov_head.markov_w2.weight"@] + confidence_names(
        prefix,
        confidence,
    )
}

proof fn lemma_layer_names(prefix: Seq<char>, n: nat, i: nat, j: int)
    requires
        i < n,
        0 <= j < 11,
    ensures
        all_layer_names(prefix, n).len() == 11 * n,
        all_layer_names(prefix, n)[11 * i + j] == layer_names(prefix, i)[j],
    decreases n,
{
    lemma_layer_names_len(prefix, (n - 1) as nat);
    if i < n - 1 {
        lemma_layer_names(prefix, (n - 1) as nat, i, j);
    }
}

proof fn lemma_layer_names_len(prefix: Seq<char>, n: nat)
    ensures
        all_layer_names(prefix, n).len() == 11 * n,
    decreases n,
{
    if n > 0 {
        lemma_layer_names_len(prefix, (n - 1) as nat);
    }
}

fn push_layer_names(out: &mut Vec<String>, prefix: &str, i: usize)
    ensures
        name_views(final(out)@) == name_views(old(out)@) + layer_names(prefix@, i as nat),
{
    let lp = join(prefix, "layers.");
    let p = lp.as_str();
    out.push(join_numbered(p, i, ".input_layernorm.weight"));
    out.push(join_numbered(p, i, ".post_attention_layernorm.weight"));
    out.push(join_numbered(p, i, ".self_attn.q_proj.weight"));
    out.push(join_numbered(p, i, ".self_attn.k_proj.weight"));
    out.push(join_numbered(p, i, ".self_attn.v_proj.weight"));
    out.push(join_numbered(p, i, ".self_attn.o_proj.weight"));
    out.push(join_numbered(p, i, ".self_attn.q_norm.weight"));
    out.push(join_numbered(p, i, ".self_attn.k_norm.weight"));
    out.push(join_numbered(p, i, ".mlp.gate_proj.weight"));
    out.push(join_numbered(p, i, ".mlp.up_proj.weight"));
    out.push(join_numbered(p, i, ".mlp.down_proj.weight"));
    assert(name_views(out@) =~= name_views(old(out)@) + layer_names(prefix@, i as nat));
}

fn list_names(prefix: &str, layers: usize, confidence: bool) -> (r: Vec<String>)
    ensures
        name_views(r@) == required_names(prefix@, layers as nat, confidence),
{
    let mut names: Vec<String> = Vec::new();
    names.push(join(prefix, "fc.weight"));
    names.push(join(prefix, "hidden_norm.weight"));
    names.push(join(prefix, "norm.weight"));
    let ghost front = name_views(names@);
    assert(front =~= seq![prefix@ + "fc.weight"@, prefix@ + "hidden_norm.weight"@, prefix@ + "norm.weight"@]);
    let mut i: usize = 0;
    assert(name_views(names@) =~= front + all_layer_names(prefix@, 0));
    while i < layers
        invariant
            i <= layers,
            name_views(names@) == front + all_layer_names(prefix@, i as nat),
        decreases layers - i,
    {
        push_layer_names(&mut names, prefix, i);
        i += 1;
        assert(name_views(names@) =~= front + all_layer_names(prefix@, i as nat));
    }
    names.push(join(prefix, "markov_head.markov_w1.weight"));
    names.push(join(prefix, "markov_head.markov_w2.weight"));
    if confidence {
        names.push(join(prefix, "confidence_head.proj.weight"));
        names.push(join(prefix, "confidence_head.proj.bias"));
    }
    assert(name_views(names@) =~= required_names(prefix@, layers as nat, confidence));
    names
}

// ── loading ──
/// The weight is that of a name.
pub open spec fn is_weight(store: Map<Seq<char>, DevicePtr>, name: Seq<char>, w: DenseWeight) -> bool {
    store.contains_pair(name, w.weight)
}

/// The weight is that of a name, and there is one where there is a tensor.
pub open spec fn is_optional(store: Map<Seq<char>, DevicePtr>, name: Seq<char>, w: Option<DenseWeight>) -> bool {
    match w {
        Some(x) => is_weight(store, name, x),
        None => !store.contains_key(name),
    }
}

pub open spec fn is_layer(store: Map<Seq<char>, DevicePtr>, prefix: Seq<char>, i: nat, w: DSparkLayerWeights) -> bool {
    &&& is_weight(store, layer_name(prefix, i, ".input_layernorm.weight"@), w.input_layernorm)
    &&& is_weight(store, layer_name(prefix, i, ".post_attention_layernorm.weight"@), w.post_attention_layernorm)
    &&& is_weight(store, layer_name(prefix, i, ".self_attn.q_proj.weight"@), w.q_proj)
    &&& is_weight(store, layer_name(prefix, i, ".self_attn.k_proj.weight"@), w.k_proj)
    &&& is_weight(store, layer_name(prefix, i, ".self_attn.v_proj.weight"@), w.v_proj)
    &&& is_weight(store, layer_name(prefix, i, ".self_attn.o_proj.weight"@), w.o_proj)
    &&& is_weight(store, layer_name(prefix, i, ".self_attn.q_norm.weight"@), w.q_norm)
    &&& is_weight(store, layer_name(prefix, i, ".self_attn.k_norm.weight"@), w.k_norm)
    &&& is_weight(store, layer_name(prefix, i, ".mlp.gate_proj.weight"@), w.gate_proj)
    &&& is_weight(store, layer_name(prefix, i, ".mlp.up_proj.weight"@), w.up_proj)
    &&& is_weight(store, layer_name(prefix, i, ".mlp.down_proj.weight"@), w.down_proj)
}

/// A weight of the confidence head: there exactly where the head is enabled.
pub open spec fn is_confidence(
    store: Map<Seq<char>, DevicePtr>,
    name: Seq<char>,
    enabled: bool,
    w: Option<DenseWeight>,
) -> bool {
    match w {
        Some(x) => enabled && is_weight(store, name, x),
        None => !enabled,
    }
}

/// The weights are those of the checkpoint.
pub open spec fn is_loaded(store: Map<Seq<char>, DevicePtr>, config: DSparkConfig, w: DSparkWeights) -> bool {
    let prefix = name_prefix(store);
    &&& same_config(w.config, config)
    &&& is_weight(store, prefix + "fc.weight"@, w.fc)
    &&& is_weight(store, prefix + "hidden_norm.weight"@, w.hidden_norm)
    &&& is_weight(store, prefix + "norm.weight"@, w.norm)
    &&& is_optional(store, prefix + "embed_tokens.weight"@, w.embed_tokens)
    &&& is_optional(store, prefix + "lm_head.weight"@, w.lm_head)
    &&& w.layers@.len() == config.num_hidden_layers
    &&& forall|i: int| 0 <= i < w.layers@.len() ==> is_layer(store, prefix, i as nat, #[trigger] w.layers@[i])
    &&& is_weight(store, prefix + "markov_head.markov_w1.weight"@, w.markov_w1)
    &&& is_weight(store, prefix + "markov_head.markov_w2.weight"@, w.markov_w2)
    &&& is_confidence(
        store,
        prefix + "confidence_head.proj.weight"@,
        config.enable_confidence_head,
        w.confidence_proj_weight,
    )
    &&& is_confidence(
        store,
        prefix + "confidence_head.proj.bias"@,
        config.enable_confidence_head,
        w.confidence_proj_bias,
    )
}

/// The tensor of a name, where there is one.
fn optional(store: &WeightStore, prefix: &str, tail: &str) -> (r: Option<DenseWeight>)
    requires
        store.wf(),
    ensures
        is_optional(store@, prefix@ + tail@, r),
{
    let name = join(prefix, tail);
    match store.get(name.as_str()) {
        Some(weight) => Some(DenseWeight { weight }),
        None => None,
    }
}

/// Layer `i` out of the weights of all required names.
fn take_layer(
    store: &WeightStore,
    prefix: &str,
    names: &Vec<String>,
    ws: &Vec<DenseWeight>,
    i: usize,
    layers: usize,
    confidence: Ghost<bool>,
) -> (r: DSparkLayerWeights)
    requires
        i < layers,
        name_views(names@) == required_names(prefix@, layers as nat, confidence@),
        ws@.len() == names@.len(),
        forall|k: int|
            #![trigger ws@[k]]
            0 <= k < ws@.len() ==> store@.contains_pair(names@[k]@, ws@[k].weight),
    ensures
        is_layer(store@, prefix@, i as nat, r),
{
    let ghost n = layers as nat;
    proof {
        lemma_layer_names_len(prefix@, n);
        assert(ws@.len() == name_views(names@).len());
        assert forall|j: int| 0 <= j < 11 implies is_weight(
            store@,
            #[trigger] layer_names(prefix@, i as nat)[j],
            ws@[3 + 11 * i + j],
        ) by {
            lemma_layer_names(prefix@, n, i as nat, j);
            let k = 3 + 11 * i + j;
            assert(required_names(prefix@, n, confidence@)[k] == all_layer_names(prefix@, n)[11 * i + j]);
            assert(name_views(names@)[k] == names@[k]@);
            assert(store@.contains_pair(names@[k]@, ws@[k].weight));
        }
        let ln = layer_names(prefix@, i as nat);
        assert(is_weight(store@, ln[0], ws@[3 + 11 * i + 0]));
        assert(is_weight(store@, ln[1], ws@[3 + 11 * i + 1]));
        assert(is_weight(store@, ln[2], ws@[3 + 11 * i + 2]));
        assert(is_weight(store@, ln[3], ws@[3 + 11 * i + 3]));
        assert(is_weight(store@, ln[4], ws@[3 + 11 * i + 4]));
        assert(is_weight(store@, ln[5], ws@[3 + 11 * i + 5]));
        assert(is_weight(store@, ln[6], ws@[3 + 11 * i + 6]));
        assert(is_weight(store@, ln[7], ws@[3 + 11 * i + 7]));
        assert(is_weight(store@, ln[8], ws@[3 + 11 * i + 8]));
        assert(is_weight(store@, ln[9], ws@[3 + 11 * i + 9]));
        assert(is_weight(store@, ln[10], ws@[3 + 11 * i + 10]));
    }
    assert(ws@.len() >= 3 + 11 * layers + 2);
    let total: usize = ws.len();
    assert(3 + 11 * i + 10 < total);
    let b: usize = 3 + 11 * i;
    DSparkLayerWeights {
        input_layernorm: ws[b],
        post_attention_layernorm: ws[b + 1],
        q_proj: ws[b + 2],
        k_proj: ws[b + 3],
        v_proj: ws[b + 4],
        o_proj: ws[b + 5],
        q_norm: ws[b + 6],
        k_norm: ws[b + 7],
        gate_proj: ws[b + 8],
        up_proj: ws[b + 9],
        down_proj: ws[b + 10],
    }
}

/// Loads the drafter from its checkpoint: nothing where the checkpoint is not of
/// this drafter, and an error that names the first tensor it lacks. Every rank
/// loads the whole drafter.
pub fn load_dspark_weights<G: GpuBackend>(
    drafter_store: &WeightStore,
    drafter_config: &DSparkConfig,
    _gpu: &G,
    _tp_size: usize,
) -> (r: Result<Option<DSparkWeights>, LoadError>)
    requires
        drafter_store.wf(),
    ensures
        match r {
            Ok(None) => !is_dspark(drafter_store@),
            Ok(Some(w)) => is_dspark(drafter_store@) && is_loaded(drafter_store@, *drafter_config, w),
            Err(LoadError::Missing { name }) => is_dspark(drafter_store@) && first_missing(
                drafter_store@,
                required_names(
                    name_prefix(drafter_store@),
                    drafter_config.num_hidden_layers as nat,
                    drafter_config.enable_confidence_head,
                ),
                name@,
            ),
            Err(LoadError::Gpu(_)) => false,
        },
{
    if !store_has_dspark_weights(drafter_store) {
        return Ok(None);
    }
    let prefix: &str = if drafter_store.contains("model.markov_head.markov_w1.weight") {
        "model."
    } else {
        ""
    };
    assert(prefix@ == name_prefix(drafter_store@));
    let layer_count: usize = drafter_config.num_hidden_layers;
    let confidence = drafter_config.enable_confidence_head;
    let names = list_names(prefix, layer_count, confidence);
    let ws = match dense_all(drafter_store, &names) {
        Ok(ws) => ws,
        Err(e) => {
            return Err(e);
        },
    };
    let ghost req = required_names(prefix@, layer_count as nat, confidence);
    let ghost m = 11 * layer_count as int;
    proof {
        lemma_layer_names_len(prefix@, layer_count as nat);
        assert(name_views(names@).len() == names@.len());
        assert(req.len() == m + 5 + (if confidence { 2int } else { 0 }));
        assert forall|k: int| 0 <= k < req.len() implies is_weight(drafter_store@, #[trigger] req[k], ws@[k]) by {
            assert(name_views(names@)[k] == names@[k]@);
            assert(drafter_store@.contains_pair(names@[k]@, ws@[k].weight));
        }
        assert(is_weight(drafter_store@, req[0], ws@[0]));
        assert(is_weight(drafter_store@, req[1], ws@[1]));
        assert(is_weight(drafter_store@, req[2], ws@[2]));
        assert(is_weight(drafter_store@, req[m + 3], ws@[m + 3]));
        assert(is_weight(drafter_store@, req[m + 4], ws@[m + 4]));
        if confidence {
            assert(is_weight(drafter_store@, req[m + 5], ws@[m + 5]));
            assert(is_weight(drafter_store@, req[m + 6], ws@[m + 6]));
        }
    }
    let mut layers: Vec<DSparkLayerWeights> = Vec::new();
    let mut i: usize = 0;
    while i < layer_count
        invariant
            i <= layer_count,
            layers@.len() == i,
            name_views(names@) == required_names(prefix@, layer_count as nat, confidence),
            ws@.len() == names@.len(),
            forall|k: int|
                #![trigger ws@[k]]
                0 <= k < ws@.len() ==> drafter_store@.contains_pair(names@[k]@, ws@[k].weight),
            forall|j: int| 0 <= j < i ==> is_layer(drafter_store@, prefix@, j as nat, #[trigger] layers@[j]),
        decreases layer_count - i,
    {
        layers.push(take_layer(drafter_store, prefix, &names, &ws, i, layer_count, Ghost(confidence)));
        i += 1;
    }
    let embed_tokens = optional(drafter_store, prefix, "embed_tokens.weight");
    let lm_head = optional(drafter_store, prefix, "lm_head.weight");
    let total: usize = ws.len();
    let last: usize = if confidence { total - 2 } else { total };
    let confidence_proj_weight = if confidence { Some(ws[last]) } else { None };
    let confidence_proj_bias = if confidence { Some(ws[last + 1]) } else { None };
    Ok(
        Some(
            DSparkWeights {
                config: drafter_config.duplicate(),
                fc: ws[0],
                hidden_norm: ws[1],
                norm: ws[2],
                embed_tokens,
                lm_head,
                layers,
                markov_w1: ws[last - 2],
                markov_w2: ws[last - 1],
                confidence_proj_weight,
                confidence_proj_bias,
            },
        ),
    )
}

} // verus!
