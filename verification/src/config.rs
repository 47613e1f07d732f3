//! Model dimensions, the buffer arena and the context of a forward pass.

use vstd::prelude::*;

use crate::gpu::{DevicePtr, F32Bits};
use crate::op::AttnMetadataDev;

verus! {

/// How router scores are turned into weights.
#[derive(Clone, Copy, PartialEq, Eq, Structural, Debug)]
pub enum ScoringFunc {
    Softmax,
    Sigmoid,
    SqrtSoftplus,
}

/// The model family, where a layer has to tell them apart.
#[derive(Clone, Copy, PartialEq, Eq, Structural, Debug)]
pub enum ModelType {
    DeepseekV4,
    Gemma4,
    Other,
}

/// The dimensions of a model.
#[derive(Clone, Copy, PartialEq, Eq, Structural, Debug)]
pub struct ModelConfig {
    pub model_type: ModelType,
    pub hidden_size: usize,
    pub vocab_size: usize,
    pub num_hidden_layers: usize,
    pub num_attention_heads: usize,
    pub head_dim: usize,
    pub kv_lora_rank: usize,
    pub qk_rope_head_dim: usize,
    pub o_groups: usize,
    pub rms_norm_eps: F32Bits,
    pub hc_mult: usize,
    pub hc_eps: F32Bits,
    pub num_experts: usize,
    pub num_experts_per_tok: usize,
    pub moe_intermediate_size: usize,
    pub norm_topk_prob: bool,
    pub routed_scaling_factor: F32Bits,
    pub scoring_func: ScoringFunc,
    pub ep_world_size: usize,
    pub tp_world_size: usize,
    pub num_mtp_modules: usize,
    pub dspark_window_size: usize,
    pub dspark_block_size: usize,
    pub dspark_noise_token_id: u32,
    pub dspark_markov_rank: usize,
    pub linear_num_value_heads: usize,
    pub linear_value_head_dim: usize,
    pub linear_num_key_heads: usize,
    pub linear_key_head_dim: usize,
    pub linear_conv_kernel_dim: usize,
}

/// The device buffers that every layer of a forward pass shares.
#[derive(Clone, Copy, PartialEq, Eq, Structural, Debug)]
pub struct BufferArena {
    pub hidden_states: DevicePtr,
    pub residual: DevicePtr,
    pub norm_output: DevicePtr,
    pub norm_unit_w: DevicePtr,
    pub attn_output: DevicePtr,
    pub moe_output: DevicePtr,
    pub moe_router_in_f32: DevicePtr,
    pub expert_gate_out: DevicePtr,
    pub expert_up_out: DevicePtr,
    pub expert_down_out: DevicePtr,
    pub gate_logits: DevicePtr,
    pub logits: DevicePtr,
    pub hc_streams: DevicePtr,
    pub hc_post: DevicePtr,
    pub hc_comb: DevicePtr,
    pub o_latent: DevicePtr,
    pub splitk_workspace: DevicePtr,
    pub ssm_qkvz: DevicePtr,
    pub ssm_ba: DevicePtr,
    pub ssm_deinterleaved: DevicePtr,
    pub ssm_conv_out_f32: DevicePtr,
    pub token_ids: DevicePtr,
    pub scratch: DevicePtr,
    pub scratch_bytes: usize,
    pub max_batch_tokens: usize,
}

/// What a layer is told besides its own weights.
#[derive(Clone, Copy, PartialEq, Eq, Structural, Debug)]
pub struct ForwardContext {
    pub buffers: BufferArena,
    pub config: ModelConfig,
    pub attn_metadata: Option<AttnMetadataDev>,
    /// A communicator between ranks is attached.
    pub comm: bool,
    /// The commands are being recorded into a replayable graph.
    pub graph_capture: bool,
    pub profile: bool,
    /// Where the ids of the tokens of this step lie.
    pub token_ids: Option<DevicePtr>,
}

} // verus!
