//! The attention layer: its weights, kernels and switches.

use vstd::prelude::*;

use crate::gpu::{DenseWeight, DevicePtr, F32Bits, Fp8Weight, KernelHandle, QuantizedWeight};
use crate::kv_cache::KvCacheDtype;
use crate::mtp::HcHeadWeights;

verus! {

/// Hyper-connection weights of one residual site.
#[derive(Clone, Copy, PartialEq, Eq, Structural, Debug)]
pub struct HcSite {
    pub hc_fn: DevicePtr,
    pub hc_scale: DevicePtr,
    pub hc_base: DevicePtr,
}

/// Hyper-connection weights of a layer.
#[derive(Clone, Copy, PartialEq, Eq, Structural, Debug)]
pub struct HcWeights {
    pub hc_mult: usize,
    pub sinkhorn_iters: usize,
    pub hc_eps: F32Bits,
    pub attn: HcSite,
    pub ffn: HcSite,
    /// The collapse after the last layer.
    pub head: Option<HcHeadWeights>,
}

/// Latent-attention weights of a layer.
#[derive(Clone, Copy, PartialEq, Eq, Structural, Debug)]
pub struct MlaWeights {
    pub q_lora_rank: usize,
    pub kv_lora_rank: usize,
    pub o_lora_rank: usize,
    pub nope: usize,
    pub rope: usize,
    pub wq_a: DenseWeight,
    pub wq_a_fp8: Option<Fp8Weight>,
    pub wq_a_nvfp4: Option<QuantizedWeight>,
    pub q_a_norm: DenseWeight,
    pub wq_b: DenseWeight,
    pub wq_b_fp8: Option<Fp8Weight>,
    pub wq_b_nvfp4: Option<QuantizedWeight>,
    pub wkv_a: DenseWeight,
    pub wkv_a_fp8: Option<Fp8Weight>,
    pub wkv_a_nvfp4: Option<QuantizedWeight>,
    pub kv_a_norm: DenseWeight,
    pub wo_a: DenseWeight,
    pub wo_a_fp8: Option<Fp8Weight>,
    pub wo_b: DenseWeight,
    pub wo_b_fp8: Option<Fp8Weight>,
    pub attn_sink: DevicePtr,
    /// The layer compresses its keys and values.
    pub compressor: bool,
    pub main_inv_freq: DevicePtr,
    pub yarn_inv_freq: DevicePtr,
    /// The magnitude correction that goes with `yarn_inv_freq`.
    pub yarn_mscale: F32Bits,
}

/// Scratch that down projections are transposed in.
#[derive(Clone, Copy, PartialEq, Eq, Structural, Debug)]
pub struct DownScratch {
    pub packed: DevicePtr,
    pub scale: DevicePtr,
    pub packed_ptrs: DevicePtr,
    pub scale_ptrs: DevicePtr,
}

/// One attention layer.
#[derive(Clone, Copy, PartialEq, Eq, Structural, Debug)]
pub struct Qwen3AttentionLayer {
    /// The layer's place in the model.
    pub attn_layer_idx: usize,
    pub kv_dtype: KvCacheDtype,
    pub input_norm: DenseWeight,
    pub post_attn_norm: DenseWeight,
    pub post_attn_out_norm: Option<DenseWeight>,
    pub post_ffn_out_norm: Option<DenseWeight>,
    pub pre_moe_norm: Option<DenseWeight>,
    pub post_moe_out_norm: Option<DenseWeight>,
    pub post_dense_ffn_norm: Option<DenseWeight>,
    /// A feed-forward block follows the attention.
    pub has_ffn: bool,
    /// That block routes on single-precision input.
    pub fp32_routing: bool,
    /// That block is one of experts.
    pub ffn_is_moe: bool,
    /// An expert block runs beside a dense feed-forward block.
    pub has_moe_ffn: bool,
    /// Where the down projections of the block are transposed, step by step.
    pub ffn_down_scratch: Option<DownScratch>,
    /// The same for the expert block beside it.
    pub moe_ffn_down_scratch: Option<DownScratch>,
    pub layer_scalar: Option<F32Bits>,
    pub hc: Option<HcWeights>,
    pub mla: Option<MlaWeights>,
    /// The attention window, where it slides.
    pub sliding_window: Option<u32>,
    /// The factor on the attention scores.
    pub attn_scale: F32Bits,
    /// The scales of an eight-bit cache are still being calibrated.
    pub fp8_calibration: bool,
    pub rms_norm_k: KernelHandle,
    pub rms_norm_w_k: KernelHandle,
    pub rms_norm_residual_k: KernelHandle,
    pub residual_add_k: KernelHandle,
    pub residual_add_rms_norm_k: KernelHandle,
    pub residual_add_rms_norm_gatef32_k: KernelHandle,
    pub hc_expand_k: KernelHandle,
    pub hc_post_k: KernelHandle,
    pub hc_head_k: KernelHandle,
    pub hc_pre_mix_parallel_k: KernelHandle,
    pub hc_pre_finalize_k: KernelHandle,
    pub dense_gemv_k: KernelHandle,
    pub w4a16_gemv_batch2_k: KernelHandle,
    pub w8a16_gemv_batch4_k: KernelHandle,
    pub mla_q_rope_extract_batched_k: KernelHandle,
    pub mla_q_rope_writeback_batched_k: KernelHandle,
    pub mla_cache_assemble_batched_k: KernelHandle,
    pub rope_yarn_interleaved_k: KernelHandle,
    pub rope_yarn_interleaved_inv_k: KernelHandle,
    pub reshape_cache_k: KernelHandle,
    pub wht_bf16_k: KernelHandle,
    pub prefill_attn_512_k: KernelHandle,
    pub prefill_attn_paged_512_k: KernelHandle,
    pub prefill_attn_paged_64_k: KernelHandle,
    pub prefill_attn_paged_k: KernelHandle,
    pub prefill_attn_paged_fp8_64_k: KernelHandle,
    pub prefill_attn_paged_fp8_k: KernelHandle,
    pub prefill_attn_paged_nvfp4_64_k: KernelHandle,
    pub prefill_attn_paged_nvfp4_k: KernelHandle,
}

/// A draft stage: a layer body as the block drafter uses it.
#[derive(Clone, Copy, PartialEq, Eq, Structural, Debug)]
pub struct DsparkStage {
    pub attn_norm: DenseWeight,
    pub ffn_norm: DenseWeight,
    pub hc: Option<HcWeights>,
    pub mla: Option<MlaWeights>,
}

/// What the assembly of a draft stage starts from. The remaining tensors of the
/// stage are found under `mtp.<stage>`.
#[derive(Clone, Copy, PartialEq, Eq, Structural, Debug)]
pub struct StageRequest {
    pub stage: usize,
    pub layer_idx: usize,
    pub force_all_experts: bool,
    pub attn_norm: DenseWeight,
    pub ffn_norm: DenseWeight,
    pub wq_a: DenseWeight,
    pub wq_b: DenseWeight,
    pub q_a_norm: DenseWeight,
    pub wkv_a: DenseWeight,
    pub kv_a_norm: DenseWeight,
    pub wo_a: DenseWeight,
    pub wo_b: DenseWeight,
    pub yarn_inv_freq: DevicePtr,
    pub hc_head: Option<HcHeadWeights>,
}

} // verus!
