//! The vocabulary of device operations.
//!
//! An [`Op`] names one operation of the kernel library, with its arguments in
//! the order in which the operation takes them. A [`Call`] is an operation that
//! answers with the address of the buffer it wrote.

use vstd::prelude::*;

use crate::config::{ForwardContext, ModelConfig};
use crate::gpu::{DenseWeight, DevicePtr, ExpertPtrs, F32Bits, Fp8ExpertPtrs, Fp8Weight, KernelHandle, QuantizedWeight};
use crate::kv_cache::KvCacheConfig;

verus! {

/// Where attention reads its positions, cache slots, lengths and block tables.
#[derive(Clone, Copy, PartialEq, Eq, Structural, Debug)]
pub struct AttnMetadataDev {
    pub positions: DevicePtr,
    pub positions_h: DevicePtr,
    pub positions_w: DevicePtr,
    pub slot: DevicePtr,
    pub seq_len: DevicePtr,
    pub block_table: DevicePtr,
    pub max_blocks_per_seq: u32,
    pub num_seqs: u32,
    pub seq_slot: DevicePtr,
}

/// Which feed-forward block of a layer an operation runs.
#[derive(Clone, Copy, PartialEq, Eq, Structural, Debug)]
pub enum FfnKind {
    /// The layer's own feed-forward block.
    Main,
    /// The expert block that runs beside a dense one.
    ExtraMoe,
}

/// Which transposed copies of expert weights are made.
#[derive(Clone, Copy, PartialEq, Eq, Structural, Debug)]
pub enum MoeTranspose {
    All,
    GateUp,
    Unified,
    Hybrid,
}

/// The families of layers.
#[derive(Clone, Copy, PartialEq, Eq, Structural, Debug)]
pub enum LayerKind {
    Attention,
    StateSpace,
    /// A layer of the model, whichever of the two it is.
    Model,
    /// The body of the draft head.
    DraftBody,
    /// A stage of the block drafter.
    DraftStage,
}

/// What a state-space layer keeps per sequence.
#[derive(Clone, Copy, PartialEq, Eq, Structural, Debug)]
pub struct SsmLayerState {
    pub h_state: DevicePtr,
    pub conv_state: DevicePtr,
}

/// The state that a stateless layer keeps per sequence.
#[derive(Clone, Copy, PartialEq, Eq, Structural, Debug)]
pub struct EmptyLayerState;

/// What a layer keeps per sequence.
#[derive(Clone, Copy, PartialEq, Eq, Structural, Debug)]
pub enum LayerState {
    Empty(EmptyLayerState),
    StateSpace(SsmLayerState),
}

/// Which key/value cache a layer works on.
#[derive(Clone, Copy, PartialEq, Eq, Structural, Debug)]
pub struct CacheId {
    pub config: KvCacheConfig,
    pub storage: DevicePtr,
}

/// What a whole layer is to do.
#[allow(inconsistent_fields)]
#[derive(Clone, Copy, PartialEq, Eq, Structural, Debug)]
pub enum LayerWork {
    /// One row of one sequence.
    Decode { hidden: DevicePtr, residual: DevicePtr, seq_len: usize },
    /// Several rows of one sequence.
    DecodeBatched { hidden: DevicePtr, residual: DevicePtr, num_tokens: usize, seq_len: usize },
    /// A chunk of one sequence.
    Prefill { hidden: DevicePtr, residual: DevicePtr, num_tokens: usize, seq_len_start: usize, kv_write_start: usize },
    /// The part of a prefill before the recurrence: rows of one stream into the
    /// stacked buffers, from token `token_offset` on.
    PrefillPhase1 { hidden: DevicePtr, residual: DevicePtr, num_tokens: usize, seq_len_start: usize, kv_write_start: usize, gdn: GdnPrefillBuffers, token_offset: usize },
}

/// Work of layer `index` of its kind, with the state that the sequence has there.
#[derive(Clone, Copy, PartialEq, Eq, Structural, Debug)]
pub struct LayerCall {
    pub kind: LayerKind,
    pub index: usize,
    pub state: LayerState,
    pub cache: CacheId,
    pub work: LayerWork,
    pub ctx: ForwardContext,
}

/// The attention block of layer `layer` on one normed row.
#[derive(Clone, Copy, PartialEq, Eq, Structural, Debug)]
pub struct AttendCall {
    pub layer: usize,
    pub normed: DevicePtr,
    pub seq_len: usize,
    pub cache: CacheId,
    pub ctx: ForwardContext,
}

/// The stacked buffers between the phases of a state-space prefill.
#[derive(Clone, Copy, PartialEq, Eq, Structural, Debug)]
pub struct GdnPrefillBuffers {
    pub qkv: DevicePtr,
    pub gates: DevicePtr,
    pub z: DevicePtr,
    pub output: DevicePtr,
}

/// Where a stacked prefill finds what is per stream.
#[derive(Clone, Copy, PartialEq, Eq, Structural, Debug)]
pub struct BatchedAttnMetadata {
    pub positions_stacked: DevicePtr,
    pub slot_stacked: DevicePtr,
    pub block_table_ptrs: DevicePtr,
}

/// Routed expert weights as a kernel takes them.
#[derive(Clone, Copy, PartialEq, Eq, Structural, Debug)]
pub enum ExpertWeights {
    Bf16(DevicePtr),
    Fp8(Fp8ExpertPtrs),
    Nvfp4(ExpertPtrs),
}

/// A shared expert's weight as a kernel takes it.
#[derive(Clone, Copy, PartialEq, Eq, Structural, Debug)]
pub enum SharedWeight {
    Bf16(DevicePtr),
    Fp8(Fp8Weight),
    Nvfp4(QuantizedWeight),
}

/// Which family of two-token expert kernels runs.
#[derive(Clone, Copy, PartialEq, Eq, Structural, Debug)]
pub enum MoeLayout {
    Bf16,
    Fp8,
    Transposed,
    /// Row-major four-bit weights, launched with this many threads per block.
    RowMajor { block: u32 },
}

/// How a key/value pool is laid out.
#[derive(Clone, Copy, PartialEq, Eq, Structural, Debug)]
pub enum PoolLayout {
    Plain,
    Strided { stride: u64 },
    Packed { block_stride: u64, data_bytes: u64 },
    Fp8 { k_scale: F32Bits, v_scale: F32Bits, stride: u64 },
}

/// How router logits are scored.
#[derive(Clone, Copy, PartialEq, Eq, Structural, Debug)]
pub enum TopkScore {
    SqrtSoftplus { bias: DevicePtr, scaling: F32Bits },
    Sigmoid { bias: DevicePtr, scaling: F32Bits },
    Softmax,
}

/// Where in a layer a diagnostic looks.
#[derive(Clone, Copy, PartialEq, Eq, Structural, Debug)]
pub enum DiagPoint {
    HiddenIn,
    Normed,
    AttnOut,
    PostAttnNormed,
    NormedFfn,
    DenseOut,
    PostFfnNormed,
    PostResidual,
    PostLayerScalar,
    HcPreAttn,
    HcPostWeightsAttn,
    HcCombAttn,
    HcPostAttn,
    HcPostAttnAllStreams,
    HcPreFfn,
    HcPostWeightsFfn,
    HcCombFfn,
    HcPostFfn,
    HcPostFfnAllStreams,
    HcHead,
}

/// What a diagnostic looks at.
#[allow(inconsistent_fields)]
#[derive(Clone, Copy, PartialEq, Eq, Structural, Debug)]
pub enum Observation {
    /// The norm of `n` values, singles or BF16.
    Norm { point: DiagPoint, layer: usize, ptr: DevicePtr, n: usize, fp32: bool },
    /// How many different experts a few tokens chose between them.
    ExpertUnion { indices: DevicePtr, tokens: usize, top_k: usize },
}

/// A boundary within a drafter, where its values can be dumped.
#[derive(Clone, Copy, PartialEq, Eq, Structural, Debug)]
pub enum Boundary {
    MainHiddenIn,
    MainProjOut,
    MainNormOut,
    HcPre,
    AttnNorm,
    QProj,
    KvProj,
    SparseOut,
    InverseRope,
    OutLatent,
    OutRows,
    AttnHcPost,
    FfnNorm,
    MoeOut,
    StageOut,
    /// The same values as at `StageOut`, under the name of the other boundaries.
    StageEnd,
    DraftTarget,
    DraftEmbed,
    DraftEmbedBranch,
    DraftStreams,
    DraftBodyStreams,
    DraftBodyRow,
    DraftBodyResidual,
    DraftRecovered,
    DraftCollapsed,
}

/// One device operation.
#[allow(inconsistent_fields)]
#[derive(Clone, Copy, PartialEq, Eq, Structural, Debug)]
pub enum Op {
    // ── memory ──
    CopyD2d { src: DevicePtr, dst: DevicePtr, bytes: usize },
    Memset { ptr: DevicePtr, value: u8, bytes: usize },
    MemsetAsync { ptr: DevicePtr, value: u8, bytes: usize },
    Free { ptr: DevicePtr },
    Synchronize,
    /// A look at device memory for the log; it is never refused.
    Observe { what: Observation },
    /// Drains the device and reads a tensor of `rows` by `cols`, for a dump.
    Dump { at: Boundary, call: usize, src: DevicePtr, rows: u32, cols: u32, fp32: bool },
    // ── collectives ──
    AllReduce { ptr: DevicePtr, bytes: usize },
    AllReduceAsync { ptr: DevicePtr, bytes: usize },
    // ── norms and element-wise ──
    RmsNorm { kernel: KernelHandle, input: DevicePtr, weight: DenseWeight, output: DevicePtr, rows: u32, cols: u32, eps: F32Bits },
    RmsNormResidual { kernel: KernelHandle, hidden: DevicePtr, weight: DenseWeight, output: DevicePtr, residual: DevicePtr, rows: u32, cols: u32, eps: F32Bits },
    ResidualAdd { kernel: KernelHandle, dst: DevicePtr, src: DevicePtr, n: u32 },
    ResidualAddRmsNorm { kernel: KernelHandle, hidden: DevicePtr, add: DevicePtr, weight: DenseWeight, output: DevicePtr, residual: DevicePtr, rows: u32, cols: u32, eps: F32Bits },
    ResidualAddRmsNormGateF32 { kernel: KernelHandle, hidden: DevicePtr, add: DevicePtr, weight: DenseWeight, output: DevicePtr, router_out: DevicePtr, residual: DevicePtr, rows: u32, cols: u32, eps: F32Bits },
    LayerScalar { hidden: DevicePtr, n: usize, scalar: F32Bits },
    ArgmaxBf16 { kernel: KernelHandle, logits: DevicePtr, out: DevicePtr, n: u32 },
    // ── dense products ──
    DenseGemv { kernel: KernelHandle, input: DevicePtr, weight: DenseWeight, output: DevicePtr, n: u32, k: u32 },
    DenseGemm { kernel: KernelHandle, input: DevicePtr, weight: DenseWeight, output: DevicePtr, m: u32, n: u32, k: u32 },
    DenseGemmPipelined { kernel: KernelHandle, input: DevicePtr, weight: DenseWeight, output: DevicePtr, m: u32, n: u32, k: u32 },
    W4a16GemvBatch2 { kernel: KernelHandle, input: DevicePtr, weight: QuantizedWeight, output: DevicePtr, n: u32, k: u32 },
    W8a16GemvBatch2 { kernel: KernelHandle, input: DevicePtr, weight: DevicePtr, row_scale: DevicePtr, output: DevicePtr, n: u32, k: u32 },
    BatchedEmbed { kernel: KernelHandle, ids: DevicePtr, table: DevicePtr, output: DevicePtr, n: u32, h: u32 },
    // ── draft combiner ──
    MtpHcF32ToBf16 { kernel: KernelHandle, src: DevicePtr, dst: DevicePtr, n: u32 },
    MtpHprojGemvBatch4 { kernel: KernelHandle, normed: DevicePtr, weight: DenseWeight, e_branch: DevicePtr, streams: DevicePtr, hc_mult: u32, n: u32, k: u32 },
    MtpHprojBroadcastAdd { kernel: KernelHandle, h_branch: DevicePtr, e_branch: DevicePtr, streams: DevicePtr, rows: u32, hc_mult: u32, h: u32, position: u32 },
    // ── hyper-connections ──
    HcExpand { kernel: KernelHandle, hidden: DevicePtr, streams: DevicePtr, num_tokens: u32, hidden_size: u32, hc_mult: u32 },
    HcPre { kernel: KernelHandle, streams: DevicePtr, hc_fn: DevicePtr, hc_scale: DevicePtr, hc_base: DevicePtr, y_out: DevicePtr, post_out: DevicePtr, comb_out: DevicePtr, num_tokens: u32, hidden_size: u32, hc_mult: u32, sinkhorn_iters: u32, norm_eps: F32Bits, hc_eps: F32Bits },
    HcPost { kernel: KernelHandle, block_out: DevicePtr, residual: DevicePtr, post: DevicePtr, comb: DevicePtr, out: DevicePtr, num_tokens: u32, hidden_size: u32, hc_mult: u32 },
    HcHead { kernel: KernelHandle, streams: DevicePtr, head_fn: DevicePtr, head_scale: DevicePtr, head_base: DevicePtr, y_out: DevicePtr, num_tokens: u32, hidden_size: u32, hc_mult: u32, norm_eps: F32Bits, hc_eps: F32Bits },
    HcStreamMean { kernel: KernelHandle, streams: DevicePtr, out: DevicePtr, num_tokens: u32, hidden_size: u32, hc_mult: u32 },
    HcPreParallel { mix: KernelHandle, finalize: KernelHandle, streams: DevicePtr, hc_fn: DevicePtr, hc_scale: DevicePtr, hc_base: DevicePtr, y_out: DevicePtr, post_out: DevicePtr, comb_out: DevicePtr, num_tokens: u32, hidden_size: u32, hc_mult: u32, sinkhorn_iters: u32, norm_eps: F32Bits, hc_eps: F32Bits },
    // ── latent attention ──
    RopeExtract { kernel: KernelHandle, src: DevicePtr, dst: DevicePtr, count: u32, heads: u32, hd: u32, nope: u32, rope: u32, stride: u32 },
    RopeWriteback { kernel: KernelHandle, src: DevicePtr, dst: DevicePtr, count: u32, heads: u32, hd: u32, nope: u32, rope: u32, stride: u32 },
    RopeYarn { kernel: KernelHandle, q: DevicePtr, k: DevicePtr, positions: DevicePtr, count: u32, nq: u32, nk: u32, head_dim: u32, rope: u32, inv_freq: DevicePtr, mscale: F32Bits },
    DsparkSparseAttention { kernel: KernelHandle, q: DevicePtr, draft_kv: DevicePtr, main_kv: DevicePtr, valid_main_lengths: DevicePtr, attn_sink: DevicePtr, out: DevicePtr, softmax_scale: F32Bits, batch_size: u32, block_size: u32, num_heads: u32, head_dim: u32, window_size: u32 },
    CacheAssemble { kernel: KernelHandle, v: DevicePtr, k_rope: DevicePtr, k_cache: DevicePtr, v_cache: DevicePtr, count: u32, kv_lora: u32, rope: u32, cache_dim: u32 },
    PagedDecode { layer: usize, cache: CacheId, q: DevicePtr, out: DevicePtr, block_table: DevicePtr, seq_len: DevicePtr, max_blocks: u32, count: u32, nq: u32, nkv: u32, hd: u32, block_size: u32, scale: F32Bits, q_stride: u32, workspace: DevicePtr },
    // ── key/value cache ──
    Wht { kernel: KernelHandle, data: DevicePtr, heads: u32, head_dim: u32 },
    ReshapeAndCache { kernel: KernelHandle, k: DevicePtr, v: DevicePtr, k_pool: DevicePtr, v_pool: DevicePtr, slot: DevicePtr, num_tokens: u32, num_kv_heads: u32, head_dim: u32, block_size: u32, key_stride: u32, value_stride: u32, layout: PoolLayout },
    Fp8Observe { layer: usize, k: DevicePtr, v: DevicePtr, num_tokens: u32, num_kv_heads: u32, head_dim: u32 },
    ZeroBlock { cache: CacheId, block: u32 },
    // ── prefill attention ──
    PrefillAttention { kernel: KernelHandle, q: DevicePtr, k: DevicePtr, v: DevicePtr, out: DevicePtr, n: u32, batch: u32, nq: u32, nkv: u32, hd: u32, scale: F32Bits, causal: bool, window: u32 },
    PrefillPaged { kernel: KernelHandle, q: DevicePtr, k_pool: DevicePtr, v_pool: DevicePtr, out: DevicePtr, block_table: DevicePtr, n: u32, kv_len: u32, q_offset: u32, nq: u32, nkv: u32, hd: u32, block_size: u32, window: u32, scale: F32Bits, layout: PoolLayout },
    // ── mixture of experts ──
    MoeTopk { kernel: KernelHandle, score: TopkScore, logits: DevicePtr, indices: DevicePtr, weights: DevicePtr, num_experts: u32, top_k: u32, norm_topk_prob: bool, tokens: u32 },
    MoeGateUp { layout: MoeLayout, kernel: KernelHandle, input: DevicePtr, gate: ExpertWeights, gate_out: DevicePtr, up: ExpertWeights, up_out: DevicePtr, indices: DevicePtr, sh_gate: SharedWeight, sh_gate_out: DevicePtr, sh_up: SharedWeight, sh_up_out: DevicePtr, inter: u32, h: u32, top_k: u32 },
    MoeSiluDown { layout: MoeLayout, kernel: KernelHandle, gate: DevicePtr, up: DevicePtr, down: ExpertWeights, down_out: DevicePtr, indices: DevicePtr, sh_gate: DevicePtr, sh_up: DevicePtr, sh_down: SharedWeight, sh_down_out: DevicePtr, h: u32, inter: u32, top_k: u32 },
    MoeSiluMul { kernel: KernelHandle, gate: DevicePtr, up: DevicePtr, out: DevicePtr, n: u32 },
    MoeDownPrecomputed { kernel: KernelHandle, act: DevicePtr, down: ExpertWeights, down_out: DevicePtr, indices: DevicePtr, sh_act: DevicePtr, sh_down: SharedWeight, sh_down_out: DevicePtr, h: u32, inter: u32, top_k: u32 },
    MoeBlend2 { kernel: KernelHandle, output: DevicePtr, down: DevicePtr, weights: DevicePtr, shared: DevicePtr, input: DevicePtr, gate_weight: DevicePtr, h: u32, top_k: u32, k: u32 },
    MoeBatchedBlend { kernel: KernelHandle, output: DevicePtr, shared: DevicePtr, input: DevicePtr, gate_weight: DevicePtr, h: u32, tokens: u32 },
    MoeForwardBatched { layer: usize, input: DevicePtr, tokens: usize, ctx: ForwardContext },
    MoeForwardTokenMajor { layer: usize, input: DevicePtr, tokens: usize, ctx: ForwardContext },
    FfnForwardPrefill { ffn: FfnKind, layer: usize, input: DevicePtr, tokens: usize, ctx: ForwardContext },
    // ── whole layers ──
    /// The recurrence over the stacked buffers.
    SsmPrefillGdn { index: usize, state: LayerState, gdn: GdnPrefillBuffers, ctx: ForwardContext },
    /// From the recurrence on: rows of one stream out of the stacked buffers.
    SsmPrefillPhase3 { index: usize, hidden: DevicePtr, residual: DevicePtr, num_tokens: usize, gdn: GdnPrefillBuffers, token_offset: usize, ctx: ForwardContext },
    /// Prefill of attention layer `index` over stacked streams, whose tables come
    /// with the metadata.
    AttentionPrefillStacked { index: usize, hidden: DevicePtr, residual: DevicePtr, num_tokens: usize, seq_len_start: usize, kv_write_start: usize, cache: CacheId, meta: BatchedAttnMetadata, ctx: ForwardContext },
    /// A transposed copy of a layer's expert weights.
    TransposeMoe { copy: MoeTranspose, ffn: FfnKind, layer: usize, config: ModelConfig },
    SaveHiddenForMtp { row: usize },
}

/// One operation that answers with the buffer it wrote.
#[derive(Clone, Copy, PartialEq, Eq, Structural, Debug)]
pub enum Call {
    /// A feed-forward block on one row.
    FfnForward { ffn: FfnKind, layer: usize, input: DevicePtr, ctx: ForwardContext },
    /// The pools of a key/value cache of `num_blocks` blocks.
    KvPools { config: KvCacheConfig, num_blocks: usize },
    /// The BF16 form of a stored tensor, dequantised where it has to be.
    DenseAuto { tensor: DevicePtr },
    /// The single-precision form of a stored tensor of `elems` elements.
    HcF32 { tensor: DevicePtr, elems: usize },
    /// The table of stretched rotary frequencies.
    YarnInvFreq { config: ModelConfig },
    /// The router's view of its input rows.
    RouterInput { layer: usize, input: DevicePtr, tokens: u32, h: u32, ctx: ForwardContext },
}

} // verus!
