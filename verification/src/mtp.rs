//! The multi-token-prediction draft head: its weights, its per-sequence state,
//! and the bookkeeping of drafted rows.
//!
//! One draft step combines the embedding of the last token with the target's
//! hidden state, runs the reused transformer body over the head's own
//! single-layer cache, collapses the residual streams and takes the arg-max of
//! the shared language-model head. See [`crate::mtp_forward`] for the step.

use vstd::prelude::*;

use crate::gpu::{DenseWeight, DevicePtr, GpuError, KernelHandle};
use crate::config::ModelConfig;
use crate::kv_cache::{fresh_blocks, pools_cmd, KvCacheConfig, KvCacheDtype, PagedKvCache};
use crate::op::{EmptyLayerState, LayerKind, LayerState};
use crate::run::{kernel_names, lookup_kernels, lookup_steps, state_step};
use crate::text::{is_setting, setting_is};
use crate::trace::{failed, lemma_ran_stopped, lemma_ran_then, ran, stopped_at, Event, GpuBackend, Reply};

verus! {

/// Where in scratch the head keeps its attention metadata. The target's own
/// metadata lies at 32768.
pub const MTP_META_OFFSET: usize = 49152;

/// The low bytes of scratch that expert routing and the arg-max use.
pub const LOW_SCRATCH: usize = 64;

/// Rows per block of the head's cache.
pub const MTP_BLOCK_SIZE: usize = 16;

/// The cache dtype of the draft module: FP8, the one that latent attention
/// decodes from, whatever the target's layers have. BF16 where `choice` asks for
/// it by name, for experiments.
pub fn v4_mtp_kv_dtype(choice: Option<&str>, _layer_kv_dtypes: &[KvCacheDtype]) -> (r: KvCacheDtype)
    ensures
        r == (if is_setting(choice, "bf16"@) {
            KvCacheDtype::Bf16
        } else {
            KvCacheDtype::Fp8
        }),
{
    if setting_is(choice, "bf16") {
        KvCacheDtype::Bf16
    } else {
        KvCacheDtype::Fp8
    }
}

/// The settings that steer the head, as they were given.
pub struct MtpSettings<'a> {
    pub reset_kv: Option<&'a str>,
    pub diag_passthrough: Option<&'a str>,
    pub use_mhc: Option<&'a str>,
    pub single_stream: Option<&'a str>,
    pub gpu_combiner: Option<&'a str>,
    pub hc_recover: Option<&'a str>,
    pub no_hc_recover: Option<&'a str>,
    pub skip_hc_head: Option<&'a str>,
    pub hc_head_after_recover: Option<&'a str>,
    pub catchup: Option<&'a str>,
    pub k1_state: Option<&'a str>,
    pub prompt_prefill: Option<&'a str>,
    pub diag_dump: Option<&'a str>,
}

/// What the settings come to.
#[derive(Clone, Copy, PartialEq, Eq, Structural, Debug)]
pub struct MtpFlags {
    /// Forget the drafted rows before every step.
    pub reset_kv: bool,
    /// Skip combiner, body and collapse, and echo the target's own choice.
    pub diag_passthrough: bool,
    /// Run the body over the multi-stream residual.
    pub use_mhc: bool,
    /// Collapse the target to one stream before combining.
    pub single_stream: bool,
    /// Combine the streams on the device.
    pub gpu_combiner: bool,
    /// Check the streams after the body and rebuild corrupt ones.
    pub hc_recover: bool,
    /// Take the body's single-stream output as it is.
    pub skip_hc_head: bool,
    /// Collapse rebuilt streams as if they had come from the body.
    pub hc_head_after_recover: bool,
    /// Rows may be caught up one by one.
    pub catchup: bool,
    /// The first drafted row of a step is conditioned on verified input.
    pub k1_state: bool,
    /// Prompt rows may be built in batches.
    pub prompt_prefill: bool,
    /// The values of the first drafts are dumped.
    pub diag_dump: bool,
}

pub open spec fn mtp_flags(s: MtpSettings) -> MtpFlags {
    let use_mhc = !is_setting(s.use_mhc, "0"@);
    MtpFlags {
        reset_kv: is_setting(s.reset_kv, "1"@),
        diag_passthrough: is_setting(s.diag_passthrough, "1"@),
        use_mhc,
        single_stream: !use_mhc || is_setting(s.single_stream, "1"@),
        gpu_combiner: is_setting(s.gpu_combiner, "1"@),
        hc_recover: is_setting(s.hc_recover, "1"@) && !is_setting(s.no_hc_recover, "1"@),
        skip_hc_head: is_setting(s.skip_hc_head, "1"@),
        hc_head_after_recover: is_setting(s.hc_head_after_recover, "1"@),
        catchup: is_setting(s.catchup, "1"@),
        k1_state: is_setting(s.k1_state, "1"@),
        prompt_prefill: is_setting(s.prompt_prefill, "1"@),
        diag_dump: is_setting(s.diag_dump, "1"@),
    }
}

impl MtpFlags {
    /// Reads the settings: a flag is on where its setting is exactly `1`. The
    /// multi-stream body is on unless its setting is exactly `0`.
    pub fn from_settings(s: &MtpSettings) -> (r: MtpFlags)
        ensures
            r == mtp_flags(*s),
    {
        let use_mhc = !setting_is(s.use_mhc, "0");
        MtpFlags {
            reset_kv: setting_is(s.reset_kv, "1"),
            diag_passthrough: setting_is(s.diag_passthrough, "1"),
            use_mhc,
            single_stream: !use_mhc || setting_is(s.single_stream, "1"),
            gpu_combiner: setting_is(s.gpu_combiner, "1"),
            hc_recover: setting_is(s.hc_recover, "1") && !setting_is(s.no_hc_recover, "1"),
            skip_hc_head: setting_is(s.skip_hc_head, "1"),
            hc_head_after_recover: setting_is(s.hc_head_after_recover, "1"),
            catchup: setting_is(s.catchup, "1"),
            k1_state: setting_is(s.k1_state, "1"),
            prompt_prefill: setting_is(s.prompt_prefill, "1"),
            diag_dump: setting_is(s.diag_dump, "1"),
        }
    }
}

/// The weights of the collapse that ends a multi-stream forward.
#[derive(Clone, Copy, PartialEq, Eq, Structural, Debug)]
pub struct HcHeadWeights {
    pub hc_fn: DevicePtr,
    pub hc_scale: DevicePtr,
    pub hc_base: DevicePtr,
}

/// The loaded module around the reused body: combiner, final norm, collapse.
#[derive(Clone, Copy, PartialEq, Eq, Structural, Debug)]
pub struct DeepseekV4MtpModule {
    pub enorm: DenseWeight,
    pub hnorm: DenseWeight,
    pub e_proj: DenseWeight,
    pub h_proj: DenseWeight,
    pub norm: DenseWeight,
    pub hc_head: Option<HcHeadWeights>,
}

/// Weights and kernels of the head.
#[derive(Clone, Copy, PartialEq, Eq, Structural, Debug)]
pub struct MtpParts {
    pub module: DeepseekV4MtpModule,
    /// The token embedding table, shared with the target.
    pub embed_tokens: DenseWeight,
    /// The language-model head, shared with the target.
    pub lm_head: DenseWeight,
    /// Draft over this many tokens only; 0 for the whole vocabulary.
    pub mtp_vocab_size: u32,
    pub rms_norm_k: KernelHandle,
    pub dense_gemv_k: KernelHandle,
    pub dense_gemm_pipelined_k: KernelHandle,
    pub batched_embed_k: KernelHandle,
    pub residual_add_k: KernelHandle,
    pub hc_expand_k: KernelHandle,
    pub hc_head_k: KernelHandle,
    pub mtp_hc_f32_to_bf16_k: KernelHandle,
    pub mtp_hproj_batch4_k: KernelHandle,
    pub mtp_hproj_broadcast_add_k: KernelHandle,
    pub argmax_k: KernelHandle,
}

/// What the head keeps per sequence.
pub struct DeepseekV4MtpProposerState {
    /// Blocks held in the head's own cache.
    pub block_table: Vec<u32>,
    /// Rows written to that cache.
    pub seq_len: usize,
    /// Drafts of the last proposal.
    pub last_num_drafted: usize,
    /// The newest position written to the cache.
    pub last_pair_key: Option<usize>,
    /// What the body keeps.
    pub body_state: LayerState,
}

/// The draft head.
pub struct DeepseekV4MtpHead {
    pub parts: MtpParts,
    pub kv_cache: PagedKvCache,
    /// The drafts so far for which dumps were asked.
    pub dumps_asked: usize,
}

/// How many drafted rows a verification rolls back. Where the first row is
/// conditioned on a verified token it stays, whatever became of its draft.
pub open spec fn rows_to_trim(drafted: int, accepted: int, k1_state: bool) -> int {
    let trimmable = if k1_state && drafted > 0 { drafted - 1 } else { drafted };
    if trimmable > accepted { trimmable - accepted } else { 0 }
}

pub fn rollback_plan(num_drafted: usize, num_accepted: usize, k1_state_enabled: bool) -> (r: usize)
    ensures
        r == rows_to_trim(num_drafted as int, num_accepted as int, k1_state_enabled),
{
    let trimmable: usize = if k1_state_enabled {
        num_drafted.saturating_sub(1)
    } else {
        num_drafted
    };
    trimmable.saturating_sub(num_accepted)
}

/// `a - b`, and 0 where that is negative.
pub open spec fn less(a: int, b: int) -> int {
    if a > b { a - b } else { 0 }
}

/// The newest position after rolling back.
pub open spec fn key_after_trim(key: Option<usize>, trim: int) -> Option<usize> {
    match key {
        Some(k) => Some(less(k as int, trim) as usize),
        None => None,
    }
}

pub fn rollback_pair_key(last_pair_key: Option<usize>, num_to_trim: usize) -> (r: Option<usize>)
    ensures
        r == key_after_trim(last_pair_key, num_to_trim as int),
{
    match last_pair_key {
        Some(key) => Some(key.saturating_sub(num_to_trim)),
        None => None,
    }
}

/// A verification never rolls back an accepted row, nor, where the first row is
/// conditioned on a verified token, that row.
pub proof fn accepted_rows_survive(drafted: nat, accepted: nat, k1_state: bool)
    requires
        accepted <= drafted,
    ensures
        drafted - rows_to_trim(drafted as int, accepted as int, k1_state) >= accepted,
        k1_state && drafted > 0 ==> drafted - rows_to_trim(drafted as int, accepted as int, k1_state) >= 1,
        !k1_state ==> rows_to_trim(drafted as int, accepted as int, k1_state) == drafted - accepted,
{
}

/// The kernels of the head, in the order in which they are looked up.
pub open spec fn mtp_kernels() -> Seq<(Seq<char>, Seq<char>)> {
    seq![
        ("rms_norm_vanilla"@, "rms_norm_vanilla"@),
        ("gemv"@, "dense_gemv_bf16"@),
        ("gemm"@, "dense_gemm_bf16_pipelined"@),
        ("embed_from_argmax"@, "batched_embed"@),
        ("residual_add"@, "bf16_residual_add"@),
        ("hyper_connection"@, "hc_expand"@),
        ("hyper_connection"@, "hc_head"@),
        ("mtp_combiner"@, "mtp_hc_f32_to_bf16_legacy"@),
        ("mtp_combiner"@, "mtp_hproj_gemv_batch4"@),
        ("mtp_combiner"@, "mtp_hproj_broadcast_add_batched"@),
        ("argmax"@, "argmax_bf16"@),
    ]
}

/// The shape of the head's cache: one latent-attention layer.
pub open spec fn mtp_cache_config(config: ModelConfig, dtype: KvCacheDtype) -> KvCacheConfig {
    KvCacheConfig {
        block_size: MTP_BLOCK_SIZE,
        num_kv_heads: 1,
        head_dim: (config.kv_lora_rank + config.qk_rope_head_dim) as usize,
        num_layers: 1,
        dtype,
        cache_blocks_per_seq: None,
    }
}

/// What making a head puts in the trace: its cache, then its kernels.
pub open spec fn mtp_new_steps(
    config: KvCacheConfig,
    num_blocks: usize,
    storage: DevicePtr,
    handles: Seq<KernelHandle>,
) -> Seq<Event> {
    seq![Event { cmd: pools_cmd(config, num_blocks), reply: Reply::Ptr(storage) }] + lookup_steps(
        mtp_kernels(),
        handles,
    )
}

/// The head that a lookup of its kernels makes.
pub open spec fn mtp_parts(
    module: DeepseekV4MtpModule,
    embed_tokens: DenseWeight,
    lm_head: DenseWeight,
    mtp_vocab_size: u32,
    k: Seq<KernelHandle>,
) -> MtpParts {
    MtpParts {
        module,
        embed_tokens,
        lm_head,
        mtp_vocab_size,
        rms_norm_k: k[0],
        dense_gemv_k: k[1],
        dense_gemm_pipelined_k: k[2],
        batched_embed_k: k[3],
        residual_add_k: k[4],
        hc_expand_k: k[5],
        hc_head_k: k[6],
        mtp_hc_f32_to_bf16_k: k[7],
        mtp_hproj_batch4_k: k[8],
        mtp_hproj_broadcast_add_k: k[9],
        argmax_k: k[10],
    }
}

impl DeepseekV4MtpHead {
    /// The cache has the head's block size.
    pub open spec fn wf(&self) -> bool {
        self.kv_cache.config.block_size == MTP_BLOCK_SIZE
    }

    /// Sets up the head's cache, with room for `max_seq_len` rows and one block
    /// to spare, and looks its kernels up.
    pub fn new<G: GpuBackend>(
        module: DeepseekV4MtpModule,
        embed_tokens: DenseWeight,
        lm_head: DenseWeight,
        config: &ModelConfig,
        gpu: &mut G,
        mtp_vocab_size: u32,
        max_seq_len: usize,
        kv_dtype: KvCacheDtype,
    ) -> (r: Result<Self, GpuError>)
        requires
            config.kv_lora_rank + config.qk_rope_head_dim <= usize::MAX,
            max_seq_len / MTP_BLOCK_SIZE + 1 <= u32::MAX,
        ensures
            match r {
                Ok(head) => exists|handles: Seq<KernelHandle>|
                    {
                        &&& final(gpu).trace() == old(gpu).trace() + #[trigger] mtp_new_steps(
                            mtp_cache_config(*config, kv_dtype),
                            (max_seq_len / MTP_BLOCK_SIZE + 1) as usize,
                            head.kv_cache.storage,
                            handles,
                        )
                        &&& head.parts == mtp_parts(module, embed_tokens, lm_head, mtp_vocab_size, handles)
                        &&& head.kv_cache.config == mtp_cache_config(*config, kv_dtype)
                        &&& head.kv_cache.free@ == fresh_blocks((max_seq_len / MTP_BLOCK_SIZE + 1) as nat)
                        &&& head.dumps_asked == 0
                        &&& head.wf()
                    },
                Err(e) => exists|storage: DevicePtr, handles: Seq<KernelHandle>|
                    ran(
                        old(gpu).trace(),
                        #[trigger] mtp_new_steps(
                            mtp_cache_config(*config, kv_dtype),
                            (max_seq_len / MTP_BLOCK_SIZE + 1) as usize,
                            storage,
                            handles,
                        ),
                        final(gpu).trace(),
                        Some(e),
                    ),
            },
    {
        let ghost pre = gpu.trace();
        let kv_config = KvCacheConfig {
            block_size: MTP_BLOCK_SIZE,
            num_kv_heads: 1,
            head_dim: config.kv_lora_rank + config.qk_rope_head_dim,
            num_layers: 1,
            dtype: kv_dtype,
            cache_blocks_per_seq: None,
        };
        let num_blocks: usize = max_seq_len / MTP_BLOCK_SIZE + 1;
        let kv_cache = match PagedKvCache::new(kv_config, num_blocks, gpu) {
            Ok(c) => c,
            Err(e) => {
                proof {
                    let steps = mtp_new_steps(kv_config, num_blocks, DevicePtr(0), Seq::empty());
                    assert(steps.take(0) =~= Seq::empty());
                    assert(gpu.trace() =~= pre + stopped_at(steps, 0, e));
                    lemma_ran_stopped(pre, steps, 0, gpu.trace(), e);
                }
                return Err(e);
            },
        };
        let names: Vec<(&str, &str)> = vec![
            ("rms_norm_vanilla", "rms_norm_vanilla"),
            ("gemv", "dense_gemv_bf16"),
            ("gemm", "dense_gemm_bf16_pipelined"),
            ("embed_from_argmax", "batched_embed"),
            ("residual_add", "bf16_residual_add"),
            ("hyper_connection", "hc_expand"),
            ("hyper_connection", "hc_head"),
            ("mtp_combiner", "mtp_hc_f32_to_bf16_legacy"),
            ("mtp_combiner", "mtp_hproj_gemv_batch4"),
            ("mtp_combiner", "mtp_hproj_broadcast_add_batched"),
            ("argmax", "argmax_bf16"),
        ];
        assert(kernel_names(names@) =~= mtp_kernels());
        let k = match lookup_kernels(gpu, &names) {
            Ok(k) => k,
            Err(e) => {
                proof {
                    let handles = choose|handles: Seq<KernelHandle>|
                        ran(
                            pre.push(
                                Event { cmd: pools_cmd(kv_config, num_blocks), reply: Reply::Ptr(kv_cache.storage) },
                            ),
                            #[trigger] lookup_steps(mtp_kernels(), handles),
                            gpu.trace(),
                            Some(e),
                        );
                    let first = seq![Event { cmd: pools_cmd(kv_config, num_blocks), reply: Reply::Ptr(kv_cache.storage) }];
                    assert(pre + first =~= pre.push(first[0]));
                    lemma_ran_then(pre, first, pre + first, lookup_steps(mtp_kernels(), handles), gpu.trace(), Some(e));
                    assert(mtp_new_steps(kv_config, num_blocks, kv_cache.storage, handles) == first + lookup_steps(mtp_kernels(), handles));
                }
                return Err(e);
            },
        };
        let parts = MtpParts {
            module,
            embed_tokens,
            lm_head,
            mtp_vocab_size,
            rms_norm_k: k[0],
            dense_gemv_k: k[1],
            dense_gemm_pipelined_k: k[2],
            batched_embed_k: k[3],
            residual_add_k: k[4],
            hc_expand_k: k[5],
            hc_head_k: k[6],
            mtp_hc_f32_to_bf16_k: k[7],
            mtp_hproj_batch4_k: k[8],
            mtp_hproj_broadcast_add_k: k[9],
            argmax_k: k[10],
        };
        assert(gpu.trace() =~= pre + mtp_new_steps(kv_config, num_blocks, kv_cache.storage, k@));
        Ok(DeepseekV4MtpHead { parts, kv_cache, dumps_asked: 0 })
    }

    /// A sequence that has drafted nothing. The body makes its own state for it.
    pub fn alloc_state_inner<G: GpuBackend>(&self, gpu: &mut G) -> (r: Result<DeepseekV4MtpProposerState, GpuError>)
        ensures
            match r {
                Ok(s) => {
                    &&& final(gpu).trace() == old(gpu).trace().push(state_step(LayerKind::DraftBody, 0, s.body_state))
                    &&& s.block_table@ == Seq::<u32>::empty()
                    &&& s.seq_len == 0
                    &&& s.last_num_drafted == 0
                    &&& s.last_pair_key == None::<usize>
                },
                Err(e) => exists|body: LayerState|
                    final(gpu).trace() == old(gpu).trace().push(
                        failed(#[trigger] state_step(LayerKind::DraftBody, 0, body), e),
                    ),
            },
    {
        let ghost pre = gpu.trace();
        match gpu.alloc_layer_state(LayerKind::DraftBody, 0) {
            Ok(body_state) => Ok(
                DeepseekV4MtpProposerState {
                    block_table: Vec::new(),
                    seq_len: 0,
                    last_num_drafted: 0,
                    last_pair_key: None,
                    body_state,
                },
            ),
            Err(e) => {
                let ghost body = LayerState::Empty(EmptyLayerState);
                assert(gpu.trace() == pre.push(failed(state_step(LayerKind::DraftBody, 0, body), e)));
                Err(e)
            },
        }
    }
}

} // verus!
