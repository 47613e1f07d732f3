//! The attention layer as the model drives it.

use vstd::prelude::*;

use crate::attention::{DownScratch, Qwen3AttentionLayer};
use crate::config::{ForwardContext, ModelConfig};
use crate::gpu::{DevicePtr, GpuError};
use crate::op::{
    BatchedAttnMetadata, CacheId, EmptyLayerState, FfnKind, LayerCall, LayerKind, LayerState, LayerWork, MoeTranspose, Op,
};
use crate::run::{layer_step, run_one_layer, run_op, run_ops, step, steps};
use crate::trace::{done, lemma_ran_one, left, ran, refusal, tables, tables_of, Cmd, GpuBackend};

verus! {

/// The copies that a layer makes: of its own block where that is one of experts,
/// then of the expert block beside it.
pub open spec fn transpose_ops(layer: Qwen3AttentionLayer, copy: MoeTranspose, config: ModelConfig) -> Seq<Op> {
    (if layer.ffn_is_moe {
        seq![Op::TransposeMoe { copy, ffn: FfnKind::Main, layer: layer.attn_layer_idx, config }]
    } else {
        Seq::empty()
    }) + (if layer.has_moe_ffn {
        seq![Op::TransposeMoe { copy, ffn: FfnKind::ExtraMoe, layer: layer.attn_layer_idx, config }]
    } else {
        Seq::empty()
    })
}

impl Qwen3AttentionLayer {
    /// Attention keeps its history in the cache and needs no state of its own.
    pub fn alloc_state(&self) -> (r: EmptyLayerState)
        ensures
            r == EmptyLayerState,
    {
        EmptyLayerState
    }

    /// Prefill of one stream.
    pub fn prefill<G: GpuBackend>(
        &self,
        gpu: &mut G,
        hidden: DevicePtr,
        residual: DevicePtr,
        num_tokens: usize,
        state: LayerState,
        cache: CacheId,
        seq_len_start: usize,
        block_table: &Vec<u32>,
        disk_block_ids: &mut Vec<u32>,
        disk_last_offloaded_per_layer: &mut Vec<u32>,
        kv_write_start: usize,
        ctx: &ForwardContext,
        stream: u64,
    ) -> (r: Result<(), GpuError>)
        ensures
            ran(
                old(gpu).trace(),
                seq![
                    layer_step(
                        (LayerCall {
                            kind: LayerKind::Attention,
                            index: self.attn_layer_idx,
                            state,
                            cache,
                            work: LayerWork::Prefill { hidden, residual, num_tokens, seq_len_start, kv_write_start },
                            ctx: *ctx,
                        }),
                        tables(block_table@, old(disk_block_ids)@, old(disk_last_offloaded_per_layer)@),
                        stream,
                        left(final(disk_block_ids)@, final(disk_last_offloaded_per_layer)@),
                    ),
                ],
                final(gpu).trace(),
                refusal(r),
            ),
    {
        let call = LayerCall {
            kind: LayerKind::Attention,
            index: self.attn_layer_idx,
            state,
            cache,
            work: LayerWork::Prefill { hidden, residual, num_tokens, seq_len_start, kv_write_start },
            ctx: *ctx,
        };
        run_one_layer(gpu, &call, block_table, disk_block_ids, disk_last_offloaded_per_layer, stream)
    }

    /// Prefill of stacked streams. Their block tables come with the metadata, and
    /// every row is written.
    pub fn prefill_inner_batched_q12<G: GpuBackend>(
        &self,
        gpu: &mut G,
        hidden_stacked: DevicePtr,
        residual_stacked: DevicePtr,
        num_tokens: usize,
        cache: CacheId,
        seq_len_start: usize,
        batched_meta: &BatchedAttnMetadata,
        ctx: &ForwardContext,
        stream: u64,
    ) -> (r: Result<(), GpuError>)
        ensures
            ran(
                old(gpu).trace(),
                seq![
                    step(
                        Op::AttentionPrefillStacked {
                            index: self.attn_layer_idx,
                            hidden: hidden_stacked,
                            residual: residual_stacked,
                            num_tokens,
                            seq_len_start,
                            kv_write_start: 0,
                            cache,
                            meta: *batched_meta,
                            ctx: *ctx,
                        },
                        stream,
                    ),
                ],
                final(gpu).trace(),
                refusal(r),
            ),
    {
        let op = Op::AttentionPrefillStacked {
            index: self.attn_layer_idx,
            hidden: hidden_stacked,
            residual: residual_stacked,
            num_tokens,
            seq_len_start,
            kv_write_start: 0,
            cache,
            meta: *batched_meta,
            ctx: *ctx,
        };
        run_op(gpu, op, stream)
    }

    /// Decode of one row of each of several sequences.
    pub fn decode_multi_seq<G: GpuBackend>(
        &self,
        gpu: &mut G,
        hidden: DevicePtr,
        residual: DevicePtr,
        num_seqs: usize,
        states: &[LayerState],
        cache: CacheId,
        seq_lens: &[usize],
        block_tables: &[Vec<u32>],
        ctx: &ForwardContext,
        stream: u64,
    ) -> (r: Result<(), GpuError>)
        ensures
            ran(
                old(gpu).trace(),
                seq![
                    done(
                        Cmd::DecodeSequences {
                            kind: LayerKind::Attention,
                            index: self.attn_layer_idx,
                            hidden,
                            residual,
                            num_seqs,
                            cache,
                            states: states@,
                            seq_lens: seq_lens@,
                            block_tables: tables_of(block_tables@),
                            ctx: *ctx,
                            stream,
                        },
                    ),
                ],
                final(gpu).trace(),
                refusal(r),
            ),
    {
        let ghost pre = gpu.trace();
        let index: usize = self.attn_layer_idx;
        let kind = LayerKind::Attention;
        let r = gpu.decode_sequences(
            kind,
            index,
            hidden,
            residual,
            num_seqs,
            cache,
            states,
            seq_lens,
            block_tables,
            ctx,
            stream,
        );
        proof {
            let cmd = Cmd::DecodeSequences {
                kind,
                index,
                hidden,
                residual,
                num_seqs,
                cache,
                states: states@,
                seq_lens: seq_lens@,
                block_tables: tables_of(block_tables@),
                ctx: *ctx,
                stream,
            };
            lemma_ran_one(pre, done(cmd), gpu.trace(), refusal(r));
        }
        r
    }

    fn transpose<G: GpuBackend>(&self, gpu: &mut G, config: &ModelConfig, copy: MoeTranspose) -> (r: Result<(), GpuError>)
        ensures
            ran(old(gpu).trace(), steps(transpose_ops(*self, copy, *config), 0), final(gpu).trace(), refusal(r)),
    {
        let mut ops: Vec<Op> = Vec::new();
        if self.ffn_is_moe {
            ops.push(Op::TransposeMoe { copy, ffn: FfnKind::Main, layer: self.attn_layer_idx, config: *config });
        }
        if self.has_moe_ffn {
            ops.push(Op::TransposeMoe { copy, ffn: FfnKind::ExtraMoe, layer: self.attn_layer_idx, config: *config });
        }
        assert(ops@ =~= transpose_ops(*self, copy, *config));
        run_ops(gpu, &ops, 0)
    }

    /// Transposes all expert weights for prefill.
    pub fn transpose_moe_for_prefill<G: GpuBackend>(&mut self, gpu: &mut G, config: &ModelConfig) -> (r: Result<
        (),
        GpuError,
    >)
        ensures
            *final(self) == *old(self),
            ran(
                old(gpu).trace(),
                steps(transpose_ops(*old(self), MoeTranspose::All, *config), 0),
                final(gpu).trace(),
                refusal(r),
            ),
    {
        self.transpose(gpu, config, MoeTranspose::All)
    }

    /// Transposes gate and up projections for prefill.
    pub fn transpose_moe_gate_up_for_prefill<G: GpuBackend>(&mut self, gpu: &mut G, config: &ModelConfig) -> (r: Result<
        (),
        GpuError,
    >)
        ensures
            *final(self) == *old(self),
            ran(
                old(gpu).trace(),
                steps(transpose_ops(*old(self), MoeTranspose::GateUp, *config), 0),
                final(gpu).trace(),
                refusal(r),
            ),
    {
        self.transpose(gpu, config, MoeTranspose::GateUp)
    }

    /// Transposes expert weights into the layout shared with decode.
    pub fn transpose_moe_for_prefill_unified<G: GpuBackend>(&mut self, gpu: &mut G, config: &ModelConfig) -> (r: Result<
        (),
        GpuError,
    >)
        ensures
            *final(self) == *old(self),
            ran(
                old(gpu).trace(),
                steps(transpose_ops(*old(self), MoeTranspose::Unified, *config), 0),
                final(gpu).trace(),
                refusal(r),
            ),
    {
        self.transpose(gpu, config, MoeTranspose::Unified)
    }

    /// Transposes expert weights beside the layout that decode keeps.
    pub fn transpose_moe_for_prefill_hybrid<G: GpuBackend>(&mut self, gpu: &mut G, config: &ModelConfig) -> (r: Result<
        (),
        GpuError,
    >)
        ensures
            *final(self) == *old(self),
            ran(
                old(gpu).trace(),
                steps(transpose_ops(*old(self), MoeTranspose::Hybrid, *config), 0),
                final(gpu).trace(),
                refusal(r),
            ),
    {
        self.transpose(gpu, config, MoeTranspose::Hybrid)
    }

    /// Hands the expert blocks their scratch for down projections.
    pub fn set_moe_down_transpose_scratch(
        &mut self,
        scratch_packed: DevicePtr,
        scratch_scale: DevicePtr,
        packed_ptrs_t: DevicePtr,
        scale_ptrs_t: DevicePtr,
    )
        ensures
            ({
                let given = Some(
                    DownScratch {
                        packed: scratch_packed,
                        scale: scratch_scale,
                        packed_ptrs: packed_ptrs_t,
                        scale_ptrs: scale_ptrs_t,
                    },
                );
                *final(self) == (Qwen3AttentionLayer {
                    ffn_down_scratch: if old(self).ffn_is_moe {
                        given
                    } else {
                        old(self).ffn_down_scratch
                    },
                    moe_ffn_down_scratch: if old(self).has_moe_ffn {
                        given
                    } else {
                        old(self).moe_ffn_down_scratch
                    },
                    ..*old(self)
                })
            }),
    {
        let given = DownScratch {
            packed: scratch_packed,
            scale: scratch_scale,
            packed_ptrs: packed_ptrs_t,
            scale_ptrs: scale_ptrs_t,
        };
        if self.ffn_is_moe {
            self.ffn_down_scratch = Some(given);
        }
        if self.has_moe_ffn {
            self.moe_ffn_down_scratch = Some(given);
        }
    }
}

} // verus!
