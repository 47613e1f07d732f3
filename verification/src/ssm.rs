//! The state-space layer as the model drives it.

use vstd::prelude::*;

use crate::bits::{row_bits, widen_row};
use crate::config::{ForwardContext, ModelConfig};
use crate::gpu::{at, DenseWeight, DevicePtr, GpuError, KernelHandle};
use crate::op::{CacheId, GdnPrefillBuffers, LayerCall, LayerKind, LayerState, LayerWork, Op, SsmLayerState};
use crate::run::{alloc_all, alloc_steps, layer_step, read_step, run_one_layer, run_op, step};
use crate::trace::{
    done, failed, lemma_ran_one, left, ran, refusal, tables, tables_of, Cmd, Event, GpuBackend, Left, Tables,
};

verus! {

/// A gated-delta-net layer.
#[derive(Clone, Copy, PartialEq, Eq, Structural, Debug)]
pub struct Qwen3SsmLayer {
    /// The layer's place in the model.
    pub index: usize,
    /// The output projection in BF16, where it is not quantised.
    pub out_proj_dense: Option<DenseWeight>,
    /// The kernel for stacked streams of one length; zero where the target does
    /// not carry it.
    pub gdn_prefill_wy32_batched_k: KernelHandle,
    pub h_state_bytes: usize,
    pub conv_state_bytes: usize,
}

/// Bytes of the recurrent state: one single per value head, value and key.
pub open spec fn h_bytes(c: ModelConfig) -> int {
    c.linear_num_value_heads * c.linear_value_head_dim * c.linear_key_head_dim * 4
}

/// Channels of the convolution: queries, keys and values.
pub open spec fn conv_dim(c: ModelConfig) -> int {
    c.linear_num_key_heads * c.linear_key_head_dim * 2 + c.linear_num_value_heads * c.linear_value_head_dim
}

/// Bytes of the convolution state.
pub open spec fn conv_bytes(c: ModelConfig) -> int {
    conv_dim(c) * c.linear_conv_kernel_dim * 4
}

/// The sizes of a sequence's state: recurrent part, convolution part.
pub fn state_bytes(config: &ModelConfig) -> (r: (usize, usize))
    requires
        config.linear_num_value_heads * config.linear_value_head_dim <= usize::MAX,
        config.linear_num_value_heads * config.linear_value_head_dim * config.linear_key_head_dim <= usize::MAX,
        h_bytes(*config) <= usize::MAX,
        config.linear_num_key_heads * config.linear_key_head_dim <= usize::MAX,
        config.linear_num_key_heads * config.linear_key_head_dim * 2 <= usize::MAX,
        conv_dim(*config) <= usize::MAX,
        conv_dim(*config) * config.linear_conv_kernel_dim <= usize::MAX,
        conv_bytes(*config) <= usize::MAX,
    ensures
        r.0 == h_bytes(*config),
        r.1 == conv_bytes(*config),
{
    let nv: usize = config.linear_num_value_heads;
    let vd: usize = config.linear_value_head_dim;
    let nk: usize = config.linear_num_key_heads;
    let kd: usize = config.linear_key_head_dim;
    let h: usize = nv * vd * kd * 4;
    let dim: usize = nk * kd * 2 + nv * vd;
    (h, dim * config.linear_conv_kernel_dim * 4)
}

/// Where the streams of a stacked prefill start; one entry more than streams.
pub open spec fn starts_in_order(cu: Seq<usize>) -> bool {
    forall|i: int, j: int| 0 <= i <= j < cu.len() ==> cu[i] <= cu[j]
}

/// The arguments of a stacked prefill, the tables of its streams aside.
#[verifier::ext_equal]
pub struct StackCall {
    pub layer: Qwen3SsmLayer,
    pub hidden: DevicePtr,
    pub residual: DevicePtr,
    pub cu: Seq<usize>,
    pub states: Seq<SsmLayerState>,
    pub cache: CacheId,
    pub starts: Seq<usize>,
    pub blocks: Seq<Seq<u32>>,
    pub writes: Seq<usize>,
    pub ctx: ForwardContext,
    pub stream: u64,
}

/// What the swap store's side of each stream's tables holds.
#[verifier::ext_equal]
pub struct StreamTables {
    pub ids: Seq<Seq<u32>>,
    pub cursors: Seq<Seq<u32>>,
}

pub open spec fn stream_tables(ids: Seq<Vec<u32>>, cursors: Seq<Vec<u32>>) -> StreamTables {
    StreamTables { ids: tables_of(ids), cursors: tables_of(cursors) }
}

/// The step of a prefill of one stream.
pub open spec fn prefill_step(
    layer: Qwen3SsmLayer,
    hidden: DevicePtr,
    residual: DevicePtr,
    num_tokens: usize,
    state: SsmLayerState,
    cache: CacheId,
    seq_len_start: usize,
    t: Tables,
    after: Left,
    kv_write_start: usize,
    ctx: ForwardContext,
    stream: u64,
) -> Event {
    layer_step(
        layer.call_of(
            state,
            cache,
            LayerWork::Prefill { hidden, residual, num_tokens, seq_len_start, kv_write_start },
            ctx,
        ),
        t,
        stream,
        after,
    )
}

/// The prefill of stream `i`: on its rows, with its own state and tables.
pub open spec fn stream_step(c: StackCall, before: StreamTables, after: StreamTables, i: int) -> Event {
    let off = c.cu[i] * c.ctx.config.hidden_size * 2;
    prefill_step(
        c.layer,
        at(c.hidden, off),
        at(c.residual, off),
        (c.cu[i + 1] - c.cu[i]) as usize,
        c.states[i],
        c.cache,
        c.starts[i],
        tables(c.blocks[i], before.ids[i], before.cursors[i]),
        left(after.ids[i], after.cursors[i]),
        c.writes[i],
        c.ctx,
        c.stream,
    )
}

/// What the prefill of stream `i` adds to a run: nothing where it has no rows.
pub open spec fn one_stream(c: StackCall, before: StreamTables, after: StreamTables, i: int) -> Seq<Event> {
    if c.cu[i] == c.cu[i + 1] {
        Seq::empty()
    } else {
        seq![stream_step(c, before, after, i)]
    }
}

/// The prefills of the first `n` streams, one after the other.
pub open spec fn stream_steps(c: StackCall, before: StreamTables, after: StreamTables, n: nat) -> Seq<Event>
    decreases n,
{
    if n == 0 {
        Seq::empty()
    } else {
        stream_steps(c, before, after, (n - 1) as nat) + one_stream(c, before, after, n - 1)
    }
}

/// The streams of a stack.
pub open spec fn stream_count(c: StackCall) -> int {
    if c.cu.len() > 0 { c.cu.len() - 1 } else { 0 }
}

/// Streams that have no rows, and those from `k` on, keep their tables.
pub open spec fn tables_kept(c: StackCall, before: StreamTables, after: StreamTables, k: int) -> bool {
    &&& after.ids.len() == before.ids.len()
    &&& after.cursors.len() == before.cursors.len()
    &&& forall|i: int|
        #![trigger after.ids[i]]
        0 <= i < before.ids.len() && (i >= k || c.cu[i] == c.cu[i + 1]) ==> after.ids[i] == before.ids[i]
    &&& forall|i: int|
        #![trigger after.cursors[i]]
        0 <= i < before.cursors.len() && (i >= k || c.cu[i] == c.cu[i + 1]) ==> after.cursors[i] == before.cursors[i]
}

/// The run stopped at stream `k`, whose prefill was refused. It may have written
/// the tables of that stream.
pub open spec fn refused_at(
    c: StackCall,
    before: StreamTables,
    after: StreamTables,
    pre: Seq<Event>,
    post: Seq<Event>,
    k: int,
    e: GpuError,
) -> bool {
    &&& 0 <= k < stream_count(c)
    &&& c.cu[k] != c.cu[k + 1]
    &&& tables_kept(c, before, after, k + 1)
    &&& post == pre + stream_steps(c, before, after, k as nat).push(failed(stream_step(c, before, after, k), e))
}

/// What a stacked prefill does and says.
pub open spec fn stack_outcome(
    c: StackCall,
    before: StreamTables,
    after: StreamTables,
    pre: Seq<Event>,
    post: Seq<Event>,
    r: Result<(), GpuError>,
) -> bool {
    match r {
        Ok(_) => {
            &&& tables_kept(c, before, after, stream_count(c))
            &&& post == pre + stream_steps(c, before, after, stream_count(c) as nat)
        },
        Err(e) => exists|k: int| #[trigger] refused_at(c, before, after, pre, post, k, e),
    }
}

impl Qwen3SsmLayer {
    /// The buffers of a state, in the order in which they are allocated.
    pub open spec fn state_sizes(self) -> Seq<usize> {
        seq![self.h_state_bytes, self.conv_state_bytes]
    }

    /// The layer's work on one sequence.
    pub open spec fn call_of(self, state: SsmLayerState, cache: CacheId, work: LayerWork, ctx: ForwardContext) -> LayerCall {
        LayerCall {
            kind: LayerKind::StateSpace,
            index: self.index,
            state: LayerState::StateSpace(state),
            cache,
            work,
            ctx,
        }
    }

    /// Runs the layer on one sequence.
    fn work<G: GpuBackend>(
        &self,
        gpu: &mut G,
        state: SsmLayerState,
        cache: CacheId,
        work: LayerWork,
        block_table: &Vec<u32>,
        disk_block_ids: &mut Vec<u32>,
        disk_last_offloaded_per_layer: &mut Vec<u32>,
        ctx: &ForwardContext,
        stream: u64,
    ) -> (r: Result<(), GpuError>)
        ensures
            ran(
                old(gpu).trace(),
                seq![
                    layer_step(
                        self.call_of(state, cache, work, *ctx),
                        tables(block_table@, old(disk_block_ids)@, old(disk_last_offloaded_per_layer)@),
                        stream,
                        left(final(disk_block_ids)@, final(disk_last_offloaded_per_layer)@),
                    ),
                ],
                final(gpu).trace(),
                refusal(r),
            ),
    {
        let call = LayerCall {
            kind: LayerKind::StateSpace,
            index: self.index,
            state: LayerState::StateSpace(state),
            cache,
            work,
            ctx: *ctx,
        };
        run_one_layer(gpu, &call, block_table, disk_block_ids, disk_last_offloaded_per_layer, stream)
    }

    pub fn is_ssm_layer(&self) -> (r: bool)
        ensures
            r,
    {
        true
    }

    /// Allocates the state of a sequence.
    pub fn alloc_state<G: GpuBackend>(&self, gpu: &mut G) -> (r: Result<SsmLayerState, GpuError>)
        ensures
            match r {
                Ok(s) => ran(
                    old(gpu).trace(),
                    alloc_steps(self.state_sizes(), seq![s.h_state, s.conv_state]),
                    final(gpu).trace(),
                    None,
                ),
                Err(e) => exists|ptrs: Seq<DevicePtr>|
                    ptrs.len() == 2 && ran(
                        old(gpu).trace(),
                        #[trigger] alloc_steps(self.state_sizes(), ptrs),
                        final(gpu).trace(),
                        Some(e),
                    ),
            },
    {
        let sizes = vec![self.h_state_bytes, self.conv_state_bytes];
        assert(sizes@ =~= self.state_sizes());
        match alloc_all(gpu, &sizes) {
            Ok(ptrs) => {
                assert(ptrs@ =~= seq![ptrs@[0], ptrs@[1]]);
                Ok(SsmLayerState { h_state: ptrs[0], conv_state: ptrs[1] })
            },
            Err(e) => Err(e),
        }
    }

    /// The first `n` values of a BF16 buffer, as the bits of singles; nothing
    /// where they cannot be read.
    pub fn debug_bf16<G: GpuBackend>(gpu: &mut G, ptr: DevicePtr, n: usize) -> (r: Option<Vec<u32>>)
        requires
            n * 2 <= usize::MAX,
        ensures
            read_for_debug(old(gpu).trace(), final(gpu).trace(), ptr, n * 2, false, n as int, r),
    {
        match gpu.copy_d2h(ptr, n * 2) {
            Ok(data) => {
                assert(gpu.trace() == old(gpu).trace().push(read_step(ptr, n * 2, data@)));
                Some(widen_row(data.as_slice(), false, n))
            },
            Err(e) => {
                assert(gpu.trace() == old(gpu).trace().push(failed(read_step(ptr, n * 2, Seq::empty()), e)));
                None
            },
        }
    }

    /// The first `n` values of a buffer of singles, as their bits; nothing where
    /// they cannot be read.
    pub fn debug_f32<G: GpuBackend>(gpu: &mut G, ptr: DevicePtr, n: usize) -> (r: Option<Vec<u32>>)
        requires
            n * 4 <= usize::MAX,
        ensures
            read_for_debug(old(gpu).trace(), final(gpu).trace(), ptr, n * 4, true, n as int, r),
    {
        match gpu.copy_d2h(ptr, n * 4) {
            Ok(data) => {
                assert(gpu.trace() == old(gpu).trace().push(read_step(ptr, n * 4, data@)));
                Some(widen_row(data.as_slice(), true, n))
            },
            Err(e) => {
                assert(gpu.trace() == old(gpu).trace().push(failed(read_step(ptr, n * 4, Seq::empty()), e)));
                None
            },
        }
    }

    /// One decode step of one sequence.
    pub fn decode<G: GpuBackend>(
        &self,
        gpu: &mut G,
        hidden: DevicePtr,
        residual: DevicePtr,
        state: SsmLayerState,
        cache: CacheId,
        seq_len: usize,
        block_table: &Vec<u32>,
        disk_block_ids: &mut Vec<u32>,
        disk_last_offloaded_per_layer: &mut Vec<u32>,
        ctx: &ForwardContext,
        stream: u64,
    ) -> (r: Result<(), GpuError>)
        ensures
            ran(
                old(gpu).trace(),
                seq![
                    layer_step(
                        self.call_of(
                            state,
                            cache,
                            LayerWork::Decode { hidden, residual, seq_len },
                            *ctx,
                        ),
                        tables(block_table@, old(disk_block_ids)@, old(disk_last_offloaded_per_layer)@),
                        stream,
                        left(final(disk_block_ids)@, final(disk_last_offloaded_per_layer)@),
                    ),
                ],
                final(gpu).trace(),
                refusal(r),
            ),
    {
        let work = LayerWork::Decode { hidden, residual, seq_len };
        self.work(gpu, state, cache, work, block_table, disk_block_ids, disk_last_offloaded_per_layer, ctx, stream)
    }

    /// One step over several rows of one sequence.
    pub fn decode_batched<G: GpuBackend>(
        &self,
        gpu: &mut G,
        hidden: DevicePtr,
        residual: DevicePtr,
        num_tokens: usize,
        state: SsmLayerState,
        cache: CacheId,
        seq_len: usize,
        block_table: &Vec<u32>,
        disk_block_ids: &mut Vec<u32>,
        disk_last_offloaded_per_layer: &mut Vec<u32>,
        ctx: &ForwardContext,
        stream: u64,
    ) -> (r: Result<(), GpuError>)
        ensures
            ran(
                old(gpu).trace(),
                seq![
                    layer_step(
                        self.call_of(
                            state,
                            cache,
                            LayerWork::DecodeBatched { hidden, residual, num_tokens, seq_len },
                            *ctx,
                        ),
                        tables(block_table@, old(disk_block_ids)@, old(disk_last_offloaded_per_layer)@),
                        stream,
                        left(final(disk_block_ids)@, final(disk_last_offloaded_per_layer)@),
                    ),
                ],
                final(gpu).trace(),
                refusal(r),
            ),
    {
        let work = LayerWork::DecodeBatched { hidden, residual, num_tokens, seq_len };
        self.work(gpu, state, cache, work, block_table, disk_block_ids, disk_last_offloaded_per_layer, ctx, stream)
    }

    /// Decode of one row of each of several sequences.
    pub fn decode_multi_seq<G: GpuBackend>(
        &self,
        gpu: &mut G,
        hidden: DevicePtr,
        residual: DevicePtr,
        num_seqs: usize,
        states: &[LayerState],
        cache: CacheId,
        seq_lens: &[usize],
        block_tables: &[Vec<u32>],
        ctx: &ForwardContext,
        stream: u64,
    ) -> (r: Result<(), GpuError>)
        ensures
            ran(
                old(gpu).trace(),
                seq![
                    done(
                        Cmd::DecodeSequences {
                            kind: LayerKind::StateSpace,
                            index: self.index,
                            hidden,
                            residual,
                            num_seqs,
                            cache,
                            states: states@,
                            seq_lens: seq_lens@,
                            block_tables: tables_of(block_tables@),
                            ctx: *ctx,
                            stream,
                        },
                    ),
                ],
                final(gpu).trace(),
                refusal(r),
            ),
    {
        let ghost pre = gpu.trace();
        let index: usize = self.index;
        let kind = LayerKind::StateSpace;
        let r = gpu.decode_sequences(
            kind,
            index,
            hidden,
            residual,
            num_seqs,
            cache,
            states,
            seq_lens,
            block_tables,
            ctx,
            stream,
        );
        proof {
            let cmd = Cmd::DecodeSequences {
                kind,
                index,
                hidden,
                residual,
                num_seqs,
                cache,
                states: states@,
                seq_lens: seq_lens@,
                block_tables: tables_of(block_tables@),
                ctx: *ctx,
                stream,
            };
            lemma_ran_one(pre, done(cmd), gpu.trace(), refusal(r));
        }
        r
    }

    /// The part of a prefill before the recurrence.
    pub fn prefill_phase1<G: GpuBackend>(
        &self,
        gpu: &mut G,
        hidden: DevicePtr,
        residual: DevicePtr,
        num_tokens: usize,
        state: SsmLayerState,
        cache: CacheId,
        seq_len_start: usize,
        block_table: &Vec<u32>,
        disk_block_ids: &mut Vec<u32>,
        disk_last_offloaded_per_layer: &mut Vec<u32>,
        kv_write_start: usize,
        gdn_bufs: &GdnPrefillBuffers,
        token_offset: usize,
        ctx: &ForwardContext,
        stream: u64,
    ) -> (r: Result<(), GpuError>)
        ensures
            ran(
                old(gpu).trace(),
                seq![
                    layer_step(
                        self.call_of(
                            state,
                            cache,
                            LayerWork::PrefillPhase1 {
                                hidden,
                                residual,
                                num_tokens,
                                seq_len_start,
                                kv_write_start,
                                gdn: *gdn_bufs,
                                token_offset,
                            },
                            *ctx,
                        ),
                        tables(block_table@, old(disk_block_ids)@, old(disk_last_offloaded_per_layer)@),
                        stream,
                        left(final(disk_block_ids)@, final(disk_last_offloaded_per_layer)@),
                    ),
                ],
                final(gpu).trace(),
                refusal(r),
            ),
    {
        let work = LayerWork::PrefillPhase1 {
            hidden,
            residual,
            num_tokens,
            seq_len_start,
            kv_write_start,
            gdn: *gdn_bufs,
            token_offset,
        };
        self.work(gpu, state, cache, work, block_table, disk_block_ids, disk_last_offloaded_per_layer, ctx, stream)
    }

    /// The recurrence over all stacked rows.
    pub fn prefill_gdn_full<G: GpuBackend>(
        &self,
        gpu: &mut G,
        state: SsmLayerState,
        gdn_bufs: &GdnPrefillBuffers,
        ctx: &ForwardContext,
        stream: u64,
    ) -> (r: Result<(), GpuError>)
        ensures
            ran(
                old(gpu).trace(),
                seq![
                    step(
                        Op::SsmPrefillGdn {
                            index: self.index,
                            state: LayerState::StateSpace(state),
                            gdn: *gdn_bufs,
                            ctx: *ctx,
                        },
                        stream,
                    ),
                ],
                final(gpu).trace(),
                refusal(r),
            ),
    {
        let op = Op::SsmPrefillGdn {
            index: self.index,
            state: LayerState::StateSpace(state),
            gdn: *gdn_bufs,
            ctx: *ctx,
        };
        run_op(gpu, op, stream)
    }

    /// The part of a prefill after the recurrence.
    pub fn prefill_phase3<G: GpuBackend>(
        &self,
        gpu: &mut G,
        hidden: DevicePtr,
        residual: DevicePtr,
        num_tokens: usize,
        gdn_bufs: &GdnPrefillBuffers,
        token_offset: usize,
        ctx: &ForwardContext,
        stream: u64,
    ) -> (r: Result<(), GpuError>)
        ensures
            ran(
                old(gpu).trace(),
                seq![
                    step(
                        Op::SsmPrefillPhase3 {
                            index: self.index,
                            hidden,
                            residual,
                            num_tokens,
                            gdn: *gdn_bufs,
                            token_offset,
                            ctx: *ctx,
                        },
                        stream,
                    ),
                ],
                final(gpu).trace(),
                refusal(r),
            ),
    {
        let op = Op::SsmPrefillPhase3 {
            index: self.index,
            hidden,
            residual,
            num_tokens,
            gdn: *gdn_bufs,
            token_offset,
            ctx: *ctx,
        };
        run_op(gpu, op, stream)
    }

    /// Prefill of one stream.
    pub fn prefill<G: GpuBackend>(
        &self,
        gpu: &mut G,
        hidden: DevicePtr,
        residual: DevicePtr,
        num_tokens: usize,
        state: SsmLayerState,
        cache: CacheId,
        seq_len_start: usize,
        block_table: &Vec<u32>,
        disk_block_ids: &mut Vec<u32>,
        disk_last_offloaded_per_layer: &mut Vec<u32>,
        kv_write_start: usize,
        ctx: &ForwardContext,
        stream: u64,
    ) -> (r: Result<(), GpuError>)
        ensures
            ran(
                old(gpu).trace(),
                seq![
                    prefill_step(
                        *self,
                        hidden,
                        residual,
                        num_tokens,
                        state,
                        cache,
                        seq_len_start,
                        tables(block_table@, old(disk_block_ids)@, old(disk_last_offloaded_per_layer)@),
                        left(final(disk_block_ids)@, final(disk_last_offloaded_per_layer)@),
                        kv_write_start,
                        *ctx,
                        stream,
                    ),
                ],
                final(gpu).trace(),
                refusal(r),
            ),
    {
        let work = LayerWork::Prefill { hidden, residual, num_tokens, seq_len_start, kv_write_start };
        self.work(gpu, state, cache, work, block_table, disk_block_ids, disk_last_offloaded_per_layer, ctx, stream)
    }

    /// Prefill of stacked streams, one after the other, each with its own state
    /// and tables. Streams without rows are left out.
    pub fn prefill_batched<G: GpuBackend>(
        &self,
        gpu: &mut G,
        hidden: DevicePtr,
        residual: DevicePtr,
        cu_seqlens: &[usize],
        states: &[SsmLayerState],
        cache: CacheId,
        seq_lens_start: &[usize],
        block_tables: &[Vec<u32>],
        disk_block_ids: &mut Vec<Vec<u32>>,
        disk_last_offloaded_per_layer: &mut Vec<Vec<u32>>,
        kv_write_starts: &[usize],
        ctx: &ForwardContext,
        stream: u64,
    ) -> (r: Result<(), GpuError>)
        requires
            starts_in_order(cu_seqlens@),
            states@.len() + 1 >= cu_seqlens@.len(),
            seq_lens_start@.len() + 1 >= cu_seqlens@.len(),
            block_tables@.len() + 1 >= cu_seqlens@.len(),
            old(disk_block_ids)@.len() + 1 >= cu_seqlens@.len(),
            old(disk_last_offloaded_per_layer)@.len() + 1 >= cu_seqlens@.len(),
            kv_write_starts@.len() + 1 >= cu_seqlens@.len(),
        ensures
            stack_outcome(
                (StackCall {
                    layer: *self,
                    hidden,
                    residual,
                    cu: cu_seqlens@,
                    states: states@,
                    cache,
                    starts: seq_lens_start@,
                    blocks: tables_of(block_tables@),
                    writes: kv_write_starts@,
                    ctx: *ctx,
                    stream,
                }),
                stream_tables(old(disk_block_ids)@, old(disk_last_offloaded_per_layer)@),
                stream_tables(final(disk_block_ids)@, final(disk_last_offloaded_per_layer)@),
                old(gpu).trace(),
                final(gpu).trace(),
                r,
            ),
    {
        let ghost pre = gpu.trace();
        let n: usize = cu_seqlens.len().saturating_sub(1);
        let h: usize = ctx.config.hidden_size;
        let ghost c = StackCall {
            layer: *self,
            hidden,
            residual,
            cu: cu_seqlens@,
            states: states@,
            cache,
            starts: seq_lens_start@,
            blocks: tables_of(block_tables@),
            writes: kv_write_starts@,
            ctx: *ctx,
            stream,
        };
        let ghost before = stream_tables(disk_block_ids@, disk_last_offloaded_per_layer@);
        let ghost mut now = before;
        let mut i: usize = 0;
        assert(gpu.trace() =~= pre + stream_steps(c, before, now, 0));
        while i < n
            invariant
                i <= n,
                n == stream_count(c),
                h == ctx.config.hidden_size,
                c.layer == *self,
                c.hidden == hidden,
                c.residual == residual,
                c.cu == cu_seqlens@,
                c.states == states@,
                c.cache == cache,
                c.starts == seq_lens_start@,
                c.blocks == tables_of(block_tables@),
                c.writes == kv_write_starts@,
                c.ctx == *ctx,
                c.stream == stream,
                starts_in_order(cu_seqlens@),
                states@.len() >= n,
                seq_lens_start@.len() >= n,
                block_tables@.len() >= n,
                before.ids.len() >= n,
                before.cursors.len() >= n,
                kv_write_starts@.len() >= n,
                pre == old(gpu).trace(),
                before == stream_tables(old(disk_block_ids)@, old(disk_last_offloaded_per_layer)@),
                now == stream_tables(disk_block_ids@, disk_last_offloaded_per_layer@),
                tables_kept(c, before, now, i as int),
                gpu.trace() == pre + stream_steps(c, before, now, i as nat),
            decreases n - i,
        {
            let off: usize = cu_seqlens[i];
            let end: usize = cu_seqlens[i + 1];
            assert(off <= end);
            let rows: usize = end - off;
            if rows > 0 {
                let ghost mid = gpu.trace();
                assert(now.ids[i as int] == before.ids[i as int]);
                assert(now.cursors[i as int] == before.cursors[i as int]);
                let r = self.prefill(
                    gpu,
                    hidden.item(off, h, 2),
                    residual.item(off, h, 2),
                    rows,
                    states[i],
                    cache,
                    seq_lens_start[i],
                    &block_tables[i],
                    &mut disk_block_ids[i],
                    &mut disk_last_offloaded_per_layer[i],
                    kv_write_starts[i],
                    ctx,
                    stream,
                );
                let ghost next = stream_tables(disk_block_ids@, disk_last_offloaded_per_layer@);
                proof {
                    let this = stream_step(c, before, next, i as int);
                    lemma_stream_steps_same(c, before, now, next, i as nat);
                    assert(next.ids =~= now.ids.update(i as int, next.ids[i as int]));
                    assert(next.cursors =~= now.cursors.update(i as int, next.cursors[i as int]));
                    assert forall|j: int|
                        #![trigger next.ids[j]]
                        0 <= j < before.ids.len() && (j >= i + 1 || c.cu[j] == c.cu[j + 1]) implies next.ids[j]
                        == before.ids[j] by {
                        assert(next.ids[j] == now.ids[j]);
                    }
                    assert forall|j: int|
                        #![trigger next.cursors[j]]
                        0 <= j < before.cursors.len() && (j >= i + 1 || c.cu[j] == c.cu[j + 1]) implies next.cursors[j]
                        == before.cursors[j] by {
                        assert(next.cursors[j] == now.cursors[j]);
                    }
                    if let Err(e) = r {
                        assert(seq![this].take(0) =~= Seq::empty());
                        assert(gpu.trace() =~= mid + seq![failed(this, e)]);
                        assert(gpu.trace() =~= pre + stream_steps(c, before, next, i as nat).push(failed(this, e)));
                        assert(refused_at(c, before, next, pre, gpu.trace(), i as int, e));
                    } else {
                        assert(gpu.trace() =~= mid + seq![this]);
                        assert(gpu.trace() =~= pre + stream_steps(c, before, next, (i + 1) as nat));
                        now = next;
                    }
                }
                if let Err(e) = r {
                    return Err(e);
                }
            } else {
                assert(stream_steps(c, before, now, (i + 1) as nat) =~= stream_steps(c, before, now, i as nat));
            }
            i += 1;
        }
        Ok(())
    }
}

/// The steps of the first `n` streams depend on their tables alone.
proof fn lemma_stream_steps_same(c: StackCall, before: StreamTables, a: StreamTables, b: StreamTables, n: nat)
    requires
        forall|i: int| #![trigger a.ids[i]] 0 <= i < n ==> a.ids[i] == b.ids[i],
        forall|i: int| #![trigger a.cursors[i]] 0 <= i < n ==> a.cursors[i] == b.cursors[i],
    ensures
        stream_steps(c, before, a, n) == stream_steps(c, before, b, n),
    decreases n,
{
    if n > 0 {
        lemma_stream_steps_same(c, before, a, b, (n - 1) as nat);
        assert(a.ids[n - 1] == b.ids[n - 1]);
        assert(a.cursors[n - 1] == b.cursors[n - 1]);
    }
}

/// `bytes` bytes were read at `ptr`, and came to `r`.
pub open spec fn read_for_debug(
    pre: Seq<Event>,
    post: Seq<Event>,
    ptr: DevicePtr,
    bytes: int,
    is_fp32: bool,
    n: int,
    r: Option<Vec<u32>>,
) -> bool {
    match r {
        Some(row) => exists|data: Seq<u8>|
            post == pre.push(#[trigger] read_step(ptr, bytes, data)) && row@ == row_bits(data, is_fp32, n),
        None => exists|e: GpuError| post == pre.push(#[trigger] failed(read_step(ptr, bytes, Seq::empty()), e)),
    }
}

// ── laws ──
/// The rows that a step runs.
pub open spec fn rows_of(step: Event) -> int {
    match step.cmd {
        Cmd::Layer { call, .. } => match call.work {
            LayerWork::Prefill { num_tokens, .. } => num_tokens as int,
            _ => 0,
        },
        _ => 0,
    }
}

/// The rows that all steps run.
pub open spec fn rows_of_all(steps: Seq<Event>) -> int
    decreases steps.len(),
{
    if steps.len() == 0 {
        0
    } else {
        rows_of_all(steps.drop_last()) + rows_of(steps.last())
    }
}

/// What is owed for stream `i` alone: its prefill on its own rows, with its own
/// state and tables, which leaves `after` of them; nothing where it has no rows.
pub open spec fn stream_ran(
    c: StackCall,
    before: StreamTables,
    after: StreamTables,
    pre: Seq<Event>,
    post: Seq<Event>,
    i: int,
) -> bool {
    if c.cu[i] == c.cu[i + 1] {
        post == pre && after.ids[i] == before.ids[i] && after.cursors[i] == before.cursors[i]
    } else {
        ran(pre, seq![stream_step(c, before, after, i)], post, None)
    }
}

/// The streams were run one by one, from trace to trace, and nothing else was
/// touched.
pub open spec fn one_by_one(c: StackCall, before: StreamTables, after: StreamTables, traces: Seq<Seq<Event>>) -> bool {
    let n = stream_count(c);
    &&& traces.len() == n + 1
    &&& after.ids.len() == before.ids.len()
    &&& after.cursors.len() == before.cursors.len()
    &&& forall|i: int| #![trigger traces[i]] 0 <= i < n ==> stream_ran(c, before, after, traces[i], traces[i + 1], i)
    &&& forall|i: int| #![trigger after.ids[i]] n <= i < after.ids.len() ==> after.ids[i] == before.ids[i]
    &&& forall|i: int|
        #![trigger after.cursors[i]]
        n <= i < after.cursors.len() ==> after.cursors[i] == before.cursors[i]
}

proof fn lemma_one_by_one(
    c: StackCall,
    before: StreamTables,
    after: StreamTables,
    traces: Seq<Seq<Event>>,
    k: nat,
)
    requires
        one_by_one(c, before, after, traces),
        k <= stream_count(c),
    ensures
        traces[k as int] == traces[0] + stream_steps(c, before, after, k),
    decreases k,
{
    if k == 0 {
        assert(traces[0] =~= traces[0] + stream_steps(c, before, after, 0));
    } else {
        lemma_one_by_one(c, before, after, traces, (k - 1) as nat);
        assert(stream_ran(c, before, after, traces[k - 1], traces[k - 1 + 1], k - 1));
        assert(traces[k as int] =~= traces[0] + stream_steps(c, before, after, k));
    }
}

/// A stacked prefill that succeeds is the prefills of its streams, one after the
/// other: the device saw the same commands and made the same answers, and the
/// tables of every stream are what its own prefill leaves.
pub proof fn stacked_prefill_is_its_streams(
    c: StackCall,
    before: StreamTables,
    after: StreamTables,
    pre: Seq<Event>,
    post: Seq<Event>,
)
    requires
        before.ids.len() >= stream_count(c),
        before.cursors.len() >= stream_count(c),
    ensures
        stack_outcome(c, before, after, pre, post, Ok(())) <==> exists|traces: Seq<Seq<Event>>|
            #[trigger] one_by_one(c, before, after, traces) && traces[0] == pre && traces.last() == post,
{
    let n = stream_count(c);
    if stack_outcome(c, before, after, pre, post, Ok(())) {
        let traces = Seq::new((n + 1) as nat, |i: int| pre + stream_steps(c, before, after, i as nat));
        assert forall|i: int| #![trigger traces[i]] 0 <= i < n implies stream_ran(
            c,
            before,
            after,
            traces[i],
            traces[i + 1],
            i,
        ) by {
            let so_far = stream_steps(c, before, after, i as nat);
            assert(stream_steps(c, before, after, (i + 1) as nat) == so_far + one_stream(c, before, after, i));
            assert(traces[i + 1] =~= traces[i] + one_stream(c, before, after, i));
            assert(after.ids[i] == after.ids[i] && after.cursors[i] == after.cursors[i]);
        }
        assert(one_by_one(c, before, after, traces));
        assert(traces[0] =~= pre);
    }
    if exists|traces: Seq<Seq<Event>>|
        #[trigger] one_by_one(c, before, after, traces) && traces[0] == pre && traces.last() == post {
        let traces = choose|traces: Seq<Seq<Event>>|
            #[trigger] one_by_one(c, before, after, traces) && traces[0] == pre && traces.last() == post;
        lemma_one_by_one(c, before, after, traces, n as nat);
        assert forall|i: int| 0 <= i < n && c.cu[i] == c.cu[i + 1] implies after.ids[i] == before.ids[i]
            && after.cursors[i] == before.cursors[i] by {
            assert(stream_ran(c, before, after, traces[i], traces[i + 1], i));
        }
        assert(tables_kept(c, before, after, n));
    }
}

/// A stacked prefill covers the stack: its streams have as many rows between them
/// as lie between the first start and the last, and no stream that has rows is
/// left out.
pub proof fn stacked_rows_are_covered(c: StackCall, before: StreamTables, after: StreamTables, n: nat)
    requires
        starts_in_order(c.cu),
        n < c.cu.len(),
    ensures
        rows_of_all(stream_steps(c, before, after, n)) == c.cu[n as int] - c.cu[0],
        forall|i: int|
            0 <= i < n && c.cu[i] < c.cu[i + 1] ==> stream_steps(c, before, after, n).contains(
                #[trigger] stream_step(c, before, after, i),
            ),
    decreases n,
{
    if n > 0 {
        let m = (n - 1) as nat;
        let rest = stream_steps(c, before, after, m);
        let all = stream_steps(c, before, after, n);
        stacked_rows_are_covered(c, before, after, m);
        assert(c.cu[m as int] <= c.cu[n as int]);
        if c.cu[m as int] != c.cu[n as int] {
            let last = stream_step(c, before, after, m as int);
            assert(all =~= rest.push(last));
            assert(all.drop_last() =~= rest);
            assert(all[all.len() - 1] == last);
            assert forall|i: int| 0 <= i < n && c.cu[i] < c.cu[i + 1] implies all.contains(
                #[trigger] stream_step(c, before, after, i),
            ) by {
                let step = stream_step(c, before, after, i);
                if i < m {
                    let j = choose|j: int| 0 <= j < rest.len() && rest[j] == step;
                    assert(all[j] == step);
                }
            }
        } else {
            assert(all =~= rest);
        }
    }
}

} // verus!
