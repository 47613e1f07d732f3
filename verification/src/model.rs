//! The model's part in drafting and in stacked prefill.

use vstd::prelude::*;
use vstd::slice::slice_subrange;

use crate::block_mgmt::SequenceState;
use crate::config::{BufferArena, ForwardContext, ModelConfig, ModelType};
use crate::gpu::{at, DevicePtr, GpuError};
use crate::kv_cache::{cache_id, PagedKvCache};
use crate::mtp::{DeepseekV4MtpHead, MtpFlags};
use crate::mtp_forward::{body_place, snapshot, MtpError};
use crate::mtp_prefill::{rows_built, rows_call, rows_call_fits};
use crate::mtp_propose::mtp_state;
use crate::op::{LayerCall, LayerKind, LayerWork, Op};
use crate::run::{layer_step, run_one_layer, run_op, step};
use crate::speculative::ProposerState;
use crate::trace::{left, ran, refusal, tables, Event, GpuBackend};

verus! {

/// The model, as far as drafting needs it.
pub struct TransformerModel {
    pub config: ModelConfig,
    pub buffers: BufferArena,
    /// A saved copy of the streams of one row, or null.
    pub mtp_streams_save: DevicePtr,
    /// A saved copy of one hidden row.
    pub mtp_hidden_save: DevicePtr,
    pub proposer: Option<DeepseekV4MtpHead>,
}

/// One stream of a stacked prefill.
#[derive(Clone, Copy, PartialEq, Eq, Structural, Debug)]
pub struct PrefillSlice {
    pub chunk_start: usize,
    pub chunk_len: usize,
    pub is_last_chunk: bool,
}

/// Why a stacked prefill did not run.
#[derive(Clone, Copy, PartialEq, Eq, Structural, Debug)]
pub enum BatchPrefillError {
    /// The stacked rows do not fit in the arena.
    ExceedsArena { total_tokens: usize, arena_cap: usize, streams: usize },
    /// Streams are to be run one by one.
    OneByOne,
    Gpu(GpuError),
}

/// The rows of all streams.
pub open spec fn total_rows(streams: Seq<PrefillSlice>) -> int
    decreases streams.len(),
{
    if streams.len() == 0 {
        0
    } else {
        total_rows(streams.drop_last()) + streams.last().chunk_len
    }
}

proof fn lemma_total_grows(streams: Seq<PrefillSlice>, k: int)
    requires
        0 <= k <= streams.len(),
    ensures
        0 <= total_rows(streams.take(k)) <= total_rows(streams),
    decreases streams.len(),
{
    if k == streams.len() {
        assert(streams.take(k) =~= streams);
        if k > 0 {
            lemma_total_grows(streams.drop_last(), k - 1);
        }
    } else {
        lemma_total_grows(streams.drop_last(), k);
        assert(streams.drop_last().take(k) =~= streams.take(k));
    }
}

// ── prompt rows ──
/// A chunk of the prompt builds rows of the drafter: that is switched on, the
/// model is of the right family, and the sequence drafts.
pub open spec fn builds_rows(model: TransformerModel, seq: SequenceState, flags: MtpFlags, proc_count: usize) -> bool {
    &&& flags.prompt_prefill
    &&& model.config.model_type == ModelType::DeepseekV4
    &&& proc_count > 0
    &&& model.proposer is Some
    &&& seq.proposer_state is Some
}

/// The rows that a chunk can build: every row needs the token after it.
pub open spec fn chunk_rows(tokens: int, first_position: int, proc_count: int) -> int {
    let available = if tokens > first_position + 1 { tokens - (first_position + 1) } else { 0 };
    if proc_count < available { proc_count } else { available }
}

/// The rows that the drafter has.
pub open spec fn rows_had(state: ProposerState) -> usize {
    if state is V4Mtp { mtp_state(state).seq_len } else { 0 }
}

/// The context that rows are built in.
pub open spec fn row_ctx(model: TransformerModel) -> ForwardContext {
    ForwardContext {
        buffers: model.buffers,
        config: model.config,
        attn_metadata: None,
        comm: false,
        graph_capture: false,
        profile: false,
        token_ids: Some(model.buffers.token_ids),
    }
}

/// Head and state of a sequence at one moment.
#[verifier::ext_equal]
pub struct Drafting {
    pub trace: Seq<Event>,
    pub head: DeepseekV4MtpHead,
    pub state: ProposerState,
}

/// What building the rows of a chunk does and says.
pub open spec fn chunk_built(
    ctx: ForwardContext,
    flags: MtpFlags,
    tokens: Seq<u32>,
    first_position: usize,
    proc_count: usize,
    stream: u64,
    pre: Drafting,
    post: Drafting,
    r: Result<usize, MtpError>,
) -> bool {
    let rows = chunk_rows(tokens.len() as int, first_position as int, proc_count as int);
    if rows == 0 || rows_had(pre.state) != first_position {
        post == pre && r == Ok::<usize, MtpError>(0)
    } else if pre.state is V4Mtp {
        &&& post.state is V4Mtp
        &&& post.head.parts == pre.head.parts
        &&& mtp_state(post.state).last_num_drafted == mtp_state(pre.state).last_num_drafted
        &&& body_place(post.head, mtp_state(post.state)) == body_place(pre.head, mtp_state(pre.state))
        &&& rows_built(
            rows_call(pre.head.parts, ctx, flags, ctx.buffers.hc_streams, first_position, stream),
            tokens.subrange(first_position + 1, first_position + 1 + rows),
            snapshot(pre.trace, pre.head, mtp_state(pre.state)),
            snapshot(post.trace, post.head, mtp_state(post.state)),
            r,
        )
    } else {
        post == pre && r == Err::<usize, MtpError>(MtpError::InvalidState)
    }
}

/// Before the last chunk, the hidden row and streams that the first proposal
/// needs are saved.
pub open spec fn save_step(proc_count: usize, stream: u64) -> Event {
    step(Op::SaveHiddenForMtp { row: (proc_count - 1) as usize }, stream)
}

/// After the last chunk, the target's last hidden row is put back.
pub open spec fn restore_step(model: TransformerModel, proc_count: usize, stream: u64) -> Event {
    let h = model.config.hidden_size;
    step(
        Op::CopyD2d {
            src: model.mtp_hidden_save,
            dst: at(model.buffers.hidden_states, (proc_count - 1) * h * 2),
            bytes: (h * 2) as usize,
        },
        stream,
    )
}

/// What a chunk of the prompt does and says, where it builds rows. A refused
/// save ends it. A refused restore is the answer whatever the rows came to.
pub open spec fn chunk_outcome(
    model: TransformerModel,
    flags: MtpFlags,
    tokens: Seq<u32>,
    first_position: usize,
    proc_count: usize,
    is_last_chunk: bool,
    stream: u64,
    pre: Drafting,
    post: Drafting,
    r: Result<usize, MtpError>,
) -> bool {
    let ctx = row_ctx(model);
    if !is_last_chunk {
        chunk_built(ctx, flags, tokens, first_position, proc_count, stream, pre, post, r)
    } else {
        ||| save_refused(proc_count, stream, pre, post, r)
        ||| exists|mid: Drafting, built: Result<usize, MtpError>|
            {
                &&& #[trigger] chunk_built(
                    ctx,
                    flags,
                    tokens,
                    first_position,
                    proc_count,
                    stream,
                    Drafting { trace: pre.trace.push(save_step(proc_count, stream)), ..pre },
                    mid,
                    built,
                )
                &&& restored(model, proc_count, stream, mid, post, built, r)
            }
    }
}

/// The save before the last chunk was refused.
pub open spec fn save_refused(
    proc_count: usize,
    stream: u64,
    pre: Drafting,
    post: Drafting,
    r: Result<usize, MtpError>,
) -> bool {
    &&& r matches Err(MtpError::Gpu(e))
    &&& post == (Drafting { trace: post.trace, ..pre })
    &&& ran(pre.trace, seq![save_step(proc_count, stream)], post.trace, Some(e))
}

/// The restore after the last chunk.
pub open spec fn restored(
    model: TransformerModel,
    proc_count: usize,
    stream: u64,
    mid: Drafting,
    post: Drafting,
    built: Result<usize, MtpError>,
    r: Result<usize, MtpError>,
) -> bool {
    &&& post == (Drafting { trace: post.trace, ..mid })
    &&& {
        ||| r == built && ran(mid.trace, seq![restore_step(model, proc_count, stream)], post.trace, None)
        ||| r matches Err(MtpError::Gpu(e)) && ran(
            mid.trace,
            seq![restore_step(model, proc_count, stream)],
            post.trace,
            Some(e),
        )
    }
}

fn build_chunk<G: GpuBackend>(
    head: &mut DeepseekV4MtpHead,
    state: &mut ProposerState,
    gpu: &mut G,
    ctx: &ForwardContext,
    flags: &MtpFlags,
    tokens: &[u32],
    first_position: usize,
    proc_count: usize,
    stream: u64,
) -> (r: Result<usize, MtpError>)
    requires
        old(head).wf(),
        *old(state) is V4Mtp ==> rows_call_fits(
            rows_call(old(head).parts, *ctx, *flags, ctx.buffers.hc_streams, first_position, stream),
            mtp_state(*old(state)).block_table@,
            chunk_rows(tokens@.len() as int, first_position as int, proc_count as int),
        ),
    ensures
        final(head).wf(),
        chunk_built(
            *ctx,
            *flags,
            tokens@,
            first_position,
            proc_count,
            stream,
            (Drafting { trace: old(gpu).trace(), head: *old(head), state: *old(state) }),
            (Drafting { trace: final(gpu).trace(), head: *final(head), state: *final(state) }),
            r,
        ),
{
    let available: usize = tokens.len().saturating_sub(first_position.saturating_add(1));
    let rows: usize = if proc_count < available { proc_count } else { available };
    assert(rows == chunk_rows(tokens@.len() as int, first_position as int, proc_count as int));
    let had: usize = head.drafter_rows(state);
    if rows == 0 || had != first_position {
        return Ok(0);
    }
    let next_tokens = slice_subrange(tokens, first_position + 1, first_position + 1 + rows);
    head.prefill_v4_stream_rows(gpu, next_tokens, ctx.buffers.hc_streams, first_position, state, ctx, flags, stream)
}

/// A chunk of the prompt, for a sequence that drafts.
fn build_and_restore<G: GpuBackend>(
    head: &mut DeepseekV4MtpHead,
    state: &mut ProposerState,
    gpu: &mut G,
    model: Ghost<TransformerModel>,
    ctx: &ForwardContext,
    mtp_hidden_save: DevicePtr,
    flags: &MtpFlags,
    tokens: &[u32],
    first_position: usize,
    proc_count: usize,
    is_last_chunk: bool,
    stream: u64,
) -> (r: Result<usize, MtpError>)
    requires
        old(head).wf(),
        proc_count > 0,
        *ctx == row_ctx(model@),
        mtp_hidden_save == model@.mtp_hidden_save,
        is_last_chunk ==> proc_count * model@.config.hidden_size <= usize::MAX && proc_count
            * model@.config.hidden_size * 2 <= usize::MAX,
        *old(state) is V4Mtp ==> rows_call_fits(
            rows_call(old(head).parts, *ctx, *flags, ctx.buffers.hc_streams, first_position, stream),
            mtp_state(*old(state)).block_table@,
            chunk_rows(tokens@.len() as int, first_position as int, proc_count as int),
        ),
    ensures
        final(head).wf(),
        chunk_outcome(
            model@,
            *flags,
            tokens@,
            first_position,
            proc_count,
            is_last_chunk,
            stream,
            (Drafting { trace: old(gpu).trace(), head: *old(head), state: *old(state) }),
            (Drafting { trace: final(gpu).trace(), head: *final(head), state: *final(state) }),
            r,
        ),
{
    let ghost pre = Drafting { trace: gpu.trace(), head: *head, state: *state };
    if !is_last_chunk {
        return build_chunk(head, state, gpu, ctx, flags, tokens, first_position, proc_count, stream);
    }
    if let Err(e) = run_op(gpu, Op::SaveHiddenForMtp { row: proc_count - 1 }, stream) {
        let r: Result<usize, MtpError> = Err(MtpError::Gpu(e));
        assert(save_refused(
            proc_count,
            stream,
            pre,
            Drafting { trace: gpu.trace(), head: *head, state: *state },
            r,
        ));
        return r;
    }
    let ghost saved = Drafting { trace: gpu.trace(), ..pre };
    assert(saved =~= Drafting { trace: pre.trace.push(save_step(proc_count, stream)), ..pre });
    let built = build_chunk(head, state, gpu, ctx, flags, tokens, first_position, proc_count, stream);
    let ghost mid = Drafting { trace: gpu.trace(), head: *head, state: *state };
    let h: usize = ctx.config.hidden_size;
    assert((proc_count - 1) * h <= proc_count * h && (proc_count - 1) * h * 2 <= proc_count * h * 2 && 0 <= (
    proc_count - 1) * h && h * 2 <= proc_count * h * 2) by (nonlinear_arith)
        requires
            proc_count >= 1,
            h >= 0,
    ;
    let op = Op::CopyD2d {
        src: mtp_hidden_save,
        dst: ctx.buffers.hidden_states.offset((proc_count - 1) * h * 2),
        bytes: h * 2,
    };
    match run_op(gpu, op, stream) {
        Err(e) => {
            let r: Result<usize, MtpError> = Err(MtpError::Gpu(e));
            assert(restored(
                model@,
                proc_count,
                stream,
                mid,
                Drafting { trace: gpu.trace(), head: *head, state: *state },
                built,
                r,
            ));
            r
        },
        Ok(_) => {
            assert(restored(
                model@,
                proc_count,
                stream,
                mid,
                Drafting { trace: gpu.trace(), head: *head, state: *state },
                built,
                built,
            ));
            built
        },
    }
}

impl TransformerModel {
    /// Puts the saved streams back, where streams were saved.
    pub fn restore_mtp_streams<G: GpuBackend>(&self, gpu: &mut G, stream: u64) -> (r: Result<(), GpuError>)
        requires
            self.config.hc_mult * self.config.hidden_size <= usize::MAX,
            self.config.hc_mult * self.config.hidden_size * 4 <= usize::MAX,
        ensures
            if self.mtp_streams_save == DevicePtr(0) || self.config.hc_mult == 0 {
                r is Ok && final(gpu).trace() == old(gpu).trace()
            } else {
                ran(
                    old(gpu).trace(),
                    seq![
                        step(
                            Op::CopyD2d {
                                src: self.mtp_streams_save,
                                dst: self.buffers.hc_streams,
                                bytes: (self.config.hc_mult * self.config.hidden_size * 4) as usize,
                            },
                            stream,
                        ),
                    ],
                    final(gpu).trace(),
                    refusal(r),
                )
            },
    {
        if self.mtp_streams_save.is_null() || self.config.hc_mult == 0 {
            return Ok(());
        }
        let bytes: usize = self.config.hc_mult * self.config.hidden_size * 4;
        run_op(gpu, Op::CopyD2d { src: self.mtp_streams_save, dst: self.buffers.hc_streams, bytes }, stream)
    }

    /// A stacked prefill of several streams. There is nothing to do for none.
    /// Rows that do not fit in the arena are refused as such; streams that would
    /// fit are to be run one by one.
    pub fn prefill_batch_chunk_dispatch(&self, streams: &[PrefillSlice]) -> (r: Result<Vec<DevicePtr>, BatchPrefillError>)
        requires
            total_rows(streams@) <= usize::MAX,
        ensures
            match r {
                Ok(v) => streams@.len() == 0 && v@.len() == 0,
                Err(BatchPrefillError::ExceedsArena { total_tokens, arena_cap, streams: n }) => {
                    &&& streams@.len() > 0
                    &&& total_rows(streams@) > self.buffers.max_batch_tokens
                    &&& total_tokens == total_rows(streams@)
                    &&& arena_cap == self.buffers.max_batch_tokens
                    &&& n == streams@.len()
                },
                Err(BatchPrefillError::OneByOne) => streams@.len() > 0 && total_rows(streams@)
                    <= self.buffers.max_batch_tokens,
                Err(BatchPrefillError::Gpu(_)) => false,
            },
    {
        let n: usize = streams.len();
        if n == 0 {
            return Ok(Vec::new());
        }
        let mut total_tokens: usize = 0;
        let mut i: usize = 0;
        assert(streams@.take(0) =~= Seq::empty());
        while i < n
            invariant
                i <= n,
                n == streams@.len(),
                total_rows(streams@) <= usize::MAX,
                total_tokens == total_rows(streams@.take(i as int)),
            decreases n - i,
        {
            proof {
                lemma_total_grows(streams@, i + 1);
                assert(streams@.take(i + 1).drop_last() =~= streams@.take(i as int));
                assert(streams@.take(i + 1).last() == streams@[i as int]);
            }
            total_tokens += streams[i].chunk_len;
            i += 1;
        }
        assert(streams@.take(i as int) =~= streams@);
        let arena_cap: usize = self.buffers.max_batch_tokens;
        if total_tokens > arena_cap {
            return Err(BatchPrefillError::ExceedsArena { total_tokens, arena_cap, streams: n });
        }
        Err(BatchPrefillError::OneByOne)
    }

    /// A stacked attention layer: streams are to be run one by one.
    pub fn prefill_attn_batched_layer(&self) -> (r: Result<(), BatchPrefillError>)
        ensures
            r == Err::<(), BatchPrefillError>(BatchPrefillError::OneByOne),
    {
        Err(BatchPrefillError::OneByOne)
    }

    /// A stacked state-space layer: streams are to be run one by one.
    pub fn prefill_ssm_batched_layer(&self) -> (r: Result<(), BatchPrefillError>)
        ensures
            r == Err::<(), BatchPrefillError>(BatchPrefillError::OneByOne),
    {
        Err(BatchPrefillError::OneByOne)
    }

    /// A stacked layer without state per stream: one prefill over all rows, with
    /// the state and the tables of the first stream. There is nothing to do for
    /// no stream.
    pub fn prefill_dense_batched_layer<G: GpuBackend>(
        &self,
        gpu: &mut G,
        layer_idx: usize,
        hidden_stacked: DevicePtr,
        residual_stacked: DevicePtr,
        total_tokens: usize,
        seqs: &mut Vec<SequenceState>,
        kv_cache: &PagedKvCache,
        ctx: &ForwardContext,
        stream: u64,
    ) -> (r: Result<(), GpuError>)
        requires
            old(seqs)@.len() > 0 ==> layer_idx < old(seqs)@[0].layer_states@.len(),
        ensures
            if old(seqs)@.len() == 0 {
                r is Ok && final(gpu).trace() == old(gpu).trace() && final(seqs)@ == old(seqs)@
            } else {
                let first = old(seqs)@[0];
                let then = final(seqs)@[0];
                &&& final(seqs)@ == old(seqs)@.update(0, then)
                &&& then == (SequenceState {
                    disk_block_ids: then.disk_block_ids,
                    disk_last_offloaded_per_layer: then.disk_last_offloaded_per_layer,
                    ..first
                })
                &&& ran(
                    old(gpu).trace(),
                    seq![
                        layer_step(
                            (LayerCall {
                                kind: LayerKind::Model,
                                index: layer_idx,
                                state: first.layer_states@[layer_idx as int],
                                cache: cache_id(*kv_cache),
                                work: LayerWork::Prefill {
                                    hidden: hidden_stacked,
                                    residual: residual_stacked,
                                    num_tokens: total_tokens,
                                    seq_len_start: 0,
                                    kv_write_start: 0,
                                },
                                ctx: *ctx,
                            }),
                            tables(first.block_table@, first.disk_block_ids@, first.disk_last_offloaded_per_layer@),
                            stream,
                            left(then.disk_block_ids@, then.disk_last_offloaded_per_layer@),
                        ),
                    ],
                    final(gpu).trace(),
                    refusal(r),
                )
            },
    {
        if seqs.len() == 0 {
            return Ok(());
        }
        let call = LayerCall {
            kind: LayerKind::Model,
            index: layer_idx,
            state: seqs[0].layer_states[layer_idx],
            cache: kv_cache.id(),
            work: LayerWork::Prefill {
                hidden: hidden_stacked,
                residual: residual_stacked,
                num_tokens: total_tokens,
                seq_len_start: 0,
                kv_write_start: 0,
            },
            ctx: *ctx,
        };
        let first = &mut seqs[0];
        run_one_layer(
            gpu,
            &call,
            &first.block_table,
            &mut first.disk_block_ids,
            &mut first.disk_last_offloaded_per_layer,
            stream,
        )
    }

    /// Builds the drafter's rows for a chunk of the prompt, out of the streams
    /// that the chunk left. Answers with the number of rows built.
    pub fn try_v4_mtp_prompt_prefill<G: GpuBackend>(
        &mut self,
        gpu: &mut G,
        tokens: &[u32],
        seq: &mut SequenceState,
        first_position: usize,
        proc_count: usize,
        is_last_chunk: bool,
        flags: &MtpFlags,
        stream: u64,
    ) -> (r: Result<usize, MtpError>)
        requires
            builds_rows(*old(self), *old(seq), *flags, proc_count) ==> {
                &&& old(self).proposer->0.wf()
                &&& is_last_chunk ==> proc_count * old(self).config.hidden_size <= usize::MAX && proc_count
                    * old(self).config.hidden_size * 2 <= usize::MAX
                &&& old(seq).proposer_state->0 is V4Mtp ==> rows_call_fits(
                    rows_call(
                        old(self).proposer->0.parts,
                        row_ctx(*old(self)),
                        *flags,
                        old(self).buffers.hc_streams,
                        first_position,
                        stream,
                    ),
                    mtp_state(old(seq).proposer_state->0).block_table@,
                    chunk_rows(tokens@.len() as int, first_position as int, proc_count as int),
                )
            },
        ensures
            final(self).config == old(self).config,
            final(self).buffers == old(self).buffers,
            final(self).mtp_streams_save == old(self).mtp_streams_save,
            final(self).mtp_hidden_save == old(self).mtp_hidden_save,
            final(seq).block_table == old(seq).block_table,
            final(seq).disk_block_ids == old(seq).disk_block_ids,
            final(seq).disk_last_offloaded_per_layer == old(seq).disk_last_offloaded_per_layer,
            final(seq).layer_states == old(seq).layer_states,
            old(self).proposer is Some && old(seq).proposer_state is Some && old(seq).proposer_state->0 is V4Mtp ==> {
                &&& final(self).proposer is Some
                &&& final(seq).proposer_state is Some
                &&& final(seq).proposer_state->0 is V4Mtp
                &&& body_place(final(self).proposer->0, mtp_state(final(seq).proposer_state->0)) == body_place(
                    old(self).proposer->0,
                    mtp_state(old(seq).proposer_state->0),
                )
            },
            if builds_rows(*old(self), *old(seq), *flags, proc_count) {
                &&& final(self).proposer is Some
                &&& final(self).proposer->0.wf()
                &&& final(seq).proposer_state is Some
                &&& chunk_outcome(
                    *old(self),
                    *flags,
                    tokens@,
                    first_position,
                    proc_count,
                    is_last_chunk,
                    stream,
                    (Drafting {
                        trace: old(gpu).trace(),
                        head: old(self).proposer->0,
                        state: old(seq).proposer_state->0,
                    }),
                    (Drafting {
                        trace: final(gpu).trace(),
                        head: final(self).proposer->0,
                        state: final(seq).proposer_state->0,
                    }),
                    r,
                )
            } else {
                &&& r == Ok::<usize, MtpError>(0)
                &&& *final(self) == *old(self)
                &&& *final(seq) == *old(seq)
                &&& final(gpu).trace() == old(gpu).trace()
            },
    {
        if !flags.prompt_prefill || self.config.model_type != ModelType::DeepseekV4 || proc_count == 0 {
            return Ok(0);
        }
        let ctx = ForwardContext {
            buffers: self.buffers,
            config: self.config,
            attn_metadata: None,
            comm: false,
            graph_capture: false,
            profile: false,
            token_ids: Some(self.buffers.token_ids),
        };
        let ghost model = *self;
        let save = self.mtp_hidden_save;
        match &mut self.proposer {
            None => Ok(0),
            Some(head) => match &mut seq.proposer_state {
                None => Ok(0),
                Some(state) => build_and_restore(
                    head,
                    state,
                    gpu,
                    Ghost(model),
                    &ctx,
                    save,
                    flags,
                    tokens,
                    first_position,
                    proc_count,
                    is_last_chunk,
                    stream,
                ),
            },
        }
    }
}

} // verus!
