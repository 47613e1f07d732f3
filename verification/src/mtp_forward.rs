//! One step of the multi-token-prediction draft head.
//!
//! ```text
//!   e        = e_proj · norm(embed[token])
//!   streams  = h_proj · norm(target streams) + e, per stream
//!   body     : one reused transformer layer over the head's own cache
//!   h_out    = collapse(streams)
//!   logits   = lm_head · norm(h_out)
//!   draft    = arg-max(logits), under the grammar mask where there is one
//! ```
//!
//! What a step asks of the device is fixed by its arguments and by what the
//! device answers to its reads: [`draft_steps`] is that program.

use vstd::prelude::*;

use crate::bits::{
    check_corrupt, check_usable, is_masked_argmax, le32, le32_all, le64, masked_argmax, narrow_row,
    narrowed_row, push_le32, push_le32_all, push_le64, push_widened, push_zeros, streams_corrupt,
    streams_usable, u32_at, u32_from, widened, zeros,
};
use crate::config::ForwardContext;
use crate::gpu::{at, DenseWeight, DevicePtr, GpuError};
use crate::kv_cache::{cache_id, grown};
use crate::mtp::{
    DeepseekV4MtpHead, DeepseekV4MtpProposerState, MtpFlags, MtpParts, LOW_SCRATCH, MTP_BLOCK_SIZE,
    MTP_META_OFFSET,
};
use crate::op::{AttnMetadataDev, Boundary, CacheId, LayerCall, LayerKind, LayerState, LayerWork, Op};
use crate::run::{
    all_fit, dump_if, go_ops, layer_step, push_dump, read_back, read_step, run_one_layer, run_ops, send, send_step, steps,
};
use crate::trace::{
    done, lemma_ran_cut, lemma_ran_next, lemma_ran_then, left, ran, refusal, tables, Event, GpuBackend, Left, Tables,
};

verus! {

/// Why a draft step, or the building of prompt rows, came to nothing.
#[derive(Clone, Copy, PartialEq, Eq, Structural, Debug)]
pub enum MtpError {
    Gpu(GpuError),
    /// The head's cache has no free block.
    NoFreeBlock,
    /// The attention metadata does not fit in scratch.
    MetadataExceedsScratch { meta_bytes: usize, scratch_bytes: usize },
    /// The device combiner takes at most four streams.
    TooManyStreams { hc_mult: u32 },
    /// Prompt rows need the target-conditioned first row.
    PrefillNeedsK1State,
    /// Prompt rows need the multi-stream body.
    PrefillNeedsStreams,
    /// Prompt rows must follow on from the rows that are there.
    RowsNotContiguous { rows: usize, first_position: usize },
    /// Prompt rows need at least one stream.
    NoStreams,
    /// The arena cannot hold one row of all streams.
    ArenaTooSmall,
    /// The state belongs to another proposer.
    InvalidState,
}

/// The arguments of one draft step.
#[derive(Clone, Copy, PartialEq, Eq, Structural, Debug)]
pub struct DraftCall {
    pub parts: MtpParts,
    pub ctx: ForwardContext,
    pub flags: MtpFlags,
    pub token: u32,
    pub target_hidden: DevicePtr,
    pub position: usize,
    pub stream: u64,
}

/// What the device answered to the reads of a draft step.
pub struct DraftReads {
    /// The target's streams.
    pub streams: Seq<u8>,
    /// The combined rows, one per stream.
    pub rows: Seq<Seq<u8>>,
    /// What the body left of its tables.
    pub gone: Left,
    /// The streams after the body.
    pub after: Seq<u8>,
    /// The arg-max, or the logits where a grammar mask applies.
    pub pick: Seq<u8>,
}

/// The draft vocabulary: the head's own where it has one, and never more than
/// the model's.
pub open spec fn draft_vocab(mtp_vocab_size: u32, vocab_size: u32) -> u32 {
    if mtp_vocab_size > 0 && mtp_vocab_size < vocab_size {
        mtp_vocab_size
    } else {
        vocab_size
    }
}

impl DraftCall {
    pub open spec fn h(self) -> u32 {
        self.ctx.config.hidden_size as u32
    }

    pub open spec fn hc(self) -> u32 {
        self.ctx.config.hc_mult as u32
    }

    pub open spec fn row_bytes(self) -> usize {
        (self.h() * 2) as usize
    }

    /// Singles in the multi-stream residual.
    pub open spec fn hc_elems(self) -> int {
        self.hc() * self.h()
    }

    pub open spec fn vocab(self) -> u32 {
        draft_vocab(self.parts.mtp_vocab_size, self.ctx.config.vocab_size as u32)
    }

    /// The sizes of the step fit the machine's words.
    pub open spec fn fits(self) -> bool {
        &&& self.h() * 2 <= usize::MAX
        &&& self.hc_elems() * 4 <= usize::MAX
        &&& self.vocab() * 2 <= usize::MAX
        &&& self.ctx.config.num_hidden_layers < usize::MAX
    }

    pub open spec fn norm_op(self, input: DevicePtr, weight: DenseWeight, output: DevicePtr, rows: u32) -> Op {
        Op::RmsNorm {
            kernel: self.parts.rms_norm_k,
            input,
            weight,
            output,
            rows,
            cols: self.h(),
            eps: self.ctx.config.rms_norm_eps,
        }
    }

    pub open spec fn gemv_op(self, input: DevicePtr, weight: DenseWeight, output: DevicePtr, n: u32) -> Op {
        Op::DenseGemv { kernel: self.parts.dense_gemv_k, input, weight, output, n, k: self.h() }
    }

    pub open spec fn add_op(self, dst: DevicePtr, src: DevicePtr) -> Op {
        Op::ResidualAdd { kernel: self.parts.residual_add_k, dst, src, n: self.h() }
    }

    pub open spec fn expand_op(self, hidden: DevicePtr) -> Op {
        Op::HcExpand {
            kernel: self.parts.hc_expand_k,
            hidden,
            streams: self.ctx.buffers.hc_streams,
            num_tokens: 1,
            hidden_size: self.h(),
            hc_mult: self.hc(),
        }
    }

    fn norm(&self, input: DevicePtr, weight: DenseWeight, output: DevicePtr, rows: u32) -> (r: Op)
        ensures
            r == self.norm_op(input, weight, output, rows),
    {
        Op::RmsNorm {
            kernel: self.parts.rms_norm_k,
            input,
            weight,
            output,
            rows,
            cols: self.ctx.config.hidden_size as u32,
            eps: self.ctx.config.rms_norm_eps,
        }
    }

    fn gemv(&self, input: DevicePtr, weight: DenseWeight, output: DevicePtr, n: u32) -> (r: Op)
        ensures
            r == self.gemv_op(input, weight, output, n),
    {
        Op::DenseGemv {
            kernel: self.parts.dense_gemv_k,
            input,
            weight,
            output,
            n,
            k: self.ctx.config.hidden_size as u32,
        }
    }

    fn add_rows(&self, dst: DevicePtr, src: DevicePtr) -> (r: Op)
        ensures
            r == self.add_op(dst, src),
    {
        Op::ResidualAdd { kernel: self.parts.residual_add_k, dst, src, n: self.ctx.config.hidden_size as u32 }
    }

    fn expand(&self, hidden: DevicePtr) -> (r: Op)
        ensures
            r == self.expand_op(hidden),
    {
        Op::HcExpand {
            kernel: self.parts.hc_expand_k,
            hidden,
            streams: self.ctx.buffers.hc_streams,
            num_tokens: 1,
            hidden_size: self.ctx.config.hidden_size as u32,
            hc_mult: self.ctx.config.hc_mult as u32,
        }
    }

    fn vocab_size(&self) -> (r: u32)
        ensures
            r == self.vocab(),
    {
        let all: u32 = self.ctx.config.vocab_size as u32;
        if self.parts.mtp_vocab_size > 0 && self.parts.mtp_vocab_size < all {
            self.parts.mtp_vocab_size
        } else {
            all
        }
    }
}

// ── embedding branch ──
/// The row of the last token's embedding, normed and projected.
pub open spec fn embed_ops(c: DraftCall) -> Seq<Op> {
    seq![
        Op::CopyD2d {
            src: at(c.parts.embed_tokens.weight, c.token * c.row_bytes()),
            dst: c.ctx.buffers.attn_output,
            bytes: c.row_bytes(),
        },
        c.norm_op(c.ctx.buffers.attn_output, c.parts.module.enorm, c.ctx.buffers.moe_output, 1),
        c.gemv_op(c.ctx.buffers.moe_output, c.parts.module.e_proj, c.ctx.buffers.hidden_states, c.h()),
    ]
}

fn build_embed(c: &DraftCall) -> (r: Vec<Op>)
    requires
        c.fits(),
    ensures
        r@ == embed_ops(*c),
{
    let h: u32 = c.ctx.config.hidden_size as u32;
    let row_bytes: usize = h as usize * 2;
    let b = &c.ctx.buffers;
    let r = vec![
        Op::CopyD2d {
            src: c.parts.embed_tokens.weight.row(c.token, row_bytes),
            dst: b.attn_output,
            bytes: row_bytes,
        },
        c.norm(b.attn_output, c.parts.module.enorm, b.moe_output, 1),
        c.gemv(b.moe_output, c.parts.module.e_proj, b.hidden_states, h),
    ];
    assert(r@ =~= embed_ops(*c));
    r
}

// ── combiner ──
/// Combining through a single stream: the target's hidden state, normed and
/// projected, added to the embedding branch, and copied to every stream.
pub open spec fn single_ops(c: DraftCall, expand: bool) -> Seq<Op> {
    let b = c.ctx.buffers;
    let front = seq![
        c.norm_op(c.target_hidden, c.parts.module.hnorm, b.residual, 1),
        c.gemv_op(b.residual, c.parts.module.h_proj, b.norm_output, c.h()),
        c.add_op(b.hidden_states, b.norm_output),
    ];
    if expand {
        front.push(c.expand_op(b.hidden_states))
    } else {
        front
    }
}

fn build_single(c: &DraftCall, expand: bool) -> (r: Vec<Op>)
    ensures
        r@ == single_ops(*c, expand),
{
    let h: u32 = c.ctx.config.hidden_size as u32;
    let b = &c.ctx.buffers;
    let mut r = vec![
        c.norm(c.target_hidden, c.parts.module.hnorm, b.residual, 1),
        c.gemv(b.residual, c.parts.module.h_proj, b.norm_output, h),
        c.add_rows(b.hidden_states, b.norm_output),
    ];
    if expand {
        r.push(c.expand(b.hidden_states));
    }
    assert(r@ =~= single_ops(*c, expand));
    r
}

/// Combining all streams on the device.
pub open spec fn device_combine_ops(c: DraftCall) -> Seq<Op> {
    let b = c.ctx.buffers;
    seq![
        Op::MtpHcF32ToBf16 {
            kernel: c.parts.mtp_hc_f32_to_bf16_k,
            src: b.hc_streams,
            dst: b.residual,
            n: c.hc_elems() as usize as u32,
        },
        c.norm_op(b.residual, c.parts.module.hnorm, b.norm_output, c.hc()),
        Op::MtpHprojGemvBatch4 {
            kernel: c.parts.mtp_hproj_batch4_k,
            normed: b.norm_output,
            weight: c.parts.module.h_proj,
            e_branch: b.hidden_states,
            streams: b.hc_streams,
            hc_mult: c.hc(),
            n: c.h(),
            k: c.h(),
        },
    ]
}

fn build_device_combine(c: &DraftCall) -> (r: Vec<Op>)
    requires
        c.fits(),
    ensures
        r@ == device_combine_ops(*c),
{
    let h: u32 = c.ctx.config.hidden_size as u32;
    let hc: u32 = c.ctx.config.hc_mult as u32;
    let b = &c.ctx.buffers;
    let hc_elems: usize = hc as usize * h as usize;
    let r = vec![
        Op::MtpHcF32ToBf16 {
            kernel: c.parts.mtp_hc_f32_to_bf16_k,
            src: b.hc_streams,
            dst: b.residual,
            n: hc_elems as u32,
        },
        c.norm(b.residual, c.parts.module.hnorm, b.norm_output, hc),
        Op::MtpHprojGemvBatch4 {
            kernel: c.parts.mtp_hproj_batch4_k,
            normed: b.norm_output,
            weight: c.parts.module.h_proj,
            e_branch: b.hidden_states,
            streams: b.hc_streams,
            hc_mult: hc,
            n: h,
            k: h,
        },
    ];
    assert(r@ =~= device_combine_ops(*c));
    r
}

/// One stream combined through the host: the target's row rounded to BF16 and
/// uploaded, normed, projected, added to the embedding branch, and read back.
pub open spec fn row_steps(c: DraftCall, streams: Seq<u8>, row: int, result: Seq<u8>) -> Seq<Event> {
    let b = c.ctx.buffers;
    seq![send_step(narrowed_row(streams, row, c.h() as int), b.residual, c.stream)] + steps(
        row_ops(c),
        c.stream,
    ) + seq![read_step(b.moe_output, c.row_bytes() as int, result)]
}

pub open spec fn row_ops(c: DraftCall) -> Seq<Op> {
    let b = c.ctx.buffers;
    seq![
        c.norm_op(b.residual, c.parts.module.hnorm, b.norm_output, 1),
        c.gemv_op(b.norm_output, c.parts.module.h_proj, b.moe_output, c.h()),
        c.add_op(b.moe_output, b.hidden_states),
        Op::Synchronize,
    ]
}

/// The streams combined one after the other, with the rows read back.
pub open spec fn rows_steps(c: DraftCall, streams: Seq<u8>, rows: Seq<Seq<u8>>) -> Seq<Event>
    decreases rows.len(),
{
    if rows.len() == 0 {
        Seq::empty()
    } else {
        rows_steps(c, streams, rows.drop_last()) + row_steps(c, streams, rows.len() - 1, rows.last())
    }
}

/// The rows widened to singles, one after the other.
pub open spec fn widened_rows(rows: Seq<Seq<u8>>) -> Seq<u8>
    decreases rows.len(),
{
    if rows.len() == 0 {
        Seq::empty()
    } else {
        widened_rows(rows.drop_last()) + widened(rows.last())
    }
}

/// Combining through the host. Streams that hold garbage are not combined: the
/// target's hidden state then stands in for each of them.
pub open spec fn host_combine_steps(c: DraftCall, streams: Seq<u8>, rows: Seq<Seq<u8>>) -> Seq<Event> {
    let b = c.ctx.buffers;
    steps(seq![Op::Synchronize], c.stream) + seq![read_step(b.hc_streams, c.hc_elems() * 4, streams)] + (
    if streams_usable(streams, c.hc_elems()) {
        rows_steps(c, streams, rows) + seq![send_step(widened_rows(rows), b.hc_streams, c.stream)]
    } else {
        steps(single_ops(c, true), c.stream)
    })
}

/// The combiner, as the flags choose it.
pub open spec fn combine_steps(c: DraftCall, streams: Seq<u8>, rows: Seq<Seq<u8>>) -> Seq<Event> {
    if c.flags.single_stream {
        steps(single_ops(c, c.flags.use_mhc), c.stream)
    } else if c.flags.gpu_combiner {
        steps(device_combine_ops(c), c.stream)
    } else {
        host_combine_steps(c, streams, rows)
    }
}

/// Combining more rows goes on from combining fewer.
proof fn lemma_rows_go_on(c: DraftCall, streams: Seq<u8>, a: Seq<Seq<u8>>, b: Seq<Seq<u8>>) -> (rest: Seq<Event>)
    ensures
        rows_steps(c, streams, a + b) == rows_steps(c, streams, a) + rest,
    decreases b.len(),
{
    if b.len() == 0 {
        assert(a + b =~= a);
        assert(rows_steps(c, streams, a) + Seq::<Event>::empty() =~= rows_steps(c, streams, a));
        Seq::empty()
    } else {
        let before = lemma_rows_go_on(c, streams, a, b.drop_last());
        assert((a + b).drop_last() =~= a + b.drop_last());
        let last = row_steps(c, streams, a.len() + b.len() - 1, b.last());
        assert(rows_steps(c, streams, a) + before + last =~= rows_steps(c, streams, a) + (before + last));
        before + last
    }
}

fn build_row(c: &DraftCall) -> (r: Vec<Op>)
    ensures
        r@ == row_ops(*c),
{
    let b = &c.ctx.buffers;
    let r = vec![
        c.norm(b.residual, c.parts.module.hnorm, b.norm_output, 1),
        c.gemv(b.norm_output, c.parts.module.h_proj, b.moe_output, c.ctx.config.hidden_size as u32),
        c.add_rows(b.moe_output, b.hidden_states),
        Op::Synchronize,
    ];
    assert(r@ =~= row_ops(*c));
    r
}

/// Combines one stream through the host and gives back the combined row.
fn combine_row<G: GpuBackend>(gpu: &mut G, c: &DraftCall, streams: &Vec<u8>, row: usize) -> (r: Result<
    Vec<u8>,
    GpuError,
>)
    requires
        c.fits(),
        row < c.hc(),
        streams@.len() == c.hc_elems() * 4,
    ensures
        match r {
            Ok(v) => v@.len() == c.row_bytes() && ran(
                old(gpu).trace(),
                row_steps(*c, streams@, row as int, v@),
                final(gpu).trace(),
                None,
            ),
            Err(e) => forall|data: Seq<u8>|
                ran(
                    old(gpu).trace(),
                    #[trigger] row_steps(*c, streams@, row as int, data),
                    final(gpu).trace(),
                    Some(e),
                ),
        },
{
    let ghost pre = gpu.trace();
    let h: usize = c.ctx.config.hidden_size as u32 as usize;
    let b = &c.ctx.buffers;
    assert((row + 1) * h <= c.hc() * h) by (nonlinear_arith)
        requires
            row < c.hc(),
            h >= 0,
    ;
    let data = narrow_row(streams.as_slice(), row, h);
    let ghost s1 = seq![send_step(data@, b.residual, c.stream)];
    let ghost s2 = steps(row_ops(*c), c.stream);
    if let Err(e) = send(gpu, &data, b.residual, c.stream) {
        proof {
            assert forall|data: Seq<u8>|
                ran(pre, #[trigger] row_steps(*c, streams@, row as int, data), gpu.trace(), Some(e)) by {
                let s3 = seq![read_step(b.moe_output, c.row_bytes() as int, data)];
                lemma_ran_cut(pre, s1, s2 + s3, gpu.trace(), e);
                assert(s1 + (s2 + s3) =~= s1 + s2 + s3);
            }
        }
        return Err(e);
    }
    let ghost t1 = gpu.trace();
    if let Err(e) = run_ops(gpu, &build_row(c), c.stream) {
        proof {
            assert forall|data: Seq<u8>|
                ran(pre, #[trigger] row_steps(*c, streams@, row as int, data), gpu.trace(), Some(e)) by {
                let s3 = seq![read_step(b.moe_output, c.row_bytes() as int, data)];
                lemma_ran_next(pre, s1, t1, s2, s3, gpu.trace(), Some(e));
            }
        }
        return Err(e);
    }
    let ghost t2 = gpu.trace();
    proof {
        lemma_ran_then(pre, s1, t1, s2, t2, None);
    }
    let r = read_back(gpu, b.moe_output, h * 2);
    proof {
        match &r {
            Ok(v) => {
                lemma_ran_then(pre, s1 + s2, t2, seq![read_step(b.moe_output, c.row_bytes() as int, v@)], gpu.trace(), None);
            },
            Err(e0) => {
                let e = *e0;
                assert forall|data: Seq<u8>|
                    ran(pre, #[trigger] row_steps(*c, streams@, row as int, data), gpu.trace(), Some(e)) by {
                    let s3 = seq![read_step(b.moe_output, c.row_bytes() as int, data)];
                    lemma_ran_then(pre, s1 + s2, t2, s3, gpu.trace(), Some(e));
                }
            },
        }
    }
    r
}

/// Combines every stream through the host and uploads the result.
fn combine_rows<G: GpuBackend>(gpu: &mut G, c: &DraftCall, streams: &Vec<u8>) -> (r: Result<(), GpuError>)
    requires
        c.fits(),
        streams@.len() == c.hc_elems() * 4,
    ensures
        exists|rows: Seq<Seq<u8>>|
            rows.len() == c.hc() && ran(
                old(gpu).trace(),
                #[trigger] rows_steps(*c, streams@, rows) + seq![
                    send_step(widened_rows(rows), c.ctx.buffers.hc_streams, c.stream),
                ],
                final(gpu).trace(),
                refusal(r),
            ),
{
    let ghost pre = gpu.trace();
    let n: usize = c.ctx.config.hc_mult as u32 as usize;
    let mut out: Vec<u8> = Vec::new();
    let ghost mut rows: Seq<Seq<u8>> = Seq::empty();
    let mut i: usize = 0;
    proof {
        assert(out@ =~= widened_rows(rows));
        assert(pre =~= pre + rows_steps(*c, streams@, rows));
    }
    while i < n
        invariant
            i <= n,
            n == c.hc(),
            c.fits(),
            streams@.len() == c.hc_elems() * 4,
            pre == old(gpu).trace(),
            rows.len() == i,
            out@ == widened_rows(rows),
            ran(pre, rows_steps(*c, streams@, rows), gpu.trace(), None),
        decreases n - i,
    {
        let ghost mid = gpu.trace();
        match combine_row(gpu, c, streams, i) {
            Ok(row) => {
                push_widened(&mut out, row.as_slice());
                proof {
                    let before = rows;
                    rows = rows.push(row@);
                    assert(rows.drop_last() =~= before);
                    lemma_ran_then(pre, rows_steps(*c, streams@, before), mid, row_steps(*c, streams@, i as int, row@), gpu.trace(), None);
                }
                i += 1;
            },
            Err(e) => {
                proof {
                    let upto = rows.push(Seq::empty());
                    assert(upto.drop_last() =~= rows);
                    let pad = Seq::new((n - i - 1) as nat, |j: int| Seq::<u8>::empty());
                    let rest = lemma_rows_go_on(*c, streams@, upto, pad);
                    let all = upto + pad;
                    let up = seq![send_step(widened_rows(all), c.ctx.buffers.hc_streams, c.stream)];
                    let this = row_steps(*c, streams@, i as int, Seq::empty());
                    lemma_ran_next(pre, rows_steps(*c, streams@, rows), mid, this, rest + up, gpu.trace(), Some(e));
                    assert(rows_steps(*c, streams@, rows) + this + (rest + up) =~= rows_steps(*c, streams@, all) + up);
                }
                return Err(e);
            },
        }
    }
    let ghost mid = gpu.trace();
    let r = send(gpu, &out, c.ctx.buffers.hc_streams, c.stream);
    proof {
        lemma_ran_then(
            pre,
            rows_steps(*c, streams@, rows),
            mid,
            seq![send_step(widened_rows(rows), c.ctx.buffers.hc_streams, c.stream)],
            gpu.trace(),
            refusal(r),
        );
    }
    r
}

/// Combines through the host.
fn host_combine<G: GpuBackend>(gpu: &mut G, c: &DraftCall) -> (r: Result<(), GpuError>)
    requires
        c.fits(),
    ensures
        exists|streams: Seq<u8>, rows: Seq<Seq<u8>>|
            rows.len() == c.hc() && ran(
                old(gpu).trace(),
                #[trigger] host_combine_steps(*c, streams, rows),
                final(gpu).trace(),
                refusal(r),
            ),
{
    let ghost pre = gpu.trace();
    let ghost s1 = steps(seq![Op::Synchronize], c.stream);
    let ghost no_rows = Seq::new(c.hc() as nat, |j: int| Seq::<u8>::empty());
    let ghost empty = Seq::<u8>::empty();
    let elems: usize = (c.ctx.config.hc_mult as u32 as usize) * (c.ctx.config.hidden_size as u32 as usize);
    let sync = vec![Op::Synchronize];
    assert(sync@ =~= seq![Op::Synchronize]);
    if let Err(e) = run_ops(gpu, &sync, c.stream) {
        proof {
            let all = host_combine_steps(*c, empty, no_rows);
            let rest = all.skip(s1.len() as int);
            assert(all =~= s1 + rest);
            lemma_ran_cut(pre, s1, rest, gpu.trace(), e);
        }
        return Err(e);
    }
    let ghost t1 = gpu.trace();
    let read = read_back(gpu, c.ctx.buffers.hc_streams, elems * 4);
    let streams = match read {
        Ok(v) => v,
        Err(e) => {
            proof {
                let s2 = seq![read_step(c.ctx.buffers.hc_streams, c.hc_elems() * 4, empty)];
                let all = host_combine_steps(*c, empty, no_rows);
                let rest = all.skip((s1 + s2).len() as int);
                assert(all =~= s1 + s2 + rest);
                lemma_ran_next(pre, s1, t1, s2, rest, gpu.trace(), Some(e));
            }
            return Err(e);
        },
    };
    let ghost s2 = seq![read_step(c.ctx.buffers.hc_streams, c.hc_elems() * 4, streams@)];
    let ghost t2 = gpu.trace();
    proof {
        lemma_ran_then(pre, s1, t1, s2, t2, None);
    }
    if check_usable(streams.as_slice(), elems) {
        let r = combine_rows(gpu, c, &streams);
        proof {
            let rows = choose|rows: Seq<Seq<u8>>|
                rows.len() == c.hc() && ran(
                    t2,
                    #[trigger] rows_steps(*c, streams@, rows) + seq![
                        send_step(widened_rows(rows), c.ctx.buffers.hc_streams, c.stream),
                    ],
                    gpu.trace(),
                    refusal(r),
                );
            let s3 = rows_steps(*c, streams@, rows) + seq![send_step(widened_rows(rows), c.ctx.buffers.hc_streams, c.stream)];
            lemma_ran_then(pre, s1 + s2, t2, s3, gpu.trace(), refusal(r));
            assert(host_combine_steps(*c, streams@, rows) == s1 + s2 + s3);
        }
        r
    } else {
        let r = run_ops(gpu, &build_single(c, true), c.stream);
        proof {
            let s3 = steps(single_ops(*c, true), c.stream);
            lemma_ran_then(pre, s1 + s2, t2, s3, gpu.trace(), refusal(r));
            assert(host_combine_steps(*c, streams@, no_rows) == s1 + s2 + s3);
        }
        r
    }
}

/// Runs the combiner that the flags choose.
fn combine<G: GpuBackend>(gpu: &mut G, c: &DraftCall) -> (r: Result<(), GpuError>)
    requires
        c.fits(),
    ensures
        exists|streams: Seq<u8>, rows: Seq<Seq<u8>>|
            rows.len() == c.hc() && ran(
                old(gpu).trace(),
                #[trigger] combine_steps(*c, streams, rows),
                final(gpu).trace(),
                refusal(r),
            ),
{
    let ghost pre = gpu.trace();
    let ghost no_rows = Seq::new(c.hc() as nat, |j: int| Seq::<u8>::empty());
    if c.flags.single_stream {
        let r = run_ops(gpu, &build_single(c, c.flags.use_mhc), c.stream);
        assert(ran(pre, combine_steps(*c, Seq::empty(), no_rows), gpu.trace(), refusal(r)));
        r
    } else if c.flags.gpu_combiner {
        let r = run_ops(gpu, &build_device_combine(c), c.stream);
        assert(ran(pre, combine_steps(*c, Seq::empty(), no_rows), gpu.trace(), refusal(r)));
        r
    } else {
        let r = host_combine(gpu, c);
        proof {
            let (streams, rows) = choose|streams: Seq<u8>, rows: Seq<Seq<u8>>|
                rows.len() == c.hc() && ran(pre, #[trigger] host_combine_steps(*c, streams, rows), gpu.trace(), refusal(r));
            assert(ran(pre, combine_steps(*c, streams, rows), gpu.trace(), refusal(r)));
        }
        r
    }
}

// ── attention metadata ──
/// Where in scratch `meta_bytes` of metadata go: at the head's usual place, or,
/// where that would overrun, at the very end, clear of the low bytes.
pub open spec fn meta_place(meta_bytes: int, scratch_bytes: int) -> Option<int> {
    if MTP_META_OFFSET + meta_bytes <= scratch_bytes {
        Some(MTP_META_OFFSET as int)
    } else if meta_bytes + LOW_SCRATCH <= scratch_bytes {
        Some(scratch_bytes - meta_bytes)
    } else {
        None
    }
}

pub fn place_metadata(meta_bytes: usize, scratch_bytes: usize) -> (r: Option<usize>)
    requires
        MTP_META_OFFSET + meta_bytes <= usize::MAX,
    ensures
        match r {
            Some(off) => meta_place(meta_bytes as int, scratch_bytes as int) == Some(off as int),
            None => meta_place(meta_bytes as int, scratch_bytes as int) is None,
        },
{
    if MTP_META_OFFSET + meta_bytes <= scratch_bytes {
        Some(MTP_META_OFFSET)
    } else if meta_bytes + LOW_SCRATCH <= scratch_bytes {
        Some(scratch_bytes - meta_bytes)
    } else {
        None
    }
}

/// Metadata that is placed lies wholly inside scratch and clear of its low bytes.
pub proof fn metadata_stays_inside(meta_bytes: nat, scratch_bytes: nat)
    ensures
        meta_place(meta_bytes as int, scratch_bytes as int) matches Some(off) ==> LOW_SCRATCH <= off && off
            + meta_bytes <= scratch_bytes,
        meta_place(meta_bytes as int, scratch_bytes as int) is None <==> meta_bytes + LOW_SCRATCH > scratch_bytes,
{
}

/// The cache slot of row `row`.
pub open spec fn row_slot(table: Seq<u32>, row: int) -> u64 {
    (table[row / MTP_BLOCK_SIZE as int] * MTP_BLOCK_SIZE + row % MTP_BLOCK_SIZE as int) as u64
}

pub fn slot_of(table: &Vec<u32>, row: usize) -> (r: u64)
    requires
        row / MTP_BLOCK_SIZE < table@.len(),
    ensures
        r == row_slot(table@, row as int),
{
    table[row / MTP_BLOCK_SIZE] as u64 * MTP_BLOCK_SIZE as u64 + (row % MTP_BLOCK_SIZE) as u64
}

/// The metadata of one draft row: position at 0, slot at 8, length at 16, block
/// table at 256.
pub open spec fn draft_meta(position: usize, table: Seq<u32>, seq_len: int) -> Seq<u8> {
    le32(position as u32) + zeros(4) + le64(row_slot(table, seq_len)) + le32((seq_len + 1) as usize as u32) + zeros(
        236,
    ) + le32_all(table)
}

fn build_meta(position: usize, table: &Vec<u32>, seq_len: usize) -> (r: Vec<u8>)
    requires
        seq_len < usize::MAX,
        seq_len / MTP_BLOCK_SIZE < table@.len(),
    ensures
        r@ == draft_meta(position, table@, seq_len as int),
        r@.len() == 256 + 4 * table@.len(),
{
    let mut m: Vec<u8> = Vec::new();
    push_le32(&mut m, position as u32);
    push_zeros(&mut m, 4);
    push_le64(&mut m, slot_of(table, seq_len));
    push_le32(&mut m, (seq_len + 1) as u32);
    push_zeros(&mut m, 236);
    push_le32_all(&mut m, table.as_slice());
    assert(m@ =~= draft_meta(position, table@, seq_len as int));
    m
}

/// The metadata handed to the body.
pub open spec fn draft_meta_dev(base: DevicePtr, blocks: int) -> AttnMetadataDev {
    AttnMetadataDev {
        positions: base,
        positions_h: base,
        positions_w: base,
        slot: at(base, 8),
        seq_len: at(base, 16),
        block_table: at(base, 256),
        max_blocks_per_seq: blocks as usize as u32,
        num_seqs: 1,
        seq_slot: DevicePtr(0),
    }
}

/// The context handed to the body: the caller's, with the head's own metadata,
/// no communicator and no graph capture.
pub open spec fn body_ctx(ctx: ForwardContext, meta: AttnMetadataDev, token_ids: Option<DevicePtr>) -> ForwardContext {
    ForwardContext {
        buffers: ctx.buffers,
        config: ctx.config,
        attn_metadata: Some(meta),
        comm: false,
        graph_capture: false,
        profile: ctx.profile,
        token_ids,
    }
}

pub fn make_body_ctx(ctx: &ForwardContext, meta: AttnMetadataDev, token_ids: Option<DevicePtr>) -> (r: ForwardContext)
    ensures
        r == body_ctx(*ctx, meta, token_ids),
{
    ForwardContext {
        buffers: ctx.buffers,
        config: ctx.config,
        attn_metadata: Some(meta),
        comm: false,
        graph_capture: false,
        profile: ctx.profile,
        token_ids,
    }
}

/// Where the body works: the state that the sequence has there, and the head's
/// cache.
#[derive(Clone, Copy, PartialEq, Eq, Structural, Debug)]
pub struct BodyPlace {
    pub state: LayerState,
    pub cache: CacheId,
}

/// The tables handed to the body: the head's blocks, none of them in the swap
/// store.
pub open spec fn body_tables(ctx: ForwardContext, table: Seq<u32>) -> Tables {
    tables(table, Seq::empty(), Seq::new((ctx.config.num_hidden_layers + 1) as nat, |i: int| 0u32))
}

/// The decode of the body.
pub open spec fn body_call(c: DraftCall, place: BodyPlace, base: DevicePtr, blocks: int, seq_len: usize) -> LayerCall {
    LayerCall {
        kind: LayerKind::DraftBody,
        index: 0,
        state: place.state,
        cache: place.cache,
        work: LayerWork::Decode { hidden: c.ctx.buffers.hidden_states, residual: c.ctx.buffers.residual, seq_len },
        ctx: body_ctx(c.ctx, draft_meta_dev(base, blocks), c.ctx.token_ids),
    }
}

/// The body over the new row, and the wait for it.
pub open spec fn body_steps(
    c: DraftCall,
    place: BodyPlace,
    table: Seq<u32>,
    seq_len: usize,
    base: DevicePtr,
    gone: Left,
) -> Seq<Event> {
    seq![
        layer_step(
            body_call(c, place, base, table.len() as int, seq_len),
            body_tables(c.ctx, table),
            c.stream,
            gone,
        ),
    ] + steps(seq![Op::Synchronize], c.stream)
}

/// Runs a layer call of the body with tables of its own for the swap store, and
/// waits for it.
pub(crate) fn run_body<G: GpuBackend>(gpu: &mut G, call: &LayerCall, table: &Vec<u32>, ctx: &ForwardContext, stream: u64) -> (r: Result<
    (),
    GpuError,
>)
    requires
        ctx.config.num_hidden_layers < usize::MAX,
    ensures
        exists|gone: Left|
            ran(
                old(gpu).trace(),
                seq![#[trigger] layer_step(*call, body_tables(*ctx, table@), stream, gone)] + steps(
                    seq![Op::Synchronize],
                    stream,
                ),
                final(gpu).trace(),
                refusal(r),
            ),
{
    let ghost pre = gpu.trace();
    let n: usize = ctx.config.num_hidden_layers + 1;
    let mut ids: Vec<u32> = Vec::new();
    let mut cursors: Vec<u32> = Vec::new();
    let mut i: usize = 0;
    while i < n
        invariant
            i <= n,
            cursors@ == Seq::new(i as nat, |j: int| 0u32),
        decreases n - i,
    {
        cursors.push(0);
        i += 1;
        assert(cursors@ =~= Seq::new(i as nat, |j: int| 0u32));
    }
    assert(tables(table@, ids@, cursors@) =~= body_tables(*ctx, table@));
    let first = run_one_layer(gpu, call, table, &mut ids, &mut cursors, stream);
    let ghost gone = left(ids@, cursors@);
    let ghost s1 = seq![layer_step(*call, body_tables(*ctx, table@), stream, gone)];
    if let Err(e) = first {
        proof {
            lemma_ran_cut(pre, s1, steps(seq![Op::Synchronize], stream), gpu.trace(), e);
        }
        return Err(e);
    }
    let ops = vec![Op::Synchronize];
    assert(ops@ =~= seq![Op::Synchronize]);
    go_ops(gpu, &ops, stream, Ghost(pre), Ghost(s1))
}

fn make_body_call(c: &DraftCall, place: &BodyPlace, base: DevicePtr, blocks: usize, seq_len: usize) -> (r: LayerCall)
    ensures
        r == body_call(*c, *place, base, blocks as int, seq_len),
{
    let meta = AttnMetadataDev {
        positions: base,
        positions_h: base,
        positions_w: base,
        slot: base.offset(8),
        seq_len: base.offset(16),
        block_table: base.offset(256),
        max_blocks_per_seq: blocks as u32,
        num_seqs: 1,
        seq_slot: DevicePtr(0),
    };
    LayerCall {
        kind: LayerKind::DraftBody,
        index: 0,
        state: place.state,
        cache: place.cache,
        work: LayerWork::Decode { hidden: c.ctx.buffers.hidden_states, residual: c.ctx.buffers.residual, seq_len },
        ctx: make_body_ctx(&c.ctx, meta, c.ctx.token_ids),
    }
}

// ── dumps ──
/// The values of this many drafts are dumped, where dumps are asked for.
pub const DUMPED_DRAFTS: usize = 6;

impl DraftCall {
    /// The dump of one row, where it is asked for.
    pub open spec fn row_dump(self, on: bool, at: Boundary, src: DevicePtr) -> Seq<Op> {
        dump_if(on, at, 0, src, 1, self.h() as int, false)
    }

    /// The dump of the streams, where it is asked for.
    pub open spec fn streams_dump(self, on: bool, at: Boundary) -> Seq<Op> {
        dump_if(on, at, 0, self.ctx.buffers.hc_streams, self.hc() as int, self.h() as int, true)
    }

    fn push_row_dump(&self, ops: &mut Vec<Op>, on: bool, at: Boundary, src: DevicePtr)
        ensures
            final(ops)@ == old(ops)@ + self.row_dump(on, at, src),
            all_fit(old(ops)@) ==> all_fit(final(ops)@),
    {
        push_dump(ops, on, at, 0, src, 1, self.ctx.config.hidden_size as u32, false);
    }

    fn push_streams_dump(&self, ops: &mut Vec<Op>, on: bool, at: Boundary)
        ensures
            final(ops)@ == old(ops)@ + self.streams_dump(on, at),
            all_fit(old(ops)@) ==> all_fit(final(ops)@),
    {
        let hc: u32 = self.ctx.config.hc_mult as u32;
        push_dump(ops, on, at, 0, self.ctx.buffers.hc_streams, hc, self.ctx.config.hidden_size as u32, true);
    }
}

/// What is dumped ahead of the body.
pub open spec fn lead_dumps(c: DraftCall, on: bool) -> Seq<Op> {
    let b = c.ctx.buffers;
    c.row_dump(on, Boundary::DraftTarget, c.target_hidden) + c.row_dump(on, Boundary::DraftEmbed, b.attn_output)
        + c.row_dump(on, Boundary::DraftEmbedBranch, b.hidden_states) + c.streams_dump(on, Boundary::DraftStreams)
}

/// What is dumped behind the body.
pub open spec fn body_dumps(c: DraftCall, on: bool) -> Seq<Op> {
    let b = c.ctx.buffers;
    c.streams_dump(on, Boundary::DraftBodyStreams) + c.row_dump(on, Boundary::DraftBodyRow, b.hidden_states)
        + c.row_dump(on, Boundary::DraftBodyResidual, b.residual)
}

fn build_lead_dumps(c: &DraftCall, on: bool) -> (r: Vec<Op>)
    ensures
        r@ == lead_dumps(*c, on),
        all_fit(r@),
{
    let b = &c.ctx.buffers;
    let mut r: Vec<Op> = Vec::new();
    c.push_row_dump(&mut r, on, Boundary::DraftTarget, c.target_hidden);
    c.push_row_dump(&mut r, on, Boundary::DraftEmbed, b.attn_output);
    c.push_row_dump(&mut r, on, Boundary::DraftEmbedBranch, b.hidden_states);
    c.push_streams_dump(&mut r, on, Boundary::DraftStreams);
    assert(r@ =~= lead_dumps(*c, on));
    r
}

fn build_body_dumps(c: &DraftCall, on: bool) -> (r: Vec<Op>)
    ensures
        r@ == body_dumps(*c, on),
        all_fit(r@),
{
    let b = &c.ctx.buffers;
    let mut r: Vec<Op> = Vec::new();
    c.push_streams_dump(&mut r, on, Boundary::DraftBodyStreams);
    c.push_row_dump(&mut r, on, Boundary::DraftBodyRow, b.hidden_states);
    c.push_row_dump(&mut r, on, Boundary::DraftBodyResidual, b.residual);
    assert(r@ =~= body_dumps(*c, on));
    r
}

// ── after the body ──
pub open spec fn checks_streams(c: DraftCall) -> bool {
    c.flags.use_mhc && c.flags.hc_recover
}

/// The streams after the body were found corrupt and rebuilt.
pub open spec fn recovered(c: DraftCall, after: Seq<u8>) -> bool {
    checks_streams(c) && streams_corrupt(after, c.hc_elems())
}

/// Rebuilding the streams from the body's output.
pub open spec fn rebuild_ops(c: DraftCall, on: bool) -> Seq<Op> {
    seq![c.expand_op(c.ctx.buffers.hidden_states)] + c.streams_dump(on, Boundary::DraftRecovered)
}

#[verifier::opaque]
pub open spec fn recover_steps(c: DraftCall, on: bool, after: Seq<u8>) -> Seq<Event> {
    if !checks_streams(c) {
        Seq::empty()
    } else {
        steps(seq![Op::Synchronize], c.stream) + seq![
            read_step(c.ctx.buffers.hc_streams, c.hc_elems() * 4, after),
        ] + (if streams_corrupt(after, c.hc_elems()) {
            steps(rebuild_ops(c, on), c.stream)
        } else {
            Seq::empty()
        })
    }
}

/// The collapse to one hidden row. Without streams, with the collapse switched
/// off, or with rebuilt streams that are not to be collapsed, the body's own
/// output stands.
pub open spec fn collapse_op(c: DraftCall, recovered: bool) -> Op {
    let b = c.ctx.buffers;
    if c.flags.skip_hc_head || !c.flags.use_mhc || (recovered && !c.flags.hc_head_after_recover) {
        Op::CopyD2d { src: b.hidden_states, dst: b.hidden_states, bytes: c.row_bytes() }
    } else {
        match c.parts.module.hc_head {
            Some(head) => Op::HcHead {
                kernel: c.parts.hc_head_k,
                streams: b.hc_streams,
                head_fn: head.hc_fn,
                head_scale: head.hc_scale,
                head_base: head.hc_base,
                y_out: b.hidden_states,
                num_tokens: 1,
                hidden_size: c.h(),
                hc_mult: c.hc(),
                norm_eps: c.ctx.config.rms_norm_eps,
                hc_eps: c.ctx.config.hc_eps,
            },
            None => Op::CopyD2d { src: b.hc_streams, dst: b.hidden_states, bytes: c.row_bytes() },
        }
    }
}

fn build_collapse(c: &DraftCall, recovered: bool) -> (r: Op)
    requires
        c.fits(),
    ensures
        r == collapse_op(*c, recovered),
{
    let b = &c.ctx.buffers;
    let row_bytes: usize = c.ctx.config.hidden_size as u32 as usize * 2;
    if c.flags.skip_hc_head || !c.flags.use_mhc || (recovered && !c.flags.hc_head_after_recover) {
        Op::CopyD2d { src: b.hidden_states, dst: b.hidden_states, bytes: row_bytes }
    } else {
        match c.parts.module.hc_head {
            Some(head) => Op::HcHead {
                kernel: c.parts.hc_head_k,
                streams: b.hc_streams,
                head_fn: head.hc_fn,
                head_scale: head.hc_scale,
                head_base: head.hc_base,
                y_out: b.hidden_states,
                num_tokens: 1,
                hidden_size: c.ctx.config.hidden_size as u32,
                hc_mult: c.ctx.config.hc_mult as u32,
                norm_eps: c.ctx.config.rms_norm_eps,
                hc_eps: c.ctx.config.hc_eps,
            },
            None => Op::CopyD2d { src: b.hc_streams, dst: b.hidden_states, bytes: row_bytes },
        }
    }
}

/// The logits of a hidden row.
pub open spec fn head_ops(c: DraftCall, hidden: DevicePtr) -> Seq<Op> {
    let b = c.ctx.buffers;
    seq![
        c.norm_op(hidden, c.parts.module.norm, b.norm_output, 1),
        c.gemv_op(b.norm_output, c.parts.lm_head, b.logits, c.vocab()),
    ]
}

/// Reading the draft off the logits: by the device's arg-max, left at byte 64 of
/// scratch, or from the logits themselves where a grammar mask applies.
pub open spec fn pick_steps(c: DraftCall, masked: bool, pick: Seq<u8>) -> Seq<Event> {
    let b = c.ctx.buffers;
    if masked {
        seq![read_step(b.logits, c.vocab() * 2, pick)]
    } else {
        steps(seq![argmax_op(c)], c.stream) + seq![read_step(at(b.scratch, 64), 4, pick)]
    }
}

pub open spec fn argmax_op(c: DraftCall) -> Op {
    Op::ArgmaxBf16 {
        kernel: c.parts.argmax_k,
        logits: c.ctx.buffers.logits,
        out: at(c.ctx.buffers.scratch, 64),
        n: c.vocab(),
    }
}

/// `token` is the draft that the read stands for.
pub open spec fn picked(c: DraftCall, mask: Option<Seq<i32>>, pick: Seq<u8>, token: u32) -> bool {
    match mask {
        Some(m) => is_masked_argmax(pick, c.vocab() as int, m, token as int),
        None => token == u32_at(pick, 0),
    }
}

/// Reads BF16 logits back and picks the largest that the mask allows.
pub fn argmax_grammar_masked<G: GpuBackend>(gpu: &mut G, logits: DevicePtr, vocab: usize, bitmask: &[i32]) -> (r: Result<
    u32,
    GpuError,
>)
    requires
        vocab * 2 <= usize::MAX,
        vocab <= u32::MAX,
    ensures
        match r {
            Ok(tok) => exists|data: Seq<u8>|
                ran(old(gpu).trace(), seq![#[trigger] read_step(logits, vocab * 2, data)], final(gpu).trace(), None)
                    && is_masked_argmax(data, vocab as int, bitmask@, tok as int),
            Err(e) => forall|data: Seq<u8>|
                ran(old(gpu).trace(), seq![#[trigger] read_step(logits, vocab * 2, data)], final(gpu).trace(), Some(e)),
        },
{
    let ghost pre = gpu.trace();
    let data = match read_back(gpu, logits, vocab * 2) {
        Ok(v) => v,
        Err(e) => {
            return Err(e);
        },
    };
    let tok: u32 = masked_argmax(data.as_slice(), vocab, bitmask);
    assert(ran(pre, seq![read_step(logits, vocab * 2, data@)], gpu.trace(), None));
    Ok(tok)
}

/// Picks the draft.
fn pick_draft<G: GpuBackend>(gpu: &mut G, c: &DraftCall, mask: Option<&[i32]>) -> (r: Result<u32, GpuError>)
    requires
        c.fits(),
    ensures
        match r {
            Ok(tok) => exists|pick: Seq<u8>|
                ran(old(gpu).trace(), #[trigger] pick_steps(*c, mask is Some, pick), final(gpu).trace(), None)
                    && picked(*c, mask_view(mask), pick, tok),
            Err(e) => forall|pick: Seq<u8>|
                ran(old(gpu).trace(), #[trigger] pick_steps(*c, mask is Some, pick), final(gpu).trace(), Some(e)),
        },
{
    let ghost pre = gpu.trace();
    let v: u32 = c.vocab_size();
    match mask {
        Some(m) => {
            let r = argmax_grammar_masked(gpu, c.ctx.buffers.logits, v as usize, m);
            proof {
                match r {
                    Ok(tok) => {
                        let data = choose|data: Seq<u8>|
                            ran(pre, seq![#[trigger] read_step(c.ctx.buffers.logits, v * 2, data)], gpu.trace(), None)
                                && is_masked_argmax(data, v as int, m@, tok as int);
                        assert(ran(pre, pick_steps(*c, true, data), gpu.trace(), None));
                        assert(picked(*c, mask_view(mask), data, tok));
                    },
                    Err(e) => {
                        assert forall|pick: Seq<u8>|
                            ran(pre, #[trigger] pick_steps(*c, true, pick), gpu.trace(), Some(e)) by {
                            assert(pick_steps(*c, true, pick) == seq![read_step(c.ctx.buffers.logits, v * 2, pick)]);
                        }
                    },
                }
            }
            r
        },
        None => {
            let out = c.ctx.buffers.scratch.offset(64);
            let ops = vec![Op::ArgmaxBf16 { kernel: c.parts.argmax_k, logits: c.ctx.buffers.logits, out, n: v }];
            assert(ops@ =~= seq![argmax_op(*c)]);
            let ghost s1 = steps(seq![argmax_op(*c)], c.stream);
            if let Err(e) = run_ops(gpu, &ops, c.stream) {
                proof {
                    assert forall|pick: Seq<u8>|
                        ran(pre, #[trigger] pick_steps(*c, false, pick), gpu.trace(), Some(e)) by {
                        lemma_ran_cut(pre, s1, seq![read_step(out, 4, pick)], gpu.trace(), e);
                    }
                }
                return Err(e);
            }
            let ghost mid = gpu.trace();
            match read_back(gpu, out, 4) {
                Ok(v) => {
                    proof {
                        lemma_ran_then(pre, s1, mid, seq![read_step(out, 4, v@)], gpu.trace(), None);
                        assert(ran(pre, pick_steps(*c, false, v@), gpu.trace(), None));
                    }
                    Ok(u32_from(v.as_slice(), 0))
                },
                Err(e) => {
                    proof {
                        assert forall|pick: Seq<u8>|
                            ran(pre, #[trigger] pick_steps(*c, false, pick), gpu.trace(), Some(e)) by {
                            lemma_ran_then(pre, s1, mid, seq![read_step(out, 4, pick)], gpu.trace(), Some(e));
                        }
                    }
                    Err(e)
                },
            }
        },
    }
}

pub open spec fn mask_view(mask: Option<&[i32]>) -> Option<Seq<i32>> {
    match mask {
        Some(m) => Some(m@),
        None => None,
    }
}

/// Checks the streams after the body where the flags ask for it, and rebuilds
/// corrupt ones from the body's output. Says whether it did.
fn recover<G: GpuBackend>(gpu: &mut G, c: &DraftCall, on: bool) -> (r: Result<bool, GpuError>)
    requires
        c.fits(),
    ensures
        exists|after: Seq<u8>|
            {
                &&& ran(old(gpu).trace(), #[trigger] recover_steps(*c, on, after), final(gpu).trace(), refusal(r))
                &&& r matches Ok(done) ==> done == recovered(*c, after)
            },
{
    reveal(recover_steps);
    let ghost pre = gpu.trace();
    if !(c.flags.use_mhc && c.flags.hc_recover) {
        assert(ran(pre, recover_steps(*c, on, Seq::empty()), gpu.trace(), None));
        return Ok(false);
    }
    let ghost s1 = steps(seq![Op::Synchronize], c.stream);
    let ghost empty = Seq::<u8>::empty();
    let elems: usize = (c.ctx.config.hc_mult as u32 as usize) * (c.ctx.config.hidden_size as u32 as usize);
    let sync = vec![Op::Synchronize];
    assert(sync@ =~= seq![Op::Synchronize]);
    if let Err(e) = run_ops(gpu, &sync, c.stream) {
        proof {
            let all = recover_steps(*c, on, empty);
            let rest = all.skip(s1.len() as int);
            assert(all =~= s1 + rest);
            lemma_ran_cut(pre, s1, rest, gpu.trace(), e);
        }
        return Err(e);
    }
    let ghost t1 = gpu.trace();
    let after = match read_back(gpu, c.ctx.buffers.hc_streams, elems * 4) {
        Ok(v) => v,
        Err(e) => {
            proof {
                let s2 = seq![read_step(c.ctx.buffers.hc_streams, c.hc_elems() * 4, empty)];
                let all = recover_steps(*c, on, empty);
                let rest = all.skip((s1 + s2).len() as int);
                assert(all =~= s1 + s2 + rest);
                lemma_ran_next(pre, s1, t1, s2, rest, gpu.trace(), Some(e));
            }
            return Err(e);
        },
    };
    let ghost s2 = seq![read_step(c.ctx.buffers.hc_streams, c.hc_elems() * 4, after@)];
    let ghost t2 = gpu.trace();
    proof {
        lemma_ran_then(pre, s1, t1, s2, t2, None);
    }
    if check_corrupt(after.as_slice(), elems) {
        let mut ops = vec![c.expand(c.ctx.buffers.hidden_states)];
        c.push_streams_dump(&mut ops, on, Boundary::DraftRecovered);
        assert(ops@ =~= rebuild_ops(*c, on));
        let r = run_ops(gpu, &ops, c.stream);
        proof {
            let s3 = steps(rebuild_ops(*c, on), c.stream);
            lemma_ran_then(pre, s1 + s2, t2, s3, gpu.trace(), refusal(r));
            assert(recover_steps(*c, on, after@) == s1 + s2 + s3);
        }
        match r {
            Ok(_) => Ok(true),
            Err(e) => Err(e),
        }
    } else {
        assert(recover_steps(*c, on, after@) =~= s1 + s2);
        Ok(false)
    }
}

// ── the whole step ──
/// The device combiner cannot take this many streams.
pub open spec fn too_many_streams(c: DraftCall) -> bool {
    !c.flags.single_stream && c.flags.gpu_combiner && c.hc() > 4
}

/// Embedding branch and combiner.
#[verifier::opaque]
pub open spec fn front_steps(c: DraftCall, d: DraftReads) -> Seq<Event> {
    if too_many_streams(c) {
        steps(embed_ops(c), c.stream)
    } else {
        steps(embed_ops(c), c.stream) + combine_steps(c, d.streams, d.rows)
    }
}

/// The front of a step, and the dumps ahead of the body.
pub open spec fn front_part(c: DraftCall, on: bool, d: DraftReads) -> Seq<Event> {
    front_steps(c, d) + steps(lead_dumps(c, on), c.stream)
}

/// The uploads that precede the body: its metadata, and the token where the
/// context names a place for it.
pub open spec fn upload_steps(c: DraftCall, table: Seq<u32>, seq_len: int, base: DevicePtr) -> Seq<Event> {
    seq![send_step(draft_meta(c.position, table, seq_len), base, c.stream)] + (match c.ctx.token_ids {
        Some(ids) => seq![send_step(le32(c.token), ids, c.stream)],
        None => Seq::empty(),
    })
}

/// Collapse and language-model head.
#[verifier::opaque]
pub open spec fn tail_ops(c: DraftCall, on: bool, recovered: bool) -> Seq<Op> {
    seq![collapse_op(c, recovered)] + c.row_dump(on, Boundary::DraftCollapsed, c.ctx.buffers.hidden_states) + head_ops(c, c.ctx.buffers.hidden_states)
}

/// Body, collapse, head and pick, over a block table that covers the new row.
#[verifier::opaque]
pub open spec fn back_steps(
    c: DraftCall,
    masked: bool,
    on: bool,
    place: BodyPlace,
    table: Seq<u32>,
    seq_len: usize,
    base: DevicePtr,
    gone: Left,
    after: Seq<u8>,
    pick: Seq<u8>,
) -> Seq<Event> {
    upload_steps(c, table, seq_len as int, base) + body_part(c, on, place, table, seq_len, base, gone) + rear_steps(
        c,
        masked,
        on,
        after,
        pick,
    )
}

/// What follows the body: recovery, collapse, head and pick.
#[verifier::opaque]
pub open spec fn rear_steps(c: DraftCall, masked: bool, on: bool, after: Seq<u8>, pick: Seq<u8>) -> Seq<Event> {
    recover_steps(c, on, after) + steps(tail_ops(c, on, recovered(c, after)), c.stream) + pick_steps(c, masked, pick)
}

/// The body and its dumps.
#[verifier::opaque]
pub open spec fn body_part(
    c: DraftCall,
    on: bool,
    place: BodyPlace,
    table: Seq<u32>,
    seq_len: usize,
    base: DevicePtr,
    gone: Left,
) -> Seq<Event> {
    body_steps(c, place, table, seq_len, base, gone) + steps(body_dumps(c, on), c.stream)
}

/// The program of a draft step.
pub open spec fn draft_steps(
    c: DraftCall,
    masked: bool,
    on: bool,
    place: BodyPlace,
    table: Seq<u32>,
    seq_len: usize,
    base: DevicePtr,
    d: DraftReads,
) -> Seq<Event> {
    front_part(c, on, d) + back_steps(c, masked, on, place, table, seq_len, base, d.gone, d.after, d.pick)
}

/// The program of a step that only echoes the target.
#[verifier::opaque]
pub open spec fn echo_steps(c: DraftCall, pick: Seq<u8>) -> Seq<Event> {
    steps(head_ops(c, c.target_hidden), c.stream) + pick_steps(c, false, pick)
}

fn build_head(c: &DraftCall, hidden: DevicePtr) -> (r: Vec<Op>)
    ensures
        r@ == head_ops(*c, hidden),
{
    let b = &c.ctx.buffers;
    let r = vec![
        c.norm(hidden, c.parts.module.norm, b.norm_output, 1),
        c.gemv(b.norm_output, c.parts.lm_head, b.logits, c.vocab_size()),
    ];
    assert(r@ =~= head_ops(*c, hidden));
    r
}

fn build_tail(c: &DraftCall, on: bool, recovered: bool) -> (r: Vec<Op>)
    requires
        c.fits(),
    ensures
        r@ == tail_ops(*c, on, recovered),
        all_fit(r@),
{
    let b = &c.ctx.buffers;
    let mut r = vec![build_collapse(c, recovered)];
    c.push_row_dump(&mut r, on, Boundary::DraftCollapsed, b.hidden_states);
    r.push(c.norm(b.hidden_states, c.parts.module.norm, b.norm_output, 1));
    r.push(c.gemv(b.norm_output, c.parts.lm_head, b.logits, c.vocab_size()));
    reveal(tail_ops);
    assert(r@ =~= tail_ops(*c, on, recovered));
    r
}

/// Runs the step that only echoes the target.
fn echo<G: GpuBackend>(gpu: &mut G, c: &DraftCall) -> (r: Result<u32, GpuError>)
    requires
        c.fits(),
    ensures
        exists|pick: Seq<u8>|
            {
                &&& ran(old(gpu).trace(), #[trigger] echo_steps(*c, pick), final(gpu).trace(), refusal(r))
                &&& r matches Ok(tok) ==> tok == u32_at(pick, 0)
            },
{
    let ghost pre = gpu.trace();
    reveal(echo_steps);
    let ghost s1 = steps(head_ops(*c, c.target_hidden), c.stream);
    if let Err(e) = run_ops(gpu, &build_head(c, c.target_hidden), c.stream) {
        proof {
            lemma_ran_cut(pre, s1, pick_steps(*c, false, Seq::empty()), gpu.trace(), e);
            assert(ran(pre, echo_steps(*c, Seq::empty()), gpu.trace(), Some(e)));
        }
        return Err(e);
    }
    let ghost mid = gpu.trace();
    let r = pick_draft(gpu, c, None);
    proof {
        match r {
            Ok(tok) => {
                let pick = choose|pick: Seq<u8>|
                    ran(mid, #[trigger] pick_steps(*c, false, pick), gpu.trace(), None) && picked(*c, None, pick, tok);
                lemma_ran_then(pre, s1, mid, pick_steps(*c, false, pick), gpu.trace(), None);
                assert(ran(pre, echo_steps(*c, pick), gpu.trace(), None));
            },
            Err(e) => {
                let pick = Seq::<u8>::empty();
                assert(ran(mid, pick_steps(*c, false, pick), gpu.trace(), Some(e)));
                lemma_ran_then(pre, s1, mid, pick_steps(*c, false, pick), gpu.trace(), Some(e));
                assert(ran(pre, echo_steps(*c, pick), gpu.trace(), Some(e)));
            },
        }
    }
    r
}

/// Runs embedding branch and combiner.
fn front<G: GpuBackend>(gpu: &mut G, c: &DraftCall) -> (r: Result<(), GpuError>)
    requires
        c.fits(),
    ensures
        exists|d: DraftReads|
            d.rows.len() == c.hc() && ran(old(gpu).trace(), #[trigger] front_steps(*c, d), final(gpu).trace(), refusal(r)),
{
    let ghost pre = gpu.trace();
    reveal(front_steps);
    let ghost s1 = steps(embed_ops(*c), c.stream);
    let ghost none = DraftReads {
        streams: Seq::empty(),
        rows: Seq::new(c.hc() as nat, |j: int| Seq::<u8>::empty()),
        gone: left(Seq::empty(), Seq::empty()),
        after: Seq::empty(),
        pick: Seq::empty(),
    };
    let first = run_ops(gpu, &build_embed(c), c.stream);
    let too_many = !c.flags.single_stream && c.flags.gpu_combiner && c.ctx.config.hc_mult as u32 > 4;
    if too_many {
        assert(ran(pre, front_steps(*c, none), gpu.trace(), refusal(first)));
        return first;
    }
    if let Err(e) = first {
        proof {
            lemma_ran_cut(pre, s1, combine_steps(*c, none.streams, none.rows), gpu.trace(), e);
            assert(ran(pre, front_steps(*c, none), gpu.trace(), Some(e)));
        }
        return Err(e);
    }
    let ghost mid = gpu.trace();
    let r = combine(gpu, c);
    proof {
        let (streams, rows) = choose|streams: Seq<u8>, rows: Seq<Seq<u8>>|
            rows.len() == c.hc() && ran(mid, #[trigger] combine_steps(*c, streams, rows), gpu.trace(), refusal(r));
        let d = DraftReads {
            streams,
            rows,
            gone: left(Seq::empty(), Seq::empty()),
            after: Seq::empty(),
            pick: Seq::empty(),
        };
        lemma_ran_then(pre, s1, mid, combine_steps(*c, streams, rows), gpu.trace(), refusal(r));
        assert(ran(pre, front_steps(*c, d), gpu.trace(), refusal(r)));
    }
    r
}

/// Uploads metadata and token.
fn upload<G: GpuBackend>(gpu: &mut G, c: &DraftCall, table: &Vec<u32>, seq_len: usize, base: DevicePtr) -> (r: Result<
    (),
    GpuError,
>)
    requires
        seq_len < usize::MAX,
        seq_len / MTP_BLOCK_SIZE < table@.len(),
    ensures
        ran(old(gpu).trace(), upload_steps(*c, table@, seq_len as int, base), final(gpu).trace(), refusal(r)),
{
    let ghost pre = gpu.trace();
    let meta = build_meta(c.position, table, seq_len);
    let ghost s1 = seq![send_step(meta@, base, c.stream)];
    let r1 = send(gpu, &meta, base, c.stream);
    match c.ctx.token_ids {
        None => {
            assert(upload_steps(*c, table@, seq_len as int, base) =~= s1);
            r1
        },
        Some(ids) => {
            let mut bytes: Vec<u8> = Vec::new();
            push_le32(&mut bytes, c.token);
            assert(bytes@ =~= le32(c.token));
            let ghost s2 = seq![send_step(le32(c.token), ids, c.stream)];
            if let Err(e) = r1 {
                proof {
                    lemma_ran_cut(pre, s1, s2, gpu.trace(), e);
                }
                return Err(e);
            }
            let ghost mid = gpu.trace();
            let r2 = send(gpu, &bytes, ids, c.stream);
            proof {
                lemma_ran_then(pre, s1, mid, s2, gpu.trace(), refusal(r2));
            }
            r2
        },
    }
}

/// Runs the body, and its dumps once it completed.
fn run_body_part<G: GpuBackend>(
    gpu: &mut G,
    c: &DraftCall,
    on: bool,
    place: &BodyPlace,
    table: &Vec<u32>,
    seq_len: usize,
    base: DevicePtr,
) -> (r: Result<(), GpuError>)
    requires
        c.fits(),
        seq_len < usize::MAX,
    ensures
        exists|gone: Left|
            ran(
                old(gpu).trace(),
                #[trigger] body_part(*c, on, *place, table@, seq_len, base, gone),
                final(gpu).trace(),
                refusal(r),
            ),
{
    reveal(body_part);
    let ghost pre = gpu.trace();
    let call = make_body_call(c, place, base, table.len(), seq_len);
    let ran_body = run_body(gpu, &call, table, &c.ctx, c.stream);
    let ghost gone = choose|gone: Left|
        ran(
            pre,
            seq![#[trigger] layer_step(call, body_tables(c.ctx, table@), c.stream, gone)] + steps(
                seq![Op::Synchronize],
                c.stream,
            ),
            gpu.trace(),
            refusal(ran_body),
        );
    let ghost sb = body_steps(*c, *place, table@, seq_len, base, gone);
    if let Err(e) = ran_body {
        proof {
            lemma_ran_cut(pre, sb, steps(body_dumps(*c, on), c.stream), gpu.trace(), e);
            assert(ran(pre, body_part(*c, on, *place, table@, seq_len, base, gone), gpu.trace(), Some(e)));
        }
        return Err(e);
    }
    let ops = build_body_dumps(c, on);
    let r = go_ops(gpu, &ops, c.stream, Ghost(pre), Ghost(sb));
    assert(ran(pre, body_part(*c, on, *place, table@, seq_len, base, gone), gpu.trace(), refusal(r)));
    r
}

/// Runs recovery, collapse, head and pick.
fn rear<G: GpuBackend>(gpu: &mut G, c: &DraftCall, mask: Option<&[i32]>, on: bool) -> (r: Result<u32, GpuError>)
    requires
        c.fits(),
    ensures
        exists|after: Seq<u8>, pick: Seq<u8>|
            {
                &&& ran(
                    old(gpu).trace(),
                    #[trigger] rear_steps(*c, mask is Some, on, after, pick),
                    final(gpu).trace(),
                    refusal(r),
                )
                &&& r matches Ok(tok) ==> picked(*c, mask_view(mask), pick, tok)
            },
{
    reveal(rear_steps);
    let ghost pre = gpu.trace();
    let ghost masked = mask is Some;
    let ghost empty = Seq::<u8>::empty();
    let rec = recover(gpu, c, on);
    let ghost after = choose|after: Seq<u8>|
        {
            &&& ran(pre, #[trigger] recover_steps(*c, on, after), gpu.trace(), refusal(rec))
            &&& rec matches Ok(done) ==> done == recovered(*c, after)
        };
    let ghost s1 = recover_steps(*c, on, after);
    let ghost s2 = steps(tail_ops(*c, on, recovered(*c, after)), c.stream);
    let was_recovered = match rec {
        Ok(b) => b,
        Err(e) => {
            proof {
                let rest = s2 + pick_steps(*c, masked, empty);
                assert(rear_steps(*c, masked, on, after, empty) =~= s1 + rest);
                lemma_ran_cut(pre, s1, rest, gpu.trace(), e);
            }
            return Err(e);
        },
    };
    let ghost t1 = gpu.trace();
    if let Err(e) = run_ops(gpu, &build_tail(c, on, was_recovered), c.stream) {
        proof {
            let rest = pick_steps(*c, masked, empty);
            assert(rear_steps(*c, masked, on, after, empty) =~= s1 + s2 + rest);
            lemma_ran_next(pre, s1, t1, s2, rest, gpu.trace(), Some(e));
        }
        return Err(e);
    }
    let ghost t2 = gpu.trace();
    proof {
        lemma_ran_then(pre, s1, t1, s2, t2, None);
    }
    let r = pick_draft(gpu, c, mask);
    proof {
        let pick = match r {
            Ok(tok) => choose|pick: Seq<u8>|
                ran(t2, #[trigger] pick_steps(*c, masked, pick), gpu.trace(), None) && picked(*c, mask_view(mask), pick, tok),
            Err(_) => empty,
        };
        assert(ran(t2, pick_steps(*c, masked, pick), gpu.trace(), refusal(r)));
        lemma_ran_then(pre, s1 + s2, t2, pick_steps(*c, masked, pick), gpu.trace(), refusal(r));
        assert(rear_steps(*c, masked, on, after, pick) == s1 + s2 + pick_steps(*c, masked, pick));
    }
    r
}

/// Runs body, collapse, head and pick.
fn back<G: GpuBackend>(
    gpu: &mut G,
    c: &DraftCall,
    mask: Option<&[i32]>,
    on: bool,
    place: &BodyPlace,
    table: &Vec<u32>,
    seq_len: usize,
    base: DevicePtr,
) -> (r: Result<u32, GpuError>)
    requires
        c.fits(),
        seq_len < usize::MAX,
        seq_len / MTP_BLOCK_SIZE < table@.len(),
    ensures
        exists|gone: Left, after: Seq<u8>, pick: Seq<u8>|
            {
                &&& ran(
                    old(gpu).trace(),
                    #[trigger] back_steps(*c, mask is Some, on, *place, table@, seq_len, base, gone, after, pick),
                    final(gpu).trace(),
                    refusal(r),
                )
                &&& r matches Ok(tok) ==> picked(*c, mask_view(mask), pick, tok)
            },
{
    reveal(back_steps);
    let ghost pre = gpu.trace();
    let ghost masked = mask is Some;
    let ghost empty = Seq::<u8>::empty();
    let ghost s1 = upload_steps(*c, table@, seq_len as int, base);
    if let Err(e) = upload(gpu, c, table, seq_len, base) {
        proof {
            let gone = left(Seq::empty(), Seq::empty());
            let rest = body_part(*c, on, *place, table@, seq_len, base, gone) + rear_steps(*c, masked, on, empty, empty);
            assert(back_steps(*c, masked, on, *place, table@, seq_len, base, gone, empty, empty) =~= s1 + rest);
            lemma_ran_cut(pre, s1, rest, gpu.trace(), e);
        }
        return Err(e);
    }
    let ghost t1 = gpu.trace();
    let ran_body = run_body_part(gpu, c, on, place, table, seq_len, base);
    let ghost gone = choose|gone: Left|
        ran(
            t1,
            #[trigger] body_part(*c, on, *place, table@, seq_len, base, gone),
            gpu.trace(),
            refusal(ran_body),
        );
    let ghost s2 = body_part(*c, on, *place, table@, seq_len, base, gone);
    if let Err(e) = ran_body {
        proof {
            let rest = rear_steps(*c, masked, on, empty, empty);
            assert(back_steps(*c, masked, on, *place, table@, seq_len, base, gone, empty, empty) == s1 + s2 + rest);
            lemma_ran_next(pre, s1, t1, s2, rest, gpu.trace(), Some(e));
        }
        return Err(e);
    }
    let ghost t2 = gpu.trace();
    proof {
        lemma_ran_then(pre, s1, t1, s2, t2, None);
    }
    let r = rear(gpu, c, mask, on);
    proof {
        let (after, pick) = choose|after: Seq<u8>, pick: Seq<u8>|
            {
                &&& ran(t2, #[trigger] rear_steps(*c, masked, on, after, pick), gpu.trace(), refusal(r))
                &&& r matches Ok(tok) ==> picked(*c, mask_view(mask), pick, tok)
            };
        let s3 = rear_steps(*c, masked, on, after, pick);
        lemma_ran_then(pre, s1 + s2, t2, s3, gpu.trace(), refusal(r));
        assert(back_steps(*c, masked, on, *place, table@, seq_len, base, gone, after, pick) == s1 + s2 + s3);
    }
    r
}

/// Device, cache and sequence at one moment.
#[verifier::ext_equal]
pub struct MtpSnapshot {
    pub trace: Seq<Event>,
    /// The free blocks of the head's cache.
    pub free: Seq<u32>,
    pub table: Seq<u32>,
    pub seq_len: usize,
    pub key: Option<usize>,
    pub place: BodyPlace,
    /// The drafts so far for which dumps were asked.
    pub dumps: usize,
}

pub open spec fn body_place(head: DeepseekV4MtpHead, state: DeepseekV4MtpProposerState) -> BodyPlace {
    BodyPlace { state: state.body_state, cache: cache_id(head.kv_cache) }
}

pub open spec fn snapshot(trace: Seq<Event>, head: DeepseekV4MtpHead, state: DeepseekV4MtpProposerState) -> MtpSnapshot {
    MtpSnapshot {
        trace,
        free: head.kv_cache.free@,
        table: state.block_table@,
        seq_len: state.seq_len,
        key: state.last_pair_key,
        place: body_place(head, state),
        dumps: head.dumps_asked,
    }
}

/// The rows that the step starts from.
pub open spec fn start_rows(c: DraftCall, pre: MtpSnapshot) -> usize {
    if c.flags.reset_kv { 0 } else { pre.seq_len }
}

pub open spec fn start_key(c: DraftCall, pre: MtpSnapshot) -> Option<usize> {
    if c.flags.reset_kv { None } else { pre.key }
}

/// Blocks that the table must have for the new row.
pub open spec fn blocks_for(rows: usize) -> int {
    rows / MTP_BLOCK_SIZE + 1
}

pub open spec fn draft_meta_bytes(blocks: int) -> int {
    256 + 4 * blocks
}

/// The step dumps its values.
pub open spec fn dumping(c: DraftCall, pre: MtpSnapshot) -> bool {
    c.flags.diag_dump && pre.dumps < DUMPED_DRAFTS
}

/// The count of drafts for which dumps were asked, with this one.
pub open spec fn counted(c: DraftCall, dumps: usize) -> usize {
    if c.flags.diag_dump {
        if dumps == usize::MAX { 0 } else { (dumps + 1) as usize }
    } else {
        dumps
    }
}

/// Table and free list are untouched, and so are the rows but for a reset.
pub open spec fn kept(c: DraftCall, pre: MtpSnapshot, post: MtpSnapshot) -> bool {
    &&& post.free == pre.free
    &&& post.table == pre.table
    &&& post.seq_len == start_rows(c, pre)
    &&& post.key == start_key(c, pre)
    &&& post.place == pre.place
}

/// The table took the blocks it needed.
pub open spec fn table_grew(c: DraftCall, pre: MtpSnapshot, post: MtpSnapshot, ok: bool) -> bool {
    grown(pre.free, pre.table, blocks_for(start_rows(c, pre)), post.free, post.table, ok)
}

/// Where the step keeps its metadata, if it fits.
pub open spec fn draft_place(c: DraftCall, table: Seq<u32>) -> Option<int> {
    meta_place(draft_meta_bytes(table.len() as int), c.ctx.buffers.scratch_bytes as int)
}

pub open spec fn draft_base(c: DraftCall, table: Seq<u32>) -> DevicePtr {
    at(c.ctx.buffers.scratch, draft_place(c, table)->0)
}

/// A step that ended in a draft: it ran its whole program, wrote one row and
/// remembers its position.
pub open spec fn draft_ok(c: DraftCall, mask: Option<Seq<i32>>, pre: MtpSnapshot, post: MtpSnapshot, tok: u32) -> bool {
    let rows = start_rows(c, pre);
    &&& !too_many_streams(c)
    &&& table_grew(c, pre, post, true)
    &&& draft_place(c, post.table) is Some
    &&& post.seq_len == rows + 1
    &&& post.key == Some(c.position)
    &&& post.place == pre.place
    &&& post.dumps == counted(c, pre.dumps)
    &&& exists|d: DraftReads|
        d.rows.len() == c.hc() && ran(
            pre.trace,
            #[trigger] draft_steps(
                c,
                mask is Some,
                dumping(c, pre),
                pre.place,
                post.table,
                rows,
                draft_base(c, post.table),
                d,
            ),
            post.trace,
            None,
        ) && picked(c, mask, d.pick, tok)
}

/// The front of the step ran and nothing after it.
pub open spec fn front_only(c: DraftCall, pre: MtpSnapshot, post: MtpSnapshot) -> bool {
    &&& !too_many_streams(c)
    &&& post.seq_len == start_rows(c, pre)
    &&& post.key == start_key(c, pre)
    &&& post.place == pre.place
    &&& post.dumps == counted(c, pre.dumps)
    &&& exists|d: DraftReads|
        d.rows.len() == c.hc() && ran(pre.trace, #[trigger] front_part(c, dumping(c, pre), d), post.trace, None)
}

/// A step that a refused command ended: in its front, in the dumps behind it,
/// before the table grew, or in its back.
pub open spec fn draft_refused(c: DraftCall, masked: bool, pre: MtpSnapshot, post: MtpSnapshot, e: GpuError) -> bool {
    &&& post.seq_len == start_rows(c, pre)
    &&& post.key == start_key(c, pre)
    &&& post.place == pre.place
    &&& {
        ||| kept(c, pre, post) && post.dumps == pre.dumps && exists|d: DraftReads|
            d.rows.len() == c.hc() && ran(pre.trace, #[trigger] front_steps(c, d), post.trace, Some(e))
        ||| !too_many_streams(c) && kept(c, pre, post) && post.dumps == counted(c, pre.dumps) && exists|d: DraftReads|
            d.rows.len() == c.hc() && #[trigger] refused_at_dumps(c, pre, post, d, e)
        ||| !too_many_streams(c) && post.dumps == counted(c, pre.dumps) && table_grew(c, pre, post, true) && draft_place(c, post.table) is Some && exists|
            d: DraftReads,
        |
            d.rows.len() == c.hc() && #[trigger] refused_after_front(c, masked, pre, post, d, e)
    }
}

/// A step that only echoed the target.
pub open spec fn echoed(c: DraftCall, pre: MtpSnapshot, post: MtpSnapshot, tok: u32) -> bool {
    &&& post.free == pre.free
    &&& post.table == pre.table
    &&& post.seq_len == start_rows(c, pre) + 1
    &&& post.key == start_key(c, pre)
    &&& post.place == pre.place
    &&& post.dumps == pre.dumps
    &&& exists|pick: Seq<u8>| ran(pre.trace, #[trigger] echo_steps(c, pick), post.trace, None) && tok == u32_at(pick, 0)
}

pub open spec fn echo_refused(c: DraftCall, pre: MtpSnapshot, post: MtpSnapshot, e: GpuError) -> bool {
    kept(c, pre, post) && post.dumps == pre.dumps && exists|pick: Seq<u8>| ran(pre.trace, #[trigger] echo_steps(c, pick), post.trace, Some(e))
}

/// What one draft step does and says. The errors other than a refusal come
/// exactly where their conditions hold and nothing was refused before.
pub open spec fn drafted(
    c: DraftCall,
    mask: Option<Seq<i32>>,
    pre: MtpSnapshot,
    post: MtpSnapshot,
    r: Result<u32, MtpError>,
) -> bool {
    if c.flags.diag_passthrough {
        match r {
            Ok(tok) => echoed(c, pre, post, tok),
            Err(MtpError::Gpu(e)) => echo_refused(c, pre, post, e),
            Err(_) => false,
        }
    } else {
        match r {
            Ok(tok) => draft_ok(c, mask, pre, post, tok),
            Err(MtpError::Gpu(e)) => draft_refused(c, mask is Some, pre, post, e),
            Err(MtpError::TooManyStreams { hc_mult }) => {
                &&& too_many_streams(c)
                &&& hc_mult == c.hc()
                &&& kept(c, pre, post)
                &&& post.dumps == pre.dumps
                &&& ran(pre.trace, steps(embed_ops(c), c.stream), post.trace, None)
            },
            Err(MtpError::NoFreeBlock) => front_only(c, pre, post) && table_grew(c, pre, post, false),
            Err(MtpError::MetadataExceedsScratch { meta_bytes, scratch_bytes }) => {
                &&& front_only(c, pre, post)
                &&& table_grew(c, pre, post, true)
                &&& draft_place(c, post.table) is None
                &&& meta_bytes == draft_meta_bytes(post.table.len() as int)
                &&& scratch_bytes == c.ctx.buffers.scratch_bytes
            },
            Err(_) => false,
        }
    }
}

/// The front of the step completed, and one of the dumps behind it was refused.
pub open spec fn refused_at_dumps(c: DraftCall, pre: MtpSnapshot, post: MtpSnapshot, d: DraftReads, e: GpuError) -> bool {
    ran(pre.trace + front_steps(c, d), steps(lead_dumps(c, dumping(c, pre)), c.stream), post.trace, Some(e))
}

/// The front of the step completed, and its back was refused.
pub open spec fn refused_after_front(
    c: DraftCall,
    masked: bool,
    pre: MtpSnapshot,
    post: MtpSnapshot,
    d: DraftReads,
    e: GpuError,
) -> bool {
    ran(
        pre.trace + front_part(c, dumping(c, pre), d),
        back_steps(
            c,
            masked,
            dumping(c, pre),
            pre.place,
            post.table,
            start_rows(c, pre),
            draft_base(c, post.table),
            d.gone,
            d.after,
            d.pick,
        ),
        post.trace,
        Some(e),
    )
}

/// The table of a step has room in scratch arithmetic.
pub open spec fn table_fits(c: DraftCall, pre: MtpSnapshot) -> bool {
    let needed = blocks_for(start_rows(c, pre));
    let blocks = if needed > pre.table.len() { needed } else { pre.table.len() as int };
    &&& MTP_META_OFFSET + draft_meta_bytes(blocks) <= usize::MAX
    &&& start_rows(c, pre) < usize::MAX
}

impl DeepseekV4MtpHead {
    /// One draft step.
    pub fn forward_one<G: GpuBackend>(
        &mut self,
        gpu: &mut G,
        token: u32,
        target_hidden: DevicePtr,
        position: usize,
        state: &mut DeepseekV4MtpProposerState,
        ctx: &ForwardContext,
        flags: &MtpFlags,
        stream: u64,
        grammar_bitmask: Option<&[i32]>,
    ) -> (r: Result<u32, MtpError>)
        requires
            old(self).wf(),
            call_of(old(self).parts, *ctx, *flags, token, target_hidden, position, stream).fits(),
            table_fits(
                call_of(old(self).parts, *ctx, *flags, token, target_hidden, position, stream),
                snapshot(old(gpu).trace(), *old(self), *old(state)),
            ),
        ensures
            final(self).wf(),
            final(self).parts == old(self).parts,
            final(state).last_num_drafted == old(state).last_num_drafted,
            body_place(*final(self), *final(state)) == body_place(*old(self), *old(state)),
            drafted(
                call_of(old(self).parts, *ctx, *flags, token, target_hidden, position, stream),
                mask_view(grammar_bitmask),
                snapshot(old(gpu).trace(), *old(self), *old(state)),
                snapshot(final(gpu).trace(), *final(self), *final(state)),
                r,
            ),
    {
        let c = DraftCall { parts: self.parts, ctx: *ctx, flags: *flags, token, target_hidden, position, stream };
        let ghost pre = snapshot(gpu.trace(), *self, *state);
        let ghost mask = mask_view(grammar_bitmask);
        assert((mask is Some) == (grammar_bitmask is Some));
        if flags.reset_kv {
            state.seq_len = 0;
            state.last_pair_key = None;
        }
        if flags.diag_passthrough {
            return match echo(gpu, &c) {
                Ok(tok) => {
                    state.seq_len = state.seq_len + 1;
                    Ok(tok)
                },
                Err(e) => Err(MtpError::Gpu(e)),
            };
        }
        let first = front(gpu, &c);
        let ghost d0 = choose|d: DraftReads|
            d.rows.len() == c.hc() && ran(pre.trace, #[trigger] front_steps(c, d), gpu.trace(), refusal(first));
        if let Err(e) = first {
            return Err(MtpError::Gpu(e));
        }
        let hc: u32 = ctx.config.hc_mult as u32;
        if !flags.single_stream && flags.gpu_combiner && hc > 4 {
            assert(front_steps(c, d0) == steps(embed_ops(c), c.stream)) by {
                reveal(front_steps);
            }
            return Err(MtpError::TooManyStreams { hc_mult: hc });
        }
        let on = flags.diag_dump && self.dumps_asked < DUMPED_DRAFTS;
        if flags.diag_dump {
            self.dumps_asked = if self.dumps_asked == usize::MAX { 0 } else { self.dumps_asked + 1 };
        }
        let ghost after_front = gpu.trace();
        let dumps = build_lead_dumps(&c, on);
        let dumped = run_ops(gpu, &dumps, stream);
        if let Err(e) = dumped {
            proof {
                assert(after_front =~= pre.trace + front_steps(c, d0));
                let post = snapshot(gpu.trace(), *self, *state);
                assert(refused_at_dumps(c, pre, post, d0, e));
                assert(draft_refused(c, mask is Some, pre, post, e));
            }
            return Err(MtpError::Gpu(e));
        }
        let ghost mid = gpu.trace();
        proof {
            lemma_ran_then(pre.trace, front_steps(c, d0), after_front, steps(lead_dumps(c, on), c.stream), mid, None);
            assert(ran(pre.trace, front_part(c, dumping(c, pre), d0), mid, None));
        }
        let needed: usize = state.seq_len / MTP_BLOCK_SIZE + 1;
        if let Err(_) = self.kv_cache.grow_table(&mut state.block_table, needed) {
            return Err(MtpError::NoFreeBlock);
        }
        let meta_bytes: usize = 256 + 4 * state.block_table.len();
        let scratch_bytes: usize = ctx.buffers.scratch_bytes;
        let off = match place_metadata(meta_bytes, scratch_bytes) {
            Some(off) => off,
            None => {
                return Err(MtpError::MetadataExceedsScratch { meta_bytes, scratch_bytes });
            },
        };
        let base = ctx.buffers.scratch.offset(off);
        let place = BodyPlace { state: state.body_state, cache: self.kv_cache.id() };
        assert(place == pre.place);
        let r = back(gpu, &c, grammar_bitmask, on, &place, &state.block_table, state.seq_len, base);
        let ghost (gone, after, pick) = choose|gone: Left, after: Seq<u8>, pick: Seq<u8>|
            {
                &&& ran(
                    mid,
                    #[trigger] back_steps(c, mask is Some, on, place, state.block_table@, state.seq_len, base, gone, after, pick),
                    gpu.trace(),
                    refusal(r),
                )
                &&& r matches Ok(tok) ==> picked(c, mask, pick, tok)
            };
        let ghost d = DraftReads { streams: d0.streams, rows: d0.rows, gone, after, pick };
        assert(front_steps(c, d) == front_steps(c, d0)) by {
            reveal(front_steps);
        }
        match r {
            Ok(tok) => {
                proof {
                    lemma_ran_then(
                        pre.trace,
                        front_part(c, on, d),
                        mid,
                        back_steps(c, mask is Some, on, place, state.block_table@, state.seq_len, base, gone, after, pick),
                        gpu.trace(),
                        None,
                    );
                    assert(ran(
                        pre.trace,
                        draft_steps(c, mask is Some, on, place, state.block_table@, state.seq_len, base, d),
                        gpu.trace(),
                        None,
                    ));
                }
                let ghost rows = state.seq_len;
                state.seq_len = state.seq_len + 1;
                state.last_pair_key = Some(position);
                proof {
                    let post = snapshot(gpu.trace(), *self, *state);
                    assert(rows == start_rows(c, pre));
                    assert(base == draft_base(c, post.table));
                    assert(draft_ok(c, mask, pre, post, tok));
                }
                Ok(tok)
            },
            Err(e) => {
                proof {
                    assert(mid =~= pre.trace + front_part(c, on, d));
                    let post = snapshot(gpu.trace(), *self, *state);
                    assert(base == draft_base(c, post.table));
                    assert(refused_after_front(c, mask is Some, pre, post, d, e));
                    assert(draft_refused(c, mask is Some, pre, post, e));
                }
                Err(MtpError::Gpu(e))
            },
        }
    }
}

pub open spec fn call_of(
    parts: MtpParts,
    ctx: ForwardContext,
    flags: MtpFlags,
    token: u32,
    target_hidden: DevicePtr,
    position: usize,
    stream: u64,
) -> DraftCall {
    DraftCall { parts, ctx, flags, token, target_hidden, position, stream }
}

} // verus!
