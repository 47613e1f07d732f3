//! Prompt rows of the multi-token-prediction head, built in batches.
//!
//! The target's live streams are consumed from front to back: once a batch has
//! been converted, the body may overwrite its rows, and later rows of the target
//! are still untouched.

use vstd::prelude::*;
use vstd::slice::slice_subrange;

use crate::bits::{le32, le32_all, le64_all, push_le32, push_le32_all, push_le64_all, push_zeros, zeros};
use crate::config::ForwardContext;
use crate::gpu::{at, DevicePtr, GpuError};
use crate::kv_cache::{grown, growing_conserves_blocks};
use crate::mtp::{DeepseekV4MtpHead, DeepseekV4MtpProposerState, MtpFlags, MtpParts, MTP_BLOCK_SIZE, MTP_META_OFFSET};
use crate::mtp_forward::{
    body_ctx, body_place, body_tables, make_body_ctx, meta_place, place_metadata, row_slot, run_body, slot_of, snapshot,
    BodyPlace, MtpError, MtpSnapshot,
};
use crate::mtp_propose::{blocks_of, mtp_state};
use crate::op::{AttnMetadataDev, LayerCall, LayerKind, LayerWork, Op};
use crate::run::{go_ops, go_send, layer_step, run_ops, send, send_step, steps};
use crate::speculative::ProposerState;
use crate::trace::{lemma_ran_prefix, lemma_ran_then, left, ran, refusal, Event, GpuBackend, Left};

verus! {

/// The most rows that one pass takes.
pub const MAX_PASS_ROWS: usize = 512;

// ── one pass ──
/// The arguments of one pass, its tokens aside.
#[derive(Clone, Copy, PartialEq, Eq, Structural, Debug)]
pub struct PassCall {
    pub parts: MtpParts,
    pub ctx: ForwardContext,
    pub target_streams: DevicePtr,
    /// Rows that earlier passes took.
    pub done: usize,
    /// The position of the first row.
    pub position: usize,
    /// The rows of this pass.
    pub count: usize,
    pub stream: u64,
}

impl PassCall {
    pub open spec fn h(self) -> int {
        self.ctx.config.hidden_size as int
    }

    pub open spec fn hc(self) -> int {
        self.ctx.config.hc_mult as int
    }

    /// Bytes of all streams of one row.
    pub open spec fn stream_row_bytes(self) -> int {
        self.hc() * self.h() * 4
    }

    /// The sizes of the pass fit the machine's words.
    pub open spec fn fits(self) -> bool {
        &&& 1 <= self.count <= MAX_PASS_ROWS
        &&& self.hc() * self.h() <= usize::MAX
        &&& self.stream_row_bytes() <= usize::MAX
        &&& self.done * self.stream_row_bytes() <= usize::MAX
        &&& self.count * self.hc() <= usize::MAX
        &&& self.count * self.hc() * self.h() <= usize::MAX
        &&& self.position + self.count <= usize::MAX
        &&& self.ctx.config.num_hidden_layers < usize::MAX
    }
}

/// The branch of the target: its streams as BF16, normed and projected.
pub open spec fn target_ops(p: PassCall) -> Seq<Op> {
    let b = p.ctx.buffers;
    let rows = (p.count * p.hc()) as u32;
    seq![
        Op::MtpHcF32ToBf16 {
            kernel: p.parts.mtp_hc_f32_to_bf16_k,
            src: at(p.target_streams, p.done * p.stream_row_bytes()),
            dst: b.residual,
            n: (p.count * p.hc() * p.h()) as u32,
        },
        Op::RmsNorm {
            kernel: p.parts.rms_norm_k,
            input: b.residual,
            weight: p.parts.module.hnorm,
            output: b.norm_output,
            rows,
            cols: p.h() as u32,
            eps: p.ctx.config.rms_norm_eps,
        },
        Op::DenseGemmPipelined {
            kernel: p.parts.dense_gemm_pipelined_k,
            input: b.norm_output,
            weight: p.parts.module.h_proj,
            output: b.residual,
            m: rows,
            n: p.h() as u32,
            k: p.h() as u32,
        },
    ]
}

fn build_target(p: &PassCall) -> (r: Vec<Op>)
    requires
        p.fits(),
    ensures
        r@ == target_ops(*p),
{
    let b = &p.ctx.buffers;
    let h: usize = p.ctx.config.hidden_size;
    let hc: usize = p.ctx.config.hc_mult;
    let rows: u32 = (p.count * hc) as u32;
    let stream_row_bytes: usize = hc * h * 4;
    let r = vec![
        Op::MtpHcF32ToBf16 {
            kernel: p.parts.mtp_hc_f32_to_bf16_k,
            src: p.target_streams.offset(p.done * stream_row_bytes),
            dst: b.residual,
            n: (p.count * hc * h) as u32,
        },
        Op::RmsNorm {
            kernel: p.parts.rms_norm_k,
            input: b.residual,
            weight: p.parts.module.hnorm,
            output: b.norm_output,
            rows,
            cols: h as u32,
            eps: p.ctx.config.rms_norm_eps,
        },
        Op::DenseGemmPipelined {
            kernel: p.parts.dense_gemm_pipelined_k,
            input: b.norm_output,
            weight: p.parts.module.h_proj,
            output: b.residual,
            m: rows,
            n: h as u32,
            k: h as u32,
        },
    ];
    assert(r@ =~= target_ops(*p));
    r
}

/// The branch of the tokens, and the sum of both branches in every stream.
pub open spec fn token_ops(p: PassCall) -> Seq<Op> {
    let b = p.ctx.buffers;
    seq![
        Op::BatchedEmbed {
            kernel: p.parts.batched_embed_k,
            ids: b.token_ids,
            table: p.parts.embed_tokens.weight,
            output: b.hidden_states,
            n: p.count as u32,
            h: p.h() as u32,
        },
        Op::RmsNorm {
            kernel: p.parts.rms_norm_k,
            input: b.hidden_states,
            weight: p.parts.module.enorm,
            output: b.moe_output,
            rows: p.count as u32,
            cols: p.h() as u32,
            eps: p.ctx.config.rms_norm_eps,
        },
        Op::DenseGemmPipelined {
            kernel: p.parts.dense_gemm_pipelined_k,
            input: b.moe_output,
            weight: p.parts.module.e_proj,
            output: b.attn_output,
            m: p.count as u32,
            n: p.h() as u32,
            k: p.h() as u32,
        },
        Op::MtpHprojBroadcastAdd {
            kernel: p.parts.mtp_hproj_broadcast_add_k,
            h_branch: b.residual,
            e_branch: b.attn_output,
            streams: b.hc_streams,
            rows: p.count as u32,
            hc_mult: p.hc() as u32,
            h: p.h() as u32,
            position: p.position as u32,
        },
    ]
}

fn build_tokens(p: &PassCall) -> (r: Vec<Op>)
    ensures
        r@ == token_ops(*p),
{
    let b = &p.ctx.buffers;
    let h: u32 = p.ctx.config.hidden_size as u32;
    let c: u32 = p.count as u32;
    let r = vec![
        Op::BatchedEmbed {
            kernel: p.parts.batched_embed_k,
            ids: b.token_ids,
            table: p.parts.embed_tokens.weight,
            output: b.hidden_states,
            n: c,
            h,
        },
        Op::RmsNorm {
            kernel: p.parts.rms_norm_k,
            input: b.hidden_states,
            weight: p.parts.module.enorm,
            output: b.moe_output,
            rows: c,
            cols: h,
            eps: p.ctx.config.rms_norm_eps,
        },
        Op::DenseGemmPipelined {
            kernel: p.parts.dense_gemm_pipelined_k,
            input: b.moe_output,
            weight: p.parts.module.e_proj,
            output: b.attn_output,
            m: c,
            n: h,
            k: h,
        },
        Op::MtpHprojBroadcastAdd {
            kernel: p.parts.mtp_hproj_broadcast_add_k,
            h_branch: b.residual,
            e_branch: b.attn_output,
            streams: b.hc_streams,
            rows: c,
            hc_mult: p.ctx.config.hc_mult as u32,
            h,
            position: p.position as u32,
        },
    ];
    assert(r@ =~= token_ops(*p));
    r
}

/// Both branches of a pass over `tokens`.
#[verifier::opaque]
pub open spec fn pass_front(p: PassCall, tokens: Seq<u32>) -> Seq<Event> {
    steps(target_ops(p), p.stream) + seq![
        send_step(le32_all(tokens), p.ctx.buffers.token_ids, p.stream),
    ] + steps(token_ops(p), p.stream)
}

fn run_front<G: GpuBackend>(gpu: &mut G, p: &PassCall, tokens: &[u32]) -> (r: Result<(), GpuError>)
    requires
        p.fits(),
    ensures
        ran(old(gpu).trace(), pass_front(*p, tokens@), final(gpu).trace(), refusal(r)),
{
    let ghost pre = gpu.trace();
    reveal(pass_front);
    let ghost all = pass_front(*p, tokens@);
    let ghost s1 = steps(target_ops(*p), p.stream);
    if let Err(e) = run_ops(gpu, &build_target(p), p.stream) {
        proof {
            assert(all.take(s1.len() as int) =~= s1);
            lemma_ran_prefix(pre, s1, all, gpu.trace(), e);
        }
        return Err(e);
    }
    let mut bytes: Vec<u8> = Vec::new();
    push_le32_all(&mut bytes, tokens);
    assert(bytes@ =~= le32_all(tokens@));
    let ghost s2 = s1 + seq![send_step(bytes@, p.ctx.buffers.token_ids, p.stream)];
    if let Err(e) = go_send(gpu, &bytes, p.ctx.buffers.token_ids, p.stream, Ghost(pre), Ghost(s1)) {
        proof {
            assert(all.take(s2.len() as int) =~= s2);
            lemma_ran_prefix(pre, s2, all, gpu.trace(), e);
        }
        return Err(e);
    }
    go_ops(gpu, &build_tokens(p), p.stream, Ghost(pre), Ghost(s2))
}

/// Blocks that hold `rows` rows.
pub open spec fn blocks_holding(rows: int) -> int {
    (rows + MTP_BLOCK_SIZE - 1) / (MTP_BLOCK_SIZE as int)
}

/// Where the slots start: the positions, rounded up to a double word.
pub open spec fn slots_off(count: int) -> int {
    (4 * count + 7) / 8 * 8
}

/// The metadata of a pass takes this many bytes.
pub open spec fn pass_meta_bytes(count: int, blocks: int) -> int {
    slots_off(count) + 8 * count + 4 + 4 * blocks
}

/// The positions of a pass.
pub open spec fn pass_positions(p: PassCall) -> Seq<u32> {
    Seq::new(p.count as nat, |i: int| (p.position + i) as u32)
}

/// The cache slots of a pass that starts at row `rows`.
pub open spec fn pass_slots(p: PassCall, table: Seq<u32>, rows: int) -> Seq<u64> {
    Seq::new(p.count as nat, |i: int| row_slot(table, rows + i))
}

/// The metadata of a pass: positions, slots from the next double word on, the
/// length with the new rows, and the block table.
pub open spec fn pass_meta(p: PassCall, table: Seq<u32>, rows: int) -> Seq<u8> {
    le32_all(pass_positions(p)) + zeros((slots_off(p.count as int) - 4 * p.count) as nat) + le64_all(
        pass_slots(p, table, rows),
    ) + le32((rows + p.count) as u32) + le32_all(table)
}

fn build_pass_meta(p: &PassCall, table: &Vec<u32>, rows: usize) -> (r: Vec<u8>)
    requires
        p.fits(),
        rows + p.count <= usize::MAX,
        table@.len() >= blocks_holding(rows + p.count),
    ensures
        r@ == pass_meta(*p, table@, rows as int),
{
    let mut positions: Vec<u32> = Vec::new();
    let mut slots: Vec<u64> = Vec::new();
    let mut i: usize = 0;
    while i < p.count
        invariant
            i <= p.count,
            p.fits(),
            rows + p.count <= usize::MAX,
            table@.len() >= blocks_holding(rows + p.count),
            positions@ == pass_positions(*p).take(i as int),
            slots@ == pass_slots(*p, table@, rows as int).take(i as int),
        decreases p.count - i,
    {
        positions.push((p.position + i) as u32);
        slots.push(slot_of(table, rows + i));
        i += 1;
        assert(positions@ =~= pass_positions(*p).take(i as int));
        assert(slots@ =~= pass_slots(*p, table@, rows as int).take(i as int));
    }
    assert(positions@ =~= pass_positions(*p));
    assert(slots@ =~= pass_slots(*p, table@, rows as int));
    let mut m: Vec<u8> = Vec::new();
    push_le32_all(&mut m, positions.as_slice());
    push_zeros(&mut m, (4 * p.count + 7) / 8 * 8 - 4 * p.count);
    push_le64_all(&mut m, slots.as_slice());
    push_le32(&mut m, (rows + p.count) as u32);
    push_le32_all(&mut m, table.as_slice());
    assert(m@ =~= pass_meta(*p, table@, rows as int));
    m
}

pub open spec fn pass_meta_dev(base: DevicePtr, count: int, blocks: int) -> AttnMetadataDev {
    AttnMetadataDev {
        positions: base,
        positions_h: base,
        positions_w: base,
        slot: at(base, slots_off(count)),
        seq_len: at(base, slots_off(count) + 8 * count),
        block_table: at(base, slots_off(count) + 8 * count + 4),
        max_blocks_per_seq: blocks as u32,
        num_seqs: 1,
        seq_slot: DevicePtr(0),
    }
}

/// The prefill of the body over the rows of a pass.
pub open spec fn pass_call(p: PassCall, place: BodyPlace, base: DevicePtr, blocks: int, rows: usize) -> LayerCall {
    LayerCall {
        kind: LayerKind::DraftBody,
        index: 0,
        state: place.state,
        cache: place.cache,
        work: LayerWork::Prefill {
            hidden: p.ctx.buffers.hidden_states,
            residual: p.ctx.buffers.residual,
            num_tokens: p.count,
            seq_len_start: rows,
            kv_write_start: 0,
        },
        ctx: body_ctx(p.ctx, pass_meta_dev(base, p.count as int, blocks), Some(p.ctx.buffers.token_ids)),
    }
}

/// The body over the rows of a pass, and the wait for it.
pub open spec fn pass_body(
    p: PassCall,
    place: BodyPlace,
    table: Seq<u32>,
    rows: usize,
    base: DevicePtr,
    gone: Left,
) -> Seq<Event> {
    seq![
        layer_step(
            pass_call(p, place, base, table.len() as int, rows),
            body_tables(p.ctx, table),
            p.stream,
            gone,
        ),
    ] + steps(seq![Op::Synchronize], p.stream)
}

fn make_pass_call(p: &PassCall, place: &BodyPlace, base: DevicePtr, blocks: usize, rows: usize) -> (r: LayerCall)
    requires
        p.fits(),
    ensures
        r == pass_call(*p, *place, base, blocks as int, rows),
{
    let slot_off: usize = (4 * p.count + 7) / 8 * 8;
    let seq_len_off: usize = slot_off + 8 * p.count;
    let meta = AttnMetadataDev {
        positions: base,
        positions_h: base,
        positions_w: base,
        slot: base.offset(slot_off),
        seq_len: base.offset(seq_len_off),
        block_table: base.offset(seq_len_off + 4),
        max_blocks_per_seq: blocks as u32,
        num_seqs: 1,
        seq_slot: DevicePtr(0),
    };
    LayerCall {
        kind: LayerKind::DraftBody,
        index: 0,
        state: place.state,
        cache: place.cache,
        work: LayerWork::Prefill {
            hidden: p.ctx.buffers.hidden_states,
            residual: p.ctx.buffers.residual,
            num_tokens: p.count,
            seq_len_start: rows,
            kv_write_start: 0,
        },
        ctx: make_body_ctx(&p.ctx, meta, Some(p.ctx.buffers.token_ids)),
    }
}

/// Metadata and body of a pass over a table that holds its rows.
#[verifier::opaque]
pub open spec fn pass_back(
    p: PassCall,
    place: BodyPlace,
    table: Seq<u32>,
    rows: usize,
    base: DevicePtr,
    gone: Left,
) -> Seq<Event> {
    seq![send_step(pass_meta(p, table, rows as int), base, p.stream)] + pass_body(p, place, table, rows, base, gone)
}

fn run_back<G: GpuBackend>(
    gpu: &mut G,
    p: &PassCall,
    place: &BodyPlace,
    table: &Vec<u32>,
    rows: usize,
    base: DevicePtr,
) -> (r: Result<(), GpuError>)
    requires
        p.fits(),
        rows + p.count <= usize::MAX,
        table@.len() >= blocks_holding(rows + p.count),
    ensures
        exists|gone: Left|
            ran(
                old(gpu).trace(),
                #[trigger] pass_back(*p, *place, table@, rows, base, gone),
                final(gpu).trace(),
                refusal(r),
            ),
{
    let ghost pre = gpu.trace();
    reveal(pass_back);
    let meta = build_pass_meta(p, table, rows);
    let ghost s1 = seq![send_step(meta@, base, p.stream)];
    if let Err(e) = send(gpu, &meta, base, p.stream) {
        proof {
            let all = pass_back(*p, *place, table@, rows, base, left(Seq::empty(), Seq::empty()));
            assert(all.take(s1.len() as int) =~= s1);
            lemma_ran_prefix(pre, s1, all, gpu.trace(), e);
        }
        return Err(e);
    }
    let ghost mid = gpu.trace();
    let call = make_pass_call(p, place, base, table.len(), rows);
    let r = run_body(gpu, &call, table, &p.ctx, p.stream);
    proof {
        let gone = choose|gone: Left|
            ran(
                mid,
                seq![#[trigger] layer_step(call, body_tables(p.ctx, table@), p.stream, gone)] + steps(
                    seq![Op::Synchronize],
                    p.stream,
                ),
                gpu.trace(),
                refusal(r),
            );
        lemma_ran_then(pre, s1, mid, pass_body(*p, *place, table@, rows, base, gone), gpu.trace(), refusal(r));
        assert(ran(pre, pass_back(*p, *place, table@, rows, base, gone), gpu.trace(), refusal(r)));
    }
    r
}

/// Where a pass keeps its metadata, if it fits.
pub open spec fn pass_place(p: PassCall, blocks: int) -> Option<int> {
    meta_place(pass_meta_bytes(p.count as int, blocks), p.ctx.buffers.scratch_bytes as int)
}

/// The program of a pass after its table has grown.
pub open spec fn placed_back(p: PassCall, place: BodyPlace, table: Seq<u32>, rows: usize, gone: Left) -> Seq<Event> {
    pass_back(p, place, table, rows, at(p.ctx.buffers.scratch, pass_place(p, table.len() as int)->0), gone)
}

/// The table took the blocks that the new rows need.
pub open spec fn pass_grew(p: PassCall, pre: MtpSnapshot, post: MtpSnapshot, ok: bool) -> bool {
    grown(pre.free, pre.table, blocks_holding(pre.seq_len + p.count), post.free, post.table, ok)
}

/// No row was written.
pub open spec fn no_row(pre: MtpSnapshot, post: MtpSnapshot) -> bool {
    &&& post.seq_len == pre.seq_len
    &&& post.key == pre.key
    &&& post.place == pre.place
    &&& post.dumps == pre.dumps
}

/// A pass ran to its end.
pub open spec fn pass_ran(p: PassCall, tokens: Seq<u32>, pre: MtpSnapshot, post: MtpSnapshot, gone: Left) -> bool {
    ran(
        pre.trace,
        pass_front(p, tokens) + placed_back(p, pre.place, post.table, pre.seq_len, gone),
        post.trace,
        None,
    )
}

/// A pass that wrote its rows.
pub open spec fn pass_ok(p: PassCall, tokens: Seq<u32>, pre: MtpSnapshot, post: MtpSnapshot) -> bool {
    &&& pass_grew(p, pre, post, true)
    &&& pass_place(p, post.table.len() as int) is Some
    &&& post.seq_len == pre.seq_len + p.count
    &&& post.key == Some((p.position + p.count - 1) as usize)
    &&& post.place == pre.place
    &&& post.dumps == pre.dumps
    &&& exists|gone: Left| #[trigger] pass_ran(p, tokens, pre, post, gone)
}

/// The front of a pass completed, and its back was refused.
pub open spec fn back_refused(
    p: PassCall,
    tokens: Seq<u32>,
    pre: MtpSnapshot,
    post: MtpSnapshot,
    gone: Left,
    e: GpuError,
) -> bool {
    ran(
        pre.trace + pass_front(p, tokens),
        placed_back(p, pre.place, post.table, pre.seq_len, gone),
        post.trace,
        Some(e),
    )
}

/// A pass that a refused command ended: in its front, before the table grew, or
/// in its back.
pub open spec fn pass_refused(p: PassCall, tokens: Seq<u32>, pre: MtpSnapshot, post: MtpSnapshot, e: GpuError) -> bool {
    &&& no_row(pre, post)
    &&& {
        ||| post.free == pre.free && post.table == pre.table && ran(
            pre.trace,
            pass_front(p, tokens),
            post.trace,
            Some(e),
        )
        ||| pass_grew(p, pre, post, true) && pass_place(p, post.table.len() as int) is Some && exists|
            gone: Left,
        |
            #[trigger] back_refused(p, tokens, pre, post, gone, e)
    }
}

/// What one pass does and says.
pub open spec fn passed(
    p: PassCall,
    tokens: Seq<u32>,
    pre: MtpSnapshot,
    post: MtpSnapshot,
    r: Result<(), MtpError>,
) -> bool {
    match r {
        Ok(_) => pass_ok(p, tokens, pre, post),
        Err(MtpError::Gpu(e)) => pass_refused(p, tokens, pre, post, e),
        Err(MtpError::NoFreeBlock) => {
            &&& no_row(pre, post)
            &&& pass_grew(p, pre, post, false)
            &&& ran(pre.trace, pass_front(p, tokens), post.trace, None)
        },
        Err(MtpError::MetadataExceedsScratch { meta_bytes, scratch_bytes }) => {
            &&& no_row(pre, post)
            &&& pass_grew(p, pre, post, true)
            &&& pass_place(p, post.table.len() as int) is None
            &&& meta_bytes == pass_meta_bytes(p.count as int, post.table.len() as int)
            &&& scratch_bytes == p.ctx.buffers.scratch_bytes
            &&& ran(pre.trace, pass_front(p, tokens), post.trace, None)
        },
        Err(_) => false,
    }
}

/// Room for rows up to `end`, in passes of any size.
pub open spec fn meta_fits(table: Seq<u32>, end: int) -> bool {
    let needed = blocks_holding(end);
    let blocks = if needed > table.len() { needed } else { table.len() as int };
    &&& end <= usize::MAX
    &&& MTP_META_OFFSET + pass_meta_bytes(MAX_PASS_ROWS as int, blocks) <= usize::MAX
}

impl DeepseekV4MtpHead {
    fn one_pass<G: GpuBackend>(
        &mut self,
        gpu: &mut G,
        p: &PassCall,
        tokens: &[u32],
        st: &mut DeepseekV4MtpProposerState,
    ) -> (r: Result<(), MtpError>)
        requires
            old(self).wf(),
            p.fits(),
            tokens@.len() == p.count,
            meta_fits(old(st).block_table@, old(st).seq_len + p.count),
        ensures
            final(self).wf(),
            final(self).parts == old(self).parts,
            final(st).last_num_drafted == old(st).last_num_drafted,
            body_place(*final(self), *final(st)) == body_place(*old(self), *old(st)),
            passed(
                *p,
                tokens@,
                snapshot(old(gpu).trace(), *old(self), *old(st)),
                snapshot(final(gpu).trace(), *final(self), *final(st)),
                r,
            ),
    {
        let ghost pre = snapshot(gpu.trace(), *self, *st);
        if let Err(e) = run_front(gpu, p, tokens) {
            return Err(MtpError::Gpu(e));
        }
        let ghost mid = gpu.trace();
        let rows: usize = st.seq_len;
        let end_row: usize = rows + p.count;
        let needed: usize = end_row / MTP_BLOCK_SIZE + (if end_row % MTP_BLOCK_SIZE > 0 { 1 } else { 0 });
        assert(needed == blocks_holding(end_row as int));
        if let Err(_) = self.kv_cache.grow_table(&mut st.block_table, needed) {
            return Err(MtpError::NoFreeBlock);
        }
        let ghost table = st.block_table@;
        let meta_bytes: usize = (4 * p.count + 7) / 8 * 8 + 8 * p.count + 4 + 4 * st.block_table.len();
        let scratch_bytes: usize = p.ctx.buffers.scratch_bytes;
        let off = match place_metadata(meta_bytes, scratch_bytes) {
            Some(off) => off,
            None => {
                return Err(MtpError::MetadataExceedsScratch { meta_bytes, scratch_bytes });
            },
        };
        let base = p.ctx.buffers.scratch.offset(off);
        let place = BodyPlace { state: st.body_state, cache: self.kv_cache.id() };
        assert(place == pre.place);
        let r = run_back(gpu, p, &place, &st.block_table, rows, base);
        let ghost gone = choose|gone: Left|
            ran(mid, #[trigger] pass_back(*p, place, table, rows, base, gone), gpu.trace(), refusal(r));
        assert(pass_back(*p, place, table, rows, base, gone) == placed_back(*p, place, table, rows, gone));
        match r {
            Ok(_) => {
                proof {
                    lemma_ran_then(
                        pre.trace,
                        pass_front(*p, tokens@),
                        mid,
                        placed_back(*p, place, table, rows, gone),
                        gpu.trace(),
                        None,
                    );
                }
                st.seq_len = end_row;
                st.last_pair_key = Some(p.position + p.count - 1);
                assert(pass_ran(*p, tokens@, pre, snapshot(gpu.trace(), *self, *st), gone));
                assert(pass_ok(*p, tokens@, pre, snapshot(gpu.trace(), *self, *st)));
                Ok(())
            },
            Err(e) => {
                proof {
                    assert(mid =~= pre.trace + pass_front(*p, tokens@));
                    assert(back_refused(*p, tokens@, pre, snapshot(gpu.trace(), *self, *st), gone, e));
                    assert(pass_refused(*p, tokens@, pre, snapshot(gpu.trace(), *self, *st), e));
                }
                Err(MtpError::Gpu(e))
            },
        }
    }
}

// ── all passes ──
/// The arguments of a prompt prefill, its tokens aside.
#[derive(Clone, Copy, PartialEq, Eq, Structural, Debug)]
pub struct RowsCall {
    pub parts: MtpParts,
    pub ctx: ForwardContext,
    pub flags: MtpFlags,
    pub target_streams: DevicePtr,
    pub first_position: usize,
    pub stream: u64,
}

/// Rows that a pass can take: every stream of a row needs a row of the arena.
pub open spec fn rows_per_pass(ctx: ForwardContext) -> int {
    let fit = ctx.buffers.max_batch_tokens as int / ctx.config.hc_mult as int;
    if fit < MAX_PASS_ROWS { fit } else { MAX_PASS_ROWS as int }
}

/// Rows of pass `k` over `n` rows.
pub open spec fn pass_rows(c: RowsCall, n: int, k: int) -> int {
    let step = rows_per_pass(c.ctx);
    if n - k * step < step { n - k * step } else { step }
}

pub open spec fn pass_of(c: RowsCall, n: int, k: int) -> PassCall {
    let done = k * rows_per_pass(c.ctx);
    PassCall {
        parts: c.parts,
        ctx: c.ctx,
        target_streams: c.target_streams,
        done: done as usize,
        position: (c.first_position + done) as usize,
        count: pass_rows(c, n, k) as usize,
        stream: c.stream,
    }
}

/// The tokens of pass `k`.
pub open spec fn pass_tokens(c: RowsCall, tokens: Seq<u32>, k: int) -> Seq<u32> {
    let done = k * rows_per_pass(c.ctx);
    tokens.subrange(done, done + pass_rows(c, tokens.len() as int, k))
}

/// Passes that followed one another from one snapshot to the next.
pub open spec fn passes(c: RowsCall, tokens: Seq<u32>, snaps: Seq<MtpSnapshot>) -> bool {
    forall|k: int|
        0 <= k < snaps.len() - 1 ==> #[trigger] passed(
            pass_of(c, tokens.len() as int, k),
            pass_tokens(c, tokens, k),
            snaps[k],
            snaps[k + 1],
            Ok(()),
        )
}

/// `k` passes are just enough for `n` rows.
pub open spec fn covers(c: RowsCall, n: int, k: int) -> bool {
    (k - 1) * rows_per_pass(c.ctx) < n <= k * rows_per_pass(c.ctx)
}

/// What building prompt rows does and says, once its conditions hold.
pub open spec fn rows_outcome(
    c: RowsCall,
    tokens: Seq<u32>,
    pre: MtpSnapshot,
    post: MtpSnapshot,
    r: Result<usize, MtpError>,
) -> bool {
    match r {
        Ok(n) => n == tokens.len() && exists|snaps: Seq<MtpSnapshot>|
            {
                &&& #[trigger] passes(c, tokens, snaps)
                &&& snaps.len() >= 1
                &&& covers(c, n as int, snaps.len() - 1)
                &&& snaps[0] == pre
                &&& snaps.last() == post
            },
        Err(e) => exists|snaps: Seq<MtpSnapshot>|
            {
                &&& #[trigger] passes(c, tokens, snaps)
                &&& snaps.len() >= 1
                &&& (snaps.len() - 1) * rows_per_pass(c.ctx) < tokens.len()
                &&& snaps[0] == pre
                &&& passed(
                    pass_of(c, tokens.len() as int, snaps.len() - 1),
                    pass_tokens(c, tokens, snaps.len() - 1),
                    snaps.last(),
                    post,
                    Err(e),
                )
            },
    }
}

/// Why no row can be built at all.
pub open spec fn rows_barred(c: RowsCall, rows: usize) -> Option<MtpError> {
    if !c.flags.k1_state {
        Some(MtpError::PrefillNeedsK1State)
    } else if !c.flags.use_mhc {
        Some(MtpError::PrefillNeedsStreams)
    } else if rows != c.first_position {
        Some(MtpError::RowsNotContiguous { rows, first_position: c.first_position })
    } else if c.ctx.config.hc_mult == 0 {
        Some(MtpError::NoStreams)
    } else if rows_per_pass(c.ctx) == 0 {
        Some(MtpError::ArenaTooSmall)
    } else {
        None
    }
}

/// The sizes of a prompt prefill of `n` rows fit the machine's words.
pub open spec fn rows_call_fits(c: RowsCall, table: Seq<u32>, n: int) -> bool {
    let hc = c.ctx.config.hc_mult;
    let h = c.ctx.config.hidden_size;
    &&& n * (hc * h * 4) <= usize::MAX
    &&& n * hc <= usize::MAX
    &&& meta_fits(table, c.first_position + n)
    &&& c.ctx.config.num_hidden_layers < usize::MAX
}

/// What building prompt rows does and says.
pub open spec fn rows_built(
    c: RowsCall,
    tokens: Seq<u32>,
    pre: MtpSnapshot,
    post: MtpSnapshot,
    r: Result<usize, MtpError>,
) -> bool {
    if !c.flags.prompt_prefill || tokens.len() == 0 {
        r == Ok::<usize, MtpError>(0) && post == pre
    } else if let Some(e) = rows_barred(c, pre.seq_len) {
        r == Err::<usize, MtpError>(e) && post == pre
    } else {
        rows_outcome(c, tokens, pre, post, r)
    }
}

pub open spec fn rows_call(
    parts: MtpParts,
    ctx: ForwardContext,
    flags: MtpFlags,
    target_streams: DevicePtr,
    first_position: usize,
    stream: u64,
) -> RowsCall {
    RowsCall { parts, ctx, flags, target_streams, first_position, stream }
}

proof fn lemma_pass_fits(c: RowsCall, n: int, k: int)
    requires
        c.ctx.config.hc_mult > 0,
        rows_per_pass(c.ctx) > 0,
        0 <= k,
        k * rows_per_pass(c.ctx) < n,
        n * (c.ctx.config.hc_mult * c.ctx.config.hidden_size * 4) <= usize::MAX,
        n * c.ctx.config.hc_mult <= usize::MAX,
        c.first_position + n <= usize::MAX,
        c.ctx.config.num_hidden_layers < usize::MAX,
    ensures
        0 <= k * rows_per_pass(c.ctx),
        pass_of(c, n, k).fits(),
        pass_of(c, n, k).done == k * rows_per_pass(c.ctx),
        pass_of(c, n, k).position == c.first_position + k * rows_per_pass(c.ctx),
        pass_of(c, n, k).count == pass_rows(c, n, k),
{
    let step = rows_per_pass(c.ctx);
    let hc = c.ctx.config.hc_mult as int;
    let h = c.ctx.config.hidden_size as int;
    let count = pass_rows(c, n, k);
    let done = k * step;
    assert(0 <= done) by (nonlinear_arith)
        requires
            0 <= k,
            0 < step,
            done == k * step,
    ;
    assert(done < n && 1 <= count && done + count <= n);
    assert(n >= 1);
    assert(0 <= hc * h <= n * (hc * h * 4) && 0 <= hc * h * 4 <= n * (hc * h * 4)) by (nonlinear_arith)
        requires
            n >= 1,
            hc >= 0,
            h >= 0,
    ;
    assert(done * (hc * h * 4) <= n * (hc * h * 4)) by (nonlinear_arith)
        requires
            done <= n,
            hc * h * 4 >= 0,
    ;
    assert(count * hc <= n * hc) by (nonlinear_arith)
        requires
            count <= n,
            hc >= 0,
    ;
    assert(count * hc * h <= n * (hc * h * 4)) by (nonlinear_arith)
        requires
            1 <= count <= n,
            hc >= 0,
            h >= 0,
    ;
}

impl DeepseekV4MtpHead {
    fn all_passes<G: GpuBackend>(
        &mut self,
        gpu: &mut G,
        next_tokens: &[u32],
        st: &mut DeepseekV4MtpProposerState,
        c: &RowsCall,
        step: usize,
    ) -> (r: Result<usize, MtpError>)
        requires
            old(self).wf(),
            c.parts == old(self).parts,
            next_tokens@.len() > 0,
            c.ctx.config.hc_mult > 0,
            step == rows_per_pass(c.ctx),
            step > 0,
            old(st).seq_len == c.first_position,
            rows_call_fits(*c, old(st).block_table@, next_tokens@.len() as int),
        ensures
            final(self).wf(),
            final(self).parts == old(self).parts,
            final(st).last_num_drafted == old(st).last_num_drafted,
            body_place(*final(self), *final(st)) == body_place(*old(self), *old(st)),
            rows_outcome(
                *c,
                next_tokens@,
                snapshot(old(gpu).trace(), *old(self), *old(st)),
                snapshot(final(gpu).trace(), *final(self), *final(st)),
                r,
            ),
    {
        let n: usize = next_tokens.len();
        let ghost pre = snapshot(gpu.trace(), *self, *st);
        let ghost mut snaps: Seq<MtpSnapshot> = seq![pre];
        let ghost mut k: int = 0;
        let mut done: usize = 0;
        while done < n
            invariant
                n == next_tokens@.len(),
                n > 0,
                step == rows_per_pass(c.ctx),
                step > 0,
                c.ctx.config.hc_mult > 0,
                0 <= k,
                done == (if k * step < n { k * step } else { n as int }),
                k > 0 ==> (k - 1) * step < n,
                self.wf(),
                self.parts == old(self).parts,
                c.parts == self.parts,
                st.last_num_drafted == old(st).last_num_drafted,
                body_place(*self, *st) == body_place(*old(self), *old(st)),
                st.seq_len == c.first_position + done,
                meta_fits(st.block_table@, c.first_position + n),
                rows_call_fits(*c, pre.table, n as int),
                pre == snapshot(old(gpu).trace(), *old(self), *old(st)),
                snaps.len() == k + 1,
                snaps[0] == pre,
                snaps.last() == snapshot(gpu.trace(), *self, *st),
                passes(*c, next_tokens@, snaps),
            decreases n - done,
        {
            proof {
                lemma_pass_fits(*c, n as int, k);
            }
            let left: usize = n - done;
            let count: usize = if left < step { left } else { step };
            let p = PassCall {
                parts: self.parts,
                ctx: c.ctx,
                target_streams: c.target_streams,
                done,
                position: c.first_position + done,
                count,
                stream: c.stream,
            };
            assert(p == pass_of(*c, n as int, k));
            let tokens = slice_subrange(next_tokens, done, done + count);
            assert(tokens@ == pass_tokens(*c, next_tokens@, k));
            let ghost mid = snapshot(gpu.trace(), *self, *st);
            assert(meta_fits(st.block_table@, st.seq_len + count)) by {
                assert(blocks_holding(st.seq_len + count) <= blocks_holding(c.first_position + n));
            }
            let r = self.one_pass(gpu, &p, tokens, st);
            let ghost post = snapshot(gpu.trace(), *self, *st);
            match r {
                Err(e) => {
                    assert(rows_outcome(*c, next_tokens@, pre, post, Err(e)));
                    return Err(e);
                },
                Ok(_) => {
                    proof {
                        let before = snaps;
                        snaps = snaps.push(post);
                        assert forall|j: int| 0 <= j < snaps.len() - 1 implies #[trigger] passed(
                            pass_of(*c, n as int, j),
                            pass_tokens(*c, next_tokens@, j),
                            snaps[j],
                            snaps[j + 1],
                            Ok(()),
                        ) by {
                            if j < k {
                                assert(passed(
                                    pass_of(*c, n as int, j),
                                    pass_tokens(*c, next_tokens@, j),
                                    before[j],
                                    before[j + 1],
                                    Ok(()),
                                ));
                                assert(snaps[j] == before[j] && snaps[j + 1] == before[j + 1]);
                            } else {
                                assert(snaps[j] == mid && snaps[j + 1] == post);
                            }
                        }
                        assert((k + 1) * step == k * step + step) by (nonlinear_arith);
                        assert(blocks_holding(mid.seq_len + count) <= blocks_holding(c.first_position + n));
                        k = k + 1;
                    }
                    done += count;
                },
            }
        }
        assert(covers(*c, n as int, snaps.len() - 1));
        Ok(done)
    }

    /// Builds prompt rows for `next_tokens`, each paired with one row of the
    /// target's live streams. Answers with the number of rows built.
    pub fn prefill_stream_rows_inner<G: GpuBackend>(
        &mut self,
        gpu: &mut G,
        next_tokens: &[u32],
        target_streams: DevicePtr,
        first_position: usize,
        state: &mut DeepseekV4MtpProposerState,
        ctx: &ForwardContext,
        flags: &MtpFlags,
        stream: u64,
    ) -> (r: Result<usize, MtpError>)
        requires
            old(self).wf(),
            rows_call_fits(
                rows_call(old(self).parts, *ctx, *flags, target_streams, first_position, stream),
                old(state).block_table@,
                next_tokens@.len() as int,
            ),
        ensures
            final(self).wf(),
            final(self).parts == old(self).parts,
            final(state).last_num_drafted == old(state).last_num_drafted,
            body_place(*final(self), *final(state)) == body_place(*old(self), *old(state)),
            rows_built(
                rows_call(old(self).parts, *ctx, *flags, target_streams, first_position, stream),
                next_tokens@,
                snapshot(old(gpu).trace(), *old(self), *old(state)),
                snapshot(final(gpu).trace(), *final(self), *final(state)),
                r,
            ),
    {
        let c = RowsCall { parts: self.parts, ctx: *ctx, flags: *flags, target_streams, first_position, stream };
        if !flags.prompt_prefill || next_tokens.len() == 0 {
            return Ok(0);
        }
        if !flags.k1_state {
            return Err(MtpError::PrefillNeedsK1State);
        }
        if !flags.use_mhc {
            return Err(MtpError::PrefillNeedsStreams);
        }
        if state.seq_len != first_position {
            return Err(MtpError::RowsNotContiguous { rows: state.seq_len, first_position });
        }
        let hc: usize = ctx.config.hc_mult;
        if hc == 0 {
            return Err(MtpError::NoStreams);
        }
        let fit: usize = ctx.buffers.max_batch_tokens / hc;
        let step: usize = if fit < MAX_PASS_ROWS { fit } else { MAX_PASS_ROWS };
        if step == 0 {
            return Err(MtpError::ArenaTooSmall);
        }
        self.all_passes(gpu, next_tokens, state, &c, step)
    }

    /// Builds prompt rows for a sequence of this head.
    pub fn prefill_v4_stream_rows<G: GpuBackend>(
        &mut self,
        gpu: &mut G,
        next_tokens: &[u32],
        target_streams: DevicePtr,
        first_position: usize,
        state: &mut ProposerState,
        ctx: &ForwardContext,
        flags: &MtpFlags,
        stream: u64,
    ) -> (r: Result<usize, MtpError>)
        requires
            old(self).wf(),
            *old(state) is V4Mtp ==> rows_call_fits(
                rows_call(old(self).parts, *ctx, *flags, target_streams, first_position, stream),
                mtp_state(*old(state)).block_table@,
                next_tokens@.len() as int,
            ),
        ensures
            final(self).wf(),
            final(self).parts == old(self).parts,
            if *old(state) is V4Mtp {
                &&& *final(state) is V4Mtp
                &&& mtp_state(*final(state)).last_num_drafted == mtp_state(*old(state)).last_num_drafted
                &&& body_place(*final(self), mtp_state(*final(state))) == body_place(
                    *old(self),
                    mtp_state(*old(state)),
                )
                &&& rows_built(
                    rows_call(old(self).parts, *ctx, *flags, target_streams, first_position, stream),
                    next_tokens@,
                    snapshot(old(gpu).trace(), *old(self), mtp_state(*old(state))),
                    snapshot(final(gpu).trace(), *final(self), mtp_state(*final(state))),
                    r,
                )
            } else {
                &&& r == Err::<usize, MtpError>(MtpError::InvalidState)
                &&& *final(state) == *old(state)
                &&& *final(self) == *old(self)
                &&& final(gpu).trace() == old(gpu).trace()
            },
    {
        match state {
            ProposerState::V4Mtp(st) => self.prefill_stream_rows_inner(
                gpu,
                next_tokens,
                target_streams,
                first_position,
                st,
                ctx,
                flags,
                stream,
            ),
            _ => Err(MtpError::InvalidState),
        }
    }
}

/// A prompt prefill that completed wrote one row per token, and the newest
/// position is that of the last token's row.
pub proof fn every_token_has_its_row(c: RowsCall, tokens: Seq<u32>, pre: MtpSnapshot, post: MtpSnapshot, n: usize)
    requires
        rows_built(c, tokens, pre, post, Ok(n)),
        n > 0,
        c.first_position + tokens.len() <= usize::MAX,
    ensures
        n == tokens.len(),
        post.seq_len == pre.seq_len + n,
        post.key == Some((c.first_position + n - 1) as usize),
{
    let snaps = choose|snaps: Seq<MtpSnapshot>|
        {
            &&& #[trigger] passes(c, tokens, snaps)
            &&& snaps.len() >= 1
            &&& covers(c, n as int, snaps.len() - 1)
            &&& snaps[0] == pre
            &&& snaps.last() == post
        };
    let step = rows_per_pass(c.ctx);
    let last = snaps.len() - 1;
    assert(step > 0) by {
        assert(c.ctx.config.hc_mult > 0);
        assert(c.ctx.buffers.max_batch_tokens as int / c.ctx.config.hc_mult as int >= 0) by (nonlinear_arith)
            requires
                c.ctx.config.hc_mult > 0,
        ;
    }
    assert(last >= 1) by (nonlinear_arith)
        requires
            n <= last * step,
            n > 0,
            last >= 0,
            step > 0,
    ;
    lemma_rows_so_far(c, tokens, snaps, last - 1);
    assert(passed(
        pass_of(c, tokens.len() as int, last - 1),
        pass_tokens(c, tokens, last - 1),
        snaps[last - 1],
        snaps[last - 1 + 1],
        Ok(()),
    ));
    assert(last * step == (last - 1) * step + step) by (nonlinear_arith);
    assert((last - 1) * step >= 0) by (nonlinear_arith)
        requires
            last >= 1,
            step > 0,
    ;
}

/// Before the last pass, every pass was full.
proof fn lemma_rows_so_far(c: RowsCall, tokens: Seq<u32>, snaps: Seq<MtpSnapshot>, k: int)
    requires
        passes(c, tokens, snaps),
        rows_per_pass(c.ctx) > 0,
        0 <= k < snaps.len(),
        k * rows_per_pass(c.ctx) < tokens.len(),
    ensures
        snaps[k].seq_len == snaps[0].seq_len + k * rows_per_pass(c.ctx),
    decreases k,
{
    let step = rows_per_pass(c.ctx);
    if k > 0 {
        assert(k * step == (k - 1) * step + step) by (nonlinear_arith);
        lemma_rows_so_far(c, tokens, snaps, k - 1);
        assert(passed(
            pass_of(c, tokens.len() as int, k - 1),
            pass_tokens(c, tokens, k - 1),
            snaps[k - 1],
            snaps[k - 1 + 1],
            Ok(()),
        ));
    }
}

proof fn lemma_pass_conserves(
    p: PassCall,
    tokens: Seq<u32>,
    pre: MtpSnapshot,
    post: MtpSnapshot,
    r: Result<(), MtpError>,
)
    requires
        passed(p, tokens, pre, post, r),
    ensures
        blocks_of(post) == blocks_of(pre),
{
    let needed = blocks_holding(pre.seq_len + p.count);
    if pass_grew(p, pre, post, true) {
        growing_conserves_blocks(pre.free, pre.table, needed, post.free, post.table, true);
    } else if pass_grew(p, pre, post, false) {
        growing_conserves_blocks(pre.free, pre.table, needed, post.free, post.table, false);
    }
}

proof fn lemma_passes_conserve(c: RowsCall, tokens: Seq<u32>, snaps: Seq<MtpSnapshot>, k: int)
    requires
        passes(c, tokens, snaps),
        0 <= k < snaps.len(),
    ensures
        blocks_of(snaps[k]) == blocks_of(snaps[0]),
    decreases k,
{
    if k > 0 {
        lemma_passes_conserve(c, tokens, snaps, k - 1);
        let p = pass_of(c, tokens.len() as int, k - 1);
        let part = pass_tokens(c, tokens, k - 1);
        assert(passed(p, part, snaps[k - 1], snaps[k - 1 + 1], Ok(())));
        lemma_pass_conserves(p, part, snaps[k - 1], snaps[k - 1 + 1], Ok(()));
    }
}

/// Building prompt rows, however it ends, neither loses a block of the head's
/// cache nor makes one up.
pub proof fn building_rows_conserves_blocks(
    c: RowsCall,
    tokens: Seq<u32>,
    pre: MtpSnapshot,
    post: MtpSnapshot,
    r: Result<usize, MtpError>,
)
    requires
        rows_built(c, tokens, pre, post, r),
    ensures
        blocks_of(post) == blocks_of(pre),
{
    if c.flags.prompt_prefill && tokens.len() > 0 && rows_barred(c, pre.seq_len) is None {
        match r {
            Ok(n) => {
                let snaps = choose|snaps: Seq<MtpSnapshot>|
                    {
                        &&& #[trigger] passes(c, tokens, snaps)
                        &&& snaps.len() >= 1
                        &&& covers(c, n as int, snaps.len() - 1)
                        &&& snaps[0] == pre
                        &&& snaps.last() == post
                    };
                lemma_passes_conserve(c, tokens, snaps, snaps.len() - 1);
            },
            Err(e) => {
                let snaps = choose|snaps: Seq<MtpSnapshot>|
                    {
                        &&& #[trigger] passes(c, tokens, snaps)
                        &&& snaps.len() >= 1
                        &&& (snaps.len() - 1) * rows_per_pass(c.ctx) < tokens.len()
                        &&& snaps[0] == pre
                        &&& passed(
                            pass_of(c, tokens.len() as int, snaps.len() - 1),
                            pass_tokens(c, tokens, snaps.len() - 1),
                            snaps.last(),
                            post,
                            Err(e),
                        )
                    };
                lemma_passes_conserve(c, tokens, snaps, snaps.len() - 1);
                lemma_pass_conserves(
                    pass_of(c, tokens.len() as int, snaps.len() - 1),
                    pass_tokens(c, tokens, snaps.len() - 1),
                    snaps.last(),
                    post,
                    Err(e),
                );
            },
        }
    }
}

} // verus!
