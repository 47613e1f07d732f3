//! The forward pass of the block drafter over a whole block.
//!
//! ```text
//!   block    = [anchor, noise, noise, ...]
//!   streams  = expand(embed(block))
//!   per stage: collapse → norm → attention → mix, collapse → norm → experts → mix
//!   dense    = collapse(streams), logits = lm_head · norm(dense)
//!   per row  : logits += markov(previous token), token = arg-max(logits)
//! ```
//!
//! The token of the first row is the draft. Everything else of the block serves
//! its confidence and the rows behind it.

use vstd::multiset::Multiset;
use vstd::prelude::*;

use crate::attention::{DsparkStage, HcSite, HcWeights};
use crate::bits::{le32, le32_all, push_le32, push_le32_all, u16_at, u16_from, u32_at, u32_from};
use crate::buffers::{
    free_ops, given_back, lemma_allocs, lemma_buffers_add, lemma_frees, lemma_ops_added, lemma_quiet_added,
    lemma_quiet_ops, no_frees, quiet, taken,
};
use crate::config::ForwardContext;
use crate::dspark_head::{DsparkKernels, DsparkMainKvCache};
use crate::dspark_stage::{
    gemv_op, push_frees, push_rows_gemv, rows_gemv, stage_attn, stage_attn_steps, stage_scratch_is_given_back,
    StageCall,
};
use crate::gpu::{at, DenseWeight, DevicePtr, F32Bits, GpuError};
use crate::mtp::HcHeadWeights;
use crate::op::{Boundary, FfnKind, Op};
use crate::run::{
    alloc_step, alloc_steps, all_fit, dump_if, go_alloc, go_alloc_all, go_ops, go_put, go_read, push_dump, put_step,
    read_step, steps,
};
use crate::trace::{lemma_ran_prefix, lemma_ran_then, ran, refusal, Event, GpuBackend};

verus! {

/// Why a draft block came to nothing.
#[derive(Clone, Copy, PartialEq, Eq, Structural, Debug)]
pub enum DsparkError {
    Gpu(GpuError),
    /// The first stage has no hyper-connection weights.
    NoHcWeights,
    /// A stage has no latent-attention weights.
    NoMlaWeights { stage: usize },
    /// There is no final collapse.
    NoHcHead,
    /// The ring contents given for a stage could not be read.
    RingUnreadable { stage: usize },
    /// The ring contents given for a stage have the wrong size.
    RingSize { stage: usize, found: usize, expected: usize },
    /// The block input given could not be read.
    MainHiddenUnreadable,
    /// The block input given has the wrong size.
    MainHiddenSize { found: usize, expected: usize },
    /// The state belongs to another proposer.
    InvalidState,
}

/// Contents given from outside, in place of what the drafter would work out.
pub enum InjectFile {
    Absent,
    Unreadable,
    Bytes(Vec<u8>),
}

/// The arguments of a block.
#[derive(Clone, Copy, PartialEq, Eq, Structural, Debug)]
pub struct BlockCall {
    pub kernels: DsparkKernels,
    pub ctx: ForwardContext,
    pub embed_tokens: DenseWeight,
    pub lm_head: DenseWeight,
    pub norm: DenseWeight,
    pub markov_w1: DenseWeight,
    pub markov_w2: DenseWeight,
    pub confidence_proj: DenseWeight,
    pub hc_head: Option<HcHeadWeights>,
    pub ones: DenseWeight,
    pub block_size: usize,
    pub noise_token_id: u32,
    pub nq: u32,
    pub groups: u32,
    pub scale: F32Bits,
    /// Stream count, iterations and epsilon of the first stage.
    pub hc_mult: u32,
    pub sinkhorn: u32,
    pub hc_eps: F32Bits,
    /// The first token of the block.
    pub anchor: u32,
    /// The token that the first row's Markov bias is taken from.
    pub last_token: u32,
    pub position: usize,
    pub main_x: DevicePtr,
    /// What the stages leave is dumped.
    pub dump: bool,
    /// The boundaries within the stages are dumped too.
    pub dump_stages: bool,
    pub stream: u64,
}

impl BlockCall {
    pub open spec fn h(self) -> u32 {
        self.ctx.config.hidden_size as u32
    }

    pub open spec fn block(self) -> u32 {
        self.block_size as u32
    }

    pub open spec fn vocab(self) -> u32 {
        self.ctx.config.vocab_size as u32
    }

    pub open spec fn rank(self) -> u32 {
        self.ctx.config.dspark_markov_rank as u32
    }

    pub open spec fn hidden_bytes(self) -> int {
        self.block() * self.h() * 2
    }

    /// The dump of rows of a stage, where its boundaries are dumped.
    pub open spec fn dumped(self, at: Boundary, index: int, src: DevicePtr) -> Seq<Op> {
        dump_if(self.dump && self.dump_stages, at, index as usize, src, self.block() as int, self.h() as int, false)
    }

    /// The dump of the streams after a stage's site.
    pub open spec fn streams_dumped(self, on: bool, at: Boundary, index: int, src: DevicePtr) -> Seq<Op> {
        dump_if(on, at, index as usize, src, self.block() * self.hc_mult, self.h() as int, true)
    }

    pub open spec fn fits(self) -> bool {
        let b = self.block();
        &&& 1 <= self.block_size <= u32::MAX
        &&& b * self.h() <= u32::MAX
        &&& b * self.hc_mult <= u32::MAX
        &&& b * self.hc_mult * self.h() <= u32::MAX
        &&& b * self.hc_mult * self.hc_mult <= u32::MAX
        &&& b * self.vocab() <= u32::MAX
        &&& self.h() + self.rank() <= u32::MAX
        &&& b * self.h() * 2 <= usize::MAX
        &&& b * self.hc_mult * self.h() * 4 <= usize::MAX
        &&& b * self.hc_mult * 4 <= usize::MAX
        &&& b * self.hc_mult * self.hc_mult * 4 <= usize::MAX
        &&& b * self.vocab() * 2 <= usize::MAX
        &&& b * (self.h() * 2) <= usize::MAX
        &&& b * (self.vocab() * 2) <= usize::MAX
        &&& b * 4 <= usize::MAX
        &&& self.vocab() * 2 <= usize::MAX
        &&& self.rank() * 2 <= usize::MAX
        &&& self.h() * 2 <= usize::MAX
        &&& (self.h() + self.rank()) * 2 <= usize::MAX
        &&& self.position < usize::MAX
        &&& (self.position as u32) + b <= u32::MAX
    }
}

/// Sizes of the working buffers, in the order of their allocation: the two stream
/// buffers, the embedded block, the collapsed rows, the mixing weights, the
/// mixing matrix, the normed rows, and the attention output.
pub open spec fn work_sizes(c: BlockCall) -> Seq<usize> {
    let b = c.block();
    let streams = (b * c.hc_mult * c.h() * 4) as usize;
    let rows = (b * c.h() * 2) as usize;
    seq![
        streams,
        streams,
        rows,
        rows,
        (b * c.hc_mult * 4) as usize,
        (b * c.hc_mult * c.hc_mult * 4) as usize,
        rows,
        rows,
    ]
}

pub open spec fn block_token(c: BlockCall, t: int) -> u32 {
    if t == 0 { c.anchor } else { c.noise_token_id }
}

pub open spec fn embed_op(c: BlockCall, w: Seq<DevicePtr>, t: int) -> Op {
    Op::CopyD2d {
        src: at(c.embed_tokens.weight, block_token(c, t) * (c.h() * 2)),
        dst: at(w[2], t * (c.h() * 2)),
        bytes: (c.h() * 2) as usize,
    }
}

/// The block embedded and copied to every stream.
pub open spec fn embed_ops(c: BlockCall, w: Seq<DevicePtr>) -> Seq<Op> {
    Seq::new(c.block() as nat, |t: int| embed_op(c, w, t)).push(
        Op::HcExpand {
            kernel: c.kernels.hc_expand_k,
            hidden: w[2],
            streams: w[0],
            num_tokens: c.block(),
            hidden_size: c.h(),
            hc_mult: c.hc_mult,
        },
    )
}

/// Positions of the block's rows.
pub open spec fn block_positions(c: BlockCall) -> Seq<u32> {
    Seq::new(c.block() as nat, |t: int| ((c.position as u32) + t) as u32)
}

/// Everything before the stages.
pub open spec fn intro_steps(c: BlockCall, w: Seq<DevicePtr>, bp: DevicePtr, mp: DevicePtr) -> Seq<Event> {
    alloc_steps(work_sizes(c), w) + steps(embed_ops(c, w), c.stream) + seq![
        alloc_step(c.block() * 4, bp),
        put_step(le32_all(block_positions(c)), bp),
        alloc_step(4, mp),
        put_step(le32(c.position as u32), mp),
    ]
}

pub open spec fn hc_pre_op(c: BlockCall, w: Seq<DevicePtr>, streams: DevicePtr, site: HcSite) -> Op {
    Op::HcPre {
        kernel: c.kernels.hc_pre_k,
        streams,
        hc_fn: site.hc_fn,
        hc_scale: site.hc_scale,
        hc_base: site.hc_base,
        y_out: w[3],
        post_out: w[4],
        comb_out: w[5],
        num_tokens: c.block(),
        hidden_size: c.h(),
        hc_mult: c.hc_mult,
        sinkhorn_iters: c.sinkhorn,
        norm_eps: c.ctx.config.rms_norm_eps,
        hc_eps: c.hc_eps,
    }
}

pub open spec fn hc_post_op(c: BlockCall, w: Seq<DevicePtr>, rows: DevicePtr, from: DevicePtr, to: DevicePtr) -> Op {
    Op::HcPost {
        kernel: c.kernels.hc_post_k,
        block_out: rows,
        residual: from,
        post: w[4],
        comb: w[5],
        out: to,
        num_tokens: c.block(),
        hidden_size: c.h(),
        hc_mult: c.hc_mult,
    }
}

pub open spec fn norm_op(c: BlockCall, input: DevicePtr, weight: DenseWeight, output: DevicePtr) -> Op {
    Op::RmsNorm {
        kernel: c.kernels.rms_norm_k,
        input,
        weight,
        output,
        rows: c.block(),
        cols: c.h(),
        eps: c.ctx.config.rms_norm_eps,
    }
}

/// The rows of the ring that hold committed tokens.
pub open spec fn valid_rows(position: int, window: int) -> int {
    if position + 1 < window { position + 1 } else { window }
}

/// The attention of stage `i`.
pub open spec fn stage_call(
    c: BlockCall,
    stage: DsparkStage,
    ring: DsparkMainKvCache,
    window: usize,
    injected: bool,
    index: int,
    w: Seq<DevicePtr>,
    bp: DevicePtr,
    mp: DevicePtr,
) -> StageCall {
    StageCall {
        kernels: c.kernels,
        mla: stage.mla->0,
        ring,
        ones: c.ones,
        ctx: c.ctx,
        block_size: c.block_size,
        nq: c.nq,
        groups: c.groups,
        scale: c.scale,
        attn_in: w[6],
        main_x: c.main_x,
        block_pos: bp,
        main_pos: mp,
        valid_main_len: valid_rows(c.position as int, window as int) as usize as i32,
        main_slot: (c.position as int % window as int) as usize,
        skip_store: injected,
        out: w[7],
        stage: index as usize,
        dump: c.dump && c.dump_stages,
        stream: c.stream,
    }
}

/// Collapse and norm ahead of the attention.
pub open spec fn entry_ops(c: BlockCall, stage: DsparkStage, index: int, w: Seq<DevicePtr>) -> Seq<Op> {
    seq![hc_pre_op(c, w, w[0], stage.hc->0.attn)] + c.dumped(Boundary::HcPre, index, w[3]) + seq![
        norm_op(c, w[3], stage.attn_norm, w[6]),
    ] + c.dumped(Boundary::AttnNorm, index, w[6])
}

/// Mixing the attention in, and the expert block. The streams go from the first
/// buffer to the second and back.
pub open spec fn exit_ops(c: BlockCall, stage: DsparkStage, index: int, w: Seq<DevicePtr>) -> Seq<Op> {
    let inner = c.dump && c.dump_stages;
    seq![hc_post_op(c, w, w[7], w[0], w[1])] + c.streams_dumped(inner, Boundary::AttnHcPost, index, w[1]) + seq![
        hc_pre_op(c, w, w[1], stage.hc->0.ffn),
        norm_op(c, w[3], stage.ffn_norm, w[6]),
    ] + c.dumped(Boundary::FfnNorm, index, w[6]) + seq![
        Op::FfnForwardPrefill {
            ffn: FfnKind::Main,
            layer: index as usize,
            input: w[6],
            tokens: c.block() as usize,
            ctx: c.ctx,
        },
        Op::CopyD2d { src: c.ctx.buffers.moe_output, dst: w[6], bytes: c.hidden_bytes() as usize },
    ] + c.dumped(Boundary::MoeOut, index, w[6]) + seq![hc_post_op(c, w, w[6], w[1], w[0])] + c.streams_dumped(
        c.dump,
        Boundary::StageOut,
        index,
        w[0],
    ) + c.streams_dumped(inner, Boundary::StageEnd, index, w[0])
}

/// Ring contents that were given are uploaded.
pub open spec fn inject_steps(file: InjectFile, ring: DsparkMainKvCache) -> Seq<Event> {
    match file {
        InjectFile::Bytes(v) => seq![put_step(v@, ring.buf)],
        _ => Seq::empty(),
    }
}

/// What keeps stage `i` from running, if anything.
pub open spec fn stage_error(stage: DsparkStage, ring: DsparkMainKvCache, file: InjectFile, i: int) -> Option<DsparkError> {
    match file {
        InjectFile::Unreadable => Some(DsparkError::RingUnreadable { stage: i as usize }),
        InjectFile::Bytes(v) if v@.len() != ring.bytes => Some(
            DsparkError::RingSize { stage: i as usize, found: v@.len() as usize, expected: ring.bytes },
        ),
        _ => if stage.mla is None {
            Some(DsparkError::NoMlaWeights { stage: i as usize })
        } else {
            None
        },
    }
}

/// The program of a stage, as far as it gets.
pub open spec fn one_stage_steps(
    c: BlockCall,
    stage: DsparkStage,
    ring: DsparkMainKvCache,
    window: usize,
    file: InjectFile,
    index: int,
    w: Seq<DevicePtr>,
    bp: DevicePtr,
    mp: DevicePtr,
    p: Seq<DevicePtr>,
) -> Seq<Event> {
    let entry = steps(entry_ops(c, stage, index, w), c.stream);
    match stage_error(stage, ring, file, index) {
        Some(DsparkError::NoMlaWeights { .. }) => entry + inject_steps(file, ring),
        Some(_) => entry,
        None => entry + inject_steps(file, ring) + stage_attn_steps(
            stage_call(c, stage, ring, window, file is Bytes, index, w, bp, mp),
            p,
        ) + steps(exit_ops(c, stage, index, w), c.stream),
    }
}

/// The sizes of a stage fit.
pub open spec fn stage_fits(c: BlockCall, stage: DsparkStage, ring: DsparkMainKvCache, window: usize) -> bool {
    stage.mla is Some ==> stage_call(
        c,
        stage,
        ring,
        window,
        false,
        0,
        Seq::empty(),
        DevicePtr(0),
        DevicePtr(0),
    ).fits()
}

fn make_hc_pre(c: &BlockCall, w: &Vec<DevicePtr>, streams: DevicePtr, site: &HcSite) -> (r: Op)
    requires
        w@.len() == 8,
    ensures
        r == hc_pre_op(*c, w@, streams, *site),
{
    Op::HcPre {
        kernel: c.kernels.hc_pre_k,
        streams,
        hc_fn: site.hc_fn,
        hc_scale: site.hc_scale,
        hc_base: site.hc_base,
        y_out: w[3],
        post_out: w[4],
        comb_out: w[5],
        num_tokens: c.block_size as u32,
        hidden_size: c.ctx.config.hidden_size as u32,
        hc_mult: c.hc_mult,
        sinkhorn_iters: c.sinkhorn,
        norm_eps: c.ctx.config.rms_norm_eps,
        hc_eps: c.hc_eps,
    }
}

fn make_hc_post(c: &BlockCall, w: &Vec<DevicePtr>, rows: DevicePtr, from: DevicePtr, to: DevicePtr) -> (r: Op)
    requires
        w@.len() == 8,
    ensures
        r == hc_post_op(*c, w@, rows, from, to),
{
    Op::HcPost {
        kernel: c.kernels.hc_post_k,
        block_out: rows,
        residual: from,
        post: w[4],
        comb: w[5],
        out: to,
        num_tokens: c.block_size as u32,
        hidden_size: c.ctx.config.hidden_size as u32,
        hc_mult: c.hc_mult,
    }
}

fn make_norm(c: &BlockCall, input: DevicePtr, weight: DenseWeight, output: DevicePtr) -> (r: Op)
    ensures
        r == norm_op(*c, input, weight, output),
{
    Op::RmsNorm {
        kernel: c.kernels.rms_norm_k,
        input,
        weight,
        output,
        rows: c.block_size as u32,
        cols: c.ctx.config.hidden_size as u32,
        eps: c.ctx.config.rms_norm_eps,
    }
}

fn build_entry(c: &BlockCall, stage: &DsparkStage, hc: &HcWeights, index: usize, w: &Vec<DevicePtr>) -> (r: Vec<Op>)
    requires
        w@.len() == 8,
        stage.hc == Some(*hc),
    ensures
        r@ == entry_ops(*c, *stage, index as int, w@),
        all_fit(r@),
{
    let b: u32 = c.block_size as u32;
    let h: u32 = c.ctx.config.hidden_size as u32;
    let inner = c.dump && c.dump_stages;
    let mut r = vec![make_hc_pre(c, w, w[0], &hc.attn)];
    push_dump(&mut r, inner, Boundary::HcPre, index, w[3], b, h, false);
    r.push(make_norm(c, w[3], stage.attn_norm, w[6]));
    push_dump(&mut r, inner, Boundary::AttnNorm, index, w[6], b, h, false);
    assert(r@ =~= entry_ops(*c, *stage, index as int, w@));
    r
}

fn build_exit(c: &BlockCall, stage: &DsparkStage, hc: &HcWeights, index: usize, w: &Vec<DevicePtr>) -> (r: Vec<Op>)
    requires
        c.fits(),
        w@.len() == 8,
        stage.hc == Some(*hc),
    ensures
        r@ == exit_ops(*c, *stage, index as int, w@),
        all_fit(r@),
{
    let b: u32 = c.block_size as u32;
    let h: u32 = c.ctx.config.hidden_size as u32;
    let rows: u32 = b * c.hc_mult;
    let inner = c.dump && c.dump_stages;
    let mut r = vec![make_hc_post(c, w, w[7], w[0], w[1])];
    push_dump(&mut r, inner, Boundary::AttnHcPost, index, w[1], rows, h, true);
    r.push(make_hc_pre(c, w, w[1], &hc.ffn));
    r.push(make_norm(c, w[3], stage.ffn_norm, w[6]));
    push_dump(&mut r, inner, Boundary::FfnNorm, index, w[6], b, h, false);
    r.push(Op::FfnForwardPrefill { ffn: FfnKind::Main, layer: index, input: w[6], tokens: b as usize, ctx: c.ctx });
    r.push(Op::CopyD2d { src: c.ctx.buffers.moe_output, dst: w[6], bytes: (b * h) as usize * 2 });
    push_dump(&mut r, inner, Boundary::MoeOut, index, w[6], b, h, false);
    r.push(make_hc_post(c, w, w[6], w[1], w[0]));
    push_dump(&mut r, c.dump, Boundary::StageOut, index, w[0], rows, h, true);
    push_dump(&mut r, inner, Boundary::StageEnd, index, w[0], rows, h, true);
    assert(r@ =~= exit_ops(*c, *stage, index as int, w@));
    r
}

/// What running one stage does and says.
pub open spec fn stage_outcome(
    c: BlockCall,
    stage: DsparkStage,
    ring: DsparkMainKvCache,
    window: usize,
    file: InjectFile,
    index: int,
    w: Seq<DevicePtr>,
    bp: DevicePtr,
    mp: DevicePtr,
    pre: Seq<Event>,
    post: Seq<Event>,
    r: Result<(), DsparkError>,
) -> bool {
    match r {
        Ok(_) => stage_error(stage, ring, file, index) is None && exists|p: Seq<DevicePtr>|
            p.len() == 13 && ran(
                pre,
                #[trigger] one_stage_steps(c, stage, ring, window, file, index, w, bp, mp, p),
                post,
                None,
            ),
        Err(DsparkError::Gpu(e)) => exists|p: Seq<DevicePtr>|
            p.len() == 13 && ran(
                pre,
                #[trigger] one_stage_steps(c, stage, ring, window, file, index, w, bp, mp, p),
                post,
                Some(e),
            ),
        Err(x) => stage_error(stage, ring, file, index) == Some(x) && ran(
            pre,
            one_stage_steps(c, stage, ring, window, file, index, w, bp, mp, Seq::empty()),
            post,
            None,
        ),
    }
}

/// Runs one stage.
fn run_stage<G: GpuBackend>(
    gpu: &mut G,
    c: &BlockCall,
    stage: &DsparkStage,
    ring: &DsparkMainKvCache,
    window: usize,
    file: &InjectFile,
    index: usize,
    w: &Vec<DevicePtr>,
    bp: DevicePtr,
    mp: DevicePtr,
) -> (r: Result<(), DsparkError>)
    requires
        c.fits(),
        window > 0,
        w@.len() == 8,
        stage.hc is Some,
        stage_fits(*c, *stage, *ring, window),
    ensures
        stage_outcome(
            *c,
            *stage,
            *ring,
            window,
            *file,
            index as int,
            w@,
            bp,
            mp,
            old(gpu).trace(),
            final(gpu).trace(),
            r,
        ),
{
    let hc = stage.hc.unwrap();
    let ghost pre = gpu.trace();
    let ghost s0 = Seq::<Event>::empty();
    assert(pre =~= pre + s0);
    let ghost none = Seq::new(13, |j: int| DevicePtr(0));
    let ghost err = stage_error(*stage, *ring, *file, index as int);
    let entry = build_entry(c, stage, &hc, index, w);
    let ghost s1 = s0 + steps(entry@, c.stream);
    if let Err(e) = go_ops(gpu, &entry, c.stream, Ghost(pre), Ghost(s0)) {
        proof {
            let all = one_stage_steps(*c, *stage, *ring, window, *file, index as int, w@, bp, mp, none);
            assert(all.take(s1.len() as int) =~= s1);
            lemma_ran_prefix(pre, s1, all, gpu.trace(), e);
        }
        return Err(DsparkError::Gpu(e));
    }
    let mut injected = false;
    match file {
        InjectFile::Absent => {},
        InjectFile::Unreadable => {
            proof {
                assert(one_stage_steps(*c, *stage, *ring, window, *file, index as int, w@, bp, mp, Seq::empty()) =~= s1);
            }
            return Err(DsparkError::RingUnreadable { stage: index });
        },
        InjectFile::Bytes(v) => {
            if v.len() != ring.bytes {
                proof {
                    assert(one_stage_steps(*c, *stage, *ring, window, *file, index as int, w@, bp, mp, Seq::empty())
                        =~= s1);
                }
                return Err(DsparkError::RingSize { stage: index, found: v.len(), expected: ring.bytes });
            }
            if let Err(e) = go_put(gpu, v, ring.buf, Ghost(pre), Ghost(s1)) {
                proof {
                    let s2 = s1 + seq![put_step(v@, ring.buf)];
                    let all = one_stage_steps(*c, *stage, *ring, window, *file, index as int, w@, bp, mp, none);
                    assert(all.take(s2.len() as int) =~= s2);
                    lemma_ran_prefix(pre, s2, all, gpu.trace(), e);
                }
                return Err(DsparkError::Gpu(e));
            }
            injected = true;
        },
    }
    let ghost s2 = s1 + inject_steps(*file, *ring);
    assert(ran(pre, s2, gpu.trace(), None)) by {
        if !injected {
            assert(s2 =~= s1);
        }
    }
    let mla = match stage.mla {
        Some(m) => m,
        None => {
            proof {
                assert(one_stage_steps(*c, *stage, *ring, window, *file, index as int, w@, bp, mp, Seq::empty()) =~= s2);
            }
            return Err(DsparkError::NoMlaWeights { stage: index });
        },
    };
    let valid: usize = if c.position + 1 < window { c.position + 1 } else { window };
    let call = StageCall {
        kernels: c.kernels,
        mla,
        ring: *ring,
        ones: c.ones,
        ctx: c.ctx,
        block_size: c.block_size,
        nq: c.nq,
        groups: c.groups,
        scale: c.scale,
        attn_in: w[6],
        main_x: c.main_x,
        block_pos: bp,
        main_pos: mp,
        valid_main_len: valid as i32,
        main_slot: c.position % window,
        skip_store: injected,
        out: w[7],
        stage: index,
        dump: c.dump && c.dump_stages,
        stream: c.stream,
    };
    assert(call == stage_call(*c, *stage, *ring, window, *file is Bytes, index as int, w@, bp, mp));
    let ghost mid = gpu.trace();
    let attended = stage_attn(gpu, &call);
    let ghost p = choose|p: Seq<DevicePtr>|
        p.len() == 13 && ran(mid, #[trigger] stage_attn_steps(call, p), gpu.trace(), refusal(attended));
    let ghost s3 = s2 + stage_attn_steps(call, p);
    let ghost all = one_stage_steps(*c, *stage, *ring, window, *file, index as int, w@, bp, mp, p);
    proof {
        lemma_ran_then(pre, s2, mid, stage_attn_steps(call, p), gpu.trace(), refusal(attended));
    }
    if let Err(e) = attended {
        proof {
            assert(all.take(s3.len() as int) =~= s3);
            lemma_ran_prefix(pre, s3, all, gpu.trace(), e);
        }
        return Err(DsparkError::Gpu(e));
    }
    let exit = build_exit(c, stage, &hc, index, w);
    let r = go_ops(gpu, &exit, c.stream, Ghost(pre), Ghost(s3));
    assert(all =~= s3 + steps(exit@, c.stream));
    match r {
        Ok(_) => Ok(()),
        Err(e) => Err(DsparkError::Gpu(e)),
    }
}

// ── all stages ──
/// Stages, their rings, and ring contents given from outside.
pub struct StageSet<'a> {
    pub stages: &'a Vec<DsparkStage>,
    pub rings: &'a Vec<DsparkMainKvCache>,
    pub files: &'a Vec<InjectFile>,
}

impl<'a> StageSet<'a> {
    /// There is a ring and a file slot per stage, every stage has
    /// hyper-connection weights, and all rings have the first one's window.
    pub open spec fn ready(self, c: BlockCall) -> bool {
        &&& self.stages@.len() >= 1
        &&& self.rings@.len() == self.stages@.len()
        &&& self.files@.len() == self.stages@.len()
        &&& self.window() > 0
        &&& forall|i: int|
            0 <= i < self.stages@.len() ==> (#[trigger] self.stages@[i]).hc is Some && stage_fits(
                c,
                self.stages@[i],
                self.rings@[i],
                self.window(),
            )
    }

    pub open spec fn window(self) -> usize {
        self.rings@[0].window
    }

    pub open spec fn error_at(self, i: int) -> Option<DsparkError> {
        stage_error(self.stages@[i], self.rings@[i], self.files@[i], i)
    }
}

/// The stages `0 .. ps.len()`, each over its scratch.
pub open spec fn stages_steps(
    c: BlockCall,
    set: StageSet,
    w: Seq<DevicePtr>,
    bp: DevicePtr,
    mp: DevicePtr,
    ps: Seq<Seq<DevicePtr>>,
) -> Seq<Event>
    decreases ps.len(),
{
    if ps.len() == 0 {
        Seq::empty()
    } else {
        let i = ps.len() - 1;
        stages_steps(c, set, w, bp, mp, ps.drop_last()) + one_stage_steps(
            c,
            set.stages@[i],
            set.rings@[i],
            set.window(),
            set.files@[i],
            i,
            w,
            bp,
            mp,
            ps.last(),
        )
    }
}

/// Running the first `n` stages meets no stage that cannot run, except perhaps
/// the last of them.
pub open spec fn runs_through(set: StageSet, n: int) -> bool {
    0 <= n <= set.stages@.len() && forall|i: int| 0 <= i < n - 1 ==> #[trigger] set.error_at(i) is None
}

/// A stage's scratch is thirteen buffers.
pub open spec fn scratch_fits(ps: Seq<Seq<DevicePtr>>) -> bool {
    forall|i: int| 0 <= i < ps.len() ==> (#[trigger] ps[i]).len() == 13
}

/// What running the stages does and says.
pub open spec fn stages_outcome(
    c: BlockCall,
    set: StageSet,
    w: Seq<DevicePtr>,
    bp: DevicePtr,
    mp: DevicePtr,
    pre: Seq<Event>,
    post: Seq<Event>,
    r: Result<(), DsparkError>,
) -> bool {
    match r {
        Ok(_) => {
            &&& forall|i: int| 0 <= i < set.stages@.len() ==> #[trigger] set.error_at(i) is None
            &&& exists|ps: Seq<Seq<DevicePtr>>|
                ps.len() == set.stages@.len() && scratch_fits(ps) && ran(
                    pre,
                    #[trigger] stages_steps(c, set, w, bp, mp, ps),
                    post,
                    None,
                )
        },
        Err(DsparkError::Gpu(e)) => exists|ps: Seq<Seq<DevicePtr>>|
            runs_through(set, ps.len() as int) && scratch_fits(ps) && ran(
                pre,
                #[trigger] stages_steps(c, set, w, bp, mp, ps),
                post,
                Some(e),
            ),
        Err(x) => exists|ps: Seq<Seq<DevicePtr>>|
            {
                &&& ps.len() >= 1
                &&& runs_through(set, ps.len() as int)
                &&& scratch_fits(ps)
                &&& set.error_at(ps.len() - 1) == Some(x)
                &&& ran(pre, #[trigger] stages_steps(c, set, w, bp, mp, ps), post, None)
            },
    }
}

/// Runs the stages in order.
fn run_stages<G: GpuBackend>(
    gpu: &mut G,
    c: &BlockCall,
    set: &StageSet,
    w: &Vec<DevicePtr>,
    bp: DevicePtr,
    mp: DevicePtr,
) -> (r: Result<(), DsparkError>)
    requires
        c.fits(),
        w@.len() == 8,
        set.ready(*c),
    ensures
        stages_outcome(*c, *set, w@, bp, mp, old(gpu).trace(), final(gpu).trace(), r),
{
    let ghost pre = gpu.trace();
    let window: usize = set.rings[0].window;
    let n: usize = set.stages.len();
    let ghost mut ps: Seq<Seq<DevicePtr>> = Seq::empty();
    let mut i: usize = 0;
    assert(pre =~= pre + stages_steps(*c, *set, w@, bp, mp, ps));
    while i < n
        invariant
            i <= n,
            n == set.stages@.len(),
            window == set.window(),
            c.fits(),
            w@.len() == 8,
            set.ready(*c),
            pre == old(gpu).trace(),
            ps.len() == i,
            scratch_fits(ps),
            forall|j: int| 0 <= j < i ==> #[trigger] set.error_at(j) is None,
            ran(pre, stages_steps(*c, *set, w@, bp, mp, ps), gpu.trace(), None),
        decreases n - i,
    {
        let ghost mid = gpu.trace();
        let ghost k = i as int;
        let stage = &set.stages[i];
        let ring = &set.rings[i];
        let file = &set.files[i];
        assert(set.stages@[k].hc is Some);
        let r = run_stage(gpu, c, stage, ring, window, file, i, w, bp, mp);
        match r {
            Ok(_) => {
                proof {
                    let p = choose|p: Seq<DevicePtr>|
                        p.len() == 13 && ran(
                            mid,
                            #[trigger] one_stage_steps(*c, *stage, *ring, window, *file, k, w@, bp, mp, p),
                            gpu.trace(),
                            None,
                        );
                    let next = ps.push(p);
                    assert(next.drop_last() =~= ps);
                    lemma_ran_then(
                        pre,
                        stages_steps(*c, *set, w@, bp, mp, ps),
                        mid,
                        one_stage_steps(*c, *stage, *ring, window, *file, k, w@, bp, mp, p),
                        gpu.trace(),
                        None,
                    );
                    assert(set.error_at(k) is None);
                    ps = next;
                }
                i += 1;
            },
            Err(x) => {
                proof {
                    match x {
                        DsparkError::Gpu(e) => {
                            let p = choose|p: Seq<DevicePtr>|
                                p.len() == 13 && ran(
                                    mid,
                                    #[trigger] one_stage_steps(*c, *stage, *ring, window, *file, k, w@, bp, mp, p),
                                    gpu.trace(),
                                    Some(e),
                                );
                            let next = ps.push(p);
                            assert(next.drop_last() =~= ps);
                            lemma_ran_then(
                                pre,
                                stages_steps(*c, *set, w@, bp, mp, ps),
                                mid,
                                one_stage_steps(*c, *stage, *ring, window, *file, k, w@, bp, mp, p),
                                gpu.trace(),
                                Some(e),
                            );
                            assert(runs_through(*set, next.len() as int));
                            assert(ran(pre, stages_steps(*c, *set, w@, bp, mp, next), gpu.trace(), Some(e)));
                        },
                        _ => {
                            let next = ps.push(Seq::new(13, |j: int| DevicePtr(0)));
                            assert(next.drop_last() =~= ps);
                            assert(one_stage_steps(*c, *stage, *ring, window, *file, k, w@, bp, mp, next.last())
                                == one_stage_steps(*c, *stage, *ring, window, *file, k, w@, bp, mp, Seq::empty()));
                            lemma_ran_then(
                                pre,
                                stages_steps(*c, *set, w@, bp, mp, ps),
                                mid,
                                one_stage_steps(*c, *stage, *ring, window, *file, k, w@, bp, mp, Seq::empty()),
                                gpu.trace(),
                                None,
                            );
                            assert(runs_through(*set, next.len() as int));
                            assert(set.error_at(next.len() - 1) == Some(x));
                            assert(ran(pre, stages_steps(*c, *set, w@, bp, mp, next), gpu.trace(), None));
                        },
                    }
                }
                return Err(x);
            },
        }
    }
    Ok(())
}

// ── before the stages ──
fn build_work_sizes(c: &BlockCall) -> (r: Vec<usize>)
    requires
        c.fits(),
    ensures
        r@ == work_sizes(*c),
{
    let b: u32 = c.block_size as u32;
    let h: u32 = c.ctx.config.hidden_size as u32;
    let streams: usize = (b * c.hc_mult * h) as usize * 4;
    let rows: usize = (b * h) as usize * 2;
    let r = vec![
        streams,
        streams,
        rows,
        rows,
        (b * c.hc_mult) as usize * 4,
        (b * c.hc_mult * c.hc_mult) as usize * 4,
        rows,
        rows,
    ];
    assert(r@ =~= work_sizes(*c));
    r
}

fn build_embed(c: &BlockCall, w: &Vec<DevicePtr>) -> (r: Vec<Op>)
    requires
        c.fits(),
        w@.len() == 8,
    ensures
        r@ == embed_ops(*c, w@),
        all_fit(r@),
{
    let h: u32 = c.ctx.config.hidden_size as u32;
    let row: usize = h as usize * 2;
    let n: usize = c.block_size as u32 as usize;
    let ghost rows = Seq::new(c.block() as nat, |t: int| embed_op(*c, w@, t));
    let mut ops: Vec<Op> = Vec::new();
    let mut t: usize = 0;
    assert(ops@ =~= rows.take(0));
    while t < n
        invariant
            t <= n,
            n == c.block(),
            row == c.h() * 2,
            c.fits(),
            w@.len() == 8,
            rows == Seq::new(c.block() as nat, |t: int| embed_op(*c, w@, t)),
            all_fit(ops@),
            ops@ == rows.take(t as int),
        decreases n - t,
    {
        let tok: u32 = if t == 0 { c.anchor } else { c.noise_token_id };
        assert(t * row <= n * row) by (nonlinear_arith)
            requires
                t < n,
                row >= 0,
        ;
        ops.push(
            Op::CopyD2d {
                src: c.embed_tokens.weight.row(tok, row),
                dst: w[2].offset(t * row),
                bytes: row,
            },
        );
        t += 1;
        assert(ops@ =~= rows.take(t as int));
    }
    assert(rows.take(t as int) =~= rows);
    ops.push(
        Op::HcExpand {
            kernel: c.kernels.hc_expand_k,
            hidden: w[2],
            streams: w[0],
            num_tokens: c.block_size as u32,
            hidden_size: h,
            hc_mult: c.hc_mult,
        },
    );
    assert(ops@ =~= embed_ops(*c, w@));
    ops
}

fn build_positions(c: &BlockCall) -> (r: Vec<u8>)
    requires
        c.fits(),
    ensures
        r@ == le32_all(block_positions(*c)),
{
    let first: u32 = c.position as u32;
    let n: u32 = c.block_size as u32;
    let mut pos: Vec<u32> = Vec::new();
    let mut t: u32 = 0;
    assert(pos@ =~= block_positions(*c).take(0));
    while t < n
        invariant
            t <= n,
            n == c.block(),
            first == c.position as u32,
            first + n <= u32::MAX,
            pos@ == block_positions(*c).take(t as int),
        decreases n - t,
    {
        pos.push(first + t);
        t += 1;
        assert(pos@ =~= block_positions(*c).take(t as int));
    }
    assert(pos@ =~= block_positions(*c));
    let mut r: Vec<u8> = Vec::new();
    push_le32_all(&mut r, pos.as_slice());
    assert(r@ =~= le32_all(block_positions(*c)));
    r
}

/// Allocates and fills the working buffers. Gives back the working buffers and
/// the places of the block's and the main row's positions.
fn intro<G: GpuBackend>(gpu: &mut G, c: &BlockCall) -> (r: Result<(Vec<DevicePtr>, DevicePtr, DevicePtr), GpuError>)
    requires
        c.fits(),
    ensures
        match r {
            Ok(p) => p.0@.len() == 8 && ran(
                old(gpu).trace(),
                intro_steps(*c, p.0@, p.1, p.2),
                final(gpu).trace(),
                None,
            ),
            Err(e) => exists|w: Seq<DevicePtr>, bp: DevicePtr, mp: DevicePtr|
                w.len() == 8 && ran(
                    old(gpu).trace(),
                    #[trigger] intro_steps(*c, w, bp, mp),
                    final(gpu).trace(),
                    Some(e),
                ),
        },
{
    let ghost pre = gpu.trace();
    let ghost s0 = Seq::<Event>::empty();
    let ghost null = DevicePtr(0);
    assert(pre =~= pre + s0);
    let sizes = build_work_sizes(c);
    let w = match go_alloc_all(gpu, &sizes, Ghost(pre), Ghost(s0)) {
        Ok(w) => w,
        Err(e) => {
            proof {
                let w = choose|w: Seq<DevicePtr>|
                    w.len() == sizes@.len() && ran(pre, s0 + #[trigger] alloc_steps(sizes@, w), gpu.trace(), Some(e));
                let s1 = s0 + alloc_steps(sizes@, w);
                let all = intro_steps(*c, w, null, null);
                assert(all.take(s1.len() as int) =~= s1);
                lemma_ran_prefix(pre, s1, all, gpu.trace(), e);
            }
            return Err(e);
        },
    };
    let ghost s1 = s0 + alloc_steps(sizes@, w@);
    let ops = build_embed(c, &w);
    let ghost s2 = s1 + steps(ops@, c.stream);
    if let Err(e) = go_ops(gpu, &ops, c.stream, Ghost(pre), Ghost(s1)) {
        proof {
            let all = intro_steps(*c, w@, null, null);
            assert(all.take(s2.len() as int) =~= s2);
            lemma_ran_prefix(pre, s2, all, gpu.trace(), e);
        }
        return Err(e);
    }
    let b: usize = c.block_size as u32 as usize;
    let bp = match go_alloc(gpu, b * 4, Ghost(pre), Ghost(s2)) {
        Ok(p) => p,
        Err(e) => {
            proof {
                let s3 = s2 + seq![alloc_step(b * 4, null)];
                let all = intro_steps(*c, w@, null, null);
                assert(all.take(s3.len() as int) =~= s3);
                lemma_ran_prefix(pre, s3, all, gpu.trace(), e);
            }
            return Err(e);
        },
    };
    let ghost s3 = s2 + seq![alloc_step(b * 4, bp)];
    let positions = build_positions(c);
    let ghost s4 = s3 + seq![put_step(positions@, bp)];
    if let Err(e) = go_put(gpu, &positions, bp, Ghost(pre), Ghost(s3)) {
        proof {
            let all = intro_steps(*c, w@, bp, null);
            assert(all.take(s4.len() as int) =~= s4);
            lemma_ran_prefix(pre, s4, all, gpu.trace(), e);
        }
        return Err(e);
    }
    let mp = match go_alloc(gpu, 4, Ghost(pre), Ghost(s4)) {
        Ok(p) => p,
        Err(e) => {
            proof {
                let s5 = s4 + seq![alloc_step(4, null)];
                let all = intro_steps(*c, w@, bp, null);
                assert(all.take(s5.len() as int) =~= s5);
                lemma_ran_prefix(pre, s5, all, gpu.trace(), e);
            }
            return Err(e);
        },
    };
    let ghost s5 = s4 + seq![alloc_step(4, mp)];
    let mut main: Vec<u8> = Vec::new();
    push_le32(&mut main, c.position as u32);
    assert(main@ =~= le32(c.position as u32));
    let r = go_put(gpu, &main, mp, Ghost(pre), Ghost(s5));
    assert(intro_steps(*c, w@, bp, mp) =~= s5 + seq![put_step(main@, mp)]);
    match r {
        Ok(_) => Ok((w, bp, mp)),
        Err(e) => Err(e),
    }
}

// ── after the stages ──
/// Sizes of the buffers of the head, in the order of their allocation: the
/// collapsed rows, their norm, the logits, the Markov row of the current token
/// and that of the first, the Markov logits, the arg-max, the confidence
/// features, and the confidence.
pub open spec fn head_sizes(c: BlockCall) -> Seq<usize> {
    let rows = (c.block() * c.h() * 2) as usize;
    seq![
        rows,
        rows,
        (c.block() * c.vocab() * 2) as usize,
        (c.rank() * 2) as usize,
        (c.rank() * 2) as usize,
        (c.vocab() * 2) as usize,
        4usize,
        ((c.h() + c.rank()) * 2) as usize,
        2usize,
    ]
}

/// Collapse, norm and logits of every row.
pub open spec fn logits_ops(c: BlockCall, w: Seq<DevicePtr>, p: Seq<DevicePtr>) -> Seq<Op> {
    let head = c.hc_head->0;
    seq![
        Op::HcHead {
            kernel: c.kernels.hc_head_k,
            streams: w[0],
            head_fn: head.hc_fn,
            head_scale: head.hc_scale,
            head_base: head.hc_base,
            y_out: p[0],
            num_tokens: c.block(),
            hidden_size: c.h(),
            hc_mult: c.hc_mult,
            norm_eps: c.ctx.config.rms_norm_eps,
            hc_eps: c.hc_eps,
        },
        norm_op(c, p[0], c.norm, p[1]),
    ] + rows_gemv(
        c.kernels.dense_gemv_k,
        p[1],
        c.h() * 2,
        c.lm_head,
        p[2],
        c.vocab() * 2,
        c.vocab() as int,
        c.h() as int,
        c.block() as nat,
    )
}

/// Biasing the logits of row `row` by the token before it, and picking.
pub open spec fn markov_ops(c: BlockCall, p: Seq<DevicePtr>, row: int, prev: u32) -> Seq<Op> {
    let logits = at(p[2], row * (c.vocab() * 2));
    let keep = if row == 0 {
        seq![Op::CopyD2d { src: p[3], dst: p[4], bytes: (c.rank() * 2) as usize }]
    } else {
        Seq::empty()
    };
    seq![
        Op::CopyD2d {
            src: at(c.markov_w1.weight, prev * (c.rank() * 2)),
            dst: p[3],
            bytes: (c.rank() * 2) as usize,
        },
    ] + keep + seq![
        gemv_op(c.kernels.dense_gemv_k, p[3], c.markov_w2, p[5], c.vocab() as int, c.rank() as int),
        Op::ResidualAdd { kernel: c.kernels.residual_add_k, dst: logits, src: p[5], n: c.vocab() },
        Op::ArgmaxBf16 { kernel: c.kernels.argmax_k, logits, out: p[6], n: c.vocab() },
        Op::Synchronize,
    ]
}

/// The token before row `row`, given the picks so far.
pub open spec fn prev_token(c: BlockCall, picks: Seq<Seq<u8>>, row: int) -> u32 {
    if row == 0 { c.last_token } else { u32_at(picks[row - 1], 0) }
}

/// The rows picked one after the other, each biased by the pick before it.
pub open spec fn picks_steps(c: BlockCall, p: Seq<DevicePtr>, picks: Seq<Seq<u8>>) -> Seq<Event>
    decreases picks.len(),
{
    if picks.len() == 0 {
        Seq::empty()
    } else {
        let row = picks.len() - 1;
        picks_steps(c, p, picks.drop_last()) + steps(markov_ops(c, p, row, prev_token(c, picks, row)), c.stream) + seq![
            read_step(p[6], 4, picks.last()),
        ]
    }
}

/// The confidence of the first row: a product over its hidden row and its Markov
/// row.
pub open spec fn confidence_ops(c: BlockCall, p: Seq<DevicePtr>) -> Seq<Op> {
    seq![
        Op::CopyD2d { src: p[0], dst: p[7], bytes: (c.h() * 2) as usize },
        Op::CopyD2d { src: p[4], dst: at(p[7], c.h() * 2), bytes: (c.rank() * 2) as usize },
        gemv_op(c.kernels.dense_gemv_k, p[7], c.confidence_proj, p[8], 1, c.h() + c.rank()),
        Op::Synchronize,
    ]
}

/// All buffers of the pass, in the order in which they are given back.
pub open spec fn all_buffers(w: Seq<DevicePtr>, bp: DevicePtr, mp: DevicePtr, p: Seq<DevicePtr>) -> Seq<DevicePtr> {
    w + seq![bp, mp] + p
}

/// Everything after the stages.
pub open spec fn tail_steps(
    c: BlockCall,
    w: Seq<DevicePtr>,
    bp: DevicePtr,
    mp: DevicePtr,
    p: Seq<DevicePtr>,
    picks: Seq<Seq<u8>>,
    conf: Seq<u8>,
) -> Seq<Event> {
    alloc_steps(head_sizes(c), p) + steps(logits_ops(c, w, p), c.stream) + picks_steps(c, p, picks) + steps(
        confidence_ops(c, p),
        c.stream,
    ) + seq![read_step(p[8], 2, conf)] + steps(free_ops(all_buffers(w, bp, mp, p)), c.stream)
}

fn build_head_sizes(c: &BlockCall) -> (r: Vec<usize>)
    requires
        c.fits(),
    ensures
        r@ == head_sizes(*c),
{
    let b: u32 = c.block_size as u32;
    let h: u32 = c.ctx.config.hidden_size as u32;
    let vocab: u32 = c.ctx.config.vocab_size as u32;
    let rank: u32 = c.ctx.config.dspark_markov_rank as u32;
    let rows: usize = (b * h) as usize * 2;
    let r = vec![
        rows,
        rows,
        (b * vocab) as usize * 2,
        rank as usize * 2,
        rank as usize * 2,
        vocab as usize * 2,
        4usize,
        (h as usize + rank as usize) * 2,
        2usize,
    ];
    assert(r@ =~= head_sizes(*c));
    r
}

fn build_logits(c: &BlockCall, head: &HcHeadWeights, w: &Vec<DevicePtr>, p: &Vec<DevicePtr>) -> (r: Vec<Op>)
    requires
        c.fits(),
        c.hc_head == Some(*head),
        w@.len() == 8,
        p@.len() == 9,
    ensures
        r@ == logits_ops(*c, w@, p@),
        all_fit(r@),
{
    let h: u32 = c.ctx.config.hidden_size as u32;
    let vocab: u32 = c.ctx.config.vocab_size as u32;
    let mut ops = vec![
        Op::HcHead {
            kernel: c.kernels.hc_head_k,
            streams: w[0],
            head_fn: head.hc_fn,
            head_scale: head.hc_scale,
            head_base: head.hc_base,
            y_out: p[0],
            num_tokens: c.block_size as u32,
            hidden_size: h,
            hc_mult: c.hc_mult,
            norm_eps: c.ctx.config.rms_norm_eps,
            hc_eps: c.hc_eps,
        },
        make_norm(c, p[0], c.norm, p[1]),
    ];
    push_rows_gemv(
        &mut ops,
        c.kernels.dense_gemv_k,
        p[1],
        h as usize * 2,
        c.lm_head,
        p[2],
        vocab as usize * 2,
        vocab,
        h,
        c.block_size as u32 as usize,
    );
    assert(ops@ =~= logits_ops(*c, w@, p@));
    ops
}

fn build_markov(c: &BlockCall, p: &Vec<DevicePtr>, row: usize, prev: u32) -> (r: Vec<Op>)
    requires
        c.fits(),
        p@.len() == 9,
        row < c.block(),
    ensures
        r@ == markov_ops(*c, p@, row as int, prev),
        all_fit(r@),
{
    let vocab: u32 = c.ctx.config.vocab_size as u32;
    let rank: u32 = c.ctx.config.dspark_markov_rank as u32;
    let rank_bytes: usize = rank as usize * 2;
    let vocab_bytes: usize = vocab as usize * 2;
    assert(row * vocab_bytes <= c.block() * vocab_bytes) by (nonlinear_arith)
        requires
            row < c.block(),
            vocab_bytes >= 0,
    ;
    let logits = p[2].offset(row * vocab_bytes);
    let mut ops = vec![
        Op::CopyD2d { src: c.markov_w1.weight.row(prev, rank_bytes), dst: p[3], bytes: rank_bytes },
    ];
    if row == 0 {
        ops.push(Op::CopyD2d { src: p[3], dst: p[4], bytes: rank_bytes });
    }
    ops.push(
        Op::DenseGemv {
            kernel: c.kernels.dense_gemv_k,
            input: p[3],
            weight: c.markov_w2,
            output: p[5],
            n: vocab,
            k: rank,
        },
    );
    ops.push(Op::ResidualAdd { kernel: c.kernels.residual_add_k, dst: logits, src: p[5], n: vocab });
    ops.push(Op::ArgmaxBf16 { kernel: c.kernels.argmax_k, logits, out: p[6], n: vocab });
    ops.push(Op::Synchronize);
    assert(ops@ =~= markov_ops(*c, p@, row as int, prev));
    ops
}

fn build_confidence(c: &BlockCall, p: &Vec<DevicePtr>) -> (r: Vec<Op>)
    requires
        c.fits(),
        p@.len() == 9,
    ensures
        r@ == confidence_ops(*c, p@),
        all_fit(r@),
{
    let h: u32 = c.ctx.config.hidden_size as u32;
    let rank: u32 = c.ctx.config.dspark_markov_rank as u32;
    let h_bytes: usize = h as usize * 2;
    let r = vec![
        Op::CopyD2d { src: p[0], dst: p[7], bytes: h_bytes },
        Op::CopyD2d { src: p[4], dst: p[7].offset(h_bytes), bytes: rank as usize * 2 },
        Op::DenseGemv {
            kernel: c.kernels.dense_gemv_k,
            input: p[7],
            weight: c.confidence_proj,
            output: p[8],
            n: 1,
            k: h + rank,
        },
        Op::Synchronize,
    ];
    assert(r@ =~= confidence_ops(*c, p@));
    r
}

/// Picking more rows goes on from picking fewer.
proof fn lemma_picks_go_on(c: BlockCall, p: Seq<DevicePtr>, a: Seq<Seq<u8>>, b: Seq<Seq<u8>>) -> (rest: Seq<Event>)
    ensures
        picks_steps(c, p, a + b) == picks_steps(c, p, a) + rest,
    decreases b.len(),
{
    if b.len() == 0 {
        assert(a + b =~= a);
        assert(picks_steps(c, p, a) + Seq::<Event>::empty() =~= picks_steps(c, p, a));
        Seq::empty()
    } else {
        let before = lemma_picks_go_on(c, p, a, b.drop_last());
        let all = a + b;
        let row = all.len() - 1;
        assert(all.drop_last() =~= a + b.drop_last());
        let last = steps(markov_ops(c, p, row, prev_token(c, all, row)), c.stream) + seq![read_step(p[6], 4, all.last())];
        assert(picks_steps(c, p, all) =~= picks_steps(c, p, a) + (before + last));
        before + last
    }
}

/// Picks every row. Gives back the first pick.
fn pick_rows<G: GpuBackend>(gpu: &mut G, c: &BlockCall, p: &Vec<DevicePtr>) -> (r: Result<u32, GpuError>)
    requires
        c.fits(),
        p@.len() == 9,
    ensures
        exists|picks: Seq<Seq<u8>>|
            {
                &&& picks.len() == c.block()
                &&& ran(old(gpu).trace(), #[trigger] picks_steps(*c, p@, picks), final(gpu).trace(), refusal(r))
                &&& r matches Ok(tok) ==> tok == u32_at(picks[0], 0)
            },
{
    let ghost pre = gpu.trace();
    let n: usize = c.block_size as u32 as usize;
    let ghost mut picks: Seq<Seq<u8>> = Seq::empty();
    let mut prev: u32 = c.last_token;
    let mut first: u32 = 0;
    let mut row: usize = 0;
    assert(pre =~= pre + picks_steps(*c, p@, picks));
    while row < n
        invariant
            row <= n,
            n == c.block(),
            c.fits(),
            p@.len() == 9,
            pre == old(gpu).trace(),
            picks.len() == row,
            prev == prev_token(*c, picks, row as int),
            row > 0 ==> first == u32_at(picks[0], 0),
            ran(pre, picks_steps(*c, p@, picks), gpu.trace(), None),
        decreases n - row,
    {
        let ghost s1 = picks_steps(*c, p@, picks);
        let ops = build_markov(c, p, row, prev);
        let ghost s2 = s1 + steps(ops@, c.stream);
        let ghost pad = Seq::new((n - row - 1) as nat, |j: int| Seq::<u8>::empty());
        if let Err(e) = go_ops(gpu, &ops, c.stream, Ghost(pre), Ghost(s1)) {
            proof {
                let upto = picks.push(Seq::empty());
                assert(upto.drop_last() =~= picks);
                assert(prev_token(*c, upto, row as int) == prev_token(*c, picks, row as int));
                let rest = lemma_picks_go_on(*c, p@, upto, pad);
                let all = picks_steps(*c, p@, upto + pad);
                assert(all.take(s2.len() as int) =~= s2);
                lemma_ran_prefix(pre, s2, all, gpu.trace(), e);
            }
            return Err(e);
        }
        match go_read(gpu, p[6], 4, Ghost(pre), Ghost(s2)) {
            Ok(v) => {
                let tok: u32 = u32_from(v.as_slice(), 0);
                proof {
                    let next = picks.push(v@);
                    assert(next.drop_last() =~= picks);
                    assert(prev_token(*c, next, row as int) == prev_token(*c, picks, row as int));
                    assert(picks_steps(*c, p@, next) =~= s2 + seq![read_step(p@[6], 4, v@)]);
                    picks = next;
                }
                if row == 0 {
                    first = tok;
                }
                prev = tok;
                row += 1;
            },
            Err(e) => {
                proof {
                    let upto = picks.push(Seq::empty());
                    assert(upto.drop_last() =~= picks);
                    assert(prev_token(*c, upto, row as int) == prev_token(*c, picks, row as int));
                    let s3 = s2 + seq![read_step(p@[6], 4, Seq::empty())];
                    assert(picks_steps(*c, p@, upto) =~= s3);
                    let rest = lemma_picks_go_on(*c, p@, upto, pad);
                    let all = picks_steps(*c, p@, upto + pad);
                    assert(all.take(s3.len() as int) =~= s3);
                    lemma_ran_prefix(pre, s3, all, gpu.trace(), e);
                }
                return Err(e);
            },
        }
    }
    Ok(first)
}

/// Runs everything after the stages. Gives back the draft and its confidence,
/// before the sigmoid, as the bits of a single.
fn tail<G: GpuBackend>(
    gpu: &mut G,
    c: &BlockCall,
    head: &HcHeadWeights,
    w: &Vec<DevicePtr>,
    bp: DevicePtr,
    mp: DevicePtr,
) -> (r: Result<(u32, F32Bits), GpuError>)
    requires
        c.fits(),
        c.hc_head == Some(*head),
        w@.len() == 8,
    ensures
        exists|p: Seq<DevicePtr>, picks: Seq<Seq<u8>>, conf: Seq<u8>|
            {
                &&& p.len() == 9
                &&& picks.len() == c.block()
                &&& ran(
                    old(gpu).trace(),
                    #[trigger] tail_steps(*c, w@, bp, mp, p, picks, conf),
                    final(gpu).trace(),
                    refusal(r),
                )
                &&& r matches Ok(d) ==> d.0 == u32_at(picks[0], 0) && d.1 == widened_conf(conf)
            },
{
    let ghost pre = gpu.trace();
    let ghost s0 = Seq::<Event>::empty();
    let ghost no_picks = Seq::new(c.block() as nat, |j: int| Seq::<u8>::empty());
    let ghost none = Seq::<u8>::empty();
    assert(pre =~= pre + s0);
    let sizes = build_head_sizes(c);
    let p = match go_alloc_all(gpu, &sizes, Ghost(pre), Ghost(s0)) {
        Ok(p) => p,
        Err(e) => {
            proof {
                let p = choose|p: Seq<DevicePtr>|
                    p.len() == sizes@.len() && ran(pre, s0 + #[trigger] alloc_steps(sizes@, p), gpu.trace(), Some(e));
                let s1 = s0 + alloc_steps(sizes@, p);
                let all = tail_steps(*c, w@, bp, mp, p, no_picks, none);
                assert(all.take(s1.len() as int) =~= s1);
                lemma_ran_prefix(pre, s1, all, gpu.trace(), e);
            }
            return Err(e);
        },
    };
    let ghost s1 = s0 + alloc_steps(sizes@, p@);
    let ops = build_logits(c, head, w, &p);
    let ghost s2 = s1 + steps(ops@, c.stream);
    if let Err(e) = go_ops(gpu, &ops, c.stream, Ghost(pre), Ghost(s1)) {
        proof {
            let all = tail_steps(*c, w@, bp, mp, p@, no_picks, none);
            assert(all.take(s2.len() as int) =~= s2);
            lemma_ran_prefix(pre, s2, all, gpu.trace(), e);
        }
        return Err(e);
    }
    let ghost mid = gpu.trace();
    let picked = pick_rows(gpu, c, &p);
    let ghost picks = choose|picks: Seq<Seq<u8>>|
        {
            &&& picks.len() == c.block()
            &&& ran(mid, #[trigger] picks_steps(*c, p@, picks), gpu.trace(), refusal(picked))
            &&& picked matches Ok(tok) ==> tok == u32_at(picks[0], 0)
        };
    let ghost s3 = s2 + picks_steps(*c, p@, picks);
    proof {
        lemma_ran_then(pre, s2, mid, picks_steps(*c, p@, picks), gpu.trace(), refusal(picked));
    }
    let tok = match picked {
        Ok(tok) => tok,
        Err(e) => {
            proof {
                let all = tail_steps(*c, w@, bp, mp, p@, picks, none);
                assert(all.take(s3.len() as int) =~= s3);
                lemma_ran_prefix(pre, s3, all, gpu.trace(), e);
            }
            return Err(e);
        },
    };
    let ops = build_confidence(c, &p);
    let ghost s4 = s3 + steps(ops@, c.stream);
    if let Err(e) = go_ops(gpu, &ops, c.stream, Ghost(pre), Ghost(s3)) {
        proof {
            let all = tail_steps(*c, w@, bp, mp, p@, picks, none);
            assert(all.take(s4.len() as int) =~= s4);
            lemma_ran_prefix(pre, s4, all, gpu.trace(), e);
        }
        return Err(e);
    }
    let conf = match go_read(gpu, p[8], 2, Ghost(pre), Ghost(s4)) {
        Ok(v) => v,
        Err(e) => {
            proof {
                let s5 = s4 + seq![read_step(p@[8], 2, none)];
                let all = tail_steps(*c, w@, bp, mp, p@, picks, none);
                assert(all.take(s5.len() as int) =~= s5);
                lemma_ran_prefix(pre, s5, all, gpu.trace(), e);
            }
            return Err(e);
        },
    };
    let ghost s5 = s4 + seq![read_step(p@[8], 2, conf@)];
    let mut bufs: Vec<DevicePtr> = Vec::new();
    append_ptrs(&mut bufs, w);
    bufs.push(bp);
    bufs.push(mp);
    append_ptrs(&mut bufs, &p);
    assert(bufs@ =~= all_buffers(w@, bp, mp, p@));
    let mut ops: Vec<Op> = Vec::new();
    push_frees(&bufs, &mut ops);
    assert(ops@ =~= free_ops(all_buffers(w@, bp, mp, p@)));
    let r = go_ops(gpu, &ops, c.stream, Ghost(pre), Ghost(s5));
    assert(tail_steps(*c, w@, bp, mp, p@, picks, conf@) =~= s5 + steps(ops@, c.stream));
    match r {
        Ok(_) => Ok((tok, F32Bits(u16_from(conf.as_slice(), 0) as u32 * 65536))),
        Err(e) => Err(e),
    }
}

/// A BF16 confidence widened to a single.
pub open spec fn widened_conf(conf: Seq<u8>) -> F32Bits {
    F32Bits((u16_at(conf, 0) * 65536) as u32)
}

fn append_ptrs(to: &mut Vec<DevicePtr>, more: &Vec<DevicePtr>)
    ensures
        final(to)@ == old(to)@ + more@,
{
    let mut i: usize = 0;
    assert(to@ =~= old(to)@ + more@.take(0));
    while i < more.len()
        invariant
            i <= more@.len(),
            to@ == old(to)@ + more@.take(i as int),
        decreases more@.len() - i,
    {
        to.push(more[i]);
        i += 1;
        assert(to@ =~= old(to)@ + more@.take(i as int));
    }
    assert(more@.take(i as int) =~= more@);
}

// ── the whole block ──
/// What the device answered in the course of a block.
pub struct BlockReplies {
    pub work: Seq<DevicePtr>,
    pub block_pos: DevicePtr,
    pub main_pos: DevicePtr,
    /// The scratch of every stage that was started.
    pub stages: Seq<Seq<DevicePtr>>,
    pub head: Seq<DevicePtr>,
    pub picks: Seq<Seq<u8>>,
    pub conf: Seq<u8>,
}

/// Every stage runs.
pub open spec fn stages_run(set: StageSet) -> bool {
    forall|i: int| 0 <= i < set.stages@.len() ==> #[trigger] set.error_at(i) is None
}

/// The program of a block, as far as it gets: over the stages that were started,
/// and through the head where all of them ran.
pub open spec fn block_steps(c: BlockCall, set: StageSet, d: BlockReplies) -> Seq<Event> {
    let front = intro_steps(c, d.work, d.block_pos, d.main_pos) + stages_steps(
        c,
        set,
        d.work,
        d.block_pos,
        d.main_pos,
        d.stages,
    );
    if d.stages.len() == set.stages@.len() && stages_run(set) && c.hc_head is Some {
        front + tail_steps(c, d.work, d.block_pos, d.main_pos, d.head, d.picks, d.conf)
    } else {
        front
    }
}

pub open spec fn replies_fit(c: BlockCall, set: StageSet, d: BlockReplies) -> bool {
    &&& d.work.len() == 8
    &&& d.head.len() == 9
    &&& d.picks.len() == c.block()
    &&& runs_through(set, d.stages.len() as int)
    &&& scratch_fits(d.stages)
}

/// The block ran to its end.
pub open spec fn block_ok(c: BlockCall, set: StageSet, pre: Seq<Event>, post: Seq<Event>, tok: u32, conf: F32Bits) -> bool {
    &&& stages_run(set)
    &&& c.hc_head is Some
    &&& exists|d: BlockReplies|
        {
            &&& replies_fit(c, set, d)
            &&& d.stages.len() == set.stages@.len()
            &&& ran(pre, #[trigger] block_steps(c, set, d), post, None)
            &&& tok == u32_at(d.picks[0], 0)
            &&& conf == widened_conf(d.conf)
        }
}

/// The device refused a command of the block.
pub open spec fn block_refused(c: BlockCall, set: StageSet, pre: Seq<Event>, post: Seq<Event>, e: GpuError) -> bool {
    exists|d: BlockReplies| replies_fit(c, set, d) && ran(pre, #[trigger] block_steps(c, set, d), post, Some(e))
}

/// The block stopped where something was missing, with nothing refused.
pub open spec fn block_stopped(c: BlockCall, set: StageSet, pre: Seq<Event>, post: Seq<Event>, x: DsparkError) -> bool {
    exists|d: BlockReplies|
        {
            &&& replies_fit(c, set, d)
            &&& ran(pre, #[trigger] block_steps(c, set, d), post, None)
            &&& if x == DsparkError::NoHcHead {
                d.stages.len() == set.stages@.len() && stages_run(set) && c.hc_head is None
            } else {
                d.stages.len() >= 1 && set.error_at(d.stages.len() - 1) == Some(x)
            }
        }
}

/// What running a block does and says.
pub open spec fn block_outcome(
    c: BlockCall,
    set: StageSet,
    pre: Seq<Event>,
    post: Seq<Event>,
    r: Result<(u32, F32Bits), DsparkError>,
) -> bool {
    match r {
        Ok(d) => block_ok(c, set, pre, post, d.0, d.1),
        Err(DsparkError::Gpu(e)) => block_refused(c, set, pre, post, e),
        Err(x) => block_stopped(c, set, pre, post, x),
    }
}

/// Runs a block.
pub fn run_block<G: GpuBackend>(gpu: &mut G, c: &BlockCall, set: &StageSet) -> (r: Result<(u32, F32Bits), DsparkError>)
    requires
        c.fits(),
        set.ready(*c),
    ensures
        block_outcome(*c, *set, old(gpu).trace(), final(gpu).trace(), r),
{
    let ghost pre = gpu.trace();
    let ghost d0 = BlockReplies {
        work: Seq::new(8, |j: int| DevicePtr(0)),
        block_pos: DevicePtr(0),
        main_pos: DevicePtr(0),
        stages: Seq::empty(),
        head: Seq::new(9, |j: int| DevicePtr(0)),
        picks: Seq::new(c.block() as nat, |j: int| Seq::<u8>::empty()),
        conf: Seq::empty(),
    };
    let (w, bp, mp) = match intro(gpu, c) {
        Ok(p) => p,
        Err(e) => {
            proof {
                let (w, bp, mp) = choose|w: Seq<DevicePtr>, bp: DevicePtr, mp: DevicePtr|
                    w.len() == 8 && ran(pre, #[trigger] intro_steps(*c, w, bp, mp), gpu.trace(), Some(e));
                let d = BlockReplies { work: w, block_pos: bp, main_pos: mp, ..d0 };
                assert(block_steps(*c, *set, d) =~= intro_steps(*c, w, bp, mp));
                assert(replies_fit(*c, *set, d));
                assert(block_refused(*c, *set, pre, gpu.trace(), e));
            }
            return Err(DsparkError::Gpu(e));
        },
    };
    let ghost s1 = intro_steps(*c, w@, bp, mp);
    let ghost d1 = BlockReplies { work: w@, block_pos: bp, main_pos: mp, ..d0 };
    let ghost t1 = gpu.trace();
    let staged = run_stages(gpu, c, set, &w, bp, mp);
    if let Err(x) = staged {
        proof {
            match x {
                DsparkError::Gpu(e) => {
                    let ps = choose|ps: Seq<Seq<DevicePtr>>|
                        runs_through(*set, ps.len() as int) && scratch_fits(ps) && ran(
                            t1,
                            #[trigger] stages_steps(*c, *set, w@, bp, mp, ps),
                            gpu.trace(),
                            Some(e),
                        );
                    let d = BlockReplies { stages: ps, ..d1 };
                    let s2 = stages_steps(*c, *set, w@, bp, mp, ps);
                    lemma_ran_then(pre, s1, t1, s2, gpu.trace(), Some(e));
                    let all = block_steps(*c, *set, d);
                    assert(all.take((s1 + s2).len() as int) =~= s1 + s2);
                    lemma_ran_prefix(pre, s1 + s2, all, gpu.trace(), e);
                    assert(replies_fit(*c, *set, d));
                    assert(block_refused(*c, *set, pre, gpu.trace(), e));
                },
                _ => {
                    let ps = choose|ps: Seq<Seq<DevicePtr>>|
                        {
                            &&& ps.len() >= 1
                            &&& runs_through(*set, ps.len() as int)
                            &&& scratch_fits(ps)
                            &&& set.error_at(ps.len() - 1) == Some(x)
                            &&& ran(t1, #[trigger] stages_steps(*c, *set, w@, bp, mp, ps), gpu.trace(), None)
                        };
                    let d = BlockReplies { stages: ps, ..d1 };
                    let s2 = stages_steps(*c, *set, w@, bp, mp, ps);
                    lemma_ran_then(pre, s1, t1, s2, gpu.trace(), None);
                    assert(!stages_run(*set)) by {
                        assert(set.error_at(ps.len() - 1) is Some);
                    }
                    assert(block_steps(*c, *set, d) == s1 + s2);
                    assert(replies_fit(*c, *set, d));
                    assert(block_stopped(*c, *set, pre, gpu.trace(), x));
                },
            }
        }
        return Err(x);
    }
    let ghost ps = choose|ps: Seq<Seq<DevicePtr>>|
        ps.len() == set.stages@.len() && scratch_fits(ps) && ran(
            t1,
            #[trigger] stages_steps(*c, *set, w@, bp, mp, ps),
            gpu.trace(),
            None,
        );
    let ghost d2 = BlockReplies { stages: ps, ..d1 };
    let ghost s2 = s1 + stages_steps(*c, *set, w@, bp, mp, ps);
    let ghost t2 = gpu.trace();
    proof {
        lemma_ran_then(pre, s1, t1, stages_steps(*c, *set, w@, bp, mp, ps), t2, None);
        assert(runs_through(*set, ps.len() as int));
        assert(stages_run(*set));
    }
    let head = match c.hc_head {
        Some(head) => head,
        None => {
            proof {
                assert(block_steps(*c, *set, d2) == s2);
                assert(replies_fit(*c, *set, d2));
                assert(block_stopped(*c, *set, pre, gpu.trace(), DsparkError::NoHcHead));
            }
            return Err(DsparkError::NoHcHead);
        },
    };
    let ended = tail(gpu, c, &head, &w, bp, mp);
    proof {
        let (p, picks, conf) = choose|p: Seq<DevicePtr>, picks: Seq<Seq<u8>>, conf: Seq<u8>|
            {
                &&& p.len() == 9
                &&& picks.len() == c.block()
                &&& ran(t2, #[trigger] tail_steps(*c, w@, bp, mp, p, picks, conf), gpu.trace(), refusal(ended))
                &&& ended matches Ok(d) ==> d.0 == u32_at(picks[0], 0) && d.1 == widened_conf(conf)
            };
        let d = BlockReplies { head: p, picks, conf, ..d2 };
        lemma_ran_then(pre, s2, t2, tail_steps(*c, w@, bp, mp, p, picks, conf), gpu.trace(), refusal(ended));
        assert(block_steps(*c, *set, d) == s2 + tail_steps(*c, w@, bp, mp, p, picks, conf));
        assert(replies_fit(*c, *set, d));
        match ended {
            Ok(o) => {
                assert(block_ok(*c, *set, pre, gpu.trace(), o.0, o.1));
            },
            Err(e) => {
                assert(block_refused(*c, *set, pre, gpu.trace(), e));
            },
        }
    }
    match ended {
        Ok(o) => Ok(o),
        Err(e) => Err(DsparkError::Gpu(e)),
    }
}

// ── what a block leaves behind ──
/// A stage that runs gives back what it took.
proof fn lemma_stage_balance(
    c: BlockCall,
    stage: DsparkStage,
    ring: DsparkMainKvCache,
    window: usize,
    file: InjectFile,
    index: int,
    w: Seq<DevicePtr>,
    bp: DevicePtr,
    mp: DevicePtr,
    p: Seq<DevicePtr>,
)
    requires
        stage_error(stage, ring, file, index) is None,
        p.len() == 13,
    ensures
        taken(one_stage_steps(c, stage, ring, window, file, index, w, bp, mp, p)) == given_back(
            one_stage_steps(c, stage, ring, window, file, index, w, bp, mp, p),
        ),
{
    let call = stage_call(c, stage, ring, window, file is Bytes, index, w, bp, mp);
    let none = Seq::<Event>::empty();
    let s1 = none + steps(entry_ops(c, stage, index, w), c.stream);
    let s2 = s1 + inject_steps(file, ring);
    let s3 = s2 + stage_attn_steps(call, p);
    assert(no_frees(entry_ops(c, stage, index, w)));
    lemma_ops_added(none, entry_ops(c, stage, index, w), c.stream);
    assert(quiet(inject_steps(file, ring)));
    lemma_quiet_added(s1, inject_steps(file, ring));
    stage_scratch_is_given_back(call, p);
    lemma_buffers_add(s2, stage_attn_steps(call, p));
    assert(no_frees(exit_ops(c, stage, index, w)));
    lemma_ops_added(s3, exit_ops(c, stage, index, w), c.stream);
    assert(one_stage_steps(c, stage, ring, window, file, index, w, bp, mp, p) =~= s3 + steps(
        exit_ops(c, stage, index, w),
        c.stream,
    ));
}

proof fn lemma_stages_balance(
    c: BlockCall,
    set: StageSet,
    w: Seq<DevicePtr>,
    bp: DevicePtr,
    mp: DevicePtr,
    ps: Seq<Seq<DevicePtr>>,
)
    requires
        stages_run(set),
        ps.len() <= set.stages@.len(),
        scratch_fits(ps),
    ensures
        taken(stages_steps(c, set, w, bp, mp, ps)) == given_back(stages_steps(c, set, w, bp, mp, ps)),
    decreases ps.len(),
{
    if ps.len() > 0 {
        let i = ps.len() - 1;
        lemma_stages_balance(c, set, w, bp, mp, ps.drop_last());
        assert(set.error_at(i) is None);
        assert(ps[i].len() == 13);
        let one = one_stage_steps(
            c,
            set.stages@[i],
            set.rings@[i],
            set.window(),
            set.files@[i],
            i,
            w,
            bp,
            mp,
            ps.last(),
        );
        lemma_stage_balance(c, set.stages@[i], set.rings@[i], set.window(), set.files@[i], i, w, bp, mp, ps.last());
        lemma_buffers_add(stages_steps(c, set, w, bp, mp, ps.drop_last()), one);
    }
}

proof fn lemma_picks_quiet(c: BlockCall, p: Seq<DevicePtr>, picks: Seq<Seq<u8>>)
    ensures
        quiet(picks_steps(c, p, picks)),
    decreases picks.len(),
{
    if picks.len() > 0 {
        let row = picks.len() - 1;
        lemma_picks_quiet(c, p, picks.drop_last());
        let ops = markov_ops(c, p, row, prev_token(c, picks, row));
        assert(no_frees(ops));
        lemma_quiet_ops(ops, c.stream);
    }
}

proof fn lemma_intro_takes(c: BlockCall, w: Seq<DevicePtr>, bp: DevicePtr, mp: DevicePtr)
    requires
        w.len() == 8,
    ensures
        taken(intro_steps(c, w, bp, mp)) == w.to_multiset().insert(bp).insert(mp),
        given_back(intro_steps(c, w, bp, mp)) == Multiset::<DevicePtr>::empty(),
{
    let s1 = alloc_steps(work_sizes(c), w);
    lemma_allocs(work_sizes(c), w);
    assert(no_frees(embed_ops(c, w)));
    let s2 = s1 + steps(embed_ops(c, w), c.stream);
    lemma_ops_added(s1, embed_ops(c, w), c.stream);
    let s3 = s2.push(alloc_step(c.block() * 4, bp));
    assert(s3.drop_last() =~= s2);
    let s4 = s3.push(put_step(le32_all(block_positions(c)), bp));
    assert(s4.drop_last() =~= s3);
    let s5 = s4.push(alloc_step(4, mp));
    assert(s5.drop_last() =~= s4);
    let s6 = s5.push(put_step(le32(c.position as u32), mp));
    assert(s6.drop_last() =~= s5);
    assert(intro_steps(c, w, bp, mp) =~= s6);
    assert(taken(s3) =~= w.to_multiset().insert(bp));
    assert(taken(s4) =~= taken(s3));
    assert(taken(s5) =~= taken(s4).insert(mp));
    assert(taken(s6) =~= w.to_multiset().insert(bp).insert(mp));
    assert(given_back(s3) =~= Multiset::empty());
    assert(given_back(s4) =~= Multiset::empty());
    assert(given_back(s5) =~= Multiset::empty());
    assert(given_back(s6) =~= Multiset::empty());
}

proof fn lemma_tail_gives(
    c: BlockCall,
    w: Seq<DevicePtr>,
    bp: DevicePtr,
    mp: DevicePtr,
    p: Seq<DevicePtr>,
    picks: Seq<Seq<u8>>,
    conf: Seq<u8>,
)
    requires
        p.len() == 9,
    ensures
        taken(tail_steps(c, w, bp, mp, p, picks, conf)) == p.to_multiset(),
        given_back(tail_steps(c, w, bp, mp, p, picks, conf)) == w.to_multiset().insert(bp).insert(mp).add(
            p.to_multiset(),
        ),
{
    let all = all_buffers(w, bp, mp, p);
    let s1 = alloc_steps(head_sizes(c), p);
    let s2 = s1 + steps(logits_ops(c, w, p), c.stream);
    let s3 = s2 + picks_steps(c, p, picks);
    let s4 = s3 + steps(confidence_ops(c, p), c.stream);
    let read = seq![read_step(p[8], 2, conf)];
    let s5 = s4 + read;
    lemma_allocs(head_sizes(c), p);
    assert(no_frees(logits_ops(c, w, p)));
    lemma_ops_added(s1, logits_ops(c, w, p), c.stream);
    lemma_picks_quiet(c, p, picks);
    lemma_quiet_added(s2, picks_steps(c, p, picks));
    assert(no_frees(confidence_ops(c, p)));
    lemma_ops_added(s3, confidence_ops(c, p), c.stream);
    assert(quiet(read));
    lemma_quiet_added(s4, read);
    lemma_frees(all, c.stream);
    lemma_buffers_add(s5, steps(free_ops(all), c.stream));
    assert(tail_steps(c, w, bp, mp, p, picks, conf) =~= s5 + steps(free_ops(all), c.stream));
    let two = seq![bp, mp];
    vstd::seq_lib::lemma_multiset_commutative(w, two);
    vstd::seq_lib::lemma_multiset_commutative(w + two, p);
    w.to_multiset_ensures();
    w.push(bp).to_multiset_ensures();
    assert(w + two =~= w.push(bp).push(mp));
    assert(taken(tail_steps(c, w, bp, mp, p, picks, conf)) =~= p.to_multiset());
    assert(given_back(tail_steps(c, w, bp, mp, p, picks, conf)) =~= all.to_multiset());
}

/// A block that ran to its end leaves nothing allocated: it gave back exactly the
/// buffers that it took, each as often as it took it.
pub proof fn drafted_block_leaves_nothing_allocated(
    c: BlockCall,
    set: StageSet,
    pre: Seq<Event>,
    post: Seq<Event>,
    tok: u32,
    conf: F32Bits,
)
    requires
        block_ok(c, set, pre, post, tok, conf),
    ensures
        pre.len() <= post.len(),
        post.take(pre.len() as int) == pre,
        taken(post.skip(pre.len() as int)) == given_back(post.skip(pre.len() as int)),
{
    let d = choose|d: BlockReplies|
        {
            &&& replies_fit(c, set, d)
            &&& d.stages.len() == set.stages@.len()
            &&& ran(pre, #[trigger] block_steps(c, set, d), post, None)
            &&& tok == u32_at(d.picks[0], 0)
            &&& conf == widened_conf(d.conf)
        };
    let s1 = intro_steps(c, d.work, d.block_pos, d.main_pos);
    let s2 = stages_steps(c, set, d.work, d.block_pos, d.main_pos, d.stages);
    let s3 = tail_steps(c, d.work, d.block_pos, d.main_pos, d.head, d.picks, d.conf);
    assert(post.take(pre.len() as int) =~= pre);
    assert(post.skip(pre.len() as int) =~= s1 + s2 + s3);
    lemma_intro_takes(c, d.work, d.block_pos, d.main_pos);
    lemma_stages_balance(c, set, d.work, d.block_pos, d.main_pos, d.stages);
    lemma_tail_gives(c, d.work, d.block_pos, d.main_pos, d.head, d.picks, d.conf);
    lemma_buffers_add(s1, s2);
    lemma_buffers_add(s1 + s2, s3);
    assert(taken(s1 + s2 + s3) =~= given_back(s1 + s2 + s3));
}

} // verus!
