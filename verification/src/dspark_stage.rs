//! The attention of one stage of the block drafter.
//!
//! Scratch is allocated per call and given back at the end, so the program of a
//! stage depends on the addresses that the device answered.

use vstd::prelude::*;

use crate::attention::MlaWeights;
use crate::bits::{le32, push_le32};
use crate::buffers::{
    free_ops, given_back, lemma_allocs, lemma_buffers_add, lemma_frees, lemma_ops_added, lemma_quiet_added, no_frees,
    quiet, taken,
};
use crate::config::ForwardContext;
use crate::dspark_attention::sparse_attention_fits;
use crate::dspark_head::{DsparkKernels, DsparkMainKvCache};
use crate::gpu::{at, DenseWeight, DevicePtr, F32Bits, GpuError, KernelHandle, ONE_BITS};
use crate::op::{Boundary, Op};
use crate::run::{
    alloc_steps, all_fit, dump_if, go_alloc_all, go_ops, go_put, lemma_steps_add, push_dump, put_step, steps,
};
use crate::trace::{lemma_ran_prefix, ran, refusal, Event, GpuBackend};

verus! {

/// The arguments of one stage's attention.
#[derive(Clone, Copy, PartialEq, Eq, Structural, Debug)]
pub struct StageCall {
    pub kernels: DsparkKernels,
    pub mla: MlaWeights,
    pub ring: DsparkMainKvCache,
    pub ones: DenseWeight,
    pub ctx: ForwardContext,
    pub block_size: usize,
    pub nq: u32,
    pub groups: u32,
    pub scale: F32Bits,
    pub attn_in: DevicePtr,
    pub main_x: DevicePtr,
    pub block_pos: DevicePtr,
    pub main_pos: DevicePtr,
    pub valid_main_len: i32,
    pub main_slot: usize,
    /// The ring already holds the row of this step.
    pub skip_store: bool,
    pub out: DevicePtr,
    /// The stage's place among the stages.
    pub stage: usize,
    /// The boundaries of the stage are dumped.
    pub dump: bool,
    pub stream: u64,
}

impl StageCall {
    pub open spec fn h(self) -> u32 {
        self.ctx.config.hidden_size as u32
    }

    pub open spec fn block(self) -> u32 {
        self.block_size as u32
    }

    pub open spec fn hd(self) -> u32 {
        self.ctx.config.head_dim as u32
    }

    pub open spec fn q_lora(self) -> u32 {
        self.mla.q_lora_rank as u32
    }

    pub open spec fn o_lora(self) -> u32 {
        self.mla.o_lora_rank as u32
    }

    pub open spec fn rope(self) -> u32 {
        self.mla.rope as u32
    }

    pub open spec fn nope(self) -> u32 {
        self.mla.nope as u32
    }

    pub open spec fn q_dim(self) -> int {
        self.nq * self.hd()
    }

    pub open spec fn o_groups(self) -> u32 {
        if self.groups == 0 { 1 } else { self.groups }
    }

    pub open spec fn group_in(self) -> int {
        self.q_dim() / self.o_groups() as int
    }

    pub open spec fn latent_dim(self) -> int {
        self.o_groups() * self.o_lora()
    }

    /// The dump of a BF16 tensor, where the stage is dumped.
    pub open spec fn dumped(self, at: Boundary, src: DevicePtr, rows: int, cols: int) -> Seq<Op> {
        dump_if(self.dump, at, self.stage, src, rows, cols, false)
    }

    /// The sizes fit the machine's words.
    pub open spec fn fits(self) -> bool {
        let b = self.block();
        &&& self.q_dim() <= u32::MAX
        &&& self.nq * self.rope() <= u32::MAX
        &&& self.latent_dim() <= u32::MAX
        &&& b * self.nq <= u32::MAX
        &&& self.latent_dim() * self.group_in() <= u32::MAX
        &&& self.latent_dim() * self.group_in() * 2 <= usize::MAX
        &&& b * (self.q_lora() * 2) <= usize::MAX
        &&& b * (self.q_dim() * 2) <= usize::MAX
        &&& b * (self.hd() * 2) <= usize::MAX
        &&& b * (self.nq * self.rope() * 2) <= usize::MAX
        &&& b * (self.latent_dim() * 2) <= usize::MAX
        &&& b * (self.h() * 2) <= usize::MAX
        &&& self.q_lora() * 2 <= usize::MAX
        &&& self.q_dim() * 2 <= usize::MAX
        &&& self.hd() * 2 <= usize::MAX
        &&& self.nq * self.rope() * 2 <= usize::MAX
        &&& self.latent_dim() * 2 <= usize::MAX
        &&& self.h() * 2 <= usize::MAX
        &&& self.main_slot * (self.hd() * 2) <= usize::MAX
        &&& sparse_attention_fits(1, b, self.nq, self.hd(), self.ring.window as u32)
    }
}

/// Sizes of the scratch buffers of a stage, in the order of their allocation:
/// the query latent and its norm, queries and their norm, draft rows and their
/// norm, rotation lanes, attention output, output latent, output, the committed
/// row and its norm, and the number of valid ring rows.
pub open spec fn stage_sizes(c: StageCall) -> Seq<usize> {
    let b = c.block();
    seq![
        (b * (c.q_lora() * 2)) as usize,
        (b * (c.q_lora() * 2)) as usize,
        (b * (c.q_dim() * 2)) as usize,
        (b * (c.q_dim() * 2)) as usize,
        (b * (c.hd() * 2)) as usize,
        (b * (c.hd() * 2)) as usize,
        (b * (c.nq * c.rope() * 2)) as usize,
        (b * (c.q_dim() * 2)) as usize,
        (b * (c.latent_dim() * 2)) as usize,
        (b * (c.h() * 2)) as usize,
        (c.hd() * 2) as usize,
        (c.hd() * 2) as usize,
        4usize,
    ]
}

pub open spec fn gemv_op(kernel: KernelHandle, input: DevicePtr, weight: DenseWeight, output: DevicePtr, n: int, k: int) -> Op {
    Op::DenseGemv { kernel, input, weight, output, n: n as u32, k: k as u32 }
}

/// The same product for `count` rows, one after the other.
pub open spec fn rows_gemv(
    kernel: KernelHandle,
    input: DevicePtr,
    in_bytes: int,
    weight: DenseWeight,
    output: DevicePtr,
    out_bytes: int,
    n: int,
    k: int,
    count: nat,
) -> Seq<Op> {
    Seq::new(
        count,
        |t: int| gemv_op(kernel, at(input, t * in_bytes), weight, at(output, t * out_bytes), n, k),
    )
}

pub(crate) fn push_rows_gemv(
    ops: &mut Vec<Op>,
    kernel: KernelHandle,
    input: DevicePtr,
    in_bytes: usize,
    weight: DenseWeight,
    output: DevicePtr,
    out_bytes: usize,
    n: u32,
    k: u32,
    count: usize,
)
    requires
        count * in_bytes <= usize::MAX,
        count * out_bytes <= usize::MAX,
        all_fit(old(ops)@),
    ensures
        final(ops)@ == old(ops)@ + rows_gemv(
            kernel,
            input,
            in_bytes as int,
            weight,
            output,
            out_bytes as int,
            n as int,
            k as int,
            count as nat,
        ),
        all_fit(final(ops)@),
{
    let ghost all = rows_gemv(
        kernel,
        input,
        in_bytes as int,
        weight,
        output,
        out_bytes as int,
        n as int,
        k as int,
        count as nat,
    );
    let mut t: usize = 0;
    assert(ops@ =~= old(ops)@ + all.take(0));
    while t < count
        invariant
            t <= count,
            count * in_bytes <= usize::MAX,
            count * out_bytes <= usize::MAX,
            all_fit(ops@),
            all == rows_gemv(
                kernel,
                input,
                in_bytes as int,
                weight,
                output,
                out_bytes as int,
                n as int,
                k as int,
                count as nat,
            ),
            ops@ == old(ops)@ + all.take(t as int),
        decreases count - t,
    {
        assert(t * in_bytes <= count * in_bytes && t * out_bytes <= count * out_bytes) by (nonlinear_arith)
            requires
                t < count,
                in_bytes >= 0,
                out_bytes >= 0,
        ;
        ops.push(
            Op::DenseGemv {
                kernel,
                input: input.offset(t * in_bytes),
                weight,
                output: output.offset(t * out_bytes),
                n,
                k,
            },
        );
        t += 1;
        assert(ops@ =~= old(ops)@ + all.take(t as int));
    }
    assert(all.take(t as int) =~= all);
}

// ── pieces of the attention ──
/// The first projections of block row `t`: query latent and draft row.
pub open spec fn down_pair(c: StageCall, p: Seq<DevicePtr>, t: int) -> Seq<Op> {
    let x = at(c.attn_in, t * (c.h() * 2));
    seq![
        gemv_op(c.kernels.dense_gemv_k, x, c.mla.wq_a, at(p[0], t * (c.q_lora() * 2)), c.q_lora() as int, c.h() as int),
        gemv_op(c.kernels.dense_gemv_k, x, c.mla.wkv_a, at(p[4], t * (c.hd() * 2)), c.hd() as int, c.h() as int),
    ]
}

pub open spec fn down_ops(c: StageCall, p: Seq<DevicePtr>, n: int) -> Seq<Op>
    decreases n,
{
    if n <= 0 {
        Seq::empty()
    } else {
        down_ops(c, p, n - 1) + down_pair(c, p, n - 1)
    }
}

pub open spec fn norm_op(c: StageCall, input: DevicePtr, weight: DenseWeight, output: DevicePtr, rows: int, cols: int) -> Op {
    Op::RmsNorm {
        kernel: c.kernels.rms_norm_k,
        input,
        weight,
        output,
        rows: rows as u32,
        cols: cols as u32,
        eps: c.ctx.config.rms_norm_eps,
    }
}

/// Rotating the trailing lanes of `heads` heads of `count` rows in place.
pub open spec fn rotate_ops(
    c: StageCall,
    p: Seq<DevicePtr>,
    kernel: KernelHandle,
    data: DevicePtr,
    positions: DevicePtr,
    count: int,
    heads: int,
    stride: int,
) -> Seq<Op> {
    seq![
        Op::RopeExtract {
            kernel: c.kernels.extract_k,
            src: data,
            dst: p[6],
            count: count as u32,
            heads: heads as u32,
            hd: c.hd(),
            nope: c.nope(),
            rope: c.rope(),
            stride: stride as u32,
        },
        Op::RopeYarn {
            kernel,
            q: p[6],
            k: p[6],
            positions,
            count: count as u32,
            nq: heads as u32,
            nk: 0,
            head_dim: c.rope(),
            rope: c.rope(),
            inv_freq: c.mla.main_inv_freq,
            mscale: F32Bits(ONE_BITS),
        },
        Op::RopeWriteback {
            kernel: c.kernels.writeback_k,
            src: p[6],
            dst: data,
            count: count as u32,
            heads: heads as u32,
            hd: c.hd(),
            nope: c.nope(),
            rope: c.rope(),
            stride: stride as u32,
        },
    ]
}

/// Committing the block's main row to the ring.
pub open spec fn store_ops(c: StageCall, p: Seq<DevicePtr>) -> Seq<Op> {
    if c.skip_store {
        Seq::empty()
    } else {
        seq![
            gemv_op(c.kernels.dense_gemv_k, c.main_x, c.mla.wkv_a, p[10], c.hd() as int, c.h() as int),
            norm_op(c, p[10], c.mla.kv_a_norm, p[11], 1, c.hd() as int),
        ] + rotate_ops(c, p, c.kernels.rope_fwd_k, p[11], c.main_pos, 1, 1, c.hd() as int) + seq![
            Op::CopyD2d {
                src: p[11],
                dst: at(c.ring.buf, c.main_slot * (c.hd() * 2)),
                bytes: (c.hd() * 2) as usize,
            },
        ]
    }
}

pub open spec fn sparse_op(c: StageCall, p: Seq<DevicePtr>) -> Op {
    Op::DsparkSparseAttention {
        kernel: c.kernels.dspark_attn_k,
        q: p[3],
        draft_kv: p[5],
        main_kv: c.ring.buf,
        valid_main_lengths: p[12],
        attn_sink: c.mla.attn_sink,
        out: p[7],
        softmax_scale: c.scale,
        batch_size: 1,
        block_size: c.block(),
        num_heads: c.nq,
        head_dim: c.hd(),
        window_size: c.ring.window as u32,
    }
}

/// Output group `g` of block row `t`.
pub open spec fn group_op(c: StageCall, p: Seq<DevicePtr>, t: int, g: int) -> Op {
    gemv_op(
        c.kernels.dense_gemv_k,
        at(at(p[7], t * (c.q_dim() * 2)), g * c.group_in() * 2),
        (DenseWeight { weight: at(c.mla.wo_a.weight, g * c.o_lora() * c.group_in() * 2) }),
        at(at(p[8], t * (c.latent_dim() * 2)), g * c.o_lora() * 2),
        c.o_lora() as int,
        c.group_in(),
    )
}

/// The output projection of block row `t`: every group, then the second factor.
pub open spec fn out_row_ops(c: StageCall, p: Seq<DevicePtr>, t: int) -> Seq<Op> {
    Seq::new(c.o_groups() as nat, |g: int| group_op(c, p, t, g)) + seq![
        gemv_op(
            c.kernels.dense_gemv_k,
            at(p[8], t * (c.latent_dim() * 2)),
            c.mla.wo_b,
            at(p[9], t * (c.h() * 2)),
            c.h() as int,
            c.latent_dim(),
        ),
    ]
}

pub open spec fn out_ops(c: StageCall, p: Seq<DevicePtr>, n: int) -> Seq<Op>
    decreases n,
{
    if n <= 0 {
        Seq::empty()
    } else {
        out_ops(c, p, n - 1) + out_row_ops(c, p, n - 1)
    }
}

/// Queries and draft rows, normed and rotated.
pub open spec fn front_ops(c: StageCall, p: Seq<DevicePtr>) -> Seq<Op> {
    let b = c.block() as int;
    down_ops(c, p, b) + seq![norm_op(c, p[0], c.mla.q_a_norm, p[1], b, c.q_lora() as int)] + rows_gemv(
        c.kernels.dense_gemv_k,
        p[1],
        c.q_lora() * 2,
        c.mla.wq_b,
        p[2],
        c.q_dim() * 2,
        c.q_dim(),
        c.q_lora() as int,
        b as nat,
    ) + seq![norm_op(c, p[2], c.ones, p[3], b * c.nq, c.hd() as int)] + c.dumped(
        Boundary::QProj,
        p[3],
        b * c.nq,
        c.hd() as int,
    ) + seq![norm_op(c, p[4], c.mla.kv_a_norm, p[5], b, c.hd() as int)] + c.dumped(
        Boundary::KvProj,
        p[5],
        b,
        c.hd() as int,
    ) + rotate_ops(c, p, c.kernels.rope_fwd_k, p[3], c.block_pos, b, c.nq as int, c.q_dim()) + rotate_ops(
        c,
        p,
        c.kernels.rope_fwd_k,
        p[5],
        c.block_pos,
        b,
        1,
        c.hd() as int,
    )
}

/// The attention of a stage, over its scratch buffers.
pub open spec fn stage_ops(c: StageCall, p: Seq<DevicePtr>) -> Seq<Op> {
    let b = c.block() as int;
    front_ops(c, p) + store_ops(c, p) + seq![sparse_op(c, p)] + c.dumped(
        Boundary::SparseOut,
        p[7],
        b * c.nq,
        c.hd() as int,
    ) + rotate_ops(c, p, c.kernels.rope_inv_k, p[7], c.block_pos, b, c.nq as int, c.q_dim()) + c.dumped(
        Boundary::InverseRope,
        p[7],
        b * c.nq,
        c.hd() as int,
    ) + out_ops(c, p, b) + c.dumped(Boundary::OutLatent, p[8], b, c.latent_dim()) + c.dumped(
        Boundary::OutRows,
        p[9],
        b,
        c.h() as int,
    ) + seq![Op::CopyD2d { src: p[9], dst: c.out, bytes: (b * (c.h() * 2)) as usize }]
}

/// The program of a stage's attention.
pub open spec fn stage_attn_steps(c: StageCall, p: Seq<DevicePtr>) -> Seq<Event> {
    alloc_steps(stage_sizes(c), p) + seq![put_step(le32(c.valid_main_len as u32), p[12])] + steps(
        stage_ops(c, p) + free_ops(p),
        c.stream,
    )
}

// ── building the attention ──
/// The sizes of a stage, worked out once.
#[derive(Clone, Copy, PartialEq, Eq, Structural, Debug)]
struct StageDims {
    h: u32,
    b: u32,
    hd: u32,
    q_lora: u32,
    o_lora: u32,
    q_dim: u32,
    groups: u32,
    group_in: u32,
    latent: u32,
    h_row: usize,
    hd_row: usize,
    ql_row: usize,
    q_row: usize,
    lat_row: usize,
}

spec fn dims_of(c: StageCall, d: StageDims) -> bool {
    &&& d.h == c.h()
    &&& d.b == c.block()
    &&& d.hd == c.hd()
    &&& d.q_lora == c.q_lora()
    &&& d.o_lora == c.o_lora()
    &&& d.q_dim == c.q_dim()
    &&& d.groups == c.o_groups()
    &&& d.group_in == c.group_in()
    &&& d.latent == c.latent_dim()
    &&& d.h_row == c.h() * 2
    &&& d.hd_row == c.hd() * 2
    &&& d.ql_row == c.q_lora() * 2
    &&& d.q_row == c.q_dim() * 2
    &&& d.lat_row == c.latent_dim() * 2
}

fn dims(c: &StageCall) -> (d: StageDims)
    requires
        c.fits(),
    ensures
        dims_of(*c, d),
        c.group_in() <= c.q_dim(),
{
    let h: u32 = c.ctx.config.hidden_size as u32;
    let hd: u32 = c.ctx.config.head_dim as u32;
    let q_lora: u32 = c.mla.q_lora_rank as u32;
    let o_lora: u32 = c.mla.o_lora_rank as u32;
    let q_dim: u32 = c.nq * hd;
    let groups: u32 = if c.groups == 0 { 1 } else { c.groups };
    let latent: u32 = groups * o_lora;
    proof {
        assert(c.group_in() <= c.q_dim()) by (nonlinear_arith)
            requires
                c.group_in() == c.q_dim() / c.o_groups() as int,
                c.o_groups() >= 1,
                c.q_dim() >= 0,
        ;
    }
    StageDims {
        h,
        b: c.block_size as u32,
        hd,
        q_lora,
        o_lora,
        q_dim,
        groups,
        group_in: q_dim / groups,
        latent,
        h_row: h as usize * 2,
        hd_row: hd as usize * 2,
        ql_row: q_lora as usize * 2,
        q_row: q_dim as usize * 2,
        lat_row: latent as usize * 2,
    }
}

/// Every offset of block row `t` fits.
proof fn lemma_row_fits(c: StageCall, t: int)
    requires
        c.fits(),
        0 <= t < c.block(),
    ensures
        0 <= t * (c.h() * 2) <= usize::MAX,
        0 <= t * (c.q_lora() * 2) <= usize::MAX,
        0 <= t * (c.hd() * 2) <= usize::MAX,
        0 <= t * (c.q_dim() * 2) <= usize::MAX,
        0 <= t * (c.latent_dim() * 2) <= usize::MAX,
{
    lemma_le(t, c.block() as int, c.h() * 2);
    lemma_le(t, c.block() as int, c.q_lora() * 2);
    lemma_le(t, c.block() as int, c.hd() * 2);
    assert(c.q_dim() >= 0) by (nonlinear_arith)
        requires
            c.q_dim() == c.nq * c.hd(),
    ;
    assert(c.latent_dim() >= 0) by (nonlinear_arith)
        requires
            c.latent_dim() == c.o_groups() * c.o_lora(),
    ;
    lemma_le(t, c.block() as int, c.q_dim() * 2);
    lemma_le(t, c.block() as int, c.latent_dim() * 2);
}

proof fn lemma_le(t: int, b: int, x: int)
    requires
        0 <= t <= b,
        x >= 0,
    ensures
        0 <= t * x <= b * x,
{
    assert(0 <= t * x <= b * x) by (nonlinear_arith)
        requires
            0 <= t <= b,
            x >= 0,
    ;
}

fn push_down(c: &StageCall, d: &StageDims, p: &Vec<DevicePtr>, ops: &mut Vec<Op>)
    requires
        c.fits(),
        dims_of(*c, *d),
        p@.len() == 13,
        all_fit(old(ops)@),
    ensures
        final(ops)@ == old(ops)@ + down_ops(*c, p@, c.block() as int),
        all_fit(final(ops)@),
{
    let ghost before = ops@;
    let n: usize = d.b as usize;
    let mut t: usize = 0;
    assert(ops@ =~= before + down_ops(*c, p@, 0));
    while t < n
        invariant
            t <= n,
            n == c.block(),
            c.fits(),
            dims_of(*c, *d),
            p@.len() == 13,
            all_fit(ops@),
            ops@ == before + down_ops(*c, p@, t as int),
        decreases n - t,
    {
        proof {
            lemma_row_fits(*c, t as int);
        }
        let x = c.attn_in.offset(t * d.h_row);
        ops.push(
            Op::DenseGemv {
                kernel: c.kernels.dense_gemv_k,
                input: x,
                weight: c.mla.wq_a,
                output: p[0].offset(t * d.ql_row),
                n: d.q_lora,
                k: d.h,
            },
        );
        ops.push(
            Op::DenseGemv {
                kernel: c.kernels.dense_gemv_k,
                input: x,
                weight: c.mla.wkv_a,
                output: p[4].offset(t * d.hd_row),
                n: d.hd,
                k: d.h,
            },
        );
        t += 1;
        assert(ops@ =~= before + down_ops(*c, p@, t as int));
    }
}

fn push_norm(c: &StageCall, ops: &mut Vec<Op>, input: DevicePtr, weight: DenseWeight, output: DevicePtr, rows: u32, cols: u32)
    requires
        all_fit(old(ops)@),
    ensures
        final(ops)@ == old(ops)@.push(norm_op(*c, input, weight, output, rows as int, cols as int)),
        all_fit(final(ops)@),
{
    ops.push(
        Op::RmsNorm {
            kernel: c.kernels.rms_norm_k,
            input,
            weight,
            output,
            rows,
            cols,
            eps: c.ctx.config.rms_norm_eps,
        },
    );
}

fn push_rotate(
    c: &StageCall,
    p: &Vec<DevicePtr>,
    ops: &mut Vec<Op>,
    kernel: KernelHandle,
    data: DevicePtr,
    positions: DevicePtr,
    count: u32,
    heads: u32,
    stride: u32,
)
    requires
        p@.len() == 13,
        all_fit(old(ops)@),
    ensures
        final(ops)@ == old(ops)@ + rotate_ops(
            *c,
            p@,
            kernel,
            data,
            positions,
            count as int,
            heads as int,
            stride as int,
        ),
        all_fit(final(ops)@),
{
    let hd: u32 = c.ctx.config.head_dim as u32;
    let nope: u32 = c.mla.nope as u32;
    let rope: u32 = c.mla.rope as u32;
    ops.push(
        Op::RopeExtract { kernel: c.kernels.extract_k, src: data, dst: p[6], count, heads, hd, nope, rope, stride },
    );
    ops.push(
        Op::RopeYarn {
            kernel,
            q: p[6],
            k: p[6],
            positions,
            count,
            nq: heads,
            nk: 0,
            head_dim: rope,
            rope,
            inv_freq: c.mla.main_inv_freq,
            mscale: F32Bits(ONE_BITS),
        },
    );
    ops.push(
        Op::RopeWriteback { kernel: c.kernels.writeback_k, src: p[6], dst: data, count, heads, hd, nope, rope, stride },
    );
    assert(ops@ =~= old(ops)@ + rotate_ops(
        *c,
        p@,
        kernel,
        data,
        positions,
        count as int,
        heads as int,
        stride as int,
    ));
}

fn push_front(c: &StageCall, d: &StageDims, p: &Vec<DevicePtr>, ops: &mut Vec<Op>)
    requires
        c.fits(),
        dims_of(*c, *d),
        p@.len() == 13,
        all_fit(old(ops)@),
    ensures
        final(ops)@ == old(ops)@ + front_ops(*c, p@),
        all_fit(final(ops)@),
{
    let ghost before = ops@;
    push_down(c, d, p, ops);
    push_norm(c, ops, p[0], c.mla.q_a_norm, p[1], d.b, d.q_lora);
    push_rows_gemv(
        ops,
        c.kernels.dense_gemv_k,
        p[1],
        d.ql_row,
        c.mla.wq_b,
        p[2],
        d.q_row,
        d.q_dim,
        d.q_lora,
        d.b as usize,
    );
    push_norm(c, ops, p[2], c.ones, p[3], d.b * c.nq, d.hd);
    push_dump(ops, c.dump, Boundary::QProj, c.stage, p[3], d.b * c.nq, d.hd, false);
    push_norm(c, ops, p[4], c.mla.kv_a_norm, p[5], d.b, d.hd);
    push_dump(ops, c.dump, Boundary::KvProj, c.stage, p[5], d.b, d.hd, false);
    push_rotate(c, p, ops, c.kernels.rope_fwd_k, p[3], c.block_pos, d.b, c.nq, d.q_dim);
    push_rotate(c, p, ops, c.kernels.rope_fwd_k, p[5], c.block_pos, d.b, 1, d.hd);
    assert(ops@ =~= before + front_ops(*c, p@));
}

fn push_store(c: &StageCall, d: &StageDims, p: &Vec<DevicePtr>, ops: &mut Vec<Op>)
    requires
        c.fits(),
        dims_of(*c, *d),
        p@.len() == 13,
        all_fit(old(ops)@),
    ensures
        final(ops)@ == old(ops)@ + store_ops(*c, p@),
        all_fit(final(ops)@),
{
    let ghost before = ops@;
    if !c.skip_store {
        ops.push(
            Op::DenseGemv {
                kernel: c.kernels.dense_gemv_k,
                input: c.main_x,
                weight: c.mla.wkv_a,
                output: p[10],
                n: d.hd,
                k: d.h,
            },
        );
        push_norm(c, ops, p[10], c.mla.kv_a_norm, p[11], 1, d.hd);
        push_rotate(c, p, ops, c.kernels.rope_fwd_k, p[11], c.main_pos, 1, 1, d.hd);
        ops.push(Op::CopyD2d { src: p[11], dst: c.ring.buf.offset(c.main_slot * d.hd_row), bytes: d.hd_row });
    }
    assert(ops@ =~= before + store_ops(*c, p@));
}

/// Offsets of output group `g` fit.
proof fn lemma_group_fits(c: StageCall, g: int)
    requires
        c.fits(),
        0 <= g < c.o_groups(),
    ensures
        0 <= c.group_in(),
        0 <= g * c.group_in() <= c.q_dim(),
        0 <= g * c.o_lora() <= c.latent_dim(),
        0 <= g * c.o_lora() * c.group_in() <= c.latent_dim() * c.group_in(),
        g * c.o_lora() * c.group_in() * 2 <= c.latent_dim() * c.group_in() * 2,
{
    let q = c.q_dim();
    let n = c.o_groups() as int;
    let gi = c.group_in();
    let l = c.o_lora() as int;
    assert(q >= 0) by (nonlinear_arith)
        requires
            q == c.nq * c.hd(),
    ;
    assert(0 <= gi && n * gi <= q) by (nonlinear_arith)
        requires
            gi == q / n,
            n > 0,
            q >= 0,
    ;
    lemma_le(g, n, gi);
    lemma_le(g, n, l);
    lemma_le(g * l, n * l, gi);
}

fn push_out_row(c: &StageCall, d: &StageDims, p: &Vec<DevicePtr>, ops: &mut Vec<Op>, t: usize)
    requires
        c.fits(),
        dims_of(*c, *d),
        p@.len() == 13,
        t < c.block(),
        all_fit(old(ops)@),
    ensures
        final(ops)@ == old(ops)@ + out_row_ops(*c, p@, t as int),
        all_fit(final(ops)@),
{
    let ghost before = ops@;
    let ghost groups_all = Seq::new(c.o_groups() as nat, |g: int| group_op(*c, p@, t as int, g));
    proof {
        lemma_row_fits(*c, t as int);
    }
    let ao = p[7].offset(t * d.q_row);
    let ol = p[8].offset(t * d.lat_row);
    let mut g: u32 = 0;
    assert(ops@ =~= before + groups_all.take(0));
    while g < d.groups
        invariant
            g <= d.groups,
            c.fits(),
            dims_of(*c, *d),
            p@.len() == 13,
            ao == at(p@[7], t * (c.q_dim() * 2)),
            ol == at(p@[8], t * (c.latent_dim() * 2)),
            groups_all == Seq::new(c.o_groups() as nat, |g: int| group_op(*c, p@, t as int, g)),
            all_fit(ops@),
            ops@ == before + groups_all.take(g as int),
        decreases d.groups - g,
    {
        proof {
            lemma_group_fits(*c, g as int);
        }
        let in_off: usize = (g * d.group_in) as usize * 2;
        let w_off: usize = (g * d.o_lora * d.group_in) as usize * 2;
        let out_off: usize = (g * d.o_lora) as usize * 2;
        ops.push(
            Op::DenseGemv {
                kernel: c.kernels.dense_gemv_k,
                input: ao.offset(in_off),
                weight: DenseWeight { weight: c.mla.wo_a.weight.offset(w_off) },
                output: ol.offset(out_off),
                n: d.o_lora,
                k: d.group_in,
            },
        );
        g += 1;
        assert(ops@ =~= before + groups_all.take(g as int));
    }
    assert(groups_all.take(g as int) =~= groups_all);
    ops.push(
        Op::DenseGemv {
            kernel: c.kernels.dense_gemv_k,
            input: ol,
            weight: c.mla.wo_b,
            output: p[9].offset(t * d.h_row),
            n: d.h,
            k: d.latent,
        },
    );
    assert(ops@ =~= before + out_row_ops(*c, p@, t as int));
}

fn push_out(c: &StageCall, d: &StageDims, p: &Vec<DevicePtr>, ops: &mut Vec<Op>)
    requires
        c.fits(),
        dims_of(*c, *d),
        p@.len() == 13,
        all_fit(old(ops)@),
    ensures
        final(ops)@ == old(ops)@ + out_ops(*c, p@, c.block() as int),
        all_fit(final(ops)@),
{
    let ghost before = ops@;
    let n: usize = d.b as usize;
    let mut t: usize = 0;
    assert(ops@ =~= before + out_ops(*c, p@, 0));
    while t < n
        invariant
            t <= n,
            n == c.block(),
            c.fits(),
            dims_of(*c, *d),
            p@.len() == 13,
            all_fit(ops@),
            ops@ == before + out_ops(*c, p@, t as int),
        decreases n - t,
    {
        push_out_row(c, d, p, ops, t);
        t += 1;
        assert(ops@ =~= before + out_ops(*c, p@, t as int));
    }
}

pub(crate) fn push_frees(p: &Vec<DevicePtr>, ops: &mut Vec<Op>)
    requires
        all_fit(old(ops)@),
    ensures
        final(ops)@ == old(ops)@ + free_ops(p@),
        all_fit(final(ops)@),
{
    let ghost before = ops@;
    let mut i: usize = 0;
    assert(ops@ =~= before + free_ops(p@).take(0));
    while i < p.len()
        invariant
            i <= p@.len(),
            all_fit(ops@),
            ops@ == before + free_ops(p@).take(i as int),
        decreases p@.len() - i,
    {
        ops.push(Op::Free { ptr: p[i] });
        i += 1;
        assert(ops@ =~= before + free_ops(p@).take(i as int));
    }
    assert(free_ops(p@).take(i as int) =~= free_ops(p@));
}

fn build_stage(c: &StageCall, p: &Vec<DevicePtr>) -> (r: Vec<Op>)
    requires
        c.fits(),
        p@.len() == 13,
    ensures
        r@ == stage_ops(*c, p@) + free_ops(p@),
        all_fit(r@),
{
    let d = dims(c);
    let mut ops: Vec<Op> = Vec::new();
    push_front(c, &d, p, &mut ops);
    push_store(c, &d, p, &mut ops);
    ops.push(
        Op::DsparkSparseAttention {
            kernel: c.kernels.dspark_attn_k,
            q: p[3],
            draft_kv: p[5],
            main_kv: c.ring.buf,
            valid_main_lengths: p[12],
            attn_sink: c.mla.attn_sink,
            out: p[7],
            softmax_scale: c.scale,
            batch_size: 1,
            block_size: d.b,
            num_heads: c.nq,
            head_dim: d.hd,
            window_size: c.ring.window as u32,
        },
    );
    push_dump(&mut ops, c.dump, Boundary::SparseOut, c.stage, p[7], d.b * c.nq, d.hd, false);
    push_rotate(c, p, &mut ops, c.kernels.rope_inv_k, p[7], c.block_pos, d.b, c.nq, d.q_dim);
    push_dump(&mut ops, c.dump, Boundary::InverseRope, c.stage, p[7], d.b * c.nq, d.hd, false);
    push_out(c, &d, p, &mut ops);
    push_dump(&mut ops, c.dump, Boundary::OutLatent, c.stage, p[8], d.b, d.latent, false);
    push_dump(&mut ops, c.dump, Boundary::OutRows, c.stage, p[9], d.b, d.h, false);
    ops.push(Op::CopyD2d { src: p[9], dst: c.out, bytes: d.b as usize * d.h_row });
    assert(ops@ =~= stage_ops(*c, p@));
    push_frees(p, &mut ops);
    ops
}

fn build_stage_sizes(c: &StageCall) -> (r: Vec<usize>)
    requires
        c.fits(),
    ensures
        r@ == stage_sizes(*c),
{
    let d = dims(c);
    let b: usize = d.b as usize;
    let rope: u32 = c.mla.rope as u32;
    let rope_row: usize = (c.nq * rope) as usize * 2;
    let r = vec![
        b * d.ql_row,
        b * d.ql_row,
        b * d.q_row,
        b * d.q_row,
        b * d.hd_row,
        b * d.hd_row,
        b * rope_row,
        b * d.q_row,
        b * d.lat_row,
        b * d.h_row,
        d.hd_row,
        d.hd_row,
        4usize,
    ];
    assert(r@ =~= stage_sizes(*c));
    r
}

/// Runs the attention of one stage.
pub fn stage_attn<G: GpuBackend>(gpu: &mut G, c: &StageCall) -> (r: Result<(), GpuError>)
    requires
        c.fits(),
    ensures
        exists|p: Seq<DevicePtr>|
            p.len() == 13 && ran(old(gpu).trace(), #[trigger] stage_attn_steps(*c, p), final(gpu).trace(), refusal(r)),
{
    let ghost pre = gpu.trace();
    let ghost s0 = Seq::<Event>::empty();
    assert(pre =~= pre + s0);
    let sizes = build_stage_sizes(c);
    let p = match go_alloc_all(gpu, &sizes, Ghost(pre), Ghost(s0)) {
        Ok(p) => p,
        Err(e) => {
            proof {
                let p = choose|p: Seq<DevicePtr>|
                    p.len() == sizes@.len() && ran(pre, s0 + #[trigger] alloc_steps(sizes@, p), gpu.trace(), Some(e));
                let s1 = s0 + alloc_steps(sizes@, p);
                let all = stage_attn_steps(*c, p);
                assert(all.take(s1.len() as int) =~= s1);
                lemma_ran_prefix(pre, s1, all, gpu.trace(), e);
            }
            return Err(e);
        },
    };
    let ghost s1 = s0 + alloc_steps(sizes@, p@);
    let ghost all = stage_attn_steps(*c, p@);
    let mut len: Vec<u8> = Vec::new();
    push_le32(&mut len, c.valid_main_len as u32);
    assert(len@ =~= le32(c.valid_main_len as u32));
    let ghost s2 = s1 + seq![put_step(len@, p@[12])];
    if let Err(e) = go_put(gpu, &len, p[12], Ghost(pre), Ghost(s1)) {
        proof {
            assert(all.take(s2.len() as int) =~= s2);
            lemma_ran_prefix(pre, s2, all, gpu.trace(), e);
        }
        return Err(e);
    }
    let ops = build_stage(c, &p);
    let r = go_ops(gpu, &ops, c.stream, Ghost(pre), Ghost(s2));
    assert(all =~= s2 + steps(ops@, c.stream));
    r
}

// ── scratch ──
proof fn lemma_down_ops(c: StageCall, p: Seq<DevicePtr>, n: int)
    ensures
        no_frees(down_ops(c, p, n)),
    decreases n,
{
    if n > 0 {
        lemma_down_ops(c, p, n - 1);
    }
}

proof fn lemma_out_ops(c: StageCall, p: Seq<DevicePtr>, n: int)
    ensures
        no_frees(out_ops(c, p, n)),
    decreases n,
{
    if n > 0 {
        lemma_out_ops(c, p, n - 1);
    }
}

proof fn lemma_stage_ops(c: StageCall, p: Seq<DevicePtr>)
    ensures
        no_frees(stage_ops(c, p)),
{
    lemma_down_ops(c, p, c.block() as int);
    lemma_out_ops(c, p, c.block() as int);
    assert(no_frees(front_ops(c, p)));
    assert(no_frees(store_ops(c, p)));
}

/// The attention of a stage gives back exactly the scratch that it took, every
/// buffer once.
pub proof fn stage_scratch_is_given_back(c: StageCall, p: Seq<DevicePtr>)
    requires
        p.len() == 13,
    ensures
        taken(stage_attn_steps(c, p)) == p.to_multiset(),
        given_back(stage_attn_steps(c, p)) == p.to_multiset(),
{
    let s1 = alloc_steps(stage_sizes(c), p);
    let put = seq![put_step(le32(c.valid_main_len as u32), p[12])];
    let s2 = s1 + put;
    let s3 = s2 + steps(stage_ops(c, p), c.stream);
    lemma_allocs(stage_sizes(c), p);
    assert(quiet(put));
    lemma_quiet_added(s1, put);
    lemma_stage_ops(c, p);
    lemma_ops_added(s2, stage_ops(c, p), c.stream);
    lemma_steps_add(stage_ops(c, p), free_ops(p), c.stream);
    assert(stage_attn_steps(c, p) =~= s3 + steps(free_ops(p), c.stream));
    lemma_frees(p, c.stream);
    lemma_buffers_add(s3, steps(free_ops(p), c.stream));
    assert(taken(stage_attn_steps(c, p)) =~= p.to_multiset());
    assert(given_back(stage_attn_steps(c, p)) =~= p.to_multiset());
}

} // verus!
