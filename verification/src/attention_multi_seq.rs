//! Latent attention over the two tokens of a speculative verify.
//!
//! Both tokens go through every projection together, so each weight is read
//! once. Queries, keys and values are packed token after token.

use vstd::prelude::*;

use crate::attention::{MlaWeights, Qwen3AttentionLayer};
use crate::attention_cache::{write_steps, CacheWrite};
use crate::config::ForwardContext;
use crate::gpu::{at, DenseWeight, DevicePtr, F32Bits, Fp8Scales, Fp8Weight, GpuError, QuantizedWeight, ONE_BITS};
use crate::kv_cache::KvLayout;
use crate::op::{AttnMetadataDev, CacheId, Op};
use crate::run::{all_fit, push_wait, run_ops, steps, wait_if};
use crate::trace::{lemma_ran_cut, lemma_ran_next, lemma_ran_then, ran, refusal, Event, GpuBackend};

verus! {

/// What the two-token path is told.
#[derive(Clone, Copy, PartialEq, Eq, Structural, Debug)]
pub struct MultiSeqCtx {
    pub layer: Qwen3AttentionLayer,
    pub mla: MlaWeights,
    pub fwd: ForwardContext,
    pub normed: DevicePtr,
    pub h: usize,
    pub nq: u32,
    pub nkv: u32,
    pub hd: u32,
    /// Bytes of one element.
    pub bf16: usize,
    /// Rows per cache block.
    pub bs: u32,
    pub eps: F32Bits,
    /// Wait for the device between stages, so that they can be timed.
    pub profile: bool,
}

impl MultiSeqCtx {
    pub open spec fn q_dim(self) -> int {
        self.nq * self.hd
    }

    pub open spec fn kv_dim(self) -> int {
        self.nkv * self.hd
    }

    pub open spec fn q_lora(self) -> u32 {
        self.mla.q_lora_rank as u32
    }

    pub open spec fn rope(self) -> u32 {
        self.mla.rope as u32
    }

    pub open spec fn cache_dim(self) -> int {
        (self.mla.kv_lora_rank as u32) + self.rope()
    }

    pub open spec fn o_groups(self) -> u32 {
        if self.fwd.config.o_groups == 0 { 1 } else { self.fwd.config.o_groups as u32 }
    }

    pub open spec fn group_in(self) -> int {
        self.q_dim() / self.o_groups() as int
    }

    pub open spec fn o_lora(self) -> u32 {
        self.mla.o_lora_rank as u32
    }

    pub open spec fn latent_dim(self) -> int {
        self.o_groups() * self.o_lora()
    }

    /// Queries of token 0 and 1, then keys, then values.
    pub open spec fn q_out(self) -> DevicePtr {
        self.fwd.buffers.ssm_qkvz
    }

    pub open spec fn k_out(self) -> DevicePtr {
        at(self.q_out(), 2 * self.q_dim() * self.bf16)
    }

    pub open spec fn v_out(self) -> DevicePtr {
        at(self.k_out(), 2 * self.kv_dim() * self.bf16)
    }

    /// The sizes fit the machine's words.
    pub open spec fn fits(self) -> bool {
        &&& self.q_dim() <= u32::MAX
        &&& self.kv_dim() <= u32::MAX
        &&& 2 * self.nq <= u32::MAX
        &&& 2 * self.nkv <= u32::MAX
        &&& self.nkv > 0
        &&& self.cache_dim() <= u32::MAX
        &&& 2 * self.q_dim() <= usize::MAX
        &&& 2 * self.q_dim() * self.bf16 <= usize::MAX
        &&& 2 * self.kv_dim() * self.bf16 <= usize::MAX
        &&& self.h * self.bf16 <= usize::MAX
        &&& self.q_lora() * self.bf16 <= usize::MAX
        &&& self.o_groups() > 0
        &&& self.latent_dim() <= u32::MAX
        &&& 2 * self.latent_dim() <= usize::MAX
        &&& 2 * self.latent_dim() * self.bf16 <= usize::MAX
        &&& self.latent_dim() * self.group_in() * self.bf16 <= usize::MAX
        &&& self.latent_dim() * self.group_in() <= usize::MAX
        &&& self.o_groups() * (self.o_lora() / 128) * (self.group_in() / 128) * 4 <= usize::MAX
    }
}

pub open spec fn gemv_op(c: MultiSeqCtx, input: DevicePtr, weight: DenseWeight, output: DevicePtr, n: int, k: int) -> Op {
    Op::DenseGemv { kernel: c.layer.dense_gemv_k, input, weight, output, n: n as u32, k: k as u32 }
}

/// One projection of both tokens: through four-bit weights where there are any,
/// else eight-bit ones, else token by token through the dense weight.
pub open spec fn project_ops(
    c: MultiSeqCtx,
    input: DevicePtr,
    in_bytes: int,
    nvfp4: Option<QuantizedWeight>,
    fp8: Option<Fp8Weight>,
    dense: DenseWeight,
    output: DevicePtr,
    out_bytes: int,
    n: int,
    k: int,
) -> Seq<Op> {
    match (nvfp4, fp8) {
        (Some(weight), _) => seq![
            Op::W4a16GemvBatch2 { kernel: c.layer.w4a16_gemv_batch2_k, input, weight, output, n: n as u32, k: k as u32 },
        ],
        (None, Some(w)) => seq![
            Op::W8a16GemvBatch2 {
                kernel: c.layer.w8a16_gemv_batch4_k,
                input,
                weight: w.weight,
                row_scale: w.row_scale,
                output,
                n: n as u32,
                k: k as u32,
            },
        ],
        (None, None) => seq![
            gemv_op(c, input, dense, output, n, k),
            gemv_op(c, at(input, in_bytes), dense, at(output, out_bytes), n, k),
        ],
    }
}

fn push_project(
    c: &MultiSeqCtx,
    ops: &mut Vec<Op>,
    input: DevicePtr,
    in_bytes: usize,
    nvfp4: Option<QuantizedWeight>,
    fp8: Option<Fp8Weight>,
    dense: DenseWeight,
    output: DevicePtr,
    out_bytes: usize,
    n: u32,
    k: u32,
)
    requires
        all_fit(old(ops)@),
    ensures
        final(ops)@ == old(ops)@ + project_ops(
            *c,
            input,
            in_bytes as int,
            nvfp4,
            fp8,
            dense,
            output,
            out_bytes as int,
            n as int,
            k as int,
        ),
        all_fit(final(ops)@),
{
    match (nvfp4, fp8) {
        (Some(weight), _) => {
            ops.push(Op::W4a16GemvBatch2 { kernel: c.layer.w4a16_gemv_batch2_k, input, weight, output, n, k });
        },
        (None, Some(w)) => {
            ops.push(
                Op::W8a16GemvBatch2 {
                    kernel: c.layer.w8a16_gemv_batch4_k,
                    input,
                    weight: w.weight,
                    row_scale: w.row_scale,
                    output,
                    n,
                    k,
                },
            );
        },
        (None, None) => {
            ops.push(Op::DenseGemv { kernel: c.layer.dense_gemv_k, input, weight: dense, output, n, k });
            ops.push(
                Op::DenseGemv {
                    kernel: c.layer.dense_gemv_k,
                    input: input.offset(in_bytes),
                    weight: dense,
                    output: output.offset(out_bytes),
                    n,
                    k,
                },
            );
        },
    }
    assert(ops@ =~= old(ops)@ + project_ops(
        *c,
        input,
        in_bytes as int,
        nvfp4,
        fp8,
        dense,
        output,
        out_bytes as int,
        n as int,
        k as int,
    ));
}

pub open spec fn norm_op(c: MultiSeqCtx, weighted: bool, row: DevicePtr, weight: DenseWeight, rows: int, cols: int) -> Op {
    Op::RmsNorm {
        kernel: if weighted { c.layer.rms_norm_w_k } else { c.layer.rms_norm_k },
        input: row,
        weight,
        output: row,
        rows: rows as u32,
        cols: cols as u32,
        eps: c.eps,
    }
}

pub open spec fn extract_op(c: MultiSeqCtx, src: DevicePtr, dst: DevicePtr, heads: u32, stride: int) -> Op {
    Op::RopeExtract {
        kernel: c.layer.mla_q_rope_extract_batched_k,
        src,
        dst,
        count: 2,
        heads,
        hd: c.hd,
        nope: c.mla.nope as u32,
        rope: c.rope(),
        stride: stride as u32,
    }
}

pub open spec fn writeback_op(c: MultiSeqCtx, src: DevicePtr, dst: DevicePtr, heads: u32, stride: int) -> Op {
    Op::RopeWriteback {
        kernel: c.layer.mla_q_rope_writeback_batched_k,
        src,
        dst,
        count: 2,
        heads,
        hd: c.hd,
        nope: c.mla.nope as u32,
        rope: c.rope(),
        stride: stride as u32,
    }
}

/// The rotation. Layers that compress use the stretched frequencies.
pub open spec fn rotate_op(c: MultiSeqCtx, inverse: bool, q: DevicePtr, k: DevicePtr, positions: DevicePtr, nk: u32) -> Op {
    Op::RopeYarn {
        kernel: if inverse { c.layer.rope_yarn_interleaved_inv_k } else { c.layer.rope_yarn_interleaved_k },
        q,
        k,
        positions,
        count: 2,
        nq: c.nq,
        nk,
        head_dim: c.rope(),
        rope: c.rope(),
        inv_freq: if c.mla.compressor { c.mla.yarn_inv_freq } else { c.mla.main_inv_freq },
        mscale: if c.mla.compressor { c.mla.yarn_mscale } else { F32Bits(ONE_BITS) },
    }
}

fn make_extract(c: &MultiSeqCtx, src: DevicePtr, dst: DevicePtr, heads: u32, stride: u32) -> (r: Op)
    ensures
        r == extract_op(*c, src, dst, heads, stride as int),
{
    Op::RopeExtract {
        kernel: c.layer.mla_q_rope_extract_batched_k,
        src,
        dst,
        count: 2,
        heads,
        hd: c.hd,
        nope: c.mla.nope as u32,
        rope: c.mla.rope as u32,
        stride,
    }
}

fn make_writeback(c: &MultiSeqCtx, src: DevicePtr, dst: DevicePtr, heads: u32, stride: u32) -> (r: Op)
    ensures
        r == writeback_op(*c, src, dst, heads, stride as int),
{
    Op::RopeWriteback {
        kernel: c.layer.mla_q_rope_writeback_batched_k,
        src,
        dst,
        count: 2,
        heads,
        hd: c.hd,
        nope: c.mla.nope as u32,
        rope: c.mla.rope as u32,
        stride,
    }
}

fn make_rotate(c: &MultiSeqCtx, inverse: bool, q: DevicePtr, k: DevicePtr, positions: DevicePtr, nk: u32) -> (r: Op)
    ensures
        r == rotate_op(*c, inverse, q, k, positions, nk),
{
    Op::RopeYarn {
        kernel: if inverse { c.layer.rope_yarn_interleaved_inv_k } else { c.layer.rope_yarn_interleaved_k },
        q,
        k,
        positions,
        count: 2,
        nq: c.nq,
        nk,
        head_dim: c.mla.rope as u32,
        rope: c.mla.rope as u32,
        inv_freq: if c.mla.compressor { c.mla.yarn_inv_freq } else { c.mla.main_inv_freq },
        mscale: if c.mla.compressor { c.mla.yarn_mscale } else { F32Bits(ONE_BITS) },
    }
}

/// Queries, keys and values of both tokens. The values are the keys before
/// their rotation.
pub open spec fn qkv_ops(c: MultiSeqCtx) -> Seq<Op> {
    let b = c.fwd.buffers;
    let h = c.h as u32 as int;
    project_ops(
        c,
        c.normed,
        c.h * c.bf16,
        c.mla.wq_a_nvfp4,
        c.mla.wq_a_fp8,
        c.mla.wq_a,
        b.ssm_ba,
        c.q_lora() * c.bf16,
        c.q_lora() as int,
        h,
    ) + seq![norm_op(c, true, b.ssm_ba, c.mla.q_a_norm, 2, c.q_lora() as int)] + wait_if(c.profile) + project_ops(
        c,
        b.ssm_ba,
        c.q_lora() * c.bf16,
        c.mla.wq_b_nvfp4,
        c.mla.wq_b_fp8,
        c.mla.wq_b,
        c.q_out(),
        c.q_dim() * c.bf16,
        c.q_dim(),
        c.q_lora() as int,
    ) + seq![norm_op(c, false, c.q_out(), (DenseWeight { weight: b.norm_unit_w }), 2 * c.nq, c.hd as int)] + wait_if(
        c.profile,
    ) + project_ops(
        c,
        c.normed,
        c.h * c.bf16,
        c.mla.wkv_a_nvfp4,
        c.mla.wkv_a_fp8,
        c.mla.wkv_a,
        c.k_out(),
        c.kv_dim() * c.bf16,
        c.kv_dim(),
        h,
    ) + seq![
        norm_op(c, true, c.k_out(), c.mla.kv_a_norm, 2 * c.nkv, c.kv_dim() / c.nkv as int),
        Op::CopyD2d { src: c.k_out(), dst: c.v_out(), bytes: (2 * c.kv_dim() * c.bf16) as usize },
    ] + wait_if(c.profile)
}

/// Rotation of queries and keys.
pub open spec fn rope_ops(c: MultiSeqCtx, positions: DevicePtr) -> Seq<Op> {
    let b = c.fwd.buffers;
    seq![
        extract_op(c, c.q_out(), b.ssm_conv_out_f32, c.nq, c.q_dim()),
        extract_op(c, c.k_out(), b.ssm_ba, 1, c.hd as int),
        rotate_op(c, false, b.ssm_conv_out_f32, b.ssm_ba, positions, 1),
        writeback_op(c, b.ssm_conv_out_f32, c.q_out(), c.nq, c.q_dim()),
        writeback_op(c, b.ssm_ba, c.k_out(), 1, c.hd as int),
    ]
}

/// The cache rows of both tokens.
pub open spec fn n2_write(c: MultiSeqCtx, slot: DevicePtr) -> CacheWrite {
    CacheWrite {
        k: c.fwd.buffers.ssm_deinterleaved,
        v: c.fwd.buffers.expert_up_out,
        slot,
        num_tokens: 2,
        num_kv_heads: 1,
        head_dim: c.cache_dim() as u32,
        block_size: c.bs,
        key_stride: c.cache_dim() as u32,
        value_stride: c.cache_dim() as u32,
        graph_capture: c.fwd.graph_capture,
    }
}

/// Assembling the rows from latent and rotated key.
pub open spec fn assemble_op(c: MultiSeqCtx) -> Op {
    let b = c.fwd.buffers;
    Op::CacheAssemble {
        kernel: c.layer.mla_cache_assemble_batched_k,
        v: c.v_out(),
        k_rope: b.ssm_ba,
        k_cache: b.ssm_deinterleaved,
        v_cache: b.expert_up_out,
        count: 2,
        kv_lora: c.mla.kv_lora_rank as u32,
        rope: c.rope(),
        cache_dim: c.cache_dim() as u32,
    }
}

/// Attention over the cache, and the output turned back.
pub open spec fn attend_ops(c: MultiSeqCtx, cache: CacheId, meta: AttnMetadataDev) -> Seq<Op> {
    let b = c.fwd.buffers;
    seq![
        Op::PagedDecode {
            layer: c.layer.attn_layer_idx,
            cache,
            q: c.q_out(),
            out: b.attn_output,
            block_table: meta.block_table,
            seq_len: meta.seq_len,
            max_blocks: meta.max_blocks_per_seq,
            count: 2,
            nq: c.nq,
            nkv: c.nkv,
            hd: c.hd,
            block_size: c.bs,
            scale: c.layer.attn_scale,
            q_stride: c.q_dim() as u32,
            workspace: b.splitk_workspace,
        },
    ] + wait_if(c.profile) + seq![
        extract_op(c, b.attn_output, b.ssm_conv_out_f32, c.nq, c.q_dim()),
        rotate_op(c, true, b.ssm_conv_out_f32, b.ssm_conv_out_f32, meta.positions, 0),
        writeback_op(c, b.ssm_conv_out_f32, b.attn_output, c.nq, c.q_dim()),
    ] + wait_if(c.profile)
}

fn build_qkv(c: &MultiSeqCtx) -> (r: Vec<Op>)
    requires
        c.fits(),
    ensures
        r@ == qkv_ops(*c),
        all_fit(r@),
{
    let b = &c.fwd.buffers;
    let h: u32 = c.h as u32;
    let q_lora: u32 = c.mla.q_lora_rank as u32;
    let q_dim: u32 = c.nq * c.hd;
    let kv_dim: u32 = c.nkv * c.hd;
    assert(2 * c.q_dim() * c.bf16 == 2 * (c.q_dim() * c.bf16)) by (nonlinear_arith);
    assert(2 * c.kv_dim() * c.bf16 == 2 * (c.kv_dim() * c.bf16)) by (nonlinear_arith);
    let q_bytes: usize = q_dim as usize * c.bf16;
    let kv_bytes: usize = kv_dim as usize * c.bf16;
    let q_out = b.ssm_qkvz;
    let k_out = q_out.offset(2 * q_bytes);
    let v_out = k_out.offset(2 * kv_bytes);
    let mut ops: Vec<Op> = Vec::new();
    push_project(
        c,
        &mut ops,
        c.normed,
        c.h * c.bf16,
        c.mla.wq_a_nvfp4,
        c.mla.wq_a_fp8,
        c.mla.wq_a,
        b.ssm_ba,
        q_lora as usize * c.bf16,
        q_lora,
        h,
    );
    ops.push(
        Op::RmsNorm {
            kernel: c.layer.rms_norm_w_k,
            input: b.ssm_ba,
            weight: c.mla.q_a_norm,
            output: b.ssm_ba,
            rows: 2,
            cols: q_lora,
            eps: c.eps,
        },
    );
    push_wait(&mut ops, c.profile);
    push_project(
        c,
        &mut ops,
        b.ssm_ba,
        q_lora as usize * c.bf16,
        c.mla.wq_b_nvfp4,
        c.mla.wq_b_fp8,
        c.mla.wq_b,
        q_out,
        q_bytes,
        q_dim,
        q_lora,
    );
    ops.push(
        Op::RmsNorm {
            kernel: c.layer.rms_norm_k,
            input: q_out,
            weight: DenseWeight { weight: b.norm_unit_w },
            output: q_out,
            rows: 2 * c.nq,
            cols: c.hd,
            eps: c.eps,
        },
    );
    push_wait(&mut ops, c.profile);
    push_project(
        c,
        &mut ops,
        c.normed,
        c.h * c.bf16,
        c.mla.wkv_a_nvfp4,
        c.mla.wkv_a_fp8,
        c.mla.wkv_a,
        k_out,
        kv_bytes,
        kv_dim,
        h,
    );
    ops.push(
        Op::RmsNorm {
            kernel: c.layer.rms_norm_w_k,
            input: k_out,
            weight: c.mla.kv_a_norm,
            output: k_out,
            rows: 2 * c.nkv,
            cols: kv_dim / c.nkv,
            eps: c.eps,
        },
    );
    ops.push(Op::CopyD2d { src: k_out, dst: v_out, bytes: 2 * kv_bytes });
    push_wait(&mut ops, c.profile);
    assert(ops@ =~= qkv_ops(*c));
    ops
}

fn build_rope(c: &MultiSeqCtx, positions: DevicePtr) -> (r: Vec<Op>)
    requires
        c.fits(),
    ensures
        r@ == rope_ops(*c, positions),
        all_fit(r@),
{
    let b = &c.fwd.buffers;
    let q_dim: u32 = c.nq * c.hd;
    assert(2 * c.q_dim() * c.bf16 == 2 * (c.q_dim() * c.bf16)) by (nonlinear_arith);
    let q_out = b.ssm_qkvz;
    let k_out = q_out.offset(2 * (q_dim as usize * c.bf16));
    let r = vec![
        make_extract(c, q_out, b.ssm_conv_out_f32, c.nq, q_dim),
        make_extract(c, k_out, b.ssm_ba, 1, c.hd),
        make_rotate(c, false, b.ssm_conv_out_f32, b.ssm_ba, positions, 1),
        make_writeback(c, b.ssm_conv_out_f32, q_out, c.nq, q_dim),
        make_writeback(c, b.ssm_ba, k_out, 1, c.hd),
    ];
    assert(r@ =~= rope_ops(*c, positions));
    r
}

fn make_assemble(c: &MultiSeqCtx) -> (r: Op)
    requires
        c.fits(),
    ensures
        r == assemble_op(*c),
{
    let b = &c.fwd.buffers;
    let q_dim: u32 = c.nq * c.hd;
    let kv_dim: u32 = c.nkv * c.hd;
    assert(2 * c.q_dim() * c.bf16 == 2 * (c.q_dim() * c.bf16)) by (nonlinear_arith);
    assert(2 * c.kv_dim() * c.bf16 == 2 * (c.kv_dim() * c.bf16)) by (nonlinear_arith);
    let k_out = b.ssm_qkvz.offset(2 * (q_dim as usize * c.bf16));
    let v_out = k_out.offset(2 * (kv_dim as usize * c.bf16));
    let kv_lora: u32 = c.mla.kv_lora_rank as u32;
    let rope: u32 = c.mla.rope as u32;
    Op::CacheAssemble {
        kernel: c.layer.mla_cache_assemble_batched_k,
        v: v_out,
        k_rope: b.ssm_ba,
        k_cache: b.ssm_deinterleaved,
        v_cache: b.expert_up_out,
        count: 2,
        kv_lora,
        rope,
        cache_dim: kv_lora + rope,
    }
}

fn build_attend(c: &MultiSeqCtx, cache: CacheId, meta: &AttnMetadataDev) -> (r: Vec<Op>)
    requires
        c.fits(),
    ensures
        r@ == attend_ops(*c, cache, *meta),
        all_fit(r@),
{
    let b = &c.fwd.buffers;
    let q_dim: u32 = c.nq * c.hd;
    let mut r = vec![
        Op::PagedDecode {
            layer: c.layer.attn_layer_idx,
            cache,
            q: b.ssm_qkvz,
            out: b.attn_output,
            block_table: meta.block_table,
            seq_len: meta.seq_len,
            max_blocks: meta.max_blocks_per_seq,
            count: 2,
            nq: c.nq,
            nkv: c.nkv,
            hd: c.hd,
            block_size: c.bs,
            scale: c.layer.attn_scale,
            q_stride: q_dim,
            workspace: b.splitk_workspace,
        },
    ];
    push_wait(&mut r, c.profile);
    r.push(make_extract(c, b.attn_output, b.ssm_conv_out_f32, c.nq, q_dim));
    r.push(make_rotate(c, true, b.ssm_conv_out_f32, b.ssm_conv_out_f32, meta.positions, 0));
    r.push(make_writeback(c, b.ssm_conv_out_f32, b.attn_output, c.nq, q_dim));
    push_wait(&mut r, c.profile);
    assert(r@ =~= attend_ops(*c, cache, *meta));
    r
}

// ── output projection ──
/// One group of the block-diagonal first factor, for both tokens.
///
/// With eight-bit weights the two rows of the group are packed side by side,
/// projected together and unpacked. Otherwise each token is projected on its own
/// after the rows were packed.
pub open spec fn group_ops(c: MultiSeqCtx, attn: DevicePtr, g: int) -> Seq<Op> {
    let e = c.bf16 as int;
    let pack_in = c.fwd.buffers.splitk_workspace;
    let pack_out = at(pack_in, 2 * (c.group_in() * e));
    let latent = c.fwd.buffers.o_latent;
    let row = c.group_in() * e;
    let out_row = c.o_lora() * e;
    let pack = seq![
        Op::CopyD2d { src: at(attn, g * c.group_in() * e), dst: pack_in, bytes: row as usize },
        Op::CopyD2d { src: at(attn, (c.q_dim() + g * c.group_in()) * e), dst: at(pack_in, row), bytes: row as usize },
    ];
    match c.mla.wo_a_fp8 {
        Some(w) => pack + seq![
            Op::W8a16GemvBatch2 {
                kernel: c.layer.w8a16_gemv_batch4_k,
                input: pack_in,
                weight: at(w.weight, g * c.o_lora() * c.group_in()),
                row_scale: at(w.row_scale, g * (c.o_lora() / 128) * (c.group_in() / 128) * 4),
                output: pack_out,
                n: c.o_lora(),
                k: c.group_in() as u32,
            },
            Op::CopyD2d { src: pack_out, dst: at(latent, g * c.o_lora() * e), bytes: out_row as usize },
            Op::CopyD2d {
                src: at(pack_out, out_row),
                dst: at(latent, (c.latent_dim() + g * c.o_lora()) * e),
                bytes: out_row as usize,
            },
        ],
        None => pack + seq![
            gemv_op(
                c,
                at(attn, g * c.group_in() * e),
                (DenseWeight { weight: at(c.mla.wo_a.weight, g * c.o_lora() * c.group_in() * e) }),
                at(latent, g * c.o_lora() * e),
                c.o_lora() as int,
                c.group_in(),
            ),
            gemv_op(
                c,
                at(attn, (c.q_dim() + g * c.group_in()) * e),
                (DenseWeight { weight: at(c.mla.wo_a.weight, g * c.o_lora() * c.group_in() * e) }),
                at(latent, (c.latent_dim() + g * c.o_lora()) * e),
                c.o_lora() as int,
                c.group_in(),
            ),
        ],
    }
}

/// The first `n` groups.
pub open spec fn groups_ops(c: MultiSeqCtx, attn: DevicePtr, n: int) -> Seq<Op>
    decreases n,
{
    if n <= 0 {
        Seq::empty()
    } else {
        groups_ops(c, attn, n - 1) + group_ops(c, attn, n - 1)
    }
}

/// The grouped low-rank output projection of both tokens.
pub open spec fn output_ops(c: MultiSeqCtx, attn: DevicePtr, o_out: DevicePtr) -> Seq<Op> {
    groups_ops(c, attn, c.o_groups() as int) + project_ops(
        c,
        c.fwd.buffers.o_latent,
        c.latent_dim() * c.bf16,
        None,
        c.mla.wo_b_fp8,
        c.mla.wo_b,
        o_out,
        c.h * c.bf16,
        c.h as u32 as int,
        c.latent_dim(),
    )
}

/// Offsets of a group lie inside their tensors.
proof fn lemma_group_bounds(c: MultiSeqCtx, g: int)
    requires
        c.fits(),
        0 <= g < c.o_groups(),
    ensures
        0 <= c.group_in() <= c.q_dim(),
        0 <= g * c.group_in() <= c.q_dim(),
        0 <= g * c.o_lora() <= c.latent_dim(),
        0 <= c.group_in() * c.bf16 <= c.q_dim() * c.bf16,
        0 <= g * c.group_in() * c.bf16 <= c.q_dim() * c.bf16,
        (c.q_dim() + g * c.group_in()) * c.bf16 <= 2 * c.q_dim() * c.bf16,
        2 * (c.group_in() * c.bf16) <= 2 * c.q_dim() * c.bf16,
        g * c.o_lora() * c.bf16 <= 2 * c.latent_dim() * c.bf16,
        (c.latent_dim() + g * c.o_lora()) * c.bf16 <= 2 * c.latent_dim() * c.bf16,
        c.o_lora() * c.bf16 <= 2 * c.latent_dim() * c.bf16,
        g * c.o_lora() * c.group_in() <= c.latent_dim() * c.group_in(),
        g * c.o_lora() * c.group_in() * c.bf16 <= c.latent_dim() * c.group_in() * c.bf16,
        0 <= g * (c.o_lora() / 128) <= c.latent_dim(),
        g * (c.o_lora() / 128) * (c.group_in() / 128) * 4 <= c.o_groups() * (c.o_lora() / 128) * (c.group_in() / 128)
            * 4,
        0 <= g * (c.o_lora() / 128) * (c.group_in() / 128),
{
    let q = c.q_dim();
    let gi = c.group_in();
    let n = c.o_groups() as int;
    let e = c.bf16 as int;
    let l = c.o_lora() as int;
    assert(q >= 0) by (nonlinear_arith)
        requires
            q == c.nq * c.hd,
    ;
    assert(0 <= gi <= q && n * gi <= q) by (nonlinear_arith)
        requires
            gi == q / n,
            n > 0,
            q >= 0,
    ;
    assert(0 <= g * gi <= n * gi) by (nonlinear_arith)
        requires
            0 <= g < n,
            gi >= 0,
    ;
    assert(0 <= g * l <= n * l && l <= n * l) by (nonlinear_arith)
        requires
            0 <= g < n,
            l >= 0,
    ;
    assert(0 <= gi * e <= q * e && 2 * (gi * e) <= 2 * q * e) by (nonlinear_arith)
        requires
            0 <= gi <= q,
            e >= 0,
    ;
    let gg = g * gi;
    assert(0 <= gg * e <= q * e && (q + gg) * e <= 2 * q * e) by (nonlinear_arith)
        requires
            0 <= gg <= q,
            e >= 0,
    ;
    let d = n * l;
    let gl = g * l;
    assert(gl * e <= 2 * d * e && (d + gl) * e <= 2 * d * e && l * e <= 2 * d * e) by (nonlinear_arith)
        requires
            0 <= gl <= d,
            0 <= l <= d,
            e >= 0,
    ;
    assert(gl * gi <= d * gi) by (nonlinear_arith)
        requires
            0 <= gl <= d,
            gi >= 0,
    ;
    let x = gl * gi;
    let y = d * gi;
    assert(x * e <= y * e) by (nonlinear_arith)
        requires
            x <= y,
            e >= 0,
    ;
    let l128 = (c.o_lora() / 128) as int;
    let g128 = gi / 128;
    assert(0 <= g * l128 <= n * l128) by (nonlinear_arith)
        requires
            0 <= g < n,
            l128 >= 0,
    ;
    assert(n * l128 <= n * l) by (nonlinear_arith)
        requires
            0 <= l128 <= l,
            n >= 0,
    ;
    let p = g * l128;
    let r = n * l128;
    assert(0 <= p * g128 && p * g128 * 4 <= r * g128 * 4) by (nonlinear_arith)
        requires
            0 <= p <= r,
            g128 >= 0,
    ;
}

fn push_group(c: &MultiSeqCtx, ops: &mut Vec<Op>, attn: DevicePtr, g: u32)
    requires
        c.fits(),
        g < c.o_groups(),
        all_fit(old(ops)@),
    ensures
        final(ops)@ == old(ops)@ + group_ops(*c, attn, g as int),
        all_fit(final(ops)@),
{
    proof {
        lemma_group_bounds(*c, g as int);
        assert(2 * c.q_dim() * c.bf16 == 2 * (c.q_dim() * c.bf16)) by (nonlinear_arith);
    }
    let o_groups: u32 = if c.fwd.config.o_groups == 0 { 1 } else { c.fwd.config.o_groups as u32 };
    let q_dim: u32 = c.nq * c.hd;
    let o_lora: u32 = c.mla.o_lora_rank as u32;
    let group_in: u32 = q_dim / o_groups;
    let latent_dim: u32 = o_groups * o_lora;
    let latent = c.fwd.buffers.o_latent;
    let pack_in = c.fwd.buffers.splitk_workspace;
    let row: usize = group_in as usize * c.bf16;
    let pack_out = pack_in.offset(2 * row);
    let src0 = attn.offset((g * group_in) as usize * c.bf16);
    let src1 = attn.offset((q_dim as usize + (g * group_in) as usize) * c.bf16);
    let dst0 = latent.offset((g * o_lora) as usize * c.bf16);
    let dst1 = latent.offset((latent_dim as usize + (g * o_lora) as usize) * c.bf16);
    ops.push(Op::CopyD2d { src: src0, dst: pack_in, bytes: row });
    ops.push(Op::CopyD2d { src: src1, dst: pack_in.offset(row), bytes: row });
    match c.mla.wo_a_fp8 {
        Some(w) => {
            let w_off: usize = (g * o_lora) as usize * group_in as usize;
            let s_off: usize = g as usize * (o_lora as usize / 128) * (group_in as usize / 128) * 4;
            let out_row: usize = o_lora as usize * c.bf16;
            ops.push(
                Op::W8a16GemvBatch2 {
                    kernel: c.layer.w8a16_gemv_batch4_k,
                    input: pack_in,
                    weight: w.weight.offset(w_off),
                    row_scale: w.row_scale.offset(s_off),
                    output: pack_out,
                    n: o_lora,
                    k: group_in,
                },
            );
            ops.push(Op::CopyD2d { src: pack_out, dst: dst0, bytes: out_row });
            ops.push(Op::CopyD2d { src: pack_out.offset(out_row), dst: dst1, bytes: out_row });
        },
        None => {
            let w_off: usize = (g * o_lora) as usize * group_in as usize * c.bf16;
            let weight = DenseWeight { weight: c.mla.wo_a.weight.offset(w_off) };
            ops.push(
                Op::DenseGemv { kernel: c.layer.dense_gemv_k, input: src0, weight, output: dst0, n: o_lora, k: group_in },
            );
            ops.push(
                Op::DenseGemv { kernel: c.layer.dense_gemv_k, input: src1, weight, output: dst1, n: o_lora, k: group_in },
            );
        },
    }
    assert(ops@ =~= old(ops)@ + group_ops(*c, attn, g as int));
}

fn push_output(c: &MultiSeqCtx, ops: &mut Vec<Op>, attn: DevicePtr, o_out: DevicePtr)
    requires
        c.fits(),
        all_fit(old(ops)@),
    ensures
        final(ops)@ == old(ops)@ + output_ops(*c, attn, o_out),
        all_fit(final(ops)@),
{
    let o_groups: u32 = if c.fwd.config.o_groups == 0 { 1 } else { c.fwd.config.o_groups as u32 };
    let ghost before = ops@;
    let mut g: u32 = 0;
    assert(ops@ =~= before + groups_ops(*c, attn, 0));
    while g < o_groups
        invariant
            g <= o_groups,
            o_groups == c.o_groups(),
            c.fits(),
            all_fit(ops@),
            ops@ == before + groups_ops(*c, attn, g as int),
        decreases o_groups - g,
    {
        push_group(c, ops, attn, g);
        g += 1;
        assert(ops@ =~= before + groups_ops(*c, attn, g as int));
    }
    proof {
        lemma_group_bounds(*c, 0);
        assert(c.latent_dim() * c.bf16 <= 2 * c.latent_dim() * c.bf16) by (nonlinear_arith)
            requires
                c.latent_dim() >= 0,
                c.bf16 >= 0,
        ;
    }
    let latent_dim: u32 = o_groups * c.mla.o_lora_rank as u32;
    push_project(
        c,
        ops,
        c.fwd.buffers.o_latent,
        latent_dim as usize * c.bf16,
        None,
        c.mla.wo_b_fp8,
        c.mla.wo_b,
        o_out,
        c.h * c.bf16,
        c.h as u32,
        latent_dim,
    );
    assert(ops@ =~= before + output_ops(*c, attn, o_out));
}

/// What precedes the cache write of both tokens.
#[verifier::opaque]
pub open spec fn n2_lead(c: MultiSeqCtx, meta: AttnMetadataDev) -> Seq<Op> {
    wait_if(c.profile) + qkv_ops(c) + rope_ops(c, meta.positions) + seq![assemble_op(c)]
}

/// What follows it.
#[verifier::opaque]
pub open spec fn n2_rest(c: MultiSeqCtx, cache: CacheId, meta: AttnMetadataDev, o_out: DevicePtr) -> Seq<Op> {
    wait_if(c.profile) + attend_ops(c, cache, meta) + output_ops(c, c.fwd.buffers.attn_output, o_out) + wait_if(
        c.profile,
    )
}

/// The program of the two-token path, where the cache has the scales `s`.
pub open spec fn flash_n2_steps(
    c: MultiSeqCtx,
    layout: KvLayout,
    meta: AttnMetadataDev,
    o_out: DevicePtr,
    s: Fp8Scales,
    stream: u64,
) -> Seq<Event> {
    steps(n2_lead(c, meta), stream) + write_steps(c.layer, layout, n2_write(c, meta.slot), s, stream) + steps(
        n2_rest(c, layout.cache, meta, o_out),
        stream,
    )
}

fn build_n2_lead(c: &MultiSeqCtx, meta: &AttnMetadataDev) -> (r: Vec<Op>)
    requires
        c.fits(),
    ensures
        r@ == n2_lead(*c, *meta),
        all_fit(r@),
{
    reveal(n2_lead);
    let mut ops: Vec<Op> = Vec::new();
    push_wait(&mut ops, c.profile);
    append_ops(&mut ops, &build_qkv(c));
    append_ops(&mut ops, &build_rope(c, meta.positions));
    ops.push(make_assemble(c));
    assert(ops@ =~= n2_lead(*c, *meta));
    ops
}

fn build_n2_rest(c: &MultiSeqCtx, cache: CacheId, meta: &AttnMetadataDev, o_out: DevicePtr) -> (r: Vec<Op>)
    requires
        c.fits(),
    ensures
        r@ == n2_rest(*c, cache, *meta, o_out),
        all_fit(r@),
{
    reveal(n2_rest);
    let mut ops: Vec<Op> = Vec::new();
    push_wait(&mut ops, c.profile);
    append_ops(&mut ops, &build_attend(c, cache, meta));
    push_output(c, &mut ops, c.fwd.buffers.attn_output, o_out);
    push_wait(&mut ops, c.profile);
    assert(ops@ =~= n2_rest(*c, cache, *meta, o_out));
    ops
}

fn append_ops(ops: &mut Vec<Op>, more: &Vec<Op>)
    requires
        all_fit(old(ops)@),
        all_fit(more@),
    ensures
        final(ops)@ == old(ops)@ + more@,
        all_fit(final(ops)@),
{
    let mut i: usize = 0;
    assert(ops@ =~= old(ops)@ + more@.take(0));
    while i < more.len()
        invariant
            i <= more@.len(),
            all_fit(ops@),
            all_fit(more@),
            ops@ == old(ops)@ + more@.take(i as int),
        decreases more@.len() - i,
    {
        ops.push(more[i]);
        i += 1;
        assert(ops@ =~= old(ops)@ + more@.take(i as int));
    }
    assert(more@.take(i as int) =~= more@);
}

impl Qwen3AttentionLayer {
    /// The output projection of both tokens.
    pub fn ms_v4_flash_n2_output<G: GpuBackend>(
        gpu: &mut G,
        c: &MultiSeqCtx,
        attn_out: DevicePtr,
        o_out: DevicePtr,
        stream: u64,
    ) -> (r: Result<(), GpuError>)
        requires
            c.fits(),
        ensures
            ran(old(gpu).trace(), steps(output_ops(*c, attn_out, o_out), stream), final(gpu).trace(), refusal(r)),
    {
        let mut ops: Vec<Op> = Vec::new();
        push_output(c, &mut ops, attn_out, o_out);
        assert(ops@ =~= output_ops(*c, attn_out, o_out));
        run_ops(gpu, &ops, stream)
    }

    /// Latent attention of both tokens, with its output in two rows at `o_out`.
    pub fn ms_v4_flash_n2<G: GpuBackend>(
        gpu: &mut G,
        c: &MultiSeqCtx,
        layout: &KvLayout,
        meta: &AttnMetadataDev,
        o_out: DevicePtr,
        stream: u64,
    ) -> (r: Result<(), GpuError>)
        requires
            c.fits(),
            c.layer.attn_layer_idx < layout.pools@.len(),
        ensures
            exists|s: Fp8Scales|
                ran(
                    old(gpu).trace(),
                    #[trigger] flash_n2_steps(*c, *layout, *meta, o_out, s, stream),
                    final(gpu).trace(),
                    refusal(r),
                ),
    {
        let ghost pre = gpu.trace();
        let cache_dim: u32 = c.mla.kv_lora_rank as u32 + c.mla.rope as u32;
        let write = CacheWrite {
            k: c.fwd.buffers.ssm_deinterleaved,
            v: c.fwd.buffers.expert_up_out,
            slot: meta.slot,
            num_tokens: 2,
            num_kv_heads: 1,
            head_dim: cache_dim,
            block_size: c.bs,
            key_stride: cache_dim,
            value_stride: cache_dim,
            graph_capture: c.fwd.graph_capture,
        };
        assert(write.num_kv_heads * write.num_tokens == 2) by (nonlinear_arith)
            requires
                write.num_kv_heads == 1,
                write.num_tokens == 2,
        ;
        assert(write == n2_write(*c, meta.slot));
        let lead = build_n2_lead(c, meta);
        let ghost s1 = steps(lead@, stream);
        if let Err(e) = run_ops(gpu, &lead, stream) {
            proof {
                let s = Fp8Scales { k: F32Bits(0), v: F32Bits(0) };
                let rest = write_steps(c.layer, *layout, write, s, stream) + steps(
                    n2_rest(*c, layout.cache, *meta, o_out),
                    stream,
                );
                assert(flash_n2_steps(*c, *layout, *meta, o_out, s, stream) =~= s1 + rest);
                lemma_ran_cut(pre, s1, rest, gpu.trace(), e);
            }
            return Err(e);
        }
        let ghost m1 = gpu.trace();
        let wrote = c.layer.write_kv_cache(gpu, layout, &write, stream);
        let ghost s = choose|s: Fp8Scales|
            ran(m1, #[trigger] write_steps(c.layer, *layout, write, s, stream), gpu.trace(), refusal(wrote));
        let ghost s2 = write_steps(c.layer, *layout, write, s, stream);
        let rest = build_n2_rest(c, layout.cache, meta, o_out);
        if let Err(e) = wrote {
            proof {
                lemma_ran_next(pre, s1, m1, s2, steps(rest@, stream), gpu.trace(), Some(e));
                assert(ran(pre, flash_n2_steps(*c, *layout, *meta, o_out, s, stream), gpu.trace(), Some(e)));
            }
            return Err(e);
        }
        let ghost m2 = gpu.trace();
        let r = run_ops(gpu, &rest, stream);
        proof {
            lemma_ran_then(pre, s1, m1, s2, m2, None);
            lemma_ran_then(pre, s1 + s2, m2, steps(rest@, stream), gpu.trace(), refusal(r));
            assert(ran(pre, flash_n2_steps(*c, *layout, *meta, o_out, s, stream), gpu.trace(), refusal(r)));
        }
        r
    }
}

} // verus!
