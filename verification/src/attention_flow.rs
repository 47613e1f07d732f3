//! What two-token attention computes.
//!
//! [`attention_multi_seq`](crate::attention_multi_seq) says which operations the
//! step runs. The laws here say what they come to: queries, keys, the rows that
//! go to the cache and the output as formulas of the normed rows, the weights and
//! the tokens' positions.

use vstd::prelude::*;

use crate::attention::Qwen3AttentionLayer;
use crate::attention_cache::{ask_steps, lead_ops, store_op, write_fits, write_steps, CacheWrite};
use crate::attention_multi_seq::{
    assemble_op, attend_ops, extract_op, flash_n2_steps, gemv_op, group_ops, groups_ops, n2_lead, n2_rest, n2_write,
    norm_op, output_ops, project_ops, qkv_ops, rope_ops, rotate_op, writeback_op, MultiSeqCtx,
};
use crate::flow::{
    after, all_apart, apart, clear_of, keeps, leads, lemma_after_add, lemma_after_one, lemma_after_push,
    lemma_after_two, lemma_extracted, lemma_inside, lemma_keeps_more, lemma_keeps_then, lemma_kept, lemma_leads_add,
    lemma_leads_ask, lemma_leads_nothing, lemma_leads_steps, lemma_op_keeps, lemma_op_keeps_two, lemma_outside,
    lemma_row, lemma_turned_k, lemma_turned_q, lemma_wait, lemma_written_back, norm, off, outputs, part, product,
    seen_cache_assemble, seen_dense_gemv, seen_paged_decode, seen_rms_norm, seen_w4a16_gemv_batch2,
    seen_w8a16_gemv_batch2, span, then_op, zone, Lanes, Mem, Val, Zone,
};
use crate::gpu::{at, ONE_BITS, DenseWeight, DevicePtr, F32Bits, Fp8Scales, Fp8Weight, KernelHandle, QuantizedWeight};
use crate::kv_cache::{KvCacheDtype, KvLayout};
use crate::op::{AttnMetadataDev, CacheId, Op, PoolLayout};
use crate::run::{scales_step, steps, wait_if};

verus! {

/// A row by a weight, in the best form that the weight has.
pub open spec fn projected(
    c: MultiSeqCtx,
    nvfp4: Option<QuantizedWeight>,
    fp8: Option<Fp8Weight>,
    dense: DenseWeight,
    n: int,
    k: int,
    x: Val,
) -> Val {
    if nvfp4 is Some {
        Val::FourBitProduct {
            kernel: c.layer.w4a16_gemv_batch2_k,
            weight: nvfp4->0,
            n: n as u32,
            k: k as u32,
            of: Box::new(x),
        }
    } else if fp8 is Some {
        Val::EightBitProduct {
            kernel: c.layer.w8a16_gemv_batch4_k,
            weight: fp8->0.weight,
            row_scale: fp8->0.row_scale,
            n: n as u32,
            k: k as u32,
            of: Box::new(x),
        }
    } else {
        product(c.layer.dense_gemv_k, dense, n as u32, k as u32, x)
    }
}

/// Both rows of a two-token product.
#[verifier::rlimit(100)]
#[verifier::spinoff_prover]
proof fn lemma_project(
    c: MultiSeqCtx,
    m: Mem,
    input: DevicePtr,
    nvfp4: Option<QuantizedWeight>,
    fp8: Option<Fp8Weight>,
    dense: DenseWeight,
    output: DevicePtr,
    n: int,
    k: int,
    zones: Seq<Zone>,
    i: int,
)
    requires
        0 < n <= u32::MAX,
        0 < k <= u32::MAX,
        apart(zone(output, 2 * (n * 2)), zone(input, 2 * (k * 2))),
        2 * (n * 2) <= span(),
        2 * (k * 2) <= span(),
        0 <= i < zones.len(),
        zones[i].base == output,
        2 * (n * 2) <= zones[i].bytes <= span(),
    ensures
        ({
            let o = after(m, project_ops(c, input, k * 2, nvfp4, fp8, dense, output, n * 2, n, k));
            &&& forall|t: int|
                0 <= t < 2 ==> #[trigger] o(at(output, t * (n * 2))) == projected(
                    c,
                    nvfp4,
                    fp8,
                    dense,
                    n,
                    k,
                    m(at(input, t * (k * 2))),
                )
            &&& keeps(m, o, zones, set![i])
        }),
{
    let ops = project_ops(c, input, k * 2, nvfp4, fp8, dense, output, n * 2, n, k);
    let o = after(m, ops);
    let p = n * 2;
    if nvfp4 is Some || fp8 is Some {
        assert(ops =~= seq![ops[0]]);
        lemma_after_one(m, ops[0]);
        assert forall|t: int| 0 <= t < 2 implies #[trigger] o(at(output, t * p)) == projected(
            c,
            nvfp4,
            fp8,
            dense,
            n,
            k,
            m(at(input, t * (k * 2))),
        ) by {
            lemma_row(t, 2, p);
            lemma_inside(output, t * p);
            if nvfp4 is Some {
                seen_w4a16_gemv_batch2(
                    m,
                    c.layer.w4a16_gemv_batch2_k,
                    input,
                    nvfp4->0,
                    output,
                    n as u32,
                    k as u32,
                    at(output, t * p),
                );
            } else {
                seen_w8a16_gemv_batch2(
                    m,
                    c.layer.w8a16_gemv_batch4_k,
                    input,
                    fp8->0.weight,
                    fp8->0.row_scale,
                    output,
                    n as u32,
                    k as u32,
                    at(output, t * p),
                );
            }
        }
        assert(at(output, 0) == output);
        assert((outputs(ops[0])->0)[0] == zone(output, 2 * (n * 2)));
        lemma_op_keeps(m, ops[0], zones, i, 0);
    } else {
        let op0 = gemv_op(c, input, dense, output, n, k);
        let op1 = gemv_op(c, at(input, k * 2), dense, at(output, p), n, k);
        assert(ops =~= seq![op0, op1]);
        lemma_after_two(m, op0, op1);
        let m1 = then_op(m, op0);
        assert(at(output, 0) == output && at(input, 0) == input);
        lemma_op_keeps(m, op0, zones, i, 0);
        lemma_op_keeps(m1, op1, zones, i, p);
        lemma_keeps_then(m, m1, o, zones, set![i], set![i]);
        assert(set![i].union(set![i]) =~= set![i]);
        lemma_outside(zone(output, 2 * p), zone(input, 2 * (k * 2)), k * 2);
        seen_dense_gemv(m, c.layer.dense_gemv_k, input, dense, output, n as u32, k as u32, at(input, k * 2));
        seen_dense_gemv(m, c.layer.dense_gemv_k, input, dense, output, n as u32, k as u32, output);
        seen_dense_gemv(m1, c.layer.dense_gemv_k, at(input, k * 2), dense, at(output, p), n as u32, k as u32, at(output, p));
        seen_dense_gemv(m1, c.layer.dense_gemv_k, at(input, k * 2), dense, at(output, p), n as u32, k as u32, output);
        crate::flow::lemma_between(output, 0, p);
        crate::flow::off_self(output);
        crate::flow::off_self(at(output, p));
        assert forall|t: int| 0 <= t < 2 implies #[trigger] o(at(output, t * p)) == projected(
            c,
            nvfp4,
            fp8,
            dense,
            n,
            k,
            m(at(input, t * (k * 2))),
        ) by {
            assert(t == 0 || t == 1);
            assert(0 * p == 0 && 1 * p == p && 0 * (k * 2) == 0 && 1 * (k * 2) == k * 2) by (nonlinear_arith);
        }
    }
}

/// The larger of two widths.
pub open spec fn wider(a: int, b: int) -> int {
    if a < b {
        b
    } else {
        a
    }
}

/// The buffers of the step, and what it reads.
pub open spec fn n2_zones(c: MultiSeqCtx, meta: AttnMetadataDev, o_out: DevicePtr) -> Seq<Zone> {
    let b = c.fwd.buffers;
    seq![
        zone(b.ssm_ba, 2 * (wider(c.q_lora() as int, c.rope() as int) * 2)),
        zone(c.q_out(), 2 * (c.q_dim() * 2)),
        zone(c.k_out(), 2 * (c.kv_dim() * 2)),
        zone(c.v_out(), 2 * (c.kv_dim() * 2)),
        zone(b.ssm_conv_out_f32, 2 * (c.nq * c.rope() * 2)),
        zone(b.ssm_deinterleaved, 2 * (c.cache_dim() * 2)),
        zone(b.expert_up_out, 2 * (c.cache_dim() * 2)),
        zone(b.attn_output, 2 * (c.q_dim() * 2)),
        zone(b.splitk_workspace, 2 * (c.group_in() * 2) + 2 * (c.o_lora() * 2)),
        zone(b.o_latent, 2 * (c.latent_dim() * 2)),
        zone(o_out, 2 * (c.h * 2)),
        zone(c.normed, 2 * (c.h * 2)),
        zone(meta.positions, 8),
        zone(meta.block_table, 2 * (meta.max_blocks_per_seq * 4)),
        zone(meta.seq_len, 8),
        zone(meta.slot, 16),
    ]
}

/// The buffers of the step are apart, its sizes fit, and a row has one key.
pub open spec fn n2_laid_out(c: MultiSeqCtx, meta: AttnMetadataDev, o_out: DevicePtr) -> bool {
    &&& c.fits()
    &&& c.bf16 == 2
    &&& c.nkv == 1
    &&& 0 < c.h <= u32::MAX
    &&& 0 < c.nq
    &&& 0 < c.q_lora()
    &&& 0 < c.rope()
    &&& 0 < c.hd
    &&& 0 < c.o_lora()
    &&& 0 < c.group_in()
    &&& all_apart(n2_zones(c, meta, o_out))
}

/// The normed row of token `t`.
pub open spec fn row_in(c: MultiSeqCtx, m: Mem, t: int) -> Val {
    m(at(c.normed, t * (c.h * 2)))
}

/// The query of token `t` before its rotation: down by `wq_a`, normed by
/// `q_a_norm`, up by `wq_b`, and each head normed.
pub open spec fn query(c: MultiSeqCtx, m: Mem, t: int) -> Val {
    let down = projected(
        c,
        c.mla.wq_a_nvfp4,
        c.mla.wq_a_fp8,
        c.mla.wq_a,
        c.q_lora() as int,
        c.h as int,
        row_in(c, m, t),
    );
    let up = projected(
        c,
        c.mla.wq_b_nvfp4,
        c.mla.wq_b_fp8,
        c.mla.wq_b,
        c.q_dim(),
        c.q_lora() as int,
        norm(c.layer.rms_norm_w_k, c.mla.q_a_norm, c.q_lora(), c.eps, down),
    );
    norm(c.layer.rms_norm_k, DenseWeight { weight: c.fwd.buffers.norm_unit_w }, c.hd, c.eps, up)
}

/// The latent of token `t`: by `wkv_a`, normed by `kv_a_norm`.
pub open spec fn latent(c: MultiSeqCtx, m: Mem, t: int) -> Val {
    norm(
        c.layer.rms_norm_w_k,
        c.mla.kv_a_norm,
        c.hd,
        c.eps,
        projected(
            c,
            c.mla.wkv_a_nvfp4,
            c.mla.wkv_a_fp8,
            c.mla.wkv_a,
            c.kv_dim(),
            c.h as int,
            row_in(c, m, t),
        ),
    )
}

/// The kernel that turns lanes forward, and the one that turns them back.
pub open spec fn turning(c: MultiSeqCtx, back: bool) -> KernelHandle {
    if back {
        c.layer.rope_yarn_interleaved_inv_k
    } else {
        c.layer.rope_yarn_interleaved_k
    }
}

/// The rotary lanes of `row`, turned by the position of token `t`.
pub open spec fn turned(c: MultiSeqCtx, meta: AttnMetadataDev, m: Mem, t: int, heads: u32, back: bool, row: Val) -> Val {
    Val::Turned {
        kernel: turning(c, back),
        position: Box::new(m(at(meta.positions, t * 4))),
        inv_freq: if c.mla.compressor {
            c.mla.yarn_inv_freq
        } else {
            c.mla.main_inv_freq
        },
        mscale: if c.mla.compressor {
            c.mla.yarn_mscale
        } else {
            F32Bits(ONE_BITS)
        },
        heads,
        head_dim: c.rope(),
        rope: c.rope(),
        of: Box::new(
            Val::Rotary {
                kernel: c.layer.mla_q_rope_extract_batched_k,
                lanes: (Lanes { heads, hd: c.hd, nope: c.mla.nope as u32, rope: c.rope() }),
                of: Box::new(row),
            },
        ),
    }
}

/// `row` with its rotary lanes turned by the position of token `t`.
pub open spec fn rotated(c: MultiSeqCtx, meta: AttnMetadataDev, m: Mem, t: int, heads: u32, back: bool, row: Val) -> Val {
    Val::Replaced {
        kernel: c.layer.mla_q_rope_writeback_batched_k,
        lanes: (Lanes { heads, hd: c.hd, nope: c.mla.nope as u32, rope: c.rope() }),
        row: Box::new(row),
        by: Box::new(turned(c, meta, m, t, heads, back, row)),
    }
}

/// An in-place norm of all rows of a buffer.
proof fn lemma_normed(c: MultiSeqCtx, m: Mem, weighted: bool, weight: DenseWeight, rows: int, cols: int, zones: Seq<Zone>, i: int)
    requires
        0 <= i < zones.len(),
        0 < rows <= u32::MAX,
        0 < cols <= u32::MAX,
        rows * (cols * 2) <= zones[i].bytes <= span(),
    ensures
        ({
            let n = then_op(m, norm_op(c, weighted, zones[i].base, weight, rows, cols));
            &&& forall|d: int|
                0 <= d < rows * (cols * 2) ==> #[trigger] n(at(zones[i].base, d)) == norm(
                    if weighted {
                        c.layer.rms_norm_w_k
                    } else {
                        c.layer.rms_norm_k
                    },
                    weight,
                    cols as u32,
                    c.eps,
                    m(at(zones[i].base, d)),
                )
            &&& keeps(m, n, zones, set![i])
        }),
{
    let base = zones[i].base;
    let op = norm_op(c, weighted, base, weight, rows, cols);
    let n = then_op(m, op);
    let kernel = if weighted {
        c.layer.rms_norm_w_k
    } else {
        c.layer.rms_norm_k
    };
    assert forall|d: int| 0 <= d < rows * (cols * 2) implies #[trigger] n(at(base, d)) == norm(
        kernel,
        weight,
        cols as u32,
        c.eps,
        m(at(base, d)),
    ) by {
        lemma_inside(base, d);
        seen_rms_norm(m, kernel, base, weight, base, rows as u32, cols as u32, c.eps, at(base, d));
    }
    assert(at(base, 0) == base);
    lemma_op_keeps(m, op, zones, i, 0);
}

/// Queries and latents of both tokens.
#[verifier::rlimit(100)]
#[verifier::spinoff_prover]
proof fn lemma_qkv(c: MultiSeqCtx, meta: AttnMetadataDev, o_out: DevicePtr, m: Mem)
    requires
        n2_laid_out(c, meta, o_out),
    ensures
        ({
            let n = after(m, qkv_ops(c));
            &&& forall|t: int| 0 <= t < 2 ==> #[trigger] n(at(c.q_out(), t * (c.q_dim() * 2))) == query(c, m, t)
            &&& forall|t: int| 0 <= t < 2 ==> #[trigger] n(at(c.k_out(), t * (c.kv_dim() * 2))) == latent(c, m, t)
            &&& forall|t: int| 0 <= t < 2 ==> #[trigger] n(at(c.v_out(), t * (c.kv_dim() * 2))) == latent(c, m, t)
            &&& keeps(m, n, n2_zones(c, meta, o_out), set![0, 1, 2, 3])
        }),
{
    let b = c.fwd.buffers;
    let z = n2_zones(c, meta, o_out);
    let h = c.h as int;
    let ql = c.q_lora() as int;
    let qd = c.q_dim();
    let kd = c.kv_dim();
    lemma_sizes(c);
    let a0 = project_ops(c, c.normed, h * 2, c.mla.wq_a_nvfp4, c.mla.wq_a_fp8, c.mla.wq_a, b.ssm_ba, ql * 2, ql, h);
    let a1 = seq![norm_op(c, true, b.ssm_ba, c.mla.q_a_norm, 2, ql)];
    let a2 = wait_if(c.profile);
    let a3 = project_ops(c, b.ssm_ba, ql * 2, c.mla.wq_b_nvfp4, c.mla.wq_b_fp8, c.mla.wq_b, c.q_out(), qd * 2, qd, ql);
    let a4 = seq![norm_op(c, false, c.q_out(), (DenseWeight { weight: b.norm_unit_w }), 2 * c.nq, c.hd as int)];
    let a6 = project_ops(c, c.normed, h * 2, c.mla.wkv_a_nvfp4, c.mla.wkv_a_fp8, c.mla.wkv_a, c.k_out(), kd * 2, kd, h);
    let copy = Op::CopyD2d { src: c.k_out(), dst: c.v_out(), bytes: (2 * kd * 2) as usize };
    let a7 = seq![norm_op(c, true, c.k_out(), c.mla.kv_a_norm, 2, kd), copy];
    assert(kd / 1 == kd);
    assert(qkv_ops(c) == a0 + a1 + a2 + a3 + a4 + a2 + a6 + a7 + a2);
    let m0 = after(m, a0);
    lemma_project(c, m, c.normed, c.mla.wq_a_nvfp4, c.mla.wq_a_fp8, c.mla.wq_a, b.ssm_ba, ql, h, z, 0);
    let m1 = after(m0, a1);
    lemma_after_one(m0, a1[0]);
    lemma_normed(c, m0, true, c.mla.q_a_norm, 2, ql, z, 0);
    lemma_wait(m1, c.profile);
    let m3 = after(m1, a3);
    lemma_project(c, m1, b.ssm_ba, c.mla.wq_b_nvfp4, c.mla.wq_b_fp8, c.mla.wq_b, c.q_out(), qd, ql, z, 1);
    let m4 = after(m3, a4);
    lemma_after_one(m3, a4[0]);
    lemma_normed(c, m3, false, DenseWeight { weight: b.norm_unit_w }, 2 * c.nq, c.hd as int, z, 1);
    lemma_wait(m4, c.profile);
    let m6 = after(m4, a6);
    lemma_project(c, m4, c.normed, c.mla.wkv_a_nvfp4, c.mla.wkv_a_fp8, c.mla.wkv_a, c.k_out(), kd, h, z, 2);
    let m7 = then_op(m6, a7[0]);
    lemma_normed(c, m6, true, c.mla.kv_a_norm, 2, kd, z, 2);
    let m8 = then_op(m7, copy);
    lemma_after_two(m6, a7[0], copy);
    assert(at(c.v_out(), 0) == c.v_out());
    lemma_op_keeps(m7, copy, z, 3, 0);
    lemma_wait(m8, c.profile);
    lemma_after_add(m, a0, a1);
    lemma_after_add(m, a0 + a1, a2);
    lemma_after_add(m, a0 + a1 + a2, a3);
    lemma_after_add(m, a0 + a1 + a2 + a3, a4);
    lemma_after_add(m, a0 + a1 + a2 + a3 + a4, a2);
    lemma_after_add(m, a0 + a1 + a2 + a3 + a4 + a2, a6);
    lemma_after_add(m, a0 + a1 + a2 + a3 + a4 + a2 + a6, a7);
    lemma_after_add(m, a0 + a1 + a2 + a3 + a4 + a2 + a6 + a7, a2);
    let n = after(m, qkv_ops(c));
    assert(n == m8);
    // What is left alone.
    lemma_keeps_then(m, m0, m1, z, set![0], set![0]);
    lemma_keeps_then(m, m1, m3, z, set![0].union(set![0]), set![1]);
    lemma_keeps_then(m, m3, m4, z, set![0].union(set![0]).union(set![1]), set![1]);
    let early = set![0int, 1];
    lemma_keeps_more(m, m4, z, set![0].union(set![0]).union(set![1]).union(set![1]), early);
    lemma_keeps_then(m6, m7, m8, z, set![2], set![3]);
    lemma_keeps_then(m4, m6, m8, z, set![2], set![2].union(set![3]));
    lemma_keeps_then(m, m4, m8, z, early, set![2].union(set![2].union(set![3])));
    lemma_keeps_more(m, m8, z, early.union(set![2].union(set![2].union(set![3]))), set![0, 1, 2, 3]);
    lemma_keeps_more(m4, m8, z, set![2].union(set![2].union(set![3])), set![2, 3]);
    assert forall|t: int| 0 <= t < 2 implies #[trigger] n(at(c.q_out(), t * (qd * 2))) == query(c, m, t) by {
        lemma_row(t, 2, qd * 2);
        lemma_row(t, 2, ql * 2);
        lemma_kept(m4, m8, z, set![2, 3], 1, t * (qd * 2));
        assert(m0(at(b.ssm_ba, t * (ql * 2))) == projected(
            c,
            c.mla.wq_a_nvfp4,
            c.mla.wq_a_fp8,
            c.mla.wq_a,
            ql,
            h,
            row_in(c, m, t),
        ));
        assert(m3(at(c.q_out(), t * (qd * 2))) == projected(
            c,
            c.mla.wq_b_nvfp4,
            c.mla.wq_b_fp8,
            c.mla.wq_b,
            qd,
            ql,
            m1(at(b.ssm_ba, t * (ql * 2))),
        ));
    }
    assert forall|t: int| 0 <= t < 2 implies #[trigger] m7(at(c.k_out(), t * (kd * 2))) == latent(c, m, t) by {
        lemma_row(t, 2, kd * 2);
        lemma_row(t, 2, h * 2);
        lemma_kept(m, m4, z, early, 11, t * (h * 2));
        assert(m6(at(c.k_out(), t * (kd * 2))) == projected(
            c,
            c.mla.wkv_a_nvfp4,
            c.mla.wkv_a_fp8,
            c.mla.wkv_a,
            kd,
            h,
            m4(at(c.normed, t * (h * 2))),
        ));
    }
    assert forall|t: int| 0 <= t < 2 implies #[trigger] n(at(c.k_out(), t * (kd * 2))) == latent(c, m, t) by {
        lemma_row(t, 2, kd * 2);
        lemma_kept(m7, m8, z, set![3], 2, t * (kd * 2));
        assert(m7(at(c.k_out(), t * (kd * 2))) == latent(c, m, t));
    }
    assert forall|t: int| 0 <= t < 2 implies #[trigger] n(at(c.v_out(), t * (kd * 2))) == latent(c, m, t) by {
        lemma_row(t, 2, kd * 2);
        lemma_inside(c.v_out(), t * (kd * 2));
        crate::flow::seen_copy_d2d(m7, c.k_out(), c.v_out(), (2 * kd * 2) as usize, at(c.v_out(), t * (kd * 2)));
        assert(m7(at(c.k_out(), t * (kd * 2))) == latent(c, m, t));
    }
}

/// Sizes written in different ways agree.
#[verifier::rlimit(60)]
#[verifier::spinoff_prover]
proof fn lemma_sizes(c: MultiSeqCtx)
    requires
        c.fits(),
        c.bf16 == 2,
        c.nkv == 1,
        0 < c.h <= u32::MAX,
        0 < c.nq,
        0 < c.hd,
        0 < c.rope(),
        0 < c.o_lora(),
    ensures
        c.h * c.bf16 == c.h * 2,
        c.q_lora() * c.bf16 == c.q_lora() * 2,
        c.q_dim() * c.bf16 == c.q_dim() * 2,
        c.kv_dim() * c.bf16 == c.kv_dim() * 2,
        2 * c.kv_dim() * c.bf16 == 2 * c.kv_dim() * 2,
        2 * c.q_dim() * c.bf16 == 2 * c.q_dim() * 2,
        c.latent_dim() * c.bf16 == c.latent_dim() * 2,
        c.kv_dim() == c.hd,
        c.q_dim() > 0,
        c.latent_dim() > 0,
        2 * c.nq * (c.hd * 2) == 2 * (c.q_dim() * 2),
        0 < c.nq * c.rope(),
{
    let e = c.bf16 as int;
    let (h, ql, qd, kd, nq, hd, ld) = (
        c.h as int,
        c.q_lora() as int,
        c.q_dim(),
        c.kv_dim(),
        c.nq as int,
        c.hd as int,
        c.latent_dim(),
    );
    assert(h * e == h * 2 && ql * e == ql * 2 && qd * e == qd * 2 && kd * e == kd * 2 && 2 * kd * e == 2 * kd * 2 && 2 * qd
        * e == 2 * qd * 2 && ld * e == ld * 2) by (nonlinear_arith)
        requires
            e == 2,
    ;
    assert(1 * hd == hd) by (nonlinear_arith);
    assert(qd > 0 && 2 * nq * (hd * 2) == 2 * (qd * 2)) by (nonlinear_arith)
        requires
            qd == nq * hd,
            nq > 0,
            hd > 0,
    ;
    let og = c.o_groups() as int;
    let ol = c.o_lora() as int;
    assert(ld > 0) by (nonlinear_arith)
        requires
            ld == og * ol,
            og > 0,
            ol > 0,
    ;
    let r = c.rope() as int;
    assert(0 < nq * r) by (nonlinear_arith)
        requires
            nq > 0,
            r > 0,
    ;
}

/// Queries and keys turned forward.
#[verifier::rlimit(100)]
#[verifier::spinoff_prover]
proof fn lemma_rope(c: MultiSeqCtx, meta: AttnMetadataDev, o_out: DevicePtr, m: Mem)
    requires
        n2_laid_out(c, meta, o_out),
    ensures
        ({
            let n = after(m, rope_ops(c, meta.positions));
            let b = c.fwd.buffers;
            &&& forall|t: int|
                0 <= t < 2 ==> #[trigger] n(at(c.q_out(), t * (c.q_dim() * 2))) == rotated(
                    c,
                    meta,
                    m,
                    t,
                    c.nq,
                    false,
                    m(at(c.q_out(), t * (c.q_dim() * 2))),
                )
            &&& forall|t: int|
                0 <= t < 2 ==> #[trigger] n(at(c.k_out(), t * (c.kv_dim() * 2))) == rotated(
                    c,
                    meta,
                    m,
                    t,
                    1,
                    false,
                    m(at(c.k_out(), t * (c.kv_dim() * 2))),
                )
            &&& forall|t: int|
                0 <= t < 2 ==> #[trigger] n(at(b.ssm_ba, t * (c.rope() * 2))) == turned(
                    c,
                    meta,
                    m,
                    t,
                    1,
                    false,
                    m(at(c.k_out(), t * (c.kv_dim() * 2))),
                )
            &&& keeps(m, n, n2_zones(c, meta, o_out), set![0, 1, 2, 4])
        }),
{
    let b = c.fwd.buffers;
    let z = n2_zones(c, meta, o_out);
    let qd2 = c.q_dim() * 2;
    let kd2 = c.kv_dim() * 2;
    let qr = c.nq * c.rope() * 2;
    let kr = 1u32 * c.rope() * 2;
    lemma_sizes(c);
    assert(kr == c.rope() * 2);
    let nope = c.mla.nope as u32;
    let rope = c.rope();
    let ek = c.layer.mla_q_rope_extract_batched_k;
    let wk = c.layer.mla_q_rope_writeback_batched_k;
    let freq = if c.mla.compressor {
        c.mla.yarn_inv_freq
    } else {
        c.mla.main_inv_freq
    };
    let scale = if c.mla.compressor {
        c.mla.yarn_mscale
    } else {
        F32Bits(ONE_BITS)
    };
    let o = rope_ops(c, meta.positions);
    let m1 = then_op(m, o[0]);
    let m2 = then_op(m1, o[1]);
    let m3 = then_op(m2, o[2]);
    let m4 = then_op(m3, o[3]);
    let n = then_op(m4, o[4]);
    assert(o =~= seq![o[0], o[1], o[2], o[3]].push(o[4]));
    crate::flow::lemma_after_four(m, o[0], o[1], o[2], o[3]);
    lemma_after_push(m, seq![o[0], o[1], o[2], o[3]], o[4]);
    assert(at(b.ssm_conv_out_f32, 0) == b.ssm_conv_out_f32 && at(b.ssm_ba, 0) == b.ssm_ba && at(c.q_out(), 0) == c.q_out()
        && at(c.k_out(), 0) == c.k_out());
    lemma_op_keeps(m, o[0], z, 4, 0);
    lemma_op_keeps(m1, o[1], z, 0, 0);
    lemma_op_keeps_two(m2, o[2], z, 4, 0);
    lemma_op_keeps(m3, o[3], z, 1, 0);
    lemma_op_keeps(m4, o[4], z, 2, 0);
    lemma_keeps_then(m, m1, m2, z, set![4], set![0]);
    lemma_keeps_more(m, m2, z, set![4].union(set![0]), set![0, 4]);
    lemma_keeps_then(m, m2, m3, z, set![0, 4], set![4, 0]);
    lemma_keeps_more(m, m3, z, set![0, 4].union(set![4, 0]), set![0, 4]);
    lemma_keeps_then(m, m3, m4, z, set![0, 4], set![1]);
    lemma_keeps_then(m, m4, n, z, set![0, 4].union(set![1]), set![2]);
    lemma_keeps_more(m, n, z, set![0, 4].union(set![1]).union(set![2]), set![0, 1, 2, 4]);
    lemma_keeps_more(m, m4, z, set![0, 4].union(set![1]), set![0, 1, 4]);
    lemma_keeps_then(m3, m4, n, z, set![1], set![2]);
    lemma_keeps_more(m3, n, z, set![1].union(set![2]), set![1, 2]);
    assert(apart(zone(b.ssm_conv_out_f32, 2 * qr), zone(b.ssm_ba, 2 * kr))) by {
        assert(apart(z[4], z[0]));
    }
    assert forall|t: int| 0 <= t < 2 implies m3(#[trigger] at(b.ssm_conv_out_f32, t * qr)) == turned(
        c,
        meta,
        m,
        t,
        c.nq,
        false,
        m(at(c.q_out(), t * qd2)),
    ) && m3(at(b.ssm_ba, t * kr)) == turned(c, meta, m, t, 1, false, m(at(c.k_out(), t * kd2))) by {
        lemma_row(t, 2, qr);
        lemma_row(t, 2, kr);
        lemma_row(t, 2, qd2);
        lemma_row(t, 2, kd2);
        lemma_extracted(m, ek, c.q_out(), b.ssm_conv_out_f32, 2, c.nq, c.hd, nope, rope, c.q_dim() as u32, t);
        lemma_kept(m1, m2, z, set![0], 4, t * qr);
        lemma_extracted(m1, ek, c.k_out(), b.ssm_ba, 2, 1, c.hd, nope, rope, c.hd, t);
        lemma_kept(m, m1, z, set![4], 2, t * kd2);
        lemma_kept(m, m2, z, set![0, 4], 12, t * 4);
        lemma_turned_q(
            m2,
            turning(c, false),
            b.ssm_conv_out_f32,
            b.ssm_ba,
            meta.positions,
            2,
            c.nq,
            1,
            rope,
            rope,
            freq,
            scale,
            t,
        );
        lemma_turned_k(
            m2,
            turning(c, false),
            b.ssm_conv_out_f32,
            b.ssm_ba,
            meta.positions,
            2,
            c.nq,
            1,
            rope,
            rope,
            freq,
            scale,
            t,
        );
    }
    assert forall|t: int| 0 <= t < 2 implies #[trigger] n(at(c.q_out(), t * qd2)) == rotated(
        c,
        meta,
        m,
        t,
        c.nq,
        false,
        m(at(c.q_out(), t * qd2)),
    ) by {
        lemma_row(t, 2, qd2);
        lemma_row(t, 2, qr);
        lemma_written_back(m3, wk, b.ssm_conv_out_f32, c.q_out(), 2, c.nq, c.hd, nope, rope, c.q_dim() as u32, t);
        lemma_kept(m, m3, z, set![0, 4], 1, t * qd2);
        lemma_kept(m4, n, z, set![2], 1, t * qd2);
        assert(m3(at(b.ssm_conv_out_f32, t * qr)) == turned(c, meta, m, t, c.nq, false, m(at(c.q_out(), t * qd2))));
    }
    assert forall|t: int| 0 <= t < 2 implies #[trigger] n(at(c.k_out(), t * kd2)) == rotated(
        c,
        meta,
        m,
        t,
        1,
        false,
        m(at(c.k_out(), t * kd2)),
    ) by {
        lemma_row(t, 2, kd2);
        lemma_row(t, 2, kr);
        lemma_written_back(m4, wk, b.ssm_ba, c.k_out(), 2, 1, c.hd, nope, rope, c.hd, t);
        lemma_kept(m, m4, z, set![0, 1, 4], 2, t * kd2);
        lemma_kept(m3, m4, z, set![1], 0, t * kr);
        assert(m3(at(b.ssm_conv_out_f32, t * qr)) == turned(c, meta, m, t, c.nq, false, m(at(c.q_out(), t * qd2))));
    }
    assert forall|t: int| 0 <= t < 2 implies #[trigger] n(at(b.ssm_ba, t * (rope * 2))) == turned(
        c,
        meta,
        m,
        t,
        1,
        false,
        m(at(c.k_out(), t * kd2)),
    ) by {
        lemma_row(t, 2, kr);
        lemma_kept(m3, n, z, set![1, 2], 0, t * kr);
        assert(m3(at(b.ssm_conv_out_f32, t * qr)) == turned(c, meta, m, t, c.nq, false, m(at(c.q_out(), t * qd2))));
    }
}

/// What goes to the cache: the latent and the rotated key side by side.
pub open spec fn cache_row(c: MultiSeqCtx, meta: AttnMetadataDev, m: Mem) -> Val {
    Val::Assembled {
        kernel: c.layer.mla_cache_assemble_batched_k,
        count: 2,
        kv_lora: c.mla.kv_lora_rank as u32,
        rope: c.rope(),
        cache_dim: c.cache_dim() as u32,
        latent: Box::new(latent(c, m, 0)),
        key: Box::new(turned(c, meta, m, 0, 1, false, latent(c, m, 0))),
    }
}

#[verifier::rlimit(60)]
#[verifier::spinoff_prover]
proof fn lemma_assembled(c: MultiSeqCtx, meta: AttnMetadataDev, o_out: DevicePtr, m: Mem)
    requires
        n2_laid_out(c, meta, o_out),
    ensures
        ({
            let n = then_op(m, assemble_op(c));
            let b = c.fwd.buffers;
            let row = Val::Assembled {
                kernel: c.layer.mla_cache_assemble_batched_k,
                count: 2,
                kv_lora: c.mla.kv_lora_rank as u32,
                rope: c.rope(),
                cache_dim: c.cache_dim() as u32,
                latent: Box::new(m(c.v_out())),
                key: Box::new(m(b.ssm_ba)),
            };
            n(b.ssm_deinterleaved) == row && n(b.expert_up_out) == row
        }),
{
    let b = c.fwd.buffers;
    let z = n2_zones(c, meta, o_out);
    crate::flow::off_self(b.ssm_deinterleaved);
    crate::flow::off_self(b.expert_up_out);
    assert(off(z[6].base, z[5].base) >= z[5].bytes) by {
        assert(apart(z[5], z[6]));
    }
    seen_cache_assemble(
        m,
        c.layer.mla_cache_assemble_batched_k,
        c.v_out(),
        b.ssm_ba,
        b.ssm_deinterleaved,
        b.expert_up_out,
        2,
        c.mla.kv_lora_rank as u32,
        c.rope(),
        c.cache_dim() as u32,
        b.ssm_deinterleaved,
    );
    seen_cache_assemble(
        m,
        c.layer.mla_cache_assemble_batched_k,
        c.v_out(),
        b.ssm_ba,
        b.ssm_deinterleaved,
        b.expert_up_out,
        2,
        c.mla.kv_lora_rank as u32,
        c.rope(),
        c.cache_dim() as u32,
        b.expert_up_out,
    );
}

/// Everything before the cache is written.
#[verifier::rlimit(100)]
#[verifier::spinoff_prover]
proof fn lemma_lead(c: MultiSeqCtx, meta: AttnMetadataDev, o_out: DevicePtr, m: Mem)
    requires
        n2_laid_out(c, meta, o_out),
    ensures
        ({
            let n = after(m, n2_lead(c, meta));
            let b = c.fwd.buffers;
            &&& forall|t: int|
                0 <= t < 2 ==> #[trigger] n(at(c.q_out(), t * (c.q_dim() * 2))) == rotated(
                    c,
                    meta,
                    m,
                    t,
                    c.nq,
                    false,
                    query(c, m, t),
                )
            &&& forall|t: int|
                0 <= t < 2 ==> #[trigger] n(at(b.ssm_ba, t * (c.rope() * 2))) == turned(
                    c,
                    meta,
                    m,
                    t,
                    1,
                    false,
                    latent(c, m, t),
                )
            &&& forall|t: int| 0 <= t < 2 ==> #[trigger] n(at(c.v_out(), t * (c.kv_dim() * 2))) == latent(c, m, t)
            &&& n(b.ssm_deinterleaved) == cache_row(c, meta, m)
            &&& n(b.expert_up_out) == cache_row(c, meta, m)
            &&& keeps(m, n, n2_zones(c, meta, o_out), set![0, 1, 2, 3, 4, 5, 6])
        }),
{
    reveal(n2_lead);
    let b = c.fwd.buffers;
    let z = n2_zones(c, meta, o_out);
    let w = wait_if(c.profile);
    let q = qkv_ops(c);
    let r = rope_ops(c, meta.positions);
    let a = assemble_op(c);
    let qd2 = c.q_dim() * 2;
    let kd2 = c.kv_dim() * 2;
    lemma_sizes(c);
    lemma_wait(m, c.profile);
    lemma_qkv(c, meta, o_out, m);
    let m1 = after(m, q);
    lemma_rope(c, meta, o_out, m1);
    let m2 = after(m1, r);
    let n = then_op(m2, a);
    lemma_after_add(m, w, q);
    lemma_after_add(m, w + q, r);
    lemma_after_add(m, w + q + r, seq![a]);
    lemma_after_one(m2, a);
    assert(after(m, n2_lead(c, meta)) == n);
    lemma_op_keeps_two(m2, a, z, 5, 6);
    lemma_keeps_then(m, m1, m2, z, set![0, 1, 2, 3], set![0, 1, 2, 4]);
    lemma_keeps_then(m, m2, n, z, set![0, 1, 2, 3].union(set![0, 1, 2, 4]), set![5, 6]);
    lemma_keeps_more(
        m,
        n,
        z,
        set![0, 1, 2, 3].union(set![0, 1, 2, 4]).union(set![5, 6]),
        set![0, 1, 2, 3, 4, 5, 6],
    );
    assert forall|t: int| 0 <= t < 2 implies m1(#[trigger] at(meta.positions, t * 4)) == m(at(meta.positions, t * 4)) by {
        lemma_kept(m, m1, z, set![0, 1, 2, 3], 12, t * 4);
    }
    assert forall|t: int| 0 <= t < 2 implies #[trigger] n(at(c.q_out(), t * qd2)) == rotated(
        c,
        meta,
        m,
        t,
        c.nq,
        false,
        query(c, m, t),
    ) by {
        lemma_row(t, 2, qd2);
        lemma_kept(m2, n, z, set![5, 6], 1, t * qd2);
        assert(m1(at(c.q_out(), t * qd2)) == query(c, m, t));
        assert(m1(at(meta.positions, t * 4)) == m(at(meta.positions, t * 4)));
    }
    assert forall|t: int| 0 <= t < 2 implies #[trigger] n(at(b.ssm_ba, t * (c.rope() * 2))) == turned(
        c,
        meta,
        m,
        t,
        1,
        false,
        latent(c, m, t),
    ) by {
        lemma_row(t, 2, c.rope() * 2);
        lemma_kept(m2, n, z, set![5, 6], 0, t * (c.rope() * 2));
        assert(m1(at(c.k_out(), t * kd2)) == latent(c, m, t));
        assert(m1(at(meta.positions, t * 4)) == m(at(meta.positions, t * 4)));
    }
    assert forall|t: int| 0 <= t < 2 implies #[trigger] n(at(c.v_out(), t * kd2)) == latent(c, m, t) by {
        lemma_row(t, 2, kd2);
        lemma_kept(m2, n, z, set![5, 6], 3, t * kd2);
        lemma_kept(m1, m2, z, set![0, 1, 2, 4], 3, t * kd2);
        assert(m1(at(c.v_out(), t * kd2)) == latent(c, m, t));
    }
    lemma_kept(m1, m2, z, set![0, 1, 2, 4], 3, 0);
    assert(0 * kd2 == 0 && 0 * (c.rope() * 2) == 0) by (nonlinear_arith);
    assert(m1(at(c.v_out(), 0 * kd2)) == latent(c, m, 0));
    assert(m1(at(c.k_out(), 0 * kd2)) == latent(c, m, 0));
    assert(m2(at(b.ssm_ba, 0 * (c.rope() * 2))) == turned(c, meta, m1, 0, 1, false, m1(at(c.k_out(), 0 * kd2))));
    lemma_kept(m, m1, z, set![0, 1, 2, 3], 12, 0);
    assert(at(c.v_out(), 0) == c.v_out() && at(b.ssm_ba, 0) == b.ssm_ba);
    lemma_assembled(c, meta, o_out, m2);
}

/// The attention of token `t` for the query `q`.
pub open spec fn attended(c: MultiSeqCtx, cache: CacheId, meta: AttnMetadataDev, m: Mem, t: int, q: Val) -> Val {
    Val::Attended {
        layer: c.layer.attn_layer_idx,
        cache,
        q: Box::new(q),
        table: Box::new(m(at(meta.block_table, t * (meta.max_blocks_per_seq * 4)))),
        len: Box::new(m(at(meta.seq_len, t * 4))),
        max_blocks: meta.max_blocks_per_seq,
        nq: c.nq,
        nkv: c.nkv,
        hd: c.hd,
        block_size: c.bs,
        scale: c.layer.attn_scale,
    }
}

/// Attention, and its output turned back.
#[verifier::rlimit(100)]
#[verifier::spinoff_prover]
proof fn lemma_attend(c: MultiSeqCtx, cache: CacheId, meta: AttnMetadataDev, o_out: DevicePtr, m: Mem)
    requires
        n2_laid_out(c, meta, o_out),
    ensures
        ({
            let n = after(m, attend_ops(c, cache, meta));
            &&& forall|t: int, d: int|
                0 <= t < 2 && 0 <= d < c.q_dim() * 2 ==> #[trigger] n(
                    at(c.fwd.buffers.attn_output, t * (c.q_dim() * 2) + d),
                ) == part(
                    rotated(
                        c,
                        meta,
                        m,
                        t,
                        c.nq,
                        true,
                        attended(c, cache, meta, m, t, m(at(c.q_out(), t * (c.q_dim() * 2)))),
                    ),
                    d,
                )
            &&& keeps(m, n, n2_zones(c, meta, o_out), set![4, 7, 8])
        }),
{
    let b = c.fwd.buffers;
    let z = n2_zones(c, meta, o_out);
    let qd2 = c.q_dim() * 2;
    let qr = c.nq * c.rope() * 2;
    lemma_sizes(c);
    let nope = c.mla.nope as u32;
    let rope = c.rope();
    let o = attend_ops(c, cache, meta);
    let paged = Op::PagedDecode {
        layer: c.layer.attn_layer_idx,
        cache,
        q: c.q_out(),
        out: b.attn_output,
        block_table: meta.block_table,
        seq_len: meta.seq_len,
        max_blocks: meta.max_blocks_per_seq,
        count: 2,
        nq: c.nq,
        nkv: c.nkv,
        hd: c.hd,
        block_size: c.bs,
        scale: c.layer.attn_scale,
        q_stride: c.q_dim() as u32,
        workspace: b.splitk_workspace,
    };
    let w = wait_if(c.profile);
    let e = extract_op(c, b.attn_output, b.ssm_conv_out_f32, c.nq, c.q_dim());
    let r = rotate_op(c, true, b.ssm_conv_out_f32, b.ssm_conv_out_f32, meta.positions, 0);
    let k = writeback_op(c, b.ssm_conv_out_f32, b.attn_output, c.nq, c.q_dim());
    let m1 = then_op(m, paged);
    let m2 = then_op(m1, e);
    let m3 = then_op(m2, r);
    let n = then_op(m3, k);
    lemma_after_one(m, paged);
    lemma_wait(m1, c.profile);
    crate::flow::lemma_after_three(m1, e, r, k);
    lemma_wait(n, c.profile);
    lemma_after_add(m, seq![paged], w);
    lemma_after_add(m, seq![paged] + w, seq![e, r, k]);
    lemma_after_add(m, seq![paged] + w + seq![e, r, k], w);
    assert(o == seq![paged] + w + seq![e, r, k] + w);
    assert(c.nq * c.hd * 2 == qd2);
    lemma_op_keeps_two(m, paged, z, 7, 8);
    assert(at(b.ssm_conv_out_f32, 0) == b.ssm_conv_out_f32 && at(b.attn_output, 0) == b.attn_output);
    lemma_op_keeps(m1, e, z, 4, 0);
    let rp = rope as int;
    assert(2 * (0 * rp * 2) == 0) by (nonlinear_arith);
    lemma_op_keeps_two(m2, r, z, 4, 4);
    lemma_op_keeps(m3, k, z, 7, 0);
    lemma_keeps_then(m, m1, m2, z, set![7, 8], set![4]);
    lemma_keeps_more(m, m2, z, set![7, 8].union(set![4]), set![4, 7, 8]);
    lemma_keeps_then(m1, m2, m3, z, set![4], set![4, 4]);
    lemma_keeps_more(m1, m3, z, set![4].union(set![4, 4]), set![4]);
    lemma_keeps_then(m, m2, m3, z, set![4, 7, 8], set![4, 4]);
    lemma_keeps_then(m, m3, n, z, set![4, 7, 8].union(set![4, 4]), set![7]);
    lemma_keeps_more(m, n, z, set![4, 7, 8].union(set![4, 4]).union(set![7]), set![4, 7, 8]);
    assert forall|t: int, d: int| 0 <= t < 2 && 0 <= d < qd2 implies #[trigger] n(at(b.attn_output, t * qd2 + d)) == part(
        rotated(c, meta, m, t, c.nq, true, attended(c, cache, meta, m, t, m(at(c.q_out(), t * qd2)))),
        d,
    ) by {
        let row = attended(c, cache, meta, m, t, m(at(c.q_out(), t * qd2)));
        lemma_row(t, 2, qd2);
        lemma_row(t, 2, qr);
        lemma_inside(b.attn_output, t * qd2);
        seen_paged_decode(
            m,
            c.layer.attn_layer_idx,
            cache,
            c.q_out(),
            b.attn_output,
            meta.block_table,
            meta.seq_len,
            meta.max_blocks_per_seq,
            2,
            c.nq,
            c.nkv,
            c.hd,
            c.bs,
            c.layer.attn_scale,
            c.q_dim() as u32,
            b.splitk_workspace,
            at(b.attn_output, t * qd2),
        );
        assert(m1(at(b.attn_output, t * qd2)) == row);
        lemma_extracted(
            m1,
            c.layer.mla_q_rope_extract_batched_k,
            b.attn_output,
            b.ssm_conv_out_f32,
            2,
            c.nq,
            c.hd,
            nope,
            rope,
            c.q_dim() as u32,
            t,
        );
        lemma_turned_q(
            m2,
            turning(c, true),
            b.ssm_conv_out_f32,
            b.ssm_conv_out_f32,
            meta.positions,
            2,
            c.nq,
            0,
            rope,
            rope,
            if c.mla.compressor {
                c.mla.yarn_inv_freq
            } else {
                c.mla.main_inv_freq
            },
            if c.mla.compressor {
                c.mla.yarn_mscale
            } else {
                F32Bits(ONE_BITS)
            },
            t,
        );
        lemma_kept(m, m2, z, set![4, 7, 8], 12, t * 4);
        lemma_kept(m1, m3, z, set![4], 7, t * qd2);
        lemma_written_back(
            m3,
            c.layer.mla_q_rope_writeback_batched_k,
            b.ssm_conv_out_f32,
            b.attn_output,
            2,
            c.nq,
            c.hd,
            nope,
            rope,
            c.q_dim() as u32,
            t,
        );
    }
}

// ── the cache ──
/// How the pools of a layer are laid out.
pub open spec fn pool_form(layer: Qwen3AttentionLayer, layout: KvLayout, s: Fp8Scales) -> PoolLayout {
    let stride = layout.cache_stride as u64;
    let block_stride = layout.pools@[layer.attn_layer_idx as int].block_stride_bytes as u64;
    match layer.kv_dtype {
        KvCacheDtype::Bf16 => PoolLayout::Strided { stride },
        KvCacheDtype::Fp8 => PoolLayout::Fp8 { k_scale: s.k, v_scale: s.v, stride },
        KvCacheDtype::Turbo8 => PoolLayout::Packed { block_stride, data_bytes: layout.turbo8_data_bytes as u64 },
        KvCacheDtype::Turbo3 => PoolLayout::Packed { block_stride, data_bytes: layout.turbo3_data_bytes as u64 },
        _ => PoolLayout::Packed { block_stride, data_bytes: layout.nvfp4_data_bytes as u64 },
    }
}

/// Rows go through a Walsh-Hadamard transform before they are stored.
pub open spec fn spreads(layer: Qwen3AttentionLayer, head_dim: u32) -> bool {
    &&& layer.kv_dtype == KvCacheDtype::Turbo3 || layer.kv_dtype == KvCacheDtype::Turbo4 || layer.kv_dtype
        == KvCacheDtype::Turbo8
    &&& layer.wht_bf16_k != KernelHandle(0)
    &&& head_dim == 128 || head_dim == 256 || head_dim == 512
}

/// Rows in the form in which they are stored.
pub open spec fn stored_form(layer: Qwen3AttentionLayer, w: CacheWrite, rows: Val) -> Val {
    if spreads(layer, w.head_dim) {
        Val::Spread {
            kernel: layer.wht_bf16_k,
            heads: (w.num_kv_heads * w.num_tokens) as u32,
            head_dim: w.head_dim,
            of: Box::new(rows),
        }
    } else {
        rows
    }
}

/// A pool with the rows of a write in their slots.
pub open spec fn pool_with(
    layer: Qwen3AttentionLayer,
    layout: KvLayout,
    w: CacheWrite,
    s: Fp8Scales,
    m: Mem,
    pool: DevicePtr,
    rows: Val,
    stride: u32,
) -> Val {
    Val::Stored {
        kernel: layer.reshape_cache_k,
        rows: Box::new(stored_form(layer, w, rows)),
        slot: Box::new(m(w.slot)),
        pool: Box::new(m(pool)),
        num_tokens: w.num_tokens,
        num_kv_heads: w.num_kv_heads,
        head_dim: w.head_dim,
        block_size: w.block_size,
        stride,
        layout: pool_form(layer, layout, s),
    }
}

/// The buffers of a write are apart.
pub open spec fn write_laid_out(layer: Qwen3AttentionLayer, layout: KvLayout, w: CacheWrite) -> bool {
    let pool = layout.pools@[layer.attn_layer_idx as int];
    let bytes = w.num_kv_heads * w.num_tokens * w.head_dim * 2;
    &&& write_fits(layer, layout, w)
    &&& w.num_kv_heads * w.num_tokens <= u32::MAX
    &&& all_apart(
        seq![zone(w.k, bytes), zone(w.v, bytes), zone(w.slot, 8), zone(pool.k_pool, 1), zone(pool.v_pool, 1)],
    )
}

/// Keys go to the key pool and values to the value pool, each in the form of the
/// pool and at the slots of the write. Nothing else is stored anywhere; of the
/// rest of memory only the rows themselves may be transformed.
#[verifier::rlimit(60)]
#[verifier::spinoff_prover]
pub proof fn writes_keys_and_values_to_their_pools(
    layer: Qwen3AttentionLayer,
    layout: KvLayout,
    w: CacheWrite,
    s: Fp8Scales,
    stream: u64,
    m: Mem,
) -> (n: Mem)
    requires
        write_laid_out(layer, layout, w),
    ensures
        leads(write_steps(layer, layout, w, s, stream), stream, m, n),
        ({
            let pool = layout.pools@[layer.attn_layer_idx as int];
            let bytes = w.num_kv_heads * w.num_tokens * w.head_dim * 2;
            &&& n(pool.k_pool) == pool_with(layer, layout, w, s, m, pool.k_pool, m(w.k), w.key_stride)
            &&& n(pool.v_pool) == pool_with(layer, layout, w, s, m, pool.v_pool, m(w.v), w.value_stride)
            &&& forall|q: DevicePtr|
                off(q, w.k) >= bytes && off(q, w.v) >= bytes && q != pool.k_pool && q != pool.v_pool
                    ==> #[trigger] n(q) == m(q)
        }),
{
    reveal(write_steps);
    broadcast use {crate::flow::seen_flat, crate::flow::seen_reshape_and_cache, crate::flow::seen_wht};

    let pool = layout.pools@[layer.attn_layer_idx as int];
    let bytes = w.num_kv_heads * w.num_tokens * w.head_dim * 2;
    let z = seq![zone(w.k, bytes), zone(w.v, bytes), zone(w.slot, 8), zone(pool.k_pool, 1), zone(pool.v_pool, 1)];
    assert(apart(z[0], z[1]) && apart(z[0], z[2]) && apart(z[0], z[3]) && apart(z[0], z[4]) && apart(z[1], z[2]) && apart(
        z[1],
        z[3],
    ) && apart(z[1], z[4]) && apart(z[3], z[4]) && z[0].bytes > 0);
    let lead = lead_ops(layer, w);
    let store = store_op(layer, layout, w, s);
    let m1 = after(m, lead);
    if lead.len() == 1 {
        assert(lead =~= seq![lead[0]]);
        lemma_after_one(m, lead[0]);
    } else if lead.len() == 2 {
        assert(lead =~= seq![lead[0], lead[1]]);
        lemma_after_two(m, lead[0], lead[1]);
        let h = (w.num_kv_heads * w.num_tokens) as u32;
        assert(h * w.head_dim * 2 == bytes);
    }
    assert(pool.k_pool != pool.v_pool);
    let n = then_op(m1, store);
    lemma_after_one(m1, store);
    let e0 = steps(lead, stream);
    lemma_leads_steps(lead, stream, m);
    if layer.kv_dtype == KvCacheDtype::Fp8 {
        let ask = scales_step(layer.attn_layer_idx, s);
        lemma_leads_ask(ask, stream, m1);
        lemma_leads_add(e0, seq![ask], stream, m, m1, m1);
    } else {
        lemma_leads_nothing(stream, m1);
        lemma_leads_add(e0, Seq::empty(), stream, m, m1, m1);
    }
    lemma_leads_steps(seq![store], stream, m1);
    lemma_leads_add(e0 + ask_steps(layer, s), steps(seq![store], stream), stream, m, m1, n);
    n
}

/// The buffers of the step and the pools that it writes are apart.
pub open spec fn n2_pools_apart(c: MultiSeqCtx, layout: KvLayout, meta: AttnMetadataDev, o_out: DevicePtr) -> bool {
    let pool = layout.pools@[c.layer.attn_layer_idx as int];
    &&& n2_laid_out(c, meta, o_out)
    &&& write_fits(c.layer, layout, n2_write(c, meta.slot))
    &&& all_apart(n2_zones(c, meta, o_out).push(zone(pool.k_pool, 1)).push(zone(pool.v_pool, 1)))
}

/// What the step stores: for both tokens, latent and rotated key.
#[verifier::rlimit(60)]
#[verifier::spinoff_prover]
proof fn lemma_stored(
    c: MultiSeqCtx,
    layout: KvLayout,
    meta: AttnMetadataDev,
    o_out: DevicePtr,
    s: Fp8Scales,
    stream: u64,
    m: Mem,
) -> (n: Mem)
    requires
        n2_pools_apart(c, layout, meta, o_out),
    ensures
        leads(write_steps(c.layer, layout, n2_write(c, meta.slot), s, stream), stream, m, n),
        ({
            let pool = layout.pools@[c.layer.attn_layer_idx as int];
            let w = n2_write(c, meta.slot);
            &&& n(pool.k_pool) == pool_with(
                c.layer,
                layout,
                w,
                s,
                m,
                pool.k_pool,
                m(c.fwd.buffers.ssm_deinterleaved),
                c.cache_dim() as u32,
            )
            &&& n(pool.v_pool) == pool_with(
                c.layer,
                layout,
                w,
                s,
                m,
                pool.v_pool,
                m(c.fwd.buffers.expert_up_out),
                c.cache_dim() as u32,
            )
        }),
        forall|j: int, d: int|
            0 <= j < 16 && j != 5 && j != 6 && 0 <= d < n2_zones(c, meta, o_out)[j].bytes ==> #[trigger] n(
                at(n2_zones(c, meta, o_out)[j].base, d),
            ) == m(at(n2_zones(c, meta, o_out)[j].base, d)),
{
    let b = c.fwd.buffers;
    let z = n2_zones(c, meta, o_out);
    let pool = layout.pools@[c.layer.attn_layer_idx as int];
    let all = z.push(zone(pool.k_pool, 1)).push(zone(pool.v_pool, 1));
    let w = n2_write(c, meta.slot);
    let bytes = w.num_kv_heads * w.num_tokens * w.head_dim * 2;
    let (heads, rows, dim) = (w.num_kv_heads as int, w.num_tokens as int, w.head_dim as int);
    assert(heads * rows * dim * 2 == 2 * (dim * 2) && heads * rows == 2) by (nonlinear_arith)
        requires
            heads == 1,
            rows == 2,
    ;
    assert(dim == c.cache_dim());
    let small = seq![zone(w.k, bytes), zone(w.v, bytes), zone(w.slot, 8), zone(pool.k_pool, 1), zone(pool.v_pool, 1)];
    assert(all_apart(small)) by {
        assert(small[0] == all[5] && small[1] == all[6] && small[3] == all[16] && small[4] == all[17]);
        assert(small[2].base == all[15].base && small[2].bytes <= all[15].bytes);
        let f = |i: int| if i == 0 { 5int } else if i == 1 { 6int } else if i == 2 { 15int } else { i + 13 };
        assert forall|i: int, j: int| 0 <= i < 5 && 0 <= j < 5 && i != j implies apart(
            #[trigger] small[i],
            #[trigger] small[j],
        ) by {
            assert(apart(all[f(i)], all[f(j)]));
        }
    }
    let n = writes_keys_and_values_to_their_pools(c.layer, layout, w, s, stream, m);
    assert forall|j: int, d: int|
        0 <= j < 16 && j != 5 && j != 6 && 0 <= d < z[j].bytes implies #[trigger] n(at(z[j].base, d)) == m(
        at(z[j].base, d),
    ) by {
        let q = at(z[j].base, d);
        assert(all[j] == z[j] && all[5] == z[5] && all[6] == z[6]);
        lemma_outside(all[5], all[j], d);
        lemma_outside(all[6], all[j], d);
        lemma_outside(all[16], all[j], d);
        lemma_outside(all[17], all[j], d);
        crate::flow::off_self(pool.k_pool);
        crate::flow::off_self(pool.v_pool);
    }
    n
}

// ── output projection ──
/// Group `g` of a row by its own block of `wo_a`.
pub open spec fn grouped(c: MultiSeqCtx, g: int, x: Val) -> Val {
    match c.mla.wo_a_fp8 {
        Some(w) => Val::EightBitProduct {
            kernel: c.layer.w8a16_gemv_batch4_k,
            weight: at(w.weight, g * c.o_lora() * c.group_in()),
            row_scale: at(w.row_scale, g * (c.o_lora() / 128) * (c.group_in() / 128) * 4),
            n: c.o_lora(),
            k: c.group_in() as u32,
            of: Box::new(x),
        },
        None => product(
            c.layer.dense_gemv_k,
            DenseWeight { weight: at(c.mla.wo_a.weight, g * c.o_lora() * c.group_in() * 2) },
            c.o_lora(),
            c.group_in() as u32,
            x,
        ),
    }
}

/// Where group `g` of token `t` starts in the attention output.
pub open spec fn group_from(c: MultiSeqCtx, t: int, g: int) -> int {
    (t * c.q_dim() + g * c.group_in()) * 2
}

/// Where it goes in the latent.
pub open spec fn group_to(c: MultiSeqCtx, t: int, g: int) -> int {
    (t * c.latent_dim() + g * c.o_lora()) * 2
}

/// Groups lie inside their rows.
#[verifier::rlimit(60)]
#[verifier::spinoff_prover]
proof fn lemma_group_places(c: MultiSeqCtx, t: int, g: int)
    requires
        c.fits(),
        0 <= t < 2,
        0 <= g < c.o_groups(),
        0 < c.group_in(),
        0 < c.o_lora(),
    ensures
        0 <= group_from(c, t, g),
        group_from(c, t, g) + c.group_in() * 2 <= 2 * (c.q_dim() * 2),
        group_from(c, t, g) == t * (c.q_dim() * 2) + g * c.group_in() * 2,
        0 <= g * c.group_in() * 2 < c.q_dim() * 2,
        0 <= group_to(c, t, g),
        group_to(c, t, g) + c.o_lora() * 2 <= 2 * (c.latent_dim() * 2),
        group_to(c, 0, g) + c.latent_dim() * 2 == group_to(c, 1, g),
        group_to(c, 0, g) + c.o_lora() * 2 <= c.latent_dim() * 2,
{
    let og = c.o_groups() as int;
    let gi = c.group_in();
    let qd = c.q_dim();
    let ol = c.o_lora() as int;
    let ld = c.latent_dim();
    vstd::arithmetic::div_mod::lemma_fundamental_div_mod(qd, og);
    assert(og * gi <= qd) by {
        vstd::arithmetic::mul::lemma_mul_is_commutative(og, gi);
    }
    assert(g * gi + gi <= qd && 0 <= g * gi) by (nonlinear_arith)
        requires
            0 <= g < og,
            og * gi <= qd,
            0 < gi,
    ;
    assert(g * ol + ol <= ld && 0 <= g * ol) by (nonlinear_arith)
        requires
            0 <= g < og,
            og * ol == ld,
            0 < ol,
    ;
    assert(t * qd <= qd && 0 <= t * qd && t * (qd * 2) == t * qd * 2) by (nonlinear_arith)
        requires
            0 <= t <= 1,
            qd >= 0,
    ;
    assert(t * ld <= ld && 0 <= t * ld) by (nonlinear_arith)
        requires
            0 <= t <= 1,
            ld >= 0,
    ;
    assert(1 * ld == ld && 0 * ld == 0) by (nonlinear_arith);
}

/// The rows of a group side by side, and their products.
pub open spec fn packing_ops(c: MultiSeqCtx, g: int) -> Seq<Op> {
    let attn = c.fwd.buffers.attn_output;
    let pin = c.fwd.buffers.splitk_workspace;
    let w = c.mla.wo_a_fp8->0;
    let row = c.group_in() * 2;
    seq![
        Op::CopyD2d { src: at(attn, group_from(c, 0, g)), dst: pin, bytes: row as usize },
        Op::CopyD2d { src: at(attn, group_from(c, 1, g)), dst: at(pin, row), bytes: row as usize },
        Op::W8a16GemvBatch2 {
            kernel: c.layer.w8a16_gemv_batch4_k,
            input: pin,
            weight: at(w.weight, g * c.o_lora() * c.group_in()),
            row_scale: at(w.row_scale, g * (c.o_lora() / 128) * (c.group_in() / 128) * 4),
            output: at(pin, 2 * row),
            n: c.o_lora(),
            k: c.group_in() as u32,
        },
    ]
}

#[verifier::rlimit(60)]
#[verifier::spinoff_prover]
proof fn lemma_packed(c: MultiSeqCtx, meta: AttnMetadataDev, o_out: DevicePtr, m: Mem, g: int)
    requires
        n2_laid_out(c, meta, o_out),
        0 <= g < c.o_groups(),
        c.mla.wo_a_fp8 is Some,
    ensures
        ({
            let attn = c.fwd.buffers.attn_output;
            let pin = c.fwd.buffers.splitk_workspace;
            let row = c.group_in() * 2;
            let n = after(m, packing_ops(c, g));
            &&& n(at(pin, 2 * row)) == grouped(c, g, m(at(attn, group_from(c, 0, g))))
            &&& n(at(pin, 2 * row + c.o_lora() * 2)) == grouped(c, g, m(at(attn, group_from(c, 1, g))))
            &&& keeps(m, n, n2_zones(c, meta, o_out), set![8])
        }),
{
    let z = n2_zones(c, meta, o_out);
    let attn = c.fwd.buffers.attn_output;
    let pin = c.fwd.buffers.splitk_workspace;
    let gi = c.group_in();
    let row = gi * 2;
    let out = c.o_lora() * 2;
    let f0 = group_from(c, 0, g);
    let f1 = group_from(c, 1, g);
    let pout = at(pin, 2 * row);
    let w = c.mla.wo_a_fp8->0;
    let wt = at(w.weight, g * c.o_lora() * c.group_in());
    let sc = at(w.row_scale, g * (c.o_lora() / 128) * (c.group_in() / 128) * 4);
    let k8 = c.layer.w8a16_gemv_batch4_k;
    lemma_group_places(c, 0, g);
    lemma_group_places(c, 1, g);
    let o = packing_ops(c, g);
    let m1 = then_op(m, o[0]);
    let m2 = then_op(m1, o[1]);
    let n = then_op(m2, o[2]);
    crate::flow::lemma_after_three(m, o[0], o[1], o[2]);
    assert(o =~= seq![o[0], o[1], o[2]]);
    assert(at(pin, 0) == pin);
    lemma_op_keeps(m, o[0], z, 8, 0);
    lemma_op_keeps(m1, o[1], z, 8, row);
    lemma_op_keeps(m2, o[2], z, 8, 2 * row);
    lemma_keeps_then(m, m1, m2, z, set![8], set![8]);
    lemma_keeps_then(m, m2, n, z, set![8].union(set![8]), set![8]);
    lemma_keeps_more(m, n, z, set![8].union(set![8]).union(set![8]), set![8]);
    lemma_kept(m, m1, z, set![8], 7, f1);
    crate::flow::seen_copy_d2d(m, at(attn, f0), pin, row as usize, pin);
    crate::flow::off_self(pin);
    crate::flow::lemma_between(pin, 0, row);
    crate::flow::seen_copy_d2d(m1, at(attn, f1), at(pin, row), row as usize, pin);
    crate::flow::off_self(at(pin, row));
    crate::flow::seen_copy_d2d(m1, at(attn, f1), at(pin, row), row as usize, at(pin, row));
    assert(at(at(attn, f0), 0) == at(attn, f0) && at(at(attn, f1), 0) == at(attn, f1));
    assert(m2(pin) == m(at(attn, f0)));
    assert(m2(at(pin, row)) == m(at(attn, f1)));
    lemma_row(0, 2, out);
    lemma_row(1, 2, out);
    lemma_inside(pout, 0);
    lemma_inside(pout, out);
    assert(0 * out == 0 && 1 * out == out && 0 * row == 0 && 1 * row == row) by (nonlinear_arith);
    assert(at(pout, 0) == pout);
    crate::flow::lemma_at_at(pin, 2 * row, out);
    seen_w8a16_gemv_batch2(m2, k8, pin, wt, sc, pout, c.o_lora(), gi as u32, pout);
    seen_w8a16_gemv_batch2(m2, k8, pin, wt, sc, pout, c.o_lora(), gi as u32, at(pout, out));
}

/// One group of both tokens, with eight-bit weights.
#[verifier::rlimit(60)]
#[verifier::spinoff_prover]
proof fn lemma_group_fp8(c: MultiSeqCtx, meta: AttnMetadataDev, o_out: DevicePtr, m: Mem, g: int)
    requires
        n2_laid_out(c, meta, o_out),
        0 <= g < c.o_groups(),
        c.mla.wo_a_fp8 is Some,
    ensures
        ({
            let b = c.fwd.buffers;
            let n = after(m, group_ops(c, b.attn_output, g));
            &&& n(at(b.o_latent, group_to(c, 0, g))) == grouped(c, g, m(at(b.attn_output, group_from(c, 0, g))))
            &&& n(at(b.o_latent, group_to(c, 1, g))) == grouped(c, g, m(at(b.attn_output, group_from(c, 1, g))))
            &&& keeps(m, n, n2_zones(c, meta, o_out), set![8, 9])
            &&& forall|d: int|
                0 <= d < 2 * (c.latent_dim() * 2) && (d < group_to(c, 0, g) || group_to(c, 0, g) + c.o_lora() * 2 <= d < group_to(
                    c,
                    1,
                    g,
                ) || group_to(c, 1, g) + c.o_lora() * 2 <= d) ==> #[trigger] n(at(b.o_latent, d)) == m(
                    at(b.o_latent, d),
                )
        }),
{
    let b = c.fwd.buffers;
    let z = n2_zones(c, meta, o_out);
    let attn = b.attn_output;
    let ol = c.o_lora() as int;
    let out = ol * 2;
    let t0 = group_to(c, 0, g);
    let t1 = group_to(c, 1, g);
    let pin = b.splitk_workspace;
    let row = c.group_in() * 2;
    let pout = at(pin, 2 * row);
    lemma_group_places(c, 0, g);
    lemma_group_places(c, 1, g);
    lemma_group_bytes(c, g);
    lemma_packed(c, meta, o_out, m, g);
    let front = packing_ops(c, g);
    let o3 = Op::CopyD2d { src: pout, dst: at(b.o_latent, t0), bytes: out as usize };
    let o4 = Op::CopyD2d { src: at(pout, out), dst: at(b.o_latent, t1), bytes: out as usize };
    let m3 = after(m, front);
    let m4 = then_op(m3, o3);
    let n = then_op(m4, o4);
    assert(group_ops(c, attn, g) =~= front + seq![o3, o4]);
    lemma_after_add(m, front, seq![o3, o4]);
    lemma_after_two(m3, o3, o4);
    lemma_op_keeps(m3, o3, z, 9, t0);
    lemma_op_keeps(m4, o4, z, 9, t1);
    lemma_keeps_then(m, m3, m4, z, set![8], set![9]);
    lemma_keeps_then(m, m4, n, z, set![8].union(set![9]), set![9]);
    lemma_keeps_more(m, n, z, set![8].union(set![9]).union(set![9]), set![8, 9]);
    crate::flow::lemma_at_at(pin, 2 * row, out);
    lemma_kept(m3, m4, z, set![9], 8, 2 * row + out);
    crate::flow::off_self(at(b.o_latent, t0));
    crate::flow::off_self(at(b.o_latent, t1));
    crate::flow::lemma_between(b.o_latent, t0, t1);
    assert(at(at(pout, out), 0) == at(pout, out) && at(pout, 0) == pout);
    crate::flow::seen_copy_d2d(m3, pout, at(b.o_latent, t0), out as usize, at(b.o_latent, t0));
    crate::flow::seen_copy_d2d(m4, at(pout, out), at(b.o_latent, t1), out as usize, at(b.o_latent, t0));
    crate::flow::seen_copy_d2d(m4, at(pout, out), at(b.o_latent, t1), out as usize, at(b.o_latent, t1));
    assert forall|d: int|
        0 <= d < 2 * (c.latent_dim() * 2) && (d < t0 || t0 + out <= d < t1 || t1 + out <= d) implies #[trigger] n(
        at(b.o_latent, d),
    ) == m(at(b.o_latent, d)) by {
        crate::flow::lemma_between(b.o_latent, d, t0);
        crate::flow::lemma_between(b.o_latent, d, t1);
        lemma_kept(m, m3, z, set![8], 9, d);
        crate::flow::seen_copy_d2d(m3, pout, at(b.o_latent, t0), out as usize, at(b.o_latent, d));
        crate::flow::seen_copy_d2d(m4, at(pout, out), at(b.o_latent, t1), out as usize, at(b.o_latent, d));
    }
}

/// One group of both tokens, with plain weights.
#[verifier::rlimit(60)]
#[verifier::spinoff_prover]
proof fn lemma_group_dense(c: MultiSeqCtx, meta: AttnMetadataDev, o_out: DevicePtr, m: Mem, g: int)
    requires
        n2_laid_out(c, meta, o_out),
        0 <= g < c.o_groups(),
        c.mla.wo_a_fp8 is None,
    ensures
        ({
            let b = c.fwd.buffers;
            let n = after(m, group_ops(c, b.attn_output, g));
            &&& n(at(b.o_latent, group_to(c, 0, g))) == grouped(c, g, m(at(b.attn_output, group_from(c, 0, g))))
            &&& n(at(b.o_latent, group_to(c, 1, g))) == grouped(c, g, m(at(b.attn_output, group_from(c, 1, g))))
            &&& keeps(m, n, n2_zones(c, meta, o_out), set![8, 9])
            &&& forall|d: int|
                0 <= d < 2 * (c.latent_dim() * 2) && (d < group_to(c, 0, g) || group_to(c, 0, g) + c.o_lora() * 2 <= d < group_to(
                    c,
                    1,
                    g,
                ) || group_to(c, 1, g) + c.o_lora() * 2 <= d) ==> #[trigger] n(at(b.o_latent, d)) == m(
                    at(b.o_latent, d),
                )
        }),
{
    let b = c.fwd.buffers;
    let z = n2_zones(c, meta, o_out);
    let attn = b.attn_output;
    let e = c.bf16 as int;
    let gi = c.group_in();
    let ol = c.o_lora() as int;
    let row = gi * 2;
    let out = ol * 2;
    let f0 = group_from(c, 0, g);
    let f1 = group_from(c, 1, g);
    let t0 = group_to(c, 0, g);
    let t1 = group_to(c, 1, g);
    lemma_sizes(c);
    lemma_group_places(c, 0, g);
    lemma_group_places(c, 1, g);
    lemma_group_bytes(c, g);
    let pin = b.splitk_workspace;
    let pout = at(pin, 2 * row);
    let p0 = Op::CopyD2d { src: at(attn, f0), dst: pin, bytes: row as usize };
    let p1 = Op::CopyD2d { src: at(attn, f1), dst: at(pin, row), bytes: row as usize };
    let all = group_ops(c, attn, g);
    let m1 = then_op(m, p0);
    let m2 = then_op(m1, p1);
    assert(at(pin, 0) == pin);
    lemma_op_keeps(m, p0, z, 8, 0);
    lemma_op_keeps(m1, p1, z, 8, row);
    lemma_keeps_then(m, m1, m2, z, set![8], set![8]);
    lemma_keeps_more(m, m2, z, set![8].union(set![8]), set![8]);
    lemma_kept(m, m1, z, set![8], 7, f1);
    lemma_kept(m, m2, z, set![8], 7, f0);
    lemma_kept(m, m2, z, set![8], 7, f1);
    lemma_after_two(m, p0, p1);
    let wt = DenseWeight { weight: at(c.mla.wo_a.weight, g * c.o_lora() * c.group_in() * 2) };
    let kd = c.layer.dense_gemv_k;
    let o2 = gemv_op(c, at(attn, f0), wt, at(b.o_latent, t0), ol, gi);
    let o3 = gemv_op(c, at(attn, f1), wt, at(b.o_latent, t1), ol, gi);
    let m3 = then_op(m2, o2);
    let n = then_op(m3, o3);
    assert(all =~= seq![p0, p1] + seq![o2, o3]);
    lemma_after_add(m, seq![p0, p1], seq![o2, o3]);
    lemma_after_two(m2, o2, o3);
    lemma_op_keeps(m2, o2, z, 9, t0);
    lemma_op_keeps(m3, o3, z, 9, t1);
    lemma_keeps_then(m, m2, m3, z, set![8], set![9]);
    lemma_keeps_then(m, m3, n, z, set![8].union(set![9]), set![9]);
    lemma_keeps_more(m, n, z, set![8].union(set![9]).union(set![9]), set![8, 9]);
    lemma_kept(m2, m3, z, set![9], 7, f1);
    crate::flow::off_self(at(b.o_latent, t0));
    crate::flow::off_self(at(b.o_latent, t1));
    crate::flow::lemma_between(b.o_latent, t0, t1);
    seen_dense_gemv(m2, kd, at(attn, f0), wt, at(b.o_latent, t0), ol as u32, gi as u32, at(b.o_latent, t0));
    seen_dense_gemv(m3, kd, at(attn, f1), wt, at(b.o_latent, t1), ol as u32, gi as u32, at(b.o_latent, t0));
    seen_dense_gemv(m3, kd, at(attn, f1), wt, at(b.o_latent, t1), ol as u32, gi as u32, at(b.o_latent, t1));
    assert forall|d: int|
        0 <= d < 2 * (c.latent_dim() * 2) && (d < t0 || t0 + out <= d < t1 || t1 + out <= d) implies #[trigger] n(
        at(b.o_latent, d),
    ) == m(at(b.o_latent, d)) by {
        crate::flow::lemma_between(b.o_latent, d, t0);
        crate::flow::lemma_between(b.o_latent, d, t1);
        lemma_kept(m, m2, z, set![8], 9, d);
        seen_dense_gemv(m2, kd, at(attn, f0), wt, at(b.o_latent, t0), ol as u32, gi as u32, at(b.o_latent, d));
        seen_dense_gemv(m3, kd, at(attn, f1), wt, at(b.o_latent, t1), ol as u32, gi as u32, at(b.o_latent, d));
    }
}

/// One group of both tokens.
proof fn lemma_group(c: MultiSeqCtx, meta: AttnMetadataDev, o_out: DevicePtr, m: Mem, g: int)
    requires
        n2_laid_out(c, meta, o_out),
        0 <= g < c.o_groups(),
    ensures
        ({
            let b = c.fwd.buffers;
            let n = after(m, group_ops(c, b.attn_output, g));
            &&& n(at(b.o_latent, group_to(c, 0, g))) == grouped(c, g, m(at(b.attn_output, group_from(c, 0, g))))
            &&& n(at(b.o_latent, group_to(c, 1, g))) == grouped(c, g, m(at(b.attn_output, group_from(c, 1, g))))
            &&& keeps(m, n, n2_zones(c, meta, o_out), set![8, 9])
            &&& forall|d: int|
                0 <= d < 2 * (c.latent_dim() * 2) && (d < group_to(c, 0, g) || group_to(c, 0, g) + c.o_lora() * 2 <= d < group_to(
                    c,
                    1,
                    g,
                ) || group_to(c, 1, g) + c.o_lora() * 2 <= d) ==> #[trigger] n(at(b.o_latent, d)) == m(
                    at(b.o_latent, d),
                )
        }),
{
    if c.mla.wo_a_fp8 is Some {
        lemma_group_fp8(c, meta, o_out, m, g);
    } else {
        lemma_group_dense(c, meta, o_out, m, g);
    }
}

/// The offsets of a group, with two bytes per element.
proof fn lemma_group_bytes(c: MultiSeqCtx, g: int)
    requires
        c.bf16 == 2,
    ensures
        g * c.group_in() * c.bf16 == group_from(c, 0, g),
        (c.q_dim() + g * c.group_in()) * c.bf16 == group_from(c, 1, g),
        c.group_in() * c.bf16 == c.group_in() * 2,
        c.o_lora() * c.bf16 == c.o_lora() * 2,
        2 * (c.group_in() * c.bf16) == 2 * (c.group_in() * 2),
        g * c.o_lora() * c.bf16 == group_to(c, 0, g),
        (c.latent_dim() + g * c.o_lora()) * c.bf16 == group_to(c, 1, g),
        g * c.o_lora() * c.group_in() * c.bf16 == g * c.o_lora() * c.group_in() * 2,
{
    let e = c.bf16 as int;
    let (gi, ol, qd, ld) = (c.group_in(), c.o_lora() as int, c.q_dim(), c.latent_dim());
    let x = g * gi;
    let y = g * ol;
    let w = y * gi;
    assert(x * e == x * 2 && (qd + x) * e == (qd + x) * 2 && gi * e == gi * 2 && ol * e == ol * 2 && y * e == y * 2 && (ld
        + y) * e == (ld + y) * 2 && w * e == w * 2) by (nonlinear_arith)
        requires
            e == 2,
    ;
    assert(0 * qd == 0 && 1 * qd == qd && 0 * ld == 0 && 1 * ld == ld) by (nonlinear_arith);
}

/// The first `n` groups of both tokens.
#[verifier::rlimit(60)]
#[verifier::spinoff_prover]
proof fn lemma_groups(c: MultiSeqCtx, meta: AttnMetadataDev, o_out: DevicePtr, m: Mem, n: int)
    requires
        n2_laid_out(c, meta, o_out),
        0 <= n <= c.o_groups(),
    ensures
        ({
            let b = c.fwd.buffers;
            let o = after(m, groups_ops(c, b.attn_output, n));
            &&& forall|t: int, g: int|
                0 <= t < 2 && 0 <= g < n ==> o(#[trigger] at(b.o_latent, group_to(c, t, g))) == grouped(
                    c,
                    g,
                    m(at(b.attn_output, group_from(c, t, g))),
                )
            &&& keeps(m, o, n2_zones(c, meta, o_out), set![8, 9])
        }),
    decreases n,
{
    let b = c.fwd.buffers;
    let z = n2_zones(c, meta, o_out);
    if n > 0 {
        let k = n - 1;
        lemma_groups(c, meta, o_out, m, k);
        let m1 = after(m, groups_ops(c, b.attn_output, k));
        let o = after(m1, group_ops(c, b.attn_output, k));
        lemma_after_add(m, groups_ops(c, b.attn_output, k), group_ops(c, b.attn_output, k));
        lemma_group(c, meta, o_out, m1, k);
        lemma_keeps_then(m, m1, o, z, set![8, 9], set![8, 9]);
        lemma_keeps_more(m, o, z, set![8, 9].union(set![8, 9]), set![8, 9]);
        assert forall|t: int, g: int| 0 <= t < 2 && 0 <= g < n implies o(#[trigger] at(b.o_latent, group_to(c, t, g)))
            == grouped(c, g, m(at(b.attn_output, group_from(c, t, g)))) by {
            lemma_group_places(c, t, g);
            lemma_group_places(c, 0, k);
            lemma_group_places(c, 1, k);
            lemma_group_places(c, 0, g);
            lemma_kept(m, m1, z, set![8, 9], 7, group_from(c, t, g));
            if g < k {
                lemma_groups_in_order(c, g, k);
                assert(m1(at(b.o_latent, group_to(c, t, g))) == grouped(
                    c,
                    g,
                    m(at(b.attn_output, group_from(c, t, g))),
                ));
            } else {
                assert(t == 0 || t == 1);
            }
        }
    } else {
        assert(groups_ops(c, b.attn_output, n) =~= Seq::<Op>::empty());
    }
}

/// An earlier group ends before a later one begins.
proof fn lemma_groups_in_order(c: MultiSeqCtx, g: int, k: int)
    requires
        0 <= g < k,
        0 < c.o_lora(),
    ensures
        group_to(c, 0, g) + c.o_lora() * 2 <= group_to(c, 0, k),
        group_to(c, 1, g) + c.o_lora() * 2 <= group_to(c, 1, k),
{
    let ol = c.o_lora() as int;
    assert(g * ol + ol <= k * ol) by (nonlinear_arith)
        requires
            g < k,
            ol > 0,
    ;
}

/// The attention row of token `t`: its query, turned forward, attends, and the
/// result is turned back.
pub open spec fn attention_row(c: MultiSeqCtx, cache: CacheId, meta: AttnMetadataDev, m: Mem, t: int) -> Val {
    rotated(
        c,
        meta,
        m,
        t,
        c.nq,
        true,
        attended(c, cache, meta, m, t, rotated(c, meta, m, t, c.nq, false, query(c, m, t))),
    )
}

/// The rotated query and what it attends with are as the lead left them.
#[verifier::rlimit(60)]
#[verifier::spinoff_prover]
proof fn lemma_query_attends(
    c: MultiSeqCtx,
    cache: CacheId,
    meta: AttnMetadataDev,
    o_out: DevicePtr,
    m: Mem,
    m1: Mem,
    m2: Mem,
    t: int,
)
    requires
        n2_laid_out(c, meta, o_out),
        0 <= t < 2,
        m1(at(c.q_out(), t * (c.q_dim() * 2))) == rotated(c, meta, m, t, c.nq, false, query(c, m, t)),
        keeps(m, m1, n2_zones(c, meta, o_out), set![0, 1, 2, 3, 4, 5, 6]),
        forall|j: int, d: int|
            0 <= j < 16 && j != 5 && j != 6 && 0 <= d < n2_zones(c, meta, o_out)[j].bytes ==> #[trigger] m2(
                at(n2_zones(c, meta, o_out)[j].base, d),
            ) == m1(at(n2_zones(c, meta, o_out)[j].base, d)),
    ensures
        rotated(
            c,
            meta,
            m2,
            t,
            c.nq,
            true,
            attended(c, cache, meta, m2, t, m2(at(c.q_out(), t * (c.q_dim() * 2)))),
        ) == attention_row(c, cache, meta, m, t),
{
    let z = n2_zones(c, meta, o_out);
    let qd2 = c.q_dim() * 2;
    let early = set![0int, 1, 2, 3, 4, 5, 6];
    let tb = meta.max_blocks_per_seq * 4;
    lemma_sizes(c);
    lemma_row(t, 2, qd2);
    assert(z[13].bytes == 2 * tb);
    assert(0 <= t * tb < 2 * tb) by (nonlinear_arith)
        requires
            0 <= t < 2,
            tb > 0,
    ;
    lemma_kept(m, m1, z, early, 12, t * 4);
    lemma_kept(m, m1, z, early, 13, t * tb);
    lemma_kept(m, m1, z, early, 14, t * 4);
    assert(m2(at(z[1].base, t * qd2)) == m1(at(z[1].base, t * qd2)));
    assert(m2(at(z[12].base, t * 4)) == m1(at(z[12].base, t * 4)));
    assert(m2(at(z[13].base, t * tb)) == m1(at(z[13].base, t * tb)));
    assert(m2(at(z[14].base, t * 4)) == m1(at(z[14].base, t * 4)));
}

/// Two-token attention. Each token's query and key are made of its own row and
/// turned forward by its own position; latent and key go to the cache; the query
/// attends with its own table and length, and the result is turned back by the
/// same position and frequencies. Every group of that row goes through its own
/// block of `wo_a`, and the latent through `wo_b`.
#[verifier::rlimit(100)]
#[verifier::spinoff_prover]
pub proof fn two_token_attention_turns_forward_and_back(
    c: MultiSeqCtx,
    layout: KvLayout,
    meta: AttnMetadataDev,
    o_out: DevicePtr,
    s: Fp8Scales,
    stream: u64,
    m: Mem,
) -> (n: Mem)
    requires
        n2_pools_apart(c, layout, meta, o_out),
    ensures
        leads(flash_n2_steps(c, layout, meta, o_out, s, stream), stream, m, n),
        forall|t: int, d: int|
            0 <= t < 2 && 0 <= d < c.q_dim() * 2 ==> #[trigger] n(
                at(c.fwd.buffers.attn_output, t * (c.q_dim() * 2) + d),
            ) == part(attention_row(c, layout.cache, meta, m, t), d),
        forall|t: int, g: int|
            0 <= t < 2 && 0 <= g < c.o_groups() ==> n(#[trigger] at(c.fwd.buffers.o_latent, group_to(c, t, g))) == grouped(
                c,
                g,
                part(attention_row(c, layout.cache, meta, m, t), g * c.group_in() * 2),
            ),
        forall|t: int|
            0 <= t < 2 ==> #[trigger] n(at(o_out, t * (c.h * 2))) == projected(
                c,
                None,
                c.mla.wo_b_fp8,
                c.mla.wo_b,
                c.h as int,
                c.latent_dim(),
                n(at(c.fwd.buffers.o_latent, group_to(c, t, 0))),
            ),
        ({
            let pool = layout.pools@[c.layer.attn_layer_idx as int];
            let row = cache_row(c, meta, m);
            let w = n2_write(c, meta.slot);
            let dim = c.cache_dim() as u32;
            &&& n(pool.k_pool) == pool_with(c.layer, layout, w, s, m, pool.k_pool, row, dim)
            &&& n(pool.v_pool) == pool_with(c.layer, layout, w, s, m, pool.v_pool, row, dim)
        }),
{
    let b = c.fwd.buffers;
    let z = n2_zones(c, meta, o_out);
    let pool = layout.pools@[c.layer.attn_layer_idx as int];
    let qd2 = c.q_dim() * 2;
    lemma_sizes(c);
    let lead = n2_lead(c, meta);
    let m1 = after(m, lead);
    lemma_lead(c, meta, o_out, m);
    lemma_leads_steps(lead, stream, m);
    let e1 = steps(lead, stream);
    let e2 = write_steps(c.layer, layout, n2_write(c, meta.slot), s, stream);
    let m2 = lemma_stored(c, layout, meta, o_out, s, stream, m1);
    lemma_leads_add(e1, e2, stream, m, m1, m2);
    let (m3, n) = lemma_rest(c, layout.cache, meta, o_out, m2);
    let rest = n2_rest(c, layout.cache, meta, o_out);
    lemma_leads_steps(rest, stream, m2);
    lemma_leads_add(e1 + e2, steps(rest, stream), stream, m, m2, n);
    let early = set![0int, 1, 2, 3, 4, 5, 6];
    assert forall|t: int| 0 <= t < 2 implies rotated(
        c,
        meta,
        m2,
        t,
        c.nq,
        true,
        #[trigger] attended(c, layout.cache, meta, m2, t, m2(at(c.q_out(), t * qd2))),
    ) == attention_row(c, layout.cache, meta, m, t) by {
        lemma_query_attends(c, layout.cache, meta, o_out, m, m1, m2, t);
    }
    assert forall|t: int, d: int| 0 <= t < 2 && 0 <= d < qd2 implies #[trigger] n(at(b.attn_output, t * qd2 + d)) == part(
        attention_row(c, layout.cache, meta, m, t),
        d,
    ) by {
        assert(attended(c, layout.cache, meta, m2, t, m2(at(c.q_out(), t * qd2))) == attended(
            c,
            layout.cache,
            meta,
            m2,
            t,
            m2(at(c.q_out(), t * qd2)),
        ));
    }
    assert forall|t: int, g: int| 0 <= t < 2 && 0 <= g < c.o_groups() implies n(
        #[trigger] at(b.o_latent, group_to(c, t, g)),
    ) == grouped(c, g, part(attention_row(c, layout.cache, meta, m, t), g * c.group_in() * 2)) by {
        lemma_group_places(c, t, g);
        assert(n(at(b.attn_output, t * qd2 + g * c.group_in() * 2)) == part(
            attention_row(c, layout.cache, meta, m, t),
            g * c.group_in() * 2,
        ));
        assert(at(b.attn_output, group_from(c, t, g)) == at(b.attn_output, t * qd2 + g * c.group_in() * 2));
    }
    // The pools and the slots are as they were before the step.
    lemma_pools_kept(c, layout, meta, o_out, m, m1, early);
    lemma_pools_kept(c, layout, meta, o_out, m2, n, set![4, 7, 8, 9, 10]);
    lemma_kept(m, m1, z, early, 15, 0);
    assert(at(meta.slot, 0) == meta.slot);
    n
}

/// What leaves the pools alone.
proof fn lemma_pools_kept(
    c: MultiSeqCtx,
    layout: KvLayout,
    meta: AttnMetadataDev,
    o_out: DevicePtr,
    m: Mem,
    n: Mem,
    only: Set<int>,
)
    requires
        n2_pools_apart(c, layout, meta, o_out),
        keeps(m, n, n2_zones(c, meta, o_out), only),
    ensures
        ({
            let pool = layout.pools@[c.layer.attn_layer_idx as int];
            n(pool.k_pool) == m(pool.k_pool) && n(pool.v_pool) == m(pool.v_pool)
        }),
{
    let z = n2_zones(c, meta, o_out);
    let pool = layout.pools@[c.layer.attn_layer_idx as int];
    let all = z.push(zone(pool.k_pool, 1)).push(zone(pool.v_pool, 1));
    assert forall|i: int| 0 <= i < z.len() && only.contains(i) implies off(pool.k_pool, (#[trigger] z[i]).base)
        >= z[i].bytes && off(pool.v_pool, z[i].base) >= z[i].bytes by {
        assert(all[i] == z[i]);
        assert(apart(all[i], all[16]) && apart(all[i], all[17]));
    }
    assert(clear_of(pool.k_pool, z, only));
    assert(clear_of(pool.v_pool, z, only));
}

/// Everything after the cache was written: memory once the groups are done, and
/// at the end.
#[verifier::rlimit(100)]
#[verifier::spinoff_prover]
proof fn lemma_rest(c: MultiSeqCtx, cache: CacheId, meta: AttnMetadataDev, o_out: DevicePtr, m: Mem) -> (r: (Mem, Mem))
    requires
        n2_laid_out(c, meta, o_out),
    ensures
        r.1 == after(m, n2_rest(c, cache, meta, o_out)),
        forall|t: int, d: int|
            0 <= t < 2 && 0 <= d < c.q_dim() * 2 ==> #[trigger] r.1(
                at(c.fwd.buffers.attn_output, t * (c.q_dim() * 2) + d),
            ) == part(
                rotated(
                    c,
                    meta,
                    m,
                    t,
                    c.nq,
                    true,
                    attended(c, cache, meta, m, t, m(at(c.q_out(), t * (c.q_dim() * 2)))),
                ),
                d,
            ),
        forall|t: int, g: int|
            0 <= t < 2 && 0 <= g < c.o_groups() ==> r.1(#[trigger] at(c.fwd.buffers.o_latent, group_to(c, t, g)))
                == grouped(c, g, r.1(at(c.fwd.buffers.attn_output, group_from(c, t, g)))),
        forall|t: int|
            0 <= t < 2 ==> #[trigger] r.1(at(o_out, t * (c.h * 2))) == projected(
                c,
                None,
                c.mla.wo_b_fp8,
                c.mla.wo_b,
                c.h as int,
                c.latent_dim(),
                r.1(at(c.fwd.buffers.o_latent, group_to(c, t, 0))),
            ),
        keeps(m, r.1, n2_zones(c, meta, o_out), set![4, 7, 8, 9, 10]),
{
    reveal(n2_rest);
    let b = c.fwd.buffers;
    let z = n2_zones(c, meta, o_out);
    let qd2 = c.q_dim() * 2;
    let ld = c.latent_dim();
    let h = c.h as int;
    lemma_sizes(c);
    let w = wait_if(c.profile);
    let a = attend_ops(c, cache, meta);
    let g = groups_ops(c, b.attn_output, c.o_groups() as int);
    let p = project_ops(c, b.o_latent, ld * 2, None, c.mla.wo_b_fp8, c.mla.wo_b, o_out, h * 2, h, ld);
    lemma_wait(m, c.profile);
    lemma_attend(c, cache, meta, o_out, m);
    let m1 = after(m, a);
    lemma_groups(c, meta, o_out, m1, c.o_groups() as int);
    let m2 = after(m1, g);
    assert(apart(z[10], z[9]));
    lemma_project(c, m2, b.o_latent, None, c.mla.wo_b_fp8, c.mla.wo_b, o_out, h, ld, z, 10);
    let n = after(m2, p);
    lemma_wait(n, c.profile);
    assert(output_ops(c, b.attn_output, o_out) == g + p);
    lemma_after_add(m, w, a);
    lemma_after_add(m1, g, p);
    lemma_after_add(m, w + a, g + p);
    lemma_after_add(m, w + a + (g + p), w);
    lemma_keeps_then(m, m1, m2, z, set![4, 7, 8], set![8, 9]);
    lemma_keeps_then(m, m2, n, z, set![4, 7, 8].union(set![8, 9]), set![10]);
    lemma_keeps_more(m, n, z, set![4, 7, 8].union(set![8, 9]).union(set![10]), set![4, 7, 8, 9, 10]);
    lemma_keeps_then(m1, m2, n, z, set![8, 9], set![10]);
    lemma_keeps_more(m1, n, z, set![8, 9].union(set![10]), set![8, 9, 10]);
    assert forall|t: int, d: int| 0 <= t < 2 && 0 <= d < qd2 implies #[trigger] n(at(b.attn_output, t * qd2 + d)) == part(
        rotated(c, meta, m, t, c.nq, true, attended(c, cache, meta, m, t, m(at(c.q_out(), t * qd2)))),
        d,
    ) by {
        lemma_row(t, 2, qd2);
        lemma_kept(m1, n, z, set![8, 9, 10], 7, t * qd2 + d);
        assert(m1(at(b.attn_output, t * qd2 + d)) == part(
            rotated(c, meta, m, t, c.nq, true, attended(c, cache, meta, m, t, m(at(c.q_out(), t * qd2)))),
            d,
        ));
    }
    assert forall|t: int, k: int| 0 <= t < 2 && 0 <= k < c.o_groups() implies n(#[trigger] at(b.o_latent, group_to(c, t, k)))
        == grouped(c, k, n(at(b.attn_output, group_from(c, t, k)))) by {
        lemma_group_places(c, t, k);
        lemma_kept(m1, n, z, set![8, 9, 10], 7, group_from(c, t, k));
        lemma_kept(m2, n, z, set![10], 9, group_to(c, t, k));
        assert(m2(at(b.o_latent, group_to(c, t, k))) == grouped(c, k, m1(at(b.attn_output, group_from(c, t, k)))));
    }
    assert forall|t: int| 0 <= t < 2 implies #[trigger] n(at(o_out, t * (h * 2))) == projected(
        c,
        None,
        c.mla.wo_b_fp8,
        c.mla.wo_b,
        h,
        ld,
        n(at(b.o_latent, group_to(c, t, 0))),
    ) by {
        lemma_row(t, 2, ld * 2);
        lemma_group_places(c, t, 0);
        let ol = c.o_lora() as int;
        assert(t * (ld * 2) == (t * ld + 0 * ol) * 2) by (nonlinear_arith);
        lemma_kept(m2, n, z, set![10], 9, t * (ld * 2));
    }
    (m2, n)
}

/// The rotations among some operations, in order.
pub open spec fn rotations(ops: Seq<Op>) -> Seq<Op>
    decreases ops.len(),
{
    if ops.len() == 0 {
        Seq::empty()
    } else {
        let rest = rotations(ops.drop_last());
        if ops.last() is RopeYarn {
            rest.push(ops.last())
        } else {
            rest
        }
    }
}

proof fn lemma_rotations_add(a: Seq<Op>, b: Seq<Op>)
    ensures
        rotations(a + b) == rotations(a) + rotations(b),
    decreases b.len(),
{
    if b.len() == 0 {
        assert(a + b =~= a);
        assert(rotations(a) + rotations(b) =~= rotations(a));
    } else {
        assert((a + b).drop_last() =~= a + b.drop_last());
        lemma_rotations_add(a, b.drop_last());
        assert(rotations(a + b) =~= rotations(a) + rotations(b));
    }
}

proof fn lemma_no_rotations(ops: Seq<Op>)
    requires
        forall|i: int| 0 <= i < ops.len() ==> !(#[trigger] ops[i] is RopeYarn),
    ensures
        rotations(ops) == Seq::<Op>::empty(),
    decreases ops.len(),
{
    if ops.len() > 0 {
        lemma_no_rotations(ops.drop_last());
    }
}

/// The step turns twice: once forward, queries and keys together, before the
/// cache is written, and once back, after the attention. Both turn by the same
/// positions, with the same frequencies and magnitude.
pub proof fn one_rotation_forward_one_back(c: MultiSeqCtx, cache: CacheId, meta: AttnMetadataDev, o_out: DevicePtr)
    ensures
        ({
            let forward = rotations(n2_lead(c, meta));
            let back = rotations(n2_rest(c, cache, meta, o_out));
            &&& forward.len() == 1
            &&& back.len() == 1
            &&& match (forward[0], back[0]) {
                (
                    Op::RopeYarn { kernel: k0, positions: p0, inv_freq: f0, mscale: s0, nq: q0, nk: n0, count: c0, .. },
                    Op::RopeYarn { kernel: k1, positions: p1, inv_freq: f1, mscale: s1, nq: q1, nk: n1, count: c1, .. },
                ) => {
                    &&& k0 == c.layer.rope_yarn_interleaved_k
                    &&& k1 == c.layer.rope_yarn_interleaved_inv_k
                    &&& p0 == meta.positions && p1 == p0
                    &&& f0 == f1 && s0 == s1
                    &&& q0 == c.nq && q1 == q0 && n0 == 1 && n1 == 0
                    &&& c0 == 2 && c1 == 2
                },
                _ => false,
            }
        }),
{
    lemma_forward(c, meta);
    lemma_back(c, cache, meta, o_out);
}

proof fn lemma_forward(c: MultiSeqCtx, meta: AttnMetadataDev)
    ensures
        rotations(n2_lead(c, meta)) == seq![
            rotate_op(c, false, c.fwd.buffers.ssm_conv_out_f32, c.fwd.buffers.ssm_ba, meta.positions, 1),
        ],
{
    reveal(n2_lead);
    let w = wait_if(c.profile);
    let q = qkv_ops(c);
    let r = rope_ops(c, meta.positions);
    let tail = seq![assemble_op(c)];
    lemma_no_rotations(w);
    lemma_no_rotations(q);
    lemma_no_rotations(tail);
    lemma_no_rotations(seq![r[0], r[1]]);
    lemma_no_rotations(seq![r[3], r[4]]);
    lemma_one_rotation(r[2]);
    assert(r =~= seq![r[0], r[1]] + seq![r[2]] + seq![r[3], r[4]]);
    lemma_rotations_add(seq![r[0], r[1]], seq![r[2]]);
    lemma_rotations_add(seq![r[0], r[1]] + seq![r[2]], seq![r[3], r[4]]);
    lemma_rotations_add(w, q);
    lemma_rotations_add(w + q, r);
    lemma_rotations_add(w + q + r, tail);
    let none = Seq::<Op>::empty();
    assert(none + seq![r[2]] + none =~= seq![r[2]]);
    assert(none + none + seq![r[2]] + none =~= seq![r[2]]);
}

proof fn lemma_back(c: MultiSeqCtx, cache: CacheId, meta: AttnMetadataDev, o_out: DevicePtr)
    ensures
        rotations(n2_rest(c, cache, meta, o_out)) == seq![
            rotate_op(
                c,
                true,
                c.fwd.buffers.ssm_conv_out_f32,
                c.fwd.buffers.ssm_conv_out_f32,
                meta.positions,
                0,
            ),
        ],
{
    reveal(n2_rest);
    let b = c.fwd.buffers;
    let w = wait_if(c.profile);
    let a = attend_ops(c, cache, meta);
    let o = output_ops(c, b.attn_output, o_out);
    let turn = rotate_op(c, true, b.ssm_conv_out_f32, b.ssm_conv_out_f32, meta.positions, 0);
    let k = 2 + w.len() as int;
    assert(a[k] == turn);
    lemma_no_rotations(w);
    lemma_no_rotations(a.take(k));
    lemma_no_rotations(a.skip(k + 1));
    lemma_one_rotation(turn);
    assert(a =~= a.take(k) + seq![turn] + a.skip(k + 1));
    lemma_rotations_add(a.take(k), seq![turn]);
    lemma_rotations_add(a.take(k) + seq![turn], a.skip(k + 1));
    lemma_groups_turn_nothing(c, c.o_groups() as int);
    lemma_no_rotations(o);
    lemma_rotations_add(w, a);
    lemma_rotations_add(w + a, o);
    lemma_rotations_add(w + a + o, w);
    let none = Seq::<Op>::empty();
    assert(none + seq![turn] + none =~= seq![turn]);
    assert(none + seq![turn] + none + none =~= seq![turn]);
}

proof fn lemma_one_rotation(op: Op)
    requires
        op is RopeYarn,
    ensures
        rotations(seq![op]) == seq![op],
{
    assert(seq![op].drop_last() =~= Seq::<Op>::empty());
    reveal_with_fuel(rotations, 2);
    assert(rotations(seq![op]) =~= seq![op]);
}

proof fn lemma_groups_turn_nothing(c: MultiSeqCtx, n: int)
    ensures
        forall|i: int|
            0 <= i < groups_ops(c, c.fwd.buffers.attn_output, n).len() ==> !(#[trigger] groups_ops(
                c,
                c.fwd.buffers.attn_output,
                n,
            )[i] is RopeYarn),
    decreases n,
{
    if n > 0 {
        lemma_groups_turn_nothing(c, n - 1);
    }
}

} // verus!
