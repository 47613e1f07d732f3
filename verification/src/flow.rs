//! What device memory holds, told by where it came from.
//!
//! The contracts of the layers say which operations run. This module says what
//! such a run comes to: a [`Val`] is the formula of a value, built from what
//! memory held at the start, and [`after`] is memory at the end of a list of
//! operations. A place inside a row stands for the row from there on.

use vstd::prelude::*;

use crate::config::ForwardContext;
use crate::gpu::{at, DenseWeight, DevicePtr, F32Bits, KernelHandle, QuantizedWeight};
use crate::op::{
    Boundary, CacheId, Call, ExpertWeights, FfnKind, MoeLayout, Observation, Op, PoolLayout, SharedWeight, TopkScore,
};
use crate::run::{dump_if, step, steps, wait_if};
use crate::trace::{Cmd, Event, Reply};

verus! {

/// The weights of one site of hyper-connections, with how they are used.
pub struct Mixing {
    pub hc_fn: DevicePtr,
    pub hc_scale: DevicePtr,
    pub hc_base: DevicePtr,
    pub hidden_size: u32,
    pub hc_mult: u32,
    pub sinkhorn_iters: u32,
    pub norm_eps: F32Bits,
    pub hc_eps: F32Bits,
}

/// Which lanes of a row rotation is about.
pub struct Lanes {
    pub heads: u32,
    pub hd: u32,
    pub nope: u32,
    pub rope: u32,
}

/// The formula of a value in device memory.
#[allow(inconsistent_fields)]
#[verifier::ext_equal]
pub enum Val {
    /// Nothing is said of the value.
    Unknown,
    /// A value from `from` bytes on.
    Part { of: Box<Val>, from: int },
    /// Bytes from the host.
    Data(Seq<u8>),
    Filled(u8),
    Norm { kernel: KernelHandle, weight: DenseWeight, cols: u32, eps: F32Bits, of: Box<Val> },
    Sum { kernel: KernelHandle, a: Box<Val>, b: Box<Val> },
    Scaled { scalar: F32Bits, of: Box<Val> },
    /// The sum over all ranks.
    Reduced { of: Box<Val> },
    Product { kernel: KernelHandle, weight: DenseWeight, n: u32, k: u32, of: Box<Val> },
    FourBitProduct { kernel: KernelHandle, weight: QuantizedWeight, n: u32, k: u32, of: Box<Val> },
    EightBitProduct { kernel: KernelHandle, weight: DevicePtr, row_scale: DevicePtr, n: u32, k: u32, of: Box<Val> },
    /// The row of `table` for a token.
    Embedded { kernel: KernelHandle, table: DevicePtr, h: u32, id: Box<Val> },
    /// Where the largest of `n` values is.
    Argmax { kernel: KernelHandle, n: u32, of: Box<Val> },
    /// A single rounded to BF16.
    Narrowed { kernel: KernelHandle, of: Box<Val> },
    /// The sum of the two branches of a draft for the row at `position`.
    SumAt { kernel: KernelHandle, position: int, a: Box<Val>, b: Box<Val> },
    /// A row as one of its streams.
    Stream { kernel: KernelHandle, of: Box<Val> },
    /// The streams of a token collapsed to one row.
    Collapsed { kernels: Seq<KernelHandle>, by: Mixing, of: Seq<Val> },
    /// How much of a block's output goes to each stream.
    Shares { kernels: Seq<KernelHandle>, by: Mixing, of: Seq<Val> },
    /// How the streams mix among themselves.
    Matrix { kernels: Seq<KernelHandle>, by: Mixing, of: Seq<Val> },
    /// Stream `stream` with the output of a block mixed in.
    Mixed { kernel: KernelHandle, stream: int, block: Box<Val>, streams: Seq<Val>, shares: Box<Val>, matrix: Box<Val> },
    /// The mean of the streams.
    Mean { kernel: KernelHandle, of: Seq<Val> },
    /// The rotary lanes of a row.
    Rotary { kernel: KernelHandle, lanes: Lanes, of: Box<Val> },
    /// Rotary lanes turned by their position.
    Turned { kernel: KernelHandle, position: Box<Val>, inv_freq: DevicePtr, mscale: F32Bits, heads: u32, head_dim: u32, rope: u32, of: Box<Val> },
    /// A row with its rotary lanes replaced.
    Replaced { kernel: KernelHandle, lanes: Lanes, row: Box<Val>, by: Box<Val> },
    /// A row of attention over the rows of a block and a window of earlier rows.
    Sparse { kernel: KernelHandle, q: Box<Val>, draft: Seq<Val>, main: Seq<Val>, valid: Box<Val>, sink: DevicePtr, scale: F32Bits, batch: u32, heads: u32, head_dim: u32, window: u32 },
    /// Latent and rotated key side by side.
    Assembled { kernel: KernelHandle, count: u32, kv_lora: u32, rope: u32, cache_dim: u32, latent: Box<Val>, key: Box<Val> },
    /// A row of attention over a paged cache.
    Attended { layer: usize, cache: CacheId, q: Box<Val>, table: Box<Val>, len: Box<Val>, max_blocks: u32, nq: u32, nkv: u32, hd: u32, block_size: u32, scale: F32Bits },
    /// A pool with rows put into their slots.
    Stored { kernel: KernelHandle, rows: Box<Val>, slot: Box<Val>, pool: Box<Val>, num_tokens: u32, num_kv_heads: u32, head_dim: u32, block_size: u32, stride: u32, layout: PoolLayout },
    /// Rows by a Walsh-Hadamard transform.
    Spread { kernel: KernelHandle, heads: u32, head_dim: u32, of: Box<Val> },
    /// The output of a feed-forward block.
    Fed { ffn: FfnKind, layer: usize, of: Box<Val> },
    /// The output of the attention block of a layer.
    AttentionOf { layer: usize, seq_len: usize, cache: CacheId, of: Box<Val> },
    /// Which experts a token goes to.
    Choice { kernel: KernelHandle, score: TopkScore, num_experts: u32, top_k: u32, norm_topk_prob: bool, of: Box<Val> },
    /// With which weight each of them counts.
    Gains { kernel: KernelHandle, score: TopkScore, num_experts: u32, top_k: u32, norm_topk_prob: bool, of: Box<Val> },
    /// A product with the chosen experts' weights.
    Expert { layout: MoeLayout, kernel: KernelHandle, weight: ExpertWeights, inter: u32, h: u32, top_k: u32, choice: Seq<Val>, of: Box<Val> },
    /// A product with the shared expert's weight.
    Shared { layout: MoeLayout, kernel: KernelHandle, weight: SharedWeight, inter: u32, h: u32, of: Box<Val> },
    /// What the chosen experts make of `silu(gate) * up`.
    ExpertDown { layout: MoeLayout, kernel: KernelHandle, weight: ExpertWeights, h: u32, inter: u32, top_k: u32, choice: Seq<Val>, gate: Box<Val>, up: Box<Val> },
    SharedDown { layout: MoeLayout, kernel: KernelHandle, weight: SharedWeight, h: u32, inter: u32, gate: Box<Val>, up: Box<Val> },
    /// `silu(gate) * up`.
    Gated { kernel: KernelHandle, gate: Box<Val>, up: Box<Val> },
    ExpertDownOf { kernel: KernelHandle, weight: ExpertWeights, h: u32, inter: u32, top_k: u32, choice: Seq<Val>, act: Box<Val> },
    SharedDownOf { kernel: KernelHandle, weight: SharedWeight, h: u32, inter: u32, act: Box<Val> },
    /// Expert outputs by their gains, and the shared expert by its gate.
    Blend { kernel: KernelHandle, h: u32, top_k: u32, k: u32, down: Box<Val>, gains: Seq<Val>, shared: Box<Val>, input: Box<Val>, gate_weight: DevicePtr },
    /// The shared expert joined, by its gate, to routed outputs.
    Joined { kernel: KernelHandle, h: u32, tokens: u32, routed: Box<Val>, shared: Box<Val>, input: Box<Val>, gate_weight: DevicePtr },
}

/// Device memory: what stands at each address.
pub type Mem = spec_fn(DevicePtr) -> Val;

/// Addresses are taken modulo this.
pub open spec fn span() -> int {
    0x1_0000_0000_0000_0000
}

/// How far past `base` the address `p` is.
#[verifier::opaque]
pub open spec fn off(p: DevicePtr, base: DevicePtr) -> int {
    (p.0 - base.0) % span()
}

/// `v` from `from` bytes on.
pub open spec fn part(v: Val, from: int) -> Val {
    if from == 0 {
        v
    } else {
        Val::Part { of: Box::new(v), from }
    }
}

/// Device memory at `p`, after the value `v` of `bytes` bytes was written to `out`.
pub open spec fn whole(m: Mem, p: DevicePtr, out: DevicePtr, bytes: int, v: Val) -> Val {
    if off(p, out) < bytes {
        part(v, off(p, out))
    } else {
        m(p)
    }
}

/// Device memory at `p`, after rows of `pitch` bytes were written to `out`: row
/// `off(p, out) / pitch` is `v`.
pub open spec fn rowed(m: Mem, p: DevicePtr, out: DevicePtr, rows: int, pitch: int, v: Val) -> Val {
    if off(p, out) < rows * pitch {
        part(v, off(p, out) % pitch)
    } else {
        m(p)
    }
}

/// Device memory at `p`, after `bytes` bytes were written to `out` place by
/// place.
pub open spec fn lanes(m: Mem, p: DevicePtr, out: DevicePtr, bytes: int, v: Val) -> Val {
    if off(p, out) < bytes {
        v
    } else {
        m(p)
    }
}

/// The streams of token `t`.
pub open spec fn streams_at(m: Mem, base: DevicePtr, t: int, hc: int, h: int) -> Seq<Val> {
    Seq::new(hc as nat, |i: int| m(at(base, (t * hc + i) * (h * 4))))
}

/// `n` rows of `pitch` bytes.
pub open spec fn rows_at(m: Mem, base: DevicePtr, n: int, pitch: int) -> Seq<Val> {
    Seq::new(n as nat, |i: int| m(at(base, i * pitch)))
}

pub open spec fn norm(kernel: KernelHandle, weight: DenseWeight, cols: u32, eps: F32Bits, of: Val) -> Val {
    Val::Norm { kernel, weight, cols, eps, of: Box::new(of) }
}

pub open spec fn product(kernel: KernelHandle, weight: DenseWeight, n: u32, k: u32, of: Val) -> Val {
    Val::Product { kernel, weight, n, k, of: Box::new(of) }
}

pub open spec fn sum(kernel: KernelHandle, a: Val, b: Val) -> Val {
    Val::Sum { kernel, a: Box::new(a), b: Box::new(b) }
}

/// What an operation leaves at address `p`, given memory `m` before it.
#[verifier::opaque]
pub open spec fn seen(m: Mem, op: Op, p: DevicePtr) -> Val {
    match op {
        Op::CopyD2d { src, dst, bytes } => lanes(m, p, dst, bytes as int, m(at(src, off(p, dst)))),
        Op::Memset { ptr, value, bytes } => lanes(m, p, ptr, bytes as int, Val::Filled(value)),
        Op::MemsetAsync { ptr, value, bytes } => lanes(m, p, ptr, bytes as int, Val::Filled(value)),
        Op::Free { .. } => m(p),
        Op::Synchronize => m(p),
        Op::Observe { .. } => m(p),
        Op::Dump { .. } => m(p),
        Op::Fp8Observe { .. } => m(p),
        Op::AllReduce { ptr, bytes } => lanes(m, p, ptr, bytes as int, Val::Reduced { of: Box::new(m(p)) }),
        Op::AllReduceAsync { ptr, bytes } => lanes(m, p, ptr, bytes as int, Val::Reduced { of: Box::new(m(p)) }),
        Op::RmsNorm { kernel, input, weight, output, rows, cols, eps } => lanes(
            m,
            p,
            output,
            rows * (cols * 2),
            norm(kernel, weight, cols, eps, m(at(input, off(p, output)))),
        ),
        Op::RmsNormResidual { kernel, hidden, weight, output, residual, rows, cols, eps } => {
            if off(p, output) < rows * (cols * 2) {
                norm(kernel, weight, cols, eps, m(at(hidden, off(p, output))))
            } else {
                lanes(m, p, residual, rows * (cols * 2), m(at(hidden, off(p, residual))))
            }
        },
        Op::ResidualAdd { kernel, dst, src, n } => lanes(
            m,
            p,
            dst,
            n * 2,
            sum(kernel, m(p), m(at(src, off(p, dst)))),
        ),
        Op::LayerScalar { hidden, n, scalar } => lanes(
            m,
            p,
            hidden,
            n * 2,
            Val::Scaled { scalar, of: Box::new(m(p)) },
        ),
        Op::ArgmaxBf16 { kernel, logits, out, n } => whole(
            m,
            p,
            out,
            4,
            Val::Argmax { kernel, n, of: Box::new(m(logits)) },
        ),
        Op::DenseGemv { kernel, input, weight, output, n, k } => whole(
            m,
            p,
            output,
            n * 2,
            product(kernel, weight, n, k, m(input)),
        ),
        Op::DenseGemm { kernel, input, weight, output, m: rows, n, k } => rowed(
            m,
            p,
            output,
            rows as int,
            n * 2,
            product(kernel, weight, n, k, m(at(input, off(p, output) / (n * 2) * (k * 2)))),
        ),
        Op::DenseGemmPipelined { kernel, input, weight, output, m: rows, n, k } => rowed(
            m,
            p,
            output,
            rows as int,
            n * 2,
            product(kernel, weight, n, k, m(at(input, off(p, output) / (n * 2) * (k * 2)))),
        ),
        Op::W4a16GemvBatch2 { kernel, input, weight, output, n, k } => rowed(
            m,
            p,
            output,
            2,
            n * 2,
            Val::FourBitProduct {
                kernel,
                weight,
                n,
                k,
                of: Box::new(m(at(input, off(p, output) / (n * 2) * (k * 2)))),
            },
        ),
        Op::W8a16GemvBatch2 { kernel, input, weight, row_scale, output, n, k } => rowed(
            m,
            p,
            output,
            2,
            n * 2,
            Val::EightBitProduct {
                kernel,
                weight,
                row_scale,
                n,
                k,
                of: Box::new(m(at(input, off(p, output) / (n * 2) * (k * 2)))),
            },
        ),
        Op::BatchedEmbed { kernel, ids, table, output, n, h } => rowed(
            m,
            p,
            output,
            n as int,
            h * 2,
            Val::Embedded { kernel, table, h, id: Box::new(m(at(ids, off(p, output) / (h * 2) * 4))) },
        ),
        Op::MtpHcF32ToBf16 { kernel, src, dst, n } => lanes(
            m,
            p,
            dst,
            n * 2,
            Val::Narrowed { kernel, of: Box::new(m(at(src, off(p, dst) * 2))) },
        ),
        Op::MtpHprojGemvBatch4 { kernel, normed, weight, e_branch, streams, hc_mult, n, k } => rowed(
            m,
            p,
            streams,
            hc_mult as int,
            n * 4,
            sum(
                kernel,
                product(kernel, weight, n, k, m(at(normed, off(p, streams) / (n * 4) * (k * 2)))),
                m(e_branch),
            ),
        ),
        Op::MtpHprojBroadcastAdd { kernel, h_branch, e_branch, streams, rows, hc_mult, h, position } => {
            let r = off(p, streams) / (h * 4);
            rowed(
                m,
                p,
                streams,
                rows * hc_mult,
                h * 4,
                Val::SumAt {
                    kernel,
                    position: position + r / (hc_mult as int),
                    a: Box::new(m(at(h_branch, r * (h * 2)))),
                    b: Box::new(m(at(e_branch, r / (hc_mult as int) * (h * 2)))),
                },
            )
        },
        Op::HcExpand { kernel, hidden, streams, num_tokens, hidden_size, hc_mult } => {
            let r = off(p, streams) / (hidden_size * 4);
            rowed(
                m,
                p,
                streams,
                num_tokens * hc_mult,
                hidden_size * 4,
                Val::Stream { kernel, of: Box::new(m(at(hidden, r / (hc_mult as int) * (hidden_size * 2)))) },
            )
        },
        Op::HcPre { kernel, streams, hc_fn, hc_scale, hc_base, y_out, post_out, comb_out, num_tokens, hidden_size, hc_mult, sinkhorn_iters, norm_eps, hc_eps } =>
            collapse_seen(
                m,
                p,
                seq![kernel],
                streams,
                (Mixing { hc_fn, hc_scale, hc_base, hidden_size, hc_mult, sinkhorn_iters, norm_eps, hc_eps }),
                y_out,
                post_out,
                comb_out,
                num_tokens,
            ),
        Op::HcPreParallel { mix, finalize, streams, hc_fn, hc_scale, hc_base, y_out, post_out, comb_out, num_tokens, hidden_size, hc_mult, sinkhorn_iters, norm_eps, hc_eps } =>
            collapse_seen(
                m,
                p,
                seq![mix, finalize],
                streams,
                (Mixing { hc_fn, hc_scale, hc_base, hidden_size, hc_mult, sinkhorn_iters, norm_eps, hc_eps }),
                y_out,
                post_out,
                comb_out,
                num_tokens,
            ),
        Op::HcPost { kernel, block_out, residual, post, comb, out, num_tokens, hidden_size, hc_mult } => {
            let r = off(p, out) / (hidden_size * 4);
            let t = r / (hc_mult as int);
            rowed(
                m,
                p,
                out,
                num_tokens * hc_mult,
                hidden_size * 4,
                Val::Mixed {
                    kernel,
                    stream: r % (hc_mult as int),
                    block: Box::new(m(at(block_out, t * (hidden_size * 2)))),
                    streams: streams_at(m, residual, t, hc_mult as int, hidden_size as int),
                    shares: Box::new(m(at(post, t * (hc_mult * 4)))),
                    matrix: Box::new(m(at(comb, t * (hc_mult * hc_mult * 4)))),
                },
            )
        },
        Op::HcHead { kernel, streams, head_fn, head_scale, head_base, y_out, num_tokens, hidden_size, hc_mult, norm_eps, hc_eps } => {
            let by = Mixing {
                hc_fn: head_fn,
                hc_scale: head_scale,
                hc_base: head_base,
                hidden_size,
                hc_mult,
                sinkhorn_iters: 0,
                norm_eps,
                hc_eps,
            };
            let t = off(p, y_out) / (hidden_size * 2);
            rowed(
                m,
                p,
                y_out,
                num_tokens as int,
                hidden_size * 2,
                Val::Collapsed {
                    kernels: seq![kernel],
                    by,
                    of: streams_at(m, streams, t, hc_mult as int, hidden_size as int),
                },
            )
        },
        Op::HcStreamMean { kernel, streams, out, num_tokens, hidden_size, hc_mult } => {
            let t = off(p, out) / (hidden_size * 2);
            rowed(
                m,
                p,
                out,
                num_tokens as int,
                hidden_size * 2,
                Val::Mean { kernel, of: streams_at(m, streams, t, hc_mult as int, hidden_size as int) },
            )
        },
        Op::RopeExtract { kernel, src, dst, count, heads, hd, nope, rope, stride } => rowed(
            m,
            p,
            dst,
            count as int,
            heads * rope * 2,
            Val::Rotary {
                kernel,
                lanes: (Lanes { heads, hd, nope, rope }),
                of: Box::new(m(at(src, off(p, dst) / (heads * rope * 2) * (stride * 2)))),
            },
        ),
        Op::RopeWriteback { kernel, src, dst, count, heads, hd, nope, rope, stride } => rowed(
            m,
            p,
            dst,
            count as int,
            stride * 2,
            Val::Replaced {
                kernel,
                lanes: (Lanes { heads, hd, nope, rope }),
                row: Box::new(m(at(dst, off(p, dst) / (stride * 2) * (stride * 2)))),
                by: Box::new(m(at(src, off(p, dst) / (stride * 2) * (heads * rope * 2)))),
            },
        ),
        Op::RopeYarn { kernel, q, k, positions, count, nq, nk, head_dim, rope, inv_freq, mscale } => {
            if off(p, q) < count * (nq * head_dim * 2) {
                rowed(
                    m,
                    p,
                    q,
                    count as int,
                    nq * head_dim * 2,
                    Val::Turned {
                        kernel,
                        position: Box::new(m(at(positions, off(p, q) / (nq * head_dim * 2) * 4))),
                        inv_freq,
                        mscale,
                        heads: nq,
                        head_dim,
                        rope,
                        of: Box::new(m(at(q, off(p, q) / (nq * head_dim * 2) * (nq * head_dim * 2)))),
                    },
                )
            } else {
                rowed(
                    m,
                    p,
                    k,
                    count as int,
                    nk * head_dim * 2,
                    Val::Turned {
                        kernel,
                        position: Box::new(m(at(positions, off(p, k) / (nk * head_dim * 2) * 4))),
                        inv_freq,
                        mscale,
                        heads: nk,
                        head_dim,
                        rope,
                        of: Box::new(m(at(k, off(p, k) / (nk * head_dim * 2) * (nk * head_dim * 2)))),
                    },
                )
            }
        },
        Op::DsparkSparseAttention { kernel, q, draft_kv, main_kv, valid_main_lengths, attn_sink, out, softmax_scale, batch_size, block_size, num_heads, head_dim, window_size } => {
            let t = off(p, out) / (num_heads * head_dim * 2);
            rowed(
                m,
                p,
                out,
                block_size as int,
                num_heads * head_dim * 2,
                Val::Sparse {
                    kernel,
                    q: Box::new(m(at(q, t * (num_heads * head_dim * 2)))),
                    draft: rows_at(m, draft_kv, block_size as int, head_dim * 2),
                    main: rows_at(m, main_kv, window_size as int, head_dim * 2),
                    valid: Box::new(m(valid_main_lengths)),
                    sink: attn_sink,
                    scale: softmax_scale,
                    batch: batch_size,
                    heads: num_heads,
                    head_dim,
                    window: window_size,
                },
            )
        },
        Op::CacheAssemble { kernel, v, k_rope, k_cache, v_cache, count, kv_lora, rope, cache_dim } => {
            if off(p, k_cache) < count * (cache_dim * 2) {
                whole(
                    m,
                    p,
                    k_cache,
                    count * (cache_dim * 2),
                    Val::Assembled { kernel, count, kv_lora, rope, cache_dim, latent: Box::new(m(v)), key: Box::new(m(k_rope)) },
                )
            } else {
                whole(
                    m,
                    p,
                    v_cache,
                    count * (cache_dim * 2),
                    Val::Assembled { kernel, count, kv_lora, rope, cache_dim, latent: Box::new(m(v)), key: Box::new(m(k_rope)) },
                )
            }
        },
        Op::PagedDecode { layer, cache, q, out, block_table, seq_len, max_blocks, count, nq, nkv, hd, block_size, scale, q_stride, workspace } => {
            let t = off(p, out) / (nq * hd * 2);
            if off(p, out) < count * (nq * hd * 2) {
                rowed(
                    m,
                    p,
                    out,
                    count as int,
                    nq * hd * 2,
                    Val::Attended {
                        layer,
                        cache,
                        q: Box::new(m(at(q, t * (q_stride * 2)))),
                        table: Box::new(m(at(block_table, t * (max_blocks * 4)))),
                        len: Box::new(m(at(seq_len, t * 4))),
                        max_blocks,
                        nq,
                        nkv,
                        hd,
                        block_size,
                        scale,
                    },
                )
            } else if off(p, workspace) == 0 {
                Val::Unknown
            } else {
                m(p)
            }
        },
        Op::Wht { kernel, data, heads, head_dim } => whole(
            m,
            p,
            data,
            heads * head_dim * 2,
            Val::Spread { kernel, heads, head_dim, of: Box::new(m(data)) },
        ),
        Op::ReshapeAndCache { kernel, k, v, k_pool, v_pool, slot, num_tokens, num_kv_heads, head_dim, block_size, key_stride, value_stride, layout } => {
            if p == k_pool {
                Val::Stored {
                    kernel,
                    rows: Box::new(m(k)),
                    slot: Box::new(m(slot)),
                    pool: Box::new(m(p)),
                    num_tokens,
                    num_kv_heads,
                    head_dim,
                    block_size,
                    stride: key_stride,
                    layout,
                }
            } else if p == v_pool {
                Val::Stored {
                    kernel,
                    rows: Box::new(m(v)),
                    slot: Box::new(m(slot)),
                    pool: Box::new(m(p)),
                    num_tokens,
                    num_kv_heads,
                    head_dim,
                    block_size,
                    stride: value_stride,
                    layout,
                }
            } else {
                m(p)
            }
        },
        Op::MoeTopk { kernel, score, logits, indices, weights, num_experts, top_k, norm_topk_prob, tokens } => {
            if off(p, indices) < tokens * (top_k * 4) {
                rowed(
                    m,
                    p,
                    indices,
                    tokens as int,
                    top_k * 4,
                    Val::Choice {
                        kernel,
                        score,
                        num_experts,
                        top_k,
                        norm_topk_prob,
                        of: Box::new(m(at(logits, off(p, indices) / (top_k * 4) * (num_experts * 2)))),
                    },
                )
            } else {
                rowed(
                    m,
                    p,
                    weights,
                    tokens as int,
                    top_k * 4,
                    Val::Gains {
                        kernel,
                        score,
                        num_experts,
                        top_k,
                        norm_topk_prob,
                        of: Box::new(m(at(logits, off(p, weights) / (top_k * 4) * (num_experts * 2)))),
                    },
                )
            }
        },
        Op::MoeGateUp { layout, kernel, input, gate, gate_out, up, up_out, indices, sh_gate, sh_gate_out, sh_up, sh_up_out, inter, h, top_k } => {
            if p == gate_out {
                Val::Expert {
                    layout,
                    kernel,
                    weight: gate,
                    inter,
                    h,
                    top_k,
                    choice: rows_at(m, indices, 2, top_k * 4),
                    of: Box::new(m(input)),
                }
            } else if p == up_out {
                Val::Expert {
                    layout,
                    kernel,
                    weight: up,
                    inter,
                    h,
                    top_k,
                    choice: rows_at(m, indices, 2, top_k * 4),
                    of: Box::new(m(input)),
                }
            } else if p == sh_gate_out {
                Val::Shared { layout, kernel, weight: sh_gate, inter, h, of: Box::new(m(input)) }
            } else if p == sh_up_out {
                Val::Shared { layout, kernel, weight: sh_up, inter, h, of: Box::new(m(input)) }
            } else {
                m(p)
            }
        },
        Op::MoeSiluDown { layout, kernel, gate, up, down, down_out, indices, sh_gate, sh_up, sh_down, sh_down_out, h, inter, top_k } => {
            if p == down_out {
                Val::ExpertDown {
                    layout,
                    kernel,
                    weight: down,
                    h,
                    inter,
                    top_k,
                    choice: rows_at(m, indices, 2, top_k * 4),
                    gate: Box::new(m(gate)),
                    up: Box::new(m(up)),
                }
            } else if p == sh_down_out {
                Val::SharedDown {
                    layout,
                    kernel,
                    weight: sh_down,
                    h,
                    inter,
                    gate: Box::new(m(sh_gate)),
                    up: Box::new(m(sh_up)),
                }
            } else {
                m(p)
            }
        },
        Op::MoeSiluMul { kernel, gate, up, out, n } => if p == out {
            Val::Gated { kernel, gate: Box::new(m(gate)), up: Box::new(m(up)) }
        } else {
            m(p)
        },
        Op::MoeDownPrecomputed { kernel, act, down, down_out, indices, sh_act, sh_down, sh_down_out, h, inter, top_k } => {
            if p == down_out {
                Val::ExpertDownOf {
                    kernel,
                    weight: down,
                    h,
                    inter,
                    top_k,
                    choice: rows_at(m, indices, 2, top_k * 4),
                    act: Box::new(m(act)),
                }
            } else if p == sh_down_out {
                Val::SharedDownOf { kernel, weight: sh_down, h, inter, act: Box::new(m(sh_act)) }
            } else {
                m(p)
            }
        },
        Op::MoeBlend2 { kernel, output, down, weights, shared, input, gate_weight, h, top_k, k } => if p == output {
            Val::Blend {
                kernel,
                h,
                top_k,
                k,
                down: Box::new(m(down)),
                gains: rows_at(m, weights, 2, top_k * 4),
                shared: Box::new(m(shared)),
                input: Box::new(m(input)),
                gate_weight,
            }
        } else {
            m(p)
        },
        Op::MoeBatchedBlend { kernel, output, shared, input, gate_weight, h, tokens } => if p == output {
            Val::Joined {
                kernel,
                h,
                tokens,
                routed: Box::new(m(output)),
                shared: Box::new(m(shared)),
                input: Box::new(m(input)),
                gate_weight,
            }
        } else {
            m(p)
        },
        Op::FfnForwardPrefill { ffn, layer, input, tokens, ctx } => rowed(
            m,
            p,
            ctx.buffers.moe_output,
            tokens as int,
            ctx.config.hidden_size * 2,
            Val::Fed {
                ffn,
                layer,
                of: Box::new(
                    m(
                        at(
                            input,
                            off(p, ctx.buffers.moe_output) / (ctx.config.hidden_size * 2) * (ctx.config.hidden_size * 2),
                        ),
                    ),
                ),
            },
        ),
        Op::ResidualAddRmsNorm { kernel, hidden, add, weight, output, residual, rows, cols, eps } => add_norm_seen(
            m,
            p,
            kernel,
            hidden,
            add,
            weight,
            output,
            residual,
            rows,
            cols,
            eps,
        ),
        Op::ResidualAddRmsNormGateF32 { kernel, hidden, add, weight, output, router_out, residual, rows, cols, eps } => {
            if off(p, router_out) < rows * (cols * 4) {
                Val::Unknown
            } else {
                add_norm_seen(m, p, kernel, hidden, add, weight, output, residual, rows, cols, eps)
            }
        },
        _ => Val::Unknown,
    }
}

/// A row added to the hidden row, with the sum kept as residual and normed.
pub open spec fn add_norm_seen(
    m: Mem,
    p: DevicePtr,
    kernel: KernelHandle,
    hidden: DevicePtr,
    add: DevicePtr,
    weight: DenseWeight,
    output: DevicePtr,
    residual: DevicePtr,
    rows: u32,
    cols: u32,
    eps: F32Bits,
) -> Val {
    let bytes = rows * (cols * 2);
    if off(p, output) < bytes {
        let o = off(p, output);
        norm(kernel, weight, cols, eps, sum(kernel, m(at(hidden, o)), m(at(add, o))))
    } else if off(p, hidden) < bytes {
        sum(kernel, m(p), m(at(add, off(p, hidden))))
    } else if off(p, residual) < bytes {
        let o = off(p, residual);
        sum(kernel, m(at(hidden, o)), m(at(add, o)))
    } else {
        m(p)
    }
}

/// The three outputs of a collapse.
pub open spec fn collapse_seen(
    m: Mem,
    p: DevicePtr,
    kernels: Seq<KernelHandle>,
    streams: DevicePtr,
    by: Mixing,
    y_out: DevicePtr,
    post_out: DevicePtr,
    comb_out: DevicePtr,
    tokens: u32,
) -> Val {
    let hc = by.hc_mult as int;
    let h = by.hidden_size as int;
    if off(p, y_out) < tokens * (h * 2) {
        rowed(
            m,
            p,
            y_out,
            tokens as int,
            h * 2,
            Val::Collapsed { kernels, by, of: streams_at(m, streams, off(p, y_out) / (h * 2), hc, h) },
        )
    } else if off(p, post_out) < tokens * (hc * 4) {
        rowed(
            m,
            p,
            post_out,
            tokens as int,
            hc * 4,
            Val::Shares { kernels, by, of: streams_at(m, streams, off(p, post_out) / (hc * 4), hc, h) },
        )
    } else {
        rowed(
            m,
            p,
            comb_out,
            tokens as int,
            hc * hc * 4,
            Val::Matrix { kernels, by, of: streams_at(m, streams, off(p, comb_out) / (hc * hc * 4), hc, h) },
        )
    }
}

// ── the operations one by one ──
pub broadcast proof fn seen_copy_d2d(m: Mem, src: DevicePtr, dst: DevicePtr, bytes: usize, p: DevicePtr)
    ensures
        #[trigger] seen(m, (Op::CopyD2d { src, dst, bytes }), p) == lanes(m, p, dst, bytes as int, m(at(src, off(p, dst)))),
{
    reveal(seen);
}

pub broadcast proof fn seen_memset(m: Mem, ptr: DevicePtr, value: u8, bytes: usize, p: DevicePtr)
    ensures
        #[trigger] seen(m, (Op::Memset { ptr, value, bytes }), p) == lanes(m, p, ptr, bytes as int, Val::Filled(value)),
{
    reveal(seen);
}

pub broadcast proof fn seen_memset_async(m: Mem, ptr: DevicePtr, value: u8, bytes: usize, p: DevicePtr)
    ensures
        #[trigger] seen(m, (Op::MemsetAsync { ptr, value, bytes }), p) == lanes(m, p, ptr, bytes as int, Val::Filled(value)),
{
    reveal(seen);
}

pub broadcast proof fn seen_free(m: Mem, ptr: DevicePtr, p: DevicePtr)
    ensures
        #[trigger] seen(m, (Op::Free { ptr }), p) == m(p),
{
    reveal(seen);
}

pub broadcast proof fn seen_synchronize(m: Mem, p: DevicePtr)
    ensures
        #[trigger] seen(m, (Op::Synchronize), p) == m(p),
{
    reveal(seen);
}

pub broadcast proof fn seen_observe(m: Mem, what: Observation, p: DevicePtr)
    ensures
        #[trigger] seen(m, (Op::Observe { what }), p) == m(p),
{
    reveal(seen);
}

pub broadcast proof fn seen_dump(m: Mem, boundary: Boundary, call: usize, src: DevicePtr, rows: u32, cols: u32, fp32: bool, p: DevicePtr)
    ensures
        #[trigger] seen(m, (Op::Dump { at: boundary, call, src, rows, cols, fp32 }), p) == m(p),
{
    reveal(seen);
}

pub broadcast proof fn seen_fp8_observe(m: Mem, layer: usize, k: DevicePtr, v: DevicePtr, num_tokens: u32, num_kv_heads: u32, head_dim: u32, p: DevicePtr)
    ensures
        #[trigger] seen(m, (Op::Fp8Observe { layer, k, v, num_tokens, num_kv_heads, head_dim }), p) == m(p),
{
    reveal(seen);
}

pub broadcast proof fn seen_all_reduce(m: Mem, ptr: DevicePtr, bytes: usize, p: DevicePtr)
    ensures
        #[trigger] seen(m, (Op::AllReduce { ptr, bytes }), p) == lanes(m, p, ptr, bytes as int, Val::Reduced { of: Box::new(m(p)) }),
{
    reveal(seen);
}

pub broadcast proof fn seen_all_reduce_async(m: Mem, ptr: DevicePtr, bytes: usize, p: DevicePtr)
    ensures
        #[trigger] seen(m, (Op::AllReduceAsync { ptr, bytes }), p) == lanes(m, p, ptr, bytes as int, Val::Reduced { of: Box::new(m(p)) }),
{
    reveal(seen);
}

pub broadcast proof fn seen_rms_norm(m: Mem, kernel: KernelHandle, input: DevicePtr, weight: DenseWeight, output: DevicePtr, rows: u32, cols: u32, eps: F32Bits, p: DevicePtr)
    ensures
        #[trigger] seen(m, (Op::RmsNorm { kernel, input, weight, output, rows, cols, eps }), p) == lanes(
            m,
            p,
            output,
            rows * (cols * 2),
            norm(kernel, weight, cols, eps, m(at(input, off(p, output)))),
        ),
{
    reveal(seen);
}

pub broadcast proof fn seen_rms_norm_residual(m: Mem, kernel: KernelHandle, hidden: DevicePtr, weight: DenseWeight, output: DevicePtr, residual: DevicePtr, rows: u32, cols: u32, eps: F32Bits, p: DevicePtr)
    ensures
        #[trigger] seen(m, (Op::RmsNormResidual { kernel, hidden, weight, output, residual, rows, cols, eps }), p) == ({
            if off(p, output) < rows * (cols * 2) {
                norm(kernel, weight, cols, eps, m(at(hidden, off(p, output))))
            } else {
                lanes(m, p, residual, rows * (cols * 2), m(at(hidden, off(p, residual))))
            }
        }),
{
    reveal(seen);
}

pub broadcast proof fn seen_residual_add(m: Mem, kernel: KernelHandle, dst: DevicePtr, src: DevicePtr, n: u32, p: DevicePtr)
    ensures
        #[trigger] seen(m, (Op::ResidualAdd { kernel, dst, src, n }), p) == lanes(
            m,
            p,
            dst,
            n * 2,
            sum(kernel, m(p), m(at(src, off(p, dst)))),
        ),
{
    reveal(seen);
}

pub broadcast proof fn seen_layer_scalar(m: Mem, hidden: DevicePtr, n: usize, scalar: F32Bits, p: DevicePtr)
    ensures
        #[trigger] seen(m, (Op::LayerScalar { hidden, n, scalar }), p) == lanes(
            m,
            p,
            hidden,
            n * 2,
            Val::Scaled { scalar, of: Box::new(m(p)) },
        ),
{
    reveal(seen);
}

pub broadcast proof fn seen_argmax_bf16(m: Mem, kernel: KernelHandle, logits: DevicePtr, out: DevicePtr, n: u32, p: DevicePtr)
    ensures
        #[trigger] seen(m, (Op::ArgmaxBf16 { kernel, logits, out, n }), p) == whole(
            m,
            p,
            out,
            4,
            Val::Argmax { kernel, n, of: Box::new(m(logits)) },
        ),
{
    reveal(seen);
}

pub broadcast proof fn seen_dense_gemv(m: Mem, kernel: KernelHandle, input: DevicePtr, weight: DenseWeight, output: DevicePtr, n: u32, k: u32, p: DevicePtr)
    ensures
        #[trigger] seen(m, (Op::DenseGemv { kernel, input, weight, output, n, k }), p) == whole(
            m,
            p,
            output,
            n * 2,
            product(kernel, weight, n, k, m(input)),
        ),
{
    reveal(seen);
}

pub broadcast proof fn seen_dense_gemm(m: Mem, kernel: KernelHandle, input: DevicePtr, weight: DenseWeight, output: DevicePtr, rows: u32, n: u32, k: u32, p: DevicePtr)
    ensures
        #[trigger] seen(m, (Op::DenseGemm { kernel, input, weight, output, m: rows, n, k }), p) == rowed(
            m,
            p,
            output,
            rows as int,
            n * 2,
            product(kernel, weight, n, k, m(at(input, off(p, output) / (n * 2) * (k * 2)))),
        ),
{
    reveal(seen);
}

pub broadcast proof fn seen_dense_gemm_pipelined(m: Mem, kernel: KernelHandle, input: DevicePtr, weight: DenseWeight, output: DevicePtr, rows: u32, n: u32, k: u32, p: DevicePtr)
    ensures
        #[trigger] seen(m, (Op::DenseGemmPipelined { kernel, input, weight, output, m: rows, n, k }), p) == rowed(
            m,
            p,
            output,
            rows as int,
            n * 2,
            product(kernel, weight, n, k, m(at(input, off(p, output) / (n * 2) * (k * 2)))),
        ),
{
    reveal(seen);
}

pub broadcast proof fn seen_w4a16_gemv_batch2(m: Mem, kernel: KernelHandle, input: DevicePtr, weight: QuantizedWeight, output: DevicePtr, n: u32, k: u32, p: DevicePtr)
    ensures
        #[trigger] seen(m, (Op::W4a16GemvBatch2 { kernel, input, weight, output, n, k }), p) == rowed(
            m,
            p,
            output,
            2,
            n * 2,
            Val::FourBitProduct {
                kernel,
                weight,
                n,
                k,
                of: Box::new(m(at(input, off(p, output) / (n * 2) * (k * 2)))),
            },
        ),
{
    reveal(seen);
}

pub broadcast proof fn seen_w8a16_gemv_batch2(m: Mem, kernel: KernelHandle, input: DevicePtr, weight: DevicePtr, row_scale: DevicePtr, output: DevicePtr, n: u32, k: u32, p: DevicePtr)
    ensures
        #[trigger] seen(m, (Op::W8a16GemvBatch2 { kernel, input, weight, row_scale, output, n, k }), p) == rowed(
            m,
            p,
            output,
            2,
            n * 2,
            Val::EightBitProduct {
                kernel,
                weight,
                row_scale,
                n,
                k,
                of: Box::new(m(at(input, off(p, output) / (n * 2) * (k * 2)))),
            },
        ),
{
    reveal(seen);
}

pub broadcast proof fn seen_batched_embed(m: Mem, kernel: KernelHandle, ids: DevicePtr, table: DevicePtr, output: DevicePtr, n: u32, h: u32, p: DevicePtr)
    ensures
        #[trigger] seen(m, (Op::BatchedEmbed { kernel, ids, table, output, n, h }), p) == rowed(
            m,
            p,
            output,
            n as int,
            h * 2,
            Val::Embedded { kernel, table, h, id: Box::new(m(at(ids, off(p, output) / (h * 2) * 4))) },
        ),
{
    reveal(seen);
}

pub broadcast proof fn seen_mtp_hc_f32_to_bf16(m: Mem, kernel: KernelHandle, src: DevicePtr, dst: DevicePtr, n: u32, p: DevicePtr)
    ensures
        #[trigger] seen(m, (Op::MtpHcF32ToBf16 { kernel, src, dst, n }), p) == lanes(
            m,
            p,
            dst,
            n * 2,
            Val::Narrowed { kernel, of: Box::new(m(at(src, off(p, dst) * 2))) },
        ),
{
    reveal(seen);
}

pub broadcast proof fn seen_mtp_hproj_gemv_batch4(m: Mem, kernel: KernelHandle, normed: DevicePtr, weight: DenseWeight, e_branch: DevicePtr, streams: DevicePtr, hc_mult: u32, n: u32, k: u32, p: DevicePtr)
    ensures
        #[trigger] seen(m, (Op::MtpHprojGemvBatch4 { kernel, normed, weight, e_branch, streams, hc_mult, n, k }), p) == rowed(
            m,
            p,
            streams,
            hc_mult as int,
            n * 4,
            sum(
                kernel,
                product(kernel, weight, n, k, m(at(normed, off(p, streams) / (n * 4) * (k * 2)))),
                m(e_branch),
            ),
        ),
{
    reveal(seen);
}

pub broadcast proof fn seen_mtp_hproj_broadcast_add(m: Mem, kernel: KernelHandle, h_branch: DevicePtr, e_branch: DevicePtr, streams: DevicePtr, rows: u32, hc_mult: u32, h: u32, position: u32, p: DevicePtr)
    ensures
        #[trigger] seen(m, (Op::MtpHprojBroadcastAdd { kernel, h_branch, e_branch, streams, rows, hc_mult, h, position }), p) == ({
            let r = off(p, streams) / (h * 4);
            rowed(
                m,
                p,
                streams,
                rows * hc_mult,
                h * 4,
                Val::SumAt {
                    kernel,
                    position: position + r / (hc_mult as int),
                    a: Box::new(m(at(h_branch, r * (h * 2)))),
                    b: Box::new(m(at(e_branch, r / (hc_mult as int) * (h * 2)))),
                },
            )
        }),
{
    reveal(seen);
}

pub broadcast proof fn seen_hc_expand(m: Mem, kernel: KernelHandle, hidden: DevicePtr, streams: DevicePtr, num_tokens: u32, hidden_size: u32, hc_mult: u32, p: DevicePtr)
    ensures
        #[trigger] seen(m, (Op::HcExpand { kernel, hidden, streams, num_tokens, hidden_size, hc_mult }), p) == ({
            let r = off(p, streams) / (hidden_size * 4);
            rowed(
                m,
                p,
                streams,
                num_tokens * hc_mult,
                hidden_size * 4,
                Val::Stream { kernel, of: Box::new(m(at(hidden, r / (hc_mult as int) * (hidden_size * 2)))) },
            )
        }),
{
    reveal(seen);
}

pub broadcast proof fn seen_hc_pre(m: Mem, kernel: KernelHandle, streams: DevicePtr, hc_fn: DevicePtr, hc_scale: DevicePtr, hc_base: DevicePtr, y_out: DevicePtr, post_out: DevicePtr, comb_out: DevicePtr, num_tokens: u32, hidden_size: u32, hc_mult: u32, sinkhorn_iters: u32, norm_eps: F32Bits, hc_eps: F32Bits, p: DevicePtr)
    ensures
        #[trigger] seen(m, (Op::HcPre { kernel, streams, hc_fn, hc_scale, hc_base, y_out, post_out, comb_out, num_tokens, hidden_size, hc_mult, sinkhorn_iters, norm_eps, hc_eps }), p) == collapse_seen(
                m,
                p,
                seq![kernel],
                streams,
                (Mixing { hc_fn, hc_scale, hc_base, hidden_size, hc_mult, sinkhorn_iters, norm_eps, hc_eps }),
                y_out,
                post_out,
                comb_out,
                num_tokens,
            ),
{
    reveal(seen);
}

pub broadcast proof fn seen_hc_pre_parallel(m: Mem, mix: KernelHandle, finalize: KernelHandle, streams: DevicePtr, hc_fn: DevicePtr, hc_scale: DevicePtr, hc_base: DevicePtr, y_out: DevicePtr, post_out: DevicePtr, comb_out: DevicePtr, num_tokens: u32, hidden_size: u32, hc_mult: u32, sinkhorn_iters: u32, norm_eps: F32Bits, hc_eps: F32Bits, p: DevicePtr)
    ensures
        #[trigger] seen(m, (Op::HcPreParallel { mix, finalize, streams, hc_fn, hc_scale, hc_base, y_out, post_out, comb_out, num_tokens, hidden_size, hc_mult, sinkhorn_iters, norm_eps, hc_eps }), p) == collapse_seen(
                m,
                p,
                seq![mix, finalize],
                streams,
                (Mixing { hc_fn, hc_scale, hc_base, hidden_size, hc_mult, sinkhorn_iters, norm_eps, hc_eps }),
                y_out,
                post_out,
                comb_out,
                num_tokens,
            ),
{
    reveal(seen);
}

pub broadcast proof fn seen_hc_post(m: Mem, kernel: KernelHandle, block_out: DevicePtr, residual: DevicePtr, post: DevicePtr, comb: DevicePtr, out: DevicePtr, num_tokens: u32, hidden_size: u32, hc_mult: u32, p: DevicePtr)
    ensures
        #[trigger] seen(m, (Op::HcPost { kernel, block_out, residual, post, comb, out, num_tokens, hidden_size, hc_mult }), p) == ({
            let r = off(p, out) / (hidden_size * 4);
            let t = r / (hc_mult as int);
            rowed(
                m,
                p,
                out,
                num_tokens * hc_mult,
                hidden_size * 4,
                Val::Mixed {
                    kernel,
                    stream: r % (hc_mult as int),
                    block: Box::new(m(at(block_out, t * (hidden_size * 2)))),
                    streams: streams_at(m, residual, t, hc_mult as int, hidden_size as int),
                    shares: Box::new(m(at(post, t * (hc_mult * 4)))),
                    matrix: Box::new(m(at(comb, t * (hc_mult * hc_mult * 4)))),
                },
            )
        }),
{
    reveal(seen);
}

pub broadcast proof fn seen_hc_head(m: Mem, kernel: KernelHandle, streams: DevicePtr, head_fn: DevicePtr, head_scale: DevicePtr, head_base: DevicePtr, y_out: DevicePtr, num_tokens: u32, hidden_size: u32, hc_mult: u32, norm_eps: F32Bits, hc_eps: F32Bits, p: DevicePtr)
    ensures
        #[trigger] seen(m, (Op::HcHead { kernel, streams, head_fn, head_scale, head_base, y_out, num_tokens, hidden_size, hc_mult, norm_eps, hc_eps }), p) == ({
            let by = Mixing {
                hc_fn: head_fn,
                hc_scale: head_scale,
                hc_base: head_base,
                hidden_size,
                hc_mult,
                sinkhorn_iters: 0,
                norm_eps,
                hc_eps,
            };
            let t = off(p, y_out) / (hidden_size * 2);
            rowed(
                m,
                p,
                y_out,
                num_tokens as int,
                hidden_size * 2,
                Val::Collapsed {
                    kernels: seq![kernel],
                    by,
                    of: streams_at(m, streams, t, hc_mult as int, hidden_size as int),
                },
            )
        }),
{
    reveal(seen);
}

pub broadcast proof fn seen_hc_stream_mean(m: Mem, kernel: KernelHandle, streams: DevicePtr, out: DevicePtr, num_tokens: u32, hidden_size: u32, hc_mult: u32, p: DevicePtr)
    ensures
        #[trigger] seen(m, (Op::HcStreamMean { kernel, streams, out, num_tokens, hidden_size, hc_mult }), p) == ({
            let t = off(p, out) / (hidden_size * 2);
            rowed(
                m,
                p,
                out,
                num_tokens as int,
                hidden_size * 2,
                Val::Mean { kernel, of: streams_at(m, streams, t, hc_mult as int, hidden_size as int) },
            )
        }),
{
    reveal(seen);
}

pub broadcast proof fn seen_rope_extract(m: Mem, kernel: KernelHandle, src: DevicePtr, dst: DevicePtr, count: u32, heads: u32, hd: u32, nope: u32, rope: u32, stride: u32, p: DevicePtr)
    ensures
        #[trigger] seen(m, (Op::RopeExtract { kernel, src, dst, count, heads, hd, nope, rope, stride }), p) == rowed(
            m,
            p,
            dst,
            count as int,
            heads * rope * 2,
            Val::Rotary {
                kernel,
                lanes: (Lanes { heads, hd, nope, rope }),
                of: Box::new(m(at(src, off(p, dst) / (heads * rope * 2) * (stride * 2)))),
            },
        ),
{
    reveal(seen);
}

pub broadcast proof fn seen_rope_writeback(m: Mem, kernel: KernelHandle, src: DevicePtr, dst: DevicePtr, count: u32, heads: u32, hd: u32, nope: u32, rope: u32, stride: u32, p: DevicePtr)
    ensures
        #[trigger] seen(m, (Op::RopeWriteback { kernel, src, dst, count, heads, hd, nope, rope, stride }), p) == rowed(
            m,
            p,
            dst,
            count as int,
            stride * 2,
            Val::Replaced {
                kernel,
                lanes: (Lanes { heads, hd, nope, rope }),
                row: Box::new(m(at(dst, off(p, dst) / (stride * 2) * (stride * 2)))),
                by: Box::new(m(at(src, off(p, dst) / (stride * 2) * (heads * rope * 2)))),
            },
        ),
{
    reveal(seen);
}

pub broadcast proof fn seen_rope_yarn(m: Mem, kernel: KernelHandle, q: DevicePtr, k: DevicePtr, positions: DevicePtr, count: u32, nq: u32, nk: u32, head_dim: u32, rope: u32, inv_freq: DevicePtr, mscale: F32Bits, p: DevicePtr)
    ensures
        #[trigger] seen(m, (Op::RopeYarn { kernel, q, k, positions, count, nq, nk, head_dim, rope, inv_freq, mscale }), p) == ({
            if off(p, q) < count * (nq * head_dim * 2) {
                rowed(
                    m,
                    p,
                    q,
                    count as int,
                    nq * head_dim * 2,
                    Val::Turned {
                        kernel,
                        position: Box::new(m(at(positions, off(p, q) / (nq * head_dim * 2) * 4))),
                        inv_freq,
                        mscale,
                        heads: nq,
                        head_dim,
                        rope,
                        of: Box::new(m(at(q, off(p, q) / (nq * head_dim * 2) * (nq * head_dim * 2)))),
                    },
                )
            } else {
                rowed(
                    m,
                    p,
                    k,
                    count as int,
                    nk * head_dim * 2,
                    Val::Turned {
                        kernel,
                        position: Box::new(m(at(positions, off(p, k) / (nk * head_dim * 2) * 4))),
                        inv_freq,
                        mscale,
                        heads: nk,
                        head_dim,
                        rope,
                        of: Box::new(m(at(k, off(p, k) / (nk * head_dim * 2) * (nk * head_dim * 2)))),
                    },
                )
            }
        }),
{
    reveal(seen);
}

pub broadcast proof fn seen_dspark_sparse_attention(m: Mem, kernel: KernelHandle, q: DevicePtr, draft_kv: DevicePtr, main_kv: DevicePtr, valid_main_lengths: DevicePtr, attn_sink: DevicePtr, out: DevicePtr, softmax_scale: F32Bits, batch_size: u32, block_size: u32, num_heads: u32, head_dim: u32, window_size: u32, p: DevicePtr)
    ensures
        #[trigger] seen(m, (Op::DsparkSparseAttention { kernel, q, draft_kv, main_kv, valid_main_lengths, attn_sink, out, softmax_scale, batch_size, block_size, num_heads, head_dim, window_size }), p) == ({
            let t = off(p, out) / (num_heads * head_dim * 2);
            rowed(
                m,
                p,
                out,
                block_size as int,
                num_heads * head_dim * 2,
                Val::Sparse {
                    kernel,
                    q: Box::new(m(at(q, t * (num_heads * head_dim * 2)))),
                    draft: rows_at(m, draft_kv, block_size as int, head_dim * 2),
                    main: rows_at(m, main_kv, window_size as int, head_dim * 2),
                    valid: Box::new(m(valid_main_lengths)),
                    sink: attn_sink,
                    scale: softmax_scale,
                    batch: batch_size,
                    heads: num_heads,
                    head_dim,
                    window: window_size,
                },
            )
        }),
{
    reveal(seen);
}

pub broadcast proof fn seen_cache_assemble(m: Mem, kernel: KernelHandle, v: DevicePtr, k_rope: DevicePtr, k_cache: DevicePtr, v_cache: DevicePtr, count: u32, kv_lora: u32, rope: u32, cache_dim: u32, p: DevicePtr)
    ensures
        #[trigger] seen(m, (Op::CacheAssemble { kernel, v, k_rope, k_cache, v_cache, count, kv_lora, rope, cache_dim }), p) == ({
            if off(p, k_cache) < count * (cache_dim * 2) {
                whole(
                    m,
                    p,
                    k_cache,
                    count * (cache_dim * 2),
                    Val::Assembled { kernel, count, kv_lora, rope, cache_dim, latent: Box::new(m(v)), key: Box::new(m(k_rope)) },
                )
            } else {
                whole(
                    m,
                    p,
                    v_cache,
                    count * (cache_dim * 2),
                    Val::Assembled { kernel, count, kv_lora, rope, cache_dim, latent: Box::new(m(v)), key: Box::new(m(k_rope)) },
                )
            }
        }),
{
    reveal(seen);
}

pub broadcast proof fn seen_paged_decode(m: Mem, layer: usize, cache: CacheId, q: DevicePtr, out: DevicePtr, block_table: DevicePtr, seq_len: DevicePtr, max_blocks: u32, count: u32, nq: u32, nkv: u32, hd: u32, block_size: u32, scale: F32Bits, q_stride: u32, workspace: DevicePtr, p: DevicePtr)
    ensures
        #[trigger] seen(m, (Op::PagedDecode { layer, cache, q, out, block_table, seq_len, max_blocks, count, nq, nkv, hd, block_size, scale, q_stride, workspace }), p) == ({
            let t = off(p, out) / (nq * hd * 2);
            if off(p, out) < count * (nq * hd * 2) {
                rowed(
                    m,
                    p,
                    out,
                    count as int,
                    nq * hd * 2,
                    Val::Attended {
                        layer,
                        cache,
                        q: Box::new(m(at(q, t * (q_stride * 2)))),
                        table: Box::new(m(at(block_table, t * (max_blocks * 4)))),
                        len: Box::new(m(at(seq_len, t * 4))),
                        max_blocks,
                        nq,
                        nkv,
                        hd,
                        block_size,
                        scale,
                    },
                )
            } else if off(p, workspace) == 0 {
                Val::Unknown
            } else {
                m(p)
            }
        }),
{
    reveal(seen);
}

pub broadcast proof fn seen_reshape_and_cache(m: Mem, kernel: KernelHandle, k: DevicePtr, v: DevicePtr, k_pool: DevicePtr, v_pool: DevicePtr, slot: DevicePtr, num_tokens: u32, num_kv_heads: u32, head_dim: u32, block_size: u32, key_stride: u32, value_stride: u32, layout: PoolLayout, p: DevicePtr)
    ensures
        #[trigger] seen(m, (Op::ReshapeAndCache { kernel, k, v, k_pool, v_pool, slot, num_tokens, num_kv_heads, head_dim, block_size, key_stride, value_stride, layout }), p) == ({
            if p == k_pool {
                Val::Stored {
                    kernel,
                    rows: Box::new(m(k)),
                    slot: Box::new(m(slot)),
                    pool: Box::new(m(p)),
                    num_tokens,
                    num_kv_heads,
                    head_dim,
                    block_size,
                    stride: key_stride,
                    layout,
                }
            } else if p == v_pool {
                Val::Stored {
                    kernel,
                    rows: Box::new(m(v)),
                    slot: Box::new(m(slot)),
                    pool: Box::new(m(p)),
                    num_tokens,
                    num_kv_heads,
                    head_dim,
                    block_size,
                    stride: value_stride,
                    layout,
                }
            } else {
                m(p)
            }
        }),
{
    reveal(seen);
}

pub broadcast proof fn seen_wht(m: Mem, kernel: KernelHandle, data: DevicePtr, heads: u32, head_dim: u32, p: DevicePtr)
    ensures
        #[trigger] seen(m, (Op::Wht { kernel, data, heads, head_dim }), p) == whole(
            m,
            p,
            data,
            heads * head_dim * 2,
            Val::Spread { kernel, heads, head_dim, of: Box::new(m(data)) },
        ),
{
    reveal(seen);
}

pub broadcast proof fn seen_moe_topk(m: Mem, kernel: KernelHandle, score: TopkScore, logits: DevicePtr, indices: DevicePtr, weights: DevicePtr, num_experts: u32, top_k: u32, norm_topk_prob: bool, tokens: u32, p: DevicePtr)
    ensures
        #[trigger] seen(m, (Op::MoeTopk { kernel, score, logits, indices, weights, num_experts, top_k, norm_topk_prob, tokens }), p) == ({
            if off(p, indices) < tokens * (top_k * 4) {
                rowed(
                    m,
                    p,
                    indices,
                    tokens as int,
                    top_k * 4,
                    Val::Choice {
                        kernel,
                        score,
                        num_experts,
                        top_k,
                        norm_topk_prob,
                        of: Box::new(m(at(logits, off(p, indices) / (top_k * 4) * (num_experts * 2)))),
                    },
                )
            } else {
                rowed(
                    m,
                    p,
                    weights,
                    tokens as int,
                    top_k * 4,
                    Val::Gains {
                        kernel,
                        score,
                        num_experts,
                        top_k,
                        norm_topk_prob,
                        of: Box::new(m(at(logits, off(p, weights) / (top_k * 4) * (num_experts * 2)))),
                    },
                )
            }
        }),
{
    reveal(seen);
}

pub broadcast proof fn seen_moe_gate_up(m: Mem, layout: MoeLayout, kernel: KernelHandle, input: DevicePtr, gate: ExpertWeights, gate_out: DevicePtr, up: ExpertWeights, up_out: DevicePtr, indices: DevicePtr, sh_gate: SharedWeight, sh_gate_out: DevicePtr, sh_up: SharedWeight, sh_up_out: DevicePtr, inter: u32, h: u32, top_k: u32, p: DevicePtr)
    ensures
        #[trigger] seen(m, (Op::MoeGateUp { layout, kernel, input, gate, gate_out, up, up_out, indices, sh_gate, sh_gate_out, sh_up, sh_up_out, inter, h, top_k }), p) == ({
            if p == gate_out {
                Val::Expert {
                    layout,
                    kernel,
                    weight: gate,
                    inter,
                    h,
                    top_k,
                    choice: rows_at(m, indices, 2, top_k * 4),
                    of: Box::new(m(input)),
                }
            } else if p == up_out {
                Val::Expert {
                    layout,
                    kernel,
                    weight: up,
                    inter,
                    h,
                    top_k,
                    choice: rows_at(m, indices, 2, top_k * 4),
                    of: Box::new(m(input)),
                }
            } else if p == sh_gate_out {
                Val::Shared { layout, kernel, weight: sh_gate, inter, h, of: Box::new(m(input)) }
            } else if p == sh_up_out {
                Val::Shared { layout, kernel, weight: sh_up, inter, h, of: Box::new(m(input)) }
            } else {
                m(p)
            }
        }),
{
    reveal(seen);
}

pub broadcast proof fn seen_moe_silu_down(m: Mem, layout: MoeLayout, kernel: KernelHandle, gate: DevicePtr, up: DevicePtr, down: ExpertWeights, down_out: DevicePtr, indices: DevicePtr, sh_gate: DevicePtr, sh_up: DevicePtr, sh_down: SharedWeight, sh_down_out: DevicePtr, h: u32, inter: u32, top_k: u32, p: DevicePtr)
    ensures
        #[trigger] seen(m, (Op::MoeSiluDown { layout, kernel, gate, up, down, down_out, indices, sh_gate, sh_up, sh_down, sh_down_out, h, inter, top_k }), p) == ({
            if p == down_out {
                Val::ExpertDown {
                    layout,
                    kernel,
                    weight: down,
                    h,
                    inter,
                    top_k,
                    choice: rows_at(m, indices, 2, top_k * 4),
                    gate: Box::new(m(gate)),
                    up: Box::new(m(up)),
                }
            } else if p == sh_down_out {
                Val::SharedDown {
                    layout,
                    kernel,
                    weight: sh_down,
                    h,
                    inter,
                    gate: Box::new(m(sh_gate)),
                    up: Box::new(m(sh_up)),
                }
            } else {
                m(p)
            }
        }),
{
    reveal(seen);
}

pub broadcast proof fn seen_moe_silu_mul(m: Mem, kernel: KernelHandle, gate: DevicePtr, up: DevicePtr, out: DevicePtr, n: u32, p: DevicePtr)
    ensures
        #[trigger] seen(m, (Op::MoeSiluMul { kernel, gate, up, out, n }), p) == (if p == out {
            Val::Gated { kernel, gate: Box::new(m(gate)), up: Box::new(m(up)) }
        } else {
            m(p)
        }),
{
    reveal(seen);
}

pub broadcast proof fn seen_moe_down_precomputed(m: Mem, kernel: KernelHandle, act: DevicePtr, down: ExpertWeights, down_out: DevicePtr, indices: DevicePtr, sh_act: DevicePtr, sh_down: SharedWeight, sh_down_out: DevicePtr, h: u32, inter: u32, top_k: u32, p: DevicePtr)
    ensures
        #[trigger] seen(m, (Op::MoeDownPrecomputed { kernel, act, down, down_out, indices, sh_act, sh_down, sh_down_out, h, inter, top_k }), p) == ({
            if p == down_out {
                Val::ExpertDownOf {
                    kernel,
                    weight: down,
                    h,
                    inter,
                    top_k,
                    choice: rows_at(m, indices, 2, top_k * 4),
                    act: Box::new(m(act)),
                }
            } else if p == sh_down_out {
                Val::SharedDownOf { kernel, weight: sh_down, h, inter, act: Box::new(m(sh_act)) }
            } else {
                m(p)
            }
        }),
{
    reveal(seen);
}

pub broadcast proof fn seen_moe_blend2(m: Mem, kernel: KernelHandle, output: DevicePtr, down: DevicePtr, weights: DevicePtr, shared: DevicePtr, input: DevicePtr, gate_weight: DevicePtr, h: u32, top_k: u32, k: u32, p: DevicePtr)
    ensures
        #[trigger] seen(m, (Op::MoeBlend2 { kernel, output, down, weights, shared, input, gate_weight, h, top_k, k }), p) == (if p == output {
            Val::Blend {
                kernel,
                h,
                top_k,
                k,
                down: Box::new(m(down)),
                gains: rows_at(m, weights, 2, top_k * 4),
                shared: Box::new(m(shared)),
                input: Box::new(m(input)),
                gate_weight,
            }
        } else {
            m(p)
        }),
{
    reveal(seen);
}

pub broadcast proof fn seen_moe_batched_blend(m: Mem, kernel: KernelHandle, output: DevicePtr, shared: DevicePtr, input: DevicePtr, gate_weight: DevicePtr, h: u32, tokens: u32, p: DevicePtr)
    ensures
        #[trigger] seen(m, (Op::MoeBatchedBlend { kernel, output, shared, input, gate_weight, h, tokens }), p) == (if p == output {
            Val::Joined {
                kernel,
                h,
                tokens,
                routed: Box::new(m(output)),
                shared: Box::new(m(shared)),
                input: Box::new(m(input)),
                gate_weight,
            }
        } else {
            m(p)
        }),
{
    reveal(seen);
}

pub broadcast proof fn seen_ffn_forward_prefill(
    m: Mem,
    ffn: FfnKind,
    layer: usize,
    input: DevicePtr,
    tokens: usize,
    ctx: ForwardContext,
    p: DevicePtr,
)
    ensures
        #[trigger] seen(m, (Op::FfnForwardPrefill { ffn, layer, input, tokens, ctx }), p) == rowed(
            m,
            p,
            ctx.buffers.moe_output,
            tokens as int,
            ctx.config.hidden_size * 2,
            Val::Fed {
                ffn,
                layer,
                of: Box::new(
                    m(
                        at(
                            input,
                            off(p, ctx.buffers.moe_output) / (ctx.config.hidden_size * 2) * (ctx.config.hidden_size * 2),
                        ),
                    ),
                ),
            },
        ),
{
    reveal(seen);
}

pub broadcast proof fn seen_residual_add_rms_norm(
    m: Mem,
    kernel: KernelHandle,
    hidden: DevicePtr,
    add: DevicePtr,
    weight: DenseWeight,
    output: DevicePtr,
    residual: DevicePtr,
    rows: u32,
    cols: u32,
    eps: F32Bits,
    p: DevicePtr,
)
    ensures
        #[trigger] seen(
            m,
            (Op::ResidualAddRmsNorm { kernel, hidden, add, weight, output, residual, rows, cols, eps }),
            p,
        ) == add_norm_seen(m, p, kernel, hidden, add, weight, output, residual, rows, cols, eps),
{
    reveal(seen);
}

pub broadcast proof fn seen_residual_add_rms_norm_gate_f32(
    m: Mem,
    kernel: KernelHandle,
    hidden: DevicePtr,
    add: DevicePtr,
    weight: DenseWeight,
    output: DevicePtr,
    router_out: DevicePtr,
    residual: DevicePtr,
    rows: u32,
    cols: u32,
    eps: F32Bits,
    p: DevicePtr,
)
    ensures
        #[trigger] seen(
            m,
            (Op::ResidualAddRmsNormGateF32 { kernel, hidden, add, weight, output, router_out, residual, rows, cols, eps }),
            p,
        ) == if off(p, router_out) < rows * (cols * 4) {
            Val::Unknown
        } else {
            add_norm_seen(m, p, kernel, hidden, add, weight, output, residual, rows, cols, eps)
        },
{
    reveal(seen);
}

/// An address is nowhere from itself.
pub broadcast proof fn off_self(p: DevicePtr)
    ensures
        #[trigger] off(p, p) == 0,
{
    reveal(off);
}

pub broadcast proof fn off_range(p: DevicePtr, base: DevicePtr)
    ensures
        0 <= #[trigger] off(p, base) < span(),
{
    reveal(off);
}

/// Operations on places and on single rows.
pub broadcast group seen_flat {
    off_self,
    off_range,
    seen_copy_d2d,
    seen_memset,
    seen_memset_async,
    seen_free,
    seen_synchronize,
    seen_observe,
    seen_dump,
    seen_fp8_observe,
    seen_all_reduce,
    seen_all_reduce_async,
    seen_rms_norm,
    seen_rms_norm_residual,
    seen_residual_add,
    seen_layer_scalar,
    seen_argmax_bf16,
    seen_dense_gemv,
    seen_mtp_hc_f32_to_bf16,
}

/// The operations of expert blocks behind the routing.
pub broadcast group seen_expert_products {
    seen_moe_gate_up,
    seen_moe_silu_down,
    seen_moe_silu_mul,
    seen_moe_down_precomputed,
    seen_moe_blend2,
    seen_moe_batched_blend,
}

/// Memory after one operation.
pub open spec fn then_op(m: Mem, op: Op) -> Mem {
    |p: DevicePtr| seen(m, op, p)
}

/// Memory after a list of operations.
pub open spec fn after(m: Mem, ops: Seq<Op>) -> Mem
    decreases ops.len(),
{
    if ops.len() == 0 {
        m
    } else {
        then_op(after(m, ops.drop_last()), ops.last())
    }
}

/// Memory after one step of a trace. The router's view of a row is taken to stand
/// where the step says it does; of attention and feed-forward blocks only the
/// output is told.
pub open spec fn then_event(m: Mem, e: Event) -> Mem {
    match (e.cmd, e.reply) {
        (Cmd::Op { op, .. }, Reply::Done) => then_op(m, op),
        (Cmd::H2d { data, dst }, Reply::Done) => |p: DevicePtr| whole(m, p, dst, data.len() as int, Val::Data(data)),
        (Cmd::H2dAsync { data, dst, .. }, Reply::Done) =>
            |p: DevicePtr| whole(m, p, dst, data.len() as int, Val::Data(data)),
        (Cmd::D2h { .. }, _) => m,
        (Cmd::Alloc { .. }, Reply::Ptr(_)) => m,
        (Cmd::Call { call: Call::RouterInput { .. }, .. }, Reply::Ptr(_)) => m,
        (Cmd::Call { call: Call::FfnForward { ffn, layer, input, ctx }, .. }, Reply::Ptr(q)) => |p: DevicePtr|
            whole(m, p, q, ctx.config.hidden_size * 2, Val::Fed { ffn, layer, of: Box::new(m(input)) }),
        (Cmd::Attend { call, .. }, Reply::Attended { out, .. }) => |p: DevicePtr|
            whole(
                m,
                p,
                out,
                call.ctx.config.hidden_size * 2,
                Val::AttentionOf {
                    layer: call.layer,
                    seq_len: call.seq_len,
                    cache: call.cache,
                    of: Box::new(m(call.normed)),
                },
            ),
        (Cmd::Kernel { .. }, _) => m,
        (Cmd::Fp8Scales { .. }, _) => m,
        _ => |p: DevicePtr| Val::Unknown,
    }
}

/// A step of a run: an operation, or something else that was asked of the device.
pub enum Act {
    Run(Op),
    Ask(Event),
}

/// How a step is recorded.
pub open spec fn act_event(a: Act, stream: u64) -> Event {
    match a {
        Act::Run(op) => step(op, stream),
        Act::Ask(e) => e,
    }
}

pub open spec fn then_act(m: Mem, a: Act) -> Mem {
    match a {
        Act::Run(op) => then_op(m, op),
        Act::Ask(e) => then_event(m, e),
    }
}

pub open spec fn after_acts(m: Mem, acts: Seq<Act>) -> Mem
    decreases acts.len(),
{
    if acts.len() == 0 {
        m
    } else {
        then_act(after_acts(m, acts.drop_last()), acts.last())
    }
}

pub open spec fn recorded(acts: Seq<Act>, stream: u64) -> Seq<Event> {
    Seq::new(acts.len(), |i: int| act_event(acts[i], stream))
}

/// `acts` leave the trace `es` and take memory `m` to `n`.
pub open spec fn carries(acts: Seq<Act>, es: Seq<Event>, stream: u64, m: Mem, n: Mem) -> bool {
    es == recorded(acts, stream) && after_acts(m, acts) == n
}

/// A run that leaves the trace `es` takes memory `m` to `n`.
pub open spec fn leads(es: Seq<Event>, stream: u64, m: Mem, n: Mem) -> bool {
    exists|acts: Seq<Act>| #[trigger] carries(acts, es, stream, m, n)
}

proof fn lemma_acts_add(m: Mem, a: Seq<Act>, b: Seq<Act>)
    ensures
        after_acts(m, a + b) == after_acts(after_acts(m, a), b),
    decreases b.len(),
{
    if b.len() == 0 {
        assert(a + b =~= a);
    } else {
        assert((a + b).drop_last() =~= a + b.drop_last());
        lemma_acts_add(m, a, b.drop_last());
    }
}

/// Runs can be put one after the other.
pub proof fn lemma_leads_add(a: Seq<Event>, b: Seq<Event>, stream: u64, m: Mem, n: Mem, o: Mem)
    requires
        leads(a, stream, m, n),
        leads(b, stream, n, o),
    ensures
        leads(a + b, stream, m, o),
{
    let x = choose|x: Seq<Act>| #[trigger] carries(x, a, stream, m, n);
    let y = choose|y: Seq<Act>| #[trigger] carries(y, b, stream, n, o);
    lemma_acts_add(m, x, y);
    assert(a + b =~= recorded(x + y, stream));
    assert(carries(x + y, a + b, stream, m, o));
}

pub proof fn lemma_leads_nothing(stream: u64, m: Mem)
    ensures
        leads(Seq::empty(), stream, m, m),
{
    let none = Seq::<Act>::empty();
    assert(recorded(none, stream) =~= Seq::<Event>::empty());
    assert(carries(none, Seq::empty(), stream, m, m));
}

/// Operations do to memory what they do one by one.
pub proof fn lemma_leads_steps(ops: Seq<Op>, stream: u64, m: Mem)
    ensures
        leads(steps(ops, stream), stream, m, after(m, ops)),
    decreases ops.len(),
{
    if ops.len() == 0 {
        lemma_leads_nothing(stream, m);
        assert(steps(ops, stream) =~= Seq::<Event>::empty());
    } else {
        let rest = ops.drop_last();
        let n = after(m, rest);
        lemma_leads_steps(rest, stream, m);
        let last = seq![Act::Run(ops.last())];
        assert(last.drop_last() =~= Seq::<Act>::empty());
        reveal_with_fuel(after_acts, 2);
        assert(recorded(last, stream) =~= seq![step(ops.last(), stream)]);
        assert(carries(last, seq![step(ops.last(), stream)], stream, n, after(m, ops)));
        lemma_leads_add(steps(rest, stream), seq![step(ops.last(), stream)], stream, m, n, after(m, ops));
        assert(steps(ops, stream) =~= steps(rest, stream) + seq![step(ops.last(), stream)]);
    }
}

/// A step that is no operation.
pub proof fn lemma_leads_ask(e: Event, stream: u64, m: Mem)
    ensures
        leads(seq![e], stream, m, then_event(m, e)),
{
    let one = seq![Act::Ask(e)];
    assert(one.drop_last() =~= Seq::<Act>::empty());
    reveal_with_fuel(after_acts, 2);
    assert(recorded(one, stream) =~= seq![e]);
    assert(carries(one, seq![e], stream, m, then_event(m, e)));
}

/// The run so far takes memory to `n`, which holds `v` at `p`; then comes `e`.
pub open spec fn finds(
    a: Seq<Event>,
    n: Mem,
    b: Seq<Event>,
    es: Seq<Event>,
    stream: u64,
    m: Mem,
    e: Event,
    p: DevicePtr,
    v: Val,
) -> bool {
    es == a + seq![e] + b && leads(a, stream, m, n) && n(p) == v
}

/// At the step `e` of the run, `p` holds `v`.
pub open spec fn holds_at(es: Seq<Event>, stream: u64, m: Mem, e: Event, p: DevicePtr, v: Val) -> bool {
    exists|a: Seq<Event>, n: Mem, b: Seq<Event>| #[trigger] finds(a, n, b, es, stream, m, e, p, v)
}

/// What holds at a step of a run holds there in a longer run.
pub proof fn lemma_holds_within(
    front: Seq<Event>,
    es: Seq<Event>,
    rear: Seq<Event>,
    stream: u64,
    m: Mem,
    mid: Mem,
    e: Event,
    p: DevicePtr,
    v: Val,
)
    requires
        leads(front, stream, m, mid),
        holds_at(es, stream, mid, e, p, v),
    ensures
        holds_at(front + es + rear, stream, m, e, p, v),
{
    let (a, n, b) = choose|a: Seq<Event>, n: Mem, b: Seq<Event>| #[trigger] finds(a, n, b, es, stream, mid, e, p, v);
    lemma_leads_add(front, a, stream, m, mid, n);
    assert(front + es + rear =~= (front + a) + seq![e] + (b + rear));
    assert(finds(front + a, n, b + rear, front + es + rear, stream, m, e, p, v));
}

pub proof fn lemma_after_add(m: Mem, a: Seq<Op>, b: Seq<Op>)
    ensures
        after(m, a + b) == after(after(m, a), b),
    decreases b.len(),
{
    if b.len() == 0 {
        assert(a + b =~= a);
    } else {
        assert((a + b).drop_last() =~= a + b.drop_last());
        lemma_after_add(m, a, b.drop_last());
    }
}

pub proof fn lemma_after_push(m: Mem, a: Seq<Op>, op: Op)
    ensures
        after(m, a.push(op)) == then_op(after(m, a), op),
{
    assert(a.push(op).drop_last() =~= a);
}

pub proof fn lemma_after_one(m: Mem, a: Op)
    ensures
        after(m, seq![a]) == then_op(m, a),
{
    assert(seq![a].drop_last() =~= Seq::<Op>::empty());
    reveal_with_fuel(after, 2);
}

/// Waiting changes nothing.
pub proof fn lemma_wait(m: Mem, on: bool)
    ensures
        after(m, wait_if(on)) == m,
{
    if on {
        lemma_after_one(m, Op::Synchronize);
        assert forall|p: DevicePtr| #[trigger] then_op(m, Op::Synchronize)(p) == m(p) by {
            seen_synchronize(m, p);
        }
        assert(then_op(m, Op::Synchronize) =~= m);
    }
}

/// Dumping changes nothing.
pub proof fn lemma_dump(m: Mem, on: bool, boundary: Boundary, call: usize, src: DevicePtr, rows: int, cols: int, fp32: bool)
    ensures
        after(m, dump_if(on, boundary, call, src, rows, cols, fp32)) == m,
{
    let ops = dump_if(on, boundary, call, src, rows, cols, fp32);
    if ops.len() > 0 {
        let op = ops[0];
        assert(ops =~= seq![op]);
        lemma_after_one(m, op);
        assert forall|p: DevicePtr| #[trigger] then_op(m, op)(p) == m(p) by {
            reveal(seen);
        }
        assert(then_op(m, op) =~= m);
    }
}

pub proof fn lemma_after_two(m: Mem, a: Op, b: Op)
    ensures
        after(m, seq![a, b]) == then_op(then_op(m, a), b),
{
    lemma_after_one(m, a);
    assert(seq![a, b].drop_last() =~= seq![a]);
}

pub proof fn lemma_after_three(m: Mem, a: Op, b: Op, c: Op)
    ensures
        after(m, seq![a, b, c]) == then_op(then_op(then_op(m, a), b), c),
{
    lemma_after_two(m, a, b);
    assert(seq![a, b, c].drop_last() =~= seq![a, b]);
}

pub proof fn lemma_after_four(m: Mem, a: Op, b: Op, c: Op, d: Op)
    ensures
        after(m, seq![a, b, c, d]) == then_op(then_op(then_op(then_op(m, a), b), c), d),
{
    lemma_after_three(m, a, b, c);
    assert(seq![a, b, c, d].drop_last() =~= seq![a, b, c]);
}

// ── buffers apart from each other ──
/// `bytes` bytes of device memory from `base` on.
pub struct Zone {
    pub base: DevicePtr,
    pub bytes: int,
}

pub open spec fn zone(base: DevicePtr, bytes: int) -> Zone {
    Zone { base, bytes }
}

/// Two buffers share no byte.
pub open spec fn apart(a: Zone, b: Zone) -> bool {
    off(b.base, a.base) >= a.bytes && off(a.base, b.base) >= b.bytes
}

/// No two of the buffers share a byte, and each is a part of the device.
pub open spec fn all_apart(zones: Seq<Zone>) -> bool {
    &&& forall|i: int| 0 <= i < zones.len() ==> 0 < (#[trigger] zones[i]).bytes <= span()
    &&& forall|i: int, j: int|
        0 <= i < zones.len() && 0 <= j < zones.len() && i != j ==> apart(#[trigger] zones[i], #[trigger] zones[j])
}

/// A place inside one buffer is outside the other.
pub proof fn lemma_outside(a: Zone, b: Zone, d: int)
    requires
        apart(a, b),
        0 <= d < b.bytes <= span(),
    ensures
        off(at(b.base, d), a.base) >= a.bytes,
{
    let o = off(b.base, a.base);
    let s = span();
    lemma_back(b.base, a.base);
    lemma_shift(b.base, a.base, d);
}

/// How far a place is from another base.
pub proof fn lemma_shift(b: DevicePtr, a: DevicePtr, d: int)
    requires
        0 <= d < span(),
    ensures
        off(at(b, d), a) == if off(b, a) + d < span() {
            off(b, a) + d
        } else {
            off(b, a) + d - span()
        },
{
    reveal(off);
    let s = span();
    assert(at(b, d).0 == if b.0 + d < s { b.0 + d } else { b.0 + d - s });
    assert(off(b, a) == if b.0 >= a.0 { b.0 - a.0 } else { b.0 - a.0 + s });
    let x = at(b, d).0;
    assert(off(at(b, d), a) == if x >= a.0 { x - a.0 } else { x - a.0 + s });
}

proof fn lemma_back(b: DevicePtr, a: DevicePtr)
    ensures
        off(b, a) != 0 ==> off(a, b) == span() - off(b, a),
        0 <= off(b, a) < span(),
{
    reveal(off);
    let s = span();
    assert(off(b, a) == if b.0 >= a.0 { b.0 - a.0 } else { b.0 - a.0 + s });
    assert(off(a, b) == if a.0 >= b.0 { a.0 - b.0 } else { a.0 - b.0 + s });
}

/// A place inside a buffer is as far from its base as it says.
pub proof fn lemma_inside(b: DevicePtr, d: int)
    requires
        0 <= d < span(),
    ensures
        off(at(b, d), b) == d,
{
    off_self(b);
    lemma_shift(b, b, d);
}

/// How far two places in a buffer are from each other.
pub proof fn lemma_between(b: DevicePtr, d: int, e: int)
    requires
        0 <= d < span(),
        0 <= e < span(),
    ensures
        off(at(b, d), at(b, e)) == if d >= e {
            d - e
        } else {
            d - e + span()
        },
{
    reveal(off);
    let s = span();
    let x = at(b, d).0;
    let y = at(b, e).0;
    assert(x == if b.0 + d < s { b.0 + d } else { b.0 + d - s });
    assert(y == if b.0 + e < s { b.0 + e } else { b.0 + e - s });
    assert(off(at(b, d), at(b, e)) == if x >= y { x - y } else { x - y + s });
}

/// How far an address is from a place in a buffer.
pub proof fn lemma_rebase(q: DevicePtr, b: DevicePtr, d: int)
    requires
        0 <= d < span(),
    ensures
        off(q, at(b, d)) == if off(q, b) >= d {
            off(q, b) - d
        } else {
            off(q, b) - d + span()
        },
{
    reveal(off);
    let s = span();
    let y = at(b, d).0;
    assert(y == if b.0 + d < s { b.0 + d } else { b.0 + d - s });
    assert(off(q, at(b, d)) == if q.0 >= y { q.0 - y } else { q.0 - y + s });
    assert(off(q, b) == if q.0 >= b.0 { q.0 - b.0 } else { q.0 - b.0 + s });
}

/// Steps within a buffer add up.
pub proof fn lemma_at_at(p: DevicePtr, d: int, e: int)
    requires
        0 <= d,
        0 <= e,
    ensures
        at(at(p, d), e) == at(p, d + e),
{
    assert(((p.0 + d) % span() + e) % span() == (p.0 + d + e) % span());
}

/// The places of row `t` of rows of `pitch` bytes.
pub proof fn lemma_row(t: int, rows: int, pitch: int)
    requires
        0 <= t < rows,
        0 < pitch,
    ensures
        0 <= t * pitch,
        t * pitch + pitch <= rows * pitch,
        (t * pitch) % pitch == 0,
        (t * pitch) / pitch == t,
{
    assert(0 <= t * pitch && t * pitch + pitch <= rows * pitch) by (nonlinear_arith)
        requires
            0 <= t < rows,
            0 < pitch,
    ;
    vstd::arithmetic::div_mod::lemma_mod_multiples_basic(t, pitch);
    vstd::arithmetic::div_mod::lemma_div_by_multiple(t, pitch);
}

/// Row `t * per + i` of rows in groups of `per` is row `i` of group `t`.
pub proof fn lemma_grouped(t: int, i: int, groups: int, per: int)
    requires
        0 <= t < groups,
        0 <= i < per,
    ensures
        0 <= t * per + i < groups * per,
        (t * per + i) / per == t,
        (t * per + i) % per == i,
{
    assert(t * per + i < groups * per && 0 <= t * per) by (nonlinear_arith)
        requires
            0 <= t < groups,
            0 <= i < per,
    ;
    vstd::arithmetic::div_mod::lemma_fundamental_div_mod_converse(t * per + i, per, t, i);
}

/// Stream `i` of token `t` after the rows were copied to all streams.
pub proof fn lemma_expanded(
    m: Mem,
    kernel: KernelHandle,
    hidden: DevicePtr,
    streams: DevicePtr,
    num_tokens: u32,
    hidden_size: u32,
    hc_mult: u32,
    t: int,
    i: int,
)
    requires
        0 <= t < num_tokens,
        0 <= i < hc_mult,
        0 < hidden_size,
        num_tokens * hc_mult * (hidden_size * 4) <= span(),
    ensures
        then_op(m, (Op::HcExpand { kernel, hidden, streams, num_tokens, hidden_size, hc_mult }))(
            at(streams, (t * hc_mult + i) * (hidden_size * 4)),
        ) == (Val::Stream { kernel, of: Box::new(m(at(hidden, t * (hidden_size * 2)))) }),
{
    let r = t * hc_mult + i;
    lemma_grouped(t, i, num_tokens as int, hc_mult as int);
    lemma_row(r, num_tokens * hc_mult, hidden_size * 4);
    lemma_inside(streams, r * (hidden_size * 4));
    seen_hc_expand(
        m,
        kernel,
        hidden,
        streams,
        num_tokens,
        hidden_size,
        hc_mult,
        at(streams, r * (hidden_size * 4)),
    );
}

// ── what an operation leaves alone ──
/// Where an operation writes. Of operations that are not listed nothing is said.
pub open spec fn outputs(op: Op) -> Option<Seq<Zone>> {
    match op {
        Op::CopyD2d { dst, bytes, .. } => Some(seq![zone(dst, bytes as int)]),
        Op::Memset { ptr, bytes, .. } => Some(seq![zone(ptr, bytes as int)]),
        Op::MemsetAsync { ptr, bytes, .. } => Some(seq![zone(ptr, bytes as int)]),
        Op::Synchronize => Some(Seq::empty()),
        Op::Free { .. } => Some(Seq::empty()),
        Op::Dump { .. } => Some(Seq::empty()),
        Op::Fp8Observe { .. } => Some(Seq::empty()),
        Op::Observe { .. } => Some(Seq::empty()),
        Op::RmsNorm { output, rows, cols, .. } => Some(seq![zone(output, rows * (cols * 2))]),
        Op::ResidualAdd { dst, n, .. } => Some(seq![zone(dst, n * 2)]),
        Op::DenseGemv { output, n, .. } => Some(seq![zone(output, n * 2)]),
        Op::DenseGemm { output, m, n, .. } => Some(seq![zone(output, m * (n * 2))]),
        Op::DenseGemmPipelined { output, m, n, .. } => Some(seq![zone(output, m * (n * 2))]),
        Op::W4a16GemvBatch2 { output, n, .. } => Some(seq![zone(output, 2 * (n * 2))]),
        Op::W8a16GemvBatch2 { output, n, .. } => Some(seq![zone(output, 2 * (n * 2))]),
        Op::BatchedEmbed { output, n, h, .. } => Some(seq![zone(output, n * (h * 2))]),
        Op::ArgmaxBf16 { out, .. } => Some(seq![zone(out, 4)]),
        Op::MtpHcF32ToBf16 { dst, n, .. } => Some(seq![zone(dst, n * 2)]),
        Op::MtpHprojBroadcastAdd { streams, rows, hc_mult, h, .. } => Some(
            seq![zone(streams, rows * hc_mult * (h * 4))],
        ),
        Op::HcExpand { streams, num_tokens, hidden_size, hc_mult, .. } => Some(
            seq![zone(streams, num_tokens * hc_mult * (hidden_size * 4))],
        ),
        Op::HcPre { y_out, post_out, comb_out, num_tokens, hidden_size, hc_mult, .. } => Some(
            seq![
                zone(y_out, num_tokens * (hidden_size * 2)),
                zone(post_out, num_tokens * (hc_mult * 4)),
                zone(comb_out, num_tokens * (hc_mult * hc_mult * 4)),
            ],
        ),
        Op::HcPost { out, num_tokens, hidden_size, hc_mult, .. } => Some(
            seq![zone(out, num_tokens * hc_mult * (hidden_size * 4))],
        ),
        Op::HcHead { y_out, num_tokens, hidden_size, .. } => Some(seq![zone(y_out, num_tokens * (hidden_size * 2))]),
        Op::HcStreamMean { out, num_tokens, hidden_size, .. } => Some(
            seq![zone(out, num_tokens * (hidden_size * 2))],
        ),
        Op::RopeExtract { dst, count, heads, rope, .. } => Some(seq![zone(dst, count * (heads * rope * 2))]),
        Op::RopeWriteback { dst, count, stride, .. } => Some(seq![zone(dst, count * (stride * 2))]),
        Op::RopeYarn { q, k, count, nq, nk, head_dim, .. } => Some(
            seq![zone(q, count * (nq * head_dim * 2)), zone(k, count * (nk * head_dim * 2))],
        ),
        Op::DsparkSparseAttention { out, block_size, num_heads, head_dim, .. } => Some(
            seq![zone(out, block_size * (num_heads * head_dim * 2))],
        ),
        Op::CacheAssemble { k_cache, v_cache, count, cache_dim, .. } => Some(
            seq![zone(k_cache, count * (cache_dim * 2)), zone(v_cache, count * (cache_dim * 2))],
        ),
        Op::Wht { data, heads, head_dim, .. } => Some(seq![zone(data, heads * head_dim * 2)]),
        Op::FfnForwardPrefill { tokens, ctx, .. } => Some(
            seq![zone(ctx.buffers.moe_output, tokens * (ctx.config.hidden_size * 2))],
        ),
        Op::PagedDecode { out, count, nq, hd, workspace, .. } => Some(
            seq![zone(out, count * (nq * hd * 2)), zone(workspace, 1)],
        ),
        _ => None,
    }
}

/// `q` is in none of the zones.
pub open spec fn outside_all(q: DevicePtr, zones: Seq<Zone>) -> bool {
    forall|i: int| 0 <= i < zones.len() ==> off(q, (#[trigger] zones[i]).base) >= zones[i].bytes
}

/// An operation changes nothing outside its outputs.
pub proof fn lemma_untouched(m: Mem, op: Op, q: DevicePtr)
    requires
        outputs(op) is Some,
        outside_all(q, outputs(op)->0),
    ensures
        then_op(m, op)(q) == m(q),
{
    reveal(seen);
    let z = outputs(op)->0;
    if z.len() > 0 {
        assert(off(q, z[0].base) >= z[0].bytes);
    }
    if z.len() > 1 {
        assert(off(q, z[1].base) >= z[1].bytes);
    }
    if z.len() > 2 {
        assert(off(q, z[2].base) >= z[2].bytes);
    }
}

/// `q` lies in none of the buffers numbered in `only`.
pub open spec fn clear_of(q: DevicePtr, zones: Seq<Zone>, only: Set<int>) -> bool {
    forall|i: int| 0 <= i < zones.len() && only.contains(i) ==> off(q, (#[trigger] zones[i]).base) >= zones[i].bytes
}

/// From `m` to `n` nothing changed but in the buffers numbered in `only`.
pub open spec fn keeps(m: Mem, n: Mem, zones: Seq<Zone>, only: Set<int>) -> bool {
    forall|q: DevicePtr| clear_of(q, zones, only) ==> #[trigger] n(q) == m(q)
}

pub proof fn lemma_keeps_then(m: Mem, n: Mem, o: Mem, zones: Seq<Zone>, a: Set<int>, b: Set<int>)
    requires
        keeps(m, n, zones, a),
        keeps(n, o, zones, b),
    ensures
        keeps(m, o, zones, a.union(b)),
{
    assert forall|q: DevicePtr| clear_of(q, zones, a.union(b)) implies #[trigger] o(q) == m(q) by {
        assert(clear_of(q, zones, a));
        assert(clear_of(q, zones, b));
        assert(n(q) == m(q));
    }
}

pub proof fn lemma_keeps_more(m: Mem, n: Mem, zones: Seq<Zone>, a: Set<int>, b: Set<int>)
    requires
        keeps(m, n, zones, a),
        a.subset_of(b),
    ensures
        keeps(m, n, zones, b),
{
    assert forall|q: DevicePtr| clear_of(q, zones, b) implies #[trigger] n(q) == m(q) by {
        assert(clear_of(q, zones, a));
    }
}

/// What stands in a buffer that is not among the changed ones is still there.
pub proof fn lemma_kept(m: Mem, n: Mem, zones: Seq<Zone>, only: Set<int>, j: int, d: int)
    requires
        keeps(m, n, zones, only),
        all_apart(zones),
        0 <= j < zones.len(),
        !only.contains(j),
        0 <= d < zones[j].bytes,
    ensures
        n(at(zones[j].base, d)) == m(at(zones[j].base, d)),
{
    let q = at(zones[j].base, d);
    assert forall|i: int| 0 <= i < zones.len() && only.contains(i) implies off(q, (#[trigger] zones[i]).base)
        >= zones[i].bytes by {
        lemma_outside(zones[i], zones[j], d);
    }
    assert(clear_of(q, zones, only));
}

/// A part of a buffer.
pub open spec fn within(a: Zone, d: int, bytes: int, z: Zone) -> bool {
    &&& z.base == at(a.base, d)
    &&& z.bytes == bytes
    &&& 0 <= d
    &&& d + bytes <= a.bytes <= span()
    &&& d < span()
}

/// An operation whose outputs are parts of one of the buffers changes only that.
pub proof fn lemma_op_keeps(m: Mem, op: Op, zones: Seq<Zone>, i: int, d: int)
    requires
        outputs(op) is Some,
        (outputs(op)->0).len() == 1,
        0 <= i < zones.len(),
        within(zones[i], d, (outputs(op)->0)[0].bytes, (outputs(op)->0)[0]),
    ensures
        keeps(m, then_op(m, op), zones, set![i]),
{
    let out = outputs(op)->0;
    assert forall|q: DevicePtr| clear_of(q, zones, set![i]) implies #[trigger] then_op(m, op)(q) == m(q) by {
        assert(off(q, zones[i].base) >= zones[i].bytes);
        lemma_rebase(q, zones[i].base, d);
        off_range(q, zones[i].base);
        lemma_untouched(m, op, q);
    }
}

pub proof fn lemma_op_keeps_two(m: Mem, op: Op, zones: Seq<Zone>, i: int, j: int)
    requires
        outputs(op) is Some,
        (outputs(op)->0).len() == 2,
        0 <= i < zones.len(),
        0 <= j < zones.len(),
        (outputs(op)->0)[0].base == zones[i].base,
        (outputs(op)->0)[0].bytes <= zones[i].bytes,
        (outputs(op)->0)[1].base == zones[j].base,
        (outputs(op)->0)[1].bytes <= zones[j].bytes,
    ensures
        keeps(m, then_op(m, op), zones, set![i, j]),
{
    assert forall|q: DevicePtr| clear_of(q, zones, set![i, j]) implies #[trigger] then_op(m, op)(q) == m(q) by {
        assert(set![i, j].contains(i) && set![i, j].contains(j));
        assert(off(q, zones[i].base) >= zones[i].bytes);
        assert(off(q, zones[j].base) >= zones[j].bytes);
        lemma_untouched(m, op, q);
    }
}

pub proof fn lemma_keeps_self(m: Mem, zones: Seq<Zone>)
    ensures
        keeps(m, m, zones, Set::empty()),
{
}

// ── rows of rotations ──
/// Row `t` of the extracted lanes.
pub proof fn lemma_extracted(
    m: Mem,
    kernel: KernelHandle,
    src: DevicePtr,
    dst: DevicePtr,
    count: u32,
    heads: u32,
    hd: u32,
    nope: u32,
    rope: u32,
    stride: u32,
    t: int,
)
    requires
        0 <= t < count,
        0 < heads * rope,
        count * (heads * rope * 2) <= span(),
    ensures
        then_op(m, (Op::RopeExtract { kernel, src, dst, count, heads, hd, nope, rope, stride }))(
            at(dst, t * (heads * rope * 2)),
        ) == (Val::Rotary {
            kernel,
            lanes: (Lanes { heads, hd, nope, rope }),
            of: Box::new(m(at(src, t * (stride * 2)))),
        }),
{
    lemma_row(t, count as int, heads * rope * 2);
    lemma_inside(dst, t * (heads * rope * 2));
    seen_rope_extract(m, kernel, src, dst, count, heads, hd, nope, rope, stride, at(dst, t * (heads * rope * 2)));
}

/// Row `t` with its lanes written back.
pub proof fn lemma_written_back(
    m: Mem,
    kernel: KernelHandle,
    src: DevicePtr,
    dst: DevicePtr,
    count: u32,
    heads: u32,
    hd: u32,
    nope: u32,
    rope: u32,
    stride: u32,
    t: int,
)
    requires
        0 <= t < count,
        0 < stride,
        count * (stride * 2) <= span(),
    ensures
        then_op(m, (Op::RopeWriteback { kernel, src, dst, count, heads, hd, nope, rope, stride }))(
            at(dst, t * (stride * 2)),
        ) == (Val::Replaced {
            kernel,
            lanes: (Lanes { heads, hd, nope, rope }),
            row: Box::new(m(at(dst, t * (stride * 2)))),
            by: Box::new(m(at(src, t * (heads * rope * 2)))),
        }),
        forall|d: int|
            0 <= d < stride * 2 ==> #[trigger] then_op(
                m,
                (Op::RopeWriteback { kernel, src, dst, count, heads, hd, nope, rope, stride }),
            )(at(dst, t * (stride * 2) + d)) == part(
                Val::Replaced {
                    kernel,
                    lanes: (Lanes { heads, hd, nope, rope }),
                    row: Box::new(m(at(dst, t * (stride * 2)))),
                    by: Box::new(m(at(src, t * (heads * rope * 2)))),
                },
                d,
            ),
{
    let pitch = stride * 2;
    lemma_row(t, count as int, pitch);
    lemma_inside(dst, t * pitch);
    seen_rope_writeback(m, kernel, src, dst, count, heads, hd, nope, rope, stride, at(dst, t * pitch));
    assert forall|d: int| 0 <= d < pitch implies #[trigger] then_op(
        m,
        (Op::RopeWriteback { kernel, src, dst, count, heads, hd, nope, rope, stride }),
    )(at(dst, t * pitch + d)) == part(
        Val::Replaced {
            kernel,
            lanes: (Lanes { heads, hd, nope, rope }),
            row: Box::new(m(at(dst, t * pitch))),
            by: Box::new(m(at(src, t * (heads * rope * 2)))),
        },
        d,
    ) by {
        lemma_grouped(t, d, count as int, pitch);
        lemma_inside(dst, t * pitch + d);
        seen_rope_writeback(m, kernel, src, dst, count, heads, hd, nope, rope, stride, at(dst, t * pitch + d));
    }
}

/// Row `t` of queries after the rotation.
pub proof fn lemma_turned_q(
    m: Mem,
    kernel: KernelHandle,
    q: DevicePtr,
    k: DevicePtr,
    positions: DevicePtr,
    count: u32,
    nq: u32,
    nk: u32,
    head_dim: u32,
    rope: u32,
    inv_freq: DevicePtr,
    mscale: F32Bits,
    t: int,
)
    requires
        0 <= t < count,
        0 < nq * head_dim,
        count * (nq * head_dim * 2) <= span(),
    ensures
        then_op(m, (Op::RopeYarn { kernel, q, k, positions, count, nq, nk, head_dim, rope, inv_freq, mscale }))(
            at(q, t * (nq * head_dim * 2)),
        ) == (Val::Turned {
            kernel,
            position: Box::new(m(at(positions, t * 4))),
            inv_freq,
            mscale,
            heads: nq,
            head_dim,
            rope,
            of: Box::new(m(at(q, t * (nq * head_dim * 2)))),
        }),
{
    let pitch = nq * head_dim * 2;
    lemma_row(t, count as int, pitch);
    lemma_inside(q, t * pitch);
    seen_rope_yarn(m, kernel, q, k, positions, count, nq, nk, head_dim, rope, inv_freq, mscale, at(q, t * pitch));
}

/// Row `t` of keys after the rotation, apart from the queries.
pub proof fn lemma_turned_k(
    m: Mem,
    kernel: KernelHandle,
    q: DevicePtr,
    k: DevicePtr,
    positions: DevicePtr,
    count: u32,
    nq: u32,
    nk: u32,
    head_dim: u32,
    rope: u32,
    inv_freq: DevicePtr,
    mscale: F32Bits,
    t: int,
)
    requires
        0 <= t < count,
        0 < nk * head_dim,
        count * (nk * head_dim * 2) <= span(),
        apart(zone(q, count * (nq * head_dim * 2)), zone(k, count * (nk * head_dim * 2))),
    ensures
        then_op(m, (Op::RopeYarn { kernel, q, k, positions, count, nq, nk, head_dim, rope, inv_freq, mscale }))(
            at(k, t * (nk * head_dim * 2)),
        ) == (Val::Turned {
            kernel,
            position: Box::new(m(at(positions, t * 4))),
            inv_freq,
            mscale,
            heads: nk,
            head_dim,
            rope,
            of: Box::new(m(at(k, t * (nk * head_dim * 2)))),
        }),
{
    let pitch = nk * head_dim * 2;
    lemma_row(t, count as int, pitch);
    lemma_inside(k, t * pitch);
    lemma_outside(zone(q, count * (nq * head_dim * 2)), zone(k, count * pitch), t * pitch);
    seen_rope_yarn(m, kernel, q, k, positions, count, nq, nk, head_dim, rope, inv_freq, mscale, at(k, t * pitch));
}

/// A product that writes row `t` of a buffer of `rows` rows leaves the other rows
/// alone.
pub proof fn lemma_row_product(
    m: Mem,
    kernel: KernelHandle,
    input: DevicePtr,
    weight: DenseWeight,
    base: DevicePtr,
    n: u32,
    k: u32,
    rows: int,
    t: int,
    s: int,
)
    requires
        0 < n,
        0 <= t < rows,
        0 <= s < rows,
        rows * (n * 2) <= span(),
    ensures
        then_op(m, (Op::DenseGemv { kernel, input, weight, output: at(base, t * (n * 2)), n, k }))(
            at(base, s * (n * 2)),
        ) == if s == t {
            product(kernel, weight, n, k, m(input))
        } else {
            m(at(base, s * (n * 2)))
        },
{
    let p = n * 2;
    lemma_row(t, rows, p);
    lemma_row(s, rows, p);
    lemma_between(base, s * p, t * p);
    if s < t {
        assert(s * p + p <= t * p) by (nonlinear_arith)
            requires
                s < t,
                p > 0,
        ;
    }
    if s > t {
        assert(t * p + p <= s * p) by (nonlinear_arith)
            requires
                s > t,
                p > 0,
        ;
    }
    seen_dense_gemv(m, kernel, input, weight, at(base, t * p), n, k, at(base, s * p));
}

// ── streams ──
/// An operation with three outputs, each in a buffer of its own.
pub proof fn lemma_op_keeps_three(m: Mem, op: Op, zones: Seq<Zone>, i: int, j: int, k: int)
    requires
        outputs(op) is Some,
        (outputs(op)->0).len() == 3,
        0 <= i < zones.len(),
        0 <= j < zones.len(),
        0 <= k < zones.len(),
        (outputs(op)->0)[0].base == zones[i].base,
        (outputs(op)->0)[0].bytes <= zones[i].bytes,
        (outputs(op)->0)[1].base == zones[j].base,
        (outputs(op)->0)[1].bytes <= zones[j].bytes,
        (outputs(op)->0)[2].base == zones[k].base,
        (outputs(op)->0)[2].bytes <= zones[k].bytes,
    ensures
        keeps(m, then_op(m, op), zones, set![i, j, k]),
{
    assert forall|q: DevicePtr| clear_of(q, zones, set![i, j, k]) implies #[trigger] then_op(m, op)(q) == m(q) by {
        assert(set![i, j, k].contains(i) && set![i, j, k].contains(j) && set![i, j, k].contains(k));
        assert(off(q, zones[i].base) >= zones[i].bytes);
        assert(off(q, zones[j].base) >= zones[j].bytes);
        assert(off(q, zones[k].base) >= zones[k].bytes);
        lemma_untouched(m, op, q);
    }
}

/// What a collapse leaves for token `t`: the row, the shares and the matrix.
pub proof fn lemma_collapsed(
    m: Mem,
    kernels: Seq<KernelHandle>,
    streams: DevicePtr,
    by: Mixing,
    y_out: DevicePtr,
    post_out: DevicePtr,
    comb_out: DevicePtr,
    tokens: u32,
    t: int,
)
    requires
        0 <= t < tokens,
        0 < by.hidden_size,
        0 < by.hc_mult,
        all_apart(
            seq![
                zone(y_out, tokens * (by.hidden_size * 2)),
                zone(post_out, tokens * (by.hc_mult * 4)),
                zone(comb_out, tokens * (by.hc_mult * by.hc_mult * 4)),
            ],
        ),
    ensures
        ({
            let hc = by.hc_mult as int;
            let h = by.hidden_size as int;
            let of = streams_at(m, streams, t, hc, h);
            let y = at(y_out, t * (h * 2));
            let post = at(post_out, t * (hc * 4));
            let comb = at(comb_out, t * (hc * hc * 4));
            &&& collapse_seen(m, y, kernels, streams, by, y_out, post_out, comb_out, tokens) == (Val::Collapsed {
                kernels,
                by,
                of,
            })
            &&& collapse_seen(m, post, kernels, streams, by, y_out, post_out, comb_out, tokens) == (Val::Shares {
                kernels,
                by,
                of,
            })
            &&& collapse_seen(m, comb, kernels, streams, by, y_out, post_out, comb_out, tokens) == (Val::Matrix {
                kernels,
                by,
                of,
            })
        }),
{
    let hc = by.hc_mult as int;
    let h = by.hidden_size as int;
    let n = tokens as int;
    let z = seq![zone(y_out, n * (h * 2)), zone(post_out, n * (hc * 4)), zone(comb_out, n * (hc * hc * 4))];
    assert(z[0].bytes <= span() && z[1].bytes <= span() && z[2].bytes <= span());
    assert(hc * hc > 0) by (nonlinear_arith)
        requires
            hc > 0,
    ;
    lemma_row(t, n, h * 2);
    lemma_row(t, n, hc * 4);
    lemma_row(t, n, hc * hc * 4);
    lemma_inside(y_out, t * (h * 2));
    lemma_inside(post_out, t * (hc * 4));
    lemma_inside(comb_out, t * (hc * hc * 4));
    assert(apart(z[0], z[1]) && apart(z[0], z[2]) && apart(z[1], z[2]));
    lemma_outside(z[0], z[1], t * (hc * 4));
    lemma_outside(z[0], z[2], t * (hc * hc * 4));
    lemma_outside(z[1], z[2], t * (hc * hc * 4));
}

/// Stream `i` of token `t` with the output of a block mixed in.
pub proof fn lemma_mixed(
    m: Mem,
    kernel: KernelHandle,
    block_out: DevicePtr,
    residual: DevicePtr,
    post: DevicePtr,
    comb: DevicePtr,
    out: DevicePtr,
    num_tokens: u32,
    hidden_size: u32,
    hc_mult: u32,
    t: int,
    i: int,
)
    requires
        0 <= t < num_tokens,
        0 <= i < hc_mult,
        0 < hidden_size,
        num_tokens * hc_mult * (hidden_size * 4) <= span(),
    ensures
        then_op(
            m,
            (Op::HcPost { kernel, block_out, residual, post, comb, out, num_tokens, hidden_size, hc_mult }),
        )(at(out, (t * hc_mult + i) * (hidden_size * 4))) == (Val::Mixed {
            kernel,
            stream: i,
            block: Box::new(m(at(block_out, t * (hidden_size * 2)))),
            streams: streams_at(m, residual, t, hc_mult as int, hidden_size as int),
            shares: Box::new(m(at(post, t * (hc_mult * 4)))),
            matrix: Box::new(m(at(comb, t * (hc_mult * hc_mult * 4)))),
        }),
{
    let r = t * hc_mult + i;
    lemma_grouped(t, i, num_tokens as int, hc_mult as int);
    lemma_row(r, num_tokens * hc_mult, hidden_size * 4);
    lemma_inside(out, r * (hidden_size * 4));
    seen_hc_post(
        m,
        kernel,
        block_out,
        residual,
        post,
        comb,
        out,
        num_tokens,
        hidden_size,
        hc_mult,
        at(out, r * (hidden_size * 4)),
    );
}

/// Operations without outputs change nothing.
pub proof fn lemma_quiet(m: Mem, ops: Seq<Op>)
    requires
        forall|i: int| 0 <= i < ops.len() ==> outputs(#[trigger] ops[i]) == Some(Seq::<Zone>::empty()),
    ensures
        after(m, ops) == m,
    decreases ops.len(),
{
    if ops.len() > 0 {
        let rest = ops.drop_last();
        assert forall|i: int| 0 <= i < rest.len() implies outputs(#[trigger] rest[i]) == Some(Seq::<Zone>::empty()) by {
            assert(rest[i] == ops[i]);
        }
        lemma_quiet(m, rest);
        let op = ops[ops.len() - 1];
        assert(ops =~= rest.push(op));
        lemma_after_push(m, rest, op);
        assert forall|q: DevicePtr| #[trigger] then_op(m, op)(q) == m(q) by {
            lemma_untouched(m, op, q);
        }
        assert(then_op(m, op) =~= m);
    }
}

} // verus!
