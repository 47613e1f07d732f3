//! Writing keys and values to the paged cache.

use vstd::prelude::*;

use crate::attention::Qwen3AttentionLayer;
use crate::gpu::{DevicePtr, F32Bits, Fp8Scales, GpuError};
use crate::kv_cache::{KvCacheDtype, KvLayout, LayerPool};
use crate::op::{Op, PoolLayout};
use crate::run::{all_fit, run_ops, scales_step, steps};
use crate::trace::{lemma_ran_cut, lemma_ran_then, ran, refusal, Event, GpuBackend};

verus! {

/// What is written, and where.
#[derive(Clone, Copy, PartialEq, Eq, Structural, Debug)]
pub struct CacheWrite {
    pub k: DevicePtr,
    pub v: DevicePtr,
    pub slot: DevicePtr,
    pub num_tokens: u32,
    pub num_kv_heads: u32,
    pub head_dim: u32,
    pub block_size: u32,
    pub key_stride: u32,
    pub value_stride: u32,
    pub graph_capture: bool,
}

/// One of the dtypes that decorrelate rows before quantising them.
pub open spec fn is_turbo(dtype: KvCacheDtype) -> bool {
    dtype == KvCacheDtype::Turbo3 || dtype == KvCacheDtype::Turbo4 || dtype == KvCacheDtype::Turbo8
}

pub fn check_turbo(dtype: KvCacheDtype) -> (r: bool)
    ensures
        r == is_turbo(dtype),
{
    match dtype {
        KvCacheDtype::Turbo3 | KvCacheDtype::Turbo4 | KvCacheDtype::Turbo8 => true,
        _ => false,
    }
}

/// The transform kernel is there and handles this head width.
pub open spec fn transforms(layer: Qwen3AttentionLayer, head_dim: u32) -> bool {
    layer.wht_bf16_k.0 != 0 && (head_dim == 128 || head_dim == 256 || head_dim == 512)
}

pub open spec fn packed_bytes(dtype: KvCacheDtype, layout: KvLayout) -> usize {
    if dtype == KvCacheDtype::Turbo8 {
        layout.turbo8_data_bytes
    } else if dtype == KvCacheDtype::Turbo3 {
        layout.turbo3_data_bytes
    } else {
        layout.nvfp4_data_bytes
    }
}

/// How the rows lie in the pools. Eight-bit rows are scaled by `s`.
pub open spec fn pool_layout(layer: Qwen3AttentionLayer, layout: KvLayout, pool: LayerPool, s: Fp8Scales) -> PoolLayout {
    match layer.kv_dtype {
        KvCacheDtype::Bf16 => PoolLayout::Strided { stride: layout.cache_stride as u64 },
        KvCacheDtype::Fp8 => PoolLayout::Fp8 { k_scale: s.k, v_scale: s.v, stride: layout.cache_stride as u64 },
        dtype => PoolLayout::Packed {
            block_stride: pool.block_stride_bytes as u64,
            data_bytes: packed_bytes(dtype, layout) as u64,
        },
    }
}

/// What precedes a cache write.
///
/// A decorrelating dtype transforms every head of every token of both rows
/// first. An eight-bit cache whose scales are still being calibrated observes
/// the rows first, unless the commands are being captured.
pub open spec fn lead_ops(layer: Qwen3AttentionLayer, w: CacheWrite) -> Seq<Op> {
    let heads = (w.num_kv_heads * w.num_tokens) as u32;
    if is_turbo(layer.kv_dtype) && transforms(layer, w.head_dim) {
        seq![
            Op::Wht { kernel: layer.wht_bf16_k, data: w.k, heads, head_dim: w.head_dim },
            Op::Wht { kernel: layer.wht_bf16_k, data: w.v, heads, head_dim: w.head_dim },
        ]
    } else if layer.kv_dtype == KvCacheDtype::Fp8 && !w.graph_capture && layer.fp8_calibration {
        seq![
            Op::Fp8Observe {
                layer: layer.attn_layer_idx,
                k: w.k,
                v: w.v,
                num_tokens: w.num_tokens,
                num_kv_heads: w.num_kv_heads,
                head_dim: w.head_dim,
            },
        ]
    } else {
        Seq::empty()
    }
}

/// The write itself.
pub open spec fn store_op(layer: Qwen3AttentionLayer, layout: KvLayout, w: CacheWrite, s: Fp8Scales) -> Op {
    let pool = layout.pools@[layer.attn_layer_idx as int];
    Op::ReshapeAndCache {
        kernel: layer.reshape_cache_k,
        k: w.k,
        v: w.v,
        k_pool: pool.k_pool,
        v_pool: pool.v_pool,
        slot: w.slot,
        num_tokens: w.num_tokens,
        num_kv_heads: w.num_kv_heads,
        head_dim: w.head_dim,
        block_size: w.block_size,
        key_stride: w.key_stride,
        value_stride: w.value_stride,
        layout: pool_layout(layer, layout, pool, s),
    }
}

/// The scales are asked for where the cache has any.
pub open spec fn ask_steps(layer: Qwen3AttentionLayer, s: Fp8Scales) -> Seq<Event> {
    if layer.kv_dtype == KvCacheDtype::Fp8 {
        seq![scales_step(layer.attn_layer_idx, s)]
    } else {
        Seq::empty()
    }
}

/// The program of a cache write. An eight-bit cache is written with the scales
/// that it has after the rows were observed.
#[verifier::opaque]
pub open spec fn write_steps(
    layer: Qwen3AttentionLayer,
    layout: KvLayout,
    w: CacheWrite,
    s: Fp8Scales,
    stream: u64,
) -> Seq<Event> {
    steps(lead_ops(layer, w), stream) + ask_steps(layer, s) + steps(seq![store_op(layer, layout, w, s)], stream)
}

pub open spec fn write_fits(layer: Qwen3AttentionLayer, layout: KvLayout, w: CacheWrite) -> bool {
    &&& layer.attn_layer_idx < layout.pools@.len()
    &&& is_turbo(layer.kv_dtype) && transforms(layer, w.head_dim) ==> w.num_kv_heads * w.num_tokens <= u32::MAX
}

fn build_lead(layer: &Qwen3AttentionLayer, w: &CacheWrite) -> (r: Vec<Op>)
    requires
        is_turbo(layer.kv_dtype) && transforms(*layer, w.head_dim) ==> w.num_kv_heads * w.num_tokens <= u32::MAX,
    ensures
        r@ == lead_ops(*layer, *w),
        all_fit(r@),
{
    let hd: u32 = w.head_dim;
    let mut ops: Vec<Op> = Vec::new();
    if check_turbo(layer.kv_dtype) && layer.wht_bf16_k.0 != 0 && (hd == 128 || hd == 256 || hd == 512) {
        let heads: u32 = w.num_kv_heads * w.num_tokens;
        ops.push(Op::Wht { kernel: layer.wht_bf16_k, data: w.k, heads, head_dim: hd });
        ops.push(Op::Wht { kernel: layer.wht_bf16_k, data: w.v, heads, head_dim: hd });
    } else if layer.kv_dtype == KvCacheDtype::Fp8 && !w.graph_capture && layer.fp8_calibration {
        ops.push(
            Op::Fp8Observe {
                layer: layer.attn_layer_idx,
                k: w.k,
                v: w.v,
                num_tokens: w.num_tokens,
                num_kv_heads: w.num_kv_heads,
                head_dim: w.head_dim,
            },
        );
    }
    assert(ops@ =~= lead_ops(*layer, *w));
    ops
}

fn make_store(layer: &Qwen3AttentionLayer, layout: &KvLayout, w: &CacheWrite, s: Fp8Scales) -> (r: Op)
    requires
        layer.attn_layer_idx < layout.pools@.len(),
    ensures
        r == store_op(*layer, *layout, *w, s),
{
    let pool = layout.pools[layer.attn_layer_idx];
    let place = match layer.kv_dtype {
        KvCacheDtype::Bf16 => PoolLayout::Strided { stride: layout.cache_stride as u64 },
        KvCacheDtype::Fp8 => PoolLayout::Fp8 { k_scale: s.k, v_scale: s.v, stride: layout.cache_stride as u64 },
        dtype => {
            let data_bytes: usize = match dtype {
                KvCacheDtype::Turbo8 => layout.turbo8_data_bytes,
                KvCacheDtype::Turbo3 => layout.turbo3_data_bytes,
                _ => layout.nvfp4_data_bytes,
            };
            PoolLayout::Packed { block_stride: pool.block_stride_bytes as u64, data_bytes: data_bytes as u64 }
        },
    };
    Op::ReshapeAndCache {
        kernel: layer.reshape_cache_k,
        k: w.k,
        v: w.v,
        k_pool: pool.k_pool,
        v_pool: pool.v_pool,
        slot: w.slot,
        num_tokens: w.num_tokens,
        num_kv_heads: w.num_kv_heads,
        head_dim: w.head_dim,
        block_size: w.block_size,
        key_stride: w.key_stride,
        value_stride: w.value_stride,
        layout: place,
    }
}

/// Asks for the scales, where the cache has any.
pub(crate) fn ask_scales<G: GpuBackend>(gpu: &mut G, layer: &Qwen3AttentionLayer) -> (r: Fp8Scales)
    ensures
        ran(old(gpu).trace(), ask_steps(*layer, r), final(gpu).trace(), None),
{
    if layer.kv_dtype == KvCacheDtype::Fp8 {
        gpu.effective_fp8_scales(layer.attn_layer_idx)
    } else {
        Fp8Scales { k: F32Bits(0), v: F32Bits(0) }
    }
}

impl Qwen3AttentionLayer {
    /// Writes keys and values to the cache.
    pub fn write_kv_cache<G: GpuBackend>(&self, gpu: &mut G, layout: &KvLayout, w: &CacheWrite, stream: u64) -> (r:
        Result<(), GpuError>)
        requires
            write_fits(*self, *layout, *w),
        ensures
            exists|s: Fp8Scales|
                ran(
                    old(gpu).trace(),
                    #[trigger] write_steps(*self, *layout, *w, s, stream),
                    final(gpu).trace(),
                    refusal(r),
                ),
    {
        reveal(write_steps);
        let ghost pre = gpu.trace();
        let lead = build_lead(self, w);
        let ghost s1 = steps(lead@, stream);
        if let Err(e) = run_ops(gpu, &lead, stream) {
            proof {
                let s = Fp8Scales { k: F32Bits(0), v: F32Bits(0) };
                let rest = ask_steps(*self, s) + steps(seq![store_op(*self, *layout, *w, s)], stream);
                assert(write_steps(*self, *layout, *w, s, stream) =~= s1 + rest);
                lemma_ran_cut(pre, s1, rest, gpu.trace(), e);
            }
            return Err(e);
        }
        let ghost m1 = gpu.trace();
        let s = ask_scales(gpu, self);
        let ghost m2 = gpu.trace();
        let ops = vec![make_store(self, layout, w, s)];
        assert(ops@ =~= seq![store_op(*self, *layout, *w, s)]);
        let r = run_ops(gpu, &ops, stream);
        proof {
            lemma_ran_then(pre, s1, m1, ask_steps(*self, s), m2, None);
            lemma_ran_then(pre, s1 + ask_steps(*self, s), m2, steps(ops@, stream), gpu.trace(), refusal(r));
            assert(ran(pre, write_steps(*self, *layout, *w, s, stream), gpu.trace(), refusal(r)));
        }
        r
    }
}

} // verus!
