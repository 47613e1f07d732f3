//! Attention of a later prefill chunk over the paged cache.

use vstd::prelude::*;

use crate::attention::Qwen3AttentionLayer;
use crate::attention_cache::{ask_scales, ask_steps, check_turbo, is_turbo, store_op, transforms, CacheWrite};
use crate::config::ForwardContext;
use crate::gpu::{at, DevicePtr, F32Bits, Fp8Scales, GpuError, KernelHandle};
use crate::kv_cache::{KvCacheDtype, KvLayout};
use crate::op::{CacheId, Op, PoolLayout};
use crate::run::{run_ops, steps};
use crate::trace::{
    done, lemma_ran_one, lemma_ran_prefix, lemma_ran_then, left, ran, refusal, tables, Cmd, Event,
    GpuBackend, Left, Reply, Tables,
};

verus! {

/// The arguments of one chunk.
#[derive(Clone, Copy, PartialEq, Eq, Structural, Debug)]
pub struct PagedAttnArgs {
    pub q_contiguous: DevicePtr,
    pub k_contiguous: DevicePtr,
    pub v_contiguous: DevicePtr,
    pub attn_out: DevicePtr,
    pub n: u32,
    pub seq_len_start: usize,
    pub num_tokens: usize,
    pub nq: u32,
    pub nkv: u32,
    pub hd: u32,
    /// Rows per cache block.
    pub bs: usize,
    /// Bytes of one element.
    pub bf16: usize,
    pub inv_sqrt_d: F32Bits,
    pub kv_len: u32,
    /// The block table on the device.
    pub block_table: DevicePtr,
    /// Older blocks are kept in the swap store.
    pub swap: bool,
    pub stream: u64,
}

/// What is left for the caller.
#[derive(Clone, Copy, PartialEq, Eq, Structural, Debug)]
pub enum PagedAttnOutcome {
    /// The output is complete at this address.
    EarlyReturn(DevicePtr),
    /// The output is still to be gated and projected.
    Continue,
}

#[derive(Clone, Copy, PartialEq, Eq, Structural, Debug)]
pub enum PrefillError {
    Gpu(GpuError),
    /// Wide heads take a BF16 cache in later chunks.
    WideHeadsNeedBf16 { layer: usize, seq_len_start: usize, kv_dtype: KvCacheDtype },
    /// The paged kernel for wide heads is not there.
    WideKernelMissing,
}

pub open spec fn window_of(l: Qwen3AttentionLayer) -> u32 {
    match l.sliding_window {
        Some(w) => w,
        None => 0,
    }
}

/// What the dispatch comes to where nothing is swapped out.
pub enum Dispatch {
    Run(Op),
    NeedsBf16,
    KernelMissing,
}

pub open spec fn paged_op(l: Qwen3AttentionLayer, layout: KvLayout, a: PagedAttnArgs, kernel: KernelHandle, place: PoolLayout) -> Op {
    let pool = layout.pools@[l.attn_layer_idx as int];
    Op::PrefillPaged {
        kernel,
        q: a.q_contiguous,
        k_pool: pool.k_pool,
        v_pool: pool.v_pool,
        out: a.attn_out,
        block_table: a.block_table,
        n: a.n,
        kv_len: a.kv_len,
        q_offset: a.seq_len_start as u32,
        nq: a.nq,
        nkv: a.nkv,
        hd: a.hd,
        block_size: a.bs as u32,
        window: window_of(l),
        scale: a.inv_sqrt_d,
        layout: place,
    }
}

/// Bytes of packed data per block of a four-bit or decorrelating cache.
pub open spec fn data_bytes(dtype: KvCacheDtype, layout: KvLayout) -> usize {
    match dtype {
        KvCacheDtype::Turbo3 => layout.turbo3_data_bytes,
        KvCacheDtype::Turbo8 => layout.turbo8_data_bytes,
        KvCacheDtype::Turbo4 => layout.turbo4_data_bytes,
        _ => layout.nvfp4_data_bytes,
    }
}

/// The kernel and pool layout for heads of ordinary width. Chunks of 256 rows or
/// more take the variant with larger tiles. Eight-bit rows are scaled by `s`.
pub open spec fn narrow_op(l: Qwen3AttentionLayer, layout: KvLayout, a: PagedAttnArgs, s: Fp8Scales) -> Op {
    let pool = layout.pools@[l.attn_layer_idx as int];
    let large = a.n >= 256;
    match l.kv_dtype {
        KvCacheDtype::Bf16 => paged_op(
            l,
            layout,
            a,
            if large { l.prefill_attn_paged_64_k } else { l.prefill_attn_paged_k },
            PoolLayout::Plain,
        ),
        KvCacheDtype::Fp8 => paged_op(
            l,
            layout,
            a,
            if large { l.prefill_attn_paged_fp8_64_k } else { l.prefill_attn_paged_fp8_k },
            PoolLayout::Fp8 { k_scale: s.k, v_scale: s.v, stride: layout.cache_stride as u64 },
        ),
        dtype => paged_op(
            l,
            layout,
            a,
            if large { l.prefill_attn_paged_nvfp4_64_k } else { l.prefill_attn_paged_nvfp4_k },
            PoolLayout::Packed {
                block_stride: pool.block_stride_bytes as u64,
                data_bytes: data_bytes(dtype, layout) as u64,
            },
        ),
    }
}

/// Heads wider than 256 have kernels of their own.
pub open spec fn is_narrow(l: Qwen3AttentionLayer, a: PagedAttnArgs) -> bool {
    a.hd <= 256 || (a.seq_len_start == 0 && l.prefill_attn_512_k.0 == 0)
}

/// The dispatch. Heads wider than 256 have a kernel of their own for the first
/// chunk, and another for later ones, which reads a BF16 cache only.
pub open spec fn dispatch(l: Qwen3AttentionLayer, layout: KvLayout, a: PagedAttnArgs, s: Fp8Scales) -> Dispatch {
    if a.hd > 256 && l.prefill_attn_512_k.0 != 0 && a.seq_len_start == 0 {
        Dispatch::Run(
            Op::PrefillAttention {
                kernel: l.prefill_attn_512_k,
                q: a.q_contiguous,
                k: a.k_contiguous,
                v: a.v_contiguous,
                out: a.attn_out,
                n: a.n,
                batch: 1,
                nq: a.nq,
                nkv: a.nkv,
                hd: a.hd,
                scale: a.inv_sqrt_d,
                causal: true,
                window: window_of(l),
            },
        )
    } else if a.hd > 256 && a.seq_len_start > 0 {
        if l.kv_dtype != KvCacheDtype::Bf16 {
            Dispatch::NeedsBf16
        } else if l.prefill_attn_paged_512_k.0 == 0 {
            Dispatch::KernelMissing
        } else {
            Dispatch::Run(paged_op(l, layout, a, l.prefill_attn_paged_512_k, PoolLayout::Plain))
        }
    } else {
        Dispatch::Run(narrow_op(l, layout, a, s))
    }
}

fn make_paged(
    l: &Qwen3AttentionLayer,
    layout: &KvLayout,
    a: &PagedAttnArgs,
    kernel: KernelHandle,
    place: PoolLayout,
) -> (r: Op)
    requires
        l.attn_layer_idx < layout.pools@.len(),
    ensures
        r == paged_op(*l, *layout, *a, kernel, place),
{
    let pool = layout.pools[l.attn_layer_idx];
    let window: u32 = match l.sliding_window {
        Some(w) => w,
        None => 0,
    };
    Op::PrefillPaged {
        kernel,
        q: a.q_contiguous,
        k_pool: pool.k_pool,
        v_pool: pool.v_pool,
        out: a.attn_out,
        block_table: a.block_table,
        n: a.n,
        kv_len: a.kv_len,
        q_offset: a.seq_len_start as u32,
        nq: a.nq,
        nkv: a.nkv,
        hd: a.hd,
        block_size: a.bs as u32,
        window,
        scale: a.inv_sqrt_d,
        layout: place,
    }
}

fn make_narrow(l: &Qwen3AttentionLayer, layout: &KvLayout, a: &PagedAttnArgs, s: Fp8Scales) -> (r: Op)
    requires
        l.attn_layer_idx < layout.pools@.len(),
    ensures
        r == narrow_op(*l, *layout, *a, s),
{
    let pool = layout.pools[l.attn_layer_idx];
    let large = a.n >= 256;
    match l.kv_dtype {
        KvCacheDtype::Bf16 => {
            let kernel = if large { l.prefill_attn_paged_64_k } else { l.prefill_attn_paged_k };
            make_paged(l, layout, a, kernel, PoolLayout::Plain)
        },
        KvCacheDtype::Fp8 => {
            let kernel = if large { l.prefill_attn_paged_fp8_64_k } else { l.prefill_attn_paged_fp8_k };
            let place = PoolLayout::Fp8 { k_scale: s.k, v_scale: s.v, stride: layout.cache_stride as u64 };
            make_paged(l, layout, a, kernel, place)
        },
        dtype => {
            let kernel = if large { l.prefill_attn_paged_nvfp4_64_k } else { l.prefill_attn_paged_nvfp4_k };
            let bytes: usize = match dtype {
                KvCacheDtype::Turbo3 => layout.turbo3_data_bytes,
                KvCacheDtype::Turbo8 => layout.turbo8_data_bytes,
                KvCacheDtype::Turbo4 => layout.turbo4_data_bytes,
                _ => layout.nvfp4_data_bytes,
            };
            let place = PoolLayout::Packed { block_stride: pool.block_stride_bytes as u64, data_bytes: bytes as u64 };
            make_paged(l, layout, a, kernel, place)
        },
    }
}

// ── attention over the swap store ──
/// The query rows and outputs lie one after the other.
pub open spec fn row_at(base: DevicePtr, a: PagedAttnArgs, row: int) -> DevicePtr {
    at(base, row * (a.nq * a.hd * a.bf16))
}

/// Attending query row `row`: over the blocks up to its own, as far as the store
/// holds them, with the rows of its block up to itself.
pub open spec fn swap_attend_step(l: Qwen3AttentionLayer, a: PagedAttnArgs, ids: Seq<u32>, row: int) -> Event {
    let pos = a.seq_len_start + row;
    let blocks = pos / (a.bs as int) + 1;
    done(
        Cmd::SwapAttend {
            layer: l.attn_layer_idx as u32,
            ids: ids.take(if blocks < ids.len() { blocks } else { ids.len() as int }),
            q: row_at(a.q_contiguous, a, row),
            out: row_at(a.attn_out, a, row),
            valid_slots: (pos % (a.bs as int) + 1) as usize as i32,
            stream: a.stream,
        },
    )
}

pub open spec fn swap_attend_steps(l: Qwen3AttentionLayer, a: PagedAttnArgs, ids: Seq<u32>) -> Seq<Event> {
    Seq::new(a.num_tokens as nat, |i: int| swap_attend_step(l, a, ids, i))
}

/// The transform of every head of every row, where the dtype calls for it.
pub open spec fn transform_ops(l: Qwen3AttentionLayer, a: PagedAttnArgs, data: DevicePtr) -> Seq<Op> {
    if is_turbo(l.kv_dtype) && transforms(l, a.hd) {
        seq![
            Op::Wht {
                kernel: l.wht_bf16_k,
                data,
                heads: (a.nq * (a.num_tokens as u32)) as u32,
                head_dim: a.hd,
            },
        ]
    } else {
        Seq::empty()
    }
}

pub open spec fn swap_out_step(
    l: Qwen3AttentionLayer,
    cache: CacheId,
    a: PagedAttnArgs,
    t: Tables,
    after: Left,
    ctx: ForwardContext,
) -> Event {
    Event {
        cmd: Cmd::SwapOut {
            layer: l.attn_layer_idx,
            cache,
            tables: t,
            num_kv_heads: a.nkv,
            head_dim: a.hd,
            block_size: a.bs,
            ctx,
            stream: a.stream,
        },
        reply: Reply::Left(after),
    }
}

/// The program where blocks are swapped out: what is new goes out first, and
/// every query row then attends over the store.
pub open spec fn swap_steps(
    l: Qwen3AttentionLayer,
    cache: CacheId,
    a: PagedAttnArgs,
    t: Tables,
    after: Left,
    ctx: ForwardContext,
) -> Seq<Event> {
    seq![swap_out_step(l, cache, a, t, after, ctx)] + steps(transform_ops(l, a, a.q_contiguous), a.stream)
        + swap_attend_steps(l, a, after.ids) + steps(transform_ops(l, a, a.attn_out), a.stream)
}

/// The chunk attends over the swap store.
pub open spec fn swaps(a: PagedAttnArgs) -> bool {
    a.seq_len_start > 0 && a.swap
}

/// The sizes of a chunk that attends over the swap store fit the machine's words.
pub open spec fn args_fit(l: Qwen3AttentionLayer, a: PagedAttnArgs) -> bool {
    swaps(a) ==> {
        &&& a.num_tokens > 0 ==> a.bs > 0 && a.seq_len_start + a.num_tokens <= usize::MAX
        &&& is_turbo(l.kv_dtype) && transforms(l, a.hd) ==> a.nq * (a.num_tokens as u32) <= u32::MAX
        &&& a.nq * a.hd * a.bf16 <= u64::MAX
        &&& a.num_tokens * (a.nq * a.hd * a.bf16) <= u64::MAX
    }
}

fn build_transform(l: &Qwen3AttentionLayer, a: &PagedAttnArgs, data: DevicePtr) -> (r: Vec<Op>)
    requires
        args_fit(*l, *a),
        swaps(*a),
    ensures
        r@ == transform_ops(*l, *a, data),
{
    let mut ops: Vec<Op> = Vec::new();
    if check_turbo(l.kv_dtype) && l.wht_bf16_k.0 != 0 && (a.hd == 128 || a.hd == 256 || a.hd == 512) {
        let heads: u32 = a.nq * (a.num_tokens as u32);
        ops.push(Op::Wht { kernel: l.wht_bf16_k, data, heads, head_dim: a.hd });
    }
    assert(ops@ =~= transform_ops(*l, *a, data));
    ops
}

/// Attends every query row over the swap store.
fn swap_attend_all<G: GpuBackend>(gpu: &mut G, l: &Qwen3AttentionLayer, a: &PagedAttnArgs, ids: &Vec<u32>) -> (r: Result<
    (),
    GpuError,
>)
    requires
        args_fit(*l, *a),
        swaps(*a),
    ensures
        ran(old(gpu).trace(), swap_attend_steps(*l, *a, ids@), final(gpu).trace(), refusal(r)),
{
    let ghost pre = gpu.trace();
    let ghost all = swap_attend_steps(*l, *a, ids@);
    assert(a.nq * a.hd <= 0xffff_ffff * 0xffff_ffff) by (nonlinear_arith)
        requires
            a.nq <= 0xffff_ffff,
            a.hd <= 0xffff_ffff,
    ;
    let row_bytes: u64 = a.nq as u64 * a.hd as u64 * a.bf16 as u64;
    let mut i: usize = 0;
    assert(pre =~= pre + all.take(0));
    while i < a.num_tokens
        invariant
            i <= a.num_tokens,
            args_fit(*l, *a),
            swaps(*a),
            row_bytes == a.nq * a.hd * a.bf16,
            all == swap_attend_steps(*l, *a, ids@),
            ran(pre, all.take(i as int), gpu.trace(), None),
            pre == old(gpu).trace(),
        decreases a.num_tokens - i,
    {
        assert(i * row_bytes <= a.num_tokens * row_bytes) by (nonlinear_arith)
            requires
                i < a.num_tokens,
                row_bytes >= 0,
        ;
        let ghost mid = gpu.trace();
        let pos: usize = a.seq_len_start + i;
        let blocks: usize = pos / a.bs + 1;
        let n: usize = if blocks < ids.len() { blocks } else { ids.len() };
        let slots: i32 = (pos % a.bs + 1) as i32;
        let part = vstd::slice::slice_subrange(ids.as_slice(), 0, n);
        assert(part@ =~= ids@.take(n as int));
        let r = gpu.swap_attend(
            l.attn_layer_idx as u32,
            part,
            a.q_contiguous.advance(i as u64 * row_bytes),
            a.attn_out.advance(i as u64 * row_bytes),
            slots,
            a.stream,
        );
        proof {
            let this = swap_attend_step(*l, *a, ids@, i as int);
            lemma_ran_one(mid, this, gpu.trace(), refusal(r));
            lemma_ran_then(pre, all.take(i as int), mid, seq![this], gpu.trace(), refusal(r));
            assert(all.take(i + 1) =~= all.take(i as int) + seq![this]);
            if let Err(e) = r {
                assert(all.take(i + 1).len() == i + 1);
                lemma_ran_prefix(pre, all.take(i + 1), all, gpu.trace(), e);
            }
        }
        if r.is_err() {
            return r;
        }
        i += 1;
    }
    assert(all.take(i as int) =~= all);
    Ok(())
}

impl Qwen3AttentionLayer {
    /// Attention of a chunk whose older blocks are in the swap store. The ids of
    /// the sequence's blocks there, and how far its layers have gone, are brought
    /// up to date.
    fn swap_attention<G: GpuBackend>(
        &self,
        gpu: &mut G,
        cache: CacheId,
        a: &PagedAttnArgs,
        blocks: &Vec<u32>,
        disk_block_ids: &mut Vec<u32>,
        disk_last_offloaded_per_layer: &mut Vec<u32>,
        ctx: &ForwardContext,
    ) -> (r: Result<(), GpuError>)
        requires
            args_fit(*self, *a),
            swaps(*a),
        ensures
            ran(
                old(gpu).trace(),
                swap_steps(
                    *self,
                    cache,
                    *a,
                    tables(blocks@, old(disk_block_ids)@, old(disk_last_offloaded_per_layer)@),
                    left(final(disk_block_ids)@, final(disk_last_offloaded_per_layer)@),
                    *ctx,
                ),
                final(gpu).trace(),
                refusal(r),
            ),
    {
        let ghost pre = gpu.trace();
        let ghost t = tables(blocks@, disk_block_ids@, disk_last_offloaded_per_layer@);
        let out = gpu.swap_out(
            self.attn_layer_idx,
            cache,
            blocks,
            disk_block_ids,
            disk_last_offloaded_per_layer,
            a.nkv,
            a.hd,
            a.bs,
            ctx,
            a.stream,
        );
        let ghost after = left(disk_block_ids@, disk_last_offloaded_per_layer@);
        let ghost all = swap_steps(*self, cache, *a, t, after, *ctx);
        let ghost s1 = seq![swap_out_step(*self, cache, *a, t, after, *ctx)];
        if let Err(e) = out {
            proof {
                lemma_ran_one(pre, s1[0], gpu.trace(), Some(e));
                assert(seq![s1[0]] =~= s1);
                assert(all.take(1) =~= s1);
                lemma_ran_prefix(pre, s1, all, gpu.trace(), e);
            }
            return Err(e);
        }
        proof {
            lemma_ran_one(pre, s1[0], gpu.trace(), None);
            assert(seq![s1[0]] =~= s1);
        }
        let ghost m1 = gpu.trace();
        let first = build_transform(self, a, a.q_contiguous);
        let ghost s2 = s1 + steps(first@, a.stream);
        let turned = run_ops(gpu, &first, a.stream);
        proof {
            lemma_ran_then(pre, s1, m1, steps(first@, a.stream), gpu.trace(), refusal(turned));
        }
        if let Err(e) = turned {
            proof {
                assert(all.take(s2.len() as int) =~= s2);
                lemma_ran_prefix(pre, s2, all, gpu.trace(), e);
            }
            return Err(e);
        }
        let ghost m2 = gpu.trace();
        let ghost s3 = s2 + swap_attend_steps(*self, *a, after.ids);
        let attended = swap_attend_all(gpu, self, a, disk_block_ids);
        proof {
            lemma_ran_then(pre, s2, m2, swap_attend_steps(*self, *a, after.ids), gpu.trace(), refusal(attended));
        }
        if let Err(e) = attended {
            proof {
                assert(all.take(s3.len() as int) =~= s3);
                lemma_ran_prefix(pre, s3, all, gpu.trace(), e);
            }
            return Err(e);
        }
        let ghost m3 = gpu.trace();
        let last = build_transform(self, a, a.attn_out);
        let r = run_ops(gpu, &last, a.stream);
        proof {
            lemma_ran_then(pre, s3, m3, steps(last@, a.stream), gpu.trace(), refusal(r));
            assert(all =~= s3 + steps(last@, a.stream));
        }
        r
    }

    /// Runs the attention of a chunk.
    pub fn prefill_attention_paged_attn<G: GpuBackend>(
        &self,
        gpu: &mut G,
        layout: &KvLayout,
        a: &PagedAttnArgs,
        blocks: &Vec<u32>,
        disk_block_ids: &mut Vec<u32>,
        disk_last_offloaded_per_layer: &mut Vec<u32>,
        ctx: &ForwardContext,
    ) -> (r: Result<PagedAttnOutcome, PrefillError>)
        requires
            args_fit(*self, *a),
            self.attn_layer_idx < layout.pools@.len(),
        ensures
            paged_outcome(
                *self,
                *layout,
                *a,
                tables(blocks@, old(disk_block_ids)@, old(disk_last_offloaded_per_layer)@),
                left(final(disk_block_ids)@, final(disk_last_offloaded_per_layer)@),
                *ctx,
                old(gpu).trace(),
                final(gpu).trace(),
                r,
            ),
    {
        let ghost pre = gpu.trace();
        if a.seq_len_start > 0 && a.swap {
            let cache = layout.cache;
            let r = self.swap_attention(gpu, cache, a, blocks, disk_block_ids, disk_last_offloaded_per_layer, ctx);
            return match r {
                Ok(_) => Ok(PagedAttnOutcome::EarlyReturn(a.attn_out)),
                Err(e) => Err(PrefillError::Gpu(e)),
            };
        }
        let mut s = Fp8Scales { k: F32Bits(0), v: F32Bits(0) };
        let op = if a.hd > 256 && self.prefill_attn_512_k.0 != 0 && a.seq_len_start == 0 {
            let window: u32 = match self.sliding_window {
                Some(w) => w,
                None => 0,
            };
            Op::PrefillAttention {
                kernel: self.prefill_attn_512_k,
                q: a.q_contiguous,
                k: a.k_contiguous,
                v: a.v_contiguous,
                out: a.attn_out,
                n: a.n,
                batch: 1,
                nq: a.nq,
                nkv: a.nkv,
                hd: a.hd,
                scale: a.inv_sqrt_d,
                causal: true,
                window,
            }
        } else if a.hd > 256 && a.seq_len_start > 0 {
            if self.kv_dtype != KvCacheDtype::Bf16 {
                let r: Result<PagedAttnOutcome, PrefillError> = Err(
                    PrefillError::WideHeadsNeedBf16 {
                        layer: self.attn_layer_idx,
                        seq_len_start: a.seq_len_start,
                        kv_dtype: self.kv_dtype,
                    },
                );
                assert(unswapped(*self, *layout, *a, s, pre, gpu.trace(), r));
                return r;
            }
            if self.prefill_attn_paged_512_k.0 == 0 {
                let r: Result<PagedAttnOutcome, PrefillError> = Err(PrefillError::WideKernelMissing);
                assert(unswapped(*self, *layout, *a, s, pre, gpu.trace(), r));
                return r;
            }
            make_paged(self, layout, a, self.prefill_attn_paged_512_k, PoolLayout::Plain)
        } else {
            s = ask_scales(gpu, self);
            make_narrow(self, layout, a, s)
        };
        let ghost asked = asked_steps(*self, *a, s);
        let ghost mid = gpu.trace();
        assert(ran(pre, asked, mid, None));
        assert(dispatch(*self, *layout, *a, s) == Dispatch::Run(op));
        let ops = vec![op];
        assert(ops@ =~= seq![op]);
        let ran_op = run_ops(gpu, &ops, a.stream);
        proof {
            lemma_ran_then(pre, asked, mid, steps(ops@, a.stream), gpu.trace(), refusal(ran_op));
        }
        match ran_op {
            Ok(_) => {
                assert(unswapped(*self, *layout, *a, s, pre, gpu.trace(), Ok(PagedAttnOutcome::Continue)));
                Ok(PagedAttnOutcome::Continue)
            },
            Err(e) => {
                assert(unswapped(*self, *layout, *a, s, pre, gpu.trace(), Err(PrefillError::Gpu(e))));
                Err(PrefillError::Gpu(e))
            },
        }
    }
}

/// The scales are asked for where a kernel for heads of ordinary width reads
/// eight-bit rows.
pub open spec fn asked_steps(l: Qwen3AttentionLayer, a: PagedAttnArgs, s: Fp8Scales) -> Seq<Event> {
    if is_narrow(l, a) {
        ask_steps(l, s)
    } else {
        Seq::empty()
    }
}

/// What running a chunk does and says where nothing is swapped out and the cache
/// has the scales `s`.
pub open spec fn unswapped(
    l: Qwen3AttentionLayer,
    layout: KvLayout,
    a: PagedAttnArgs,
    s: Fp8Scales,
    pre: Seq<Event>,
    post: Seq<Event>,
    r: Result<PagedAttnOutcome, PrefillError>,
) -> bool {
    match dispatch(l, layout, a, s) {
        Dispatch::NeedsBf16 => post == pre && r == Err::<PagedAttnOutcome, PrefillError>(
            PrefillError::WideHeadsNeedBf16 {
                layer: l.attn_layer_idx,
                seq_len_start: a.seq_len_start,
                kv_dtype: l.kv_dtype,
            },
        ),
        Dispatch::KernelMissing => post == pre && r == Err::<PagedAttnOutcome, PrefillError>(
            PrefillError::WideKernelMissing,
        ),
        Dispatch::Run(op) => {
            let all = asked_steps(l, a, s) + steps(seq![op], a.stream);
            match r {
                Ok(outcome) => outcome == PagedAttnOutcome::Continue && ran(pre, all, post, None),
                Err(PrefillError::Gpu(e)) => ran(pre, all, post, Some(e)),
                Err(_) => false,
            }
        },
    }
}

/// What running a chunk does and says.
pub open spec fn paged_outcome(
    l: Qwen3AttentionLayer,
    layout: KvLayout,
    a: PagedAttnArgs,
    t: Tables,
    kept: Left,
    ctx: ForwardContext,
    pre: Seq<Event>,
    post: Seq<Event>,
    r: Result<PagedAttnOutcome, PrefillError>,
) -> bool {
    if swaps(a) {
        match r {
            Ok(outcome) => {
                &&& outcome == PagedAttnOutcome::EarlyReturn(a.attn_out)
                &&& ran(pre, swap_steps(l, layout.cache, a, t, kept, ctx), post, None)
            },
            Err(PrefillError::Gpu(e)) => ran(pre, swap_steps(l, layout.cache, a, t, kept, ctx), post, Some(e)),
            Err(_) => false,
        }
    } else {
        &&& kept == left(t.ids, t.cursors)
        &&& exists|s: Fp8Scales| #[trigger] unswapped(l, layout, a, s, pre, post, r)
    }
}

// ── law ──
/// A chunk is read from the pools that it was written to, and in the same layout,
/// where the two four-bit dtypes have the same number of data bytes per block,
/// and where the scales of an eight-bit cache have not changed in between. A BF16
/// pool is read without a layout of its own.
pub proof fn chunks_are_read_where_they_were_written(
    l: Qwen3AttentionLayer,
    layout: KvLayout,
    a: PagedAttnArgs,
    w: CacheWrite,
    s: Fp8Scales,
)
    requires
        layout.turbo4_data_bytes == layout.nvfp4_data_bytes,
    ensures
        store_op(l, layout, w, s) matches Op::ReshapeAndCache { k_pool, v_pool, layout: written, .. } && narrow_op(
            l,
            layout,
            a,
            s,
        ) matches Op::PrefillPaged { k_pool: rk, v_pool: rv, layout: read, .. } && {
            &&& rk == k_pool
            &&& rv == v_pool
            &&& l.kv_dtype != KvCacheDtype::Bf16 ==> read == written
        },
{
}

} // verus!
