//! The block drafter: its ring caches and its construction.
//!
//! The drafter runs a block of tokens through several stages, each a layer body
//! of the target with windowed sparse attention in place of its own, and emits
//! the token of the block's first position. Every stage keeps the projected
//! rows of the last `window` committed tokens in a ring: the row of position
//! `p` lies at slot `p % window`. See [`crate::dspark_stage`] for the forward.

use vstd::prelude::*;

use crate::attention::DsparkStage;
use crate::config::ModelConfig;
use crate::gpu::{DenseWeight, DevicePtr, F32Bits, GpuError, KernelHandle};
use crate::mtp::HcHeadWeights;
use crate::op::{EmptyLayerState, LayerKind, LayerState, Op};
use crate::run::{
    alloc_step, go_alloc, go_ops, go_put, kernel_names, lookup_kernels, lookup_steps, put_step, run_ops,
    state_step, steps,
};
use crate::trace::{
    lemma_ran_prefix, lemma_ran_stopped, lemma_ran_then, ran, refusal, stopped_at, Event, GpuBackend,
};

verus! {

/// The ring slot of a position.
pub fn ring_slot(position: usize, window: usize) -> (r: usize)
    requires
        window > 0,
    ensures
        r == position as int % window as int,
        r < window,
{
    position % window
}

/// Leading rows of a stored segment that stay when `rejected` trailing ones are
/// given up. At least one row of a segment always stays.
pub open spec fn valid_len(seg_len: int, rejected: int) -> int {
    if seg_len == 0 {
        0
    } else if seg_len - rejected < 1 {
        1
    } else {
        seg_len - rejected
    }
}

pub fn ring_valid_len(seg_len: usize, rejected: usize) -> (r: usize)
    ensures
        r == valid_len(seg_len as int, rejected as int),
        r <= seg_len,
{
    if seg_len == 0 {
        return 0;
    }
    let left: usize = seg_len.saturating_sub(rejected);
    if left < 1 {
        1
    } else {
        left
    }
}

/// One stage's ring: `max_seqs` sequences of `window` rows of `head_dim` BF16
/// elements.
#[derive(Clone, Copy, PartialEq, Eq, Structural, Debug)]
pub struct DsparkMainKvCache {
    pub buf: DevicePtr,
    pub window: usize,
    pub head_dim: usize,
    pub max_seqs: usize,
    /// Bytes of the whole ring.
    pub bytes: usize,
}

pub open spec fn ring_bytes(window: int, head_dim: int, max_seqs: int) -> int {
    max_seqs * window * head_dim * 2
}

/// The offset of a row in a ring.
pub open spec fn ring_offset(c: DsparkMainKvCache, seq_row: int, slot: int) -> int {
    (seq_row * c.window + slot) * c.head_dim * 2
}

/// What setting up a ring puts in the trace.
pub open spec fn ring_new_steps(bytes: usize, buf: DevicePtr) -> Seq<Event> {
    seq![alloc_step(bytes as int, buf)] + steps(seq![Op::Memset { ptr: buf, value: 0, bytes }], 0)
}

impl DsparkMainKvCache {
    pub open spec fn wf(self) -> bool {
        self.bytes == ring_bytes(self.window as int, self.head_dim as int, self.max_seqs as int)
    }

    /// Allocates a ring and zeroes it.
    pub fn new<G: GpuBackend>(gpu: &mut G, window: usize, head_dim: usize, max_seqs: usize) -> (r: Result<Self, GpuError>)
        requires
            ring_bytes(window as int, head_dim as int, max_seqs as int) <= usize::MAX,
            max_seqs * window <= usize::MAX,
            max_seqs * window * head_dim <= usize::MAX,
        ensures
            match r {
                Ok(c) => {
                    &&& c.wf()
                    &&& c.window == window && c.head_dim == head_dim && c.max_seqs == max_seqs
                    &&& ran(old(gpu).trace(), ring_new_steps(c.bytes, c.buf), final(gpu).trace(), None)
                },
                Err(e) => exists|buf: DevicePtr|
                    ran(
                        old(gpu).trace(),
                        #[trigger] ring_new_steps(
                            ring_bytes(window as int, head_dim as int, max_seqs as int) as usize,
                            buf,
                        ),
                        final(gpu).trace(),
                        Some(e),
                    ),
            },
    {
        let ghost pre = gpu.trace();
        let ghost s0 = Seq::<Event>::empty();
        assert(pre =~= pre + s0);
        let bytes: usize = max_seqs * window * head_dim * 2;
        let buf = match go_alloc(gpu, bytes, Ghost(pre), Ghost(s0)) {
            Ok(p) => p,
            Err(e) => {
                proof {
                    let null = DevicePtr(0);
                    let s1 = s0 + seq![alloc_step(bytes as int, null)];
                    let all = ring_new_steps(bytes, null);
                    assert(all.take(s1.len() as int) =~= s1);
                    lemma_ran_prefix(pre, s1, all, gpu.trace(), e);
                }
                return Err(e);
            },
        };
        let ops = vec![Op::Memset { ptr: buf, value: 0, bytes }];
        let ghost s1 = s0 + seq![alloc_step(bytes as int, buf)];
        assert(ops@ =~= seq![Op::Memset { ptr: buf, value: 0, bytes }]);
        let r = go_ops(gpu, &ops, 0, Ghost(pre), Ghost(s1));
        assert(ring_new_steps(bytes, buf) =~= s1 + steps(ops@, 0));
        match r {
            Ok(_) => Ok(DsparkMainKvCache { buf, window, head_dim, max_seqs, bytes }),
            Err(e) => Err(e),
        }
    }

    /// The byte offset of a row.
    pub fn row_offset(&self, seq_row: usize, slot: usize) -> (r: usize)
        requires
            seq_row * self.window + slot <= usize::MAX,
            (seq_row * self.window + slot) * self.head_dim <= usize::MAX,
            ring_offset(*self, seq_row as int, slot as int) <= usize::MAX,
        ensures
            r == ring_offset(*self, seq_row as int, slot as int),
    {
        assert(seq_row * self.window <= seq_row * self.window + slot);
        (seq_row * self.window + slot) * self.head_dim * 2
    }

    /// Zeroes the ring.
    pub fn reset<G: GpuBackend>(&self, gpu: &mut G) -> (r: Result<(), GpuError>)
        ensures
            ran(old(gpu).trace(), steps(seq![reset_op(*self)], 0), final(gpu).trace(), refusal(r)),
    {
        let ops = vec![Op::Memset { ptr: self.buf, value: 0, bytes: self.bytes }];
        assert(ops@ =~= seq![reset_op(*self)]);
        run_ops(gpu, &ops, 0)
    }
}

pub open spec fn reset_op(c: DsparkMainKvCache) -> Op {
    Op::Memset { ptr: c.buf, value: 0, bytes: c.bytes }
}

/// Every row of a ring lies inside it, and rows of different places are apart by
/// at least one row.
pub proof fn ring_rows_are_disjoint(c: DsparkMainKvCache, seq_row: nat, slot: nat, other_row: nat, other_slot: nat)
    requires
        c.wf(),
        seq_row < c.max_seqs,
        other_row < c.max_seqs,
        slot < c.window,
        other_slot < c.window,
    ensures
        0 <= ring_offset(c, seq_row as int, slot as int),
        ring_offset(c, seq_row as int, slot as int) + c.head_dim * 2 <= c.bytes,
        seq_row < other_row || (seq_row == other_row && slot < other_slot) ==> ring_offset(
            c,
            seq_row as int,
            slot as int,
        ) + c.head_dim * 2 <= ring_offset(c, other_row as int, other_slot as int),
{
    let w = c.window as int;
    let d = c.head_dim as int;
    let m = c.max_seqs as int;
    let i = seq_row * w + slot;
    let j = other_row * w + other_slot;
    assert(0 <= i && i + 1 <= m * w) by (nonlinear_arith)
        requires
            i == seq_row * w + slot,
            0 <= seq_row < m,
            0 <= slot < w,
    ;
    assert(0 <= i * d * 2 && i * d * 2 + d * 2 <= m * w * d * 2) by (nonlinear_arith)
        requires
            0 <= i,
            i + 1 <= m * w,
            d >= 0,
    ;
    if seq_row < other_row || (seq_row == other_row && slot < other_slot) {
        assert(i + 1 <= j) by (nonlinear_arith)
            requires
                i == seq_row * w + slot,
                j == other_row * w + other_slot,
                0 <= slot < w,
                0 <= other_slot < w,
                seq_row < other_row || (seq_row == other_row && slot < other_slot),
        ;
        assert(i * d * 2 + d * 2 <= j * d * 2) by (nonlinear_arith)
            requires
                i + 1 <= j,
                d >= 0,
        ;
    }
}

/// Positions of one window have different slots, and a slot comes round again
/// after exactly one window.
pub proof fn ring_slots_come_round(p: nat, q: nat, window: nat)
    requires
        window > 0,
        p < q,
    ensures
        q - p < window ==> p as int % window as int != q as int % window as int,
        (p + window) as int % window as int == p as int % window as int,
{
    if q - p < window {
        vstd::arithmetic::div_mod::lemma_fundamental_div_mod(p as int, window as int);
        vstd::arithmetic::div_mod::lemma_fundamental_div_mod(q as int, window as int);
        if p as int % window as int == q as int % window as int {
            let a = p as int / window as int;
            let b = q as int / window as int;
            assert(false) by (nonlinear_arith)
                requires
                    p == window * a + p as int % window as int,
                    q == window * b + q as int % window as int,
                    p as int % window as int == q as int % window as int,
                    p < q,
                    q - p < window,
                    window > 0,
            ;
        }
    }
    vstd::arithmetic::div_mod::lemma_mod_add_multiples_vanish(p as int, window as int);
}

/// What the drafter keeps per sequence.
pub struct DeepseekV4DSparkProposerState {
    /// Committed tokens of the sequence.
    pub main_kv_pos: usize,
    /// Drafts of the last proposal.
    pub last_num_drafted: usize,
    /// One state per stage.
    pub body_states: Vec<LayerState>,
}

/// The loaded drafter: its stages and heads.
pub struct DeepseekV4DSparkModule {
    /// The stages, in draft order.
    pub stages: Vec<DsparkStage>,
    /// Folds the stack of target rows into the block input.
    pub main_proj: DenseWeight,
    pub main_norm: DenseWeight,
    pub norm: DenseWeight,
    pub markov_w1: DenseWeight,
    pub markov_w2: DenseWeight,
    pub confidence_proj: DenseWeight,
    /// The collapse after the last stage.
    pub hc_head: Option<HcHeadWeights>,
}

/// Kernels of the drafter.
#[derive(Clone, Copy, PartialEq, Eq, Structural, Debug)]
pub struct DsparkKernels {
    pub rms_norm_k: KernelHandle,
    pub dense_gemv_k: KernelHandle,
    pub residual_add_k: KernelHandle,
    pub hc_expand_k: KernelHandle,
    pub hc_head_k: KernelHandle,
    pub argmax_k: KernelHandle,
    pub hc_pre_k: KernelHandle,
    pub hc_post_k: KernelHandle,
    pub dspark_attn_k: KernelHandle,
    pub rope_fwd_k: KernelHandle,
    pub rope_inv_k: KernelHandle,
    pub extract_k: KernelHandle,
    pub writeback_k: KernelHandle,
}

pub open spec fn dspark_kernels(k: Seq<KernelHandle>) -> DsparkKernels {
    DsparkKernels {
        rms_norm_k: k[0],
        dense_gemv_k: k[1],
        residual_add_k: k[2],
        hc_expand_k: k[3],
        hc_head_k: k[4],
        argmax_k: k[5],
        hc_pre_k: k[6],
        hc_post_k: k[7],
        dspark_attn_k: k[8],
        rope_fwd_k: k[9],
        rope_inv_k: k[10],
        extract_k: k[11],
        writeback_k: k[12],
    }
}

/// The drafter.
pub struct DeepseekV4DSparkHead {
    pub module: DeepseekV4DSparkModule,
    /// The token embedding table, shared with the target.
    pub embed_tokens: DenseWeight,
    /// The language-model head, shared with the target.
    pub lm_head: DenseWeight,
    pub mtp_vocab_size: u32,
    /// Tokens of a draft block.
    pub block_size: usize,
    /// Fills the block behind its first token.
    pub noise_token_id: u32,
    /// One ring per stage; none where the window is zero.
    pub main_kv_caches: Vec<DsparkMainKvCache>,
    /// Attention heads and output groups over all ranks.
    pub drafter_nq: u32,
    pub drafter_o_groups: u32,
    /// The factor on the attention scores.
    pub softmax_scale: F32Bits,
    pub kernels: DsparkKernels,
    /// Ones, for a norm without weights.
    pub q_headnorm_ones: DenseWeight,
    /// The confidence of the last proposal, before the sigmoid.
    pub last_conf: Option<F32Bits>,
}

/// Head and group counts of a drafter that runs complete on one rank: those of
/// the model over all its ranks.
pub open spec fn head_counts(config: ModelConfig) -> (int, int) {
    (config.num_attention_heads * config.tp_world_size, config.o_groups * config.tp_world_size)
}

pub fn drafter_head_counts(config: &ModelConfig) -> (r: (u32, u32))
    requires
        head_counts(*config).0 <= u32::MAX,
        head_counts(*config).1 <= u32::MAX,
    ensures
        r.0 == head_counts(*config).0,
        r.1 == head_counts(*config).1,
{
    ((config.num_attention_heads * config.tp_world_size) as u32, (config.o_groups * config.tp_world_size) as u32)
}

/// The kernels of the drafter, in the order in which they are looked up.
pub open spec fn dspark_kernel_names() -> Seq<(Seq<char>, Seq<char>)> {
    seq![
        ("rms_norm_vanilla"@, "rms_norm_vanilla"@),
        ("gemv"@, "dense_gemv_bf16"@),
        ("residual_add"@, "bf16_residual_add"@),
        ("hyper_connection"@, "hc_expand"@),
        ("hyper_connection"@, "hc_head"@),
        ("argmax"@, "argmax_bf16"@),
        ("hyper_connection"@, "hc_pre"@),
        ("hyper_connection"@, "hc_post"@),
        ("dspark_sparse_attention"@, "dspark_sparse_attention"@),
        ("rope"@, "rope_forward_yarn_interleaved"@),
        ("rope"@, "rope_forward_yarn_interleaved_inv"@),
        ("mla_absorbed"@, "mla_q_rope_extract_batched"@),
        ("mla_absorbed"@, "mla_q_rope_writeback_batched"@),
    ]
}

/// `n` ones in BF16.
pub open spec fn bf16_ones(n: nat) -> Seq<u8> {
    Seq::new(2 * n, |i: int| if i % 2 == 0 { 0x80u8 } else { 0x3fu8 })
}

/// Setting up rings one after the other.
pub open spec fn rings_steps(bytes: usize, bufs: Seq<DevicePtr>) -> Seq<Event>
    decreases bufs.len(),
{
    if bufs.len() == 0 {
        Seq::empty()
    } else {
        rings_steps(bytes, bufs.drop_last()) + ring_new_steps(bytes, bufs.last())
    }
}

/// What making a drafter puts in the trace: its rings, its kernels, and the ones
/// of its weightless norm.
pub open spec fn dspark_new_steps(
    bytes: usize,
    head_dim: usize,
    bufs: Seq<DevicePtr>,
    handles: Seq<KernelHandle>,
    ones: DevicePtr,
) -> Seq<Event> {
    rings_steps(bytes, bufs) + lookup_steps(dspark_kernel_names(), handles) + seq![
        alloc_step(head_dim * 2, ones),
        put_step(bf16_ones(head_dim as nat), ones),
    ]
}

proof fn lemma_rings_go_on(bytes: usize, a: Seq<DevicePtr>, b: Seq<DevicePtr>) -> (rest: Seq<Event>)
    ensures
        rings_steps(bytes, a + b) == rings_steps(bytes, a) + rest,
    decreases b.len(),
{
    if b.len() == 0 {
        assert(a + b =~= a);
        assert(rings_steps(bytes, a) + Seq::<Event>::empty() =~= rings_steps(bytes, a));
        Seq::empty()
    } else {
        let before = lemma_rings_go_on(bytes, a, b.drop_last());
        assert((a + b).drop_last() =~= a + b.drop_last());
        let last = ring_new_steps(bytes, b.last());
        assert(rings_steps(bytes, a) + before + last =~= rings_steps(bytes, a) + (before + last));
        before + last
    }
}

/// The rings are as `new` set them up.
pub open spec fn rings_made(rings: Seq<DsparkMainKvCache>, bytes: int, window: int, head_dim: int, bufs: Seq<DevicePtr>) -> bool {
    &&& rings.len() == bufs.len()
    &&& forall|i: int|
        0 <= i < rings.len() ==> {
            &&& (#[trigger] rings[i]).buf == bufs[i]
            &&& rings[i].window == window
            &&& rings[i].head_dim == head_dim
            &&& rings[i].max_seqs == 1
            &&& rings[i].bytes == bytes
        }
}

/// Sets up `n` rings for one sequence.
fn make_rings<G: GpuBackend>(gpu: &mut G, n: usize, window: usize, head_dim: usize) -> (r: Result<
    Vec<DsparkMainKvCache>,
    GpuError,
>)
    requires
        ring_bytes(window as int, head_dim as int, 1) <= usize::MAX,
    ensures
        match r {
            Ok(rings) => exists|bufs: Seq<DevicePtr>|
                {
                    &&& bufs.len() == n
                    &&& ran(
                        old(gpu).trace(),
                        #[trigger] rings_steps(ring_bytes(window as int, head_dim as int, 1) as usize, bufs),
                        final(gpu).trace(),
                        None,
                    )
                    &&& rings_made(
                        rings@,
                        ring_bytes(window as int, head_dim as int, 1),
                        window as int,
                        head_dim as int,
                        bufs,
                    )
                },
            Err(e) => exists|bufs: Seq<DevicePtr>|
                bufs.len() == n && ran(
                    old(gpu).trace(),
                    #[trigger] rings_steps(ring_bytes(window as int, head_dim as int, 1) as usize, bufs),
                    final(gpu).trace(),
                    Some(e),
                ),
        },
{
    let ghost pre = gpu.trace();
    let ghost bytes = ring_bytes(window as int, head_dim as int, 1) as usize;
    let mut rings: Vec<DsparkMainKvCache> = Vec::new();
    let ghost mut bufs: Seq<DevicePtr> = Seq::empty();
    let mut i: usize = 0;
    proof {
        assert(pre =~= pre + rings_steps(bytes, bufs));
        assert(1 * window * head_dim <= ring_bytes(window as int, head_dim as int, 1)) by (nonlinear_arith)
            requires
                ring_bytes(window as int, head_dim as int, 1) == 1 * window * head_dim * 2,
        ;
    }
    while i < n
        invariant
            i <= n,
            pre == old(gpu).trace(),
            bytes == ring_bytes(window as int, head_dim as int, 1),
            1 * window * head_dim <= usize::MAX,
            bufs.len() == i,
            ran(pre, rings_steps(bytes, bufs), gpu.trace(), None),
            rings_made(rings@, bytes as int, window as int, head_dim as int, bufs),
        decreases n - i,
    {
        let ghost mid = gpu.trace();
        match DsparkMainKvCache::new(gpu, window, head_dim, 1) {
            Ok(ring) => {
                rings.push(ring);
                proof {
                    let before = bufs;
                    bufs = bufs.push(ring.buf);
                    assert(bufs.drop_last() =~= before);
                    lemma_ran_then(pre, rings_steps(bytes, before), mid, ring_new_steps(bytes, ring.buf), gpu.trace(), None);
                }
                i += 1;
            },
            Err(e) => {
                proof {
                    let buf = choose|buf: DevicePtr| ran(mid, #[trigger] ring_new_steps(bytes, buf), gpu.trace(), Some(e));
                    let upto = bufs.push(buf);
                    assert(upto.drop_last() =~= bufs);
                    let pad = Seq::new((n - i - 1) as nat, |j: int| DevicePtr(0));
                    let rest = lemma_rings_go_on(bytes, upto, pad);
                    lemma_ran_then(pre, rings_steps(bytes, bufs), mid, ring_new_steps(bytes, buf), gpu.trace(), Some(e));
                    let all = rings_steps(bytes, upto + pad);
                    let s = rings_steps(bytes, upto);
                    assert(all.take(s.len() as int) =~= s);
                    lemma_ran_prefix(pre, s, all, gpu.trace(), e);
                }
                return Err(e);
            },
        }
    }
    Ok(rings)
}

fn make_ones(n: usize) -> (r: Vec<u8>)
    requires
        n * 2 <= usize::MAX,
    ensures
        r@ == bf16_ones(n as nat),
{
    let mut v: Vec<u8> = Vec::new();
    let mut i: usize = 0;
    while i < n
        invariant
            i <= n,
            v@ == bf16_ones(i as nat),
        decreases n - i,
    {
        v.push(0x80u8);
        v.push(0x3fu8);
        i += 1;
        assert(v@ =~= bf16_ones(i as nat));
    }
    v
}

impl DeepseekV4DSparkHead {
    /// Every ring is well formed, and there is one per stage or none at all.
    pub open spec fn wf(&self) -> bool {
        &&& self.block_size >= 1
        &&& self.main_kv_caches@.len() == 0 || self.main_kv_caches@.len() == self.module.stages@.len()
        &&& forall|i: int|
            0 <= i < self.main_kv_caches@.len() ==> (#[trigger] self.main_kv_caches@[i]).wf()
                && self.main_kv_caches@[i].window > 0 && self.main_kv_caches@[i].max_seqs == 1
                && self.main_kv_caches@[i].window == self.main_kv_caches@[0].window
    }

    /// Sets up one ring per stage, looks the kernels up and uploads the ones. A
    /// window of zero leaves the drafter without rings, and unable to draft.
    pub fn new<G: GpuBackend>(
        module: DeepseekV4DSparkModule,
        embed_tokens: DenseWeight,
        lm_head: DenseWeight,
        config: &ModelConfig,
        softmax_scale: F32Bits,
        gpu: &mut G,
        mtp_vocab_size: u32,
    ) -> (r: Result<Self, GpuError>)
        requires
            ring_bytes(config.dspark_window_size as int, config.head_dim as int, 1) <= usize::MAX,
            config.head_dim * 2 <= usize::MAX,
            head_counts(*config).0 <= u32::MAX,
            head_counts(*config).1 <= u32::MAX,
        ensures
            new_outcome(
                module,
                embed_tokens,
                lm_head,
                *config,
                softmax_scale,
                mtp_vocab_size,
                old(gpu).trace(),
                final(gpu).trace(),
                r,
            ),
            r matches Ok(head) ==> head.wf(),
    {
        let ghost pre = gpu.trace();
        let head_dim: usize = config.head_dim;
        let window: usize = config.dspark_window_size;
        let ghost bytes = ring_bytes(window as int, head_dim as int, 1) as usize;
        let n: usize = if window > 0 { module.stages.len() } else { 0 };
        let ghost no_handles = Seq::<KernelHandle>::empty();
        let ghost null = DevicePtr(0);
        let main_kv_caches = match make_rings(gpu, n, window, head_dim) {
            Ok(rings) => rings,
            Err(e) => {
                proof {
                    let bufs = choose|bufs: Seq<DevicePtr>|
                        bufs.len() == n && ran(pre, #[trigger] rings_steps(bytes, bufs), gpu.trace(), Some(e));
                    let all = dspark_new_steps(bytes, head_dim, bufs, no_handles, null);
                    let s = rings_steps(bytes, bufs);
                    assert(all.take(s.len() as int) =~= s);
                    lemma_ran_prefix(pre, s, all, gpu.trace(), e);
                }
                return Err(e);
            },
        };
        let ghost bufs = choose|bufs: Seq<DevicePtr>|
            {
                &&& bufs.len() == n
                &&& ran(pre, #[trigger] rings_steps(bytes, bufs), gpu.trace(), None)
                &&& rings_made(main_kv_caches@, bytes as int, window as int, head_dim as int, bufs)
            };
        let ghost s1 = rings_steps(bytes, bufs);
        let ghost t1 = gpu.trace();
        let (drafter_nq, drafter_o_groups) = drafter_head_counts(config);
        let names: Vec<(&str, &str)> = vec![
            ("rms_norm_vanilla", "rms_norm_vanilla"),
            ("gemv", "dense_gemv_bf16"),
            ("residual_add", "bf16_residual_add"),
            ("hyper_connection", "hc_expand"),
            ("hyper_connection", "hc_head"),
            ("argmax", "argmax_bf16"),
            ("hyper_connection", "hc_pre"),
            ("hyper_connection", "hc_post"),
            ("dspark_sparse_attention", "dspark_sparse_attention"),
            ("rope", "rope_forward_yarn_interleaved"),
            ("rope", "rope_forward_yarn_interleaved_inv"),
            ("mla_absorbed", "mla_q_rope_extract_batched"),
            ("mla_absorbed", "mla_q_rope_writeback_batched"),
        ];
        assert(kernel_names(names@) =~= dspark_kernel_names());
        let k = match lookup_kernels(gpu, &names) {
            Ok(k) => k,
            Err(e) => {
                proof {
                    let handles = choose|handles: Seq<KernelHandle>|
                        ran(t1, #[trigger] lookup_steps(dspark_kernel_names(), handles), gpu.trace(), Some(e));
                    let l = lookup_steps(dspark_kernel_names(), handles);
                    lemma_ran_then(pre, s1, t1, l, gpu.trace(), Some(e));
                    let all = dspark_new_steps(bytes, head_dim, bufs, handles, null);
                    assert(all.take((s1 + l).len() as int) =~= s1 + l);
                    lemma_ran_prefix(pre, s1 + l, all, gpu.trace(), e);
                }
                return Err(e);
            },
        };
        let ghost s2 = s1 + lookup_steps(dspark_kernel_names(), k@);
        assert(gpu.trace() =~= pre + s2);
        let ones = match go_alloc(gpu, head_dim * 2, Ghost(pre), Ghost(s2)) {
            Ok(p) => p,
            Err(e) => {
                proof {
                    let s3 = s2 + seq![alloc_step(head_dim * 2, null)];
                    let all = dspark_new_steps(bytes, head_dim, bufs, k@, null);
                    assert(all.take(s3.len() as int) =~= s3);
                    lemma_ran_prefix(pre, s3, all, gpu.trace(), e);
                }
                return Err(e);
            },
        };
        let ghost s3 = s2 + seq![alloc_step(head_dim * 2, ones)];
        let data = make_ones(head_dim);
        let put = go_put(gpu, &data, ones, Ghost(pre), Ghost(s3));
        assert(dspark_new_steps(bytes, head_dim, bufs, k@, ones) =~= s3 + seq![put_step(data@, ones)]);
        if let Err(e) = put {
            return Err(e);
        }
        let kernels = DsparkKernels {
            rms_norm_k: k[0],
            dense_gemv_k: k[1],
            residual_add_k: k[2],
            hc_expand_k: k[3],
            hc_head_k: k[4],
            argmax_k: k[5],
            hc_pre_k: k[6],
            hc_post_k: k[7],
            dspark_attn_k: k[8],
            rope_fwd_k: k[9],
            rope_inv_k: k[10],
            extract_k: k[11],
            writeback_k: k[12],
        };
        let block_size: usize = if config.dspark_block_size < 1 { 1 } else { config.dspark_block_size };
        let head = DeepseekV4DSparkHead {
                module,
                embed_tokens,
                lm_head,
                mtp_vocab_size,
                block_size,
                noise_token_id: config.dspark_noise_token_id,
                main_kv_caches,
                drafter_nq,
                drafter_o_groups,
                softmax_scale,
                kernels,
                q_headnorm_ones: DenseWeight { weight: ones },
                last_conf: None,
        };
        proof {
            assert(head.kernels == dspark_kernels(k@));
            assert(ran(
                pre,
                dspark_new_steps(bytes, config.head_dim, bufs, k@, head.q_headnorm_ones.weight),
                gpu.trace(),
                None,
            ));
            assert(rings_made(head.main_kv_caches@, bytes as int, window as int, head_dim as int, bufs));
        }
        Ok(head)
    }

    /// A sequence that has committed nothing. Every stage makes its own state for
    /// it, in order.
    pub fn alloc_state_inner<G: GpuBackend>(&self, gpu: &mut G) -> (r: Result<DeepseekV4DSparkProposerState, GpuError>)
        ensures
            match r {
                Ok(s) => {
                    &&& s.main_kv_pos == 0
                    &&& s.last_num_drafted == 0
                    &&& s.body_states@.len() == self.module.stages@.len()
                    &&& ran(old(gpu).trace(), stage_states(s.body_states@), final(gpu).trace(), None)
                },
                Err(e) => exists|states: Seq<LayerState>|
                    states.len() == self.module.stages@.len() && ran(
                        old(gpu).trace(),
                        #[trigger] stage_states(states),
                        final(gpu).trace(),
                        Some(e),
                    ),
            },
    {
        let ghost pre = gpu.trace();
        let mut body_states: Vec<LayerState> = Vec::new();
        let n: usize = self.module.stages.len();
        let mut i: usize = 0;
        assert(pre =~= pre + stage_states(body_states@));
        while i < n
            invariant
                i <= n,
                n == self.module.stages@.len(),
                body_states@.len() == i,
                pre == old(gpu).trace(),
                gpu.trace() == pre + stage_states(body_states@),
            decreases n - i,
        {
            let ghost before = body_states@;
            match gpu.alloc_layer_state(LayerKind::DraftStage, i) {
                Ok(s) => {
                    body_states.push(s);
                    i += 1;
                    proof {
                        assert(stage_states(body_states@) =~= stage_states(before).push(
                            state_step(LayerKind::DraftStage, (i - 1) as usize, s),
                        ));
                        assert(gpu.trace() =~= pre + stage_states(body_states@));
                    }
                },
                Err(e) => {
                    proof {
                        let rest = Seq::new((n - i) as nat, |j: int| LayerState::Empty(EmptyLayerState));
                        let all = stage_states(before + rest);
                        assert(all.take(i as int) =~= stage_states(before));
                        assert(gpu.trace() =~= pre + stopped_at(all, i as int, e));
                        lemma_ran_stopped(pre, all, i as int, gpu.trace(), e);
                    }
                    return Err(e);
                },
            }
        }
        Ok(DeepseekV4DSparkProposerState { main_kv_pos: 0, last_num_drafted: 0, body_states })
    }
}

/// The states that the stages made, in order.
pub open spec fn stage_states(states: Seq<LayerState>) -> Seq<Event> {
    Seq::new(states.len(), |i: int| state_step(LayerKind::DraftStage, i as usize, states[i]))
}

/// What making a drafter does and says.
pub open spec fn new_outcome(
    module: DeepseekV4DSparkModule,
    embed_tokens: DenseWeight,
    lm_head: DenseWeight,
    config: ModelConfig,
    softmax_scale: F32Bits,
    mtp_vocab_size: u32,
    pre: Seq<Event>,
    post: Seq<Event>,
    r: Result<DeepseekV4DSparkHead, GpuError>,
) -> bool {
    let bytes = ring_bytes(config.dspark_window_size as int, config.head_dim as int, 1);
    let rings = if config.dspark_window_size > 0 { module.stages@.len() } else { 0 };
    match r {
        Ok(head) => exists|bufs: Seq<DevicePtr>, handles: Seq<KernelHandle>|
            {
                &&& bufs.len() == rings
                &&& ran(
                    pre,
                    #[trigger] dspark_new_steps(
                        bytes as usize,
                        config.head_dim,
                        bufs,
                        handles,
                        head.q_headnorm_ones.weight,
                    ),
                    post,
                    None,
                )
                &&& head.module == module
                &&& head.embed_tokens == embed_tokens
                &&& head.lm_head == lm_head
                &&& head.mtp_vocab_size == mtp_vocab_size
                &&& head.block_size == (if config.dspark_block_size < 1 { 1 } else { config.dspark_block_size })
                &&& head.noise_token_id == config.dspark_noise_token_id
                &&& rings_made(
                    head.main_kv_caches@,
                    bytes,
                    config.dspark_window_size as int,
                    config.head_dim as int,
                    bufs,
                )
                &&& head.drafter_nq == head_counts(config).0
                &&& head.drafter_o_groups == head_counts(config).1
                &&& head.softmax_scale == softmax_scale
                &&& head.kernels == dspark_kernels(handles)
                &&& head.last_conf is None
            },
        Err(e) => exists|bufs: Seq<DevicePtr>, handles: Seq<KernelHandle>, ones: DevicePtr|
            bufs.len() == rings && ran(
                pre,
                #[trigger] dspark_new_steps(bytes as usize, config.head_dim, bufs, handles, ones),
                post,
                Some(e),
            ),
    }
}

} // verus!
