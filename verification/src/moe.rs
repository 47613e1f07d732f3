//! The mixture-of-experts block over the two tokens of a speculative verify.
//!
//! The router picks the experts of both tokens. One launch makes the up and the
//! gating projections of routed and shared experts, one the down projections, and
//! one blends the result. The block's output is two rows at the arena's
//! `moe_output`.

use vstd::prelude::*;

use crate::config::{ForwardContext, ModelType, ScoringFunc};
use crate::gpu::{
    at, null_ptr, null_quantized, DenseWeight, DevicePtr, ExpertPtrs, Fp8ExpertPtrs, Fp8Weight, GpuError,
    KernelHandle, QuantizedWeight,
};
use crate::op::{Call, ExpertWeights, MoeLayout, Observation, Op, SharedWeight, TopkScore};
use crate::run::{all_fit, call_step, go_call, go_ops, push_wait, run_ops, steps, wait_if};
use crate::text::{is_setting, setting_is};
use crate::trace::{lemma_ran_cut, lemma_ran_prefix, lemma_ran_then, ran, refusal, Event, GpuBackend};

verus! {

/// How a weight tensor is stored.
#[derive(Clone, Copy, PartialEq, Eq, Structural, Debug)]
pub enum WeightQuantFormat {
    Bf16,
    Fp8PerRow,
    Fp8BlockScaled,
    Fp8SingleScale,
    Nvfp4,
    Mxfp4E8m0,
}

/// Whether the three-token verify must run its experts token by token. The
/// three-token kernel reads one scale per 16 elements, and this format keeps one
/// per 32.
pub fn k3_e8m0_needs_per_token(format: WeightQuantFormat) -> (r: bool)
    ensures
        r == (format == WeightQuantFormat::Mxfp4E8m0),
{
    format == WeightQuantFormat::Mxfp4E8m0
}

/// Scales of an `inter x h` tensor with one scale per `group` elements.
pub open spec fn scale_count(h: nat, inter: nat, group: nat) -> nat {
    inter * (h / group)
}

/// A kernel that expects one scale per 16 elements reads twice the scales that a
/// tensor with one per 32 holds.
pub proof fn coarse_scales_are_half(h: nat, inter: nat)
    requires
        h % 32 == 0,
    ensures
        scale_count(h, inter, 16) == 2 * scale_count(h, inter, 32),
{
    assert(h / 16 == 2 * (h / 32));
    assert(inter * (2 * (h / 32)) == 2 * (inter * (h / 32))) by (nonlinear_arith);
}

/// An eight-bit shared expert.
#[derive(Clone, Copy, PartialEq, Eq, Structural, Debug)]
pub struct Fp8SharedExpert {
    pub gate_proj: Fp8Weight,
    pub up_proj: Fp8Weight,
    pub down_proj: Fp8Weight,
}

/// The block: weights in every form that the checkpoint came in, and kernels.
#[derive(Clone, Copy, PartialEq, Eq, Structural, Debug)]
pub struct MoeLayer {
    /// The layer's place in the model.
    pub index: usize,
    pub gate: DenseWeight,
    pub gate_nvfp4: Option<QuantizedWeight>,
    pub correction_bias: Option<DevicePtr>,
    pub shared_expert_gate: DenseWeight,
    pub bf16_gate_weight_ptrs: Option<DevicePtr>,
    pub bf16_up_weight_ptrs: Option<DevicePtr>,
    pub bf16_down_weight_ptrs: Option<DevicePtr>,
    pub bf16_shared_gate: Option<DevicePtr>,
    pub bf16_shared_up: Option<DevicePtr>,
    pub bf16_shared_down: Option<DevicePtr>,
    pub fp8_gate_weight_ptrs: Option<Fp8ExpertPtrs>,
    pub fp8_up_weight_ptrs: Option<Fp8ExpertPtrs>,
    pub fp8_down_weight_ptrs: Option<Fp8ExpertPtrs>,
    pub fp8_shared_expert: Option<Fp8SharedExpert>,
    /// Decode reads the transposed four-bit tables.
    pub unified_t: bool,
    pub gate_ptrs_t: Option<ExpertPtrs>,
    pub up_ptrs_t: Option<ExpertPtrs>,
    pub down_ptrs_t: Option<ExpertPtrs>,
    pub shared_gate_t: Option<QuantizedWeight>,
    pub shared_up_t: Option<QuantizedWeight>,
    pub shared_down_t: Option<QuantizedWeight>,
    pub gate_ptrs: ExpertPtrs,
    pub up_ptrs: ExpertPtrs,
    pub down_ptrs: ExpertPtrs,
    pub shared_gate: QuantizedWeight,
    pub shared_up: QuantizedWeight,
    pub shared_down: QuantizedWeight,
    pub w4a16_gemv_batch2: KernelHandle,
    pub dense_gemm: KernelHandle,
    pub moe_topk_sqrtsoftplus_k: KernelHandle,
    pub moe_topk_sigmoid_batched_k: KernelHandle,
    pub moe_topk_batched: KernelHandle,
    pub gate_up_bf16_k: KernelHandle,
    pub silu_down_bf16_k: KernelHandle,
    pub gate_up_fp8_k: KernelHandle,
    pub silu_down_fp8_k: KernelHandle,
    pub gate_up_t_k: KernelHandle,
    pub silu_down_t_k: KernelHandle,
    pub gate_up_k: KernelHandle,
    pub silu_down_k: KernelHandle,
    pub silu_mul_k: KernelHandle,
    pub down_precomputed_k: KernelHandle,
    pub blend_batch2_k: KernelHandle,
    pub blend_fp8_batch2_k: KernelHandle,
    pub batched_blend_k: KernelHandle,
    pub residual_add_k: KernelHandle,
}

/// The settings of the two-token path, as they were given.
pub struct MoeSettings<'a> {
    pub k2_batched: Option<&'a str>,
    pub k2_token_major: Option<&'a str>,
    pub precompute_act: Option<&'a str>,
    pub diag: Option<&'a str>,
    pub profile: Option<&'a str>,
}

/// Switches of the two-token path.
#[derive(Clone, Copy, PartialEq, Eq, Structural, Debug)]
pub struct MoeFlags {
    /// Run the experts token by token.
    pub k2_batched: bool,
    /// Run the experts through the token-major kernels.
    pub k2_token_major: bool,
    /// Apply the activation once per route, ahead of the down projection.
    pub precompute_act: bool,
    /// Wait for the device between stages, so that a fault shows where it
    /// happened.
    pub diag: bool,
    /// Wait for the device between stages, so that they can be timed.
    pub profile: bool,
}

pub open spec fn moe_flags(s: MoeSettings) -> MoeFlags {
    MoeFlags {
        k2_batched: is_setting(s.k2_batched, "1"@),
        k2_token_major: is_setting(s.k2_token_major, "1"@),
        precompute_act: is_setting(s.precompute_act, "1"@),
        diag: is_setting(s.diag, "1"@),
        profile: is_setting(s.profile, "1"@) || is_setting(s.profile, "true"@),
    }
}

impl MoeFlags {
    /// Reads the settings: a switch is on where its setting is exactly `1`. For
    /// timing, `true` will do as well.
    pub fn from_settings(s: &MoeSettings) -> (r: MoeFlags)
        ensures
            r == moe_flags(*s),
    {
        MoeFlags {
            k2_batched: setting_is(s.k2_batched, "1"),
            k2_token_major: setting_is(s.k2_token_major, "1"),
            precompute_act: setting_is(s.precompute_act, "1"),
            diag: setting_is(s.diag, "1"),
            profile: setting_is(s.profile, "1") || setting_is(s.profile, "true"),
        }
    }
}

#[derive(Clone, Copy, PartialEq, Eq, Structural, Debug)]
pub struct MoeCall {
    pub layer: MoeLayer,
    pub ctx: ForwardContext,
    pub flags: MoeFlags,
    pub input: DevicePtr,
    pub stream: u64,
}

/// How the two tokens go through the experts.
#[derive(Clone, Copy, PartialEq, Eq, Structural, Debug)]
pub enum K2Path {
    Batched,
    TokenMajor,
    Bf16,
    Fp8,
    Transposed,
    RowMajor,
}

impl MoeLayer {
    /// The transposed tables are there.
    pub open spec fn has_transposed(self) -> bool {
        &&& self.gate_ptrs_t is Some
        &&& self.up_ptrs_t is Some
        &&& self.down_ptrs_t is Some
    }

    pub open spec fn has_bf16(self) -> bool {
        &&& self.bf16_gate_weight_ptrs is Some
        &&& self.bf16_up_weight_ptrs is Some
        &&& self.bf16_down_weight_ptrs is Some
        &&& self.bf16_shared_gate is Some
        &&& self.bf16_shared_up is Some
        &&& self.bf16_shared_down is Some
    }

    pub open spec fn has_fp8(self) -> bool {
        &&& self.fp8_gate_weight_ptrs is Some
        &&& self.fp8_up_weight_ptrs is Some
        &&& self.fp8_down_weight_ptrs is Some
        &&& self.fp8_shared_expert is Some
    }
}

impl MoeCall {
    pub open spec fn h(self) -> u32 {
        self.ctx.config.hidden_size as u32
    }

    pub open spec fn inter(self) -> u32 {
        self.ctx.config.moe_intermediate_size as u32
    }

    pub open spec fn experts(self) -> u32 {
        self.ctx.config.num_experts as u32
    }

    pub open spec fn top_k(self) -> u32 {
        self.ctx.config.num_experts_per_tok as u32
    }

    /// The experts are spread over several ranks.
    pub open spec fn is_ep(self) -> bool {
        self.ctx.comm && self.ctx.config.ep_world_size > 1
    }

    /// The sizes that the call works out fit their words, and the tables that it
    /// reads are there.
    pub open spec fn fits(self) -> bool {
        &&& 4 * self.h() <= usize::MAX
        &&& 8 * self.top_k() <= usize::MAX
        &&& 2 * self.experts() <= usize::MAX
        &&& self.is_ep() ==> 2 * self.h() <= u32::MAX
        &&& self.path() == K2Path::RowMajor && self.flags.precompute_act ==> {
            &&& 2 * self.top_k() <= u32::MAX
            &&& 2 * self.inter() <= u32::MAX
            &&& 2 * self.top_k() * self.inter() <= u32::MAX
        }
        &&& self.path() == K2Path::Transposed ==> self.layer.has_transposed()
    }

    /// The BF16 two-token kernels apply.
    pub open spec fn bf16_batch2(self) -> bool {
        &&& self.layer.bf16_gate_weight_ptrs is Some
        &&& self.layer.gate_up_bf16_k.0 != 0
        &&& self.layer.silu_down_bf16_k.0 != 0
        &&& !self.is_ep()
    }

    /// The path that the two tokens take.
    pub open spec fn path(self) -> K2Path {
        let v4 = self.ctx.config.model_type == ModelType::DeepseekV4;
        if v4 && self.flags.k2_batched {
            K2Path::Batched
        } else if v4 && self.flags.k2_token_major {
            K2Path::TokenMajor
        } else if self.layer.bf16_gate_weight_ptrs is Some && !self.bf16_batch2() {
            K2Path::Batched
        } else if self.bf16_batch2() && self.layer.has_bf16() {
            K2Path::Bf16
        } else if self.layer.has_fp8() {
            K2Path::Fp8
        } else if self.layer.unified_t {
            K2Path::Transposed
        } else {
            K2Path::RowMajor
        }
    }

    /// Indices of the routed experts, then their weights.
    pub open spec fn indices(self) -> DevicePtr {
        self.ctx.buffers.scratch
    }

    pub open spec fn weights(self) -> DevicePtr {
        at(self.ctx.buffers.scratch, 2 * self.top_k() * 4)
    }
}

/// Experts that were dequantised on load never reach the kernels that read the
/// quantised form, which was given up then.
pub proof fn dequantised_experts_stay_bf16(c: MoeCall)
    requires
        c.layer.has_bf16(),
    ensures
        c.path() == K2Path::Batched || c.path() == K2Path::TokenMajor || c.path() == K2Path::Bf16,
{
}

// ── routing ──
pub open spec fn logits_op(c: MoeCall, router_in: DevicePtr) -> Op {
    match c.layer.gate_nvfp4 {
        Some(weight) => Op::W4a16GemvBatch2 {
            kernel: c.layer.w4a16_gemv_batch2,
            input: router_in,
            weight,
            output: c.ctx.buffers.gate_logits,
            n: c.experts(),
            k: c.h(),
        },
        None => Op::DenseGemm {
            kernel: c.layer.dense_gemm,
            input: router_in,
            weight: c.layer.gate,
            output: c.ctx.buffers.gate_logits,
            m: 2,
            n: c.experts(),
            k: c.h(),
        },
    }
}

pub open spec fn topk_op(c: MoeCall, kernel: KernelHandle, score: TopkScore, token: int, tokens: u32) -> Op {
    Op::MoeTopk {
        kernel,
        score,
        logits: at(c.ctx.buffers.gate_logits, token * (c.experts() * 2)),
        indices: at(c.indices(), token * (c.top_k() * 4)),
        weights: at(c.weights(), token * (c.top_k() * 4)),
        num_experts: c.experts(),
        top_k: c.top_k(),
        norm_topk_prob: c.ctx.config.norm_topk_prob,
        tokens,
    }
}

/// Picking the experts. With a correction bias and square-root soft-plus scores
/// the tokens are picked for one at a time, otherwise together.
pub open spec fn pick_ops(c: MoeCall) -> Seq<Op> {
    match c.layer.correction_bias {
        Some(bias) => if c.ctx.config.scoring_func == ScoringFunc::SqrtSoftplus {
            let score = TopkScore::SqrtSoftplus { bias, scaling: c.ctx.config.routed_scaling_factor };
            seq![
                topk_op(c, c.layer.moe_topk_sqrtsoftplus_k, score, 0, 1),
                topk_op(c, c.layer.moe_topk_sqrtsoftplus_k, score, 1, 1),
            ]
        } else {
            let score = TopkScore::Sigmoid { bias, scaling: c.ctx.config.routed_scaling_factor };
            seq![topk_op(c, c.layer.moe_topk_sigmoid_batched_k, score, 0, 2)]
        },
        None => seq![topk_op(c, c.layer.moe_topk_batched, TopkScore::Softmax, 0, 2)],
    }
}

pub open spec fn route_ops(c: MoeCall, router_in: DevicePtr) -> Seq<Op> {
    seq![logits_op(c, router_in)] + pick_ops(c) + seq![sample_op(c)]
}

/// A sample of how many experts the tokens share, for the log.
pub open spec fn sample_op(c: MoeCall) -> Op {
    Op::Observe {
        what: Observation::ExpertUnion { indices: c.indices(), tokens: 2, top_k: c.top_k() as usize },
    }
}

pub open spec fn router_call(c: MoeCall) -> Call {
    Call::RouterInput { layer: c.layer.index, input: c.input, tokens: 2, h: c.h(), ctx: c.ctx }
}

/// The program of the routing.
pub open spec fn route_steps(c: MoeCall, router_in: DevicePtr) -> Seq<Event> {
    seq![call_step(router_call(c), c.stream, router_in)] + steps(route_ops(c, router_in), c.stream)
}

fn make_topk(c: &MoeCall, kernel: KernelHandle, score: TopkScore, token: usize, tokens: u32) -> (r: Op)
    requires
        c.fits(),
        token < 2,
    ensures
        r == topk_op(*c, kernel, score, token as int, tokens),
{
    let experts: u32 = c.ctx.config.num_experts as u32;
    let top_k: u32 = c.ctx.config.num_experts_per_tok as u32;
    let lw: usize = experts as usize * 2;
    let iw: usize = top_k as usize * 4;
    assert(token * lw <= lw && token * iw <= iw) by (nonlinear_arith)
        requires
            token < 2,
            lw >= 0,
            iw >= 0,
    ;
    let scratch = c.ctx.buffers.scratch;
    Op::MoeTopk {
        kernel,
        score,
        logits: c.ctx.buffers.gate_logits.offset(token * lw),
        indices: scratch.offset(token * iw),
        weights: scratch.offset(2 * iw).offset(token * iw),
        num_experts: experts,
        top_k,
        norm_topk_prob: c.ctx.config.norm_topk_prob,
        tokens,
    }
}

fn build_route(c: &MoeCall, router_in: DevicePtr) -> (r: Vec<Op>)
    requires
        c.fits(),
    ensures
        r@ == route_ops(*c, router_in),
{
    let experts: u32 = c.ctx.config.num_experts as u32;
    let h: u32 = c.ctx.config.hidden_size as u32;
    let mut ops: Vec<Op> = Vec::new();
    match c.layer.gate_nvfp4 {
        Some(weight) => {
            ops.push(
                Op::W4a16GemvBatch2 {
                    kernel: c.layer.w4a16_gemv_batch2,
                    input: router_in,
                    weight,
                    output: c.ctx.buffers.gate_logits,
                    n: experts,
                    k: h,
                },
            );
        },
        None => {
            ops.push(
                Op::DenseGemm {
                    kernel: c.layer.dense_gemm,
                    input: router_in,
                    weight: c.layer.gate,
                    output: c.ctx.buffers.gate_logits,
                    m: 2,
                    n: experts,
                    k: h,
                },
            );
        },
    }
    match c.layer.correction_bias {
        Some(bias) => {
            let scaling = c.ctx.config.routed_scaling_factor;
            if c.ctx.config.scoring_func == ScoringFunc::SqrtSoftplus {
                let score = TopkScore::SqrtSoftplus { bias, scaling };
                ops.push(make_topk(c, c.layer.moe_topk_sqrtsoftplus_k, score, 0, 1));
                ops.push(make_topk(c, c.layer.moe_topk_sqrtsoftplus_k, score, 1, 1));
            } else {
                let score = TopkScore::Sigmoid { bias, scaling };
                ops.push(make_topk(c, c.layer.moe_topk_sigmoid_batched_k, score, 0, 2));
            }
        },
        None => {
            ops.push(make_topk(c, c.layer.moe_topk_batched, TopkScore::Softmax, 0, 2));
        },
    }
    let top_k: usize = c.ctx.config.num_experts_per_tok as u32 as usize;
    ops.push(Op::Observe { what: Observation::ExpertUnion { indices: c.ctx.buffers.scratch, tokens: 2, top_k } });
    assert(ops@ =~= route_ops(*c, router_in));
    ops
}

impl MoeLayer {
    /// Routes both tokens. Answers with the indices and weights of their experts.
    pub fn route_k2<G: GpuBackend>(gpu: &mut G, c: &MoeCall) -> (r: Result<(DevicePtr, DevicePtr), GpuError>)
        requires
            c.fits(),
        ensures
            exists|router_in: DevicePtr|
                ran(old(gpu).trace(), #[trigger] route_steps(*c, router_in), final(gpu).trace(), refusal(r)),
            r matches Ok(p) ==> p == (c.indices(), c.weights()),
    {
        let ghost pre = gpu.trace();
        let ghost s0 = Seq::<Event>::empty();
        assert(pre =~= pre + s0);
        let call = Call::RouterInput {
            layer: c.layer.index,
            input: c.input,
            tokens: 2,
            h: c.ctx.config.hidden_size as u32,
            ctx: c.ctx,
        };
        let router_in = match go_call(gpu, call, c.stream, Ghost(pre), Ghost(s0)) {
            Ok(p) => p,
            Err(e) => {
                proof {
                    let null = DevicePtr(0);
                    let s1 = s0 + seq![call_step(call, c.stream, null)];
                    assert(route_steps(*c, null).take(s1.len() as int) =~= s1);
                    lemma_ran_prefix(pre, s1, route_steps(*c, null), gpu.trace(), e);
                }
                return Err(e);
            },
        };
        let ghost s1 = s0 + seq![call_step(call, c.stream, router_in)];
        let ops = build_route(c, router_in);
        let r = go_ops(gpu, &ops, c.stream, Ghost(pre), Ghost(s1));
        assert(route_steps(*c, router_in) =~= s1 + steps(ops@, c.stream));
        let top_k: u32 = c.ctx.config.num_experts_per_tok as u32;
        match r {
            Ok(_) => Ok((c.ctx.buffers.scratch, c.ctx.buffers.scratch.offset(2 * top_k as usize * 4))),
            Err(e) => Err(e),
        }
    }
}

// ── experts ──
pub open spec fn gate_up_op(
    c: MoeCall,
    layout: MoeLayout,
    kernel: KernelHandle,
    gate: ExpertWeights,
    up: ExpertWeights,
    sh_gate: SharedWeight,
    sh_up: SharedWeight,
) -> Op {
    let b = c.ctx.buffers;
    Op::MoeGateUp {
        layout,
        kernel,
        input: c.input,
        gate,
        gate_out: b.expert_gate_out,
        up,
        up_out: b.expert_up_out,
        indices: c.indices(),
        sh_gate,
        sh_gate_out: b.logits,
        sh_up,
        sh_up_out: b.ssm_qkvz,
        inter: c.inter(),
        h: c.h(),
        top_k: c.top_k(),
    }
}

pub open spec fn silu_down_op(
    c: MoeCall,
    layout: MoeLayout,
    kernel: KernelHandle,
    down: ExpertWeights,
    sh_down: SharedWeight,
) -> Op {
    let b = c.ctx.buffers;
    Op::MoeSiluDown {
        layout,
        kernel,
        gate: b.expert_gate_out,
        up: b.expert_up_out,
        down,
        down_out: b.expert_down_out,
        indices: c.indices(),
        sh_gate: b.logits,
        sh_up: b.ssm_qkvz,
        sh_down,
        sh_down_out: b.attn_output,
        h: c.h(),
        inter: c.inter(),
        top_k: c.top_k(),
    }
}

/// The activation of routed and shared experts, then the down projection.
pub open spec fn precomputed_ops(c: MoeCall) -> Seq<Op> {
    let b = c.ctx.buffers;
    seq![
        Op::MoeSiluMul {
            kernel: c.layer.silu_mul_k,
            gate: b.expert_gate_out,
            up: b.expert_up_out,
            out: b.expert_gate_out,
            n: (2 * c.top_k() * c.inter()) as u32,
        },
        Op::MoeSiluMul {
            kernel: c.layer.silu_mul_k,
            gate: b.logits,
            up: b.ssm_qkvz,
            out: b.logits,
            n: (2 * c.inter()) as u32,
        },
        Op::MoeDownPrecomputed {
            kernel: c.layer.down_precomputed_k,
            act: b.expert_gate_out,
            down: ExpertWeights::Nvfp4(c.layer.down_ptrs),
            down_out: b.expert_down_out,
            indices: c.indices(),
            sh_act: b.logits,
            sh_down: SharedWeight::Nvfp4(c.layer.shared_down),
            sh_down_out: b.attn_output,
            h: c.h(),
            inter: c.inter(),
            top_k: c.top_k(),
        },
    ]
}

/// Gate, up and down projections on each path.
pub open spec fn project_ops(c: MoeCall) -> Seq<Op> {
    let l = c.layer;
    match c.path() {
        K2Path::Bf16 => seq![
            gate_up_op(
                c,
                MoeLayout::Bf16,
                l.gate_up_bf16_k,
                ExpertWeights::Bf16(l.bf16_gate_weight_ptrs->0),
                ExpertWeights::Bf16(l.bf16_up_weight_ptrs->0),
                SharedWeight::Bf16(l.bf16_shared_gate->0),
                SharedWeight::Bf16(l.bf16_shared_up->0),
            ),
            silu_down_op(
                c,
                MoeLayout::Bf16,
                l.silu_down_bf16_k,
                ExpertWeights::Bf16(l.bf16_down_weight_ptrs->0),
                SharedWeight::Bf16(l.bf16_shared_down->0),
            ),
        ],
        K2Path::Fp8 => seq![
            gate_up_op(
                c,
                MoeLayout::Fp8,
                l.gate_up_fp8_k,
                ExpertWeights::Fp8(l.fp8_gate_weight_ptrs->0),
                ExpertWeights::Fp8(l.fp8_up_weight_ptrs->0),
                SharedWeight::Fp8(l.fp8_shared_expert->0.gate_proj),
                SharedWeight::Fp8(l.fp8_shared_expert->0.up_proj),
            ),
            silu_down_op(
                c,
                MoeLayout::Fp8,
                l.silu_down_fp8_k,
                ExpertWeights::Fp8(l.fp8_down_weight_ptrs->0),
                SharedWeight::Fp8(l.fp8_shared_expert->0.down_proj),
            ),
        ],
        K2Path::Transposed => seq![
            gate_up_op(
                c,
                MoeLayout::Transposed,
                l.gate_up_t_k,
                ExpertWeights::Nvfp4(l.gate_ptrs_t->0),
                ExpertWeights::Nvfp4(l.up_ptrs_t->0),
                SharedWeight::Nvfp4(or_null(l.shared_gate_t)),
                SharedWeight::Nvfp4(or_null(l.shared_up_t)),
            ),
            silu_down_op(
                c,
                MoeLayout::Transposed,
                l.silu_down_t_k,
                ExpertWeights::Nvfp4(l.down_ptrs_t->0),
                SharedWeight::Nvfp4(or_null(l.shared_down_t)),
            ),
        ],
        _ => {
            let first = gate_up_op(
                c,
                MoeLayout::RowMajor { block: 128 },
                l.gate_up_k,
                ExpertWeights::Nvfp4(l.gate_ptrs),
                ExpertWeights::Nvfp4(l.up_ptrs),
                SharedWeight::Nvfp4(l.shared_gate),
                SharedWeight::Nvfp4(l.shared_up),
            );
            let down = if c.flags.precompute_act {
                precomputed_ops(c)
            } else {
                seq![
                    silu_down_op(
                        c,
                        MoeLayout::RowMajor { block: 128 },
                        l.silu_down_k,
                        ExpertWeights::Nvfp4(l.down_ptrs),
                        SharedWeight::Nvfp4(l.shared_down),
                    ),
                ]
            };
            seq![first] + wait_if(c.flags.diag) + down + wait_if(c.flags.diag)
        },
    }
}

pub open spec fn or_null(w: Option<QuantizedWeight>) -> QuantizedWeight {
    match w {
        Some(w) => w,
        None => null_quantized(),
    }
}

/// The shared expert joins after the ranks have been summed, not in the blend.
pub open spec fn shared_later(c: MoeCall) -> bool {
    c.is_ep() && c.ctx.buffers.attn_output != null_ptr()
}

pub open spec fn blend_op(c: MoeCall, shared: DevicePtr) -> Op {
    let b = c.ctx.buffers;
    Op::MoeBlend2 {
        kernel: if c.path() == K2Path::Fp8 { c.layer.blend_fp8_batch2_k } else { c.layer.blend_batch2_k },
        output: b.moe_output,
        down: b.expert_down_out,
        weights: c.weights(),
        shared,
        input: c.input,
        gate_weight: c.layer.shared_expert_gate.weight,
        h: c.h(),
        top_k: c.top_k(),
        k: c.h(),
    }
}

/// The weighted sum. Where the shared expert joins later, a zeroed row stands in
/// for it.
pub open spec fn blend_ops(c: MoeCall) -> Seq<Op> {
    let b = c.ctx.buffers;
    if shared_later(c) {
        seq![
            Op::MemsetAsync { ptr: b.expert_gate_out, value: 0, bytes: (4 * c.h()) as usize },
            blend_op(c, b.expert_gate_out),
        ]
    } else {
        seq![blend_op(c, b.attn_output)]
    }
}

/// The sum over ranks, and the shared expert, gated where it has a gate.
pub open spec fn reduce_ops(c: MoeCall) -> Seq<Op> {
    let b = c.ctx.buffers;
    if !c.is_ep() {
        Seq::empty()
    } else {
        let bytes = (4 * c.h()) as usize;
        let reduce = if c.ctx.graph_capture {
            Op::AllReduce { ptr: b.moe_output, bytes }
        } else {
            Op::AllReduceAsync { ptr: b.moe_output, bytes }
        };
        if b.attn_output == null_ptr() {
            seq![reduce]
        } else {
            seq![reduce, join_op(c)]
        }
    }
}

/// The shared expert added to the summed output.
pub open spec fn join_op(c: MoeCall) -> Op {
    let b = c.ctx.buffers;
    if c.layer.shared_expert_gate.weight == null_ptr() {
        Op::ResidualAdd {
            kernel: c.layer.residual_add_k,
            dst: b.moe_output,
            src: b.attn_output,
            n: (2 * c.h()) as u32,
        }
    } else {
        Op::MoeBatchedBlend {
            kernel: c.layer.batched_blend_k,
            output: b.moe_output,
            shared: b.attn_output,
            input: c.input,
            gate_weight: c.layer.shared_expert_gate.weight,
            h: c.h(),
            tokens: 2,
        }
    }
}

/// Everything after the routing.
pub open spec fn expert_ops(c: MoeCall) -> Seq<Op> {
    wait_if(c.flags.profile) + wait_if(c.flags.diag) + project_ops(c) + blend_ops(c) + wait_if(c.flags.diag) + wait_if(
        c.flags.profile,
    ) + reduce_ops(c) + wait_if(c.flags.profile)
}

/// Everything before the routing.
pub open spec fn entry_ops(c: MoeCall) -> Seq<Op> {
    wait_if(c.flags.diag) + wait_if(c.flags.profile)
}

/// The program of the fused kernels.
pub open spec fn fused_steps(c: MoeCall, router_in: DevicePtr) -> Seq<Event> {
    steps(entry_ops(c), c.stream) + route_steps(c, router_in) + steps(expert_ops(c), c.stream)
}

/// The program of the block.
pub open spec fn k2_steps(c: MoeCall, router_in: DevicePtr) -> Seq<Event> {
    match c.path() {
        K2Path::Batched => steps(
            seq![Op::MoeForwardBatched { layer: c.layer.index, input: c.input, tokens: 2, ctx: c.ctx }],
            c.stream,
        ),
        K2Path::TokenMajor => steps(
            seq![Op::MoeForwardTokenMajor { layer: c.layer.index, input: c.input, tokens: 2, ctx: c.ctx }],
            c.stream,
        ),
        _ => fused_steps(c, router_in),
    }
}

/// Operations that bring the shared expert's rows into the output: a blend that
/// is given them, or the join after the ranks were summed.
pub open spec fn brings_shared(c: MoeCall, op: Op) -> bool {
    ||| op == blend_op(c, c.ctx.buffers.attn_output)
    ||| op == join_op(c)
}

/// Operation `k` brings the shared expert, and no other does.
pub open spec fn only_one_brings_shared(c: MoeCall, k: int) -> bool {
    &&& 0 <= k < expert_ops(c).len()
    &&& forall|i: int|
        0 <= i < expert_ops(c).len() ==> (brings_shared(c, #[trigger] expert_ops(c)[i]) <==> i == k)
}

/// With the experts spread over ranks the shared expert enters the output
/// exactly once, right after the sum, so that it is not summed over the ranks.
pub proof fn shared_expert_joins_once(c: MoeCall)
    requires
        shared_later(c),
        c.ctx.buffers.attn_output != c.ctx.buffers.expert_gate_out,
        c.path() != K2Path::Batched && c.path() != K2Path::TokenMajor,
    ensures
        exists|k: int| #[trigger]
            only_one_brings_shared(c, k) && k > 0 && expert_ops(c)[k - 1] == reduce_ops(c)[0],
{
    let all = expert_ops(c);
    let front = wait_if(c.flags.profile) + wait_if(c.flags.diag) + project_ops(c);
    let blend = blend_ops(c);
    let mid = wait_if(c.flags.diag) + wait_if(c.flags.profile);
    let r = reduce_ops(c);
    let tail = wait_if(c.flags.profile);
    assert(all =~= front + blend + mid + r + tail);
    assert(r.len() == 2 && r[1] == join_op(c));
    assert(blend.len() == 2);
    let k = (front.len() + blend.len() + mid.len() + 1) as int;
    assert(all[k] == r[1] && all[k - 1] == r[0]);
    lemma_front_brings_nothing(c);
    assert forall|i: int| 0 <= i < all.len() implies (brings_shared(c, #[trigger] all[i]) <==> i == k) by {
        if i < front.len() {
            assert(all[i] == front[i]);
        } else if i < front.len() + blend.len() {
            assert(all[i] == blend[i - front.len()]);
        } else if i < k - 1 {
            assert(all[i] == mid[i - front.len() - blend.len()]);
        } else if i > k {
            assert(all[i] == tail[i - k - 1]);
        }
    }
    assert(only_one_brings_shared(c, k));
}

/// On one rank the blend brings the shared expert, and nothing else does.
pub proof fn shared_expert_blends_once(c: MoeCall)
    requires
        !c.is_ep(),
        c.path() != K2Path::Batched && c.path() != K2Path::TokenMajor,
    ensures
        exists|k: int| #[trigger]
            only_one_brings_shared(c, k) && expert_ops(c)[k] == blend_op(c, c.ctx.buffers.attn_output),
{
    let all = expert_ops(c);
    let front = wait_if(c.flags.profile) + wait_if(c.flags.diag) + project_ops(c);
    let tail = wait_if(c.flags.diag) + wait_if(c.flags.profile) + wait_if(c.flags.profile);
    assert(all =~= front + seq![blend_op(c, c.ctx.buffers.attn_output)] + tail);
    let k = front.len() as int;
    lemma_front_brings_nothing(c);
    assert forall|i: int| 0 <= i < all.len() implies (brings_shared(c, #[trigger] all[i]) <==> i == k) by {
        if i < k {
            assert(all[i] == front[i]);
        } else if i > k {
            assert(all[i] == tail[i - k - 1]);
        }
    }
    assert(only_one_brings_shared(c, k));
}

proof fn lemma_front_brings_nothing(c: MoeCall)
    ensures
        ({
            let front = wait_if(c.flags.profile) + wait_if(c.flags.diag) + project_ops(c);
            forall|i: int| 0 <= i < front.len() ==> !brings_shared(c, #[trigger] front[i])
        }),
{
    let front = wait_if(c.flags.profile) + wait_if(c.flags.diag) + project_ops(c);
    let n = wait_if(c.flags.profile).len() + wait_if(c.flags.diag).len();
    assert forall|i: int| 0 <= i < front.len() implies !brings_shared(c, #[trigger] front[i]) by {
        if i >= n {
            assert(front[i] == project_ops(c)[i - n]);
        }
    }
}

fn make_gate_up(
    c: &MoeCall,
    layout: MoeLayout,
    kernel: KernelHandle,
    gate: ExpertWeights,
    up: ExpertWeights,
    sh_gate: SharedWeight,
    sh_up: SharedWeight,
) -> (r: Op)
    ensures
        r == gate_up_op(*c, layout, kernel, gate, up, sh_gate, sh_up),
{
    let b = &c.ctx.buffers;
    Op::MoeGateUp {
        layout,
        kernel,
        input: c.input,
        gate,
        gate_out: b.expert_gate_out,
        up,
        up_out: b.expert_up_out,
        indices: b.scratch,
        sh_gate,
        sh_gate_out: b.logits,
        sh_up,
        sh_up_out: b.ssm_qkvz,
        inter: c.ctx.config.moe_intermediate_size as u32,
        h: c.ctx.config.hidden_size as u32,
        top_k: c.ctx.config.num_experts_per_tok as u32,
    }
}

fn make_silu_down(c: &MoeCall, layout: MoeLayout, kernel: KernelHandle, down: ExpertWeights, sh_down: SharedWeight) -> (r:
    Op)
    ensures
        r == silu_down_op(*c, layout, kernel, down, sh_down),
{
    let b = &c.ctx.buffers;
    Op::MoeSiluDown {
        layout,
        kernel,
        gate: b.expert_gate_out,
        up: b.expert_up_out,
        down,
        down_out: b.expert_down_out,
        indices: b.scratch,
        sh_gate: b.logits,
        sh_up: b.ssm_qkvz,
        sh_down,
        sh_down_out: b.attn_output,
        h: c.ctx.config.hidden_size as u32,
        inter: c.ctx.config.moe_intermediate_size as u32,
        top_k: c.ctx.config.num_experts_per_tok as u32,
    }
}

fn get_or_null(w: Option<QuantizedWeight>) -> (r: QuantizedWeight)
    ensures
        r == or_null(w),
{
    match w {
        Some(w) => w,
        None => QuantizedWeight::null(),
    }
}

fn choose_path(c: &MoeCall) -> (r: K2Path)
    ensures
        r == c.path(),
{
    let l = &c.layer;
    let v4 = c.ctx.config.model_type == ModelType::DeepseekV4;
    let is_ep = c.ctx.comm && c.ctx.config.ep_world_size > 1;
    let bf16 = l.bf16_gate_weight_ptrs.is_some();
    let batch2 = bf16 && l.gate_up_bf16_k.0 != 0 && l.silu_down_bf16_k.0 != 0 && !is_ep;
    if v4 && c.flags.k2_batched {
        K2Path::Batched
    } else if v4 && c.flags.k2_token_major {
        K2Path::TokenMajor
    } else if bf16 && !batch2 {
        K2Path::Batched
    } else if batch2 && l.bf16_up_weight_ptrs.is_some() && l.bf16_down_weight_ptrs.is_some()
        && l.bf16_shared_gate.is_some() && l.bf16_shared_up.is_some() && l.bf16_shared_down.is_some() {
        K2Path::Bf16
    } else if l.fp8_gate_weight_ptrs.is_some() && l.fp8_up_weight_ptrs.is_some() && l.fp8_down_weight_ptrs.is_some()
        && l.fp8_shared_expert.is_some() {
        K2Path::Fp8
    } else if l.unified_t {
        K2Path::Transposed
    } else {
        K2Path::RowMajor
    }
}

fn build_precomputed(c: &MoeCall) -> (r: Vec<Op>)
    requires
        c.fits(),
        c.path() == K2Path::RowMajor && c.flags.precompute_act,
    ensures
        r@ == precomputed_ops(*c),
{
    let b = &c.ctx.buffers;
    let h: u32 = c.ctx.config.hidden_size as u32;
    let inter: u32 = c.ctx.config.moe_intermediate_size as u32;
    let top_k: u32 = c.ctx.config.num_experts_per_tok as u32;
    let r = vec![
        Op::MoeSiluMul {
            kernel: c.layer.silu_mul_k,
            gate: b.expert_gate_out,
            up: b.expert_up_out,
            out: b.expert_gate_out,
            n: 2 * top_k * inter,
        },
        Op::MoeSiluMul { kernel: c.layer.silu_mul_k, gate: b.logits, up: b.ssm_qkvz, out: b.logits, n: 2 * inter },
        Op::MoeDownPrecomputed {
            kernel: c.layer.down_precomputed_k,
            act: b.expert_gate_out,
            down: ExpertWeights::Nvfp4(c.layer.down_ptrs),
            down_out: b.expert_down_out,
            indices: b.scratch,
            sh_act: b.logits,
            sh_down: SharedWeight::Nvfp4(c.layer.shared_down),
            sh_down_out: b.attn_output,
            h,
            inter,
            top_k,
        },
    ];
    assert(r@ =~= precomputed_ops(*c));
    r
}

fn build_project(c: &MoeCall, path: K2Path) -> (r: Vec<Op>)
    requires
        c.fits(),
        path == c.path(),
        path != K2Path::Batched && path != K2Path::TokenMajor,
    ensures
        r@ == project_ops(*c),
        all_fit(r@),
{
    let l = &c.layer;
    let mut ops: Vec<Op> = Vec::new();
    match path {
        K2Path::Bf16 => {
            ops.push(
                make_gate_up(
                    c,
                    MoeLayout::Bf16,
                    l.gate_up_bf16_k,
                    ExpertWeights::Bf16(l.bf16_gate_weight_ptrs.unwrap()),
                    ExpertWeights::Bf16(l.bf16_up_weight_ptrs.unwrap()),
                    SharedWeight::Bf16(l.bf16_shared_gate.unwrap()),
                    SharedWeight::Bf16(l.bf16_shared_up.unwrap()),
                ),
            );
            ops.push(
                make_silu_down(
                    c,
                    MoeLayout::Bf16,
                    l.silu_down_bf16_k,
                    ExpertWeights::Bf16(l.bf16_down_weight_ptrs.unwrap()),
                    SharedWeight::Bf16(l.bf16_shared_down.unwrap()),
                ),
            );
        },
        K2Path::Fp8 => {
            let shared = l.fp8_shared_expert.unwrap();
            ops.push(
                make_gate_up(
                    c,
                    MoeLayout::Fp8,
                    l.gate_up_fp8_k,
                    ExpertWeights::Fp8(l.fp8_gate_weight_ptrs.unwrap()),
                    ExpertWeights::Fp8(l.fp8_up_weight_ptrs.unwrap()),
                    SharedWeight::Fp8(shared.gate_proj),
                    SharedWeight::Fp8(shared.up_proj),
                ),
            );
            ops.push(
                make_silu_down(
                    c,
                    MoeLayout::Fp8,
                    l.silu_down_fp8_k,
                    ExpertWeights::Fp8(l.fp8_down_weight_ptrs.unwrap()),
                    SharedWeight::Fp8(shared.down_proj),
                ),
            );
        },
        K2Path::Transposed => {
            ops.push(
                make_gate_up(
                    c,
                    MoeLayout::Transposed,
                    l.gate_up_t_k,
                    ExpertWeights::Nvfp4(l.gate_ptrs_t.unwrap()),
                    ExpertWeights::Nvfp4(l.up_ptrs_t.unwrap()),
                    SharedWeight::Nvfp4(get_or_null(l.shared_gate_t)),
                    SharedWeight::Nvfp4(get_or_null(l.shared_up_t)),
                ),
            );
            ops.push(
                make_silu_down(
                    c,
                    MoeLayout::Transposed,
                    l.silu_down_t_k,
                    ExpertWeights::Nvfp4(l.down_ptrs_t.unwrap()),
                    SharedWeight::Nvfp4(get_or_null(l.shared_down_t)),
                ),
            );
        },
        _ => {
            ops.push(
                make_gate_up(
                    c,
                    MoeLayout::RowMajor { block: 128 },
                    l.gate_up_k,
                    ExpertWeights::Nvfp4(l.gate_ptrs),
                    ExpertWeights::Nvfp4(l.up_ptrs),
                    SharedWeight::Nvfp4(l.shared_gate),
                    SharedWeight::Nvfp4(l.shared_up),
                ),
            );
            push_wait(&mut ops, c.flags.diag);
            if c.flags.precompute_act {
                let pre = build_precomputed(c);
                ops.push(pre[0]);
                ops.push(pre[1]);
                ops.push(pre[2]);
            } else {
                ops.push(
                    make_silu_down(
                        c,
                        MoeLayout::RowMajor { block: 128 },
                        l.silu_down_k,
                        ExpertWeights::Nvfp4(l.down_ptrs),
                        SharedWeight::Nvfp4(l.shared_down),
                    ),
                );
            }
            push_wait(&mut ops, c.flags.diag);
        },
    }
    assert(ops@ =~= project_ops(*c));
    ops
}

fn push_blend(c: &MoeCall, path: K2Path, ops: &mut Vec<Op>)
    requires
        c.fits(),
        path == c.path(),
    ensures
        final(ops)@ == old(ops)@ + blend_ops(*c),
        all_fit(old(ops)@) ==> all_fit(final(ops)@),
{
    let b = &c.ctx.buffers;
    let h: u32 = c.ctx.config.hidden_size as u32;
    let top_k: u32 = c.ctx.config.num_experts_per_tok as u32;
    let is_ep = c.ctx.comm && c.ctx.config.ep_world_size > 1;
    let shared = if is_ep && !b.attn_output.is_null() {
        ops.push(Op::MemsetAsync { ptr: b.expert_gate_out, value: 0, bytes: 4 * h as usize });
        b.expert_gate_out
    } else {
        b.attn_output
    };
    let kernel = if path == K2Path::Fp8 { c.layer.blend_fp8_batch2_k } else { c.layer.blend_batch2_k };
    ops.push(
        Op::MoeBlend2 {
            kernel,
            output: b.moe_output,
            down: b.expert_down_out,
            weights: b.scratch.offset(2 * top_k as usize * 4),
            shared,
            input: c.input,
            gate_weight: c.layer.shared_expert_gate.weight,
            h,
            top_k,
            k: h,
        },
    );
    assert(ops@ =~= old(ops)@ + blend_ops(*c));
}

fn push_reduce(c: &MoeCall, ops: &mut Vec<Op>)
    requires
        c.fits(),
    ensures
        final(ops)@ == old(ops)@ + reduce_ops(*c),
        all_fit(old(ops)@) ==> all_fit(final(ops)@),
{
    let b = &c.ctx.buffers;
    let h: u32 = c.ctx.config.hidden_size as u32;
    if c.ctx.comm && c.ctx.config.ep_world_size > 1 {
        let bytes: usize = 4 * h as usize;
        if c.ctx.graph_capture {
            ops.push(Op::AllReduce { ptr: b.moe_output, bytes });
        } else {
            ops.push(Op::AllReduceAsync { ptr: b.moe_output, bytes });
        }
        if !b.attn_output.is_null() {
            if c.layer.shared_expert_gate.weight.is_null() {
                ops.push(
                    Op::ResidualAdd {
                        kernel: c.layer.residual_add_k,
                        dst: b.moe_output,
                        src: b.attn_output,
                        n: 2 * h,
                    },
                );
            } else {
                ops.push(
                    Op::MoeBatchedBlend {
                        kernel: c.layer.batched_blend_k,
                        output: b.moe_output,
                        shared: b.attn_output,
                        input: c.input,
                        gate_weight: c.layer.shared_expert_gate.weight,
                        h,
                        tokens: 2,
                    },
                );
            }
        }
    }
    assert(ops@ =~= old(ops)@ + reduce_ops(*c));
}

fn build_experts(c: &MoeCall, path: K2Path) -> (r: Vec<Op>)
    requires
        c.fits(),
        path == c.path(),
        path != K2Path::Batched && path != K2Path::TokenMajor,
    ensures
        r@ == expert_ops(*c),
        all_fit(r@),
{
    let mut ops: Vec<Op> = Vec::new();
    push_wait(&mut ops, c.flags.profile);
    push_wait(&mut ops, c.flags.diag);
    let mut project = build_project(c, path);
    ops.append(&mut project);
    push_blend(c, path, &mut ops);
    push_wait(&mut ops, c.flags.diag);
    push_wait(&mut ops, c.flags.profile);
    push_reduce(c, &mut ops);
    push_wait(&mut ops, c.flags.profile);
    assert(ops@ =~= expert_ops(*c));
    ops
}

/// Runs the fused kernels.
fn run_fused<G: GpuBackend>(gpu: &mut G, c: &MoeCall, path: K2Path) -> (r: Result<(), GpuError>)
    requires
        c.fits(),
        path == c.path(),
        path != K2Path::Batched && path != K2Path::TokenMajor,
    ensures
        exists|router_in: DevicePtr|
            ran(old(gpu).trace(), #[trigger] fused_steps(*c, router_in), final(gpu).trace(), refusal(r)),
{
    let ghost pre = gpu.trace();
    let mut entry: Vec<Op> = Vec::new();
    push_wait(&mut entry, c.flags.diag);
    push_wait(&mut entry, c.flags.profile);
    assert(entry@ =~= entry_ops(*c));
    let ops = build_experts(c, path);
    let ghost s0 = steps(entry@, c.stream);
    let ghost tail = steps(ops@, c.stream);
    if let Err(e) = run_ops(gpu, &entry, c.stream) {
        proof {
            let null = null_ptr();
            lemma_ran_cut(pre, s0, route_steps(*c, null), gpu.trace(), e);
            lemma_ran_cut(pre, s0 + route_steps(*c, null), tail, gpu.trace(), e);
            assert(ran(pre, fused_steps(*c, null), gpu.trace(), Some(e)));
        }
        return Err(e);
    }
    let ghost mid = gpu.trace();
    let routed = MoeLayer::route_k2(gpu, c);
    let ghost router_in = choose|router_in: DevicePtr|
        ran(mid, #[trigger] route_steps(*c, router_in), gpu.trace(), refusal(routed));
    let ghost s1 = s0 + route_steps(*c, router_in);
    proof {
        lemma_ran_then(pre, s0, mid, route_steps(*c, router_in), gpu.trace(), refusal(routed));
    }
    if let Err(e) = routed {
        proof {
            lemma_ran_cut(pre, s1, tail, gpu.trace(), e);
            assert(ran(pre, fused_steps(*c, router_in), gpu.trace(), Some(e)));
        }
        return Err(e);
    }
    let ghost t1 = gpu.trace();
    let r = run_ops(gpu, &ops, c.stream);
    proof {
        lemma_ran_then(pre, s1, t1, tail, gpu.trace(), refusal(r));
        assert(ran(pre, fused_steps(*c, router_in), gpu.trace(), refusal(r)));
    }
    r
}

impl MoeLayer {
    /// Runs both tokens through the block.
    pub fn forward_k2<G: GpuBackend>(
        &self,
        gpu: &mut G,
        input: DevicePtr,
        ctx: &ForwardContext,
        flags: &MoeFlags,
        stream: u64,
    ) -> (r: Result<(), GpuError>)
        requires
            moe_call(*self, *ctx, *flags, input, stream).fits(),
        ensures
            exists|router_in: DevicePtr|
                ran(
                    old(gpu).trace(),
                    #[trigger] k2_steps(moe_call(*self, *ctx, *flags, input, stream), router_in),
                    final(gpu).trace(),
                    refusal(r),
                ),
    {
        let c = MoeCall { layer: *self, ctx: *ctx, flags: *flags, input, stream };
        let ghost pre = gpu.trace();
        let path = choose_path(&c);
        if path == K2Path::Batched || path == K2Path::TokenMajor {
            let op = if path == K2Path::Batched {
                Op::MoeForwardBatched { layer: self.index, input, tokens: 2, ctx: *ctx }
            } else {
                Op::MoeForwardTokenMajor { layer: self.index, input, tokens: 2, ctx: *ctx }
            };
            let ops = vec![op];
            assert(ops@ =~= seq![op]);
            let r = run_ops(gpu, &ops, stream);
            assert(ran(pre, k2_steps(c, null_ptr()), gpu.trace(), refusal(r)));
            return r;
        }
        let r = run_fused(gpu, &c, path);
        proof {
            let router_in = choose|router_in: DevicePtr|
                ran(pre, #[trigger] fused_steps(c, router_in), gpu.trace(), refusal(r));
            assert(k2_steps(c, router_in) == fused_steps(c, router_in));
        }
        r
    }
}

pub open spec fn moe_call(layer: MoeLayer, ctx: ForwardContext, flags: MoeFlags, input: DevicePtr, stream: u64) -> MoeCall {
    MoeCall { layer, ctx, flags, input, stream }
}

} // verus!
