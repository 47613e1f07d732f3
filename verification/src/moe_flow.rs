//! What the expert block of two tokens computes.
//!
//! [`moe`](crate::moe) says which operations the block runs. The laws here say
//! what they come to: the routing, the experts and their blend as formulas of the
//! input rows and the weights.

use vstd::prelude::*;

use crate::config::ScoringFunc;
use crate::flow::{
    after, all_apart, leads, lemma_after_add, lemma_after_one, lemma_after_three, lemma_after_two, lemma_at_at,
    lemma_between, lemma_inside, lemma_leads_add, lemma_leads_ask, lemma_leads_steps, lemma_outside, lemma_rebase,
    lemma_row, lemma_wait, off, product, rows_at, seen_dense_gemm, seen_moe_topk, seen_w4a16_gemv_batch2, sum, then_op,
    zone, Mem, Val, Zone,
};
use crate::gpu::{at, null_ptr, DevicePtr, KernelHandle, QuantizedWeight};
use crate::moe::{
    blend_ops, entry_ops, expert_ops, gate_up_op, join_op, k2_steps, logits_op, or_null, pick_ops, precomputed_ops,
    project_ops, reduce_ops, route_ops, route_steps, router_call, sample_op, silu_down_op, topk_op, K2Path, MoeCall,
};
use crate::op::{ExpertWeights, MoeLayout, Op, SharedWeight, TopkScore};
use crate::run::{call_step, steps, wait_if};

verus! {

broadcast use {crate::flow::seen_flat, crate::flow::seen_expert_products};

/// The buffers of the block, as far as it writes them.
pub open spec fn moe_zones(c: MoeCall) -> Seq<Zone> {
    let b = c.ctx.buffers;
    let picks = 2 * (c.top_k() * 4);
    seq![
        zone(b.gate_logits, 2 * (c.experts() * 2)),
        zone(b.scratch, picks),
        zone(at(b.scratch, picks), picks),
        zone(b.expert_gate_out, 4 * c.h()),
        zone(b.expert_up_out, 1),
        zone(b.logits, 1),
        zone(b.ssm_qkvz, 1),
        zone(b.expert_down_out, 1),
        zone(b.attn_output, 1),
        zone(b.moe_output, 4 * c.h()),
        zone(c.input, 1),
    ]
}

/// The buffers of the block are apart, and its sizes fit.
pub open spec fn moe_laid_out(c: MoeCall) -> bool {
    &&& c.h() > 0
    &&& c.experts() > 0
    &&& c.top_k() > 0
    &&& c.fits()
    &&& all_apart(moe_zones(c))
}

/// Router logits of token `t`: the router's view of its row by the router's
/// weight.
pub open spec fn router_logits(c: MoeCall, router_in: DevicePtr, m: Mem, t: int) -> Val {
    let row = m(at(router_in, t * (c.h() * 2)));
    match c.layer.gate_nvfp4 {
        Some(weight) => Val::FourBitProduct {
            kernel: c.layer.w4a16_gemv_batch2,
            weight,
            n: c.experts(),
            k: c.h(),
            of: Box::new(row),
        },
        None => product(c.layer.dense_gemm, c.layer.gate, c.experts(), c.h(), row),
    }
}

/// The kernel and the score by which experts are chosen.
pub open spec fn scoring(c: MoeCall) -> (KernelHandle, TopkScore) {
    match c.layer.correction_bias {
        None => (c.layer.moe_topk_batched, TopkScore::Softmax),
        Some(bias) => {
            let scaling = c.ctx.config.routed_scaling_factor;
            match c.ctx.config.scoring_func {
                ScoringFunc::SqrtSoftplus => (
                    c.layer.moe_topk_sqrtsoftplus_k,
                    TopkScore::SqrtSoftplus { bias, scaling },
                ),
                _ => (c.layer.moe_topk_sigmoid_batched_k, TopkScore::Sigmoid { bias, scaling }),
            }
        },
    }
}

/// The experts of token `t`.
pub open spec fn choice(c: MoeCall, router_in: DevicePtr, m: Mem, t: int) -> Val {
    Val::Choice {
        kernel: scoring(c).0,
        score: scoring(c).1,
        num_experts: c.experts(),
        top_k: c.top_k(),
        norm_topk_prob: c.ctx.config.norm_topk_prob,
        of: Box::new(router_logits(c, router_in, m, t)),
    }
}

/// With which weight each of them counts.
pub open spec fn gains(c: MoeCall, router_in: DevicePtr, m: Mem, t: int) -> Val {
    Val::Gains {
        kernel: scoring(c).0,
        score: scoring(c).1,
        num_experts: c.experts(),
        top_k: c.top_k(),
        norm_topk_prob: c.ctx.config.norm_topk_prob,
        of: Box::new(router_logits(c, router_in, m, t)),
    }
}

/// An address that the routing leaves alone.
pub open spec fn beside_routing(c: MoeCall, q: DevicePtr) -> bool {
    let z = moe_zones(c);
    &&& off(q, z[0].base) >= z[0].bytes
    &&& off(q, z[1].base) >= z[1].bytes
    &&& off(q, z[2].base) >= z[2].bytes
}

#[verifier::rlimit(60)]
#[verifier::spinoff_prover]
proof fn lemma_logits(c: MoeCall, router_in: DevicePtr, m: Mem)
    requires
        moe_laid_out(c),
    ensures
        ({
            let n = then_op(m, logits_op(c, router_in));
            &&& forall|t: int|
                0 <= t < 2 ==> #[trigger] n(at(c.ctx.buffers.gate_logits, t * (c.experts() * 2))) == router_logits(
                    c,
                    router_in,
                    m,
                    t,
                )
            &&& forall|q: DevicePtr|
                off(q, c.ctx.buffers.gate_logits) >= 2 * (c.experts() * 2) ==> #[trigger] n(q) == m(q)
        }),
{
    let b = c.ctx.buffers;
    let n = then_op(m, logits_op(c, router_in));
    let e = c.experts() * 2;
    assert forall|t: int| 0 <= t < 2 implies #[trigger] n(at(b.gate_logits, t * e)) == router_logits(
        c,
        router_in,
        m,
        t,
    ) by {
        let p = at(b.gate_logits, t * e);
        lemma_row(t, 2, e);
        lemma_inside(b.gate_logits, t * e);
        match c.layer.gate_nvfp4 {
            Some(w) => seen_w4a16_gemv_batch2(
                m,
                c.layer.w4a16_gemv_batch2,
                router_in,
                w,
                b.gate_logits,
                c.experts(),
                c.h(),
                p,
            ),
            None => seen_dense_gemm(m, c.layer.dense_gemm, router_in, c.layer.gate, b.gate_logits, 2, c.experts(), c.h(), p),
        }
    }
    assert forall|q: DevicePtr| off(q, b.gate_logits) >= 2 * e implies #[trigger] n(q) == m(q) by {
        match c.layer.gate_nvfp4 {
            Some(w) => seen_w4a16_gemv_batch2(
                m,
                c.layer.w4a16_gemv_batch2,
                router_in,
                w,
                b.gate_logits,
                c.experts(),
                c.h(),
                q,
            ),
            None => seen_dense_gemm(m, c.layer.dense_gemm, router_in, c.layer.gate, b.gate_logits, 2, c.experts(), c.h(), q),
        }
    }
}

/// What a pick of `tokens` tokens from token `from` on writes.
#[verifier::rlimit(60)]
#[verifier::spinoff_prover]
proof fn lemma_pick(c: MoeCall, m: Mem, kernel: KernelHandle, score: TopkScore, from: int, tokens: u32, t: int)
    requires
        moe_laid_out(c),
        0 <= from <= t < from + tokens <= 2,
    ensures
        ({
            let n = then_op(m, topk_op(c, kernel, score, from, tokens));
            let k4 = c.top_k() * 4;
            &&& n(at(c.indices(), t * k4)) == (Val::Choice {
                kernel,
                score,
                num_experts: c.experts(),
                top_k: c.top_k(),
                norm_topk_prob: c.ctx.config.norm_topk_prob,
                of: Box::new(m(at(c.ctx.buffers.gate_logits, t * (c.experts() * 2)))),
            })
            &&& n(at(c.weights(), t * k4)) == (Val::Gains {
                kernel,
                score,
                num_experts: c.experts(),
                top_k: c.top_k(),
                norm_topk_prob: c.ctx.config.norm_topk_prob,
                of: Box::new(m(at(c.ctx.buffers.gate_logits, t * (c.experts() * 2)))),
            })
        }),
{
    let b = c.ctx.buffers;
    let z = moe_zones(c);
    let k4 = c.top_k() * 4;
    let e2 = c.experts() * 2;
    assert(z[1].bytes == 2 * k4 && z[2].bytes == 2 * k4 && z[0].bytes == 2 * e2);
    assert(z[1].base == c.indices() && z[2].base == c.weights());
    let s = t - from;
    assert(from * k4 + s * k4 == t * k4 && from * e2 + s * e2 == t * e2) by (nonlinear_arith)
        requires
            s == t - from,
    ;
    assert(from * k4 >= 0 && from * e2 >= 0 && s * k4 >= 0 && s * e2 >= 0) by (nonlinear_arith)
        requires
            from >= 0,
            s >= 0,
            k4 > 0,
            e2 > 0,
    ;
    lemma_row(t, 2, k4);
    lemma_row(s, tokens as int, k4);
    assert(tokens * k4 <= 2 * k4 - from * k4) by (nonlinear_arith)
        requires
            from + tokens <= 2,
            k4 > 0,
    ;
    let pi = at(c.indices(), t * k4);
    let pw = at(c.weights(), t * k4);
    lemma_between(c.indices(), t * k4, from * k4);
    lemma_between(c.weights(), t * k4, from * k4);
    lemma_at_at(b.gate_logits, from * e2, s * e2);
    // The weights are not among the indices.
    lemma_at_at(b.scratch, 2 * k4, t * k4);
    lemma_between(b.scratch, 2 * k4 + t * k4, from * k4);
    let op = topk_op(c, kernel, score, from, tokens);
    seen_moe_topk(
        m,
        kernel,
        score,
        at(b.gate_logits, from * e2),
        at(c.indices(), from * k4),
        at(c.weights(), from * k4),
        c.experts(),
        c.top_k(),
        c.ctx.config.norm_topk_prob,
        tokens,
        pi,
    );
    seen_moe_topk(
        m,
        kernel,
        score,
        at(b.gate_logits, from * e2),
        at(c.indices(), from * k4),
        at(c.weights(), from * k4),
        c.experts(),
        c.top_k(),
        c.ctx.config.norm_topk_prob,
        tokens,
        pw,
    );
}

proof fn lemma_pick_frame(c: MoeCall, m: Mem, kernel: KernelHandle, score: TopkScore, from: int, tokens: u32, q: DevicePtr)
    requires
        off(q, at(c.indices(), from * (c.top_k() * 4))) >= tokens * (c.top_k() * 4),
        off(q, at(c.weights(), from * (c.top_k() * 4))) >= tokens * (c.top_k() * 4),
    ensures
        then_op(m, topk_op(c, kernel, score, from, tokens))(q) == m(q),
{
    seen_moe_topk(
        m,
        kernel,
        score,
        at(c.ctx.buffers.gate_logits, from * (c.experts() * 2)),
        at(c.indices(), from * (c.top_k() * 4)),
        at(c.weights(), from * (c.top_k() * 4)),
        c.experts(),
        c.top_k(),
        c.ctx.config.norm_topk_prob,
        tokens,
        q,
    );
}

/// A pick leaves alone what lies outside the indices and the weights.
proof fn lemma_pick_beside(c: MoeCall, m: Mem, kernel: KernelHandle, score: TopkScore, from: int, tokens: u32, q: DevicePtr)
    requires
        moe_laid_out(c),
        0 <= from,
        from + tokens <= 2,
        off(q, c.indices()) >= 2 * (c.top_k() * 4),
        off(q, c.weights()) >= 2 * (c.top_k() * 4),
    ensures
        then_op(m, topk_op(c, kernel, score, from, tokens))(q) == m(q),
{
    let k4 = c.top_k() * 4;
    assert(0 <= from * k4 <= 2 * k4 && tokens * k4 <= 2 * k4 - from * k4) by (nonlinear_arith)
        requires
            0 <= from,
            from + tokens <= 2,
            k4 > 0,
    ;
    lemma_rebase(q, c.indices(), from * k4);
    lemma_rebase(q, c.weights(), from * k4);
    lemma_pick_frame(c, m, kernel, score, from, tokens, q);
}

/// Both tokens' experts and gains stand after the picks.
#[verifier::rlimit(60)]
#[verifier::spinoff_prover]
proof fn lemma_picks(c: MoeCall, router_in: DevicePtr, m: Mem, m1: Mem)
    requires
        moe_laid_out(c),
        forall|t: int|
            0 <= t < 2 ==> #[trigger] m1(at(c.ctx.buffers.gate_logits, t * (c.experts() * 2))) == router_logits(
                c,
                router_in,
                m,
                t,
            ),
    ensures
        forall|t: int|
            0 <= t < 2 ==> #[trigger] after(m1, pick_ops(c))(at(c.indices(), t * (c.top_k() * 4))) == choice(
                c,
                router_in,
                m,
                t,
            ),
        forall|t: int|
            0 <= t < 2 ==> #[trigger] after(m1, pick_ops(c))(at(c.weights(), t * (c.top_k() * 4))) == gains(
                c,
                router_in,
                m,
                t,
            ),
        forall|q: DevicePtr| beside_routing(c, q) ==> #[trigger] after(m1, pick_ops(c))(q) == m1(q),
{
    let b = c.ctx.buffers;
    let z = moe_zones(c);
    let k4 = c.top_k() * 4;
    let e2 = c.experts() * 2;
    let (kernel, score) = scoring(c);
    let n = after(m1, pick_ops(c));
    assert(z[1].base == c.indices() && z[2].base == c.weights() && z[0].base == b.gate_logits);
    if pick_ops(c).len() == 1 {
        let op = topk_op(c, kernel, score, 0, 2);
        assert(pick_ops(c) =~= seq![op]);
        lemma_after_one(m1, op);
        assert forall|t: int| 0 <= t < 2 implies #[trigger] n(at(c.indices(), t * k4)) == choice(c, router_in, m, t) by {
            lemma_pick(c, m1, kernel, score, 0, 2, t);
            assert(m1(at(b.gate_logits, t * e2)) == router_logits(c, router_in, m, t));
        }
        assert forall|t: int| 0 <= t < 2 implies #[trigger] n(at(c.weights(), t * k4)) == gains(c, router_in, m, t) by {
            lemma_pick(c, m1, kernel, score, 0, 2, t);
            assert(m1(at(b.gate_logits, t * e2)) == router_logits(c, router_in, m, t));
        }
        assert forall|q: DevicePtr| beside_routing(c, q) implies #[trigger] n(q) == m1(q) by {
            lemma_pick_beside(c, m1, kernel, score, 0, 2, q);
        }
    } else {
        let op0 = topk_op(c, kernel, score, 0, 1);
        let op1 = topk_op(c, kernel, score, 1, 1);
        assert(pick_ops(c) =~= seq![op0, op1]);
        lemma_after_two(m1, op0, op1);
        let m2 = then_op(m1, op0);
        lemma_pick(c, m1, kernel, score, 0, 1, 0);
        lemma_pick(c, m2, kernel, score, 1, 1, 1);
        assert(m1(at(b.gate_logits, 0 * e2)) == router_logits(c, router_in, m, 0));
        assert(m1(at(b.gate_logits, 1 * e2)) == router_logits(c, router_in, m, 1));
        // The first pick leaves the second token's logits alone.
        lemma_outside(z[1], z[0], 1 * e2);
        lemma_outside(z[2], z[0], 1 * e2);
        lemma_pick_beside(c, m1, kernel, score, 0, 1, at(b.gate_logits, 1 * e2));
        // The second pick leaves the first token's alone.
        let p = at(c.indices(), 0 * k4);
        let w = at(c.weights(), 0 * k4);
        lemma_between(b.scratch, 0, k4);
        lemma_at_at(b.scratch, 2 * k4, k4);
        lemma_at_at(b.scratch, 2 * k4, 0);
        lemma_between(b.scratch, 0, 3 * k4);
        lemma_between(b.scratch, 2 * k4, k4);
        lemma_between(b.scratch, 2 * k4, 3 * k4);
        assert(1 * k4 == k4 && 0 * k4 == 0) by (nonlinear_arith);
        lemma_pick_frame(c, m2, kernel, score, 1, 1, p);
        lemma_pick_frame(c, m2, kernel, score, 1, 1, w);
        assert forall|t: int| 0 <= t < 2 implies #[trigger] n(at(c.indices(), t * k4)) == choice(c, router_in, m, t) by {
            assert(t == 0 || t == 1);
        }
        assert forall|t: int| 0 <= t < 2 implies #[trigger] n(at(c.weights(), t * k4)) == gains(c, router_in, m, t) by {
            assert(t == 0 || t == 1);
        }
        assert forall|q: DevicePtr| beside_routing(c, q) implies #[trigger] n(q) == m1(q) by {
            lemma_pick_beside(c, m1, kernel, score, 0, 1, q);
            lemma_pick_beside(c, m2, kernel, score, 1, 1, q);
        }
    }
}

/// Each of the two tokens goes to the experts that its own router logits choose,
/// with its own gains; nothing else changes.
pub proof fn tokens_are_routed_by_their_own_logits(c: MoeCall, router_in: DevicePtr, m: Mem) -> (n: Mem)
    requires
        moe_laid_out(c),
    ensures
        leads(route_steps(c, router_in), c.stream, m, n),
        forall|t: int|
            0 <= t < 2 ==> #[trigger] n(at(c.indices(), t * (c.top_k() * 4))) == choice(c, router_in, m, t),
        forall|t: int|
            0 <= t < 2 ==> #[trigger] n(at(c.weights(), t * (c.top_k() * 4))) == gains(c, router_in, m, t),
        forall|q: DevicePtr| beside_routing(c, q) ==> #[trigger] n(q) == m(q),
{
    let ask = call_step(router_call(c), c.stream, router_in);
    let lead = seq![logits_op(c, router_in)];
    let picks = pick_ops(c);
    let tail = seq![sample_op(c)];
    let m1 = after(m, lead);
    lemma_after_one(m, logits_op(c, router_in));
    lemma_logits(c, router_in, m);
    lemma_picks(c, router_in, m, m1);
    lemma_after_add(m, lead, picks);
    lemma_after_add(m, lead + picks, tail);
    let m2 = after(m1, picks);
    lemma_after_one(m2, sample_op(c));
    let n = after(m, route_ops(c, router_in));
    assert forall|q: DevicePtr| #[trigger] n(q) == m2(q) by {}
    lemma_leads_ask(ask, c.stream, m);
    lemma_leads_steps(route_ops(c, router_in), c.stream, m);
    lemma_leads_add(seq![ask], steps(route_ops(c, router_in), c.stream), c.stream, m, m, n);
    n
}

/// The weights of the experts in the form that a path uses, and its kernels.
pub struct ExpertSet {
    pub layout: MoeLayout,
    pub up_kernel: KernelHandle,
    pub down_kernel: KernelHandle,
    pub gate: ExpertWeights,
    pub up: ExpertWeights,
    pub down: ExpertWeights,
    pub sh_gate: SharedWeight,
    pub sh_up: SharedWeight,
    pub sh_down: SharedWeight,
}

/// A weight that may be missing: without its copy the kernel gets a null one.
pub open spec fn present(w: Option<QuantizedWeight>) -> SharedWeight {
    SharedWeight::Nvfp4(if w is Some { w->0 } else { or_null(None) })
}

/// What each path takes.
pub open spec fn expert_set(c: MoeCall) -> ExpertSet {
    let l = c.layer;
    match c.path() {
        K2Path::Bf16 => ExpertSet {
            layout: MoeLayout::Bf16,
            up_kernel: l.gate_up_bf16_k,
            down_kernel: l.silu_down_bf16_k,
            gate: ExpertWeights::Bf16(l.bf16_gate_weight_ptrs->0),
            up: ExpertWeights::Bf16(l.bf16_up_weight_ptrs->0),
            down: ExpertWeights::Bf16(l.bf16_down_weight_ptrs->0),
            sh_gate: SharedWeight::Bf16(l.bf16_shared_gate->0),
            sh_up: SharedWeight::Bf16(l.bf16_shared_up->0),
            sh_down: SharedWeight::Bf16(l.bf16_shared_down->0),
        },
        K2Path::Fp8 => ExpertSet {
            layout: MoeLayout::Fp8,
            up_kernel: l.gate_up_fp8_k,
            down_kernel: l.silu_down_fp8_k,
            gate: ExpertWeights::Fp8(l.fp8_gate_weight_ptrs->0),
            up: ExpertWeights::Fp8(l.fp8_up_weight_ptrs->0),
            down: ExpertWeights::Fp8(l.fp8_down_weight_ptrs->0),
            sh_gate: SharedWeight::Fp8(l.fp8_shared_expert->0.gate_proj),
            sh_up: SharedWeight::Fp8(l.fp8_shared_expert->0.up_proj),
            sh_down: SharedWeight::Fp8(l.fp8_shared_expert->0.down_proj),
        },
        K2Path::Transposed => ExpertSet {
            layout: MoeLayout::Transposed,
            up_kernel: l.gate_up_t_k,
            down_kernel: l.silu_down_t_k,
            gate: ExpertWeights::Nvfp4(l.gate_ptrs_t->0),
            up: ExpertWeights::Nvfp4(l.up_ptrs_t->0),
            down: ExpertWeights::Nvfp4(l.down_ptrs_t->0),
            sh_gate: present(l.shared_gate_t),
            sh_up: present(l.shared_up_t),
            sh_down: present(l.shared_down_t),
        },
        _ => ExpertSet {
            layout: MoeLayout::RowMajor { block: 128 },
            up_kernel: l.gate_up_k,
            down_kernel: if c.flags.precompute_act { l.down_precomputed_k } else { l.silu_down_k },
            gate: ExpertWeights::Nvfp4(l.gate_ptrs),
            up: ExpertWeights::Nvfp4(l.up_ptrs),
            down: ExpertWeights::Nvfp4(l.down_ptrs),
            sh_gate: SharedWeight::Nvfp4(l.shared_gate),
            sh_up: SharedWeight::Nvfp4(l.shared_up),
            sh_down: SharedWeight::Nvfp4(l.shared_down),
        },
    }
}

/// The input rows by one weight of the chosen experts.
pub open spec fn expert_product(c: MoeCall, weight: ExpertWeights, chosen: Seq<Val>, x: Val) -> Val {
    let s = expert_set(c);
    Val::Expert {
        layout: s.layout,
        kernel: s.up_kernel,
        weight,
        inter: c.inter(),
        h: c.h(),
        top_k: c.top_k(),
        choice: chosen,
        of: Box::new(x),
    }
}

/// The input rows by one weight of the shared expert.
pub open spec fn shared_product(c: MoeCall, weight: SharedWeight, x: Val) -> Val {
    let s = expert_set(c);
    Val::Shared { layout: s.layout, kernel: s.up_kernel, weight, inter: c.inter(), h: c.h(), of: Box::new(x) }
}

/// The chosen experts on `x`: down of `silu(gate of x) * (up of x)`.
pub open spec fn experts_of(c: MoeCall, chosen: Seq<Val>, x: Val) -> Val {
    let s = expert_set(c);
    let gate = Box::new(expert_product(c, s.gate, chosen, x));
    let up = Box::new(expert_product(c, s.up, chosen, x));
    if c.path() == K2Path::RowMajor && c.flags.precompute_act {
        Val::ExpertDownOf {
            kernel: s.down_kernel,
            weight: s.down,
            h: c.h(),
            inter: c.inter(),
            top_k: c.top_k(),
            choice: chosen,
            act: Box::new(Val::Gated { kernel: c.layer.silu_mul_k, gate, up }),
        }
    } else {
        Val::ExpertDown {
            layout: s.layout,
            kernel: s.down_kernel,
            weight: s.down,
            h: c.h(),
            inter: c.inter(),
            top_k: c.top_k(),
            choice: chosen,
            gate,
            up,
        }
    }
}

/// The shared expert on `x`, in the same way.
pub open spec fn shared_of(c: MoeCall, x: Val) -> Val {
    let s = expert_set(c);
    let gate = Box::new(shared_product(c, s.sh_gate, x));
    let up = Box::new(shared_product(c, s.sh_up, x));
    if c.path() == K2Path::RowMajor && c.flags.precompute_act {
        Val::SharedDownOf {
            kernel: s.down_kernel,
            weight: s.sh_down,
            h: c.h(),
            inter: c.inter(),
            act: Box::new(Val::Gated { kernel: c.layer.silu_mul_k, gate, up }),
        }
    } else {
        Val::SharedDown {
            layout: s.layout,
            kernel: s.down_kernel,
            weight: s.sh_down,
            h: c.h(),
            inter: c.inter(),
            gate,
            up,
        }
    }
}

/// Routed outputs by their gains, with `shared` by its gate.
pub open spec fn blended(c: MoeCall, chosen: Seq<Val>, counts: Seq<Val>, shared: Val, x: Val) -> Val {
    Val::Blend {
        kernel: if c.path() == K2Path::Fp8 {
            c.layer.blend_fp8_batch2_k
        } else {
            c.layer.blend_batch2_k
        },
        h: c.h(),
        top_k: c.top_k(),
        k: c.h(),
        down: Box::new(experts_of(c, chosen, x)),
        gains: counts,
        shared: Box::new(shared),
        input: Box::new(x),
        gate_weight: c.layer.shared_expert_gate.weight,
    }
}

/// The output of the block for input rows `x`.
///
/// On one rank it is the blend of the routed experts with the shared expert.
/// Across ranks the routed experts are blended without the shared one and summed
/// over the ranks; the shared expert, which every rank has whole, joins after
/// that and so counts once. A block without room for it is blended and summed.
pub open spec fn block_output(c: MoeCall, chosen: Seq<Val>, counts: Seq<Val>, x: Val) -> Val {
    let shared = shared_of(c, x);
    if !c.is_ep() {
        blended(c, chosen, counts, shared, x)
    } else if c.ctx.buffers.attn_output == null_ptr() {
        Val::Reduced { of: Box::new(blended(c, chosen, counts, shared, x)) }
    } else {
        let routed = Val::Reduced { of: Box::new(blended(c, chosen, counts, Val::Filled(0), x)) };
        if c.layer.shared_expert_gate.weight == null_ptr() {
            sum(c.layer.residual_add_k, routed, shared)
        } else {
            Val::Joined {
                kernel: c.layer.batched_blend_k,
                h: c.h(),
                tokens: 2,
                routed: Box::new(routed),
                shared: Box::new(shared),
                input: Box::new(x),
                gate_weight: c.layer.shared_expert_gate.weight,
            }
        }
    }
}

/// The starts of the buffers lie outside one another.
proof fn lemma_moe_zones(c: MoeCall)
    requires
        moe_laid_out(c),
    ensures
        forall|i: int, j: int|
            0 <= i < 11 && 0 <= j < 11 && i != j ==> off(
                (#[trigger] moe_zones(c)[i]).base,
                (#[trigger] moe_zones(c)[j]).base,
            ) >= moe_zones(c)[j].bytes,
        moe_zones(c).len() == 11,
{
}

/// The products of a block: the routed and the shared expert, each with its own
/// gate and up.
#[verifier::rlimit(60)]
#[verifier::spinoff_prover]
proof fn lemma_projected(c: MoeCall, m: Mem)
    requires
        moe_laid_out(c),
        c.path() != K2Path::Batched && c.path() != K2Path::TokenMajor,
    ensures
        ({
            let n = after(m, project_ops(c));
            let b = c.ctx.buffers;
            let chosen = rows_at(m, c.indices(), 2, c.top_k() * 4);
            &&& n(b.expert_down_out) == experts_of(c, chosen, m(c.input))
            &&& n(b.attn_output) == shared_of(c, m(c.input))
            &&& forall|q: DevicePtr|
                q != b.expert_gate_out && q != b.expert_up_out && q != b.logits && q != b.ssm_qkvz && q
                    != b.expert_down_out && q != b.attn_output ==> #[trigger] n(q) == m(q)
        }),
{
    let b = c.ctx.buffers;
    let z = moe_zones(c);
    lemma_moe_zones(c);
    let s = expert_set(c);
    let first = gate_up_op(c, s.layout, s.up_kernel, s.gate, s.up, s.sh_gate, s.sh_up);
    let m1 = then_op(m, first);
    let chosen = rows_at(m, c.indices(), 2, c.top_k() * 4);
    assert(z[3].base == b.expert_gate_out && z[4].base == b.expert_up_out && z[5].base == b.logits && z[6].base
        == b.ssm_qkvz && z[7].base == b.expert_down_out && z[8].base == b.attn_output && z[1].base == c.indices());
    lemma_distinct(c);
    assert(m1(b.expert_gate_out) == expert_product(c, s.gate, chosen, m(c.input)));
    assert(m1(b.expert_up_out) == expert_product(c, s.up, chosen, m(c.input)));
    assert(m1(b.logits) == shared_product(c, s.sh_gate, m(c.input)));
    assert(m1(b.ssm_qkvz) == shared_product(c, s.sh_up, m(c.input)));
    lemma_picks_kept(c, m, m1);
    if c.path() == K2Path::RowMajor {
        let wait = wait_if(c.flags.diag);
        let down = if c.flags.precompute_act {
            precomputed_ops(c)
        } else {
            seq![silu_down_op(c, s.layout, s.down_kernel, s.down, s.sh_down)]
        };
        lemma_after_one(m, first);
        lemma_wait(m1, c.flags.diag);
        lemma_after_add(m, seq![first], wait);
        lemma_after_add(m, seq![first] + wait, down);
        lemma_after_add(m, seq![first] + wait + down, wait);
        lemma_wait(after(m1, down), c.flags.diag);
        assert(project_ops(c) =~= seq![first] + wait + down + wait);
        if c.flags.precompute_act {
            let o = precomputed_ops(c);
            assert(o =~= seq![o[0], o[1], o[2]]);
            lemma_after_three(m1, o[0], o[1], o[2]);
            let m2 = then_op(m1, o[0]);
            let m3 = then_op(m2, o[1]);
            lemma_picks_kept(c, m, m3);
        } else {
            lemma_after_one(m1, down[0]);
        }
    } else {
        let second = silu_down_op(c, s.layout, s.down_kernel, s.down, s.sh_down);
        lemma_after_two(m, first, second);
        assert(project_ops(c) =~= seq![first, second]);
    }
}

/// The buffers of the products are different ones.
proof fn lemma_distinct(c: MoeCall)
    requires
        moe_laid_out(c),
    ensures
        ({
            let b = c.ctx.buffers;
            &&& b.expert_gate_out != b.expert_up_out && b.expert_gate_out != b.logits && b.expert_gate_out != b.ssm_qkvz
            &&& b.expert_gate_out != b.expert_down_out && b.expert_gate_out != b.attn_output
            &&& b.expert_up_out != b.logits && b.expert_up_out != b.ssm_qkvz && b.expert_up_out != b.expert_down_out
            &&& b.expert_up_out != b.attn_output && b.logits != b.ssm_qkvz && b.logits != b.expert_down_out
            &&& b.logits != b.attn_output && b.ssm_qkvz != b.expert_down_out && b.ssm_qkvz != b.attn_output
            &&& b.expert_down_out != b.attn_output
        }),
{
    let z = moe_zones(c);
    lemma_moe_zones(c);
    assert forall|i: int, j: int| 0 <= i < 11 && 0 <= j < 11 && i != j implies (#[trigger] z[i]).base != (#[trigger] z[j]).base by {
        assert(off(z[i].base, z[j].base) >= z[j].bytes);
    }
    assert(z[3].base != z[4].base && z[3].base != z[5].base && z[3].base != z[6].base);
    assert(z[3].base != z[7].base && z[3].base != z[8].base && z[4].base != z[5].base);
    assert(z[4].base != z[6].base && z[4].base != z[7].base && z[4].base != z[8].base);
    assert(z[5].base != z[6].base && z[5].base != z[7].base && z[5].base != z[8].base);
    assert(z[6].base != z[7].base && z[6].base != z[8].base && z[7].base != z[8].base);
}

/// What writes only the products' buffers keeps the picks.
proof fn lemma_picks_kept(c: MoeCall, m: Mem, n: Mem)
    requires
        moe_laid_out(c),
        forall|q: DevicePtr|
            q != c.ctx.buffers.expert_gate_out && q != c.ctx.buffers.expert_up_out && q != c.ctx.buffers.logits && q
                != c.ctx.buffers.ssm_qkvz && q != c.ctx.buffers.expert_down_out && q != c.ctx.buffers.attn_output
                ==> #[trigger] n(q) == m(q),
    ensures
        rows_at(n, c.indices(), 2, c.top_k() * 4) == rows_at(m, c.indices(), 2, c.top_k() * 4),
        rows_at(n, c.weights(), 2, c.top_k() * 4) == rows_at(m, c.weights(), 2, c.top_k() * 4),
{
    let k4 = c.top_k() * 4;
    lemma_pick_places(c);
    assert(rows_at(n, c.indices(), 2, k4) =~= rows_at(m, c.indices(), 2, k4));
    assert(rows_at(n, c.weights(), 2, k4) =~= rows_at(m, c.weights(), 2, k4));
}

/// The picks stand in none of the other buffers.
#[verifier::rlimit(60)]
#[verifier::spinoff_prover]
proof fn lemma_pick_places(c: MoeCall)
    requires
        moe_laid_out(c),
    ensures
        forall|t: int, j: int|
            0 <= t < 2 && 3 <= j < 11 ==> off(
                #[trigger] at(c.indices(), t * (c.top_k() * 4)),
                (#[trigger] moe_zones(c)[j]).base,
            ) >= moe_zones(c)[j].bytes,
        forall|t: int, j: int|
            0 <= t < 2 && 3 <= j < 11 ==> off(
                #[trigger] at(c.weights(), t * (c.top_k() * 4)),
                (#[trigger] moe_zones(c)[j]).base,
            ) >= moe_zones(c)[j].bytes,
        forall|t: int|
            0 <= t < 2 ==> ({
                let q = #[trigger] at(c.indices(), t * (c.top_k() * 4));
                let b = c.ctx.buffers;
                q != b.expert_gate_out && q != b.expert_up_out && q != b.logits && q != b.ssm_qkvz && q
                    != b.expert_down_out && q != b.attn_output && q != b.moe_output
            }),
        forall|t: int|
            0 <= t < 2 ==> ({
                let q = #[trigger] at(c.weights(), t * (c.top_k() * 4));
                let b = c.ctx.buffers;
                q != b.expert_gate_out && q != b.expert_up_out && q != b.logits && q != b.ssm_qkvz && q
                    != b.expert_down_out && q != b.attn_output && q != b.moe_output
            }),
{
    let z = moe_zones(c);
    let k4 = c.top_k() * 4;
    assert(z[1].base == c.indices() && z[2].base == c.weights() && z[1].bytes == 2 * k4 && z[2].bytes == 2 * k4);
    assert forall|t: int, j: int| 0 <= t < 2 && 3 <= j < 11 implies off(
        #[trigger] at(c.indices(), t * k4),
        (#[trigger] z[j]).base,
    ) >= z[j].bytes by {
        lemma_row(t, 2, k4);
        lemma_outside(z[j], z[1], t * k4);
    }
    assert forall|t: int, j: int| 0 <= t < 2 && 3 <= j < 11 implies off(
        #[trigger] at(c.weights(), t * k4),
        (#[trigger] z[j]).base,
    ) >= z[j].bytes by {
        lemma_row(t, 2, k4);
        lemma_outside(z[j], z[2], t * k4);
    }
    let b = c.ctx.buffers;
    assert(z[3].base == b.expert_gate_out && z[4].base == b.expert_up_out && z[5].base == b.logits && z[6].base
        == b.ssm_qkvz && z[7].base == b.expert_down_out && z[8].base == b.attn_output && z[9].base == b.moe_output);
}

/// Blending and summing over the ranks.
#[verifier::rlimit(60)]
#[verifier::spinoff_prover]
proof fn lemma_blended(c: MoeCall, m: Mem, chosen: Seq<Val>, x: Val)
    requires
        moe_laid_out(c),
        m(c.ctx.buffers.expert_down_out) == experts_of(c, chosen, x),
        m(c.ctx.buffers.attn_output) == shared_of(c, x),
        m(c.input) == x,
    ensures
        after(after(m, blend_ops(c)), reduce_ops(c))(c.ctx.buffers.moe_output) == block_output(
            c,
            chosen,
            rows_at(m, c.weights(), 2, c.top_k() * 4),
            x,
        ),
{
    let b = c.ctx.buffers;
    let z = moe_zones(c);
    let k4 = c.top_k() * 4;
    let counts = rows_at(m, c.weights(), 2, k4);
    lemma_moe_zones(c);
    assert(z[3].base == b.expert_gate_out && z[7].base == b.expert_down_out && z[8].base == b.attn_output && z[9].base
        == b.moe_output && z[10].base == c.input);
    let o = blend_ops(c);
    let m1 = after(m, o);
    if o.len() == 2 {
        assert(o =~= seq![o[0], o[1]]);
        lemma_after_two(m, o[0], o[1]);
        let m0 = then_op(m, o[0]);
        lemma_pick_places(c);
        assert(rows_at(m0, c.weights(), 2, k4) =~= counts) by {
            assert forall|t: int| 0 <= t < 2 implies m0(#[trigger] at(c.weights(), t * k4)) == m(at(c.weights(), t * k4)) by {
                assert(off(at(c.weights(), t * k4), z[3].base) >= z[3].bytes);
            }
        }
        assert(off(z[7].base, z[3].base) >= z[3].bytes);
        assert(off(z[8].base, z[3].base) >= z[3].bytes);
        assert(off(z[10].base, z[3].base) >= z[3].bytes);
        assert(m0(b.expert_gate_out) == Val::Filled(0));
        assert(m1(b.moe_output) == blended(c, chosen, counts, Val::Filled(0), x));
    } else {
        assert(o =~= seq![o[0]]);
        lemma_after_one(m, o[0]);
        assert(m1(b.moe_output) == blended(c, chosen, counts, shared_of(c, x), x));
    }
    assert(off(z[8].base, z[9].base) >= z[9].bytes);
    assert(off(z[10].base, z[9].base) >= z[9].bytes);
    assert(m1(b.attn_output) == shared_of(c, x));
    assert(m1(c.input) == x);
    let r = reduce_ops(c);
    if r.len() == 1 {
        assert(r =~= seq![r[0]]);
        lemma_after_one(m1, r[0]);
        assert(c.is_ep() && b.attn_output == null_ptr());
        assert(off(b.moe_output, b.moe_output) < 4 * c.h());
    } else if r.len() == 2 {
        assert(r =~= seq![r[0], r[1]]);
        lemma_after_two(m1, r[0], r[1]);
        let m2 = then_op(m1, r[0]);
        assert(c.is_ep() && b.attn_output != null_ptr());
        assert(m2(b.moe_output) == Val::Reduced { of: Box::new(m1(b.moe_output)) });
        assert(m2(b.attn_output) == shared_of(c, x));
        assert(m2(c.input) == x);
        assert(at(b.attn_output, 0) == b.attn_output);
        let n = then_op(m2, join_op(c));
        assert(r[1] == join_op(c));
        if c.layer.shared_expert_gate.weight == null_ptr() {
            assert(join_op(c) is ResidualAdd);
            assert((2 * c.h()) as u32 == 2 * c.h());
            assert(n(b.moe_output) == sum(c.layer.residual_add_k, m2(b.moe_output), m2(b.attn_output)));
        } else {
            assert(join_op(c) is MoeBatchedBlend);
        }
    } else {
        assert(!c.is_ep());
        assert(r =~= Seq::<Op>::empty());
    }
}

/// The output of the expert block: every token by the experts that its own router
/// logits choose, each expert `down(silu(gate) * up)` with gate and up products of
/// the same input, the shared expert in the same way, all blended by the token's
/// own gains. The shared expert counts once, however many ranks there are.
#[verifier::rlimit(60)]
#[verifier::spinoff_prover]
pub proof fn expert_block_blends_gated_experts(c: MoeCall, router_in: DevicePtr, m: Mem) -> (n: Mem)
    requires
        moe_laid_out(c),
        c.path() != K2Path::Batched && c.path() != K2Path::TokenMajor,
    ensures
        leads(k2_steps(c, router_in), c.stream, m, n),
        n(c.ctx.buffers.moe_output) == block_output(
            c,
            seq![choice(c, router_in, m, 0), choice(c, router_in, m, 1)],
            seq![gains(c, router_in, m, 0), gains(c, router_in, m, 1)],
            m(c.input),
        ),
{
    let b = c.ctx.buffers;
    let z = moe_zones(c);
    let k4 = c.top_k() * 4;
    let chosen = seq![choice(c, router_in, m, 0), choice(c, router_in, m, 1)];
    let counts = seq![gains(c, router_in, m, 0), gains(c, router_in, m, 1)];
    lemma_moe_zones(c);
    let entry = entry_ops(c);
    lemma_after_add(m, wait_if(c.flags.diag), wait_if(c.flags.profile));
    lemma_wait(m, c.flags.diag);
    lemma_wait(m, c.flags.profile);
    lemma_leads_steps(entry, c.stream, m);
    let m1 = tokens_are_routed_by_their_own_logits(c, router_in, m);
    lemma_leads_add(steps(entry, c.stream), route_steps(c, router_in), c.stream, m, m, m1);
    assert(rows_at(m1, c.indices(), 2, k4) =~= chosen);
    assert(rows_at(m1, c.weights(), 2, k4) =~= counts);
    assert(z[10].base == c.input);
    assert(beside_routing(c, c.input)) by {
        assert(off(z[10].base, z[0].base) >= z[0].bytes);
        assert(off(z[10].base, z[1].base) >= z[1].bytes);
        assert(off(z[10].base, z[2].base) >= z[2].bytes);
    }
    assert(m1(c.input) == m(c.input));
    let w0 = wait_if(c.flags.profile);
    let w1 = wait_if(c.flags.diag);
    let p = project_ops(c);
    let m2 = after(m1, p);
    lemma_projected(c, m1);
    lemma_picks_kept(c, m1, m2);
    assert(m2(c.input) == m(c.input)) by {
        assert forall|j: int| 3 <= j < 10 implies c.input != (#[trigger] z[j]).base by {
            assert(off(z[10].base, z[j].base) >= z[j].bytes);
        }
        assert(z[3].base == b.expert_gate_out && z[4].base == b.expert_up_out && z[5].base == b.logits && z[6].base
            == b.ssm_qkvz && z[7].base == b.expert_down_out && z[8].base == b.attn_output);
    }
    lemma_blended(c, m2, chosen, m(c.input));
    let m3 = after(m2, blend_ops(c));
    let m4 = after(m3, reduce_ops(c));
    let all = expert_ops(c);
    lemma_wait(m1, c.flags.profile);
    lemma_wait(m1, c.flags.diag);
    lemma_wait(m3, c.flags.diag);
    lemma_wait(m3, c.flags.profile);
    lemma_wait(m4, c.flags.profile);
    lemma_after_add(m1, w0, w1);
    lemma_after_add(m1, w0 + w1, p);
    lemma_after_add(m1, w0 + w1 + p, blend_ops(c));
    lemma_after_add(m1, w0 + w1 + p + blend_ops(c), w1);
    lemma_after_add(m1, w0 + w1 + p + blend_ops(c) + w1, w0);
    lemma_after_add(m1, w0 + w1 + p + blend_ops(c) + w1 + w0, reduce_ops(c));
    lemma_after_add(m1, w0 + w1 + p + blend_ops(c) + w1 + w0 + reduce_ops(c), w0);
    assert(after(m1, all) == m4);
    lemma_leads_steps(all, c.stream, m1);
    lemma_leads_add(
        steps(entry, c.stream) + route_steps(c, router_in),
        steps(all, c.stream),
        c.stream,
        m,
        m1,
        m4,
    );
    m4
}

/// Gate products go with the up products that were made with them: whatever the
/// path, what is written as gate is read as gate, and what is written as up is
/// read as up, for the routed experts and for the shared expert alike.
pub proof fn gates_stay_with_their_ups(c: MoeCall, i: int, j: int)
    requires
        0 <= i < project_ops(c).len(),
        0 <= j < project_ops(c).len(),
        project_ops(c)[i] is MoeGateUp,
    ensures
        match (project_ops(c)[i], project_ops(c)[j]) {
            (
                Op::MoeGateUp { gate_out, up_out, sh_gate_out, sh_up_out, indices: chosen, .. },
                Op::MoeSiluDown { gate, up, sh_gate, sh_up, indices, .. },
            ) => {
                &&& gate == gate_out
                &&& up == up_out
                &&& sh_gate == sh_gate_out
                &&& sh_up == sh_up_out
                &&& indices == chosen
            },
            (Op::MoeGateUp { gate_out, up_out, sh_gate_out, sh_up_out, .. }, Op::MoeSiluMul { gate, up, .. }) => {
                ||| gate == gate_out && up == up_out
                ||| gate == sh_gate_out && up == sh_up_out
            },
            _ => true,
        },
{
}

} // verus!
