//! What a decode layer over one residual stream computes.
//!
//! [`attention_decode`](crate::attention_decode) says which operations the layer
//! runs. The laws here say what they come to: the hidden row at the end as a
//! formula of the hidden row at the start.

use vstd::prelude::*;

use crate::attention_decode::{
    after_attn_ops, decode_steps, dual, dual_mid_ops, dual_tail_ops, end_look, entry_ops, gated, plain_tail_ops,
    DecodeCall, DecodeReplies,
};
use crate::flow::{
    after, all_apart, apart, leads, lemma_after_add, lemma_after_one, lemma_after_two, lemma_leads_add,
    lemma_leads_ask, lemma_leads_steps, lemma_quiet, norm, off, sum, then_event, then_op, zone, Mem, Val, Zone,
};
use crate::gpu::{at, DenseWeight, DevicePtr};
use crate::op::{FfnKind, Op};
use crate::run::{call_step, steps};
use crate::trace::Tables;

verus! {

broadcast use {
    crate::flow::seen_flat,
    crate::flow::seen_residual_add_rms_norm,
    crate::flow::seen_residual_add_rms_norm_gate_f32,
};

/// The rows of a layer, with `row` among them.
pub open spec fn decode_zones(c: DecodeCall, row: DevicePtr) -> Seq<Zone> {
    let bytes = c.ctx.config.hidden_size * 2;
    seq![
        zone(c.hidden, bytes),
        zone(c.residual, bytes),
        zone(c.ctx.buffers.norm_output, bytes),
        zone(c.ctx.buffers.logits, bytes),
        zone(c.ctx.buffers.moe_router_in_f32, 2 * bytes),
        zone(row, bytes),
    ]
}

/// The rows of the layer are apart, and so is each row that a block answers with.
pub open spec fn decode_laid_out(c: DecodeCall, d: DecodeReplies) -> bool {
    &&& c.fits()
    &&& 0 < c.ctx.config.hidden_size <= u32::MAX
    &&& all_apart(decode_zones(c, d.attn))
    &&& all_apart(decode_zones(c, d.ffn))
    &&& all_apart(decode_zones(c, d.moe))
}

/// A row by one of the layer's plain norms, where it has that norm.
pub open spec fn normed_if(c: DecodeCall, weight: Option<DenseWeight>, x: Val) -> Val {
    if weight is Some {
        norm(c.layer.rms_norm_w_k, weight->0, c.h(), c.ctx.config.rms_norm_eps, x)
    } else {
        x
    }
}

/// What the attention adds to the hidden row `x`: the attention of the normed
/// row, summed over the ranks where they share it, and normed where the layer
/// norms it.
pub open spec fn attention_term(c: DecodeCall, x: Val) -> Val {
    let out = Val::AttentionOf {
        layer: c.layer.attn_layer_idx,
        seq_len: c.seq_len,
        cache: c.cache,
        of: Box::new(
            norm(c.layer.rms_norm_residual_k, c.layer.input_norm, c.h(), c.ctx.config.rms_norm_eps, x),
        ),
    };
    let whole = if c.ctx.config.tp_world_size > 1 && c.ctx.comm {
        Val::Reduced { of: Box::new(out) }
    } else {
        out
    };
    normed_if(c, c.layer.post_attn_out_norm, whole)
}

/// The hidden row with the attention added.
pub open spec fn attended_row(c: DecodeCall, x: Val) -> Val {
    let kernel = if !c.layer.has_ffn {
        c.layer.residual_add_k
    } else if !c.ctx.profile && c.layer.fp32_routing && c.layer.residual_add_rms_norm_gatef32_k.0 != 0 {
        c.layer.residual_add_rms_norm_gatef32_k
    } else {
        c.layer.residual_add_rms_norm_k
    };
    sum(kernel, x, attention_term(c, x))
}

/// The input of the feed-forward block.
pub open spec fn ffn_input(c: DecodeCall, x: Val) -> Val {
    let kernel = if !c.ctx.profile && c.layer.fp32_routing && c.layer.residual_add_rms_norm_gatef32_k.0 != 0 {
        c.layer.residual_add_rms_norm_gatef32_k
    } else {
        c.layer.residual_add_rms_norm_k
    };
    norm(kernel, c.layer.post_attn_norm, c.h(), c.ctx.config.rms_norm_eps, attended_row(c, x))
}

/// The output of one of the layer's feed-forward blocks.
pub open spec fn fed(c: DecodeCall, ffn: FfnKind, x: Val) -> Val {
    Val::Fed { ffn, layer: c.layer.attn_layer_idx, of: Box::new(x) }
}

/// The layer has an expert block beside its dense one and all norms that go with
/// it.
pub open spec fn runs_both(c: DecodeCall) -> bool {
    &&& !c.ctx.profile
    &&& c.layer.has_moe_ffn
    &&& c.layer.pre_moe_norm is Some
    &&& c.layer.post_moe_out_norm is Some
    &&& c.layer.post_dense_ffn_norm is Some
}

/// What the feed-forward block adds: its output, or that of both blocks, each
/// normed by its own norm, added up; and normed where the layer norms it.
pub open spec fn ffn_term(c: DecodeCall, x: Val) -> Val {
    let dense = fed(c, FfnKind::Main, ffn_input(c, x));
    let out = if runs_both(c) {
        sum(
            c.layer.residual_add_k,
            normed_if(c, c.layer.post_dense_ffn_norm, dense),
            normed_if(c, c.layer.post_moe_out_norm, fed(c, FfnKind::ExtraMoe, attended_row(c, x))),
        )
    } else {
        dense
    };
    normed_if(c, c.layer.post_ffn_out_norm, out)
}

/// The hidden row at the end of the layer.
pub open spec fn layer_row(c: DecodeCall, x: Val) -> Val {
    if !c.layer.has_ffn {
        attended_row(c, x)
    } else {
        let row = sum(c.layer.residual_add_k, attended_row(c, x), ffn_term(c, x));
        if c.layer.layer_scalar is Some {
            Val::Scaled { scalar: c.layer.layer_scalar->0, of: Box::new(row) }
        } else {
            row
        }
    }
}

/// The starts of the rows lie outside one another.
proof fn lemma_rows_apart(c: DecodeCall, row: DevicePtr)
    requires
        all_apart(decode_zones(c, row)),
    ensures
        ({
            let bytes = c.ctx.config.hidden_size * 2;
            let n = c.ctx.buffers.norm_output;
            let l = c.ctx.buffers.logits;
            let r = c.ctx.buffers.moe_router_in_f32;
            &&& off(c.hidden, row) >= bytes && off(row, c.hidden) >= bytes
            &&& off(c.hidden, n) >= bytes && off(n, c.hidden) >= bytes
            &&& off(c.hidden, c.residual) >= bytes && off(n, c.residual) >= bytes && off(row, c.residual) >= bytes
            &&& off(row, n) >= bytes && off(n, row) >= bytes
            &&& off(l, row) >= bytes && off(row, l) >= bytes && off(l, c.hidden) >= bytes && off(c.hidden, l) >= bytes
            &&& off(l, n) >= bytes && off(n, l) >= bytes
            &&& off(c.hidden, r) >= 2 * bytes && off(n, r) >= 2 * bytes && off(row, r) >= 2 * bytes
        }),
{
    let z = decode_zones(c, row);
    assert(apart(z[0], z[5]) && apart(z[0], z[2]) && apart(z[0], z[1]) && apart(z[2], z[1]) && apart(z[5], z[1]));
    assert(apart(z[5], z[2]) && apart(z[3], z[5]) && apart(z[3], z[0]) && apart(z[3], z[2]));
    assert(apart(z[0], z[4]) && apart(z[2], z[4]) && apart(z[5], z[4]));
}

proof fn lemma_entered(c: DecodeCall, m: Mem, row: DevicePtr)
    requires
        c.fits(),
        0 < c.ctx.config.hidden_size <= u32::MAX,
        all_apart(decode_zones(c, row)),
    ensures
        ({
            let n = after(m, entry_ops(c));
            &&& n(c.ctx.buffers.norm_output) == norm(
                c.layer.rms_norm_residual_k,
                c.layer.input_norm,
                c.h(),
                c.ctx.config.rms_norm_eps,
                m(c.hidden),
            )
            &&& n(c.hidden) == m(c.hidden)
        }),
{
    reveal(entry_ops);
    let o = entry_ops(c);
    let a = c.gemma_look(true, crate::op::DiagPoint::HiddenIn, c.hidden);
    let b = c.gemma_look(true, crate::op::DiagPoint::Normed, c.ctx.buffers.norm_output);
    let op = o[a.len() as int];
    assert(o =~= a + seq![op] + b);
    lemma_quiet(m, a);
    lemma_after_one(m, op);
    lemma_quiet(then_op(m, op), b);
    lemma_after_add(m, a, seq![op]);
    lemma_after_add(m, a + seq![op], b);
    lemma_rows_apart(c, row);
}

/// An in-place norm that may be missing.
proof fn lemma_norm_if(c: DecodeCall, m: Mem, weight: Option<DenseWeight>, row: DevicePtr)
    requires
        0 < c.ctx.config.hidden_size <= u32::MAX,
    ensures
        ({
            let n = after(m, c.norm_if(weight, row));
            &&& n(row) == normed_if(c, weight, m(row))
            &&& forall|q: DevicePtr| off(q, row) >= c.ctx.config.hidden_size * 2 ==> #[trigger] n(q) == m(q)
        }),
{
    if weight is Some {
        lemma_after_one(m, c.norm_op(row, weight->0, row));
        assert(at(row, 0) == row);
    }
}

#[verifier::rlimit(60)]
#[verifier::spinoff_prover]
proof fn lemma_attention_added(c: DecodeCall, m: Mem, attn: DevicePtr, x: Val)
    requires
        c.fits(),
        0 < c.ctx.config.hidden_size <= u32::MAX,
        all_apart(decode_zones(c, attn)),
        m(c.hidden) == x,
        m(attn) == (Val::AttentionOf {
            layer: c.layer.attn_layer_idx,
            seq_len: c.seq_len,
            cache: c.cache,
            of: Box::new(
                norm(c.layer.rms_norm_residual_k, c.layer.input_norm, c.h(), c.ctx.config.rms_norm_eps, x),
            ),
        }),
    ensures
        ({
            let n = after(m, after_attn_ops(c, attn));
            &&& n(c.hidden) == attended_row(c, x)
            &&& c.layer.has_ffn ==> n(c.ctx.buffers.norm_output) == ffn_input(c, x)
        }),
{
    reveal(after_attn_ops);
    lemma_rows_apart(c, attn);
    let r = c.reduce_if(attn);
    let l0 = c.gemma_look(true, crate::op::DiagPoint::AttnOut, attn);
    let k = c.norm_if(c.layer.post_attn_out_norm, attn);
    let l1 = c.gemma_look(c.layer.post_attn_out_norm is Some, crate::op::DiagPoint::PostAttnNormed, attn);
    let front = r + l0 + k + l1;
    let m1 = after(m, r);
    if r.len() == 1 {
        assert(r =~= seq![r[0]]);
        lemma_after_one(m, r[0]);
    }
    assert(m1(c.hidden) == x);
    lemma_quiet(m1, l0);
    lemma_norm_if(c, m1, c.layer.post_attn_out_norm, attn);
    let m2 = after(m1, k);
    lemma_quiet(m2, l1);
    lemma_after_add(m, r, l0);
    lemma_after_add(m, r + l0, k);
    lemma_after_add(m, r + l0 + k, l1);
    assert(after(m, front) == m2);
    assert(m2(attn) == attention_term(c, x));
    assert(m2(c.hidden) == x);
    assert(at(attn, 0) == attn && at(c.hidden, 0) == c.hidden);
    if !c.layer.has_ffn {
        let op = c.add_op(c.hidden, attn);
        lemma_after_one(m2, op);
        lemma_after_add(m, front, seq![op]);
    } else if c.ctx.profile {
        let op = crate::attention_decode::add_norm_op(c, attn);
        lemma_after_two(m2, Op::Synchronize, op);
        lemma_after_add(m, front, seq![Op::Synchronize, op]);
    } else {
        let op = if gated(c) {
            crate::attention_decode::add_norm_gate_op(c, attn)
        } else {
            crate::attention_decode::add_norm_op(c, attn)
        };
        let l2 = c.gemma_look(!dual(c), crate::op::DiagPoint::NormedFfn, c.ctx.buffers.norm_output);
        lemma_after_one(m2, op);
        lemma_quiet(then_op(m2, op), l2);
        lemma_after_add(m, front, seq![op]);
        lemma_after_add(m, front + seq![op], l2);
    }
}

/// The end of a layer: a scale where it has one.
proof fn lemma_ended(c: DecodeCall, m: Mem)
    requires
        0 < c.ctx.config.hidden_size <= u32::MAX,
    ensures
        after(m, end_look(c))(c.hidden) == if c.layer.layer_scalar is Some {
            Val::Scaled { scalar: c.layer.layer_scalar->0, of: Box::new(m(c.hidden)) }
        } else {
            m(c.hidden)
        },
{
    let a = c.gemma_look(true, crate::op::DiagPoint::PostResidual, c.hidden);
    let k = c.scalar_if(c.hidden);
    let b = c.gemma_look(c.layer.layer_scalar is Some, crate::op::DiagPoint::PostLayerScalar, c.hidden);
    lemma_quiet(m, a);
    if k.len() == 1 {
        assert(k =~= seq![k[0]]);
        lemma_after_one(m, k[0]);
    }
    lemma_quiet(after(m, k), b);
    lemma_after_add(m, a, k);
    lemma_after_add(m, a + k, b);
}

proof fn lemma_fed_plain(c: DecodeCall, m: Mem, ffn: DevicePtr, x: Val)
    requires
        0 < c.ctx.config.hidden_size <= u32::MAX,
        all_apart(decode_zones(c, ffn)),
        !runs_both(c),
        c.layer.has_ffn,
        m(c.hidden) == attended_row(c, x),
        m(ffn) == fed(c, FfnKind::Main, ffn_input(c, x)),
    ensures
        after(m, plain_tail_ops(c, ffn))(c.hidden) == layer_row(c, x),
{
    reveal(plain_tail_ops);
    lemma_rows_apart(c, ffn);
    let k = c.norm_if(c.layer.post_ffn_out_norm, ffn);
    let add = c.add_op(c.hidden, ffn);
    lemma_norm_if(c, m, c.layer.post_ffn_out_norm, ffn);
    let m1 = after(m, k);
    assert(at(ffn, 0) == ffn);
    let m2 = then_op(m1, add);
    assert(m2(c.hidden) == sum(c.layer.residual_add_k, attended_row(c, x), ffn_term(c, x)));
    if c.ctx.profile {
        let s = c.scalar_if(c.hidden);
        lemma_after_two(m1, Op::Synchronize, add);
        let m3 = after(m1, seq![Op::Synchronize, add]);
        assert(m3(c.hidden) == m2(c.hidden));
        if s.len() == 1 {
            assert(s =~= seq![s[0]]);
            lemma_after_one(m3, s[0]);
        }
        lemma_after_add(m, k, seq![Op::Synchronize, add]);
        lemma_after_add(m, k + seq![Op::Synchronize, add], s);
    } else {
        let l0 = c.gemma_look(true, crate::op::DiagPoint::DenseOut, ffn);
        let l1 = c.gemma_look(c.layer.post_ffn_out_norm is Some, crate::op::DiagPoint::PostFfnNormed, ffn);
        lemma_quiet(m, l0);
        lemma_quiet(m1, l1);
        lemma_after_one(m1, add);
        lemma_ended(c, m2);
        lemma_after_add(m, l0, k);
        lemma_after_add(m, l0 + k, l1);
        lemma_after_add(m, l0 + k + l1, seq![add]);
        lemma_after_add(m, l0 + k + l1 + seq![add], end_look(c));
    }
}

proof fn lemma_fed_both(c: DecodeCall, m: Mem, ffn: DevicePtr, x: Val)
    requires
        0 < c.ctx.config.hidden_size <= u32::MAX,
        all_apart(decode_zones(c, ffn)),
        runs_both(c),
        c.layer.has_ffn,
        m(c.hidden) == attended_row(c, x),
        m(ffn) == fed(c, FfnKind::Main, ffn_input(c, x)),
        m(c.ctx.buffers.logits) == normed_if(
            c,
            c.layer.post_moe_out_norm,
            fed(c, FfnKind::ExtraMoe, attended_row(c, x)),
        ),
    ensures
        after(m, dual_tail_ops(c, ffn))(c.hidden) == layer_row(c, x),
{
    reveal(dual_tail_ops);
    lemma_rows_apart(c, ffn);
    let o0 = c.norm_op(ffn, c.layer.post_dense_ffn_norm->0, ffn);
    let o1 = c.add_op(ffn, c.ctx.buffers.logits);
    let k = c.norm_if(c.layer.post_ffn_out_norm, ffn);
    let add = c.add_op(c.hidden, ffn);
    assert(at(ffn, 0) == ffn && at(c.ctx.buffers.logits, 0) == c.ctx.buffers.logits);
    lemma_after_two(m, o0, o1);
    let m1 = then_op(m, o0);
    let m2 = then_op(m1, o1);
    assert(m2(ffn) == sum(
        c.layer.residual_add_k,
        normed_if(c, c.layer.post_dense_ffn_norm, fed(c, FfnKind::Main, ffn_input(c, x))),
        m(c.ctx.buffers.logits),
    ));
    lemma_norm_if(c, m2, c.layer.post_ffn_out_norm, ffn);
    let m3 = after(m2, k);
    let m4 = then_op(m3, add);
    lemma_after_one(m3, add);
    lemma_ended(c, m4);
    lemma_after_add(m, seq![o0, o1], k);
    lemma_after_add(m, seq![o0, o1] + k, seq![add]);
    lemma_after_add(m, seq![o0, o1] + k + seq![add], end_look(c));
}

/// The hidden row at the end of a layer is the row at its start plus what the
/// attention adds plus what the feed-forward block adds to that: the attention of
/// the normed row, the feed-forward block on the normed sum, each in the norms
/// and the scale that the layer has.
#[verifier::rlimit(60)]
#[verifier::spinoff_prover]
pub proof fn layer_adds_attention_and_feed_forward(c: DecodeCall, t: Tables, d: DecodeReplies, m: Mem) -> (n: Mem)
    requires
        decode_laid_out(c, d),
    ensures
        leads(decode_steps(c, t, d), c.stream, m, n),
        n(c.hidden) == layer_row(c, m(c.hidden)),
{
    let s = c.stream;
    let x = m(c.hidden);
    let no = c.ctx.buffers.norm_output;
    let entry = entry_ops(c);
    lemma_entered(c, m, d.attn);
    let m1 = after(m, entry);
    lemma_leads_steps(entry, s, m);
    let ask = c.attended(t, d);
    let m2 = then_event(m1, ask);
    lemma_leads_ask(ask, s, m1);
    lemma_rows_apart(c, d.attn);
    lemma_rows_apart(c, d.ffn);
    lemma_rows_apart(c, d.moe);
    assert(m2(c.hidden) == x);
    assert(m2(d.attn) is AttentionOf);
    let mid = after_attn_ops(c, d.attn);
    lemma_attention_added(c, m2, d.attn, x);
    let m3 = after(m2, mid);
    lemma_leads_steps(mid, s, m2);
    let e0 = steps(entry, s);
    let e1 = e0 + seq![ask];
    let front = e1 + steps(mid, s);
    lemma_leads_add(e0, seq![ask], s, m, m1, m2);
    lemma_leads_add(e1, steps(mid, s), s, m, m2, m3);
    if !c.layer.has_ffn {
        m3
    } else if runs_both(c) {
        let ask1 = call_step(c.feed(FfnKind::ExtraMoe, c.hidden), s, d.moe);
        let m4 = then_event(m3, ask1);
        lemma_leads_ask(ask1, s, m3);
        let ops = dual_mid_ops(c, d.moe);
        assert(ops =~= seq![ops[0], ops[1]]) by {
            reveal(dual_mid_ops);
        }
        let m5 = after(m4, ops);
        assert(m5(c.hidden) == attended_row(c, x) && m5(no) == ffn_input(c, x) && m5(c.ctx.buffers.logits) == normed_if(
            c,
            c.layer.post_moe_out_norm,
            fed(c, FfnKind::ExtraMoe, attended_row(c, x)),
        )) by {
            reveal(dual_mid_ops);
            lemma_after_two(m4, ops[0], ops[1]);
            assert(at(d.moe, 0) == d.moe);
            assert(m4(d.moe) == fed(c, FfnKind::ExtraMoe, attended_row(c, x)));
        }
        lemma_leads_steps(ops, s, m4);
        let ask2 = call_step(c.feed(FfnKind::Main, no), s, d.ffn);
        let m6 = then_event(m5, ask2);
        lemma_leads_ask(ask2, s, m5);
        let tail = dual_tail_ops(c, d.ffn);
        lemma_fed_both(c, m6, d.ffn, x);
        let n = after(m6, tail);
        lemma_leads_steps(tail, s, m6);
        let f1 = front + seq![ask1];
        let f2 = f1 + steps(ops, s);
        let f3 = f2 + seq![ask2];
        lemma_leads_add(front, seq![ask1], s, m, m3, m4);
        lemma_leads_add(f1, steps(ops, s), s, m, m4, m5);
        lemma_leads_add(f2, seq![ask2], s, m, m5, m6);
        lemma_leads_add(f3, steps(tail, s), s, m, m6, n);
        n
    } else {
        let ask1 = call_step(c.feed(FfnKind::Main, no), s, d.ffn);
        let m4 = then_event(m3, ask1);
        lemma_leads_ask(ask1, s, m3);
        let tail = plain_tail_ops(c, d.ffn);
        lemma_fed_plain(c, m4, d.ffn, x);
        let n = after(m4, tail);
        lemma_leads_steps(tail, s, m4);
        lemma_leads_add(front, seq![ask1], s, m, m3, m4);
        lemma_leads_add(front + seq![ask1], steps(tail, s), s, m, m4, n);
        n
    }
}

} // verus!
