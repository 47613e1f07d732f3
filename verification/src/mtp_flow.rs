//! What a draft step computes.
//!
//! [`mtp_forward`](crate::mtp_forward) says which operations a draft step runs.
//! The laws here say what they come to: the combined streams, the logits and the
//! token as formulas of the embedding table, the target's hidden state and the
//! weights.

use vstd::prelude::*;

use crate::bits::{le32_all, narrowed_row, streams_corrupt, streams_usable, widened};
use crate::flow::{
    after, all_apart, finds, holds_at, keeps, leads, lemma_after_add, lemma_after_four, lemma_after_one,
    lemma_after_push, lemma_after_three, lemma_after_two, lemma_at_at, lemma_dump, lemma_expanded, lemma_grouped,
    lemma_holds_within, lemma_inside, lemma_keeps_then, lemma_kept, lemma_leads_add, lemma_leads_ask,
    lemma_leads_nothing, lemma_leads_steps, lemma_op_keeps, lemma_outside, lemma_row, lemma_wait, norm, off, part,
    product, seen_batched_embed, seen_dense_gemm_pipelined, seen_hc_expand, seen_hc_head, seen_mtp_hc_f32_to_bf16,
    seen_mtp_hproj_broadcast_add, seen_mtp_hproj_gemv_batch4, seen_rms_norm, streams_at, sum, then_event, then_op,
    zone, Mem, Mixing, Val, Zone,
};
use crate::gpu::{at, DevicePtr};
use crate::mtp_forward::{
    argmax_op, checks_streams, collapse_op, device_combine_ops, echo_steps, embed_ops, front_steps, head_ops,
    pick_steps, rear_steps, rebuild_ops, recover_steps, recovered, row_ops, row_steps, rows_steps, single_ops,
    tail_ops, widened_rows, DraftCall, DraftReads,
};
use crate::mtp_prefill::{pass_front, target_ops, token_ops, PassCall};
use crate::op::{Boundary, Op};
use crate::run::{read_step, send_step, steps};
use crate::trace::Event;

verus! {

broadcast use crate::flow::seen_flat;

/// The buffers of a draft step.
pub open spec fn draft_zones(c: DraftCall) -> Seq<Zone> {
    let b = c.ctx.buffers;
    let row = c.h() * 2;
    seq![
        zone(b.attn_output, row),
        zone(b.moe_output, row),
        zone(b.hidden_states, row),
        zone(b.residual, c.hc() * row),
        zone(b.norm_output, c.hc() * row),
        zone(b.hc_streams, c.hc() * (c.h() * 4)),
        zone(c.target_hidden, row),
        zone(at(c.parts.embed_tokens.weight, c.token * (c.h() * 2)), row),
        zone(b.logits, c.vocab() * 2),
        zone(at(b.scratch, 64), 4),
    ]
}

/// The buffers of the step are apart, and its sizes fit.
pub open spec fn draft_laid_out(c: DraftCall) -> bool {
    &&& c.h() > 0
    &&& c.hc() > 0
    &&& c.hc_elems() <= u32::MAX
    &&& c.fits()
    &&& all_apart(draft_zones(c))
}

/// The branch of the token: its embedding normed by `enorm` and projected by
/// `e_proj`.
pub open spec fn e_branch(c: DraftCall, m: Mem) -> Val {
    let row = m(at(c.parts.embed_tokens.weight, c.token * (c.h() * 2)));
    product(
        c.parts.dense_gemv_k,
        c.parts.module.e_proj,
        c.h(),
        c.h(),
        norm(c.parts.rms_norm_k, c.parts.module.enorm, c.h(), c.ctx.config.rms_norm_eps, row),
    )
}

/// The branch of the target: `x` normed by `hnorm` and projected by `h_proj`.
pub open spec fn h_branch(c: DraftCall, x: Val) -> Val {
    product(
        c.parts.dense_gemv_k,
        c.parts.module.h_proj,
        c.h(),
        c.h(),
        norm(c.parts.rms_norm_k, c.parts.module.hnorm, c.h(), c.ctx.config.rms_norm_eps, x),
    )
}

/// An address that the branch of the token leaves alone.
pub open spec fn beside_embed(c: DraftCall, q: DevicePtr) -> bool {
    let b = c.ctx.buffers;
    &&& off(q, b.attn_output) >= c.h() * 2
    &&& off(q, b.moe_output) >= c.h() * 2
    &&& off(q, b.hidden_states) >= c.h() * 2
}

proof fn lemma_embed(c: DraftCall, m: Mem)
    requires
        draft_laid_out(c),
    ensures
        after(m, embed_ops(c))(c.ctx.buffers.hidden_states) == e_branch(c, m),
        forall|q: DevicePtr| beside_embed(c, q) ==> #[trigger] after(m, embed_ops(c))(q) == m(q),
{
    let b = c.ctx.buffers;
    let z = draft_zones(c);
    assert(apart_all(c)) by {
        lemma_zones(c);
    }
    let o = embed_ops(c);
    lemma_after_three(m, o[0], o[1], o[2]);
    assert(o =~= seq![o[0], o[1], o[2]]);
    let m1 = then_op(m, o[0]);
    let m2 = then_op(m1, o[1]);
    assert(m1(b.attn_output) == m(at(c.parts.embed_tokens.weight, c.token * (c.h() * 2))));
}

/// The starts of the buffers lie outside one another.
spec fn apart_all(c: DraftCall) -> bool {
    let z = draft_zones(c);
    &&& forall|i: int, j: int|
        0 <= i < 10 && 0 <= j < 10 && i != j ==> off((#[trigger] z[i]).base, (#[trigger] z[j]).base) >= z[j].bytes
    &&& c.hc() * (c.h() * 2) >= c.h() * 2
    &&& c.hc() * (c.h() * 4) >= c.h() * 4
}

proof fn lemma_zones(c: DraftCall)
    requires
        draft_laid_out(c),
    ensures
        apart_all(c),
{
    let z = draft_zones(c);
    let h = c.h() as int;
    let hc = c.hc() as int;
    assert(hc * (h * 2) >= h * 2 && hc * (h * 4) >= h * 4) by (nonlinear_arith)
        requires
            h > 0,
            hc > 0,
    ;
}

/// What the embedding leads to, and what it leaves alone.
proof fn lemma_front(c: DraftCall, m: Mem) -> (n: Mem)
    requires
        draft_laid_out(c),
    ensures
        leads(steps(embed_ops(c), c.stream), c.stream, m, n),
        n(c.ctx.buffers.hidden_states) == e_branch(c, m),
        n(c.target_hidden) == m(c.target_hidden),
        forall|d: int| 0 <= d < c.hc() * (c.h() * 4) ==> #[trigger] n(at(c.ctx.buffers.hc_streams, d)) == m(
            at(c.ctx.buffers.hc_streams, d),
        ),
{
    let n = after(m, embed_ops(c));
    let z = draft_zones(c);
    lemma_embed(c, m);
    lemma_zones(c);
    lemma_leads_steps(embed_ops(c), c.stream, m);
    assert(z[6].base == c.target_hidden);
    assert(off(z[6].base, z[0].base) >= z[0].bytes);
    assert(off(z[6].base, z[1].base) >= z[1].bytes);
    assert(off(z[6].base, z[2].base) >= z[2].bytes);
    assert forall|d: int| 0 <= d < c.hc() * (c.h() * 4) implies #[trigger] n(at(c.ctx.buffers.hc_streams, d)) == m(
        at(c.ctx.buffers.hc_streams, d),
    ) by {
        assert(z[5].bytes == c.hc() * (c.h() * 4));
        lemma_outside(z[0], z[5], d);
        lemma_outside(z[1], z[5], d);
        lemma_outside(z[2], z[5], d);
        assert(beside_embed(c, at(c.ctx.buffers.hc_streams, d)));
    }
    n
}

/// The combined row of a draft over one stream: both branches added up.
pub open spec fn combined_row(c: DraftCall, m: Mem) -> Val {
    sum(c.parts.residual_add_k, e_branch(c, m), h_branch(c, m(c.target_hidden)))
}

#[verifier::rlimit(60)]
#[verifier::spinoff_prover]
proof fn lemma_single(c: DraftCall, m: Mem, expand: bool)
    requires
        draft_laid_out(c),
    ensures
        ({
            let n = after(m, single_ops(c, expand));
            let v = sum(
                c.parts.residual_add_k,
                m(c.ctx.buffers.hidden_states),
                h_branch(c, m(c.target_hidden)),
            );
            &&& n(c.ctx.buffers.hidden_states) == v
            &&& expand ==> forall|i: int|
                0 <= i < c.hc() ==> #[trigger] n(at(c.ctx.buffers.hc_streams, i * (c.h() * 4))) == (Val::Stream {
                    kernel: c.parts.hc_expand_k,
                    of: Box::new(v),
                })
        }),
{
    let b = c.ctx.buffers;
    let z = draft_zones(c);
    lemma_zones(c);
    let o = single_ops(c, false);
    lemma_after_three(m, o[0], o[1], o[2]);
    assert(o =~= seq![o[0], o[1], o[2]]);
    let m1 = then_op(m, o[0]);
    let m2 = then_op(m1, o[1]);
    let m3 = then_op(m2, o[2]);
    assert(z[2].base == b.hidden_states && z[3].base == b.residual && z[4].base == b.norm_output && z[5].base
        == b.hc_streams && z[6].base == c.target_hidden);
    assert(m1(b.residual) == norm(
        c.parts.rms_norm_k,
        c.parts.module.hnorm,
        c.h(),
        c.ctx.config.rms_norm_eps,
        m(c.target_hidden),
    ));
    assert(m2(b.norm_output) == h_branch(c, m(c.target_hidden)));
    assert(m2(b.hidden_states) == m(b.hidden_states));
    let v = m3(b.hidden_states);
    if expand {
        lemma_after_push(m, o, c.expand_op(b.hidden_states));
        let n = then_op(m3, c.expand_op(b.hidden_states));
        assert(off(z[2].base, z[5].base) >= z[5].bytes);
        seen_hc_expand(
            m3,
            c.parts.hc_expand_k,
            b.hidden_states,
            b.hc_streams,
            1,
            c.h(),
            c.hc(),
            b.hidden_states,
        );
        assert forall|i: int| 0 <= i < c.hc() implies #[trigger] n(at(b.hc_streams, i * (c.h() * 4))) == (Val::Stream {
            kernel: c.parts.hc_expand_k,
            of: Box::new(v),
        }) by {
            assert(z[5].bytes == c.hc() * (c.h() * 4));
            lemma_expanded(m3, c.parts.hc_expand_k, b.hidden_states, b.hc_streams, 1, c.h(), c.hc(), 0, i);
        }
    }
}

/// Over a single stream a draft starts from the sum of the two branches:
/// `h_proj(hnorm(target)) + e_proj(enorm(embedding of the token))`. Where the
/// layers keep several streams, each begins as that sum.
pub proof fn single_stream_adds_both_branches(c: DraftCall, d: DraftReads, m: Mem) -> (n: Mem)
    requires
        draft_laid_out(c),
        c.flags.single_stream,
    ensures
        leads(front_steps(c, d), c.stream, m, n),
        n(c.ctx.buffers.hidden_states) == combined_row(c, m),
        c.flags.use_mhc ==> forall|i: int|
            0 <= i < c.hc() ==> #[trigger] n(at(c.ctx.buffers.hc_streams, i * (c.h() * 4))) == (Val::Stream {
                kernel: c.parts.hc_expand_k,
                of: Box::new(combined_row(c, m)),
            }),
{
    reveal(front_steps);
    let m1 = lemma_front(c, m);
    let ops = single_ops(c, c.flags.use_mhc);
    lemma_single(c, m1, c.flags.use_mhc);
    lemma_leads_steps(ops, c.stream, m1);
    lemma_leads_add(steps(embed_ops(c), c.stream), steps(ops, c.stream), c.stream, m, m1, after(m1, ops));
    after(m1, ops)
}

/// On the device every stream `i` of a draft becomes the sum of the two
/// branches, that of the target taken from stream `i`.
#[verifier::rlimit(100)]
#[verifier::spinoff_prover]
pub proof fn device_combiner_adds_both_branches(c: DraftCall, d: DraftReads, m: Mem) -> (n: Mem)
    requires
        draft_laid_out(c),
        !c.flags.single_stream,
        c.flags.gpu_combiner,
        c.hc() <= 4,
    ensures
        leads(front_steps(c, d), c.stream, m, n),
        forall|i: int|
            0 <= i < c.hc() ==> #[trigger] n(at(c.ctx.buffers.hc_streams, i * (c.h() * 4))) == sum(
                c.parts.mtp_hproj_batch4_k,
                product(
                    c.parts.mtp_hproj_batch4_k,
                    c.parts.module.h_proj,
                    c.h(),
                    c.h(),
                    norm(
                        c.parts.rms_norm_k,
                        c.parts.module.hnorm,
                        c.h(),
                        c.ctx.config.rms_norm_eps,
                        Val::Narrowed {
                            kernel: c.parts.mtp_hc_f32_to_bf16_k,
                            of: Box::new(m(at(c.ctx.buffers.hc_streams, i * (c.h() * 4)))),
                        },
                    ),
                ),
                e_branch(c, m),
            ),
{
    reveal(front_steps);
    let b = c.ctx.buffers;
    let z = draft_zones(c);
    let h = c.h() as int;
    let hc = c.hc() as int;
    lemma_zones(c);
    let m0 = lemma_front(c, m);
    let o = device_combine_ops(c);
    lemma_after_three(m0, o[0], o[1], o[2]);
    assert(o =~= seq![o[0], o[1], o[2]]);
    let m1 = then_op(m0, o[0]);
    let m2 = then_op(m1, o[1]);
    let n = after(m0, o);
    lemma_leads_steps(o, c.stream, m0);
    lemma_leads_add(steps(embed_ops(c), c.stream), steps(o, c.stream), c.stream, m, m0, n);
    assert(z[2].base == b.hidden_states && z[3].base == b.residual && z[4].base == b.norm_output && z[5].base
        == b.hc_streams);
    assert(hc * (h * 2) == hc * h * 2) by (nonlinear_arith);
    assert(m2(b.hidden_states) == m0(b.hidden_states));
    assert forall|i: int| 0 <= i < c.hc() implies #[trigger] n(at(b.hc_streams, i * (c.h() * 4))) == sum(
        c.parts.mtp_hproj_batch4_k,
        product(
            c.parts.mtp_hproj_batch4_k,
            c.parts.module.h_proj,
            c.h(),
            c.h(),
            norm(
                c.parts.rms_norm_k,
                c.parts.module.hnorm,
                c.h(),
                c.ctx.config.rms_norm_eps,
                Val::Narrowed {
                    kernel: c.parts.mtp_hc_f32_to_bf16_k,
                    of: Box::new(m(at(b.hc_streams, i * (c.h() * 4)))),
                },
            ),
        ),
        e_branch(c, m),
    ) by {
        lemma_row(i, hc, h * 4);
        lemma_row(i, hc, h * 2);
        lemma_inside(b.hc_streams, i * (h * 4));
        lemma_inside(b.residual, i * (h * 2));
        lemma_inside(b.norm_output, i * (h * 2));
        assert(i * (h * 2) * 2 == i * (h * 4)) by (nonlinear_arith);
        assert(m1(at(b.residual, i * (h * 2))) == (Val::Narrowed {
            kernel: c.parts.mtp_hc_f32_to_bf16_k,
            of: Box::new(m0(at(b.hc_streams, i * (h * 4)))),
        }));
        seen_mtp_hproj_gemv_batch4(
            m2,
            c.parts.mtp_hproj_batch4_k,
            b.norm_output,
            c.parts.module.h_proj,
            b.hidden_states,
            b.hc_streams,
            c.hc(),
            c.h(),
            c.h(),
            at(b.hc_streams, i * (h * 4)),
        );
        assert(m2(at(b.norm_output, i * (h * 2))) == norm(
            c.parts.rms_norm_k,
            c.parts.module.hnorm,
            c.h(),
            c.ctx.config.rms_norm_eps,
            m1(at(b.residual, i * (h * 2))),
        ));
    }
    n
}

/// One stream on the host: its row goes up, both branches are added, and the
/// sum comes back.
#[verifier::rlimit(60)]
#[verifier::spinoff_prover]
proof fn lemma_host_row(c: DraftCall, m: Mem, streams: Seq<u8>, row: int, result: Seq<u8>) -> (n: Mem)
    requires
        draft_laid_out(c),
    ensures
        leads(row_steps(c, streams, row, result), c.stream, m, n),
        n(c.ctx.buffers.hidden_states) == m(c.ctx.buffers.hidden_states),
        holds_at(
            row_steps(c, streams, row, result),
            c.stream,
            m,
            read_step(c.ctx.buffers.moe_output, c.h() * 2, result),
            c.ctx.buffers.moe_output,
            sum(
                c.parts.residual_add_k,
                h_branch(c, Val::Data(narrowed_row(streams, row, c.h() as int))),
                m(c.ctx.buffers.hidden_states),
            ),
        ),
{
    let b = c.ctx.buffers;
    let z = draft_zones(c);
    lemma_zones(c);
    let data = narrowed_row(streams, row, c.h() as int);
    let send = send_step(data, b.residual, c.stream);
    let read = read_step(b.moe_output, c.h() * 2, result);
    let m1 = then_event(m, send);
    let o = row_ops(c);
    let m2 = then_op(m1, o[0]);
    let m3 = then_op(m2, o[1]);
    let n = after(m1, o);
    lemma_after_four(m1, o[0], o[1], o[2], o[3]);
    assert(o =~= seq![o[0], o[1], o[2], o[3]]);
    assert(z[1].base == b.moe_output && z[2].base == b.hidden_states && z[3].base == b.residual && z[4].base
        == b.norm_output);
    assert(m1(b.residual) == Val::Data(data));
    assert(m1(b.hidden_states) == m(b.hidden_states));
    assert(m2(b.norm_output) == norm(
        c.parts.rms_norm_k,
        c.parts.module.hnorm,
        c.h(),
        c.ctx.config.rms_norm_eps,
        Val::Data(data),
    ));
    assert(m3(b.moe_output) == h_branch(c, Val::Data(data)));
    assert(m3(b.hidden_states) == m(b.hidden_states));
    lemma_leads_ask(send, c.stream, m);
    lemma_leads_steps(o, c.stream, m1);
    let front = seq![send] + steps(o, c.stream);
    lemma_leads_add(seq![send], steps(o, c.stream), c.stream, m, m1, n);
    lemma_leads_ask(read, c.stream, n);
    lemma_leads_add(front, seq![read], c.stream, m, n, then_event(n, read));
    let all = row_steps(c, streams, row, result);
    let v = sum(c.parts.residual_add_k, h_branch(c, Val::Data(data)), m(b.hidden_states));
    assert(n(b.moe_output) == v);
    assert(all =~= front + seq![read]);
    assert(all =~= front + seq![read] + Seq::<Event>::empty());
    assert(finds(front, n, Seq::empty(), all, c.stream, m, read, b.moe_output, v));
    n
}

#[verifier::rlimit(60)]
#[verifier::spinoff_prover]
proof fn lemma_host_rows(c: DraftCall, m: Mem, streams: Seq<u8>, rows: Seq<Seq<u8>>) -> (n: Mem)
    requires
        draft_laid_out(c),
    ensures
        leads(rows_steps(c, streams, rows), c.stream, m, n),
        n(c.ctx.buffers.hidden_states) == m(c.ctx.buffers.hidden_states),
        forall|i: int|
            0 <= i < rows.len() ==> holds_at(
                rows_steps(c, streams, rows),
                c.stream,
                m,
                #[trigger] read_step(c.ctx.buffers.moe_output, c.h() * 2, rows[i]),
                c.ctx.buffers.moe_output,
                sum(
                    c.parts.residual_add_k,
                    h_branch(c, Val::Data(narrowed_row(streams, i, c.h() as int))),
                    m(c.ctx.buffers.hidden_states),
                ),
            ),
    decreases rows.len(),
{
    if rows.len() == 0 {
        lemma_leads_nothing(c.stream, m);
        m
    } else {
        let p = c.ctx.buffers.moe_output;
        let rest = rows.drop_last();
        let front = rows_steps(c, streams, rest);
        let one = row_steps(c, streams, rows.len() - 1, rows.last());
        let m1 = lemma_host_rows(c, m, streams, rest);
        let n = lemma_host_row(c, m1, streams, rows.len() - 1, rows.last());
        lemma_leads_add(front, one, c.stream, m, m1, n);
        assert forall|i: int| 0 <= i < rows.len() implies holds_at(
            rows_steps(c, streams, rows),
            c.stream,
            m,
            #[trigger] read_step(p, c.h() * 2, rows[i]),
            p,
            sum(
                c.parts.residual_add_k,
                h_branch(c, Val::Data(narrowed_row(streams, i, c.h() as int))),
                m(c.ctx.buffers.hidden_states),
            ),
        ) by {
            let e = read_step(p, c.h() * 2, rows[i]);
            let v = sum(
                c.parts.residual_add_k,
                h_branch(c, Val::Data(narrowed_row(streams, i, c.h() as int))),
                m(c.ctx.buffers.hidden_states),
            );
            let none = Seq::<Event>::empty();
            if i < rest.len() {
                assert(rest[i] == rows[i]);
                lemma_leads_nothing(c.stream, m);
                lemma_holds_within(none, front, one, c.stream, m, m, e, p, v);
                assert(none + front + one =~= front + one);
            } else {
                lemma_holds_within(front, one, none, c.stream, m, m1, e, p, v);
                assert(front + one + none =~= front + one);
            }
        }
        n
    }
}

/// Row `i` of the widened rows.
proof fn lemma_widened_rows(rows: Seq<Seq<u8>>, h: int, i: int)
    requires
        0 <= i < rows.len(),
        0 < h,
        forall|j: int| 0 <= j < rows.len() ==> (#[trigger] rows[j]).len() == h * 2,
    ensures
        widened_rows(rows).len() == rows.len() * (h * 4),
        widened_rows(rows).subrange(i * (h * 4), i * (h * 4) + h * 4) == widened(rows[i]),
    decreases rows.len(),
{
    let rest = rows.drop_last();
    let last = rows.len() - 1;
    lemma_widened_len(rest, h);
    assert(rows.last() == rows[last]);
    assert(last * (h * 4) + h * 4 == rows.len() * (h * 4)) by (nonlinear_arith)
        requires
            last == rows.len() - 1,
    ;
    if i < last {
        lemma_widened_rows(rest, h, i);
        lemma_row(i, last, h * 4);
        assert(rest[i] == rows[i]);
        assert(widened_rows(rows).subrange(i * (h * 4), i * (h * 4) + h * 4) =~= widened_rows(rest).subrange(
            i * (h * 4),
            i * (h * 4) + h * 4,
        ));
    } else {
        assert(widened_rows(rows).subrange(i * (h * 4), i * (h * 4) + h * 4) =~= widened(rows[i]));
    }
}

proof fn lemma_widened_len(rows: Seq<Seq<u8>>, h: int)
    requires
        forall|j: int| 0 <= j < rows.len() ==> (#[trigger] rows[j]).len() == h * 2,
    ensures
        widened_rows(rows).len() == rows.len() * (h * 4),
    decreases rows.len(),
{
    if rows.len() > 0 {
        let rest = rows.drop_last();
        assert forall|j: int| 0 <= j < rest.len() implies (#[trigger] rest[j]).len() == h * 2 by {
            assert(rest[j] == rows[j]);
        }
        lemma_widened_len(rest, h);
        assert(rows.last() == rows[rows.len() - 1]);
        assert(rest.len() * (h * 4) + h * 4 == rows.len() * (h * 4)) by (nonlinear_arith)
            requires
                rest.len() == rows.len() - 1,
        ;
    }
}

/// On the host every stream of a draft becomes the sum of the two branches: when
/// row `i` is read back it is `h_proj(hnorm(stream i)) + e_proj(enorm(embedding of
/// the token))`, and what was read back ends up as stream `i`.
#[verifier::rlimit(100)]
#[verifier::spinoff_prover]
pub proof fn host_combiner_adds_both_branches(c: DraftCall, d: DraftReads, m: Mem) -> (n: Mem)
    requires
        draft_laid_out(c),
        !c.flags.single_stream,
        !c.flags.gpu_combiner,
        streams_usable(d.streams, c.hc_elems()),
        d.rows.len() == c.hc(),
        forall|j: int| 0 <= j < d.rows.len() ==> (#[trigger] d.rows[j]).len() == c.h() * 2,
    ensures
        leads(front_steps(c, d), c.stream, m, n),
        forall|i: int|
            0 <= i < d.rows.len() ==> holds_at(
                front_steps(c, d),
                c.stream,
                m,
                #[trigger] read_step(c.ctx.buffers.moe_output, c.h() * 2, d.rows[i]),
                c.ctx.buffers.moe_output,
                sum(
                    c.parts.residual_add_k,
                    h_branch(c, Val::Data(narrowed_row(d.streams, i, c.h() as int))),
                    e_branch(c, m),
                ),
            ),
        n(c.ctx.buffers.hc_streams) is Data,
        forall|i: int|
            0 <= i < d.rows.len() ==> n(c.ctx.buffers.hc_streams)->Data_0.subrange(
                i * (c.h() * 4),
                i * (c.h() * 4) + c.h() * 4,
            ) == widened(#[trigger] d.rows[i]),
{
    reveal(front_steps);
    let b = c.ctx.buffers;
    let s = c.stream;
    let sync = seq![Op::Synchronize];
    let look = read_step(b.hc_streams, c.hc_elems() * 4, d.streams);
    let rows = rows_steps(c, d.streams, d.rows);
    let send = send_step(widened_rows(d.rows), b.hc_streams, s);
    let m0 = lemma_front(c, m);
    lemma_after_one(m0, Op::Synchronize);
    let m1 = after(m0, sync);
    assert(m1(b.hidden_states) == m0(b.hidden_states));
    lemma_leads_steps(sync, s, m0);
    lemma_leads_ask(look, s, m1);
    let m2 = lemma_host_rows(c, m1, d.streams, d.rows);
    let n = then_event(m2, send);
    lemma_leads_ask(send, s, m2);
    let e0 = steps(embed_ops(c), s);
    let e1 = e0 + steps(sync, s);
    let e2 = e1 + seq![look];
    lemma_leads_add(e0, steps(sync, s), s, m, m0, m1);
    lemma_leads_add(e1, seq![look], s, m, m1, m1);
    lemma_leads_add(e2, rows, s, m, m1, m2);
    lemma_leads_add(e2 + rows, seq![send], s, m, m2, n);
    let all = front_steps(c, d);
    assert(all =~= e2 + rows + seq![send]);
    assert forall|i: int| 0 <= i < d.rows.len() implies holds_at(
        all,
        s,
        m,
        #[trigger] read_step(b.moe_output, c.h() * 2, d.rows[i]),
        b.moe_output,
        sum(
            c.parts.residual_add_k,
            h_branch(c, Val::Data(narrowed_row(d.streams, i, c.h() as int))),
            e_branch(c, m),
        ),
    ) by {
        lemma_holds_within(
            e2,
            rows,
            seq![send],
            s,
            m,
            m1,
            read_step(b.moe_output, c.h() * 2, d.rows[i]),
            b.moe_output,
            sum(
                c.parts.residual_add_k,
                h_branch(c, Val::Data(narrowed_row(d.streams, i, c.h() as int))),
                e_branch(c, m),
            ),
        );
    }
    assert forall|i: int| 0 <= i < d.rows.len() implies widened_rows(d.rows).subrange(
        i * (c.h() * 4),
        i * (c.h() * 4) + c.h() * 4,
    ) == widened(#[trigger] d.rows[i]) by {
        lemma_widened_rows(d.rows, c.h() as int, i);
    }
    lemma_widened_len(d.rows, c.h() as int);
    assert(c.hc() * (c.h() * 4) > 0) by {
        lemma_zones(c);
    }
    n
}

/// Where the target's streams cannot be used, the draft starts in every stream
/// from the sum of the two branches, that of the target taken from its hidden
/// state.
pub proof fn unusable_streams_start_from_the_target(c: DraftCall, d: DraftReads, m: Mem) -> (n: Mem)
    requires
        draft_laid_out(c),
        !c.flags.single_stream,
        !c.flags.gpu_combiner,
        !streams_usable(d.streams, c.hc_elems()),
    ensures
        leads(front_steps(c, d), c.stream, m, n),
        n(c.ctx.buffers.hidden_states) == combined_row(c, m),
        forall|i: int|
            0 <= i < c.hc() ==> #[trigger] n(at(c.ctx.buffers.hc_streams, i * (c.h() * 4))) == (Val::Stream {
                kernel: c.parts.hc_expand_k,
                of: Box::new(combined_row(c, m)),
            }),
{
    reveal(front_steps);
    let b = c.ctx.buffers;
    let s = c.stream;
    let sync = seq![Op::Synchronize];
    let look = read_step(b.hc_streams, c.hc_elems() * 4, d.streams);
    let ops = single_ops(c, true);
    let m0 = lemma_front(c, m);
    lemma_after_one(m0, Op::Synchronize);
    let m1 = after(m0, sync);
    assert(m1(b.hidden_states) == m0(b.hidden_states) && m1(c.target_hidden) == m0(c.target_hidden));
    lemma_leads_steps(sync, s, m0);
    lemma_leads_ask(look, s, m1);
    lemma_single(c, m1, true);
    let n = after(m1, ops);
    lemma_leads_steps(ops, s, m1);
    let e0 = steps(embed_ops(c), s);
    let e1 = e0 + steps(sync, s);
    let e2 = e1 + seq![look];
    lemma_leads_add(e0, steps(sync, s), s, m, m0, m1);
    lemma_leads_add(e1, seq![look], s, m, m1, m1);
    lemma_leads_add(e2, steps(ops, s), s, m, m1, n);
    assert(front_steps(c, d) =~= e2 + steps(ops, s));
    n
}

// ── from the body to the token ──
/// Stream `i` behind the body: where the streams were found corrupt they are
/// rebuilt, each from the body's row.
pub open spec fn rear_stream(c: DraftCall, m: Mem, rebuilt: bool, i: int) -> Val {
    if rebuilt {
        Val::Stream { kernel: c.parts.hc_expand_k, of: Box::new(m(c.ctx.buffers.hidden_states)) }
    } else {
        m(at(c.ctx.buffers.hc_streams, i * (c.h() * 4)))
    }
}

/// The row that the head reads: the streams collapsed by the module's own head,
/// or the first of them where it has none. The body's row stays as it is where
/// the layers keep one stream, where collapsing is switched off, and after a
/// rebuild unless it is asked for.
pub open spec fn head_row(c: DraftCall, m: Mem, rebuilt: bool) -> Val {
    if !c.flags.use_mhc || c.flags.skip_hc_head || (rebuilt && !c.flags.hc_head_after_recover) {
        m(c.ctx.buffers.hidden_states)
    } else if c.parts.module.hc_head is None {
        rear_stream(c, m, rebuilt, 0)
    } else {
        let head = c.parts.module.hc_head->0;
        Val::Collapsed {
            kernels: seq![c.parts.hc_head_k],
            by: (Mixing {
                hc_fn: head.hc_fn,
                hc_scale: head.hc_scale,
                hc_base: head.hc_base,
                hidden_size: c.h(),
                hc_mult: c.hc(),
                sinkhorn_iters: 0,
                norm_eps: c.ctx.config.rms_norm_eps,
                hc_eps: c.ctx.config.hc_eps,
            }),
            of: Seq::new(c.hc() as nat, |i: int| rear_stream(c, m, rebuilt, i)),
        }
    }
}

/// The logits of a row: normed by the module's norm, by the shared output head.
pub open spec fn logits_of(c: DraftCall, row: Val) -> Val {
    product(
        c.parts.dense_gemv_k,
        c.parts.lm_head,
        c.vocab(),
        c.h(),
        norm(c.parts.rms_norm_k, c.parts.module.norm, c.h(), c.ctx.config.rms_norm_eps, row),
    )
}

/// What is read back to pick the token from: all logits where a mask applies,
/// and the place of the largest where none does.
pub open spec fn pick_of(c: DraftCall, masked: bool, row: Val) -> Val {
    if masked {
        logits_of(c, row)
    } else {
        Val::Argmax { kernel: c.parts.argmax_k, n: c.vocab(), of: Box::new(logits_of(c, row)) }
    }
}

/// The read that picks the token.
pub open spec fn pick_read(c: DraftCall, masked: bool, pick: Seq<u8>) -> Event {
    if masked {
        read_step(c.ctx.buffers.logits, c.vocab() * 2, pick)
    } else {
        read_step(at(c.ctx.buffers.scratch, 64), 4, pick)
    }
}

/// Where that read reads.
pub open spec fn pick_place(c: DraftCall, masked: bool) -> DevicePtr {
    if masked {
        c.ctx.buffers.logits
    } else {
        at(c.ctx.buffers.scratch, 64)
    }
}

/// Logits of the row at `hidden`.
proof fn lemma_head(c: DraftCall, m: Mem, hidden: DevicePtr)
    requires
        draft_laid_out(c),
        c.vocab() > 0,
    ensures
        after(m, head_ops(c, hidden))(c.ctx.buffers.logits) == logits_of(c, m(hidden)),
{
    let o = head_ops(c, hidden);
    assert(o =~= seq![o[0], o[1]]);
    lemma_after_two(m, o[0], o[1]);
    lemma_zones(c);
}

/// Picking from logits.
proof fn lemma_picked(c: DraftCall, m: Mem, masked: bool, pick: Seq<u8>, row: Val)
    requires
        draft_laid_out(c),
        c.vocab() > 0,
        m(c.ctx.buffers.logits) == logits_of(c, row),
    ensures
        holds_at(
            pick_steps(c, masked, pick),
            c.stream,
            m,
            pick_read(c, masked, pick),
            pick_place(c, masked),
            pick_of(c, masked, row),
        ),
{
    let s = c.stream;
    let read = pick_read(c, masked, pick);
    let none = Seq::<Event>::empty();
    let all = pick_steps(c, masked, pick);
    if masked {
        lemma_leads_nothing(s, m);
        assert(all =~= none + seq![read] + none);
        assert(finds(none, m, none, all, s, m, read, pick_place(c, masked), pick_of(c, masked, row)));
    } else {
        let ops = seq![argmax_op(c)];
        lemma_leads_steps(ops, s, m);
        lemma_after_one(m, argmax_op(c));
        let n = after(m, ops);
        assert(all =~= steps(ops, s) + seq![read] + none);
        assert(n(pick_place(c, masked)) == pick_of(c, masked, row));
        assert(finds(steps(ops, s), n, none, all, s, m, read, pick_place(c, masked), pick_of(c, masked, row)));
    }
}

/// Where no body runs, the token comes from the target's own hidden state by the
/// module's norm and the shared head.
pub proof fn echo_picks_from_the_target(c: DraftCall, pick: Seq<u8>, m: Mem)
    requires
        draft_laid_out(c),
        c.vocab() > 0,
    ensures
        holds_at(
            echo_steps(c, pick),
            c.stream,
            m,
            pick_read(c, false, pick),
            pick_place(c, false),
            pick_of(c, false, m(c.target_hidden)),
        ),
{
    reveal(echo_steps);
    let ops = head_ops(c, c.target_hidden);
    let m1 = after(m, ops);
    lemma_head(c, m, c.target_hidden);
    lemma_leads_steps(ops, c.stream, m);
    lemma_picked(c, m1, false, pick, m(c.target_hidden));
    let none = Seq::<Event>::empty();
    lemma_holds_within(
        steps(ops, c.stream),
        pick_steps(c, false, pick),
        none,
        c.stream,
        m,
        m1,
        pick_read(c, false, pick),
        pick_place(c, false),
        pick_of(c, false, m(c.target_hidden)),
    );
    assert(steps(ops, c.stream) + pick_steps(c, false, pick) + none =~= echo_steps(c, pick));
}

/// The streams behind the check of the streams.
#[verifier::rlimit(60)]
#[verifier::spinoff_prover]
proof fn lemma_recovered(c: DraftCall, on: bool, looked: Seq<u8>, m: Mem) -> (n: Mem)
    requires
        draft_laid_out(c),
    ensures
        leads(recover_steps(c, on, looked), c.stream, m, n),
        n(c.ctx.buffers.hidden_states) == m(c.ctx.buffers.hidden_states),
        forall|i: int|
            0 <= i < c.hc() ==> #[trigger] n(at(c.ctx.buffers.hc_streams, i * (c.h() * 4))) == rear_stream(
                c,
                m,
                recovered(c, looked),
                i,
            ),
{
    reveal(recover_steps);
    let s = c.stream;
    let b = c.ctx.buffers;
    let z = draft_zones(c);
    lemma_zones(c);
    if !checks_streams(c) {
        lemma_leads_nothing(s, m);
        m
    } else {
        let sync = seq![Op::Synchronize];
        let look = read_step(b.hc_streams, c.hc_elems() * 4, looked);
        lemma_wait(m, true);
        lemma_leads_steps(sync, s, m);
        lemma_leads_ask(look, s, m);
        lemma_leads_add(steps(sync, s), seq![look], s, m, m, m);
        let front = steps(sync, s) + seq![look];
        if recovered(c, looked) {
            let expand = c.expand_op(b.hidden_states);
            let dump = c.streams_dump(on, Boundary::DraftRecovered);
            let n = then_op(m, expand);
            lemma_after_one(m, expand);
            lemma_dump(
                n,
                on,
                Boundary::DraftRecovered,
                0,
                b.hc_streams,
                c.hc() as int,
                c.h() as int,
                true,
            );
            lemma_after_add(m, seq![expand], dump);
            let ops = rebuild_ops(c, on);
            lemma_leads_steps(ops, s, m);
            lemma_leads_add(front, steps(ops, s), s, m, m, n);
            assert(off(z[2].base, z[5].base) >= z[5].bytes);
            seen_hc_expand(
                m,
                c.parts.hc_expand_k,
                b.hidden_states,
                b.hc_streams,
                1,
                c.h(),
                c.hc(),
                b.hidden_states,
            );
            assert forall|i: int| 0 <= i < c.hc() implies #[trigger] n(at(b.hc_streams, i * (c.h() * 4))) == rear_stream(
                c,
                m,
                true,
                i,
            ) by {
                assert(z[5].bytes == c.hc() * (c.h() * 4));
                lemma_expanded(m, c.parts.hc_expand_k, b.hidden_states, b.hc_streams, 1, c.h(), c.hc(), 0, i);
            }
            n
        } else {
            assert(front + Seq::<Event>::empty() =~= front);
            m
        }
    }
}

/// The row that the head reads, and its logits.
#[verifier::rlimit(60)]
#[verifier::spinoff_prover]
proof fn lemma_tail(c: DraftCall, on: bool, rebuilt: bool, m: Mem, m1: Mem)
    requires
        draft_laid_out(c),
        c.vocab() > 0,
        m1(c.ctx.buffers.hidden_states) == m(c.ctx.buffers.hidden_states),
        forall|i: int|
            0 <= i < c.hc() ==> #[trigger] m1(at(c.ctx.buffers.hc_streams, i * (c.h() * 4))) == rear_stream(
                c,
                m,
                rebuilt,
                i,
            ),
    ensures
        after(m1, tail_ops(c, on, rebuilt))(c.ctx.buffers.logits) == logits_of(c, head_row(c, m, rebuilt)),
{
    reveal(tail_ops);
    let b = c.ctx.buffers;
    let op = collapse_op(c, rebuilt);
    let dump = c.row_dump(on, Boundary::DraftCollapsed, b.hidden_states);
    let head = head_ops(c, b.hidden_states);
    let m2 = then_op(m1, op);
    lemma_after_one(m1, op);
    lemma_dump(m2, on, Boundary::DraftCollapsed, 0, b.hidden_states, 1, c.h() as int, false);
    lemma_after_add(m1, seq![op], dump);
    lemma_after_add(m1, seq![op] + dump, head);
    assert(at(b.hidden_states, 0) == b.hidden_states && at(b.hc_streams, 0) == b.hc_streams);
    assert(0 * (c.h() * 4) == 0) by (nonlinear_arith);
    assert(m1(at(b.hc_streams, 0 * (c.h() * 4))) == rear_stream(c, m, rebuilt, 0));
    assert(m2(b.hidden_states) == head_row(c, m, rebuilt)) by {
        if op is HcHead {
            let h = c.parts.module.hc_head->0;
            seen_hc_head(
                m1,
                c.parts.hc_head_k,
                b.hc_streams,
                h.hc_fn,
                h.hc_scale,
                h.hc_base,
                b.hidden_states,
                1,
                c.h(),
                c.hc(),
                c.ctx.config.rms_norm_eps,
                c.ctx.config.hc_eps,
                b.hidden_states,
            );
            crate::flow::off_self(b.hidden_states);
            let h2 = c.h() * 2;
            vstd::arithmetic::div_mod::lemma_basic_div(0, h2);
            vstd::arithmetic::div_mod::lemma_small_mod(0, h2 as nat);
            let hc = c.hc() as int;
            assert forall|i: int| 0 <= i < hc implies (0 * hc + i) * (c.h() * 4) == #[trigger] (i * (c.h() * 4)) by {}
            assert(streams_at(m1, b.hc_streams, 0, hc, c.h() as int) =~= Seq::new(
                hc as nat,
                |i: int| rear_stream(c, m, rebuilt, i),
            )) by {
                assert forall|i: int| 0 <= i < hc implies #[trigger] streams_at(m1, b.hc_streams, 0, hc, c.h() as int)[i]
                    == rear_stream(c, m, rebuilt, i) by {
                    assert(0 * hc == 0) by (nonlinear_arith);
                    assert(m1(at(b.hc_streams, i * (c.h() * 4))) == rear_stream(c, m, rebuilt, i));
                }
            }
        }
    }
    lemma_head(c, m2, b.hidden_states);
}

/// Behind the body the token is picked from the logits of the collapsed row:
/// normed by the module's own norm, by the shared output head, with the streams
/// rebuilt from the body's row where they were found corrupt.
#[verifier::rlimit(60)]
#[verifier::spinoff_prover]
pub proof fn draft_picks_from_the_collapsed_row(
    c: DraftCall,
    masked: bool,
    on: bool,
    looked: Seq<u8>,
    pick: Seq<u8>,
    m: Mem,
)
    requires
        draft_laid_out(c),
        c.vocab() > 0,
    ensures
        holds_at(
            rear_steps(c, masked, on, looked, pick),
            c.stream,
            m,
            pick_read(c, masked, pick),
            pick_place(c, masked),
            pick_of(
                c,
                masked,
                head_row(c, m, c.flags.use_mhc && c.flags.hc_recover && streams_corrupt(looked, c.hc_elems())),
            ),
        ),
{
    reveal(rear_steps);
    let s = c.stream;
    let rebuilt = recovered(c, looked);
    let row = head_row(c, m, rebuilt);
    let m1 = lemma_recovered(c, on, looked, m);
    let tail = tail_ops(c, on, rebuilt);
    lemma_tail(c, on, rebuilt, m, m1);
    let m2 = after(m1, tail);
    lemma_leads_steps(tail, s, m1);
    let e0 = recover_steps(c, on, looked);
    let e1 = steps(tail, s);
    lemma_leads_add(e0, e1, s, m, m1, m2);
    lemma_picked(c, m2, masked, pick, row);
    let none = Seq::<Event>::empty();
    lemma_holds_within(
        e0 + e1,
        pick_steps(c, masked, pick),
        none,
        s,
        m,
        m2,
        pick_read(c, masked, pick),
        pick_place(c, masked),
        pick_of(c, masked, row),
    );
    assert(e0 + e1 + pick_steps(c, masked, pick) + none =~= rear_steps(c, masked, on, looked, pick));
}

// ── prefill ──
/// The buffers of a pass over prompt rows.
pub open spec fn pass_zones(p: PassCall) -> Seq<Zone> {
    let b = p.ctx.buffers;
    let rows = p.count * p.hc();
    seq![
        zone(b.residual, rows * (p.h() * 2)),
        zone(b.norm_output, rows * (p.h() * 2)),
        zone(b.hidden_states, p.count * (p.h() * 2)),
        zone(b.moe_output, p.count * (p.h() * 2)),
        zone(b.attn_output, p.count * (p.h() * 2)),
        zone(b.hc_streams, rows * (p.h() * 4)),
        zone(b.token_ids, p.count * 4),
        zone(at(p.target_streams, p.done * p.stream_row_bytes()), rows * (p.h() * 4)),
    ]
}

/// The buffers of the pass are apart, and its sizes fit.
pub open spec fn pass_laid_out(p: PassCall) -> bool {
    &&& p.fits()
    &&& 0 < p.h() <= u32::MAX
    &&& 0 < p.hc() <= u32::MAX
    &&& p.count * p.hc() * p.h() <= u32::MAX
    &&& p.count * p.hc() <= u32::MAX
    &&& p.position <= u32::MAX
    &&& all_apart(pass_zones(p))
}

/// The branch of the target for stream `i` of row `r`.
pub open spec fn pass_h_branch(p: PassCall, m: Mem, r: int, i: int) -> Val {
    let stream = m(
        at(p.target_streams, p.done * p.stream_row_bytes() + (r * p.hc() + i) * (p.h() * 4)),
    );
    product(
        p.parts.dense_gemm_pipelined_k,
        p.parts.module.h_proj,
        p.h() as u32,
        p.h() as u32,
        norm(
            p.parts.rms_norm_k,
            p.parts.module.hnorm,
            p.h() as u32,
            p.ctx.config.rms_norm_eps,
            Val::Narrowed { kernel: p.parts.mtp_hc_f32_to_bf16_k, of: Box::new(stream) },
        ),
    )
}

/// The branch of the token of row `r`.
pub open spec fn pass_e_branch(p: PassCall, tokens: Seq<u32>, r: int) -> Val {
    product(
        p.parts.dense_gemm_pipelined_k,
        p.parts.module.e_proj,
        p.h() as u32,
        p.h() as u32,
        norm(
            p.parts.rms_norm_k,
            p.parts.module.enorm,
            p.h() as u32,
            p.ctx.config.rms_norm_eps,
            Val::Embedded {
                kernel: p.parts.batched_embed_k,
                table: p.parts.embed_tokens.weight,
                h: p.h() as u32,
                id: Box::new(part(Val::Data(le32_all(tokens)), r * 4)),
            },
        ),
    )
}

/// In a pass over prompt rows, too, stream `i` of row `r` becomes the sum of the
/// two branches: that of the target's stream `i` of the same row, and that of the
/// row's own token.
#[verifier::rlimit(100)]
#[verifier::spinoff_prover]
pub proof fn prefill_adds_both_branches(p: PassCall, tokens: Seq<u32>, m: Mem) -> (n: Mem)
    requires
        pass_laid_out(p),
        le32_all(tokens).len() == p.count * 4,
    ensures
        leads(pass_front(p, tokens), p.stream, m, n),
        forall|r: int, i: int|
            0 <= r < p.count && 0 <= i < p.hc() ==> #[trigger] n(
                at(p.ctx.buffers.hc_streams, (r * p.hc() + i) * (p.h() * 4)),
            ) == (Val::SumAt {
                kernel: p.parts.mtp_hproj_broadcast_add_k,
                position: p.position + r,
                a: Box::new(pass_h_branch(p, m, r, i)),
                b: Box::new(pass_e_branch(p, tokens, r)),
            }),
{
    reveal(pass_front);
    let b = p.ctx.buffers;
    let z = pass_zones(p);
    let s = p.stream;
    let h = p.h();
    let hc = p.hc();
    let h2 = h * 2;
    let h4 = h * 4;
    let cnt = p.count as int;
    let rows = cnt * hc;
    assert(rows * h2 == cnt * hc * h * 2 && rows > 0) by (nonlinear_arith)
        requires
            rows == cnt * hc,
            h2 == h * 2,
            cnt > 0,
            hc > 0,
    ;
    assert(at(b.residual, 0) == b.residual && at(b.norm_output, 0) == b.norm_output && at(b.hidden_states, 0)
        == b.hidden_states && at(b.moe_output, 0) == b.moe_output && at(b.attn_output, 0) == b.attn_output && at(
        b.hc_streams,
        0,
    ) == b.hc_streams);
    let t = target_ops(p);
    let m1 = then_op(m, t[0]);
    let m2 = then_op(m1, t[1]);
    let m3 = then_op(m2, t[2]);
    assert(t =~= seq![t[0], t[1], t[2]]);
    lemma_after_three(m, t[0], t[1], t[2]);
    lemma_op_keeps(m, t[0], z, 0, 0);
    lemma_op_keeps(m1, t[1], z, 1, 0);
    lemma_op_keeps(m2, t[2], z, 0, 0);
    let send = send_step(le32_all(tokens), b.token_ids, s);
    let m4 = then_event(m3, send);
    assert(keeps(m3, m4, z, set![6])) by {
        assert forall|q: DevicePtr| crate::flow::clear_of(q, z, set![6]) implies #[trigger] m4(q) == m3(q) by {
            assert(off(q, z[6].base) >= z[6].bytes);
        }
    }
    let o = token_ops(p);
    let m5 = then_op(m4, o[0]);
    let m6 = then_op(m5, o[1]);
    let m7 = then_op(m6, o[2]);
    let n = then_op(m7, o[3]);
    assert(o =~= seq![o[0], o[1], o[2], o[3]]);
    lemma_after_four(m4, o[0], o[1], o[2], o[3]);
    lemma_op_keeps(m4, o[0], z, 2, 0);
    lemma_op_keeps(m5, o[1], z, 3, 0);
    lemma_op_keeps(m6, o[2], z, 4, 0);
    lemma_leads_steps(t, s, m);
    lemma_leads_ask(send, s, m3);
    lemma_leads_steps(o, s, m4);
    lemma_leads_add(steps(t, s), seq![send], s, m, m3, m4);
    lemma_leads_add(steps(t, s) + seq![send], steps(o, s), s, m, m4, n);
    lemma_keeps_then(m3, m4, m5, z, set![6], set![2]);
    lemma_keeps_then(m3, m5, m6, z, set![6].union(set![2]), set![3]);
    lemma_keeps_then(m3, m6, m7, z, set![6].union(set![2]).union(set![3]), set![4]);
    let late = set![6int].union(set![2]).union(set![3]).union(set![4]);
    assert forall|r: int, i: int| 0 <= r < cnt && 0 <= i < hc implies #[trigger] n(at(b.hc_streams, (r * hc + i) * h4)) == (
    Val::SumAt {
        kernel: p.parts.mtp_hproj_broadcast_add_k,
        position: p.position + r,
        a: Box::new(pass_h_branch(p, m, r, i)),
        b: Box::new(pass_e_branch(p, tokens, r)),
    }) by {
        let k = r * hc + i;
        lemma_grouped(r, i, cnt, hc);
        lemma_row(k, rows, h4);
        lemma_row(k, rows, h2);
        lemma_row(r, cnt, h2);
        // The target's branch.
        lemma_inside(b.residual, k * h2);
        lemma_inside(b.norm_output, k * h2);
        let src = at(p.target_streams, p.done * p.stream_row_bytes());
        assert(k * h2 * 2 == k * h4) by (nonlinear_arith)
            requires
                h2 == h * 2,
                h4 == h * 4,
        ;
        assert(0 <= p.done * p.stream_row_bytes()) by (nonlinear_arith)
            requires
                p.done >= 0,
                p.stream_row_bytes() >= 0,
        ;
        lemma_at_at(p.target_streams, p.done * p.stream_row_bytes(), k * h4);
        seen_mtp_hc_f32_to_bf16(
            m,
            p.parts.mtp_hc_f32_to_bf16_k,
            src,
            b.residual,
            (p.count * p.hc() * p.h()) as u32,
            at(b.residual, k * h2),
        );
        seen_rms_norm(
            m1,
            p.parts.rms_norm_k,
            b.residual,
            p.parts.module.hnorm,
            b.norm_output,
            rows as u32,
            h as u32,
            p.ctx.config.rms_norm_eps,
            at(b.norm_output, k * h2),
        );
        seen_dense_gemm_pipelined(
            m2,
            p.parts.dense_gemm_pipelined_k,
            b.norm_output,
            p.parts.module.h_proj,
            b.residual,
            rows as u32,
            h as u32,
            h as u32,
            at(b.residual, k * h2),
        );
        assert(m3(at(b.residual, k * h2)) == pass_h_branch(p, m, r, i));
        lemma_kept(m3, m7, z, late, 0, k * h2);
        // The token's branch.
        lemma_inside(b.token_ids, r * 4);
        assert(m4(at(b.token_ids, r * 4)) == part(Val::Data(le32_all(tokens)), r * 4));
        lemma_inside(b.hidden_states, r * h2);
        lemma_inside(b.moe_output, r * h2);
        lemma_inside(b.attn_output, r * h2);
        seen_batched_embed(
            m4,
            p.parts.batched_embed_k,
            b.token_ids,
            p.parts.embed_tokens.weight,
            b.hidden_states,
            p.count as u32,
            h as u32,
            at(b.hidden_states, r * h2),
        );
        seen_rms_norm(
            m5,
            p.parts.rms_norm_k,
            b.hidden_states,
            p.parts.module.enorm,
            b.moe_output,
            p.count as u32,
            h as u32,
            p.ctx.config.rms_norm_eps,
            at(b.moe_output, r * h2),
        );
        seen_dense_gemm_pipelined(
            m6,
            p.parts.dense_gemm_pipelined_k,
            b.moe_output,
            p.parts.module.e_proj,
            b.attn_output,
            p.count as u32,
            h as u32,
            h as u32,
            at(b.attn_output, r * h2),
        );
        assert(m7(at(b.attn_output, r * h2)) == pass_e_branch(p, tokens, r));
        lemma_inside(b.hc_streams, k * h4);
        seen_mtp_hproj_broadcast_add(
            m7,
            p.parts.mtp_hproj_broadcast_add_k,
            b.residual,
            b.attn_output,
            b.hc_streams,
            p.count as u32,
            hc as u32,
            h as u32,
            p.position as u32,
            at(b.hc_streams, k * h4),
        );
    }
    n
}

} // verus!
