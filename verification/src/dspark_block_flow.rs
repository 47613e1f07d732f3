//! What a drafted block computes around its stages.
//!
//! [`dspark_block`](crate::dspark_block) says which operations a block runs. The
//! laws here say what they come to: the streams that the stages start from, what a
//! stage makes of its streams, the token of every row and the confidence.

use vstd::prelude::*;

use crate::bits::u32_at;
use crate::attention::{DsparkStage, HcSite};
use crate::dspark_block::{
    confidence_ops, entry_ops, exit_ops, hc_post_op, hc_pre_op, logits_ops, markov_ops, norm_op, picks_steps,
    prev_token, BlockCall,
};
use crate::dspark_stage::{gemv_op, rows_gemv};
use crate::flow::{
    after, all_apart, apart, collapse_seen, finds, holds_at, keeps, leads, lemma_after_add, lemma_after_four,
    lemma_after_one, lemma_after_push, lemma_after_two, lemma_between, lemma_collapsed, lemma_dump, lemma_grouped,
    lemma_holds_within, lemma_inside, lemma_keeps_more, lemma_keeps_self, lemma_keeps_then, lemma_kept,
    lemma_leads_add, lemma_leads_ask, lemma_leads_nothing, lemma_leads_steps, lemma_mixed, lemma_op_keeps,
    lemma_op_keeps_three, lemma_row, lemma_row_product, lemma_wait, norm, off_self, product, seen_argmax_bf16,
    seen_copy_d2d, seen_dense_gemv, seen_ffn_forward_prefill, seen_hc_head, seen_hc_pre, seen_residual_add,
    seen_rms_norm, streams_at, sum, then_op, zone, Mem, Mixing, Val, Zone,
};
use crate::gpu::{at, DenseWeight, DevicePtr};
use crate::op::{Boundary, FfnKind, Op};
use crate::run::{read_step, steps};
use crate::trace::Event;

verus! {

/// The buffers of the head, the streams and the table of Markov rows.
pub open spec fn head_zones(c: BlockCall, w: Seq<DevicePtr>, p: Seq<DevicePtr>) -> Seq<Zone> {
    let b = c.block() as int;
    seq![
        zone(p[0], b * (c.h() * 2)),
        zone(p[1], b * (c.h() * 2)),
        zone(p[2], b * (c.vocab() * 2)),
        zone(p[3], c.rank() * 2),
        zone(p[4], c.rank() * 2),
        zone(p[5], c.vocab() * 2),
        zone(p[6], 4),
        zone(p[7], (c.h() + c.rank()) * 2),
        zone(p[8], 2),
        zone(w[0], b * c.hc_mult * (c.h() * 4)),
        zone(c.markov_w1.weight, c.vocab() * (c.rank() * 2)),
    ]
}

/// The buffers of the head are apart, its sizes fit, and every token that a bias
/// is taken from is one of the vocabulary.
pub open spec fn head_laid_out(c: BlockCall, w: Seq<DevicePtr>, p: Seq<DevicePtr>) -> bool {
    &&& c.fits()
    &&& c.hc_head is Some
    &&& w.len() == 8
    &&& p.len() == 9
    &&& 0 < c.block()
    &&& 0 < c.h()
    &&& 0 < c.vocab()
    &&& 0 < c.rank()
    &&& 0 < c.hc_mult
    &&& c.h() + c.rank() <= u32::MAX
    &&& c.vocab() * 2 <= usize::MAX
    &&& c.rank() * 2 <= usize::MAX
    &&& c.h() * 2 <= usize::MAX
    &&& all_apart(head_zones(c, w, p))
}

/// Row `t` of the streams, collapsed by the head's own weights.
pub open spec fn collapsed(c: BlockCall, w: Seq<DevicePtr>, m: Mem, t: int) -> Val {
    let head = c.hc_head->0;
    Val::Collapsed {
        kernels: seq![c.kernels.hc_head_k],
        by: (Mixing {
            hc_fn: head.hc_fn,
            hc_scale: head.hc_scale,
            hc_base: head.hc_base,
            hidden_size: c.h(),
            hc_mult: c.hc_mult,
            sinkhorn_iters: 0,
            norm_eps: c.ctx.config.rms_norm_eps,
            hc_eps: c.hc_eps,
        }),
        of: streams_at(m, w[0], t, c.hc_mult as int, c.h() as int),
    }
}

/// The logits of row `t`.
pub open spec fn row_logits(c: BlockCall, w: Seq<DevicePtr>, m: Mem, t: int) -> Val {
    product(
        c.kernels.dense_gemv_k,
        c.lm_head,
        c.vocab(),
        c.h(),
        norm(c.kernels.rms_norm_k, c.norm, c.h(), c.ctx.config.rms_norm_eps, collapsed(c, w, m, t)),
    )
}

/// The Markov row of a token.
pub open spec fn markov_row(c: BlockCall, m: Mem, token: u32) -> Val {
    m(at(c.markov_w1.weight, token * (c.rank() * 2)))
}

/// The bias that a token puts on the logits of the next row.
pub open spec fn markov_bias(c: BlockCall, m: Mem, token: u32) -> Val {
    product(c.kernels.dense_gemv_k, c.markov_w2, c.vocab(), c.rank(), markov_row(c, m, token))
}

/// The token before row `t`: the last one that was accepted, and then what was
/// picked for the row before.
pub open spec fn token_before(c: BlockCall, picks: Seq<Seq<u8>>, t: int) -> u32 {
    if t == 0 {
        c.last_token
    } else {
        u32_at(picks[t - 1], 0)
    }
}

/// What is picked for row `t`: the largest of its logits, biased by the token
/// before.
pub open spec fn row_pick(c: BlockCall, w: Seq<DevicePtr>, m: Mem, picks: Seq<Seq<u8>>, t: int) -> Val {
    Val::Argmax {
        kernel: c.kernels.argmax_k,
        n: c.vocab(),
        of: Box::new(
            sum(
                c.kernels.residual_add_k,
                row_logits(c, w, m, t),
                markov_bias(c, m, token_before(c, picks, t)),
            ),
        ),
    }
}

#[verifier::rlimit(60)]
#[verifier::spinoff_prover]
proof fn lemma_rows_to_logits(c: BlockCall, w: Seq<DevicePtr>, p: Seq<DevicePtr>, m: Mem, count: int)
    requires
        head_laid_out(c, w, p),
        0 <= count <= c.block(),
    ensures
        ({
            let o = after(
                m,
                rows_gemv(
                    c.kernels.dense_gemv_k,
                    p[1],
                    c.h() * 2,
                    c.lm_head,
                    p[2],
                    c.vocab() * 2,
                    c.vocab() as int,
                    c.h() as int,
                    count as nat,
                ),
            );
            &&& forall|t: int|
                0 <= t < count ==> o(#[trigger] at(p[2], t * (c.vocab() * 2))) == product(
                    c.kernels.dense_gemv_k,
                    c.lm_head,
                    c.vocab(),
                    c.h(),
                    m(at(p[1], t * (c.h() * 2))),
                )
            &&& keeps(m, o, head_zones(c, w, p), set![2])
        }),
    decreases count,
{
    let z = head_zones(c, w, p);
    let b = c.block() as int;
    let kernel = c.kernels.dense_gemv_k;
    let (n, k) = (c.vocab(), c.h());
    let ops = rows_gemv(kernel, p[1], k * 2, c.lm_head, p[2], n * 2, n as int, k as int, count as nat);
    if count == 0 {
        assert(ops =~= Seq::<Op>::empty());
        lemma_keeps_self(m, z);
        lemma_keeps_more(m, m, z, Set::empty(), set![2]);
    } else {
        let r = count - 1;
        let front = rows_gemv(kernel, p[1], k * 2, c.lm_head, p[2], n * 2, n as int, k as int, r as nat);
        let op = gemv_op(kernel, at(p[1], r * (k * 2)), c.lm_head, at(p[2], r * (n * 2)), n as int, k as int);
        lemma_rows_to_logits(c, w, p, m, r);
        let m0 = after(m, front);
        let o = then_op(m0, op);
        assert(ops =~= front.push(op));
        lemma_after_push(m, front, op);
        lemma_row(r, b, n * 2);
        lemma_row(r, b, k * 2);
        lemma_op_keeps(m0, op, z, 2, r * (n * 2));
        lemma_kept(m, m0, z, set![2], 1, r * (k * 2));
        lemma_keeps_then(m, m0, o, z, set![2], set![2]);
        lemma_keeps_more(m, o, z, set![2].union(set![2]), set![2]);
        assert forall|t: int| 0 <= t < count implies o(#[trigger] at(p[2], t * (n * 2))) == product(
            kernel,
            c.lm_head,
            n,
            k,
            m(at(p[1], t * (k * 2))),
        ) by {
            lemma_row(t, b, n * 2);
            lemma_row_product(m0, kernel, at(p[1], r * (k * 2)), c.lm_head, p[2], n, k, b, r, t);
        }
    }
}

/// Logits of every row.
#[verifier::rlimit(60)]
#[verifier::spinoff_prover]
proof fn lemma_block_logits(c: BlockCall, w: Seq<DevicePtr>, p: Seq<DevicePtr>, m: Mem)
    requires
        head_laid_out(c, w, p),
    ensures
        ({
            let o = after(m, logits_ops(c, w, p));
            &&& forall|t: int|
                0 <= t < c.block() ==> o(#[trigger] at(p[2], t * (c.vocab() * 2))) == row_logits(c, w, m, t)
            &&& o(p[0]) == collapsed(c, w, m, 0)
            &&& keeps(m, o, head_zones(c, w, p), set![0, 1, 2])
        }),
{
    let z = head_zones(c, w, p);
    let b = c.block() as int;
    let h2 = c.h() * 2;
    let v2 = c.vocab() * 2;
    let head = c.hc_head->0;
    let ops = logits_ops(c, w, p);
    let o0 = ops[0];
    let o1 = norm_op(c, p[0], c.norm, p[1]);
    let rows = rows_gemv(
        c.kernels.dense_gemv_k,
        p[1],
        h2,
        c.lm_head,
        p[2],
        v2,
        c.vocab() as int,
        c.h() as int,
        b as nat,
    );
    assert(ops =~= seq![o0, o1] + rows);
    let m1 = then_op(m, o0);
    let m2 = then_op(m1, o1);
    lemma_after_two(m, o0, o1);
    lemma_after_add(m, seq![o0, o1], rows);
    lemma_rows_to_logits(c, w, p, m2, b);
    let n = after(m2, rows);
    assert(at(p[0], 0) == p[0] && at(p[1], 0) == p[1]);
    lemma_op_keeps(m, o0, z, 0, 0);
    lemma_op_keeps(m1, o1, z, 1, 0);
    lemma_keeps_then(m, m1, m2, z, set![0], set![1]);
    lemma_keeps_then(m, m2, n, z, set![0].union(set![1]), set![2]);
    lemma_keeps_more(m, n, z, set![0].union(set![1]).union(set![2]), set![0, 1, 2]);
    lemma_keeps_then(m1, m2, n, z, set![1], set![2]);
    assert forall|t: int| 0 <= t < b implies m1(#[trigger] at(p[0], t * h2)) == collapsed(c, w, m, t) by {
        lemma_row(t, b, h2);
        lemma_inside(p[0], t * h2);
        seen_hc_head(
            m,
            c.kernels.hc_head_k,
            w[0],
            head.hc_fn,
            head.hc_scale,
            head.hc_base,
            p[0],
            c.block(),
            c.h(),
            c.hc_mult,
            c.ctx.config.rms_norm_eps,
            c.hc_eps,
            at(p[0], t * h2),
        );
    }
    assert forall|t: int| 0 <= t < b implies n(#[trigger] at(p[2], t * v2)) == row_logits(c, w, m, t) by {
        lemma_row(t, b, h2);
        lemma_inside(p[1], t * h2);
        assert(m1(at(p[0], t * h2)) == collapsed(c, w, m, t));
        seen_rms_norm(
            m1,
            c.kernels.rms_norm_k,
            p[0],
            c.norm,
            p[1],
            c.block(),
            c.h(),
            c.ctx.config.rms_norm_eps,
            at(p[1], t * h2),
        );
    }
    assert(0 * h2 == 0) by (nonlinear_arith);
    assert(m1(at(p[0], 0 * h2)) == collapsed(c, w, m, 0));
    lemma_kept(m1, n, z, set![1].union(set![2]), 0, 0);
}

/// One row: its logits biased and the largest found.
#[verifier::rlimit(100)]
#[verifier::spinoff_prover]
proof fn lemma_markov(c: BlockCall, w: Seq<DevicePtr>, p: Seq<DevicePtr>, m: Mem, row: int, prev: u32)
    requires
        head_laid_out(c, w, p),
        0 <= row < c.block(),
        prev < c.vocab(),
    ensures
        ({
            let o = after(m, markov_ops(c, p, row, prev));
            let v2 = c.vocab() * 2;
            &&& o(p[6]) == (Val::Argmax {
                kernel: c.kernels.argmax_k,
                n: c.vocab(),
                of: Box::new(sum(c.kernels.residual_add_k, m(at(p[2], row * v2)), markov_bias(c, m, prev))),
            })
            &&& row == 0 ==> o(p[4]) == markov_row(c, m, prev)
            &&& row != 0 ==> o(p[4]) == m(p[4])
            &&& forall|t: int| 0 <= t < c.block() && t != row ==> o(#[trigger] at(p[2], t * v2)) == m(at(p[2], t * v2))
            &&& keeps(m, o, head_zones(c, w, p), set![2, 3, 4, 5, 6])
        }),
{
    let z = head_zones(c, w, p);
    let b = c.block() as int;
    let r2 = c.rank() * 2;
    let v2 = c.vocab() * 2;
    let logits = at(p[2], row * v2);
    lemma_row(row, b, v2);
    lemma_row(prev as int, c.vocab() as int, r2);
    assert(at(p[3], 0) == p[3] && at(p[4], 0) == p[4] && at(p[5], 0) == p[5] && at(p[6], 0) == p[6]);
    let o0 = Op::CopyD2d { src: at(c.markov_w1.weight, prev * r2), dst: p[3], bytes: r2 as usize };
    let keep = Op::CopyD2d { src: p[3], dst: p[4], bytes: r2 as usize };
    let o1 = gemv_op(c.kernels.dense_gemv_k, p[3], c.markov_w2, p[5], c.vocab() as int, c.rank() as int);
    let o2 = Op::ResidualAdd { kernel: c.kernels.residual_add_k, dst: logits, src: p[5], n: c.vocab() };
    let o3 = Op::ArgmaxBf16 { kernel: c.kernels.argmax_k, logits, out: p[6], n: c.vocab() };
    let m0 = then_op(m, o0);
    off_self(p[3]);
    off_self(p[4]);
    off_self(p[5]);
    off_self(p[6]);
    off_self(logits);
    seen_copy_d2d(m, at(c.markov_w1.weight, prev * r2), p[3], r2 as usize, p[3]);
    assert(at(at(c.markov_w1.weight, prev * r2), 0) == at(c.markov_w1.weight, prev * r2));
    assert(m0(p[3]) == markov_row(c, m, prev));
    lemma_op_keeps(m, o0, z, 3, 0);
    let kept = if row == 0 {
        seq![keep]
    } else {
        Seq::empty()
    };
    let m1 = after(m0, kept);
    if row == 0 {
        lemma_after_one(m0, keep);
        lemma_op_keeps(m0, keep, z, 4, 0);
        seen_copy_d2d(m0, p[3], p[4], r2 as usize, p[4]);
    } else {
        lemma_keeps_self(m0, z);
        lemma_keeps_more(m0, m0, z, Set::empty(), set![4]);
        lemma_kept(m, m0, z, set![3], 4, 0);
    }
    lemma_kept(m0, m1, z, set![4], 3, 0);
    let m2 = then_op(m1, o1);
    lemma_op_keeps(m1, o1, z, 5, 0);
    seen_dense_gemv(m1, c.kernels.dense_gemv_k, p[3], c.markov_w2, p[5], c.vocab(), c.rank(), p[5]);
    assert(m2(p[5]) == markov_bias(c, m, prev));
    let m3 = then_op(m2, o2);
    lemma_op_keeps(m2, o2, z, 2, row * v2);
    seen_residual_add(m2, c.kernels.residual_add_k, logits, p[5], c.vocab(), logits);
    let n = then_op(m3, o3);
    lemma_op_keeps(m3, o3, z, 6, 0);
    seen_argmax_bf16(m3, c.kernels.argmax_k, logits, p[6], c.vocab(), p[6]);
    let wait = seq![Op::Synchronize];
    lemma_wait(n, true);
    let last = seq![o1, o2, o3, Op::Synchronize];
    lemma_after_four(m1, o1, o2, o3, Op::Synchronize);
    lemma_after_one(n, Op::Synchronize);
    lemma_after_one(m, o0);
    lemma_after_add(m, seq![o0], kept);
    lemma_after_add(m, seq![o0] + kept, last);
    assert(markov_ops(c, p, row, prev) =~= seq![o0] + kept + last);
    lemma_keeps_then(m, m0, m1, z, set![3], set![4]);
    lemma_keeps_then(m, m1, m2, z, set![3].union(set![4]), set![5]);
    lemma_keeps_then(m, m2, m3, z, set![3].union(set![4]).union(set![5]), set![2]);
    lemma_keeps_then(m, m3, n, z, set![3].union(set![4]).union(set![5]).union(set![2]), set![6]);
    lemma_keeps_more(
        m,
        n,
        z,
        set![3].union(set![4]).union(set![5]).union(set![2]).union(set![6]),
        set![2, 3, 4, 5, 6],
    );
    lemma_kept(m, m2, z, set![3].union(set![4]).union(set![5]), 2, row * v2);
    lemma_keeps_then(m1, m2, m3, z, set![5], set![2]);
    lemma_keeps_then(m1, m3, n, z, set![5].union(set![2]), set![6]);
    lemma_kept(m1, n, z, set![5].union(set![2]).union(set![6]), 4, 0);
    assert forall|t: int| 0 <= t < b && t != row implies n(#[trigger] at(p[2], t * v2)) == m(at(p[2], t * v2)) by {
        lemma_row(t, b, v2);
        lemma_between(p[2], t * v2, row * v2);
        if t < row {
            assert(t * v2 + v2 <= row * v2) by (nonlinear_arith)
                requires
                    t < row,
                    v2 > 0,
            ;
        } else {
            assert(row * v2 + v2 <= t * v2) by (nonlinear_arith)
                requires
                    t > row,
                    v2 > 0,
            ;
        }
        lemma_kept(m, m2, z, set![3].union(set![4]).union(set![5]), 2, t * v2);
        seen_residual_add(m2, c.kernels.residual_add_k, logits, p[5], c.vocab(), at(p[2], t * v2));
        lemma_kept(m3, n, z, set![6], 2, t * v2);
    }
}

/// Rows picked one after the other.
#[verifier::rlimit(60)]
#[verifier::spinoff_prover]
proof fn lemma_picks(c: BlockCall, w: Seq<DevicePtr>, p: Seq<DevicePtr>, m: Mem, m0: Mem, picks: Seq<Seq<u8>>) -> (n: Mem)
    requires
        head_laid_out(c, w, p),
        picks.len() <= c.block(),
        forall|t: int| 0 <= t < picks.len() ==> #[trigger] token_before(c, picks, t) < c.vocab(),
        forall|t: int|
            0 <= t < c.block() ==> m0(#[trigger] at(p[2], t * (c.vocab() * 2))) == row_logits(c, w, m, t),
        keeps(m, m0, head_zones(c, w, p), set![0, 1, 2]),
    ensures
        leads(picks_steps(c, p, picks), c.stream, m0, n),
        forall|t: int|
            picks.len() <= t < c.block() ==> n(#[trigger] at(p[2], t * (c.vocab() * 2))) == row_logits(c, w, m, t),
        keeps(m, n, head_zones(c, w, p), set![0, 1, 2, 3, 4, 5, 6]),
        keeps(m0, n, head_zones(c, w, p), set![2, 3, 4, 5, 6]),
        picks.len() > 0 ==> n(p[4]) == markov_row(c, m, c.last_token),
        forall|t: int|
            0 <= t < picks.len() ==> holds_at(
                picks_steps(c, p, picks),
                c.stream,
                m0,
                #[trigger] read_step(p[6], 4, picks[t]),
                p[6],
                row_pick(c, w, m, picks, t),
            ),
    decreases picks.len(),
{
    let z = head_zones(c, w, p);
    let s = c.stream;
    let late = set![0int, 1, 2, 3, 4, 5, 6];
    let own = set![2int, 3, 4, 5, 6];
    let none = Seq::<Event>::empty();
    if picks.len() == 0 {
        lemma_leads_nothing(s, m0);
        lemma_keeps_more(m, m0, z, set![0, 1, 2], late);
        lemma_keeps_self(m0, z);
        lemma_keeps_more(m0, m0, z, Set::empty(), own);
        m0
    } else {
        let row = picks.len() - 1;
        let rest = picks.drop_last();
        let prev = token_before(c, picks, row as int);
        assert(prev == prev_token(c, picks, row as int));
        assert forall|t: int| 0 <= t < rest.len() implies #[trigger] token_before(c, rest, t) < c.vocab() by {
            assert(token_before(c, rest, t) == token_before(c, picks, t));
        }
        let m1 = lemma_picks(c, w, p, m, m0, rest);
        lemma_markov(c, w, p, m1, row as int, prev);
        let ops = markov_ops(c, p, row as int, prev);
        let n = after(m1, ops);
        let read = read_step(p[6], 4, picks.last());
        let front = picks_steps(c, p, rest);
        lemma_leads_steps(ops, s, m1);
        lemma_leads_ask(read, s, n);
        lemma_leads_add(front, steps(ops, s), s, m0, m1, n);
        lemma_leads_add(front + steps(ops, s), seq![read], s, m0, n, n);
        lemma_keeps_then(m, m1, n, z, late, own);
        lemma_keeps_more(m, n, z, late.union(own), late);
        lemma_keeps_then(m0, m1, n, z, own, own);
        lemma_keeps_more(m0, n, z, own.union(own), own);
        let r2 = c.rank() * 2;
        lemma_row(prev as int, c.vocab() as int, r2);
        lemma_kept(m, m1, z, late, 10, prev * r2);
        assert(m1(at(p[2], row * (c.vocab() * 2))) == row_logits(c, w, m, row as int));
        let all = picks_steps(c, p, picks);
        assert(all =~= front + steps(ops, s) + seq![read]);
        assert forall|t: int| 0 <= t < picks.len() implies holds_at(
            all,
            s,
            m0,
            #[trigger] read_step(p[6], 4, picks[t]),
            p[6],
            row_pick(c, w, m, picks, t),
        ) by {
            let e = read_step(p[6], 4, picks[t]);
            let v = row_pick(c, w, m, picks, t);
            if t < row {
                assert(rest[t] == picks[t]);
                assert(token_before(c, rest, t) == token_before(c, picks, t));
                lemma_leads_nothing(s, m0);
                lemma_holds_within(none, front, steps(ops, s) + seq![read], s, m0, m0, e, p[6], v);
                assert(none + front + (steps(ops, s) + seq![read]) =~= all);
            } else {
                assert(all =~= (front + steps(ops, s)) + seq![e] + none);
                assert(n(p[6]) == v);
                assert(finds(front + steps(ops, s), n, none, all, s, m0, e, p[6], v));
            }
        }
        n
    }
}

/// The tokens of a block: row `t` is picked from the logits of its own collapsed
/// streams, biased by the Markov row of the token before it, which is what was
/// picked for the row before. The confidence comes from the first row and the
/// Markov row of the last accepted token.
#[verifier::rlimit(100)]
#[verifier::spinoff_prover]
pub proof fn block_picks_rows_in_turn(
    c: BlockCall,
    w: Seq<DevicePtr>,
    p: Seq<DevicePtr>,
    picks: Seq<Seq<u8>>,
    m: Mem,
) -> (n: Mem)
    requires
        head_laid_out(c, w, p),
        picks.len() == c.block(),
        forall|t: int| 0 <= t < picks.len() ==> #[trigger] token_before(c, picks, t) < c.vocab(),
    ensures
        leads(
            steps(logits_ops(c, w, p), c.stream) + picks_steps(c, p, picks) + steps(confidence_ops(c, p), c.stream),
            c.stream,
            m,
            n,
        ),
        forall|t: int|
            0 <= t < picks.len() ==> holds_at(
                steps(logits_ops(c, w, p), c.stream) + picks_steps(c, p, picks) + steps(confidence_ops(c, p), c.stream),
                c.stream,
                m,
                #[trigger] read_step(p[6], 4, picks[t]),
                p[6],
                row_pick(c, w, m, picks, t),
            ),
        n(p[7]) == collapsed(c, w, m, 0),
        n(at(p[7], c.h() * 2)) == markov_row(c, m, c.last_token),
        n(p[8]) == product(
            c.kernels.dense_gemv_k,
            c.confidence_proj,
            1,
            (c.h() + c.rank()) as u32,
            collapsed(c, w, m, 0),
        ),
{
    let z = head_zones(c, w, p);
    let s = c.stream;
    let e0 = steps(logits_ops(c, w, p), s);
    let e1 = picks_steps(c, p, picks);
    let ops = confidence_ops(c, p);
    let e2 = steps(ops, s);
    lemma_block_logits(c, w, p, m);
    let m0 = after(m, logits_ops(c, w, p));
    lemma_leads_steps(logits_ops(c, w, p), s, m);
    let m1 = lemma_picks(c, w, p, m, m0, picks);
    lemma_leads_add(e0, e1, s, m, m0, m1);
    let h2 = c.h() * 2;
    let r2 = c.rank() * 2;
    assert(at(p[7], 0) == p[7] && at(p[8], 0) == p[8] && at(p[0], 0) == p[0] && at(p[4], 0) == p[4]);
    let m2 = then_op(m1, ops[0]);
    let m3 = then_op(m2, ops[1]);
    let m4 = then_op(m3, ops[2]);
    assert(ops =~= seq![ops[0], ops[1], ops[2], Op::Synchronize]);
    lemma_after_four(m1, ops[0], ops[1], ops[2], Op::Synchronize);
    lemma_wait(m4, true);
    lemma_after_one(m4, Op::Synchronize);
    let n = after(m1, ops);
    assert(n == m4);
    lemma_leads_steps(ops, s, m1);
    lemma_leads_add(e0 + e1, e2, s, m, m1, n);
    lemma_op_keeps(m1, ops[0], z, 7, 0);
    lemma_op_keeps(m2, ops[1], z, 7, h2);
    lemma_op_keeps(m3, ops[2], z, 8, 0);
    lemma_kept(m0, m1, z, set![2, 3, 4, 5, 6], 0, 0);
    lemma_kept(m1, m2, z, set![7], 4, 0);
    off_self(p[7]);
    off_self(p[8]);
    off_self(at(p[7], h2));
    lemma_between(p[7], 0, h2);
    seen_copy_d2d(m1, p[0], p[7], h2 as usize, p[7]);
    seen_copy_d2d(m2, p[4], at(p[7], h2), r2 as usize, p[7]);
    seen_copy_d2d(m2, p[4], at(p[7], h2), r2 as usize, at(p[7], h2));
    assert(m3(p[7]) == collapsed(c, w, m, 0));
    assert(m3(at(p[7], h2)) == markov_row(c, m, c.last_token));
    seen_dense_gemv(
        m3,
        c.kernels.dense_gemv_k,
        p[7],
        c.confidence_proj,
        p[8],
        1,
        (c.h() + c.rank()) as u32,
        p[8],
    );
    lemma_kept(m3, m4, z, set![8], 7, 0);
    lemma_kept(m3, m4, z, set![8], 7, h2);
    assert forall|t: int| 0 <= t < picks.len() implies holds_at(
        e0 + e1 + e2,
        s,
        m,
        #[trigger] read_step(p[6], 4, picks[t]),
        p[6],
        row_pick(c, w, m, picks, t),
    ) by {
        lemma_holds_within(
            e0,
            e1,
            e2,
            s,
            m,
            m0,
            read_step(p[6], 4, picks[t]),
            p[6],
            row_pick(c, w, m, picks, t),
        );
    }
    n
}

// ── around the attention of a stage ──
/// The working buffers of the block, and where the expert block leaves its rows.
pub open spec fn work_zones(c: BlockCall, w: Seq<DevicePtr>) -> Seq<Zone> {
    let b = c.block() as int;
    let hc = c.hc_mult as int;
    seq![
        zone(w[0], b * c.hc_mult * (c.h() * 4)),
        zone(w[1], b * c.hc_mult * (c.h() * 4)),
        zone(w[2], b * (c.h() * 2)),
        zone(w[3], b * (c.h() * 2)),
        zone(w[4], b * (hc * 4)),
        zone(w[5], b * (hc * hc * 4)),
        zone(w[6], b * (c.h() * 2)),
        zone(w[7], b * (c.h() * 2)),
        zone(c.ctx.buffers.moe_output, b * (c.h() * 2)),
    ]
}

pub open spec fn work_laid_out(c: BlockCall, w: Seq<DevicePtr>) -> bool {
    &&& c.fits()
    &&& w.len() == 8
    &&& 0 < c.block()
    &&& 0 < c.h()
    &&& 0 < c.hc_mult
    &&& c.ctx.config.hidden_size <= u32::MAX
    &&& c.block() * c.h() * 2 <= usize::MAX
    &&& all_apart(work_zones(c, w))
}

/// How a site of hyper-connections is used.
pub open spec fn mixing(c: BlockCall, site: HcSite) -> Mixing {
    Mixing {
        hc_fn: site.hc_fn,
        hc_scale: site.hc_scale,
        hc_base: site.hc_base,
        hidden_size: c.h(),
        hc_mult: c.hc_mult,
        sinkhorn_iters: c.sinkhorn,
        norm_eps: c.ctx.config.rms_norm_eps,
        hc_eps: c.hc_eps,
    }
}

/// The row that a block of layers reads: the streams collapsed at `site`, normed.
pub open spec fn block_input(c: BlockCall, site: HcSite, weight: DenseWeight, streams: Seq<Val>) -> Val {
    norm(
        c.kernels.rms_norm_k,
        weight,
        c.h(),
        c.ctx.config.rms_norm_eps,
        Val::Collapsed { kernels: seq![c.kernels.hc_pre_k], by: mixing(c, site), of: streams },
    )
}

/// How much of the output goes to each stream.
pub open spec fn shares_of(c: BlockCall, site: HcSite, streams: Seq<Val>) -> Val {
    Val::Shares { kernels: seq![c.kernels.hc_pre_k], by: mixing(c, site), of: streams }
}

/// How the streams mix among themselves.
pub open spec fn matrix_of(c: BlockCall, site: HcSite, streams: Seq<Val>) -> Val {
    Val::Matrix { kernels: seq![c.kernels.hc_pre_k], by: mixing(c, site), of: streams }
}

/// Stream `i` after the output `block` was mixed into `streams`.
pub open spec fn mixed_in(c: BlockCall, i: int, block: Val, streams: Seq<Val>, shares: Val, matrix: Val) -> Val {
    Val::Mixed {
        kernel: c.kernels.hc_post_k,
        stream: i,
        block: Box::new(block),
        streams,
        shares: Box::new(shares),
        matrix: Box::new(matrix),
    }
}

/// The streams of row `t`.
pub open spec fn row_streams(c: BlockCall, m: Mem, base: DevicePtr, t: int) -> Seq<Val> {
    streams_at(m, base, t, c.hc_mult as int, c.h() as int)
}

/// A collapse and its norm.
#[verifier::rlimit(100)]
#[verifier::spinoff_prover]
proof fn lemma_collapse_and_norm(
    c: BlockCall,
    w: Seq<DevicePtr>,
    m: Mem,
    from: int,
    site: HcSite,
    weight: DenseWeight,
    dump: Seq<Op>,
)
    requires
        work_laid_out(c, w),
        from == 0 || from == 1,
        forall|n: Mem| #[trigger] after(n, dump) == n,
    ensures
        ({
            let o = after(m, seq![hc_pre_op(c, w, w[from], site)] + dump + seq![norm_op(c, w[3], weight, w[6])]);
            let hc = c.hc_mult as int;
            &&& forall|t: int|
                0 <= t < c.block() ==> o(#[trigger] at(w[6], t * (c.h() * 2))) == block_input(
                    c,
                    site,
                    weight,
                    row_streams(c, m, w[from], t),
                )
            &&& forall|t: int|
                0 <= t < c.block() ==> o(#[trigger] at(w[4], t * (hc * 4))) == shares_of(
                    c,
                    site,
                    row_streams(c, m, w[from], t),
                )
            &&& forall|t: int|
                0 <= t < c.block() ==> o(#[trigger] at(w[5], t * (hc * hc * 4))) == matrix_of(
                    c,
                    site,
                    row_streams(c, m, w[from], t),
                )
            &&& keeps(m, o, work_zones(c, w), set![3, 4, 5, 6])
        }),
{
    let z = work_zones(c, w);
    let b = c.block() as int;
    let hc = c.hc_mult as int;
    let h2 = c.h() * 2;
    let pre = hc_pre_op(c, w, w[from], site);
    let op = norm_op(c, w[3], weight, w[6]);
    let m1 = then_op(m, pre);
    let n = then_op(m1, op);
    lemma_after_one(m, pre);
    lemma_after_one(m1, op);
    lemma_after_add(m, seq![pre], dump);
    lemma_after_add(m, seq![pre] + dump, seq![op]);
    assert(after(m1, dump) == m1);
    assert(at(w[6], 0) == w[6]);
    lemma_op_keeps_three(m, pre, z, 3, 4, 5);
    lemma_op_keeps(m1, op, z, 6, 0);
    lemma_keeps_then(m, m1, n, z, set![3, 4, 5], set![6]);
    lemma_keeps_more(m, n, z, set![3, 4, 5].union(set![6]), set![3, 4, 5, 6]);
    let small = seq![zone(w[3], b * h2), zone(w[4], b * (hc * 4)), zone(w[5], b * (hc * hc * 4))];
    assert(all_apart(small)) by {
        assert(small[0] == z[3] && small[1] == z[4] && small[2] == z[5]);
        assert forall|i: int, j: int| 0 <= i < 3 && 0 <= j < 3 && i != j implies apart(
            #[trigger] small[i],
            #[trigger] small[j],
        ) by {
            assert(apart(z[i + 3], z[j + 3]));
        }
    }
    assert forall|t: int| 0 <= t < b implies m1(#[trigger] at(w[3], t * h2)) == (Val::Collapsed {
        kernels: seq![c.kernels.hc_pre_k],
        by: mixing(c, site),
        of: row_streams(c, m, w[from], t),
    }) && m1(at(w[4], t * (hc * 4))) == shares_of(c, site, row_streams(c, m, w[from], t)) && m1(
        at(w[5], t * (hc * hc * 4)),
    ) == matrix_of(c, site, row_streams(c, m, w[from], t)) by {
        lemma_collapsed(m, seq![c.kernels.hc_pre_k], w[from], mixing(c, site), w[3], w[4], w[5], c.block(), t);
        lemma_pre_seen(c, w, m, from, site, at(w[3], t * h2));
        lemma_pre_seen(c, w, m, from, site, at(w[4], t * (hc * 4)));
        lemma_pre_seen(c, w, m, from, site, at(w[5], t * (hc * hc * 4)));
    }
    assert forall|t: int| 0 <= t < b implies n(#[trigger] at(w[6], t * h2)) == block_input(
        c,
        site,
        weight,
        row_streams(c, m, w[from], t),
    ) by {
        lemma_row(t, b, h2);
        lemma_inside(w[6], t * h2);
        assert(m1(at(w[3], t * h2)) is Collapsed);
        seen_rms_norm(
            m1,
            c.kernels.rms_norm_k,
            w[3],
            weight,
            w[6],
            c.block(),
            c.h(),
            c.ctx.config.rms_norm_eps,
            at(w[6], t * h2),
        );
    }
    assert forall|t: int| 0 <= t < b implies n(#[trigger] at(w[4], t * (hc * 4))) == shares_of(
        c,
        site,
        row_streams(c, m, w[from], t),
    ) by {
        lemma_row(t, b, hc * 4);
        lemma_kept(m1, n, z, set![6], 4, t * (hc * 4));
        assert(m1(at(w[3], t * h2)) is Collapsed);
    }
    assert(hc * hc > 0) by (nonlinear_arith)
        requires
            hc > 0,
    ;
    assert forall|t: int| 0 <= t < b implies n(#[trigger] at(w[5], t * (hc * hc * 4))) == matrix_of(
        c,
        site,
        row_streams(c, m, w[from], t),
    ) by {
        lemma_row(t, b, hc * hc * 4);
        lemma_kept(m1, n, z, set![6], 5, t * (hc * hc * 4));
        assert(m1(at(w[3], t * h2)) is Collapsed);
    }
}

proof fn lemma_pre_seen(c: BlockCall, w: Seq<DevicePtr>, m: Mem, from: int, site: HcSite, q: DevicePtr)
    ensures
        then_op(m, hc_pre_op(c, w, w[from], site))(q) == collapse_seen(
            m,
            q,
            seq![c.kernels.hc_pre_k],
            w[from],
            mixing(c, site),
            w[3],
            w[4],
            w[5],
            c.block(),
        ),
{
    seen_hc_pre(
        m,
        c.kernels.hc_pre_k,
        w[from],
        site.hc_fn,
        site.hc_scale,
        site.hc_base,
        w[3],
        w[4],
        w[5],
        c.block(),
        c.h(),
        c.hc_mult,
        c.sinkhorn,
        c.ctx.config.rms_norm_eps,
        c.hc_eps,
        q,
    );
}

/// Ahead of its attention a stage collapses its streams with its own attention
/// weights and norms every row by its own attention norm.
pub proof fn stage_attends_to_collapsed_streams(c: BlockCall, stage: DsparkStage, index: int, w: Seq<DevicePtr>, m: Mem)
    requires
        work_laid_out(c, w),
        stage.hc is Some,
    ensures
        ({
            let o = after(m, entry_ops(c, stage, index, w));
            let site = stage.hc->0.attn;
            let hc = c.hc_mult as int;
            &&& forall|t: int|
                0 <= t < c.block() ==> o(#[trigger] at(w[6], t * (c.h() * 2))) == block_input(
                    c,
                    site,
                    stage.attn_norm,
                    row_streams(c, m, w[0], t),
                )
            &&& forall|t: int|
                0 <= t < c.block() ==> o(#[trigger] at(w[4], t * (hc * 4))) == shares_of(
                    c,
                    site,
                    row_streams(c, m, w[0], t),
                )
            &&& forall|t: int|
                0 <= t < c.block() ==> o(#[trigger] at(w[5], t * (hc * hc * 4))) == matrix_of(
                    c,
                    site,
                    row_streams(c, m, w[0], t),
                )
            &&& keeps(m, o, work_zones(c, w), set![3, 4, 5, 6])
        }),
{
    let inner = c.dump && c.dump_stages;
    let d0 = c.dumped(Boundary::HcPre, index, w[3]);
    let d1 = c.dumped(Boundary::AttnNorm, index, w[6]);
    assert forall|n: Mem| #[trigger] after(n, d0) == n by {
        lemma_dumped(c, Boundary::HcPre, index, w[3], n);
    }
    lemma_collapse_and_norm(c, w, m, 0, stage.hc->0.attn, stage.attn_norm, d0);
    let front = seq![hc_pre_op(c, w, w[0], stage.hc->0.attn)] + d0 + seq![norm_op(c, w[3], stage.attn_norm, w[6])];
    lemma_after_add(m, front, d1);
    lemma_dumped(c, Boundary::AttnNorm, index, w[6], after(m, front));
    assert(entry_ops(c, stage, index, w) =~= front + d1);
}

proof fn lemma_dumped(c: BlockCall, boundary: Boundary, index: int, src: DevicePtr, m: Mem)
    ensures
        after(m, c.dumped(boundary, index, src)) == m,
{
    lemma_dump(m, c.dump && c.dump_stages, boundary, index as usize, src, c.block() as int, c.h() as int, false);
}

proof fn lemma_streams_dumped(c: BlockCall, on: bool, boundary: Boundary, index: int, src: DevicePtr, m: Mem)
    ensures
        after(m, c.streams_dumped(on, boundary, index, src)) == m,
{
    lemma_dump(m, on, boundary, index as usize, src, c.block() * c.hc_mult, c.h() as int, true);
}

/// The streams of row `t` once the attention was mixed in.
pub open spec fn attended_streams(c: BlockCall, w: Seq<DevicePtr>, m: Mem, t: int) -> Seq<Val> {
    let hc = c.hc_mult as int;
    Seq::new(
        hc as nat,
        |i: int|
            mixed_in(
                c,
                i,
                m(at(w[7], t * (c.h() * 2))),
                row_streams(c, m, w[0], t),
                m(at(w[4], t * (hc * 4))),
                m(at(w[5], t * (hc * hc * 4))),
            ),
    )
}

/// Behind its attention a stage mixes the attention rows into its streams,
/// collapses those with its own feed-forward weights, norms them, feeds them
/// forward, and mixes the result into the same streams.
#[verifier::rlimit(100)]
#[verifier::spinoff_prover]
pub proof fn stage_mixes_attention_and_experts_in(c: BlockCall, stage: DsparkStage, index: int, w: Seq<DevicePtr>, m: Mem)
    requires
        work_laid_out(c, w),
        stage.hc is Some,
    ensures
        ({
            let o = after(m, exit_ops(c, stage, index, w));
            let site = stage.hc->0.ffn;
            forall|t: int, i: int|
                0 <= t < c.block() && 0 <= i < c.hc_mult ==> o(
                    #[trigger] at(w[0], (t * c.hc_mult + i) * (c.h() * 4)),
                ) == mixed_in(
                    c,
                    i,
                    Val::Fed {
                        ffn: FfnKind::Main,
                        layer: index as usize,
                        of: Box::new(block_input(c, site, stage.ffn_norm, attended_streams(c, w, m, t))),
                    },
                    attended_streams(c, w, m, t),
                    shares_of(c, site, attended_streams(c, w, m, t)),
                    matrix_of(c, site, attended_streams(c, w, m, t)),
                )
        }),
{
    let z = work_zones(c, w);
    let b = c.block() as int;
    let hc = c.hc_mult as int;
    let h2 = c.h() * 2;
    let h4 = c.h() * 4;
    let inner = c.dump && c.dump_stages;
    let site = stage.hc->0.ffn;
    let none = Seq::<Op>::empty();
    let p0 = hc_post_op(c, w, w[7], w[0], w[1]);
    let d0 = c.streams_dumped(inner, Boundary::AttnHcPost, index, w[1]);
    let mid = seq![hc_pre_op(c, w, w[1], site)] + none + seq![norm_op(c, w[3], stage.ffn_norm, w[6])];
    let d1 = c.dumped(Boundary::FfnNorm, index, w[6]);
    let feed = Op::FfnForwardPrefill {
        ffn: FfnKind::Main,
        layer: index as usize,
        input: w[6],
        tokens: c.block() as usize,
        ctx: c.ctx,
    };
    let moe = c.ctx.buffers.moe_output;
    let copy = Op::CopyD2d { src: moe, dst: w[6], bytes: c.hidden_bytes() as usize };
    let d2 = c.dumped(Boundary::MoeOut, index, w[6]);
    let p1 = hc_post_op(c, w, w[6], w[1], w[0]);
    let d3 = c.streams_dumped(c.dump, Boundary::StageOut, index, w[0]);
    let d4 = c.streams_dumped(inner, Boundary::StageEnd, index, w[0]);
    let all = exit_ops(c, stage, index, w);
    assert(all =~= seq![p0] + d0 + mid + d1 + seq![feed, copy] + d2 + seq![p1] + d3 + d4);
    let m1 = then_op(m, p0);
    lemma_after_one(m, p0);
    lemma_streams_dumped(c, inner, Boundary::AttnHcPost, index, w[1], m1);
    assert forall|n: Mem| #[trigger] after(n, none) == n by {}
    lemma_collapse_and_norm(c, w, m1, 1, site, stage.ffn_norm, none);
    let m2 = after(m1, mid);
    lemma_dumped(c, Boundary::FfnNorm, index, w[6], m2);
    let m3 = then_op(m2, feed);
    let m4 = then_op(m3, copy);
    lemma_after_two(m2, feed, copy);
    lemma_dumped(c, Boundary::MoeOut, index, w[6], m4);
    let n = then_op(m4, p1);
    lemma_after_one(m4, p1);
    lemma_streams_dumped(c, c.dump, Boundary::StageOut, index, w[0], n);
    lemma_streams_dumped(c, inner, Boundary::StageEnd, index, w[0], n);
    lemma_after_add(m, seq![p0], d0);
    lemma_after_add(m, seq![p0] + d0, mid);
    lemma_after_add(m, seq![p0] + d0 + mid, d1);
    lemma_after_add(m, seq![p0] + d0 + mid + d1, seq![feed, copy]);
    lemma_after_add(m, seq![p0] + d0 + mid + d1 + seq![feed, copy], d2);
    lemma_after_add(m, seq![p0] + d0 + mid + d1 + seq![feed, copy] + d2, seq![p1]);
    lemma_after_add(m, seq![p0] + d0 + mid + d1 + seq![feed, copy] + d2 + seq![p1], d3);
    lemma_after_add(m, seq![p0] + d0 + mid + d1 + seq![feed, copy] + d2 + seq![p1] + d3, d4);
    assert(at(w[1], 0) == w[1] && at(w[6], 0) == w[6] && at(moe, 0) == moe);
    assert(c.hidden_bytes() == b * h2) by (nonlinear_arith)
        requires
            c.hidden_bytes() == b * c.h() * 2,
            h2 == c.h() * 2,
    ;
    lemma_op_keeps(m, p0, z, 1, 0);
    lemma_op_keeps(m2, feed, z, 8, 0);
    lemma_op_keeps(m3, copy, z, 6, 0);
    lemma_keeps_then(m2, m3, m4, z, set![8], set![6]);
    lemma_keeps_then(m1, m2, m4, z, set![3, 4, 5, 6], set![8].union(set![6]));
    let late = set![3int, 4, 5, 6].union(set![8].union(set![6]));
    assert forall|t: int| 0 <= t < b implies #[trigger] row_streams(c, m1, w[1], t) == attended_streams(c, w, m, t) by {
        assert forall|i: int| 0 <= i < hc implies #[trigger] row_streams(c, m1, w[1], t)[i] == attended_streams(
            c,
            w,
            m,
            t,
        )[i] by {
            lemma_mixed(
                m,
                c.kernels.hc_post_k,
                w[7],
                w[0],
                w[4],
                w[5],
                w[1],
                c.block(),
                c.h(),
                c.hc_mult,
                t,
                i,
            );
        }
        assert(row_streams(c, m1, w[1], t) =~= attended_streams(c, w, m, t));
    }
    assert forall|t: int| 0 <= t < b implies m4(#[trigger] at(w[6], t * h2)) == (Val::Fed {
        ffn: FfnKind::Main,
        layer: index as usize,
        of: Box::new(block_input(c, site, stage.ffn_norm, attended_streams(c, w, m, t))),
    }) by {
        lemma_row(t, b, h2);
        lemma_inside(w[6], t * h2);
        lemma_inside(moe, t * h2);
        assert(row_streams(c, m1, w[1], t) == attended_streams(c, w, m, t));
        seen_ffn_forward_prefill(
            m2,
            FfnKind::Main,
            index as usize,
            w[6],
            c.block() as usize,
            c.ctx,
            at(moe, t * h2),
        );
        seen_copy_d2d(m3, moe, w[6], c.hidden_bytes() as usize, at(w[6], t * h2));
    }
    assert forall|t: int, i: int| 0 <= t < b && 0 <= i < hc implies n(#[trigger] at(w[0], (t * c.hc_mult + i) * h4))
        == mixed_in(
        c,
        i,
        Val::Fed {
            ffn: FfnKind::Main,
            layer: index as usize,
            of: Box::new(block_input(c, site, stage.ffn_norm, attended_streams(c, w, m, t))),
        },
        attended_streams(c, w, m, t),
        shares_of(c, site, attended_streams(c, w, m, t)),
        matrix_of(c, site, attended_streams(c, w, m, t)),
    ) by {
        lemma_mixed(m4, c.kernels.hc_post_k, w[6], w[1], w[4], w[5], w[0], c.block(), c.h(), c.hc_mult, t, i);
        assert(m4(at(w[6], t * h2)) is Fed);
        assert(row_streams(c, m1, w[1], t) == attended_streams(c, w, m, t));
        assert(hc * hc > 0) by (nonlinear_arith)
            requires
                hc > 0,
        ;
        lemma_row(t, b, hc * 4);
        lemma_row(t, b, hc * hc * 4);
        lemma_keeps_then(m2, m3, m4, z, set![8], set![6]);
        lemma_kept(m2, m4, z, set![8].union(set![6]), 4, t * (hc * 4));
        lemma_kept(m2, m4, z, set![8].union(set![6]), 5, t * (hc * hc * 4));
        assert(streams_at(m4, w[1], t, hc, c.h() as int) =~= row_streams(c, m1, w[1], t)) by {
            assert forall|j: int| 0 <= j < hc implies #[trigger] streams_at(m4, w[1], t, hc, c.h() as int)[j]
                == row_streams(c, m1, w[1], t)[j] by {
                lemma_grouped(t, j, b, hc);
                lemma_row(t * hc + j, b * c.hc_mult, h4);
                lemma_kept(m1, m4, z, late, 1, (t * hc + j) * h4);
            }
        }
    }
}

} // verus!
