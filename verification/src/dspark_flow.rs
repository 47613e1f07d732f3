//! What a stage of the block drafter computes.
//!
//! [`dspark_stage`](crate::dspark_stage) says which operations the attention of a
//! stage runs. The laws here say what they come to: the queries, the draft rows,
//! the committed row and the output as formulas of the block's rows, the weights
//! and the positions.

use vstd::prelude::*;

use crate::bits::le32;
use crate::buffers::free_ops;
use crate::dspark_stage::{
    down_ops, down_pair, front_ops, gemv_op, group_op, norm_op, out_ops, out_row_ops, rotate_ops, rows_gemv, sparse_op,
    stage_attn_steps, stage_ops, stage_sizes, store_ops, StageCall,
};
use crate::flow::{
    after, all_apart, apart, keeps, leads, lemma_after_add, lemma_after_one, lemma_after_push, lemma_after_three,
    lemma_after_two, lemma_at_at, lemma_between, lemma_dump, lemma_extracted, lemma_inside, lemma_keeps_more,
    lemma_keeps_self, lemma_keeps_then, lemma_kept, lemma_leads_add, lemma_leads_ask, lemma_leads_nothing,
    lemma_leads_steps, lemma_op_keeps, lemma_op_keeps_two, lemma_row, lemma_row_product, lemma_turned_q,
    lemma_written_back, norm, off, off_self, part, product, rows_at, seen_copy_d2d, seen_dense_gemv,
    seen_dspark_sparse_attention, seen_rms_norm, then_event, then_op, zone, Lanes, Mem, Val, Zone,
};
use crate::gpu::{at, ONE_BITS, DenseWeight, DevicePtr, F32Bits, KernelHandle};
use crate::op::{Boundary, Op};
use crate::run::{alloc_steps, put_step, steps};
use crate::trace::Event;

verus! {

/// The scratch of a stage, what it reads, the ring and the output.
pub open spec fn stage_zones(c: StageCall, p: Seq<DevicePtr>) -> Seq<Zone> {
    let b = c.block() as int;
    seq![
        zone(p[0], b * (c.q_lora() * 2)),
        zone(p[1], b * (c.q_lora() * 2)),
        zone(p[2], b * (c.q_dim() * 2)),
        zone(p[3], b * (c.q_dim() * 2)),
        zone(p[4], b * (c.hd() * 2)),
        zone(p[5], b * (c.hd() * 2)),
        zone(p[6], b * (c.nq * c.rope() * 2)),
        zone(p[7], b * (c.q_dim() * 2)),
        zone(p[8], b * (c.latent_dim() * 2)),
        zone(p[9], b * (c.h() * 2)),
        zone(p[10], c.hd() * 2),
        zone(p[11], c.hd() * 2),
        zone(p[12], 4),
        zone(c.attn_in, b * (c.h() * 2)),
        zone(c.main_x, c.h() * 2),
        zone(c.block_pos, b * 4),
        zone(c.main_pos, 4),
        zone(c.ring.buf, (c.ring.window as u32) * (c.hd() * 2)),
        zone(c.out, b * (c.h() * 2)),
    ]
}

/// The buffers of the stage are apart, its sizes fit, and the committed row has a
/// place in the ring.
pub open spec fn stage_laid_out(c: StageCall, p: Seq<DevicePtr>) -> bool {
    &&& c.fits()
    &&& p.len() == 13
    &&& 0 < c.block()
    &&& 0 < c.h()
    &&& 0 < c.q_lora()
    &&& 0 < c.nq
    &&& 0 < c.hd()
    &&& 0 < c.rope()
    &&& 0 < c.o_lora()
    &&& 0 < c.group_in()
    &&& c.main_slot < c.ring.window <= u32::MAX
    &&& all_apart(stage_zones(c, p))
}

/// A row by a plain weight.
pub open spec fn times(c: StageCall, weight: DenseWeight, n: u32, k: u32, x: Val) -> Val {
    product(c.kernels.dense_gemv_k, weight, n, k, x)
}

/// A normed row.
pub open spec fn normed(c: StageCall, weight: DenseWeight, cols: u32, x: Val) -> Val {
    norm(c.kernels.rms_norm_k, weight, cols, c.ctx.config.rms_norm_eps, x)
}

/// Row `t` of the block.
pub open spec fn block_row(c: StageCall, m: Mem, t: int) -> Val {
    m(at(c.attn_in, t * (c.h() * 2)))
}

/// The query of row `x` before its rotation.
pub open spec fn stage_query(c: StageCall, x: Val) -> Val {
    let down = normed(c, c.mla.q_a_norm, c.q_lora(), times(c, c.mla.wq_a, c.q_lora(), c.h(), x));
    normed(c, c.ones, c.hd(), times(c, c.mla.wq_b, c.q_dim() as u32, c.q_lora(), down))
}

/// The key and value of row `x` before its rotation. Draft rows and committed
/// rows are made in the same way.
pub open spec fn stage_latent(c: StageCall, x: Val) -> Val {
    normed(c, c.mla.kv_a_norm, c.hd(), times(c, c.mla.wkv_a, c.hd(), c.h(), x))
}

/// `row` with its rotary lanes turned by `kernel` at `position`.
pub open spec fn turned_row(c: StageCall, kernel: KernelHandle, position: Val, heads: u32, row: Val) -> Val {
    let lanes = Lanes { heads, hd: c.hd(), nope: c.nope(), rope: c.rope() };
    Val::Replaced {
        kernel: c.kernels.writeback_k,
        lanes,
        row: Box::new(row),
        by: Box::new(
            Val::Turned {
                kernel,
                position: Box::new(position),
                inv_freq: c.mla.main_inv_freq,
                mscale: F32Bits(ONE_BITS),
                heads,
                head_dim: c.rope(),
                rope: c.rope(),
                of: Box::new(Val::Rotary { kernel: c.kernels.extract_k, lanes, of: Box::new(row) }),
            },
        ),
    }
}

/// The position of row `t` of the block.
pub open spec fn position_of(c: StageCall, m: Mem, t: int) -> Val {
    m(at(c.block_pos, t * 4))
}

/// Rows `0 .. n` of both down projections.
#[verifier::rlimit(60)]
#[verifier::spinoff_prover]
proof fn lemma_down(c: StageCall, p: Seq<DevicePtr>, m: Mem, n: int)
    requires
        stage_laid_out(c, p),
        0 <= n <= c.block(),
    ensures
        ({
            let o = after(m, down_ops(c, p, n));
            &&& forall|t: int|
                0 <= t < n ==> o(#[trigger] at(p[0], t * (c.q_lora() * 2))) == times(
                    c,
                    c.mla.wq_a,
                    c.q_lora(),
                    c.h(),
                    block_row(c, m, t),
                )
            &&& forall|t: int|
                0 <= t < n ==> o(#[trigger] at(p[4], t * (c.hd() * 2))) == times(
                    c,
                    c.mla.wkv_a,
                    c.hd(),
                    c.h(),
                    block_row(c, m, t),
                )
            &&& keeps(m, o, stage_zones(c, p), set![0, 4])
        }),
    decreases n,
{
    let z = stage_zones(c, p);
    let k = c.kernels.dense_gemv_k;
    let q2 = c.q_lora() * 2;
    let h2 = c.hd() * 2;
    let b = c.block() as int;
    if n == 0 {
        lemma_keeps_self(m, z);
        lemma_keeps_more(m, m, z, Set::empty(), set![0, 4]);
    } else {
        let r = n - 1;
        lemma_down(c, p, m, r);
        let m0 = after(m, down_ops(c, p, r));
        let o = down_pair(c, p, r);
        lemma_after_add(m, down_ops(c, p, r), o);
        assert(o =~= seq![o[0], o[1]]);
        lemma_after_two(m0, o[0], o[1]);
        let m1 = then_op(m0, o[0]);
        let m2 = then_op(m1, o[1]);
        let x = at(c.attn_in, r * (c.h() * 2));
        lemma_row(r, b, q2);
        lemma_row(r, b, h2);
        lemma_row(r, b, c.h() * 2);
        lemma_op_keeps(m0, o[0], z, 0, r * q2);
        lemma_op_keeps(m1, o[1], z, 4, r * h2);
        lemma_kept(m, m0, z, set![0, 4], 13, r * (c.h() * 2));
        lemma_kept(m0, m1, z, set![0], 13, r * (c.h() * 2));
        lemma_keeps_then(m, m0, m1, z, set![0, 4], set![0]);
        lemma_keeps_then(m, m1, m2, z, set![0, 4].union(set![0]), set![4]);
        lemma_keeps_more(m, m2, z, set![0, 4].union(set![0]).union(set![4]), set![0, 4]);
        assert forall|t: int| 0 <= t < n implies m2(#[trigger] at(p[0], t * q2)) == times(
            c,
            c.mla.wq_a,
            c.q_lora(),
            c.h(),
            block_row(c, m, t),
        ) by {
            lemma_row(t, b, q2);
            lemma_row_product(m0, k, x, c.mla.wq_a, p[0], c.q_lora(), c.h(), b, r, t);
            lemma_kept(m1, m2, z, set![4], 0, t * q2);
        }
        assert forall|t: int| 0 <= t < n implies m2(#[trigger] at(p[4], t * h2)) == times(
            c,
            c.mla.wkv_a,
            c.hd(),
            c.h(),
            block_row(c, m, t),
        ) by {
            lemma_row(t, b, h2);
            lemma_row_product(m1, k, x, c.mla.wkv_a, p[4], c.hd(), c.h(), b, r, t);
            lemma_kept(m0, m1, z, set![0], 4, t * h2);
        }
    }
}

/// Rows `0 .. n` of a product from buffer `i` to buffer `j`.
#[verifier::rlimit(60)]
#[verifier::spinoff_prover]
proof fn lemma_rows_gemv(
    c: StageCall,
    p: Seq<DevicePtr>,
    m: Mem,
    weight: DenseWeight,
    i: int,
    j: int,
    n: u32,
    k: u32,
    count: int,
)
    requires
        stage_laid_out(c, p),
        0 <= i < 19,
        0 <= j < 19,
        i != j,
        0 < n,
        0 < k,
        stage_zones(c, p)[i].bytes == c.block() * (k * 2),
        stage_zones(c, p)[j].bytes == c.block() * (n * 2),
        0 <= count <= c.block(),
    ensures
        ({
            let from = stage_zones(c, p)[i].base;
            let to = stage_zones(c, p)[j].base;
            let o = after(
                m,
                rows_gemv(c.kernels.dense_gemv_k, from, k * 2, weight, to, n * 2, n as int, k as int, count as nat),
            );
            &&& forall|t: int|
                0 <= t < count ==> o(#[trigger] at(to, t * (n * 2))) == times(c, weight, n, k, m(at(from, t * (k * 2))))
            &&& keeps(m, o, stage_zones(c, p), set![j])
        }),
    decreases count,
{
    let z = stage_zones(c, p);
    let from = z[i].base;
    let to = z[j].base;
    let b = c.block() as int;
    let kernel = c.kernels.dense_gemv_k;
    let ops = rows_gemv(kernel, from, k * 2, weight, to, n * 2, n as int, k as int, count as nat);
    if count == 0 {
        assert(ops =~= Seq::<Op>::empty());
        lemma_keeps_self(m, z);
        lemma_keeps_more(m, m, z, Set::empty(), set![j]);
    } else {
        let r = count - 1;
        let front = rows_gemv(kernel, from, k * 2, weight, to, n * 2, n as int, k as int, r as nat);
        let op = gemv_op(kernel, at(from, r * (k * 2)), weight, at(to, r * (n * 2)), n as int, k as int);
        lemma_rows_gemv(c, p, m, weight, i, j, n, k, r);
        let m0 = after(m, front);
        let o = then_op(m0, op);
        assert(ops =~= front.push(op));
        lemma_after_push(m, front, op);
        lemma_row(r, b, n * 2);
        lemma_row(r, b, k * 2);
        lemma_op_keeps(m0, op, z, j, r * (n * 2));
        lemma_kept(m, m0, z, set![j], i, r * (k * 2));
        lemma_keeps_then(m, m0, o, z, set![j], set![j]);
        lemma_keeps_more(m, o, z, set![j].union(set![j]), set![j]);
        assert forall|t: int| 0 <= t < count implies o(#[trigger] at(to, t * (n * 2))) == times(
            c,
            weight,
            n,
            k,
            m(at(from, t * (k * 2))),
        ) by {
            lemma_row(t, b, n * 2);
            lemma_row_product(m0, kernel, at(from, r * (k * 2)), weight, to, n, k, b, r, t);
        }
    }
}

/// A norm from buffer `i` to buffer `j`, place by place.
proof fn lemma_stage_norm(c: StageCall, p: Seq<DevicePtr>, m: Mem, weight: DenseWeight, i: int, j: int, rows: int, cols: int)
    requires
        stage_laid_out(c, p),
        0 <= i < 19,
        0 <= j < 19,
        0 < rows <= u32::MAX,
        0 < cols <= u32::MAX,
        rows * (cols * 2) <= stage_zones(c, p)[j].bytes,
    ensures
        ({
            let from = stage_zones(c, p)[i].base;
            let to = stage_zones(c, p)[j].base;
            let o = then_op(m, norm_op(c, from, weight, to, rows, cols));
            &&& forall|d: int|
                0 <= d < rows * (cols * 2) ==> #[trigger] o(at(to, d)) == normed(c, weight, cols as u32, m(at(from, d)))
            &&& keeps(m, o, stage_zones(c, p), set![j])
        }),
{
    let z = stage_zones(c, p);
    let from = z[i].base;
    let to = z[j].base;
    let op = norm_op(c, from, weight, to, rows, cols);
    let o = then_op(m, op);
    let eps = c.ctx.config.rms_norm_eps;
    assert forall|d: int| 0 <= d < rows * (cols * 2) implies #[trigger] o(at(to, d)) == normed(
        c,
        weight,
        cols as u32,
        m(at(from, d)),
    ) by {
        lemma_inside(to, d);
        seen_rms_norm(m, c.kernels.rms_norm_k, from, weight, to, rows as u32, cols as u32, eps, at(to, d));
    }
    assert(at(to, 0) == to);
    lemma_op_keeps(m, op, z, j, 0);
}

/// A rotation of the rows of buffer `j` by the positions in buffer `i`.
#[verifier::rlimit(100)]
#[verifier::spinoff_prover]
proof fn lemma_stage_rotation(
    c: StageCall,
    p: Seq<DevicePtr>,
    m: Mem,
    kernel: KernelHandle,
    j: int,
    i: int,
    count: int,
    heads: u32,
    stride: int,
)
    requires
        stage_laid_out(c, p),
        0 <= i < 19,
        0 <= j < 19,
        i != 6,
        j != 6,
        i != j,
        0 < count <= u32::MAX,
        0 < heads,
        0 < stride <= u32::MAX,
        count * (heads * c.rope() * 2) <= stage_zones(c, p)[6].bytes,
        count * (stride * 2) <= stage_zones(c, p)[j].bytes,
        count * 4 <= stage_zones(c, p)[i].bytes,
    ensures
        ({
            let data = stage_zones(c, p)[j].base;
            let positions = stage_zones(c, p)[i].base;
            let o = after(m, rotate_ops(c, p, kernel, data, positions, count, heads as int, stride));
            &&& forall|t: int|
                0 <= t < count ==> #[trigger] o(at(data, t * (stride * 2))) == turned_row(
                    c,
                    kernel,
                    m(at(positions, t * 4)),
                    heads,
                    m(at(data, t * (stride * 2))),
                )
            &&& forall|t: int, d: int|
                0 <= t < count && 0 <= d < stride * 2 ==> #[trigger] o(at(data, t * (stride * 2) + d)) == part(
                    turned_row(c, kernel, m(at(positions, t * 4)), heads, m(at(data, t * (stride * 2)))),
                    d,
                )
            &&& keeps(m, o, stage_zones(c, p), set![6, j])
        }),
{
    let z = stage_zones(c, p);
    let data = z[j].base;
    let positions = z[i].base;
    let rope = c.rope();
    let pitch = heads * rope * 2;
    let o = rotate_ops(c, p, kernel, data, positions, count, heads as int, stride);
    let m1 = then_op(m, o[0]);
    let m2 = then_op(m1, o[1]);
    let n = then_op(m2, o[2]);
    lemma_after_three(m, o[0], o[1], o[2]);
    assert(o =~= seq![o[0], o[1], o[2]]);
    let hi = heads as int;
    let ri = rope as int;
    assert(hi * ri > 0) by (nonlinear_arith)
        requires
            hi > 0,
            ri > 0,
    ;
    assert(count * (0 * ri * 2) == 0) by (nonlinear_arith);
    assert(at(p[6], 0) == p[6] && at(data, 0) == data);
    lemma_op_keeps(m, o[0], z, 6, 0);
    lemma_op_keeps_two(m1, o[1], z, 6, 6);
    lemma_op_keeps(m2, o[2], z, j, 0);
    lemma_keeps_then(m, m1, m2, z, set![6], set![6, 6]);
    lemma_keeps_more(m, m2, z, set![6].union(set![6, 6]), set![6]);
    lemma_keeps_then(m, m2, n, z, set![6], set![j]);
    lemma_keeps_more(m, n, z, set![6].union(set![j]), set![6, j]);
    assert forall|t: int| 0 <= t < count implies m2(#[trigger] at(p[6], t * pitch)) == (Val::Turned {
        kernel,
        position: Box::new(m(at(positions, t * 4))),
        inv_freq: c.mla.main_inv_freq,
        mscale: F32Bits(ONE_BITS),
        heads,
        head_dim: rope,
        rope,
        of: Box::new(
            Val::Rotary {
                kernel: c.kernels.extract_k,
                lanes: (Lanes { heads, hd: c.hd(), nope: c.nope(), rope }),
                of: Box::new(m(at(data, t * (stride * 2)))),
            },
        ),
    }) by {
        lemma_extracted(
            m,
            c.kernels.extract_k,
            data,
            p[6],
            count as u32,
            heads,
            c.hd(),
            c.nope(),
            rope,
            stride as u32,
            t,
        );
        lemma_kept(m, m1, z, set![6], i, t * 4);
        lemma_turned_q(
            m1,
            kernel,
            p[6],
            p[6],
            positions,
            count as u32,
            heads,
            0,
            rope,
            rope,
            c.mla.main_inv_freq,
            F32Bits(ONE_BITS),
            t,
        );
    }
    assert forall|t: int, d: int| 0 <= t < count && 0 <= d < stride * 2 implies #[trigger] n(
        at(data, t * (stride * 2) + d),
    ) == part(turned_row(c, kernel, m(at(positions, t * 4)), heads, m(at(data, t * (stride * 2)))), d) by {
        lemma_row(t, count, stride * 2);
        lemma_kept(m, m2, z, set![6], j, t * (stride * 2));
        assert(m2(at(p[6], t * pitch)) is Turned);
        lemma_written_back(
            m2,
            c.kernels.writeback_k,
            p[6],
            data,
            count as u32,
            heads,
            c.hd(),
            c.nope(),
            rope,
            stride as u32,
            t,
        );
    }
    assert forall|t: int| 0 <= t < count implies #[trigger] n(at(data, t * (stride * 2))) == turned_row(
        c,
        kernel,
        m(at(positions, t * 4)),
        heads,
        m(at(data, t * (stride * 2))),
    ) by {
        assert(n(at(data, t * (stride * 2) + 0)) == part(
            turned_row(c, kernel, m(at(positions, t * 4)), heads, m(at(data, t * (stride * 2)))),
            0,
        ));
    }
}

/// Sizes written in different ways agree.
proof fn lemma_stage_sizes(c: StageCall)
    requires
        c.fits(),
        0 < c.block(),
        0 < c.nq,
        0 < c.hd(),
        0 < c.rope(),
        0 < c.o_lora(),
    ensures
        c.q_dim() > 0,
        c.latent_dim() > 0,
        c.block() * c.nq * (c.hd() * 2) == c.block() * (c.q_dim() * 2),
        c.block() * (1u32 * c.rope() * 2) <= c.block() * (c.nq * c.rope() * 2),
        1 * (1u32 * c.rope() * 2) <= c.block() * (c.nq * c.rope() * 2),
        0 < c.block() * c.nq,
{
    let (b, nq, hd, r) = (c.block() as int, c.nq as int, c.hd() as int, c.rope() as int);
    let (og, ol) = (c.o_groups() as int, c.o_lora() as int);
    let qd = c.q_dim();
    let ld = c.latent_dim();
    assert(qd > 0 && b * nq * (hd * 2) == b * (qd * 2) && 0 < b * nq) by (nonlinear_arith)
        requires
            qd == nq * hd,
            nq > 0,
            hd > 0,
            b > 0,
    ;
    assert(ld > 0) by (nonlinear_arith)
        requires
            ld == og * ol,
            og > 0,
            ol > 0,
    ;
    assert(b * (1 * r * 2) <= b * (nq * r * 2) && 1 * (1 * r * 2) <= b * (nq * r * 2)) by (nonlinear_arith)
        requires
            b > 0,
            nq > 0,
            r > 0,
    ;
}

/// Queries and draft rows, turned forward by the positions of the block.
#[verifier::rlimit(100)]
#[verifier::spinoff_prover]
proof fn lemma_stage_front(c: StageCall, p: Seq<DevicePtr>, m: Mem)
    requires
        stage_laid_out(c, p),
    ensures
        ({
            let o = after(m, front_ops(c, p));
            &&& forall|t: int|
                0 <= t < c.block() ==> #[trigger] o(at(p[3], t * (c.q_dim() * 2))) == turned_row(
                    c,
                    c.kernels.rope_fwd_k,
                    position_of(c, m, t),
                    c.nq,
                    stage_query(c, block_row(c, m, t)),
                )
            &&& forall|t: int|
                0 <= t < c.block() ==> #[trigger] o(at(p[5], t * (c.hd() * 2))) == turned_row(
                    c,
                    c.kernels.rope_fwd_k,
                    position_of(c, m, t),
                    1,
                    stage_latent(c, block_row(c, m, t)),
                )
            &&& keeps(m, o, stage_zones(c, p), set![0, 1, 2, 3, 4, 5, 6])
        }),
{
    let z = stage_zones(c, p);
    let b = c.block() as int;
    let ql2 = c.q_lora() * 2;
    let qd2 = c.q_dim() * 2;
    let hd2 = c.hd() * 2;
    let qd = c.q_dim();
    lemma_stage_sizes(c);
    let a0 = down_ops(c, p, b);
    let a1 = seq![norm_op(c, p[0], c.mla.q_a_norm, p[1], b, c.q_lora() as int)];
    let a2 = rows_gemv(c.kernels.dense_gemv_k, p[1], ql2, c.mla.wq_b, p[2], qd2, qd, c.q_lora() as int, b as nat);
    let a3 = seq![norm_op(c, p[2], c.ones, p[3], b * c.nq, c.hd() as int)];
    let a4 = c.dumped(Boundary::QProj, p[3], b * c.nq, c.hd() as int);
    let a5 = seq![norm_op(c, p[4], c.mla.kv_a_norm, p[5], b, c.hd() as int)];
    let a6 = c.dumped(Boundary::KvProj, p[5], b, c.hd() as int);
    let a7 = rotate_ops(c, p, c.kernels.rope_fwd_k, p[3], c.block_pos, b, c.nq as int, qd);
    let a8 = rotate_ops(c, p, c.kernels.rope_fwd_k, p[5], c.block_pos, b, 1, c.hd() as int);
    assert(front_ops(c, p) == a0 + a1 + a2 + a3 + a4 + a5 + a6 + a7 + a8);
    lemma_down(c, p, m, b);
    let m0 = after(m, a0);
    lemma_after_one(m0, a1[0]);
    lemma_stage_norm(c, p, m0, c.mla.q_a_norm, 0, 1, b, c.q_lora() as int);
    let m1 = after(m0, a1);
    lemma_rows_gemv(c, p, m1, c.mla.wq_b, 1, 2, qd as u32, c.q_lora(), b);
    let m2 = after(m1, a2);
    lemma_after_one(m2, a3[0]);
    lemma_stage_norm(c, p, m2, c.ones, 2, 3, b * c.nq, c.hd() as int);
    let m3 = after(m2, a3);
    lemma_dump(m3, c.dump, Boundary::QProj, c.stage, p[3], b * c.nq, c.hd() as int, false);
    lemma_after_one(m3, a5[0]);
    lemma_stage_norm(c, p, m3, c.mla.kv_a_norm, 4, 5, b, c.hd() as int);
    let m5 = after(m3, a5);
    lemma_dump(m5, c.dump, Boundary::KvProj, c.stage, p[5], b, c.hd() as int, false);
    lemma_stage_rotation(c, p, m5, c.kernels.rope_fwd_k, 3, 15, b, c.nq, qd);
    let m7 = after(m5, a7);
    lemma_stage_rotation(c, p, m7, c.kernels.rope_fwd_k, 5, 15, b, 1, c.hd() as int);
    let n = after(m7, a8);
    lemma_after_add(m, a0, a1);
    lemma_after_add(m, a0 + a1, a2);
    lemma_after_add(m, a0 + a1 + a2, a3);
    lemma_after_add(m, a0 + a1 + a2 + a3, a4);
    lemma_after_add(m, a0 + a1 + a2 + a3 + a4, a5);
    lemma_after_add(m, a0 + a1 + a2 + a3 + a4 + a5, a6);
    lemma_after_add(m, a0 + a1 + a2 + a3 + a4 + a5 + a6, a7);
    lemma_after_add(m, a0 + a1 + a2 + a3 + a4 + a5 + a6 + a7, a8);
    // What is left alone.
    let early = set![0int, 1, 2, 3, 4];
    lemma_keeps_then(m, m0, m1, z, set![0, 4], set![1]);
    lemma_keeps_then(m, m1, m2, z, set![0, 4].union(set![1]), set![2]);
    lemma_keeps_then(m, m2, m3, z, set![0, 4].union(set![1]).union(set![2]), set![3]);
    lemma_keeps_more(m, m3, z, set![0, 4].union(set![1]).union(set![2]).union(set![3]), early);
    lemma_keeps_then(m, m3, m5, z, early, set![5]);
    lemma_keeps_more(m, m5, z, early.union(set![5]), set![0, 1, 2, 3, 4, 5]);
    lemma_keeps_then(m, m5, m7, z, set![0, 1, 2, 3, 4, 5], set![6, 3]);
    lemma_keeps_more(m, m7, z, set![0, 1, 2, 3, 4, 5].union(set![6, 3]), set![0, 1, 2, 3, 4, 5, 6]);
    lemma_keeps_then(m, m7, n, z, set![0, 1, 2, 3, 4, 5, 6], set![6, 5]);
    lemma_keeps_more(m, n, z, set![0, 1, 2, 3, 4, 5, 6].union(set![6, 5]), set![0, 1, 2, 3, 4, 5, 6]);
    lemma_keeps_then(m1, m2, m3, z, set![2], set![3]);
    lemma_keeps_then(m0, m1, m3, z, set![1], set![2].union(set![3]));
    assert forall|t: int| 0 <= t < b implies #[trigger] n(at(p[3], t * qd2)) == turned_row(
        c,
        c.kernels.rope_fwd_k,
        position_of(c, m, t),
        c.nq,
        stage_query(c, block_row(c, m, t)),
    ) by {
        lemma_row(t, b, ql2);
        lemma_row(t, b, qd2);
        assert(m0(at(p[0], t * ql2)) == times(c, c.mla.wq_a, c.q_lora(), c.h(), block_row(c, m, t)));
        assert(m1(at(p[1], t * ql2)) == normed(c, c.mla.q_a_norm, c.q_lora(), m0(at(p[0], t * ql2))));
        assert(m2(at(p[2], t * qd2)) == times(c, c.mla.wq_b, qd as u32, c.q_lora(), m1(at(p[1], t * ql2))));
        assert(m3(at(p[3], t * qd2)) == stage_query(c, block_row(c, m, t)));
        lemma_kept(m3, m5, z, set![5], 3, t * qd2);
        lemma_kept(m, m5, z, set![0, 1, 2, 3, 4, 5], 15, t * 4);
        lemma_kept(m7, n, z, set![6, 5], 3, t * qd2);
        assert(m7(at(p[3], t * qd2)) == turned_row(
            c,
            c.kernels.rope_fwd_k,
            m5(at(c.block_pos, t * 4)),
            c.nq,
            m5(at(p[3], t * qd2)),
        ));
    }
    assert forall|t: int| 0 <= t < b implies #[trigger] n(at(p[5], t * hd2)) == turned_row(
        c,
        c.kernels.rope_fwd_k,
        position_of(c, m, t),
        1,
        stage_latent(c, block_row(c, m, t)),
    ) by {
        lemma_row(t, b, hd2);
        assert(m0(at(p[4], t * hd2)) == times(c, c.mla.wkv_a, c.hd(), c.h(), block_row(c, m, t)));
        lemma_kept(m0, m3, z, set![1].union(set![2].union(set![3])), 4, t * hd2);
        assert(m5(at(p[5], t * hd2)) == normed(c, c.mla.kv_a_norm, c.hd(), m3(at(p[4], t * hd2))));
        lemma_kept(m5, m7, z, set![6, 3], 5, t * hd2);
        lemma_kept(m, m7, z, set![0, 1, 2, 3, 4, 5, 6], 15, t * 4);
    }
}

/// Row `i` of the ring when the stage attends: the committed row in its slot,
/// unless the ring was given, and the earlier rows elsewhere.
pub open spec fn ring_row(c: StageCall, m: Mem, i: int) -> Val {
    if i == c.main_slot && !c.skip_store {
        turned_row(c, c.kernels.rope_fwd_k, m(c.main_pos), 1, stage_latent(c, m(c.main_x)))
    } else {
        m(at(c.ring.buf, i * (c.hd() * 2)))
    }
}

/// The committed row goes to its slot in the ring.
#[verifier::rlimit(60)]
#[verifier::spinoff_prover]
proof fn lemma_stage_store(c: StageCall, p: Seq<DevicePtr>, m: Mem)
    requires
        stage_laid_out(c, p),
    ensures
        ({
            let o = after(m, store_ops(c, p));
            &&& forall|i: int|
                0 <= i < c.ring.window ==> #[trigger] o(at(c.ring.buf, i * (c.hd() * 2))) == ring_row(c, m, i)
            &&& keeps(m, o, stage_zones(c, p), set![6, 10, 11, 17])
        }),
{
    let z = stage_zones(c, p);
    let hd2 = c.hd() * 2;
    let w = c.ring.window as int;
    lemma_stage_sizes(c);
    if c.skip_store {
        lemma_keeps_self(m, z);
        lemma_keeps_more(m, m, z, Set::empty(), set![6, 10, 11, 17]);
    } else {
        let o0 = gemv_op(c.kernels.dense_gemv_k, c.main_x, c.mla.wkv_a, p[10], c.hd() as int, c.h() as int);
        let o1 = norm_op(c, p[10], c.mla.kv_a_norm, p[11], 1, c.hd() as int);
        let rot = rotate_ops(c, p, c.kernels.rope_fwd_k, p[11], c.main_pos, 1, 1, c.hd() as int);
        let copy = Op::CopyD2d { src: p[11], dst: at(c.ring.buf, c.main_slot * hd2), bytes: hd2 as usize };
        assert(store_ops(c, p) == seq![o0, o1] + rot + seq![copy]);
        let m1 = then_op(m, o0);
        let m2 = then_op(m1, o1);
        let m3 = after(m2, rot);
        let n = then_op(m3, copy);
        lemma_after_two(m, o0, o1);
        lemma_after_add(m, seq![o0, o1], rot);
        lemma_after_add(m, seq![o0, o1] + rot, seq![copy]);
        lemma_after_one(m3, copy);
        assert(at(p[10], 0) == p[10] && at(p[11], 0) == p[11] && at(c.main_pos, 0) == c.main_pos);
        lemma_op_keeps(m, o0, z, 10, 0);
        lemma_stage_norm(c, p, m1, c.mla.kv_a_norm, 10, 11, 1, c.hd() as int);
        lemma_stage_rotation(c, p, m2, c.kernels.rope_fwd_k, 11, 16, 1, 1, c.hd() as int);
        lemma_row(c.main_slot as int, w, hd2);
        lemma_op_keeps(m3, copy, z, 17, c.main_slot * hd2);
        off_self(p[10]);
        seen_dense_gemv(m, c.kernels.dense_gemv_k, c.main_x, c.mla.wkv_a, p[10], c.hd(), c.h(), p[10]);
        assert(m1(p[10]) == times(c, c.mla.wkv_a, c.hd(), c.h(), m(c.main_x)));
        assert(m2(at(p[11], 0)) == normed(c, c.mla.kv_a_norm, c.hd(), m1(at(p[10], 0))));
        lemma_keeps_then(m, m1, m2, z, set![10], set![11]);
        lemma_keeps_then(m, m2, m3, z, set![10].union(set![11]), set![6, 11]);
        lemma_keeps_more(m, m3, z, set![10].union(set![11]).union(set![6, 11]), set![6, 10, 11]);
        lemma_keeps_then(m, m3, n, z, set![6, 10, 11], set![17]);
        lemma_keeps_more(m, n, z, set![6, 10, 11].union(set![17]), set![6, 10, 11, 17]);
        lemma_kept(m, m2, z, set![10].union(set![11]), 16, 0);
        assert(0 * (c.hd() * 2) == 0) by (nonlinear_arith);
        assert(m3(at(p[11], 0 * (c.hd() * 2))) == turned_row(
            c,
            c.kernels.rope_fwd_k,
            m2(at(c.main_pos, 0)),
            1,
            m2(at(p[11], 0 * (c.hd() * 2))),
        ));
        assert forall|i: int| 0 <= i < w implies #[trigger] n(at(c.ring.buf, i * hd2)) == ring_row(c, m, i) by {
            let s = c.main_slot as int;
            lemma_row(i, w, hd2);
            lemma_between(c.ring.buf, i * hd2, s * hd2);
            lemma_kept(m, m3, z, set![6, 10, 11], 17, i * hd2);
            if i < s {
                assert(i * hd2 + hd2 <= s * hd2) by (nonlinear_arith)
                    requires
                        i < s,
                        hd2 > 0,
                ;
            }
            if i > s {
                assert(s * hd2 + hd2 <= i * hd2) by (nonlinear_arith)
                    requires
                        i > s,
                        hd2 > 0,
                ;
            }
            seen_copy_d2d(m3, p[11], at(c.ring.buf, s * hd2), hd2 as usize, at(c.ring.buf, i * hd2));
        }
    }
}

/// The attention of row `t` of the block: its query over all draft rows and over
/// the ring.
pub open spec fn sparse_row(c: StageCall, m: Mem, valid: Val, t: int) -> Val {
    Val::Sparse {
        kernel: c.kernels.dspark_attn_k,
        q: Box::new(
            turned_row(
                c,
                c.kernels.rope_fwd_k,
                position_of(c, m, t),
                c.nq,
                stage_query(c, block_row(c, m, t)),
            ),
        ),
        draft: Seq::new(
            c.block() as nat,
            |j: int|
                turned_row(
                    c,
                    c.kernels.rope_fwd_k,
                    position_of(c, m, j),
                    1,
                    stage_latent(c, block_row(c, m, j)),
                ),
        ),
        main: Seq::new(c.ring.window as nat, |i: int| ring_row(c, m, i)),
        valid: Box::new(valid),
        sink: c.mla.attn_sink,
        scale: c.scale,
        batch: 1,
        heads: c.nq,
        head_dim: c.hd(),
        window: c.ring.window as u32,
    }
}

/// The attention of row `t`, turned back by its position.
pub open spec fn stage_row(c: StageCall, m: Mem, valid: Val, t: int) -> Val {
    turned_row(c, c.kernels.rope_inv_k, position_of(c, m, t), c.nq, sparse_row(c, m, valid, t))
}

/// Up to the rows that the attention of the block leaves.
#[verifier::rlimit(100)]
#[verifier::spinoff_prover]
proof fn lemma_stage_attends(c: StageCall, p: Seq<DevicePtr>, m: Mem)
    requires
        stage_laid_out(c, p),
    ensures
        ({
            let o = after(m, attending_ops(c, p));
            &&& forall|t: int, d: int|
                0 <= t < c.block() && 0 <= d < c.q_dim() * 2 ==> #[trigger] o(at(p[7], t * (c.q_dim() * 2) + d)) == part(
                    stage_row(c, m, m(p[12]), t),
                    d,
                )
            &&& keeps(m, o, stage_zones(c, p), set![0, 1, 2, 3, 4, 5, 6, 7, 10, 11, 17])
            &&& forall|i: int|
                0 <= i < c.ring.window ==> #[trigger] o(at(c.ring.buf, i * (c.hd() * 2))) == ring_row(c, m, i)
        }),
{
    let z = stage_zones(c, p);
    let b = c.block() as int;
    let qd = c.q_dim();
    let qd2 = c.q_dim() * 2;
    let hd2 = c.hd() * 2;
    let w = c.ring.window as int;
    lemma_stage_sizes(c);
    let a0 = front_ops(c, p);
    let a1 = store_ops(c, p);
    let op = sparse_op(c, p);
    let a3 = c.dumped(Boundary::SparseOut, p[7], b * c.nq, c.hd() as int);
    let a4 = rotate_ops(c, p, c.kernels.rope_inv_k, p[7], c.block_pos, b, c.nq as int, qd);
    lemma_stage_front(c, p, m);
    let m0 = after(m, a0);
    lemma_stage_store(c, p, m0);
    let m1 = after(m0, a1);
    let m2 = then_op(m1, op);
    lemma_after_one(m1, op);
    lemma_dump(m2, c.dump, Boundary::SparseOut, c.stage, p[7], b * c.nq, c.hd() as int, false);
    assert(c.nq * c.hd() * 2 == qd2);
    assert(at(p[7], 0) == p[7]);
    lemma_op_keeps(m1, op, z, 7, 0);
    lemma_stage_rotation(c, p, m2, c.kernels.rope_inv_k, 7, 15, b, c.nq, qd);
    let n = after(m2, a4);
    lemma_after_add(m, a0, a1);
    lemma_after_add(m, a0 + a1, seq![op]);
    lemma_after_add(m, a0 + a1 + seq![op], a3);
    lemma_after_add(m, a0 + a1 + seq![op] + a3, a4);
    let front = set![0int, 1, 2, 3, 4, 5, 6];
    let store = set![6int, 10, 11, 17];
    lemma_keeps_then(m, m0, m1, z, front, store);
    lemma_keeps_then(m, m1, m2, z, front.union(store), set![7]);
    lemma_keeps_then(m, m2, n, z, front.union(store).union(set![7]), set![6, 7]);
    let all = set![0int, 1, 2, 3, 4, 5, 6, 7, 10, 11, 17];
    lemma_keeps_more(m, n, z, front.union(store).union(set![7]).union(set![6, 7]), all);
    lemma_keeps_then(m1, m2, n, z, set![7], set![6, 7]);
    assert forall|i: int| 0 <= i < w implies m1(#[trigger] at(c.ring.buf, i * hd2)) == ring_row(c, m, i) by {
        lemma_row(i, w, hd2);
        lemma_kept(m, m0, z, front, 17, i * hd2);
        lemma_kept(m, m0, z, front, 14, 0);
        lemma_kept(m, m0, z, front, 16, 0);
        assert(at(c.main_x, 0) == c.main_x && at(c.main_pos, 0) == c.main_pos);
        assert(m1(at(c.ring.buf, i * hd2)) == ring_row(c, m0, i));
    }
    assert forall|i: int| 0 <= i < w implies #[trigger] n(at(c.ring.buf, i * hd2)) == ring_row(c, m, i) by {
        lemma_row(i, w, hd2);
        lemma_kept(m1, n, z, set![7].union(set![6, 7]), 17, i * hd2);
        assert(m1(at(c.ring.buf, i * hd2)) == ring_row(c, m, i));
    }
    lemma_kept(m, m1, z, front.union(store), 12, 0);
    assert(at(p[12], 0) == p[12]);
    assert(rows_at(m1, c.ring.buf, w, hd2) =~= sparse_row(c, m, m(p[12]), 0)->Sparse_main);
    assert forall|j: int| 0 <= j < b implies m1(#[trigger] at(p[5], j * hd2)) == turned_row(
        c,
        c.kernels.rope_fwd_k,
        position_of(c, m, j),
        1,
        stage_latent(c, block_row(c, m, j)),
    ) by {
        lemma_row(j, b, hd2);
        lemma_kept(m0, m1, z, store, 5, j * hd2);
        assert(m0(at(p[5], j * hd2)) == turned_row(
            c,
            c.kernels.rope_fwd_k,
            position_of(c, m, j),
            1,
            stage_latent(c, block_row(c, m, j)),
        ));
    }
    assert(rows_at(m1, p[5], b, hd2) =~= sparse_row(c, m, m(p[12]), 0)->Sparse_draft);
    assert forall|t: int| 0 <= t < b implies m2(#[trigger] at(p[7], t * qd2)) == sparse_row(c, m, m(p[12]), t) by {
        lemma_row(t, b, qd2);
        lemma_inside(p[7], t * qd2);
        lemma_kept(m0, m1, z, store, 3, t * qd2);
        assert(m0(at(p[3], t * qd2)) == turned_row(
            c,
            c.kernels.rope_fwd_k,
            position_of(c, m, t),
            c.nq,
            stage_query(c, block_row(c, m, t)),
        ));
        assert(sparse_row(c, m, m(p[12]), t)->Sparse_draft =~= sparse_row(c, m, m(p[12]), 0)->Sparse_draft);
        assert(sparse_row(c, m, m(p[12]), t)->Sparse_main =~= sparse_row(c, m, m(p[12]), 0)->Sparse_main);
        seen_dspark_sparse_attention(
            m1,
            c.kernels.dspark_attn_k,
            p[3],
            p[5],
            c.ring.buf,
            p[12],
            c.mla.attn_sink,
            p[7],
            c.scale,
            1,
            c.block(),
            c.nq,
            c.hd(),
            c.ring.window as u32,
            at(p[7], t * qd2),
        );
    }
    assert forall|t: int, d: int| 0 <= t < b && 0 <= d < qd2 implies #[trigger] n(at(p[7], t * qd2 + d)) == part(
        stage_row(c, m, m(p[12]), t),
        d,
    ) by {
        lemma_row(t, b, qd2);
        assert(m2(at(p[7], t * qd2)) == sparse_row(c, m, m(p[12]), t));
        lemma_kept(m, m2, z, front.union(store).union(set![7]), 15, t * 4);
    }
}

/// The operations of the stage up to the turn back.
pub open spec fn attending_ops(c: StageCall, p: Seq<DevicePtr>) -> Seq<Op> {
    let b = c.block() as int;
    front_ops(c, p) + store_ops(c, p) + seq![sparse_op(c, p)] + c.dumped(
        Boundary::SparseOut,
        p[7],
        b * c.nq,
        c.hd() as int,
    ) + rotate_ops(c, p, c.kernels.rope_inv_k, p[7], c.block_pos, b, c.nq as int, c.q_dim())
}

// ── output projection ──
/// Group `g` of a row by its own block of `wo_a`.
pub open spec fn stage_group(c: StageCall, g: int, x: Val) -> Val {
    times(
        c,
        DenseWeight { weight: at(c.mla.wo_a.weight, g * c.o_lora() * c.group_in() * 2) },
        c.o_lora(),
        c.group_in() as u32,
        x,
    )
}

/// Where group `g` of row `t` goes in the latent.
pub open spec fn latent_place(c: StageCall, t: int, g: int) -> int {
    t * (c.latent_dim() * 2) + g * c.o_lora() * 2
}

proof fn lemma_stage_places(c: StageCall, t: int, g: int)
    requires
        c.fits(),
        0 <= t < c.block(),
        0 <= g < c.o_groups(),
        0 < c.group_in(),
        0 < c.o_lora(),
    ensures
        0 <= g * c.group_in() * 2,
        g * c.group_in() * 2 + c.group_in() * 2 <= c.q_dim() * 2,
        0 <= g * c.o_lora() * 2,
        g * c.o_lora() * 2 + c.o_lora() * 2 <= c.latent_dim() * 2,
        0 <= t * (c.latent_dim() * 2),
        t * (c.latent_dim() * 2) + c.latent_dim() * 2 <= c.block() * (c.latent_dim() * 2),
        0 <= t * (c.q_dim() * 2),
        t * (c.q_dim() * 2) + c.q_dim() * 2 <= c.block() * (c.q_dim() * 2),
{
    let og = c.o_groups() as int;
    let gi = c.group_in();
    let qd = c.q_dim();
    let ol = c.o_lora() as int;
    let ld = c.latent_dim();
    vstd::arithmetic::div_mod::lemma_fundamental_div_mod(qd, og);
    assert(g * gi + gi <= qd && 0 <= g * gi) by (nonlinear_arith)
        requires
            0 <= g < og,
            og * gi <= qd,
            0 < gi,
    ;
    assert(g * ol + ol <= ld && 0 <= g * ol) by (nonlinear_arith)
        requires
            0 <= g < og,
            og * ol == ld,
            0 < ol,
    ;
    lemma_row(t, c.block() as int, ld * 2);
    lemma_row(t, c.block() as int, qd * 2);
}

/// The first `k` groups of row `t`.
#[verifier::rlimit(100)]
#[verifier::spinoff_prover]
proof fn lemma_stage_groups(c: StageCall, p: Seq<DevicePtr>, m: Mem, t: int, k: int)
    requires
        stage_laid_out(c, p),
        0 <= t < c.block(),
        0 <= k <= c.o_groups(),
    ensures
        ({
            let o = after(m, Seq::new(k as nat, |g: int| group_op(c, p, t, g)));
            &&& forall|g: int|
                0 <= g < k ==> o(#[trigger] at(p[8], latent_place(c, t, g))) == stage_group(
                    c,
                    g,
                    m(at(p[7], t * (c.q_dim() * 2) + g * c.group_in() * 2)),
                )
            &&& keeps(m, o, stage_zones(c, p), set![8])
            &&& forall|d: int|
                0 <= d < c.block() * (c.latent_dim() * 2) && (d < t * (c.latent_dim() * 2) || t * (c.latent_dim() * 2)
                    + k * c.o_lora() * 2 <= d) ==> #[trigger] o(at(p[8], d)) == m(at(p[8], d))
        }),
    decreases k,
{
    let z = stage_zones(c, p);
    let ol2 = c.o_lora() * 2;
    let ld2 = c.latent_dim() * 2;
    let kernel = c.kernels.dense_gemv_k;
    let ops = Seq::new(k as nat, |g: int| group_op(c, p, t, g));
    if k == 0 {
        assert(ops =~= Seq::<Op>::empty());
        lemma_keeps_self(m, z);
        lemma_keeps_more(m, m, z, Set::empty(), set![8]);
    } else {
        let r = k - 1;
        let front = Seq::new(r as nat, |g: int| group_op(c, p, t, g));
        let op = group_op(c, p, t, r);
        lemma_stage_groups(c, p, m, t, r);
        let m0 = after(m, front);
        let o = then_op(m0, op);
        assert(ops =~= front.push(op));
        lemma_after_push(m, front, op);
        lemma_stage_places(c, t, r);
        let from = t * (c.q_dim() * 2) + r * c.group_in() * 2;
        let to = latent_place(c, t, r);
        lemma_at_at(p[7], t * (c.q_dim() * 2), r * c.group_in() * 2);
        lemma_at_at(p[8], t * ld2, r * c.o_lora() * 2);
        let wt = DenseWeight { weight: at(c.mla.wo_a.weight, r * c.o_lora() * c.group_in() * 2) };
        lemma_op_keeps(m0, op, z, 8, to);
        lemma_kept(m, m0, z, set![8], 7, from);
        lemma_keeps_then(m, m0, o, z, set![8], set![8]);
        lemma_keeps_more(m, o, z, set![8].union(set![8]), set![8]);
        let ol = c.o_lora() as int;
        assert(r * ol * 2 + ol * 2 == k * ol * 2) by (nonlinear_arith)
            requires
                r == k - 1,
        ;
        assert forall|g: int| 0 <= g < k implies o(#[trigger] at(p[8], latent_place(c, t, g))) == stage_group(
            c,
            g,
            m(at(p[7], t * (c.q_dim() * 2) + g * c.group_in() * 2)),
        ) by {
            lemma_stage_places(c, t, g);
            lemma_between(p[8], latent_place(c, t, g), to);
            if g < r {
                assert(g * ol + ol <= r * ol) by (nonlinear_arith)
                    requires
                        g < r,
                        ol > 0,
                ;
                assert(m0(at(p[8], latent_place(c, t, g))) == stage_group(
                    c,
                    g,
                    m(at(p[7], t * (c.q_dim() * 2) + g * c.group_in() * 2)),
                ));
            }
            seen_dense_gemv(
                m0,
                kernel,
                at(p[7], from),
                wt,
                at(p[8], to),
                c.o_lora(),
                c.group_in() as u32,
                at(p[8], latent_place(c, t, g)),
            );
        }
        assert forall|d: int|
            0 <= d < c.block() * ld2 && (d < t * ld2 || t * ld2 + k * c.o_lora() * 2 <= d) implies #[trigger] o(
            at(p[8], d),
        ) == m(at(p[8], d)) by {
            lemma_between(p[8], d, to);
            assert(m0(at(p[8], d)) == m(at(p[8], d)));
            seen_dense_gemv(
                m0,
                kernel,
                at(p[7], from),
                wt,
                at(p[8], to),
                c.o_lora(),
                c.group_in() as u32,
                at(p[8], d),
            );
        }
    }
}

/// Rows `0 .. n` of the output projection.
#[verifier::rlimit(100)]
#[verifier::spinoff_prover]
proof fn lemma_stage_out(c: StageCall, p: Seq<DevicePtr>, m: Mem, n: int)
    requires
        stage_laid_out(c, p),
        0 <= n <= c.block(),
    ensures
        ({
            let o = after(m, out_ops(c, p, n));
            &&& forall|t: int, g: int|
                0 <= t < n && 0 <= g < c.o_groups() ==> o(#[trigger] at(p[8], latent_place(c, t, g))) == stage_group(
                    c,
                    g,
                    m(at(p[7], t * (c.q_dim() * 2) + g * c.group_in() * 2)),
                )
            &&& forall|t: int|
                0 <= t < n ==> o(#[trigger] at(p[9], t * (c.h() * 2))) == times(
                    c,
                    c.mla.wo_b,
                    c.h(),
                    c.latent_dim() as u32,
                    o(at(p[8], latent_place(c, t, 0))),
                )
            &&& keeps(m, o, stage_zones(c, p), set![8, 9])
        }),
    decreases n,
{
    let z = stage_zones(c, p);
    let ld2 = c.latent_dim() * 2;
    let h2 = c.h() * 2;
    let b = c.block() as int;
    let og = c.o_groups() as int;
    if n == 0 {
        lemma_keeps_self(m, z);
        lemma_keeps_more(m, m, z, Set::empty(), set![8, 9]);
    } else {
        let r = n - 1;
        lemma_stage_out(c, p, m, r);
        let m0 = after(m, out_ops(c, p, r));
        let groups = Seq::new(og as nat, |g: int| group_op(c, p, r, g));
        let last = gemv_op(
            c.kernels.dense_gemv_k,
            at(p[8], r * ld2),
            c.mla.wo_b,
            at(p[9], r * h2),
            c.h() as int,
            c.latent_dim(),
        );
        lemma_stage_groups(c, p, m0, r, og);
        let m1 = after(m0, groups);
        let o = then_op(m1, last);
        lemma_after_add(m, out_ops(c, p, r), out_row_ops(c, p, r));
        lemma_after_add(m0, groups, seq![last]);
        lemma_after_one(m1, last);
        lemma_row(r, b, h2);
        lemma_op_keeps(m1, last, z, 9, r * h2);
        lemma_keeps_then(m, m0, m1, z, set![8, 9], set![8]);
        lemma_keeps_then(m, m1, o, z, set![8, 9].union(set![8]), set![9]);
        lemma_keeps_more(m, o, z, set![8, 9].union(set![8]).union(set![9]), set![8, 9]);
        assert(og * c.o_lora() * 2 == ld2);
        assert forall|t: int, g: int| 0 <= t < n && 0 <= g < og implies o(#[trigger] at(p[8], latent_place(c, t, g)))
            == stage_group(c, g, m(at(p[7], t * (c.q_dim() * 2) + g * c.group_in() * 2))) by {
            lemma_stage_places(c, t, g);
            lemma_kept(m1, o, z, set![9], 8, latent_place(c, t, g));
            lemma_kept(m, m0, z, set![8, 9], 7, t * (c.q_dim() * 2) + g * c.group_in() * 2);
            if t < r {
                assert(t * ld2 + ld2 <= r * ld2) by (nonlinear_arith)
                    requires
                        t < r,
                        ld2 >= 0,
                ;
                assert(m0(at(p[8], latent_place(c, t, g))) == stage_group(
                    c,
                    g,
                    m(at(p[7], t * (c.q_dim() * 2) + g * c.group_in() * 2)),
                ));
            }
        }
        assert forall|t: int| 0 <= t < n implies o(#[trigger] at(p[9], t * h2)) == times(
            c,
            c.mla.wo_b,
            c.h(),
            c.latent_dim() as u32,
            o(at(p[8], latent_place(c, t, 0))),
        ) by {
            lemma_row(t, b, h2);
            lemma_stage_places(c, t, 0);
            let ol = c.o_lora() as int;
            assert(0 * ol * 2 == 0) by (nonlinear_arith);
            lemma_kept(m1, o, z, set![9], 8, latent_place(c, t, 0));
            lemma_row_product(
                m1,
                c.kernels.dense_gemv_k,
                at(p[8], r * ld2),
                c.mla.wo_b,
                p[9],
                c.h(),
                c.latent_dim() as u32,
                b,
                r,
                t,
            );
            lemma_kept(m0, m1, z, set![8], 9, t * h2);
            if t < r {
                assert(t * ld2 + ld2 <= r * ld2) by (nonlinear_arith)
                    requires
                        t < r,
                        ld2 >= 0,
                ;
                assert(m0(at(p[9], t * h2)) == times(
                    c,
                    c.mla.wo_b,
                    c.h(),
                    c.latent_dim() as u32,
                    m0(at(p[8], latent_place(c, t, 0))),
                ));
            }
        }
    }
}

proof fn lemma_allocated(sizes: Seq<usize>, p: Seq<DevicePtr>, stream: u64, m: Mem)
    ensures
        leads(alloc_steps(sizes, p), stream, m, m),
    decreases alloc_steps(sizes, p).len(),
{
    let es = alloc_steps(sizes, p);
    lemma_leads_allocs(es, stream, m);
}

/// Allocations change nothing.
proof fn lemma_leads_allocs(es: Seq<Event>, stream: u64, m: Mem)
    requires
        forall|i: int| 0 <= i < es.len() ==> (#[trigger] es[i]).cmd is Alloc && es[i].reply is Ptr,
    ensures
        leads(es, stream, m, m),
    decreases es.len(),
{
    if es.len() == 0 {
        lemma_leads_nothing(stream, m);
        assert(es =~= Seq::<Event>::empty());
    } else {
        let rest = es.drop_last();
        assert forall|i: int| 0 <= i < rest.len() implies (#[trigger] rest[i]).cmd is Alloc && rest[i].reply is Ptr by {
            assert(rest[i] == es[i]);
        }
        lemma_leads_allocs(rest, stream, m);
        let e = es[es.len() - 1];
        lemma_leads_ask(e, stream, m);
        lemma_leads_add(rest, seq![e], stream, m, m, m);
        assert(es =~= rest + seq![e]);
    }
}

/// Freeing changes nothing.
proof fn lemma_freed(ops: Seq<Op>, m: Mem)
    requires
        forall|i: int| 0 <= i < ops.len() ==> #[trigger] ops[i] is Free,
    ensures
        after(m, ops) == m,
    decreases ops.len(),
{
    if ops.len() > 0 {
        let rest = ops.drop_last();
        assert forall|i: int| 0 <= i < rest.len() implies #[trigger] rest[i] is Free by {
            assert(rest[i] == ops[i]);
        }
        lemma_freed(rest, m);
        let op = ops[ops.len() - 1];
        assert(ops =~= rest.push(op));
        lemma_after_push(m, rest, op);
        assert forall|q: DevicePtr| #[trigger] then_op(m, op)(q) == m(q) by {
            crate::flow::lemma_untouched(m, op, q);
        }
        assert(then_op(m, op) =~= m);
    }
}

/// The attention of a stage. Row `t` of the block attends, with its query turned
/// forward by its position, over all draft rows, each the normed `wkv_a` product
/// of its own row turned by its own position, and over the ring, in which the
/// committed row stands in its slot, made by the same norm and turned by the same
/// kernel at its own position. The result is turned back by the position of row
/// `t`, every group goes through its own block of `wo_a`, and the latent through
/// `wo_b` to the output.
#[verifier::rlimit(100)]
#[verifier::spinoff_prover]
pub proof fn stage_attends_to_rotated_draft_rows(c: StageCall, p: Seq<DevicePtr>, m: Mem) -> (n: Mem)
    requires
        stage_laid_out(c, p),
    ensures
        leads(stage_attn_steps(c, p), c.stream, m, n),
        forall|t: int, d: int|
            0 <= t < c.block() && 0 <= d < c.q_dim() * 2 ==> #[trigger] n(at(p[7], t * (c.q_dim() * 2) + d)) == part(
                stage_row(c, m, Val::Data(le32(c.valid_main_len as u32)), t),
                d,
            ),
        forall|t: int, g: int|
            0 <= t < c.block() && 0 <= g < c.o_groups() ==> n(#[trigger] at(p[8], latent_place(c, t, g))) == stage_group(
                c,
                g,
                part(stage_row(c, m, Val::Data(le32(c.valid_main_len as u32)), t), g * c.group_in() * 2),
            ),
        forall|t: int|
            0 <= t < c.block() ==> n(#[trigger] at(c.out, t * (c.h() * 2))) == times(
                c,
                c.mla.wo_b,
                c.h(),
                c.latent_dim() as u32,
                n(at(p[8], latent_place(c, t, 0))),
            ),
        forall|i: int|
            0 <= i < c.ring.window ==> #[trigger] n(at(c.ring.buf, i * (c.hd() * 2))) == ring_row(c, m, i),
{
    let z = stage_zones(c, p);
    let b = c.block() as int;
    let qd2 = c.q_dim() * 2;
    let h2 = c.h() * 2;
    let w = c.ring.window as int;
    lemma_stage_sizes(c);
    let put = put_step(le32(c.valid_main_len as u32), p[12]);
    let m0 = then_event(m, put);
    let valid = Val::Data(le32(c.valid_main_len as u32));
    // The length stands in its buffer; nothing else changed.
    assert(keeps(m, m0, z, set![12])) by {
        assert forall|q: DevicePtr| crate::flow::clear_of(q, z, set![12]) implies #[trigger] m0(q) == m(q) by {
            assert(off(q, z[12].base) >= z[12].bytes);
        }
    }
    off_self(p[12]);
    assert(m0(p[12]) == valid);
    let ops = stage_ops(c, p);
    let free = free_ops(p);
    let a0 = attending_ops(c, p);
    let a1 = c.dumped(Boundary::InverseRope, p[7], b * c.nq, c.hd() as int);
    let a2 = out_ops(c, p, b);
    let a3 = c.dumped(Boundary::OutLatent, p[8], b, c.latent_dim());
    let a4 = c.dumped(Boundary::OutRows, p[9], b, c.h() as int);
    let copy = Op::CopyD2d { src: p[9], dst: c.out, bytes: (b * h2) as usize };
    assert(ops == a0 + a1 + a2 + a3 + a4 + seq![copy]);
    lemma_stage_attends(c, p, m0);
    let m1 = after(m0, a0);
    lemma_dump(m1, c.dump, Boundary::InverseRope, c.stage, p[7], b * c.nq, c.hd() as int, false);
    lemma_stage_out(c, p, m1, b);
    let m2 = after(m1, a2);
    lemma_dump(m2, c.dump, Boundary::OutLatent, c.stage, p[8], b, c.latent_dim(), false);
    lemma_dump(m2, c.dump, Boundary::OutRows, c.stage, p[9], b, c.h() as int, false);
    let n = then_op(m2, copy);
    lemma_after_one(m2, copy);
    lemma_after_add(m0, a0, a1);
    lemma_after_add(m0, a0 + a1, a2);
    lemma_after_add(m0, a0 + a1 + a2, a3);
    lemma_after_add(m0, a0 + a1 + a2 + a3, a4);
    lemma_after_add(m0, a0 + a1 + a2 + a3 + a4, seq![copy]);
    lemma_freed(free, n);
    lemma_after_add(m0, ops, free);
    lemma_leads_steps(ops + free, c.stream, m0);
    lemma_allocated(stage_sizes(c), p, c.stream, m);
    lemma_leads_ask(put, c.stream, m);
    let e0 = alloc_steps(stage_sizes(c), p);
    lemma_leads_add(e0, seq![put], c.stream, m, m, m0);
    lemma_leads_add(e0 + seq![put], steps(ops + free, c.stream), c.stream, m, m0, n);
    assert(at(c.out, 0) == c.out);
    lemma_op_keeps(m2, copy, z, 18, 0);
    lemma_keeps_then(m1, m2, n, z, set![8, 9], set![18]);
    let late = set![8int, 9].union(set![18]);
    assert forall|t: int| 0 <= t < b implies #[trigger] stage_row(c, m0, valid, t) == stage_row(c, m, valid, t) by {
        lemma_stage_unmoved(c, p, m, m0, valid, t);
    }
    assert forall|t: int, d: int| 0 <= t < b && 0 <= d < qd2 implies #[trigger] n(at(p[7], t * qd2 + d)) == part(
        stage_row(c, m, valid, t),
        d,
    ) by {
        lemma_row(t, b, qd2);
        lemma_kept(m1, n, z, late, 7, t * qd2 + d);
        assert(m1(at(p[7], t * qd2 + d)) == part(stage_row(c, m0, valid, t), d));
    }
    assert forall|t: int, g: int| 0 <= t < b && 0 <= g < c.o_groups() implies n(#[trigger] at(p[8], latent_place(c, t, g)))
        == stage_group(c, g, part(stage_row(c, m, valid, t), g * c.group_in() * 2)) by {
        lemma_stage_places(c, t, g);
        lemma_kept(m2, n, z, set![18], 8, latent_place(c, t, g));
        assert(m1(at(p[7], t * qd2 + g * c.group_in() * 2)) == part(
            stage_row(c, m0, valid, t),
            g * c.group_in() * 2,
        ));
    }
    assert forall|t: int| 0 <= t < b implies n(#[trigger] at(c.out, t * h2)) == times(
        c,
        c.mla.wo_b,
        c.h(),
        c.latent_dim() as u32,
        n(at(p[8], latent_place(c, t, 0))),
    ) by {
        lemma_row(t, b, h2);
        lemma_inside(c.out, t * h2);
        lemma_stage_places(c, t, 0);
        lemma_kept(m2, n, z, set![18], 8, latent_place(c, t, 0));
        assert(m2(at(p[9], t * h2)) == times(
            c,
            c.mla.wo_b,
            c.h(),
            c.latent_dim() as u32,
            m2(at(p[8], latent_place(c, t, 0))),
        ));
        seen_copy_d2d(m2, p[9], c.out, (b * h2) as usize, at(c.out, t * h2));
    }
    assert forall|i: int| 0 <= i < w implies #[trigger] n(at(c.ring.buf, i * (c.hd() * 2))) == ring_row(c, m, i) by {
        lemma_row(i, w, c.hd() * 2);
        lemma_kept(m1, n, z, late, 17, i * (c.hd() * 2));
        assert(m1(at(c.ring.buf, i * (c.hd() * 2))) == ring_row(c, m0, i));
        lemma_ring_unmoved(c, p, m, m0, i);
    }
    n
}

/// Writing the length moves nothing that the rows are made of.
proof fn lemma_ring_unmoved(c: StageCall, p: Seq<DevicePtr>, m: Mem, m0: Mem, i: int)
    requires
        stage_laid_out(c, p),
        keeps(m, m0, stage_zones(c, p), set![12]),
        0 <= i < c.ring.window,
    ensures
        ring_row(c, m0, i) == ring_row(c, m, i),
{
    let z = stage_zones(c, p);
    lemma_row(i, c.ring.window as int, c.hd() * 2);
    lemma_kept(m, m0, z, set![12], 17, i * (c.hd() * 2));
    lemma_kept(m, m0, z, set![12], 14, 0);
    lemma_kept(m, m0, z, set![12], 16, 0);
    assert(at(c.main_x, 0) == c.main_x && at(c.main_pos, 0) == c.main_pos);
}

proof fn lemma_stage_unmoved(c: StageCall, p: Seq<DevicePtr>, m: Mem, m0: Mem, valid: Val, t: int)
    requires
        stage_laid_out(c, p),
        keeps(m, m0, stage_zones(c, p), set![12]),
        0 <= t < c.block(),
    ensures
        stage_row(c, m0, valid, t) == stage_row(c, m, valid, t),
{
    let z = stage_zones(c, p);
    let b = c.block() as int;
    assert forall|j: int| 0 <= j < b implies #[trigger] block_row(c, m0, j) == block_row(c, m, j) && position_of(
        c,
        m0,
        j,
    ) == position_of(c, m, j) by {
        lemma_row(j, b, c.h() * 2);
        lemma_kept(m, m0, z, set![12], 13, j * (c.h() * 2));
        lemma_kept(m, m0, z, set![12], 15, j * 4);
    }
    assert(block_row(c, m0, t) == block_row(c, m, t));
    assert forall|i: int| 0 <= i < c.ring.window implies #[trigger] ring_row(c, m0, i) == ring_row(c, m, i) by {
        lemma_ring_unmoved(c, p, m, m0, i);
    }
    assert(sparse_row(c, m0, valid, t)->Sparse_draft =~= sparse_row(c, m, valid, t)->Sparse_draft) by {
        assert forall|j: int| 0 <= j < b implies #[trigger] sparse_row(c, m0, valid, t)->Sparse_draft[j] == sparse_row(
            c,
            m,
            valid,
            t,
        )->Sparse_draft[j] by {
            assert(block_row(c, m0, j) == block_row(c, m, j));
        }
    }
    assert(sparse_row(c, m0, valid, t)->Sparse_main =~= sparse_row(c, m, valid, t)->Sparse_main);
}

/// A committed row and a draft row of the same input at the same position are the
/// same row: whatever is drafted at a position is what is committed there.
pub proof fn committed_rows_are_made_like_draft_rows(c: StageCall, m: Mem, t: int)
    requires
        !c.skip_store,
        block_row(c, m, t) == m(c.main_x),
        position_of(c, m, t) == m(c.main_pos),
    ensures
        ring_row(c, m, c.main_slot as int) == turned_row(
            c,
            c.kernels.rope_fwd_k,
            position_of(c, m, t),
            1,
            stage_latent(c, block_row(c, m, t)),
        ),
{
}

} // verus!
