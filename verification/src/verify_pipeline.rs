//! Picking tokens at verify time.
//!
//! A verification hands back one row of logits per drafted position. Each row
//! goes through the same pipeline of logit processors as an ordinary decode
//! step. Between positions the grammar matcher is advanced by the token just
//! picked, so that the next row is masked against the state that will hold when
//! that token is emitted. Those advances are speculative and are taken back at
//! the end.
//!
//! Logits are single-precision numbers, carried as their bits.

use vstd::prelude::*;

use crate::bits::{f32_rank, rank_of_f32, row_bits, widen_row};
use crate::gpu::{DevicePtr, GpuError};
use crate::run::read_step;
use crate::trace::{failed, Cmd, GpuBackend};

verus! {

/// What was done to a sequence, and what came back.
#[verifier::ext_equal]
pub enum SeqEvent<C> {
    /// The pipeline turned `before` into `after`. It may force a token. What is
    /// known of the sequence afterwards: whether it has a grammar, and whether
    /// it is inside a thinking block.
    Pipeline { ctx: C, before: Seq<u32>, after: Seq<u32>, forced: Option<u32>, grammar: bool, thinking: bool },
    /// The grammar was advanced by a token, if it took it.
    Accept { token: u32, taken: bool },
    /// The grammar went back by this many tokens.
    Rollback { tokens: usize },
}

/// A sequence under verification: its pipeline and its grammar.
///
/// An implementation is free in what it answers, and owes a trace of it.
pub trait VerifySequence<C>: Sized {
    spec fn trace(&self) -> Seq<SeqEvent<C>>;

    /// The sequence has a grammar.
    spec fn grammar(&self) -> bool;

    /// The sequence is inside a thinking block.
    spec fn thinking(&self) -> bool;

    fn has_grammar(&self) -> (r: bool)
        ensures
            r == self.grammar(),
    ;

    fn inside_thinking(&self) -> (r: bool)
        ensures
            r == self.thinking(),
    ;

    /// Runs the logit processors over one row.
    fn run_pipeline(&mut self, logits: &mut Vec<u32>, ctx: &C) -> (r: Option<u32>)
        ensures
            final(self).trace() == old(self).trace().push(
                (SeqEvent::Pipeline {
                    ctx: *ctx,
                    before: old(logits)@,
                    after: final(logits)@,
                    forced: r,
                    grammar: final(self).grammar(),
                    thinking: final(self).thinking(),
                }),
            ),
            final(logits)@.len() == old(logits)@.len(),
    ;

    /// Advances the grammar by a token. Says whether it took it.
    fn accept_token(&mut self, token: u32) -> (r: bool)
        ensures
            final(self).trace() == old(self).trace().push((SeqEvent::Accept { token, taken: r })),
            final(self).grammar() == old(self).grammar(),
            final(self).thinking() == old(self).thinking(),
    ;

    /// Takes the grammar back by `tokens` tokens.
    fn rollback(&mut self, tokens: usize)
        ensures
            final(self).trace() == old(self).trace().push((SeqEvent::Rollback { tokens })),
            final(self).grammar() == old(self).grammar(),
            final(self).thinking() == old(self).thinking(),
    ;
}

// ── one row ──
/// `i` is where the row is largest, the first such place; 0 where no entry is
/// above minus infinity.
pub open spec fn is_top(row: Seq<u32>, i: int) -> bool {
    ||| {
        &&& 0 <= i < row.len()
        &&& above_floor(row[i])
        &&& forall|j: int|
            0 <= j < row.len() && above_floor(#[trigger] row[j]) ==> f32_rank(row[j])->0 <= f32_rank(row[i])->0 && (
            f32_rank(row[j]) == f32_rank(row[i]) ==> i <= j)
    }
    ||| i == 0 && forall|j: int| 0 <= j < row.len() ==> !above_floor(#[trigger] row[j])
}

/// A number above minus infinity.
pub open spec fn above_floor(bits: u32) -> bool {
    f32_rank(bits) is Some && f32_rank(bits)->0 > -0x7f80_0000
}

/// What a row comes to, after the pipeline made `after` of it.
pub open spec fn is_pick(after: Seq<u32>, forced: Option<u32>, token: u32) -> bool {
    match forced {
        Some(t) => token == t,
        None => exists|i: int| #[trigger] is_top(after, i) && token == i as u32,
    }
}

fn top_of(row: &Vec<u32>) -> (r: usize)
    ensures
        is_top(row@, r as int),
{
    let mut best: usize = 0;
    let mut best_rank: i64 = -0x7f80_0000;
    let mut i: usize = 0;
    while i < row.len()
        invariant
            i <= row@.len(),
            best_rank >= -0x7f80_0000,
            best_rank == -0x7f80_0000 ==> best == 0 && forall|j: int|
                0 <= j < i ==> !above_floor(#[trigger] row@[j]),
            best_rank > -0x7f80_0000 ==> {
                &&& best < i
                &&& f32_rank(row@[best as int]) == Some(best_rank as int)
                &&& forall|j: int|
                    0 <= j < i && above_floor(#[trigger] row@[j]) ==> f32_rank(row@[j])->0 <= best_rank && (f32_rank(
                        row@[j],
                    )->0 == best_rank ==> best <= j)
            },
        decreases row@.len() - i,
    {
        if let Some(rank) = rank_of_f32(row[i]) {
            if rank > best_rank {
                best_rank = rank;
                best = i;
            }
        }
        i += 1;
    }
    best
}

/// Picks the token of one position: the one that the pipeline forces, or the
/// largest entry of what the pipeline makes of the row.
pub fn verify_pick_with_pipeline<C, A: VerifySequence<C>>(
    logits_bytes: &[u8],
    is_fp32: bool,
    vocab_size: usize,
    a: &mut A,
    ctx: &C,
) -> (r: u32)
    requires
        vocab_size * (if is_fp32 { 4int } else { 2 }) <= logits_bytes@.len(),
    ensures
        exists|after: Seq<u32>, forced: Option<u32>|
            {
                &&& #[trigger] is_pick(after, forced, r)
                &&& after.len() == vocab_size
                &&& final(a).trace() == old(a).trace().push(
                    (SeqEvent::Pipeline {
                        ctx: *ctx,
                        before: row_bits(logits_bytes@, is_fp32, vocab_size as int),
                        after,
                        forced,
                        grammar: final(a).grammar(),
                        thinking: final(a).thinking(),
                    }),
                )
            },
{
    let mut row = widen_row(logits_bytes, is_fp32, vocab_size);
    let forced = a.run_pipeline(&mut row, ctx);
    let ghost after = row@;
    match forced {
        Some(token) => {
            assert(is_pick(after, forced, token));
            token
        },
        None => {
            let best: usize = top_of(&row);
            assert(is_top(after, best as int));
            assert(is_pick(after, forced, best as u32));
            best as u32
        },
    }
}

// ── all rows ──
/// What came back at one position.
#[verifier::ext_equal]
pub struct Position {
    pub after: Seq<u32>,
    pub forced: Option<u32>,
    pub grammar: bool,
    pub thinking: bool,
    /// The token was offered to the grammar.
    pub offered: bool,
    /// The grammar took the token, where it was offered.
    pub taken: bool,
    pub token: u32,
}

/// The grammar refused the token of a position.
pub open spec fn refused(p: Position) -> bool {
    p.offered && !p.taken
}

/// The token of position `i` of `k` is offered to the grammar: there is a next
/// position, a grammar, no thinking block, and the grammar refused no token
/// before it.
pub open spec fn is_offered(k: int, ps: Seq<Position>, i: int) -> bool {
    &&& i + 1 < k
    &&& ps[i].grammar
    &&& !ps[i].thinking
    &&& forall|j: int| 0 <= j < i ==> !refused(#[trigger] ps[j])
}

/// The row of position `i`.
pub open spec fn position_row(logits: Seq<u8>, vocab: int, i: int) -> Seq<u32> {
    row_bits(logits.subrange(i * vocab * 2, (i + 1) * vocab * 2), false, vocab)
}

/// What position `i` does.
pub open spec fn position_events<C>(ctx: C, logits: Seq<u8>, vocab: int, i: int, p: Position) -> Seq<SeqEvent<C>> {
    let ran = seq![
        SeqEvent::Pipeline {
            ctx,
            before: position_row(logits, vocab, i),
            after: p.after,
            forced: p.forced,
            grammar: p.grammar,
            thinking: p.thinking,
        },
    ];
    if p.offered {
        ran.push(SeqEvent::Accept { token: p.token, taken: p.taken })
    } else {
        ran
    }
}

/// What the first positions do.
pub open spec fn all_events<C>(ctx: C, logits: Seq<u8>, vocab: int, ps: Seq<Position>) -> Seq<SeqEvent<C>>
    decreases ps.len(),
{
    if ps.len() == 0 {
        Seq::empty()
    } else {
        all_events(ctx, logits, vocab, ps.drop_last()) + position_events(ctx, logits, vocab, ps.len() - 1, ps.last())
    }
}

/// Tokens that the grammar took.
pub open spec fn advances(ps: Seq<Position>) -> int
    decreases ps.len(),
{
    if ps.len() == 0 {
        0
    } else {
        advances(ps.drop_last()) + (if ps.last().offered && ps.last().taken { 1int } else { 0 })
    }
}

/// Positions are visited in order, each token is a pick out of a row of the
/// vocabulary, and the grammar is offered tokens until it refuses one.
pub open spec fn visited(k: int, vocab: int, ps: Seq<Position>, picks: Seq<u32>) -> bool {
    &&& ps.len() == picks.len()
    &&& ps.len() <= k
    &&& forall|i: int|
        #![trigger ps[i]]
        0 <= i < ps.len() ==> {
            &&& picks[i] == ps[i].token
            &&& ps[i].after.len() == vocab
            &&& is_pick(ps[i].after, ps[i].forced, ps[i].token)
            &&& ps[i].offered == is_offered(k, ps, i)
        }
}

/// The advances are taken back, where there is still a grammar.
pub open spec fn undo_events<C>(ps: Seq<Position>) -> Seq<SeqEvent<C>> {
    if advances(ps) > 0 && ps.last().grammar {
        seq![SeqEvent::Rollback { tokens: advances(ps) as usize }]
    } else {
        Seq::empty()
    }
}

/// What picking at all `k` positions does and says.
pub open spec fn picked_all<C>(
    ctx: C,
    logits: Seq<u8>,
    vocab: int,
    k: int,
    pre: Seq<SeqEvent<C>>,
    post: Seq<SeqEvent<C>>,
    picks: Seq<u32>,
) -> bool {
    exists|ps: Seq<Position>|
        {
            &&& #[trigger] visited(k, vocab, ps, picks)
            &&& ps.len() == k
            &&& post == pre + all_events(ctx, logits, vocab, ps) + undo_events(ps)
        }
}

proof fn lemma_advances(ps: Seq<Position>)
    ensures
        0 <= advances(ps) <= ps.len(),
    decreases ps.len(),
{
    if ps.len() > 0 {
        lemma_advances(ps.drop_last());
    }
}

fn pick_rows<C, A: VerifySequence<C>>(logits: &Vec<u8>, vocab: usize, k: usize, a: &mut A, ctx: &C) -> (r: Vec<u32>)
    requires
        k > 0,
        logits@.len() == k * vocab * 2,
    ensures
        picked_all(*ctx, logits@, vocab as int, k as int, old(a).trace(), final(a).trace(), r@),
{
    let ghost pre = a.trace();
    let ghost mut ps: Seq<Position> = Seq::empty();
    let ghost v = vocab as int;
    let ghost n = k as int;
    let total: usize = logits.len();
    let mut picks: Vec<u32> = Vec::new();
    let mut taken_back: usize = 0;
    let mut i: usize = 0;
    let mut go = true;
    assert(all_events(*ctx, logits@, v, ps) =~= Seq::empty());
    assert(pre =~= pre + all_events(*ctx, logits@, v, ps));
    while i < k
        invariant
            i <= k,
            v == vocab,
            n == k,
            k > 0,
            total == logits@.len(),
            total == k * vocab * 2,
            ps.len() == i,
            pre == old(a).trace(),
            visited(n, v, ps, picks@),
            taken_back == advances(ps),
            a.trace() == pre + all_events(*ctx, logits@, v, ps),
            go == (forall|j: int| 0 <= j < i ==> !refused(#[trigger] ps[j])),
            i > 0 ==> a.grammar() == ps.last().grammar,
        decreases k - i,
    {
        let ghost before = ps;
        let ghost mid = a.trace();
        assert(i * vocab * 2 <= (i + 1) * vocab * 2 <= k * vocab * 2) by (nonlinear_arith)
            requires
                i < k,
                vocab >= 0,
        ;
        assert((i + 1) * vocab * 2 - i * vocab * 2 == vocab * 2) by (nonlinear_arith);
        assert(i * vocab <= i * vocab * 2 && (i + 1) * vocab <= (i + 1) * vocab * 2 && i * vocab >= 0) by (nonlinear_arith)
            requires
                vocab >= 0,
                i >= 0,
        ;
        let lo: usize = i * vocab * 2;
        let hi: usize = (i + 1) * vocab * 2;
        let row = vstd::slice::slice_subrange(logits.as_slice(), lo, hi);
        let pick: u32 = verify_pick_with_pipeline(row, false, vocab, a, ctx);
        let ghost (after, forced) = choose|after: Seq<u32>, forced: Option<u32>|
            {
                &&& #[trigger] is_pick(after, forced, pick)
                &&& after.len() == vocab
                &&& a.trace() == mid.push(
                    (SeqEvent::Pipeline {
                        ctx: *ctx,
                        before: row_bits(row@, false, vocab as int),
                        after,
                        forced,
                        grammar: a.grammar(),
                        thinking: a.thinking(),
                    }),
                )
            };
        picks.push(pick);
        let ghost mut p = Position {
            after,
            forced,
            grammar: a.grammar(),
            thinking: a.thinking(),
            offered: false,
            taken: false,
            token: pick,
        };
        let offer = go && i + 1 < k && a.has_grammar() && !a.inside_thinking();
        proof {
            lemma_advances(before);
        }
        if offer {
            let taken = a.accept_token(pick);
            proof {
                p = Position { offered: true, taken, ..p };
            }
            if taken {
                taken_back += 1;
            } else {
                go = false;
            }
        }
        proof {
            ps = before.push(p);
            assert(ps.drop_last() =~= before);
            let ev = position_events(*ctx, logits@, v, i as int, p);
            assert(row@ == logits@.subrange(i * vocab * 2, (i + 1) * vocab * 2));
            assert(a.trace() =~= mid + ev);
            assert(a.trace() =~= pre + all_events(*ctx, logits@, v, ps));
            assert forall|j: int| #![trigger ps[j]] 0 <= j < ps.len() implies {
                &&& picks@[j] == ps[j].token
                &&& ps[j].after.len() == vocab
                &&& is_pick(ps[j].after, ps[j].forced, ps[j].token)
                &&& ps[j].offered == is_offered(n, ps, j)
            } by {
                assert forall|l: int| 0 <= l < j implies refused(#[trigger] ps[l]) == refused(before[l]) by {
                    assert(ps[l] == before[l]);
                }
                if j < i {
                    assert(ps[j] == before[j]);
                    assert(before[j].offered == is_offered(n, before, j));
                    assert forall|l: int| 0 <= l < j implies refused(#[trigger] before[l]) == refused(ps[l]) by {
                        assert(ps[l] == before[l]);
                    }
                } else {
                    assert forall|l: int| 0 <= l < i implies refused(#[trigger] before[l]) == refused(ps[l]) by {
                        assert(ps[l] == before[l]);
                    }
                }
            }
            if go {
                assert forall|j: int| 0 <= j < i + 1 implies !refused(#[trigger] ps[j]) by {
                    if j < i {
                        assert(ps[j] == before[j]);
                    }
                }
            } else if refused(p) {
                assert(refused(ps[i as int]));
            } else {
                let j = choose|j: int| 0 <= j < i && refused(#[trigger] before[j]);
                assert(ps[j] == before[j]);
            }
        }
        i += 1;
    }
    if taken_back > 0 && a.has_grammar() {
        a.rollback(taken_back);
    }
    proof {
        assert(a.trace() =~= pre + all_events(*ctx, logits@, v, ps) + undo_events(ps));
    }
    picks
}

/// Picks the tokens of all positions of a verification. Where the logits cannot
/// be copied, the device's own choices stand. Where the grammar refuses a pick,
/// the positions after it are picked against the state before that pick.
pub fn verify_pick_all_with_pipeline<C, G: GpuBackend, A: VerifySequence<C>>(
    gpu: &mut G,
    logits: DevicePtr,
    vocab_size: usize,
    argmax_ids: &[u32],
    a: &mut A,
    ctx: &C,
) -> (r: Vec<u32>)
    requires
        argmax_ids@.len() * vocab_size <= usize::MAX,
        argmax_ids@.len() * vocab_size * 2 <= usize::MAX,
    ensures
        r@.len() == argmax_ids@.len(),
        if argmax_ids@.len() == 0 {
            &&& r@.len() == 0
            &&& *final(gpu) == *old(gpu)
            &&& *final(a) == *old(a)
        } else {
            ||| exists|e: GpuError|
                {
                    &&& r@ == argmax_ids@
                    &&& *final(a) == *old(a)
                    &&& final(gpu).trace() == old(gpu).trace().push(
                        #[trigger] failed(
                            read_step(logits, argmax_ids@.len() * vocab_size * 2, Seq::empty()),
                            e,
                        ),
                    )
                }
            ||| exists|data: Seq<u8>|
                {
                    &&& final(gpu).trace() == old(gpu).trace().push(
                        #[trigger] read_step(logits, argmax_ids@.len() * vocab_size * 2, data),
                    )
                    &&& picked_all(
                        *ctx,
                        data,
                        vocab_size as int,
                        argmax_ids@.len() as int,
                        old(a).trace(),
                        final(a).trace(),
                        r@,
                    )
                }
        },
{
    let k: usize = argmax_ids.len();
    if k == 0 {
        return Vec::new();
    }
    let total: usize = k * vocab_size * 2;
    match gpu.copy_d2h(logits, total) {
        Ok(data) => {
            assert(read_step(logits, argmax_ids@.len() * vocab_size * 2, data@).cmd == Cmd::D2h {
                src: logits,
                len: total,
            });
            pick_rows(&data, vocab_size, k, a, ctx)
        },
        Err(e) => {
            let mut r: Vec<u32> = Vec::new();
            let mut i: usize = 0;
            while i < k
                invariant
                    i <= k,
                    k == argmax_ids@.len(),
                    r@ == argmax_ids@.take(i as int),
                decreases k - i,
            {
                r.push(argmax_ids[i]);
                i += 1;
                assert(r@ =~= argmax_ids@.take(i as int));
            }
            assert(r@ =~= argmax_ids@);
            assert(gpu.trace() == old(gpu).trace().push(failed(read_step(logits, total as int, Seq::empty()), e)));
            r
        },
    }
}

// ── law ──
/// How far a trace moves the grammar: tokens taken, less tokens taken back.
pub open spec fn net_advance<C>(events: Seq<SeqEvent<C>>) -> int
    decreases events.len(),
{
    if events.len() == 0 {
        0
    } else {
        net_advance(events.drop_last()) + match events.last() {
            SeqEvent::Accept { taken, .. } => if taken { 1int } else { 0 },
            SeqEvent::Rollback { tokens } => -(tokens as int),
            _ => 0,
        }
    }
}

/// Picking leaves the grammar where it was, as long as the sequence still has
/// one after its last position.
pub proof fn advances_are_taken_back<C>(
    ctx: C,
    logits: Seq<u8>,
    vocab: int,
    k: int,
    ps: Seq<Position>,
    picks: Seq<u32>,
)
    requires
        visited(k, vocab, ps, picks),
        ps.len() > 0,
        ps.last().grammar,
        k <= usize::MAX,
    ensures
        net_advance(all_events(ctx, logits, vocab, ps) + undo_events(ps)) == 0,
{
    let all = all_events(ctx, logits, vocab, ps);
    lemma_net_all(ctx, logits, vocab, ps);
    lemma_advances(ps);
    if advances(ps) > 0 {
        let undo = undo_events::<C>(ps);
        assert((all + undo).drop_last() =~= all);
        assert((all + undo).last() == undo[0]);
    } else {
        assert(all + undo_events::<C>(ps) =~= all);
    }
}

proof fn lemma_net_all<C>(ctx: C, logits: Seq<u8>, vocab: int, ps: Seq<Position>)
    ensures
        net_advance(all_events(ctx, logits, vocab, ps)) == advances(ps),
    decreases ps.len(),
{
    if ps.len() > 0 {
        let rest = all_events(ctx, logits, vocab, ps.drop_last());
        let ev = position_events(ctx, logits, vocab, ps.len() - 1, ps.last());
        lemma_net_all(ctx, logits, vocab, ps.drop_last());
        let one = rest.push(ev[0]);
        assert(one.drop_last() =~= rest);
        assert(net_advance(one) == net_advance(rest));
        if ps.last().offered {
            let two = one.push(ev[1]);
            assert(two.drop_last() =~= one);
            assert(rest + ev =~= two);
        } else {
            assert(rest + ev =~= one);
        }
    }
}

} // verus!
