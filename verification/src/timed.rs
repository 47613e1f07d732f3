//! Runs whose pieces are timed.
//!
//! A piece that is timed has the device drained before and after it. The second
//! wait is made whatever became of the piece, so a run that a timed piece ended
//! has one command more than its refused one.

use vstd::prelude::*;

use crate::gpu::GpuError;
use crate::op::Op;
use crate::run::{op_fits, run_op, step};
use crate::trace::{failed, ran, refusal, stopped_at, stops, Event, GpuBackend, Reply};

verus! {

/// An operation, and whether it is timed where timing is on.
#[derive(Clone, Copy, PartialEq, Eq, Structural, Debug)]
pub struct Piece {
    pub op: Op,
    pub timed: bool,
}

pub open spec fn timed(op: Op) -> Piece {
    Piece { op, timed: true }
}

pub open spec fn untimed(op: Op) -> Piece {
    Piece { op, timed: false }
}

/// The pieces of operations that are not timed.
pub open spec fn untimed_all(ops: Seq<Op>) -> Seq<Piece> {
    Seq::new(ops.len(), |i: int| untimed(ops[i]))
}

/// The launch geometries of a list of pieces fit their fields.
pub open spec fn pieces_fit(pieces: Seq<Piece>) -> bool {
    forall|i: int| 0 <= i < pieces.len() ==> op_fits((#[trigger] pieces[i]).op)
}

/// A step of a run. The step after a timed one is made even where the timed one
/// was refused.
#[verifier::ext_equal]
pub struct Step {
    pub event: Event,
    pub timed: bool,
}

pub open spec fn events(prog: Seq<Step>) -> Seq<Event> {
    Seq::new(prog.len(), |i: int| prog[i].event)
}

/// Steps that are not timed.
pub open spec fn plain(evs: Seq<Event>) -> Seq<Step> {
    Seq::new(evs.len(), |i: int| Step { event: evs[i], timed: false })
}

/// The steps of one piece.
pub open spec fn piece_steps(p: Piece, timing: bool, stream: u64) -> Seq<Step> {
    if p.timed && timing {
        seq![
            Step { event: step(Op::Synchronize, stream), timed: false },
            Step { event: step(p.op, stream), timed: true },
            Step { event: step(Op::Synchronize, stream), timed: false },
        ]
    } else {
        seq![Step { event: step(p.op, stream), timed: false }]
    }
}

/// The steps of a list of pieces.
pub open spec fn pieces_steps(pieces: Seq<Piece>, timing: bool, stream: u64) -> Seq<Step>
    decreases pieces.len(),
{
    if pieces.len() == 0 {
        Seq::empty()
    } else {
        pieces_steps(pieces.drop_last(), timing, stream) + piece_steps(pieces.last(), timing, stream)
    }
}

/// A timed step was refused with `e1`, the step after it was answered with `w`,
/// and the run ended with `e`: the later of the two refusals.
pub open spec fn ended_timed(
    pre: Seq<Event>,
    prog: Seq<Step>,
    post: Seq<Event>,
    k: int,
    e: GpuError,
    e1: GpuError,
    w: Reply,
) -> bool {
    &&& k + 1 < prog.len()
    &&& post == pre + events(prog).take(k) + seq![
        failed(prog[k].event, e1),
        Event { cmd: prog[k + 1].event.cmd, reply: w },
    ]
    &&& (w == Reply::Done && e == e1) || w == Reply::Failed(e)
}

/// The run of `prog` ended at step `k`.
pub open spec fn ended_at(pre: Seq<Event>, prog: Seq<Step>, post: Seq<Event>, k: int, e: GpuError) -> bool {
    &&& 0 <= k < prog.len()
    &&& if prog[k].timed {
        exists|e1: GpuError, w: Reply| #[trigger] ended_timed(pre, prog, post, k, e, e1, w)
    } else {
        post == pre + stopped_at(events(prog), k, e)
    }
}

/// The trace grew from `pre` to `post` by running `prog` in order.
pub open spec fn ran_timed(pre: Seq<Event>, prog: Seq<Step>, post: Seq<Event>, refused: Option<GpuError>) -> bool {
    match refused {
        None => post == pre + events(prog),
        Some(e) => exists|k: int| #[trigger] ended_at(pre, prog, post, k, e),
    }
}

pub proof fn lemma_timed_then(
    pre: Seq<Event>,
    a: Seq<Step>,
    mid: Seq<Event>,
    b: Seq<Step>,
    post: Seq<Event>,
    refused: Option<GpuError>,
)
    requires
        ran_timed(pre, a, mid, None),
        ran_timed(mid, b, post, refused),
    ensures
        ran_timed(pre, a + b, post, refused),
{
    assert(events(a + b) =~= events(a) + events(b));
    match refused {
        None => {
            assert(post =~= pre + events(a + b));
        },
        Some(e) => {
            let k = choose|k: int| #[trigger] ended_at(mid, b, post, k, e);
            let j = a.len() + k;
            assert((a + b)[j] == b[k]);
            assert(events(a + b).take(j) =~= events(a) + events(b).take(k));
            if b[k].timed {
                let (e1, w) = choose|e1: GpuError, w: Reply| #[trigger] ended_timed(mid, b, post, k, e, e1, w);
                assert((a + b)[j + 1] == b[k + 1]);
                assert(post =~= pre + events(a + b).take(j) + seq![
                    failed((a + b)[j].event, e1),
                    Event { cmd: (a + b)[j + 1].event.cmd, reply: w },
                ]);
                assert(ended_timed(pre, a + b, post, j, e, e1, w));
            } else {
                assert(post =~= pre + stopped_at(events(a + b), j, e));
            }
            assert(ended_at(pre, a + b, post, j, e));
        },
    }
}

/// A run that was refused is also a run of any program that starts the same way.
pub proof fn lemma_timed_prefix(pre: Seq<Event>, a: Seq<Step>, all: Seq<Step>, post: Seq<Event>, e: GpuError)
    requires
        ran_timed(pre, a, post, Some(e)),
        a.len() <= all.len(),
        all.take(a.len() as int) == a,
    ensures
        ran_timed(pre, all, post, Some(e)),
{
    let k = choose|k: int| #[trigger] ended_at(pre, a, post, k, e);
    assert(all.take(a.len() as int)[k] == all[k]);
    assert(events(all).take(k) =~= events(a).take(k)) by {
        assert forall|i: int| 0 <= i < k implies events(all)[i] == events(a)[i] by {
            assert(all.take(a.len() as int)[i] == all[i]);
        }
    }
    if a[k].timed {
        let (e1, w) = choose|e1: GpuError, w: Reply| #[trigger] ended_timed(pre, a, post, k, e, e1, w);
        assert(all.take(a.len() as int)[k + 1] == all[k + 1]);
        assert(ended_timed(pre, all, post, k, e, e1, w));
    }
    assert(ended_at(pre, all, post, k, e));
}

/// A refused run leaves at least one command in the trace, and at most all.
pub proof fn lemma_timed_len(pre: Seq<Event>, prog: Seq<Step>, post: Seq<Event>, e: GpuError)
    requires
        ran_timed(pre, prog, post, Some(e)),
    ensures
        pre.len() < post.len() <= pre.len() + prog.len(),
{
    let k = choose|k: int| #[trigger] ended_at(pre, prog, post, k, e);
    assert(events(prog).take(k).len() == k);
    if prog[k].timed {
        let (e1, w) = choose|e1: GpuError, w: Reply| #[trigger] ended_timed(pre, prog, post, k, e, e1, w);
    }
}

/// A run without timing is a run.
pub proof fn lemma_timed_plain(pre: Seq<Event>, evs: Seq<Event>, post: Seq<Event>, refused: Option<GpuError>)
    requires
        ran(pre, evs, post, refused),
    ensures
        ran_timed(pre, plain(evs), post, refused),
{
    assert(events(plain(evs)) =~= evs);
    if let Some(e) = refused {
        let k = choose|k: int| #[trigger] stops(pre, evs, post, k, e);
        assert(ended_at(pre, plain(evs), post, k, e));
    }
}

pub proof fn lemma_pieces_add(a: Seq<Piece>, b: Seq<Piece>, timing: bool, stream: u64)
    ensures
        pieces_steps(a + b, timing, stream) == pieces_steps(a, timing, stream) + pieces_steps(b, timing, stream),
    decreases b.len(),
{
    if b.len() == 0 {
        assert(a + b =~= a);
        assert(pieces_steps(a + b, timing, stream) =~= pieces_steps(a, timing, stream) + pieces_steps(b, timing, stream));
    } else {
        lemma_pieces_add(a, b.drop_last(), timing, stream);
        assert((a + b).drop_last() =~= a + b.drop_last());
        assert(pieces_steps(a + b, timing, stream) =~= pieces_steps(a, timing, stream) + pieces_steps(b, timing, stream));
    }
}

/// Pieces come to at least one step.
pub proof fn lemma_pieces_run(pieces: Seq<Piece>, timing: bool, stream: u64)
    requires
        pieces.len() > 0,
    ensures
        pieces_steps(pieces, timing, stream).len() > 0,
{
}

/// Runs one piece.
fn run_piece<G: GpuBackend>(gpu: &mut G, p: Piece, timing: bool, stream: u64) -> (r: Result<(), GpuError>)
    requires
        op_fits(p.op),
    ensures
        ran_timed(old(gpu).trace(), piece_steps(p, timing, stream), final(gpu).trace(), refusal(r)),
{
    let ghost pre = gpu.trace();
    let ghost prog = piece_steps(p, timing, stream);
    if !(p.timed && timing) {
        let r = run_op(gpu, p.op, stream);
        proof {
            assert(prog =~= plain(seq![step(p.op, stream)]));
            lemma_timed_plain(pre, seq![step(p.op, stream)], gpu.trace(), refusal(r));
        }
        return r;
    }
    let ghost wait = step(Op::Synchronize, stream);
    let first = run_op(gpu, Op::Synchronize, stream);
    let ghost s1 = plain(seq![wait]);
    proof {
        lemma_timed_plain(pre, seq![wait], gpu.trace(), refusal(first));
        assert(prog.take(1) =~= s1);
    }
    if let Err(e) = first {
        proof {
            lemma_timed_prefix(pre, s1, prog, gpu.trace(), e);
        }
        return Err(e);
    }
    let ghost mid = gpu.trace();
    let body = run_op(gpu, p.op, stream);
    let ghost after = gpu.trace();
    let last = run_op(gpu, Op::Synchronize, stream);
    proof {
        let this = step(p.op, stream);
        assert(mid =~= pre + seq![wait]);
        assert(events(prog) =~= seq![wait, this, wait]);
        match body {
            Ok(_) => {
                assert(after =~= pre + seq![wait, this]);
                match last {
                    Ok(_) => {
                        assert(gpu.trace() =~= pre + events(prog));
                    },
                    Err(e) => {
                        let k = choose|k: int| #[trigger] stops(after, seq![wait], gpu.trace(), k, e);
                        assert(seq![wait].take(0) =~= Seq::empty());
                        assert(events(prog).take(2) =~= seq![wait, this]);
                        assert(gpu.trace() =~= pre + stopped_at(events(prog), 2, e));
                        assert(ended_at(pre, prog, gpu.trace(), 2, e));
                    },
                }
            },
            Err(e1) => {
                let k = choose|k: int| #[trigger] stops(mid, seq![this], after, k, e1);
                assert(seq![this].take(0) =~= Seq::empty());
                assert(events(prog).take(1) =~= seq![wait]);
                assert(after =~= pre + seq![wait, failed(this, e1)]);
                let (e, w) = match last {
                    Ok(_) => (e1, Reply::Done),
                    Err(e2) => (e2, Reply::Failed(e2)),
                };
                if let Err(e2) = last {
                    let k2 = choose|k2: int| #[trigger] stops(after, seq![wait], gpu.trace(), k2, e2);
                    assert(seq![wait].take(0) =~= Seq::empty());
                }
                assert(gpu.trace() =~= pre + events(prog).take(1) + seq![
                    failed(this, e1),
                    Event { cmd: wait.cmd, reply: w },
                ]);
                assert(ended_timed(pre, prog, gpu.trace(), 1, e, e1, w));
                assert(ended_at(pre, prog, gpu.trace(), 1, e));
            },
        }
    }
    match last {
        Err(e) => Err(e),
        Ok(_) => body,
    }
}

/// Runs pieces after a run of `sofar` that started from `pre`.
pub(crate) fn go_pieces<G: GpuBackend>(
    gpu: &mut G,
    pieces: &Vec<Piece>,
    timing: bool,
    stream: u64,
    Ghost(pre): Ghost<Seq<Event>>,
    Ghost(sofar): Ghost<Seq<Step>>,
) -> (r: Result<(), GpuError>)
    requires
        ran_timed(pre, sofar, old(gpu).trace(), None),
        pieces_fit(pieces@),
    ensures
        ran_timed(pre, sofar + pieces_steps(pieces@, timing, stream), final(gpu).trace(), refusal(r)),
        r is Err ==> final(gpu).trace().len() > old(gpu).trace().len(),
{
    let ghost all = sofar + pieces_steps(pieces@, timing, stream);
    let mut i: usize = 0;
    assert(pieces@.take(0) =~= Seq::empty());
    assert(sofar + pieces_steps(pieces@.take(0), timing, stream) =~= sofar);
    while i < pieces.len()
        invariant
            i <= pieces@.len(),
            pieces_fit(pieces@),
            all == sofar + pieces_steps(pieces@, timing, stream),
            ran_timed(pre, sofar + pieces_steps(pieces@.take(i as int), timing, stream), gpu.trace(), None),
            gpu.trace().len() >= old(gpu).trace().len(),
        decreases pieces@.len() - i,
    {
        let ghost mid = gpu.trace();
        let ghost a = sofar + pieces_steps(pieces@.take(i as int), timing, stream);
        let ghost b = piece_steps(pieces@[i as int], timing, stream);
        let r = run_piece(gpu, pieces[i], timing, stream);
        proof {
            if let Err(e) = r {
                lemma_timed_len(mid, b, gpu.trace(), e);
            }
            lemma_timed_then(pre, a, mid, b, gpu.trace(), refusal(r));
            let next = pieces@.take(i + 1);
            assert(next.drop_last() =~= pieces@.take(i as int));
            assert(sofar + pieces_steps(next, timing, stream) =~= a + b);
            if let Err(e) = r {
                assert(pieces@ =~= next + pieces@.skip(i + 1));
                lemma_pieces_add(next, pieces@.skip(i + 1), timing, stream);
                assert(all.take((a + b).len() as int) =~= a + b);
                lemma_timed_prefix(pre, a + b, all, gpu.trace(), e);
            }
        }
        if r.is_err() {
            return r;
        }
        i += 1;
    }
    assert(pieces@.take(i as int) =~= pieces@);
    Ok(())
}

} // verus!
