//! Device memory taken and given back in the course of a run.

use vstd::multiset::Multiset;
use vstd::prelude::*;

use crate::gpu::DevicePtr;
use crate::op::Op;
use crate::run::{alloc_steps, steps};
use crate::trace::{Cmd, Event, Reply};

verus! {

/// The buffer that a step took from the device, if it took one.
pub open spec fn taken_by(e: Event) -> Multiset<DevicePtr> {
    match (e.cmd, e.reply) {
        (Cmd::Alloc { .. }, Reply::Ptr(p)) => Multiset::singleton(p),
        _ => Multiset::empty(),
    }
}

/// The buffer that a step gave back, if it gave one back.
pub open spec fn given_by(e: Event) -> Multiset<DevicePtr> {
    match (e.cmd, e.reply) {
        (Cmd::Op { op: Op::Free { ptr }, .. }, Reply::Done) => Multiset::singleton(ptr),
        _ => Multiset::empty(),
    }
}

/// The buffers that a run took, each as often as it was taken.
pub open spec fn taken(t: Seq<Event>) -> Multiset<DevicePtr>
    decreases t.len(),
{
    if t.len() == 0 {
        Multiset::empty()
    } else {
        taken(t.drop_last()).add(taken_by(t.last()))
    }
}

/// The buffers that a run gave back, each as often as it was given back.
pub open spec fn given_back(t: Seq<Event>) -> Multiset<DevicePtr>
    decreases t.len(),
{
    if t.len() == 0 {
        Multiset::empty()
    } else {
        given_back(t.drop_last()).add(given_by(t.last()))
    }
}

/// Neither takes nor gives back.
pub open spec fn quiet(t: Seq<Event>) -> bool {
    forall|i: int|
        0 <= i < t.len() ==> taken_by(#[trigger] t[i]) == Multiset::<DevicePtr>::empty() && given_by(t[i])
            == Multiset::<DevicePtr>::empty()
}

/// None of these operations gives a buffer back.
pub open spec fn no_frees(ops: Seq<Op>) -> bool {
    forall|i: int| 0 <= i < ops.len() ==> !(#[trigger] ops[i] is Free)
}

/// Giving buffers back, in order.
pub open spec fn free_ops(p: Seq<DevicePtr>) -> Seq<Op> {
    Seq::new(p.len(), |i: int| Op::Free { ptr: p[i] })
}

pub proof fn lemma_buffers_add(a: Seq<Event>, b: Seq<Event>)
    ensures
        taken(a + b) == taken(a).add(taken(b)),
        given_back(a + b) == given_back(a).add(given_back(b)),
    decreases b.len(),
{
    if b.len() == 0 {
        assert(a + b =~= a);
        assert(taken(a).add(taken(b)) =~= taken(a));
        assert(given_back(a).add(given_back(b)) =~= given_back(a));
    } else {
        lemma_buffers_add(a, b.drop_last());
        assert((a + b).drop_last() =~= a + b.drop_last());
        assert((a + b).last() == b.last());
        assert(taken(a + b) =~= taken(a).add(taken(b)));
        assert(given_back(a + b) =~= given_back(a).add(given_back(b)));
    }
}

pub proof fn lemma_quiet(t: Seq<Event>)
    requires
        quiet(t),
    ensures
        taken(t) == Multiset::<DevicePtr>::empty(),
        given_back(t) == Multiset::<DevicePtr>::empty(),
    decreases t.len(),
{
    if t.len() > 0 {
        lemma_quiet(t.drop_last());
        assert(t.last() == t[t.len() - 1]);
        assert(taken(t) =~= Multiset::empty());
        assert(given_back(t) =~= Multiset::empty());
    }
}

pub proof fn lemma_quiet_ops(ops: Seq<Op>, stream: u64)
    requires
        no_frees(ops),
    ensures
        quiet(steps(ops, stream)),
{
    assert forall|i: int| 0 <= i < ops.len() implies taken_by(#[trigger] steps(ops, stream)[i]) == Multiset::<
        DevicePtr,
    >::empty() && given_by(steps(ops, stream)[i]) == Multiset::<DevicePtr>::empty() by {
        assert(!(ops[i] is Free));
    }
}

/// Operations that give nothing back leave both counts as they are.
pub proof fn lemma_ops_added(t: Seq<Event>, ops: Seq<Op>, stream: u64)
    requires
        no_frees(ops),
    ensures
        taken(t + steps(ops, stream)) == taken(t),
        given_back(t + steps(ops, stream)) == given_back(t),
{
    lemma_quiet_ops(ops, stream);
    lemma_quiet_added(t, steps(ops, stream));
}

pub proof fn lemma_quiet_added(t: Seq<Event>, q: Seq<Event>)
    requires
        quiet(q),
    ensures
        taken(t + q) == taken(t),
        given_back(t + q) == given_back(t),
{
    lemma_quiet(q);
    lemma_buffers_add(t, q);
    assert(taken(t).add(Multiset::empty()) =~= taken(t));
    assert(given_back(t).add(Multiset::empty()) =~= given_back(t));
}

pub proof fn lemma_allocs(sizes: Seq<usize>, p: Seq<DevicePtr>)
    requires
        sizes.len() == p.len(),
    ensures
        taken(alloc_steps(sizes, p)) == p.to_multiset(),
        given_back(alloc_steps(sizes, p)) == Multiset::<DevicePtr>::empty(),
    decreases p.len(),
{
    p.to_multiset_ensures();
    let t = alloc_steps(sizes, p);
    if p.len() == 0 {
        assert(p.to_multiset() =~= Multiset::empty());
    } else {
        lemma_allocs(sizes.drop_last(), p.drop_last());
        assert(t.drop_last() =~= alloc_steps(sizes.drop_last(), p.drop_last()));
        p.drop_last().to_multiset_ensures();
        assert(p =~= p.drop_last().push(p.last()));
        assert(taken(t) =~= p.to_multiset());
        assert(given_back(t) =~= Multiset::empty());
    }
}

pub proof fn lemma_frees(p: Seq<DevicePtr>, stream: u64)
    ensures
        taken(steps(free_ops(p), stream)) == Multiset::<DevicePtr>::empty(),
        given_back(steps(free_ops(p), stream)) == p.to_multiset(),
    decreases p.len(),
{
    p.to_multiset_ensures();
    let t = steps(free_ops(p), stream);
    if p.len() == 0 {
        assert(p.to_multiset() =~= Multiset::empty());
    } else {
        lemma_frees(p.drop_last(), stream);
        assert(t.drop_last() =~= steps(free_ops(p.drop_last()), stream));
        p.drop_last().to_multiset_ensures();
        assert(p =~= p.drop_last().push(p.last()));
        assert(taken(t) =~= Multiset::empty());
        assert(given_back(t) =~= p.to_multiset());
    }
}

} // verus!
