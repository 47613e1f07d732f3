//! Running lists of device operations.

use vstd::prelude::*;

use crate::dspark_attention::{dspark_sparse_attention, dspark_sparse_attention_cmd, sparse_attention_fits};
use crate::gpu::{DevicePtr, Fp8Scales, GpuError, KernelHandle};
use crate::hyper_connection::{
    hc_expand, hc_expand_cmd, hc_head, hc_head_cmd, hc_post, hc_post_cmd, hc_pre, hc_pre_cmd,
    hc_stream_mean, hc_stream_mean_cmd,
};
use crate::kernel_args::{wht, wht_cmd};
use crate::op::{AttendCall, Boundary, Call, LayerCall, LayerKind, LayerState, Op};
use crate::trace::{
    done, lemma_ran_cut, lemma_ran_len, lemma_ran_one, lemma_ran_stopped, lemma_ran_then, left, ran, refusal, stopped_at, tables, Cmd,
    Event, GpuBackend, Left, Reply, Tables,
};

verus! {

/// The command that carries out `op`: a kernel launch for the operations whose
/// launch this crate knows, else the operation itself.
pub open spec fn op_cmd(op: Op, stream: u64) -> Cmd {
    match op {
        Op::HcExpand { kernel, hidden, streams, num_tokens, hidden_size, hc_mult } => hc_expand_cmd(
            kernel, hidden, streams, num_tokens, hidden_size, hc_mult, stream,
        ),
        Op::HcPre { kernel, streams, hc_fn, hc_scale, hc_base, y_out, post_out, comb_out, num_tokens, hidden_size, hc_mult, sinkhorn_iters, norm_eps, hc_eps } => hc_pre_cmd(
            kernel, streams, hc_fn, hc_scale, hc_base, y_out, post_out, comb_out, num_tokens, hidden_size, hc_mult, sinkhorn_iters, norm_eps, hc_eps, stream,
        ),
        Op::HcPost { kernel, block_out, residual, post, comb, out, num_tokens, hidden_size, hc_mult } => hc_post_cmd(
            kernel, block_out, residual, post, comb, out, num_tokens, hidden_size, hc_mult, stream,
        ),
        Op::HcHead { kernel, streams, head_fn, head_scale, head_base, y_out, num_tokens, hidden_size, hc_mult, norm_eps, hc_eps } => hc_head_cmd(
            kernel, streams, head_fn, head_scale, head_base, y_out, num_tokens, hidden_size, hc_mult, norm_eps, hc_eps, stream,
        ),
        Op::HcStreamMean { kernel, streams, out, num_tokens, hidden_size, hc_mult } => hc_stream_mean_cmd(
            kernel, streams, out, num_tokens, hidden_size, hc_mult, stream,
        ),
        Op::DsparkSparseAttention { kernel, q, draft_kv, main_kv, valid_main_lengths, attn_sink, out, softmax_scale, batch_size, block_size, num_heads, head_dim, window_size } => dspark_sparse_attention_cmd(
            kernel, q, draft_kv, main_kv, valid_main_lengths, attn_sink, out, softmax_scale, batch_size, block_size, num_heads, head_dim, window_size, stream,
        ),
        Op::Wht { kernel, data, heads, head_dim } => wht_cmd(kernel, data, heads, head_dim, stream),
        _ => Cmd::Op { op, stream },
    }
}

/// The launch geometry of `op` fits its fields.
pub open spec fn op_fits(op: Op) -> bool {
    match op {
        Op::DsparkSparseAttention { batch_size, block_size, num_heads, head_dim, window_size, .. } =>
            sparse_attention_fits(batch_size, block_size, num_heads, head_dim, window_size),
        _ => true,
    }
}

/// The launch geometries of a list of operations fit their fields.
pub open spec fn all_fit(ops: Seq<Op>) -> bool {
    forall|i: int| 0 <= i < ops.len() ==> op_fits(#[trigger] ops[i])
}

/// The step that `op` leaves in the trace when it is carried out.
pub open spec fn step(op: Op, stream: u64) -> Event {
    done(op_cmd(op, stream))
}

/// The steps of a list of operations.
pub open spec fn steps(ops: Seq<Op>, stream: u64) -> Seq<Event> {
    Seq::new(ops.len(), |i: int| step(ops[i], stream))
}

pub proof fn lemma_steps_add(a: Seq<Op>, b: Seq<Op>, stream: u64)
    ensures
        steps(a + b, stream) == steps(a, stream) + steps(b, stream),
{
    assert(steps(a + b, stream) =~= steps(a, stream) + steps(b, stream));
}

/// Waiting for the device, where that is asked for.
pub open spec fn wait_if(on: bool) -> Seq<Op> {
    if on {
        seq![Op::Synchronize]
    } else {
        Seq::empty()
    }
}

pub(crate) fn push_wait(ops: &mut Vec<Op>, on: bool)
    ensures
        final(ops)@ == old(ops)@ + wait_if(on),
        all_fit(old(ops)@) ==> all_fit(final(ops)@),
{
    if on {
        ops.push(Op::Synchronize);
    }
    assert(ops@ =~= old(ops)@ + wait_if(on));
}

/// A dump of a tensor, where that is asked for.
pub open spec fn dump_if(on: bool, at: Boundary, call: usize, src: DevicePtr, rows: int, cols: int, fp32: bool) -> Seq<Op> {
    if on {
        seq![Op::Dump { at, call, src, rows: rows as u32, cols: cols as u32, fp32 }]
    } else {
        Seq::empty()
    }
}

pub(crate) fn push_dump(
    ops: &mut Vec<Op>,
    on: bool,
    at: Boundary,
    call: usize,
    src: DevicePtr,
    rows: u32,
    cols: u32,
    fp32: bool,
)
    ensures
        final(ops)@ == old(ops)@ + dump_if(on, at, call, src, rows as int, cols as int, fp32),
        all_fit(old(ops)@) ==> all_fit(final(ops)@),
{
    if on {
        ops.push(Op::Dump { at, call, src, rows, cols, fp32 });
    }
    assert(ops@ =~= old(ops)@ + dump_if(on, at, call, src, rows as int, cols as int, fp32));
}

/// Runs one operation.
pub fn run_op<G: GpuBackend>(gpu: &mut G, op: Op, stream: u64) -> (r: Result<(), GpuError>)
    requires
        op_fits(op),
    ensures
        ran(old(gpu).trace(), seq![step(op, stream)], final(gpu).trace(), refusal(r)),
{
    match op {
        Op::HcExpand { kernel, hidden, streams, num_tokens, hidden_size, hc_mult } => hc_expand(
            gpu, kernel, hidden, streams, num_tokens, hidden_size, hc_mult, stream,
        ),
        Op::HcPre { kernel, streams, hc_fn, hc_scale, hc_base, y_out, post_out, comb_out, num_tokens, hidden_size, hc_mult, sinkhorn_iters, norm_eps, hc_eps } => hc_pre(
            gpu, kernel, streams, hc_fn, hc_scale, hc_base, y_out, post_out, comb_out, num_tokens, hidden_size, hc_mult, sinkhorn_iters, norm_eps, hc_eps, stream,
        ),
        Op::HcPost { kernel, block_out, residual, post, comb, out, num_tokens, hidden_size, hc_mult } => hc_post(
            gpu, kernel, block_out, residual, post, comb, out, num_tokens, hidden_size, hc_mult, stream,
        ),
        Op::HcHead { kernel, streams, head_fn, head_scale, head_base, y_out, num_tokens, hidden_size, hc_mult, norm_eps, hc_eps } => hc_head(
            gpu, kernel, streams, head_fn, head_scale, head_base, y_out, num_tokens, hidden_size, hc_mult, norm_eps, hc_eps, stream,
        ),
        Op::HcStreamMean { kernel, streams, out, num_tokens, hidden_size, hc_mult } => hc_stream_mean(
            gpu, kernel, streams, out, num_tokens, hidden_size, hc_mult, stream,
        ),
        Op::DsparkSparseAttention { kernel, q, draft_kv, main_kv, valid_main_lengths, attn_sink, out, softmax_scale, batch_size, block_size, num_heads, head_dim, window_size } => dspark_sparse_attention(
            gpu, kernel, q, draft_kv, main_kv, valid_main_lengths, attn_sink, out, softmax_scale, batch_size, block_size, num_heads, head_dim, window_size, stream,
        ),
        Op::Wht { kernel, data, heads, head_dim } => wht(gpu, kernel, data, heads, head_dim, stream),
        Op::Observe { what } => {
            let ghost pre = gpu.trace();
            gpu.observe(what, stream);
            proof {
                lemma_ran_one(pre, step(op, stream), gpu.trace(), None);
            }
            Ok(())
        },
        _ => {
            let ghost pre = gpu.trace();
            let r = gpu.dispatch(op, stream);
            proof {
                lemma_ran_one(pre, step(op, stream), gpu.trace(), refusal(r));
            }
            r
        },
    }
}

/// Runs the operations in order and stops at the first that is refused.
pub fn run_ops<G: GpuBackend>(gpu: &mut G, ops: &Vec<Op>, stream: u64) -> (r: Result<(), GpuError>)
    requires
        all_fit(ops@),
    ensures
        ran(old(gpu).trace(), steps(ops@, stream), final(gpu).trace(), refusal(r)),
{
    let ghost pre = gpu.trace();
    let mut i: usize = 0;
    proof {
        assert(steps(ops@.take(0), stream) =~= Seq::empty());
        assert(pre =~= pre + steps(ops@.take(0), stream));
    }
    while i < ops.len()
        invariant
            i <= ops@.len(),
            all_fit(ops@),
            ran(pre, steps(ops@.take(i as int), stream), gpu.trace(), None),
            pre == old(gpu).trace(),
        decreases ops@.len() - i,
    {
        let ghost mid = gpu.trace();
        let r = run_op(gpu, ops[i], stream);
        proof {
            let a = ops@.take(i as int);
            let one = seq![ops@[i as int]];
            lemma_steps_add(a, one, stream);
            assert(ops@.take(i + 1) =~= a + one);
            assert(steps(one, stream) =~= seq![step(ops@[i as int], stream)]);
            lemma_ran_then(pre, steps(a, stream), mid, steps(one, stream), gpu.trace(), refusal(r));
            if let Err(e) = r {
                let rest = ops@.skip(i + 1);
                assert(ops@ =~= (a + one) + rest);
                lemma_steps_add(a + one, rest, stream);
                lemma_ran_cut(pre, steps(a + one, stream), steps(rest, stream), gpu.trace(), e);
            }
        }
        if r.is_err() {
            return r;
        }
        i += 1;
    }
    proof {
        assert(ops@.take(i as int) =~= ops@);
    }
    Ok(())
}

/// A read of `len` bytes at `src` that came back with `data`.
pub open spec fn read_step(src: DevicePtr, len: int, data: Seq<u8>) -> Event {
    Event { cmd: Cmd::D2h { src, len: len as usize }, reply: Reply::Data(data) }
}

/// An upload of `data` to `dst` on a stream.
pub open spec fn send_step(data: Seq<u8>, dst: DevicePtr, stream: u64) -> Event {
    done(Cmd::H2dAsync { data, dst, stream })
}

/// Reads `len` bytes at `src`.
pub fn read_back<G: GpuBackend>(gpu: &mut G, src: DevicePtr, len: usize) -> (r: Result<Vec<u8>, GpuError>)
    ensures
        match r {
            Ok(v) => v@.len() == len && ran(
                old(gpu).trace(),
                seq![read_step(src, len as int, v@)],
                final(gpu).trace(),
                None,
            ),
            Err(e) => forall|data: Seq<u8>|
                ran(old(gpu).trace(), seq![#[trigger] read_step(src, len as int, data)], final(gpu).trace(), Some(e)),
        },
{
    let ghost pre = gpu.trace();
    let r = gpu.copy_d2h(src, len);
    proof {
        match &r {
            Ok(v) => {
                lemma_ran_one(pre, read_step(src, len as int, v@), gpu.trace(), None);
            },
            Err(e0) => {
                let e = *e0;
                assert forall|data: Seq<u8>|
                    ran(pre, seq![#[trigger] read_step(src, len as int, data)], gpu.trace(), Some(e)) by {
                    lemma_ran_one(pre, read_step(src, len as int, data), gpu.trace(), Some(e));
                }
            },
        }
    }
    r
}

/// A call that answered with `ptr`.
pub open spec fn call_step(call: Call, stream: u64, ptr: DevicePtr) -> Event {
    Event { cmd: Cmd::Call { call, stream }, reply: Reply::Ptr(ptr) }
}

/// Runs an operation that answers with the buffer it wrote.
pub fn run_call<G: GpuBackend>(gpu: &mut G, call: Call, stream: u64) -> (r: Result<DevicePtr, GpuError>)
    ensures
        match r {
            Ok(p) => ran(old(gpu).trace(), seq![call_step(call, stream, p)], final(gpu).trace(), None),
            Err(e) => forall|p: DevicePtr|
                ran(old(gpu).trace(), seq![#[trigger] call_step(call, stream, p)], final(gpu).trace(), Some(e)),
        },
{
    let ghost pre = gpu.trace();
    let r = gpu.call(call, stream);
    proof {
        match r {
            Ok(p) => {
                lemma_ran_one(pre, call_step(call, stream, p), gpu.trace(), None);
            },
            Err(e) => {
                assert forall|p: DevicePtr|
                    ran(pre, seq![#[trigger] call_step(call, stream, p)], gpu.trace(), Some(e)) by {
                    lemma_ran_one(pre, call_step(call, stream, p), gpu.trace(), Some(e));
                }
            },
        }
    }
    r
}

/// An allocation that answered with `ptr`.
pub open spec fn alloc_step(bytes: int, ptr: DevicePtr) -> Event {
    Event { cmd: Cmd::Alloc { bytes: bytes as usize }, reply: Reply::Ptr(ptr) }
}

/// Allocations of `sizes`, in order, that answered with `ptrs`.
pub open spec fn alloc_steps(sizes: Seq<usize>, ptrs: Seq<DevicePtr>) -> Seq<Event> {
    Seq::new(sizes.len(), |i: int| alloc_step(sizes[i] as int, ptrs[i]))
}

/// Allocates buffers in order, and stops at the first that is refused.
pub fn alloc_all<G: GpuBackend>(gpu: &mut G, sizes: &Vec<usize>) -> (r: Result<Vec<DevicePtr>, GpuError>)
    ensures
        match r {
            Ok(ptrs) => ptrs@.len() == sizes@.len() && ran(
                old(gpu).trace(),
                alloc_steps(sizes@, ptrs@),
                final(gpu).trace(),
                None,
            ),
            Err(e) => exists|ptrs: Seq<DevicePtr>|
                ptrs.len() == sizes@.len() && ran(
                    old(gpu).trace(),
                    #[trigger] alloc_steps(sizes@, ptrs),
                    final(gpu).trace(),
                    Some(e),
                ),
        },
{
    let mut ptrs: Vec<DevicePtr> = Vec::new();
    let ghost pre = gpu.trace();
    let mut i: usize = 0;
    assert(pre =~= pre + alloc_steps(sizes@, ptrs@).take(0));
    while i < sizes.len()
        invariant
            i <= sizes@.len(),
            pre == old(gpu).trace(),
            ptrs@.len() == i,
            gpu.trace() == pre + alloc_steps(sizes@, ptrs@).take(i as int),
        decreases sizes@.len() - i,
    {
        let ghost before = ptrs@;
        match gpu.allocate(sizes[i]) {
            Ok(p) => {
                ptrs.push(p);
                i += 1;
                proof {
                    let now = alloc_steps(sizes@, ptrs@);
                    assert(now.take(i as int) =~= alloc_steps(sizes@, before).take(i - 1).push(now[i - 1]));
                    assert(gpu.trace() =~= pre + now.take(i as int));
                }
            },
            Err(e) => {
                proof {
                    let padded = before + Seq::new((sizes@.len() - i) as nat, |j: int| DevicePtr(0));
                    let all = alloc_steps(sizes@, padded);
                    assert(all.take(i as int) =~= alloc_steps(sizes@, before).take(i as int));
                    assert(gpu.trace() =~= pre + stopped_at(all, i as int, e));
                    lemma_ran_stopped(pre, all, i as int, gpu.trace(), e);
                }
                return Err(e);
            },
        }
    }
    assert(alloc_steps(sizes@, ptrs@).take(i as int) =~= alloc_steps(sizes@, ptrs@));
    Ok(ptrs)
}

/// Uploads `data` to `dst` on a stream.
pub fn send<G: GpuBackend>(gpu: &mut G, data: &Vec<u8>, dst: DevicePtr, stream: u64) -> (r: Result<(), GpuError>)
    ensures
        ran(old(gpu).trace(), seq![send_step(data@, dst, stream)], final(gpu).trace(), refusal(r)),
{
    let ghost pre = gpu.trace();
    let r = gpu.copy_h2d_async(data.as_slice(), dst, stream);
    proof {
        lemma_ran_one(pre, send_step(data@, dst, stream), gpu.trace(), refusal(r));
    }
    r
}

/// The handles that a lookup of `kernels` came back with.
pub open spec fn lookup_steps(kernels: Seq<(Seq<char>, Seq<char>)>, handles: Seq<KernelHandle>) -> Seq<Event> {
    Seq::new(
        kernels.len(),
        |i: int|
            Event {
                cmd: Cmd::Kernel { module: kernels[i].0, func: kernels[i].1 },
                reply: Reply::Handle(handles[i]),
            },
    )
}

/// The names of a list of kernels.
pub open spec fn kernel_names(names: Seq<(&str, &str)>) -> Seq<(Seq<char>, Seq<char>)> {
    Seq::new(names.len(), |i: int| (names[i].0@, names[i].1@))
}

/// Looks kernels up by module and function, in order, and stops at the first
/// that the backend refuses.
pub fn lookup_kernels<G: GpuBackend>(gpu: &mut G, names: &Vec<(&str, &str)>) -> (r: Result<Vec<KernelHandle>, GpuError>)
    ensures
        match r {
            Ok(handles) => handles@.len() == names@.len() && final(gpu).trace() == old(gpu).trace()
                + lookup_steps(kernel_names(names@), handles@),
            Err(e) => exists|handles: Seq<KernelHandle>|
                ran(
                    old(gpu).trace(),
                    #[trigger] lookup_steps(kernel_names(names@), handles),
                    final(gpu).trace(),
                    Some(e),
                ),
        },
{
    let mut handles: Vec<KernelHandle> = Vec::new();
    let ghost pre = gpu.trace();
    let ghost kn = kernel_names(names@);
    let mut i: usize = 0;
    assert(pre =~= pre + lookup_steps(kn, handles@).take(0));
    while i < names.len()
        invariant
            i <= names@.len(),
            pre == old(gpu).trace(),
            kn == kernel_names(names@),
            handles@.len() == i,
            gpu.trace() == pre + lookup_steps(kn, handles@).take(i as int),
        decreases names@.len() - i,
    {
        let ghost before = handles@;
        match gpu.kernel(names[i].0, names[i].1) {
            Ok(h) => {
                handles.push(h);
                i += 1;
                proof {
                    assert(lookup_steps(kn, handles@).take(i as int) =~= lookup_steps(kn, before).take(i - 1).push(
                        lookup_steps(kn, handles@)[i - 1],
                    ));
                    assert(gpu.trace() =~= pre + lookup_steps(kn, handles@).take(i as int));
                }
            },
            Err(e) => {
                proof {
                    let steps = lookup_steps(kn, before);
                    assert(gpu.trace() =~= pre + stopped_at(steps, i as int, e));
                    lemma_ran_stopped(pre, steps, i as int, gpu.trace(), e);
                }
                return Err(e);
            },
        }
    }
    assert(lookup_steps(kn, handles@).take(i as int) =~= lookup_steps(kn, handles@));
    Ok(handles)
}

// ── carrying on a run ──
/// Runs further operations after a run of `sofar` that started from `pre`.
pub(crate) fn go_ops<G: GpuBackend>(
    gpu: &mut G,
    ops: &Vec<Op>,
    stream: u64,
    Ghost(pre): Ghost<Seq<Event>>,
    Ghost(sofar): Ghost<Seq<Event>>,
) -> (r: Result<(), GpuError>)
    requires
        ran(pre, sofar, old(gpu).trace(), None),
        all_fit(ops@),
    ensures
        ran(pre, sofar + steps(ops@, stream), final(gpu).trace(), refusal(r)),
        r is Err ==> final(gpu).trace().len() > old(gpu).trace().len(),
{
    let ghost mid = gpu.trace();
    let r = run_ops(gpu, ops, stream);
    proof {
        if let Err(e) = r {
            lemma_ran_len(mid, steps(ops@, stream), gpu.trace(), e);
        }
        lemma_ran_then(pre, sofar, mid, steps(ops@, stream), gpu.trace(), refusal(r));
    }
    r
}

/// Makes a call after a run of `sofar` that started from `pre`.
pub(crate) fn go_call<G: GpuBackend>(
    gpu: &mut G,
    call: Call,
    stream: u64,
    Ghost(pre): Ghost<Seq<Event>>,
    Ghost(sofar): Ghost<Seq<Event>>,
) -> (r: Result<DevicePtr, GpuError>)
    requires
        ran(pre, sofar, old(gpu).trace(), None),
    ensures
        match r {
            Ok(p) => ran(pre, sofar + seq![call_step(call, stream, p)], final(gpu).trace(), None),
            Err(e) => forall|p: DevicePtr|
                ran(pre, sofar + seq![#[trigger] call_step(call, stream, p)], final(gpu).trace(), Some(e)),
        },
        final(gpu).trace().len() == old(gpu).trace().len() + 1,
{
    let ghost mid = gpu.trace();
    let r = run_call(gpu, call, stream);
    proof {
        match r {
            Ok(p) => {
                assert(gpu.trace() =~= mid + seq![call_step(call, stream, p)]);
                lemma_ran_then(pre, sofar, mid, seq![call_step(call, stream, p)], gpu.trace(), None);
            },
            Err(e) => {
                let first = call_step(call, stream, DevicePtr(0));
                assert(ran(mid, seq![first], gpu.trace(), Some(e)));
                lemma_ran_len(mid, seq![first], gpu.trace(), e);
                assert forall|p: DevicePtr|
                    ran(pre, sofar + seq![#[trigger] call_step(call, stream, p)], gpu.trace(), Some(e)) by {
                    lemma_ran_then(pre, sofar, mid, seq![call_step(call, stream, p)], gpu.trace(), Some(e));
                }
            },
        }
    }
    r
}

/// Uploads after a run of `sofar` that started from `pre`.
pub(crate) fn go_send<G: GpuBackend>(
    gpu: &mut G,
    data: &Vec<u8>,
    dst: DevicePtr,
    stream: u64,
    Ghost(pre): Ghost<Seq<Event>>,
    Ghost(sofar): Ghost<Seq<Event>>,
) -> (r: Result<(), GpuError>)
    requires
        ran(pre, sofar, old(gpu).trace(), None),
    ensures
        ran(pre, sofar + seq![send_step(data@, dst, stream)], final(gpu).trace(), refusal(r)),
{
    let ghost mid = gpu.trace();
    let r = send(gpu, data, dst, stream);
    proof {
        lemma_ran_then(pre, sofar, mid, seq![send_step(data@, dst, stream)], gpu.trace(), refusal(r));
    }
    r
}

/// Reads back after a run of `sofar` that started from `pre`.
pub(crate) fn go_read<G: GpuBackend>(
    gpu: &mut G,
    src: DevicePtr,
    len: usize,
    Ghost(pre): Ghost<Seq<Event>>,
    Ghost(sofar): Ghost<Seq<Event>>,
) -> (r: Result<Vec<u8>, GpuError>)
    requires
        ran(pre, sofar, old(gpu).trace(), None),
    ensures
        match r {
            Ok(v) => v@.len() == len && ran(
                pre,
                sofar + seq![read_step(src, len as int, v@)],
                final(gpu).trace(),
                None,
            ),
            Err(e) => forall|data: Seq<u8>|
                ran(pre, sofar + seq![#[trigger] read_step(src, len as int, data)], final(gpu).trace(), Some(e)),
        },
{
    let ghost mid = gpu.trace();
    let r = read_back(gpu, src, len);
    proof {
        match &r {
            Ok(v) => {
                lemma_ran_then(pre, sofar, mid, seq![read_step(src, len as int, v@)], gpu.trace(), None);
            },
            Err(e0) => {
                let e = *e0;
                assert forall|data: Seq<u8>|
                    ran(pre, sofar + seq![#[trigger] read_step(src, len as int, data)], gpu.trace(), Some(e)) by {
                    lemma_ran_then(pre, sofar, mid, seq![read_step(src, len as int, data)], gpu.trace(), Some(e));
                }
            },
        }
    }
    r
}

/// A blocking upload of `data` to `dst`.
pub open spec fn put_step(data: Seq<u8>, dst: DevicePtr) -> Event {
    done(Cmd::H2d { data, dst })
}

/// Uploads, blocking, after a run of `sofar` that started from `pre`.
pub(crate) fn go_put<G: GpuBackend>(
    gpu: &mut G,
    data: &Vec<u8>,
    dst: DevicePtr,
    Ghost(pre): Ghost<Seq<Event>>,
    Ghost(sofar): Ghost<Seq<Event>>,
) -> (r: Result<(), GpuError>)
    requires
        ran(pre, sofar, old(gpu).trace(), None),
    ensures
        ran(pre, sofar + seq![put_step(data@, dst)], final(gpu).trace(), refusal(r)),
{
    let ghost mid = gpu.trace();
    let r = gpu.copy_h2d(data.as_slice(), dst);
    proof {
        lemma_ran_one(mid, put_step(data@, dst), gpu.trace(), refusal(r));
        lemma_ran_then(pre, sofar, mid, seq![put_step(data@, dst)], gpu.trace(), refusal(r));
    }
    r
}

/// Allocates after a run of `sofar` that started from `pre`.
pub(crate) fn go_alloc<G: GpuBackend>(
    gpu: &mut G,
    bytes: usize,
    Ghost(pre): Ghost<Seq<Event>>,
    Ghost(sofar): Ghost<Seq<Event>>,
) -> (r: Result<DevicePtr, GpuError>)
    requires
        ran(pre, sofar, old(gpu).trace(), None),
    ensures
        match r {
            Ok(p) => ran(pre, sofar + seq![alloc_step(bytes as int, p)], final(gpu).trace(), None),
            Err(e) => forall|p: DevicePtr|
                ran(pre, sofar + seq![#[trigger] alloc_step(bytes as int, p)], final(gpu).trace(), Some(e)),
        },
{
    let ghost mid = gpu.trace();
    let r = gpu.allocate(bytes);
    proof {
        match r {
            Ok(p) => {
                lemma_ran_one(mid, alloc_step(bytes as int, p), gpu.trace(), None);
                lemma_ran_then(pre, sofar, mid, seq![alloc_step(bytes as int, p)], gpu.trace(), None);
            },
            Err(e) => {
                assert forall|p: DevicePtr|
                    ran(pre, sofar + seq![#[trigger] alloc_step(bytes as int, p)], gpu.trace(), Some(e)) by {
                    lemma_ran_one(mid, alloc_step(bytes as int, p), gpu.trace(), Some(e));
                    lemma_ran_then(pre, sofar, mid, seq![alloc_step(bytes as int, p)], gpu.trace(), Some(e));
                }
            },
        }
    }
    r
}

/// Allocates buffers in order after a run of `sofar` that started from `pre`.
pub(crate) fn go_alloc_all<G: GpuBackend>(
    gpu: &mut G,
    sizes: &Vec<usize>,
    Ghost(pre): Ghost<Seq<Event>>,
    Ghost(sofar): Ghost<Seq<Event>>,
) -> (r: Result<Vec<DevicePtr>, GpuError>)
    requires
        ran(pre, sofar, old(gpu).trace(), None),
    ensures
        match r {
            Ok(ptrs) => ptrs@.len() == sizes@.len() && ran(
                pre,
                sofar + alloc_steps(sizes@, ptrs@),
                final(gpu).trace(),
                None,
            ),
            Err(e) => exists|ptrs: Seq<DevicePtr>|
                ptrs.len() == sizes@.len() && ran(
                    pre,
                    sofar + #[trigger] alloc_steps(sizes@, ptrs),
                    final(gpu).trace(),
                    Some(e),
                ),
        },
{
    let ghost mid = gpu.trace();
    let r = alloc_all(gpu, sizes);
    proof {
        match &r {
            Ok(ptrs) => {
                lemma_ran_then(pre, sofar, mid, alloc_steps(sizes@, ptrs@), gpu.trace(), None);
            },
            Err(e) => {
                let ptrs = choose|ptrs: Seq<DevicePtr>|
                    ptrs.len() == sizes@.len() && ran(mid, #[trigger] alloc_steps(sizes@, ptrs), gpu.trace(), Some(*e));
                lemma_ran_then(pre, sofar, mid, alloc_steps(sizes@, ptrs), gpu.trace(), Some(*e));
            },
        }
    }
    r
}

// ── layers ──
/// Work of a layer on the tables `t` that left `after` of them.
pub open spec fn layer_step(call: LayerCall, t: Tables, stream: u64, after: Left) -> Event {
    Event { cmd: Cmd::Layer { call, tables: t, stream }, reply: Reply::Left(after) }
}

/// The attention block of a layer on the tables `t`: it wrote its row to `out`
/// and left `after` of them.
pub open spec fn attend_step(call: AttendCall, t: Tables, stream: u64, out: DevicePtr, after: Left) -> Event {
    Event { cmd: Cmd::Attend { call, tables: t, stream }, reply: Reply::Attended { out, left: after } }
}

/// Runs a layer.
pub fn run_one_layer<G: GpuBackend>(
    gpu: &mut G,
    call: &LayerCall,
    blocks: &Vec<u32>,
    ids: &mut Vec<u32>,
    cursors: &mut Vec<u32>,
    stream: u64,
) -> (r: Result<(), GpuError>)
    ensures
        ran(
            old(gpu).trace(),
            seq![
                layer_step(
                    *call,
                    tables(blocks@, old(ids)@, old(cursors)@),
                    stream,
                    left(final(ids)@, final(cursors)@),
                ),
            ],
            final(gpu).trace(),
            refusal(r),
        ),
{
    let ghost pre = gpu.trace();
    let ghost t = tables(blocks@, ids@, cursors@);
    let r = gpu.run_layer(call, blocks, ids, cursors, stream);
    proof {
        lemma_ran_one(pre, layer_step(*call, t, stream, left(ids@, cursors@)), gpu.trace(), refusal(r));
    }
    r
}

/// Runs the attention block of a layer after a run of `sofar` that started from
/// `pre`.
pub(crate) fn go_attend<G: GpuBackend>(
    gpu: &mut G,
    call: &AttendCall,
    blocks: &Vec<u32>,
    ids: &mut Vec<u32>,
    cursors: &mut Vec<u32>,
    stream: u64,
    Ghost(pre): Ghost<Seq<Event>>,
    Ghost(sofar): Ghost<Seq<Event>>,
) -> (r: Result<DevicePtr, GpuError>)
    requires
        ran(pre, sofar, old(gpu).trace(), None),
    ensures
        match r {
            Ok(p) => ran(
                pre,
                sofar + seq![
                    attend_step(
                        *call,
                        tables(blocks@, old(ids)@, old(cursors)@),
                        stream,
                        p,
                        left(final(ids)@, final(cursors)@),
                    ),
                ],
                final(gpu).trace(),
                None,
            ),
            Err(e) => forall|p: DevicePtr|
                ran(
                    pre,
                    sofar + seq![
                        #[trigger] attend_step(
                            *call,
                            tables(blocks@, old(ids)@, old(cursors)@),
                            stream,
                            p,
                            left(final(ids)@, final(cursors)@),
                        ),
                    ],
                    final(gpu).trace(),
                    Some(e),
                ),
        },
        final(gpu).trace().len() == old(gpu).trace().len() + 1,
{
    let ghost mid = gpu.trace();
    let ghost t = tables(blocks@, ids@, cursors@);
    let r = gpu.attend(call, blocks, ids, cursors, stream);
    proof {
        match r {
            Ok(p) => {
                let step = attend_step(*call, t, stream, p, left(ids@, cursors@));
                lemma_ran_one(mid, step, gpu.trace(), None);
                lemma_ran_then(pre, sofar, mid, seq![step], gpu.trace(), None);
            },
            Err(e) => {
                let after = left(ids@, cursors@);
                assert forall|p: DevicePtr|
                    ran(pre, sofar + seq![#[trigger] attend_step(*call, t, stream, p, after)], gpu.trace(), Some(e)) by {
                    let step = attend_step(*call, t, stream, p, after);
                    lemma_ran_one(mid, step, gpu.trace(), Some(e));
                    lemma_ran_then(pre, sofar, mid, seq![step], gpu.trace(), Some(e));
                }
            },
        }
    }
    r
}

/// The scales of a layer's eight-bit cache, asked for.
pub open spec fn scales_step(layer: usize, s: Fp8Scales) -> Event {
    Event { cmd: Cmd::Fp8Scales { layer }, reply: Reply::Scales(s) }
}

/// The state of a layer that was made for a new sequence.
pub open spec fn state_step(kind: LayerKind, index: usize, state: LayerState) -> Event {
    Event { cmd: Cmd::AllocState { kind, index }, reply: Reply::State(state) }
}

} // verus!
