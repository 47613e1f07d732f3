//! The backend interface and the record of a run.
//!
//! Every backend keeps a *trace*: the sequence of commands it was given, each
//! with the reply it made. The contracts of the layers above state which
//! commands they issue, in which order, as what they append to that trace.

use vstd::prelude::*;

use crate::attention::{DsparkStage, StageRequest};
use crate::config::ForwardContext;
use crate::gpu::{DevicePtr, Fp8Scales, GpuError, KernelHandle};
use crate::kv_cache::KvCacheDtype;
use crate::op::{AttendCall, CacheId, Call, LayerCall, LayerKind, LayerState, Observation, Op};

verus! {

/// The tables of a sequence that a layer works with: its blocks, the ids of
/// those that the swap store has, and how far each layer has gone there.
#[verifier::ext_equal]
pub struct Tables {
    pub blocks: Seq<u32>,
    pub ids: Seq<u32>,
    pub cursors: Seq<u32>,
}

pub open spec fn tables(blocks: Seq<u32>, ids: Seq<u32>, cursors: Seq<u32>) -> Tables {
    Tables { blocks, ids, cursors }
}

/// What a layer leaves of the tables that it may write.
#[verifier::ext_equal]
pub struct Left {
    pub ids: Seq<u32>,
    pub cursors: Seq<u32>,
}

pub open spec fn left(ids: Seq<u32>, cursors: Seq<u32>) -> Left {
    Left { ids, cursors }
}

/// A command given to a backend.
#[allow(inconsistent_fields)]
#[verifier::ext_equal]
pub enum Cmd {
    Kernel { module: Seq<char>, func: Seq<char> },
    Alloc { bytes: usize },
    H2d { data: Seq<u8>, dst: DevicePtr },
    H2dAsync { data: Seq<u8>, dst: DevicePtr, stream: u64 },
    D2h { src: DevicePtr, len: usize },
    Launch {
        kernel: KernelHandle,
        grid: Seq<u32>,
        block: Seq<u32>,
        shared_mem: u32,
        stream: u64,
        params: Seq<u64>,
    },
    Op { op: Op, stream: u64 },
    Call { call: Call, stream: u64 },
    Assemble { request: StageRequest, kv_dtypes: Seq<KvCacheDtype> },
    SwapOut {
        layer: usize,
        cache: CacheId,
        tables: Tables,
        num_kv_heads: u32,
        head_dim: u32,
        block_size: usize,
        ctx: ForwardContext,
        stream: u64,
    },
    SwapAttend { layer: u32, ids: Seq<u32>, q: DevicePtr, out: DevicePtr, valid_slots: i32, stream: u64 },
    DecodeSequences {
        kind: LayerKind,
        index: usize,
        hidden: DevicePtr,
        residual: DevicePtr,
        num_seqs: usize,
        cache: CacheId,
        states: Seq<LayerState>,
        seq_lens: Seq<usize>,
        block_tables: Seq<Seq<u32>>,
        ctx: ForwardContext,
        stream: u64,
    },
    Layer { call: LayerCall, tables: Tables, stream: u64 },
    Attend { call: AttendCall, tables: Tables, stream: u64 },
    AllocState { kind: LayerKind, index: usize },
    Fp8Scales { layer: usize },
}

/// Block tables by their entries.
pub open spec fn tables_of(v: Seq<Vec<u32>>) -> Seq<Seq<u32>> {
    Seq::new(v.len(), |i: int| v[i]@)
}

/// What the backend answered.
#[verifier::ext_equal]
pub enum Reply {
    Done,
    Handle(KernelHandle),
    Ptr(DevicePtr),
    Data(Seq<u8>),
    Left(Left),
    Attended { out: DevicePtr, left: Left },
    State(LayerState),
    Stage(DsparkStage),
    Scales(Fp8Scales),
    Failed(GpuError),
    /// The command was refused, after it had left this of the tables.
    Stopped { error: GpuError, left: Left },
}

#[verifier::ext_equal]
pub struct Event {
    pub cmd: Cmd,
    pub reply: Reply,
}

/// The reply recorded for a command that answers only whether it was done.
pub open spec fn unit_reply(r: Result<(), GpuError>) -> Reply {
    match r {
        Ok(_) => Reply::Done,
        Err(e) => Reply::Failed(e),
    }
}

pub open spec fn handle_reply(r: Result<KernelHandle, GpuError>) -> Reply {
    match r {
        Ok(h) => Reply::Handle(h),
        Err(e) => Reply::Failed(e),
    }
}

pub open spec fn ptr_reply(r: Result<DevicePtr, GpuError>) -> Reply {
    match r {
        Ok(p) => Reply::Ptr(p),
        Err(e) => Reply::Failed(e),
    }
}

pub open spec fn data_reply(r: Result<Vec<u8>, GpuError>) -> Reply {
    match r {
        Ok(v) => Reply::Data(v@),
        Err(e) => Reply::Failed(e),
    }
}

pub open spec fn left_reply(r: Result<(), GpuError>, after: Left) -> Reply {
    match r {
        Ok(_) => Reply::Left(after),
        Err(e) => Reply::Stopped { error: e, left: after },
    }
}

pub open spec fn attended_reply(r: Result<DevicePtr, GpuError>, after: Left) -> Reply {
    match r {
        Ok(out) => Reply::Attended { out, left: after },
        Err(e) => Reply::Stopped { error: e, left: after },
    }
}

pub open spec fn state_reply(r: Result<LayerState, GpuError>) -> Reply {
    match r {
        Ok(s) => Reply::State(s),
        Err(e) => Reply::Failed(e),
    }
}

pub open spec fn stage_reply(r: Result<DsparkStage, GpuError>) -> Reply {
    match r {
        Ok(s) => Reply::Stage(s),
        Err(e) => Reply::Failed(e),
    }
}

/// A compute device: memory, copies, and the operations of the kernel library.
///
/// A backend is free in what it answers. What every backend owes is that its
/// trace records each command it was given and the answer it made.
pub trait GpuBackend: Sized {
    spec fn trace(&self) -> Seq<Event>;

    fn kernel(&mut self, module: &str, func: &str) -> (r: Result<KernelHandle, GpuError>)
        ensures
            final(self).trace() == old(self).trace().push(
                (Event { cmd: Cmd::Kernel { module: module@, func: func@ }, reply: handle_reply(r) }),
            ),
    ;

    fn allocate(&mut self, bytes: usize) -> (r: Result<DevicePtr, GpuError>)
        ensures
            final(self).trace() == old(self).trace().push(
                (Event { cmd: Cmd::Alloc { bytes }, reply: ptr_reply(r) }),
            ),
    ;

    fn copy_h2d(&mut self, data: &[u8], dst: DevicePtr) -> (r: Result<(), GpuError>)
        ensures
            final(self).trace() == old(self).trace().push(
                (Event { cmd: Cmd::H2d { data: data@, dst }, reply: unit_reply(r) }),
            ),
    ;

    fn copy_h2d_async(&mut self, data: &[u8], dst: DevicePtr, stream: u64) -> (r: Result<(), GpuError>)
        ensures
            final(self).trace() == old(self).trace().push(
                (Event { cmd: Cmd::H2dAsync { data: data@, dst, stream }, reply: unit_reply(r) }),
            ),
    ;

    fn copy_d2h(&mut self, src: DevicePtr, len: usize) -> (r: Result<Vec<u8>, GpuError>)
        ensures
            final(self).trace() == old(self).trace().push(
                (Event { cmd: Cmd::D2h { src, len }, reply: data_reply(r) }),
            ),
            r matches Ok(v) ==> v@.len() == len,
    ;

    fn launch(
        &mut self,
        kernel: KernelHandle,
        grid: [u32; 3],
        block: [u32; 3],
        shared_mem: u32,
        stream: u64,
        params: &Vec<u64>,
    ) -> (r: Result<(), GpuError>)
        ensures
            final(self).trace() == old(self).trace().push(
                (Event {
                    cmd: Cmd::Launch {
                        kernel,
                        grid: grid@,
                        block: block@,
                        shared_mem,
                        stream,
                        params: params@,
                    },
                    reply: unit_reply(r),
                }),
            ),
    ;

    /// Runs one operation of the kernel library.
    fn dispatch(&mut self, op: Op, stream: u64) -> (r: Result<(), GpuError>)
        ensures
            final(self).trace() == old(self).trace().push(
                (Event { cmd: Cmd::Op { op, stream }, reply: unit_reply(r) }),
            ),
    ;

    /// Looks at device memory for the log. Whatever comes of it, the run goes on.
    fn observe(&mut self, what: Observation, stream: u64)
        ensures
            final(self).trace() == old(self).trace().push(done(Cmd::Op { op: Op::Observe { what }, stream })),
    ;

    /// Runs one operation that answers with the buffer it wrote.
    fn call(&mut self, call: Call, stream: u64) -> (r: Result<DevicePtr, GpuError>)
        ensures
            final(self).trace() == old(self).trace().push(
                (Event { cmd: Cmd::Call { call, stream }, reply: ptr_reply(r) }),
            ),
    ;

    /// Assembles a draft stage from its loaded weights. `layer_kv_dtypes` are the
    /// cache dtypes of the target's layers.
    fn assemble(&mut self, request: StageRequest, layer_kv_dtypes: &[KvCacheDtype]) -> (r: Result<DsparkStage, GpuError>)
        ensures
            final(self).trace() == old(self).trace().push(
                (Event { cmd: Cmd::Assemble { request, kv_dtypes: layer_kv_dtypes@ }, reply: stage_reply(r) }),
            ),
    ;

    /// Streams the blocks of a sequence that are new to the swap store out to
    /// it, and brings the ids of its blocks there and the cursors of its layers
    /// up to date. Where it is refused, it may have done so in part.
    fn swap_out(
        &mut self,
        layer: usize,
        cache: CacheId,
        blocks: &Vec<u32>,
        ids: &mut Vec<u32>,
        cursors: &mut Vec<u32>,
        num_kv_heads: u32,
        head_dim: u32,
        block_size: usize,
        ctx: &ForwardContext,
        stream: u64,
    ) -> (r: Result<(), GpuError>)
        ensures
            final(self).trace() == old(self).trace().push(
                (Event {
                    cmd: Cmd::SwapOut {
                        layer,
                        cache,
                        tables: tables(blocks@, old(ids)@, old(cursors)@),
                        num_kv_heads,
                        head_dim,
                        block_size,
                        ctx: *ctx,
                        stream,
                    },
                    reply: left_reply(r, left(final(ids)@, final(cursors)@)),
                }),
            ),
    ;

    /// Attends one query row over blocks of the swap store.
    fn swap_attend(
        &mut self,
        layer: u32,
        ids: &[u32],
        q: DevicePtr,
        out: DevicePtr,
        valid_slots: i32,
        stream: u64,
    ) -> (r: Result<(), GpuError>)
        ensures
            final(self).trace() == old(self).trace().push(
                (Event {
                    cmd: Cmd::SwapAttend { layer, ids: ids@, q, out, valid_slots, stream },
                    reply: unit_reply(r),
                }),
            ),
    ;

    /// Decodes one row of each of several sequences through a layer.
    fn decode_sequences(
        &mut self,
        kind: LayerKind,
        index: usize,
        hidden: DevicePtr,
        residual: DevicePtr,
        num_seqs: usize,
        cache: CacheId,
        states: &[LayerState],
        seq_lens: &[usize],
        block_tables: &[Vec<u32>],
        ctx: &ForwardContext,
        stream: u64,
    ) -> (r: Result<(), GpuError>)
        ensures
            final(self).trace() == old(self).trace().push(
                (Event {
                    cmd: Cmd::DecodeSequences {
                        kind,
                        index,
                        hidden,
                        residual,
                        num_seqs,
                        cache,
                        states: states@,
                        seq_lens: seq_lens@,
                        block_tables: tables_of(block_tables@),
                        ctx: *ctx,
                        stream,
                    },
                    reply: unit_reply(r),
                }),
            ),
    ;

    /// Runs a whole layer over rows of one sequence. The layer reads the block
    /// table and brings the swap store's side of the tables up to date. Where it
    /// is refused, it may have done so all the same.
    fn run_layer(
        &mut self,
        call: &LayerCall,
        blocks: &Vec<u32>,
        ids: &mut Vec<u32>,
        cursors: &mut Vec<u32>,
        stream: u64,
    ) -> (r: Result<(), GpuError>)
        ensures
            final(self).trace() == old(self).trace().push(
                (Event {
                    cmd: Cmd::Layer { call: *call, tables: tables(blocks@, old(ids)@, old(cursors)@), stream },
                    reply: left_reply(r, left(final(ids)@, final(cursors)@)),
                }),
            ),
    ;

    /// Runs the attention block of a layer, which answers with the row it wrote.
    /// Where it is refused, it may have written the tables all the same.
    fn attend(
        &mut self,
        call: &AttendCall,
        blocks: &Vec<u32>,
        ids: &mut Vec<u32>,
        cursors: &mut Vec<u32>,
        stream: u64,
    ) -> (r: Result<DevicePtr, GpuError>)
        ensures
            final(self).trace() == old(self).trace().push(
                (Event {
                    cmd: Cmd::Attend { call: *call, tables: tables(blocks@, old(ids)@, old(cursors)@), stream },
                    reply: attended_reply(r, left(final(ids)@, final(cursors)@)),
                }),
            ),
    ;

    /// Makes the state that a layer keeps for a new sequence.
    fn alloc_layer_state(&mut self, kind: LayerKind, index: usize) -> (r: Result<LayerState, GpuError>)
        ensures
            final(self).trace() == old(self).trace().push(
                (Event { cmd: Cmd::AllocState { kind, index }, reply: state_reply(r) }),
            ),
    ;

    /// The scales that a layer's eight-bit cache has now. Rows that were observed
    /// before may have changed them.
    fn effective_fp8_scales(&mut self, layer: usize) -> (r: Fp8Scales)
        ensures
            final(self).trace() == old(self).trace().push(
                (Event { cmd: Cmd::Fp8Scales { layer }, reply: Reply::Scales(r) }),
            ),
    ;
}

/// A step that was carried out.
pub open spec fn done(cmd: Cmd) -> Event {
    Event { cmd, reply: Reply::Done }
}

/// The same step, had the backend refused it. A step that writes tables leaves
/// the same of them.
pub open spec fn failed(step: Event, e: GpuError) -> Event {
    Event {
        cmd: step.cmd,
        reply: match step.reply {
            Reply::Left(left) => Reply::Stopped { error: e, left },
            Reply::Attended { left, .. } => Reply::Stopped { error: e, left },
            _ => Reply::Failed(e),
        },
    }
}

/// `steps` carried out as far as step `k`, which was refused.
pub open spec fn stopped_at(steps: Seq<Event>, k: int, e: GpuError) -> Seq<Event> {
    steps.take(k).push(failed(steps[k], e))
}

/// The trace grew from `pre` to `post` by running `steps` in order: all of them
/// when nothing was refused, else those up to and with the first refused one.
pub open spec fn ran(
    pre: Seq<Event>,
    steps: Seq<Event>,
    post: Seq<Event>,
    refused: Option<GpuError>,
) -> bool {
    match refused {
        None => post =~= pre + steps,
        Some(e) => exists|k: int| #[trigger] stops(pre, steps, post, k, e),
    }
}

/// The run of `steps` stopped at step `k`.
pub open spec fn stops(pre: Seq<Event>, steps: Seq<Event>, post: Seq<Event>, k: int, e: GpuError) -> bool {
    0 <= k < steps.len() && post =~= pre + stopped_at(steps, k, e)
}

/// What a result that can only fail by the backend says of refusal.
pub open spec fn refusal<T>(r: Result<T, GpuError>) -> Option<GpuError> {
    match r {
        Ok(_) => None,
        Err(e) => Some(e),
    }
}

/// A run that completed, followed by another run, is one run of both.
pub proof fn lemma_ran_then(
    pre: Seq<Event>,
    a: Seq<Event>,
    mid: Seq<Event>,
    b: Seq<Event>,
    post: Seq<Event>,
    refused: Option<GpuError>,
)
    requires
        ran(pre, a, mid, None),
        ran(mid, b, post, refused),
    ensures
        ran(pre, a + b, post, refused),
{
    match refused {
        None => {
            assert(post =~= pre + (a + b));
        },
        Some(e) => {
            let k = choose|k: int| #[trigger] stops(mid, b, post, k, e);
            let j = a.len() + k;
            assert((a + b).take(j) =~= a + b.take(k));
            assert(stops(pre, a + b, post, j, e));
        },
    }
}

/// A run that was refused part-way is also a part of any longer run.
pub proof fn lemma_ran_cut(
    pre: Seq<Event>,
    a: Seq<Event>,
    b: Seq<Event>,
    post: Seq<Event>,
    e: GpuError,
)
    requires
        ran(pre, a, post, Some(e)),
    ensures
        ran(pre, a + b, post, Some(e)),
{
    let k = choose|k: int| #[trigger] stops(pre, a, post, k, e);
    assert((a + b).take(k) =~= a.take(k));
    assert(stops(pre, a + b, post, k, e));
}

/// A run that completed, followed by the next part of a program: where that part
/// was refused, so was the whole program, whatever was still to come.
pub proof fn lemma_ran_next(
    pre: Seq<Event>,
    a: Seq<Event>,
    mid: Seq<Event>,
    b: Seq<Event>,
    rest: Seq<Event>,
    post: Seq<Event>,
    refused: Option<GpuError>,
)
    requires
        ran(pre, a, mid, None),
        ran(mid, b, post, refused),
    ensures
        ran(pre, a + b, post, refused),
        refused is Some ==> ran(pre, a + b + rest, post, refused),
        refused is Some ==> ran(pre, a + (b + rest), post, refused),
{
    lemma_ran_then(pre, a, mid, b, post, refused);
    if let Some(e) = refused {
        lemma_ran_cut(pre, a + b, rest, post, e);
        assert(a + b + rest =~= a + (b + rest));
    }
}

/// A run that was refused is also a run of any program that starts the same way.
pub proof fn lemma_ran_prefix(pre: Seq<Event>, a: Seq<Event>, all: Seq<Event>, post: Seq<Event>, e: GpuError)
    requires
        ran(pre, a, post, Some(e)),
        a.len() <= all.len(),
        all.take(a.len() as int) == a,
    ensures
        ran(pre, all, post, Some(e)),
{
    let rest = all.skip(a.len() as int);
    assert(all =~= a + rest);
    lemma_ran_cut(pre, a, rest, post, e);
}

/// A refused run leaves at least one command in the trace, and at most all.
pub proof fn lemma_ran_len(pre: Seq<Event>, steps: Seq<Event>, post: Seq<Event>, e: GpuError)
    requires
        ran(pre, steps, post, Some(e)),
    ensures
        pre.len() < post.len() <= pre.len() + steps.len(),
{
    let k = choose|k: int| #[trigger] stops(pre, steps, post, k, e);
    assert(steps.take(k).len() == k);
}

/// Stopping at step `k` is a run that was refused.
pub proof fn lemma_ran_stopped(pre: Seq<Event>, steps: Seq<Event>, k: int, post: Seq<Event>, e: GpuError)
    requires
        0 <= k < steps.len(),
        post == pre + stopped_at(steps, k, e),
    ensures
        ran(pre, steps, post, Some(e)),
{
    let refused = Some(e);
    assert(stops(pre, steps, post, k, refused->0));
    assert(ran(pre, steps, post, refused));
}

/// One step is a run.
pub proof fn lemma_ran_one(pre: Seq<Event>, step: Event, post: Seq<Event>, refused: Option<GpuError>)
    requires
        refused is None ==> post == pre.push(step),
        refused matches Some(e) ==> post == pre.push(failed(step, e)),
    ensures
        ran(pre, seq![step], post, refused),
{
    match refused {
        None => {
            assert(post =~= pre + seq![step]);
        },
        Some(e) => {
            assert(seq![step].take(0) =~= Seq::empty());
            assert(stops(pre, seq![step], post, 0, e));
        },
    }
}

} // verus!
