//! Stand-ins for the device and for the services around the library.
//!
//! Each records what it was asked, and answers from a script that its fields
//! hold. They serve where there is no device: in tests and in dry runs.

use vstd::prelude::*;

use crate::attention::{DsparkStage, HcWeights, MlaWeights, StageRequest};
use crate::block_mgmt::{BlockEvent, BlockServices, EvictedBlocks};
use crate::config::ForwardContext;
use crate::gpu::{DevicePtr, F32Bits, Fp8Scales, GpuError, KernelHandle};
use crate::json::{Json, JsonView};
use crate::kv_cache::KvCacheDtype;
use crate::op::{AttendCall, CacheId, Call, EmptyLayerState, LayerCall, LayerKind, LayerState, Observation, Op};
use crate::tool_grammar::{tag_views, texts_of, CompileEvent, GrammarError, TagCompiler, TagContent, TagEntry};
use crate::tool_stream::{problem_text, ToolCall, ToolEvent, ToolServices};
use crate::trace::{
    attended_reply, data_reply, done, handle_reply, left, left_reply, ptr_reply, stage_reply, state_reply, tables, tables_of,
    unit_reply, Cmd, Event, GpuBackend, Reply,
};
use crate::verify_pipeline::{SeqEvent, VerifySequence};

verus! {

// ── device ──
/// A command as it was given.
#[allow(inconsistent_fields)]
#[derive(PartialEq, Debug)]
pub enum Command {
    Kernel { module: String, func: String },
    Alloc { bytes: usize },
    H2d { data: Vec<u8>, dst: DevicePtr },
    H2dAsync { data: Vec<u8>, dst: DevicePtr, stream: u64 },
    D2h { src: DevicePtr, len: usize },
    Launch { kernel: KernelHandle, grid: [u32; 3], block: [u32; 3], shared_mem: u32, stream: u64, params: Vec<u64> },
    Op { op: Op, stream: u64 },
    Call { call: Call, stream: u64 },
    Assemble { request: StageRequest },
    SwapOut { layer: usize, cache: CacheId, blocks: Vec<u32>, ids: Vec<u32>, cursors: Vec<u32> },
    SwapAttend { layer: u32, ids: Vec<u32>, valid_slots: i32 },
    DecodeSequences { kind: LayerKind, index: usize, num_seqs: usize, seq_lens: Vec<usize>, block_tables: Vec<Vec<u32>> },
    Layer { call: LayerCall, blocks: Vec<u32>, ids: Vec<u32>, cursors: Vec<u32>, stream: u64 },
    Attend { call: AttendCall, blocks: Vec<u32>, ids: Vec<u32>, cursors: Vec<u32>, stream: u64 },
    AllocState { kind: LayerKind, index: usize },
    Fp8Scales { layer: usize },
}

/// How many of the commands launch a kernel.
pub open spec fn launches(cs: Seq<Command>) -> nat
    decreases cs.len(),
{
    if cs.len() == 0 {
        0
    } else {
        launches(cs.drop_last()) + if cs.last() is Launch { 1nat } else { 0nat }
    }
}

/// A device that runs nothing.
pub struct MockGpuBackend {
    /// What was asked and answered.
    pub log: Ghost<Seq<Event>>,
    /// The commands so far.
    pub commands: Vec<Command>,
    /// What reads come back with, in order. A read past the end of the script
    /// comes back with zeros, and a scripted reply is cut or filled up to length.
    pub reads: Vec<Vec<u8>>,
    /// Replies used so far.
    pub reads_done: usize,
    /// The command to refuse, counted from 0.
    pub refuse_at: Option<usize>,
    /// A refused layer has written its tables all the same.
    pub writes_before_refusal: bool,
    /// The address or handle that is given out next.
    pub next: u64,
    /// What assembled stages have.
    pub stage_hc: Option<HcWeights>,
    pub stage_mla: Option<MlaWeights>,
    /// What layers keep for a new sequence.
    pub layer_state: LayerState,
    /// The scales of eight-bit caches.
    pub fp8_scales: Fp8Scales,
}

fn copy_words(s: &[u32]) -> (r: Vec<u32>)
    ensures
        r@ == s@,
{
    let mut r: Vec<u32> = Vec::new();
    let mut i: usize = 0;
    while i < s.len()
        invariant
            i <= s@.len(),
            r@ == s@.take(i as int),
        decreases s@.len() - i,
    {
        r.push(s[i]);
        i += 1;
        assert(r@ =~= s@.take(i as int));
    }
    assert(r@ =~= s@);
    r
}

/// Every block goes to the swap store, under its own number, and one more layer
/// has gone there.
fn take_out(blocks: &Vec<u32>, ids: &mut Vec<u32>, cursors: &mut Vec<u32>) {
    *ids = copy_words(blocks.as_slice());
    cursors.push(blocks.len() as u32);
}

fn copy_lens(s: &[usize]) -> (r: Vec<usize>)
    ensures
        r@ == s@,
{
    let mut r: Vec<usize> = Vec::new();
    let mut i: usize = 0;
    while i < s.len()
        invariant
            i <= s@.len(),
            r@ == s@.take(i as int),
        decreases s@.len() - i,
    {
        r.push(s[i]);
        i += 1;
        assert(r@ =~= s@.take(i as int));
    }
    assert(r@ =~= s@);
    r
}

fn copy_tables(s: &[Vec<u32>]) -> (r: Vec<Vec<u32>>)
    ensures
        tables_of(r@) == tables_of(s@),
{
    let mut r: Vec<Vec<u32>> = Vec::new();
    let mut i: usize = 0;
    while i < s.len()
        invariant
            i <= s@.len(),
            tables_of(r@) == tables_of(s@).take(i as int),
        decreases s@.len() - i,
    {
        let ghost before = r@;
        r.push(copy_words(s[i].as_slice()));
        i += 1;
        proof {
            assert(tables_of(r@) =~= tables_of(before).push(s@[i - 1]@));
            assert(tables_of(r@) =~= tables_of(s@).take(i as int));
        }
    }
    assert(tables_of(r@) =~= tables_of(s@));
    r
}

fn copy_bytes(s: &[u8]) -> (r: Vec<u8>)
    ensures
        r@ == s@,
{
    let mut r: Vec<u8> = Vec::new();
    let mut i: usize = 0;
    while i < s.len()
        invariant
            i <= s@.len(),
            r@ == s@.take(i as int),
        decreases s@.len() - i,
    {
        r.push(s[i]);
        i += 1;
        assert(r@ =~= s@.take(i as int));
    }
    assert(r@ =~= s@);
    r
}

/// `len` bytes of a reply, filled up with zeros.
pub open spec fn sized(data: Seq<u8>, len: nat) -> Seq<u8> {
    Seq::new(len, |i: int| if i < data.len() { data[i] } else { 0u8 })
}

fn make_sized(data: &[u8], len: usize) -> (r: Vec<u8>)
    ensures
        r@ == sized(data@, len as nat),
{
    let mut r: Vec<u8> = Vec::new();
    let mut i: usize = 0;
    while i < len
        invariant
            i <= len,
            r@ == sized(data@, len as nat).take(i as int),
        decreases len - i,
    {
        r.push(if i < data.len() { data[i] } else { 0 });
        i += 1;
        assert(r@ =~= sized(data@, len as nat).take(i as int));
    }
    assert(r@ =~= sized(data@, len as nat));
    r
}

impl MockGpuBackend {
    pub fn new() -> (r: MockGpuBackend)
        ensures
            r.trace() == Seq::<Event>::empty(),
            r.commands@.len() == 0,
            r.reads@.len() == 0,
            r.refuse_at is None,
            !r.writes_before_refusal,
    {
        MockGpuBackend {
            log: Ghost(Seq::empty()),
            commands: Vec::new(),
            reads: Vec::new(),
            reads_done: 0,
            refuse_at: None,
            writes_before_refusal: false,
            next: 0x1000,
            stage_hc: None,
            stage_mla: None,
            layer_state: LayerState::Empty(EmptyLayerState),
            fp8_scales: Fp8Scales { k: F32Bits(0x3f80_0000), v: F32Bits(0x3f80_0000) },
        }
    }

    /// Commands so far.
    pub fn command_count(&self) -> (r: usize)
        ensures
            r == self.commands@.len(),
    {
        self.commands.len()
    }

    /// Launches among the commands so far.
    pub fn launch_count(&self) -> (r: usize)
        ensures
            r == launches(self.commands@),
    {
        let mut n: usize = 0;
        let mut i: usize = 0;
        let total: usize = self.commands.len();
        assert(self.commands@.take(0) =~= Seq::empty());
        while i < total
            invariant
                i <= total,
                total == self.commands@.len(),
                n <= i,
                n == launches(self.commands@.take(i as int)),
            decreases total - i,
        {
            if let Command::Launch { .. } = &self.commands[i] {
                n += 1;
            }
            i += 1;
            proof {
                let now = self.commands@.take(i as int);
                assert(now.drop_last() =~= self.commands@.take(i - 1));
                assert(now.last() == self.commands@[i - 1]);
            }
        }
        assert(self.commands@.take(i as int) =~= self.commands@);
        n
    }

    fn take_next(&mut self) -> (r: u64)
        ensures
            r == old(self).next,
            final(self).log == old(self).log,
            final(self).commands == old(self).commands,
            final(self).refuse_at == old(self).refuse_at,
    {
        let n: u64 = self.next;
        self.next = n.wrapping_add(0x1000);
        n
    }

    /// Takes note of a command. Says whether it is to be refused.
    fn note(&mut self, c: Command) -> (r: Option<GpuError>)
        ensures
            final(self).log == old(self).log,
            final(self).next == old(self).next,
            final(self).reads == old(self).reads,
            final(self).reads_done == old(self).reads_done,
            final(self).stage_hc == old(self).stage_hc,
            final(self).stage_mla == old(self).stage_mla,
            final(self).layer_state == old(self).layer_state,
            final(self).fp8_scales == old(self).fp8_scales,
            final(self).refuse_at == old(self).refuse_at,
            final(self).writes_before_refusal == old(self).writes_before_refusal,
            final(self).commands@ == old(self).commands@.push(c),
            (r is Some) == (old(self).refuse_at == Some(old(self).commands@.len() as usize)),
    {
        let n: usize = self.commands.len();
        self.commands.push(c);
        match self.refuse_at {
            Some(k) => if k == n {
                Some(GpuError { code: 1 })
            } else {
                None
            },
            None => None,
        }
    }
}

impl GpuBackend for MockGpuBackend {
    open spec fn trace(&self) -> Seq<Event> {
        self.log@
    }

    fn kernel(&mut self, module: &str, func: &str) -> (r: Result<KernelHandle, GpuError>) {
        let c = Command::Kernel { module: module.to_owned(), func: func.to_owned() };
        let r = match self.note(c) {
            Some(e) => Err(e),
            None => Ok(KernelHandle(self.take_next())),
        };
        proof {
            self.log@ = self.log@.push(
                Event { cmd: Cmd::Kernel { module: module@, func: func@ }, reply: handle_reply(r) },
            );
        }
        r
    }

    fn allocate(&mut self, bytes: usize) -> (r: Result<DevicePtr, GpuError>) {
        let r = match self.note(Command::Alloc { bytes }) {
            Some(e) => Err(e),
            None => Ok(DevicePtr(self.take_next())),
        };
        proof {
            self.log@ = self.log@.push(Event { cmd: Cmd::Alloc { bytes }, reply: ptr_reply(r) });
        }
        r
    }

    fn copy_h2d(&mut self, data: &[u8], dst: DevicePtr) -> (r: Result<(), GpuError>) {
        let r = match self.note(Command::H2d { data: copy_bytes(data), dst }) {
            Some(e) => Err(e),
            None => Ok(()),
        };
        proof {
            self.log@ = self.log@.push(Event { cmd: Cmd::H2d { data: data@, dst }, reply: unit_reply(r) });
        }
        r
    }

    fn copy_h2d_async(&mut self, data: &[u8], dst: DevicePtr, stream: u64) -> (r: Result<(), GpuError>) {
        let r = match self.note(Command::H2dAsync { data: copy_bytes(data), dst, stream }) {
            Some(e) => Err(e),
            None => Ok(()),
        };
        proof {
            self.log@ = self.log@.push(
                Event { cmd: Cmd::H2dAsync { data: data@, dst, stream }, reply: unit_reply(r) },
            );
        }
        r
    }

    fn copy_d2h(&mut self, src: DevicePtr, len: usize) -> (r: Result<Vec<u8>, GpuError>) {
        let r = match self.note(Command::D2h { src, len }) {
            Some(e) => Err(e),
            None => {
                let k: usize = self.reads_done;
                if k < self.reads.len() {
                    self.reads_done = k + 1;
                    Ok(make_sized(self.reads[k].as_slice(), len))
                } else {
                    let none: Vec<u8> = Vec::new();
                    Ok(make_sized(none.as_slice(), len))
                }
            },
        };
        proof {
            self.log@ = self.log@.push(Event { cmd: Cmd::D2h { src, len }, reply: data_reply(r) });
        }
        r
    }

    fn launch(
        &mut self,
        kernel: KernelHandle,
        grid: [u32; 3],
        block: [u32; 3],
        shared_mem: u32,
        stream: u64,
        params: &Vec<u64>,
    ) -> (r: Result<(), GpuError>) {
        let mut copy: Vec<u64> = Vec::new();
        let mut i: usize = 0;
        while i < params.len()
            invariant
                i <= params@.len(),
            decreases params@.len() - i,
        {
            copy.push(params[i]);
            i += 1;
        }
        let r = match self.note(Command::Launch { kernel, grid, block, shared_mem, stream, params: copy }) {
            Some(e) => Err(e),
            None => Ok(()),
        };
        proof {
            self.log@ = self.log@.push(
                Event {
                    cmd: Cmd::Launch { kernel, grid: grid@, block: block@, shared_mem, stream, params: params@ },
                    reply: unit_reply(r),
                },
            );
        }
        r
    }

    fn dispatch(&mut self, op: Op, stream: u64) -> (r: Result<(), GpuError>) {
        let r = match self.note(Command::Op { op, stream }) {
            Some(e) => Err(e),
            None => Ok(()),
        };
        proof {
            self.log@ = self.log@.push(Event { cmd: Cmd::Op { op, stream }, reply: unit_reply(r) });
        }
        r
    }

    fn observe(&mut self, what: Observation, stream: u64) {
        self.commands.push(Command::Op { op: Op::Observe { what }, stream });
        proof {
            self.log@ = self.log@.push(done(Cmd::Op { op: Op::Observe { what }, stream }));
        }
    }

    fn call(&mut self, call: Call, stream: u64) -> (r: Result<DevicePtr, GpuError>) {
        let r = match self.note(Command::Call { call, stream }) {
            Some(e) => Err(e),
            None => Ok(DevicePtr(self.take_next())),
        };
        proof {
            self.log@ = self.log@.push(Event { cmd: Cmd::Call { call, stream }, reply: ptr_reply(r) });
        }
        r
    }

    fn assemble(&mut self, request: StageRequest, layer_kv_dtypes: &[KvCacheDtype]) -> (r: Result<DsparkStage, GpuError>) {
        let r = match self.note(Command::Assemble { request }) {
            Some(e) => Err(e),
            None => Ok(
                DsparkStage {
                    attn_norm: request.attn_norm,
                    ffn_norm: request.ffn_norm,
                    hc: self.stage_hc,
                    mla: self.stage_mla,
                },
            ),
        };
        proof {
            self.log@ = self.log@.push(
                Event { cmd: Cmd::Assemble { request, kv_dtypes: layer_kv_dtypes@ }, reply: stage_reply(r) },
            );
        }
        r
    }

    fn swap_out(
        &mut self,
        layer: usize,
        cache: CacheId,
        blocks: &Vec<u32>,
        ids: &mut Vec<u32>,
        cursors: &mut Vec<u32>,
        num_kv_heads: u32,
        head_dim: u32,
        block_size: usize,
        ctx: &ForwardContext,
        stream: u64,
    ) -> (r: Result<(), GpuError>) {
        let ghost before = tables(blocks@, ids@, cursors@);
        let c = Command::SwapOut {
            layer,
            cache,
            blocks: copy_words(blocks.as_slice()),
            ids: copy_words(ids.as_slice()),
            cursors: copy_words(cursors.as_slice()),
        };
        let r = match self.note(c) {
            Some(e) => {
                if self.writes_before_refusal {
                    take_out(blocks, ids, cursors);
                }
                Err(e)
            },
            None => {
                take_out(blocks, ids, cursors);
                Ok(())
            },
        };
        proof {
            self.log@ = self.log@.push(
                Event {
                    cmd: Cmd::SwapOut {
                        layer,
                        cache,
                        tables: before,
                        num_kv_heads,
                        head_dim,
                        block_size,
                        ctx: *ctx,
                        stream,
                    },
                    reply: left_reply(r, left(ids@, cursors@)),
                },
            );
        }
        r
    }

    fn swap_attend(
        &mut self,
        layer: u32,
        ids: &[u32],
        q: DevicePtr,
        out: DevicePtr,
        valid_slots: i32,
        stream: u64,
    ) -> (r: Result<(), GpuError>) {
        let r = match self.note(Command::SwapAttend { layer, ids: copy_words(ids), valid_slots }) {
            Some(e) => Err(e),
            None => Ok(()),
        };
        proof {
            self.log@ = self.log@.push(
                Event { cmd: Cmd::SwapAttend { layer, ids: ids@, q, out, valid_slots, stream }, reply: unit_reply(r) },
            );
        }
        r
    }

    fn decode_sequences(
        &mut self,
        kind: LayerKind,
        index: usize,
        hidden: DevicePtr,
        residual: DevicePtr,
        num_seqs: usize,
        cache: CacheId,
        states: &[LayerState],
        seq_lens: &[usize],
        block_tables: &[Vec<u32>],
        ctx: &ForwardContext,
        stream: u64,
    ) -> (r: Result<(), GpuError>) {
        let command = Command::DecodeSequences {
            kind,
            index,
            num_seqs,
            seq_lens: copy_lens(seq_lens),
            block_tables: copy_tables(block_tables),
        };
        let r = match self.note(command) {
            Some(e) => Err(e),
            None => Ok(()),
        };
        proof {
            self.log@ = self.log@.push(
                Event {
                    cmd: Cmd::DecodeSequences {
                        kind,
                        index,
                        hidden,
                        residual,
                        num_seqs,
                        cache,
                        states: states@,
                        seq_lens: seq_lens@,
                        block_tables: tables_of(block_tables@),
                        ctx: *ctx,
                        stream,
                    },
                    reply: unit_reply(r),
                },
            );
        }
        r
    }

    fn run_layer(
        &mut self,
        call: &LayerCall,
        blocks: &Vec<u32>,
        ids: &mut Vec<u32>,
        cursors: &mut Vec<u32>,
        stream: u64,
    ) -> (r: Result<(), GpuError>) {
        let ghost before = tables(blocks@, ids@, cursors@);
        let c = Command::Layer {
            call: *call,
            blocks: copy_words(blocks.as_slice()),
            ids: copy_words(ids.as_slice()),
            cursors: copy_words(cursors.as_slice()),
            stream,
        };
        let r = match self.note(c) {
            Some(e) => {
                if self.writes_before_refusal {
                    take_out(blocks, ids, cursors);
                }
                Err(e)
            },
            None => {
                take_out(blocks, ids, cursors);
                Ok(())
            },
        };
        proof {
            self.log@ = self.log@.push(
                Event {
                    cmd: Cmd::Layer { call: *call, tables: before, stream },
                    reply: left_reply(r, left(ids@, cursors@)),
                },
            );
        }
        r
    }

    fn attend(
        &mut self,
        call: &AttendCall,
        blocks: &Vec<u32>,
        ids: &mut Vec<u32>,
        cursors: &mut Vec<u32>,
        stream: u64,
    ) -> (r: Result<DevicePtr, GpuError>) {
        let ghost before = tables(blocks@, ids@, cursors@);
        let c = Command::Attend {
            call: *call,
            blocks: copy_words(blocks.as_slice()),
            ids: copy_words(ids.as_slice()),
            cursors: copy_words(cursors.as_slice()),
            stream,
        };
        let r = match self.note(c) {
            Some(e) => {
                if self.writes_before_refusal {
                    take_out(blocks, ids, cursors);
                }
                Err(e)
            },
            None => {
                take_out(blocks, ids, cursors);
                Ok(DevicePtr(self.take_next()))
            },
        };
        proof {
            self.log@ = self.log@.push(
                Event {
                    cmd: Cmd::Attend { call: *call, tables: before, stream },
                    reply: attended_reply(r, left(ids@, cursors@)),
                },
            );
        }
        r
    }

    fn alloc_layer_state(&mut self, kind: LayerKind, index: usize) -> (r: Result<LayerState, GpuError>) {
        let r = match self.note(Command::AllocState { kind, index }) {
            Some(e) => Err(e),
            None => Ok(self.layer_state),
        };
        proof {
            self.log@ = self.log@.push(Event { cmd: Cmd::AllocState { kind, index }, reply: state_reply(r) });
        }
        r
    }

    fn effective_fp8_scales(&mut self, layer: usize) -> (r: Fp8Scales) {
        let _ = self.note(Command::Fp8Scales { layer });
        let r = self.fp8_scales;
        proof {
            self.log@ = self.log@.push(Event { cmd: Cmd::Fp8Scales { layer }, reply: Reply::Scales(r) });
        }
        r
    }
}

// ── blocks ──
/// A prefix cache and a swap store that answer from a script.
pub struct MockBlockServices {
    /// What was asked and answered.
    pub log: Ghost<Seq<BlockEvent>>,
    pub has_store: bool,
    /// What evictions give up, last entry first; nothing once it is used up.
    pub evictions: Vec<EvictedBlocks>,
    /// Ids that the swap store has left, last entry first.
    pub disk_ids: Vec<u32>,
    /// Holders added, in order.
    pub incremented: Vec<u32>,
    /// Holders taken away, in order.
    pub decremented: Vec<u32>,
}

impl MockBlockServices {
    pub fn new(has_store: bool) -> (r: MockBlockServices)
        ensures
            r.trace() == Seq::<BlockEvent>::empty(),
            r.installed() == has_store,
    {
        MockBlockServices {
            log: Ghost(Seq::empty()),
            has_store,
            evictions: Vec::new(),
            disk_ids: Vec::new(),
            incremented: Vec::new(),
            decremented: Vec::new(),
        }
    }
}

impl BlockServices for MockBlockServices {
    open spec fn trace(&self) -> Seq<BlockEvent> {
        self.log@
    }

    open spec fn installed(&self) -> bool {
        self.has_store
    }

    fn is_installed(&self) -> (r: bool) {
        self.has_store
    }

    fn evict(&mut self, wanted: usize) -> (r: EvictedBlocks) {
        let r = match self.evictions.pop() {
            Some(e) => e,
            None => EvictedBlocks { physical: Vec::new(), disk_block_ids: Vec::new() },
        };
        proof {
            self.log@ = self.log@.push(
                BlockEvent::Evict { wanted, physical: r.physical@, disk_ids: r.disk_block_ids@ },
            );
        }
        r
    }

    fn alloc_disk_block_id(&mut self) -> (r: Option<u32>) {
        let r = self.disk_ids.pop();
        proof {
            self.log@ = self.log@.push(BlockEvent::AllocDiskId { id: r });
        }
        r
    }

    fn inc_disk_ref(&mut self, id: u32) {
        self.incremented.push(id);
        proof {
            self.log@ = self.log@.push(BlockEvent::IncDiskRef { id });
        }
    }

    fn dec_disk_ref(&mut self, id: u32) {
        self.decremented.push(id);
        proof {
            self.log@ = self.log@.push(BlockEvent::DecDiskRef { id });
        }
    }
}

// ── sequences ──
/// A sequence whose pipeline rules out a list of tokens, and whose grammar
/// answers from a script.
pub struct MockSequence {
    /// What was asked and answered.
    pub log: Ghost<Seq<SeqEvent<u32>>>,
    pub grammar_on: bool,
    pub thinking_on: bool,
    /// Tokens that the pipeline rules out.
    pub banned: Vec<u32>,
    /// What the pipeline forces, last entry first; nothing once it is used up.
    pub forced: Vec<Option<u32>>,
    /// A token that the grammar refuses.
    pub unacceptable: Option<u32>,
    /// Tokens that the grammar holds now.
    pub held: Vec<u32>,
}

impl MockSequence {
    pub fn new() -> (r: MockSequence)
        ensures
            r.trace() == Seq::<SeqEvent<u32>>::empty(),
            !r.grammar(),
            !r.thinking(),
    {
        MockSequence {
            log: Ghost(Seq::empty()),
            grammar_on: false,
            thinking_on: false,
            banned: Vec::new(),
            forced: Vec::new(),
            unacceptable: None,
            held: Vec::new(),
        }
    }
}

impl VerifySequence<u32> for MockSequence {
    open spec fn trace(&self) -> Seq<SeqEvent<u32>> {
        self.log@
    }

    open spec fn grammar(&self) -> bool {
        self.grammar_on
    }

    open spec fn thinking(&self) -> bool {
        self.thinking_on
    }

    fn has_grammar(&self) -> (r: bool) {
        self.grammar_on
    }

    fn inside_thinking(&self) -> (r: bool) {
        self.thinking_on
    }

    fn run_pipeline(&mut self, logits: &mut Vec<u32>, ctx: &u32) -> (r: Option<u32>) {
        let ghost before = logits@;
        let mut i: usize = 0;
        while i < self.banned.len()
            invariant
                i <= self.banned@.len(),
                logits@.len() == before.len(),
                self.log == old(self).log,
                self.grammar_on == old(self).grammar_on,
                self.thinking_on == old(self).thinking_on,
            decreases self.banned@.len() - i,
        {
            let t: usize = self.banned[i] as usize;
            if t < logits.len() {
                logits.set(t, 0xff80_0000);
            }
            i += 1;
        }
        let r = match self.forced.pop() {
            Some(f) => f,
            None => None,
        };
        proof {
            self.log@ = self.log@.push(
                SeqEvent::Pipeline {
                    ctx: *ctx,
                    before,
                    after: logits@,
                    forced: r,
                    grammar: self.grammar_on,
                    thinking: self.thinking_on,
                },
            );
        }
        r
    }

    fn accept_token(&mut self, token: u32) -> (r: bool) {
        let r = match self.unacceptable {
            Some(t) => t != token,
            None => true,
        };
        if r {
            self.held.push(token);
        }
        proof {
            self.log@ = self.log@.push(SeqEvent::Accept { token, taken: r });
        }
        r
    }

    fn rollback(&mut self, tokens: usize) {
        let n: usize = self.held.len();
        self.held.truncate(n.saturating_sub(tokens));
        proof {
            self.log@ = self.log@.push(SeqEvent::Rollback { tokens });
        }
    }
}

// ── grammars ──
/// A request to compile a grammar, as it was made.
#[derive(Debug)]
pub struct TagRequest {
    pub triggers: Vec<String>,
    /// Beginning and end of every frame.
    pub frames: Vec<(String, String)>,
    pub at_least_one: bool,
    pub stop_after_first: bool,
}

/// A compiler that takes every schema as it is, but for `null`, which it cannot
/// use, and numbers its grammars.
pub struct MockTagCompiler {
    /// What was asked and answered.
    pub log: Ghost<Seq<CompileEvent<usize>>>,
    /// XML parameters are known.
    pub knows_xml: bool,
    pub requests: Vec<TagRequest>,
}

impl MockTagCompiler {
    pub fn new(knows_xml: bool) -> (r: MockTagCompiler)
        ensures
            r.trace() == Seq::<CompileEvent<usize>>::empty(),
    {
        MockTagCompiler { log: Ghost(Seq::empty()), knows_xml, requests: Vec::new() }
    }
}

impl TagCompiler<usize> for MockTagCompiler {
    open spec fn trace(&self) -> Seq<CompileEvent<usize>> {
        self.log@
    }

    open spec fn sanitized(&self, schema: JsonView) -> Option<JsonView> {
        if schema is Null { None } else { Some(schema) }
    }

    open spec fn with_min_length(&self, schema: JsonView) -> JsonView {
        schema
    }

    fn sanitize_schema_for_grammar(&self, schema: &Json) -> (r: Option<Json>) {
        match schema {
            Json::Null => None,
            _ => Some(schema.duplicate()),
        }
    }

    fn enforce_min_length_on_required_strings(&self, schema: &Json) -> (r: Json) {
        schema.duplicate()
    }

    fn compile_structural_tag_raw(
        &mut self,
        triggers: &Vec<String>,
        tags: &Vec<TagEntry>,
        at_least_one: bool,
        stop_after_first: bool,
    ) -> (r: Result<usize, GrammarError>) {
        let mut seen: Vec<String> = Vec::new();
        let mut i: usize = 0;
        while i < triggers.len()
            invariant
                i <= triggers@.len(),
            decreases triggers@.len() - i,
        {
            seen.push(triggers[i].clone());
            i += 1;
        }
        let mut frames: Vec<(String, String)> = Vec::new();
        let mut xml = false;
        let mut k: usize = 0;
        while k < tags.len()
            invariant
                k <= tags@.len(),
            decreases tags@.len() - k,
        {
            frames.push((tags[k].begin.clone(), tags[k].end.clone()));
            match &tags[k].content {
                TagContent::QwenXmlParameter(_) => {
                    xml = true;
                },
                _ => {},
            }
            k += 1;
        }
        self.requests.push(TagRequest { triggers: seen, frames, at_least_one, stop_after_first });
        let r = if xml && !self.knows_xml {
            Err(GrammarError::Compile { message: "unknown content".to_owned() })
        } else {
            Ok(self.requests.len())
        };
        proof {
            self.log@ = self.log@.push(
                CompileEvent {
                    triggers: texts_of(triggers@),
                    tags: tag_views(tags@),
                    at_least_one,
                    stop_after_first,
                    answer: r,
                },
            );
        }
        r
    }
}

// ── tool calls ──
/// Services for tool calls that answer from fields.
pub struct MockToolServices {
    /// What was asked and answered.
    pub log: Ghost<Seq<ToolEvent>>,
    /// Content that is held back.
    pub held_back: String,
    /// What is wrong with every call.
    pub problem: Option<String>,
    pub repeated: bool,
    pub repeated_within: bool,
    pub failed_before: bool,
    /// The response ends once this many calls are counted.
    pub max_calls: usize,
    /// What path handling puts for the arguments.
    pub normalized_arguments: Option<String>,
}

impl MockToolServices {
    pub fn new(max_calls: usize) -> (r: MockToolServices)
        ensures
            r.trace() == Seq::<ToolEvent>::empty(),
    {
        MockToolServices {
            log: Ghost(Seq::empty()),
            held_back: String::new(),
            problem: None,
            repeated: false,
            repeated_within: false,
            failed_before: false,
            max_calls,
            normalized_arguments: None,
        }
    }
}

impl ToolServices for MockToolServices {
    open spec fn trace(&self) -> Seq<ToolEvent> {
        self.log@
    }

    fn flush_content(&mut self) -> (r: String) {
        let r = self.held_back.clone();
        self.held_back = String::new();
        proof {
            self.log@ = self.log@.push(ToolEvent::FlushContent { tail: r@ });
        }
        r
    }

    fn backfill_required_params(&mut self, call: &mut ToolCall) {
        let ghost before = call@;
        proof {
            self.log@ = self.log@.push(ToolEvent::Backfill { before, after: call@ });
        }
    }

    fn normalize_paths(&mut self, call: &mut ToolCall) {
        let ghost before = call@;
        if let Some(s) = &self.normalized_arguments {
            call.function.arguments = s.clone();
        }
        proof {
            self.log@ = self.log@.push(ToolEvent::NormalizePaths { before, after: call@ });
        }
    }

    fn validate_single_tool_call(&mut self, call: &ToolCall) -> (r: Option<String>) {
        let r = match &self.problem {
            Some(s) => Some(s.clone()),
            None => None,
        };
        proof {
            self.log@ = self.log@.push(ToolEvent::Validate { call: call@, problem: problem_text(r) });
        }
        r
    }

    fn seen_before(&mut self, name: &str, arguments: &str) -> (r: bool) {
        proof {
            self.log@ = self.log@.push(
                ToolEvent::SeenBefore { name: name@, arguments: arguments@, seen: self.repeated },
            );
        }
        self.repeated
    }

    fn seen_within(&mut self, name: &str, arguments: &str) -> (r: bool) {
        proof {
            self.log@ = self.log@.push(
                ToolEvent::SeenWithin { name: name@, arguments: arguments@, seen: self.repeated_within },
            );
        }
        self.repeated_within
    }

    fn failed_for_good(&mut self, name: &str, arguments: &str) -> (r: bool) {
        proof {
            self.log@ = self.log@.push(
                ToolEvent::FailedForGood { name: name@, arguments: arguments@, failed: self.failed_before },
            );
        }
        self.failed_before
    }

    fn count_call(&mut self, before: usize, stop_before: bool) -> (r: (usize, bool)) {
        let after: usize = before.saturating_add(1);
        let r = (after, stop_before || after >= self.max_calls);
        proof {
            self.log@ = self.log@.push(ToolEvent::Count { before, stop_before, after: r.0, stop_after: r.1 });
        }
        r
    }
}

} // verus!
