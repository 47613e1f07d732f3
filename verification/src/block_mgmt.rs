//! Keeping a sequence's block table long enough.
//!
//! A sequence holds a window of its newest cache blocks. Without a cap the
//! window grows from the first block on. With a cap every block also has an id
//! in the swap store, and once the window is full it slides: its oldest block
//! goes back to the cache before a new one is taken.

use vstd::multiset::Multiset;
use vstd::prelude::*;

use crate::gpu::GpuError;
use crate::kv_cache::{cache_id, PagedKvCache};
use crate::op::{CacheId, LayerState, Op};
use crate::run::step;
use crate::speculative::ProposerState;
use crate::trace::{failed, Event, GpuBackend};

verus! {

/// What the model keeps per sequence.
pub struct SequenceState {
    /// The window of cache blocks, oldest first.
    pub block_table: Vec<u32>,
    /// The swap-store ids of all blocks so far.
    pub disk_block_ids: Vec<u32>,
    /// How many of those each attention layer has streamed out.
    pub disk_last_offloaded_per_layer: Vec<u32>,
    /// What each layer keeps.
    pub layer_states: Vec<LayerState>,
    pub proposer_state: Option<ProposerState>,
}

/// The first block of the window, counted from the start of the sequence.
pub open spec fn window_start(disk: int, table: int) -> int {
    if disk > table { disk - table } else { 0 }
}

impl SequenceState {
    pub fn hss_window_start(&self) -> (r: usize)
        ensures
            r == window_start(self.disk_block_ids@.len() as int, self.block_table@.len() as int),
    {
        self.disk_block_ids.len().saturating_sub(self.block_table.len())
    }
}

// ── prefix cache and swap store ──
/// What the prefix cache gave up.
pub struct EvictedBlocks {
    /// Cache blocks that are free now.
    pub physical: Vec<u32>,
    /// Swap-store ids that lose a holder.
    pub disk_block_ids: Vec<u32>,
}

/// A command to the prefix cache or the swap store, with its answer.
#[allow(inconsistent_fields)]
#[verifier::ext_equal]
pub enum BlockEvent {
    Evict { wanted: usize, physical: Seq<u32>, disk_ids: Seq<u32> },
    AllocDiskId { id: Option<u32> },
    IncDiskRef { id: u32 },
    DecDiskRef { id: u32 },
}

/// The prefix cache and the swap store, which hold blocks beyond the sequence.
///
/// They are free in what they answer. What every implementation owes is that its
/// trace records each command and the answer to it.
pub trait BlockServices: Sized {
    spec fn trace(&self) -> Seq<BlockEvent>;

    /// A swap store is installed.
    spec fn installed(&self) -> bool;

    fn is_installed(&self) -> (r: bool)
        ensures
            r == self.installed(),
    ;

    /// Evicts the entries of the prefix cache that were least recently used.
    fn evict(&mut self, wanted: usize) -> (r: EvictedBlocks)
        ensures
            final(self).installed() == old(self).installed(),
            final(self).trace() == old(self).trace().push(
                (BlockEvent::Evict { wanted, physical: r.physical@, disk_ids: r.disk_block_ids@ }),
            ),
    ;

    /// Takes a free id of the swap store.
    fn alloc_disk_block_id(&mut self) -> (r: Option<u32>)
        ensures
            final(self).installed() == old(self).installed(),
            final(self).trace() == old(self).trace().push((BlockEvent::AllocDiskId { id: r })),
    ;

    fn inc_disk_ref(&mut self, id: u32)
        ensures
            final(self).installed() == old(self).installed(),
            final(self).trace() == old(self).trace().push((BlockEvent::IncDiskRef { id })),
    ;

    fn dec_disk_ref(&mut self, id: u32)
        ensures
            final(self).installed() == old(self).installed(),
            final(self).trace() == old(self).trace().push((BlockEvent::DecDiskRef { id })),
    ;
}

/// One holder less for every id.
pub open spec fn dec_events(ids: Seq<u32>) -> Seq<BlockEvent> {
    Seq::new(ids.len(), |i: int| BlockEvent::DecDiskRef { id: ids[i] })
}

/// One holder more for every id.
pub open spec fn inc_events(ids: Seq<u32>) -> Seq<BlockEvent> {
    Seq::new(ids.len(), |i: int| BlockEvent::IncDiskRef { id: ids[i] })
}

/// Puts what the prefix cache gave up to use: the blocks go to the free list,
/// and the swap store, where there is one, counts one holder less per id.
pub fn apply_evicted_blocks<S: BlockServices>(evicted: EvictedBlocks, kv_cache: &mut PagedKvCache, services: &mut S)
    ensures
        final(kv_cache).config == old(kv_cache).config,
        final(kv_cache).storage == old(kv_cache).storage,
        final(kv_cache).free@ == old(kv_cache).free@ + evicted.physical@,
        final(services).installed() == old(services).installed(),
        final(services).trace() == old(services).trace() + (if old(services).installed() {
            dec_events(evicted.disk_block_ids@)
        } else {
            Seq::empty()
        }),
{
    kv_cache.free_blocks(evicted.physical.as_slice());
    if evicted.disk_block_ids.len() > 0 && services.is_installed() {
        let ghost ids = evicted.disk_block_ids@;
        let mut i: usize = 0;
        assert(services.trace() =~= old(services).trace() + dec_events(ids.take(0)));
        while i < evicted.disk_block_ids.len()
            invariant
                i <= ids.len(),
                ids == evicted.disk_block_ids@,
                services.installed() == old(services).installed(),
                services.trace() == old(services).trace() + dec_events(ids.take(i as int)),
            decreases ids.len() - i,
        {
            services.dec_disk_ref(evicted.disk_block_ids[i]);
            i += 1;
            assert(services.trace() =~= old(services).trace() + dec_events(ids.take(i as int)));
        }
        assert(ids.take(i as int) =~= ids);
    } else {
        assert(services.trace() =~= old(services).trace() + Seq::<BlockEvent>::empty());
        assert(evicted.disk_block_ids@.len() == 0 ==> dec_events(evicted.disk_block_ids@) =~= Seq::empty());
    }
}

/// The ids that are live; `u32::MAX` stands for a block that was never stored.
pub open spec fn live_ids(ids: Seq<u32>) -> Seq<u32>
    decreases ids.len(),
{
    if ids.len() == 0 {
        Seq::empty()
    } else if ids.last() == u32::MAX {
        live_ids(ids.drop_last())
    } else {
        live_ids(ids.drop_last()).push(ids.last())
    }
}

/// Takes over the stored blocks of a prefix match: the sequence becomes one more
/// holder of every live id.
pub fn reuse_prefix_match_disk_ids<S: BlockServices>(
    matched_disk_block_ids: &[u32],
    seq_disk_block_ids: &mut Vec<u32>,
    services: &mut S,
)
    ensures
        final(services).installed() == old(services).installed(),
        if old(services).installed() {
            &&& final(seq_disk_block_ids)@ == old(seq_disk_block_ids)@ + live_ids(matched_disk_block_ids@)
            &&& final(services).trace() == old(services).trace() + inc_events(live_ids(matched_disk_block_ids@))
        } else {
            &&& final(seq_disk_block_ids)@ == old(seq_disk_block_ids)@
            &&& final(services).trace() == old(services).trace()
        },
{
    let ghost ids = matched_disk_block_ids@;
    assert(live_ids(ids.take(0)) =~= Seq::empty());
    assert(seq_disk_block_ids@ =~= seq_disk_block_ids@ + live_ids(ids.take(0)));
    assert(services.trace() =~= services.trace() + inc_events(live_ids(ids.take(0))));
    if matched_disk_block_ids.len() == 0 || !services.is_installed() {
        assert(ids.len() == 0 ==> ids.take(0) =~= ids);
        return;
    }
    let mut i: usize = 0;
    while i < matched_disk_block_ids.len()
        invariant
            i <= ids.len(),
            ids == matched_disk_block_ids@,
            services.installed(),
            old(services).installed(),
            seq_disk_block_ids@ == old(seq_disk_block_ids)@ + live_ids(ids.take(i as int)),
            services.trace() == old(services).trace() + inc_events(live_ids(ids.take(i as int))),
        decreases ids.len() - i,
    {
        let id: u32 = matched_disk_block_ids[i];
        let ghost before = live_ids(ids.take(i as int));
        assert(ids.take(i + 1).drop_last() =~= ids.take(i as int));
        assert(ids.take(i + 1).last() == id);
        if id != u32::MAX {
            services.inc_disk_ref(id);
            seq_disk_block_ids.push(id);
            assert(live_ids(ids.take(i + 1)) == before.push(id));
            assert(inc_events(before.push(id)) =~= inc_events(before).push(BlockEvent::IncDiskRef { id }));
        }
        i += 1;
        assert(seq_disk_block_ids@ =~= old(seq_disk_block_ids)@ + live_ids(ids.take(i as int)));
        assert(services.trace() =~= old(services).trace() + inc_events(live_ids(ids.take(i as int))));
    }
    assert(ids.take(i as int) =~= ids);
}

// ── growing and sliding ──
/// Why a sequence did not get its blocks.
#[derive(Clone, Copy, PartialEq, Eq, Structural, Debug)]
pub enum BlockError {
    /// Neither the cache nor the prefix cache had a block left.
    NoFreeBlock,
    /// A cap is set, but no swap store is installed.
    NoSwapStore,
    /// The swap store has no id left.
    SwapStoreExhausted,
    /// The block has slid out of the window.
    LeftWindow,
    Gpu(GpuError),
}

/// Sequence, cache and services at one moment.
#[verifier::ext_equal]
pub struct BlockSnap {
    pub table: Seq<u32>,
    pub disk: Seq<u32>,
    pub free: Seq<u32>,
    pub gpu: Seq<Event>,
    pub services: Seq<BlockEvent>,
    pub installed: bool,
    /// The cache that the blocks are of.
    pub cache: CacheId,
}

pub open spec fn block_snap<G: GpuBackend, S: BlockServices>(
    seq: SequenceState,
    kv_cache: PagedKvCache,
    gpu: G,
    services: S,
) -> BlockSnap {
    BlockSnap {
        table: seq.block_table@,
        disk: seq.disk_block_ids@,
        free: kv_cache.free@,
        gpu: gpu.trace(),
        services: services.trace(),
        installed: services.installed(),
        cache: cache_id(kv_cache),
    }
}

/// The first block of the window.
pub open spec fn start_of(s: BlockSnap) -> int {
    window_start(s.disk.len() as int, s.table.len() as int)
}

/// Block `abs` lies in the window.
pub open spec fn in_window(s: BlockSnap, abs: int) -> bool {
    start_of(s) <= abs < start_of(s) + s.table.len()
}

/// The window is full.
pub open spec fn at_cap(cap: Option<u32>, s: BlockSnap) -> bool {
    cap matches Some(c) && s.table.len() >= c
}

/// The window gave up its oldest block.
pub open spec fn slid(s: BlockSnap) -> BlockSnap {
    BlockSnap { table: s.table.skip(1), free: s.free.push(s.table[0]), ..s }
}

/// After the prefix cache was asked for one block and gave up `ev`.
pub open spec fn after_evict(s: BlockSnap, physical: Seq<u32>, disk_ids: Seq<u32>) -> BlockSnap {
    let asked = s.services.push(BlockEvent::Evict { wanted: 1, physical, disk_ids });
    BlockSnap {
        free: s.free + physical,
        services: if s.installed {
            asked + dec_events(disk_ids)
        } else {
            asked
        },
        ..s
    }
}

/// Where the next block is taken from: the prefix cache is asked only where the
/// free list is empty.
pub open spec fn supplied(s: BlockSnap, f: BlockSnap) -> bool {
    if s.free.len() > 0 {
        f == s
    } else {
        exists|physical: Seq<u32>, disk_ids: Seq<u32>| f == #[trigger] after_evict(s, physical, disk_ids)
    }
}

pub open spec fn zero_step(f: BlockSnap, stream: u64) -> Event {
    step(Op::ZeroBlock { cache: f.cache, block: f.free.last() }, stream)
}

/// The next block was taken, zeroed and put at the end of the window.
pub open spec fn extended(f: BlockSnap, stream: u64) -> BlockSnap {
    BlockSnap {
        table: f.table.push(f.free.last()),
        free: f.free.drop_last(),
        gpu: f.gpu.push(zero_step(f, stream)),
        ..f
    }
}

/// The swap store answered with `id`.
pub open spec fn asked_id(g: BlockSnap, id: Option<u32>) -> BlockSnap {
    BlockSnap {
        disk: match id {
            Some(x) => g.disk.push(x),
            None => g.disk,
        },
        services: g.services.push(BlockEvent::AllocDiskId { id }),
        ..g
    }
}

/// One more block, out of `f`: what that does and says.
pub open spec fn added(cap: Option<u32>, stream: u64, f: BlockSnap, post: BlockSnap, r: Result<(), BlockError>) -> bool {
    match r {
        Ok(_) => {
            &&& f.free.len() > 0
            &&& match cap {
                None => post == extended(f, stream),
                Some(_) => f.installed && exists|id: u32|
                    post == #[trigger] asked_id(extended(f, stream), Some(id)),
            }
        },
        Err(BlockError::NoFreeBlock) => f.free.len() == 0 && post == f,
        Err(BlockError::Gpu(e)) => {
            &&& f.free.len() > 0
            &&& post == (BlockSnap {
                free: f.free.drop_last(),
                gpu: f.gpu.push(failed(zero_step(f, stream), e)),
                ..f
            })
        },
        Err(BlockError::NoSwapStore) => {
            &&& f.free.len() > 0
            &&& cap is Some
            &&& !f.installed
            &&& post == extended(f, stream)
        },
        Err(BlockError::SwapStoreExhausted) => {
            &&& f.free.len() > 0
            &&& cap is Some
            &&& f.installed
            &&& post == asked_id(extended(f, stream), None)
        },
        Err(BlockError::LeftWindow) => false,
    }
}

/// One move towards block `abs`.
pub open spec fn moved(cap: Option<u32>, stream: u64, abs: int, s: BlockSnap, t: BlockSnap) -> bool {
    &&& !in_window(s, abs)
    &&& if at_cap(cap, s) {
        t == slid(s)
    } else {
        exists|f: BlockSnap| #[trigger] supplied(s, f) && added(cap, stream, f, t, Ok(()))
    }
}

/// Moves that followed one another.
pub open spec fn moves(cap: Option<u32>, stream: u64, abs: int, snaps: Seq<BlockSnap>) -> bool {
    &&& snaps.len() >= 1
    &&& forall|i: int|
        0 <= i < snaps.len() - 1 ==> #[trigger] moved(cap, stream, abs, snaps[i], snaps[i + 1])
}

/// The last move towards block `abs` failed.
pub open spec fn stuck(cap: Option<u32>, stream: u64, abs: int, s: BlockSnap, t: BlockSnap, e: BlockError) -> bool {
    &&& !in_window(s, abs)
    &&& !at_cap(cap, s)
    &&& exists|f: BlockSnap| #[trigger] supplied(s, f) && added(cap, stream, f, t, Err(e))
}

/// What making sure of block `abs` does and says. A block that has left the window
/// does not come back.
pub open spec fn ensured(
    cap: Option<u32>,
    stream: u64,
    abs: int,
    pre: BlockSnap,
    post: BlockSnap,
    r: Result<(), BlockError>,
) -> bool {
    if abs < start_of(pre) {
        r == Err::<(), BlockError>(BlockError::LeftWindow) && post == pre
    } else {
        exists|snaps: Seq<BlockSnap>|
            {
                &&& #[trigger] moves(cap, stream, abs, snaps)
                &&& snaps[0] == pre
                &&& match r {
                    Ok(_) => snaps.last() == post && in_window(post, abs),
                    Err(e) => stuck(cap, stream, abs, snaps.last(), post, e),
                }
            }
    }
}

proof fn lemma_moves_push(cap: Option<u32>, stream: u64, abs: int, snaps: Seq<BlockSnap>, t: BlockSnap)
    requires
        moves(cap, stream, abs, snaps),
        moved(cap, stream, abs, snaps.last(), t),
    ensures
        moves(cap, stream, abs, snaps.push(t)),
{
    let all = snaps.push(t);
    assert forall|i: int| 0 <= i < all.len() - 1 implies #[trigger] moved(cap, stream, abs, all[i], all[i + 1]) by {
        if i < snaps.len() - 1 {
            assert(moved(cap, stream, abs, snaps[i], snaps[i + 1]));
            assert(all[i] == snaps[i] && all[i + 1] == snaps[i + 1]);
        } else {
            assert(all[i] == snaps.last() && all[i + 1] == t);
        }
    }
}

/// Takes one more block.
fn add_block<G: GpuBackend, S: BlockServices>(
    seq: &mut SequenceState,
    kv_cache: &mut PagedKvCache,
    services: &mut S,
    gpu: &mut G,
    stream: u64,
) -> (r: Result<(), BlockError>)
    ensures
        final(kv_cache).config == old(kv_cache).config,
        final(kv_cache).storage == old(kv_cache).storage,
        final(seq).disk_last_offloaded_per_layer == old(seq).disk_last_offloaded_per_layer,
        final(seq).layer_states == old(seq).layer_states,
        final(seq).proposer_state == old(seq).proposer_state,
        exists|f: BlockSnap|
            #[trigger] supplied(block_snap(*old(seq), *old(kv_cache), *old(gpu), *old(services)), f) && added(
                old(kv_cache).config.cache_blocks_per_seq,
                stream,
                f,
                block_snap(*final(seq), *final(kv_cache), *final(gpu), *final(services)),
                r,
            ),
{
    let ghost s = block_snap(*seq, *kv_cache, *gpu, *services);
    let ghost cap = kv_cache.config.cache_blocks_per_seq;
    let ghost mut f = s;
    let block = match kv_cache.try_alloc_block() {
        Some(b) => b,
        None => {
            let evicted = services.evict(1);
            let ghost physical = evicted.physical@;
            let ghost disk_ids = evicted.disk_block_ids@;
            apply_evicted_blocks(evicted, kv_cache, services);
            proof {
                f = block_snap(*seq, *kv_cache, *gpu, *services);
                assert(f =~= after_evict(s, physical, disk_ids));
                assert(supplied(s, f));
            }
            match kv_cache.alloc_block() {
                Ok(b) => b,
                Err(_) => {
                    assert(added(
                        cap,
                        stream,
                        f,
                        block_snap(*seq, *kv_cache, *gpu, *services),
                        Err(BlockError::NoFreeBlock),
                    ));
                    return Err(BlockError::NoFreeBlock);
                },
            }
        },
    };
    assert(supplied(s, f));
    if let Err(e) = gpu.dispatch(Op::ZeroBlock { cache: kv_cache.id(), block }, stream) {
        assert(added(
            cap,
            stream,
            f,
            block_snap(*seq, *kv_cache, *gpu, *services),
            Err(BlockError::Gpu(e)),
        ));
        return Err(BlockError::Gpu(e));
    }
    seq.block_table.push(block);
    assert(block_snap(*seq, *kv_cache, *gpu, *services) =~= extended(f, stream));
    if kv_cache.config.cache_blocks_per_seq.is_some() {
        if !services.is_installed() {
            return Err(BlockError::NoSwapStore);
        }
        match services.alloc_disk_block_id() {
            Some(id) => {
                seq.disk_block_ids.push(id);
                assert(block_snap(*seq, *kv_cache, *gpu, *services) =~= asked_id(extended(f, stream), Some(id)));
            },
            None => {
                assert(block_snap(*seq, *kv_cache, *gpu, *services) =~= asked_id(extended(f, stream), None));
                return Err(BlockError::SwapStoreExhausted);
            },
        }
    }
    Ok(())
}

/// How many more blocks it can take, at most, to reach block `abs`.
pub open spec fn moves_left(cap: Option<u32>, abs: int, s: BlockSnap) -> int {
    match cap {
        None => if s.table.len() > abs { 0 } else { abs + 1 - s.table.len() },
        Some(_) => if s.disk.len() <= abs {
            abs + 2 - s.disk.len()
        } else if s.table.len() == 0 {
            1
        } else {
            0
        },
    }
}

fn ensure_blocks<G: GpuBackend, S: BlockServices>(
    seq: &mut SequenceState,
    abs_block_idx: usize,
    kv_cache: &mut PagedKvCache,
    services: &mut S,
    gpu: &mut G,
    stream: u64,
) -> (r: Result<(), BlockError>)
    requires
        old(kv_cache).config.cache_blocks_per_seq != Some(0u32),
    ensures
        final(kv_cache).config == old(kv_cache).config,
        final(kv_cache).storage == old(kv_cache).storage,
        final(seq).disk_last_offloaded_per_layer == old(seq).disk_last_offloaded_per_layer,
        final(seq).layer_states == old(seq).layer_states,
        final(seq).proposer_state == old(seq).proposer_state,
        abs_block_idx < start_of(block_snap(*old(seq), *old(kv_cache), *old(gpu), *old(services))) || in_window(
            block_snap(*old(seq), *old(kv_cache), *old(gpu), *old(services)),
            abs_block_idx as int,
        ) ==> {
            &&& *final(seq) == *old(seq)
            &&& *final(kv_cache) == *old(kv_cache)
            &&& *final(gpu) == *old(gpu)
            &&& *final(services) == *old(services)
        },
        ensured(
            old(kv_cache).config.cache_blocks_per_seq,
            stream,
            abs_block_idx as int,
            block_snap(*old(seq), *old(kv_cache), *old(gpu), *old(services)),
            block_snap(*final(seq), *final(kv_cache), *final(gpu), *final(services)),
            r,
        ),
{
    let cap = kv_cache.config.cache_blocks_per_seq;
    let ghost abs = abs_block_idx as int;
    let ghost pre = block_snap(*seq, *kv_cache, *gpu, *services);
    if abs_block_idx < seq.hss_window_start() {
        return Err(BlockError::LeftWindow);
    }
    let ghost mut snaps: Seq<BlockSnap> = seq![pre];
    loop
        invariant
            cap == kv_cache.config.cache_blocks_per_seq,
            cap != Some(0u32),
            abs == abs_block_idx,
            kv_cache.config == old(kv_cache).config,
            kv_cache.storage == old(kv_cache).storage,
            seq.disk_last_offloaded_per_layer == old(seq).disk_last_offloaded_per_layer,
            seq.layer_states == old(seq).layer_states,
            in_window(pre, abs) ==> {
                &&& *seq == *old(seq)
                &&& *kv_cache == *old(kv_cache)
                &&& *gpu == *old(gpu)
                &&& *services == *old(services)
            },
            seq.proposer_state == old(seq).proposer_state,
            pre == block_snap(*old(seq), *old(kv_cache), *old(gpu), *old(services)),
            moves(cap, stream, abs, snaps),
            snaps[0] == pre,
            snaps.last() == block_snap(*seq, *kv_cache, *gpu, *services),
            start_of(pre) <= abs,
            start_of(snaps.last()) <= abs,
        decreases
                moves_left(cap, abs_block_idx as int, block_snap(*seq, *kv_cache, *gpu, *services)),
                seq.block_table@.len(),
    {
        let ghost s = block_snap(*seq, *kv_cache, *gpu, *services);
        let stored: usize = seq.disk_block_ids.len();
        let ws: usize = seq.hss_window_start();
        assert(stored == s.disk.len());
        let len: usize = seq.block_table.len();
        if abs_block_idx < ws + len {
            assert(ensured(cap, stream, abs, pre, s, Ok(())));
            return Ok(());
        }
        let full = match cap {
            Some(c) => len >= c as usize,
            None => false,
        };
        if full {
            let oldest: u32 = seq.block_table.remove(0);
            kv_cache.free_block(oldest);
            proof {
                let t = block_snap(*seq, *kv_cache, *gpu, *services);
                assert(s.table.remove(0) =~= s.table.skip(1));
                assert(t =~= slid(s));
                lemma_moves_push(cap, stream, abs, snaps, t);
                snaps = snaps.push(t);
            }
        } else {
            let r = add_block(seq, kv_cache, services, gpu, stream);
            let ghost t = block_snap(*seq, *kv_cache, *gpu, *services);
            match r {
                Ok(_) => {
                    proof {
                        assert(moved(cap, stream, abs, s, t));
                        lemma_moves_push(cap, stream, abs, snaps, t);
                        snaps = snaps.push(t);
                    }
                },
                Err(e) => {
                    assert(stuck(cap, stream, abs, s, t, e));
                    assert(ensured(cap, stream, abs, pre, t, Err(e)));
                    return Err(e);
                },
            }
        }
    }
}

/// Makes sure of block `abs_block_idx` before a decode step.
pub fn ensure_blocks_through_decode<G: GpuBackend, S: BlockServices>(
    seq: &mut SequenceState,
    abs_block_idx: usize,
    kv_cache: &mut PagedKvCache,
    services: &mut S,
    gpu: &mut G,
    stream: u64,
) -> (r: Result<(), BlockError>)
    requires
        old(kv_cache).config.cache_blocks_per_seq != Some(0u32),
    ensures
        final(kv_cache).config == old(kv_cache).config,
        final(kv_cache).storage == old(kv_cache).storage,
        final(seq).disk_last_offloaded_per_layer == old(seq).disk_last_offloaded_per_layer,
        final(seq).layer_states == old(seq).layer_states,
        final(seq).proposer_state == old(seq).proposer_state,
        abs_block_idx < start_of(block_snap(*old(seq), *old(kv_cache), *old(gpu), *old(services))) || in_window(
            block_snap(*old(seq), *old(kv_cache), *old(gpu), *old(services)),
            abs_block_idx as int,
        ) ==> {
            &&& *final(seq) == *old(seq)
            &&& *final(kv_cache) == *old(kv_cache)
            &&& *final(gpu) == *old(gpu)
            &&& *final(services) == *old(services)
        },
        ensured(
            old(kv_cache).config.cache_blocks_per_seq,
            stream,
            abs_block_idx as int,
            block_snap(*old(seq), *old(kv_cache), *old(gpu), *old(services)),
            block_snap(*final(seq), *final(kv_cache), *final(gpu), *final(services)),
            r,
        ),
        r is Ok ==> in_window(
            block_snap(*final(seq), *final(kv_cache), *final(gpu), *final(services)),
            abs_block_idx as int,
        ),
{
    ensure_blocks(seq, abs_block_idx, kv_cache, services, gpu, stream)
}

/// Makes sure of block `abs_block_idx` before a prefill chunk.
pub fn ensure_blocks_through_prefill<G: GpuBackend, S: BlockServices>(
    seq: &mut SequenceState,
    abs_block_idx: usize,
    kv_cache: &mut PagedKvCache,
    services: &mut S,
    gpu: &mut G,
    stream: u64,
) -> (r: Result<(), BlockError>)
    requires
        old(kv_cache).config.cache_blocks_per_seq != Some(0u32),
    ensures
        final(kv_cache).config == old(kv_cache).config,
        final(kv_cache).storage == old(kv_cache).storage,
        final(seq).disk_last_offloaded_per_layer == old(seq).disk_last_offloaded_per_layer,
        final(seq).layer_states == old(seq).layer_states,
        final(seq).proposer_state == old(seq).proposer_state,
        abs_block_idx < start_of(block_snap(*old(seq), *old(kv_cache), *old(gpu), *old(services))) || in_window(
            block_snap(*old(seq), *old(kv_cache), *old(gpu), *old(services)),
            abs_block_idx as int,
        ) ==> {
            &&& *final(seq) == *old(seq)
            &&& *final(kv_cache) == *old(kv_cache)
            &&& *final(gpu) == *old(gpu)
            &&& *final(services) == *old(services)
        },
        ensured(
            old(kv_cache).config.cache_blocks_per_seq,
            stream,
            abs_block_idx as int,
            block_snap(*old(seq), *old(kv_cache), *old(gpu), *old(services)),
            block_snap(*final(seq), *final(kv_cache), *final(gpu), *final(services)),
            r,
        ),
        r is Ok ==> in_window(
            block_snap(*final(seq), *final(kv_cache), *final(gpu), *final(services)),
            abs_block_idx as int,
        ),
{
    ensure_blocks(seq, abs_block_idx, kv_cache, services, gpu, stream)
}

// ── layer states ──
/// The states of one layer, out of the states of all layers of several
/// sequences. What becomes of a borrowed state becomes of it in place.
pub fn extract_layer_refs<'a, T>(all: &'a mut [Vec<T>], layer_idx: usize) -> (r: Vec<&'a mut T>)
    requires
        forall|i: int| 0 <= i < old(all)@.len() ==> layer_idx < (#[trigger] old(all)@[i])@.len(),
    ensures
        r@.len() == old(all)@.len(),
        final(all)@.len() == old(all)@.len(),
        forall|i: int| 0 <= i < r@.len() ==> *(#[trigger] r@[i]) == old(all)@[i]@[layer_idx as int],
        forall|i: int|
            0 <= i < r@.len() ==> (#[trigger] final(all)@[i])@ == old(all)@[i]@.update(
                layer_idx as int,
                *final(r@[i]),
            ),
    decreases old(all)@.len(),
{
    if all.len() == 0 {
        return Vec::new();
    }
    let (head, tail) = all.split_at_mut(1);
    let first: &'a mut Vec<T> = &mut head[0];
    let one: &'a mut T = &mut first[layer_idx];
    let mut rest = extract_layer_refs(tail, layer_idx);
    let mut refs: Vec<&'a mut T> = Vec::new();
    refs.push(one);
    refs.append(&mut rest);
    refs
}

// ── laws ──
/// A block that was made sure of lies in the window.
pub proof fn asked_block_is_in_window(cap: Option<u32>, stream: u64, abs: nat, pre: BlockSnap, post: BlockSnap)
    requires
        ensured(cap, stream, abs as int, pre, post, Ok(())),
    ensures
        start_of(post) <= abs < start_of(post) + post.table.len(),
{
}

/// A window within its cap stays within its cap.
pub proof fn cap_is_kept(cap: u32, stream: u64, abs: nat, pre: BlockSnap, post: BlockSnap)
    requires
        ensured(Some(cap), stream, abs as int, pre, post, Ok(())),
        pre.table.len() <= cap,
        cap > 0,
    ensures
        post.table.len() <= cap,
{
    let snaps = choose|snaps: Seq<BlockSnap>|
        {
            &&& #[trigger] moves(Some(cap), stream, abs as int, snaps)
            &&& snaps[0] == pre
            &&& snaps.last() == post && in_window(post, abs as int)
        };
    lemma_cap(cap, stream, abs as int, snaps, snaps.len() - 1);
}

proof fn lemma_cap(cap: u32, stream: u64, abs: int, snaps: Seq<BlockSnap>, k: int)
    requires
        moves(Some(cap), stream, abs, snaps),
        snaps[0].table.len() <= cap,
        cap > 0,
        0 <= k < snaps.len(),
    ensures
        snaps[k].table.len() <= cap,
    decreases k,
{
    if k > 0 {
        lemma_cap(cap, stream, abs, snaps, k - 1);
        assert(moved(Some(cap), stream, abs, snaps[k - 1], snaps[k - 1 + 1]));
    }
}

/// The cache blocks that the prefix cache gave up.
pub open spec fn given_up(services: Seq<BlockEvent>) -> Multiset<u32>
    decreases services.len(),
{
    if services.len() == 0 {
        Multiset::empty()
    } else {
        match services.last() {
            BlockEvent::Evict { physical, .. } => given_up(services.drop_last()).add(physical.to_multiset()),
            _ => given_up(services.drop_last()),
        }
    }
}

/// The blocks that the sequence and the free list hold between them.
pub open spec fn held(s: BlockSnap) -> Multiset<u32> {
    s.free.to_multiset().add(s.table.to_multiset())
}

/// No block is lost and none appears: what sequence and free list hold changes
/// by what the prefix cache gave up, and by nothing else.
pub proof fn blocks_are_conserved(cap: Option<u32>, stream: u64, abs: nat, pre: BlockSnap, post: BlockSnap)
    requires
        ensured(cap, stream, abs as int, pre, post, Ok(())),
        cap != Some(0u32),
    ensures
        held(post).add(given_up(pre.services)) =~= held(pre).add(given_up(post.services)),
{
    let snaps = choose|snaps: Seq<BlockSnap>|
        {
            &&& #[trigger] moves(cap, stream, abs as int, snaps)
            &&& snaps[0] == pre
            &&& snaps.last() == post && in_window(post, abs as int)
        };
    lemma_conserved(cap, stream, abs as int, snaps, snaps.len() - 1);
}

proof fn lemma_conserved(cap: Option<u32>, stream: u64, abs: int, snaps: Seq<BlockSnap>, k: int)
    requires
        moves(cap, stream, abs, snaps),
        cap != Some(0u32),
        0 <= k < snaps.len(),
    ensures
        held(snaps[k]).add(given_up(snaps[0].services)) =~= held(snaps[0]).add(given_up(snaps[k].services)),
    decreases k,
{
    if k > 0 {
        lemma_conserved(cap, stream, abs, snaps, k - 1);
        let s = snaps[k - 1];
        let t = snaps[k - 1 + 1];
        assert(moved(cap, stream, abs, s, t));
        lemma_move_conserves(cap, stream, abs, s, t);
        lemma_cancel(
            held(t),
            held(s),
            held(snaps[0]),
            given_up(t.services),
            given_up(s.services),
            given_up(snaps[0].services),
        );
    }
}

proof fn lemma_cancel(
    ht: Multiset<u32>,
    hs: Multiset<u32>,
    h0: Multiset<u32>,
    gt: Multiset<u32>,
    gs: Multiset<u32>,
    g0: Multiset<u32>,
)
    requires
        ht.add(gs) == hs.add(gt),
        hs.add(g0) == h0.add(gs),
    ensures
        ht.add(g0) == h0.add(gt),
{
    assert forall|v: u32| ht.add(g0).count(v) == h0.add(gt).count(v) by {
        assert(ht.add(gs).count(v) == ht.count(v) + gs.count(v));
        assert(hs.add(gt).count(v) == hs.count(v) + gt.count(v));
        assert(hs.add(g0).count(v) == hs.count(v) + g0.count(v));
        assert(h0.add(gs).count(v) == h0.count(v) + gs.count(v));
    }
    assert(ht.add(g0) =~= h0.add(gt));
}

proof fn lemma_move_conserves(cap: Option<u32>, stream: u64, abs: int, s: BlockSnap, t: BlockSnap)
    requires
        moved(cap, stream, abs, s, t),
        cap != Some(0u32),
    ensures
        held(t).add(given_up(s.services)) =~= held(s).add(given_up(t.services)),
{
    broadcast use vstd::seq_lib::group_to_multiset_ensures;

    if at_cap(cap, s) {
        let oldest = s.table[0];
        assert(s.table.skip(1) =~= s.table.remove(0));
        vstd::seq_lib::to_multiset_remove(s.table, 0);
        assert(t.free.to_multiset() =~= s.free.to_multiset().insert(oldest));
        assert(t.table.to_multiset() =~= s.table.to_multiset().remove(oldest));
        assert(s.table.contains(oldest));
    } else {
        let f = choose|f: BlockSnap| #[trigger] supplied(s, f) && added(cap, stream, f, t, Ok(()));
        lemma_supply_conserves(s, f);
        let block = f.free.last();
        let g = extended(f, stream);
        assert(f.free.drop_last() =~= f.free.remove(f.free.len() - 1));
        vstd::seq_lib::to_multiset_remove(f.free, f.free.len() - 1);
        assert(f.free.contains(block));
        assert(g.free.to_multiset() =~= f.free.to_multiset().remove(block));
        assert(g.table.to_multiset() =~= f.table.to_multiset().insert(block));
        assert(held(g) =~= held(f));
        if cap is Some {
            let id = choose|id: u32| t == #[trigger] asked_id(g, Some(id));
            assert(t.services.drop_last() =~= g.services);
            assert(given_up(t.services) == given_up(g.services));
        }
    }
}

proof fn lemma_supply_conserves(s: BlockSnap, f: BlockSnap)
    requires
        supplied(s, f),
    ensures
        held(f).add(given_up(s.services)) =~= held(s).add(given_up(f.services)),
        f.table == s.table,
{
    if s.free.len() == 0 {
        let (physical, disk_ids) = choose|physical: Seq<u32>, disk_ids: Seq<u32>|
            f == #[trigger] after_evict(s, physical, disk_ids);
        let asked = s.services.push(BlockEvent::Evict { wanted: 1, physical, disk_ids });
        assert(asked.drop_last() =~= s.services);
        assert(given_up(asked) == given_up(s.services).add(physical.to_multiset()));
        if s.installed {
            lemma_dec_gives_nothing(asked, disk_ids);
        }
        vstd::seq_lib::lemma_multiset_commutative(s.free, physical);
    }
}

proof fn lemma_dec_gives_nothing(services: Seq<BlockEvent>, ids: Seq<u32>)
    ensures
        given_up(services + dec_events(ids)) == given_up(services),
    decreases ids.len(),
{
    let all = services + dec_events(ids);
    if ids.len() == 0 {
        assert(all =~= services);
    } else {
        assert(all.drop_last() =~= services + dec_events(ids.drop_last()));
        lemma_dec_gives_nothing(services, ids.drop_last());
    }
}

/// Only the oldest blocks leave the window, and the stored ids only grow.
pub proof fn newest_blocks_stay(cap: Option<u32>, stream: u64, abs: nat, pre: BlockSnap, post: BlockSnap)
    requires
        ensured(cap, stream, abs as int, pre, post, Ok(())),
        cap != Some(0u32),
    ensures
        post.disk.len() >= pre.disk.len(),
        post.disk.take(pre.disk.len() as int) == pre.disk,
        window_moved(pre.table, post.table, slides(cap, pre, post)),
{
    let snaps = choose|snaps: Seq<BlockSnap>|
        {
            &&& #[trigger] moves(cap, stream, abs as int, snaps)
            &&& snaps[0] == pre
            &&& snaps.last() == post && in_window(post, abs as int)
        };
    lemma_newest(cap, stream, abs as int, snaps, snaps.len() - 1);
}

/// How often the window slid: blocks it had, and blocks it got, less those left.
/// Without a cap it never slides.
pub open spec fn slides(cap: Option<u32>, pre: BlockSnap, post: BlockSnap) -> int {
    match cap {
        None => 0,
        Some(_) => pre.table.len() + (post.disk.len() - pre.disk.len()) - post.table.len(),
    }
}

/// The window lost its first `k` blocks, and what was left of it starts the new
/// window.
pub open spec fn window_moved(before: Seq<u32>, after: Seq<u32>, k: int) -> bool {
    &&& 0 <= k
    &&& k <= before.len() ==> before.len() - k <= after.len() && after.take(before.len() - k) == before.skip(k)
}

proof fn lemma_newest(cap: Option<u32>, stream: u64, abs: int, snaps: Seq<BlockSnap>, j: int)
    requires
        moves(cap, stream, abs, snaps),
        cap != Some(0u32),
        0 <= j < snaps.len(),
    ensures
        snaps[j].disk.len() >= snaps[0].disk.len(),
        snaps[j].disk.take(snaps[0].disk.len() as int) == snaps[0].disk,
        window_moved(snaps[0].table, snaps[j].table, slides(cap, snaps[0], snaps[j])),
    decreases j,
{
    let first = snaps[0];
    if j == 0 {
        assert(first.disk.take(first.disk.len() as int) =~= first.disk);
        assert(first.table.take(first.table.len() as int) =~= first.table.skip(0));
        assert(window_moved(first.table, first.table, 0));
    } else {
        lemma_newest(cap, stream, abs, snaps, j - 1);
        let s = snaps[j - 1];
        let t = snaps[j - 1 + 1];
        assert(moved(cap, stream, abs, s, t));
        let k = slides(cap, first, s);
        if at_cap(cap, s) {
            if k < first.table.len() {
                assert(t.table.take(first.table.len() - (k + 1)) =~= first.table.skip(k + 1)) by {
                    let a = first.table.skip(k);
                    assert forall|i: int| 0 <= i < first.table.len() - (k + 1) implies t.table[i] == first.table.skip(
                        k + 1,
                    )[i] by {
                        assert(s.table.take(first.table.len() - k)[i + 1] == a[i + 1]);
                    }
                }
            }
            assert(window_moved(first.table, t.table, k + 1));
        } else {
            let f = choose|f: BlockSnap| #[trigger] supplied(s, f) && added(cap, stream, f, t, Ok(()));
            assert(f.table == s.table && f.disk == s.disk);
            if k <= first.table.len() {
                assert(t.table.take(first.table.len() - k) =~= s.table.take(first.table.len() - k));
            }
            assert(window_moved(first.table, t.table, k));
            assert(t.disk.take(first.disk.len() as int) =~= s.disk.take(first.disk.len() as int));
        }
    }
}

} // verus!
