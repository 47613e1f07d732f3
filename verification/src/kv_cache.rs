//! The paged key/value cache: pools on the device, and the free list of blocks.

use vstd::multiset::Multiset;
use vstd::prelude::*;

use crate::gpu::{DevicePtr, GpuError};
use crate::op::{CacheId, Call};
use crate::trace::{Cmd, Event, GpuBackend, Reply};

verus! {

/// How keys and values are stored.
#[derive(Clone, Copy, PartialEq, Eq, Structural, Debug)]
pub enum KvCacheDtype {
    Bf16,
    Fp8,
    Nvfp4,
    Turbo3,
    Turbo4,
    Turbo8,
}

/// The shape of a cache.
#[derive(Clone, Copy, PartialEq, Eq, Structural, Debug)]
pub struct KvCacheConfig {
    pub block_size: usize,
    pub num_kv_heads: usize,
    pub head_dim: usize,
    pub num_layers: usize,
    pub dtype: KvCacheDtype,
    /// The rolling window of blocks that one sequence may hold, where the rest
    /// is swapped out.
    pub cache_blocks_per_seq: Option<u32>,
}

/// No block is free.
#[derive(Clone, Copy, PartialEq, Eq, Structural, Debug)]
pub struct NoFreeBlock;

/// Where one layer keeps its keys and values.
#[derive(Clone, Copy, PartialEq, Eq, Structural, Debug)]
pub struct LayerPool {
    pub k_pool: DevicePtr,
    pub v_pool: DevicePtr,
    pub block_stride_bytes: usize,
}

/// How the pools of a cache lie in device memory.
pub struct KvLayout {
    /// The cache that they are of.
    pub cache: CacheId,
    pub pools: Vec<LayerPool>,
    pub cache_stride: usize,
    pub nvfp4_data_bytes: usize,
    pub turbo3_data_bytes: usize,
    pub turbo4_data_bytes: usize,
    pub turbo8_data_bytes: usize,
}

/// The cache. `free` lists the blocks that nobody holds; the one freed last is
/// given out first.
pub struct PagedKvCache {
    pub config: KvCacheConfig,
    pub storage: DevicePtr,
    pub free: Vec<u32>,
}

/// The blocks `0 .. n` in the order in which a new cache lists them: the lowest
/// is given out first.
pub open spec fn fresh_blocks(n: nat) -> Seq<u32> {
    Seq::new(n, |i: int| (n - 1 - i) as u32)
}

pub open spec fn cache_id(c: PagedKvCache) -> CacheId {
    CacheId { config: c.config, storage: c.storage }
}

impl PagedKvCache {
    /// Which cache this is.
    pub fn id(&self) -> (r: CacheId)
        ensures
            r == cache_id(*self),
    {
        CacheId { config: self.config, storage: self.storage }
    }

    /// Sets up a cache of `num_blocks` blocks, all of them free.
    pub fn new<G: GpuBackend>(config: KvCacheConfig, num_blocks: usize, gpu: &mut G) -> (r: Result<Self, GpuError>)
        requires
            num_blocks <= u32::MAX,
        ensures
            final(gpu).trace() == old(gpu).trace().push(
                (Event {
                    cmd: pools_cmd(config, num_blocks),
                    reply: match r {
                        Ok(c) => Reply::Ptr(c.storage),
                        Err(e) => Reply::Failed(e),
                    },
                }),
            ),
            r matches Ok(c) ==> c.config == config && c.free@ == fresh_blocks(num_blocks as nat),
    {
        let storage = match gpu.call(Call::KvPools { config, num_blocks }, 0) {
            Ok(p) => p,
            Err(e) => {
                return Err(e);
            },
        };
        let mut free: Vec<u32> = Vec::new();
        let mut i: usize = num_blocks;
        while i > 0
            invariant
                i <= num_blocks <= u32::MAX,
                free@ == fresh_blocks(num_blocks as nat).take(num_blocks - i),
            decreases i,
        {
            i -= 1;
            free.push(i as u32);
            assert(free@ =~= fresh_blocks(num_blocks as nat).take(num_blocks - i));
        }
        assert(free@ =~= fresh_blocks(num_blocks as nat));
        Ok(PagedKvCache { config, storage, free })
    }

    /// Takes a free block.
    pub fn try_alloc_block(&mut self) -> (r: Option<u32>)
        ensures
            final(self).config == old(self).config,
            final(self).storage == old(self).storage,
            match r {
                Some(b) => old(self).free@.len() > 0 && b == old(self).free@.last()
                    && final(self).free@ == old(self).free@.drop_last(),
                None => old(self).free@.len() == 0 && final(self).free@ == old(self).free@,
            },
    {
        self.free.pop()
    }

    /// Takes a free block, or says that there is none.
    pub fn alloc_block(&mut self) -> (r: Result<u32, NoFreeBlock>)
        ensures
            final(self).config == old(self).config,
            final(self).storage == old(self).storage,
            match r {
                Ok(b) => old(self).free@.len() > 0 && b == old(self).free@.last()
                    && final(self).free@ == old(self).free@.drop_last(),
                Err(_) => old(self).free@.len() == 0 && final(self).free@ == old(self).free@,
            },
    {
        match self.try_alloc_block() {
            Some(b) => Ok(b),
            None => Err(NoFreeBlock),
        }
    }

    /// Gives a block back.
    pub fn free_block(&mut self, block: u32)
        ensures
            final(self).config == old(self).config,
            final(self).storage == old(self).storage,
            final(self).free@ == old(self).free@.push(block),
    {
        self.free.push(block);
    }

    /// Gives blocks back, in order.
    pub fn free_blocks(&mut self, blocks: &[u32])
        ensures
            final(self).config == old(self).config,
            final(self).storage == old(self).storage,
            final(self).free@ == old(self).free@ + blocks@,
    {
        let mut i: usize = 0;
        assert(self.free@ =~= old(self).free@ + blocks@.take(0));
        while i < blocks.len()
            invariant
                i <= blocks@.len(),
                self.config == old(self).config,
                self.storage == old(self).storage,
                self.free@ == old(self).free@ + blocks@.take(i as int),
            decreases blocks@.len() - i,
        {
            self.free_block(blocks[i]);
            i += 1;
            assert(self.free@ =~= old(self).free@ + blocks@.take(i as int));
        }
        assert(blocks@.take(i as int) =~= blocks@);
    }

    /// Grows a block table to at least `needed` blocks. Where the cache runs out
    /// first, the blocks taken so far stay in the table.
    pub fn grow_table(&mut self, table: &mut Vec<u32>, needed: usize) -> (r: Result<(), NoFreeBlock>)
        ensures
            final(self).config == old(self).config,
            final(self).storage == old(self).storage,
            grown(old(self).free@, old(table)@, needed as int, final(self).free@, final(table)@, r is Ok),
    {
        let ghost free0 = self.free@;
        let ghost table0 = table@;
        proof {
            assert(taken(free0, 0) =~= Seq::empty());
            assert(table0 + taken(free0, 0) =~= table0);
            assert(free0.take(free0.len() as int) =~= free0);
        }
        while table.len() < needed
            invariant
                self.config == old(self).config,
                self.storage == old(self).storage,
                free0 == old(self).free@,
                table0 == old(table)@,
                table@.len() >= table0.len(),
                table@.len() - table0.len() <= free0.len(),
                needed >= table0.len() ==> table@.len() <= needed,
                needed < table0.len() ==> table@.len() == table0.len(),
                self.free@ == free0.take(free0.len() - (table@.len() - table0.len())),
                table@ == table0 + taken(free0, table@.len() - table0.len()),
            decreases needed - table@.len(),
        {
            let ghost k = table@.len() - table0.len();
            match self.alloc_block() {
                Ok(b) => {
                    table.push(b);
                    proof {
                        assert(taken(free0, k + 1) =~= taken(free0, k).push(b));
                        assert(self.free@ =~= free0.take(free0.len() - (k + 1)));
                        assert(table@ =~= table0 + taken(free0, k + 1));
                    }
                },
                Err(e) => {
                    proof {
                        assert(k == free0.len());
                    }
                    return Err(e);
                },
            }
        }
        Ok(())
    }
}

/// The `k` blocks given out first from a free list, in that order.
pub open spec fn taken(free: Seq<u32>, k: int) -> Seq<u32> {
    Seq::new(k as nat, |i: int| free[free.len() - 1 - i])
}

/// A table grew to `needed` blocks from the free list, or as far as the free
/// list went.
pub open spec fn grown(free: Seq<u32>, table: Seq<u32>, needed: int, free_after: Seq<u32>, table_after: Seq<u32>, ok: bool) -> bool {
    let missing = if needed > table.len() { needed - table.len() } else { 0 };
    let k = if missing <= free.len() { missing } else { free.len() as int };
    &&& ok == (missing <= free.len())
    &&& free_after == free.take(free.len() - k)
    &&& table_after == table + taken(free, k)
}

/// The blocks that a table and the free list hold between them.
pub open spec fn all_blocks(free: Seq<u32>, table: Seq<u32>) -> Multiset<u32> {
    free.to_multiset().add(table.to_multiset())
}

/// A table that grows neither loses a block nor makes one up, also where the
/// free list runs out.
pub proof fn growing_conserves_blocks(
    free: Seq<u32>,
    table: Seq<u32>,
    needed: int,
    free_after: Seq<u32>,
    table_after: Seq<u32>,
    ok: bool,
)
    requires
        grown(free, table, needed, free_after, table_after, ok),
    ensures
        all_blocks(free_after, table_after) == all_blocks(free, table),
{
    let missing = if needed > table.len() { needed - table.len() } else { 0 };
    let k = if missing <= free.len() { missing } else { free.len() as int };
    lemma_taken(free, k);
    vstd::seq_lib::lemma_multiset_commutative(table, taken(free, k));
    assert(all_blocks(free_after, table_after) =~= all_blocks(free, table));
}

proof fn lemma_taken(free: Seq<u32>, k: int)
    requires
        0 <= k <= free.len(),
    ensures
        free.take(free.len() - k).to_multiset().add(taken(free, k).to_multiset()) == free.to_multiset(),
    decreases k,
{
    let rest = free.take(free.len() - k);
    if k == 0 {
        taken(free, 0).to_multiset_ensures();
        assert(rest =~= free);
        assert(taken(free, 0).to_multiset() =~= Multiset::empty());
        assert(free.to_multiset().add(Multiset::empty()) =~= free.to_multiset());
    } else {
        lemma_taken(free, k - 1);
        let before = free.take(free.len() - (k - 1));
        let b = free[free.len() - k];
        assert(before =~= rest.push(b));
        assert(taken(free, k) =~= taken(free, k - 1).push(b));
        rest.to_multiset_ensures();
        taken(free, k - 1).to_multiset_ensures();
        assert(rest.to_multiset().add(taken(free, k).to_multiset()) =~= before.to_multiset().add(
            taken(free, k - 1).to_multiset(),
        ));
    }
}

/// What making a cache puts in the trace: one command, which names the shape.
pub open spec fn pools_cmd(config: KvCacheConfig, num_blocks: usize) -> Cmd {
    Cmd::Call { call: Call::KvPools { config, num_blocks }, stream: 0 }
}

} // verus!
