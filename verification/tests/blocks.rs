use atlas_spark::block_mgmt::{
    apply_evicted_blocks, ensure_blocks_through_decode, ensure_blocks_through_prefill, extract_layer_refs,
    reuse_prefix_match_disk_ids, BlockError, EvictedBlocks, SequenceState,
};
use atlas_spark::gpu::DevicePtr;
use atlas_spark::kv_cache::{KvCacheConfig, KvCacheDtype, NoFreeBlock, PagedKvCache};
use atlas_spark::mock::{Command, MockBlockServices, MockGpuBackend};
use atlas_spark::op::{Call, EmptyLayerState, LayerState, Op, SsmLayerState};

fn cache(num_blocks: usize, cap: Option<u32>) -> PagedKvCache {
    let config = KvCacheConfig {
        block_size: 16,
        num_kv_heads: 1,
        head_dim: 64,
        num_layers: 2,
        dtype: KvCacheDtype::Bf16,
        cache_blocks_per_seq: cap,
    };
    PagedKvCache::new(config, num_blocks, &mut MockGpuBackend::new()).unwrap()
}

fn sequence() -> SequenceState {
    SequenceState {
        block_table: Vec::new(),
        disk_block_ids: Vec::new(),
        disk_last_offloaded_per_layer: Vec::new(),
        layer_states: Vec::new(),
        proposer_state: None,
    }
}

fn evicted(physical: &[u32], disk: &[u32]) -> EvictedBlocks {
    EvictedBlocks { physical: physical.to_vec(), disk_block_ids: disk.to_vec() }
}

#[test]
fn cache_gives_out_the_lowest_block_first() {
    let mut gpu = MockGpuBackend::new();
    let config = cache(1, None).config;
    let mut c = PagedKvCache::new(config, 3, &mut gpu).unwrap();
    assert_eq!(gpu.commands[0], Command::Call { call: Call::KvPools { config, num_blocks: 3 }, stream: 0 });
    assert_eq!(c.alloc_block(), Ok(0));
    assert_eq!(c.try_alloc_block(), Some(1));
    c.free_block(0);
    assert_eq!(c.alloc_block(), Ok(0));
    assert_eq!(c.alloc_block(), Ok(2));
    assert_eq!(c.alloc_block(), Err(NoFreeBlock));
    assert_eq!(c.try_alloc_block(), None);
    c.free_blocks(&[1, 2]);
    assert_eq!(c.free, vec![1, 2]);
    gpu.refuse_at = Some(1);
    assert!(PagedKvCache::new(config, 3, &mut gpu).is_err());
}

#[test]
fn table_keeps_what_it_got_when_the_cache_runs_out() {
    let mut c = cache(3, None);
    let mut table: Vec<u32> = Vec::new();
    assert!(c.grow_table(&mut table, 2).is_ok());
    assert_eq!(table, vec![0, 1]);
    assert!(c.grow_table(&mut table, 1).is_ok());
    assert!(c.grow_table(&mut table, 5).is_err());
    assert_eq!(table, vec![0, 1, 2]);
    assert!(c.free.is_empty());
}

#[test]
fn asked_block_is_reached_and_zeroed() {
    let mut c = cache(8, None);
    let mut s = MockBlockServices::new(false);
    let mut gpu = MockGpuBackend::new();
    let mut seq = sequence();
    ensure_blocks_through_decode(&mut seq, 2, &mut c, &mut s, &mut gpu, 5).unwrap();
    assert_eq!(seq.block_table, vec![0, 1, 2]);
    assert!(seq.disk_block_ids.is_empty());
    assert_eq!(
        gpu.commands,
        vec![
            Command::Op { op: Op::ZeroBlock { cache: c.id(), block: 0 }, stream: 5 },
            Command::Op { op: Op::ZeroBlock { cache: c.id(), block: 1 }, stream: 5 },
            Command::Op { op: Op::ZeroBlock { cache: c.id(), block: 2 }, stream: 5 },
        ]
    );
    ensure_blocks_through_decode(&mut seq, 1, &mut c, &mut s, &mut gpu, 5).unwrap();
    assert_eq!(gpu.command_count(), 3, "nothing to do");
}

#[test]
fn window_slides_at_the_cap() {
    let mut c = cache(8, Some(2));
    let mut s = MockBlockServices::new(true);
    s.disk_ids = vec![13, 12, 11, 10];
    let mut gpu = MockGpuBackend::new();
    let mut seq = sequence();
    ensure_blocks_through_prefill(&mut seq, 3, &mut c, &mut s, &mut gpu, 0).unwrap();
    assert_eq!(seq.block_table.len(), 2);
    assert_eq!(seq.disk_block_ids, vec![10, 11, 12, 13]);
    assert_eq!(seq.hss_window_start(), 2);
    assert_eq!(c.free.len(), 6, "the cap is never exceeded");
    let mut all = c.free.clone();
    all.extend(seq.block_table.iter());
    all.sort();
    assert_eq!(all, (0..8).collect::<Vec<u32>>());
}

#[test]
fn block_that_left_the_window_is_refused() {
    let mut c = cache(8, Some(2));
    let mut s = MockBlockServices::new(true);
    s.disk_ids = vec![13, 12, 11, 10];
    let mut gpu = MockGpuBackend::new();
    let mut seq = sequence();
    ensure_blocks_through_decode(&mut seq, 3, &mut c, &mut s, &mut gpu, 0).unwrap();
    let before = (seq.block_table.clone(), c.free.clone(), gpu.command_count());
    for decode in [true, false] {
        let r = if decode {
            ensure_blocks_through_decode(&mut seq, 1, &mut c, &mut s, &mut gpu, 0)
        } else {
            ensure_blocks_through_prefill(&mut seq, 1, &mut c, &mut s, &mut gpu, 0)
        };
        assert_eq!(r, Err(BlockError::LeftWindow));
    }
    assert_eq!((seq.block_table.clone(), c.free.clone(), gpu.command_count()), before);
    assert_eq!(ensure_blocks_through_decode(&mut seq, 2, &mut c, &mut s, &mut gpu, 0), Ok(()));
    assert_eq!((seq.block_table, c.free, gpu.command_count()), before);
}

#[test]
fn layer_states_are_left_alone() {
    let kept = SsmLayerState { h_state: DevicePtr(1), conv_state: DevicePtr(2) };
    let states = vec![LayerState::Empty(EmptyLayerState), LayerState::StateSpace(kept)];
    let mut c = cache(8, None);
    let mut s = MockBlockServices::new(false);
    let mut gpu = MockGpuBackend::new();
    let mut seq = sequence();
    seq.layer_states = states.clone();
    ensure_blocks_through_decode(&mut seq, 2, &mut c, &mut s, &mut gpu, 0).unwrap();
    ensure_blocks_through_prefill(&mut seq, 4, &mut c, &mut s, &mut gpu, 0).unwrap();
    ensure_blocks_through_prefill(&mut seq, 0, &mut c, &mut s, &mut gpu, 0).unwrap();
    assert_eq!(seq.layer_states, states);
    assert_eq!(seq.block_table.len(), 5);
}

#[test]
fn prefix_cache_is_asked_when_the_free_list_is_empty() {
    for decode in [true, false] {
        let mut c = cache(0, None);
        let mut s = MockBlockServices::new(true);
        s.evictions = vec![evicted(&[5], &[50, 51])];
        let mut gpu = MockGpuBackend::new();
        let mut seq = sequence();
        let r = if decode {
            ensure_blocks_through_decode(&mut seq, 0, &mut c, &mut s, &mut gpu, 0)
        } else {
            ensure_blocks_through_prefill(&mut seq, 0, &mut c, &mut s, &mut gpu, 0)
        };
        assert_eq!(r, Ok(()));
        assert_eq!(seq.block_table, vec![5]);
        assert_eq!(s.decremented, vec![50, 51]);
    }
}

#[test]
fn block_errors_name_their_cause() {
    let mut gpu = MockGpuBackend::new();
    let mut seq = sequence();
    let mut c = cache(0, None);
    let mut s = MockBlockServices::new(false);
    let r = ensure_blocks_through_decode(&mut seq, 0, &mut c, &mut s, &mut gpu, 0);
    assert_eq!(r, Err(BlockError::NoFreeBlock));

    let mut c = cache(4, Some(2));
    let r = ensure_blocks_through_decode(&mut seq, 0, &mut c, &mut s, &mut gpu, 0);
    assert_eq!(r, Err(BlockError::NoSwapStore));

    let mut seq = sequence();
    let mut s = MockBlockServices::new(true);
    let r = ensure_blocks_through_prefill(&mut seq, 0, &mut c, &mut s, &mut gpu, 0);
    assert_eq!(r, Err(BlockError::SwapStoreExhausted));

    let mut seq = sequence();
    let mut gpu = MockGpuBackend::new();
    gpu.refuse_at = Some(0);
    let mut c = cache(4, None);
    let r = ensure_blocks_through_decode(&mut seq, 0, &mut c, &mut s, &mut gpu, 0);
    assert!(matches!(r, Err(BlockError::Gpu(_))));
    assert!(seq.block_table.is_empty());
}

#[test]
fn evicted_blocks_are_free_and_lose_a_holder() {
    let mut c = cache(1, None);
    let mut s = MockBlockServices::new(true);
    apply_evicted_blocks(evicted(&[7, 8], &[70]), &mut c, &mut s);
    assert_eq!(c.free, vec![0, 7, 8]);
    assert_eq!(s.decremented, vec![70]);
    let mut off = MockBlockServices::new(false);
    apply_evicted_blocks(evicted(&[9], &[90]), &mut c, &mut off);
    assert!(off.decremented.is_empty());
    assert_eq!(c.free, vec![0, 7, 8, 9]);
}

#[test]
fn prefix_match_adds_a_holder_of_live_ids() {
    let mut s = MockBlockServices::new(true);
    let mut ids = vec![1u32];
    reuse_prefix_match_disk_ids(&[4, u32::MAX, 6], &mut ids, &mut s);
    assert_eq!(ids, vec![1, 4, 6]);
    assert_eq!(s.incremented, vec![4, 6]);
    let mut off = MockBlockServices::new(false);
    reuse_prefix_match_disk_ids(&[4], &mut ids, &mut off);
    assert_eq!(ids, vec![1, 4, 6]);
    reuse_prefix_match_disk_ids(&[], &mut ids, &mut s);
    assert_eq!(s.incremented.len(), 2);
}

#[test]
fn layer_references_are_one_per_sequence() {
    let mut all = vec![vec![1, 2, 3], vec![4, 5, 6]];
    for r in extract_layer_refs(&mut all, 1) {
        *r *= 10;
    }
    assert_eq!(all, vec![vec![1, 20, 3], vec![4, 50, 6]]);
    let none: Vec<&mut u32> = extract_layer_refs(&mut [], 0);
    assert!(none.is_empty());
}
