use atlas_spark::block_mgmt::SequenceState;
use atlas_spark::config::{BufferArena, ForwardContext, ModelConfig, ModelType, ScoringFunc};
use atlas_spark::dumps::{
    cache_dump_due, gemma4_diag_enabled, hidden_row, hostref_dump_due, key_history_due, mhc_dump_due, paged_place,
    pool_line, prefill_q_dump_due, row_of_position,
};
use atlas_spark::gpu::{DenseWeight, DevicePtr, F32Bits, KernelHandle};
use atlas_spark::hyper_connection::{hc_expand, hc_head, hc_post, hc_pre, hc_stream_mean};
use atlas_spark::kv_cache::KvCacheDtype;
use atlas_spark::mock::{Command, MockGpuBackend};
use atlas_spark::model::{BatchPrefillError, PrefillSlice, TransformerModel};
use atlas_spark::mtp::{DeepseekV4MtpHead, DeepseekV4MtpModule, MtpFlags, MtpSettings};
use atlas_spark::mtp_forward::MtpError;
use atlas_spark::op::{Call, EmptyLayerState, LayerCall, LayerKind, LayerState, LayerWork, Op, SsmLayerState};
use atlas_spark::run::{alloc_all, lookup_kernels, read_back, run_call, run_op, run_ops, send};
use atlas_spark::speculative::ProposerState;
use atlas_spark::text::{join, join_numbered, push_decimal, setting_is, str_is};

fn p(n: u64) -> DevicePtr {
    DevicePtr(n)
}

fn w(n: u64) -> DenseWeight {
    DenseWeight { weight: p(n) }
}

fn config() -> ModelConfig {
    ModelConfig {
        model_type: ModelType::DeepseekV4,
        hidden_size: 64,
        vocab_size: 100,
        num_hidden_layers: 2,
        num_attention_heads: 4,
        head_dim: 16,
        kv_lora_rank: 16,
        qk_rope_head_dim: 4,
        o_groups: 2,
        rms_norm_eps: F32Bits(1),
        hc_mult: 4,
        hc_eps: F32Bits(2),
        num_experts: 8,
        num_experts_per_tok: 2,
        moe_intermediate_size: 32,
        norm_topk_prob: true,
        routed_scaling_factor: F32Bits(3),
        scoring_func: ScoringFunc::Softmax,
        ep_world_size: 1,
        tp_world_size: 1,
        num_mtp_modules: 1,
        dspark_window_size: 8,
        dspark_block_size: 3,
        dspark_noise_token_id: 9,
        dspark_markov_rank: 4,
        linear_num_value_heads: 32,
        linear_value_head_dim: 128,
        linear_num_key_heads: 16,
        linear_key_head_dim: 128,
        linear_conv_kernel_dim: 4,
    }
}

fn arena() -> BufferArena {
    BufferArena {
        hidden_states: p(0x1_0000),
        residual: p(0x2_0000),
        norm_output: p(0x3_0000),
        norm_unit_w: p(0x4_0000),
        attn_output: p(0x5_0000),
        moe_output: p(0x6_0000),
        moe_router_in_f32: p(0x7_0000),
        expert_gate_out: p(0x8_0000),
        expert_up_out: p(0x9_0000),
        expert_down_out: p(0xa_0000),
        gate_logits: p(0xb_0000),
        logits: p(0xc_0000),
        hc_streams: p(0xd_0000),
        hc_post: p(0xe_0000),
        hc_comb: p(0xf_0000),
        o_latent: p(0x10_0000),
        splitk_workspace: p(0x11_0000),
        ssm_qkvz: p(0x12_0000),
        ssm_ba: p(0x13_0000),
        ssm_deinterleaved: p(0x14_0000),
        ssm_conv_out_f32: p(0x15_0000),
        token_ids: p(0x16_0000),
        scratch: p(0x20_0000),
        scratch_bytes: 0x10_0000,
        max_batch_tokens: 16,
    }
}

fn context() -> ForwardContext {
    ForwardContext {
        buffers: arena(),
        config: config(),
        attn_metadata: None,
        comm: false,
        graph_capture: false,
        profile: false,
        token_ids: None,
    }
}

fn head() -> DeepseekV4MtpHead {
    let module = DeepseekV4MtpModule {
        enorm: w(1),
        hnorm: w(2),
        e_proj: w(3),
        h_proj: w(4),
        norm: w(5),
        hc_head: None,
    };
    let mut gpu = MockGpuBackend::new();
    DeepseekV4MtpHead::new(module, w(6), w(7), &config(), &mut gpu, 0, 64, KvCacheDtype::Bf16).unwrap()
}

fn model() -> TransformerModel {
    TransformerModel {
        config: config(),
        buffers: arena(),
        mtp_streams_save: p(0x90_0000),
        mtp_hidden_save: p(0x91_0000),
        proposer: Some(head()),
    }
}

fn sequence(drafts: bool) -> SequenceState {
    SequenceState {
        block_table: Vec::new(),
        disk_block_ids: Vec::new(),
        disk_last_offloaded_per_layer: Vec::new(),
        layer_states: vec![LayerState::Empty(EmptyLayerState); 2],
        proposer_state: if drafts {
            Some(ProposerState::V4Mtp(head().alloc_state_inner(&mut MockGpuBackend::new()).unwrap()))
        } else {
            None
        },
    }
}

fn row_flags(on: bool) -> MtpFlags {
    MtpFlags::from_settings(&MtpSettings {
        reset_kv: None,
        diag_passthrough: None,
        use_mhc: None,
        single_stream: None,
        gpu_combiner: None,
        hc_recover: None,
        no_hc_recover: None,
        skip_hc_head: None,
        hc_head_after_recover: None,
        catchup: None,
        k1_state: Some("1"),
        prompt_prefill: if on { Some("1") } else { None },
        diag_dump: None,
    })
}

fn rows(seq: &SequenceState) -> usize {
    match &seq.proposer_state {
        Some(ProposerState::V4Mtp(s)) => s.seq_len,
        _ => 0,
    }
}

#[test]
fn prompt_chunk_builds_a_row_per_known_next_token() {
    let mut m = model();
    let mut seq = sequence(true);
    let mut gpu = MockGpuBackend::new();
    let tokens: Vec<u32> = (0..6).collect();
    let r = m.try_v4_mtp_prompt_prefill(&mut gpu, &tokens, &mut seq, 0, 3, false, &row_flags(true), 0);
    assert_eq!(r, Ok(3));
    let before = gpu.command_count();
    let r = m.try_v4_mtp_prompt_prefill(&mut gpu, &tokens, &mut seq, 3, 3, true, &row_flags(true), 0);
    assert_eq!(r, Ok(2), "the last token has none after it");
    assert_eq!(rows(&seq), 5);
    assert!(matches!(gpu.commands[before], Command::Op { op: Op::SaveHiddenForMtp { row: 2 }, .. }));
    assert_eq!(
        gpu.commands[gpu.command_count() - 1],
        Command::Op {
            op: Op::CopyD2d { src: p(0x91_0000), dst: p(arena().hidden_states.0 + 2 * 128), bytes: 128 },
            stream: 0
        }
    );
}

#[test]
fn prompt_chunk_is_left_alone_where_nothing_drafts() {
    let tokens = [1u32, 2, 3];
    let mut gpu = MockGpuBackend::new();
    let mut m = model();
    assert_eq!(
        m.try_v4_mtp_prompt_prefill(&mut gpu, &tokens, &mut sequence(true), 0, 3, true, &row_flags(false), 0),
        Ok(0)
    );
    assert_eq!(
        m.try_v4_mtp_prompt_prefill(&mut gpu, &tokens, &mut sequence(false), 0, 3, true, &row_flags(true), 0),
        Ok(0)
    );
    assert_eq!(
        m.try_v4_mtp_prompt_prefill(&mut gpu, &tokens, &mut sequence(true), 0, 0, true, &row_flags(true), 0),
        Ok(0)
    );
    m.config.model_type = ModelType::Other;
    assert_eq!(
        m.try_v4_mtp_prompt_prefill(&mut gpu, &tokens, &mut sequence(true), 0, 3, true, &row_flags(true), 0),
        Ok(0)
    );
    m.proposer = None;
    assert_eq!(gpu.command_count(), 0);
}

#[test]
fn prompt_chunk_restores_whatever_the_rows_came_to() {
    let tokens = [1u32, 2, 3];
    let mut m = model();
    m.config.hc_mult = 0;
    let mut gpu = MockGpuBackend::new();
    let r = m.try_v4_mtp_prompt_prefill(&mut gpu, &tokens, &mut sequence(true), 0, 3, true, &row_flags(true), 0);
    assert_eq!(r, Err(MtpError::NoStreams));
    assert_eq!(gpu.command_count(), 2);
    let mut gpu = MockGpuBackend::new();
    gpu.refuse_at = Some(0);
    let r = m.try_v4_mtp_prompt_prefill(&mut gpu, &tokens, &mut sequence(true), 0, 3, true, &row_flags(true), 0);
    assert!(matches!(r, Err(MtpError::Gpu(_))));
    assert_eq!(gpu.command_count(), 1);
}

#[test]
fn saved_streams_are_copied_back() {
    let mut m = model();
    let mut gpu = MockGpuBackend::new();
    m.restore_mtp_streams(&mut gpu, 3).unwrap();
    assert_eq!(
        gpu.commands,
        vec![Command::Op {
            op: Op::CopyD2d { src: p(0x90_0000), dst: arena().hc_streams, bytes: 4 * 64 * 4 },
            stream: 3
        }]
    );
    m.mtp_streams_save = p(0);
    m.restore_mtp_streams(&mut gpu, 3).unwrap();
    assert_eq!(gpu.command_count(), 1);
}

#[test]
fn stacked_prefill_is_bounded_by_the_arena() {
    let m = model();
    let slice = |n: usize| PrefillSlice { chunk_start: 0, chunk_len: n, is_last_chunk: true };
    assert_eq!(m.prefill_batch_chunk_dispatch(&[]), Ok(vec![]));
    assert_eq!(
        m.prefill_batch_chunk_dispatch(&[slice(10), slice(7)]),
        Err(BatchPrefillError::ExceedsArena { total_tokens: 17, arena_cap: 16, streams: 2 })
    );
    assert_eq!(m.prefill_batch_chunk_dispatch(&[slice(10), slice(6)]), Err(BatchPrefillError::OneByOne));
    assert_eq!(m.prefill_attn_batched_layer(), Err(BatchPrefillError::OneByOne));
    assert_eq!(m.prefill_ssm_batched_layer(), Err(BatchPrefillError::OneByOne));
}

#[test]
fn stateless_layer_prefills_all_rows_at_once() {
    let m = model();
    let mut gpu = MockGpuBackend::new();
    let kv = head().kv_cache;
    let mut none: Vec<SequenceState> = Vec::new();
    m.prefill_dense_batched_layer(&mut gpu, 1, p(1), p(2), 12, &mut none, &kv, &context(), 0).unwrap();
    assert_eq!(gpu.command_count(), 0);
    let mut first = sequence(false);
    first.block_table = vec![3, 4];
    let state = SsmLayerState { h_state: p(8), conv_state: p(9) };
    first.layer_states[1] = LayerState::StateSpace(state);
    let mut seqs = vec![first, sequence(false)];
    m.prefill_dense_batched_layer(&mut gpu, 1, p(1), p(2), 12, &mut seqs, &kv, &context(), 0).unwrap();
    assert_eq!(
        gpu.commands[0],
        Command::Layer {
            call: LayerCall {
                kind: LayerKind::Model,
                index: 1,
                state: LayerState::StateSpace(state),
                cache: kv.id(),
                work: LayerWork::Prefill {
                    hidden: p(1),
                    residual: p(2),
                    num_tokens: 12,
                    seq_len_start: 0,
                    kv_write_start: 0
                },
                ctx: context(),
            },
            blocks: vec![3, 4],
            ids: vec![],
            cursors: vec![],
            stream: 0,
        }
    );
    assert_eq!(seqs[0].disk_block_ids, vec![3, 4]);
    assert!(seqs[1].disk_block_ids.is_empty());
    seqs[0].disk_block_ids.clear();
    let mut gpu = MockGpuBackend::new();
    gpu.refuse_at = Some(0);
    gpu.writes_before_refusal = true;
    assert!(m.prefill_dense_batched_layer(&mut gpu, 1, p(1), p(2), 12, &mut seqs, &kv, &context(), 0).is_err());
    assert_eq!(seqs[0].disk_block_ids, vec![3, 4], "what the layer wrote before it was refused stays");
}

fn launch(gpu: &MockGpuBackend, i: usize) -> ([u32; 3], [u32; 3], Vec<u64>) {
    match &gpu.commands[i] {
        Command::Launch { grid, block, params, .. } => (*grid, *block, params.clone()),
        other => panic!("{:?}", other),
    }
}

#[test]
fn stream_kernels_run_one_block_per_token() {
    let mut gpu = MockGpuBackend::new();
    let k = KernelHandle(1);
    hc_expand(&mut gpu, k, p(1), p(2), 5, 64, 4, 0).unwrap();
    hc_pre(&mut gpu, k, p(1), p(2), p(3), p(4), p(5), p(6), p(7), 5, 64, 4, 3, F32Bits(8), F32Bits(9), 0).unwrap();
    hc_post(&mut gpu, k, p(1), p(2), p(3), p(4), p(5), 5, 64, 4, 0).unwrap();
    hc_head(&mut gpu, k, p(1), p(2), p(3), p(4), p(5), 5, 64, 4, F32Bits(8), F32Bits(9), 0).unwrap();
    hc_stream_mean(&mut gpu, k, p(1), p(2), 5, 64, 4, 0).unwrap();
    assert_eq!(gpu.launch_count(), 5);
    for i in 0..5 {
        let (grid, block, _) = launch(&gpu, i);
        assert_eq!(grid, [5, 1, 1]);
        assert_eq!(block, [256, 1, 1]);
    }
    assert_eq!(launch(&gpu, 0).2, vec![1, 2, 64, 4]);
    assert_eq!(launch(&gpu, 4).2, vec![1, 2, 64, 4]);
}

#[test]
fn lists_of_operations_stop_where_one_is_refused() {
    let mut gpu = MockGpuBackend::new();
    gpu.refuse_at = Some(1);
    let ops = vec![Op::Synchronize, Op::Synchronize, Op::Synchronize];
    assert!(run_ops(&mut gpu, &ops, 0).is_err());
    assert_eq!(gpu.command_count(), 2);
    assert!(run_op(&mut gpu, Op::Synchronize, 0).is_ok());
    assert_eq!(run_call(&mut gpu, Call::DenseAuto { tensor: p(4) }, 0), Ok(p(0x1000)));
    assert_eq!(read_back(&mut gpu, p(5), 3), Ok(vec![0, 0, 0]));
    assert!(send(&mut gpu, &vec![1, 2], p(6), 7).is_ok());
    assert_eq!(gpu.commands[5], Command::H2dAsync { data: vec![1, 2], dst: p(6), stream: 7 });
    let all = alloc_all(&mut gpu, &vec![16, 32]).unwrap();
    assert_eq!(all.len(), 2);
    assert_eq!(gpu.commands[7], Command::Alloc { bytes: 32 });
    gpu.refuse_at = Some(9);
    assert!(alloc_all(&mut gpu, &vec![1, 2, 3]).is_err());
    gpu.refuse_at = None;
    assert_eq!(lookup_kernels(&mut gpu, &vec![("a", "b"), ("c", "d")]).unwrap().len(), 2);
}

#[test]
fn addresses_move_by_bytes() {
    assert_eq!(p(0x10).offset(0x20), p(0x30));
    assert_eq!(p(u64::MAX).offset(2), p(1));
    assert!(DevicePtr::null().is_null());
    assert!(!p(1).is_null());
}

#[test]
fn texts_are_compared_and_joined_by_characters() {
    assert!(str_is("häß", "häß"));
    assert!(!str_is("a", "ab"));
    assert!(setting_is(Some("1"), "1"));
    assert!(!setting_is(None, "1"));
    assert_eq!(join("a", "b"), "ab");
    assert_eq!(join_numbered("mtp.", 12, ".w"), "mtp.12.w");
    let mut s = String::new();
    push_decimal(&mut s, 0);
    push_decimal(&mut s, 1907);
    assert_eq!(s, "01907");
}

#[test]
fn dumps_pick_their_layers() {
    assert!(gemma4_diag_enabled(Some("1")) && gemma4_diag_enabled(Some("true")));
    assert!(!gemma4_diag_enabled(Some("TRUE")) && !gemma4_diag_enabled(None));
    assert!(cache_dump_due(5, 21, 1) && cache_dump_due(0, 42, 1));
    assert!(!cache_dump_due(-1, 0, 1) && !cache_dump_due(5, 1, 1) && !cache_dump_due(5, 0, 0));
    assert!(key_history_due(true, 0, 1) && !key_history_due(true, 1, 1) && !key_history_due(false, 0, 1));
    assert!(prefill_q_dump_due(3, 0, 1) && !prefill_q_dump_due(3, 21, 1));
    assert!(mhc_dump_due(3, 21, 1) && !mhc_dump_due(3, 42, 1));
    assert!(hostref_dump_due(3, 0, 3) && !hostref_dump_due(3, 0, 4) && !hostref_dump_due(-1, 0, u32::MAX));
}

#[test]
fn dumps_find_their_rows() {
    assert_eq!(hidden_row(12, 0, 10, 5), Some(2));
    assert_eq!(hidden_row(15, 0, 10, 5), None);
    assert_eq!(hidden_row(9, 0, 10, 5), None);
    assert_eq!(hidden_row(12, 1, 10, 5), None);
    assert_eq!(hidden_row(-1, 0, 0, 5), None);
    let positions: Vec<u8> = [7u32, 8, 8].iter().flat_map(|x| x.to_le_bytes()).collect();
    assert_eq!(row_of_position(&positions, 3, 8), Some(1));
    assert_eq!(row_of_position(&positions, 1, 8), None);
    assert_eq!(paged_place(37, 16), (2, 5));
    assert_eq!(pool_line(p(1000), 3, 100, 2, 10), p(1320));
    assert_eq!(pool_line(p(1000), -1, 100, 0, 10), p(900));
}
