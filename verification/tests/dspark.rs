use atlas_spark::attention::{DsparkStage, HcSite, HcWeights, MlaWeights};
use atlas_spark::config::{BufferArena, ForwardContext, ModelConfig, ModelType, ScoringFunc};
use atlas_spark::dspark_attention::dspark_sparse_attention;
use atlas_spark::dspark_block::{DsparkError, InjectFile};
use atlas_spark::dspark_head::{
    drafter_head_counts, ring_slot, ring_valid_len, DeepseekV4DSparkHead, DeepseekV4DSparkModule,
    DeepseekV4DSparkProposerState, DsparkMainKvCache,
};
use atlas_spark::dspark_module::dspark_present;
use atlas_spark::dspark_propose::{ring_advance, DsparkInject};
use atlas_spark::gpu::{DenseWeight, DevicePtr, F32Bits, KernelHandle};
use atlas_spark::mock::{Command, MockGpuBackend};
use atlas_spark::mtp::HcHeadWeights;
use atlas_spark::op::{Boundary, LayerKind, LayerState, Op, SsmLayerState};
use atlas_spark::speculative::ProposerState;

fn p(n: u64) -> DevicePtr {
    DevicePtr(n)
}

fn w(n: u64) -> DenseWeight {
    DenseWeight { weight: p(n) }
}

fn config() -> ModelConfig {
    ModelConfig {
        model_type: ModelType::DeepseekV4,
        hidden_size: 64,
        vocab_size: 100,
        num_hidden_layers: 2,
        num_attention_heads: 4,
        head_dim: 16,
        kv_lora_rank: 16,
        qk_rope_head_dim: 4,
        o_groups: 2,
        rms_norm_eps: F32Bits(1),
        hc_mult: 4,
        hc_eps: F32Bits(2),
        num_experts: 8,
        num_experts_per_tok: 2,
        moe_intermediate_size: 32,
        norm_topk_prob: true,
        routed_scaling_factor: F32Bits(3),
        scoring_func: ScoringFunc::Softmax,
        ep_world_size: 1,
        tp_world_size: 1,
        num_mtp_modules: 1,
        dspark_window_size: 8,
        dspark_block_size: 3,
        dspark_noise_token_id: 9,
        dspark_markov_rank: 4,
        linear_num_value_heads: 32,
        linear_value_head_dim: 128,
        linear_num_key_heads: 16,
        linear_key_head_dim: 128,
        linear_conv_kernel_dim: 4,
    }
}

fn arena() -> BufferArena {
    BufferArena {
        hidden_states: p(0x1_0000),
        residual: p(0x2_0000),
        norm_output: p(0x3_0000),
        norm_unit_w: p(0x4_0000),
        attn_output: p(0x5_0000),
        moe_output: p(0x6_0000),
        moe_router_in_f32: p(0x7_0000),
        expert_gate_out: p(0x8_0000),
        expert_up_out: p(0x9_0000),
        expert_down_out: p(0xa_0000),
        gate_logits: p(0xb_0000),
        logits: p(0xc_0000),
        hc_streams: p(0xd_0000),
        hc_post: p(0xe_0000),
        hc_comb: p(0xf_0000),
        o_latent: p(0x10_0000),
        splitk_workspace: p(0x11_0000),
        ssm_qkvz: p(0x12_0000),
        ssm_ba: p(0x13_0000),
        ssm_deinterleaved: p(0x14_0000),
        ssm_conv_out_f32: p(0x15_0000),
        token_ids: p(0x16_0000),
        scratch: p(0x20_0000),
        scratch_bytes: 0x10_0000,
        max_batch_tokens: 16,
    }
}

fn context() -> ForwardContext {
    ForwardContext {
        buffers: arena(),
        config: config(),
        attn_metadata: None,
        comm: false,
        graph_capture: false,
        profile: false,
        token_ids: None,
    }
}

fn ops(gpu: &MockGpuBackend) -> Vec<Op> {
    gpu.commands
        .iter()
        .filter_map(|c| match c {
            Command::Op { op, .. } => Some(*op),
            _ => None,
        })
        .collect()
}

fn hc() -> HcWeights {
    let site = |n: u64| HcSite { hc_fn: p(n), hc_scale: p(n + 1), hc_base: p(n + 2) };
    HcWeights {
        hc_mult: 2,
        sinkhorn_iters: 3,
        hc_eps: F32Bits(7),
        attn: site(0x600),
        ffn: site(0x610),
        head: None,
    }
}

fn mla() -> MlaWeights {
    MlaWeights {
        q_lora_rank: 8,
        kv_lora_rank: 12,
        o_lora_rank: 4,
        nope: 12,
        rope: 4,
        wq_a: w(0x620),
        wq_a_fp8: None,
        wq_a_nvfp4: None,
        q_a_norm: w(0x621),
        wq_b: w(0x622),
        wq_b_fp8: None,
        wq_b_nvfp4: None,
        wkv_a: w(0x623),
        wkv_a_fp8: None,
        wkv_a_nvfp4: None,
        kv_a_norm: w(0x624),
        wo_a: w(0x62_0000),
        wo_a_fp8: None,
        wo_b: w(0x626),
        wo_b_fp8: None,
        attn_sink: p(0x627),
        compressor: false,
        main_inv_freq: p(0x628),
        yarn_inv_freq: p(0x629),
        yarn_mscale: F32Bits(1),
    }
}

fn stage() -> DsparkStage {
    DsparkStage { attn_norm: w(0x630), ffn_norm: w(0x631), hc: Some(hc()), mla: Some(mla()) }
}

fn module() -> DeepseekV4DSparkModule {
    DeepseekV4DSparkModule {
        stages: vec![stage(), stage()],
        main_proj: w(0x640),
        main_norm: w(0x641),
        norm: w(0x642),
        markov_w1: w(0x643),
        markov_w2: w(0x644),
        confidence_proj: w(0x645),
        hc_head: Some(HcHeadWeights { hc_fn: p(0x646), hc_scale: p(0x647), hc_base: p(0x648) }),
    }
}

fn drafter_of(module: DeepseekV4DSparkModule) -> DeepseekV4DSparkHead {
    let mut gpu = MockGpuBackend::new();
    DeepseekV4DSparkHead::new(module, w(0x900_0000), w(0x801), &config(), F32Bits(9), &mut gpu, 0).unwrap()
}

fn drafter() -> DeepseekV4DSparkHead {
    drafter_of(module())
}

fn no_inject() -> DsparkInject {
    DsparkInject {
        anchor: None,
        position: None,
        main_hidden: InjectFile::Absent,
        rings: vec![InjectFile::Absent, InjectFile::Absent],
        emit_dummy: false,
        dump: None,
        dump_stages: false,
    }
}

fn fresh_state() -> ProposerState {
    ProposerState::V4DSpark(DeepseekV4DSparkProposerState {
        main_kv_pos: 4,
        last_num_drafted: 1,
        body_states: Vec::new(),
    })
}

#[test]
fn ring_slot_wraps_at_window() {
    let window = 128;
    assert_eq!(ring_slot(0, window), 0);
    assert_eq!(ring_slot(127, window), 127);
    assert_eq!(ring_slot(128, window), 0, "wraps at window");
    assert_eq!(ring_slot(129, window), 1);
    assert_eq!(ring_slot(2 * window + 5, window), 5, "second wrap");
}

#[test]
fn ring_valid_len_matches_mia_clamp() {
    assert_eq!(ring_valid_len(5, 0), 5, "no reject → all valid");
    assert_eq!(ring_valid_len(5, 2), 3, "3 of 5 committed");
    assert_eq!(ring_valid_len(5, 4), 1, "one always committed");
    assert_eq!(ring_valid_len(5, 5), 1, "clamp min=1 even at full reject");
    assert_eq!(ring_valid_len(5, 10), 1, "over-reject clamps to 1");
    assert_eq!(ring_valid_len(0, 3), 0, "empty segment stays empty");
}

#[test]
fn ring_row_offset_layout() {
    let c = DsparkMainKvCache {
        buf: DevicePtr::null(),
        window: 128,
        head_dim: 576,
        max_seqs: 1,
        bytes: 128 * 576 * 2,
    };
    assert_eq!(c.row_offset(0, 0), 0);
    assert_eq!(c.row_offset(0, 1), 576 * 2, "next slot = head_dim BF16 rows");
    assert_eq!(c.row_offset(0, 127), 127 * 576 * 2);
}

#[test]
fn after_verify_advances_by_accepted_only() {
    assert_eq!(ring_advance(10, 1, 1), (11, 0));
    assert_eq!(ring_advance(10, 1, 0), (10, 1));
    assert_eq!(ring_advance(10, 0, 1), (11, 0));
}

#[test]
fn dspark_state_downcast_roundtrip() {
    let mut state = ProposerState::V4DSpark(DeepseekV4DSparkProposerState {
        main_kv_pos: 200,
        last_num_drafted: 1,
        body_states: Vec::new(),
    });
    let s = match &mut state {
        ProposerState::V4DSpark(s) => s,
        _ => panic!("downcast to DSpark state"),
    };
    assert_eq!(ring_slot(s.main_kv_pos, 128), 72);
}

#[test]
fn detection_key_requires_mtp_enabled_and_main_proj() {
    assert!(dspark_present(1, true), "num_mtp=1, main_proj present => load");
    assert!(dspark_present(3, true), "num_mtp=3, main_proj present => load");
    assert!(
        !dspark_present(1, false),
        "num_mtp=1 but no main_proj => skip (NVIDIA-style MTP)"
    );
    assert!(!dspark_present(0, true), "num_mtp=0 => skip even if main_proj present");
    assert!(!dspark_present(0, false), "num_mtp=0, no main_proj => skip");
}

#[test]
fn drafter_has_a_ring_per_stage() {
    let mut gpu = MockGpuBackend::new();
    let d = DeepseekV4DSparkHead::new(module(), w(1), w(2), &config(), F32Bits(9), &mut gpu, 50).unwrap();
    assert_eq!(d.main_kv_caches.len(), 2);
    assert_eq!(d.main_kv_caches[0].bytes, 8 * 16 * 2);
    assert_eq!(d.block_size, 3);
    assert_eq!(d.noise_token_id, 9);
    assert_eq!((d.drafter_nq, d.drafter_o_groups), (4, 2));
    assert_eq!(gpu.commands[0], Command::Alloc { bytes: 256 });
    assert!(matches!(gpu.commands[1], Command::Op { op: Op::Memset { value: 0, bytes: 256, .. }, .. }));
    assert_eq!(
        gpu.commands[4],
        Command::Kernel { module: "rms_norm_vanilla".to_string(), func: "rms_norm_vanilla".to_string() }
    );
    match &gpu.commands[gpu.command_count() - 1] {
        Command::H2d { data, dst } => {
            assert_eq!(*dst, d.q_headnorm_ones.weight);
            assert_eq!(data.len(), 32);
            assert_eq!(data[0..2], [0x80, 0x3f]);
        }
        other => panic!("{:?}", other),
    }
    let before = gpu.command_count();
    gpu.layer_state = LayerState::StateSpace(SsmLayerState { h_state: p(1), conv_state: p(2) });
    let state = d.alloc_state_inner(&mut gpu).unwrap();
    assert_eq!(state.main_kv_pos, 0);
    assert_eq!(state.body_states, vec![gpu.layer_state; 2]);
    assert_eq!(
        gpu.commands[before..],
        [
            Command::AllocState { kind: LayerKind::DraftStage, index: 0 },
            Command::AllocState { kind: LayerKind::DraftStage, index: 1 }
        ]
    );
    gpu.refuse_at = Some(before + 3);
    assert!(d.alloc_state_inner(&mut gpu).is_err());
}

#[test]
fn drafter_without_a_window_has_no_rings() {
    let mut c = config();
    c.dspark_window_size = 0;
    let mut gpu = MockGpuBackend::new();
    let mut d = DeepseekV4DSparkHead::new(module(), w(1), w(2), &c, F32Bits(9), &mut gpu, 0).unwrap();
    assert!(d.main_kv_caches.is_empty());
    let mut gpu = MockGpuBackend::new();
    let r = d.propose(&mut gpu, 5, 0, 1, &mut fresh_state(), &context(), &no_inject(), Some(p(1)), 0).unwrap();
    assert!(r.is_empty());
    assert_eq!(gpu.command_count(), 0);
}

#[test]
fn head_counts_are_over_all_ranks() {
    let mut c = config();
    c.tp_world_size = 4;
    assert_eq!(drafter_head_counts(&c), (16, 8));
}

#[test]
fn rings_are_zeroed_when_they_are_made_and_reset() {
    let mut gpu = MockGpuBackend::new();
    let ring = DsparkMainKvCache::new(&mut gpu, 128, 576, 2).unwrap();
    assert_eq!(ring.bytes, 2 * 128 * 576 * 2);
    assert_eq!(ring.row_offset(1, 0), 128 * 576 * 2);
    ring.reset(&mut gpu).unwrap();
    assert_eq!(ops(&gpu)[1], Op::Memset { ptr: ring.buf, value: 0, bytes: ring.bytes });
    gpu.refuse_at = Some(3);
    assert!(DsparkMainKvCache::new(&mut gpu, 8, 8, 1).is_err());
}

#[test]
fn stack_of_target_rows_is_folded_and_normed() {
    let mut gpu = MockGpuBackend::new();
    drafter().project_main(&mut gpu, p(0x100), p(0x200), &context(), None, 1).unwrap();
    let all = ops(&gpu);
    assert!(matches!(
        all[0],
        Op::DenseGemv { input: DevicePtr(0x100), n: 64, k: 128, weight: DenseWeight { weight: DevicePtr(0x640) }, .. }
    ));
    assert!(matches!(all[1], Op::RmsNorm { output: DevicePtr(0x200), rows: 1, cols: 64, .. }));
}

#[test]
fn proposal_drafts_the_token_of_the_first_row() {
    let mut d = drafter();
    let mut gpu = MockGpuBackend::new();
    let tok = |t: u32| t.to_le_bytes().to_vec();
    gpu.reads = vec![tok(31), tok(32), tok(33), vec![0x80, 0x3f]];
    assert_eq!(d.last_confidence(), None);
    let r = d.propose(&mut gpu, 5, 6, 1, &mut fresh_state(), &context(), &no_inject(), Some(p(0x10)), 0).unwrap();
    assert_eq!(r, vec![31]);
    assert_eq!(d.last_confidence(), Some(F32Bits(1.0f32.to_bits())));
    // The block is the last token and noise behind it.
    let embeds: Vec<u64> = ops(&gpu)
        .iter()
        .filter_map(|op| match op {
            Op::CopyD2d { src, .. } if src.0 >= 0x900_0000 => Some((src.0 - 0x900_0000) / 128),
            _ => None,
        })
        .collect();
    assert_eq!(embeds, vec![5, 9, 9]);
    // The attention reads the ring up to the committed position.
    let launch = gpu.commands.iter().find_map(|c| match c {
        Command::Launch { kernel, params, grid, .. } if *kernel == d.kernels.dspark_attn_k => {
            Some((params.clone(), *grid))
        }
        _ => None,
    });
    let (params, grid) = launch.unwrap();
    assert_eq!(grid, [3 * 4, 1, 1]);
    assert_eq!(params[2], d.main_kv_caches[0].buf.0);
    assert_eq!(params[11], 8);
    let valid = gpu
        .commands
        .iter()
        .filter_map(|c| match c {
            Command::H2d { data, dst } if dst.0 == params[3] => Some(data.clone()),
            _ => None,
        })
        .next()
        .unwrap();
    assert_eq!(valid, 7i32.to_le_bytes().to_vec());
}

#[test]
fn dumps_are_asked_for_and_change_nothing_else() {
    let run = |dump: Option<usize>, dump_stages: bool| {
        let mut gpu = MockGpuBackend::new();
        let inject = DsparkInject { dump, dump_stages, ..no_inject() };
        drafter().propose(&mut gpu, 5, 6, 1, &mut fresh_state(), &context(), &inject, Some(p(0x10)), 0).unwrap();
        gpu.commands
    };
    let is_dump = |c: &Command| matches!(c, Command::Op { op: Op::Dump { .. }, .. });
    let plain = run(None, true);
    assert!(!plain.iter().any(is_dump), "stage boundaries alone are not dumped");
    let outer = run(Some(7), false);
    let points: Vec<(Boundary, usize, u32, u32, bool)> = outer
        .iter()
        .filter_map(|c| match c {
            Command::Op { op: Op::Dump { at, call, rows, cols, fp32, .. }, .. } => Some((*at, *call, *rows, *cols, *fp32)),
            _ => None,
        })
        .collect();
    assert_eq!(
        points,
        vec![
            (Boundary::MainHiddenIn, 7, 1, 128, false),
            (Boundary::MainProjOut, 7, 1, 64, false),
            (Boundary::MainNormOut, 7, 1, 64, false),
            (Boundary::StageOut, 0, 6, 64, true),
            (Boundary::StageOut, 1, 6, 64, true),
        ]
    );
    let mut all = run(Some(7), true);
    assert_eq!(all.iter().filter(|c| is_dump(c)).count(), 3 + 2 * 13);
    all.retain(|c| !is_dump(c));
    assert_eq!(all, plain);
}

#[test]
fn proposal_gives_back_every_buffer() {
    let mut d = drafter();
    let mut gpu = MockGpuBackend::new();
    let mut inject = no_inject();
    inject.main_hidden = InjectFile::Bytes(vec![0u8; 64 * 2 * 2]);
    d.propose(&mut gpu, 5, 6, 1, &mut fresh_state(), &context(), &inject, None, 0).unwrap();
    let taken = gpu.commands.iter().filter(|c| matches!(c, Command::Alloc { .. })).count();
    let mut freed: Vec<u64> = ops(&gpu)
        .iter()
        .filter_map(|op| match op {
            Op::Free { ptr } => Some(ptr.0),
            _ => None,
        })
        .collect();
    assert_eq!(taken, 1 + 8 + 2 + 2 * 13 + 9);
    assert_eq!(freed.len(), taken);
    freed.sort();
    freed.dedup();
    assert_eq!(freed.len(), taken);
}

#[test]
fn proposal_needs_target_rows() {
    let mut d = drafter();
    let mut gpu = MockGpuBackend::new();
    let r = d.propose(&mut gpu, 5, 6, 1, &mut fresh_state(), &context(), &no_inject(), None, 0).unwrap();
    assert!(r.is_empty());
    assert_eq!(gpu.command_count(), 0);
}

#[test]
fn dummy_proposal_repeats_the_last_token() {
    let mut d = drafter();
    let mut gpu = MockGpuBackend::new();
    let mut inject = no_inject();
    inject.emit_dummy = true;
    let r = d.propose(&mut gpu, 5, 6, 1, &mut fresh_state(), &context(), &inject, Some(p(0x10)), 0).unwrap();
    assert_eq!(r, vec![5]);
    assert_eq!(gpu.command_count(), 2);
}

#[test]
fn state_keeps_how_many_were_proposed() {
    let mut d = drafter();
    let mut gpu = MockGpuBackend::new();
    let mut inject = no_inject();
    inject.emit_dummy = true;
    let mut state = ProposerState::V4DSpark(DeepseekV4DSparkProposerState {
        main_kv_pos: 4,
        last_num_drafted: 7,
        body_states: Vec::new(),
    });
    let drafted = |s: &ProposerState| match s {
        ProposerState::V4DSpark(t) => (t.main_kv_pos, t.last_num_drafted),
        _ => unreachable!(),
    };
    let r = d.propose(&mut gpu, 5, 6, 3, &mut state, &context(), &inject, Some(p(0x10)), 0).unwrap();
    assert_eq!(r.len(), 1);
    assert_eq!(drafted(&state), (4, 1));
    let r = d.propose(&mut gpu, 5, 6, 1, &mut state, &context(), &no_inject(), None, 0).unwrap();
    assert!(r.is_empty());
    assert_eq!(drafted(&state), (4, 0));
}

#[test]
fn failed_forward_proposes_nothing() {
    let mut d = drafter();
    let mut gpu = MockGpuBackend::new();
    gpu.refuse_at = Some(10);
    let r = d.propose(&mut gpu, 5, 6, 1, &mut fresh_state(), &context(), &no_inject(), Some(p(0x10)), 0).unwrap();
    assert!(r.is_empty());
    assert_eq!(gpu.command_count(), 11);
    assert_eq!(d.last_confidence(), None);
}

#[test]
fn forward_errors_name_their_cause() {
    let run = |m: DeepseekV4DSparkModule, inject: DsparkInject| {
        let mut d = drafter_of(m);
        let mut gpu = MockGpuBackend::new();
        d.run_stage_forward_dev(&mut gpu, 5, 6, &context(), &inject, 0)
    };
    let mut m = module();
    m.stages[0].hc = None;
    assert_eq!(run(m, no_inject()), Err(DsparkError::NoHcWeights));
    let mut m = module();
    m.stages[1].mla = None;
    assert_eq!(run(m, no_inject()), Err(DsparkError::NoMlaWeights { stage: 1 }));
    let mut m = module();
    m.hc_head = None;
    assert_eq!(run(m, no_inject()), Err(DsparkError::NoHcHead));
    let mut i = no_inject();
    i.rings[1] = InjectFile::Unreadable;
    assert_eq!(run(module(), i), Err(DsparkError::RingUnreadable { stage: 1 }));
    let mut i = no_inject();
    i.rings[0] = InjectFile::Bytes(vec![0; 5]);
    assert_eq!(run(module(), i), Err(DsparkError::RingSize { stage: 0, found: 5, expected: 256 }));
    let mut i = no_inject();
    i.rings[0] = InjectFile::Bytes(vec![0; 256]);
    assert!(run(module(), i).is_ok());
}

#[test]
fn proposal_errors_name_their_cause() {
    let mut d = drafter();
    let mut gpu = MockGpuBackend::new();
    let mut i = no_inject();
    i.main_hidden = InjectFile::Unreadable;
    let r = d.propose(&mut gpu, 5, 6, 1, &mut fresh_state(), &context(), &i, None, 0);
    assert_eq!(r, Err(DsparkError::MainHiddenUnreadable));
    i.main_hidden = InjectFile::Bytes(vec![0; 3]);
    let r = d.propose(&mut gpu, 5, 6, 1, &mut fresh_state(), &context(), &i, None, 0);
    assert_eq!(r, Err(DsparkError::MainHiddenSize { found: 3, expected: 256 }));
    gpu.refuse_at = Some(0);
    let r = d.propose(&mut gpu, 5, 6, 1, &mut fresh_state(), &context(), &no_inject(), Some(p(1)), 0);
    assert!(matches!(r, Err(DsparkError::Gpu(_))));
}

#[test]
fn injected_anchor_and_position_replace_live_ones() {
    let mut d = drafter();
    let mut gpu = MockGpuBackend::new();
    let mut i = no_inject();
    i.anchor = Some(70);
    i.position = Some(1);
    d.propose(&mut gpu, 5, 6, 1, &mut fresh_state(), &context(), &i, Some(p(0x10)), 0).unwrap();
    let first = ops(&gpu)
        .iter()
        .find_map(|op| match op {
            Op::CopyD2d { src, .. } if src.0 >= 0x900_0000 => Some((src.0 - 0x900_0000) / 128),
            _ => None,
        })
        .unwrap();
    assert_eq!(first, 70);
    let positions = gpu
        .commands
        .iter()
        .find_map(|c| match c {
            Command::H2d { data, .. } if data.len() == 12 => Some(data.clone()),
            _ => None,
        })
        .unwrap();
    assert_eq!(positions, vec![1, 0, 0, 0, 2, 0, 0, 0, 3, 0, 0, 0]);
}

#[test]
fn verification_advances_the_state() {
    let d = drafter();
    let mut s = fresh_state();
    d.after_verify(3, &mut s).unwrap();
    match &s {
        ProposerState::V4DSpark(t) => assert_eq!(t.main_kv_pos, 7),
        _ => unreachable!(),
    }
    let mut gpu = MockGpuBackend::new();
    d.free_state(&mut gpu, &mut s).unwrap();
    assert_eq!(ops(&gpu).len(), 2);
    match &s {
        ProposerState::V4DSpark(t) => assert_eq!((t.main_kv_pos, t.last_num_drafted), (0, 0)),
        _ => unreachable!(),
    }
    gpu.refuse_at = Some(2);
    assert!(matches!(d.free_state(&mut gpu, &mut s), Err(DsparkError::Gpu(_))));
}

#[test]
fn confidence_that_is_no_number_is_none() {
    let mut d = drafter();
    d.last_conf = Some(F32Bits(f32::NAN.to_bits()));
    assert_eq!(d.last_confidence(), None);
    d.last_conf = Some(F32Bits(f32::INFINITY.to_bits()));
    assert_eq!(d.last_confidence(), Some(F32Bits(f32::INFINITY.to_bits())));
}

#[test]
fn ring_advance_saturates_and_adds_up() {
    assert_eq!(ring_advance(usize::MAX, 1, 1), (usize::MAX, 0));
    let (mid, _) = ring_advance(10, 4, 2);
    assert_eq!(ring_advance(mid, 3, 3).0, ring_advance(10, 7, 5).0);
}

#[test]
fn ring_slots_of_one_window_differ() {
    let mut seen: Vec<usize> = (100..108).map(|p| ring_slot(p, 8)).collect();
    seen.sort();
    assert_eq!(seen, vec![0, 1, 2, 3, 4, 5, 6, 7]);
    assert_eq!(ring_slot(108, 8), ring_slot(100, 8));
}

#[test]
fn sparse_attention_launches_one_block_per_query_and_head() {
    let mut gpu = MockGpuBackend::new();
    dspark_sparse_attention(
        &mut gpu,
        KernelHandle(3),
        p(1),
        p(2),
        p(3),
        p(4),
        p(5),
        p(6),
        F32Bits(0x3f80_0000),
        2,
        3,
        4,
        16,
        8,
        7,
    )
    .unwrap();
    match &gpu.commands[0] {
        Command::Launch { grid, block, shared_mem, stream, params, .. } => {
            assert_eq!(*grid, [24, 1, 1]);
            assert_eq!(*block, [256, 1, 1]);
            assert_eq!(*shared_mem, (16 + 8 + 3) * 4);
            assert_eq!(*stream, 7);
            assert_eq!(*params, vec![1, 2, 3, 4, 5, 6, 0x3f80_0000, 2, 3, 4, 16, 8]);
        }
        other => panic!("{:?}", other),
    }
}
