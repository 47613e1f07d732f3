//! Sparse windowed latent attention of the block drafter.
//!
//! Attends over the sliding-window ring of main-token rows and the rows of the
//! current draft block, with an attention sink in the normaliser.

use vstd::prelude::*;

use crate::gpu::{DevicePtr, F32Bits, GpuError, KernelHandle};
use crate::kernel_args::{launch_cmd, KernelLaunch};
use crate::trace::{done, ran, refusal, Cmd, GpuBackend};

verus! {

/// The launch geometry fits its 32-bit fields.
pub open spec fn sparse_attention_fits(batch_size: u32, block_size: u32, num_heads: u32, head_dim: u32, window_size: u32) -> bool {
    &&& batch_size * block_size <= u32::MAX
    &&& batch_size * block_size * num_heads <= u32::MAX
    &&& (head_dim + window_size + block_size) * 4 <= u32::MAX
}

/// The command of [`dspark_sparse_attention`]: one block per `(batch, query,
/// head)`, and shared memory for one query row and one score per key.
pub open spec fn dspark_sparse_attention_cmd(
    kernel: KernelHandle,
    q: DevicePtr,
    draft_kv: DevicePtr,
    main_kv: DevicePtr,
    valid_main_lengths: DevicePtr,
    attn_sink: DevicePtr,
    out: DevicePtr,
    softmax_scale: F32Bits,
    batch_size: u32,
    block_size: u32,
    num_heads: u32,
    head_dim: u32,
    window_size: u32,
    stream: u64,
) -> Cmd {
    launch_cmd(
        kernel,
        ((batch_size * block_size * num_heads) as u32, 1, 1),
        (256, 1, 1),
        ((head_dim + window_size + block_size) * 4) as u32,
        stream,
        seq![
            q.0,
            draft_kv.0,
            main_kv.0,
            valid_main_lengths.0,
            attn_sink.0,
            out.0,
            softmax_scale.0 as u64,
            batch_size as u64,
            block_size as u64,
            num_heads as u64,
            head_dim as u64,
            window_size as u64,
        ],
    )
}

/// Runs the sparse attention. Shapes: `q [B, block, H, D]`, `draft_kv
/// [B, block, D]`, `main_kv [B, window, D]`, `out [B, block, H, D]`.
pub fn dspark_sparse_attention<G: GpuBackend>(
    gpu: &mut G,
    kernel: KernelHandle,
    q: DevicePtr,
    draft_kv: DevicePtr,
    main_kv: DevicePtr,
    valid_main_lengths: DevicePtr,
    attn_sink: DevicePtr,
    out: DevicePtr,
    softmax_scale: F32Bits,
    batch_size: u32,
    block_size: u32,
    num_heads: u32,
    head_dim: u32,
    window_size: u32,
    stream: u64,
) -> (r: Result<(), GpuError>)
    requires
        sparse_attention_fits(batch_size, block_size, num_heads, head_dim, window_size),
    ensures
        ran(
            old(gpu).trace(),
            seq![
                done(
                    dspark_sparse_attention_cmd(
                        kernel,
                        q,
                        draft_kv,
                        main_kv,
                        valid_main_lengths,
                        attn_sink,
                        out,
                        softmax_scale,
                        batch_size,
                        block_size,
                        num_heads,
                        head_dim,
                        window_size,
                        stream,
                    ),
                ),
            ],
            final(gpu).trace(),
            refusal(r),
        ),
{
    let programs: u32 = batch_size * block_size * num_heads;
    let shared_bytes: u32 = (head_dim + window_size + block_size) * 4;
    let l = KernelLaunch::new(gpu, kernel).grid([programs, 1, 1]).block([256, 1, 1]).shared_mem(
        shared_bytes,
    ).arg_ptr(q).arg_ptr(draft_kv).arg_ptr(main_kv).arg_ptr(valid_main_lengths).arg_ptr(
        attn_sink,
    ).arg_ptr(out).arg_f32(softmax_scale).arg_u32(batch_size).arg_u32(block_size).arg_u32(
        num_heads,
    ).arg_u32(head_dim).arg_u32(window_size);
    assert(l.storage@ =~= seq![
        q.0,
        draft_kv.0,
        main_kv.0,
        valid_main_lengths.0,
        attn_sink.0,
        out.0,
        softmax_scale.0 as u64,
        batch_size as u64,
        block_size as u64,
        num_heads as u64,
        head_dim as u64,
        window_size as u64,
    ]);
    assert(l.grid@ =~= seq![programs, 1, 1]);
    assert(l.block@ =~= seq![256u32, 1, 1]);
    l.launch(stream)
}

} // verus!
