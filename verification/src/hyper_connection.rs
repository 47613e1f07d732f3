//! Hyper-connection kernels: expand, collapse and mix the residual streams.
//!
//! The hidden state is held as `[T, hc_mult, H]`, stream-major per token. Every
//! kernel here runs one block of 256 threads per token.

use vstd::prelude::*;

use crate::gpu::{DevicePtr, F32Bits, GpuError, KernelHandle};
use crate::kernel_args::{launch_cmd, KernelLaunch};
use crate::trace::{done, ran, refusal, Cmd, GpuBackend};

verus! {

/// The command of [`hc_expand`].
pub open spec fn hc_expand_cmd(
    kernel: KernelHandle,
    hidden: DevicePtr,
    streams: DevicePtr,
    num_tokens: u32,
    hidden_size: u32,
    hc_mult: u32,
    stream: u64,
) -> Cmd {
    launch_cmd(
        kernel,
        (num_tokens, 1, 1),
        (256, 1, 1),
        0,
        stream,
        seq![
            hidden.0,
            streams.0,
            hidden_size as u64,
            hc_mult as u64,
        ],
    )
}

/// Broadcasts one hidden state into `hc_mult` identical streams:
/// `streams[t, i, d] = hidden[t, d]`.
pub fn hc_expand<G: GpuBackend>(
    gpu: &mut G,
    kernel: KernelHandle,
    hidden: DevicePtr,
    streams: DevicePtr,
    num_tokens: u32,
    hidden_size: u32,
    hc_mult: u32,
    stream: u64,
) -> (r: Result<(), GpuError>)
    ensures
        ran(
            old(gpu).trace(),
            seq![done(hc_expand_cmd(kernel, hidden, streams, num_tokens, hidden_size, hc_mult, stream))],
            final(gpu).trace(),
            refusal(r),
        ),
{
    let l = KernelLaunch::new(gpu, kernel).grid([num_tokens, 1, 1]).block([256, 1, 1]).arg_ptr(hidden).arg_ptr(streams).arg_u32(hidden_size).arg_u32(hc_mult);
    assert(l.storage@ =~= seq![
            hidden.0,
            streams.0,
            hidden_size as u64,
            hc_mult as u64,
    ]);
    assert(l.grid@ =~= seq![num_tokens, 1, 1]);
    assert(l.block@ =~= seq![256u32, 1, 1]);
    l.launch(stream)
}

/// The command of [`hc_pre`].
pub open spec fn hc_pre_cmd(
    kernel: KernelHandle,
    streams: DevicePtr,
    hc_fn: DevicePtr,
    hc_scale: DevicePtr,
    hc_base: DevicePtr,
    y_out: DevicePtr,
    post_out: DevicePtr,
    comb_out: DevicePtr,
    num_tokens: u32,
    hidden_size: u32,
    hc_mult: u32,
    sinkhorn_iters: u32,
    norm_eps: F32Bits,
    hc_eps: F32Bits,
    stream: u64,
) -> Cmd {
    launch_cmd(
        kernel,
        (num_tokens, 1, 1),
        (256, 1, 1),
        0,
        stream,
        seq![
            streams.0,
            hc_fn.0,
            hc_scale.0,
            hc_base.0,
            y_out.0,
            post_out.0,
            comb_out.0,
            hidden_size as u64,
            hc_mult as u64,
            sinkhorn_iters as u64,
            norm_eps.0 as u64,
            hc_eps.0 as u64,
        ],
    )
}

/// Collapses `hc_mult` streams to one and emits `post` / `comb` for the
/// matching [`hc_post`].
pub fn hc_pre<G: GpuBackend>(
    gpu: &mut G,
    kernel: KernelHandle,
    streams: DevicePtr,
    hc_fn: DevicePtr,
    hc_scale: DevicePtr,
    hc_base: DevicePtr,
    y_out: DevicePtr,
    post_out: DevicePtr,
    comb_out: DevicePtr,
    num_tokens: u32,
    hidden_size: u32,
    hc_mult: u32,
    sinkhorn_iters: u32,
    norm_eps: F32Bits,
    hc_eps: F32Bits,
    stream: u64,
) -> (r: Result<(), GpuError>)
    ensures
        ran(
            old(gpu).trace(),
            seq![done(hc_pre_cmd(kernel, streams, hc_fn, hc_scale, hc_base, y_out, post_out, comb_out, num_tokens, hidden_size, hc_mult, sinkhorn_iters, norm_eps, hc_eps, stream))],
            final(gpu).trace(),
            refusal(r),
        ),
{
    let l = KernelLaunch::new(gpu, kernel).grid([num_tokens, 1, 1]).block([256, 1, 1]).arg_ptr(streams).arg_ptr(hc_fn).arg_ptr(hc_scale).arg_ptr(hc_base).arg_ptr(y_out).arg_ptr(post_out).arg_ptr(comb_out).arg_u32(hidden_size).arg_u32(hc_mult).arg_u32(sinkhorn_iters).arg_f32(norm_eps).arg_f32(hc_eps);
    assert(l.storage@ =~= seq![
            streams.0,
            hc_fn.0,
            hc_scale.0,
            hc_base.0,
            y_out.0,
            post_out.0,
            comb_out.0,
            hidden_size as u64,
            hc_mult as u64,
            sinkhorn_iters as u64,
            norm_eps.0 as u64,
            hc_eps.0 as u64,
    ]);
    assert(l.grid@ =~= seq![num_tokens, 1, 1]);
    assert(l.block@ =~= seq![256u32, 1, 1]);
    l.launch(stream)
}

/// The command of [`hc_post`].
pub open spec fn hc_post_cmd(
    kernel: KernelHandle,
    block_out: DevicePtr,
    residual: DevicePtr,
    post: DevicePtr,
    comb: DevicePtr,
    out: DevicePtr,
    num_tokens: u32,
    hidden_size: u32,
    hc_mult: u32,
    stream: u64,
) -> Cmd {
    launch_cmd(
        kernel,
        (num_tokens, 1, 1),
        (256, 1, 1),
        0,
        stream,
        seq![
            block_out.0,
            residual.0,
            post.0,
            comb.0,
            out.0,
            hidden_size as u64,
            hc_mult as u64,
        ],
    )
}

/// Expands a sublayer output back into `hc_mult` streams, mixing the saved
/// residual streams through `comb`. `out` may alias `residual`.
pub fn hc_post<G: GpuBackend>(
    gpu: &mut G,
    kernel: KernelHandle,
    block_out: DevicePtr,
    residual: DevicePtr,
    post: DevicePtr,
    comb: DevicePtr,
    out: DevicePtr,
    num_tokens: u32,
    hidden_size: u32,
    hc_mult: u32,
    stream: u64,
) -> (r: Result<(), GpuError>)
    ensures
        ran(
            old(gpu).trace(),
            seq![done(hc_post_cmd(kernel, block_out, residual, post, comb, out, num_tokens, hidden_size, hc_mult, stream))],
            final(gpu).trace(),
            refusal(r),
        ),
{
    let l = KernelLaunch::new(gpu, kernel).grid([num_tokens, 1, 1]).block([256, 1, 1]).arg_ptr(block_out).arg_ptr(residual).arg_ptr(post).arg_ptr(comb).arg_ptr(out).arg_u32(hidden_size).arg_u32(hc_mult);
    assert(l.storage@ =~= seq![
            block_out.0,
            residual.0,
            post.0,
            comb.0,
            out.0,
            hidden_size as u64,
            hc_mult as u64,
    ]);
    assert(l.grid@ =~= seq![num_tokens, 1, 1]);
    assert(l.block@ =~= seq![256u32, 1, 1]);
    l.launch(stream)
}

/// The command of [`hc_head`].
pub open spec fn hc_head_cmd(
    kernel: KernelHandle,
    streams: DevicePtr,
    head_fn: DevicePtr,
    head_scale: DevicePtr,
    head_base: DevicePtr,
    y_out: DevicePtr,
    num_tokens: u32,
    hidden_size: u32,
    hc_mult: u32,
    norm_eps: F32Bits,
    hc_eps: F32Bits,
    stream: u64,
) -> Cmd {
    launch_cmd(
        kernel,
        (num_tokens, 1, 1),
        (256, 1, 1),
        0,
        stream,
        seq![
            streams.0,
            head_fn.0,
            head_scale.0,
            head_base.0,
            y_out.0,
            hidden_size as u64,
            hc_mult as u64,
            norm_eps.0 as u64,
            hc_eps.0 as u64,
        ],
    )
}

/// Final collapse before the language-model head: a learned weighted sum over
/// the `hc_mult` streams.
pub fn hc_head<G: GpuBackend>(
    gpu: &mut G,
    kernel: KernelHandle,
    streams: DevicePtr,
    head_fn: DevicePtr,
    head_scale: DevicePtr,
    head_base: DevicePtr,
    y_out: DevicePtr,
    num_tokens: u32,
    hidden_size: u32,
    hc_mult: u32,
    norm_eps: F32Bits,
    hc_eps: F32Bits,
    stream: u64,
) -> (r: Result<(), GpuError>)
    ensures
        ran(
            old(gpu).trace(),
            seq![done(hc_head_cmd(kernel, streams, head_fn, head_scale, head_base, y_out, num_tokens, hidden_size, hc_mult, norm_eps, hc_eps, stream))],
            final(gpu).trace(),
            refusal(r),
        ),
{
    let l = KernelLaunch::new(gpu, kernel).grid([num_tokens, 1, 1]).block([256, 1, 1]).arg_ptr(streams).arg_ptr(head_fn).arg_ptr(head_scale).arg_ptr(head_base).arg_ptr(y_out).arg_u32(hidden_size).arg_u32(hc_mult).arg_f32(norm_eps).arg_f32(hc_eps);
    assert(l.storage@ =~= seq![
            streams.0,
            head_fn.0,
            head_scale.0,
            head_base.0,
            y_out.0,
            hidden_size as u64,
            hc_mult as u64,
            norm_eps.0 as u64,
            hc_eps.0 as u64,
    ]);
    assert(l.grid@ =~= seq![num_tokens, 1, 1]);
    assert(l.block@ =~= seq![256u32, 1, 1]);
    l.launch(stream)
}

/// The command of [`hc_stream_mean`].
pub open spec fn hc_stream_mean_cmd(
    kernel: KernelHandle,
    streams: DevicePtr,
    out: DevicePtr,
    num_tokens: u32,
    hidden_size: u32,
    hc_mult: u32,
    stream: u64,
) -> Cmd {
    launch_cmd(
        kernel,
        (num_tokens, 1, 1),
        (256, 1, 1),
        0,
        stream,
        seq![
            streams.0,
            out.0,
            hidden_size as u64,
            hc_mult as u64,
        ],
    )
}

/// Plain mean over the `hc_mult` streams: `out[t, d] = mean_i streams[t, i, d]`.
/// Reads `streams` and writes only `out`.
pub fn hc_stream_mean<G: GpuBackend>(
    gpu: &mut G,
    kernel: KernelHandle,
    streams: DevicePtr,
    out: DevicePtr,
    num_tokens: u32,
    hidden_size: u32,
    hc_mult: u32,
    stream: u64,
) -> (r: Result<(), GpuError>)
    ensures
        ran(
            old(gpu).trace(),
            seq![done(hc_stream_mean_cmd(kernel, streams, out, num_tokens, hidden_size, hc_mult, stream))],
            final(gpu).trace(),
            refusal(r),
        ),
{
    let l = KernelLaunch::new(gpu, kernel).grid([num_tokens, 1, 1]).block([256, 1, 1]).arg_ptr(streams).arg_ptr(out).arg_u32(hidden_size).arg_u32(hc_mult);
    assert(l.storage@ =~= seq![
            streams.0,
            out.0,
            hidden_size as u64,
            hc_mult as u64,
    ]);
    assert(l.grid@ =~= seq![num_tokens, 1, 1]);
    assert(l.block@ =~= seq![256u32, 1, 1]);
    l.launch(stream)
}

} // verus!
