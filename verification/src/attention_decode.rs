//! Single-token decode of an attention layer.
//!
//! A layer runs its attention and its feed-forward block over one hidden row.
//! Both blocks answer with the address of the row they wrote, so the program of
//! a layer depends on those answers as well as on its arguments.

use vstd::prelude::*;

use crate::attention::{HcSite, HcWeights, Qwen3AttentionLayer};
use crate::config::{ForwardContext, ModelType};
use crate::gpu::{DenseWeight, DevicePtr, GpuError};
use crate::kv_cache::{cache_id, PagedKvCache};
use crate::op::{AttendCall, CacheId, Call, DiagPoint, FfnKind, Observation, Op};
use crate::run::{all_fit, attend_step, call_step, go_attend, go_call, go_ops, steps};
use crate::text::{is_setting, setting_is};
use crate::timed::{
    events, go_pieces, lemma_pieces_run, lemma_timed_len, lemma_timed_plain, lemma_timed_prefix, lemma_timed_then, pieces_fit,
    pieces_steps, plain, ran_timed, timed, untimed, untimed_all, Piece, Step,
};
use crate::trace::{lemma_ran_len, lemma_ran_prefix, left, ran, refusal, tables, Event, GpuBackend, Left, Tables};

verus! {

/// The arguments of one decode.
#[derive(Clone, Copy, PartialEq, Eq, Structural, Debug)]
pub struct DecodeCall {
    pub layer: Qwen3AttentionLayer,
    pub ctx: ForwardContext,
    pub hidden: DevicePtr,
    pub residual: DevicePtr,
    pub seq_len: usize,
    /// The cache that the call writes to.
    pub cache: CacheId,
    pub flags: DecodeFlags,
    pub stream: u64,
}

/// The settings of the draft body and of the diagnostics, as they were given.
pub struct DecodeSettings<'a> {
    pub use_mhc: Option<&'a str>,
    pub body_attn_only: Option<&'a str>,
    pub moe_decode: Option<&'a str>,
    pub diag_gemma4: Option<&'a str>,
    pub diag_v4: Option<&'a str>,
    pub diag_v4_all_layers: Option<&'a str>,
}

/// Switches of the draft body and of the diagnostics.
#[derive(Clone, Copy, PartialEq, Eq, Structural, Debug)]
pub struct DecodeFlags {
    /// The draft body runs on one residual stream.
    pub mtp_mhc_off: bool,
    /// The single-stream draft body skips its feed-forward block.
    pub mtp_attn_only: bool,
    /// The single-stream draft body decodes through its experts one row at a time.
    pub mtp_moe_decode: bool,
    /// The norms of a single-stream layer are logged.
    pub diag_gemma4: bool,
    /// The norms of the first layer of several streams are logged.
    pub diag_v4: bool,
    /// They are logged for every such layer.
    pub diag_v4_all_layers: bool,
}

/// A diagnostic is on where its setting is `1` or `true`.
pub open spec fn is_on(setting: Option<&str>) -> bool {
    is_setting(setting, "1"@) || is_setting(setting, "true"@)
}

fn switched_on(setting: Option<&str>) -> (r: bool)
    ensures
        r == is_on(setting),
{
    setting_is(setting, "1") || setting_is(setting, "true")
}

pub open spec fn decode_flags(s: DecodeSettings) -> DecodeFlags {
    DecodeFlags {
        mtp_mhc_off: is_setting(s.use_mhc, "0"@),
        mtp_attn_only: is_setting(s.body_attn_only, "1"@),
        mtp_moe_decode: is_setting(s.moe_decode, "1"@),
        diag_gemma4: is_on(s.diag_gemma4),
        diag_v4: is_on(s.diag_v4),
        diag_v4_all_layers: is_on(s.diag_v4_all_layers),
    }
}

impl DecodeFlags {
    /// Reads the settings: several streams are off where their setting is exactly
    /// `0`, the other switches of the draft body are on where theirs is exactly
    /// `1`, and diagnostics where theirs is `1` or `true`.
    pub fn from_settings(s: &DecodeSettings) -> (r: DecodeFlags)
        ensures
            r == decode_flags(*s),
    {
        DecodeFlags {
            mtp_mhc_off: setting_is(s.use_mhc, "0"),
            mtp_attn_only: setting_is(s.body_attn_only, "1"),
            mtp_moe_decode: setting_is(s.moe_decode, "1"),
            diag_gemma4: switched_on(s.diag_gemma4),
            diag_v4: switched_on(s.diag_v4),
            diag_v4_all_layers: switched_on(s.diag_v4_all_layers),
        }
    }
}

/// What the blocks of a layer answered.
pub struct DecodeReplies {
    pub attn: DevicePtr,
    /// What the attention left of the tables.
    pub left: Left,
    pub ffn: DevicePtr,
    pub moe: DevicePtr,
}

/// What is left of the tables: what they held, until the attention is asked for,
/// which `entry` commands precede.
pub open spec fn left_after(before: Left, d: DecodeReplies, entry: nat, pre: Seq<Event>, post: Seq<Event>) -> Left {
    if post.len() > pre.len() + entry {
        d.left
    } else {
        before
    }
}

impl DecodeCall {
    pub open spec fn h(self) -> u32 {
        self.ctx.config.hidden_size as u32
    }

    pub open spec fn row_bytes(self) -> usize {
        (self.ctx.config.hidden_size * 2) as usize
    }

    pub open spec fn fits(self) -> bool {
        &&& self.ctx.config.hidden_size * 2 <= usize::MAX
        &&& self.layer.attn_layer_idx < usize::MAX
        &&& self.v4_diag() && self.layer.hc is Some ==> {
            let m = self.layer.hc->0.hc_mult as u32;
            m * m <= usize::MAX && m * self.ctx.config.hidden_size <= usize::MAX
        }
    }

    /// The norms of a single-stream layer are logged. Nothing can be read while
    /// the commands are being recorded.
    pub open spec fn gemma_diag(self) -> bool {
        self.ctx.config.model_type == ModelType::Gemma4 && self.flags.diag_gemma4 && !self.ctx.graph_capture
    }

    /// The norms of a layer of several streams are logged.
    pub open spec fn v4_diag(self) -> bool {
        self.flags.diag_v4 && (self.layer.attn_layer_idx == 0 || self.flags.diag_v4_all_layers)
    }

    /// A look at `n` values, where it is asked for.
    pub open spec fn look_if(self, on: bool, point: DiagPoint, ptr: DevicePtr, n: usize, fp32: bool) -> Seq<Op> {
        if on {
            seq![Op::Observe { what: Observation::Norm { point, layer: self.layer.attn_layer_idx, ptr, n, fp32 } }]
        } else {
            Seq::empty()
        }
    }

    /// A look at a BF16 row of a single-stream layer.
    pub open spec fn gemma_look(self, on: bool, point: DiagPoint, ptr: DevicePtr) -> Seq<Op> {
        self.look_if(on && self.gemma_diag(), point, ptr, self.ctx.config.hidden_size, false)
    }

    pub open spec fn norm_op(self, input: DevicePtr, weight: DenseWeight, output: DevicePtr) -> Op {
        Op::RmsNorm {
            kernel: self.layer.rms_norm_w_k,
            input,
            weight,
            output,
            rows: 1,
            cols: self.h(),
            eps: self.ctx.config.rms_norm_eps,
        }
    }

    /// An in-place norm, where the layer has one there.
    pub open spec fn norm_if(self, weight: Option<DenseWeight>, row: DevicePtr) -> Seq<Op> {
        match weight {
            Some(w) => seq![self.norm_op(row, w, row)],
            None => Seq::empty(),
        }
    }

    pub open spec fn add_op(self, dst: DevicePtr, src: DevicePtr) -> Op {
        Op::ResidualAdd { kernel: self.layer.residual_add_k, dst, src, n: self.h() }
    }

    /// The reduction across ranks that completes the attention output.
    pub open spec fn reduce_if(self, row: DevicePtr) -> Seq<Op> {
        if self.ctx.config.tp_world_size > 1 && self.ctx.comm {
            seq![Op::AllReduceAsync { ptr: row, bytes: self.row_bytes() }]
        } else {
            Seq::empty()
        }
    }

    pub open spec fn scalar_if(self, row: DevicePtr) -> Seq<Op> {
        match self.layer.layer_scalar {
            Some(scalar) => seq![Op::LayerScalar { hidden: row, n: self.ctx.config.hidden_size, scalar }],
            None => Seq::empty(),
        }
    }

    pub open spec fn attend(self) -> AttendCall {
        AttendCall {
            layer: self.layer.attn_layer_idx,
            normed: self.ctx.buffers.norm_output,
            seq_len: self.seq_len,
            cache: self.cache,
            ctx: self.ctx,
        }
    }

    /// The attention block, on the tables `t`.
    pub open spec fn attended(self, t: Tables, d: DecodeReplies) -> Event {
        attend_step(self.attend(), t, self.stream, d.attn, d.left)
    }

    pub open spec fn feed(self, ffn: FfnKind, input: DevicePtr) -> Call {
        Call::FfnForward { ffn, layer: self.layer.attn_layer_idx, input, ctx: self.ctx }
    }

    pub open spec fn feed_prefill(self) -> Op {
        Op::FfnForwardPrefill {
            ffn: FfnKind::Main,
            layer: self.layer.attn_layer_idx,
            input: self.ctx.buffers.norm_output,
            tokens: 1,
            ctx: self.ctx,
        }
    }

    fn is_gemma_diag(&self) -> (r: bool)
        ensures
            r == self.gemma_diag(),
    {
        self.ctx.config.model_type == ModelType::Gemma4 && self.flags.diag_gemma4 && !self.ctx.graph_capture
    }

    fn push_gemma_look(&self, ops: &mut Vec<Op>, on: bool, point: DiagPoint, ptr: DevicePtr)
        ensures
            final(ops)@ == old(ops)@ + self.gemma_look(on, point, ptr),
    {
        if on && self.is_gemma_diag() {
            let what = Observation::Norm {
                point,
                layer: self.layer.attn_layer_idx,
                ptr,
                n: self.ctx.config.hidden_size,
                fp32: false,
            };
            ops.push(Op::Observe { what });
        }
        assert(ops@ =~= old(ops)@ + self.gemma_look(on, point, ptr));
    }

    fn push_norm(&self, ops: &mut Vec<Op>, input: DevicePtr, weight: DenseWeight, output: DevicePtr)
        ensures
            final(ops)@ == old(ops)@.push(self.norm_op(input, weight, output)),
    {
        ops.push(
            Op::RmsNorm {
                kernel: self.layer.rms_norm_w_k,
                input,
                weight,
                output,
                rows: 1,
                cols: self.ctx.config.hidden_size as u32,
                eps: self.ctx.config.rms_norm_eps,
            },
        );
    }

    fn push_norm_if(&self, ops: &mut Vec<Op>, weight: Option<DenseWeight>, row: DevicePtr)
        ensures
            final(ops)@ == old(ops)@ + self.norm_if(weight, row),
    {
        if let Some(w) = weight {
            self.push_norm(ops, row, w, row);
        }
        assert(ops@ =~= old(ops)@ + self.norm_if(weight, row));
    }

    fn push_add(&self, ops: &mut Vec<Op>, dst: DevicePtr, src: DevicePtr)
        ensures
            final(ops)@ == old(ops)@.push(self.add_op(dst, src)),
    {
        ops.push(
            Op::ResidualAdd { kernel: self.layer.residual_add_k, dst, src, n: self.ctx.config.hidden_size as u32 },
        );
    }

    fn push_reduce_if(&self, ops: &mut Vec<Op>, row: DevicePtr)
        requires
            self.fits(),
        ensures
            final(ops)@ == old(ops)@ + self.reduce_if(row),
    {
        if self.ctx.config.tp_world_size > 1 && self.ctx.comm {
            ops.push(Op::AllReduceAsync { ptr: row, bytes: self.ctx.config.hidden_size * 2 });
        }
        assert(ops@ =~= old(ops)@ + self.reduce_if(row));
    }

    fn push_scalar_if(&self, ops: &mut Vec<Op>, row: DevicePtr)
        ensures
            final(ops)@ == old(ops)@ + self.scalar_if(row),
    {
        if let Some(scalar) = self.layer.layer_scalar {
            ops.push(Op::LayerScalar { hidden: row, n: self.ctx.config.hidden_size, scalar });
        }
        assert(ops@ =~= old(ops)@ + self.scalar_if(row));
    }

    fn attend_call(&self) -> (r: AttendCall)
        ensures
            r == self.attend(),
    {
        AttendCall {
            layer: self.layer.attn_layer_idx,
            normed: self.ctx.buffers.norm_output,
            seq_len: self.seq_len,
            cache: self.cache,
            ctx: self.ctx,
        }
    }

    fn feed_call(&self, ffn: FfnKind, input: DevicePtr) -> (r: Call)
        ensures
            r == self.feed(ffn, input),
    {
        Call::FfnForward { ffn, layer: self.layer.attn_layer_idx, input, ctx: self.ctx }
    }
}

// ── one residual stream ──
/// Up to the attention.
#[verifier::opaque]
pub open spec fn entry_ops(c: DecodeCall) -> Seq<Op> {
    c.gemma_look(true, DiagPoint::HiddenIn, c.hidden) + seq![
        Op::RmsNormResidual {
            kernel: c.layer.rms_norm_residual_k,
            hidden: c.hidden,
            weight: c.layer.input_norm,
            output: c.ctx.buffers.norm_output,
            residual: c.residual,
            rows: 1,
            cols: c.h(),
            eps: c.ctx.config.rms_norm_eps,
        },
    ] + c.gemma_look(true, DiagPoint::Normed, c.ctx.buffers.norm_output)
}

/// The add of the attention output that also norms the feed-forward input.
pub open spec fn add_norm_op(c: DecodeCall, attn: DevicePtr) -> Op {
    Op::ResidualAddRmsNorm {
        kernel: c.layer.residual_add_rms_norm_k,
        hidden: c.hidden,
        add: attn,
        weight: c.layer.post_attn_norm,
        output: c.ctx.buffers.norm_output,
        residual: c.residual,
        rows: 1,
        cols: c.h(),
        eps: c.ctx.config.rms_norm_eps,
    }
}

/// The same, with the router's input kept in single precision.
pub open spec fn add_norm_gate_op(c: DecodeCall, attn: DevicePtr) -> Op {
    Op::ResidualAddRmsNormGateF32 {
        kernel: c.layer.residual_add_rms_norm_gatef32_k,
        hidden: c.hidden,
        add: attn,
        weight: c.layer.post_attn_norm,
        output: c.ctx.buffers.norm_output,
        router_out: c.ctx.buffers.moe_router_in_f32,
        residual: c.residual,
        rows: 1,
        cols: c.h(),
        eps: c.ctx.config.rms_norm_eps,
    }
}

pub open spec fn gated(c: DecodeCall) -> bool {
    c.layer.fp32_routing && c.layer.residual_add_rms_norm_gatef32_k.0 != 0
}

/// The layer runs an expert block beside its dense one.
pub open spec fn dual(c: DecodeCall) -> bool {
    &&& c.layer.has_moe_ffn
    &&& c.layer.pre_moe_norm is Some
    &&& c.layer.post_moe_out_norm is Some
    &&& c.layer.post_dense_ffn_norm is Some
}

/// From the attention to the feed-forward block, or to the end of a layer that
/// has none.
#[verifier::opaque]
pub open spec fn after_attn_ops(c: DecodeCall, attn: DevicePtr) -> Seq<Op> {
    let front = c.reduce_if(attn) + c.gemma_look(true, DiagPoint::AttnOut, attn) + c.norm_if(
        c.layer.post_attn_out_norm,
        attn,
    ) + c.gemma_look(c.layer.post_attn_out_norm is Some, DiagPoint::PostAttnNormed, attn);
    if !c.layer.has_ffn {
        front + seq![c.add_op(c.hidden, attn)]
    } else if c.ctx.profile {
        front + seq![Op::Synchronize, add_norm_op(c, attn)]
    } else {
        front + seq![if gated(c) { add_norm_gate_op(c, attn) } else { add_norm_op(c, attn) }] + c.gemma_look(
            !dual(c),
            DiagPoint::NormedFfn,
            c.ctx.buffers.norm_output,
        )
    }
}

/// The look at the hidden row at the end of a layer.
pub open spec fn end_look(c: DecodeCall) -> Seq<Op> {
    c.gemma_look(true, DiagPoint::PostResidual, c.hidden) + c.scalar_if(c.hidden) + c.gemma_look(
        c.layer.layer_scalar is Some,
        DiagPoint::PostLayerScalar,
        c.hidden,
    )
}

/// What follows a single feed-forward block.
#[verifier::opaque]
pub open spec fn plain_tail_ops(c: DecodeCall, ffn: DevicePtr) -> Seq<Op> {
    if c.ctx.profile {
        c.norm_if(c.layer.post_ffn_out_norm, ffn) + seq![Op::Synchronize, c.add_op(c.hidden, ffn)] + c.scalar_if(c.hidden)
    } else {
        c.gemma_look(true, DiagPoint::DenseOut, ffn) + c.norm_if(c.layer.post_ffn_out_norm, ffn) + c.gemma_look(
            c.layer.post_ffn_out_norm is Some,
            DiagPoint::PostFfnNormed,
            ffn,
        ) + seq![c.add_op(c.hidden, ffn)] + end_look(c)
    }
}

/// Between the expert block and the dense block of a dual layer: the expert
/// output is normed and put aside.
#[verifier::opaque]
pub open spec fn dual_mid_ops(c: DecodeCall, moe: DevicePtr) -> Seq<Op> {
    seq![
        c.norm_op(moe, c.layer.post_moe_out_norm->0, moe),
        Op::CopyD2d { src: moe, dst: c.ctx.buffers.logits, bytes: c.row_bytes() },
    ]
}

/// What follows the dense block of a dual layer: both outputs, normed, are
/// combined and added to the hidden row.
#[verifier::opaque]
pub open spec fn dual_tail_ops(c: DecodeCall, ffn: DevicePtr) -> Seq<Op> {
    seq![c.norm_op(ffn, c.layer.post_dense_ffn_norm->0, ffn), c.add_op(ffn, c.ctx.buffers.logits)] + c.norm_if(
        c.layer.post_ffn_out_norm,
        ffn,
    ) + seq![c.add_op(c.hidden, ffn)] + end_look(c)
}

/// The program of a layer over one residual stream.
pub open spec fn decode_steps(c: DecodeCall, t: Tables, d: DecodeReplies) -> Seq<Event> {
    let front = steps(entry_ops(c), c.stream) + seq![c.attended(t, d)] + steps(
        after_attn_ops(c, d.attn),
        c.stream,
    );
    if !c.layer.has_ffn {
        front
    } else if !c.ctx.profile && dual(c) {
        front + seq![call_step(c.feed(FfnKind::ExtraMoe, c.hidden), c.stream, d.moe)] + steps(
            dual_mid_ops(c, d.moe),
            c.stream,
        ) + seq![call_step(c.feed(FfnKind::Main, c.ctx.buffers.norm_output), c.stream, d.ffn)] + steps(
            dual_tail_ops(c, d.ffn),
            c.stream,
        )
    } else {
        front + seq![call_step(c.feed(FfnKind::Main, c.ctx.buffers.norm_output), c.stream, d.ffn)] + steps(
            plain_tail_ops(c, d.ffn),
            c.stream,
        )
    }
}

fn build_entry(c: &DecodeCall) -> (r: Vec<Op>)
    ensures
        r@ == entry_ops(*c),
        all_fit(r@),
{
    reveal(entry_ops);
    let mut r: Vec<Op> = Vec::new();
    c.push_gemma_look(&mut r, true, DiagPoint::HiddenIn, c.hidden);
    r.push(
        Op::RmsNormResidual {
            kernel: c.layer.rms_norm_residual_k,
            hidden: c.hidden,
            weight: c.layer.input_norm,
            output: c.ctx.buffers.norm_output,
            residual: c.residual,
            rows: 1,
            cols: c.ctx.config.hidden_size as u32,
            eps: c.ctx.config.rms_norm_eps,
        },
    );
    c.push_gemma_look(&mut r, true, DiagPoint::Normed, c.ctx.buffers.norm_output);
    assert(r@ =~= entry_ops(*c));
    r
}

fn make_add_norm(c: &DecodeCall, attn: DevicePtr) -> (r: Op)
    ensures
        r == add_norm_op(*c, attn),
{
    Op::ResidualAddRmsNorm {
        kernel: c.layer.residual_add_rms_norm_k,
        hidden: c.hidden,
        add: attn,
        weight: c.layer.post_attn_norm,
        output: c.ctx.buffers.norm_output,
        residual: c.residual,
        rows: 1,
        cols: c.ctx.config.hidden_size as u32,
        eps: c.ctx.config.rms_norm_eps,
    }
}

fn make_add_norm_gate(c: &DecodeCall, attn: DevicePtr) -> (r: Op)
    ensures
        r == add_norm_gate_op(*c, attn),
{
    Op::ResidualAddRmsNormGateF32 {
        kernel: c.layer.residual_add_rms_norm_gatef32_k,
        hidden: c.hidden,
        add: attn,
        weight: c.layer.post_attn_norm,
        output: c.ctx.buffers.norm_output,
        router_out: c.ctx.buffers.moe_router_in_f32,
        residual: c.residual,
        rows: 1,
        cols: c.ctx.config.hidden_size as u32,
        eps: c.ctx.config.rms_norm_eps,
    }
}

fn is_dual(c: &DecodeCall) -> (r: bool)
    ensures
        r == dual(*c),
{
    c.layer.has_moe_ffn && c.layer.pre_moe_norm.is_some() && c.layer.post_moe_out_norm.is_some()
        && c.layer.post_dense_ffn_norm.is_some()
}

fn push_end_look(c: &DecodeCall, ops: &mut Vec<Op>)
    ensures
        final(ops)@ == old(ops)@ + end_look(*c),
{
    c.push_gemma_look(ops, true, DiagPoint::PostResidual, c.hidden);
    c.push_scalar_if(ops, c.hidden);
    c.push_gemma_look(ops, c.layer.layer_scalar.is_some(), DiagPoint::PostLayerScalar, c.hidden);
    assert(ops@ =~= old(ops)@ + end_look(*c));
}

fn build_after_attn(c: &DecodeCall, attn: DevicePtr) -> (r: Vec<Op>)
    requires
        c.fits(),
    ensures
        r@ == after_attn_ops(*c, attn),
        all_fit(r@),
        r@.len() > 0,
{
    reveal(after_attn_ops);
    let mut ops: Vec<Op> = Vec::new();
    c.push_reduce_if(&mut ops, attn);
    c.push_gemma_look(&mut ops, true, DiagPoint::AttnOut, attn);
    c.push_norm_if(&mut ops, c.layer.post_attn_out_norm, attn);
    c.push_gemma_look(&mut ops, c.layer.post_attn_out_norm.is_some(), DiagPoint::PostAttnNormed, attn);
    if !c.layer.has_ffn {
        c.push_add(&mut ops, c.hidden, attn);
    } else if c.ctx.profile {
        ops.push(Op::Synchronize);
        ops.push(make_add_norm(c, attn));
    } else {
        if c.layer.fp32_routing && c.layer.residual_add_rms_norm_gatef32_k.0 != 0 {
            ops.push(make_add_norm_gate(c, attn));
        } else {
            ops.push(make_add_norm(c, attn));
        }
        c.push_gemma_look(&mut ops, !is_dual(c), DiagPoint::NormedFfn, c.ctx.buffers.norm_output);
    }
    assert(ops@ =~= after_attn_ops(*c, attn));
    ops
}

fn build_plain_tail(c: &DecodeCall, ffn: DevicePtr) -> (r: Vec<Op>)
    ensures
        r@ == plain_tail_ops(*c, ffn),
        all_fit(r@),
{
    reveal(plain_tail_ops);
    let mut ops: Vec<Op> = Vec::new();
    if c.ctx.profile {
        c.push_norm_if(&mut ops, c.layer.post_ffn_out_norm, ffn);
        ops.push(Op::Synchronize);
        c.push_add(&mut ops, c.hidden, ffn);
        c.push_scalar_if(&mut ops, c.hidden);
    } else {
        c.push_gemma_look(&mut ops, true, DiagPoint::DenseOut, ffn);
        c.push_norm_if(&mut ops, c.layer.post_ffn_out_norm, ffn);
        c.push_gemma_look(&mut ops, c.layer.post_ffn_out_norm.is_some(), DiagPoint::PostFfnNormed, ffn);
        c.push_add(&mut ops, c.hidden, ffn);
        push_end_look(c, &mut ops);
    }
    assert(ops@ =~= plain_tail_ops(*c, ffn));
    ops
}

fn build_dual_mid(c: &DecodeCall, moe: DevicePtr, post_norm: DenseWeight) -> (r: Vec<Op>)
    requires
        c.fits(),
        c.layer.post_moe_out_norm == Some(post_norm),
    ensures
        r@ == dual_mid_ops(*c, moe),
        all_fit(r@),
{
    reveal(dual_mid_ops);
    let mut ops: Vec<Op> = Vec::new();
    c.push_norm(&mut ops, moe, post_norm, moe);
    ops.push(Op::CopyD2d { src: moe, dst: c.ctx.buffers.logits, bytes: c.ctx.config.hidden_size * 2 });
    assert(ops@ =~= dual_mid_ops(*c, moe));
    ops
}

fn build_dual_tail(c: &DecodeCall, ffn: DevicePtr, dense_norm: DenseWeight) -> (r: Vec<Op>)
    requires
        c.layer.post_dense_ffn_norm == Some(dense_norm),
    ensures
        r@ == dual_tail_ops(*c, ffn),
        all_fit(r@),
{
    reveal(dual_tail_ops);
    let mut ops: Vec<Op> = Vec::new();
    c.push_norm(&mut ops, ffn, dense_norm, ffn);
    c.push_add(&mut ops, ffn, c.ctx.buffers.logits);
    c.push_norm_if(&mut ops, c.layer.post_ffn_out_norm, ffn);
    c.push_add(&mut ops, c.hidden, ffn);
    push_end_look(c, &mut ops);
    assert(ops@ =~= dual_tail_ops(*c, ffn));
    ops
}

pub open spec fn null_replies() -> DecodeReplies {
    DecodeReplies {
        attn: DevicePtr(0),
        left: left(Seq::empty(), Seq::empty()),
        ffn: DevicePtr(0),
        moe: DevicePtr(0),
    }
}

impl Qwen3AttentionLayer {
    /// Decodes one token over one residual stream.
    fn decode_plain<G: GpuBackend>(
        gpu: &mut G,
        c: &DecodeCall,
        block_table: &Vec<u32>,
        disk_block_ids: &mut Vec<u32>,
        disk_last_offloaded_per_layer: &mut Vec<u32>,
    ) -> (r: Result<(), GpuError>)
        requires
            c.fits(),
            c.layer.hc is None,
        ensures
            exists|d: DecodeReplies|
                #[trigger] decoded(
                    *c,
                    tables(block_table@, old(disk_block_ids)@, old(disk_last_offloaded_per_layer)@),
                    left(final(disk_block_ids)@, final(disk_last_offloaded_per_layer)@),
                    old(gpu).trace(),
                    final(gpu).trace(),
                    r,
                    d,
                ),
    {
        let ghost t = tables(block_table@, disk_block_ids@, disk_last_offloaded_per_layer@);
        let ghost pre = gpu.trace();
        let ghost s0 = Seq::<Event>::empty();
        assert(pre =~= pre + s0);
        let ghost mut d = null_replies();
        let entry = build_entry(c);
        let ghost s1 = s0 + steps(entry@, c.stream);
        if let Err(e) = go_ops(gpu, &entry, c.stream, Ghost(pre), Ghost(s0)) {
            proof {
                lemma_ran_len(pre, s1, gpu.trace(), e);
                assert(decode_steps(*c, t, d).take(s1.len() as int) =~= s1);
                lemma_ran_prefix(pre, s1, decode_steps(*c, t, d), gpu.trace(), e);
                assert(decoded(*c, t, left(disk_block_ids@, disk_last_offloaded_per_layer@), pre, gpu.trace(), Err(e), d));
            }
            return Err(e);
        }
        let attn = match go_attend(
            gpu,
            &c.attend_call(),
            block_table,
            disk_block_ids,
            disk_last_offloaded_per_layer,
            c.stream,
            Ghost(pre),
            Ghost(s1),
        ) {
            Ok(p) => p,
            Err(e) => {
                proof {
                    d = DecodeReplies { left: left(disk_block_ids@, disk_last_offloaded_per_layer@), ..d };
                    let s2 = s1 + seq![c.attended(t, d)];
                    assert(decode_steps(*c, t, d).take(s2.len() as int) =~= s2);
                    lemma_ran_prefix(pre, s2, decode_steps(*c, t, d), gpu.trace(), e);
                    assert(decoded(*c, t, left(disk_block_ids@, disk_last_offloaded_per_layer@), pre, gpu.trace(), Err(e), d));
                }
                return Err(e);
            },
        };
        proof {
            d = DecodeReplies { attn, left: left(disk_block_ids@, disk_last_offloaded_per_layer@), ..d };
        }
        let ghost s2 = s1 + seq![c.attended(t, d)];
        let mid = build_after_attn(c, attn);
        let ghost s3 = s2 + steps(mid@, c.stream);
        if let Err(e) = go_ops(gpu, &mid, c.stream, Ghost(pre), Ghost(s2)) {
            proof {
                assert(decode_steps(*c, t, d).take(s3.len() as int) =~= s3);
                lemma_ran_prefix(pre, s3, decode_steps(*c, t, d), gpu.trace(), e);
                assert(decoded(*c, t, left(disk_block_ids@, disk_last_offloaded_per_layer@), pre, gpu.trace(), Err(e), d));
            }
            return Err(e);
        }
        if !c.layer.has_ffn {
            proof {
                assert(decode_steps(*c, t, d) =~= s3);
                assert(decoded(*c, t, left(disk_block_ids@, disk_last_offloaded_per_layer@), pre, gpu.trace(), Ok(()), d));
            }
            return Ok(());
        }
        let ghost mut s4 = s3;
        let dual_norms = if !c.ctx.profile && c.layer.has_moe_ffn {
            match (c.layer.pre_moe_norm, c.layer.post_moe_out_norm, c.layer.post_dense_ffn_norm) {
                (Some(_), Some(post), Some(dense)) => Some((post, dense)),
                _ => None,
            }
        } else {
            None
        };
        if let Some((post_norm, _)) = dual_norms {
            let moe = match go_call(gpu, c.feed_call(FfnKind::ExtraMoe, c.hidden), c.stream, Ghost(pre), Ghost(s3)) {
                Ok(p) => p,
                Err(e) => {
                    proof {
                        let s = s3 + seq![call_step(c.feed(FfnKind::ExtraMoe, c.hidden), c.stream, d.moe)];
                        assert(decode_steps(*c, t, d).take(s.len() as int) =~= s);
                        lemma_ran_prefix(pre, s, decode_steps(*c, t, d), gpu.trace(), e);
                        assert(decoded(*c, t, left(disk_block_ids@, disk_last_offloaded_per_layer@), pre, gpu.trace(), Err(e), d));
                    }
                    return Err(e);
                },
            };
            proof {
                d = DecodeReplies { moe, ..d };
            }
            let ghost sm = s3 + seq![call_step(c.feed(FfnKind::ExtraMoe, c.hidden), c.stream, moe)];
            let ops = build_dual_mid(c, moe, post_norm);
            proof {
                s4 = sm + steps(ops@, c.stream);
            }
            if let Err(e) = go_ops(gpu, &ops, c.stream, Ghost(pre), Ghost(sm)) {
                proof {
                    assert(decode_steps(*c, t, d).take(s4.len() as int) =~= s4);
                    lemma_ran_prefix(pre, s4, decode_steps(*c, t, d), gpu.trace(), e);
                    assert(decoded(*c, t, left(disk_block_ids@, disk_last_offloaded_per_layer@), pre, gpu.trace(), Err(e), d));
                }
                return Err(e);
            }
        }
        let ffn = match go_call(
            gpu,
            c.feed_call(FfnKind::Main, c.ctx.buffers.norm_output),
            c.stream,
            Ghost(pre),
            Ghost(s4),
        ) {
            Ok(p) => p,
            Err(e) => {
                proof {
                    let s = s4 + seq![call_step(c.feed(FfnKind::Main, c.ctx.buffers.norm_output), c.stream, d.ffn)];
                    assert(decode_steps(*c, t, d).take(s.len() as int) =~= s);
                    lemma_ran_prefix(pre, s, decode_steps(*c, t, d), gpu.trace(), e);
                    assert(decoded(*c, t, left(disk_block_ids@, disk_last_offloaded_per_layer@), pre, gpu.trace(), Err(e), d));
                }
                return Err(e);
            },
        };
        proof {
            d = DecodeReplies { ffn, ..d };
        }
        let ghost s5 = s4 + seq![call_step(c.feed(FfnKind::Main, c.ctx.buffers.norm_output), c.stream, ffn)];
        let tail = match dual_norms {
            Some((_, dense_norm)) => build_dual_tail(c, ffn, dense_norm),
            None => build_plain_tail(c, ffn),
        };
        let r = go_ops(gpu, &tail, c.stream, Ghost(pre), Ghost(s5));
        proof {
            assert(decode_steps(*c, t, d) =~= s5 + steps(tail@, c.stream));
            assert(decoded(*c, t, left(disk_block_ids@, disk_last_offloaded_per_layer@), pre, gpu.trace(), r, d));
        }
        r
    }
}

// ── several residual streams ──
pub open spec fn hc_of(c: DecodeCall) -> HcWeights {
    c.layer.hc->0
}

/// A draft body that runs on one residual stream although it has weights for
/// several.
pub open spec fn single_body(c: DecodeCall) -> bool {
    (c.cache.config.num_layers == 1 || c.layer.attn_layer_idx >= c.ctx.config.num_hidden_layers) && c.flags.mtp_mhc_off
}

pub open spec fn hc_pre_op(c: DecodeCall, site: HcSite) -> Op {
    Op::HcPreParallel {
        mix: c.layer.hc_pre_mix_parallel_k,
        finalize: c.layer.hc_pre_finalize_k,
        streams: c.ctx.buffers.hc_streams,
        hc_fn: site.hc_fn,
        hc_scale: site.hc_scale,
        hc_base: site.hc_base,
        y_out: c.hidden,
        post_out: c.ctx.buffers.hc_post,
        comb_out: c.ctx.buffers.hc_comb,
        num_tokens: 1,
        hidden_size: c.h(),
        hc_mult: hc_of(c).hc_mult as u32,
        sinkhorn_iters: hc_of(c).sinkhorn_iters as u32,
        norm_eps: c.ctx.config.rms_norm_eps,
        hc_eps: hc_of(c).hc_eps,
    }
}

pub open spec fn hc_post_op(c: DecodeCall, row: DevicePtr) -> Op {
    Op::HcPost {
        kernel: c.layer.hc_post_k,
        block_out: row,
        residual: c.ctx.buffers.hc_streams,
        post: c.ctx.buffers.hc_post,
        comb: c.ctx.buffers.hc_comb,
        out: c.ctx.buffers.hc_streams,
        num_tokens: 1,
        hidden_size: c.h(),
        hc_mult: hc_of(c).hc_mult as u32,
    }
}

/// The streams are made before the first layer.
pub open spec fn hc_expand_if(c: DecodeCall) -> Seq<Op> {
    if c.layer.attn_layer_idx == 0 {
        seq![
            Op::HcExpand {
                kernel: c.layer.hc_expand_k,
                hidden: c.hidden,
                streams: c.ctx.buffers.hc_streams,
                num_tokens: 1,
                hidden_size: c.h(),
                hc_mult: hc_of(c).hc_mult as u32,
            },
        ]
    } else {
        Seq::empty()
    }
}

/// The streams are collapsed after the last layer, where it has the weights.
pub open spec fn hc_head_if(c: DecodeCall) -> Seq<Op> {
    if c.layer.attn_layer_idx + 1 == c.ctx.config.num_hidden_layers {
        match hc_of(c).head {
            Some(head) => seq![
                Op::HcHead {
                    kernel: c.layer.hc_head_k,
                    streams: c.ctx.buffers.hc_streams,
                    head_fn: head.hc_fn,
                    head_scale: head.hc_scale,
                    head_base: head.hc_base,
                    y_out: c.hidden,
                    num_tokens: 1,
                    hidden_size: c.h(),
                    hc_mult: hc_of(c).hc_mult as u32,
                    norm_eps: c.ctx.config.rms_norm_eps,
                    hc_eps: hc_of(c).hc_eps,
                },
            ],
            None => Seq::empty(),
        }
    } else {
        Seq::empty()
    }
}

/// An operation as a piece that is timed, where there is one.
pub open spec fn timed_all(ops: Seq<Op>) -> Seq<Piece> {
    Seq::new(ops.len(), |i: int| timed(ops[i]))
}

/// Looks at the values around a collapse of the streams: the row, and the two
/// sets of weights that go with it.
pub open spec fn collapse_look(c: DecodeCall, row: DiagPoint, post: DiagPoint, comb: DiagPoint) -> Seq<Piece> {
    let m = hc_of(c).hc_mult as u32;
    untimed_all(
        c.look_if(c.v4_diag(), row, c.hidden, c.ctx.config.hidden_size, false) + c.look_if(
            c.v4_diag(),
            post,
            c.ctx.buffers.hc_post,
            m as usize,
            true,
        ) + c.look_if(c.v4_diag(), comb, c.ctx.buffers.hc_comb, (m * m) as usize, true),
    )
}

/// Looks at the streams: at the first, and at all.
pub open spec fn streams_look(c: DecodeCall, first: DiagPoint, all: DiagPoint) -> Seq<Piece> {
    let streams = c.ctx.buffers.hc_streams;
    untimed_all(
        c.look_if(c.v4_diag(), first, streams, c.ctx.config.hidden_size, false) + c.look_if(
            c.v4_diag(),
            all,
            streams,
            ((hc_of(c).hc_mult as u32) * c.ctx.config.hidden_size) as usize,
            false,
        ),
    )
}

/// Up to the attention.
#[verifier::opaque]
pub open spec fn hc_entry(c: DecodeCall) -> Seq<Piece> {
    let norm = c.norm_op(c.hidden, c.layer.input_norm, c.ctx.buffers.norm_output);
    if single_body(c) {
        seq![untimed(norm)]
    } else {
        untimed_all(hc_expand_if(c)) + seq![timed(hc_pre_op(c, hc_of(c).attn))] + collapse_look(
            c,
            DiagPoint::HcPreAttn,
            DiagPoint::HcPostWeightsAttn,
            DiagPoint::HcCombAttn,
        ) + seq![timed(norm)]
    }
}

/// The layer ends with its attention.
pub open spec fn hc_attn_only(c: DecodeCall) -> bool {
    !c.layer.has_ffn || (single_body(c) && c.flags.mtp_attn_only)
}

/// The feed-forward block runs through the batched dispatch. A draft body owns
/// all its experts and keeps them laid out for that dispatch.
pub open spec fn hc_batched_ffn(c: DecodeCall) -> bool {
    if single_body(c) {
        !c.flags.mtp_moe_decode
    } else {
        c.layer.attn_layer_idx == c.ctx.config.num_hidden_layers && c.ctx.config.model_type == ModelType::DeepseekV4
    }
}

/// The row after the attention, added to what the layer carries on.
pub open spec fn hc_attn_back(c: DecodeCall, attn: DevicePtr) -> Seq<Piece> {
    if single_body(c) {
        untimed_all(c.norm_if(c.layer.post_attn_out_norm, attn) + seq![c.add_op(c.hidden, attn)])
    } else {
        timed_all(c.reduce_if(attn) + c.norm_if(c.layer.post_attn_out_norm, attn) + seq![hc_post_op(c, attn)])
    }
}

/// From the attention to the feed-forward block, or to the end of the layer.
#[verifier::opaque]
pub open spec fn hc_mid(c: DecodeCall, attn: DevicePtr) -> Seq<Piece> {
    let front = hc_attn_back(c, attn);
    let norm = c.norm_op(c.hidden, c.layer.post_attn_norm, c.ctx.buffers.norm_output);
    let batched = if hc_batched_ffn(c) { seq![untimed(c.feed_prefill())] } else { Seq::empty() };
    if hc_attn_only(c) {
        if single_body(c) { front } else { front + untimed_all(hc_head_if(c)) }
    } else if single_body(c) {
        front + seq![untimed(norm)] + batched
    } else {
        front + streams_look(c, DiagPoint::HcPostAttn, DiagPoint::HcPostAttnAllStreams) + seq![
            timed(hc_pre_op(c, hc_of(c).ffn)),
        ] + collapse_look(c, DiagPoint::HcPreFfn, DiagPoint::HcPostWeightsFfn, DiagPoint::HcCombFfn) + seq![timed(norm)]
            + batched
    }
}

/// After the feed-forward block.
#[verifier::opaque]
pub open spec fn hc_tail(c: DecodeCall, ffn: DevicePtr) -> Seq<Piece> {
    if single_body(c) {
        untimed_all(c.norm_if(c.layer.post_ffn_out_norm, ffn) + seq![c.add_op(c.hidden, ffn)])
    } else {
        timed_all(c.norm_if(c.layer.post_ffn_out_norm, ffn)) + untimed_all(c.scalar_if(ffn)) + seq![
            timed(hc_post_op(c, ffn)),
        ] + streams_look(c, DiagPoint::HcPostFfn, DiagPoint::HcPostFfnAllStreams) + untimed_all(
            hc_head_if(c) + c.look_if(
                c.v4_diag() && hc_head_if(c).len() > 0,
                DiagPoint::HcHead,
                c.hidden,
                c.ctx.config.hidden_size,
                false,
            ),
        )
    }
}

/// The steps of some pieces of the layer.
pub open spec fn hc_steps(c: DecodeCall, pieces: Seq<Piece>) -> Seq<Step> {
    pieces_steps(pieces, c.ctx.profile, c.stream)
}

/// The program of a layer over several residual streams.
pub open spec fn hc_decode_steps(c: DecodeCall, t: Tables, d: DecodeReplies) -> Seq<Step> {
    let front = hc_steps(c, hc_entry(c)) + plain(seq![c.attended(t, d)]) + hc_steps(c, hc_mid(c, d.attn));
    if hc_attn_only(c) {
        front
    } else if hc_batched_ffn(c) {
        front + hc_steps(c, hc_tail(c, c.ctx.buffers.moe_output))
    } else {
        front + plain(seq![call_step(c.feed(FfnKind::Main, c.ctx.buffers.norm_output), c.stream, d.ffn)]) + hc_steps(
            c,
            hc_tail(c, d.ffn),
        )
    }
}

fn is_single_body(c: &DecodeCall) -> (r: bool)
    ensures
        r == single_body(*c),
{
    (c.cache.config.num_layers == 1 || c.layer.attn_layer_idx >= c.ctx.config.num_hidden_layers) && c.flags.mtp_mhc_off
}

fn make_hc_pre(c: &DecodeCall, hc: &HcWeights, site: &HcSite) -> (r: Op)
    requires
        c.layer.hc == Some(*hc),
    ensures
        r == hc_pre_op(*c, *site),
{
    Op::HcPreParallel {
        mix: c.layer.hc_pre_mix_parallel_k,
        finalize: c.layer.hc_pre_finalize_k,
        streams: c.ctx.buffers.hc_streams,
        hc_fn: site.hc_fn,
        hc_scale: site.hc_scale,
        hc_base: site.hc_base,
        y_out: c.hidden,
        post_out: c.ctx.buffers.hc_post,
        comb_out: c.ctx.buffers.hc_comb,
        num_tokens: 1,
        hidden_size: c.ctx.config.hidden_size as u32,
        hc_mult: hc.hc_mult as u32,
        sinkhorn_iters: hc.sinkhorn_iters as u32,
        norm_eps: c.ctx.config.rms_norm_eps,
        hc_eps: hc.hc_eps,
    }
}

fn make_hc_post(c: &DecodeCall, hc: &HcWeights, row: DevicePtr) -> (r: Op)
    requires
        c.layer.hc == Some(*hc),
    ensures
        r == hc_post_op(*c, row),
{
    Op::HcPost {
        kernel: c.layer.hc_post_k,
        block_out: row,
        residual: c.ctx.buffers.hc_streams,
        post: c.ctx.buffers.hc_post,
        comb: c.ctx.buffers.hc_comb,
        out: c.ctx.buffers.hc_streams,
        num_tokens: 1,
        hidden_size: c.ctx.config.hidden_size as u32,
        hc_mult: hc.hc_mult as u32,
    }
}

fn push_timed(pieces: &mut Vec<Piece>, op: Op)
    ensures
        final(pieces)@ == old(pieces)@.push(timed(op)),
{
    pieces.push(Piece { op, timed: true });
}

fn push_untimed(pieces: &mut Vec<Piece>, op: Op)
    ensures
        final(pieces)@ == old(pieces)@.push(untimed(op)),
{
    pieces.push(Piece { op, timed: false });
}

/// Appends operations, timed or not.
fn push_all(pieces: &mut Vec<Piece>, ops: &Vec<Op>, is_timed: bool)
    ensures
        final(pieces)@ == old(pieces)@ + if is_timed { timed_all(ops@) } else { untimed_all(ops@) },
{
    let ghost before = pieces@;
    let ghost all = if is_timed { timed_all(ops@) } else { untimed_all(ops@) };
    let mut i: usize = 0;
    assert(pieces@ =~= before + all.take(0));
    while i < ops.len()
        invariant
            i <= ops@.len(),
            all == if is_timed { timed_all(ops@) } else { untimed_all(ops@) },
            pieces@ == before + all.take(i as int),
        decreases ops@.len() - i,
    {
        pieces.push(Piece { op: ops[i], timed: is_timed });
        i += 1;
        assert(pieces@ =~= before + all.take(i as int));
    }
    assert(all.take(i as int) =~= all);
}

fn is_v4_diag(c: &DecodeCall) -> (r: bool)
    ensures
        r == c.v4_diag(),
{
    c.flags.diag_v4 && (c.layer.attn_layer_idx == 0 || c.flags.diag_v4_all_layers)
}

fn make_look(c: &DecodeCall, point: DiagPoint, ptr: DevicePtr, n: usize, fp32: bool) -> (r: Op)
    ensures
        seq![r] == c.look_if(true, point, ptr, n, fp32),
{
    Op::Observe { what: Observation::Norm { point, layer: c.layer.attn_layer_idx, ptr, n, fp32 } }
}

fn push_collapse_look(
    c: &DecodeCall,
    hc: &HcWeights,
    pieces: &mut Vec<Piece>,
    row: DiagPoint,
    post: DiagPoint,
    comb: DiagPoint,
)
    requires
        c.fits(),
        c.layer.hc == Some(*hc),
    ensures
        final(pieces)@ == old(pieces)@ + collapse_look(*c, row, post, comb),
{
    if is_v4_diag(c) {
        let m: usize = hc.hc_mult as u32 as usize;
        push_untimed(pieces, make_look(c, row, c.hidden, c.ctx.config.hidden_size, false));
        push_untimed(pieces, make_look(c, post, c.ctx.buffers.hc_post, m, true));
        push_untimed(pieces, make_look(c, comb, c.ctx.buffers.hc_comb, m * m, true));
    }
    assert(pieces@ =~= old(pieces)@ + collapse_look(*c, row, post, comb));
}

fn push_streams_look(c: &DecodeCall, hc: &HcWeights, pieces: &mut Vec<Piece>, first: DiagPoint, all: DiagPoint)
    requires
        c.fits(),
        c.layer.hc == Some(*hc),
    ensures
        final(pieces)@ == old(pieces)@ + streams_look(*c, first, all),
{
    if is_v4_diag(c) {
        let h: usize = c.ctx.config.hidden_size;
        let streams = c.ctx.buffers.hc_streams;
        push_untimed(pieces, make_look(c, first, streams, h, false));
        push_untimed(pieces, make_look(c, all, streams, hc.hc_mult as u32 as usize * h, false));
    }
    assert(pieces@ =~= old(pieces)@ + streams_look(*c, first, all));
}

fn build_head_if(c: &DecodeCall, hc: &HcWeights) -> (r: Vec<Op>)
    requires
        c.fits(),
        c.layer.hc == Some(*hc),
    ensures
        r@ == hc_head_if(*c),
{
    let mut ops: Vec<Op> = Vec::new();
    if c.layer.attn_layer_idx + 1 == c.ctx.config.num_hidden_layers {
        if let Some(head) = hc.head {
            ops.push(
                Op::HcHead {
                    kernel: c.layer.hc_head_k,
                    streams: c.ctx.buffers.hc_streams,
                    head_fn: head.hc_fn,
                    head_scale: head.hc_scale,
                    head_base: head.hc_base,
                    y_out: c.hidden,
                    num_tokens: 1,
                    hidden_size: c.ctx.config.hidden_size as u32,
                    hc_mult: hc.hc_mult as u32,
                    norm_eps: c.ctx.config.rms_norm_eps,
                    hc_eps: hc.hc_eps,
                },
            );
        }
    }
    assert(ops@ =~= hc_head_if(*c));
    ops
}

fn build_hc_entry(c: &DecodeCall, hc: &HcWeights) -> (r: Vec<Piece>)
    requires
        c.fits(),
        c.layer.hc == Some(*hc),
    ensures
        r@ == hc_entry(*c),
        pieces_fit(r@),
{
    let mut norm: Vec<Op> = Vec::new();
    c.push_norm(&mut norm, c.hidden, c.layer.input_norm, c.ctx.buffers.norm_output);
    let mut pieces: Vec<Piece> = Vec::new();
    reveal(hc_entry);
    if is_single_body(c) {
        push_untimed(&mut pieces, norm[0]);
        assert(pieces@ =~= hc_entry(*c));
        return pieces;
    }
    if c.layer.attn_layer_idx == 0 {
        push_untimed(
            &mut pieces,
            Op::HcExpand {
                kernel: c.layer.hc_expand_k,
                hidden: c.hidden,
                streams: c.ctx.buffers.hc_streams,
                num_tokens: 1,
                hidden_size: c.ctx.config.hidden_size as u32,
                hc_mult: hc.hc_mult as u32,
            },
        );
    }
    push_timed(&mut pieces, make_hc_pre(c, hc, &hc.attn));
    push_collapse_look(
        c,
        hc,
        &mut pieces,
        DiagPoint::HcPreAttn,
        DiagPoint::HcPostWeightsAttn,
        DiagPoint::HcCombAttn,
    );
    push_timed(&mut pieces, norm[0]);
    assert(pieces@ =~= hc_entry(*c));
    pieces
}

fn is_attn_only(c: &DecodeCall) -> (r: bool)
    ensures
        r == hc_attn_only(*c),
{
    !c.layer.has_ffn || (is_single_body(c) && c.flags.mtp_attn_only)
}

fn is_batched_ffn(c: &DecodeCall) -> (r: bool)
    ensures
        r == hc_batched_ffn(*c),
{
    if is_single_body(c) {
        !c.flags.mtp_moe_decode
    } else {
        c.layer.attn_layer_idx == c.ctx.config.num_hidden_layers && c.ctx.config.model_type == ModelType::DeepseekV4
    }
}

fn build_attn_back(c: &DecodeCall, hc: &HcWeights, attn: DevicePtr) -> (r: Vec<Piece>)
    requires
        c.fits(),
        c.layer.hc == Some(*hc),
    ensures
        r@ == hc_attn_back(*c, attn),
        pieces_fit(r@),
        r@.len() > 0,
{
    let mut ops: Vec<Op> = Vec::new();
    let single = is_single_body(c);
    if single {
        c.push_norm_if(&mut ops, c.layer.post_attn_out_norm, attn);
        c.push_add(&mut ops, c.hidden, attn);
    } else {
        c.push_reduce_if(&mut ops, attn);
        c.push_norm_if(&mut ops, c.layer.post_attn_out_norm, attn);
        ops.push(make_hc_post(c, hc, attn));
    }
    let mut pieces: Vec<Piece> = Vec::new();
    push_all(&mut pieces, &ops, !single);
    assert(pieces@ =~= hc_attn_back(*c, attn));
    pieces
}

fn make_feed_prefill(c: &DecodeCall) -> (r: Op)
    ensures
        r == c.feed_prefill(),
{
    Op::FfnForwardPrefill {
        ffn: FfnKind::Main,
        layer: c.layer.attn_layer_idx,
        input: c.ctx.buffers.norm_output,
        tokens: 1,
        ctx: c.ctx,
    }
}

fn build_hc_mid(c: &DecodeCall, hc: &HcWeights, attn: DevicePtr) -> (r: Vec<Piece>)
    requires
        c.fits(),
        c.layer.hc == Some(*hc),
    ensures
        r@ == hc_mid(*c, attn),
        pieces_fit(r@),
        r@.len() > 0,
{
    let single = is_single_body(c);
    let mut pieces = build_attn_back(c, hc, attn);
    let mut norm: Vec<Op> = Vec::new();
    c.push_norm(&mut norm, c.hidden, c.layer.post_attn_norm, c.ctx.buffers.norm_output);
    reveal(hc_mid);
    if is_attn_only(c) {
        if !single {
            let head = build_head_if(c, hc);
            push_all(&mut pieces, &head, false);
        }
        assert(pieces@ =~= hc_mid(*c, attn));
        return pieces;
    }
    if single {
        push_untimed(&mut pieces, norm[0]);
    } else {
        push_streams_look(c, hc, &mut pieces, DiagPoint::HcPostAttn, DiagPoint::HcPostAttnAllStreams);
        push_timed(&mut pieces, make_hc_pre(c, hc, &hc.ffn));
        push_collapse_look(
            c,
            hc,
            &mut pieces,
            DiagPoint::HcPreFfn,
            DiagPoint::HcPostWeightsFfn,
            DiagPoint::HcCombFfn,
        );
        push_timed(&mut pieces, norm[0]);
    }
    if is_batched_ffn(c) {
        push_untimed(&mut pieces, make_feed_prefill(c));
    }
    assert(pieces@ =~= hc_mid(*c, attn));
    pieces
}

fn build_hc_tail(c: &DecodeCall, hc: &HcWeights, ffn: DevicePtr) -> (r: Vec<Piece>)
    requires
        c.fits(),
        c.layer.hc == Some(*hc),
    ensures
        r@ == hc_tail(*c, ffn),
        pieces_fit(r@),
{
    reveal(hc_tail);
    let mut pieces: Vec<Piece> = Vec::new();
    let mut first: Vec<Op> = Vec::new();
    c.push_norm_if(&mut first, c.layer.post_ffn_out_norm, ffn);
    if is_single_body(c) {
        c.push_add(&mut first, c.hidden, ffn);
        push_all(&mut pieces, &first, false);
        assert(pieces@ =~= hc_tail(*c, ffn));
        return pieces;
    }
    push_all(&mut pieces, &first, true);
    let mut scalar: Vec<Op> = Vec::new();
    c.push_scalar_if(&mut scalar, ffn);
    push_all(&mut pieces, &scalar, false);
    push_timed(&mut pieces, make_hc_post(c, hc, ffn));
    push_streams_look(c, hc, &mut pieces, DiagPoint::HcPostFfn, DiagPoint::HcPostFfnAllStreams);
    let mut head = build_head_if(c, hc);
    if is_v4_diag(c) && head.len() > 0 {
        head.push(make_look(c, DiagPoint::HcHead, c.hidden, c.ctx.config.hidden_size, false));
    }
    assert(head@ =~= hc_head_if(*c) + c.look_if(
        c.v4_diag() && hc_head_if(*c).len() > 0,
        DiagPoint::HcHead,
        c.hidden,
        c.ctx.config.hidden_size,
        false,
    ));
    push_all(&mut pieces, &head, false);
    assert(pieces@ =~= hc_tail(*c, ffn));
    pieces
}

/// What decoding a token does to the device and to the tables: by the program of
/// one residual stream, or of several.
pub open spec fn decoded(
    c: DecodeCall,
    t: Tables,
    after: Left,
    pre: Seq<Event>,
    post: Seq<Event>,
    r: Result<(), GpuError>,
    d: DecodeReplies,
) -> bool {
    let before = left(t.ids, t.cursors);
    if c.layer.hc is Some {
        &&& ran_timed(pre, hc_decode_steps(c, t, d), post, refusal(r))
        &&& after == left_after(before, d, hc_steps(c, hc_entry(c)).len(), pre, post)
    } else {
        &&& ran(pre, decode_steps(c, t, d), post, refusal(r))
        &&& after == left_after(before, d, entry_ops(c).len(), pre, post)
    }
}

impl Qwen3AttentionLayer {
    /// Decodes one token over several residual streams.
    pub fn decode_inner_hc<G: GpuBackend>(
        gpu: &mut G,
        c: &DecodeCall,
        hc: &HcWeights,
        block_table: &Vec<u32>,
        disk_block_ids: &mut Vec<u32>,
        disk_last_offloaded_per_layer: &mut Vec<u32>,
    ) -> (r: Result<(), GpuError>)
        requires
            c.fits(),
            c.layer.hc == Some(*hc),
        ensures
            exists|d: DecodeReplies|
                #[trigger] decoded(
                    *c,
                    tables(block_table@, old(disk_block_ids)@, old(disk_last_offloaded_per_layer)@),
                    left(final(disk_block_ids)@, final(disk_last_offloaded_per_layer)@),
                    old(gpu).trace(),
                    final(gpu).trace(),
                    r,
                    d,
                ),
    {
        let ghost pre = gpu.trace();
        let ghost t = tables(block_table@, disk_block_ids@, disk_last_offloaded_per_layer@);
        let ghost s0 = Seq::<Step>::empty();
        assert(pre =~= pre + events(s0));
        let ghost mut d = null_replies();
        let timing = c.ctx.profile;
        let entry = build_hc_entry(c, hc);
        let ghost s1 = s0 + hc_steps(*c, entry@);
        assert(s1 =~= hc_steps(*c, hc_entry(*c)));
        if let Err(e) = go_pieces(gpu, &entry, timing, c.stream, Ghost(pre), Ghost(s0)) {
            proof {
                let all = hc_decode_steps(*c, t, d);
                lemma_timed_len(pre, s1, gpu.trace(), e);
                assert(all.take(s1.len() as int) =~= s1);
                lemma_timed_prefix(pre, s1, all, gpu.trace(), e);
                assert(decoded(*c, t, left(t.ids, t.cursors), pre, gpu.trace(), Err(e), d));
            }
            return Err(e);
        }
        let ghost m1 = gpu.trace();
        let attended = go_attend(
            gpu,
            &c.attend_call(),
            block_table,
            disk_block_ids,
            disk_last_offloaded_per_layer,
            c.stream,
            Ghost(m1),
            Ghost(Seq::empty()),
        );
        let attn = match attended {
            Ok(p) => p,
            Err(e) => {
                proof {
                    d = DecodeReplies { left: left(disk_block_ids@, disk_last_offloaded_per_layer@), ..d };
                    let all = hc_decode_steps(*c, t, d);
                    let one = seq![c.attended(t, d)];
                    let s2 = s1 + plain(one);
                    assert(Seq::<Event>::empty() + one =~= one);
                    lemma_timed_plain(m1, one, gpu.trace(), Some(e));
                    lemma_timed_then(pre, s1, m1, plain(one), gpu.trace(), Some(e));
                    assert(all.take(s2.len() as int) =~= s2);
                    lemma_timed_prefix(pre, s2, all, gpu.trace(), e);
                    assert(decoded(*c, t, d.left, pre, gpu.trace(), Err(e), d));
                }
                return Err(e);
            },
        };
        let ghost after = left(disk_block_ids@, disk_last_offloaded_per_layer@);
        proof {
            d = DecodeReplies { attn, left: after, ..d };
            let one = seq![c.attended(t, d)];
            assert(Seq::<Event>::empty() + one =~= one);
            lemma_timed_plain(m1, one, gpu.trace(), None);
            lemma_timed_then(pre, s1, m1, plain(one), gpu.trace(), None);
        }
        let ghost s2 = s1 + plain(seq![c.attended(t, d)]);
        let mid = build_hc_mid(c, hc, attn);
        let ghost s3 = s2 + hc_steps(*c, mid@);
        if let Err(e) = go_pieces(gpu, &mid, timing, c.stream, Ghost(pre), Ghost(s2)) {
            proof {
                let all = hc_decode_steps(*c, t, d);
                assert(all.take(s3.len() as int) =~= s3);
                lemma_timed_prefix(pre, s3, all, gpu.trace(), e);
                assert(decoded(*c, t, after, pre, gpu.trace(), Err(e), d));
            }
            return Err(e);
        }
        proof {
            lemma_pieces_run(mid@, timing, c.stream);
        }
        if is_attn_only(c) {
            proof {
                assert(hc_decode_steps(*c, t, d) =~= s3);
                assert(decoded(*c, t, after, pre, gpu.trace(), Ok(()), d));
            }
            return Ok(());
        }
        if is_batched_ffn(c) {
            let tail = build_hc_tail(c, hc, c.ctx.buffers.moe_output);
            let r = go_pieces(gpu, &tail, timing, c.stream, Ghost(pre), Ghost(s3));
            proof {
                assert(hc_decode_steps(*c, t, d) =~= s3 + hc_steps(*c, tail@));
                assert(decoded(*c, t, after, pre, gpu.trace(), r, d));
            }
            return r;
        }
        let ghost m3 = gpu.trace();
        let fed = go_call(
            gpu,
            c.feed_call(FfnKind::Main, c.ctx.buffers.norm_output),
            c.stream,
            Ghost(m3),
            Ghost(Seq::empty()),
        );
        let ffn = match fed {
            Ok(p) => p,
            Err(e) => {
                proof {
                    let all = hc_decode_steps(*c, t, d);
                    let one = seq![call_step(c.feed(FfnKind::Main, c.ctx.buffers.norm_output), c.stream, d.ffn)];
                    let s = s3 + plain(one);
                    assert(Seq::<Event>::empty() + one =~= one);
                    lemma_timed_plain(m3, one, gpu.trace(), Some(e));
                    lemma_timed_then(pre, s3, m3, plain(one), gpu.trace(), Some(e));
                    assert(all.take(s.len() as int) =~= s);
                    lemma_timed_prefix(pre, s, all, gpu.trace(), e);
                    assert(decoded(*c, t, after, pre, gpu.trace(), Err(e), d));
                }
                return Err(e);
            },
        };
        let ghost one = seq![call_step(c.feed(FfnKind::Main, c.ctx.buffers.norm_output), c.stream, ffn)];
        proof {
            d = DecodeReplies { ffn, ..d };
            assert(Seq::<Event>::empty() + one =~= one);
            lemma_timed_plain(m3, one, gpu.trace(), None);
            lemma_timed_then(pre, s3, m3, plain(one), gpu.trace(), None);
        }
        let ghost s4 = s3 + plain(one);
        let tail = build_hc_tail(c, hc, ffn);
        let r = go_pieces(gpu, &tail, timing, c.stream, Ghost(pre), Ghost(s4));
        proof {
            assert(hc_decode_steps(*c, t, d) =~= s4 + hc_steps(*c, tail@));
            assert(decoded(*c, t, after, pre, gpu.trace(), r, d));
        }
        r
    }

    /// Decodes one token.
    pub fn decode_inner<G: GpuBackend>(
        gpu: &mut G,
        c: &DecodeCall,
        block_table: &Vec<u32>,
        disk_block_ids: &mut Vec<u32>,
        disk_last_offloaded_per_layer: &mut Vec<u32>,
    ) -> (r: Result<(), GpuError>)
        requires
            c.fits(),
        ensures
            exists|d: DecodeReplies|
                #[trigger] decoded(
                    *c,
                    tables(block_table@, old(disk_block_ids)@, old(disk_last_offloaded_per_layer)@),
                    left(final(disk_block_ids)@, final(disk_last_offloaded_per_layer)@),
                    old(gpu).trace(),
                    final(gpu).trace(),
                    r,
                    d,
                ),
    {
        match c.layer.hc {
            Some(hc) => Self::decode_inner_hc(
                gpu,
                c,
                &hc,
                block_table,
                disk_block_ids,
                disk_last_offloaded_per_layer,
            ),
            None => Self::decode_plain(gpu, c, block_table, disk_block_ids, disk_last_offloaded_per_layer),
        }
    }

    /// Decodes one token: the layer's entry point.
    pub fn decode<G: GpuBackend>(
        &self,
        gpu: &mut G,
        hidden: DevicePtr,
        residual: DevicePtr,
        kv_cache: &PagedKvCache,
        seq_len: usize,
        block_table: &Vec<u32>,
        disk_block_ids: &mut Vec<u32>,
        disk_last_offloaded_per_layer: &mut Vec<u32>,
        ctx: &ForwardContext,
        flags: &DecodeFlags,
        stream: u64,
    ) -> (r: Result<(), GpuError>)
        requires
            decode_call(*self, *ctx, hidden, residual, seq_len, cache_id(*kv_cache), *flags, stream).fits(),
        ensures
            exists|d: DecodeReplies|
                #[trigger] decoded(
                    decode_call(*self, *ctx, hidden, residual, seq_len, cache_id(*kv_cache), *flags, stream),
                    tables(block_table@, old(disk_block_ids)@, old(disk_last_offloaded_per_layer)@),
                    left(final(disk_block_ids)@, final(disk_last_offloaded_per_layer)@),
                    old(gpu).trace(),
                    final(gpu).trace(),
                    r,
                    d,
                ),
    {
        let cache = kv_cache.id();
        let c = DecodeCall { layer: *self, ctx: *ctx, hidden, residual, seq_len, cache, flags: *flags, stream };
        Self::decode_inner(gpu, &c, block_table, disk_block_ids, disk_last_offloaded_per_layer)
    }
}

pub open spec fn decode_call(
    layer: Qwen3AttentionLayer,
    ctx: ForwardContext,
    hidden: DevicePtr,
    residual: DevicePtr,
    seq_len: usize,
    cache: CacheId,
    flags: DecodeFlags,
    stream: u64,
) -> DecodeCall {
    DecodeCall { layer, ctx, hidden, residual, seq_len, cache, flags, stream }
}

} // verus!
