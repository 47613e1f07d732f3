//! Proposals of the block drafter, and what verification makes of them.

use vstd::prelude::*;

use crate::buffers::{
    free_ops, given_back, lemma_allocs, lemma_buffers_add, lemma_frees, lemma_ops_added, lemma_quiet,
    lemma_quiet_added, lemma_quiet_ops, no_frees, quiet, taken,
};
use crate::config::ForwardContext;
use crate::dspark_block::{
    block_outcome, drafted_block_leaves_nothing_allocated, run_block, BlockCall, DsparkError, InjectFile, StageSet,
};
use crate::dspark_head::{reset_op, DeepseekV4DSparkHead, DeepseekV4DSparkProposerState, DsparkMainKvCache};
use crate::gpu::{DevicePtr, F32Bits, GpuError};
use crate::op::{Boundary, Op};
use crate::run::{
    all_fit, alloc_step, alloc_steps, dump_if, go_alloc, go_ops, go_put, lemma_steps_add, push_dump, put_step, run_ops,
    steps,
};
use crate::speculative::ProposerState;
use crate::trace::{lemma_ran_prefix, ran, refusal, Event, GpuBackend};

verus! {

/// What is given from outside for a diagnostic run, in place of live values.
pub struct DsparkInject {
    /// The first token of the block.
    pub anchor: Option<u32>,
    pub position: Option<usize>,
    /// The stack of target rows.
    pub main_hidden: InjectFile,
    /// The rings, one slot per stage.
    pub rings: Vec<InjectFile>,
    /// Propose the last token again, without a forward pass.
    pub emit_dummy: bool,
    /// Values are dumped, under this number.
    pub dump: Option<usize>,
    /// The boundaries within the stages are dumped too.
    pub dump_stages: bool,
}

/// Where the ring stands after a verification, and how many drafts it rejected.
/// Only accepted tokens enter the ring.
pub open spec fn advanced(pos: int, drafted: int, accepted: int) -> (int, int) {
    (
        if pos + accepted > usize::MAX { usize::MAX as int } else { pos + accepted },
        if drafted > accepted { drafted - accepted } else { 0 },
    )
}

pub fn ring_advance(pos: usize, drafted: usize, accepted: usize) -> (r: (usize, usize))
    ensures
        r.0 == advanced(pos as int, drafted as int, accepted as int).0,
        r.1 == advanced(pos as int, drafted as int, accepted as int).1,
{
    (pos.saturating_add(accepted), drafted.saturating_sub(accepted))
}

/// A sequence of verifications advances the ring by the tokens they accepted,
/// whatever was drafted.
pub proof fn ring_advance_adds_up(pos: nat, d1: nat, a1: nat, d2: nat, a2: nat)
    requires
        pos + a1 + a2 <= usize::MAX,
    ensures
        advanced(advanced(pos as int, d1 as int, a1 as int).0, d2 as int, a2 as int).0 == advanced(
            pos as int,
            (d1 + d2) as int,
            (a1 + a2) as int,
        ).0,
{
}

impl DeepseekV4DSparkHead {
    pub open spec fn stage_count(&self) -> int {
        if self.module.stages@.len() == 0 { 1 } else { self.module.stages@.len() as int }
    }
}

/// The rows that the block input is folded from, in elements.
pub open spec fn stack_in(head: DeepseekV4DSparkHead, ctx: ForwardContext) -> int {
    (ctx.config.hidden_size as u32) * head.stage_count()
}

/// The dump of one row, where rows are dumped.
pub open spec fn row_dumped(dump: Option<usize>, at: Boundary, src: DevicePtr, cols: int) -> Seq<Op> {
    match dump {
        Some(call) => dump_if(true, at, call, src, 1, cols, false),
        None => Seq::empty(),
    }
}

/// Folding the stack of target rows into the block input.
pub open spec fn project_ops(
    head: DeepseekV4DSparkHead,
    ctx: ForwardContext,
    main_hidden: DevicePtr,
    out: DevicePtr,
    dump: Option<usize>,
) -> Seq<Op> {
    let h = ctx.config.hidden_size as u32;
    row_dumped(dump, Boundary::MainHiddenIn, main_hidden, (stack_in(head, ctx) as usize as u32) as int) + seq![
        Op::DenseGemv {
            kernel: head.kernels.dense_gemv_k,
            input: main_hidden,
            weight: head.module.main_proj,
            output: ctx.buffers.norm_output,
            n: h,
            k: stack_in(head, ctx) as usize as u32,
        },
        Op::RmsNorm {
            kernel: head.kernels.rms_norm_k,
            input: ctx.buffers.norm_output,
            weight: head.module.main_norm,
            output: out,
            rows: 1,
            cols: h,
            eps: ctx.config.rms_norm_eps,
        },
    ] + row_dumped(dump, Boundary::MainProjOut, ctx.buffers.norm_output, h as int) + row_dumped(
        dump,
        Boundary::MainNormOut,
        out,
        h as int,
    )
}

/// Bytes of a stack of target rows.
pub open spec fn stack_bytes(head: DeepseekV4DSparkHead, ctx: ForwardContext) -> int {
    ctx.config.hidden_size * head.stage_count() * 2
}

/// The source of the block input: what was given, else the target's rows.
pub open spec fn main_source(inject: DsparkInject, target: Option<DevicePtr>, given: DevicePtr) -> Option<DevicePtr> {
    if inject.main_hidden is Bytes { Some(given) } else { target }
}

/// Everything before the forward pass: rows that were given are uploaded, folded
/// and freed; else the target's rows are folded.
pub open spec fn lead_steps(
    head: DeepseekV4DSparkHead,
    ctx: ForwardContext,
    inject: DsparkInject,
    target: Option<DevicePtr>,
    stream: u64,
    given: DevicePtr,
) -> Seq<Event> {
    let upload = match inject.main_hidden {
        InjectFile::Bytes(v) => seq![alloc_step(stack_bytes(head, ctx), given), put_step(v@, given)],
        _ => Seq::empty(),
    };
    let project = match main_source(inject, target, given) {
        Some(src) => project_ops(head, ctx, src, ctx.buffers.hidden_states, inject.dump),
        None => Seq::empty(),
    };
    let free = if inject.main_hidden is Bytes { seq![Op::Free { ptr: given }] } else { Seq::empty() };
    upload + steps(project + free, stream)
}

/// The block that a proposal runs.
pub open spec fn block_call(
    head: DeepseekV4DSparkHead,
    ctx: ForwardContext,
    inject: DsparkInject,
    last_token: u32,
    position: usize,
    stream: u64,
) -> BlockCall {
    let hc = head.module.stages@[0].hc->0;
    BlockCall {
        kernels: head.kernels,
        ctx,
        embed_tokens: head.embed_tokens,
        lm_head: head.lm_head,
        norm: head.module.norm,
        markov_w1: head.module.markov_w1,
        markov_w2: head.module.markov_w2,
        confidence_proj: head.module.confidence_proj,
        hc_head: head.module.hc_head,
        ones: head.q_headnorm_ones,
        block_size: head.block_size,
        noise_token_id: head.noise_token_id,
        nq: head.drafter_nq,
        groups: head.drafter_o_groups,
        scale: head.softmax_scale,
        hc_mult: hc.hc_mult as u32,
        sinkhorn: hc.sinkhorn_iters as u32,
        hc_eps: hc.hc_eps,
        anchor: match inject.anchor {
            Some(t) => t,
            None => last_token,
        },
        last_token,
        position: match inject.position {
            Some(p) => p,
            None => position,
        },
        main_x: ctx.buffers.hidden_states,
        dump: inject.dump is Some,
        dump_stages: inject.dump_stages,
        stream,
    }
}

pub open spec fn stage_set<'a>(head: &'a DeepseekV4DSparkHead, inject: &'a DsparkInject) -> StageSet<'a> {
    StageSet { stages: &head.module.stages, rings: &head.main_kv_caches, files: &inject.rings }
}

/// A drafter with rings is ready to run, unless its first stage lacks
/// hyper-connection weights.
pub open spec fn propose_ready(
    head: DeepseekV4DSparkHead,
    ctx: ForwardContext,
    inject: DsparkInject,
    last_token: u32,
    position: usize,
    stream: u64,
) -> bool {
    &&& head.wf()
    &&& stack_in(head, ctx) <= usize::MAX
    &&& ctx.config.hidden_size * head.stage_count() <= usize::MAX
    &&& stack_bytes(head, ctx) <= usize::MAX
    &&& head.main_kv_caches@.len() > 0 && head.module.stages@[0].hc is Some ==> {
        let c = block_call(head, ctx, inject, last_token, position, stream);
        c.fits() && stage_set(&head, &inject).ready(c)
    }
}

impl DeepseekV4DSparkHead {
    fn build_project(&self, ctx: &ForwardContext, main_hidden: DevicePtr, out: DevicePtr, dump: Option<usize>) -> (r: Vec<
        Op,
    >)
        requires
            stack_in(*self, *ctx) <= usize::MAX,
        ensures
            r@ == project_ops(*self, *ctx, main_hidden, out, dump),
            all_fit(r@),
    {
        let h: u32 = ctx.config.hidden_size as u32;
        let n: usize = if self.module.stages.len() == 0 { 1 } else { self.module.stages.len() };
        let stack: u32 = (h as usize * n) as u32;
        let proj = ctx.buffers.norm_output;
        let mut r: Vec<Op> = Vec::new();
        if let Some(call) = dump {
            push_dump(&mut r, true, Boundary::MainHiddenIn, call, main_hidden, 1, stack, false);
        }
        r.push(
            Op::DenseGemv {
                kernel: self.kernels.dense_gemv_k,
                input: main_hidden,
                weight: self.module.main_proj,
                output: proj,
                n: h,
                k: stack,
            },
        );
        r.push(
            Op::RmsNorm {
                kernel: self.kernels.rms_norm_k,
                input: proj,
                weight: self.module.main_norm,
                output: out,
                rows: 1,
                cols: h,
                eps: ctx.config.rms_norm_eps,
            },
        );
        if let Some(call) = dump {
            push_dump(&mut r, true, Boundary::MainProjOut, call, proj, 1, h, false);
            push_dump(&mut r, true, Boundary::MainNormOut, call, out, 1, h, false);
        }
        assert(r@ =~= project_ops(*self, *ctx, main_hidden, out, dump));
        r
    }

    /// Folds the stack of target rows into the block input at `out`.
    pub fn project_main<G: GpuBackend>(
        &self,
        gpu: &mut G,
        main_hidden: DevicePtr,
        out: DevicePtr,
        ctx: &ForwardContext,
        dump: Option<usize>,
        stream: u64,
    ) -> (r: Result<(), GpuError>)
        requires
            stack_in(*self, *ctx) <= usize::MAX,
        ensures
            ran(
                old(gpu).trace(),
                steps(project_ops(*self, *ctx, main_hidden, out, dump), stream),
                final(gpu).trace(),
                refusal(r),
            ),
    {
        let ops = self.build_project(ctx, main_hidden, out, dump);
        run_ops(gpu, &ops, stream)
    }

    /// Runs a block and keeps its confidence. The first stage's lack of
    /// hyper-connection weights is found before anything runs.
    pub fn run_stage_forward_dev<G: GpuBackend>(
        &mut self,
        gpu: &mut G,
        last_token: u32,
        position: usize,
        ctx: &ForwardContext,
        inject: &DsparkInject,
        stream: u64,
    ) -> (r: Result<u32, DsparkError>)
        requires
            propose_ready(*old(self), *ctx, *inject, last_token, position, stream),
            old(self).main_kv_caches@.len() > 0,
        ensures
            forward_outcome(
                *old(self),
                *final(self),
                *ctx,
                *inject,
                last_token,
                position,
                stream,
                old(gpu).trace(),
                final(gpu).trace(),
                r,
            ),
    {
        let ghost before = *self;
        let hc = match self.module.stages[0].hc {
            Some(hc) => hc,
            None => {
                return Err(DsparkError::NoHcWeights);
            },
        };
        let anchor: u32 = match inject.anchor {
            Some(t) => t,
            None => last_token,
        };
        let pos: usize = match inject.position {
            Some(p) => p,
            None => position,
        };
        let c = BlockCall {
            kernels: self.kernels,
            ctx: *ctx,
            embed_tokens: self.embed_tokens,
            lm_head: self.lm_head,
            norm: self.module.norm,
            markov_w1: self.module.markov_w1,
            markov_w2: self.module.markov_w2,
            confidence_proj: self.module.confidence_proj,
            hc_head: self.module.hc_head,
            ones: self.q_headnorm_ones,
            block_size: self.block_size,
            noise_token_id: self.noise_token_id,
            nq: self.drafter_nq,
            groups: self.drafter_o_groups,
            scale: self.softmax_scale,
            hc_mult: hc.hc_mult as u32,
            sinkhorn: hc.sinkhorn_iters as u32,
            hc_eps: hc.hc_eps,
            anchor,
            last_token,
            position: pos,
            main_x: ctx.buffers.hidden_states,
            dump: inject.dump.is_some(),
            dump_stages: inject.dump_stages,
            stream,
        };
        assert(c == block_call(before, *ctx, *inject, last_token, position, stream));
        let set = StageSet { stages: &self.module.stages, rings: &self.main_kv_caches, files: &inject.rings };
        let ghost pre = gpu.trace();
        let r = run_block(gpu, &c, &set);
        match r {
            Ok((tok, conf)) => {
                self.last_conf = Some(conf);
                assert(block_outcome(c, stage_set(&before, inject), pre, gpu.trace(), Ok((tok, conf))));
                Ok(tok)
            },
            Err(x) => {
                assert(block_outcome(c, stage_set(&before, inject), pre, gpu.trace(), Err(x)));
                Err(x)
            },
        }
    }
}

/// The drafter is the same but for its confidence.
pub open spec fn same_but_conf(a: DeepseekV4DSparkHead, b: DeepseekV4DSparkHead) -> bool {
    b == (DeepseekV4DSparkHead { last_conf: b.last_conf, ..a })
}

/// What a forward pass does and says.
pub open spec fn forward_outcome(
    head: DeepseekV4DSparkHead,
    after: DeepseekV4DSparkHead,
    ctx: ForwardContext,
    inject: DsparkInject,
    last_token: u32,
    position: usize,
    stream: u64,
    pre: Seq<Event>,
    post: Seq<Event>,
    r: Result<u32, DsparkError>,
) -> bool {
    let c = block_call(head, ctx, inject, last_token, position, stream);
    &&& same_but_conf(head, after)
    &&& if head.module.stages@[0].hc is None {
        post == pre && after.last_conf == head.last_conf && r == Err::<u32, DsparkError>(DsparkError::NoHcWeights)
    } else {
        match r {
            Ok(tok) => after.last_conf is Some && block_outcome(
                c,
                stage_set(&head, &inject),
                pre,
                post,
                Ok((tok, after.last_conf->0)),
            ),
            Err(x) => after.last_conf == head.last_conf && block_outcome(
                c,
                stage_set(&head, &inject),
                pre,
                post,
                Err(x),
            ),
        }
    }
}

/// A proposal that got past its lead.
pub open spec fn after_lead(
    head: DeepseekV4DSparkHead,
    after: DeepseekV4DSparkHead,
    ctx: ForwardContext,
    inject: DsparkInject,
    target: Option<DevicePtr>,
    last_token: u32,
    position: usize,
    stream: u64,
    mid: Seq<Event>,
    post: Seq<Event>,
    drafts: Seq<u32>,
) -> bool {
    if inject.main_hidden !is Bytes && target is None {
        drafts == Seq::<u32>::empty() && post == mid && after == head
    } else if inject.emit_dummy {
        drafts == seq![last_token] && post == mid && after == head
    } else {
        exists|r: Result<u32, DsparkError>|
            {
                &&& #[trigger] forward_outcome(head, after, ctx, inject, last_token, position, stream, mid, post, r)
                &&& drafts == match r {
                    Ok(tok) => seq![tok],
                    Err(_) => Seq::empty(),
                }
            }
    }
}

/// What a proposal does and says. A forward pass that fails proposes nothing.
pub open spec fn proposed(
    head: DeepseekV4DSparkHead,
    after: DeepseekV4DSparkHead,
    ctx: ForwardContext,
    inject: DsparkInject,
    target: Option<DevicePtr>,
    last_token: u32,
    position: usize,
    stream: u64,
    state_is_mine: bool,
    pre: Seq<Event>,
    post: Seq<Event>,
    r: Result<Vec<u32>, DsparkError>,
) -> bool {
    if !state_is_mine {
        post == pre && after == head && (r matches Err(x) && x == DsparkError::InvalidState)
    } else if head.main_kv_caches@.len() == 0 {
        post == pre && after == head && (r matches Ok(v) && v@ == Seq::<u32>::empty())
    } else if inject.main_hidden is Unreadable {
        post == pre && after == head && (r matches Err(x) && x == DsparkError::MainHiddenUnreadable)
    } else if inject.main_hidden matches InjectFile::Bytes(v) && v@.len() != stack_bytes(head, ctx) {
        &&& post == pre
        &&& after == head
        &&& r matches Err(DsparkError::MainHiddenSize { found, expected })
        &&& found == inject.main_hidden->Bytes_0@.len()
        &&& expected == stack_bytes(head, ctx)
    } else {
        match r {
            Ok(v) => exists|given: DevicePtr|
                after_lead(
                    head,
                    after,
                    ctx,
                    inject,
                    target,
                    last_token,
                    position,
                    stream,
                    pre + #[trigger] lead_steps(head, ctx, inject, target, stream, given),
                    post,
                    v@,
                ),
            Err(DsparkError::Gpu(e)) => after == head && exists|given: DevicePtr|
                ran(pre, #[trigger] lead_steps(head, ctx, inject, target, stream, given), post, Some(e)),
            Err(_) => false,
        }
    }
}

impl DeepseekV4DSparkHead {
    /// Runs what precedes the forward pass. Says whether there is a block input.
    fn lead<G: GpuBackend>(
        &self,
        gpu: &mut G,
        ctx: &ForwardContext,
        inject: &DsparkInject,
        target: Option<DevicePtr>,
        stream: u64,
    ) -> (r: Result<bool, DsparkError>)
        requires
            stack_in(*self, *ctx) <= usize::MAX,
            ctx.config.hidden_size * self.stage_count() <= usize::MAX,
            stack_bytes(*self, *ctx) <= usize::MAX,
        ensures
            match r {
                Ok(have) => {
                    &&& inject.main_hidden !is Unreadable
                    &&& (inject.main_hidden matches InjectFile::Bytes(v) ==> v@.len() == stack_bytes(*self, *ctx))
                    &&& have == (inject.main_hidden is Bytes || target is Some)
                    &&& exists|given: DevicePtr|
                        ran(
                            old(gpu).trace(),
                            #[trigger] lead_steps(*self, *ctx, *inject, target, stream, given),
                            final(gpu).trace(),
                            None,
                        )
                },
                Err(DsparkError::Gpu(e)) => {
                    &&& inject.main_hidden !is Unreadable
                    &&& (inject.main_hidden matches InjectFile::Bytes(v) ==> v@.len() == stack_bytes(*self, *ctx))
                    &&& exists|given: DevicePtr|
                        ran(
                            old(gpu).trace(),
                            #[trigger] lead_steps(*self, *ctx, *inject, target, stream, given),
                            final(gpu).trace(),
                            Some(e),
                        )
                },
                Err(DsparkError::MainHiddenUnreadable) => inject.main_hidden is Unreadable && final(gpu).trace() == old(
                    gpu,
                ).trace(),
                Err(DsparkError::MainHiddenSize { found, expected }) => {
                    &&& inject.main_hidden matches InjectFile::Bytes(v)
                    &&& v@.len() == found
                    &&& found != expected
                    &&& expected == stack_bytes(*self, *ctx)
                    &&& final(gpu).trace() == old(gpu).trace()
                },
                Err(_) => false,
            },
    {
        let ghost pre = gpu.trace();
        let ghost s0 = Seq::<Event>::empty();
        assert(pre =~= pre + s0);
        let out = ctx.buffers.hidden_states;
        match &inject.main_hidden {
            InjectFile::Unreadable => Err(DsparkError::MainHiddenUnreadable),
            InjectFile::Absent => {
                let ghost all = lead_steps(*self, *ctx, *inject, target, stream, DevicePtr(0));
                match target {
                    None => {
                        assert(all =~= s0);
                        Ok(false)
                    },
                    Some(src) => {
                        let ops = self.build_project(ctx, src, out, inject.dump);
                        let r = go_ops(gpu, &ops, stream, Ghost(pre), Ghost(s0));
                        proof {
                            assert(project_ops(*self, *ctx, src, out, inject.dump) + Seq::<Op>::empty() =~= ops@);
                            assert(all =~= s0 + steps(ops@, stream));
                        }
                        match r {
                            Ok(_) => Ok(true),
                            Err(e) => Err(DsparkError::Gpu(e)),
                        }
                    },
                }
            },
            InjectFile::Bytes(v) => {
                let n: usize = if self.module.stages.len() == 0 { 1 } else { self.module.stages.len() };
                let expected: usize = ctx.config.hidden_size * n * 2;
                if v.len() != expected {
                    return Err(DsparkError::MainHiddenSize { found: v.len(), expected });
                }
                let given = match go_alloc(gpu, expected, Ghost(pre), Ghost(s0)) {
                    Ok(p) => p,
                    Err(e) => {
                        proof {
                            let null = DevicePtr(0);
                            let s1 = s0 + seq![alloc_step(expected as int, null)];
                            let all = lead_steps(*self, *ctx, *inject, target, stream, null);
                            assert(all.take(s1.len() as int) =~= s1);
                            lemma_ran_prefix(pre, s1, all, gpu.trace(), e);
                        }
                        return Err(DsparkError::Gpu(e));
                    },
                };
                let ghost all = lead_steps(*self, *ctx, *inject, target, stream, given);
                let ghost s1 = s0 + seq![alloc_step(expected as int, given)];
                let ghost s2 = s1 + seq![put_step(v@, given)];
                if let Err(e) = go_put(gpu, v, given, Ghost(pre), Ghost(s1)) {
                    proof {
                        assert(all.take(s2.len() as int) =~= s2);
                        lemma_ran_prefix(pre, s2, all, gpu.trace(), e);
                    }
                    return Err(DsparkError::Gpu(e));
                }
                let mut ops = self.build_project(ctx, given, out, inject.dump);
                ops.push(Op::Free { ptr: given });
                let r = go_ops(gpu, &ops, stream, Ghost(pre), Ghost(s2));
                proof {
                    assert(project_ops(*self, *ctx, given, out, inject.dump) + seq![Op::Free { ptr: given }] =~= ops@);
                    assert(all =~= s2 + steps(ops@, stream));
                }
                match r {
                    Ok(_) => Ok(true),
                    Err(e) => Err(DsparkError::Gpu(e)),
                }
            },
        }
    }

    fn draft<G: GpuBackend>(
        &mut self,
        gpu: &mut G,
        last_token: u32,
        position: usize,
        ctx: &ForwardContext,
        inject: &DsparkInject,
        target_hidden_stack: Option<DevicePtr>,
        stream: u64,
    ) -> (r: Result<Vec<u32>, DsparkError>)
        requires
            propose_ready(*old(self), *ctx, *inject, last_token, position, stream),
        ensures
            proposed(
                *old(self),
                *final(self),
                *ctx,
                *inject,
                target_hidden_stack,
                last_token,
                position,
                stream,
                true,
                old(gpu).trace(),
                final(gpu).trace(),
                r,
            ),
            r matches Ok(v) ==> v@.len() <= 1,
    {
        let ghost pre = gpu.trace();
        let ghost before = *self;
        if self.main_kv_caches.len() == 0 {
            return Ok(Vec::new());
        }
        let led = self.lead(gpu, ctx, inject, target_hidden_stack, stream);
        let have = match led {
            Ok(b) => b,
            Err(x) => {
                return Err(x);
            },
        };
        let ghost given = choose|given: DevicePtr|
            ran(pre, #[trigger] lead_steps(before, *ctx, *inject, target_hidden_stack, stream, given), gpu.trace(), None);
        let ghost mid = gpu.trace();
        assert(mid == pre + lead_steps(before, *ctx, *inject, target_hidden_stack, stream, given));
        if !have {
            return Ok(Vec::new());
        }
        if inject.emit_dummy {
            let v = vec![last_token];
            assert(v@ =~= seq![last_token]);
            return Ok(v);
        }
        let r = self.run_stage_forward_dev(gpu, last_token, position, ctx, inject, stream);
        proof {
            assert(forward_outcome(before, *self, *ctx, *inject, last_token, position, stream, mid, gpu.trace(), r));
        }
        match r {
            Ok(tok) => {
                let v = vec![tok];
                assert(v@ =~= seq![tok]);
                Ok(v)
            },
            Err(_) => Ok(Vec::new()),
        }
    }

    /// Proposes at most one token, that of the block's first row, however many
    /// were asked for. The state keeps how many were proposed.
    pub fn propose<G: GpuBackend>(
        &mut self,
        gpu: &mut G,
        last_token: u32,
        position: usize,
        _num_drafts: usize,
        state: &mut ProposerState,
        ctx: &ForwardContext,
        inject: &DsparkInject,
        target_hidden_stack: Option<DevicePtr>,
        stream: u64,
    ) -> (r: Result<Vec<u32>, DsparkError>)
        requires
            propose_ready(*old(self), *ctx, *inject, last_token, position, stream),
        ensures
            proposed(
                *old(self),
                *final(self),
                *ctx,
                *inject,
                target_hidden_stack,
                last_token,
                position,
                stream,
                *old(state) is V4DSpark,
                old(gpu).trace(),
                final(gpu).trace(),
                r,
            ),
            r matches Ok(v) ==> v@.len() <= 1,
            match r {
                Ok(v) => {
                    &&& *old(state) matches ProposerState::V4DSpark(s)
                    &&& *final(state) matches ProposerState::V4DSpark(t)
                    &&& t == (DeepseekV4DSparkProposerState { last_num_drafted: v@.len() as usize, ..s })
                },
                Err(_) => *final(state) == *old(state),
            },
    {
        match state {
            ProposerState::V4DSpark(s) => {
                match self.draft(gpu, last_token, position, ctx, inject, target_hidden_stack, stream) {
                    Ok(drafts) => {
                        s.last_num_drafted = drafts.len();
                        Ok(drafts)
                    },
                    Err(e) => Err(e),
                }
            },
            _ => Err(DsparkError::InvalidState),
        }
    }

    /// The confidence of the last proposal, before the sigmoid. There is none
    /// before the first forward pass, and none that is not a number.
    pub fn last_confidence(&self) -> (r: Option<F32Bits>)
        ensures
            r == match self.last_conf {
                Some(c) => if c.0 % 0x8000_0000 > 0x7f80_0000 { None } else { Some(c) },
                None => None,
            },
    {
        match self.last_conf {
            Some(c) => if c.0 % 0x8000_0000 > 0x7f80_0000 {
                None
            } else {
                Some(c)
            },
            None => None,
        }
    }

    /// Takes note of a verification.
    pub fn after_verify(&self, num_accepted: usize, state: &mut ProposerState) -> (r: Result<(), DsparkError>)
        ensures
            match *old(state) {
                ProposerState::V4DSpark(s) => {
                    &&& r is Ok
                    &&& *final(state) matches ProposerState::V4DSpark(t)
                    &&& t.main_kv_pos == advanced(s.main_kv_pos as int, s.last_num_drafted as int, num_accepted as int).0
                    &&& t.last_num_drafted == s.last_num_drafted
                    &&& t.body_states == s.body_states
                },
                _ => r == Err::<(), DsparkError>(DsparkError::InvalidState) && *final(state) == *old(state),
            },
    {
        match state {
            ProposerState::V4DSpark(s) => {
                let (pos, _) = ring_advance(s.main_kv_pos, s.last_num_drafted, num_accepted);
                s.main_kv_pos = pos;
                Ok(())
            },
            _ => Err(DsparkError::InvalidState),
        }
    }

    /// Zeroes the rings and forgets the sequence.
    pub fn free_state<G: GpuBackend>(&self, gpu: &mut G, state: &mut ProposerState) -> (r: Result<(), DsparkError>)
        ensures
            match *old(state) {
                ProposerState::V4DSpark(s) => match r {
                    Ok(_) => {
                        &&& ran(old(gpu).trace(), steps(reset_ops(self.main_kv_caches@), 0), final(gpu).trace(), None)
                        &&& *final(state) matches ProposerState::V4DSpark(t)
                        &&& t.main_kv_pos == 0
                        &&& t.last_num_drafted == 0
                        &&& t.body_states == s.body_states
                    },
                    Err(DsparkError::Gpu(e)) => *final(state) == *old(state) && ran(
                        old(gpu).trace(),
                        steps(reset_ops(self.main_kv_caches@), 0),
                        final(gpu).trace(),
                        Some(e),
                    ),
                    Err(_) => false,
                },
                _ => {
                    &&& r == Err::<(), DsparkError>(DsparkError::InvalidState)
                    &&& *final(state) == *old(state)
                    &&& final(gpu).trace() == old(gpu).trace()
                },
            },
    {
        match state {
            ProposerState::V4DSpark(s) => {
                let mut ops: Vec<Op> = Vec::new();
                let mut i: usize = 0;
                let ghost all = reset_ops(self.main_kv_caches@);
                assert(ops@ =~= all.take(0));
                while i < self.main_kv_caches.len()
                    invariant
                        i <= self.main_kv_caches@.len(),
                        all == reset_ops(self.main_kv_caches@),
                        ops@ == all.take(i as int),
                    decreases self.main_kv_caches@.len() - i,
                {
                    let c = self.main_kv_caches[i];
                    ops.push(Op::Memset { ptr: c.buf, value: 0, bytes: c.bytes });
                    i += 1;
                    assert(ops@ =~= all.take(i as int));
                }
                assert(ops@ =~= all);
                if let Err(e) = run_ops(gpu, &ops, 0) {
                    return Err(DsparkError::Gpu(e));
                }
                s.main_kv_pos = 0;
                s.last_num_drafted = 0;
                Ok(())
            },
            _ => Err(DsparkError::InvalidState),
        }
    }
}

pub open spec fn reset_ops(rings: Seq<DsparkMainKvCache>) -> Seq<Op> {
    Seq::new(rings.len(), |i: int| reset_op(rings[i]))
}

// ── what a proposal leaves behind ──
proof fn lemma_lead_balance(
    head: DeepseekV4DSparkHead,
    ctx: ForwardContext,
    inject: DsparkInject,
    target: Option<DevicePtr>,
    stream: u64,
    given: DevicePtr,
)
    ensures
        taken(lead_steps(head, ctx, inject, target, stream, given)) == given_back(
            lead_steps(head, ctx, inject, target, stream, given),
        ),
{
    let all = lead_steps(head, ctx, inject, target, stream, given);
    match inject.main_hidden {
        InjectFile::Bytes(v) => {
            let sizes = seq![stack_bytes(head, ctx) as usize];
            let one = seq![given];
            let project = project_ops(head, ctx, given, ctx.buffers.hidden_states, inject.dump);
            let s1 = alloc_steps(sizes, one);
            let put = seq![put_step(v@, given)];
            let s2 = s1 + put;
            let s3 = s2 + steps(project, stream);
            lemma_allocs(sizes, one);
            assert(quiet(put));
            lemma_quiet_added(s1, put);
            assert(no_frees(project));
            lemma_ops_added(s2, project, stream);
            lemma_steps_add(project, free_ops(one), stream);
            assert(free_ops(one) =~= seq![Op::Free { ptr: given }]);
            lemma_frees(one, stream);
            lemma_buffers_add(s3, steps(free_ops(one), stream));
            assert(all =~= s3 + steps(free_ops(one), stream));
            assert(taken(all) =~= one.to_multiset());
            assert(given_back(all) =~= one.to_multiset());
        },
        _ => {
            let project = match target {
                Some(src) => project_ops(head, ctx, src, ctx.buffers.hidden_states, inject.dump),
                None => Seq::empty(),
            };
            assert(project + Seq::<Op>::empty() =~= project);
            assert(all =~= steps(project, stream));
            assert(no_frees(project));
            lemma_quiet_ops(project, stream);
            lemma_quiet(all);
        },
    }
}

/// A proposal that drafted a token leaves nothing allocated: it gave back exactly
/// the buffers that it took.
pub proof fn proposal_leaves_nothing_allocated(
    head: DeepseekV4DSparkHead,
    after: DeepseekV4DSparkHead,
    ctx: ForwardContext,
    inject: DsparkInject,
    target: Option<DevicePtr>,
    last_token: u32,
    position: usize,
    stream: u64,
    pre: Seq<Event>,
    post: Seq<Event>,
    r: Result<Vec<u32>, DsparkError>,
)
    requires
        proposed(head, after, ctx, inject, target, last_token, position, stream, true, pre, post, r),
        r matches Ok(v) && v@.len() == 1,
    ensures
        pre.len() <= post.len(),
        post.take(pre.len() as int) == pre,
        taken(post.skip(pre.len() as int)) == given_back(post.skip(pre.len() as int)),
{
    let v = r->Ok_0;
    let given = choose|given: DevicePtr|
        after_lead(
            head,
            after,
            ctx,
            inject,
            target,
            last_token,
            position,
            stream,
            pre + #[trigger] lead_steps(head, ctx, inject, target, stream, given),
            post,
            v@,
        );
    let lead = lead_steps(head, ctx, inject, target, stream, given);
    let mid = pre + lead;
    lemma_lead_balance(head, ctx, inject, target, stream, given);
    if inject.emit_dummy {
        assert(post.take(pre.len() as int) =~= pre);
        assert(post.skip(pre.len() as int) =~= lead);
    } else {
        let fr = choose|fr: Result<u32, DsparkError>|
            {
                &&& #[trigger] forward_outcome(head, after, ctx, inject, last_token, position, stream, mid, post, fr)
                &&& v@ == match fr {
                    Ok(tok) => seq![tok],
                    Err(_) => Seq::empty(),
                }
            };
        let c = block_call(head, ctx, inject, last_token, position, stream);
        let set = stage_set(&head, &inject);
        drafted_block_leaves_nothing_allocated(c, set, mid, post, fr->Ok_0, after.last_conf->0);
        let block = post.skip(mid.len() as int);
        lemma_buffers_add(lead, block);
        assert(post =~= post.take(mid.len() as int) + block);
        assert(post.take(pre.len() as int) =~= pre);
        assert(post.skip(pre.len() as int) =~= lead + block);
    }
}

} // verus!
