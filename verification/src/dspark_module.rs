//! Loading the drafter that ships inside a target's checkpoint.
//!
//! The drafter is three stages under `mtp.0`, `mtp.1` and `mtp.2`. The first
//! carries the projection of the block input; the last carries the final norm,
//! the Markov factors, the confidence head and the collapse of the streams.
//! `mtp.0.main_proj.weight` tells it from other draft heads.
//!
//! Loading follows a fixed list of steps, [`load_plan`]. What a stage is
//! assembled from is what the steps before it came back with.

use vstd::prelude::*;

use crate::attention::{DsparkStage, StageRequest};
use crate::config::ModelConfig;
use crate::dspark_head::DeepseekV4DSparkModule;
use crate::gpu::{DenseWeight, DevicePtr};
use crate::kv_cache::KvCacheDtype;
use crate::mtp::HcHeadWeights;
use crate::op::Call;
use crate::text::{decimal, join_numbered};
use crate::trace::{failed, Cmd, Event, GpuBackend, Reply};
use crate::weights::{LoadError, WeightStore};

verus! {

/// The stages of the drafter.
pub const NUM_DSPARK_STAGES: usize = 3;

pub open spec fn is_present(num_mtp_modules: usize, has_main_proj: bool) -> bool {
    num_mtp_modules != 0 && has_main_proj
}

/// The drafter is loaded where draft modules are enabled and the checkpoint has
/// the projection of the block input.
pub fn dspark_present(num_mtp_modules: usize, has_main_proj: bool) -> (r: bool)
    ensures
        r == is_present(num_mtp_modules, has_main_proj),
{
    num_mtp_modules != 0 && has_main_proj
}

// ── the plan ──
/// One step of loading.
pub enum LoadStep {
    /// The table of stretched rotary frequencies.
    InvFreq,
    /// A tensor in BF16.
    Dense { name: String },
    /// A hyper-connection tensor in single precision.
    Hc { name: String, elems: usize },
    /// A stage, assembled from what was loaded before.
    Stage { index: usize },
}

/// A step by the characters of its name.
#[verifier::ext_equal]
pub enum Step {
    InvFreq,
    Dense(Seq<char>),
    Hc(Seq<char>, usize),
    Stage(usize),
}

impl View for LoadStep {
    type V = Step;

    open spec fn view(&self) -> Step {
        match *self {
            LoadStep::InvFreq => Step::InvFreq,
            LoadStep::Dense { name } => Step::Dense(name@),
            LoadStep::Hc { name, elems } => Step::Hc(name@, elems),
            LoadStep::Stage { index } => Step::Stage(index),
        }
    }
}

pub open spec fn step_views(plan: Seq<LoadStep>) -> Seq<Step> {
    Seq::new(plan.len(), |i: int| plan[i]@)
}

/// A tensor of stage `i`.
pub open spec fn stage_name(i: nat, tail: Seq<char>) -> Seq<char> {
    "mtp."@ + decimal(i) + tail
}

/// The tensors that every stage is assembled from.
pub open spec fn stage_tensors(i: nat) -> Seq<Step> {
    seq![
        Step::Dense(stage_name(i, ".attn_norm.weight"@)),
        Step::Dense(stage_name(i, ".ffn_norm.weight"@)),
        Step::Dense(stage_name(i, ".attn.wq_a.weight"@)),
        Step::Dense(stage_name(i, ".attn.wq_b.weight"@)),
        Step::Dense(stage_name(i, ".attn.q_norm.weight"@)),
        Step::Dense(stage_name(i, ".attn.wkv.weight"@)),
        Step::Dense(stage_name(i, ".attn.kv_norm.weight"@)),
        Step::Dense(stage_name(i, ".attn.wo_a.weight"@)),
        Step::Dense(stage_name(i, ".attn.wo_b.weight"@)),
    ]
}

/// The last stage collapses the streams, where there are streams.
pub open spec fn collapses(config: ModelConfig, i: int) -> bool {
    config.hc_mult > 0 && i == NUM_DSPARK_STAGES - 1
}

/// The tensors of the collapse.
pub open spec fn collapse_tensors(config: ModelConfig, i: nat) -> Seq<Step> {
    let hc = config.hc_mult;
    seq![
        Step::Hc(stage_name(i, ".hc_head_fn"@), (hc * (hc * config.hidden_size)) as usize),
        Step::Hc(stage_name(i, ".hc_head_base"@), hc),
        Step::Hc(stage_name(i, ".hc_head_scale"@), 1),
    ]
}

pub open spec fn stage_plan(config: ModelConfig, i: nat) -> Seq<Step> {
    stage_tensors(i) + (if collapses(config, i as int) {
        collapse_tensors(config, i)
    } else {
        Seq::empty()
    }) + seq![Step::Stage(i as usize)]
}

pub open spec fn head_plan() -> Seq<Step> {
    seq![
        Step::Dense("mtp.0.main_proj.weight"@),
        Step::Dense("mtp.0.main_norm.weight"@),
        Step::Dense("mtp.2.norm.weight"@),
        Step::Dense("mtp.2.markov_head.markov_w1.weight"@),
        Step::Dense("mtp.2.markov_head.markov_w2.weight"@),
        Step::Dense("mtp.2.confidence_head.proj.weight"@),
    ]
}

/// All steps, in order.
pub open spec fn load_plan(config: ModelConfig) -> Seq<Step> {
    seq![Step::InvFreq] + stage_plan(config, 0) + stage_plan(config, 1) + stage_plan(config, 2) + head_plan()
}

/// Where the tensors of stage `i` stand among the steps.
pub open spec fn stage_start(i: int) -> int {
    1 + 10 * i
}

/// Where stage `i` itself stands among the steps.
pub open spec fn stage_at(config: ModelConfig, i: int) -> int {
    stage_start(i) + (if collapses(config, i) { 12int } else { 9 })
}

/// Where the heads start.
pub open spec fn heads_start(config: ModelConfig) -> int {
    stage_at(config, 2) + 1
}

proof fn lemma_plan(config: ModelConfig)
    ensures
        load_plan(config).len() == heads_start(config) + 6,
        forall|i: int| 0 <= i < 3 ==> #[trigger] load_plan(config)[stage_at(config, i)] == Step::Stage(i as usize),
        forall|k: int|
            0 <= k < load_plan(config).len() && (#[trigger] load_plan(config)[k] is Stage) ==> 0
                <= load_plan(config)[k]->Stage_0 < 3 && k == stage_at(config, load_plan(config)[k]->Stage_0 as int),
{
    let p = load_plan(config);
    let a = stage_plan(config, 0);
    let b = stage_plan(config, 1);
    let c = stage_plan(config, 2);
    assert(a.len() == 10 && b.len() == 10);
    assert(c.len() == if config.hc_mult > 0 { 13int } else { 10 });
    assert forall|k: int| 0 <= k < p.len() && (#[trigger] p[k] is Stage) implies 0 <= p[k]->Stage_0 < 3 && k
        == stage_at(config, p[k]->Stage_0 as int) by {
        if k == 0 {
        } else if k < 11 {
            assert(p[k] == a[k - 1]);
        } else if k < 21 {
            assert(p[k] == b[k - 11]);
        } else if k < 21 + c.len() {
            assert(p[k] == c[k - 21]);
        } else {
            assert(p[k] == head_plan()[k - 21 - c.len()]);
        }
    }
    assert forall|i: int| 0 <= i < 3 implies #[trigger] p[stage_at(config, i)] == Step::Stage(i as usize) by {
        if i == 0 {
            assert(p[10] == a[9]);
        } else if i == 1 {
            assert(p[20] == b[9]);
        } else {
            assert(p[stage_at(config, 2)] == c[c.len() - 1]);
        }
    }
}

// ── what a run of the plan does ──
/// What a step came back with.
#[derive(Clone, Copy, PartialEq, Eq, Structural, Debug)]
pub enum Loaded {
    Ptr(DevicePtr),
    Stage(DsparkStage),
}

pub open spec fn ptr_of(x: Loaded) -> DevicePtr {
    x->Ptr_0
}

pub open spec fn reply_of(x: Loaded) -> Reply {
    match x {
        Loaded::Ptr(p) => Reply::Ptr(p),
        Loaded::Stage(s) => Reply::Stage(s),
    }
}

pub open spec fn weight_of(x: Loaded) -> DenseWeight {
    DenseWeight { weight: ptr_of(x) }
}

/// The collapse, out of what was loaded.
pub open spec fn collapse_of(config: ModelConfig, i: int, got: Seq<Loaded>) -> Option<HcHeadWeights> {
    let s = stage_start(i);
    if collapses(config, i) {
        Some(
            HcHeadWeights {
                hc_fn: ptr_of(got[s + 9]),
                hc_base: ptr_of(got[s + 10]),
                hc_scale: ptr_of(got[s + 11]),
            },
        )
    } else {
        None
    }
}

/// What stage `i` is assembled from: every expert is loaded, and the place past
/// the last target layer keeps the stage clear of what is per layer there.
pub open spec fn request_of(config: ModelConfig, i: int, got: Seq<Loaded>) -> StageRequest {
    let s = stage_start(i);
    StageRequest {
        stage: i as usize,
        layer_idx: config.num_hidden_layers,
        force_all_experts: true,
        attn_norm: weight_of(got[s]),
        ffn_norm: weight_of(got[s + 1]),
        wq_a: weight_of(got[s + 2]),
        wq_b: weight_of(got[s + 3]),
        q_a_norm: weight_of(got[s + 4]),
        wkv_a: weight_of(got[s + 5]),
        kv_a_norm: weight_of(got[s + 6]),
        wo_a: weight_of(got[s + 7]),
        wo_b: weight_of(got[s + 8]),
        yarn_inv_freq: ptr_of(got[0]),
        hc_head: collapse_of(config, i, got),
    }
}

/// The name that a step looks up.
pub open spec fn step_name(step: Step) -> Option<Seq<char>> {
    match step {
        Step::Dense(name) => Some(name),
        Step::Hc(name, _) => Some(name),
        _ => None,
    }
}

/// The checkpoint has what the step looks up.
pub open spec fn can_do(store: Map<Seq<char>, DevicePtr>, step: Step) -> bool {
    step_name(step) matches Some(name) ==> store.contains_key(name)
}

/// The command of a step, where the steps before it came back with `got`.
pub open spec fn step_cmd(
    store: Map<Seq<char>, DevicePtr>,
    config: ModelConfig,
    kv_dtypes: Seq<KvCacheDtype>,
    step: Step,
    got: Seq<Loaded>,
) -> Cmd {
    match step {
        Step::InvFreq => Cmd::Call { call: Call::YarnInvFreq { config }, stream: 0 },
        Step::Dense(name) => Cmd::Call { call: Call::DenseAuto { tensor: store[name] }, stream: 0 },
        Step::Hc(name, elems) => Cmd::Call { call: Call::HcF32 { tensor: store[name], elems }, stream: 0 },
        Step::Stage(i) => Cmd::Assemble { request: request_of(config, i as int, got), kv_dtypes },
    }
}

/// A step comes back with a stage where it assembles one, else with an address.
pub open spec fn fits_step(step: Step, x: Loaded) -> bool {
    (step is Stage) == (x is Stage)
}

/// The trace of the first `got.len()` steps, which came back with `got`.
pub open spec fn load_events(
    store: Map<Seq<char>, DevicePtr>,
    config: ModelConfig,
    kv_dtypes: Seq<KvCacheDtype>,
    got: Seq<Loaded>,
) -> Seq<Event> {
    Seq::new(
        got.len(),
        |k: int|
            Event {
                cmd: step_cmd(store, config, kv_dtypes, load_plan(config)[k], got.take(k)),
                reply: reply_of(got[k]),
            },
    )
}

/// The first steps of the plan were done and came back with `got`.
pub open spec fn done_steps(
    store: Map<Seq<char>, DevicePtr>,
    config: ModelConfig,
    kv_dtypes: Seq<KvCacheDtype>,
    pre: Seq<Event>,
    post: Seq<Event>,
    got: Seq<Loaded>,
) -> bool {
    &&& got.len() <= load_plan(config).len()
    &&& post == pre + load_events(store, config, kv_dtypes, got)
    &&& forall|k: int|
        #![trigger got[k]]
        0 <= k < got.len() ==> can_do(store, load_plan(config)[k]) && fits_step(load_plan(config)[k], got[k])
}

/// The module out of what was loaded.
pub open spec fn is_module(config: ModelConfig, got: Seq<Loaded>, m: DeepseekV4DSparkModule) -> bool {
    let h = heads_start(config);
    &&& m.stages@.len() == NUM_DSPARK_STAGES
    &&& forall|i: int|
        0 <= i < NUM_DSPARK_STAGES ==> Loaded::Stage(#[trigger] m.stages@[i]) == got[stage_at(config, i)]
    &&& m.main_proj == weight_of(got[h])
    &&& m.main_norm == weight_of(got[h + 1])
    &&& m.norm == weight_of(got[h + 2])
    &&& m.markov_w1 == weight_of(got[h + 3])
    &&& m.markov_w2 == weight_of(got[h + 4])
    &&& m.confidence_proj == weight_of(got[h + 5])
    &&& m.hc_head == collapse_of(config, NUM_DSPARK_STAGES - 1, got)
}

/// What loading does and says, where the drafter is present.
pub open spec fn load_outcome(
    store: Map<Seq<char>, DevicePtr>,
    config: ModelConfig,
    kv_dtypes: Seq<KvCacheDtype>,
    pre: Seq<Event>,
    post: Seq<Event>,
    r: Result<Option<DeepseekV4DSparkModule>, LoadError>,
) -> bool {
    let plan = load_plan(config);
    match r {
        Ok(None) => false,
        Ok(Some(m)) => exists|got: Seq<Loaded>|
            {
                &&& #[trigger] done_steps(store, config, kv_dtypes, pre, post, got)
                &&& got.len() == plan.len()
                &&& is_module(config, got, m)
            },
        Err(LoadError::Missing { name }) => exists|got: Seq<Loaded>|
            {
                &&& #[trigger] done_steps(store, config, kv_dtypes, pre, post, got)
                &&& got.len() < plan.len()
                &&& step_name(plan[got.len() as int]) == Some(name@)
                &&& !store.contains_key(name@)
            },
        Err(LoadError::Gpu(e)) => exists|got: Seq<Loaded>, mid: Seq<Event>|
            {
                &&& #[trigger] done_steps(store, config, kv_dtypes, pre, mid, got)
                &&& got.len() < plan.len()
                &&& can_do(store, plan[got.len() as int])
                &&& post == mid.push(
                    failed(
                        (Event {
                            cmd: step_cmd(store, config, kv_dtypes, plan[got.len() as int], got),
                            reply: Reply::Done,
                        }),
                        e,
                    ),
                )
            },
    }
}

proof fn lemma_done_push(
    store: Map<Seq<char>, DevicePtr>,
    config: ModelConfig,
    kv_dtypes: Seq<KvCacheDtype>,
    pre: Seq<Event>,
    mid: Seq<Event>,
    got: Seq<Loaded>,
    x: Loaded,
)
    requires
        done_steps(store, config, kv_dtypes, pre, mid, got),
        got.len() < load_plan(config).len(),
        can_do(store, load_plan(config)[got.len() as int]),
        fits_step(load_plan(config)[got.len() as int], x),
    ensures
        done_steps(
            store,
            config,
            kv_dtypes,
            pre,
            mid.push(
                (Event {
                    cmd: step_cmd(store, config, kv_dtypes, load_plan(config)[got.len() as int], got),
                    reply: reply_of(x),
                }),
            ),
            got.push(x),
        ),
{
    let all = got.push(x);
    let n = got.len() as int;
    assert(all.take(n) =~= got);
    assert forall|k: int| 0 <= k < n implies all.take(k) == got.take(k) by {
        assert(all.take(k) =~= got.take(k));
    }
    let ev = Event { cmd: step_cmd(store, config, kv_dtypes, load_plan(config)[n], got), reply: reply_of(x) };
    let before = load_events(store, config, kv_dtypes, got);
    let e = load_events(store, config, kv_dtypes, all);
    assert(e[n] == ev);
    assert forall|k: int| 0 <= k < n implies e[k] == before[k] by {
        assert(all.take(k) == got.take(k));
        assert(all[k] == got[k]);
    }
    assert(e =~= before.push(ev));
    assert(mid.push(ev) =~= pre + e);
    assert forall|k: int|
        #![trigger all[k]]
        0 <= k < all.len() implies can_do(store, load_plan(config)[k]) && fits_step(load_plan(config)[k], all[k]) by {
        if k < n {
            assert(all[k] == got[k]);
        }
    }
}

// ── running the plan ──
fn push_stage(plan: &mut Vec<LoadStep>, config: &ModelConfig, i: usize)
    requires
        i < NUM_DSPARK_STAGES,
        config.hc_mult * config.hidden_size <= usize::MAX,
        config.hc_mult * (config.hc_mult * config.hidden_size) <= usize::MAX,
    ensures
        step_views(final(plan)@) == step_views(old(plan)@) + stage_plan(*config, i as nat),
{
    plan.push(LoadStep::Dense { name: join_numbered("mtp.", i, ".attn_norm.weight") });
    plan.push(LoadStep::Dense { name: join_numbered("mtp.", i, ".ffn_norm.weight") });
    plan.push(LoadStep::Dense { name: join_numbered("mtp.", i, ".attn.wq_a.weight") });
    plan.push(LoadStep::Dense { name: join_numbered("mtp.", i, ".attn.wq_b.weight") });
    plan.push(LoadStep::Dense { name: join_numbered("mtp.", i, ".attn.q_norm.weight") });
    plan.push(LoadStep::Dense { name: join_numbered("mtp.", i, ".attn.wkv.weight") });
    plan.push(LoadStep::Dense { name: join_numbered("mtp.", i, ".attn.kv_norm.weight") });
    plan.push(LoadStep::Dense { name: join_numbered("mtp.", i, ".attn.wo_a.weight") });
    plan.push(LoadStep::Dense { name: join_numbered("mtp.", i, ".attn.wo_b.weight") });
    if config.hc_mult > 0 && i == NUM_DSPARK_STAGES - 1 {
        let hc: usize = config.hc_mult;
        let hc_dim: usize = hc * config.hidden_size;
        plan.push(LoadStep::Hc { name: join_numbered("mtp.", i, ".hc_head_fn"), elems: hc * hc_dim });
        plan.push(LoadStep::Hc { name: join_numbered("mtp.", i, ".hc_head_base"), elems: hc });
        plan.push(LoadStep::Hc { name: join_numbered("mtp.", i, ".hc_head_scale"), elems: 1 });
    }
    plan.push(LoadStep::Stage { index: i });
    assert(step_views(plan@) =~= step_views(old(plan)@) + stage_plan(*config, i as nat));
}

fn push_head(plan: &mut Vec<LoadStep>, name: &str)
    ensures
        step_views(final(plan)@) == step_views(old(plan)@).push(Step::Dense(name@)),
{
    plan.push(LoadStep::Dense { name: name.to_owned() });
    assert(step_views(plan@) =~= step_views(old(plan)@).push(Step::Dense(name@)));
}

fn make_plan(config: &ModelConfig) -> (r: Vec<LoadStep>)
    requires
        config.hc_mult * config.hidden_size <= usize::MAX,
        config.hc_mult * (config.hc_mult * config.hidden_size) <= usize::MAX,
    ensures
        step_views(r@) == load_plan(*config),
{
    let mut plan: Vec<LoadStep> = Vec::new();
    plan.push(LoadStep::InvFreq);
    assert(step_views(plan@) =~= seq![Step::InvFreq]);
    push_stage(&mut plan, config, 0);
    push_stage(&mut plan, config, 1);
    push_stage(&mut plan, config, 2);
    push_head(&mut plan, "mtp.0.main_proj.weight");
    push_head(&mut plan, "mtp.0.main_norm.weight");
    push_head(&mut plan, "mtp.2.norm.weight");
    push_head(&mut plan, "mtp.2.markov_head.markov_w1.weight");
    push_head(&mut plan, "mtp.2.markov_head.markov_w2.weight");
    push_head(&mut plan, "mtp.2.confidence_head.proj.weight");
    assert(step_views(plan@) =~= load_plan(*config));
    plan
}

fn ptr_at(got: &Vec<Loaded>, i: usize) -> (r: DevicePtr)
    requires
        i < got@.len(),
        got@[i as int] is Ptr,
    ensures
        r == ptr_of(got@[i as int]),
{
    match got[i] {
        Loaded::Ptr(p) => p,
        Loaded::Stage(_) => DevicePtr(0),
    }
}

fn weight_at(got: &Vec<Loaded>, i: usize) -> (r: DenseWeight)
    requires
        i < got@.len(),
        got@[i as int] is Ptr,
    ensures
        r == weight_of(got@[i as int]),
{
    DenseWeight { weight: ptr_at(got, i) }
}

fn make_collapse(config: &ModelConfig, i: usize, got: &Vec<Loaded>) -> (r: Option<HcHeadWeights>)
    requires
        i < NUM_DSPARK_STAGES,
        got@.len() >= stage_at(*config, i as int),
        forall|k: int| stage_start(i as int) <= k < stage_at(*config, i as int) ==> #[trigger] got@[k] is Ptr,
    ensures
        r == collapse_of(*config, i as int, got@),
{
    if config.hc_mult > 0 && i == NUM_DSPARK_STAGES - 1 {
        let s: usize = 1 + 10 * i;
        Some(HcHeadWeights { hc_fn: ptr_at(got, s + 9), hc_base: ptr_at(got, s + 10), hc_scale: ptr_at(got, s + 11) })
    } else {
        None
    }
}

fn make_request(config: &ModelConfig, i: usize, got: &Vec<Loaded>) -> (r: StageRequest)
    requires
        i < NUM_DSPARK_STAGES,
        got@.len() >= stage_at(*config, i as int),
        got@[0] is Ptr,
        forall|k: int| stage_start(i as int) <= k < stage_at(*config, i as int) ==> #[trigger] got@[k] is Ptr,
    ensures
        r == request_of(*config, i as int, got@),
{
    let s: usize = 1 + 10 * i;
    StageRequest {
        stage: i,
        layer_idx: config.num_hidden_layers,
        force_all_experts: true,
        attn_norm: weight_at(got, s),
        ffn_norm: weight_at(got, s + 1),
        wq_a: weight_at(got, s + 2),
        wq_b: weight_at(got, s + 3),
        q_a_norm: weight_at(got, s + 4),
        wkv_a: weight_at(got, s + 5),
        kv_a_norm: weight_at(got, s + 6),
        wo_a: weight_at(got, s + 7),
        wo_b: weight_at(got, s + 8),
        yarn_inv_freq: ptr_at(got, 0),
        hc_head: make_collapse(config, i, got),
    }
}

/// What came back from any step but a stage is an address.
proof fn lemma_ptrs(config: ModelConfig, got: Seq<Loaded>, lo: int, hi: int)
    requires
        0 <= lo <= hi <= got.len() <= load_plan(config).len(),
        forall|k: int| #![trigger got[k]] 0 <= k < got.len() ==> fits_step(load_plan(config)[k], got[k]),
        forall|i: int| 0 <= i < 3 ==> !(lo <= #[trigger] stage_at(config, i) < hi),
    ensures
        forall|k: int| lo <= k < hi ==> #[trigger] got[k] is Ptr,
{
    lemma_plan(config);
    assert forall|k: int| lo <= k < hi implies #[trigger] got[k] is Ptr by {
        if load_plan(config)[k] is Stage {
            assert(k == stage_at(config, load_plan(config)[k]->Stage_0 as int));
        }
    }
}

/// Does one step of the plan.
fn do_step<G: GpuBackend>(
    gpu: &mut G,
    store: &WeightStore,
    config: &ModelConfig,
    layer_kv_dtypes: &[KvCacheDtype],
    step: &LoadStep,
    got: &Vec<Loaded>,
) -> (r: Result<Loaded, LoadError>)
    requires
        store.wf(),
        got@.len() < load_plan(*config).len(),
        step@ == load_plan(*config)[got@.len() as int],
        forall|k: int|
            #![trigger got@[k]]
            0 <= k < got@.len() ==> fits_step(load_plan(*config)[k], got@[k]),
    ensures
        match r {
            Ok(x) => {
                &&& can_do(store@, step@)
                &&& fits_step(step@, x)
                &&& final(gpu).trace() == old(gpu).trace().push(
                    (Event {
                        cmd: step_cmd(store@, *config, layer_kv_dtypes@, step@, got@),
                        reply: reply_of(x),
                    }),
                )
            },
            Err(LoadError::Missing { name }) => {
                &&& step_name(step@) == Some(name@)
                &&& !store@.contains_key(name@)
                &&& final(gpu).trace() == old(gpu).trace()
            },
            Err(LoadError::Gpu(e)) => {
                &&& can_do(store@, step@)
                &&& final(gpu).trace() == old(gpu).trace().push(
                    failed(
                        (Event {
                            cmd: step_cmd(store@, *config, layer_kv_dtypes@, step@, got@),
                            reply: Reply::Done,
                        }),
                        e,
                    ),
                )
            },
        },
{
    let call = match step {
        LoadStep::Stage { index } => {
            let i: usize = *index;
            proof {
                lemma_plan(*config);
                let at = stage_at(*config, i as int);
                assert(got@.len() == at);
                lemma_ptrs(*config, got@, 0, 1);
                lemma_ptrs(*config, got@, stage_start(i as int), at);
            }
            let request = make_request(config, i, got);
            return match gpu.assemble(request, layer_kv_dtypes) {
                Ok(s) => Ok(Loaded::Stage(s)),
                Err(e) => Err(LoadError::Gpu(e)),
            };
        },
        LoadStep::InvFreq => Call::YarnInvFreq { config: *config },
        LoadStep::Dense { name } => match store.get(name.as_str()) {
            Some(tensor) => Call::DenseAuto { tensor },
            None => {
                return Err(LoadError::Missing { name: name.clone() });
            },
        },
        LoadStep::Hc { name, elems } => match store.get(name.as_str()) {
            Some(tensor) => Call::HcF32 { tensor, elems: *elems },
            None => {
                return Err(LoadError::Missing { name: name.clone() });
            },
        },
    };
    match gpu.call(call, 0) {
        Ok(p) => Ok(Loaded::Ptr(p)),
        Err(e) => Err(LoadError::Gpu(e)),
    }
}

/// Loads the drafter, where it is present.
pub fn load_v4_dspark_module<G: GpuBackend>(
    store: &WeightStore,
    config: &ModelConfig,
    gpu: &mut G,
    layer_kv_dtypes: &[KvCacheDtype],
) -> (r: Result<Option<DeepseekV4DSparkModule>, LoadError>)
    requires
        store.wf(),
        config.hc_mult * config.hidden_size <= usize::MAX,
        config.hc_mult * (config.hc_mult * config.hidden_size) <= usize::MAX,
    ensures
        if is_present(config.num_mtp_modules, store@.contains_key("mtp.0.main_proj.weight"@)) {
            load_outcome(store@, *config, layer_kv_dtypes@, old(gpu).trace(), final(gpu).trace(), r)
        } else {
            r == Ok::<Option<DeepseekV4DSparkModule>, LoadError>(None) && final(gpu).trace() == old(gpu).trace()
        },
{
    let has_main_proj = store.contains("mtp.0.main_proj.weight");
    if !dspark_present(config.num_mtp_modules, has_main_proj) {
        return Ok(None);
    }
    let plan = make_plan(config);
    let ghost pre = gpu.trace();
    let ghost steps = load_plan(*config);
    let mut got: Vec<Loaded> = Vec::new();
    assert(pre =~= pre + load_events(store@, *config, layer_kv_dtypes@, got@));
    while got.len() < plan.len()
        invariant
            store.wf(),
            steps == load_plan(*config),
            step_views(plan@) == steps,
            is_present(config.num_mtp_modules, store@.contains_key("mtp.0.main_proj.weight"@)),
            pre == old(gpu).trace(),
            done_steps(store@, *config, layer_kv_dtypes@, pre, gpu.trace(), got@),
        decreases plan@.len() - got@.len(),
    {
        let ghost mid = gpu.trace();
        let k: usize = got.len();
        assert(steps[k as int] == plan@[k as int]@);
        match do_step(gpu, store, config, layer_kv_dtypes, &plan[k], &got) {
            Ok(x) => {
                proof {
                    lemma_done_push(store@, *config, layer_kv_dtypes@, pre, mid, got@, x);
                }
                got.push(x);
            },
            Err(e) => {
                assert(done_steps(store@, *config, layer_kv_dtypes@, pre, mid, got@));
                return Err(e);
            },
        }
    }
    let h: usize = if config.hc_mult > 0 { 34 } else { 31 };
    proof {
        lemma_plan(*config);
        assert(h == heads_start(*config));
        assert(got@.len() == h + 6);
        lemma_ptrs(*config, got@, h as int, got@.len() as int);
        lemma_ptrs(*config, got@, stage_start(2), stage_at(*config, 2));
    }
    let mut stages: Vec<DsparkStage> = Vec::new();
    let mut i: usize = 0;
    while i < NUM_DSPARK_STAGES
        invariant
            i <= NUM_DSPARK_STAGES,
            stages@.len() == i,
            h == heads_start(*config),
            got@.len() == h + 6,
            got@.len() == load_plan(*config).len(),
            forall|k: int|
                #![trigger got@[k]]
                0 <= k < got@.len() ==> fits_step(load_plan(*config)[k], got@[k]),
            forall|j: int| 0 <= j < i ==> Loaded::Stage(#[trigger] stages@[j]) == got@[stage_at(*config, j)],
        decreases NUM_DSPARK_STAGES - i,
    {
        let at: usize = if i == NUM_DSPARK_STAGES - 1 { h - 1 } else { 10 + 10 * i };
        proof {
            lemma_plan(*config);
            assert(at == stage_at(*config, i as int));
            assert(load_plan(*config)[stage_at(*config, i as int)] == Step::Stage(i));
            assert(fits_step(load_plan(*config)[at as int], got@[at as int]));
        }
        match got[at] {
            Loaded::Stage(s) => {
                stages.push(s);
            },
            Loaded::Ptr(_) => {
                assert(false);
            },
        }
        i += 1;
    }
    let hc_head = make_collapse(config, NUM_DSPARK_STAGES - 1, &got);
    let m = DeepseekV4DSparkModule {
        stages,
        main_proj: weight_at(&got, h),
        main_norm: weight_at(&got, h + 1),
        norm: weight_at(&got, h + 2),
        markov_w1: weight_at(&got, h + 3),
        markov_w2: weight_at(&got, h + 4),
        confidence_proj: weight_at(&got, h + 5),
        hc_head,
    };
    assert(is_module(*config, got@, m));
    Ok(Some(m))
}

} // verus!
