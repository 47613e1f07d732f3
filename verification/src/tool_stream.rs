//! Tool calls in a streamed response.
//!
//! A detector splits the model's text into content and tool calls: whole calls,
//! or a start, pieces of arguments, and an end. Each piece turns into chunks of
//! the response. A call that is invalid, or that repeats an earlier one, ends
//! the response instead.

use std::collections::HashMap;

use vstd::prelude::*;

use crate::text::join;

verus! {

broadcast use vstd::std_specs::hash::group_hash_axioms;

/// The function that a call names, with its arguments as JSON text.
#[derive(Debug)]
pub struct FunctionCall {
    pub name: String,
    pub arguments: String,
}

#[derive(Debug)]
pub struct ToolCall {
    pub id: String,
    pub call_type: String,
    pub function: FunctionCall,
}

/// A call by its characters.
#[verifier::ext_equal]
pub struct CallView {
    pub id: Seq<char>,
    pub call_type: Seq<char>,
    pub name: Seq<char>,
    pub arguments: Seq<char>,
}

impl View for ToolCall {
    type V = CallView;

    open spec fn view(&self) -> CallView {
        CallView {
            id: self.id@,
            call_type: self.call_type@,
            name: self.function.name@,
            arguments: self.function.arguments@,
        }
    }
}

/// One chunk of the response.
#[derive(Debug)]
pub enum Chunk {
    Content { text: String },
    /// The header of a call.
    ToolCallStart { index: usize, id: String, call_type: String, name: String },
    /// A piece of a call's arguments.
    ToolCallArgs { index: usize, text: String },
}

/// A chunk by its characters.
#[allow(inconsistent_fields)]
#[verifier::ext_equal]
pub enum ChunkView {
    Content { text: Seq<char> },
    ToolCallStart { index: usize, id: Seq<char>, call_type: Seq<char>, name: Seq<char> },
    ToolCallArgs { index: usize, text: Seq<char> },
}

impl View for Chunk {
    type V = ChunkView;

    open spec fn view(&self) -> ChunkView {
        match *self {
            Chunk::Content { text } => ChunkView::Content { text: text@ },
            Chunk::ToolCallStart { index, id, call_type, name } => ChunkView::ToolCallStart {
                index,
                id: id@,
                call_type: call_type@,
                name: name@,
            },
            Chunk::ToolCallArgs { index, text } => ChunkView::ToolCallArgs { index, text: text@ },
        }
    }
}

pub open spec fn chunk_views(v: Seq<Chunk>) -> Seq<ChunkView> {
    Seq::new(v.len(), |i: int| v[i]@)
}

/// What a response keeps of its tool calls.
pub struct StreamState {
    /// The response ends here.
    pub stop_string_triggered: bool,
    pub tool_calls_emitted_count: usize,
    /// Names and arguments of the calls that are still being streamed.
    pub streaming_tool_args: HashMap<usize, (String, String)>,
}

/// What is fixed for a response.
pub struct StreamCtx {
    /// Paths in arguments are made relative to a working directory.
    pub normalize_paths: bool,
    /// Calls that failed for good in earlier turns are known.
    pub failures_known: bool,
}

/// The calls being streamed, by their characters.
pub open spec fn open_calls(m: Map<usize, (String, String)>) -> Map<usize, (Seq<char>, Seq<char>)> {
    m.map_values(|v: (String, String)| (v.0@, v.1@))
}

// ── services ──
/// A question about a response, and its answer.
#[allow(inconsistent_fields)]
#[verifier::ext_equal]
pub enum ToolEvent {
    /// The content held back so far was let go.
    FlushContent { tail: Seq<char> },
    /// Required parameters were filled in.
    Backfill { before: CallView, after: CallView },
    /// Paths in arguments were made relative.
    NormalizePaths { before: CallView, after: CallView },
    /// A call was checked against its tool.
    Validate { call: CallView, problem: Option<Seq<char>> },
    /// A whole call was looked up among the earlier ones.
    SeenBefore { name: Seq<char>, arguments: Seq<char>, seen: bool },
    /// A streamed call was looked up among those of this response.
    SeenWithin { name: Seq<char>, arguments: Seq<char>, seen: bool },
    /// A call was looked up among those that failed for good.
    FailedForGood { name: Seq<char>, arguments: Seq<char>, failed: bool },
    /// One more call was counted.
    Count { before: usize, stop_before: bool, after: usize, stop_after: bool },
}

/// Validation, path handling, duplicate detection and call limits.
///
/// An implementation is free in what it answers, and owes a trace of it.
pub trait ToolServices: Sized {
    spec fn trace(&self) -> Seq<ToolEvent>;

    fn flush_content(&mut self) -> (r: String)
        ensures
            final(self).trace() == old(self).trace().push((ToolEvent::FlushContent { tail: r@ })),
    ;

    fn backfill_required_params(&mut self, call: &mut ToolCall)
        ensures
            final(self).trace() == old(self).trace().push(
                (ToolEvent::Backfill { before: old(call)@, after: final(call)@ }),
            ),
    ;

    fn normalize_paths(&mut self, call: &mut ToolCall)
        ensures
            final(self).trace() == old(self).trace().push(
                (ToolEvent::NormalizePaths { before: old(call)@, after: final(call)@ }),
            ),
    ;

    fn validate_single_tool_call(&mut self, call: &ToolCall) -> (r: Option<String>)
        ensures
            final(self).trace() == old(self).trace().push(
                (ToolEvent::Validate { call: call@, problem: problem_text(r) }),
            ),
    ;

    fn seen_before(&mut self, name: &str, arguments: &str) -> (r: bool)
        ensures
            final(self).trace() == old(self).trace().push(
                (ToolEvent::SeenBefore { name: name@, arguments: arguments@, seen: r }),
            ),
    ;

    fn seen_within(&mut self, name: &str, arguments: &str) -> (r: bool)
        ensures
            final(self).trace() == old(self).trace().push(
                (ToolEvent::SeenWithin { name: name@, arguments: arguments@, seen: r }),
            ),
    ;

    fn failed_for_good(&mut self, name: &str, arguments: &str) -> (r: bool)
        ensures
            final(self).trace() == old(self).trace().push(
                (ToolEvent::FailedForGood { name: name@, arguments: arguments@, failed: r }),
            ),
    ;

    /// Counts one more call. Answers with the new count and with whether the
    /// response ends.
    fn count_call(&mut self, before: usize, stop_before: bool) -> (r: (usize, bool))
        ensures
            final(self).trace() == old(self).trace().push(
                (ToolEvent::Count { before, stop_before, after: r.0, stop_after: r.1 }),
            ),
    ;
}

pub open spec fn problem_text(p: Option<String>) -> Option<Seq<char>> {
    match p {
        Some(s) => Some(s@),
        None => None,
    }
}

// ── content before a call ──
/// The content held back goes out before a call, where there is any.
pub open spec fn tail_chunks(tail: Seq<char>) -> Seq<ChunkView> {
    if tail.len() > 0 {
        seq![ChunkView::Content { text: tail }]
    } else {
        Seq::empty()
    }
}

fn flush_tail<S: ToolServices>(services: &mut S, chunks: &mut Vec<Chunk>) -> (r: Ghost<Seq<char>>)
    ensures
        final(services).trace() == old(services).trace().push((ToolEvent::FlushContent { tail: r@ })),
        chunk_views(final(chunks)@) == chunk_views(old(chunks)@) + tail_chunks(r@),
{
    let tail = services.flush_content();
    let ghost t = tail@;
    if !tail.as_str().is_empty() {
        chunks.push(Chunk::Content { text: tail });
        assert(chunk_views(chunks@) =~= chunk_views(old(chunks)@) + tail_chunks(t));
    } else {
        assert(chunk_views(chunks@) =~= chunk_views(old(chunks)@) + tail_chunks(t));
    }
    Ghost(t)
}

// ── whole calls ──
/// What came back for a whole call.
#[verifier::ext_equal]
pub struct WholeCall {
    pub tail: Seq<char>,
    pub backfilled: CallView,
    pub normalized: CallView,
    pub problem: Option<Seq<char>>,
    pub seen: bool,
    pub count: usize,
    pub stop: bool,
}

/// The call as it is checked and sent.
pub open spec fn ready_call(ctx: StreamCtx, a: WholeCall) -> CallView {
    if ctx.normalize_paths { a.normalized } else { a.backfilled }
}

/// The call is sent on: nothing is wrong with it, and it is new.
pub open spec fn is_sent(a: WholeCall) -> bool {
    a.problem is None && !a.seen
}

/// What is asked about a whole call.
pub open spec fn whole_call_events(ctx: StreamCtx, before: CallView, count: usize, stop: bool, a: WholeCall) -> Seq<ToolEvent> {
    let call = ready_call(ctx, a);
    seq![ToolEvent::FlushContent { tail: a.tail }, ToolEvent::Backfill { before, after: a.backfilled }] + (
    if ctx.normalize_paths {
        seq![ToolEvent::NormalizePaths { before: a.backfilled, after: a.normalized }]
    } else {
        Seq::empty()
    }) + seq![ToolEvent::Validate { call, problem: a.problem }] + (if a.problem is None {
        seq![ToolEvent::SeenBefore { name: call.name, arguments: call.arguments, seen: a.seen }]
    } else {
        Seq::empty()
    }) + (if is_sent(a) {
        seq![ToolEvent::Count { before: count, stop_before: stop, after: a.count, stop_after: a.stop }]
    } else {
        Seq::empty()
    })
}

/// What goes out for a whole call: the content before it, and then the call, or
/// why it was rejected, or nothing where it repeats another.
pub open spec fn whole_call_chunks(ctx: StreamCtx, index: usize, a: WholeCall) -> Seq<ChunkView> {
    let call = ready_call(ctx, a);
    tail_chunks(a.tail) + match a.problem {
        Some(e) => seq![ChunkView::Content { text: "[atlas] Tool call rejected: "@ + e }],
        None => if a.seen {
            Seq::empty()
        } else {
            seq![
                ChunkView::ToolCallStart { index, id: call.id, call_type: call.call_type, name: call.name },
                ChunkView::ToolCallArgs { index, text: call.arguments },
            ]
        },
    }
}

/// Handles a whole call.
pub fn handle_complete_tool_call<S: ToolServices>(
    state: &mut StreamState,
    ctx: &StreamCtx,
    tc: &mut ToolCall,
    tc_idx: usize,
    chunks: &mut Vec<Chunk>,
    services: &mut S,
)
    ensures
        final(state).streaming_tool_args == old(state).streaming_tool_args,
        exists|a: WholeCall|
            {
                &&& final(services).trace() == old(services).trace() + #[trigger] whole_call_events(
                    *ctx,
                    old(tc)@,
                    old(state).tool_calls_emitted_count,
                    old(state).stop_string_triggered,
                    a,
                )
                &&& chunk_views(final(chunks)@) == chunk_views(old(chunks)@) + whole_call_chunks(*ctx, tc_idx, a)
                &&& final(tc)@ == ready_call(*ctx, a)
                &&& final(state).stop_string_triggered == (if is_sent(a) { a.stop } else { true })
                &&& final(state).tool_calls_emitted_count == (if is_sent(a) {
                    a.count
                } else {
                    old(state).tool_calls_emitted_count
                })
            },
{
    let ghost pre = services.trace();
    let ghost sent = chunk_views(chunks@);
    let ghost before = tc@;
    let tail = flush_tail(services, chunks);
    services.backfill_required_params(tc);
    let ghost backfilled = tc@;
    if ctx.normalize_paths {
        services.normalize_paths(tc);
    }
    let ghost mut a = WholeCall {
        tail: tail@,
        backfilled,
        normalized: tc@,
        problem: None,
        seen: false,
        count: 0,
        stop: false,
    };
    let problem = services.validate_single_tool_call(tc);
    if let Some(e) = problem {
        proof {
            a = WholeCall { problem: Some(e@), ..a };
        }
        chunks.push(Chunk::Content { text: join("[atlas] Tool call rejected: ", e.as_str()) });
        state.stop_string_triggered = true;
        assert(chunk_views(chunks@) =~= sent + tail_chunks(tail@) + seq![
            ChunkView::Content { text: "[atlas] Tool call rejected: "@ + e@ },
        ]);
    } else if services.seen_before(tc.function.name.as_str(), tc.function.arguments.as_str()) {
        proof {
            a = WholeCall { seen: true, ..a };
        }
        state.stop_string_triggered = true;
    } else {
        let (count, stop) = services.count_call(state.tool_calls_emitted_count, state.stop_string_triggered);
        proof {
            a = WholeCall { count, stop, ..a };
        }
        state.tool_calls_emitted_count = count;
        state.stop_string_triggered = stop;
        chunks.push(
            Chunk::ToolCallStart {
                index: tc_idx,
                id: tc.id.clone(),
                call_type: tc.call_type.clone(),
                name: tc.function.name.clone(),
            },
        );
        chunks.push(Chunk::ToolCallArgs { index: tc_idx, text: tc.function.arguments.clone() });
        assert(chunk_views(chunks@) =~= sent + tail_chunks(tail@) + seq![
            ChunkView::ToolCallStart { index: tc_idx, id: tc@.id, call_type: tc@.call_type, name: tc@.name },
            ChunkView::ToolCallArgs { index: tc_idx, text: tc@.arguments },
        ]);
    }
    proof {
        let ev = whole_call_events(
            *ctx,
            before,
            old(state).tool_calls_emitted_count,
            old(state).stop_string_triggered,
            a,
        );
        assert(services.trace() =~= pre + ev);
        assert(chunk_views(chunks@) =~= sent + whole_call_chunks(*ctx, tc_idx, a));
        assert(tc@ == ready_call(*ctx, a));
    }
}

// ── streamed calls ──
/// Handles the start of a streamed call: its header goes out, and its arguments
/// are collected from here on.
pub fn handle_tool_call_start<S: ToolServices>(
    state: &mut StreamState,
    tc_id: String,
    name: String,
    idx: usize,
    chunks: &mut Vec<Chunk>,
    services: &mut S,
)
    ensures
        open_calls(final(state).streaming_tool_args@) == open_calls(old(state).streaming_tool_args@).insert(
            idx,
            (name@, Seq::<char>::empty()),
        ),
        exists|tail: Seq<char>, count: usize, stop: bool|
            {
                &&& final(services).trace() == old(services).trace() + #[trigger] start_events(
                    tail,
                    old(state).tool_calls_emitted_count,
                    old(state).stop_string_triggered,
                    count,
                    stop,
                )
                &&& chunk_views(final(chunks)@) == chunk_views(old(chunks)@) + tail_chunks(tail) + seq![
                    ChunkView::ToolCallStart { index: idx, id: tc_id@, call_type: "function"@, name: name@ },
                ]
                &&& final(state).tool_calls_emitted_count == count
                &&& final(state).stop_string_triggered == stop
            },
{
    let ghost pre = services.trace();
    let ghost sent = chunk_views(chunks@);
    let tail = flush_tail(services, chunks);
    let entry = (name.clone(), String::new());
    let ghost e = entry;
    let _ = state.streaming_tool_args.insert(idx, entry);
    proof {
        let after = open_calls(state.streaming_tool_args@);
        let want = open_calls(old(state).streaming_tool_args@).insert(idx, (name@, Seq::<char>::empty()));
        assert(after =~= want);
    }
    let (count, stop) = services.count_call(state.tool_calls_emitted_count, state.stop_string_triggered);
    state.tool_calls_emitted_count = count;
    state.stop_string_triggered = stop;
    chunks.push(Chunk::ToolCallStart { index: idx, id: tc_id, call_type: "function".to_owned(), name });
    proof {
        let ev = start_events(
            tail@,
            old(state).tool_calls_emitted_count,
            old(state).stop_string_triggered,
            count,
            stop,
        );
        assert(services.trace() =~= pre + ev);
        assert(chunk_views(chunks@) =~= sent + tail_chunks(tail@) + seq![
            ChunkView::ToolCallStart { index: idx, id: tc_id@, call_type: "function"@, name: name@ },
        ]);
    }
}

/// What is asked at the start of a streamed call.
pub open spec fn start_events(tail: Seq<char>, count: usize, stop: bool, count_after: usize, stop_after: bool) -> Seq<
    ToolEvent,
> {
    seq![
        ToolEvent::FlushContent { tail },
        ToolEvent::Count { before: count, stop_before: stop, after: count_after, stop_after },
    ]
}

/// Handles a piece of a streamed call's arguments: it is collected where the
/// call is open, and goes out where it is not empty.
pub fn handle_tool_call_delta(state: &mut StreamState, args: String, idx: usize, chunks: &mut Vec<Chunk>)
    ensures
        final(state).stop_string_triggered == old(state).stop_string_triggered,
        final(state).tool_calls_emitted_count == old(state).tool_calls_emitted_count,
        open_calls(final(state).streaming_tool_args@) == with_args(
            open_calls(old(state).streaming_tool_args@),
            idx,
            args@,
        ),
        chunk_views(final(chunks)@) == chunk_views(old(chunks)@) + (if args@.len() > 0 {
            seq![ChunkView::ToolCallArgs { index: idx, text: args@ }]
        } else {
            Seq::empty()
        }),
{
    let ghost sent = chunk_views(chunks@);
    let ghost before = state.streaming_tool_args@;
    match state.streaming_tool_args.remove(&idx) {
        Some(entry) => {
            let (name, mut so_far) = entry;
            so_far.append(args.as_str());
            let _ = state.streaming_tool_args.insert(idx, (name, so_far));
            proof {
                let after = open_calls(state.streaming_tool_args@);
                assert(after =~= with_args(open_calls(before), idx, args@));
            }
        },
        None => {
            proof {
                assert(open_calls(state.streaming_tool_args@) =~= open_calls(before));
            }
        },
    }
    let ghost text = args@;
    if !args.as_str().is_empty() {
        chunks.push(Chunk::ToolCallArgs { index: idx, text: args });
        assert(chunk_views(chunks@) =~= sent + seq![ChunkView::ToolCallArgs { index: idx, text }]);
    } else {
        assert(chunk_views(chunks@) =~= sent + Seq::<ChunkView>::empty());
    }
}

/// The open calls, with `text` behind the arguments of call `idx`.
pub open spec fn with_args(m: Map<usize, (Seq<char>, Seq<char>)>, idx: usize, text: Seq<char>) -> Map<
    usize,
    (Seq<char>, Seq<char>),
> {
    if m.contains_key(idx) {
        m.insert(idx, (m[idx].0, m[idx].1 + text))
    } else {
        m
    }
}

/// What is asked at the end of a streamed call: whether it repeats one of this
/// response, and, only where it does not, whether it failed for good before.
pub open spec fn end_events(name: Seq<char>, arguments: Seq<char>, failures_known: bool, seen: bool, gone: bool) -> Seq<
    ToolEvent,
> {
    seq![ToolEvent::SeenWithin { name, arguments, seen }] + (if !seen && failures_known {
        seq![ToolEvent::FailedForGood { name, arguments, failed: gone }]
    } else {
        Seq::empty()
    })
}

/// What the end of a streamed call asks and decides.
pub open spec fn call_ended(
    call: (Seq<char>, Seq<char>),
    failures_known: bool,
    seen: bool,
    gone: bool,
    pre: Seq<ToolEvent>,
    post: Seq<ToolEvent>,
    stop_before: bool,
    stop_after: bool,
) -> bool {
    &&& post == pre + end_events(call.0, call.1, failures_known, seen, gone)
    &&& stop_after == (stop_before || seen || (failures_known && gone))
}

/// Handles the end of a streamed call. A call that repeats another of this
/// response, or one that failed for good, ends the response.
pub fn handle_tool_call_end<S: ToolServices>(state: &mut StreamState, ctx: &StreamCtx, idx: usize, services: &mut S)
    ensures
        final(state).tool_calls_emitted_count == old(state).tool_calls_emitted_count,
        open_calls(final(state).streaming_tool_args@) == open_calls(old(state).streaming_tool_args@).remove(idx),
        if open_calls(old(state).streaming_tool_args@).contains_key(idx) {
            exists|seen: bool, gone: bool|
                #[trigger] call_ended(
                    open_calls(old(state).streaming_tool_args@)[idx],
                    ctx.failures_known,
                    seen,
                    gone,
                    old(services).trace(),
                    final(services).trace(),
                    old(state).stop_string_triggered,
                    final(state).stop_string_triggered,
                )
        } else {
            &&& final(services).trace() == old(services).trace()
            &&& final(state).stop_string_triggered == old(state).stop_string_triggered
        },
{
    let ghost pre = services.trace();
    let ghost before = state.streaming_tool_args@;
    let removed = state.streaming_tool_args.remove(&idx);
    proof {
        assert(open_calls(state.streaming_tool_args@) =~= open_calls(before).remove(idx));
    }
    if let Some(entry) = removed {
        let (name, args_json) = entry;
        let ghost call = (name@, args_json@);
        let ghost known = ctx.failures_known;
        assert(open_calls(before)[idx] == call);
        let ghost stop = state.stop_string_triggered;
        let seen = services.seen_within(name.as_str(), args_json.as_str());
        let mut gone = false;
        if !seen && ctx.failures_known {
            gone = services.failed_for_good(name.as_str(), args_json.as_str());
        }
        if seen || gone {
            state.stop_string_triggered = true;
        }
        proof {
            assert(services.trace() =~= pre + end_events(call.0, call.1, known, seen, gone));
            assert(call_ended(call, known, seen, gone, pre, services.trace(), stop, state.stop_string_triggered));
        }
    } else {
        assert(!open_calls(before).contains_key(idx));
    }
}

// ── law ──
/// The arguments that the end of a call is judged by are the pieces that went
/// out for it, in order.
pub open spec fn collected(m: Map<usize, (Seq<char>, Seq<char>)>, idx: usize, pieces: Seq<Seq<char>>) -> Map<
    usize,
    (Seq<char>, Seq<char>),
>
    decreases pieces.len(),
{
    if pieces.len() == 0 {
        m
    } else {
        with_args(collected(m, idx, pieces.drop_last()), idx, pieces.last())
    }
}

/// A call that was started and then given pieces holds their concatenation.
pub proof fn pieces_add_up(
    m: Map<usize, (Seq<char>, Seq<char>)>,
    idx: usize,
    name: Seq<char>,
    pieces: Seq<Seq<char>>,
)
    ensures
        collected(m.insert(idx, (name, Seq::empty())), idx, pieces) == m.insert(idx, (name, pieces.flatten())),
    decreases pieces.len(),
{
    let start = m.insert(idx, (name, Seq::<char>::empty()));
    if pieces.len() == 0 {
        assert(pieces.flatten() =~= Seq::<char>::empty());
        assert(collected(start, idx, pieces) =~= m.insert(idx, (name, pieces.flatten())));
    } else {
        pieces_add_up(m, idx, name, pieces.drop_last());
        pieces.lemma_flatten_and_flatten_alt_are_equivalent();
        pieces.drop_last().lemma_flatten_and_flatten_alt_are_equivalent();
        assert(pieces.flatten() =~= pieces.drop_last().flatten() + pieces.last());
        assert(collected(start, idx, pieces) =~= m.insert(idx, (name, pieces.flatten())));
    }
}

} // verus!
