//! Proposals of the multi-token-prediction head, and the life of its rows.

use vstd::multiset::Multiset;
use vstd::prelude::*;

use crate::config::ForwardContext;
use crate::gpu::{at, DevicePtr};
use crate::kv_cache::{all_blocks, grown, growing_conserves_blocks};
use crate::mtp::{
    key_after_trim, less, rollback_pair_key, rollback_plan, rows_to_trim, DeepseekV4MtpHead,
    DeepseekV4MtpProposerState, MtpFlags, MtpParts, MTP_BLOCK_SIZE, MTP_META_OFFSET,
};
use crate::mtp_forward::{
    blocks_for, body_place, call_of, draft_meta_bytes, drafted, mask_view, snapshot, start_rows, table_fits, table_grew,
    DraftCall, MtpError, MtpSnapshot,
};
use crate::speculative::ProposerState;
use crate::trace::GpuBackend;

verus! {

/// Draft steps that followed one another, each ending in a draft.
pub open spec fn chain(calls: Seq<DraftCall>, mask: Option<Seq<i32>>, snaps: Seq<MtpSnapshot>, toks: Seq<u32>) -> bool {
    &&& snaps.len() == toks.len() + 1
    &&& calls.len() >= toks.len()
    &&& forall|i: int|
        0 <= i < toks.len() ==> #[trigger] drafted(calls[i], mask, snaps[i], snaps[i + 1], Ok(toks[i]))
}

/// A chain of steps from `pre` to `post` that drafted `toks`.
pub open spec fn ran_chain(
    calls: Seq<DraftCall>,
    mask: Option<Seq<i32>>,
    pre: MtpSnapshot,
    post: MtpSnapshot,
    toks: Seq<u32>,
) -> bool {
    exists|snaps: Seq<MtpSnapshot>|
        #[trigger] chain(calls, mask, snaps, toks) && snaps[0] == pre && snaps.last() == post
}

/// A chain of steps that ended in an error after it had drafted `toks`.
pub open spec fn chain_failed(
    calls: Seq<DraftCall>,
    mask: Option<Seq<i32>>,
    pre: MtpSnapshot,
    post: MtpSnapshot,
    toks: Seq<u32>,
    e: MtpError,
) -> bool {
    &&& toks.len() < calls.len()
    &&& exists|mid: MtpSnapshot| #[trigger]
        ran_chain(calls, mask, pre, mid, toks) && drafted(calls[toks.len() as int], mask, mid, post, Err(e))
}

proof fn lemma_chain_step(
    calls: Seq<DraftCall>,
    mask: Option<Seq<i32>>,
    pre: MtpSnapshot,
    mid: MtpSnapshot,
    post: MtpSnapshot,
    toks: Seq<u32>,
    tok: u32,
)
    requires
        ran_chain(calls, mask, pre, mid, toks),
        toks.len() < calls.len(),
        drafted(calls[toks.len() as int], mask, mid, post, Ok(tok)),
    ensures
        ran_chain(calls, mask, pre, post, toks.push(tok)),
{
    let snaps = choose|snaps: Seq<MtpSnapshot>|
        #[trigger] chain(calls, mask, snaps, toks) && snaps[0] == pre && snaps.last() == mid;
    let next = snaps.push(post);
    let all = toks.push(tok);
    assert forall|i: int| 0 <= i < all.len() implies #[trigger] drafted(
        calls[i],
        mask,
        next[i],
        next[i + 1],
        Ok(all[i]),
    ) by {
        if i < toks.len() {
            assert(drafted(calls[i], mask, snaps[i], snaps[i + 1], Ok(toks[i])));
            assert(next[i] == snaps[i] && next[i + 1] == snaps[i + 1]);
        } else {
            assert(next[i] == mid && next[i + 1] == post);
        }
    }
    assert(chain(calls, mask, next, all));
}

proof fn lemma_chain_start(calls: Seq<DraftCall>, mask: Option<Seq<i32>>, pre: MtpSnapshot)
    ensures
        ran_chain(calls, mask, pre, pre, Seq::empty()),
{
    assert(chain(calls, mask, seq![pre], Seq::empty()));
}

/// A chain depends on the calls it made only.
proof fn lemma_chain_calls(
    calls: Seq<DraftCall>,
    others: Seq<DraftCall>,
    mask: Option<Seq<i32>>,
    pre: MtpSnapshot,
    post: MtpSnapshot,
    toks: Seq<u32>,
)
    requires
        ran_chain(calls, mask, pre, post, toks),
        others.len() >= toks.len(),
        forall|i: int| 0 <= i < toks.len() ==> #[trigger] calls[i] == others[i],
    ensures
        ran_chain(others, mask, pre, post, toks),
{
    let snaps = choose|snaps: Seq<MtpSnapshot>|
        #[trigger] chain(calls, mask, snaps, toks) && snaps[0] == pre && snaps.last() == post;
    assert forall|i: int| 0 <= i < toks.len() implies #[trigger] drafted(
        others[i],
        mask,
        snaps[i],
        snaps[i + 1],
        Ok(toks[i]),
    ) by {
        assert(drafted(calls[i], mask, snaps[i], snaps[i + 1], Ok(toks[i])));
    }
    assert(chain(others, mask, snaps, toks));
}

/// Room for `n` more rows.
pub open spec fn rows_fit(pre: MtpSnapshot, n: int) -> bool {
    let needed = (pre.seq_len + n) / (MTP_BLOCK_SIZE as int) + 1;
    let blocks = if needed > pre.table.len() { needed } else { pre.table.len() as int };
    &&& MTP_META_OFFSET + draft_meta_bytes(blocks) <= usize::MAX
    &&& pre.seq_len + n < usize::MAX
}

/// A step leaves room for one row less.
proof fn lemma_rows_fit(c: DraftCall, mask: Option<Seq<i32>>, pre: MtpSnapshot, post: MtpSnapshot, tok: u32, n: int)
    requires
        n >= 1,
        rows_fit(pre, n),
        drafted(c, mask, pre, post, Ok(tok)),
    ensures
        rows_fit(post, n - 1),
{
    let rows = start_rows(c, pre);
    assert(rows <= pre.seq_len);
    assert((rows + 1 + n - 1) / (MTP_BLOCK_SIZE as int) <= (pre.seq_len + n) / (MTP_BLOCK_SIZE as int));
    assert(rows as int / (MTP_BLOCK_SIZE as int) <= (pre.seq_len + n) / (MTP_BLOCK_SIZE as int));
    if c.flags.diag_passthrough {
    } else {
        assert(grown(pre.free, pre.table, blocks_for(rows), post.free, post.table, true));
    }
}

proof fn lemma_table_fits(c: DraftCall, pre: MtpSnapshot, n: int)
    requires
        n >= 1,
        rows_fit(pre, n),
    ensures
        table_fits(c, pre),
{
    let rows = start_rows(c, pre);
    assert(rows as int / (MTP_BLOCK_SIZE as int) <= (pre.seq_len + n) / (MTP_BLOCK_SIZE as int));
}

// ── proposing ──
/// The position of draft `i`. Where the first row is conditioned on a verified
/// token, it pairs with the row before the one that the scheduler names.
pub open spec fn row_position(position: int, i: int, k1_state: bool) -> int {
    if k1_state {
        less(position, 1) + i
    } else {
        position + i
    }
}

/// Draft step `i` of a proposal: the first is conditioned on the target, and
/// every later one on the draft before it and on the head's own hidden row.
pub open spec fn propose_call(
    parts: MtpParts,
    ctx: ForwardContext,
    flags: MtpFlags,
    last_token: u32,
    target_hidden: DevicePtr,
    position: usize,
    stream: u64,
    drafts: Seq<u32>,
    i: int,
) -> DraftCall {
    call_of(
        parts,
        ctx,
        flags,
        if i == 0 { last_token } else { drafts[i - 1] },
        if i == 0 { target_hidden } else { ctx.buffers.hidden_states },
        row_position(position as int, i, flags.k1_state) as usize,
        stream,
    )
}

/// The steps of a proposal, where `drafts` are the drafts so far.
pub open spec fn propose_calls(
    parts: MtpParts,
    ctx: ForwardContext,
    flags: MtpFlags,
    last_token: u32,
    target_hidden: DevicePtr,
    position: usize,
    stream: u64,
    drafts: Seq<u32>,
    n: nat,
) -> Seq<DraftCall> {
    Seq::new(n, |i: int| propose_call(parts, ctx, flags, last_token, target_hidden, position, stream, drafts, i))
}

pub open spec fn mtp_state(state: ProposerState) -> DeepseekV4MtpProposerState {
    state->V4Mtp_0
}

/// What drafting `n` tokens does and says.
pub open spec fn draft_rows_outcome(
    parts: MtpParts,
    ctx: ForwardContext,
    flags: MtpFlags,
    last_token: u32,
    target_hidden: DevicePtr,
    position: usize,
    stream: u64,
    n: nat,
    mask: Option<Seq<i32>>,
    pre: MtpSnapshot,
    post: MtpSnapshot,
    r: Result<Vec<u32>, MtpError>,
) -> bool {
    match r {
        Ok(drafts) => drafts@.len() == n && ran_chain(
            propose_calls(parts, ctx, flags, last_token, target_hidden, position, stream, drafts@, n),
            mask,
            pre,
            post,
            drafts@,
        ),
        Err(e) => exists|drafts: Seq<u32>| #[trigger]
            chain_failed(
                propose_calls(parts, ctx, flags, last_token, target_hidden, position, stream, drafts, n),
                mask,
                pre,
                post,
                drafts,
                e,
            ),
    }
}

impl DeepseekV4MtpHead {
    fn draft_rows<G: GpuBackend>(
        &mut self,
        gpu: &mut G,
        last_token: u32,
        target_hidden: DevicePtr,
        position: usize,
        num_drafts: usize,
        st: &mut DeepseekV4MtpProposerState,
        ctx: &ForwardContext,
        flags: &MtpFlags,
        stream: u64,
        grammar_bitmask: Option<&[i32]>,
    ) -> (r: Result<Vec<u32>, MtpError>)
        requires
            old(self).wf(),
            call_of(old(self).parts, *ctx, *flags, last_token, target_hidden, position, stream).fits(),
            position + num_drafts <= usize::MAX,
            rows_fit(snapshot(old(gpu).trace(), *old(self), *old(st)), num_drafts as int),
        ensures
            final(self).wf(),
            final(self).parts == old(self).parts,
            final(st).last_num_drafted == old(st).last_num_drafted,
            body_place(*final(self), *final(st)) == body_place(*old(self), *old(st)),
            draft_rows_outcome(
                old(self).parts,
                *ctx,
                *flags,
                last_token,
                target_hidden,
                position,
                stream,
                num_drafts as nat,
                mask_view(grammar_bitmask),
                snapshot(old(gpu).trace(), *old(self), *old(st)),
                snapshot(final(gpu).trace(), *final(self), *final(st)),
                r,
            ),
    {
        let ghost parts = self.parts;
        let ghost mask = mask_view(grammar_bitmask);
        let ghost n = num_drafts as nat;
        let ghost pre = snapshot(gpu.trace(), *self, *st);
        let mut drafts: Vec<u32> = Vec::new();
        let mut token: u32 = last_token;
        let mut hidden = target_hidden;
        let mut i: usize = 0;
        proof {
            lemma_chain_start(
                propose_calls(parts, *ctx, *flags, last_token, target_hidden, position, stream, drafts@, n),
                mask,
                pre,
            );
        }
        while i < num_drafts
            invariant
                i <= num_drafts,
                n == num_drafts,
                drafts@.len() == i,
                position + num_drafts <= usize::MAX,
                self.wf(),
                self.parts == parts,
                parts == old(self).parts,
                pre == snapshot(old(gpu).trace(), *old(self), *old(st)),
                mask == mask_view(grammar_bitmask),
                st.last_num_drafted == old(st).last_num_drafted,
                body_place(*self, *st) == body_place(*old(self), *old(st)),
                token == (if i == 0 { last_token } else { drafts@[i - 1] }),
                hidden == (if i == 0 { target_hidden } else { ctx.buffers.hidden_states }),
                call_of(parts, *ctx, *flags, last_token, target_hidden, position, stream).fits(),
                rows_fit(snapshot(gpu.trace(), *self, *st), num_drafts - i),
                ran_chain(
                    propose_calls(parts, *ctx, *flags, last_token, target_hidden, position, stream, drafts@, n),
                    mask,
                    pre,
                    snapshot(gpu.trace(), *self, *st),
                    drafts@,
                ),
            decreases num_drafts - i,
        {
            let ghost mid = snapshot(gpu.trace(), *self, *st);
            let ghost calls = propose_calls(
                parts,
                *ctx,
                *flags,
                last_token,
                target_hidden,
                position,
                stream,
                drafts@,
                n,
            );
            let pos: usize = if flags.k1_state { position.saturating_sub(1) + i } else { position + i };
            let ghost c = call_of(parts, *ctx, *flags, token, hidden, pos, stream);
            proof {
                assert(calls[i as int] == c);
                lemma_table_fits(c, mid, num_drafts - i);
            }
            match self.forward_one(gpu, token, hidden, pos, st, ctx, flags, stream, grammar_bitmask) {
                Err(e) => {
                    assert(chain_failed(calls, mask, pre, snapshot(gpu.trace(), *self, *st), drafts@, e));
                    return Err(e);
                },
                Ok(draft) => {
                    let ghost before = drafts@;
                    drafts.push(draft);
                    proof {
                        let post = snapshot(gpu.trace(), *self, *st);
                        lemma_rows_fit(c, mask, mid, post, draft, num_drafts - i);
                        lemma_chain_step(calls, mask, pre, mid, post, before, draft);
                        assert(before.push(draft) =~= drafts@);
                        lemma_chain_calls(
                            calls,
                            propose_calls(parts, *ctx, *flags, last_token, target_hidden, position, stream, drafts@, n),
                            mask,
                            pre,
                            post,
                            drafts@,
                        );
                    }
                    token = draft;
                    hidden = ctx.buffers.hidden_states;
                    i += 1;
                },
            }
        }
        Ok(drafts)
    }

    /// Drafts `num_drafts` tokens.
    pub fn propose<G: GpuBackend>(
        &mut self,
        gpu: &mut G,
        last_token: u32,
        target_hidden: DevicePtr,
        position: usize,
        num_drafts: usize,
        state: &mut ProposerState,
        ctx: &ForwardContext,
        flags: &MtpFlags,
        stream: u64,
        grammar_bitmask: Option<&[i32]>,
    ) -> (r: Result<Vec<u32>, MtpError>)
        requires
            old(self).wf(),
            call_of(old(self).parts, *ctx, *flags, last_token, target_hidden, position, stream).fits(),
            position + num_drafts <= usize::MAX,
            *old(state) is V4Mtp ==> rows_fit(
                snapshot(old(gpu).trace(), *old(self), mtp_state(*old(state))),
                num_drafts as int,
            ),
        ensures
            final(self).wf(),
            final(self).parts == old(self).parts,
            *old(state) !is V4Mtp ==> {
                &&& r matches Err(x)
                &&& x == MtpError::InvalidState
                &&& *final(state) == *old(state)
                &&& final(gpu).trace() == old(gpu).trace()
                &&& *final(self) == *old(self)
            },
            *old(state) is V4Mtp ==> {
                &&& *final(state) is V4Mtp
                &&& mtp_state(*final(state)).last_num_drafted == (if r is Ok {
                    num_drafts
                } else {
                    mtp_state(*old(state)).last_num_drafted
                })
                &&& body_place(*final(self), mtp_state(*final(state))) == body_place(
                    *old(self),
                    mtp_state(*old(state)),
                )
                &&& draft_rows_outcome(
                    old(self).parts,
                    *ctx,
                    *flags,
                    last_token,
                    target_hidden,
                    position,
                    stream,
                    num_drafts as nat,
                    mask_view(grammar_bitmask),
                    snapshot(old(gpu).trace(), *old(self), mtp_state(*old(state))),
                    snapshot(final(gpu).trace(), *final(self), mtp_state(*final(state))),
                    r,
                )
            },
    {
        match state {
            ProposerState::V4Mtp(st) => {
                let r = self.draft_rows(
                    gpu,
                    last_token,
                    target_hidden,
                    position,
                    num_drafts,
                    st,
                    ctx,
                    flags,
                    stream,
                    grammar_bitmask,
                );
                match r {
                    Ok(drafts) => {
                        st.last_num_drafted = drafts.len();
                        Ok(drafts)
                    },
                    Err(e) => Err(e),
                }
            },
            _ => Err(MtpError::InvalidState),
        }
    }
}

// ── rows of a sequence ──
/// The rows of a sequence, handed from one state to another.
pub struct DrafterKv {
    pub blocks: Vec<u32>,
    pub rows: usize,
    pub last_pair_key: Option<usize>,
}

/// The state has no rows and holds no blocks.
pub open spec fn is_clear(st: DeepseekV4MtpProposerState) -> bool {
    st.block_table@.len() == 0 && st.seq_len == 0
}

/// The rows can be taken from the state.
pub open spec fn has_rows(st: DeepseekV4MtpProposerState) -> bool {
    st.block_table@.len() > 0 && st.seq_len > 0
}

/// What taking the rows of a state gives, and leaves.
pub open spec fn took(before: ProposerState, after: ProposerState, r: Option<DrafterKv>) -> bool {
    match (before, r) {
        (ProposerState::V4Mtp(st), Some(kv)) => {
            &&& has_rows(st)
            &&& kv.blocks@ == st.block_table@
            &&& kv.rows == st.seq_len
            &&& kv.last_pair_key == st.last_pair_key
            &&& after matches ProposerState::V4Mtp(t)
            &&& is_clear(t)
            &&& t.last_pair_key is None
            &&& t.last_num_drafted == 0
            &&& t.body_state == st.body_state
        },
        (ProposerState::V4Mtp(st), None) => !has_rows(st) && after == before,
        (_, Some(_)) => false,
        (_, None) => after == before,
    }
}

/// What installing rows into a state does, and says.
pub open spec fn installed(before: ProposerState, after: ProposerState, kv: DrafterKv, r: bool) -> bool {
    match before {
        ProposerState::V4Mtp(st) => {
            &&& r == is_clear(st)
            &&& r ==> {
                &&& after matches ProposerState::V4Mtp(t)
                &&& t.block_table@ == kv.blocks@
                &&& t.seq_len == kv.rows
                &&& t.last_pair_key == kv.last_pair_key
                &&& t.last_num_drafted == st.last_num_drafted
                &&& t.body_state == st.body_state
            }
            &&& !r ==> after == before
        },
        _ => !r && after == before,
    }
}

/// Rows that were taken from a state and put back are as they were: the state
/// that gave them up takes them again, with the same blocks, rows and key.
pub proof fn rows_survive_a_round_trip(
    before: ProposerState,
    emptied: ProposerState,
    after: ProposerState,
    kv: DrafterKv,
    accepted: bool,
)
    requires
        took(before, emptied, Some(kv)),
        installed(emptied, after, kv, accepted),
    ensures
        accepted,
        mtp_state(after).block_table@ == mtp_state(before).block_table@,
        mtp_state(after).seq_len == mtp_state(before).seq_len,
        mtp_state(after).last_pair_key == mtp_state(before).last_pair_key,
        mtp_state(after).body_state == mtp_state(before).body_state,
{
}

impl DeepseekV4MtpHead {
    /// Rows that the sequence has; none where the state is another proposer's.
    pub fn drafter_rows(&self, state: &ProposerState) -> (r: usize)
        ensures
            r == (if *state is V4Mtp { mtp_state(*state).seq_len } else { 0 }),
    {
        match state {
            ProposerState::V4Mtp(st) => st.seq_len,
            _ => 0,
        }
    }

    /// The newest position written.
    pub fn last_pair_key(&self, state: &ProposerState) -> (r: Option<usize>)
        ensures
            r == (if *state is V4Mtp { mtp_state(*state).last_pair_key } else { None }),
    {
        match state {
            ProposerState::V4Mtp(st) => st.last_pair_key,
            _ => None,
        }
    }

    /// Takes the rows out of a state.
    pub fn take_drafter_kv(&self, state: &mut ProposerState) -> (r: Option<DrafterKv>)
        ensures
            took(*old(state), *final(state), r),
    {
        match state {
            ProposerState::V4Mtp(st) => {
                if st.block_table.len() == 0 || st.seq_len == 0 {
                    return None;
                }
                let mut blocks: Vec<u32> = Vec::new();
                std::mem::swap(&mut blocks, &mut st.block_table);
                let rows: usize = st.seq_len;
                let last_pair_key = st.last_pair_key;
                st.seq_len = 0;
                st.last_pair_key = None;
                st.last_num_drafted = 0;
                Some(DrafterKv { blocks, rows, last_pair_key })
            },
            _ => None,
        }
    }

    /// Puts rows into a state that has none. Says whether it did.
    pub fn install_drafter_kv(&self, state: &mut ProposerState, kv: DrafterKv) -> (r: bool)
        ensures
            installed(*old(state), *final(state), kv, r),
    {
        match state {
            ProposerState::V4Mtp(st) => {
                if st.block_table.len() != 0 || st.seq_len != 0 {
                    return false;
                }
                st.block_table = kv.blocks;
                st.seq_len = kv.rows;
                st.last_pair_key = kv.last_pair_key;
                true
            },
            _ => false,
        }
    }

    /// Gives blocks back to the head's cache.
    pub fn free_drafter_kv(&mut self, blocks: &[u32])
        ensures
            final(self).kv_cache.free@ == old(self).kv_cache.free@ + blocks@,
            final(self).parts == old(self).parts,
            final(self).kv_cache.config == old(self).kv_cache.config,
            final(self).kv_cache.storage == old(self).kv_cache.storage,
            final(self).dumps_asked == old(self).dumps_asked,
    {
        if blocks.len() > 0 {
            self.kv_cache.free_blocks(blocks);
        } else {
            assert(self.kv_cache.free@ =~= old(self).kv_cache.free@ + blocks@);
        }
    }

    /// Takes note of a verification: rejected rows are rolled back.
    pub fn after_verify(&self, num_accepted: usize, flags: &MtpFlags, state: &mut ProposerState) -> (r: Result<
        (),
        MtpError,
    >)
        ensures
            match *old(state) {
                ProposerState::V4Mtp(st) => {
                    let drafted = if st.last_num_drafted == 0 { 1 } else { st.last_num_drafted as int };
                    let trim = rows_to_trim(drafted, num_accepted as int, flags.k1_state);
                    &&& r is Ok
                    &&& *final(state) matches ProposerState::V4Mtp(t)
                    &&& t.seq_len == less(st.seq_len as int, trim)
                    &&& t.last_pair_key == key_after_trim(st.last_pair_key, trim)
                    &&& t.block_table == st.block_table
                    &&& t.last_num_drafted == st.last_num_drafted
                    &&& t.body_state == st.body_state
                },
                _ => r == Err::<(), MtpError>(MtpError::InvalidState) && *final(state) == *old(state),
            },
    {
        match state {
            ProposerState::V4Mtp(st) => {
                let drafted: usize = if st.last_num_drafted == 0 { 1 } else { st.last_num_drafted };
                let trim: usize = rollback_plan(drafted, num_accepted, flags.k1_state);
                if trim > 0 {
                    st.seq_len = st.seq_len.saturating_sub(trim);
                    st.last_pair_key = rollback_pair_key(st.last_pair_key, trim);
                }
                Ok(())
            },
            _ => Err(MtpError::InvalidState),
        }
    }

    /// Gives the blocks of a sequence back and forgets its rows.
    pub fn free_state(&mut self, state: &mut ProposerState) -> (r: Result<(), MtpError>)
        ensures
            final(self).parts == old(self).parts,
            final(self).kv_cache.config == old(self).kv_cache.config,
            final(self).kv_cache.storage == old(self).kv_cache.storage,
            final(self).dumps_asked == old(self).dumps_asked,
            match *old(state) {
                ProposerState::V4Mtp(st) => {
                    &&& r is Ok
                    &&& *final(state) matches ProposerState::V4Mtp(t)
                    &&& is_clear(t)
                    &&& t.last_pair_key == st.last_pair_key
                    &&& t.last_num_drafted == st.last_num_drafted
                    &&& t.body_state == st.body_state
                    &&& final(self).kv_cache.free@ == old(self).kv_cache.free@ + st.block_table@
                },
                _ => {
                    &&& r == Err::<(), MtpError>(MtpError::InvalidState)
                    &&& *final(state) == *old(state)
                    &&& final(self).kv_cache.free@ == old(self).kv_cache.free@
                },
            },
    {
        match state {
            ProposerState::V4Mtp(st) => {
                if st.block_table.len() > 0 {
                    self.kv_cache.free_blocks(st.block_table.as_slice());
                    st.block_table.clear();
                } else {
                    assert(self.kv_cache.free@ =~= old(self).kv_cache.free@ + st.block_table@);
                }
                st.seq_len = 0;
                Ok(())
            },
            _ => Err(MtpError::InvalidState),
        }
    }
}

// ── catching up ──
/// Catch-up step `r`: token `r + 1` against hidden row `r`.
pub open spec fn catchup_call(
    parts: MtpParts,
    ctx: ForwardContext,
    flags: MtpFlags,
    tokens: Seq<u32>,
    hiddens: DevicePtr,
    pos_base: usize,
    stream: u64,
    r: int,
) -> DraftCall {
    call_of(
        parts,
        ctx,
        flags,
        tokens[r + 1],
        at(hiddens, r * ctx.config.hidden_size * 2),
        (pos_base + r) as usize,
        stream,
    )
}

pub open spec fn catchup_calls(
    parts: MtpParts,
    ctx: ForwardContext,
    flags: MtpFlags,
    tokens: Seq<u32>,
    hiddens: DevicePtr,
    pos_base: usize,
    stream: u64,
) -> Seq<DraftCall> {
    Seq::new(
        (tokens.len() - 1) as nat,
        |r: int| catchup_call(parts, ctx, flags, tokens, hiddens, pos_base, stream, r),
    )
}

/// Rows are caught up where that is switched on, where the rows that are there
/// reach up to `row_base`, and where there is a pair to catch up.
pub open spec fn catches_up(state: ProposerState, flags: MtpFlags, row_base: usize, tokens: Seq<u32>) -> bool {
    &&& flags.catchup
    &&& state is V4Mtp
    &&& mtp_state(state).seq_len == row_base
    &&& tokens.len() >= 2
}

impl DeepseekV4MtpHead {
    fn catchup_rows<G: GpuBackend>(
        &mut self,
        gpu: &mut G,
        tokens: &[u32],
        hiddens: DevicePtr,
        pos_base: usize,
        st: &mut DeepseekV4MtpProposerState,
        ctx: &ForwardContext,
        flags: &MtpFlags,
        stream: u64,
    ) -> (r: Result<usize, MtpError>)
        requires
            old(self).wf(),
            tokens@.len() >= 2,
            call_of(old(self).parts, *ctx, *flags, 0, hiddens, pos_base, stream).fits(),
            pos_base + tokens@.len() <= usize::MAX,
            tokens@.len() * ctx.config.hidden_size <= usize::MAX,
            tokens@.len() * ctx.config.hidden_size * 2 <= usize::MAX,
            rows_fit(snapshot(old(gpu).trace(), *old(self), *old(st)), tokens@.len() - 1),
        ensures
            final(self).wf(),
            final(self).parts == old(self).parts,
            final(st).last_num_drafted == old(st).last_num_drafted,
            body_place(*final(self), *final(st)) == body_place(*old(self), *old(st)),
            catchup_outcome(
                old(self).parts,
                *ctx,
                *flags,
                tokens@,
                hiddens,
                pos_base,
                stream,
                snapshot(old(gpu).trace(), *old(self), *old(st)),
                snapshot(final(gpu).trace(), *final(self), *final(st)),
                r,
            ),
    {
        let ghost parts = self.parts;
        let ghost pre = snapshot(gpu.trace(), *self, *st);
        let ghost calls = catchup_calls(parts, *ctx, *flags, tokens@, hiddens, pos_base, stream);
        let ghost mut toks: Seq<u32> = Seq::empty();
        let h: usize = ctx.config.hidden_size;
        let rows: usize = tokens.len() - 1;
        let mut r: usize = 0;
        proof {
            lemma_chain_start(calls, None, pre);
        }
        while r < rows
            invariant
                r <= rows,
                rows == tokens@.len() - 1,
                h == ctx.config.hidden_size,
                toks.len() == r,
                self.wf(),
                self.parts == parts,
                parts == old(self).parts,
                pre == snapshot(old(gpu).trace(), *old(self), *old(st)),
                calls == catchup_calls(parts, *ctx, *flags, tokens@, hiddens, pos_base, stream),
                st.last_num_drafted == old(st).last_num_drafted,
                body_place(*self, *st) == body_place(*old(self), *old(st)),
                call_of(parts, *ctx, *flags, 0, hiddens, pos_base, stream).fits(),
                pos_base + tokens@.len() <= usize::MAX,
                tokens@.len() * h <= usize::MAX,
                tokens@.len() * h * 2 <= usize::MAX,
                rows_fit(snapshot(gpu.trace(), *self, *st), rows - r),
                ran_chain(calls, None, pre, snapshot(gpu.trace(), *self, *st), toks),
            decreases rows - r,
        {
            let ghost mid = snapshot(gpu.trace(), *self, *st);
            assert(r * h <= tokens@.len() * h && r * h * 2 <= tokens@.len() * h * 2) by (nonlinear_arith)
                requires
                    r < tokens@.len(),
                    h >= 0,
            ;
            let tok: u32 = tokens[r + 1];
            let hidden = hiddens.offset(r * h * 2);
            let pos: usize = pos_base + r;
            let ghost c = call_of(parts, *ctx, *flags, tok, hidden, pos, stream);
            proof {
                assert(calls[r as int] == c);
                lemma_table_fits(c, mid, rows - r);
            }
            match self.forward_one(gpu, tok, hidden, pos, st, ctx, flags, stream, None) {
                Err(e) => {
                    assert(chain_failed(calls, None, pre, snapshot(gpu.trace(), *self, *st), toks, e));
                    return Err(e);
                },
                Ok(draft) => {
                    proof {
                        let post = snapshot(gpu.trace(), *self, *st);
                        lemma_rows_fit(c, None, mid, post, draft, rows - r);
                        lemma_chain_step(calls, None, pre, mid, post, toks, draft);
                        toks = toks.push(draft);
                    }
                    r += 1;
                },
            }
        }
        Ok(rows)
    }

    /// Writes the rows of verified tokens one by one. Answers with the number of
    /// rows written.
    pub fn catchup_drafter<G: GpuBackend>(
        &mut self,
        gpu: &mut G,
        tokens: &[u32],
        hiddens: DevicePtr,
        row_base: usize,
        pos_base: usize,
        state: &mut ProposerState,
        ctx: &ForwardContext,
        flags: &MtpFlags,
        stream: u64,
    ) -> (r: Result<usize, MtpError>)
        requires
            old(self).wf(),
            catches_up(*old(state), *flags, row_base, tokens@) ==> {
                &&& call_of(old(self).parts, *ctx, *flags, 0, hiddens, pos_base, stream).fits()
                &&& pos_base + tokens@.len() <= usize::MAX
                &&& tokens@.len() * ctx.config.hidden_size <= usize::MAX
                &&& tokens@.len() * ctx.config.hidden_size * 2 <= usize::MAX
                &&& rows_fit(snapshot(old(gpu).trace(), *old(self), mtp_state(*old(state))), tokens@.len() - 1)
            },
        ensures
            final(self).wf(),
            final(self).parts == old(self).parts,
            if catches_up(*old(state), *flags, row_base, tokens@) {
                &&& *final(state) is V4Mtp
                &&& mtp_state(*final(state)).last_num_drafted == mtp_state(*old(state)).last_num_drafted
                &&& body_place(*final(self), mtp_state(*final(state))) == body_place(
                    *old(self),
                    mtp_state(*old(state)),
                )
                &&& catchup_outcome(
                    old(self).parts,
                    *ctx,
                    *flags,
                    tokens@,
                    hiddens,
                    pos_base,
                    stream,
                    snapshot(old(gpu).trace(), *old(self), mtp_state(*old(state))),
                    snapshot(final(gpu).trace(), *final(self), mtp_state(*final(state))),
                    r,
                )
            } else {
                &&& r == Ok::<usize, MtpError>(0)
                &&& *final(state) == *old(state)
                &&& *final(self) == *old(self)
                &&& final(gpu).trace() == old(gpu).trace()
            },
    {
        if !flags.catchup {
            return Ok(0);
        }
        match state {
            ProposerState::V4Mtp(st) => {
                if st.seq_len != row_base || tokens.len() < 2 {
                    return Ok(0);
                }
                self.catchup_rows(gpu, tokens, hiddens, pos_base, st, ctx, flags, stream)
            },
            _ => Ok(0),
        }
    }

    /// Writes the rows of a prompt one by one, from an empty state.
    pub fn prefill_drafter<G: GpuBackend>(
        &mut self,
        gpu: &mut G,
        prompt_tokens: &[u32],
        hiddens: DevicePtr,
        state: &mut ProposerState,
        ctx: &ForwardContext,
        flags: &MtpFlags,
        stream: u64,
    ) -> (r: Result<usize, MtpError>)
        requires
            old(self).wf(),
            catches_up(*old(state), *flags, 0, prompt_tokens@) ==> {
                &&& call_of(old(self).parts, *ctx, *flags, 0, hiddens, 1, stream).fits()
                &&& 1 + prompt_tokens@.len() <= usize::MAX
                &&& prompt_tokens@.len() * ctx.config.hidden_size <= usize::MAX
                &&& prompt_tokens@.len() * ctx.config.hidden_size * 2 <= usize::MAX
                &&& rows_fit(
                    snapshot(old(gpu).trace(), *old(self), mtp_state(*old(state))),
                    prompt_tokens@.len() - 1,
                )
            },
        ensures
            final(self).wf(),
            final(self).parts == old(self).parts,
            if catches_up(*old(state), *flags, 0, prompt_tokens@) {
                &&& *final(state) is V4Mtp
                &&& mtp_state(*final(state)).last_num_drafted == mtp_state(*old(state)).last_num_drafted
                &&& body_place(*final(self), mtp_state(*final(state))) == body_place(
                    *old(self),
                    mtp_state(*old(state)),
                )
                &&& catchup_outcome(
                    old(self).parts,
                    *ctx,
                    *flags,
                    prompt_tokens@,
                    hiddens,
                    1,
                    stream,
                    snapshot(old(gpu).trace(), *old(self), mtp_state(*old(state))),
                    snapshot(final(gpu).trace(), *final(self), mtp_state(*final(state))),
                    r,
                )
            } else {
                &&& r == Ok::<usize, MtpError>(0)
                &&& *final(state) == *old(state)
                &&& *final(self) == *old(self)
                &&& final(gpu).trace() == old(gpu).trace()
            },
    {
        self.catchup_drafter(gpu, prompt_tokens, hiddens, 0, 1, state, ctx, flags, stream)
    }
}

/// What catching up does and says.
pub open spec fn catchup_outcome(
    parts: MtpParts,
    ctx: ForwardContext,
    flags: MtpFlags,
    tokens: Seq<u32>,
    hiddens: DevicePtr,
    pos_base: usize,
    stream: u64,
    pre: MtpSnapshot,
    post: MtpSnapshot,
    r: Result<usize, MtpError>,
) -> bool {
    let calls = catchup_calls(parts, ctx, flags, tokens, hiddens, pos_base, stream);
    match r {
        Ok(rows) => rows == tokens.len() - 1 && exists|toks: Seq<u32>|
            toks.len() == rows && #[trigger] ran_chain(calls, None, pre, post, toks),
        Err(e) => exists|toks: Seq<u32>| #[trigger] chain_failed(calls, None, pre, post, toks, e),
    }
}

// ── the blocks of the head's cache ──
/// The blocks that a sequence and the free list hold between them.
pub open spec fn blocks_of(s: MtpSnapshot) -> Multiset<u32> {
    all_blocks(s.free, s.table)
}

/// A draft step, however it ends, neither loses a block of the head's cache nor
/// makes one up.
pub proof fn drafting_conserves_blocks(
    c: DraftCall,
    mask: Option<Seq<i32>>,
    pre: MtpSnapshot,
    post: MtpSnapshot,
    r: Result<u32, MtpError>,
)
    requires
        drafted(c, mask, pre, post, r),
    ensures
        blocks_of(post) == blocks_of(pre),
{
    let needed = blocks_for(start_rows(c, pre));
    if table_grew(c, pre, post, true) {
        growing_conserves_blocks(pre.free, pre.table, needed, post.free, post.table, true);
    } else if table_grew(c, pre, post, false) {
        growing_conserves_blocks(pre.free, pre.table, needed, post.free, post.table, false);
    }
}

proof fn lemma_chain_conserves(
    calls: Seq<DraftCall>,
    mask: Option<Seq<i32>>,
    snaps: Seq<MtpSnapshot>,
    toks: Seq<u32>,
    k: int,
)
    requires
        chain(calls, mask, snaps, toks),
        0 <= k <= toks.len(),
    ensures
        blocks_of(snaps[k]) == blocks_of(snaps[0]),
    decreases k,
{
    if k > 0 {
        lemma_chain_conserves(calls, mask, snaps, toks, k - 1);
        assert(drafted(calls[k - 1], mask, snaps[k - 1], snaps[k - 1 + 1], Ok(toks[k - 1])));
        drafting_conserves_blocks(calls[k - 1], mask, snaps[k - 1], snaps[k - 1 + 1], Ok(toks[k - 1]));
    }
}

/// The same of a whole proposal.
pub proof fn proposing_conserves_blocks(
    parts: MtpParts,
    ctx: ForwardContext,
    flags: MtpFlags,
    last_token: u32,
    target_hidden: DevicePtr,
    position: usize,
    stream: u64,
    n: nat,
    mask: Option<Seq<i32>>,
    pre: MtpSnapshot,
    post: MtpSnapshot,
    r: Result<Vec<u32>, MtpError>,
)
    requires
        draft_rows_outcome(
            parts,
            ctx,
            flags,
            last_token,
            target_hidden,
            position,
            stream,
            n,
            mask,
            pre,
            post,
            r,
        ),
    ensures
        blocks_of(post) == blocks_of(pre),
{
    match r {
        Ok(drafts) => {
            let calls = propose_calls(parts, ctx, flags, last_token, target_hidden, position, stream, drafts@, n);
            let snaps = choose|snaps: Seq<MtpSnapshot>|
                #[trigger] chain(calls, mask, snaps, drafts@) && snaps[0] == pre && snaps.last() == post;
            lemma_chain_conserves(calls, mask, snaps, drafts@, n as int);
        },
        Err(e) => {
            let drafts = choose|drafts: Seq<u32>| #[trigger]
                chain_failed(
                    propose_calls(parts, ctx, flags, last_token, target_hidden, position, stream, drafts, n),
                    mask,
                    pre,
                    post,
                    drafts,
                    e,
                );
            let calls = propose_calls(parts, ctx, flags, last_token, target_hidden, position, stream, drafts, n);
            let mid = choose|mid: MtpSnapshot| #[trigger]
                ran_chain(calls, mask, pre, mid, drafts) && drafted(
                    calls[drafts.len() as int],
                    mask,
                    mid,
                    post,
                    Err(e),
                );
            let snaps = choose|snaps: Seq<MtpSnapshot>|
                #[trigger] chain(calls, mask, snaps, drafts) && snaps[0] == pre && snaps.last() == mid;
            lemma_chain_conserves(calls, mask, snaps, drafts, drafts.len() as int);
            drafting_conserves_blocks(calls[drafts.len() as int], mask, mid, post, Err(e));
        },
    }
}

} // verus!
