//! Adapting the sampling of a sequence to what it is generating.
//!
//! The state watches three things: the zone of the output, how long the entropy
//! of the next token has been low, and how repetitive the recent output is. From
//! these come the parts of the temperature and the threshold above which the
//! likeliest token is taken outright.
//!
//! Single-precision numbers are carried as their bits and compared by them.

use std::collections::{HashSet, VecDeque};

use vstd::prelude::*;

use crate::bits::{f32_rank, le32_all, push_le32_all, rank_of_f32};
use crate::gpu::F32Bits;

verus! {

broadcast use vstd::std_specs::hash::group_hash_axioms;

/// What the model is generating.
#[derive(Clone, Copy, PartialEq, Eq, Structural, Debug)]
pub enum GenerationZone {
    /// Free text.
    FreeText,
    /// Reasoning inside a thinking block.
    Thinking,
    /// The JSON of a tool call.
    ToolCall,
    /// Text that a grammar constrains.
    StructuredOutput,
}

/// What is kept per sequence.
pub struct AdaptiveSamplingState {
    pub zone: GenerationZone,
    /// The entropies of the last tokens, oldest first.
    pub entropy_window: VecDeque<F32Bits>,
    /// Tokens in a row whose entropy was low.
    pub consecutive_low_entropy: u32,
    /// Distinct windows of the recent output per window.
    pub lz_ratio: F32Bits,
    /// The length of the output when that was last worked out.
    pub lz_last_check: usize,
    /// The temperature that the request asked for.
    pub base_temperature: F32Bits,
}

/// Entropies that are kept.
pub const ENTROPY_WINDOW: usize = 32;

/// Tokens of recent output that are searched for repetition.
pub const LZ_WINDOW: usize = 128;

// ── comparing ──
/// `a < b`, as numbers.
pub open spec fn less_than(a: F32Bits, b: u32) -> bool {
    f32_rank(a.0) matches Some(x) && f32_rank(b) matches Some(y) && x < y
}

/// `a >= b`, as numbers.
pub open spec fn at_least(a: F32Bits, b: u32) -> bool {
    f32_rank(a.0) matches Some(x) && f32_rank(b) matches Some(y) && x >= y
}

/// One of the two zeros.
pub open spec fn is_zero(a: F32Bits) -> bool {
    f32_rank(a.0) == Some(0int)
}

fn less(a: F32Bits, b: u32) -> (r: bool)
    ensures
        r == less_than(a, b),
{
    match (rank_of_f32(a.0), rank_of_f32(b)) {
        (Some(x), Some(y)) => x < y,
        _ => false,
    }
}

fn not_less(a: F32Bits, b: u32) -> (r: bool)
    ensures
        r == at_least(a, b),
{
    match (rank_of_f32(a.0), rank_of_f32(b)) {
        (Some(x), Some(y)) => x >= y,
        _ => false,
    }
}

fn zero(a: F32Bits) -> (r: bool)
    ensures
        r == is_zero(a),
{
    match rank_of_f32(a.0) {
        Some(x) => x == 0,
        None => false,
    }
}

// ── temperature ──
/// The temperature before boost and multiplier.
#[derive(Clone, Copy, PartialEq, Eq, Structural, Debug)]
pub enum ZoneTemperature {
    /// This temperature.
    Plain(F32Bits),
    /// The base temperature times this factor.
    Scaled(F32Bits),
}

/// The parts of a temperature: `(zone + boost) * multiplier`.
#[derive(Clone, Copy, PartialEq, Eq, Structural, Debug)]
pub struct TemperatureParts {
    pub zone: ZoneTemperature,
    pub boost: F32Bits,
    pub multiplier: F32Bits,
}

/// The bits of 0.3, the highest temperature inside a tool call.
pub const TOOL_CALL_CAP: u32 = 0x3e99_999a;

/// The bits of 0.6, the factor on constrained text.
pub const STRUCTURED_SCALE: u32 = 0x3f19_999a;

/// The smaller of the base temperature and the cap; the cap where the base is
/// not a number.
pub open spec fn capped(base: F32Bits) -> F32Bits {
    if at_least(base, TOOL_CALL_CAP) || f32_rank(base.0) is None {
        F32Bits(TOOL_CALL_CAP)
    } else {
        base
    }
}

pub open spec fn zone_temperature(zone: GenerationZone, base: F32Bits) -> ZoneTemperature {
    match zone {
        GenerationZone::ToolCall => ZoneTemperature::Plain(capped(base)),
        GenerationZone::StructuredOutput => ZoneTemperature::Scaled(F32Bits(STRUCTURED_SCALE)),
        GenerationZone::Thinking => ZoneTemperature::Plain(base),
        GenerationZone::FreeText => ZoneTemperature::Plain(base),
    }
}

/// The boost after `low` tokens of low entropy in a row: none up to 7, then 0.1,
/// from 16 on 0.2, and from 32 on 0.3. A tool call gets none.
pub open spec fn boost_for(zone: GenerationZone, low: u32) -> F32Bits {
    if zone == GenerationZone::ToolCall || low <= 7 {
        F32Bits(0)
    } else if low <= 15 {
        F32Bits(0x3dcc_cccd)
    } else if low <= 31 {
        F32Bits(0x3e4c_cccd)
    } else {
        F32Bits(0x3e99_999a)
    }
}

/// The multiplier for repetitive output: 1.8 below a ratio of 0.15, 1.4 below
/// 0.25, 1.2 below 0.35, else 1. A tool call gets 1.
pub open spec fn multiplier_for(zone: GenerationZone, ratio: F32Bits) -> F32Bits {
    if zone == GenerationZone::ToolCall {
        F32Bits(0x3f80_0000)
    } else if less_than(ratio, 0x3e19_999a) {
        F32Bits(0x3fe6_6666)
    } else if less_than(ratio, 0x3e80_0000) {
        F32Bits(0x3fb3_3333)
    } else if less_than(ratio, 0x3eb3_3333) {
        F32Bits(0x3f99_999a)
    } else {
        F32Bits(0x3f80_0000)
    }
}

/// The probability from which on the likeliest token is taken: 0.8 in a tool
/// call, 0.95 in thinking, 0.85 under a grammar, 0.9 in free text.
pub open spec fn greedy_threshold(zone: GenerationZone) -> u32 {
    match zone {
        GenerationZone::ToolCall => 0x3f4c_cccd,
        GenerationZone::Thinking => 0x3f73_3333,
        GenerationZone::StructuredOutput => 0x3f59_999a,
        GenerationZone::FreeText => 0x3f66_6666,
    }
}

/// The zone that a sequence's flags come to; a tool call before thinking before
/// a grammar.
pub open spec fn zone_of(tool_call_opened: bool, inside_thinking: bool, grammar_active: bool) -> GenerationZone {
    if tool_call_opened {
        GenerationZone::ToolCall
    } else if inside_thinking {
        GenerationZone::Thinking
    } else if grammar_active {
        GenerationZone::StructuredOutput
    } else {
        GenerationZone::FreeText
    }
}

/// The window after one more entropy.
pub open spec fn window_with(window: Seq<F32Bits>, entropy: F32Bits) -> Seq<F32Bits> {
    if window.len() >= ENTROPY_WINDOW {
        window.skip(1).push(entropy)
    } else {
        window.push(entropy)
    }
}

// ── repetition ──
/// `w` stands at byte `j`.
pub open spec fn window_at(bytes: Seq<u8>, w: Seq<u8>, j: int) -> bool {
    0 <= j && j + w.len() <= bytes.len() && bytes.subrange(j, j + w.len()) == w
}

/// The windows of three to six bytes.
pub open spec fn byte_windows(bytes: Seq<u8>) -> Set<Seq<u8>> {
    windows_upto(bytes, 7, 0)
}

/// The windows shorter than `n` bytes, and those of `n` bytes before byte `i`.
pub open spec fn windows_upto(bytes: Seq<u8>, n: int, i: int) -> Set<Seq<u8>> {
    Set::new(
        |w: Seq<u8>|
            3 <= w.len() <= 6 && exists|j: int|
                #[trigger] window_at(bytes, w, j) && (w.len() < n || (w.len() == n && j < i)),
    )
}

/// How many windows there are, repeated ones counted every time.
pub open spec fn window_count(len: int) -> int {
    (len - 2) + (len - 3) + (len - 4) + (len - 5)
}

/// A number for a window, a different one for each.
pub open spec fn window_code(w: Seq<u8>) -> int
    decreases w.len(),
{
    if w.len() == 0 {
        0
    } else {
        window_code(w.drop_last()) * 257 + w.last() + 1
    }
}

spec fn code_bound(n: nat) -> nat
    decreases n,
{
    if n == 0 {
        0
    } else {
        code_bound((n - 1) as nat) * 257 + 256
    }
}

proof fn lemma_code_bound(w: Seq<u8>)
    ensures
        0 <= window_code(w) <= code_bound(w.len()),
    decreases w.len(),
{
    if w.len() > 0 {
        lemma_code_bound(w.drop_last());
    }
}

proof fn lemma_small_codes(w: Seq<u8>)
    requires
        w.len() <= 6,
    ensures
        0 <= window_code(w) <= 0x2_0000_0000_0000,
{
    lemma_code_bound(w);
    reveal_with_fuel(code_bound, 7);
}

proof fn lemma_codes_differ(a: Seq<u8>, b: Seq<u8>)
    requires
        window_code(a) == window_code(b),
    ensures
        a == b,
    decreases a.len() + b.len(),
{
    lemma_code_bound(a);
    lemma_code_bound(b);
    if a.len() == 0 || b.len() == 0 {
        if a.len() > 0 {
            lemma_code_bound(a.drop_last());
        }
        if b.len() > 0 {
            lemma_code_bound(b.drop_last());
        }
        assert(a =~= b);
    } else {
        lemma_code_bound(a.drop_last());
        lemma_code_bound(b.drop_last());
        let x = window_code(a.drop_last());
        let y = window_code(b.drop_last());
        assert(x == y && a.last() == b.last());
        lemma_codes_differ(a.drop_last(), b.drop_last());
        assert(a =~= a.drop_last().push(a.last()));
        assert(b =~= b.drop_last().push(b.last()));
    }
}

spec fn code_of() -> spec_fn(Seq<u8>) -> u64 {
    |w: Seq<u8>| window_code(w) as u64
}

proof fn lemma_next_window(bytes: Seq<u8>, n: int, i: int)
    requires
        3 <= n <= 6,
        0 <= i,
        i + n <= bytes.len(),
    ensures
        windows_upto(bytes, n, i + 1) == windows_upto(bytes, n, i).insert(bytes.subrange(i, i + n)),
{
    let w0 = bytes.subrange(i, i + n);
    assert(window_at(bytes, w0, i));
    assert forall|w: Seq<u8>| #[trigger]
        windows_upto(bytes, n, i + 1).contains(w) implies windows_upto(bytes, n, i).insert(w0).contains(w) by {
        let j = choose|j: int|
            #[trigger] window_at(bytes, w, j) && (w.len() < n || (w.len() == n && j < i + 1));
        if w.len() == n && j == i {
            assert(w == w0);
        }
    }
    assert(windows_upto(bytes, n, i + 1) =~= windows_upto(bytes, n, i).insert(w0));
}

proof fn lemma_next_size(bytes: Seq<u8>, n: int, i: int)
    requires
        3 <= n <= 6,
        i == bytes.len() - n + 1,
    ensures
        windows_upto(bytes, n, i) == windows_upto(bytes, n + 1, 0),
{
    assert forall|w: Seq<u8>| #[trigger]
        windows_upto(bytes, n + 1, 0).contains(w) implies windows_upto(bytes, n, i).contains(w) by {
        let j = choose|j: int|
            #[trigger] window_at(bytes, w, j) && (w.len() < n + 1 || (w.len() == n + 1 && j < 0));
        assert(w.len() <= n);
    }
    assert forall|w: Seq<u8>| #[trigger]
        windows_upto(bytes, n, i).contains(w) implies windows_upto(bytes, n + 1, 0).contains(w) by {
        let j = choose|j: int| #[trigger] window_at(bytes, w, j) && (w.len() < n || (w.len() == n && j < i));
    }
    assert(windows_upto(bytes, n, i) =~= windows_upto(bytes, n + 1, 0));
}

fn code_at(bytes: &Vec<u8>, i: usize, n: usize) -> (r: u64)
    requires
        n <= 6,
        i + n <= bytes@.len(),
    ensures
        r == window_code(bytes@.subrange(i as int, i + n)),
        r == code_of()(bytes@.subrange(i as int, i + n)),
{
    let total: usize = bytes.len();
    let mut c: u64 = 0;
    let mut k: usize = 0;
    while k < n
        invariant
            k <= n <= 6,
            i + n <= total == bytes@.len(),
            c == window_code(bytes@.subrange(i as int, i + k)),
        decreases n - k,
    {
        let ghost now = bytes@.subrange(i as int, i + k + 1);
        proof {
            lemma_small_codes(now);
            assert(now.drop_last() =~= bytes@.subrange(i as int, i + k));
        }
        c = c * 257 + bytes[i + k] as u64 + 1;
        k += 1;
    }
    c
}

/// Counts the windows of three to six bytes: distinct ones, and all of them.
fn count_windows(bytes: &Vec<u8>) -> (r: (usize, usize))
    requires
        6 <= bytes@.len() <= 4 * LZ_WINDOW,
    ensures
        byte_windows(bytes@).finite(),
        r.0 == byte_windows(bytes@).len(),
        r.1 == window_count(bytes@.len() as int),
{
    let len: usize = bytes.len();
    let mut seen: HashSet<u64> = HashSet::new();
    let ghost mut set: Set<Seq<u8>> = Set::empty();
    let mut total: usize = 0;
    let mut n: usize = 3;
    proof {
        assert(windows_upto(bytes@, 3, 0) =~= Set::<Seq<u8>>::empty());
        assert(set.map(code_of()) =~= Set::<u64>::empty());
    }
    while n <= 6
        invariant
            3 <= n <= 7,
            6 <= len <= 4 * LZ_WINDOW,
            len == bytes@.len(),
            total == (if n > 3 { len - 2 } else { 0 }) + (if n > 4 { len - 3 } else { 0 }) + (if n > 5 {
                len - 4
            } else {
                0
            }) + (if n > 6 { len - 5 } else { 0 }),
            set == windows_upto(bytes@, n as int, 0),
            set.finite(),
            seen@ == set.map(code_of()),
        decreases 7 - n,
    {
        let ghost base = total;
        let mut i: usize = 0;
        while i + n <= len
            invariant
                3 <= n <= 6,
                6 <= len <= 4 * LZ_WINDOW,
                len == bytes@.len(),
                i <= len - n + 1,
                total == base + i,
                base <= 3 * len,
                set == windows_upto(bytes@, n as int, i as int),
                set.finite(),
                seen@ == set.map(code_of()),
            decreases len - i,
        {
            let ghost w = bytes@.subrange(i as int, i + n);
            let ghost before = set;
            let _ = seen.insert(code_at(bytes, i, n));
            proof {
                lemma_next_window(bytes@, n as int, i as int);
                set = before.insert(w);
                assert(set.map(code_of()) =~= before.map(code_of()).insert(code_of()(w))) by {
                    assert forall|c: u64| set.map(code_of()).contains(c) <==> #[trigger]
                        before.map(code_of()).insert(code_of()(w)).contains(c) by {
                        if before.map(code_of()).contains(c) {
                            let x = choose|x: Seq<u8>| before.contains(x) && code_of()(x) == c;
                            assert(set.contains(x));
                        }
                        assert(set.contains(w));
                    }
                }
            }
            total += 1;
            i += 1;
        }
        proof {
            lemma_next_size(bytes@, n as int, i as int);
        }
        n += 1;
    }
    proof {
        assert(vstd::relations::injective_on(code_of(), set)) by {
            assert forall|a: Seq<u8>, b: Seq<u8>|
                set.contains(a) && set.contains(b) && #[trigger] code_of()(a) == #[trigger] code_of()(b) implies a
                == b by {
                lemma_small_codes(a);
                lemma_small_codes(b);
                lemma_codes_differ(a, b);
            }
        }
        vstd::set_lib::lemma_map_size(set, seen@, code_of());
    }
    (seen.len(), total)
}

/// The recent output that is searched.
pub open spec fn recent(tokens: Seq<u32>) -> Seq<u32> {
    if tokens.len() > LZ_WINDOW {
        tokens.skip(tokens.len() - LZ_WINDOW)
    } else {
        tokens
    }
}

/// The repetition of an output is worked out again: it is long enough, and has
/// grown by enough since the last time.
pub open spec fn is_due(len: int, last_check: int) -> bool {
    len >= 32 && len - last_check >= 16
}

impl AdaptiveSamplingState {
    pub fn new(base_temperature: F32Bits) -> (r: AdaptiveSamplingState)
        ensures
            r.zone == GenerationZone::FreeText,
            r.entropy_window@.len() == 0,
            r.consecutive_low_entropy == 0,
            r.lz_ratio == F32Bits(0x3f80_0000),
            r.lz_last_check == 0,
            r.base_temperature == base_temperature,
    {
        AdaptiveSamplingState {
            zone: GenerationZone::FreeText,
            entropy_window: VecDeque::new(),
            consecutive_low_entropy: 0,
            lz_ratio: F32Bits(0x3f80_0000),
            lz_last_check: 0,
            base_temperature,
        }
    }

    /// Takes the zone from the flags of the sequence.
    pub fn update_zone(&mut self, tool_call_opened: bool, inside_thinking: bool, grammar_active: bool)
        ensures
            *final(self) == (AdaptiveSamplingState {
                zone: zone_of(tool_call_opened, inside_thinking, grammar_active),
                ..*old(self)
            }),
    {
        self.zone = if tool_call_opened {
            GenerationZone::ToolCall
        } else if inside_thinking {
            GenerationZone::Thinking
        } else if grammar_active {
            GenerationZone::StructuredOutput
        } else {
            GenerationZone::FreeText
        };
    }

    /// The boost for low entropy.
    pub fn entropy_diversity_boost(&self) -> (r: F32Bits)
        ensures
            r == boost_for(self.zone, self.consecutive_low_entropy),
    {
        if self.zone == GenerationZone::ToolCall {
            return F32Bits(0);
        }
        match self.consecutive_low_entropy {
            0..=7 => F32Bits(0),
            8..=15 => F32Bits(0x3dcc_cccd),
            16..=31 => F32Bits(0x3e4c_cccd),
            _ => F32Bits(0x3e99_999a),
        }
    }

    /// The multiplier for repetition.
    pub fn lz_temperature_multiplier(&self) -> (r: F32Bits)
        ensures
            r == multiplier_for(self.zone, self.lz_ratio),
    {
        if self.zone == GenerationZone::ToolCall {
            return F32Bits(0x3f80_0000);
        }
        if less(self.lz_ratio, 0x3e19_999a) {
            F32Bits(0x3fe6_6666)
        } else if less(self.lz_ratio, 0x3e80_0000) {
            F32Bits(0x3fb3_3333)
        } else if less(self.lz_ratio, 0x3eb3_3333) {
            F32Bits(0x3f99_999a)
        } else {
            F32Bits(0x3f80_0000)
        }
    }

    /// The parts of the temperature for the next token; none where the request
    /// asked for temperature zero, which stands.
    pub fn effective_temperature(&self) -> (r: Option<TemperatureParts>)
        ensures
            match r {
                None => is_zero(self.base_temperature),
                Some(p) => !is_zero(self.base_temperature) && p == (TemperatureParts {
                    zone: zone_temperature(self.zone, self.base_temperature),
                    boost: boost_for(self.zone, self.consecutive_low_entropy),
                    multiplier: multiplier_for(self.zone, self.lz_ratio),
                }),
            },
    {
        let base = self.base_temperature;
        if zero(base) {
            return None;
        }
        let zone = match self.zone {
            GenerationZone::ToolCall => {
                let over = not_less(base, TOOL_CALL_CAP) || rank_of_f32(base.0).is_none();
                ZoneTemperature::Plain(if over { F32Bits(TOOL_CALL_CAP) } else { base })
            },
            GenerationZone::StructuredOutput => ZoneTemperature::Scaled(F32Bits(STRUCTURED_SCALE)),
            GenerationZone::Thinking => ZoneTemperature::Plain(base),
            GenerationZone::FreeText => ZoneTemperature::Plain(base),
        };
        Some(
            TemperatureParts {
                zone,
                boost: self.entropy_diversity_boost(),
                multiplier: self.lz_temperature_multiplier(),
            },
        )
    }

    /// Whether the likeliest token is taken outright. `top_prob` is its
    /// probability; there is none where no logit is finite.
    pub fn should_use_greedy(&self, top_prob: Option<F32Bits>) -> (r: bool)
        ensures
            r == (is_zero(self.base_temperature) || (top_prob matches Some(p) && at_least(
                p,
                greedy_threshold(self.zone),
            ))),
    {
        if zero(self.base_temperature) {
            return true;
        }
        let threshold: u32 = match self.zone {
            GenerationZone::ToolCall => 0x3f4c_cccd,
            GenerationZone::Thinking => 0x3f73_3333,
            GenerationZone::StructuredOutput => 0x3f59_999a,
            GenerationZone::FreeText => 0x3f66_6666,
        };
        match top_prob {
            Some(p) => not_less(p, threshold),
            None => false,
        }
    }

    /// Takes note of the entropy of a token; there is none where no logit is
    /// finite. An entropy below 0.5 is low.
    pub fn observe_entropy(&mut self, entropy: Option<F32Bits>)
        requires
            old(self).consecutive_low_entropy < u32::MAX,
        ensures
            final(self).zone == old(self).zone,
            final(self).lz_ratio == old(self).lz_ratio,
            final(self).lz_last_check == old(self).lz_last_check,
            final(self).base_temperature == old(self).base_temperature,
            match entropy {
                None => final(self).entropy_window@ == old(self).entropy_window@
                    && final(self).consecutive_low_entropy == old(self).consecutive_low_entropy,
                Some(e) => {
                    &&& final(self).entropy_window@ == window_with(old(self).entropy_window@, e)
                    &&& final(self).consecutive_low_entropy == (if less_than(e, 0x3f00_0000) {
                        (old(self).consecutive_low_entropy + 1) as u32
                    } else {
                        0
                    })
                },
            },
    {
        if let Some(e) = entropy {
            if self.entropy_window.len() >= ENTROPY_WINDOW {
                let _ = self.entropy_window.pop_front();
                assert(self.entropy_window@ =~= old(self).entropy_window@.skip(1));
            }
            self.entropy_window.push_back(e);
            if less(e, 0x3f00_0000) {
                self.consecutive_low_entropy = self.consecutive_low_entropy + 1;
            } else {
                self.consecutive_low_entropy = 0;
            }
        }
    }

    /// Works out how repetitive the recent output is, where that is due. Answers
    /// with the distinct windows of three to six bytes, and with all of them.
    pub fn update_lz_ratio(&mut self, output_tokens: &[u32]) -> (r: Option<(usize, usize)>)
        requires
            output_tokens@.len() >= 32 ==> output_tokens@.len() >= old(self).lz_last_check,
        ensures
            match r {
                None => *final(self) == *old(self) && !is_due(
                    output_tokens@.len() as int,
                    old(self).lz_last_check as int,
                ),
                Some(counts) => {
                    &&& is_due(output_tokens@.len() as int, old(self).lz_last_check as int)
                    &&& *final(self) == (AdaptiveSamplingState {
                        lz_last_check: output_tokens@.len() as usize,
                        ..*old(self)
                    })
                    &&& counts.0 == byte_windows(le32_all(recent(output_tokens@))).len()
                    &&& counts.1 == window_count(4 * recent(output_tokens@).len() as int)
                    &&& counts.1 > 0
                },
            },
    {
        let len: usize = output_tokens.len();
        if len < 32 || len - self.lz_last_check < 16 {
            return None;
        }
        self.lz_last_check = len;
        let from: usize = len.saturating_sub(LZ_WINDOW);
        let window = vstd::slice::slice_subrange(output_tokens, from, len);
        assert(window@ =~= recent(output_tokens@));
        let mut bytes: Vec<u8> = Vec::new();
        push_le32_all(&mut bytes, window);
        assert(bytes@ =~= le32_all(recent(output_tokens@)));
        let counts = count_windows(&bytes);
        Some(counts)
    }

    /// Takes the ratio of the two counts.
    pub fn set_lz_ratio(&mut self, ratio: F32Bits)
        ensures
            *final(self) == (AdaptiveSamplingState { lz_ratio: ratio, ..*old(self) }),
    {
        self.lz_ratio = ratio;
    }
}

// ── laws ──
/// The window never holds more entropies than it is meant to.
pub proof fn entropy_window_is_bounded(window: Seq<F32Bits>, entropy: F32Bits)
    requires
        window.len() <= ENTROPY_WINDOW,
    ensures
        window_with(window, entropy).len() <= ENTROPY_WINDOW,
        window_with(window, entropy).last() == entropy,
{
}

/// A tool call is left alone: no boost, no multiplier, and a temperature of at
/// most 0.3.
pub proof fn tool_calls_stay_cool(low: u32, ratio: F32Bits, base: F32Bits)
    ensures
        boost_for(GenerationZone::ToolCall, low) == F32Bits(0),
        multiplier_for(GenerationZone::ToolCall, ratio) == F32Bits(0x3f80_0000),
        zone_temperature(GenerationZone::ToolCall, base) matches ZoneTemperature::Plain(t) && !less_than(
            F32Bits(TOOL_CALL_CAP),
            t.0,
        ),
{
}

} // verus!
