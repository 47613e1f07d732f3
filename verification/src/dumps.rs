//! What the diagnostic dumps look at: which layers and tokens, and where their
//! rows lie.

use vstd::arithmetic::div_mod::{lemma_add_mod_noop, lemma_mod_bound, lemma_small_mod};
use vstd::prelude::*;

use crate::bits::{single, u32_from};
use crate::gpu::{at, DevicePtr};
use crate::text::{is_setting, setting_is};

verus! {

/// Per-layer norms are logged where the switch is `1` or `true`.
pub fn gemma4_diag_enabled(setting: Option<&str>) -> (r: bool)
    ensures
        r == (is_setting(setting, "1"@) || is_setting(setting, "true"@)),
{
    setting_is(setting, "1") || setting_is(setting, "true")
}

/// Stages are timed where the switch is `1` or `true`.
pub fn profile_enabled(setting: Option<&str>) -> (r: bool)
    ensures
        r == (is_setting(setting, "1"@) || is_setting(setting, "true"@)),
{
    setting_is(setting, "1") || setting_is(setting, "true")
}

/// A cache line is dumped at position `target`: at the first, the middle and the
/// last layer, where there are rows.
pub fn cache_dump_due(target: i64, layer_idx: usize, n_tokens: usize) -> (r: bool)
    ensures
        r == (target >= 0 && (layer_idx == 0 || layer_idx == 21 || layer_idx == 42) && n_tokens > 0),
{
    target >= 0 && (layer_idx == 0 || layer_idx == 21 || layer_idx == 42) && n_tokens > 0
}

/// The written keys are kept for a reference run: at the first layer, where
/// there are rows.
pub fn key_history_due(enabled: bool, layer_idx: usize, n_tokens: usize) -> (r: bool)
    ensures
        r == (enabled && layer_idx == 0 && n_tokens > 0),
{
    enabled && layer_idx == 0 && n_tokens > 0
}

/// The queries of a prefill are dumped at position `target`: at the first layer,
/// where there are rows.
pub fn prefill_q_dump_due(target: i64, layer_idx: usize, n_tokens: usize) -> (r: bool)
    ensures
        r == (target >= 0 && layer_idx == 0 && n_tokens > 0),
{
    target >= 0 && layer_idx == 0 && n_tokens > 0
}

/// The layer input is dumped at position `target`: at the first and the middle
/// layer, where there are rows.
pub fn mhc_dump_due(target: i64, layer_idx: usize, n_tokens: usize) -> (r: bool)
    ensures
        r == (target >= 0 && (layer_idx == 0 || layer_idx == 21) && n_tokens > 0),
{
    target >= 0 && (layer_idx == 0 || layer_idx == 21) && n_tokens > 0
}

/// Everything that a reference run needs is dumped at position `target`, at the
/// first layer, once the step is at that position.
pub fn hostref_dump_due(target: i64, layer_idx: usize, position: u32) -> (r: bool)
    ensures
        r == (target >= 0 && layer_idx == 0 && position == target),
{
    target >= 0 && layer_idx == 0 && position as i64 == target
}

/// The row of position `target` in a pass that starts at `base_pos`, at the first
/// layer; none where the pass does not reach it.
pub fn hidden_row(target: i64, layer_idx: usize, base_pos: usize, n_tokens: usize) -> (r: Option<usize>)
    ensures
        match r {
            Some(i) => layer_idx == 0 && i < n_tokens && base_pos + i == target,
            None => layer_idx != 0 || !(base_pos <= target < base_pos + n_tokens),
        },
{
    if target < 0 || layer_idx != 0 {
        return None;
    }
    let t: u64 = target as u64;
    if t < base_pos as u64 {
        return None;
    }
    let i: u64 = t - base_pos as u64;
    if i >= n_tokens as u64 {
        return None;
    }
    Some(i as usize)
}

/// The first row whose position is `target`, in a buffer of positions.
pub fn row_of_position(positions: &[u8], n_tokens: usize, target: i64) -> (r: Option<usize>)
    requires
        4 * n_tokens <= positions@.len(),
    ensures
        match r {
            Some(i) => i < n_tokens && single(positions@, i as int) == target && forall|j: int|
                0 <= j < i ==> #[trigger] single(positions@, j) != target,
            None => forall|j: int| 0 <= j < n_tokens ==> #[trigger] single(positions@, j) != target,
        },
{
    let total: usize = positions.len();
    let mut i: usize = 0;
    while i < n_tokens
        invariant
            i <= n_tokens,
            4 * n_tokens <= total == positions@.len(),
            forall|j: int| 0 <= j < i ==> #[trigger] single(positions@, j) != target,
        decreases n_tokens - i,
    {
        if u32_from(positions, 4 * i) as i64 == target {
            return Some(i);
        }
        i += 1;
    }
    None
}

/// Where position `pos` lies in a paged cache: its entry of the block table, and
/// its row in the block.
pub fn paged_place(pos: usize, block_size: u32) -> (r: (usize, usize))
    requires
        block_size > 0,
    ensures
        r.0 * block_size + r.1 == pos,
        r.1 < block_size,
{
    let bs: usize = block_size as usize;
    proof {
        vstd::arithmetic::div_mod::lemma_fundamental_div_mod(pos as int, bs as int);
        assert(bs * (pos / bs) == (pos / bs) * bs) by (nonlinear_arith);
    }
    (pos / bs, pos % bs)
}

/// The line of a row in a pool: `phys` blocks of `stride` bytes in, then `within`
/// lines of `line` bytes.
pub fn pool_line(pool: DevicePtr, phys: i32, stride: u64, within: usize, line: usize) -> (r: DevicePtr)
    ensures
        r == at(pool, phys * stride + within * line),
{
    let back: bool = phys < 0;
    let blocks: u64 = if back { (-(phys as i64)) as u64 } else { phys as u64 };
    let skip: u64 = blocks.wrapping_mul(stride);
    let rows: u64 = (within as u64).wrapping_mul(line as u64);
    let past: u64 = if back { pool.0.wrapping_sub(skip) } else { pool.0.wrapping_add(skip) };
    let end: u64 = past.wrapping_add(rows);
    proof {
        let m: int = 0x1_0000_0000_0000_0000;
        let a = phys * stride;
        let b = within * line;
        let p = pool.0 as int;
        assert(blocks * stride == (if back { -a } else { a })) by (nonlinear_arith)
            requires
                blocks == (if back { -(phys as int) } else { phys as int }),
                a == phys * stride,
        ;
        assert(skip == (blocks * stride) % m);
        assert(rows == b % m);
        if back {
            assert(past == (p - skip) % m) by {
                lemma_wrap_sub(p, skip as int);
            }
            lemma_sub_mod(p, -a, m);
            assert(past == (p + a) % m);
        } else {
            assert(past == (p + skip) % m) by {
                lemma_wrap_add(p, skip as int);
            }
            lemma_add_mod_noop(p, a, m);
            lemma_small_mod(pool.0 as nat, m as nat);
            assert(past == (p + a) % m);
        }
        assert(end == (past + rows) % m) by {
            lemma_wrap_add(past as int, rows as int);
        }
        lemma_add_mod_noop(p + a, b, m);
        assert(end == (p + a + b) % m);
        lemma_mod_bound(p + a + b, m);
    }
    DevicePtr(end)
}

proof fn lemma_wrap_add(x: int, y: int)
    requires
        0 <= x < 0x1_0000_0000_0000_0000,
        0 <= y < 0x1_0000_0000_0000_0000,
    ensures
        (x + y) % 0x1_0000_0000_0000_0000 == (if x + y >= 0x1_0000_0000_0000_0000 {
            x + y - 0x1_0000_0000_0000_0000
        } else {
            x + y
        }),
{
}

proof fn lemma_wrap_sub(x: int, y: int)
    requires
        0 <= x < 0x1_0000_0000_0000_0000,
        0 <= y < 0x1_0000_0000_0000_0000,
    ensures
        (x - y) % 0x1_0000_0000_0000_0000 == (if x - y < 0 {
            x - y + 0x1_0000_0000_0000_0000
        } else {
            x - y
        }),
{
}

/// Subtracting a remainder is subtracting, as far as the remainder goes.
proof fn lemma_sub_mod(x: int, y: int, m: int)
    requires
        m == 0x1_0000_0000_0000_0000,
    ensures
        (x - y % m) % m == (x - y) % m,
{
    vstd::arithmetic::div_mod::lemma_fundamental_div_mod(y, m);
    lemma_mod_add_multiples_vanish_by(x - y, y / m, m);
}

proof fn lemma_mod_add_multiples_vanish_by(x: int, k: int, m: int)
    requires
        m == 0x1_0000_0000_0000_0000,
    ensures
        (x + m * k) % m == x % m,
{
    vstd::arithmetic::div_mod::lemma_mod_multiples_vanish(k, x, m);
}

} // verus!
