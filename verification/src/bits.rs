//! Host-side encodings: little-endian words, and the order and range tests on
//! BF16 and single-precision bit patterns.

use vstd::prelude::*;

verus! {

/// The four bytes of `x`, least significant first.
pub open spec fn le32(x: u32) -> Seq<u8> {
    seq![
        (x % 256) as u8,
        (x / 256 % 256) as u8,
        (x / 65536 % 256) as u8,
        (x / 16777216 % 256) as u8,
    ]
}

/// The eight bytes of `x`, least significant first.
pub open spec fn le64(x: u64) -> Seq<u8> {
    le32((x % 0x1_0000_0000) as u32) + le32((x / 0x1_0000_0000) as u32)
}

/// The words of `xs`, one after the other.
pub open spec fn le32_all(xs: Seq<u32>) -> Seq<u8> {
    Seq::new(4 * xs.len(), |i: int| le32(xs[i / 4])[i % 4])
}

/// The double words of `xs`, one after the other.
pub open spec fn le64_all(xs: Seq<u64>) -> Seq<u8> {
    Seq::new(8 * xs.len(), |i: int| le64(xs[i / 8])[i % 8])
}

pub open spec fn zeros(n: nat) -> Seq<u8> {
    Seq::new(n, |i: int| 0u8)
}

/// The half word at byte `i`.
pub open spec fn u16_at(s: Seq<u8>, i: int) -> u16 {
    (s[i] + 256 * s[i + 1]) as u16
}

/// The word at byte `i`.
pub open spec fn u32_at(s: Seq<u8>, i: int) -> u32 {
    (s[i] + 256 * s[i + 1] + 65536 * s[i + 2] + 16777216 * s[i + 3]) as u32
}

pub fn push_le32(out: &mut Vec<u8>, x: u32)
    ensures
        final(out)@ == old(out)@ + le32(x),
{
    out.push((x % 256) as u8);
    out.push((x / 256 % 256) as u8);
    out.push((x / 65536 % 256) as u8);
    out.push((x / 16777216 % 256) as u8);
    assert(out@ =~= old(out)@ + le32(x));
}

pub fn push_le64(out: &mut Vec<u8>, x: u64)
    ensures
        final(out)@ == old(out)@ + le64(x),
{
    push_le32(out, (x % 0x1_0000_0000) as u32);
    push_le32(out, (x / 0x1_0000_0000) as u32);
    assert(out@ =~= old(out)@ + le64(x));
}

pub fn push_zeros(out: &mut Vec<u8>, n: usize)
    ensures
        final(out)@ == old(out)@ + zeros(n as nat),
{
    let mut i: usize = 0;
    assert(out@ =~= old(out)@ + zeros(0));
    while i < n
        invariant
            i <= n,
            out@ == old(out)@ + zeros(i as nat),
        decreases n - i,
    {
        out.push(0u8);
        i += 1;
        assert(out@ =~= old(out)@ + zeros(i as nat));
    }
}

/// Appends the words of `xs`.
pub fn push_le32_all(out: &mut Vec<u8>, xs: &[u32])
    ensures
        final(out)@ == old(out)@ + le32_all(xs@),
{
    let mut i: usize = 0;
    assert(out@ =~= old(out)@ + le32_all(xs@.take(0)));
    while i < xs.len()
        invariant
            i <= xs@.len(),
            out@ == old(out)@ + le32_all(xs@.take(i as int)),
        decreases xs@.len() - i,
    {
        push_le32(out, xs[i]);
        proof {
            let a = le32_all(xs@.take(i as int));
            let b = le32_all(xs@.take(i + 1));
            assert forall|j: int| 0 <= j < b.len() implies b[j] == (a + le32(xs@[i as int]))[j] by {
                if j < a.len() {
                    assert(xs@.take(i as int)[j / 4] == xs@.take(i + 1)[j / 4]);
                } else {
                    assert(j / 4 == i && j % 4 == j - a.len());
                }
            }
            assert(b =~= a + le32(xs@[i as int]));
            assert(out@ =~= old(out)@ + b);
        }
        i += 1;
    }
    assert(xs@.take(i as int) =~= xs@);
}

/// Appends the double words of `xs`.
pub fn push_le64_all(out: &mut Vec<u8>, xs: &[u64])
    ensures
        final(out)@ == old(out)@ + le64_all(xs@),
{
    let mut i: usize = 0;
    assert(out@ =~= old(out)@ + le64_all(xs@.take(0)));
    while i < xs.len()
        invariant
            i <= xs@.len(),
            out@ == old(out)@ + le64_all(xs@.take(i as int)),
        decreases xs@.len() - i,
    {
        push_le64(out, xs[i]);
        proof {
            let a = le64_all(xs@.take(i as int));
            let b = le64_all(xs@.take(i + 1));
            assert forall|j: int| 0 <= j < b.len() implies b[j] == (a + le64(xs@[i as int]))[j] by {
                if j < a.len() {
                    assert(xs@.take(i as int)[j / 8] == xs@.take(i + 1)[j / 8]);
                } else {
                    assert(j / 8 == i && j % 8 == j - a.len());
                }
            }
            assert(b =~= a + le64(xs@[i as int]));
            assert(out@ =~= old(out)@ + b);
        }
        i += 1;
    }
    assert(xs@.take(i as int) =~= xs@);
}

pub fn u16_from(s: &[u8], i: usize) -> (r: u16)
    requires
        i + 2 <= s@.len(),
    ensures
        r == u16_at(s@, i as int),
{
    s[i] as u16 + 256 * (s[i + 1] as u16)
}

pub fn u32_from(s: &[u8], i: usize) -> (r: u32)
    requires
        i + 4 <= s@.len(),
    ensures
        r == u32_at(s@, i as int),
{
    s[i] as u32 + 256 * (s[i + 1] as u32) + 65536 * (s[i + 2] as u32) + 16777216 * (s[i + 3] as u32)
}

/// Reading back a word that was written gives the word.
pub proof fn word_round_trip(x: u32)
    ensures
        u32_at(le32(x), 0) == x,
{
}

// ── single precision by its bits ──
/// The pattern without its sign.
pub open spec fn magnitude(bits: u32) -> u32 {
    bits % 0x8000_0000
}

/// Neither an infinity nor a NaN.
pub open spec fn is_finite(bits: u32) -> bool {
    magnitude(bits) < 0x7f80_0000
}

/// The magnitude of 1e-8.
pub const TINY: u32 = 0x322b_cc77;

/// The magnitude of 1e4.
pub const HUGE: u32 = 0x461c_4000;

/// The magnitude of 64.
pub const SIXTY_FOUR: u32 = 0x4280_0000;

/// The `i`-th single of a byte buffer.
pub open spec fn single(s: Seq<u8>, i: int) -> u32 {
    u32_at(s, 4 * i)
}

/// The buffer holds finite singles only, the largest of them in magnitude
/// strictly between 1e-8 and 1e4.
pub open spec fn streams_usable(s: Seq<u8>, n: int) -> bool {
    &&& forall|i: int| 0 <= i < n ==> is_finite(#[trigger] single(s, i)) && magnitude(single(s, i)) < HUGE
    &&& exists|i: int| 0 <= i < n && magnitude(#[trigger] single(s, i)) > TINY
}

/// The buffer holds a single that is not finite, or one beyond 64 in magnitude.
pub open spec fn streams_corrupt(s: Seq<u8>, n: int) -> bool {
    exists|i: int| 0 <= i < n && (!is_finite(#[trigger] single(s, i)) || magnitude(single(s, i)) > SIXTY_FOUR)
}

/// How the singles of a buffer lie: `(all finite, largest magnitude)`.
fn survey(s: &[u8], n: usize) -> (r: (bool, u32))
    requires
        4 * n <= s@.len(),
    ensures
        r.0 == forall|i: int| 0 <= i < n ==> is_finite(#[trigger] single(s@, i)),
        forall|i: int| 0 <= i < n ==> magnitude(#[trigger] single(s@, i)) <= r.1,
        r.1 == 0 || exists|i: int| 0 <= i < n && magnitude(#[trigger] single(s@, i)) == r.1,
{
    let mut finite = true;
    let mut top: u32 = 0;
    let mut i: usize = 0;
    let total: usize = s.len();
    while i < n
        invariant
            i <= n,
            4 * n <= s@.len() == total,
            finite == forall|j: int| 0 <= j < i ==> is_finite(#[trigger] single(s@, j)),
            forall|j: int| 0 <= j < i ==> magnitude(#[trigger] single(s@, j)) <= top,
            top == 0 || exists|j: int| 0 <= j < i && magnitude(#[trigger] single(s@, j)) == top,
        decreases n - i,
    {
        let m: u32 = u32_from(s, 4 * i) % 0x8000_0000;
        assert(m == magnitude(single(s@, i as int)));
        if m >= 0x7f80_0000 {
            finite = false;
        }
        if m > top {
            top = m;
        }
        i += 1;
    }
    (finite, top)
}

pub fn check_usable(s: &[u8], n: usize) -> (r: bool)
    requires
        4 * n <= s@.len(),
    ensures
        r == streams_usable(s@, n as int),
{
    let (finite, top) = survey(s, n);
    finite && top > TINY && top < HUGE
}

pub fn check_corrupt(s: &[u8], n: usize) -> (r: bool)
    requires
        4 * n <= s@.len(),
    ensures
        r == streams_corrupt(s@, n as int),
{
    let (finite, top) = survey(s, n);
    !finite || top > SIXTY_FOUR
}

/// A single rounded to BF16 by adding half a unit and dropping the low half;
/// the addition is modulo 2^32.
pub open spec fn bf16_of(bits: u32) -> u16 {
    ((bits + 0x8000) % 0x1_0000_0000 / 65536) as u16
}

/// Row `row` of a buffer of singles, `h` to the row, rounded to BF16.
pub open spec fn narrowed_row(s: Seq<u8>, row: int, h: int) -> Seq<u8> {
    Seq::new(
        (2 * h) as nat,
        |j: int|
            if j % 2 == 0 {
                (bf16_of(single(s, row * h + j / 2)) % 256) as u8
            } else {
                (bf16_of(single(s, row * h + j / 2)) / 256) as u8
            },
    )
}

/// A row of BF16 values widened to singles.
pub open spec fn widened(row: Seq<u8>) -> Seq<u8> {
    Seq::new(
        2 * row.len(),
        |j: int| if j % 4 < 2 { 0u8 } else { row[j / 4 * 2 + j % 4 - 2] },
    )
}

pub fn narrow_row(s: &[u8], row: usize, h: usize) -> (r: Vec<u8>)
    requires
        4 * ((row + 1) * h) <= s@.len(),
    ensures
        r@ == narrowed_row(s@, row as int, h as int),
{
    let mut r: Vec<u8> = Vec::new();
    let mut d: usize = 0;
    assert((row + 1) * h == row * h + h) by (nonlinear_arith);
    let total: usize = s.len();
    let base: usize = row * h;
    while d < h
        invariant
            d <= h,
            base == row * h,
            4 * (base + h) <= s@.len() == total,
            r@.len() == 2 * d,
            forall|j: int| 0 <= j < 2 * d ==> #[trigger] r@[j] == narrowed_row(s@, row as int, h as int)[j],
        decreases h - d,
    {
        let bits: u32 = u32_from(s, 4 * (base + d));
        let rounded: u32 = bits.wrapping_add(0x8000) / 65536;
        assert(rounded == bf16_of(single(s@, row * h + d)));
        r.push((rounded % 256) as u8);
        r.push((rounded / 256) as u8);
        d += 1;
    }
    assert(r@ =~= narrowed_row(s@, row as int, h as int));
    r
}

/// Appends the widened row.
pub fn push_widened(out: &mut Vec<u8>, row: &[u8])
    requires
        row@.len() % 2 == 0,
    ensures
        final(out)@ == old(out)@ + widened(row@),
{
    let mut d: usize = 0;
    while d < row.len()
        invariant
            d <= row@.len(),
            d % 2 == 0,
            row@.len() % 2 == 0,
            out@.len() == old(out)@.len() + 2 * d,
            forall|j: int| 0 <= j < old(out)@.len() ==> #[trigger] out@[j] == old(out)@[j],
            forall|j: int| old(out)@.len() <= j < out@.len() ==> #[trigger] out@[j] == widened(row@)[j - old(out)@.len()],
        decreases row@.len() - d,
    {
        out.push(0u8);
        out.push(0u8);
        out.push(row[d]);
        out.push(row[d + 1]);
        d += 2;
    }
    assert(out@ =~= old(out)@ + widened(row@));
}

// ── BF16 order ──
/// The place of a BF16 pattern on the number line; the two zeros coincide.
pub open spec fn bf16_rank(x: u16) -> int {
    if x < 0x8000 {
        x as int
    } else {
        0x8000 - x
    }
}

/// A pattern that compares above minus infinity: no NaN and not minus infinity.
pub open spec fn above_floor(x: u16) -> bool {
    x % 0x8000 <= 0x7f80 && x != 0xff80
}

/// Bit `tok` of a grammar mask; tokens past the mask are not allowed.
pub open spec fn mask_allows(mask: Seq<i32>, tok: int) -> bool {
    0 <= tok / 32 < mask.len() && ((mask[tok / 32] as u32) >> ((tok % 32) as u32)) % 2 == 1
}

/// `tok` is allowed by the mask and its logit compares above minus infinity.
pub open spec fn candidate(logits: Seq<u8>, mask: Seq<i32>, tok: int) -> bool {
    mask_allows(mask, tok) && above_floor(u16_at(logits, 2 * tok))
}

/// The masked arg-max: the first of the candidates with the largest logit, or
/// token 0 where there is no candidate.
pub open spec fn is_masked_argmax(logits: Seq<u8>, vocab: int, mask: Seq<i32>, pick: int) -> bool {
    if exists|t: int| 0 <= t < vocab && #[trigger] candidate(logits, mask, t) {
        &&& 0 <= pick < vocab
        &&& candidate(logits, mask, pick)
        &&& forall|t: int|
            0 <= t < vocab && #[trigger] candidate(logits, mask, t) ==> bf16_rank(u16_at(logits, 2 * t))
                <= bf16_rank(u16_at(logits, 2 * pick)) && (t < pick ==> bf16_rank(
                u16_at(logits, 2 * t),
            ) < bf16_rank(u16_at(logits, 2 * pick)))
    } else {
        pick == 0
    }
}

fn rank_of(x: u16) -> (r: i32)
    ensures
        r == bf16_rank(x),
{
    if x < 0x8000 {
        x as i32
    } else {
        0x8000 - x as i32
    }
}

fn allows(mask: &[i32], tok: usize) -> (r: bool)
    ensures
        r == mask_allows(mask@, tok as int),
{
    let word: usize = tok / 32;
    let bit: u32 = (tok % 32) as u32;
    word < mask.len() && ((mask[word] as u32) >> bit) % 2 == 1
}

/// Picks the masked arg-max of BF16 logits.
pub fn masked_argmax(logits: &[u8], vocab: usize, mask: &[i32]) -> (r: u32)
    requires
        2 * vocab <= logits@.len(),
        vocab <= u32::MAX,
    ensures
        is_masked_argmax(logits@, vocab as int, mask@, r as int),
{
    let mut best: u32 = 0;
    let mut best_rank: i32 = 0;
    let mut any = false;
    let mut t: usize = 0;
    let total: usize = logits.len();
    while t < vocab
        invariant
            t <= vocab <= u32::MAX,
            2 * vocab <= logits@.len() == total,
            any == exists|u: int| 0 <= u < t && #[trigger] candidate(logits@, mask@, u),
            any ==> best_rank == bf16_rank(u16_at(logits@, 2 * best)),
            is_masked_argmax(logits@, t as int, mask@, best as int),
        decreases vocab - t,
    {
        if allows(mask, t) {
            let x: u16 = u16_from(logits, 2 * t);
            if x % 0x8000 <= 0x7f80 && x != 0xff80 {
                let rank: i32 = rank_of(x);
                assert(candidate(logits@, mask@, t as int));
                if !any || rank > best_rank {
                    best = t as u32;
                    best_rank = rank;
                }
                any = true;
            }
        }
        t += 1;
    }
    best
}

// ── the order of singles ──
/// Where a single stands in the order of numbers: by its magnitude, with the
/// sign. Both zeros stand at 0, and a NaN nowhere.
pub open spec fn f32_rank(bits: u32) -> Option<int> {
    if magnitude(bits) > 0x7f80_0000 {
        None
    } else if bits < 0x8000_0000 {
        Some(magnitude(bits) as int)
    } else {
        Some(-(magnitude(bits) as int))
    }
}

pub fn rank_of_f32(bits: u32) -> (r: Option<i64>)
    ensures
        match r {
            Some(x) => f32_rank(bits) == Some(x as int),
            None => f32_rank(bits) is None,
        },
{
    let m: u32 = bits % 0x8000_0000;
    if m > 0x7f80_0000 {
        None
    } else if bits < 0x8000_0000 {
        Some(m as i64)
    } else {
        Some(-(m as i64))
    }
}

/// The bits of `n` singles: as they are, or widened from BF16.
pub open spec fn row_bits(bytes: Seq<u8>, is_fp32: bool, n: int) -> Seq<u32> {
    Seq::new(
        n as nat,
        |j: int|
            if is_fp32 {
                u32_at(bytes, 4 * j)
            } else {
                (u16_at(bytes, 2 * j) * 65536) as u32
            },
    )
}

pub fn widen_row(bytes: &[u8], is_fp32: bool, n: usize) -> (r: Vec<u32>)
    requires
        n * (if is_fp32 { 4int } else { 2 }) <= bytes@.len(),
    ensures
        r@ == row_bits(bytes@, is_fp32, n as int),
{
    let total: usize = bytes.len();
    let mut row: Vec<u32> = Vec::new();
    let mut j: usize = 0;
    while j < n
        invariant
            j <= n,
            total == bytes@.len(),
            n * (if is_fp32 { 4int } else { 2 }) <= total,
            row@ == row_bits(bytes@, is_fp32, n as int).take(j as int),
        decreases n - j,
    {
        let bits: u32 = if is_fp32 {
            u32_from(bytes, 4 * j)
        } else {
            u16_from(bytes, 2 * j) as u32 * 65536
        };
        row.push(bits);
        j += 1;
        assert(row@ =~= row_bits(bytes@, is_fp32, n as int).take(j as int));
    }
    assert(row@ =~= row_bits(bytes@, is_fp32, n as int));
    row
}

} // verus!
