use atlas_spark::adaptive_sampler::{AdaptiveSamplingState, GenerationZone, TemperatureParts, ZoneTemperature};
use atlas_spark::bits::{
    check_corrupt, check_usable, masked_argmax, narrow_row, push_le32, push_le32_all, push_le64, push_le64_all,
    push_widened, push_zeros, rank_of_f32, u16_from, u32_from, widen_row,
};
use atlas_spark::gpu::{DevicePtr, F32Bits};
use atlas_spark::mock::{Command, MockGpuBackend, MockSequence};
use atlas_spark::verify_pipeline::{verify_pick_all_with_pipeline, verify_pick_with_pipeline};

fn f(x: f32) -> F32Bits {
    F32Bits(x.to_bits())
}

fn halves(row: &[f32]) -> Vec<u8> {
    row.iter().flat_map(|x| ((x.to_bits() >> 16) as u16).to_le_bytes()).collect()
}

fn singles(row: &[f32]) -> Vec<u8> {
    row.iter().flat_map(|x| x.to_le_bytes()).collect()
}

#[test]
fn zone_follows_the_flags_in_order() {
    let mut s = AdaptiveSamplingState::new(f(0.7));
    assert_eq!(s.zone, GenerationZone::FreeText);
    s.update_zone(true, true, true);
    assert_eq!(s.zone, GenerationZone::ToolCall);
    s.update_zone(false, true, true);
    assert_eq!(s.zone, GenerationZone::Thinking);
    s.update_zone(false, false, true);
    assert_eq!(s.zone, GenerationZone::StructuredOutput);
    s.update_zone(false, false, false);
    assert_eq!(s.zone, GenerationZone::FreeText);
}

#[test]
fn temperature_is_made_of_zone_boost_and_multiplier() {
    let mut s = AdaptiveSamplingState::new(f(0.7));
    assert_eq!(
        s.effective_temperature(),
        Some(TemperatureParts { zone: ZoneTemperature::Plain(f(0.7)), boost: f(0.0), multiplier: f(1.0) })
    );
    s.update_zone(false, false, true);
    s.consecutive_low_entropy = 8;
    s.set_lz_ratio(f(0.2));
    assert_eq!(
        s.effective_temperature(),
        Some(TemperatureParts { zone: ZoneTemperature::Scaled(f(0.6)), boost: f(0.1), multiplier: f(1.4) })
    );
    s.update_zone(true, false, true);
    assert_eq!(
        s.effective_temperature(),
        Some(TemperatureParts { zone: ZoneTemperature::Plain(f(0.3)), boost: f(0.0), multiplier: f(1.0) })
    );
    s.base_temperature = f(0.2);
    assert_eq!(s.effective_temperature().unwrap().zone, ZoneTemperature::Plain(f(0.2)));
    s.base_temperature = f(0.0);
    assert_eq!(s.effective_temperature(), None);
    s.base_temperature = f(-0.0);
    assert_eq!(s.effective_temperature(), None);
}

#[test]
fn boost_and_multiplier_have_steps() {
    let mut s = AdaptiveSamplingState::new(f(1.0));
    for (low, boost) in [(0, 0.0), (7, 0.0), (8, 0.1), (15, 0.1), (16, 0.2), (31, 0.2), (32, 0.3), (900, 0.3)] {
        s.consecutive_low_entropy = low;
        assert_eq!(s.entropy_diversity_boost(), f(boost));
    }
    for (ratio, m) in [(0.1, 1.8), (0.15, 1.4), (0.24, 1.4), (0.25, 1.2), (0.34, 1.2), (0.35, 1.0), (1.0, 1.0)] {
        s.set_lz_ratio(f(ratio));
        assert_eq!(s.lz_temperature_multiplier(), f(m));
    }
    s.set_lz_ratio(f(f32::NAN));
    assert_eq!(s.lz_temperature_multiplier(), f(1.0));
}

#[test]
fn greedy_threshold_depends_on_the_zone() {
    let mut s = AdaptiveSamplingState::new(f(0.7));
    assert!(s.should_use_greedy(Some(f(0.9))));
    assert!(!s.should_use_greedy(Some(f(0.89))));
    assert!(!s.should_use_greedy(None));
    s.update_zone(true, false, false);
    assert!(s.should_use_greedy(Some(f(0.8))));
    s.update_zone(false, true, false);
    assert!(!s.should_use_greedy(Some(f(0.94))));
    s.update_zone(false, false, true);
    assert!(s.should_use_greedy(Some(f(0.85))));
    assert!(!s.should_use_greedy(Some(f(f32::NAN))));
    s.base_temperature = f(0.0);
    assert!(s.should_use_greedy(None));
}

#[test]
fn entropies_are_kept_and_counted() {
    let mut s = AdaptiveSamplingState::new(f(0.7));
    for i in 0..40 {
        s.observe_entropy(Some(f(0.01 * i as f32)));
    }
    assert_eq!(s.entropy_window.len(), 32);
    assert_eq!(s.entropy_window[0], f(0.01 * 8.0));
    assert_eq!(s.consecutive_low_entropy, 40);
    s.observe_entropy(None);
    assert_eq!(s.consecutive_low_entropy, 40);
    s.observe_entropy(Some(f(0.5)));
    assert_eq!(s.consecutive_low_entropy, 0);
    assert_eq!(s.entropy_window.len(), 32);
}

#[test]
fn repetition_is_worked_out_when_it_is_due() {
    let mut s = AdaptiveSamplingState::new(f(0.7));
    let same = vec![0u32; 200];
    assert_eq!(s.update_lz_ratio(&same[..31]), None);
    // 32 equal tokens are 128 zero bytes: one distinct window per size.
    assert_eq!(s.update_lz_ratio(&same[..32]), Some((4, 126 + 125 + 124 + 123)));
    assert_eq!(s.lz_last_check, 32);
    assert_eq!(s.update_lz_ratio(&same[..47]), None);
    assert_eq!(s.update_lz_ratio(&same[..48]), Some((4, 190 + 189 + 188 + 187)));
    // Only the last 128 tokens are searched.
    assert_eq!(s.update_lz_ratio(&same), Some((4, 510 + 509 + 508 + 507)));
}

#[test]
fn repetition_counts_distinct_windows() {
    let mut s = AdaptiveSamplingState::new(f(0.7));
    let tokens: Vec<u32> = (0..32).map(|i| 0x01020304 + i * 0x11111111).collect();
    let bytes: Vec<u8> = tokens.iter().flat_map(|t| t.to_le_bytes()).collect();
    let mut all: Vec<Vec<u8>> = Vec::new();
    for n in 3..7 {
        for i in 0..bytes.len() - n + 1 {
            all.push(bytes[i..i + n].to_vec());
        }
    }
    let total = all.len();
    all.sort();
    all.dedup();
    assert_eq!(s.update_lz_ratio(&tokens), Some((all.len(), total)));
}

#[test]
fn pick_is_the_largest_of_what_the_pipeline_leaves() {
    let row = halves(&[0.5, 3.0, 2.0, 3.0]);
    let mut a = MockSequence::new();
    assert_eq!(verify_pick_with_pipeline(&row, false, 4, &mut a, &0), 1);
    a.banned = vec![1];
    assert_eq!(verify_pick_with_pipeline(&row, false, 4, &mut a, &0), 3);
    a.forced = vec![Some(9)];
    assert_eq!(verify_pick_with_pipeline(&row, false, 4, &mut a, &0), 9);
    let row = singles(&[-2.0, -1.0, f32::NAN, f32::NEG_INFINITY]);
    let mut a = MockSequence::new();
    assert_eq!(verify_pick_with_pipeline(&row, true, 4, &mut a, &0), 1);
    let floor = singles(&[f32::NAN, f32::NEG_INFINITY]);
    assert_eq!(verify_pick_with_pipeline(&floor, true, 2, &mut a, &0), 0);
}

#[test]
fn picks_of_all_positions_take_their_advances_back() {
    let mut gpu = MockGpuBackend::new();
    let mut rows = halves(&[0.0, 1.0, 0.0]);
    rows.extend(halves(&[0.0, 0.0, 1.0]));
    rows.extend(halves(&[1.0, 0.0, 0.0]));
    gpu.reads = vec![rows.clone(), rows];
    let mut a = MockSequence::new();
    a.grammar_on = true;
    a.held = vec![70];
    let picks = verify_pick_all_with_pipeline(&mut gpu, DevicePtr(0x10), 3, &[0, 0, 0], &mut a, &0);
    assert_eq!(picks, vec![1, 2, 0]);
    assert_eq!(a.held, vec![70], "the grammar is where it was");
    assert_eq!(gpu.commands[0], Command::D2h { src: DevicePtr(0x10), len: 18 });
    a.unacceptable = Some(2);
    let picks = verify_pick_all_with_pipeline(&mut gpu, DevicePtr(0x10), 3, &[0, 0, 0], &mut a, &0);
    assert_eq!(picks, vec![1, 2, 0], "every position is picked, though the grammar refused the second token");
    assert_eq!(a.held, vec![70]);
}

#[test]
fn thinking_offers_nothing_to_the_grammar() {
    let mut gpu = MockGpuBackend::new();
    let mut a = MockSequence::new();
    a.grammar_on = true;
    a.thinking_on = true;
    a.unacceptable = Some(0);
    let picks = verify_pick_all_with_pipeline(&mut gpu, DevicePtr(0x10), 3, &[0, 0], &mut a, &0);
    assert_eq!(picks, vec![0, 0]);
    assert!(a.held.is_empty());
}

#[test]
fn unreadable_logits_leave_the_argmax() {
    let mut gpu = MockGpuBackend::new();
    gpu.refuse_at = Some(0);
    let mut a = MockSequence::new();
    let picks = verify_pick_all_with_pipeline(&mut gpu, DevicePtr(0x10), 3, &[7, 8], &mut a, &0);
    assert_eq!(picks, vec![7, 8]);
    let picks = verify_pick_all_with_pipeline(&mut gpu, DevicePtr(0x10), 3, &[], &mut a, &0);
    assert!(picks.is_empty());
}

#[test]
fn words_are_written_low_byte_first() {
    let mut out: Vec<u8> = Vec::new();
    push_le32(&mut out, 0x0403_0201);
    push_le64(&mut out, 0x0c0b_0a09_0807_0605);
    assert_eq!(out, (1..13).collect::<Vec<u8>>());
    push_zeros(&mut out, 2);
    assert_eq!(out[12..], [0, 0]);
    assert_eq!(u32_from(&out, 0), 0x0403_0201);
    assert_eq!(u16_from(&out, 2), 0x0403);
    let mut all: Vec<u8> = Vec::new();
    push_le32_all(&mut all, &[1, 2]);
    push_le64_all(&mut all, &[3]);
    assert_eq!(all, vec![1, 0, 0, 0, 2, 0, 0, 0, 3, 0, 0, 0, 0, 0, 0, 0]);
}

#[test]
fn ranks_order_as_numbers_do() {
    let sorted = [f32::NEG_INFINITY, -2.0, -1.0e-40, 0.0, 1.0e-40, 1.0, f32::INFINITY];
    let ranks: Vec<i64> = sorted.iter().map(|x| rank_of_f32(x.to_bits()).unwrap()).collect();
    for i in 1..ranks.len() {
        assert!(ranks[i - 1] < ranks[i]);
    }
    assert_eq!(rank_of_f32((-0.0f32).to_bits()), rank_of_f32(0));
    assert_eq!(rank_of_f32(f32::NAN.to_bits()), None);
}

#[test]
fn halves_widen_to_the_upper_bits() {
    assert_eq!(widen_row(&halves(&[1.5, -2.0]), false, 2), vec![1.5f32.to_bits(), (-2.0f32).to_bits()]);
    assert_eq!(widen_row(&singles(&[0.1]), true, 1), vec![0.1f32.to_bits()]);
    let mut out: Vec<u8> = Vec::new();
    push_widened(&mut out, &halves(&[1.5]));
    assert_eq!(out, singles(&[1.5]));
}

#[test]
fn singles_narrow_to_halves_row_by_row() {
    let rows = singles(&[1.0, -2.0, 3.0, 4.0]);
    assert_eq!(narrow_row(&rows, 1, 2), halves(&[3.0, 4.0]));
}

#[test]
fn mask_bits_allow_tokens() {
    let logits = halves(&[5.0, 4.0, 3.0]);
    assert_eq!(masked_argmax(&logits, 3, &[0b111]), 0);
    assert_eq!(masked_argmax(&logits, 3, &[0b110]), 1);
    assert_eq!(masked_argmax(&logits, 3, &[0b100]), 2);
}

#[test]
fn dead_and_wild_streams_are_told_apart() {
    let good = singles(&[0.5, -0.25, 1.0, 2.0]);
    assert!(check_usable(&good, 4));
    assert!(!check_corrupt(&good, 4));
    let dead = singles(&[0.0; 4]);
    assert!(!check_usable(&dead, 4));
    let wild = singles(&[f32::NAN, 1.0, 1.0, 1.0]);
    assert!(!check_usable(&wild, 4));
    assert!(check_corrupt(&wild, 4));
}
