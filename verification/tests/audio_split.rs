use tingmo::audio_split::{
    apply_leading_overlap, join_segment_texts, plan_energy_aware_ranges_by, plan_fixed_ranges,
    plan_ranges_for_max_ms_by, samples_for_ms, strip_boundary_overlap, DEFAULT_MAX_AUDIO_MS,
    DEFAULT_OVERLAP_MS, ENERGY_WINDOW_MS,
};

/// RMS energy of a frame.
fn rms(frame: &[f32]) -> f32 {
    if frame.is_empty() {
        return 0.0;
    }
    let sum_sq: f32 = frame.iter().map(|s| s * s).sum();
    (sum_sq / frame.len() as f32).sqrt()
}

/// Middle of the quietest `window_samples` block in `[from, to)`.
fn find_quietest_cut(audio: &[f32], from: usize, to: usize, window_samples: usize) -> Option<usize> {
    if to <= from || window_samples == 0 || to > audio.len() {
        return None;
    }
    if to - from < window_samples {
        return Some(from);
    }
    let mut best_start = from;
    let mut best_energy = f32::INFINITY;
    let step = (window_samples / 2).max(1);
    let mut start = from;
    while start + window_samples <= to {
        let energy = rms(&audio[start..start + window_samples]);
        if energy < best_energy {
            best_energy = energy;
            best_start = start + window_samples / 2;
        }
        start += step;
    }
    Some(best_start.clamp(from, to))
}

fn plan_energy_aware_ranges(audio: &[f32], max_samples: usize, search_tail: usize, min_segment: usize) -> Vec<(usize, usize)> {
    plan_energy_aware_ranges_by(audio.len(), max_samples, search_tail, min_segment, |f, t, w| {
        find_quietest_cut(audio, f, t, w)
    })
}

fn plan_ranges_for_max_ms(audio: &[f32], max_audio_ms: u64) -> Vec<(usize, usize)> {
    plan_ranges_for_max_ms_by(audio.len(), max_audio_ms, |f, t, w| find_quietest_cut(audio, f, t, w))
}

#[test]
fn short_audio_is_single_range() {
    let ranges = plan_fixed_ranges(16_000, 30 * 16_000, 0);
    assert_eq!(ranges, vec![(0, 16_000)]);
}

#[test]
fn fixed_ranges_cover_full_audio_without_gaps_when_no_overlap() {
    let total = 100_000;
    let max = 30_000;
    let ranges = plan_fixed_ranges(total, max, 0);
    assert!(ranges.len() >= 4);
    assert_eq!(ranges.first().unwrap().0, 0);
    assert_eq!(ranges.last().unwrap().1, total);
    for w in ranges.windows(2) {
        assert_eq!(w[0].1, w[1].0);
    }
    for (s, e) in &ranges {
        assert!(e - s <= max);
        assert!(*e > *s);
    }
}

#[test]
fn energy_aware_splits_long_tone() {
    let total = 90 * 16_000;
    let mut audio = vec![0.01f32; total];
    let quiet_at = 30 * 16_000;
    for s in audio.iter_mut().skip(quiet_at).take(8_000) {
        *s = 0.0001;
    }
    let max = 35 * 16_000;
    let ranges = plan_energy_aware_ranges(&audio, max, 5 * 16_000, 5 * 16_000);
    assert!(ranges.len() >= 2);
    assert_eq!(ranges[0].0, 0);
    assert_eq!(ranges.last().unwrap().1, total);
    for w in ranges.windows(2) {
        assert_eq!(w[0].1, w[1].0);
    }
    let first_end = ranges[0].1;
    assert!(first_end > 25 * 16_000);
    assert!(first_end <= max);
}

#[test]
fn plan_ranges_for_default_30s_on_1808s_scale() {
    let total = 1_808 * 16_000;
    let audio = vec![0.0f32; total];
    let ranges = plan_ranges_for_max_ms(&audio, DEFAULT_MAX_AUDIO_MS);
    assert!(ranges.len() >= 60);
    assert_eq!(ranges[0].0, 0);
    assert_eq!(ranges.last().unwrap().1, total);
    let max_samples = samples_for_ms(DEFAULT_MAX_AUDIO_MS);
    let max_with_overlap = max_samples + samples_for_ms(DEFAULT_OVERLAP_MS);
    for (s, e) in &ranges {
        assert!(e - s <= max_with_overlap);
    }
}

#[test]
fn plan_ranges_for_xinyuan_road_fixture_duration() {
    let total = 74_209_963usize;
    let max_samples = samples_for_ms(DEFAULT_MAX_AUDIO_MS);
    let min_segments = total.div_ceil(max_samples);
    assert!(min_segments >= 155);

    let audio = vec![0.0f32; total.min(max_samples * 4)];
    let ranges = plan_ranges_for_max_ms(&audio, DEFAULT_MAX_AUDIO_MS);
    assert!(ranges.len() >= 4);
    assert_eq!(ranges[0].0, 0);
    assert_eq!(ranges.last().unwrap().1, audio.len());
    let max_with_overlap = max_samples + samples_for_ms(DEFAULT_OVERLAP_MS);
    for (s, e) in &ranges {
        assert!(e - s <= max_with_overlap);
    }
}

#[test]
fn join_inserts_space_for_latin_only() {
    let parts = vec!["hello".into(), "world".into()];
    assert_eq!(join_segment_texts(&parts), "hello world");

    let cjk = vec!["你好".into(), "世界".into()];
    assert_eq!(join_segment_texts(&cjk), "你好世界");

    let mixed = vec!["hello".into(), "世界".into()];
    assert_eq!(join_segment_texts(&mixed), "hello世界");
}

#[test]
fn join_skips_empty_parts() {
    let parts = vec!["a".into(), "  ".into(), "b".into()];
    assert_eq!(join_segment_texts(&parts), "a b");
}

#[test]
fn apply_leading_overlap_expands_later_starts() {
    let base = vec![(0, 1000), (1000, 2000), (2000, 2500)];
    let overlapped = apply_leading_overlap(base, 100);
    assert_eq!(overlapped[0], (0, 1000));
    assert_eq!(overlapped[1], (900, 2000));
    assert_eq!(overlapped[2], (1900, 2500));
}

#[test]
fn strip_boundary_overlap_removes_shared_cjk_tail() {
    let prev = "今天天气很好我们去公园";
    let next = "我们去公园散步";
    assert_eq!(strip_boundary_overlap(prev, next, 24), "散步");
}

#[test]
fn strip_boundary_overlap_keeps_unrelated() {
    assert_eq!(strip_boundary_overlap("hello", "world", 24), "world");
    assert_eq!(strip_boundary_overlap("ab", "bc", 24), "bc");
}

#[test]
fn join_dedups_overlapping_boundary_text() {
    let parts = vec!["今天天气很好我们去公园".into(), "我们去公园散步".into()];
    assert_eq!(join_segment_texts(&parts), "今天天气很好我们去公园散步");
}

#[test]
fn plan_ranges_for_max_ms_applies_overlap() {
    let total = 90 * 16_000;
    let audio = vec![0.01f32; total];
    let ranges = plan_ranges_for_max_ms(&audio, DEFAULT_MAX_AUDIO_MS);
    assert!(ranges.len() >= 2);
    let overlap = samples_for_ms(DEFAULT_OVERLAP_MS);
    for w in ranges.windows(2) {
        assert!(w[1].0 < w[0].1, "expected leading overlap between tiles");
        assert!(w[0].1.saturating_sub(w[1].0) <= overlap + 1);
    }
}

// ---------------------------------------------------------------------------
// Further cases
// ---------------------------------------------------------------------------

#[test]
fn samples_for_ms_is_sixteen_per_ms() {
    assert_eq!(samples_for_ms(0), 0);
    assert_eq!(samples_for_ms(1), 16);
    assert_eq!(samples_for_ms(DEFAULT_MAX_AUDIO_MS), 480_000);
    assert_eq!(samples_for_ms(ENERGY_WINDOW_MS), 1_600);
}

#[test]
fn fixed_ranges_empty_and_zero_max() {
    assert!(plan_fixed_ranges(0, 10, 0).is_empty());
    // A zero maximum is treated as one sample per window.
    assert_eq!(plan_fixed_ranges(3, 0, 0), vec![(0, 1), (1, 2), (2, 3)]);
}

#[test]
fn fixed_ranges_with_overlap_step_back() {
    // Windows of 10 advancing by 10 - 4 = 6.
    assert_eq!(plan_fixed_ranges(25, 10, 4), vec![(0, 10), (6, 16), (12, 22), (18, 25)]);
    // Overlap at least the window: step of one sample.
    assert_eq!(plan_fixed_ranges(12, 10, 15), vec![(0, 10), (1, 11), (2, 12)]);
}

#[test]
fn energy_planner_uses_probe_and_clamps() {
    // The probe answers the start of its window: the window starts at
    // start + min when that is later than hard_end - tail.
    let r = plan_energy_aware_ranges_by(100, 40, 10, 35, |f, _t, _w| Some(f));
    assert_eq!(r, vec![(0, 35), (35, 70), (70, 100)]);
    // Probe fails: cut at the hard end.
    let r = plan_energy_aware_ranges_by(100, 40, 10, 25, |_f, _t, _w| None);
    assert_eq!(r, vec![(0, 40), (40, 80), (80, 100)]);
    // Probe answers the end of its window: the hard end.
    let r = plan_energy_aware_ranges_by(100, 40, 10, 25, |_f, t, _w| Some(t));
    assert_eq!(r, vec![(0, 40), (40, 80), (80, 100)]);
    // The probe sees the search window [hard_end - tail, hard_end] and a
    // 100 ms (1600-sample) energy window.
    let r = plan_energy_aware_ranges_by(100, 40, 10, 5, |f, t, w| {
        assert_eq!(t - f, 10);
        assert_eq!(w, 1600);
        Some(f + 3)
    });
    assert_eq!(r, vec![(0, 33), (33, 66), (66, 100)]);
}

#[test]
fn leading_overlap_clamps_to_previous_start() {
    let base = vec![(0, 5), (5, 10), (10, 15)];
    let r = apply_leading_overlap(base, 100);
    assert_eq!(r, vec![(0, 5), (1, 10), (2, 15)]);
    let single = apply_leading_overlap(vec![(7, 9)], 100);
    assert_eq!(single, vec![(7, 9)]);
    let none = apply_leading_overlap(vec![(0, 5), (5, 10)], 0);
    assert_eq!(none, vec![(0, 5), (5, 10)]);
}

#[test]
fn strip_boundary_overlap_limits() {
    // Longest shared span wins.
    assert_eq!(strip_boundary_overlap("xxabab", "ababyy", 24), "yy");
    // `max_chars` caps the span considered.
    assert_eq!(strip_boundary_overlap("abcdef", "cdefgh", 3), "cdefgh");
    assert_eq!(strip_boundary_overlap("abcdef", "cdefgh", 4), "gh");
    // Whole `next` repeated.
    assert_eq!(strip_boundary_overlap("我们去公园", "公园", 24), "");
    assert_eq!(strip_boundary_overlap("", "abc", 24), "abc");
}

#[test]
fn join_handles_whitespace_and_full_repeats() {
    let parts = vec!["  hello  ".into(), "\tworld\n".into()];
    assert_eq!(join_segment_texts(&parts), "hello world");
    // A segment fully repeated at the boundary adds nothing.
    let parts = vec!["我们去公园".into(), "公园".into(), "散步".into()];
    assert_eq!(join_segment_texts(&parts), "我们去公园散步");
    let parts = vec!["x1".into(), "2y".into()];
    assert_eq!(join_segment_texts(&parts), "x1 2y");
    let parts: Vec<String> = vec![];
    assert_eq!(join_segment_texts(&parts), "");
}

#[test]
fn energy_planner_never_splits_audio_that_fits() {
    let r = plan_energy_aware_ranges_by(40, 40, 10, 5, |f, _t, _w| Some(f));
    assert_eq!(r, vec![(0, 40)]);
    let r = plan_energy_aware_ranges_by(1, 0, 10, 5, |f, _t, _w| Some(f));
    assert_eq!(r, vec![(0, 1)]);
}
