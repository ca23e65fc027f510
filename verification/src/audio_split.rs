//! Long-audio segmentation for batch ASR.
//!
//! Many models are trained on ~30 s windows; feeding multi-minute PCM in one
//! shot degrades accuracy badly. This module plans sample ranges so the
//! orchestrator can run the engine per segment, and joins the per-segment
//! text again (de-duplicating the text of overlapped boundaries).
//!
//! Energy probing itself (RMS over `f32` samples) is done by the caller; the
//! planners here take the probe as a function from a search window to a
//! preferred cut.

use vstd::prelude::*;
use crate::text::{
    chars_of, first_non_ws, first_non_ws_char, last_non_ws, last_non_ws_char, string_of, trim,
    trim_vec, views,
};

verus! {

/// Sample rate of the PCM the planners work on (Hz).
pub const SAMPLE_RATE_HZ: u64 = 16_000;

/// Default max segment length when the model does not advertise a limit.
pub const DEFAULT_MAX_AUDIO_MS: u64 = 30_000;

/// Look-back window (ms) near the max boundary used to prefer a quiet cut.
pub const DEFAULT_BOUNDARY_SEARCH_MS: u64 = 2_000;

/// Never emit a segment shorter than this (except the final tail).
pub const DEFAULT_MIN_SEGMENT_MS: u64 = 5_000;

/// Sample-level look-back into the previous tile so word onsets at a cut are
/// not clipped; the text join strips the duplicated boundary.
pub const DEFAULT_OVERLAP_MS: u64 = 400;

/// Max chars of adjacent-segment prefix/suffix considered when de-duplicating.
pub const DEFAULT_DEDUP_CHARS: usize = 24;

/// RMS window (ms) for silence/energy probing at cut candidates.
pub const ENERGY_WINDOW_MS: u64 = 100;

/// Number of samples in `ms` milliseconds at [`SAMPLE_RATE_HZ`].
pub fn samples_for_ms(ms: u64) -> (r: usize)
    requires
        ms * SAMPLE_RATE_HZ <= u64::MAX,
        ms * 16 <= usize::MAX,
    ensures
        r == ms * SAMPLE_RATE_HZ / 1000,
{
    assert(ms * SAMPLE_RATE_HZ / 1000 == ms * 16) by (nonlinear_arith);
    (SAMPLE_RATE_HZ * ms / 1000) as usize
}

// ---------------------------------------------------------------------------
// Tilings
// ---------------------------------------------------------------------------

/// `ranges` are non-empty windows of at most `max` samples, starting at 0,
/// ending at `total`, each starting after the previous one and no later than
/// the previous end (no gaps).
pub open spec fn covers_in_order(ranges: Seq<(usize, usize)>, total: int, max: int) -> bool {
    &&& ranges.len() >= 1
    &&& ranges[0].0 == 0
    &&& ranges.last().1 == total
    &&& forall|i: int| 0 <= i < ranges.len() ==> #[trigger] ranges[i].0 < ranges[i].1 && ranges[i].1 - ranges[i].0 <= max
    &&& forall|i: int| 0 <= i < ranges.len() - 1 ==> #[trigger] ranges[i + 1].0 <= ranges[i].1 && ranges[i].0 < ranges[i + 1].0
}

/// Consecutive ranges meet exactly: no gap and no overlap.
pub open spec fn contiguous(ranges: Seq<(usize, usize)>) -> bool {
    forall|i: int| 0 <= i < ranges.len() - 1 ==> #[trigger] ranges[i].1 == ranges[i + 1].0
}

pub open spec fn min_int(a: int, b: int) -> int {
    if a <= b {
        a
    } else {
        b
    }
}

pub open spec fn max_int(a: int, b: int) -> int {
    if a >= b {
        a
    } else {
        b
    }
}

/// Fixed windows from `start` on, advancing by `step`.
pub open spec fn fixed_from(start: int, total: int, maxs: int, step: int) -> Seq<(usize, usize)>
    decreases total - start,
{
    if start < 0 || start >= total || step <= 0 {
        Seq::empty()
    } else {
        let end = min_int(start + maxs, total);
        seq![(start as usize, end as usize)] + (if end >= total || start + step >= total {
            Seq::empty()
        } else {
            fixed_from(start + step, total, maxs, step)
        })
    }
}

/// The fixed-window plan for `total` samples.
pub open spec fn fixed_plan(total: int, max_samples: int, overlap: int) -> Seq<(usize, usize)> {
    let m = max_int(max_samples, 1);
    if total == 0 {
        Seq::empty()
    } else if total <= m {
        seq![(0usize, total as usize)]
    } else {
        fixed_from(0, total, m, max_int(max_int(m - overlap, 0), 1))
    }
}

/// Inclusive-exclusive sample ranges covering `total_samples` with fixed-size
/// windows and optional sample overlap between consecutive windows.
pub fn plan_fixed_ranges(total_samples: usize, max_samples: usize, overlap_samples: usize) -> (r: Vec<(usize, usize)>)
    ensures
        r@ == fixed_plan(total_samples as int, max_samples as int, overlap_samples as int),
        total_samples == 0 ==> r@.len() == 0,
        total_samples > 0 ==> covers_in_order(r@, total_samples as int, max_int(max_samples as int, 1)),
        total_samples > 0 && overlap_samples == 0 ==> contiguous(r@),
{
    if total_samples == 0 {
        return Vec::new();
    }
    let max_samples = if max_samples < 1 { 1 } else { max_samples };
    if total_samples <= max_samples {
        let mut v = Vec::new();
        v.push((0usize, total_samples));
        return v;
    }
    let sub = if max_samples > overlap_samples { max_samples - overlap_samples } else { 0 };
    let step = if sub < 1 { 1 } else { sub };
    let ghost m = max_samples as int;
    let mut ranges: Vec<(usize, usize)> = Vec::new();
    let mut start: usize = 0;
    loop
        invariant_except_break
            start < total_samples,
            ranges@ + fixed_from(start as int, total_samples as int, m, step as int) == fixed_from(
                0,
                total_samples as int,
                m,
                step as int,
            ),
            ranges@.len() == 0 ==> start == 0,
            ranges@.len() > 0 ==> start <= ranges@.last().1 && ranges@.last().0 < start,
            ranges@.len() > 0 ==> ranges@.last().1 < total_samples,
            ranges@.len() > 0 && overlap_samples == 0 ==> ranges@.last().1 == start,
        invariant
            1 <= step <= max_samples == m,
            total_samples > max_samples,
            overlap_samples == 0 ==> step == max_samples,
            ranges@.len() > 0 ==> ranges@[0].0 == 0,
            forall|i: int| 0 <= i < ranges@.len() ==> #[trigger] ranges@[i].0 < ranges@[i].1 && ranges@[i].1 - ranges@[i].0 <= m,
            forall|i: int| 0 <= i < ranges@.len() - 1 ==> #[trigger] ranges@[i + 1].0 <= ranges@[i].1 && ranges@[i].0 < ranges@[i + 1].0,
            overlap_samples == 0 ==> contiguous(ranges@),
        ensures
            ranges@ == fixed_from(0, total_samples as int, m, step as int),
            ranges@.len() >= 1,
            ranges@[0].0 == 0,
            ranges@.last().1 == total_samples,
        decreases total_samples - start,
    {
        let end = if max_samples > total_samples - start { total_samples } else { start + max_samples };
        let ghost before = ranges@;
        ranges.push((start, end));
        assert(ranges@[ranges@.len() - 1] == (start, end));
        if end >= total_samples {
            assert(ranges@ =~= before + fixed_from(start as int, total_samples as int, m, step as int));
            break;
        }
        assert(ranges@ + fixed_from((start + step) as int, total_samples as int, m, step as int) =~= before
            + fixed_from(start as int, total_samples as int, m, step as int));
        // `end < total_samples`, so `end == start + max_samples` and the next
        // start `start + step` stays below `end`.
        start = start + step;
    }
    proof {
        assert(fixed_plan(total_samples as int, max_samples as int, overlap_samples as int) == fixed_from(0, total_samples as int, m, step as int));
    }
    ranges
}

/// The cut the energy planner makes in the window starting at `start`:
/// the probe's answer (or the hard end) clamped to
/// `[start + min_seg, start + max]`, pushed to the hard end if it would not
/// advance.
pub open spec fn energy_cut(start: int, maxs: int, min_seg: int, found: Option<usize>) -> int {
    let hard_end = start + maxs;
    let earliest = min_int(start + min_seg, hard_end);
    let raw = match found {
        Some(c) => c as int,
        None => hard_end,
    };
    let cut = if raw < earliest {
        earliest
    } else if raw > hard_end {
        hard_end
    } else {
        raw
    };
    if cut <= start {
        hard_end
    } else {
        cut
    }
}

/// The window `[from, to)` in which the energy planner searches for a quiet
/// cut for the segment starting at `start`.
pub open spec fn search_window(start: int, maxs: int, tail: int, min_seg: int) -> (int, int) {
    let hard_end = start + maxs;
    let earliest = min_int(start + min_seg, hard_end);
    let back = if hard_end >= tail {
        hard_end - tail
    } else {
        0
    };
    (max_int(back, earliest), hard_end)
}

/// Every cut position the probe can answer lies in the window it was asked
/// about (`[from, to]`), as the quietest-window search guarantees.
pub open spec fn probe_in_window<F: Fn(usize, usize, usize) -> Option<usize>>(find_cut: F) -> bool {
    forall|a: usize, b: usize, c: usize, x: usize|
        #[trigger] call_ensures(find_cut, (a, b, c), Some(x)) ==> a <= x <= b
}

/// Samples in the RMS window the probe measures: [`ENERGY_WINDOW_MS`] at the
/// sample rate.
pub open spec fn energy_window() -> usize {
    (ENERGY_WINDOW_MS * 16) as usize
}

/// `range` ends at the cut derived from one of the probe's possible answers,
/// asked with a window of [`energy_window`] samples
/// for the search window of the segment starting at `range.0`.
pub open spec fn cut_from_probe<F: Fn(usize, usize, usize) -> Option<usize>>(
    find_cut: F,
    range: (usize, usize),
    maxs: int,
    tail: int,
    min_seg: int,
) -> bool {
    exists|found: Option<usize>|
        #[trigger] call_ensures(
            find_cut,
            (search_window(range.0 as int, maxs, tail, min_seg).0 as usize, (range.0 + maxs) as usize, energy_window()),
            found,
        ) && range.1 == energy_cut(range.0 as int, maxs, min_seg, found)
}

/// Plan non-overlapping ranges of at most `max_samples`, preferring to cut
/// where `find_cut(from, to, window)` reports the quietest short window near
/// each max boundary, so words are less often sliced mid-utterance.
///
/// Every range but the last ends at the cut `energy_cut` derives from what
/// the probe answered for that range's search window.
pub fn plan_energy_aware_ranges_by<F: Fn(usize, usize, usize) -> Option<usize>>(
    total: usize,
    max_samples: usize,
    search_tail_samples: usize,
    min_segment_samples: usize,
    find_cut: F,
) -> (r: Vec<(usize, usize)>)
    requires
        forall|a: usize, b: usize, c: usize| call_requires(find_cut, (a, b, c)),
        probe_in_window(find_cut),
    ensures
        total == 0 ==> r@.len() == 0,
        total > 0 && total <= max_int(max_samples as int, 1) ==> r@ == seq![(0usize, total)],
        total > 0 ==> covers_in_order(r@, total as int, max_int(max_samples as int, 1)),
        total > 0 ==> contiguous(r@),
        forall|i: int|
            0 <= i < r@.len() - 1 ==> #[trigger] cut_from_probe(find_cut, r@[i], max_int(max_samples as int, 1), search_tail_samples as int, min_int(min_segment_samples as int, max_int(max_samples as int, 1))),
        forall|i: int|
            0 <= i < r@.len() - 1 ==> #[trigger] r@[i].0 + max_int(max_samples as int, 1) < total && r@[i].1
                - r@[i].0 >= min_int(min_segment_samples as int, max_int(max_samples as int, 1)),
        forall|i: int|
            0 <= i < r@.len() - 1 ==> #[trigger] r@[i].1 + search_tail_samples >= r@[i].0 + max_int(
                max_samples as int,
                1,
            ),
{
    if total == 0 {
        return Vec::new();
    }
    let max_samples = if max_samples < 1 { 1 } else { max_samples };
    if total <= max_samples {
        let mut v = Vec::new();
        v.push((0usize, total));
        return v;
    }
    let min_seg = if min_segment_samples < max_samples { min_segment_samples } else { max_samples };
    let w = samples_for_ms(ENERGY_WINDOW_MS);
    let window = if w < 1 { 1 } else { w };
    assert(window == energy_window());
    let ghost m = max_samples as int;
    let ghost tail = search_tail_samples as int;
    let mut ranges: Vec<(usize, usize)> = Vec::new();
    let mut start: usize = 0;
    while start < total
        invariant_except_break
            ranges@.len() == 0 ==> start == 0,
            ranges@.len() > 0 ==> start == ranges@.last().1,
            start < total,
            forall|i: int|
                0 <= i < ranges@.len() ==> #[trigger] cut_from_probe(find_cut, ranges@[i], m, tail, min_seg as int),
            forall|i: int|
                0 <= i < ranges@.len() ==> #[trigger] ranges@[i].0 + m < total && ranges@[i].1
                    - ranges@[i].0 >= min_seg,
            forall|i: int|
                0 <= i < ranges@.len() ==> #[trigger] ranges@[i].1 + tail >= ranges@[i].0 + m,
        invariant
            1 <= max_samples == m < total,
            probe_in_window(find_cut),
            window == energy_window(),
            tail == search_tail_samples as int,
            min_seg <= max_samples,
            ranges@.len() > 0 ==> ranges@[0].0 == 0,
            forall|i: int| 0 <= i < ranges@.len() ==> #[trigger] ranges@[i].0 < ranges@[i].1 && ranges@[i].1 - ranges@[i].0 <= m,
            forall|i: int| 0 <= i < ranges@.len() - 1 ==> #[trigger] ranges@[i + 1].0 <= ranges@[i].1 && ranges@[i].0 < ranges@[i + 1].0,
            contiguous(ranges@),
            forall|i: int| 0 <= i < ranges@.len() ==> #[trigger] ranges@[i].1 <= total,
            forall|a: usize, b: usize, c: usize| call_requires(find_cut, (a, b, c)),
        ensures
            ranges@.len() >= 1,
            ranges@[0].0 == 0,
            ranges@.last().1 == total,
            forall|i: int|
                0 <= i < ranges@.len() - 1 ==> #[trigger] cut_from_probe(find_cut, ranges@[i], m, tail, min_seg as int),
            forall|i: int|
                0 <= i < ranges@.len() - 1 ==> #[trigger] ranges@[i].0 + m < total && ranges@[i].1
                    - ranges@[i].0 >= min_seg,
            forall|i: int|
                0 <= i < ranges@.len() - 1 ==> #[trigger] ranges@[i].1 + tail >= ranges@[i].0 + m,
        decreases total - start,
    {
        let remaining = total - start;
        let ghost before = ranges@;
        if remaining <= max_samples {
            ranges.push((start, total));
            assert(ranges@[ranges@.len() - 1] == (start, total));
            assert forall|i: int| 0 <= i < ranges@.len() - 1 implies #[trigger] cut_from_probe(find_cut, ranges@[i], m, tail, min_seg as int) by {
                assert(ranges@[i] == before[i]);
            }
            assert forall|i: int| 0 <= i < ranges@.len() - 1 implies #[trigger] ranges@[i].0 + m < total
                && ranges@[i].1 - ranges@[i].0 >= min_seg by {
                assert(ranges@[i] == before[i]);
            }
            proof {
                if probe_in_window(find_cut) {
                    assert forall|i: int| 0 <= i < ranges@.len() - 1 implies #[trigger] ranges@[i].1 + tail >= ranges@[i].0 + m by {
                        assert(ranges@[i] == before[i]);
                    }
                }
            }
            break;
        }
        let hard_end = start + max_samples;
        // Search for a quiet cut in [hard_end - search_tail, hard_end], keeping
        // the segment at least min_segment_samples long when possible.
        let earliest_cut = if min_seg < hard_end - start { start + min_seg } else { hard_end };
        let back = if hard_end >= search_tail_samples { hard_end - search_tail_samples } else { 0 };
        let search_from = if back >= earliest_cut { back } else { earliest_cut };
        let found = find_cut(search_from, hard_end, window);
        let raw = match found {
            Some(c) => c,
            None => hard_end,
        };
        let clamped = if raw < earliest_cut {
            earliest_cut
        } else if raw > hard_end {
            hard_end
        } else {
            raw
        };
        // Ensure forward progress even on degenerate energy.
        let cut = if clamped <= start { hard_end } else { clamped };
        assert(cut == energy_cut(start as int, m, min_seg as int, found));
        assert(earliest_cut == min_int(start + min_seg, hard_end as int));
        assert(back == (if hard_end >= tail { hard_end - tail } else { 0 }));
        assert(search_from == search_window(start as int, m, tail, min_seg as int).0);
        proof {
            if probe_in_window(find_cut) {
                if let Some(c) = found {
                    assert(call_ensures(find_cut, (search_from, hard_end, window), Some(c)));
                    assert(search_from <= c <= hard_end);
                }
                assert(cut + tail >= start + m);
            }
        }
        ranges.push((start, cut));
        assert(ranges@[ranges@.len() - 1] == (start, cut));
        assert forall|i: int| 0 <= i < ranges@.len() implies #[trigger] ranges@[i].0 + m < total
            && ranges@[i].1 - ranges@[i].0 >= min_seg by {
            if i < before.len() {
                assert(ranges@[i] == before[i]);
            }
        }
        proof {
            if probe_in_window(find_cut) {
                assert forall|i: int| 0 <= i < ranges@.len() implies #[trigger] ranges@[i].1 + tail >= ranges@[i].0 + m by {
                    if i < before.len() {
                        assert(ranges@[i] == before[i]);
                    }
                }
            }
        }
        assert forall|i: int| 0 <= i < ranges@.len() implies #[trigger] cut_from_probe(find_cut, ranges@[i], m, tail, min_seg as int) by {
            if i < before.len() {
                assert(ranges@[i] == before[i]);
            } else {
                assert(ranges@[i] == (start, cut));
                assert(call_ensures(find_cut, (search_window(ranges@[i].0 as int, m, tail, min_seg as int).0 as usize, (ranges@[i].0 + m) as usize, window), found));
            }
        }
        start = cut;
    }
    ranges
}

/// Expanded start of range `i` under `apply_leading_overlap`.
pub open spec fn led_start(r: Seq<(usize, usize)>, ov: int, i: int) -> int
    decreases i,
{
    if i <= 0 {
        r[0].0 as int
    } else {
        let s = r[i].0 as int;
        let expanded = if s >= ov {
            s - ov
        } else {
            0
        };
        let prev = led_start(r, ov, i - 1);
        let next = if prev >= usize::MAX {
            prev
        } else {
            prev + 1
        };
        min_int(max_int(expanded, next), s)
    }
}

/// `ranges` with every start after the first moved `ov` samples earlier,
/// clamped to stay after the previous (expanded) start.
pub open spec fn leading_overlap(r: Seq<(usize, usize)>, ov: int) -> Seq<(usize, usize)> {
    if ov == 0 || r.len() <= 1 {
        r
    } else {
        Seq::new(r.len(), |i: int| (led_start(r, ov, i) as usize, r[i].1))
    }
}

pub proof fn lemma_led_start_bounds(r: Seq<(usize, usize)>, ov: int, i: int)
    requires
        0 <= i < r.len(),
        ov >= 0,
    ensures
        0 <= led_start(r, ov, i) <= r[i].0,
        led_start(r, ov, i) >= r[i].0 - ov,
    decreases i,
{
    if i > 0 {
        lemma_led_start_bounds(r, ov, i - 1);
    }
}

/// Expand non-overlapping cuts so segment *i > 0* starts `overlap_samples`
/// before its cut (clamped to 0 and to strictly after the previous start).
pub fn apply_leading_overlap(ranges: Vec<(usize, usize)>, overlap_samples: usize) -> (r: Vec<(usize, usize)>)
    ensures
        r@ == leading_overlap(ranges@, overlap_samples as int),
        r@.len() == ranges@.len(),
        forall|i: int| 0 <= i < r@.len() ==> #[trigger] r@[i].1 == ranges@[i].1 && r@[i].0 <= ranges@[i].0
            && r@[i].0 + overlap_samples >= ranges@[i].0,
        r@.len() > 0 ==> r@[0] == ranges@[0],
{
    if overlap_samples == 0 || ranges.len() <= 1 {
        return ranges;
    }
    let ghost ov = overlap_samples as int;
    let mut out: Vec<(usize, usize)> = Vec::new();
    let mut i: usize = 0;
    while i < ranges.len()
        invariant
            i <= ranges@.len(),
            ov == overlap_samples as int,
            out@.len() == i,
            forall|k: int| 0 <= k < i ==> #[trigger] out@[k] == (led_start(ranges@, ov, k) as usize, ranges@[k].1),
        decreases ranges@.len() - i,
    {
        let (start, end) = ranges[i];
        if i == 0 {
            out.push((start, end));
        } else {
            let prev_start = out[i - 1].0;
            proof {
                lemma_led_start_bounds(ranges@, ov, i - 1);
            }
            let expanded = if start >= overlap_samples { start - overlap_samples } else { 0 };
            let next = if prev_start == usize::MAX { prev_start } else { prev_start + 1 };
            let widened = if expanded >= next { expanded } else { next };
            // Keep strict forward progress vs the previous start; overlapping
            // the previous end is intended (the boundary is double-covered).
            let new_start = if widened <= start { widened } else { start };
            out.push((new_start, end));
        }
        i = i + 1;
    }
    proof {
        assert(out@ =~= leading_overlap(ranges@, ov));
        assert forall|k: int| 0 <= k < out@.len() implies #[trigger] out@[k].1 == ranges@[k].1 && out@[k].0 <= ranges@[k].0
            && out@[k].0 + overlap_samples >= ranges@[k].0 by {
            lemma_led_start_bounds(ranges@, ov, k);
        }
    }
    out
}

/// With strictly increasing input starts, expanded starts stay strictly
/// increasing; a contiguous tiling becomes one whose neighbours overlap by at
/// most `ov` samples and never leave a gap.
pub proof fn lemma_leading_overlap_progress(r: Seq<(usize, usize)>, ov: int)
    requires
        ov >= 0,
        forall|i: int| 0 <= i < r.len() - 1 ==> #[trigger] r[i].0 < r[i + 1].0,
    ensures
        forall|i: int| 0 <= i < r.len() - 1 ==> #[trigger] leading_overlap(r, ov)[i].0 < leading_overlap(r, ov)[i + 1].0,
        contiguous(r) ==> forall|i: int| 0 <= i < r.len() - 1 ==> #[trigger] leading_overlap(r, ov)[i + 1].0 <= leading_overlap(r, ov)[i].1
            && leading_overlap(r, ov)[i].1 - leading_overlap(r, ov)[i + 1].0 <= ov,
{
    if ov != 0 && r.len() > 1 {
        assert forall|i: int| 0 <= i < r.len() - 1 implies #[trigger] leading_overlap(r, ov)[i].0 < leading_overlap(r, ov)[i + 1].0 by {
            lemma_led_start_bounds(r, ov, i);
            lemma_led_start_bounds(r, ov, i + 1);
        }
        if contiguous(r) {
            assert forall|i: int| 0 <= i < r.len() - 1 implies #[trigger] leading_overlap(r, ov)[i + 1].0 <= leading_overlap(r, ov)[i].1
                && leading_overlap(r, ov)[i].1 - leading_overlap(r, ov)[i + 1].0 <= ov by {
                lemma_led_start_bounds(r, ov, i + 1);
            }
        }
    }
}


/// Production planner: energy-aware, non-overlapping cuts of at most
/// `max(max_audio_ms, 1000)` ms, then each later range starts
/// [`DEFAULT_OVERLAP_MS`] earlier so boundary phonemes are covered twice.
pub fn plan_ranges_for_max_ms_by<F: Fn(usize, usize, usize) -> Option<usize>>(
    total: usize,
    max_audio_ms: u64,
    find_cut: F,
) -> (r: Vec<(usize, usize)>)
    requires
        max_audio_ms * SAMPLE_RATE_HZ <= u64::MAX,
        max_audio_ms * 16 <= usize::MAX,
        forall|a: usize, b: usize, c: usize| call_requires(find_cut, (a, b, c)),
        probe_in_window(find_cut),
    ensures
        exists|base: Seq<(usize, usize)>|
            {
                &&& total == 0 ==> base.len() == 0
                &&& total > 0 ==> covers_in_order(base, total as int, max_window_samples(max_audio_ms))
                &&& total > 0 ==> contiguous(base)
                &&& forall|i: int|
                    0 <= i < base.len() - 1 ==> #[trigger] cut_from_probe(find_cut, base[i], max_window_samples(max_audio_ms), DEFAULT_BOUNDARY_SEARCH_MS * 16, min_int(DEFAULT_MIN_SEGMENT_MS * 16, max_window_samples(max_audio_ms)))
                &&& forall|i: int|
                    0 <= i < base.len() - 1 ==> #[trigger] base[i].0 + max_window_samples(max_audio_ms) < total
                        && base[i].1 - base[i].0 >= min_int(DEFAULT_MIN_SEGMENT_MS * 16, max_window_samples(max_audio_ms))
                        && base[i].1 + DEFAULT_BOUNDARY_SEARCH_MS * 16 >= base[i].0 + max_window_samples(max_audio_ms)
                &&& r@ == leading_overlap(base, DEFAULT_OVERLAP_MS * 16)
            },
        total == 0 ==> r@.len() == 0,
        total > 0 ==> {
            &&& r@.len() >= 1
            &&& r@[0].0 == 0
            &&& r@.last().1 == total
            &&& forall|i: int| 0 <= i < r@.len() ==> #[trigger] r@[i].0 < r@[i].1
                && r@[i].1 - r@[i].0 <= max_window_samples(max_audio_ms) + DEFAULT_OVERLAP_MS * 16
            &&& forall|i: int| 0 <= i < r@.len() - 1 ==> #[trigger] r@[i].0 < r@[i + 1].0
                && r@[i + 1].0 < r@[i].1 && r@[i].1 - r@[i + 1].0 <= DEFAULT_OVERLAP_MS * 16
        },
{
    let ms = if max_audio_ms < 1_000 { 1_000 } else { max_audio_ms };
    let max_samples = samples_for_ms(ms);
    let search_tail = samples_for_ms(DEFAULT_BOUNDARY_SEARCH_MS);
    let min_seg = samples_for_ms(DEFAULT_MIN_SEGMENT_MS);
    let overlap = samples_for_ms(DEFAULT_OVERLAP_MS);
    assert(max_samples == max_window_samples(max_audio_ms));
    assert(search_tail == DEFAULT_BOUNDARY_SEARCH_MS * 16);
    assert(min_seg == DEFAULT_MIN_SEGMENT_MS * 16);
    assert(overlap == DEFAULT_OVERLAP_MS * 16);
    let base = plan_energy_aware_ranges_by(total, max_samples, search_tail, min_seg, find_cut);
    let ghost b = base@;
    let r = apply_leading_overlap(base, overlap);
    proof {
        if total > 0 {
            lemma_overlapped_tiling(b, total as int, max_samples as int, overlap as int);
            if b.len() > 1 {
                lemma_strict_overlap(b, total as int, max_samples as int, overlap as int);
            }
        }
        assert(r@ == leading_overlap(b, DEFAULT_OVERLAP_MS * 16));
        assert(max_int(max_samples as int, 1) == max_window_samples(max_audio_ms));
        assert(forall|i: int|
            0 <= i < b.len() - 1 ==> #[trigger] cut_from_probe(find_cut, b[i], max_window_samples(max_audio_ms), DEFAULT_BOUNDARY_SEARCH_MS * 16, min_int(DEFAULT_MIN_SEGMENT_MS * 16, max_window_samples(max_audio_ms))));
    }
    r
}

/// When every window but the last has at least two samples, each later
/// window of `leading_overlap(ov)` (with `ov > 0`) starts strictly before
/// the previous one ends: every boundary is covered twice.
pub proof fn lemma_strict_overlap(b: Seq<(usize, usize)>, total: int, maxw: int, ov: int)
    requires
        ov > 0,
        b.len() > 1,
        covers_in_order(b, total, maxw),
        contiguous(b),
        forall|i: int| 0 <= i < b.len() - 1 ==> (#[trigger] b[i]).1 - b[i].0 >= 2,
    ensures
        forall|i: int| 0 <= i < b.len() - 1 ==> #[trigger] leading_overlap(b, ov)[i + 1].0 < leading_overlap(b, ov)[i].1,
{
    assert forall|i: int| 0 <= i < b.len() - 1 implies #[trigger] leading_overlap(b, ov)[i + 1].0 < leading_overlap(b, ov)[i].1 by {
        lemma_led_start_bounds(b, ov, i);
        assert(b[i].1 == b[i + 1].0);
        assert(b[i].0 < b[i].1);
        assert(b[i].1 - b[i].0 >= 2);
        assert(leading_overlap(b, ov)[i] == (led_start(b, ov, i) as usize, b[i].1));
        assert(leading_overlap(b, ov)[i + 1] == (led_start(b, ov, i + 1) as usize, b[i + 1].1));
    }
}

/// A contiguous in-order tiling with windows of at most `maxw` samples,
/// after `leading_overlap(ov)`: still starts at 0 and ends at `total`, every
/// window has at most `maxw + ov` samples, starts strictly increase, and
/// neighbours overlap by at most `ov` samples without gaps.
pub proof fn lemma_overlapped_tiling(b: Seq<(usize, usize)>, total: int, maxw: int, ov: int)
    requires
        ov >= 0,
        covers_in_order(b, total, maxw),
        contiguous(b),
    ensures
        leading_overlap(b, ov).len() == b.len(),
        leading_overlap(b, ov)[0].0 == 0,
        leading_overlap(b, ov).last().1 == total,
        forall|i: int| 0 <= i < b.len() ==> #[trigger] leading_overlap(b, ov)[i].0 < leading_overlap(b, ov)[i].1
            && leading_overlap(b, ov)[i].1 - leading_overlap(b, ov)[i].0 <= maxw + ov,
        forall|i: int| 0 <= i < b.len() - 1 ==> #[trigger] leading_overlap(b, ov)[i].0 < leading_overlap(b, ov)[i + 1].0
            && leading_overlap(b, ov)[i + 1].0 <= leading_overlap(b, ov)[i].1
            && leading_overlap(b, ov)[i].1 - leading_overlap(b, ov)[i + 1].0 <= ov,
{
    let r = leading_overlap(b, ov);
    if ov != 0 && b.len() > 1 {
        assert forall|i: int| 0 <= i < b.len() implies #[trigger] r[i].0 < r[i].1 && r[i].1 - r[i].0 <= maxw + ov by {
            lemma_overlapped_window(b, total, maxw, ov, i);
        }
        assert forall|i: int| 0 <= i < b.len() - 1 implies #[trigger] r[i].0 < r[i + 1].0
            && r[i + 1].0 <= r[i].1 && r[i].1 - r[i + 1].0 <= ov by {
            lemma_overlapped_neighbours(b, total, maxw, ov, i);
        }
        lemma_led_start_bounds(b, ov, 0);
        assert(r[0].0 == 0);
        assert(r.last().1 == b.last().1);
    } else {
        assert forall|i: int| 0 <= i < b.len() - 1 implies #[trigger] r[i].0 < r[i + 1].0
            && r[i + 1].0 <= r[i].1 && r[i].1 - r[i + 1].0 <= ov by {
            assert(b[i].1 == b[i + 1].0);
            assert(b[i + 1].0 <= b[i].1 && b[i].0 < b[i + 1].0);
        }
    }
}

proof fn lemma_overlapped_window(b: Seq<(usize, usize)>, total: int, maxw: int, ov: int, i: int)
    requires
        ov > 0,
        b.len() > 1,
        0 <= i < b.len(),
        covers_in_order(b, total, maxw),
    ensures
        leading_overlap(b, ov)[i].0 < leading_overlap(b, ov)[i].1,
        leading_overlap(b, ov)[i].1 - leading_overlap(b, ov)[i].0 <= maxw + ov,
{
    lemma_led_start_bounds(b, ov, i);
    assert(b[i].0 < b[i].1 && b[i].1 - b[i].0 <= maxw);
    assert(leading_overlap(b, ov)[i] == (led_start(b, ov, i) as usize, b[i].1));
}

proof fn lemma_overlapped_neighbours(b: Seq<(usize, usize)>, total: int, maxw: int, ov: int, i: int)
    requires
        ov > 0,
        b.len() > 1,
        0 <= i < b.len() - 1,
        covers_in_order(b, total, maxw),
        contiguous(b),
    ensures
        leading_overlap(b, ov)[i].0 < leading_overlap(b, ov)[i + 1].0,
        leading_overlap(b, ov)[i + 1].0 <= leading_overlap(b, ov)[i].1,
        leading_overlap(b, ov)[i].1 - leading_overlap(b, ov)[i + 1].0 <= ov,
{
    lemma_led_start_bounds(b, ov, i);
    lemma_led_start_bounds(b, ov, i + 1);
    assert(b[i + 1].0 <= b[i].1 && b[i].0 < b[i + 1].0);
    assert(b[i].1 == b[i + 1].0);
    assert(leading_overlap(b, ov)[i] == (led_start(b, ov, i) as usize, b[i].1));
    assert(leading_overlap(b, ov)[i + 1] == (led_start(b, ov, i + 1) as usize, b[i + 1].1));
}

/// Samples per window for a requested max duration (at least one second).
pub open spec fn max_window_samples(max_audio_ms: u64) -> int {
    (if max_audio_ms < 1000 {
        1000
    } else {
        max_audio_ms as int
    }) * 16
}

// ---------------------------------------------------------------------------
// Text join
// ---------------------------------------------------------------------------

/// Longest `j` in `[2, k]` such that `p` ends with the first `j` characters of
/// `n`, or 0.
pub open spec fn overlap_k(p: Seq<char>, n: Seq<char>, k: int) -> int
    decreases k,
{
    if k < 2 {
        0
    } else if p.subrange(p.len() - k, p.len() as int) == n.take(k) {
        k
    } else {
        overlap_k(p, n, k - 1)
    }
}

/// Characters of `next` that repeat the end of `prev` (at most `max_chars`,
/// at least 2, longest first).
pub open spec fn boundary_overlap(prev: Seq<char>, next: Seq<char>, max_chars: int) -> int {
    if prev.len() == 0 || next.len() == 0 || max_chars <= 0 {
        0
    } else {
        overlap_k(prev, next, min_int(min_int(max_chars, prev.len() as int), next.len() as int))
    }
}

/// `next` without the span it shares with the end of `prev`.
pub open spec fn strip_overlap(prev: Seq<char>, next: Seq<char>, max_chars: int) -> Seq<char> {
    next.skip(boundary_overlap(prev, next, max_chars))
}

/// `overlap_k` is the longest shared span in range.
pub proof fn lemma_overlap_k_longest(p: Seq<char>, n: Seq<char>, k: int)
    requires
        k <= p.len(),
        k <= n.len(),
    ensures
        overlap_k(p, n, k) == 0 || (2 <= overlap_k(p, n, k) <= k && p.subrange(
            p.len() - overlap_k(p, n, k),
            p.len() as int,
        ) == n.take(overlap_k(p, n, k))),
        forall|j: int|
            2 <= j <= k && j > overlap_k(p, n, k) ==> #[trigger] p.subrange(p.len() - j, p.len() as int)
                != n.take(j),
    decreases k,
{
    if k >= 2 && p.subrange(p.len() - k, p.len() as int) != n.take(k) {
        lemma_overlap_k_longest(p, n, k - 1);
    }
}

/// ASCII letter or digit (`char::is_ascii_alphanumeric`).
pub open spec fn is_latin_alnum_spec(c: char) -> bool {
    ('0' <= c && c <= '9') || ('a' <= c && c <= 'z') || ('A' <= c && c <= 'Z')
}

/// A space is needed between two segments whose facing characters are both
/// Latin letters or digits.
pub open spec fn needs_space(left: Seq<char>, right: Seq<char>) -> bool {
    &&& last_non_ws(left) matches Some(a)
    &&& first_non_ws(right) matches Some(b)
    &&& is_latin_alnum_spec(a)
    &&& is_latin_alnum_spec(b)
}

/// Per-segment transcripts joined: each trimmed, blank ones skipped, the
/// boundary span shared with the text so far removed, and a space put
/// between Latin letters/digits.
pub open spec fn join_texts(parts: Seq<Seq<char>>) -> Seq<char>
    decreases parts.len(),
{
    if parts.len() == 0 {
        Seq::empty()
    } else {
        let acc = join_texts(parts.drop_last());
        let t = trim(parts.last());
        if t.len() == 0 {
            acc
        } else if acc.len() == 0 {
            t
        } else {
            let rest = strip_overlap(acc, t, DEFAULT_DEDUP_CHARS as int);
            if rest.len() == 0 {
                acc
            } else if needs_space(acc, rest) {
                acc.push(' ') + rest
            } else {
                acc + rest
            }
        }
    }
}

fn is_latin_alnum(c: char) -> (r: bool)
    ensures
        r == is_latin_alnum_spec(c),
{
    ('0' <= c && c <= '9') || ('a' <= c && c <= 'z') || ('A' <= c && c <= 'Z')
}

fn needs_inter_segment_space(left: &[char], right: &[char]) -> (r: bool)
    ensures
        r == needs_space(left@, right@),
{
    let lc = match last_non_ws_char(left) {
        Some(c) => c,
        None => return false,
    };
    let rc = match first_non_ws_char(right) {
        Some(c) => c,
        None => return false,
    };
    is_latin_alnum(lc) && is_latin_alnum(rc)
}

/// Whether `p` ends with the first `k` characters of `n`.
fn suffix_matches_prefix(p: &[char], n: &[char], k: usize) -> (r: bool)
    requires
        k <= p@.len(),
        k <= n@.len(),
    ensures
        r == (p@.subrange(p@.len() - k, p@.len() as int) == n@.take(k as int)),
{
    let off = p.len() - k;
    let mut j: usize = 0;
    while j < k
        invariant
            j <= k <= n@.len(),
            off + k == p@.len(),
            off + k == p.len(),
            forall|i: int| 0 <= i < j ==> p@[off + i] == n@[i],
        decreases k - j,
    {
        if p[off + j] != n[j] {
            assert(p@.subrange(p@.len() - k, p@.len() as int)[j as int] != n@.take(k as int)[j as int]);
            return false;
        }
        j = j + 1;
    }
    assert(p@.subrange(p@.len() - k, p@.len() as int) =~= n@.take(k as int));
    true
}

/// Length of the boundary span shared by `prev` and `next`.
fn boundary_overlap_len(prev: &[char], next: &[char], max_chars: usize) -> (r: usize)
    ensures
        r == boundary_overlap(prev@, next@, max_chars as int),
{
    if prev.len() == 0 || next.len() == 0 || max_chars == 0 {
        return 0;
    }
    let m1 = if max_chars < prev.len() { max_chars } else { prev.len() };
    let max_k = if m1 < next.len() { m1 } else { next.len() };
    // Prefer longer matches; require at least 2 chars so a single repeated
    // punctuation mark at a boundary is kept.
    let mut k = max_k;
    while k >= 2
        invariant
            k <= max_k <= prev@.len(),
            max_k <= next@.len(),
            max_k == min_int(min_int(max_chars as int, prev@.len() as int), next@.len() as int),
            overlap_k(prev@, next@, max_k as int) == overlap_k(prev@, next@, k as int),
        decreases k,
    {
        if suffix_matches_prefix(prev, next, k) {
            return k;
        }
        k = k - 1;
    }
    0
}

/// `s` after its first `k` characters (empty when `s` is shorter).
fn slice_after_chars(s: &str, k: usize) -> (r: &str)
    ensures
        k <= s@.len() ==> r@ == s@.skip(k as int),
        k > s@.len() ==> r@.len() == 0,
{
    let n = s.unicode_len();
    let k2 = if k < n { k } else { n };
    s.substring_char(k2, n)
}

/// If `prev` ends with a prefix of `next` (2 to `max_chars` characters,
/// longest first), the rest of `next` after that shared span; otherwise
/// `next`. Character-based (works for CJK).
pub fn strip_boundary_overlap<'a>(prev: &str, next: &'a str, max_chars: usize) -> (r: &'a str)
    ensures
        r@ == strip_overlap(prev@, next@, max_chars as int),
        exists|k: int|
            0 <= k <= max_chars && k <= next@.len() && r@ == next@.skip(k) && prev@.len() >= k
                && #[trigger] prev@.subrange(prev@.len() - k, prev@.len() as int) == next@.take(k),
{
    let p = chars_of(prev);
    let n = chars_of(next);
    let k = boundary_overlap_len(&p, &n, max_chars);
    proof {
        if prev@.len() > 0 && next@.len() > 0 && max_chars > 0 {
            lemma_overlap_k_longest(prev@, next@, min_int(min_int(max_chars as int, prev@.len() as int), next@.len() as int));
        }
        if k == 0 {
            assert(prev@.subrange(prev@.len() - 0, prev@.len() as int) =~= next@.take(0));
            assert(next@.skip(0) =~= next@);
        }
    }
    if k == 0 {
        next
    } else {
        slice_after_chars(next, k)
    }
}

/// Join per-segment transcriptions. Latin-adjacent segments get a space;
/// CJK / other scripts are concatenated without a separator. A boundary
/// phrase repeated by adjacent segments (from sample overlap) is kept once.
pub fn join_segment_texts(parts: &[String]) -> (r: String)
    ensures
        r@ == join_texts(views(parts@)),
{
    let mut out: Vec<char> = Vec::new();
    let mut i: usize = 0;
    while i < parts.len()
        invariant
            i <= parts@.len(),
            out@ == join_texts(views(parts@.take(i as int))),
        decreases parts@.len() - i,
    {
        let v = chars_of(parts[i].as_str());
        let t = trim_vec(&v);
        let ghost acc = out@;
        assert(views(parts@.take(i + 1)).drop_last() =~= views(parts@.take(i as int)));
        assert(views(parts@.take(i + 1)).last() == parts@[i as int]@);
        if t.len() > 0 {
            if out.len() == 0 {
                out = t;
            } else {
                let k = boundary_overlap_len(&out, &t, DEFAULT_DEDUP_CHARS);
                proof {
                    if out@.len() > 0 && t@.len() > 0 {
                        lemma_overlap_k_longest(out@, t@, min_int(min_int(DEFAULT_DEDUP_CHARS as int, out@.len() as int), t@.len() as int));
                    }
                }
                let rest = crate::text::copy_range(&t, k, t.len());
                assert(rest@ == strip_overlap(acc, t@, DEFAULT_DEDUP_CHARS as int));
                if rest.len() > 0 {
                    if needs_inter_segment_space(&out, &rest) {
                        out.push(' ');
                    }
                    let mut j: usize = 0;
                    let ghost base = out@;
                    while j < rest.len()
                        invariant
                            j <= rest@.len(),
                            out@ == base + rest@.take(j as int),
                        decreases rest@.len() - j,
                    {
                        out.push(rest[j]);
                        j = j + 1;
                        assert(out@ =~= base + rest@.take(j as int));
                    }
                    assert(rest@.take(rest@.len() as int) =~= rest@);
                }
            }
        }
        i = i + 1;
    }
    assert(parts@.take(parts@.len() as int) =~= parts@);
    string_of(&out)
}

/// Two segments that share no boundary span are joined, trimmed, with
/// exactly one space between them when the characters facing each other are
/// both ASCII letters or digits (of either case), and with nothing between
/// them otherwise.
pub proof fn lemma_join_two_segments(a: Seq<char>, b: Seq<char>)
    requires
        trim(a).len() > 0,
        trim(b).len() > 0,
        boundary_overlap(trim(a), trim(b), DEFAULT_DEDUP_CHARS as int) == 0,
    ensures
        ({
            let x = trim(a).last();
            let y = trim(b)[0];
            join_texts(seq![a, b]) == if (('0' <= x && x <= '9') || ('a' <= x && x <= 'z') || ('A'
                <= x && x <= 'Z')) && (('0' <= y && y <= '9') || ('a' <= y && y <= 'z') || ('A' <= y
                && y <= 'Z')) {
                trim(a) + seq![' '] + trim(b)
            } else {
                trim(a) + trim(b)
            }
        }),
{
    let ta = trim(a);
    let tb = trim(b);
    crate::text::lemma_trim_facts(a);
    crate::text::lemma_trim_facts(b);
    let s1 = seq![a];
    assert(s1.drop_last() =~= Seq::<Seq<char>>::empty());
    assert(join_texts(Seq::<Seq<char>>::empty()) == Seq::<char>::empty());
    assert(join_texts(s1.drop_last()) == Seq::<char>::empty());
    assert(s1.last() == a);
    assert(join_texts(s1) == ta);
    let s2 = seq![a, b];
    assert(s2.drop_last() =~= s1);
    assert(s2.last() == b);
    assert(strip_overlap(ta, tb, DEFAULT_DEDUP_CHARS as int) =~= tb);
    // The facing characters are the ends of the trimmed texts.
    assert(crate::text::tail_end(ta, ta.len() as int) == ta.len());
    assert(last_non_ws(ta) == Some(ta.last()));
    assert(crate::text::lead_end(tb, 0) == 0);
    assert(first_non_ws(tb) == Some(tb[0]));
}

} // verus!
