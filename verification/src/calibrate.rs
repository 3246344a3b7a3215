//! Calibration statistics: from several samples of the same object in its
//! different looks, derives each point's reference colour and tolerance.
//!
//! `samples[sample][point] = RGBA`. Per point and channel the min and max are
//! taken; the centre becomes the reference and half the span plus a safety
//! margin becomes the tolerance.

use vstd::prelude::*;

use crate::engine::abs_diff;
use crate::model::AlphaMode;
use crate::text::{decimal, push_decimal};

verus! {

/// Calibration advice for one sample point.
#[derive(Clone, Debug)]
pub struct PointSuggestion {
    /// Point index.
    pub index: usize,
    /// Suggested reference colour RGBA.
    pub reference: [u8; 4],
    /// Suggested RGB tolerance.
    pub tolerance: [u8; 3],
    /// Smallest value seen per channel RGBA.
    pub min_observed: [u8; 4],
    /// Largest value seen per channel RGBA.
    pub max_observed: [u8; 4],
    /// Whether alpha stays within the adaptive limit over the positive samples.
    pub alpha_stable: bool,
    /// Whether alpha is always close to fully opaque (comparing it then tells nothing).
    pub alpha_opaque: bool,
    /// Suggested alpha mode.
    pub suggested_alpha_mode: AlphaMode,
    /// Suggested alpha tolerance.
    pub alpha_tolerance: u8,
    /// Observed alpha span over the positive samples.
    pub alpha_range: u8,
    /// Number of negative samples that the suggestion would wrongly match.
    pub negative_matches: usize,
    /// Largest RGB half span: how much the colour jitters.
    pub max_half_range: u8,
    /// Quality score (0-100) from positive stability and negative separation.
    pub quality_score: u8,
    /// Whether keeping the point is advised.
    pub recommend_keep: bool,
    /// Why.
    pub quality_reason: String,
}

// ---------------------------------------------------------------- statistics

/// Smallest value of channel `c` of point `index` over the samples (255 when there are none).
#[verifier::opaque]
pub open spec fn observed_min(samples: Seq<Vec<[u8; 4]>>, index: int, c: int) -> u8
    decreases samples.len(),
{
    if samples.len() == 0 {
        255
    } else {
        let rest = observed_min(samples.drop_last(), index, c);
        let v = samples.last()@[index][c];
        if v < rest { v } else { rest }
    }
}

/// Largest value of channel `c` of point `index` over the samples (0 when there are none).
#[verifier::opaque]
pub open spec fn observed_max(samples: Seq<Vec<[u8; 4]>>, index: int, c: int) -> u8
    decreases samples.len(),
{
    if samples.len() == 0 {
        0
    } else {
        let rest = observed_max(samples.drop_last(), index, c);
        let v = samples.last()@[index][c];
        if v > rest { v } else { rest }
    }
}

/// Centre of a span, rounded down.
pub open spec fn span_center(lo: u8, hi: u8) -> u8 {
    ((lo + hi) / 2) as u8
}

/// Half of a span, rounded up.
pub open spec fn span_half(lo: u8, hi: u8) -> u8 {
    ((hi - lo + 1) / 2) as u8
}

pub open spec fn max8(a: u8, b: u8) -> u8 {
    if a >= b { a } else { b }
}

pub open spec fn suggested_reference(samples: Seq<Vec<[u8; 4]>>, index: int) -> Seq<u8> {
    Seq::new(4, |c: int| span_center(observed_min(samples, index, c), observed_max(samples, index, c)))
}

pub open spec fn channel_half(samples: Seq<Vec<[u8; 4]>>, index: int, c: int) -> u8 {
    span_half(observed_min(samples, index, c), observed_max(samples, index, c))
}

pub open spec fn suggested_tolerance(samples: Seq<Vec<[u8; 4]>>, index: int, margin: u8) -> Seq<u8> {
    Seq::new(3, |c: int| channel_half(samples, index, c).saturating_add(margin))
}

pub open spec fn max_half_spec(samples: Seq<Vec<[u8; 4]>>, index: int) -> u8 {
    max8(max8(channel_half(samples, index, 0), channel_half(samples, index, 1)), channel_half(samples, index, 2))
}

pub open spec fn alpha_range_spec(samples: Seq<Vec<[u8; 4]>>, index: int) -> u8 {
    (observed_max(samples, index, 3) - observed_min(samples, index, 3)) as u8
}

/// Alpha may jitter by `2 * margin`, kept within 8..=32.
pub open spec fn alpha_stability_limit(margin: u8) -> u8 {
    let m = if margin * 2 > u8::MAX { u8::MAX as int } else { margin * 2 };
    if m < 8 { 8 } else if m > 32 { 32 } else { m as u8 }
}

pub open spec fn alpha_stable_spec(samples: Seq<Vec<[u8; 4]>>, index: int, margin: u8) -> bool {
    alpha_range_spec(samples, index) <= alpha_stability_limit(margin)
}

pub open spec fn alpha_opaque_spec(samples: Seq<Vec<[u8; 4]>>, index: int) -> bool {
    observed_min(samples, index, 3) >= 250
}

/// Alpha is compared only when it is stable and not simply opaque.
pub open spec fn suggested_mode(samples: Seq<Vec<[u8; 4]>>, index: int, margin: u8) -> AlphaMode {
    if alpha_stable_spec(samples, index, margin) && !alpha_opaque_spec(samples, index) {
        AlphaMode::Match
    } else {
        AlphaMode::Ignore
    }
}

pub open spec fn suggested_alpha_tolerance(samples: Seq<Vec<[u8; 4]>>, index: int, margin: u8) -> u8 {
    (((alpha_range_spec(samples, index) + 1) / 2) as u8).saturating_add(margin)
}

/// A pixel matches the suggested reference and tolerances.
pub open spec fn suggestion_accepts(
    reference: Seq<u8>,
    tolerance: Seq<u8>,
    mode: AlphaMode,
    alpha_tolerance: u8,
    px: [u8; 4],
) -> bool {
    &&& abs_diff(reference[0], px[0]) <= tolerance[0]
    &&& abs_diff(reference[1], px[1]) <= tolerance[1]
    &&& abs_diff(reference[2], px[2]) <= tolerance[2]
    &&& (mode == AlphaMode::Ignore || abs_diff(reference[3], px[3]) <= alpha_tolerance)
}

/// Number of negative samples whose point `index` the suggestion accepts.
pub open spec fn negative_hits(
    negatives: Seq<Vec<[u8; 4]>>,
    index: int,
    reference: Seq<u8>,
    tolerance: Seq<u8>,
    mode: AlphaMode,
    alpha_tolerance: u8,
) -> nat
    decreases negatives.len(),
{
    if negatives.len() == 0 {
        0
    } else {
        negative_hits(negatives.drop_last(), index, reference, tolerance, mode, alpha_tolerance) + if suggestion_accepts(
            reference,
            tolerance,
            mode,
            alpha_tolerance,
            negatives.last()@[index],
        ) {
            1nat
        } else {
            0nat
        }
    }
}

pub open spec fn negative_hits_at(
    samples: Seq<Vec<[u8; 4]>>,
    negatives: Seq<Vec<[u8; 4]>>,
    index: int,
    margin: u8,
) -> nat {
    negative_hits(
        negatives,
        index,
        suggested_reference(samples, index),
        suggested_tolerance(samples, index, margin),
        suggested_mode(samples, index, margin),
        suggested_alpha_tolerance(samples, index, margin),
    )
}

/// Quality: 100 minus penalties for jitter, for negative collisions and for missing negatives.
pub open spec fn quality_spec(max_half: u8, negative_matches: nat, no_negatives: bool) -> u8 {
    let stability = if max_half * 2 <= 55 { max_half * 2 } else { 55 };
    let collisions = if (negative_matches as u16) * 45 > u16::MAX { u16::MAX as int } else { (negative_matches as u16) * 45 };
    let collision = if collisions <= 80 { collisions as int } else { 80 };
    let evidence = if no_negatives { 15int } else { 0 };
    let q = 100 - stability - collision - evidence;
    (if q >= 0 { q } else { 0 }) as u8
}

pub open spec fn reason_spec(max_half: u8, negative_matches: nat, no_negatives: bool) -> Seq<char> {
    if negative_matches > 0 {
        "命中 "@ + decimal(negative_matches) + " 张负样本，区分度不足"@
    } else if max_half > 30 {
        "正样本颜色波动过大"@
    } else if no_negatives {
        "尚无负样本，评分已降低"@
    } else {
        "正样本稳定且能区分负样本"@
    }
}

/// `s` is the suggestion for point `index`.
pub open spec fn suggestion_correct(
    s: PointSuggestion,
    samples: Seq<Vec<[u8; 4]>>,
    negatives: Seq<Vec<[u8; 4]>>,
    index: int,
    margin: u8,
) -> bool {
    let max_half = max_half_spec(samples, index);
    let hits = negative_hits_at(samples, negatives, index, margin);
    let quality = quality_spec(max_half, hits, negatives.len() == 0);
    &&& s.index == index
    &&& s.reference@ == suggested_reference(samples, index)
    &&& s.tolerance@ == suggested_tolerance(samples, index, margin)
    &&& s.min_observed@ == Seq::new(4, |c: int| observed_min(samples, index, c))
    &&& s.max_observed@ == Seq::new(4, |c: int| observed_max(samples, index, c))
    &&& s.alpha_stable == alpha_stable_spec(samples, index, margin)
    &&& s.alpha_opaque == alpha_opaque_spec(samples, index)
    &&& s.suggested_alpha_mode == suggested_mode(samples, index, margin)
    &&& s.alpha_tolerance == suggested_alpha_tolerance(samples, index, margin)
    &&& s.alpha_range == alpha_range_spec(samples, index)
    &&& s.negative_matches == hits
    &&& s.max_half_range == max_half
    &&& s.quality_score == quality
    &&& s.recommend_keep == (quality >= 60 && hits == 0 && max_half <= 30)
    &&& s.quality_reason@ == reason_spec(max_half, hits, negatives.len() == 0)
}

// ---------------------------------------------------------------- input errors

/// The first sample, from `start` on, whose point count is not `n`.
pub open spec fn first_bad_sample(samples: Seq<Vec<[u8; 4]>>, n: nat, start: int) -> Option<int>
    decreases samples.len() - start,
{
    if start < 0 || start >= samples.len() {
        None
    } else if samples[start]@.len() != n {
        Some(start)
    } else {
        first_bad_sample(samples, n, start + 1)
    }
}

pub open spec fn count_mismatch_message(kind: Seq<char>, sample: int, len: nat, n: nat) -> Seq<char> {
    kind + " "@ + decimal((sample + 1) as nat) + " 的点数量 "@ + decimal(len) + " 与配置的 "@ + decimal(n)
        + " 不一致"@
}

/// Why the samples cannot be calibrated, if they cannot.
pub open spec fn tolerance_input_error(
    samples: Seq<Vec<[u8; 4]>>,
    negatives: Seq<Vec<[u8; 4]>>,
    n: nat,
) -> Option<Seq<char>> {
    if samples.len() == 0 {
        Some("至少需要一张校准样本"@)
    } else if n == 0 {
        Some("当前组没有配置采样点"@)
    } else if first_bad_sample(samples, n, 0) is Some {
        let i = first_bad_sample(samples, n, 0)->0;
        Some(count_mismatch_message("样本"@, i, samples[i]@.len(), n))
    } else if first_bad_sample(negatives, n, 0) is Some {
        let i = first_bad_sample(negatives, n, 0)->0;
        Some(count_mismatch_message("负样本"@, i, negatives[i]@.len(), n))
    } else {
        None
    }
}


// ---------------------------------------------------------------- executable parts

fn first_bad_count(samples: &[Vec<[u8; 4]>], n: usize) -> (res: Option<usize>)
    ensures
        match res {
            None => first_bad_sample(samples@, n as nat, 0) is None,
            Some(i) => first_bad_sample(samples@, n as nat, 0) == Some(i as int) && i < samples@.len(),
        },
{
    let mut i: usize = 0;
    while i < samples.len()
        invariant
            i <= samples@.len(),
            first_bad_sample(samples@, n as nat, 0) == first_bad_sample(samples@, n as nat, i as int),
        decreases samples@.len() - i,
    {
        if samples[i].len() != n {
            return Some(i);
        }
        i = i + 1;
    }
    None
}

fn count_mismatch(kind: &str, sample: usize, len: usize, n: usize) -> (text: String)
    ensures
        text@ == count_mismatch_message(kind@, sample as int, len as nat, n as nat),
{
    let mut s = String::from_str(kind);
    s.append(" ");
    push_decimal(&mut s, sample as u128 + 1);
    s.append(" 的点数量 ");
    push_decimal(&mut s, len as u128);
    s.append(" 与配置的 ");
    push_decimal(&mut s, n as u128);
    s.append(" 不一致");
    s
}

/// Smallest and largest value of channel `c` of point `index` over the samples.
fn channel_extremes(samples: &[Vec<[u8; 4]>], index: usize, c: usize) -> (r: (u8, u8))
    requires
        c < 4,
        forall|s: int| 0 <= s < samples@.len() ==> index < (#[trigger] samples@[s])@.len(),
    ensures
        r.0 == observed_min(samples@, index as int, c as int),
        r.1 == observed_max(samples@, index as int, c as int),
{
    let mut lo: u8 = 255;
    let mut hi: u8 = 0;
    let mut i: usize = 0;
    proof {
        reveal(observed_min);
        reveal(observed_max);
    }
    while i < samples.len()
        invariant
            c < 4,
            forall|s: int| 0 <= s < samples@.len() ==> index < (#[trigger] samples@[s])@.len(),
            i <= samples@.len(),
            lo == observed_min(samples@.take(i as int), index as int, c as int),
            hi == observed_max(samples@.take(i as int), index as int, c as int),
        decreases samples@.len() - i,
    {
        proof {
            assert(samples@.take(i + 1).drop_last() =~= samples@.take(i as int));
            reveal(observed_min);
            reveal(observed_max);
        }
        let v = samples[i][index][c];
        if v < lo {
            lo = v;
        }
        if v > hi {
            hi = v;
        }
        i = i + 1;
    }
    proof {
        assert(samples@.take(samples@.len() as int) =~= samples@);
    }
    (lo, hi)
}

fn abs_diff_u8(a: u8, b: u8) -> (d: u8)
    ensures
        d == abs_diff(a, b),
{
    if a >= b { a - b } else { b - a }
}

fn accepts(reference: &[u8; 4], tolerance: &[u8; 3], mode: AlphaMode, alpha_tolerance: u8, px: &[u8; 4]) -> (ok: bool)
    ensures
        ok == suggestion_accepts(reference@, tolerance@, mode, alpha_tolerance, *px),
{
    let rgb = abs_diff_u8(reference[0], px[0]) <= tolerance[0] && abs_diff_u8(reference[1], px[1])
        <= tolerance[1] && abs_diff_u8(reference[2], px[2]) <= tolerance[2];
    let alpha = mode == AlphaMode::Ignore || abs_diff_u8(reference[3], px[3]) <= alpha_tolerance;
    rgb && alpha
}

fn count_negative_hits(
    negatives: &[Vec<[u8; 4]>],
    index: usize,
    reference: &[u8; 4],
    tolerance: &[u8; 3],
    mode: AlphaMode,
    alpha_tolerance: u8,
) -> (n: usize)
    requires
        forall|s: int| 0 <= s < negatives@.len() ==> index < (#[trigger] negatives@[s])@.len(),
    ensures
        n == negative_hits(negatives@, index as int, reference@, tolerance@, mode, alpha_tolerance),
{
    let mut n: usize = 0;
    let mut i: usize = 0;
    while i < negatives.len()
        invariant
            forall|s: int| 0 <= s < negatives@.len() ==> index < (#[trigger] negatives@[s])@.len(),
            i <= negatives@.len(),
            n <= i,
            n == negative_hits(negatives@.take(i as int), index as int, reference@, tolerance@, mode, alpha_tolerance),
        decreases negatives@.len() - i,
    {
        proof {
            assert(negatives@.take(i + 1).drop_last() =~= negatives@.take(i as int));
        }
        if accepts(reference, tolerance, mode, alpha_tolerance, &negatives[i][index]) {
            n = n + 1;
        }
        i = i + 1;
    }
    proof {
        assert(negatives@.take(negatives@.len() as int) =~= negatives@);
    }
    n
}

fn quality(max_half: u8, negative_matches: usize, no_negatives: bool) -> (q: u8)
    ensures
        q == quality_spec(max_half, negative_matches as nat, no_negatives),
{
    let doubled: u16 = max_half as u16 * 2;
    let stability: u16 = if doubled <= 55 { doubled } else { 55 };
    let truncated: u16 = #[verifier::truncate] (negative_matches as u16);
    let product: u32 = truncated as u32 * 45;
    let collisions: u16 = if product > 65535 { 65535 } else { product as u16 };
    let collision: u16 = if collisions <= 80 { collisions } else { 80 };
    let evidence: u16 = if no_negatives { 15 } else { 0 };
    let q = 100u16.saturating_sub(stability).saturating_sub(collision).saturating_sub(evidence);
    q as u8
}

fn reason(max_half: u8, negative_matches: usize, no_negatives: bool) -> (text: String)
    ensures
        text@ == reason_spec(max_half, negative_matches as nat, no_negatives),
{
    if negative_matches > 0 {
        let mut s = String::from_str("命中 ");
        push_decimal(&mut s, negative_matches as u128);
        s.append(" 张负样本，区分度不足");
        s
    } else if max_half > 30 {
        String::from_str("正样本颜色波动过大")
    } else if no_negatives {
        String::from_str("尚无负样本，评分已降低")
    } else {
        String::from_str("正样本稳定且能区分负样本")
    }
}

/// Min, max, centre and half span of channel `c` of point `index`.
fn channel_summary(samples: &[Vec<[u8; 4]>], index: usize, c: usize) -> (r: (u8, u8, u8, u8))
    requires
        samples@.len() > 0,
        c < 4,
        forall|k: int| 0 <= k < samples@.len() ==> index < (#[trigger] samples@[k])@.len(),
    ensures
        r.0 == observed_min(samples@, index as int, c as int),
        r.1 == observed_max(samples@, index as int, c as int),
        r.2 == span_center(r.0, r.1),
        r.3 == span_half(r.0, r.1),
        r.0 <= r.1,
{
    let (lo, hi) = channel_extremes(samples, index, c);
    proof {
        lemma_min_le_max(samples@, index as int, c as int);
    }
    let center = ((lo as u16 + hi as u16) / 2) as u8;
    let half = (((hi - lo) as u16 + 1) / 2) as u8;
    (lo, hi, center, half)
}

#[verifier::spinoff_prover]
#[verifier::rlimit(40)]
fn suggest_point(samples: &[Vec<[u8; 4]>], negatives: &[Vec<[u8; 4]>], index: usize, margin: u8) -> (s: PointSuggestion)
    requires
        samples@.len() > 0,
        forall|k: int| 0 <= k < samples@.len() ==> index < (#[trigger] samples@[k])@.len(),
        forall|k: int| 0 <= k < negatives@.len() ==> index < (#[trigger] negatives@[k])@.len(),
    ensures
        suggestion_correct(s, samples@, negatives@, index as int, margin),
{
    let (lo0, hi0, c0, h0) = channel_summary(samples, index, 0);
    let (lo1, hi1, c1, h1) = channel_summary(samples, index, 1);
    let (lo2, hi2, c2, h2) = channel_summary(samples, index, 2);
    let (lo3, hi3, c3, _h3) = channel_summary(samples, index, 3);
    let reference = [c0, c1, c2, c3];
    let tolerance = [h0.saturating_add(margin), h1.saturating_add(margin), h2.saturating_add(margin)];
    let mut max_half = h0;
    if h1 > max_half {
        max_half = h1;
    }
    if h2 > max_half {
        max_half = h2;
    }
    let alpha_range: u8 = hi3 - lo3;
    let doubled: u16 = margin as u16 * 2;
    let m: u8 = if doubled > 255 { 255 } else { doubled as u8 };
    let limit: u8 = if m < 8 { 8 } else if m > 32 { 32 } else { m };
    let alpha_stable = alpha_range <= limit;
    let alpha_opaque = lo3 >= 250;
    let mode = if alpha_stable && !alpha_opaque { AlphaMode::Match } else { AlphaMode::Ignore };
    let alpha_half: u8 = ((alpha_range as u16 + 1) / 2) as u8;
    let alpha_tolerance = alpha_half.saturating_add(margin);
    proof {
        assert(reference@ =~= suggested_reference(samples@, index as int));
        assert(tolerance@ =~= suggested_tolerance(samples@, index as int, margin));
        assert(max_half == max_half_spec(samples@, index as int));
        assert(limit == alpha_stability_limit(margin));
    }
    let negative_matches = count_negative_hits(negatives, index, &reference, &tolerance, mode, alpha_tolerance);
    let no_negatives = negatives.len() == 0;
    let quality_score = quality(max_half, negative_matches, no_negatives);
    let recommend_keep = quality_score >= 60 && negative_matches == 0 && max_half <= 30;
    let quality_reason = reason(max_half, negative_matches, no_negatives);
    let min_observed = [lo0, lo1, lo2, lo3];
    let max_observed = [hi0, hi1, hi2, hi3];
    proof {
        assert(min_observed@ =~= Seq::new(4, |c: int| observed_min(samples@, index as int, c)));
        assert(max_observed@ =~= Seq::new(4, |c: int| observed_max(samples@, index as int, c)));
    }
    PointSuggestion {
        index,
        reference,
        tolerance,
        min_observed,
        max_observed,
        alpha_stable,
        alpha_opaque,
        suggested_alpha_mode: mode,
        alpha_tolerance,
        alpha_range,
        negative_matches,
        max_half_range: max_half,
        quality_score,
        recommend_keep,
        quality_reason,
    }
}

proof fn lemma_min_le_max(samples: Seq<Vec<[u8; 4]>>, index: int, c: int)
    requires
        samples.len() > 0,
    ensures
        observed_min(samples, index, c) <= observed_max(samples, index, c),
    decreases samples.len(),
{
    reveal(observed_min);
    reveal(observed_max);
    if samples.len() > 1 {
        lemma_min_le_max(samples.drop_last(), index, c);
    }
}

/// Derives each point's reference colour and tolerance from several samples.
///
/// `samples[sample][point] = RGBA`; every sample must hold `points_per_sample` points.
/// `margin` is added to the half span to absorb lighting and animation jitter.
pub fn suggest_tolerances(
    samples: &[Vec<[u8; 4]>],
    negative_samples: &[Vec<[u8; 4]>],
    points_per_sample: usize,
    margin: u8,
) -> (res: Result<Vec<PointSuggestion>, String>)
    ensures
        tolerance_input_error(samples@, negative_samples@, points_per_sample as nat) is None <==> res is Ok,
        res matches Err(text) ==> Some(text@) == tolerance_input_error(
            samples@,
            negative_samples@,
            points_per_sample as nat,
        ),
        res matches Ok(sugs) ==> {
            &&& sugs@.len() == points_per_sample
            &&& forall|i: int|
                0 <= i < points_per_sample ==> #[trigger] suggestion_correct(
                    sugs@[i],
                    samples@,
                    negative_samples@,
                    i,
                    margin,
                )
        },
{
    if samples.len() == 0 {
        return Err(String::from_str("至少需要一张校准样本"));
    }
    if points_per_sample == 0 {
        return Err(String::from_str("当前组没有配置采样点"));
    }
    match first_bad_count(samples, points_per_sample) {
        Some(i) => {
            return Err(count_mismatch("样本", i, samples[i].len(), points_per_sample));
        },
        None => {},
    }
    match first_bad_count(negative_samples, points_per_sample) {
        Some(i) => {
            return Err(count_mismatch("负样本", i, negative_samples[i].len(), points_per_sample));
        },
        None => {},
    }
    proof {
        lemma_no_bad_sample(samples@, points_per_sample as nat, 0);
        lemma_no_bad_sample(negative_samples@, points_per_sample as nat, 0);
    }
    let mut suggestions: Vec<PointSuggestion> = Vec::new();
    let mut index: usize = 0;
    while index < points_per_sample
        invariant
            samples@.len() > 0,
            forall|k: int| 0 <= k < samples@.len() ==> (#[trigger] samples@[k])@.len() == points_per_sample,
            forall|k: int| 0 <= k < negative_samples@.len() ==> (#[trigger] negative_samples@[k])@.len()
                == points_per_sample,
            index <= points_per_sample,
            suggestions@.len() == index,
            forall|i: int|
                0 <= i < index ==> #[trigger] suggestion_correct(suggestions@[i], samples@, negative_samples@, i, margin),
        decreases points_per_sample - index,
    {
        let s = suggest_point(samples, negative_samples, index, margin);
        suggestions.push(s);
        index = index + 1;
    }
    Ok(suggestions)
}

proof fn lemma_no_bad_sample(samples: Seq<Vec<[u8; 4]>>, n: nat, start: int)
    requires
        0 <= start,
        first_bad_sample(samples, n, start) is None,
    ensures
        forall|k: int| start <= k < samples.len() ==> (#[trigger] samples[k])@.len() == n,
    decreases samples.len() - start,
{
    if start < samples.len() {
        lemma_no_bad_sample(samples, n, start + 1);
    }
}


proof fn lemma_sample_within_extremes(samples: Seq<Vec<[u8; 4]>>, index: int, c: int, k: int)
    requires
        0 <= k < samples.len(),
    ensures
        observed_min(samples, index, c) <= samples[k]@[index][c] <= observed_max(samples, index, c),
    decreases samples.len(),
{
    reveal(observed_min);
    reveal(observed_max);
    if k < samples.len() - 1 {
        lemma_sample_within_extremes(samples.drop_last(), index, c, k);
    }
}

proof fn lemma_channel_accepts(samples: Seq<Vec<[u8; 4]>>, index: int, c: int, k: int, margin: u8)
    requires
        0 <= k < samples.len(),
    ensures
        abs_diff(
            span_center(observed_min(samples, index, c), observed_max(samples, index, c)),
            samples[k]@[index][c],
        ) <= span_half(observed_min(samples, index, c), observed_max(samples, index, c)),
{
    lemma_sample_within_extremes(samples, index, c, k);
}

/// Law: the suggestion for a point accepts that point in every positive sample it was
/// derived from (RGB within tolerance, and alpha too when alpha is compared).
pub proof fn suggestion_accepts_every_positive(
    s: PointSuggestion,
    samples: Seq<Vec<[u8; 4]>>,
    negatives: Seq<Vec<[u8; 4]>>,
    index: int,
    margin: u8,
    k: int,
)
    requires
        suggestion_correct(s, samples, negatives, index, margin),
        0 <= k < samples.len(),
    ensures
        suggestion_accepts(s.reference@, s.tolerance@, s.suggested_alpha_mode, s.alpha_tolerance, samples[k]@[index]),
{
    lemma_channel_accepts(samples, index, 0, k, margin);
    lemma_channel_accepts(samples, index, 1, k, margin);
    lemma_channel_accepts(samples, index, 2, k, margin);
    lemma_channel_accepts(samples, index, 3, k, margin);
    lemma_sample_within_extremes(samples, index, 3, k);
}

proof fn lemma_no_hits(
    negatives: Seq<Vec<[u8; 4]>>,
    index: int,
    reference: Seq<u8>,
    tolerance: Seq<u8>,
    mode: AlphaMode,
    alpha_tolerance: u8,
    k: int,
)
    requires
        negative_hits(negatives, index, reference, tolerance, mode, alpha_tolerance) == 0,
        0 <= k < negatives.len(),
    ensures
        !suggestion_accepts(reference, tolerance, mode, alpha_tolerance, negatives[k]@[index]),
    decreases negatives.len(),
{
    if k < negatives.len() - 1 {
        lemma_no_hits(negatives.drop_last(), index, reference, tolerance, mode, alpha_tolerance, k);
    }
}

/// Law: a point whose suggestion is recommended to keep matches no negative sample.
pub proof fn recommended_point_rejects_every_negative(
    s: PointSuggestion,
    samples: Seq<Vec<[u8; 4]>>,
    negatives: Seq<Vec<[u8; 4]>>,
    index: int,
    margin: u8,
    k: int,
)
    requires
        suggestion_correct(s, samples, negatives, index, margin),
        s.recommend_keep,
        0 <= k < negatives.len(),
    ensures
        !suggestion_accepts(s.reference@, s.tolerance@, s.suggested_alpha_mode, s.alpha_tolerance, negatives[k]@[index]),
{
    lemma_no_hits(negatives, index, s.reference@, s.tolerance@, s.suggested_alpha_mode, s.alpha_tolerance, k);
}

// ---------------------------------------------------------------- sample order

proof fn lemma_extremes_attained(samples: Seq<Vec<[u8; 4]>>, index: int, c: int)
    requires
        samples.len() > 0,
    ensures
        exists|k: int| 0 <= k < samples.len() && observed_min(samples, index, c) == (#[trigger] samples[k])@[index][c],
        exists|k: int| 0 <= k < samples.len() && observed_max(samples, index, c) == (#[trigger] samples[k])@[index][c],
    decreases samples.len(),
{
    reveal(observed_min);
    reveal(observed_max);
    let last = samples.len() - 1;
    assert(samples.last() == samples[last]);
    let rest = samples.drop_last();
    if samples.len() > 1 {
        lemma_extremes_attained(rest, index, c);
        let k1 = choose|k: int| 0 <= k < rest.len() && observed_min(rest, index, c) == (#[trigger] rest[k])@[index][c];
        let k2 = choose|k: int| 0 <= k < rest.len() && observed_max(rest, index, c) == (#[trigger] rest[k])@[index][c];
        assert(rest[k1] == samples[k1]);
        assert(rest[k2] == samples[k2]);
        if samples[last]@[index][c] < observed_min(rest, index, c) {
            assert(observed_min(samples, index, c) == samples[last]@[index][c]);
        } else {
            assert(observed_min(samples, index, c) == samples[k1]@[index][c]);
        }
        if samples[last]@[index][c] > observed_max(rest, index, c) {
            assert(observed_max(samples, index, c) == samples[last]@[index][c]);
        } else {
            assert(observed_max(samples, index, c) == samples[k2]@[index][c]);
        }
    } else {
        assert(observed_min(rest, index, c) == 255);
        assert(observed_max(rest, index, c) == 0);
        assert(observed_min(samples, index, c) == samples[last]@[index][c]);
        assert(observed_max(samples, index, c) == samples[last]@[index][c]);
    }
}

/// Every element of a sequence occurs in any sequence with the same multiset of elements.
pub(crate) proof fn lemma_permuted_element<A>(s: Seq<A>, s2: Seq<A>, k: int) -> (k2: int)
    requires
        s.to_multiset() == s2.to_multiset(),
        0 <= k < s.len(),
    ensures
        0 <= k2 < s2.len(),
        s2[k2] == s[k],
{
    vstd::seq_lib::to_multiset_contains(s, s[k]);
    vstd::seq_lib::to_multiset_contains(s2, s[k]);
    assert(s.contains(s[k]));
    choose|j: int| 0 <= j < s2.len() && s2[j] == s[k]
}

proof fn lemma_extremes_permuted(samples: Seq<Vec<[u8; 4]>>, samples2: Seq<Vec<[u8; 4]>>, index: int, c: int)
    requires
        samples.len() > 0,
        samples.to_multiset() == samples2.to_multiset(),
    ensures
        observed_min(samples, index, c) == observed_min(samples2, index, c),
        observed_max(samples, index, c) == observed_max(samples2, index, c),
{
    lemma_extremes_attained(samples, index, c);
    let a1 = choose|k: int| 0 <= k < samples.len() && observed_min(samples, index, c) == (#[trigger] samples[k])@[index][c];
    let b1 = choose|k: int| 0 <= k < samples.len() && observed_max(samples, index, c) == (#[trigger] samples[k])@[index][c];
    let a2 = lemma_permuted_element(samples, samples2, a1);
    let b2 = lemma_permuted_element(samples, samples2, b1);
    lemma_sample_within_extremes(samples2, index, c, a2);
    lemma_sample_within_extremes(samples2, index, c, b2);
    assert(samples2.len() > 0);
    lemma_extremes_attained(samples2, index, c);
    let a3 = choose|k: int| 0 <= k < samples2.len() && observed_min(samples2, index, c) == (#[trigger] samples2[k])@[index][c];
    let b3 = choose|k: int| 0 <= k < samples2.len() && observed_max(samples2, index, c) == (#[trigger] samples2[k])@[index][c];
    let a4 = lemma_permuted_element(samples2, samples, a3);
    let b4 = lemma_permuted_element(samples2, samples, b3);
    lemma_sample_within_extremes(samples, index, c, a4);
    lemma_sample_within_extremes(samples, index, c, b4);
}

proof fn lemma_negative_hits_concat(
    a: Seq<Vec<[u8; 4]>>,
    b: Seq<Vec<[u8; 4]>>,
    index: int,
    reference: Seq<u8>,
    tolerance: Seq<u8>,
    mode: AlphaMode,
    alpha_tolerance: u8,
)
    ensures
        negative_hits(a + b, index, reference, tolerance, mode, alpha_tolerance) == negative_hits(
            a,
            index,
            reference,
            tolerance,
            mode,
            alpha_tolerance,
        ) + negative_hits(b, index, reference, tolerance, mode, alpha_tolerance),
    decreases b.len(),
{
    if b.len() == 0 {
        assert(a + b =~= a);
    } else {
        lemma_negative_hits_concat(a, b.drop_last(), index, reference, tolerance, mode, alpha_tolerance);
        assert((a + b).drop_last() =~= a + b.drop_last());
        assert((a + b).last() == b.last());
    }
}

proof fn lemma_negative_hits_permuted(
    negatives: Seq<Vec<[u8; 4]>>,
    negatives2: Seq<Vec<[u8; 4]>>,
    index: int,
    reference: Seq<u8>,
    tolerance: Seq<u8>,
    mode: AlphaMode,
    alpha_tolerance: u8,
)
    requires
        negatives.to_multiset() == negatives2.to_multiset(),
    ensures
        negative_hits(negatives, index, reference, tolerance, mode, alpha_tolerance) == negative_hits(
            negatives2,
            index,
            reference,
            tolerance,
            mode,
            alpha_tolerance,
        ),
    decreases negatives.len(),
{
    broadcast use vstd::multiset::group_multiset_axioms;

    vstd::seq_lib::to_multiset_len(negatives);
    vstd::seq_lib::to_multiset_len(negatives2);
    if negatives.len() > 0 {
        let last = negatives.len() - 1;
        let x = negatives[last];
        let rest = negatives.drop_last();
        let j = lemma_permuted_element(negatives, negatives2, last);
        let rest2 = negatives2.remove(j);
        vstd::seq_lib::to_multiset_remove(negatives2, j);
        assert(negatives =~= rest.push(x));
        vstd::seq_lib::to_multiset_build(rest, x);
        assert(rest.to_multiset() =~= negatives.to_multiset().remove(x));
        lemma_negative_hits_permuted(rest, rest2, index, reference, tolerance, mode, alpha_tolerance);
        assert(negatives.drop_last() == rest);
        assert(negatives.last() == x);
        let single = seq![x];
        assert(single.drop_last() =~= Seq::<Vec<[u8; 4]>>::empty());
        assert(single.last() == x);
        assert(negative_hits(single.drop_last(), index, reference, tolerance, mode, alpha_tolerance) == 0);
        let front = negatives2.take(j);
        let back = negatives2.skip(j + 1);
        assert(rest2 =~= front + back);
        assert(negatives2 =~= front + seq![x] + back);
        lemma_negative_hits_concat(front, back, index, reference, tolerance, mode, alpha_tolerance);
        lemma_negative_hits_concat(front, single, index, reference, tolerance, mode, alpha_tolerance);
        lemma_negative_hits_concat(front + single, back, index, reference, tolerance, mode, alpha_tolerance);
    }
}

proof fn lemma_all_counts_fit(samples: Seq<Vec<[u8; 4]>>, n: nat, start: int)
    requires
        0 <= start,
        forall|k: int| 0 <= k < samples.len() ==> (#[trigger] samples[k])@.len() == n,
    ensures
        first_bad_sample(samples, n, start) is None,
    decreases samples.len() - start,
{
    if start < samples.len() {
        lemma_all_counts_fit(samples, n, start + 1);
    }
}

/// Law: the suggestions depend on neither the order of the positive samples nor the order of
/// the negative samples. Reordering either list of a valid input keeps it valid and gives every
/// point exactly the same suggestion.
pub proof fn suggestions_ignore_sample_order(
    samples: Seq<Vec<[u8; 4]>>,
    negatives: Seq<Vec<[u8; 4]>>,
    samples2: Seq<Vec<[u8; 4]>>,
    negatives2: Seq<Vec<[u8; 4]>>,
    points_per_sample: nat,
    margin: u8,
)
    requires
        tolerance_input_error(samples, negatives, points_per_sample) is None,
        samples2.to_multiset() == samples.to_multiset(),
        negatives2.to_multiset() == negatives.to_multiset(),
    ensures
        tolerance_input_error(samples2, negatives2, points_per_sample) is None,
        forall|s: PointSuggestion, i: int|
            0 <= i < points_per_sample ==> (suggestion_correct(s, samples, negatives, i, margin)
                <==> #[trigger] suggestion_correct(s, samples2, negatives2, i, margin)),
{
    vstd::seq_lib::to_multiset_len(samples);
    vstd::seq_lib::to_multiset_len(samples2);
    vstd::seq_lib::to_multiset_len(negatives);
    vstd::seq_lib::to_multiset_len(negatives2);
    lemma_no_bad_sample(samples, points_per_sample, 0);
    lemma_no_bad_sample(negatives, points_per_sample, 0);
    assert forall|k: int| 0 <= k < samples2.len() implies (#[trigger] samples2[k])@.len() == points_per_sample by {
        let k2 = lemma_permuted_element(samples2, samples, k);
    }
    assert forall|k: int| 0 <= k < negatives2.len() implies (#[trigger] negatives2[k])@.len() == points_per_sample by {
        let k2 = lemma_permuted_element(negatives2, negatives, k);
    }
    lemma_all_counts_fit(samples2, points_per_sample, 0);
    lemma_all_counts_fit(negatives2, points_per_sample, 0);
    assert forall|s: PointSuggestion, i: int|
        0 <= i < points_per_sample implies (suggestion_correct(s, samples, negatives, i, margin)
            <==> #[trigger] suggestion_correct(s, samples2, negatives2, i, margin)) by {
        lemma_extremes_permuted(samples, samples2, i, 0);
        lemma_extremes_permuted(samples, samples2, i, 1);
        lemma_extremes_permuted(samples, samples2, i, 2);
        lemma_extremes_permuted(samples, samples2, i, 3);
        assert(suggested_reference(samples, i) =~= suggested_reference(samples2, i));
        assert(suggested_tolerance(samples, i, margin) =~= suggested_tolerance(samples2, i, margin));
        assert(Seq::new(4, |c: int| observed_min(samples, i, c)) =~= Seq::new(4, |c: int| observed_min(samples2, i, c)));
        assert(Seq::new(4, |c: int| observed_max(samples, i, c)) =~= Seq::new(4, |c: int| observed_max(samples2, i, c)));
        lemma_negative_hits_permuted(
            negatives,
            negatives2,
            i,
            suggested_reference(samples, i),
            suggested_tolerance(samples, i, margin),
            suggested_mode(samples, i, margin),
            suggested_alpha_tolerance(samples, i, margin),
        );
    }
}

/// Law: what a point suggestion says of its samples, field by field. The observed minimum and
/// maximum of each channel bound every positive sample and are reached by one; the reference is
/// their midpoint (rounded down); the RGB tolerance is half the span (rounded up) plus the
/// margin, capped at 255; the jitter is the largest RGB half span; the quality is 100 minus the
/// penalties for jitter (twice the jitter, at most 55), for negative hits (45 each, at most 80)
/// and for missing negatives (15); keeping the point is advised exactly when the quality reaches
/// 60, no negative is hit and the jitter is at most 30.
pub proof fn suggestion_fields_follow_the_samples(
    s: PointSuggestion,
    samples: Seq<Vec<[u8; 4]>>,
    negatives: Seq<Vec<[u8; 4]>>,
    index: int,
    margin: u8,
)
    requires
        suggestion_correct(s, samples, negatives, index, margin),
        samples.len() > 0,
    ensures
        forall|c: int, k: int|
            0 <= c < 4 && 0 <= k < samples.len() ==> s.min_observed[c] <= (#[trigger] samples[k]@[index][c])
                <= s.max_observed[c],
        forall|c: int|
            #![trigger s.min_observed[c]]
            0 <= c < 4 ==> exists|k: int| 0 <= k < samples.len() && (#[trigger] samples[k])@[index][c] == s.min_observed[c],
        forall|c: int|
            #![trigger s.max_observed[c]]
            0 <= c < 4 ==> exists|k: int| 0 <= k < samples.len() && (#[trigger] samples[k])@[index][c] == s.max_observed[c],
        forall|c: int| 0 <= c < 4 ==> #[trigger] s.reference[c] == (s.min_observed[c] + s.max_observed[c]) / 2,
        forall|c: int|
            0 <= c < 3 ==> #[trigger] s.tolerance[c] == if (s.max_observed[c] - s.min_observed[c] + 1) / 2 + margin
                > 255 {
                255
            } else {
                (s.max_observed[c] - s.min_observed[c] + 1) / 2 + margin
            },
        forall|c: int| 0 <= c < 3 ==> (s.max_observed[c] - s.min_observed[c] + 1) / 2 <= s.max_half_range,
        exists|c: int| 0 <= c < 3 && (s.max_observed[c] - s.min_observed[c] + 1) / 2 == s.max_half_range,
        s.alpha_range == s.max_observed[3] - s.min_observed[3],
        s.alpha_opaque == (s.min_observed[3] >= 250),
        ({
            let stability: int = if 2 * s.max_half_range <= 55 { 2 * s.max_half_range } else { 55 };
            let evidence: int = if negatives.len() == 0 { 15 } else { 0 };
            &&& s.quality_score + stability + evidence <= 100
            &&& s.negative_matches == 0 ==> s.quality_score == 100 - stability - evidence
            &&& 0 < s.negative_matches < 65536 ==> s.quality_score == if 100 - stability - evidence - (if 45
                * s.negative_matches <= 80 { 45 * s.negative_matches } else { 80 }) >= 0 {
                100 - stability - evidence - (if 45 * s.negative_matches <= 80 { 45 * s.negative_matches } else { 80 })
            } else {
                0
            }
        }),
        s.recommend_keep <==> (s.quality_score >= 60 && s.negative_matches == 0 && s.max_half_range <= 30),
        s.max_half_range > 20 ==> !s.recommend_keep,
{
    assert forall|c: int, k: int|
        0 <= c < 4 && 0 <= k < samples.len() implies s.min_observed[c] <= (#[trigger] samples[k]@[index][c])
            <= s.max_observed[c] by {
        lemma_sample_within_extremes(samples, index, c, k);
    }
    assert forall|c: int| #![trigger s.min_observed[c]] 0 <= c < 4 implies exists|k: int|
        0 <= k < samples.len() && (#[trigger] samples[k])@[index][c] == s.min_observed[c] by {
        lemma_extremes_attained(samples, index, c);
    }
    assert forall|c: int| #![trigger s.max_observed[c]] 0 <= c < 4 implies exists|k: int|
        0 <= k < samples.len() && (#[trigger] samples[k])@[index][c] == s.max_observed[c] by {
        lemma_extremes_attained(samples, index, c);
    }
    assert forall|c: int| 0 <= c < 4 implies s.min_observed[c] <= s.max_observed[c] by {
        lemma_min_le_max(samples, index, c);
    }
    assert(s.reference@[0] == s.reference[0]);
    let h0 = channel_half(samples, index, 0);
    let h1 = channel_half(samples, index, 1);
    let h2 = channel_half(samples, index, 2);
    assert(s.max_observed@[0] == s.max_observed[0]);
    if s.max_half_range == h0 {
        assert((s.max_observed[0] - s.min_observed[0] + 1) / 2 == s.max_half_range);
    } else if s.max_half_range == h1 {
        assert((s.max_observed[1] - s.min_observed[1] + 1) / 2 == s.max_half_range);
    } else {
        assert((s.max_observed[2] - s.min_observed[2] + 1) / 2 == s.max_half_range);
    }
}

/// Whether a pixel lies within a suggestion's reference and tolerances: every RGB channel within
/// its tolerance, and alpha within the alpha tolerance when alpha is compared.
pub open spec fn pixel_within(s: PointSuggestion, px: [u8; 4]) -> bool {
    &&& forall|c: int|
        0 <= c < 3 ==> (if s.reference[c] >= px[c] { s.reference[c] - px[c] } else { px[c] - s.reference[c] })
            <= #[trigger] s.tolerance[c]
    &&& (s.suggested_alpha_mode == AlphaMode::Match ==> (if s.reference[3] >= px[3] {
        s.reference[3] - px[3]
    } else {
        px[3] - s.reference[3]
    }) <= s.alpha_tolerance)
}

proof fn lemma_negative_hits_filter(
    negatives: Seq<Vec<[u8; 4]>>,
    index: int,
    s: PointSuggestion,
)
    ensures
        negative_hits(negatives, index, s.reference@, s.tolerance@, s.suggested_alpha_mode, s.alpha_tolerance)
            == negatives.filter(|n: Vec<[u8; 4]>| pixel_within(s, n@[index])).len(),
    decreases negatives.len(),
{
    reveal(Seq::filter);
    if negatives.len() > 0 {
        lemma_negative_hits_filter(negatives.drop_last(), index, s);
        let px = negatives.last()@[index];
        assert(suggestion_accepts(s.reference@, s.tolerance@, s.suggested_alpha_mode, s.alpha_tolerance, px)
            <==> pixel_within(s, px)) by {
            if pixel_within(s, px) {
                assert(s.tolerance[0] == s.tolerance@[0]);
                assert(s.tolerance[1] == s.tolerance@[1]);
                assert(s.tolerance[2] == s.tolerance@[2]);
            }
            if suggestion_accepts(s.reference@, s.tolerance@, s.suggested_alpha_mode, s.alpha_tolerance, px) {
                assert forall|c: int| 0 <= c < 3 implies (if s.reference[c] >= px[c] {
                    s.reference[c] - px[c]
                } else {
                    px[c] - s.reference[c]
                }) <= #[trigger] s.tolerance[c] by {
                    assert(c == 0 || c == 1 || c == 2);
                }
            }
        }
    }
}

/// Law: the alpha advice and the negative count of a point suggestion. Alpha is compared
/// exactly when its span over the positives stays within twice the margin (kept within 8..=32)
/// and the point is not simply opaque (every sample at 250 or more); its tolerance is half that
/// span, rounded up, plus the margin, capped at 255. The negative count is the number of
/// negative samples whose pixel the suggested reference and tolerances accept.
pub proof fn suggestion_alpha_and_negatives_follow_the_samples(
    s: PointSuggestion,
    samples: Seq<Vec<[u8; 4]>>,
    negatives: Seq<Vec<[u8; 4]>>,
    index: int,
    margin: u8,
)
    requires
        suggestion_correct(s, samples, negatives, index, margin),
        samples.len() > 0,
    ensures
        ({
            let limit: int = if 2 * margin < 8 { 8 } else if 2 * margin > 32 { 32 } else { 2 * margin };
            &&& s.suggested_alpha_mode == AlphaMode::Match <==> (s.alpha_range <= limit && s.min_observed[3] < 250)
            &&& s.alpha_tolerance == if (s.alpha_range + 1) / 2 + margin > 255 {
                255
            } else {
                (s.alpha_range + 1) / 2 + margin
            }
        }),
        s.negative_matches == negatives.filter(|n: Vec<[u8; 4]>| pixel_within(s, n@[index])).len(),
{
    lemma_min_le_max(samples, index, 3);
    assert(s.min_observed[3] == s.min_observed@[3]);
    assert(s.max_observed[3] == s.max_observed@[3]);
    lemma_negative_hits_filter(negatives, index, s);
}

} // verus!
