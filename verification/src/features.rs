//! Feature-point discovery: scans a region of several positive and negative
//! sample frames and picks sparse points that are stable on the positives,
//! far from the negatives and on a local edge.

use vstd::prelude::*;

use crate::calibrate::{lemma_permuted_element, max8};
use crate::engine::abs_diff;
use crate::frame::{frame_holds, pixel_at, pixel_spec};
use crate::model::Region;

verus! {

/// A candidate feature point found in the sample region.
#[derive(Clone, Copy, Debug)]
pub struct FeatureCandidate {
    pub dx: u32,
    pub dy: u32,
    pub reference: [u8; 4],
    pub tolerance: [u8; 3],
    pub quality_score: u8,
    pub positive_range: u8,
    pub negative_distance: u8,
}

/// The views of sample frames: pixels, width, height.
pub open spec fn frame_views(frames: Seq<(&[u8], u32, u32)>) -> Seq<(Seq<u8>, u32, u32)> {
    frames.map_values(|f: (&[u8], u32, u32)| (f.0@, f.1, f.2))
}

/// What the selection rules read of a candidate.
pub ghost struct CandidateView {
    pub dx: u32,
    pub dy: u32,
    pub reference: Seq<u8>,
    pub tolerance: Seq<u8>,
    pub quality_score: u8,
    pub positive_range: u8,
    pub negative_distance: u8,
}

impl View for FeatureCandidate {
    type V = CandidateView;

    open spec fn view(&self) -> CandidateView {
        CandidateView {
            dx: self.dx,
            dy: self.dy,
            reference: self.reference@,
            tolerance: self.tolerance@,
            quality_score: self.quality_score,
            positive_range: self.positive_range,
            negative_distance: self.negative_distance,
        }
    }
}

// ---------------------------------------------------------------- per-position statistics

/// Smallest value of channel `c` at (x, y) over the frames (255 when there are none).
#[verifier::opaque]
pub open spec fn frames_min(frames: Seq<(Seq<u8>, u32, u32)>, width: u32, x: u32, y: u32, c: int) -> u8
    decreases frames.len(),
{
    if frames.len() == 0 {
        255
    } else {
        let rest = frames_min(frames.drop_last(), width, x, y, c);
        let v = pixel_spec(frames.last().0, width, x, y)[c];
        if v < rest { v } else { rest }
    }
}

/// Largest value of channel `c` at (x, y) over the frames (0 when there are none).
#[verifier::opaque]
pub open spec fn frames_max(frames: Seq<(Seq<u8>, u32, u32)>, width: u32, x: u32, y: u32, c: int) -> u8
    decreases frames.len(),
{
    if frames.len() == 0 {
        0
    } else {
        let rest = frames_max(frames.drop_last(), width, x, y, c);
        let v = pixel_spec(frames.last().0, width, x, y)[c];
        if v > rest { v } else { rest }
    }
}

/// Sum of channel `c` at (x, y) over the frames.
#[verifier::opaque]
pub open spec fn frames_sum(frames: Seq<(Seq<u8>, u32, u32)>, width: u32, x: u32, y: u32, c: int) -> int
    decreases frames.len(),
{
    if frames.len() == 0 {
        0
    } else {
        frames_sum(frames.drop_last(), width, x, y, c) + pixel_spec(frames.last().0, width, x, y)[c]
    }
}

/// Mean colour at (x, y) over the positive frames, rounded down.
pub open spec fn mean_colour(frames: Seq<(Seq<u8>, u32, u32)>, width: u32, x: u32, y: u32) -> Seq<u8> {
    Seq::new(4, |c: int| (frames_sum(frames, width, x, y, c) / frames.len() as int) as u8)
}

pub open spec fn channel_span(frames: Seq<(Seq<u8>, u32, u32)>, width: u32, x: u32, y: u32, c: int) -> u8 {
    (frames_max(frames, width, x, y, c) - frames_min(frames, width, x, y, c)) as u8
}

/// Largest RGB span over the positive frames.
pub open spec fn positive_range_spec(frames: Seq<(Seq<u8>, u32, u32)>, width: u32, x: u32, y: u32) -> u8 {
    max8(max8(channel_span(frames, width, x, y, 0), channel_span(frames, width, x, y, 1)), channel_span(frames, width, x, y, 2))
}

/// Mean absolute RGB difference of two colours, rounded down.
pub open spec fn colour_distance(a: Seq<u8>, b: Seq<u8>) -> u8 {
    ((abs_diff(a[0], b[0]) + abs_diff(a[1], b[1]) + abs_diff(a[2], b[2])) / 3) as u8
}

/// Distance from `reference` to the nearest negative frame at (x, y); 0 without negatives.
pub open spec fn nearest_negative(frames: Seq<(Seq<u8>, u32, u32)>, width: u32, x: u32, y: u32, reference: Seq<u8>) -> u8
    decreases frames.len(),
{
    if frames.len() == 0 {
        0
    } else {
        let d = colour_distance(reference, pixel_spec(frames.last().0, width, x, y));
        if frames.len() == 1 {
            d
        } else {
            let rest = nearest_negative(frames.drop_last(), width, x, y, reference);
            if d < rest { d } else { rest }
        }
    }
}

/// Local edge strength in the first positive frame: the largest distance to a 4-neighbour.
pub open spec fn edge_strength_spec(first: Seq<u8>, width: u32, x: u32, y: u32) -> u8 {
    let center = pixel_spec(first, width, x, y);
    max8(
        max8(
            colour_distance(center, pixel_spec(first, width, (x - 1) as u32, y)),
            colour_distance(center, pixel_spec(first, width, (x + 1) as u32, y)),
        ),
        max8(
            colour_distance(center, pixel_spec(first, width, x, (y - 1) as u32)),
            colour_distance(center, pixel_spec(first, width, x, (y + 1) as u32)),
        ),
    )
}

/// Quality: 45% positive stability, 45% negative separation, 10% edge strength.
pub open spec fn candidate_quality(positive_range: u8, negative_distance: u8, edge: u8) -> u8 {
    let stability = if positive_range * 2 >= 100 { 0int } else { 100 - positive_range * 2 };
    let separation = if negative_distance * 2 <= 100 { negative_distance * 2 } else { 100int };
    let edge_score = if edge <= 100 { edge as int } else { 100int };
    ((stability * 45 + separation * 45 + edge_score * 10) / 100) as u8
}

/// The candidate at region offset (dx, dy).
pub open spec fn candidate_at(
    positives: Seq<(Seq<u8>, u32, u32)>,
    negatives: Seq<(Seq<u8>, u32, u32)>,
    width: u32,
    region: Region,
    dx: u32,
    dy: u32,
) -> CandidateView {
    let x = (region.x + dx) as u32;
    let y = (region.y + dy) as u32;
    let reference = mean_colour(positives, width, x, y);
    let positive_range = positive_range_spec(positives, width, x, y);
    let negative_distance = nearest_negative(negatives, width, x, y, reference);
    let edge = edge_strength_spec(positives[0].0, width, x, y);
    CandidateView {
        dx,
        dy,
        reference,
        tolerance: Seq::new(
            3,
            |c: int| (((channel_span(positives, width, x, y, c) + 1) / 2) as u8).saturating_add(8),
        ),
        quality_score: candidate_quality(positive_range, negative_distance, edge),
        positive_range,
        negative_distance,
    }
}

/// A candidate is kept when its quality reaches 45 and the negatives lie clearly farther
/// than the positives jitter.
pub open spec fn candidate_kept(c: CandidateView) -> bool {
    c.quality_score >= 45 && c.negative_distance > c.positive_range.saturating_add(4)
}


// ---------------------------------------------------------------- executable statistics

/// Every frame starts with `width * height` RGBA pixels.
pub open spec fn frames_shaped(frames: Seq<(Seq<u8>, u32, u32)>, width: u32, height: u32) -> bool {
    forall|k: int| 0 <= k < frames.len() ==> frame_holds((#[trigger] frames[k]).0, width, height)
}

fn channel_stats(frames: &[(&[u8], u32, u32)], width: u32, height: u32, x: u32, y: u32, c: usize) -> (r: (u8, u8, u32))
    requires
        c < 4,
        x < width,
        y < height,
        frame_views(frames@).len() <= 16_843_009,
        frames_shaped(frame_views(frames@), width, height),
    ensures
        r.0 == frames_min(frame_views(frames@), width, x, y, c as int),
        r.1 == frames_max(frame_views(frames@), width, x, y, c as int),
        r.2 == frames_sum(frame_views(frames@), width, x, y, c as int),
{
    let mut lo: u8 = 255;
    let mut hi: u8 = 0;
    let mut sum: u32 = 0;
    let mut i: usize = 0;
    proof {
        reveal(frames_min);
        reveal(frames_max);
        reveal(frames_sum);
    }
    while i < frames.len()
        invariant
            c < 4,
            x < width,
            y < height,
            frame_views(frames@).len() <= 16_843_009,
            frames_shaped(frame_views(frames@), width, height),
            i <= frame_views(frames@).len(),
            lo == frames_min(frame_views(frames@).take(i as int), width, x, y, c as int),
            hi == frames_max(frame_views(frames@).take(i as int), width, x, y, c as int),
            sum == frames_sum(frame_views(frames@).take(i as int), width, x, y, c as int),
            sum <= 255 * i,
        decreases frame_views(frames@).len() - i,
    {
        proof {
            assert(frame_views(frames@).take(i + 1).drop_last() =~= frame_views(frames@).take(i as int));
            reveal(frames_min);
            reveal(frames_max);
            reveal(frames_sum);
        }
        assert(frame_views(frames@)[i as int].0 == frames@[i as int].0@);
        let px = pixel_at(frames[i].0, width, height, x, y);
        let v = px[c];
        if v < lo {
            lo = v;
        }
        if v > hi {
            hi = v;
        }
        sum = sum + v as u32;
        i = i + 1;
    }
    proof {
        assert(frame_views(frames@).take(frame_views(frames@).len() as int) =~= frame_views(frames@));
    }
    (lo, hi, sum)
}

proof fn lemma_frames_min_le_max(frames: Seq<(Seq<u8>, u32, u32)>, width: u32, x: u32, y: u32, c: int)
    requires
        frames.len() > 0,
    ensures
        frames_min(frames, width, x, y, c) <= frames_max(frames, width, x, y, c),
    decreases frames.len(),
{
    reveal(frames_min);
    reveal(frames_max);
    if frames.len() > 1 {
        lemma_frames_min_le_max(frames.drop_last(), width, x, y, c);
    }
}

fn abs_diff_u16(a: u8, b: u8) -> (d: u16)
    ensures
        d == abs_diff(a, b),
{
    if a >= b { (a - b) as u16 } else { (b - a) as u16 }
}

fn distance(a: &[u8; 4], b: &[u8; 4]) -> (d: u8)
    ensures
        d == colour_distance(a@, b@),
{
    ((abs_diff_u16(a[0], b[0]) + abs_diff_u16(a[1], b[1]) + abs_diff_u16(a[2], b[2])) / 3) as u8
}

fn nearest_negative_distance(
    frames: &[(&[u8], u32, u32)],
    width: u32,
    height: u32,
    x: u32,
    y: u32,
    reference: &[u8; 4],
) -> (d: u8)
    requires
        x < width,
        y < height,
        frames_shaped(frame_views(frames@), width, height),
    ensures
        d == nearest_negative(frame_views(frames@), width, x, y, reference@),
{
    if frames.len() == 0 {
        return 0;
    }
    assert(frame_views(frames@)[0].0 == frames@[0].0@);
    let first = pixel_at(frames[0].0, width, height, x, y);
    let mut best = distance(reference, &first);
    proof {
        assert(frame_views(frames@).take(1).drop_last() =~= frame_views(frames@).take(0));
    }
    let mut i: usize = 1;
    while i < frames.len()
        invariant
            x < width,
            y < height,
            frames_shaped(frame_views(frames@), width, height),
            1 <= i <= frame_views(frames@).len(),
            best == nearest_negative(frame_views(frames@).take(i as int), width, x, y, reference@),
        decreases frame_views(frames@).len() - i,
    {
        proof {
            assert(frame_views(frames@).take(i + 1).drop_last() =~= frame_views(frames@).take(i as int));
        }
        assert(frame_views(frames@)[i as int].0 == frames@[i as int].0@);
        let px = pixel_at(frames[i].0, width, height, x, y);
        let d = distance(reference, &px);
        if d < best {
            best = d;
        }
        i = i + 1;
    }
    proof {
        assert(frame_views(frames@).take(frame_views(frames@).len() as int) =~= frame_views(frames@));
    }
    best
}

fn edge_strength(first: &[u8], width: u32, height: u32, x: u32, y: u32) -> (e: u8)
    requires
        frame_holds(first@, width, height),
        1 <= x,
        x + 1 < width,
        1 <= y,
        y + 1 < height,
    ensures
        e == edge_strength_spec(first@, width, x, y),
{
    let center = pixel_at(first, width, height, x, y);
    let left = distance(&center, &pixel_at(first, width, height, x - 1, y));
    let right = distance(&center, &pixel_at(first, width, height, x + 1, y));
    let up = distance(&center, &pixel_at(first, width, height, x, y - 1));
    let down = distance(&center, &pixel_at(first, width, height, x, y + 1));
    let a = if left >= right { left } else { right };
    let b = if up >= down { up } else { down };
    if a >= b { a } else { b }
}

fn quality_of(positive_range: u8, negative_distance: u8, edge: u8) -> (q: u8)
    ensures
        q == candidate_quality(positive_range, negative_distance, edge),
{
    let stability: u16 = 100u16.saturating_sub(positive_range as u16 * 2);
    let separation: u16 = if negative_distance as u16 * 2 <= 100 { negative_distance as u16 * 2 } else { 100 };
    let edge_score: u16 = if edge as u16 <= 100 { edge as u16 } else { 100 };
    ((stability * 45 + separation * 45 + edge_score * 10) / 100) as u8
}

/// Builds the candidate at region offset (dx, dy).
fn candidate(
    positives: &[(&[u8], u32, u32)],
    negatives: &[(&[u8], u32, u32)],
    width: u32,
    height: u32,
    region: &Region,
    dx: u32,
    dy: u32,
) -> (c: FeatureCandidate)
    requires
        2 <= frame_views(positives@).len() <= 16_843_009,
        frames_shaped(frame_views(positives@), width, height),
        frames_shaped(frame_views(negatives@), width, height),
        region.x + region.w <= width,
        region.y + region.h <= height,
        1 <= dx,
        dx + 1 < region.w,
        1 <= dy,
        dy + 1 < region.h,
    ensures
        c@ == candidate_at(frame_views(positives@), frame_views(negatives@), width, *region, dx, dy),
{
    let x = region.x + dx;
    let y = region.y + dy;
    let count = positives.len() as u32;
    let (lo0, hi0, s0) = channel_stats(positives, width, height, x, y, 0);
    let (lo1, hi1, s1) = channel_stats(positives, width, height, x, y, 1);
    let (lo2, hi2, s2) = channel_stats(positives, width, height, x, y, 2);
    let (_lo3, _hi3, s3) = channel_stats(positives, width, height, x, y, 3);
    proof {
        lemma_frames_min_le_max(frame_views(positives@), width, x, y, 0);
        lemma_frames_min_le_max(frame_views(positives@), width, x, y, 1);
        lemma_frames_min_le_max(frame_views(positives@), width, x, y, 2);
    }
    let reference = [(s0 / count) as u8, (s1 / count) as u8, (s2 / count) as u8, (s3 / count) as u8];
    let r0 = hi0 - lo0;
    let r1 = hi1 - lo1;
    let r2 = hi2 - lo2;
    let m = if r0 >= r1 { r0 } else { r1 };
    let positive_range = if m >= r2 { m } else { r2 };
    let negative_distance = nearest_negative_distance(negatives, width, height, x, y, &reference);
    assert(frame_views(positives@)[0].0 == positives@[0].0@);
    let edge = edge_strength(positives[0].0, width, height, x, y);
    let quality_score = quality_of(positive_range, negative_distance, edge);
    let tolerance = [
        (((r0 as u16 + 1) / 2) as u8).saturating_add(8),
        (((r1 as u16 + 1) / 2) as u8).saturating_add(8),
        (((r2 as u16 + 1) / 2) as u8).saturating_add(8),
    ];
    let c = FeatureCandidate { dx, dy, reference, tolerance, quality_score, positive_range, negative_distance };
    proof {
        assert(reference@ =~= mean_colour(frame_views(positives@), width, x, y));
        assert(tolerance@ =~= candidate_at(frame_views(positives@), frame_views(negatives@), width, *region, dx, dy).tolerance);
        assert(c@.reference =~= candidate_at(frame_views(positives@), frame_views(negatives@), width, *region, dx, dy).reference);
    }
    c
}


// ---------------------------------------------------------------- scan, rank, select

/// Candidates kept along row `dy`, from column `dx` on, every `step` pixels.
pub open spec fn row_scan(
    positives: Seq<(Seq<u8>, u32, u32)>,
    negatives: Seq<(Seq<u8>, u32, u32)>,
    width: u32,
    region: Region,
    step: int,
    dy: u32,
    dx: int,
) -> Seq<CandidateView>
    decreases if dx < region.w { region.w - dx } else { 0 },
{
    if step <= 0 || dx + 1 >= region.w {
        Seq::empty()
    } else {
        let c = candidate_at(positives, negatives, width, region, dx as u32, dy);
        (if candidate_kept(c) { seq![c] } else { Seq::empty() }) + row_scan(
            positives,
            negatives,
            width,
            region,
            step,
            dy,
            dx + step,
        )
    }
}

/// Candidates kept in the region interior, from row `dy` on, rows and columns every `step` pixels.
pub open spec fn grid_scan(
    positives: Seq<(Seq<u8>, u32, u32)>,
    negatives: Seq<(Seq<u8>, u32, u32)>,
    width: u32,
    region: Region,
    step: int,
    dy: int,
) -> Seq<CandidateView>
    decreases if dy < region.h { region.h - dy } else { 0 },
{
    if step <= 0 || dy + 1 >= region.h {
        Seq::empty()
    } else {
        row_scan(positives, negatives, width, region, step, #[verifier::truncate] (dy as u32), 1) + grid_scan(
            positives,
            negatives,
            width,
            region,
            step,
            dy + step,
        )
    }
}

/// The candidates of quality `q`, in their input order.
pub open spec fn with_quality(s: Seq<CandidateView>, q: int) -> Seq<CandidateView>
    decreases s.len(),
{
    if s.len() == 0 {
        Seq::empty()
    } else {
        with_quality(s.drop_last(), q) + if s.last().quality_score == q {
            seq![s.last()]
        } else {
            Seq::empty()
        }
    }
}

/// The candidates of quality at least `q`, highest quality first; equal qualities keep
/// their input order (a stable sort by descending quality).
pub open spec fn ranked_from(s: Seq<CandidateView>, q: int) -> Seq<CandidateView>
    decreases 256 - q,
{
    if q > 255 {
        Seq::empty()
    } else {
        ranked_from(s, q + 1) + with_quality(s, q)
    }
}

/// Two candidates lie closer than the minimum distance (`d2` is its square).
pub open spec fn too_close(a: CandidateView, b: CandidateView, d2: int) -> bool {
    (a.dx - b.dx) * (a.dx - b.dx) + (a.dy - b.dy) * (a.dy - b.dy) < d2
}

pub open spec fn conflicts(selected: Seq<CandidateView>, c: CandidateView, d2: int) -> bool {
    exists|i: int| 0 <= i < selected.len() && #[trigger] too_close(selected[i], c, d2)
}

/// Greedy selection over the first `n` ranked candidates: take a candidate unless it lies too
/// close to one already taken, and stop at `cap` candidates.
pub open spec fn greedy(ranked: Seq<CandidateView>, n: int, cap: int, d2: int) -> Seq<CandidateView>
    decreases n,
{
    if n <= 0 {
        Seq::empty()
    } else {
        let selected = greedy(ranked, n - 1, cap, d2);
        if selected.len() >= cap || conflicts(selected, ranked[n - 1], d2) {
            selected
        } else {
            selected.push(ranked[n - 1])
        }
    }
}

/// The sampling step: the least `s >= 1` with `60000 * s * s >= pixels`, so that roughly at most
/// 60000 positions are examined.
pub open spec fn step_from(s: int, pixels: int) -> int
    decreases pixels + 1 - s,
{
    if s > pixels || 60000 * s * s >= pixels {
        s
    } else {
        step_from(s + 1, pixels)
    }
}

pub open spec fn sample_step(pixels: int) -> int {
    step_from(1, pixels)
}

pub open spec fn selection_cap(limit: usize) -> int {
    if limit < 1 { 1 } else if limit > 64 { 64 } else { limit as int }
}

pub open spec fn min_distance_squared(minimum_distance: u32) -> int {
    let d = if minimum_distance < 1 { 1 } else { minimum_distance as int };
    d * d
}

pub open spec fn candidate_views(s: Seq<FeatureCandidate>) -> Seq<CandidateView> {
    s.map_values(|c: FeatureCandidate| c@)
}

/// Every frame has the given size.
pub open spec fn frames_sized(frames: Seq<(Seq<u8>, u32, u32)>, width: u32, height: u32) -> bool {
    forall|k: int| 0 <= k < frames.len() ==> (#[trigger] frames[k]).1 == width && frames[k].2 == height
}

/// Every frame's buffer holds at least the pixels of its declared size.
pub open spec fn frames_consistent(frames: Seq<(Seq<u8>, u32, u32)>) -> bool {
    forall|k: int| 0 <= k < frames.len() ==> frame_holds((#[trigger] frames[k]).0, frames[k].1, frames[k].2)
}

/// Why feature discovery cannot run, if it cannot.
pub open spec fn feature_input_error(
    positives: Seq<(Seq<u8>, u32, u32)>,
    negatives: Seq<(Seq<u8>, u32, u32)>,
    region: Region,
) -> Option<Seq<char>> {
    if positives.len() < 2 {
        Some("多样本智能选点至少需要 2 张正样本"@)
    } else if negatives.len() == 0 {
        Some("多样本智能选点至少需要 1 张负样本"@)
    } else if !frames_sized(positives, positives[0].1, positives[0].2) || !frames_sized(
        negatives,
        positives[0].1,
        positives[0].2,
    ) {
        Some("智能选点样本尺寸不一致"@)
    } else if region.w == 0 || region.h == 0 || region.x + region.w > positives[0].1 || region.y
        + region.h > positives[0].2 {
        Some("智能选点区域超出样本帧"@)
    } else {
        None
    }
}

/// The candidates that feature discovery returns.
pub open spec fn discovered(
    positives: Seq<(Seq<u8>, u32, u32)>,
    negatives: Seq<(Seq<u8>, u32, u32)>,
    region: Region,
    limit: usize,
    minimum_distance: u32,
) -> Seq<CandidateView> {
    let ranked = ranked_from(
        grid_scan(positives, negatives, positives[0].1, region, sample_step(region.w * region.h), 1),
        0,
    );
    greedy(ranked, ranked.len() as int, selection_cap(limit), min_distance_squared(minimum_distance))
}

proof fn lemma_row_scan_kept(
    positives: Seq<(Seq<u8>, u32, u32)>,
    negatives: Seq<(Seq<u8>, u32, u32)>,
    width: u32,
    region: Region,
    step: int,
    dy: u32,
    dx: int,
)
    ensures
        forall|i: int|
            0 <= i < row_scan(positives, negatives, width, region, step, dy, dx).len() ==> candidate_kept(
                #[trigger] row_scan(positives, negatives, width, region, step, dy, dx)[i],
            ),
    decreases if dx < region.w { region.w - dx } else { 0 },
{
    if !(step <= 0 || dx + 1 >= region.w) {
        lemma_row_scan_kept(positives, negatives, width, region, step, dy, dx + step);
        let c = candidate_at(positives, negatives, width, region, dx as u32, dy);
        let head = if candidate_kept(c) { seq![c] } else { Seq::<CandidateView>::empty() };
        let tail = row_scan(positives, negatives, width, region, step, dy, dx + step);
        let r = row_scan(positives, negatives, width, region, step, dy, dx);
        assert(r == head + tail);
        assert forall|i: int| 0 <= i < r.len() implies candidate_kept(#[trigger] r[i]) by {
            if i < head.len() {
                assert(r[i] == c);
            } else {
                assert(r[i] == tail[i - head.len()]);
            }
        }
    }
}

proof fn lemma_grid_scan_kept(
    positives: Seq<(Seq<u8>, u32, u32)>,
    negatives: Seq<(Seq<u8>, u32, u32)>,
    width: u32,
    region: Region,
    step: int,
    dy: int,
)
    ensures
        forall|i: int|
            0 <= i < grid_scan(positives, negatives, width, region, step, dy).len() ==> candidate_kept(
                #[trigger] grid_scan(positives, negatives, width, region, step, dy)[i],
            ),
    decreases if dy < region.h { region.h - dy } else { 0 },
{
    if !(step <= 0 || dy + 1 >= region.h) {
        let row_y: u32 = #[verifier::truncate] (dy as u32);
        lemma_row_scan_kept(positives, negatives, width, region, step, row_y, 1);
        lemma_grid_scan_kept(positives, negatives, width, region, step, dy + step);
        let head = row_scan(positives, negatives, width, region, step, row_y, 1);
        let tail = grid_scan(positives, negatives, width, region, step, dy + step);
        let r = grid_scan(positives, negatives, width, region, step, dy);
        assert(r == head + tail);
        assert forall|i: int| 0 <= i < r.len() implies candidate_kept(#[trigger] r[i]) by {
            if i < head.len() {
                assert(r[i] == head[i]);
            } else {
                assert(r[i] == tail[i - head.len()]);
            }
        }
    }
}

proof fn lemma_with_quality_from(s: Seq<CandidateView>, q: int)
    ensures
        forall|i: int| 0 <= i < with_quality(s, q).len() ==> s.contains(#[trigger] with_quality(s, q)[i]),
    decreases s.len(),
{
    if s.len() > 0 {
        lemma_with_quality_from(s.drop_last(), q);
        let w = with_quality(s, q);
        let rest = with_quality(s.drop_last(), q);
        assert forall|i: int| 0 <= i < w.len() implies s.contains(#[trigger] w[i]) by {
            if i < rest.len() {
                assert(w[i] == rest[i]);
                let k = choose|k: int| 0 <= k < s.drop_last().len() && s.drop_last()[k] == rest[i];
                assert(s[k] == rest[i]);
            } else {
                assert(w[i] == s.last());
                assert(s[s.len() - 1] == s.last());
            }
        }
    }
}

proof fn lemma_ranked_from(s: Seq<CandidateView>, q: int)
    ensures
        forall|i: int| 0 <= i < ranked_from(s, q).len() ==> s.contains(#[trigger] ranked_from(s, q)[i]),
    decreases 256 - q,
{
    if q <= 255 {
        lemma_ranked_from(s, q + 1);
        lemma_with_quality_from(s, q);
        let r = ranked_from(s, q);
        let hi = ranked_from(s, q + 1);
        let w = with_quality(s, q);
        assert forall|i: int| 0 <= i < r.len() implies s.contains(#[trigger] r[i]) by {
            if i < hi.len() {
                assert(r[i] == hi[i]);
            } else {
                assert(r[i] == w[i - hi.len()]);
            }
        }
    }
}

proof fn lemma_greedy(ranked: Seq<CandidateView>, n: int, cap: int, d2: int)
    requires
        n <= ranked.len(),
    ensures
        greedy(ranked, n, cap, d2).len() <= if cap > 0 { cap } else { 0 },
        forall|i: int| 0 <= i < greedy(ranked, n, cap, d2).len() ==> ranked.contains(#[trigger] greedy(ranked, n, cap, d2)[i]),
        forall|i: int, j: int|
            0 <= i < j < greedy(ranked, n, cap, d2).len() ==> !too_close(
                #[trigger] greedy(ranked, n, cap, d2)[i],
                #[trigger] greedy(ranked, n, cap, d2)[j],
                d2,
            ),
    decreases n,
{
    if n > 0 {
        lemma_greedy(ranked, n - 1, cap, d2);
        let selected = greedy(ranked, n - 1, cap, d2);
        let c = ranked[n - 1];
        if !(selected.len() >= cap || conflicts(selected, c, d2)) {
            let g = selected.push(c);
            assert forall|i: int| 0 <= i < g.len() implies ranked.contains(#[trigger] g[i]) by {
                if i < selected.len() {
                    assert(g[i] == selected[i]);
                } else {
                    assert(g[i] == ranked[n - 1]);
                }
            }
            assert forall|i: int, j: int| 0 <= i < j < g.len() implies !too_close(#[trigger] g[i], #[trigger] g[j], d2) by {
                if j < selected.len() {
                    assert(g[i] == selected[i] && g[j] == selected[j]);
                } else {
                    assert(g[i] == selected[i] && g[j] == c);
                    assert(!too_close(selected[i], c, d2));
                }
            }
        }
    }
}

/// Law: every discovered point is a kept candidate (quality at least 45, negatives farther than
/// the positives' jitter plus 4), no two discovered points lie closer than the minimum
/// distance, and at most the selection cap of them are returned.
pub proof fn discovered_points_are_kept_and_spread(
    positives: Seq<(Seq<u8>, u32, u32)>,
    negatives: Seq<(Seq<u8>, u32, u32)>,
    region: Region,
    limit: usize,
    minimum_distance: u32,
)
    ensures
        ({
            let found = discovered(positives, negatives, region, limit, minimum_distance);
            &&& found.len() <= selection_cap(limit)
            &&& forall|i: int|
                0 <= i < found.len() ==> #[trigger] candidate_kept(found[i]) && found[i].negative_distance
                    > found[i].positive_range
            &&& forall|i: int, j: int|
                0 <= i < j < found.len() ==> !too_close(
                    #[trigger] found[i],
                    #[trigger] found[j],
                    min_distance_squared(minimum_distance),
                )
        }),
{
    let scan = grid_scan(positives, negatives, positives[0].1, region, sample_step(region.w * region.h), 1);
    let ranked = ranked_from(scan, 0);
    let d2 = min_distance_squared(minimum_distance);
    let found = discovered(positives, negatives, region, limit, minimum_distance);
    lemma_grid_scan_kept(positives, negatives, positives[0].1, region, sample_step(region.w * region.h), 1);
    lemma_ranked_from(scan, 0);
    lemma_greedy(ranked, ranked.len() as int, selection_cap(limit), d2);
    assert forall|i: int| 0 <= i < found.len() implies #[trigger] candidate_kept(found[i])
        && found[i].negative_distance > found[i].positive_range by {
        assert(ranked.contains(found[i]));
        let k = choose|k: int| 0 <= k < ranked.len() && ranked[k] == found[i];
        assert(scan.contains(ranked[k]));
        let m = choose|m: int| 0 <= m < scan.len() && scan[m] == ranked[k];
        assert(candidate_kept(scan[m]));
    }
}

fn all_sized(frames: &[(&[u8], u32, u32)], width: u32, height: u32) -> (ok: bool)
    ensures
        ok == frames_sized(frame_views(frames@), width, height),
{
    let mut i: usize = 0;
    while i < frames.len()
        invariant
            i <= frame_views(frames@).len(),
            forall|k: int| 0 <= k < i ==> (#[trigger] frame_views(frames@)[k]).1 == width && frame_views(frames@)[k].2 == height,
        decreases frame_views(frames@).len() - i,
    {
        assert(frame_views(frames@)[i as int] == (frames@[i as int].0@, frames@[i as int].1, frames@[i as int].2));
        if frames[i].1 != width || frames[i].2 != height {
            return false;
        }
        i = i + 1;
    }
    true
}

fn sampling_step(pixels: u64) -> (s: u64)
    ensures
        s == sample_step(pixels as int),
        1 <= s <= 0x1_0000_0000,
{
    let mut s: u64 = 1;
    loop
        invariant_except_break
            1 <= s <= 0x1_0000_0000,
            step_from(s as int, pixels as int) == sample_step(pixels as int),
        ensures
            1 <= s <= 0x1_0000_0000,
            s as int == sample_step(pixels as int),
        decreases pixels + 1 - s,
    {
        assert((s as u128) * (s as u128) <= 0x1_0000_0000_0000_0000u128) by (nonlinear_arith)
            requires
                1 <= s <= 0x1_0000_0000,
        ;
        let square: u128 = (s as u128) * (s as u128);
        assert(60000 * (s as int) * (s as int) == 60000 * (square as int)) by (nonlinear_arith)
            requires
                square == (s as int) * (s as int),
        ;
        if s > pixels || 60000u128 * square >= pixels as u128 {
            assert(step_from(s as int, pixels as int) == s as int);
            break;
        }
        assert(step_from(s as int, pixels as int) == step_from(s + 1, pixels as int));
        assert(s < 0x1_0000_0000) by (nonlinear_arith)
            requires
                60000 * (s * s) < pixels,
                pixels <= 0xffff_ffff_ffff_ffff,
                s >= 1,
        ;
        s = s + 1;
    }
    s
}

/// Scans the region interior every `step` pixels and keeps the good candidates, in scan order.
fn scan_candidates(
    positives: &[(&[u8], u32, u32)],
    negatives: &[(&[u8], u32, u32)],
    width: u32,
    height: u32,
    region: &Region,
    step: u64,
) -> (scored: Vec<FeatureCandidate>)
    requires
        2 <= frame_views(positives@).len() <= 16_843_009,
        frames_shaped(frame_views(positives@), width, height),
        frames_shaped(frame_views(negatives@), width, height),
        region.x + region.w <= width,
        region.y + region.h <= height,
        1 <= step <= 0x1_0000_0000,
    ensures
        candidate_views(scored@) == grid_scan(frame_views(positives@), frame_views(negatives@), width, *region, step as int, 1),
{
    let ghost all = grid_scan(frame_views(positives@), frame_views(negatives@), width, *region, step as int, 1);
    let mut scored: Vec<FeatureCandidate> = Vec::new();
    let mut dy: u64 = 1;
    proof {
        assert(candidate_views(scored@) + grid_scan(frame_views(positives@), frame_views(negatives@), width, *region, step as int, dy as int)
            =~= all);
    }
    while dy + 1 < region.h as u64
        invariant
            2 <= frame_views(positives@).len() <= 16_843_009,
            frames_shaped(frame_views(positives@), width, height),
            frames_shaped(frame_views(negatives@), width, height),
            region.x + region.w <= width,
            region.y + region.h <= height,
            1 <= step <= 0x1_0000_0000,
            1 <= dy <= region.h as u64 + step,
            candidate_views(scored@) + grid_scan(frame_views(positives@), frame_views(negatives@), width, *region, step as int, dy as int)
                == all,
        decreases region.h as u64 + step - dy,
    {
        let ghost rest = grid_scan(frame_views(positives@), frame_views(negatives@), width, *region, step as int, dy + step);
        let mut dx: u64 = 1;
        proof {
            assert(candidate_views(scored@) + row_scan(
                frame_views(positives@),
                frame_views(negatives@),
                width,
                *region,
                step as int,
                dy as u32,
                dx as int,
            ) + rest =~= all);
        }
        while dx + 1 < region.w as u64
            invariant
                2 <= frame_views(positives@).len() <= 16_843_009,
                frames_shaped(frame_views(positives@), width, height),
                frames_shaped(frame_views(negatives@), width, height),
                region.x + region.w <= width,
                region.y + region.h <= height,
                1 <= step <= 0x1_0000_0000,
                1 <= dy,
                dy + 1 < region.h,
                1 <= dx <= region.w as u64 + step,
                rest == grid_scan(frame_views(positives@), frame_views(negatives@), width, *region, step as int, dy + step),
                candidate_views(scored@) + row_scan(
                    frame_views(positives@),
                    frame_views(negatives@),
                    width,
                    *region,
                    step as int,
                    dy as u32,
                    dx as int,
                ) + rest == all,
            decreases region.w as u64 + step - dx,
        {
            let c = candidate(positives, negatives, width, height, region, dx as u32, dy as u32);
            let ghost before = candidate_views(scored@);
            let ghost tail = row_scan(
                frame_views(positives@),
                frame_views(negatives@),
                width,
                *region,
                step as int,
                dy as u32,
                dx + step,
            );
            let kept = c.quality_score >= 45 && c.negative_distance > c.positive_range.saturating_add(4);
            if kept {
                scored.push(c);
                proof {
                    assert(candidate_views(scored@) =~= before.push(c@));
                    assert(candidate_views(scored@) + tail + rest =~= before + (seq![c@] + tail) + rest);
                }
            } else {
                proof {
                    assert(before + tail + rest =~= before + (Seq::<CandidateView>::empty() + tail) + rest);
                }
            }
            dx = dx + step;
        }
        proof {
            assert(candidate_views(scored@) + rest =~= candidate_views(scored@) + row_scan(
                frame_views(positives@),
                frame_views(negatives@),
                width,
                *region,
                step as int,
                dy as u32,
                dx as int,
            ) + rest);
        }
        dy = dy + step;
    }
    scored
}


/// Orders candidates by descending quality, keeping scan order among equal qualities.
fn rank_candidates(scored: &Vec<FeatureCandidate>) -> (ranked: Vec<FeatureCandidate>)
    ensures
        candidate_views(ranked@) == ranked_from(candidate_views(scored@), 0),
{
    let ghost all = candidate_views(scored@);
    let mut ranked: Vec<FeatureCandidate> = Vec::new();
    let mut q: i32 = 255;
    while q >= 0
        invariant
            all == candidate_views(scored@),
            -1 <= q <= 255,
            candidate_views(ranked@) == ranked_from(all, q + 1),
        decreases q + 1,
    {
        let ghost before = candidate_views(ranked@);
        let mut i: usize = 0;
        while i < scored.len()
            invariant
                all == candidate_views(scored@),
                0 <= q <= 255,
                i <= scored@.len(),
                candidate_views(ranked@) == before + with_quality(all.take(i as int), q as int),
            decreases scored@.len() - i,
        {
            proof {
                assert(all.take(i + 1).drop_last() =~= all.take(i as int));
            }
            proof {
                assert(all.take(i + 1).last() == scored@[i as int]@);
            }
            if scored[i].quality_score as i32 == q {
                let ghost prev = candidate_views(ranked@);
                ranked.push(scored[i]);
                proof {
                    assert(candidate_views(ranked@) =~= prev.push(scored@[i as int]@));
                    assert(with_quality(all.take(i + 1), q as int) =~= with_quality(all.take(i as int), q as int).push(
                        scored@[i as int]@,
                    ));
                    assert(candidate_views(ranked@) =~= before + with_quality(all.take(i + 1), q as int));
                }
            } else {
                proof {
                    assert(candidate_views(ranked@) =~= before + with_quality(all.take(i + 1), q as int));
                }
            }
            i = i + 1;
        }
        proof {
            assert(all.take(scored@.len() as int) =~= all);
            assert(ranked_from(all, q as int) == ranked_from(all, q + 1) + with_quality(all, q as int));
        }
        q = q - 1;
    }
    ranked
}

fn lies_too_close(a: &FeatureCandidate, b: &FeatureCandidate, d2: u64) -> (close: bool)
    ensures
        close == too_close(a@, b@, d2 as int),
{
    let ddx: i128 = a.dx as i128 - b.dx as i128;
    let ddy: i128 = a.dy as i128 - b.dy as i128;
    assert(0 <= ddx * ddx <= 0x1_0000_0000_0000_0000) by (nonlinear_arith)
        requires
            -0x1_0000_0000 <= ddx <= 0x1_0000_0000,
    ;
    assert(0 <= ddy * ddy <= 0x1_0000_0000_0000_0000) by (nonlinear_arith)
        requires
            -0x1_0000_0000 <= ddy <= 0x1_0000_0000,
    ;
    let sx: i128 = ddx * ddx;
    let sy: i128 = ddy * ddy;
    sx + sy < d2 as i128
}

fn has_conflict(selected: &Vec<FeatureCandidate>, c: &FeatureCandidate, d2: u64) -> (conflict: bool)
    ensures
        conflict == conflicts(candidate_views(selected@), c@, d2 as int),
{
    let ghost sel = candidate_views(selected@);
    let mut i: usize = 0;
    while i < selected.len()
        invariant
            sel == candidate_views(selected@),
            i <= selected@.len(),
            forall|k: int| 0 <= k < i ==> !#[trigger] too_close(sel[k], c@, d2 as int),
        decreases selected@.len() - i,
    {
        if lies_too_close(&selected[i], c, d2) {
            assert(too_close(sel[i as int], c@, d2 as int));
            return true;
        }
        i = i + 1;
    }
    false
}

proof fn lemma_greedy_saturated(ranked: Seq<CandidateView>, i: int, n: int, cap: int, d2: int)
    requires
        0 <= i <= n,
        greedy(ranked, i, cap, d2).len() >= cap,
    ensures
        greedy(ranked, n, cap, d2) == greedy(ranked, i, cap, d2),
    decreases n - i,
{
    if n > i {
        lemma_greedy_saturated(ranked, i, n - 1, cap, d2);
    }
}

/// Greedily takes the ranked candidates that keep the minimum distance, up to `cap`.
fn select_candidates(ranked: &Vec<FeatureCandidate>, cap: usize, d2: u64) -> (selected: Vec<FeatureCandidate>)
    requires
        1 <= cap <= 64,
    ensures
        candidate_views(selected@) == greedy(
            candidate_views(ranked@),
            ranked@.len() as int,
            cap as int,
            d2 as int,
        ),
{
    let ghost all = candidate_views(ranked@);
    let mut selected: Vec<FeatureCandidate> = Vec::new();
    let mut i: usize = 0;
    while i < ranked.len() && selected.len() < cap
        invariant
            all == candidate_views(ranked@),
            i <= ranked@.len(),
            selected@.len() <= cap,
            candidate_views(selected@) == greedy(all, i as int, cap as int, d2 as int),
        decreases ranked@.len() - i,
    {
        let c = ranked[i];
        if !has_conflict(&selected, &c, d2) {
            selected.push(c);
            proof {
                assert(candidate_views(selected@) =~= greedy(all, i as int, cap as int, d2 as int).push(c@));
            }
        }
        i = i + 1;
    }
    proof {
        if i < ranked@.len() {
            lemma_greedy_saturated(all, i as int, ranked@.len() as int, cap as int, d2 as int);
        }
    }
    selected
}

/// Picks sparse feature points from full positive and negative sample frames, weighing
/// positive stability, negative separation and local edge strength.
///
/// Each frame is `(rgba, width, height)`.
pub fn suggest_feature_points(
    positive_frames: &[(&[u8], u32, u32)],
    negative_frames: &[(&[u8], u32, u32)],
    region: Region,
    limit: usize,
    minimum_distance: u32,
) -> (res: Result<Vec<FeatureCandidate>, String>)
    requires
        frames_consistent(frame_views(positive_frames@)),
        frames_consistent(frame_views(negative_frames@)),
        frame_views(positive_frames@).len() <= 16_843_009,
    ensures
        feature_input_error(frame_views(positive_frames@), frame_views(negative_frames@), region) is None <==> res is Ok,
        res matches Err(text) ==> Some(text@) == feature_input_error(frame_views(positive_frames@), frame_views(negative_frames@), region),
        res matches Ok(found) ==> candidate_views(found@) == discovered(
            frame_views(positive_frames@),
            frame_views(negative_frames@),
            region,
            limit,
            minimum_distance,
        ),
{
    if positive_frames.len() < 2 {
        return Err(String::from_str("多样本智能选点至少需要 2 张正样本"));
    }
    if negative_frames.len() == 0 {
        return Err(String::from_str("多样本智能选点至少需要 1 张负样本"));
    }
    let width = positive_frames[0].1;
    let height = positive_frames[0].2;
    if !all_sized(positive_frames, width, height) || !all_sized(negative_frames, width, height) {
        return Err(String::from_str("智能选点样本尺寸不一致"));
    }
    let fits_x = match region.x.checked_add(region.w) {
        Some(right) => right <= width,
        None => false,
    };
    let fits_y = match region.y.checked_add(region.h) {
        Some(bottom) => bottom <= height,
        None => false,
    };
    if region.w == 0 || region.h == 0 || !fits_x || !fits_y {
        return Err(String::from_str("智能选点区域超出样本帧"));
    }
    proof {
        assert forall|k: int| 0 <= k < frame_views(positive_frames@).len() implies frame_holds(
            (#[trigger] frame_views(positive_frames@)[k]).0,
            width,
            height,
        ) by {
            assert(frame_holds(frame_views(positive_frames@)[k].0, frame_views(positive_frames@)[k].1, frame_views(positive_frames@)[k].2));
        }
        assert forall|k: int| 0 <= k < frame_views(negative_frames@).len() implies frame_holds(
            (#[trigger] frame_views(negative_frames@)[k]).0,
            width,
            height,
        ) by {
            assert(frame_holds(frame_views(negative_frames@)[k].0, frame_views(negative_frames@)[k].1, frame_views(negative_frames@)[k].2));
        }
    }
    assert(region.w as u64 * region.h as u64 <= 0xffff_fffe_0000_0001u64) by (nonlinear_arith)
        requires
            region.w <= 0xffff_ffffu32,
            region.h <= 0xffff_ffffu32,
    ;
    let pixels: u64 = region.w as u64 * region.h as u64;
    let step = sampling_step(pixels);
    let scored = scan_candidates(positive_frames, negative_frames, width, height, &region, step);
    let ranked = rank_candidates(&scored);
    let cap: usize = if limit < 1 { 1 } else if limit > 64 { 64 } else { limit };
    let md: u64 = if minimum_distance < 1 { 1 } else { minimum_distance as u64 };
    assert(md * md <= 0xffff_fffe_0000_0001u64) by (nonlinear_arith)
        requires
            md <= 0xffff_ffff,
    ;
    let d2: u64 = md * md;
    let selected = select_candidates(&ranked, cap, d2);
    Ok(selected)
}

// ---------------------------------------------------------------- frame order

proof fn lemma_frames_within(frames: Seq<(Seq<u8>, u32, u32)>, width: u32, x: u32, y: u32, c: int, k: int)
    requires
        0 <= k < frames.len(),
    ensures
        frames_min(frames, width, x, y, c) <= pixel_spec(frames[k].0, width, x, y)[c] <= frames_max(
            frames,
            width,
            x,
            y,
            c,
        ),
    decreases frames.len(),
{
    reveal(frames_min);
    reveal(frames_max);
    if k < frames.len() - 1 {
        lemma_frames_within(frames.drop_last(), width, x, y, c, k);
    }
}

proof fn lemma_frames_attained(frames: Seq<(Seq<u8>, u32, u32)>, width: u32, x: u32, y: u32, c: int)
    requires
        frames.len() > 0,
    ensures
        exists|k: int|
            0 <= k < frames.len() && frames_min(frames, width, x, y, c) == pixel_spec(
                (#[trigger] frames[k]).0,
                width,
                x,
                y,
            )[c],
        exists|k: int|
            0 <= k < frames.len() && frames_max(frames, width, x, y, c) == pixel_spec(
                (#[trigger] frames[k]).0,
                width,
                x,
                y,
            )[c],
    decreases frames.len(),
{
    reveal(frames_min);
    reveal(frames_max);
    let last = frames.len() - 1;
    assert(frames.last() == frames[last]);
    let rest = frames.drop_last();
    let v = pixel_spec(frames[last].0, width, x, y)[c];
    if frames.len() > 1 {
        lemma_frames_attained(rest, width, x, y, c);
        let k1 = choose|k: int|
            0 <= k < rest.len() && frames_min(rest, width, x, y, c) == pixel_spec((#[trigger] rest[k]).0, width, x, y)[c];
        let k2 = choose|k: int|
            0 <= k < rest.len() && frames_max(rest, width, x, y, c) == pixel_spec((#[trigger] rest[k]).0, width, x, y)[c];
        assert(rest[k1] == frames[k1]);
        assert(rest[k2] == frames[k2]);
        if v < frames_min(rest, width, x, y, c) {
            assert(frames_min(frames, width, x, y, c) == pixel_spec(frames[last].0, width, x, y)[c]);
        } else {
            assert(frames_min(frames, width, x, y, c) == pixel_spec(frames[k1].0, width, x, y)[c]);
        }
        if v > frames_max(rest, width, x, y, c) {
            assert(frames_max(frames, width, x, y, c) == pixel_spec(frames[last].0, width, x, y)[c]);
        } else {
            assert(frames_max(frames, width, x, y, c) == pixel_spec(frames[k2].0, width, x, y)[c]);
        }
    } else {
        assert(frames_min(rest, width, x, y, c) == 255);
        assert(frames_max(rest, width, x, y, c) == 0);
        assert(frames_min(frames, width, x, y, c) == pixel_spec(frames[last].0, width, x, y)[c]);
        assert(frames_max(frames, width, x, y, c) == pixel_spec(frames[last].0, width, x, y)[c]);
    }
}

proof fn lemma_frames_extremes_permuted(
    frames: Seq<(Seq<u8>, u32, u32)>,
    frames2: Seq<(Seq<u8>, u32, u32)>,
    width: u32,
    x: u32,
    y: u32,
    c: int,
)
    requires
        frames.len() > 0,
        frames.to_multiset() == frames2.to_multiset(),
    ensures
        frames_min(frames, width, x, y, c) == frames_min(frames2, width, x, y, c),
        frames_max(frames, width, x, y, c) == frames_max(frames2, width, x, y, c),
{
    lemma_frames_attained(frames, width, x, y, c);
    let a1 = choose|k: int|
        0 <= k < frames.len() && frames_min(frames, width, x, y, c) == pixel_spec((#[trigger] frames[k]).0, width, x, y)[c];
    let b1 = choose|k: int|
        0 <= k < frames.len() && frames_max(frames, width, x, y, c) == pixel_spec((#[trigger] frames[k]).0, width, x, y)[c];
    let a2 = lemma_permuted_element(frames, frames2, a1);
    let b2 = lemma_permuted_element(frames, frames2, b1);
    lemma_frames_within(frames2, width, x, y, c, a2);
    lemma_frames_within(frames2, width, x, y, c, b2);
    lemma_frames_attained(frames2, width, x, y, c);
    let a3 = choose|k: int|
        0 <= k < frames2.len() && frames_min(frames2, width, x, y, c) == pixel_spec((#[trigger] frames2[k]).0, width, x, y)[c];
    let b3 = choose|k: int|
        0 <= k < frames2.len() && frames_max(frames2, width, x, y, c) == pixel_spec((#[trigger] frames2[k]).0, width, x, y)[c];
    let a4 = lemma_permuted_element(frames2, frames, a3);
    let b4 = lemma_permuted_element(frames2, frames, b3);
    lemma_frames_within(frames, width, x, y, c, a4);
    lemma_frames_within(frames, width, x, y, c, b4);
}

proof fn lemma_frames_sum_concat(
    a: Seq<(Seq<u8>, u32, u32)>,
    b: Seq<(Seq<u8>, u32, u32)>,
    width: u32,
    x: u32,
    y: u32,
    c: int,
)
    ensures
        frames_sum(a + b, width, x, y, c) == frames_sum(a, width, x, y, c) + frames_sum(b, width, x, y, c),
    decreases b.len(),
{
    reveal(frames_sum);
    if b.len() == 0 {
        assert(a + b =~= a);
    } else {
        lemma_frames_sum_concat(a, b.drop_last(), width, x, y, c);
        assert((a + b).drop_last() =~= a + b.drop_last());
        assert((a + b).last() == b.last());
    }
}

proof fn lemma_frames_sum_permuted(
    frames: Seq<(Seq<u8>, u32, u32)>,
    frames2: Seq<(Seq<u8>, u32, u32)>,
    width: u32,
    x: u32,
    y: u32,
    c: int,
)
    requires
        frames.to_multiset() == frames2.to_multiset(),
    ensures
        frames_sum(frames, width, x, y, c) == frames_sum(frames2, width, x, y, c),
    decreases frames.len(),
{
    broadcast use vstd::multiset::group_multiset_axioms;

    reveal(frames_sum);
    vstd::seq_lib::to_multiset_len(frames);
    vstd::seq_lib::to_multiset_len(frames2);
    if frames.len() > 0 {
        let last = frames.len() - 1;
        let f = frames[last];
        let rest = frames.drop_last();
        let j = lemma_permuted_element(frames, frames2, last);
        let rest2 = frames2.remove(j);
        vstd::seq_lib::to_multiset_remove(frames2, j);
        assert(frames =~= rest.push(f));
        vstd::seq_lib::to_multiset_build(rest, f);
        assert(rest.to_multiset() =~= frames.to_multiset().remove(f));
        lemma_frames_sum_permuted(rest, rest2, width, x, y, c);
        assert(frames.last() == f);
        let single = seq![f];
        assert(single.drop_last() =~= Seq::<(Seq<u8>, u32, u32)>::empty());
        assert(single.last() == f);
        assert(frames_sum(single.drop_last(), width, x, y, c) == 0);
        let front = frames2.take(j);
        let back = frames2.skip(j + 1);
        assert(rest2 =~= front + back);
        assert(frames2 =~= front + single + back);
        lemma_frames_sum_concat(front, back, width, x, y, c);
        lemma_frames_sum_concat(front, single, width, x, y, c);
        lemma_frames_sum_concat(front + single, back, width, x, y, c);
    }
}

proof fn lemma_nearest_within(
    frames: Seq<(Seq<u8>, u32, u32)>,
    width: u32,
    x: u32,
    y: u32,
    reference: Seq<u8>,
    k: int,
)
    requires
        0 <= k < frames.len(),
    ensures
        nearest_negative(frames, width, x, y, reference) <= colour_distance(
            reference,
            pixel_spec(frames[k].0, width, x, y),
        ),
    decreases frames.len(),
{
    if k < frames.len() - 1 {
        lemma_nearest_within(frames.drop_last(), width, x, y, reference, k);
    }
}

proof fn lemma_nearest_attained(frames: Seq<(Seq<u8>, u32, u32)>, width: u32, x: u32, y: u32, reference: Seq<u8>)
    requires
        frames.len() > 0,
    ensures
        exists|k: int|
            0 <= k < frames.len() && nearest_negative(frames, width, x, y, reference) == colour_distance(
                reference,
                pixel_spec((#[trigger] frames[k]).0, width, x, y),
            ),
    decreases frames.len(),
{
    let last = frames.len() - 1;
    assert(frames.last() == frames[last]);
    if frames.len() > 1 {
        let rest = frames.drop_last();
        lemma_nearest_attained(rest, width, x, y, reference);
        let k1 = choose|k: int|
            0 <= k < rest.len() && nearest_negative(rest, width, x, y, reference) == colour_distance(
                reference,
                pixel_spec((#[trigger] rest[k]).0, width, x, y),
            );
        assert(rest[k1] == frames[k1]);
        if colour_distance(reference, pixel_spec(frames[last].0, width, x, y)) < nearest_negative(
            rest,
            width,
            x,
            y,
            reference,
        ) {
            assert(nearest_negative(frames, width, x, y, reference) == colour_distance(
                reference,
                pixel_spec(frames[last].0, width, x, y),
            ));
        } else {
            assert(nearest_negative(frames, width, x, y, reference) == colour_distance(
                reference,
                pixel_spec(frames[k1].0, width, x, y),
            ));
        }
    } else {
        assert(nearest_negative(frames, width, x, y, reference) == colour_distance(
            reference,
            pixel_spec(frames[last].0, width, x, y),
        ));
    }
}

proof fn lemma_nearest_permuted(
    frames: Seq<(Seq<u8>, u32, u32)>,
    frames2: Seq<(Seq<u8>, u32, u32)>,
    width: u32,
    x: u32,
    y: u32,
    reference: Seq<u8>,
)
    requires
        frames.to_multiset() == frames2.to_multiset(),
    ensures
        nearest_negative(frames, width, x, y, reference) == nearest_negative(frames2, width, x, y, reference),
{
    vstd::seq_lib::to_multiset_len(frames);
    vstd::seq_lib::to_multiset_len(frames2);
    if frames.len() > 0 {
        lemma_nearest_attained(frames, width, x, y, reference);
        let a1 = choose|k: int|
            0 <= k < frames.len() && nearest_negative(frames, width, x, y, reference) == colour_distance(
                reference,
                pixel_spec((#[trigger] frames[k]).0, width, x, y),
            );
        let a2 = lemma_permuted_element(frames, frames2, a1);
        lemma_nearest_within(frames2, width, x, y, reference, a2);
        lemma_nearest_attained(frames2, width, x, y, reference);
        let a3 = choose|k: int|
            0 <= k < frames2.len() && nearest_negative(frames2, width, x, y, reference) == colour_distance(
                reference,
                pixel_spec((#[trigger] frames2[k]).0, width, x, y),
            );
        let a4 = lemma_permuted_element(frames2, frames, a3);
        lemma_nearest_within(frames, width, x, y, reference, a4);
    }
}

/// The frames are reordered keeping the first positive frame in place.
pub open spec fn reordered_frames(
    positives: Seq<(Seq<u8>, u32, u32)>,
    negatives: Seq<(Seq<u8>, u32, u32)>,
    positives2: Seq<(Seq<u8>, u32, u32)>,
    negatives2: Seq<(Seq<u8>, u32, u32)>,
) -> bool {
    &&& positives.len() > 0
    &&& positives2.len() > 0
    &&& positives2[0] == positives[0]
    &&& positives2.to_multiset() == positives.to_multiset()
    &&& negatives2.to_multiset() == negatives.to_multiset()
}

proof fn lemma_candidate_reordered(
    positives: Seq<(Seq<u8>, u32, u32)>,
    negatives: Seq<(Seq<u8>, u32, u32)>,
    positives2: Seq<(Seq<u8>, u32, u32)>,
    negatives2: Seq<(Seq<u8>, u32, u32)>,
    width: u32,
    region: Region,
    dx: u32,
    dy: u32,
)
    requires
        reordered_frames(positives, negatives, positives2, negatives2),
    ensures
        candidate_at(positives, negatives, width, region, dx, dy) == candidate_at(
            positives2,
            negatives2,
            width,
            region,
            dx,
            dy,
        ),
{
    let x = (region.x + dx) as u32;
    let y = (region.y + dy) as u32;
    vstd::seq_lib::to_multiset_len(positives);
    vstd::seq_lib::to_multiset_len(positives2);
    lemma_frames_extremes_permuted(positives, positives2, width, x, y, 0);
    lemma_frames_extremes_permuted(positives, positives2, width, x, y, 1);
    lemma_frames_extremes_permuted(positives, positives2, width, x, y, 2);
    lemma_frames_extremes_permuted(positives, positives2, width, x, y, 3);
    lemma_frames_sum_permuted(positives, positives2, width, x, y, 0);
    lemma_frames_sum_permuted(positives, positives2, width, x, y, 1);
    lemma_frames_sum_permuted(positives, positives2, width, x, y, 2);
    lemma_frames_sum_permuted(positives, positives2, width, x, y, 3);
    let reference = mean_colour(positives, width, x, y);
    assert(reference =~= mean_colour(positives2, width, x, y));
    lemma_nearest_permuted(negatives, negatives2, width, x, y, reference);
    assert(Seq::new(
        3,
        |c: int| (((channel_span(positives, width, x, y, c) + 1) / 2) as u8).saturating_add(8),
    ) =~= Seq::new(3, |c: int| (((channel_span(positives2, width, x, y, c) + 1) / 2) as u8).saturating_add(8)));
}

proof fn lemma_row_scan_reordered(
    positives: Seq<(Seq<u8>, u32, u32)>,
    negatives: Seq<(Seq<u8>, u32, u32)>,
    positives2: Seq<(Seq<u8>, u32, u32)>,
    negatives2: Seq<(Seq<u8>, u32, u32)>,
    width: u32,
    region: Region,
    step: int,
    dy: u32,
    dx: int,
)
    requires
        reordered_frames(positives, negatives, positives2, negatives2),
    ensures
        row_scan(positives, negatives, width, region, step, dy, dx) == row_scan(
            positives2,
            negatives2,
            width,
            region,
            step,
            dy,
            dx,
        ),
    decreases if dx < region.w { region.w - dx } else { 0 },
{
    if !(step <= 0 || dx + 1 >= region.w) {
        lemma_candidate_reordered(positives, negatives, positives2, negatives2, width, region, dx as u32, dy);
        lemma_row_scan_reordered(positives, negatives, positives2, negatives2, width, region, step, dy, dx + step);
    }
}

proof fn lemma_grid_scan_reordered(
    positives: Seq<(Seq<u8>, u32, u32)>,
    negatives: Seq<(Seq<u8>, u32, u32)>,
    positives2: Seq<(Seq<u8>, u32, u32)>,
    negatives2: Seq<(Seq<u8>, u32, u32)>,
    width: u32,
    region: Region,
    step: int,
    dy: int,
)
    requires
        reordered_frames(positives, negatives, positives2, negatives2),
    ensures
        grid_scan(positives, negatives, width, region, step, dy) == grid_scan(
            positives2,
            negatives2,
            width,
            region,
            step,
            dy,
        ),
    decreases if dy < region.h { region.h - dy } else { 0 },
{
    if !(step <= 0 || dy + 1 >= region.h) {
        lemma_row_scan_reordered(
            positives,
            negatives,
            positives2,
            negatives2,
            width,
            region,
            step,
            #[verifier::truncate] (dy as u32),
            1,
        );
        lemma_grid_scan_reordered(positives, negatives, positives2, negatives2, width, region, step, dy + step);
    }
}

/// Law: feature discovery depends neither on the order of the positive frames after the first
/// one nor on the order of the negative frames: reordering them gives the same input error, if
/// any, and the same discovered points.
pub proof fn discovery_ignores_frame_order(
    positives: Seq<(Seq<u8>, u32, u32)>,
    negatives: Seq<(Seq<u8>, u32, u32)>,
    positives2: Seq<(Seq<u8>, u32, u32)>,
    negatives2: Seq<(Seq<u8>, u32, u32)>,
    region: Region,
    limit: usize,
    minimum_distance: u32,
)
    requires
        reordered_frames(positives, negatives, positives2, negatives2),
    ensures
        feature_input_error(positives2, negatives2, region) == feature_input_error(positives, negatives, region),
        discovered(positives2, negatives2, region, limit, minimum_distance) == discovered(
            positives,
            negatives,
            region,
            limit,
            minimum_distance,
        ),
{
    vstd::seq_lib::to_multiset_len(positives);
    vstd::seq_lib::to_multiset_len(positives2);
    vstd::seq_lib::to_multiset_len(negatives);
    vstd::seq_lib::to_multiset_len(negatives2);
    let w = positives[0].1;
    let h = positives[0].2;
    assert(frames_sized(positives, w, h) <==> frames_sized(positives2, w, h)) by {
        if frames_sized(positives, w, h) {
            assert forall|k: int| 0 <= k < positives2.len() implies (#[trigger] positives2[k]).1 == w
                && positives2[k].2 == h by {
                let k2 = lemma_permuted_element(positives2, positives, k);
            }
        }
        if frames_sized(positives2, w, h) {
            assert forall|k: int| 0 <= k < positives.len() implies (#[trigger] positives[k]).1 == w
                && positives[k].2 == h by {
                let k2 = lemma_permuted_element(positives, positives2, k);
            }
        }
    }
    assert(frames_sized(negatives, w, h) <==> frames_sized(negatives2, w, h)) by {
        if frames_sized(negatives, w, h) {
            assert forall|k: int| 0 <= k < negatives2.len() implies (#[trigger] negatives2[k]).1 == w
                && negatives2[k].2 == h by {
                let k2 = lemma_permuted_element(negatives2, negatives, k);
            }
        }
        if frames_sized(negatives2, w, h) {
            assert forall|k: int| 0 <= k < negatives.len() implies (#[trigger] negatives[k]).1 == w
                && negatives[k].2 == h by {
                let k2 = lemma_permuted_element(negatives, negatives2, k);
            }
        }
    }
    lemma_grid_scan_reordered(positives, negatives, positives2, negatives2, w, region, sample_step(region.w * region.h), 1);
}

// ---------------------------------------------------------------- quality order

proof fn lemma_with_quality_score(s: Seq<CandidateView>, q: int)
    ensures
        forall|i: int| 0 <= i < with_quality(s, q).len() ==> (#[trigger] with_quality(s, q)[i]).quality_score == q,
    decreases s.len(),
{
    if s.len() > 0 {
        lemma_with_quality_score(s.drop_last(), q);
        let w = with_quality(s, q);
        let rest = with_quality(s.drop_last(), q);
        assert forall|i: int| 0 <= i < w.len() implies (#[trigger] w[i]).quality_score == q by {
            if i < rest.len() {
                assert(w[i] == rest[i]);
            }
        }
    }
}

proof fn lemma_with_quality_complete(s: Seq<CandidateView>, c: CandidateView)
    requires
        s.contains(c),
    ensures
        with_quality(s, c.quality_score as int).contains(c),
    decreases s.len(),
{
    let q = c.quality_score as int;
    let w = with_quality(s, q);
    let rest = with_quality(s.drop_last(), q);
    if s.last() == c {
        assert(w[w.len() - 1] == c);
    } else {
        let k = choose|k: int| 0 <= k < s.len() && s[k] == c;
        assert(k != s.len() - 1);
        assert(s.drop_last()[k] == c);
        lemma_with_quality_complete(s.drop_last(), c);
        let m = choose|m: int| 0 <= m < rest.len() && rest[m] == c;
        assert(w[m] == rest[m]);
    }
}

proof fn lemma_ranked_order(s: Seq<CandidateView>, q: int)
    requires
        q >= 0,
    ensures
        forall|i: int| 0 <= i < ranked_from(s, q).len() ==> (#[trigger] ranked_from(s, q)[i]).quality_score >= q,
        forall|i: int, j: int|
            0 <= i < j < ranked_from(s, q).len() ==> (#[trigger] ranked_from(s, q)[i]).quality_score
                >= (#[trigger] ranked_from(s, q)[j]).quality_score,
        forall|c: CandidateView| s.contains(c) && c.quality_score >= q ==> #[trigger] ranked_from(s, q).contains(c),
    decreases 256 - q,
{
    if q <= 255 {
        lemma_ranked_order(s, q + 1);
        lemma_with_quality_score(s, q);
        let r = ranked_from(s, q);
        let hi = ranked_from(s, q + 1);
        let w = with_quality(s, q);
        assert(r == hi + w);
        assert forall|i: int| 0 <= i < r.len() implies (#[trigger] r[i]).quality_score >= q by {
            if i < hi.len() {
                assert(r[i] == hi[i]);
            } else {
                assert(r[i] == w[i - hi.len()]);
            }
        }
        assert forall|i: int, j: int| 0 <= i < j < r.len() implies (#[trigger] r[i]).quality_score
            >= (#[trigger] r[j]).quality_score by {
            if j < hi.len() {
                assert(r[i] == hi[i] && r[j] == hi[j]);
            } else if i < hi.len() {
                assert(r[i] == hi[i] && r[j] == w[j - hi.len()]);
            } else {
                assert(r[i] == w[i - hi.len()] && r[j] == w[j - hi.len()]);
            }
        }
        assert forall|c: CandidateView| s.contains(c) && c.quality_score >= q implies #[trigger] r.contains(c) by {
            if c.quality_score == q {
                lemma_with_quality_complete(s, c);
                let m = choose|m: int| 0 <= m < w.len() && w[m] == c;
                assert(r[hi.len() + m] == c);
            } else {
                assert(hi.contains(c));
                let m = choose|m: int| 0 <= m < hi.len() && hi[m] == c;
                assert(r[m] == c);
            }
        }
    } else {
        assert forall|c: CandidateView| s.contains(c) && c.quality_score >= q implies #[trigger] ranked_from(
            s,
            q,
        ).contains(c) by {
            assert(c.quality_score <= 255);
        }
    }
}

/// Greedy selection only ever appends: an earlier selection is a prefix of a later one.
proof fn lemma_greedy_prefix(ranked: Seq<CandidateView>, m: int, n: int, cap: int, d2: int)
    requires
        0 <= m <= n,
    ensures
        greedy(ranked, m, cap, d2).len() <= greedy(ranked, n, cap, d2).len(),
        forall|t: int|
            0 <= t < greedy(ranked, m, cap, d2).len() ==> #[trigger] greedy(ranked, n, cap, d2)[t] == greedy(
                ranked,
                m,
                cap,
                d2,
            )[t],
    decreases n - m,
{
    if m < n {
        lemma_greedy_prefix(ranked, m, n - 1, cap, d2);
        let a = greedy(ranked, n - 1, cap, d2);
        let b = greedy(ranked, n, cap, d2);
        assert forall|t: int| 0 <= t < a.len() implies #[trigger] b[t] == a[t] by {}
    }
}

/// Where each selected candidate comes from: the step at which it was taken.
proof fn lemma_greedy_origin(ranked: Seq<CandidateView>, n: int, cap: int, d2: int, i: int) -> (p: int)
    requires
        0 <= n,
        0 <= i < greedy(ranked, n, cap, d2).len(),
    ensures
        0 <= p < n,
        greedy(ranked, p, cap, d2).len() == i,
        greedy(ranked, n, cap, d2)[i] == ranked[p],
    decreases n,
{
    let prev = greedy(ranked, n - 1, cap, d2);
    if i < prev.len() {
        let p = lemma_greedy_origin(ranked, n - 1, cap, d2, i);
        assert(greedy(ranked, n, cap, d2)[i] == prev[i]);
        p
    } else {
        n - 1
    }
}

/// The step at which a ranked candidate is looked at: it is taken, or the selection is full,
/// or it lies too close to a candidate taken before.
proof fn lemma_greedy_step(ranked: Seq<CandidateView>, m: int, n: int, cap: int, d2: int)
    requires
        0 <= m < n,
    ensures
        ({
            let before = greedy(ranked, m, cap, d2);
            let found = greedy(ranked, n, cap, d2);
            ||| before.len() < found.len() && found[before.len() as int] == ranked[m]
            ||| before.len() >= cap
            ||| exists|t: int| 0 <= t < before.len() && too_close(#[trigger] found[t], ranked[m], d2)
        }),
{
    let before = greedy(ranked, m, cap, d2);
    let after = greedy(ranked, m + 1, cap, d2);
    let found = greedy(ranked, n, cap, d2);
    lemma_greedy_prefix(ranked, m + 1, n, cap, d2);
    lemma_greedy_prefix(ranked, m, n, cap, d2);
    if before.len() >= cap {
    } else if conflicts(before, ranked[m], d2) {
        let t = choose|t: int| 0 <= t < before.len() && #[trigger] too_close(before[t], ranked[m], d2);
        assert(found[t] == before[t]);
    } else {
        assert(after == before.push(ranked[m]));
        assert(found[before.len() as int] == after[before.len() as int]);
    }
}

/// Law: feature discovery takes the kept candidates from the highest quality down. The points
/// come out in non-increasing quality; a kept candidate of higher quality than a returned point
/// was returned before it or lies closer than the minimum distance to a point returned before
/// it; when fewer points than the limit (clamped to 1..=64) come out, every kept candidate was
/// returned or lies too close to a returned point. So the first point has the highest quality of
/// all kept candidates, and nothing is returned only when no candidate is kept.
pub proof fn discovery_takes_the_best_candidates_first(
    positives: Seq<(Seq<u8>, u32, u32)>,
    negatives: Seq<(Seq<u8>, u32, u32)>,
    region: Region,
    limit: usize,
    minimum_distance: u32,
)
    ensures
        ({
            let scan = grid_scan(positives, negatives, positives[0].1, region, sample_step(region.w * region.h), 1);
            let found = discovered(positives, negatives, region, limit, minimum_distance);
            let cap: int = if limit < 1 { 1 } else if limit > 64 { 64 } else { limit as int };
            let d: int = if minimum_distance < 1 { 1 } else { minimum_distance as int };
            let close = |a: CandidateView, b: CandidateView| (a.dx - b.dx) * (a.dx - b.dx) + (a.dy - b.dy) * (a.dy - b.dy) < d * d;
            &&& found.len() <= cap
            &&& forall|i: int, j: int|
                0 <= i < j < found.len() ==> (#[trigger] found[i]).quality_score >= (#[trigger] found[j]).quality_score
            &&& forall|c: CandidateView, i: int|
                #![trigger scan.contains(c), found[i]]
                scan.contains(c) && 0 <= i < found.len() && c.quality_score > found[i].quality_score
                    ==> exists|j: int| 0 <= j < i && (found[j] == c || close(#[trigger] found[j], c))
            &&& found.len() < cap ==> forall|c: CandidateView|
                #[trigger] scan.contains(c) ==> exists|j: int|
                    0 <= j < found.len() && (found[j] == c || close(#[trigger] found[j], c))
            &&& found.len() > 0 ==> forall|c: CandidateView|
                #[trigger] scan.contains(c) ==> c.quality_score <= found[0].quality_score
            &&& found.len() == 0 <==> scan.len() == 0
        }),
{
    let scan = grid_scan(positives, negatives, positives[0].1, region, sample_step(region.w * region.h), 1);
    let ranked = ranked_from(scan, 0);
    let n = ranked.len() as int;
    let cap = selection_cap(limit);
    let d2 = min_distance_squared(minimum_distance);
    let found = discovered(positives, negatives, region, limit, minimum_distance);
    let d: int = if minimum_distance < 1 { 1 } else { minimum_distance as int };
    let close = |a: CandidateView, b: CandidateView| (a.dx - b.dx) * (a.dx - b.dx) + (a.dy - b.dy) * (a.dy - b.dy) < d * d;
    assert(found == greedy(ranked, n, cap, d2));
    assert(d2 == d * d);
    lemma_ranked_order(scan, 0);
    lemma_ranked_from(scan, 0);
    lemma_greedy(ranked, n, cap, d2);
    assert forall|i: int, j: int| 0 <= i < j < found.len() implies (#[trigger] found[i]).quality_score
        >= (#[trigger] found[j]).quality_score by {
        let pi = lemma_greedy_origin(ranked, n, cap, d2, i);
        let pj = lemma_greedy_origin(ranked, n, cap, d2, j);
        if pj <= pi {
            lemma_greedy_prefix(ranked, pj, pi, cap, d2);
        }
        assert(ranked[pi].quality_score >= ranked[pj].quality_score);
    }
    assert forall|c: CandidateView, i: int|
        #![trigger scan.contains(c), found[i]]
        scan.contains(c) && 0 <= i < found.len() && c.quality_score > found[i].quality_score
            implies exists|j: int| 0 <= j < i && (found[j] == c || close(#[trigger] found[j], c)) by {
        assert(ranked.contains(c));
        let m = choose|m: int| 0 <= m < ranked.len() && ranked[m] == c;
        let p = lemma_greedy_origin(ranked, n, cap, d2, i);
        if m >= p {
            if m > p {
                assert(ranked[p].quality_score >= ranked[m].quality_score);
            }
            assert(false);
        }
        lemma_greedy_prefix(ranked, m, p, cap, d2);
        lemma_greedy_step(ranked, m, n, cap, d2);
        let before = greedy(ranked, m, cap, d2);
        if before.len() < found.len() && found[before.len() as int] == ranked[m] {
            assert(before.len() != i);
            assert(found[before.len() as int] == c);
        } else if before.len() >= cap {
            assert(false);
        } else {
            let t = choose|t: int| 0 <= t < before.len() && too_close(#[trigger] found[t], ranked[m], d2);
            assert(close(found[t], c));
        }
    }
    if found.len() < cap {
        assert forall|c: CandidateView| #[trigger] scan.contains(c) implies exists|j: int|
            0 <= j < found.len() && (found[j] == c || close(#[trigger] found[j], c)) by {
            assert(ranked.contains(c));
            let m = choose|m: int| 0 <= m < ranked.len() && ranked[m] == c;
            lemma_greedy_step(ranked, m, n, cap, d2);
            lemma_greedy_prefix(ranked, m, n, cap, d2);
            let before = greedy(ranked, m, cap, d2);
            if before.len() < found.len() && found[before.len() as int] == ranked[m] {
                assert(found[before.len() as int] == c);
            } else if before.len() >= cap {
                assert(false);
            } else {
                let t = choose|t: int| 0 <= t < before.len() && too_close(#[trigger] found[t], ranked[m], d2);
                assert(close(found[t], c));
            }
        }
    }
    if found.len() > 0 {
        assert forall|c: CandidateView| #[trigger] scan.contains(c) implies c.quality_score <= found[0].quality_score by {
            if c.quality_score > found[0].quality_score {
                assert(exists|j: int| 0 <= j < 0 && (found[j] == c || close(#[trigger] found[j], c)));
            }
        }
    }
    if found.len() == 0 && scan.len() > 0 {
        assert(scan.contains(scan[0]));
        assert(exists|j: int| 0 <= j < found.len() && (found[j] == scan[0] || close(#[trigger] found[j], scan[0])));
    }
    if scan.len() == 0 && n > 0 {
        assert(scan.contains(ranked[0]));
    }
}

// ---------------------------------------------------------------- candidate statistics

proof fn lemma_frames_sum_bounds(frames: Seq<(Seq<u8>, u32, u32)>, width: u32, x: u32, y: u32, c: int, lo: int, hi: int)
    requires
        forall|k: int| 0 <= k < frames.len() ==> lo <= #[trigger] pixel_spec(frames[k].0, width, x, y)[c] <= hi,
    ensures
        frames.len() * lo <= frames_sum(frames, width, x, y, c) <= frames.len() * hi,
    decreases frames.len(),
{
    reveal(frames_sum);
    if frames.len() > 0 {
        let rest = frames.drop_last();
        assert forall|k: int| 0 <= k < rest.len() implies lo <= #[trigger] pixel_spec(rest[k].0, width, x, y)[c] <= hi by {
            assert(rest[k] == frames[k]);
        }
        lemma_frames_sum_bounds(rest, width, x, y, c, lo, hi);
        assert(frames.last() == frames[frames.len() - 1]);
        let n = frames.len() as int;
        let v = pixel_spec(frames.last().0, width, x, y)[c] as int;
        let s = frames_sum(rest, width, x, y, c);
        assert((n - 1) * lo + lo == n * lo && (n - 1) * hi + hi == n * hi) by (nonlinear_arith);
    }
}

/// The four bytes a frame holds at the pixel of a region offset: the region's corner plus the
/// offset, row by row, four bytes per pixel.
pub open spec fn bytes_at(frame: Seq<u8>, width: u32, region: Region, dx: u32, dy: u32) -> Seq<u8> {
    let x = (region.x + dx) as u32;
    let y = (region.y + dy) as u32;
    frame.subrange((y * width + x) * 4, (y * width + x) * 4 + 4)
}

/// Some positive frame shows at most `v` in channel `ch` at the offset's pixel.
pub open spec fn lo_witness(positives: Seq<(Seq<u8>, u32, u32)>, width: u32, region: Region, dx: u32, dy: u32, ch: int, v: u8) -> bool {
    exists|k: int| 0 <= k < positives.len() && #[trigger] bytes_at(positives[k].0, width, region, dx, dy)[ch] <= v
}

/// Some positive frame shows at least `v` in channel `ch` at the offset's pixel.
pub open spec fn hi_witness(positives: Seq<(Seq<u8>, u32, u32)>, width: u32, region: Region, dx: u32, dy: u32, ch: int, v: u8) -> bool {
    exists|k: int| 0 <= k < positives.len() && v <= #[trigger] bytes_at(positives[k].0, width, region, dx, dy)[ch]
}

/// Law: what a discovery candidate says of the positive frames at its position (the region's
/// corner plus its offset): its reference colour lies, channel by channel, between the least and
/// the greatest value that the positive frames show there, and its jitter is the largest RGB
/// difference between two positive frames there.
pub proof fn candidate_reference_and_jitter(
    positives: Seq<(Seq<u8>, u32, u32)>,
    negatives: Seq<(Seq<u8>, u32, u32)>,
    width: u32,
    region: Region,
    dx: u32,
    dy: u32,
)
    requires
        positives.len() > 0,
    ensures
        candidate_at(positives, negatives, width, region, dx, dy).dx == dx,
        candidate_at(positives, negatives, width, region, dx, dy).dy == dy,
        forall|ch: int|
            0 <= ch < 4 ==> lo_witness(
                positives,
                width,
                region,
                dx,
                dy,
                ch,
                #[trigger] candidate_at(positives, negatives, width, region, dx, dy).reference[ch],
            ) && hi_witness(
                positives,
                width,
                region,
                dx,
                dy,
                ch,
                candidate_at(positives, negatives, width, region, dx, dy).reference[ch],
            ),
        forall|ch: int, k1: int, k2: int|
            0 <= ch < 3 && 0 <= k1 < positives.len() && 0 <= k2 < positives.len() ==> #[trigger] bytes_at(
                positives[k1].0,
                width,
                region,
                dx,
                dy,
            )[ch] - #[trigger] bytes_at(positives[k2].0, width, region, dx, dy)[ch] <= candidate_at(
                positives,
                negatives,
                width,
                region,
                dx,
                dy,
            ).positive_range,
        exists|ch: int, k1: int, k2: int|
            0 <= ch < 3 && 0 <= k1 < positives.len() && 0 <= k2 < positives.len() && #[trigger] bytes_at(
                positives[k1].0,
                width,
                region,
                dx,
                dy,
            )[ch] - #[trigger] bytes_at(positives[k2].0, width, region, dx, dy)[ch] == candidate_at(
                positives,
                negatives,
                width,
                region,
                dx,
                dy,
            ).positive_range,
{
    let c = candidate_at(positives, negatives, width, region, dx, dy);
    let x = (region.x + dx) as u32;
    let y = (region.y + dy) as u32;
    let n = positives.len() as int;
    assert forall|k: int| 0 <= k < positives.len() implies #[trigger] bytes_at(positives[k].0, width, region, dx, dy)
        == pixel_spec(positives[k].0, width, x, y) by {}
    assert forall|ch: int| 0 <= ch < 4 implies {
        &&& lo_witness(positives, width, region, dx, dy, ch, candidate_at(positives, negatives, width, region, dx, dy).reference[ch])
        &&& hi_witness(positives, width, region, dx, dy, ch, candidate_at(positives, negatives, width, region, dx, dy).reference[ch])
    } by {
        lemma_frames_attained(positives, width, x, y, ch);
        let lo = frames_min(positives, width, x, y, ch) as int;
        let hi = frames_max(positives, width, x, y, ch) as int;
        let k1 = choose|k: int| 0 <= k < positives.len() && frames_min(positives, width, x, y, ch) == pixel_spec((#[trigger] positives[k]).0, width, x, y)[ch];
        let k2 = choose|k: int| 0 <= k < positives.len() && frames_max(positives, width, x, y, ch) == pixel_spec((#[trigger] positives[k]).0, width, x, y)[ch];
        assert forall|k: int| 0 <= k < positives.len() implies lo <= #[trigger] pixel_spec(positives[k].0, width, x, y)[ch] <= hi by {
            lemma_frames_within(positives, width, x, y, ch, k);
        }
        lemma_frames_sum_bounds(positives, width, x, y, ch, lo, hi);
        let sum = frames_sum(positives, width, x, y, ch);
        assert(lo <= sum / n <= hi) by (nonlinear_arith)
            requires
                n > 0,
                n * lo <= sum <= n * hi,
        ;
        assert(c.reference[ch] == (sum / n) as u8);
        assert(bytes_at(positives[k1].0, width, region, dx, dy)[ch] <= c.reference[ch]);
        assert(c.reference[ch] <= bytes_at(positives[k2].0, width, region, dx, dy)[ch]);
    }
    assert forall|ch: int, k1: int, k2: int|
        0 <= ch < 3 && 0 <= k1 < positives.len() && 0 <= k2 < positives.len() implies #[trigger] bytes_at(
            positives[k1].0,
            width,
            region,
            dx,
            dy,
        )[ch] - #[trigger] bytes_at(positives[k2].0, width, region, dx, dy)[ch] <= c.positive_range by {
        lemma_frames_within(positives, width, x, y, ch, k1);
        lemma_frames_within(positives, width, x, y, ch, k2);
        lemma_frames_min_le_max(positives, width, x, y, ch);
    }
    let spans = seq![channel_span(positives, width, x, y, 0), channel_span(positives, width, x, y, 1), channel_span(positives, width, x, y, 2)];
    let best: int = if c.positive_range == spans[0] { 0 } else if c.positive_range == spans[1] { 1 } else { 2 };
    assert(c.positive_range == spans[best]);
    lemma_frames_attained(positives, width, x, y, best);
    lemma_frames_min_le_max(positives, width, x, y, best);
    let a1 = choose|k: int| 0 <= k < positives.len() && frames_max(positives, width, x, y, best) == pixel_spec((#[trigger] positives[k]).0, width, x, y)[best];
    let a2 = choose|k: int| 0 <= k < positives.len() && frames_min(positives, width, x, y, best) == pixel_spec((#[trigger] positives[k]).0, width, x, y)[best];
    assert(bytes_at(positives[a1].0, width, region, dx, dy)[best] - bytes_at(positives[a2].0, width, region, dx, dy)[best] == c.positive_range);
}

pub proof fn candidate_distance_to_negatives(
    positives: Seq<(Seq<u8>, u32, u32)>,
    negatives: Seq<(Seq<u8>, u32, u32)>,
    width: u32,
    region: Region,
    dx: u32,
    dy: u32,
)
    requires
        positives.len() > 0,
    ensures
        ({
            let c = candidate_at(positives, negatives, width, region, dx, dy);
            let x = (region.x + dx) as u32;
            let y = (region.y + dy) as u32;
            let at = (y * width + x) * 4;
            &&& forall|k: int|
                0 <= k < negatives.len() ==> c.negative_distance <= #[trigger] colour_distance(
                    c.reference,
                    negatives[k].0.subrange(at, at + 4),
                )
            &&& negatives.len() > 0 ==> exists|k: int|
                0 <= k < negatives.len() && c.negative_distance == #[trigger] colour_distance(
                    c.reference,
                    negatives[k].0.subrange(at, at + 4),
                )
            &&& negatives.len() == 0 ==> c.negative_distance == 0
        }),
{
    let c = candidate_at(positives, negatives, width, region, dx, dy);
    let x = (region.x + dx) as u32;
    let y = (region.y + dy) as u32;
    let at = (y * width + x) * 4;
    assert forall|k: int| 0 <= k < negatives.len() implies c.negative_distance <= #[trigger] colour_distance(
        c.reference,
        negatives[k].0.subrange(at, at + 4),
    ) by {
        lemma_nearest_within(negatives, width, x, y, c.reference, k);
        assert(negatives[k].0.subrange(at, at + 4) == pixel_spec(negatives[k].0, width, x, y));
    }
    if negatives.len() > 0 {
        lemma_nearest_attained(negatives, width, x, y, c.reference);
        let k = choose|k: int| 0 <= k < negatives.len() && nearest_negative(negatives, width, x, y, c.reference) == colour_distance(
            c.reference,
            pixel_spec((#[trigger] negatives[k]).0, width, x, y),
        );
        assert(negatives[k].0.subrange(at, at + 4) == pixel_spec(negatives[k].0, width, x, y));
    }
}


/// Law: a discovery candidate's quality weighs stability (45%, from its jitter), separation from
/// the negatives (45%, from its distance to them) and an edge term of at most 10%; its RGB
/// tolerances are half the channel spans, rounded up, plus 8, the largest one from its jitter.
pub proof fn candidate_quality_weights(
    positives: Seq<(Seq<u8>, u32, u32)>,
    negatives: Seq<(Seq<u8>, u32, u32)>,
    width: u32,
    region: Region,
    dx: u32,
    dy: u32,
)
    requires
        positives.len() > 0,
    ensures
        ({
            let c = candidate_at(positives, negatives, width, region, dx, dy);
            let stability: int = if c.positive_range * 2 >= 100 { 0 } else { 100 - c.positive_range * 2 };
            let separation: int = if c.negative_distance * 2 <= 100 { c.negative_distance * 2 } else { 100 };
            &&& (stability * 45 + separation * 45) / 100 <= c.quality_score <= (stability * 45 + separation * 45 + 1000)
                / 100
            &&& c.tolerance.len() == 3
            &&& forall|ch: int| 0 <= ch < 3 ==> 8 <= #[trigger] c.tolerance[ch] <= (c.positive_range + 1) / 2 + 8
            &&& exists|ch: int| 0 <= ch < 3 && #[trigger] c.tolerance[ch] == (c.positive_range + 1) / 2 + 8
        }),
{
    let c = candidate_at(positives, negatives, width, region, dx, dy);
    let x = (region.x + dx) as u32;
    let y = (region.y + dy) as u32;
    lemma_frames_min_le_max(positives, width, x, y, 0);
    lemma_frames_min_le_max(positives, width, x, y, 1);
    lemma_frames_min_le_max(positives, width, x, y, 2);
    let spans = seq![channel_span(positives, width, x, y, 0), channel_span(positives, width, x, y, 1), channel_span(positives, width, x, y, 2)];
    let best: int = if c.positive_range == spans[0] { 0 } else if c.positive_range == spans[1] { 1 } else { 2 };
    assert(c.tolerance[best] == (c.positive_range + 1) / 2 + 8);
}

} // verus!
