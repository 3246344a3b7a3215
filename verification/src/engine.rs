//! Matching engine: samples a RGBA frame point by point inside a region and
//! compares each sample with its feature point.
//!
//! - A regular point passes when every compared channel differs from the
//!   reference by no more than its tolerance.
//! - An exclusion point (`must_not`) passes when the colour does *not* match.
//! - A point whose sample lies outside the frame does not pass, whatever its kind.
//! - A group hits when its passed regular points reach `min_match` (-1: all of
//!   them) and every exclusion point passes.
//! - An object hits when any of its enabled groups hits.

use vstd::prelude::*;

use crate::model::{count_regular, enabled_groups, group_views, AlphaMode, FeatureGroup, FeaturePoint, GroupView, Region};
use crate::clock::{clock_now, micros_since};
use crate::frame::{frame_holds, pixel_at, pixel_spec};
use crate::text::{decimal, push_decimal};

verus! {

// ---------------------------------------------------------------- colour arithmetic

/// Absolute difference of two channel values.
pub open spec fn abs_diff(a: u8, b: u8) -> u16 {
    if a >= b { (a - b) as u16 } else { (b - a) as u16 }
}

/// Per-channel absolute differences RGBA; the alpha entry is 0 when alpha is ignored.
pub open spec fn channel_delta_spec(reference: Seq<u8>, actual: Seq<u8>, mode: AlphaMode) -> Seq<u16> {
    seq![
        abs_diff(reference[0], actual[0]),
        abs_diff(reference[1], actual[1]),
        abs_diff(reference[2], actual[2]),
        if mode == AlphaMode::Match { abs_diff(reference[3], actual[3]) } else { 0u16 },
    ]
}

/// Every compared channel lies within its tolerance.
pub open spec fn within_tolerance_spec(p: FeaturePoint, delta: Seq<u16>) -> bool {
    &&& delta[0] <= p.tolerance[0]
    &&& delta[1] <= p.tolerance[1]
    &&& delta[2] <= p.tolerance[2]
    &&& p.alpha_mode == AlphaMode::Match ==> delta[3] <= p.alpha_tolerance
}

/// Number of channels that take part in the comparison.
pub open spec fn compared_channels(mode: AlphaMode) -> int {
    if mode == AlphaMode::Match { 4 } else { 3 }
}

/// Sum of the compared channel differences.
pub open spec fn delta_sum(delta: Seq<u16>, mode: AlphaMode) -> int {
    delta[0] + delta[1] + delta[2] + if mode == AlphaMode::Match { delta[3] as int } else { 0 }
}

/// Intuitive similarity to the reference colour, 0..=100.
pub open spec fn similarity_spec(delta: Seq<u16>, mode: AlphaMode) -> u8 {
    (100 - (delta_sum(delta, mode) * 100) / (compared_channels(mode) * 255)) as u8
}

pub open spec fn max16(a: u16, b: u16) -> u16 {
    if a >= b { a } else { b }
}

/// How far the worst channel lies beyond its tolerance.
pub open spec fn max_excess_spec(p: FeaturePoint, delta: Seq<u16>) -> u16 {
    let rgb = max16(
        max16(delta[0].saturating_sub(p.tolerance[0] as u16), delta[1].saturating_sub(p.tolerance[1] as u16)),
        delta[2].saturating_sub(p.tolerance[2] as u16),
    );
    if p.alpha_mode == AlphaMode::Match {
        max16(rgb, delta[3].saturating_sub(p.alpha_tolerance as u16))
    } else {
        rgb
    }
}

// ---------------------------------------------------------------- diagnostics text

pub open spec fn msg_out_of_frame() -> Seq<char> {
    "采样点超出捕获帧范围"@
}

pub open spec fn msg_exclusion_hit() -> Seq<char> {
    "排除点意外命中参考颜色"@
}

pub open spec fn msg_colour_excess() -> Seq<char> {
    "颜色差值超出容差"@
}

pub open spec fn excess_separator() -> Seq<char> {
    "，"@
}

/// The text of one channel that exceeds its tolerance, if it does.
pub open spec fn excess_part(name: Seq<char>, excess: u16) -> Seq<Seq<char>> {
    if excess > 0 {
        seq![name + " 超差 +"@ + decimal(excess as nat)]
    } else {
        Seq::empty()
    }
}

/// The channels that exceed their tolerance, in R, G, B, A order.
pub open spec fn excess_parts(p: FeaturePoint, delta: Seq<u16>) -> Seq<Seq<char>> {
    excess_part("R"@, delta[0].saturating_sub(p.tolerance[0] as u16)) + excess_part(
        "G"@,
        delta[1].saturating_sub(p.tolerance[1] as u16),
    ) + excess_part("B"@, delta[2].saturating_sub(p.tolerance[2] as u16)) + if p.alpha_mode
        == AlphaMode::Match {
        excess_part("A"@, delta[3].saturating_sub(p.alpha_tolerance as u16))
    } else {
        Seq::empty()
    }
}

/// The parts joined by `sep`.
pub open spec fn join_parts(parts: Seq<Seq<char>>, sep: Seq<char>) -> Seq<char>
    decreases parts.len(),
{
    if parts.len() == 0 {
        Seq::empty()
    } else if parts.len() == 1 {
        parts[0]
    } else {
        join_parts(parts.drop_last(), sep) + sep + parts.last()
    }
}

/// Displayable text for a point whose colour lies outside its tolerance.
pub open spec fn describe_excess_spec(p: FeaturePoint, delta: Seq<u16>) -> Seq<char> {
    let parts = excess_parts(p, delta);
    if parts.len() == 0 {
        msg_colour_excess()
    } else {
        join_parts(parts, excess_separator())
    }
}

// ---------------------------------------------------------------- executable colour helpers

fn abs_diff_u8(a: u8, b: u8) -> (d: u16)
    ensures
        d == abs_diff(a, b),
{
    if a >= b { (a - b) as u16 } else { (b - a) as u16 }
}

/// Per-channel differences between the reference and the actual colour.
pub fn channel_delta(reference: [u8; 4], actual: [u8; 4], alpha_mode: AlphaMode) -> (delta: [u16; 4])
    ensures
        delta@ == channel_delta_spec(reference@, actual@, alpha_mode),
{
    let alpha = if alpha_mode == AlphaMode::Match {
        abs_diff_u8(reference[3], actual[3])
    } else {
        0u16
    };
    let delta = [
        abs_diff_u8(reference[0], actual[0]),
        abs_diff_u8(reference[1], actual[1]),
        abs_diff_u8(reference[2], actual[2]),
        alpha,
    ];
    assert(delta@ =~= channel_delta_spec(reference@, actual@, alpha_mode));
    delta
}

/// Whether every compared channel difference lies within the point's tolerance.
pub fn within_tolerance(point: &FeaturePoint, delta: &[u16; 4]) -> (ok: bool)
    ensures
        ok == within_tolerance_spec(*point, delta@),
{
    if delta[0] > point.tolerance[0] as u16 || delta[1] > point.tolerance[1] as u16 || delta[2]
        > point.tolerance[2] as u16 {
        return false;
    }
    if point.alpha_mode == AlphaMode::Match && delta[3] > point.alpha_tolerance as u16 {
        return false;
    }
    true
}

proof fn lemma_join_push(parts: Seq<Seq<char>>, x: Seq<char>, sep: Seq<char>)
    ensures
        join_parts(parts.push(x), sep) == if parts.len() == 0 {
            x
        } else {
            join_parts(parts, sep) + sep + x
        },
{
    assert(parts.push(x).drop_last() =~= parts);
}

fn push_excess_part(
    s: &mut String,
    count: &mut usize,
    Ghost(parts): Ghost<Seq<Seq<char>>>,
    name: &str,
    excess: u16,
) -> (new_parts: Ghost<Seq<Seq<char>>>)
    requires
        old(s)@ == join_parts(parts, excess_separator()),
        *old(count) == parts.len(),
        parts.len() < 4,
    ensures
        new_parts@ == parts + excess_part(name@, excess),
        final(s)@ == join_parts(new_parts@, excess_separator()),
        *final(count) == new_parts@.len(),
{
    if excess > 0 {
        let ghost before = s@;
        if *count > 0 {
            s.append("，");
        }
        s.append(name);
        s.append(" 超差 +");
        push_decimal(s, excess as u128);
        *count = *count + 1;
        let ghost item = name@ + " 超差 +"@ + decimal(excess as nat);
        proof {
            lemma_join_push(parts, item, excess_separator());
            assert(parts + seq![item] =~= parts.push(item));
            if parts.len() == 0 {
                assert(before =~= Seq::<char>::empty());
                assert(s@ =~= item);
            } else {
                assert(s@ =~= before + excess_separator() + item);
            }
        }
        Ghost(parts + excess_part(name@, excess))
    } else {
        assert(parts + excess_part(name@, excess) =~= parts);
        Ghost(parts)
    }
}

/// Turns the per-channel excess into displayable text, e.g. "R 超差 +5，B 超差 +2".
pub fn describe_excess(point: &FeaturePoint, delta: &[u16; 4]) -> (text: String)
    ensures
        text@ == describe_excess_spec(*point, delta@),
{
    let mut s = String::new();
    let mut count: usize = 0;
    let ghost empty: Seq<Seq<char>> = Seq::empty();
    let g = push_excess_part(
        &mut s,
        &mut count,
        Ghost(empty),
        "R",
        delta[0].saturating_sub(point.tolerance[0] as u16),
    );
    let g = push_excess_part(&mut s, &mut count, g, "G", delta[1].saturating_sub(point.tolerance[1] as u16));
    let g = push_excess_part(&mut s, &mut count, g, "B", delta[2].saturating_sub(point.tolerance[2] as u16));
    let g = if point.alpha_mode == AlphaMode::Match {
        push_excess_part(&mut s, &mut count, g, "A", delta[3].saturating_sub(point.alpha_tolerance as u16))
    } else {
        g
    };
    proof {
        assert(empty + excess_part("R"@, delta@[0].saturating_sub(point.tolerance[0] as u16)) =~= excess_part(
            "R"@,
            delta@[0].saturating_sub(point.tolerance[0] as u16),
        ));
        if point.alpha_mode == AlphaMode::Match {
        } else {
            assert(g@ + Seq::<Seq<char>>::empty() =~= g@);
        }
        assert(g@ =~= excess_parts(*point, delta@));
    }
    if count == 0 {
        String::from_str("颜色差值超出容差")
    } else {
        s
    }
}


// ---------------------------------------------------------------- reports

/// Outcome of one sample point.
#[derive(Clone, Debug)]
pub struct PointResult {
    /// Position of the point in its group.
    pub index: usize,
    /// Whether the point passed (for an exclusion point: the colour did not match).
    pub ok: bool,
    /// Why the point lies outside the frame or did not pass; empty when it passed.
    pub reason: String,
    /// Sampled RGBA; all zero when the point lies outside the frame.
    pub actual: [u8; 4],
    /// Per-channel absolute differences RGBA; alpha is 0 when ignored.
    pub delta: [u16; 4],
    /// Similarity to the reference colour (0-100).
    pub similarity: u8,
    /// Largest amount by which a channel exceeds its tolerance.
    pub max_excess: u16,
}

/// Outcome of one feature group.
#[derive(Clone, Debug)]
pub struct GroupResult {
    /// Group id.
    pub id: String,
    /// Whether the group hit.
    pub matched: bool,
    /// Number of regular points that passed.
    pub passed_count: usize,
    /// Number of regular points required.
    pub required: usize,
    /// Per-point details.
    pub points: Vec<PointResult>,
}

/// Full report of one match.
#[derive(Clone, Debug)]
pub struct MatchReport {
    /// Whether the object hit (any group hit).
    pub matched: bool,
    /// Per-group details.
    pub groups: Vec<GroupResult>,
    /// Time spent matching (microseconds).
    pub elapsed_micros: u64,
    /// Horizontal offset of the best candidate relative to the expected region.
    pub offset_x: i32,
    /// Vertical offset of the best candidate relative to the expected region.
    pub offset_y: i32,
    /// Size of the best candidate in percent of the expected size.
    pub matched_scale_percent: u32,
}

// ---------------------------------------------------------------- per-point semantics

/// Frame column sampled for a point (saturating).
pub open spec fn sample_x(region: Region, p: FeaturePoint) -> u32 {
    region.x.saturating_add(p.dx)
}

/// Frame row sampled for a point (saturating).
pub open spec fn sample_y(region: Region, p: FeaturePoint) -> u32 {
    region.y.saturating_add(p.dy)
}

pub open spec fn sample_in_frame(width: u32, height: u32, region: Region, p: FeaturePoint) -> bool {
    sample_x(region, p) < width && sample_y(region, p) < height
}

/// The colour sampled for a point; zero outside the frame.
pub open spec fn actual_at(frame: Seq<u8>, width: u32, height: u32, region: Region, p: FeaturePoint) -> Seq<u8> {
    if sample_in_frame(width, height, region, p) {
        pixel_spec(frame, width, sample_x(region, p), sample_y(region, p))
    } else {
        seq![0u8, 0u8, 0u8, 0u8]
    }
}

pub open spec fn delta_at(frame: Seq<u8>, width: u32, height: u32, region: Region, p: FeaturePoint) -> Seq<u16> {
    if sample_in_frame(width, height, region, p) {
        channel_delta_spec(p.reference@, actual_at(frame, width, height, region, p), p.alpha_mode)
    } else {
        seq![0u16, 0u16, 0u16, 0u16]
    }
}

/// The sampled colour lies within the point's tolerance.
pub open spec fn colour_matches(frame: Seq<u8>, width: u32, height: u32, region: Region, p: FeaturePoint) -> bool {
    sample_in_frame(width, height, region, p) && within_tolerance_spec(
        p,
        delta_at(frame, width, height, region, p),
    )
}

/// A point outside the frame never passes. Inside it, a regular point passes when its colour
/// matches and an exclusion point when it does not.
pub open spec fn point_passed(frame: Seq<u8>, width: u32, height: u32, region: Region, p: FeaturePoint) -> bool {
    if !sample_in_frame(width, height, region, p) {
        false
    } else if p.must_not {
        !colour_matches(frame, width, height, region, p)
    } else {
        colour_matches(frame, width, height, region, p)
    }
}

pub open spec fn reason_at(frame: Seq<u8>, width: u32, height: u32, region: Region, p: FeaturePoint) -> Seq<char> {
    let passed = point_passed(frame, width, height, region, p);
    let inside = sample_in_frame(width, height, region, p);
    if !inside {
        msg_out_of_frame()
    } else if p.must_not && !passed {
        msg_exclusion_hit()
    } else if !passed {
        describe_excess_spec(p, delta_at(frame, width, height, region, p))
    } else {
        Seq::empty()
    }
}

pub open spec fn point_result_correct(
    r: PointResult,
    frame: Seq<u8>,
    width: u32,
    height: u32,
    region: Region,
    p: FeaturePoint,
    index: int,
) -> bool {
    let inside = sample_in_frame(width, height, region, p);
    let delta = delta_at(frame, width, height, region, p);
    &&& r.index == index
    &&& r.ok == point_passed(frame, width, height, region, p)
    &&& r.reason@ == reason_at(frame, width, height, region, p)
    &&& r.actual@ == actual_at(frame, width, height, region, p)
    &&& r.delta@ == delta
    &&& r.similarity == if inside { similarity_spec(delta, p.alpha_mode) } else { 0 }
    &&& r.max_excess == if inside { max_excess_spec(p, delta) } else { 255 }
}

fn similarity(delta: &[u16; 4], alpha_mode: AlphaMode) -> (s: u8)
    requires
        delta[0] <= 255,
        delta[1] <= 255,
        delta[2] <= 255,
        delta[3] <= 255,
    ensures
        s == similarity_spec(delta@, alpha_mode),
{
    let channel_count: u32 = if alpha_mode == AlphaMode::Match { 4 } else { 3 };
    let mut difference: u32 = delta[0] as u32 + delta[1] as u32 + delta[2] as u32;
    if alpha_mode == AlphaMode::Match {
        difference = difference + delta[3] as u32;
    }
    let scaled = difference * 100 / (channel_count * 255);
    assert(scaled <= 100) by (nonlinear_arith)
        requires
            scaled == difference * 100 / (channel_count * 255),
            difference <= channel_count * 255,
            channel_count == 3 || channel_count == 4,
    ;
    (100u32 - scaled) as u8
}

fn max_excess(point: &FeaturePoint, delta: &[u16; 4]) -> (m: u16)
    ensures
        m == max_excess_spec(*point, delta@),
{
    let mut m: u16 = delta[0].saturating_sub(point.tolerance[0] as u16);
    let e1 = delta[1].saturating_sub(point.tolerance[1] as u16);
    if e1 > m {
        m = e1;
    }
    let e2 = delta[2].saturating_sub(point.tolerance[2] as u16);
    if e2 > m {
        m = e2;
    }
    if point.alpha_mode == AlphaMode::Match {
        let e3 = delta[3].saturating_sub(point.alpha_tolerance as u16);
        if e3 > m {
            m = e3;
        }
    }
    m
}

/// Samples and judges one point of a group.
fn evaluate_point(
    frame: &[u8],
    width: u32,
    height: u32,
    region: &Region,
    point: &FeaturePoint,
    index: usize,
) -> (r: PointResult)
    requires
        frame_holds(frame@, width, height),
    ensures
        point_result_correct(r, frame@, width, height, *region, *point, index as int),
{
    let x = region.x.saturating_add(point.dx);
    let y = region.y.saturating_add(point.dy);
    if x >= width || y >= height {
        let reason = String::from_str("采样点超出捕获帧范围");
        let r = PointResult {
            index,
            ok: false,
            reason,
            actual: [0u8, 0u8, 0u8, 0u8],
            delta: [0u16, 0u16, 0u16, 0u16],
            similarity: 0,
            max_excess: 255,
        };
        assert(r.actual@ =~= seq![0u8, 0u8, 0u8, 0u8]);
        assert(r.delta@ =~= seq![0u16, 0u16, 0u16, 0u16]);
        return r;
    }
    let actual = pixel_at(frame, width, height, x, y);
    let delta = channel_delta(point.reference, actual, point.alpha_mode);
    let matched = within_tolerance(point, &delta);
    let similarity = similarity(&delta, point.alpha_mode);
    let max_excess = max_excess(point, &delta);
    let passed = if point.must_not { !matched } else { matched };
    let reason = if point.must_not && !passed {
        String::from_str("排除点意外命中参考颜色")
    } else if !passed {
        describe_excess(point, &delta)
    } else {
        String::new()
    };
    PointResult { index, ok: passed, reason, actual, delta, similarity, max_excess }
}

// ---------------------------------------------------------------- per-group semantics

/// Number of regular points that pass.
pub open spec fn regular_passed(
    frame: Seq<u8>,
    width: u32,
    height: u32,
    region: Region,
    points: Seq<FeaturePoint>,
) -> nat
    decreases points.len(),
{
    if points.len() == 0 {
        0
    } else {
        regular_passed(frame, width, height, region, points.drop_last()) + if !points.last().must_not
            && point_passed(frame, width, height, region, points.last()) {
            1nat
        } else {
            0nat
        }
    }
}

/// Every exclusion point passes.
pub open spec fn exclusions_pass(
    frame: Seq<u8>,
    width: u32,
    height: u32,
    region: Region,
    points: Seq<FeaturePoint>,
) -> bool
    decreases points.len(),
{
    if points.len() == 0 {
        true
    } else {
        exclusions_pass(frame, width, height, region, points.drop_last()) && (points.last().must_not
            ==> point_passed(frame, width, height, region, points.last()))
    }
}

/// Number of regular points a group requires: `min_match` capped by the regular count, or all when negative.
pub open spec fn required_count(g: GroupView) -> nat {
    let total = count_regular(g.points);
    if g.min_match < 0 {
        total
    } else if g.min_match as nat <= total {
        g.min_match as nat
    } else {
        total
    }
}

/// A group hits: all exclusions pass and enough regular points pass.
pub open spec fn group_matched(frame: Seq<u8>, width: u32, height: u32, region: Region, g: GroupView) -> bool {
    &&& exclusions_pass(frame, width, height, region, g.points)
    &&& regular_passed(frame, width, height, region, g.points) >= required_count(g)
}

pub open spec fn group_result_correct(
    r: GroupResult,
    frame: Seq<u8>,
    width: u32,
    height: u32,
    region: Region,
    g: GroupView,
) -> bool {
    &&& r.id@ == g.id
    &&& r.matched == group_matched(frame, width, height, region, g)
    &&& r.passed_count == regular_passed(frame, width, height, region, g.points)
    &&& r.required == required_count(g)
    &&& r.points@.len() == g.points.len()
    &&& forall|i: int|
        0 <= i < g.points.len() ==> #[trigger] point_result_correct(
            r.points@[i],
            frame,
            width,
            height,
            region,
            g.points[i],
            i,
        )
}

/// Some enabled group hits.
pub open spec fn any_group_matched(
    frame: Seq<u8>,
    width: u32,
    height: u32,
    region: Region,
    groups: Seq<GroupView>,
) -> bool
    decreases groups.len(),
{
    if groups.len() == 0 {
        false
    } else {
        any_group_matched(frame, width, height, region, groups.drop_last()) || (groups.last().enabled
            && group_matched(frame, width, height, region, groups.last()))
    }
}

proof fn lemma_count_regular_bound(points: Seq<FeaturePoint>)
    ensures
        count_regular(points) <= points.len(),
    decreases points.len(),
{
    if points.len() > 0 {
        lemma_count_regular_bound(points.drop_last());
    }
}

fn evaluate_group(frame: &[u8], width: u32, height: u32, region: &Region, group: &FeatureGroup) -> (r: GroupResult)
    requires
        frame_holds(frame@, width, height),
    ensures
        group_result_correct(r, frame@, width, height, *region, group@),
{
    let n = group.points.len();
    let mut points: Vec<PointResult> = Vec::with_capacity(n);
    let mut passed_required: usize = 0;
    let mut required_total: usize = 0;
    let mut exclusions_ok = true;
    let ghost all = group.points@;
    let mut i: usize = 0;
    while i < n
        invariant
            n == all.len(),
            all == group.points@,
            frame_holds(frame@, width, height),
            i <= n,
            points@.len() == i,
            passed_required == regular_passed(frame@, width, height, *region, all.take(i as int)),
            required_total == count_regular(all.take(i as int)),
            passed_required <= required_total <= i,
            exclusions_ok == exclusions_pass(frame@, width, height, *region, all.take(i as int)),
            forall|k: int|
                0 <= k < i ==> #[trigger] point_result_correct(
                    points@[k],
                    frame@,
                    width,
                    height,
                    *region,
                    all[k],
                    k,
                ),
        decreases n - i,
    {
        let point = &group.points[i];
        let r = evaluate_point(frame, width, height, region, point, i);
        proof {
            assert(all.take(i + 1).drop_last() =~= all.take(i as int));
            assert(all.take(i + 1).last() == all[i as int]);
        }
        if point.must_not {
            if !r.ok {
                exclusions_ok = false;
            }
        } else {
            required_total = required_total + 1;
            if r.ok {
                passed_required = passed_required + 1;
            }
        }
        points.push(r);
        i = i + 1;
    }
    proof {
        assert(all.take(n as int) =~= all);
    }
    let required = if group.min_match < 0 {
        required_total
    } else if (group.min_match as usize) <= required_total {
        group.min_match as usize
    } else {
        required_total
    };
    let matched = exclusions_ok && passed_required >= required;
    GroupResult { id: group.id.clone(), matched, passed_count: passed_required, required, points }
}

/// The semantics of evaluating all groups at one region, apart from the elapsed time.
pub open spec fn report_evaluates(
    report: MatchReport,
    frame: Seq<u8>,
    width: u32,
    height: u32,
    region: Region,
    groups: Seq<GroupView>,
) -> bool {
    let enabled = enabled_groups(groups);
    &&& report.matched == any_group_matched(frame, width, height, region, groups)
    &&& report.groups@.len() == enabled.len()
    &&& forall|k: int|
        0 <= k < enabled.len() ==> #[trigger] group_result_correct(
            report.groups@[k],
            frame,
            width,
            height,
            region,
            enabled[k],
        )
}

/// Evaluates every enabled feature group on a whole RGBA frame.
///
/// `frame` starts with `width * height` RGBA pixels (any bytes after them are not read); `region`
/// locates the object.
pub fn evaluate_groups(frame: &[u8], width: u32, height: u32, region: &Region, groups: &[FeatureGroup]) -> (report: MatchReport)
    requires
        frame_holds(frame@, width, height),
    ensures
        report_evaluates(report, frame@, width, height, *region, group_views(groups@)),
        report.offset_x == 0,
        report.offset_y == 0,
        report.matched_scale_percent == 100,
{
    let started = clock_now();
    let n = groups.len();
    let mut report_groups: Vec<GroupResult> = Vec::new();
    let mut any_matched = false;
    let ghost all = group_views(groups@);
    let mut i: usize = 0;
    while i < n
        invariant
            n == all.len(),
            all == group_views(groups@),
            frame_holds(frame@, width, height),
            i <= n,
            report_groups@.len() == enabled_groups(all.take(i as int)).len(),
            any_matched == any_group_matched(frame@, width, height, *region, all.take(i as int)),
            forall|k: int|
                0 <= k < report_groups@.len() ==> #[trigger] group_result_correct(
                    report_groups@[k],
                    frame@,
                    width,
                    height,
                    *region,
                    enabled_groups(all.take(i as int))[k],
                ),
        decreases n - i,
    {
        let group = &groups[i];
        proof {
            assert(all.take(i + 1).drop_last() =~= all.take(i as int));
            assert(all.take(i + 1).last() == all[i as int]);
        }
        if group.enabled {
            let r = evaluate_group(frame, width, height, region, group);
            if r.matched {
                any_matched = true;
            }
            report_groups.push(r);
        }
        i = i + 1;
    }
    proof {
        assert(all.take(n as int) =~= all);
    }
    let elapsed = micros_since(&started);
    MatchReport {
        matched: any_matched,
        groups: report_groups,
        elapsed_micros: elapsed,
        offset_x: 0,
        offset_y: 0,
        matched_scale_percent: 100,
    }
}

// ---------------------------------------------------------------- laws

proof fn lemma_enabled_groups_filter(groups: Seq<GroupView>)
    ensures
        enabled_groups(groups) == groups.filter(|g: GroupView| g.enabled),
    decreases groups.len(),
{
    reveal(Seq::filter);
    if groups.len() > 0 {
        lemma_enabled_groups_filter(groups.drop_last());
    }
}

proof fn lemma_any_group_matched(frame: Seq<u8>, width: u32, height: u32, region: Region, groups: Seq<GroupView>)
    ensures
        any_group_matched(frame, width, height, region, groups) <==> exists|k: int|
            0 <= k < enabled_groups(groups).len() && #[trigger] group_matched(
                frame,
                width,
                height,
                region,
                enabled_groups(groups)[k],
            ),
    decreases groups.len(),
{
    if groups.len() > 0 {
        let rest = groups.drop_last();
        lemma_any_group_matched(frame, width, height, region, rest);
        let e = enabled_groups(groups);
        let er = enabled_groups(rest);
        if groups.last().enabled {
            assert(e == er.push(groups.last()));
            assert forall|k: int| 0 <= k < er.len() implies e[k] == er[k] by {}
            if group_matched(frame, width, height, region, groups.last()) {
                assert(group_matched(frame, width, height, region, e[er.len() as int]));
            }
            if exists|k: int| 0 <= k < e.len() && #[trigger] group_matched(frame, width, height, region, e[k]) {
                let k = choose|k: int| 0 <= k < e.len() && #[trigger] group_matched(frame, width, height, region, e[k]);
                if k < er.len() {
                    assert(group_matched(frame, width, height, region, er[k]));
                }
            }
        }
    }
}

/// Law: an object hits exactly when one of the groups in its report hits, wherever that group
/// stands; the report holds one result per enabled group, in order, under that group's id.
pub proof fn object_hits_when_any_enabled_group_hits(
    r: MatchReport,
    frame: Seq<u8>,
    width: u32,
    height: u32,
    region: Region,
    groups: Seq<GroupView>,
)
    requires
        report_evaluates(r, frame, width, height, region, groups),
    ensures
        r.matched <==> exists|k: int| 0 <= k < r.groups@.len() && (#[trigger] r.groups@[k]).matched,
        r.groups@.len() == groups.filter(|g: GroupView| g.enabled).len(),
        forall|k: int|
            0 <= k < r.groups@.len() ==> (#[trigger] r.groups@[k]).id@ == groups.filter(|g: GroupView| g.enabled)[k].id,
{
    lemma_any_group_matched(frame, width, height, region, groups);
    lemma_enabled_groups_filter(groups);
    let e = enabled_groups(groups);
    if r.matched {
        let k = choose|k: int| 0 <= k < e.len() && #[trigger] group_matched(frame, width, height, region, e[k]);
        assert(group_result_correct(r.groups@[k], frame, width, height, region, e[k]));
    }
    if exists|k: int| 0 <= k < r.groups@.len() && (#[trigger] r.groups@[k]).matched {
        let k = choose|k: int| 0 <= k < r.groups@.len() && (#[trigger] r.groups@[k]).matched;
        assert(group_result_correct(r.groups@[k], frame, width, height, region, e[k]));
    }
    assert forall|k: int| 0 <= k < r.groups@.len() implies (#[trigger] r.groups@[k]).id@ == groups.filter(
        |g: GroupView| g.enabled,
    )[k].id by {
        assert(group_result_correct(r.groups@[k], frame, width, height, region, e[k]));
    }
}

/// The colour of a sample point lies within the point's tolerances: every RGB channel, and alpha
/// too when alpha is compared.
pub open spec fn colour_within(p: FeaturePoint, actual: [u8; 4]) -> bool {
    &&& forall|c: int|
        0 <= c < 3 ==> (if p.reference[c] >= actual[c] { p.reference[c] - actual[c] } else { actual[c]
            - p.reference[c] }) <= #[trigger] p.tolerance[c]
    &&& (p.alpha_mode == AlphaMode::Match ==> (if p.reference[3] >= actual[3] {
        p.reference[3] - actual[3]
    } else {
        actual[3] - p.reference[3]
    }) <= p.alpha_tolerance)
}

/// Law: what the result of one sample point says. The point is sampled at the region's corner
/// plus its offset (saturating at `u32::MAX`). Outside the frame the sampled colour is zero, the
/// point does not pass, and the reason says it lies outside the frame. Inside, the sampled colour
/// is the frame's pixel there, and the point passes exactly when the colour lies within its
/// tolerances for a regular point, or does not for an exclusion point. A point that passes
/// carries no reason.
pub proof fn point_result_follows_the_frame(
    r: PointResult,
    frame: Seq<u8>,
    width: u32,
    height: u32,
    region: Region,
    p: FeaturePoint,
    index: int,
)
    requires
        point_result_correct(r, frame, width, height, region, p, index),
    ensures
        ({
            let x: int = if region.x + p.dx > u32::MAX { u32::MAX as int } else { region.x + p.dx };
            let y: int = if region.y + p.dy > u32::MAX { u32::MAX as int } else { region.y + p.dy };
            let offset = (y * width + x) * 4;
            &&& r.index == index
            &&& !(x < width && y < height) ==> !r.ok && r.actual@ == seq![0u8, 0u8, 0u8, 0u8] && r.reason@
                == "采样点超出捕获帧范围"@
            &&& x < width && y < height ==> r.actual@ == frame.subrange(offset, offset + 4)
            &&& x < width && y < height ==> (r.ok <==> (p.must_not != colour_within(p, r.actual)))
            &&& r.ok ==> r.reason@.len() == 0
        }),
{
    let inside = sample_in_frame(width, height, region, p);
    if inside {
        let d = delta_at(frame, width, height, region, p);
        assert(r.actual@ == actual_at(frame, width, height, region, p));
        assert(d[0] == abs_diff(p.reference[0], r.actual[0]));
        assert(d[1] == abs_diff(p.reference[1], r.actual[1]));
        assert(d[2] == abs_diff(p.reference[2], r.actual[2]));
        assert(p.alpha_mode == AlphaMode::Match ==> d[3] == abs_diff(p.reference[3], r.actual[3]));
        assert(within_tolerance_spec(p, d) <==> colour_within(p, r.actual)) by {
            if within_tolerance_spec(p, d) {
                assert forall|c: int| 0 <= c < 3 implies (if p.reference[c] >= r.actual[c] {
                    p.reference[c] - r.actual[c]
                } else {
                    r.actual[c] - p.reference[c]
                }) <= #[trigger] p.tolerance[c] by {
                    assert(c == 0 || c == 1 || c == 2);
                }
            }
            if colour_within(p, r.actual) {
                assert(p.tolerance[0] == p.tolerance[0]);
                assert(p.tolerance[1] == p.tolerance[1]);
                assert(p.tolerance[2] == p.tolerance[2]);
            }
        }
    }
}

proof fn lemma_regular_passed_count(
    frame: Seq<u8>,
    width: u32,
    height: u32,
    region: Region,
    g: GroupView,
    results: Seq<PointResult>,
    k: int,
)
    requires
        0 <= k <= g.points.len(),
        results.len() == g.points.len(),
        forall|i: int| 0 <= i < g.points.len() ==> (#[trigger] results[i]).ok == point_passed(
            frame,
            width,
            height,
            region,
            g.points[i],
        ),
    ensures
        regular_passed(frame, width, height, region, g.points.take(k)) == Seq::new(
            k as nat,
            |i: int| (g.points[i], results[i]),
        ).filter(|t: (FeaturePoint, PointResult)| !t.0.must_not && t.1.ok).len(),
        count_regular(g.points.take(k)) == g.points.take(k).filter(|p: FeaturePoint| !p.must_not).len(),
        exclusions_pass(frame, width, height, region, g.points.take(k)) <==> forall|i: int|
            0 <= i < k && (#[trigger] g.points[i]).must_not ==> results[i].ok,
    decreases k,
{
    reveal(Seq::filter);
    if k > 0 {
        lemma_regular_passed_count(frame, width, height, region, g, results, k - 1);
        let pts = g.points.take(k);
        assert(pts.drop_last() =~= g.points.take(k - 1));
        assert(pts.last() == g.points[k - 1]);
        let zs = Seq::new(k as nat, |i: int| (g.points[i], results[i]));
        assert(zs.drop_last() =~= Seq::new((k - 1) as nat, |i: int| (g.points[i], results[i])));
        assert(zs.last() == (g.points[k - 1], results[k - 1]));
        assert(results[k - 1].ok == point_passed(frame, width, height, region, g.points[k - 1]));
    }
}

/// Law: what the result of one feature group says. It carries the group's id and one result per
/// point; `passed_count` is the number of regular points that pass; `required` is `min_match`
/// capped at the number of regular points, or all of them when `min_match` is negative; and the
/// group hits exactly when every exclusion point passes and `passed_count` reaches `required`.
pub proof fn group_result_follows_its_points(
    r: GroupResult,
    frame: Seq<u8>,
    width: u32,
    height: u32,
    region: Region,
    g: GroupView,
)
    requires
        group_result_correct(r, frame, width, height, region, g),
    ensures
        ({
            let regular: int = g.points.filter(|p: FeaturePoint| !p.must_not).len() as int;
            &&& r.id@ == g.id
            &&& r.points@.len() == g.points.len()
            &&& r.passed_count == Seq::new(g.points.len(), |i: int| (g.points[i], r.points@[i])).filter(
                |t: (FeaturePoint, PointResult)| !t.0.must_not && t.1.ok,
            ).len()
            &&& r.required == if g.min_match < 0 {
                regular
            } else if g.min_match <= regular {
                g.min_match as int
            } else {
                regular
            }
            &&& r.matched <==> (forall|i: int| 0 <= i < g.points.len() && (#[trigger] g.points[i]).must_not ==> r.points@[i].ok)
                && r.passed_count >= r.required
        }),
{
    assert forall|i: int| 0 <= i < g.points.len() implies (#[trigger] r.points@[i]).ok == point_passed(
        frame,
        width,
        height,
        region,
        g.points[i],
    ) by {
        assert(point_result_correct(r.points@[i], frame, width, height, region, g.points[i], i));
    }
    lemma_regular_passed_count(frame, width, height, region, g, r.points@, g.points.len() as int);
    assert(g.points.take(g.points.len() as int) =~= g.points);
}

} // verus!
