//! Neighbourhood search: tries the adapted region at nearby positions and at
//! slightly different sizes, and returns the closest hit or, when nothing hits,
//! the best-scoring candidate for diagnosis.

use vstd::prelude::*;

use crate::clock::{clock_now, micros_since};
use crate::engine::{
    any_group_matched, evaluate_groups, delta_at, within_tolerance_spec, channel_delta_spec, group_result_correct, point_result_correct, regular_passed, report_evaluates, sample_in_frame,
    similarity_spec, GroupResult, MatchReport, PointResult,
};
use crate::frame::frame_holds;
use crate::validate::{match_input_issue, validated_points_lie_in_region};
use crate::model::{count_regular, enabled_groups, group_views, FeatureGroup, FeaturePoint, GroupView, Region};

verus! {

// ---------------------------------------------------------------- candidate order

/// The `k`-th size tried, in percent: 100, 99, 101, 98, 102, ...
pub open spec fn scale_at(k: int) -> int {
    if k == 0 {
        100
    } else if k % 2 == 1 {
        100 - (k + 1) / 2
    } else {
        100 + k / 2
    }
}

proof fn lemma_scale_range(k: int)
    requires
        0 <= k <= 20,
    ensures
        90 <= scale_at(k) <= 110,
{
    if k % 2 == 1 {
        assert((k + 1) / 2 <= 10);
    } else {
        assert(k / 2 <= 10);
    }
}

/// How many percent the size search reaches (at most 10).
pub open spec fn scale_limit(scale_search_percent: u32) -> int {
    if scale_search_percent <= 10 { scale_search_percent as int } else { 10 }
}

/// How far the position search reaches (at most 32 pixels).
pub open spec fn radius_limit(search_radius: u32) -> int {
    if search_radius <= 32 { search_radius as int } else { 32 }
}

pub open spec fn abs_int(v: int) -> int {
    if v < 0 { -v } else { v }
}

/// Offsets at Manhattan distance `d` in row `dy`: (dx, dy), then (-dx, dy) when dx != 0.
pub open spec fn ring_entry(d: int, dy: int) -> Seq<(i32, i32)> {
    let dx = d - abs_int(dy);
    if dx == 0 {
        seq![(0i32, dy as i32)]
    } else {
        seq![(dx as i32, dy as i32), ((-dx) as i32, dy as i32)]
    }
}

/// The offsets at distance `d` for rows `-d .. dy`, top row first.
pub open spec fn ring_upto(d: int, dy: int) -> Seq<(i32, i32)>
    decreases dy + d,
{
    if dy <= -d {
        Seq::empty()
    } else {
        ring_upto(d, dy - 1) + ring_entry(d, dy - 1)
    }
}

/// All offsets up to Manhattan distance `d`, nearest rings first.
pub open spec fn offsets_upto(d: int) -> Seq<(i32, i32)>
    decreases d + 1,
{
    if d < 0 {
        Seq::empty()
    } else {
        offsets_upto(d - 1) + ring_upto(d, d + 1)
    }
}

/// The sizes tried, in percent, in search order.
pub fn search_scales(scale_search_percent: u32) -> (scales: Vec<u32>)
    ensures
        scales@.len() == 2 * scale_limit(scale_search_percent) + 1,
        forall|k: int| 0 <= k < scales@.len() ==> scales@[k] == scale_at(k),
{
    let limit: u32 = if scale_search_percent <= 10 { scale_search_percent } else { 10 };
    let mut scales: Vec<u32> = Vec::new();
    scales.push(100);
    let mut step: u32 = 1;
    while step <= limit
        invariant
            1 <= step <= limit + 1,
            limit == scale_limit(scale_search_percent),
            limit <= 10,
            scales@.len() == 2 * step - 1,
            forall|k: int| 0 <= k < scales@.len() ==> scales@[k] == scale_at(k),
        decreases limit + 1 - step,
    {
        scales.push(100 - step);
        scales.push(100 + step);
        step = step + 1;
    }
    scales
}

/// The offsets tried, nearest first (Manhattan distance, then row, then +dx before -dx).
pub fn search_offsets(radius: i32) -> (offsets: Vec<(i32, i32)>)
    requires
        0 <= radius <= 32,
    ensures
        offsets@ == offsets_upto(radius as int),
{
    let mut offsets: Vec<(i32, i32)> = Vec::new();
    let mut distance: i32 = 0;
    while distance <= radius
        invariant
            0 <= distance <= radius + 1,
            radius <= 32,
            offsets@ == offsets_upto(distance - 1),
        decreases radius + 1 - distance,
    {
        let ghost before = offsets@;
        let mut dy: i32 = -distance;
        while dy <= distance
            invariant
                0 <= distance <= radius <= 32,
                -distance <= dy <= distance + 1,
                offsets@ == before + ring_upto(distance as int, dy as int),
            decreases distance + 1 - dy,
        {
            let adx: i32 = if dy < 0 { -dy } else { dy };
            let dx: i32 = distance - adx;
            offsets.push((dx, dy));
            if dx != 0 {
                offsets.push((-dx, dy));
            }
            proof {
                assert(ring_upto(distance as int, dy + 1) == ring_upto(distance as int, dy as int)
                    + ring_entry(distance as int, dy as int));
            }
            dy = dy + 1;
        }
        proof {
            assert(offsets_upto(distance as int) == offsets_upto(distance - 1) + ring_upto(
                distance as int,
                distance + 1,
            ));
        }
        distance = distance + 1;
    }
    offsets
}


// ---------------------------------------------------------------- scaled candidates

/// A length scaled to `percent`, rounded half up, at least 1, truncated to 32 bits.
pub open spec fn scaled_length(len: u32, percent: int) -> u32 {
    let v = (len * percent + 50) / 100;
    (if v >= 1 { v } else { 1 }) as u32
}

/// A point offset scaled to `percent` (rounded half up, truncated to 32 bits) and kept inside `size`.
pub open spec fn scaled_coord(d: u32, percent: int, size: u32) -> u32 {
    let v = ((d * percent + 50) / 100) as u32;
    let cap: u32 = if size == 0 { 0 } else { (size - 1) as u32 };
    if v <= cap { v } else { cap }
}

pub open spec fn scaled_point(p: FeaturePoint, percent: int, width: u32, height: u32) -> FeaturePoint {
    FeaturePoint { dx: scaled_coord(p.dx, percent, width), dy: scaled_coord(p.dy, percent, height), ..p }
}

pub open spec fn scaled_view(g: GroupView, percent: int, width: u32, height: u32) -> GroupView {
    GroupView { points: g.points.map_values(|p: FeaturePoint| scaled_point(p, percent, width, height)), ..g }
}

pub open spec fn scaled_views(gs: Seq<GroupView>, percent: int, width: u32, height: u32) -> Seq<GroupView> {
    gs.map_values(|g: GroupView| scaled_view(g, percent, width, height))
}

/// Scales a length to `percent` (rounded half up, at least 1).
pub fn scale_length(len: u32, percent: u32) -> (r: u32)
    requires
        percent <= 110,
    ensures
        r == scaled_length(len, percent as int),
{
    assert(len as u64 * percent as u64 <= 0xffff_ffffu64 * 110) by (nonlinear_arith)
        requires
            percent <= 110,
    ;
    let v: u64 = (len as u64 * percent as u64 + 50) / 100;
    let v = if v >= 1 { v } else { 1 };
    #[verifier::truncate] (v as u32)
}

fn scale_coord(d: u32, percent: u32, size: u32) -> (r: u32)
    requires
        percent <= 110,
    ensures
        r == scaled_coord(d, percent as int, size),
{
    assert(d as u64 * percent as u64 <= 0xffff_ffffu64 * 110) by (nonlinear_arith)
        requires
            percent <= 110,
    ;
    let v: u64 = (d as u64 * percent as u64 + 50) / 100;
    let v = #[verifier::truncate] (v as u32);
    let cap = size.saturating_sub(1);
    if v <= cap { v } else { cap }
}

/// Copies the groups, names included, with every point offset scaled to `percent` and kept
/// inside `width` x `height`.
pub fn scale_groups(groups: &[FeatureGroup], percent: u32, width: u32, height: u32) -> (scaled: Vec<FeatureGroup>)
    requires
        percent <= 110,
    ensures
        group_views(scaled@) == scaled_views(group_views(groups@), percent as int, width, height),
        scaled@.len() == groups@.len(),
        forall|k: int| 0 <= k < groups@.len() ==> (#[trigger] scaled@[k]).name@ == groups@[k].name@,
{
    let mut out: Vec<FeatureGroup> = Vec::new();
    let mut i: usize = 0;
    while i < groups.len()
        invariant
            percent <= 110,
            i <= groups@.len(),
            out@.len() == i,
            forall|k: int| 0 <= k < i ==> #[trigger] out@[k]@ == scaled_view(groups@[k]@, percent as int, width, height),
            forall|k: int| 0 <= k < i ==> (#[trigger] out@[k]).name@ == groups@[k].name@,
        decreases groups@.len() - i,
    {
        let group = &groups[i];
        let mut points: Vec<FeaturePoint> = Vec::new();
        let mut j: usize = 0;
        while j < group.points.len()
            invariant
                percent <= 110,
                j <= group.points@.len(),
                points@.len() == j,
                forall|k: int| 0 <= k < j ==> #[trigger] points@[k] == scaled_point(group.points@[k], percent as int, width, height),
            decreases group.points@.len() - j,
        {
            let p = group.points[j];
            let q = FeaturePoint {
                dx: scale_coord(p.dx, percent, width),
                dy: scale_coord(p.dy, percent, height),
                ..p
            };
            points.push(q);
            j = j + 1;
        }
        let g = FeatureGroup {
            id: group.id.clone(),
            name: group.name.clone(),
            enabled: group.enabled,
            points,
            min_match: group.min_match,
        };
        proof {
            assert(g@.points =~= group@.points.map_values(|p: FeaturePoint| scaled_point(p, percent as int, width, height)));
        }
        out.push(g);
        i = i + 1;
    }
    proof {
        assert(group_views(out@) =~= scaled_views(group_views(groups@), percent as int, width, height));
    }
    out
}


// ---------------------------------------------------------------- candidate scores

/// Sum of the similarities that a report shows for the points of one group.
pub open spec fn points_similarity(
    frame: Seq<u8>,
    width: u32,
    height: u32,
    region: crate::model::Region,
    points: Seq<FeaturePoint>,
) -> int
    decreases points.len(),
{
    if points.len() == 0 {
        0
    } else {
        points_similarity(frame, width, height, region, points.drop_last()) + if sample_in_frame(
            width,
            height,
            region,
            points.last(),
        ) {
            similarity_spec(delta_at(frame, width, height, region, points.last()), points.last().alpha_mode) as int
        } else {
            0
        }
    }
}

/// Diagnostic score of evaluated groups: 10000 per passed regular point plus every point's similarity.
pub open spec fn groups_score(
    frame: Seq<u8>,
    width: u32,
    height: u32,
    region: crate::model::Region,
    gs: Seq<GroupView>,
) -> int
    decreases gs.len(),
{
    if gs.len() == 0 {
        0
    } else {
        groups_score(frame, width, height, region, gs.drop_last()) + regular_passed(
            frame,
            width,
            height,
            region,
            gs.last().points,
        ) * 10000 + points_similarity(frame, width, height, region, gs.last().points)
    }
}

/// Score of a candidate: the score of its enabled groups.
pub open spec fn candidate_score(
    frame: Seq<u8>,
    width: u32,
    height: u32,
    region: crate::model::Region,
    groups: Seq<GroupView>,
) -> int {
    groups_score(frame, width, height, region, enabled_groups(groups))
}

pub open spec fn result_points_similarity(ps: Seq<PointResult>) -> int
    decreases ps.len(),
{
    if ps.len() == 0 {
        0
    } else {
        result_points_similarity(ps.drop_last()) + ps.last().similarity as int
    }
}

/// The score read off a report's groups.
pub open spec fn result_score(gs: Seq<GroupResult>) -> int
    decreases gs.len(),
{
    if gs.len() == 0 {
        0
    } else {
        result_score(gs.drop_last()) + gs.last().passed_count * 10000 + result_points_similarity(
            gs.last().points@,
        )
    }
}


proof fn lemma_result_points_prefix(ps: Seq<PointResult>, i: int)
    requires
        0 <= i <= ps.len(),
    ensures
        0 <= result_points_similarity(ps.take(i)) <= result_points_similarity(ps),
    decreases ps.len() - i,
{
    if i < ps.len() {
        lemma_result_points_prefix(ps, i + 1);
        assert(ps.take(i + 1).drop_last() =~= ps.take(i));
        lemma_result_points_nonneg(ps.take(i));
    } else {
        assert(ps.take(i) =~= ps);
        lemma_result_points_nonneg(ps);
    }
}

proof fn lemma_result_points_nonneg(ps: Seq<PointResult>)
    ensures
        0 <= result_points_similarity(ps),
    decreases ps.len(),
{
    if ps.len() > 0 {
        lemma_result_points_nonneg(ps.drop_last());
    }
}

proof fn lemma_result_score_nonneg(gs: Seq<GroupResult>)
    ensures
        0 <= result_score(gs),
    decreases gs.len(),
{
    if gs.len() > 0 {
        lemma_result_score_nonneg(gs.drop_last());
        lemma_result_points_nonneg(gs.last().points@);
    }
}

proof fn lemma_result_score_prefix(gs: Seq<GroupResult>, i: int)
    requires
        0 <= i <= gs.len(),
    ensures
        0 <= result_score(gs.take(i)) <= result_score(gs),
    decreases gs.len() - i,
{
    if i < gs.len() {
        lemma_result_score_prefix(gs, i + 1);
        assert(gs.take(i + 1).drop_last() =~= gs.take(i));
        lemma_result_points_nonneg(gs[i].points@);
        lemma_result_score_nonneg(gs.take(i));
    } else {
        assert(gs.take(i) =~= gs);
        lemma_result_score_nonneg(gs);
    }
}

/// A score held in 128 bits: it stops at `u128::MAX`, which no report held in memory reaches.
pub open spec fn score_cap(v: int) -> int {
    if v <= u128::MAX {
        v
    } else {
        u128::MAX as int
    }
}

/// The diagnostic score of a report: ten thousand per passed regular point plus the
/// similarities of all points, summed over the groups.
pub fn report_score(report: &MatchReport) -> (score: u128)
    ensures
        score == score_cap(result_score(report.groups@)),
{
    let ghost gs = report.groups@;
    let mut total: u128 = 0;
    let mut gi: usize = 0;
    while gi < report.groups.len()
        invariant
            gs == report.groups@,
            gi <= gs.len(),
            total == score_cap(result_score(gs.take(gi as int))),
        decreases gs.len() - gi,
    {
        let g = &report.groups[gi];
        proof {
            assert(gs.take(gi + 1).drop_last() =~= gs.take(gi as int));
            lemma_result_score_nonneg(gs.take(gi as int));
        }
        let mut gscore: u128 = g.passed_count as u128 * 10000;
        let ghost ps = g.points@;
        let mut pi: usize = 0;
        while pi < g.points.len()
            invariant
                ps == g.points@,
                pi <= ps.len(),
                gscore == score_cap(g.passed_count * 10000 + result_points_similarity(ps.take(pi as int))),
            decreases ps.len() - pi,
        {
            proof {
                assert(ps.take(pi + 1).drop_last() =~= ps.take(pi as int));
                lemma_result_points_nonneg(ps.take(pi as int));
            }
            gscore = gscore.saturating_add(g.points[pi].similarity as u128);
            pi = pi + 1;
        }
        proof {
            assert(ps.take(ps.len() as int) =~= ps);
            lemma_result_points_nonneg(ps);
        }
        total = total.saturating_add(gscore);
        gi = gi + 1;
    }
    proof {
        assert(gs.take(gs.len() as int) =~= gs);
    }
    total
}

proof fn lemma_points_similarity_matches(
    rs: Seq<PointResult>,
    frame: Seq<u8>,
    width: u32,
    height: u32,
    region: crate::model::Region,
    ps: Seq<FeaturePoint>,
)
    requires
        rs.len() == ps.len(),
        forall|i: int| 0 <= i < ps.len() ==> #[trigger] point_result_correct(rs[i], frame, width, height, region, ps[i], i),
    ensures
        result_points_similarity(rs) == points_similarity(frame, width, height, region, ps),
    decreases ps.len(),
{
    if ps.len() > 0 {
        let n = ps.len() - 1;
        assert(point_result_correct(rs[n], frame, width, height, region, ps[n], n));
        assert forall|i: int| 0 <= i < n implies #[trigger] point_result_correct(
            rs.drop_last()[i],
            frame,
            width,
            height,
            region,
            ps.drop_last()[i],
            i,
        ) by {
            assert(point_result_correct(rs[i], frame, width, height, region, ps[i], i));
        }
        lemma_points_similarity_matches(rs.drop_last(), frame, width, height, region, ps.drop_last());
    }
}

proof fn lemma_groups_score_matches(
    rs: Seq<GroupResult>,
    frame: Seq<u8>,
    width: u32,
    height: u32,
    region: crate::model::Region,
    gs: Seq<GroupView>,
)
    requires
        rs.len() == gs.len(),
        forall|k: int| 0 <= k < gs.len() ==> #[trigger] group_result_correct(rs[k], frame, width, height, region, gs[k]),
    ensures
        result_score(rs) == groups_score(frame, width, height, region, gs),
    decreases gs.len(),
{
    if gs.len() > 0 {
        let n = gs.len() - 1;
        assert(group_result_correct(rs[n], frame, width, height, region, gs[n]));
        lemma_points_similarity_matches(rs[n].points@, frame, width, height, region, gs[n].points);
        assert forall|k: int| 0 <= k < n implies #[trigger] group_result_correct(
            rs.drop_last()[k],
            frame,
            width,
            height,
            region,
            gs.drop_last()[k],
        ) by {
            assert(group_result_correct(rs[k], frame, width, height, region, gs[k]));
        }
        lemma_groups_score_matches(rs.drop_last(), frame, width, height, region, gs.drop_last());
    }
}

/// The score read off an evaluated report is the candidate's score.
pub proof fn lemma_report_score_is_candidate_score(
    r: MatchReport,
    frame: Seq<u8>,
    width: u32,
    height: u32,
    region: crate::model::Region,
    groups: Seq<GroupView>,
)
    requires
        report_evaluates(r, frame, width, height, region, groups),
    ensures
        result_score(r.groups@) == candidate_score(frame, width, height, region, groups),
{
    lemma_groups_score_matches(r.groups@, frame, width, height, region, enabled_groups(groups));
}


// ---------------------------------------------------------------- the search

/// The groups as tried at size `percent`.
pub open spec fn candidate_views(groups: Seq<GroupView>, region: Region, percent: int) -> Seq<GroupView> {
    scaled_views(groups, percent, scaled_length(region.w, percent), scaled_length(region.h, percent))
}

/// The region tried at size `percent` and position `offset`.
pub open spec fn candidate_region(region: Region, percent: int, offset: (i32, i32)) -> Region {
    Region {
        x: (region.x + offset.0) as u32,
        y: (region.y + offset.1) as u32,
        w: scaled_length(region.w, percent),
        h: scaled_length(region.h, percent),
    }
}

/// A candidate is tried only when it starts at non-negative coordinates and fits in the frame.
pub open spec fn candidate_valid(width: u32, height: u32, region: Region, percent: int, offset: (i32, i32)) -> bool {
    let c = candidate_region(region, percent, offset);
    &&& region.x + offset.0 >= 0
    &&& region.y + offset.1 >= 0
    &&& c.x + c.w <= width
    &&& c.y + c.h <= height
}

pub open spec fn candidate_hits(
    frame: Seq<u8>,
    width: u32,
    height: u32,
    region: Region,
    groups: Seq<GroupView>,
    percent: int,
    offset: (i32, i32),
) -> bool {
    any_group_matched(
        frame,
        width,
        height,
        candidate_region(region, percent, offset),
        candidate_views(groups, region, percent),
    )
}

pub open spec fn candidate_rank(
    frame: Seq<u8>,
    width: u32,
    height: u32,
    region: Region,
    groups: Seq<GroupView>,
    percent: int,
    offset: (i32, i32),
) -> int {
    score_cap(
        candidate_score(
            frame,
            width,
            height,
            candidate_region(region, percent, offset),
            candidate_views(groups, region, percent),
        ),
    )
}

/// Candidate (k1, j1) comes before (k2, j2): sizes outermost, offsets innermost.
pub open spec fn tried_before(k1: int, j1: int, k2: int, j2: int) -> bool {
    k1 < k2 || (k1 == k2 && j1 < j2)
}

/// `r` is the report of candidate (k, j), and (k, j) is what the search returns:
/// the first candidate that hits, or, when none hits, the first with the highest score.
pub open spec fn search_pick_at(
    r: MatchReport,
    frame: Seq<u8>,
    width: u32,
    height: u32,
    region: Region,
    groups: Seq<GroupView>,
    scales: int,
    offsets: Seq<(i32, i32)>,
    k: int,
    j: int,
) -> bool {
    &&& 0 <= k < scales
    &&& 0 <= j < offsets.len()
    &&& candidate_valid(width, height, region, scale_at(k), offsets[j])
    &&& report_evaluates(
        r,
        frame,
        width,
        height,
        candidate_region(region, scale_at(k), offsets[j]),
        candidate_views(groups, region, scale_at(k)),
    )
    &&& r.offset_x == offsets[j].0
    &&& r.offset_y == offsets[j].1
    &&& r.matched_scale_percent == scale_at(k)
    &&& forall|k2: int, j2: int|
        0 <= k2 < scales && 0 <= j2 < offsets.len() && tried_before(k2, j2, k, j) && #[trigger] candidate_valid(
            width,
            height,
            region,
            scale_at(k2),
            offsets[j2],
        ) ==> !candidate_hits(frame, width, height, region, groups, scale_at(k2), offsets[j2])
    &&& !r.matched ==> forall|k2: int, j2: int|
        0 <= k2 < scales && 0 <= j2 < offsets.len() && #[trigger] candidate_valid(
            width,
            height,
            region,
            scale_at(k2),
            offsets[j2],
        ) ==> {
            &&& !candidate_hits(frame, width, height, region, groups, scale_at(k2), offsets[j2])
            &&& candidate_rank(frame, width, height, region, groups, scale_at(k2), offsets[j2])
                <= candidate_rank(frame, width, height, region, groups, scale_at(k), offsets[j])
            &&& tried_before(k2, j2, k, j) ==> candidate_rank(
                frame,
                width,
                height,
                region,
                groups,
                scale_at(k2),
                offsets[j2],
            ) < candidate_rank(frame, width, height, region, groups, scale_at(k), offsets[j])
        }
}

/// `r` is the report of the candidate that the search returns.
pub open spec fn search_picked(
    r: MatchReport,
    frame: Seq<u8>,
    width: u32,
    height: u32,
    region: Region,
    groups: Seq<GroupView>,
    scales: int,
    offsets: Seq<(i32, i32)>,
) -> bool {
    exists|k: int, j: int| #[trigger] search_pick_at(r, frame, width, height, region, groups, scales, offsets, k, j)
}

/// Some candidate of the search fits in the frame.
pub open spec fn any_candidate_valid(
    width: u32,
    height: u32,
    region: Region,
    scales: int,
    offsets: Seq<(i32, i32)>,
) -> bool {
    exists|k: int, j: int|
        0 <= k < scales && 0 <= j < offsets.len() && #[trigger] candidate_valid(
            width,
            height,
            region,
            scale_at(k),
            offsets[j],
        )
}

proof fn lemma_offsets_start_at_origin(d: int)
    requires
        d >= 0,
    ensures
        offsets_upto(d).len() >= 1,
        offsets_upto(d)[0] == (0i32, 0i32),
    decreases d,
{
    if d == 0 {
        assert(ring_upto(0, 0) =~= Seq::<(i32, i32)>::empty());
        assert(ring_upto(0, 1) =~= ring_entry(0, 0));
        assert(offsets_upto(-1) =~= Seq::<(i32, i32)>::empty());
        assert(offsets_upto(0) =~= ring_entry(0, 0));
    } else {
        lemma_offsets_start_at_origin(d - 1);
        assert(offsets_upto(d)[0] == offsets_upto(d - 1)[0]);
    }
}

/// Law: the search reports a hit exactly when some candidate it may try (a position and size
/// that fits in the frame) hits.
pub proof fn search_hits_iff_some_candidate_hits(
    r: MatchReport,
    frame: Seq<u8>,
    width: u32,
    height: u32,
    region: Region,
    groups: Seq<GroupView>,
    scales: int,
    offsets: Seq<(i32, i32)>,
)
    requires
        search_picked(r, frame, width, height, region, groups, scales, offsets),
    ensures
        r.matched <==> exists|k: int, j: int|
            0 <= k < scales && 0 <= j < offsets.len() && #[trigger] candidate_valid(
                width,
                height,
                region,
                scale_at(k),
                offsets[j],
            ) && candidate_hits(frame, width, height, region, groups, scale_at(k), offsets[j]),
{
    let (k, j) = choose|k: int, j: int| #[trigger] search_pick_at(r, frame, width, height, region, groups, scales, offsets, k, j);
    assert(r.matched == candidate_hits(frame, width, height, region, groups, scale_at(k), offsets[j]));
    if r.matched {
        assert(candidate_valid(width, height, region, scale_at(k), offsets[j]));
    }
}

/// Law: when the object hits at its expected place and size, the search reports exactly that
/// candidate: a hit with no offset at full size.
pub proof fn search_keeps_expected_place(
    r: MatchReport,
    frame: Seq<u8>,
    width: u32,
    height: u32,
    region: Region,
    groups: Seq<GroupView>,
    search_radius: u32,
    scale_search_percent: u32,
)
    requires
        search_picked(
            r,
            frame,
            width,
            height,
            region,
            groups,
            2 * scale_limit(scale_search_percent) + 1,
            offsets_upto(radius_limit(search_radius)),
        ),
        candidate_valid(width, height, region, 100, (0i32, 0i32)),
        candidate_hits(frame, width, height, region, groups, 100, (0i32, 0i32)),
    ensures
        r.matched,
        r.offset_x == 0,
        r.offset_y == 0,
        r.matched_scale_percent == 100,
{
    let scales = 2 * scale_limit(scale_search_percent) + 1;
    let offsets = offsets_upto(radius_limit(search_radius));
    lemma_offsets_start_at_origin(radius_limit(search_radius));
    let (k, j) = choose|k: int, j: int| #[trigger] search_pick_at(r, frame, width, height, region, groups, scales, offsets, k, j);
    assert(scale_at(0) == 100);
    assert(candidate_valid(width, height, region, scale_at(0), offsets[0]));
    if k != 0 || j != 0 {
        assert(tried_before(0, 0, k, j));
        assert(!candidate_hits(frame, width, height, region, groups, scale_at(0), offsets[0]));
    }
    assert(k == 0 && j == 0);
    assert(r.matched == candidate_hits(frame, width, height, region, groups, scale_at(0), offsets[0]));
}

/// At full size, a region at least one pixel wide keeps its length.
proof fn lemma_full_size_length(len: u32)
    requires
        len >= 1,
    ensures
        scaled_length(len, 100) == len,
{
    assert((len * 100 + 50) / 100 == len) by (nonlinear_arith);
}

/// At full size, a point offset inside the region keeps its value.
proof fn lemma_full_size_coord(d: u32, size: u32)
    requires
        d < size,
    ensures
        scaled_coord(d, 100, size) == d,
{
    assert((d * 100 + 50) / 100 == d) by (nonlinear_arith);
}

/// Law: a search that may neither move nor resize the region, on an input that passes
/// validation, always has a candidate, and its report is the plain evaluation of the groups at
/// the region (everything `evaluate_groups` states of its report), with no offset at full size.
pub proof fn search_without_room_is_plain_evaluation(
    r: MatchReport,
    frame: Seq<u8>,
    width: u32,
    height: u32,
    region: Region,
    groups: Seq<FeatureGroup>,
)
    requires
        match_input_issue(frame.len(), width, height, region, groups) is None,
        search_picked(
            r,
            frame,
            width,
            height,
            region,
            group_views(groups),
            2 * scale_limit(0) + 1,
            offsets_upto(radius_limit(0)),
        ),
    ensures
        any_candidate_valid(width, height, region, 2 * scale_limit(0) + 1, offsets_upto(radius_limit(0))),
        report_evaluates(r, frame, width, height, region, group_views(groups)),
        r.offset_x == 0,
        r.offset_y == 0,
        r.matched_scale_percent == 100,
{
    let views = group_views(groups);
    let offsets = offsets_upto(radius_limit(0));
    assert(ring_upto(0, 0) =~= Seq::<(i32, i32)>::empty());
    assert(ring_upto(0, 1) =~= ring_entry(0, 0));
    assert(offsets_upto(-1) =~= Seq::<(i32, i32)>::empty());
    assert(offsets =~= seq![(0i32, 0i32)]);
    assert(scale_at(0) == 100);
    lemma_full_size_length(region.w);
    lemma_full_size_length(region.h);
    assert(candidate_region(region, 100, (0i32, 0i32)) == region);
    assert(candidate_valid(width, height, region, scale_at(0), offsets[0]));
    let (k, j) = choose|k: int, j: int| #[trigger] search_pick_at(r, frame, width, height, region, views, 1, offsets, k, j);
    assert(k == 0 && j == 0);
    assert forall|g: int| 0 <= g < views.len() implies #[trigger] scaled_view(views[g], 100, region.w, region.h)
        == views[g] by {
        assert forall|p: int| 0 <= p < views[g].points.len() implies #[trigger] scaled_point(
            views[g].points[p],
            100,
            region.w,
            region.h,
        ) == views[g].points[p] by {
            validated_points_lie_in_region(frame.len(), width, height, region, groups, g, p);
            lemma_full_size_coord(views[g].points[p].dx, region.w);
            lemma_full_size_coord(views[g].points[p].dy, region.h);
        }
        assert(views[g].points.map_values(|pt: FeaturePoint| scaled_point(pt, 100, region.w, region.h))
            =~= views[g].points);
    }
    assert(candidate_views(views, region, 100) =~= views);
}

proof fn lemma_ring_covers(d: int, t: int, row: int)
    requires
        d >= 0,
        -d <= row < t,
    ensures
        forall|i: int| 0 <= i < ring_entry(d, row).len() ==> ring_upto(d, t).contains(#[trigger] ring_entry(d, row)[i]),
    decreases t + d,
{
    let r = ring_upto(d, t);
    let prev = ring_upto(d, t - 1);
    let e = ring_entry(d, t - 1);
    assert(r == prev + e);
    if row < t - 1 {
        lemma_ring_covers(d, t - 1, row);
        assert forall|i: int| 0 <= i < ring_entry(d, row).len() implies r.contains(#[trigger] ring_entry(d, row)[i]) by {
            let k = choose|k: int| 0 <= k < prev.len() && prev[k] == ring_entry(d, row)[i];
            assert(r[k] == prev[k]);
        }
    } else {
        assert forall|i: int| 0 <= i < e.len() implies r.contains(#[trigger] e[i]) by {
            assert(r[prev.len() + i] == e[i]);
        }
    }
}

proof fn lemma_offsets_grow(e: int, d: int)
    requires
        0 <= e <= d,
    ensures
        forall|i: int| 0 <= i < offsets_upto(e).len() ==> offsets_upto(d).contains(#[trigger] offsets_upto(e)[i]),
    decreases d - e,
{
    if e < d {
        lemma_offsets_grow(e, d - 1);
        let lo = offsets_upto(d - 1);
        let hi = offsets_upto(d);
        assert(hi == lo + ring_upto(d, d + 1));
        assert forall|i: int| 0 <= i < offsets_upto(e).len() implies hi.contains(#[trigger] offsets_upto(e)[i]) by {
            let k = choose|k: int| 0 <= k < lo.len() && lo[k] == offsets_upto(e)[i];
            assert(hi[k] == lo[k]);
        }
    }
}

proof fn lemma_offset_listed(d: int, dx: int, dy: int) -> (j: int)
    requires
        (if dx < 0 { -dx } else { dx }) + (if dy < 0 { -dy } else { dy }) <= d <= 32,
    ensures
        0 <= j < offsets_upto(d).len(),
        offsets_upto(d)[j] == (dx as i32, dy as i32),
{
    let e = (if dx < 0 { -dx } else { dx }) + (if dy < 0 { -dy } else { dy });
    let entry = ring_entry(e, dy);
    assert(e - abs_int(dy) == if dx < 0 { -dx } else { dx });
    lemma_ring_covers(e, e + 1, dy);
    let i: int = if dx < 0 && entry.len() == 2 { 1 } else { 0 };
    assert(entry[i] == (dx as i32, dy as i32));
    assert(offsets_upto(e) == offsets_upto(e - 1) + ring_upto(e, e + 1));
    let ring = ring_upto(e, e + 1);
    let k = choose|k: int| 0 <= k < ring.len() && ring[k] == entry[i];
    let lo = offsets_upto(e - 1);
    assert(offsets_upto(e)[lo.len() + k] == entry[i]);
    lemma_offsets_grow(e, d);
    let m = lo.len() + k;
    assert(offsets_upto(d).contains(offsets_upto(e)[m]));
    choose|j: int| 0 <= j < offsets_upto(d).len() && offsets_upto(d)[j] == (dx as i32, dy as i32)
}

/// Law: the search tries every size within its size range (at most 10 percent either way) and
/// every position within its radius (at most 32 pixels, by the sum of the horizontal and
/// vertical distances): when the object hits at such a size and position that fits in the
/// frame, the search reports a hit.
pub proof fn search_tries_every_candidate_in_range(
    r: MatchReport,
    frame: Seq<u8>,
    width: u32,
    height: u32,
    region: Region,
    groups: Seq<GroupView>,
    search_radius: u32,
    scale_search_percent: u32,
    percent: int,
    dx: int,
    dy: int,
)
    requires
        search_picked(
            r,
            frame,
            width,
            height,
            region,
            groups,
            2 * scale_limit(scale_search_percent) + 1,
            offsets_upto(radius_limit(search_radius)),
        ),
        (if percent < 100 { 100 - percent } else { percent - 100 }) <= scale_search_percent,
        (if percent < 100 { 100 - percent } else { percent - 100 }) <= 10,
        (if dx < 0 { -dx } else { dx }) + (if dy < 0 { -dy } else { dy }) <= search_radius,
        (if dx < 0 { -dx } else { dx }) + (if dy < 0 { -dy } else { dy }) <= 32,
        candidate_valid(width, height, region, percent, (dx as i32, dy as i32)),
        candidate_hits(frame, width, height, region, groups, percent, (dx as i32, dy as i32)),
    ensures
        r.matched,
{
    let scales = 2 * scale_limit(scale_search_percent) + 1;
    let offsets = offsets_upto(radius_limit(search_radius));
    let j = lemma_offset_listed(radius_limit(search_radius), dx, dy);
    let k: int = if percent < 100 { 2 * (100 - percent) - 1 } else { 2 * (percent - 100) };
    assert(scale_at(k) == percent);
    assert(0 <= k < scales);
    assert(candidate_valid(width, height, region, scale_at(k), offsets[j]));
    search_hits_iff_some_candidate_hits(r, frame, width, height, region, groups, scales, offsets);
}

/// The distance of an offset: its horizontal plus its vertical distance.
pub open spec fn offset_distance(o: (i32, i32)) -> int {
    (if o.0 < 0 { -o.0 } else { o.0 as int }) + (if o.1 < 0 { -o.1 } else { o.1 as int })
}

proof fn lemma_ring_distance(d: int, t: int)
    requires
        0 <= d <= 32,
        t <= d + 1,
    ensures
        forall|i: int| 0 <= i < ring_upto(d, t).len() ==> offset_distance(#[trigger] ring_upto(d, t)[i]) == d,
    decreases t + d,
{
    if t > -d {
        lemma_ring_distance(d, t - 1);
        let prev = ring_upto(d, t - 1);
        let e = ring_entry(d, t - 1);
        let r = ring_upto(d, t);
        assert(r == prev + e);
        assert forall|i: int| 0 <= i < r.len() implies offset_distance(#[trigger] r[i]) == d by {
            if i < prev.len() {
                assert(r[i] == prev[i]);
            } else {
                assert(r[i] == e[i - prev.len()]);
            }
        }
    }
}

proof fn lemma_offsets_by_distance(d: int)
    requires
        0 <= d <= 32,
    ensures
        forall|i: int| 0 <= i < offsets_upto(d).len() ==> offset_distance(#[trigger] offsets_upto(d)[i]) <= d,
        forall|i: int, j: int|
            0 <= i <= j < offsets_upto(d).len() ==> offset_distance(#[trigger] offsets_upto(d)[i]) <= offset_distance(
                #[trigger] offsets_upto(d)[j],
            ),
    decreases d,
{
    let o = offsets_upto(d);
    let lo = offsets_upto(d - 1);
    let ring = ring_upto(d, d + 1);
    assert(o == lo + ring);
    lemma_ring_distance(d, d + 1);
    if d > 0 {
        lemma_offsets_by_distance(d - 1);
    } else {
        assert(lo.len() == 0);
    }
    assert forall|i: int| 0 <= i < o.len() implies offset_distance(#[trigger] o[i]) <= d by {
        if i < lo.len() {
            assert(o[i] == lo[i]);
        } else {
            assert(o[i] == ring[i - lo.len()]);
        }
    }
    assert forall|i: int, j: int| 0 <= i <= j < o.len() implies offset_distance(#[trigger] o[i]) <= offset_distance(
        #[trigger] o[j],
    ) by {
        if j < lo.len() {
            assert(o[i] == lo[i] && o[j] == lo[j]);
        } else if i < lo.len() {
            assert(o[i] == lo[i] && o[j] == ring[j - lo.len()]);
        } else {
            assert(o[i] == ring[i - lo.len()] && o[j] == ring[j - lo.len()]);
        }
    }
}

/// The place of a size in the search order: 100, 99, 101, 98, 102, ...
pub open spec fn size_order(percent: int) -> int {
    if percent == 100 {
        0
    } else if percent < 100 {
        2 * (100 - percent) - 1
    } else {
        2 * (percent - 100)
    }
}

/// Law: a hit that the search reports is the preferred one: its size and position lie within
/// the search's range, and every other candidate in range that fits and hits comes later in the
/// search order: at a size later in the order 100, 99, 101, 98, 102, ..., or at the same size no
/// nearer to the expected place.
pub proof fn search_reports_the_nearest_hit(
    r: MatchReport,
    frame: Seq<u8>,
    width: u32,
    height: u32,
    region: Region,
    groups: Seq<GroupView>,
    search_radius: u32,
    scale_search_percent: u32,
    percent: int,
    dx: int,
    dy: int,
)
    requires
        search_picked(
            r,
            frame,
            width,
            height,
            region,
            groups,
            2 * scale_limit(scale_search_percent) + 1,
            offsets_upto(radius_limit(search_radius)),
        ),
        r.matched,
        (if percent < 100 { 100 - percent } else { percent - 100 }) <= scale_search_percent,
        (if percent < 100 { 100 - percent } else { percent - 100 }) <= 10,
        (if dx < 0 { -dx } else { dx }) + (if dy < 0 { -dy } else { dy }) <= search_radius,
        (if dx < 0 { -dx } else { dx }) + (if dy < 0 { -dy } else { dy }) <= 32,
        candidate_valid(width, height, region, percent, (dx as i32, dy as i32)),
        candidate_hits(frame, width, height, region, groups, percent, (dx as i32, dy as i32)),
    ensures
        ({
            let rp = r.matched_scale_percent as int;
            let rd = offset_distance((r.offset_x, r.offset_y));
            &&& (if rp < 100 { 100 - rp } else { rp - 100 }) <= scale_search_percent
            &&& (if rp < 100 { 100 - rp } else { rp - 100 }) <= 10
            &&& rd <= search_radius && rd <= 32
            &&& size_order(percent) > size_order(rp) || (percent == rp && (if dx < 0 { -dx } else { dx }) + (if dy
                < 0 { -dy } else { dy }) >= rd)
        }),
{
    let scales = 2 * scale_limit(scale_search_percent) + 1;
    let d = radius_limit(search_radius);
    let offsets = offsets_upto(d);
    let (k, j) = choose|k: int, j: int| #[trigger] search_pick_at(r, frame, width, height, region, groups, scales, offsets, k, j);
    let j2 = lemma_offset_listed(d, dx, dy);
    let k2: int = size_order(percent);
    assert(scale_at(k2) == percent);
    lemma_offsets_by_distance(d);
    lemma_scale_range(k);
    assert(size_order(scale_at(k)) == k);
    assert(r.matched_scale_percent == scale_at(k));
    assert(offset_distance(offsets[j]) <= d);
    assert(candidate_valid(width, height, region, scale_at(k2), offsets[j2]));
    if tried_before(k2, j2, k, j) {
        assert(!candidate_hits(frame, width, height, region, groups, scale_at(k2), offsets[j2]));
    }
    if k2 == k && j2 >= j {
        assert(offset_distance(offsets[j]) <= offset_distance(offsets[j2]));
    }
}

pub open spec fn msg_no_candidate() -> Seq<char> {
    "搜索范围内没有有效候选区域"@
}

/// Searches near the adapted region for position and small size changes; returns the
/// nearest hit, or the best-scoring candidate for diagnosis when nothing hits.
pub fn evaluate_groups_search(
    frame: &[u8],
    width: u32,
    height: u32,
    region: &Region,
    groups: &[FeatureGroup],
    search_radius: u32,
    scale_search_percent: u32,
) -> (res: Result<MatchReport, String>)
    requires
        frame_holds(frame@, width, height),
    ensures
        res is Err <==> !any_candidate_valid(
            width,
            height,
            *region,
            2 * scale_limit(scale_search_percent) + 1,
            offsets_upto(radius_limit(search_radius)),
        ),
        res matches Err(e) ==> e@ == msg_no_candidate(),
        res matches Ok(r) ==> search_picked(
                r,
                frame@,
                width,
                height,
                *region,
                group_views(groups@),
                2 * scale_limit(scale_search_percent) + 1,
                offsets_upto(radius_limit(search_radius)),
            ),
{
    let started = clock_now();
    let radius: i32 = if search_radius <= 32 { search_radius as i32 } else { 32 };
    let scales = search_scales(scale_search_percent);
    let offsets = search_offsets(radius);
    let ghost views = group_views(groups@);
    let ghost ks = 2 * scale_limit(scale_search_percent) + 1;
    let ghost os = offsets@;
    let mut best: Option<(u128, MatchReport)> = None;
    let ghost mut bk: int = 0;
    let ghost mut bj: int = 0;
    let mut si: usize = 0;
    while si < scales.len()
        invariant
            frame_holds(frame@, width, height),
            views == group_views(groups@),
            scales@.len() == ks,
            ks <= 21,
            forall|k: int| 0 <= k < scales@.len() ==> scales@[k] == scale_at(k),
            os == offsets@,
            os == offsets_upto(radius_limit(search_radius)),
            ks == 2 * scale_limit(scale_search_percent) + 1,
            si <= ks,
            forall|k2: int, j2: int|
                0 <= k2 < ks && 0 <= j2 < os.len() && tried_before(k2, j2, si as int, 0) && #[trigger] candidate_valid(
                    width,
                    height,
                    *region,
                    scale_at(k2),
                    os[j2],
                ) ==> !candidate_hits(frame@, width, height, *region, views, scale_at(k2), os[j2]),
            best is None <==> forall|k2: int, j2: int|
                0 <= k2 < ks && 0 <= j2 < os.len() && tried_before(k2, j2, si as int, 0) ==> !#[trigger] candidate_valid(
                    width,
                    height,
                    *region,
                    scale_at(k2),
                    os[j2],
                ),
            best matches Some((bs, br)) ==> {
                &&& 0 <= bk < ks
                &&& 0 <= bj < os.len()
                &&& tried_before(bk, bj, si as int, 0)
                &&& candidate_valid(width, height, *region, scale_at(bk), os[bj])
                &&& report_evaluates(
                    br,
                    frame@,
                    width,
                    height,
                    candidate_region(*region, scale_at(bk), os[bj]),
                    candidate_views(views, *region, scale_at(bk)),
                )
                &&& br.offset_x == os[bj].0
                &&& br.offset_y == os[bj].1
                &&& br.matched_scale_percent == scale_at(bk)
                &&& bs == candidate_rank(frame@, width, height, *region, views, scale_at(bk), os[bj])
                &&& forall|k2: int, j2: int|
                    0 <= k2 < ks && 0 <= j2 < os.len() && tried_before(k2, j2, si as int, 0)
                        && #[trigger] candidate_valid(width, height, *region, scale_at(k2), os[j2]) ==> {
                        &&& candidate_rank(frame@, width, height, *region, views, scale_at(k2), os[j2]) <= bs
                        &&& tried_before(k2, j2, bk, bj) ==> candidate_rank(
                            frame@,
                            width,
                            height,
                            *region,
                            views,
                            scale_at(k2),
                            os[j2],
                        ) < bs
                    }
            },
        decreases ks - si,
    {
        let percent = scales[si];
        proof {
            lemma_scale_range(si as int);
        }
        let scaled_w = scale_length(region.w, percent);
        let scaled_h = scale_length(region.h, percent);
        let scaled_groups = scale_groups(groups, percent, scaled_w, scaled_h);
        let mut oi: usize = 0;
        while oi < offsets.len()
            invariant
                frame_holds(frame@, width, height),
                    views == group_views(groups@),
                scales@.len() == ks,
                forall|k: int| 0 <= k < scales@.len() ==> scales@[k] == scale_at(k),
                os == offsets@,
                os == offsets_upto(radius_limit(search_radius)),
                ks == 2 * scale_limit(scale_search_percent) + 1,
                si < ks,
                percent == scale_at(si as int),
                percent <= 110,
                scaled_w == scaled_length(region.w, percent as int),
                scaled_h == scaled_length(region.h, percent as int),
                group_views(scaled_groups@) == candidate_views(views, *region, percent as int),
                oi <= os.len(),
                forall|k2: int, j2: int|
                    0 <= k2 < ks && 0 <= j2 < os.len() && tried_before(k2, j2, si as int, oi as int)
                        && #[trigger] candidate_valid(width, height, *region, scale_at(k2), os[j2])
                        ==> !candidate_hits(frame@, width, height, *region, views, scale_at(k2), os[j2]),
                best is None <==> forall|k2: int, j2: int|
                    0 <= k2 < ks && 0 <= j2 < os.len() && tried_before(k2, j2, si as int, oi as int)
                        ==> !#[trigger] candidate_valid(width, height, *region, scale_at(k2), os[j2]),
                best matches Some((bs, br)) ==> {
                    &&& 0 <= bk < ks
                    &&& 0 <= bj < os.len()
                    &&& tried_before(bk, bj, si as int, oi as int)
                    &&& candidate_valid(width, height, *region, scale_at(bk), os[bj])
                    &&& report_evaluates(
                        br,
                        frame@,
                        width,
                        height,
                        candidate_region(*region, scale_at(bk), os[bj]),
                        candidate_views(views, *region, scale_at(bk)),
                    )
                    &&& br.offset_x == os[bj].0
                    &&& br.offset_y == os[bj].1
                    &&& br.matched_scale_percent == scale_at(bk)
                    &&& bs == candidate_rank(frame@, width, height, *region, views, scale_at(bk), os[bj])
                    &&& forall|k2: int, j2: int|
                        0 <= k2 < ks && 0 <= j2 < os.len() && tried_before(k2, j2, si as int, oi as int)
                            && #[trigger] candidate_valid(width, height, *region, scale_at(k2), os[j2]) ==> {
                            &&& candidate_rank(frame@, width, height, *region, views, scale_at(k2), os[j2]) <= bs
                            &&& tried_before(k2, j2, bk, bj) ==> candidate_rank(
                                frame@,
                                width,
                                height,
                                *region,
                                views,
                                scale_at(k2),
                                os[j2],
                            ) < bs
                        }
                },
            decreases os.len() - oi,
        {
            let (dx, dy) = offsets[oi];
            let x: i64 = region.x as i64 + dx as i64;
            let y: i64 = region.y as i64 + dy as i64;
            let ghost off = os[oi as int];
            let ghost cur_valid = candidate_valid(width, height, *region, scale_at(si as int), off);
            let mut valid = false;
            if x >= 0 && y >= 0 {
                let cx = #[verifier::truncate] (x as u32);
                let cy = #[verifier::truncate] (y as u32);
                let fits_x = match cx.checked_add(scaled_w) {
                    Some(right) => right <= width,
                    None => false,
                };
                let fits_y = match cy.checked_add(scaled_h) {
                    Some(bottom) => bottom <= height,
                    None => false,
                };
                if fits_x && fits_y {
                    valid = true;
                    let candidate = Region { x: cx, y: cy, w: scaled_w, h: scaled_h };
                    assert(candidate == candidate_region(*region, percent as int, off));
                    let mut report = evaluate_groups(frame, width, height, &candidate, scaled_groups.as_slice());
                    report.offset_x = dx;
                    report.offset_y = dy;
                    report.matched_scale_percent = percent;
                    proof {
                        lemma_report_score_is_candidate_score(
                            report,
                            frame@,
                            width,
                            height,
                            candidate,
                            group_views(scaled_groups@),
                        );
                    }
                    let score = report_score(&report);
                    if report.matched {
                        report.elapsed_micros = micros_since(&started);
                        proof {
                            assert(search_picked(
                                report,
                                frame@,
                                width,
                                height,
                                *region,
                                group_views(groups@),
                                2 * scale_limit(scale_search_percent) + 1,
                                offsets_upto(radius_limit(search_radius)),
                            )) by {
                            assert(search_pick_at(
                                report,
                                frame@,
                                width,
                                height,
                                *region,
                                group_views(groups@),
                                2 * scale_limit(scale_search_percent) + 1,
                                offsets_upto(radius_limit(search_radius)),
                                si as int,
                                oi as int,
                            ));
                            }
                            assert(candidate_valid(width, height, *region, scale_at(si as int), os[oi as int]));
                        }
                        return Ok(report);
                    }
                    let better = match &best {
                        None => true,
                        Some((bs, _)) => score > *bs,
                    };
                    if better {
                        best = Some((score, report));
                        proof {
                            bk = si as int;
                            bj = oi as int;
                        }
                    }
                }
            }
            assert(valid == cur_valid);
            oi = oi + 1;
        }
        si = si + 1;
    }
    match best {
        None => Err(String::from_str("搜索范围内没有有效候选区域")),
        Some((_, report)) => {
            let mut report = report;
            report.elapsed_micros = micros_since(&started);
            proof {
                assert(search_picked(
                    report,
                    frame@,
                    width,
                    height,
                    *region,
                    group_views(groups@),
                    2 * scale_limit(scale_search_percent) + 1,
                    offsets_upto(radius_limit(search_radius)),
                )) by {
                assert(search_pick_at(
                    report,
                    frame@,
                    width,
                    height,
                    *region,
                    group_views(groups@),
                    2 * scale_limit(scale_search_percent) + 1,
                    offsets_upto(radius_limit(search_radius)),
                    bk,
                    bj,
                ));
                }
                assert(candidate_valid(width, height, *region, scale_at(bk), os[bj]));
            }
            Ok(report)
        },
    }
}

} // verus!
