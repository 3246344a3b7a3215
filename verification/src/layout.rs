//! Coordinate adaptation and replay assertions for projects run headless:
//! LTRB/xywh regions, fixed/scale/anchor adaptation to another frame size,
//! and replay expectations.

use vstd::prelude::*;

use crate::engine::{GroupResult, MatchReport};
use crate::model::{FeatureGroup, FeaturePoint, Region};
use crate::text::{decimal, push_decimal};

verus! {

/// How an object's region follows a frame of another size.
#[derive(Clone, Copy, Debug, Default, PartialEq, Eq, Structural)]
pub enum CoordinateMode {
    /// The frame must have the baseline size.
    #[default]
    Fixed,
    /// Region and points scale with the frame's width and height.
    Scale,
    /// The region keeps its size and snaps to a side or the centre.
    Anchor,
}

/// Which part of the frame an anchored region follows along one axis.
#[derive(Clone, Copy, Debug, Default, PartialEq, Eq, Structural)]
pub enum Anchor {
    #[default]
    Start,
    Center,
    End,
}

/// A region as stored in a project: LTRB (current) or x/y/w/h (v1).
#[derive(Clone, Copy, Debug, Default)]
pub struct RegionWire {
    pub left: Option<u32>,
    pub top: Option<u32>,
    pub right: Option<u32>,
    pub bottom: Option<u32>,
    pub x: Option<u32>,
    pub y: Option<u32>,
    pub w: Option<u32>,
    pub h: Option<u32>,
}

/// The region a stored region stands for, or why it is invalid.
pub open spec fn wire_region(r: RegionWire) -> Result<Region, Seq<char>> {
    if r.left is Some && r.top is Some && r.right is Some && r.bottom is Some {
        let (l, t, rr, b) = (r.left->0, r.top->0, r.right->0, r.bottom->0);
        if rr <= l || b <= t {
            Err("region right/bottom must be greater than left/top"@)
        } else {
            Ok(Region { x: l, y: t, w: (rr - l) as u32, h: (b - t) as u32 })
        }
    } else if r.x is None {
        Err("region.x is missing"@)
    } else if r.y is None {
        Err("region.y is missing"@)
    } else if r.w is None {
        Err("region.w is missing"@)
    } else if r.h is None {
        Err("region.h is missing"@)
    } else if r.w->0 == 0 || r.h->0 == 0 {
        Err("region width and height must be positive"@)
    } else {
        Ok(Region { x: r.x->0, y: r.y->0, w: r.w->0, h: r.h->0 })
    }
}

impl RegionWire {
    /// Converts to x/y/w/h, preferring the LTRB form when all four edges are present.
    pub fn to_region(&self) -> (res: Result<Region, String>)
        ensures
            match (res, wire_region(*self)) {
                (Ok(a), Ok(b)) => a == b,
                (Err(a), Err(b)) => a@ == b,
                _ => false,
            },
    {
        match (self.left, self.top, self.right, self.bottom) {
            (Some(left), Some(top), Some(right), Some(bottom)) => {
                if right <= left || bottom <= top {
                    return Err(String::from_str("region right/bottom must be greater than left/top"));
                }
                return Ok(Region { x: left, y: top, w: right - left, h: bottom - top });
            },
            _ => {},
        }
        let x = match self.x {
            Some(v) => v,
            None => {
                return Err(String::from_str("region.x is missing"));
            },
        };
        let y = match self.y {
            Some(v) => v,
            None => {
                return Err(String::from_str("region.y is missing"));
            },
        };
        let w = match self.w {
            Some(v) => v,
            None => {
                return Err(String::from_str("region.w is missing"));
            },
        };
        let h = match self.h {
            Some(v) => v,
            None => {
                return Err(String::from_str("region.h is missing"));
            },
        };
        if w == 0 || h == 0 {
            return Err(String::from_str("region width and height must be positive"));
        }
        Ok(Region { x, y, w, h })
    }
}

/// How far an anchored coordinate moves when the frame grows by `delta` (halves round toward zero).
pub open spec fn anchor_shift_spec(anchor: Anchor, delta: int) -> int {
    match anchor {
        Anchor::Start => 0,
        Anchor::Center => if delta >= 0 { delta / 2 } else { -((-delta) / 2) },
        Anchor::End => delta,
    }
}

/// Shift of an anchored coordinate for a size change of `delta`.
pub fn anchor_shift(anchor: Anchor, delta: i64) -> (shift: i64)
    ensures
        shift == anchor_shift_spec(anchor, delta as int),
{
    match anchor {
        Anchor::Start => 0,
        Anchor::Center => if delta >= 0 {
            delta / 2
        } else {
            // |delta| / 2, computed from |delta| - 1 so that `i64::MIN` stays in range.
            let half: i64 = (-(delta + 1)) / 2;
            if (-(delta + 1)) % 2 == 1 { -half - 1 } else { -half }
        },
        Anchor::End => delta,
    }
}

/// `v * num / den` rounded half up (half away from zero for these non-negative values).
pub open spec fn ratio_round(v: int, num: int, den: int) -> int {
    (2 * v * num + den) / (2 * den)
}

/// Saturates to the `u32` range.
pub open spec fn sat_u32(v: int) -> u32 {
    if v > u32::MAX { u32::MAX } else if v < 0 { 0 } else { v as u32 }
}

/// The region scaled from a `bw x bh` baseline to a `fw x fh` frame.
pub open spec fn scaled_region(r: Region, fw: u32, bw: int, fh: u32, bh: int) -> Region {
    let w = ratio_round(r.w as int, fw as int, bw);
    let h = ratio_round(r.h as int, fh as int, bh);
    Region {
        x: sat_u32(ratio_round(r.x as int, fw as int, bw)),
        y: sat_u32(ratio_round(r.y as int, fh as int, bh)),
        w: sat_u32(if w >= 1 { w } else { 1 }),
        h: sat_u32(if h >= 1 { h } else { 1 }),
    }
}

pub open spec fn clamp_below(v: int, size: u32) -> u32 {
    let cap: int = if size == 0 { 0 } else { size - 1 };
    (if v <= cap { v } else { cap }) as u32
}

/// A point scaled along with its region.
pub open spec fn resolved_point(p: FeaturePoint, fw: u32, bw: int, fh: u32, bh: int, scaled: Region) -> FeaturePoint {
    FeaturePoint {
        dx: clamp_below(ratio_round(p.dx as int, fw as int, bw), scaled.w),
        dy: clamp_below(ratio_round(p.dy as int, fh as int, bh), scaled.h),
        ..p
    }
}

/// `out` is `src` with every point mapped by `f`.
pub open spec fn groups_mapped(out: Seq<FeatureGroup>, src: Seq<FeatureGroup>, f: spec_fn(FeaturePoint) -> FeaturePoint) -> bool {
    &&& out.len() == src.len()
    &&& forall|k: int|
        0 <= k < src.len() ==> {
            &&& (#[trigger] out[k]).id@ == src[k].id@
            &&& out[k].name@ == src[k].name@
            &&& out[k].enabled == src[k].enabled
            &&& out[k].min_match == src[k].min_match
            &&& out[k].points@ == src[k].points@.map_values(f)
        }
}

fn ratio_round_exec(v: u32, num: u32, den: u32) -> (r: u64)
    requires
        den >= 1,
    ensures
        r == ratio_round(v as int, num as int, den as int),
{
    assert((v as u128) * (num as u128) <= 0xffff_fffe_0000_0001u128) by (nonlinear_arith)
        requires
            v <= 0xffff_ffffu32,
            num <= 0xffff_ffffu32,
    ;
    let prod: u128 = (v as u128) * (num as u128);
    assert(2 * (v as int) * (num as int) == 2 * (prod as int)) by (nonlinear_arith)
        requires
            prod == (v as int) * (num as int),
    ;
    let q: u128 = (2 * prod + den as u128) / (2 * den as u128);
    assert(q <= 0xffff_ffff_ffff_ffffu128) by (nonlinear_arith)
        requires
            q == (2 * (v as int) * (num as int) + den as int) / (2 * den as int),
            (v as int) * (num as int) <= 0xffff_fffe_0000_0001,
            den >= 1,
            den <= 0xffff_ffff,
    ;
    q as u64
}

fn sat_u32_exec(v: u64) -> (r: u32)
    ensures
        r == sat_u32(v as int),
{
    if v > 0xffff_ffff { 0xffff_ffffu32 } else { v as u32 }
}

/// Copies the groups with each point moved by `resolved_point`, or unchanged when `scale` is false.
fn map_groups(
    groups: &Vec<FeatureGroup>,
    scale: bool,
    fw: u32,
    bw: u32,
    fh: u32,
    bh: u32,
    scaled: Region,
) -> (out: Vec<FeatureGroup>)
    requires
        bw >= 1,
        bh >= 1,
    ensures
        scale ==> groups_mapped(out@, groups@, |p: FeaturePoint| resolved_point(p, fw, bw as int, fh, bh as int, scaled)),
        !scale ==> groups_mapped(out@, groups@, |p: FeaturePoint| p),
{
    let ghost f = if scale {
        |p: FeaturePoint| resolved_point(p, fw, bw as int, fh, bh as int, scaled)
    } else {
        |p: FeaturePoint| p
    };
    let mut out: Vec<FeatureGroup> = Vec::new();
    let mut i: usize = 0;
    while i < groups.len()
        invariant
            bw >= 1,
            bh >= 1,
            f == (if scale {
                |p: FeaturePoint| resolved_point(p, fw, bw as int, fh, bh as int, scaled)
            } else {
                |p: FeaturePoint| p
            }),
            i <= groups@.len(),
            out@.len() == i,
            forall|k: int|
                0 <= k < i ==> {
                    &&& (#[trigger] out@[k]).id@ == groups@[k].id@
                    &&& out@[k].name@ == groups@[k].name@
                    &&& out@[k].enabled == groups@[k].enabled
                    &&& out@[k].min_match == groups@[k].min_match
                    &&& out@[k].points@ == groups@[k].points@.map_values(f)
                },
        decreases groups@.len() - i,
    {
        let group = &groups[i];
        let mut points: Vec<FeaturePoint> = Vec::new();
        let mut j: usize = 0;
        while j < group.points.len()
            invariant
                bw >= 1,
                bh >= 1,
                f == (if scale {
                    |p: FeaturePoint| resolved_point(p, fw, bw as int, fh, bh as int, scaled)
                } else {
                    |p: FeaturePoint| p
                }),
                j <= group.points@.len(),
                points@.len() == j,
                forall|k: int| 0 <= k < j ==> #[trigger] points@[k] == f(group.points@[k]),
            decreases group.points@.len() - j,
        {
            let p = group.points[j];
            let q = if scale {
                let dx = ratio_round_exec(p.dx, fw, bw);
                let dy = ratio_round_exec(p.dy, fh, bh);
                let cap_x: u64 = scaled.w.saturating_sub(1) as u64;
                let cap_y: u64 = scaled.h.saturating_sub(1) as u64;
                FeaturePoint {
                    dx: (if dx <= cap_x { dx } else { cap_x }) as u32,
                    dy: (if dy <= cap_y { dy } else { cap_y }) as u32,
                    ..p
                }
            } else {
                p
            };
            points.push(q);
            j = j + 1;
        }
        proof {
            assert(points@ =~= group.points@.map_values(f));
        }
        out.push(
            FeatureGroup {
                id: group.id.clone(),
                name: group.name.clone(),
                enabled: group.enabled,
                points,
                min_match: group.min_match,
            },
        );
        i = i + 1;
    }
    out
}


pub open spec fn effective_base(base: u32, frame: u32) -> u32 {
    if base == 0 { frame } else { base }
}

pub open spec fn at_least_one(v: u32) -> int {
    if v >= 1 { v as int } else { 1 }
}

pub open spec fn fixed_mismatch_message(bw: u32, bh: u32, fw: u32, fh: u32) -> Seq<char> {
    "fixed coordinates require "@ + decimal(bw as nat) + "x"@ + decimal(bh as nat) + ", got "@ + decimal(fw as nat)
        + "x"@ + decimal(fh as nat)
}

/// The region an object occupies in a `fw x fh` frame, or why it cannot be placed.
pub open spec fn resolved_region(
    wire: RegionWire,
    mode: CoordinateMode,
    anchor_x: Anchor,
    anchor_y: Anchor,
    base_width: u32,
    base_height: u32,
    fw: u32,
    fh: u32,
) -> Result<Region, Seq<char>> {
    let bw = effective_base(base_width, fw);
    let bh = effective_base(base_height, fh);
    match wire_region(wire) {
        Err(m) => Err(m),
        Ok(region) => if mode == CoordinateMode::Fixed {
            if bw != fw || bh != fh {
                Err(fixed_mismatch_message(bw, bh, fw, fh))
            } else {
                Ok(region)
            }
        } else if mode == CoordinateMode::Anchor {
            let x = region.x + anchor_shift_spec(anchor_x, fw - bw);
            let y = region.y + anchor_shift_spec(anchor_y, fh - bh);
            if x < 0 || y < 0 {
                Err("anchored region moved outside the frame"@)
            } else {
                Ok(Region { x: x as u32, y: y as u32, ..region })
            }
        } else {
            Ok(scaled_region(region, fw, at_least_one(bw), fh, at_least_one(bh)))
        },
    }
}

/// How the points of an object move in a `fw x fh` frame.
pub open spec fn point_map(
    wire: RegionWire,
    mode: CoordinateMode,
    base_width: u32,
    base_height: u32,
    fw: u32,
    fh: u32,
) -> spec_fn(FeaturePoint) -> FeaturePoint {
    let bw = at_least_one(effective_base(base_width, fw));
    let bh = at_least_one(effective_base(base_height, fh));
    if mode == CoordinateMode::Scale {
        |p: FeaturePoint| resolved_point(p, fw, bw, fh, bh, scaled_region(wire_region(wire)->Ok_0, fw, bw, fh, bh))
    } else {
        |p: FeaturePoint| p
    }
}

/// Adapts an object's region and points from the baseline size to a `frame_width x frame_height`
/// frame: `Fixed` demands the baseline size, `Anchor` keeps the size and follows the chosen sides,
/// `Scale` scales region and points (rounded half up).
pub fn resolve_object(
    region: &RegionWire,
    groups: &Vec<FeatureGroup>,
    mode: CoordinateMode,
    anchor_x: Anchor,
    anchor_y: Anchor,
    base_width: u32,
    base_height: u32,
    frame_width: u32,
    frame_height: u32,
) -> (res: Result<(Region, Vec<FeatureGroup>), String>)
    ensures
        match resolved_region(*region, mode, anchor_x, anchor_y, base_width, base_height, frame_width, frame_height) {
            Ok(r) => res matches Ok((a, gs)) && a == r && groups_mapped(
                gs@,
                groups@,
                point_map(*region, mode, base_width, base_height, frame_width, frame_height),
            ),
            Err(m) => res matches Err(t) && t@ == m,
        },
{
    let resolved = match region.to_region() {
        Ok(r) => r,
        Err(e) => {
            return Err(e);
        },
    };
    let bw = if base_width == 0 { frame_width } else { base_width };
    let bh = if base_height == 0 { frame_height } else { base_height };
    match mode {
        CoordinateMode::Fixed => {
            if bw != frame_width || bh != frame_height {
                let mut s = String::from_str("fixed coordinates require ");
                push_decimal(&mut s, bw as u128);
                s.append("x");
                push_decimal(&mut s, bh as u128);
                s.append(", got ");
                push_decimal(&mut s, frame_width as u128);
                s.append("x");
                push_decimal(&mut s, frame_height as u128);
                return Err(s);
            }
            let gs = map_groups(groups, false, frame_width, 1, frame_height, 1, resolved);
            Ok((resolved, gs))
        },
        CoordinateMode::Anchor => {
            let x: i64 = resolved.x as i64 + anchor_shift(anchor_x, frame_width as i64 - bw as i64);
            let y: i64 = resolved.y as i64 + anchor_shift(anchor_y, frame_height as i64 - bh as i64);
            if x < 0 || y < 0 {
                return Err(String::from_str("anchored region moved outside the frame"));
            }
            let placed = Region {
                x: #[verifier::truncate] (x as u32),
                y: #[verifier::truncate] (y as u32),
                w: resolved.w,
                h: resolved.h,
            };
            let gs = map_groups(groups, false, frame_width, 1, frame_height, 1, placed);
            Ok((placed, gs))
        },
        CoordinateMode::Scale => {
            let bw1 = if bw >= 1 { bw } else { 1 };
            let bh1 = if bh >= 1 { bh } else { 1 };
            let w = ratio_round_exec(resolved.w, frame_width, bw1);
            let h = ratio_round_exec(resolved.h, frame_height, bh1);
            let scaled = Region {
                x: sat_u32_exec(ratio_round_exec(resolved.x, frame_width, bw1)),
                y: sat_u32_exec(ratio_round_exec(resolved.y, frame_height, bh1)),
                w: sat_u32_exec(if w >= 1 { w } else { 1 }),
                h: sat_u32_exec(if h >= 1 { h } else { 1 }),
            };
            let gs = map_groups(groups, true, frame_width, bw1, frame_height, bh1, scaled);
            Ok((scaled, gs))
        },
    }
}

/// The ids of the groups that hit, in report order.
pub open spec fn matched_ids(groups: Seq<GroupResult>) -> Seq<Seq<char>>
    decreases groups.len(),
{
    if groups.len() == 0 {
        Seq::empty()
    } else if groups.last().matched {
        matched_ids(groups.drop_last()).push(groups.last().id@)
    } else {
        matched_ids(groups.drop_last())
    }
}

/// The ids of the groups that hit.
pub fn matched_group_ids(report: &MatchReport) -> (ids: Vec<String>)
    ensures
        ids@.len() == matched_ids(report.groups@).len(),
        forall|k: int| 0 <= k < ids@.len() ==> (#[trigger] ids@[k])@ == matched_ids(report.groups@)[k],
{
    let ghost gs = report.groups@;
    let mut ids: Vec<String> = Vec::new();
    let mut i: usize = 0;
    while i < report.groups.len()
        invariant
            gs == report.groups@,
            i <= gs.len(),
            ids@.len() == matched_ids(gs.take(i as int)).len(),
            forall|k: int| 0 <= k < ids@.len() ==> (#[trigger] ids@[k])@ == matched_ids(gs.take(i as int))[k],
        decreases gs.len() - i,
    {
        proof {
            assert(gs.take(i + 1).drop_last() =~= gs.take(i as int));
        }
        if report.groups[i].matched {
            ids.push(report.groups[i].id.clone());
        }
        i = i + 1;
    }
    proof {
        assert(gs.take(gs.len() as int) =~= gs);
    }
    ids
}

/// A replay expectation holds: exactly the expected state hits, or nothing hits when none is expected.
pub open spec fn expectation_holds(ids: Seq<Seq<char>>, expected: Option<Seq<char>>) -> bool {
    match expected {
        Some(e) => ids.len() == 1 && ids[0] == e,
        None => ids.len() == 0,
    }
}

/// Whether a replay report meets its expectation; several states hitting at once is an ambiguity.
pub fn expectation_passed(actual: &Vec<String>, expected: &Option<String>) -> (passed: bool)
    ensures
        passed == expectation_holds(
            actual@.map_values(|s: String| s@),
            match expected {
                Some(e) => Some(e@),
                None => None,
            },
        ),
{
    match expected {
        Some(e) => actual.len() == 1 && actual[0].eq(e),
        None => actual.len() == 0,
    }
}

/// Checks a project's version (1..=4 supported) and that every object has an id.
pub fn check_project_header(version: u32, object_ids: &Vec<String>) -> (res: Result<(), String>)
    ensures
        !(1 <= version <= 4) ==> (res matches Err(t) && t@ == "unsupported project version "@ + decimal(version as nat)),
        1 <= version <= 4 ==> (res is Ok <==> forall|k: int| 0 <= k < object_ids@.len() ==> (#[trigger] object_ids@[k])@.len() > 0),
        1 <= version <= 4 && res is Err ==> (res matches Err(t) && t@ == "object id must not be empty"@),
{
    if version < 1 || version > 4 {
        let mut s = String::from_str("unsupported project version ");
        push_decimal(&mut s, version as u128);
        return Err(s);
    }
    let mut i: usize = 0;
    while i < object_ids.len()
        invariant
            1 <= version <= 4,
            i <= object_ids@.len(),
            forall|k: int| 0 <= k < i ==> (#[trigger] object_ids@[k])@.len() > 0,
        decreases object_ids@.len() - i,
    {
        if object_ids[i].as_str().is_empty() {
            return Err(String::from_str("object id must not be empty"));
        }
        i = i + 1;
    }
    Ok(())
}

/// Replay samples without a storage kind are embedded.
pub fn embedded() -> (s: String)
    ensures
        s@ == "embedded"@,
{
    String::from_str("embedded")
}

/// Law: in `Fixed` mode an object is placed only on a frame of exactly its baseline size (a
/// baseline dimension of 0 stands for the frame's), and then it keeps its region unchanged;
/// otherwise the refusal names both sizes.
pub proof fn fixed_mode_needs_the_baseline_size(
    wire: RegionWire,
    anchor_x: Anchor,
    anchor_y: Anchor,
    base_width: u32,
    base_height: u32,
    fw: u32,
    fh: u32,
)
    ensures
        ({
            let res = resolved_region(wire, CoordinateMode::Fixed, anchor_x, anchor_y, base_width, base_height, fw, fh);
            let bw: u32 = if base_width == 0 { fw } else { base_width };
            let bh: u32 = if base_height == 0 { fh } else { base_height };
            &&& res is Ok <==> wire_region(wire) is Ok && bw == fw && bh == fh
            &&& res matches Ok(r) ==> wire_region(wire) == Ok::<Region, Seq<char>>(r)
            &&& wire_region(wire) is Ok && (bw != fw || bh != fh) ==> res == Err::<Region, Seq<char>>(
                "fixed coordinates require "@ + decimal(bw as nat) + "x"@ + decimal(bh as nat) + ", got "@
                    + decimal(fw as nat) + "x"@ + decimal(fh as nat),
            )
        }),
{
}

/// Law: in `Anchor` mode the region keeps its size; its left edge stays put with a `Start`
/// anchor and moves by the width change with an `End` anchor (a position past `u32::MAX` wraps
/// around in the cast to `u32`), and likewise its top edge.
pub proof fn anchor_mode_keeps_the_size(
    wire: RegionWire,
    anchor_x: Anchor,
    anchor_y: Anchor,
    base_width: u32,
    base_height: u32,
    fw: u32,
    fh: u32,
)
    ensures
        ({
            let res = resolved_region(wire, CoordinateMode::Anchor, anchor_x, anchor_y, base_width, base_height, fw, fh);
            let bw: u32 = if base_width == 0 { fw } else { base_width };
            let bh: u32 = if base_height == 0 { fh } else { base_height };
            let reg = wire_region(wire)->Ok_0;
            &&& wire_region(wire) is Err ==> res == wire_region(wire)
            &&& res matches Ok(r) ==> {
                &&& r.w == reg.w && r.h == reg.h
                &&& anchor_x == Anchor::Start ==> r.x == reg.x
                &&& anchor_x == Anchor::End && reg.x + fw - bw <= u32::MAX ==> r.x == reg.x + fw - bw
                &&& anchor_y == Anchor::Start ==> r.y == reg.y
                &&& anchor_y == Anchor::End && reg.y + fh - bh <= u32::MAX ==> r.y == reg.y + fh - bh
            }
            &&& wire_region(wire) is Ok && anchor_x == Anchor::Start && anchor_y == Anchor::Start ==> res
                == Ok::<Region, Seq<char>>(reg)
        }),
{
}

proof fn lemma_ratio_round_bounds(v: int, num: int, den: int)
    requires
        den > 0,
    ensures
        2 * v * num - den < 2 * den * ratio_round(v, num, den) <= 2 * v * num + den,
{
    let a = 2 * v * num + den;
    let q = ratio_round(v, num, den);
    assert(q == a / (2 * den));
    assert(2 * den * q <= a < 2 * den * q + 2 * den) by (nonlinear_arith)
        requires
            den > 0,
            q == a / (2 * den),
    ;
}

/// Law: in `Scale` mode a valid region is always placed, scaled by frame size over baseline size
/// (a baseline dimension of 0 stands for the frame's, and of at least 1): each coordinate and
/// length is the nearest whole number to its scaled value, halves rounding up, lengths at least
/// 1, everything saturating at `u32::MAX`.
#[verifier::spinoff_prover]
pub proof fn scale_mode_rounds_to_nearest(
    wire: RegionWire,
    anchor_x: Anchor,
    anchor_y: Anchor,
    base_width: u32,
    base_height: u32,
    fw: u32,
    fh: u32,
)
    ensures
        ({
            let res = resolved_region(wire, CoordinateMode::Scale, anchor_x, anchor_y, base_width, base_height, fw, fh);
            let b0: int = if base_width == 0 { fw as int } else { base_width as int };
            let c0: int = if base_height == 0 { fh as int } else { base_height as int };
            let bw: int = if b0 >= 1 { b0 } else { 1 };
            let bh: int = if c0 >= 1 { c0 } else { 1 };
            let reg = wire_region(wire)->Ok_0;
            &&& wire_region(wire) is Err ==> res == wire_region(wire)
            &&& wire_region(wire) is Ok ==> res is Ok
            &&& res matches Ok(r) ==> {
                &&& r.x < u32::MAX ==> 2 * reg.x * fw - bw < 2 * bw * r.x <= 2 * reg.x * fw + bw
                &&& r.y < u32::MAX ==> 2 * reg.y * fh - bh < 2 * bh * r.y <= 2 * reg.y * fh + bh
                &&& r.w >= 1 && r.h >= 1
                &&& 1 < r.w < u32::MAX ==> 2 * reg.w * fw - bw < 2 * bw * r.w <= 2 * reg.w * fw + bw
                &&& 1 < r.h < u32::MAX ==> 2 * reg.h * fh - bh < 2 * bh * r.h <= 2 * reg.h * fh + bh
                &&& r.w == 1 ==> 2 * reg.w * fw < 3 * bw
                &&& r.h == 1 ==> 2 * reg.h * fh < 3 * bh
            }
        }),
{
    let b0: int = if base_width == 0 { fw as int } else { base_width as int };
    let c0: int = if base_height == 0 { fh as int } else { base_height as int };
    let bw: int = if b0 >= 1 { b0 } else { 1 };
    let bh: int = if c0 >= 1 { c0 } else { 1 };
    let reg = wire_region(wire)->Ok_0;
    assert(at_least_one(effective_base(base_width, fw)) == bw);
    assert(at_least_one(effective_base(base_height, fh)) == bh);
    lemma_ratio_round_bounds(reg.x as int, fw as int, bw);
    lemma_ratio_round_bounds(reg.y as int, fh as int, bh);
    lemma_ratio_round_bounds(reg.w as int, fw as int, bw);
    lemma_ratio_round_bounds(reg.h as int, fh as int, bh);
    if wire_region(wire) is Ok {
        let r = scaled_region(reg, fw, bw, fh, bh);
        assert(resolved_region(wire, CoordinateMode::Scale, anchor_x, anchor_y, base_width, base_height, fw, fh)
            == Ok::<Region, Seq<char>>(r));
        let xr = ratio_round(reg.x as int, fw as int, bw);
        let yr = ratio_round(reg.y as int, fh as int, bh);
        let wr = ratio_round(reg.w as int, fw as int, bw);
        let hr = ratio_round(reg.h as int, fh as int, bh);
        assert(r.x < u32::MAX ==> r.x == xr);
        assert(r.y < u32::MAX ==> r.y == yr);
        assert(1 < r.w < u32::MAX ==> r.w == wr);
        assert(1 < r.h < u32::MAX ==> r.h == hr);
        assert(r.w == 1 ==> wr <= 1);
        assert(r.h == 1 ==> hr <= 1);
        assert(wr <= 1 ==> 2 * bw * wr <= 2 * bw) by (nonlinear_arith)
            requires
                bw >= 1,
        ;
        assert(hr <= 1 ==> 2 * bh * hr <= 2 * bh) by (nonlinear_arith)
            requires
                bh >= 1,
        ;
    }
}

/// Law: how points move with their object. In `Fixed` and `Anchor` mode a point keeps its
/// offsets; in `Scale` mode each offset is scaled like the region (nearest whole number, halves
/// up) and kept inside the scaled region; apart from the offsets a point is unchanged.
pub proof fn points_follow_their_region(
    wire: RegionWire,
    mode: CoordinateMode,
    anchor_x: Anchor,
    anchor_y: Anchor,
    base_width: u32,
    base_height: u32,
    fw: u32,
    fh: u32,
    p: FeaturePoint,
)
    requires
        wire_region(wire) is Ok,
    ensures
        ({
            let q = point_map(wire, mode, base_width, base_height, fw, fh)(p);
            let b0: int = if base_width == 0 { fw as int } else { base_width as int };
            let c0: int = if base_height == 0 { fh as int } else { base_height as int };
            let bw: int = if b0 >= 1 { b0 } else { 1 };
            let bh: int = if c0 >= 1 { c0 } else { 1 };
            let res = resolved_region(wire, mode, anchor_x, anchor_y, base_width, base_height, fw, fh);
            &&& q.reference == p.reference && q.tolerance == p.tolerance && q.alpha_mode == p.alpha_mode
            &&& q.alpha_tolerance == p.alpha_tolerance && q.must_not == p.must_not
            &&& mode != CoordinateMode::Scale ==> q.dx == p.dx && q.dy == p.dy
            &&& mode == CoordinateMode::Scale ==> (res matches Ok(r) && {
                &&& q.dx < r.w && q.dy < r.h
                &&& q.dx < r.w - 1 ==> 2 * p.dx * fw - bw < 2 * bw * q.dx <= 2 * p.dx * fw + bw
                &&& q.dy < r.h - 1 ==> 2 * p.dy * fh - bh < 2 * bh * q.dy <= 2 * p.dy * fh + bh
            })
        }),
{
    let b0: int = if base_width == 0 { fw as int } else { base_width as int };
    let c0: int = if base_height == 0 { fh as int } else { base_height as int };
    let bw: int = if b0 >= 1 { b0 } else { 1 };
    let bh: int = if c0 >= 1 { c0 } else { 1 };
    assert(at_least_one(effective_base(base_width, fw)) == bw);
    assert(at_least_one(effective_base(base_height, fh)) == bh);
    lemma_ratio_round_bounds(p.dx as int, fw as int, bw);
    lemma_ratio_round_bounds(p.dy as int, fh as int, bh);
    scale_mode_rounds_to_nearest(wire, anchor_x, anchor_y, base_width, base_height, fw, fh);
}

} // verus!
