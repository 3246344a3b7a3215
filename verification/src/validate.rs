//! Input validation before the matching hot path: frame buffer, region and
//! feature-group thresholds, so that an invalid project never yields a silent
//! wrong answer.

use vstd::prelude::*;

use crate::engine::{sample_in_frame};
use crate::model::{count_regular, FeatureGroup, FeaturePoint, Region};
use crate::text::{decimal, push_decimal, push_signed_decimal, signed_decimal};

verus! {

/// Why a frame, region and group set cannot be matched.
#[derive(Clone, Copy, Debug, PartialEq, Eq, Structural)]
pub enum MatchInputError {
    /// `width * height * 4` does not fit in 64 bits.
    FrameSizeOverflow,
    /// The buffer length is not `width * height * 4`.
    FrameLengthMismatch { len: usize, width: u32, height: u32 },
    /// The region has zero width or height.
    EmptyRegion,
    /// `x + w` overflows.
    RegionXOverflow,
    /// `y + h` overflows.
    RegionYOverflow,
    /// The region reaches beyond the frame.
    RegionOutsideFrame { region: Region, width: u32, height: u32 },
    /// A group's `min_match` is 0 (`group` is 0-based).
    ZeroMinMatch { group: usize },
    /// A group's `min_match` exceeds its regular point count.
    MinMatchTooLarge { group: usize, min_match: i32, regular: usize },
    /// A point lies outside the region (`group`, `point` are 0-based).
    PointOutsideRegion { group: usize, point: usize, dx: u32, dy: u32, width: u32, height: u32 },
}

pub open spec fn frame_issue(len: nat, width: u32, height: u32) -> Option<MatchInputError> {
    if width * height * 4 > u64::MAX {
        Some(MatchInputError::FrameSizeOverflow)
    } else if width * height * 4 != len {
        Some(MatchInputError::FrameLengthMismatch { len: len as usize, width, height })
    } else {
        None
    }
}

pub open spec fn region_issue(region: Region, width: u32, height: u32) -> Option<MatchInputError> {
    if region.w == 0 || region.h == 0 {
        Some(MatchInputError::EmptyRegion)
    } else if region.x + region.w > u32::MAX {
        Some(MatchInputError::RegionXOverflow)
    } else if region.y + region.h > u32::MAX {
        Some(MatchInputError::RegionYOverflow)
    } else if region.x + region.w > width || region.y + region.h > height {
        Some(MatchInputError::RegionOutsideFrame { region, width, height })
    } else {
        None
    }
}

/// The first point, from `start` on, that lies outside the region.
pub open spec fn point_issue_from(
    points: Seq<FeaturePoint>,
    region: Region,
    group: int,
    start: int,
) -> Option<MatchInputError>
    decreases points.len() - start,
{
    if start < 0 || start >= points.len() {
        None
    } else if points[start].dx >= region.w || points[start].dy >= region.h {
        Some(
            MatchInputError::PointOutsideRegion {
                group: group as usize,
                point: start as usize,
                dx: points[start].dx,
                dy: points[start].dy,
                width: region.w,
                height: region.h,
            },
        )
    } else {
        point_issue_from(points, region, group, start + 1)
    }
}

pub open spec fn group_issue(g: FeatureGroup, region: Region, group: int) -> Option<MatchInputError> {
    let regular = count_regular(g.points@);
    if g.min_match == 0 {
        Some(MatchInputError::ZeroMinMatch { group: group as usize })
    } else if g.min_match > 0 && g.min_match > regular {
        Some(
            MatchInputError::MinMatchTooLarge {
                group: group as usize,
                min_match: g.min_match,
                regular: regular as usize,
            },
        )
    } else {
        point_issue_from(g.points@, region, group, 0)
    }
}

/// The first group, from `start` on, with an issue.
pub open spec fn groups_issue_from(groups: Seq<FeatureGroup>, region: Region, start: int) -> Option<MatchInputError>
    decreases groups.len() - start,
{
    if start < 0 || start >= groups.len() {
        None
    } else if group_issue(groups[start], region, start) is Some {
        group_issue(groups[start], region, start)
    } else {
        groups_issue_from(groups, region, start + 1)
    }
}

/// The first problem with a match input, checked in the order frame, region, groups.
pub open spec fn match_input_issue(
    len: nat,
    width: u32,
    height: u32,
    region: Region,
    groups: Seq<FeatureGroup>,
) -> Option<MatchInputError> {
    if frame_issue(len, width, height) is Some {
        frame_issue(len, width, height)
    } else if region_issue(region, width, height) is Some {
        region_issue(region, width, height)
    } else {
        groups_issue_from(groups, region, 0)
    }
}

/// The displayed text of each issue (group and point numbers are 1-based).
pub open spec fn issue_message(e: MatchInputError) -> Seq<char> {
    match e {
        MatchInputError::FrameSizeOverflow => "帧尺寸计算溢出"@,
        MatchInputError::FrameLengthMismatch { len, width, height } => "帧缓冲长度 "@ + decimal(
            len as nat,
        ) + " 与尺寸 "@ + decimal(width as nat) + "x"@ + decimal(height as nat) + " RGBA 不一致"@,
        MatchInputError::EmptyRegion => "对象区域宽高必须大于 0"@,
        MatchInputError::RegionXOverflow => "对象区域横坐标溢出"@,
        MatchInputError::RegionYOverflow => "对象区域纵坐标溢出"@,
        MatchInputError::RegionOutsideFrame { region, width, height } => "对象区域 ("@ + decimal(
            region.x as nat,
        ) + ", "@ + decimal(region.y as nat) + ", "@ + decimal(region.w as nat) + ", "@ + decimal(
            region.h as nat,
        ) + ") 超出帧尺寸 "@ + decimal(width as nat) + "x"@ + decimal(height as nat),
        MatchInputError::ZeroMinMatch { group } => "特征组 "@ + decimal((group + 1) as nat) + " 的 minMatch 不能为 0"@,
        MatchInputError::MinMatchTooLarge { group, min_match, regular } => "特征组 "@ + decimal((group + 1) as nat) + " 的 minMatch="@ + signed_decimal(min_match as int) + " 超过常规点数量 "@ + decimal(
            regular as nat,
        ),
        MatchInputError::PointOutsideRegion { group, point, dx, dy, width, height } => "特征组 "@
            + decimal((group + 1) as nat) + " 的点 "@ + decimal((point + 1) as nat) + " 坐标 ("@ + decimal(dx as nat)
            + ", "@ + decimal(dy as nat) + ") 超出对象区域 "@ + decimal(width as nat) + "x"@ + decimal(
            height as nat,
        ),
    }
}

impl MatchInputError {
    /// Displayable text of the issue.
    pub fn message(&self) -> (text: String)
        ensures
            text@ == issue_message(*self),
    {
        let mut s = String::new();
        match *self {
            MatchInputError::FrameSizeOverflow => {
                s.append("帧尺寸计算溢出");
            },
            MatchInputError::FrameLengthMismatch { len, width, height } => {
                s.append("帧缓冲长度 ");
                push_decimal(&mut s, len as u128);
                s.append(" 与尺寸 ");
                push_decimal(&mut s, width as u128);
                s.append("x");
                push_decimal(&mut s, height as u128);
                s.append(" RGBA 不一致");
            },
            MatchInputError::EmptyRegion => {
                s.append("对象区域宽高必须大于 0");
            },
            MatchInputError::RegionXOverflow => {
                s.append("对象区域横坐标溢出");
            },
            MatchInputError::RegionYOverflow => {
                s.append("对象区域纵坐标溢出");
            },
            MatchInputError::RegionOutsideFrame { region, width, height } => {
                s.append("对象区域 (");
                push_decimal(&mut s, region.x as u128);
                s.append(", ");
                push_decimal(&mut s, region.y as u128);
                s.append(", ");
                push_decimal(&mut s, region.w as u128);
                s.append(", ");
                push_decimal(&mut s, region.h as u128);
                s.append(") 超出帧尺寸 ");
                push_decimal(&mut s, width as u128);
                s.append("x");
                push_decimal(&mut s, height as u128);
            },
            MatchInputError::ZeroMinMatch { group } => {
                s.append("特征组 ");
                push_decimal(&mut s, group as u128 + 1);
                s.append(" 的 minMatch 不能为 0");
            },
            MatchInputError::MinMatchTooLarge { group, min_match, regular } => {
                s.append("特征组 ");
                push_decimal(&mut s, group as u128 + 1);
                s.append(" 的 minMatch=");
                push_signed_decimal(&mut s, min_match as i64);
                s.append(" 超过常规点数量 ");
                push_decimal(&mut s, regular as u128);
            },
            MatchInputError::PointOutsideRegion { group, point, dx, dy, width, height } => {
                s.append("特征组 ");
                push_decimal(&mut s, group as u128 + 1);
                s.append(" 的点 ");
                push_decimal(&mut s, point as u128 + 1);
                s.append(" 坐标 (");
                push_decimal(&mut s, dx as u128);
                s.append(", ");
                push_decimal(&mut s, dy as u128);
                s.append(") 超出对象区域 ");
                push_decimal(&mut s, width as u128);
                s.append("x");
                push_decimal(&mut s, height as u128);
            },
        }
        assert(s@ =~= issue_message(*self));
        s
    }
}


/// Number of regular points of a group.
pub fn regular_point_count(points: &Vec<FeaturePoint>) -> (n: usize)
    ensures
        n == count_regular(points@),
{
    let ghost all = points@;
    let mut n: usize = 0;
    let mut i: usize = 0;
    while i < points.len()
        invariant
            all == points@,
            i <= all.len(),
            n == count_regular(all.take(i as int)),
            n <= i,
        decreases all.len() - i,
    {
        proof {
            assert(all.take(i + 1).drop_last() =~= all.take(i as int));
        }
        if !points[i].must_not {
            n = n + 1;
        }
        i = i + 1;
    }
    proof {
        assert(all.take(all.len() as int) =~= all);
    }
    n
}

fn check_group(group: &FeatureGroup, region: &Region, index: usize) -> (res: Result<(), MatchInputError>)
    ensures
        group_issue(*group, *region, index as int) == match res {
            Ok(_) => None,
            Err(e) => Some(e),
        },
{
    let regular = regular_point_count(&group.points);
    if group.min_match == 0 {
        return Err(MatchInputError::ZeroMinMatch { group: index });
    }
    if group.min_match > 0 && group.min_match as usize > regular {
        return Err(MatchInputError::MinMatchTooLarge { group: index, min_match: group.min_match, regular });
    }
    let ghost all = group.points@;
    let mut i: usize = 0;
    while i < group.points.len()
        invariant
            all == group.points@,
            i <= all.len(),
            group_issue(*group, *region, index as int) == point_issue_from(all, *region, index as int, 0),
            point_issue_from(all, *region, index as int, 0) == point_issue_from(
                all,
                *region,
                index as int,
                i as int,
            ),
        decreases all.len() - i,
    {
        let point = &group.points[i];
        if point.dx >= region.w || point.dy >= region.h {
            return Err(
                MatchInputError::PointOutsideRegion {
                    group: index,
                    point: i,
                    dx: point.dx,
                    dy: point.dy,
                    width: region.w,
                    height: region.h,
                },
            );
        }
        i = i + 1;
    }
    Ok(())
}

/// Checks a frame, region and group set before matching; the error names the first problem.
pub fn check_match_input(
    frame: &[u8],
    width: u32,
    height: u32,
    region: &Region,
    groups: &[FeatureGroup],
) -> (res: Result<(), MatchInputError>)
    ensures
        match_input_issue(frame@.len(), width, height, *region, groups@) == match res {
            Ok(_) => None,
            Err(e) => Some(e),
        },
{
    assert((width as u64) * (height as u64) <= 0xffff_fffe_0000_0001u64) by (nonlinear_arith)
        requires
            width <= 0xffff_ffffu32,
            height <= 0xffff_ffffu32,
    ;
    let pixels: u64 = (width as u64) * (height as u64);
    let expected = match pixels.checked_mul(4) {
        Some(v) => v,
        None => {
            return Err(MatchInputError::FrameSizeOverflow);
        },
    };
    let len = frame.len();
    if expected != len as u64 {
        return Err(MatchInputError::FrameLengthMismatch { len, width, height });
    }
    if region.w == 0 || region.h == 0 {
        return Err(MatchInputError::EmptyRegion);
    }
    let right = match region.x.checked_add(region.w) {
        Some(v) => v,
        None => {
            return Err(MatchInputError::RegionXOverflow);
        },
    };
    let bottom = match region.y.checked_add(region.h) {
        Some(v) => v,
        None => {
            return Err(MatchInputError::RegionYOverflow);
        },
    };
    if right > width || bottom > height {
        return Err(MatchInputError::RegionOutsideFrame { region: *region, width, height });
    }
    let ghost all = groups@;
    let mut i: usize = 0;
    while i < groups.len()
        invariant
            all == groups@,
            i <= all.len(),
            match_input_issue(frame@.len(), width, height, *region, groups@) == groups_issue_from(
                all,
                *region,
                0,
            ),
            groups_issue_from(all, *region, 0) == groups_issue_from(all, *region, i as int),
        decreases all.len() - i,
    {
        match check_group(&groups[i], region, i) {
            Ok(()) => {},
            Err(e) => {
                return Err(e);
            },
        }
        i = i + 1;
    }
    Ok(())
}

/// Checks coordinates, thresholds and the frame buffer before matching, so that an
/// invalid project never yields a silent wrong answer; the error is displayable text.
pub fn validate_match_input(
    frame: &[u8],
    width: u32,
    height: u32,
    region: &Region,
    groups: &[FeatureGroup],
) -> (res: Result<(), String>)
    ensures
        match_input_issue(frame@.len(), width, height, *region, groups@) is None <==> res is Ok,
        res matches Err(text) ==> text@ == issue_message(
            match_input_issue(frame@.len(), width, height, *region, groups@)->0,
        ),
{
    match check_match_input(frame, width, height, region, groups) {
        Ok(()) => Ok(()),
        Err(e) => Err(e.message()),
    }
}


proof fn lemma_groups_issue_none(groups: Seq<FeatureGroup>, region: Region, start: int, g: int)
    requires
        groups_issue_from(groups, region, start) is None,
        0 <= start <= g < groups.len(),
    ensures
        group_issue(groups[g], region, g) is None,
    decreases g - start,
{
    if start < g {
        lemma_groups_issue_none(groups, region, start + 1, g);
    }
}

proof fn lemma_point_issue_none(points: Seq<FeaturePoint>, region: Region, group: int, start: int, p: int)
    requires
        point_issue_from(points, region, group, start) is None,
        0 <= start <= p < points.len(),
    ensures
        points[p].dx < region.w && points[p].dy < region.h,
    decreases p - start,
{
    if start < p {
        lemma_point_issue_none(points, region, group, start + 1, p);
    }
}

/// Law: once an input passes validation, every point of every group is sampled inside
/// the frame, at the region's corner plus the point's offset (no saturation occurs).
pub proof fn validated_points_lie_in_frame(
    len: nat,
    width: u32,
    height: u32,
    region: Region,
    groups: Seq<FeatureGroup>,
    g: int,
    p: int,
)
    requires
        match_input_issue(len, width, height, region, groups) is None,
        0 <= g < groups.len(),
        0 <= p < groups[g].points@.len(),
    ensures
        sample_in_frame(width, height, region, groups[g].points@[p]),
        crate::engine::sample_x(region, groups[g].points@[p]) == region.x + groups[g].points@[p].dx,
        crate::engine::sample_y(region, groups[g].points@[p]) == region.y + groups[g].points@[p].dy,
{
    lemma_groups_issue_none(groups, region, 0, g);
    lemma_point_issue_none(groups[g].points@, region, g, 0, p);
}

/// Law: once an input passes validation, every point of every group (enabled or not) lies
/// inside the region: its offsets are below the region's width and height.
pub proof fn validated_points_lie_in_region(
    len: nat,
    width: u32,
    height: u32,
    region: Region,
    groups: Seq<FeatureGroup>,
    g: int,
    p: int,
)
    requires
        match_input_issue(len, width, height, region, groups) is None,
        0 <= g < groups.len(),
        0 <= p < groups[g].points@.len(),
    ensures
        groups[g].points@[p].dx < region.w,
        groups[g].points@[p].dy < region.h,
{
    lemma_groups_issue_none(groups, region, 0, g);
    lemma_point_issue_none(groups[g].points@, region, g, 0, p);
}

/// Law: a validated group never has `min_match == 0`, and a positive `min_match`
/// never exceeds its regular point count.
pub proof fn validated_min_match_is_reachable(
    len: nat,
    width: u32,
    height: u32,
    region: Region,
    groups: Seq<FeatureGroup>,
    g: int,
)
    requires
        match_input_issue(len, width, height, region, groups) is None,
        0 <= g < groups.len(),
    ensures
        groups[g].min_match != 0,
        groups[g].min_match > 0 ==> groups[g].min_match <= count_regular(groups[g].points@),
{
    lemma_groups_issue_none(groups, region, 0, g);
}

} // verus!
