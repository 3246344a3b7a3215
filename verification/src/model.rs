//! Feature signature data: regions, sample points and feature groups.

use vstd::prelude::*;

verus! {

/// A rectangle in frame coordinates; the origin is the captured frame's top-left corner.
#[derive(Clone, Copy, Debug, Default, PartialEq, Eq, Structural)]
pub struct Region {
    /// Left edge (pixels).
    pub x: u32,
    /// Top edge (pixels).
    pub y: u32,
    /// Width (pixels).
    pub w: u32,
    /// Height (pixels).
    pub h: u32,
}

/// How the alpha channel takes part in a colour comparison.
#[derive(Clone, Copy, Debug, Default, PartialEq, Eq, Structural)]
pub enum AlphaMode {
    /// Alpha is ignored: survives translucent masks, fades and blends.
    #[default]
    Ignore,
    /// Alpha is compared against its own tolerance too.
    Match,
}

/// One sample point of a feature group; offsets are relative to the region's top-left corner.
#[derive(Clone, Copy, Debug)]
pub struct FeaturePoint {
    /// Horizontal offset inside the region.
    pub dx: u32,
    /// Vertical offset inside the region.
    pub dy: u32,
    /// Reference colour RGBA.
    pub reference: [u8; 4],
    /// Per-channel RGB tolerance (0-255).
    pub tolerance: [u8; 3],
    /// How alpha is compared.
    pub alpha_mode: AlphaMode,
    /// Alpha tolerance; used only in `Match` mode.
    pub alpha_tolerance: u8,
    /// Exclusion point: it passes only when the colour does *not* match.
    pub must_not: bool,
}

/// One visual state of an object; the group hits when its required points pass.
#[derive(Clone, Debug)]
pub struct FeatureGroup {
    /// Unique group id.
    pub id: String,
    /// Display name, e.g. "standing".
    pub name: String,
    /// Whether the group takes part in matching.
    pub enabled: bool,
    /// The group's sample points.
    pub points: Vec<FeaturePoint>,
    /// Minimum number of regular points that must pass; -1 means all of them.
    pub min_match: i32,
}

/// What the matching rules read of a feature group.
pub ghost struct GroupView {
    pub id: Seq<char>,
    pub enabled: bool,
    pub points: Seq<FeaturePoint>,
    pub min_match: i32,
}

impl View for FeatureGroup {
    type V = GroupView;

    open spec fn view(&self) -> GroupView {
        GroupView { id: self.id@, enabled: self.enabled, points: self.points@, min_match: self.min_match }
    }
}

/// The views of a sequence of groups.
pub open spec fn group_views(groups: Seq<FeatureGroup>) -> Seq<GroupView> {
    groups.map_values(|g: FeatureGroup| g@)
}

/// Alpha tolerance given to points that do not state one.
pub fn default_alpha_tolerance() -> (t: u8)
    ensures
        t == 40,
{
    40
}

/// Groups without an `enabled` flag take part in matching.
pub fn default_enabled() -> (e: bool)
    ensures
        e,
{
    true
}

/// Groups without `minMatch` require all regular points.
pub fn default_min_match() -> (m: i32)
    ensures
        m == -1,
{
    -1
}

/// Number of regular (non-exclusion) points.
pub open spec fn count_regular(points: Seq<FeaturePoint>) -> nat
    decreases points.len(),
{
    if points.len() == 0 {
        0
    } else {
        count_regular(points.drop_last()) + if points.last().must_not { 0nat } else { 1nat }
    }
}

/// The groups that take part in matching, in their original order.
pub open spec fn enabled_groups(groups: Seq<GroupView>) -> Seq<GroupView>
    decreases groups.len(),
{
    if groups.len() == 0 {
        Seq::empty()
    } else if groups.last().enabled {
        enabled_groups(groups.drop_last()).push(groups.last())
    } else {
        enabled_groups(groups.drop_last())
    }
}

} // verus!
