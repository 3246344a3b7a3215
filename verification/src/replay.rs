//! Headless runs over a project: find an object, adapt it to a frame and match it, load replay
//! samples, and turn failed expectations into an exit status.

use vstd::prelude::*;
use vstd::string::StringSliceAdditionalSpecFns;

use crate::codec::{
    eq_ignore_ascii_case, eq_ignore_ascii_case_spec, hex_lower_spec, load_embedded_png,
    load_png_bytes, sha256_digest, sha256_hex,
};
use crate::engine::MatchReport;
use crate::layout::{expectation_holds, expectation_passed, groups_mapped, point_map, resolve_object, resolved_region, Anchor, CoordinateMode, RegionWire};
use crate::model::{group_views, FeatureGroup, Region};
use crate::samples::{climbs_out, plain_path, sample_path_is_safe, SampleStorage, storage_spec};
use crate::search::{
    any_candidate_valid, evaluate_groups_search, msg_no_candidate, offsets_upto, radius_limit,
    scale_limit, search_picked,
};
use crate::validate::{issue_message, match_input_issue, validate_match_input};

verus! {

/// An object of a project as the headless runner reads it.
#[derive(Debug)]
pub struct ObjectRule {
    pub id: String,
    pub name: String,
    pub region: RegionWire,
    pub groups: Vec<FeatureGroup>,
    pub coordinate_mode: CoordinateMode,
    pub anchor_x: Anchor,
    pub anchor_y: Anchor,
    pub search_radius: u32,
    pub scale_search_percent: u32,
}

pub open spec fn selects(o: ObjectRule, selector: Seq<char>) -> bool {
    o.id@ == selector || o.name@ == selector
}

/// The first object whose id or name is `selector`.
pub fn find_object(objects: &Vec<ObjectRule>, selector: &str) -> (found: Option<usize>)
    ensures
        found matches Some(i) ==> i < objects@.len() && selects(objects@[i as int], selector@),
        found matches Some(i) ==> forall|k: int| 0 <= k < i ==> !selects(#[trigger] objects@[k], selector@),
        found is None ==> forall|k: int| 0 <= k < objects@.len() ==> !selects(#[trigger] objects@[k], selector@),
{
    let wanted = String::from_str(selector);
    let mut i: usize = 0;
    while i < objects.len()
        invariant
            wanted@ == selector@,
            i <= objects@.len(),
            forall|k: int| 0 <= k < i ==> !selects(#[trigger] objects@[k], selector@),
        decreases objects@.len() - i,
    {
        if objects[i].id == wanted || objects[i].name == wanted {
            return Some(i);
        }
        i = i + 1;
    }
    None
}

/// The first object whose id is `id`.
pub fn find_object_by_id(objects: &Vec<ObjectRule>, id: &str) -> (found: Option<usize>)
    ensures
        found matches Some(i) ==> i < objects@.len() && objects@[i as int].id@ == id@,
        found matches Some(i) ==> forall|k: int| 0 <= k < i ==> (#[trigger] objects@[k]).id@ != id@,
        found is None ==> forall|k: int| 0 <= k < objects@.len() ==> (#[trigger] objects@[k]).id@ != id@,
{
    let wanted = String::from_str(id);
    let mut i: usize = 0;
    while i < objects.len()
        invariant
            wanted@ == id@,
            i <= objects@.len(),
            forall|k: int| 0 <= k < i ==> (#[trigger] objects@[k]).id@ != id@,
        decreases objects@.len() - i,
    {
        if objects[i].id == wanted {
            return Some(i);
        }
        i = i + 1;
    }
    None
}

/// The answer when no object has the selected id or name.
pub fn object_not_found(selector: &str) -> (text: String)
    ensures
        text@ == "object not found: "@ + selector@,
{
    let mut s = String::from_str("object not found: ");
    s.append(selector);
    s
}

/// The answer when a replay sample names an object the project lacks.
pub fn missing_object(sample_id: &str, object_id: &str) -> (text: String)
    ensures
        text@ == "sample "@ + sample_id@ + " references missing object "@ + object_id@,
{
    let mut s = String::from_str("sample ");
    s.append(sample_id);
    s.append(" references missing object ");
    s.append(object_id);
    s
}

/// Checks every object's stored region, reporting the first invalid one.
pub fn check_regions(objects: &Vec<ObjectRule>) -> (res: Result<(), String>)
    ensures
        res is Ok <==> forall|k: int| 0 <= k < objects@.len() ==> crate::layout::wire_region(
            (#[trigger] objects@[k]).region,
        ) is Ok,
{
    let mut i: usize = 0;
    while i < objects.len()
        invariant
            i <= objects@.len(),
            forall|k: int| 0 <= k < i ==> crate::layout::wire_region((#[trigger] objects@[k]).region) is Ok,
        decreases objects@.len() - i,
    {
        match objects[i].region.to_region() {
            Ok(_) => {},
            Err(e) => {
                return Err(e);
            },
        }
        i = i + 1;
    }
    Ok(())
}

// ---------------------------------------------------------------- matching an object

/// What a match of the adapted groups `gs` in `region` answers: the input problem, no valid
/// candidate, or the search's pick.
pub open spec fn match_outcome(
    res: Result<MatchReport, String>,
    frame: Seq<u8>,
    width: u32,
    height: u32,
    region: Region,
    gs: Seq<FeatureGroup>,
    search_radius: u32,
    scale_search_percent: u32,
) -> bool {
    let issue = match_input_issue(frame.len(), width, height, region, gs);
    let scales = 2 * scale_limit(scale_search_percent) + 1;
    let offsets = offsets_upto(radius_limit(search_radius));
    &&& issue is Some ==> (res matches Err(t) && t@ == issue_message(issue->0))
    &&& issue is None ==> (res is Err <==> !any_candidate_valid(width, height, region, scales, offsets))
    &&& issue is None && res is Err ==> res->Err_0@ == msg_no_candidate()
    &&& res matches Ok(r) ==> search_picked(r, frame, width, height, region, group_views(gs), scales, offsets)
}

/// Adapts an object to a `width x height` frame (see `resolve_object`), checks the input and
/// searches near the adapted region.
pub fn match_object(
    object: &ObjectRule,
    base_width: u32,
    base_height: u32,
    frame: &[u8],
    width: u32,
    height: u32,
) -> (res: Result<MatchReport, String>)
    ensures
        match resolved_region(
            object.region,
            object.coordinate_mode,
            object.anchor_x,
            object.anchor_y,
            base_width,
            base_height,
            width,
            height,
        ) {
            Err(m) => res matches Err(t) && t@ == m,
            Ok(r) => exists|gs: Seq<FeatureGroup>|
                groups_mapped(
                    gs,
                    object.groups@,
                    point_map(object.region, object.coordinate_mode, base_width, base_height, width, height),
                ) && match_outcome(res, frame@, width, height, r, gs, object.search_radius, object.scale_search_percent),
        },
{
    let (region, groups) = match resolve_object(
        &object.region,
        &object.groups,
        object.coordinate_mode,
        object.anchor_x,
        object.anchor_y,
        base_width,
        base_height,
        width,
        height,
    ) {
        Ok(resolved) => resolved,
        Err(e) => {
            return Err(e);
        },
    };
    let ghost f = point_map(object.region, object.coordinate_mode, base_width, base_height, width, height);
    match validate_match_input(frame, width, height, &region, groups.as_slice()) {
        Ok(()) => {},
        Err(e) => {
            let res: Result<MatchReport, String> = Err(e);
            assert(match_outcome(res, frame@, width, height, region, groups@, object.search_radius, object.scale_search_percent));
            return res;
        },
    }
    let res = evaluate_groups_search(
        frame,
        width,
        height,
        &region,
        groups.as_slice(),
        object.search_radius,
        object.scale_search_percent,
    );
    assert(match_outcome(res, frame@, width, height, region, groups@, object.search_radius, object.scale_search_percent));
    res
}

// ---------------------------------------------------------------- replay samples

/// Where a replay sample's image comes from.
#[derive(Debug)]
pub enum ReplaySource {
    /// Decoded pixels, width and height of an embedded sample.
    Embedded(Vec<u8>, u32, u32),
    /// A managed file, by its path relative to the project's folder.
    External(String),
}

/// Decides where a replay sample's image comes from: an embedded data URL is decoded at once; an
/// external file must be named by a safe relative path (split by the platform's rules).
pub fn replay_source(storage: &str, png_data_url: &str, relative_path: &String) -> (res: Result<
    ReplaySource,
    String,
>)
    ensures
        storage_spec(storage@) is None ==> (res matches Err(t) && t@ == "unsupported sample storage "@
            + storage@),
        res matches Ok(ReplaySource::External(p)) ==> p@ == relative_path@ && storage_spec(storage@) == Some(
            SampleStorage::External,
        ),
        res matches Ok(ReplaySource::Embedded(_, _, _)) ==> storage_spec(storage@) == Some(SampleStorage::Embedded),
        storage_spec(storage@) == Some(SampleStorage::Embedded) ==> ({
            let url = png_data_url.spec_bytes();
            let decoded = crate::codec::base64_decoded(url.skip(22));
            &&& !crate::codec::starts_with(url, crate::codec::data_url_prefix()) ==> (res matches Err(t) && t@
                == "embedded sample is not a PNG data URL"@)
            &&& crate::codec::starts_with(url, crate::codec::data_url_prefix()) && decoded is None ==> (res matches Err(
                t,
            ) && crate::codec::begins_with(t@, "invalid embedded PNG base64: "@))
            &&& crate::codec::starts_with(url, crate::codec::data_url_prefix()) && decoded is Some ==> (res is Ok
                <==> decoded->0.len() <= crate::codec::max_encoded_bytes() && crate::codec::png_decoded(decoded->0) is Some
                && crate::codec::png_area_of(crate::codec::png_decoded(decoded->0)) <= crate::codec::max_pixels())
            &&& res matches Ok(ReplaySource::Embedded(p, w, h)) ==> crate::codec::decoded_image(decoded->0, (p, w, h))
        }),
        storage_spec(storage@) == Some(SampleStorage::External) && res is Err ==> (res matches Err(t) && t@
            == "unsafe external sample path"@),
        storage_spec(storage@) == Some(SampleStorage::External) && climbs_out(relative_path@) ==> (res matches Err(
            t,
        ) && t@ == "unsafe external sample path"@),
        storage_spec(storage@) == Some(SampleStorage::External) && plain_path(relative_path@) ==> (res matches Ok(
            ReplaySource::External(p),
        ) && p@ == relative_path@),
{
    let given = String::from_str(storage);
    if given == String::from_str("embedded") {
        return match load_embedded_png(png_data_url) {
            Ok((pixels, width, height)) => Ok(ReplaySource::Embedded(pixels, width, height)),
            Err(e) => Err(e),
        };
    }
    if given != String::from_str("external") {
        let mut s = String::from_str("unsupported sample storage ");
        s.append(storage);
        return Err(s);
    }
    if !sample_path_is_safe(relative_path.as_str()) {
        return Err(String::from_str("unsafe external sample path"));
    }
    Ok(ReplaySource::External(relative_path.clone()))
}

/// Decodes an external replay sample read from `target`, after checking its recorded
/// fingerprint (ignoring letter case) when there is one.
pub fn load_external_replay(bytes: &[u8], sha256: &str, target: &str) -> (res: Result<(Vec<u8>, u32, u32), String>)
    ensures
        sha256@.len() > 0 && !eq_ignore_ascii_case_spec(hex_lower_spec(sha256_digest(bytes@)), sha256@) ==> (res
            matches Err(t) && t@ == "external sample hash mismatch: "@ + target@),
        sha256@.len() == 0 || eq_ignore_ascii_case_spec(hex_lower_spec(sha256_digest(bytes@)), sha256@) ==> (
        res is Ok <==> crate::codec::png_decoded(bytes@) is Some && bytes@.len() <= crate::codec::max_encoded_bytes()
            && crate::codec::png_area_of(crate::codec::png_decoded(bytes@)) <= crate::codec::max_pixels()),
        res matches Ok(img) ==> crate::codec::decoded_image(bytes@, img),
{
    if !sha256.is_empty() {
        let actual = sha256_hex(bytes);
        if !eq_ignore_ascii_case(actual.as_str(), sha256) {
            let mut s = String::from_str("external sample hash mismatch: ");
            s.append(target);
            return Err(s);
        }
    }
    load_png_bytes(bytes)
}

/// The runner's exit status for a replay: 0 when every expectation held, else 2.
pub fn replay_exit_code(failures: usize) -> (code: i32)
    ensures
        code == (if failures == 0 { 0i32 } else { 2i32 }),
{
    if failures == 0 {
        0
    } else {
        2
    }
}

/// The running count of a replay test: how many expectations were checked and how many failed.
pub struct ReplayTally {
    pub assertions: usize,
    pub failures: usize,
}

impl ReplayTally {
    /// A tally before any expectation is checked.
    pub fn new() -> (t: ReplayTally)
        ensures
            t.assertions == 0,
            t.failures == 0,
    {
        ReplayTally { assertions: 0, failures: 0 }
    }

    /// Checks one expectation against the ids of the groups that hit, counts it, and counts it
    /// as a failure when it does not hold; returns whether it held.
    pub fn record(&mut self, actual: &Vec<String>, expected: &Option<String>) -> (passed: bool)
        requires
            old(self).failures <= old(self).assertions < usize::MAX,
        ensures
            passed == expectation_holds(
                actual@.map_values(|s: String| s@),
                match expected {
                    Some(e) => Some(e@),
                    None => None,
                },
            ),
            final(self).assertions == old(self).assertions + 1,
            final(self).failures == old(self).failures + if passed { 0int } else { 1int },
            final(self).failures <= final(self).assertions,
    {
        let passed = expectation_passed(actual, expected);
        self.assertions = self.assertions + 1;
        if !passed {
            self.failures = self.failures + 1;
        }
        passed
    }

    /// Whether every checked expectation held.
    pub fn all_passed(&self) -> (b: bool)
        ensures
            b == (self.failures == 0),
    {
        self.failures == 0
    }

    /// The exit status of the replay test: 0 when every expectation held, 2 otherwise.
    pub fn exit_code(&self) -> (code: i32)
        ensures
            code == (if self.failures == 0 { 0i32 } else { 2i32 }),
    {
        replay_exit_code(self.failures)
    }
}

} // verus!
