//! Offline matching and calibration requests on PNG samples: decode, validate,
//! then run the engine, with the error codes the front end shows.

use vstd::prelude::*;

use vstd::string::StringSliceAdditionalSpecFns;
use vstd::utf8::encode_utf8;

use crate::codec::{decode_png, png_url_image};
use crate::engine::MatchReport;
use crate::features::{
    candidate_views, discovered, feature_input_error, frame_views, suggest_feature_points, FeatureCandidate,
};
use crate::model::{group_views, FeatureGroup, Region};
use crate::search::{
    any_candidate_valid, evaluate_groups_search, msg_no_candidate, offsets_upto, radius_limit, scale_limit,
    search_picked,
};
use crate::validate::{issue_message, match_input_issue, validate_match_input};

verus! {

fn prefixed(head: &str, text: String) -> (s: String)
    ensures
        s@ == head@ + text@,
{
    let mut s = String::from_str(head);
    s.append(text.as_str());
    s
}

/// Matches feature groups against a live frame grabbed from a bound window.
pub fn run_match_advanced(
    frame: &[u8],
    width: u32,
    height: u32,
    region: Region,
    groups: Vec<FeatureGroup>,
    search_radius: u32,
    scale_search_percent: u32,
) -> (res: Result<MatchReport, String>)
    ensures
        ({
            let issue = match_input_issue(frame@.len(), width, height, region, groups@);
            let scales = 2 * scale_limit(scale_search_percent) + 1;
            let offsets = offsets_upto(radius_limit(search_radius));
            &&& issue is Some ==> (res matches Err(text) && text@ == "E3001: "@ + issue_message(issue->0))
            &&& issue is None ==> (res is Err <==> !any_candidate_valid(width, height, region, scales, offsets))
            &&& issue is None ==> (res matches Err(text) ==> text@ == "E3002: "@ + msg_no_candidate())
            &&& res matches Ok(r) ==> search_picked(r, frame@, width, height, region, group_views(groups@), scales, offsets)
        }),
{
    match validate_match_input(frame, width, height, &region, groups.as_slice()) {
        Ok(()) => {},
        Err(message) => {
            return Err(prefixed("E3001: ", message));
        },
    }
    match evaluate_groups_search(frame, width, height, &region, groups.as_slice(), search_radius, scale_search_percent) {
        Ok(report) => Ok(report),
        Err(message) => Err(prefixed("E3002: ", message)),
    }
}

/// Matches feature groups against an embedded PNG sample, without a live window.
pub fn run_match_png_advanced(
    png_data_url: String,
    region: Region,
    groups: Vec<FeatureGroup>,
    search_radius: u32,
    scale_search_percent: u32,
) -> (res: Result<MatchReport, String>)
    ensures
        png_url_image(encode_utf8(png_data_url@)) is None ==> res is Err,
        png_url_image(encode_utf8(png_data_url@)) matches Some((frame, width, height)) ==> {
            let issue = match_input_issue(frame.len(), width, height, region, groups@);
            let scales = 2 * scale_limit(scale_search_percent) + 1;
            let offsets = offsets_upto(radius_limit(search_radius));
            &&& issue is Some ==> (res matches Err(text) && text@ == "E3106: "@ + issue_message(issue->0))
            &&& issue is None ==> (res is Err <==> !any_candidate_valid(width, height, region, scales, offsets))
            &&& issue is None ==> (res matches Err(text) ==> text@ == "E3107: "@ + msg_no_candidate())
            &&& res matches Ok(r) ==> search_picked(r, frame, width, height, region, group_views(groups@), scales, offsets)
        },
{
    let url = png_data_url.as_str();
    assert(url.spec_bytes() == encode_utf8(png_data_url@));
    let (frame, width, height) = match decode_png(url) {
        Ok(img) => img,
        Err(e) => {
            return Err(e);
        },
    };
    match validate_match_input(frame.as_slice(), width, height, &region, groups.as_slice()) {
        Ok(()) => {},
        Err(message) => {
            return Err(prefixed("E3106: ", message));
        },
    }
    match evaluate_groups_search(
        frame.as_slice(),
        width,
        height,
        &region,
        groups.as_slice(),
        search_radius,
        scale_search_percent,
    ) {
        Ok(report) => Ok(report),
        Err(message) => Err(prefixed("E3107: ", message)),
    }
}


/// Whether every data URL decodes within the limits.
pub open spec fn all_decode(pngs: Seq<String>) -> bool {
    forall|k: int| 0 <= k < pngs.len() ==> (#[trigger] png_url_image(encode_utf8(pngs[k]@))) is Some
}

/// The decoded frames of data URLs.
pub open spec fn decoded_frames(pngs: Seq<String>) -> Seq<(Seq<u8>, u32, u32)> {
    pngs.map_values(|u: String| png_url_image(encode_utf8(u@))->0)
}

fn decode_all(pngs: &Vec<String>) -> (res: Result<Vec<(Vec<u8>, u32, u32)>, String>)
    ensures
        res is Ok <==> all_decode(pngs@),
        res matches Ok(frames) ==> frames@.len() == pngs@.len() && forall|k: int|
            0 <= k < frames@.len() ==> #[trigger] decoded_frames(pngs@)[k] == (frames@[k].0@, frames@[k].1, frames@[k].2)
                && frames@[k].0@.len() == frames@[k].1 * frames@[k].2 * 4,
{
    let mut frames: Vec<(Vec<u8>, u32, u32)> = Vec::new();
    let mut i: usize = 0;
    while i < pngs.len()
        invariant
            i <= pngs@.len(),
            frames@.len() == i,
            forall|k: int| 0 <= k < i ==> (#[trigger] png_url_image(encode_utf8(pngs@[k]@))) is Some,
            forall|k: int|
                0 <= k < i ==> #[trigger] decoded_frames(pngs@)[k] == (frames@[k].0@, frames@[k].1, frames@[k].2)
                    && frames@[k].0@.len() == frames@[k].1 * frames@[k].2 * 4,
        decreases pngs@.len() - i,
    {
        let url = pngs[i].as_str();
        assert(url.spec_bytes() == encode_utf8(pngs@[i as int]@));
        match decode_png(url) {
            Ok(img) => {
                frames.push(img);
            },
            Err(e) => {
                return Err(e);
            },
        }
        i = i + 1;
    }
    Ok(frames)
}

fn frame_refs(frames: &Vec<(Vec<u8>, u32, u32)>) -> (refs: Vec<(&[u8], u32, u32)>)
    ensures
        refs@.len() == frames@.len(),
        forall|k: int| 0 <= k < frames@.len() ==> #[trigger] frame_views(refs@)[k] == (frames@[k].0@, frames@[k].1, frames@[k].2),
{
    let mut refs: Vec<(&[u8], u32, u32)> = Vec::new();
    let mut i: usize = 0;
    while i < frames.len()
        invariant
            i <= frames@.len(),
            refs@.len() == i,
            forall|k: int| 0 <= k < i ==> #[trigger] frame_views(refs@)[k] == (frames@[k].0@, frames@[k].1, frames@[k].2),
        decreases frames@.len() - i,
    {
        let f = &frames[i];
        let ghost before = refs@;
        refs.push((f.0.as_slice(), f.1, f.2));
        proof {
            assert forall|k: int| 0 <= k < i + 1 implies #[trigger] frame_views(refs@)[k] == (
                frames@[k].0@,
                frames@[k].1,
                frames@[k].2,
            ) by {
                if k < i {
                    assert(refs@[k] == before[k]);
                    assert(frame_views(before)[k] == frame_views(refs@)[k]);
                }
            }
        }
        i = i + 1;
    }
    refs
}

/// Discovers feature points from positive and negative PNG samples (at most 200 of each).
pub fn suggest_feature_points_command(
    positive_pngs: Vec<String>,
    negative_pngs: Vec<String>,
    region: Region,
    limit: usize,
    minimum_distance: u32,
) -> (res: Result<Vec<FeatureCandidate>, String>)
    ensures
        positive_pngs@.len() > 200 || negative_pngs@.len() > 200 ==> (res matches Err(text) && text@
            == "E3201: 正样本或负样本数量超过 200 张上限"@),
        !all_decode(positive_pngs@) || !all_decode(negative_pngs@) ==> res is Err,
        positive_pngs@.len() <= 200 && negative_pngs@.len() <= 200 && all_decode(positive_pngs@) && all_decode(
            negative_pngs@,
        ) ==> {
            let pf = decoded_frames(positive_pngs@);
            let nf = decoded_frames(negative_pngs@);
            &&& feature_input_error(pf, nf, region) matches Some(m) ==> (res matches Err(text) && text@ == "E3202: "@
                + m)
            &&& feature_input_error(pf, nf, region) is None ==> (res matches Ok(found) && candidate_views(found@)
                == discovered(pf, nf, region, limit, minimum_distance))
        },
{
    if positive_pngs.len() > 200 || negative_pngs.len() > 200 {
        return Err(String::from_str("E3201: 正样本或负样本数量超过 200 张上限"));
    }
    let positive = decode_all(&positive_pngs)?;
    let negative = decode_all(&negative_pngs)?;
    let positive_refs = frame_refs(&positive);
    let negative_refs = frame_refs(&negative);
    proof {
        assert(frame_views(positive_refs@) =~= decoded_frames(positive_pngs@));
        assert(frame_views(negative_refs@) =~= decoded_frames(negative_pngs@));
    }
    match suggest_feature_points(positive_refs.as_slice(), negative_refs.as_slice(), region, limit, minimum_distance) {
        Ok(found) => Ok(found),
        Err(message) => Err(prefixed("E3202: ", message)),
    }
}

} // verus!
