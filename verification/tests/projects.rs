use imagesitter::replay::ReplayTally;
use imagesitter::layout::{
    anchor_shift, check_project_header, expectation_passed, matched_group_ids, resolve_object, Anchor,
    CoordinateMode, RegionWire,
};
use imagesitter::model::{AlphaMode, FeatureGroup, FeaturePoint, Region};
use imagesitter::replay::{
    check_regions, find_object, find_object_by_id, load_external_replay, match_object, missing_object,
    object_not_found, replay_exit_code, replay_source, ObjectRule, ReplaySource,
};

use base64::Engine as _;

fn state_group() -> FeatureGroup {
    FeatureGroup {
        id: "state".into(),
        name: "state".into(),
        enabled: true,
        points: vec![FeaturePoint {
            dx: 5,
            dy: 10,
            reference: [1, 2, 3, 255],
            tolerance: [0, 0, 0],
            alpha_mode: AlphaMode::Ignore,
            alpha_tolerance: 0,
            must_not: false,
        }],
        min_match: -1,
    }
}

fn ltrb(left: u32, top: u32, right: u32, bottom: u32) -> RegionWire {
    RegionWire { left: Some(left), top: Some(top), right: Some(right), bottom: Some(bottom), ..Default::default() }
}

fn object(id: &str, name: &str, region: RegionWire, mode: CoordinateMode) -> ObjectRule {
    ObjectRule {
        id: id.into(),
        name: name.into(),
        region,
        groups: vec![state_group()],
        coordinate_mode: mode,
        anchor_x: Anchor::Start,
        anchor_y: Anchor::Start,
        search_radius: 0,
        scale_search_percent: 0,
    }
}

fn png_bytes(width: u32, height: u32, rgba: Vec<u8>) -> Vec<u8> {
    let image = image::RgbaImage::from_raw(width, height, rgba).unwrap();
    let mut png = std::io::Cursor::new(Vec::new());
    image::DynamicImage::ImageRgba8(image).write_to(&mut png, image::ImageFormat::Png).unwrap();
    png.into_inner()
}

#[test]
fn scale_mode_resolves_region_and_point_coordinates() {
    let (region, groups) = resolve_object(
        &ltrb(10, 20, 30, 40),
        &vec![state_group()],
        CoordinateMode::Scale,
        Anchor::Start,
        Anchor::Start,
        100,
        100,
        200,
        150,
    )
    .unwrap();
    assert_eq!((region.x, region.y, region.w, region.h), (20, 30, 40, 30));
    assert_eq!((groups[0].points[0].dx, groups[0].points[0].dy), (10, 15));
}

#[test]
fn stored_regions_convert_or_explain() {
    assert_eq!(ltrb(10, 20, 30, 40).to_region().unwrap(), Region { x: 10, y: 20, w: 20, h: 20 });
    assert_eq!(
        ltrb(30, 20, 30, 40).to_region().unwrap_err(),
        "region right/bottom must be greater than left/top"
    );
    let xywh = RegionWire { x: Some(1), y: Some(2), w: Some(3), h: Some(4), ..Default::default() };
    assert_eq!(xywh.to_region().unwrap(), Region { x: 1, y: 2, w: 3, h: 4 });
    let missing = RegionWire { x: Some(1), y: Some(2), w: Some(3), ..Default::default() };
    assert_eq!(missing.to_region().unwrap_err(), "region.h is missing");
    let empty = RegionWire { x: Some(1), y: Some(2), w: Some(0), h: Some(4), ..Default::default() };
    assert_eq!(empty.to_region().unwrap_err(), "region width and height must be positive");
    assert_eq!(RegionWire::default().to_region().unwrap_err(), "region.x is missing");
}

#[test]
fn fixed_and_anchor_modes_follow_the_frame() {
    let groups = vec![state_group()];
    let err = resolve_object(&ltrb(0, 0, 10, 10), &groups, CoordinateMode::Fixed, Anchor::Start, Anchor::Start, 100, 100, 200, 100)
        .unwrap_err();
    assert_eq!(err, "fixed coordinates require 100x100, got 200x100");
    let (r, _) = resolve_object(&ltrb(0, 0, 10, 10), &groups, CoordinateMode::Fixed, Anchor::Start, Anchor::Start, 0, 0, 200, 100)
        .unwrap();
    assert_eq!(r, Region { x: 0, y: 0, w: 10, h: 10 });
    let (r, gs) = resolve_object(&ltrb(10, 10, 20, 20), &groups, CoordinateMode::Anchor, Anchor::End, Anchor::Center, 100, 100, 140, 121)
        .unwrap();
    assert_eq!(r, Region { x: 50, y: 20, w: 10, h: 10 });
    assert_eq!((gs[0].points[0].dx, gs[0].points[0].dy), (5, 10));
    let err = resolve_object(&ltrb(10, 10, 20, 20), &groups, CoordinateMode::Anchor, Anchor::End, Anchor::Start, 100, 100, 50, 100)
        .unwrap_err();
    assert_eq!(err, "anchored region moved outside the frame");
    assert_eq!(anchor_shift(Anchor::Center, -5), -2);
    assert_eq!(anchor_shift(Anchor::Center, -6), -3);
    assert_eq!(anchor_shift(Anchor::Center, i64::MIN), i64::MIN / 2);
    assert_eq!(anchor_shift(Anchor::Center, 7), 3);
    assert_eq!(anchor_shift(Anchor::Start, 7), 0);
    assert_eq!(anchor_shift(Anchor::End, 7), 7);
}

#[test]
fn project_header_and_expectations() {
    assert!(check_project_header(4, &vec!["a".to_string()]).is_ok());
    assert_eq!(check_project_header(5, &vec![]).unwrap_err(), "unsupported project version 5");
    assert_eq!(check_project_header(0, &vec![]).unwrap_err(), "unsupported project version 0");
    assert_eq!(check_project_header(1, &vec!["a".into(), String::new()]).unwrap_err(), "object id must not be empty");
    assert!(expectation_passed(&vec!["g".to_string()], &Some("g".to_string())));
    assert!(!expectation_passed(&vec!["g".to_string(), "h".to_string()], &Some("g".to_string())));
    assert!(expectation_passed(&vec![], &None));
    assert!(!expectation_passed(&vec!["g".to_string()], &None));
}

#[test]
fn objects_are_found_by_id_or_name() {
    let objects = vec![
        object("a", "first", ltrb(0, 0, 1, 1), CoordinateMode::Fixed),
        object("b", "second", ltrb(0, 0, 1, 1), CoordinateMode::Fixed),
    ];
    assert_eq!(find_object(&objects, "second"), Some(1));
    assert_eq!(find_object(&objects, "a"), Some(0));
    assert_eq!(find_object(&objects, "c"), None);
    assert_eq!(find_object_by_id(&objects, "second"), None);
    assert_eq!(find_object_by_id(&objects, "b"), Some(1));
    assert_eq!(object_not_found("c"), "object not found: c");
    assert_eq!(missing_object("s1", "x"), "sample s1 references missing object x");
    assert!(check_regions(&objects).is_ok());
    let bad = vec![object("z", "z", ltrb(5, 0, 1, 1), CoordinateMode::Fixed)];
    assert_eq!(check_regions(&bad).unwrap_err(), "region right/bottom must be greater than left/top");
}

#[test]
fn replay_matches_an_adapted_object() {
    // 20x20 frame, colour (1,2,3) at (10,20) after scaling the 10x10 baseline by 2.
    let mut frame = vec![0u8; 20 * 30 * 4];
    let at = (20 * 20 + 10) * 4;
    frame[at..at + 4].copy_from_slice(&[1, 2, 3, 255]);
    let o = object("o", "o", ltrb(0, 0, 10, 15), CoordinateMode::Scale);
    let report = match_object(&o, 10, 15, &frame, 20, 30).unwrap();
    assert!(report.matched);
    let ids = matched_group_ids(&report);
    assert_eq!(ids, vec!["state".to_string()]);
    let fixed = object("f", "f", ltrb(0, 0, 10, 15), CoordinateMode::Fixed);
    assert_eq!(match_object(&fixed, 10, 15, &frame, 20, 30).unwrap_err(), "fixed coordinates require 10x15, got 20x30");
    let outside = object("f", "f", ltrb(0, 0, 30, 15), CoordinateMode::Fixed);
    assert_eq!(
        match_object(&outside, 0, 0, &frame, 20, 30).unwrap_err(),
        "对象区域 (0, 0, 30, 15) 超出帧尺寸 20x30"
    );
}

#[test]
fn replay_samples_come_from_a_safe_place() {
    let png = png_bytes(1, 1, vec![9, 8, 7, 255]);
    let url = format!("data:image/png;base64,{}", base64::engine::general_purpose::STANDARD.encode(&png));
    match replay_source("embedded", &url, &String::new()).unwrap() {
        ReplaySource::Embedded(pixels, w, h) => assert_eq!((pixels, w, h), (vec![9, 8, 7, 255], 1, 1)),
        _ => panic!("expected pixels"),
    }
    assert_eq!(
        replay_source("embedded", "data:text/plain,x", &String::new()).unwrap_err(),
        "embedded sample is not a PNG data URL"
    );
    assert_eq!(replay_source("cloud", "", &String::new()).unwrap_err(), "unsupported sample storage cloud");
    assert_eq!(
        replay_source("external", "", &"../x.png".to_string()).unwrap_err(),
        "unsafe external sample path"
    );
    assert_eq!(
        replay_source("external", "", &"/etc/x.png".to_string()).unwrap_err(),
        "unsafe external sample path"
    );
    match replay_source("external", "", &"p.samples/a.png".to_string()).unwrap() {
        ReplaySource::External(p) => assert_eq!(p, "p.samples/a.png"),
        _ => panic!("expected a path"),
    }
    let digest = "C3ED8C3EA0C7E4FB9A5B1E09E4F6F0E9A8A1C6A1A2E6E3E2D4B0C2E8F6A1B2C3";
    assert_eq!(
        load_external_replay(&png, digest, "t/a.png").unwrap_err(),
        "external sample hash mismatch: t/a.png"
    );
    let (pixels, w, h) = load_external_replay(&png, "", "t/a.png").unwrap();
    assert_eq!((pixels, w, h), (vec![9, 8, 7, 255], 1, 1));
    let actual = imagesitter::codec::sha256_hex(&png).to_uppercase();
    assert!(load_external_replay(&png, &actual, "t/a.png").is_ok());
    assert_eq!(replay_exit_code(0), 0);
    assert_eq!(replay_exit_code(3), 2);
}

#[test]
fn replay_tally_counts_assertions_and_failures() {
    let mut tally = ReplayTally::new();
    assert!(tally.all_passed());
    assert_eq!(tally.exit_code(), 0);
    assert!(tally.record(&vec!["a".to_string()], &Some("a".to_string())));
    assert!(tally.record(&vec![], &None));
    assert!(!tally.record(&vec!["a".to_string(), "b".to_string()], &Some("a".to_string())));
    assert!(!tally.record(&vec!["a".to_string()], &None));
    assert_eq!((tally.assertions, tally.failures), (4, 2));
    assert!(!tally.all_passed());
    assert_eq!(tally.exit_code(), 2);
}
