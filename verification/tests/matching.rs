use imagesitter::commands::run_match_png_advanced;
use imagesitter::engine::{channel_delta, describe_excess, evaluate_groups, within_tolerance};
use imagesitter::model::{AlphaMode, FeatureGroup, FeaturePoint, Region};
use imagesitter::search::{evaluate_groups_search, search_offsets, search_scales};
use imagesitter::validate::validate_match_input;

use base64::Engine as _;

fn point(dx: u32, dy: u32, reference: [u8; 4], tolerance: [u8; 3]) -> FeaturePoint {
    FeaturePoint {
        dx,
        dy,
        reference,
        tolerance,
        alpha_mode: AlphaMode::Ignore,
        alpha_tolerance: 40,
        must_not: false,
    }
}

fn group(id: &str, points: Vec<FeaturePoint>) -> FeatureGroup {
    FeatureGroup { id: id.into(), name: id.into(), enabled: true, points, min_match: -1 }
}

fn png_url(width: u32, height: u32, rgba: Vec<u8>) -> String {
    let image = image::RgbaImage::from_raw(width, height, rgba).unwrap();
    let mut png = std::io::Cursor::new(Vec::new());
    image::DynamicImage::ImageRgba8(image).write_to(&mut png, image::ImageFormat::Png).unwrap();
    format!(
        "data:image/png;base64,{}",
        base64::engine::general_purpose::STANDARD.encode(png.into_inner())
    )
}

#[test]
fn matches_within_tolerance_and_rejects_outside() {
    let frame = vec![100, 50, 25, 255, 10, 10, 10, 255];
    let region = Region { x: 0, y: 0, w: 2, h: 1 };
    let group = FeatureGroup {
        id: "g1".into(),
        name: "形态一".into(),
        enabled: true,
        points: vec![point(0, 0, [105, 45, 30, 255], [8, 8, 8])],
        min_match: -1,
    };
    let report = evaluate_groups(&frame, 2, 1, &region, std::slice::from_ref(&group));
    assert!(report.matched);

    let far = FeatureGroup { points: vec![point(1, 0, [200, 200, 200, 255], [5, 5, 5])], ..group };
    let report = evaluate_groups(&frame, 2, 1, &region, &[far]);
    assert!(!report.matched);
}

#[test]
fn exclusion_point_blocks_match() {
    let frame = vec![100, 50, 25, 255];
    let region = Region { x: 0, y: 0, w: 1, h: 1 };
    let mut good = point(0, 0, [100, 50, 25, 255], [0, 0, 0]);
    good.must_not = true;
    let group = FeatureGroup {
        id: "g1".into(),
        name: "排除".into(),
        enabled: true,
        points: vec![point(0, 0, [100, 50, 25, 255], [255, 255, 255]), good],
        min_match: -1,
    };
    let report = evaluate_groups(&frame, 1, 1, &region, &[group]);
    assert!(!report.matched);
}

#[test]
fn alpha_ignored_by_default() {
    let frame = vec![100, 50, 25, 80];
    let region = Region { x: 0, y: 0, w: 1, h: 1 };
    let group = FeatureGroup {
        id: "g1".into(),
        name: "蒙版".into(),
        enabled: true,
        points: vec![point(0, 0, [100, 50, 25, 255], [0, 0, 0])],
        min_match: -1,
    };
    let report = evaluate_groups(&frame, 1, 1, &region, &[group]);
    assert!(report.matched);
}

#[test]
fn rejects_points_outside_region_including_exclusions() {
    let frame = vec![100, 50, 25, 255];
    let region = Region { x: 0, y: 0, w: 1, h: 1 };
    let mut outside = point(1, 0, [100, 50, 25, 255], [0, 0, 0]);
    outside.must_not = true;
    let group = FeatureGroup {
        id: "g1".into(),
        name: "越界".into(),
        enabled: true,
        points: vec![outside],
        min_match: -1,
    };
    assert!(validate_match_input(&frame, 1, 1, &region, &[group]).is_err());
}

#[test]
fn disabled_state_is_not_evaluated() {
    let frame = vec![100, 50, 25, 255];
    let region = Region { x: 0, y: 0, w: 1, h: 1 };
    let group = FeatureGroup {
        id: "disabled".into(),
        name: "停用状态".into(),
        enabled: false,
        points: vec![point(0, 0, [100, 50, 25, 255], [0, 0, 0])],
        min_match: -1,
    };
    let report = evaluate_groups(&frame, 1, 1, &region, &[group]);
    assert!(!report.matched);
    assert!(report.groups.is_empty());
}

#[test]
fn nearby_search_finds_shifted_object_and_reports_offset() {
    let mut frame = vec![0u8; 5 * 4];
    frame[3 * 4..3 * 4 + 4].copy_from_slice(&[200, 100, 50, 255]);
    let region = Region { x: 1, y: 0, w: 1, h: 1 };
    let group = FeatureGroup {
        id: "shifted".into(),
        name: "shifted".into(),
        enabled: true,
        points: vec![point(0, 0, [200, 100, 50, 255], [0, 0, 0])],
        min_match: -1,
    };
    let report = evaluate_groups_search(&frame, 5, 1, &region, &[group], 2, 0).unwrap();
    assert!(report.matched);
    assert_eq!(report.offset_x, 2);
    assert_eq!(report.offset_y, 0);
    assert_eq!(report.matched_scale_percent, 100);
}

#[test]
fn matches_an_embedded_png_without_a_live_target() {
    let data_url = png_url(1, 1, vec![10, 20, 30, 255]);
    let group = FeatureGroup {
        id: "normal".into(),
        name: "普通".into(),
        enabled: true,
        points: vec![FeaturePoint {
            dx: 0,
            dy: 0,
            reference: [10, 20, 30, 255],
            tolerance: [0, 0, 0],
            alpha_mode: AlphaMode::Ignore,
            alpha_tolerance: 0,
            must_not: false,
        }],
        min_match: -1,
    };
    let report =
        run_match_png_advanced(data_url, Region { x: 0, y: 0, w: 1, h: 1 }, vec![group], 0, 0).unwrap();
    assert!(report.matched);
    assert_eq!(report.groups[0].points[0].similarity, 100);
}

#[test]
fn report_details_colour_differences() {
    let frame = vec![100, 50, 25, 255];
    let region = Region { x: 0, y: 0, w: 1, h: 1 };
    let report = evaluate_groups(&frame, 1, 1, &region, &[group("g", vec![point(0, 0, [110, 50, 20, 255], [2, 0, 5])])]);
    let p = &report.groups[0].points[0];
    assert!(!p.ok);
    assert_eq!(p.actual, [100, 50, 25, 255]);
    assert_eq!(p.delta, [10, 0, 5, 0]);
    assert_eq!(p.max_excess, 8);
    assert_eq!(p.reason, "R 超差 +8");
    assert_eq!(report.groups[0].passed_count, 0);
    assert_eq!(report.groups[0].required, 1);
}

#[test]
fn channel_delta_and_tolerance_follow_alpha_mode() {
    assert_eq!(channel_delta([10, 20, 30, 40], [15, 10, 30, 0], AlphaMode::Ignore), [5, 10, 0, 0]);
    assert_eq!(channel_delta([10, 20, 30, 40], [15, 10, 30, 0], AlphaMode::Match), [5, 10, 0, 40]);
    let mut p = point(0, 0, [0, 0, 0, 0], [5, 10, 0]);
    assert!(within_tolerance(&p, &[5, 10, 0, 200]));
    p.alpha_mode = AlphaMode::Match;
    p.alpha_tolerance = 10;
    assert!(!within_tolerance(&p, &[5, 10, 0, 11]));
    assert_eq!(describe_excess(&p, &[6, 12, 1, 11]), "R 超差 +1，G 超差 +2，B 超差 +1，A 超差 +1");
}

#[test]
fn min_match_lets_some_points_fail() {
    let frame = vec![100, 50, 25, 255, 0, 0, 0, 255];
    let region = Region { x: 0, y: 0, w: 2, h: 1 };
    let mut g = group(
        "partial",
        vec![point(0, 0, [100, 50, 25, 255], [0, 0, 0]), point(1, 0, [9, 9, 9, 255], [0, 0, 0])],
    );
    g.min_match = 1;
    let report = evaluate_groups(&frame, 2, 1, &region, &[g]);
    assert!(report.matched);
    assert_eq!(report.groups[0].passed_count, 1);
    assert_eq!(report.groups[0].required, 1);
}

#[test]
fn validation_reports_each_problem() {
    let frame = vec![0u8; 4];
    let one = Region { x: 0, y: 0, w: 1, h: 1 };
    let ok_group = group("g", vec![point(0, 0, [0, 0, 0, 0], [0, 0, 0])]);
    assert_eq!(
        validate_match_input(&frame, 2, 1, &one, &[ok_group.clone()]).unwrap_err(),
        "帧缓冲长度 4 与尺寸 2x1 RGBA 不一致"
    );
    assert_eq!(validate_match_input(&[], u32::MAX, u32::MAX, &one, &[]).unwrap_err(), "帧尺寸计算溢出");
    assert_eq!(
        validate_match_input(&frame, 1, 1, &Region { x: 0, y: 0, w: 0, h: 1 }, &[]).unwrap_err(),
        "对象区域宽高必须大于 0"
    );
    assert_eq!(
        validate_match_input(&frame, 1, 1, &Region { x: u32::MAX, y: 0, w: 1, h: 1 }, &[]).unwrap_err(),
        "对象区域横坐标溢出"
    );
    assert_eq!(
        validate_match_input(&frame, 1, 1, &Region { x: 0, y: u32::MAX, w: 1, h: 1 }, &[]).unwrap_err(),
        "对象区域纵坐标溢出"
    );
    assert_eq!(
        validate_match_input(&frame, 1, 1, &Region { x: 0, y: 0, w: 2, h: 1 }, &[]).unwrap_err(),
        "对象区域 (0, 0, 2, 1) 超出帧尺寸 1x1"
    );
    let mut zero = ok_group.clone();
    zero.min_match = 0;
    assert_eq!(validate_match_input(&frame, 1, 1, &one, &[zero]).unwrap_err(), "特征组 1 的 minMatch 不能为 0");
    let mut big = ok_group.clone();
    big.min_match = 2;
    assert_eq!(
        validate_match_input(&frame, 1, 1, &one, &[ok_group.clone(), big]).unwrap_err(),
        "特征组 2 的 minMatch=2 超过常规点数量 1"
    );
    let outside = group("o", vec![point(0, 0, [0; 4], [0; 3]), point(3, 4, [0; 4], [0; 3])]);
    assert_eq!(
        validate_match_input(&frame, 1, 1, &one, &[outside]).unwrap_err(),
        "特征组 1 的点 2 坐标 (3, 4) 超出对象区域 1x1"
    );
    assert!(validate_match_input(&frame, 1, 1, &one, &[ok_group]).is_ok());
}

#[test]
fn search_tries_scales_and_offsets_in_order() {
    assert_eq!(search_scales(0), vec![100]);
    assert_eq!(search_scales(2), vec![100, 99, 101, 98, 102]);
    assert_eq!(search_scales(12).len(), 21);
    assert_eq!(search_offsets(0), vec![(0, 0)]);
    assert_eq!(search_offsets(1), vec![(0, 0), (0, -1), (1, 0), (-1, 0), (0, 1)]);
}

#[test]
fn search_prefers_the_expected_place() {
    // Law: when the object hits where it is expected, the search reports no offset.
    let frame = vec![7, 7, 7, 255, 7, 7, 7, 255, 7, 7, 7, 255];
    let region = Region { x: 1, y: 0, w: 1, h: 1 };
    let g = group("here", vec![point(0, 0, [7, 7, 7, 255], [0, 0, 0])]);
    let report = evaluate_groups_search(&frame, 3, 1, &region, &[g], 1, 0).unwrap();
    assert!(report.matched);
    assert_eq!((report.offset_x, report.offset_y, report.matched_scale_percent), (0, 0, 100));
}

#[test]
fn search_without_valid_candidate_fails() {
    let frame = vec![0u8; 4];
    let region = Region { x: 5, y: 5, w: 1, h: 1 };
    let g = group("g", vec![point(0, 0, [0; 4], [0; 3])]);
    assert_eq!(
        evaluate_groups_search(&frame, 1, 1, &region, &[g], 0, 0).unwrap_err(),
        "搜索范围内没有有效候选区域"
    );
}

#[test]
fn embedded_match_reports_bad_input() {
    let g = group("g", vec![point(3, 0, [0; 4], [0; 3])]);
    let url = png_url(1, 1, vec![1, 2, 3, 4]);
    let err = run_match_png_advanced(url, Region { x: 0, y: 0, w: 1, h: 1 }, vec![g], 0, 0).unwrap_err();
    assert_eq!(err, "E3106: 特征组 1 的点 1 坐标 (3, 0) 超出对象区域 1x1");
    let err = run_match_png_advanced("data:image/png;base64,@@".into(), Region { x: 0, y: 0, w: 1, h: 1 }, vec![], 0, 0)
        .unwrap_err();
    assert!(err.starts_with("E3102: 回放图像 Base64 无效："));
}

#[test]
fn validated_inputs_sample_inside_the_frame() {
    // Laws: once validated, every point is sampled inside the frame, and minMatch is reachable.
    let frame: Vec<u8> = (0..3 * 2 * 4).map(|i| i as u8).collect();
    let region = Region { x: 1, y: 0, w: 2, h: 2 };
    let mut g = group(
        "inside",
        vec![point(0, 0, [0; 4], [255; 3]), point(1, 1, [0; 4], [255; 3]), point(1, 0, [0; 4], [255; 3])],
    );
    g.min_match = 3;
    assert!(validate_match_input(&frame, 3, 2, &region, std::slice::from_ref(&g)).is_ok());
    let report = evaluate_groups(&frame, 3, 2, &region, &[g]);
    assert!(report.groups[0].points.iter().all(|p| p.reason != "采样点超出捕获帧范围"));
    assert_eq!(report.groups[0].points[1].actual, [20, 21, 22, 23]);
    assert!(report.matched);
    assert_eq!(report.groups[0].required, 3);
}

#[test]
fn search_without_room_equals_plain_evaluation() {
    // Law: with no radius and no size search, a validated input is matched exactly as
    // evaluate_groups matches it, at no offset and full size.
    let frame: Vec<u8> = (0..4 * 3 * 4).map(|i| (i * 7 % 256) as u8).collect();
    let region = Region { x: 1, y: 1, w: 3, h: 2 };
    let hit = group("hit", vec![point(0, 0, [140, 147, 154, 161], [3, 3, 3]), point(2, 1, [0; 4], [255; 3])]);
    let miss = group("miss", vec![point(1, 1, [0, 0, 0, 255], [1, 1, 1])]);
    let groups = vec![hit, miss];
    assert!(validate_match_input(&frame, 4, 3, &region, &groups).is_ok());
    let plain = evaluate_groups(&frame, 4, 3, &region, &groups);
    let searched = evaluate_groups_search(&frame, 4, 3, &region, &groups, 0, 0).unwrap();
    assert!(plain.matched);
    assert_eq!(searched.matched, plain.matched);
    assert_eq!(format!("{:?}", searched.groups), format!("{:?}", plain.groups));
    assert_eq!((searched.offset_x, searched.offset_y, searched.matched_scale_percent), (0, 0, 100));
}

#[test]
fn evaluation_ignores_spare_bytes_after_the_frame() {
    let exact = vec![100, 50, 25, 255, 10, 10, 10, 255];
    let mut longer = exact.clone();
    longer.extend_from_slice(&[1, 2, 3, 4, 5]);
    let region = Region { x: 0, y: 0, w: 2, h: 1 };
    let g = group("g", vec![point(0, 0, [100, 50, 25, 255], [0, 0, 0]), point(1, 0, [9, 9, 9, 255], [0, 0, 0])]);
    let a = evaluate_groups(&exact, 2, 1, &region, std::slice::from_ref(&g));
    let b = evaluate_groups(&longer, 2, 1, &region, std::slice::from_ref(&g));
    assert!(!a.matched);
    assert_eq!(a.matched, b.matched);
    assert_eq!(format!("{:?}", a.groups), format!("{:?}", b.groups));
    assert_eq!(b.groups[0].passed_count, 1);
}

#[test]
fn group_of_exclusion_points_hits_when_all_pass() {
    let frame = vec![100, 50, 25, 255];
    let region = Region { x: 0, y: 0, w: 1, h: 1 };
    let mut away = point(0, 0, [0, 0, 0, 255], [5, 5, 5]);
    away.must_not = true;
    let only_exclusions = group("clear", vec![away]);
    let report = evaluate_groups(&frame, 1, 1, &region, std::slice::from_ref(&only_exclusions));
    assert!(report.matched);
    assert_eq!((report.groups[0].passed_count, report.groups[0].required), (0, 0));
    assert!(report.groups[0].points[0].ok);
    assert_eq!(report.groups[0].points[0].reason, "");

    let mut there = point(0, 0, [100, 50, 25, 255], [5, 5, 5]);
    there.must_not = true;
    let report = evaluate_groups(&frame, 1, 1, &region, &[group("blocked", vec![there])]);
    assert!(!report.matched);
    assert_eq!(report.groups[0].points[0].reason, "排除点意外命中参考颜色");
}

#[test]
fn exclusion_point_outside_the_frame_fails_and_blocks() {
    let frame = vec![100, 50, 25, 255];
    let region = Region { x: 0, y: 0, w: 2, h: 1 };
    let mut outside = point(1, 0, [0, 0, 0, 255], [0, 0, 0]);
    outside.must_not = true;
    let g = group("g", vec![point(0, 0, [100, 50, 25, 255], [0, 0, 0]), outside]);
    let report = evaluate_groups(&frame, 1, 1, &region, &[g]);
    let p = &report.groups[0].points[1];
    assert!(!p.ok);
    assert_eq!(p.reason, "采样点超出捕获帧范围");
    assert_eq!((p.actual, p.delta, p.similarity, p.max_excess), ([0; 4], [0; 4], 0, 255));
    assert_eq!(report.groups[0].passed_count, 1);
    assert!(!report.groups[0].matched);
    assert!(!report.matched);
}
