use imagesitter::calibrate::suggest_tolerances;
use imagesitter::features::suggest_feature_points;
use imagesitter::model::{AlphaMode, Region};

#[test]
fn centers_and_expands_tolerance() {
    let samples = vec![
        vec![[100, 100, 100, 255], [0, 0, 0, 255]],
        vec![[120, 80, 100, 255], [10, 10, 10, 255]],
    ];
    let suggestions = suggest_tolerances(&samples, &[], 2, 5).unwrap();
    let first = &suggestions[0];
    assert_eq!(first.reference[0], 110);
    assert_eq!(first.tolerance[0], 10 + 5);
    assert!(first.alpha_stable);
    assert_eq!(first.suggested_alpha_mode, AlphaMode::Ignore);
    assert_eq!(first.min_observed[1], 80);
    assert_eq!(first.max_observed[1], 100);
}

#[test]
fn recommends_stable_transparency_and_reports_negative_collisions() {
    let positives = vec![vec![[100, 100, 100, 125]], vec![[104, 98, 102, 129]]];
    let negatives = vec![vec![[102, 100, 101, 127]], vec![[220, 20, 20, 255]]];
    let suggestion = &suggest_tolerances(&positives, &negatives, 1, 4).unwrap()[0];
    assert_eq!(suggestion.suggested_alpha_mode, AlphaMode::Match);
    assert_eq!(suggestion.negative_matches, 1);
    assert!(!suggestion.recommend_keep);
    assert!(suggestion.quality_score < 60);
}

#[test]
fn feature_discovery_prefers_stable_positive_negative_difference() {
    let mut positive_a = vec![0u8; 5 * 5 * 4];
    let mut positive_b = vec![0u8; 5 * 5 * 4];
    let negative = vec![0u8; 5 * 5 * 4];
    let center = (2 * 5 + 2) * 4;
    positive_a[center..center + 4].copy_from_slice(&[220, 40, 20, 255]);
    positive_b[center..center + 4].copy_from_slice(&[218, 42, 22, 255]);
    let positives = vec![(positive_a.as_slice(), 5, 5), (positive_b.as_slice(), 5, 5)];
    let negatives = vec![(negative.as_slice(), 5, 5)];
    let candidates = suggest_feature_points(
        &positives,
        &negatives,
        Region { x: 0, y: 0, w: 5, h: 5 },
        8,
        1,
    )
    .unwrap();
    assert!(candidates.iter().any(|candidate| candidate.dx == 2 && candidate.dy == 2));
    assert!(candidates
        .iter()
        .all(|candidate| candidate.negative_distance > candidate.positive_range));
}

#[test]
fn calibration_rejects_empty_and_ragged_samples() {
    let empty: Vec<Vec<[u8; 4]>> = Vec::new();
    assert_eq!(suggest_tolerances(&empty, &[], 1, 0).unwrap_err(), "至少需要一张校准样本");
    let one = vec![vec![[1, 2, 3, 4]]];
    assert_eq!(suggest_tolerances(&one, &[], 0, 0).unwrap_err(), "当前组没有配置采样点");
    let ragged = vec![vec![[1, 2, 3, 4]], vec![]];
    assert!(suggest_tolerances(&ragged, &[], 1, 0).is_err());
}

#[test]
fn suggestion_accepts_each_positive_sample() {
    // Law: the suggested reference and tolerance accept every positive sample.
    let samples = vec![vec![[10, 200, 30, 255]], vec![[20, 190, 36, 255]], vec![[15, 195, 33, 255]]];
    let s = &suggest_tolerances(&samples, &[], 1, 0).unwrap()[0];
    for sample in &samples {
        let px = sample[0];
        for c in 0..3 {
            assert!(s.reference[c].abs_diff(px[c]) <= s.tolerance[c]);
        }
    }
    assert_eq!(s.reference, [15, 195, 33, 255]);
    assert_eq!(s.tolerance, [5, 5, 3]);
}

#[test]
fn kept_suggestion_rejects_every_negative() {
    // Law: a point recommended for keeping matches no negative sample.
    let positives = vec![vec![[100, 100, 100, 255]], vec![[102, 100, 100, 255]]];
    let negatives = vec![vec![[10, 10, 10, 255]], vec![[200, 200, 200, 255]]];
    let s = &suggest_tolerances(&positives, &negatives, 1, 2).unwrap()[0];
    assert!(s.recommend_keep);
    assert_eq!(s.negative_matches, 0);
    for n in &negatives {
        let px = n[0];
        let hit = (0..3).all(|c| s.reference[c].abs_diff(px[c]) <= s.tolerance[c]);
        assert!(!hit);
    }
}

#[test]
fn feature_discovery_needs_two_positives_and_a_negative() {
    let frame = vec![0u8; 4];
    let one = vec![(frame.as_slice(), 1, 1)];
    let none: Vec<(&[u8], u32, u32)> = Vec::new();
    let region = Region { x: 0, y: 0, w: 1, h: 1 };
    assert_eq!(
        suggest_feature_points(&one, &one, region, 4, 1).unwrap_err(),
        "多样本智能选点至少需要 2 张正样本"
    );
    let two = vec![(frame.as_slice(), 1, 1), (frame.as_slice(), 1, 1)];
    assert_eq!(
        suggest_feature_points(&two, &none, region, 4, 1).unwrap_err(),
        "多样本智能选点至少需要 1 张负样本"
    );
}

#[test]
fn discovered_points_keep_their_distance() {
    let mut positive = vec![0u8; 5 * 5 * 4];
    for (x, colour) in [(2usize, [200u8, 30, 30, 255]), (3usize, [30u8, 200, 30, 255])] {
        let at = (2 * 5 + x) * 4;
        positive[at..at + 4].copy_from_slice(&colour);
    }
    let negative = vec![0u8; 5 * 5 * 4];
    let positives = vec![(positive.as_slice(), 5, 5), (positive.as_slice(), 5, 5)];
    let negatives = vec![(negative.as_slice(), 5, 5)];
    let region = Region { x: 0, y: 0, w: 5, h: 5 };
    let both = suggest_feature_points(&positives, &negatives, region, 8, 1).unwrap();
    assert_eq!(both.len(), 2);
    let spread = suggest_feature_points(&positives, &negatives, region, 8, 2).unwrap();
    assert_eq!(spread.len(), 1);
    let capped = suggest_feature_points(&positives, &negatives, region, 1, 1).unwrap();
    assert_eq!(capped.len(), 1);
    for c in both.iter().chain(spread.iter()) {
        assert!(c.quality_score >= 45);
        assert!(c.negative_distance > c.positive_range.saturating_add(4));
    }
}

#[test]
fn tolerance_suggestions_ignore_sample_order() {
    // Law: reordering the positive or the negative samples changes no suggestion.
    let samples = vec![
        vec![[100, 100, 100, 120], [0, 0, 0, 255]],
        vec![[120, 80, 100, 130], [10, 10, 10, 255]],
        vec![[110, 95, 90, 126], [4, 6, 2, 255]],
    ];
    let negatives = vec![vec![[112, 90, 96, 124], [200, 0, 0, 255]], vec![[0, 0, 0, 255], [5, 5, 5, 255]]];
    let mut samples2 = samples.clone();
    samples2.reverse();
    let mut negatives2 = negatives.clone();
    negatives2.reverse();
    let a = suggest_tolerances(&samples, &negatives, 2, 3).unwrap();
    let b = suggest_tolerances(&samples2, &negatives2, 2, 3).unwrap();
    assert_eq!(format!("{:?}", a), format!("{:?}", b));
    assert_eq!(a[0].negative_matches, 1);
    assert_eq!(a[1].negative_matches, 1);
}

#[test]
fn feature_discovery_ignores_frame_order() {
    // Law: reordering the positive frames after the first, or the negative frames, changes
    // neither the discovered points nor the input errors.
    let mut first = vec![0u8; 5 * 5 * 4];
    let mut second = vec![0u8; 5 * 5 * 4];
    let mut third = vec![0u8; 5 * 5 * 4];
    let dark = vec![0u8; 5 * 5 * 4];
    let mut grey = vec![0u8; 5 * 5 * 4];
    for (frame, colour) in [(&mut first, [220u8, 40, 20, 255]), (&mut second, [218, 42, 22, 255]), (&mut third, [223, 37, 19, 255])] {
        for at in [(2 * 5 + 2) * 4, (1 * 5 + 3) * 4] {
            frame[at..at + 4].copy_from_slice(&colour);
        }
    }
    for px in grey.chunks_mut(4) {
        px.copy_from_slice(&[60, 60, 60, 255]);
    }
    let region = Region { x: 0, y: 0, w: 5, h: 5 };
    let positives = vec![(first.as_slice(), 5, 5), (second.as_slice(), 5, 5), (third.as_slice(), 5, 5)];
    let negatives = vec![(dark.as_slice(), 5, 5), (grey.as_slice(), 5, 5)];
    let positives2 = vec![(first.as_slice(), 5, 5), (third.as_slice(), 5, 5), (second.as_slice(), 5, 5)];
    let negatives2 = vec![(grey.as_slice(), 5, 5), (dark.as_slice(), 5, 5)];
    let a = suggest_feature_points(&positives, &negatives, region, 8, 1).unwrap();
    let b = suggest_feature_points(&positives2, &negatives2, region, 8, 1).unwrap();
    assert!(!a.is_empty());
    assert_eq!(format!("{:?}", a), format!("{:?}", b));
    let outside = Region { x: 3, y: 0, w: 5, h: 5 };
    assert_eq!(
        suggest_feature_points(&positives, &negatives, outside, 8, 1).unwrap_err(),
        suggest_feature_points(&positives2, &negatives2, outside, 8, 1).unwrap_err()
    );
}
