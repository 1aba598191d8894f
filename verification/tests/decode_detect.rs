//! The detection decoder: shape validation, filtering, and selection.

use ultraface::{detect, filter_by_confidence, DecodeError, Detection, Rect, Tensor, UltrafaceVariant};

fn tensor(dims: Vec<usize>, data: Vec<i64>) -> Tensor {
    Tensor { dims, data }
}

fn two_candidate_tensors() -> (Tensor, Tensor) {
    // Confidence tensor [[0.2, 0.8], [0.1, 0.9]] and box tensor
    // [[0, 0, 0.5, 0.5], [0.4, 0.4, 1.0, 1.0]], in fixed-point units.
    let confidences = tensor(vec![1, 2, 2], vec![200_000, 800_000, 100_000, 900_000]);
    let boxes = tensor(
        vec![1, 2, 4],
        vec![0, 0, 500_000, 500_000, 400_000, 400_000, 1_000_000, 1_000_000],
    );
    (confidences, boxes)
}

#[test]
fn detect_keeps_both_weakly_overlapping_candidates() {
    // Both candidates pass the 0.5 confidence filter (0.8 and 0.9); their
    // IoU is 0.01 / (0.25 + 0.36 - 0.01), far below the 0.3 threshold, so
    // both survive, most confident first.
    let (confidences, boxes) = two_candidate_tensors();
    let selected = detect(&confidences, &boxes, 500_000, 300_000).unwrap();
    let expected_first = Detection {
        rect: Rect::new(400_000, 400_000, 600_000, 600_000),
        confidence: 900_000,
    };
    let expected_second = Detection {
        rect: Rect::new(0, 0, 500_000, 500_000),
        confidence: 800_000,
    };
    assert_eq!(selected, vec![expected_first, expected_second]);
}

#[test]
fn detect_filters_by_strict_confidence_threshold() {
    let (confidences, boxes) = two_candidate_tensors();
    // At a threshold equal to the larger score nothing is kept: the filter
    // requires strictly greater confidence.
    let selected = detect(&confidences, &boxes, 900_000, 300_000).unwrap();
    assert!(selected.is_empty());
    // One fixed-point unit below, the 0.9 candidate is kept.
    let selected = detect(&confidences, &boxes, 899_999, 300_000).unwrap();
    assert_eq!(selected.len(), 1);
    assert_eq!(selected[0].confidence, 900_000);
}

#[test]
fn filter_excludes_exact_threshold_and_keeps_one_above() {
    let at_threshold = Detection { rect: Rect::new(0, 0, 100_000, 100_000), confidence: 500_000 };
    let just_above = Detection { rect: Rect::new(0, 0, 100_000, 100_000), confidence: 500_001 };
    let kept = filter_by_confidence(vec![at_threshold, just_above], 500_000);
    assert_eq!(kept, vec![just_above]);
}

#[test]
fn detect_rejects_tensors_of_wrong_rank() {
    let confidences = tensor(vec![2, 2], vec![200_000, 800_000, 100_000, 900_000]);
    let (_, boxes) = two_candidate_tensors();
    assert_eq!(detect(&confidences, &boxes, 500_000, 300_000), Err(DecodeError::Shape));
}

#[test]
fn detect_rejects_mismatched_candidate_counts() {
    let confidences = tensor(vec![1, 3, 2], vec![0, 0, 0, 0, 0, 0]);
    let (_, boxes) = two_candidate_tensors();
    assert_eq!(detect(&confidences, &boxes, 500_000, 300_000), Err(DecodeError::Shape));
}

#[test]
fn detect_rejects_wrong_inner_dimensions() {
    let confidences = tensor(vec![1, 2, 3], vec![0, 0, 0, 0, 0, 0]);
    let (_, boxes) = two_candidate_tensors();
    assert_eq!(detect(&confidences, &boxes, 500_000, 300_000), Err(DecodeError::Shape));
    let (good_conf, _) = two_candidate_tensors();
    let bad_boxes = tensor(vec![2, 2, 4], vec![0; 16]);
    assert_eq!(detect(&good_conf, &bad_boxes, 500_000, 300_000), Err(DecodeError::Shape));
}

#[test]
fn detect_rejects_data_not_matching_the_declared_shape() {
    let confidences = tensor(vec![1, 2, 2], vec![200_000, 800_000, 100_000]);
    let (_, boxes) = two_candidate_tensors();
    assert_eq!(detect(&confidences, &boxes, 500_000, 300_000), Err(DecodeError::Shape));
}

#[test]
fn detect_accepts_an_empty_frame() {
    let confidences = tensor(vec![1, 0, 2], Vec::new());
    let boxes = tensor(vec![1, 0, 4], Vec::new());
    let selected = detect(&confidences, &boxes, 500_000, 300_000).unwrap();
    assert!(selected.is_empty());
}

#[test]
fn detect_normalizes_swapped_corner_points() {
    // The corner points arrive bottom-right first: the decoded box is
    // normalized all the same.
    let confidences = tensor(vec![1, 1, 2], vec![100_000, 800_000]);
    let boxes = tensor(vec![1, 1, 4], vec![600_000, 700_000, 200_000, 300_000]);
    let selected = detect(&confidences, &boxes, 500_000, 300_000).unwrap();
    assert_eq!(selected, vec![Detection {
        rect: Rect::new(200_000, 300_000, 400_000, 400_000),
        confidence: 800_000,
    }]);
}

#[test]
fn variant_reports_its_frame_size_and_model_path() {
    assert_eq!(UltrafaceVariant::W640H480.width_height(), (640, 480));
    assert_eq!(UltrafaceVariant::W320H240.width_height(), (320, 240));
    assert_eq!(UltrafaceVariant::W320H240Quantized.width_height(), (320, 240));
    assert_eq!(UltrafaceVariant::W640H480.path(), "./assets/ultraface-RFB-640.onnx");
    assert_eq!(UltrafaceVariant::W320H240.path(), "./assets/ultraface-RFB-320.onnx");
    assert_eq!(UltrafaceVariant::W320H240Quantized.path(), "ultraface-RFB-320-quant.onnx");
}
