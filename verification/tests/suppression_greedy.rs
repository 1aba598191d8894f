//! Sorting and greedy non-maximum suppression.

use ultraface::{non_maximum_suppression, sort_by_confidence, Detection, Rect};

fn det(x: i64, y: i64, width: i64, height: i64, confidence: i64) -> Detection {
    Detection { rect: Rect::new(x, y, width, height), confidence }
}

#[test]
fn sort_is_ascending_by_confidence() {
    let dets = vec![
        det(0, 0, 100_000, 100_000, 700_000),
        det(0, 0, 200_000, 200_000, 300_000),
        det(0, 0, 300_000, 300_000, 900_000),
    ];
    let sorted = sort_by_confidence(dets);
    let confidences: Vec<i64> = sorted.iter().map(|d| d.confidence).collect();
    assert_eq!(confidences, vec![300_000, 700_000, 900_000]);
}

#[test]
fn sort_is_stable_on_equal_confidences() {
    let first = det(0, 0, 100_000, 100_000, 500_000);
    let second = det(0, 0, 200_000, 200_000, 500_000);
    let third = det(0, 0, 300_000, 300_000, 400_000);
    let sorted = sort_by_confidence(vec![first, second, third]);
    assert_eq!(sorted, vec![third, first, second]);
}

#[test]
fn strongly_overlapping_box_is_suppressed_by_the_more_confident_one() {
    // Two boxes with IoU just under 0.8 (well above the 0.5 threshold):
    // only the 0.95-confidence box survives.
    let winner = det(0, 0, 1_000_000, 900_000, 950_000);
    let loser = det(0, 100_000, 1_000_000, 900_000, 900_000);
    // Candidates arrive sorted by ascending confidence.
    let selected = non_maximum_suppression(vec![loser, winner], 500_000);
    assert_eq!(selected, vec![winner]);
}

#[test]
fn non_overlapping_boxes_are_all_accepted_most_confident_first() {
    let a = det(0, 0, 200_000, 200_000, 600_000);
    let b = det(400_000, 400_000, 200_000, 200_000, 800_000);
    let c = det(800_000, 800_000, 100_000, 100_000, 700_000);
    let selected = non_maximum_suppression(vec![a, c, b], 300_000);
    assert_eq!(selected, vec![b, c, a]);
}

#[test]
fn suppression_is_idempotent_on_its_own_output() {
    let a = det(0, 0, 500_000, 500_000, 900_000);
    let b = det(100_000, 100_000, 500_000, 500_000, 800_000);
    let c = det(600_000, 600_000, 300_000, 300_000, 700_000);
    let d = det(650_000, 650_000, 300_000, 300_000, 600_000);
    let selected = non_maximum_suppression(vec![d, c, b, a], 200_000);
    // Feed the accepted set back in the ascending order the suppressor
    // expects: nothing more is suppressed.
    let mut ascending = selected.clone();
    ascending.reverse();
    let again = non_maximum_suppression(ascending, 200_000);
    assert_eq!(again, selected);
}

#[test]
fn empty_input_yields_empty_output() {
    let selected = non_maximum_suppression(Vec::new(), 500_000);
    assert!(selected.is_empty());
}
