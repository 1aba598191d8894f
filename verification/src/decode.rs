//! Decoding raw detection-network output into selected bounding boxes.
//!
//! A face-detection network emits, per frame, a confidence tensor of shape
//! `(1, K, 2)` whose second column holds the face-presence score of each of
//! the `K` candidate boxes, and a box tensor of shape `(1, K, 4)` whose rows
//! are the two relative corner points `[x0, y0, x1, y1]` of each candidate.
//! The decoder pairs them up, drops every candidate whose confidence is not
//! strictly above the minimum threshold, and hands the survivors to the
//! greedy suppressor. A malformed shape (wrong rank, wrong inner dimensions,
//! or a `K` mismatch between the tensors) is a typed error, never a silent
//! truncation.

use vstd::arithmetic::div_mod::lemma_fundamental_div_mod;
use vstd::prelude::*;

use crate::geometry::{spec_from_points, Point, Rect, SCALE};
use crate::suppression::{
    all_wf, lemma_nms_from_elems, lemma_spec_sort_elems, nms, nms_from, non_maximum_suppression,
    pairwise_below, sort_by_confidence, sorted_descending, spec_sort, Detection,
};

verus! {

/// Why a detection call failed.
#[derive(Debug, Clone, Copy, PartialEq, Eq, Structural)]
pub enum DecodeError {
    /// A raw tensor's rank or dimensions do not match the expected
    /// `(1, K, 2)` / `(1, K, 4)` contract.
    Shape,
}

/// A dense tensor of fixed-point values with a declared shape. The data is
/// stored flat in row-major order; whether it matches the declared shape is
/// part of the decoder's shape validation, not an invariant of the type.
#[derive(Debug, PartialEq, Eq)]
pub struct Tensor {
    pub dims: Vec<usize>,
    pub data: Vec<i64>,
}

impl Tensor {
    /// Every entry models a value in `[0, 1]`: confidences are scores and
    /// box entries are relative coordinates.
    pub open spec fn values_in_range(self) -> bool {
        forall|i: int| 0 <= i < self.data@.len() ==> 0 <= #[trigger] self.data@[i] <= SCALE
    }
}

/// The two tensors have the shapes `(1, K, 2)` and `(1, K, 4)` for one and
/// the same `K`, and their flat data matches those shapes.
pub open spec fn shapes_ok(confidences: Tensor, boxes: Tensor) -> bool {
    &&& confidences.dims@.len() == 3
    &&& boxes.dims@.len() == 3
    &&& confidences.dims@[0] == 1
    &&& confidences.dims@[2] == 2
    &&& boxes.dims@[0] == 1
    &&& boxes.dims@[2] == 4
    &&& boxes.dims@[1] == confidences.dims@[1]
    &&& confidences.data@.len() == 2 * confidences.dims@[1]
    &&& boxes.data@.len() == 4 * boxes.dims@[1]
}

/// Candidate `i`, decoded from the raw data: the box is the normalized
/// rectangle over the two corner points of row `i` of the box tensor, and
/// the confidence is column 1 of row `i` of the confidence tensor.
pub open spec fn candidate(conf_data: Seq<i64>, box_data: Seq<i64>, i: int) -> Detection {
    Detection {
        rect: spec_from_points(
            Point { x: box_data[4 * i], y: box_data[4 * i + 1] },
            Point { x: box_data[4 * i + 2], y: box_data[4 * i + 3] },
        ),
        confidence: conf_data[2 * i + 1],
    }
}

/// All `k` decoded candidates, in tensor order.
pub open spec fn candidates(conf_data: Seq<i64>, box_data: Seq<i64>, k: int) -> Seq<Detection> {
    Seq::new(k as nat, |i: int| candidate(conf_data, box_data, i))
}

/// The candidate's face-presence score is strictly above the threshold.
pub open spec fn confident(min_confidence: i64) -> spec_fn(Detection) -> bool {
    |d: Detection| d.confidence > min_confidence
}

/// The subsequence of candidates kept by the confidence filter.
pub open spec fn keep_confident(s: Seq<Detection>, min_confidence: i64) -> Seq<Detection> {
    s.filter(confident(min_confidence))
}

/// Filtering never invents elements: everything in the filtered sequence
/// was in the input.
pub proof fn lemma_filter_subset(s: Seq<Detection>, pred: spec_fn(Detection) -> bool)
    ensures
        forall|x: Detection| #[trigger] s.filter(pred).contains(x) ==> s.contains(x),
    decreases s.len(),
{
    reveal(Seq::filter);
    if s.len() > 0 {
        lemma_filter_subset(s.drop_last(), pred);
        assert forall|x: Detection| #[trigger] s.filter(pred).contains(x) implies s.contains(
            x,
        ) by {
            let sub = s.drop_last().filter(pred);
            if sub.contains(x) {
                assert(s.drop_last().contains(x));
                let j = choose|j: int| 0 <= j < s.drop_last().len() && s.drop_last()[j] == x;
                assert(s[j] == x);
            } else {
                let f = s.filter(pred);
                let i = choose|i: int| 0 <= i < f.len() && f[i] == x;
                if pred(s.last()) {
                    if i < sub.len() {
                        assert(sub[i] == x);
                    } else {
                        assert(x == s.last());
                        assert(s[s.len() - 1] == x);
                    }
                } else {
                    assert(sub[i] == x);
                }
            }
        }
    }
}

/// The confidence filter's boundary is strict: everything it keeps scores
/// strictly above the threshold — a candidate scoring exactly
/// `min_confidence` is excluded — and every candidate scoring strictly
/// above the threshold is kept.
pub proof fn lemma_confidence_filter_boundary(s: Seq<Detection>, min_confidence: i64)
    ensures
        forall|x: Detection|
            #[trigger] keep_confident(s, min_confidence).contains(x) ==> x.confidence
                > min_confidence,
        forall|i: int|
            0 <= i < s.len() && (#[trigger] s[i]).confidence > min_confidence ==> keep_confident(
                s,
                min_confidence,
            ).contains(s[i]),
{
    assert forall|x: Detection|
        #[trigger] keep_confident(s, min_confidence).contains(x) implies x.confidence
        > min_confidence by {
        let f = keep_confident(s, min_confidence);
        let i = choose|i: int| 0 <= i < f.len() && f[i] == x;
        s.lemma_filter_pred(confident(min_confidence), i);
    }
    assert forall|i: int|
        0 <= i < s.len() && (#[trigger] s[i]).confidence > min_confidence implies keep_confident(
        s,
        min_confidence,
    ).contains(s[i]) by {
        s.lemma_filter_contains(confident(min_confidence), i);
    }
}

/// Drop every candidate whose confidence is not strictly above the
/// threshold: a candidate scoring exactly `min_confidence` is excluded, one
/// scoring a single unit more is kept.
pub fn filter_by_confidence(bboxes_with_confidences: Vec<Detection>, min_confidence: i64) -> (kept:
    Vec<Detection>)
    ensures
        kept@ == keep_confident(bboxes_with_confidences@, min_confidence),
        forall|i: int|
            0 <= i < kept@.len() ==> (#[trigger] kept@[i]).confidence > min_confidence,
        all_wf(bboxes_with_confidences@) ==> all_wf(kept@),
{
    let mut kept: Vec<Detection> = Vec::new();
    let mut idx: usize = 0;
    proof {
        reveal(Seq::filter);
        assert(bboxes_with_confidences@.take(0).filter(confident(min_confidence))
            =~= Seq::<Detection>::empty());
    }
    while idx < bboxes_with_confidences.len()
        invariant
            idx <= bboxes_with_confidences@.len(),
            kept@ == bboxes_with_confidences@.take(idx as int).filter(confident(min_confidence)),
            forall|i: int|
                0 <= i < kept@.len() ==> (#[trigger] kept@[i]).confidence > min_confidence,
            all_wf(bboxes_with_confidences@) ==> all_wf(kept@),
        decreases bboxes_with_confidences@.len() - idx,
    {
        let d = bboxes_with_confidences[idx];
        proof {
            reveal(Seq::filter);
            let full = bboxes_with_confidences@;
            assert(full.take(idx + 1).drop_last() =~= full.take(idx as int));
            assert(full.take(idx + 1).last() == full[idx as int]);
            if all_wf(full) {
                assert(full[idx as int].wf());
            }
        }
        if d.confidence > min_confidence {
            kept.push(d);
        }
        idx = idx + 1;
    }
    proof {
        assert(bboxes_with_confidences@.take(bboxes_with_confidences@.len() as int)
            =~= bboxes_with_confidences@);
    }
    kept
}

/// Decode one frame's raw network output into the selected bounding boxes.
///
/// On well-shaped input the result is exactly: decode the `K` candidates,
/// keep those whose confidence is strictly above `min_confidence`, sort
/// them by ascending confidence (stably), and run greedy non-maximum
/// suppression with the `max_iou` threshold. Every returned pair is one of
/// the decoded candidates, kept verbatim; no two returned boxes overlap
/// beyond the threshold. On a shape mismatch the frame yields a
/// [`DecodeError::Shape`] instead, never a silently truncated list.
pub fn detect(confidences: &Tensor, boxes: &Tensor, min_confidence: i64, max_iou: i64) -> (r:
    Result<Vec<Detection>, DecodeError>)
    requires
        confidences.values_in_range(),
        boxes.values_in_range(),
        0 <= min_confidence <= SCALE,
        0 <= max_iou <= SCALE,
    ensures
        r is Ok <==> shapes_ok(*confidences, *boxes),
        (r matches Ok(selected) ==> {
            let cands = candidates(
                confidences.data@,
                boxes.data@,
                confidences.dims@[1] as int,
            );
            &&& selected@ == nms(spec_sort(keep_confident(cands, min_confidence)), max_iou)
            &&& all_wf(selected@)
            &&& pairwise_below(selected@, max_iou)
            &&& sorted_descending(selected@)
            &&& forall|x: Detection|
                #[trigger] selected@.contains(x) ==> cands.contains(x) && x.confidence
                    > min_confidence
        }),
        (r matches Err(e) ==> e == DecodeError::Shape),
{
    if confidences.dims.len() != 3 || boxes.dims.len() != 3 {
        return Err(DecodeError::Shape);
    }
    let k = confidences.dims[1];
    if confidences.dims[0] != 1 || confidences.dims[2] != 2 || boxes.dims[0] != 1
        || boxes.dims[2] != 4 || boxes.dims[1] != k {
        return Err(DecodeError::Shape);
    }
    let conf_len = confidences.data.len();
    let box_len = boxes.data.len();
    proof {
        lemma_fundamental_div_mod(conf_len as int, 2);
        lemma_fundamental_div_mod(box_len as int, 4);
    }
    if conf_len % 2 != 0 || conf_len / 2 != k || box_len % 4 != 0 || box_len / 4 != k {
        return Err(DecodeError::Shape);
    }
    // Decode each row of the box tensor into a normalized rectangle and
    // pair it with its face-presence score from column 1.
    let mut cands: Vec<Detection> = Vec::new();
    let mut i: usize = 0;
    proof {
        assert(cands@ =~= candidates(confidences.data@, boxes.data@, 0));
    }
    while i < k
        invariant
            i <= k,
            confidences.values_in_range(),
            boxes.values_in_range(),
            confidences.data@.len() == 2 * k,
            boxes.data@.len() == 4 * k,
            4 * k <= usize::MAX,
            cands@ == candidates(confidences.data@, boxes.data@, i as int),
            all_wf(cands@),
        decreases k - i,
    {
        let x0 = boxes.data[4 * i];
        let y0 = boxes.data[4 * i + 1];
        let x1 = boxes.data[4 * i + 2];
        let y1 = boxes.data[4 * i + 3];
        let confidence = confidences.data[2 * i + 1];
        let rect = Rect::from_points(Point::new(x0, y0), Point::new(x1, y1));
        cands.push(Detection { rect, confidence });
        proof {
            assert(cands@ =~= candidates(confidences.data@, boxes.data@, i + 1));
        }
        i = i + 1;
    }
    let ghost cand_seq = cands@;
    // Keep only candidates strictly above the confidence threshold, sort
    // them ascending, and suppress overlapping lower-confidence boxes.
    let kept = filter_by_confidence(cands, min_confidence);
    let sorted = sort_by_confidence(kept);
    let selected = non_maximum_suppression(sorted, max_iou);
    proof {
        lemma_nms_from_elems(sorted@, Seq::empty(), max_iou);
        lemma_spec_sort_elems(kept@);
        lemma_filter_subset(cand_seq, confident(min_confidence));
        assert forall|x: Detection| #[trigger] selected@.contains(x) implies cand_seq.contains(x)
            && x.confidence > min_confidence by {
            assert(nms_from(sorted@, Seq::empty(), max_iou).contains(x));
            assert(spec_sort(kept@).contains(x));
            assert(kept@.contains(x));
            let i = choose|i: int| 0 <= i < kept@.len() && kept@[i] == x;
            cand_seq.lemma_filter_pred(confident(min_confidence), i);
        }
    }
    Ok(selected)
}

} // verus!
