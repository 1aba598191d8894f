//! Greedy non-maximum suppression of scored boxes.
//!
//! Candidates are sorted by confidence in ascending order so that the most
//! confident one can be popped cheaply from the back. Each popped candidate
//! is tested against every box already accepted: if its IoU with any of them
//! exceeds the threshold it is discarded (suppressed by a box of higher or
//! equal confidence), otherwise it is accepted. Both the stable insertion
//! sort and the suppression loop are proved equal to recursive spec-level
//! models, so the whole selection is pinned down input by input.

use vstd::prelude::*;

use crate::geometry::{Rect, SCALE};
use crate::iou::{iou_exceeds, iou_exceeds_threshold, lemma_iou_symmetric};

verus! {

/// A candidate or accepted box together with its face-presence score.
/// The confidence is on the same fixed-point scale as the coordinates:
/// `SCALE` units model the score `1.0`.
#[derive(Debug, Clone, Copy, PartialEq, Eq, Structural)]
pub struct Detection {
    pub rect: Rect,
    pub confidence: i64,
}

impl Detection {
    /// The box lies on the frame and the score models a value in `[0, 1]`.
    pub open spec fn wf(self) -> bool {
        &&& self.rect.wf()
        &&& 0 <= self.confidence <= SCALE
    }
}

/// Every element of the sequence is well-formed.
pub open spec fn all_wf(s: Seq<Detection>) -> bool {
    forall|i: int| 0 <= i < s.len() ==> (#[trigger] s[i]).wf()
}

/// Stable insertion of `d` into a sequence sorted by ascending confidence:
/// `d` goes after every element whose confidence is less than or equal to
/// its own, so earlier candidates of equal confidence keep their place.
pub open spec fn spec_insert(s: Seq<Detection>, d: Detection) -> Seq<Detection>
    decreases s.len(),
{
    if s.len() == 0 {
        seq![d]
    } else if s[0].confidence <= d.confidence {
        seq![s[0]] + spec_insert(s.drop_first(), d)
    } else {
        seq![d] + s
    }
}

/// Stable sort by ascending confidence, one insertion per element.
pub open spec fn spec_sort(s: Seq<Detection>) -> Seq<Detection>
    decreases s.len(),
{
    if s.len() == 0 {
        Seq::empty()
    } else {
        spec_insert(spec_sort(s.drop_last()), s.last())
    }
}

/// `d` overlaps some already-accepted box more than the threshold allows.
pub open spec fn suppressed_by(d: Detection, accepted: Seq<Detection>, max_iou: i64) -> bool {
    exists|j: int|
        0 <= j < accepted.len() && iou_exceeds(d.rect, (#[trigger] accepted[j]).rect, max_iou)
}

/// The greedy suppressor, processing `remaining` from its back (highest
/// confidence first when the input is sorted ascending) and growing
/// `accepted` with every candidate that no accepted box suppresses.
pub open spec fn nms_from(
    remaining: Seq<Detection>,
    accepted: Seq<Detection>,
    max_iou: i64,
) -> Seq<Detection>
    decreases remaining.len(),
{
    if remaining.len() == 0 {
        accepted
    } else {
        let d = remaining.last();
        let rest = remaining.drop_last();
        if suppressed_by(d, accepted, max_iou) {
            nms_from(rest, accepted, max_iou)
        } else {
            nms_from(rest, accepted.push(d), max_iou)
        }
    }
}

/// The suppressor run on a whole candidate list with nothing accepted yet.
pub open spec fn nms(sorted: Seq<Detection>, max_iou: i64) -> Seq<Detection> {
    nms_from(sorted, Seq::empty(), max_iou)
}

/// No two distinct elements overlap each other beyond the threshold.
pub open spec fn pairwise_below(s: Seq<Detection>, max_iou: i64) -> bool {
    forall|i: int, j: int|
        0 <= i < s.len() && 0 <= j < s.len() && i != j ==> !iou_exceeds(
            (#[trigger] s[i]).rect,
            (#[trigger] s[j]).rect,
            max_iou,
        )
}

/// Confidences never decrease along the sequence.
pub open spec fn sorted_ascending(s: Seq<Detection>) -> bool {
    forall|i: int, j: int|
        0 <= i <= j < s.len() ==> (#[trigger] s[i]).confidence <= (#[trigger] s[j]).confidence
}

/// Confidences never increase along the sequence.
pub open spec fn sorted_descending(s: Seq<Detection>) -> bool {
    forall|i: int, j: int|
        0 <= i <= j < s.len() ==> (#[trigger] s[i]).confidence >= (#[trigger] s[j]).confidence
}

/// Inserting adds exactly the new element: everything in the result is the
/// inserted element or came from the input, and well-formedness carries over.
pub proof fn lemma_spec_insert_elems(s: Seq<Detection>, d: Detection)
    ensures
        spec_insert(s, d).len() == s.len() + 1,
        forall|x: Detection| #[trigger] spec_insert(s, d).contains(x) ==> x == d || s.contains(x),
    decreases s.len(),
{
    if s.len() == 0 || s[0].confidence > d.confidence {
        // One new element at a known index; contains unfolds directly.
    } else {
        lemma_spec_insert_elems(s.drop_first(), d);
        assert forall|x: Detection| #[trigger] spec_insert(s, d).contains(x) implies x == d
            || s.contains(x) by {
            let out = spec_insert(s, d);
            let i = choose|i: int| 0 <= i < out.len() && out[i] == x;
            if i == 0 {
                assert(s.contains(s[0]));
            } else {
                let tail = spec_insert(s.drop_first(), d);
                assert(tail[i - 1] == x);
                assert(tail.contains(x));
                if x != d {
                    let j = choose|j: int| 0 <= j < s.drop_first().len() && s.drop_first()[j] == x;
                    assert(s[j + 1] == x);
                    assert(s.contains(x));
                }
            }
        }
    }
}

/// Sorting permutes: same length, no element that was not in the input, and
/// well-formedness carries over.
pub proof fn lemma_spec_sort_elems(s: Seq<Detection>)
    ensures
        spec_sort(s).len() == s.len(),
        forall|x: Detection| #[trigger] spec_sort(s).contains(x) ==> s.contains(x),
        all_wf(s) ==> all_wf(spec_sort(s)),
    decreases s.len(),
{
    if s.len() > 0 {
        let rest = s.drop_last();
        lemma_spec_sort_elems(rest);
        lemma_spec_insert_elems(spec_sort(rest), s.last());
        assert forall|x: Detection| #[trigger] spec_sort(s).contains(x) implies s.contains(x) by {
            if x == s.last() {
                assert(s[s.len() - 1] == x);
            } else {
                assert(spec_sort(rest).contains(x));
                let j = choose|j: int| 0 <= j < rest.len() && rest[j] == x;
                assert(s[j] == x);
            }
        }
        if all_wf(s) {
            assert(all_wf(rest)) by {
                assert forall|i: int| 0 <= i < rest.len() implies (#[trigger] rest[i]).wf() by {
                    assert(rest[i] == s[i]);
                }
            }
            assert forall|i: int| 0 <= i < spec_sort(s).len() implies (#[trigger] spec_sort(
                s,
            )[i]).wf() by {
                let x = spec_sort(s)[i];
                assert(spec_sort(s).contains(x));
                if x != s.last() {
                    assert(s.contains(x));
                    let j = choose|j: int| 0 <= j < s.len() && s[j] == x;
                    assert(s[j].wf());
                } else {
                    assert(s[s.len() - 1].wf());
                }
            }
        }
    }
}

/// Stable insertion into an ascending sequence keeps it ascending.
pub proof fn lemma_spec_insert_sorted(s: Seq<Detection>, d: Detection)
    requires
        sorted_ascending(s),
    ensures
        sorted_ascending(spec_insert(s, d)),
    decreases s.len(),
{
    lemma_spec_insert_elems(s, d);
    if s.len() == 0 || s[0].confidence > d.confidence {
        // d lands in front of elements it is strictly below (or the
        // sequence was empty): ascending by inspection.
    } else {
        assert(sorted_ascending(s.drop_first())) by {
            assert forall|i: int, j: int| 0 <= i <= j < s.drop_first().len() implies (
            #[trigger] s.drop_first()[i]).confidence <= (#[trigger] s.drop_first()[j]).confidence by {
                assert(s.drop_first()[i] == s[i + 1] && s.drop_first()[j] == s[j + 1]);
            }
        }
        lemma_spec_insert_sorted(s.drop_first(), d);
        lemma_spec_insert_elems(s.drop_first(), d);
        let out = spec_insert(s, d);
        let tail = spec_insert(s.drop_first(), d);
        assert forall|i: int, j: int| 0 <= i <= j < out.len() implies (#[trigger] out[i]).confidence
            <= (#[trigger] out[j]).confidence by {
            if i == 0 && j > 0 {
                let x = tail[j - 1];
                assert(tail.contains(x));
                if x == d {
                    assert(s[0].confidence <= d.confidence);
                } else {
                    let k = choose|k: int|
                        0 <= k < s.drop_first().len() && s.drop_first()[k] == x;
                    assert(s.drop_first()[k] == s[k + 1]);
                    assert(s[0].confidence <= s[k + 1].confidence);
                }
            } else if i > 0 {
                assert(tail[i - 1].confidence <= tail[j - 1].confidence);
            }
        }
    }
}

/// The stable insertion sort really sorts: its output is ascending.
pub proof fn lemma_spec_sort_sorted(s: Seq<Detection>)
    ensures
        sorted_ascending(spec_sort(s)),
    decreases s.len(),
{
    if s.len() > 0 {
        lemma_spec_sort_sorted(s.drop_last());
        lemma_spec_insert_sorted(spec_sort(s.drop_last()), s.last());
    }
}

/// On ascending input the suppressor accepts in descending order of
/// confidence: the most confident box comes first, and every accepted box
/// is at least as confident as the candidates still to be examined.
pub proof fn lemma_nms_from_descending(rem: Seq<Detection>, acc: Seq<Detection>, max_iou: i64)
    requires
        sorted_ascending(rem),
        sorted_descending(acc),
        forall|i: int, j: int|
            0 <= i < acc.len() && 0 <= j < rem.len() ==> (#[trigger] acc[i]).confidence >= (
            #[trigger] rem[j]).confidence,
    ensures
        sorted_descending(nms_from(rem, acc, max_iou)),
    decreases rem.len(),
{
    if rem.len() > 0 {
        let d = rem.last();
        let rest = rem.drop_last();
        assert(sorted_ascending(rest) && forall|j: int|
            0 <= j < rest.len() ==> (#[trigger] rest[j]).confidence <= d.confidence) by {
            assert forall|i: int, j: int| 0 <= i <= j < rest.len() implies (
            #[trigger] rest[i]).confidence <= (#[trigger] rest[j]).confidence by {
                assert(rest[i] == rem[i] && rest[j] == rem[j]);
            }
            assert forall|j: int| 0 <= j < rest.len() implies (#[trigger] rest[j]).confidence
                <= d.confidence by {
                assert(rest[j] == rem[j] && d == rem[rem.len() - 1]);
            }
        }
        if suppressed_by(d, acc, max_iou) {
            lemma_nms_from_descending(rest, acc, max_iou);
        } else {
            assert(sorted_descending(acc.push(d))) by {
                assert forall|i: int, j: int| 0 <= i <= j < acc.push(d).len() implies (
                #[trigger] acc.push(d)[i]).confidence >= (#[trigger] acc.push(d)[j]).confidence by {
                    assert(rem[rem.len() - 1] == d);
                    if j < acc.len() {
                        assert(acc[i].confidence >= acc[j].confidence);
                    } else if i < acc.len() {
                        assert(acc[i].confidence >= d.confidence);
                    }
                }
            }
            assert forall|i: int, j: int|
                0 <= i < acc.push(d).len() && 0 <= j < rest.len() implies (
            #[trigger] acc.push(d)[i]).confidence >= (#[trigger] rest[j]).confidence by {
                assert(rest[j] == rem[j] && rem[rem.len() - 1] == d);
                if i < acc.len() {
                    assert(acc[i].confidence >= rem[j].confidence);
                }
            }
            lemma_nms_from_descending(rest, acc.push(d), max_iou);
        }
    }
}

/// Where the insertion lands: if everything before `i` has confidence at
/// most `d`'s and the element at `i` (if any) has strictly more, the stable
/// insertion is exactly an insertion at index `i`.
pub proof fn lemma_spec_insert_at(s: Seq<Detection>, d: Detection, i: int)
    requires
        0 <= i <= s.len(),
        forall|j: int| 0 <= j < i ==> (#[trigger] s[j]).confidence <= d.confidence,
        i < s.len() ==> s[i].confidence > d.confidence,
    ensures
        spec_insert(s, d) == s.insert(i, d),
    decreases s.len(),
{
    if s.len() == 0 {
        assert(spec_insert(s, d) =~= s.insert(0, d));
    } else if i == 0 {
        assert(spec_insert(s, d) =~= s.insert(0, d));
    } else {
        assert(s[0].confidence <= d.confidence);
        assert forall|j: int| 0 <= j < i - 1 implies (#[trigger] s.drop_first()[j]).confidence
            <= d.confidence by {
            assert(s.drop_first()[j] == s[j + 1]);
        }
        if i - 1 < s.drop_first().len() {
            assert(s.drop_first()[i - 1] == s[i]);
        }
        lemma_spec_insert_at(s.drop_first(), d, i - 1);
        assert(seq![s[0]] + s.drop_first().insert(i - 1, d) =~= s.insert(i, d));
    }
}

/// Insert `d` into a vector sorted by ascending confidence, keeping it
/// sorted and placing `d` after any earlier element of equal confidence.
fn insert_by_confidence(sorted: Vec<Detection>, d: Detection) -> (r: Vec<Detection>)
    ensures
        r@ == spec_insert(sorted@, d),
{
    let mut sorted = sorted;
    let mut i: usize = 0;
    while i < sorted.len() && sorted[i].confidence <= d.confidence
        invariant
            i <= sorted@.len(),
            forall|j: int| 0 <= j < i ==> (#[trigger] sorted@[j]).confidence <= d.confidence,
        decreases sorted@.len() - i,
    {
        i = i + 1;
    }
    proof {
        lemma_spec_insert_at(sorted@, d, i as int);
    }
    sorted.insert(i, d);
    sorted
}

/// Sort candidates by ascending confidence with a stable insertion sort, so
/// that the most confident ones can be popped from the back and candidates
/// of equal confidence keep their input order.
pub fn sort_by_confidence(bboxes_with_confidences: Vec<Detection>) -> (r: Vec<Detection>)
    ensures
        r@ == spec_sort(bboxes_with_confidences@),
        sorted_ascending(r@),
        r@.len() == bboxes_with_confidences@.len(),
        all_wf(bboxes_with_confidences@) ==> all_wf(r@),
{
    let mut sorted: Vec<Detection> = Vec::new();
    let mut idx: usize = 0;
    while idx < bboxes_with_confidences.len()
        invariant
            idx <= bboxes_with_confidences@.len(),
            sorted@ == spec_sort(bboxes_with_confidences@.take(idx as int)),
        decreases bboxes_with_confidences@.len() - idx,
    {
        let d = bboxes_with_confidences[idx];
        sorted = insert_by_confidence(sorted, d);
        proof {
            let full = bboxes_with_confidences@;
            assert(full.take(idx + 1).drop_last() =~= full.take(idx as int));
            assert(full.take(idx + 1).last() == full[idx as int]);
        }
        idx = idx + 1;
    }
    proof {
        assert(bboxes_with_confidences@.take(bboxes_with_confidences@.len() as int)
            =~= bboxes_with_confidences@);
        lemma_spec_sort_sorted(bboxes_with_confidences@);
        lemma_spec_sort_elems(bboxes_with_confidences@);
    }
    sorted
}

/// Run non-maximum suppression on candidate boxes with confidences.
///
/// The input must be sorted in ascending order of confidence for the greedy
/// selection to mean "highest confidence first"; the result is exactly the
/// spec-level suppressor [`nms`] run on the input, its elements are
/// well-formed, and no two of them overlap beyond the threshold.
pub fn non_maximum_suppression(sorted_bboxes_with_confidences: Vec<Detection>, max_iou: i64) -> (selected: Vec<
    Detection,
>)
    requires
        all_wf(sorted_bboxes_with_confidences@),
        0 <= max_iou <= SCALE,
    ensures
        selected@ == nms(sorted_bboxes_with_confidences@, max_iou),
        all_wf(selected@),
        pairwise_below(selected@, max_iou),
        sorted_ascending(sorted_bboxes_with_confidences@) ==> sorted_descending(selected@),
{
    let ghost orig = sorted_bboxes_with_confidences@;
    let mut remaining = sorted_bboxes_with_confidences;
    let mut selected: Vec<Detection> = Vec::new();
    while remaining.len() > 0
        invariant
            all_wf(remaining@),
            all_wf(selected@),
            0 <= max_iou <= SCALE,
            nms_from(remaining@, selected@, max_iou) == nms(orig, max_iou),
        decreases remaining@.len(),
    {
        let ghost prev_remaining = remaining@;
        let d = remaining.pop().unwrap();
        proof {
            assert(d == prev_remaining.last());
            assert(remaining@ =~= prev_remaining.drop_last());
            assert(d.wf());
            assert forall|i: int| 0 <= i < remaining@.len() implies (#[trigger] remaining@[i]).wf() by {
                assert(remaining@[i] == prev_remaining[i]);
            }
        }
        // Check for overlap with any of the already selected boxes.
        let mut is_suppressed = false;
        let mut j: usize = 0;
        while j < selected.len()
            invariant_except_break
                j <= selected@.len(),
                !is_suppressed,
                all_wf(selected@),
                d.wf(),
                0 <= max_iou <= SCALE,
                forall|t: int| 0 <= t < j ==> !iou_exceeds(d.rect, (#[trigger] selected@[t]).rect, max_iou),
            ensures
                is_suppressed == suppressed_by(d, selected@, max_iou),
            decreases selected@.len() - j,
        {
            if iou_exceeds_threshold(&d.rect, &selected[j].rect, max_iou) {
                is_suppressed = true;
                break ;
            }
            j = j + 1;
        }
        if !is_suppressed {
            // No large overlap with any selected box: accept the candidate.
            selected.push(d);
            proof {
                assert(all_wf(selected@)) by {
                    assert forall|i: int| 0 <= i < selected@.len() implies (#[trigger] selected@[i]).wf() by {
                    }
                }
            }
        }
    }
    proof {
        lemma_nms_from_pairwise(orig, Seq::empty(), max_iou);
        if sorted_ascending(orig) {
            lemma_nms_from_descending(orig, Seq::empty(), max_iou);
        }
    }
    selected
}

/// Everything the suppressor returns was a candidate or already accepted.
pub proof fn lemma_nms_from_elems(rem: Seq<Detection>, acc: Seq<Detection>, max_iou: i64)
    ensures
        forall|x: Detection| #[trigger] nms_from(rem, acc, max_iou).contains(x) ==> rem.contains(x)
            || acc.contains(x),
    decreases rem.len(),
{
    if rem.len() > 0 {
        let d = rem.last();
        let rest = rem.drop_last();
        if suppressed_by(d, acc, max_iou) {
            lemma_nms_from_elems(rest, acc, max_iou);
        } else {
            lemma_nms_from_elems(rest, acc.push(d), max_iou);
        }
        assert forall|x: Detection| #[trigger] nms_from(rem, acc, max_iou).contains(x) implies rem
            .contains(x) || acc.contains(x) by {
            if suppressed_by(d, acc, max_iou) {
                assert(nms_from(rest, acc, max_iou).contains(x));
                if rest.contains(x) {
                    let i = choose|i: int| 0 <= i < rest.len() && rest[i] == x;
                    assert(rem[i] == x);
                }
            } else {
                assert(nms_from(rest, acc.push(d), max_iou).contains(x));
                if rest.contains(x) {
                    let i = choose|i: int| 0 <= i < rest.len() && rest[i] == x;
                    assert(rem[i] == x);
                } else {
                    assert(acc.push(d).contains(x));
                    let i = choose|i: int| 0 <= i < acc.push(d).len() && acc.push(d)[i] == x;
                    if i < acc.len() {
                        assert(acc[i] == x);
                    } else {
                        assert(x == d);
                        assert(rem[rem.len() - 1] == x);
                    }
                }
            }
        }
    }
}

/// Whatever the suppressor accepts is mutually below the threshold: the law
/// behind running it a second time.
pub proof fn lemma_nms_from_pairwise(rem: Seq<Detection>, acc: Seq<Detection>, max_iou: i64)
    requires
        pairwise_below(acc, max_iou),
    ensures
        pairwise_below(nms_from(rem, acc, max_iou), max_iou),
    decreases rem.len(),
{
    if rem.len() > 0 {
        let d = rem.last();
        let rest = rem.drop_last();
        if suppressed_by(d, acc, max_iou) {
            lemma_nms_from_pairwise(rest, acc, max_iou);
        } else {
            assert(pairwise_below(acc.push(d), max_iou)) by {
                assert forall|i: int, j: int|
                    0 <= i < acc.push(d).len() && 0 <= j < acc.push(d).len() && i != j implies !iou_exceeds(
                    (#[trigger] acc.push(d)[i]).rect,
                    (#[trigger] acc.push(d)[j]).rect,
                    max_iou,
                ) by {
                    if i == acc.len() {
                        assert(!iou_exceeds(d.rect, acc[j].rect, max_iou));
                    } else if j == acc.len() {
                        assert(!iou_exceeds(d.rect, acc[i].rect, max_iou));
                        lemma_iou_symmetric(d.rect, acc[i].rect);
                    }
                }
            }
            lemma_nms_from_pairwise(rest, acc.push(d), max_iou);
        }
    }
}

/// On an input whose elements are already mutually below the threshold the
/// suppressor suppresses nothing: it returns every candidate, in
/// back-to-front (acceptance) order.
pub proof fn lemma_nms_from_all_kept(rem: Seq<Detection>, acc: Seq<Detection>, max_iou: i64)
    requires
        pairwise_below(rem, max_iou),
        forall|i: int, j: int|
            0 <= i < rem.len() && 0 <= j < acc.len() ==> !iou_exceeds(
                (#[trigger] rem[i]).rect,
                (#[trigger] acc[j]).rect,
                max_iou,
            ),
    ensures
        nms_from(rem, acc, max_iou) == acc + rem.reverse(),
    decreases rem.len(),
{
    if rem.len() == 0 {
        assert(acc + rem.reverse() =~= acc);
    } else {
        let d = rem.last();
        let rest = rem.drop_last();
        assert(!suppressed_by(d, acc, max_iou)) by {
            assert forall|j: int| 0 <= j < acc.len() implies !iou_exceeds(
                d.rect,
                (#[trigger] acc[j]).rect,
                max_iou,
            ) by {
                assert(rem[rem.len() - 1] == d);
            }
        }
        assert(pairwise_below(rest, max_iou)) by {
            assert forall|i: int, j: int|
                0 <= i < rest.len() && 0 <= j < rest.len() && i != j implies !iou_exceeds(
                (#[trigger] rest[i]).rect,
                (#[trigger] rest[j]).rect,
                max_iou,
            ) by {
                assert(rest[i] == rem[i] && rest[j] == rem[j]);
            }
        }
        assert forall|i: int, j: int|
            0 <= i < rest.len() && 0 <= j < acc.push(d).len() implies !iou_exceeds(
            (#[trigger] rest[i]).rect,
            (#[trigger] acc.push(d)[j]).rect,
            max_iou,
        ) by {
            assert(rest[i] == rem[i]);
            if j == acc.len() {
                assert(rem[rem.len() - 1] == d);
                assert(!iou_exceeds(rem[i].rect, rem[rem.len() - 1].rect, max_iou));
            }
        }
        lemma_nms_from_all_kept(rest, acc.push(d), max_iou);
        assert(acc.push(d) + rest.reverse() =~= acc + rem.reverse());
    }
}

/// Suppression is idempotent on its own output: the accepted set, handed
/// back to the suppressor in the ascending order it expects, comes out
/// unchanged.
pub proof fn lemma_suppression_idempotent(sorted: Seq<Detection>, max_iou: i64)
    ensures
        nms(nms(sorted, max_iou).reverse(), max_iou) == nms(sorted, max_iou),
{
    let out = nms(sorted, max_iou);
    lemma_nms_from_pairwise(sorted, Seq::empty(), max_iou);
    assert(pairwise_below(out.reverse(), max_iou)) by {
        assert forall|i: int, j: int|
            0 <= i < out.reverse().len() && 0 <= j < out.reverse().len() && i != j implies !iou_exceeds(
            (#[trigger] out.reverse()[i]).rect,
            (#[trigger] out.reverse()[j]).rect,
            max_iou,
        ) by {
            assert(out.reverse()[i] == out[out.len() - 1 - i]);
            assert(out.reverse()[j] == out[out.len() - 1 - j]);
        }
    }
    lemma_nms_from_all_kept(out.reverse(), Seq::empty(), max_iou);
    assert(Seq::<Detection>::empty() + out.reverse().reverse() =~= out);
}

} // verus!
