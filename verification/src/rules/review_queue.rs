//! The queue of propositions that wait for human review.

use vstd::prelude::*;
use crate::rules::proposition::{NormalizedProposition, REVIEW_THRESHOLD};

verus! {

/// How far the review of an item has come.
#[derive(Clone, Copy, Debug, PartialEq, Eq, Structural)]
pub enum ReviewStatus {
    Pending,
    Approved,
    Rejected,
    Modified,
}

impl Default for ReviewStatus {
    fn default() -> (out: ReviewStatus)
        ensures
            out == ReviewStatus::Pending,
    {
        ReviewStatus::Pending
    }
}

/// One item of the review queue.
#[derive(Clone, Debug)]
pub struct ReviewItem {
    pub venue: String,
    pub market_id: String,
    pub outcome_id: Option<String>,
    pub title: String,
    pub raw_rules_text: String,
    /// The proposition as JSON text.
    pub extracted_proposition: String,
    /// In millionths.
    pub confidence: i64,
    pub parse_notes: Vec<String>,
    pub status: ReviewStatus,
    /// In epoch milliseconds.
    pub created_at: i64,
}

impl Default for ReviewItem {
    fn default() -> (out: ReviewItem)
        ensures
            out.venue@ == Seq::<char>::empty(),
            out.market_id@ == Seq::<char>::empty(),
            out.outcome_id is None,
            out.confidence == 0,
            out.status == ReviewStatus::Pending,
            out.created_at == 0,
            out.extracted_proposition@ == "null"@,
    {
        ReviewItem {
            venue: String::new(),
            market_id: String::new(),
            outcome_id: None,
            title: String::new(),
            raw_rules_text: String::new(),
            extracted_proposition: "null".to_owned(),
            confidence: 0,
            parse_notes: Vec::new(),
            status: ReviewStatus::Pending,
            created_at: 0,
        }
    }
}

/// A copy of a list of strings.
pub fn clone_strings(list: &Vec<String>) -> (out: Vec<String>)
    ensures
        out.len() == list.len(),
        forall|i: int| 0 <= i < out.len() ==> (#[trigger] out[i])@ == list[i]@,
{
    let mut out: Vec<String> = Vec::new();
    let mut i: usize = 0;
    while i < list.len()
        invariant
            i <= list.len(),
            out.len() == i,
            forall|j: int| 0 <= j < i ==> (#[trigger] out[j])@ == list[j]@,
        decreases list.len() - i,
    {
        out.push(list[i].clone());
        i += 1;
    }
    out
}

/// The review item of `proposition`, made at `now_ms`, with the rules
/// text it was read from and the proposition as JSON text. It waits for
/// review.
pub fn create_review_item(
    proposition: &NormalizedProposition,
    raw_rules_text: &str,
    extracted_json: String,
    now_ms: i64,
) -> (out: ReviewItem)
    ensures
        out.venue@ == proposition.venue@,
        out.market_id@ == proposition.market_id@,
        out.outcome_id is Some == proposition.outcome_id is Some,
        out.outcome_id is Some ==> out.outcome_id->0@ == proposition.outcome_id->0@,
        out.title@ == proposition.title@,
        out.raw_rules_text@ == raw_rules_text@,
        out.extracted_proposition == extracted_json,
        out.confidence == proposition.confidence,
        out.parse_notes.len() == proposition.parse_notes.len(),
        forall|i: int|
            0 <= i < out.parse_notes.len() ==> (#[trigger] out.parse_notes[i])@
                == proposition.parse_notes[i]@,
        out.status == ReviewStatus::Pending,
        out.created_at == now_ms,
{
    ReviewItem {
        venue: proposition.venue.clone(),
        market_id: proposition.market_id.clone(),
        outcome_id: match &proposition.outcome_id {
            Some(o) => Some(o.clone()),
            None => None,
        },
        title: proposition.title.clone(),
        raw_rules_text: raw_rules_text.to_owned(),
        extracted_proposition: extracted_json,
        confidence: proposition.confidence,
        parse_notes: clone_strings(&proposition.parse_notes),
        status: ReviewStatus::Pending,
        created_at: now_ms,
    }
}

/// The counts of a review queue by status.
#[derive(Clone, Copy, Debug, PartialEq, Eq, Structural)]
pub struct ReviewStats {
    pub total: usize,
    pub pending: usize,
    pub approved: usize,
    pub rejected: usize,
    pub modified: usize,
    /// The mean confidence in millionths, rounded down; 0 for an empty queue.
    pub avg_confidence: i64,
}

/// How many of `items` have the status `status`.
pub open spec fn count_status(items: Seq<ReviewItem>, status: ReviewStatus) -> nat
    decreases items.len(),
{
    if items.len() == 0 {
        0
    } else {
        count_status(items.drop_last(), status) + if items.last().status == status {
            1nat
        } else {
            0nat
        }
    }
}

/// The sum of the confidences of `items`.
pub open spec fn confidence_sum(items: Seq<ReviewItem>) -> int
    decreases items.len(),
{
    if items.len() == 0 {
        0
    } else {
        confidence_sum(items.drop_last()) + items.last().confidence
    }
}

/// Whether the item at each position of `propositions` goes to review
/// under the threshold `threshold`, or under `REVIEW_THRESHOLD` without one.
pub open spec fn review_threshold(threshold: Option<i64>) -> i64 {
    match threshold {
        Some(t) => t,
        None => REVIEW_THRESHOLD,
    }
}

/// The positions of `confidences` whose confidence is below `threshold`.
pub open spec fn below(confidences: Seq<i64>, threshold: i64) -> Seq<usize>
    decreases confidences.len(),
{
    if confidences.len() == 0 {
        Seq::empty()
    } else if confidences.last() < threshold {
        below(confidences.drop_last(), threshold).push((confidences.len() - 1) as usize)
    } else {
        below(confidences.drop_last(), threshold)
    }
}

/// The confidences of `propositions`, in order.
pub open spec fn confidences_of(propositions: Seq<NormalizedProposition>) -> Seq<i64> {
    propositions.map_values(|p: NormalizedProposition| p.confidence)
}

/// The positions of the propositions that need review: those whose
/// confidence is below the threshold.
pub fn filter_for_review(propositions: &[NormalizedProposition], threshold: Option<i64>) -> (out: Vec<
    usize,
>)
    ensures
        out@ == below(confidences_of(propositions@), review_threshold(threshold)),
        forall|j: int| 0 <= j < out.len() ==> (#[trigger] out[j]) < propositions.len(),
{
    let limit = match threshold {
        Some(t) => t,
        None => REVIEW_THRESHOLD,
    };
    let ghost all = confidences_of(propositions@);
    let mut out: Vec<usize> = Vec::new();
    let mut i: usize = 0;
    assert(all.take(0) =~= Seq::<i64>::empty());
    while i < propositions.len()
        invariant
            i <= propositions.len(),
            all == confidences_of(propositions@),
            out@ == below(all.take(i as int), limit),
            forall|j: int| 0 <= j < out.len() ==> (#[trigger] out[j]) < i,
        decreases propositions.len() - i,
    {
        proof {
            assert(all.take(i + 1).drop_last() =~= all.take(i as int));
            assert(all.take(i + 1).last() == propositions@[i as int].confidence);
        }
        if propositions[i].confidence < limit {
            out.push(i);
        }
        i += 1;
    }
    assert(all.take(propositions.len() as int) =~= all);
    out
}

impl ReviewStats {
    /// The counts of `items`.
    pub fn from_items(items: &[ReviewItem]) -> (out: ReviewStats)
        ensures
            out.total == items.len(),
            out.pending == count_status(items@, ReviewStatus::Pending),
            out.approved == count_status(items@, ReviewStatus::Approved),
            out.rejected == count_status(items@, ReviewStatus::Rejected),
            out.modified == count_status(items@, ReviewStatus::Modified),
            out.pending + out.approved + out.rejected + out.modified == out.total,
            out.avg_confidence == if items.len() == 0 {
                0
            } else {
                confidence_sum(items@) / (items.len() as int)
            },
    {
        let total = items.len();
        let mut pending: usize = 0;
        let mut approved: usize = 0;
        let mut rejected: usize = 0;
        let mut modified: usize = 0;
        // The sum of the confidences, each raised by 2^63 so that none is negative.
        let mut raised: u128 = 0;
        let mut i: usize = 0;
        assert(items@.take(0) =~= Seq::<ReviewItem>::empty());
        while i < total
            invariant
                i <= total,
                total == items.len(),
                pending == count_status(items@.take(i as int), ReviewStatus::Pending),
                approved == count_status(items@.take(i as int), ReviewStatus::Approved),
                rejected == count_status(items@.take(i as int), ReviewStatus::Rejected),
                modified == count_status(items@.take(i as int), ReviewStatus::Modified),
                pending + approved + rejected + modified == i,
                raised == confidence_sum(items@.take(i as int)) + 0x8000_0000_0000_0000 * i,
                raised <= 0xffff_ffff_ffff_ffff * i,
            decreases total - i,
        {
            proof {
                assert(items@.take(i + 1).drop_last() =~= items@.take(i as int));
                assert(items@.take(i + 1).last() == items@[i as int]);
            }
            match items[i].status {
                ReviewStatus::Pending => {
                    pending += 1;
                },
                ReviewStatus::Approved => {
                    approved += 1;
                },
                ReviewStatus::Rejected => {
                    rejected += 1;
                },
                ReviewStatus::Modified => {
                    modified += 1;
                },
            }
            assert(0xffff_ffff_ffff_ffff * (i + 1) <= 0xffff_ffff_ffff_ffff * 0xffff_ffff_ffff_ffff)
                by (nonlinear_arith)
                requires
                    i + 1 <= 0xffff_ffff_ffff_ffff,
            ;
            raised += (items[i].confidence as i128 + 0x8000_0000_0000_0000) as u128;
            i += 1;
        }
        assert(items@.take(total as int) =~= items@);
        let avg_confidence: i64 = if total == 0 {
            0
        } else {
            let n = total as u128;
            let q = raised / n;
            proof {
                let s = confidence_sum(items@);
                let m = total as int;
                assert((s + 0x8000_0000_0000_0000 * m) / m == s / m + 0x8000_0000_0000_0000)
                    by (nonlinear_arith)
                    requires
                        m > 0,
                ;
                assert(q <= 0xffff_ffff_ffff_ffff) by (nonlinear_arith)
                    requires
                        q == raised / n,
                        n > 0,
                        raised <= 0xffff_ffff_ffff_ffff * n,
                ;
            }
            (q as i128 - 0x8000_0000_0000_0000) as i64
        };
        ReviewStats { total, pending, approved, rejected, modified, avg_confidence }
    }
}

} // verus!
