//! The confidence in an extracted proposition, in millionths.

use vstd::prelude::*;
use crate::rules::extract::{
    contains_text, first_matching, has_text, note_texts, spec_comparator, spec_conflicts,
    spec_is_barrier, spec_level, spec_measure, spec_source, spec_window_kind, underlier_table,
    ExtractionResult,
};
use crate::rules::proposition::{
    PriceMeasure, PropositionKind, TimeWindowKind, CONFIDENCE_ONE, REVIEW_THRESHOLD,
};

verus! {

/// What one conflict takes off the score.
pub open spec fn conflict_penalty(conflict: Seq<char>) -> int {
    if has_text(conflict, "time window"@) || has_text(conflict, "Multiple price levels"@)
        || has_text(conflict, "Ambiguous"@) {
        200_000
    } else {
        100_000
    }
}

/// What the conflicts take off the score.
pub open spec fn penalties(conflicts: Seq<Seq<char>>) -> int
    decreases conflicts.len(),
{
    if conflicts.len() == 0 {
        0
    } else {
        penalties(conflicts.drop_last()) + conflict_penalty(conflicts.last())
    }
}

/// What the proposition itself adds to the score: a tenth for a price
/// barrier with window, measure and source; three tenths off for an
/// unknown proposition, one tenth off for an event.
pub open spec fn kind_bonus(proposition: PropositionKind) -> int {
    match proposition {
        PropositionKind::PriceBarrier { window, measure, source, .. } => if window.kind
            != TimeWindowKind::Unknown && measure != PriceMeasure::Unknown && !(source is Unknown) {
            100_000
        } else {
            0
        },
        PropositionKind::Unknown => -300_000,
        PropositionKind::YesNoEvent { .. } => -100_000,
        PropositionKind::RangePartition { .. } => 0,
    }
}

/// What the finds add to the score: two tenths to start with, two tenths
/// each for underlier, level and comparator, one tenth each for window,
/// measure and source.
pub open spec fn gains(extraction: ExtractionResult) -> int {
    200_000 + (if extraction.underlier is Some {
        200_000int
    } else {
        0
    }) + (if extraction.level is Some {
        200_000int
    } else {
        0
    }) + (if extraction.comparator is Some {
        200_000int
    } else {
        0
    }) + (if extraction.window.kind != TimeWindowKind::Unknown {
        100_000int
    } else {
        0
    }) + (if extraction.measure != PriceMeasure::Unknown {
        100_000int
    } else {
        0
    }) + (if !(extraction.source is Unknown) {
        100_000int
    } else {
        0
    })
}

/// The score before it is held within 0 and one: the gains, less the
/// penalties, and what the proposition adds.
pub open spec fn raw_confidence(proposition: PropositionKind, extraction: ExtractionResult) -> int {
    gains(extraction) - penalties(note_texts(extraction.conflicts@)) + kind_bonus(proposition)
}

/// `score` held within 0 and one.
pub open spec fn clamped(score: int) -> i64 {
    if score < 0 {
        0
    } else if score > CONFIDENCE_ONE {
        CONFIDENCE_ONE
    } else {
        score as i64
    }
}

/// The confidence in the proposition that a rules text in its parsed form
/// gives.
pub open spec fn text_confidence(text: Seq<char>) -> i64 {
    let window = spec_window_kind(text) != TimeWindowKind::Unknown;
    let measure = spec_measure(text) != PriceMeasure::Unknown;
    let source = spec_source(text).0 != 0;
    clamped(
        200_000 + (if first_matching(text, underlier_table()) is Some {
            200_000int
        } else {
            0
        }) + (if spec_level(text) is Some {
            200_000int
        } else {
            0
        }) + (if spec_comparator(text) is Some {
            200_000int
        } else {
            0
        }) + (if window {
            100_000int
        } else {
            0
        }) + (if measure {
            100_000int
        } else {
            0
        }) + (if source {
            100_000int
        } else {
            0
        }) - penalties(spec_conflicts(text)) + (if !spec_is_barrier(text) {
            -100_000int
        } else if window && measure && source {
            100_000
        } else {
            0
        }),
    )
}

/// What the finds add to the score.
fn gained(extraction: &ExtractionResult) -> (out: i128)
    ensures
        out == gains(*extraction),
        200_000 <= out <= 1_100_000,
{
    let mut score: i128 = 200_000;
    if extraction.underlier.is_some() {
        score += 200_000;
    }
    if extraction.level.is_some() {
        score += 200_000;
    }
    if extraction.comparator.is_some() {
        score += 200_000;
    }
    match extraction.window.kind {
        TimeWindowKind::Unknown => {},
        _ => {
            score += 100_000;
        },
    }
    match extraction.measure {
        PriceMeasure::Unknown => {},
        _ => {
            score += 100_000;
        },
    }
    if !extraction.source.is_unknown() {
        score += 100_000;
    }
    score
}

/// What the conflicts take off the score.
fn penalty(conflicts: &Vec<String>) -> (out: i128)
    ensures
        out == penalties(note_texts(conflicts@)),
        0 <= out <= 200_000 * conflicts.len(),
{
    let ghost all = note_texts(conflicts@);
    let mut sum: i128 = 0;
    let mut i: usize = 0;
    assert(all.take(0) =~= Seq::<Seq<char>>::empty());
    while i < conflicts.len()
        invariant
            i <= conflicts.len(),
            all == note_texts(conflicts@),
            sum == penalties(all.take(i as int)),
            0 <= sum <= 200_000 * i,
        decreases conflicts.len() - i,
    {
        proof {
            assert(all.take(i + 1).drop_last() =~= all.take(i as int));
            assert(all.take(i + 1).last() == conflicts@[i as int]@);
        }
        let conflict = conflicts[i].as_str();
        if contains_text(conflict, "time window") || contains_text(conflict, "Multiple price levels")
            || contains_text(conflict, "Ambiguous") {
            sum += 200_000;
        } else {
            sum += 100_000;
        }
        i += 1;
    }
    assert(all.take(conflicts.len() as int) =~= all);
    sum
}

/// What the proposition itself adds to the score.
fn bonus(proposition: &PropositionKind) -> (out: i128)
    ensures
        out == kind_bonus(*proposition),
        -300_000 <= out <= 100_000,
{
    match proposition {
        PropositionKind::PriceBarrier { window, measure, source, .. } => {
            let window_known = match window.kind {
                TimeWindowKind::Unknown => false,
                _ => true,
            };
            let measure_known = match measure {
                PriceMeasure::Unknown => false,
                _ => true,
            };
            if window_known && measure_known && !source.is_unknown() {
                100_000
            } else {
                0
            }
        },
        PropositionKind::Unknown => -300_000,
        PropositionKind::YesNoEvent { .. } => -100_000,
        PropositionKind::RangePartition { .. } => 0,
    }
}

/// The confidence in `proposition`, which was built from `extraction`.
pub fn compute_confidence(proposition: &PropositionKind, extraction: &ExtractionResult) -> (out: i64)
    ensures
        out == clamped(raw_confidence(*proposition, *extraction)),
        0 <= out <= CONFIDENCE_ONE,
{
    let score = gained(extraction) - penalty(&extraction.conflicts) + bonus(proposition);
    if score < 0 {
        0
    } else if score > CONFIDENCE_ONE as i128 {
        CONFIDENCE_ONE
    } else {
        score as i64
    }
}

/// Whether a confidence sends a proposition to human review.
pub fn needs_review(confidence: i64) -> (out: bool)
    ensures
        out == (confidence < REVIEW_THRESHOLD),
{
    confidence < REVIEW_THRESHOLD
}

/// A confidence by class.
#[derive(Clone, Copy, Debug, PartialEq, Eq, Structural)]
pub enum ConfidenceLevel {
    /// Eight tenths and more.
    High,
    /// Six tenths and more.
    Medium,
    /// Four tenths and more.
    Low,
    /// Less than four tenths.
    VeryLow,
}

impl ConfidenceLevel {
    /// The class of a confidence.
    pub fn from_score(score: i64) -> (out: ConfidenceLevel)
        ensures
            out == if score >= 800_000 {
                ConfidenceLevel::High
            } else if score >= 600_000 {
                ConfidenceLevel::Medium
            } else if score >= 400_000 {
                ConfidenceLevel::Low
            } else {
                ConfidenceLevel::VeryLow
            },
    {
        if score >= 800_000 {
            ConfidenceLevel::High
        } else if score >= 600_000 {
            ConfidenceLevel::Medium
        } else if score >= 400_000 {
            ConfidenceLevel::Low
        } else {
            ConfidenceLevel::VeryLow
        }
    }

    /// The name of the class.
    pub fn as_str(&self) -> (out: &'static str)
        ensures
            out@ == match *self {
                ConfidenceLevel::High => "high"@,
                ConfidenceLevel::Medium => "medium"@,
                ConfidenceLevel::Low => "low"@,
                ConfidenceLevel::VeryLow => "very_low"@,
            },
    {
        match self {
            ConfidenceLevel::High => "high",
            ConfidenceLevel::Medium => "medium",
            ConfidenceLevel::Low => "low",
            ConfidenceLevel::VeryLow => "very_low",
        }
    }
}

} // verus!
