//! From raw rules to normalized propositions.

use vstd::prelude::*;
use vstd::string::StringExecFns;
use crate::rules::confidence::{compute_confidence, text_confidence};
use crate::rules::extract::{
    extract_proposition, first_matching, note_texts, record_text, spec_comparator, spec_conflicts,
    spec_is_barrier, spec_level, spec_measure, spec_source, spec_text_notes, spec_window_kind,
    underlier_table,
};
use crate::rules::ingest::{sha256_hex_text, RulesRecord};
use crate::rules::proposition::{
    source_view, upper_text, NormalizedProposition, PropositionKind, TimeWindow,
};

verus! {

/// The notes of a normalized proposition: the notes of the extraction,
/// then each conflict behind `CONFLICT: `.
pub open spec fn with_conflicts(notes: Seq<Seq<char>>, conflicts: Seq<Seq<char>>) -> Seq<Seq<char>> {
    notes + conflicts.map_values(|c: Seq<char>| "CONFLICT: "@ + c)
}

/// What `normalize_rules` gives for `record`.
pub open spec fn normalized(record: RulesRecord, out: NormalizedProposition) -> bool {
    let text = record_text(record);
    let window = TimeWindow { kind: spec_window_kind(text), start_ts: None, end_ts: record.close_ts };
    &&& out.venue@ == record.venue@
    &&& out.market_id@ == record.market_id@
    &&& out.title@ == record.title@
    &&& out.outcome_id is Some == record.outcome_id is Some
    &&& out.outcome_id is Some ==> out.outcome_id->0@ == record.outcome_id->0@
    &&& out.raw_rules_hash@ == sha256_hex_text(vstd::utf8::encode_utf8(record.raw_rules_text@))
    &&& out.confidence == text_confidence(text)
    &&& note_texts(out.parse_notes@) == with_conflicts(spec_text_notes(text), spec_conflicts(text))
    &&& out.proposition is PriceBarrier == spec_is_barrier(text)
    &&& match out.proposition {
        PropositionKind::PriceBarrier { underlier, comparator, level, measure, window: w, source } => {
            &&& underlier.kind@ == upper_text(first_matching(text, underlier_table())->0)
            &&& Some(comparator) == spec_comparator(text)
            &&& Some(level) == spec_level(text)
            &&& measure == spec_measure(text)
            &&& w == window
            &&& source_view(source) == spec_source(text)
        },
        PropositionKind::YesNoEvent { description, window: w } => {
            &&& description@ == record.title@
            &&& w == window
        },
        _ => false,
    }
}

/// Normalizes one rules record: reads the proposition out of its text,
/// scores it, and notes what was found and what is in conflict. An event
/// takes the record's title as its description.
pub fn normalize_rules(record: &RulesRecord) -> (out: NormalizedProposition)
    ensures
        normalized(*record, out),
        0 <= out.confidence <= crate::rules::proposition::CONFIDENCE_ONE,
{
    let rules_hash = record.rules_hash();
    let (proposition, extraction) = extract_proposition(record);
    let confidence = compute_confidence(&proposition, &extraction);
    let ghost text = record_text(*record);
    assert(confidence == text_confidence(text));
    let mut np = NormalizedProposition::new(
        record.venue.as_str(),
        record.market_id.as_str(),
        record.title.as_str(),
        rules_hash.as_str(),
    );
    match &record.outcome_id {
        Some(outcome_id) => {
            np = np.with_outcome(outcome_id.as_str());
        },
        None => {},
    }
    let proposition = match proposition {
        PropositionKind::YesNoEvent { description: _, window } => PropositionKind::YesNoEvent {
            description: record.title.clone(),
            window,
        },
        other => other,
    };
    np = np.with_proposition(proposition).with_confidence(confidence);
    let ghost base = np;
    assert(note_texts(np.parse_notes@) =~= Seq::<Seq<char>>::empty());
    let ghost notes = note_texts(extraction.notes@);
    let ghost conflicts = note_texts(extraction.conflicts@);
    let mut i: usize = 0;
    while i < extraction.notes.len()
        invariant
            i <= extraction.notes.len(),
            notes == note_texts(extraction.notes@),
            np.venue == base.venue,
            np.market_id == base.market_id,
            np.title == base.title,
            np.outcome_id == base.outcome_id,
            np.raw_rules_hash == base.raw_rules_hash,
            np.confidence == base.confidence,
            np.proposition == base.proposition,
            note_texts(np.parse_notes@) == notes.take(i as int),
        decreases extraction.notes.len() - i,
    {
        let ghost before = np.parse_notes@;
        np = np.add_note(extraction.notes[i].as_str());
        proof {
            assert(np.parse_notes@ =~= before.push(np.parse_notes@.last()));
            assert(note_texts(np.parse_notes@) =~= notes.take(i as int).push(notes[i as int]));
            assert(notes.take(i + 1) =~= notes.take(i as int).push(notes[i as int]));
        }
        i += 1;
    }
    assert(notes.take(extraction.notes.len() as int) =~= notes);
    let mut j: usize = 0;
    assert(with_conflicts(notes, conflicts.take(0)) =~= notes);
    while j < extraction.conflicts.len()
        invariant
            j <= extraction.conflicts.len(),
            conflicts == note_texts(extraction.conflicts@),
            np.venue == base.venue,
            np.market_id == base.market_id,
            np.title == base.title,
            np.outcome_id == base.outcome_id,
            np.raw_rules_hash == base.raw_rules_hash,
            np.confidence == base.confidence,
            np.proposition == base.proposition,
            note_texts(np.parse_notes@) == with_conflicts(notes, conflicts.take(j as int)),
        decreases extraction.conflicts.len() - j,
    {
        let mut note = String::from_str("CONFLICT: ");
        note.append(extraction.conflicts[j].as_str());
        let ghost before = np.parse_notes@;
        np = np.add_note(note.as_str());
        proof {
            assert(np.parse_notes@ =~= before.push(np.parse_notes@.last()));
            let added = "CONFLICT: "@ + conflicts[j as int];
            assert(np.parse_notes@.last()@ == added);
            assert(conflicts.take(j + 1) =~= conflicts.take(j as int).push(conflicts[j as int]));
            assert(with_conflicts(notes, conflicts.take(j + 1)) =~= with_conflicts(
                notes,
                conflicts.take(j as int),
            ).push(added));
            assert(note_texts(np.parse_notes@) =~= note_texts(before).push(added));
        }
        j += 1;
    }
    assert(conflicts.take(extraction.conflicts.len() as int) =~= conflicts);
    np
}

/// Normalizes every record of `records`, in order.
pub fn normalize_batch(records: &[RulesRecord]) -> (out: Vec<NormalizedProposition>)
    ensures
        out.len() == records.len(),
        forall|i: int| 0 <= i < out.len() ==> normalized(records[i], #[trigger] out[i]),
{
    let mut out: Vec<NormalizedProposition> = Vec::new();
    let mut i: usize = 0;
    while i < records.len()
        invariant
            i <= records.len(),
            out.len() == i,
            forall|j: int| 0 <= j < i ==> normalized(records[j], #[trigger] out[j]),
        decreases records.len() - i,
    {
        out.push(normalize_rules(&records[i]));
        i += 1;
    }
    out
}

/// The positions of `propositions` that satisfy, or not, `confidence >=
/// min_confidence`.
pub open spec fn positions_by_confidence(confidences: Seq<i64>, min_confidence: i64, high: bool) -> Seq<
    usize,
>
    decreases confidences.len(),
{
    if confidences.len() == 0 {
        Seq::empty()
    } else if (confidences.last() >= min_confidence) == high {
        positions_by_confidence(confidences.drop_last(), min_confidence, high).push(
            (confidences.len() - 1) as usize,
        )
    } else {
        positions_by_confidence(confidences.drop_last(), min_confidence, high)
    }
}

/// Splits the propositions by confidence: the positions of those at or
/// above `min_confidence`, and the positions of the others.
pub fn filter_by_confidence(propositions: &[NormalizedProposition], min_confidence: i64) -> (out: (
    Vec<usize>,
    Vec<usize>,
))
    ensures
        out.0@ == positions_by_confidence(
            crate::rules::review_queue::confidences_of(propositions@),
            min_confidence,
            true,
        ),
        out.1@ == positions_by_confidence(
            crate::rules::review_queue::confidences_of(propositions@),
            min_confidence,
            false,
        ),
        out.0.len() + out.1.len() == propositions.len(),
        forall|j: int| 0 <= j < out.0.len() ==> (#[trigger] out.0[j]) < propositions.len(),
        forall|j: int| 0 <= j < out.1.len() ==> (#[trigger] out.1[j]) < propositions.len(),
{
    let ghost all = crate::rules::review_queue::confidences_of(propositions@);
    let mut high: Vec<usize> = Vec::new();
    let mut low: Vec<usize> = Vec::new();
    let mut i: usize = 0;
    assert(all.take(0) =~= Seq::<i64>::empty());
    while i < propositions.len()
        invariant
            i <= propositions.len(),
            all == crate::rules::review_queue::confidences_of(propositions@),
            high@ == positions_by_confidence(all.take(i as int), min_confidence, true),
            low@ == positions_by_confidence(all.take(i as int), min_confidence, false),
            high.len() + low.len() == i,
            forall|j: int| 0 <= j < high.len() ==> (#[trigger] high[j]) < i,
            forall|j: int| 0 <= j < low.len() ==> (#[trigger] low[j]) < i,
        decreases propositions.len() - i,
    {
        proof {
            assert(all.take(i + 1).drop_last() =~= all.take(i as int));
            assert(all.take(i + 1).last() == propositions@[i as int].confidence);
        }
        if propositions[i].confidence >= min_confidence {
            high.push(i);
        } else {
            low.push(i);
        }
        i += 1;
    }
    assert(all.take(propositions.len() as int) =~= all);
    (high, low)
}

/// The positions of the propositions that are price barriers.
pub fn get_price_barriers(propositions: &[NormalizedProposition]) -> (out: Vec<usize>)
    ensures
        forall|j: int|
            0 <= j < out.len() ==> (#[trigger] out[j]) < propositions.len()
                && propositions[out[j] as int].proposition is PriceBarrier,
        forall|i: int|
            0 <= i < propositions.len() && (#[trigger] propositions[i]).proposition is PriceBarrier
                ==> out@.contains(i as usize),
        forall|j: int, k: int| 0 <= j < k < out.len() ==> out[j] < out[k],
{
    let mut out: Vec<usize> = Vec::new();
    let mut i: usize = 0;
    while i < propositions.len()
        invariant
            i <= propositions.len(),
            forall|j: int|
                0 <= j < out.len() ==> (#[trigger] out[j]) < i
                    && propositions[out[j] as int].proposition is PriceBarrier,
            forall|k: int|
                0 <= k < i && (#[trigger] propositions[k]).proposition is PriceBarrier
                    ==> out@.contains(k as usize),
            forall|j: int, k: int| 0 <= j < k < out.len() ==> out[j] < out[k],
        decreases propositions.len() - i,
    {
        if propositions[i].proposition.is_price_barrier() {
            let ghost before = out@;
            out.push(i);
            proof {
                assert forall|k: int|
                    0 <= k < i + 1 && (#[trigger] propositions[k]).proposition is PriceBarrier
                    implies out@.contains(k as usize) by {
                    if k < i {
                        let j = choose|j: int| 0 <= j < before.len() && before[j] == k as usize;
                        assert(out@[j] == k as usize);
                    } else {
                        assert(out@[before.len() as int] == i);
                    }
                }
            }
        }
        i += 1;
    }
    out
}

/// The propositions about one underlier, by position.
pub struct UnderlierGroup {
    /// The underlier's kind.
    pub underlier: String,
    /// The positions of its propositions, in order.
    pub members: Vec<usize>,
}

/// The kind of the underlier of a proposition about a price.
pub open spec fn underlier_of(p: NormalizedProposition) -> Option<Seq<char>> {
    match p.proposition {
        PropositionKind::PriceBarrier { underlier, .. } => Some(underlier.kind@),
        PropositionKind::RangePartition { underlier, .. } => Some(underlier.kind@),
        _ => None,
    }
}

/// The underliers of the propositions about a price, each once, in the
/// order in which they first occur.
pub open spec fn underliers_of(props: Seq<NormalizedProposition>) -> Seq<Seq<char>>
    decreases props.len(),
{
    if props.len() == 0 {
        Seq::empty()
    } else {
        let before = underliers_of(props.drop_last());
        match underlier_of(props.last()) {
            Some(kind) => if before.contains(kind) {
                before
            } else {
                before.push(kind)
            },
            None => before,
        }
    }
}

/// The positions of the propositions about the underlier `kind`, in order.
pub open spec fn positions_of(props: Seq<NormalizedProposition>, kind: Seq<char>) -> Seq<usize>
    decreases props.len(),
{
    if props.len() == 0 {
        Seq::empty()
    } else if underlier_of(props.last()) == Some(kind) {
        positions_of(props.drop_last(), kind).push((props.len() - 1) as usize)
    } else {
        positions_of(props.drop_last(), kind)
    }
}

/// The texts of a list of strings.
pub open spec fn kinds(list: Seq<String>) -> Seq<Seq<char>> {
    list.map_values(|k: String| k@)
}

/// Whether `list` holds the text `text`.
fn holds(list: &Vec<String>, text: &str) -> (found: bool)
    ensures
        found == kinds(list@).contains(text@),
{
    let mut i: usize = 0;
    while i < list.len()
        invariant
            i <= list.len(),
            forall|j: int| 0 <= j < i ==> kinds(list@)[j] != text@,
        decreases list.len() - i,
    {
        if crate::text::str_eq(list[i].as_str(), text) {
            assert(kinds(list@)[i as int] == text@);
            return true;
        }
        i += 1;
    }
    false
}

/// Groups the propositions about a price by their underlier. The groups
/// come in the order in which their underliers first occur, and each holds
/// the positions of its propositions in order.
pub fn group_by_underlier(propositions: &[NormalizedProposition]) -> (out: Vec<UnderlierGroup>)
    ensures
        out.len() == underliers_of(propositions@).len(),
        forall|g: int|
            0 <= g < out.len() ==> {
                &&& (#[trigger] out[g]).underlier@ == underliers_of(propositions@)[g]
                &&& out[g].members@ == positions_of(propositions@, underliers_of(propositions@)[g])
            },
{
    let ghost all = propositions@;
    let mut names: Vec<String> = Vec::new();
    let mut i: usize = 0;
    assert(kinds(names@) =~= Seq::<Seq<char>>::empty());
    assert(all.take(0) =~= Seq::<NormalizedProposition>::empty());
    while i < propositions.len()
        invariant
            i <= propositions.len(),
            all == propositions@,
            kinds(names@) == underliers_of(all.take(i as int)),
        decreases propositions.len() - i,
    {
        proof {
            assert(all.take(i + 1).drop_last() =~= all.take(i as int));
            assert(all.take(i + 1).last() == all[i as int]);
        }
        match propositions[i].proposition.underlier() {
            Some(underlier) => {
                if !holds(&names, underlier.kind.as_str()) {
                    let name = underlier.kind.clone();
                    assert(kinds(names@.push(name)) =~= kinds(names@).push(name@));
                    names.push(name);
                }
            },
            None => {},
        }
        i += 1;
    }
    assert(all.take(propositions.len() as int) =~= all);
    let mut out: Vec<UnderlierGroup> = Vec::new();
    let mut g: usize = 0;
    while g < names.len()
        invariant
            g <= names.len(),
            all == propositions@,
            kinds(names@) == underliers_of(all),
            out.len() == g,
            forall|h: int|
                0 <= h < g ==> {
                    &&& (#[trigger] out[h]).underlier@ == underliers_of(all)[h]
                    &&& out[h].members@ == positions_of(all, underliers_of(all)[h])
                },
        decreases names.len() - g,
    {
        assert(kinds(names@)[g as int] == names@[g as int]@);
        let mut members: Vec<usize> = Vec::new();
        let mut j: usize = 0;
        assert(all.take(0) =~= Seq::<NormalizedProposition>::empty());
        while j < propositions.len()
            invariant
                j <= propositions.len(),
                g < names.len(),
                all == propositions@,
                members@ == positions_of(all.take(j as int), names@[g as int]@),
            decreases propositions.len() - j,
        {
            proof {
                assert(all.take(j + 1).drop_last() =~= all.take(j as int));
                assert(all.take(j + 1).last() == all[j as int]);
            }
            let same = match propositions[j].proposition.underlier() {
                Some(underlier) => crate::text::str_eq(
                    underlier.kind.as_str(),
                    names[g].as_str(),
                ),
                None => false,
            };
            if same {
                members.push(j);
            }
            j += 1;
        }
        assert(all.take(propositions.len() as int) =~= all);
        out.push(UnderlierGroup { underlier: names[g].clone(), members });
        g += 1;
    }
    assert(kinds(names@).len() == names.len());
    out
}

} // verus!
