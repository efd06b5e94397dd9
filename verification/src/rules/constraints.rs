//! Constraints between the prices of markets, derived from propositions.

use vstd::prelude::*;
use vstd::string::{StrSliceExecFns, StringExecFns};
use vstd::utf8::encode_utf8;
use crate::rules::ingest::{sha256_hex, sha256_hex_text};
use crate::ranking::{arranged, ranking, stable_order};
use crate::rules::ingest::{round_units, rounded_units};
use crate::rules::normalize::{filter_by_confidence, positions_by_confidence};
use crate::rules::proposition::{
    same_proposition, NormalizedProposition, PriceMeasure, PriceSource, PropositionKind,
    TimeWindowKind,
};
use crate::rules::review_queue::confidences_of;
use crate::text::{decimal, push_decimal, str_eq};

verus! {

/// A relation between the probabilities of two markets.
#[derive(Clone, Debug)]
pub struct Constraint {
    pub id: String,
    pub venue: String,
    /// `monotonic_ladder`.
    pub constraint_type: String,
    pub a_market_id: String,
    pub a_outcome_id: Option<String>,
    pub b_market_id: String,
    pub b_outcome_id: Option<String>,
    /// Such as `P(A) <= P(B)`.
    pub relation: String,
    /// In millionths.
    pub confidence: i64,
    pub notes: Vec<String>,
    /// The hash of what the two markets share.
    pub group_key: String,
}

/// The bytes of four texts, one after the other.
pub open spec fn id_bytes(venue: Seq<char>, a_market: Seq<char>, b_market: Seq<char>, kind: Seq<char>) -> Seq<
    u8,
> {
    encode_utf8(venue) + encode_utf8(a_market) + encode_utf8(b_market) + encode_utf8(kind)
}

/// Appends the bytes of `text` to `bytes`.
fn push_text(bytes: &mut Vec<u8>, text: &str)
    ensures
        final(bytes)@ == old(bytes)@ + encode_utf8(text@),
{
    bytes.extend_from_slice(text.as_bytes());
}

/// The first 16 hex digits of the SHA-256 of `bytes`.
fn short_hash(bytes: &Vec<u8>) -> (out: String)
    ensures
        out@ == sha256_hex_text(bytes@).take(16),
{
    let hex = sha256_hex(bytes.as_slice());
    let head = hex.as_str().substring_char(0, 16);
    assert(hex@.subrange(0, 16) =~= hex@.take(16));
    head.to_owned()
}

impl Constraint {
    /// The id of a constraint: the first 16 hex digits of the SHA-256 of
    /// venue, first market, second market and constraint type.
    pub fn generate_id(venue: &str, a_market: &str, b_market: &str, constraint_type: &str) -> (out:
        String)
        ensures
            out@ == sha256_hex_text(id_bytes(venue@, a_market@, b_market@, constraint_type@)).take(
                16,
            ),
    {
        let mut bytes: Vec<u8> = Vec::new();
        push_text(&mut bytes, venue);
        push_text(&mut bytes, a_market);
        push_text(&mut bytes, b_market);
        push_text(&mut bytes, constraint_type);
        assert(bytes@ =~= id_bytes(venue@, a_market@, b_market@, constraint_type@));
        short_hash(&bytes)
    }
}

/// The fields of a ladder key as texts: underlier, direction, kind of
/// window, end bucket, source, measure.
pub type KeyText = (Seq<char>, Seq<char>, Seq<char>, Option<i64>, Seq<char>, Seq<char>);

/// The key of the ladder that a proposition belongs to, as texts.
pub open spec fn key_text(prop: PropositionKind) -> Option<KeyText> {
    match prop {
        PropositionKind::PriceBarrier { underlier, comparator, level, measure, window, source } => Some(
            (
                underlier.kind@,
                if comparator.spec_is_downward() {
                    "down"@
                } else {
                    "up"@
                },
                window_kind_text(window.kind),
                match window.end_ts {
                    Some(ts) => Some(bucket_of_end(ts)),
                    None => None,
                },
                source_text(source),
                measure_text(measure),
            ),
        ),
        _ => None,
    }
}

/// The level of a price barrier, and 0 for any other proposition.
pub open spec fn level_of(prop: PropositionKind) -> i64 {
    match prop {
        PropositionKind::PriceBarrier { level, .. } => level,
        _ => 0,
    }
}

/// What the propositions of one ladder share.
#[derive(Clone, Debug, PartialEq, Eq, Hash)]
pub struct LadderGroupKey {
    pub underlier: String,
    /// `up` or `down`.
    pub comparator_direction: String,
    pub window_kind: String,
    /// The end of the window in buckets of five minutes.
    pub window_end_bucket: Option<i64>,
    pub source: String,
    pub measure: String,
}

/// The name of a kind of time window.
pub open spec fn window_kind_text(kind: TimeWindowKind) -> Seq<char> {
    match kind {
        TimeWindowKind::Unknown => "Unknown"@,
        TimeWindowKind::AnyTimeBefore => "AnyTimeBefore"@,
        TimeWindowKind::AtClose => "AtClose"@,
        TimeWindowKind::AtTime => "AtTime"@,
        TimeWindowKind::DuringInterval => "DuringInterval"@,
    }
}

/// The name of a kind of time window.
pub fn window_kind_name(kind: TimeWindowKind) -> (out: &'static str)
    ensures
        out@ == window_kind_text(kind),
{
    match kind {
        TimeWindowKind::Unknown => "Unknown",
        TimeWindowKind::AnyTimeBefore => "AnyTimeBefore",
        TimeWindowKind::AtClose => "AtClose",
        TimeWindowKind::AtTime => "AtTime",
        TimeWindowKind::DuringInterval => "DuringInterval",
    }
}

/// The name of a price measure.
pub open spec fn measure_text(measure: PriceMeasure) -> Seq<char> {
    match measure {
        PriceMeasure::Unknown => "Unknown"@,
        PriceMeasure::Spot => "Spot"@,
        PriceMeasure::Close => "Close"@,
        PriceMeasure::VWAP => "VWAP"@,
        PriceMeasure::TWAP => "TWAP"@,
    }
}

/// The name of a price measure.
pub fn measure_name(measure: PriceMeasure) -> (out: &'static str)
    ensures
        out@ == measure_text(measure),
{
    match measure {
        PriceMeasure::Unknown => "Unknown",
        PriceMeasure::Spot => "Spot",
        PriceMeasure::Close => "Close",
        PriceMeasure::VWAP => "VWAP",
        PriceMeasure::TWAP => "TWAP",
    }
}

/// The text `text` as `Debug` writes a string: in double quotes, with
/// escapes.
pub uninterp spec fn quoted_text(text: Seq<char>) -> Seq<char>;

/// `Debug` for `str` from std, through `format!`: the text in quotes, which
/// depends on the text alone.
#[verifier::external_body]
fn quoted(text: &str) -> (out: String)
    ensures
        out@ == quoted_text(text@),
{
    format!("{:?}", text)
}

/// A price source as text: `Unknown`, or its kind with its name in quotes
/// and round brackets.
pub open spec fn source_text(source: PriceSource) -> Seq<char> {
    match source {
        PriceSource::Unknown => "Unknown"@,
        PriceSource::Exchange(name) => "Exchange("@ + quoted_text(name@) + ")"@,
        PriceSource::Index(name) => "Index("@ + quoted_text(name@) + ")"@,
        PriceSource::VenueDefined(name) => "VenueDefined("@ + quoted_text(name@) + ")"@,
    }
}

/// A price source as text.
pub fn source_name(source: &PriceSource) -> (out: String)
    ensures
        out@ == source_text(*source),
{
    let (kind, name) = match source {
        PriceSource::Unknown => {
            return String::from_str("Unknown");
        },
        PriceSource::Exchange(name) => ("Exchange(", name),
        PriceSource::Index(name) => ("Index(", name),
        PriceSource::VenueDefined(name) => ("VenueDefined(", name),
    };
    let mut out = String::from_str(kind);
    out.append(quoted(name.as_str()).as_str());
    out.append(")");
    out
}

/// The eight bytes of `x`, lowest first.
pub open spec fn le_bytes(x: i64) -> Seq<u8> {
    let u = if x >= 0 {
        x as int
    } else {
        x + 0x1_0000_0000_0000_0000
    };
    seq![
        (u % 256) as u8,
        (u / 0x100 % 256) as u8,
        (u / 0x1_0000 % 256) as u8,
        (u / 0x100_0000 % 256) as u8,
        (u / 0x1_0000_0000 % 256) as u8,
        (u / 0x100_0000_0000 % 256) as u8,
        (u / 0x1_0000_0000_0000 % 256) as u8,
        (u / 0x100_0000_0000_0000 % 256) as u8,
    ]
}

/// `i64::to_le_bytes` from std: the bytes of the number's representation
/// in two's complement, lowest first.
#[verifier::external_body]
fn to_le_bytes(x: i64) -> (out: [u8; 8])
    ensures
        out@ == le_bytes(x),
{
    x.to_le_bytes()
}

impl LadderGroupKey {
    /// The bytes that the hash of the key is taken of.
    pub open spec fn hash_bytes(&self) -> Seq<u8> {
        encode_utf8(self.underlier@) + encode_utf8(self.comparator_direction@) + encode_utf8(
            self.window_kind@,
        ) + (match self.window_end_bucket {
            Some(bucket) => le_bytes(bucket),
            None => Seq::empty(),
        }) + encode_utf8(self.source@) + encode_utf8(self.measure@)
    }

    /// The fields of the key as texts.
    pub open spec fn text(&self) -> KeyText {
        (
            self.underlier@,
            self.comparator_direction@,
            self.window_kind@,
            self.window_end_bucket,
            self.source@,
            self.measure@,
        )
    }

    /// Whether two keys are of one ladder.
    pub fn same_as(&self, other: &LadderGroupKey) -> (out: bool)
        ensures
            out == (self.text() == other.text()),
    {
        let bucket = match (self.window_end_bucket, other.window_end_bucket) {
            (Some(a), Some(b)) => a == b,
            (None, None) => true,
            _ => false,
        };
        self.underlier == other.underlier && self.comparator_direction
            == other.comparator_direction && self.window_kind == other.window_kind && bucket
            && self.source == other.source && self.measure == other.measure
    }

    /// The key of the ladder that a price barrier belongs to; none for any
    /// other proposition.
    pub fn from_proposition(prop: &PropositionKind) -> (out: Option<LadderGroupKey>)
        ensures
            out is Some == key_text(*prop) is Some,
            out is Some ==> out->0.text() == key_text(*prop)->0,
            match *prop {
                PropositionKind::PriceBarrier {
                    underlier,
                    comparator,
                    level,
                    measure,
                    window,
                    source,
                } => {
                    &&& out is Some
                    &&& out->0.underlier@ == underlier.kind@
                    &&& out->0.comparator_direction@ == if comparator.spec_is_downward() {
                        "down"@
                    } else {
                        "up"@
                    }
                    &&& out->0.window_kind@ == window_kind_text(window.kind)
                    &&& out->0.window_end_bucket == match window.end_ts {
                        Some(ts) => Some(bucket_of_end(ts)),
                        None => None,
                    }
                    &&& out->0.source@ == source_text(source)
                    &&& out->0.measure@ == measure_text(measure)
                },
                _ => out is None,
            },
    {
        match prop {
            PropositionKind::PriceBarrier { underlier, comparator, window, source, measure, .. } => {
                let direction = if comparator.is_upward() {
                    "up"
                } else {
                    "down"
                };
                let window_end_bucket = match window.end_ts {
                    Some(ts) => Some(end_bucket(ts)),
                    None => None,
                };
                Some(
                    LadderGroupKey {
                        underlier: underlier.kind.clone(),
                        comparator_direction: direction.to_owned(),
                        window_kind: window_kind_name(window.kind).to_owned(),
                        window_end_bucket,
                        source: source_name(source),
                        measure: measure_name(*measure).to_owned(),
                    },
                )
            },
            _ => None,
        }
    }

    /// The hash of the key: the first 16 hex digits of the SHA-256 of its
    /// fields.
    pub fn to_hash(&self) -> (out: String)
        ensures
            out@ == sha256_hex_text(self.hash_bytes()).take(16),
    {
        let mut bytes: Vec<u8> = Vec::new();
        push_text(&mut bytes, self.underlier.as_str());
        push_text(&mut bytes, self.comparator_direction.as_str());
        push_text(&mut bytes, self.window_kind.as_str());
        match self.window_end_bucket {
            Some(bucket) => {
                let le = to_le_bytes(bucket);
                bytes.extend_from_slice(le.as_slice());
            },
            None => {},
        }
        push_text(&mut bytes, self.source.as_str());
        push_text(&mut bytes, self.measure.as_str());
        assert(bytes@ =~= self.hash_bytes());
        short_hash(&bytes)
    }
}

/// The bucket of five minutes of a time in epoch milliseconds, rounded
/// towards zero.
pub open spec fn bucket_of_end(ts: i64) -> i64 {
    if ts >= 0 {
        (ts / 300_000) as i64
    } else {
        (-((-ts) / 300_000)) as i64
    }
}

/// The bucket of five minutes of a time in epoch milliseconds.
pub fn end_bucket(ts: i64) -> (out: i64)
    ensures
        out == bucket_of_end(ts),
{
    if ts >= 0 {
        ts / 300_000
    } else {
        let back: i128 = -(ts as i128);
        (-(back / 300_000)) as i64
    }
}

/// How constraints are generated.
#[derive(Clone, Copy, Debug, PartialEq, Eq, Structural)]
pub struct ConstraintConfig {
    /// The least confidence of a proposition that is used, in millionths.
    pub min_confidence: i64,
    /// How far the ends of two windows may lie apart, in milliseconds.
    pub time_tolerance_ms: i64,
}

impl Default for ConstraintConfig {
    fn default() -> (out: ConstraintConfig)
        ensures
            out == (ConstraintConfig { min_confidence: 500_000, time_tolerance_ms: 300_000 }),
    {
        ConstraintConfig { min_confidence: 500_000, time_tolerance_ms: 300_000 }
    }
}

/// The positions before `upto` of the propositions of the ladder `key`,
/// in order.
pub open spec fn members_of(props: Seq<NormalizedProposition>, key: KeyText, upto: int) -> Seq<usize>
    decreases upto,
{
    if upto <= 0 {
        Seq::empty()
    } else if key_text(props[upto - 1].proposition) == Some(key) {
        members_of(props, key, upto - 1).push((upto - 1) as usize)
    } else {
        members_of(props, key, upto - 1)
    }
}

/// Whether the proposition at `i` is the first of its ladder.
pub open spec fn is_leader(props: Seq<NormalizedProposition>, i: int) -> bool {
    &&& key_text(props[i].proposition) is Some
    &&& forall|j: int|
        0 <= j < i ==> key_text(#[trigger] props[j].proposition) != key_text(props[i].proposition)
}

/// The levels of the propositions at `members`, as sorting keys.
pub open spec fn levels_of(props: Seq<NormalizedProposition>, members: Seq<usize>) -> Seq<i128> {
    members.map_values(|m: usize| level_of(props[m as int].proposition) as i128)
}

/// The propositions at `members` by ascending level; those of one level
/// keep their order.
pub open spec fn ladder_of(props: Seq<NormalizedProposition>, members: Seq<usize>) -> Seq<usize> {
    arranged(members, ranking(levels_of(props, members), false))
}

/// The harder and the easier of two rungs of a ladder: going up the
/// higher level is the harder one, going down the lower.
pub open spec fn pair_of(low: usize, high: usize, up: bool) -> (usize, usize) {
    if up {
        (high, low)
    } else {
        (low, high)
    }
}

/// The pairs of rung `a` with each rung above it.
pub open spec fn row_pairs(sorted: Seq<usize>, up: bool, a: int, above: int) -> Seq<(usize, usize)>
    decreases above,
{
    if above <= 0 {
        Seq::empty()
    } else {
        row_pairs(sorted, up, a, above - 1).push(pair_of(sorted[a], sorted[a + above], up))
    }
}

/// The pairs of the first `rows` rungs, each with every rung above it.
pub open spec fn group_pairs(sorted: Seq<usize>, up: bool, rows: int) -> Seq<(usize, usize)>
    decreases rows,
{
    if rows <= 0 {
        Seq::empty()
    } else {
        group_pairs(sorted, up, rows - 1) + row_pairs(
            sorted,
            up,
            rows - 1,
            sorted.len() - rows,
        )
    }
}

/// The pairs of the ladder that the proposition at `i` leads.
pub open spec fn leader_pairs(props: Seq<NormalizedProposition>, i: int) -> Seq<(usize, usize)> {
    let key = key_text(props[i].proposition)->0;
    let sorted = ladder_of(props, members_of(props, key, props.len() as int));
    group_pairs(sorted, key.1 == "up"@, sorted.len() as int)
}

/// The pairs, harder proposition first, of all ladders whose first
/// proposition stands before `upto`, ladder by ladder in the order of their
/// first propositions.
pub open spec fn ladder_pairs_upto(props: Seq<NormalizedProposition>, upto: int) -> Seq<(usize, usize)>
    decreases upto,
{
    if upto <= 0 {
        Seq::empty()
    } else if is_leader(props, upto - 1) {
        ladder_pairs_upto(props, upto - 1) + leader_pairs(props, upto - 1)
    } else {
        ladder_pairs_upto(props, upto - 1)
    }
}

/// The keys of the propositions, in order.
fn ladder_keys(props: &[NormalizedProposition]) -> (keys: Vec<Option<LadderGroupKey>>)
    ensures
        keys.len() == props.len(),
        forall|j: int|
            0 <= j < keys.len() ==> {
                &&& (#[trigger] keys[j]) is Some == key_text(props[j].proposition) is Some
                &&& keys[j] is Some ==> keys[j]->0.text() == key_text(props[j].proposition)->0
            },
{
    let mut keys: Vec<Option<LadderGroupKey>> = Vec::new();
    let mut i: usize = 0;
    while i < props.len()
        invariant
            i <= props.len(),
            keys.len() == i,
            forall|j: int|
                0 <= j < i ==> {
                    &&& (#[trigger] keys[j]) is Some == key_text(props[j].proposition) is Some
                    &&& keys[j] is Some ==> keys[j]->0.text() == key_text(props[j].proposition)->0
                },
        decreases props.len() - i,
    {
        keys.push(LadderGroupKey::from_proposition(&props[i].proposition));
        i += 1;
    }
    keys
}

/// The level of a price barrier, and 0 for any other proposition.
fn barrier_level(prop: &PropositionKind) -> (out: i64)
    ensures
        out == level_of(*prop),
{
    match prop {
        PropositionKind::PriceBarrier { level, .. } => *level,
        _ => 0,
    }
}

/// The rungs of the ladder `key`, by ascending level.
fn sorted_members(
    props: &[NormalizedProposition],
    keys: &Vec<Option<LadderGroupKey>>,
    key: &LadderGroupKey,
) -> (sorted: Vec<usize>)
    requires
        keys.len() == props.len(),
        forall|j: int|
            0 <= j < keys.len() ==> {
                &&& (#[trigger] keys[j]) is Some == key_text(props[j].proposition) is Some
                &&& keys[j] is Some ==> keys[j]->0.text() == key_text(props[j].proposition)->0
            },
    ensures
        sorted@ == ladder_of(props@, members_of(props@, key.text(), props.len() as int)),
        forall|j: int| 0 <= j < sorted.len() ==> (#[trigger] sorted[j]) < props.len(),
{
    let mut members: Vec<usize> = Vec::new();
    let mut levels: Vec<i128> = Vec::new();
    let mut j: usize = 0;
    while j < props.len()
        invariant
            j <= props.len(),
            keys.len() == props.len(),
            forall|k: int|
                0 <= k < keys.len() ==> {
                    &&& (#[trigger] keys[k]) is Some == key_text(props[k].proposition) is Some
                    &&& keys[k] is Some ==> keys[k]->0.text() == key_text(props[k].proposition)->0
                },
            members@ == members_of(props@, key.text(), j as int),
            levels@ == levels_of(props@, members@),
            forall|k: int| 0 <= k < members.len() ==> (#[trigger] members[k]) < j,
        decreases props.len() - j,
    {
        let same = match &keys[j] {
            Some(other) => other.same_as(key),
            None => false,
        };
        if same {
            members.push(j);
            levels.push(barrier_level(&props[j].proposition) as i128);
            assert(levels@ =~= levels_of(props@, members@));
        }
        j += 1;
    }
    let order = stable_order(&levels, false);
    let mut sorted: Vec<usize> = Vec::new();
    let mut k: usize = 0;
    while k < order.len()
        invariant
            k <= order.len(),
            order.len() == members.len(),
            forall|x: int| 0 <= x < order.len() ==> (#[trigger] order[x]) < members.len(),
            forall|x: int| 0 <= x < members.len() ==> (#[trigger] members[x]) < props.len(),
            sorted.len() == k,
            forall|x: int| 0 <= x < k ==> sorted[x] == members[order[x] as int],
        decreases order.len() - k,
    {
        sorted.push(members[order[k]]);
        k += 1;
    }
    assert(sorted@ =~= arranged(members@, order@));
    sorted
}

/// The pairs, harder proposition first, of all ladders among
/// `propositions`. A ladder is made of the price barriers that share
/// underlier, direction, window, source and measure; its rungs are sorted
/// by level, and each rung is paired with every rung above it.
pub fn ladder_pairs(propositions: &[NormalizedProposition]) -> (out: Vec<(usize, usize)>)
    ensures
        out@ == ladder_pairs_upto(propositions@, propositions.len() as int),
        forall|k: int|
            0 <= k < out.len() ==> (#[trigger] out[k]).0 < propositions.len() && out[k].1
                < propositions.len(),
{
    let keys = ladder_keys(propositions);
    let mut out: Vec<(usize, usize)> = Vec::new();
    let mut i: usize = 0;
    while i < propositions.len()
        invariant
            i <= propositions.len(),
            keys.len() == propositions.len(),
            forall|j: int|
                0 <= j < keys.len() ==> {
                    &&& (#[trigger] keys[j]) is Some == key_text(propositions[j].proposition) is Some
                    &&& keys[j] is Some ==> keys[j]->0.text() == key_text(
                        propositions[j].proposition,
                    )->0
                },
            out@ == ladder_pairs_upto(propositions@, i as int),
            forall|k: int|
                0 <= k < out.len() ==> (#[trigger] out[k]).0 < propositions.len() && out[k].1
                    < propositions.len(),
        decreases propositions.len() - i,
    {
        match &keys[i] {
            Some(key) => {
                // Is an earlier proposition of the same ladder?
                let mut first = true;
                let mut j: usize = 0;
                while j < i && first
                    invariant
                        j <= i < keys.len(),
                        keys.len() == propositions.len(),
                        keys[i as int] == Some(*key),
                        forall|x: int|
                            0 <= x < keys.len() ==> {
                                &&& (#[trigger] keys[x]) is Some == key_text(
                                    propositions[x].proposition,
                                ) is Some
                                &&& keys[x] is Some ==> keys[x]->0.text() == key_text(
                                    propositions[x].proposition,
                                )->0
                            },
                        first ==> forall|x: int|
                            0 <= x < j ==> key_text(#[trigger] propositions[x].proposition)
                                != key_text(propositions[i as int].proposition),
                        !first ==> !is_leader(propositions@, i as int),
                    decreases i - j + if first { 1int } else { 0int },
                {
                    let same = match &keys[j] {
                        Some(other) => other.same_as(key),
                        None => false,
                    };
                    if same {
                        first = false;
                        assert(key_text(propositions[j as int].proposition) == key_text(
                            propositions[i as int].proposition,
                        ));
                    } else {
                        j += 1;
                    }
                }
                if first {
                    assert(is_leader(propositions@, i as int));
                    let sorted = sorted_members(propositions, &keys, key);
                    let up = str_eq(key.comparator_direction.as_str(), "up");
                    let ghost base = out@;
                    let mut a: usize = 0;
                    while a < sorted.len()
                        invariant
                            a <= sorted.len(),
                            forall|x: int|
                                0 <= x < sorted.len() ==> (#[trigger] sorted[x])
                                    < propositions.len(),
                            out@ == base + group_pairs(sorted@, up, a as int),
                            forall|k: int|
                                0 <= k < out.len() ==> (#[trigger] out[k]).0 < propositions.len()
                                    && out[k].1 < propositions.len(),
                        decreases sorted.len() - a,
                    {
                        let ghost row_base = out@;
                        let mut b: usize = a + 1;
                        while b < sorted.len()
                            invariant
                                a < b <= sorted.len(),
                                forall|x: int|
                                    0 <= x < sorted.len() ==> (#[trigger] sorted[x])
                                        < propositions.len(),
                                out@ == row_base + row_pairs(sorted@, up, a as int, b - a - 1),
                                forall|k: int|
                                    0 <= k < out.len() ==> (#[trigger] out[k]).0
                                        < propositions.len() && out[k].1 < propositions.len(),
                            decreases sorted.len() - b,
                        {
                            let pair = if up {
                                (sorted[b], sorted[a])
                            } else {
                                (sorted[a], sorted[b])
                            };
                            out.push(pair);
                            proof {
                                assert(row_pairs(sorted@, up, a as int, b - a) == row_pairs(
                                    sorted@,
                                    up,
                                    a as int,
                                    b - a - 1,
                                ).push(pair));
                                assert(out@ =~= row_base + row_pairs(sorted@, up, a as int, b - a));
                            }
                            b += 1;
                        }
                        proof {
                            assert(out@ =~= base + group_pairs(sorted@, up, a + 1));
                        }
                        a += 1;
                    }
                }
            },
            None => {},
        }
        i += 1;
    }
    out
}

/// A level in whole dollars: rounded to the nearest and a half to the
/// even one, with a minus sign where the level is negative.
pub open spec fn strike_text(level: i64) -> Seq<char> {
    if level >= 0 {
        decimal(rounded_units(level) as nat)
    } else if level == i64::MIN {
        seq!['-'] + decimal(9_223_372_036_855)
    } else {
        seq!['-'] + decimal(rounded_units((-level) as i64) as nat)
    }
}

/// Appends a level in whole dollars.
fn push_strike(text: &mut String, level: i64)
    ensures
        final(text)@ == old(text)@ + strike_text(level),
{
    proof {
        reveal_strlit("-");
    }
    let ghost start = text@;
    if level >= 0 {
        push_decimal(text, round_units(level));
    } else if level == i64::MIN {
        text.append("-");
        push_decimal(text, 9_223_372_036_855);
        assert(text@ =~= start + strike_text(level));
    } else {
        text.append("-");
        push_decimal(text, round_units(-level));
        assert(text@ =~= start + strike_text(level));
    }
}

/// The relation of a ladder constraint: the probability of the harder
/// barrier is at most that of the easier one.
pub open spec fn relation_text(underlier: Seq<char>, up: bool, harder: i64, easier: i64) -> Seq<char> {
    let op = if up {
        ">="@
    } else {
        "<="@
    };
    "P("@ + underlier + " "@ + op + " $"@ + strike_text(harder) + ") <= P("@ + underlier + " "@ + op
        + " $"@ + strike_text(easier) + ")"@
}

/// Whether `c` is the ladder constraint between the propositions `harder`
/// and `easier` of one ladder: it asks that `harder` be no more probable
/// than `easier`.
pub open spec fn ladder_constraint(
    c: Constraint,
    harder: NormalizedProposition,
    easier: NormalizedProposition,
) -> bool {
    let key = key_text(harder.proposition)->0;
    &&& c.id@ == sha256_hex_text(
        id_bytes(harder.venue@, harder.market_id@, easier.market_id@, "monotonic_ladder"@),
    ).take(16)
    &&& c.venue@ == harder.venue@
    &&& c.constraint_type@ == "monotonic_ladder"@
    &&& c.a_market_id@ == harder.market_id@
    &&& c.a_outcome_id is Some == harder.outcome_id is Some
    &&& c.a_outcome_id is Some ==> c.a_outcome_id->0@ == harder.outcome_id->0@
    &&& c.b_market_id@ == easier.market_id@
    &&& c.b_outcome_id is Some == easier.outcome_id is Some
    &&& c.b_outcome_id is Some ==> c.b_outcome_id->0@ == easier.outcome_id->0@
    &&& c.relation@ == relation_text(
        key.0,
        key.1 == "up"@,
        level_of(harder.proposition),
        level_of(easier.proposition),
    )
    &&& c.confidence == (harder.confidence + easier.confidence) / 2
    &&& c.notes.len() == 3
    &&& c.notes[0]@ == "Underlier: "@ + key.0
    &&& c.notes[1]@ == "Window: "@ + quoted_text(key.2)
    &&& c.notes[2]@ == "Direction: "@ + key.1
    &&& c.group_key@ == sha256_hex_text(
        encode_utf8(key.0) + encode_utf8(key.1) + encode_utf8(key.2) + (match key.3 {
            Some(bucket) => le_bytes(bucket),
            None => Seq::empty(),
        }) + encode_utf8(key.4) + encode_utf8(key.5),
    ).take(16)
}

/// A text behind a label.
fn labelled(label: &str, text: &str) -> (out: String)
    ensures
        out@ == label@ + text@,
{
    let mut out = String::from_str(label);
    out.append(text);
    out
}

/// The ladder constraint between two price barriers of one ladder.
fn make_ladder_constraint(harder: &NormalizedProposition, easier: &NormalizedProposition) -> (out:
    Constraint)
    requires
        key_text(harder.proposition) is Some,
    ensures
        ladder_constraint(out, *harder, *easier),
{
    let key = LadderGroupKey::from_proposition(&harder.proposition).unwrap();
    let up = str_eq(key.comparator_direction.as_str(), "up");
    let op = if up {
        ">="
    } else {
        "<="
    };
    let mut relation = String::from_str("P(");
    relation.append(key.underlier.as_str());
    relation.append(" ");
    relation.append(op);
    relation.append(" $");
    push_strike(&mut relation, barrier_level(&harder.proposition));
    relation.append(") <= P(");
    relation.append(key.underlier.as_str());
    relation.append(" ");
    relation.append(op);
    relation.append(" $");
    push_strike(&mut relation, barrier_level(&easier.proposition));
    relation.append(")");
    assert(relation@ =~= relation_text(
        key.underlier@,
        up,
        level_of(harder.proposition),
        level_of(easier.proposition),
    ));
    let sum: i128 = harder.confidence as i128 + easier.confidence as i128;
    let confidence: i64 = if sum >= 0 {
        (sum / 2) as i64
    } else {
        (-((1 - sum) / 2)) as i64
    };
    let mut notes: Vec<String> = Vec::new();
    notes.push(labelled("Underlier: ", key.underlier.as_str()));
    notes.push(labelled("Window: ", quoted(key.window_kind.as_str()).as_str()));
    notes.push(labelled("Direction: ", key.comparator_direction.as_str()));
    let group_key = key.to_hash();
    proof {
        let t = key_text(harder.proposition)->0;
        assert(key.hash_bytes() =~= encode_utf8(t.0) + encode_utf8(t.1) + encode_utf8(t.2) + (
        match t.3 {
            Some(bucket) => le_bytes(bucket),
            None => Seq::empty(),
        }) + encode_utf8(t.4) + encode_utf8(t.5));
    }
    Constraint {
        id: Constraint::generate_id(
            harder.venue.as_str(),
            harder.market_id.as_str(),
            easier.market_id.as_str(),
            "monotonic_ladder",
        ),
        venue: harder.venue.clone(),
        constraint_type: String::from_str("monotonic_ladder"),
        a_market_id: harder.market_id.clone(),
        a_outcome_id: match &harder.outcome_id {
            Some(o) => Some(o.clone()),
            None => None,
        },
        b_market_id: easier.market_id.clone(),
        b_outcome_id: match &easier.outcome_id {
            Some(o) => Some(o.clone()),
            None => None,
        },
        relation,
        confidence,
        notes,
        group_key,
    }
}

/// The monotonic ladder constraints among `propositions`: one for each
/// pair of `ladder_pairs`, in that order.
pub fn generate_monotonic_ladder_constraints(propositions: &[NormalizedProposition]) -> (out: Vec<
    Constraint,
>)
    ensures
        ladder_constraints(out@, propositions@),
{
    let pairs = ladder_pairs(propositions);
    proof {
        lemma_pairs_are_barriers(propositions@, propositions.len() as int);
    }
    let mut out: Vec<Constraint> = Vec::new();
    let mut k: usize = 0;
    while k < pairs.len()
        invariant
            k <= pairs.len(),
            pairs@ == ladder_pairs_upto(propositions@, propositions.len() as int),
            forall|x: int|
                0 <= x < pairs.len() ==> (#[trigger] pairs[x]).0 < propositions.len() && pairs[x].1
                    < propositions.len() && key_text(
                    propositions[pairs[x].0 as int].proposition,
                ) is Some,
            out.len() == k,
            forall|x: int|
                0 <= x < k ==> ladder_constraint(
                    #[trigger] out[x],
                    propositions[pairs[x].0 as int],
                    propositions[pairs[x].1 as int],
                ),
        decreases pairs.len() - k,
    {
        let (harder, easier) = pairs[k];
        out.push(make_ladder_constraint(&propositions[harder], &propositions[easier]));
        k += 1;
    }
    out
}

/// Whether `kept` holds, in order, what the propositions of confidence
/// `min_confidence` at least say.
pub open spec fn kept_from(
    kept: Seq<NormalizedProposition>,
    propositions: Seq<NormalizedProposition>,
    min_confidence: i64,
) -> bool {
    let positions = positions_by_confidence(confidences_of(propositions), min_confidence, true);
    &&& kept.len() == positions.len()
    &&& forall|k: int|
        0 <= k < kept.len() ==> same_proposition(
            #[trigger] kept[k],
            propositions[positions[k] as int],
        )
}

/// Whether `out` holds the ladder constraints among `propositions`, one
/// for each pair of `ladder_pairs_upto`, in that order.
pub open spec fn ladder_constraints(out: Seq<Constraint>, propositions: Seq<NormalizedProposition>) -> bool {
    let pairs = ladder_pairs_upto(propositions, propositions.len() as int);
    &&& out.len() == pairs.len()
    &&& forall|k: int|
        0 <= k < out.len() ==> ladder_constraint(
            #[trigger] out[k],
            propositions[pairs[k].0 as int],
            propositions[pairs[k].1 as int],
        )
}

/// All constraints among the propositions whose confidence is
/// `config.min_confidence` at least: the ladder constraints among these.
pub fn generate_constraints(propositions: &[NormalizedProposition], config: &ConstraintConfig) -> (out:
    Vec<Constraint>)
    ensures
        exists|kept: Seq<NormalizedProposition>| #[trigger]
            kept_from(kept, propositions@, config.min_confidence) && ladder_constraints(out@, kept),
{
    let (high, _) = filter_by_confidence(propositions, config.min_confidence);
    let mut kept: Vec<NormalizedProposition> = Vec::new();
    let mut i: usize = 0;
    while i < high.len()
        invariant
            i <= high.len(),
            kept.len() == i,
            forall|j: int| 0 <= j < high.len() ==> (#[trigger] high[j]) < propositions.len(),
            forall|k: int|
                0 <= k < i ==> same_proposition(#[trigger] kept[k], propositions[high[k] as int]),
        decreases high.len() - i,
    {
        kept.push(propositions[high[i]].without_notes());
        i += 1;
    }
    let out = generate_monotonic_ladder_constraints(kept.as_slice());
    assert(kept_from(kept@, propositions@, config.min_confidence));
    assert(ladder_constraints(out@, kept@));
    out
}

/// The members of a ladder are price barriers of that ladder.
proof fn lemma_members(props: Seq<NormalizedProposition>, key: KeyText, upto: int)
    requires
        0 <= upto <= props.len() <= usize::MAX,
    ensures
        members_of(props, key, upto).len() <= upto,
        forall|x: int|
            0 <= x < members_of(props, key, upto).len() ==> (#[trigger] members_of(
                props,
                key,
                upto,
            )[x]) < upto && key_text(props[members_of(props, key, upto)[x] as int].proposition)
                == Some(key),
    decreases upto,
{
    if upto > 0 {
        lemma_members(props, key, upto - 1);
        let before = members_of(props, key, upto - 1);
        let all = members_of(props, key, upto);
        assert forall|x: int| 0 <= x < all.len() implies (#[trigger] all[x]) < upto && key_text(
            props[all[x] as int].proposition,
        ) == Some(key) by {
            if x < before.len() {
                assert(all[x] == before[x]);
            }
        }
    }
}

/// The pairs of a row are of rungs of the ladder.
proof fn lemma_row(sorted: Seq<usize>, up: bool, a: int, above: int)
    requires
        0 <= a,
        0 <= above,
        a + above < sorted.len(),
    ensures
        forall|x: int|
            0 <= x < row_pairs(sorted, up, a, above).len() ==> sorted.contains(
                (#[trigger] row_pairs(sorted, up, a, above)[x]).0,
            ) && sorted.contains(row_pairs(sorted, up, a, above)[x].1),
    decreases above,
{
    if above > 0 {
        lemma_row(sorted, up, a, above - 1);
        assert(sorted.contains(sorted[a]));
        assert(sorted.contains(sorted[a + above]));
        let before = row_pairs(sorted, up, a, above - 1);
        let all = row_pairs(sorted, up, a, above);
        assert forall|x: int| 0 <= x < all.len() implies sorted.contains((#[trigger] all[x]).0)
            && sorted.contains(all[x].1) by {
            if x < before.len() {
                assert(all[x] == before[x]);
            } else {
                assert(all[x] == pair_of(sorted[a], sorted[a + above], up));
            }
        }
    }
}

/// The pairs of a group are of rungs of the ladder.
proof fn lemma_group(sorted: Seq<usize>, up: bool, rows: int)
    requires
        0 <= rows <= sorted.len(),
    ensures
        forall|x: int|
            0 <= x < group_pairs(sorted, up, rows).len() ==> sorted.contains(
                (#[trigger] group_pairs(sorted, up, rows)[x]).0,
            ) && sorted.contains(group_pairs(sorted, up, rows)[x].1),
    decreases rows,
{
    if rows > 0 {
        lemma_group(sorted, up, rows - 1);
        lemma_row(sorted, up, rows - 1, sorted.len() - rows);
        let before = group_pairs(sorted, up, rows - 1);
        let row = row_pairs(sorted, up, rows - 1, sorted.len() - rows);
        let all = group_pairs(sorted, up, rows);
        assert forall|x: int| 0 <= x < all.len() implies sorted.contains((#[trigger] all[x]).0)
            && sorted.contains(all[x].1) by {
            if x < before.len() {
                assert(all[x] == before[x]);
            } else {
                assert(all[x] == row[x - before.len()]);
            }
        }
    }
}

/// Every proposition of a pair is a price barrier.
proof fn lemma_pairs_are_barriers(props: Seq<NormalizedProposition>, upto: int)
    requires
        0 <= upto <= props.len() <= usize::MAX,
    ensures
        forall|x: int|
            0 <= x < ladder_pairs_upto(props, upto).len() ==> {
                let pair = #[trigger] ladder_pairs_upto(props, upto)[x];
                &&& pair.0 < props.len()
                &&& pair.1 < props.len()
                &&& key_text(props[pair.0 as int].proposition) is Some
                &&& key_text(props[pair.1 as int].proposition) == key_text(
                    props[pair.0 as int].proposition,
                )
            },
    decreases upto,
{
    if upto > 0 {
        lemma_pairs_are_barriers(props, upto - 1);
        if is_leader(props, upto - 1) {
            let key = key_text(props[upto - 1].proposition)->0;
            let members = members_of(props, key, props.len() as int);
            lemma_members(props, key, props.len() as int);
            let order = ranking(levels_of(props, members), false);
            let sorted = ladder_of(props, members);
            crate::ranking::lemma_ranking_exists(levels_of(props, members), false);
            lemma_group(sorted, key.1 == "up"@, sorted.len() as int);
            assert forall|m: usize| sorted.contains(m) implies m < props.len() && key_text(
                props[m as int].proposition,
            ) == Some(key) by {
                let j = choose|j: int| 0 <= j < sorted.len() && sorted[j] == m;
                assert(sorted[j] == members[order[j] as int]);
            }
        }
    }
}

} // verus!
