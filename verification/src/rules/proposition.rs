//! The propositions that market rules are normalized to.
//!
//! Price levels are fixed-point numbers in millionths; a confidence is a
//! number of millionths from 0 to 1 000 000.

use vstd::prelude::*;

verus! {

/// One, as a confidence.
pub const CONFIDENCE_ONE: i64 = 1_000_000;

/// Below this confidence a proposition goes to human review.
pub const REVIEW_THRESHOLD: i64 = 600_000;

/// Where the price that resolves a market comes from.
#[derive(Clone, Debug, PartialEq)]
pub enum PriceSource {
    Unknown,
    /// An exchange, such as `Coinbase`.
    Exchange(String),
    /// An index, such as `CoinGecko`.
    Index(String),
    /// A source that the venue defines.
    VenueDefined(String),
}

/// How the price is measured.
#[derive(Clone, Copy, Debug, PartialEq, Eq, Structural)]
pub enum PriceMeasure {
    Unknown,
    Spot,
    Close,
    VWAP,
    TWAP,
}

/// A comparison of a price with a level.
#[derive(Clone, Copy, Debug, PartialEq, Eq, Structural)]
pub enum Comparator {
    /// At or above.
    GE,
    /// Above.
    GT,
    /// At or below.
    LE,
    /// Below.
    LT,
}

impl Comparator {
    /// Whether the comparator asks for a price at or above a level.
    pub fn is_upward(&self) -> (out: bool)
        ensures
            out == (*self == Comparator::GE || *self == Comparator::GT),
            out != self.spec_is_downward(),
    {
        match self {
            Comparator::GE => true,
            Comparator::GT => true,
            Comparator::LE => false,
            Comparator::LT => false,
        }
    }

    /// Whether the comparator asks for a price at or below a level.
    pub open spec fn spec_is_downward(&self) -> bool {
        *self == Comparator::LE || *self == Comparator::LT
    }

    /// Whether the comparator asks for a price at or below a level.
    pub fn is_downward(&self) -> (out: bool)
        ensures
            out == self.spec_is_downward(),
    {
        match self {
            Comparator::GE => false,
            Comparator::GT => false,
            Comparator::LE => true,
            Comparator::LT => true,
        }
    }
}

/// When the condition of a proposition is looked at.
#[derive(Clone, Copy, Debug, PartialEq, Eq, Structural)]
pub enum TimeWindowKind {
    Unknown,
    /// At any time before the deadline.
    AnyTimeBefore,
    /// At the close.
    AtClose,
    /// At one moment.
    AtTime,
    /// During an interval.
    DuringInterval,
}

/// A time window, with its ends in epoch milliseconds.
#[derive(Clone, Copy, Debug, PartialEq, Eq, Structural)]
pub struct TimeWindow {
    pub kind: TimeWindowKind,
    pub start_ts: Option<i64>,
    pub end_ts: Option<i64>,
}

impl TimeWindow {
    /// The window of which nothing is known.
    pub fn unknown() -> (out: TimeWindow)
        ensures
            out == (TimeWindow { kind: TimeWindowKind::Unknown, start_ts: None, end_ts: None }),
    {
        TimeWindow { kind: TimeWindowKind::Unknown, start_ts: None, end_ts: None }
    }

    /// Any time before `end_ts`.
    pub fn any_time_before(end_ts: i64) -> (out: TimeWindow)
        ensures
            out == (TimeWindow {
                kind: TimeWindowKind::AnyTimeBefore,
                start_ts: None,
                end_ts: Some(end_ts),
            }),
    {
        TimeWindow { kind: TimeWindowKind::AnyTimeBefore, start_ts: None, end_ts: Some(end_ts) }
    }

    /// The moment `ts`.
    pub fn at_time(ts: i64) -> (out: TimeWindow)
        ensures
            out == (TimeWindow { kind: TimeWindowKind::AtTime, start_ts: None, end_ts: Some(ts) }),
    {
        TimeWindow { kind: TimeWindowKind::AtTime, start_ts: None, end_ts: Some(ts) }
    }

    /// The close at `ts`.
    pub fn at_close(ts: i64) -> (out: TimeWindow)
        ensures
            out == (TimeWindow { kind: TimeWindowKind::AtClose, start_ts: None, end_ts: Some(ts) }),
    {
        TimeWindow { kind: TimeWindowKind::AtClose, start_ts: None, end_ts: Some(ts) }
    }
}

impl Default for PriceSource {
    fn default() -> (out: PriceSource)
        ensures
            out is Unknown,
    {
        PriceSource::Unknown
    }
}

impl Default for PriceMeasure {
    fn default() -> (out: PriceMeasure)
        ensures
            out == PriceMeasure::Unknown,
    {
        PriceMeasure::Unknown
    }
}

impl Default for TimeWindowKind {
    fn default() -> (out: TimeWindowKind)
        ensures
            out == TimeWindowKind::Unknown,
    {
        TimeWindowKind::Unknown
    }
}

impl Default for TimeWindow {
    fn default() -> (out: TimeWindow)
        ensures
            out == (TimeWindow { kind: TimeWindowKind::Unknown, start_ts: None, end_ts: None }),
    {
        TimeWindow { kind: TimeWindowKind::Unknown, start_ts: None, end_ts: None }
    }
}

/// The text `text` in upper case, as `str::to_uppercase` gives it.
pub uninterp spec fn upper_text(text: Seq<char>) -> Seq<char>;

/// `str::to_uppercase` from std: the text in upper case, which depends on
/// the text alone.
#[verifier::external_body]
fn to_upper(text: &str) -> (out: String)
    ensures
        out@ == upper_text(text@),
{
    text.to_uppercase()
}

/// The asset that a proposition is about.
#[derive(Clone, Debug, PartialEq)]
pub struct Underlier {
    /// The asset in upper case: `BTC`, `ETH`, `SP500`.
    pub kind: String,
    /// The venue's symbol of it, if it has one.
    pub venue_symbol: Option<String>,
}

impl Default for Underlier {
    fn default() -> (out: Underlier)
        ensures
            out.kind@ == Seq::<char>::empty(),
            out.venue_symbol is None,
    {
        Underlier { kind: String::new(), venue_symbol: None }
    }
}

impl Underlier {
    /// The asset `kind`, in upper case, without a venue symbol.
    pub fn new(kind: &str) -> (out: Underlier)
        ensures
            out.kind@ == upper_text(kind@),
            out.venue_symbol is None,
    {
        Underlier { kind: to_upper(kind), venue_symbol: None }
    }

    /// The asset `kind`, in upper case, with the venue symbol `symbol`.
    pub fn with_symbol(kind: &str, symbol: &str) -> (out: Underlier)
        ensures
            out.kind@ == upper_text(kind@),
            out.venue_symbol is Some,
            out.venue_symbol->0@ == symbol@,
    {
        Underlier { kind: to_upper(kind), venue_symbol: Some(symbol.to_owned()) }
    }

    /// A copy of the underlier.
    pub fn cloned(&self) -> (out: Underlier)
        ensures
            out.kind@ == self.kind@,
            out.venue_symbol is Some == self.venue_symbol is Some,
            out.venue_symbol is Some ==> out.venue_symbol->0@ == self.venue_symbol->0@,
    {
        Underlier {
            kind: self.kind.clone(),
            venue_symbol: match &self.venue_symbol {
                Some(s) => Some(s.clone()),
                None => None,
            },
        }
    }
}

impl PriceSource {
    /// A copy of the source.
    pub fn cloned(&self) -> (out: PriceSource)
        ensures
            source_view(out) == source_view(*self),
    {
        match self {
            PriceSource::Unknown => PriceSource::Unknown,
            PriceSource::Exchange(name) => PriceSource::Exchange(name.clone()),
            PriceSource::Index(name) => PriceSource::Index(name.clone()),
            PriceSource::VenueDefined(name) => PriceSource::VenueDefined(name.clone()),
        }
    }

    /// Whether nothing is known of the source.
    pub fn is_unknown(&self) -> (out: bool)
        ensures
            out == (*self is Unknown),
    {
        match self {
            PriceSource::Unknown => true,
            _ => false,
        }
    }
}

/// The kind of a source (0 unknown, 1 exchange, 2 index, 3 venue-defined)
/// with its name.
pub open spec fn source_view(source: PriceSource) -> (int, Seq<char>) {
    match source {
        PriceSource::Unknown => (0, Seq::empty()),
        PriceSource::Exchange(name) => (1, name@),
        PriceSource::Index(name) => (2, name@),
        PriceSource::VenueDefined(name) => (3, name@),
    }
}

/// What the rules of a market say.
#[derive(Clone, Debug, PartialEq)]
pub enum PropositionKind {
    Unknown,
    /// The price of `underlier` compares as `comparator` says with `level`.
    PriceBarrier {
        underlier: Underlier,
        comparator: Comparator,
        level: i64,
        measure: PriceMeasure,
        window: TimeWindow,
        source: PriceSource,
    },
    /// Something happens or does not.
    YesNoEvent { description: String, window: TimeWindow },
    /// The price of `underlier` lies from `low` to `high`.
    RangePartition {
        underlier: Underlier,
        low: Option<i64>,
        high: Option<i64>,
        window: TimeWindow,
        source: PriceSource,
    },
}

/// Whether two underliers say the same.
pub open spec fn same_underlier(a: Underlier, b: Underlier) -> bool {
    &&& a.kind@ == b.kind@
    &&& a.venue_symbol is Some == b.venue_symbol is Some
    &&& a.venue_symbol is Some ==> a.venue_symbol->0@ == b.venue_symbol->0@
}

/// Whether two propositions say the same.
pub open spec fn same_kind(a: PropositionKind, b: PropositionKind) -> bool {
    match (a, b) {
        (PropositionKind::Unknown, PropositionKind::Unknown) => true,
        (
            PropositionKind::PriceBarrier {
                underlier: u1,
                comparator: c1,
                level: l1,
                measure: m1,
                window: w1,
                source: s1,
            },
            PropositionKind::PriceBarrier {
                underlier: u2,
                comparator: c2,
                level: l2,
                measure: m2,
                window: w2,
                source: s2,
            },
        ) => same_underlier(u1, u2) && c1 == c2 && l1 == l2 && m1 == m2 && w1 == w2 && source_view(
            s1,
        ) == source_view(s2),
        (
            PropositionKind::YesNoEvent { description: d1, window: w1 },
            PropositionKind::YesNoEvent { description: d2, window: w2 },
        ) => d1@ == d2@ && w1 == w2,
        (
            PropositionKind::RangePartition {
                underlier: u1,
                low: lo1,
                high: hi1,
                window: w1,
                source: s1,
            },
            PropositionKind::RangePartition {
                underlier: u2,
                low: lo2,
                high: hi2,
                window: w2,
                source: s2,
            },
        ) => same_underlier(u1, u2) && lo1 == lo2 && hi1 == hi2 && w1 == w2 && source_view(s1)
            == source_view(s2),
        _ => false,
    }
}

impl PropositionKind {
    /// A copy of the proposition.
    pub fn cloned(&self) -> (out: PropositionKind)
        ensures
            same_kind(out, *self),
    {
        match self {
            PropositionKind::Unknown => PropositionKind::Unknown,
            PropositionKind::PriceBarrier {
                underlier,
                comparator,
                level,
                measure,
                window,
                source,
            } => PropositionKind::PriceBarrier {
                underlier: underlier.cloned(),
                comparator: *comparator,
                level: *level,
                measure: *measure,
                window: *window,
                source: source.cloned(),
            },
            PropositionKind::YesNoEvent { description, window } => PropositionKind::YesNoEvent {
                description: description.clone(),
                window: *window,
            },
            PropositionKind::RangePartition {
                underlier,
                low,
                high,
                window,
                source,
            } => PropositionKind::RangePartition {
                underlier: underlier.cloned(),
                low: *low,
                high: *high,
                window: *window,
                source: source.cloned(),
            },
        }
    }

    /// The underlier of a proposition about a price.
    pub fn underlier(&self) -> (out: Option<&Underlier>)
        ensures
            out == match *self {
                PropositionKind::PriceBarrier { underlier, .. } => Some(&underlier),
                PropositionKind::RangePartition { underlier, .. } => Some(&underlier),
                _ => None,
            },
    {
        match self {
            PropositionKind::PriceBarrier { underlier, .. } => Some(underlier),
            PropositionKind::RangePartition { underlier, .. } => Some(underlier),
            _ => None,
        }
    }

    /// The time window of a proposition that is known.
    pub fn time_window(&self) -> (out: Option<&TimeWindow>)
        ensures
            out == match *self {
                PropositionKind::PriceBarrier { window, .. } => Some(&window),
                PropositionKind::YesNoEvent { window, .. } => Some(&window),
                PropositionKind::RangePartition { window, .. } => Some(&window),
                PropositionKind::Unknown => None,
            },
    {
        match self {
            PropositionKind::PriceBarrier { window, .. } => Some(window),
            PropositionKind::YesNoEvent { window, .. } => Some(window),
            PropositionKind::RangePartition { window, .. } => Some(window),
            PropositionKind::Unknown => None,
        }
    }

    /// The name of the proposition's kind: `unknown`, `price_barrier`,
    /// `yes_no_event` or `range_partition`.
    pub fn kind_name(&self) -> (out: &'static str)
        ensures
            out@ == match *self {
                PropositionKind::Unknown => "unknown"@,
                PropositionKind::PriceBarrier { .. } => "price_barrier"@,
                PropositionKind::YesNoEvent { .. } => "yes_no_event"@,
                PropositionKind::RangePartition { .. } => "range_partition"@,
            },
    {
        match self {
            PropositionKind::Unknown => "unknown",
            PropositionKind::PriceBarrier { .. } => "price_barrier",
            PropositionKind::YesNoEvent { .. } => "yes_no_event",
            PropositionKind::RangePartition { .. } => "range_partition",
        }
    }

    /// Whether the proposition is a price barrier.
    pub fn is_price_barrier(&self) -> (out: bool)
        ensures
            out == (*self is PriceBarrier),
    {
        match self {
            PropositionKind::PriceBarrier { .. } => true,
            _ => false,
        }
    }
}

impl Default for PropositionKind {
    fn default() -> (out: PropositionKind)
        ensures
            out is Unknown,
    {
        PropositionKind::Unknown
    }
}

/// A proposition with the market it belongs to and the confidence in it.
#[derive(Clone, Debug)]
pub struct NormalizedProposition {
    pub venue: String,
    pub market_id: String,
    pub outcome_id: Option<String>,
    pub title: String,
    /// The SHA-256 of the raw rules text, in hex.
    pub raw_rules_hash: String,
    pub proposition: PropositionKind,
    /// From 0 to `CONFIDENCE_ONE`.
    pub confidence: i64,
    pub parse_notes: Vec<String>,
}

/// Whether two normalized propositions say the same of the same market,
/// whatever their notes.
pub open spec fn same_proposition(a: NormalizedProposition, b: NormalizedProposition) -> bool {
    &&& a.venue@ == b.venue@
    &&& a.market_id@ == b.market_id@
    &&& a.outcome_id is Some == b.outcome_id is Some
    &&& a.outcome_id is Some ==> a.outcome_id->0@ == b.outcome_id->0@
    &&& a.title@ == b.title@
    &&& a.raw_rules_hash@ == b.raw_rules_hash@
    &&& same_kind(a.proposition, b.proposition)
    &&& a.confidence == b.confidence
}

impl NormalizedProposition {
    /// A copy of the proposition, without its notes.
    pub fn without_notes(&self) -> (out: NormalizedProposition)
        ensures
            same_proposition(out, *self),
            out.parse_notes@ == Seq::<String>::empty(),
    {
        NormalizedProposition {
            venue: self.venue.clone(),
            market_id: self.market_id.clone(),
            outcome_id: match &self.outcome_id {
                Some(o) => Some(o.clone()),
                None => None,
            },
            title: self.title.clone(),
            raw_rules_hash: self.raw_rules_hash.clone(),
            proposition: self.proposition.cloned(),
            confidence: self.confidence,
            parse_notes: Vec::new(),
        }
    }

    /// An unknown proposition of no confidence, without notes.
    pub fn new(venue: &str, market_id: &str, title: &str, raw_rules_hash: &str) -> (out:
        NormalizedProposition)
        ensures
            out.venue@ == venue@,
            out.market_id@ == market_id@,
            out.outcome_id is None,
            out.title@ == title@,
            out.raw_rules_hash@ == raw_rules_hash@,
            out.proposition is Unknown,
            out.confidence == 0,
            out.parse_notes@ == Seq::<String>::empty(),
    {
        NormalizedProposition {
            venue: venue.to_owned(),
            market_id: market_id.to_owned(),
            outcome_id: None,
            title: title.to_owned(),
            raw_rules_hash: raw_rules_hash.to_owned(),
            proposition: PropositionKind::Unknown,
            confidence: 0,
            parse_notes: Vec::new(),
        }
    }

    /// The same with the outcome `outcome_id`.
    pub fn with_outcome(self, outcome_id: &str) -> (out: NormalizedProposition)
        ensures
            out.outcome_id is Some,
            out.outcome_id->0@ == outcome_id@,
            out.venue == self.venue,
            out.market_id == self.market_id,
            out.title == self.title,
            out.raw_rules_hash == self.raw_rules_hash,
            out.proposition == self.proposition,
            out.confidence == self.confidence,
            out.parse_notes == self.parse_notes,
    {
        let mut out = self;
        out.outcome_id = Some(outcome_id.to_owned());
        out
    }

    /// The same with the proposition `prop`.
    pub fn with_proposition(self, prop: PropositionKind) -> (out: NormalizedProposition)
        ensures
            out.proposition == prop,
            out.venue == self.venue,
            out.market_id == self.market_id,
            out.outcome_id == self.outcome_id,
            out.title == self.title,
            out.raw_rules_hash == self.raw_rules_hash,
            out.confidence == self.confidence,
            out.parse_notes == self.parse_notes,
    {
        let mut out = self;
        out.proposition = prop;
        out
    }

    /// The same with the confidence `confidence`, held within 0 and
    /// `CONFIDENCE_ONE`.
    pub fn with_confidence(self, confidence: i64) -> (out: NormalizedProposition)
        ensures
            out.confidence == if confidence < 0 {
                0
            } else if confidence > CONFIDENCE_ONE {
                CONFIDENCE_ONE
            } else {
                confidence
            },
            out.venue == self.venue,
            out.market_id == self.market_id,
            out.outcome_id == self.outcome_id,
            out.title == self.title,
            out.raw_rules_hash == self.raw_rules_hash,
            out.proposition == self.proposition,
            out.parse_notes == self.parse_notes,
    {
        let mut out = self;
        out.confidence = if confidence < 0 {
            0
        } else if confidence > CONFIDENCE_ONE {
            CONFIDENCE_ONE
        } else {
            confidence
        };
        out
    }

    /// The same with one more note.
    pub fn add_note(self, note: &str) -> (out: NormalizedProposition)
        ensures
            out.parse_notes@.len() == self.parse_notes@.len() + 1,
            out.parse_notes@.last()@ == note@,
            out.parse_notes@.drop_last() == self.parse_notes@,
            out.venue == self.venue,
            out.market_id == self.market_id,
            out.outcome_id == self.outcome_id,
            out.title == self.title,
            out.raw_rules_hash == self.raw_rules_hash,
            out.proposition == self.proposition,
            out.confidence == self.confidence,
    {
        let mut out = self;
        out.parse_notes.push(note.to_owned());
        assert(out.parse_notes@.drop_last() =~= self.parse_notes@);
        out
    }

    /// Whether the proposition goes to human review.
    pub fn needs_review(&self) -> (out: bool)
        ensures
            out == (self.confidence < REVIEW_THRESHOLD),
    {
        self.confidence < REVIEW_THRESHOLD
    }
}

} // verus!
