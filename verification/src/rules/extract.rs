//! Reading a proposition out of the text of a market's rules.

use vstd::prelude::*;
use vstd::string::StrSliceExecFns;
use crate::rules::ingest::RulesRecord;
use crate::rules::proposition::{
    source_view, Comparator, PriceMeasure, PriceSource, PropositionKind, TimeWindow,
    TimeWindowKind, Underlier, upper_text,
};

verus! {

/// Whether `pattern` stands somewhere in `text`.
pub open spec fn has_text(text: Seq<char>, pattern: Seq<char>) -> bool {
    exists|i: int|
        0 <= i <= text.len() - pattern.len() && #[trigger] text.subrange(i, i + pattern.len())
            == pattern
}

/// `str::contains` from std with a `&str` pattern: whether the pattern
/// matches some part of the text.
#[verifier::external_body]
pub(crate) fn contains_text(text: &str, pattern: &str) -> (found: bool)
    ensures
        found == has_text(text@, pattern@),
{
    text.contains(pattern)
}

/// The text `text` in lower case, as `str::to_lowercase` gives it.
pub uninterp spec fn lower_text(text: Seq<char>) -> Seq<char>;

/// `str::to_lowercase` from std: the text in lower case, which depends on
/// the text alone.
#[verifier::external_body]
pub(crate) fn to_lower(text: &str) -> (out: String)
    ensures
        out@ == lower_text(text@),
{
    text.to_lowercase()
}

/// How rules in lower case say the price is measured: by the first of
/// closing price, spot price, volume-weighted and time-weighted average
/// that they name.
pub open spec fn spec_measure(text: Seq<char>) -> PriceMeasure {
    if has_text(text, "closing price"@) || has_text(text, "close price"@) {
        PriceMeasure::Close
    } else if has_text(text, "spot price"@) || has_text(text, "spot rate"@) {
        PriceMeasure::Spot
    } else if has_text(text, "vwap"@) || has_text(text, "volume weighted"@) {
        PriceMeasure::VWAP
    } else if has_text(text, "twap"@) || has_text(text, "time weighted"@) {
        PriceMeasure::TWAP
    } else {
        PriceMeasure::Unknown
    }
}

/// Reads the price measure out of rules in lower case.
pub fn extract_measure(text: &str) -> (out: PriceMeasure)
    ensures
        out == spec_measure(text@),
{
    if contains_text(text, "closing price") || contains_text(text, "close price") {
        PriceMeasure::Close
    } else if contains_text(text, "spot price") || contains_text(text, "spot rate") {
        PriceMeasure::Spot
    } else if contains_text(text, "vwap") || contains_text(text, "volume weighted") {
        PriceMeasure::VWAP
    } else if contains_text(text, "twap") || contains_text(text, "time weighted") {
        PriceMeasure::TWAP
    } else {
        PriceMeasure::Unknown
    }
}

/// The kind of time window that rules in lower case name: any time before
/// the close, at the close, or unknown.
pub open spec fn spec_window_kind(text: Seq<char>) -> TimeWindowKind {
    if has_text(text, "at any time before"@) || has_text(text, "any time before"@) || has_text(
        text,
        "at any point before"@,
    ) {
        TimeWindowKind::AnyTimeBefore
    } else if has_text(text, "closing price on"@) || has_text(text, "at close"@) || has_text(
        text,
        "at market close"@,
    ) {
        TimeWindowKind::AtClose
    } else if has_text(text, "before the market closes"@) || has_text(
        text,
        "before market close"@,
    ) || has_text(text, "before close"@) || has_text(text, "before expiration"@) {
        TimeWindowKind::AnyTimeBefore
    } else {
        TimeWindowKind::Unknown
    }
}

/// Reads the time window out of rules in lower case. The window ends at
/// the market's close, where that is known.
pub fn extract_time_window(text: &str, close_ts: Option<i64>) -> (out: TimeWindow)
    ensures
        out == (TimeWindow { kind: spec_window_kind(text@), start_ts: None, end_ts: close_ts }),
{
    if contains_text(text, "at any time before") || contains_text(text, "any time before")
        || contains_text(text, "at any point before") {
        return TimeWindow { kind: TimeWindowKind::AnyTimeBefore, start_ts: None, end_ts: close_ts };
    }
    if contains_text(text, "closing price on") || contains_text(text, "at close") || contains_text(
        text,
        "at market close",
    ) {
        return TimeWindow { kind: TimeWindowKind::AtClose, start_ts: None, end_ts: close_ts };
    }
    if contains_text(text, "before the market closes") || contains_text(text, "before market close")
        || contains_text(text, "before close") || contains_text(text, "before expiration") {
        return TimeWindow { kind: TimeWindowKind::AnyTimeBefore, start_ts: None, end_ts: close_ts };
    }
    TimeWindow { kind: TimeWindowKind::Unknown, start_ts: None, end_ts: close_ts }
}

/// The name under which the first pattern of `table` that stands in `text`
/// is listed.
pub open spec fn first_named(text: Seq<char>, table: Seq<(Seq<char>, Seq<char>)>) -> Option<Seq<char>>
    decreases table.len(),
{
    if table.len() == 0 {
        None
    } else if has_text(text, table[0].0) {
        Some(table[0].1)
    } else {
        first_named(text, table.drop_first())
    }
}

/// The exchanges that rules may name, by pattern and name.
pub open spec fn exchange_table() -> Seq<(Seq<char>, Seq<char>)> {
    seq![
        ("coinbase"@, "Coinbase"@),
        ("binance"@, "Binance"@),
        ("kraken"@, "Kraken"@),
        ("bitstamp"@, "Bitstamp"@),
        ("gemini"@, "Gemini"@),
        ("ftx"@, "FTX"@),
        ("okx"@, "OKX"@),
        ("bybit"@, "Bybit"@),
    ]
}

/// The indices that rules may name, by pattern and name.
pub open spec fn index_table() -> Seq<(Seq<char>, Seq<char>)> {
    seq![
        ("coingecko"@, "CoinGecko"@),
        ("coinmarketcap"@, "CoinMarketCap"@),
        ("cryptocompare"@, "CryptoCompare"@),
    ]
}

/// The price source that rules in lower case name: the first exchange of
/// the table; else the first index; else the UMA oracle for `polymarket`
/// or `uma oracle`; else Kalshi for `kalshi`; else unknown. As kind and
/// name.
pub open spec fn spec_source(text: Seq<char>) -> (int, Seq<char>) {
    match first_named(text, exchange_table()) {
        Some(name) => (1, name),
        None => match first_named(text, index_table()) {
            Some(name) => (2, name),
            None => if has_text(text, "polymarket"@) || has_text(text, "uma oracle"@) {
                (3, "UMA Oracle"@)
            } else if has_text(text, "kalshi"@) {
                (3, "Kalshi"@)
            } else {
                (0, Seq::empty())
            },
        },
    }
}

/// The views of a table of patterns and names.
pub open spec fn table_view(table: Seq<(&'static str, &'static str)>) -> Seq<(Seq<char>, Seq<char>)> {
    table.map_values(|row: (&'static str, &'static str)| (row.0@, row.1@))
}

/// Looks `text` up in a table of patterns and names.
fn lookup_named(text: &str, table: &[(&'static str, &'static str)]) -> (out: Option<&'static str>)
    ensures
        match out {
            Some(name) => first_named(text@, table_view(table@)) == Some(name@),
            None => first_named(text@, table_view(table@)) is None,
        },
{
    let ghost rows = table_view(table@);
    assert(rows.skip(0) =~= rows);
    let mut i: usize = 0;
    while i < table.len()
        invariant
            i <= table.len(),
            rows == table_view(table@),
            first_named(text@, rows) == first_named(text@, rows.skip(i as int)),
        decreases table.len() - i,
    {
        assert(rows.skip(i as int)[0] == rows[i as int]);
        assert(rows.skip(i as int).drop_first() =~= rows.skip(i + 1));
        if contains_text(text, table[i].0) {
            return Some(table[i].1);
        }
        i += 1;
    }
    None
}

/// Reads the price source out of rules in lower case.
pub fn extract_source(text: &str) -> (out: PriceSource)
    ensures
        crate::rules::proposition::source_view(out) == spec_source(text@),
{
    let exchanges: [(&'static str, &'static str); 8] = [
        ("coinbase", "Coinbase"),
        ("binance", "Binance"),
        ("kraken", "Kraken"),
        ("bitstamp", "Bitstamp"),
        ("gemini", "Gemini"),
        ("ftx", "FTX"),
        ("okx", "OKX"),
        ("bybit", "Bybit"),
    ];
    assert(table_view(exchanges@) =~= exchange_table());
    match lookup_named(text, exchanges.as_slice()) {
        Some(name) => {
            return PriceSource::Exchange(name.to_owned());
        },
        None => {},
    }
    let indices: [(&'static str, &'static str); 3] = [
        ("coingecko", "CoinGecko"),
        ("coinmarketcap", "CoinMarketCap"),
        ("cryptocompare", "CryptoCompare"),
    ];
    assert(table_view(indices@) =~= index_table());
    match lookup_named(text, indices.as_slice()) {
        Some(name) => {
            return PriceSource::Index(name.to_owned());
        },
        None => {},
    }
    if contains_text(text, "polymarket") || contains_text(text, "uma oracle") {
        return PriceSource::VenueDefined("UMA Oracle".to_owned());
    }
    if contains_text(text, "kalshi") {
        return PriceSource::VenueDefined("Kalshi".to_owned());
    }
    PriceSource::Unknown
}

/// Whether the regular expression `pattern` matches somewhere in `text`;
/// none for a pattern that the engine refuses.
pub uninterp spec fn regex_match(pattern: Seq<char>, text: Seq<char>) -> Option<bool>;

/// `regex::Regex::new` and `Regex::is_match`: whether the expression
/// matches, which depends on pattern and text alone; none where
/// `Regex::new` refuses the pattern.
#[verifier::external_body]
pub(crate) fn regex_is_match(pattern: &str, text: &str) -> (out: Option<bool>)
    ensures
        out == regex_match(pattern@, text@),
{
    match regex::Regex::new(pattern) {
        Ok(re) => Some(re.is_match(text)),
        Err(_) => None,
    }
}

/// What the first group of the regular expression `pattern` holds in its
/// first match in `text`; none without a match, without the group, or for a
/// pattern that the engine refuses.
pub uninterp spec fn regex_group(pattern: Seq<char>, text: Seq<char>) -> Option<Seq<char>>;

/// `regex::Regex::new`, `Regex::captures` and `Captures::get(1)`: the text
/// of the first group in the first match, which depends on pattern and
/// text alone.
#[verifier::external_body]
pub(crate) fn regex_first_group(pattern: &str, text: &str) -> (out: Option<String>)
    ensures
        match out {
            Some(group) => regex_group(pattern@, text@) == Some(group@),
            None => regex_group(pattern@, text@) is None,
        },
{
    let re = regex::Regex::new(pattern).ok()?;
    let found = re.captures(text)?;
    Some(found.get(1)?.as_str().to_owned())
}

/// `text` with every match of the regular expression `pattern` replaced as
/// `replacement` says; none for a pattern that the engine refuses.
pub uninterp spec fn regex_replaced(pattern: Seq<char>, text: Seq<char>, replacement: Seq<char>) -> Option<
    Seq<char>,
>;

/// `regex::Regex::new` and `Regex::replace_all`: the text with every
/// match replaced, which depends on pattern, text and replacement alone.
#[verifier::external_body]
pub(crate) fn regex_replace_all(pattern: &str, text: &str, replacement: &str) -> (out: Option<String>)
    ensures
        match out {
            Some(replaced) => regex_replaced(pattern@, text@, replacement@) == Some(replaced@),
            None => regex_replaced(pattern@, text@, replacement@) is None,
        },
{
    match regex::Regex::new(pattern) {
        Ok(re) => Some(re.replace_all(text, replacement).into_owned()),
        Err(_) => None,
    }
}

/// How many matches of the regular expression `pattern` stand in `text`,
/// one after the other; none for a pattern that the engine refuses.
pub uninterp spec fn regex_matches(pattern: Seq<char>, text: Seq<char>) -> Option<nat>;

/// `regex::Regex::new` and the length of `Regex::find_iter`: the number of
/// matches, which depends on pattern and text alone.
#[verifier::external_body]
pub(crate) fn regex_count(pattern: &str, text: &str) -> (out: Option<usize>)
    ensures
        match out {
            Some(n) => regex_matches(pattern@, text@) == Some(n as nat),
            None => regex_matches(pattern@, text@) is None,
        },
{
    match regex::Regex::new(pattern) {
        Ok(re) => Some(re.find_iter(text).count()),
        Err(_) => None,
    }
}

/// `text` without white space at its ends, as `str::trim` gives it.
pub uninterp spec fn trimmed_text(text: Seq<char>) -> Seq<char>;

/// `str::trim` from std: the text without white space at its ends, which
/// depends on the text alone.
#[verifier::external_body]
pub(crate) fn trim_text(text: &str) -> (out: String)
    ensures
        out@ == trimmed_text(text@),
{
    text.trim().to_owned()
}

/// What was read out of a rules text, with notes on what was found and on
/// what is in conflict.
#[derive(Debug)]
pub struct ExtractionResult {
    pub underlier: Option<Underlier>,
    pub comparator: Option<Comparator>,
    /// The price level, in millionths.
    pub level: Option<i64>,
    pub measure: PriceMeasure,
    pub window: TimeWindow,
    pub source: PriceSource,
    pub notes: Vec<String>,
    pub conflicts: Vec<String>,
}

/// The texts of a list of strings.
pub open spec fn note_texts(notes: Seq<String>) -> Seq<Seq<char>> {
    notes.map_values(|n: String| n@)
}

impl ExtractionResult {
    /// A result that holds nothing.
    pub fn new() -> (out: ExtractionResult)
        ensures
            out.underlier is None,
            out.comparator is None,
            out.level is None,
            out.measure == PriceMeasure::Unknown,
            out.window == (TimeWindow {
                kind: TimeWindowKind::Unknown,
                start_ts: None,
                end_ts: None,
            }),
            out.source is Unknown,
            out.notes@ == Seq::<String>::empty(),
            out.conflicts@ == Seq::<String>::empty(),
    {
        ExtractionResult {
            underlier: None,
            comparator: None,
            level: None,
            measure: PriceMeasure::Unknown,
            window: TimeWindow { kind: TimeWindowKind::Unknown, start_ts: None, end_ts: None },
            source: PriceSource::Unknown,
            notes: Vec::new(),
            conflicts: Vec::new(),
        }
    }

    /// Adds a note.
    pub fn add_note(&mut self, note: &str)
        ensures
            note_texts(final(self).notes@) == note_texts(old(self).notes@).push(note@),
            final(self).conflicts == old(self).conflicts,
            final(self).underlier == old(self).underlier,
            final(self).comparator == old(self).comparator,
            final(self).level == old(self).level,
            final(self).measure == old(self).measure,
            final(self).window == old(self).window,
            final(self).source == old(self).source,
    {
        self.notes.push(note.to_owned());
        assert(note_texts(self.notes@) =~= note_texts(old(self).notes@).push(note@));
    }

    /// Adds a conflict.
    pub fn add_conflict(&mut self, conflict: &str)
        ensures
            note_texts(final(self).conflicts@) == note_texts(old(self).conflicts@).push(conflict@),
            final(self).notes == old(self).notes,
            final(self).underlier == old(self).underlier,
            final(self).comparator == old(self).comparator,
            final(self).level == old(self).level,
            final(self).measure == old(self).measure,
            final(self).window == old(self).window,
            final(self).source == old(self).source,
    {
        self.conflicts.push(conflict.to_owned());
        assert(note_texts(self.conflicts@) =~= note_texts(old(self).conflicts@).push(conflict@));
    }
}

/// The text in the form in which it is parsed: in lower case, the commas
/// within numbers taken out, every run of white space one blank, nothing at
/// the ends. A step whose pattern the regex engine refuses is left out.
pub open spec fn spec_normalized(text: Seq<char>) -> Seq<char> {
    let lower = lower_text(text);
    let plain = match regex_replaced("(\\d),(\\d)"@, lower, "$1$2"@) {
        Some(t) => t,
        None => lower,
    };
    let spaced = match regex_replaced("\\s+"@, plain, " "@) {
        Some(t) => t,
        None => plain,
    };
    trimmed_text(spaced)
}

/// Brings a text into the form in which it is parsed.
pub fn normalize_text(text: &str) -> (out: String)
    ensures
        out@ == spec_normalized(text@),
{
    let lower = to_lower(text);
    let plain = match regex_replace_all("(\\d),(\\d)", lower.as_str(), "$1$2") {
        Some(t) => t,
        None => lower,
    };
    let spaced = match regex_replace_all("\\s+", plain.as_str(), " ") {
        Some(t) => t,
        None => plain,
    };
    trim_text(spaced.as_str())
}

/// The name under which the first regular expression of `table` that
/// matches in `text` is listed.
pub open spec fn first_matching(text: Seq<char>, table: Seq<(Seq<char>, Seq<char>)>) -> Option<
    Seq<char>,
>
    decreases table.len(),
{
    if table.len() == 0 {
        None
    } else if regex_match(table[0].0, text) == Some(true) {
        Some(table[0].1)
    } else {
        first_matching(text, table.drop_first())
    }
}

/// Looks `text` up in a table of regular expressions and names.
fn lookup_matching(text: &str, table: &[(&'static str, &'static str)]) -> (out: Option<&'static str>)
    ensures
        match out {
            Some(name) => first_matching(text@, table_view(table@)) == Some(name@),
            None => first_matching(text@, table_view(table@)) is None,
        },
{
    let ghost rows = table_view(table@);
    assert(rows.skip(0) =~= rows);
    let mut i: usize = 0;
    while i < table.len()
        invariant
            i <= table.len(),
            rows == table_view(table@),
            first_matching(text@, rows) == first_matching(text@, rows.skip(i as int)),
        decreases table.len() - i,
    {
        assert(rows.skip(i as int)[0] == rows[i as int]);
        assert(rows.skip(i as int).drop_first() =~= rows.skip(i + 1));
        if matches(table[i].0, text) {
            return Some(table[i].1);
        }
        i += 1;
    }
    None
}

/// The underliers that rules may name, by regular expression and symbol.
pub open spec fn underlier_table() -> Seq<(Seq<char>, Seq<char>)> {
    seq![
        ("(?i)\\b(bitcoin|btc)\\b"@, "BTC"@),
        ("(?i)\\b(ethereum|eth)\\b"@, "ETH"@),
        ("(?i)\\b(solana|sol)\\b"@, "SOL"@),
        ("(?i)\\b(xrp|ripple)\\b"@, "XRP"@),
        ("(?i)\\b(dogecoin|doge)\\b"@, "DOGE"@),
        ("(?i)\\b(cardano|ada)\\b"@, "ADA"@),
        ("(?i)\\b(polkadot|dot)\\b"@, "DOT"@),
        ("(?i)\\b(chainlink|link)\\b"@, "LINK"@),
        ("(?i)\\b(avalanche|avax)\\b"@, "AVAX"@),
        ("(?i)\\b(polygon|matic)\\b"@, "MATIC"@),
        ("(?i)\\bs&?p\\s*500\\b"@, "SP500"@),
        ("(?i)\\bnasdaq\\b"@, "NASDAQ"@),
        ("(?i)\\bdow\\s*jones\\b"@, "DJI"@),
        ("(?i)\\bgold\\b"@, "GOLD"@),
        ("(?i)\\bsilver\\b"@, "SILVER"@),
        ("(?i)\\boil\\b"@, "OIL"@),
    ]
}

/// Reads the underlier out of a rules text: the first of the table whose
/// expression matches.
pub fn extract_underlier(text: &str) -> (out: Option<Underlier>)
    ensures
        match out {
            Some(u) => {
                &&& first_matching(text@, underlier_table()) is Some
                &&& u.kind@ == upper_text(first_matching(text@, underlier_table())->0)
                &&& u.venue_symbol is None
            },
            None => first_matching(text@, underlier_table()) is None,
        },
{
    let table: [(&'static str, &'static str); 16] = [
        ("(?i)\\b(bitcoin|btc)\\b", "BTC"),
        ("(?i)\\b(ethereum|eth)\\b", "ETH"),
        ("(?i)\\b(solana|sol)\\b", "SOL"),
        ("(?i)\\b(xrp|ripple)\\b", "XRP"),
        ("(?i)\\b(dogecoin|doge)\\b", "DOGE"),
        ("(?i)\\b(cardano|ada)\\b", "ADA"),
        ("(?i)\\b(polkadot|dot)\\b", "DOT"),
        ("(?i)\\b(chainlink|link)\\b", "LINK"),
        ("(?i)\\b(avalanche|avax)\\b", "AVAX"),
        ("(?i)\\b(polygon|matic)\\b", "MATIC"),
        ("(?i)\\bs&?p\\s*500\\b", "SP500"),
        ("(?i)\\bnasdaq\\b", "NASDAQ"),
        ("(?i)\\bdow\\s*jones\\b", "DJI"),
        ("(?i)\\bgold\\b", "GOLD"),
        ("(?i)\\bsilver\\b", "SILVER"),
        ("(?i)\\boil\\b", "OIL"),
    ];
    assert(table_view(table@) =~= underlier_table());
    match lookup_matching(text, table.as_slice()) {
        Some(symbol) => Some(Underlier::new(symbol)),
        None => None,
    }
}

/// The comparator that a rules text names: at or above, at or below,
/// above, below, by the first of their expressions that matches. The
/// phrases with `or` go first.
pub open spec fn spec_comparator(text: Seq<char>) -> Option<Comparator> {
    if regex_match("at or above|>=|≥|at least"@, text) == Some(true) {
        Some(Comparator::GE)
    } else if regex_match("at or below|<=|≤|at most"@, text) == Some(true) {
        Some(Comparator::LE)
    } else if regex_match("above|greater than|exceed|over|reach|hit"@, text) == Some(true) {
        Some(Comparator::GT)
    } else if regex_match("below|less than|under|dip to|fall to|drop to"@, text) == Some(true) {
        Some(Comparator::LT)
    } else {
        None
    }
}

/// Whether the regular expression `pattern` matches somewhere in `text`.
fn matches(pattern: &str, text: &str) -> (out: bool)
    ensures
        out == (regex_match(pattern@, text@) == Some(true)),
{
    match regex_is_match(pattern, text) {
        Some(found) => found,
        None => false,
    }
}

/// Reads the comparator out of a rules text.
pub fn extract_comparator(text: &str) -> (out: Option<Comparator>)
    ensures
        out == spec_comparator(text@),
{
    if matches("at or above|>=|≥|at least", text) {
        Some(Comparator::GE)
    } else if matches("at or below|<=|≤|at most", text) {
        Some(Comparator::LE)
    } else if matches("above|greater than|exceed|over|reach|hit", text) {
        Some(Comparator::GT)
    } else if matches("below|less than|under|dip to|fall to|drop to", text) {
        Some(Comparator::LT)
    } else {
        None
    }
}

/// How far a decimal numeral has been read.
pub struct Scan {
    /// The digits before the point, as a number.
    pub whole: int,
    /// How many digits stand before the point.
    pub whole_digits: nat,
    /// Whether the point was read.
    pub point: bool,
    /// The first six digits behind the point, as a number.
    pub frac: int,
    /// How many digits stand behind the point.
    pub frac_digits: nat,
    /// Whether every character so far was a digit or the one point.
    pub ok: bool,
}

/// The value of a decimal digit, and -1 for any other character.
pub open spec fn digit_of(c: char) -> int {
    if '0' <= c <= '9' {
        c as int - '0' as int
    } else {
        -1
    }
}

/// The state after one more character.
pub open spec fn scan_step(st: Scan, c: char) -> Scan {
    if c == '.' {
        Scan { point: true, ok: st.ok && !st.point, ..st }
    } else if digit_of(c) < 0 {
        Scan { ok: false, ..st }
    } else if !st.point {
        Scan { whole: st.whole * 10 + digit_of(c), whole_digits: st.whole_digits + 1, ..st }
    } else if st.frac_digits < 6 {
        Scan { frac: st.frac * 10 + digit_of(c), frac_digits: st.frac_digits + 1, ..st }
    } else {
        Scan { frac_digits: st.frac_digits + 1, ..st }
    }
}

/// The state after the characters of `text`.
pub open spec fn scan(text: Seq<char>) -> Scan
    decreases text.len(),
{
    if text.len() == 0 {
        Scan { whole: 0, whole_digits: 0, point: false, frac: 0, frac_digits: 0, ok: true }
    } else {
        scan_step(scan(text.drop_last()), text.last())
    }
}

/// Ten to the power of `6 - digits`, for up to six digits.
pub open spec fn frac_scale(digits: nat) -> int {
    if digits == 0 {
        1_000_000
    } else if digits == 1 {
        100_000
    } else if digits == 2 {
        10_000
    } else if digits == 3 {
        1_000
    } else if digits == 4 {
        100
    } else if digits == 5 {
        10
    } else {
        1
    }
}

/// The value of a decimal numeral in millionths: digits, and optionally a
/// point with digits behind it, of which those beyond the sixth are cut
/// off. None for any other text.
pub open spec fn micros_of(text: Seq<char>) -> Option<int> {
    let st = scan(text);
    if st.ok && st.whole_digits > 0 && (!st.point || st.frac_digits > 0) {
        Some(st.whole * 1_000_000 + st.frac * frac_scale(st.frac_digits))
    } else {
        None
    }
}

/// Reads a decimal numeral as a number of millionths, taken `factor`
/// times. None for a text that is no such numeral, and for a value times
/// `factor` beyond `i64`.
pub fn parse_micros(text: &str, factor: i64) -> (out: Option<i64>)
    ensures
        out == match micros_of(text@) {
            Some(v) => if i64::MIN <= v * factor <= i64::MAX {
                Some((v * factor) as i64)
            } else {
                None
            },
            None => None,
        },
        micros_of(text@) matches Some(v) ==> v >= 0,
{
    let n = text.unicode_len();
    let mut whole: i128 = 0;
    let mut whole_digits: usize = 0;
    let mut point = false;
    let mut frac: i128 = 0;
    let mut frac_digits: usize = 0;
    // A whole part beyond this bound is beyond `i64` whatever follows.
    let mut huge = false;
    let mut i: usize = 0;
    assert(text@.take(0) =~= Seq::<char>::empty());
    while i < n
        invariant
            i <= n,
            n == text@.len(),
            scan(text@.take(i as int)).ok,
            scan(text@.take(i as int)).point == point,
            scan(text@.take(i as int)).whole_digits == whole_digits,
            scan(text@.take(i as int)).frac_digits == frac_digits,
            scan(text@.take(i as int)).frac == frac,
            0 <= frac < 1_000_000,
            frac_digits <= i,
            whole_digits <= i,
            0 <= whole <= 10_000_000_000_000,
            !huge ==> scan(text@.take(i as int)).whole == whole,
            huge ==> scan(text@.take(i as int)).whole >= 10_000_000_000_000,
            scan(text@.take(i as int)).whole >= 0,
            frac_digits == 0 ==> frac == 0,
            frac_digits == 1 ==> frac < 10,
            frac_digits == 2 ==> frac < 100,
            frac_digits == 3 ==> frac < 1000,
            frac_digits == 4 ==> frac < 10_000,
            frac_digits == 5 ==> frac < 100_000,
        decreases n - i,
    {
        let c = text.get_char(i);
        proof {
            assert(text@.take(i + 1).drop_last() =~= text@.take(i as int));
            assert(text@.take(i + 1).last() == c);
        }
        if c == '.' {
            if point {
                proof {
                    lemma_scan_stays_bad(text@, i + 1);
                }
                return None;
            }
            point = true;
        } else if '0' <= c && c <= '9' {
            let d: i128 = (c as u32 - '0' as u32) as i128;
            if !point {
                if huge || whole * 10 + d >= 10_000_000_000_000 {
                    huge = true;
                    whole = 10_000_000_000_000;
                } else {
                    whole = whole * 10 + d;
                }
                whole_digits += 1;
            } else {
                if frac_digits < 6 {
                    frac = frac * 10 + d;
                }
                frac_digits += 1;
            }
        } else {
            proof {
                lemma_scan_stays_bad(text@, i + 1);
            }
            return None;
        }
        i += 1;
    }
    assert(text@.take(n as int) =~= text@);
    if whole_digits == 0 || (point && frac_digits == 0) {
        return None;
    }
    if huge {
        proof {
            let st = scan(text@);
            let v = st.whole * 1_000_000 + st.frac * frac_scale(st.frac_digits);
            assert(st.frac * frac_scale(st.frac_digits) >= 0) by (nonlinear_arith)
                requires
                    st.frac >= 0,
                    frac_scale(st.frac_digits) >= 0,
            ;
            assert(factor >= 1 ==> v * factor > i64::MAX) by (nonlinear_arith)
                requires
                    v >= 10_000_000_000_000 * 1_000_000,
            ;
            assert(factor <= -1 ==> v * factor < i64::MIN) by (nonlinear_arith)
                requires
                    v >= 10_000_000_000_000 * 1_000_000,
            ;
        }
        return if factor == 0 {
            Some(0)
        } else {
            None
        };
    }
    let scale: i128 = if frac_digits == 0 {
        1_000_000
    } else if frac_digits == 1 {
        100_000
    } else if frac_digits == 2 {
        10_000
    } else if frac_digits == 3 {
        1_000
    } else if frac_digits == 4 {
        100
    } else if frac_digits == 5 {
        10
    } else {
        1
    };
    assert(0 <= frac * scale <= 1_000_000_000_000) by (nonlinear_arith)
        requires
            0 <= frac < 1_000_000,
            1 <= scale <= 1_000_000,
    ;
    let micros: i128 = whole * 1_000_000 + frac * scale;
    assert(-100_000_000_000_000_000_000_000_000_000_000_000_000 <= micros * (factor as i128)
        <= 100_000_000_000_000_000_000_000_000_000_000_000_000) by (nonlinear_arith)
        requires
            0 <= micros <= 10_000_001_000_000_000_000,
            -9_223_372_036_854_775_808 <= factor <= 9_223_372_036_854_775_807,
    ;
    let value: i128 = micros * (factor as i128);
    if i64::MIN as i128 <= value && value <= i64::MAX as i128 {
        Some(value as i64)
    } else {
        None
    }
}

/// Once a character was refused, the text is refused.
proof fn lemma_scan_stays_bad(text: Seq<char>, n: int)
    requires
        0 <= n <= text.len(),
        !scan(text.take(n)).ok,
    ensures
        !scan(text).ok,
    decreases text.len() - n,
{
    if n < text.len() {
        assert(text.take(n + 1).drop_last() =~= text.take(n));
        lemma_scan_stays_bad(text, n + 1);
    } else {
        assert(text.take(n) =~= text);
    }
}

/// The level found by one pattern: what its first group holds, read as a
/// numeral and taken `factor` times.
pub open spec fn level_by(pattern: Seq<char>, text: Seq<char>, factor: int) -> Option<i64> {
    match regex_group(pattern, text) {
        Some(group) => match micros_of(group) {
            Some(v) => if v * factor <= i64::MAX {
                Some((v * factor) as i64)
            } else {
                None
            },
            None => None,
        },
        None => None,
    }
}

/// The price level that a rules text names, in millionths: an amount in
/// dollars; else a number of thousands, written with `k`; else the number
/// behind `above`, `below`, `reach`, `hit` or `exceed`.
pub open spec fn spec_level(text: Seq<char>) -> Option<i64> {
    if level_by("\\$\\s*([0-9]+(?:\\.[0-9]+)?)"@, text, 1) is Some {
        level_by("\\$\\s*([0-9]+(?:\\.[0-9]+)?)"@, text, 1)
    } else if level_by("\\b([0-9]+(?:\\.[0-9]+)?)\\s*[kK]\\b"@, text, 1000) is Some {
        level_by("\\b([0-9]+(?:\\.[0-9]+)?)\\s*[kK]\\b"@, text, 1000)
    } else {
        level_by("(?:above|below|reach|hit|exceed)\\s+([0-9]+(?:\\.[0-9]+)?)"@, text, 1)
    }
}

/// The level found by one pattern.
fn find_level(pattern: &str, text: &str, factor: i64) -> (out: Option<i64>)
    requires
        1 <= factor <= 1000,
    ensures
        out == level_by(pattern@, text@, factor as int),
{
    match regex_first_group(pattern, text) {
        Some(group) => parse_micros(group.as_str(), factor),
        None => None,
    }
}

/// Reads the price level out of a rules text.
pub fn extract_level(text: &str) -> (out: Option<i64>)
    ensures
        out == spec_level(text@),
{
    match find_level("\\$\\s*([0-9]+(?:\\.[0-9]+)?)", text, 1) {
        Some(v) => {
            return Some(v);
        },
        None => {},
    }
    match find_level("\\b([0-9]+(?:\\.[0-9]+)?)\\s*[kK]\\b", text, 1000) {
        Some(v) => {
            return Some(v);
        },
        None => {},
    }
    find_level("(?:above|below|reach|hit|exceed)\\s+([0-9]+(?:\\.[0-9]+)?)", text, 1)
}

/// The conflicts of a rules text, in the order in which they are noted:
/// a time window both at any time and at the close; more than one amount
/// in dollars; words for above and for below.
pub open spec fn spec_conflicts(text: Seq<char>) -> Seq<Seq<char>> {
    let any_time = has_text(text, "any time"@) || has_text(text, "at any point"@);
    let at_close = has_text(text, "at close"@) || has_text(text, "closing price on"@);
    let many = match regex_matches("\\$\\s*[0-9]+"@, text) {
        Some(n) => n > 1,
        None => false,
    };
    let has_above = has_text(text, "above"@) || has_text(text, "reach"@) || has_text(
        text,
        "exceed"@,
    );
    let has_below = has_text(text, "below"@) || has_text(text, "dip"@) || has_text(text, "fall"@);
    (if any_time && at_close {
        seq!["Conflicting time window: 'any time' and 'at close'"@]
    } else {
        Seq::empty()
    }) + (if many {
        seq!["Multiple price levels found"@]
    } else {
        Seq::empty()
    }) + (if has_above && has_below {
        seq!["Ambiguous comparator: both 'above' and 'below' present"@]
    } else {
        Seq::empty()
    })
}

/// Notes the conflicts of a rules text in `result`.
pub fn check_conflicts(text: &str, result: &mut ExtractionResult)
    ensures
        note_texts(final(result).conflicts@) == note_texts(old(result).conflicts@) + spec_conflicts(
            text@,
        ),
        final(result).notes == old(result).notes,
        final(result).underlier == old(result).underlier,
        final(result).comparator == old(result).comparator,
        final(result).level == old(result).level,
        final(result).measure == old(result).measure,
        final(result).window == old(result).window,
        final(result).source == old(result).source,
{
    let ghost start = note_texts(result.conflicts@);
    let any_time = contains_text(text, "any time") || contains_text(text, "at any point");
    let at_close = contains_text(text, "at close") || contains_text(text, "closing price on");
    if any_time && at_close {
        result.add_conflict("Conflicting time window: 'any time' and 'at close'");
    }
    let many = match regex_count("\\$\\s*[0-9]+", text) {
        Some(n) => n > 1,
        None => false,
    };
    if many {
        result.add_conflict("Multiple price levels found");
    }
    let has_above = contains_text(text, "above") || contains_text(text, "reach") || contains_text(
        text,
        "exceed",
    );
    let has_below = contains_text(text, "below") || contains_text(text, "dip") || contains_text(
        text,
        "fall",
    );
    if has_above && has_below {
        result.add_conflict("Ambiguous comparator: both 'above' and 'below' present");
    }
    assert(note_texts(result.conflicts@) =~= start + spec_conflicts(text@));
}

/// The proposition that a result gives: a price barrier where underlier,
/// comparator and level were found, else an event without description.
pub fn build_proposition(result: &ExtractionResult) -> (out: PropositionKind)
    ensures
        match out {
            PropositionKind::PriceBarrier {
                underlier,
                comparator,
                level,
                measure,
                window,
                source,
            } => {
                &&& result.underlier is Some && result.comparator is Some && result.level is Some
                &&& underlier.kind@ == result.underlier->0.kind@
                &&& comparator == result.comparator->0
                &&& level == result.level->0
                &&& measure == result.measure
                &&& window == result.window
                &&& source_view(source) == source_view(result.source)
            },
            PropositionKind::YesNoEvent { description, window } => {
                &&& !(result.underlier is Some && result.comparator is Some && result.level is Some)
                &&& description@ == Seq::<char>::empty()
                &&& window == result.window
            },
            _ => false,
        },
{
    match (&result.underlier, result.comparator, result.level) {
        (Some(underlier), Some(comparator), Some(level)) => PropositionKind::PriceBarrier {
            underlier: underlier.cloned(),
            comparator,
            level,
            measure: result.measure,
            window: result.window,
            source: result.source.cloned(),
        },
        _ => PropositionKind::YesNoEvent { description: String::new(), window: result.window },
    }
}

/// The notes on what was found in a result, in the order in which it is
/// looked for.
pub open spec fn spec_notes(
    underlier: bool,
    level: bool,
    comparator: bool,
    measure: bool,
    window: bool,
    source: bool,
) -> Seq<Seq<char>> {
    (if underlier {
        seq!["Underlier extracted"@]
    } else {
        Seq::empty()
    }) + (if level {
        seq!["Price level extracted"@]
    } else {
        Seq::empty()
    }) + (if comparator {
        seq!["Comparator extracted"@]
    } else {
        Seq::empty()
    }) + (if measure {
        seq!["Price measure extracted"@]
    } else {
        Seq::empty()
    }) + (if window {
        seq!["Time window extracted"@]
    } else {
        Seq::empty()
    }) + (if source {
        seq!["Price source extracted"@]
    } else {
        Seq::empty()
    })
}

/// Whether a rules text gives a price barrier: it names an underlier, a
/// comparator and a level.
pub open spec fn spec_is_barrier(text: Seq<char>) -> bool {
    first_matching(text, underlier_table()) is Some && spec_comparator(text) is Some && spec_level(
        text,
    ) is Some
}

/// The notes on what is found in a rules text.
pub open spec fn spec_text_notes(text: Seq<char>) -> Seq<Seq<char>> {
    spec_notes(
        first_matching(text, underlier_table()) is Some,
        spec_level(text) is Some,
        spec_comparator(text) is Some,
        spec_measure(text) != PriceMeasure::Unknown,
        spec_window_kind(text) != TimeWindowKind::Unknown,
        spec_source(text).0 != 0,
    )
}

/// The text of a record in the form in which it is parsed.
pub open spec fn record_text(record: RulesRecord) -> Seq<char> {
    spec_normalized(lower_text(record.raw_rules_text@))
}

/// Reads the proposition out of a rules record: its text is normalized,
/// then underlier, level, comparator, measure, time window and source are
/// looked for, each find is noted, conflicts are noted, and the
/// proposition is built from what was found.
pub fn extract_proposition(record: &RulesRecord) -> (out: (PropositionKind, ExtractionResult))
    ensures
        ({
            let text = spec_normalized(lower_text(record.raw_rules_text@));
            let result = out.1;
            &&& result.underlier is Some == first_matching(text, underlier_table()) is Some
            &&& result.underlier is Some ==> result.underlier->0.kind@ == upper_text(
                first_matching(text, underlier_table())->0,
            )
            &&& result.level == spec_level(text)
            &&& result.comparator == spec_comparator(text)
            &&& result.measure == spec_measure(text)
            &&& result.window == (TimeWindow {
                kind: spec_window_kind(text),
                start_ts: None,
                end_ts: record.close_ts,
            })
            &&& source_view(result.source) == spec_source(text)
            &&& note_texts(result.notes@) == spec_notes(
                result.underlier is Some,
                result.level is Some,
                result.comparator is Some,
                result.measure != PriceMeasure::Unknown,
                result.window.kind != TimeWindowKind::Unknown,
                !(result.source is Unknown),
            )
            &&& note_texts(result.notes@) == spec_text_notes(text)
            &&& note_texts(result.conflicts@) == spec_conflicts(text)
            &&& out.0 is PriceBarrier == spec_is_barrier(text)
            &&& match out.0 {
                PropositionKind::PriceBarrier {
                    underlier,
                    comparator,
                    level,
                    measure,
                    window,
                    source,
                } => {
                    &&& underlier.kind@ == upper_text(first_matching(text, underlier_table())->0)
                    &&& Some(comparator) == spec_comparator(text)
                    &&& Some(level) == spec_level(text)
                    &&& measure == spec_measure(text)
                    &&& window == result.window
                    &&& source_view(source) == spec_source(text)
                },
                PropositionKind::YesNoEvent { description, window } => {
                    &&& description@ == Seq::<char>::empty()
                    &&& window == result.window
                },
                _ => false,
            }
        }),
{
    let text_lower = to_lower(record.raw_rules_text.as_str());
    let text = normalize_text(text_lower.as_str());
    let mut result = ExtractionResult::new();
    assert(note_texts(result.notes@) =~= Seq::<Seq<char>>::empty());
    assert(note_texts(result.conflicts@) =~= Seq::<Seq<char>>::empty());
    result.underlier = extract_underlier(text.as_str());
    if result.underlier.is_some() {
        result.add_note("Underlier extracted");
    }
    result.level = extract_level(text.as_str());
    if result.level.is_some() {
        result.add_note("Price level extracted");
    }
    result.comparator = extract_comparator(text.as_str());
    if result.comparator.is_some() {
        result.add_note("Comparator extracted");
    }
    result.measure = extract_measure(text.as_str());
    match result.measure {
        PriceMeasure::Unknown => {},
        _ => {
            result.add_note("Price measure extracted");
        },
    }
    result.window = extract_time_window(text.as_str(), record.close_ts);
    match result.window.kind {
        TimeWindowKind::Unknown => {},
        _ => {
            result.add_note("Time window extracted");
        },
    }
    result.source = extract_source(text.as_str());
    if !result.source.is_unknown() {
        result.add_note("Price source extracted");
    }
    assert(note_texts(result.notes@) =~= spec_notes(
        result.underlier is Some,
        result.level is Some,
        result.comparator is Some,
        result.measure != PriceMeasure::Unknown,
        result.window.kind != TimeWindowKind::Unknown,
        !(result.source is Unknown),
    ));
    check_conflicts(text.as_str(), &mut result);
    let proposition = build_proposition(&result);
    (proposition, result)
}

} // verus!
