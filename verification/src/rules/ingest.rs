//! The records of rule texts, and where they come from.

use vstd::prelude::*;
use vstd::string::StringExecFns;
use crate::rules::extract::{
    contains_text, has_text, level_by, lower_text, micros_of, parse_micros, regex_first_group,
    regex_group, to_lower,
};
use crate::text::{decimal, push_decimal};
use crate::timebucket::TimeBucket;

verus! {

/// The SHA-256 of `data`, as 64 hex digits in lower case.
pub uninterp spec fn sha256_hex_text(data: Seq<u8>) -> Seq<char>;

/// `sha2::Sha256` through `Digest::digest`, the digest of 32 bytes
/// formatted as lower-case hex: 64 characters, which depend on the bytes
/// alone.
#[verifier::external_body]
pub(crate) fn sha256_hex(data: &[u8]) -> (out: String)
    ensures
        out@ == sha256_hex_text(data@),
        out@.len() == 64,
{
    format!("{:x}", <sha2::Sha256 as sha2::Digest>::digest(data))
}

/// The raw rules of one market, as they were fetched.
#[derive(Clone, Debug)]
pub struct RulesRecord {
    pub venue: String,
    pub market_id: String,
    pub outcome_id: Option<String>,
    pub url: Option<String>,
    /// When the rules were fetched, in epoch milliseconds.
    pub fetched_ts: i64,
    pub title: String,
    pub close_ts: Option<i64>,
    pub raw_rules_text: String,
    pub raw_resolution_source: Option<String>,
    /// The venue's answer as JSON text, if it was kept.
    pub raw_json: Option<String>,
}

impl RulesRecord {
    /// The SHA-256 of the raw rules text, in lower-case hex.
    pub fn rules_hash(&self) -> (out: String)
        ensures
            out@ == sha256_hex_text(vstd::utf8::encode_utf8(self.raw_rules_text@)),
    {
        sha256_hex(self.raw_rules_text.as_str().as_bytes())
    }
}

/// A market of the universe file.
#[derive(Clone, Debug)]
pub struct UniverseMarket {
    pub market_id: String,
    pub title: String,
    pub outcome_ids: Vec<String>,
    pub close_ts: Option<i64>,
    pub status: String,
    pub tags: Vec<String>,
    pub token_ids: Vec<String>,
}

/// How rules are ingested.
#[derive(Clone, Debug)]
pub struct IngestConfig {
    pub venue: String,
    /// The day of the universe, as `YYYY-MM-DD`.
    pub date: String,
    pub data_dir: String,
    pub force_refetch: bool,
    pub concurrency: usize,
    pub rate_limit_ms: u64,
    /// The most markets to process; all of them without a limit.
    pub limit: Option<usize>,
}

impl Default for IngestConfig {
    /// Venue `polymarket`, today, directory `data`, two at a time, a tenth
    /// of a second apart, without limit.
    fn default() -> (out: IngestConfig)
        ensures
            out.venue@ == "polymarket"@,
            out.data_dir@ == "data"@,
            exists|at: int|
                crate::timebucket::MIN_UTC_MS <= at <= crate::timebucket::MAX_UTC_MS && out.date@
                    == (#[trigger] crate::timebucket::bucket_at(at, 1)).spec_date_text(),
            !out.force_refetch,
            out.concurrency == 2,
            out.rate_limit_ms == 100,
            out.limit is None,
    {
        let today = TimeBucket::from_now(1);
        let (date, _) = today.path_segments();
        IngestConfig {
            venue: String::from_str("polymarket"),
            date,
            data_dir: String::from_str("data"),
            force_refetch: false,
            concurrency: 2,
            rate_limit_ms: 100,
            limit: None,
        }
    }
}

/// `text` without its commas.
pub open spec fn commas_removed(text: Seq<char>) -> Seq<char> {
    text.filter(|c: char| c != ',')
}

/// `str::replace` from std, replacing each comma by nothing.
#[verifier::external_body]
fn remove_commas(text: &str) -> (out: String)
    ensures
        out@ == commas_removed(text@),
{
    text.replace(',', "")
}

/// The strike that a title names, in millionths: an amount in dollars,
/// which may hold commas; else a number of thousands, written with `k`.
/// An amount in dollars that cannot be read gives none.
pub open spec fn spec_strike(title: Seq<char>) -> Option<i64> {
    match regex_group("\\$([0-9,]+(?:\\.[0-9]+)?)"@, title) {
        Some(group) => match micros_of(commas_removed(group)) {
            Some(v) => if v <= i64::MAX {
                Some(v as i64)
            } else {
                None
            },
            None => None,
        },
        None => level_by("([0-9]+(?:\\.[0-9]+)?)\\s*[kK]"@, title, 1000),
    }
}

/// Reads the strike out of a title.
pub fn extract_strike_from_title(title: &str) -> (out: Option<i64>)
    ensures
        out == spec_strike(title@),
{
    match regex_first_group("\\$([0-9,]+(?:\\.[0-9]+)?)", title) {
        Some(group) => {
            let plain = remove_commas(group.as_str());
            parse_micros(plain.as_str(), 1)
        },
        None => match regex_first_group("([0-9]+(?:\\.[0-9]+)?)\\s*[kK]", title) {
            Some(group) => parse_micros(group.as_str(), 1000),
            None => None,
        },
    }
}

/// A number of millionths as whole units, rounded to the nearest and a
/// half to the even one.
pub open spec fn rounded_units(micros: i64) -> int {
    let whole = micros as int / 1_000_000;
    let rest = micros as int % 1_000_000;
    if rest > 500_000 || (rest == 500_000 && whole % 2 != 0) {
        whole + 1
    } else {
        whole
    }
}

/// A number of millionths, not negative, as whole units.
pub(crate) fn round_units(micros: i64) -> (out: u64)
    requires
        micros >= 0,
    ensures
        out == rounded_units(micros),
{
    let whole = (micros / 1_000_000) as u64;
    let rest = micros % 1_000_000;
    if rest > 500_000 || (rest == 500_000 && whole % 2 != 0) {
        whole + 1
    } else {
        whole
    }
}

/// An ingestor that makes up rules, for trials.
pub struct MockIngestor {
    venue: String,
}

impl MockIngestor {
    /// The venue that the ingestor stands for.
    pub closed spec fn spec_venue(&self) -> Seq<char> {
        self.venue@
    }

    /// A mock ingestor for venue `venue`.
    pub fn new(venue: &str) -> (out: MockIngestor)
        ensures
            out.spec_venue() == venue@,
    {
        MockIngestor { venue: venue.to_owned() }
    }

    /// The venue that the ingestor stands for.
    pub fn venue(&self) -> (out: &str)
        ensures
            out@ == self.spec_venue(),
    {
        self.venue.as_str()
    }

    /// Rules made up from a market's title: those of a price ladder where
    /// the title names a strike, else those of a yes-or-no event.
    pub fn generate_btc_ladder_rules(&self, market: &UniverseMarket) -> (out: String)
        ensures
            out@ == spec_mock_rules(market.title@),
    {
        let title_lower = to_lower(market.title.as_str());
        match extract_strike_from_title(title_lower.as_str()) {
            Some(strike) => {
                if strike >= 0 {
                    let mut strike_text = String::new();
                    push_decimal(&mut strike_text, round_units(strike));
                    assert(strike_text@ =~= decimal(rounded_units(strike) as nat));
                    Self::ladder_rules(
                        Self::underlier_phrase(title_lower.as_str()),
                        Self::comparator_phrase(title_lower.as_str()),
                        strike_text.as_str(),
                    )
                } else {
                    Self::generic_rules(market.title.as_str())
                }
            },
            None => Self::generic_rules(market.title.as_str()),
        }
    }

    /// The record that the mock venue gives for `market` at `now_ms`: made-up
    /// rules, resolved by Coinbase.
    pub fn fetch_rules(&self, market: &UniverseMarket, now_ms: i64) -> (out: RulesRecord)
        ensures
            out.venue@ == self.spec_venue(),
            out.market_id@ == market.market_id@,
            out.outcome_id is None,
            out.url is Some && out.url->0@ == "https://mock.venue/"@ + market.market_id@,
            out.fetched_ts == now_ms,
            out.title@ == market.title@,
            out.close_ts == market.close_ts,
            out.raw_rules_text@ == spec_mock_rules(market.title@),
            out.raw_resolution_source is Some && out.raw_resolution_source->0@ == "Coinbase"@,
            out.raw_json is None,
    {
        let mut url = String::from_str("https://mock.venue/");
        url.append(market.market_id.as_str());
        RulesRecord {
            venue: self.venue.clone(),
            market_id: market.market_id.clone(),
            outcome_id: None,
            url: Some(url),
            fetched_ts: now_ms,
            title: market.title.clone(),
            close_ts: market.close_ts,
            raw_rules_text: self.generate_btc_ladder_rules(market),
            raw_resolution_source: Some(String::from_str("Coinbase")),
            raw_json: None,
        }
    }

    /// The comparator phrase of a title in lower case: the first of `>=`,
    /// `at or above`, `reach`; `>`, `above`; `<=`, `at or below`; `<`,
    /// `below`, `dip` that the title holds, and `at or above` without any.
    pub fn comparator_phrase(title_lower: &str) -> (out: &'static str)
        ensures
            out@ == spec_comparator_phrase(title_lower@),
    {
        if contains_text(title_lower, ">=") || contains_text(title_lower, "at or above")
            || contains_text(title_lower, "reach") {
            "at or above"
        } else if contains_text(title_lower, ">") || contains_text(title_lower, "above") {
            "above"
        } else if contains_text(title_lower, "<=") || contains_text(title_lower, "at or below") {
            "at or below"
        } else if contains_text(title_lower, "<") || contains_text(title_lower, "below")
            || contains_text(title_lower, "dip") {
            "below"
        } else {
            "at or above"
        }
    }

    /// The underlier phrase of a title in lower case: Bitcoin, Ethereum or
    /// Solana, by symbol or name, and Bitcoin without any.
    pub fn underlier_phrase(title_lower: &str) -> (out: &'static str)
        ensures
            out@ == spec_underlier_phrase(title_lower@),
    {
        if contains_text(title_lower, "btc") || contains_text(title_lower, "bitcoin") {
            "Bitcoin (BTC)"
        } else if contains_text(title_lower, "eth") || contains_text(title_lower, "ethereum") {
            "Ethereum (ETH)"
        } else if contains_text(title_lower, "sol") || contains_text(title_lower, "solana") {
            "Solana (SOL)"
        } else {
            "Bitcoin (BTC)"
        }
    }

    /// The rules of a yes-or-no event with the title `title`.
    pub fn generic_rules(title: &str) -> (out: String)
        ensures
            out@ == spec_generic_rules(title@),
    {
        let mut out = String::from_str("This market will resolve to \"Yes\" if ");
        out.append(title);
        out.append(" occurs before the market closes. Otherwise, it will resolve to \"No\".");
        out
    }

    /// The rules of a price ladder: the price of `underlier` is `comparator`
    /// the strike of `strike_text` dollars.
    pub fn ladder_rules(underlier: &str, comparator: &str, strike_text: &str) -> (out: String)
        ensures
            out@ == spec_ladder_rules(underlier@, comparator@, strike_text@),
    {
        let mut out = String::from_str("This market will resolve to \"Yes\" if the price of ");
        out.append(underlier);
        out.append(" is ");
        out.append(comparator);
        out.append(" $");
        out.append(strike_text);
        out.append(
            " at any time before the market closes, according to the spot price on Coinbase. Otherwise, it will resolve to \"No\".",
        );
        out
    }
}

/// The rules that the mock venue makes up for a title: those of a price
/// ladder where the title names a strike that is not negative, with the
/// strike in whole dollars; else those of a yes-or-no event.
pub open spec fn spec_mock_rules(title: Seq<char>) -> Seq<char> {
    match spec_strike(lower_text(title)) {
        Some(strike) => if strike >= 0 {
            spec_ladder_rules(
                spec_underlier_phrase(lower_text(title)),
                spec_comparator_phrase(lower_text(title)),
                decimal(rounded_units(strike) as nat),
            )
        } else {
            spec_generic_rules(title)
        },
        None => spec_generic_rules(title),
    }
}

/// The rules of a yes-or-no event.
pub open spec fn spec_generic_rules(title: Seq<char>) -> Seq<char> {
    "This market will resolve to \"Yes\" if "@ + title
        + " occurs before the market closes. Otherwise, it will resolve to \"No\"."@
}

/// The rules of a price ladder.
pub open spec fn spec_ladder_rules(underlier: Seq<char>, comparator: Seq<char>, strike: Seq<char>) -> Seq<
    char,
> {
    "This market will resolve to \"Yes\" if the price of "@ + underlier + " is "@ + comparator
        + " $"@ + strike
        + " at any time before the market closes, according to the spot price on Coinbase. Otherwise, it will resolve to \"No\"."@
}

/// The comparator phrase of a title in lower case.
pub open spec fn spec_comparator_phrase(title: Seq<char>) -> Seq<char> {
    if has_text(title, ">="@) || has_text(
        title,
        "at or above"@,
    ) || has_text(title, "reach"@) {
        "at or above"@
    } else if has_text(title, ">"@) || has_text(
        title,
        "above"@,
    ) {
        "above"@
    } else if has_text(title, "<="@) || has_text(
        title,
        "at or below"@,
    ) {
        "at or below"@
    } else if has_text(title, "<"@) || has_text(
        title,
        "below"@,
    ) || has_text(title, "dip"@) {
        "below"@
    } else {
        "at or above"@
    }
}

/// The underlier phrase of a title in lower case.
pub open spec fn spec_underlier_phrase(title: Seq<char>) -> Seq<char> {
    if has_text(title, "btc"@) || has_text(
        title,
        "bitcoin"@,
    ) {
        "Bitcoin (BTC)"@
    } else if has_text(title, "eth"@) || has_text(
        title,
        "ethereum"@,
    ) {
        "Ethereum (ETH)"@
    } else if has_text(title, "sol"@) || has_text(
        title,
        "solana"@,
    ) {
        "Solana (SOL)"@
    } else {
        "Bitcoin (BTC)"@
    }
}

/// An ingestor for the venue `kalshi`.
pub struct KalshiIngestor {
    api_url: String,
}

impl KalshiIngestor {
    /// The address of the venue's API.
    pub closed spec fn spec_api_url(&self) -> Seq<char> {
        self.api_url@
    }

    /// An ingestor for the venue's public API.
    pub fn new() -> (out: KalshiIngestor)
        ensures
            out.spec_api_url() == "https://trading-api.kalshi.com"@,
    {
        KalshiIngestor { api_url: String::from_str("https://trading-api.kalshi.com") }
    }

    /// The address of the venue's API.
    pub fn api_url(&self) -> (out: &str)
        ensures
            out@ == self.spec_api_url(),
    {
        self.api_url.as_str()
    }
}

impl Default for KalshiIngestor {
    fn default() -> (out: KalshiIngestor)
        ensures
            out.spec_api_url() == "https://trading-api.kalshi.com"@,
    {
        KalshiIngestor::new()
    }
}

impl KalshiIngestor {
    /// The record for `market` at `now_ms`: the title stands for the rules.
    pub fn fetch_rules(&self, market: &UniverseMarket, now_ms: i64) -> (out: RulesRecord)
        ensures
            out.venue@ == "kalshi"@,
            out.market_id@ == market.market_id@,
            out.outcome_id is None,
            out.url is Some && out.url->0@ == "https://kalshi.com/markets/"@ + market.market_id@,
            out.fetched_ts == now_ms,
            out.title@ == market.title@,
            out.close_ts == market.close_ts,
            out.raw_rules_text@ == market.title@,
            out.raw_resolution_source is None,
            out.raw_json is None,
    {
        let mut url = String::from_str("https://kalshi.com/markets/");
        url.append(market.market_id.as_str());
        RulesRecord {
            venue: String::from_str("kalshi"),
            market_id: market.market_id.clone(),
            outcome_id: None,
            url: Some(url),
            fetched_ts: now_ms,
            title: market.title.clone(),
            close_ts: market.close_ts,
            raw_rules_text: market.title.clone(),
            raw_resolution_source: None,
            raw_json: None,
        }
    }
}

/// What the venue `polymarket` answers when it is asked for one market:
/// the fields of its answer that the rules are read from, and the whole
/// answer as JSON text, if it was kept.
pub struct PolymarketDetail {
    pub question: Option<String>,
    pub description: Option<String>,
    pub resolution_source: Option<String>,
    pub slug: Option<String>,
    pub raw_json: Option<String>,
}

/// The text of `given`, or `fallback` where nothing is given.
pub open spec fn text_or(given: Option<String>, fallback: Seq<char>) -> Seq<char> {
    match given {
        Some(text) => text@,
        None => fallback,
    }
}

/// The page of a market of the venue `polymarket`: that of its event where
/// the venue names one, else that of the market itself.
pub open spec fn polymarket_url(slug: Option<String>, market_id: Seq<char>) -> Seq<char> {
    match slug {
        Some(s) => "https://polymarket.com/event/"@ + s@,
        None => "https://polymarket.com/market/"@ + market_id,
    }
}

/// The text of an optional string, if there is one.
pub open spec fn text_of(given: Option<String>) -> Option<Seq<char>> {
    match given {
        Some(text) => Some(text@),
        None => None,
    }
}

/// The record of `market` at `now_ms`, from the venue's answer `detail`:
/// the description stands for the rules and the question for the title,
/// and where the venue gives none, the market's title stands for both.
pub fn polymarket_record(market: &UniverseMarket, detail: PolymarketDetail, now_ms: i64) -> (out:
    RulesRecord)
    ensures
        out.venue@ == "polymarket"@,
        out.market_id@ == market.market_id@,
        out.outcome_id is None,
        out.url is Some && out.url->0@ == polymarket_url(detail.slug, market.market_id@),
        out.fetched_ts == now_ms,
        out.title@ == text_or(detail.question, market.title@),
        out.close_ts == market.close_ts,
        out.raw_rules_text@ == text_or(detail.description, market.title@),
        text_of(out.raw_resolution_source) == text_of(detail.resolution_source),
        text_of(out.raw_json) == text_of(detail.raw_json),
{
    let url = match &detail.slug {
        Some(slug) => {
            let mut url = String::from_str("https://polymarket.com/event/");
            url.append(slug.as_str());
            url
        },
        None => {
            let mut url = String::from_str("https://polymarket.com/market/");
            url.append(market.market_id.as_str());
            url
        },
    };
    let title = match detail.question {
        Some(question) => question,
        None => market.title.clone(),
    };
    let raw_rules_text = match detail.description {
        Some(description) => description,
        None => market.title.clone(),
    };
    RulesRecord {
        venue: String::from_str("polymarket"),
        market_id: market.market_id.clone(),
        outcome_id: None,
        url: Some(url),
        fetched_ts: now_ms,
        title,
        close_ts: market.close_ts,
        raw_rules_text,
        raw_resolution_source: detail.resolution_source,
        raw_json: detail.raw_json,
    }
}

/// Market `i` of the mock universe, which closes at `close_ts` and asks
/// whether Bitcoin reaches `strike` dollars.
pub open spec fn is_mock_market(m: UniverseMarket, i: nat, strike: nat, close_ts: i64) -> bool {
    &&& m.market_id@ == "mock-btc-"@ + decimal(i)
    &&& m.title@ == "Will BTC reach $"@ + decimal(strike) + " by next week?"@
    &&& m.outcome_ids.len() == 2
    &&& m.outcome_ids[0]@ == "0"@
    &&& m.outcome_ids[1]@ == "1"@
    &&& m.close_ts == Some(close_ts)
    &&& m.status@ == "active"@
    &&& m.tags.len() == 2
    &&& m.tags[0]@ == "btc"@
    &&& m.tags[1]@ == "crypto"@
    &&& m.token_ids.len() == 0
}

/// The time seven days after `now_ms`, held within the times that an
/// `i64` counts.
pub open spec fn a_week_after(now_ms: i64) -> i64 {
    if now_ms + 604_800_000 > i64::MAX {
        i64::MAX
    } else {
        (now_ms + 604_800_000) as i64
    }
}

/// A universe for trials: five markets that ask whether Bitcoin reaches
/// 80 000, 90 000, 100 000, 110 000 and 120 000 dollars, and close a week
/// after `now_ms`.
pub fn generate_mock_universe(now_ms: i64) -> (out: Vec<UniverseMarket>)
    ensures
        out.len() == 5,
        forall|i: int|
            0 <= i < 5 ==> is_mock_market(
                #[trigger] out[i],
                i as nat,
                (80_000 + 10_000 * i) as nat,
                a_week_after(now_ms),
            ),
{
    let close_ts = if now_ms > i64::MAX - 604_800_000 {
        i64::MAX
    } else {
        now_ms + 604_800_000
    };
    let mut out: Vec<UniverseMarket> = Vec::new();
    let mut i: u64 = 0;
    while i < 5
        invariant
            i <= 5,
            out.len() == i,
            close_ts == a_week_after(now_ms),
            forall|j: int|
                0 <= j < i ==> is_mock_market(
                    #[trigger] out[j],
                    j as nat,
                    (80_000 + 10_000 * j) as nat,
                    close_ts,
                ),
        decreases 5 - i,
    {
        let mut market_id = String::from_str("mock-btc-");
        push_decimal(&mut market_id, i);
        let mut title = String::from_str("Will BTC reach $");
        push_decimal(&mut title, 80_000 + 10_000 * i);
        title.append(" by next week?");
        let mut outcome_ids: Vec<String> = Vec::new();
        outcome_ids.push(String::from_str("0"));
        outcome_ids.push(String::from_str("1"));
        let mut tags: Vec<String> = Vec::new();
        tags.push(String::from_str("btc"));
        tags.push(String::from_str("crypto"));
        out.push(
            UniverseMarket {
                market_id,
                title,
                outcome_ids,
                close_ts: Some(close_ts),
                status: String::from_str("active"),
                tags,
                token_ids: Vec::new(),
            },
        );
        i += 1;
    }
    out
}

} // verus!
