//! Configuration values and their defaults.

use vstd::prelude::*;
use crate::text::str_eq;

verus! {

#[derive(Clone, Debug)]
pub struct Config {
    pub data_dir: String,
    pub venues: VenuesConfig,
    pub storage: StorageConfig,
    pub rotation: RotationConfig,
    pub mock: MockConfig,
}

#[derive(Clone, Debug)]
pub struct VenuesConfig {
    pub polymarket: Option<VenueConfig>,
    pub kalshi: Option<VenueConfig>,
}

#[derive(Clone, Debug)]
pub struct VenueConfig {
    pub enabled: bool,
    pub api_key: String,
    pub api_secret: String,
    pub ws_url: Option<String>,
    pub rest_url: Option<String>,
    /// Cap on simultaneous subscriptions.
    pub max_subs: usize,
    /// Size of the HOT tier; `0` asks for a tenth of `max_subs`.
    pub hot_count: usize,
    pub rotation_period_secs: u64,
    pub snapshot_interval_ms_hot: u64,
    pub snapshot_interval_ms_warm: u64,
    pub subscription_churn_limit_per_minute: usize,
}

#[derive(Clone, Debug)]
pub struct StorageConfig {
    pub top_k: usize,
    pub flush_rows: usize,
    pub flush_seconds: u64,
    pub bucket_minutes: u64,
}

#[derive(Clone, Debug)]
pub struct RotationConfig {
    pub enabled: bool,
}

#[derive(Clone, Debug)]
pub struct MockConfig {
    pub enabled: bool,
    pub universe_size: usize,
    pub markets_per_venue: usize,
}

impl VenuesConfig {
    /// The section that `venue_name` selects, if the name is known.
    pub open spec fn section(&self, venue_name: Seq<char>) -> Option<VenueConfig> {
        if venue_name == "polymarket"@ {
            self.polymarket
        } else if venue_name == "kalshi"@ {
            self.kalshi
        } else {
            None
        }
    }
}

impl Config {
    /// The configuration of the venue called `venue_name`: `polymarket` and
    /// `kalshi` are the known names, and a known venue may be left out.
    pub fn get_venue_config(&self, venue_name: &str) -> (out: Option<&VenueConfig>)
        ensures
            out == match self.venues.section(venue_name@) {
                Some(cfg) => Some(&cfg),
                None => None,
            },
    {
        if str_eq(venue_name, "polymarket") {
            self.venues.polymarket.as_ref()
        } else if str_eq(venue_name, "kalshi") {
            self.venues.kalshi.as_ref()
        } else {
            None
        }
    }
}

/// The default cap on simultaneous subscriptions.
pub fn default_max_subs() -> (out: usize)
    ensures
        out == 200,
{
    200
}

/// The default size of the HOT tier.
pub fn default_hot_count() -> (out: usize)
    ensures
        out == 40,
{
    40
}

/// The default time between two rotations, in seconds.
pub fn default_rotation_period_secs() -> (out: u64)
    ensures
        out == 180,
{
    180
}

/// The default time between two snapshots of a HOT book, in milliseconds.
pub fn default_snapshot_interval_ms_hot() -> (out: u64)
    ensures
        out == 2000,
{
    2000
}

/// The default time between two snapshots of a WARM book, in milliseconds.
pub fn default_snapshot_interval_ms_warm() -> (out: u64)
    ensures
        out == 10000,
{
    10000
}

/// The default number of venue calls per minute.
pub fn default_subscription_churn_limit() -> (out: usize)
    ensures
        out == 20,
{
    20
}

/// The default number of levels a side.
pub fn default_top_k() -> (out: usize)
    ensures
        out == 50,
{
    50
}

/// The default number of rows at which the buffer is flushed.
pub fn default_flush_rows() -> (out: usize)
    ensures
        out == 50_000,
{
    50_000
}

/// The default time between two flushes by the timer, in seconds.
pub fn default_flush_seconds() -> (out: u64)
    ensures
        out == 5,
{
    5
}

/// The default width of a bucket, in minutes.
pub fn default_bucket_minutes() -> (out: u64)
    ensures
        out == 5,
{
    5
}

/// The default of a switch that is on unless it is turned off.
pub fn default_true() -> (out: bool)
    ensures
        out,
{
    true
}

/// The default of a switch that is off unless it is turned on.
pub fn default_false() -> (out: bool)
    ensures
        !out,
{
    false
}

/// The default size of a mock universe.
pub fn default_universe_size() -> (out: usize)
    ensures
        out == 1000,
{
    1000
}

/// The default number of mock markets per venue.
pub fn default_markets_per_venue() -> (out: usize)
    ensures
        out == 500,
{
    500
}

} // verus!
