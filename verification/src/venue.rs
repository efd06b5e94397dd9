//! Plain data exchanged with a venue adaptor.
//!
//! Prices and sizes are fixed-point numbers: an `i64` counts millionths of
//! the venue's unit, so `500_000` stands for `0.5`.

use vstd::prelude::*;

verus! {

/// Venue-scoped identity of one tradable market.
#[derive(Clone, Debug)]
pub struct MarketInfo {
    /// The venue's condition key.
    pub market_id: String,
    pub title: String,
    pub outcome_ids: Vec<String>,
    /// Close time in epoch milliseconds, if known.
    pub close_ts: Option<i64>,
    /// `active`, `inactive` or `closed`.
    pub status: String,
    pub tags: Vec<String>,
    /// Per-outcome tokens, for venues that subscribe by token.
    pub token_ids: Vec<String>,
}

/// One price level of a book side.
#[derive(Clone, Copy, Debug, PartialEq, Eq, Structural)]
pub struct OrderBookLevel {
    pub price: i64,
    pub size: i64,
}

/// One update of one `(market_id, outcome_id)` book, as a venue feed emits it.
#[derive(Clone, Debug)]
pub struct OrderBookUpdate {
    pub market_id: String,
    pub outcome_id: String,
    pub bids: Vec<OrderBookLevel>,
    pub asks: Vec<OrderBookLevel>,
    pub timestamp_ms: Option<i64>,
    pub sequence: i64,
}

/// What the adaptor of the venue `kalshi` is made with: the venue's name,
/// the access key id, the private key in PEM form, and the addresses of
/// the feed and of the REST API.
pub struct KalshiVenue {
    name: String,
    api_key: String,
    api_secret: String,
    ws_url: String,
    rest_url: String,
    connected: bool,
}

impl KalshiVenue {
    pub closed spec fn spec_name(&self) -> Seq<char> {
        self.name@
    }

    pub closed spec fn spec_api_key(&self) -> Seq<char> {
        self.api_key@
    }

    pub closed spec fn spec_api_secret(&self) -> Seq<char> {
        self.api_secret@
    }

    pub closed spec fn spec_ws_url(&self) -> Seq<char> {
        self.ws_url@
    }

    pub closed spec fn spec_rest_url(&self) -> Seq<char> {
        self.rest_url@
    }

    pub closed spec fn spec_connected(&self) -> bool {
        self.connected
    }

    /// An adaptor that is not connected.
    pub fn new(name: String, api_key: String, api_secret: String, ws_url: String, rest_url: String) -> (out:
        KalshiVenue)
        ensures
            out.spec_name() == name@,
            out.spec_api_key() == api_key@,
            out.spec_api_secret() == api_secret@,
            out.spec_ws_url() == ws_url@,
            out.spec_rest_url() == rest_url@,
            !out.spec_connected(),
    {
        KalshiVenue { name, api_key, api_secret, ws_url, rest_url, connected: false }
    }

    /// The venue's name.
    pub fn name(&self) -> (out: &str)
        ensures
            out@ == self.spec_name(),
    {
        self.name.as_str()
    }

    /// The access key id.
    pub fn api_key(&self) -> (out: &str)
        ensures
            out@ == self.spec_api_key(),
    {
        self.api_key.as_str()
    }

    /// The private key.
    pub fn api_secret(&self) -> (out: &str)
        ensures
            out@ == self.spec_api_secret(),
    {
        self.api_secret.as_str()
    }

    /// The address of the feed.
    pub fn ws_url(&self) -> (out: &str)
        ensures
            out@ == self.spec_ws_url(),
    {
        self.ws_url.as_str()
    }

    /// The address of the REST API.
    pub fn rest_url(&self) -> (out: &str)
        ensures
            out@ == self.spec_rest_url(),
    {
        self.rest_url.as_str()
    }

    /// Whether the feed is open.
    pub fn is_connected(&self) -> (out: bool)
        ensures
            out == self.spec_connected(),
    {
        self.connected
    }

    /// Notes whether the feed is open.
    pub fn set_connected(&mut self, connected: bool)
        ensures
            final(self).spec_connected() == connected,
            final(self).spec_name() == old(self).spec_name(),
            final(self).spec_api_key() == old(self).spec_api_key(),
            final(self).spec_api_secret() == old(self).spec_api_secret(),
            final(self).spec_ws_url() == old(self).spec_ws_url(),
            final(self).spec_rest_url() == old(self).spec_rest_url(),
    {
        self.connected = connected;
    }

    /// The credentials to use: those of the configuration, and for each
    /// that the configuration leaves empty the one read from its file.
    pub fn choose_credentials(
        config_api_key: &str,
        config_api_secret: &str,
        file_api_key: String,
        file_api_secret: String,
    ) -> (out: (String, String))
        ensures
            out.0@ == if config_api_key@.len() == 0 {
                file_api_key@
            } else {
                config_api_key@
            },
            out.1@ == if config_api_secret@.len() == 0 {
                file_api_secret@
            } else {
                config_api_secret@
            },
    {
        let key = if config_api_key.is_empty() {
            file_api_key
        } else {
            config_api_key.to_owned()
        };
        let secret = if config_api_secret.is_empty() {
            file_api_secret
        } else {
            config_api_secret.to_owned()
        };
        (key, secret)
    }
}

} // verus!
