//! The records, events and settings the monitor passes around.

use vstd::prelude::*;
use crate::instant::Timestamp;

verus! {

/// One quotation of the Bank of China AUD selling rate: the rate as the page
/// shows it and the instant it was published.
#[derive(Debug)]
pub struct RateRecord {
    pub rate: String,
    pub timestamp: Timestamp,
}

impl Clone for RateRecord {
    fn clone(&self) -> (r: Self)
        ensures
            r == *self,
    {
        RateRecord { rate: self.rate.clone(), timestamp: self.timestamp }
    }
}

/// Two records are the same quotation when they were published at the same
/// instant, whatever rate text they carry.
impl PartialEq for RateRecord {
    fn eq(&self, other: &Self) -> (r: bool) {
        self.timestamp == other.timestamp
    }
}

impl vstd::std_specs::cmp::PartialEqSpecImpl for RateRecord {
    open spec fn obeys_eq_spec() -> bool {
        true
    }

    open spec fn eq_spec(&self, other: &Self) -> bool {
        self.timestamp == other.timestamp
    }
}

impl Eq for RateRecord {}

/// One reference quotation of China Industrial Bank.
#[derive(Debug)]
pub struct CibRateRecord {
    pub rate: String,
    pub timestamp: Timestamp,
}

impl Clone for CibRateRecord {
    fn clone(&self) -> (r: Self)
        ensures
            r == *self,
    {
        CibRateRecord { rate: self.rate.clone(), timestamp: self.timestamp }
    }
}

/// What the server pushes to live clients.
#[derive(Debug)]
pub enum ServerEvent {
    RateUpdate(RateRecord),
    CibRateUpdate(CibRateRecord),
    History(Vec<RateRecord>),
    CibHistory(Vec<CibRateRecord>),
}

/// The order key of `0.0` (and of `-0.0`).
pub const RATE_KEY_ZERO: i64 = 0;

/// The order key of `f64::MAX`.
pub const RATE_KEY_MAX_FINITE: i64 = 0x7FEF_FFFF_FFFF_FFFF;

/// A rate text read as a number.
///
/// `Value(k)` holds the order key of the number: keys compare exactly as the
/// numbers do (`RATE_KEY_ZERO` stands for zero, `RATE_KEY_MAX_FINITE` for the
/// largest finite number, larger keys for infinity). `NotANumber` is a text that
/// reads as NaN, which compares neither below nor above anything; `Invalid` is a
/// text that does not read as a number at all.
#[derive(Clone, Copy, Debug, PartialEq, Eq, Structural)]
pub enum ParsedRate {
    Invalid,
    NotANumber,
    Value(i64),
}

/// `a > b` between two parsed rates.
pub open spec fn rate_above(a: ParsedRate, b: ParsedRate) -> bool {
    a matches ParsedRate::Value(x) && b matches ParsedRate::Value(y) && x > y
}

/// `a < b` between two parsed rates.
pub open spec fn rate_below(a: ParsedRate, b: ParsedRate) -> bool {
    a matches ParsedRate::Value(x) && b matches ParsedRate::Value(y) && x < y
}

/// A parsed rate together with the instant it was published.
#[derive(Clone, Copy, Debug, PartialEq, Eq, Structural)]
pub struct RateSample {
    pub rate: ParsedRate,
    pub timestamp: Timestamp,
}

/// The highest and lowest rate of the retention window, as order keys, with
/// the instants they were published.
#[derive(Clone, Copy, Debug, PartialEq, Eq, Structural)]
pub struct ExtremeValues {
    pub high_rate: i64,
    pub low_rate: i64,
    pub high_timestamp: Timestamp,
    pub low_timestamp: Timestamp,
}

/// A new extreme has been reached: the previous extreme rate (as an order key)
/// and the instant that previous extreme was reached.
#[derive(Clone, Copy, Debug, PartialEq, Eq, Structural)]
pub enum Extreme {
    High(i64, Timestamp),
    Low(i64, Timestamp),
}

/// Where alerts are posted, and the credentials to post them with.
#[derive(Debug)]
pub struct NtfyConfig {
    pub url: String,
    pub auth: Option<String>,
}

impl Clone for NtfyConfig {
    fn clone(&self) -> (r: Self)
        ensures
            r == *self,
    {
        let auth = match &self.auth {
            Some(a) => Some(a.clone()),
            None => None,
        };
        NtfyConfig { url: self.url.clone(), auth }
    }
}

impl NtfyConfig {
    /// The alert settings from the values of the `NTFY_URL` and `NTFY_AUTH`
    /// environment variables: there are settings exactly when a URL is set.
    pub fn from_values(url: Option<String>, auth: Option<String>) -> (config: Option<NtfyConfig>)
        ensures
            match url {
                Some(u) => config == Some(NtfyConfig { url: u, auth }),
                None => config is None,
            },
    {
        match url {
            Some(url) => Some(NtfyConfig { url, auth }),
            None => None,
        }
    }
}

/// What the server remembers of the last page it read, to ask for the page
/// again only if it changed.
#[derive(Debug)]
pub struct CacheInfo {
    pub last_modified: String,
}

impl Clone for CacheInfo {
    fn clone(&self) -> (r: Self)
        ensures
            r == *self,
    {
        CacheInfo { last_modified: self.last_modified.clone() }
    }
}

/// One row of the China Industrial Bank quotation table.
#[derive(Debug)]
pub struct CibQuote {
    pub currency_name: String,
    pub currency_symbol: String,
    pub unit: String,
    pub spot_buy: String,
    pub spot_sell: String,
    pub cash_buy: String,
    pub cash_sell: String,
}

impl CibQuote {
    /// The quotation of one table row from its cells, which come in the order
    /// currency name, currency symbol, unit, spot buying price, spot selling price,
    /// cash buying price, cash selling price; `None` for a row with fewer cells.
    pub fn from_cells(cells: &Vec<String>) -> (quote: Option<CibQuote>)
        ensures
            cells@.len() < 7 ==> quote is None,
            cells@.len() >= 7 ==> quote == Some(CibQuote {
                currency_name: cells@[0],
                currency_symbol: cells@[1],
                unit: cells@[2],
                spot_buy: cells@[3],
                spot_sell: cells@[4],
                cash_buy: cells@[5],
                cash_sell: cells@[6],
            }),
    {
        if cells.len() < 7 {
            return None;
        }
        Some(CibQuote {
            currency_name: cells[0].clone(),
            currency_symbol: cells[1].clone(),
            unit: cells[2].clone(),
            spot_buy: cells[3].clone(),
            spot_sell: cells[4].clone(),
            cash_buy: cells[5].clone(),
            cash_sell: cells[6].clone(),
        })
    }
}

/// The China Industrial Bank quotation table at one instant.
#[derive(Debug)]
pub struct CibQuoteSnapshot {
    pub as_of: Timestamp,
    pub quotes: Vec<CibQuote>,
}

} // verus!
