//! Reading the AUD selling rate from the Bank of China quotation page, and the
//! conditional-request cache that spares unchanged pages.

use vstd::prelude::*;
use crate::instant::{Timestamp, KeptReading, rfc2822_instant, parse_rfc2822, read_clock};
use crate::models::{RateRecord, CacheInfo};

verus! {

/// The page the rates are read from.
pub const RATE_PAGE_URL: &'static str = "https://www.boc.cn/sourcedb/whpj/mfx_1620.html";

/// The table row of the Australian dollar: its name cell, then two cells whose
/// second one holds the selling rate.
pub const AUD_ROW_PATTERN: &'static str = r#"(?s)<td class="mc">\s*澳大利亚元\s*</td>\s*<td[^>]*>(.*?)</td>\s*<td[^>]*>(.*?)</td>"#;

/// The HTTP status of a page that has not changed since the cached copy.
pub const NOT_MODIFIED: u16 = 304;

/// Unicode `White_Space`, the characters `str::trim` removes.
pub open spec fn is_white_space(c: char) -> bool {
    let u = c as u32;
    ||| 0x9 <= u <= 0xD
    ||| u == 0x20
    ||| u == 0x85
    ||| u == 0xA0
    ||| u == 0x1680
    ||| 0x2000 <= u <= 0x200A
    ||| u == 0x2028
    ||| u == 0x2029
    ||| u == 0x202F
    ||| u == 0x205F
    ||| u == 0x3000
}

/// `s` without its leading white space.
pub open spec fn trim_start_white_space(s: Seq<char>) -> Seq<char>
    decreases s.len(),
{
    if s.len() > 0 && is_white_space(s[0]) {
        trim_start_white_space(s.drop_first())
    } else {
        s
    }
}

/// `s` without its trailing white space.
pub open spec fn trim_end_white_space(s: Seq<char>) -> Seq<char>
    decreases s.len(),
{
    if s.len() > 0 && is_white_space(s.last()) {
        trim_end_white_space(s.drop_last())
    } else {
        s
    }
}

/// `s` without leading and trailing white space.
pub open spec fn trim_white_space(s: Seq<char>) -> Seq<char> {
    trim_end_white_space(trim_start_white_space(s))
}

/// `str::trim`.
///
/// The contract claims what the standard library documents: the leading and
/// trailing characters with the Unicode `White_Space` property are removed.
#[verifier::external_body]
fn trim(s: &str) -> (t: &str)
    ensures
        t@ == trim_white_space(s@),
{
    s.trim()
}

/// The capture group of `AUD_ROW_PATTERN` that holds the selling rate.
pub const AUD_SELL_GROUP: usize = 2;

/// The text that capture group `group` of the first match of `pattern` in
/// `haystack` covers, as the `regex` crate finds it; `None` where the pattern does
/// not compile, matches nowhere, or the group takes no part in the first match.
pub uninterp spec fn regex_capture(pattern: Seq<char>, group: usize, haystack: Seq<char>) -> Option<Seq<char>>;

/// `regex::Regex::new(pattern)`, then `captures(haystack)` and the text of group `group`.
///
/// The contract claims that the text handed back is the one named `regex_capture`
/// for these three arguments, and that `None` comes exactly where that name is `None`.
#[verifier::external_body]
fn capture_group(pattern: &str, group: usize, haystack: &str) -> (text: Option<String>)
    ensures
        match text {
            Some(t) => regex_capture(pattern@, group, haystack@) == Some(t@),
            None => regex_capture(pattern@, group, haystack@) is None,
        },
{
    let re = regex::Regex::new(pattern).ok()?;
    let caps = re.captures(haystack)?;
    Some(caps.get(group)?.as_str().to_string())
}

/// The selling-rate cell of the Australian dollar's row in a page: group
/// `AUD_SELL_GROUP` of the first match of `AUD_ROW_PATTERN`.
pub open spec fn aud_sell_cell(html: Seq<char>) -> Option<Seq<char>> {
    regex_capture(AUD_ROW_PATTERN@, AUD_SELL_GROUP, html)
}

/// The value of the `If-Modified-Since` header for the next request: the
/// `Last-Modified` value of the cached page, if any.
pub fn if_modified_since(cache_info: &Option<CacheInfo>) -> (value: Option<String>)
    ensures
        match cache_info {
            Some(c) => value == Some(c.last_modified),
            None => value is None,
        },
{
    match cache_info {
        Some(c) => Some(c.last_modified.clone()),
        None => None,
    }
}

/// Whether a response says that the page has not changed since the cached copy;
/// such a response brings no rate.
pub fn is_not_modified(status: u16) -> (unchanged: bool)
    ensures
        unchanged == (status == NOT_MODIFIED),
{
    status == NOT_MODIFIED
}

/// Where the instant of a rate read from the page came from.
#[derive(Clone, Copy, Debug, PartialEq, Eq, Structural)]
pub enum StampSource {
    /// The page's `Last-Modified` header.
    LastModified,
    /// The clock, since the `Last-Modified` header did not parse.
    UnparsableLastModified,
    /// The clock, since the page came without `Last-Modified`.
    MissingLastModified,
}

/// A rate read from the page, and where its instant came from.
#[derive(Debug)]
pub struct PageRate {
    pub record: RateRecord,
    pub source: StampSource,
    /// The clock reading the page was read at, when the clock was read for it.
    pub clock: Option<KeptReading>,
}

/// What reading `html` (served with `last_modified`) at `now` gives: the trimmed
/// selling-rate cell, stamped with the `Last-Modified` instant when that parses as
/// RFC 2822 and with `now` otherwise; nothing when the page has no such cell.
pub open spec fn page_rate_is(html: Seq<char>, last_modified: Option<String>, now: Timestamp, found: Option<PageRate>) -> bool {
    match aud_sell_cell(html) {
        None => found is None,
        Some(cell) => {
            &&& found is Some
            &&& found->0.record.rate@ == trim_white_space(cell)
            &&& match last_modified {
                Some(l) => match rfc2822_instant(l@) {
                    Some((secs, nanos)) => {
                        &&& found->0.record.timestamp == Timestamp { secs, nanos }
                        &&& found->0.source == StampSource::LastModified
                    },
                    None => {
                        &&& found->0.record.timestamp == now
                        &&& found->0.source == StampSource::UnparsableLastModified
                    },
                },
                None => {
                    &&& found->0.record.timestamp == now
                    &&& found->0.source == StampSource::MissingLastModified
                },
            }
        },
    }
}

/// The cache after reading a page: it keeps the page's `Last-Modified` value
/// when the page held a rate and came with one; otherwise it is unchanged.
pub open spec fn cache_after_page(html: Seq<char>, last_modified: Option<String>, before: Option<CacheInfo>) -> Option<CacheInfo> {
    match (aud_sell_cell(html), last_modified) {
        (Some(_), Some(l)) => Some(CacheInfo { last_modified: l }),
        _ => before,
    }
}

/// After a page that held a rate and came with `Last-Modified`, the next request
/// is made conditional on that value; once something is cached, the cache is never
/// emptied again by reading pages.
pub proof fn law_cache_follows_last_modified(html: Seq<char>, last_modified: String, before: Option<CacheInfo>)
    ensures
        aud_sell_cell(html) is Some ==>
            cache_after_page(html, Some(last_modified), before) == Some(CacheInfo { last_modified }),
        before is Some ==> forall|l: Option<String>| (#[trigger] cache_after_page(html, l, before)) is Some,
{
}

/// A rate read from a page whose `Last-Modified` parses is stamped with that
/// instant, whenever the page is read: the reading time `now` plays no part, and
/// two readings of the same page at different times give the same record. The
/// reading time stamps a rate only when `Last-Modified` is missing or does not parse.
pub proof fn law_last_modified_stamps_rate(
    html: Seq<char>,
    last_modified: Option<String>,
    now: Timestamp,
    found: Option<PageRate>,
    later: Timestamp,
    found_later: Option<PageRate>,
)
    requires
        page_rate_is(html, last_modified, now, found),
        page_rate_is(html, last_modified, later, found_later),
        aud_sell_cell(html) is Some,
    ensures
        found is Some && found_later is Some,
        found->0.record.rate@ == found_later->0.record.rate@,
        match last_modified {
            Some(l) => match rfc2822_instant(l@) {
                Some((secs, nanos)) => {
                    &&& found->0.record.timestamp == (Timestamp { secs, nanos })
                    &&& found->0.record.timestamp == found_later->0.record.timestamp
                    &&& found->0.source == StampSource::LastModified
                },
                None => found->0.record.timestamp == now,
            },
            None => found->0.record.timestamp == now,
        },
{
    if let Some(l) = last_modified {
        if let Some((secs, nanos)) = rfc2822_instant(l@) {
            assert(found->0.record.timestamp == (Timestamp { secs, nanos }));
            assert(found_later->0.record.timestamp == (Timestamp { secs, nanos }));
        }
    }
}

/// Reads the selling rate from a page served with `last_modified`, using `now`
/// where the page gives no usable instant, and updates the cache.
pub fn sell_rate_from_page_at(
    html: &str,
    last_modified: Option<String>,
    cache_info: &mut Option<CacheInfo>,
    now: Timestamp,
) -> (found: Option<PageRate>)
    ensures
        page_rate_is(html@, last_modified, now, found),
        found matches Some(p) ==> p.clock is None,
        *final(cache_info) == cache_after_page(html@, last_modified, *old(cache_info)),
{
    let cell = match capture_group(AUD_ROW_PATTERN, AUD_SELL_GROUP, html) {
        Some(c) => c,
        None => {
            return None;
        },
    };
    let rate = trim(cell.as_str()).to_owned();
    match last_modified {
        Some(last_modified) => {
            *cache_info = Some(CacheInfo { last_modified: last_modified.clone() });
            match parse_rfc2822(last_modified.as_str()) {
                Some(timestamp) => Some(PageRate {
                    record: RateRecord { rate, timestamp },
                    source: StampSource::LastModified,
                    clock: None,
                }),
                None => Some(PageRate {
                    record: RateRecord { rate, timestamp: now },
                    source: StampSource::UnparsableLastModified,
                    clock: None,
                }),
            }
        },
        None => Some(PageRate {
            record: RateRecord { rate, timestamp: now },
            source: StampSource::MissingLastModified,
            clock: None,
        }),
    }
}

/// Reads the selling rate from a page served with `last_modified`, stamping it
/// with the current time where the page gives no usable instant, and updates the
/// cache. The clock is read once; a rate found carries that reading, and what it
/// holds is what reading the page at that instant gives.
pub fn sell_rate_from_page(html: &str, last_modified: Option<String>, cache_info: &mut Option<CacheInfo>)
    -> (found: Option<PageRate>)
    ensures
        match found {
            Some(p) => match p.clock {
                Some(reading) => reading@.is_clock_reading() && page_rate_is(html@, last_modified, reading@, found),
                None => false,
            },
            None => aud_sell_cell(html@) is None,
        },
        exists|now: Timestamp| #![auto] now.is_clock_reading() && page_rate_is(html@, last_modified, now, found),
        *final(cache_info) == cache_after_page(html@, last_modified, *old(cache_info)),
{
    let reading = read_clock();
    let now = reading.instant();
    match sell_rate_from_page_at(html, last_modified, cache_info, now) {
        Some(page) => Some(PageRate { record: page.record, source: page.source, clock: Some(reading.keep()) }),
        None => None,
    }
}

} // verus!
