//! Rated: the verified core of an AUD/CNY exchange-rate monitor.
//!
//! The library keeps the recent rate history, scrapes the Bank of China
//! quotation page, tracks the five-day extremes, decides when an alert is
//! sent, buckets the history into candles and decides what the live client
//! feed shows and when it reconnects. Networking, the database, timers and the
//! HTTP, WebSocket and SSE handlers live in the server program in `app/`; the
//! browser's page itself (rendering, charts, its event-stream loop) is not part
//! of this crate.

pub mod instant;
pub mod models;
pub mod extremes;
pub mod history;
pub mod scraper;
pub mod alerts;
pub mod candles;
pub mod feed;
pub mod storage;
