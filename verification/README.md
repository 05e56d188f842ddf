# rated

The verified core of an AUD/CNY exchange-rate monitor.

`src/` is the library, checked by Verus:

- `instant` — UTC instants as (seconds, nanoseconds), the five-day retention
  cutoff, and the clock and calendar operations taken from `chrono` and
  `chrono_tz`.
- `models` — rate records, server events, parsed rates (as order keys),
  extremes, alert and cache settings, China Industrial Bank quotations.
- `extremes` — one pass over a series for its first highest and lowest rate.
- `history` — the server state: rate history, cleaning, loading, and the cached
  five-day extremes with the check of a new rate against them.
- `scraper` — reading the selling rate out of the Bank of China page and the
  `If-Modified-Since` cache.
- `alerts` — when a new extreme is announced through ntfy and what it says.
- `candles` — cutting the history into fixed intervals: what each candle holds,
  and how the candles of a coarser interval merge those of a finer one.
- `feed` — the browser's live view, connection badge and reconnection schedule.
- `storage` — the retry policy for database writes.

`app/` is the server around it: HTTP fetching, SQLite, the broadcast channel,
WebSocket/SSE handlers, timers, and everything that needs floating point (rate
parsing, change display, MACD/RSI).
