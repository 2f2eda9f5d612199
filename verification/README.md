# market_insights

The logic of a Cloudflare Worker that keeps OHLCV market data up to date
and raises alerts, written in Verus and verified.

- `src/` is the verified library: decimal and floating-point text, a JSON value
  model, reading bars from AlphaVantage and Finnhub payloads and ordering them,
  alert cooldowns, the JSON API's routing and replies, and the scheduled
  engine as a state machine.
- `app/` is the Worker around it: HTTP and cron entry points, the D1 and KV
  stores, outgoing requests, JSON (de)serialisation and the Leptos UI.
- `tests/` exercises the library on concrete values.
