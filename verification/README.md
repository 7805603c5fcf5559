# crypto_latency_benchmark

A latency benchmark for three Binance market data protocols (WebSocket with
JSON, WebSocket with SBE, FIX market data), whose message handling is a
library verified with Verus.

## Layout

- `src/` — the verified library:
  - `text.rs`: decimal rendering, FIX field text, checksums, line splitting;
  - `fix_parse.rs`, `fix_book.rs`: parsing FIX messages into tag maps and book tickers;
  - `fix_session.rs`, `fix_signing.rs`: building Logon, MarketDataRequest,
    Heartbeat and Logout messages, with the Ed25519 signature of the logon (`ring`, `base64`);
  - `fix_stream.rs`: cutting complete FIX messages out of received bytes;
  - `fix_driver.rs`: what a reading FIX session does with each connection event;
  - `fix_roundtrip.rs`, `fix_framing.rs`: laws relating the builders to the
    parser and to the framer;
  - `credentials.rs`: reading the API key and secret from `.env` text;
  - `sbe.rs`: decoding SBE headers and best bid / best ask events;
  - `stats.rs`, `json_stream.rs`: latency records, percentile summaries and
    the per-stream accounting of the combined JSON stream.
- `app/` — the program: network connections (tokio, rustls,
  tokio-tungstenite), timing (quanta), JSON decoding (serde), floating-point
  figures (statrs) and the printed reports.
- `tests/` — tests of the library on concrete values.

## Running

`app` takes one optional argument: `json`, `sbe`, `fix` or `quick`. Without
one it runs the three production benchmarks in parallel and then the quick
synthetic comparison. The SBE and FIX benchmarks read `BINANCE_API_KEY` and
`BINANCE_API_SECRET` from a `.env` file in the working directory.
