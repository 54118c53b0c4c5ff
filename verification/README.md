# bq_sentinel

A proxy in front of BigQuery that estimates what a query costs before it is made,
and blocks queries that cost more than a limit. The logic is a verified Verus
library; the program around it does the input and output.

## Configuration

| Variable | Default | Meaning |
| --- | --- | --- |
| `PORT` | `8080` | port to listen on |
| `BQ_MAX_COST_PER_QUERY` | `5.00` | limit for one query, in dollars |
| `BQ_PRICE_PER_TIB` | `6.25` | price of one tebibyte, in dollars |
| `ENFORCE_MODE` | `true` | `false`: note expensive queries, but let them through |

## Layout

- `src/rounding.rs`, `src/amount.rs`: binary64 numbers as bit patterns, and
  rounding to the nearest one.
- `src/positional.rs`, `src/text.rs`, `src/decimal.rs`, `src/cents.rs`: reading
  and writing numbers in base ten.
- `src/pricing.rs`, `src/pricing_laws.rs`: the cost of a query, and what holds of
  it.
- `src/config.rs`: the configuration.
- `src/json.rs`, `src/google_client.rs`: requests to BigQuery and their replies.
- `src/auth.rs`, `src/server.rs`, `src/server_laws.rs`: the way of a query through
  the proxy, and what holds of it.
- `app/`: environment, HTTP client and server.
- `tests/`: tests of the library.
