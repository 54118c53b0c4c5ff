//! A proxy in front of BigQuery that keeps queries within a budget.
//!
//! Every query is first sent as a dry run, which says how many bytes the query
//! would process. From these and the price of a tebibyte comes its cost. A query
//! that costs more than the limit is blocked, or only noted, as configured; any
//! other is made as the client sent it.
//!
//! Amounts are binary64 numbers, computed here on their bit patterns. The
//! exchanges with BigQuery and the way of a query through the proxy are state
//! machines: the library says what is to be done next, whoever drives it does it
//! and reports what came of it.

pub mod amount;
pub mod auth;
pub mod cents;
pub mod config;
pub mod config_laws;
pub mod decimal;
pub mod decimal_laws;
pub mod google_client;
pub mod google_client_laws;
pub mod json;
pub mod positional;
pub mod pricing;
pub mod pricing_laws;
pub mod rounding;
pub mod server;
pub mod server_laws;
pub mod text;
