//! Telemetry logic of Stratum mining proxies: line framing for the relay,
//! classification of Stratum V1 messages, TTL-bounded labelled gauges,
//! correlation of timestamps scraped from a companion's metrics text, and the
//! bounded-retry block reward resolver.

pub mod text;
pub mod hexcodec;
pub mod framing;
pub mod json;
pub mod sv1;
pub mod metrics;
pub mod scan;
pub mod correlate;
pub mod reward;
pub mod rpc;
pub mod telemetry;
