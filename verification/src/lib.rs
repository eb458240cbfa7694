//! A reverse proxy for Xbox downloads: the decisions it makes, with their contracts.
//!
//! A request names a host. `uri` and `headers` read what it says, `selector` knows which
//! group of candidates serves the host and which of them is best by the figures that
//! `candidate` ranks, and `proxy` takes the request from its header to its answer, with
//! `record` accounting for what was sent. `speedtest` says when candidates are measured,
//! `pass` which ones and what a measurement means, and `metrics` when the proxy is too
//! busy for that.
//! `endpoints` holds the bundled groups, `db` what is stored of requests and
//! measurements, and `dashboard` what may be asked of a running proxy. `laws` states what
//! holds across them.
//!
//! Rates are whole thousandths of a kilobit per second. Times are whole seconds of Unix
//! time where they are a `u64`, and nanoseconds since the Unix epoch where they are a
//! `u128`. Functions whose name ends in `_at` take the time as an argument; those without
//! read the clock.
pub mod candidate;
pub mod clock;
pub mod dashboard;
pub mod db;
pub mod endpoints;
pub mod headers;
pub mod laws;
pub mod metrics;
pub mod pass;
pub mod proxy;
pub mod record;
pub mod search;
pub mod selector;
pub mod speedtest;
pub mod text;
pub mod uri;
