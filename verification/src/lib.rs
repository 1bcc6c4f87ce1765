//! A small HTTP service library with verified request metrics.
//!
//! The library provides the logic of a two-endpoint web service (a fixed
//! greeting and an artificial-delay echo) together with the metrics layer
//! that observes every request: a registry of counters and latency
//! histograms keyed by label set, and a renderer for the plaintext
//! exposition format served on the scrape endpoint.

pub mod decimal;
pub mod handlers;
pub mod interceptor;
pub mod labels;
pub mod laws;
pub mod registry;
pub mod render;
