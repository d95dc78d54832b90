//! A scrape bridge for a fleet of Oximeter pull producers: a registry of the
//! producers that announced themselves, a cache of the latest collected
//! samples, and a renderer of those samples into the Prometheus text
//! exposition format.

pub mod text;
pub mod render;
pub mod registry;
pub mod collector;
