//! A crawl engine: the frontier of URLs still to visit, the registry that
//! counts visits and grants each URL to exactly one first visitor, the
//! workers' idle-detection protocol and the pool that ties them together.
//!
//! The engine is sequential and owns no thread, socket or file: a caller runs
//! every call under mutual exclusion, performs the fetches and the writes, and
//! hands the outcomes back as plain values.
//!
//! The engine itself is in [`syntax`], [`frontier`], [`visit_count`],
//! [`registry`], [`crawl`] and [`pool`]; [`artifact`], [`backpressure`],
//! [`settings`] and [`archive`] hold what a run decides around it. What holds
//! of every crawl is stated and proved in [`coverage`] (no work is lost, each
//! page is fetched once), [`progress`] (a crawl with nothing left to do ends)
//! and [`workload`] (a finite web makes for finitely much work).

pub mod archive;
pub mod artifact;
pub mod backpressure;
pub mod coverage;
pub mod crawl;
pub mod frontier;
pub mod pool;
pub mod progress;
pub mod registry;
pub mod settings;
pub mod syntax;
pub mod text;
pub mod visit_count;
pub mod workload;
