//! Market-data synchronisation and ticker resolution.
//!
//! - `calendar`: business-day arithmetic ("as of" days, months back).
//! - `ticker`, `directory`: resolving ticker text against the issuer
//!   directory, and the spellings a ticker may be listed under.
//! - `coverage`: whether stored data covers a requested range.
//! - `backfill`, `statement`, `quarters`: what the provider sends, turned
//!   into rows to store, and the caller-facing views of them.
//! - `store`: the local store's upsert and read semantics.
//! - `reconcile`: the per-request steps (check, backfill, reread, respond).
//! - `heatmap`: the quote heatmap and its time-boxed cache.

pub mod text;
pub mod error;
pub mod calendar;
pub mod ticker;
pub mod directory;
pub mod coverage;
pub mod backfill;
pub mod statement;
pub mod quarters;
pub mod store;
pub mod reconcile;
pub mod heatmap;
