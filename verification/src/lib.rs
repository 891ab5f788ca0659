//! Verified core of a Content-Security-Policy violation report collector:
//! the ingestion buffer and its flush cycle, the token service that guards
//! the read endpoints, and the queries over stored violations.
//!
//! The library decides and computes on plain values. Whoever runs it does
//! the input and output: serves HTTP, keeps the two stores on disk, holds
//! the lock around the buffer and drives the flush timer.
//!
//! - [`report`]: the shapes of a report and of the query results
//! - [`buffer`]: taking reports in, draining them, the flush tick
//! - [`keyed_hash`], [`token`], [`auth`]: issuing, recognising and
//!   revoking bearer tokens
//! - [`query`], [`daily`]: listing, grouping and counting stored reports
//! - [`config`], [`state`]: what a deployment is started with
//! - [`error`]: how a request fails
//! - [`text`], [`sorted`]: helpers on character sequences and on order

pub mod auth;
pub mod buffer;
pub mod config;
pub mod daily;
pub mod error;
pub mod keyed_hash;
pub mod query;
pub mod report;
pub mod sorted;
pub mod state;
pub mod text;
pub mod token;
