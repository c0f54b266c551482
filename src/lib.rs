//! Core of an HTTP load generator and link crawler: host allow-lists, link
//! normalisation, the dispatcher's termination rules, run configuration and
//! result aggregation.
pub mod config;
pub mod dispatch;
pub mod hosts;
pub mod links;
pub mod stats;
pub mod text;
pub mod weburl;
