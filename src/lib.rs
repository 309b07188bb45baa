//! A client library for the Buildkite REST API, built around a verified
//! engine that turns a page-oriented listing endpoint into a lazy sequence
//! of items.
pub mod http;
pub mod paging;
pub mod iterator;
pub mod types;
