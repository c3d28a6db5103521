//! A small download library: a task pairs a parsed URL with an output
//! filename derived from the URL's last path segment, resolves its write
//! destination from a configured directory, and models the chunked write
//! of a streamed response body.

pub mod download;
pub mod error;
