//! A media-channel catalog and proxy core: it parses extended-M3U
//! playlist manifests into a channel directory, rewrites manifest URI
//! references onto the proxy's own endpoints, and prepares the headers
//! and playback URLs the HTTP boundary serves.

pub mod channel;
pub mod config;
pub mod error;
pub mod httpapi;
pub mod manager;
pub mod parser;
pub mod rewriter;
pub mod strutil;
