//! Release tracking for a media library: reading RSS feeds of releases,
//! recognising episode numbers in release names, and deciding which
//! releases to download or mark as watched.

pub mod scan;
pub mod number;
pub mod extractor;
pub mod tags;
pub mod feed;
pub mod rss_feed;
pub mod releases;
pub mod text;
pub mod candidates;
pub mod downloads;
pub mod updates;
pub mod rules;
pub mod cache;
pub mod http;
pub mod endpoints;
pub mod sections;
pub mod chunked;
pub mod file_name;
