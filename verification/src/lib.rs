//! A verified core for a photo archive tool: date detection, content-hash
//! deduplication, collision-free destination naming, a resumable sort journal,
//! tag/rating metadata, a year-partitioned photo index, gallery HTML
//! rendering, and the request logic of a small gallery server.

pub mod datetime;
pub mod export;
pub mod gallery;
pub mod metadata;
pub mod naming;
pub mod pathutil;
pub mod serve;
pub mod sort;
pub mod strutil;
pub mod thumb;
