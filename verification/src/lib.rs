//! Client-side logic for a university course portal that only serves
//! server-rendered HTML pages.
//!
//! The two core subsystems are the content discovery frontier (an incremental
//! crawler with depth and visit bookkeeping, batched dispatch and
//! retry-by-requeue) and the encrypted segment retrieval pipeline (media
//! playlist parsing, key-rotation tracking and AES-128-CBC segment
//! decryption).  Page fetching, HTML field extraction and caching are left to
//! the embedding application; this crate holds the data model, the decision
//! logic and the formats, with machine-checked contracts.

pub mod content;
pub mod course;
pub mod crypto;
pub mod frontier;
pub mod handles;
pub mod media;
pub mod mime;
pub mod playlist;
pub mod qs;
pub mod resolver;
pub mod text;
pub mod tree;
