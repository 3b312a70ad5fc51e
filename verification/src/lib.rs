//! Change detection and structured extraction for a feed of legislative
//! proposal announcements.
//!
//! The crate parses feed markup into items, diffs them against a persisted
//! checkpoint, reduces fetched document markup to clean prose, extracts
//! enacted-law citations normalized to canonical identifiers, and classifies
//! each document's enforcement timing with a fixed priority order of rules.
//! All of that logic is verified; network and storage plumbing stays outside.

pub mod citation;
pub mod content;
pub mod date;
pub mod enforcement;
pub mod feed;
pub mod laws;
pub mod request_id;
pub mod retry;
pub mod scan;
pub mod sync;
pub mod text;
