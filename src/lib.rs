//! Browsing structured log records: the record field parser, the filter language and
//! the filtered, time-ordered record collection.

pub mod bytes;
pub mod compiler;
pub mod datetime;
pub mod eval;
pub mod fieldmap;
pub mod fields;
pub mod ingest;
pub mod laws;
pub mod logdata;
pub mod number;
pub mod pattern;
pub mod query;
pub mod record;
pub mod tiers;
pub mod token;
pub mod util;
pub mod value;
