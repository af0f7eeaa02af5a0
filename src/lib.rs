//! A personal file-tagging store: path → tag-set records kept as JSON text,
//! with the set algebra, filtering, counting and pruning decisions proved.

pub mod error;
pub mod tagset;
pub mod codec;
pub mod counts;
pub mod store;
pub mod listing;
