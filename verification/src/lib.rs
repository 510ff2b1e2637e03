//! Loading of phone number metadata: a verified reader for the XML metadata
//! format, built over the event stream of an XML tokenizer.

pub mod error;
pub mod format_laws;
pub mod laws;
pub mod loader;
pub mod metadata;
pub mod reading_laws;
pub mod schema;
pub mod skipped_events;
pub mod territory_laws;
pub mod text;
pub mod xml;
