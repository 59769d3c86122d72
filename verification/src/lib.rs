//! Parses a free-form, line-oriented diary notation into calendar events.

pub mod api;
pub mod civil;
pub mod format;
pub mod text;
pub mod zone;

pub use api::parse;
pub use api::save_as_ics;
pub use api::SourceFormat;
pub use format::alpha::Event;
pub use format::alpha::Tag;
pub use format::CreateIcsEvent;
