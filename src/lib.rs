//! A line-oriented, section-delimited key/value settings file engine.
//!
//! The library parses the text of an INI-style file into sections of
//! key/value entries, answers lookups, updates values in place, and
//! rewrites the lines of the file so that comments and layout survive.
//! Reading and writing files is left to the caller: the library works on
//! the lines that were read and hands back the lines to write.

pub mod text;
pub mod message;
pub mod section;
pub mod line;
pub mod settings;

pub use line::GLOBAL_SECTION;
pub use message::MESSAGES_NUMBER;
pub use settings::{FileRead, SettingValue, Settings, SettingsValue};
pub mod laws;
