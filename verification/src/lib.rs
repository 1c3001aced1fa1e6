//! Converts e-reader highlights (Kindle notebook exports and `My Clippings.txt`
//! files) into Markdown notes.

pub mod clippings;
pub mod config;
pub mod convert;
pub mod markdown;
pub mod parser;
pub mod text;
pub mod properties;
pub mod clipping_properties;
pub mod number_properties;
