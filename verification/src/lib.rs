//! Color-literal parsing, algebra, and formatting for a text-template
//! pipeline, together with the marker protocol that lets a helper emit a
//! non-string JSON value through a renderer that quotes every value.

pub mod color;
pub mod format;
pub mod helper;
pub mod parse;
pub mod postprocess;
pub mod roundtrip;

