//! Laws that relate the parser, the rule table and the rendering engine.
pub mod parsing;
pub mod rendering;
pub mod tables;
