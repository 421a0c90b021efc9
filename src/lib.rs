//! Highlights the matches of a regular expression in lines of text.
//!
//! The library decides what a terminal should show: where the matches of a
//! pattern lie in a line, counted in characters, and which terminal operations
//! render that line with the matched characters highlighted.
pub mod region;
pub mod text;
pub mod matcher;
pub mod render;
pub mod cli;
