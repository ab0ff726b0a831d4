//! Verified core of a Typst-to-HTML compilation engine.
//!
//! The library holds the decisions that surround a Typst compile: how call
//! options resolve to concrete settings, where Typst keeps its data and cache
//! directories, how a package resolves to a directory on disk, how the body
//! of an HTML page is cut out, how Typst metadata maps onto JSON, how a
//! diagnostic is located, and how the pieces of a compile are assembled into
//! the result handed to JavaScript.

pub mod compile;
pub mod diagnostics;
pub mod dirs;
pub mod html;
pub mod metadata;
pub mod options;
pub mod package;


