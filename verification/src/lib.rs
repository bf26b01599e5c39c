//! Rendering of rich-text edit deltas to HTML.
//!
//! A delta is an ordered sequence of edit operations (insert, retain,
//! delete); inserted text may carry formatting attributes.  A newline
//! inside an inserted string closes the current line and carries the
//! block-level attributes (header level, list membership) of that line.
//! The renderer scans the flat operation stream into line and inline
//! segments and emits block and inline HTML.

pub mod attributes;
pub mod op;
pub mod laws;
pub mod renderer;
