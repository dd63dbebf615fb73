//! Renders a parsed HTML document tree as plain-text Markdown.
//!
//! The renderer walks the tree depth-first, emitting text before and after
//! each element according to a fixed, documentation-oriented rule set
//! (headings, fenced and inline code, flat lists, the `item-name` idiom),
//! pruning navigational chrome, and finally canonicalizing blank lines.

pub mod dom;
pub mod text;
pub mod lines;
pub mod normalize;
pub mod rules;
pub mod markdown_writer;

pub use markdown_writer::MarkdownWriter;
