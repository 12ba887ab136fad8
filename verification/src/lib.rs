//! A small markdown-to-HTML book compiler.
//!
//! The compiler splits a markdown file into block nodes (headings,
//! paragraphs, lists, code blocks, quotes), extracts inline spans
//! (links, images, bold, italic, inline code) from each text-bearing
//! line, masks them with positional placeholders, and renders the
//! resulting tree to HTML.

pub mod blocks;
pub mod book;
pub mod cli;
pub mod config;
pub mod documents;
pub mod laws;
pub mod node;
pub mod text;
pub mod tokens;
pub mod utils;

use vstd::prelude::*;

verus! {

/// Character classified as whitespace when lines are trimmed.
pub open spec fn is_space(c: char) -> bool {
    c == ' ' || c == '\t' || c == '\r' || c == '\n'
}

} // verus!
