//! Markdown to HTML / DOCX conversion core.
use vstd::prelude::*;

pub mod converter;
pub mod docx;
pub mod error;
pub mod front_matter;
pub mod images;
pub mod links;
pub mod markdown;
pub mod mermaid;
pub mod metadata;
pub mod preview;
pub mod template;
pub mod text;
pub mod unicode;

verus! {

} // verus!
