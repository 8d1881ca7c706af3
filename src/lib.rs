//! Exports a vault of interlinked notes as plain markdown.
//!
//! The library holds the rules of an export: how a note's frontmatter block
//! is split off and written back, how `[[links]]` and `![[embeds]]` are found
//! and resolved to the nearest matching file, how embeds nest without ever
//! looping, how postprocessors run over each note, and where each file is
//! written. Reading and writing files, YAML and the markdown tokenizer stay
//! with the caller, who hands the library plain values.

pub mod context;
pub mod destination;
pub mod embeds;
pub mod encoding;
pub mod errors;
pub mod frontmatter;
pub mod links;
pub mod order;
pub mod postprocessors;
pub mod wikilinks;
