//! A self-editing lint for long-form prose.
//!
//! The library extracts a structure-agnostic sequence of semantic elements
//! (chapters, sections, paragraphs, sentences, direct-speech spans) from a
//! zipped XML manuscript, and scans each sentence's word stream for
//! configured linguistic triggers: filtering phrases, throat-clearing
//! beginnings, weak-immediacy adverbs, missed contractions, subjective
//! adjectives, and suspected adverbs.

pub mod container;
pub mod document;
pub mod engine;
pub mod markup;
pub mod odt;
pub mod text;
