//! A dictionary-entry resolution and commonness-scoring pipeline for a
//! Chinese-English dictionary: it parses raw dictionary lines, normalizes
//! definitions and pronunciations, resolves cross-entry pronunciation
//! variants, scores entries by corpus frequency, and derives tags.

pub mod dictline;
pub mod enrich;
pub mod entry;
pub mod freq;
pub mod jmdict;
pub mod normalize;
pub mod pinyin;
pub mod pipeline;
pub mod proficiency;
pub mod scoring;
pub mod table;
pub mod text;
pub mod xref;
