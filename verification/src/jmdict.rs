//! Records of the Japanese bilingual dictionary corpus.

use vstd::prelude::*;

verus! {

/// One kanji spelling of a Japanese word.
pub struct Kanji {
    pub text: String,
    pub ent_seq: String,
    pub commonness: Option<u32>,
    pub readings: Vec<String>,
}

/// One kana reading of a Japanese word.
pub struct Kana {
    pub text: String,
    pub ent_seq: String,
    pub romaji: String,
    pub commonness: Option<u32>,
}

/// A gloss in the secondary language.
pub struct German {
    pub text: String,
}

/// The glosses of a Japanese word.
pub struct Meanings {
    pub eng: Vec<String>,
    pub ger: Option<Vec<German>>,
}

/// One entry of the Japanese dictionary corpus.
#[allow(non_snake_case)]
pub struct JapaneseWord {
    pub ent_seq: String,
    pub commonness: Option<u32>,
    pub pos: Vec<Option<String>>,
    pub misc: Vec<String>,
    pub kanji: Vec<Kanji>,
    pub kana: Vec<Kana>,
    pub meanings: Meanings,
    pub useKana: bool,
}

} // verus!
