//! Lookups into the proficiency word list and the per-character
//! commonness counts of the tocfl crate.

use vstd::prelude::*;

verus! {

#[verifier::external_type_specification]
#[verifier::external_body]
#[verifier::reject_recursive_types(V)]
pub struct ExTOCFLDictionary<V>(tocfl::TOCFLDictionary<V>);

/// The proficiency word list of the tocfl crate. The crate's record type
/// shares its name with this library's central type, which keeps the
/// dictionary itself from being declared to the verifier; it is held
/// opaquely here instead, with its contents named by `tocfl_word_map`.
#[verifier::external_body]
pub struct ProficiencyTable {
    pub inner: tocfl::TOCFLDictionary<tocfl::Entry>,
}

/// The proficiency records the word table holds: level, written and spoken
/// counts per million, keyed by traditional form and stored pronunciation
/// key.
pub uninterp spec fn tocfl_word_map(d: ProficiencyTable) -> Map<
    (Seq<char>, Seq<char>),
    (u32, u64, u64),
>;

/// The per-million counts a character dictionary holds, keyed the same way.
pub uninterp spec fn common_char_map(d: tocfl::TOCFLDictionary<u64>) -> Map<
    (Seq<char>, Seq<char>),
    u64,
>;

/// The key under which the tocfl dictionaries store a pronunciation: its
/// diacritic form with whitespace removed, as the crate normalizes every
/// lookup.
pub uninterp spec fn tocfl_pinyin_key(p: Seq<char>) -> Seq<char>;

/// A proficiency record: level and frequency-per-million counts for one
/// word.
pub struct ProficiencyRecord {
    pub level: u32,
    pub written_per_million: u64,
    pub spoken_per_million: u64,
}

impl ProficiencyTable {
    /// Relies on `tocfl::load_tocfl_dictionary`: loads the proficiency word
    /// list embedded in the crate.
    #[verifier::external_body]
    pub fn load() -> ProficiencyTable {
        ProficiencyTable { inner: tocfl::load_tocfl_dictionary() }
    }
}

/// Relies on `tocfl::compile_common_chars`: compiles the per-character
/// commonness counts from the embedded word list.
#[verifier::external_body]
pub fn load_common_char_counts() -> tocfl::TOCFLDictionary<u64> {
    tocfl::compile_common_chars()
}

/// Relies on `TOCFLDictionary::get_entry`: looks the pair (traditional
/// form, normalized pronunciation) up in the word table.
#[verifier::external_body]
pub fn proficiency_by_pronunciation(d: &ProficiencyTable, traditional: &str, pinyin: &str) -> (r:
    Option<ProficiencyRecord>)
    ensures
        (match r {
            Some(p) => tocfl_word_map(*d).dom().contains(
                (traditional@, tocfl_pinyin_key(pinyin@)),
            ) && tocfl_word_map(*d)[(traditional@, tocfl_pinyin_key(pinyin@))] == (
                p.level,
                p.written_per_million,
                p.spoken_per_million,
            ),
            None => !tocfl_word_map(*d).dom().contains(
                (traditional@, tocfl_pinyin_key(pinyin@)),
            ),
        }),
{
    d.inner.get_entry(traditional, pinyin).map(
        |e| ProficiencyRecord {
            level: e.tocfl_level,
            written_per_million: e.written_per_million,
            spoken_per_million: e.spoken_per_million,
        },
    )
}

/// Relies on `TOCFLDictionary::get_entry_no_pinyin`: looks the traditional
/// form up under the empty pronunciation key.
#[verifier::external_body]
pub fn proficiency_by_form(d: &ProficiencyTable, traditional: &str) -> (r: Option<
    ProficiencyRecord,
>)
    ensures
        (match r {
            Some(p) => tocfl_word_map(*d).dom().contains((traditional@, Seq::<char>::empty()))
                && tocfl_word_map(*d)[(traditional@, Seq::<char>::empty())] == (
                p.level,
                p.written_per_million,
                p.spoken_per_million,
            ),
            None => !tocfl_word_map(*d).dom().contains((traditional@, Seq::<char>::empty())),
        }),
{
    d.inner.get_entry_no_pinyin(traditional).map(
        |e| ProficiencyRecord {
            level: e.tocfl_level,
            written_per_million: e.written_per_million,
            spoken_per_million: e.spoken_per_million,
        },
    )
}

/// Relies on `TOCFLDictionary::get_entry_no_pinyin` on the character
/// table: looks the traditional form up under the empty pronunciation key.
#[verifier::external_body]
pub fn in_others_by_form(d: &tocfl::TOCFLDictionary<u64>, traditional: &str) -> (r: Option<u64>)
    ensures
        (match r {
            Some(v) => common_char_map(*d).dom().contains((traditional@, Seq::<char>::empty()))
                && common_char_map(*d)[(traditional@, Seq::<char>::empty())] == v,
            None => !common_char_map(*d).dom().contains((traditional@, Seq::<char>::empty())),
        }),
{
    d.get_entry_no_pinyin(traditional).copied()
}

/// Relies on `TOCFLDictionary::get_entry` on the character table: looks the
/// pair (traditional form, normalized pronunciation) up.
#[verifier::external_body]
pub fn in_others_per_million(
    d: &tocfl::TOCFLDictionary<u64>,
    traditional: &str,
    pinyin: &str,
) -> (r: Option<u64>)
    ensures
        (match r {
            Some(v) => common_char_map(*d).dom().contains(
                (traditional@, tocfl_pinyin_key(pinyin@)),
            ) && common_char_map(*d)[(traditional@, tocfl_pinyin_key(pinyin@))] == v,
            None => !common_char_map(*d).dom().contains(
                (traditional@, tocfl_pinyin_key(pinyin@)),
            ),
        }),
{
    d.get_entry(traditional, pinyin).copied()
}

} // verus!
