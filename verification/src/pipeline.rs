//! The entry-construction pipeline: a first pass builds one entry per raw
//! dictionary line, a second pass resolves cross-entry pronunciations and
//! scores every entry.

use vstd::prelude::*;
use crate::dictline::{is_parsable_line, parsable_line, parse_dictionary_line, parsed_line_of,
    ParsedLine};
use crate::enrich::japanese_kanji_of;
use crate::entry::{copy_kanji, kanji_equal, CommonnessBoost, Entry, KanjiCharacter};
use crate::normalize::{extract_alt_pron, normalize_definitions_and_extract_taiwan_pinyin, rewrite_all, split_senses};
use crate::pinyin::{generate_search_variants, pretty_of, prettify, secondary_phonetic_of,
    to_secondary_phonetic};
use crate::scoring::opt_view;
use crate::table::{PairMap, StringMap};
use crate::text::{clone_nested_string_vec, clone_string_vec, filter_duplicates, views_of};
use vstd::string::StringExecFns;

verus! {

/// Whether one corpus line can be consumed by the pipeline: it must be
/// safe to parse and must not be malformed.
pub open spec fn line_ok(l: Seq<char>) -> bool {
    parsable_line(l) && !(parsed_line_of(l) is Err)
}

/// The parsed fields of the entry lines of a corpus, in order, with the
/// comment, metadata and blank lines dropped.
pub open spec fn entry_lines(lines: Seq<Seq<char>>) -> Seq<
    (Seq<char>, Seq<char>, Seq<char>, Seq<Seq<char>>),
>
    decreases lines.len(),
{
    if lines.len() == 0 {
        Seq::empty()
    } else {
        entry_lines(lines.drop_last()) + (match parsed_line_of(lines.last()) {
            Ok(Some(t)) => seq![t],
            _ => Seq::empty(),
        })
    }
}

/// A malformed corpus line, which aborts the run: the primary dictionary
/// corpus is consumed fail-fast.
#[derive(Debug)]
pub struct PipelineError {
    pub line_number: usize,
    pub line: String,
}

/// What the first pass guarantees of an entry built from the parsed line
/// fields `t`, against the given lookup tables.
pub open spec fn first_pass_entry_ok(
    e: Entry,
    t: (Seq<char>, Seq<char>, Seq<char>, Seq<Seq<char>>),
    gloss: PairMap<Vec<String>>,
    radicals_simplified: StringMap<Vec<Vec<String>>>,
    radicals_traditional: StringMap<Vec<Vec<String>>>,
    kanji_dict: StringMap<KanjiCharacter>,
) -> bool {
    &&& e.simplified@ == t.0
    &&& e.traditional@ == t.1
    &&& e.pinyin@ == t.2
    &&& e.pinyin_ws_tone_number@ == t.2
    &&& opt_view(e.pinyin_taiwan) == extract_alt_pron(t.3)
    &&& views_of(e.meanings@) == split_senses(rewrite_all(t.3))
    &&& e.pinyin_pretty@ == pretty_of(t.2)
    &&& e.zhuyin@ == secondary_phonetic_of(pretty_of(t.2))
    &&& views_of(e.meanings_de@) == (match gloss.spec_get(t.1, t.2) {
        Some(v) => v.deep_view(),
        None => Seq::<Seq<char>>::empty(),
    })
    &&& e.simplified_radicals.deep_view() == (match radicals_simplified.spec_get(t.0) {
        Some(v) => v.deep_view(),
        None => Seq::<Seq<Seq<char>>>::empty(),
    })
    &&& e.traditional_radicals.deep_view() == (match radicals_traditional.spec_get(t.1) {
        Some(v) => v.deep_view(),
        None => Seq::<Seq<Seq<char>>>::empty(),
    })
    &&& (match (e.kanji, kanji_dict.spec_get(japanese_kanji_of(t.1))) {
        (Some(a), Some(b)) => kanji_equal(a, b),
        (None, None) => true,
        _ => false,
    })
    &&& e.tocfl_level is None
    &&& e.tags@.len() == 0
    &&& e.pinyin_search@.len() == 0
    &&& e.commonness_boost.frequency_sum == 0
    &&& e.count_per_million_written == 0
    &&& e.count_per_million_spoken == 0
    &&& e.count_per_million_in_others == 0
}

/// Builds one entry per entry line of the primary dictionary corpus,
/// normalizing its definitions, deriving its phonetic forms and attaching
/// the enrichment joins. A malformed line aborts the run with its position;
/// the run succeeds exactly when every line is well-formed.
pub fn build_raw_entries(
    lines: &Vec<String>,
    gloss: &PairMap<Vec<String>>,
    radicals_simplified: &StringMap<Vec<Vec<String>>>,
    radicals_traditional: &StringMap<Vec<Vec<String>>>,
    kanji_dict: &StringMap<KanjiCharacter>,
) -> (r: Result<Vec<Entry>, PipelineError>)
    ensures
        (r is Ok) <==> (forall|i: int|
            0 <= i < lines@.len() ==> line_ok(#[trigger] views_of(lines@)[i])),
        (match r {
            Ok(es) => {
                let el = entry_lines(views_of(lines@));
                &&& es@.len() == el.len()
                &&& forall|k: int|
                    0 <= k < el.len() ==> first_pass_entry_ok(
                        #[trigger] es@[k],
                        el[k],
                        *gloss,
                        *radicals_simplified,
                        *radicals_traditional,
                        *kanji_dict,
                    )
            },
            Err(e) => {
                let idx = e.line_number as int;
                e.line_number < lines@.len() && !line_ok(views_of(lines@)[idx]) && e.line@
                    == views_of(lines@)[idx]
            },
        }),
{
    let ghost lvs = views_of(lines@);
    let mut entries: Vec<Entry> = Vec::new();
    let mut i: usize = 0;
    proof {
        assert(lvs.take(0) =~= Seq::<Seq<char>>::empty());
    }
    while i < lines.len()
        invariant
            lvs == views_of(lines@),
            i <= lvs.len(),
            forall|m: int| 0 <= m < i ==> line_ok(#[trigger] lvs[m]),
            entries@.len() == entry_lines(lvs.take(i as int)).len(),
            forall|k: int|
                0 <= k < entries@.len() ==> first_pass_entry_ok(
                    #[trigger] entries@[k],
                    entry_lines(lvs.take(i as int))[k],
                    *gloss,
                    *radicals_simplified,
                    *radicals_traditional,
                    *kanji_dict,
                ),
        decreases lvs.len() - i,
    {
        proof {
            assert(lvs[i as int] == lines@[i as int]@);
            assert(lvs.take(i + 1).drop_last() =~= lvs.take(i as int));
            assert(lvs.take(i + 1).last() == lvs[i as int]);
        }
        let parsable = is_parsable_line(lines[i].as_str());
        if !parsable {
            let bad = lines[i].clone();
            return Err(PipelineError { line_number: i, line: bad });
        }
        match parse_dictionary_line(lines[i].as_str()) {
            ParsedLine::Malformed => {
                let bad = lines[i].clone();
                return Err(PipelineError { line_number: i, line: bad });
            },
            ParsedLine::Skip => {
                proof {
                    assert(entry_lines(lvs.take(i + 1)) =~= entry_lines(lvs.take(i as int)));
                }
            },
            ParsedLine::Entry(raw) => {
                let ghost t = (raw.simplified@, raw.traditional@, raw.pinyin@,
                    raw.definitions.deep_view());
                proof {
                    assert(entry_lines(lvs.take(i + 1)) =~= entry_lines(lvs.take(i as int)) + seq![
                        t,
                    ]);
                }
                let mut meanings = raw.definitions;
                proof {
                    assert forall|m: int|
                        0 <= m < meanings@.len() implies #[trigger] meanings.deep_view()[m]
                        == views_of(meanings@)[m] by {
                        assert(meanings.deep_view()[m] == meanings@[m].deep_view());
                        assert(views_of(meanings@)[m] == meanings@[m]@);
                    }
                    assert(views_of(meanings@) =~= t.3);
                }
                let pinyin_taiwan = normalize_definitions_and_extract_taiwan_pinyin(&mut meanings);
                let pinyin_pretty = prettify(raw.pinyin.as_str());
                let zhuyin = to_secondary_phonetic(pinyin_pretty.as_str());
                let pinyin_ws_tone_number = raw.pinyin.clone();
                let meanings_de: Vec<String> = match gloss.get(&raw.traditional, &raw.pinyin) {
                    Some(v) => {
                        let c = clone_string_vec(v);
                        proof {
                            crate::text::lemma_views_are_deep(*v);
                        }
                        c
                    },
                    None => {
                        let c: Vec<String> = Vec::new();
                        proof {
                            assert(views_of(c@) =~= Seq::<Seq<char>>::empty());
                        }
                        c
                    },
                };
                let simplified_radicals: Vec<Vec<String>> = match radicals_simplified.get(
                    &raw.simplified,
                ) {
                    Some(v) => clone_nested_string_vec(v),
                    None => {
                        let c: Vec<Vec<String>> = Vec::new();
                        proof {
                            assert(c.deep_view() =~= Seq::<Seq<Seq<char>>>::empty());
                        }
                        c
                    },
                };
                let traditional_radicals: Vec<Vec<String>> = match radicals_traditional.get(
                    &raw.traditional,
                ) {
                    Some(v) => clone_nested_string_vec(v),
                    None => {
                        let c: Vec<Vec<String>> = Vec::new();
                        proof {
                            assert(c.deep_view() =~= Seq::<Seq<Seq<char>>>::empty());
                        }
                        c
                    },
                };
                let kanji_key = crate::enrich::to_japanese_kanji(raw.traditional.as_str());
                let kanji: Option<KanjiCharacter> = match kanji_dict.get(&kanji_key) {
                    Some(k) => Some(copy_kanji(k)),
                    None => None,
                };
                let entry = Entry {
                    simplified: raw.simplified,
                    traditional: raw.traditional,
                    simplified_radicals,
                    traditional_radicals,
                    pinyin: raw.pinyin,
                    pinyin_taiwan,
                    pinyin_search: Vec::new(),
                    zhuyin,
                    pinyin_pretty,
                    pinyin_ws_tone_number,
                    tocfl_level: None,
                    meanings,
                    meanings_de,
                    tags: Vec::new(),
                    commonness_boost: CommonnessBoost::unit(),
                    count_per_million_written: 0,
                    count_per_million_spoken: 0,
                    count_per_million_in_others: 0,
                    kanji,
                };
                let ghost prev_entries = entries@;
                entries.push(entry);
                proof {
                    assert(first_pass_entry_ok(
                        entry,
                        t,
                        *gloss,
                        *radicals_simplified,
                        *radicals_traditional,
                        *kanji_dict,
                    ));
                    assert forall|k: int|
                        0 <= k < entries@.len() implies first_pass_entry_ok(
                        #[trigger] entries@[k],
                        entry_lines(lvs.take(i + 1))[k],
                        *gloss,
                        *radicals_simplified,
                        *radicals_traditional,
                        *kanji_dict,
                    ) by {
                        if k < prev_entries.len() {
                            assert(entries@[k] == prev_entries[k]);
                            assert(entry_lines(lvs.take(i + 1))[k] == entry_lines(
                                lvs.take(i as int),
                            )[k]);
                        } else {
                            assert(entries@[k] == entry);
                            assert(entry_lines(lvs.take(i + 1))[k] == t);
                        }
                    }
                }
            },
        }
        i = i + 1;
    }
    proof {
        assert(lvs.take(lvs.len() as int) =~= lvs);
    }
    Ok(entries)
}


/// The deduplicated search-variant list for a raw pronunciation and an
/// optional alternate-region pronunciation: the two variant sets unioned,
/// keeping the first occurrence of each distinct spelling.
pub open spec fn search_list_for(raw: Seq<char>, alt: Option<Seq<char>>) -> Seq<Seq<char>> {
    crate::text::dedup_views(
        crate::pinyin::search_variants_of(raw) + (match alt {
            Some(p) => crate::pinyin::search_variants_of(p),
            None => Seq::<Seq<char>>::empty(),
        }),
    )
}

/// Everything but the search-variant list is the same in both entries.
pub open spec fn entry_except_search_unchanged(a: Entry, b: Entry) -> bool {
    &&& b.simplified == a.simplified
    &&& b.traditional == a.traditional
    &&& b.simplified_radicals == a.simplified_radicals
    &&& b.traditional_radicals == a.traditional_radicals
    &&& b.pinyin == a.pinyin
    &&& b.pinyin_taiwan == a.pinyin_taiwan
    &&& b.zhuyin == a.zhuyin
    &&& b.pinyin_pretty == a.pinyin_pretty
    &&& b.pinyin_ws_tone_number == a.pinyin_ws_tone_number
    &&& b.tocfl_level == a.tocfl_level
    &&& b.meanings == a.meanings
    &&& b.meanings_de == a.meanings_de
    &&& b.tags == a.tags
    &&& b.commonness_boost == a.commonness_boost
    &&& b.count_per_million_written == a.count_per_million_written
    &&& b.count_per_million_spoken == a.count_per_million_spoken
    &&& b.count_per_million_in_others == a.count_per_million_in_others
    &&& b.kanji == a.kanji
}

/// Fills every entry's search-variant list from its raw pronunciation and,
/// when present, its alternate-region pronunciation.
pub fn add_search_variants(entries: &mut Vec<Entry>)
    ensures
        final(entries)@.len() == old(entries)@.len(),
        forall|k: int|
            0 <= k < old(entries)@.len() ==> views_of(
                (#[trigger] final(entries)@[k]).pinyin_search@,
            ) == search_list_for(
                old(entries)@[k].pinyin_ws_tone_number@,
                opt_view(old(entries)@[k].pinyin_taiwan),
            ),
        forall|k: int|
            0 <= k < old(entries)@.len() ==> entry_except_search_unchanged(
                old(entries)@[k],
                #[trigger] final(entries)@[k],
            ),
{
    let ghost orig = entries@;
    let mut k: usize = 0;
    while k < entries.len()
        invariant
            entries@.len() == orig.len(),
            k <= orig.len(),
            forall|m: int| k <= m < orig.len() ==> #[trigger] entries@[m] == orig[m],
            forall|m: int|
                0 <= m < k ==> views_of((#[trigger] entries@[m]).pinyin_search@)
                    == search_list_for(
                    orig[m].pinyin_ws_tone_number@,
                    opt_view(orig[m].pinyin_taiwan),
                ),
            forall|m: int|
                0 <= m < k ==> entry_except_search_unchanged(orig[m], #[trigger] entries@[m]),
        decreases orig.len() - k,
    {
        let mut variants = generate_search_variants(entries[k].pinyin_ws_tone_number.as_str());
        let ghost base = views_of(variants@);
        match &entries[k].pinyin_taiwan {
            Some(p) => {
                let mut more = generate_search_variants(p.as_str());
                let ghost morev = views_of(more@);
                variants.append(&mut more);
                proof {
                    assert forall|m: int|
                        0 <= m < variants@.len() implies #[trigger] views_of(variants@)[m] == (base
                        + morev)[m] by {
                        assert(views_of(variants@)[m] == variants@[m]@);
                        if m < base.len() {
                        } else {
                        }
                    }
                    assert(views_of(variants@) =~= base + morev);
                }
            },
            None => {
                proof {
                    assert(views_of(variants@) =~= base + Seq::<Seq<char>>::empty());
                }
            },
        }
        let deduped = filter_duplicates(variants);
        entries[k].pinyin_search = deduped;
        k = k + 1;
    }
}

/// The tags contributed by a kanji cross-reference match, added once each:
/// a game-specific level yields a pair of tags.
pub open spec fn wk_tags(base: Seq<Seq<char>>, kanji: Option<KanjiCharacter>) -> Seq<Seq<char>> {
    match kanji {
        Some(kc) => match kc.wk_level {
            Some(l) => crate::entry::add_once(
                crate::entry::add_once(base, "#WK"@),
                "#WaniKaniLevel"@ + crate::text::decimal_of(l as nat),
            ),
            None => base,
        },
        None => base,
    }
}

/// Everything but the tag list is the same in both entries.
pub open spec fn entry_except_tags_unchanged(a: Entry, b: Entry) -> bool {
    &&& b.simplified == a.simplified
    &&& b.traditional == a.traditional
    &&& b.simplified_radicals == a.simplified_radicals
    &&& b.traditional_radicals == a.traditional_radicals
    &&& b.pinyin == a.pinyin
    &&& b.pinyin_taiwan == a.pinyin_taiwan
    &&& b.pinyin_search == a.pinyin_search
    &&& b.zhuyin == a.zhuyin
    &&& b.pinyin_pretty == a.pinyin_pretty
    &&& b.pinyin_ws_tone_number == a.pinyin_ws_tone_number
    &&& b.tocfl_level == a.tocfl_level
    &&& b.meanings == a.meanings
    &&& b.meanings_de == a.meanings_de
    &&& b.commonness_boost == a.commonness_boost
    &&& b.count_per_million_written == a.count_per_million_written
    &&& b.count_per_million_spoken == a.count_per_million_spoken
    &&& b.count_per_million_in_others == a.count_per_million_in_others
    &&& b.kanji == a.kanji
}

/// Adds the kanji cross-reference tags to every entry with a matched kanji
/// record that carries a game-specific level.
pub fn add_kanji_tags(entries: &mut Vec<Entry>)
    requires
        forall|k: int|
            0 <= k < old(entries)@.len() ==> views_of(
                (#[trigger] old(entries)@[k]).tags@,
            ).no_duplicates(),
    ensures
        final(entries)@.len() == old(entries)@.len(),
        forall|k: int|
            0 <= k < old(entries)@.len() ==> views_of((#[trigger] final(entries)@[k]).tags@)
                == wk_tags(views_of(old(entries)@[k].tags@), old(entries)@[k].kanji),
        forall|k: int|
            0 <= k < old(entries)@.len() ==> views_of(
                (#[trigger] final(entries)@[k]).tags@,
            ).no_duplicates(),
        forall|k: int|
            0 <= k < old(entries)@.len() ==> entry_except_tags_unchanged(
                old(entries)@[k],
                #[trigger] final(entries)@[k],
            ),
{
    let ghost orig = entries@;
    let mut k: usize = 0;
    while k < entries.len()
        invariant
            entries@.len() == orig.len(),
            k <= orig.len(),
            forall|m: int|
                0 <= m < orig.len() ==> views_of(
                    (#[trigger] orig[m]).tags@,
                ).no_duplicates(),
            forall|m: int| k <= m < orig.len() ==> #[trigger] entries@[m] == orig[m],
            forall|m: int|
                0 <= m < k ==> views_of((#[trigger] entries@[m]).tags@) == wk_tags(
                    views_of(orig[m].tags@),
                    orig[m].kanji,
                ),
            forall|m: int|
                0 <= m < k ==> views_of((#[trigger] entries@[m]).tags@).no_duplicates(),
            forall|m: int|
                0 <= m < k ==> entry_except_tags_unchanged(orig[m], #[trigger] entries@[m]),
        decreases orig.len() - k,
    {
        let level: Option<u32> = match &entries[k].kanji {
            Some(kc) => kc.wk_level,
            None => None,
        };
        match level {
            Some(l) => {
                let mut tags = clone_string_vec(&entries[k].tags);
                proof {
                    assert(views_of(tags@) == views_of(entries@[k as int].tags@));
                }
                crate::entry::push_tag(&mut tags, String::from_str("#WK"));
                let mut level_tag = String::from_str("#WaniKaniLevel");
                let digits = crate::text::decimal_string(l);
                level_tag.append(digits.as_str());
                crate::entry::push_tag(&mut tags, level_tag);
                entries[k].tags = tags;
            },
            None => {},
        }
        k = k + 1;
    }
}


/// Two corpora whose entries carry the same traditional forms count every
/// surface form alike.
proof fn lemma_count_form_congruent(a: Seq<Entry>, b: Seq<Entry>, form: Seq<char>)
    requires
        a.len() == b.len(),
        forall|j: int| 0 <= j < a.len() ==> (#[trigger] a[j]).traditional == b[j].traditional,
    ensures
        crate::xref::count_form(a, form) == crate::xref::count_form(b, form),
    decreases a.len(),
{
    if a.len() > 0 {
        assert(forall|j: int|
            0 <= j < a.drop_last().len() ==> (#[trigger] a.drop_last()[j]).traditional
                == b.drop_last()[j].traditional);
        lemma_count_form_congruent(a.drop_last(), b.drop_last(), form);
        assert(a.last().traditional == b.last().traditional);
    }
}

/// The relation the scorer leaves between an entry before and after it is
/// scored against the given tables, with the given ambiguity verdict.
pub open spec fn scored_entry_rel(
    a: Entry,
    b: Entry,
    unambiguous: bool,
    wm: Map<(Seq<char>, Seq<char>), (u32, u64, u64)>,
    cm: Map<(Seq<char>, Seq<char>), u64>,
) -> bool {
    let key = crate::scoring::proficiency_key(
        a.traditional@,
        opt_view(a.pinyin_taiwan),
        a.pinyin_ws_tone_number@,
        unambiguous,
    );
    let prof = crate::scoring::prof_value(wm, key);
    let in_oth = crate::scoring::count_value(cm, key);
    let written_raw: u64 = match prof {
        Some(t) => t.1,
        None => 0,
    };
    let spoken: u64 = match prof {
        Some(t) => t.2,
        None => 0,
    };
    let level: Option<u32> = match prof {
        Some(t) => Some(t.0),
        None => None,
    };
    let suppressed = crate::scoring::is_variant_meanings(views_of(a.meanings@));
    let written: u64 = if suppressed {
        0
    } else {
        written_raw
    };
    &&& b.tocfl_level == level
    &&& b.count_per_million_written == written
    &&& b.count_per_million_spoken == spoken
    &&& b.count_per_million_in_others == in_oth
    &&& b.commonness_boost.frequency_sum == (if suppressed {
        0int
    } else {
        written_raw + spoken + in_oth
    })
    &&& (suppressed ==> b.commonness_boost.is_floor() && b.count_per_million_written == 0)
    &&& views_of(b.tags@) == crate::scoring::derive_tags(
        views_of(a.tags@),
        written,
        spoken,
        in_oth,
        level,
    )
    &&& views_of(b.tags@).no_duplicates()
    &&& b.simplified == a.simplified
    &&& b.traditional == a.traditional
    &&& b.simplified_radicals == a.simplified_radicals
    &&& b.traditional_radicals == a.traditional_radicals
    &&& b.pinyin == a.pinyin
    &&& b.pinyin_taiwan == a.pinyin_taiwan
    &&& b.pinyin_search == a.pinyin_search
    &&& b.zhuyin == a.zhuyin
    &&& b.pinyin_pretty == a.pinyin_pretty
    &&& b.pinyin_ws_tone_number == a.pinyin_ws_tone_number
    &&& b.meanings == a.meanings
    &&& b.meanings_de == a.meanings_de
    &&& b.kanji == a.kanji
}

/// Scores every entry: looks up by surface form alone where the form is
/// unambiguous across the whole corpus, else by the exact pronunciation
/// pair.
pub fn resolve_all_commonness(
    entries: &mut Vec<Entry>,
    words: &crate::proficiency::ProficiencyTable,
    common_chars: &tocfl::TOCFLDictionary<u64>,
)
    requires
        forall|k: int|
            0 <= k < old(entries)@.len() ==> views_of(
                (#[trigger] old(entries)@[k]).tags@,
            ).no_duplicates(),
    ensures
        final(entries)@.len() == old(entries)@.len(),
        forall|k: int|
            0 <= k < old(entries)@.len() ==> scored_entry_rel(
                old(entries)@[k],
                #[trigger] final(entries)@[k],
                crate::xref::is_unambiguous_form(old(entries)@, old(entries)@[k].traditional@),
                crate::proficiency::tocfl_word_map(*words),
                crate::proficiency::common_char_map(*common_chars),
            ),
{
    let ghost orig = entries@;
    let mut flags: Vec<bool> = Vec::new();
    let mut i: usize = 0;
    while i < entries.len()
        invariant
            entries@ == orig,
            i <= orig.len(),
            flags@.len() == i,
            forall|m: int|
                0 <= m < i ==> #[trigger] flags@[m] == crate::xref::is_unambiguous_form(
                    orig,
                    orig[m].traditional@,
                ),
        decreases orig.len() - i,
    {
        let c = crate::xref::count_traditional(entries, &entries[i].traditional);
        flags.push(c == 1);
        i = i + 1;
    }
    let mut k: usize = 0;
    while k < entries.len()
        invariant
            entries@.len() == orig.len(),
            flags@.len() == orig.len(),
            k <= orig.len(),
            forall|m: int|
                0 <= m < orig.len() ==> views_of((#[trigger] orig[m]).tags@).no_duplicates(),
            forall|m: int|
                0 <= m < orig.len() ==> #[trigger] flags@[m] == crate::xref::is_unambiguous_form(
                    orig,
                    orig[m].traditional@,
                ),
            forall|m: int| k <= m < orig.len() ==> #[trigger] entries@[m] == orig[m],
            forall|m: int|
                0 <= m < k ==> scored_entry_rel(
                    orig[m],
                    #[trigger] entries@[m],
                    crate::xref::is_unambiguous_form(orig, orig[m].traditional@),
                    crate::proficiency::tocfl_word_map(*words),
                    crate::proficiency::common_char_map(*common_chars),
                ),
        decreases orig.len() - k,
    {
        let flag = flags[k];
        crate::scoring::resolve_commonness(&mut entries[k], words, common_chars, flag);
        k = k + 1;
    }
}


/// The backfill-relevant fields of every entry as the first pass leaves
/// them: traditional form, raw pronunciation, and the alternate-region
/// pronunciation extracted from the definitions.
pub open spec fn phase_one_inputs(el: Seq<(Seq<char>, Seq<char>, Seq<char>, Seq<Seq<char>>)>)
    -> Seq<(Seq<char>, Seq<char>, Option<Seq<char>>)> {
    Seq::new(el.len(), |k: int| (el[k].1, el[k].2, extract_alt_pron(el[k].3)))
}

/// The alternate-region pronunciation the finished pipeline leaves on the
/// entry built from `t`: the one its definitions carry, or the one composed
/// by the cross-reference backfill from the first-pass state of the whole
/// corpus.
pub open spec fn final_alt_pron(
    el: Seq<(Seq<char>, Seq<char>, Seq<char>, Seq<Seq<char>>)>,
    k: int,
) -> Option<Seq<char>> {
    match crate::xref::backfill_result_input(phase_one_inputs(el), k) {
        Some(p) => Some(p),
        None => extract_alt_pron(el[k].3),
    }
}

/// What the finished pipeline guarantees of the entry built from the
/// parsed line fields `t`, against the given lookup tables and the final
/// corpus `all`.
pub open spec fn resolved_entry_ok(
    e: Entry,
    t: (Seq<char>, Seq<char>, Seq<char>, Seq<Seq<char>>),
    alt: Option<Seq<char>>,
    gloss: PairMap<Vec<String>>,
    radicals_simplified: StringMap<Vec<Vec<String>>>,
    radicals_traditional: StringMap<Vec<Vec<String>>>,
    kanji_dict: StringMap<KanjiCharacter>,
    wm: Map<(Seq<char>, Seq<char>), (u32, u64, u64)>,
    cm: Map<(Seq<char>, Seq<char>), u64>,
    all: Seq<Entry>,
) -> bool {
    let key = crate::scoring::proficiency_key(
        t.1,
        opt_view(e.pinyin_taiwan),
        t.2,
        crate::xref::is_unambiguous_form(all, t.1),
    );
    let prof = crate::scoring::prof_value(wm, key);
    let in_oth = crate::scoring::count_value(cm, key);
    let written_raw: u64 = match prof {
        Some(p) => p.1,
        None => 0,
    };
    let spoken: u64 = match prof {
        Some(p) => p.2,
        None => 0,
    };
    let level: Option<u32> = match prof {
        Some(p) => Some(p.0),
        None => None,
    };
    let suppressed = crate::scoring::is_variant_meanings(split_senses(rewrite_all(t.3)));
    let written: u64 = if suppressed {
        0
    } else {
        written_raw
    };
    &&& e.simplified@ == t.0
    &&& e.traditional@ == t.1
    &&& e.pinyin@ == t.2
    &&& e.pinyin_ws_tone_number@ == t.2
    &&& views_of(e.meanings@) == split_senses(rewrite_all(t.3))
    &&& e.pinyin_pretty@ == pretty_of(t.2)
    &&& e.zhuyin@ == secondary_phonetic_of(pretty_of(t.2))
    &&& views_of(e.meanings_de@) == (match gloss.spec_get(t.1, t.2) {
        Some(v) => v.deep_view(),
        None => Seq::<Seq<char>>::empty(),
    })
    &&& e.simplified_radicals.deep_view() == (match radicals_simplified.spec_get(t.0) {
        Some(v) => v.deep_view(),
        None => Seq::<Seq<Seq<char>>>::empty(),
    })
    &&& e.traditional_radicals.deep_view() == (match radicals_traditional.spec_get(t.1) {
        Some(v) => v.deep_view(),
        None => Seq::<Seq<Seq<char>>>::empty(),
    })
    &&& (match (e.kanji, kanji_dict.spec_get(japanese_kanji_of(t.1))) {
        (Some(a), Some(b)) => kanji_equal(a, b),
        (None, None) => true,
        _ => false,
    })
    &&& views_of(e.pinyin_search@) == search_list_for(t.2, extract_alt_pron(t.3))
    &&& opt_view(e.pinyin_taiwan) == alt
    &&& e.tocfl_level == level
    &&& e.count_per_million_written == written
    &&& e.count_per_million_spoken == spoken
    &&& e.count_per_million_in_others == in_oth
    &&& e.commonness_boost.frequency_sum == (if suppressed {
        0int
    } else {
        written_raw + spoken + in_oth
    })
    &&& (suppressed ==> e.commonness_boost.is_floor() && e.count_per_million_written == 0)
    &&& views_of(e.tags@) == crate::scoring::derive_tags(
        wk_tags(Seq::empty(), e.kanji),
        written,
        spoken,
        in_oth,
        level,
    )
    &&& views_of(e.tags@).no_duplicates()
}

/// Runs the whole two-phase pipeline over the primary dictionary corpus:
/// one entry per entry line, in corpus order, normalized, cross-referenced
/// against the whole corpus, scored and tagged. The run succeeds exactly
/// when every corpus line is well-formed, and fails fast with the first
/// offending line otherwise.
pub fn build_entries(
    lines: &Vec<String>,
    gloss: &PairMap<Vec<String>>,
    radicals_simplified: &StringMap<Vec<Vec<String>>>,
    radicals_traditional: &StringMap<Vec<Vec<String>>>,
    kanji_dict: &StringMap<KanjiCharacter>,
    words: &crate::proficiency::ProficiencyTable,
    common_chars: &tocfl::TOCFLDictionary<u64>,
) -> (r: Result<Vec<Entry>, PipelineError>)
    ensures
        (r is Ok) <==> (forall|i: int|
            0 <= i < lines@.len() ==> line_ok(#[trigger] views_of(lines@)[i])),
        (match r {
            Ok(es) => {
                let el = entry_lines(views_of(lines@));
                &&& es@.len() == el.len()
                &&& forall|k: int|
                    0 <= k < el.len() ==> resolved_entry_ok(
                        #[trigger] es@[k],
                        el[k],
                        final_alt_pron(el, k),
                        *gloss,
                        *radicals_simplified,
                        *radicals_traditional,
                        *kanji_dict,
                        crate::proficiency::tocfl_word_map(*words),
                        crate::proficiency::common_char_map(*common_chars),
                        es@,
                    )
            },
            Err(e) => {
                let idx = e.line_number as int;
                e.line_number < lines@.len() && !line_ok(views_of(lines@)[idx]) && e.line@
                    == views_of(lines@)[idx]
            },
        }),
{
    let mut entries = match build_raw_entries(
        lines,
        gloss,
        radicals_simplified,
        radicals_traditional,
        kanji_dict,
    ) {
        Ok(es) => es,
        Err(e) => {
            return Err(e);
        },
    };
    let ghost el = entry_lines(views_of(lines@));
    let ghost s1 = entries@;
    add_search_variants(&mut entries);
    let ghost s2 = entries@;
    proof {
        assert forall|k: int|
            0 <= k < entries@.len() implies views_of(
            (#[trigger] entries@[k]).tags@,
        ).no_duplicates() by {
            assert(s2[k].tags == s1[k].tags);
            assert(views_of(s2[k].tags@).len() == 0);
        }
    }
    add_kanji_tags(&mut entries);
    let ghost s3 = entries@;
    crate::xref::backfill_pronunciations(&mut entries);
    let ghost s4 = entries@;
    proof {
        assert forall|k: int|
            0 <= k < entries@.len() implies views_of(
            (#[trigger] entries@[k]).tags@,
        ).no_duplicates() by {
            assert(s4[k].tags == s3[k].tags);
        }
    }
    resolve_all_commonness(&mut entries, words, common_chars);
    proof {
        let es = entries@;
        let wm = crate::proficiency::tocfl_word_map(*words);
        let cm = crate::proficiency::common_char_map(*common_chars);
        assert forall|k: int| 0 <= k < el.len() implies resolved_entry_ok(
            #[trigger] es[k],
            el[k],
            final_alt_pron(el, k),
            *gloss,
            *radicals_simplified,
            *radicals_traditional,
            *kanji_dict,
            wm,
            cm,
            es,
        ) by {
            let t = el[k];
            assert(first_pass_entry_ok(
                s1[k],
                t,
                *gloss,
                *radicals_simplified,
                *radicals_traditional,
                *kanji_dict,
            ));
            assert(entry_except_search_unchanged(s1[k], s2[k]));
            assert(entry_except_tags_unchanged(s2[k], s3[k]));
            assert(crate::xref::entry_except_taiwan_unchanged(s3[k], s4[k]));
            assert(scored_entry_rel(
                s4[k],
                es[k],
                crate::xref::is_unambiguous_form(s4, s4[k].traditional@),
                wm,
                cm,
            ));
            assert forall|j: int|
                0 <= j < s4.len() implies (#[trigger] s4[j]).traditional
                == es[j].traditional by {
                assert(scored_entry_rel(
                    s4[j],
                    es[j],
                    crate::xref::is_unambiguous_form(s4, s4[j].traditional@),
                    wm,
                    cm,
                ));
            }
            lemma_count_form_congruent(s4, es, t.1);
            assert(crate::xref::is_unambiguous_form(es, t.1) == crate::xref::is_unambiguous_form(
                s4,
                s4[k].traditional@,
            ));
            assert(views_of(s2[k].tags@).len() == 0);
            assert(views_of(s2[k].tags@) =~= Seq::<Seq<char>>::empty());
            assert(views_of(s3[k].tags@) == wk_tags(Seq::empty(), s2[k].kanji));
            assert(s4[k].kanji == es[k].kanji);
            assert(views_of(s4[k].tags@) == wk_tags(Seq::empty(), es[k].kanji));
            assert(views_of(s4[k].meanings@) == split_senses(rewrite_all(t.3)));
            assert(s4[k].pinyin_ws_tone_number@ == t.2);
            assert(s4[k].pinyin@ == t.2);
            assert(s4[k].traditional@ == t.1);
            assert forall|j: int|
                0 <= j < s3.len() implies #[trigger] crate::xref::backfill_inputs(s3)[j]
                == phase_one_inputs(el)[j] by {
                assert(first_pass_entry_ok(
                    s1[j],
                    el[j],
                    *gloss,
                    *radicals_simplified,
                    *radicals_traditional,
                    *kanji_dict,
                ));
                assert(entry_except_search_unchanged(s1[j], s2[j]));
                assert(entry_except_tags_unchanged(s2[j], s3[j]));
            }
            assert(crate::xref::backfill_inputs(s3) =~= phase_one_inputs(el));
            crate::xref::lemma_backfill_result_agrees(s3, k);
            assert(crate::xref::backfill_result(s3, k) == crate::xref::backfill_result_input(
                phase_one_inputs(el),
                k,
            ));
            assert(opt_view(s3[k].pinyin_taiwan) == extract_alt_pron(t.3));
            match crate::xref::backfill_result(s3, k) {
                Some(p) => {
                    assert(opt_view(s4[k].pinyin_taiwan) == Some(p));
                },
                None => {
                    assert(s4[k].pinyin_taiwan == s3[k].pinyin_taiwan);
                },
            }
            assert(opt_view(es[k].pinyin_taiwan) == final_alt_pron(el, k));
            assert(views_of(es[k].pinyin_search@) == search_list_for(t.2, extract_alt_pron(t.3)));
        }
    }
    Ok(entries)
}

} // verus!
