//! Commonness scoring: proficiency and frequency lookups through the tocfl
//! crate's dictionaries, the bounded monotone commonness boost, variant
//! suppression, and tag derivation.

use vstd::prelude::*;
use crate::entry::{add_once, CommonnessBoost, Entry, push_tag};
use crate::proficiency::{
    common_char_map, in_others_by_form, in_others_per_million, proficiency_by_form,
    proficiency_by_pronunciation, tocfl_pinyin_key, tocfl_word_map, ProficiencyTable,
};
use crate::text::{decimal_of, decimal_string, str_chars, views_of};
use vstd::string::StringExecFns;

verus! {

/// Whether the string holds `pat` as a contiguous substring.
pub open spec fn contains_substring(s: Seq<char>, pat: Seq<char>) -> bool {
    exists|i: int| 0 <= i && i + pat.len() <= s.len() && #[trigger] s.subrange(i, i + pat.len()) == pat
}

/// Searches for `needle` as a contiguous run inside `hay`.
pub fn has_substring(hay: &Vec<char>, needle: &Vec<char>) -> (r: bool)
    ensures
        r == contains_substring(hay@, needle@),
{
    if needle.len() > hay.len() {
        return false;
    }
    let mut i: usize = 0;
    while i <= hay.len() - needle.len()
        invariant
            needle@.len() <= hay@.len(),
            i <= hay@.len() - needle@.len() + 1,
            forall|s: int|
                0 <= s < i ==> #[trigger] hay@.subrange(s, s + needle@.len()) != needle@,
        decreases hay@.len() - needle@.len() - i + 1,
    {
        let mut k: usize = 0;
        let mut matches: bool = true;
        while k < needle.len() && matches
            invariant
                needle@.len() <= hay@.len(),
                hay@.len() <= usize::MAX,
                i + needle@.len() <= hay@.len(),
                k <= needle@.len(),
                matches ==> forall|m: int| 0 <= m < k ==> hay@[i + m] == needle@[m],
                !matches ==> hay@.subrange(i as int, i + needle@.len()) != needle@,
                !matches ==> needle@.len() > 0,
            decreases needle@.len() - k + (if matches {
                1int
            } else {
                0int
            }),
        {
            proof {
                assert(i + k < hay@.len());
            }
            if hay[i + k] != needle[k] {
                proof {
                    assert(hay@.subrange(i as int, i + needle@.len())[k as int] == hay@[i + k]);
                }
                matches = false;
            } else {
                k = k + 1;
            }
        }
        if matches {
            proof {
                assert(hay@.subrange(i as int, i + needle@.len()) =~= needle@);
                assert(contains_substring(hay@, needle@)) by {
                    assert(0 <= i as int && i as int + needle@.len() <= hay@.len()
                        && hay@.subrange(i as int, i as int + needle@.len()) == needle@);
                }
            }
            return true;
        }
        i = i + 1;
    }
    proof {
        assert forall|s: int|
            0 <= s && s + needle@.len() <= hay@.len() implies #[trigger] hay@.subrange(
            s,
            s + needle@.len(),
        ) != needle@ by {
            assert(s < i);
        }
    }
    false
}

/// Whether every atomic sense of an entry speaks of a variant form: the
/// literal text `variant` occurs in each one.
pub open spec fn is_variant_meanings(meanings: Seq<Seq<char>>) -> bool {
    forall|i: int| 0 <= i < meanings.len() ==> contains_substring(#[trigger] meanings[i], "variant"@)
}

/// Detects a pure cross-reference stub: every sense mentions a variant
/// form.
pub fn is_variant_entry(meanings: &Vec<String>) -> (r: bool)
    ensures
        r == is_variant_meanings(views_of(meanings@)),
{
    let needle = str_chars("variant");
    let mut i: usize = 0;
    while i < meanings.len()
        invariant
            needle@ == ("variant")@,
            i <= meanings@.len(),
            forall|j: int|
                0 <= j < i ==> contains_substring(#[trigger] views_of(meanings@)[j], "variant"@),
        decreases meanings@.len() - i,
    {
        let hay = str_chars(meanings[i].as_str());
        let found = has_substring(&hay, &needle);
        proof {
            assert(views_of(meanings@)[i as int] == meanings@[i as int]@);
        }
        if !found {
            return false;
        }
        i = i + 1;
    }
    true
}

/// The view of an optional string.
pub open spec fn opt_view(o: Option<String>) -> Option<Seq<char>> {
    match o {
        Some(s) => Some(s@),
        None => None,
    }
}

/// The key under which an entry's proficiency data is looked up: by
/// traditional form alone when the surface form is unambiguous, otherwise
/// by the exact pair of traditional form and chosen pronunciation — the
/// alternate-region pronunciation when present, the raw one otherwise.
pub open spec fn proficiency_key(
    trad: Seq<char>,
    alt: Option<Seq<char>>,
    raw: Seq<char>,
    unambiguous: bool,
) -> (Seq<char>, Seq<char>) {
    if unambiguous {
        (trad, Seq::empty())
    } else {
        (
            trad,
            tocfl_pinyin_key(
                match alt {
                    Some(p) => p,
                    None => raw,
                },
            ),
        )
    }
}

/// The record a map holds under a key, if any.
pub open spec fn prof_value(m: Map<(Seq<char>, Seq<char>), (u32, u64, u64)>, key: (Seq<char>, Seq<
    char,
>)) -> Option<(u32, u64, u64)> {
    if m.dom().contains(key) {
        Some(m[key])
    } else {
        None
    }
}

/// The count a map holds under a key, zero when absent.
pub open spec fn count_value(m: Map<(Seq<char>, Seq<char>), u64>, key: (Seq<char>, Seq<char>)) -> u64 {
    if m.dom().contains(key) {
        m[key]
    } else {
        0
    }
}

/// The tags derived from post-suppression frequency values and the
/// proficiency level, each added at most once, in a fixed order.
pub open spec fn derive_tags(
    base: Seq<Seq<char>>,
    written: u64,
    spoken: u64,
    in_others: u64,
    level: Option<u32>,
) -> Seq<Seq<char>> {
    let t1 = if written > 150 {
        add_once(add_once(base, "#common"@), "#common_written"@)
    } else {
        base
    };
    let t2 = if spoken > 150 {
        add_once(add_once(t1, "#common"@), "#common_spoken"@)
    } else {
        t1
    };
    let t3 = if spoken > 450 {
        add_once(t2, "#verycommon"@)
    } else {
        t2
    };
    let t4 = if in_others > 550 {
        add_once(t3, "#commonchar"@)
    } else {
        t3
    };
    match level {
        Some(l) => add_once(add_once(t4, "#TOCFL"@), "#TOCFL"@ + decimal_of(l as nat)),
        None => t4,
    }
}

/// Scores one entry: looks its proficiency and in-others counts up, both
/// keyed the same way — by surface form alone when the form is unambiguous,
/// else by the exact pair of form and chosen pronunciation — computes the
/// commonness boost from the summed counts, suppresses the score of a pure
/// variant stub, and derives the frequency tags. A variant stub always ends
/// with a written count of zero and the boost exactly on its floor of one,
/// whatever the underlying frequency data.
pub fn resolve_commonness(
    entry: &mut Entry,
    words: &ProficiencyTable,
    common_chars: &tocfl::TOCFLDictionary<u64>,
    is_unambiguous: bool,
)
    requires
        views_of(old(entry).tags@).no_duplicates(),
    ensures
        ({
            let key = proficiency_key(
                old(entry).traditional@,
                opt_view(old(entry).pinyin_taiwan),
                old(entry).pinyin_ws_tone_number@,
                is_unambiguous,
            );
            let prof = prof_value(tocfl_word_map(*words), key);
            let in_oth = count_value(common_char_map(*common_chars), key);
            let written_raw: u64 = match prof {
                Some(t) => t.1,
                None => 0,
            };
            let spoken: u64 = match prof {
                Some(t) => t.2,
                None => 0,
            };
            let level: Option<u32> = match prof {
                Some(t) => Some(t.0),
                None => None,
            };
            let suppressed = is_variant_meanings(views_of(old(entry).meanings@));
            let written: u64 = if suppressed {
                0
            } else {
                written_raw
            };
            &&& final(entry).tocfl_level == level
            &&& final(entry).count_per_million_written == written
            &&& final(entry).count_per_million_spoken == spoken
            &&& final(entry).count_per_million_in_others == in_oth
            &&& final(entry).commonness_boost.frequency_sum == (if suppressed {
                0int
            } else {
                written_raw + spoken + in_oth
            })
            &&& (suppressed ==> final(entry).commonness_boost.is_floor()
                && final(entry).count_per_million_written == 0)
            &&& views_of(final(entry).tags@) == derive_tags(
                views_of(old(entry).tags@),
                written,
                spoken,
                in_oth,
                level,
            )
            &&& views_of(final(entry).tags@).no_duplicates()
            &&& final(entry).simplified == old(entry).simplified
            &&& final(entry).traditional == old(entry).traditional
            &&& final(entry).simplified_radicals == old(entry).simplified_radicals
            &&& final(entry).traditional_radicals == old(entry).traditional_radicals
            &&& final(entry).pinyin == old(entry).pinyin
            &&& final(entry).pinyin_taiwan == old(entry).pinyin_taiwan
            &&& final(entry).pinyin_search == old(entry).pinyin_search
            &&& final(entry).zhuyin == old(entry).zhuyin
            &&& final(entry).pinyin_pretty == old(entry).pinyin_pretty
            &&& final(entry).pinyin_ws_tone_number == old(entry).pinyin_ws_tone_number
            &&& final(entry).meanings == old(entry).meanings
            &&& final(entry).meanings_de == old(entry).meanings_de
            &&& final(entry).kanji == old(entry).kanji
        }),
{
    let prof = if is_unambiguous {
        proficiency_by_form(words, entry.traditional.as_str())
    } else {
        match &entry.pinyin_taiwan {
            Some(p) => proficiency_by_pronunciation(words, entry.traditional.as_str(), p.as_str()),
            None => proficiency_by_pronunciation(
                words,
                entry.traditional.as_str(),
                entry.pinyin_ws_tone_number.as_str(),
            ),
        }
    };
    let (level, written_raw, spoken): (Option<u32>, u64, u64) = match &prof {
        Some(p) => (Some(p.level), p.written_per_million, p.spoken_per_million),
        None => (None, 0, 0),
    };
    let in_oth_found = if is_unambiguous {
        in_others_by_form(common_chars, entry.traditional.as_str())
    } else {
        match &entry.pinyin_taiwan {
            Some(p) => in_others_per_million(common_chars, entry.traditional.as_str(), p.as_str()),
            None => in_others_per_million(
                common_chars,
                entry.traditional.as_str(),
                entry.pinyin_ws_tone_number.as_str(),
            ),
        }
    };
    let in_oth = match in_oth_found {
        Some(v) => v,
        None => 0,
    };
    entry.tocfl_level = level;
    let suppressed = is_variant_entry(&entry.meanings);
    let written: u64 = if suppressed {
        0
    } else {
        written_raw
    };
    if suppressed {
        entry.commonness_boost = CommonnessBoost::unit();
    } else {
        let sum: u128 = written_raw as u128 + spoken as u128 + in_oth as u128;
        entry.commonness_boost = CommonnessBoost::from_sum(sum);
    }
    if written > 150 {
        push_tag(&mut entry.tags, String::from_str("#common"));
        push_tag(&mut entry.tags, String::from_str("#common_written"));
    }
    entry.count_per_million_written = written;
    entry.count_per_million_spoken = spoken;
    entry.count_per_million_in_others = in_oth;
    if spoken > 150 {
        push_tag(&mut entry.tags, String::from_str("#common"));
        push_tag(&mut entry.tags, String::from_str("#common_spoken"));
    }
    if spoken > 450 {
        push_tag(&mut entry.tags, String::from_str("#verycommon"));
    }
    if in_oth > 550 {
        push_tag(&mut entry.tags, String::from_str("#commonchar"));
    }
    match level {
        Some(l) => {
            push_tag(&mut entry.tags, String::from_str("#TOCFL"));
            let mut level_tag = String::from_str("#TOCFL");
            let digits = decimal_string(l);
            level_tag.append(digits.as_str());
            push_tag(&mut entry.tags, level_tag);
        },
        None => {},
    }
}

} // verus!
