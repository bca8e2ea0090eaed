//! Enrichment joins: character-decomposition tables, the Japanese-kanji
//! cross-reference, and the secondary-language gloss table.

use vstd::prelude::*;
use crate::dictline::{is_parsable_line, parsable_line, parse_dictionary_line, parsed_line_of,
    ParsedLine};
use crate::table::{PairMap, StringMap};
use crate::text::{spec_split, spec_tokens, split_string, split_whitespace_str, views_of};

verus! {

/// The Japanese-script equivalent of a string of Chinese characters.
pub uninterp spec fn japanese_kanji_of(s: Seq<char>) -> Seq<char>;

/// Relies on `kanji_hanzi_converter::convert_to_japanese_kanji`: maps each
/// character to its Japanese-script equivalent and leaves unconvertible
/// characters unchanged; a function of the input characters alone.
#[verifier::external_body]
pub fn to_japanese_kanji(s: &str) -> (r: String)
    ensures
        r@ == japanese_kanji_of(s@),
{
    kanji_hanzi_converter::convert_to_japanese_kanji(s)
}

/// The decomposition groups of one radical-table line: every tab-separated
/// field after the first, each split into its whitespace-separated
/// component labels.
pub open spec fn radical_groups_of(line: Seq<char>) -> Seq<Seq<Seq<char>>> {
    let parts = spec_split(line, '\t');
    Seq::new((parts.len() - 1) as nat, |g: int| spec_tokens(parts[g + 1]))
}

/// Parses one tab-delimited radical-table line into the surface form and
/// its decomposition groups.
pub fn parse_radical_line(line: &str) -> (r: (String, Vec<Vec<String>>))
    ensures
        r.0@ == spec_split(line@, '\t')[0],
        r.1.deep_view() == radical_groups_of(line@),
{
    let parts = split_string(line, '\t');
    proof {
        assert(views_of(parts@)[0] == parts@[0]@);
    }
    let key = parts[0].clone();
    let mut groups: Vec<Vec<String>> = Vec::new();
    let mut g: usize = 1;
    while g < parts.len()
        invariant
            views_of(parts@) == spec_split(line@, '\t'),
            1 <= g <= parts@.len(),
            groups.deep_view() == radical_groups_of(line@).take(g - 1),
        decreases parts@.len() - g,
    {
        let tokens = split_whitespace_str(parts[g].as_str());
        let ghost prev = groups.deep_view();
        let ghost prevv = groups@;
        let ghost tv = views_of(tokens@);
        proof {
            assert forall|m: int|
                0 <= m < tokens@.len() implies tokens.deep_view()[m] == #[trigger] views_of(
                tokens@,
            )[m] by {
                assert(tokens.deep_view()[m] == tokens@[m].deep_view());
                assert(views_of(tokens@)[m] == tokens@[m]@);
            }
            assert(tokens.deep_view() =~= views_of(tokens@));
        }
        let ghost tdv = tokens.deep_view();
        groups.push(tokens);
        proof {
            assert(views_of(parts@)[g as int] == parts@[g as int]@);
            assert(radical_groups_of(line@)[g - 1] == spec_tokens(
                spec_split(line@, '\t')[g as int],
            ));
            assert(tdv =~= spec_tokens(parts@[g as int]@));
            assert(groups@.len() == prevv.len() + 1);
            assert(prev.len() == prevv.len());
            assert(prev.len() == g - 1);
            assert(groups.deep_view().len() == groups@.len());
            assert forall|m: int|
                0 <= m < groups.deep_view().len() implies groups.deep_view()[m]
                == #[trigger] radical_groups_of(line@).take(g as int)[m] by {
                assert(groups.deep_view()[m] == groups@[m].deep_view());
                if m < g - 1 {
                    assert(groups@[m] == prevv[m]);
                    assert(prev[m] == prevv[m].deep_view());
                } else {
                    assert(groups@[m].deep_view() == tdv);
                }
            }
            assert(groups.deep_view() =~= radical_groups_of(line@).take(g as int));
        }
        g = g + 1;
    }
    proof {
        assert(radical_groups_of(line@).take(radical_groups_of(line@).len() as int)
            =~= radical_groups_of(line@));
        assert(parts@.len() - 1 == radical_groups_of(line@).len());
    }
    (key, groups)
}

/// The decomposition stored for `key` by a radical table read line by line,
/// the last line for a surface form winning.
pub open spec fn radicals_from_lines(lines: Seq<Seq<char>>, key: Seq<char>) -> Option<
    Seq<Seq<Seq<char>>>,
>
    decreases lines.len(),
{
    if lines.len() == 0 {
        None
    } else if spec_split(lines.last(), '\t')[0] == key {
        Some(radical_groups_of(lines.last()))
    } else {
        radicals_from_lines(lines.drop_last(), key)
    }
}

/// Builds one radical table from its tab-delimited lines.
pub fn build_radical_table(lines: &Vec<String>) -> (t: StringMap<Vec<Vec<String>>>)
    ensures
        t.wf(),
        forall|key: Seq<char>|
            match #[trigger] t.spec_get(key) {
                Some(v) => radicals_from_lines(views_of(lines@), key) == Some(v.deep_view()),
                None => radicals_from_lines(views_of(lines@), key) == None::<Seq<Seq<Seq<char>>>>,
            },
{
    let ghost lvs = views_of(lines@);
    let mut t: StringMap<Vec<Vec<String>>> = StringMap::new();
    let mut i: usize = 0;
    proof {
        assert(lvs.take(0) =~= Seq::<Seq<char>>::empty());
    }
    while i < lines.len()
        invariant
            lvs == views_of(lines@),
            i <= lvs.len(),
            t.wf(),
            forall|key: Seq<char>|
                match #[trigger] t.spec_get(key) {
                    Some(v) => radicals_from_lines(lvs.take(i as int), key) == Some(v.deep_view()),
                    None => radicals_from_lines(lvs.take(i as int), key) == None::<
                        Seq<Seq<Seq<char>>>,
                    >,
                },
        decreases lvs.len() - i,
    {
        let (key, groups) = parse_radical_line(lines[i].as_str());
        let ghost keyv = key@;
        let ghost before = t;
        t.insert(key, groups);
        proof {
            assert(lvs[i as int] == lines@[i as int]@);
            assert(lvs.take(i + 1).drop_last() =~= lvs.take(i as int));
            assert(lvs.take(i + 1).last() == lvs[i as int]);
            assert(keyv == spec_split(lvs[i as int], '\t')[0]);
            assert forall|key2: Seq<char>|
                match #[trigger] t.spec_get(key2) {
                    Some(v) => radicals_from_lines(lvs.take(i + 1), key2) == Some(v.deep_view()),
                    None => radicals_from_lines(lvs.take(i + 1), key2) == None::<
                        Seq<Seq<Seq<char>>>,
                    >,
                } by {
                if key2 == keyv {
                    assert(t.spec_get(key2) is Some);
                } else {
                    assert(t.spec_get(key2) == before.spec_get(key2));
                }
            }
        }
        i = i + 1;
    }
    proof {
        assert(lvs.take(lvs.len() as int) =~= lvs);
    }
    t
}

/// The glosses stored for a (traditional form, pronunciation) pair by a
/// gloss corpus read line by line: entry lines insert their definitions,
/// later lines win, and every other line is passed over.
pub open spec fn gloss_from_lines(lines: Seq<Seq<char>>, k1: Seq<char>, k2: Seq<char>) -> Option<
    Seq<Seq<char>>,
>
    decreases lines.len(),
{
    if lines.len() == 0 {
        None
    } else {
        let l = lines.last();
        if parsable_line(l) && (match parsed_line_of(l) {
            Ok(Some(t)) => t.1 == k1 && t.2 == k2,
            _ => false,
        }) {
            match parsed_line_of(l) {
                Ok(Some(t)) => Some(t.3),
                _ => None,
            }
        } else {
            gloss_from_lines(lines.drop_last(), k1, k2)
        }
    }
}

/// Builds the secondary-language gloss table from its corpus lines, keyed
/// by the exact (traditional form, pronunciation) pair. Rows that fail to
/// parse are skipped: a lookup miss is no error for this corpus.
pub fn build_gloss_table(lines: &Vec<String>) -> (t: PairMap<Vec<String>>)
    ensures
        t.wf(),
        forall|k1: Seq<char>, k2: Seq<char>|
            match #[trigger] t.spec_get(k1, k2) {
                Some(v) => gloss_from_lines(views_of(lines@), k1, k2) == Some(v.deep_view()),
                None => gloss_from_lines(views_of(lines@), k1, k2) == None::<Seq<Seq<char>>>,
            },
{
    let ghost lvs = views_of(lines@);
    let mut t: PairMap<Vec<String>> = PairMap::new();
    let mut i: usize = 0;
    proof {
        assert(lvs.take(0) =~= Seq::<Seq<char>>::empty());
    }
    while i < lines.len()
        invariant
            lvs == views_of(lines@),
            i <= lvs.len(),
            t.wf(),
            forall|k1: Seq<char>, k2: Seq<char>|
                match #[trigger] t.spec_get(k1, k2) {
                    Some(v) => gloss_from_lines(lvs.take(i as int), k1, k2) == Some(v.deep_view()),
                    None => gloss_from_lines(lvs.take(i as int), k1, k2) == None::<Seq<Seq<char>>>,
                },
        decreases lvs.len() - i,
    {
        proof {
            assert(lvs[i as int] == lines@[i as int]@);
            assert(lvs.take(i + 1).drop_last() =~= lvs.take(i as int));
            assert(lvs.take(i + 1).last() == lvs[i as int]);
        }
        let parsable = is_parsable_line(lines[i].as_str());
        if parsable {
            match parse_dictionary_line(lines[i].as_str()) {
                ParsedLine::Entry(e) => {
                    let ghost k1v = e.traditional@;
                    let ghost k2v = e.pinyin@;
                    let ghost dv = e.definitions.deep_view();
                    let ghost before = t;
                    t.insert(e.traditional, e.pinyin, e.definitions);
                    proof {
                        assert forall|k1: Seq<char>, k2: Seq<char>|
                            match #[trigger] t.spec_get(k1, k2) {
                                Some(v) => gloss_from_lines(lvs.take(i + 1), k1, k2) == Some(
                                    v.deep_view(),
                                ),
                                None => gloss_from_lines(lvs.take(i + 1), k1, k2) == None::<
                                    Seq<Seq<char>>,
                                >,
                            } by {
                            if k1 == k1v && k2 == k2v {
                                assert(t.spec_get(k1, k2) is Some);
                            } else {
                                assert(t.spec_get(k1, k2) == before.spec_get(k1, k2));
                            }
                        }
                    }
                },
                ParsedLine::Skip => {
                    proof {
                        assert forall|k1: Seq<char>, k2: Seq<char>| true implies gloss_from_lines(
                            lvs.take(i + 1),
                            k1,
                            k2,
                        ) == gloss_from_lines(lvs.take(i as int), k1, k2) by {}
                    }
                },
                ParsedLine::Malformed => {
                    proof {
                        assert forall|k1: Seq<char>, k2: Seq<char>| true implies gloss_from_lines(
                            lvs.take(i + 1),
                            k1,
                            k2,
                        ) == gloss_from_lines(lvs.take(i as int), k1, k2) by {}
                    }
                },
            }
        } else {
            proof {
                assert forall|k1: Seq<char>, k2: Seq<char>| true implies gloss_from_lines(
                    lvs.take(i + 1),
                    k1,
                    k2,
                ) == gloss_from_lines(lvs.take(i as int), k1, k2) by {}
            }
        }
        i = i + 1;
    }
    proof {
        assert(lvs.take(lvs.len() as int) =~= lvs);
    }
    t
}

} // verus!
