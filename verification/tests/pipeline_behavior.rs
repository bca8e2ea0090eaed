use std::collections::HashMap;

use hanzi_dict::enrich::{build_gloss_table, build_radical_table, parse_radical_line,
    to_japanese_kanji};
use hanzi_dict::entry::Entry;
use hanzi_dict::freq::{FrequencyRecord, FrequencyTable, FrequencyTables};
use hanzi_dict::normalize::normalize_definitions_and_extract_taiwan_pinyin;
use hanzi_dict::pipeline::build_entries;
use hanzi_dict::proficiency::{in_others_by_form, in_others_per_million, load_common_char_counts,
    proficiency_by_pronunciation, ProficiencyTable};
use hanzi_dict::table::StringMap;

fn tocfl_entry(text: &str, level: u32, written: u64, spoken: u64) -> tocfl::Entry {
    tocfl::Entry {
        id: 1,
        text: text.to_string(),
        text_alt: Vec::new(),
        category: String::new(),
        tocfl_level: level,
        situation: String::new(),
        written_per_million: written,
        spoken_per_million: spoken,
        components: String::new(),
        zhuyin: String::new(),
        zhuyin_alt: Vec::new(),
        pinyin: String::new(),
        pinyin_alt: Vec::new(),
    }
}

fn word_table(records: Vec<((&str, &str), tocfl::Entry)>) -> ProficiencyTable {
    let mut hashmap: HashMap<(String, String), tocfl::Entry> = HashMap::new();
    for ((trad, pinyin), e) in records {
        hashmap.insert((trad.to_string(), pinyin.to_string()), e);
    }
    ProficiencyTable { inner: tocfl::TOCFLDictionary { hashmap } }
}

fn char_counts(records: Vec<((&str, &str), u64)>) -> tocfl::TOCFLDictionary<u64> {
    let mut hashmap: HashMap<(String, String), u64> = HashMap::new();
    for ((trad, pinyin), v) in records {
        hashmap.insert((trad.to_string(), pinyin.to_string()), v);
    }
    tocfl::TOCFLDictionary { hashmap }
}

fn run_pipeline(
    lines: Vec<&str>,
    words: ProficiencyTable,
    common: tocfl::TOCFLDictionary<u64>,
) -> Vec<Entry> {
    let lines: Vec<String> = lines.into_iter().map(|l| l.to_string()).collect();
    let gloss = build_gloss_table(&Vec::new());
    let radicals = build_radical_table(&Vec::new());
    let radicals2 = build_radical_table(&Vec::new());
    let kanji: StringMap<hanzi_dict::entry::KanjiCharacter> = StringMap::new();
    build_entries(&lines, &gloss, &radicals, &radicals2, &kanji, &words, &common).unwrap()
}

fn boost_value(sum: u128) -> f64 {
    (sum as f64).sqrt().max(4.0) / 4.0
}

#[test]
fn test_normalize_def() {
    let pinyin = normalize_definitions_and_extract_taiwan_pinyin(&mut vec![
        "also pr. [qǐ lai]".to_string(),
    ]);
    assert_eq!(pinyin, Some("qǐ lai".to_string()));
}

#[test]
fn normalize_splits_senses_and_rewrites_annotations() {
    let mut defs = vec![
        "to sleep; to lie down".to_string(),
        "hello [ni3 hao3] there".to_string(),
    ];
    let pinyin = normalize_definitions_and_extract_taiwan_pinyin(&mut defs);
    assert_eq!(pinyin, None);
    assert_eq!(
        defs,
        vec!["to sleep", "to lie down", "hello [nǐ hǎo] there"]
    );
}

#[test]
fn normalize_keeps_blank_annotations() {
    let mut defs = vec!["empty [ ] stays".to_string()];
    let pinyin = normalize_definitions_and_extract_taiwan_pinyin(&mut defs);
    assert_eq!(pinyin, None);
    assert_eq!(defs, vec!["empty [ ] stays"]);
}

#[test]
fn normalize_last_annotation_wins() {
    let mut defs = vec![
        "Taiwan pr. [han4]".to_string(),
        "also pr. [han2]".to_string(),
    ];
    let pinyin = normalize_definitions_and_extract_taiwan_pinyin(&mut defs);
    assert_eq!(pinyin, Some("han2".to_string()));
}

#[test]
fn common_entry_gets_frequency_tags_and_boost() {
    let words = word_table(vec![(("下午", ""), tocfl_entry("下午", 1, 500, 600))]);
    let entries = run_pipeline(
        vec!["下午 下午 [xia4 wu3] /afternoon/p.m./"],
        words,
        char_counts(Vec::new()),
    );
    assert_eq!(entries.len(), 1);
    let e = &entries[0];
    assert_eq!(e.traditional, "下午");
    assert_eq!(e.pinyin, "xia4 wu3");
    assert_eq!(e.count_per_million_written, 500);
    assert_eq!(e.count_per_million_spoken, 600);
    assert_eq!(e.tocfl_level, Some(1));
    assert!(e.tags.contains(&"#common".to_string()));
    assert!(e.tags.contains(&"#common_written".to_string()));
    assert!(e.tags.contains(&"#common_spoken".to_string()));
    assert!(e.tags.contains(&"#verycommon".to_string()));
    assert!(e.tags.contains(&"#TOCFL".to_string()));
    assert!(e.tags.contains(&"#TOCFL1".to_string()));
    assert_eq!(e.commonness_boost.frequency_sum, 1100);
    let boost = boost_value(e.commonness_boost.frequency_sum);
    assert!((boost - 1100f64.sqrt() / 4.0).abs() < 1e-12);
    assert!((boost - 8.2915619758885).abs() < 1e-9);
}

#[test]
fn variant_stub_is_suppressed() {
    let words = word_table(vec![(("亇", ""), tocfl_entry("亇", 2, 9999, 0))]);
    let entries = run_pipeline(
        vec!["亇 亇 [ge4] /variant of 個[ge4]/"],
        words,
        char_counts(Vec::new()),
    );
    let e = &entries[0];
    assert_eq!(e.count_per_million_written, 0);
    assert_eq!(e.commonness_boost.frequency_sum, 0);
    let boost = boost_value(e.commonness_boost.frequency_sum);
    assert_eq!(boost, 1.0);
    assert!(!boost.is_nan());
    for tag in &e.tags {
        assert!(!tag.starts_with("#common"));
    }
}

#[test]
fn boost_is_at_least_one_and_never_nan() {
    for sum in [0u128, 1, 15, 16, 17, 1100, u64::MAX as u128] {
        let b = boost_value(sum);
        assert!(b >= 1.0);
        assert!(!b.is_nan());
    }
}

#[test]
fn backfill_composes_alternate_pronunciation() {
    let entries = run_pipeline(
        vec![
            "氣 气 [qi5] /gas/Taiwan pr. [qi4]/",
            "空 空 [kong1] /empty/",
            "空氣 空气 [kong1 qi5] /air/",
        ],
        word_table(Vec::new()),
        char_counts(Vec::new()),
    );
    assert_eq!(entries[0].pinyin_taiwan, Some("qi4".to_string()));
    assert_eq!(entries[1].pinyin_taiwan, None);
    assert_eq!(entries[2].pinyin_taiwan, Some("kong1 qi4".to_string()));
}

#[test]
fn backfill_never_overwrites_and_skips_single_characters() {
    let entries = run_pipeline(
        vec![
            "氣 气 [qi5] /gas/Taiwan pr. [qi4]/",
            "空 空 [kong1] /empty/",
            "空氣 空气 [kong1 qi5] /air/Taiwan pr. [kong4 qi4]/",
        ],
        word_table(Vec::new()),
        char_counts(Vec::new()),
    );
    assert_eq!(entries[0].pinyin_taiwan, Some("qi4".to_string()));
    assert_eq!(entries[1].pinyin_taiwan, None);
    assert_eq!(entries[2].pinyin_taiwan, Some("kong4 qi4".to_string()));
}

#[test]
fn backfill_aborts_on_unresolvable_character() {
    let entries = run_pipeline(
        vec![
            "氣 气 [qi5] /gas/Taiwan pr. [qi4]/",
            "空氣 空气 [kong1 qi5] /air/",
        ],
        word_table(Vec::new()),
        char_counts(Vec::new()),
    );
    assert_eq!(entries[1].pinyin_taiwan, None);
}

#[test]
fn tags_are_free_of_duplicates() {
    let words = word_table(vec![(("下午", ""), tocfl_entry("下午", 1, 500, 600))]);
    let entries = run_pipeline(
        vec![
            "下午 下午 [xia4 wu3] /afternoon/",
            "亇 亇 [ge4] /variant of 個[ge4]/",
        ],
        words,
        char_counts(Vec::new()),
    );
    for e in &entries {
        let mut seen = std::collections::HashSet::new();
        for tag in &e.tags {
            assert!(seen.insert(tag.clone()), "duplicate tag {}", tag);
        }
    }
}

#[test]
fn search_variants_attached_to_entries() {
    let entries = run_pipeline(
        vec!["下午 下午 [xia4 wu3] /afternoon/"],
        word_table(Vec::new()),
        char_counts(Vec::new()),
    );
    let vs = &entries[0].pinyin_search;
    assert!(vs.contains(&"xia4 wu3".to_string()));
    assert!(vs.contains(&"xia4wu3".to_string()));
    assert!(vs.contains(&"xia wu".to_string()));
    assert!(vs.contains(&"xiawu".to_string()));
    assert!(vs.contains(&"xià wǔ".to_string()));
    assert!(vs.contains(&"xiàwǔ".to_string()));
    let mut seen = std::collections::HashSet::new();
    for v in vs {
        assert!(seen.insert(v.clone()));
    }
}

#[test]
fn ambiguous_forms_need_exact_pronunciation() {
    let words = word_table(vec![(("分", "fēn"), tocfl_entry("分", 1, 500, 0))]);
    let entries = run_pipeline(
        vec![
            "分 分 [fen1] /minute/",
            "分 分 [fen4] /part/",
        ],
        words,
        char_counts(Vec::new()),
    );
    assert_eq!(entries[0].count_per_million_written, 500);
    assert_eq!(entries[1].count_per_million_written, 0);
}

#[test]
fn malformed_line_aborts_the_run() {
    let lines: Vec<String> = vec!["badline".to_string()];
    let gloss = build_gloss_table(&Vec::new());
    let radicals = build_radical_table(&Vec::new());
    let radicals2 = build_radical_table(&Vec::new());
    let kanji: StringMap<hanzi_dict::entry::KanjiCharacter> = StringMap::new();
    let r = build_entries(
        &lines,
        &gloss,
        &radicals,
        &radicals2,
        &kanji,
        &word_table(Vec::new()),
        &char_counts(Vec::new()),
    );
    let err = r.err().unwrap();
    assert_eq!(err.line_number, 0);
    assert_eq!(err.line, "badline");
}

#[test]
fn comments_and_blank_lines_are_skipped() {
    let entries = run_pipeline(
        vec![
            "# a comment",
            "#! version=1",
            "",
            "空 空 [kong1] /empty/",
        ],
        word_table(Vec::new()),
        char_counts(Vec::new()),
    );
    assert_eq!(entries.len(), 1);
    assert_eq!(entries[0].traditional, "空");
}

#[test]
fn frequency_accumulation_over_words() {
    let mut chars = FrequencyTable::new();
    chars.insert(FrequencyRecord::from_row("午".to_string(), 3, 1));
    let mut words = FrequencyTable::new();
    words.insert(FrequencyRecord::from_row("下午".to_string(), 10, 4));
    words.insert(FrequencyRecord::from_row("中午".to_string(), 7, 2));
    words.insert(FrequencyRecord::from_row("謝謝".to_string(), 5, 1));
    words.insert(FrequencyRecord::from_row("午".to_string(), 100, 100));
    let tables = FrequencyTables::new(chars, words);
    let wu = tables.char_frequencies.lookup(&"午".to_string()).unwrap();
    assert_eq!(wu.occurrence_count, 3);
    assert_eq!(wu.occurrence_in_others, 17);
    assert_eq!(wu.occurrence_per_million_in_others, 6);
    let xie = tables.char_frequencies.lookup(&"謝".to_string()).unwrap();
    assert_eq!(xie.occurrence_count, 0);
    assert_eq!(xie.occurrence_in_others, 5);
    assert_eq!(xie.occurrence_per_million_in_others, 1);
    let summed = tables.get_count_in_others(&"午".to_string(), &"午".to_string());
    assert_eq!(summed, 34);
}

#[test]
fn gloss_lookup_by_exact_pair() {
    let lines: Vec<String> = vec![
        "家 家 [jia1] /Familie/Haushalt/".to_string(),
        "# comment".to_string(),
    ];
    let gloss = build_gloss_table(&lines);
    let hit = gloss.get(&"家".to_string(), &"jia1".to_string());
    assert_eq!(hit.unwrap(), &vec!["Familie".to_string(), "Haushalt".to_string()]);
    assert!(gloss.get(&"家".to_string(), &"jia4".to_string()).is_none());
    let entries = run_pipeline_with_gloss(
        vec!["家 家 [jia1] /family/"],
        &gloss,
    );
    assert_eq!(entries[0].meanings_de, vec!["Familie", "Haushalt"]);
}

fn run_pipeline_with_gloss(
    lines: Vec<&str>,
    gloss: &hanzi_dict::table::PairMap<Vec<String>>,
) -> Vec<Entry> {
    let lines: Vec<String> = lines.into_iter().map(|l| l.to_string()).collect();
    let radicals = build_radical_table(&Vec::new());
    let radicals2 = build_radical_table(&Vec::new());
    let kanji: StringMap<hanzi_dict::entry::KanjiCharacter> = StringMap::new();
    build_entries(
        &lines,
        gloss,
        &radicals,
        &radicals2,
        &kanji,
        &word_table(Vec::new()),
        &char_counts(Vec::new()),
    )
    .unwrap()
}

#[test]
fn radical_lines_parse_into_groups() {
    let (key, groups) = parse_radical_line("你\t人 尔\t亻 尔");
    assert_eq!(key, "你");
    assert_eq!(
        groups,
        vec![
            vec!["人".to_string(), "尔".to_string()],
            vec!["亻".to_string(), "尔".to_string()],
        ]
    );
    let table = build_radical_table(&vec!["你\t人 尔".to_string()]);
    assert_eq!(
        table.get(&"你".to_string()).unwrap(),
        &vec![vec!["人".to_string(), "尔".to_string()]]
    );
}

#[test]
fn japanese_kanji_conversion_feeds_the_kanji_join() {
    assert_eq!(to_japanese_kanji("學"), "学");
}

#[test]
fn embedded_proficiency_data_is_reachable() {
    let words = ProficiencyTable::load();
    assert!(proficiency_by_pronunciation(&words, "爸爸", "bà ba").is_some());
    let chars = load_common_char_counts();
    assert_eq!(in_others_per_million(&chars, "食", "shí"), Some(712));
    assert_eq!(in_others_by_form(&chars, "食"), Some(712));
}

#[test]
fn in_others_keyed_like_the_proficiency_lookup() {
    let common = char_counts(vec![(("氣", ""), 700), (("氣", "qì"), 1)]);
    let entries = run_pipeline(
        vec!["氣 气 [qi4] /gas/"],
        word_table(Vec::new()),
        common,
    );
    assert_eq!(entries[0].count_per_million_in_others, 700);
    assert!(entries[0].tags.contains(&"#commonchar".to_string()));

    let common = char_counts(vec![(("分", "fēn"), 600)]);
    let entries = run_pipeline(
        vec!["分 分 [fen1] /minute/", "分 分 [fen4] /part/"],
        word_table(Vec::new()),
        common,
    );
    assert_eq!(entries[0].count_per_million_in_others, 600);
    assert_eq!(entries[1].count_per_million_in_others, 0);
}

#[test]
fn in_others_prefers_the_alternate_pronunciation() {
    let common = char_counts(vec![(("行", "háng"), 800)]);
    let entries = run_pipeline(
        vec![
            "行 行 [xing2] /to walk/Taiwan pr. [hang2]/",
            "行 行 [xing4] /conduct/",
        ],
        word_table(Vec::new()),
        common,
    );
    assert_eq!(entries[0].count_per_million_in_others, 800);
    assert_eq!(entries[1].count_per_million_in_others, 0);
}

#[test]
fn marker_requires_an_attested_prefix() {
    let pinyin = normalize_definitions_and_extract_taiwan_pinyin(&mut vec![
        "appr. [qi3] nothing".to_string(),
    ]);
    assert_eq!(pinyin, None);
}

#[test]
fn empty_corpus_builds_no_entries() {
    let entries = run_pipeline(Vec::new(), word_table(Vec::new()), char_counts(Vec::new()));
    assert!(entries.is_empty());
}

#[test]
fn repeated_keys_keep_the_last_insertion() {
    let gloss = build_gloss_table(&vec![
        "家 家 [jia1] /alt/".to_string(),
        "家 家 [jia1] /Familie/".to_string(),
    ]);
    assert_eq!(
        gloss.get(&"家".to_string(), &"jia1".to_string()).unwrap(),
        &vec!["Familie".to_string()]
    );

    let mut table = FrequencyTable::new();
    table.insert(FrequencyRecord::from_row("午".to_string(), 1, 1));
    table.insert(FrequencyRecord::from_row("午".to_string(), 9, 9));
    assert_eq!(table.records.len(), 1);
    assert_eq!(
        table.lookup(&"午".to_string()).unwrap().occurrence_count,
        9
    );

    let radicals = build_radical_table(&vec![
        "你\t人".to_string(),
        "你\t人 尔".to_string(),
    ]);
    assert_eq!(
        radicals.get(&"你".to_string()).unwrap(),
        &vec![vec!["人".to_string(), "尔".to_string()]]
    );
}

#[test]
fn filter_duplicates_of_nothing_is_nothing() {
    assert!(hanzi_dict::text::filter_duplicates(Vec::new()).is_empty());
}

#[test]
fn frequency_sums_over_both_tables() {
    let mut chars = FrequencyTable::new();
    chars.insert(FrequencyRecord::from_row("午".to_string(), 3, 2));
    let mut words = FrequencyTable::new();
    words.insert(FrequencyRecord::from_row("下午".to_string(), 10, 4));
    let tables = FrequencyTables::new(chars, words);
    let matched = tables.get_freq(&"下午".to_string(), &"下午".to_string());
    assert_eq!(matched.len(), 2);
    assert_eq!(matched[0].surface_form, "下午");
    assert_eq!(matched[1].surface_form, "下午");
    assert_eq!(tables.get_count_self(&"下午".to_string(), &"下午".to_string()), 20);
    assert_eq!(
        tables.get_count_per_million_self(&"午".to_string(), &"午".to_string()),
        4
    );
    assert_eq!(
        tables.get_count_per_million_in_others(&"午".to_string(), &"午".to_string()),
        8
    );
}

#[test]
fn japanese_word_records_round_trip() {
    let word = hanzi_dict::jmdict::JapaneseWord {
        ent_seq: "100".to_string(),
        commonness: Some(3),
        pos: vec![Some("n".to_string()), None],
        misc: Vec::new(),
        kanji: vec![hanzi_dict::jmdict::Kanji {
            text: "学".to_string(),
            ent_seq: "100".to_string(),
            commonness: None,
            readings: vec!["がく".to_string()],
        }],
        kana: Vec::new(),
        meanings: hanzi_dict::jmdict::Meanings {
            eng: vec!["study".to_string()],
            ger: None,
        },
        useKana: false,
    };
    assert_eq!(word.kanji[0].text, "学");
    assert_eq!(word.meanings.eng, vec!["study"]);
}
