use hanzi_dict::pinyin::{generate_search_variants, prettify, to_secondary_phonetic};
use hanzi_dict::text::{
    decimal_string, filter_duplicates, remove_numbers, remove_whitespace, split_string,
    split_whitespace_str, to_lowercase, trim_str,
};

#[test]
fn whitespace_and_digit_stripping() {
    assert_eq!(remove_whitespace("xia4 wu3"), "xia4wu3");
    assert_eq!(remove_numbers("xia4 wu3"), "xia wu");
    assert_eq!(remove_whitespace(&remove_numbers("xia4 wu3")), "xiawu");
    assert_eq!(remove_whitespace(""), "");
    assert_eq!(remove_numbers(""), "");
}

#[test]
fn splitting_keeps_empty_pieces() {
    let parts = split_string("a;b;;c", ';');
    assert_eq!(parts, vec!["a", "b", "", "c"]);
    let parts = split_string("", ';');
    assert_eq!(parts, vec![""]);
}

#[test]
fn whitespace_tokens_drop_empty_runs() {
    let parts = split_whitespace_str("  kong1   qi4 ");
    assert_eq!(parts, vec!["kong1", "qi4"]);
    let parts = split_whitespace_str("\t a \u{3000} b");
    assert_eq!(parts, vec!["a", "b"]);
}

#[test]
fn trimming_surrounding_whitespace() {
    assert_eq!(trim_str("  x y  "), "x y");
    assert_eq!(trim_str("x"), "x");
    assert_eq!(trim_str("   "), "");
    assert_eq!(trim_str(""), "");
}

#[test]
fn lowercase_through_the_library() {
    assert_eq!(to_lowercase("Kong1 QI4"), "kong1 qi4");
}

#[test]
fn decimal_formatting() {
    assert_eq!(decimal_string(0), "0");
    assert_eq!(decimal_string(7), "7");
    assert_eq!(decimal_string(305), "305");
    assert_eq!(decimal_string(4294967295), "4294967295");
}

#[test]
fn duplicate_filtering_keeps_first_occurrences() {
    let out = filter_duplicates(vec![
        "a".to_string(),
        "b".to_string(),
        "a".to_string(),
        "c".to_string(),
        "b".to_string(),
    ]);
    assert_eq!(out, vec!["a", "b", "c"]);
}

#[test]
fn prettify_rewrites_tone_numbers() {
    assert_eq!(prettify("ni3 hao3"), "nǐ hǎo");
    assert_eq!(prettify("xia4 wu3"), "xià wǔ");
    assert_eq!(prettify("ma"), "ma");
}

#[test]
fn secondary_phonetic_per_syllable() {
    assert_eq!(to_secondary_phonetic("mǎ"), "ㄇㄚˇ");
    assert_eq!(to_secondary_phonetic("xià wǔ"), "ㄒㄧㄚˋ ㄨˇ");
    assert_eq!(to_secondary_phonetic("zz yy"), "zz yy");
}

#[test]
fn search_variants_shape() {
    let v = generate_search_variants("xia4 wu3");
    assert_eq!(v.len(), 6);
    assert_eq!(v[0], "xia4 wu3");
    assert_eq!(v[1], "xia4wu3");
    assert_eq!(v[2], "xia wu");
    assert_eq!(v[3], "xiawu");
    assert_eq!(v[4], "xià wǔ");
    assert_eq!(v[5], "xiàwǔ");
    let mut distinct = v.clone();
    distinct.sort();
    distinct.dedup();
    assert!(distinct.len() <= 6);
}

#[test]
fn search_variants_idempotent_on_stripped_variant() {
    let v = generate_search_variants("xia4 wu3");
    let stripped = v[3].clone();
    let again = generate_search_variants(&stripped);
    assert_eq!(again[1], stripped);
    assert_eq!(again[2], stripped);
    assert_eq!(again[3], stripped);
}
