//! Phonetic derivation: diacritic ("pretty") pronunciation forms, the
//! secondary phonetic alphabet, and the alternate spellings used for fuzzy
//! search matching.

use vstd::prelude::*;
use crate::text::{
    chars_to_string, spec_tokens, split_whitespace_str, str_chars, strip_numeric,
    strip_whitespace, lemma_strip_idempotent, remove_numbers, remove_whitespace, views_of,
};

verus! {

/// The diacritic form of a tone-numbered pronunciation string.
pub uninterp spec fn pretty_of(s: Seq<char>) -> Seq<char>;

/// Relies on `prettify_pinyin::prettify`: rewrites each tone-numbered
/// syllable to its diacritic form and passes unmatched syllables through, a
/// function of the input characters alone.
#[verifier::external_body]
pub fn prettify(s: &str) -> (r: String)
    ensures
        r@ == pretty_of(s@),
{
    prettify_pinyin::prettify(s)
}

/// The secondary phonetic alphabet form of one diacritic syllable, where one
/// exists.
pub uninterp spec fn zhuyin_of(s: Seq<char>) -> Option<Seq<char>>;

/// Relies on `pinyin_zhuyin::pinyin_to_zhuyin`: maps one diacritic syllable
/// to the secondary phonetic alphabet, returning nothing on input it does not
/// recognize, a function of the input characters alone.
#[verifier::external_body]
pub fn syllable_to_zhuyin(s: &str) -> (r: Option<String>)
    ensures
        r.deep_view() == zhuyin_of(s@),
{
    pinyin_zhuyin::pinyin_to_zhuyin(s)
}

/// The secondary phonetic form of a whole pronunciation string: each
/// whitespace-separated syllable mapped independently, syllables with no
/// mapping passed through unchanged, joined with single spaces.
pub open spec fn secondary_phonetic_of(s: Seq<char>) -> Seq<char> {
    join_spaced(spec_tokens(s).map_values(|t: Seq<char>| zhuyin_or_self(t)))
}

/// One syllable's secondary phonetic form, or the syllable itself when no
/// mapping exists.
pub open spec fn zhuyin_or_self(t: Seq<char>) -> Seq<char> {
    match zhuyin_of(t) {
        Some(z) => z,
        None => t,
    }
}

/// The pieces joined with single spaces between them.
pub open spec fn join_spaced(parts: Seq<Seq<char>>) -> Seq<char>
    decreases parts.len(),
{
    if parts.len() == 0 {
        Seq::empty()
    } else if parts.len() == 1 {
        parts[0]
    } else {
        join_spaced(parts.drop_last()) + seq![' '] + parts.last()
    }
}

/// Converts a diacritic pronunciation string to the secondary phonetic
/// alphabet, syllable by syllable.
pub fn to_secondary_phonetic(pretty: &str) -> (r: String)
    ensures
        r@ == secondary_phonetic_of(pretty@),
{
    let tokens = split_whitespace_str(pretty);
    let ghost mapped = spec_tokens(pretty@).map_values(|t: Seq<char>| zhuyin_or_self(t));
    let mut out: Vec<char> = Vec::new();
    let mut i: usize = 0;
    while i < tokens.len()
        invariant
            views_of(tokens@) == spec_tokens(pretty@),
            i <= tokens@.len(),
            mapped == spec_tokens(pretty@).map_values(|t: Seq<char>| zhuyin_or_self(t)),
            out@ == join_spaced(mapped.take(i as int)),
        decreases tokens@.len() - i,
    {
        proof {
            assert(views_of(tokens@)[i as int] == tokens@[i as int]@);
            assert(mapped.take(i + 1).drop_last() =~= mapped.take(i as int));
            assert(mapped.take(i + 1).last() == mapped[i as int]);
        }
        if i > 0 {
            out.push(' ');
        }
        let converted = syllable_to_zhuyin(tokens[i].as_str());
        match converted {
            Some(z) => {
                let zc = str_chars(z.as_str());
                let mut k: usize = 0;
                while k < zc.len()
                    invariant
                        k <= zc@.len(),
                        out@ == join_spaced(mapped.take(i as int)) + (if i > 0 {
                            seq![' ']
                        } else {
                            Seq::<char>::empty()
                        }) + zc@.take(k as int),
                        i < mapped.len(),
                        zc@ == mapped[i as int],
                        mapped == spec_tokens(pretty@).map_values(
                            |t: Seq<char>| zhuyin_or_self(t),
                        ),
                    decreases zc@.len() - k,
                {
                    out.push(zc[k]);
                    proof {
                        assert(zc@.take(k + 1) =~= zc@.take(k as int).push(zc@[k as int]));
                        assert(out@ =~= join_spaced(mapped.take(i as int)) + (if i > 0 {
                            seq![' ']
                        } else {
                            Seq::<char>::empty()
                        }) + zc@.take(k + 1));
                    }
                    k = k + 1;
                }
                proof {
                    assert(zc@.take(zc@.len() as int) =~= zc@);
                }
            },
            None => {
                let zc = str_chars(tokens[i].as_str());
                let mut k: usize = 0;
                while k < zc.len()
                    invariant
                        k <= zc@.len(),
                        out@ == join_spaced(mapped.take(i as int)) + (if i > 0 {
                            seq![' ']
                        } else {
                            Seq::<char>::empty()
                        }) + zc@.take(k as int),
                        i < mapped.len(),
                        zc@ == mapped[i as int],
                        mapped == spec_tokens(pretty@).map_values(
                            |t: Seq<char>| zhuyin_or_self(t),
                        ),
                    decreases zc@.len() - k,
                {
                    out.push(zc[k]);
                    proof {
                        assert(zc@.take(k + 1) =~= zc@.take(k as int).push(zc@[k as int]));
                        assert(out@ =~= join_spaced(mapped.take(i as int)) + (if i > 0 {
                            seq![' ']
                        } else {
                            Seq::<char>::empty()
                        }) + zc@.take(k + 1));
                    }
                    k = k + 1;
                }
                proof {
                    assert(zc@.take(zc@.len() as int) =~= zc@);
                }
            },
        }
        proof {
            if i > 0 {
                assert(out@ =~= join_spaced(mapped.take(i + 1)));
            } else {
                assert(mapped.take(1).drop_last() =~= Seq::<Seq<char>>::empty());
                assert(out@ =~= join_spaced(mapped.take(i + 1)));
            }
        }
        i = i + 1;
    }
    proof {
        assert(mapped.take(mapped.len() as int) =~= mapped);
    }
    chars_to_string(&out)
}

/// The alternate spellings of a pronunciation string used for fuzzy search:
/// the input itself, the whitespace-stripped, digit-stripped and
/// whitespace-and-digit-stripped forms, and the diacritic form with and
/// without whitespace.
pub open spec fn search_variants_of(s: Seq<char>) -> Seq<Seq<char>> {
    seq![
        s,
        strip_whitespace(s),
        strip_numeric(s),
        strip_whitespace(strip_numeric(s)),
        pretty_of(s),
        strip_whitespace(pretty_of(s)),
    ]
}

/// Generates the alternate spellings of a pronunciation string, in a fixed
/// order, the exact input first.
pub fn generate_search_variants(s: &str) -> (r: Vec<String>)
    ensures
        views_of(r@) == search_variants_of(s@),
        r@.len() == 6,
        r@[0]@ == s@,
{
    let mut r: Vec<String> = Vec::new();
    r.push(s.to_owned());
    r.push(remove_whitespace(s));
    let no_digits = remove_numbers(s);
    r.push(no_digits);
    let no_digits2 = remove_numbers(s);
    r.push(remove_whitespace(no_digits2.as_str()));
    let pretty = prettify(s);
    let pretty2 = prettify(s);
    r.push(pretty);
    r.push(remove_whitespace(pretty2.as_str()));
    proof {
        assert(views_of(r@) =~= search_variants_of(s@));
    }
    r
}

/// The search variants are at most six strings, always include the exact
/// input, and generating variants again from the whitespace-and-digit
/// stripped variant leaves that variant fixed: its stripped forms are
/// itself.
pub proof fn lemma_search_variants_idempotent(s: Seq<char>)
    ensures
        search_variants_of(s).len() == 6,
        search_variants_of(s)[0] == s,
        search_variants_of(search_variants_of(s)[3])[1] == search_variants_of(s)[3],
        search_variants_of(search_variants_of(s)[3])[2] == search_variants_of(s)[3],
        search_variants_of(search_variants_of(s)[3])[3] == search_variants_of(s)[3],
{
    lemma_strip_idempotent(s);
}

} // verus!
