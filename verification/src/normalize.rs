//! Definition normalization: extraction of an embedded alternate-region
//! pronunciation, rewriting of embedded phonetic annotations to their
//! diacritic form, and splitting of compound definitions into atomic senses.

use vstd::prelude::*;
use crate::pinyin::{pretty_of, prettify};
use crate::text::{
    chars_to_string, find_char_from, first_index_from, lemma_first_index_from, spec_split,
    split_string, str_chars, trim_spec, trim_str, views_of,
};

verus! {

/// Whether the text `pr. ` followed by an opening bracket stands at
/// position `i`.
pub open spec fn pr_bracket_at(s: Seq<char>, i: int) -> bool {
    &&& 0 <= i
    &&& i + 5 <= s.len()
    &&& s[i] == 'p'
    &&& s[i + 1] == 'r'
    &&& s[i + 2] == '.'
    &&& s[i + 3] == ' '
    &&& s[i + 4] == '['
}

/// Whether the word `Taiwan` and a space end just before position `i`.
pub open spec fn taiwan_before(s: Seq<char>, i: int) -> bool {
    &&& i >= 7
    &&& s[i - 7] == 'T'
    &&& s[i - 6] == 'a'
    &&& s[i - 5] == 'i'
    &&& s[i - 4] == 'w'
    &&& s[i - 3] == 'a'
    &&& s[i - 2] == 'n'
    &&& s[i - 1] == ' '
}

/// Whether the word `also` and a space end just before position `i`.
pub open spec fn also_before(s: Seq<char>, i: int) -> bool {
    &&& i >= 5
    &&& s[i - 5] == 'a'
    &&& s[i - 4] == 'l'
    &&& s[i - 3] == 's'
    &&& s[i - 2] == 'o'
    &&& s[i - 1] == ' '
}

/// Whether an alternate-region pronunciation marker has its `pr. ` part at
/// position `i`: only the attested literal forms `Taiwan pr. [` and
/// `also pr. [` count as markers.
pub open spec fn marker_at(s: Seq<char>, i: int) -> bool {
    pr_bracket_at(s, i) && (taiwan_before(s, i) || also_before(s, i))
}

/// The last bracketed pronunciation captured after a marker at or after
/// position `i`, scanning matches from left to right without overlap.
pub open spec fn last_marker_capture_from(s: Seq<char>, i: int) -> Option<Seq<char>>
    decreases s.len() - i,
{
    if !(0 <= i < s.len()) {
        None
    } else if marker_at(s, i) {
        match first_index_from(s, ']', i + 5) {
            Some(j) => if i + 5 <= j < s.len() {
                let cap = s.subrange(i + 5, j);
                match last_marker_capture_from(s, j + 1) {
                    Some(later) => Some(later),
                    None => Some(cap),
                }
            } else {
                None
            },
            None => None,
        }
    } else {
        last_marker_capture_from(s, i + 1)
    }
}

/// The last bracketed pronunciation captured after the marker in one
/// definition.
pub open spec fn last_marker_capture(s: Seq<char>) -> Option<Seq<char>> {
    last_marker_capture_from(s, 0)
}

/// The alternate-region pronunciation of a definition list: the last
/// capture of the last definition that has one.
pub open spec fn extract_alt_pron(defs: Seq<Seq<char>>) -> Option<Seq<char>>
    decreases defs.len(),
{
    if defs.len() == 0 {
        None
    } else {
        match last_marker_capture(defs.last()) {
            Some(cap) => Some(cap),
            None => extract_alt_pron(defs.drop_last()),
        }
    }
}

/// A bracketed annotation's rewritten body: an empty or whitespace-only
/// annotation is left untouched, any other is replaced by its diacritic
/// form.
pub open spec fn rewritten_inner(inner: Seq<char>) -> Seq<char> {
    if trim_spec(inner).len() == 0 {
        inner
    } else {
        pretty_of(inner)
    }
}

/// One definition with every bracketed annotation rewritten: brackets are
/// paired from left to right without overlap, and text outside brackets,
/// and after an unclosed bracket, is kept as it stands.
pub open spec fn rewrite_brackets(s: Seq<char>) -> Seq<char>
    decreases s.len(),
{
    if s.len() == 0 {
        Seq::empty()
    } else if s[0] == '[' {
        match first_index_from(s, ']', 1) {
            Some(j) => if 1 <= j < s.len() {
                seq!['['] + rewritten_inner(s.subrange(1, j)) + seq![']'] + rewrite_brackets(
                    s.skip(j + 1),
                )
            } else {
                s
            },
            None => s,
        }
    } else {
        seq![s[0]] + rewrite_brackets(s.drop_first())
    }
}

/// Every definition with its annotations rewritten.
pub open spec fn rewrite_all(defs: Seq<Seq<char>>) -> Seq<Seq<char>> {
    Seq::new(defs.len(), |i: int| rewrite_brackets(defs[i]))
}

/// The atomic senses of one definition: the pieces between semicolons, each
/// trimmed of surrounding whitespace.
pub open spec fn senses_of(def: Seq<char>) -> Seq<Seq<char>> {
    Seq::new(spec_split(def, ';').len(), |k: int| trim_spec(spec_split(def, ';')[k]))
}

/// The atomic senses of a whole definition list, each definition's senses
/// emitted contiguously in the original order.
pub open spec fn split_senses(defs: Seq<Seq<char>>) -> Seq<Seq<char>>
    decreases defs.len(),
{
    if defs.len() == 0 {
        Seq::empty()
    } else {
        split_senses(defs.drop_last()) + senses_of(defs.last())
    }
}

/// Scans one definition for the last bracketed pronunciation after the
/// marker.
fn scan_marker_captures(def: &str) -> (r: Option<String>)
    ensures
        match r {
            Some(p) => last_marker_capture(def@) == Some(p@),
            None => last_marker_capture(def@) == None::<Seq<char>>,
        },
{
    let chars = str_chars(def);
    let n = chars.len();
    let mut found: Option<String> = None;
    let mut i: usize = 0;
    while i < n
        invariant
            chars@ == def@,
            n == def@.len(),
            i <= n,
            last_marker_capture(def@) == (match last_marker_capture_from(def@, i as int) {
                Some(later) => Some(later),
                None => match found {
                    Some(p) => Some(p@),
                    None => None::<Seq<char>>,
                },
            }),
        decreases n - i,
    {
        let pr_here = n - i >= 5 && chars[i] == 'p' && chars[i + 1] == 'r' && chars[i + 2] == '.'
            && chars[i + 3] == ' ' && chars[i + 4] == '[';
        let taiwan_ctx = i >= 7 && chars[i - 7] == 'T' && chars[i - 6] == 'a' && chars[i - 5]
            == 'i' && chars[i - 4] == 'w' && chars[i - 3] == 'a' && chars[i - 2] == 'n'
            && chars[i - 1] == ' ';
        let also_ctx = i >= 5 && chars[i - 5] == 'a' && chars[i - 4] == 'l' && chars[i - 3] == 's'
            && chars[i - 2] == 'o' && chars[i - 1] == ' ';
        let is_marker = pr_here && (taiwan_ctx || also_ctx);
        proof {
            assert(pr_here == pr_bracket_at(def@, i as int));
            assert(taiwan_ctx == taiwan_before(def@, i as int));
            assert(also_ctx == also_before(def@, i as int));
        }
        if is_marker {
            let close = find_char_from(&chars, ']', i + 5);
            match close {
                Some(j) => {
                    let mut cap: Vec<char> = Vec::new();
                    let mut k: usize = i + 5;
                    while k < j
                        invariant
                            chars@ == def@,
                            i + 5 <= k <= j <= def@.len(),
                            cap@ == def@.subrange(i + 5, k as int),
                        decreases j - k,
                    {
                        cap.push(chars[k]);
                        proof {
                            assert(def@.subrange(i + 5, k + 1) =~= def@.subrange(
                                i + 5,
                                k as int,
                            ).push(def@[k as int]));
                        }
                        k = k + 1;
                    }
                    let cap_s = chars_to_string(&cap);
                    proof {
                        assert(cap_s@ =~= def@.subrange(i + 5, j as int));
                        assert(last_marker_capture_from(def@, i as int) == (
                        match last_marker_capture_from(def@, j + 1) {
                            Some(later) => Some(later),
                            None => Some(cap_s@),
                        }));
                    }
                    found = Some(cap_s);
                    i = j + 1;
                },
                None => {
                    proof {
                        assert(last_marker_capture_from(def@, i as int) == None::<Seq<char>>);
                    }
                    return found;
                },
            }
        } else {
            i = i + 1;
        }
    }
    proof {
        assert(last_marker_capture_from(def@, n as int) == None::<Seq<char>>);
    }
    found
}

/// Rewrites every bracketed annotation in one definition.
fn rewrite_definition(def: &str) -> (r: String)
    ensures
        r@ == rewrite_brackets(def@),
{
    let chars = str_chars(def);
    let n = chars.len();
    let mut out: Vec<char> = Vec::new();
    let mut i: usize = 0;
    proof {
        assert(def@.skip(0) =~= def@);
    }
    while i < n
        invariant
            chars@ == def@,
            n == def@.len(),
            i <= n,
            rewrite_brackets(def@) == out@ + rewrite_brackets(def@.skip(i as int)),
        decreases n - i,
    {
        let c = chars[i];
        if c == '[' {
            proof {
                assert(def@.skip(i as int)[0] == '[');
            }
            let close = find_char_from(&chars, ']', i + 1);
            match close {
                Some(j) => {
                    let mut inner: Vec<char> = Vec::new();
                    let mut k: usize = i + 1;
                    while k < j
                        invariant
                            chars@ == def@,
                            i + 1 <= k <= j <= def@.len(),
                            inner@ == def@.subrange(i + 1, k as int),
                        decreases j - k,
                    {
                        inner.push(chars[k]);
                        proof {
                            assert(def@.subrange(i + 1, k + 1) =~= def@.subrange(
                                i + 1,
                                k as int,
                            ).push(def@[k as int]));
                        }
                        k = k + 1;
                    }
                    let inner_s = chars_to_string(&inner);
                    let trimmed = trim_str(inner_s.as_str());
                    let ghost out_head = out@;
                    out.push('[');
                    if trimmed.as_str().is_empty() {
                        let ghost base = out@;
                        let mut m: usize = 0;
                        proof {
                            assert(inner@.take(0) =~= Seq::<char>::empty());
                            assert(out@ =~= base + inner@.take(0));
                        }
                        while m < inner.len()
                            invariant
                                m <= inner@.len(),
                                out@ == base + inner@.take(m as int),
                            decreases inner@.len() - m,
                        {
                            out.push(inner[m]);
                            proof {
                                assert(inner@.take(m + 1) =~= inner@.take(m as int).push(
                                    inner@[m as int],
                                ));
                                assert(out@ =~= base + inner@.take(m + 1));
                            }
                            m = m + 1;
                        }
                        proof {
                            assert(inner@.take(inner@.len() as int) =~= inner@);
                        }
                    } else {
                        let pretty = prettify(inner_s.as_str());
                        let pchars = str_chars(pretty.as_str());
                        let ghost base = out@;
                        let mut m: usize = 0;
                        proof {
                            assert(pchars@.take(0) =~= Seq::<char>::empty());
                            assert(out@ =~= base + pchars@.take(0));
                        }
                        while m < pchars.len()
                            invariant
                                pchars@ == pretty_of(inner_s@),
                                m <= pchars@.len(),
                                out@ == base + pchars@.take(m as int),
                            decreases pchars@.len() - m,
                        {
                            out.push(pchars[m]);
                            proof {
                                assert(pchars@.take(m + 1) =~= pchars@.take(m as int).push(
                                    pchars@[m as int],
                                ));
                                assert(out@ =~= base + pchars@.take(m + 1));
                            }
                            m = m + 1;
                        }
                        proof {
                            assert(pchars@.take(pchars@.len() as int) =~= pchars@);
                        }
                    }
                    out.push(']');
                    proof {
                        assert(out@ =~= out_head + seq!['['] + rewritten_inner(inner_s@) + seq![
                            ']',
                        ]);
                    }
                    proof {
                        let t = def@.skip(i as int);
                        lemma_first_index_from(def@, ']', i + 1);
                        lemma_first_index_from(t, ']', 1);
                        match first_index_from(t, ']', 1) {
                            Some(j2) => {
                                assert(t[j2] == ']');
                                assert(def@[j2 + i] == ']');
                                assert(j2 + i >= j as int) by {
                                    if j2 + i < j as int {
                                        assert(def@[j2 + i] != ']');
                                    }
                                }
                                assert(j2 + i <= j as int) by {
                                    if j2 + i > j as int {
                                        assert(t[j - i] == ']');
                                        assert(t[j - i] != ']');
                                    }
                                }
                                assert(j2 == j - i);
                                assert(t.subrange(1, j2) =~= def@.subrange(i + 1, j as int));
                                assert(t.skip(j2 + 1) =~= def@.skip(j + 1));
                            },
                            None => {
                                assert(t[j - i] == ']');
                                assert(t[j - i] != ']');
                            },
                        }
                        assert(inner_s@ == def@.subrange(i + 1, j as int));
                        assert(rewrite_brackets(t) == seq!['['] + rewritten_inner(inner_s@) + seq![
                            ']',
                        ] + rewrite_brackets(def@.skip(j + 1)));
                        assert(rewrite_brackets(def@) =~= out@ + rewrite_brackets(
                            def@.skip(j + 1),
                        ));
                    }
                    i = j + 1;
                },
                None => {
                    let mut m: usize = i;
                    let ghost base = out@;
                    proof {
                        let t = def@.skip(i as int);
                        lemma_first_index_from(def@, ']', i + 1);
                        lemma_first_index_from(t, ']', 1);
                        match first_index_from(t, ']', 1) {
                            Some(j2) => {
                                assert(t[j2] == ']');
                                assert(def@[j2 + i] == ']');
                                assert(def@[j2 + i] != ']');
                            },
                            None => {},
                        }
                        assert(rewrite_brackets(t) == t);
                        assert(def@.subrange(i as int, i as int) =~= Seq::<char>::empty());
                        assert(out@ =~= base + def@.subrange(i as int, i as int));
                    }
                    while m < n
                        invariant
                            chars@ == def@,
                            n == def@.len(),
                            i <= m <= n,
                            out@ == base + def@.subrange(i as int, m as int),
                        decreases n - m,
                    {
                        out.push(chars[m]);
                        proof {
                            assert(def@.subrange(i as int, m + 1) =~= def@.subrange(
                                i as int,
                                m as int,
                            ).push(def@[m as int]));
                            assert(out@ =~= base + def@.subrange(i as int, m + 1));
                        }
                        m = m + 1;
                    }
                    proof {
                        assert(def@.subrange(i as int, n as int) =~= def@.skip(i as int));
                        assert(def@.skip(n as int) =~= Seq::<char>::empty());
                        assert(rewrite_brackets(Seq::<char>::empty()) =~= Seq::<char>::empty());
                        assert(rewrite_brackets(def@) =~= out@ + rewrite_brackets(
                            def@.skip(n as int),
                        ));
                    }
                    i = n;
                },
            }
        } else {
            out.push(c);
            proof {
                let t = def@.skip(i as int);
                assert(t[0] == def@[i as int]);
                assert(t.drop_first() =~= def@.skip(i + 1));
                assert(rewrite_brackets(t) == seq![t[0]] + rewrite_brackets(def@.skip(i + 1)));
                assert(rewrite_brackets(def@) =~= out@ + rewrite_brackets(def@.skip(i + 1)));
            }
            i = i + 1;
        }
    }
    proof {
        assert(def@.skip(n as int) =~= Seq::<char>::empty());
        assert(rewrite_brackets(def@) =~= out@);
    }
    chars_to_string(&out)
}

/// Normalizes a definition list in place: captures the last alternate-region
/// pronunciation annotation, rewrites every bracketed annotation to its
/// diacritic form unless it is empty or whitespace-only, and splits every
/// definition at semicolons into trimmed atomic senses, keeping the original
/// order with each definition's senses contiguous.
pub fn normalize_definitions_and_extract_taiwan_pinyin(definitions: &mut Vec<String>) -> (alt: Option<String>)
    ensures
        (match alt {
            Some(p) => extract_alt_pron(views_of(old(definitions)@)) == Some(p@),
            None => extract_alt_pron(views_of(old(definitions)@)) == None::<Seq<char>>,
        }),
        views_of(final(definitions)@) == split_senses(rewrite_all(views_of(old(definitions)@))),
{
    let ghost orig = views_of(definitions@);
    let mut alt: Option<String> = None;
    let mut i: usize = 0;
    proof {
        assert(orig.take(0) =~= Seq::<Seq<char>>::empty());
    }
    while i < definitions.len()
        invariant
            orig == views_of(definitions@),
            i <= orig.len(),
            (match alt {
                Some(p) => extract_alt_pron(orig.take(i as int)) == Some(p@),
                None => extract_alt_pron(orig.take(i as int)) == None::<Seq<char>>,
            }),
        decreases orig.len() - i,
    {
        let cap = scan_marker_captures(definitions[i].as_str());
        proof {
            assert(orig.take(i + 1).drop_last() =~= orig.take(i as int));
            assert(orig.take(i + 1).last() == orig[i as int]);
            assert(orig[i as int] == definitions@[i as int]@);
        }
        match cap {
            Some(p) => {
                alt = Some(p);
            },
            None => {},
        }
        i = i + 1;
    }
    proof {
        assert(orig.take(orig.len() as int) =~= orig);
    }
    let mut rewritten: Vec<String> = Vec::new();
    let mut j: usize = 0;
    while j < definitions.len()
        invariant
            orig == views_of(definitions@),
            j <= orig.len(),
            views_of(rewritten@) == rewrite_all(orig).take(j as int),
        decreases orig.len() - j,
    {
        let r = rewrite_definition(definitions[j].as_str());
        let ghost prev = rewritten@;
        let ghost rv = r@;
        rewritten.push(r);
        proof {
            assert(views_of(prev).len() == prev.len());
            assert(views_of(prev) == rewrite_all(orig).take(j as int));
            assert(prev.len() == j as int);
            assert(rewritten@.len() == j + 1);
            assert(orig[j as int] == definitions@[j as int]@);
            assert(rewrite_all(orig)[j as int] == rewrite_brackets(orig[j as int]));
            assert forall|m: int|
                0 <= m < views_of(rewritten@).len() implies views_of(rewritten@)[m]
                == #[trigger] rewrite_all(orig).take(j + 1)[m] by {
                assert(views_of(rewritten@)[m] == rewritten@[m]@);
                if m < j {
                    assert(rewritten@[m] == prev[m]);
                    assert(views_of(prev)[m] == prev[m]@);
                } else {
                    assert(rewritten@[m]@ == rv);
                }
                assert(rewrite_all(orig)[m] == rewrite_brackets(orig[m]));
            }
            assert(views_of(rewritten@) =~= rewrite_all(orig).take(j + 1));
        }
        j = j + 1;
    }
    proof {
        assert(rewrite_all(orig).take(rewrite_all(orig).len() as int) =~= rewrite_all(orig));
    }
    let ghost rewr = rewrite_all(orig);
    let mut senses: Vec<String> = Vec::new();
    let mut d: usize = 0;
    proof {
        assert(rewr.take(0) =~= Seq::<Seq<char>>::empty());
    }
    while d < rewritten.len()
        invariant
            views_of(rewritten@) == rewr,
            d <= rewr.len(),
            views_of(senses@) == split_senses(rewr.take(d as int)),
        decreases rewr.len() - d,
    {
        let pieces = split_string(rewritten[d].as_str(), ';');
        let ghost def_view = rewr[d as int];
        proof {
            assert(rewritten@[d as int]@ == rewr[d as int]);
        }
        let mut k: usize = 0;
        while k < pieces.len()
            invariant
                views_of(pieces@) == spec_split(def_view, ';'),
                k <= pieces@.len(),
                views_of(senses@) == split_senses(rewr.take(d as int)) + senses_of(def_view).take(
                    k as int,
                ),
            decreases pieces@.len() - k,
        {
            let t = trim_str(pieces[k].as_str());
            let ghost prev = senses@;
            let ghost tv = t@;
            senses.push(t);
            proof {
                assert(views_of(prev).len() == prev.len());
                assert(views_of(prev) == split_senses(rewr.take(d as int)) + senses_of(
                    def_view,
                ).take(k as int));
                assert(prev.len() == split_senses(rewr.take(d as int)).len() + k);
                assert(senses@.len() == prev.len() + 1);
                assert(views_of(pieces@)[k as int] == pieces@[k as int]@);
                assert(pieces@[k as int]@ == spec_split(def_view, ';')[k as int]);
                assert(senses_of(def_view)[k as int] == trim_spec(
                    spec_split(def_view, ';')[k as int],
                ));
                let goal = split_senses(rewr.take(d as int)) + senses_of(def_view).take(k + 1);
                assert forall|m: int|
                    0 <= m < views_of(senses@).len() implies views_of(senses@)[m]
                    == #[trigger] goal[m] by {
                    assert(views_of(senses@)[m] == senses@[m]@);
                    if m < prev.len() {
                        assert(senses@[m] == prev[m]);
                        assert(views_of(prev)[m] == prev[m]@);
                    } else {
                        assert(senses@[m]@ == tv);
                        assert(senses_of(def_view).take(k + 1)[k as int] == senses_of(
                            def_view,
                        )[k as int]);
                        assert(goal[m] == senses_of(def_view)[k as int]);
                    }
                }
                assert(views_of(senses@) =~= goal);
            }
            k = k + 1;
        }
        proof {
            assert(senses_of(def_view).take(senses_of(def_view).len() as int) =~= senses_of(
                def_view,
            ));
            assert(rewr.take(d + 1).drop_last() =~= rewr.take(d as int));
            assert(rewr.take(d + 1).last() == rewr[d as int]);
            assert(views_of(senses@) =~= split_senses(rewr.take(d + 1)));
        }
        d = d + 1;
    }
    proof {
        assert(rewr.take(rewr.len() as int) =~= rewr);
    }
    *definitions = senses;
    alt
}

} // verus!
