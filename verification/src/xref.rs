//! Cross-reference resolution: grouping of single-character entries,
//! composition of alternate-region pronunciations for multi-character
//! entries, and detection of phonetically unambiguous surface forms.

use vstd::prelude::*;
use crate::entry::Entry;
use crate::scoring::opt_view;
use crate::text::{lower_of, spec_split, split_string, str_chars, to_lowercase, trim_spec,
    trim_str};
use vstd::string::StringExecFns;

verus! {

/// How many entries share a traditional surface form.
pub open spec fn count_form(entries: Seq<Entry>, form: Seq<char>) -> int
    decreases entries.len(),
{
    if entries.len() == 0 {
        0int
    } else {
        count_form(entries.drop_last(), form) + if entries.last().traditional@ == form {
            1int
        } else {
            0int
        }
    }
}

/// A surface form is unambiguous when exactly one entry carries it: the
/// corpus then knows only one pronunciation variant for it.
pub open spec fn is_unambiguous_form(entries: Seq<Entry>, form: Seq<char>) -> bool {
    count_form(entries, form) == 1
}

/// Counts the entries sharing a traditional surface form.
pub fn count_traditional(entries: &Vec<Entry>, form: &String) -> (r: usize)
    ensures
        r == count_form(entries@, form@),
{
    let mut count: usize = 0;
    let mut i: usize = 0;
    proof {
        assert(entries@.take(0) =~= Seq::<Entry>::empty());
    }
    while i < entries.len()
        invariant
            i <= entries@.len(),
            count == count_form(entries@.take(i as int), form@),
            count <= i,
        decreases entries@.len() - i,
    {
        proof {
            assert(entries@.take(i + 1).drop_last() =~= entries@.take(i as int));
            assert(entries@.take(i + 1).last() == entries@[i as int]);
        }
        if entries[i].traditional.eq(form) {
            count = count + 1;
        }
        i = i + 1;
    }
    proof {
        assert(entries@.take(entries@.len() as int) =~= entries@);
    }
    count
}

/// Whether an entry's traditional form is the single character `c`.
pub open spec fn is_single_char_entry(e: Entry, c: char) -> bool {
    e.traditional@.len() == 1 && e.traditional@[0] == c
}

/// Whether any entry's traditional form is exactly the character `c`.
pub open spec fn has_single_char_entry(entries: Seq<Entry>, c: char) -> bool {
    exists|j: int| 0 <= j < entries.len() && is_single_char_entry(#[trigger] entries[j], c)
}

/// The alternate-region pronunciation of the first single-character entry
/// for `c` that has one, in corpus order.
pub open spec fn first_single_char_alt(entries: Seq<Entry>, c: char) -> Option<Seq<char>>
    decreases entries.len(),
{
    if entries.len() == 0 {
        None
    } else if is_single_char_entry(entries[0], c) && entries[0].pinyin_taiwan is Some {
        opt_view(entries[0].pinyin_taiwan)
    } else {
        first_single_char_alt(entries.drop_first(), c)
    }
}

/// Scans the corpus for single-character entries of `c`: whether any
/// exists, and the first recorded alternate-region pronunciation.
fn find_single_char_alt(entries: &Vec<Entry>, c: char) -> (r: (bool, Option<String>))
    ensures
        r.0 == has_single_char_entry(entries@, c),
        (match r.1 {
            Some(p) => first_single_char_alt(entries@, c) == Some(p@),
            None => first_single_char_alt(entries@, c) == None::<Seq<char>>,
        }),
{
    let mut found: bool = false;
    let mut j: usize = 0;
    proof {
        assert(entries@.skip(0) =~= entries@);
    }
    while j < entries.len()
        invariant
            j <= entries@.len(),
            found == exists|m: int|
                0 <= m < j && is_single_char_entry(#[trigger] entries@[m], c),
            first_single_char_alt(entries@, c) == first_single_char_alt(
                entries@.skip(j as int),
                c,
            ),
        decreases entries@.len() - j,
    {
        let tchars = str_chars(entries[j].traditional.as_str());
        let is_single = tchars.len() == 1 && tchars[0] == c;
        proof {
            assert(entries@.skip(j as int)[0] == entries@[j as int]);
            assert(entries@.skip(j as int).drop_first() =~= entries@.skip(j + 1));
        }
        if is_single {
            assert(is_single_char_entry(entries@[j as int], c));
            match &entries[j].pinyin_taiwan {
                Some(p) => {
                    let out = p.clone();
                    return (true, Some(out));
                },
                None => {},
            }
            found = true;
        } else {
            proof {
                assert(!is_single_char_entry(entries@[j as int], c));
            }
        }
        j = j + 1;
    }
    proof {
        assert(entries@.skip(entries@.len() as int) =~= Seq::<Entry>::empty());
    }
    (found, None)
}

/// The composition of the first `n` characters of a traditional form with
/// their syllables: each character takes the alternate-region pronunciation
/// of the first single-character entry that records one, or its own raw
/// syllable when single-character entries exist but none records one; a
/// character with no single-character entry at all aborts the whole
/// composition. Each piece is followed by one space.
pub open spec fn composed_prefix(
    entries: Seq<Entry>,
    trad: Seq<char>,
    syls: Seq<Seq<char>>,
    n: int,
) -> Option<Seq<char>>
    decreases n,
{
    if n <= 0 {
        Some(Seq::empty())
    } else {
        match composed_prefix(entries, trad, syls, n - 1) {
            None => None,
            Some(acc) => {
                let c = trad[n - 1];
                if !has_single_char_entry(entries, c) {
                    None
                } else {
                    let piece = match first_single_char_alt(entries, c) {
                        Some(p) => p,
                        None => syls[n - 1],
                    };
                    Some(acc + piece + seq![' '])
                }
            },
        }
    }
}

/// The number of character-syllable pairs the composition walks: the
/// shorter of the two lists.
pub open spec fn pair_count(trad: Seq<char>, syls: Seq<Seq<char>>) -> int {
    if trad.len() <= syls.len() {
        trad.len() as int
    } else {
        syls.len() as int
    }
}

/// What the backfill assigns to the entry at `i`, if anything: only a
/// multi-character entry without an alternate-region pronunciation can
/// receive one, and only when every character resolves and the composition
/// differs, case-insensitively, from the raw pronunciation.
pub open spec fn backfill_result(entries: Seq<Entry>, i: int) -> Option<Seq<char>> {
    let e = entries[i];
    if e.pinyin_taiwan is None && e.traditional@.len() > 1 {
        let syls = spec_split(e.pinyin@, ' ');
        match composed_prefix(entries, e.traditional@, syls, pair_count(e.traditional@, syls)) {
            None => None,
            Some(b) => {
                let low = lower_of(trim_spec(b));
                if low != lower_of(e.pinyin@) {
                    Some(low)
                } else {
                    None
                }
            },
        }
    } else {
        None
    }
}

/// Composes the candidate alternate-region pronunciation for one entry
/// from the single-character entries of the corpus.
fn compute_backfill(entries: &Vec<Entry>, i: usize) -> (r: Option<String>)
    requires
        i < entries@.len(),
    ensures
        (match r {
            Some(p) => backfill_result(entries@, i as int) == Some(p@),
            None => backfill_result(entries@, i as int) == None::<Seq<char>>,
        }),
{
    match &entries[i].pinyin_taiwan {
        Some(_) => {
            return None;
        },
        None => {},
    }
    let tchars = str_chars(entries[i].traditional.as_str());
    if tchars.len() <= 1 {
        return None;
    }
    let syls = split_string(entries[i].pinyin.as_str(), ' ');
    let ghost sylviews = spec_split(entries@[i as int].pinyin@, ' ');
    let n: usize = if tchars.len() <= syls.len() {
        tchars.len()
    } else {
        syls.len()
    };
    proof {
        assert(n == pair_count(entries@[i as int].traditional@, sylviews));
    }
    let mut built = String::new();
    let mut k: usize = 0;
    while k < n
        invariant
            i < entries@.len(),
            tchars@ == entries@[i as int].traditional@,
            crate::text::views_of(syls@) == sylviews,
            sylviews == spec_split(entries@[i as int].pinyin@, ' '),
            n == pair_count(entries@[i as int].traditional@, sylviews),
            entries@[i as int].pinyin_taiwan is None,
            entries@[i as int].traditional@.len() > 1,
            n <= tchars@.len(),
            n <= syls@.len(),
            k <= n,
            composed_prefix(entries@, entries@[i as int].traditional@, sylviews, k as int)
                == Some(built@),
        decreases n - k,
    {
        let c = tchars[k];
        let ghost built0 = built@;
        let (has_entry, alt) = find_single_char_alt(entries, c);
        if !has_entry {
            proof {
                assert(composed_prefix(
                    entries@,
                    entries@[i as int].traditional@,
                    sylviews,
                    k + 1,
                ) == None::<Seq<char>>);
                lemma_composed_prefix_none(
                    entries@,
                    entries@[i as int].traditional@,
                    sylviews,
                    k + 1,
                    n as int,
                );
            }
            return None;
        }
        let ghost piece: Seq<char> = match first_single_char_alt(entries@, c) {
            Some(p) => p,
            None => sylviews[k as int],
        };
        match alt {
            Some(p) => {
                built.append(p.as_str());
                proof {
                    assert(built@ == built0 + piece);
                }
            },
            None => {
                proof {
                    assert(crate::text::views_of(syls@)[k as int] == syls@[k as int]@);
                }
                built.append(syls[k].as_str());
                proof {
                    assert(built@ == built0 + piece);
                }
            },
        }
        built.append(" ");
        proof {
            reveal_strlit(" ");
            assert((" ")@ =~= seq![' ']);
            assert(built@ == built0 + piece + seq![' ']);
            assert(composed_prefix(entries@, entries@[i as int].traditional@, sylviews, k + 1)
                == Some(built@));
        }
        k = k + 1;
    }
    let trimmed = trim_str(built.as_str());
    let low = to_lowercase(trimmed.as_str());
    let low_orig = to_lowercase(entries[i].pinyin.as_str());
    if !low.eq(&low_orig) {
        Some(low)
    } else {
        None
    }
}

/// A composition that has already failed stays failed as it walks on.
proof fn lemma_composed_prefix_none(
    entries: Seq<Entry>,
    trad: Seq<char>,
    syls: Seq<Seq<char>>,
    k: int,
    n: int,
)
    requires
        0 <= k <= n,
        composed_prefix(entries, trad, syls, k) == None::<Seq<char>>,
    ensures
        composed_prefix(entries, trad, syls, n) == None::<Seq<char>>,
    decreases n - k,
{
    if k < n {
        lemma_composed_prefix_none(entries, trad, syls, k + 1, n);
    }
}

/// Backfills the alternate-region pronunciation of every multi-character
/// entry that lacks one, from a snapshot of the whole corpus: an entry
/// that already carries one, or whose traditional form has at most one
/// character, is never touched, and nothing but the alternate-region
/// pronunciation ever changes.
pub fn backfill_pronunciations(entries: &mut Vec<Entry>)
    ensures
        final(entries)@.len() == old(entries)@.len(),
        forall|i: int|
            0 <= i < old(entries)@.len() ==> opt_view(
                (#[trigger] final(entries)@[i]).pinyin_taiwan,
            ) == (match backfill_result(old(entries)@, i) {
                Some(p) => Some(p),
                None => opt_view(old(entries)@[i].pinyin_taiwan),
            }),
        forall|i: int|
            0 <= i < old(entries)@.len() ==> (old(entries)@[i].pinyin_taiwan is Some || old(
                entries,
            )@[i].traditional@.len() <= 1) ==> (#[trigger] final(entries)@[i]).pinyin_taiwan == old(
                entries,
            )@[i].pinyin_taiwan,
        forall|i: int|
            0 <= i < old(entries)@.len() ==> entry_except_taiwan_unchanged(
                old(entries)@[i],
                #[trigger] final(entries)@[i],
            ),
{
    let ghost orig = entries@;
    let mut updates: Vec<Option<String>> = Vec::new();
    let mut i: usize = 0;
    while i < entries.len()
        invariant
            entries@ == orig,
            i <= orig.len(),
            updates@.len() == i,
            forall|m: int|
                0 <= m < i ==> (match (#[trigger] updates@[m]) {
                    Some(p) => backfill_result(orig, m) == Some(p@),
                    None => backfill_result(orig, m) == None::<Seq<char>>,
                }),
        decreases orig.len() - i,
    {
        let u = compute_backfill(entries, i);
        updates.push(u);
        i = i + 1;
    }
    let mut j: usize = 0;
    while j < entries.len()
        invariant
            entries@.len() == orig.len(),
            updates@.len() == orig.len(),
            j <= orig.len(),
            forall|m: int|
                0 <= m < updates@.len() ==> (match (#[trigger] updates@[m]) {
                    Some(p) => backfill_result(orig, m) == Some(p@),
                    None => backfill_result(orig, m) == None::<Seq<char>>,
                }),
            forall|m: int|
                j <= m < orig.len() ==> #[trigger] entries@[m] == orig[m],
            forall|m: int|
                0 <= m < j ==> (match backfill_result(orig, m) {
                    Some(p) => opt_view((#[trigger] entries@[m]).pinyin_taiwan) == Some(p),
                    None => (#[trigger] entries@[m]).pinyin_taiwan == orig[m].pinyin_taiwan,
                }),
            forall|m: int|
                0 <= m < j ==> entry_except_taiwan_unchanged(orig[m], #[trigger] entries@[m]),
        decreases orig.len() - j,
    {
        match &updates[j] {
            Some(p) => {
                let val = p.clone();
                entries[j].pinyin_taiwan = Some(val);
            },
            None => {},
        }
        proof {
            assert(entry_except_taiwan_unchanged(orig[j as int], entries@[j as int]));
        }
        j = j + 1;
    }
    proof {
        assert forall|i2: int|
            0 <= i2 < orig.len() && (orig[i2].pinyin_taiwan is Some || orig[
            i2].traditional@.len() <= 1) implies (#[trigger] entries@[i2]).pinyin_taiwan
            == orig[i2].pinyin_taiwan by {
            assert(backfill_result(orig, i2) == None::<Seq<char>>);
        }
    }
}

/// Everything but the alternate-region pronunciation is the same in both
/// entries.
pub open spec fn entry_except_taiwan_unchanged(a: Entry, b: Entry) -> bool {
    &&& b.simplified == a.simplified
    &&& b.traditional == a.traditional
    &&& b.simplified_radicals == a.simplified_radicals
    &&& b.traditional_radicals == a.traditional_radicals
    &&& b.pinyin == a.pinyin
    &&& b.pinyin_search == a.pinyin_search
    &&& b.zhuyin == a.zhuyin
    &&& b.pinyin_pretty == a.pinyin_pretty
    &&& b.pinyin_ws_tone_number == a.pinyin_ws_tone_number
    &&& b.tocfl_level == a.tocfl_level
    &&& b.meanings == a.meanings
    &&& b.meanings_de == a.meanings_de
    &&& b.tags == a.tags
    &&& b.commonness_boost == a.commonness_boost
    &&& b.count_per_million_written == a.count_per_million_written
    &&& b.count_per_million_spoken == a.count_per_million_spoken
    &&& b.count_per_million_in_others == a.count_per_million_in_others
    &&& b.kanji == a.kanji
}


/// The fields the backfill reads from one entry: traditional form, raw
/// pronunciation, and alternate-region pronunciation.
pub open spec fn backfill_inputs(entries: Seq<Entry>) -> Seq<
    (Seq<char>, Seq<char>, Option<Seq<char>>),
> {
    Seq::new(
        entries.len(),
        |i: int| (entries[i].traditional@, entries[i].pinyin@, opt_view(entries[i].pinyin_taiwan)),
    )
}

/// `has_single_char_entry`, over the read fields alone.
pub open spec fn has_single_char_input(
    ts: Seq<(Seq<char>, Seq<char>, Option<Seq<char>>)>,
    c: char,
) -> bool {
    exists|j: int| 0 <= j < ts.len() && (#[trigger] ts[j]).0 == seq![c]
}

/// `first_single_char_alt`, over the read fields alone.
pub open spec fn first_single_char_alt_input(
    ts: Seq<(Seq<char>, Seq<char>, Option<Seq<char>>)>,
    c: char,
) -> Option<Seq<char>>
    decreases ts.len(),
{
    if ts.len() == 0 {
        None
    } else if ts[0].0 == seq![c] && ts[0].2 is Some {
        ts[0].2
    } else {
        first_single_char_alt_input(ts.drop_first(), c)
    }
}

/// `composed_prefix`, over the read fields alone.
pub open spec fn composed_prefix_input(
    ts: Seq<(Seq<char>, Seq<char>, Option<Seq<char>>)>,
    trad: Seq<char>,
    syls: Seq<Seq<char>>,
    n: int,
) -> Option<Seq<char>>
    decreases n,
{
    if n <= 0 {
        Some(Seq::empty())
    } else {
        match composed_prefix_input(ts, trad, syls, n - 1) {
            None => None,
            Some(acc) => {
                let c = trad[n - 1];
                if !has_single_char_input(ts, c) {
                    None
                } else {
                    let piece = match first_single_char_alt_input(ts, c) {
                        Some(p) => p,
                        None => syls[n - 1],
                    };
                    Some(acc + piece + seq![' '])
                }
            },
        }
    }
}

/// `backfill_result`, over the read fields alone: the backfill depends on
/// nothing but each entry's traditional form, raw pronunciation and
/// alternate-region pronunciation.
pub open spec fn backfill_result_input(
    ts: Seq<(Seq<char>, Seq<char>, Option<Seq<char>>)>,
    i: int,
) -> Option<Seq<char>> {
    let e = ts[i];
    if e.2 is None && e.0.len() > 1 {
        let syls = spec_split(e.1, ' ');
        match composed_prefix_input(ts, e.0, syls, pair_count(e.0, syls)) {
            None => None,
            Some(b) => {
                let low = lower_of(trim_spec(b));
                if low != lower_of(e.1) {
                    Some(low)
                } else {
                    None
                }
            },
        }
    } else {
        None
    }
}

proof fn lemma_first_alt_input_agrees(entries: Seq<Entry>, ts: Seq<
    (Seq<char>, Seq<char>, Option<Seq<char>>),
>, c: char)
    requires
        ts.len() == entries.len(),
        forall|j: int|
            0 <= j < entries.len() ==> #[trigger] ts[j] == (
                entries[j].traditional@,
                entries[j].pinyin@,
                opt_view(entries[j].pinyin_taiwan),
            ),
    ensures
        first_single_char_alt_input(ts, c) == first_single_char_alt(entries, c),
    decreases entries.len(),
{
    if entries.len() > 0 {
        assert(ts[0] == (
            entries[0].traditional@,
            entries[0].pinyin@,
            opt_view(entries[0].pinyin_taiwan),
        ));
        assert(forall|j: int|
            0 <= j < entries.drop_first().len() ==> #[trigger] ts.drop_first()[j] == (
                entries.drop_first()[j].traditional@,
                entries.drop_first()[j].pinyin@,
                opt_view(entries.drop_first()[j].pinyin_taiwan),
            ));
        lemma_first_alt_input_agrees(entries.drop_first(), ts.drop_first(), c);
        assert((ts[0].0 == seq![c]) == is_single_char_entry(entries[0], c)) by {
            if ts[0].0 == seq![c] {
                assert(entries[0].traditional@[0] == c);
            }
            if is_single_char_entry(entries[0], c) {
                assert(entries[0].traditional@ =~= seq![c]);
            }
        }
    }
}

proof fn lemma_composed_input_agrees(
    entries: Seq<Entry>,
    ts: Seq<(Seq<char>, Seq<char>, Option<Seq<char>>)>,
    trad: Seq<char>,
    syls: Seq<Seq<char>>,
    n: int,
)
    requires
        ts.len() == entries.len(),
        forall|j: int|
            0 <= j < entries.len() ==> #[trigger] ts[j] == (
                entries[j].traditional@,
                entries[j].pinyin@,
                opt_view(entries[j].pinyin_taiwan),
            ),
    ensures
        composed_prefix_input(ts, trad, syls, n) == composed_prefix(entries, trad, syls, n),
    decreases n,
{
    if n > 0 {
        lemma_composed_input_agrees(entries, ts, trad, syls, n - 1);
        let c = trad[n - 1];
        assert(has_single_char_input(ts, c) == has_single_char_entry(entries, c)) by {
            if has_single_char_input(ts, c) {
                let j = choose|j: int| 0 <= j < ts.len() && (#[trigger] ts[j]).0 == seq![c];
                assert(entries[j].traditional@ == seq![c]);
                assert(is_single_char_entry(entries[j], c));
            }
            if has_single_char_entry(entries, c) {
                let j = choose|j: int|
                    0 <= j < entries.len() && is_single_char_entry(#[trigger] entries[j], c);
                assert(entries[j].traditional@ =~= seq![c]);
                assert(ts[j].0 == seq![c]);
            }
        }
        lemma_first_alt_input_agrees(entries, ts, c);
    }
}

/// The backfill verdict agrees with its restatement over the read fields.
pub proof fn lemma_backfill_result_agrees(entries: Seq<Entry>, i: int)
    requires
        0 <= i < entries.len(),
    ensures
        backfill_result_input(backfill_inputs(entries), i) == backfill_result(entries, i),
{
    let ts = backfill_inputs(entries);
    assert(forall|j: int|
        0 <= j < entries.len() ==> #[trigger] ts[j] == (
            entries[j].traditional@,
            entries[j].pinyin@,
            opt_view(entries[j].pinyin_taiwan),
        ));
    let e = entries[i];
    if e.pinyin_taiwan is None && e.traditional@.len() > 1 {
        let syls = spec_split(e.pinyin@, ' ');
        lemma_composed_input_agrees(entries, ts, e.traditional@, syls, pair_count(
            e.traditional@,
            syls,
        ));
    }
}

} // verus!
