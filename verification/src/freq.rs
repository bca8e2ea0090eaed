//! Frequency records and tables: word-level and character-level occurrence
//! counts, and the accumulation of word counts onto their constituent
//! characters.

use vstd::prelude::*;
use crate::text::chars_to_string;

verus! {

/// One frequency record: a surface form with its own occurrence counts and
/// the accumulated counts of its occurrences inside other words.
pub struct FrequencyRecord {
    pub surface_form: String,
    pub occurrence_count: u64,
    pub occurrence_per_million: u64,
    pub occurrence_in_others: u64,
    pub occurrence_per_million_in_others: u64,
}

/// The first record whose surface form is `key`, if any.
pub open spec fn spec_lookup(recs: Seq<FrequencyRecord>, key: Seq<char>) -> Option<FrequencyRecord>
    decreases recs.len(),
{
    if recs.len() == 0 {
        None
    } else if recs[0].surface_form@ == key {
        Some(recs[0])
    } else {
        spec_lookup(recs.drop_first(), key)
    }
}

/// The accumulated in-others occurrence count recorded for the character
/// `c`, zero when no record for it exists.
pub open spec fn in_others_of(recs: Seq<FrequencyRecord>, c: char) -> int {
    match spec_lookup(recs, seq![c]) {
        Some(r) => r.occurrence_in_others as int,
        None => 0,
    }
}

/// The accumulated per-million in-others count recorded for the character
/// `c`, zero when no record for it exists.
pub open spec fn pm_in_others_of(recs: Seq<FrequencyRecord>, c: char) -> int {
    match spec_lookup(recs, seq![c]) {
        Some(r) => r.occurrence_per_million_in_others as int,
        None => 0,
    }
}

/// The own occurrence count recorded for `key`, zero when absent.
pub open spec fn self_count_of(recs: Seq<FrequencyRecord>, key: Seq<char>) -> int {
    match spec_lookup(recs, key) {
        Some(r) => r.occurrence_count as int,
        None => 0,
    }
}

/// The own per-million count recorded for `key`, zero when absent.
pub open spec fn pm_self_of(recs: Seq<FrequencyRecord>, key: Seq<char>) -> int {
    match spec_lookup(recs, key) {
        Some(r) => r.occurrence_per_million as int,
        None => 0,
    }
}

/// Whether a word record contributes to a character's in-others counts:
/// exactly the multi-character words containing the character contribute,
/// once each.
pub open spec fn word_contributes(w: FrequencyRecord, c: char) -> bool {
    w.surface_form@.len() > 1 && w.surface_form@.contains(c)
}

/// The total contribution of the words to the in-others count of the
/// character `c`: the sum of `occurrence_count` over every loaded
/// multi-character word containing the character.
pub open spec fn in_others_sum(words: Seq<FrequencyRecord>, c: char) -> int
    decreases words.len(),
{
    if words.len() == 0 {
        0
    } else {
        in_others_sum(words.drop_last(), c) + if word_contributes(words.last(), c) {
            words.last().occurrence_count as int
        } else {
            0int
        }
    }
}

/// The total contribution of the words to the per-million in-others count
/// of the character `c`, summed the same way.
pub open spec fn pm_in_others_sum(words: Seq<FrequencyRecord>, c: char) -> int
    decreases words.len(),
{
    if words.len() == 0 {
        0
    } else {
        pm_in_others_sum(words.drop_last(), c) + if word_contributes(words.last(), c) {
            words.last().occurrence_per_million as int
        } else {
            0int
        }
    }
}

/// A frequency table: records with pairwise distinct surface forms.
pub struct FrequencyTable {
    pub records: Vec<FrequencyRecord>,
}

impl FrequencyTable {
    /// Every surface form occurs at most once.
    pub open spec fn wf(self) -> bool {
        forall|i: int, j: int|
            0 <= i < j < self.records@.len() ==> (#[trigger] self.records@[i]).surface_form@ != (
            #[trigger] self.records@[j]).surface_form@
    }

    pub fn new() -> (r: Self)
        ensures
            r.wf(),
            r.records@.len() == 0,
    {
        FrequencyTable { records: Vec::new() }
    }
}

/// A first match at index `i` is what `spec_lookup` returns.
proof fn lemma_lookup_first_match(recs: Seq<FrequencyRecord>, key: Seq<char>, i: int)
    requires
        0 <= i < recs.len(),
        recs[i].surface_form@ == key,
        forall|j: int| 0 <= j < i ==> (#[trigger] recs[j]).surface_form@ != key,
    ensures
        spec_lookup(recs, key) == Some(recs[i]),
    decreases recs.len(),
{
    if i > 0 {
        assert(recs[0].surface_form@ != key);
        assert(recs.drop_first()[i - 1] == recs[i]);
        assert(forall|j: int|
            0 <= j < i - 1 ==> (#[trigger] recs.drop_first()[j]).surface_form@ != key);
        lemma_lookup_first_match(recs.drop_first(), key, i - 1);
    }
}

/// With no match anywhere, `spec_lookup` returns nothing.
proof fn lemma_lookup_no_match(recs: Seq<FrequencyRecord>, key: Seq<char>)
    requires
        forall|j: int| 0 <= j < recs.len() ==> (#[trigger] recs[j]).surface_form@ != key,
    ensures
        spec_lookup(recs, key) == None::<FrequencyRecord>,
    decreases recs.len(),
{
    if recs.len() > 0 {
        assert(forall|j: int|
            0 <= j < recs.drop_first().len() ==> (#[trigger] recs.drop_first()[j]).surface_form@
                != key);
        lemma_lookup_no_match(recs.drop_first(), key);
    }
}

/// Updating the first record of its surface form changes only lookups of
/// that surface form.
proof fn lemma_lookup_update(recs: Seq<FrequencyRecord>, i: int, r2: FrequencyRecord, key: Seq<
    char,
>)
    requires
        0 <= i < recs.len(),
        r2.surface_form@ == recs[i].surface_form@,
        forall|j: int|
            0 <= j < i ==> (#[trigger] recs[j]).surface_form@ != recs[i].surface_form@,
    ensures
        spec_lookup(recs.update(i, r2), key) == (if recs[i].surface_form@ == key {
            Some(r2)
        } else {
            spec_lookup(recs, key)
        }),
    decreases recs.len(),
{
    if i == 0 {
        if recs[0].surface_form@ != key {
            assert(recs.update(i, r2).drop_first() =~= recs.drop_first());
        }
    } else {
        assert(recs.update(i, r2).drop_first() =~= recs.drop_first().update(i - 1, r2));
        assert(recs.drop_first()[i - 1] == recs[i]);
        assert(forall|j: int|
            0 <= j < i - 1 ==> (#[trigger] recs.drop_first()[j]).surface_form@
                != recs.drop_first()[i - 1].surface_form@);
        lemma_lookup_update(recs.drop_first(), i - 1, r2, key);
    }
}

/// Appending a record changes only lookups that previously found nothing.
proof fn lemma_lookup_push(recs: Seq<FrequencyRecord>, r2: FrequencyRecord, key: Seq<char>)
    ensures
        spec_lookup(recs.push(r2), key) == (match spec_lookup(recs, key) {
            Some(r) => Some(r),
            None => if r2.surface_form@ == key {
                Some(r2)
            } else {
                None
            },
        }),
    decreases recs.len(),
{
    if recs.len() == 0 {
        assert(recs.push(r2)[0] == r2);
        assert(recs.push(r2).drop_first() =~= Seq::empty());
    } else {
        assert(recs.push(r2).drop_first() =~= recs.drop_first().push(r2));
        lemma_lookup_push(recs.drop_first(), r2, key);
    }
}

impl FrequencyTable {
    /// Finds the index of the record for `key`, scanning in order.
    fn find_index(&self, key: &String) -> (r: Option<usize>)
        ensures
            match r {
                Some(i) => i < self.records@.len() && self.records@[i as int].surface_form@ == key@
                    && spec_lookup(self.records@, key@) == Some(self.records@[i as int]) && forall|
                    j: int,
                |
                    0 <= j < i ==> (#[trigger] self.records@[j]).surface_form@ != key@,
                None => spec_lookup(self.records@, key@) == None::<FrequencyRecord>,
            },
    {
        let mut i: usize = 0;
        while i < self.records.len()
            invariant
                i <= self.records@.len(),
                forall|j: int|
                    0 <= j < i ==> (#[trigger] self.records@[j]).surface_form@ != key@,
            decreases self.records@.len() - i,
        {
            if self.records[i].surface_form.eq(key) {
                proof {
                    lemma_lookup_first_match(self.records@, key@, i as int);
                }
                return Some(i);
            }
            i = i + 1;
        }
        proof {
            lemma_lookup_no_match(self.records@, key@);
        }
        None
    }

    /// Adds one word's contribution to the record of the character `c`,
    /// creating the record with zero own counts when it is missing.
    fn bump_char(&mut self, c: char, count: u64, pm: u64)
        requires
            old(self).wf(),
            in_others_of(old(self).records@, c) + count <= u64::MAX,
            pm_in_others_of(old(self).records@, c) + pm <= u64::MAX,
        ensures
            final(self).wf(),
            in_others_of(final(self).records@, c) == in_others_of(old(self).records@, c) + count,
            pm_in_others_of(final(self).records@, c) == pm_in_others_of(old(self).records@, c) + pm,
            forall|c2: char|
                c2 != c ==> #[trigger] in_others_of(final(self).records@, c2) == in_others_of(
                    old(self).records@,
                    c2,
                ),
            forall|c2: char|
                c2 != c ==> #[trigger] pm_in_others_of(final(self).records@, c2) == pm_in_others_of(
                    old(self).records@,
                    c2,
                ),
            forall|key: Seq<char>|
                #[trigger] self_count_of(final(self).records@, key) == self_count_of(
                    old(self).records@,
                    key,
                ),
            forall|key: Seq<char>|
                #[trigger] pm_self_of(final(self).records@, key) == pm_self_of(old(self).records@, key),
            forall|key: Seq<char>|
                key.len() != 1 ==> #[trigger] spec_lookup(final(self).records@, key) == spec_lookup(
                    old(self).records@,
                    key,
                ),
            forall|key: Seq<char>|
                spec_lookup(old(self).records@, key) is Some ==> #[trigger] spec_lookup(
                    final(self).records@,
                    key,
                ) is Some,
    {
        let mut key_chars: Vec<char> = Vec::new();
        key_chars.push(c);
        proof {
            assert(key_chars@ =~= seq![c]);
        }
        let key = chars_to_string(&key_chars);
        let found = self.find_index(&key);
        match found {
            Some(i) => {
                let r2 = FrequencyRecord {
                    surface_form: self.records[i].surface_form.clone(),
                    occurrence_count: self.records[i].occurrence_count,
                    occurrence_per_million: self.records[i].occurrence_per_million,
                    occurrence_in_others: self.records[i].occurrence_in_others + count,
                    occurrence_per_million_in_others: self.records[
                        i
                    ].occurrence_per_million_in_others + pm,
                };
                let ghost old_recs = self.records@;
                self.records[i] = r2;
                proof {
                    assert(self.records@ =~= old_recs.update(i as int, r2));
                    assert forall|j: int|
                        0 <= j < i implies (#[trigger] old_recs[j]).surface_form@
                            != old_recs[i as int].surface_form@ by {}
                    assert forall|key2: Seq<char>| true implies #[trigger] spec_lookup(
                        self.records@,
                        key2,
                    ) == (if seq![c] == key2 {
                        Some(r2)
                    } else {
                        spec_lookup(old_recs, key2)
                    }) by {
                        lemma_lookup_update(old_recs, i as int, r2, key2);
                    }
                    assert forall|c2: char| c2 != c implies seq![c2] != seq![c] by {
                        assert(seq![c2][0] == c2);
                    }
                }
            },
            None => {
                let r2 = FrequencyRecord {
                    surface_form: key,
                    occurrence_count: 0,
                    occurrence_per_million: 0,
                    occurrence_in_others: count,
                    occurrence_per_million_in_others: pm,
                };
                let ghost old_recs = self.records@;
                self.records.push(r2);
                proof {
                    assert forall|key2: Seq<char>| true implies #[trigger] spec_lookup(
                        self.records@,
                        key2,
                    ) == (match spec_lookup(old_recs, key2) {
                        Some(r) => Some(r),
                        None => if seq![c] == key2 {
                            Some(r2)
                        } else {
                            None
                        },
                    }) by {
                        lemma_lookup_push(old_recs, r2, key2);
                    }
                    assert forall|c2: char| c2 != c implies seq![c2] != seq![c] by {
                        assert(seq![c2][0] == c2);
                    }
                    assert forall|i2: int, j2: int|
                        0 <= i2 < j2 < self.records@.len() implies (#[trigger] self.records@[
                        i2]).surface_form@ != (#[trigger] self.records@[j2]).surface_form@ by {
                        if j2 == self.records@.len() - 1 {
                            if self.records@[i2].surface_form@ == seq![c] {
                                lemma_lookup_first_match(old_recs, seq![c], i2);
                            }
                        }
                    }
                }
            },
        }
    }
}


/// One more word extends the contribution sums by that word's term.
proof fn lemma_sum_take_succ(words: Seq<FrequencyRecord>, c: char, k: int)
    requires
        0 <= k < words.len(),
    ensures
        in_others_sum(words.take(k + 1), c) == in_others_sum(words.take(k), c) + (
        if word_contributes(words[k], c) {
            words[k].occurrence_count as int
        } else {
            0int
        }),
        pm_in_others_sum(words.take(k + 1), c) == pm_in_others_sum(words.take(k), c) + (
        if word_contributes(words[k], c) {
            words[k].occurrence_per_million as int
        } else {
            0int
        }),
{
    assert(words.take(k + 1).drop_last() =~= words.take(k));
    assert(words.take(k + 1).last() == words[k]);
}

/// A prefix of the words contributes no more than all of them.
proof fn lemma_sum_take_le(words: Seq<FrequencyRecord>, c: char, k: int)
    requires
        0 <= k <= words.len(),
    ensures
        in_others_sum(words.take(k), c) <= in_others_sum(words, c),
        pm_in_others_sum(words.take(k), c) <= pm_in_others_sum(words, c),
    decreases words.len(),
{
    if k == words.len() {
        assert(words.take(k) =~= words);
    } else {
        assert(words.take(k) =~= words.drop_last().take(k));
        lemma_sum_take_le(words.drop_last(), c, k);
    }
}

/// Whether the character occurs among the first `k` characters.
fn prefix_contains(chars: &Vec<char>, k: usize, c: char) -> (r: bool)
    requires
        k <= chars@.len(),
    ensures
        r == chars@.take(k as int).contains(c),
{
    let mut j: usize = 0;
    while j < k
        invariant
            j <= k,
            k <= chars@.len(),
            forall|m: int| 0 <= m < j ==> chars@[m] != c,
        decreases k - j,
    {
        if chars[j] == c {
            proof {
                assert(chars@.take(k as int)[j as int] == c);
            }
            return true;
        }
        j = j + 1;
    }
    proof {
        if chars@.take(k as int).contains(c) {
            let m = choose|m: int| 0 <= m < k && chars@.take(k as int)[m] == c;
            assert(chars@[m] == c);
        }
    }
    false
}

impl FrequencyTable {
    /// Adds every multi-character word's counts to the records of its
    /// constituent characters, one contribution per containing word:
    /// afterwards, each character's in-others counts have grown by exactly
    /// the word table's total contribution for it, and nothing else has
    /// changed.
    pub fn absorb_word_counts(&mut self, words: &FrequencyTable)
        requires
            old(self).wf(),
            forall|c: char|
                in_others_of(old(self).records@, c) + #[trigger] in_others_sum(words.records@, c)
                    <= u64::MAX,
            forall|c: char|
                pm_in_others_of(old(self).records@, c) + #[trigger] pm_in_others_sum(
                    words.records@,
                    c,
                ) <= u64::MAX,
        ensures
            final(self).wf(),
            forall|c: char|
                #[trigger] in_others_of(final(self).records@, c) == in_others_of(
                    old(self).records@,
                    c,
                ) + in_others_sum(words.records@, c),
            forall|c: char|
                #[trigger] pm_in_others_of(final(self).records@, c) == pm_in_others_of(
                    old(self).records@,
                    c,
                ) + pm_in_others_sum(words.records@, c),
            forall|key: Seq<char>|
                #[trigger] self_count_of(final(self).records@, key) == self_count_of(
                    old(self).records@,
                    key,
                ),
            forall|key: Seq<char>|
                #[trigger] pm_self_of(final(self).records@, key) == pm_self_of(
                    old(self).records@,
                    key,
                ),
            forall|key: Seq<char>|
                key.len() != 1 ==> #[trigger] spec_lookup(final(self).records@, key) == spec_lookup(
                    old(self).records@,
                    key,
                ),
            forall|key: Seq<char>|
                spec_lookup(old(self).records@, key) is Some ==> #[trigger] spec_lookup(
                    final(self).records@,
                    key,
                ) is Some,
    {
        let ghost orig = old(self).records@;
        let ghost all_words = words.records@;
        let mut w: usize = 0;
        proof {
            assert(all_words.take(0) =~= Seq::empty());
        }
        while w < words.records.len()
            invariant
                self.wf(),
                all_words == words.records@,
                w <= all_words.len(),
                forall|c: char|
                    in_others_of(orig, c) + #[trigger] in_others_sum(all_words, c) <= u64::MAX,
                forall|c: char|
                    pm_in_others_of(orig, c) + #[trigger] pm_in_others_sum(all_words, c)
                        <= u64::MAX,
                forall|c: char|
                    #[trigger] in_others_of(self.records@, c) == in_others_of(orig, c)
                        + in_others_sum(all_words.take(w as int), c),
                forall|c: char|
                    #[trigger] pm_in_others_of(self.records@, c) == pm_in_others_of(orig, c)
                        + pm_in_others_sum(all_words.take(w as int), c),
                forall|key: Seq<char>|
                    #[trigger] self_count_of(self.records@, key) == self_count_of(orig, key),
                forall|key: Seq<char>|
                    #[trigger] pm_self_of(self.records@, key) == pm_self_of(orig, key),
                forall|key: Seq<char>|
                    key.len() != 1 ==> #[trigger] spec_lookup(self.records@, key) == spec_lookup(
                        orig,
                        key,
                    ),
                forall|key: Seq<char>|
                    spec_lookup(orig, key) is Some ==> #[trigger] spec_lookup(
                        self.records@,
                        key,
                    ) is Some,
            decreases all_words.len() - w,
        {
            let count = words.records[w].occurrence_count;
            let pm = words.records[w].occurrence_per_million;
            let chars = crate::text::str_chars(words.records[w].surface_form.as_str());
            let ghost word_chars = all_words[w as int].surface_form@;
            if chars.len() > 1 {
                let mut k: usize = 0;
                proof {
                    assert(word_chars.take(0) =~= Seq::<char>::empty());
                    assert forall|c: char|
                        #[trigger] in_others_of(self.records@, c) == in_others_of(orig, c)
                            + in_others_sum(all_words.take(w as int), c) + (if word_chars.take(
                            0,
                        ).contains(c) {
                            count as int
                        } else {
                            0int
                        }) by {
                        assert(!word_chars.take(0).contains(c));
                    }
                    assert forall|c: char|
                        #[trigger] pm_in_others_of(self.records@, c) == pm_in_others_of(orig, c)
                            + pm_in_others_sum(all_words.take(w as int), c) + (if word_chars.take(
                            0,
                        ).contains(c) {
                            pm as int
                        } else {
                            0int
                        }) by {
                        assert(!word_chars.take(0).contains(c));
                    }
                }
                while k < chars.len()
                    invariant
                        self.wf(),
                        all_words == words.records@,
                        w < all_words.len(),
                        k <= word_chars.len(),
                        chars@ == word_chars,
                        word_chars.len() > 1,
                        count == all_words[w as int].occurrence_count,
                        pm == all_words[w as int].occurrence_per_million,
                        word_chars == all_words[w as int].surface_form@,
                        forall|c: char|
                            in_others_of(orig, c) + #[trigger] in_others_sum(all_words, c)
                                <= u64::MAX,
                        forall|c: char|
                            pm_in_others_of(orig, c) + #[trigger] pm_in_others_sum(all_words, c)
                                <= u64::MAX,
                        forall|c: char|
                            #[trigger] in_others_of(self.records@, c) == in_others_of(orig, c)
                                + in_others_sum(all_words.take(w as int), c) + (
                            if word_chars.take(k as int).contains(c) {
                                count as int
                            } else {
                                0int
                            }),
                        forall|c: char|
                            #[trigger] pm_in_others_of(self.records@, c) == pm_in_others_of(
                                orig,
                                c,
                            ) + pm_in_others_sum(all_words.take(w as int), c) + (
                            if word_chars.take(k as int).contains(c) {
                                pm as int
                            } else {
                                0int
                            }),
                        forall|key: Seq<char>|
                            #[trigger] self_count_of(self.records@, key) == self_count_of(
                                orig,
                                key,
                            ),
                        forall|key: Seq<char>|
                            #[trigger] pm_self_of(self.records@, key) == pm_self_of(orig, key),
                        forall|key: Seq<char>|
                            key.len() != 1 ==> #[trigger] spec_lookup(self.records@, key)
                                == spec_lookup(orig, key),
                        forall|key: Seq<char>|
                            spec_lookup(orig, key) is Some ==> #[trigger] spec_lookup(
                                self.records@,
                                key,
                            ) is Some,
                    decreases word_chars.len() - k,
                {
                    let c0 = chars[k];
                    let seen = prefix_contains(&chars, k, c0);
                    proof {
                        assert(word_chars.take(k + 1) =~= word_chars.take(k as int).push(
                            word_chars[k as int],
                        ));
                    }
                    if !seen {
                        proof {
                            assert(word_chars.contains(c0)) by {
                                assert(word_chars[k as int] == c0);
                            }
                            assert(word_contributes(all_words[w as int], c0));
                            lemma_sum_take_succ(all_words, c0, w as int);
                            lemma_sum_take_le(all_words, c0, w + 1);
                            assert(in_others_of(self.records@, c0) + count <= u64::MAX);
                            assert(pm_in_others_of(self.records@, c0) + pm <= u64::MAX);
                        }
                        self.bump_char(c0, count, pm);
                        proof {
                            assert forall|c: char|
                                #[trigger] in_others_of(self.records@, c) == in_others_of(
                                    orig,
                                    c,
                                ) + in_others_sum(all_words.take(w as int), c) + (
                            if word_chars.take(k + 1).contains(c) {
                                count as int
                            } else {
                                0int
                            }) by {
                                vstd::seq_lib::lemma_seq_contains_after_push(
                                    word_chars.take(k as int),
                                    word_chars[k as int],
                                    c,
                                );
                            }
                            assert forall|c: char|
                                #[trigger] pm_in_others_of(self.records@, c) == pm_in_others_of(
                                    orig,
                                    c,
                                ) + pm_in_others_sum(all_words.take(w as int), c) + (
                            if word_chars.take(k + 1).contains(c) {
                                pm as int
                            } else {
                                0int
                            }) by {
                                vstd::seq_lib::lemma_seq_contains_after_push(
                                    word_chars.take(k as int),
                                    word_chars[k as int],
                                    c,
                                );
                            }
                        }
                    } else {
                        proof {
                            assert forall|c: char|
                                #[trigger] in_others_of(self.records@, c) == in_others_of(
                                    orig,
                                    c,
                                ) + in_others_sum(all_words.take(w as int), c) + (
                            if word_chars.take(k + 1).contains(c) {
                                count as int
                            } else {
                                0int
                            }) by {
                                vstd::seq_lib::lemma_seq_contains_after_push(
                                    word_chars.take(k as int),
                                    word_chars[k as int],
                                    c,
                                );
                            }
                            assert forall|c: char|
                                #[trigger] pm_in_others_of(self.records@, c) == pm_in_others_of(
                                    orig,
                                    c,
                                ) + pm_in_others_sum(all_words.take(w as int), c) + (
                            if word_chars.take(k + 1).contains(c) {
                                pm as int
                            } else {
                                0int
                            }) by {
                                vstd::seq_lib::lemma_seq_contains_after_push(
                                    word_chars.take(k as int),
                                    word_chars[k as int],
                                    c,
                                );
                            }
                        }
                    }
                    k = k + 1;
                }
                proof {
                    assert(word_chars.take(word_chars.len() as int) =~= word_chars);
                    assert forall|c: char|
                        #[trigger] in_others_of(self.records@, c) == in_others_of(orig, c)
                            + in_others_sum(all_words.take(w + 1), c) by {
                        lemma_sum_take_succ(all_words, c, w as int);
                    }
                    assert forall|c: char|
                        #[trigger] pm_in_others_of(self.records@, c) == pm_in_others_of(orig, c)
                            + pm_in_others_sum(all_words.take(w + 1), c) by {
                        lemma_sum_take_succ(all_words, c, w as int);
                    }
                }
            } else {
                proof {
                    assert forall|c: char|
                        #[trigger] in_others_of(self.records@, c) == in_others_of(orig, c)
                            + in_others_sum(all_words.take(w + 1), c) by {
                        lemma_sum_take_succ(all_words, c, w as int);
                        assert(!word_contributes(all_words[w as int], c));
                    }
                    assert forall|c: char|
                        #[trigger] pm_in_others_of(self.records@, c) == pm_in_others_of(orig, c)
                            + pm_in_others_sum(all_words.take(w + 1), c) by {
                        lemma_sum_take_succ(all_words, c, w as int);
                        assert(!word_contributes(all_words[w as int], c));
                    }
                }
            }
            w = w + 1;
        }
        proof {
            assert(all_words.take(all_words.len() as int) =~= all_words);
        }
    }
}


impl FrequencyRecord {
    /// A fresh record from one row of a frequency corpus: the in-others
    /// accumulators start at zero.
    pub fn from_row(surface_form: String, occurrence_count: u64, occurrence_per_million: u64) -> (r:
        FrequencyRecord)
        ensures
            r.surface_form == surface_form,
            r.occurrence_count == occurrence_count,
            r.occurrence_per_million == occurrence_per_million,
            r.occurrence_in_others == 0,
            r.occurrence_per_million_in_others == 0,
    {
        FrequencyRecord {
            surface_form,
            occurrence_count,
            occurrence_per_million,
            occurrence_in_others: 0,
            occurrence_per_million_in_others: 0,
        }
    }
}

/// An exact copy of a record.
fn copy_record(r: &FrequencyRecord) -> (c: FrequencyRecord)
    ensures
        c == *r,
{
    FrequencyRecord {
        surface_form: r.surface_form.clone(),
        occurrence_count: r.occurrence_count,
        occurrence_per_million: r.occurrence_per_million,
        occurrence_in_others: r.occurrence_in_others,
        occurrence_per_million_in_others: r.occurrence_per_million_in_others,
    }
}

impl FrequencyTable {
    /// Inserts a record, replacing any earlier record of the same surface
    /// form: the table behaves as a map whose latest insertion wins.
    pub fn insert(&mut self, rec: FrequencyRecord)
        requires
            old(self).wf(),
        ensures
            final(self).wf(),
            spec_lookup(final(self).records@, rec.surface_form@) == Some(rec),
            forall|key: Seq<char>|
                key != rec.surface_form@ ==> #[trigger] spec_lookup(final(self).records@, key)
                    == spec_lookup(old(self).records@, key),
    {
        let found = self.find_index(&rec.surface_form);
        match found {
            Some(i) => {
                let ghost old_recs = self.records@;
                let ghost old_rec = self.records@[i as int];
                self.records[i] = rec;
                proof {
                    assert(self.records@ =~= old_recs.update(i as int, rec));
                    assert forall|key: Seq<char>| true implies #[trigger] spec_lookup(
                        self.records@,
                        key,
                    ) == (if old_rec.surface_form@ == key {
                        Some(rec)
                    } else {
                        spec_lookup(old_recs, key)
                    }) by {
                        lemma_lookup_update(old_recs, i as int, rec, key);
                    }
                }
            },
            None => {
                let ghost old_recs = self.records@;
                let ghost rec2 = rec;
                self.records.push(rec);
                proof {
                    assert forall|key: Seq<char>| true implies #[trigger] spec_lookup(
                        self.records@,
                        key,
                    ) == (match spec_lookup(old_recs, key) {
                        Some(r) => Some(r),
                        None => if rec2.surface_form@ == key {
                            Some(rec2)
                        } else {
                            None
                        },
                    }) by {
                        lemma_lookup_push(old_recs, rec2, key);
                    }
                    assert forall|i2: int, j2: int|
                        0 <= i2 < j2 < self.records@.len() implies (#[trigger] self.records@[
                        i2]).surface_form@ != (#[trigger] self.records@[j2]).surface_form@ by {
                        if j2 == self.records@.len() - 1 {
                            if self.records@[i2].surface_form@ == rec2.surface_form@ {
                                lemma_lookup_first_match(old_recs, rec2.surface_form@, i2);
                            }
                        }
                    }
                }
            },
        }
    }

    /// Looks a surface form up in the table.
    pub fn lookup<'a>(&'a self, key: &String) -> (r: Option<&'a FrequencyRecord>)
        ensures
            match r {
                Some(rec) => spec_lookup(self.records@, key@) == Some(*rec),
                None => spec_lookup(self.records@, key@) == None::<FrequencyRecord>,
            },
    {
        let found = self.find_index(key);
        match found {
            Some(i) => Some(&self.records[i]),
            None => None,
        }
    }
}

/// The record as a one-element sequence, or an empty one.
pub open spec fn opt_to_seq(o: Option<FrequencyRecord>) -> Seq<FrequencyRecord> {
    match o {
        Some(r) => seq![r],
        None => Seq::empty(),
    }
}

/// The own occurrence count of an optional record, zero when absent.
pub open spec fn opt_count(o: Option<FrequencyRecord>) -> int {
    match o {
        Some(r) => r.occurrence_count as int,
        None => 0,
    }
}

/// The own per-million count of an optional record, zero when absent.
pub open spec fn opt_per_million(o: Option<FrequencyRecord>) -> int {
    match o {
        Some(r) => r.occurrence_per_million as int,
        None => 0,
    }
}

/// The in-others count of an optional record, zero when absent.
pub open spec fn opt_in_others(o: Option<FrequencyRecord>) -> int {
    match o {
        Some(r) => r.occurrence_in_others as int,
        None => 0,
    }
}

/// The per-million in-others count of an optional record, zero when absent.
pub open spec fn opt_per_million_in_others(o: Option<FrequencyRecord>) -> int {
    match o {
        Some(r) => r.occurrence_per_million_in_others as int,
        None => 0,
    }
}

/// The word-level and character-level frequency tables of the corpus,
/// consulted together when an entry's commonness is read.
pub struct FrequencyTables {
    pub char_frequencies: FrequencyTable,
    pub word_frequencies: FrequencyTable,
}

impl FrequencyTables {
    pub open spec fn wf(self) -> bool {
        self.char_frequencies.wf() && self.word_frequencies.wf()
    }

    /// The records consulted for a (traditional, simplified) pair, in a
    /// fixed order: word table by simplified then traditional form, then
    /// character table by simplified then traditional form.
    pub open spec fn matched(self, trad: Seq<char>, simpl: Seq<char>) -> Seq<FrequencyRecord> {
        opt_to_seq(spec_lookup(self.word_frequencies.records@, simpl)) + opt_to_seq(
            spec_lookup(self.word_frequencies.records@, trad),
        ) + opt_to_seq(spec_lookup(self.char_frequencies.records@, simpl)) + opt_to_seq(
            spec_lookup(self.char_frequencies.records@, trad),
        )
    }

    pub open spec fn count_self_spec(self, trad: Seq<char>, simpl: Seq<char>) -> int {
        opt_count(spec_lookup(self.word_frequencies.records@, simpl)) + opt_count(
            spec_lookup(self.word_frequencies.records@, trad),
        ) + opt_count(spec_lookup(self.char_frequencies.records@, simpl)) + opt_count(
            spec_lookup(self.char_frequencies.records@, trad),
        )
    }

    pub open spec fn count_per_million_self_spec(self, trad: Seq<char>, simpl: Seq<char>) -> int {
        opt_per_million(spec_lookup(self.word_frequencies.records@, simpl)) + opt_per_million(
            spec_lookup(self.word_frequencies.records@, trad),
        ) + opt_per_million(spec_lookup(self.char_frequencies.records@, simpl)) + opt_per_million(
            spec_lookup(self.char_frequencies.records@, trad),
        )
    }

    pub open spec fn count_in_others_spec(self, trad: Seq<char>, simpl: Seq<char>) -> int {
        opt_in_others(spec_lookup(self.word_frequencies.records@, simpl)) + opt_in_others(
            spec_lookup(self.word_frequencies.records@, trad),
        ) + opt_in_others(spec_lookup(self.char_frequencies.records@, simpl)) + opt_in_others(
            spec_lookup(self.char_frequencies.records@, trad),
        )
    }

    pub open spec fn count_per_million_in_others_spec(self, trad: Seq<char>, simpl: Seq<char>) -> int {
        opt_per_million_in_others(spec_lookup(self.word_frequencies.records@, simpl))
            + opt_per_million_in_others(spec_lookup(self.word_frequencies.records@, trad))
            + opt_per_million_in_others(spec_lookup(self.char_frequencies.records@, simpl))
            + opt_per_million_in_others(spec_lookup(self.char_frequencies.records@, trad))
    }

    /// What merging the two corpora leaves behind: the word table is handed
    /// back untouched, and each character's in-others counts have grown by
    /// the sum of the counts of every loaded multi-character word containing
    /// it, with every other stored count unchanged. Every clause is a
    /// function of the two input tables alone.
    pub open spec fn merged_from(
        self,
        char_frequencies: FrequencyTable,
        word_frequencies: FrequencyTable,
    ) -> bool {
        &&& self.wf()
        &&& self.word_frequencies == word_frequencies
        &&& forall|c: char|
            #[trigger] in_others_of(self.char_frequencies.records@, c) == in_others_of(
                char_frequencies.records@,
                c,
            ) + in_others_sum(word_frequencies.records@, c)
        &&& forall|c: char|
            #[trigger] pm_in_others_of(self.char_frequencies.records@, c) == pm_in_others_of(
                char_frequencies.records@,
                c,
            ) + pm_in_others_sum(word_frequencies.records@, c)
        &&& forall|key: Seq<char>|
            #[trigger] self_count_of(self.char_frequencies.records@, key) == self_count_of(
                char_frequencies.records@,
                key,
            )
        &&& forall|key: Seq<char>|
            #[trigger] pm_self_of(self.char_frequencies.records@, key) == pm_self_of(
                char_frequencies.records@,
                key,
            )
    }

    /// Builds the pair of tables and accumulates every word's counts onto
    /// its constituent characters: one contribution per multi-character
    /// word containing the character.
    pub fn new(mut char_frequencies: FrequencyTable, word_frequencies: FrequencyTable) -> (r:
        FrequencyTables)
        requires
            char_frequencies.wf(),
            word_frequencies.wf(),
            forall|c: char|
                in_others_of(char_frequencies.records@, c) + #[trigger] in_others_sum(
                    word_frequencies.records@,
                    c,
                ) <= u64::MAX,
            forall|c: char|
                pm_in_others_of(char_frequencies.records@, c) + #[trigger] pm_in_others_sum(
                    word_frequencies.records@,
                    c,
                ) <= u64::MAX,
        ensures
            r.merged_from(char_frequencies, word_frequencies),
    {
        char_frequencies.absorb_word_counts(&word_frequencies);
        FrequencyTables { char_frequencies, word_frequencies }
    }

    /// All records matching either surface form, in the fixed consultation
    /// order.
    pub fn get_freq(&self, traditional: &String, simplified: &String) -> (r: Vec<FrequencyRecord>)
        ensures
            r@ == self.matched(traditional@, simplified@),
    {
        let mut r: Vec<FrequencyRecord> = Vec::new();
        match self.word_frequencies.lookup(simplified) {
            Some(rec) => { r.push(copy_record(rec)) },
            None => {},
        }
        match self.word_frequencies.lookup(traditional) {
            Some(rec) => { r.push(copy_record(rec)) },
            None => {},
        }
        match self.char_frequencies.lookup(simplified) {
            Some(rec) => { r.push(copy_record(rec)) },
            None => {},
        }
        match self.char_frequencies.lookup(traditional) {
            Some(rec) => { r.push(copy_record(rec)) },
            None => {},
        }
        proof {
            assert(r@ =~= self.matched(traditional@, simplified@));
        }
        r
    }

    /// The summed own occurrence count over every matching record.
    pub fn get_count_self(&self, traditional: &String, simplified: &String) -> (r: u64)
        requires
            self.count_self_spec(traditional@, simplified@) <= u64::MAX,
        ensures
            r == self.count_self_spec(traditional@, simplified@),
    {
        let mut total: u64 = 0;
        match self.word_frequencies.lookup(simplified) {
            Some(rec) => { total = total + rec.occurrence_count },
            None => {},
        }
        match self.word_frequencies.lookup(traditional) {
            Some(rec) => { total = total + rec.occurrence_count },
            None => {},
        }
        match self.char_frequencies.lookup(simplified) {
            Some(rec) => { total = total + rec.occurrence_count },
            None => {},
        }
        match self.char_frequencies.lookup(traditional) {
            Some(rec) => { total = total + rec.occurrence_count },
            None => {},
        }
        total
    }

    /// The summed own per-million count over every matching record.
    pub fn get_count_per_million_self(&self, traditional: &String, simplified: &String) -> (r: u64)
        requires
            self.count_per_million_self_spec(traditional@, simplified@) <= u64::MAX,
        ensures
            r == self.count_per_million_self_spec(traditional@, simplified@),
    {
        let mut total: u64 = 0;
        match self.word_frequencies.lookup(simplified) {
            Some(rec) => { total = total + rec.occurrence_per_million },
            None => {},
        }
        match self.word_frequencies.lookup(traditional) {
            Some(rec) => { total = total + rec.occurrence_per_million },
            None => {},
        }
        match self.char_frequencies.lookup(simplified) {
            Some(rec) => { total = total + rec.occurrence_per_million },
            None => {},
        }
        match self.char_frequencies.lookup(traditional) {
            Some(rec) => { total = total + rec.occurrence_per_million },
            None => {},
        }
        total
    }

    /// The summed in-others count over every matching record.
    pub fn get_count_in_others(&self, traditional: &String, simplified: &String) -> (r: u64)
        requires
            self.count_in_others_spec(traditional@, simplified@) <= u64::MAX,
        ensures
            r == self.count_in_others_spec(traditional@, simplified@),
    {
        let mut total: u64 = 0;
        match self.word_frequencies.lookup(simplified) {
            Some(rec) => { total = total + rec.occurrence_in_others },
            None => {},
        }
        match self.word_frequencies.lookup(traditional) {
            Some(rec) => { total = total + rec.occurrence_in_others },
            None => {},
        }
        match self.char_frequencies.lookup(simplified) {
            Some(rec) => { total = total + rec.occurrence_in_others },
            None => {},
        }
        match self.char_frequencies.lookup(traditional) {
            Some(rec) => { total = total + rec.occurrence_in_others },
            None => {},
        }
        total
    }

    /// The summed per-million in-others count over every matching record.
    pub fn get_count_per_million_in_others(&self, traditional: &String, simplified: &String) -> (r:
        u64)
        requires
            self.count_per_million_in_others_spec(traditional@, simplified@) <= u64::MAX,
        ensures
            r == self.count_per_million_in_others_spec(traditional@, simplified@),
    {
        let mut total: u64 = 0;
        match self.word_frequencies.lookup(simplified) {
            Some(rec) => { total = total + rec.occurrence_per_million_in_others },
            None => {},
        }
        match self.word_frequencies.lookup(traditional) {
            Some(rec) => { total = total + rec.occurrence_per_million_in_others },
            None => {},
        }
        match self.char_frequencies.lookup(simplified) {
            Some(rec) => { total = total + rec.occurrence_per_million_in_others },
            None => {},
        }
        match self.char_frequencies.lookup(traditional) {
            Some(rec) => { total = total + rec.occurrence_per_million_in_others },
            None => {},
        }
        total
    }
}


/// Law: the merge is a pure function of the two corpora. Any two merges of
/// the same tables leave the same count under every character and every
/// key, and hand back the same untouched word table: the accumulation is
/// computed once and stable under re-run.
pub proof fn lemma_merge_deterministic(
    a: FrequencyTables,
    b: FrequencyTables,
    char_frequencies: FrequencyTable,
    word_frequencies: FrequencyTable,
)
    requires
        a.merged_from(char_frequencies, word_frequencies),
        b.merged_from(char_frequencies, word_frequencies),
    ensures
        a.word_frequencies == b.word_frequencies,
        a.word_frequencies == word_frequencies,
        forall|c: char|
            #[trigger] in_others_of(a.char_frequencies.records@, c) == in_others_of(
                b.char_frequencies.records@,
                c,
            ),
        forall|c: char|
            #[trigger] pm_in_others_of(a.char_frequencies.records@, c) == pm_in_others_of(
                b.char_frequencies.records@,
                c,
            ),
        forall|key: Seq<char>|
            #[trigger] self_count_of(a.char_frequencies.records@, key) == self_count_of(
                b.char_frequencies.records@,
                key,
            ),
        forall|key: Seq<char>|
            #[trigger] pm_self_of(a.char_frequencies.records@, key) == pm_self_of(
                b.char_frequencies.records@,
                key,
            ),
{
}

} // verus!
