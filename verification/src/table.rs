//! Small association tables keyed by strings or by string pairs, with
//! map semantics: lookups find the single record for a key, insertions
//! replace it.

use vstd::prelude::*;

verus! {

/// The value stored under `key`, if any: the first entry with that key.
pub open spec fn assoc_get<V>(s: Seq<(String, V)>, key: Seq<char>) -> Option<V>
    decreases s.len(),
{
    if s.len() == 0 {
        None
    } else if s[0].0@ == key {
        Some(s[0].1)
    } else {
        assoc_get(s.drop_first(), key)
    }
}

proof fn lemma_assoc_first_match<V>(s: Seq<(String, V)>, key: Seq<char>, i: int)
    requires
        0 <= i < s.len(),
        s[i].0@ == key,
        forall|j: int| 0 <= j < i ==> (#[trigger] s[j]).0@ != key,
    ensures
        assoc_get(s, key) == Some(s[i].1),
    decreases s.len(),
{
    if i > 0 {
        assert(s.drop_first()[i - 1] == s[i]);
        assert(forall|j: int| 0 <= j < i - 1 ==> (#[trigger] s.drop_first()[j]).0@ != key);
        lemma_assoc_first_match(s.drop_first(), key, i - 1);
    }
}

proof fn lemma_assoc_no_match<V>(s: Seq<(String, V)>, key: Seq<char>)
    requires
        forall|j: int| 0 <= j < s.len() ==> (#[trigger] s[j]).0@ != key,
    ensures
        assoc_get(s, key) == None::<V>,
    decreases s.len(),
{
    if s.len() > 0 {
        assert(forall|j: int|
            0 <= j < s.drop_first().len() ==> (#[trigger] s.drop_first()[j]).0@ != key);
        lemma_assoc_no_match(s.drop_first(), key);
    }
}

proof fn lemma_assoc_update<V>(s: Seq<(String, V)>, i: int, e2: (String, V), key: Seq<char>)
    requires
        0 <= i < s.len(),
        e2.0@ == s[i].0@,
        forall|j: int| 0 <= j < i ==> (#[trigger] s[j]).0@ != s[i].0@,
    ensures
        assoc_get(s.update(i, e2), key) == (if s[i].0@ == key {
            Some(e2.1)
        } else {
            assoc_get(s, key)
        }),
    decreases s.len(),
{
    if i == 0 {
        if s[0].0@ != key {
            assert(s.update(i, e2).drop_first() =~= s.drop_first());
        }
    } else {
        assert(s.update(i, e2).drop_first() =~= s.drop_first().update(i - 1, e2));
        assert(s.drop_first()[i - 1] == s[i]);
        assert(forall|j: int|
            0 <= j < i - 1 ==> (#[trigger] s.drop_first()[j]).0@ != s.drop_first()[i - 1].0@);
        lemma_assoc_update(s.drop_first(), i - 1, e2, key);
    }
}

proof fn lemma_assoc_push<V>(s: Seq<(String, V)>, e2: (String, V), key: Seq<char>)
    ensures
        assoc_get(s.push(e2), key) == (match assoc_get(s, key) {
            Some(v) => Some(v),
            None => if e2.0@ == key {
                Some(e2.1)
            } else {
                None
            },
        }),
    decreases s.len(),
{
    if s.len() == 0 {
        assert(s =~= Seq::<(String, V)>::empty());
        assert(assoc_get(s, key) == None::<V>);
        assert(s.push(e2)[0] == e2);
        assert(s.push(e2).drop_first() =~= s);
        if e2.0@ == key {
            assert(assoc_get(s.push(e2), key) == Some(e2.1));
        } else {
            assert(assoc_get(s.push(e2), key) == assoc_get(s, key));
        }
    } else {
        assert(s.push(e2).drop_first() =~= s.drop_first().push(e2));
        lemma_assoc_push(s.drop_first(), e2, key);
    }
}

/// An association table from strings to values; at most one entry per key.
pub struct StringMap<V> {
    pub entries: Vec<(String, V)>,
}

impl<V> StringMap<V> {
    /// Every key occurs at most once.
    pub open spec fn wf(self) -> bool {
        forall|i: int, j: int|
            0 <= i < j < self.entries@.len() ==> (#[trigger] self.entries@[i]).0@ != (
            #[trigger] self.entries@[j]).0@
    }

    /// The value stored under `key`, if any.
    pub open spec fn spec_get(self, key: Seq<char>) -> Option<V> {
        assoc_get(self.entries@, key)
    }

    pub fn new() -> (r: Self)
        ensures
            r.wf(),
            forall|key: Seq<char>| #[trigger] r.spec_get(key) == None::<V>,
    {
        let r = StringMap { entries: Vec::new() };
        proof {
            assert forall|key: Seq<char>| #[trigger] r.spec_get(key) == None::<V> by {
                lemma_assoc_no_match(r.entries@, key);
            }
        }
        r
    }

    fn find_index(&self, key: &String) -> (r: Option<usize>)
        ensures
            match r {
                Some(i) => i < self.entries@.len() && self.entries@[i as int].0@ == key@ && forall|
                    j: int,
                |
                    0 <= j < i ==> (#[trigger] self.entries@[j]).0@ != key@,
                None => self.spec_get(key@) == None::<V>,
            },
    {
        let mut i: usize = 0;
        while i < self.entries.len()
            invariant
                i <= self.entries@.len(),
                forall|j: int| 0 <= j < i ==> (#[trigger] self.entries@[j]).0@ != key@,
            decreases self.entries@.len() - i,
        {
            if self.entries[i].0.eq(key) {
                return Some(i);
            }
            i = i + 1;
        }
        proof {
            lemma_assoc_no_match(self.entries@, key@);
        }
        None
    }

    /// Looks a key up.
    pub fn get<'a>(&'a self, key: &String) -> (r: Option<&'a V>)
        ensures
            match r {
                Some(v) => self.spec_get(key@) == Some(*v),
                None => self.spec_get(key@) == None::<V>,
            },
    {
        let found = self.find_index(key);
        match found {
            Some(i) => {
                proof {
                    lemma_assoc_first_match(self.entries@, key@, i as int);
                }
                Some(&self.entries[i].1)
            },
            None => None,
        }
    }

    /// Whether the table holds the key.
    pub fn contains_key(&self, key: &String) -> (r: bool)
        ensures
            r == (self.spec_get(key@) is Some),
    {
        let found = self.get(key);
        match found {
            Some(_) => true,
            None => false,
        }
    }

    /// Inserts a value, replacing any earlier value under the same key: the
    /// latest insertion wins.
    pub fn insert(&mut self, key: String, value: V)
        requires
            old(self).wf(),
        ensures
            final(self).wf(),
            final(self).spec_get(key@) == Some(value),
            forall|k2: Seq<char>|
                k2 != key@ ==> #[trigger] final(self).spec_get(k2) == old(self).spec_get(k2),
    {
        let found = self.find_index(&key);
        let ghost e2 = (key, value);
        match found {
            Some(i) => {
                let ghost old_entries = self.entries@;
                let ghost old_key = self.entries@[i as int].0@;
                self.entries[i] = (key, value);
                proof {
                    assert(self.entries@ =~= old_entries.update(i as int, e2));
                    assert forall|k2: Seq<char>| true implies #[trigger] assoc_get(
                        self.entries@,
                        k2,
                    ) == (if old_key == k2 {
                        Some(e2.1)
                    } else {
                        assoc_get(old_entries, k2)
                    }) by {
                        lemma_assoc_update(old_entries, i as int, e2, k2);
                    }
                }
            },
            None => {
                let ghost old_entries = self.entries@;
                self.entries.push((key, value));
                proof {
                    assert forall|k2: Seq<char>| true implies #[trigger] assoc_get(
                        self.entries@,
                        k2,
                    ) == (match assoc_get(old_entries, k2) {
                        Some(v) => Some(v),
                        None => if e2.0@ == k2 {
                            Some(e2.1)
                        } else {
                            None
                        },
                    }) by {
                        lemma_assoc_push(old_entries, e2, k2);
                    }
                    assert forall|i2: int, j2: int|
                        0 <= i2 < j2 < self.entries@.len() implies (#[trigger] self.entries@[
                        i2]).0@ != (#[trigger] self.entries@[j2]).0@ by {
                        if j2 == self.entries@.len() - 1 {
                            if self.entries@[i2].0@ == e2.0@ {
                                lemma_assoc_first_match(old_entries, e2.0@, i2);
                            }
                        }
                    }
                }
            },
        }
    }
}

/// The value stored under the key pair, if any: the first entry with both
/// keys equal.
pub open spec fn assoc2_get<V>(s: Seq<(String, String, V)>, k1: Seq<char>, k2: Seq<char>) -> Option<
    V,
>
    decreases s.len(),
{
    if s.len() == 0 {
        None
    } else if s[0].0@ == k1 && s[0].1@ == k2 {
        Some(s[0].2)
    } else {
        assoc2_get(s.drop_first(), k1, k2)
    }
}

proof fn lemma_assoc2_first_match<V>(s: Seq<(String, String, V)>, k1: Seq<char>, k2: Seq<char>, i:
    int)
    requires
        0 <= i < s.len(),
        s[i].0@ == k1 && s[i].1@ == k2,
        forall|j: int| 0 <= j < i ==> !((#[trigger] s[j]).0@ == k1 && s[j].1@ == k2),
    ensures
        assoc2_get(s, k1, k2) == Some(s[i].2),
    decreases s.len(),
{
    if i > 0 {
        assert(s.drop_first()[i - 1] == s[i]);
        assert(forall|j: int|
            0 <= j < i - 1 ==> !((#[trigger] s.drop_first()[j]).0@ == k1 && s.drop_first()[j].1@
                == k2));
        lemma_assoc2_first_match(s.drop_first(), k1, k2, i - 1);
    }
}

proof fn lemma_assoc2_no_match<V>(s: Seq<(String, String, V)>, k1: Seq<char>, k2: Seq<char>)
    requires
        forall|j: int| 0 <= j < s.len() ==> !((#[trigger] s[j]).0@ == k1 && s[j].1@ == k2),
    ensures
        assoc2_get(s, k1, k2) == None::<V>,
    decreases s.len(),
{
    if s.len() > 0 {
        assert(forall|j: int|
            0 <= j < s.drop_first().len() ==> !((#[trigger] s.drop_first()[j]).0@ == k1
                && s.drop_first()[j].1@ == k2));
        lemma_assoc2_no_match(s.drop_first(), k1, k2);
    }
}

proof fn lemma_assoc2_update<V>(
    s: Seq<(String, String, V)>,
    i: int,
    e2: (String, String, V),
    k1: Seq<char>,
    k2: Seq<char>,
)
    requires
        0 <= i < s.len(),
        e2.0@ == s[i].0@ && e2.1@ == s[i].1@,
        forall|j: int| 0 <= j < i ==> !((#[trigger] s[j]).0@ == s[i].0@ && s[j].1@ == s[i].1@),
    ensures
        assoc2_get(s.update(i, e2), k1, k2) == (if s[i].0@ == k1 && s[i].1@ == k2 {
            Some(e2.2)
        } else {
            assoc2_get(s, k1, k2)
        }),
    decreases s.len(),
{
    if i == 0 {
        if !(s[0].0@ == k1 && s[0].1@ == k2) {
            assert(s.update(i, e2).drop_first() =~= s.drop_first());
        }
    } else {
        assert(s.update(i, e2).drop_first() =~= s.drop_first().update(i - 1, e2));
        assert(s.drop_first()[i - 1] == s[i]);
        assert(forall|j: int|
            0 <= j < i - 1 ==> !((#[trigger] s.drop_first()[j]).0@ == s.drop_first()[i - 1].0@
                && s.drop_first()[j].1@ == s.drop_first()[i - 1].1@));
        lemma_assoc2_update(s.drop_first(), i - 1, e2, k1, k2);
    }
}

proof fn lemma_assoc2_push<V>(
    s: Seq<(String, String, V)>,
    e2: (String, String, V),
    k1: Seq<char>,
    k2: Seq<char>,
)
    ensures
        assoc2_get(s.push(e2), k1, k2) == (match assoc2_get(s, k1, k2) {
            Some(v) => Some(v),
            None => if e2.0@ == k1 && e2.1@ == k2 {
                Some(e2.2)
            } else {
                None
            },
        }),
    decreases s.len(),
{
    if s.len() == 0 {
        assert(s =~= Seq::<(String, String, V)>::empty());
        assert(assoc2_get(s, k1, k2) == None::<V>);
        assert(s.push(e2)[0] == e2);
        assert(s.push(e2).drop_first() =~= s);
        if e2.0@ == k1 && e2.1@ == k2 {
            assert(assoc2_get(s.push(e2), k1, k2) == Some(e2.2));
        } else {
            assert(assoc2_get(s.push(e2), k1, k2) == assoc2_get(s, k1, k2));
        }
    } else {
        assert(s.push(e2).drop_first() =~= s.drop_first().push(e2));
        lemma_assoc2_push(s.drop_first(), e2, k1, k2);
    }
}

/// An association table keyed by a pair of strings; at most one entry per
/// key pair.
pub struct PairMap<V> {
    pub entries: Vec<(String, String, V)>,
}

impl<V> PairMap<V> {
    /// Every key pair occurs at most once.
    pub open spec fn wf(self) -> bool {
        forall|i: int, j: int|
            0 <= i < j < self.entries@.len() ==> !((#[trigger] self.entries@[i]).0@ == (
            #[trigger] self.entries@[j]).0@ && self.entries@[i].1@ == self.entries@[j].1@)
    }

    /// The value stored under the key pair, if any.
    pub open spec fn spec_get(self, k1: Seq<char>, k2: Seq<char>) -> Option<V> {
        assoc2_get(self.entries@, k1, k2)
    }

    pub fn new() -> (r: Self)
        ensures
            r.wf(),
            forall|k1: Seq<char>, k2: Seq<char>| #[trigger] r.spec_get(k1, k2) == None::<V>,
    {
        let r = PairMap { entries: Vec::new() };
        proof {
            assert forall|k1: Seq<char>, k2: Seq<char>| #[trigger] r.spec_get(k1, k2)
                == None::<V> by {
                lemma_assoc2_no_match(r.entries@, k1, k2);
            }
        }
        r
    }

    fn find_index(&self, k1: &String, k2: &String) -> (r: Option<usize>)
        ensures
            match r {
                Some(i) => i < self.entries@.len() && self.entries@[i as int].0@ == k1@
                    && self.entries@[i as int].1@ == k2@ && forall|j: int|
                    0 <= j < i ==> !((#[trigger] self.entries@[j]).0@ == k1@
                        && self.entries@[j].1@ == k2@),
                None => self.spec_get(k1@, k2@) == None::<V>,
            },
    {
        let mut i: usize = 0;
        while i < self.entries.len()
            invariant
                i <= self.entries@.len(),
                forall|j: int|
                    0 <= j < i ==> !((#[trigger] self.entries@[j]).0@ == k1@
                        && self.entries@[j].1@ == k2@),
            decreases self.entries@.len() - i,
        {
            if self.entries[i].0.eq(k1) && self.entries[i].1.eq(k2) {
                return Some(i);
            }
            i = i + 1;
        }
        proof {
            lemma_assoc2_no_match(self.entries@, k1@, k2@);
        }
        None
    }

    /// Looks a key pair up.
    pub fn get<'a>(&'a self, k1: &String, k2: &String) -> (r: Option<&'a V>)
        ensures
            match r {
                Some(v) => self.spec_get(k1@, k2@) == Some(*v),
                None => self.spec_get(k1@, k2@) == None::<V>,
            },
    {
        let found = self.find_index(k1, k2);
        match found {
            Some(i) => {
                proof {
                    lemma_assoc2_first_match(self.entries@, k1@, k2@, i as int);
                }
                Some(&self.entries[i].2)
            },
            None => None,
        }
    }

    /// Inserts a value, replacing any earlier value under the same key
    /// pair: the latest insertion wins.
    pub fn insert(&mut self, k1: String, k2: String, value: V)
        requires
            old(self).wf(),
        ensures
            final(self).wf(),
            final(self).spec_get(k1@, k2@) == Some(value),
            forall|j1: Seq<char>, j2: Seq<char>|
                !(j1 == k1@ && j2 == k2@) ==> #[trigger] final(self).spec_get(j1, j2) == old(
                    self,
                ).spec_get(j1, j2),
    {
        let found = self.find_index(&k1, &k2);
        let ghost e2 = (k1, k2, value);
        match found {
            Some(i) => {
                let ghost old_entries = self.entries@;
                let ghost ok1 = self.entries@[i as int].0@;
                let ghost ok2 = self.entries@[i as int].1@;
                self.entries[i] = (k1, k2, value);
                proof {
                    assert(self.entries@ =~= old_entries.update(i as int, e2));
                    assert forall|j1: Seq<char>, j2: Seq<char>| true implies #[trigger] assoc2_get(
                        self.entries@,
                        j1,
                        j2,
                    ) == (if ok1 == j1 && ok2 == j2 {
                        Some(e2.2)
                    } else {
                        assoc2_get(old_entries, j1, j2)
                    }) by {
                        lemma_assoc2_update(old_entries, i as int, e2, j1, j2);
                    }
                }
            },
            None => {
                let ghost old_entries = self.entries@;
                self.entries.push((k1, k2, value));
                proof {
                    assert forall|j1: Seq<char>, j2: Seq<char>| true implies #[trigger] assoc2_get(
                        self.entries@,
                        j1,
                        j2,
                    ) == (match assoc2_get(old_entries, j1, j2) {
                        Some(v) => Some(v),
                        None => if e2.0@ == j1 && e2.1@ == j2 {
                            Some(e2.2)
                        } else {
                            None
                        },
                    }) by {
                        lemma_assoc2_push(old_entries, e2, j1, j2);
                    }
                    assert forall|i2: int, j2: int|
                        0 <= i2 < j2 < self.entries@.len() implies !((#[trigger] self.entries@[
                        i2]).0@ == (#[trigger] self.entries@[j2]).0@ && self.entries@[i2].1@
                        == self.entries@[j2].1@) by {
                        if j2 == self.entries@.len() - 1 {
                            if self.entries@[i2].0@ == e2.0@ && self.entries@[i2].1@ == e2.1@ {
                                lemma_assoc2_first_match(old_entries, e2.0@, e2.1@, i2);
                            }
                        }
                    }
                }
            },
        }
    }
}

} // verus!
