//! Character-level text utilities: whitespace and digit classification,
//! character filters, and order-preserving deduplication.

use vstd::prelude::*;
use vstd::string::StrSliceExecFns;

verus! {

/// The Unicode `White_Space` code points, as `char::is_whitespace` documents
/// them.
pub open spec fn is_whitespace_char(c: char) -> bool {
    ||| c == ' '
    ||| c == '\t'
    ||| c == '\n'
    ||| c == '\u{b}'
    ||| c == '\u{c}'
    ||| c == '\r'
    ||| c == '\u{85}'
    ||| c == '\u{a0}'
    ||| c == '\u{1680}'
    ||| ('\u{2000}' <= c && c <= '\u{200a}')
    ||| c == '\u{2028}'
    ||| c == '\u{2029}'
    ||| c == '\u{202f}'
    ||| c == '\u{205f}'
    ||| c == '\u{3000}'
}

pub fn is_whitespace(c: char) -> (r: bool)
    ensures
        r == is_whitespace_char(c),
{
    c == ' ' || c == '\t' || c == '\n' || c == '\u{b}' || c == '\u{c}' || c == '\r' || c
        == '\u{85}' || c == '\u{a0}' || c == '\u{1680}' || ('\u{2000}' <= c && c <= '\u{200a}') || c
        == '\u{2028}' || c == '\u{2029}' || c == '\u{202f}' || c == '\u{205f}' || c == '\u{3000}'
}

/// Whether a character counts as a digit when pronunciation strings are
/// stripped of tone numbers.
pub uninterp spec fn numeric_char(c: char) -> bool;

/// Relies on `char::is_numeric`: membership in the Unicode numeric general
/// categories, a fixed property of the character alone.
#[verifier::external_body]
pub fn is_numeric(c: char) -> (r: bool)
    ensures
        r == numeric_char(c),
{
    c.is_numeric()
}

/// The characters of a string, in order.
pub fn str_chars(s: &str) -> (r: Vec<char>)
    ensures
        r@ == s@,
{
    let n: usize = s.unicode_len();
    let mut r: Vec<char> = Vec::new();
    let mut i: usize = 0;
    while i < n
        invariant
            n == s@.len(),
            i <= n,
            r@ == s@.take(i as int),
        decreases n - i,
    {
        let c = s.get_char(i);
        r.push(c);
        proof {
            assert(s@.take(i + 1) =~= s@.take(i as int).push(s@[i as int]));
        }
        i = i + 1;
    }
    proof {
        assert(s@.take(n as int) =~= s@);
    }
    r
}

/// Relies on `String: FromIterator<char>`: collecting characters yields the
/// string made of exactly those characters, in order.
#[verifier::external_body]
pub fn chars_to_string(v: &Vec<char>) -> (r: String)
    ensures
        r@ == v@,
{
    v.iter().collect()
}

/// A string with all whitespace characters removed.
pub open spec fn strip_whitespace(s: Seq<char>) -> Seq<char> {
    s.filter(|c: char| !is_whitespace_char(c))
}

/// A string with all numeric characters removed.
pub open spec fn strip_numeric(s: Seq<char>) -> Seq<char> {
    s.filter(|c: char| !numeric_char(c))
}

pub fn remove_whitespace(s: &str) -> (r: String)
    ensures
        r@ == strip_whitespace(s@),
{
    broadcast use vstd::seq_lib::group_filter_ensures;

    let chars = str_chars(s);
    let mut out: Vec<char> = Vec::new();
    let mut i: usize = 0;
    while i < chars.len()
        invariant
            chars@ == s@,
            i <= chars@.len(),
            out@ == s@.take(i as int).filter(|c: char| !is_whitespace_char(c)),
        decreases chars@.len() - i,
    {
        let c = chars[i];
        proof {
            assert(s@.take(i + 1) =~= s@.take(i as int).push(s@[i as int]));
            s@.take(i as int).lemma_filter_push(s@[i as int], |c: char| !is_whitespace_char(c));
        }
        if !is_whitespace(c) {
            out.push(c);
        }
        i = i + 1;
    }
    proof {
        assert(s@.take(chars@.len() as int) =~= s@);
    }
    chars_to_string(&out)
}

pub fn remove_numbers(s: &str) -> (r: String)
    ensures
        r@ == strip_numeric(s@),
{
    broadcast use vstd::seq_lib::group_filter_ensures;

    let chars = str_chars(s);
    let mut out: Vec<char> = Vec::new();
    let mut i: usize = 0;
    while i < chars.len()
        invariant
            chars@ == s@,
            i <= chars@.len(),
            out@ == s@.take(i as int).filter(|c: char| !numeric_char(c)),
        decreases chars@.len() - i,
    {
        let c = chars[i];
        proof {
            assert(s@.take(i + 1) =~= s@.take(i as int).push(s@[i as int]));
            s@.take(i as int).lemma_filter_push(s@[i as int], |c: char| !numeric_char(c));
        }
        if !is_numeric(c) {
            out.push(c);
        }
        i = i + 1;
    }
    proof {
        assert(s@.take(chars@.len() as int) =~= s@);
    }
    chars_to_string(&out)
}

/// Every element of a filtered sequence comes from the original sequence.
proof fn lemma_filter_elements_from<A>(s: Seq<A>, p: spec_fn(A) -> bool)
    ensures
        forall|i: int|
            0 <= i < s.filter(p).len() ==> exists|j: int|
                0 <= j < s.len() && s[j] == #[trigger] s.filter(p)[i],
    decreases s.len(),
{
    reveal(Seq::filter);
    if s.len() != 0 {
        lemma_filter_elements_from(s.drop_last(), p);
        assert forall|i: int| 0 <= i < s.filter(p).len() implies exists|j: int|
            0 <= j < s.len() && s[j] == #[trigger] s.filter(p)[i] by {
            if i < s.drop_last().filter(p).len() {
                let j = choose|j: int|
                    0 <= j < s.drop_last().len() && s.drop_last()[j] == s.drop_last().filter(p)[i];
                assert(s[j] == s.filter(p)[i]);
            } else {
                assert(s[s.len() - 1] == s.filter(p)[i]);
            }
        }
    }
}

/// Filtering a sequence whose elements all satisfy the predicate leaves it
/// unchanged.
proof fn lemma_filter_all<A>(s: Seq<A>, p: spec_fn(A) -> bool)
    requires
        forall|i: int| 0 <= i < s.len() ==> p(#[trigger] s[i]),
    ensures
        s.filter(p) == s,
    decreases s.len(),
{
    reveal(Seq::filter);
    if s.len() != 0 {
        lemma_filter_all(s.drop_last(), p);
        assert(s.filter(p) =~= s);
    }
}

/// Stripping whitespace and digits is idempotent: a second pass over an
/// already-stripped string changes nothing.
pub proof fn lemma_strip_idempotent(s: Seq<char>)
    ensures
        strip_whitespace(strip_whitespace(strip_numeric(s))) == strip_whitespace(strip_numeric(s)),
        strip_numeric(strip_whitespace(strip_numeric(s))) == strip_whitespace(strip_numeric(s)),
        strip_whitespace(strip_numeric(strip_whitespace(strip_numeric(s)))) == strip_whitespace(
            strip_numeric(s),
        ),
{
    broadcast use vstd::seq_lib::group_filter_ensures;

    let pn = |c: char| !numeric_char(c);
    let pw = |c: char| !is_whitespace_char(c);
    let v = s.filter(pn).filter(pw);
    assert forall|i: int| 0 <= i < v.len() implies pw(#[trigger] v[i]) by {
        s.filter(pn).lemma_filter_pred(pw, i);
    }
    lemma_filter_elements_from(s.filter(pn), pw);
    assert forall|i: int| 0 <= i < v.len() implies pn(#[trigger] v[i]) by {
        let j = choose|j: int| 0 <= j < s.filter(pn).len() && s.filter(pn)[j] == v[i];
        s.lemma_filter_pred(pn, j);
    }
    lemma_filter_all(v, pw);
    lemma_filter_all(v, pn);
}

/// The lowercase form of a string.
pub uninterp spec fn lower_of(s: Seq<char>) -> Seq<char>;

/// Relies on `str::to_lowercase`: the result depends on the characters alone.
#[verifier::external_body]
pub fn to_lowercase(s: &str) -> (r: String)
    ensures
        r@ == lower_of(s@),
{
    s.to_lowercase()
}

/// The pieces of `s` between occurrences of the separator `sep`: always at
/// least one piece, and one more piece than there are separators.
pub open spec fn spec_split(s: Seq<char>, sep: char) -> Seq<Seq<char>>
    decreases s.len(),
{
    if s.len() == 0 {
        seq![Seq::empty()]
    } else if s[0] == sep {
        seq![Seq::<char>::empty()] + spec_split(s.drop_first(), sep)
    } else {
        let rest = spec_split(s.drop_first(), sep);
        seq![seq![s[0]] + rest[0]] + rest.drop_first()
    }
}

pub proof fn lemma_split_nonempty(s: Seq<char>, sep: char)
    ensures
        spec_split(s, sep).len() >= 1,
    decreases s.len(),
{
    if s.len() != 0 {
        lemma_split_nonempty(s.drop_first(), sep);
    }
}

/// How one more character extends a split: a separator opens a new empty
/// piece, any other character extends the last piece.
proof fn lemma_split_push(s: Seq<char>, sep: char, c: char)
    ensures
        c == sep ==> spec_split(s.push(c), sep) == spec_split(s, sep).push(Seq::empty()),
        c != sep ==> spec_split(s.push(c), sep) == spec_split(s, sep).update(
            spec_split(s, sep).len() - 1,
            spec_split(s, sep).last().push(c),
        ),
    decreases s.len(),
{
    lemma_split_nonempty(s, sep);
    if s.len() == 0 {
        assert(s.push(c).drop_first() =~= Seq::empty());
        assert(spec_split(Seq::<char>::empty(), sep) == seq![Seq::<char>::empty()]);
        if c == sep {
            assert(spec_split(s.push(c), sep) =~~= spec_split(s, sep).push(Seq::empty()));
        } else {
            assert(spec_split(s.push(c), sep) =~~= spec_split(s, sep).update(
                0,
                spec_split(s, sep).last().push(c),
            ));
        }
    } else {
        lemma_split_push(s.drop_first(), sep, c);
        lemma_split_nonempty(s.drop_first(), sep);
        assert(s.push(c).drop_first() =~= s.drop_first().push(c));
        assert(s.push(c)[0] == s[0]);
        if c == sep {
            if s[0] == sep {
                assert(spec_split(s.push(c), sep) =~~= spec_split(s, sep).push(Seq::empty()));
            } else {
                assert(spec_split(s.drop_first().push(c), sep)[0] == spec_split(
                    s.drop_first(),
                    sep,
                )[0]);
                assert(spec_split(s.push(c), sep) =~~= spec_split(s, sep).push(Seq::empty()));
            }
        } else {
            if s[0] == sep {
                assert(spec_split(s.push(c), sep) =~~= spec_split(s, sep).update(
                    spec_split(s, sep).len() - 1,
                    spec_split(s, sep).last().push(c),
                ));
            } else {
                let rest = spec_split(s.drop_first(), sep);
                if rest.len() == 1 {
                    assert(spec_split(s.drop_first().push(c), sep)[0] == rest[0].push(c));
                    assert(spec_split(s.push(c), sep) =~~= spec_split(s, sep).update(
                        spec_split(s, sep).len() - 1,
                        spec_split(s, sep).last().push(c),
                    ));
                } else {
                    assert(spec_split(s.drop_first().push(c), sep)[0] == rest[0]);
                    assert(spec_split(s.push(c), sep) =~~= spec_split(s, sep).update(
                        spec_split(s, sep).len() - 1,
                        spec_split(s, sep).last().push(c),
                    ));
                }
            }
        }
    }
}

/// Splits a string at every occurrence of `sep`, as the separator-split of
/// its characters.
pub fn split_string(s: &str, sep: char) -> (r: Vec<String>)
    ensures
        views_of(r@) == spec_split(s@, sep),
        r@.len() >= 1,
{
    let chars = str_chars(s);
    let mut parts: Vec<String> = Vec::new();
    let mut cur: Vec<char> = Vec::new();
    let mut i: usize = 0;
    while i < chars.len()
        invariant
            chars@ == s@,
            i <= s@.len(),
            views_of(parts@).push(cur@) == spec_split(s@.take(i as int), sep),
        decreases s@.len() - i,
    {
        let c = chars[i];
        proof {
            assert(s@.take(i + 1) =~= s@.take(i as int).push(s@[i as int]));
            lemma_split_push(s@.take(i as int), sep, s@[i as int]);
            lemma_split_nonempty(s@.take(i as int), sep);
        }
        if c == sep {
            let piece = chars_to_string(&cur);
            parts.push(piece);
            cur = Vec::new();
            proof {
                assert(views_of(parts@).push(cur@) =~~= spec_split(s@.take(i + 1), sep));
            }
        } else {
            cur.push(c);
            proof {
                assert(spec_split(s@.take(i as int), sep).update(
                    spec_split(s@.take(i as int), sep).len() - 1,
                    spec_split(s@.take(i as int), sep).last().push(s@[i as int]),
                ) =~~= views_of(parts@).push(cur@));
            }
        }
        i = i + 1;
    }
    let piece = chars_to_string(&cur);
    parts.push(piece);
    proof {
        assert(s@.take(s@.len() as int) =~= s@);
        assert(views_of(parts@) =~~= spec_split(s@, sep));
        lemma_split_nonempty(s@, sep);
    }
    parts
}

/// A string with every whitespace character replaced by a plain space.
pub open spec fn normalize_whitespace(s: Seq<char>) -> Seq<char> {
    Seq::new(s.len(), |i: int| if is_whitespace_char(s[i]) { ' ' } else { s[i] })
}

/// The whitespace-separated tokens of a string: maximal runs of
/// non-whitespace characters, in order.
pub open spec fn spec_tokens(s: Seq<char>) -> Seq<Seq<char>> {
    spec_split(normalize_whitespace(s), ' ').filter(|t: Seq<char>| t.len() != 0)
}

/// Splits a string into its whitespace-separated tokens.
pub fn split_whitespace_str(s: &str) -> (r: Vec<String>)
    ensures
        views_of(r@) == spec_tokens(s@),
{
    broadcast use vstd::seq_lib::group_filter_ensures;

    let chars = str_chars(s);
    let mut norm: Vec<char> = Vec::new();
    let mut i: usize = 0;
    while i < chars.len()
        invariant
            chars@ == s@,
            i <= s@.len(),
            norm@ == normalize_whitespace(s@.take(i as int)),
        decreases s@.len() - i,
    {
        let c = chars[i];
        if is_whitespace(c) {
            norm.push(' ');
        } else {
            norm.push(c);
        }
        proof {
            assert(norm@ =~= normalize_whitespace(s@.take(i + 1)));
        }
        i = i + 1;
    }
    proof {
        assert(s@.take(s@.len() as int) =~= s@);
        assert(norm@ == normalize_whitespace(s@));
    }
    let norm_s = chars_to_string(&norm);
    let parts = split_string(norm_s.as_str(), ' ');
    let ghost pieces = spec_split(normalize_whitespace(s@), ' ');
    let mut r: Vec<String> = Vec::new();
    let mut j: usize = 0;
    while j < parts.len()
        invariant
            views_of(parts@) == pieces,
            j <= parts@.len(),
            views_of(r@) == pieces.take(j as int).filter(|t: Seq<char>| t.len() != 0),
        decreases parts@.len() - j,
    {
        proof {
            assert(pieces.take(j + 1) =~= pieces.take(j as int).push(pieces[j as int]));
            pieces.take(j as int).lemma_filter_push(
                pieces[j as int],
                |t: Seq<char>| t.len() != 0,
            );
            assert(parts@[j as int]@ == pieces[j as int]);
        }
        if !parts[j].as_str().is_empty() {
            let piece = parts[j].clone();
            r.push(piece);
            proof {
                assert(views_of(r@) =~= pieces.take(j + 1).filter(|t: Seq<char>| t.len() != 0));
            }
        } else {
            proof {
                assert(views_of(r@) =~= pieces.take(j + 1).filter(|t: Seq<char>| t.len() != 0));
            }
        }
        j = j + 1;
    }
    proof {
        assert(pieces.take(pieces.len() as int) =~= pieces);
    }
    r
}

/// A string without its leading whitespace.
pub open spec fn trim_start_spec(s: Seq<char>) -> Seq<char>
    decreases s.len(),
{
    if s.len() > 0 && is_whitespace_char(s[0]) {
        trim_start_spec(s.drop_first())
    } else {
        s
    }
}

/// A string without its trailing whitespace.
pub open spec fn trim_end_spec(s: Seq<char>) -> Seq<char>
    decreases s.len(),
{
    if s.len() > 0 && is_whitespace_char(s.last()) {
        trim_end_spec(s.drop_last())
    } else {
        s
    }
}

/// A string without its leading and trailing whitespace.
pub open spec fn trim_spec(s: Seq<char>) -> Seq<char> {
    trim_end_spec(trim_start_spec(s))
}

/// Trims leading and trailing whitespace from a string.
pub fn trim_str(s: &str) -> (r: String)
    ensures
        r@ == trim_spec(s@),
{
    let chars = str_chars(s);
    let n = chars.len();
    let mut start: usize = 0;
    proof {
        assert(s@.skip(0) =~= s@);
    }
    while start < n && is_whitespace(chars[start])
        invariant
            chars@ == s@,
            n == s@.len(),
            start <= n,
            trim_start_spec(s@) == trim_start_spec(s@.skip(start as int)),
        decreases n - start,
    {
        proof {
            assert(s@.skip(start as int).drop_first() =~= s@.skip(start + 1));
            assert(s@.skip(start as int)[0] == s@[start as int]);
        }
        start = start + 1;
    }
    let ghost t = s@.skip(start as int);
    proof {
        if start < n {
            assert(t[0] == s@[start as int]);
        }
        assert(trim_start_spec(t) == t);
    }
    let mut end: usize = n;
    proof {
        assert(t.take(n - start) =~= t);
    }
    while end > start && is_whitespace(chars[end - 1])
        invariant
            chars@ == s@,
            n == s@.len(),
            start <= end <= n,
            t == s@.skip(start as int),
            trim_end_spec(t) == trim_end_spec(t.take(end - start)),
        decreases end,
    {
        proof {
            assert(t.take(end - start).drop_last() =~= t.take(end - 1 - start));
            assert(t.take(end - start).last() == s@[end - 1]);
        }
        end = end - 1;
    }
    proof {
        if end > start {
            assert(t.take(end - start).last() == s@[end - 1]);
        }
        assert(trim_end_spec(t.take(end - start)) == t.take(end - start));
    }
    let mut out: Vec<char> = Vec::new();
    let mut i: usize = start;
    while i < end
        invariant
            chars@ == s@,
            start <= i <= end <= n,
            n == s@.len(),
            out@ == s@.subrange(start as int, i as int),
        decreases end - i,
    {
        out.push(chars[i]);
        proof {
            assert(s@.subrange(start as int, i + 1) =~= s@.subrange(start as int, i as int).push(
                s@[i as int],
            ));
        }
        i = i + 1;
    }
    proof {
        assert(s@.subrange(start as int, end as int) =~= t.take(end - start));
    }
    chars_to_string(&out)
}

/// The views of a sequence of strings.
pub open spec fn views_of(v: Seq<String>) -> Seq<Seq<char>> {
    v.map_values(|s: String| s@)
}

/// The first occurrences of the input strings, in first-seen order: the
/// result keeps exactly one copy of each distinct string, the earliest one.
pub open spec fn dedup_views(v: Seq<Seq<char>>) -> Seq<Seq<char>>
    decreases v.len(),
{
    if v.len() == 0 {
        Seq::empty()
    } else {
        let prefix = dedup_views(v.drop_last());
        if prefix.contains(v.last()) {
            prefix
        } else {
            prefix.push(v.last())
        }
    }
}

/// `dedup_views` never holds the same string twice.
pub proof fn lemma_dedup_views_no_duplicates(v: Seq<Seq<char>>)
    ensures
        dedup_views(v).no_duplicates(),
        forall|i: int|
            0 <= i < dedup_views(v).len() ==> v.contains(#[trigger] dedup_views(v)[i]),
        forall|i: int| 0 <= i < v.len() ==> dedup_views(v).contains(#[trigger] v[i]),
    decreases v.len(),
{
    if v.len() != 0 {
        lemma_dedup_views_no_duplicates(v.drop_last());
        let prefix = dedup_views(v.drop_last());
        assert forall|i: int|
            0 <= i < dedup_views(v).len() implies v.contains(#[trigger] dedup_views(v)[i]) by {
            if i < prefix.len() {
                let j = choose|j: int| 0 <= j < v.drop_last().len() && v.drop_last()[j] == prefix[i];
                assert(v[j] == prefix[i]);
            } else {
                assert(v[v.len() - 1] == dedup_views(v)[i]);
            }
        }
        assert forall|i: int| 0 <= i < v.len() implies dedup_views(v).contains(#[trigger] v[i]) by {
            if i < v.len() - 1 {
                assert(v.drop_last()[i] == v[i]);
                assert(dedup_views(v.drop_last()).contains(v[i]));
                let j = choose|j: int| 0 <= j < prefix.len() && prefix[j] == v[i];
                assert(dedup_views(v)[j] == v[i]);
            } else {
                if prefix.contains(v.last()) {
                    assert(dedup_views(v) == prefix);
                } else {
                    assert(dedup_views(v) == prefix.push(v.last()));
                    assert(dedup_views(v)[prefix.len() as int] == v.last());
                }
                assert(dedup_views(v).contains(v.last()));
                assert(v[i] == v.last());
            }
        }
    }
}

/// Whether a vector of strings holds the string `x`.
pub fn contains_string(v: &Vec<String>, x: &String) -> (r: bool)
    ensures
        r == views_of(v@).contains(x@),
{
    let mut i: usize = 0;
    while i < v.len()
        invariant
            i <= v@.len(),
            forall|j: int| 0 <= j < i ==> views_of(v@)[j] != x@,
        decreases v@.len() - i,
    {
        if v[i].eq(x) {
            assert(views_of(v@)[i as int] == x@);
            return true;
        }
        i = i + 1;
    }
    false
}

/// Keeps the first occurrence of each distinct string and drops the rest,
/// preserving first-seen order.
pub fn filter_duplicates(input: Vec<String>) -> (result: Vec<String>)
    ensures
        views_of(result@) == dedup_views(views_of(input@)),
        views_of(result@).no_duplicates(),
{
    let mut result: Vec<String> = Vec::new();
    let mut i: usize = 0;
    while i < input.len()
        invariant
            i <= input@.len(),
            views_of(result@) == dedup_views(views_of(input@).take(i as int)),
        decreases input@.len() - i,
    {
        proof {
            assert(views_of(input@).take(i + 1).drop_last() =~= views_of(input@).take(i as int));
            assert(views_of(input@).take(i + 1).last() == input@[i as int]@);
        }
        let present = contains_string(&result, &input[i]);
        proof {
            lemma_dedup_views_no_duplicates(views_of(input@).take(i as int));
        }
        if !present {
            let s = input[i].clone();
            result.push(s);
            proof {
                assert(views_of(result@) =~= dedup_views(views_of(input@).take(i + 1)));
            }
        } else {
            proof {
                assert(views_of(result@) =~= dedup_views(views_of(input@).take(i + 1)));
            }
        }
        i = i + 1;
    }
    proof {
        assert(views_of(input@).take(input@.len() as int) =~= views_of(input@));
        lemma_dedup_views_no_duplicates(views_of(input@));
    }
    result
}


/// The first position at or after `from` holding the character `c`, if any.
pub open spec fn first_index_from(s: Seq<char>, c: char, from: int) -> Option<int>
    decreases s.len() - from,
{
    if !(0 <= from <= s.len()) {
        None
    } else if from == s.len() {
        None
    } else if s[from] == c {
        Some(from)
    } else {
        first_index_from(s, c, from + 1)
    }
}

/// What `first_index_from` finds: the earliest occurrence at or after
/// `from`, or nothing when there is none.
pub proof fn lemma_first_index_from(s: Seq<char>, c: char, from: int)
    requires
        0 <= from <= s.len(),
    ensures
        match first_index_from(s, c, from) {
            Some(j) => from <= j < s.len() && s[j] == c && forall|m: int|
                from <= m < j ==> s[m] != c,
            None => forall|m: int| from <= m < s.len() ==> s[m] != c,
        },
    decreases s.len() - from,
{
    if from < s.len() && s[from] != c {
        lemma_first_index_from(s, c, from + 1);
    }
}

/// Finds the first occurrence of `c` at or after `from` in the characters.
pub fn find_char_from(chars: &Vec<char>, c: char, from: usize) -> (r: Option<usize>)
    requires
        from <= chars@.len(),
    ensures
        match r {
            Some(j) => first_index_from(chars@, c, from as int) == Some(j as int) && from <= j
                < chars@.len(),
            None => first_index_from(chars@, c, from as int) == None::<int>,
        },
{
    let mut i: usize = from;
    while i < chars.len()
        invariant
            from <= i <= chars@.len(),
            forall|m: int| from <= m < i ==> chars@[m] != c,
        decreases chars@.len() - i,
    {
        if chars[i] == c {
            proof {
                lemma_first_index_from(chars@, c, from as int);
                match first_index_from(chars@, c, from as int) {
                    Some(j) => {
                        if j < i {
                            assert(chars@[j] != c);
                        }
                        if j > i {
                            assert(chars@[i as int] != c);
                        }
                    },
                    None => {
                        assert(chars@[i as int] != c);
                    },
                }
            }
            return Some(i);
        }
        i = i + 1;
    }
    proof {
        lemma_first_index_from(chars@, c, from as int);
        match first_index_from(chars@, c, from as int) {
            Some(j) => {
                assert(chars@[j] != c);
            },
            None => {},
        }
    }
    None
}


/// The character for one decimal digit.
pub open spec fn digit_char(d: nat) -> char {
    if d == 0 {
        '0'
    } else if d == 1 {
        '1'
    } else if d == 2 {
        '2'
    } else if d == 3 {
        '3'
    } else if d == 4 {
        '4'
    } else if d == 5 {
        '5'
    } else if d == 6 {
        '6'
    } else if d == 7 {
        '7'
    } else if d == 8 {
        '8'
    } else {
        '9'
    }
}

/// The decimal digits of a number, most significant first, with no leading
/// zeros except for zero itself.
pub open spec fn decimal_of(n: nat) -> Seq<char>
    decreases n,
{
    if n < 10 {
        seq![digit_char(n)]
    } else {
        decimal_of(n / 10).push(digit_char(n % 10))
    }
}

/// Formats a number in decimal.
pub fn decimal_string(n: u32) -> (r: String)
    ensures
        r@ == decimal_of(n as nat),
{
    let mut digits: Vec<char> = Vec::new();
    let mut m: u32 = n;
    let mut first: bool = true;
    while first || m > 0
        invariant
            (first ==> m == n && digits@ =~= Seq::<char>::empty()),
            (!first ==> decimal_of(n as nat) == (if m == 0 {
                digits@
            } else {
                decimal_of(m as nat) + digits@
            })),
            (!first ==> digits@.len() >= 1),
        decreases (if first {
            1int
        } else {
            0int
        }), m,
    {
        let ghost m0 = m as nat;
        let d = m % 10;
        let c = if d == 0 {
            '0'
        } else if d == 1 {
            '1'
        } else if d == 2 {
            '2'
        } else if d == 3 {
            '3'
        } else if d == 4 {
            '4'
        } else if d == 5 {
            '5'
        } else if d == 6 {
            '6'
        } else if d == 7 {
            '7'
        } else if d == 8 {
            '8'
        } else {
            '9'
        };
        proof {
            assert(c == digit_char(m0 % 10));
        }
        let ghost digits0 = digits@;
        digits.insert(0, c);
        proof {
            assert(digits@ =~= seq![c] + digits0);
        }
        m = m / 10;
        proof {
            if first {
                if m == 0 {
                    assert(m0 < 10);
                    assert(decimal_of(n as nat) =~= digits@);
                } else {
                    assert(m0 >= 10);
                    assert(decimal_of(m0) == decimal_of(m0 / 10).push(digit_char(m0 % 10)));
                    assert(decimal_of(n as nat) =~= decimal_of(m as nat) + digits@);
                }
            } else {
                if m == 0 {
                    assert(m0 < 10);
                    assert(decimal_of(m0) =~= seq![c]);
                    assert(decimal_of(n as nat) =~= digits@);
                } else {
                    assert(m0 >= 10);
                    assert(decimal_of(m0) == decimal_of(m0 / 10).push(digit_char(m0 % 10)));
                    assert(decimal_of(m0) =~= decimal_of(m as nat) + seq![c]);
                    assert(decimal_of(n as nat) =~= decimal_of(m as nat) + digits@);
                }
            }
        }
        first = false;
    }
    chars_to_string(&digits)
}


/// An exact copy of a vector of strings.
pub fn clone_string_vec(v: &Vec<String>) -> (r: Vec<String>)
    ensures
        views_of(r@) == views_of(v@),
{
    let mut r: Vec<String> = Vec::new();
    let mut i: usize = 0;
    proof {
        assert(views_of(r@) =~= views_of(v@).take(0));
    }
    while i < v.len()
        invariant
            i <= v@.len(),
            views_of(r@) == views_of(v@).take(i as int),
        decreases v@.len() - i,
    {
        let ghost prev = r@;
        let s = v[i].clone();
        r.push(s);
        proof {
            assert(views_of(prev).len() == prev.len());
            assert(prev.len() == i as int);
            assert forall|m: int|
                0 <= m < r@.len() implies views_of(r@)[m] == #[trigger] views_of(v@).take(
                i + 1,
            )[m] by {
                assert(views_of(r@)[m] == r@[m]@);
                if m < i {
                    assert(r@[m] == prev[m]);
                    assert(views_of(prev)[m] == prev[m]@);
                } else {
                    assert(r@[m]@ == v@[i as int]@);
                    assert(views_of(v@)[m] == v@[m]@);
                }
            }
            assert(views_of(r@) =~= views_of(v@).take(i + 1));
        }
        i = i + 1;
    }
    proof {
        assert(views_of(v@).take(views_of(v@).len() as int) =~= views_of(v@));
    }
    r
}

/// An exact copy of a vector of vectors of strings.
pub fn clone_nested_string_vec(v: &Vec<Vec<String>>) -> (r: Vec<Vec<String>>)
    ensures
        r.deep_view() == v.deep_view(),
{
    let mut r: Vec<Vec<String>> = Vec::new();
    let mut i: usize = 0;
    proof {
        assert(r.deep_view() =~= v.deep_view().take(0));
    }
    while i < v.len()
        invariant
            i <= v@.len(),
            r.deep_view() == v.deep_view().take(i as int),
        decreases v@.len() - i,
    {
        let ghost prev = r@;
        let ghost prevd = r.deep_view();
        let inner = clone_string_vec(&v[i]);
        let ghost innerd = inner.deep_view();
        proof {
            assert forall|m: int|
                0 <= m < inner@.len() implies inner.deep_view()[m] == #[trigger] views_of(
                inner@,
            )[m] by {
                assert(inner.deep_view()[m] == inner@[m].deep_view());
                assert(views_of(inner@)[m] == inner@[m]@);
            }
            assert forall|m: int|
                0 <= m < v@[i as int]@.len() implies v@[i as int].deep_view()[m]
                == #[trigger] views_of(v@[i as int]@)[m] by {
                assert(v@[i as int].deep_view()[m] == v@[i as int]@[m].deep_view());
                assert(views_of(v@[i as int]@)[m] == v@[i as int]@[m]@);
            }
            assert(inner.deep_view() =~= views_of(inner@));
            assert(v@[i as int].deep_view() =~= views_of(v@[i as int]@));
            assert(innerd =~= v@[i as int].deep_view());
        }
        r.push(inner);
        proof {
            assert(prevd.len() == prev.len());
            assert(prev.len() == i as int);
            assert forall|m: int|
                0 <= m < r@.len() implies r.deep_view()[m] == #[trigger] v.deep_view().take(
                i + 1,
            )[m] by {
                assert(r.deep_view()[m] == r@[m].deep_view());
                if m < i {
                    assert(r@[m] == prev[m]);
                    assert(prevd[m] == prev[m].deep_view());
                } else {
                    assert(r@[m].deep_view() == innerd);
                    assert(v.deep_view()[m] == v@[m].deep_view());
                }
            }
            assert(r.deep_view() =~= v.deep_view().take(i + 1));
        }
        i = i + 1;
    }
    proof {
        assert(v.deep_view().take(v.deep_view().len() as int) =~= v.deep_view());
    }
    r
}


/// For a vector of strings, the per-element views are exactly its deep
/// view.
pub proof fn lemma_views_are_deep(v: Vec<String>)
    ensures
        views_of(v@) == v.deep_view(),
{
    assert forall|m: int| 0 <= m < v@.len() implies #[trigger] views_of(v@)[m]
        == v.deep_view()[m] by {
        assert(views_of(v@)[m] == v@[m]@);
        assert(v.deep_view()[m] == v@[m].deep_view());
    }
    assert(views_of(v@) =~= v.deep_view());
}

} // verus!
