//! The central dictionary entry record, its commonness boost, the kanji
//! cross-reference record, and duplicate-free tag insertion.

use vstd::prelude::*;
use crate::text::views_of;

verus! {

/// The commonness boost in exact form. The boost published downstream is
/// `max(4, sqrt(frequency_sum)) / 4`: a diminishing-returns score with a
/// floor of one, kept here as the exact sum under the square root so that
/// no inexact arithmetic enters the pipeline.
pub struct CommonnessBoost {
    pub frequency_sum: u128,
}

impl CommonnessBoost {
    /// The square of four times the boost: exact integer arithmetic in
    /// place of the square root.
    pub open spec fn scaled_square(self) -> int {
        if self.frequency_sum <= 16 {
            16
        } else {
            self.frequency_sum as int
        }
    }

    /// Whether the boost sits on its floor of exactly one.
    pub open spec fn is_floor(self) -> bool {
        self.frequency_sum <= 16
    }

    pub fn from_sum(frequency_sum: u128) -> (r: CommonnessBoost)
        ensures
            r.frequency_sum == frequency_sum,
    {
        CommonnessBoost { frequency_sum }
    }

    pub fn unit() -> (r: CommonnessBoost)
        ensures
            r.frequency_sum == 0,
            r.is_floor(),
    {
        CommonnessBoost { frequency_sum: 0 }
    }
}

/// Law: the commonness boost is at least one for every frequency sum,
/// including zero. In exact form: four times the boost, squared, is at
/// least sixteen, and exactly sixteen on the floor, so the boost itself is
/// at least `sqrt(16)/4 == 1` and exactly one on the floor. The sum is a
/// machine integer, so the boost is a quotient of well-defined
/// non-negative numbers and can never be an undefined value.
pub proof fn lemma_boost_at_least_one(b: CommonnessBoost)
    ensures
        b.scaled_square() >= 16,
        b.is_floor() <==> b.scaled_square() == 16,
        b.frequency_sum >= 0,
{
}

/// The kanji cross-reference record attached to an entry whose traditional
/// form has a Japanese-script equivalent.
pub struct KanjiCharacter {
    pub strokes: u32,
    pub grade: Option<u32>,
    pub freq: Option<u32>,
    pub jlpt_old: Option<u32>,
    pub jlpt_new: Option<u32>,
    pub meanings: Vec<String>,
    pub readings_on: Vec<String>,
    pub readings_kun: Vec<String>,
    pub wk_level: Option<u32>,
    pub wk_meanings: Option<Vec<String>>,
    pub wk_readings_on: Option<Vec<String>>,
    pub wk_readings_kun: Option<Vec<String>>,
    pub wk_radicals: Option<Vec<String>>,
}

/// One resolved dictionary entry: the pipeline's output record.
pub struct Entry {
    pub simplified: String,
    pub traditional: String,
    pub simplified_radicals: Vec<Vec<String>>,
    pub traditional_radicals: Vec<Vec<String>>,
    pub pinyin: String,
    pub pinyin_taiwan: Option<String>,
    pub pinyin_search: Vec<String>,
    pub zhuyin: String,
    pub pinyin_pretty: String,
    pub pinyin_ws_tone_number: String,
    pub tocfl_level: Option<u32>,
    pub meanings: Vec<String>,
    pub meanings_de: Vec<String>,
    pub tags: Vec<String>,
    pub commonness_boost: CommonnessBoost,
    pub count_per_million_written: u64,
    pub count_per_million_spoken: u64,
    pub count_per_million_in_others: u64,
    pub kanji: Option<KanjiCharacter>,
}

/// A tag list extended by one tag, unless it is already present.
pub open spec fn add_once(tags: Seq<Seq<char>>, tag: Seq<char>) -> Seq<Seq<char>> {
    if tags.contains(tag) {
        tags
    } else {
        tags.push(tag)
    }
}

/// Appends a tag unless the list already holds it, so that tag lists stay
/// free of duplicates.
pub fn push_tag(tags: &mut Vec<String>, tag: String)
    requires
        views_of(old(tags)@).no_duplicates(),
    ensures
        views_of(final(tags)@) == add_once(views_of(old(tags)@), tag@),
        views_of(final(tags)@).no_duplicates(),
{
    let present = crate::text::contains_string(tags, &tag);
    if !present {
        let ghost prev = tags@;
        tags.push(tag);
        proof {
            assert forall|m: int|
                0 <= m < views_of(tags@).len() implies views_of(tags@)[m] == #[trigger] add_once(
                views_of(prev),
                tags@[prev.len() as int]@,
            )[m] by {
                assert(views_of(tags@)[m] == tags@[m]@);
                if m < prev.len() {
                    assert(tags@[m] == prev[m]);
                    assert(views_of(prev)[m] == prev[m]@);
                }
            }
            assert(views_of(tags@) =~= add_once(views_of(prev), tags@[prev.len() as int]@));
        }
    }
}


/// Whether two kanji records carry the same data, compared through views.
pub open spec fn kanji_equal(a: KanjiCharacter, b: KanjiCharacter) -> bool {
    &&& a.strokes == b.strokes
    &&& a.grade == b.grade
    &&& a.freq == b.freq
    &&& a.jlpt_old == b.jlpt_old
    &&& a.jlpt_new == b.jlpt_new
    &&& a.meanings.deep_view() == b.meanings.deep_view()
    &&& a.readings_on.deep_view() == b.readings_on.deep_view()
    &&& a.readings_kun.deep_view() == b.readings_kun.deep_view()
    &&& a.wk_level == b.wk_level
    &&& a.wk_meanings.deep_view() == b.wk_meanings.deep_view()
    &&& a.wk_readings_on.deep_view() == b.wk_readings_on.deep_view()
    &&& a.wk_readings_kun.deep_view() == b.wk_readings_kun.deep_view()
    &&& a.wk_radicals.deep_view() == b.wk_radicals.deep_view()
}

/// Copies an optional vector of strings.
fn clone_opt_string_vec(v: &Option<Vec<String>>) -> (r: Option<Vec<String>>)
    ensures
        r.deep_view() == v.deep_view(),
{
    match v {
        Some(inner) => {
            let c = crate::text::clone_string_vec(inner);
            proof {
                lemma_deep_from_views(&c, inner);
            }
            Some(c)
        },
        None => None,
    }
}

/// An exact copy of a kanji record.
pub fn copy_kanji(k: &KanjiCharacter) -> (r: KanjiCharacter)
    ensures
        kanji_equal(r, *k),
{
    let r = KanjiCharacter {
        strokes: k.strokes,
        grade: k.grade,
        freq: k.freq,
        jlpt_old: k.jlpt_old,
        jlpt_new: k.jlpt_new,
        meanings: crate::text::clone_string_vec(&k.meanings),
        readings_on: crate::text::clone_string_vec(&k.readings_on),
        readings_kun: crate::text::clone_string_vec(&k.readings_kun),
        wk_level: k.wk_level,
        wk_meanings: clone_opt_string_vec(&k.wk_meanings),
        wk_readings_on: clone_opt_string_vec(&k.wk_readings_on),
        wk_readings_kun: clone_opt_string_vec(&k.wk_readings_kun),
        wk_radicals: clone_opt_string_vec(&k.wk_radicals),
    };
    proof {
        lemma_deep_from_views(&r.meanings, &k.meanings);
        lemma_deep_from_views(&r.readings_on, &k.readings_on);
        lemma_deep_from_views(&r.readings_kun, &k.readings_kun);
    }
    r
}

/// Equal per-element views give equal deep views for string vectors.
pub proof fn lemma_deep_from_views(a: &Vec<String>, b: &Vec<String>)
    requires
        views_of(a@) == views_of(b@),
    ensures
        a.deep_view() == b.deep_view(),
{
    assert(views_of(a@).len() == a@.len());
    assert(views_of(b@).len() == b@.len());
    assert(a@.len() == b@.len());
    assert forall|m: int| 0 <= m < a.deep_view().len() implies a.deep_view()[m]
        == #[trigger] b.deep_view()[m] by {
        assert(a.deep_view()[m] == a@[m].deep_view());
        assert(b.deep_view()[m] == b@[m].deep_view());
        assert(views_of(a@)[m] == a@[m]@);
        assert(views_of(b@)[m] == b@[m]@);
    }
    assert(a.deep_view() =~= b.deep_view());
}

} // verus!
