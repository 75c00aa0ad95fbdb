//! Lists of release entries: ordering by date and removal of repeats.

use crate::models::{CountryReleaseSet, CountryReleases, ReleaseDate, ReleaseEntry};
use crate::text::same_text;
use crate::order::{
    lemma_insert_at, lemma_sort_of_ordered, lemma_sort_properties, lemma_without_repeats,
    lemma_without_repeats_ordered, ordered, stable_sort, total_preorder, without_repeats,
};
use vstd::prelude::*;

verus! {

/// The order of release entries: by date, whatever their kind and note.
pub open spec fn by_date() -> spec_fn(ReleaseEntry, ReleaseEntry) -> bool {
    |a: ReleaseEntry, b: ReleaseEntry| a.date.key() <= b.date.key()
}

/// A list is in canonical form: ascending by date, no entry twice.
pub open spec fn canonical(s: Seq<ReleaseEntry>) -> bool {
    ordered(s, by_date()) && s.no_duplicates()
}

/// The canonical form of a list: sorted by date, entries of one date in the
/// order in which they stood, and each entry only once.
pub open spec fn canonical_form(s: Seq<ReleaseEntry>) -> Seq<ReleaseEntry> {
    without_repeats(stable_sort(s, by_date()))
}

/// The order by date compares any two entries, and does so transitively.
pub proof fn lemma_by_date_total()
    ensures
        total_preorder(by_date()),
{
}

/// The canonical form is canonical, holds exactly the entries of the list,
/// and is the list itself where the list is canonical already.
pub proof fn lemma_canonical_form(s: Seq<ReleaseEntry>)
    ensures
        canonical(canonical_form(s)),
        forall|e: ReleaseEntry| #[trigger] canonical_form(s).contains(e) <==> s.contains(e),
        canonical(s) ==> canonical_form(s) == s,
        canonical_form(s).len() == 0 <==> s.len() == 0,
{
    broadcast use vstd::seq_lib::group_to_multiset_ensures;

    let t = stable_sort(s, by_date());
    lemma_sort_properties(s, by_date());
    lemma_without_repeats(t);
    lemma_without_repeats_ordered(t, by_date());
    assert forall|e: ReleaseEntry| #[trigger] canonical_form(s).contains(e) <==> s.contains(e) by {
        assert(t.contains(e) <==> t.to_multiset().count(e) > 0);
        assert(s.contains(e) <==> s.to_multiset().count(e) > 0);
    }
    if canonical(s) {
        lemma_sort_of_ordered(s, by_date());
    }
    if s.len() > 0 {
        assert(s.contains(s[0]));
        assert(canonical_form(s).contains(s[0]));
    }
}

/// The first set among `sets` that is for `country`, if any.
pub open spec fn country_entry(sets: Seq<CountryReleaseSet>, country: Seq<char>) -> Option<
    CountryReleaseSet,
>
    decreases sets.len(),
{
    if sets.len() == 0 {
        None
    } else if sets[0].country == country {
        Some(sets[0])
    } else {
        country_entry(sets.drop_first(), country)
    }
}

/// [`country_entry`] is the set at `i`, if no earlier set is for `country`
/// and `i` is; it is `None` if `i` is the length and no set is.
pub proof fn lemma_country_entry(sets: Seq<CountryReleaseSet>, country: Seq<char>, i: int)
    requires
        0 <= i <= sets.len(),
        forall|j: int| 0 <= j < i ==> (#[trigger] sets[j]).country != country,
        i < sets.len() ==> sets[i].country == country,
    ensures
        country_entry(sets, country) == if i < sets.len() {
            Some(sets[i])
        } else {
            None
        },
    decreases i,
{
    if i > 0 {
        let t = sets.drop_first();
        assert forall|j: int| 0 <= j < i - 1 implies (#[trigger] t[j]).country != country by {
            assert(t[j] == sets[j + 1]);
        }
        lemma_country_entry(t, country, i - 1);
    }
}

/// The position of the first set for `country` in `sets`.
pub fn find_country(sets: &Vec<CountryReleases>, country: &str) -> (r: Option<usize>)
    ensures
        match r {
            Some(i) => i < sets.len() && country_entry(sets.deep_view(), country@) == Some(
                sets[i as int].deep_view(),
            ),
            None => country_entry(sets.deep_view(), country@) is None,
        },
{
    let mut i: usize = 0;
    while i < sets.len()
        invariant
            i <= sets.len(),
            forall|j: int| 0 <= j < i ==> (#[trigger] sets.deep_view()[j]).country != country@,
        decreases sets.len() - i,
    {
        if same_text(sets[i].country.as_str(), country) {
            proof {
                lemma_country_entry(sets.deep_view(), country@, i as int);
            }
            return Some(i);
        }
        i += 1;
    }
    proof {
        lemma_country_entry(sets.deep_view(), country@, i as int);
    }
    None
}

/// Whether two entries have the same date, kind and note.
pub fn same_entry(a: &ReleaseDate, b: &ReleaseDate) -> (r: bool)
    ensures
        r == (a.deep_view() == b.deep_view()),
{
    a.date == b.date && a.release_type == b.release_type && same_note(&a.note, &b.note)
}

/// Whether two optional texts are both absent or hold the same characters.
pub fn same_note(a: &Option<String>, b: &Option<String>) -> (r: bool)
    ensures
        r == (a.deep_view() == b.deep_view()),
{
    match a {
        Some(x) => match b {
            Some(y) => *x == *y,
            None => false,
        },
        None => b.is_none(),
    }
}

/// Whether `v` holds an entry with the date, kind and note of `e`.
pub fn contains_entry(v: &Vec<ReleaseDate>, e: &ReleaseDate) -> (r: bool)
    ensures
        r == v.deep_view().contains(e.deep_view()),
{
    let mut i: usize = 0;
    while i < v.len()
        invariant
            i <= v.len(),
            forall|j: int| 0 <= j < i ==> v.deep_view()[j] != e.deep_view(),
        decreases v.len() - i,
    {
        if same_entry(&v[i], e) {
            assert(v.deep_view()[i as int] == e.deep_view());
            return true;
        }
        i += 1;
    }
    false
}

/// Sorts a list by date; entries of one date keep their order.
pub fn sort_by_date(v: &Vec<ReleaseDate>) -> (r: Vec<ReleaseDate>)
    ensures
        r.deep_view() == stable_sort(v.deep_view(), by_date()),
        ordered(r.deep_view(), by_date()),
        r.deep_view().to_multiset() == v.deep_view().to_multiset(),
{
    let mut out: Vec<ReleaseDate> = Vec::new();
    let mut i: usize = 0;
    assert(v.deep_view().take(0) =~= out.deep_view());
    while i < v.len()
        invariant
            i <= v.len(),
            out.deep_view() == stable_sort(v.deep_view().take(i as int), by_date()),
        decreases v.len() - i,
    {
        let e = v[i].clone();
        let mut p: usize = out.len();
        while p > 0 && e.date.lt(&out[p - 1].date)
            invariant
                p <= out.len(),
                forall|j: int|
                    p <= j < out.len() ==> !by_date()(#[trigger] out.deep_view()[j], e.deep_view()),
            decreases p,
        {
            p -= 1;
        }
        proof {
            lemma_insert_at(out.deep_view(), e.deep_view(), by_date(), p as int);
            assert(v.deep_view().take(i + 1).drop_last() =~= v.deep_view().take(i as int));
            assert(v.deep_view().take(i + 1).last() == e.deep_view());
        }
        let ghost before = out.deep_view();
        out.insert(p, e);
        assert(out.deep_view() =~= before.insert(p as int, e.deep_view()));
        i += 1;
    }
    proof {
        assert(v.deep_view().take(v.len() as int) =~= v.deep_view());
        lemma_by_date_total();
        lemma_sort_properties(v.deep_view(), by_date());
    }
    out
}

/// Drops every entry that repeats an earlier one.
pub fn dedup_releases(v: &Vec<ReleaseDate>) -> (r: Vec<ReleaseDate>)
    ensures
        r.deep_view() == without_repeats(v.deep_view()),
        r.deep_view().no_duplicates(),
{
    let mut out: Vec<ReleaseDate> = Vec::new();
    let mut i: usize = 0;
    assert(v.deep_view().take(0) =~= out.deep_view());
    while i < v.len()
        invariant
            i <= v.len(),
            out.deep_view() == without_repeats(v.deep_view().take(i as int)),
        decreases v.len() - i,
    {
        proof {
            lemma_without_repeats(v.deep_view().take(i as int));
            assert(v.deep_view().take(i + 1).drop_last() =~= v.deep_view().take(i as int));
            assert(v.deep_view().take(i + 1).last() == v[i as int].deep_view());
        }
        if !contains_entry(&out, &v[i]) {
            let ghost before = out.deep_view();
            out.push(v[i].clone());
            assert(out.deep_view() =~= before.push(v[i as int].deep_view()));
        }
        i += 1;
    }
    proof {
        assert(v.deep_view().take(v.len() as int) =~= v.deep_view());
        lemma_without_repeats(v.deep_view());
    }
    out
}

/// Brings a list into canonical form: ascending by date, each entry once.
pub fn canonicalize(v: &Vec<ReleaseDate>) -> (r: Vec<ReleaseDate>)
    ensures
        r.deep_view() == canonical_form(v.deep_view()),
        canonical(r.deep_view()),
        forall|e: ReleaseEntry| #[trigger] r.deep_view().contains(e) <==> v.deep_view().contains(e),
{
    let sorted = sort_by_date(v);
    let r = dedup_releases(&sorted);
    proof {
        lemma_canonical_form(v.deep_view());
    }
    r
}

} // verus!
