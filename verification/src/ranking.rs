//! The order of the final list: by the earliest release shown, films
//! without a release last, ties broken by title and then by slug, so that
//! the order in which the films came in decides nothing.

use crate::date::CivilDate;
use crate::models::{FilmResult, FilmWithReleases, ReleaseCategory};
use crate::order::{lemma_insert_at, lemma_sort_properties, ordered, stable_sort, total_preorder};
use crate::text::{lemma_lex_total, lemma_lex_transitive, lex_le, text_le};
use vstd::prelude::*;

verus! {

/// The date by which a film is ranked: that of its first theatrical entry,
/// else that of its first streaming entry.
pub open spec fn first_date(f: FilmResult) -> Option<CivilDate> {
    if f.theatrical.len() > 0 {
        Some(f.theatrical[0].date)
    } else if f.streaming.len() > 0 {
        Some(f.streaming[0].date)
    } else {
        None
    }
}

/// `a` stands before `b` or with it by name: by title, and by slug where
/// the titles are the same.
pub open spec fn name_le(a: FilmResult, b: FilmResult) -> bool {
    !lex_le(b.title, a.title) || (lex_le(a.title, b.title) && lex_le(a.slug, b.slug))
}

/// Of two films one stands before the other by name, or with it.
pub proof fn lemma_name_le_total(a: FilmResult, b: FilmResult)
    ensures
        name_le(a, b) || name_le(b, a),
{
    lemma_lex_total(a.title, b.title);
    lemma_lex_total(a.slug, b.slug);
}

/// The order by name is transitive.
pub proof fn lemma_name_le_transitive(a: FilmResult, b: FilmResult, c: FilmResult)
    requires
        name_le(a, b),
        name_le(b, c),
    ensures
        name_le(a, c),
{
    lemma_lex_total(a.title, b.title);
    lemma_lex_total(b.title, c.title);
    lemma_lex_total(a.title, c.title);
    if lex_le(c.title, a.title) {
        if lex_le(a.title, b.title) {
            lemma_lex_transitive(c.title, a.title, b.title);
        }
        if lex_le(b.title, c.title) {
            lemma_lex_transitive(b.title, c.title, a.title);
        }
        if lex_le(a.title, b.title) && lex_le(b.title, c.title) {
            lemma_lex_transitive(a.title, b.title, c.title);
        }
        if lex_le(a.slug, b.slug) && lex_le(b.slug, c.slug) {
            lemma_lex_transitive(a.slug, b.slug, c.slug);
        }
    }
}

/// `a` is ranked before `b` or with it: by date, a film with a date before
/// one without; by title where that does not decide; and by slug where the
/// titles are the same. Only films with the same date, title and slug are
/// ranked with each other.
pub open spec fn film_le(a: FilmResult, b: FilmResult) -> bool {
    match (first_date(a), first_date(b)) {
        (Some(x), Some(y)) => x.key() < y.key() || (x.key() == y.key() && name_le(a, b)),
        (Some(_), None) => true,
        (None, Some(_)) => false,
        (None, None) => name_le(a, b),
    }
}

/// The ranking as a relation.
pub open spec fn by_release() -> spec_fn(FilmResult, FilmResult) -> bool {
    |a: FilmResult, b: FilmResult| film_le(a, b)
}

/// `a` is listed before `b` or with it among films without a release: by
/// year, a film with a year before one without, and by name where that
/// does not decide.
pub open spec fn year_le(a: FilmResult, b: FilmResult) -> bool {
    match (a.year, b.year) {
        (Some(x), Some(y)) => x < y || (x == y && name_le(a, b)),
        (Some(_), None) => true,
        (None, Some(_)) => false,
        (None, None) => name_le(a, b),
    }
}

/// The order by year as a relation.
pub open spec fn by_year() -> spec_fn(FilmResult, FilmResult) -> bool {
    |a: FilmResult, b: FilmResult| year_le(a, b)
}

/// The two orders in which films are listed.
#[derive(Clone, Copy, Debug, PartialEq, Eq, Structural)]
pub enum Ranking {
    /// By first release date, then title.
    ByRelease,
    /// By year, then title.
    ByYear,
}

/// The relation of a ranking.
pub open spec fn relation(mode: Ranking) -> spec_fn(FilmResult, FilmResult) -> bool {
    match mode {
        Ranking::ByRelease => by_release(),
        Ranking::ByYear => by_year(),
    }
}

/// The order by year compares any two films, and does so transitively.
pub proof fn lemma_by_year_total()
    ensures
        total_preorder(by_year()),
{
    let le = by_year();
    assert forall|a: FilmResult, b: FilmResult| #[trigger] le(a, b) || #[trigger] le(b, a) by {
        lemma_name_le_total(a, b);
    }
    assert forall|a: FilmResult, b: FilmResult, c: FilmResult| #[trigger]
        le(a, b) && #[trigger] le(b, c) implies le(a, c) by {
        if name_le(a, b) && name_le(b, c) {
            lemma_name_le_transitive(a, b, c);
        }
    }
}

/// A film belongs to the section of a category if it is of the category and
/// its year is not before `min_year`; a film without a year belongs only to
/// the section of the films without releases.
pub open spec fn in_section(f: FilmResult, category: ReleaseCategory, min_year: i16) -> bool {
    f.category == category && match f.year {
        Some(y) => y >= min_year,
        None => category == ReleaseCategory::NoReleases,
    }
}

/// The films of a section, in their order.
pub open spec fn section_of(films: Seq<FilmResult>, category: ReleaseCategory, min_year: i16)
    -> Seq<FilmResult>
    decreases films.len(),
{
    if films.len() == 0 {
        Seq::empty()
    } else if in_section(films.last(), category, min_year) {
        section_of(films.drop_last(), category, min_year).push(films.last())
    } else {
        section_of(films.drop_last(), category, min_year)
    }
}

/// The films that are listed under a category.
pub fn section(films: &Vec<FilmWithReleases>, category: ReleaseCategory, min_year: i16) -> (r: Vec<
    FilmWithReleases,
>)
    ensures
        r.deep_view() == section_of(films.deep_view(), category, min_year),
{
    let mut out: Vec<FilmWithReleases> = Vec::new();
    let mut i: usize = 0;
    assert(films.deep_view().take(0) =~= Seq::<FilmResult>::empty());
    assert(out.deep_view() =~= Seq::<FilmResult>::empty());
    while i < films.len()
        invariant
            i <= films.len(),
            out.deep_view() == section_of(films.deep_view().take(i as int), category, min_year),
        decreases films.len() - i,
    {
        proof {
            assert(films.deep_view().take(i + 1).drop_last() =~= films.deep_view().take(i as int));
            assert(films.deep_view().take(i + 1).last() == films[i as int].deep_view());
        }
        let in_year = match films[i].year {
            Some(y) => y >= min_year,
            None => category == ReleaseCategory::NoReleases,
        };
        if films[i].category == category && in_year {
            let ghost before = out.deep_view();
            out.push(films[i].clone());
            assert(out.deep_view() =~= before.push(films[i as int].deep_view()));
        }
        i += 1;
    }
    assert(films.deep_view().take(films.len() as int) =~= films.deep_view());
    out
}

/// The ranking compares any two films, and does so transitively.
pub proof fn lemma_by_release_total()
    ensures
        total_preorder(by_release()),
{
    let le = by_release();
    assert forall|a: FilmResult, b: FilmResult| #[trigger] le(a, b) || #[trigger] le(b, a) by {
        lemma_name_le_total(a, b);
    }
    assert forall|a: FilmResult, b: FilmResult, c: FilmResult| #[trigger]
        le(a, b) && #[trigger] le(b, c) implies le(a, c) by {
        if name_le(a, b) && name_le(b, c) {
            lemma_name_le_transitive(a, b, c);
        }
    }
}

/// The date by which the film is ranked.
pub fn first_release_date(film: &FilmWithReleases) -> (r: Option<CivilDate>)
    ensures
        r == first_date(film.deep_view()),
{
    if film.theatrical.len() > 0 {
        assert(film.theatrical.deep_view()[0] == film.theatrical[0].deep_view());
        Some(film.theatrical[0].date)
    } else if film.streaming.len() > 0 {
        assert(film.streaming.deep_view()[0] == film.streaming[0].deep_view());
        Some(film.streaming[0].date)
    } else {
        None
    }
}

/// Whether `a` stands before `b` or with it by name.
pub fn precedes_by_name(a: &FilmWithReleases, b: &FilmWithReleases) -> (r: bool)
    ensures
        r == name_le(a.deep_view(), b.deep_view()),
{
    !text_le(b.title.as_str(), a.title.as_str()) || (text_le(a.title.as_str(), b.title.as_str())
        && text_le(a.letterboxd_slug.as_str(), b.letterboxd_slug.as_str()))
}

/// Whether `a` is listed before `b` or with it, in the order by year.
pub fn precedes_by_year(a: &FilmWithReleases, b: &FilmWithReleases) -> (r: bool)
    ensures
        r == year_le(a.deep_view(), b.deep_view()),
{
    match a.year {
        Some(x) => match b.year {
            Some(y) => x < y || (x == y && precedes_by_name(a, b)),
            None => true,
        },
        None => match b.year {
            Some(_) => false,
            None => precedes_by_name(a, b),
        },
    }
}

/// Whether `a` is ranked before `b` or with it.
pub fn ranks_before(a: &FilmWithReleases, b: &FilmWithReleases) -> (r: bool)
    ensures
        r == film_le(a.deep_view(), b.deep_view()),
{
    match first_release_date(a) {
        Some(x) => match first_release_date(b) {
            Some(y) => x.lt(&y) || (x.le(&y) && precedes_by_name(a, b)),
            None => true,
        },
        None => match first_release_date(b) {
            Some(_) => false,
            None => precedes_by_name(a, b),
        },
    }
}

/// Whether `a` is listed before `b` or with it under a ranking.
pub fn precedes(mode: Ranking, a: &FilmWithReleases, b: &FilmWithReleases) -> (r: bool)
    ensures
        r == relation(mode)(a.deep_view(), b.deep_view()),
{
    match mode {
        Ranking::ByRelease => ranks_before(a, b),
        Ranking::ByYear => precedes_by_year(a, b),
    }
}

/// Sorts the films into the order of the final list: by first release
/// date, films without a release last, and by title where that does not
/// decide. Films that the ranking does not tell apart keep their order.
pub fn sort_films(films: &Vec<FilmWithReleases>) -> (r: Vec<FilmWithReleases>)
    ensures
        r.deep_view() == stable_sort(films.deep_view(), by_release()),
        ordered(r.deep_view(), by_release()),
        r.deep_view().to_multiset() == films.deep_view().to_multiset(),
        r.len() == films.len(),
{
    sort_films_by(films, Ranking::ByRelease)
}

/// Sorts the films by a ranking. Films that the ranking does not tell apart
/// keep their order.
pub fn sort_films_by(films: &Vec<FilmWithReleases>, mode: Ranking) -> (r: Vec<FilmWithReleases>)
    ensures
        r.deep_view() == stable_sort(films.deep_view(), relation(mode)),
        ordered(r.deep_view(), relation(mode)),
        r.deep_view().to_multiset() == films.deep_view().to_multiset(),
        r.len() == films.len(),
{
    let mut out: Vec<FilmWithReleases> = Vec::new();
    let mut i: usize = 0;
    assert(films.deep_view().take(0) =~= out.deep_view());
    while i < films.len()
        invariant
            i <= films.len(),
            out.deep_view() == stable_sort(films.deep_view().take(i as int), relation(mode)),
        decreases films.len() - i,
    {
        let e = films[i].clone();
        let mut p: usize = out.len();
        while p > 0 && !precedes(mode, &out[p - 1], &e)
            invariant
                p <= out.len(),
                forall|j: int|
                    p <= j < out.len() ==> !relation(mode)(
                        #[trigger] out.deep_view()[j],
                        e.deep_view(),
                    ),
            decreases p,
        {
            p -= 1;
        }
        proof {
            lemma_insert_at(out.deep_view(), e.deep_view(), relation(mode), p as int);
            assert(films.deep_view().take(i + 1).drop_last() =~= films.deep_view().take(i as int));
            assert(films.deep_view().take(i + 1).last() == e.deep_view());
        }
        let ghost before = out.deep_view();
        out.insert(p, e);
        assert(out.deep_view() =~= before.insert(p as int, e.deep_view()));
        i += 1;
    }
    proof {
        assert(films.deep_view().take(films.len() as int) =~= films.deep_view());
        lemma_by_release_total();
        lemma_by_year_total();
        lemma_sort_properties(films.deep_view(), relation(mode));
    }
    out
}

} // verus!
