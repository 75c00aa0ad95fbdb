//! The steps of a pipeline run, each as a function of plain values.
//!
//! A run filters the watchlist by year, parts it by what the identity cache
//! knows, lists the release sets to load, groups the missing ones by film,
//! completes what was fetched, decides per film what to show, lists the
//! watch offers to load, attaches them and sorts the result. The order of
//! the steps, and what is loaded, fetched and stored between them, is in
//! [`crate::pipeline`].

use crate::cache::{
    film_entry, find_film, find_offers, known_offers, FilmCacheData, FilmIdentity, FilmRow,
    KnownProviders, ProviderCacheEntry, StoredFilm,
};
use crate::date::CivilDate;
use crate::fallback::{
    fallback_tiers, find_known, get_releases_with_fallback_bulk, known_entry, resolution,
    tiers_for, KnownReleases, ReleaseCacheEntry,
};
use crate::models::{
    clone_providers, clone_releases, clone_text, CountryReleaseSet, CountryReleases, FilmResult, FilmWithReleases,
    ProviderOffer, ReleaseEntry, WatchlistEntry, WishlistFilm,
};
use crate::releases::{country_entry, find_country};
use crate::text::same_text;
use crate::tmdb::{empty_country, empty_set};
use vstd::prelude::*;

verus! {

/// How many years back a film's year may lie for the film to be tracked.
pub const TRACKED_YEARS: i16 = 3;

/// A film with its catalog identity: slug, catalog identifier, title, year
/// and poster path.
pub type IdentifiedFilm = (String, i32, String, Option<i16>, Option<String>);

/// What an [`IdentifiedFilm`] is.
pub type Identified = (Seq<char>, i32, Seq<char>, Option<i16>, Option<Seq<char>>);

/// The earliest year that is tracked in `current_year`.
pub open spec fn cutoff_year(current_year: i16) -> int {
    if current_year - TRACKED_YEARS < i16::MIN {
        i16::MIN as int
    } else {
        current_year - TRACKED_YEARS
    }
}

/// The earliest year that is tracked in `current_year`: three years back,
/// held within the range of the years.
pub fn cutoff(current_year: i16) -> (r: i16)
    ensures
        r == cutoff_year(current_year),
{
    if current_year < i16::MIN + TRACKED_YEARS {
        i16::MIN
    } else {
        current_year - TRACKED_YEARS
    }
}

/// A film is tracked if its year is unknown or not before the cutoff.
pub open spec fn is_recent(film: WatchlistEntry, current_year: i16) -> bool {
    match film.year {
        Some(y) => y >= cutoff_year(current_year),
        None => true,
    }
}

/// The tracked films of `films`, in their order.
pub open spec fn recent_films(films: Seq<WatchlistEntry>, current_year: i16) -> Seq<WatchlistEntry>
    decreases films.len(),
{
    if films.len() == 0 {
        Seq::empty()
    } else if is_recent(films.last(), current_year) {
        recent_films(films.drop_last(), current_year).push(films.last())
    } else {
        recent_films(films.drop_last(), current_year)
    }
}

/// Drops the films whose year lies more than three years before
/// `current_year`. A film without a year stays.
pub fn filter_by_year(films: &Vec<WishlistFilm>, current_year: i16) -> (r: Vec<WishlistFilm>)
    ensures
        r.deep_view() == recent_films(films.deep_view(), current_year),
{
    let cutoff = cutoff(current_year);
    let mut out: Vec<WishlistFilm> = Vec::new();
    let mut i: usize = 0;
    assert(films.deep_view().take(0) =~= Seq::<WatchlistEntry>::empty());
    while i < films.len()
        invariant
            i <= films.len(),
            cutoff == cutoff_year(current_year),
            out.deep_view() == recent_films(films.deep_view().take(i as int), current_year),
        decreases films.len() - i,
    {
        proof {
            assert(films.deep_view().take(i + 1).drop_last() =~= films.deep_view().take(i as int));
            assert(films.deep_view().take(i + 1).last() == films[i as int].deep_view());
        }
        let keep = match films[i].year {
            Some(y) => y >= cutoff,
            None => true,
        };
        if keep {
            let ghost before = out.deep_view();
            out.push(films[i].clone());
            assert(out.deep_view() =~= before.push(films[i as int].deep_view()));
        }
        i += 1;
    }
    assert(films.deep_view().take(films.len() as int) =~= films.deep_view());
    out
}

/// The slugs of `films`, in their order.
pub open spec fn slugs(films: Seq<WatchlistEntry>) -> Seq<Seq<char>> {
    Seq::new(films.len(), |i: int| films[i].slug)
}

/// The slugs of the films, for the bulk read of identities.
pub fn slugs_of(films: &Vec<WishlistFilm>) -> (r: Vec<String>)
    ensures
        r.deep_view() == slugs(films.deep_view()),
{
    let mut out: Vec<String> = Vec::new();
    let mut i: usize = 0;
    while i < films.len()
        invariant
            i <= films.len(),
            out.len() == i,
            forall|j: int| 0 <= j < i ==> #[trigger] out.deep_view()[j] == films.deep_view()[j].slug,
        decreases films.len() - i,
    {
        let ghost before = out.deep_view();
        out.push(films[i].letterboxd_slug.clone());
        assert(out.deep_view() =~= before.push(films[i as int].deep_view().slug));
        i += 1;
    }
    assert(out.deep_view() =~= slugs(films.deep_view()));
    out
}

/// How the identity cache stands to a film.
#[derive(Clone, Copy, Debug, PartialEq, Eq, Structural)]
pub enum Standing {
    /// The cache has the film's catalog identifier and its poster.
    Complete,
    /// The cache has the film's catalog identifier, but no poster.
    NeedsPoster,
    /// The cache has no catalog identifier for the film.
    Unknown,
}

/// How `cached` stands to the film with this slug.
pub open spec fn standing(cached: Seq<StoredFilm>, slug: Seq<char>) -> Standing {
    match film_entry(cached, slug) {
        Some(row) => if row.tmdb_id is None {
            Standing::Unknown
        } else if row.poster_path is None {
            Standing::NeedsPoster
        } else {
            Standing::Complete
        },
        None => Standing::Unknown,
    }
}

/// The films of `films` to which the cache stands in the given way, in
/// their order.
pub open spec fn films_where(films: Seq<WatchlistEntry>, cached: Seq<StoredFilm>, how: Standing)
    -> Seq<WatchlistEntry>
    decreases films.len(),
{
    if films.len() == 0 {
        Seq::empty()
    } else if standing(cached, films.last().slug) == how {
        films_where(films.drop_last(), cached, how).push(films.last())
    } else {
        films_where(films.drop_last(), cached, how)
    }
}

/// The identity that a cached row holds of a watchlist film.
pub open spec fn row_identity(film: WatchlistEntry, row: StoredFilm) -> FilmIdentity {
    FilmIdentity {
        slug: film.slug,
        tmdb_id: row.tmdb_id,
        title: row.title,
        year: match row.year {
            Some(y) => Some(wrapped_year(y)),
            None => None,
        },
        poster_path: row.poster_path,
    }
}

/// The cached identities of the films that lack a poster, in the order of
/// the films.
pub open spec fn posterless(films: Seq<WatchlistEntry>, cached: Seq<StoredFilm>) -> Seq<
    FilmIdentity,
>
    decreases films.len(),
{
    if films.len() == 0 {
        Seq::empty()
    } else if standing(cached, films.last().slug) == Standing::NeedsPoster {
        posterless(films.drop_last(), cached).push(
            row_identity(films.last(), film_entry(cached, films.last().slug)->0),
        )
    } else {
        posterless(films.drop_last(), cached)
    }
}

/// Parts the films by how the cached identities stand to them: the films
/// that are identified in full; the cached identities that lack a poster,
/// for which the catalog is to be asked again; and the films that need
/// resolution.
pub fn partition_by_identity(films: &Vec<WishlistFilm>, cached: &Vec<FilmRow>) -> (r: (
    Vec<WishlistFilm>,
    Vec<FilmCacheData>,
    Vec<WishlistFilm>,
))
    ensures
        r.0.deep_view() == films_where(films.deep_view(), cached.deep_view(), Standing::Complete),
        r.1.deep_view() == posterless(films.deep_view(), cached.deep_view()),
        r.2.deep_view() == films_where(films.deep_view(), cached.deep_view(), Standing::Unknown),
{
    let mut known: Vec<WishlistFilm> = Vec::new();
    let mut refresh: Vec<FilmCacheData> = Vec::new();
    let mut unknown: Vec<WishlistFilm> = Vec::new();
    let mut i: usize = 0;
    assert(films.deep_view().take(0) =~= Seq::<WatchlistEntry>::empty());
    assert(refresh.deep_view() =~= Seq::<FilmIdentity>::empty());
    while i < films.len()
        invariant
            i <= films.len(),
            known.deep_view() == films_where(
                films.deep_view().take(i as int),
                cached.deep_view(),
                Standing::Complete,
            ),
            refresh.deep_view() == posterless(films.deep_view().take(i as int), cached.deep_view()),
            unknown.deep_view() == films_where(
                films.deep_view().take(i as int),
                cached.deep_view(),
                Standing::Unknown,
            ),
        decreases films.len() - i,
    {
        proof {
            assert(films.deep_view().take(i + 1).drop_last() =~= films.deep_view().take(i as int));
            assert(films.deep_view().take(i + 1).last() == films[i as int].deep_view());
        }
        let film = &films[i];
        let row = match find_film(cached, film.letterboxd_slug.as_str()) {
            Some(k) => if cached[k].tmdb_id.is_some() {
                Some(k)
            } else {
                None
            },
            None => None,
        };
        match row {
            None => {
                let ghost before = unknown.deep_view();
                unknown.push(film.clone());
                assert(unknown.deep_view() =~= before.push(film.deep_view()));
            },
            Some(k) => {
                if cached[k].poster_path.is_some() {
                    let ghost before = known.deep_view();
                    known.push(film.clone());
                    assert(known.deep_view() =~= before.push(film.deep_view()));
                } else {
                    let ghost before = refresh.deep_view();
                    let year = match cached[k].year {
                        Some(y) => Some(wrap_year(y)),
                        None => None,
                    };
                    refresh.push(
                        FilmCacheData {
                            slug: film.letterboxd_slug.clone(),
                            tmdb_id: cached[k].tmdb_id,
                            title: cached[k].title.clone(),
                            year,
                            poster_path: None,
                        },
                    );
                    assert(refresh.deep_view() =~= before.push(
                        row_identity(film.deep_view(), cached[k as int].deep_view()),
                    ));
                }
            },
        }
        i += 1;
    }
    assert(films.deep_view().take(films.len() as int) =~= films.deep_view());
    (known, refresh, unknown)
}

/// A stored year as the year of a film: the value that fits in sixteen bits
/// and differs from the stored one by a multiple of 65536.
pub open spec fn wrapped_year(y: i32) -> i16 {
    ((y + 32768) % 65536 - 32768) as i16
}

/// A stored year as the year of a film.
pub fn wrap_year(y: i32) -> (r: i16)
    ensures
        r == wrapped_year(y),
        i16::MIN <= y <= i16::MAX ==> r == y,
{
    let shifted: i64 = y as i64 + 32768;
    let m: i64 = shifted % 65536;
    let low: i64 = if m < 0 {
        m + 65536
    } else {
        m
    };
    (low - 32768) as i16
}

/// The identified film that a cached row gives for a watchlist film, if the
/// row has a catalog identifier.
pub open spec fn from_row(film: WatchlistEntry, cached: Seq<StoredFilm>) -> Option<Identified> {
    match film_entry(cached, film.slug) {
        Some(row) => match row.tmdb_id {
            Some(id) => Some(
                (
                    film.slug,
                    id,
                    row.title,
                    match row.year {
                        Some(y) => Some(wrapped_year(y)),
                        None => None,
                    },
                    row.poster_path,
                ),
            ),
            None => None,
        },
        None => None,
    }
}

/// The first identity of `resolved` for the slug, if any.
pub open spec fn identity_for(resolved: Seq<FilmIdentity>, slug: Seq<char>) -> Option<
    FilmIdentity,
>
    decreases resolved.len(),
{
    if resolved.len() == 0 {
        None
    } else if resolved[0].slug == slug {
        Some(resolved[0])
    } else {
        identity_for(resolved.drop_first(), slug)
    }
}

/// The identified film that a watchlist film becomes: by the cached row
/// where the cache identifies it in full; otherwise by the first resolved
/// identity of its slug, if that has a catalog identifier. A film without
/// either is not identified.
pub open spec fn identified_film(
    film: WatchlistEntry,
    cached: Seq<StoredFilm>,
    resolved: Seq<FilmIdentity>,
) -> Option<Identified> {
    if standing(cached, film.slug) == Standing::Complete {
        from_row(film, cached)
    } else {
        match identity_for(resolved, film.slug) {
            Some(f) => match f.tmdb_id {
                Some(id) => Some((film.slug, id, f.title, f.year, f.poster_path)),
                None => None,
            },
            None => None,
        }
    }
}

/// The identified films of a run, in the order of the watchlist.
pub open spec fn identified(
    films: Seq<WatchlistEntry>,
    cached: Seq<StoredFilm>,
    resolved: Seq<FilmIdentity>,
) -> Seq<Identified>
    decreases films.len(),
{
    if films.len() == 0 {
        Seq::empty()
    } else {
        match identified_film(films.last(), cached, resolved) {
            Some(f) => identified(films.drop_last(), cached, resolved).push(f),
            None => identified(films.drop_last(), cached, resolved),
        }
    }
}

/// The resolved identity that is to be stored for a watchlist film: the
/// first of its slug, unless the cache identifies the film in full.
pub open spec fn identity_to_store(
    film: WatchlistEntry,
    cached: Seq<StoredFilm>,
    resolved: Seq<FilmIdentity>,
) -> Option<FilmIdentity> {
    if standing(cached, film.slug) == Standing::Complete {
        None
    } else {
        identity_for(resolved, film.slug)
    }
}

/// The resolved identities that are to be stored, in the order of the
/// watchlist. An identity for a slug that is not on the watchlist, and a
/// second identity for a slug, are not among them.
pub open spec fn identities_to_store(
    films: Seq<WatchlistEntry>,
    cached: Seq<StoredFilm>,
    resolved: Seq<FilmIdentity>,
) -> Seq<FilmIdentity>
    decreases films.len(),
{
    if films.len() == 0 {
        Seq::empty()
    } else {
        match identity_to_store(films.last(), cached, resolved) {
            Some(f) => identities_to_store(films.drop_last(), cached, resolved).push(f),
            None => identities_to_store(films.drop_last(), cached, resolved),
        }
    }
}

/// No two identities are for the same slug.
pub open spec fn distinct_identities(resolved: Seq<FilmIdentity>) -> bool {
    forall|i: int, j: int|
        0 <= i < j < resolved.len() ==> (#[trigger] resolved[i]).slug != (
        #[trigger] resolved[j]).slug
}

/// What a lookup by slug finds is an identity of the list for that slug;
/// it finds nothing exactly when the list has none.
pub proof fn lemma_identity_for(resolved: Seq<FilmIdentity>, slug: Seq<char>)
    ensures
        match identity_for(resolved, slug) {
            Some(x) => resolved.contains(x) && x.slug == slug,
            None => forall|i: int| 0 <= i < resolved.len() ==> (#[trigger] resolved[i]).slug != slug,
        },
    decreases resolved.len(),
{
    if resolved.len() > 0 && resolved[0].slug != slug {
        let t = resolved.drop_first();
        lemma_identity_for(t, slug);
        match identity_for(t, slug) {
            Some(x) => {
                let k = choose|k: int| 0 <= k < t.len() && t[k] == x;
                assert(resolved[k + 1] == x);
            },
            None => {
                assert forall|i: int| 0 <= i < resolved.len() implies (
                #[trigger] resolved[i]).slug != slug by {
                    if i > 0 {
                        assert(t[i - 1] == resolved[i]);
                    }
                }
            },
        }
    } else if resolved.len() > 0 {
        assert(resolved[0] == resolved[0]);
    }
}

/// Two lists of the same identities, each with one identity per slug, give
/// the same identity for every slug, whatever their order.
pub proof fn lemma_identity_for_any_order(
    a: Seq<FilmIdentity>,
    b: Seq<FilmIdentity>,
    slug: Seq<char>,
)
    requires
        distinct_identities(a),
        distinct_identities(b),
        forall|x: FilmIdentity| a.contains(x) <==> b.contains(x),
    ensures
        identity_for(a, slug) == identity_for(b, slug),
{
    lemma_identity_for(a, slug);
    lemma_identity_for(b, slug);
    match identity_for(a, slug) {
        Some(x) => {
            assert(b.contains(x));
            let i = choose|i: int| 0 <= i < b.len() && b[i] == x;
            match identity_for(b, slug) {
                Some(y) => {
                    let j = choose|j: int| 0 <= j < b.len() && b[j] == y;
                    assert(i == j);
                },
                None => {
                    assert(b[i].slug == slug);
                },
            }
        },
        None => {
            match identity_for(b, slug) {
                Some(y) => {
                    assert(a.contains(y));
                    let i = choose|i: int| 0 <= i < a.len() && a[i] == y;
                    assert(a[i].slug == slug);
                },
                None => {},
            }
        },
    }
}

/// The order in which the resolved identities are handed in has no say:
/// two lists of the same identities, each with one identity per slug, give
/// the same identified films in the same order, and the same identities to
/// store.
pub proof fn law_order_of_resolution_has_no_say(
    films: Seq<WatchlistEntry>,
    cached: Seq<StoredFilm>,
    a: Seq<FilmIdentity>,
    b: Seq<FilmIdentity>,
)
    requires
        distinct_identities(a),
        distinct_identities(b),
        forall|x: FilmIdentity| a.contains(x) <==> b.contains(x),
    ensures
        identified(films, cached, a) == identified(films, cached, b),
        identities_to_store(films, cached, a) == identities_to_store(films, cached, b),
    decreases films.len(),
{
    if films.len() > 0 {
        law_order_of_resolution_has_no_say(films.drop_last(), cached, a, b);
        lemma_identity_for_any_order(a, b, films.last().slug);
    }
}

/// The position of the first identity for the slug.
pub fn find_identity(resolved: &Vec<FilmCacheData>, slug: &str) -> (r: Option<usize>)
    ensures
        match r {
            Some(i) => i < resolved.len() && identity_for(resolved.deep_view(), slug@) == Some(
                resolved[i as int].deep_view(),
            ),
            None => identity_for(resolved.deep_view(), slug@) is None,
        },
{
    let mut i: usize = 0;
    assert(resolved.deep_view().skip(0) =~= resolved.deep_view());
    while i < resolved.len()
        invariant
            i <= resolved.len(),
            identity_for(resolved.deep_view(), slug@) == identity_for(
                resolved.deep_view().skip(i as int),
                slug@,
            ),
        decreases resolved.len() - i,
    {
        proof {
            assert(resolved.deep_view().skip(i as int).drop_first() =~= resolved.deep_view().skip(
                i + 1,
            ));
            assert(resolved.deep_view().skip(i as int)[0] == resolved[i as int].deep_view());
        }
        if same_text(resolved[i].slug.as_str(), slug) {
            return Some(i);
        }
        i += 1;
    }
    None
}

/// The films of the run that have a catalog identifier, in the order of the
/// watchlist, and the resolved identities that are to be stored. A film is
/// identified by the cache where that identifies it in full, and otherwise
/// by the first resolved identity of its slug; a film without a catalog
/// identifier is left out of the first list.
pub fn identified_films(
    films: &Vec<WishlistFilm>,
    cached: &Vec<FilmRow>,
    resolved: &Vec<FilmCacheData>,
) -> (r: (Vec<IdentifiedFilm>, Vec<FilmCacheData>))
    ensures
        r.0.deep_view() == identified(films.deep_view(), cached.deep_view(), resolved.deep_view()),
        r.1.deep_view() == identities_to_store(
            films.deep_view(),
            cached.deep_view(),
            resolved.deep_view(),
        ),
{
    let mut out: Vec<IdentifiedFilm> = Vec::new();
    let mut store: Vec<FilmCacheData> = Vec::new();
    let mut i: usize = 0;
    assert(films.deep_view().take(0) =~= Seq::<WatchlistEntry>::empty());
    assert(out.deep_view() =~= Seq::<Identified>::empty());
    assert(store.deep_view() =~= Seq::<FilmIdentity>::empty());
    while i < films.len()
        invariant
            i <= films.len(),
            out.deep_view() == identified(
                films.deep_view().take(i as int),
                cached.deep_view(),
                resolved.deep_view(),
            ),
            store.deep_view() == identities_to_store(
                films.deep_view().take(i as int),
                cached.deep_view(),
                resolved.deep_view(),
            ),
        decreases films.len() - i,
    {
        proof {
            assert(films.deep_view().take(i + 1).drop_last() =~= films.deep_view().take(i as int));
            assert(films.deep_view().take(i + 1).last() == films[i as int].deep_view());
        }
        let film = &films[i];
        let complete = match find_film(cached, film.letterboxd_slug.as_str()) {
            Some(k) => if cached[k].tmdb_id.is_some() && cached[k].poster_path.is_some() {
                Some(k)
            } else {
                None
            },
            None => None,
        };
        match complete {
            Some(k) => {
                let row = &cached[k];
                match row.tmdb_id {
                    Some(id) => {
                        let ghost before = out.deep_view();
                        let year = match row.year {
                            Some(y) => Some(wrap_year(y)),
                            None => None,
                        };
                        out.push(
                            (
                                film.letterboxd_slug.clone(),
                                id,
                                row.title.clone(),
                                year,
                                clone_text(&row.poster_path),
                            ),
                        );
                        assert(out.deep_view() =~= before.push(
                            from_row(film.deep_view(), cached.deep_view())->0,
                        ));
                    },
                    None => {},
                }
            },
            None => {
                match find_identity(resolved, film.letterboxd_slug.as_str()) {
                    Some(k) => {
                        let f = &resolved[k];
                        let ghost stored = store.deep_view();
                        store.push(f.clone());
                        assert(store.deep_view() =~= stored.push(f.deep_view()));
                        match f.tmdb_id {
                            Some(id) => {
                                let ghost before = out.deep_view();
                                out.push(
                                    (
                                        film.letterboxd_slug.clone(),
                                        id,
                                        f.title.clone(),
                                        f.year,
                                        clone_text(&f.poster_path),
                                    ),
                                );
                                assert(out.deep_view() =~= before.push(
                                    (
                                        film.deep_view().slug,
                                        id,
                                        f.deep_view().title,
                                        f.deep_view().year,
                                        f.deep_view().poster_path,
                                    ),
                                ));
                            },
                            None => {},
                        }
                    },
                    None => {},
                }
            },
        }
        i += 1;
    }
    assert(films.deep_view().take(films.len() as int) =~= films.deep_view());
    (out, store)
}

/// The release sets to load for one film: one for each tier of the country.
pub open spec fn requests_for(tmdb_id: i32, country: Seq<char>) -> Seq<(i32, Seq<char>)> {
    Seq::new(fallback_tiers(country).len(), |i: int| (tmdb_id, fallback_tiers(country)[i]))
}

/// The release sets to load for the films: film after film, the requested
/// country, then Australia if that is New Zealand, then the United States
/// unless they are the requested country.
pub open spec fn release_requests(films: Seq<Identified>, country: Seq<char>) -> Seq<
    (i32, Seq<char>),
>
    decreases films.len(),
{
    if films.len() == 0 {
        Seq::empty()
    } else {
        release_requests(films.drop_last(), country) + requests_for(films.last().1, country)
    }
}

/// Every tier of every film is asked for.
pub proof fn lemma_release_requests(films: Seq<Identified>, country: Seq<char>, i: int, t: int)
    requires
        0 <= i < films.len(),
        0 <= t < fallback_tiers(country).len(),
    ensures
        release_requests(films, country).contains((films[i].1, fallback_tiers(country)[t])),
    decreases films.len(),
{
    let before = release_requests(films.drop_last(), country);
    let own = requests_for(films.last().1, country);
    let all = release_requests(films, country);
    if i == films.len() - 1 {
        assert(all[before.len() + t] == own[t]);
    } else {
        lemma_release_requests(films.drop_last(), country, i, t);
        let k = choose|k: int|
            0 <= k < before.len() && before[k] == (films[i].1, fallback_tiers(country)[t]);
        assert(all[k] == before[k]);
    }
}

/// Lists the release sets that a run needs.
pub fn build_release_requests(films: &[IdentifiedFilm], country: &str) -> (r: Vec<(i32, String)>)
    ensures
        r.deep_view() == release_requests(films.deep_view(), country@),
        forall|i: int, t: int|
            0 <= i < films.len() && 0 <= t < fallback_tiers(country@).len()
                ==> #[trigger] r.deep_view().contains(
                (films.deep_view()[i].1, fallback_tiers(country@)[t]),
            ),
{
    let tiers = tiers_for(country);
    let mut requests: Vec<(i32, String)> = Vec::new();
    let mut i: usize = 0;
    assert(films.deep_view().take(0) =~= Seq::<Identified>::empty());
    assert(requests.deep_view() =~= Seq::<(i32, Seq<char>)>::empty());
    while i < films.len()
        invariant
            i <= films.len(),
            tiers.deep_view() == fallback_tiers(country@),
            requests.deep_view() == release_requests(films.deep_view().take(i as int), country@),
        decreases films.len() - i,
    {
        proof {
            assert(films.deep_view().take(i + 1).drop_last() =~= films.deep_view().take(i as int));
            assert(films.deep_view().take(i + 1).last() == films[i as int].deep_view());
        }
        let tmdb_id = films[i].1;
        let ghost before = requests.deep_view();
        let mut t: usize = 0;
        while t < tiers.len()
            invariant
                t <= tiers.len(),
                tiers.deep_view() == fallback_tiers(country@),
                requests.deep_view() == before + requests_for(tmdb_id, country@).take(t as int),
            decreases tiers.len() - t,
        {
            let ghost mid = requests.deep_view();
            requests.push((tmdb_id, tiers[t].clone()));
            assert(requests.deep_view() =~= before + requests_for(tmdb_id, country@).take(t + 1))
                by {
                assert(requests.deep_view() =~= mid.push((tmdb_id, tiers[t as int]@)));
                assert(tiers.deep_view()[t as int] == tiers[t as int]@);
            }
            t += 1;
        }
        assert(requests_for(tmdb_id, country@).take(tiers.len() as int) =~= requests_for(
            tmdb_id,
            country@,
        ));
        i += 1;
    }
    assert(films.deep_view().take(films.len() as int) =~= films.deep_view());
    proof {
        assert forall|i: int, t: int|
            0 <= i < films.len() && 0 <= t < fallback_tiers(country@).len()
                implies #[trigger] requests.deep_view().contains(
            (films.deep_view()[i].1, fallback_tiers(country@)[t]),
        ) by {
            lemma_release_requests(films.deep_view(), country@, i, t);
        }
    }
    requests
}

/// The requests of `requests` that `cached` has no release set for, in
/// their order.
pub open spec fn missing_releases(requests: Seq<(i32, Seq<char>)>, cached: Seq<KnownReleases>)
    -> Seq<(i32, Seq<char>)>
    decreases requests.len(),
{
    if requests.len() == 0 {
        Seq::empty()
    } else if known_entry(cached, requests.last().0, requests.last().1) is None {
        missing_releases(requests.drop_last(), cached).push(requests.last())
    } else {
        missing_releases(requests.drop_last(), cached)
    }
}

/// The release sets that the cache did not have.
pub fn uncached_release_requests(requests: &Vec<(i32, String)>, cached: &Vec<ReleaseCacheEntry>)
    -> (r: Vec<(i32, String)>)
    ensures
        r.deep_view() == missing_releases(requests.deep_view(), cached.deep_view()),
{
    let mut out: Vec<(i32, String)> = Vec::new();
    let mut i: usize = 0;
    assert(requests.deep_view().take(0) =~= Seq::<(i32, Seq<char>)>::empty());
    while i < requests.len()
        invariant
            i <= requests.len(),
            out.deep_view() == missing_releases(
                requests.deep_view().take(i as int),
                cached.deep_view(),
            ),
        decreases requests.len() - i,
    {
        proof {
            assert(requests.deep_view().take(i + 1).drop_last() =~= requests.deep_view().take(
                i as int,
            ));
            assert(requests.deep_view().take(i + 1).last() == requests[i as int].deep_view());
        }
        if find_known(cached, requests[i].0, requests[i].1.as_str()).is_none() {
            let ghost before = out.deep_view();
            out.push((requests[i].0, requests[i].1.clone()));
            assert(out.deep_view() =~= before.push(requests[i as int].deep_view()));
        }
        i += 1;
    }
    assert(requests.deep_view().take(requests.len() as int) =~= requests.deep_view());
    out
}

/// Some group of `groups` is for the film.
pub open spec fn has_group(groups: Seq<(i32, Seq<Seq<char>>)>, tmdb_id: i32) -> bool {
    exists|i: int| 0 <= i < groups.len() && (#[trigger] groups[i]).0 == tmdb_id
}

/// `groups` with `country` added to the film's group, or with a new group
/// for the film behind all where it had none.
pub open spec fn with_request(
    groups: Seq<(i32, Seq<Seq<char>>)>,
    tmdb_id: i32,
    country: Seq<char>,
) -> Seq<(i32, Seq<Seq<char>>)> {
    if has_group(groups, tmdb_id) {
        Seq::new(
            groups.len(),
            |i: int|
                if groups[i].0 == tmdb_id {
                    (tmdb_id, groups[i].1.push(country))
                } else {
                    groups[i]
                },
        )
    } else {
        groups.push((tmdb_id, seq![country]))
    }
}

/// The requests grouped by film: the films in the order of their first
/// request, each with its countries in the order of the requests.
pub open spec fn grouped(requests: Seq<(i32, Seq<char>)>) -> Seq<(i32, Seq<Seq<char>>)>
    decreases requests.len(),
{
    if requests.len() == 0 {
        Seq::empty()
    } else {
        with_request(grouped(requests.drop_last()), requests.last().0, requests.last().1)
    }
}

/// In the grouped requests no film has two groups and no group is empty.
pub proof fn lemma_grouped(requests: Seq<(i32, Seq<char>)>)
    ensures
        forall|i: int, j: int|
            0 <= i < j < grouped(requests).len() ==> (#[trigger] grouped(requests)[i]).0 != (
            #[trigger] grouped(requests)[j]).0,
        forall|i: int| 0 <= i < grouped(requests).len() ==> (#[trigger] grouped(requests)[i]).1.len()
            > 0,
    decreases requests.len(),
{
    if requests.len() > 0 {
        let g = grouped(requests.drop_last());
        lemma_grouped(requests.drop_last());
        let id = requests.last().0;
        let r = grouped(requests);
        if !has_group(g, id) {
            assert forall|i: int, j: int| 0 <= i < j < r.len() implies (#[trigger] r[i]).0 != (
            #[trigger] r[j]).0 by {
                if j == g.len() {
                    assert(g[i].0 != id);
                }
            }
        }
    }
}

/// Groups the requests by film, so that one fetch serves all countries of a
/// film.
pub fn group_by_film(requests: &Vec<(i32, String)>) -> (r: Vec<(i32, Vec<String>)>)
    ensures
        r.deep_view() == grouped(requests.deep_view()),
        forall|i: int, j: int|
            0 <= i < j < r.len() ==> (#[trigger] r.deep_view()[i]).0 != (
            #[trigger] r.deep_view()[j]).0,
        forall|i: int| 0 <= i < r.len() ==> (#[trigger] r.deep_view()[i]).1.len() > 0,
{
    let mut groups: Vec<(i32, Vec<String>)> = Vec::new();
    let mut i: usize = 0;
    assert(requests.deep_view().take(0) =~= Seq::<(i32, Seq<char>)>::empty());
    assert(groups.deep_view() =~= Seq::<(i32, Seq<Seq<char>>)>::empty());
    while i < requests.len()
        invariant
            i <= requests.len(),
            groups.deep_view() == grouped(requests.deep_view().take(i as int)),
        decreases requests.len() - i,
    {
        proof {
            assert(requests.deep_view().take(i + 1).drop_last() =~= requests.deep_view().take(
                i as int,
            ));
            assert(requests.deep_view().take(i + 1).last() == requests[i as int].deep_view());
        }
        let tmdb_id = requests[i].0;
        let ghost before = groups.deep_view();
        let ghost country = requests[i as int].1@;
        let mut found = false;
        let mut k: usize = 0;
        while k < groups.len()
            invariant
                k <= groups.len(),
                groups.len() == before.len(),
                i < requests.len(),
                country == requests[i as int].1@,
                found == exists|j: int| 0 <= j < k && (#[trigger] before[j]).0 == tmdb_id,
                forall|j: int|
                    0 <= j < k ==> #[trigger] groups.deep_view()[j] == if before[j].0 == tmdb_id {
                        (tmdb_id, before[j].1.push(country))
                    } else {
                        before[j]
                    },
                forall|j: int| k <= j < groups.len() ==> #[trigger] groups.deep_view()[j]
                    == before[j],
            decreases groups.len() - k,
        {
            assert(groups.deep_view()[k as int] == before[k as int]);
            if groups[k].0 == tmdb_id {
                let ghost mid = groups.deep_view();
                let mut countries: Vec<String> = Vec::new();
                let mut c: usize = 0;
                while c < groups[k].1.len()
                    invariant
                        k < groups.len(),
                        c <= groups[k as int].1.len(),
                        countries.deep_view() == groups[k as int].1.deep_view().take(c as int),
                    decreases groups[k as int].1.len() - c,
                {
                    let ghost was = countries.deep_view();
                    countries.push(groups[k].1[c].clone());
                    assert(countries.deep_view() =~= groups[k as int].1.deep_view().take(c + 1)) by {
                        assert(countries.deep_view() =~= was.push(groups[k as int].1[c as int]@));
                        assert(groups[k as int].1.deep_view()[c as int] == groups[k as int].1[c as int]@);
                    }
                    c += 1;
                }
                assert(groups[k as int].1.deep_view().take(groups[k as int].1.len() as int)
                    =~= groups[k as int].1.deep_view());
                let ghost old_countries = countries.deep_view();
                countries.push(requests[i].1.clone());
                assert(countries.deep_view() =~= old_countries.push(country));
                groups.set(k, (tmdb_id, countries));
                assert forall|j: int| 0 <= j < groups.len() && j != k implies #[trigger] groups.deep_view()[j]
                    == mid[j] by {}
                assert(groups.deep_view()[k as int] == (tmdb_id, before[k as int].1.push(country)));
                found = true;
            }
            k += 1;
        }
        if !found {
            let ghost mid = groups.deep_view();
            assert(mid =~= before);
            let mut countries: Vec<String> = Vec::new();
            countries.push(requests[i].1.clone());
            assert(countries.deep_view() =~= seq![country]);
            groups.push((tmdb_id, countries));
            assert(groups.deep_view() =~= before.push((tmdb_id, seq![country])));
        } else {
            assert(groups.deep_view() =~= with_request(before, tmdb_id, country));
        }
        i += 1;
    }
    assert(requests.deep_view().take(requests.len() as int) =~= requests.deep_view());
    proof {
        lemma_grouped(requests.deep_view());
    }
    groups
}

/// The sets of `sets` whose country is among `countries`, in their order.
pub open spec fn sets_for(sets: Seq<CountryReleaseSet>, countries: Seq<Seq<char>>) -> Seq<
    CountryReleaseSet,
>
    decreases sets.len(),
{
    if sets.len() == 0 {
        Seq::empty()
    } else if countries.contains(sets.last().country) {
        sets_for(sets.drop_last(), countries).push(sets.last())
    } else {
        sets_for(sets.drop_last(), countries)
    }
}

/// An empty set for each of `countries` that `found` has no set for.
pub open spec fn empty_sets(countries: Seq<Seq<char>>, found: Seq<CountryReleaseSet>) -> Seq<
    CountryReleaseSet,
>
    decreases countries.len(),
{
    if countries.len() == 0 {
        Seq::empty()
    } else if country_entry(found, countries.last()) is None {
        empty_sets(countries.drop_last(), found).push(empty_set(countries.last()))
    } else {
        empty_sets(countries.drop_last(), found)
    }
}

/// What is kept of a fetch for a film: the sets of the requested countries,
/// and an empty set for each requested country that the provider did not
/// report.
pub open spec fn completed(countries: Seq<Seq<char>>, fetched: Seq<CountryReleaseSet>) -> Seq<
    CountryReleaseSet,
> {
    sets_for(fetched, countries) + empty_sets(countries, sets_for(fetched, countries))
}

/// Whether `texts` holds `t`.
fn holds(texts: &Vec<String>, t: &str) -> (r: bool)
    ensures
        r == texts.deep_view().contains(t@),
{
    crate::cache::holds_text(texts, t)
}

/// Keeps of the fetched sets those of the requested countries, and adds an
/// empty set for every requested country without one: the film is then known
/// to have no release there.
pub fn complete_countries(countries: &Vec<String>, fetched: &Vec<CountryReleases>) -> (r: Vec<
    CountryReleases,
>)
    ensures
        r.deep_view() == completed(countries.deep_view(), fetched.deep_view()),
{
    let mut found: Vec<CountryReleases> = Vec::new();
    let mut i: usize = 0;
    assert(fetched.deep_view().take(0) =~= Seq::<CountryReleaseSet>::empty());
    assert(found.deep_view() =~= Seq::<CountryReleaseSet>::empty());
    while i < fetched.len()
        invariant
            i <= fetched.len(),
            found.deep_view() == sets_for(fetched.deep_view().take(i as int), countries.deep_view()),
        decreases fetched.len() - i,
    {
        proof {
            assert(fetched.deep_view().take(i + 1).drop_last() =~= fetched.deep_view().take(
                i as int,
            ));
            assert(fetched.deep_view().take(i + 1).last() == fetched[i as int].deep_view());
        }
        if holds(countries, fetched[i].country.as_str()) {
            let ghost before = found.deep_view();
            found.push(fetched[i].clone());
            assert(found.deep_view() =~= before.push(fetched[i as int].deep_view()));
        }
        i += 1;
    }
    assert(fetched.deep_view().take(fetched.len() as int) =~= fetched.deep_view());
    let mut added: Vec<CountryReleases> = Vec::new();
    let mut j: usize = 0;
    assert(countries.deep_view().take(0) =~= Seq::<Seq<char>>::empty());
    assert(added.deep_view() =~= Seq::<CountryReleaseSet>::empty());
    while j < countries.len()
        invariant
            j <= countries.len(),
            added.deep_view() == empty_sets(countries.deep_view().take(j as int), found.deep_view()),
        decreases countries.len() - j,
    {
        proof {
            assert(countries.deep_view().take(j + 1).drop_last() =~= countries.deep_view().take(
                j as int,
            ));
            assert(countries.deep_view().take(j + 1).last() == countries[j as int]@);
        }
        if find_country(&found, countries[j].as_str()).is_none() {
            let ghost before = added.deep_view();
            added.push(empty_country(countries[j].as_str()));
            assert(added.deep_view() =~= before.push(empty_set(countries[j as int]@)));
        }
        j += 1;
    }
    assert(countries.deep_view().take(countries.len() as int) =~= countries.deep_view());
    let ghost first = found.deep_view();
    let ghost second = added.deep_view();
    found.append(&mut added);
    assert(found.deep_view() =~= first + second);
    found
}

/// The result for one identified film, before watch offers are attached.
pub open spec fn film_result(
    film: Identified,
    cached: Seq<KnownReleases>,
    fresh: Seq<KnownReleases>,
    country: Seq<char>,
) -> FilmResult {
    let r = resolution(cached, fresh, film.1, country);
    FilmResult {
        title: film.2,
        year: film.3,
        tmdb_id: film.1,
        slug: film.0,
        poster_path: film.4,
        theatrical: r.theatrical,
        streaming: r.streaming,
        category: r.category,
        providers: Seq::empty(),
    }
}

/// The results for the identified films, in their order.
pub open spec fn film_results(
    films: Seq<Identified>,
    cached: Seq<KnownReleases>,
    fresh: Seq<KnownReleases>,
    country: Seq<char>,
) -> Seq<FilmResult> {
    Seq::new(films.len(), |i: int| film_result(films[i], cached, fresh, country))
}

/// Decides for every identified film what it is shown with, from the release
/// sets that were cached and those that were fetched.
pub fn assemble_results(
    films: &Vec<IdentifiedFilm>,
    cached: &Vec<ReleaseCacheEntry>,
    fresh: &Vec<ReleaseCacheEntry>,
    country: &str,
) -> (r: Vec<FilmWithReleases>)
    ensures
        r.deep_view() == film_results(
            films.deep_view(),
            cached.deep_view(),
            fresh.deep_view(),
            country@,
        ),
{
    let mut out: Vec<FilmWithReleases> = Vec::new();
    let mut i: usize = 0;
    while i < films.len()
        invariant
            i <= films.len(),
            out.len() == i,
            forall|j: int|
                0 <= j < i ==> #[trigger] out.deep_view()[j] == film_result(
                    films.deep_view()[j],
                    cached.deep_view(),
                    fresh.deep_view(),
                    country@,
                ),
        decreases films.len() - i,
    {
        let film = &films[i];
        let (theatrical, streaming, category) = get_releases_with_fallback_bulk(
            cached,
            fresh,
            film.1,
            country,
        );
        let ghost before = out.deep_view();
        let result = FilmWithReleases {
            title: film.2.clone(),
            year: film.3,
            tmdb_id: film.1,
            letterboxd_slug: film.0.clone(),
            poster_path: clone_text(&film.4),
            theatrical,
            streaming,
            category,
            streaming_providers: Vec::new(),
        };
        assert(result.streaming_providers.deep_view() =~= Seq::<ProviderOffer>::empty());
        assert(films.deep_view()[i as int] == film.deep_view());
        out.push(result);
        assert(out.deep_view() =~= before.push(
            film_result(film.deep_view(), cached.deep_view(), fresh.deep_view(), country@),
        ));
        i += 1;
    }
    assert(out.deep_view() =~= film_results(
        films.deep_view(),
        cached.deep_view(),
        fresh.deep_view(),
        country@,
    ));
    out
}

/// A film needs a lookup of watch offers unless some streaming entry of it
/// is dated after `today`.
pub open spec fn needs_lookup(streaming: Seq<ReleaseEntry>, today: CivilDate) -> bool {
    forall|i: int| 0 <= i < streaming.len() ==> (#[trigger] streaming[i]).date.key() <= today.key()
}

/// Whether the film needs a lookup of watch offers.
pub fn needs_provider_lookup(film: &FilmWithReleases, today: &CivilDate) -> (r: bool)
    ensures
        r == needs_lookup(film.deep_view().streaming, *today),
{
    let mut i: usize = 0;
    while i < film.streaming.len()
        invariant
            i <= film.streaming.len(),
            forall|j: int|
                0 <= j < i ==> (#[trigger] film.streaming.deep_view()[j]).date.key() <= today.key(),
        decreases film.streaming.len() - i,
    {
        if today.lt(&film.streaming[i].date) {
            assert(film.streaming.deep_view()[i as int].date == film.streaming[i as int].date);
            return false;
        }
        assert(film.streaming.deep_view()[i as int].date == film.streaming[i as int].date);
        i += 1;
    }
    true
}

/// The watch offers to load: for each film that needs a lookup, in order,
/// the film in the requested country.
pub open spec fn provider_requests(films: Seq<FilmResult>, country: Seq<char>, today: CivilDate)
    -> Seq<(i32, Seq<char>)>
    decreases films.len(),
{
    if films.len() == 0 {
        Seq::empty()
    } else if needs_lookup(films.last().streaming, today) {
        provider_requests(films.drop_last(), country, today).push((films.last().tmdb_id, country))
    } else {
        provider_requests(films.drop_last(), country, today)
    }
}

/// Lists the watch offers that a run needs.
pub fn build_provider_requests(films: &Vec<FilmWithReleases>, country: &str, today: &CivilDate)
    -> (r: Vec<(i32, String)>)
    ensures
        r.deep_view() == provider_requests(films.deep_view(), country@, *today),
{
    let mut out: Vec<(i32, String)> = Vec::new();
    let mut i: usize = 0;
    assert(films.deep_view().take(0) =~= Seq::<FilmResult>::empty());
    assert(out.deep_view() =~= Seq::<(i32, Seq<char>)>::empty());
    while i < films.len()
        invariant
            i <= films.len(),
            out.deep_view() == provider_requests(films.deep_view().take(i as int), country@, *today),
        decreases films.len() - i,
    {
        proof {
            assert(films.deep_view().take(i + 1).drop_last() =~= films.deep_view().take(i as int));
            assert(films.deep_view().take(i + 1).last() == films[i as int].deep_view());
        }
        if needs_provider_lookup(&films[i], today) {
            let ghost before = out.deep_view();
            out.push((films[i].tmdb_id, country.to_owned()));
            assert(out.deep_view() =~= before.push((films[i as int].tmdb_id, country@)));
        }
        i += 1;
    }
    assert(films.deep_view().take(films.len() as int) =~= films.deep_view());
    out
}

/// The requests of `requests` that `cached` has no watch offers for, in
/// their order.
pub open spec fn missing_providers(requests: Seq<(i32, Seq<char>)>, cached: Seq<KnownProviders>)
    -> Seq<(i32, Seq<char>)>
    decreases requests.len(),
{
    if requests.len() == 0 {
        Seq::empty()
    } else if known_offers(cached, requests.last().0, requests.last().1) is None {
        missing_providers(requests.drop_last(), cached).push(requests.last())
    } else {
        missing_providers(requests.drop_last(), cached)
    }
}

/// The watch offers that the cache did not have.
pub fn uncached_provider_requests(
    requests: &Vec<(i32, String)>,
    cached: &Vec<ProviderCacheEntry>,
) -> (r: Vec<(i32, String)>)
    ensures
        r.deep_view() == missing_providers(requests.deep_view(), cached.deep_view()),
{
    let mut out: Vec<(i32, String)> = Vec::new();
    let mut i: usize = 0;
    assert(requests.deep_view().take(0) =~= Seq::<(i32, Seq<char>)>::empty());
    while i < requests.len()
        invariant
            i <= requests.len(),
            out.deep_view() == missing_providers(
                requests.deep_view().take(i as int),
                cached.deep_view(),
            ),
        decreases requests.len() - i,
    {
        proof {
            assert(requests.deep_view().take(i + 1).drop_last() =~= requests.deep_view().take(
                i as int,
            ));
            assert(requests.deep_view().take(i + 1).last() == requests[i as int].deep_view());
        }
        if find_offers(cached, requests[i].0, requests[i].1.as_str()).is_none() {
            let ghost before = out.deep_view();
            out.push((requests[i].0, requests[i].1.clone()));
            assert(out.deep_view() =~= before.push(requests[i as int].deep_view()));
        }
        i += 1;
    }
    assert(requests.deep_view().take(requests.len() as int) =~= requests.deep_view());
    out
}

/// The watch offers of a film in the country: what the cache holds, else
/// what was fetched, else what the film has.
pub open spec fn offers_for(
    film: FilmResult,
    country: Seq<char>,
    cached: Seq<KnownProviders>,
    fresh: Seq<KnownProviders>,
) -> Seq<ProviderOffer> {
    match known_offers(cached, film.tmdb_id, country) {
        Some(p) => p,
        None => match known_offers(fresh, film.tmdb_id, country) {
            Some(p) => p,
            None => film.providers,
        },
    }
}

/// A film with the watch offers that are known of it in the country.
pub open spec fn with_offers(
    film: FilmResult,
    country: Seq<char>,
    cached: Seq<KnownProviders>,
    fresh: Seq<KnownProviders>,
) -> FilmResult {
    FilmResult {
        title: film.title,
        year: film.year,
        tmdb_id: film.tmdb_id,
        slug: film.slug,
        poster_path: film.poster_path,
        theatrical: film.theatrical,
        streaming: film.streaming,
        category: film.category,
        providers: offers_for(film, country, cached, fresh),
    }
}

/// Gives every film the watch offers that are known of it in the requested
/// country. Nothing else of a film changes.
pub fn attach_providers(
    results: &mut Vec<FilmWithReleases>,
    country: &str,
    cached: &Vec<ProviderCacheEntry>,
    fresh: &Vec<ProviderCacheEntry>,
)
    ensures
        final(results).len() == old(results).len(),
        forall|i: int|
            0 <= i < old(results).len() ==> #[trigger] final(results).deep_view()[i] == with_offers(
                old(results).deep_view()[i],
                country@,
                cached.deep_view(),
                fresh.deep_view(),
            ),
{
    let mut i: usize = 0;
    while i < results.len()
        invariant
            i <= results.len(),
            results.len() == old(results).len(),
            forall|j: int|
                0 <= j < i ==> #[trigger] results.deep_view()[j] == with_offers(
                    old(results).deep_view()[j],
                    country@,
                    cached.deep_view(),
                    fresh.deep_view(),
                ),
            forall|j: int| i <= j < results.len() ==> #[trigger] results.deep_view()[j] == old(
                results,
            ).deep_view()[j],
        decreases results.len() - i,
    {
        assert(results.deep_view()[i as int] == old(results).deep_view()[i as int]);
        let tmdb_id = results[i].tmdb_id;
        let found = match find_offers(cached, tmdb_id, country) {
            Some(k) => Some(clone_providers(&cached[k].providers)),
            None => match find_offers(fresh, tmdb_id, country) {
                Some(k) => Some(clone_providers(&fresh[k].providers)),
                None => None,
            },
        };
        match found {
            Some(providers) => {
                let ghost before = results.deep_view();
                let film = &results[i];
                let updated = FilmWithReleases {
                    title: film.title.clone(),
                    year: film.year,
                    tmdb_id: film.tmdb_id,
                    letterboxd_slug: film.letterboxd_slug.clone(),
                    poster_path: clone_text(&film.poster_path),
                    theatrical: clone_releases(&film.theatrical),
                    streaming: clone_releases(&film.streaming),
                    category: film.category,
                    streaming_providers: providers,
                };
                results.set(i, updated);
                assert forall|j: int| 0 <= j < results.len() && j != i implies #[trigger] results.deep_view()[j]
                    == before[j] by {}
            },
            None => {},
        }
        i += 1;
    }
}

} // verus!
