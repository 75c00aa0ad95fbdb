//! A pipeline run as a sequence of states.
//!
//! The run itself neither reads a cache nor asks a provider. Each state says
//! what it waits for; each transition takes what was loaded or fetched,
//! decides, and hands back the next state together with what to load or
//! fetch next. The caller does the loading, fetching and storing, with as
//! many requests in flight as [`fan_out`] allows (see [`crate::fanout`]),
//! and hands in what succeeded, in whatever order it was completed. A film
//! whose resolution or whose fetch of release dates failed is absent from
//! what is handed in, and the transitions leave it out of the result; the
//! order of what is handed in has no say in the result (see
//! [`crate::pipeline_laws`]).
//!
//! In order: [`process`] filters the watchlist and asks for the cached
//! identities; [`AwaitingIdentities::identities_loaded`] asks for the
//! resolution of the films that the cache does not identify, and for the
//! posters that it lacks;
//! [`AwaitingResolution::identities_resolved`] asks for the cached release
//! sets; [`AwaitingCachedReleases::releases_loaded`] asks for the fetch of
//! the missing ones, grouped by film;
//! [`AwaitingFetchedReleases::releases_fetched`] decides what every film is
//! shown with and asks for the cached watch offers;
//! [`AwaitingCachedProviders::providers_loaded`] asks for the fetch of the
//! missing ones; [`AwaitingFetchedProviders::providers_fetched`] attaches
//! the offers and returns the sorted list.

use crate::cache::{FilmCacheData, FilmRow, KnownProviders, ProviderCacheEntry};
use crate::date::CivilDate;
use crate::fallback::{KnownReleases, ReleaseCacheEntry};
use crate::models::{
    clone_text, CountryReleaseSet, CountryReleases, FilmResult, FilmWithReleases, WishlistFilm,
};
use crate::order::{ordered, stable_sort};
use crate::processor::{
    assemble_results, attach_providers, build_provider_requests, build_release_requests,
    complete_countries, completed, film_results, films_where, filter_by_year, group_by_film,
    grouped, has_group, identified, identified_films, identities_to_store, missing_providers,
    missing_releases, partition_by_identity, posterless, provider_requests, recent_films,
    release_requests, slugs, slugs_of, uncached_provider_requests, uncached_release_requests,
    with_offers, Identified, IdentifiedFilm, Standing,
};
use crate::ranking::{by_release, sort_films};
use vstd::prelude::*;

verus! {

/// The number of requests that may be in flight at once: the configured
/// maximum, and at least one.
pub fn fan_out(max_concurrent: usize) -> (r: usize)
    ensures
        r == if max_concurrent == 0 {
            1
        } else {
            max_concurrent
        },
{
    if max_concurrent == 0 {
        1
    } else {
        max_concurrent
    }
}

/// The run waits for the cached identities of its films.
#[derive(Debug)]
pub struct AwaitingIdentities {
    pub films: Vec<WishlistFilm>,
    pub country: String,
    pub today: CivilDate,
}

/// The run waits for the resolution of the films without a cached identity.
#[derive(Debug)]
pub struct AwaitingResolution {
    pub films: Vec<WishlistFilm>,
    pub cached: Vec<FilmRow>,
    pub country: String,
    pub today: CivilDate,
}

/// The run waits for the cached release sets.
#[derive(Debug)]
pub struct AwaitingCachedReleases {
    pub films: Vec<IdentifiedFilm>,
    pub requests: Vec<(i32, String)>,
    pub country: String,
    pub today: CivilDate,
}

/// The run waits for the release sets that the cache did not have.
#[derive(Debug)]
pub struct AwaitingFetchedReleases {
    pub films: Vec<IdentifiedFilm>,
    pub cached: Vec<ReleaseCacheEntry>,
    pub groups: Vec<(i32, Vec<String>)>,
    pub country: String,
    pub today: CivilDate,
}

/// The run waits for the cached watch offers.
#[derive(Debug)]
pub struct AwaitingCachedProviders {
    pub results: Vec<FilmWithReleases>,
    pub requests: Vec<(i32, String)>,
    pub country: String,
}

/// The run waits for the watch offers that the cache did not have.
#[derive(Debug)]
pub struct AwaitingFetchedProviders {
    pub results: Vec<FilmWithReleases>,
    pub cached: Vec<ProviderCacheEntry>,
    pub country: String,
}

/// How a run begins.
#[derive(Debug)]
pub enum Start {
    /// No film of the watchlist is tracked: the result is the empty list, and
    /// nothing is loaded.
    Nothing,
    /// Load the cached identities of `slugs`.
    LoadIdentities { state: AwaitingIdentities, slugs: Vec<String> },
}

/// What a provider reported for one film: the release sets of all
/// countries.
#[derive(Debug, PartialEq, Eq)]
pub struct FetchedReleases {
    pub tmdb_id: i32,
    pub all_countries: Vec<CountryReleases>,
}

/// What a [`FetchedReleases`] is.
pub struct Fetched {
    pub tmdb_id: i32,
    pub all_countries: Seq<CountryReleaseSet>,
}

impl DeepView for FetchedReleases {
    type V = Fetched;

    open spec fn deep_view(&self) -> Fetched {
        Fetched { tmdb_id: self.tmdb_id, all_countries: self.all_countries.deep_view() }
    }
}

/// The countries of the first group for the film; none where it has no
/// group.
pub open spec fn group_countries(groups: Seq<(i32, Seq<Seq<char>>)>, tmdb_id: i32) -> Seq<
    Seq<char>,
>
    decreases groups.len(),
{
    if groups.len() == 0 {
        Seq::empty()
    } else if groups[0].0 == tmdb_id {
        groups[0].1
    } else {
        group_countries(groups.drop_first(), tmdb_id)
    }
}

/// The release sets that are kept of a fetch: those of the countries that
/// were asked for the film, completed with empty sets.
pub open spec fn kept_sets(groups: Seq<(i32, Seq<Seq<char>>)>, f: Fetched) -> Seq<
    CountryReleaseSet,
> {
    completed(group_countries(groups, f.tmdb_id), f.all_countries)
}

/// What is to be stored after the fetches: for each fetch, in order, the
/// film and the release sets kept of it.
pub open spec fn sets_to_store(groups: Seq<(i32, Seq<Seq<char>>)>, fetched: Seq<Fetched>) -> Seq<
    (i32, Seq<CountryReleaseSet>),
> {
    Seq::new(fetched.len(), |i: int| (fetched[i].tmdb_id, kept_sets(groups, fetched[i])))
}

/// The sets of one film as entries.
pub open spec fn entries_of(tmdb_id: i32, sets: Seq<CountryReleaseSet>) -> Seq<KnownReleases> {
    Seq::new(sets.len(), |i: int| KnownReleases { tmdb_id, releases: sets[i] })
}

/// The release data that the fetches add to what the cache had.
pub open spec fn fresh_entries(groups: Seq<(i32, Seq<Seq<char>>)>, fetched: Seq<Fetched>) -> Seq<
    KnownReleases,
>
    decreases fetched.len(),
{
    if fetched.len() == 0 {
        Seq::empty()
    } else {
        fresh_entries(groups, fetched.drop_last()) + entries_of(
            fetched.last().tmdb_id,
            kept_sets(groups, fetched.last()),
        )
    }
}

/// Some fetch is for the film.
pub open spec fn has_fetch(fetched: Seq<Fetched>, tmdb_id: i32) -> bool {
    exists|i: int| 0 <= i < fetched.len() && (#[trigger] fetched[i]).tmdb_id == tmdb_id
}

/// The film's release data is at hand: no fetch was asked for it, or a
/// fetch for it succeeded.
pub open spec fn answered(groups: Seq<(i32, Seq<Seq<char>>)>, fetched: Seq<Fetched>, tmdb_id: i32)
    -> bool {
    !has_group(groups, tmdb_id) || has_fetch(fetched, tmdb_id)
}

/// The films whose release data is at hand, in their order.
pub open spec fn answered_films(
    films: Seq<Identified>,
    groups: Seq<(i32, Seq<Seq<char>>)>,
    fetched: Seq<Fetched>,
) -> Seq<Identified>
    decreases films.len(),
{
    if films.len() == 0 {
        Seq::empty()
    } else if answered(groups, fetched, films.last().1) {
        answered_films(films.drop_last(), groups, fetched).push(films.last())
    } else {
        answered_films(films.drop_last(), groups, fetched)
    }
}

/// The results with the watch offers attached.
pub open spec fn attached(
    results: Seq<FilmResult>,
    country: Seq<char>,
    cached: Seq<KnownProviders>,
    fresh: Seq<KnownProviders>,
) -> Seq<FilmResult> {
    Seq::new(results.len(), |i: int| with_offers(results[i], country, cached, fresh))
}

/// Begins a run: keeps the films that are tracked in `current_year` and asks
/// for their cached identities; where no film is tracked, the run is over.
pub fn process(films: &Vec<WishlistFilm>, country: &str, current_year: i16, today: CivilDate) -> (r:
    Start)
    ensures
        match r {
            Start::Nothing => recent_films(films.deep_view(), current_year).len() == 0,
            Start::LoadIdentities { state, slugs: asked } => {
                &&& state.films.deep_view() == recent_films(films.deep_view(), current_year)
                &&& state.films.len() > 0
                &&& state.country@ == country@
                &&& state.today == today
                &&& asked.deep_view() == slugs(state.films.deep_view())
            },
        },
{
    let recent = filter_by_year(films, current_year);
    if recent.len() == 0 {
        return Start::Nothing;
    }
    let asked = slugs_of(&recent);
    Start::LoadIdentities {
        state: AwaitingIdentities { films: recent, country: country.to_owned(), today },
        slugs: asked,
    }
}

impl AwaitingIdentities {
    /// Takes the cached identities. Asks for the resolution of the films
    /// that they do not identify (second component), and for the poster of
    /// each identity that lacks one (third component): such a film is
    /// resolved again by the catalog alone, without its page and without a
    /// search. Both kinds of outcome are handed to
    /// [`AwaitingResolution::identities_resolved`].
    pub fn identities_loaded(self, cached: Vec<FilmRow>) -> (r: (
        AwaitingResolution,
        Vec<WishlistFilm>,
        Vec<FilmCacheData>,
    ))
        ensures
            r.0.films == self.films,
            r.0.cached == cached,
            r.0.country == self.country,
            r.0.today == self.today,
            r.1.deep_view() == films_where(
                self.films.deep_view(),
                cached.deep_view(),
                Standing::Unknown,
            ),
            r.2.deep_view() == posterless(self.films.deep_view(), cached.deep_view()),
    {
        let (_, refresh, unknown) = partition_by_identity(&self.films, &cached);
        (
            AwaitingResolution {
                films: self.films,
                cached,
                country: self.country,
                today: self.today,
            },
            unknown,
            refresh,
        )
    }
}

impl AwaitingResolution {
    /// Takes the identities that resolution gave, in any order. A film that
    /// the cache identifies in full stands as cached; any other film is
    /// identified by the first identity handed in for its slug. An identity
    /// for a slug that is not on the watchlist, and a second identity for a
    /// slug, are ignored. Returns the identities to store (second component,
    /// with or without a catalog identifier) and asks for the cached
    /// release sets of every film that has a catalog identifier (third
    /// component). The identified films stand in the order of the
    /// watchlist, whatever the order of `resolved`.
    pub fn identities_resolved(self, resolved: &Vec<FilmCacheData>) -> (r: (
        AwaitingCachedReleases,
        Vec<FilmCacheData>,
        Vec<(i32, String)>,
    ))
        ensures
            r.0.films.deep_view() == identified(
                self.films.deep_view(),
                self.cached.deep_view(),
                resolved.deep_view(),
            ),
            r.0.requests.deep_view() == release_requests(r.0.films.deep_view(), self.country@),
            r.0.country == self.country,
            r.0.today == self.today,
            r.1.deep_view() == identities_to_store(
                self.films.deep_view(),
                self.cached.deep_view(),
                resolved.deep_view(),
            ),
            r.2.deep_view() == r.0.requests.deep_view(),
    {
        let (films, store) = identified_films(&self.films, &self.cached, resolved);
        let requests = build_release_requests(films.as_slice(), self.country.as_str());
        let asked = clone_requests(&requests);
        (
            AwaitingCachedReleases {
                films,
                requests,
                country: self.country,
                today: self.today,
            },
            store,
            asked,
        )
    }
}

impl AwaitingCachedReleases {
    /// Takes the cached release sets and asks for the fetch of the missing
    /// ones: one fetch per film, for the countries listed with the film.
    pub fn releases_loaded(self, cached: Vec<ReleaseCacheEntry>) -> (r: (
        AwaitingFetchedReleases,
        Vec<(i32, Vec<String>)>,
    ))
        ensures
            r.0.films == self.films,
            r.0.cached == cached,
            r.0.groups.deep_view() == grouped(
                missing_releases(self.requests.deep_view(), cached.deep_view()),
            ),
            r.0.country == self.country,
            r.0.today == self.today,
            r.1.deep_view() == r.0.groups.deep_view(),
    {
        let missing = uncached_release_requests(&self.requests, &cached);
        let groups = group_by_film(&missing);
        let asked = group_by_film(&missing);
        (
            AwaitingFetchedReleases {
                films: self.films,
                cached,
                groups,
                country: self.country,
                today: self.today,
            },
            asked,
        )
    }
}

impl AwaitingFetchedReleases {
    /// Takes the fetches that succeeded, in any order. A film for which a
    /// fetch was asked and none is handed in is dropped; every other
    /// identified film gets its result here, from the cached and the
    /// fetched release sets. Returns what to store of the fetches, film by
    /// film, and asks for the cached watch offers of the films that need
    /// them.
    pub fn releases_fetched(self, fetched: &Vec<FetchedReleases>) -> (r: (
        AwaitingCachedProviders,
        Vec<(i32, Vec<CountryReleases>)>,
        Vec<(i32, String)>,
    ))
        ensures
            r.0.results.deep_view() == film_results(
                answered_films(
                    self.films.deep_view(),
                    self.groups.deep_view(),
                    fetched.deep_view(),
                ),
                self.cached.deep_view(),
                fresh_entries(self.groups.deep_view(), fetched.deep_view()),
                self.country@,
            ),
            r.0.requests.deep_view() == provider_requests(
                r.0.results.deep_view(),
                self.country@,
                self.today,
            ),
            r.0.country == self.country,
            r.1.deep_view() == sets_to_store(self.groups.deep_view(), fetched.deep_view()),
            r.2.deep_view() == r.0.requests.deep_view(),
    {
        let mut store: Vec<(i32, Vec<CountryReleases>)> = Vec::new();
        let mut fresh: Vec<ReleaseCacheEntry> = Vec::new();
        let mut i: usize = 0;
        assert(fetched.deep_view().take(0) =~= Seq::<Fetched>::empty());
        assert(fresh.deep_view() =~= Seq::<KnownReleases>::empty());
        while i < fetched.len()
            invariant
                i <= fetched.len(),
                store.len() == i,
                forall|j: int|
                    0 <= j < i ==> #[trigger] store.deep_view()[j] == (
                        fetched.deep_view()[j].tmdb_id,
                        kept_sets(self.groups.deep_view(), fetched.deep_view()[j]),
                    ),
                fresh.deep_view() == fresh_entries(
                    self.groups.deep_view(),
                    fetched.deep_view().take(i as int),
                ),
            decreases fetched.len() - i,
        {
            proof {
                assert(fetched.deep_view().take(i + 1).drop_last() =~= fetched.deep_view().take(
                    i as int,
                ));
                assert(fetched.deep_view().take(i + 1).last() == fetched[i as int].deep_view());
            }
            let f = &fetched[i];
            let kept = match find_group(&self.groups, f.tmdb_id) {
                Some(k) => complete_countries(&self.groups[k].1, &f.all_countries),
                None => {
                    let none: Vec<String> = Vec::new();
                    assert(none.deep_view() =~= Seq::<Seq<char>>::empty());
                    complete_countries(&none, &f.all_countries)
                },
            };
            let ghost before = fresh.deep_view();
            let mut k: usize = 0;
            while k < kept.len()
                invariant
                    k <= kept.len(),
                    i < fetched.len(),
                    f == fetched[i as int],
                    fresh.deep_view() == before + entries_of(f.tmdb_id, kept.deep_view()).take(
                        k as int,
                    ),
                decreases kept.len() - k,
            {
                let ghost mid = fresh.deep_view();
                fresh.push(ReleaseCacheEntry { tmdb_id: f.tmdb_id, releases: kept[k].clone() });
                assert(fresh.deep_view() =~= before + entries_of(f.tmdb_id, kept.deep_view()).take(
                    k + 1,
                )) by {
                    assert(fresh.deep_view() =~= mid.push(
                        KnownReleases { tmdb_id: f.tmdb_id, releases: kept[k as int].deep_view() },
                    ));
                    assert(kept.deep_view()[k as int] == kept[k as int].deep_view());
                }
                k += 1;
            }
            assert(entries_of(f.tmdb_id, kept.deep_view()).take(kept.len() as int) =~= entries_of(
                f.tmdb_id,
                kept.deep_view(),
            ));
            let ghost stored = store.deep_view();
            store.push((f.tmdb_id, kept));
            assert(store.deep_view() =~= stored.push(
                (f.tmdb_id, kept_sets(self.groups.deep_view(), f.deep_view())),
            ));
            i += 1;
        }
        assert(fetched.deep_view().take(fetched.len() as int) =~= fetched.deep_view());
        assert(store.deep_view() =~= sets_to_store(self.groups.deep_view(), fetched.deep_view()));
        let films = films_answered(&self.films, &self.groups, fetched);
        let results = assemble_results(&films, &self.cached, &fresh, self.country.as_str());
        let requests = build_provider_requests(&results, self.country.as_str(), &self.today);
        let asked = clone_requests(&requests);
        (AwaitingCachedProviders { results, requests, country: self.country }, store, asked)
    }
}

impl AwaitingCachedProviders {
    /// Takes the cached watch offers and asks for the fetch of the missing
    /// ones.
    pub fn providers_loaded(self, cached: Vec<ProviderCacheEntry>) -> (r: (
        AwaitingFetchedProviders,
        Vec<(i32, String)>,
    ))
        ensures
            r.0.results == self.results,
            r.0.cached == cached,
            r.0.country == self.country,
            r.1.deep_view() == missing_providers(self.requests.deep_view(), cached.deep_view()),
    {
        let missing = uncached_provider_requests(&self.requests, &cached);
        (
            AwaitingFetchedProviders { results: self.results, cached, country: self.country },
            missing,
        )
    }
}

impl AwaitingFetchedProviders {
    /// Takes the watch offers that were fetched (to be stored by the
    /// caller), attaches to every film the offers known of it, and returns
    /// the films in the order of the final list.
    pub fn providers_fetched(self, fetched: &Vec<ProviderCacheEntry>) -> (r: Vec<
        FilmWithReleases,
    >)
        ensures
            r.deep_view() == stable_sort(
                attached(
                    self.results.deep_view(),
                    self.country@,
                    self.cached.deep_view(),
                    fetched.deep_view(),
                ),
                by_release(),
            ),
            ordered(r.deep_view(), by_release()),
            r.len() == self.results.len(),
    {
        let mut results = self.results;
        attach_providers(&mut results, self.country.as_str(), &self.cached, fetched);
        assert(results.deep_view() =~= attached(
            self.results.deep_view(),
            self.country@,
            self.cached.deep_view(),
            fetched.deep_view(),
        ));
        sort_films(&results)
    }
}

/// Whether some group is for the film.
pub fn group_exists(groups: &Vec<(i32, Vec<String>)>, tmdb_id: i32) -> (r: bool)
    ensures
        r == has_group(groups.deep_view(), tmdb_id),
{
    let mut i: usize = 0;
    while i < groups.len()
        invariant
            i <= groups.len(),
            forall|j: int| 0 <= j < i ==> (#[trigger] groups.deep_view()[j]).0 != tmdb_id,
        decreases groups.len() - i,
    {
        if groups[i].0 == tmdb_id {
            assert(groups.deep_view()[i as int].0 == tmdb_id);
            return true;
        }
        i += 1;
    }
    false
}

/// Whether some fetch is for the film.
pub fn fetch_exists(fetched: &Vec<FetchedReleases>, tmdb_id: i32) -> (r: bool)
    ensures
        r == has_fetch(fetched.deep_view(), tmdb_id),
{
    let mut i: usize = 0;
    while i < fetched.len()
        invariant
            i <= fetched.len(),
            forall|j: int| 0 <= j < i ==> (#[trigger] fetched.deep_view()[j]).tmdb_id != tmdb_id,
        decreases fetched.len() - i,
    {
        if fetched[i].tmdb_id == tmdb_id {
            assert(fetched.deep_view()[i as int].tmdb_id == tmdb_id);
            return true;
        }
        i += 1;
    }
    false
}

/// The films whose release data is at hand: those for which no fetch was
/// asked, and those for which a fetch succeeded.
pub fn films_answered(
    films: &Vec<IdentifiedFilm>,
    groups: &Vec<(i32, Vec<String>)>,
    fetched: &Vec<FetchedReleases>,
) -> (r: Vec<IdentifiedFilm>)
    ensures
        r.deep_view() == answered_films(films.deep_view(), groups.deep_view(), fetched.deep_view()),
{
    let mut out: Vec<IdentifiedFilm> = Vec::new();
    let mut i: usize = 0;
    assert(films.deep_view().take(0) =~= Seq::<Identified>::empty());
    assert(out.deep_view() =~= Seq::<Identified>::empty());
    while i < films.len()
        invariant
            i <= films.len(),
            out.deep_view() == answered_films(
                films.deep_view().take(i as int),
                groups.deep_view(),
                fetched.deep_view(),
            ),
        decreases films.len() - i,
    {
        proof {
            assert(films.deep_view().take(i + 1).drop_last() =~= films.deep_view().take(i as int));
            assert(films.deep_view().take(i + 1).last() == films[i as int].deep_view());
        }
        let film = &films[i];
        if !group_exists(groups, film.1) || fetch_exists(fetched, film.1) {
            let ghost before = out.deep_view();
            out.push((film.0.clone(), film.1, film.2.clone(), film.3, clone_text(&film.4)));
            assert(out.deep_view() =~= before.push(film.deep_view()));
        }
        i += 1;
    }
    assert(films.deep_view().take(films.len() as int) =~= films.deep_view());
    out
}

/// The position of the first group for the film.
pub fn find_group(groups: &Vec<(i32, Vec<String>)>, tmdb_id: i32) -> (r: Option<usize>)
    ensures
        match r {
            Some(i) => i < groups.len() && group_countries(groups.deep_view(), tmdb_id)
                == groups[i as int].1.deep_view(),
            None => group_countries(groups.deep_view(), tmdb_id) == Seq::<Seq<char>>::empty(),
        },
{
    let mut i: usize = 0;
    assert(groups.deep_view().skip(0) =~= groups.deep_view());
    while i < groups.len()
        invariant
            i <= groups.len(),
            group_countries(groups.deep_view(), tmdb_id) == group_countries(
                groups.deep_view().skip(i as int),
                tmdb_id,
            ),
        decreases groups.len() - i,
    {
        proof {
            assert(groups.deep_view().skip(i as int).drop_first() =~= groups.deep_view().skip(
                i + 1,
            ));
            assert(groups.deep_view().skip(i as int)[0] == groups[i as int].deep_view());
        }
        if groups[i].0 == tmdb_id {
            return Some(i);
        }
        i += 1;
    }
    None
}

/// A copy of a list of requests.
pub fn clone_requests(requests: &Vec<(i32, String)>) -> (r: Vec<(i32, String)>)
    ensures
        r.deep_view() == requests.deep_view(),
{
    let mut out: Vec<(i32, String)> = Vec::new();
    let mut i: usize = 0;
    while i < requests.len()
        invariant
            i <= requests.len(),
            out.len() == i,
            forall|j: int| 0 <= j < i ==> #[trigger] out.deep_view()[j] == requests.deep_view()[j],
        decreases requests.len() - i,
    {
        let ghost before = out.deep_view();
        out.push((requests[i].0, requests[i].1.clone()));
        assert(out.deep_view() =~= before.push(requests[i as int].deep_view()));
        i += 1;
    }
    assert(out.deep_view() =~= requests.deep_view());
    out
}

} // verus!
