use timeboxd::cache::{CacheManager, FilmCacheData, ProviderCacheEntry};
use timeboxd::date::CivilDate;
use timeboxd::fallback::ReleaseCacheEntry;
use timeboxd::models::{
    CountryReleases, FilmWithReleases, ProviderType, ReleaseCategory, ReleaseDate, ReleaseType,
    WatchProvider, WishlistFilm,
};
use timeboxd::fanout::FanOut;
use timeboxd::pipeline::{fan_out, process, FetchedReleases, Start};
use timeboxd::ranking::sort_films;
use timeboxd::resolver::{fallback_title, refresh, resolve, Lookup};
use timeboxd::scraper::LetterboxdFilmData;
use timeboxd::tmdb::{
    release_dates_from_response, ReleaseDateEntry, ReleaseDatesCountry,
};

const NOW: i64 = 1_705_000_000;

fn date(year: i16, month: i8, day: i8) -> CivilDate {
    CivilDate { year, month, day }
}

fn film(slug: &str, year: Option<i16>) -> WishlistFilm {
    WishlistFilm { letterboxd_slug: slug.to_string(), year }
}

fn country(code: &str, entries: Vec<(&str, i32)>) -> ReleaseDatesCountry {
    ReleaseDatesCountry {
        iso_3166_1: code.to_string(),
        release_dates: entries
            .into_iter()
            .map(|(text, kind)| ReleaseDateEntry {
                release_date: text.to_string(),
                type_: kind,
                note: None,
            })
            .collect(),
    }
}

/// Runs one film through every state, with a page that names the catalog
/// identifier and a provider that reports `upstream`. Counts the calls made
/// to the page source, to the provider for release dates, and to the
/// provider for posters.
fn run(
    cache: &mut CacheManager,
    films: Vec<WishlistFilm>,
    requested: &str,
    current_year: i16,
    today: CivilDate,
    upstream: Vec<ReleaseDatesCountry>,
    calls: &mut (usize, usize, usize),
) -> Vec<FilmWithReleases> {
    let (state, slugs) = match process(&films, requested, current_year, today) {
        Start::Nothing => return Vec::new(),
        Start::LoadIdentities { state, slugs } => (state, slugs),
    };
    let rows = cache.get_films(&slugs, NOW);
    let (state, to_resolve, posterless) = state.identities_loaded(rows);
    let mut resolved: Vec<FilmCacheData> = Vec::new();
    for identity in posterless {
        calls.2 += 1;
        let state = refresh(identity).expect("a cached identity has a catalog identifier");
        resolved.push(state.details_done(Some("/found.jpg".to_string())));
    }
    for f in to_resolve {
        calls.0 += 1;
        let page = LetterboxdFilmData {
            title: "Dune: Part Two".to_string(),
            year: Some(2024),
            tmdb_id: Some(693134),
        };
        match resolve(f).detail_fetched(Some(page)) {
            Lookup::Details(state) => resolved.push(state.details_done(None)),
            Lookup::Search(_) => panic!("the page names the catalog identifier"),
        }
    }
    let (state, to_store, requests) = state.identities_resolved(&resolved);
    cache.upsert_films(&to_store, NOW);
    let cached = cache.get_releases(&requests, NOW);
    let (state, groups) = state.releases_loaded(cached);
    let mut fetched: Vec<FetchedReleases> = Vec::new();
    for (tmdb_id, countries) in &groups {
        calls.1 += 1;
        let result = release_dates_from_response(&upstream, &countries[0], today).unwrap();
        fetched.push(FetchedReleases { tmdb_id: *tmdb_id, all_countries: result.all_countries });
    }
    let (state, store, provider_requests) = state.releases_fetched(&fetched);
    for (tmdb_id, sets) in &store {
        cache.put_releases_multi_country(*tmdb_id, sets, NOW);
    }
    let cached_providers = cache.get_providers(&provider_requests, NOW);
    let (state, _missing) = state.providers_loaded(cached_providers);
    state.providers_fetched(&Vec::new())
}

#[test]
fn upcoming_release_in_requested_country() {
    let mut cache = CacheManager::new(7, 24, 7);
    let mut calls = (0, 0, 0);
    let results = run(
        &mut cache,
        vec![film("dune-part-two", Some(2024))],
        "US",
        2024,
        date(2024, 1, 15),
        vec![country("US", vec![("2024-03-01T00:00:00.000Z", 3)])],
        &mut calls,
    );
    assert_eq!(results.len(), 1);
    assert_eq!(results[0].category, ReleaseCategory::LocalUpcoming);
    assert_eq!(
        results[0].theatrical,
        vec![ReleaseDate {
            date: date(2024, 3, 1),
            release_type: ReleaseType::Theatrical,
            note: Some("US".to_string()),
        }]
    );
    assert_eq!(results[0].streaming, Vec::<ReleaseDate>::new());
    assert_eq!(results[0].tmdb_id, 693134);
    assert_eq!(results[0].title, "Dune: Part Two");
    assert_eq!(results[0].letterboxd_slug, "dune-part-two");
}

#[test]
fn empty_requested_country_falls_back_to_united_states() {
    let mut cache = CacheManager::new(7, 24, 7);
    let mut calls = (0, 0, 0);
    let results = run(
        &mut cache,
        vec![film("dune-part-two", Some(2024))],
        "FR",
        2024,
        date(2024, 1, 15),
        vec![country("FR", vec![]), country("US", vec![("2024-03-01T00:00:00.000Z", 3)])],
        &mut calls,
    );
    assert_eq!(results.len(), 1);
    assert_eq!(results[0].category, ReleaseCategory::LocalUpcoming);
    assert_eq!(results[0].theatrical.len(), 1);
    assert_eq!(results[0].theatrical[0].date, date(2024, 3, 1));
    assert_eq!(results[0].theatrical[0].note, Some("US".to_string()));
    assert_eq!(calls.1, 1);
}

#[test]
fn old_film_is_filtered_before_any_call() {
    let mut cache = CacheManager::new(7, 24, 7);
    let mut calls = (0, 0, 0);
    let results = run(
        &mut cache,
        vec![film("old-film", Some(2019))],
        "US",
        2024,
        date(2024, 1, 15),
        vec![country("US", vec![("2024-03-01T00:00:00.000Z", 3)])],
        &mut calls,
    );
    assert_eq!(results.len(), 0);
    assert_eq!(calls, (0, 0, 0));
    assert!(matches!(
        process(&vec![film("old-film", Some(2019))], "US", 2024, date(2024, 1, 15)),
        Start::Nothing
    ));
}

#[test]
fn year_filter_keeps_the_cutoff_year_and_unknown_years() {
    let films = vec![
        film("a", Some(2020)),
        film("b", Some(2021)),
        film("c", None),
        film("d", Some(2030)),
    ];
    let kept = timeboxd::processor::filter_by_year(&films, 2024);
    assert_eq!(kept, vec![film("b", Some(2021)), film("c", None), film("d", Some(2030))]);
    // The cutoff does not wrap at the lower end of the years.
    let kept = timeboxd::processor::filter_by_year(&vec![film("e", Some(i16::MIN))], i16::MIN + 1);
    assert_eq!(kept.len(), 1);
}

#[test]
fn cached_identity_needs_no_resolution() {
    let mut cache = CacheManager::new(7, 24, 7);
    cache.upsert_films(
        &vec![FilmCacheData {
            slug: "the-matrix".to_string(),
            tmdb_id: Some(603),
            title: "The Matrix".to_string(),
            year: Some(2023),
            poster_path: Some("/m.jpg".to_string()),
        }],
        NOW - 10,
    );
    let mut calls = (0, 0, 0);
    let results = run(
        &mut cache,
        vec![film("the-matrix", Some(2023))],
        "US",
        2024,
        date(2024, 1, 15),
        vec![country("US", vec![("2024-03-01T00:00:00.000Z", 4)])],
        &mut calls,
    );
    assert_eq!((calls.0, calls.2), (0, 0));
    assert_eq!(results.len(), 1);
    assert_eq!(results[0].tmdb_id, 603);
    assert_eq!(results[0].title, "The Matrix");
    assert_eq!(results[0].poster_path, Some("/m.jpg".to_string()));
    assert_eq!(results[0].streaming.len(), 1);
}

#[test]
fn cached_identity_without_catalog_id_is_resolved_again() {
    let mut cache = CacheManager::new(7, 24, 7);
    cache.upsert_films(
        &vec![FilmCacheData {
            slug: "unknown".to_string(),
            tmdb_id: None,
            title: "Unknown".to_string(),
            year: None,
            poster_path: None,
        }],
        NOW,
    );
    let films = vec![film("unknown", None)];
    let (state, slugs) = match process(&films, "US", 2024, date(2024, 1, 15)) {
        Start::LoadIdentities { state, slugs } => (state, slugs),
        Start::Nothing => panic!("the film is tracked"),
    };
    let (_, to_resolve, posterless) = state.identities_loaded(cache.get_films(&slugs, NOW));
    assert_eq!(to_resolve, films);
    assert_eq!(posterless.len(), 0);
}

#[test]
fn cached_identity_without_poster_asks_the_catalog_for_it_alone() {
    let mut cache = CacheManager::new(7, 24, 7);
    cache.upsert_films(
        &vec![FilmCacheData {
            slug: "the-matrix".to_string(),
            tmdb_id: Some(603),
            title: "The Matrix".to_string(),
            year: Some(2023),
            poster_path: None,
        }],
        NOW,
    );
    let films = vec![film("the-matrix", Some(2023))];
    let (state, slugs) = match process(&films, "US", 2024, date(2024, 1, 15)) {
        Start::LoadIdentities { state, slugs } => (state, slugs),
        Start::Nothing => panic!("the film is tracked"),
    };
    let (state, to_resolve, posterless) = state.identities_loaded(cache.get_films(&slugs, NOW));
    assert_eq!(to_resolve.len(), 0);
    assert_eq!(posterless.len(), 1);
    assert_eq!(posterless[0].slug, "the-matrix");
    assert_eq!(posterless[0].tmdb_id, Some(603));
    assert_eq!(posterless[0].year, Some(2023));
    let renewed = refresh(posterless[0].clone()).unwrap().details_done(Some("/m.jpg".to_string()));
    assert_eq!(renewed.title, "The Matrix");
    let (state, to_store, requests) = state.identities_resolved(&vec![renewed.clone()]);
    assert_eq!(to_store, vec![renewed]);
    assert_eq!(requests, vec![(603, "US".to_string())]);
    assert_eq!(state.films[0].4, Some("/m.jpg".to_string()));
    assert!(refresh(FilmCacheData {
        slug: "x".to_string(),
        tmdb_id: None,
        title: "X".to_string(),
        year: None,
        poster_path: None,
    })
    .is_none());
}

#[test]
fn second_run_is_served_from_the_cache() {
    let mut cache = CacheManager::new(7, 24, 7);
    let upstream = vec![country("US", vec![("2024-03-01T00:00:00.000Z", 3)])];
    let mut first = (0, 0, 0);
    let a = run(
        &mut cache,
        vec![film("dune-part-two", Some(2024))],
        "US",
        2024,
        date(2024, 1, 15),
        upstream,
        &mut first,
    );
    assert_eq!(first, (1, 1, 0));
    let mut second = (0, 0, 0);
    let b = run(
        &mut cache,
        vec![film("dune-part-two", Some(2024))],
        "US",
        2024,
        date(2024, 1, 15),
        Vec::new(),
        &mut second,
    );
    assert_eq!(second, (0, 0, 1));
    assert_eq!(a[0].theatrical, b[0].theatrical);
    assert_eq!(a[0].category, b[0].category);
}

#[test]
fn unresolved_film_is_dropped_from_the_result() {
    let films = vec![film("nowhere", None)];
    let (state, _) = match process(&films, "US", 2024, date(2024, 1, 15)) {
        Start::LoadIdentities { state, slugs } => (state, slugs),
        Start::Nothing => panic!("the film is tracked"),
    };
    let (state, to_resolve, _) = state.identities_loaded(Vec::new());
    let identity = match resolve(to_resolve[0].clone()).detail_fetched(None) {
        Lookup::Search(state) => {
            assert_eq!(state.title, "Nowhere");
            state.search_done(None)
        },
        Lookup::Details(_) => panic!("no page, no identifier"),
    };
    assert_eq!(identity.tmdb_id, None);
    let (state, to_store, requests) = state.identities_resolved(&vec![identity.clone()]);
    // The identity is stored although it is unresolved.
    assert_eq!(to_store, vec![identity]);
    assert_eq!(requests.len(), 0);
    let (state, groups) = state.releases_loaded(Vec::new());
    assert_eq!(groups.len(), 0);
    let (state, store, provider_requests) = state.releases_fetched(&Vec::new());
    assert_eq!(store.len(), 0);
    assert_eq!(provider_requests.len(), 0);
    let (state, _) = state.providers_loaded(Vec::new());
    assert_eq!(state.providers_fetched(&Vec::new()).len(), 0);
}

fn identity(slug: &str, tmdb_id: Option<i32>, title: &str) -> FilmCacheData {
    FilmCacheData {
        slug: slug.to_string(),
        tmdb_id,
        title: title.to_string(),
        year: Some(2024),
        poster_path: None,
    }
}

#[test]
fn failed_fetch_drops_the_film_and_no_other() {
    let films = vec![film("a", Some(2024)), film("b", Some(2024)), film("c", Some(2024))];
    let (state, _) = match process(&films, "US", 2024, date(2024, 1, 15)) {
        Start::LoadIdentities { state, slugs } => (state, slugs),
        Start::Nothing => panic!("the films are tracked"),
    };
    let (state, _, _) = state.identities_loaded(Vec::new());
    let resolved =
        vec![identity("a", Some(1), "A"), identity("b", Some(2), "B"), identity("c", Some(3), "C")];
    let (state, _, _) = state.identities_resolved(&resolved);
    // The cache has the release set of the third film; the other two are fetched.
    let cached = vec![ReleaseCacheEntry {
        tmdb_id: 3,
        releases: CountryReleases {
            country: "US".to_string(),
            theatrical: Vec::new(),
            streaming: Vec::new(),
        },
    }];
    let (state, groups) = state.releases_loaded(cached);
    assert_eq!(groups, vec![(1, vec!["US".to_string()]), (2, vec!["US".to_string()])]);
    // The fetch for the first film failed: only the second is handed in.
    let upstream = vec![country("US", vec![("2024-03-01T00:00:00.000Z", 3)])];
    let fetched = vec![FetchedReleases {
        tmdb_id: 2,
        all_countries: release_dates_from_response(&upstream, "US", date(2024, 1, 15))
            .unwrap()
            .all_countries,
    }];
    let (state, store, provider_requests) = state.releases_fetched(&fetched);
    assert_eq!(store.len(), 1);
    assert_eq!(provider_requests, vec![(2, "US".to_string()), (3, "US".to_string())]);
    let (state, _) = state.providers_loaded(Vec::new());
    let results = state.providers_fetched(&Vec::new());
    let shown: Vec<(&str, ReleaseCategory)> =
        results.iter().map(|f| (f.letterboxd_slug.as_str(), f.category)).collect();
    assert_eq!(
        shown,
        vec![("b", ReleaseCategory::LocalUpcoming), ("c", ReleaseCategory::NoReleases)]
    );
}

#[test]
fn order_of_resolution_has_no_say_and_stray_identities_are_ignored() {
    let films = vec![film("same-b", None), film("same-a", None), film("other", None)];
    let run_with = |resolved: Vec<FilmCacheData>| {
        let (state, _) = match process(&films, "US", 2024, date(2024, 1, 15)) {
            Start::LoadIdentities { state, slugs } => (state, slugs),
            Start::Nothing => panic!("the films are tracked"),
        };
        let (state, _, _) = state.identities_loaded(Vec::new());
        let (state, to_store, requests) = state.identities_resolved(&resolved);
        let (state, _) = state.releases_loaded(
            requests
                .iter()
                .map(|(id, code)| ReleaseCacheEntry {
                    tmdb_id: *id,
                    releases: CountryReleases {
                        country: code.clone(),
                        theatrical: Vec::new(),
                        streaming: Vec::new(),
                    },
                })
                .collect(),
        );
        let (state, _, _) = state.releases_fetched(&Vec::new());
        let (state, _) = state.providers_loaded(Vec::new());
        (to_store, state.providers_fetched(&Vec::new()))
    };
    let a = identity("same-a", Some(1), "Same");
    let b = identity("same-b", Some(2), "Same");
    let c = identity("other", Some(3), "Other");
    let stray = identity("not-on-the-watchlist", Some(9), "Stray");
    let late = identity("same-a", Some(7), "Late");
    let (stored, first) = run_with(vec![a.clone(), b.clone(), c.clone()]);
    let (_, second) = run_with(vec![c.clone(), b.clone(), a.clone()]);
    let (kept, third) = run_with(vec![b.clone(), stray, a.clone(), late, c.clone()]);
    assert_eq!(first, second);
    assert_eq!(first, third);
    // What is stored follows the watchlist, and holds neither stranger.
    assert_eq!(stored, vec![b.clone(), a.clone(), c.clone()]);
    assert_eq!(kept, stored);
    // Films without a release: by title, and by slug where the titles are the same.
    let slugs: Vec<&str> = first.iter().map(|f| f.letterboxd_slug.as_str()).collect();
    assert_eq!(slugs, vec!["other", "same-a", "same-b"]);
}

#[test]
fn failures_of_resolution_cost_what_they_must() {
    match resolve(film("dune-part-two", Some(2024))).detail_failed() {
        Lookup::Search(state) => {
            assert_eq!(state.title, "Dune Part Two");
            assert_eq!(state.year, Some(2024));
            assert_eq!(state.search_failed(), None);
        },
        Lookup::Details(_) => panic!("no page, no identifier"),
    }
    let page = LetterboxdFilmData { title: "Heat".to_string(), year: None, tmdb_id: Some(949) };
    match resolve(film("heat", Some(1995))).detail_fetched(Some(page)) {
        Lookup::Details(state) => {
            let identity = state.details_failed();
            assert_eq!(identity.tmdb_id, Some(949));
            assert_eq!(identity.poster_path, None);
            assert_eq!(identity.title, "Heat");
        },
        Lookup::Search(_) => panic!("the page names the identifier"),
    }
}

#[test]
fn resolution_prefers_the_page_and_falls_back_to_search() {
    let page = LetterboxdFilmData { title: "Heat".to_string(), year: None, tmdb_id: None };
    match resolve(film("heat", Some(1995))).detail_fetched(Some(page)) {
        Lookup::Search(state) => {
            assert_eq!(state.title, "Heat");
            assert_eq!(state.year, Some(1995));
            let identity = state.search_done(Some((949, Some("/h.jpg".to_string()))));
            assert_eq!(identity.tmdb_id, Some(949));
            assert_eq!(identity.poster_path, Some("/h.jpg".to_string()));
            assert_eq!(identity.slug, "heat");
        },
        Lookup::Details(_) => panic!("the page names no identifier"),
    }
    let page = LetterboxdFilmData { title: "Heat".to_string(), year: Some(1996), tmdb_id: Some(949) };
    match resolve(film("heat", Some(1995))).detail_fetched(Some(page)) {
        Lookup::Details(state) => {
            assert_eq!(state.year, Some(1996));
            assert_eq!(state.tmdb_id, 949);
            let identity = state.details_done(None);
            assert_eq!(identity.poster_path, None);
            assert_eq!(identity.tmdb_id, Some(949));
        },
        Lookup::Search(_) => panic!("the page names the identifier"),
    }
}

#[test]
fn fallback_title_reads_the_slug() {
    assert_eq!(fallback_title("dune-part-two"), "Dune Part Two");
    assert_eq!(fallback_title("a--b"), "A  B");
    assert_eq!(fallback_title("-x"), " X");
    assert_eq!(fallback_title(""), "");
    // One character may have an upper case of several characters.
    assert_eq!(fallback_title("\u{df}eta"), "SSeta");
}

#[test]
fn fan_out_is_at_least_one() {
    assert_eq!(fan_out(0), 1);
    assert_eq!(fan_out(2), 2);
    assert_eq!(fan_out(5), 5);
}

#[test]
fn release_requests_follow_the_tiers() {
    let films = vec![
        ("a".to_string(), 1, "A".to_string(), None, None),
        ("b".to_string(), 2, "B".to_string(), Some(2024), None),
    ];
    let nz = timeboxd::processor::build_release_requests(&films, "NZ");
    assert_eq!(
        nz,
        vec![
            (1, "NZ".to_string()),
            (1, "AU".to_string()),
            (1, "US".to_string()),
            (2, "NZ".to_string()),
            (2, "AU".to_string()),
            (2, "US".to_string()),
        ]
    );
    let us = timeboxd::processor::build_release_requests(&films, "US");
    assert_eq!(us, vec![(1, "US".to_string()), (2, "US".to_string())]);
    let fr = timeboxd::processor::build_release_requests(&films[..1], "FR");
    assert_eq!(fr, vec![(1, "FR".to_string()), (1, "US".to_string())]);
    let groups = timeboxd::processor::group_by_film(&nz);
    assert_eq!(
        groups,
        vec![
            (1, vec!["NZ".to_string(), "AU".to_string(), "US".to_string()]),
            (2, vec!["NZ".to_string(), "AU".to_string(), "US".to_string()]),
        ]
    );
}

#[test]
fn missing_countries_are_completed_with_empty_sets() {
    let today = date(2024, 1, 15);
    let upstream = vec![
        country("DE", vec![("2024-05-01T00:00:00.000Z", 3)]),
        country("US", vec![("2024-03-01T00:00:00.000Z", 3)]),
    ];
    let result = release_dates_from_response(&upstream, "NZ", today).unwrap();
    assert_eq!(result.requested_country.country, "NZ");
    assert_eq!(result.requested_country.theatrical.len(), 0);
    let asked = vec!["NZ".to_string(), "AU".to_string(), "US".to_string()];
    let kept = timeboxd::processor::complete_countries(&asked, &result.all_countries);
    let codes: Vec<&str> = kept.iter().map(|c| c.country.as_str()).collect();
    assert_eq!(codes, vec!["US", "NZ", "AU"]);
    assert_eq!(kept[0].theatrical.len(), 1);
    assert_eq!(kept[1].theatrical.len() + kept[1].streaming.len(), 0);
    assert_eq!(kept[2].theatrical.len() + kept[2].streaming.len(), 0);
}

fn result(title: &str, theatrical: Vec<CivilDate>, streaming: Vec<CivilDate>) -> FilmWithReleases {
    let entries = |dates: Vec<CivilDate>, kind: ReleaseType| -> Vec<ReleaseDate> {
        dates.into_iter().map(|d| ReleaseDate { date: d, release_type: kind, note: None }).collect()
    };
    FilmWithReleases {
        title: title.to_string(),
        year: None,
        tmdb_id: 1,
        letterboxd_slug: title.to_lowercase(),
        poster_path: None,
        category: if theatrical.is_empty() && streaming.is_empty() {
            ReleaseCategory::NoReleases
        } else {
            ReleaseCategory::LocalUpcoming
        },
        theatrical: entries(theatrical, ReleaseType::Theatrical),
        streaming: entries(streaming, ReleaseType::Digital),
        streaming_providers: Vec::new(),
    }
}

#[test]
fn final_list_is_sorted_by_first_date_then_title_with_dateless_last() {
    let films = vec![
        result("Zeta", vec![], vec![]),
        result("Beta", vec![date(2024, 5, 1)], vec![]),
        result("Alpha", vec![], vec![]),
        result("Gamma", vec![], vec![date(2024, 3, 1)]),
        result("Alpha", vec![date(2024, 5, 1)], vec![date(2024, 1, 1)]),
    ];
    let sorted = sort_films(&films);
    let order: Vec<(&str, usize)> =
        sorted.iter().map(|f| (f.title.as_str(), f.theatrical.len() + f.streaming.len())).collect();
    assert_eq!(order, vec![("Gamma", 1), ("Alpha", 2), ("Beta", 1), ("Alpha", 0), ("Zeta", 0)]);
    // Where date and title are the same the slug decides, not the order of arrival.
    let mut one = result("Twin", vec![date(2024, 5, 1)], vec![]);
    let mut two = result("Twin", vec![date(2024, 5, 1)], vec![]);
    one.letterboxd_slug = "twin-2000".to_string();
    two.letterboxd_slug = "twin-1990".to_string();
    let either = sort_films(&vec![one.clone(), two.clone()]);
    assert_eq!(either, sort_films(&vec![two.clone(), one.clone()]));
    assert_eq!(either, vec![two, one]);
}

#[test]
fn provider_lookup_is_skipped_for_films_that_will_stream() {
    let today = date(2024, 6, 1);
    let future = result("A", vec![], vec![date(2024, 6, 2)]);
    let on_the_day = result("B", vec![], vec![date(2024, 6, 1)]);
    let none = result("C", vec![date(2025, 1, 1)], vec![]);
    assert!(!timeboxd::processor::needs_provider_lookup(&future, &today));
    assert!(timeboxd::processor::needs_provider_lookup(&on_the_day, &today));
    assert!(timeboxd::processor::needs_provider_lookup(&none, &today));
    let mut films = vec![future, on_the_day, none];
    films[1].tmdb_id = 7;
    films[2].tmdb_id = 9;
    let requests = timeboxd::processor::build_provider_requests(&films, "NZ", &today);
    assert_eq!(requests, vec![(7, "NZ".to_string()), (9, "NZ".to_string())]);
}

#[test]
fn providers_are_attached_from_cache_before_fetch() {
    let offer = |id: i32, name: &str| WatchProvider {
        provider_id: id,
        provider_name: name.to_string(),
        logo_path: "/l.png".to_string(),
        link: None,
        provider_type: ProviderType::Stream,
    };
    let mut films = vec![result("A", vec![], vec![]), result("B", vec![], vec![])];
    films[0].tmdb_id = 1;
    films[1].tmdb_id = 2;
    let cached = vec![ProviderCacheEntry {
        tmdb_id: 1,
        country: "US".to_string(),
        providers: vec![offer(8, "Cached")],
    }];
    let fetched = vec![
        ProviderCacheEntry { tmdb_id: 1, country: "US".to_string(), providers: vec![offer(9, "Fetched")] },
        ProviderCacheEntry { tmdb_id: 2, country: "US".to_string(), providers: vec![offer(9, "Fetched")] },
        ProviderCacheEntry { tmdb_id: 2, country: "FR".to_string(), providers: vec![offer(3, "Other")] },
    ];
    timeboxd::processor::attach_providers(&mut films, "US", &cached, &fetched);
    assert_eq!(films[0].streaming_providers, vec![offer(8, "Cached")]);
    assert_eq!(films[1].streaming_providers, vec![offer(9, "Fetched")]);
}

#[test]
fn no_more_than_the_limit_is_ever_in_flight() {
    let films: Vec<u32> = (0..10).collect();
    let mut fan = FanOut::new(films, 2);
    let mut started: Vec<u32> = Vec::new();
    let mut most = 0;
    // Every item takes three rounds; in each round whatever may start does.
    let mut running: Vec<(u32, u32)> = Vec::new();
    while !fan.is_done() {
        while let Some(item) = fan.start() {
            started.push(item);
            running.push((item, 3));
        }
        most = most.max(fan.in_flight());
        assert!(fan.in_flight() <= 2);
        assert_eq!(fan.in_flight(), running.len());
        for task in running.iter_mut() {
            task.1 -= 1;
        }
        let before = running.len();
        running.retain(|task| task.1 > 0);
        for _ in running.len()..before {
            fan.finish();
        }
    }
    assert_eq!(most, 2);
    assert_eq!(started, (0..10).collect::<Vec<u32>>());
    let mut idle: FanOut<u32> = FanOut::new(Vec::new(), 0);
    assert_eq!(idle.limit(), 1);
    assert_eq!(idle.start(), None);
    idle.finish();
    assert_eq!(idle.in_flight(), 0);
    assert!(idle.is_done());
}
