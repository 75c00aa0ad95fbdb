use timeboxd::date::CivilDate;
use timeboxd::fallback::{get_releases_with_fallback_bulk, ReleaseCacheEntry};
use timeboxd::models::{
    CountryReleases, ProviderType, ReleaseCategory, ReleaseDate, ReleaseType, WatchProvider,
};
use timeboxd::releases::{canonicalize, dedup_releases, sort_by_date};
use timeboxd::tmdb::{
    first_search_result, mock_release_dates, mock_search_result, mock_watch_providers,
    release_dates_from_response, watch_providers_from_response, ReleaseDateEntry,
    ReleaseDatesCountry, SearchMovie, TmdbClient, TmdbError, WatchProviderCountry,
    WatchProviderEntry,
};

fn date(year: i16, month: i8, day: i8) -> CivilDate {
    CivilDate { year, month, day }
}

fn raw(text: &str, kind: i32, note: Option<&str>) -> ReleaseDateEntry {
    ReleaseDateEntry { release_date: text.to_string(), type_: kind, note: note.map(str::to_string) }
}

fn one_country(code: &str, entries: Vec<ReleaseDateEntry>) -> Vec<ReleaseDatesCountry> {
    vec![ReleaseDatesCountry { iso_3166_1: code.to_string(), release_dates: entries }]
}

fn entry(d: CivilDate, kind: ReleaseType, note: Option<&str>) -> ReleaseDate {
    ReleaseDate { date: d, release_type: kind, note: note.map(str::to_string) }
}

fn known(tmdb_id: i32, code: &str, theatrical: Vec<ReleaseDate>, streaming: Vec<ReleaseDate>) -> ReleaseCacheEntry {
    ReleaseCacheEntry {
        tmdb_id,
        releases: CountryReleases { country: code.to_string(), theatrical, streaming },
    }
}

#[test]
fn civil_date_accepts_exactly_the_calendar() {
    assert_eq!(CivilDate::new(2024, 2, 29), Some(date(2024, 2, 29)));
    assert_eq!(CivilDate::new(2023, 2, 29), None);
    assert_eq!(CivilDate::new(1900, 2, 29), None);
    assert_eq!(CivilDate::new(2000, 2, 29), Some(date(2000, 2, 29)));
    assert_eq!(CivilDate::new(2024, 4, 31), None);
    assert_eq!(CivilDate::new(2024, 13, 1), None);
    assert_eq!(CivilDate::new(2024, 0, 1), None);
    assert_eq!(CivilDate::new(2024, 1, 0), None);
    assert_eq!(CivilDate::new(-9999, 1, 1), Some(date(-9999, 1, 1)));
    assert_eq!(CivilDate::new(-10000, 1, 1), None);
    assert_eq!(CivilDate::new(-4, 2, 29), Some(date(-4, 2, 29)));
    assert_eq!(CivilDate::new(10000, 1, 1), None);
    assert!(date(2024, 3, 1).le(&date(2024, 3, 1)));
    assert!(!date(2024, 3, 1).lt(&date(2024, 3, 1)));
    assert!(date(2023, 12, 31).lt(&date(2024, 1, 1)));
    assert!(date(2024, 1, 31).lt(&date(2024, 2, 1)));
    assert!(!date(2024, 2, 1).le(&date(2024, 1, 31)));
}

#[test]
fn timestamps_are_read_as_utc_dates() {
    let today = date(2024, 1, 15);
    let entries = vec![
        raw("2024-03-01T00:00:00.000Z", 3, None),
        raw("2024-03-01T23:30:00-05:00", 4, None),
    ];
    let result = release_dates_from_response(&one_country("US", entries), "US", today).unwrap();
    assert_eq!(result.requested_country.theatrical[0].date, date(2024, 3, 1));
    // Half past eleven in the evening, five hours west, is the next day in UTC.
    assert_eq!(result.requested_country.streaming[0].date, date(2024, 3, 2));
}

#[test]
fn release_kinds_other_than_theatrical_and_digital_are_passed_over() {
    let today = date(2024, 1, 15);
    let entries = vec![
        raw("not a date", 1, None),
        raw("2024-03-01T00:00:00.000Z", 2, None),
        raw("2024-04-01T00:00:00.000Z", 5, None),
        raw("2024-05-01T00:00:00.000Z", 4, Some("  VOD  ")),
        raw("2024-06-01T00:00:00.000Z", 3, Some("   ")),
    ];
    let result = release_dates_from_response(&one_country("US", entries), "US", today).unwrap();
    assert_eq!(
        result.requested_country.streaming,
        vec![entry(date(2024, 5, 1), ReleaseType::Digital, Some("VOD"))]
    );
    assert_eq!(
        result.requested_country.theatrical,
        vec![entry(date(2024, 6, 1), ReleaseType::Theatrical, None)]
    );
    assert_eq!(result.all_countries.len(), 1);
    assert_eq!(result.all_countries[0], result.requested_country);
}

#[test]
fn malformed_date_of_a_tracked_kind_fails_the_call() {
    let today = date(2024, 1, 15);
    let entries = vec![raw("2024-03-01T00:00:00.000Z", 3, None), raw("tomorrow", 4, None), raw("never", 3, None)];
    let result = release_dates_from_response(&one_country("US", entries), "US", today);
    assert_eq!(result, Err(TmdbError::MalformedDate { text: "tomorrow".to_string() }));
}

#[test]
fn current_date_must_exist_and_have_two_years_before_it() {
    let none: Vec<ReleaseDatesCountry> = Vec::new();
    assert_eq!(
        release_dates_from_response(&none, "US", date(2023, 2, 30)),
        Err(TmdbError::CurrentDateOutOfRange)
    );
    assert_eq!(
        release_dates_from_response(&none, "US", date(-9998, 6, 1)),
        Err(TmdbError::CurrentDateOutOfRange)
    );
    assert!(release_dates_from_response(&none, "US", date(-9997, 6, 1)).is_ok());
}

#[test]
fn future_entries_are_sorted_and_collapse_when_identical() {
    let today = date(2024, 1, 15);
    let entries = vec![
        raw("2024-06-01T00:00:00.000Z", 3, Some("wide")),
        raw("2024-03-01T00:00:00.000Z", 3, Some("limited")),
        raw("2024-06-01T00:00:00.000Z", 3, Some("imax")),
        raw("2024-06-01T00:00:00.000Z", 3, Some("wide")),
        raw("2024-01-15T00:00:00.000Z", 3, None),
    ];
    let result = release_dates_from_response(&one_country("US", entries), "US", today).unwrap();
    assert_eq!(
        result.requested_country.theatrical,
        vec![
            entry(date(2024, 1, 15), ReleaseType::Theatrical, None),
            entry(date(2024, 3, 1), ReleaseType::Theatrical, Some("limited")),
            entry(date(2024, 6, 1), ReleaseType::Theatrical, Some("wide")),
            entry(date(2024, 6, 1), ReleaseType::Theatrical, Some("imax")),
        ]
    );
}

#[test]
fn sorting_is_stable_and_dedup_keeps_first_occurrences() {
    let list = vec![
        entry(date(2024, 2, 1), ReleaseType::Digital, Some("b")),
        entry(date(2024, 1, 1), ReleaseType::Digital, Some("a")),
        entry(date(2024, 2, 1), ReleaseType::Digital, Some("a")),
        entry(date(2024, 2, 1), ReleaseType::Digital, Some("b")),
    ];
    let sorted = sort_by_date(&list);
    let notes: Vec<&str> = sorted.iter().map(|e| e.note.as_deref().unwrap()).collect();
    assert_eq!(notes, vec!["a", "b", "a", "b"]);
    assert_eq!(sorted[0].date, date(2024, 1, 1));
    let unique = dedup_releases(&sorted);
    assert_eq!(unique.len(), 3);
    assert_eq!(canonicalize(&list), unique);
    assert_eq!(canonicalize(&unique), unique);
}

#[test]
fn latest_past_release_is_backfilled_within_two_years() {
    let today = date(2024, 6, 15);
    let entries = vec![
        raw("2021-01-01T00:00:00.000Z", 3, None),
        raw("2022-06-15T00:00:00.000Z", 3, Some("festival")),
        raw("2022-01-01T00:00:00.000Z", 3, None),
        raw("2024-06-14T00:00:00.000Z", 4, None),
    ];
    let result = release_dates_from_response(&one_country("US", entries), "US", today).unwrap();
    assert_eq!(
        result.requested_country.theatrical,
        vec![entry(date(2022, 6, 15), ReleaseType::Theatrical, Some("Already available"))]
    );
    assert_eq!(
        result.requested_country.streaming,
        vec![entry(date(2024, 6, 14), ReleaseType::Digital, Some("Already available"))]
    );
}

#[test]
fn release_three_years_ago_is_not_backfilled() {
    let today = date(2024, 6, 15);
    let upstream = vec![
        ReleaseDatesCountry {
            iso_3166_1: "FR".to_string(),
            release_dates: vec![raw("2021-06-15T00:00:00.000Z", 3, None)],
        },
        ReleaseDatesCountry {
            iso_3166_1: "US".to_string(),
            release_dates: vec![raw("2024-09-01T00:00:00.000Z", 3, None)],
        },
    ];
    let result = release_dates_from_response(&upstream, "FR", today).unwrap();
    assert_eq!(result.requested_country.theatrical.len(), 0);
    assert_eq!(result.requested_country.streaming.len(), 0);
    let fresh: Vec<ReleaseCacheEntry> = result
        .all_countries
        .into_iter()
        .map(|releases| ReleaseCacheEntry { tmdb_id: 5, releases })
        .collect();
    let (theatrical, streaming, category) =
        get_releases_with_fallback_bulk(&Vec::new(), &fresh, 5, "FR");
    assert_eq!(category, ReleaseCategory::LocalUpcoming);
    assert_eq!(theatrical, vec![entry(date(2024, 9, 1), ReleaseType::Theatrical, Some("US"))]);
    assert_eq!(streaming.len(), 0);
}

#[test]
fn two_year_window_is_measured_to_the_day() {
    let today = date(2024, 6, 15);
    let inside = one_country("US", vec![raw("2022-06-15T12:00:00.000Z", 3, None)]);
    let outside = one_country("US", vec![raw("2022-06-14T12:00:00.000Z", 3, None)]);
    assert_eq!(release_dates_from_response(&inside, "US", today).unwrap().requested_country.theatrical.len(), 1);
    assert_eq!(release_dates_from_response(&outside, "US", today).unwrap().requested_country.theatrical.len(), 0);
    // Two years before a 29th of February is the 28th.
    let leap = date(2024, 2, 29);
    let inside = one_country("US", vec![raw("2022-02-28T00:00:00.000Z", 4, None)]);
    let outside = one_country("US", vec![raw("2022-02-27T00:00:00.000Z", 4, None)]);
    assert_eq!(release_dates_from_response(&inside, "US", leap).unwrap().requested_country.streaming.len(), 1);
    assert_eq!(release_dates_from_response(&outside, "US", leap).unwrap().requested_country.streaming.len(), 0);
}

#[test]
fn recent_past_release_stands_before_the_future_ones() {
    let today = date(2024, 6, 15);
    let entries = vec![
        raw("2024-12-01T00:00:00.000Z", 3, None),
        raw("2024-01-01T00:00:00.000Z", 3, None),
        raw("2023-01-01T00:00:00.000Z", 3, None),
        raw("2025-01-01T00:00:00.000Z", 4, None),
        raw("2021-01-01T00:00:00.000Z", 4, None),
    ];
    let result = release_dates_from_response(&one_country("NZ", entries), "NZ", today).unwrap();
    assert_eq!(
        result.requested_country.theatrical,
        vec![
            entry(date(2024, 1, 1), ReleaseType::Theatrical, Some("Already available")),
            entry(date(2024, 12, 1), ReleaseType::Theatrical, None),
        ]
    );
    // A past release outside the window is not shown, with or without future ones.
    assert_eq!(
        result.requested_country.streaming,
        vec![entry(date(2025, 1, 1), ReleaseType::Digital, None)]
    );
    let known = vec![ReleaseCacheEntry { tmdb_id: 1, releases: result.requested_country }];
    let (theatrical, streaming, category) =
        get_releases_with_fallback_bulk(&known, &Vec::new(), 1, "NZ");
    assert_eq!(category, ReleaseCategory::LocalAlreadyAvailable);
    assert_eq!(
        theatrical,
        vec![
            entry(date(2024, 1, 1), ReleaseType::Theatrical, Some("NZ")),
            entry(date(2024, 12, 1), ReleaseType::Theatrical, Some("NZ")),
        ]
    );
    assert_eq!(streaming, vec![entry(date(2025, 1, 1), ReleaseType::Digital, Some("NZ"))]);
}

#[test]
fn fallback_goes_to_united_states_when_requested_country_is_empty() {
    let us = known(1, "US", vec![], vec![entry(date(2024, 9, 1), ReleaseType::Digital, Some("Netflix"))]);
    let fr = known(1, "FR", vec![], vec![]);
    let other = known(2, "FR", vec![entry(date(2024, 1, 1), ReleaseType::Theatrical, None)], vec![]);
    let cached = vec![other, fr, us];
    let (theatrical, streaming, category) = get_releases_with_fallback_bulk(&cached, &Vec::new(), 1, "FR");
    assert_eq!(category, ReleaseCategory::LocalUpcoming);
    assert_eq!(theatrical.len(), 0);
    assert_eq!(streaming, vec![entry(date(2024, 9, 1), ReleaseType::Digital, Some("US"))]);
    let (_, _, category) = get_releases_with_fallback_bulk(&cached, &Vec::new(), 3, "FR");
    assert_eq!(category, ReleaseCategory::NoReleases);
    // The United States have no tier behind them.
    let (theatrical, streaming, category) =
        get_releases_with_fallback_bulk(&vec![known(1, "FR", vec![entry(date(2024, 1, 1), ReleaseType::Theatrical, None)], vec![])], &Vec::new(), 1, "US");
    assert_eq!((theatrical.len(), streaming.len(), category), (0, 0, ReleaseCategory::NoReleases));
}

#[test]
fn new_zealand_falls_back_to_australia_before_united_states() {
    let au = known(1, "AU", vec![entry(date(2024, 8, 1), ReleaseType::Theatrical, None)], vec![]);
    let us = known(1, "US", vec![entry(date(2024, 7, 1), ReleaseType::Theatrical, None)], vec![]);
    let fresh = vec![us, au];
    let (theatrical, _, category) = get_releases_with_fallback_bulk(&Vec::new(), &fresh, 1, "NZ");
    assert_eq!(category, ReleaseCategory::LocalUpcoming);
    assert_eq!(theatrical, vec![entry(date(2024, 8, 1), ReleaseType::Theatrical, Some("AU"))]);
    // Any other country skips Australia.
    let (theatrical, _, _) = get_releases_with_fallback_bulk(&Vec::new(), &fresh, 1, "FR");
    assert_eq!(theatrical[0].note, Some("US".to_string()));
}

#[test]
fn already_available_entries_come_first_and_decide_the_category() {
    let list = vec![
        entry(date(2024, 9, 1), ReleaseType::Theatrical, Some("preview")),
        entry(date(2023, 9, 1), ReleaseType::Theatrical, Some("Already available")),
    ];
    let nz = known(1, "NZ", list, vec![entry(date(2024, 10, 1), ReleaseType::Digital, None)]);
    let (theatrical, streaming, category) =
        get_releases_with_fallback_bulk(&vec![nz], &Vec::new(), 1, "NZ");
    assert_eq!(category, ReleaseCategory::LocalAlreadyAvailable);
    assert_eq!(
        theatrical,
        vec![
            entry(date(2023, 9, 1), ReleaseType::Theatrical, Some("NZ")),
            entry(date(2024, 9, 1), ReleaseType::Theatrical, Some("NZ")),
        ]
    );
    assert_eq!(streaming, vec![entry(date(2024, 10, 1), ReleaseType::Digital, Some("NZ"))]);
}

#[test]
fn cached_release_data_wins_over_fetched() {
    let cached = vec![known(1, "US", vec![entry(date(2024, 8, 1), ReleaseType::Theatrical, None)], vec![])];
    let fresh = vec![known(1, "US", vec![entry(date(2024, 7, 1), ReleaseType::Theatrical, None)], vec![])];
    let (theatrical, _, _) = get_releases_with_fallback_bulk(&cached, &fresh, 1, "US");
    assert_eq!(theatrical[0].date, date(2024, 8, 1));
}

fn provider(id: i32, name: &str) -> WatchProviderEntry {
    WatchProviderEntry { provider_id: id, provider_name: name.to_string(), logo_path: format!("/{id}.png") }
}

#[test]
fn providers_keep_their_highest_priority_category() {
    let data = WatchProviderCountry {
        link: Some("https://example.org/watch".to_string()),
        flatrate: Some(vec![provider(8, "Netflix"), provider(8, "Netflix again")]),
        rent: Some(vec![provider(2, "Apple"), provider(8, "Netflix")]),
        buy: Some(vec![provider(2, "Apple"), provider(3, "Google"), provider(8, "Netflix")]),
    };
    let (offers, link) = watch_providers_from_response(Some(&data));
    assert_eq!(link, Some("https://example.org/watch".to_string()));
    let summary: Vec<(i32, ProviderType)> = offers.iter().map(|o| (o.provider_id, o.provider_type)).collect();
    assert_eq!(
        summary,
        vec![(8, ProviderType::Stream), (2, ProviderType::Rent), (3, ProviderType::Buy)]
    );
    assert_eq!(offers[0].provider_name, "Netflix");
    assert_eq!(offers[0].link, Some("https://example.org/watch".to_string()));
    assert_eq!(offers[1].logo_path, "/2.png");
    let (offers, link) = watch_providers_from_response(None);
    assert_eq!((offers.len(), link), (0, None));
    let absent = WatchProviderCountry { link: None, flatrate: None, rent: None, buy: Some(vec![provider(1, "A")]) };
    let (offers, link) = watch_providers_from_response(Some(&absent));
    assert_eq!(link, None);
    assert_eq!(offers, vec![WatchProvider {
        provider_id: 1,
        provider_name: "A".to_string(),
        logo_path: "/1.png".to_string(),
        link: None,
        provider_type: ProviderType::Buy,
    }]);
}

#[test]
fn search_gives_the_first_hit() {
    assert_eq!(first_search_result(&Vec::new()), None);
    let hits = vec![
        SearchMovie { id: 603, poster_path: Some("/m.jpg".to_string()) },
        SearchMovie { id: 604, poster_path: None },
    ];
    assert_eq!(first_search_result(&hits), Some((603, Some("/m.jpg".to_string()))));
}

#[test]
fn client_without_token_answers_with_synthetic_data() {
    let client = TmdbClient::new("  \t".to_string(), "https://api.example.org/3".to_string(), 0);
    assert!(client.uses_mock_data());
    assert_eq!(client.rps, 1);
    let client = TmdbClient::new("a-token".to_string(), "https://api.example.org/3".to_string(), 4);
    assert!(!client.uses_mock_data());
    assert_eq!(client.rps, 4);
    assert_eq!(mock_search_result(), Some((550, None)));
    let hits = vec![SearchMovie { id: 603, poster_path: None }];
    let mock = TmdbClient::new(String::new(), String::new(), 1);
    assert_eq!(mock.search_movie(&hits), Some((550, None)));
    assert_eq!(client.search_movie(&hits), Some((603, None)));
    assert_eq!(mock.get_movie_details(Some("/p.jpg".to_string())), None);
    assert_eq!(client.get_movie_details(Some("/p.jpg".to_string())), Some("/p.jpg".to_string()));
    let none: Vec<ReleaseDatesCountry> = Vec::new();
    let synthetic = mock.get_release_dates(&none, "US", date(2024, 1, 1)).unwrap();
    assert_eq!(synthetic.requested_country.theatrical[0].date, date(2025, 1, 1));
    let real = client.get_release_dates(&none, "US", date(2024, 1, 1)).unwrap();
    assert_eq!(real.requested_country.theatrical.len(), 0);
    assert_eq!(mock.get_watch_providers(None).0.len(), 1);
    assert_eq!(client.get_watch_providers(None).0.len(), 0);
    let (offers, link) = mock_watch_providers();
    assert_eq!(offers.len(), 1);
    assert_eq!(offers[0].provider_id, 8);
    assert_eq!(offers[0].provider_name, "Netflix");
    assert_eq!(offers[0].provider_type, ProviderType::Stream);
    assert_eq!(link, Some("https://www.themoviedb.org/movie/550/watch".to_string()));
}

#[test]
fn synthetic_release_dates_lie_a_year_and_three_months_ahead() {
    let result = mock_release_dates("NZ", date(2024, 11, 30)).unwrap();
    assert_eq!(result.all_countries.len(), 0);
    assert_eq!(result.requested_country.country, "NZ");
    assert_eq!(
        result.requested_country.theatrical,
        vec![entry(date(2025, 11, 30), ReleaseType::Theatrical, Some("Mock theatrical release"))]
    );
    // The 30th of February does not exist: the day is the month's last.
    assert_eq!(
        result.requested_country.streaming,
        vec![entry(date(2026, 2, 28), ReleaseType::Digital, Some("Mock streaming release"))]
    );
    let leap = mock_release_dates("US", date(2024, 2, 29)).unwrap();
    assert_eq!(leap.requested_country.theatrical[0].date, date(2025, 2, 28));
    assert_eq!(leap.requested_country.streaming[0].date, date(2025, 5, 28));
    assert_eq!(mock_release_dates("US", date(9999, 1, 1)), Err(TmdbError::CurrentDateOutOfRange));
    assert_eq!(mock_release_dates("US", date(9998, 11, 1)), Err(TmdbError::CurrentDateOutOfRange));
    assert_eq!(mock_release_dates("US", date(2024, 2, 30)), Err(TmdbError::CurrentDateOutOfRange));
}

#[test]
fn release_and_provider_codes_round_trip() {
    assert_eq!(ReleaseType::Theatrical.as_tmdb_code(), 3);
    assert_eq!(ReleaseType::Digital.as_tmdb_code(), 4);
    assert_eq!(ReleaseType::from_tmdb_code(3), Some(ReleaseType::Theatrical));
    assert_eq!(ReleaseType::from_tmdb_code(4), Some(ReleaseType::Digital));
    assert_eq!(ReleaseType::from_tmdb_code(0), None);
    assert_eq!(ReleaseType::from_tmdb_code(5), None);
    assert_eq!(ProviderType::Stream.as_code(), 1);
    assert_eq!(ProviderType::Rent.as_code(), 2);
    assert_eq!(ProviderType::Buy.as_code(), 3);
    assert_eq!(ProviderType::from_code(1), Some(ProviderType::Stream));
    assert_eq!(ProviderType::from_code(2), Some(ProviderType::Rent));
    assert_eq!(ProviderType::from_code(3), Some(ProviderType::Buy));
    assert_eq!(ProviderType::from_code(4), None);
    assert_eq!(ProviderType::from_code(-1), None);
}
