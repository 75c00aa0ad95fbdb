use timeboxd::cache::{
    is_fresh, plan_release_write, provider_rows, release_rows, CacheManager, FilmCacheData,
    ProviderRow, ReleaseRow,
};
use timeboxd::date::CivilDate;
use timeboxd::models::{CountryReleases, ProviderType, ReleaseDate, ReleaseType, WatchProvider};

const HOUR: i64 = 3_600;

fn date(year: i16, month: i8, day: i8) -> CivilDate {
    CivilDate { year, month, day }
}

fn entry(d: CivilDate, kind: ReleaseType, note: Option<&str>) -> ReleaseDate {
    ReleaseDate { date: d, release_type: kind, note: note.map(str::to_string) }
}

fn set(code: &str, theatrical: Vec<ReleaseDate>, streaming: Vec<ReleaseDate>) -> CountryReleases {
    CountryReleases { country: code.to_string(), theatrical, streaming }
}

fn well_formed_set() -> CountryReleases {
    set(
        "NZ",
        vec![
            entry(date(2024, 3, 1), ReleaseType::Theatrical, Some("limited")),
            entry(date(2024, 3, 1), ReleaseType::Theatrical, None),
            entry(date(2024, 5, 1), ReleaseType::Theatrical, None),
        ],
        vec![entry(date(2024, 8, 1), ReleaseType::Digital, None)],
    )
}

fn request(id: i32, code: &str) -> Vec<(i32, String)> {
    vec![(id, code.to_string())]
}

#[test]
fn time_to_live_is_counted_in_seconds() {
    let cache = CacheManager::new(7, 24, 2);
    assert_eq!(cache.film_ttl_seconds, 604_800);
    assert_eq!(cache.release_ttl_seconds, 86_400);
    assert_eq!(cache.provider_ttl_seconds, 172_800);
    let cache = CacheManager::new(i64::MAX, i64::MIN, 0);
    assert_eq!(cache.film_ttl_seconds, i64::MAX);
    assert_eq!(cache.release_ttl_seconds, i64::MIN);
    assert_eq!(cache.provider_ttl_seconds, 0);
}

#[test]
fn freshness_counts_the_age_against_the_time_to_live() {
    assert!(is_fresh(1_000, 900, 100));
    assert!(!is_fresh(1_001, 900, 100));
    assert!(is_fresh(900, 1_000, 0));
    assert!(is_fresh(i64::MIN, i64::MAX, 0));
    assert!(!is_fresh(i64::MAX, i64::MIN, i64::MAX - 1));
    // An age beyond the range of the times is beyond every time to live.
    assert!(!is_fresh(i64::MAX, i64::MIN, i64::MAX));
    assert!(!is_fresh(1, -i64::MAX, i64::MAX));
    assert!(is_fresh(0, -i64::MAX, i64::MAX));
}

#[test]
fn read_within_the_time_to_live_returns_what_was_written() {
    let mut cache = CacheManager::new(7, 24, 7);
    let written = well_formed_set();
    cache.put_releases_multi_country(42, &vec![written.clone()], 1_000);
    let read = cache.get_releases(&request(42, "NZ"), 1_000 + 24 * HOUR);
    assert_eq!(read.len(), 1);
    assert_eq!(read[0].tmdb_id, 42);
    assert_eq!(read[0].releases, written);
}

#[test]
fn read_after_the_time_to_live_returns_nothing() {
    let mut cache = CacheManager::new(7, 24, 7);
    cache.put_releases_multi_country(42, &vec![well_formed_set()], 1_000);
    assert_eq!(cache.get_releases(&request(42, "NZ"), 1_000 + 24 * HOUR + 1).len(), 0);
    // What is not asked for is not returned, fresh or not.
    assert_eq!(cache.get_releases(&request(42, "AU"), 1_000).len(), 0);
    assert_eq!(cache.get_releases(&request(43, "NZ"), 1_000).len(), 0);
    assert_eq!(cache.get_releases(&Vec::new(), 1_000).len(), 0);
}

#[test]
fn fresh_pair_without_rows_is_a_confirmed_absence() {
    let mut cache = CacheManager::new(7, 24, 7);
    cache.put_releases_multi_country(42, &vec![set("AU", vec![], vec![])], 1_000);
    let read = cache.get_releases(&vec![(42, "AU".to_string()), (42, "US".to_string())], 1_000);
    assert_eq!(read.len(), 1);
    assert_eq!(read[0].releases, set("AU", vec![], vec![]));
    assert_eq!(cache.releases.len(), 0);
    assert_eq!(cache.release_meta.len(), 1);
}

#[test]
fn writing_twice_leaves_what_one_write_leaves() {
    let mut once = CacheManager::new(7, 24, 7);
    let mut twice = CacheManager::new(7, 24, 7);
    let other = set("US", vec![entry(date(2024, 1, 1), ReleaseType::Theatrical, None)], vec![]);
    once.put_releases_multi_country(7, &vec![other.clone()], 500);
    twice.put_releases_multi_country(7, &vec![other.clone()], 500);
    let sets = vec![well_formed_set(), set("AU", vec![], vec![])];
    once.put_releases_multi_country(42, &sets, 2_000);
    twice.put_releases_multi_country(42, &sets, 1_000);
    twice.put_releases_multi_country(42, &sets, 2_000);
    assert_eq!(once.releases, twice.releases);
    assert_eq!(once.release_meta, twice.release_meta);
    assert_eq!(once.releases.len(), 5);
    let all = vec![(42, "NZ".to_string()), (42, "AU".to_string()), (7, "US".to_string())];
    assert_eq!(once.get_releases(&all, 2_000), twice.get_releases(&all, 2_000));
    assert_eq!(twice.get_releases(&all, 2_000).len(), 3);
    assert_eq!(twice.get_releases(&all, 500 + 86_401).len(), 2);
}

#[test]
fn a_write_replaces_only_the_countries_it_names() {
    let mut cache = CacheManager::new(7, 24, 7);
    cache.put_releases_multi_country(42, &vec![well_formed_set()], 1_000);
    cache.put_releases(42, "US", &vec![entry(date(2024, 1, 1), ReleaseType::Theatrical, None)], &Vec::new(), 1_000);
    cache.put_releases(42, "NZ", &Vec::new(), &vec![entry(date(2025, 1, 1), ReleaseType::Digital, None)], 1_500);
    let read = cache.get_releases(&vec![(42, "NZ".to_string()), (42, "US".to_string())], 1_500);
    assert_eq!(read.len(), 2);
    assert_eq!(read[0].releases, set("NZ", vec![], vec![entry(date(2025, 1, 1), ReleaseType::Digital, None)]));
    assert_eq!(read[1].releases.theatrical.len(), 1);
}

#[test]
fn identical_entries_are_stored_once_and_read_back_sorted() {
    let mut cache = CacheManager::new(7, 24, 7);
    let a = entry(date(2024, 5, 1), ReleaseType::Theatrical, Some("x"));
    let b = entry(date(2024, 3, 1), ReleaseType::Theatrical, Some("x"));
    let c = entry(date(2024, 4, 1), ReleaseType::Digital, None);
    let messy = set("US", vec![a.clone(), b.clone(), a.clone(), c.clone()], vec![c.clone(), b.clone()]);
    cache.put_releases_multi_country(1, &vec![messy], 0);
    assert_eq!(cache.releases.len(), 3);
    let read = cache.get_releases(&request(1, "US"), 0);
    assert_eq!(read[0].releases, set("US", vec![b, a], vec![c]));
}

#[test]
fn synthetic_entries_are_never_stored() {
    let mut cache = CacheManager::new(7, 24, 7);
    let mock = set(
        "US",
        vec![entry(date(2025, 1, 1), ReleaseType::Theatrical, Some("Mock theatrical release"))],
        vec![
            entry(date(2025, 4, 1), ReleaseType::Digital, Some("Mock streaming release")),
            entry(date(2025, 5, 1), ReleaseType::Digital, Some("real")),
        ],
    );
    cache.put_releases_multi_country(1, &vec![mock.clone()], 0);
    assert_eq!(cache.releases.len(), 1);
    let read = cache.get_releases(&request(1, "US"), 0);
    assert_eq!(read[0].releases, set("US", vec![], vec![entry(date(2025, 5, 1), ReleaseType::Digital, Some("real"))]));
    let rows = release_rows(1, &vec![mock], 9);
    assert_eq!(
        rows,
        vec![ReleaseRow {
            tmdb_id: 1,
            country: "US".to_string(),
            release_date: date(2025, 5, 1),
            release_type: 4,
            note: Some("real".to_string()),
            cached_at: 9,
        }]
    );
}

#[test]
fn rows_with_the_synthetic_marker_can_be_cleared() {
    let mut cache = CacheManager::new(7, 24, 7);
    let row = |note: Option<&str>| ReleaseRow {
        tmdb_id: 1,
        country: "US".to_string(),
        release_date: date(2025, 1, 1),
        release_type: 3,
        note: note.map(str::to_string),
        cached_at: 0,
    };
    cache.releases = vec![row(Some("Mock theatrical release")), row(None), row(Some("a Mockery")), row(Some("mock"))];
    cache.clear_mock_release_dates();
    assert_eq!(cache.releases, vec![row(None), row(Some("mock"))]);
}

#[test]
fn rows_of_an_unknown_kind_are_passed_over_on_read() {
    let mut cache = CacheManager::new(7, 24, 7);
    cache.put_releases_multi_country(1, &vec![set("US", vec![], vec![])], 0);
    cache.releases.push(ReleaseRow {
        tmdb_id: 1,
        country: "US".to_string(),
        release_date: date(2025, 1, 1),
        release_type: 9,
        note: None,
        cached_at: 0,
    });
    cache.releases.push(ReleaseRow {
        tmdb_id: 1,
        country: "US".to_string(),
        release_date: date(2025, 2, 1),
        release_type: 4,
        note: None,
        cached_at: 0,
    });
    let read = cache.get_releases(&request(1, "US"), 0);
    assert_eq!(read[0].releases, set("US", vec![], vec![entry(date(2025, 2, 1), ReleaseType::Digital, None)]));
}

fn identity(slug: &str, id: Option<i32>, title: &str) -> FilmCacheData {
    FilmCacheData {
        slug: slug.to_string(),
        tmdb_id: id,
        title: title.to_string(),
        year: Some(2024),
        poster_path: None,
    }
}

#[test]
fn identities_are_upserted_by_slug_and_expire() {
    let mut cache = CacheManager::new(1, 24, 7);
    cache.upsert_films(&Vec::new(), 0);
    assert_eq!(cache.films.len(), 0);
    cache.upsert_films(&vec![identity("a", None, "A"), identity("b", Some(2), "B")], 100);
    cache.upsert_films(&vec![identity("a", Some(1), "A!")], 200);
    assert_eq!(cache.films.len(), 2);
    let slugs = vec!["a".to_string(), "b".to_string(), "c".to_string()];
    let rows = cache.get_films(&slugs, 100 + 86_400);
    assert_eq!(rows.len(), 2);
    assert_eq!(rows[0].letterboxd_slug, "a");
    assert_eq!(rows[0].tmdb_id, Some(1));
    assert_eq!(rows[0].title, "A!");
    assert_eq!(rows[0].year, Some(2024));
    assert_eq!(rows[0].updated_at, 200);
    let rows = cache.get_films(&slugs, 101 + 86_400);
    assert_eq!(rows.len(), 1);
    assert_eq!(rows[0].letterboxd_slug, "a");
    assert_eq!(cache.get_films(&vec!["b".to_string()], 200 + 86_400).len(), 0);
    assert_eq!(cache.get_films(&Vec::new(), 100).len(), 0);
}

fn offer(id: i32, name: &str, kind: ProviderType) -> WatchProvider {
    WatchProvider {
        provider_id: id,
        provider_name: name.to_string(),
        logo_path: "/l.png".to_string(),
        link: Some("https://example.org".to_string()),
        provider_type: kind,
    }
}

#[test]
fn providers_are_replaced_per_pair_and_expire() {
    let mut cache = CacheManager::new(7, 24, 1);
    cache.put_providers(1, "US", &vec![offer(8, "Netflix", ProviderType::Stream), offer(2, "Apple", ProviderType::Rent)], 100);
    cache.put_providers(1, "FR", &vec![offer(8, "Netflix FR", ProviderType::Stream)], 100);
    cache.put_providers(2, "US", &vec![offer(3, "Google", ProviderType::Buy)], 100);
    let written = vec![
        offer(8, "Netflix HD", ProviderType::Stream),
        offer(8, "Netflix", ProviderType::Buy),
    ];
    cache.put_providers(1, "US", &written, 200);
    let read = cache.get_providers(&request(1, "US"), 200 + 86_400);
    assert_eq!(read.len(), 1);
    assert_eq!(read[0].country, "US");
    // What was written is what is read: the offer that is gone is gone.
    assert_eq!(read[0].providers, written);
    assert_eq!(cache.get_providers(&request(1, "US"), 201 + 86_400).len(), 0);
    // The other pairs stand as they stood.
    assert_eq!(cache.get_providers(&request(1, "FR"), 100)[0].providers.len(), 1);
    assert_eq!(cache.get_providers(&request(2, "US"), 100)[0].providers, vec![offer(3, "Google", ProviderType::Buy)]);
    assert_eq!(cache.providers.len(), 4);
    assert_eq!(cache.provider_meta.len(), 3);
    // Of two offers by one provider under one type the last is stored.
    cache.put_providers(2, "US", &vec![offer(3, "Old", ProviderType::Buy), offer(4, "X", ProviderType::Buy), offer(3, "New", ProviderType::Buy)], 300);
    assert_eq!(
        cache.get_providers(&request(2, "US"), 300)[0].providers,
        vec![offer(3, "New", ProviderType::Buy), offer(4, "X", ProviderType::Buy)]
    );
    cache.providers.push(ProviderRow {
        tmdb_id: 1,
        country: "US".to_string(),
        provider_id: 5,
        provider_name: "?".to_string(),
        logo_path: String::new(),
        link: None,
        provider_type: 7,
        cached_at: 200,
    });
    assert_eq!(cache.get_providers(&request(1, "US"), 200)[0].providers.len(), 2);
    assert_eq!(provider_rows(1, "US", &written, 5)[1].provider_type, 3);
}

#[test]
fn a_write_of_no_offers_is_a_confirmed_absence() {
    let mut cache = CacheManager::new(7, 24, 1);
    assert_eq!(cache.get_providers(&request(1, "US"), 0).len(), 0);
    cache.put_providers(1, "US", &Vec::new(), 100);
    assert_eq!(cache.provider_meta.len(), 1);
    let read = cache.get_providers(&request(1, "US"), 100 + 86_400);
    assert_eq!(read.len(), 1);
    assert_eq!(read[0].providers, Vec::<WatchProvider>::new());
    assert_eq!(cache.get_providers(&request(1, "US"), 101 + 86_400).len(), 0);
    // Offers that stood are gone once the film is written to have none.
    cache.put_providers(1, "US", &vec![offer(8, "Netflix", ProviderType::Stream)], 200);
    cache.put_providers(1, "US", &Vec::new(), 300);
    assert_eq!(cache.providers.len(), 0);
    assert_eq!(cache.get_providers(&request(1, "US"), 300)[0].providers.len(), 0);
}

#[test]
fn write_plan_names_what_to_delete_and_what_to_insert() {
    let sets = vec![well_formed_set(), set("AU", vec![], vec![])];
    let plan = plan_release_write(42, &sets, 77);
    assert_eq!(plan.tmdb_id, 42);
    assert_eq!(plan.cached_at, 77);
    assert_eq!(plan.countries, vec!["NZ".to_string(), "AU".to_string()]);
    assert_eq!(plan.rows, release_rows(42, &sets, 77));
    assert_eq!(plan.rows.len(), 4);
    let mut cache = CacheManager::new(7, 24, 7);
    cache.put_releases_multi_country(42, &sets, 77);
    assert_eq!(cache.releases, plan.rows);
}
