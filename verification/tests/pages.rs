use timeboxd::db::{is_duplicate_column_error, sql_statements};
use timeboxd::error::{error_to_user_message, AppError, ValidationError};
use timeboxd::models::{TrackRequest, WishlistFilm};
use timeboxd::processor::wrap_year;
use timeboxd::routes::{is_country_code, normalize_request, ProcessQuery};
use timeboxd::scraper::{
    extract_tmdb_id_from_url, film_data_from_page, parse_title_and_year, parse_watchlist_page,
    parse_year_from_title, split_trailing_year, strip_trailing_year, FilmPage, LetterboxdFilmData,
    ScanStep, ScrapeError, WatchlistScan,
};
use timeboxd::text::{blank, char_is_whitespace, contains, parse_i32, same_text, text_le, trim};
use timeboxd::tmdb::TmdbError;

#[test]
fn trailing_year_is_split_off() {
    assert_eq!(split_trailing_year("Dune: Part Two (2024)"), Some(("Dune: Part Two", Some(2024))));
    assert_eq!(split_trailing_year("  Heat  (1995)  "), Some(("Heat", Some(1995))));
    assert_eq!(split_trailing_year("Heat"), Some(("Heat", None)));
    assert_eq!(split_trailing_year("Heat (95)"), Some(("Heat (95)", None)));
    assert_eq!(split_trailing_year("Heat (199x)"), Some(("Heat (199x)", None)));
    assert_eq!(split_trailing_year("Heat (19955)"), Some(("Heat (19955)", None)));
    assert_eq!(split_trailing_year("Heat 1995)"), None);
    assert_eq!(split_trailing_year("A (1) (0007)"), Some(("A (1)", Some(7))));
    assert_eq!(split_trailing_year("(9999)"), Some(("", Some(9999))));
    assert_eq!(split_trailing_year(""), Some(("", None)));
    assert_eq!(split_trailing_year("Caf\u{e9} (\u{e9}\u{e9})"), Some(("Caf\u{e9} (\u{e9}\u{e9})", None)));
}

#[test]
fn titles_and_years_are_read() {
    assert_eq!(strip_trailing_year(" Dune (2021) "), "Dune");
    assert_eq!(strip_trailing_year(" Dune "), "Dune");
    assert_eq!(strip_trailing_year("Dune 2021)"), "Dune 2021)");
    assert_eq!(parse_year_from_title("Dune (2021)"), Some(2021));
    assert_eq!(parse_year_from_title("Dune"), None);
    assert_eq!(parse_year_from_title("Dune 2021)"), None);
    assert_eq!(parse_title_and_year("  Dune  (2021) "), ("Dune", Some(2021)));
    assert_eq!(parse_title_and_year(" Dune 2021) "), ("Dune 2021)", None));
    assert_eq!(parse_title_and_year("\u{a0}Dune\u{2003}"), ("Dune", None));
}

#[test]
fn catalog_identifier_is_read_from_a_link() {
    assert_eq!(extract_tmdb_id_from_url("https://www.themoviedb.org/movie/693134/"), Some(693134));
    assert_eq!(extract_tmdb_id_from_url("https://www.themoviedb.org/movie/603"), Some(603));
    assert_eq!(extract_tmdb_id_from_url("https://www.themoviedb.org/tv/1399/season/1"), Some(1399));
    assert_eq!(extract_tmdb_id_from_url("https://www.themoviedb.org/movie/603-the-matrix"), None);
    assert_eq!(extract_tmdb_id_from_url("https://www.themoviedb.org/movie//tv/5"), None);
    assert_eq!(extract_tmdb_id_from_url("https://www.themoviedb.org/tv/7/movie/8"), Some(8));
    assert_eq!(extract_tmdb_id_from_url("https://www.themoviedb.org/movie/+12/"), Some(12));
    assert_eq!(extract_tmdb_id_from_url("https://www.themoviedb.org/movie/99999999999/"), None);
    assert_eq!(extract_tmdb_id_from_url("https://www.themoviedb.org/person/5"), None);
    assert_eq!(extract_tmdb_id_from_url(""), None);
}

#[test]
fn watchlist_page_gives_an_entry_per_complete_item() {
    let items = vec![
        (Some("dune-part-two".to_string()), Some("Dune: Part Two (2024)".to_string())),
        (None, Some("No Slug (2024)".to_string())),
        (Some("no-name".to_string()), None),
        (Some("heat".to_string()), Some("Heat".to_string())),
    ];
    assert_eq!(
        parse_watchlist_page(&items),
        vec![
            WishlistFilm { letterboxd_slug: "dune-part-two".to_string(), year: Some(2024) },
            WishlistFilm { letterboxd_slug: "heat".to_string(), year: None },
        ]
    );
}

fn page(body: bool, attribute: Option<&str>, link: Option<&str>, title: Option<&str>) -> FilmPage {
    FilmPage {
        has_body: body,
        tmdb_id_attribute: attribute.map(str::to_string),
        tmdb_link: link.map(str::to_string),
        og_title: title.map(str::to_string),
    }
}

#[test]
fn film_page_is_read() {
    let link = "https://www.themoviedb.org/movie/949/";
    assert_eq!(
        film_data_from_page(&page(true, Some("603"), Some(link), Some("The Matrix (1999)"))),
        Ok(LetterboxdFilmData { title: "The Matrix".to_string(), year: Some(1999), tmdb_id: Some(603) })
    );
    assert_eq!(
        film_data_from_page(&page(true, Some(""), Some(link), Some("Heat"))),
        Ok(LetterboxdFilmData { title: "Heat".to_string(), year: None, tmdb_id: Some(949) })
    );
    assert_eq!(
        film_data_from_page(&page(true, Some("abc"), None, Some("Heat (1995)"))),
        Ok(LetterboxdFilmData { title: "Heat".to_string(), year: Some(1995), tmdb_id: None })
    );
    assert_eq!(film_data_from_page(&page(false, Some("603"), None, None)), Err(ScrapeError::NoBody));
    assert_eq!(film_data_from_page(&page(true, Some("603"), None, None)), Err(ScrapeError::NoTitle));
}

fn film(slug: &str, year: Option<i16>) -> WishlistFilm {
    WishlistFilm { letterboxd_slug: slug.to_string(), year }
}

#[test]
fn watchlist_is_read_until_a_page_is_empty_or_all_old() {
    let scan = WatchlistScan::new();
    assert_eq!(scan.page, 1);
    let first = vec![film("a", Some(2024)), film("b", None), film("a", Some(2023))];
    let scan = match scan.page_fetched(&first, 2021) {
        ScanStep::Next(next) => next,
        ScanStep::Done(_) => panic!("the page has recent films"),
    };
    assert_eq!(scan.page, 2);
    assert_eq!(scan.films, vec![film("a", Some(2024)), film("b", None)]);
    let second = vec![film("b", Some(2020)), film("c", Some(2019))];
    match scan.page_fetched(&second, 2021) {
        ScanStep::Done(films) => {
            assert_eq!(films, vec![film("a", Some(2024)), film("b", None), film("c", Some(2019))]);
        },
        ScanStep::Next(_) => panic!("every film of the page is old"),
    }
    match WatchlistScan::new().page_fetched(&Vec::new(), 2021) {
        ScanStep::Done(films) => assert_eq!(films.len(), 0),
        ScanStep::Next(_) => panic!("the page is empty"),
    }
    // A film of the cutoff year is not old, and neither is one without a year.
    assert!(matches!(WatchlistScan::new().page_fetched(&vec![film("x", Some(2021))], 2021), ScanStep::Next(_)));
    assert!(matches!(WatchlistScan::new().page_fetched(&vec![film("x", None)], 2021), ScanStep::Next(_)));
    let last = WatchlistScan { films: Vec::new(), page: u32::MAX };
    assert!(matches!(last.page_fetched(&vec![film("x", None)], 2021), ScanStep::Done(_)));
}

#[test]
fn requests_are_trimmed_and_validated() {
    assert_eq!(
        normalize_request("  alice ", " nz\t"),
        Ok(TrackRequest { username: "alice".to_string(), country: "NZ".to_string() })
    );
    assert_eq!(normalize_request("   ", "NZ"), Err(ValidationError::UsernameRequired));
    assert_eq!(normalize_request("", "??"), Err(ValidationError::UsernameRequired));
    assert_eq!(normalize_request("alice", "NZL"), Err(ValidationError::InvalidCountry));
    assert_eq!(normalize_request("alice", "N"), Err(ValidationError::InvalidCountry));
    assert_eq!(normalize_request("alice", "N1"), Err(ValidationError::InvalidCountry));
    assert_eq!(normalize_request("alice", ""), Err(ValidationError::InvalidCountry));
    assert_eq!(normalize_request("alice", "\u{e9}"), Err(ValidationError::InvalidCountry));
    // The long s has the upper case S.
    assert_eq!(normalize_request("alice", "u\u{17f}").map(|r| r.country), Ok("US".to_string()));
    let track = TrackRequest { username: " bob".to_string(), country: "fr".to_string() };
    assert_eq!(track.normalized(), Ok(TrackRequest { username: "bob".to_string(), country: "FR".to_string() }));
    let query = ProcessQuery { username: "".to_string(), country: "fr".to_string() };
    assert_eq!(query.normalized(), Err(ValidationError::UsernameRequired));
    assert!(is_country_code("nz"));
    assert!(!is_country_code("n "));
}

#[test]
fn errors_say_what_happened_and_whether_they_end_the_request() {
    let errors = vec![
        (AppError::Validation(ValidationError::UsernameRequired), "username is required", true),
        (AppError::Validation(ValidationError::InvalidCountry), "country must be a 2-letter code", true),
        (AppError::Scrape(ScrapeError::NoBody), "no body tag", false),
        (AppError::Scrape(ScrapeError::NoTitle), "no og:title meta tag", false),
        (
            AppError::Tmdb(TmdbError::MalformedDate { text: "soon".to_string() }),
            "TMDB API: malformed release date soon",
            false,
        ),
        (AppError::Tmdb(TmdbError::CurrentDateOutOfRange), "current date out of range", false),
        (AppError::Upstream("timeout".to_string()), "timeout", false),
        (AppError::Storage("disk full".to_string()), "disk full", true),
    ];
    for (error, message, fatal) in errors {
        assert_eq!(error.message(), message);
        assert_eq!(error.is_fatal(), fatal);
    }
}

#[test]
fn user_is_told_the_first_message_that_applies() {
    let cases = vec![
        ("username is required", "Please enter a Letterboxd username."),
        ("country must be a 2-letter code", "Please select a valid country."),
        (
            "HTTP status client error (404 Not Found) for url (https://letterboxd.com/x/watchlist/by/release/)",
            "Letterboxd user not found. Please check the username and try again.",
        ),
        (
            "Not Found: https://letterboxd.com/film/heat/",
            "Unable to find film information. This film may no longer exist on Letterboxd.",
        ),
        (
            "404 https://letterboxd.com/other (TMDB API)",
            "Unable to fetch movie data from TMDB. Please try again later.",
        ),
        ("error for url (https://api.themoviedb.org/3/movie/1)", "Unable to fetch movie data from TMDB. Please try again later."),
        ("network unreachable", "Network error occurred. Please check your connection and try again."),
        ("operation timeout", "Network error occurred. Please check your connection and try again."),
        ("rate limit exceeded", "Too many requests. Please wait a moment and try again."),
        ("404", "An unexpected error occurred while processing your request. Please try again."),
        ("", "An unexpected error occurred while processing your request. Please try again."),
        (
            "timeout; username is required",
            "Please enter a Letterboxd username.",
        ),
    ];
    for (error, message) in cases {
        assert_eq!(error_to_user_message(error), message);
    }
    assert_eq!(
        error_to_user_message(&AppError::Tmdb(TmdbError::MalformedDate { text: "x".to_string() }).message()),
        "Unable to fetch movie data from TMDB. Please try again later."
    );
}

#[test]
fn text_helpers_agree_with_the_standard_library() {
    for s in ["", " ", "a", " a b ", "\t\n x\u{a0}", "\u{2003}", "x\u{85}", "\u{200b}"] {
        assert_eq!(trim(s), s.trim());
        assert_eq!(blank(s), s.trim().is_empty());
    }
    for (hay, needle) in [("", ""), ("abc", ""), ("abc", "bc"), ("abc", "abcd"), ("aab", "ab"), ("ab", "ba"), ("h\u{e9}llo", "\u{e9}l")] {
        assert_eq!(contains(hay, needle), hay.contains(needle));
    }
    for (a, b) in [("", ""), ("", "a"), ("a", ""), ("abc", "abd"), ("abc", "ab"), ("Z", "a"), ("\u{e9}", "z"), ("same", "same")] {
        assert_eq!(text_le(a, b), a <= b);
        assert_eq!(same_text(a, b), a == b);
    }
}

#[test]
fn stored_years_wrap_to_sixteen_bits() {
    assert_eq!(wrap_year(2024), 2024);
    assert_eq!(wrap_year(-5), -5);
    assert_eq!(wrap_year(32_768), -32_768);
    assert_eq!(wrap_year(65_536 + 7), 7);
    assert_eq!(wrap_year(i32::MIN), 0);
    assert_eq!(wrap_year(i32::MAX), -1);
    assert_eq!(wrap_year(-32_769), 32_767);
}

#[test]
fn script_is_split_into_its_statements() {
    assert_eq!(
        sql_statements(" CREATE TABLE a (x INT);\n\n; ALTER TABLE a ADD y TEXT ;;DROP TABLE b"),
        vec!["CREATE TABLE a (x INT)", "ALTER TABLE a ADD y TEXT", "DROP TABLE b"]
    );
    assert_eq!(sql_statements(""), Vec::<String>::new());
    assert_eq!(sql_statements(" ; \t;"), Vec::<String>::new());
    assert_eq!(sql_statements("SELECT 1"), vec!["SELECT 1"]);
    for script in ["a;b", ";a", "a;", " a ; ; b ;", ";;"] {
        let expected: Vec<&str> = script.split(';').map(str::trim).filter(|s| !s.is_empty()).collect();
        assert_eq!(sql_statements(script), expected);
    }
    assert!(is_duplicate_column_error("SQLite error: duplicate column name: poster_path"));
    assert!(!is_duplicate_column_error("no such table: film_cache"));
}

#[test]
fn white_space_is_what_the_standard_library_calls_white_space() {
    let mut count = 0;
    for code in 0..=0x10FFFF_u32 {
        if let Some(c) = char::from_u32(code) {
            assert_eq!(char_is_whitespace(c), c.is_whitespace(), "U+{:04X}", code);
            if char_is_whitespace(c) {
                count += 1;
            }
        }
    }
    assert_eq!(count, 25);
}

#[test]
fn numbers_are_read_as_the_standard_library_reads_them() {
    let texts = [
        "", "0", "7", "-7", "+7", "007", "-0", "+0", "+", "-", "+-5", "--5", "5-", " 5", "5 ", "1_000",
        "2147483647", "2147483648", "-2147483648", "-2147483649", "+2147483647", "+2147483648",
        "00000000000000000000000000012", "-00000000000000000000002147483648", "99999999999999999999",
        "12a", "a12", "1.5", "\u{663}", "\u{ff11}", "693134",
    ];
    for text in texts {
        assert_eq!(parse_i32(text), text.parse::<i32>().ok(), "{:?}", text);
    }
    assert_eq!(parse_i32("-2147483648"), Some(i32::MIN));
    assert_eq!(parse_i32("2147483647"), Some(i32::MAX));
    assert_eq!(parse_i32("2147483648"), None);
}
