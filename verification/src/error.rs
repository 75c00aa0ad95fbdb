//! The errors of a request, what they say, and what the user is told.

use crate::scraper::ScrapeError;
use crate::text::{contains, has_substring};
use crate::tmdb::TmdbError;
use vstd::prelude::*;

verus! {

/// Why a request is refused before any work is done.
#[derive(Clone, Copy, Debug, PartialEq, Eq, Structural)]
pub enum ValidationError {
    /// The username is empty.
    UsernameRequired,
    /// The country is no code of two letters.
    InvalidCountry,
}

/// What can go wrong in a request.
#[derive(Debug, PartialEq, Eq)]
pub enum AppError {
    /// The request itself is malformed.
    Validation(ValidationError),
    /// A page of the watchlist source could not be read.
    Scrape(ScrapeError),
    /// An answer of the catalog provider could not be used.
    Tmdb(TmdbError),
    /// A call to the watchlist source or the catalog provider failed; the
    /// text says how.
    Upstream(String),
    /// The cache store failed; the text says how.
    Storage(String),
}

/// What an [`AppError`] is.
pub enum Failure {
    Validation(ValidationError),
    Scrape(ScrapeError),
    MalformedDate(Seq<char>),
    CurrentDateOutOfRange,
    Upstream(Seq<char>),
    Storage(Seq<char>),
}

impl DeepView for AppError {
    type V = Failure;

    open spec fn deep_view(&self) -> Failure {
        match self {
            AppError::Validation(e) => Failure::Validation(*e),
            AppError::Scrape(e) => Failure::Scrape(*e),
            AppError::Tmdb(TmdbError::MalformedDate { text }) => Failure::MalformedDate(text@),
            AppError::Tmdb(TmdbError::CurrentDateOutOfRange) => Failure::CurrentDateOutOfRange,
            AppError::Upstream(m) => Failure::Upstream(m@),
            AppError::Storage(m) => Failure::Storage(m@),
        }
    }
}

/// What a failure says.
pub open spec fn message_of(f: Failure) -> Seq<char> {
    match f {
        Failure::Validation(ValidationError::UsernameRequired) => "username is required"@,
        Failure::Validation(ValidationError::InvalidCountry) => "country must be a 2-letter code"@,
        Failure::Scrape(ScrapeError::NoBody) => "no body tag"@,
        Failure::Scrape(ScrapeError::NoTitle) => "no og:title meta tag"@,
        Failure::MalformedDate(text) => "TMDB API: malformed release date "@ + text,
        Failure::CurrentDateOutOfRange => "current date out of range"@,
        Failure::Upstream(m) => m,
        Failure::Storage(m) => m,
    }
}

/// A failure that ends the whole request: a malformed request, or a cache
/// store that does not work. Any other failure costs only the film that it
/// occurred for.
pub open spec fn fatal(f: Failure) -> bool {
    f is Validation || f is Storage
}

impl AppError {
    /// What the error says.
    pub fn message(&self) -> (r: String)
        ensures
            r@ == message_of(self.deep_view()),
    {
        match self {
            AppError::Validation(ValidationError::UsernameRequired) => {
                "username is required".to_owned()
            },
            AppError::Validation(ValidationError::InvalidCountry) => {
                "country must be a 2-letter code".to_owned()
            },
            AppError::Scrape(ScrapeError::NoBody) => "no body tag".to_owned(),
            AppError::Scrape(ScrapeError::NoTitle) => "no og:title meta tag".to_owned(),
            AppError::Tmdb(TmdbError::MalformedDate { text }) => {
                "TMDB API: malformed release date ".to_owned().concat(text.as_str())
            },
            AppError::Tmdb(TmdbError::CurrentDateOutOfRange) => {
                "current date out of range".to_owned()
            },
            AppError::Upstream(m) => m.clone(),
            AppError::Storage(m) => m.clone(),
        }
    }

    /// Whether the error ends the whole request.
    pub fn is_fatal(&self) -> (r: bool)
        ensures
            r == fatal(self.deep_view()),
    {
        match self {
            AppError::Validation(_) => true,
            AppError::Storage(_) => true,
            _ => false,
        }
    }
}

/// What the user is told of an error that says `err`: the first of these
/// that applies. A missing username; an invalid country; for a "404" or
/// "Not Found" at the watchlist source, that the user or the film was not
/// found; a failure of the catalog provider; a network failure; too many
/// requests; and otherwise that something unexpected happened.
pub open spec fn user_message(err: Seq<char>) -> Seq<char> {
    if has_substring(err, "username is required"@) {
        "Please enter a Letterboxd username."@
    } else if has_substring(err, "country must be a 2-letter code"@) {
        "Please select a valid country."@
    } else if (has_substring(err, "404"@) || has_substring(err, "Not Found"@)) && has_substring(
        err,
        "letterboxd.com"@,
    ) && has_substring(err, "/watchlist/"@) {
        "Letterboxd user not found. Please check the username and try again."@
    } else if (has_substring(err, "404"@) || has_substring(err, "Not Found"@)) && has_substring(
        err,
        "letterboxd.com"@,
    ) && has_substring(err, "/film/"@) {
        "Unable to find film information. This film may no longer exist on Letterboxd."@
    } else if has_substring(err, "TMDB API"@) || has_substring(err, "themoviedb"@) {
        "Unable to fetch movie data from TMDB. Please try again later."@
    } else if has_substring(err, "network"@) || has_substring(err, "timeout"@) {
        "Network error occurred. Please check your connection and try again."@
    } else if has_substring(err, "rate limit"@) {
        "Too many requests. Please wait a moment and try again."@
    } else {
        "An unexpected error occurred while processing your request. Please try again."@
    }
}

/// What the user is told of an error, given what the error says.
pub fn error_to_user_message(err_string: &str) -> (r: String)
    ensures
        r@ == user_message(err_string@),
{
    if contains(err_string, "username is required") {
        return "Please enter a Letterboxd username.".to_owned();
    }
    if contains(err_string, "country must be a 2-letter code") {
        return "Please select a valid country.".to_owned();
    }
    if contains(err_string, "404") || contains(err_string, "Not Found") {
        if contains(err_string, "letterboxd.com") {
            if contains(err_string, "/watchlist/") {
                return "Letterboxd user not found. Please check the username and try again.".to_owned();
            } else if contains(err_string, "/film/") {
                return "Unable to find film information. This film may no longer exist on Letterboxd.".to_owned();
            }
        }
    }
    if contains(err_string, "TMDB API") || contains(err_string, "themoviedb") {
        return "Unable to fetch movie data from TMDB. Please try again later.".to_owned();
    }
    if contains(err_string, "network") || contains(err_string, "timeout") {
        return "Network error occurred. Please check your connection and try again.".to_owned();
    }
    if contains(err_string, "rate limit") {
        return "Too many requests. Please wait a moment and try again.".to_owned();
    }
    "An unexpected error occurred while processing your request. Please try again.".to_owned()
}

} // verus!
