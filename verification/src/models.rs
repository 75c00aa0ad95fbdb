//! The data that flows through the release pipeline.
//!
//! Each type that owns text has a mathematical counterpart, reached by
//! `deep_view()` (or `@`): the same fields with every `String` replaced by
//! its `Seq<char>` and every `Vec` by a `Seq`. Contracts speak of these.

use crate::date::CivilDate;
use vstd::prelude::*;

verus! {

/// One entry of a user's watchlist.
#[derive(Debug, PartialEq, Eq)]
pub struct WishlistFilm {
    pub letterboxd_slug: String,
    pub year: Option<i16>,
}

/// What a [`WishlistFilm`] is.
pub struct WatchlistEntry {
    pub slug: Seq<char>,
    pub year: Option<i16>,
}

impl DeepView for WishlistFilm {
    type V = WatchlistEntry;

    open spec fn deep_view(&self) -> WatchlistEntry {
        WatchlistEntry { slug: self.letterboxd_slug@, year: self.year }
    }
}

impl View for WishlistFilm {
    type V = WatchlistEntry;

    open spec fn view(&self) -> WatchlistEntry {
        self.deep_view()
    }
}

impl Clone for WishlistFilm {
    fn clone(&self) -> (r: Self)
        ensures
            r == *self,
    {
        WishlistFilm { letterboxd_slug: self.letterboxd_slug.clone(), year: self.year }
    }
}

/// The kind of a dated release event.
#[derive(Clone, Copy, Debug, PartialEq, Eq, Structural)]
pub enum ReleaseType {
    Theatrical,
    Digital,
}

impl ReleaseType {
    /// The number that the catalog provider uses for this kind.
    pub open spec fn code(self) -> int {
        match self {
            ReleaseType::Theatrical => 3,
            ReleaseType::Digital => 4,
        }
    }

    /// The kind that a provider's number stands for, if any.
    pub open spec fn of_code(code: int) -> Option<ReleaseType> {
        if code == 3 {
            Some(ReleaseType::Theatrical)
        } else if code == 4 {
            Some(ReleaseType::Digital)
        } else {
            None
        }
    }

    /// The number that the catalog provider uses for this kind.
    pub fn as_tmdb_code(self) -> (code: i32)
        ensures
            code == self.code(),
    {
        match self {
            ReleaseType::Theatrical => 3,
            ReleaseType::Digital => 4,
        }
    }

    /// The kind that a provider's number stands for; none for any number but
    /// those of the two kinds.
    pub fn from_tmdb_code(code: i32) -> (kind: Option<ReleaseType>)
        ensures
            kind == ReleaseType::of_code(code as int),
    {
        match code {
            3 => Some(ReleaseType::Theatrical),
            4 => Some(ReleaseType::Digital),
            _ => None,
        }
    }

    /// A kind's number stands for that kind, and no other number does.
    pub proof fn lemma_code_round_trip(self, code: int)
        ensures
            ReleaseType::of_code(self.code()) == Some(self),
            ReleaseType::of_code(code) == Some(self) <==> code == self.code(),
    {
    }
}

/// One dated release event.
#[derive(Debug, PartialEq, Eq)]
pub struct ReleaseDate {
    pub date: CivilDate,
    pub release_type: ReleaseType,
    pub note: Option<String>,
}

/// What a [`ReleaseDate`] is: a date, a kind and an optional note.
pub struct ReleaseEntry {
    pub date: CivilDate,
    pub kind: ReleaseType,
    pub note: Option<Seq<char>>,
}

impl DeepView for ReleaseDate {
    type V = ReleaseEntry;

    open spec fn deep_view(&self) -> ReleaseEntry {
        ReleaseEntry { date: self.date, kind: self.release_type, note: self.note.deep_view() }
    }
}

impl View for ReleaseDate {
    type V = ReleaseEntry;

    open spec fn view(&self) -> ReleaseEntry {
        self.deep_view()
    }
}

impl Clone for ReleaseDate {
    fn clone(&self) -> (r: Self)
        ensures
            r == *self,
    {
        ReleaseDate {
            date: self.date,
            release_type: self.release_type,
            note: clone_text(&self.note),
        }
    }
}

/// How a film's releases relate to the present.
#[derive(Clone, Copy, Debug, PartialEq, Eq, Structural)]
pub enum ReleaseCategory {
    LocalUpcoming,
    LocalAlreadyAvailable,
    NoReleases,
}

/// The way in which a provider offers a film.
#[derive(Clone, Copy, Debug, PartialEq, Eq, Structural)]
pub enum ProviderType {
    Stream,
    Rent,
    Buy,
}

impl ProviderType {
    /// The number under which this type is stored.
    pub open spec fn code(self) -> int {
        match self {
            ProviderType::Stream => 1,
            ProviderType::Rent => 2,
            ProviderType::Buy => 3,
        }
    }

    /// The type that a stored number stands for, if any.
    pub open spec fn of_code(code: int) -> Option<ProviderType> {
        if code == 1 {
            Some(ProviderType::Stream)
        } else if code == 2 {
            Some(ProviderType::Rent)
        } else if code == 3 {
            Some(ProviderType::Buy)
        } else {
            None
        }
    }

    /// The number under which this type is stored.
    pub fn as_code(self) -> (code: i32)
        ensures
            code == self.code(),
    {
        match self {
            ProviderType::Stream => 1,
            ProviderType::Rent => 2,
            ProviderType::Buy => 3,
        }
    }

    /// The type that a stored number stands for; none for any number but
    /// those of the three types.
    pub fn from_code(code: i32) -> (kind: Option<ProviderType>)
        ensures
            kind == ProviderType::of_code(code as int),
    {
        match code {
            1 => Some(ProviderType::Stream),
            2 => Some(ProviderType::Rent),
            3 => Some(ProviderType::Buy),
            _ => None,
        }
    }
}

/// One offer for watching a film.
#[derive(Debug, PartialEq, Eq)]
pub struct WatchProvider {
    pub provider_id: i32,
    pub provider_name: String,
    pub logo_path: String,
    pub link: Option<String>,
    pub provider_type: ProviderType,
}

/// What a [`WatchProvider`] is.
pub struct ProviderOffer {
    pub provider_id: i32,
    pub provider_name: Seq<char>,
    pub logo_path: Seq<char>,
    pub link: Option<Seq<char>>,
    pub provider_type: ProviderType,
}

impl DeepView for WatchProvider {
    type V = ProviderOffer;

    open spec fn deep_view(&self) -> ProviderOffer {
        ProviderOffer {
            provider_id: self.provider_id,
            provider_name: self.provider_name@,
            logo_path: self.logo_path@,
            link: self.link.deep_view(),
            provider_type: self.provider_type,
        }
    }
}

impl View for WatchProvider {
    type V = ProviderOffer;

    open spec fn view(&self) -> ProviderOffer {
        self.deep_view()
    }
}

impl Clone for WatchProvider {
    fn clone(&self) -> (r: Self)
        ensures
            r == *self,
    {
        WatchProvider {
            provider_id: self.provider_id,
            provider_name: self.provider_name.clone(),
            logo_path: self.logo_path.clone(),
            link: clone_text(&self.link),
            provider_type: self.provider_type,
        }
    }
}

/// All release entries of one film in one country.
#[derive(Debug, PartialEq, Eq)]
pub struct CountryReleases {
    pub country: String,
    pub theatrical: Vec<ReleaseDate>,
    pub streaming: Vec<ReleaseDate>,
}

/// What a [`CountryReleases`] is.
pub struct CountryReleaseSet {
    pub country: Seq<char>,
    pub theatrical: Seq<ReleaseEntry>,
    pub streaming: Seq<ReleaseEntry>,
}

impl DeepView for CountryReleases {
    type V = CountryReleaseSet;

    open spec fn deep_view(&self) -> CountryReleaseSet {
        CountryReleaseSet {
            country: self.country@,
            theatrical: self.theatrical.deep_view(),
            streaming: self.streaming.deep_view(),
        }
    }
}

impl View for CountryReleases {
    type V = CountryReleaseSet;

    open spec fn view(&self) -> CountryReleaseSet {
        self.deep_view()
    }
}

impl Clone for CountryReleases {
    fn clone(&self) -> (r: Self)
        ensures
            r@ == self@,
    {
        CountryReleases {
            country: self.country.clone(),
            theatrical: clone_releases(&self.theatrical),
            streaming: clone_releases(&self.streaming),
        }
    }
}

/// The release data of one film: the requested country's, and every
/// country's.
#[derive(Debug, PartialEq, Eq)]
pub struct ReleaseDatesResult {
    pub requested_country: CountryReleases,
    pub all_countries: Vec<CountryReleases>,
}

/// The final result for one film.
#[derive(Debug, PartialEq, Eq)]
pub struct FilmWithReleases {
    pub title: String,
    pub year: Option<i16>,
    pub tmdb_id: i32,
    pub letterboxd_slug: String,
    pub poster_path: Option<String>,
    pub theatrical: Vec<ReleaseDate>,
    pub streaming: Vec<ReleaseDate>,
    pub category: ReleaseCategory,
    pub streaming_providers: Vec<WatchProvider>,
}

/// What a [`FilmWithReleases`] is.
pub struct FilmResult {
    pub title: Seq<char>,
    pub year: Option<i16>,
    pub tmdb_id: i32,
    pub slug: Seq<char>,
    pub poster_path: Option<Seq<char>>,
    pub theatrical: Seq<ReleaseEntry>,
    pub streaming: Seq<ReleaseEntry>,
    pub category: ReleaseCategory,
    pub providers: Seq<ProviderOffer>,
}

impl DeepView for FilmWithReleases {
    type V = FilmResult;

    open spec fn deep_view(&self) -> FilmResult {
        FilmResult {
            title: self.title@,
            year: self.year,
            tmdb_id: self.tmdb_id,
            slug: self.letterboxd_slug@,
            poster_path: self.poster_path.deep_view(),
            theatrical: self.theatrical.deep_view(),
            streaming: self.streaming.deep_view(),
            category: self.category,
            providers: self.streaming_providers.deep_view(),
        }
    }
}

impl View for FilmWithReleases {
    type V = FilmResult;

    open spec fn view(&self) -> FilmResult {
        self.deep_view()
    }
}

impl Clone for FilmWithReleases {
    fn clone(&self) -> (r: Self)
        ensures
            r.deep_view() == self.deep_view(),
    {
        FilmWithReleases {
            title: self.title.clone(),
            year: self.year,
            tmdb_id: self.tmdb_id,
            letterboxd_slug: self.letterboxd_slug.clone(),
            poster_path: clone_text(&self.poster_path),
            theatrical: clone_releases(&self.theatrical),
            streaming: clone_releases(&self.streaming),
            category: self.category,
            streaming_providers: clone_providers(&self.streaming_providers),
        }
    }
}

/// A request to track a user's watchlist for a country, as submitted.
#[derive(Debug, PartialEq, Eq)]
pub struct TrackRequest {
    pub username: String,
    pub country: String,
}

/// A copy of an optional text.
pub fn clone_text(t: &Option<String>) -> (r: Option<String>)
    ensures
        r == *t,
{
    match t {
        Some(s) => Some(s.clone()),
        None => None,
    }
}

/// A copy of a list of release entries.
pub fn clone_releases(v: &Vec<ReleaseDate>) -> (r: Vec<ReleaseDate>)
    ensures
        r@ == v@,
{
    let mut r: Vec<ReleaseDate> = Vec::new();
    let mut i: usize = 0;
    while i < v.len()
        invariant
            i <= v.len(),
            r@ == v@.take(i as int),
        decreases v.len() - i,
    {
        r.push(v[i].clone());
        i += 1;
    }
    r
}

/// A copy of a list of offers.
pub fn clone_providers(v: &Vec<WatchProvider>) -> (r: Vec<WatchProvider>)
    ensures
        r@ == v@,
{
    let mut r: Vec<WatchProvider> = Vec::new();
    let mut i: usize = 0;
    while i < v.len()
        invariant
            i <= v.len(),
            r@ == v@.take(i as int),
        decreases v.len() - i,
    {
        r.push(v[i].clone());
        i += 1;
    }
    r
}

} // verus!
