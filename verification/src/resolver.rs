//! The resolution of one watchlist film to a catalog identity.
//!
//! The resolver asks for the film's page at the watchlist source. With the
//! page's catalog identifier it asks the catalog for the poster; without
//! one, or without the page, it asks the catalog to search by title and
//! year. It does none of the asking itself: each state says what it waits
//! for, and each transition takes the answer, or the news that there is
//! none: without the page a search is asked for by the title read off the
//! slug; without the poster the film is identified all the same; a search
//! that fails costs the film. An identity that the cache holds without a poster
//! is renewed by the last step alone.

use crate::cache::FilmCacheData;
use crate::models::WishlistFilm;
use crate::scraper::LetterboxdFilmData;
use crate::text::{char_to_uppercase, chars_of, slice, uppercase_of};
use vstd::prelude::*;

verus! {

/// The title read off the rest of a slug: every hyphen a space, and the
/// first character of every word in upper case.
pub open spec fn title_from(s: Seq<char>, at_start: bool) -> Seq<char>
    decreases s.len(),
{
    if s.len() == 0 {
        Seq::empty()
    } else if s[0] == '-' {
        seq![' '] + title_from(s.drop_first(), true)
    } else if at_start {
        uppercase_of(s[0]) + title_from(s.drop_first(), false)
    } else {
        seq![s[0]] + title_from(s.drop_first(), false)
    }
}

/// The title that stands in for a film whose page cannot be had.
pub open spec fn title_of_slug(slug: Seq<char>) -> Seq<char> {
    title_from(slug, true)
}

/// Reads a title off a slug.
pub fn fallback_title(slug: &str) -> (r: String)
    ensures
        r@ == title_of_slug(slug@),
{
    let v = chars_of(slug);
    let mut out = String::new();
    let mut at_start = true;
    let mut i: usize = 0;
    assert(v@.skip(0) =~= v@);
    assert(out@ + title_from(v@.skip(0), true) =~= title_from(v@, true));
    while i < v.len()
        invariant
            i <= v.len(),
            v@ == slug@,
            out@ + title_from(v@.skip(i as int), at_start) == title_of_slug(slug@),
        decreases v.len() - i,
    {
        let ghost before = out@;
        let ghost rest = v@.skip(i as int);
        proof {
            assert(rest.drop_first() =~= v@.skip(i + 1));
            assert(rest[0] == v@[i as int]);
        }
        let c = v[i];
        if c == '-' {
            out.append(" ");
            proof {
                reveal_strlit(" ");
                assert(" "@ =~= seq![' ']);
                assert(out@ + title_from(v@.skip(i + 1), true) =~= before + title_from(
                    rest,
                    at_start,
                ));
            }
            at_start = true;
        } else if at_start {
            let up = char_to_uppercase(c);
            out.append(up.as_str());
            proof {
                assert(out@ + title_from(v@.skip(i + 1), false) =~= before + title_from(
                    rest,
                    at_start,
                ));
            }
            at_start = false;
        } else {
            out.append(slice(slug, i, i + 1));
            proof {
                assert(slug@.subrange(i as int, i + 1) =~= seq![c]);
                assert(out@ + title_from(v@.skip(i + 1), false) =~= before + title_from(
                    rest,
                    at_start,
                ));
            }
        }
        i += 1;
    }
    assert(out@ + title_from(v@.skip(v.len() as int), at_start) =~= out@);
    out
}

/// The resolver waits for the film's page.
#[derive(Debug)]
pub struct AwaitingDetail {
    pub film: WishlistFilm,
}

/// The resolver waits for the outcome of a search.
#[derive(Debug)]
pub struct AwaitingSearch {
    pub slug: String,
    pub title: String,
    pub year: Option<i16>,
}

/// The resolver waits for the poster of an identified film.
#[derive(Debug)]
pub struct AwaitingPoster {
    pub slug: String,
    pub title: String,
    pub year: Option<i16>,
    pub tmdb_id: i32,
}

/// What the resolver asks the catalog after the page.
#[derive(Debug)]
pub enum Lookup {
    /// Search the catalog for the title and the year.
    Search(AwaitingSearch),
    /// Ask the catalog for the poster of the film.
    Details(AwaitingPoster),
}

/// The year with which a film is resolved: the page's, else the
/// watchlist's.
pub open spec fn resolved_year(hint: Option<i16>, page_year: Option<i16>) -> Option<i16> {
    match page_year {
        Some(y) => Some(y),
        None => hint,
    }
}

/// Begins the resolution of a film: the caller is to fetch the page of the
/// film's slug.
pub fn resolve(film: WishlistFilm) -> (r: AwaitingDetail)
    ensures
        r.film == film,
{
    AwaitingDetail { film }
}

/// Begins the renewal of a cached identity that lacks a poster: the caller
/// is to ask the catalog for the poster of the film. An identity without a
/// catalog identifier cannot be renewed in this way.
pub fn refresh(identity: FilmCacheData) -> (r: Option<AwaitingPoster>)
    ensures
        match r {
            Some(state) => identity.tmdb_id == Some(state.tmdb_id) && state.slug == identity.slug
                && state.title == identity.title && state.year == identity.year,
            None => identity.tmdb_id is None,
        },
{
    match identity.tmdb_id {
        Some(tmdb_id) => Some(
            AwaitingPoster {
                slug: identity.slug,
                title: identity.title,
                year: identity.year,
                tmdb_id,
            },
        ),
        None => None,
    }
}

impl AwaitingDetail {
    /// Takes the film's page, or `None` where it could not be had. With a
    /// catalog identifier from the page the poster is asked for; otherwise
    /// a search, by the page's title and year, or by the title read off the
    /// slug and the watchlist's year.
    pub fn detail_fetched(self, detail: Option<LetterboxdFilmData>) -> (r: Lookup)
        ensures
            match r {
                Lookup::Details(state) => {
                    &&& detail matches Some(d)
                    &&& d.tmdb_id == Some(state.tmdb_id)
                    &&& state.slug@ == self.film.letterboxd_slug@
                    &&& state.title@ == d.title@
                    &&& state.year == resolved_year(self.film.year, d.year)
                },
                Lookup::Search(state) => {
                    &&& state.slug@ == self.film.letterboxd_slug@
                    &&& match detail {
                        Some(d) => d.tmdb_id is None && state.title@ == d.title@ && state.year
                            == resolved_year(self.film.year, d.year),
                        None => state.title@ == title_of_slug(self.film.letterboxd_slug@)
                            && state.year == self.film.year,
                    }
                },
            },
    {
        let slug = self.film.letterboxd_slug;
        match detail {
            Some(d) => {
                let year = match d.year {
                    Some(y) => Some(y),
                    None => self.film.year,
                };
                match d.tmdb_id {
                    Some(tmdb_id) => Lookup::Details(
                        AwaitingPoster { slug, title: d.title, year, tmdb_id },
                    ),
                    None => Lookup::Search(AwaitingSearch { slug, title: d.title, year }),
                }
            },
            None => {
                let title = fallback_title(slug.as_str());
                Lookup::Search(AwaitingSearch { slug, title, year: self.film.year })
            },
        }
    }
}

impl AwaitingDetail {
    /// The film's page could not be had: a search is asked for, by the
    /// title read off the slug and the watchlist's year.
    pub fn detail_failed(self) -> (r: Lookup)
        ensures
            r matches Lookup::Search(state) && state.slug@ == self.film.letterboxd_slug@
                && state.title@ == title_of_slug(self.film.letterboxd_slug@) && state.year
                == self.film.year,
    {
        self.detail_fetched(None)
    }
}

impl AwaitingSearch {
    /// The search failed. That costs the film: it gets no identity, nothing
    /// is stored for it, and it takes no further part in the run.
    pub fn search_failed(self) -> (r: Option<FilmCacheData>)
        ensures
            r is None,
    {
        None
    }

    /// Takes the first hit of the search, or `None` where there was none.
    /// The identity is to be stored either way: without a catalog
    /// identifier it is unresolved, and the film takes no further part in
    /// the run.
    pub fn search_done(self, hit: Option<(i32, Option<String>)>) -> (r: FilmCacheData)
        ensures
            r.slug == self.slug,
            r.title == self.title,
            r.year == self.year,
            match hit {
                Some((id, poster)) => r.tmdb_id == Some(id) && r.poster_path == poster,
                None => r.tmdb_id is None && r.poster_path is None,
            },
    {
        match hit {
            Some((id, poster)) => FilmCacheData {
                slug: self.slug,
                tmdb_id: Some(id),
                title: self.title,
                year: self.year,
                poster_path: poster,
            },
            None => FilmCacheData {
                slug: self.slug,
                tmdb_id: None,
                title: self.title,
                year: self.year,
                poster_path: None,
            },
        }
    }
}

impl AwaitingPoster {
    /// The catalog could not be asked for the poster. That costs the film
    /// nothing but the poster.
    pub fn details_failed(self) -> (r: FilmCacheData)
        ensures
            r.slug == self.slug,
            r.title == self.title,
            r.year == self.year,
            r.tmdb_id == Some(self.tmdb_id),
            r.poster_path is None,
    {
        self.details_done(None)
    }

    /// Takes the poster path, or `None` where the catalog has none or could
    /// not be asked.
    pub fn details_done(self, poster: Option<String>) -> (r: FilmCacheData)
        ensures
            r.slug == self.slug,
            r.title == self.title,
            r.year == self.year,
            r.tmdb_id == Some(self.tmdb_id),
            r.poster_path == poster,
    {
        FilmCacheData {
            slug: self.slug,
            tmdb_id: Some(self.tmdb_id),
            title: self.title,
            year: self.year,
            poster_path: poster,
        }
    }
}

} // verus!
