//! What is read out of the watchlist source's pages.
//!
//! Selecting elements out of HTML is not done here. These functions take
//! the attribute values that were selected and make of them watchlist
//! entries, titles, years and catalog identifiers.

use crate::models::{WatchlistEntry, WishlistFilm};
use crate::text::{
    all_digits, chars_of, digits_value, find_char_from, find_in, first_match, index_from,
    is_digit, last_index_of, occurs_at, parse_i32, parsed_i32, rfind_char, same_text, slice,
    trim, trim_bounds, trimmed, trimmed_end,
};
use vstd::prelude::*;

verus! {

/// A title split into the title proper and the year that follows it in
/// round brackets. The title is trimmed first. Without a closing bracket at
/// its end, or with anything but four digits between the last opening
/// bracket and that end, the whole title stays and there is no year. With a
/// closing bracket at the end and no opening bracket at all there is no
/// split.
pub open spec fn split_year(title: Seq<char>) -> Option<(Seq<char>, Option<i16>)> {
    let s = trimmed(title);
    if s.len() == 0 || s.last() != ')' {
        Some((s, None))
    } else {
        match last_index_of(s, '(') {
            None => None,
            Some(open) => {
                let inside = s.subrange(open + 1, s.len() - 1);
                if inside.len() != 4 || !all_digits(inside) {
                    Some((s, None))
                } else {
                    Some((trimmed_end(s.subrange(0, open)), Some(digits_value(inside) as i16)))
                }
            },
        }
    }
}

/// The number written by the four digits from `from` on.
fn four_digits(v: &Vec<char>, from: usize) -> (r: Option<i16>)
    requires
        from + 4 <= v.len(),
    ensures
        r is Some <==> all_digits(v@.subrange(from as int, from + 4)),
        r matches Some(y) ==> y == digits_value(v@.subrange(from as int, from + 4)) && 0 <= y
            <= 9999,
{
    let ghost d = v@.subrange(from as int, from + 4);
    let mut value: i16 = 0;
    let mut k: usize = 0;
    assert(d.take(0) =~= Seq::<char>::empty());
    while k < 4
        invariant
            k <= 4,
            from + 4 <= v.len(),
            d == v@.subrange(from as int, from + 4),
            all_digits(d.take(k as int)),
            value == digits_value(d.take(k as int)),
            0 <= value < pow10(k as nat),
        decreases 4 - k,
    {
        let c = v[from + k];
        assert(d[k as int] == c);
        let code = c as u32;
        if code < 48 || code > 57 {
            assert(!is_digit(d[k as int]));
            return None;
        }
        proof {
            assert(d.take(k + 1).drop_last() =~= d.take(k as int));
            assert(d.take(k + 1).last() == c);
            reveal_with_fuel(pow10, 5);
        }
        value = value * 10 + (code - 48) as i16;
        k += 1;
    }
    assert(d.take(4) =~= d);
    proof {
        reveal_with_fuel(pow10, 5);
    }
    Some(value)
}

/// Ten to the power of `n`.
pub open spec fn pow10(n: nat) -> int
    decreases n,
{
    if n == 0 {
        1
    } else {
        10 * pow10((n - 1) as nat)
    }
}

/// Splits a title into the title proper and the year in brackets behind it.
pub fn split_trailing_year(title: &str) -> (r: Option<(&str, Option<i16>)>)
    ensures
        match r {
            Some((t, y)) => split_year(title@) == Some((t@, y)),
            None => split_year(title@) is None,
        },
{
    let all = chars_of(title);
    let (a, b) = trim_bounds(&all, true);
    let s = slice(title, a, b);
    let v = chars_of(s);
    if v.len() == 0 || v[v.len() - 1] != ')' {
        return Some((s, None));
    }
    let open = match rfind_char(&v, '(') {
        Some(i) => i,
        None => {
            return None;
        },
    };
    let inner = v.len() - 1 - (open + 1);
    if inner != 4 {
        return Some((s, None));
    }
    match four_digits(&v, open + 1) {
        None => Some((s, None)),
        Some(year) => {
            let head = slice(s, 0, open);
            let h = chars_of(head);
            let (_, end) = trim_bounds(&h, false);
            Some((slice(head, 0, end), Some(year)))
        },
    }
}

/// The title without the year in brackets behind it, trimmed.
pub open spec fn title_without_year(title: Seq<char>) -> Seq<char> {
    match split_year(title) {
        Some((t, Some(_))) => trimmed(t),
        _ => trimmed(title),
    }
}

/// The title without the year in brackets behind it.
pub fn strip_trailing_year(title: &str) -> (r: String)
    ensures
        r@ == title_without_year(title@),
{
    match split_trailing_year(title) {
        Some((t, Some(_))) => trim(t),
        _ => trim(title),
    }
}

/// The year in brackets behind a title, if there is one.
pub open spec fn year_of_title(title: Seq<char>) -> Option<i16> {
    match split_year(title) {
        Some((_, y)) => y,
        None => None,
    }
}

/// The year in brackets behind a title.
pub fn parse_year_from_title(title: &str) -> (r: Option<i16>)
    ensures
        r == year_of_title(title@),
{
    match split_trailing_year(title) {
        Some((_, y)) => y,
        None => None,
    }
}

/// A page title as title and year: the title proper, trimmed, with the year
/// behind it; the whole trimmed title and no year where there is no split.
pub open spec fn title_and_year(title_with_year: Seq<char>) -> (Seq<char>, Option<i16>) {
    let t = trimmed(title_with_year);
    match split_year(t) {
        Some((title, year)) => (trimmed(title), year),
        None => (t, None),
    }
}

/// Reads a page title as title and year.
pub fn parse_title_and_year(title_with_year: &str) -> (r: (&str, Option<i16>))
    ensures
        (r.0@, r.1) == title_and_year(title_with_year@),
{
    let all = chars_of(title_with_year);
    let (a, b) = trim_bounds(&all, true);
    let t = slice(title_with_year, a, b);
    match split_trailing_year(t) {
        Some((title, year)) => {
            let v = chars_of(title);
            let (c, d) = trim_bounds(&v, true);
            (slice(title, c, d), year)
        },
        None => (t, None),
    }
}

/// The part of `s` from `from` up to the next `/`, or to the end.
pub open spec fn segment_from(s: Seq<char>, from: int) -> Seq<char>
    recommends
        0 <= from <= s.len(),
{
    s.subrange(from, index_from(s, '/', from))
}

/// The catalog identifier in a link to the catalog: the number behind the
/// first `/movie/`, up to the next `/`; without `/movie/`, the number behind
/// the first `/tv/`. A segment that is no number gives none.
pub open spec fn tmdb_id_in_url(url: Seq<char>) -> Option<i32> {
    match first_match(url, "/movie/"@) {
        Some(p) => parsed_i32(segment_from(url, p + 7)),
        None => match first_match(url, "/tv/"@) {
            Some(p) => parsed_i32(segment_from(url, p + 4)),
            None => None,
        },
    }
}

/// The number in the segment of `url` that starts at `from`.
fn id_segment(url: &str, v: &Vec<char>, from: usize) -> (r: Option<i32>)
    requires
        v@ == url@,
        from <= v.len(),
    ensures
        r == parsed_i32(segment_from(url@, from as int)),
{
    let end = find_char_from(v, '/', from);
    parse_i32(slice(url, from, end))
}

/// Reads the catalog identifier out of a link to the catalog.
pub fn extract_tmdb_id_from_url(url: &str) -> (r: Option<i32>)
    ensures
        r == tmdb_id_in_url(url@),
{
    let v = chars_of(url);
    let movie = chars_of("/movie/");
    let tv = chars_of("/tv/");
    proof {
        reveal_strlit("/movie/");
        reveal_strlit("/tv/");
    }
    assert(movie@.len() == 7 && tv@.len() == 4);
    match find_in(&v, &movie) {
        Some(p) => {
            assert(occurs_at(v@, movie@, p as int));
            assert(p + 7 <= v.len());
            id_segment(url, &v, p + 7)
        },
        None => match find_in(&v, &tv) {
            Some(p) => {
                assert(occurs_at(v@, tv@, p as int));
                assert(p + 4 <= v.len());
                id_segment(url, &v, p + 4)
            },
            None => None,
        },
    }
}

/// One grid item of a watchlist page: the values of its slug attribute and
/// of its name attribute, where it has them.
pub type GridItem = (Option<String>, Option<String>);

/// The watchlist entries of a page: one for each item that has both
/// attributes, with the year read from the name.
pub open spec fn page_entries(items: Seq<(Option<Seq<char>>, Option<Seq<char>>)>) -> Seq<
    WatchlistEntry,
>
    decreases items.len(),
{
    if items.len() == 0 {
        Seq::empty()
    } else {
        let before = page_entries(items.drop_last());
        match items.last() {
            (Some(slug), Some(name)) => before.push(
                WatchlistEntry { slug, year: year_of_title(name) },
            ),
            _ => before,
        }
    }
}

/// Makes watchlist entries of the grid items of a page.
pub fn parse_watchlist_page(items: &Vec<GridItem>) -> (r: Vec<WishlistFilm>)
    ensures
        r.deep_view() == page_entries(items.deep_view()),
{
    let mut out: Vec<WishlistFilm> = Vec::new();
    let mut i: usize = 0;
    assert(items.deep_view().take(0) =~= Seq::<(Option<Seq<char>>, Option<Seq<char>>)>::empty());
    assert(out.deep_view() =~= Seq::<WatchlistEntry>::empty());
    while i < items.len()
        invariant
            i <= items.len(),
            out.deep_view() == page_entries(items.deep_view().take(i as int)),
        decreases items.len() - i,
    {
        proof {
            assert(items.deep_view().take(i + 1).drop_last() =~= items.deep_view().take(i as int));
            assert(items.deep_view().take(i + 1).last() == items[i as int].deep_view());
        }
        match &items[i].0 {
            Some(slug) => match &items[i].1 {
                Some(name) => {
                    let ghost before = out.deep_view();
                    let year = parse_year_from_title(name.as_str());
                    out.push(WishlistFilm { letterboxd_slug: slug.clone(), year });
                    assert(out.deep_view() =~= before.push(
                        WatchlistEntry { slug: slug@, year: year_of_title(name@) },
                    ));
                },
                None => {},
            },
            None => {},
        }
        i += 1;
    }
    assert(items.deep_view().take(items.len() as int) =~= items.deep_view());
    out
}

/// What a film's page says of the film.
#[derive(Debug, PartialEq, Eq)]
pub struct LetterboxdFilmData {
    pub title: String,
    pub year: Option<i16>,
    pub tmdb_id: Option<i32>,
}

/// What was selected out of a film's page: whether it has a body, the
/// body's catalog identifier attribute, the target of its first link to the
/// catalog, and the content of its title tag.
#[derive(Debug, PartialEq, Eq)]
pub struct FilmPage {
    pub has_body: bool,
    pub tmdb_id_attribute: Option<String>,
    pub tmdb_link: Option<String>,
    pub og_title: Option<String>,
}

/// Why a film's page could not be read.
#[derive(Clone, Copy, Debug, PartialEq, Eq, Structural)]
pub enum ScrapeError {
    /// The page has no body.
    NoBody,
    /// The page has no title tag.
    NoTitle,
}

/// The catalog identifier that a film's page gives: the number in the
/// body's attribute; without one, the number in the link to the catalog.
pub open spec fn page_tmdb_id(attribute: Option<Seq<char>>, link: Option<Seq<char>>) -> Option<
    i32,
> {
    let direct = match attribute {
        Some(a) => if a.len() == 0 {
            None
        } else {
            parsed_i32(a)
        },
        None => None,
    };
    match direct {
        Some(id) => Some(id),
        None => match link {
            Some(href) => tmdb_id_in_url(href),
            None => None,
        },
    }
}

/// Reads what a film's page says of the film. Fails where the page has no
/// body, and otherwise where it has no title tag.
pub fn film_data_from_page(page: &FilmPage) -> (r: Result<LetterboxdFilmData, ScrapeError>)
    ensures
        match r {
            Ok(data) => {
                &&& page.has_body
                &&& page.og_title matches Some(t)
                &&& (data.title@, data.year) == title_and_year(t@)
                &&& data.tmdb_id == page_tmdb_id(
                    page.tmdb_id_attribute.deep_view(),
                    page.tmdb_link.deep_view(),
                )
            },
            Err(ScrapeError::NoBody) => !page.has_body,
            Err(ScrapeError::NoTitle) => page.has_body && page.og_title is None,
        },
{
    if !page.has_body {
        return Err(ScrapeError::NoBody);
    }
    let direct = match &page.tmdb_id_attribute {
        Some(a) => if a.as_str().unicode_len() == 0 {
            None
        } else {
            parse_i32(a.as_str())
        },
        None => None,
    };
    let tmdb_id = match direct {
        Some(id) => Some(id),
        None => match &page.tmdb_link {
            Some(href) => extract_tmdb_id_from_url(href.as_str()),
            None => None,
        },
    };
    match &page.og_title {
        None => Err(ScrapeError::NoTitle),
        Some(t) => {
            let (title, year) = parse_title_and_year(t.as_str());
            Ok(LetterboxdFilmData { title: title.to_owned(), year, tmdb_id })
        },
    }
}

/// Every film of the page has a year before `cutoff_year`.
pub open spec fn all_old(films: Seq<WatchlistEntry>, cutoff_year: i16) -> bool {
    forall|i: int|
        0 <= i < films.len() ==> ((#[trigger] films[i]).year matches Some(y) && y < cutoff_year)
}

/// Some film of `films` has the slug.
pub open spec fn has_slug(films: Seq<WatchlistEntry>, slug: Seq<char>) -> bool {
    exists|i: int| 0 <= i < films.len() && (#[trigger] films[i]).slug == slug
}

/// `films` followed by the films of `page` whose slug is new, in order.
pub open spec fn with_page(
    films: Seq<WatchlistEntry>,
    page: Seq<WatchlistEntry>,
) -> Seq<WatchlistEntry>
    decreases page.len(),
{
    if page.len() == 0 {
        films
    } else {
        let before = with_page(films, page.drop_last());
        if has_slug(before, page.last().slug) {
            before
        } else {
            before.push(page.last())
        }
    }
}

/// The reading of a watchlist, page by page.
#[derive(Debug)]
pub struct WatchlistScan {
    /// The films read so far, each slug once.
    pub films: Vec<WishlistFilm>,
    /// The number of the page to read next, counted from 1.
    pub page: u32,
}

/// What follows the reading of a page.
#[derive(Debug)]
pub enum ScanStep {
    /// Read the next page, after the configured delay.
    Next(WatchlistScan),
    /// The watchlist is read.
    Done(Vec<WishlistFilm>),
}

/// Whether some film of `films` has the slug.
fn slug_seen(films: &Vec<WishlistFilm>, slug: &str) -> (r: bool)
    ensures
        r == has_slug(films.deep_view(), slug@),
{
    let mut i: usize = 0;
    while i < films.len()
        invariant
            i <= films.len(),
            forall|j: int| 0 <= j < i ==> (#[trigger] films.deep_view()[j]).slug != slug@,
        decreases films.len() - i,
    {
        if same_text(films[i].letterboxd_slug.as_str(), slug) {
            assert(films.deep_view()[i as int].slug == slug@);
            return true;
        }
        i += 1;
    }
    false
}

impl WatchlistScan {
    /// Begins with the first page and no film.
    pub fn new() -> (r: WatchlistScan)
        ensures
            r.page == 1,
            r.films.len() == 0,
    {
        WatchlistScan { films: Vec::new(), page: 1 }
    }

    /// Takes the films of the page that was read. An empty page ends the
    /// reading with the films read so far. Otherwise the films with a new
    /// slug are added; the reading ends if every film of the page is older
    /// than `cutoff_year` (the watchlist is read by descending year) or the
    /// page number cannot grow, and goes on with the next page if not.
    pub fn page_fetched(self, page: &Vec<WishlistFilm>, cutoff_year: i16) -> (r: ScanStep)
        ensures
            match r {
                ScanStep::Done(films) => {
                    &&& page.len() == 0 || all_old(page.deep_view(), cutoff_year) || self.page
                        == u32::MAX
                    &&& films.deep_view() == with_page(self.films.deep_view(), page.deep_view())
                },
                ScanStep::Next(next) => {
                    &&& page.len() > 0
                    &&& !all_old(page.deep_view(), cutoff_year)
                    &&& self.page < u32::MAX
                    &&& next.page == self.page + 1
                    &&& next.films.deep_view() == with_page(
                        self.films.deep_view(),
                        page.deep_view(),
                    )
                },
            },
    {
        let mut films = self.films;
        if page.len() == 0 {
            return ScanStep::Done(films);
        }
        let mut old = true;
        let mut i: usize = 0;
        assert(page.deep_view().take(0) =~= Seq::<WatchlistEntry>::empty());
        while i < page.len()
            invariant
                i <= page.len(),
                old == all_old(page.deep_view().take(i as int), cutoff_year),
                films.deep_view() == with_page(
                    self.films.deep_view(),
                    page.deep_view().take(i as int),
                ),
            decreases page.len() - i,
        {
            proof {
                let next = page.deep_view().take(i + 1);
                assert(next.drop_last() =~= page.deep_view().take(i as int));
                assert(next.last() == page[i as int].deep_view());
                assert(all_old(next, cutoff_year) <==> all_old(next.drop_last(), cutoff_year) && (
                next.last().year matches Some(y) && y < cutoff_year)) by {
                    if all_old(next, cutoff_year) {
                        assert forall|j: int| 0 <= j < i implies (#[trigger] next.drop_last()[j]).year
                            matches Some(y) && y < cutoff_year by {
                            assert(next.drop_last()[j] == next[j]);
                        }
                        assert(next[i as int] == next.last());
                    }
                    if all_old(next.drop_last(), cutoff_year) && (next.last().year matches Some(y)
                        && y < cutoff_year) {
                        assert forall|j: int| 0 <= j < next.len() implies (#[trigger] next[j]).year
                            matches Some(y) && y < cutoff_year by {
                            if j < i {
                                assert(next.drop_last()[j] == next[j]);
                            }
                        }
                    }
                }
            }
            let is_old = match page[i].year {
                Some(y) => y < cutoff_year,
                None => false,
            };
            old = old && is_old;
            if !slug_seen(&films, page[i].letterboxd_slug.as_str()) {
                let ghost before = films.deep_view();
                films.push(page[i].clone());
                assert(films.deep_view() =~= before.push(page[i as int].deep_view()));
            }
            i += 1;
        }
        assert(page.deep_view().take(page.len() as int) =~= page.deep_view());
        if old || self.page == u32::MAX {
            ScanStep::Done(films)
        } else {
            ScanStep::Next(WatchlistScan { films, page: self.page + 1 })
        }
    }
}

} // verus!
