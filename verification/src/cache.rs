//! The freshness cache: film identities, release sets and watch offers,
//! each kept with the time of writing and handed out only while fresh.
//!
//! [`CacheManager`] holds the three tables as plain rows and answers bulk
//! reads and writes against them. Time never comes from a clock here: every
//! operation takes the current time in seconds as `now`. A durable store
//! keeps the same rows; what it must delete and insert for a write is what
//! the write functions of this module compute.

use crate::date::CivilDate;
use crate::cache_laws::{
    distinct_metas, distinct_offers, distinct_pairs, distinct_provider_rows, distinct_slugs,
    lemma_metas_after_put_distinct, lemma_read_providers_distinct, lemma_read_releases_distinct,
    lemma_providers_after_put_distinct, lemma_with_films_distinct, lemma_with_meta_distinct,
};
use crate::fallback::{find_known, known_entry, KnownReleases, ReleaseCacheEntry};
use crate::models::{
    clone_releases, clone_text, CountryReleaseSet, CountryReleases, ProviderOffer, ProviderType, ReleaseDate,
    ReleaseEntry, ReleaseType, WatchProvider,
};
use crate::order::{ordered, stable_sort};
use crate::releases::{by_date, contains_entry, sort_by_date};
use crate::text::{contains, has_substring, same_text};
use vstd::prelude::*;

verus! {

pub const SECONDS_PER_DAY: i64 = 86_400;

pub const SECONDS_PER_HOUR: i64 = 3_600;

/// `a * b`, held within the range of `i64`.
pub open spec fn saturating_product(a: int, b: int) -> int {
    if a * b > i64::MAX {
        i64::MAX as int
    } else if a * b < i64::MIN {
        i64::MIN as int
    } else {
        a * b
    }
}

/// The age of a record at `now`: the seconds since it was written.
pub open spec fn age(now: i64, cached_at: i64) -> int {
    now - cached_at
}

/// A record written at `cached_at` is still fresh at `now`: its age is not
/// greater than the time to live.
pub open spec fn fresh(now: i64, cached_at: i64, ttl: i64) -> bool {
    age(now, cached_at) <= ttl
}

/// Whether a record written at `cached_at` is still fresh at `now`.
pub fn is_fresh(now: i64, cached_at: i64, ttl: i64) -> (r: bool)
    ensures
        r == fresh(now, cached_at, ttl),
{
    let diff: i128 = now as i128 - cached_at as i128;
    diff <= ttl as i128
}

/// A number of units as seconds, held within the range of `i64`.
fn ttl_seconds(units: i64, seconds_per_unit: i64) -> (r: i64)
    requires
        0 < seconds_per_unit <= SECONDS_PER_DAY,
    ensures
        r == saturating_product(units as int, seconds_per_unit as int),
{
    assert(-0x8000_0000_0000_0000 * 86_400 <= units * seconds_per_unit <= 0x8000_0000_0000_0000
        * 86_400) by (nonlinear_arith)
        requires
            -0x8000_0000_0000_0000 <= units < 0x8000_0000_0000_0000,
            0 < seconds_per_unit <= 86_400,
    {
    }
    let wide: i128 = units as i128 * seconds_per_unit as i128;
    if wide > i64::MAX as i128 {
        i64::MAX
    } else if wide < i64::MIN as i128 {
        i64::MIN
    } else {
        wide as i64
    }
}

/// The identity of a film as resolved: its watchlist slug and, where known,
/// its catalog identifier, with title, year and poster.
#[derive(Debug, PartialEq, Eq)]
pub struct FilmCacheData {
    pub slug: String,
    pub tmdb_id: Option<i32>,
    pub title: String,
    pub year: Option<i16>,
    pub poster_path: Option<String>,
}

/// What a [`FilmCacheData`] is.
pub struct FilmIdentity {
    pub slug: Seq<char>,
    pub tmdb_id: Option<i32>,
    pub title: Seq<char>,
    pub year: Option<i16>,
    pub poster_path: Option<Seq<char>>,
}

impl DeepView for FilmCacheData {
    type V = FilmIdentity;

    open spec fn deep_view(&self) -> FilmIdentity {
        FilmIdentity {
            slug: self.slug@,
            tmdb_id: self.tmdb_id,
            title: self.title@,
            year: self.year,
            poster_path: self.poster_path.deep_view(),
        }
    }
}

impl Clone for FilmCacheData {
    fn clone(&self) -> (r: Self)
        ensures
            r == *self,
    {
        FilmCacheData {
            slug: self.slug.clone(),
            tmdb_id: self.tmdb_id,
            title: self.title.clone(),
            year: self.year,
            poster_path: clone_text(&self.poster_path),
        }
    }
}

/// A stored film identity.
#[derive(Debug, PartialEq, Eq)]
pub struct FilmRow {
    pub letterboxd_slug: String,
    pub tmdb_id: Option<i32>,
    pub title: String,
    pub year: Option<i32>,
    pub poster_path: Option<String>,
    pub updated_at: i64,
}

/// What a [`FilmRow`] is.
pub struct StoredFilm {
    pub slug: Seq<char>,
    pub tmdb_id: Option<i32>,
    pub title: Seq<char>,
    pub year: Option<i32>,
    pub poster_path: Option<Seq<char>>,
    pub updated_at: i64,
}

impl DeepView for FilmRow {
    type V = StoredFilm;

    open spec fn deep_view(&self) -> StoredFilm {
        StoredFilm {
            slug: self.letterboxd_slug@,
            tmdb_id: self.tmdb_id,
            title: self.title@,
            year: self.year,
            poster_path: self.poster_path.deep_view(),
            updated_at: self.updated_at,
        }
    }
}

impl Clone for FilmRow {
    fn clone(&self) -> (r: Self)
        ensures
            r == *self,
    {
        FilmRow {
            letterboxd_slug: self.letterboxd_slug.clone(),
            tmdb_id: self.tmdb_id,
            title: self.title.clone(),
            year: self.year,
            poster_path: clone_text(&self.poster_path),
            updated_at: self.updated_at,
        }
    }
}

/// The row that stores an identity written at `now`.
pub open spec fn stored_film(f: FilmIdentity, now: i64) -> StoredFilm {
    StoredFilm {
        slug: f.slug,
        tmdb_id: f.tmdb_id,
        title: f.title,
        year: match f.year {
            Some(y) => Some(y as i32),
            None => None,
        },
        poster_path: f.poster_path,
        updated_at: now,
    }
}

/// Some row of `rows` is for `slug`.
pub open spec fn has_film(rows: Seq<StoredFilm>, slug: Seq<char>) -> bool {
    exists|i: int| 0 <= i < rows.len() && (#[trigger] rows[i]).slug == slug
}

/// The first row of `rows` for `slug`, if any.
pub open spec fn film_entry(rows: Seq<StoredFilm>, slug: Seq<char>) -> Option<StoredFilm>
    decreases rows.len(),
{
    if rows.len() == 0 {
        None
    } else if rows[0].slug == slug {
        Some(rows[0])
    } else {
        film_entry(rows.drop_first(), slug)
    }
}

/// `rows` with `row` in place of every row of the same slug, or behind all
/// rows where there is none.
pub open spec fn with_film(rows: Seq<StoredFilm>, row: StoredFilm) -> Seq<StoredFilm> {
    if has_film(rows, row.slug) {
        Seq::new(
            rows.len(),
            |i: int|
                if rows[i].slug == row.slug {
                    row
                } else {
                    rows[i]
                },
        )
    } else {
        rows.push(row)
    }
}

/// `rows` after the identities of `films` were written at `now`, in order.
pub open spec fn with_films(rows: Seq<StoredFilm>, films: Seq<FilmIdentity>, now: i64) -> Seq<
    StoredFilm,
>
    decreases films.len(),
{
    if films.len() == 0 {
        rows
    } else {
        with_film(with_films(rows, films.drop_last(), now), stored_film(films.last(), now))
    }
}

/// The rows of `rows` that are asked for by `slugs` and fresh at `now`.
pub open spec fn fresh_films(rows: Seq<StoredFilm>, slugs: Seq<Seq<char>>, now: i64, ttl: i64)
    -> Seq<StoredFilm>
    decreases rows.len(),
{
    if rows.len() == 0 {
        Seq::empty()
    } else if slugs.contains(rows.last().slug) && fresh(now, rows.last().updated_at, ttl) {
        fresh_films(rows.drop_last(), slugs, now, ttl).push(rows.last())
    } else {
        fresh_films(rows.drop_last(), slugs, now, ttl)
    }
}

/// Whether `texts` holds `t`.
pub fn holds_text(texts: &Vec<String>, t: &str) -> (r: bool)
    ensures
        r == texts.deep_view().contains(t@),
{
    let mut i: usize = 0;
    while i < texts.len()
        invariant
            i <= texts.len(),
            forall|j: int| 0 <= j < i ==> texts.deep_view()[j] != t@,
        decreases texts.len() - i,
    {
        if same_text(texts[i].as_str(), t) {
            assert(texts.deep_view()[i as int] == t@);
            return true;
        }
        i += 1;
    }
    false
}

/// The position of the first row for `slug`.
pub fn find_film(rows: &Vec<FilmRow>, slug: &str) -> (r: Option<usize>)
    ensures
        match r {
            Some(i) => i < rows.len() && film_entry(rows.deep_view(), slug@) == Some(
                rows[i as int].deep_view(),
            ) && rows[i as int].letterboxd_slug@ == slug@,
            None => film_entry(rows.deep_view(), slug@) is None && !has_film(
                rows.deep_view(),
                slug@,
            ),
        },
{
    let mut i: usize = 0;
    assert(rows.deep_view().skip(0) =~= rows.deep_view());
    while i < rows.len()
        invariant
            i <= rows.len(),
            film_entry(rows.deep_view(), slug@) == film_entry(
                rows.deep_view().skip(i as int),
                slug@,
            ),
            forall|j: int| 0 <= j < i ==> (#[trigger] rows.deep_view()[j]).slug != slug@,
        decreases rows.len() - i,
    {
        proof {
            assert(rows.deep_view().skip(i as int).drop_first() =~= rows.deep_view().skip(i + 1));
            assert(rows.deep_view().skip(i as int)[0] == rows[i as int].deep_view());
        }
        if same_text(rows[i].letterboxd_slug.as_str(), slug) {
            return Some(i);
        }
        i += 1;
    }
    None
}

/// The rows that are asked for by `slugs` and fresh at `now`.
pub fn select_fresh_films(rows: &Vec<FilmRow>, slugs: &Vec<String>, now: i64, ttl: i64) -> (r: Vec<
    FilmRow,
>)
    ensures
        r.deep_view() == fresh_films(rows.deep_view(), slugs.deep_view(), now, ttl),
{
    let mut out: Vec<FilmRow> = Vec::new();
    let mut i: usize = 0;
    assert(rows.deep_view().take(0) =~= Seq::<StoredFilm>::empty());
    while i < rows.len()
        invariant
            i <= rows.len(),
            out.deep_view() == fresh_films(
                rows.deep_view().take(i as int),
                slugs.deep_view(),
                now,
                ttl,
            ),
        decreases rows.len() - i,
    {
        proof {
            assert(rows.deep_view().take(i + 1).drop_last() =~= rows.deep_view().take(i as int));
            assert(rows.deep_view().take(i + 1).last() == rows[i as int].deep_view());
        }
        if holds_text(slugs, rows[i].letterboxd_slug.as_str()) && is_fresh(
            now,
            rows[i].updated_at,
            ttl,
        ) {
            let ghost before = out.deep_view();
            out.push(rows[i].clone());
            assert(out.deep_view() =~= before.push(rows[i as int].deep_view()));
        }
        i += 1;
    }
    assert(rows.deep_view().take(rows.len() as int) =~= rows.deep_view());
    out
}

/// The row that stores `film` written at `now`.
pub fn film_row(film: &FilmCacheData, now: i64) -> (r: FilmRow)
    ensures
        r.deep_view() == stored_film(film.deep_view(), now),
{
    FilmRow {
        letterboxd_slug: film.slug.clone(),
        tmdb_id: film.tmdb_id,
        title: film.title.clone(),
        year: match film.year {
            Some(y) => Some(y as i32),
            None => None,
        },
        poster_path: clone_text(&film.poster_path),
        updated_at: now,
    }
}

/// Writes `row` over every row of its slug, or appends it.
pub fn upsert_film_row(rows: &mut Vec<FilmRow>, row: FilmRow)
    ensures
        final(rows).deep_view() == with_film(old(rows).deep_view(), row.deep_view()),
{
    let mut found = false;
    let mut i: usize = 0;
    while i < rows.len()
        invariant
            i <= rows.len(),
            rows.len() == old(rows).len(),
            found == exists|j: int|
                0 <= j < i && (#[trigger] old(rows).deep_view()[j]).slug == row.deep_view().slug,
            forall|j: int|
                0 <= j < i ==> #[trigger] rows.deep_view()[j] == if old(rows).deep_view()[j].slug
                    == row.deep_view().slug {
                    row.deep_view()
                } else {
                    old(rows).deep_view()[j]
                },
            forall|j: int| i <= j < rows.len() ==> #[trigger] rows.deep_view()[j] == old(
                rows,
            ).deep_view()[j],
        decreases rows.len() - i,
    {
        assert(rows.deep_view()[i as int] == old(rows).deep_view()[i as int]);
        if same_text(rows[i].letterboxd_slug.as_str(), row.letterboxd_slug.as_str()) {
            let ghost before = rows.deep_view();
            rows.set(i, row.clone());
            assert forall|j: int| 0 <= j < rows.len() && j != i implies #[trigger] rows.deep_view()[j]
                == before[j] by {}
            found = true;
        }
        i += 1;
    }
    if !found {
        let ghost before = rows.deep_view();
        assert(before =~= old(rows).deep_view());
        rows.push(row);
        assert(rows.deep_view() =~= before.push(row.deep_view()));
    } else {
        assert(rows.deep_view() =~= with_film(old(rows).deep_view(), row.deep_view()));
    }
}

/// A stored release entry of one film in one country.
#[derive(Debug, PartialEq, Eq)]
pub struct ReleaseRow {
    pub tmdb_id: i32,
    pub country: String,
    pub release_date: CivilDate,
    pub release_type: i32,
    pub note: Option<String>,
    pub cached_at: i64,
}

/// What a [`ReleaseRow`] is.
pub struct StoredRelease {
    pub tmdb_id: i32,
    pub country: Seq<char>,
    pub release_date: CivilDate,
    pub release_type: i32,
    pub note: Option<Seq<char>>,
    pub cached_at: i64,
}

impl DeepView for ReleaseRow {
    type V = StoredRelease;

    open spec fn deep_view(&self) -> StoredRelease {
        StoredRelease {
            tmdb_id: self.tmdb_id,
            country: self.country@,
            release_date: self.release_date,
            release_type: self.release_type,
            note: self.note.deep_view(),
            cached_at: self.cached_at,
        }
    }
}

impl Clone for ReleaseRow {
    fn clone(&self) -> (r: Self)
        ensures
            r == *self,
    {
        ReleaseRow {
            tmdb_id: self.tmdb_id,
            country: self.country.clone(),
            release_date: self.release_date,
            release_type: self.release_type,
            note: clone_text(&self.note),
            cached_at: self.cached_at,
        }
    }
}

/// The freshness marker of one film in one country.
#[derive(Debug, PartialEq, Eq)]
pub struct CacheMetaRow {
    pub tmdb_id: i32,
    pub country: String,
    pub cached_at: i64,
}

/// What a [`CacheMetaRow`] is.
pub struct StoredMeta {
    pub tmdb_id: i32,
    pub country: Seq<char>,
    pub cached_at: i64,
}

impl DeepView for CacheMetaRow {
    type V = StoredMeta;

    open spec fn deep_view(&self) -> StoredMeta {
        StoredMeta { tmdb_id: self.tmdb_id, country: self.country@, cached_at: self.cached_at }
    }
}

/// Some marker of `metas` is for the film and the country.
pub open spec fn has_meta(metas: Seq<StoredMeta>, tmdb_id: i32, country: Seq<char>) -> bool {
    exists|i: int|
        0 <= i < metas.len() && (#[trigger] metas[i]).tmdb_id == tmdb_id && metas[i].country
            == country
}

/// Some marker of `metas` for the film and the country is fresh at `now`.
pub open spec fn has_fresh_meta(
    metas: Seq<StoredMeta>,
    tmdb_id: i32,
    country: Seq<char>,
    now: i64,
    ttl: i64,
) -> bool {
    exists|i: int|
        0 <= i < metas.len() && (#[trigger] metas[i]).tmdb_id == tmdb_id && metas[i].country
            == country && fresh(now, metas[i].cached_at, ttl)
}

/// `metas` with every marker of the film and the country set to `now`, or
/// with such a marker behind all where there was none.
pub open spec fn with_meta(metas: Seq<StoredMeta>, tmdb_id: i32, country: Seq<char>, now: i64)
    -> Seq<StoredMeta> {
    if has_meta(metas, tmdb_id, country) {
        Seq::new(
            metas.len(),
            |i: int|
                if metas[i].tmdb_id == tmdb_id && metas[i].country == country {
                    StoredMeta { tmdb_id, country, cached_at: now }
                } else {
                    metas[i]
                },
        )
    } else {
        metas.push(StoredMeta { tmdb_id, country, cached_at: now })
    }
}

/// The release entry that a row stores, if its kind is known.
pub open spec fn row_entry(row: StoredRelease) -> Option<ReleaseEntry> {
    match ReleaseType::of_code(row.release_type as int) {
        Some(kind) => Some(ReleaseEntry { date: row.release_date, kind, note: row.note }),
        None => None,
    }
}

/// The entries of one kind that `rows` store for the film and the country,
/// in the order of the rows.
pub open spec fn row_entries(
    rows: Seq<StoredRelease>,
    tmdb_id: i32,
    country: Seq<char>,
    kind: ReleaseType,
) -> Seq<ReleaseEntry>
    decreases rows.len(),
{
    if rows.len() == 0 {
        Seq::empty()
    } else {
        let before = row_entries(rows.drop_last(), tmdb_id, country, kind);
        let row = rows.last();
        if row.tmdb_id == tmdb_id && row.country == country && ReleaseType::of_code(
            row.release_type as int,
        ) == Some(kind) {
            before.push(row_entry(row)->0)
        } else {
            before
        }
    }
}

/// The release set that `rows` store for the film and the country: the
/// entries of each kind, sorted by date.
pub open spec fn stored_set(rows: Seq<StoredRelease>, tmdb_id: i32, country: Seq<char>)
    -> CountryReleaseSet {
    CountryReleaseSet {
        country,
        theatrical: stable_sort(
            row_entries(rows, tmdb_id, country, ReleaseType::Theatrical),
            by_date(),
        ),
        streaming: stable_sort(row_entries(rows, tmdb_id, country, ReleaseType::Digital), by_date()),
    }
}

/// What a bulk read of release sets gives: for each marker that is fresh and
/// asked for, in the order of the markers and once per film and country, the
/// set that the rows store.
pub open spec fn read_releases(
    metas: Seq<StoredMeta>,
    rows: Seq<StoredRelease>,
    requests: Seq<(i32, Seq<char>)>,
    now: i64,
    ttl: i64,
) -> Seq<KnownReleases>
    decreases metas.len(),
{
    if metas.len() == 0 {
        Seq::empty()
    } else {
        let before = read_releases(metas.drop_last(), rows, requests, now, ttl);
        let m = metas.last();
        if fresh(now, m.cached_at, ttl) && requests.contains((m.tmdb_id, m.country)) && known_entry(
            before,
            m.tmdb_id,
            m.country,
        ) is None {
            before.push(
                KnownReleases {
                    tmdb_id: m.tmdb_id,
                    releases: stored_set(rows, m.tmdb_id, m.country),
                },
            )
        } else {
            before
        }
    }
}

/// The entry carries the marker of synthetic data.
pub open spec fn is_mock(e: ReleaseEntry) -> bool {
    e.note matches Some(n) && has_substring(n, "Mock"@)
}

/// The entries of `list` that get stored: those that are not synthetic and
/// do not repeat an earlier stored one, in their order.
pub open spec fn storable(list: Seq<ReleaseEntry>) -> Seq<ReleaseEntry>
    decreases list.len(),
{
    if list.len() == 0 {
        Seq::empty()
    } else {
        let before = storable(list.drop_last());
        if is_mock(list.last()) || before.contains(list.last()) {
            before
        } else {
            before.push(list.last())
        }
    }
}

/// The row that stores `e` for the film and the country.
pub open spec fn stored_release(tmdb_id: i32, country: Seq<char>, e: ReleaseEntry, now: i64)
    -> StoredRelease {
    StoredRelease {
        tmdb_id,
        country,
        release_date: e.date,
        release_type: e.kind.code() as i32,
        note: e.note,
        cached_at: now,
    }
}

/// The rows that store a release set written at `now`: one for each
/// storable entry of its theatrical list followed by its streaming list.
pub open spec fn set_rows(tmdb_id: i32, set: CountryReleaseSet, now: i64) -> Seq<StoredRelease> {
    entry_rows(tmdb_id, set.country, storable(set.theatrical + set.streaming), now)
}

/// One row for each of `entries`, in order.
pub open spec fn entry_rows(tmdb_id: i32, country: Seq<char>, entries: Seq<ReleaseEntry>, now: i64)
    -> Seq<StoredRelease> {
    Seq::new(entries.len(), |i: int| stored_release(tmdb_id, country, entries[i], now))
}

/// The rows that store the release sets of a film, set after set.
pub open spec fn sets_rows(tmdb_id: i32, sets: Seq<CountryReleaseSet>, now: i64) -> Seq<
    StoredRelease,
>
    decreases sets.len(),
{
    if sets.len() == 0 {
        Seq::empty()
    } else {
        sets_rows(tmdb_id, sets.drop_last(), now) + set_rows(tmdb_id, sets.last(), now)
    }
}

/// Some set of `sets` is for `country`.
pub open spec fn names_country(sets: Seq<CountryReleaseSet>, country: Seq<char>) -> bool {
    exists|i: int| 0 <= i < sets.len() && (#[trigger] sets[i]).country == country
}

/// The rows of `rows` that a write of `sets` for the film leaves in place:
/// those of other films and of countries that `sets` does not name.
pub open spec fn rows_kept(rows: Seq<StoredRelease>, tmdb_id: i32, sets: Seq<CountryReleaseSet>)
    -> Seq<StoredRelease>
    decreases rows.len(),
{
    if rows.len() == 0 {
        Seq::empty()
    } else if rows.last().tmdb_id == tmdb_id && names_country(sets, rows.last().country) {
        rows_kept(rows.drop_last(), tmdb_id, sets)
    } else {
        rows_kept(rows.drop_last(), tmdb_id, sets).push(rows.last())
    }
}

/// The release rows after a write: the rows of the written countries are
/// gone, and the new rows stand behind the others.
pub open spec fn rows_after_put(
    rows: Seq<StoredRelease>,
    tmdb_id: i32,
    sets: Seq<CountryReleaseSet>,
    now: i64,
) -> Seq<StoredRelease> {
    rows_kept(rows, tmdb_id, sets) + sets_rows(tmdb_id, sets, now)
}

/// The markers after a write: each written country's marker is set to `now`.
pub open spec fn metas_after_put(
    metas: Seq<StoredMeta>,
    tmdb_id: i32,
    sets: Seq<CountryReleaseSet>,
    now: i64,
) -> Seq<StoredMeta>
    decreases sets.len(),
{
    if sets.len() == 0 {
        metas
    } else {
        with_meta(
            metas_after_put(metas, tmdb_id, sets.drop_last(), now),
            tmdb_id,
            sets.last().country,
            now,
        )
    }
}

/// The rows of `rows` whose note does not carry the marker of synthetic
/// data.
pub open spec fn rows_without_mock(rows: Seq<StoredRelease>) -> Seq<StoredRelease>
    decreases rows.len(),
{
    if rows.len() == 0 {
        Seq::empty()
    } else if rows.last().note matches Some(n) && has_substring(n, "Mock"@) {
        rows_without_mock(rows.drop_last())
    } else {
        rows_without_mock(rows.drop_last()).push(rows.last())
    }
}

/// Whether some marker of `metas` is for the film and the country.
pub fn meta_exists(metas: &Vec<CacheMetaRow>, tmdb_id: i32, country: &str) -> (r: bool)
    ensures
        r == has_meta(metas.deep_view(), tmdb_id, country@),
{
    let mut i: usize = 0;
    while i < metas.len()
        invariant
            i <= metas.len(),
            forall|j: int|
                0 <= j < i ==> !((#[trigger] metas.deep_view()[j]).tmdb_id == tmdb_id
                    && metas.deep_view()[j].country == country@),
        decreases metas.len() - i,
    {
        if metas[i].tmdb_id == tmdb_id && same_text(metas[i].country.as_str(), country) {
            assert(metas.deep_view()[i as int].tmdb_id == tmdb_id);
            return true;
        }
        i += 1;
    }
    false
}

/// Sets every marker of the film and the country to `now`, or appends one.
pub fn upsert_meta(metas: &mut Vec<CacheMetaRow>, tmdb_id: i32, country: &str, now: i64)
    ensures
        final(metas).deep_view() == with_meta(old(metas).deep_view(), tmdb_id, country@, now),
{
    if !meta_exists(metas, tmdb_id, country) {
        let ghost before = metas.deep_view();
        metas.push(CacheMetaRow { tmdb_id, country: country.to_owned(), cached_at: now });
        assert(metas.deep_view() =~= before.push(
            StoredMeta { tmdb_id, country: country@, cached_at: now },
        ));
        return ;
    }
    let mut i: usize = 0;
    while i < metas.len()
        invariant
            i <= metas.len(),
            metas.len() == old(metas).len(),
            forall|j: int|
                0 <= j < i ==> #[trigger] metas.deep_view()[j] == if old(
                    metas,
                ).deep_view()[j].tmdb_id == tmdb_id && old(metas).deep_view()[j].country
                    == country@ {
                    StoredMeta { tmdb_id, country: country@, cached_at: now }
                } else {
                    old(metas).deep_view()[j]
                },
            forall|j: int| i <= j < metas.len() ==> #[trigger] metas.deep_view()[j] == old(
                metas,
            ).deep_view()[j],
        decreases metas.len() - i,
    {
        assert(metas.deep_view()[i as int] == old(metas).deep_view()[i as int]);
        if metas[i].tmdb_id == tmdb_id && same_text(metas[i].country.as_str(), country) {
            let ghost before = metas.deep_view();
            metas.set(i, CacheMetaRow { tmdb_id, country: country.to_owned(), cached_at: now });
            assert forall|j: int| 0 <= j < metas.len() && j != i implies #[trigger] metas.deep_view()[j]
                == before[j] by {}
        }
        i += 1;
    }
    assert(metas.deep_view() =~= with_meta(old(metas).deep_view(), tmdb_id, country@, now));
}

/// Whether `requests` asks for the film and the country.
pub fn is_requested(requests: &Vec<(i32, String)>, tmdb_id: i32, country: &str) -> (r: bool)
    ensures
        r == requests.deep_view().contains((tmdb_id, country@)),
{
    let mut i: usize = 0;
    while i < requests.len()
        invariant
            i <= requests.len(),
            forall|j: int| 0 <= j < i ==> requests.deep_view()[j] != (tmdb_id, country@),
        decreases requests.len() - i,
    {
        if requests[i].0 == tmdb_id && same_text(requests[i].1.as_str(), country) {
            assert(requests.deep_view()[i as int] == (tmdb_id, country@));
            return true;
        }
        i += 1;
    }
    false
}

/// The entries of one kind that `rows` store for the film and the country.
pub fn entries_of_rows(rows: &Vec<ReleaseRow>, tmdb_id: i32, country: &str, kind: ReleaseType)
    -> (r: Vec<ReleaseDate>)
    ensures
        r.deep_view() == row_entries(rows.deep_view(), tmdb_id, country@, kind),
{
    let mut out: Vec<ReleaseDate> = Vec::new();
    let mut i: usize = 0;
    assert(rows.deep_view().take(0) =~= Seq::<StoredRelease>::empty());
    while i < rows.len()
        invariant
            i <= rows.len(),
            out.deep_view() == row_entries(rows.deep_view().take(i as int), tmdb_id, country@, kind),
        decreases rows.len() - i,
    {
        proof {
            assert(rows.deep_view().take(i + 1).drop_last() =~= rows.deep_view().take(i as int));
            assert(rows.deep_view().take(i + 1).last() == rows[i as int].deep_view());
        }
        let row = &rows[i];
        if row.tmdb_id == tmdb_id && same_text(row.country.as_str(), country) {
            match ReleaseType::from_tmdb_code(row.release_type) {
                Some(k) => {
                    if k == kind {
                        let ghost before = out.deep_view();
                        out.push(
                            ReleaseDate {
                                date: row.release_date,
                                release_type: k,
                                note: clone_text(&row.note),
                            },
                        );
                        assert(out.deep_view() =~= before.push(row_entry(row.deep_view())->0));
                    }
                },
                None => {},
            }
        }
        i += 1;
    }
    assert(rows.deep_view().take(rows.len() as int) =~= rows.deep_view());
    out
}

/// The release set that `rows` store for the film and the country.
pub fn read_set(rows: &Vec<ReleaseRow>, tmdb_id: i32, country: &str) -> (r: CountryReleases)
    ensures
        r.deep_view() == stored_set(rows.deep_view(), tmdb_id, country@),
        ordered(r.deep_view().theatrical, by_date()),
        ordered(r.deep_view().streaming, by_date()),
{
    let theatrical = sort_by_date(&entries_of_rows(rows, tmdb_id, country, ReleaseType::Theatrical));
    let streaming = sort_by_date(&entries_of_rows(rows, tmdb_id, country, ReleaseType::Digital));
    CountryReleases { country: country.to_owned(), theatrical, streaming }
}

/// Answers a bulk read of release sets from the markers and the rows.
pub fn read_release_sets(
    metas: &Vec<CacheMetaRow>,
    rows: &Vec<ReleaseRow>,
    requests: &Vec<(i32, String)>,
    now: i64,
    ttl: i64,
) -> (r: Vec<ReleaseCacheEntry>)
    ensures
        r.deep_view() == read_releases(
            metas.deep_view(),
            rows.deep_view(),
            requests.deep_view(),
            now,
            ttl,
        ),
        distinct_pairs(r.deep_view()),
{
    proof {
        lemma_read_releases_distinct(
            metas.deep_view(),
            rows.deep_view(),
            requests.deep_view(),
            now,
            ttl,
        );
    }
    let mut out: Vec<ReleaseCacheEntry> = Vec::new();
    let mut i: usize = 0;
    assert(metas.deep_view().take(0) =~= Seq::<StoredMeta>::empty());
    while i < metas.len()
        invariant
            i <= metas.len(),
            out.deep_view() == read_releases(
                metas.deep_view().take(i as int),
                rows.deep_view(),
                requests.deep_view(),
                now,
                ttl,
            ),
        decreases metas.len() - i,
    {
        proof {
            assert(metas.deep_view().take(i + 1).drop_last() =~= metas.deep_view().take(i as int));
            assert(metas.deep_view().take(i + 1).last() == metas[i as int].deep_view());
        }
        let m = &metas[i];
        if is_fresh(now, m.cached_at, ttl) && is_requested(requests, m.tmdb_id, m.country.as_str())
            && find_known(&out, m.tmdb_id, m.country.as_str()).is_none() {
            let ghost before = out.deep_view();
            let releases = read_set(rows, m.tmdb_id, m.country.as_str());
            out.push(ReleaseCacheEntry { tmdb_id: m.tmdb_id, releases });
            assert(out.deep_view() =~= before.push(
                KnownReleases {
                    tmdb_id: m.tmdb_id,
                    releases: stored_set(rows.deep_view(), m.tmdb_id, m.country@),
                },
            ));
        }
        i += 1;
    }
    assert(metas.deep_view().take(metas.len() as int) =~= metas.deep_view());
    out
}

/// Whether the entry carries the marker of synthetic data.
pub fn is_mock_entry(e: &ReleaseDate) -> (r: bool)
    ensures
        r == is_mock(e.deep_view()),
{
    match &e.note {
        Some(n) => contains(n.as_str(), "Mock"),
        None => false,
    }
}

/// Appends to `out` the storable entries of `list`, given that `out` holds
/// the storable entries of what came before.
fn push_storable(out: &mut Vec<ReleaseDate>, list: &Vec<ReleaseDate>, Ghost(prefix): Ghost<
    Seq<ReleaseEntry>,
>)
    requires
        old(out).deep_view() == storable(prefix),
    ensures
        final(out).deep_view() == storable(prefix + list.deep_view()),
{
    let mut i: usize = 0;
    assert(prefix + list.deep_view().take(0) =~= prefix);
    while i < list.len()
        invariant
            i <= list.len(),
            out.deep_view() == storable(prefix + list.deep_view().take(i as int)),
        decreases list.len() - i,
    {
        proof {
            let next = prefix + list.deep_view().take(i + 1);
            assert(next.drop_last() =~= prefix + list.deep_view().take(i as int));
            assert(next.last() == list[i as int].deep_view());
        }
        if !is_mock_entry(&list[i]) && !contains_entry(out, &list[i]) {
            let ghost before = out.deep_view();
            out.push(list[i].clone());
            assert(out.deep_view() =~= before.push(list[i as int].deep_view()));
        }
        i += 1;
    }
    assert(list.deep_view().take(list.len() as int) =~= list.deep_view());
}

/// The rows that store a release set written at `now`.
pub fn release_rows_of_set(tmdb_id: i32, set: &CountryReleases, now: i64) -> (r: Vec<ReleaseRow>)
    ensures
        r.deep_view() == set_rows(tmdb_id, set.deep_view(), now),
{
    let mut entries: Vec<ReleaseDate> = Vec::new();
    assert(entries.deep_view() =~= storable(Seq::<ReleaseEntry>::empty()));
    push_storable(&mut entries, &set.theatrical, Ghost(Seq::empty()));
    assert(Seq::<ReleaseEntry>::empty() + set.theatrical.deep_view() =~= set.theatrical.deep_view());
    push_storable(&mut entries, &set.streaming, Ghost(set.theatrical.deep_view()));
    let mut out: Vec<ReleaseRow> = Vec::new();
    let mut i: usize = 0;
    while i < entries.len()
        invariant
            i <= entries.len(),
            out.len() == i,
            entries.deep_view() == storable(set.deep_view().theatrical + set.deep_view().streaming),
            forall|j: int|
                0 <= j < i ==> #[trigger] out.deep_view()[j] == stored_release(
                    tmdb_id,
                    set.country@,
                    entries.deep_view()[j],
                    now,
                ),
        decreases entries.len() - i,
    {
        let e = &entries[i];
        let ghost before = out.deep_view();
        out.push(
            ReleaseRow {
                tmdb_id,
                country: set.country.clone(),
                release_date: e.date,
                release_type: e.release_type.as_tmdb_code(),
                note: clone_text(&e.note),
                cached_at: now,
            },
        );
        assert(out.deep_view() =~= before.push(
            stored_release(tmdb_id, set.country@, e.deep_view(), now),
        ));
        i += 1;
    }
    assert(out.deep_view() =~= set_rows(tmdb_id, set.deep_view(), now));
    out
}

/// The rows that store the release sets of a film written at `now`.
pub fn release_rows(tmdb_id: i32, sets: &Vec<CountryReleases>, now: i64) -> (r: Vec<ReleaseRow>)
    ensures
        r.deep_view() == sets_rows(tmdb_id, sets.deep_view(), now),
{
    let mut out: Vec<ReleaseRow> = Vec::new();
    let mut i: usize = 0;
    assert(sets.deep_view().take(0) =~= Seq::<CountryReleaseSet>::empty());
    assert(out.deep_view() =~= Seq::<StoredRelease>::empty());
    while i < sets.len()
        invariant
            i <= sets.len(),
            out.deep_view() == sets_rows(tmdb_id, sets.deep_view().take(i as int), now),
        decreases sets.len() - i,
    {
        proof {
            assert(sets.deep_view().take(i + 1).drop_last() =~= sets.deep_view().take(i as int));
            assert(sets.deep_view().take(i + 1).last() == sets[i as int].deep_view());
        }
        let mut rows = release_rows_of_set(tmdb_id, &sets[i], now);
        let ghost before = out.deep_view();
        let ghost added = rows.deep_view();
        out.append(&mut rows);
        assert(out.deep_view() =~= before + added);
        i += 1;
    }
    assert(sets.deep_view().take(sets.len() as int) =~= sets.deep_view());
    out
}

/// Whether some set of `sets` is for `country`.
pub fn sets_name(sets: &Vec<CountryReleases>, country: &str) -> (r: bool)
    ensures
        r == names_country(sets.deep_view(), country@),
{
    let mut i: usize = 0;
    while i < sets.len()
        invariant
            i <= sets.len(),
            forall|j: int| 0 <= j < i ==> (#[trigger] sets.deep_view()[j]).country != country@,
        decreases sets.len() - i,
    {
        if same_text(sets[i].country.as_str(), country) {
            assert(sets.deep_view()[i as int].country == country@);
            return true;
        }
        i += 1;
    }
    false
}

/// The rows that a write of `sets` for the film leaves in place.
pub fn release_rows_kept(rows: &Vec<ReleaseRow>, tmdb_id: i32, sets: &Vec<CountryReleases>) -> (r:
    Vec<ReleaseRow>)
    ensures
        r.deep_view() == rows_kept(rows.deep_view(), tmdb_id, sets.deep_view()),
{
    let mut out: Vec<ReleaseRow> = Vec::new();
    let mut i: usize = 0;
    assert(rows.deep_view().take(0) =~= Seq::<StoredRelease>::empty());
    while i < rows.len()
        invariant
            i <= rows.len(),
            out.deep_view() == rows_kept(rows.deep_view().take(i as int), tmdb_id, sets.deep_view()),
        decreases rows.len() - i,
    {
        proof {
            assert(rows.deep_view().take(i + 1).drop_last() =~= rows.deep_view().take(i as int));
            assert(rows.deep_view().take(i + 1).last() == rows[i as int].deep_view());
        }
        if !(rows[i].tmdb_id == tmdb_id && sets_name(sets, rows[i].country.as_str())) {
            let ghost before = out.deep_view();
            out.push(rows[i].clone());
            assert(out.deep_view() =~= before.push(rows[i as int].deep_view()));
        }
        i += 1;
    }
    assert(rows.deep_view().take(rows.len() as int) =~= rows.deep_view());
    out
}

/// A stored watch offer of one film in one country.
#[derive(Debug, PartialEq, Eq)]
pub struct ProviderRow {
    pub tmdb_id: i32,
    pub country: String,
    pub provider_id: i32,
    pub provider_name: String,
    pub logo_path: String,
    pub link: Option<String>,
    pub provider_type: i32,
    pub cached_at: i64,
}

/// What a [`ProviderRow`] is.
pub struct StoredProvider {
    pub tmdb_id: i32,
    pub country: Seq<char>,
    pub provider_id: i32,
    pub provider_name: Seq<char>,
    pub logo_path: Seq<char>,
    pub link: Option<Seq<char>>,
    pub provider_type: i32,
    pub cached_at: i64,
}

impl DeepView for ProviderRow {
    type V = StoredProvider;

    open spec fn deep_view(&self) -> StoredProvider {
        StoredProvider {
            tmdb_id: self.tmdb_id,
            country: self.country@,
            provider_id: self.provider_id,
            provider_name: self.provider_name@,
            logo_path: self.logo_path@,
            link: self.link.deep_view(),
            provider_type: self.provider_type,
            cached_at: self.cached_at,
        }
    }
}

/// The watch offers that are known of one film in one country.
#[derive(Debug, PartialEq, Eq)]
pub struct ProviderCacheEntry {
    pub tmdb_id: i32,
    pub country: String,
    pub providers: Vec<WatchProvider>,
}

/// What a [`ProviderCacheEntry`] is.
pub struct KnownProviders {
    pub tmdb_id: i32,
    pub country: Seq<char>,
    pub providers: Seq<ProviderOffer>,
}

impl DeepView for ProviderCacheEntry {
    type V = KnownProviders;

    open spec fn deep_view(&self) -> KnownProviders {
        KnownProviders {
            tmdb_id: self.tmdb_id,
            country: self.country@,
            providers: self.providers.deep_view(),
        }
    }
}

/// The first entry of `known` for the film and the country, if any.
pub open spec fn known_offers(known: Seq<KnownProviders>, tmdb_id: i32, country: Seq<char>)
    -> Option<Seq<ProviderOffer>>
    decreases known.len(),
{
    if known.len() == 0 {
        None
    } else if known[0].tmdb_id == tmdb_id && known[0].country == country {
        Some(known[0].providers)
    } else {
        known_offers(known.drop_first(), tmdb_id, country)
    }
}

/// The offer that a row stores, if its type is known.
pub open spec fn row_offer(row: StoredProvider) -> Option<ProviderOffer> {
    match ProviderType::of_code(row.provider_type as int) {
        Some(kind) => Some(
            ProviderOffer {
                provider_id: row.provider_id,
                provider_name: row.provider_name,
                logo_path: row.logo_path,
                link: row.link,
                provider_type: kind,
            },
        ),
        None => None,
    }
}

/// The offers that `rows` store for the film and the country, in the order
/// of the rows.
pub open spec fn row_offers(rows: Seq<StoredProvider>, tmdb_id: i32, country: Seq<char>) -> Seq<
    ProviderOffer,
>
    decreases rows.len(),
{
    if rows.len() == 0 {
        Seq::empty()
    } else {
        let before = row_offers(rows.drop_last(), tmdb_id, country);
        let row = rows.last();
        if row.tmdb_id == tmdb_id && row.country == country && row_offer(row) is Some {
            before.push(row_offer(row)->0)
        } else {
            before
        }
    }
}

/// What a bulk read of watch offers gives: for each marker that is fresh and
/// asked for, in the order of the markers and once per film and country, the
/// offers that the rows store.
pub open spec fn read_providers(
    metas: Seq<StoredMeta>,
    rows: Seq<StoredProvider>,
    requests: Seq<(i32, Seq<char>)>,
    now: i64,
    ttl: i64,
) -> Seq<KnownProviders>
    decreases metas.len(),
{
    if metas.len() == 0 {
        Seq::empty()
    } else {
        let before = read_providers(metas.drop_last(), rows, requests, now, ttl);
        let m = metas.last();
        if fresh(now, m.cached_at, ttl) && requests.contains((m.tmdb_id, m.country))
            && known_offers(before, m.tmdb_id, m.country) is None {
            before.push(
                KnownProviders {
                    tmdb_id: m.tmdb_id,
                    country: m.country,
                    providers: row_offers(rows, m.tmdb_id, m.country),
                },
            )
        } else {
            before
        }
    }
}

/// The row that stores an offer for the film and the country.
pub open spec fn stored_provider(tmdb_id: i32, country: Seq<char>, o: ProviderOffer, now: i64)
    -> StoredProvider {
    StoredProvider {
        tmdb_id,
        country,
        provider_id: o.provider_id,
        provider_name: o.provider_name,
        logo_path: o.logo_path,
        link: o.link,
        provider_type: o.provider_type.code() as i32,
        cached_at: now,
    }
}

/// Two rows are for the same film, country, provider and type.
pub open spec fn same_offer_key(a: StoredProvider, b: StoredProvider) -> bool {
    a.tmdb_id == b.tmdb_id && a.country == b.country && a.provider_id == b.provider_id
        && a.provider_type == b.provider_type
}

/// `rows` with `row` in place of every row of the same key, or behind all
/// rows where there is none.
pub open spec fn with_provider(rows: Seq<StoredProvider>, row: StoredProvider) -> Seq<
    StoredProvider,
> {
    if exists|i: int| 0 <= i < rows.len() && same_offer_key(#[trigger] rows[i], row) {
        Seq::new(
            rows.len(),
            |i: int|
                if same_offer_key(rows[i], row) {
                    row
                } else {
                    rows[i]
                },
        )
    } else {
        rows.push(row)
    }
}

/// `rows` after the offers were written at `now`, in order.
pub open spec fn with_providers(
    rows: Seq<StoredProvider>,
    tmdb_id: i32,
    country: Seq<char>,
    offers: Seq<ProviderOffer>,
    now: i64,
) -> Seq<StoredProvider>
    decreases offers.len(),
{
    if offers.len() == 0 {
        rows
    } else {
        with_provider(
            with_providers(rows, tmdb_id, country, offers.drop_last(), now),
            stored_provider(tmdb_id, country, offers.last(), now),
        )
    }
}

/// The position of the first entry of `known` for the film and the country.
pub fn find_offers(known: &Vec<ProviderCacheEntry>, tmdb_id: i32, country: &str) -> (r: Option<
    usize,
>)
    ensures
        match r {
            Some(i) => i < known.len() && known_offers(known.deep_view(), tmdb_id, country@)
                == Some(known[i as int].providers.deep_view()),
            None => known_offers(known.deep_view(), tmdb_id, country@) is None,
        },
{
    let mut i: usize = 0;
    assert(known.deep_view().skip(0) =~= known.deep_view());
    while i < known.len()
        invariant
            i <= known.len(),
            known_offers(known.deep_view(), tmdb_id, country@) == known_offers(
                known.deep_view().skip(i as int),
                tmdb_id,
                country@,
            ),
        decreases known.len() - i,
    {
        proof {
            assert(known.deep_view().skip(i as int).drop_first() =~= known.deep_view().skip(i + 1));
            assert(known.deep_view().skip(i as int)[0] == known[i as int].deep_view());
        }
        if known[i].tmdb_id == tmdb_id && same_text(known[i].country.as_str(), country) {
            return Some(i);
        }
        i += 1;
    }
    None
}

/// The offers that `rows` store for the film and the country.
pub fn offers_of_rows(rows: &Vec<ProviderRow>, tmdb_id: i32, country: &str) -> (r: Vec<
    WatchProvider,
>)
    ensures
        r.deep_view() == row_offers(rows.deep_view(), tmdb_id, country@),
{
    let mut out: Vec<WatchProvider> = Vec::new();
    let mut i: usize = 0;
    assert(rows.deep_view().take(0) =~= Seq::<StoredProvider>::empty());
    while i < rows.len()
        invariant
            i <= rows.len(),
            out.deep_view() == row_offers(rows.deep_view().take(i as int), tmdb_id, country@),
        decreases rows.len() - i,
    {
        proof {
            assert(rows.deep_view().take(i + 1).drop_last() =~= rows.deep_view().take(i as int));
            assert(rows.deep_view().take(i + 1).last() == rows[i as int].deep_view());
        }
        let row = &rows[i];
        if row.tmdb_id == tmdb_id && same_text(row.country.as_str(), country) {
            match ProviderType::from_code(row.provider_type) {
                Some(kind) => {
                    let ghost before = out.deep_view();
                    out.push(
                        WatchProvider {
                            provider_id: row.provider_id,
                            provider_name: row.provider_name.clone(),
                            logo_path: row.logo_path.clone(),
                            link: clone_text(&row.link),
                            provider_type: kind,
                        },
                    );
                    assert(out.deep_view() =~= before.push(row_offer(row.deep_view())->0));
                },
                None => {},
            }
        }
        i += 1;
    }
    assert(rows.deep_view().take(rows.len() as int) =~= rows.deep_view());
    out
}

/// Answers a bulk read of watch offers from the markers and the rows.
pub fn read_provider_sets(
    metas: &Vec<CacheMetaRow>,
    rows: &Vec<ProviderRow>,
    requests: &Vec<(i32, String)>,
    now: i64,
    ttl: i64,
) -> (r: Vec<ProviderCacheEntry>)
    ensures
        r.deep_view() == read_providers(
            metas.deep_view(),
            rows.deep_view(),
            requests.deep_view(),
            now,
            ttl,
        ),
        distinct_offers(r.deep_view()),
{
    proof {
        lemma_read_providers_distinct(
            metas.deep_view(),
            rows.deep_view(),
            requests.deep_view(),
            now,
            ttl,
        );
    }
    let mut out: Vec<ProviderCacheEntry> = Vec::new();
    let mut i: usize = 0;
    assert(metas.deep_view().take(0) =~= Seq::<StoredMeta>::empty());
    while i < metas.len()
        invariant
            i <= metas.len(),
            out.deep_view() == read_providers(
                metas.deep_view().take(i as int),
                rows.deep_view(),
                requests.deep_view(),
                now,
                ttl,
            ),
        decreases metas.len() - i,
    {
        proof {
            assert(metas.deep_view().take(i + 1).drop_last() =~= metas.deep_view().take(i as int));
            assert(metas.deep_view().take(i + 1).last() == metas[i as int].deep_view());
        }
        let m = &metas[i];
        if is_fresh(now, m.cached_at, ttl) && is_requested(requests, m.tmdb_id, m.country.as_str())
            && find_offers(&out, m.tmdb_id, m.country.as_str()).is_none() {
            let ghost before = out.deep_view();
            let providers = offers_of_rows(rows, m.tmdb_id, m.country.as_str());
            out.push(
                ProviderCacheEntry { tmdb_id: m.tmdb_id, country: m.country.clone(), providers },
            );
            assert(out.deep_view() =~= before.push(
                KnownProviders {
                    tmdb_id: m.tmdb_id,
                    country: m.country@,
                    providers: row_offers(rows.deep_view(), m.tmdb_id, m.country@),
                },
            ));
        }
        i += 1;
    }
    assert(metas.deep_view().take(metas.len() as int) =~= metas.deep_view());
    out
}

/// The row that stores an offer for the film and the country.
pub fn provider_row(tmdb_id: i32, country: &str, offer: &WatchProvider, now: i64) -> (r:
    ProviderRow)
    ensures
        r.deep_view() == stored_provider(tmdb_id, country@, offer.deep_view(), now),
{
    ProviderRow {
        tmdb_id,
        country: country.to_owned(),
        provider_id: offer.provider_id,
        provider_name: offer.provider_name.clone(),
        logo_path: offer.logo_path.clone(),
        link: clone_text(&offer.link),
        provider_type: offer.provider_type.as_code(),
        cached_at: now,
    }
}

/// Whether two rows are for the same film, country, provider and type.
pub fn rows_share_key(a: &ProviderRow, b: &ProviderRow) -> (r: bool)
    ensures
        r == same_offer_key(a.deep_view(), b.deep_view()),
{
    a.tmdb_id == b.tmdb_id && a.provider_id == b.provider_id && a.provider_type == b.provider_type
        && same_text(a.country.as_str(), b.country.as_str())
}

/// Writes `row` over every row of its key, or appends it.
pub fn upsert_provider_row(rows: &mut Vec<ProviderRow>, row: ProviderRow)
    ensures
        final(rows).deep_view() == with_provider(old(rows).deep_view(), row.deep_view()),
{
    let mut found = false;
    let mut i: usize = 0;
    while i < rows.len()
        invariant
            i <= rows.len(),
            rows.len() == old(rows).len(),
            found == exists|j: int|
                0 <= j < i && same_offer_key(#[trigger] old(rows).deep_view()[j], row.deep_view()),
            forall|j: int|
                0 <= j < i ==> #[trigger] rows.deep_view()[j] == if same_offer_key(
                    old(rows).deep_view()[j],
                    row.deep_view(),
                ) {
                    row.deep_view()
                } else {
                    old(rows).deep_view()[j]
                },
            forall|j: int| i <= j < rows.len() ==> #[trigger] rows.deep_view()[j] == old(
                rows,
            ).deep_view()[j],
        decreases rows.len() - i,
    {
        assert(rows.deep_view()[i as int] == old(rows).deep_view()[i as int]);
        if rows_share_key(&rows[i], &row) {
            let ghost before = rows.deep_view();
            let copy = ProviderRow {
                tmdb_id: row.tmdb_id,
                country: row.country.clone(),
                provider_id: row.provider_id,
                provider_name: row.provider_name.clone(),
                logo_path: row.logo_path.clone(),
                link: clone_text(&row.link),
                provider_type: row.provider_type,
                cached_at: row.cached_at,
            };
            rows.set(i, copy);
            assert forall|j: int| 0 <= j < rows.len() && j != i implies #[trigger] rows.deep_view()[j]
                == before[j] by {}
            found = true;
        }
        i += 1;
    }
    if !found {
        let ghost before = rows.deep_view();
        assert(before =~= old(rows).deep_view());
        rows.push(row);
        assert(rows.deep_view() =~= before.push(row.deep_view()));
    } else {
        assert(rows.deep_view() =~= with_provider(old(rows).deep_view(), row.deep_view()));
    }
}

/// The rows of `rows` that a write of offers for the film and the country
/// leaves in place: those of other films and other countries.
pub open spec fn offers_kept(rows: Seq<StoredProvider>, tmdb_id: i32, country: Seq<char>) -> Seq<
    StoredProvider,
>
    decreases rows.len(),
{
    if rows.len() == 0 {
        Seq::empty()
    } else if rows.last().tmdb_id == tmdb_id && rows.last().country == country {
        offers_kept(rows.drop_last(), tmdb_id, country)
    } else {
        offers_kept(rows.drop_last(), tmdb_id, country).push(rows.last())
    }
}

/// The rows that store the offers of a film in a country: one for each
/// provider and type, at the place of the first offer and with the content
/// of the last.
pub open spec fn offer_rows(tmdb_id: i32, country: Seq<char>, offers: Seq<ProviderOffer>, now: i64)
    -> Seq<StoredProvider> {
    with_providers(Seq::empty(), tmdb_id, country, offers, now)
}

/// The offer rows after a write: the rows of the written pair are gone, and
/// the new rows stand behind the others.
pub open spec fn providers_after_put(
    rows: Seq<StoredProvider>,
    tmdb_id: i32,
    country: Seq<char>,
    offers: Seq<ProviderOffer>,
    now: i64,
) -> Seq<StoredProvider> {
    offers_kept(rows, tmdb_id, country) + offer_rows(tmdb_id, country, offers, now)
}

impl Clone for ProviderRow {
    fn clone(&self) -> (r: Self)
        ensures
            r == *self,
    {
        ProviderRow {
            tmdb_id: self.tmdb_id,
            country: self.country.clone(),
            provider_id: self.provider_id,
            provider_name: self.provider_name.clone(),
            logo_path: self.logo_path.clone(),
            link: clone_text(&self.link),
            provider_type: self.provider_type,
            cached_at: self.cached_at,
        }
    }
}

/// The rows that a write of offers for the film and the country leaves in
/// place.
pub fn provider_rows_kept(rows: &Vec<ProviderRow>, tmdb_id: i32, country: &str) -> (r: Vec<
    ProviderRow,
>)
    ensures
        r.deep_view() == offers_kept(rows.deep_view(), tmdb_id, country@),
{
    let mut out: Vec<ProviderRow> = Vec::new();
    let mut i: usize = 0;
    assert(rows.deep_view().take(0) =~= Seq::<StoredProvider>::empty());
    while i < rows.len()
        invariant
            i <= rows.len(),
            out.deep_view() == offers_kept(rows.deep_view().take(i as int), tmdb_id, country@),
        decreases rows.len() - i,
    {
        proof {
            assert(rows.deep_view().take(i + 1).drop_last() =~= rows.deep_view().take(i as int));
            assert(rows.deep_view().take(i + 1).last() == rows[i as int].deep_view());
        }
        if !(rows[i].tmdb_id == tmdb_id && same_text(rows[i].country.as_str(), country)) {
            let ghost before = out.deep_view();
            out.push(rows[i].clone());
            assert(out.deep_view() =~= before.push(rows[i as int].deep_view()));
        }
        i += 1;
    }
    assert(rows.deep_view().take(rows.len() as int) =~= rows.deep_view());
    out
}

/// The rows that store the offers of a film in a country written at `now`.
pub fn provider_rows(tmdb_id: i32, country: &str, providers: &Vec<WatchProvider>, now: i64) -> (r:
    Vec<ProviderRow>)
    ensures
        r.deep_view() == offer_rows(tmdb_id, country@, providers.deep_view(), now),
{
    let mut out: Vec<ProviderRow> = Vec::new();
    let mut i: usize = 0;
    assert(providers.deep_view().take(0) =~= Seq::<ProviderOffer>::empty());
    assert(out.deep_view() =~= Seq::<StoredProvider>::empty());
    while i < providers.len()
        invariant
            i <= providers.len(),
            out.deep_view() == offer_rows(
                tmdb_id,
                country@,
                providers.deep_view().take(i as int),
                now,
            ),
        decreases providers.len() - i,
    {
        proof {
            assert(providers.deep_view().take(i + 1).drop_last() =~= providers.deep_view().take(
                i as int,
            ));
            assert(providers.deep_view().take(i + 1).last() == providers[i as int].deep_view());
        }
        upsert_provider_row(&mut out, provider_row(tmdb_id, country, &providers[i], now));
        i += 1;
    }
    assert(providers.deep_view().take(providers.len() as int) =~= providers.deep_view());
    out
}

/// The countries that the sets are for, in their order.
pub open spec fn countries_of(sets: Seq<CountryReleaseSet>) -> Seq<Seq<char>> {
    Seq::new(sets.len(), |i: int| sets[i].country)
}

/// What a durable store is to do for a write of release sets: delete the
/// rows of the film in the countries listed, insert the rows given, and set
/// the marker of each listed country to the time given.
#[derive(Debug, PartialEq, Eq)]
pub struct ReleaseWrite {
    pub tmdb_id: i32,
    pub countries: Vec<String>,
    pub rows: Vec<ReleaseRow>,
    pub cached_at: i64,
}

/// Plans a write of release sets for a durable store. A row is deleted
/// exactly if [`rows_kept`] drops it, and the rows to insert are those that
/// [`rows_after_put`] adds.
pub fn plan_release_write(tmdb_id: i32, sets: &Vec<CountryReleases>, now: i64) -> (r: ReleaseWrite)
    ensures
        r.tmdb_id == tmdb_id,
        r.cached_at == now,
        r.countries.deep_view() == countries_of(sets.deep_view()),
        forall|c: Seq<char>| #[trigger]
            r.countries.deep_view().contains(c) <==> names_country(sets.deep_view(), c),
        r.rows.deep_view() == sets_rows(tmdb_id, sets.deep_view(), now),
{
    let mut countries: Vec<String> = Vec::new();
    let mut i: usize = 0;
    while i < sets.len()
        invariant
            i <= sets.len(),
            countries.len() == i,
            forall|j: int|
                0 <= j < i ==> #[trigger] countries.deep_view()[j] == sets.deep_view()[j].country,
        decreases sets.len() - i,
    {
        let ghost before = countries.deep_view();
        countries.push(sets[i].country.clone());
        assert(countries.deep_view() =~= before.push(sets.deep_view()[i as int].country));
        i += 1;
    }
    assert(countries.deep_view() =~= countries_of(sets.deep_view()));
    proof {
        let cs = countries_of(sets.deep_view());
        assert forall|c: Seq<char>| #[trigger] cs.contains(c) <==> names_country(
            sets.deep_view(),
            c,
        ) by {
            if cs.contains(c) {
                let k = choose|k: int| 0 <= k < cs.len() && cs[k] == c;
                assert(sets.deep_view()[k].country == c);
            }
            if names_country(sets.deep_view(), c) {
                let k = choose|k: int|
                    0 <= k < sets.len() && (#[trigger] sets.deep_view()[k]).country == c;
                assert(cs[k] == c);
            }
        }
    }
    ReleaseWrite { tmdb_id, countries, rows: release_rows(tmdb_id, sets, now), cached_at: now }
}

/// The cache: three time-to-live settings, in seconds, and the tables.
#[derive(Debug, PartialEq, Eq)]
pub struct CacheManager {
    pub film_ttl_seconds: i64,
    pub release_ttl_seconds: i64,
    pub provider_ttl_seconds: i64,
    pub films: Vec<FilmRow>,
    pub releases: Vec<ReleaseRow>,
    pub release_meta: Vec<CacheMetaRow>,
    pub providers: Vec<ProviderRow>,
    pub provider_meta: Vec<CacheMetaRow>,
}

impl CacheManager {
    /// The tables are well formed: one identity per slug, one marker per
    /// film and country in each of the two marker tables, and one offer
    /// per film, country, provider and type.
    pub open spec fn wf(&self) -> bool {
        &&& distinct_slugs(self.films.deep_view())
        &&& distinct_metas(self.release_meta.deep_view())
        &&& distinct_metas(self.provider_meta.deep_view())
        &&& distinct_provider_rows(self.providers.deep_view())
    }

    /// An empty cache. Identities and watch offers live for the given
    /// number of days, release sets for the given number of hours; a
    /// lifetime beyond the range of `i64` seconds is held at its end.
    pub fn new(film_ttl_days: i64, release_ttl_hours: i64, provider_ttl_days: i64) -> (c:
        CacheManager)
        ensures
            c.film_ttl_seconds == saturating_product(film_ttl_days as int, SECONDS_PER_DAY as int),
            c.release_ttl_seconds == saturating_product(
                release_ttl_hours as int,
                SECONDS_PER_HOUR as int,
            ),
            c.provider_ttl_seconds == saturating_product(
                provider_ttl_days as int,
                SECONDS_PER_DAY as int,
            ),
            c.films.len() == 0,
            c.releases.len() == 0,
            c.release_meta.len() == 0,
            c.providers.len() == 0,
            c.provider_meta.len() == 0,
            c.wf(),
    {
        CacheManager {
            film_ttl_seconds: ttl_seconds(film_ttl_days, SECONDS_PER_DAY),
            release_ttl_seconds: ttl_seconds(release_ttl_hours, SECONDS_PER_HOUR),
            provider_ttl_seconds: ttl_seconds(provider_ttl_days, SECONDS_PER_DAY),
            films: Vec::new(),
            releases: Vec::new(),
            release_meta: Vec::new(),
            providers: Vec::new(),
            provider_meta: Vec::new(),
        }
    }

    /// The stored identities that are asked for and fresh at `now`: a slug
    /// without a row, or with a stale one, is simply absent.
    pub fn get_films(&self, slugs: &Vec<String>, now: i64) -> (r: Vec<FilmRow>)
        ensures
            r.deep_view() == fresh_films(
                self.films.deep_view(),
                slugs.deep_view(),
                now,
                self.film_ttl_seconds,
            ),
    {
        select_fresh_films(&self.films, slugs, now, self.film_ttl_seconds)
    }

    /// Writes the identities at `now`, each over the row of its slug. Nothing
    /// but the film rows changes.
    pub fn upsert_films(&mut self, films: &Vec<FilmCacheData>, now: i64)
        ensures
            final(self).films.deep_view() == with_films(
                old(self).films.deep_view(),
                films.deep_view(),
                now,
            ),
            final(self).film_ttl_seconds == old(self).film_ttl_seconds,
            final(self).release_ttl_seconds == old(self).release_ttl_seconds,
            final(self).provider_ttl_seconds == old(self).provider_ttl_seconds,
            final(self).releases == old(self).releases,
            final(self).release_meta == old(self).release_meta,
            final(self).providers == old(self).providers,
            final(self).provider_meta == old(self).provider_meta,
            old(self).wf() ==> final(self).wf(),
    {
        proof {
            if old(self).wf() {
                lemma_with_films_distinct(old(self).films.deep_view(), films.deep_view(), now);
            }
        }
        let mut i: usize = 0;
        assert(films.deep_view().take(0) =~= Seq::<FilmIdentity>::empty());
        while i < films.len()
            invariant
                i <= films.len(),
                self.films.deep_view() == with_films(
                    old(self).films.deep_view(),
                    films.deep_view().take(i as int),
                    now,
                ),
                self.film_ttl_seconds == old(self).film_ttl_seconds,
                self.release_ttl_seconds == old(self).release_ttl_seconds,
                self.provider_ttl_seconds == old(self).provider_ttl_seconds,
                self.releases == old(self).releases,
                self.release_meta == old(self).release_meta,
                self.providers == old(self).providers,
                self.provider_meta == old(self).provider_meta,
            decreases films.len() - i,
        {
            proof {
                assert(films.deep_view().take(i + 1).drop_last() =~= films.deep_view().take(
                    i as int,
                ));
                assert(films.deep_view().take(i + 1).last() == films[i as int].deep_view());
            }
            upsert_film_row(&mut self.films, film_row(&films[i], now));
            i += 1;
        }
        assert(films.deep_view().take(films.len() as int) =~= films.deep_view());
    }

    /// The release sets that are asked for and whose marker is fresh at
    /// `now`. A fresh pair without rows gives a set with empty lists: the
    /// film is known to have no release there.
    pub fn get_releases(&self, requests: &Vec<(i32, String)>, now: i64) -> (r: Vec<
        ReleaseCacheEntry,
    >)
        ensures
            r.deep_view() == read_releases(
                self.release_meta.deep_view(),
                self.releases.deep_view(),
                requests.deep_view(),
                now,
                self.release_ttl_seconds,
            ),
    {
        read_release_sets(
            &self.release_meta,
            &self.releases,
            requests,
            now,
            self.release_ttl_seconds,
        )
    }

    /// Replaces the release set of the film in every country that
    /// `countries` names, and sets those countries' markers to `now`.
    /// Entries with the marker of synthetic data are not stored, and no
    /// entry is stored twice.
    pub fn put_releases_multi_country(
        &mut self,
        tmdb_id: i32,
        countries: &Vec<CountryReleases>,
        now: i64,
    )
        ensures
            final(self).releases.deep_view() == rows_after_put(
                old(self).releases.deep_view(),
                tmdb_id,
                countries.deep_view(),
                now,
            ),
            final(self).release_meta.deep_view() == metas_after_put(
                old(self).release_meta.deep_view(),
                tmdb_id,
                countries.deep_view(),
                now,
            ),
            final(self).film_ttl_seconds == old(self).film_ttl_seconds,
            final(self).release_ttl_seconds == old(self).release_ttl_seconds,
            final(self).provider_ttl_seconds == old(self).provider_ttl_seconds,
            final(self).films == old(self).films,
            final(self).providers == old(self).providers,
            final(self).provider_meta == old(self).provider_meta,
            old(self).wf() ==> final(self).wf(),
    {
        proof {
            if old(self).wf() {
                lemma_metas_after_put_distinct(
                    old(self).release_meta.deep_view(),
                    tmdb_id,
                    countries.deep_view(),
                    now,
                );
            }
        }
        let mut rows = release_rows_kept(&self.releases, tmdb_id, countries);
        let mut added = release_rows(tmdb_id, countries, now);
        let ghost kept = rows.deep_view();
        let ghost new_rows = added.deep_view();
        rows.append(&mut added);
        assert(rows.deep_view() =~= kept + new_rows);
        self.releases = rows;
        let mut i: usize = 0;
        assert(countries.deep_view().take(0) =~= Seq::<CountryReleaseSet>::empty());
        while i < countries.len()
            invariant
                i <= countries.len(),
                self.release_meta.deep_view() == metas_after_put(
                    old(self).release_meta.deep_view(),
                    tmdb_id,
                    countries.deep_view().take(i as int),
                    now,
                ),
                self.releases.deep_view() == rows_after_put(
                    old(self).releases.deep_view(),
                    tmdb_id,
                    countries.deep_view(),
                    now,
                ),
                self.film_ttl_seconds == old(self).film_ttl_seconds,
                self.release_ttl_seconds == old(self).release_ttl_seconds,
                self.provider_ttl_seconds == old(self).provider_ttl_seconds,
                self.films == old(self).films,
                self.providers == old(self).providers,
                self.provider_meta == old(self).provider_meta,
            decreases countries.len() - i,
        {
            proof {
                assert(countries.deep_view().take(i + 1).drop_last() =~= countries.deep_view().take(
                    i as int,
                ));
                assert(countries.deep_view().take(i + 1).last() == countries[i as int].deep_view());
            }
            upsert_meta(&mut self.release_meta, tmdb_id, countries[i].country.as_str(), now);
            i += 1;
        }
        assert(countries.deep_view().take(countries.len() as int) =~= countries.deep_view());
    }

    /// Replaces the release set of the film in one country, and sets the
    /// country's marker to `now`.
    pub fn put_releases(
        &mut self,
        tmdb_id: i32,
        country: &str,
        theatrical: &Vec<ReleaseDate>,
        streaming: &Vec<ReleaseDate>,
        now: i64,
    )
        ensures
            ({
                let sets = seq![
                    CountryReleaseSet {
                        country: country@,
                        theatrical: theatrical.deep_view(),
                        streaming: streaming.deep_view(),
                    },
                ];
                &&& final(self).releases.deep_view() == rows_after_put(
                    old(self).releases.deep_view(),
                    tmdb_id,
                    sets,
                    now,
                )
                &&& final(self).release_meta.deep_view() == metas_after_put(
                    old(self).release_meta.deep_view(),
                    tmdb_id,
                    sets,
                    now,
                )
            }),
            final(self).film_ttl_seconds == old(self).film_ttl_seconds,
            final(self).release_ttl_seconds == old(self).release_ttl_seconds,
            final(self).provider_ttl_seconds == old(self).provider_ttl_seconds,
            final(self).films == old(self).films,
            final(self).providers == old(self).providers,
            final(self).provider_meta == old(self).provider_meta,
            old(self).wf() ==> final(self).wf(),
    {
        let mut sets: Vec<CountryReleases> = Vec::new();
        sets.push(
            CountryReleases {
                country: country.to_owned(),
                theatrical: clone_releases(theatrical),
                streaming: clone_releases(streaming),
            },
        );
        assert(sets.deep_view() =~= seq![
            CountryReleaseSet {
                country: country@,
                theatrical: theatrical.deep_view(),
                streaming: streaming.deep_view(),
            },
        ]);
        self.put_releases_multi_country(tmdb_id, &sets, now);
    }

    /// Removes every release row whose note carries the marker of synthetic
    /// data.
    pub fn clear_mock_release_dates(&mut self)
        ensures
            final(self).releases.deep_view() == rows_without_mock(old(self).releases.deep_view()),
            final(self).film_ttl_seconds == old(self).film_ttl_seconds,
            final(self).release_ttl_seconds == old(self).release_ttl_seconds,
            final(self).provider_ttl_seconds == old(self).provider_ttl_seconds,
            final(self).films == old(self).films,
            final(self).release_meta == old(self).release_meta,
            final(self).providers == old(self).providers,
            final(self).provider_meta == old(self).provider_meta,
            old(self).wf() ==> final(self).wf(),
    {
        let mut out: Vec<ReleaseRow> = Vec::new();
        let mut i: usize = 0;
        assert(self.releases.deep_view().take(0) =~= Seq::<StoredRelease>::empty());
        while i < self.releases.len()
            invariant
                i <= self.releases.len(),
                *self == *old(self),
                out.deep_view() == rows_without_mock(self.releases.deep_view().take(i as int)),
            decreases self.releases.len() - i,
        {
            proof {
                assert(self.releases.deep_view().take(i + 1).drop_last()
                    =~= self.releases.deep_view().take(i as int));
                assert(self.releases.deep_view().take(i + 1).last()
                    == self.releases[i as int].deep_view());
            }
            let mock = match &self.releases[i].note {
                Some(n) => contains(n.as_str(), "Mock"),
                None => false,
            };
            if !mock {
                let ghost before = out.deep_view();
                out.push(self.releases[i].clone());
                assert(out.deep_view() =~= before.push(self.releases[i as int].deep_view()));
            }
            i += 1;
        }
        assert(self.releases.deep_view().take(self.releases.len() as int)
            =~= self.releases.deep_view());
        self.releases = out;
    }

    /// The watch offers that are asked for and whose marker is fresh at
    /// `now`.
    pub fn get_providers(&self, requests: &Vec<(i32, String)>, now: i64) -> (r: Vec<
        ProviderCacheEntry,
    >)
        ensures
            r.deep_view() == read_providers(
                self.provider_meta.deep_view(),
                self.providers.deep_view(),
                requests.deep_view(),
                now,
                self.provider_ttl_seconds,
            ),
    {
        read_provider_sets(
            &self.provider_meta,
            &self.providers,
            requests,
            now,
            self.provider_ttl_seconds,
        )
    }

    /// Replaces the watch offers of the film in the country by the given
    /// ones, and sets the marker to `now`. Of offers by one provider under
    /// one type the last is stored. A write without offers stores that the
    /// film has none: the marker is set, and a read finds an empty list.
    pub fn put_providers(
        &mut self,
        tmdb_id: i32,
        country: &str,
        providers: &Vec<WatchProvider>,
        now: i64,
    )
        ensures
            final(self).providers.deep_view() == providers_after_put(
                old(self).providers.deep_view(),
                tmdb_id,
                country@,
                providers.deep_view(),
                now,
            ),
            final(self).provider_meta.deep_view() == with_meta(
                old(self).provider_meta.deep_view(),
                tmdb_id,
                country@,
                now,
            ),
            final(self).film_ttl_seconds == old(self).film_ttl_seconds,
            final(self).release_ttl_seconds == old(self).release_ttl_seconds,
            final(self).provider_ttl_seconds == old(self).provider_ttl_seconds,
            final(self).films == old(self).films,
            final(self).releases == old(self).releases,
            final(self).release_meta == old(self).release_meta,
            old(self).wf() ==> final(self).wf(),
    {
        proof {
            if old(self).wf() {
                lemma_providers_after_put_distinct(
                    old(self).providers.deep_view(),
                    tmdb_id,
                    country@,
                    providers.deep_view(),
                    now,
                );
                lemma_with_meta_distinct(old(self).provider_meta.deep_view(), tmdb_id, country@, now);
            }
        }
        let mut rows = provider_rows_kept(&self.providers, tmdb_id, country);
        let mut added = provider_rows(tmdb_id, country, providers, now);
        let ghost kept = rows.deep_view();
        let ghost new_rows = added.deep_view();
        rows.append(&mut added);
        assert(rows.deep_view() =~= kept + new_rows);
        self.providers = rows;
        upsert_meta(&mut self.provider_meta, tmdb_id, country, now);
    }
}

} // verus!
