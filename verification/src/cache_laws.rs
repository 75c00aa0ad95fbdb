//! What holds of the release cache across writes and reads.
//!
//! The laws at the end of this file speak of the tables of
//! [`crate::cache::CacheManager`] through the functions that its contracts
//! use: a read after a write returns what was written while the marker is
//! fresh and nothing afterwards; writing twice is writing once; and no
//! stored list holds an entry twice.

use crate::cache::{
    entry_rows, film_entry, fresh, fresh_films, has_film, has_fresh_meta, has_meta, is_mock, known_offers,
    metas_after_put, names_country, offer_rows, offers_kept, providers_after_put,
    read_providers, read_releases, row_entries, row_offer, row_offers, rows_after_put,
    rows_kept, same_offer_key, set_rows, sets_rows, storable, stored_film, stored_provider,
    stored_release, stored_set, with_film, with_films, with_meta, with_provider, with_providers,
    FilmIdentity, KnownProviders, StoredFilm, StoredMeta, StoredProvider, StoredRelease,
};
use crate::fallback::{known_entry, KnownReleases};
use crate::models::{CountryReleaseSet, ProviderOffer, ReleaseEntry, ReleaseType};
use crate::order::{lemma_sort_of_ordered, lemma_sort_properties, ordered, stable_sort};
use crate::releases::{by_date, canonical, lemma_by_date_total};
use vstd::prelude::*;

verus! {

/// The entries of `s` that are of the kind `kind`, in their order.
pub open spec fn of_kind(s: Seq<ReleaseEntry>, kind: ReleaseType) -> Seq<ReleaseEntry>
    decreases s.len(),
{
    if s.len() == 0 {
        Seq::empty()
    } else if s.last().kind == kind {
        of_kind(s.drop_last(), kind).push(s.last())
    } else {
        of_kind(s.drop_last(), kind)
    }
}

/// The set that a read returns for a set that was written: of the storable
/// entries of both lists, those of each kind, sorted by date.
pub open spec fn written_form(set: CountryReleaseSet) -> CountryReleaseSet {
    let entries = storable(set.theatrical + set.streaming);
    CountryReleaseSet {
        country: set.country,
        theatrical: stable_sort(of_kind(entries, ReleaseType::Theatrical), by_date()),
        streaming: stable_sort(of_kind(entries, ReleaseType::Digital), by_date()),
    }
}

/// Every entry of `s` is of the kind `kind`.
pub open spec fn all_of_kind(s: Seq<ReleaseEntry>, kind: ReleaseType) -> bool {
    forall|i: int| 0 <= i < s.len() ==> (#[trigger] s[i]).kind == kind
}

/// No entry of `s` carries the marker of synthetic data.
pub open spec fn mock_free(s: Seq<ReleaseEntry>) -> bool {
    forall|i: int| 0 <= i < s.len() ==> !is_mock(#[trigger] s[i])
}

/// A release set as the data model asks for it: each list in canonical
/// form, the theatrical list of theatrical entries and the streaming list of
/// digital ones, and nothing synthetic.
pub open spec fn well_formed(set: CountryReleaseSet) -> bool {
    &&& canonical(set.theatrical)
    &&& canonical(set.streaming)
    &&& all_of_kind(set.theatrical, ReleaseType::Theatrical)
    &&& all_of_kind(set.streaming, ReleaseType::Digital)
    &&& mock_free(set.theatrical)
    &&& mock_free(set.streaming)
}

/// The entries of one kind that a write of `sets` stores for `country`.
pub open spec fn written_entries(
    sets: Seq<CountryReleaseSet>,
    country: Seq<char>,
    kind: ReleaseType,
) -> Seq<ReleaseEntry>
    decreases sets.len(),
{
    if sets.len() == 0 {
        Seq::empty()
    } else if sets.last().country == country {
        written_entries(sets.drop_last(), country, kind) + of_kind(
            storable(sets.last().theatrical + sets.last().streaming),
            kind,
        )
    } else {
        written_entries(sets.drop_last(), country, kind)
    }
}

/// No two rows are for the same slug.
pub open spec fn distinct_slugs(rows: Seq<StoredFilm>) -> bool {
    forall|i: int, j: int|
        0 <= i < j < rows.len() ==> (#[trigger] rows[i]).slug != (#[trigger] rows[j]).slug
}

/// No two markers are for the same film and country.
pub open spec fn distinct_metas(metas: Seq<StoredMeta>) -> bool {
    forall|i: int, j: int|
        0 <= i < j < metas.len() ==> !((#[trigger] metas[i]).tmdb_id == (
        #[trigger] metas[j]).tmdb_id && metas[i].country == metas[j].country)
}

/// No two rows are for the same film, country, provider and type.
pub open spec fn distinct_provider_rows(rows: Seq<StoredProvider>) -> bool {
    forall|i: int, j: int|
        0 <= i < j < rows.len() ==> !same_offer_key(#[trigger] rows[i], #[trigger] rows[j])
}

/// Writing an identity leaves one row per slug.
pub proof fn lemma_with_film_distinct(rows: Seq<StoredFilm>, row: StoredFilm)
    requires
        distinct_slugs(rows),
    ensures
        distinct_slugs(with_film(rows, row)),
{
    let r = with_film(rows, row);
    if has_film(rows, row.slug) {
        assert forall|i: int, j: int| 0 <= i < j < r.len() implies (#[trigger] r[i]).slug != (
        #[trigger] r[j]).slug by {
            assert(r[i].slug == rows[i].slug);
            assert(r[j].slug == rows[j].slug);
        }
    } else {
        assert forall|i: int, j: int| 0 <= i < j < r.len() implies (#[trigger] r[i]).slug != (
        #[trigger] r[j]).slug by {
            if j == rows.len() {
                assert(rows[i].slug != row.slug);
            }
        }
    }
}

/// Writing identities leaves one row per slug.
pub proof fn lemma_with_films_distinct(rows: Seq<StoredFilm>, films: Seq<FilmIdentity>, now: i64)
    requires
        distinct_slugs(rows),
    ensures
        distinct_slugs(with_films(rows, films, now)),
    decreases films.len(),
{
    if films.len() > 0 {
        lemma_with_films_distinct(rows, films.drop_last(), now);
        lemma_with_film_distinct(
            with_films(rows, films.drop_last(), now),
            stored_film(films.last(), now),
        );
    }
}

/// Setting a marker leaves one marker per film and country.
pub proof fn lemma_with_meta_distinct(
    metas: Seq<StoredMeta>,
    tmdb_id: i32,
    country: Seq<char>,
    now: i64,
)
    requires
        distinct_metas(metas),
    ensures
        distinct_metas(with_meta(metas, tmdb_id, country, now)),
{
    let r = with_meta(metas, tmdb_id, country, now);
    if has_meta(metas, tmdb_id, country) {
        assert forall|i: int, j: int| 0 <= i < j < r.len() implies !((#[trigger] r[i]).tmdb_id == (
        #[trigger] r[j]).tmdb_id && r[i].country == r[j].country) by {
            assert(r[i].tmdb_id == metas[i].tmdb_id && r[i].country == metas[i].country);
            assert(r[j].tmdb_id == metas[j].tmdb_id && r[j].country == metas[j].country);
        }
    } else {
        assert forall|i: int, j: int| 0 <= i < j < r.len() implies !((#[trigger] r[i]).tmdb_id == (
        #[trigger] r[j]).tmdb_id && r[i].country == r[j].country) by {
            if j == metas.len() {
                assert(!(metas[i].tmdb_id == tmdb_id && metas[i].country == country));
            }
        }
    }
}

/// A write of release sets leaves one marker per film and country.
pub proof fn lemma_metas_after_put_distinct(
    metas: Seq<StoredMeta>,
    tmdb_id: i32,
    sets: Seq<CountryReleaseSet>,
    now: i64,
)
    requires
        distinct_metas(metas),
    ensures
        distinct_metas(metas_after_put(metas, tmdb_id, sets, now)),
    decreases sets.len(),
{
    if sets.len() > 0 {
        lemma_metas_after_put_distinct(metas, tmdb_id, sets.drop_last(), now);
        lemma_with_meta_distinct(
            metas_after_put(metas, tmdb_id, sets.drop_last(), now),
            tmdb_id,
            sets.last().country,
            now,
        );
    }
}

/// Writing an offer leaves one row per film, country, provider and type.
pub proof fn lemma_with_provider_distinct(rows: Seq<StoredProvider>, row: StoredProvider)
    requires
        distinct_provider_rows(rows),
    ensures
        distinct_provider_rows(with_provider(rows, row)),
{
    let r = with_provider(rows, row);
    if exists|i: int| 0 <= i < rows.len() && same_offer_key(#[trigger] rows[i], row) {
        assert forall|i: int, j: int| 0 <= i < j < r.len() implies !same_offer_key(
            #[trigger] r[i],
            #[trigger] r[j],
        ) by {
            assert(same_offer_key(r[i], rows[i]));
            assert(same_offer_key(r[j], rows[j]));
        }
    } else {
        assert forall|i: int, j: int| 0 <= i < j < r.len() implies !same_offer_key(
            #[trigger] r[i],
            #[trigger] r[j],
        ) by {
            if j == rows.len() {
                assert(!same_offer_key(rows[i], row));
            }
        }
    }
}

/// Writing offers leaves one row per film, country, provider and type.
pub proof fn lemma_with_providers_distinct(
    rows: Seq<StoredProvider>,
    tmdb_id: i32,
    country: Seq<char>,
    offers: Seq<ProviderOffer>,
    now: i64,
)
    requires
        distinct_provider_rows(rows),
    ensures
        distinct_provider_rows(with_providers(rows, tmdb_id, country, offers, now)),
    decreases offers.len(),
{
    if offers.len() > 0 {
        lemma_with_providers_distinct(rows, tmdb_id, country, offers.drop_last(), now);
        lemma_with_provider_distinct(
            with_providers(rows, tmdb_id, country, offers.drop_last(), now),
            stored_provider(tmdb_id, country, offers.last(), now),
        );
    }
}

/// What a lookup by slug finds is the first row for the slug; it finds
/// nothing exactly when there is none.
pub proof fn lemma_film_entry(rows: Seq<StoredFilm>, slug: Seq<char>)
    ensures
        match film_entry(rows, slug) {
            Some(x) => exists|i: int| 0 <= i < rows.len() && #[trigger] rows[i] == x && x.slug == slug,
            None => forall|i: int| 0 <= i < rows.len() ==> (#[trigger] rows[i]).slug != slug,
        },
    decreases rows.len(),
{
    if rows.len() > 0 && rows[0].slug != slug {
        let t = rows.drop_first();
        lemma_film_entry(t, slug);
        match film_entry(t, slug) {
            Some(x) => {
                let k = choose|k: int| 0 <= k < t.len() && #[trigger] t[k] == x && x.slug == slug;
                assert(rows[k + 1] == x);
            },
            None => {
                assert forall|i: int| 0 <= i < rows.len() implies (#[trigger] rows[i]).slug
                    != slug by {
                    if i > 0 {
                        assert(t[i - 1] == rows[i]);
                    }
                }
            },
        }
    } else if rows.len() > 0 {
        assert(rows[0] == rows[0]);
    }
}

/// Among rows with one row per slug, a lookup finds the row of the slug.
pub proof fn lemma_film_entry_at(rows: Seq<StoredFilm>, i: int)
    requires
        distinct_slugs(rows),
        0 <= i < rows.len(),
    ensures
        film_entry(rows, rows[i].slug) == Some(rows[i]),
{
    lemma_film_entry(rows, rows[i].slug);
    match film_entry(rows, rows[i].slug) {
        Some(x) => {
            let k = choose|k: int|
                0 <= k < rows.len() && #[trigger] rows[k] == x && x.slug == rows[i].slug;
            assert(k == i);
        },
        None => {
            assert(rows[i].slug == rows[i].slug);
        },
    }
}

/// After an identity is written, a lookup finds it for its slug, and for
/// any other slug what it found before.
pub proof fn lemma_with_film_entry(rows: Seq<StoredFilm>, row: StoredFilm, slug: Seq<char>)
    requires
        distinct_slugs(rows),
    ensures
        film_entry(with_film(rows, row), slug) == if slug == row.slug {
            Some(row)
        } else {
            film_entry(rows, slug)
        },
{
    let r = with_film(rows, row);
    lemma_with_film_distinct(rows, row);
    lemma_film_entry(r, slug);
    lemma_film_entry(rows, slug);
    if slug == row.slug {
        if has_film(rows, row.slug) {
            let w = choose|i: int| 0 <= i < rows.len() && (#[trigger] rows[i]).slug == row.slug;
            assert(r[w] == row);
            lemma_film_entry_at(r, w);
        } else {
            assert(r[r.len() - 1] == row);
            lemma_film_entry_at(r, r.len() - 1);
        }
    } else {
        match film_entry(rows, slug) {
            Some(x) => {
                let k = choose|k: int| 0 <= k < rows.len() && #[trigger] rows[k] == x && x.slug == slug;
                assert(r[k] == rows[k]);
                lemma_film_entry_at(r, k);
            },
            None => {
                match film_entry(r, slug) {
                    Some(y) => {
                        let k = choose|k: int|
                            0 <= k < r.len() && #[trigger] r[k] == y && y.slug == slug;
                        if k < rows.len() {
                            assert(rows[k].slug == slug);
                        }
                    },
                    None => {},
                }
            },
        }
    }
}

/// After identities are written, a lookup finds for a slug the last
/// identity written for it.
pub proof fn lemma_with_films_entry(
    rows: Seq<StoredFilm>,
    films: Seq<FilmIdentity>,
    now: i64,
    k: int,
)
    requires
        distinct_slugs(rows),
        0 <= k < films.len(),
        forall|j: int| k < j < films.len() ==> (#[trigger] films[j]).slug != films[k].slug,
    ensures
        film_entry(with_films(rows, films, now), films[k].slug) == Some(
            stored_film(films[k], now),
        ),
    decreases films.len(),
{
    let t = films.drop_last();
    lemma_with_films_distinct(rows, t, now);
    lemma_with_film_entry(with_films(rows, t, now), stored_film(films.last(), now), films[k].slug);
    if k < films.len() - 1 {
        assert(t[k] == films[k]);
        assert forall|j: int| k < j < t.len() implies (#[trigger] t[j]).slug != t[k].slug by {
            assert(t[j] == films[j]);
        }
        assert(films[films.len() - 1].slug != films[k].slug);
        lemma_with_films_entry(rows, t, now, k);
    }
}

/// The rows that a read of identities returns are the rows that are asked
/// for and fresh, and no others; with one row per slug among the rows, so
/// among those returned.
pub proof fn lemma_fresh_films(
    rows: Seq<StoredFilm>,
    slugs: Seq<Seq<char>>,
    now: i64,
    ttl: i64,
)
    ensures
        forall|x: StoredFilm| #[trigger]
            fresh_films(rows, slugs, now, ttl).contains(x) <==> rows.contains(x) && slugs.contains(
                x.slug,
            ) && fresh(now, x.updated_at, ttl),
        distinct_slugs(rows) ==> distinct_slugs(fresh_films(rows, slugs, now, ttl)),
    decreases rows.len(),
{
    let r = fresh_films(rows, slugs, now, ttl);
    if rows.len() > 0 {
        let t = rows.drop_last();
        let u = fresh_films(t, slugs, now, ttl);
        let last = rows.last();
        lemma_fresh_films(t, slugs, now, ttl);
        assert(t.push(last) =~= rows);
        assert forall|x: StoredFilm| #[trigger]
            r.contains(x) <==> rows.contains(x) && slugs.contains(x.slug) && fresh(
                now,
                x.updated_at,
                ttl,
            ) by {
            if r.contains(x) {
                let k = choose|k: int| 0 <= k < r.len() && r[k] == x;
                if k < u.len() {
                    assert(u[k] == x);
                    assert(u.contains(x));
                    let i = choose|i: int| 0 <= i < t.len() && t[i] == x;
                    assert(rows[i] == x);
                } else {
                    assert(rows[rows.len() - 1] == x);
                }
            }
            if rows.contains(x) && slugs.contains(x.slug) && fresh(now, x.updated_at, ttl) {
                let i = choose|i: int| 0 <= i < rows.len() && rows[i] == x;
                if i < t.len() {
                    assert(t[i] == x);
                    assert(t.contains(x));
                    assert(u.contains(x));
                    let k = choose|k: int| 0 <= k < u.len() && u[k] == x;
                    assert(r[k] == x);
                } else {
                    assert(r[r.len() - 1] == x);
                }
            }
        }
        if distinct_slugs(rows) {
            assert(distinct_slugs(t)) by {
                assert forall|i: int, j: int| 0 <= i < j < t.len() implies (#[trigger] t[i]).slug != (
                #[trigger] t[j]).slug by {
                    assert(t[i] == rows[i] && t[j] == rows[j]);
                }
            }
            if slugs.contains(last.slug) && fresh(now, last.updated_at, ttl) {
                assert forall|i: int, j: int| 0 <= i < j < r.len() implies (#[trigger] r[i]).slug != (
                #[trigger] r[j]).slug by {
                    if j == u.len() {
                        assert(u[i] == r[i]);
                        assert(u.contains(u[i]));
                        let k = choose|k: int| 0 <= k < t.len() && t[k] == u[i];
                        assert(rows[k] == t[k]);
                        assert(rows[k].slug != rows[rows.len() - 1].slug);
                    }
                }
            }
        }
    }
}

/// A read of identities after a write returns, for the slug of an identity
/// that was written, the last identity written for the slug, while its
/// age, `later - now`, is not greater than the time to live, and holds
/// nothing for the slug once it is.
pub proof fn law_identity_read_after_write(
    rows: Seq<StoredFilm>,
    films: Seq<FilmIdentity>,
    now: i64,
    k: int,
    slugs: Seq<Seq<char>>,
    later: i64,
    ttl: i64,
)
    requires
        distinct_slugs(rows),
        0 <= k < films.len(),
        forall|j: int| k < j < films.len() ==> (#[trigger] films[j]).slug != films[k].slug,
        slugs.contains(films[k].slug),
    ensures
        ({
            let read = fresh_films(with_films(rows, films, now), slugs, later, ttl);
            &&& later - now <= ttl ==> film_entry(read, films[k].slug) == Some(
                stored_film(films[k], now),
            )
            &&& later - now > ttl ==> film_entry(read, films[k].slug) is None
        }),
{
    let written = with_films(rows, films, now);
    let read = fresh_films(written, slugs, later, ttl);
    let slug = films[k].slug;
    let row = stored_film(films[k], now);
    lemma_with_films_distinct(rows, films, now);
    lemma_with_films_entry(rows, films, now, k);
    lemma_film_entry(written, slug);
    let i = choose|i: int| 0 <= i < written.len() && #[trigger] written[i] == row && row.slug == slug;
    lemma_fresh_films(written, slugs, later, ttl);
    lemma_film_entry(read, slug);
    if later - now <= ttl {
        assert(written.contains(row));
        assert(read.contains(row));
        let j = choose|j: int| 0 <= j < read.len() && read[j] == row;
        lemma_film_entry_at(read, j);
    } else {
        match film_entry(read, slug) {
            Some(y) => {
                let j = choose|j: int| 0 <= j < read.len() && #[trigger] read[j] == y && y.slug == slug;
                assert(read.contains(y));
                assert(written.contains(y));
                let m = choose|m: int| 0 <= m < written.len() && written[m] == y;
                assert(m == i);
            },
            None => {},
        }
    }
}

/// What a write of offers leaves in place is part of what stood, in its
/// order, and holds no row of the written pair.
pub proof fn lemma_offers_kept(rows: Seq<StoredProvider>, tmdb_id: i32, country: Seq<char>)
    ensures
        forall|i: int|
            0 <= i < offers_kept(rows, tmdb_id, country).len() ==> rows.contains(
                #[trigger] offers_kept(rows, tmdb_id, country)[i],
            ) && !(offers_kept(rows, tmdb_id, country)[i].tmdb_id == tmdb_id && offers_kept(
                rows,
                tmdb_id,
                country,
            )[i].country == country),
        distinct_provider_rows(rows) ==> distinct_provider_rows(
            offers_kept(rows, tmdb_id, country),
        ),
    decreases rows.len(),
{
    let r = offers_kept(rows, tmdb_id, country);
    if rows.len() > 0 {
        let t = rows.drop_last();
        let u = offers_kept(t, tmdb_id, country);
        lemma_offers_kept(t, tmdb_id, country);
        assert forall|i: int| 0 <= i < r.len() implies rows.contains(#[trigger] r[i]) && !(
        r[i].tmdb_id == tmdb_id && r[i].country == country) by {
            if i < u.len() {
                assert(u[i] == r[i]);
                let k = choose|k: int| 0 <= k < t.len() && t[k] == u[i];
                assert(rows[k] == r[i]);
            } else {
                assert(rows[rows.len() - 1] == r[i]);
            }
        }
        if distinct_provider_rows(rows) {
            assert(distinct_provider_rows(t)) by {
                assert forall|i: int, j: int| 0 <= i < j < t.len() implies !same_offer_key(
                    #[trigger] t[i],
                    #[trigger] t[j],
                ) by {
                    assert(t[i] == rows[i] && t[j] == rows[j]);
                }
            }
            if !(rows.last().tmdb_id == tmdb_id && rows.last().country == country) {
                assert forall|i: int, j: int| 0 <= i < j < r.len() implies !same_offer_key(
                    #[trigger] r[i],
                    #[trigger] r[j],
                ) by {
                    if j == u.len() {
                        assert(u[i] == r[i]);
                        let k = choose|k: int| 0 <= k < t.len() && t[k] == u[i];
                        assert(rows[k] == t[k]);
                        assert(!same_offer_key(rows[k], rows[rows.len() - 1]));
                    }
                }
            }
        }
    }
}

/// Every row that stores the offers of a pair is a row of that pair.
pub proof fn lemma_offer_rows_of_pair(
    rows: Seq<StoredProvider>,
    tmdb_id: i32,
    country: Seq<char>,
    offers: Seq<ProviderOffer>,
    now: i64,
)
    requires
        forall|i: int| 0 <= i < rows.len() ==> (#[trigger] rows[i]).tmdb_id == tmdb_id
            && rows[i].country == country,
    ensures
        forall|i: int|
            0 <= i < with_providers(rows, tmdb_id, country, offers, now).len() ==> (
            #[trigger] with_providers(rows, tmdb_id, country, offers, now)[i]).tmdb_id == tmdb_id
                && with_providers(rows, tmdb_id, country, offers, now)[i].country == country,
    decreases offers.len(),
{
    if offers.len() > 0 {
        lemma_offer_rows_of_pair(rows, tmdb_id, country, offers.drop_last(), now);
    }
}

/// A write of offers leaves one row per film, country, provider and type.
pub proof fn lemma_providers_after_put_distinct(
    rows: Seq<StoredProvider>,
    tmdb_id: i32,
    country: Seq<char>,
    offers: Seq<ProviderOffer>,
    now: i64,
)
    requires
        distinct_provider_rows(rows),
    ensures
        distinct_provider_rows(providers_after_put(rows, tmdb_id, country, offers, now)),
{
    let kept = offers_kept(rows, tmdb_id, country);
    let added = offer_rows(tmdb_id, country, offers, now);
    let r = providers_after_put(rows, tmdb_id, country, offers, now);
    lemma_offers_kept(rows, tmdb_id, country);
    lemma_with_providers_distinct(Seq::empty(), tmdb_id, country, offers, now);
    lemma_offer_rows_of_pair(Seq::empty(), tmdb_id, country, offers, now);
    assert forall|i: int, j: int| 0 <= i < j < r.len() implies !same_offer_key(
        #[trigger] r[i],
        #[trigger] r[j],
    ) by {
        if j < kept.len() {
            assert(r[i] == kept[i] && r[j] == kept[j]);
        } else if i >= kept.len() {
            assert(r[i] == added[i - kept.len()] && r[j] == added[j - kept.len()]);
        } else {
            assert(r[i] == kept[i] && r[j] == added[j - kept.len()]);
        }
    }
}

/// A lookup in a list with one more entry finds what it found before, or
/// the new entry where it found nothing and the entry fits.
pub proof fn lemma_known_entry_push(
    s: Seq<KnownReleases>,
    x: KnownReleases,
    tmdb_id: i32,
    country: Seq<char>,
)
    ensures
        known_entry(s.push(x), tmdb_id, country) == match known_entry(s, tmdb_id, country) {
            Some(v) => Some(v),
            None => if x.tmdb_id == tmdb_id && x.releases.country == country {
                Some(x.releases)
            } else {
                None
            },
        },
    decreases s.len(),
{
    if s.len() == 0 {
        assert(s.push(x).drop_first() =~= s);
    } else {
        assert(s.push(x).drop_first() =~= s.drop_first().push(x));
        lemma_known_entry_push(s.drop_first(), x, tmdb_id, country);
    }
}

/// A pair has a fresh marker if an earlier marker of it is fresh or the
/// last marker is its own and fresh.
pub proof fn lemma_fresh_meta_last(
    metas: Seq<StoredMeta>,
    tmdb_id: i32,
    country: Seq<char>,
    now: i64,
    ttl: i64,
)
    requires
        metas.len() > 0,
    ensures
        has_fresh_meta(metas, tmdb_id, country, now, ttl) <==> has_fresh_meta(
            metas.drop_last(),
            tmdb_id,
            country,
            now,
            ttl,
        ) || (metas.last().tmdb_id == tmdb_id && metas.last().country == country && fresh(
            now,
            metas.last().cached_at,
            ttl,
        )),
{
    let t = metas.drop_last();
    if has_fresh_meta(metas, tmdb_id, country, now, ttl) {
        let i = choose|i: int|
            0 <= i < metas.len() && (#[trigger] metas[i]).tmdb_id == tmdb_id && metas[i].country
                == country && fresh(now, metas[i].cached_at, ttl);
        if i < t.len() {
            assert(t[i] == metas[i]);
        }
    }
    if has_fresh_meta(t, tmdb_id, country, now, ttl) {
        let i = choose|i: int|
            0 <= i < t.len() && (#[trigger] t[i]).tmdb_id == tmdb_id && t[i].country == country
                && fresh(now, t[i].cached_at, ttl);
        assert(metas[i] == t[i]);
    }
    if metas.last().tmdb_id == tmdb_id && metas.last().country == country && fresh(
        now,
        metas.last().cached_at,
        ttl,
    ) {
        assert(metas[metas.len() - 1] == metas.last());
    }
}

/// No two entries are for the same film and country.
pub open spec fn distinct_pairs(known: Seq<KnownReleases>) -> bool {
    forall|i: int, j: int|
        0 <= i < j < known.len() ==> !((#[trigger] known[i]).tmdb_id == (
        #[trigger] known[j]).tmdb_id && known[i].releases.country == known[j].releases.country)
}

/// No two entries are for the same film and country.
pub open spec fn distinct_offers(known: Seq<KnownProviders>) -> bool {
    forall|i: int, j: int|
        0 <= i < j < known.len() ==> !((#[trigger] known[i]).tmdb_id == (
        #[trigger] known[j]).tmdb_id && known[i].country == known[j].country)
}

/// A lookup finds nothing exactly when no entry is for the film and the
/// country.
pub proof fn lemma_known_entry_none(known: Seq<KnownReleases>, tmdb_id: i32, country: Seq<char>)
    ensures
        known_entry(known, tmdb_id, country) is None <==> forall|i: int|
            0 <= i < known.len() ==> !((#[trigger] known[i]).tmdb_id == tmdb_id
                && known[i].releases.country == country),
    decreases known.len(),
{
    if known.len() > 0 {
        let t = known.drop_first();
        lemma_known_entry_none(t, tmdb_id, country);
        if !(known[0].tmdb_id == tmdb_id && known[0].releases.country == country) {
            if forall|i: int|
                0 <= i < t.len() ==> !((#[trigger] t[i]).tmdb_id == tmdb_id
                    && t[i].releases.country == country) {
                assert forall|i: int| 0 <= i < known.len() implies !((
                #[trigger] known[i]).tmdb_id == tmdb_id && known[i].releases.country
                    == country) by {
                    if i > 0 {
                        assert(t[i - 1] == known[i]);
                    }
                }
            } else {
                let i = choose|i: int|
                    0 <= i < t.len() && (#[trigger] t[i]).tmdb_id == tmdb_id
                        && t[i].releases.country == country;
                assert(known[i + 1] == t[i]);
            }
        }
    }
}

/// A lookup finds nothing exactly when no entry is for the film and the
/// country.
pub proof fn lemma_known_offers_none(known: Seq<KnownProviders>, tmdb_id: i32, country: Seq<char>)
    ensures
        known_offers(known, tmdb_id, country) is None <==> forall|i: int|
            0 <= i < known.len() ==> !((#[trigger] known[i]).tmdb_id == tmdb_id && known[i].country
                == country),
    decreases known.len(),
{
    if known.len() > 0 {
        let t = known.drop_first();
        lemma_known_offers_none(t, tmdb_id, country);
        if !(known[0].tmdb_id == tmdb_id && known[0].country == country) {
            if forall|i: int|
                0 <= i < t.len() ==> !((#[trigger] t[i]).tmdb_id == tmdb_id && t[i].country
                    == country) {
                assert forall|i: int| 0 <= i < known.len() implies !((
                #[trigger] known[i]).tmdb_id == tmdb_id && known[i].country == country) by {
                    if i > 0 {
                        assert(t[i - 1] == known[i]);
                    }
                }
            } else {
                let i = choose|i: int|
                    0 <= i < t.len() && (#[trigger] t[i]).tmdb_id == tmdb_id && t[i].country
                        == country;
                assert(known[i + 1] == t[i]);
            }
        }
    }
}

/// A bulk read of release sets holds at most one entry per film and
/// country.
pub proof fn lemma_read_releases_distinct(
    metas: Seq<StoredMeta>,
    rows: Seq<StoredRelease>,
    requests: Seq<(i32, Seq<char>)>,
    now: i64,
    ttl: i64,
)
    ensures
        distinct_pairs(read_releases(metas, rows, requests, now, ttl)),
    decreases metas.len(),
{
    if metas.len() > 0 {
        let before = read_releases(metas.drop_last(), rows, requests, now, ttl);
        let m = metas.last();
        lemma_read_releases_distinct(metas.drop_last(), rows, requests, now, ttl);
        lemma_known_entry_none(before, m.tmdb_id, m.country);
    }
}

/// A bulk read of watch offers holds at most one entry per film and
/// country.
pub proof fn lemma_read_providers_distinct(
    metas: Seq<StoredMeta>,
    rows: Seq<StoredProvider>,
    requests: Seq<(i32, Seq<char>)>,
    now: i64,
    ttl: i64,
)
    ensures
        distinct_offers(read_providers(metas, rows, requests, now, ttl)),
    decreases metas.len(),
{
    if metas.len() > 0 {
        let before = read_providers(metas.drop_last(), rows, requests, now, ttl);
        let m = metas.last();
        lemma_read_providers_distinct(metas.drop_last(), rows, requests, now, ttl);
        lemma_known_offers_none(before, m.tmdb_id, m.country);
    }
}

/// What a bulk read holds for a film and a country: the stored set, exactly
/// when the pair is asked for and has a fresh marker.
pub proof fn lemma_read_releases(
    metas: Seq<StoredMeta>,
    rows: Seq<StoredRelease>,
    requests: Seq<(i32, Seq<char>)>,
    now: i64,
    ttl: i64,
    tmdb_id: i32,
    country: Seq<char>,
)
    ensures
        known_entry(read_releases(metas, rows, requests, now, ttl), tmdb_id, country)
            == if requests.contains((tmdb_id, country)) && has_fresh_meta(
            metas,
            tmdb_id,
            country,
            now,
            ttl,
        ) {
            Some(stored_set(rows, tmdb_id, country))
        } else {
            None
        },
    decreases metas.len(),
{
    if metas.len() > 0 {
        let t = metas.drop_last();
        let m = metas.last();
        let before = read_releases(t, rows, requests, now, ttl);
        lemma_read_releases(t, rows, requests, now, ttl, tmdb_id, country);
        lemma_read_releases(t, rows, requests, now, ttl, m.tmdb_id, m.country);
        lemma_fresh_meta_last(metas, tmdb_id, country, now, ttl);
        if fresh(now, m.cached_at, ttl) && requests.contains((m.tmdb_id, m.country)) && known_entry(
            before,
            m.tmdb_id,
            m.country,
        ) is None {
            lemma_known_entry_push(
                before,
                KnownReleases {
                    tmdb_id: m.tmdb_id,
                    releases: stored_set(rows, m.tmdb_id, m.country),
                },
                tmdb_id,
                country,
            );
        }
    }
}

/// After a marker is set, the pair it is for is fresh exactly while the new
/// time is, and every other pair is as before.
pub proof fn lemma_with_meta(
    metas: Seq<StoredMeta>,
    tmdb_id: i32,
    country: Seq<char>,
    now: i64,
    other_id: i32,
    other_country: Seq<char>,
    later: i64,
    ttl: i64,
)
    ensures
        has_fresh_meta(
            with_meta(metas, tmdb_id, country, now),
            other_id,
            other_country,
            later,
            ttl,
        ) <==> if other_id == tmdb_id && other_country == country {
            fresh(later, now, ttl)
        } else {
            has_fresh_meta(metas, other_id, other_country, later, ttl)
        },
        has_meta(with_meta(metas, tmdb_id, country, now), other_id, other_country) <==> (other_id
            == tmdb_id && other_country == country) || has_meta(metas, other_id, other_country),
{
    let r = with_meta(metas, tmdb_id, country, now);
    let same = other_id == tmdb_id && other_country == country;
    if has_meta(metas, tmdb_id, country) {
        let w = choose|i: int|
            0 <= i < metas.len() && (#[trigger] metas[i]).tmdb_id == tmdb_id && metas[i].country
                == country;
        assert(r[w].cached_at == now);
        if has_fresh_meta(r, other_id, other_country, later, ttl) {
            let i = choose|i: int|
                0 <= i < r.len() && (#[trigger] r[i]).tmdb_id == other_id && r[i].country
                    == other_country && fresh(later, r[i].cached_at, ttl);
            if !same {
                assert(metas[i] == r[i]);
            }
        }
        if !same && has_fresh_meta(metas, other_id, other_country, later, ttl) {
            let i = choose|i: int|
                0 <= i < metas.len() && (#[trigger] metas[i]).tmdb_id == other_id
                    && metas[i].country == other_country && fresh(later, metas[i].cached_at, ttl);
            assert(r[i] == metas[i]);
        }
        if same && fresh(later, now, ttl) {
            assert(r[w].tmdb_id == other_id);
        }
        if has_meta(r, other_id, other_country) {
            let i = choose|i: int|
                0 <= i < r.len() && (#[trigger] r[i]).tmdb_id == other_id && r[i].country
                    == other_country;
            if !same {
                assert(metas[i] == r[i]);
            }
        }
        if has_meta(metas, other_id, other_country) {
            let i = choose|i: int|
                0 <= i < metas.len() && (#[trigger] metas[i]).tmdb_id == other_id
                    && metas[i].country == other_country;
            assert(r[i].tmdb_id == other_id && r[i].country == other_country);
        }
        if same {
            assert(r[w].tmdb_id == other_id);
        }
    } else {
        let x = StoredMeta { tmdb_id, country, cached_at: now };
        assert(r == metas.push(x));
        assert(r[r.len() - 1] == x);
        if has_fresh_meta(r, other_id, other_country, later, ttl) {
            let i = choose|i: int|
                0 <= i < r.len() && (#[trigger] r[i]).tmdb_id == other_id && r[i].country
                    == other_country && fresh(later, r[i].cached_at, ttl);
            if i < metas.len() {
                assert(metas[i] == r[i]);
            }
        }
        if has_fresh_meta(metas, other_id, other_country, later, ttl) {
            let i = choose|i: int|
                0 <= i < metas.len() && (#[trigger] metas[i]).tmdb_id == other_id
                    && metas[i].country == other_country && fresh(later, metas[i].cached_at, ttl);
            assert(r[i] == metas[i]);
        }
        if has_meta(r, other_id, other_country) {
            let i = choose|i: int|
                0 <= i < r.len() && (#[trigger] r[i]).tmdb_id == other_id && r[i].country
                    == other_country;
            if i < metas.len() {
                assert(metas[i] == r[i]);
            }
        }
        if has_meta(metas, other_id, other_country) {
            let i = choose|i: int|
                0 <= i < metas.len() && (#[trigger] metas[i]).tmdb_id == other_id
                    && metas[i].country == other_country;
            assert(r[i] == metas[i]);
        }
    }
}

/// A country is named by the sets if it is named by all but the last or by
/// the last.
pub proof fn lemma_names_country_last(sets: Seq<CountryReleaseSet>, country: Seq<char>)
    requires
        sets.len() > 0,
    ensures
        names_country(sets, country) <==> names_country(sets.drop_last(), country)
            || sets.last().country == country,
{
    let t = sets.drop_last();
    if names_country(sets, country) {
        let i = choose|i: int| 0 <= i < sets.len() && (#[trigger] sets[i]).country == country;
        if i < t.len() {
            assert(t[i] == sets[i]);
        }
    }
    if names_country(t, country) {
        let i = choose|i: int| 0 <= i < t.len() && (#[trigger] t[i]).country == country;
        assert(sets[i] == t[i]);
    }
    if sets.last().country == country {
        assert(sets[sets.len() - 1] == sets.last());
    }
}

/// After a write, a pair of the written film whose country the write names
/// is fresh exactly while the time of writing is; every other pair is as
/// before.
pub proof fn lemma_metas_after_put(
    metas: Seq<StoredMeta>,
    tmdb_id: i32,
    sets: Seq<CountryReleaseSet>,
    now: i64,
    other_id: i32,
    other_country: Seq<char>,
    later: i64,
    ttl: i64,
)
    ensures
        has_fresh_meta(
            metas_after_put(metas, tmdb_id, sets, now),
            other_id,
            other_country,
            later,
            ttl,
        ) <==> if other_id == tmdb_id && names_country(sets, other_country) {
            fresh(later, now, ttl)
        } else {
            has_fresh_meta(metas, other_id, other_country, later, ttl)
        },
    decreases sets.len(),
{
    if sets.len() > 0 {
        let t = sets.drop_last();
        lemma_metas_after_put(metas, tmdb_id, t, now, other_id, other_country, later, ttl);
        lemma_with_meta(
            metas_after_put(metas, tmdb_id, t, now),
            tmdb_id,
            sets.last().country,
            now,
            other_id,
            other_country,
            later,
            ttl,
        );
        lemma_names_country_last(sets, other_country);
    } else {
        assert(!names_country(sets, other_country));
    }
}

/// What two lists of rows store, one behind the other, is what the first
/// stores followed by what the second stores.
pub proof fn lemma_row_entries_add(
    a: Seq<StoredRelease>,
    b: Seq<StoredRelease>,
    tmdb_id: i32,
    country: Seq<char>,
    kind: ReleaseType,
)
    ensures
        row_entries(a + b, tmdb_id, country, kind) == row_entries(a, tmdb_id, country, kind)
            + row_entries(b, tmdb_id, country, kind),
    decreases b.len(),
{
    if b.len() == 0 {
        assert(a + b =~= a);
        assert(row_entries(a, tmdb_id, country, kind) + Seq::<ReleaseEntry>::empty()
            =~= row_entries(a, tmdb_id, country, kind));
    } else {
        assert((a + b).drop_last() =~= a + b.drop_last());
        assert((a + b).last() == b.last());
        lemma_row_entries_add(a, b.drop_last(), tmdb_id, country, kind);
        let x = row_entries(a, tmdb_id, country, kind);
        let y = row_entries(b.drop_last(), tmdb_id, country, kind);
        assert forall|e: ReleaseEntry| (x + y).push(e) =~= x + y.push(e) by {}
    }
}

/// The rows that a write leaves in place store nothing for the countries it
/// names, and for every other pair what the rows stored before.
pub proof fn lemma_rows_kept_entries(
    rows: Seq<StoredRelease>,
    tmdb_id: i32,
    sets: Seq<CountryReleaseSet>,
    other_id: i32,
    other_country: Seq<char>,
    kind: ReleaseType,
)
    ensures
        row_entries(rows_kept(rows, tmdb_id, sets), other_id, other_country, kind) == if other_id
            == tmdb_id && names_country(sets, other_country) {
            Seq::<ReleaseEntry>::empty()
        } else {
            row_entries(rows, other_id, other_country, kind)
        },
    decreases rows.len(),
{
    if rows.len() > 0 {
        let t = rows.drop_last();
        lemma_rows_kept_entries(t, tmdb_id, sets, other_id, other_country, kind);
        let k = rows_kept(t, tmdb_id, sets);
        if !(rows.last().tmdb_id == tmdb_id && names_country(sets, rows.last().country)) {
            assert(k.push(rows.last()).drop_last() =~= k);
        }
    }
}

/// The entries of a kind among two lists, one behind the other, are those
/// of the first followed by those of the second.
pub proof fn lemma_of_kind_add(a: Seq<ReleaseEntry>, b: Seq<ReleaseEntry>, kind: ReleaseType)
    ensures
        of_kind(a + b, kind) == of_kind(a, kind) + of_kind(b, kind),
    decreases b.len(),
{
    if b.len() == 0 {
        assert(a + b =~= a);
        assert(of_kind(a, kind) + Seq::<ReleaseEntry>::empty() =~= of_kind(a, kind));
    } else {
        assert((a + b).drop_last() =~= a + b.drop_last());
        assert((a + b).last() == b.last());
        lemma_of_kind_add(a, b.drop_last(), kind);
        let x = of_kind(a, kind);
        let y = of_kind(b.drop_last(), kind);
        assert forall|e: ReleaseEntry| (x + y).push(e) =~= x + y.push(e) by {}
    }
}

/// Of a list whose entries are all of one kind, the entries of that kind
/// are the whole list, and those of the other kind are none.
pub proof fn lemma_of_kind_pure(s: Seq<ReleaseEntry>, kind: ReleaseType, asked: ReleaseType)
    requires
        all_of_kind(s, kind),
    ensures
        of_kind(s, asked) == if kind == asked {
            s
        } else {
            Seq::<ReleaseEntry>::empty()
        },
    decreases s.len(),
{
    if s.len() > 0 {
        let t = s.drop_last();
        assert forall|i: int| 0 <= i < t.len() implies (#[trigger] t[i]).kind == kind by {
            assert(t[i] == s[i]);
        }
        assert(s[s.len() - 1].kind == kind);
        lemma_of_kind_pure(t, kind, asked);
        assert(t.push(s.last()) =~= s);
    }
}

/// The rows of a list of entries store, for their own film and country, the
/// entries of the asked kind, and for any other pair nothing.
pub proof fn lemma_entry_rows_entries(
    tmdb_id: i32,
    country: Seq<char>,
    entries: Seq<ReleaseEntry>,
    now: i64,
    other_id: i32,
    other_country: Seq<char>,
    kind: ReleaseType,
)
    ensures
        row_entries(entry_rows(tmdb_id, country, entries, now), other_id, other_country, kind)
            == if other_id == tmdb_id && other_country == country {
            of_kind(entries, kind)
        } else {
            Seq::<ReleaseEntry>::empty()
        },
    decreases entries.len(),
{
    let rows = entry_rows(tmdb_id, country, entries, now);
    if entries.len() > 0 {
        let t = entries.drop_last();
        assert(rows.drop_last() =~= entry_rows(tmdb_id, country, t, now));
        lemma_entry_rows_entries(tmdb_id, country, t, now, other_id, other_country, kind);
        let e = entries.last();
        assert(rows.last() == stored_release(tmdb_id, country, e, now));
        e.kind.lemma_code_round_trip(kind.code());
    }
}

/// The rows of a write store, for the written film, the written entries of
/// each country, and nothing for any other film.
pub proof fn lemma_sets_rows_entries(
    tmdb_id: i32,
    sets: Seq<CountryReleaseSet>,
    now: i64,
    other_id: i32,
    other_country: Seq<char>,
    kind: ReleaseType,
)
    ensures
        row_entries(sets_rows(tmdb_id, sets, now), other_id, other_country, kind) == if other_id
            == tmdb_id {
            written_entries(sets, other_country, kind)
        } else {
            Seq::<ReleaseEntry>::empty()
        },
    decreases sets.len(),
{
    if sets.len() > 0 {
        let t = sets.drop_last();
        let last = sets.last();
        lemma_sets_rows_entries(tmdb_id, t, now, other_id, other_country, kind);
        lemma_row_entries_add(
            sets_rows(tmdb_id, t, now),
            set_rows(tmdb_id, last, now),
            other_id,
            other_country,
            kind,
        );
        lemma_entry_rows_entries(
            tmdb_id,
            last.country,
            storable(last.theatrical + last.streaming),
            now,
            other_id,
            other_country,
            kind,
        );
        let x = row_entries(sets_rows(tmdb_id, t, now), other_id, other_country, kind);
        assert(x + Seq::<ReleaseEntry>::empty() =~= x);
    }
}

/// For a country that the sets name once, the written entries are those of
/// that one set.
pub proof fn lemma_written_entries_single(
    sets: Seq<CountryReleaseSet>,
    k: int,
    kind: ReleaseType,
)
    requires
        0 <= k < sets.len(),
        forall|j: int| 0 <= j < sets.len() && j != k ==> (#[trigger] sets[j]).country
            != sets[k].country,
    ensures
        written_entries(sets, sets[k].country, kind) == of_kind(
            storable(sets[k].theatrical + sets[k].streaming),
            kind,
        ),
    decreases sets.len(),
{
    let t = sets.drop_last();
    let c = sets[k].country;
    if k == sets.len() - 1 {
        assert forall|j: int| 0 <= j < t.len() implies (#[trigger] t[j]).country != c by {
            assert(t[j] == sets[j]);
        }
        lemma_written_entries_none(t, c, kind);
        let y = of_kind(storable(sets[k].theatrical + sets[k].streaming), kind);
        assert(Seq::<ReleaseEntry>::empty() + y =~= y);
    } else {
        assert(t[k] == sets[k]);
        assert forall|j: int| 0 <= j < t.len() && j != k implies (#[trigger] t[j]).country
            != t[k].country by {
            assert(t[j] == sets[j]);
        }
        assert(sets[sets.len() - 1].country != c);
        lemma_written_entries_single(t, k, kind);
    }
}

/// For a country that no set names, nothing is written.
pub proof fn lemma_written_entries_none(
    sets: Seq<CountryReleaseSet>,
    country: Seq<char>,
    kind: ReleaseType,
)
    requires
        forall|j: int| 0 <= j < sets.len() ==> (#[trigger] sets[j]).country != country,
    ensures
        written_entries(sets, country, kind) == Seq::<ReleaseEntry>::empty(),
    decreases sets.len(),
{
    if sets.len() > 0 {
        let t = sets.drop_last();
        assert forall|j: int| 0 <= j < t.len() implies (#[trigger] t[j]).country != country by {
            assert(t[j] == sets[j]);
        }
        assert(sets[sets.len() - 1].country != country);
        lemma_written_entries_none(t, country, kind);
    }
}

/// No two offers are by the same provider under the same type.
pub open spec fn distinct_offer_keys(offers: Seq<ProviderOffer>) -> bool {
    forall|i: int, j: int|
        0 <= i < j < offers.len() ==> !((#[trigger] offers[i]).provider_id == (
        #[trigger] offers[j]).provider_id && offers[i].provider_type == offers[j].provider_type)
}

/// One row for each of `offers`, in order.
pub open spec fn plain_offer_rows(
    tmdb_id: i32,
    country: Seq<char>,
    offers: Seq<ProviderOffer>,
    now: i64,
) -> Seq<StoredProvider> {
    Seq::new(offers.len(), |i: int| stored_provider(tmdb_id, country, offers[i], now))
}

/// A lookup in a list with one more entry finds what it found before, or
/// the new entry where it found nothing and the entry fits.
pub proof fn lemma_known_offers_push(
    s: Seq<KnownProviders>,
    x: KnownProviders,
    tmdb_id: i32,
    country: Seq<char>,
)
    ensures
        known_offers(s.push(x), tmdb_id, country) == match known_offers(s, tmdb_id, country) {
            Some(v) => Some(v),
            None => if x.tmdb_id == tmdb_id && x.country == country {
                Some(x.providers)
            } else {
                None
            },
        },
    decreases s.len(),
{
    if s.len() == 0 {
        assert(s.push(x).drop_first() =~= s);
    } else {
        assert(s.push(x).drop_first() =~= s.drop_first().push(x));
        lemma_known_offers_push(s.drop_first(), x, tmdb_id, country);
    }
}

/// What a bulk read holds for a film and a country: the stored offers,
/// exactly when the pair is asked for and has a fresh marker.
pub proof fn lemma_read_providers(
    metas: Seq<StoredMeta>,
    rows: Seq<StoredProvider>,
    requests: Seq<(i32, Seq<char>)>,
    now: i64,
    ttl: i64,
    tmdb_id: i32,
    country: Seq<char>,
)
    ensures
        known_offers(read_providers(metas, rows, requests, now, ttl), tmdb_id, country)
            == if requests.contains((tmdb_id, country)) && has_fresh_meta(
            metas,
            tmdb_id,
            country,
            now,
            ttl,
        ) {
            Some(row_offers(rows, tmdb_id, country))
        } else {
            None
        },
    decreases metas.len(),
{
    if metas.len() > 0 {
        let t = metas.drop_last();
        let m = metas.last();
        let before = read_providers(t, rows, requests, now, ttl);
        lemma_read_providers(t, rows, requests, now, ttl, tmdb_id, country);
        lemma_read_providers(t, rows, requests, now, ttl, m.tmdb_id, m.country);
        lemma_fresh_meta_last(metas, tmdb_id, country, now, ttl);
        if fresh(now, m.cached_at, ttl) && requests.contains((m.tmdb_id, m.country))
            && known_offers(before, m.tmdb_id, m.country) is None {
            lemma_known_offers_push(
                before,
                KnownProviders {
                    tmdb_id: m.tmdb_id,
                    country: m.country,
                    providers: row_offers(rows, m.tmdb_id, m.country),
                },
                tmdb_id,
                country,
            );
        }
    }
}

/// What two lists of rows store, one behind the other, is what the first
/// stores followed by what the second stores.
pub proof fn lemma_row_offers_add(
    a: Seq<StoredProvider>,
    b: Seq<StoredProvider>,
    tmdb_id: i32,
    country: Seq<char>,
)
    ensures
        row_offers(a + b, tmdb_id, country) == row_offers(a, tmdb_id, country) + row_offers(
            b,
            tmdb_id,
            country,
        ),
    decreases b.len(),
{
    if b.len() == 0 {
        assert(a + b =~= a);
        assert(row_offers(a, tmdb_id, country) + Seq::<ProviderOffer>::empty() =~= row_offers(
            a,
            tmdb_id,
            country,
        ));
    } else {
        assert((a + b).drop_last() =~= a + b.drop_last());
        assert((a + b).last() == b.last());
        lemma_row_offers_add(a, b.drop_last(), tmdb_id, country);
        let x = row_offers(a, tmdb_id, country);
        let y = row_offers(b.drop_last(), tmdb_id, country);
        assert forall|e: ProviderOffer| (x + y).push(e) =~= x + y.push(e) by {}
    }
}

/// The rows that a write of offers leaves in place store nothing for the
/// written pair.
pub proof fn lemma_offers_kept_offers(rows: Seq<StoredProvider>, tmdb_id: i32, country: Seq<char>)
    ensures
        row_offers(offers_kept(rows, tmdb_id, country), tmdb_id, country) == Seq::<
            ProviderOffer,
        >::empty(),
    decreases rows.len(),
{
    if rows.len() > 0 {
        let t = rows.drop_last();
        lemma_offers_kept_offers(t, tmdb_id, country);
        let k = offers_kept(t, tmdb_id, country);
        if !(rows.last().tmdb_id == tmdb_id && rows.last().country == country) {
            assert(k.push(rows.last()).drop_last() =~= k);
        }
    }
}

/// Offers by different providers or under different types are stored one
/// row each, in order.
pub proof fn lemma_offer_rows_plain(
    tmdb_id: i32,
    country: Seq<char>,
    offers: Seq<ProviderOffer>,
    now: i64,
)
    requires
        distinct_offer_keys(offers),
    ensures
        offer_rows(tmdb_id, country, offers, now) == plain_offer_rows(tmdb_id, country, offers, now),
    decreases offers.len(),
{
    if offers.len() > 0 {
        let t = offers.drop_last();
        let last = offers.last();
        assert(distinct_offer_keys(t)) by {
            assert forall|i: int, j: int| 0 <= i < j < t.len() implies !((
            #[trigger] t[i]).provider_id == (#[trigger] t[j]).provider_id && t[i].provider_type
                == t[j].provider_type) by {
                assert(t[i] == offers[i] && t[j] == offers[j]);
            }
        }
        lemma_offer_rows_plain(tmdb_id, country, t, now);
        let before = plain_offer_rows(tmdb_id, country, t, now);
        let row = stored_provider(tmdb_id, country, last, now);
        assert forall|i: int| 0 <= i < before.len() implies !same_offer_key(
            #[trigger] before[i],
            row,
        ) by {
            assert(offers[i] == t[i]);
            assert(offers[offers.len() - 1] == last);
            assert(!(offers[i].provider_id == last.provider_id && offers[i].provider_type
                == last.provider_type));
        }
        assert(before.push(row) =~= plain_offer_rows(tmdb_id, country, offers, now));
    } else {
        assert(offer_rows(tmdb_id, country, offers, now) =~= plain_offer_rows(
            tmdb_id,
            country,
            offers,
            now,
        ));
    }
}

/// One row for each offer stores, for the pair, the offers themselves.
pub proof fn lemma_plain_rows_offers(
    tmdb_id: i32,
    country: Seq<char>,
    offers: Seq<ProviderOffer>,
    now: i64,
)
    ensures
        row_offers(plain_offer_rows(tmdb_id, country, offers, now), tmdb_id, country) == offers,
    decreases offers.len(),
{
    let rows = plain_offer_rows(tmdb_id, country, offers, now);
    if offers.len() > 0 {
        let t = offers.drop_last();
        assert(rows.drop_last() =~= plain_offer_rows(tmdb_id, country, t, now));
        lemma_plain_rows_offers(tmdb_id, country, t, now);
        assert(rows.last() == stored_provider(tmdb_id, country, offers.last(), now));
        assert(row_offer(rows.last()) == Some(offers.last()));
        assert(t.push(offers.last()) =~= offers);
    } else {
        assert(offers =~= Seq::<ProviderOffer>::empty());
    }
}

/// A read after a write of offers returns the offers that were written, as
/// they were written, while their age, `later - now`, is not greater than
/// the time to live, and holds nothing for the pair once it is. This holds
/// of offers of which no two are by one provider under one type; of such
/// two, the first is stored with the content of the last.
pub proof fn law_offers_read_after_write(
    metas: Seq<StoredMeta>,
    rows: Seq<StoredProvider>,
    tmdb_id: i32,
    country: Seq<char>,
    offers: Seq<ProviderOffer>,
    now: i64,
    requests: Seq<(i32, Seq<char>)>,
    later: i64,
    ttl: i64,
)
    requires
        requests.contains((tmdb_id, country)),
        distinct_offer_keys(offers),
    ensures
        ({
            let read = read_providers(
                with_meta(metas, tmdb_id, country, now),
                providers_after_put(rows, tmdb_id, country, offers, now),
                requests,
                later,
                ttl,
            );
            &&& later - now <= ttl ==> known_offers(read, tmdb_id, country) == Some(offers)
            &&& later - now > ttl ==> known_offers(read, tmdb_id, country) is None
        }),
{
    let kept = offers_kept(rows, tmdb_id, country);
    let added = offer_rows(tmdb_id, country, offers, now);
    lemma_read_providers(
        with_meta(metas, tmdb_id, country, now),
        providers_after_put(rows, tmdb_id, country, offers, now),
        requests,
        later,
        ttl,
        tmdb_id,
        country,
    );
    lemma_with_meta(metas, tmdb_id, country, now, tmdb_id, country, later, ttl);
    lemma_row_offers_add(kept, added, tmdb_id, country);
    lemma_offers_kept_offers(rows, tmdb_id, country);
    lemma_offer_rows_plain(tmdb_id, country, offers, now);
    lemma_plain_rows_offers(tmdb_id, country, offers, now);
    assert(Seq::<ProviderOffer>::empty() + offers =~= offers);
}

/// What gets stored of a list holds no entry twice and nothing synthetic,
/// and is the list itself where the list is such already.
pub proof fn lemma_storable(list: Seq<ReleaseEntry>)
    ensures
        storable(list).no_duplicates(),
        mock_free(storable(list)),
        forall|e: ReleaseEntry| #[trigger]
            storable(list).contains(e) <==> list.contains(e) && !is_mock(e),
        mock_free(list) && list.no_duplicates() ==> storable(list) == list,
    decreases list.len(),
{
    let r = storable(list);
    if list.len() > 0 {
        let t = list.drop_last();
        let x = list.last();
        let u = storable(t);
        lemma_storable(t);
        assert(t.push(x) =~= list);
        assert forall|e: ReleaseEntry| #[trigger]
            r.contains(e) <==> list.contains(e) && !is_mock(e) by {
            if r.contains(e) {
                let k = choose|k: int| 0 <= k < r.len() && r[k] == e;
                if k < u.len() {
                    assert(u[k] == e);
                    assert(u.contains(e));
                    let i = choose|i: int| 0 <= i < t.len() && t[i] == e;
                    assert(list[i] == e);
                } else {
                    assert(list[list.len() - 1] == e);
                }
            }
            if list.contains(e) && !is_mock(e) {
                let i = choose|i: int| 0 <= i < list.len() && list[i] == e;
                if i < t.len() {
                    assert(t[i] == e);
                    assert(t.contains(e));
                    assert(u.contains(e));
                    let k = choose|k: int| 0 <= k < u.len() && u[k] == e;
                    assert(r[k] == e);
                } else if u.contains(e) {
                } else {
                    assert(r[r.len() - 1] == e);
                }
            }
        }
        if !(is_mock(x) || u.contains(x)) {
            assert forall|i: int, j: int| 0 <= i < j < r.len() implies r[i] != r[j] by {
                if j == u.len() {
                    assert(u[i] == r[i]);
                    assert(u.contains(r[i]));
                }
            }
            assert forall|i: int| 0 <= i < r.len() implies !is_mock(#[trigger] r[i]) by {
                if i < u.len() {
                    assert(r[i] == u[i]);
                }
            }
        }
        if mock_free(list) && list.no_duplicates() {
            assert forall|i: int| 0 <= i < t.len() implies !is_mock(#[trigger] t[i]) by {
                assert(t[i] == list[i]);
            }
            assert(t.no_duplicates());
            assert(!is_mock(list[list.len() - 1]));
            if t.contains(x) {
                let i = choose|i: int| 0 <= i < t.len() && t[i] == x;
                assert(list[i] == list[list.len() - 1]);
            }
        }
    }
}

/// The entries of one kind among a list without repeats are without
/// repeats, and are entries of the list.
pub proof fn lemma_of_kind_members(s: Seq<ReleaseEntry>, kind: ReleaseType)
    ensures
        forall|e: ReleaseEntry| #[trigger] of_kind(s, kind).contains(e) ==> s.contains(e),
        s.no_duplicates() ==> of_kind(s, kind).no_duplicates(),
    decreases s.len(),
{
    let r = of_kind(s, kind);
    if s.len() > 0 {
        let t = s.drop_last();
        let u = of_kind(t, kind);
        lemma_of_kind_members(t, kind);
        assert forall|e: ReleaseEntry| #[trigger] r.contains(e) implies s.contains(e) by {
            let k = choose|k: int| 0 <= k < r.len() && r[k] == e;
            if k < u.len() {
                assert(u[k] == e);
                assert(u.contains(e));
                let i = choose|i: int| 0 <= i < t.len() && t[i] == e;
                assert(s[i] == e);
            } else {
                assert(s[s.len() - 1] == e);
            }
        }
        if s.no_duplicates() {
            assert(t.no_duplicates());
            if s.last().kind == kind {
                assert forall|i: int, j: int| 0 <= i < j < r.len() implies r[i] != r[j] by {
                    if j == u.len() {
                        assert(u[i] == r[i]);
                        assert(u.contains(r[i]));
                        let k = choose|k: int| 0 <= k < t.len() && t[k] == r[i];
                        assert(s[k] == t[k]);
                    }
                }
            }
        }
    }
}

/// A well-formed set is stored as it is.
pub proof fn lemma_written_form_of_well_formed(set: CountryReleaseSet)
    requires
        well_formed(set),
    ensures
        written_form(set) == set,
{
    let all = set.theatrical + set.streaming;
    assert(all.no_duplicates()) by {
        assert forall|i: int, j: int| 0 <= i < j < all.len() implies all[i] != all[j] by {
            if i < set.theatrical.len() && j >= set.theatrical.len() {
                assert(all[i] == set.theatrical[i]);
                assert(all[j] == set.streaming[j - set.theatrical.len()]);
            }
        }
    }
    assert(mock_free(all));
    lemma_storable(all);
    lemma_of_kind_add(set.theatrical, set.streaming, ReleaseType::Theatrical);
    lemma_of_kind_add(set.theatrical, set.streaming, ReleaseType::Digital);
    lemma_of_kind_pure(set.theatrical, ReleaseType::Theatrical, ReleaseType::Theatrical);
    lemma_of_kind_pure(set.theatrical, ReleaseType::Theatrical, ReleaseType::Digital);
    lemma_of_kind_pure(set.streaming, ReleaseType::Digital, ReleaseType::Theatrical);
    lemma_of_kind_pure(set.streaming, ReleaseType::Digital, ReleaseType::Digital);
    assert(set.theatrical + Seq::<ReleaseEntry>::empty() =~= set.theatrical);
    assert(Seq::<ReleaseEntry>::empty() + set.streaming =~= set.streaming);
    lemma_sort_of_ordered(set.theatrical, by_date());
    lemma_sort_of_ordered(set.streaming, by_date());
}

/// What a write leaves of two lists of rows, one behind the other, is what
/// it leaves of the first followed by what it leaves of the second.
pub proof fn lemma_rows_kept_add(
    a: Seq<StoredRelease>,
    b: Seq<StoredRelease>,
    tmdb_id: i32,
    sets: Seq<CountryReleaseSet>,
)
    ensures
        rows_kept(a + b, tmdb_id, sets) == rows_kept(a, tmdb_id, sets) + rows_kept(
            b,
            tmdb_id,
            sets,
        ),
    decreases b.len(),
{
    if b.len() == 0 {
        assert(a + b =~= a);
        assert(rows_kept(a, tmdb_id, sets) + Seq::<StoredRelease>::empty() =~= rows_kept(
            a,
            tmdb_id,
            sets,
        ));
    } else {
        assert((a + b).drop_last() =~= a + b.drop_last());
        assert((a + b).last() == b.last());
        lemma_rows_kept_add(a, b.drop_last(), tmdb_id, sets);
        let x = rows_kept(a, tmdb_id, sets);
        let y = rows_kept(b.drop_last(), tmdb_id, sets);
        assert forall|e: StoredRelease| (x + y).push(e) =~= x + y.push(e) by {}
    }
}

/// Of the rows that a write leaves in place, the same write leaves all.
pub proof fn lemma_rows_kept_twice(
    rows: Seq<StoredRelease>,
    tmdb_id: i32,
    sets: Seq<CountryReleaseSet>,
)
    ensures
        rows_kept(rows_kept(rows, tmdb_id, sets), tmdb_id, sets) == rows_kept(rows, tmdb_id, sets),
    decreases rows.len(),
{
    if rows.len() > 0 {
        let t = rows.drop_last();
        lemma_rows_kept_twice(t, tmdb_id, sets);
        let k = rows_kept(t, tmdb_id, sets);
        if !(rows.last().tmdb_id == tmdb_id && names_country(sets, rows.last().country)) {
            assert(k.push(rows.last()).drop_last() =~= k);
        }
    }
}

/// A write leaves none of the rows of a country that it names.
pub proof fn lemma_rows_kept_of_entry_rows(
    tmdb_id: i32,
    country: Seq<char>,
    entries: Seq<ReleaseEntry>,
    now: i64,
    sets: Seq<CountryReleaseSet>,
)
    requires
        names_country(sets, country),
    ensures
        rows_kept(entry_rows(tmdb_id, country, entries, now), tmdb_id, sets) == Seq::<
            StoredRelease,
        >::empty(),
    decreases entries.len(),
{
    let rows = entry_rows(tmdb_id, country, entries, now);
    if entries.len() > 0 {
        assert(rows.drop_last() =~= entry_rows(tmdb_id, country, entries.drop_last(), now));
        lemma_rows_kept_of_entry_rows(tmdb_id, country, entries.drop_last(), now, sets);
    }
}

/// A write leaves none of the rows that store sets of countries that it
/// names.
pub proof fn lemma_rows_kept_of_written(
    tmdb_id: i32,
    written: Seq<CountryReleaseSet>,
    now: i64,
    sets: Seq<CountryReleaseSet>,
)
    requires
        forall|i: int| 0 <= i < written.len() ==> names_country(sets, (#[trigger] written[i]).country),
    ensures
        rows_kept(sets_rows(tmdb_id, written, now), tmdb_id, sets) == Seq::<StoredRelease>::empty(),
    decreases written.len(),
{
    if written.len() > 0 {
        let t = written.drop_last();
        let last = written.last();
        assert forall|i: int| 0 <= i < t.len() implies names_country(
            sets,
            (#[trigger] t[i]).country,
        ) by {
            assert(t[i] == written[i]);
        }
        assert(written[written.len() - 1] == last);
        lemma_rows_kept_of_written(tmdb_id, t, now, sets);
        lemma_rows_kept_of_entry_rows(
            tmdb_id,
            last.country,
            storable(last.theatrical + last.streaming),
            now,
            sets,
        );
        lemma_rows_kept_add(sets_rows(tmdb_id, t, now), set_rows(tmdb_id, last, now), tmdb_id, sets);
        assert(Seq::<StoredRelease>::empty() + Seq::<StoredRelease>::empty() =~= Seq::<
            StoredRelease,
        >::empty());
    }
}

/// What the rows store for a country after a write that names the country
/// once: the written form of the set.
pub proof fn lemma_stored_after_put(
    rows: Seq<StoredRelease>,
    tmdb_id: i32,
    sets: Seq<CountryReleaseSet>,
    now: i64,
    k: int,
)
    requires
        0 <= k < sets.len(),
        forall|j: int| 0 <= j < sets.len() && j != k ==> (#[trigger] sets[j]).country
            != sets[k].country,
    ensures
        stored_set(rows_after_put(rows, tmdb_id, sets, now), tmdb_id, sets[k].country)
            == written_form(sets[k]),
{
    let c = sets[k].country;
    assert(names_country(sets, c));
    let kept = rows_kept(rows, tmdb_id, sets);
    let added = sets_rows(tmdb_id, sets, now);
    lemma_row_entries_add(kept, added, tmdb_id, c, ReleaseType::Theatrical);
    lemma_row_entries_add(kept, added, tmdb_id, c, ReleaseType::Digital);
    lemma_rows_kept_entries(rows, tmdb_id, sets, tmdb_id, c, ReleaseType::Theatrical);
    lemma_rows_kept_entries(rows, tmdb_id, sets, tmdb_id, c, ReleaseType::Digital);
    lemma_sets_rows_entries(tmdb_id, sets, now, tmdb_id, c, ReleaseType::Theatrical);
    lemma_sets_rows_entries(tmdb_id, sets, now, tmdb_id, c, ReleaseType::Digital);
    lemma_written_entries_single(sets, k, ReleaseType::Theatrical);
    lemma_written_entries_single(sets, k, ReleaseType::Digital);
    let t = written_entries(sets, c, ReleaseType::Theatrical);
    let s = written_entries(sets, c, ReleaseType::Digital);
    assert(Seq::<ReleaseEntry>::empty() + t =~= t);
    assert(Seq::<ReleaseEntry>::empty() + s =~= s);
}

/// A read after a write returns the set that was written while its age,
/// `later - now`, is not greater than the time to live, and holds nothing for
/// the pair once it is. The set comes back in its written form: the storable
/// entries of each kind, sorted by date; a well-formed set comes back as it
/// was written.
///
/// This holds of a set whose country the write names once.
pub proof fn law_read_after_write(
    metas: Seq<StoredMeta>,
    rows: Seq<StoredRelease>,
    tmdb_id: i32,
    sets: Seq<CountryReleaseSet>,
    now: i64,
    k: int,
    requests: Seq<(i32, Seq<char>)>,
    later: i64,
    ttl: i64,
)
    requires
        0 <= k < sets.len(),
        forall|j: int| 0 <= j < sets.len() && j != k ==> (#[trigger] sets[j]).country
            != sets[k].country,
        requests.contains((tmdb_id, sets[k].country)),
    ensures
        ({
            let read = read_releases(
                metas_after_put(metas, tmdb_id, sets, now),
                rows_after_put(rows, tmdb_id, sets, now),
                requests,
                later,
                ttl,
            );
            &&& later - now <= ttl ==> known_entry(read, tmdb_id, sets[k].country) == Some(
                written_form(sets[k]),
            )
            &&& later - now > ttl ==> known_entry(read, tmdb_id, sets[k].country) is None
        }),
        well_formed(sets[k]) ==> written_form(sets[k]) == sets[k],
{
    let c = sets[k].country;
    assert(names_country(sets, c));
    lemma_read_releases(
        metas_after_put(metas, tmdb_id, sets, now),
        rows_after_put(rows, tmdb_id, sets, now),
        requests,
        later,
        ttl,
        tmdb_id,
        c,
    );
    lemma_metas_after_put(metas, tmdb_id, sets, now, tmdb_id, c, later, ttl);
    lemma_stored_after_put(rows, tmdb_id, sets, now, k);
    if well_formed(sets[k]) {
        lemma_written_form_of_well_formed(sets[k]);
    }
}

/// Writing the same sets twice leaves the release rows as a single write
/// does, and every later read finds for every film and country what it
/// finds after a single write.
pub proof fn law_write_twice_is_write_once(
    metas: Seq<StoredMeta>,
    rows: Seq<StoredRelease>,
    tmdb_id: i32,
    sets: Seq<CountryReleaseSet>,
    first: i64,
    second: i64,
    requests: Seq<(i32, Seq<char>)>,
    later: i64,
    ttl: i64,
    other_id: i32,
    other_country: Seq<char>,
)
    ensures
        rows_after_put(rows_after_put(rows, tmdb_id, sets, first), tmdb_id, sets, second)
            == rows_after_put(rows, tmdb_id, sets, second),
        known_entry(
            read_releases(
                metas_after_put(
                    metas_after_put(metas, tmdb_id, sets, first),
                    tmdb_id,
                    sets,
                    second,
                ),
                rows_after_put(rows_after_put(rows, tmdb_id, sets, first), tmdb_id, sets, second),
                requests,
                later,
                ttl,
            ),
            other_id,
            other_country,
        ) == known_entry(
            read_releases(
                metas_after_put(metas, tmdb_id, sets, second),
                rows_after_put(rows, tmdb_id, sets, second),
                requests,
                later,
                ttl,
            ),
            other_id,
            other_country,
        ),
{
    let kept = rows_kept(rows, tmdb_id, sets);
    let added = sets_rows(tmdb_id, sets, first);
    lemma_rows_kept_add(kept, added, tmdb_id, sets);
    lemma_rows_kept_twice(rows, tmdb_id, sets);
    assert forall|i: int| 0 <= i < sets.len() implies names_country(
        sets,
        (#[trigger] sets[i]).country,
    ) by {}
    lemma_rows_kept_of_written(tmdb_id, sets, first, sets);
    assert(kept + Seq::<StoredRelease>::empty() =~= kept);
    let once = metas_after_put(metas, tmdb_id, sets, second);
    let mid = metas_after_put(metas, tmdb_id, sets, first);
    let twice = metas_after_put(mid, tmdb_id, sets, second);
    lemma_metas_after_put(metas, tmdb_id, sets, second, other_id, other_country, later, ttl);
    lemma_metas_after_put(metas, tmdb_id, sets, first, other_id, other_country, later, ttl);
    lemma_metas_after_put(mid, tmdb_id, sets, second, other_id, other_country, later, ttl);
    let rows_twice = rows_after_put(
        rows_after_put(rows, tmdb_id, sets, first),
        tmdb_id,
        sets,
        second,
    );
    lemma_read_releases(twice, rows_twice, requests, later, ttl, other_id, other_country);
    lemma_read_releases(
        once,
        rows_after_put(rows, tmdb_id, sets, second),
        requests,
        later,
        ttl,
        other_id,
        other_country,
    );
}

/// No list that is stored, and none that is read back, holds two entries
/// with the same date, kind and note; and what is read back is sorted by
/// date.
pub proof fn law_stored_lists_hold_no_entry_twice(set: CountryReleaseSet)
    ensures
        storable(set.theatrical + set.streaming).no_duplicates(),
        written_form(set).theatrical.no_duplicates(),
        written_form(set).streaming.no_duplicates(),
        canonical(written_form(set).theatrical),
        canonical(written_form(set).streaming),
{
    let entries = storable(set.theatrical + set.streaming);
    lemma_storable(set.theatrical + set.streaming);
    lemma_by_date_total();
    lemma_sorted_without_repeats(of_kind(entries, ReleaseType::Theatrical), entries);
    lemma_sorted_without_repeats(of_kind(entries, ReleaseType::Digital), entries);
    lemma_of_kind_members(entries, ReleaseType::Theatrical);
    lemma_of_kind_members(entries, ReleaseType::Digital);
}

/// The entries of one kind among a list without repeats, sorted by date,
/// are ordered and without repeats.
pub proof fn lemma_sorted_without_repeats(s: Seq<ReleaseEntry>, from: Seq<ReleaseEntry>)
    requires
        from.no_duplicates(),
        s == of_kind(from, ReleaseType::Theatrical) || s == of_kind(from, ReleaseType::Digital),
    ensures
        stable_sort(s, by_date()).no_duplicates(),
        ordered(stable_sort(s, by_date()), by_date()),
{
    lemma_of_kind_members(from, ReleaseType::Theatrical);
    lemma_of_kind_members(from, ReleaseType::Digital);
    lemma_by_date_total();
    lemma_sort_properties(s, by_date());
    s.lemma_multiset_has_no_duplicates();
    stable_sort(s, by_date()).lemma_multiset_has_no_duplicates_conv();
}

} // verus!
