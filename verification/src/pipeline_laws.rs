//! The order of completion has no say in the result of a run.
//!
//! What is resolved and fetched for a run is handed to its transitions in
//! the order in which it was completed. The laws of this file show that
//! this order decides nothing: lists of the same answers, one per film, give
//! the same results. For the resolution of identities the law is
//! [`crate::processor::law_order_of_resolution_has_no_say`].

use crate::cache::{known_offers, KnownProviders};
use crate::cache_laws::{distinct_offers, lemma_known_offers_none};
use crate::fallback::{fallback_tiers, known_entry, release_data, resolve_tiers, KnownReleases};
use crate::models::{CountryReleaseSet, FilmResult};
use crate::pipeline::{
    answered_films, attached, entries_of, fresh_entries, has_fetch, kept_sets, Fetched,
};
use crate::processor::{film_results, Identified};
use crate::releases::country_entry;
use vstd::prelude::*;

verus! {

/// No two fetches are for the same film.
pub open spec fn distinct_fetches(fetched: Seq<Fetched>) -> bool {
    forall|i: int, j: int|
        0 <= i < j < fetched.len() ==> (#[trigger] fetched[i]).tmdb_id != (
        #[trigger] fetched[j]).tmdb_id
}

/// A lookup in two lists, one behind the other, finds what it finds in the
/// first, and otherwise what it finds in the second.
pub proof fn lemma_known_entry_add(
    a: Seq<KnownReleases>,
    b: Seq<KnownReleases>,
    tmdb_id: i32,
    country: Seq<char>,
)
    ensures
        known_entry(a + b, tmdb_id, country) == match known_entry(a, tmdb_id, country) {
            Some(v) => Some(v),
            None => known_entry(b, tmdb_id, country),
        },
    decreases a.len(),
{
    if a.len() == 0 {
        assert(a + b =~= b);
    } else {
        assert((a + b).drop_first() =~= a.drop_first() + b);
        lemma_known_entry_add(a.drop_first(), b, tmdb_id, country);
    }
}

/// A lookup among the sets of one film finds the first set of the country,
/// and nothing for any other film.
pub proof fn lemma_entries_of_entry(
    owner: i32,
    sets: Seq<CountryReleaseSet>,
    tmdb_id: i32,
    country: Seq<char>,
)
    ensures
        known_entry(entries_of(owner, sets), tmdb_id, country) == if owner == tmdb_id {
            country_entry(sets, country)
        } else {
            None
        },
    decreases sets.len(),
{
    if sets.len() > 0 {
        assert(entries_of(owner, sets).drop_first() =~= entries_of(owner, sets.drop_first()));
        lemma_entries_of_entry(owner, sets.drop_first(), tmdb_id, country);
    }
}

/// Among fetches of which no two are for one film, what the fetched data
/// holds for a film and a country is what the film's own fetch holds for
/// the country, and nothing where the film has no fetch.
pub proof fn lemma_fresh_entry(
    groups: Seq<(i32, Seq<Seq<char>>)>,
    fetched: Seq<Fetched>,
    tmdb_id: i32,
    country: Seq<char>,
)
    requires
        distinct_fetches(fetched),
    ensures
        forall|k: int|
            0 <= k < fetched.len() && (#[trigger] fetched[k]).tmdb_id == tmdb_id ==> known_entry(
                fresh_entries(groups, fetched),
                tmdb_id,
                country,
            ) == country_entry(kept_sets(groups, fetched[k]), country),
        !has_fetch(fetched, tmdb_id) ==> known_entry(
            fresh_entries(groups, fetched),
            tmdb_id,
            country,
        ) is None,
    decreases fetched.len(),
{
    if fetched.len() > 0 {
        let t = fetched.drop_last();
        let last = fetched.last();
        assert(distinct_fetches(t)) by {
            assert forall|i: int, j: int| 0 <= i < j < t.len() implies (#[trigger] t[i]).tmdb_id != (
            #[trigger] t[j]).tmdb_id by {
                assert(t[i] == fetched[i] && t[j] == fetched[j]);
            }
        }
        lemma_fresh_entry(groups, t, tmdb_id, country);
        lemma_known_entry_add(
            fresh_entries(groups, t),
            entries_of(last.tmdb_id, kept_sets(groups, last)),
            tmdb_id,
            country,
        );
        lemma_entries_of_entry(last.tmdb_id, kept_sets(groups, last), tmdb_id, country);
        assert(fetched[fetched.len() - 1] == last);
        if has_fetch(t, tmdb_id) {
            let w = choose|i: int| 0 <= i < t.len() && (#[trigger] t[i]).tmdb_id == tmdb_id;
            assert(fetched[w] == t[w]);
            assert(last.tmdb_id != tmdb_id);
            assert forall|k: int|
                0 <= k < fetched.len() && (#[trigger] fetched[k]).tmdb_id == tmdb_id implies known_entry(
                fresh_entries(groups, fetched),
                tmdb_id,
                country,
            ) == country_entry(kept_sets(groups, fetched[k]), country) by {
                assert(k == w);
                assert(t[k] == fetched[k]);
            }
        } else {
            assert forall|k: int|
                0 <= k < fetched.len() && (#[trigger] fetched[k]).tmdb_id == tmdb_id implies known_entry(
                fresh_entries(groups, fetched),
                tmdb_id,
                country,
            ) == country_entry(kept_sets(groups, fetched[k]), country) by {
                if k < t.len() {
                    assert(t[k] == fetched[k]);
                }
            }
            if !has_fetch(fetched, tmdb_id) {
                assert(last.tmdb_id != tmdb_id);
            }
        }
    }
}

/// Two lists of the same fetches, each with one fetch per film, hold the
/// same release data for every film and country.
pub proof fn lemma_fresh_entry_any_order(
    groups: Seq<(i32, Seq<Seq<char>>)>,
    a: Seq<Fetched>,
    b: Seq<Fetched>,
    tmdb_id: i32,
    country: Seq<char>,
)
    requires
        distinct_fetches(a),
        distinct_fetches(b),
        forall|x: Fetched| a.contains(x) <==> b.contains(x),
    ensures
        known_entry(fresh_entries(groups, a), tmdb_id, country) == known_entry(
            fresh_entries(groups, b),
            tmdb_id,
            country,
        ),
        has_fetch(a, tmdb_id) == has_fetch(b, tmdb_id),
{
    lemma_fresh_entry(groups, a, tmdb_id, country);
    lemma_fresh_entry(groups, b, tmdb_id, country);
    if has_fetch(a, tmdb_id) {
        let i = choose|i: int| 0 <= i < a.len() && (#[trigger] a[i]).tmdb_id == tmdb_id;
        assert(a.contains(a[i]));
        assert(b.contains(a[i]));
        let j = choose|j: int| 0 <= j < b.len() && b[j] == a[i];
        assert(b[j].tmdb_id == tmdb_id);
    }
    if has_fetch(b, tmdb_id) {
        let j = choose|j: int| 0 <= j < b.len() && (#[trigger] b[j]).tmdb_id == tmdb_id;
        assert(b.contains(b[j]));
        assert(a.contains(b[j]));
        let i = choose|i: int| 0 <= i < a.len() && a[i] == b[j];
        assert(a[i].tmdb_id == tmdb_id);
    }
}

/// What the tiers decide for a film depends on the fetched data only by
/// what it holds for the film.
pub proof fn lemma_tiers_same(
    cached: Seq<KnownReleases>,
    a: Seq<KnownReleases>,
    b: Seq<KnownReleases>,
    tmdb_id: i32,
    tiers: Seq<Seq<char>>,
)
    requires
        forall|c: Seq<char>| known_entry(a, tmdb_id, c) == known_entry(b, tmdb_id, c),
    ensures
        resolve_tiers(cached, a, tmdb_id, tiers) == resolve_tiers(cached, b, tmdb_id, tiers),
    decreases tiers.len(),
{
    if tiers.len() > 0 {
        assert(known_entry(a, tmdb_id, tiers[0]) == known_entry(b, tmdb_id, tiers[0]));
        assert(release_data(cached, a, tmdb_id, tiers[0]) == release_data(
            cached,
            b,
            tmdb_id,
            tiers[0],
        ));
        lemma_tiers_same(cached, a, b, tmdb_id, tiers.drop_first());
    }
}

/// The films whose release data is at hand are the same for two lists of
/// the same fetches.
pub proof fn lemma_answered_any_order(
    films: Seq<Identified>,
    groups: Seq<(i32, Seq<Seq<char>>)>,
    a: Seq<Fetched>,
    b: Seq<Fetched>,
)
    requires
        distinct_fetches(a),
        distinct_fetches(b),
        forall|x: Fetched| a.contains(x) <==> b.contains(x),
    ensures
        answered_films(films, groups, a) == answered_films(films, groups, b),
    decreases films.len(),
{
    if films.len() > 0 {
        lemma_answered_any_order(films.drop_last(), groups, a, b);
        lemma_fresh_entry_any_order(groups, a, b, films.last().1, Seq::empty());
    }
}

/// The order in which the fetched release dates are handed in has no say:
/// two lists of the same fetches, each with one fetch per film, give the
/// same results for the same films.
pub proof fn law_order_of_fetches_has_no_say(
    films: Seq<Identified>,
    groups: Seq<(i32, Seq<Seq<char>>)>,
    cached: Seq<KnownReleases>,
    country: Seq<char>,
    a: Seq<Fetched>,
    b: Seq<Fetched>,
)
    requires
        distinct_fetches(a),
        distinct_fetches(b),
        forall|x: Fetched| a.contains(x) <==> b.contains(x),
    ensures
        film_results(answered_films(films, groups, a), cached, fresh_entries(groups, a), country)
            == film_results(
            answered_films(films, groups, b),
            cached,
            fresh_entries(groups, b),
            country,
        ),
{
    lemma_answered_any_order(films, groups, a, b);
    let shown = answered_films(films, groups, a);
    let fa = fresh_entries(groups, a);
    let fb = fresh_entries(groups, b);
    let ra = film_results(shown, cached, fa, country);
    let rb = film_results(shown, cached, fb, country);
    assert forall|i: int| 0 <= i < shown.len() implies ra[i] == rb[i] by {
        let id = shown[i].1;
        assert forall|c: Seq<char>| known_entry(fa, id, c) == known_entry(fb, id, c) by {
            lemma_fresh_entry_any_order(groups, a, b, id, c);
        }
        lemma_tiers_same(cached, fa, fb, id, fallback_tiers(country));
    }
    assert(ra =~= rb);
}

/// What a lookup of offers finds is the offers of an entry for the film and
/// the country.
pub proof fn lemma_known_offers_some(known: Seq<KnownProviders>, tmdb_id: i32, country: Seq<char>)
    ensures
        known_offers(known, tmdb_id, country) matches Some(p) ==> exists|i: int|
            0 <= i < known.len() && (#[trigger] known[i]).tmdb_id == tmdb_id && known[i].country
                == country && known[i].providers == p,
    decreases known.len(),
{
    if known.len() > 0 && !(known[0].tmdb_id == tmdb_id && known[0].country == country) {
        let t = known.drop_first();
        lemma_known_offers_some(t, tmdb_id, country);
        if known_offers(t, tmdb_id, country) is Some {
            let p = known_offers(t, tmdb_id, country)->0;
            let i = choose|i: int|
                0 <= i < t.len() && (#[trigger] t[i]).tmdb_id == tmdb_id && t[i].country == country
                    && t[i].providers == p;
            assert(known[i + 1] == t[i]);
        }
    } else if known.len() > 0 {
        assert(known[0].tmdb_id == tmdb_id);
    }
}

/// Two lists of the same fetched offers, each with one entry per film and
/// country, hold the same offers for every film and country.
pub proof fn lemma_known_offers_any_order(
    a: Seq<KnownProviders>,
    b: Seq<KnownProviders>,
    tmdb_id: i32,
    country: Seq<char>,
)
    requires
        distinct_offers(a),
        distinct_offers(b),
        forall|x: KnownProviders| a.contains(x) <==> b.contains(x),
    ensures
        known_offers(a, tmdb_id, country) == known_offers(b, tmdb_id, country),
{
    lemma_known_offers_some(a, tmdb_id, country);
    lemma_known_offers_some(b, tmdb_id, country);
    lemma_known_offers_none(a, tmdb_id, country);
    lemma_known_offers_none(b, tmdb_id, country);
    match known_offers(a, tmdb_id, country) {
        Some(p) => {
            let i = choose|i: int|
                0 <= i < a.len() && (#[trigger] a[i]).tmdb_id == tmdb_id && a[i].country == country
                    && a[i].providers == p;
            assert(a.contains(a[i]));
            assert(b.contains(a[i]));
            let j = choose|j: int| 0 <= j < b.len() && b[j] == a[i];
            assert(b[j].tmdb_id == tmdb_id && b[j].country == country);
            let q = known_offers(b, tmdb_id, country)->0;
            let k = choose|k: int|
                0 <= k < b.len() && (#[trigger] b[k]).tmdb_id == tmdb_id && b[k].country == country
                    && b[k].providers == q;
            assert(k == j);
        },
        None => {
            if known_offers(b, tmdb_id, country) is Some {
                let q = known_offers(b, tmdb_id, country)->0;
                let k = choose|k: int|
                    0 <= k < b.len() && (#[trigger] b[k]).tmdb_id == tmdb_id && b[k].country
                        == country && b[k].providers == q;
                assert(b.contains(b[k]));
                assert(a.contains(b[k]));
                let i = choose|i: int| 0 <= i < a.len() && a[i] == b[k];
                assert(a[i].tmdb_id == tmdb_id && a[i].country == country);
            }
        },
    }
}

/// The order in which the fetched watch offers are handed in has no say:
/// two lists of the same entries, each with one entry per film and country,
/// attach the same offers to every film.
pub proof fn law_order_of_offers_has_no_say(
    results: Seq<FilmResult>,
    country: Seq<char>,
    cached: Seq<KnownProviders>,
    a: Seq<KnownProviders>,
    b: Seq<KnownProviders>,
)
    requires
        distinct_offers(a),
        distinct_offers(b),
        forall|x: KnownProviders| a.contains(x) <==> b.contains(x),
    ensures
        attached(results, country, cached, a) == attached(results, country, cached, b),
{
    let ra = attached(results, country, cached, a);
    let rb = attached(results, country, cached, b);
    assert forall|i: int| 0 <= i < results.len() implies ra[i] == rb[i] by {
        lemma_known_offers_any_order(a, b, results[i].tmdb_id, country);
    }
    assert(ra =~= rb);
}

} // verus!
