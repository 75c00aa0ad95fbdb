//! The country fallback: which country's releases a film is shown with.
//!
//! A requested country has an ordered list of tiers: itself, then Australia
//! if it is New Zealand, then the United States. The first tier with any
//! release decides. Within a tier, entries marked as already available come
//! first and make the film "already available"; otherwise it is "upcoming".
//! Every entry shown carries the tier's country code as its note.

use crate::models::{
    CountryReleaseSet, CountryReleases, ReleaseCategory, ReleaseDate, ReleaseEntry,
};
use crate::text::{contains, has_substring, same_text};
use crate::tmdb::already_available;
use vstd::prelude::*;

verus! {

/// The release data that is known of one film in one country.
#[derive(Debug, PartialEq, Eq)]
pub struct ReleaseCacheEntry {
    pub tmdb_id: i32,
    pub releases: CountryReleases,
}

/// What a [`ReleaseCacheEntry`] is.
pub struct KnownReleases {
    pub tmdb_id: i32,
    pub releases: CountryReleaseSet,
}

impl DeepView for ReleaseCacheEntry {
    type V = KnownReleases;

    open spec fn deep_view(&self) -> KnownReleases {
        KnownReleases { tmdb_id: self.tmdb_id, releases: self.releases.deep_view() }
    }
}

/// The entry is a back-filled past release.
pub open spec fn is_available(e: ReleaseEntry) -> bool {
    e.note matches Some(n) && has_substring(n, already_available())
}

/// The entries of `s` that are (`available`) or are not marked as already
/// available, in their order.
pub open spec fn entries_where(s: Seq<ReleaseEntry>, available: bool) -> Seq<ReleaseEntry>
    decreases s.len(),
{
    if s.len() == 0 {
        Seq::empty()
    } else if is_available(s.last()) == available {
        entries_where(s.drop_last(), available).push(s.last())
    } else {
        entries_where(s.drop_last(), available)
    }
}

/// The entries of `s`, each with `code` as its note.
pub open spec fn tagged(s: Seq<ReleaseEntry>, code: Seq<char>) -> Seq<ReleaseEntry> {
    Seq::new(s.len(), |i: int| ReleaseEntry { date: s[i].date, kind: s[i].kind, note: Some(code) })
}

/// The entries of `s` as a tier shows them: those already available, then
/// the others, all tagged with `code`.
pub open spec fn shown(s: Seq<ReleaseEntry>, code: Seq<char>) -> Seq<ReleaseEntry> {
    tagged(entries_where(s, true) + entries_where(s, false), code)
}

/// What a film is shown with.
pub struct Resolution {
    pub theatrical: Seq<ReleaseEntry>,
    pub streaming: Seq<ReleaseEntry>,
    pub category: ReleaseCategory,
}

/// A film without releases in any tier.
pub open spec fn no_releases() -> Resolution {
    Resolution {
        theatrical: Seq::empty(),
        streaming: Seq::empty(),
        category: ReleaseCategory::NoReleases,
    }
}

/// What one tier decides: nothing where it has no release; otherwise its
/// entries tagged with `code`, as already available if any entry is.
pub open spec fn tier_resolution(
    theatrical: Seq<ReleaseEntry>,
    streaming: Seq<ReleaseEntry>,
    code: Seq<char>,
) -> Option<Resolution> {
    if theatrical.len() == 0 && streaming.len() == 0 {
        None
    } else {
        Some(
            Resolution {
                theatrical: shown(theatrical, code),
                streaming: shown(streaming, code),
                category: if entries_where(theatrical, true).len() > 0 || entries_where(
                    streaming,
                    true,
                ).len() > 0 {
                    ReleaseCategory::LocalAlreadyAvailable
                } else {
                    ReleaseCategory::LocalUpcoming
                },
            },
        )
    }
}

/// The countries to try for a requested country, in order.
pub open spec fn fallback_tiers(country: Seq<char>) -> Seq<Seq<char>> {
    if country == "US"@ {
        seq![country]
    } else if country == "NZ"@ {
        seq![country, "AU"@, "US"@]
    } else {
        seq![country, "US"@]
    }
}

/// The first entry of `known` for the film and the country, if any.
pub open spec fn known_entry(known: Seq<KnownReleases>, tmdb_id: i32, country: Seq<char>)
    -> Option<CountryReleaseSet>
    decreases known.len(),
{
    if known.len() == 0 {
        None
    } else if known[0].tmdb_id == tmdb_id && known[0].releases.country == country {
        Some(known[0].releases)
    } else {
        known_entry(known.drop_first(), tmdb_id, country)
    }
}

/// The release data of a film in a country: what the cache holds, else what
/// was fetched, else nothing.
pub open spec fn release_data(
    cached: Seq<KnownReleases>,
    fresh: Seq<KnownReleases>,
    tmdb_id: i32,
    country: Seq<char>,
) -> (Seq<ReleaseEntry>, Seq<ReleaseEntry>) {
    match known_entry(cached, tmdb_id, country) {
        Some(c) => (c.theatrical, c.streaming),
        None => match known_entry(fresh, tmdb_id, country) {
            Some(c) => (c.theatrical, c.streaming),
            None => (Seq::empty(), Seq::empty()),
        },
    }
}

/// What the tiers decide, tried in order.
pub open spec fn resolve_tiers(
    cached: Seq<KnownReleases>,
    fresh: Seq<KnownReleases>,
    tmdb_id: i32,
    tiers: Seq<Seq<char>>,
) -> Resolution
    decreases tiers.len(),
{
    if tiers.len() == 0 {
        no_releases()
    } else {
        let data = release_data(cached, fresh, tmdb_id, tiers[0]);
        match tier_resolution(data.0, data.1, tiers[0]) {
            Some(r) => r,
            None => resolve_tiers(cached, fresh, tmdb_id, tiers.drop_first()),
        }
    }
}

/// What a film is shown with, for a requested country.
pub open spec fn resolution(
    cached: Seq<KnownReleases>,
    fresh: Seq<KnownReleases>,
    tmdb_id: i32,
    country: Seq<char>,
) -> Resolution {
    resolve_tiers(cached, fresh, tmdb_id, fallback_tiers(country))
}

/// Every entry is either marked as already available or not: the two parts
/// make up the list.
pub proof fn lemma_entries_where(s: Seq<ReleaseEntry>)
    ensures
        entries_where(s, true).len() + entries_where(s, false).len() == s.len(),
        forall|i: int|
            0 <= i < entries_where(s, true).len() ==> is_available(
                #[trigger] entries_where(s, true)[i],
            ),
        forall|i: int|
            0 <= i < entries_where(s, false).len() ==> !is_available(
                #[trigger] entries_where(s, false)[i],
            ),
        (forall|i: int| 0 <= i < s.len() ==> !is_available(#[trigger] s[i])) ==> entries_where(
            s,
            false,
        ) == s && entries_where(s, true).len() == 0,
    decreases s.len(),
{
    if s.len() > 0 {
        let t = s.drop_last();
        lemma_entries_where(t);
        if forall|i: int| 0 <= i < s.len() ==> !is_available(#[trigger] s[i]) {
            assert forall|i: int| 0 <= i < t.len() implies !is_available(#[trigger] t[i]) by {
                assert(t[i] == s[i]);
            }
            assert(!is_available(s[s.len() - 1]));
            assert(t.push(s.last()) =~= s);
        }
    }
}

/// What a tier shows has the length of the tier's list, and every entry of
/// it carries the tier's code.
pub proof fn lemma_shown(s: Seq<ReleaseEntry>, code: Seq<char>)
    ensures
        shown(s, code).len() == s.len(),
        forall|i: int| 0 <= i < shown(s, code).len() ==> (#[trigger] shown(s, code)[i]).note
            == Some(code),
{
    lemma_entries_where(s);
}

/// Whether the entry is marked as already available.
pub fn is_available_entry(e: &ReleaseDate) -> (r: bool)
    ensures
        r == is_available(e.deep_view()),
{
    match &e.note {
        Some(n) => contains(n.as_str(), "Already available"),
        None => false,
    }
}

/// Appends to `out` the entries of `list` that are (or are not) marked as
/// already available, each tagged with `code`.
pub fn push_tagged(out: &mut Vec<ReleaseDate>, list: &Vec<ReleaseDate>, available: bool, code: &str)
    ensures
        final(out).deep_view() == old(out).deep_view() + tagged(
            entries_where(list.deep_view(), available),
            code@,
        ),
        final(out).len() == old(out).len() + entries_where(list.deep_view(), available).len(),
{
    let mut i: usize = 0;
    assert(list.deep_view().take(0) =~= Seq::<ReleaseEntry>::empty());
    assert(out.deep_view() =~= old(out).deep_view() + tagged(
        entries_where(list.deep_view().take(0), available),
        code@,
    ));
    while i < list.len()
        invariant
            i <= list.len(),
            out.deep_view() == old(out).deep_view() + tagged(
                entries_where(list.deep_view().take(i as int), available),
                code@,
            ),
            out.len() == old(out).len() + entries_where(
                list.deep_view().take(i as int),
                available,
            ).len(),
        decreases list.len() - i,
    {
        proof {
            assert(list.deep_view().take(i + 1).drop_last() =~= list.deep_view().take(i as int));
            assert(list.deep_view().take(i + 1).last() == list[i as int].deep_view());
        }
        if is_available_entry(&list[i]) == available {
            let ghost before = out.deep_view();
            out.push(
                ReleaseDate {
                    date: list[i].date,
                    release_type: list[i].release_type,
                    note: Some(code.to_owned()),
                },
            );
            assert(out.deep_view() =~= old(out).deep_view() + tagged(
                entries_where(list.deep_view().take(i + 1), available),
                code@,
            )) by {
                assert(out.deep_view() =~= before.push(
                    ReleaseEntry {
                        date: list[i as int].date,
                        kind: list[i as int].release_type,
                        note: Some(code@),
                    },
                ));
            }
        }
        i += 1;
    }
    assert(list.deep_view().take(list.len() as int) =~= list.deep_view());
}

/// The entries of `list` as a tier shows them.
pub fn show(list: &Vec<ReleaseDate>, code: &str) -> (r: (Vec<ReleaseDate>, bool))
    ensures
        r.0.deep_view() == shown(list.deep_view(), code@),
        r.1 == (entries_where(list.deep_view(), true).len() > 0),
{
    let mut out: Vec<ReleaseDate> = Vec::new();
    push_tagged(&mut out, list, true, code);
    let any = out.len() > 0;
    let ghost first = out.deep_view();
    push_tagged(&mut out, list, false, code);
    assert(out.deep_view() =~= shown(list.deep_view(), code@)) by {
        assert(first =~= tagged(entries_where(list.deep_view(), true), code@));
    }
    (out, any)
}

/// The first entry of `known` for the film and the country.
pub fn find_known(known: &Vec<ReleaseCacheEntry>, tmdb_id: i32, country: &str) -> (r: Option<
    usize,
>)
    ensures
        match r {
            Some(i) => i < known.len() && known_entry(known.deep_view(), tmdb_id, country@) == Some(
                known[i as int].releases.deep_view(),
            ),
            None => known_entry(known.deep_view(), tmdb_id, country@) is None,
        },
{
    let mut i: usize = 0;
    assert(known.deep_view().skip(0) =~= known.deep_view());
    while i < known.len()
        invariant
            i <= known.len(),
            known_entry(known.deep_view(), tmdb_id, country@) == known_entry(
                known.deep_view().skip(i as int),
                tmdb_id,
                country@,
            ),
        decreases known.len() - i,
    {
        proof {
            assert(known.deep_view().skip(i as int).drop_first() =~= known.deep_view().skip(i + 1));
            assert(known.deep_view().skip(i as int)[0] == known[i as int].deep_view());
        }
        if known[i].tmdb_id == tmdb_id && same_text(known[i].releases.country.as_str(), country) {
            return Some(i);
        }
        i += 1;
    }
    None
}

/// The release data of a film in a country: what the cache holds, else what
/// was fetched, else nothing.
pub fn get_release_data<'a>(
    cached: &'a Vec<ReleaseCacheEntry>,
    fresh: &'a Vec<ReleaseCacheEntry>,
    tmdb_id: i32,
    country: &str,
) -> (r: Option<&'a CountryReleases>)
    ensures
        match r {
            Some(c) => (c.theatrical.deep_view(), c.streaming.deep_view()) == release_data(
                cached.deep_view(),
                fresh.deep_view(),
                tmdb_id,
                country@,
            ),
            None => release_data(cached.deep_view(), fresh.deep_view(), tmdb_id, country@) == (
                Seq::<ReleaseEntry>::empty(),
                Seq::<ReleaseEntry>::empty(),
            ),
        },
{
    match find_known(cached, tmdb_id, country) {
        Some(i) => Some(&cached[i].releases),
        None => match find_known(fresh, tmdb_id, country) {
            Some(i) => Some(&fresh[i].releases),
            None => None,
        },
    }
}

/// The countries to try for a requested country, in order.
pub fn tiers_for(country: &str) -> (r: Vec<String>)
    ensures
        r.deep_view() == fallback_tiers(country@),
{
    let mut tiers: Vec<String> = Vec::new();
    tiers.push(country.to_owned());
    if same_text(country, "US") {
    } else if same_text(country, "NZ") {
        tiers.push("AU".to_owned());
        tiers.push("US".to_owned());
    } else {
        tiers.push("US".to_owned());
    }
    assert(tiers.deep_view() =~= fallback_tiers(country@));
    tiers
}

/// Decides what a film is shown with for the requested country: the entries
/// of the first tier that has any, tagged with that tier's country, and the
/// category that they give; no entries and `NoReleases` where every tier is
/// empty.
pub fn get_releases_with_fallback_bulk(
    cached: &Vec<ReleaseCacheEntry>,
    fresh: &Vec<ReleaseCacheEntry>,
    tmdb_id: i32,
    country: &str,
) -> (r: (Vec<ReleaseDate>, Vec<ReleaseDate>, ReleaseCategory))
    ensures
        r.0.deep_view() == resolution(
            cached.deep_view(),
            fresh.deep_view(),
            tmdb_id,
            country@,
        ).theatrical,
        r.1.deep_view() == resolution(
            cached.deep_view(),
            fresh.deep_view(),
            tmdb_id,
            country@,
        ).streaming,
        r.2 == resolution(cached.deep_view(), fresh.deep_view(), tmdb_id, country@).category,
        r.2 == ReleaseCategory::NoReleases <==> r.0.len() == 0 && r.1.len() == 0,
{
    proof {
        law_no_releases_only_when_all_tiers_empty(
            cached.deep_view(),
            fresh.deep_view(),
            tmdb_id,
            country@,
        );
    }
    let tiers = tiers_for(country);
    let mut i: usize = 0;
    assert(tiers.deep_view().skip(0) =~= tiers.deep_view());
    while i < tiers.len()
        invariant
            i <= tiers.len(),
            resolution(cached.deep_view(), fresh.deep_view(), tmdb_id, country@) == resolve_tiers(
                cached.deep_view(),
                fresh.deep_view(),
                tmdb_id,
                tiers.deep_view().skip(i as int),
            ),
        decreases tiers.len() - i,
    {
        proof {
            assert(tiers.deep_view().skip(i as int).drop_first() =~= tiers.deep_view().skip(i + 1));
            assert(tiers.deep_view().skip(i as int)[0] == tiers[i as int]@);
        }
        let code = tiers[i].as_str();
        match get_release_data(cached, fresh, tmdb_id, code) {
            Some(c) => {
                if c.theatrical.len() > 0 || c.streaming.len() > 0 {
                    let (theatrical, t_available) = show(&c.theatrical, code);
                    let (streaming, s_available) = show(&c.streaming, code);
                    let category = if t_available || s_available {
                        ReleaseCategory::LocalAlreadyAvailable
                    } else {
                        ReleaseCategory::LocalUpcoming
                    };
                    assert(theatrical.deep_view().len() == theatrical.len());
                    assert(streaming.deep_view().len() == streaming.len());
                    return (theatrical, streaming, category);
                }
            },
            None => {},
        }
        i += 1;
    }
    let theatrical: Vec<ReleaseDate> = Vec::new();
    let streaming: Vec<ReleaseDate> = Vec::new();
    assert(theatrical.deep_view() =~= Seq::<ReleaseEntry>::empty());
    assert(streaming.deep_view() =~= Seq::<ReleaseEntry>::empty());
    (theatrical, streaming, ReleaseCategory::NoReleases)
}

/// No release data at all for the film in the country.
pub open spec fn nothing_known(
    cached: Seq<KnownReleases>,
    fresh: Seq<KnownReleases>,
    tmdb_id: i32,
    country: Seq<char>,
) -> bool {
    let data = release_data(cached, fresh, tmdb_id, country);
    data.0.len() == 0 && data.1.len() == 0
}

/// Every entry of the resolution carries `code` as its note.
pub open spec fn tagged_with(r: Resolution, code: Seq<char>) -> bool {
    &&& forall|i: int| 0 <= i < r.theatrical.len() ==> (#[trigger] r.theatrical[i]).note == Some(code)
    &&& forall|i: int| 0 <= i < r.streaming.len() ==> (#[trigger] r.streaming[i]).note == Some(code)
}

/// The three country codes with a fallback rule are three different texts.
pub proof fn lemma_codes_differ()
    ensures
        "US"@ != "NZ"@,
        "US"@ != "AU"@,
        "NZ"@ != "AU"@,
{
    reveal_strlit("US");
    reveal_strlit("NZ");
    reveal_strlit("AU");
    assert("US"@[0] == 'U' && "NZ"@[0] == 'N' && "AU"@[0] == 'A');
}

/// A film is without releases exactly when no tier of the requested country
/// has any release; and only then are both of its lists empty.
pub proof fn law_no_releases_only_when_all_tiers_empty(
    cached: Seq<KnownReleases>,
    fresh: Seq<KnownReleases>,
    tmdb_id: i32,
    country: Seq<char>,
)
    ensures
        resolution(cached, fresh, tmdb_id, country).category == ReleaseCategory::NoReleases
            <==> forall|i: int|
            0 <= i < fallback_tiers(country).len() ==> nothing_known(
                cached,
                fresh,
                tmdb_id,
                #[trigger] fallback_tiers(country)[i],
            ),
        resolution(cached, fresh, tmdb_id, country).category == ReleaseCategory::NoReleases <==> (
        resolution(cached, fresh, tmdb_id, country).theatrical.len() == 0 && resolution(
            cached,
            fresh,
            tmdb_id,
            country,
        ).streaming.len() == 0),
{
    lemma_tiers(cached, fresh, tmdb_id, fallback_tiers(country));
}

/// What [`resolve_tiers`] gives, for any list of tiers.
pub proof fn lemma_tiers(
    cached: Seq<KnownReleases>,
    fresh: Seq<KnownReleases>,
    tmdb_id: i32,
    tiers: Seq<Seq<char>>,
)
    ensures
        resolve_tiers(cached, fresh, tmdb_id, tiers).category == ReleaseCategory::NoReleases
            <==> forall|i: int|
            0 <= i < tiers.len() ==> nothing_known(cached, fresh, tmdb_id, #[trigger] tiers[i]),
        resolve_tiers(cached, fresh, tmdb_id, tiers).category == ReleaseCategory::NoReleases <==> (
        resolve_tiers(cached, fresh, tmdb_id, tiers).theatrical.len() == 0 && resolve_tiers(
            cached,
            fresh,
            tmdb_id,
            tiers,
        ).streaming.len() == 0),
    decreases tiers.len(),
{
    if tiers.len() > 0 {
        let rest = tiers.drop_first();
        let data = release_data(cached, fresh, tmdb_id, tiers[0]);
        lemma_tiers(cached, fresh, tmdb_id, rest);
        lemma_shown(data.0, tiers[0]);
        lemma_shown(data.1, tiers[0]);
        if nothing_known(cached, fresh, tmdb_id, tiers[0]) {
            assert forall|i: int| 0 <= i < rest.len() implies (nothing_known(
                cached,
                fresh,
                tmdb_id,
                #[trigger] rest[i],
            ) <==> nothing_known(cached, fresh, tmdb_id, tiers[i + 1])) by {
                assert(rest[i] == tiers[i + 1]);
            }
            if forall|i: int|
                0 <= i < rest.len() ==> nothing_known(cached, fresh, tmdb_id, #[trigger] rest[i]) {
                assert forall|i: int| 0 <= i < tiers.len() implies nothing_known(
                    cached,
                    fresh,
                    tmdb_id,
                    #[trigger] tiers[i],
                ) by {
                    if i > 0 {
                        assert(rest[i - 1] == tiers[i]);
                    }
                }
            }
        }
    }
}

/// Where the requested country has no release, is not the United States,
/// and (being New Zealand) finds none in Australia either, a film with any
/// release in the United States is shown with those: as already available
/// or as upcoming, never as without releases, and every entry tagged "US".
pub proof fn law_falls_back_to_united_states(
    cached: Seq<KnownReleases>,
    fresh: Seq<KnownReleases>,
    tmdb_id: i32,
    country: Seq<char>,
)
    requires
        country != "US"@,
        nothing_known(cached, fresh, tmdb_id, country),
        country == "NZ"@ ==> nothing_known(cached, fresh, tmdb_id, "AU"@),
        !nothing_known(cached, fresh, tmdb_id, "US"@),
    ensures
        ({
            let us = release_data(cached, fresh, tmdb_id, "US"@);
            resolution(cached, fresh, tmdb_id, country) == tier_resolution(us.0, us.1, "US"@)->0
        }),
        resolution(cached, fresh, tmdb_id, country).category != ReleaseCategory::NoReleases,
        tagged_with(resolution(cached, fresh, tmdb_id, country), "US"@),
{
    reveal_with_fuel(resolve_tiers, 4);
    let us = release_data(cached, fresh, tmdb_id, "US"@);
    let tiers = fallback_tiers(country);
    lemma_shown(us.0, "US"@);
    lemma_shown(us.1, "US"@);
    if country == "NZ"@ {
        let t1 = tiers.drop_first();
        let t2 = t1.drop_first();
        assert(t1[0] == "AU"@);
        assert(t2[0] == "US"@);
    } else {
        let t1 = tiers.drop_first();
        assert(t1[0] == "US"@);
    }
}

/// A film that New Zealand has no release of, and Australia only upcoming
/// ones, is shown for New Zealand as upcoming with Australia's entries, each
/// tagged "AU", whatever the United States have.
pub proof fn law_new_zealand_falls_back_to_australia(
    cached: Seq<KnownReleases>,
    fresh: Seq<KnownReleases>,
    tmdb_id: i32,
)
    requires
        nothing_known(cached, fresh, tmdb_id, "NZ"@),
        !nothing_known(cached, fresh, tmdb_id, "AU"@),
        ({
            let au = release_data(cached, fresh, tmdb_id, "AU"@);
            &&& forall|i: int| 0 <= i < au.0.len() ==> !is_available(#[trigger] au.0[i])
            &&& forall|i: int| 0 <= i < au.1.len() ==> !is_available(#[trigger] au.1[i])
        }),
    ensures
        ({
            let au = release_data(cached, fresh, tmdb_id, "AU"@);
            let r = resolution(cached, fresh, tmdb_id, "NZ"@);
            &&& r.category == ReleaseCategory::LocalUpcoming
            &&& r.theatrical == tagged(au.0, "AU"@)
            &&& r.streaming == tagged(au.1, "AU"@)
            &&& tagged_with(r, "AU"@)
        }),
{
    reveal_with_fuel(resolve_tiers, 3);
    lemma_codes_differ();
    let au = release_data(cached, fresh, tmdb_id, "AU"@);
    let tiers = fallback_tiers("NZ"@);
    let t1 = tiers.drop_first();
    assert(t1[0] == "AU"@);
    lemma_entries_where(au.0);
    lemma_entries_where(au.1);
    lemma_shown(au.0, "AU"@);
    lemma_shown(au.1, "AU"@);
    assert(entries_where(au.0, true) + entries_where(au.0, false) =~= au.0);
    assert(entries_where(au.1, true) + entries_where(au.1, false) =~= au.1);
}

} // verus!
