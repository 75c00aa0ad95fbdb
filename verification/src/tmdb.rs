//! What the catalog client makes of the provider's answers.
//!
//! The transport is not here. These functions take an answer as plain values
//! and compute what the client hands on: the per-country release table with
//! its single back-filled past entry per kind, the merged list of watch
//! offers, and the first search hit.

use crate::date::{
    date_minus_years, date_plus_months, parse_timestamp_date, timestamp_utc_date, CivilDate,
};
use crate::models::{
    clone_text, CountryReleaseSet, CountryReleases, ProviderOffer, ProviderType, ReleaseDate,
    ReleaseDatesResult, ReleaseEntry, ReleaseType, WatchProvider,
};
use crate::releases::{canonical, canonical_form, canonicalize, country_entry, find_country};
use crate::text::{blank, is_blank, trim, trimmed};
use vstd::prelude::*;

verus! {

/// The note that marks a back-filled past release.
pub open spec fn already_available() -> Seq<char> {
    "Already available"@
}

/// How many years back a past release still counts as available.
pub const AVAILABILITY_WINDOW_YEARS: i16 = 2;

/// Why a provider's answer could not be used.
#[derive(Debug, PartialEq, Eq)]
pub enum TmdbError {
    /// A release date of a known kind is no timestamp; `text` is what stood
    /// in its place.
    MalformedDate { text: String },
    /// The current date is no valid date, or lies within the first two years
    /// of the calendar.
    CurrentDateOutOfRange,
}

/// One release date as the provider reports it.
#[derive(Debug, PartialEq, Eq)]
pub struct ReleaseDateEntry {
    pub release_date: String,
    pub type_: i32,
    pub note: Option<String>,
}

/// What a [`ReleaseDateEntry`] is.
pub struct RawRelease {
    pub release_date: Seq<char>,
    pub type_code: i32,
    pub note: Option<Seq<char>>,
}

impl DeepView for ReleaseDateEntry {
    type V = RawRelease;

    open spec fn deep_view(&self) -> RawRelease {
        RawRelease {
            release_date: self.release_date@,
            type_code: self.type_,
            note: self.note.deep_view(),
        }
    }
}

/// The release dates that the provider reports for one country.
#[derive(Debug, PartialEq, Eq)]
pub struct ReleaseDatesCountry {
    pub iso_3166_1: String,
    pub release_dates: Vec<ReleaseDateEntry>,
}

/// What a [`ReleaseDatesCountry`] is.
pub struct RawCountry {
    pub code: Seq<char>,
    pub releases: Seq<RawRelease>,
}

impl DeepView for ReleaseDatesCountry {
    type V = RawCountry;

    open spec fn deep_view(&self) -> RawCountry {
        RawCountry { code: self.iso_3166_1@, releases: self.release_dates.deep_view() }
    }
}

/// A note with the white space round it removed; none where nothing is left.
pub open spec fn normalized_note(note: Option<Seq<char>>) -> Option<Seq<char>> {
    match note {
        Some(s) => if trimmed(s).len() == 0 {
            None
        } else {
            Some(trimmed(s))
        },
        None => None,
    }
}

/// The entry is of a kind that is not tracked, and is passed over.
pub open spec fn skipped(raw: RawRelease) -> bool {
    ReleaseType::of_code(raw.type_code as int) is None
}

/// The entry is of a tracked kind and its date is no timestamp.
pub open spec fn malformed(raw: RawRelease) -> bool {
    !skipped(raw) && timestamp_utc_date(raw.release_date) is None
}

/// The release entry that a well-formed raw entry of a tracked kind gives.
pub open spec fn entry_of(raw: RawRelease) -> ReleaseEntry {
    ReleaseEntry {
        date: timestamp_utc_date(raw.release_date)->0,
        kind: ReleaseType::of_code(raw.type_code as int)->0,
        note: normalized_note(raw.note),
    }
}

/// The entries of the tracked kinds, in the order of the raw entries.
pub open spec fn parsed_entries(raws: Seq<RawRelease>) -> Seq<ReleaseEntry>
    decreases raws.len(),
{
    if raws.len() == 0 {
        Seq::empty()
    } else if skipped(raws.last()) {
        parsed_entries(raws.drop_last())
    } else {
        parsed_entries(raws.drop_last()).push(entry_of(raws.last()))
    }
}

/// The date text of the first malformed entry, if there is one.
pub open spec fn malformed_in(raws: Seq<RawRelease>) -> Option<Seq<char>>
    decreases raws.len(),
{
    if raws.len() == 0 {
        None
    } else if malformed_in(raws.drop_last()) is Some {
        malformed_in(raws.drop_last())
    } else if malformed(raws.last()) {
        Some(raws.last().release_date)
    } else {
        None
    }
}

/// The date text of the first malformed entry of the first country that has
/// one.
pub open spec fn malformed_among(countries: Seq<RawCountry>) -> Option<Seq<char>>
    decreases countries.len(),
{
    if countries.len() == 0 {
        None
    } else if malformed_among(countries.drop_last()) is Some {
        malformed_among(countries.drop_last())
    } else {
        malformed_in(countries.last().releases)
    }
}

/// [`malformed_in`] is `None` exactly when no entry is malformed; otherwise
/// it is the date text of the first entry that is.
pub proof fn lemma_malformed_in(raws: Seq<RawRelease>)
    ensures
        malformed_in(raws) is None <==> forall|i: int|
            0 <= i < raws.len() ==> !malformed(#[trigger] raws[i]),
        malformed_in(raws) matches Some(t) ==> exists|i: int|
            0 <= i < raws.len() && malformed(#[trigger] raws[i]) && raws[i].release_date == t
                && forall|j: int| 0 <= j < i ==> !malformed(#[trigger] raws[j]),
    decreases raws.len(),
{
    if raws.len() > 0 {
        let t = raws.drop_last();
        lemma_malformed_in(t);
        if malformed_in(t) is Some {
            let i = choose|i: int|
                0 <= i < t.len() && malformed(#[trigger] t[i]) && t[i].release_date
                    == malformed_in(t)->0 && forall|j: int|
                    0 <= j < i ==> !malformed(#[trigger] t[j]);
            assert(raws[i] == t[i]);
            assert forall|j: int| 0 <= j < i implies !malformed(#[trigger] raws[j]) by {
                assert(raws[j] == t[j]);
            }
        } else {
            assert forall|j: int| 0 <= j < raws.len() - 1 implies !malformed(#[trigger] raws[j]) by {
                assert(raws[j] == t[j]);
            }
            if malformed(raws.last()) {
                assert(malformed(raws[raws.len() - 1]));
            } else {
                assert forall|i: int| 0 <= i < raws.len() implies !malformed(#[trigger] raws[i]) by {
                    if i < raws.len() - 1 {
                        assert(raws[i] == t[i]);
                    }
                }
            }
        }
    }
}

/// The entries of `s` of one kind that lie on or after `today` (`future`) or
/// before it (not `future`), in their order.
pub open spec fn select(
    s: Seq<ReleaseEntry>,
    kind: ReleaseType,
    today: CivilDate,
    future: bool,
) -> Seq<ReleaseEntry>
    decreases s.len(),
{
    if s.len() == 0 {
        Seq::empty()
    } else if s.last().kind == kind && (s.last().date.key() >= today.key()) == future {
        select(s.drop_last(), kind, today, future).push(s.last())
    } else {
        select(s.drop_last(), kind, today, future)
    }
}

/// What [`select`] keeps is of the kind and on the asked side of `today`.
pub proof fn lemma_select(s: Seq<ReleaseEntry>, kind: ReleaseType, today: CivilDate, future: bool)
    ensures
        forall|e: ReleaseEntry| #[trigger]
            select(s, kind, today, future).contains(e) <==> s.contains(e) && e.kind == kind && (
            e.date.key() >= today.key()) == future,
    decreases s.len(),
{
    let r = select(s, kind, today, future);
    if s.len() > 0 {
        let t = s.drop_last();
        let u = select(t, kind, today, future);
        lemma_select(t, kind, today, future);
        assert(t.push(s.last()) =~= s);
        assert forall|e: ReleaseEntry| #[trigger]
            r.contains(e) <==> s.contains(e) && e.kind == kind && (e.date.key() >= today.key())
                == future by {
            if r.contains(e) {
                let k = choose|k: int| 0 <= k < r.len() && r[k] == e;
                if k < u.len() {
                    assert(u[k] == e);
                    assert(u.contains(e));
                    let i = choose|i: int| 0 <= i < t.len() && t[i] == e;
                    assert(s[i] == e);
                } else {
                    assert(s[s.len() - 1] == e);
                }
            }
            if s.contains(e) && e.kind == kind && (e.date.key() >= today.key()) == future {
                let i = choose|i: int| 0 <= i < s.len() && s[i] == e;
                if i < t.len() {
                    assert(t[i] == e);
                    assert(u.contains(e));
                    let k = choose|k: int| 0 <= k < u.len() && u[k] == e;
                    assert(r[k] == e);
                } else {
                    assert(r[r.len() - 1] == e);
                }
            }
        }
    }
}

/// The latest date among the entries of a list that is not empty.
pub open spec fn latest_date(s: Seq<ReleaseEntry>) -> CivilDate
    decreases s.len(),
{
    if s.len() <= 1 {
        s[0].date
    } else if s.last().date.key() >= latest_date(s.drop_last()).key() {
        s.last().date
    } else {
        latest_date(s.drop_last())
    }
}

/// [`latest_date`] is the date of some entry, and no entry is later.
pub proof fn lemma_latest_date(s: Seq<ReleaseEntry>)
    requires
        s.len() > 0,
    ensures
        exists|i: int| 0 <= i < s.len() && (#[trigger] s[i]).date == latest_date(s),
        forall|i: int| 0 <= i < s.len() ==> (#[trigger] s[i]).date.key() <= latest_date(s).key(),
    decreases s.len(),
{
    if s.len() == 1 {
        assert(s[0].date == latest_date(s));
    } else {
        let t = s.drop_last();
        lemma_latest_date(t);
        let i = choose|i: int| 0 <= i < t.len() && (#[trigger] t[i]).date == latest_date(t);
        assert(s[i] == t[i]);
        assert(s[s.len() - 1] == s.last());
        assert forall|j: int| 0 <= j < s.len() implies (#[trigger] s[j]).date.key() <= latest_date(
            s,
        ).key() by {
            if j < t.len() {
                assert(s[j] == t[j]);
            }
        }
    }
}

/// The entry that stands for the past releases of a kind: the latest of
/// them, marked as already available, provided that it is not older than
/// `cutoff`; nothing where the kind has no past release or the latest is
/// older.
pub open spec fn backfill(
    entries: Seq<ReleaseEntry>,
    kind: ReleaseType,
    today: CivilDate,
    cutoff: CivilDate,
) -> Seq<ReleaseEntry> {
    let past = select(entries, kind, today, false);
    if past.len() > 0 && latest_date(past).key() >= cutoff.key() {
        seq![ReleaseEntry { date: latest_date(past), kind, note: Some(already_available()) }]
    } else {
        Seq::empty()
    }
}

/// The list that a country shows for one kind: the entry that stands for
/// its past releases, if there is one, followed by its releases from
/// `today` on, in canonical form.
pub open spec fn releases_of_kind(
    entries: Seq<ReleaseEntry>,
    kind: ReleaseType,
    today: CivilDate,
    cutoff: CivilDate,
) -> Seq<ReleaseEntry> {
    backfill(entries, kind, today, cutoff) + canonical_form(select(entries, kind, today, true))
}

/// The release set of one country.
pub open spec fn country_set(raw: RawCountry, today: CivilDate, cutoff: CivilDate)
    -> CountryReleaseSet {
    let entries = parsed_entries(raw.releases);
    CountryReleaseSet {
        country: raw.code,
        theatrical: releases_of_kind(entries, ReleaseType::Theatrical, today, cutoff),
        streaming: releases_of_kind(entries, ReleaseType::Digital, today, cutoff),
    }
}

/// The release sets of all countries, in the provider's order.
pub open spec fn country_sets(countries: Seq<RawCountry>, today: CivilDate, cutoff: CivilDate)
    -> Seq<CountryReleaseSet> {
    Seq::new(countries.len(), |i: int| country_set(countries[i], today, cutoff))
}

/// A set without entries for `country`.
pub open spec fn empty_set(country: Seq<char>) -> CountryReleaseSet {
    CountryReleaseSet { country, theatrical: Seq::empty(), streaming: Seq::empty() }
}

/// The set for `country` among `sets`, or an empty one where there is none.
pub open spec fn requested_set(sets: Seq<CountryReleaseSet>, country: Seq<char>)
    -> CountryReleaseSet {
    match country_entry(sets, country) {
        Some(c) => c,
        None => empty_set(country),
    }
}

/// Every list that [`releases_of_kind`] gives is canonical and holds entries
/// of the one kind only. The entry that stands for the past is dated before
/// `today` and not before `cutoff`; every entry behind it is dated `today`
/// or later.
pub proof fn lemma_releases_of_kind(
    entries: Seq<ReleaseEntry>,
    kind: ReleaseType,
    today: CivilDate,
    cutoff: CivilDate,
)
    ensures
        canonical(releases_of_kind(entries, kind, today, cutoff)),
        forall|i: int|
            0 <= i < releases_of_kind(entries, kind, today, cutoff).len() ==> (
            #[trigger] releases_of_kind(entries, kind, today, cutoff)[i]).kind == kind,
        backfill(entries, kind, today, cutoff).len() <= 1,
        forall|i: int|
            0 <= i < backfill(entries, kind, today, cutoff).len() ==> cutoff.key() <= (
            #[trigger] backfill(entries, kind, today, cutoff)[i]).date.key() < today.key(),
        forall|i: int|
            backfill(entries, kind, today, cutoff).len() <= i < releases_of_kind(
                entries,
                kind,
                today,
                cutoff,
            ).len() ==> (#[trigger] releases_of_kind(entries, kind, today, cutoff)[i]).date.key()
                >= today.key(),
{
    let r = releases_of_kind(entries, kind, today, cutoff);
    let b = backfill(entries, kind, today, cutoff);
    let sel = select(entries, kind, today, true);
    let f = canonical_form(sel);
    let past = select(entries, kind, today, false);
    crate::releases::lemma_canonical_form(sel);
    lemma_select(entries, kind, today, true);
    lemma_select(entries, kind, today, false);
    assert forall|k: int| 0 <= k < f.len() implies (#[trigger] f[k]).kind == kind && f[k].date.key()
        >= today.key() by {
        assert(f.contains(f[k]));
        assert(sel.contains(f[k]));
    }
    if b.len() > 0 {
        lemma_latest_date(past);
        let w = choose|i: int| 0 <= i < past.len() && (#[trigger] past[i]).date == latest_date(past);
        assert(past.contains(past[w]));
        assert(b[0].date.key() < today.key());
    }
    assert forall|i: int, j: int| 0 <= i < j < r.len() implies crate::releases::by_date()(
        #[trigger] r[i],
        #[trigger] r[j],
    ) && r[i] != r[j] by {
        if i >= b.len() {
            assert(r[i] == f[i - b.len()]);
            assert(r[j] == f[j - b.len()]);
        } else {
            assert(r[j] == f[j - b.len()]);
        }
    }
    assert forall|i: int| 0 <= i < r.len() implies (#[trigger] r[i]).kind == kind by {
        if i >= b.len() {
            assert(r[i] == f[i - b.len()]);
        }
    }
    assert forall|i: int| b.len() <= i < r.len() implies (#[trigger] r[i]).date.key()
        >= today.key() by {
        assert(r[i] == f[i - b.len()]);
    }
}

/// A note as the client keeps it: trimmed, and dropped where blank.
pub fn normalize_note(note: &Option<String>) -> (r: Option<String>)
    ensures
        r.deep_view() == normalized_note(note.deep_view()),
{
    match note {
        Some(s) => {
            let t = trim(s.as_str());
            if t.as_str().unicode_len() == 0 {
                None
            } else {
                Some(t)
            }
        },
        None => None,
    }
}

/// Reads the raw entries of one country: passes over the kinds that are not
/// tracked, and fails at the first entry of a tracked kind whose date is no
/// timestamp.
pub fn parse_entries(raws: &Vec<ReleaseDateEntry>) -> (r: Result<Vec<ReleaseDate>, TmdbError>)
    ensures
        match r {
            Ok(v) => malformed_in(raws.deep_view()) is None && v.deep_view() == parsed_entries(
                raws.deep_view(),
            ),
            Err(TmdbError::MalformedDate { text }) => malformed_in(raws.deep_view()) == Some(text@),
            Err(_) => false,
        },
        r is Ok <==> forall|i: int| 0 <= i < raws.len() ==> !malformed(#[trigger] raws.deep_view()[i]),
{
    proof {
        lemma_malformed_in(raws.deep_view());
    }
    let mut out: Vec<ReleaseDate> = Vec::new();
    let mut i: usize = 0;
    assert(raws.deep_view().take(0) =~= Seq::<RawRelease>::empty());
    while i < raws.len()
        invariant
            i <= raws.len(),
            malformed_in(raws.deep_view().take(i as int)) is None,
            out.deep_view() == parsed_entries(raws.deep_view().take(i as int)),
        decreases raws.len() - i,
    {
        let raw = &raws[i];
        proof {
            assert(raws.deep_view().take(i + 1).drop_last() =~= raws.deep_view().take(i as int));
            assert(raws.deep_view().take(i + 1).last() == raw.deep_view());
        }
        match ReleaseType::from_tmdb_code(raw.type_) {
            None => {},
            Some(kind) => {
                match parse_timestamp_date(raw.release_date.as_str()) {
                    Err(_) => {
                        proof {
                            lemma_malformed_rest(raws.deep_view(), i + 1);
                        }
                        return Err(TmdbError::MalformedDate { text: raw.release_date.clone() });
                    },
                    Ok(date) => {
                        let ghost before = out.deep_view();
                        let e = ReleaseDate {
                            date,
                            release_type: kind,
                            note: normalize_note(&raw.note),
                        };
                        out.push(e);
                        assert(out.deep_view() =~= before.push(entry_of(raw.deep_view())));
                    },
                }
            },
        }
        i += 1;
    }
    assert(raws.deep_view().take(raws.len() as int) =~= raws.deep_view());
    Ok(out)
}

/// Once a prefix holds a malformed entry, the whole list reports the same
/// one.
pub proof fn lemma_malformed_rest(raws: Seq<RawRelease>, n: int)
    requires
        0 <= n <= raws.len(),
        malformed_in(raws.take(n)) is Some,
    ensures
        malformed_in(raws) == malformed_in(raws.take(n)),
    decreases raws.len() - n,
{
    if n < raws.len() {
        assert(raws.take(n + 1).drop_last() =~= raws.take(n));
        lemma_malformed_rest(raws, n + 1);
    } else {
        assert(raws.take(n) =~= raws);
    }
}

/// The entries of `v` of one kind on the asked side of `today`.
pub fn select_entries(v: &Vec<ReleaseDate>, kind: ReleaseType, today: &CivilDate, future: bool)
    -> (r: Vec<ReleaseDate>)
    ensures
        r.deep_view() == select(v.deep_view(), kind, *today, future),
{
    let mut out: Vec<ReleaseDate> = Vec::new();
    let mut i: usize = 0;
    assert(v.deep_view().take(0) =~= Seq::<ReleaseEntry>::empty());
    while i < v.len()
        invariant
            i <= v.len(),
            out.deep_view() == select(v.deep_view().take(i as int), kind, *today, future),
        decreases v.len() - i,
    {
        proof {
            assert(v.deep_view().take(i + 1).drop_last() =~= v.deep_view().take(i as int));
            assert(v.deep_view().take(i + 1).last() == v[i as int].deep_view());
        }
        if v[i].release_type == kind && today.le(&v[i].date) == future {
            let ghost before = out.deep_view();
            out.push(v[i].clone());
            assert(out.deep_view() =~= before.push(v[i as int].deep_view()));
        }
        i += 1;
    }
    assert(v.deep_view().take(v.len() as int) =~= v.deep_view());
    out
}

/// The latest date among the entries of `v`.
pub fn latest_of(v: &Vec<ReleaseDate>) -> (r: Option<CivilDate>)
    ensures
        r == if v.len() == 0 {
            None
        } else {
            Some(latest_date(v.deep_view()))
        },
        r matches Some(d) ==> (exists|i: int| 0 <= i < v.len() && (#[trigger] v.deep_view()[i]).date
            == d) && forall|i: int|
            0 <= i < v.len() ==> (#[trigger] v.deep_view()[i]).date.key() <= d.key(),
{
    if v.len() == 0 {
        return None;
    }
    proof {
        lemma_latest_date(v.deep_view());
    }
    let mut best = v[0].date;
    let mut i: usize = 1;
    assert(v.deep_view().take(1)[0] == v[0].deep_view());
    while i < v.len()
        invariant
            1 <= i <= v.len(),
            best == latest_date(v.deep_view().take(i as int)),
        decreases v.len() - i,
    {
        proof {
            assert(v.deep_view().take(i + 1).drop_last() =~= v.deep_view().take(i as int));
            assert(v.deep_view().take(i + 1).last() == v[i as int].deep_view());
        }
        if best.le(&v[i].date) {
            best = v[i].date;
        }
        i += 1;
    }
    assert(v.deep_view().take(v.len() as int) =~= v.deep_view());
    Some(best)
}

/// The list that a country shows for one kind; see [`releases_of_kind`].
pub fn kind_releases(
    entries: &Vec<ReleaseDate>,
    kind: ReleaseType,
    today: &CivilDate,
    cutoff: &CivilDate,
) -> (r: Vec<ReleaseDate>)
    ensures
        r.deep_view() == releases_of_kind(entries.deep_view(), kind, *today, *cutoff),
        canonical(r.deep_view()),
{
    proof {
        lemma_releases_of_kind(entries.deep_view(), kind, *today, *cutoff);
    }
    let past = select_entries(entries, kind, today, false);
    let mut out: Vec<ReleaseDate> = Vec::new();
    assert(out.deep_view() =~= Seq::<ReleaseEntry>::empty());
    match latest_of(&past) {
        Some(latest) => {
            if cutoff.le(&latest) {
                out.push(
                    ReleaseDate {
                        date: latest,
                        release_type: kind,
                        note: Some("Already available".to_owned()),
                    },
                );
                assert(out.deep_view() =~= seq![
                    ReleaseEntry { date: latest, kind, note: Some(already_available()) },
                ]);
            }
        },
        None => {},
    }
    let mut future = canonicalize(&select_entries(entries, kind, today, true));
    let ghost first = out.deep_view();
    let ghost second = future.deep_view();
    out.append(&mut future);
    assert(out.deep_view() =~= first + second);
    out
}

/// The release set of one country, or the malformed date that prevents it.
pub fn country_releases(raw: &ReleaseDatesCountry, today: &CivilDate, cutoff: &CivilDate) -> (r:
    Result<CountryReleases, TmdbError>)
    ensures
        match r {
            Ok(c) => malformed_in(raw.deep_view().releases) is None && c.deep_view() == country_set(
                raw.deep_view(),
                *today,
                *cutoff,
            ),
            Err(TmdbError::MalformedDate { text }) => malformed_in(raw.deep_view().releases)
                == Some(text@),
            Err(_) => false,
        },
{
    match parse_entries(&raw.release_dates) {
        Err(e) => Err(e),
        Ok(entries) => {
            let theatrical = kind_releases(&entries, ReleaseType::Theatrical, today, cutoff);
            let streaming = kind_releases(&entries, ReleaseType::Digital, today, cutoff);
            Ok(CountryReleases { country: raw.iso_3166_1.clone(), theatrical, streaming })
        },
    }
}

/// A release set without entries for `country`.
pub fn empty_country(country: &str) -> (r: CountryReleases)
    ensures
        r.deep_view() == empty_set(country@),
{
    let r = CountryReleases {
        country: country.to_owned(),
        theatrical: Vec::new(),
        streaming: Vec::new(),
    };
    assert(r.theatrical.deep_view() =~= Seq::<ReleaseEntry>::empty());
    assert(r.streaming.deep_view() =~= Seq::<ReleaseEntry>::empty());
    r
}

/// Once the countries before `n` hold a malformed entry, all countries
/// report the same one.
pub proof fn lemma_malformed_among_rest(countries: Seq<RawCountry>, n: int)
    requires
        0 <= n <= countries.len(),
        malformed_among(countries.take(n)) is Some,
    ensures
        malformed_among(countries) == malformed_among(countries.take(n)),
    decreases countries.len() - n,
{
    if n < countries.len() {
        assert(countries.take(n + 1).drop_last() =~= countries.take(n));
        lemma_malformed_among_rest(countries, n + 1);
    } else {
        assert(countries.take(n) =~= countries);
    }
}

/// `r` is what the client makes of the provider's release dates of one
/// film: one release set per country, and the set of the requested country
/// (an empty one where the provider names no such country); or the failure
/// `CurrentDateOutOfRange` where the date two years before `today` does not
/// exist, and otherwise `MalformedDate` with the text of the first entry of
/// a tracked kind whose date is no timestamp.
pub open spec fn reads_release_dates(
    results: Seq<RawCountry>,
    country: Seq<char>,
    today: CivilDate,
    r: Result<ReleaseDatesResult, TmdbError>,
) -> bool {
    match r {
        Ok(res) => {
            &&& today.minus_years(AVAILABILITY_WINDOW_YEARS as int) matches Some(cutoff)
            &&& malformed_among(results) is None
            &&& res.all_countries.deep_view() == country_sets(results, today, cutoff)
            &&& res.requested_country.deep_view() == requested_set(
                res.all_countries.deep_view(),
                country,
            )
        },
        Err(TmdbError::CurrentDateOutOfRange) => today.minus_years(
            AVAILABILITY_WINDOW_YEARS as int,
        ) is None,
        Err(TmdbError::MalformedDate { text }) => today.minus_years(
            AVAILABILITY_WINDOW_YEARS as int,
        ) is Some && malformed_among(results) == Some(text@),
    }
}

/// `r` is what a client without an access token gives for release dates:
/// the synthetic set for the requested country and no other country; or the
/// failure `CurrentDateOutOfRange` where the two dates do not exist.
pub open spec fn mocks_release_dates(
    country: Seq<char>,
    today: CivilDate,
    r: Result<ReleaseDatesResult, TmdbError>,
) -> bool {
    match r {
        Ok(res) => mock_set(country, today) == Some(res.requested_country.deep_view())
            && res.all_countries.len() == 0,
        Err(TmdbError::CurrentDateOutOfRange) => mock_set(country, today) is None,
        Err(_) => false,
    }
}

/// Turns the provider's release dates of one film into the client's result:
/// one release set per country, and the set of the requested country (an
/// empty one where the provider names no such country).
///
/// Fails with `CurrentDateOutOfRange` where the date two years before `today`
/// does not exist, and otherwise with `MalformedDate` at the first entry of a
/// tracked kind whose date is no timestamp.
pub fn release_dates_from_response(
    results: &Vec<ReleaseDatesCountry>,
    country: &str,
    today: CivilDate,
) -> (r: Result<ReleaseDatesResult, TmdbError>)
    ensures
        reads_release_dates(results.deep_view(), country@, today, r),
        r matches Ok(res) ==> forall|i: int|
            0 <= i < res.all_countries.len() ==> canonical(
                (#[trigger] res.all_countries.deep_view()[i]).theatrical,
            ) && canonical(res.all_countries.deep_view()[i].streaming),
{
    let cutoff = match date_minus_years(today, AVAILABILITY_WINDOW_YEARS) {
        Some(c) => c,
        None => {
            return Err(TmdbError::CurrentDateOutOfRange);
        },
    };
    let mut all: Vec<CountryReleases> = Vec::new();
    let mut i: usize = 0;
    assert(results.deep_view().take(0) =~= Seq::<RawCountry>::empty());
    while i < results.len()
        invariant
            i <= results.len(),
            today.minus_years(AVAILABILITY_WINDOW_YEARS as int) == Some(cutoff),
            malformed_among(results.deep_view().take(i as int)) is None,
            all.deep_view() == country_sets(results.deep_view().take(i as int), today, cutoff),
        decreases results.len() - i,
    {
        proof {
            assert(results.deep_view().take(i + 1).drop_last() =~= results.deep_view().take(
                i as int,
            ));
            assert(results.deep_view().take(i + 1).last() == results[i as int].deep_view());
        }
        match country_releases(&results[i], &today, &cutoff) {
            Err(e) => {
                proof {
                    lemma_malformed_among_rest(results.deep_view(), i + 1);
                }
                return Err(e);
            },
            Ok(c) => {
                let ghost before = all.deep_view();
                let ghost next = country_sets(results.deep_view().take(i + 1), today, cutoff);
                assert(before.len() == i);
                all.push(c);
                assert(all.deep_view() =~= before.push(c.deep_view()));
                assert forall|j: int| 0 <= j < i + 1 implies all.deep_view()[j] == next[j] by {
                    if j < i {
                        assert(results.deep_view().take(i + 1)[j] == results.deep_view().take(
                            i as int,
                        )[j]);
                        assert(before[j] == country_set(
                            results.deep_view().take(i as int)[j],
                            today,
                            cutoff,
                        ));
                    }
                }
                assert(all.deep_view() =~= next);
            },
        }
        i += 1;
    }
    assert(results.deep_view().take(results.len() as int) =~= results.deep_view());
    proof {
        assert forall|i: int| 0 <= i < all.len() implies canonical(
            (#[trigger] all.deep_view()[i]).theatrical,
        ) && canonical(all.deep_view()[i].streaming) by {
            let entries = parsed_entries(results.deep_view()[i].releases);
            lemma_releases_of_kind(entries, ReleaseType::Theatrical, today, cutoff);
            lemma_releases_of_kind(entries, ReleaseType::Digital, today, cutoff);
        }
    }
    let requested_country = match find_country(&all, country) {
        Some(k) => all[k].clone(),
        None => empty_country(country),
    };
    Ok(ReleaseDatesResult { requested_country, all_countries: all })
}

/// One provider as the catalog reports it under a category.
#[derive(Debug, PartialEq, Eq)]
pub struct WatchProviderEntry {
    pub provider_id: i32,
    pub provider_name: String,
    pub logo_path: String,
}

/// What a [`WatchProviderEntry`] is.
pub struct RawProvider {
    pub provider_id: i32,
    pub provider_name: Seq<char>,
    pub logo_path: Seq<char>,
}

impl DeepView for WatchProviderEntry {
    type V = RawProvider;

    open spec fn deep_view(&self) -> RawProvider {
        RawProvider {
            provider_id: self.provider_id,
            provider_name: self.provider_name@,
            logo_path: self.logo_path@,
        }
    }
}

/// The providers of one country, by category, with the country's link.
#[derive(Debug, PartialEq, Eq)]
pub struct WatchProviderCountry {
    pub link: Option<String>,
    pub flatrate: Option<Vec<WatchProviderEntry>>,
    pub rent: Option<Vec<WatchProviderEntry>>,
    pub buy: Option<Vec<WatchProviderEntry>>,
}

/// What a [`WatchProviderCountry`] is.
pub struct RawProviderCountry {
    pub link: Option<Seq<char>>,
    pub flatrate: Option<Seq<RawProvider>>,
    pub rent: Option<Seq<RawProvider>>,
    pub buy: Option<Seq<RawProvider>>,
}

impl DeepView for WatchProviderCountry {
    type V = RawProviderCountry;

    open spec fn deep_view(&self) -> RawProviderCountry {
        RawProviderCountry {
            link: self.link.deep_view(),
            flatrate: self.flatrate.deep_view(),
            rent: self.rent.deep_view(),
            buy: self.buy.deep_view(),
        }
    }
}

/// The providers of a category; none where the category is absent.
pub open spec fn category(raws: Option<Seq<RawProvider>>) -> Seq<RawProvider> {
    match raws {
        Some(s) => s,
        None => Seq::empty(),
    }
}

/// Some provider of `raws` has the identifier `id`.
pub open spec fn lists_provider(raws: Seq<RawProvider>, id: i32) -> bool {
    exists|i: int| 0 <= i < raws.len() && (#[trigger] raws[i]).provider_id == id
}

/// Some offer of `offers` is by the provider `id`.
pub open spec fn has_provider(offers: Seq<ProviderOffer>, id: i32) -> bool {
    exists|i: int| 0 <= i < offers.len() && (#[trigger] offers[i]).provider_id == id
}

/// No two offers are by the same provider.
pub open spec fn unique_providers(offers: Seq<ProviderOffer>) -> bool {
    forall|i: int, j: int|
        0 <= i < j < offers.len() ==> (#[trigger] offers[i]).provider_id != (
        #[trigger] offers[j]).provider_id
}

/// The offer that a provider makes under a category.
pub open spec fn offer(raw: RawProvider, link: Option<Seq<char>>, kind: ProviderType)
    -> ProviderOffer {
    ProviderOffer {
        provider_id: raw.provider_id,
        provider_name: raw.provider_name,
        logo_path: raw.logo_path,
        link,
        provider_type: kind,
    }
}

/// `acc`, followed by an offer of type `kind` for each provider of `raws`
/// that has no offer yet.
pub open spec fn merged(
    acc: Seq<ProviderOffer>,
    raws: Seq<RawProvider>,
    link: Option<Seq<char>>,
    kind: ProviderType,
) -> Seq<ProviderOffer>
    decreases raws.len(),
{
    if raws.len() == 0 {
        acc
    } else {
        let before = merged(acc, raws.drop_last(), link, kind);
        if has_provider(before, raws.last().provider_id) {
            before
        } else {
            before.push(offer(raws.last(), link, kind))
        }
    }
}

/// The offers of a country: each provider once, under the first of
/// streaming, rental and purchase in which the catalog lists it.
pub open spec fn offers_of(data: RawProviderCountry) -> Seq<ProviderOffer> {
    let stream = merged(Seq::empty(), category(data.flatrate), data.link, ProviderType::Stream);
    let rent = merged(stream, category(data.rent), data.link, ProviderType::Rent);
    merged(rent, category(data.buy), data.link, ProviderType::Buy)
}

/// What [`merged`] adds to `acc`: it keeps `acc` as a prefix and its
/// providers apart, has an offer for exactly the providers of `acc` and of
/// `raws`, and gives every added offer the type `kind` and the link.
pub proof fn lemma_merged(
    acc: Seq<ProviderOffer>,
    raws: Seq<RawProvider>,
    link: Option<Seq<char>>,
    kind: ProviderType,
)
    requires
        unique_providers(acc),
    ensures
        unique_providers(merged(acc, raws, link, kind)),
        acc.len() <= merged(acc, raws, link, kind).len(),
        forall|i: int| 0 <= i < acc.len() ==> merged(acc, raws, link, kind)[i] == acc[i],
        forall|i: int|
            acc.len() <= i < merged(acc, raws, link, kind).len() ==> {
                let o = #[trigger] merged(acc, raws, link, kind)[i];
                o.provider_type == kind && o.link == link && lists_provider(raws, o.provider_id)
                    && !has_provider(acc, o.provider_id)
            },
        forall|id: i32|
            has_provider(merged(acc, raws, link, kind), id) <==> has_provider(acc, id)
                || lists_provider(raws, id),
    decreases raws.len(),
{
    let r = merged(acc, raws, link, kind);
    if raws.len() == 0 {
        assert forall|id: i32| has_provider(r, id) <==> has_provider(acc, id) || lists_provider(
            raws,
            id,
        ) by {}
    } else {
        let t = raws.drop_last();
        let x = raws.last();
        let b = merged(acc, t, link, kind);
        lemma_merged(acc, t, link, kind);
        assert forall|id: i32| lists_provider(raws, id) <==> lists_provider(t, id)
            || x.provider_id == id by {
            if lists_provider(raws, id) {
                let i = choose|i: int| 0 <= i < raws.len() && (#[trigger] raws[i]).provider_id == id;
                if i < t.len() {
                    assert(t[i].provider_id == id);
                }
            }
            if lists_provider(t, id) {
                let i = choose|i: int| 0 <= i < t.len() && (#[trigger] t[i]).provider_id == id;
                assert(raws[i].provider_id == id);
            }
            if x.provider_id == id {
                assert(raws[raws.len() - 1].provider_id == id);
            }
        }
        if has_provider(b, x.provider_id) {
            assert forall|i: int| acc.len() <= i < r.len() implies {
                let o = #[trigger] r[i];
                o.provider_type == kind && o.link == link && lists_provider(raws, o.provider_id)
                    && !has_provider(acc, o.provider_id)
            } by {
                assert(lists_provider(t, b[i].provider_id));
            }
        } else {
            let o = offer(x, link, kind);
            assert(r == b.push(o));
            assert forall|i: int, j: int| 0 <= i < j < r.len() implies (
            #[trigger] r[i]).provider_id != (#[trigger] r[j]).provider_id by {
                if j == b.len() {
                    assert(b[i].provider_id != x.provider_id);
                }
            }
            assert(!has_provider(acc, x.provider_id)) by {
                if has_provider(acc, x.provider_id) {
                    let i = choose|i: int|
                        0 <= i < acc.len() && (#[trigger] acc[i]).provider_id == x.provider_id;
                    assert(b[i].provider_id == x.provider_id);
                }
            }
            assert forall|i: int| acc.len() <= i < r.len() implies {
                let o = #[trigger] r[i];
                o.provider_type == kind && o.link == link && lists_provider(raws, o.provider_id)
                    && !has_provider(acc, o.provider_id)
            } by {
                if i < b.len() {
                    assert(r[i] == b[i]);
                    assert(lists_provider(t, b[i].provider_id));
                }
            }
            assert forall|id: i32| has_provider(r, id) <==> has_provider(acc, id)
                || lists_provider(raws, id) by {
                if has_provider(r, id) {
                    let i = choose|i: int| 0 <= i < r.len() && (#[trigger] r[i]).provider_id == id;
                    if i < b.len() {
                        assert(b[i].provider_id == id);
                    }
                }
                if has_provider(b, id) {
                    let i = choose|i: int| 0 <= i < b.len() && (#[trigger] b[i]).provider_id == id;
                    assert(r[i].provider_id == id);
                }
                if x.provider_id == id {
                    assert(r[r.len() - 1].provider_id == id);
                }
            }
        }
    }
}

/// In the offers of a country no provider occurs twice, and each provider's
/// offer is of the first type, in the order streaming, rental, purchase,
/// under which the catalog lists the provider.
pub proof fn lemma_offers_of(data: RawProviderCountry)
    ensures
        unique_providers(offers_of(data)),
        forall|id: i32|
            has_provider(offers_of(data), id) <==> lists_provider(category(data.flatrate), id)
                || lists_provider(category(data.rent), id) || lists_provider(
                category(data.buy),
                id,
            ),
        forall|i: int|
            0 <= i < offers_of(data).len() ==> {
                let o = #[trigger] offers_of(data)[i];
                &&& o.link == data.link
                &&& o.provider_type == if lists_provider(category(data.flatrate), o.provider_id) {
                    ProviderType::Stream
                } else if lists_provider(category(data.rent), o.provider_id) {
                    ProviderType::Rent
                } else {
                    ProviderType::Buy
                }
            },
{
    let none = Seq::<ProviderOffer>::empty();
    let stream = merged(none, category(data.flatrate), data.link, ProviderType::Stream);
    let rent = merged(stream, category(data.rent), data.link, ProviderType::Rent);
    let all = merged(rent, category(data.buy), data.link, ProviderType::Buy);
    lemma_merged(none, category(data.flatrate), data.link, ProviderType::Stream);
    lemma_merged(stream, category(data.rent), data.link, ProviderType::Rent);
    lemma_merged(rent, category(data.buy), data.link, ProviderType::Buy);
    assert forall|id: i32| !has_provider(none, id) by {}
    assert forall|i: int| 0 <= i < all.len() implies {
        let o = #[trigger] all[i];
        &&& o.link == data.link
        &&& o.provider_type == if lists_provider(category(data.flatrate), o.provider_id) {
            ProviderType::Stream
        } else if lists_provider(category(data.rent), o.provider_id) {
            ProviderType::Rent
        } else {
            ProviderType::Buy
        }
    } by {
        let o = all[i];
        if i < stream.len() {
            assert(all[i] == rent[i]);
            assert(rent[i] == stream[i]);
            let p = stream[i];
            assert(p.provider_type == ProviderType::Stream);
        } else if i < rent.len() {
            assert(all[i] == rent[i]);
            let p = rent[i];
            assert(!has_provider(stream, p.provider_id));
        } else {
            assert(!has_provider(rent, o.provider_id));
        }
    }
}

/// Whether some offer of `v` is by the provider `id`.
pub fn has_offer(v: &Vec<WatchProvider>, id: i32) -> (r: bool)
    ensures
        r == has_provider(v.deep_view(), id),
{
    let mut i: usize = 0;
    while i < v.len()
        invariant
            i <= v.len(),
            forall|j: int| 0 <= j < i ==> (#[trigger] v.deep_view()[j]).provider_id != id,
        decreases v.len() - i,
    {
        if v[i].provider_id == id {
            assert(v.deep_view()[i as int].provider_id == id);
            return true;
        }
        i += 1;
    }
    false
}

/// Appends to `acc` an offer of type `kind` for each provider of the
/// category that has no offer yet.
pub fn merge_category(
    acc: &mut Vec<WatchProvider>,
    raws: &Option<Vec<WatchProviderEntry>>,
    link: &Option<String>,
    kind: ProviderType,
)
    ensures
        final(acc).deep_view() == merged(
            old(acc).deep_view(),
            category(raws.deep_view()),
            link.deep_view(),
            kind,
        ),
{
    match raws {
        None => {},
        Some(list) => {
            let mut i: usize = 0;
            assert(list.deep_view().take(0) =~= Seq::<RawProvider>::empty());
            while i < list.len()
                invariant
                    i <= list.len(),
                    acc.deep_view() == merged(
                        old(acc).deep_view(),
                        list.deep_view().take(i as int),
                        link.deep_view(),
                        kind,
                    ),
                decreases list.len() - i,
            {
                proof {
                    assert(list.deep_view().take(i + 1).drop_last() =~= list.deep_view().take(
                        i as int,
                    ));
                    assert(list.deep_view().take(i + 1).last() == list[i as int].deep_view());
                }
                let p = &list[i];
                if !has_offer(acc, p.provider_id) {
                    let ghost before = acc.deep_view();
                    acc.push(
                        WatchProvider {
                            provider_id: p.provider_id,
                            provider_name: p.provider_name.clone(),
                            logo_path: p.logo_path.clone(),
                            link: clone_text(link),
                            provider_type: kind,
                        },
                    );
                    assert(acc.deep_view() =~= before.push(
                        offer(p.deep_view(), link.deep_view(), kind),
                    ));
                }
                i += 1;
            }
            assert(list.deep_view().take(list.len() as int) =~= list.deep_view());
        },
    }
}

/// `r` is what the client makes of the provider data of the requested
/// country: the offers, each provider once under its first category, and the
/// country's link; no offers and no link where there is no data.
pub open spec fn reads_watch_providers(
    data: Option<&WatchProviderCountry>,
    r: (Vec<WatchProvider>, Option<String>),
) -> bool {
    match data {
        Some(d) => r.0.deep_view() == offers_of(d.deep_view()) && r.1.deep_view()
            == d.deep_view().link && unique_providers(r.0.deep_view()),
        None => r.0.deep_view() == Seq::<ProviderOffer>::empty() && r.1 is None,
    }
}

/// `r` is what a client without an access token gives for watch offers: one
/// streaming offer, and a link.
pub open spec fn mocks_watch_providers(r: (Vec<WatchProvider>, Option<String>)) -> bool {
    &&& r.0.deep_view() == seq![
        ProviderOffer {
            provider_id: 8,
            provider_name: "Netflix"@,
            logo_path: "/pbpMk2JmcoNnQwx5JGpXngfoWtp.jpg"@,
            link: None,
            provider_type: ProviderType::Stream,
        },
    ]
    &&& r.1.deep_view() == Some("https://www.themoviedb.org/movie/550/watch"@)
}

/// Turns the provider data of the requested country into the client's
/// result: the offers, each provider once under its first category, and the
/// country's link. Where the catalog has no data for the country, there are
/// no offers and no link.
pub fn watch_providers_from_response(data: Option<&WatchProviderCountry>) -> (r: (
    Vec<WatchProvider>,
    Option<String>,
))
    ensures
        reads_watch_providers(data, r),
{
    let mut providers: Vec<WatchProvider> = Vec::new();
    assert(providers.deep_view() =~= Seq::<ProviderOffer>::empty());
    match data {
        None => (providers, None),
        Some(d) => {
            merge_category(&mut providers, &d.flatrate, &d.link, ProviderType::Stream);
            merge_category(&mut providers, &d.rent, &d.link, ProviderType::Rent);
            merge_category(&mut providers, &d.buy, &d.link, ProviderType::Buy);
            proof {
                lemma_offers_of(d.deep_view());
            }
            (providers, clone_text(&d.link))
        },
    }
}

/// One hit of a title search.
#[derive(Debug, PartialEq, Eq)]
pub struct SearchMovie {
    pub id: i32,
    pub poster_path: Option<String>,
}

/// The first hit of a search: its catalog identifier and poster path.
pub fn first_search_result(results: &Vec<SearchMovie>) -> (r: Option<(i32, Option<String>)>)
    ensures
        results.len() == 0 ==> r is None,
        results.len() > 0 ==> r == Some((results[0].id, results[0].poster_path)),
{
    if results.len() == 0 {
        None
    } else {
        Some((results[0].id, clone_text(&results[0].poster_path)))
    }
}

/// The settings of the catalog client.
#[derive(Debug, PartialEq, Eq)]
pub struct TmdbClient {
    pub access_token: String,
    pub base_url: String,
    pub rps: u32,
}

impl TmdbClient {
    /// The settings as given, with a rate of at least one request a second.
    pub fn new(access_token: String, base_url: String, rps: u32) -> (r: TmdbClient)
        ensures
            r.access_token == access_token,
            r.base_url == base_url,
            r.rps == if rps == 0 {
                1
            } else {
                rps
            },
    {
        TmdbClient { access_token, base_url, rps: if rps == 0 {
            1
        } else {
            rps
        } }
    }

    /// Without an access token the client answers with synthetic data and
    /// asks the provider nothing.
    pub fn uses_mock_data(&self) -> (r: bool)
        ensures
            r == is_blank(self.access_token@),
    {
        blank(self.access_token.as_str())
    }

    /// The outcome of a search, given the hits that the provider reported:
    /// the first hit. Without an access token the hits are not looked at,
    /// and the outcome is the synthetic one.
    pub fn search_movie(&self, results: &Vec<SearchMovie>) -> (r: Option<(i32, Option<String>)>)
        ensures
            is_blank(self.access_token@) ==> r == Some((MOCK_TMDB_ID, None::<String>)),
            !is_blank(self.access_token@) && results.len() == 0 ==> r is None,
            !is_blank(self.access_token@) && results.len() > 0 ==> r == Some(
                (results[0].id, results[0].poster_path),
            ),
    {
        if self.uses_mock_data() {
            mock_search_result()
        } else {
            first_search_result(results)
        }
    }

    /// The poster of a film, given the poster path that the provider
    /// reported; none without an access token.
    pub fn get_movie_details(&self, poster_path: Option<String>) -> (r: Option<String>)
        ensures
            r == if is_blank(self.access_token@) {
                None
            } else {
                poster_path
            },
    {
        if self.uses_mock_data() {
            None
        } else {
            poster_path
        }
    }

    /// The release dates of a film, given what the provider reported; see
    /// [`release_dates_from_response`]. Without an access token the report
    /// is not looked at, and the outcome is the synthetic one; see
    /// [`mock_release_dates`].
    pub fn get_release_dates(
        &self,
        results: &Vec<ReleaseDatesCountry>,
        country: &str,
        today: CivilDate,
    ) -> (r: Result<ReleaseDatesResult, TmdbError>)
        ensures
            is_blank(self.access_token@) ==> mocks_release_dates(country@, today, r),
            !is_blank(self.access_token@) ==> reads_release_dates(
                results.deep_view(),
                country@,
                today,
                r,
            ),
    {
        if self.uses_mock_data() {
            mock_release_dates(country, today)
        } else {
            release_dates_from_response(results, country, today)
        }
    }

    /// The watch offers of a film, given what the provider reported for the
    /// requested country; see [`watch_providers_from_response`]. Without an
    /// access token the report is not looked at, and the outcome is the
    /// synthetic one; see [`mock_watch_providers`].
    pub fn get_watch_providers(&self, data: Option<&WatchProviderCountry>) -> (r: (
        Vec<WatchProvider>,
        Option<String>,
    ))
        ensures
            is_blank(self.access_token@) ==> mocks_watch_providers(r),
            !is_blank(self.access_token@) ==> reads_watch_providers(data, r),
    {
        if self.uses_mock_data() {
            mock_watch_providers()
        } else {
            watch_providers_from_response(data)
        }
    }
}

/// The identifier that a search gives in place of an answer when the client
/// has no access token.
pub const MOCK_TMDB_ID: i32 = 550;

/// What a search gives when the client has no access token.
pub fn mock_search_result() -> (r: Option<(i32, Option<String>)>)
    ensures
        r == Some((MOCK_TMDB_ID, None::<String>)),
{
    Some((MOCK_TMDB_ID, None))
}

/// The synthetic release set: a theatrical release a year after `today` and
/// a streaming release three months after that.
pub open spec fn mock_set(country: Seq<char>, today: CivilDate) -> Option<CountryReleaseSet> {
    match today.minus_years(-1) {
        Some(theatrical) => match theatrical.plus_months(3) {
            Some(streaming) => Some(
                CountryReleaseSet {
                    country,
                    theatrical: seq![
                        ReleaseEntry {
                            date: theatrical,
                            kind: ReleaseType::Theatrical,
                            note: Some("Mock theatrical release"@),
                        },
                    ],
                    streaming: seq![
                        ReleaseEntry {
                            date: streaming,
                            kind: ReleaseType::Digital,
                            note: Some("Mock streaming release"@),
                        },
                    ],
                },
            ),
            None => None,
        },
        None => None,
    }
}

/// What a request for release dates gives when the client has no access
/// token: the synthetic set for the requested country and no other country.
/// Fails where the two dates do not exist.
pub fn mock_release_dates(country: &str, today: CivilDate) -> (r: Result<
    ReleaseDatesResult,
    TmdbError,
>)
    ensures
        mocks_release_dates(country@, today, r),
{
    let first = match date_minus_years(today, -1) {
        Some(d) => d,
        None => {
            return Err(TmdbError::CurrentDateOutOfRange);
        },
    };
    let second = match date_plus_months(first, 3) {
        Some(d) => d,
        None => {
            return Err(TmdbError::CurrentDateOutOfRange);
        },
    };
    let mut theatrical: Vec<ReleaseDate> = Vec::new();
    theatrical.push(
        ReleaseDate {
            date: first,
            release_type: ReleaseType::Theatrical,
            note: Some("Mock theatrical release".to_owned()),
        },
    );
    let mut streaming: Vec<ReleaseDate> = Vec::new();
    streaming.push(
        ReleaseDate {
            date: second,
            release_type: ReleaseType::Digital,
            note: Some("Mock streaming release".to_owned()),
        },
    );
    let requested_country = CountryReleases { country: country.to_owned(), theatrical, streaming };
    proof {
        let m = mock_set(country@, today)->0;
        assert(requested_country.theatrical.deep_view() =~= m.theatrical);
        assert(requested_country.streaming.deep_view() =~= m.streaming);
    }
    Ok(ReleaseDatesResult { requested_country, all_countries: Vec::new() })
}

/// What a request for watch providers gives when the client has no access
/// token: one streaming offer, and a link.
pub fn mock_watch_providers() -> (r: (Vec<WatchProvider>, Option<String>))
    ensures
        mocks_watch_providers(r),
{
    let mut providers: Vec<WatchProvider> = Vec::new();
    providers.push(
        WatchProvider {
            provider_id: 8,
            provider_name: "Netflix".to_owned(),
            logo_path: "/pbpMk2JmcoNnQwx5JGpXngfoWtp.jpg".to_owned(),
            link: None,
            provider_type: ProviderType::Stream,
        },
    );
    let r = (providers, Some("https://www.themoviedb.org/movie/550/watch".to_owned()));
    assert(r.0.deep_view() =~= seq![
        ProviderOffer {
            provider_id: 8,
            provider_name: "Netflix"@,
            logo_path: "/pbpMk2JmcoNnQwx5JGpXngfoWtp.jpg"@,
            link: None,
            provider_type: ProviderType::Stream,
        },
    ]);
    r
}

} // verus!
