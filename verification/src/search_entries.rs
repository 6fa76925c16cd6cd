//! The entries of a search: how they are put in order, told apart, and taken
//! to be referrals.

use std::time::Instant;
use vstd::prelude::*;

use crate::clock;
use crate::clock::Duration;
use crate::directory;
use crate::directory::{AttributeSeq, DirectoryEntry, SearchEntry};
use crate::metrics;
use crate::metrics::{FsmType, MetricsCollector, MetricsView, OperationType};
use crate::operational_attrs;
use crate::operational_attrs::merge_attributes;
use crate::queue::Queue;
use crate::response::ResultCode;
use crate::string_map;
use crate::string_map::StringMap;
use crate::text;

verus! {

/// The name of an entry by which entries are told apart.
pub open spec fn normalized_dn(dn: Seq<char>) -> Seq<char> {
    text::lower(text::trim(dn))
}

pub fn normalize_search_dn(dn: &str) -> (r: String)
    ensures
        r@ == normalized_dn(dn@),
{
    text::lowercase(text::trimmed(dn).as_str())
}

/// What a [`SearchEntry`] says.
pub struct SearchEntryView {
    pub dn: Seq<char>,
    pub attributes: AttributeSeq,
    pub object_classes: Seq<Seq<char>>,
}

/// What an entry of a search says.
pub open spec fn search_entry_view(e: SearchEntry) -> SearchEntryView {
    SearchEntryView {
        dn: e.dn@,
        attributes: e.attributes@,
        object_classes: text::texts(e.object_classes@),
    }
}

/// An entry of the directory as an entry of a search: all its attributes
/// together, the operational ones over the others.
pub open spec fn as_search_entry(e: DirectoryEntry) -> SearchEntryView {
    SearchEntryView {
        dn: e.dn@,
        attributes: operational_attrs::merged(e.attributes@, e.operational_attributes@),
        object_classes: match string_map::lookup(e.attributes@, "objectclass"@) {
            Some(values) => values,
            None => Seq::empty(),
        },
    }
}

pub fn directory_entry_to_search_entry(entry: &DirectoryEntry) -> (r: SearchEntry)
    ensures
        search_entry_view(r) == as_search_entry(*entry),
{
    let attributes = merge_attributes(
        entry.attributes.copy(),
        entry.operational_attributes.to_attributes(),
    );
    let object_classes = match entry.attributes.get("objectclass") {
        Some(values) => directory::copy_strings(values),
        None => {
            let none: Vec<String> = Vec::new();
            proof {
                assert(text::texts(none@) =~= Seq::<Seq<char>>::empty());
            }
            none
        },
    };
    SearchEntry { dn: entry.dn.clone(), attributes, object_classes }
}

// ---------------------------------------------------------------------------
// Entries that were loaded before the search
// ---------------------------------------------------------------------------

/// The entries by their normalized names; of two with the same name the first
/// one stays.
pub open spec fn loaded(entries: Seq<DirectoryEntry>) -> Seq<(Seq<char>, SearchEntryView)>
    decreases entries.len(),
{
    if entries.len() == 0 {
        Seq::empty()
    } else {
        let before = loaded(entries.drop_last());
        let key = normalized_dn(entries.last().dn@);
        if string_map::lookup(before, key) is Some {
            before
        } else {
            before.push((key, as_search_entry(entries.last())))
        }
    }
}

/// The names of the entries that stay, as they stand in the entries.
pub open spec fn loaded_names(entries: Seq<DirectoryEntry>) -> Seq<Seq<char>> {
    loaded(entries).map_values(|e: (Seq<char>, SearchEntryView)| e.1.dn)
}

/// Entries that were loaded before the search, to be searched as a directory.
#[derive(Debug)]
pub struct PreloadedSearchBackend {
    candidates: Option<Vec<String>>,
    entries: StringMap<SearchEntry>,
}

/// What a [`PreloadedSearchBackend`] holds.
pub struct PreloadedView {
    pub candidates: Option<Seq<Seq<char>>>,
    pub entries: Seq<(Seq<char>, SearchEntryView)>,
}

/// The entries of a map by what they say.
pub open spec fn entry_views(s: Seq<(Seq<char>, SearchEntry)>) -> Seq<
    (Seq<char>, SearchEntryView),
> {
    s.map_values(|e: (Seq<char>, SearchEntry)| (e.0, search_entry_view(e.1)))
}

impl View for PreloadedSearchBackend {
    type V = PreloadedView;

    closed spec fn view(&self) -> PreloadedView {
        PreloadedView {
            candidates: match self.candidates {
                Some(c) => Some(text::texts(c@)),
                None => None,
            },
            entries: entry_views(self.entries@),
        }
    }
}

proof fn lookup_in_views(s: Seq<(Seq<char>, SearchEntry)>, k: Seq<char>)
    ensures
        string_map::lookup(entry_views(s), k) == (match string_map::lookup(s, k) {
            Some(e) => Some(search_entry_view(e)),
            None => None,
        }),
    decreases s.len(),
{
    if s.len() > 0 {
        lookup_in_views(s.drop_first(), k);
        assert(entry_views(s).drop_first() =~= entry_views(s.drop_first()));
        assert(entry_views(s)[0] == (s[0].0, search_entry_view(s[0].1)));
    }
}

impl PreloadedSearchBackend {
    pub fn new(entries: Vec<DirectoryEntry>) -> (r: Self)
        ensures
            r@ == (PreloadedView {
                candidates: Some(loaded_names(entries@)),
                entries: loaded(entries@),
            }),
    {
        let ghost all = entries@;
        let mut candidates: Vec<String> = Vec::new();
        let mut indexed: StringMap<SearchEntry> = StringMap::new();
        let mut i: usize = 0;
        proof {
            assert(entry_views(indexed@) =~= loaded(all.take(0)));
            assert(text::texts(candidates@) =~= loaded_names(all.take(0)));
        }
        while i < entries.len()
            invariant
                all == entries@,
                i <= entries@.len(),
                entry_views(indexed@) == loaded(all.take(i as int)),
                text::texts(candidates@) == loaded_names(all.take(i as int)),
            decreases entries@.len() - i,
        {
            let entry = &entries[i];
            let key = normalize_search_dn(entry.dn.as_str());
            proof {
                assert(all.take(i + 1).drop_last() =~= all.take(i as int));
                assert(all.take(i + 1).last() == all[i as int]);
                lookup_in_views(indexed@, key@);
                string_map::lookup_present(indexed@, key@);
            }
            if !indexed.contains_key(key.as_str()) {
                let ghost before = indexed@;
                let ghost names = candidates@;
                let found = directory_entry_to_search_entry(entry);
                proof {
                    assert forall|j: int| 0 <= j < before.len() implies (#[trigger] before[j]).0
                        != key@ by {
                        if before[j].0 == key@ {
                            assert(string_map::lookup(before, key@) is Some);
                        }
                    }
                    string_map::put_at(before, key@, found, before.len() as int);
                    text::texts_push(names, entry.dn);
                }
                candidates.push(entry.dn.clone());
                let _ = indexed.insert(key, found);
                proof {
                    let now = loaded(all.take(i + 1));
                    let was = loaded(all.take(i as int));
                    assert(entry_views(indexed@) =~= entry_views(before).push(
                        (key@, search_entry_view(found)),
                    ));
                    assert(now == was.push((key@, as_search_entry(*entry))));
                    assert(loaded_names(all.take(i + 1)) =~= loaded_names(all.take(i as int)).push(
                        entry.dn@,
                    ));
                }
            }
            i = i + 1;
        }
        proof {
            assert(all.take(i as int) =~= all);
        }
        PreloadedSearchBackend { candidates: Some(candidates), entries: indexed }
    }

    /// The names of the entries, the first time; after that, none.
    pub fn find_candidates(&mut self) -> (r: Vec<String>)
        ensures
            text::texts(r@) == (match old(self)@.candidates {
                Some(c) => c,
                None => Seq::empty(),
            }),
            final(self)@ == (PreloadedView { candidates: None, ..old(self)@ }),
    {
        match self.candidates.take() {
            Some(c) => c,
            None => {
                let none: Vec<String> = Vec::new();
                proof {
                    assert(text::texts(none@) =~= Seq::<Seq<char>>::empty());
                }
                none
            },
        }
    }

    /// The entry of that name.
    pub fn get_entry(&self, dn: &str) -> (r: Option<&SearchEntry>)
        ensures
            string_map::lookup(self@.entries, normalized_dn(dn@)) == (match r {
                Some(e) => Some(search_entry_view(*e)),
                None => None,
            }),
    {
        let key = normalize_search_dn(dn);
        proof {
            lookup_in_views(self.entries@, key@);
        }
        self.entries.get(key.as_str())
    }

    /// There is an entry of that name.
    pub fn entry_exists(&self, dn: &str) -> (r: bool)
        ensures
            r == (string_map::lookup(self@.entries, normalized_dn(dn@)) is Some),
    {
        self.get_entry(dn).is_some()
    }

    /// How many entries there are, and how deep they lie.
    pub fn get_search_stats(&self) -> (r: (usize, usize))
        ensures
            r.0 == self@.entries.len(),
            r.1 == 1,
    {
        (self.entries.len(), 1)
    }
}

/// The limits of a search among entries that were loaded before.
#[derive(Debug, Clone, Copy, PartialEq, Eq, Structural)]
pub struct PreloadedSearchConfig {
    pub default_size_limit: u32,
    pub default_time_limit: u32,
    pub max_size_limit: u32,
    pub max_time_limit: u32,
    pub max_candidates: usize,
    pub candidate_batch_size: usize,
}

/// The limits of a search among so many entries: none but their number.
pub fn preloaded_search_config(entries: usize) -> (r: PreloadedSearchConfig)
    ensures
        r == (PreloadedSearchConfig {
            default_size_limit: u32::MAX,
            default_time_limit: 0,
            max_size_limit: u32::MAX,
            max_time_limit: u32::MAX,
            max_candidates: if entries == 0 {
                1
            } else {
                entries
            },
            candidate_batch_size: 100,
        }),
{
    PreloadedSearchConfig {
        default_size_limit: u32::MAX,
        default_time_limit: 0,
        max_size_limit: u32::MAX,
        max_time_limit: u32::MAX,
        max_candidates: if entries == 0 {
            1
        } else {
            entries
        },
        candidate_batch_size: 100,
    }
}

// ---------------------------------------------------------------------------
// Time limits
// ---------------------------------------------------------------------------

/// What is left of a time limit after so many seconds; zero is no limit.
pub fn remaining_after(elapsed: u64, requested_time_limit: u32) -> (r: Option<u32>)
    ensures
        r == (if requested_time_limit == 0 {
            Some(0u32)
        } else if elapsed >= requested_time_limit {
            None
        } else {
            Some((requested_time_limit - elapsed) as u32)
        }),
{
    if requested_time_limit == 0 {
        return Some(0);
    }
    if elapsed >= requested_time_limit as u64 {
        None
    } else {
        Some(requested_time_limit - elapsed as u32)
    }
}

/// What is left of a time limit.
pub fn remaining_time_limit(started_at: &Instant, requested_time_limit: u32) -> (r: Option<u32>)
    ensures
        requested_time_limit == 0 ==> r == Some(0u32),
        requested_time_limit != 0 ==> (r matches Some(left) ==> 0 < left <= requested_time_limit),
{
    let elapsed = clock::seconds_since(started_at);
    remaining_after(elapsed, requested_time_limit)
}

/// A search that has taken so long is over its time limit; zero is no limit.
pub fn exceeds_time_limit(elapsed: &Duration, time_limit: u32) -> (r: bool)
    ensures
        r == (time_limit != 0 && elapsed@ > time_limit as nat * 1_000_000_000),
{
    time_limit != 0 && elapsed.exceeds(&Duration::from_secs(time_limit as u64))
}

/// A search that was started then is over its time limit.
pub fn search_time_limit_exceeded(started_at: &Instant, time_limit: u32) -> (r: bool)
    ensures
        time_limit == 0 ==> !r,
{
    let elapsed = clock::age_of(started_at);
    exceeds_time_limit(&elapsed, time_limit)
}

// ---------------------------------------------------------------------------
// Aliases and referrals
// ---------------------------------------------------------------------------

/// Aliases among the entries found are to be followed.
pub open spec fn follows_aliases(deref_aliases: u32) -> bool {
    deref_aliases == 1 || deref_aliases == 3
}

pub fn derefs_candidates(deref_aliases: u32) -> (r: bool)
    ensures
        r == follows_aliases(deref_aliases),
{
    deref_aliases == 1 || deref_aliases == 3
}

/// Why an alias could not be followed.
#[derive(Debug, PartialEq, Eq)]
pub struct PlainSearchAliasError {
    pub target_dn: String,
    pub result_code: ResultCode,
    pub diagnostic: String,
}

/// The first place at which an alias could not be followed.
pub open spec fn first_alias_fault(
    resolved: Seq<Result<DirectoryEntry, (ResultCode, String)>>,
) -> int
    decreases resolved.len(),
{
    if resolved.len() == 0 || resolved[0] is Err {
        0
    } else {
        1 + first_alias_fault(resolved.drop_first())
    }
}

/// The entries that the aliases among the entries stand for, or the first one
/// that could not be followed. What each entry stands for has been found
/// before.
pub fn resolve_plain_search_alias_candidates(
    entries: Vec<DirectoryEntry>,
    deref_aliases: u32,
    resolved: Vec<Result<DirectoryEntry, (ResultCode, String)>>,
) -> (r: Result<Vec<DirectoryEntry>, PlainSearchAliasError>)
    requires
        follows_aliases(deref_aliases) ==> resolved@.len() == entries@.len(),
    ensures
        !follows_aliases(deref_aliases) ==> (r matches Ok(v) && v@ == entries@),
        follows_aliases(deref_aliases) ==> match r {
            Ok(v) => first_alias_fault(resolved@) == resolved@.len() && v@.len() == resolved@.len()
                && forall|i: int|
                0 <= i < v@.len() ==> resolved@[i] == Ok::<DirectoryEntry, (ResultCode, String)>(
                    #[trigger] v@[i],
                ),
            Err(e) => {
                let i = first_alias_fault(resolved@);
                &&& 0 <= i < resolved@.len()
                &&& e.target_dn@ == entries@[i].dn@
                &&& resolved@[i] matches Err(fault) && e.result_code == fault.0 && e.diagnostic
                    == fault.1
            },
        },
{
    if !derefs_candidates(deref_aliases) {
        return Ok(entries);
    }
    let ghost all = resolved@;
    let mut rest = Queue::of(resolved);
    let mut out: Vec<DirectoryEntry> = Vec::new();
    let n = entries.len();
    let mut i: usize = 0;
    proof {
        assert(all.skip(0) =~= all);
    }
    while i < n
        invariant
            all == resolved@,
            n == entries@.len(),
            n == all.len(),
            i <= n,
            follows_aliases(deref_aliases),
            rest@ == all.skip(i as int),
            out@.len() == i,
            forall|k: int|
                0 <= k < i ==> all[k] == Ok::<DirectoryEntry, (ResultCode, String)>(
                    #[trigger] out@[k],
                ),
            first_alias_fault(all) == i + first_alias_fault(all.skip(i as int)),
        decreases n - i,
    {
        proof {
            assert(all.skip(i as int)[0] == all[i as int]);
            assert(all.skip(i as int).drop_first() =~= all.skip(i + 1));
        }
        match rest.next() {
            Ok(entry) => {
                out.push(entry);
            },
            Err(fault) => {
                return Err(
                    PlainSearchAliasError {
                        target_dn: entries[i].dn.clone(),
                        result_code: fault.0,
                        diagnostic: fault.1,
                    },
                );
            },
        }
        proof {
            assert(rest@ =~= all.skip(i + 1));
        }
        i = i + 1;
    }
    Ok(out)
}

/// What is known of an entry that may refer to another server: `None` for an
/// entry that does not, else the addresses or what is wrong with them.
pub type Referral = Option<Result<Vec<String>, String>>;

/// Why a referral could not be given.
#[derive(Debug, PartialEq, Eq)]
pub struct PlainSearchReferralError {
    pub target_dn: String,
    pub diagnostic: String,
}

/// What the entries of a search come to.
#[derive(Debug, PartialEq, Eq)]
#[allow(inconsistent_fields)]
pub enum PlainSearchReferralDisposition {
    SearchEntries { entries: Vec<DirectoryEntry>, references: Vec<Vec<String>> },
    BaseReferral { dn: String, referrals: Vec<String> },
}

/// The first place with a referral that could not be given.
pub open spec fn first_referral_fault(found: Seq<(DirectoryEntry, Referral)>) -> int
    decreases found.len(),
{
    if found.len() == 0 || found[0].1 matches Some(Err(_)) {
        0
    } else {
        1 + first_referral_fault(found.drop_first())
    }
}

/// The entries that do not refer to another server.
pub open spec fn plain_entries(found: Seq<(DirectoryEntry, Referral)>) -> Seq<DirectoryEntry>
    decreases found.len(),
{
    if found.len() == 0 {
        Seq::empty()
    } else if found.last().1 is None {
        plain_entries(found.drop_last()).push(found.last().0)
    } else {
        plain_entries(found.drop_last())
    }
}

/// The addresses of the entries that refer to another server.
pub open spec fn reference_lists(found: Seq<(DirectoryEntry, Referral)>) -> Seq<Vec<String>>
    decreases found.len(),
{
    if found.len() == 0 {
        Seq::empty()
    } else if let Some(Ok(urls)) = found.last().1 {
        reference_lists(found.drop_last()).push(urls)
    } else {
        reference_lists(found.drop_last())
    }
}

/// The entries alone.
pub open spec fn entries_alone(found: Seq<(DirectoryEntry, Referral)>) -> Seq<DirectoryEntry> {
    found.map_values(|f: (DirectoryEntry, Referral)| f.0)
}

/// A search of the base gives back its entry or refers to another server; any
/// other search gives back its entries and refers besides.
pub fn prepare_plain_search_referrals(found: Vec<(DirectoryEntry, Referral)>, base_only: bool) -> (r:
    Result<PlainSearchReferralDisposition, PlainSearchReferralError>)
    ensures
        base_only ==> match r {
            Ok(PlainSearchReferralDisposition::BaseReferral { dn, referrals }) => found@.len() > 0
                && found@[0].1 == Some(Ok::<Vec<String>, String>(referrals)) && dn@
                == found@[0].0.dn@,
            Ok(PlainSearchReferralDisposition::SearchEntries { entries, references }) => (
            found@.len() == 0 || found@[0].1 is None) && entries@ == entries_alone(found@)
                && references@.len() == 0,
            Err(e) => found@.len() > 0 && found@[0].1 == Some(
                Err::<Vec<String>, String>(e.diagnostic),
            ) && e.target_dn@ == found@[0].0.dn@,
        },
        !base_only ==> match r {
            Ok(PlainSearchReferralDisposition::BaseReferral { .. }) => false,
            Ok(PlainSearchReferralDisposition::SearchEntries { entries, references }) => {
                &&& first_referral_fault(found@) == found@.len()
                &&& entries@ == plain_entries(found@)
                &&& references@ == reference_lists(found@)
            },
            Err(e) => {
                let i = first_referral_fault(found@);
                &&& 0 <= i < found@.len()
                &&& found@[i].1 == Some(Err::<Vec<String>, String>(e.diagnostic))
                &&& e.target_dn@ == found@[i].0.dn@
            },
        },
{
    let ghost all = found@;
    let n = found.len();
    let refers = base_only && n > 0 && found[0].1.is_some();
    let mut rest = Queue::of(found);
    let mut entries: Vec<DirectoryEntry> = Vec::new();
    let mut references: Vec<Vec<String>> = Vec::new();
    if refers {
        let (entry, referral) = rest.next();
        match referral {
            Some(Ok(referrals)) => {
                return Ok(
                    PlainSearchReferralDisposition::BaseReferral { dn: entry.dn, referrals },
                );
            },
            Some(Err(diagnostic)) => {
                return Err(PlainSearchReferralError { target_dn: entry.dn, diagnostic });
            },
            None => {},
        }
    }
    let mut i: usize = 0;
    proof {
        assert(all.skip(0) =~= all);
        assert(entries@ =~= plain_entries(all.take(0)));
        assert(references@ =~= reference_lists(all.take(0)));
        assert(entries@ =~= entries_alone(all).take(0));
    }
    while i < n
        invariant
            all == found@,
            n == all.len(),
            i <= n,
            base_only ==> all.len() == 0 || all[0].1 is None,
            rest@ == all.skip(i as int),
            base_only ==> entries@ == entries_alone(all).take(i as int) && references@.len() == 0,
            !base_only ==> entries@ == plain_entries(all.take(i as int)),
            !base_only ==> references@ == reference_lists(all.take(i as int)),
            !base_only ==> first_referral_fault(all) == i + first_referral_fault(
                all.skip(i as int),
            ),
        decreases n - i,
    {
        proof {
            assert(all.skip(i as int)[0] == all[i as int]);
            assert(all.skip(i as int).drop_first() =~= all.skip(i + 1));
            assert(all.take(i + 1).drop_last() =~= all.take(i as int));
            assert(all.take(i + 1).last() == all[i as int]);
            assert(entries_alone(all).take(i + 1) =~= entries_alone(all).take(i as int).push(
                all[i as int].0,
            ));
        }
        let (entry, referral) = rest.next();
        proof {
            assert(rest@ =~= all.skip(i + 1));
        }
        if base_only {
            entries.push(entry);
        } else {
            match referral {
                None => {
                    entries.push(entry);
                },
                Some(Ok(referrals)) => {
                    references.push(referrals);
                },
                Some(Err(diagnostic)) => {
                    return Err(PlainSearchReferralError { target_dn: entry.dn, diagnostic });
                },
            }
        }
        i = i + 1;
    }
    proof {
        assert(all.take(i as int) =~= all);
        assert(entries_alone(all).take(i as int) =~= entries_alone(all));
    }
    Ok(PlainSearchReferralDisposition::SearchEntries { entries, references })
}

/// The text for a referral without addresses.
pub open spec fn missing_urls_text(dn: Seq<char>) -> Seq<char> {
    "referral entry "@ + dn + " is missing ref URLs"@
}

/// The text for a referral with an empty list of addresses.
pub open spec fn no_urls_text(dn: Seq<char>) -> Seq<char> {
    "referral entry "@ + dn + " does not contain any ref URLs"@
}

/// The text for a referral with an address that is not valid.
pub open spec fn invalid_url_text(dn: Seq<char>, url: Seq<char>, fault: Seq<char>) -> Seq<char> {
    "referral entry "@ + dn + " contains invalid LDAP URL "@ + url + ": "@ + fault
}

/// The first place with a fault.
pub open spec fn first_fault(faults: Seq<Option<String>>) -> int
    decreases faults.len(),
{
    if faults.len() == 0 || faults[0] is Some {
        0
    } else {
        1 + first_fault(faults.drop_first())
    }
}

/// The addresses of an entry that refers to another server. What is wrong with
/// each of them, if anything, has been found before.
pub fn referral_urls_for_projected_entry(
    dn: &str,
    referral_urls: Option<Vec<String>>,
    faults: &Vec<Option<String>>,
) -> (r: Result<Vec<String>, String>)
    requires
        referral_urls matches Some(urls) ==> faults@.len() == urls@.len(),
    ensures
        match (referral_urls, r) {
            (None, Err(e)) => e@ == missing_urls_text(dn@),
            (Some(urls), Err(e)) => if urls@.len() == 0 {
                e@ == no_urls_text(dn@)
            } else {
                let i = first_fault(faults@);
                0 <= i < faults@.len() && faults@[i] is Some && e@ == invalid_url_text(
                    dn@,
                    urls@[i]@,
                    faults@[i]->0@,
                )
            },
            (Some(urls), Ok(v)) => v == urls && urls@.len() > 0 && first_fault(faults@)
                == faults@.len(),
            (None, Ok(_)) => false,
        },
{
    let urls = match referral_urls {
        Some(urls) => urls,
        None => {
            let mut message = "referral entry ".to_owned();
            message.append(dn);
            message.append(" is missing ref URLs");
            return Err(message);
        },
    };
    if urls.len() == 0 {
        let mut message = "referral entry ".to_owned();
        message.append(dn);
        message.append(" does not contain any ref URLs");
        return Err(message);
    }
    let ghost all = faults@;
    let mut i: usize = 0;
    proof {
        assert(all.skip(0) =~= all);
    }
    while i < faults.len()
        invariant
            all == faults@,
            faults@.len() == urls@.len(),
            urls@.len() > 0,
            referral_urls == Some(urls),
            i <= faults@.len(),
            first_fault(all) == i + first_fault(all.skip(i as int)),
        decreases faults@.len() - i,
    {
        proof {
            assert(all.skip(i as int)[0] == all[i as int]);
            assert(all.skip(i as int).drop_first() =~= all.skip(i + 1));
        }
        if let Some(fault) = &faults[i] {
            let mut message = "referral entry ".to_owned();
            message.append(dn);
            message.append(" contains invalid LDAP URL ");
            message.append(urls[i].as_str());
            message.append(": ");
            message.append(fault.as_str());
            return Err(message);
        }
        i = i + 1;
    }
    Ok(urls)
}

// ---------------------------------------------------------------------------
// Order
// ---------------------------------------------------------------------------

/// A key by which entries are put in order.
#[derive(Debug, PartialEq, Eq)]
pub struct SortKey {
    pub attribute_type: String,
    pub ordering_rule: Option<String>,
    pub reverse_order: bool,
}

/// The least of the texts.
pub open spec fn least(s: Seq<Seq<char>>) -> Option<Seq<char>>
    decreases s.len(),
{
    if s.len() == 0 {
        None
    } else {
        match least(s.drop_last()) {
            None => Some(s.last()),
            Some(m) => if text::less(s.last(), m) {
                Some(s.last())
            } else {
                Some(m)
            },
        }
    }
}

/// The value of an entry by which a key puts it in order: the least of its
/// values without case.
pub open spec fn sort_value(attrs: AttributeSeq, attribute: Seq<char>) -> Option<Seq<char>> {
    match string_map::lookup(attrs, text::lower(attribute)) {
        Some(values) => least(values.map_values(|v: Seq<char>| text::lower(v))),
        None => None,
    }
}

pub fn native_sort_value_for_key(entry: &DirectoryEntry, key: &SortKey) -> (r: Option<String>)
    ensures
        text::option_text(r) == sort_value(entry.attributes@, key.attribute_type@),
{
    let attribute_name = text::lowercase(key.attribute_type.as_str());
    match entry.attributes.get(attribute_name.as_str()) {
        None => None,
        Some(values) => {
            let ghost all = text::texts(values@).map_values(|v: Seq<char>| text::lower(v));
            let mut best: Option<String> = None;
            let mut i: usize = 0;
            proof {
                assert(all.take(0) =~= Seq::<Seq<char>>::empty());
            }
            while i < values.len()
                invariant
                    all == text::texts(values@).map_values(|v: Seq<char>| text::lower(v)),
                    i <= values@.len(),
                    text::option_text(best) == least(all.take(i as int)),
                decreases values@.len() - i,
            {
                let value = text::lowercase(values[i].as_str());
                proof {
                    assert(all.take(i + 1).drop_last() =~= all.take(i as int));
                    assert(all.take(i + 1).last() == value@);
                }
                let better = match &best {
                    None => true,
                    Some(m) => text::is_less(value.as_str(), m.as_str()),
                };
                if better {
                    best = Some(value);
                }
                i = i + 1;
            }
            proof {
                assert(all.take(i as int) =~= all);
            }
            best
        },
    }
}

/// How two texts stand in order: before (-1), equal (0) or behind (1).
pub open spec fn text_order(a: Seq<char>, b: Seq<char>) -> int {
    if text::less(a, b) {
        -1
    } else if a == b {
        0
    } else {
        1
    }
}

/// How two values stand in order; an entry without a value stands behind.
pub open spec fn value_order(a: Option<Seq<char>>, b: Option<Seq<char>>) -> int {
    match (a, b) {
        (Some(a), Some(b)) => text_order(a, b),
        (None, Some(_)) => 1,
        (Some(_), None) => -1,
        (None, None) => 0,
    }
}

/// How two entries stand in order by one key.
pub open spec fn key_order(a: DirectoryEntry, b: DirectoryEntry, key: SortKey) -> int {
    let o = value_order(
        sort_value(a.attributes@, key.attribute_type@),
        sort_value(b.attributes@, key.attribute_type@),
    );
    if key.reverse_order {
        -o
    } else {
        o
    }
}

/// How two entries stand in order: by the first key that tells them apart,
/// else by their names.
pub open spec fn entry_order(a: DirectoryEntry, b: DirectoryEntry, keys: Seq<SortKey>) -> int
    decreases keys.len(),
{
    if keys.len() == 0 {
        text_order(normalized_dn(a.dn@), normalized_dn(b.dn@))
    } else {
        let o = key_order(a, b, keys[0]);
        if o != 0 {
            o
        } else {
            entry_order(a, b, keys.drop_first())
        }
    }
}

fn order_of_texts(a: &str, b: &str) -> (r: i8)
    ensures
        r == text_order(a@, b@),
{
    if text::is_less(a, b) {
        -1
    } else if text::same(a, b) {
        0
    } else {
        1
    }
}

fn order_by_key(a: &DirectoryEntry, b: &DirectoryEntry, key: &SortKey) -> (r: i8)
    ensures
        r == key_order(*a, *b, *key),
{
    let left = native_sort_value_for_key(a, key);
    let right = native_sort_value_for_key(b, key);
    let o: i8 = match (&left, &right) {
        (Some(l), Some(r)) => order_of_texts(l.as_str(), r.as_str()),
        (None, Some(_)) => 1,
        (Some(_), None) => -1,
        (None, None) => 0,
    };
    if key.reverse_order {
        -o
    } else {
        o
    }
}

fn order_of_entries(a: &DirectoryEntry, b: &DirectoryEntry, keys: &Vec<SortKey>) -> (r: i8)
    ensures
        r == entry_order(*a, *b, keys@),
{
    let mut i: usize = 0;
    proof {
        assert(keys@.skip(0) =~= keys@);
    }
    while i < keys.len()
        invariant
            i <= keys@.len(),
            entry_order(*a, *b, keys@) == entry_order(*a, *b, keys@.skip(i as int)),
        decreases keys@.len() - i,
    {
        proof {
            assert(keys@.skip(i as int)[0] == keys@[i as int]);
            assert(keys@.skip(i as int).drop_first() =~= keys@.skip(i + 1));
        }
        let o: i8 = order_by_key(a, b, &keys[i]);
        if o != 0 {
            return o;
        }
        i = i + 1;
    }
    let left = normalize_search_dn(a.dn.as_str());
    let right = normalize_search_dn(b.dn.as_str());
    order_of_texts(left.as_str(), right.as_str())
}

/// The entries with one more put into its place, behind those that stand
/// equal with it.
pub open spec fn entry_placed(
    entries: Seq<DirectoryEntry>,
    e: DirectoryEntry,
    keys: Seq<SortKey>,
) -> Seq<DirectoryEntry>
    decreases entries.len(),
{
    if entries.len() == 0 || entry_order(e, entries[0], keys) < 0 {
        seq![e] + entries
    } else {
        seq![entries[0]] + entry_placed(entries.drop_first(), e, keys)
    }
}

/// The entries in order; those that stand equal keep the order they had.
pub open spec fn in_order(entries: Seq<DirectoryEntry>, keys: Seq<SortKey>) -> Seq<DirectoryEntry>
    decreases entries.len(),
{
    if entries.len() == 0 {
        entries
    } else {
        entry_placed(in_order(entries.drop_last(), keys), entries.last(), keys)
    }
}

fn place_entry(entries: &mut Vec<DirectoryEntry>, e: DirectoryEntry, keys: &Vec<SortKey>)
    ensures
        final(entries)@ == entry_placed(old(entries)@, e, keys@),
{
    let ghost all = entries@;
    let mut i: usize = 0;
    proof {
        assert(all.skip(0) =~= all);
        assert(all.take(0) + entry_placed(all, e, keys@) =~= entry_placed(all, e, keys@));
    }
    while i < entries.len() && order_of_entries(&e, &entries[i], keys) >= 0
        invariant
            all == entries@,
            i <= entries@.len(),
            entry_placed(all, e, keys@) == all.take(i as int) + entry_placed(
                all.skip(i as int),
                e,
                keys@,
            ),
        decreases entries@.len() - i,
    {
        proof {
            let here = all.skip(i as int);
            assert(here[0] == all[i as int]);
            assert(here.drop_first() =~= all.skip(i + 1));
            let rest = entry_placed(all.skip(i + 1), e, keys@);
            assert(all.take(i as int) + (seq![here[0]] + rest) =~= all.take(i + 1) + rest);
        }
        i = i + 1;
    }
    proof {
        let here = all.skip(i as int);
        if i < all.len() {
            assert(here[0] == all[i as int]);
        }
        assert(entry_placed(here, e, keys@) == seq![e] + here);
        assert(all.take(i as int) + (seq![e] + here) =~= all.insert(i as int, e));
    }
    entries.insert(i, e);
}

/// Puts the entries in order.
pub fn sort_native_search_entries(entries: Vec<DirectoryEntry>, keys: &Vec<SortKey>) -> (r: Vec<
    DirectoryEntry,
>)
    ensures
        r@ == in_order(entries@, keys@),
{
    let ghost all = entries@;
    let n = entries.len();
    let mut rest = Queue::of(entries);
    let mut out: Vec<DirectoryEntry> = Vec::new();
    let mut i: usize = 0;
    proof {
        assert(all.skip(0) =~= all);
        assert(out@ =~= in_order(all.take(0), keys@));
    }
    while i < n
        invariant
            n == all.len(),
            i <= n,
            rest@ == all.skip(i as int),
            out@ == in_order(all.take(i as int), keys@),
        decreases n - i,
    {
        proof {
            assert(all.skip(i as int)[0] == all[i as int]);
            assert(all.take(i + 1).drop_last() =~= all.take(i as int));
            assert(all.take(i + 1).last() == all[i as int]);
        }
        let e = rest.next();
        proof {
            assert(rest@ =~= all.skip(i + 1));
        }
        place_entry(&mut out, e, keys);
        i = i + 1;
    }
    proof {
        assert(all.take(i as int) =~= all);
    }
    out
}

// ---------------------------------------------------------------------------
// Counting
// ---------------------------------------------------------------------------

/// The counts with one more state of a search.
pub open spec fn search_state(m: MetricsView, state: Seq<char>) -> MetricsView {
    let key = metrics::state_key(FsmType::Search, state);
    MetricsView {
        fsm_states: string_map::put(
            m.fsm_states,
            key,
            metrics::one_more(metrics::state_count(m.fsm_states, key)),
        ),
        ..m
    }
}

/// The counts with a search that was begun.
pub open spec fn search_begun(m: MetricsView) -> MetricsView {
    search_state(
        MetricsView {
            operations: m.operations.with(
                OperationType::Search,
                metrics::operation_started(m.operations.of(OperationType::Search)),
            ),
            ..m
        },
        "searching"@,
    )
}

/// The counts with a counter raised.
pub open spec fn counter_raised(m: MetricsView, name: Seq<char>, by: u64) -> MetricsView {
    MetricsView {
        counters: string_map::put(
            m.counters,
            name,
            metrics::wrapped_sum(metrics::counter_value(m.counters, name), by),
        ),
        ..m
    }
}

/// The counts with a search that was begun among entries found before.
pub open spec fn search_begun_among(m: MetricsView, candidates: u64) -> MetricsView {
    counter_raised(
        counter_raised(
            counter_raised(search_begun(m), "ldap_search_candidates_found"@, candidates),
            "ldap_search_entries_seen"@,
            candidates,
        ),
        "ldap_search_entries_matched"@,
        candidates,
    )
}

/// The counts with a search that came to its end.
pub open spec fn search_ended(
    m: MetricsView,
    entries_sent: u64,
    elapsed: nat,
    success: bool,
) -> MetricsView {
    let counted = metrics::completion_counted(m, OperationType::Search, elapsed, success);
    search_state(
        MetricsView {
            gauges: string_map::put(counted.gauges, "ldap_search_entries_sent"@, entries_sent),
            ..counted
        },
        if success {
            "completed"@
        } else {
            "completed_with_error"@
        },
    )
}

/// Counts a search that is begun.
pub fn record_streaming_direct_search_start(metrics: &mut MetricsCollector)
    ensures
        final(metrics)@ == search_begun(old(metrics)@),
{
    metrics.record_operation_start(OperationType::Search, "");
    metrics.record_fsm_state(FsmType::Search, "searching");
}

/// Counts a search that is begun among entries found before.
pub fn record_direct_search_start(metrics: &mut MetricsCollector, candidates: usize)
    ensures
        final(metrics)@ == search_begun_among(old(metrics)@, candidates as u64),
{
    record_streaming_direct_search_start(metrics);
    metrics.increment_counter("ldap_search_candidates_found", candidates as u64);
    metrics.increment_counter("ldap_search_entries_seen", candidates as u64);
    metrics.increment_counter("ldap_search_entries_matched", candidates as u64);
}

/// Counts a search that took so long and sent so many entries.
pub fn record_direct_search_end(
    metrics: &mut MetricsCollector,
    entries_sent: usize,
    elapsed: Duration,
    success: bool,
)
    ensures
        final(metrics)@ == search_ended(old(metrics)@, entries_sent as u64, elapsed@, success),
{
    metrics.record_operation_complete(OperationType::Search, elapsed, success);
    metrics.set_gauge("ldap_search_entries_sent", entries_sent as u64);
    metrics.record_fsm_state(
        FsmType::Search,
        if success {
            "completed"
        } else {
            "completed_with_error"
        },
    );
}

/// Counts a search that was started then and sent so many entries.
pub fn record_direct_search_complete(
    metrics: &mut MetricsCollector,
    entries_sent: usize,
    started_at: &Instant,
    success: bool,
)
    ensures
        exists|elapsed: nat|
            final(metrics)@ == #[trigger] search_ended(
                old(metrics)@,
                entries_sent as u64,
                elapsed,
                success,
            ),
{
    let elapsed = clock::age_of(started_at);
    record_direct_search_end(metrics, entries_sent, elapsed, success);
}

// ---------------------------------------------------------------------------
// Laws
// ---------------------------------------------------------------------------

proof fn text_order_laws(a: Seq<char>, b: Seq<char>, c: Seq<char>)
    ensures
        text_order(a, b) == -text_order(b, a),
        text_order(a, a) == 0,
        text_order(a, b) == 0 ==> a == b,
        text_order(a, b) <= 0 && text_order(b, c) <= 0 ==> text_order(a, c) <= 0 && (text_order(
            a,
            c,
        ) == 0 ==> text_order(a, b) == 0 && text_order(b, c) == 0),
{
    text::less_total(a, b);
    text::less_total(b, a);
    text::less_total(a, a);
    text::less_total(b, c);
    text::less_total(a, c);
    if text::less(a, b) && text::less(b, c) {
        text::less_transitive(a, b, c);
    }
}

proof fn value_order_laws(a: Option<Seq<char>>, b: Option<Seq<char>>, c: Option<Seq<char>>)
    ensures
        value_order(a, b) == -value_order(b, a),
        value_order(a, b) <= 0 && value_order(b, c) <= 0 ==> value_order(a, c) <= 0 && (
        value_order(a, c) == 0 ==> value_order(a, b) == 0 && value_order(b, c) == 0),
        value_order(a, b) == 0 ==> a == b,
        value_order(a, a) == 0,
{
    if a is Some && b is Some {
        text_order_laws(a->0, b->0, if c is Some {
            c->0
        } else {
            a->0
        });
    }
    if a is Some {
        text_order_laws(a->0, a->0, a->0);
    }
}

/// Of two entries one stands before the other, or they stand equal; and an
/// entry that stands before a second, which stands before a third, stands
/// before the third.
pub proof fn entries_stand_in_one_order(
    a: DirectoryEntry,
    b: DirectoryEntry,
    c: DirectoryEntry,
    keys: Seq<SortKey>,
)
    ensures
        entry_order(a, b, keys) == -entry_order(b, a, keys),
        entry_order(a, b, keys) <= 0 && entry_order(b, c, keys) <= 0 ==> entry_order(a, c, keys)
            <= 0 && (entry_order(a, c, keys) == 0 ==> entry_order(a, b, keys) == 0 && entry_order(
            b,
            c,
            keys,
        ) == 0),
    decreases keys.len(),
{
    if keys.len() == 0 {
        text_order_laws(normalized_dn(a.dn@), normalized_dn(b.dn@), normalized_dn(c.dn@));
    } else {
        let t = keys[0].attribute_type@;
        let va = sort_value(a.attributes@, t);
        let vb = sort_value(b.attributes@, t);
        let vc = sort_value(c.attributes@, t);
        value_order_laws(va, vb, vc);
        value_order_laws(vc, vb, va);
        value_order_laws(va, vc, vb);
        value_order_laws(vb, va, vc);
        value_order_laws(vb, vc, va);
        entries_stand_in_one_order(a, b, c, keys.drop_first());
    }
}

/// No entry stands behind one that comes after it.
pub open spec fn stand_in_order(entries: Seq<DirectoryEntry>, keys: Seq<SortKey>) -> bool {
    forall|i: int, j: int|
        0 <= i < j < entries.len() ==> entry_order(
            #[trigger] entries[i],
            #[trigger] entries[j],
            keys,
        ) <= 0
}

proof fn placed_stands_in_order(
    entries: Seq<DirectoryEntry>,
    e: DirectoryEntry,
    keys: Seq<SortKey>,
)
    requires
        stand_in_order(entries, keys),
    ensures
        stand_in_order(entry_placed(entries, e, keys), keys),
        entry_placed(entries, e, keys).to_multiset() == entries.to_multiset().insert(e),
        forall|k: int|
            0 <= k < entry_placed(entries, e, keys).len() ==> (#[trigger] entry_placed(
                entries,
                e,
                keys,
            )[k]) == e || entries.contains(entry_placed(entries, e, keys)[k]),
    decreases entries.len(),
{
    let out = entry_placed(entries, e, keys);
    if entries.len() == 0 || entry_order(e, entries[0], keys) < 0 {
        assert(out =~= entries.insert(0, e));
        vstd::seq_lib::to_multiset_insert(entries, 0, e);
        assert forall|i: int, j: int| 0 <= i < j < out.len() implies entry_order(
            #[trigger] out[i],
            #[trigger] out[j],
            keys,
        ) <= 0 by {
            assert(out[j] == entries[j - 1]);
            if i > 0 {
                assert(out[i] == entries[i - 1]);
            } else if j > 1 {
                assert(entry_order(entries[0], entries[j - 1], keys) <= 0);
                entries_stand_in_one_order(e, entries[0], entries[j - 1], keys);
            }
        }
        assert forall|k: int| 0 <= k < out.len() implies (#[trigger] out[k]) == e
            || entries.contains(out[k]) by {
            if k > 0 {
                assert(out[k] == entries[k - 1]);
            }
        }
    } else {
        let rest = entries.drop_first();
        assert forall|i: int, j: int| 0 <= i < j < rest.len() implies entry_order(
            #[trigger] rest[i],
            #[trigger] rest[j],
            keys,
        ) <= 0 by {
            assert(rest[i] == entries[i + 1] && rest[j] == entries[j + 1]);
        }
        placed_stands_in_order(rest, e, keys);
        let tail = entry_placed(rest, e, keys);
        assert(out =~= tail.insert(0, entries[0]));
        assert(entries =~= rest.insert(0, entries[0]));
        vstd::seq_lib::to_multiset_insert(tail, 0, entries[0]);
        vstd::seq_lib::to_multiset_insert(rest, 0, entries[0]);
        assert(out.to_multiset() =~= entries.to_multiset().insert(e));
        assert forall|i: int, j: int| 0 <= i < j < out.len() implies entry_order(
            #[trigger] out[i],
            #[trigger] out[j],
            keys,
        ) <= 0 by {
            assert(out[j] == tail[j - 1]);
            if i > 0 {
                assert(out[i] == tail[i - 1]);
            } else if tail[j - 1] == e {
                entries_stand_in_one_order(e, entries[0], e, keys);
            } else {
                assert(rest.contains(tail[j - 1]));
                let m = choose|m: int| 0 <= m < rest.len() && rest[m] == tail[j - 1];
                assert(entries[m + 1] == rest[m]);
                assert(entry_order(entries[0], entries[m + 1], keys) <= 0);
            }
        }
        assert forall|k: int| 0 <= k < out.len() implies (#[trigger] out[k]) == e
            || entries.contains(out[k]) by {
            if k == 0 {
                assert(out[0] == entries[0]);
            } else {
                assert(out[k] == tail[k - 1]);
                if tail[k - 1] != e {
                    assert(rest.contains(tail[k - 1]));
                    let m = choose|m: int| 0 <= m < rest.len() && rest[m] == tail[k - 1];
                    assert(entries[m + 1] == rest[m]);
                }
            }
        }
    }
}

/// Sorting puts the entries in order, all of them and no others.
pub proof fn sorting_puts_in_order(entries: Seq<DirectoryEntry>, keys: Seq<SortKey>)
    ensures
        stand_in_order(in_order(entries, keys), keys),
        in_order(entries, keys).to_multiset() == entries.to_multiset(),
    decreases entries.len(),
{
    if entries.len() > 0 {
        let front = entries.drop_last();
        sorting_puts_in_order(front, keys);
        placed_stands_in_order(in_order(front, keys), entries.last(), keys);
        front.to_multiset_ensures();
        assert(entries =~= front.push(entries.last()));
    }
}

/// Entries that are in order already stay as they are: of entries that stand
/// equal none overtakes another.
pub proof fn sorting_keeps_what_is_in_order(entries: Seq<DirectoryEntry>, keys: Seq<SortKey>)
    requires
        stand_in_order(entries, keys),
    ensures
        in_order(entries, keys) == entries,
    decreases entries.len(),
{
    if entries.len() > 0 {
        let front = entries.drop_last();
        let e = entries.last();
        assert forall|i: int, j: int| 0 <= i < j < front.len() implies entry_order(
            #[trigger] front[i],
            #[trigger] front[j],
            keys,
        ) <= 0 by {
            assert(front[i] == entries[i] && front[j] == entries[j]);
        }
        sorting_keeps_what_is_in_order(front, keys);
        assert forall|i: int| 0 <= i < front.len() implies entry_order(
            #[trigger] front[i],
            e,
            keys,
        ) <= 0 by {
            assert(entry_order(entries[i], entries[entries.len() - 1], keys) <= 0);
        }
        placed_behind(front, e, keys);
        assert(entries =~= front.push(e));
    }
}

proof fn placed_behind(entries: Seq<DirectoryEntry>, e: DirectoryEntry, keys: Seq<SortKey>)
    requires
        forall|i: int|
            0 <= i < entries.len() ==> entry_order(#[trigger] entries[i], e, keys) <= 0,
    ensures
        entry_placed(entries, e, keys) == entries.push(e),
    decreases entries.len(),
{
    if entries.len() > 0 {
        let rest = entries.drop_first();
        assert forall|i: int| 0 <= i < rest.len() implies entry_order(
            #[trigger] rest[i],
            e,
            keys,
        ) <= 0 by {
            assert(rest[i] == entries[i + 1]);
        }
        placed_behind(rest, e, keys);
        assert(entry_order(entries[0], e, keys) <= 0);
        entries_stand_in_one_order(e, entries[0], e, keys);
        assert(seq![entries[0]] + rest.push(e) =~= entries.push(e));
    } else {
        assert(seq![e] + entries =~= entries.push(e));
    }
}

/// No two of the entries that were loaded have the same name, and each entry
/// is found under its name: the first one of it.
pub proof fn loaded_entries_are_found(entries: Seq<DirectoryEntry>, i: int)
    requires
        0 <= i < entries.len(),
        forall|j: int|
            0 <= j < i ==> normalized_dn((#[trigger] entries[j]).dn@) != normalized_dn(
                entries[i].dn@,
            ),
    ensures
        string_map::lookup(loaded(entries), normalized_dn(entries[i].dn@)) == Some(
            as_search_entry(entries[i]),
        ),
    decreases entries.len(),
{
    let front = entries.drop_last();
    let k = normalized_dn(entries[i].dn@);
    let before = loaded(front);
    if i < front.len() {
        assert forall|j: int| 0 <= j < i implies normalized_dn((#[trigger] front[j]).dn@)
            != normalized_dn(front[i].dn@) by {
            assert(front[j] == entries[j]);
        }
        loaded_entries_are_found(front, i);
        let key = normalized_dn(entries.last().dn@);
        if string_map::lookup(before, key) is None {
            lookup_pushed(before, key, as_search_entry(entries.last()), k);
        }
    } else {
        not_loaded(front, k);
        lookup_pushed(before, k, as_search_entry(entries.last()), k);
    }
}

proof fn lookup_pushed(
    s: Seq<(Seq<char>, SearchEntryView)>,
    key: Seq<char>,
    v: SearchEntryView,
    k: Seq<char>,
)
    requires
        string_map::lookup(s, key) is None,
    ensures
        string_map::lookup(s.push((key, v)), k) == (if k == key {
            Some(v)
        } else {
            string_map::lookup(s, k)
        }),
{
    string_map::lookup_present(s, key);
    assert forall|j: int| 0 <= j < s.len() implies (#[trigger] s[j]).0 != key by {
        if s[j].0 == key {
            assert(string_map::lookup(s, key) is Some);
        }
    }
    string_map::put_at(s, key, v, s.len() as int);
    string_map::lookup_put(s, key, v, k);
}

proof fn not_loaded(entries: Seq<DirectoryEntry>, k: Seq<char>)
    requires
        forall|j: int|
            0 <= j < entries.len() ==> normalized_dn((#[trigger] entries[j]).dn@) != k,
    ensures
        string_map::lookup(loaded(entries), k) is None,
    decreases entries.len(),
{
    if entries.len() > 0 {
        let front = entries.drop_last();
        assert forall|j: int| 0 <= j < front.len() implies normalized_dn((#[trigger] front[j]).dn@)
            != k by {
            assert(front[j] == entries[j]);
        }
        not_loaded(front, k);
        let key = normalized_dn(entries.last().dn@);
        assert(normalized_dn(entries[entries.len() - 1].dn@) != k);
        if string_map::lookup(loaded(front), key) is None {
            lookup_pushed(loaded(front), key, as_search_entry(entries.last()), k);
        }
    }
}

} // verus!
