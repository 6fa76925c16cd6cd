//! Laws of entries: what of them a search holds against its filter, what it
//! gives, and which of them refer to other servers.

use vstd::prelude::*;

use crate::directory::{is_operational_name, AttributeSeq, DirectoryEntry};
use crate::operational_attrs::{
    lookup_kept, lookup_merged, lowers, named_in, names_user, selected_operational, selected_user,
    wanted_operational, wants_all_operational,
};
use crate::response::ResultCode;
use crate::search_entries::{
    as_search_entry, first_alias_fault, first_fault, first_referral_fault, loaded,
    loaded_entries_are_found, loaded_names, normalized_dn, plain_entries, reference_lists, Referral,
};
use crate::string_map;
use crate::text;

verus! {

/// The name is one that the server keeps for its entries itself.
pub proof fn attributes_that_the_server_keeps(name: Seq<char>)
    ensures
        is_operational_name(name) <==> seq![
            "createtimestamp"@,
            "creatorsname"@,
            "modifytimestamp"@,
            "modifiersname"@,
            "entrycsn"@,
            "entryuuid"@,
            "structuralobjectclass"@,
            "subschemasubentry"@,
        ].contains(name),
{
    let names = seq![
        "createtimestamp"@,
        "creatorsname"@,
        "modifytimestamp"@,
        "modifiersname"@,
        "entrycsn"@,
        "entryuuid"@,
        "structuralobjectclass"@,
        "subschemasubentry"@,
    ];
    if names.contains(name) {
        let i = choose|i: int| 0 <= i < names.len() && names[i] == name;
        assert(i == 0 || i == 1 || i == 2 || i == 3 || i == 4 || i == 5 || i == 6 || i == 7);
    }
    assert(names[0] == "createtimestamp"@);
    assert(names[1] == "creatorsname"@);
    assert(names[2] == "modifytimestamp"@);
    assert(names[3] == "modifiersname"@);
    assert(names[4] == "entrycsn"@);
    assert(names[5] == "entryuuid"@);
    assert(names[6] == "structuralobjectclass"@);
    assert(names[7] == "subschemasubentry"@);
}

/// An entry is searched under its name, with each of its attributes, and with
/// those that the server keeps for it in place of others of their names.
pub proof fn entries_are_searched_whole(e: DirectoryEntry, name: Seq<char>)
    requires
        string_map::distinct_keys(e.operational_attributes@),
    ensures
        as_search_entry(e).dn == e.dn@,
        string_map::lookup(e.operational_attributes@, name) is Some ==> string_map::lookup(
            as_search_entry(e).attributes,
            name,
        ) == string_map::lookup(e.operational_attributes@, name),
        string_map::lookup(e.operational_attributes@, name) is None ==> string_map::lookup(
            as_search_entry(e).attributes,
            name,
        ) == string_map::lookup(e.attributes@, name),
        string_map::lookup(e.attributes@, "objectclass"@) matches Some(classes) ==> as_search_entry(
            e,
        ).object_classes == classes,
        string_map::lookup(e.attributes@, "objectclass"@) is None ==> as_search_entry(
            e,
        ).object_classes.len() == 0,
{
    lookup_merged(e.attributes@, e.operational_attributes@, name);
}

proof fn wanted_names(requested: Seq<Seq<char>>, name: Seq<char>)
    ensures
        wanted_operational(requested).contains(name) <==> is_operational_name(name) && name != "*"@
            && name != "+"@ && exists|i: int|
            0 <= i < requested.len() && text::lower(#[trigger] requested[i]) == name,
    decreases requested.len(),
{
    if requested.len() > 0 {
        let front = requested.drop_last();
        let n = requested.len() - 1;
        let before = wanted_operational(front);
        let all = wanted_operational(requested);
        wanted_names(front, name);
        if all.contains(name) && !before.contains(name) {
            let i = choose|i: int| 0 <= i < all.len() && all[i] == name;
            if i < before.len() {
                assert(before[i] == name);
            }
            assert(text::lower(requested[n]) == name);
        }
        if before.contains(name) {
            let i = choose|i: int| 0 <= i < before.len() && before[i] == name;
            assert(all[i] == name);
            let k = choose|k: int|
                0 <= k < front.len() && text::lower(#[trigger] front[k]) == name;
            assert(text::lower(requested[k]) == name);
        }
        if is_operational_name(name) && name != "*"@ && name != "+"@ && exists|i: int|
            0 <= i < requested.len() && text::lower(#[trigger] requested[i]) == name {
            let k = choose|k: int|
                0 <= k < requested.len() && text::lower(#[trigger] requested[k]) == name;
            if k < n {
                assert(text::lower(front[k]) == name);
            } else {
                assert(all[before.len() as int] == name);
            }
        }
    }
}

/// The request names that attribute, without regard to case.
pub open spec fn names(requested: Seq<Seq<char>>, name: Seq<char>) -> bool {
    exists|i: int| 0 <= i < requested.len() && text::lower(#[trigger] requested[i]) == name
}

/// A user attribute goes out, with all its values, exactly where no attribute
/// is asked for by name, or all are with `*`, or this one is.
pub proof fn user_attributes_go_out_on_request(
    attrs: AttributeSeq,
    requested: Seq<Seq<char>>,
    name: Seq<char>,
)
    requires
        string_map::distinct_keys(attrs),
        !is_operational_name(text::lower(name)),
        text::lower(name) != "+"@,
    ensures
        requested.len() == 0 || requested.contains("*"@) || names(requested, text::lower(name))
            ==> string_map::lookup(selected_user(attrs, requested), name) == string_map::lookup(
            attrs,
            name,
        ),
        !(requested.len() == 0 || requested.contains("*"@) || names(requested, text::lower(name)))
            ==> string_map::lookup(selected_user(attrs, requested), name) is None,
{
    reveal_strlit("*");
    assert(text::lower("*"@) =~= "*"@);
    lookup_kept(attrs, named_in(lowers(requested), false), name);
    let low = lowers(requested);
    if names(requested, text::lower(name)) {
        let i = choose|i: int|
            0 <= i < requested.len() && text::lower(#[trigger] requested[i]) == text::lower(name);
        assert(low[i] == text::lower(name));
        assert(names_user(text::lower(requested[i])));
    }
    if low.contains(text::lower(name)) {
        let i = choose|i: int| 0 <= i < low.len() && low[i] == text::lower(name);
        assert(text::lower(requested[i]) == text::lower(name));
    }
    if requested.contains("*"@) {
        let i = choose|i: int| 0 <= i < requested.len() && requested[i] == "*"@;
        assert(names_user(text::lower(requested[i])));
    }
}

/// An attribute that the server keeps goes out, with all its values, exactly
/// where all of them are asked for with `+`, or this one is by name.
pub proof fn kept_attributes_go_out_on_request(
    attrs: AttributeSeq,
    requested: Seq<Seq<char>>,
    name: Seq<char>,
)
    requires
        string_map::distinct_keys(attrs),
        is_operational_name(text::lower(name)),
    ensures
        names(requested, "+"@) || names(requested, text::lower(name)) ==> string_map::lookup(
            selected_operational(attrs, requested),
            name,
        ) == string_map::lookup(attrs, name),
        !(names(requested, "+"@) || names(requested, text::lower(name))) ==> string_map::lookup(
            selected_operational(attrs, requested),
            name,
        ) is None,
{
    let wanted = wanted_operational(requested);
    wanted_names(requested, text::lower(name));
    lookup_kept(attrs, named_in(wanted, true), name);
    reveal_strlit("*");
    reveal_strlit("+");
    reveal_strlit("createtimestamp");
    reveal_strlit("creatorsname");
    reveal_strlit("modifytimestamp");
    reveal_strlit("modifiersname");
    reveal_strlit("entrycsn");
    reveal_strlit("entryuuid");
    reveal_strlit("structuralobjectclass");
    reveal_strlit("subschemasubentry");
    assert(text::lower(name).len() > 1);
    assert(wants_all_operational(requested) == names(requested, "+"@));
    if wanted.len() == 0 {
        assert(!wanted.contains(text::lower(name)));
    }
}

/// Entries that were loaded are found under their names, without regard to
/// case and white space around them, and nothing else is found.
pub proof fn nothing_else_is_found(entries: Seq<DirectoryEntry>, key: Seq<char>)
    ensures
        string_map::lookup(loaded(entries), key) is Some <==> exists|i: int|
            0 <= i < entries.len() && text::lower(text::trim((#[trigger] entries[i]).dn@)) == key,
    decreases entries.len(),
{
    let all = loaded(entries);
    if exists|i: int|
        0 <= i < entries.len() && text::lower(text::trim((#[trigger] entries[i]).dn@)) == key {
        let k = choose|i: int|
            0 <= i < entries.len() && text::lower(text::trim((#[trigger] entries[i]).dn@)) == key;
        first_of_a_name(entries, k);
    } else if entries.len() > 0 {
        let front = entries.drop_last();
        let n = entries.len() - 1;
        assert forall|i: int| 0 <= i < front.len() implies text::lower(
            text::trim((#[trigger] front[i]).dn@),
        ) != key by {
            assert(front[i] == entries[i]);
        }
        nothing_else_is_found(front, key);
        assert(text::lower(text::trim(entries[n].dn@)) != key);
        string_map::lookup_present(loaded(front), key);
        string_map::lookup_present(all, key);
        if string_map::lookup(all, key) is Some {
            let j = choose|j: int| 0 <= j < all.len() && (#[trigger] all[j]).0 == key;
            if j < loaded(front).len() {
                assert(loaded(front)[j].0 == key);
            }
            assert(false);
        }
    }
}

proof fn first_of_a_name(entries: Seq<DirectoryEntry>, k: int)
    requires
        0 <= k < entries.len(),
    ensures
        string_map::lookup(loaded(entries), normalized_dn(entries[k].dn@)) is Some,
    decreases k,
{
    if exists|j: int|
        0 <= j < k && normalized_dn((#[trigger] entries[j]).dn@) == normalized_dn(entries[k].dn@) {
        let j = choose|j: int|
            0 <= j < k && normalized_dn((#[trigger] entries[j]).dn@) == normalized_dn(
                entries[k].dn@,
            );
        first_of_a_name(entries, j);
    } else {
        loaded_entries_are_found(entries, k);
    }
}

/// Each loaded entry whose name is new is a candidate under the name that it
/// has, in the order in which they were loaded.
pub proof fn new_names_are_candidates(entries: Seq<DirectoryEntry>, e: DirectoryEntry)
    ensures
        string_map::lookup(loaded(entries), text::lower(text::trim(e.dn@))) is None ==> loaded_names(
            entries.push(e),
        ) == loaded_names(entries).push(e.dn@),
        string_map::lookup(loaded(entries), text::lower(text::trim(e.dn@))) is Some ==> loaded_names(
            entries.push(e),
        ) == loaded_names(entries),
        loaded_names(Seq::<DirectoryEntry>::empty()).len() == 0,
{
    assert(entries.push(e).drop_last() =~= entries);
    assert(loaded_names(entries.push(e)) =~= (if string_map::lookup(
        loaded(entries),
        text::lower(text::trim(e.dn@)),
    ) is None {
        loaded_names(entries).push(e.dn@)
    } else {
        loaded_names(entries)
    }));
}

/// The first alias that could not be followed is the one at which a search
/// ends: none before it failed.
pub proof fn the_first_broken_alias_is_told(
    resolved: Seq<Result<DirectoryEntry, (ResultCode, String)>>,
)
    ensures
        0 <= first_alias_fault(resolved) <= resolved.len(),
        first_alias_fault(resolved) < resolved.len() ==> resolved[first_alias_fault(resolved)]
            is Err,
        forall|i: int| 0 <= i < first_alias_fault(resolved) ==> #[trigger] resolved[i] is Ok,
    decreases resolved.len(),
{
    if resolved.len() > 0 && resolved[0] is Ok {
        let rest = resolved.drop_first();
        the_first_broken_alias_is_told(rest);
        assert forall|i: int| 0 <= i < first_alias_fault(resolved) implies #[trigger] resolved[i]
            is Ok by {
            if i > 0 {
                assert(rest[i - 1] == resolved[i]);
            }
        }
    }
}

/// The first referral that could not be given is the one at which a search
/// ends: none before it failed.
pub proof fn the_first_broken_referral_is_told(found: Seq<(DirectoryEntry, Referral)>)
    ensures
        0 <= first_referral_fault(found) <= found.len(),
        first_referral_fault(found) < found.len() ==> (found[first_referral_fault(
            found,
        )].1 matches Some(Err(_))),
        forall|i: int|
            0 <= i < first_referral_fault(found) ==> !((#[trigger] found[i]).1 matches Some(Err(_))),
    decreases found.len(),
{
    if found.len() > 0 && !(found[0].1 matches Some(Err(_))) {
        let rest = found.drop_first();
        the_first_broken_referral_is_told(rest);
        assert forall|i: int| 0 <= i < first_referral_fault(found) implies !((
        #[trigger] found[i]).1 matches Some(Err(_))) by {
            if i > 0 {
                assert(rest[i - 1] == found[i]);
            }
        }
    }
}

/// The first address that is not valid is the one that is told.
pub proof fn the_first_broken_address_is_told(faults: Seq<Option<String>>)
    ensures
        0 <= first_fault(faults) <= faults.len(),
        first_fault(faults) < faults.len() ==> faults[first_fault(faults)] is Some,
        forall|i: int| 0 <= i < first_fault(faults) ==> #[trigger] faults[i] is None,
    decreases faults.len(),
{
    if faults.len() > 0 && faults[0] is None {
        let rest = faults.drop_first();
        the_first_broken_address_is_told(rest);
        assert forall|i: int| 0 <= i < first_fault(faults) implies #[trigger] faults[i] is None by {
            if i > 0 {
                assert(rest[i - 1] == faults[i]);
            }
        }
    }
}

/// Of the entries of a search, those that do not refer to other servers go
/// out, and of the others the addresses, each in their order.
pub proof fn entries_and_references_are_parted(found: Seq<(DirectoryEntry, Referral)>)
    ensures
        plain_entries(found) == found.filter(
            |f: (DirectoryEntry, Referral)| f.1 is None,
        ).map_values(|f: (DirectoryEntry, Referral)| f.0),
        reference_lists(found) == found.filter(
            |f: (DirectoryEntry, Referral)| f.1 matches Some(Ok(_)),
        ).map_values(|f: (DirectoryEntry, Referral)| f.1->0->Ok_0),
    decreases found.len(),
{
    reveal(Seq::filter);
    let plain = |f: (DirectoryEntry, Referral)| f.1 is None;
    let refers = |f: (DirectoryEntry, Referral)| f.1 matches Some(Ok(_));
    let entry = |f: (DirectoryEntry, Referral)| f.0;
    let urls = |f: (DirectoryEntry, Referral)| f.1->0->Ok_0;
    if found.len() > 0 {
        let front = found.drop_last();
        entries_and_references_are_parted(front);
        assert(found.filter(plain).map_values(entry) =~= (if plain(found.last()) {
            front.filter(plain).map_values(entry).push(found.last().0)
        } else {
            front.filter(plain).map_values(entry)
        }));
        assert(found.filter(refers).map_values(urls) =~= (if refers(found.last()) {
            front.filter(refers).map_values(urls).push(found.last().1->0->Ok_0)
        } else {
            front.filter(refers).map_values(urls)
        }));
    } else {
        assert(found.filter(plain).map_values(entry) =~= Seq::empty());
        assert(found.filter(refers).map_values(urls) =~= Seq::empty());
    }
}

} // verus!
