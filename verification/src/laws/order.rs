//! Laws of the order in which a search gives its entries.

use vstd::prelude::*;

use crate::directory::{AttributeSeq, DirectoryEntry};
use crate::search_entries::{
    entry_order, in_order, least, normalized_dn, sort_value, sorting_puts_in_order, SortKey,
};
use crate::string_map;
use crate::text;

verus! {

/// A value of the attribute, whatever its case, if the entry has one.
pub open spec fn values_of(attrs: AttributeSeq, attribute: Seq<char>) -> Seq<Seq<char>> {
    match string_map::lookup(attrs, text::lower(attribute)) {
        Some(values) => values,
        None => Seq::empty(),
    }
}

/// An entry is put in order by the least of the values of the attribute, without
/// regard to case: one of them is that value, and none is below it. It has none
/// exactly where the entry has no value of the attribute.
pub proof fn entries_are_ordered_by_their_least_value(attrs: AttributeSeq, attribute: Seq<char>)
    ensures
        sort_value(attrs, attribute) is None <==> values_of(attrs, attribute).len() == 0,
        sort_value(attrs, attribute) matches Some(v) ==> {
            &&& exists|i: int|
                0 <= i < values_of(attrs, attribute).len() && v == text::lower(
                    #[trigger] values_of(attrs, attribute)[i],
                )
            &&& forall|i: int|
                0 <= i < values_of(attrs, attribute).len() ==> !text::less(
                    text::lower(#[trigger] values_of(attrs, attribute)[i]),
                    v,
                )
        },
{
    let values = values_of(attrs, attribute);
    let lowered = values.map_values(|v: Seq<char>| text::lower(v));
    least_is_least(lowered);
    if let Some(v) = least(lowered) {
        let i = choose|i: int| 0 <= i < lowered.len() && #[trigger] lowered[i] == v;
        assert(lowered[i] == text::lower(values[i]));
        assert forall|i: int| 0 <= i < values.len() implies !text::less(
            text::lower(#[trigger] values[i]),
            v,
        ) by {
            assert(lowered[i] == text::lower(values[i]));
        }
    }
}

proof fn least_is_least(s: Seq<Seq<char>>)
    ensures
        least(s) is None <==> s.len() == 0,
        least(s) matches Some(v) ==> (exists|i: int| 0 <= i < s.len() && #[trigger] s[i] == v)
            && forall|i: int| 0 <= i < s.len() ==> !text::less(#[trigger] s[i], v),
    decreases s.len(),
{
    if s.len() > 0 {
        let front = s.drop_last();
        least_is_least(front);
        let v = least(s)->0;
        text::less_total(s.last(), s.last());
        match least(front) {
            None => {
                assert(s[s.len() - 1] == v);
            },
            Some(m) => {
                text::less_total(s.last(), m);
                text::less_total(m, m);
                if text::less(s.last(), m) {
                    assert(s[s.len() - 1] == v);
                } else {
                    let i = choose|i: int| 0 <= i < front.len() && #[trigger] front[i] == m;
                    assert(s[i] == v);
                }
                assert forall|i: int| 0 <= i < s.len() implies !text::less(#[trigger] s[i], v) by {
                    if i < front.len() {
                        assert(front[i] == s[i]);
                        if text::less(s[i], v) && v != m {
                            text::less_transitive(s[i], v, m);
                        }
                    }
                }
            },
        }
    }
}

/// The first of two values stands before the second: it is below it, or it is
/// there and the second is not.
pub open spec fn stands_before(a: Option<Seq<char>>, b: Option<Seq<char>>) -> bool {
    match (a, b) {
        (Some(a), Some(b)) => text::less(a, b),
        (Some(_), None) => true,
        (None, _) => false,
    }
}

/// The value by which a key puts an entry in order.
pub open spec fn value_at(e: DirectoryEntry, key: SortKey) -> Option<Seq<char>> {
    sort_value(e.attributes@, key.attribute_type@)
}

/// Of two entries the keys before a place do not tell them apart.
pub open spec fn alike_before(
    a: DirectoryEntry,
    b: DirectoryEntry,
    keys: Seq<SortKey>,
    k: int,
) -> bool {
    forall|m: int| 0 <= m < k ==> value_at(a, #[trigger] keys[m]) == value_at(b, keys[m])
}

proof fn first_difference_decides(
    a: DirectoryEntry,
    b: DirectoryEntry,
    keys: Seq<SortKey>,
    k: int,
)
    requires
        0 <= k < keys.len(),
        alike_before(a, b, keys, k),
        value_at(a, keys[k]) != value_at(b, keys[k]),
        entry_order(a, b, keys) <= 0,
    ensures
        if keys[k].reverse_order {
            stands_before(value_at(b, keys[k]), value_at(a, keys[k]))
        } else {
            stands_before(value_at(a, keys[k]), value_at(b, keys[k]))
        },
    decreases keys.len(),
{
    let va = value_at(a, keys[0]);
    let vb = value_at(b, keys[0]);
    if va is Some && vb is Some {
        text::less_total(va->0, vb->0);
        text::less_total(vb->0, va->0);
    }
    if k > 0 {
        assert(value_at(a, keys[0]) == value_at(b, keys[0]));
        let rest = keys.drop_first();
        assert forall|m: int| 0 <= m < k - 1 implies value_at(a, #[trigger] rest[m]) == value_at(
            b,
            rest[m],
        ) by {
            assert(rest[m] == keys[m + 1]);
        }
        assert(rest[k - 1] == keys[k]);
        first_difference_decides(a, b, rest, k - 1);
    }
}

proof fn names_decide_last(a: DirectoryEntry, b: DirectoryEntry, keys: Seq<SortKey>)
    requires
        alike_before(a, b, keys, keys.len() as int),
        entry_order(a, b, keys) <= 0,
    ensures
        !text::less(normalized_dn(b.dn@), normalized_dn(a.dn@)),
    decreases keys.len(),
{
    text::less_total(normalized_dn(a.dn@), normalized_dn(b.dn@));
    if keys.len() > 0 {
        assert(value_at(a, keys[0]) == value_at(b, keys[0]));
        if let Some(v) = value_at(a, keys[0]) {
            text::less_total(v, v);
        }
        let rest = keys.drop_first();
        assert forall|m: int| 0 <= m < rest.len() implies value_at(a, #[trigger] rest[m])
            == value_at(b, rest[m]) by {
            assert(rest[m] == keys[m + 1]);
        }
        names_decide_last(a, b, rest);
    }
}

/// In a sorted list, of two entries the first key whose values tell them apart
/// decides: the earlier entry has the value that stands before that of the
/// later one, or behind it where the key is reversed. Entries that no key tells
/// apart stand in the order of their names.
pub proof fn the_first_key_that_differs_decides(
    entries: Seq<DirectoryEntry>,
    keys: Seq<SortKey>,
    i: int,
    j: int,
    k: int,
)
    requires
        0 <= i < j < in_order(entries, keys).len(),
        0 <= k <= keys.len(),
        alike_before(in_order(entries, keys)[i], in_order(entries, keys)[j], keys, k),
    ensures
        ({
            let a = in_order(entries, keys)[i];
            let b = in_order(entries, keys)[j];
            &&& k < keys.len() && value_at(a, keys[k]) != value_at(b, keys[k]) ==> if keys[k].reverse_order {
                stands_before(value_at(b, keys[k]), value_at(a, keys[k]))
            } else {
                stands_before(value_at(a, keys[k]), value_at(b, keys[k]))
            }
            &&& k == keys.len() ==> !text::less(normalized_dn(b.dn@), normalized_dn(a.dn@))
        }),
{
    sorting_puts_in_order(entries, keys);
    let a = in_order(entries, keys)[i];
    let b = in_order(entries, keys)[j];
    assert(entry_order(a, b, keys) <= 0);
    if k < keys.len() {
        if value_at(a, keys[k]) != value_at(b, keys[k]) {
            first_difference_decides(a, b, keys, k);
        }
    } else {
        names_decide_last(a, b, keys);
    }
}

/// Sorting loses no entry and makes none up.
pub proof fn sorting_keeps_the_entries(
    entries: Seq<DirectoryEntry>,
    keys: Seq<SortKey>,
    e: DirectoryEntry,
)
    ensures
        in_order(entries, keys).len() == entries.len(),
        in_order(entries, keys).to_multiset().count(e) == entries.to_multiset().count(e),
        in_order(entries, keys).contains(e) <==> entries.contains(e),
{
    sorting_puts_in_order(entries, keys);
    entries.to_multiset_ensures();
    let sorted = in_order(entries, keys);
    sorted.to_multiset_ensures();
    assert(entries.contains(e) <==> entries.to_multiset().count(e) > 0);
    assert(sorted.contains(e) <==> sorted.to_multiset().count(e) > 0);
}

} // verus!
