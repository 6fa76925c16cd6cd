//! Which attributes of an entry a search returns.
//!
//! Operational attributes are returned only where they are asked for: all of
//! them by `+`, some by their names. User attributes are returned where none
//! is named, all of them by `*`, some by their names.

use vstd::prelude::*;

use crate::directory;
use crate::directory::{AttributeSeq, Attributes, OperationalAttributes};
use crate::string_map;
use crate::text;

verus! {

/// A requested name, in lower case, stands for user attributes.
pub open spec fn names_user(name: Seq<char>) -> bool {
    name == "*"@ || (name != "+"@ && !directory::is_operational_name(name))
}

/// A requested name, in lower case, is that of an operational attribute.
pub open spec fn names_operational(name: Seq<char>) -> bool {
    name != "*"@ && name != "+"@ && directory::is_operational_name(name)
}

/// User attributes are asked for; a request without names asks for them.
pub open spec fn wants_user(requested: Seq<Seq<char>>) -> bool {
    requested.len() == 0 || exists|i: int|
        0 <= i < requested.len() && names_user(text::lower(#[trigger] requested[i]))
}

/// All operational attributes are asked for.
pub open spec fn wants_all_operational(requested: Seq<Seq<char>>) -> bool {
    exists|i: int| 0 <= i < requested.len() && text::lower(#[trigger] requested[i]) == "+"@
}

/// The operational attributes that are asked for by name, in lower case.
pub open spec fn wanted_operational(requested: Seq<Seq<char>>) -> Seq<Seq<char>>
    decreases requested.len(),
{
    if requested.len() == 0 {
        Seq::empty()
    } else {
        let before = wanted_operational(requested.drop_last());
        let name = text::lower(requested.last());
        if names_operational(name) {
            before.push(name)
        } else {
            before
        }
    }
}

/// What a request asks for: whether user attributes, whether all operational
/// attributes, and which operational attributes by name.
pub fn parse_attribute_request(requested_attrs: &[String]) -> (r: (bool, bool, Vec<String>))
    ensures
        r.0 == wants_user(text::texts(requested_attrs@)),
        r.1 == wants_all_operational(text::texts(requested_attrs@)),
        text::texts(r.2@) == wanted_operational(text::texts(requested_attrs@)),
{
    let ghost req = text::texts(requested_attrs@);
    let mut include_user = requested_attrs.len() == 0;
    let mut include_all_operational = false;
    let mut specific_operational: Vec<String> = Vec::new();
    let mut i: usize = 0;
    proof {
        assert(text::texts(specific_operational@) =~= wanted_operational(req.take(0)));
    }
    while i < requested_attrs.len()
        invariant
            req == text::texts(requested_attrs@),
            i <= requested_attrs@.len(),
            include_user == (req.len() == 0 || exists|j: int|
                0 <= j < i && names_user(text::lower(#[trigger] req[j]))),
            include_all_operational == (exists|j: int|
                0 <= j < i && text::lower(#[trigger] req[j]) == "+"@),
            text::texts(specific_operational@) == wanted_operational(req.take(i as int)),
        decreases requested_attrs@.len() - i,
    {
        let name = text::lowercase(requested_attrs[i].as_str());
        proof {
            assert(req[i as int] == requested_attrs@[i as int]@);
            assert(req.take(i as int + 1).drop_last() =~= req.take(i as int));
            assert(req.take(i as int + 1).last() == req[i as int]);
            reveal_strlit("*");
            reveal_strlit("+");
            assert("*"@[0] != "+"@[0]);
        }
        if text::same(name.as_str(), "*") {
            include_user = true;
        } else if text::same(name.as_str(), "+") {
            include_all_operational = true;
        } else if OperationalAttributes::is_operational(name.as_str()) {
            proof {
                text::texts_push(specific_operational@, name);
            }
            specific_operational.push(name);
        } else {
            include_user = true;
        }
        i = i + 1;
    }
    proof {
        assert(req.take(i as int) =~= req);
    }
    (include_user, include_all_operational, specific_operational)
}

/// The attributes whose names are to be kept, in their order.
pub open spec fn kept(attrs: AttributeSeq, keep: spec_fn(Seq<char>) -> bool) -> AttributeSeq
    decreases attrs.len(),
{
    if attrs.len() == 0 {
        attrs
    } else {
        let before = kept(attrs.drop_last(), keep);
        if keep(attrs.last().0) {
            before.push(attrs.last())
        } else {
            before
        }
    }
}

proof fn kept_keys(attrs: AttributeSeq, keep: spec_fn(Seq<char>) -> bool, k: Seq<char>)
    requires
        forall|j: int| 0 <= j < attrs.len() ==> (#[trigger] attrs[j]).0 != k,
    ensures
        forall|j: int| 0 <= j < kept(attrs, keep).len() ==> (#[trigger] kept(attrs, keep)[j]).0 != k,
    decreases attrs.len(),
{
    if attrs.len() > 0 {
        let front = attrs.drop_last();
        assert forall|j: int| 0 <= j < front.len() implies (#[trigger] front[j]).0 != k by {
            assert(attrs[j].0 != k);
        }
        kept_keys(front, keep, k);
        assert(attrs[attrs.len() - 1].0 != k);
        let before = kept(front, keep);
        let all = kept(attrs, keep);
        assert forall|j: int| 0 <= j < all.len() implies (#[trigger] all[j]).0 != k by {
            if j < before.len() {
                assert(all[j] == before[j]);
            }
        }
    }
}

/// A name is kept with its values, or not at all.
pub proof fn lookup_kept(attrs: AttributeSeq, keep: spec_fn(Seq<char>) -> bool, k: Seq<char>)
    requires
        string_map::distinct_keys(attrs),
    ensures
        string_map::lookup(kept(attrs, keep), k) == (if keep(k) {
            string_map::lookup(attrs, k)
        } else {
            None
        }),
    decreases attrs.len(),
{
    if attrs.len() > 0 {
        let front = attrs.drop_last();
        let last = attrs.last();
        assert forall|i: int, j: int| 0 <= i < j < front.len() implies (#[trigger] front[i]).0 != (
        #[trigger] front[j]).0 by {
            assert(attrs[i].0 != attrs[j].0);
        }
        lookup_kept(front, keep, k);
        assert forall|j: int| 0 <= j < front.len() implies (#[trigger] front[j]).0 != last.0 by {
            assert(attrs[j].0 != attrs[attrs.len() - 1].0);
        }
        kept_keys(front, keep, last.0);
        string_map::put_at(front, last.0, last.1, front.len() as int);
        string_map::lookup_put(front, last.0, last.1, k);
        assert(front.push(last) =~= attrs);
        assert(last == (last.0, last.1));
        let before = kept(front, keep);
        string_map::put_at(before, last.0, last.1, before.len() as int);
        string_map::lookup_put(before, last.0, last.1, k);
    }
}

/// The lower case of each text.
pub open spec fn lowers(names: Seq<Seq<char>>) -> Seq<Seq<char>> {
    names.map_values(|s: Seq<char>| text::lower(s))
}

/// A name is, in lower case, among the given ones; one of an operational
/// attribute only where those are wanted.
pub open spec fn named_in(names: Seq<Seq<char>>, operational: bool) -> spec_fn(Seq<char>) -> bool {
    |k: Seq<char>|
        names.contains(text::lower(k)) && (operational || !directory::is_operational_name(
            text::lower(k),
        ))
}

/// The operational attributes that a request gets.
pub open spec fn selected_operational(attrs: AttributeSeq, requested: Seq<Seq<char>>) -> AttributeSeq {
    if wants_all_operational(requested) {
        attrs
    } else if wanted_operational(requested).len() == 0 {
        AttributeSeq::empty()
    } else {
        kept(attrs, named_in(wanted_operational(requested), true))
    }
}

/// The user attributes that a request gets.
pub open spec fn selected_user(attrs: AttributeSeq, requested: Seq<Seq<char>>) -> AttributeSeq {
    if !wants_user(requested) {
        AttributeSeq::empty()
    } else if requested.len() == 0 || requested.contains("*"@) {
        attrs
    } else {
        kept(attrs, named_in(lowers(requested), false))
    }
}

/// The attributes whose names, in lower case, are among the given ones;
/// without those of operational attributes where they are not wanted.
fn keep_named(attrs: &Attributes, names: &Vec<String>, operational: bool) -> (r: Attributes)
    ensures
        r@ == kept(attrs@, named_in(text::texts(names@), operational)),
{
    let ghost keep = named_in(text::texts(names@), operational);
    let mut out = Attributes::new();
    let n = attrs.len();
    let mut i: usize = 0;
    let ghost s = attrs@;
    proof {
        assert(out@ =~= kept(s.take(0), keep));
    }
    while i < n
        invariant
            s == attrs@,
            n == s.len(),
            i <= n,
            string_map::distinct_keys(s),
            keep == named_in(text::texts(names@), operational),
            out@ == kept(s.take(i as int), keep),
        decreases n - i,
    {
        let e = attrs.entry(i);
        let key = text::lowercase(e.0.as_str());
        proof {
            assert(s.take(i as int + 1).drop_last() =~= s.take(i as int));
            assert(s.take(i as int + 1).last() == s[i as int]);
            assert(keep(s[i as int].0) == (text::texts(names@).contains(key@) && (operational
                || !directory::is_operational_name(key@))));
        }
        if directory::contains_string(names, key.as_str()) && (operational
            || !OperationalAttributes::is_operational(key.as_str())) {
            proof {
                let front = s.take(i as int);
                assert forall|j: int| 0 <= j < front.len() implies (#[trigger] front[j]).0
                    != s[i as int].0 by {
                    assert(s[j].0 != s[i as int].0);
                }
                kept_keys(front, keep, s[i as int].0);
                string_map::put_at(out@, s[i as int].0, s[i as int].1, out@.len() as int);
            }
            out.insert(e.0.clone(), directory::copy_strings(e.1));
        }
        i = i + 1;
    }
    proof {
        assert(s.take(i as int) =~= s);
    }
    out
}

/// The operational attributes of an entry that a request gets.
pub fn filter_operational_attributes(
    operational_attrs: &OperationalAttributes,
    requested_attrs: &[String],
) -> (r: Attributes)
    ensures
        r@ == selected_operational(operational_attrs@, text::texts(requested_attrs@)),
{
    let (_, include_all_operational, specific_operational) = parse_attribute_request(
        requested_attrs,
    );
    if include_all_operational {
        return operational_attrs.to_attributes();
    }
    if specific_operational.len() == 0 {
        return Attributes::new();
    }
    let all_operational = operational_attrs.to_attributes();
    keep_named(&all_operational, &specific_operational, true)
}

/// The user attributes of an entry that a request gets.
pub fn filter_user_attributes(user_attrs: &Attributes, requested_attrs: &[String]) -> (r:
    Attributes)
    ensures
        r@ == selected_user(user_attrs@, text::texts(requested_attrs@)),
{
    let (include_user, _, _) = parse_attribute_request(requested_attrs);
    if !include_user {
        return Attributes::new();
    }
    let ghost req = text::texts(requested_attrs@);
    let mut lowered: Vec<String> = Vec::new();
    let mut all = requested_attrs.len() == 0;
    let mut i: usize = 0;
    proof {
        assert(text::texts(lowered@) =~= lowers(req).take(0));
    }
    while i < requested_attrs.len()
        invariant
            req == text::texts(requested_attrs@),
            i <= requested_attrs@.len(),
            all == (req.len() == 0 || exists|j: int| 0 <= j < i && #[trigger] req[j] == "*"@),
            text::texts(lowered@) == lowers(req).take(i as int),
        decreases requested_attrs@.len() - i,
    {
        let name = text::lowercase(requested_attrs[i].as_str());
        proof {
            assert(req[i as int] == requested_attrs@[i as int]@);
            text::texts_push(lowered@, name);
            assert(lowers(req).take(i as int + 1) =~= lowers(req).take(i as int).push(
                lowers(req)[i as int],
            ));
        }
        if text::same(requested_attrs[i].as_str(), "*") {
            all = true;
        }
        lowered.push(name);
        i = i + 1;
    }
    if all {
        proof {
            if req.len() > 0 {
                let j = choose|j: int| 0 <= j < req.len() && #[trigger] req[j] == "*"@;
                assert(req.contains(req[j]));
            }
        }
        return user_attrs.copy();
    }
    let r = keep_named(user_attrs, &lowered, false);
    proof {
        assert(lowers(req).take(i as int) =~= lowers(req));
        assert(!req.contains("*"@));
    }
    r
}

/// The first attributes with the second set over them.
pub open spec fn merged(user: AttributeSeq, operational: AttributeSeq) -> AttributeSeq
    decreases operational.len(),
{
    if operational.len() == 0 {
        user
    } else {
        string_map::put(
            merged(user, operational.drop_last()),
            operational.last().0,
            operational.last().1,
        )
    }
}

/// User and operational attributes together; where both have a name, the
/// operational values stand under it.
pub fn merge_attributes(user_attrs: Attributes, operational_attrs: Attributes) -> (r: Attributes)
    ensures
        r@ == merged(user_attrs@, operational_attrs@),
{
    let mut out = user_attrs;
    let n = operational_attrs.len();
    let ghost s = operational_attrs@;
    let mut i: usize = 0;
    proof {
        assert(s.take(0) =~= AttributeSeq::empty());
    }
    while i < n
        invariant
            s == operational_attrs@,
            n == s.len(),
            i <= n,
            out@ == merged(user_attrs@, s.take(i as int)),
        decreases n - i,
    {
        let e = operational_attrs.entry(i);
        proof {
            assert(s.take(i as int + 1).drop_last() =~= s.take(i as int));
            assert(s.take(i as int + 1).last() == s[i as int]);
        }
        out.insert(e.0.clone(), directory::copy_strings(e.1));
        i = i + 1;
    }
    proof {
        assert(s.take(i as int) =~= s);
    }
    out
}

// ---------------------------------------------------------------------------
// Laws
// ---------------------------------------------------------------------------

/// A request that names no operational attribute and not `+` gets none.
pub proof fn operational_attributes_only_on_request(attrs: AttributeSeq, requested: Seq<Seq<char>>)
    requires
        forall|i: int|
            0 <= i < requested.len() ==> names_user(text::lower(#[trigger] requested[i])),
    ensures
        selected_operational(attrs, requested) == AttributeSeq::empty(),
    decreases requested.len(),
{
    reveal_strlit("*");
    reveal_strlit("+");
    assert("*"@[0] != "+"@[0]);
    if requested.len() > 0 {
        let front = requested.drop_last();
        assert forall|i: int| 0 <= i < front.len() implies names_user(
            text::lower(#[trigger] front[i]),
        ) by {
            assert(front[i] == requested[i]);
        }
        operational_attributes_only_on_request(attrs, front);
        assert(names_user(text::lower(requested[requested.len() - 1])));
        assert(wanted_operational(front).len() == 0) by {
            nothing_wanted(front);
        }
    }
}

proof fn nothing_wanted(requested: Seq<Seq<char>>)
    requires
        forall|i: int|
            0 <= i < requested.len() ==> names_user(text::lower(#[trigger] requested[i])),
    ensures
        wanted_operational(requested).len() == 0,
    decreases requested.len(),
{
    reveal_strlit("*");
    reveal_strlit("+");
    assert("*"@[0] != "+"@[0]);
    if requested.len() > 0 {
        let front = requested.drop_last();
        assert forall|i: int| 0 <= i < front.len() implies names_user(
            text::lower(#[trigger] front[i]),
        ) by {
            assert(front[i] == requested[i]);
        }
        nothing_wanted(front);
        assert(names_user(text::lower(requested[requested.len() - 1])));
    }
}

/// A request with `+` gets every operational attribute, and one with `*` or
/// without names every user attribute.
pub proof fn plus_and_star_ask_for_all(
    user: AttributeSeq,
    operational: AttributeSeq,
    requested: Seq<Seq<char>>,
)
    ensures
        requested.contains("+"@) ==> selected_operational(operational, requested) == operational,
        requested.contains("*"@) ==> selected_user(user, requested) == user,
        requested.len() == 0 ==> selected_user(user, requested) == user,
        requested.len() == 0 ==> selected_operational(operational, requested)
            == AttributeSeq::empty(),
{
    reveal_strlit("*");
    reveal_strlit("+");
    if requested.contains("+"@) {
        let i = choose|i: int| 0 <= i < requested.len() && requested[i] == "+"@;
        assert(text::lower("+"@) =~= "+"@);
        assert(text::lower(requested[i]) == "+"@);
    }
    if requested.contains("*"@) {
        let i = choose|i: int| 0 <= i < requested.len() && requested[i] == "*"@;
        assert(text::lower("*"@) =~= "*"@);
        assert(names_user(text::lower(requested[i])));
    }
}

/// A request for `+` alone gets no user attribute.
pub proof fn plus_alone_asks_for_no_user_attribute(attrs: AttributeSeq)
    ensures
        selected_user(attrs, seq!["+"@]) == AttributeSeq::empty(),
{
    reveal_strlit("*");
    reveal_strlit("+");
    assert(text::lower("+"@) =~= "+"@);
    assert("*"@[0] != "+"@[0]);
    assert(seq!["+"@][0] == "+"@);
}

/// Each name in a merge has the operational values where there are some, else
/// the user values.
pub proof fn lookup_merged(user: AttributeSeq, operational: AttributeSeq, k: Seq<char>)
    requires
        string_map::distinct_keys(operational),
    ensures
        string_map::lookup(merged(user, operational), k) == (match string_map::lookup(
            operational,
            k,
        ) {
            Some(v) => Some(v),
            None => string_map::lookup(user, k),
        }),
    decreases operational.len(),
{
    if operational.len() > 0 {
        let front = operational.drop_last();
        let last = operational.last();
        assert forall|i: int, j: int| 0 <= i < j < front.len() implies (#[trigger] front[i]).0 != (
        #[trigger] front[j]).0 by {
            assert(operational[i].0 != operational[j].0);
        }
        lookup_merged(user, front, k);
        string_map::lookup_put(merged(user, front), last.0, last.1, k);
        assert forall|j: int| 0 <= j < front.len() implies (#[trigger] front[j]).0 != last.0 by {
            assert(operational[j].0 != operational[operational.len() - 1].0);
        }
        string_map::put_at(front, last.0, last.1, front.len() as int);
        string_map::lookup_put(front, last.0, last.1, k);
        assert(front.push(last) =~= operational);
        assert(last == (last.0, last.1));
    }
}

} // verus!
