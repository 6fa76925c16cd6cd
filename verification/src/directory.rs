//! Directory entries as the rest of the library reads them.

use vstd::prelude::*;

use crate::string_map;
use crate::string_map::StringMap;
use crate::text;

verus! {

/// Attribute names with their values, in the order in which the names came.
pub type AttributeSeq = Seq<(Seq<char>, Seq<Seq<char>>)>;

spec fn with_texts(s: Seq<(Seq<char>, Vec<String>)>) -> AttributeSeq {
    s.map_values(|e: (Seq<char>, Vec<String>)| (e.0, text::texts(e.1@)))
}

proof fn lookup_texts(s: Seq<(Seq<char>, Vec<String>)>, k: Seq<char>)
    ensures
        string_map::lookup(with_texts(s), k) == (match string_map::lookup(s, k) {
            Some(v) => Some(text::texts(v@)),
            None => None,
        }),
    decreases s.len(),
{
    if s.len() > 0 {
        lookup_texts(s.drop_first(), k);
        assert(with_texts(s).drop_first() =~= with_texts(s.drop_first()));
    }
}

proof fn put_texts(s: Seq<(Seq<char>, Vec<String>)>, k: Seq<char>, v: Vec<String>)
    ensures
        with_texts(string_map::put(s, k, v)) == string_map::put(with_texts(s), k, text::texts(v@)),
    decreases s.len(),
{
    let t = text::texts(v@);
    if s.len() == 0 {
        assert(with_texts(string_map::put(s, k, v)) =~= string_map::put(with_texts(s), k, t));
    } else {
        assert(with_texts(s).drop_first() =~= with_texts(s.drop_first()));
        put_texts(s.drop_first(), k, v);
        assert(with_texts(string_map::put(s, k, v)) =~= string_map::put(with_texts(s), k, t));
    }
}

proof fn without_texts(s: Seq<(Seq<char>, Vec<String>)>, k: Seq<char>)
    ensures
        with_texts(string_map::without(s, k)) == string_map::without(with_texts(s), k),
    decreases s.len(),
{
    if s.len() > 0 {
        assert(with_texts(s).drop_first() =~= with_texts(s.drop_first()));
        without_texts(s.drop_first(), k);
        if s[0].0 != k {
            assert(with_texts(string_map::without(s, k)) =~= seq![with_texts(s)[0]] + with_texts(
                string_map::without(s.drop_first(), k),
            ));
        }
    } else {
        assert(with_texts(s) =~= string_map::without(with_texts(s), k));
    }
}

/// A copy of a vector of strings.
pub fn copy_strings(v: &Vec<String>) -> (r: Vec<String>)
    ensures
        r@ == v@,
{
    let mut out: Vec<String> = Vec::new();
    let mut i: usize = 0;
    while i < v.len()
        invariant
            i <= v@.len(),
            out@ == v@.take(i as int),
        decreases v@.len() - i,
    {
        out.push(v[i].clone());
        proof {
            assert(v@.take(i as int + 1) =~= v@.take(i as int).push(v@[i as int]));
        }
        i = i + 1;
    }
    proof {
        assert(v@.take(i as int) =~= v@);
    }
    out
}

/// The string is one of those in the vector.
pub fn contains_string(v: &Vec<String>, s: &str) -> (r: bool)
    ensures
        r == text::texts(v@).contains(s@),
{
    let mut i: usize = 0;
    while i < v.len()
        invariant
            i <= v@.len(),
            forall|j: int| 0 <= j < i ==> (#[trigger] text::texts(v@)[j]) != s@,
        decreases v@.len() - i,
    {
        if text::same(v[i].as_str(), s) {
            proof {
                assert(text::texts(v@)[i as int] == s@);
            }
            return true;
        }
        proof {
            assert(text::texts(v@)[i as int] != s@);
        }
        i = i + 1;
    }
    false
}

/// The attributes of an entry: names with their values.
#[derive(Debug, PartialEq, Eq)]
pub struct Attributes {
    map: StringMap<Vec<String>>,
}

impl View for Attributes {
    type V = AttributeSeq;

    closed spec fn view(&self) -> AttributeSeq {
        with_texts(self.map@)
    }
}

impl Attributes {
    pub fn new() -> (r: Self)
        ensures
            r@ == AttributeSeq::empty(),
    {
        let r = Attributes { map: StringMap::new() };
        proof {
            assert(r@ =~= AttributeSeq::empty());
        }
        r
    }

    pub fn len(&self) -> (r: usize)
        ensures
            r == self@.len(),
            string_map::distinct_keys(self@),
    {
        let n = self.map.len();
        proof {
            assert forall|i: int, j: int| 0 <= i < j < self@.len() implies (#[trigger] self@[i]).0
                != (#[trigger] self@[j]).0 by {
                assert(self.map@[i].0 != self.map@[j].0);
            }
        }
        n
    }

    pub fn is_empty(&self) -> (r: bool)
        ensures
            r == (self@.len() == 0),
    {
        self.map.is_empty()
    }

    /// The values under a name.
    pub fn get(&self, name: &str) -> (r: Option<&Vec<String>>)
        ensures
            match r {
                Some(v) => string_map::lookup(self@, name@) == Some(text::texts(v@)),
                None => string_map::lookup(self@, name@) is None,
            },
    {
        proof {
            lookup_texts(self.map@, name@);
        }
        self.map.get(name)
    }

    pub fn contains_key(&self, name: &str) -> (r: bool)
        ensures
            r == (string_map::lookup(self@, name@) is Some),
    {
        proof {
            lookup_texts(self.map@, name@);
        }
        self.map.contains_key(name)
    }

    /// The name and the values of the entry at a place.
    pub fn entry(&self, i: usize) -> (r: (&String, &Vec<String>))
        requires
            i < self@.len(),
        ensures
            (r.0@, text::texts(r.1@)) == self@[i as int],
    {
        self.map.entry(i)
    }

    /// Sets the values under a name.
    pub fn insert(&mut self, name: String, values: Vec<String>)
        ensures
            final(self)@ == string_map::put(old(self)@, name@, text::texts(values@)),
    {
        proof {
            put_texts(self.map@, name@, values);
        }
        let _ = self.map.insert(name, values);
    }

    /// Takes the values under a name away.
    pub fn remove(&mut self, name: &str)
        ensures
            final(self)@ == string_map::without(old(self)@, name@),
    {
        proof {
            without_texts(self.map@, name@);
        }
        let _ = self.map.remove(name);
    }

    /// A copy with the same names and values in the same order.
    pub fn copy(&self) -> (r: Self)
        ensures
            r@ == self@,
    {
        let mut out = Attributes::new();
        let n = self.len();
        let mut i: usize = 0;
        while i < n
            invariant
                n == self@.len(),
                i <= n,
                string_map::distinct_keys(self@),
                out@ == self@.take(i as int),
            decreases n - i,
        {
            let e = self.entry(i);
            proof {
                let s = self@;
                assert forall|j: int| 0 <= j < i implies (#[trigger] s.take(i as int)[j]).0
                    != s[i as int].0 by {
                    assert(s[j].0 != s[i as int].0);
                }
                string_map::put_at(s.take(i as int), s[i as int].0, s[i as int].1, i as int);
                assert(s.take(i as int + 1) =~= s.take(i as int).push(s[i as int]));
            }
            out.insert(e.0.clone(), copy_strings(e.1));
            i = i + 1;
        }
        proof {
            assert(self@.take(i as int) =~= self@);
        }
        out
    }
}

/// The names, in lower case, of the attributes that the server keeps itself.
pub open spec fn is_operational_name(name: Seq<char>) -> bool {
    ||| name == "createtimestamp"@
    ||| name == "creatorsname"@
    ||| name == "modifytimestamp"@
    ||| name == "modifiersname"@
    ||| name == "entrycsn"@
    ||| name == "entryuuid"@
    ||| name == "structuralobjectclass"@
    ||| name == "subschemasubentry"@
}

/// The operational attributes of an entry.
#[derive(Debug, PartialEq, Eq)]
pub struct OperationalAttributes {
    attributes: Attributes,
}

impl View for OperationalAttributes {
    type V = AttributeSeq;

    closed spec fn view(&self) -> AttributeSeq {
        self.attributes@
    }
}

impl OperationalAttributes {
    pub fn new(attributes: Attributes) -> (r: Self)
        ensures
            r@ == attributes@,
    {
        OperationalAttributes { attributes }
    }

    /// The operational attributes as names with values.
    pub fn to_attributes(&self) -> (r: Attributes)
        ensures
            r@ == self@,
    {
        self.attributes.copy()
    }

    /// The name, in lower case, is that of an operational attribute.
    pub fn is_operational(name: &str) -> (r: bool)
        ensures
            r == is_operational_name(name@),
    {
        text::same(name, "createtimestamp") || text::same(name, "creatorsname") || text::same(
            name,
            "modifytimestamp",
        ) || text::same(name, "modifiersname") || text::same(name, "entrycsn") || text::same(
            name,
            "entryuuid",
        ) || text::same(name, "structuralobjectclass") || text::same(name, "subschemasubentry")
    }
}

/// An entry of the directory: its name, its attributes, and the operational
/// attributes that the server keeps for it.
#[derive(Debug, PartialEq, Eq)]
pub struct DirectoryEntry {
    pub dn: String,
    pub attributes: Attributes,
    pub operational_attributes: OperationalAttributes,
}

impl DirectoryEntry {
    pub fn new(dn: &str, attributes: Attributes) -> (r: Self)
        ensures
            r.dn@ == dn@,
            r.attributes == attributes,
            r.operational_attributes@ == AttributeSeq::empty(),
    {
        DirectoryEntry {
            dn: dn.to_owned(),
            attributes,
            operational_attributes: OperationalAttributes::new(Attributes::new()),
        }
    }

    /// A copy with the same name and attributes.
    pub fn copy(&self) -> (r: Self)
        ensures
            r.dn@ == self.dn@,
            r.attributes@ == self.attributes@,
            r.operational_attributes@ == self.operational_attributes@,
    {
        DirectoryEntry {
            dn: self.dn.clone(),
            attributes: self.attributes.copy(),
            operational_attributes: OperationalAttributes::new(
                self.operational_attributes.to_attributes(),
            ),
        }
    }
}

/// An entry as a search reads it: its attributes hold the operational ones too.
#[derive(Debug, PartialEq, Eq)]
pub struct SearchEntry {
    pub dn: String,
    pub attributes: Attributes,
    pub object_classes: Vec<String>,
}

/// A piece of a substring pattern, as an index takes it.
#[derive(Debug, Clone, PartialEq, Eq)]
pub enum SearchSubstringPart {
    Initial(String),
    Any(String),
    Final(String),
}

/// What an index can be asked for before a filter is evaluated.
#[derive(Debug, Clone, PartialEq, Eq)]
pub enum SearchCandidateHint {
    Equality { attribute: String, value: String },
    Present { attribute: String },
    Substring { attribute: String, parts: Vec<SearchSubstringPart> },
    GreaterOrEqual { attribute: String, value: String },
    LessOrEqual { attribute: String, value: String },
}

/// A piece of a substring pattern.
pub enum PartView {
    Initial(Seq<char>),
    Any(Seq<char>),
    Final(Seq<char>),
}

/// What a [`SearchCandidateHint`] says.
pub enum HintView {
    Equality { attribute: Seq<char>, value: Seq<char> },
    Present { attribute: Seq<char> },
    Substring { attribute: Seq<char>, parts: Seq<PartView> },
    GreaterOrEqual { attribute: Seq<char>, value: Seq<char> },
    LessOrEqual { attribute: Seq<char>, value: Seq<char> },
}

impl View for SearchSubstringPart {
    type V = PartView;

    open spec fn view(&self) -> PartView {
        match self {
            SearchSubstringPart::Initial(s) => PartView::Initial(s@),
            SearchSubstringPart::Any(s) => PartView::Any(s@),
            SearchSubstringPart::Final(s) => PartView::Final(s@),
        }
    }
}

impl View for SearchCandidateHint {
    type V = HintView;

    open spec fn view(&self) -> HintView {
        match self {
            SearchCandidateHint::Equality { attribute, value } => HintView::Equality {
                attribute: attribute@,
                value: value@,
            },
            SearchCandidateHint::Present { attribute } => HintView::Present {
                attribute: attribute@,
            },
            SearchCandidateHint::Substring { attribute, parts } => HintView::Substring {
                attribute: attribute@,
                parts: parts@.map_values(|p: SearchSubstringPart| p@),
            },
            SearchCandidateHint::GreaterOrEqual { attribute, value } => HintView::GreaterOrEqual {
                attribute: attribute@,
                value: value@,
            },
            SearchCandidateHint::LessOrEqual { attribute, value } => HintView::LessOrEqual {
                attribute: attribute@,
                value: value@,
            },
        }
    }
}

/// What an optional hint says.
pub open spec fn hint_view(h: Option<SearchCandidateHint>) -> Option<HintView> {
    match h {
        Some(h) => Some(h@),
        None => None,
    }
}

impl SearchSubstringPart {
    fn same_as(&self, other: &Self) -> (r: bool)
        ensures
            r == (self@ == other@),
    {
        match (self, other) {
            (SearchSubstringPart::Initial(a), SearchSubstringPart::Initial(b)) => *a == *b,
            (SearchSubstringPart::Any(a), SearchSubstringPart::Any(b)) => *a == *b,
            (SearchSubstringPart::Final(a), SearchSubstringPart::Final(b)) => *a == *b,
            _ => false,
        }
    }
}

fn same_parts(a: &Vec<SearchSubstringPart>, b: &Vec<SearchSubstringPart>) -> (r: bool)
    ensures
        r == (a@.map_values(|p: SearchSubstringPart| p@) == b@.map_values(
            |p: SearchSubstringPart| p@,
        )),
{
    let ghost av = a@.map_values(|p: SearchSubstringPart| p@);
    let ghost bv = b@.map_values(|p: SearchSubstringPart| p@);
    if a.len() != b.len() {
        proof {
            assert(av.len() != bv.len());
        }
        return false;
    }
    let mut i: usize = 0;
    while i < a.len()
        invariant
            a@.len() == b@.len(),
            i <= a@.len(),
            av == a@.map_values(|p: SearchSubstringPart| p@),
            bv == b@.map_values(|p: SearchSubstringPart| p@),
            forall|j: int| 0 <= j < i ==> av[j] == bv[j],
        decreases a@.len() - i,
    {
        if !a[i].same_as(&b[i]) {
            proof {
                assert(av[i as int] != bv[i as int]);
            }
            return false;
        }
        i = i + 1;
    }
    proof {
        assert(av =~= bv);
    }
    true
}

impl SearchCandidateHint {
    /// The two hints say the same.
    pub fn same_as(&self, other: &Self) -> (r: bool)
        ensures
            r == (self@ == other@),
    {
        match (self, other) {
            (
                SearchCandidateHint::Equality { attribute: a, value: v },
                SearchCandidateHint::Equality { attribute: b, value: w },
            ) => *a == *b && *v == *w,
            (
                SearchCandidateHint::Present { attribute: a },
                SearchCandidateHint::Present { attribute: b },
            ) => *a == *b,
            (
                SearchCandidateHint::Substring { attribute: a, parts: p },
                SearchCandidateHint::Substring { attribute: b, parts: q },
            ) => *a == *b && same_parts(p, q),
            (
                SearchCandidateHint::GreaterOrEqual { attribute: a, value: v },
                SearchCandidateHint::GreaterOrEqual { attribute: b, value: w },
            ) => *a == *b && *v == *w,
            (
                SearchCandidateHint::LessOrEqual { attribute: a, value: v },
                SearchCandidateHint::LessOrEqual { attribute: b, value: w },
            ) => *a == *b && *v == *w,
            _ => false,
        }
    }
}

/// The two optional hints say the same.
pub fn same_hints(a: &Option<SearchCandidateHint>, b: &Option<SearchCandidateHint>) -> (r: bool)
    ensures
        r == (hint_view(*a) == hint_view(*b)),
{
    match (a, b) {
        (Some(x), Some(y)) => x.same_as(y),
        (None, None) => true,
        _ => false,
    }
}

} // verus!
