//! Maps from names to values that remember the order in which the names came.

use vstd::prelude::*;

use crate::text;

verus! {

/// The value under a name, if the name is there.
pub open spec fn lookup<V>(s: Seq<(Seq<char>, V)>, k: Seq<char>) -> Option<V>
    decreases s.len(),
{
    if s.len() == 0 {
        None
    } else if s[0].0 == k {
        Some(s[0].1)
    } else {
        lookup(s.drop_first(), k)
    }
}

/// The entries with the value under a name set: in its place where the name
/// is there, at the end where it is new.
pub open spec fn put<V>(s: Seq<(Seq<char>, V)>, k: Seq<char>, v: V) -> Seq<(Seq<char>, V)>
    decreases s.len(),
{
    if s.len() == 0 {
        seq![(k, v)]
    } else if s[0].0 == k {
        seq![(k, v)] + s.drop_first()
    } else {
        seq![s[0]] + put(s.drop_first(), k, v)
    }
}

/// The entries without those under a name.
pub open spec fn without<V>(s: Seq<(Seq<char>, V)>, k: Seq<char>) -> Seq<(Seq<char>, V)>
    decreases s.len(),
{
    if s.len() == 0 {
        s
    } else if s[0].0 == k {
        without(s.drop_first(), k)
    } else {
        seq![s[0]] + without(s.drop_first(), k)
    }
}

pub open spec fn distinct_keys<V>(s: Seq<(Seq<char>, V)>) -> bool {
    forall|i: int, j: int| 0 <= i < j < s.len() ==> (#[trigger] s[i]).0 != (#[trigger] s[j]).0
}

/// A name has a value exactly when an entry stands under it.
pub proof fn lookup_present<V>(s: Seq<(Seq<char>, V)>, k: Seq<char>)
    ensures
        lookup(s, k) is Some <==> exists|i: int| 0 <= i < s.len() && (#[trigger] s[i]).0 == k,
        lookup(s, k) matches Some(v) ==> exists|i: int|
            0 <= i < s.len() && #[trigger] s[i] == (k, v),
    decreases s.len(),
{
    if s.len() == 0 {
    } else if s[0].0 == k {
        assert(s[0] == (k, s[0].1));
    } else {
        let t = s.drop_first();
        lookup_present(t, k);
        if lookup(s, k) is Some {
            let v = lookup(s, k)->0;
            let i = choose|i: int| 0 <= i < t.len() && #[trigger] t[i] == (k, v);
            assert(s[i + 1] == (k, v));
        }
        if exists|i: int| 0 <= i < s.len() && (#[trigger] s[i]).0 == k {
            let i = choose|i: int| 0 <= i < s.len() && (#[trigger] s[i]).0 == k;
            assert(t[i - 1].0 == k);
        }
    }
}

/// With distinct names, every entry is the value under its name.
pub proof fn lookup_entry<V>(s: Seq<(Seq<char>, V)>, i: int)
    requires
        distinct_keys(s),
        0 <= i < s.len(),
    ensures
        lookup(s, s[i].0) == Some(s[i].1),
    decreases s.len(),
{
    if i > 0 {
        let t = s.drop_first();
        assert forall|a: int, b: int| 0 <= a < b < t.len() implies (#[trigger] t[a]).0 != (
        #[trigger] t[b]).0 by {
            assert(s[a + 1].0 != s[b + 1].0);
        }
        assert(s[0].0 != s[i].0);
        assert(t[i - 1] == s[i]);
        lookup_entry(t, i - 1);
    }
}

/// Setting a name changes the value under that name and under no other.
pub proof fn lookup_put<V>(s: Seq<(Seq<char>, V)>, k: Seq<char>, v: V, q: Seq<char>)
    ensures
        lookup(put(s, k, v), q) == (if q == k {
            Some(v)
        } else {
            lookup(s, q)
        }),
    decreases s.len(),
{
    reveal_with_fuel(lookup, 2);
    if s.len() == 0 {
        assert(put(s, k, v).drop_first() =~= s);
    } else if s[0].0 == k {
        assert(put(s, k, v).drop_first() =~= s.drop_first());
    } else {
        lookup_put(s.drop_first(), k, v, q);
        assert(put(s, k, v).drop_first() =~= put(s.drop_first(), k, v));
    }
}

/// Removing a name takes away the value under that name and under no other.
pub proof fn lookup_without<V>(s: Seq<(Seq<char>, V)>, k: Seq<char>, q: Seq<char>)
    ensures
        lookup(without(s, k), q) == (if q == k {
            None
        } else {
            lookup(s, q)
        }),
    decreases s.len(),
{
    if s.len() > 0 {
        lookup_without(s.drop_first(), k, q);
        if s[0].0 != k {
            assert(without(s, k).drop_first() =~= without(s.drop_first(), k));
        }
    }
}

/// What `put` does, by places.
pub proof fn put_at<V>(s: Seq<(Seq<char>, V)>, k: Seq<char>, v: V, i: int)
    requires
        0 <= i <= s.len(),
        forall|j: int| 0 <= j < i ==> (#[trigger] s[j]).0 != k,
        i < s.len() ==> s[i].0 == k,
    ensures
        put(s, k, v) == (if i < s.len() {
            s.update(i, (k, v))
        } else {
            s.push((k, v))
        }),
        lookup(s, k) == (if i < s.len() {
            Some(s[i].1)
        } else {
            None
        }),
    decreases s.len(),
{
    if s.len() == 0 {
        assert(put(s, k, v) =~= s.push((k, v)));
    } else if i == 0 {
        assert(put(s, k, v) =~= s.update(0, (k, v)));
    } else {
        let t = s.drop_first();
        assert forall|j: int| 0 <= j < i - 1 implies (#[trigger] t[j]).0 != k by {
            assert(s[j + 1].0 != k);
        }
        assert(s[0].0 != k);
        put_at(t, k, v, i - 1);
        if i < s.len() {
            assert(put(s, k, v) =~= s.update(i, (k, v)));
        } else {
            assert(put(s, k, v) =~= s.push((k, v)));
        }
    }
}

proof fn without_absent<V>(s: Seq<(Seq<char>, V)>, k: Seq<char>)
    requires
        forall|j: int| 0 <= j < s.len() ==> (#[trigger] s[j]).0 != k,
    ensures
        without(s, k) == s,
    decreases s.len(),
{
    if s.len() > 0 {
        let t = s.drop_first();
        assert forall|j: int| 0 <= j < t.len() implies (#[trigger] t[j]).0 != k by {
            assert(s[j + 1].0 != k);
        }
        without_absent(t, k);
        assert(s[0].0 != k);
        assert(seq![s[0]] + t =~= s);
    }
}

proof fn without_at<V>(s: Seq<(Seq<char>, V)>, k: Seq<char>, i: int)
    requires
        distinct_keys(s),
        0 <= i < s.len(),
        s[i].0 == k,
    ensures
        without(s, k) == s.remove(i),
    decreases s.len(),
{
    let t = s.drop_first();
    assert forall|a: int, b: int| 0 <= a < b < t.len() implies (#[trigger] t[a]).0 != (
    #[trigger] t[b]).0 by {
        assert(s[a + 1].0 != s[b + 1].0);
    }
    if i == 0 {
        assert forall|j: int| 0 <= j < t.len() implies (#[trigger] t[j]).0 != k by {
            assert(s[0].0 != s[j + 1].0);
        }
        without_absent(t, k);
        assert(t =~= s.remove(0));
    } else {
        assert(s[0].0 != s[i].0);
        assert(t[i - 1] == s[i]);
        without_at(t, k, i - 1);
        assert(seq![s[0]] + t.remove(i - 1) =~= s.remove(i));
    }
}

/// A map from names to values.
#[derive(Debug, PartialEq, Eq)]
pub struct StringMap<V> {
    entries: Vec<(String, V)>,
}

impl<V> View for StringMap<V> {
    type V = Seq<(Seq<char>, V)>;

    closed spec fn view(&self) -> Seq<(Seq<char>, V)> {
        self.entries@.map_values(|e: (String, V)| (e.0@, e.1))
    }
}

impl<V> StringMap<V> {
    /// No name occurs twice.
    #[verifier::type_invariant]
    spec fn wf(self) -> bool {
        distinct_keys(self@)
    }

    pub fn new() -> (r: Self)
        ensures
            r@ == Seq::<(Seq<char>, V)>::empty(),
    {
        let r = StringMap { entries: Vec::new() };
        proof {
            assert(r@ =~= Seq::<(Seq<char>, V)>::empty());
        }
        r
    }

    pub fn len(&self) -> (r: usize)
        ensures
            r == self@.len(),
            distinct_keys(self@),
    {
        proof {
            use_type_invariant(self);
        }
        self.entries.len()
    }

    pub fn is_empty(&self) -> (r: bool)
        ensures
            r == (self@.len() == 0),
    {
        self.entries.len() == 0
    }

    /// The place of a name among the entries, or their number.
    fn place(&self, k: &str) -> (i: usize)
        ensures
            i <= self@.len(),
            forall|j: int| 0 <= j < i ==> (#[trigger] self@[j]).0 != k@,
            i < self@.len() ==> self@[i as int].0 == k@,
            lookup(self@, k@) == (if i < self@.len() {
                Some(self@[i as int].1)
            } else {
                None
            }),
    {
        let mut i: usize = 0;
        while i < self.entries.len() && !text::same(self.entries[i].0.as_str(), k)
            invariant
                i <= self.entries@.len(),
                forall|j: int| 0 <= j < i ==> (#[trigger] self@[j]).0 != k@,
            decreases self.entries@.len() - i,
        {
            i = i + 1;
        }
        proof {
            if i < self.entries@.len() {
                put_at(self@, k@, self@[i as int].1, i as int);
            } else if self@.len() > 0 {
                put_at(self@, k@, self@[0].1, i as int);
            }
        }
        i
    }

    /// The value under a name.
    pub fn get(&self, k: &str) -> (r: Option<&V>)
        ensures
            match r {
                Some(v) => lookup(self@, k@) == Some(*v),
                None => lookup(self@, k@) is None,
            },
    {
        let i = self.place(k);
        if i < self.entries.len() {
            Some(&self.entries[i].1)
        } else {
            None
        }
    }

    pub fn contains_key(&self, k: &str) -> (r: bool)
        ensures
            r == (lookup(self@, k@) is Some),
    {
        self.place(k) < self.entries.len()
    }

    /// The name and the value of the entry at a place.
    pub fn entry(&self, i: usize) -> (r: (&String, &V))
        requires
            i < self@.len(),
        ensures
            (r.0@, *r.1) == self@[i as int],
    {
        (&self.entries[i].0, &self.entries[i].1)
    }

    /// Sets the value under a name and returns the one that was there.
    pub fn insert(&mut self, k: String, v: V) -> (r: Option<V>)
        ensures
            final(self)@ == put(old(self)@, k@, v),
            r == lookup(old(self)@, k@),
    {
        proof {
            use_type_invariant(&*self);
        }
        let i = self.place(k.as_str());
        let ghost before = self@;
        let mut entries: Vec<(String, V)> = Vec::new();
        std::mem::swap(&mut entries, &mut self.entries);
        let ghost plain = entries@;
        proof {
            put_at(before, k@, v, i as int);
        }
        if i < entries.len() {
            let previous = entries.remove(i);
            entries.insert(i, (k, v));
            proof {
                let now = entries@.map_values(|e: (String, V)| (e.0@, e.1));
                assert(now =~= put(before, k@, v));
                assert forall|a: int, b: int| 0 <= a < b < now.len() implies (#[trigger] now[a]).0
                    != (#[trigger] now[b]).0 by {
                    assert(before[a].0 != before[b].0);
                }
            }
            self.entries = entries;
            Some(previous.1)
        } else {
            entries.push((k, v));
            proof {
                let now = entries@.map_values(|e: (String, V)| (e.0@, e.1));
                assert(now =~= put(before, k@, v));
            }
            self.entries = entries;
            None
        }
    }

    /// Takes a name away and returns the value that was under it.
    pub fn remove(&mut self, k: &str) -> (r: Option<V>)
        ensures
            final(self)@ == without(old(self)@, k@),
            r == lookup(old(self)@, k@),
    {
        proof {
            use_type_invariant(&*self);
        }
        let i = self.place(k);
        let ghost before = self@;
        let mut entries: Vec<(String, V)> = Vec::new();
        std::mem::swap(&mut entries, &mut self.entries);
        if i < entries.len() {
            let previous = entries.remove(i);
            proof {
                without_at(before, k@, i as int);
                let now = entries@.map_values(|e: (String, V)| (e.0@, e.1));
                assert(now =~= before.remove(i as int));
            }
            self.entries = entries;
            Some(previous.1)
        } else {
            proof {
                without_absent(before, k@);
            }
            self.entries = entries;
            None
        }
    }
}

} // verus!
