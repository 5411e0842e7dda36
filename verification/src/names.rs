//! A map from names to values, walked in dictionary order of the names.

use vstd::prelude::*;

use crate::text;

verus! {

broadcast use vstd::string::group_string_axioms;

// ---------------------------------------------------------------------------
// The order of names
// ---------------------------------------------------------------------------

/// No text comes before itself.
pub proof fn lemma_lt_irreflexive(a: Seq<char>)
    ensures
        !text::text_lt(a, a),
    decreases a.len(),
{
    if a.len() > 0 {
        lemma_lt_irreflexive(a.skip(1));
    }
}

/// Dictionary order is transitive.
pub proof fn lemma_lt_transitive(a: Seq<char>, b: Seq<char>, c: Seq<char>)
    requires
        text::text_lt(a, b),
        text::text_lt(b, c),
    ensures
        text::text_lt(a, c),
    decreases a.len(),
{
    if a.len() > 0 && b.len() > 0 && c.len() > 0 && a[0] == b[0] && b[0] == c[0] {
        lemma_lt_transitive(a.skip(1), b.skip(1), c.skip(1));
    }
}

/// Of two different texts, one comes before the other.
pub proof fn lemma_lt_total(a: Seq<char>, b: Seq<char>)
    ensures
        text::text_lt(a, b) || text::text_lt(b, a) || a == b,
    decreases a.len(),
{
    if a.len() > 0 && b.len() > 0 && a[0] == b[0] {
        lemma_lt_total(a.skip(1), b.skip(1));
        if a.skip(1) == b.skip(1) {
            assert(a =~= b) by {
                assert forall|i: int| 0 <= i < a.len() implies a[i] == b[i] by {
                    if i > 0 {
                        assert(a.skip(1)[i - 1] == b.skip(1)[i - 1]);
                    }
                }
                assert(a.skip(1).len() == b.skip(1).len());
            }
        }
    } else if a.len() == 0 && b.len() == 0 {
        assert(a =~= b);
    }
}

/// Whether names stand in dictionary order, none twice.
pub open spec fn ascending(keys: Seq<Seq<char>>) -> bool {
    forall|i: int, j: int|
        0 <= i < j < keys.len() ==> text::text_lt(#[trigger] keys[i], #[trigger] keys[j])
}

// ---------------------------------------------------------------------------
// The map
// ---------------------------------------------------------------------------

/// A map from names to values.
#[derive(Debug)]
pub struct NameMap<V> {
    entries: Vec<(String, V)>,
}

/// The names of a list of entries.
pub open spec fn keys_of<V>(entries: Seq<(Seq<char>, V)>) -> Seq<Seq<char>> {
    entries.map_values(|e: (Seq<char>, V)| e.0)
}

/// The value of the first entry named `key`.
pub open spec fn value_of<V>(entries: Seq<(Seq<char>, V)>, key: Seq<char>) -> Option<V>
    decreases entries.len(),
{
    if entries.len() == 0 {
        None
    } else if entries[0].0 == key {
        Some(entries[0].1)
    } else {
        value_of(entries.skip(1), key)
    }
}

/// What entry `i` says of its name is what a lookup of that name gives.
pub proof fn lemma_value_at<V>(entries: Seq<(Seq<char>, V)>, i: int)
    requires
        0 <= i < entries.len(),
        ascending(keys_of(entries)),
    ensures
        value_of(entries, entries[i].0) == Some(entries[i].1),
    decreases entries.len(),
{
    if i > 0 {
        let k = keys_of(entries);
        assert(k[0] == entries[0].0 && k[i] == entries[i].0);
        lemma_lt_irreflexive(entries[i].0);
        let rest = entries.skip(1);
        lemma_ascending_skip(entries);
        lemma_value_at(rest, i - 1);
    }
}

/// The place of a name that a lookup finds.
pub proof fn lemma_place_of<V>(entries: Seq<(Seq<char>, V)>, key: Seq<char>) -> (i: int)
    requires
        value_of(entries, key) is Some,
    ensures
        0 <= i < entries.len(),
        entries[i].0 == key,
        keys_of(entries)[i] == key,
{
    lemma_value_absent(entries, key);
    choose|i: int| 0 <= i < entries.len() && (#[trigger] entries[i]).0 == key
}

/// A lookup that finds nothing means that no entry has the name.
pub proof fn lemma_value_absent<V>(entries: Seq<(Seq<char>, V)>, key: Seq<char>)
    ensures
        value_of(entries, key) is None <==> forall|i: int|
            0 <= i < entries.len() ==> (#[trigger] entries[i]).0 != key,
    decreases entries.len(),
{
    if entries.len() > 0 {
        let rest = entries.skip(1);
        lemma_value_absent(rest, key);
        if value_of(entries, key) is None {
            assert forall|i: int| 0 <= i < entries.len() implies (#[trigger] entries[i]).0
                != key by {
                if i > 0 {
                    assert(rest[i - 1] == entries[i]);
                }
            }
        } else {
            if entries[0].0 != key {
                let i = choose|i: int| 0 <= i < rest.len() && (#[trigger] rest[i]).0 == key;
                assert(entries[i + 1].0 == key);
            }
        }
    }
}

proof fn lemma_ascending_skip<V>(entries: Seq<(Seq<char>, V)>)
    requires
        entries.len() > 0,
        ascending(keys_of(entries)),
    ensures
        ascending(keys_of(entries.skip(1))),
{
    let k = keys_of(entries);
    let k1 = keys_of(entries.skip(1));
    assert forall|i: int, j: int| 0 <= i < j < k1.len() implies text::text_lt(
        #[trigger] k1[i],
        #[trigger] k1[j],
    ) by {
        assert(k1[i] == k[i + 1] && k1[j] == k[j + 1]);
    }
}

impl<V> NameMap<V> {
    /// The entries in order.
    pub closed spec fn seq(&self) -> Seq<(Seq<char>, V)> {
        self.entries@.map_values(|e: (String, V)| (e.0@, e.1))
    }

    /// The names in order.
    pub open spec fn keys(&self) -> Seq<Seq<char>> {
        keys_of(self.seq())
    }

    /// The value under `key`.
    pub open spec fn lookup(&self, key: Seq<char>) -> Option<V> {
        value_of(self.seq(), key)
    }

    #[verifier::type_invariant]
    spec fn inv(self) -> bool {
        ascending(keys_of(self.seq()))
    }

    /// An empty map.
    pub fn new() -> (r: Self)
        ensures
            r.seq() == Seq::<(Seq<char>, V)>::empty(),
    {
        let entries: Vec<(String, V)> = Vec::new();
        proof {
            assert(entries@.map_values(|e: (String, V)| (e.0@, e.1)) =~= Seq::<
                (Seq<char>, V),
            >::empty());
        }
        NameMap { entries }
    }

    /// How many names there are.
    pub fn len(&self) -> (n: usize)
        ensures
            n == self.seq().len(),
            ascending(self.keys()),
    {
        proof {
            use_type_invariant(self);
        }
        self.entries.len()
    }

    /// Whether there is no name.
    pub fn is_empty(&self) -> (r: bool)
        ensures
            r == (self.seq().len() == 0),
    {
        self.entries.len() == 0
    }

    /// The `i`-th name.
    pub fn key_at(&self, i: usize) -> (r: &String)
        requires
            i < self.seq().len(),
        ensures
            r@ == self.seq()[i as int].0,
            r@ == self.keys()[i as int],
    {
        &self.entries[i].0
    }

    /// The value under the `i`-th name.
    pub fn value_at(&self, i: usize) -> (r: &V)
        requires
            i < self.seq().len(),
        ensures
            *r == self.seq()[i as int].1,
            self.lookup(self.keys()[i as int]) == Some(*r),
    {
        proof {
            use_type_invariant(self);
            lemma_value_at(self.seq(), i as int);
        }
        &self.entries[i].1
    }

    /// The position of `key`, or where it would stand.
    fn position(&self, key: &str) -> (p: usize)
        ensures
            p <= self.seq().len(),
            forall|i: int| 0 <= i < p ==> text::text_lt(#[trigger] self.seq()[i].0, key@),
            forall|i: int|
                p <= i < self.seq().len() ==> !text::text_lt(#[trigger] self.seq()[i].0, key@),
    {
        proof {
            use_type_invariant(self);
        }
        let mut p: usize = 0;
        while p < self.entries.len() && text::before(&self.entries[p].0, key)
            invariant
                p <= self.entries@.len() == self.seq().len(),
                forall|i: int| 0 <= i < p ==> text::text_lt(#[trigger] self.seq()[i].0, key@),
            decreases self.entries@.len() - p,
        {
            p += 1;
        }
        proof {
            let s = self.seq();
            assert forall|i: int| p <= i < s.len() implies !text::text_lt(
                #[trigger] s[i].0,
                key@,
            ) by {
                if i > p {
                    let k = keys_of(s);
                    assert(k[p as int] == s[p as int].0 && k[i] == s[i].0);
                    if text::text_lt(s[i].0, key@) {
                        lemma_lt_transitive(s[p as int].0, s[i].0, key@);
                    }
                }
            }
        }
        p
    }

    /// The value under `key`.
    pub fn get(&self, key: &str) -> (r: Option<&V>)
        ensures
            match r {
                Some(v) => self.lookup(key@) == Some(*v),
                None => self.lookup(key@) is None,
            },
    {
        proof {
            use_type_invariant(self);
        }
        let p = self.position(key);
        if p < self.entries.len() && text::same(&self.entries[p].0, key) {
            proof {
                lemma_value_at(self.seq(), p as int);
            }
            Some(&self.entries[p].1)
        } else {
            proof {
                let s = self.seq();
                lemma_value_absent(s, key@);
                assert forall|i: int| 0 <= i < s.len() implies (#[trigger] s[i]).0 != key@ by {
                    lemma_lt_irreflexive(key@);
                    if i >= p && s[i].0 == key@ {
                        let k = keys_of(s);
                        assert(k[p as int] == s[p as int].0 && k[i] == s[i].0);
                        if i > p {
                            assert(text::text_lt(s[p as int].0, key@));
                        }
                    }
                }
            }
            None
        }
    }

    /// Whether `key` is a name of the map.
    pub fn contains_key(&self, key: &str) -> (r: bool)
        ensures
            r == self.lookup(key@) is Some,
    {
        match self.get(key) {
            Some(_) => true,
            None => false,
        }
    }

    /// Put `value` under `key`, in place of what stood there.
    pub fn insert(&mut self, key: String, value: V)
        ensures
            forall|q: Seq<char>| #[trigger]
                final(self).lookup(q) == if q == key@ {
                    Some(value)
                } else {
                    old(self).lookup(q)
                },
            final(self).seq().len() == old(self).seq().len() + if old(self).lookup(key@) is Some {
                0int
            } else {
                1int
            },
    {
        proof {
            use_type_invariant(&*self);
        }
        let ghost was = self.seq();
        let ghost k = key@;
        let p = self.position(&key);
        let present = p < self.entries.len() && text::same(&self.entries[p].0, &key);
        let mut entries: Vec<(String, V)> = Vec::new();
        std::mem::swap(&mut entries, &mut self.entries);
        let ghost raw = entries@;
        if present {
            entries.remove(p);
        }
        entries.insert(p, (key, value));
        let ghost now = entries@.map_values(|e: (String, V)| (e.0@, e.1));
        proof {
            let ghost d: int = if present { 1 } else { 0 };
            assert forall|i: int| 0 <= i < p implies now[i] == was[i] by {}
            assert(now[p as int] == (k, value));
            assert forall|i: int| p < i < now.len() implies now[i] == was[i - 1 + d] by {}
            if present {
                lemma_value_at(was, p as int);
            }
            lemma_insert(was, now, p as int, d, k, value);
        }
        self.entries = entries;
    }

    /// Take `key` out of the map.
    pub fn remove(&mut self, key: &str)
        ensures
            forall|q: Seq<char>| #[trigger]
                final(self).lookup(q) == if q == key@ {
                    None
                } else {
                    old(self).lookup(q)
                },
    {
        proof {
            use_type_invariant(&*self);
        }
        let ghost was = self.seq();
        let p = self.position(key);
        let present = p < self.entries.len() && text::same(&self.entries[p].0, key);
        if present {
            let mut entries: Vec<(String, V)> = Vec::new();
            std::mem::swap(&mut entries, &mut self.entries);
            entries.remove(p);
            let ghost now = entries@.map_values(|e: (String, V)| (e.0@, e.1));
            proof {
                assert(now =~= was.remove(p as int));
                lemma_removed(was, p as int);
            }
            self.entries = entries;
        } else {
            proof {
                assert forall|q: Seq<char>| #[trigger] self.lookup(q) == if q == key@ {
                    None
                } else {
                    old(self).lookup(q)
                } by {
                    lemma_not_there(was, p as int, key@);
                }
            }
        }
    }
}

/// A name that does not stand where it would have to stand is not there at all.
proof fn lemma_not_there<V>(s: Seq<(Seq<char>, V)>, p: int, key: Seq<char>)
    requires
        ascending(keys_of(s)),
        0 <= p <= s.len(),
        forall|i: int| 0 <= i < p ==> text::text_lt(#[trigger] s[i].0, key),
        forall|i: int| p <= i < s.len() ==> !text::text_lt(#[trigger] s[i].0, key),
        p < s.len() ==> s[p].0 != key,
    ensures
        value_of(s, key) is None,
{
    lemma_value_absent(s, key);
    assert forall|i: int| 0 <= i < s.len() implies (#[trigger] s[i]).0 != key by {
        lemma_lt_irreflexive(key);
        if i > p && s[i].0 == key {
            let k = keys_of(s);
            assert(k[p] == s[p].0 && k[i] == s[i].0);
            assert(text::text_lt(s[p].0, key));
        }
    }
}

/// Without one entry, only its name is gone.
proof fn lemma_removed<V>(s: Seq<(Seq<char>, V)>, p: int)
    requires
        ascending(keys_of(s)),
        0 <= p < s.len(),
    ensures
        ascending(keys_of(s.remove(p))),
        forall|q: Seq<char>| #[trigger]
            value_of(s.remove(p), q) == if q == s[p].0 {
                None
            } else {
                value_of(s, q)
            },
{
    let t = s.remove(p);
    let ks = keys_of(s);
    let kt = keys_of(t);
    assert forall|i: int, j: int| 0 <= i < j < kt.len() implies text::text_lt(
        #[trigger] kt[i],
        #[trigger] kt[j],
    ) by {
        let i2 = if i < p { i } else { i + 1 };
        let j2 = if j < p { j } else { j + 1 };
        assert(kt[i] == ks[i2] && kt[j] == ks[j2]);
    }
    assert forall|q: Seq<char>| #[trigger] value_of(t, q) == if q == s[p].0 {
        None
    } else {
        value_of(s, q)
    } by {
        lemma_value_absent(t, q);
        lemma_value_absent(s, q);
        if q == s[p].0 {
            assert forall|i: int| 0 <= i < t.len() implies (#[trigger] t[i]).0 != q by {
                lemma_lt_irreflexive(q);
                let i2 = if i < p { i } else { i + 1 };
                assert(t[i] == s[i2]);
                assert(ks[i2] == s[i2].0 && ks[p] == s[p].0);
            }
        } else if value_of(s, q) is Some {
            let i = choose|i: int| 0 <= i < s.len() && (#[trigger] s[i]).0 == q;
            let i2 = if i < p { i } else { i - 1 };
            assert(t[i2] == s[i]);
            lemma_value_at(s, i);
            lemma_value_at(t, i2);
        } else {
            assert forall|i: int| 0 <= i < t.len() implies (#[trigger] t[i]).0 != q by {
                let i2 = if i < p { i } else { i + 1 };
                assert(t[i] == s[i2]);
            }
        }
    }
}

/// With one entry put in its place, only its name has changed.
proof fn lemma_insert<V>(
    was: Seq<(Seq<char>, V)>,
    now: Seq<(Seq<char>, V)>,
    p: int,
    d: int,
    key: Seq<char>,
    value: V,
)
    requires
        ascending(keys_of(was)),
        0 <= p <= was.len(),
        forall|i: int| 0 <= i < p ==> text::text_lt(#[trigger] was[i].0, key),
        forall|i: int| p <= i < was.len() ==> !text::text_lt(#[trigger] was[i].0, key),
        d == 0 || d == 1,
        d == 1 <==> (p < was.len() && was[p].0 == key),
        now.len() == was.len() + 1 - d,
        forall|i: int| 0 <= i < p ==> #[trigger] now[i] == was[i],
        now[p] == (key, value),
        forall|i: int| p < i < now.len() ==> #[trigger] now[i] == was[i - 1 + d],
    ensures
        ascending(keys_of(now)),
        d == 1 <==> value_of(was, key) is Some,
        forall|q: Seq<char>| #[trigger]
            value_of(now, q) == if q == key {
                Some(value)
            } else {
                value_of(was, q)
            },
{
    let kw = keys_of(was);
    let kn = keys_of(now);
    if d == 1 {
        lemma_value_at(was, p);
    } else {
        lemma_not_there(was, p, key);
    }
    // What follows the new entry comes after it.
    assert forall|j: int| p + d <= j < was.len() implies text::text_lt(
        key,
        #[trigger] was[j].0,
    ) by {
        lemma_lt_total(key, was[j].0);
        if was[j].0 == key {
            assert(kw[p] == was[p].0 && kw[j] == was[j].0);
            lemma_lt_irreflexive(key);
        }
    }
    assert forall|i: int, j: int| 0 <= i < j < kn.len() implies text::text_lt(
        #[trigger] kn[i],
        #[trigger] kn[j],
    ) by {
        assert(kn[i] == now[i].0 && kn[j] == now[j].0);
        if j < p {
            assert(kw[i] == was[i].0 && kw[j] == was[j].0);
        } else if j == p {
        } else if i == p {
            assert(now[j] == was[j - 1 + d]);
        } else if i < p {
            assert(now[j] == was[j - 1 + d]);
            lemma_lt_transitive(was[i].0, key, was[j - 1 + d].0);
        } else {
            assert(now[i] == was[i - 1 + d] && now[j] == was[j - 1 + d]);
            assert(kw[i - 1 + d] == was[i - 1 + d].0 && kw[j - 1 + d] == was[j - 1 + d].0);
        }
    }
    assert forall|q: Seq<char>| #[trigger] value_of(now, q) == if q == key {
        Some(value)
    } else {
        value_of(was, q)
    } by {
        if q == key {
            lemma_value_at(now, p);
        } else {
            lemma_value_absent(now, q);
            lemma_value_absent(was, q);
            if value_of(was, q) is Some {
                let i = choose|i: int| 0 <= i < was.len() && (#[trigger] was[i]).0 == q;
                let i2 = if i < p { i } else { i + 1 - d };
                assert(now[i2] == was[i]);
                lemma_value_at(was, i);
                lemma_value_at(now, i2);
            } else {
                assert forall|i: int| 0 <= i < now.len() implies (#[trigger] now[i]).0 != q by {
                    if i < p {
                        assert(now[i] == was[i]);
                    } else if i > p {
                        assert(now[i] == was[i - 1 + d]);
                    }
                }
            }
        }
    }
}

/// A lookup gives the value of the first entry with the name.
pub proof fn lookups_find_the_first<V>(entries: Seq<(Seq<char>, V)>, key: Seq<char>, i: int)
    requires
        0 <= i < entries.len(),
        entries[i].0 == key,
        forall|j: int| 0 <= j < i ==> (#[trigger] entries[j]).0 != key,
    ensures
        value_of(entries, key) == Some(entries[i].1),
    decreases i,
{
    if i > 0 {
        let rest = entries.skip(1);
        assert(entries[0].0 != key);
        assert forall|j: int| 0 <= j < i - 1 implies (#[trigger] rest[j]).0 != key by {
            assert(rest[j] == entries[j + 1]);
        }
        lookups_find_the_first(rest, key, i - 1);
    }
}

} // verus!
