//! Maps and sets keyed by text, walked in ascending order of their keys.

use vstd::prelude::*;

use crate::text;
use crate::text::{same_text, text_before};

verus! {

broadcast use vstd::string::group_string_axioms;

/// The keys of a sequence of entries are strictly ascending.
pub open spec fn ascending<T>(s: Seq<(Seq<char>, T)>) -> bool {
    forall|i: int, j: int| 0 <= i < j < s.len() ==> text::text_lt(#[trigger] s[i].0, #[trigger] s[j].0)
}

/// `s` has an entry under `k`.
pub open spec fn has_key<T>(s: Seq<(Seq<char>, T)>, k: Seq<char>) -> bool {
    exists|i: int| 0 <= i < s.len() && (#[trigger] s[i]).0 == k
}

/// The map that a sequence of entries stands for.
pub open spec fn keyed<T>(s: Seq<(Seq<char>, T)>) -> Map<Seq<char>, T> {
    Map::new(
        |k: Seq<char>| has_key(s, k),
        |k: Seq<char>| s[choose|i: int| 0 <= i < s.len() && (#[trigger] s[i]).0 == k].1,
    )
}

/// Each entry of an ascending sequence is what the map holds under its key.
pub proof fn lemma_keyed<T>(s: Seq<(Seq<char>, T)>)
    requires
        ascending(s),
    ensures
        forall|i: int|
            0 <= i < s.len() ==> keyed(s).contains_key((#[trigger] s[i]).0) && keyed(s)[s[i].0]
                == s[i].1,
{
    assert forall|i: int| 0 <= i < s.len() implies keyed(s).contains_key((#[trigger] s[i]).0)
        && keyed(s)[s[i].0] == s[i].1 by {
        let k = s[i].0;
        assert(has_key(s, k));
        let j = choose|j: int| 0 <= j < s.len() && (#[trigger] s[j]).0 == k;
        text::lemma_text_lt_irreflexive(k);
        assert(i == j);
    }
}

/// Appending an entry under a new key inserts it into the map.
pub proof fn lemma_keyed_push<T>(s: Seq<(Seq<char>, T)>, k: Seq<char>, v: T)
    requires
        ascending(s.push((k, v))),
    ensures
        keyed(s.push((k, v))) =~= keyed(s).insert(k, v),
        !has_key(s, k),
{
    let t = s.push((k, v));
    assert forall|i: int, j: int| 0 <= i < j < s.len() implies text::text_lt(
        #[trigger] s[i].0,
        #[trigger] s[j].0,
    ) by {
        assert(t[i] == s[i] && t[j] == s[j]);
    }
    lemma_keyed(s);
    lemma_keyed(t);
    if has_key(s, k) {
        let i = choose|i: int| 0 <= i < s.len() && (#[trigger] s[i]).0 == k;
        assert(t[i].0 == k && t[s.len() as int].0 == k);
        text::lemma_text_lt_irreflexive(k);
    }
    assert forall|x: Seq<char>| has_key(t, x) == (x == k || has_key(s, x)) by {
        if has_key(t, x) {
            let i = choose|i: int| 0 <= i < t.len() && (#[trigger] t[i]).0 == x;
            if i < s.len() {
                assert(s[i].0 == x);
            }
        }
        if has_key(s, x) {
            let i = choose|i: int| 0 <= i < s.len() && (#[trigger] s[i]).0 == x;
            assert(t[i].0 == x);
        }
        if x == k {
            assert(t[s.len() as int].0 == x);
        }
    }
    assert forall|x: Seq<char>| has_key(t, x) implies keyed(t)[x] == keyed(s).insert(k, v)[x] by {
        let i = choose|i: int| 0 <= i < t.len() && (#[trigger] t[i]).0 == x;
        if i < s.len() {
            assert(s[i].0 == x);
        }
    }
}

/// Two ascending sequences that stand for the same map are the same.
pub proof fn lemma_keyed_determines<T>(a: Seq<(Seq<char>, T)>, b: Seq<(Seq<char>, T)>)
    requires
        ascending(a),
        ascending(b),
        keyed(a) == keyed(b),
    ensures
        a == b,
    decreases a.len() + b.len(),
{
    lemma_keyed(a);
    lemma_keyed(b);
    if a.len() == 0 {
        if b.len() > 0 {
            assert(keyed(b).contains_key(b[0].0));
            assert(has_key(a, b[0].0));
        }
        assert(a =~= b);
    } else if b.len() == 0 {
        assert(keyed(a).contains_key(a[0].0));
        assert(has_key(b, a[0].0));
    } else {
        let m = a.len() - 1;
        let n = b.len() - 1;
        let x = a[m].0;
        let y = b[n].0;
        assert(has_key(b, x) && has_key(a, y));
        let i = choose|i: int| 0 <= i < b.len() && (#[trigger] b[i]).0 == x;
        let j = choose|j: int| 0 <= j < a.len() && (#[trigger] a[j]).0 == y;
        if x != y {
            assert(i < n && j < m);
            assert(text::text_lt(x, y) && text::text_lt(y, x));
            text::lemma_text_lt_trans(x, y, x);
            text::lemma_text_lt_irreflexive(x);
        }
        let a0 = a.drop_last();
        let b0 = b.drop_last();
        assert(a =~= a0.push((x, a[m].1)));
        assert(b =~= b0.push((y, b[n].1)));
        lemma_keyed_push(a0, x, a[m].1);
        lemma_keyed_push(b0, y, b[n].1);
        assert(ascending(a0));
        assert(ascending(b0));
        assert(keyed(a0) =~= keyed(a).remove(x));
        assert(keyed(b0) =~= keyed(b).remove(y));
        lemma_keyed_determines(a0, b0);
        assert(keyed(a)[x] == a[m].1 && keyed(b)[y] == b[n].1);
    }
}

/// A value of which a copy can be made.
pub trait Duplicate: View + Sized {
    fn duplicate(&self) -> (r: Self)
        ensures
            r@ == self@,
    ;
}

impl Duplicate for String {
    fn duplicate(&self) -> (r: Self) {
        self.clone()
    }
}

/// A map from text to `V`, walked in ascending order of its keys.
#[derive(Debug, PartialEq)]
pub struct StrMap<V> {
    entries: Vec<(String, V)>,
}

/// The views of a list of entries.
pub open spec fn pairs<V: View>(entries: Seq<(String, V)>) -> Seq<(Seq<char>, V::V)> {
    entries.map_values(|e: (String, V)| (e.0@, e.1@))
}

/// The keys of a list of entries are strictly ascending.
spec fn keys_ascend<V>(entries: Seq<(String, V)>) -> bool {
    forall|i: int, j: int|
        0 <= i < j < entries.len() ==> text::text_lt(
            #[trigger] entries[i].0@,
            #[trigger] entries[j].0@,
        )
}

impl<V> StrMap<V> {
    #[verifier::type_invariant]
    spec fn inv(self) -> bool {
        keys_ascend(self.entries@)
    }
}

impl<V: View> StrMap<V> {
    /// The entries in the order in which they are walked.
    pub closed spec fn items(self) -> Seq<(Seq<char>, V::V)> {
        pairs(self.entries@)
    }
}

impl<V: View> View for StrMap<V> {
    type V = Map<Seq<char>, V::V>;

    open spec fn view(&self) -> Map<Seq<char>, V::V> {
        keyed(self.items())
    }
}

impl<V: View> StrMap<V> {
    /// The empty map.
    pub fn new() -> (r: Self)
        ensures
            r.items() == Seq::<(Seq<char>, V::V)>::empty(),
            r@ == Map::<Seq<char>, V::V>::empty(),
    {
        let r = StrMap { entries: Vec::new() };
        assert(r.items() =~= Seq::<(Seq<char>, V::V)>::empty());
        assert(r@ =~= Map::<Seq<char>, V::V>::empty());
        r
    }

    /// How many entries there are.
    pub fn len(&self) -> (r: usize)
        ensures
            r == self.items().len(),
            ascending(self.items()),
    {
        proof {
            use_type_invariant(self);
            self.lemma_ascending();
        }
        self.entries.len()
    }

    proof fn lemma_ascending(self)
        requires
            self.inv(),
        ensures
            ascending(self.items()),
    {
        let s = self.items();
        assert forall|i: int, j: int| 0 <= i < j < s.len() implies text::text_lt(
            #[trigger] s[i].0,
            #[trigger] s[j].0,
        ) by {
            assert(self.entries@[i].0@ == s[i].0);
            assert(self.entries@[j].0@ == s[j].0);
        }
    }

    /// The key at position `i`.
    pub fn key_at(&self, i: usize) -> (r: &str)
        requires
            i < self.items().len(),
        ensures
            r@ == self.items()[i as int].0,
    {
        self.entries[i].0.as_str()
    }

    /// The value at position `i`.
    pub fn value_at(&self, i: usize) -> (r: &V)
        requires
            i < self.items().len(),
        ensures
            r@ == self.items()[i as int].1,
    {
        &self.entries[i].1
    }

    /// The first position whose key is not before `key`, and whether its key
    /// is `key`.
    fn locate(&self, key: &str) -> (r: (usize, bool))
        ensures
            r.0 <= self.items().len(),
            forall|i: int| 0 <= i < r.0 ==> text::text_lt((#[trigger] self.items()[i]).0, key@),
            forall|i: int|
                r.0 <= i < self.items().len() && !(r.1 && i == r.0) ==> text::text_lt(
                    key@,
                    (#[trigger] self.items()[i]).0,
                ),
            r.1 ==> r.0 < self.items().len() && self.items()[r.0 as int].0 == key@,
            r.1 == has_key(self.items(), key@),
    {
        proof {
            use_type_invariant(self);
            self.lemma_ascending();
        }
        let ghost s = self.items();
        let mut at: usize = 0;
        while at < self.entries.len() && text_before(self.entries[at].0.as_str(), key)
            invariant
                at <= self.entries.len(),
                s == self.items(),
                s == pairs(self.entries@),
                forall|i: int| 0 <= i < at ==> text::text_lt((#[trigger] s[i]).0, key@),
            decreases self.entries.len() - at,
        {
            assert(s[at as int].0 == self.entries@[at as int].0@);
            at = at + 1;
        }
        let found = at < self.entries.len() && same_text(self.entries[at].0.as_str(), key);
        proof {
            if at < s.len() {
                assert(s[at as int].0 == self.entries@[at as int].0@);
                text::lemma_text_lt_total(s[at as int].0, key@);
            }
            assert forall|i: int| at <= i < s.len() && !(found && i == at) implies text::text_lt(
                key@,
                (#[trigger] s[i]).0,
            ) by {
                if i > at && !found {
                    text::lemma_text_lt_trans(key@, s[at as int].0, s[i].0);
                }
            }
            if has_key(s, key@) {
                let i = choose|i: int| 0 <= i < s.len() && (#[trigger] s[i]).0 == key@;
                text::lemma_text_lt_irreflexive(key@);
                assert(found);
            }
        }
        (at, found)
    }

    /// The value under `key`.
    pub fn get(&self, key: &str) -> (r: Option<&V>)
        ensures
            match r {
                Some(v) => self@.contains_key(key@) && self@[key@] == v@,
                None => !self@.contains_key(key@),
            },
    {
        proof {
            use_type_invariant(self);
            self.lemma_ascending();
            lemma_keyed(self.items());
        }
        let (at, found) = self.locate(key);
        if found {
            Some(&self.entries[at].1)
        } else {
            None
        }
    }

    /// Whether there is a value under `key`.
    pub fn contains(&self, key: &str) -> (r: bool)
        ensures
            r == self@.contains_key(key@),
    {
        self.get(key).is_some()
    }

    /// Put `value` under `key`, in the place of what was there.
    pub fn insert(&mut self, key: String, value: V)
        ensures
            final(self)@ == old(self)@.insert(key@, value@),
            (forall|i: int|
                0 <= i < old(self).items().len() ==> text::text_lt(
                    (#[trigger] old(self).items()[i]).0,
                    key@,
                )) ==> final(self).items() == old(self).items().push((key@, value@)),
    {
        proof {
            use_type_invariant(&*self);
            self.lemma_ascending();
        }
        let (at, found) = self.locate(key.as_str());
        let ghost before = self.items();
        let ghost was = self.entries@;
        let mut entries: Vec<(String, V)> = Vec::new();
        std::mem::swap(&mut entries, &mut self.entries);
        if found {
            entries.set(at, (key, value));
            proof {
                assert(pairs(entries@) =~= before.update(at as int, (key@, value@)));
                lemma_ascend_from_pairs(entries@);
                lemma_update(before, at as int, key@, value@);
            }
        } else {
            entries.insert(at, (key, value));
            proof {
                assert(pairs(entries@) =~= before.insert(at as int, (key@, value@)));
                lemma_insert(before, at as int, key@, value@);
                lemma_ascend_from_pairs(entries@);
            }
        }
        self.entries = entries;
        proof {
            if forall|i: int|
                0 <= i < before.len() ==> text::text_lt((#[trigger] before[i]).0, key@) {
                if at < before.len() {
                    text::lemma_text_lt_irreflexive(key@);
                    if !found {
                        text::lemma_text_lt_trans(key@, before[at as int].0, key@);
                    }
                }
                assert(before.insert(at as int, (key@, value@)) =~= before.push((key@, value@)));
            }
        }
    }

    /// Take away what is under `key`; says whether there was anything.
    pub fn remove(&mut self, key: &str) -> (r: bool)
        ensures
            final(self)@ == old(self)@.remove(key@),
            r == old(self)@.contains_key(key@),
    {
        proof {
            use_type_invariant(&*self);
            self.lemma_ascending();
        }
        let (at, found) = self.locate(key);
        if found {
            let ghost before = self.items();
            let mut entries: Vec<(String, V)> = Vec::new();
            std::mem::swap(&mut entries, &mut self.entries);
            entries.remove(at);
            proof {
                assert(pairs(entries@) =~= before.remove(at as int));
                lemma_remove(before, at as int);
                lemma_ascend_from_pairs(entries@);
            }
            self.entries = entries;
        }
        assert(self@ =~= old(self)@.remove(key@));
        found
    }
}

impl<V: Duplicate> StrMap<V> {
    /// A copy of the map.
    pub fn duplicate(&self) -> (r: Self)
        ensures
            r.items() == self.items(),
            r@ == self@,
    {
        proof {
            use_type_invariant(self);
        }
        let mut entries: Vec<(String, V)> = Vec::new();
        let mut i: usize = 0;
        while i < self.entries.len()
            invariant
                i <= self.entries.len(),
                pairs(entries@) =~= pairs(self.entries@).take(i as int),
            decreases self.entries.len() - i,
        {
            let ghost before = entries@;
            let key = self.entries[i].0.clone();
            let value = self.entries[i].1.duplicate();
            entries.push((key, value));
            assert(pairs(entries@) =~= pairs(before).push((key@, value@)));
            assert(pairs(self.entries@).take(i + 1) =~= pairs(self.entries@).take(i as int).push(
                (key@, value@),
            ));
            i = i + 1;
        }
        assert(pairs(entries@) =~= pairs(self.entries@));
        proof {
            lemma_ascend_from_pairs(entries@);
            lemma_ascend_from_pairs(self.entries@);
        }
        StrMap { entries }
    }
}

/// A set of names.
pub struct NameSet {
    names: Vec<String>,
}

impl View for NameSet {
    type V = Set<Seq<char>>;

    closed spec fn view(&self) -> Set<Seq<char>> {
        self.list().to_set()
    }
}

impl NameSet {
    /// The names in the order in which they were put in.
    pub closed spec fn list(self) -> Seq<Seq<char>> {
        self.names@.map_values(|n: String| n@)
    }

    /// The empty set.
    pub fn new() -> (r: Self)
        ensures
            r@ == Set::<Seq<char>>::empty(),
    {
        let r = NameSet { names: Vec::new() };
        assert(r.list() =~= Seq::<Seq<char>>::empty());
        assert(r@ =~= Set::<Seq<char>>::empty());
        r
    }

    /// How many names were put in.
    pub fn count(&self) -> (r: usize)
        ensures
            r == self.list().len(),
            self@ == self.list().to_set(),
    {
        self.names.len()
    }

    /// Whether `name` is in the set.
    pub fn contains(&self, name: &str) -> (r: bool)
        ensures
            r == self@.contains(name@),
    {
        let mut i: usize = 0;
        while i < self.names.len()
            invariant
                i <= self.names.len(),
                forall|j: int| 0 <= j < i ==> #[trigger] self.list()[j] != name@,
            decreases self.names.len() - i,
        {
            assert(self.list()[i as int] == self.names@[i as int]@);
            if same_text(self.names[i].as_str(), name) {
                return true;
            }
            i = i + 1;
        }
        assert(!self.list().contains(name@));
        false
    }

    /// Put `name` into the set.
    pub fn insert(&mut self, name: String)
        ensures
            final(self)@ == old(self)@.insert(name@),
    {
        let ghost before = self.list();
        self.names.push(name);
        proof {
            assert(self.list() =~= before.push(name@));
            assert forall|x: Seq<char>| self.list().contains(x) == (x == name@ || before.contains(
                x,
            )) by {
                if before.contains(x) {
                    let i = choose|i: int| 0 <= i < before.len() && before[i] == x;
                    assert(self.list()[i] == x);
                }
                if x == name@ {
                    assert(self.list()[before.len() as int] == x);
                }
            }
            assert forall|x: Seq<char>| self@.contains(x) == old(self)@.insert(name@).contains(x) by {
                assert(self@.contains(x) == self.list().contains(x));
                assert(old(self)@.contains(x) == before.contains(x));
            }
            assert(self@ =~= old(self)@.insert(name@));
        }
    }
}

proof fn lemma_ascend_from_pairs<V: View>(entries: Seq<(String, V)>)
    ensures
        ascending(pairs(entries)) == keys_ascend(entries),
{
    let s = pairs(entries);
    if ascending(s) {
        assert forall|i: int, j: int| 0 <= i < j < entries.len() implies text::text_lt(
            #[trigger] entries[i].0@,
            #[trigger] entries[j].0@,
        ) by {
            assert(s[i].0 == entries[i].0@ && s[j].0 == entries[j].0@);
        }
    }
    if keys_ascend(entries) {
        assert forall|i: int, j: int| 0 <= i < j < s.len() implies text::text_lt(
            #[trigger] s[i].0,
            #[trigger] s[j].0,
        ) by {
            assert(s[i].0 == entries[i].0@ && s[j].0 == entries[j].0@);
        }
    }
}

proof fn lemma_update<T>(s: Seq<(Seq<char>, T)>, at: int, k: Seq<char>, v: T)
    requires
        ascending(s),
        0 <= at < s.len(),
        s[at].0 == k,
    ensures
        ascending(s.update(at, (k, v))),
        keyed(s.update(at, (k, v))) =~= keyed(s).insert(k, v),
{
    let t = s.update(at, (k, v));
    assert forall|i: int| 0 <= i < s.len() implies t[i].0 == #[trigger] s[i].0 by {}
    assert(ascending(t)) by {
        assert forall|i: int, j: int| 0 <= i < j < t.len() implies text::text_lt(
            #[trigger] t[i].0,
            #[trigger] t[j].0,
        ) by {
            assert(t[i].0 == s[i].0 && t[j].0 == s[j].0);
        }
    }
    lemma_keyed(s);
    lemma_keyed(t);
    assert forall|x: Seq<char>| has_key(t, x) == has_key(s, x) by {
        if has_key(t, x) {
            let i = choose|i: int| 0 <= i < t.len() && (#[trigger] t[i]).0 == x;
            assert(s[i].0 == x);
        }
        if has_key(s, x) {
            let i = choose|i: int| 0 <= i < s.len() && (#[trigger] s[i]).0 == x;
            assert(t[i].0 == x);
        }
    }
    assert(has_key(s, k));
    assert forall|x: Seq<char>| has_key(t, x) implies keyed(t)[x] == keyed(s).insert(k, v)[x] by {
        let i = choose|i: int| 0 <= i < t.len() && (#[trigger] t[i]).0 == x;
        assert(s[i].0 == x);
        if i == at {
            assert(t[at] == (k, v));
        } else {
            if x == k {
                assert(s[at].0 == x);
                text::lemma_text_lt_irreflexive(x);
            }
        }
    }
}

proof fn lemma_insert<T>(s: Seq<(Seq<char>, T)>, at: int, k: Seq<char>, v: T)
    requires
        ascending(s),
        0 <= at <= s.len(),
        forall|i: int| 0 <= i < at ==> text::text_lt((#[trigger] s[i]).0, k),
        forall|i: int| at <= i < s.len() ==> text::text_lt(k, (#[trigger] s[i]).0),
    ensures
        ascending(s.insert(at, (k, v))),
        keyed(s.insert(at, (k, v))) =~= keyed(s).insert(k, v),
{
    let t = s.insert(at, (k, v));
    assert forall|i: int, j: int| 0 <= i < j < t.len() implies text::text_lt(
        #[trigger] t[i].0,
        #[trigger] t[j].0,
    ) by {
        let a = if i < at { s[i].0 } else { if i == at { k } else { s[i - 1].0 } };
        let b = if j < at { s[j].0 } else { if j == at { k } else { s[j - 1].0 } };
        assert(t[i].0 == a && t[j].0 == b);
    }
    lemma_keyed(s);
    lemma_keyed(t);
    assert forall|x: Seq<char>| has_key(t, x) == (x == k || has_key(s, x)) by {
        if has_key(t, x) {
            let i = choose|i: int| 0 <= i < t.len() && (#[trigger] t[i]).0 == x;
            if i < at {
                assert(s[i].0 == x);
            } else if i > at {
                assert(s[i - 1].0 == x);
            }
        }
        if has_key(s, x) {
            let i = choose|i: int| 0 <= i < s.len() && (#[trigger] s[i]).0 == x;
            if i < at {
                assert(t[i].0 == x);
            } else {
                assert(t[i + 1].0 == x);
            }
        }
        if x == k {
            assert(t[at].0 == x);
        }
    }
    assert forall|x: Seq<char>| has_key(t, x) implies keyed(t)[x] == keyed(s).insert(k, v)[x] by {
        let i = choose|i: int| 0 <= i < t.len() && (#[trigger] t[i]).0 == x;
        text::lemma_text_lt_irreflexive(k);
        if i < at {
            assert(s[i].0 == x);
        } else if i > at {
            assert(s[i - 1].0 == x);
        } else {
            assert(t[at] == (k, v));
        }
    }
}

proof fn lemma_remove<T>(s: Seq<(Seq<char>, T)>, at: int)
    requires
        ascending(s),
        0 <= at < s.len(),
    ensures
        ascending(s.remove(at)),
        keyed(s.remove(at)) =~= keyed(s).remove(s[at].0),
{
    let t = s.remove(at);
    let k = s[at].0;
    assert forall|i: int, j: int| 0 <= i < j < t.len() implies text::text_lt(
        #[trigger] t[i].0,
        #[trigger] t[j].0,
    ) by {
        let a = if i < at { i } else { i + 1 };
        let b = if j < at { j } else { j + 1 };
        assert(t[i] == s[a] && t[j] == s[b]);
    }
    lemma_keyed(s);
    lemma_keyed(t);
    text::lemma_text_lt_irreflexive(k);
    assert forall|x: Seq<char>| has_key(t, x) == (x != k && has_key(s, x)) by {
        if has_key(t, x) {
            let i = choose|i: int| 0 <= i < t.len() && (#[trigger] t[i]).0 == x;
            let a = if i < at { i } else { i + 1 };
            assert(s[a].0 == x);
        }
        if x != k && has_key(s, x) {
            let i = choose|i: int| 0 <= i < s.len() && (#[trigger] s[i]).0 == x;
            if i < at {
                assert(t[i].0 == x);
            } else {
                assert(t[i - 1].0 == x);
            }
        }
    }
    assert forall|x: Seq<char>| has_key(t, x) implies keyed(t)[x] == keyed(s).remove(k)[x] by {
        let i = choose|i: int| 0 <= i < t.len() && (#[trigger] t[i]).0 == x;
        let a = if i < at { i } else { i + 1 };
        assert(s[a] == t[i]);
    }
}

/// A map is what its entries say: under each name that is listed, what is listed
/// with it, and nothing under any other name.
pub proof fn law_a_map_is_what_its_entries_say<T>(s: Seq<(Seq<char>, T)>, i: int, k: Seq<char>)
    requires
        ascending(s),
    ensures
        0 <= i < s.len() ==> keyed(s).contains_key(s[i].0) && keyed(s)[s[i].0] == s[i].1,
        keyed(s).contains_key(k) <==> exists|j: int| 0 <= j < s.len() && (#[trigger] s[j]).0 == k,
{
    lemma_keyed(s);
    if 0 <= i < s.len() {
        assert(keyed(s).contains_key(s[i].0));
    }
}

/// What is put under a name is what is found there, whatever the map held;
/// nothing else changes, and what is taken out is not found any more.
pub proof fn law_a_map_gives_back_what_was_put<V: View>(
    writing: &mut StrMap<V>,
    key: String,
    value: V,
    written: StrMap<V>,
    other: &str,
    found: Option<&V>,
    taking: &mut StrMap<V>,
    name: &str,
    had: bool,
)
    requires
        call_ensures(StrMap::<V>::insert, (writing, key, value), ()),
        written == *final(writing),
        call_ensures(StrMap::<V>::get, (&written, other), found),
        call_ensures(StrMap::<V>::remove, (taking, name), had),
    ensures
        other@ == key@ ==> (found matches Some(v) && v@ == value@),
        other@ != key@ ==> (found is Some <==> old(writing)@.contains_key(other@)),
        other@ != key@ ==> (found matches Some(v) ==> v@ == old(writing)@[other@]),
        had <==> old(taking)@.contains_key(name@),
        !final(taking)@.contains_key(name@),
        other@ != name@ ==> final(taking)@.contains_key(other@) == old(taking)@.contains_key(
            other@,
        ),
{
}

/// A name that is put in is in the set from then on, and no other with it.
pub proof fn law_a_set_holds_what_was_put(
    names: &mut NameSet,
    name: String,
    after: NameSet,
    other: &str,
    r: bool,
)
    requires
        call_ensures(NameSet::insert, (names, name), ()),
        after == *final(names),
        call_ensures(NameSet::contains, (&after, other), r),
    ensures
        r <==> other@ == name@ || old(names)@.contains(other@),
{
}

} // verus!
