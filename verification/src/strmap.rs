//! Maps and sets keyed by text, which list their keys in the order of first insertion.

use vstd::prelude::*;
use vstd::std_specs::cmp::PartialEqSpec;

use crate::text;

verus! {

/// A map from text to `V`.
#[derive(Debug)]
pub struct StrMap<V> {
    entries: Vec<(String, V)>,
}

/// The keys of a list of entries, in its order.
spec fn keys_of<V>(entries: Seq<(String, V)>) -> Seq<Seq<char>> {
    entries.map_values(|e: (String, V)| e.0@)
}

/// The map that a list of entries amounts to.
spec fn map_of<V>(entries: Seq<(String, V)>) -> Map<Seq<char>, V> {
    let keys = keys_of(entries);
    Map::new(|k: Seq<char>| keys.contains(k), |k: Seq<char>| entries[keys.index_of(k)].1)
}

impl<V> View for StrMap<V> {
    type V = Map<Seq<char>, V>;

    closed spec fn view(&self) -> Map<Seq<char>, V> {
        map_of(self.entries@)
    }
}

/// In a list without duplicate keys, each entry's key maps to its value.
proof fn lemma_entry<V>(entries: Seq<(String, V)>, i: int)
    requires
        keys_of(entries).no_duplicates(),
        0 <= i < entries.len(),
    ensures
        map_of(entries).contains_key(entries[i].0@),
        map_of(entries)[entries[i].0@] == entries[i].1,
{
    let keys = keys_of(entries);
    assert(keys[i] == entries[i].0@);
    let j = keys.index_of(keys[i]);
    assert(keys[j] == keys[i]);
}

impl<V> StrMap<V> {
    /// No key occurs twice.
    #[verifier::type_invariant]
    spec fn distinct(self) -> bool {
        keys_of(self.entries@).no_duplicates()
    }

    /// The keys in the order of first insertion.
    pub closed spec fn order(&self) -> Seq<Seq<char>> {
        keys_of(self.entries@)
    }

    /// The empty map.
    pub fn new() -> (r: Self)
        ensures
            r@ == Map::<Seq<char>, V>::empty(),
            r.order() == Seq::<Seq<char>>::empty(),
    {
        let r = StrMap { entries: Vec::new() };
        assert(r@ =~= Map::<Seq<char>, V>::empty());
        r
    }

    /// Where `key` stands, or the number of entries.
    fn position(&self, key: &str) -> (r: usize)
        ensures
            r <= self.entries@.len(),
            r < self.entries@.len() ==> self.entries@[r as int].0@ == key@,
            r < self.entries@.len() <==> self@.contains_key(key@),
    {
        let ghost keys = keys_of(self.entries@);
        let mut i: usize = 0;
        while i < self.entries.len()
            invariant
                i <= self.entries@.len(),
                keys == keys_of(self.entries@),
                forall|j: int| 0 <= j < i ==> #[trigger] keys[j] != key@,
            decreases self.entries@.len() - i,
        {
            assert(keys[i as int] == self.entries@[i as int].0@);
            if text::same_text(self.entries[i].0.as_str(), key) {
                assert(keys.contains(key@));
                return i;
            }
            i += 1;
        }
        i
    }

    /// The value of `key`, if it has one.
    pub fn get(&self, key: &str) -> (r: Option<&V>)
        ensures
            match r {
                Some(v) => self@.contains_key(key@) && *v == self@[key@],
                None => !self@.contains_key(key@),
            },
    {
        proof {
            use_type_invariant(self);
        }
        let i = self.position(key);
        if i < self.entries.len() {
            proof {
                lemma_entry(self.entries@, i as int);
            }
            Some(&self.entries[i].1)
        } else {
            None
        }
    }

    /// Whether `key` has a value.
    pub fn contains_key(&self, key: &str) -> (r: bool)
        ensures
            r == self@.contains_key(key@),
    {
        self.position(key) < self.entries.len()
    }

    /// Gives `key` the value `v`, in place of one it may have had.
    pub fn insert(&mut self, key: &str, v: V)
        ensures
            final(self)@ == old(self)@.insert(key@, v),
            final(self).order() == if old(self)@.contains_key(key@) {
                old(self).order()
            } else {
                old(self).order().push(key@)
            },
    {
        proof {
            use_type_invariant(&*self);
        }
        let ghost before = self.entries@;
        let ghost had = self@.contains_key(key@);
        let i = self.position(key);
        let mut entries: Vec<(String, V)> = Vec::new();
        std::mem::swap(&mut entries, &mut self.entries);
        if i < entries.len() {
            let name = key.to_owned();
            entries.set(i, (name, v));
            assert(keys_of(entries@) =~= keys_of(before));
        } else {
            let name = key.to_owned();
            entries.push((name, v));
            assert(keys_of(entries@) =~= keys_of(before).push(key@));
            assert(!keys_of(before).contains(key@));
        }
        proof {
            assert(map_of(entries@) =~= map_of(before).insert(key@, v)) by {
                lemma_insert(before, entries@, key@, v, i as int);
            }
        }
        self.entries = entries;
    }

    /// Takes `key` and its value out of the map.
    pub fn remove(&mut self, key: &str) -> (r: Option<V>)
        ensures
            final(self)@ == old(self)@.remove(key@),
            match r {
                Some(v) => old(self)@.contains_key(key@) && v == old(self)@[key@],
                None => !old(self)@.contains_key(key@),
            },
    {
        proof {
            use_type_invariant(&*self);
        }
        let ghost before = self.entries@;
        let i = self.position(key);
        if i >= self.entries.len() {
            assert(self@ =~= old(self)@.remove(key@));
            return None;
        }
        let mut entries: Vec<(String, V)> = Vec::new();
        std::mem::swap(&mut entries, &mut self.entries);
        let taken = entries.remove(i);
        proof {
            lemma_entry(before, i as int);
            lemma_remove(before, entries@, i as int);
        }
        self.entries = entries;
        Some(taken.1)
    }

    /// Takes everything out of the map.
    pub fn clear(&mut self)
        ensures
            final(self)@ == Map::<Seq<char>, V>::empty(),
            final(self).order() == Seq::<Seq<char>>::empty(),
    {
        self.entries = Vec::new();
        assert(self@ =~= Map::<Seq<char>, V>::empty());
    }

    /// How many keys there are.
    pub fn len(&self) -> (r: usize)
        ensures
            r == self.order().len(),
    {
        self.entries.len()
    }

    /// The keys in the order of first insertion: each key of the map, once.
    pub fn keys(&self) -> (r: Vec<&str>)
        ensures
            r@.map_values(|k: &str| k@) == self.order(),
            self.order().no_duplicates(),
            self.order().to_set() == self@.dom(),
    {
        proof {
            use_type_invariant(self);
            assert(self.order().to_set() =~= self@.dom());
        }
        let mut out: Vec<&str> = Vec::new();
        let mut i: usize = 0;
        while i < self.entries.len()
            invariant
                i <= self.entries@.len(),
                out@.len() == i,
                forall|j: int| 0 <= j < i ==> #[trigger] out@[j]@ == self.entries@[j].0@,
            decreases self.entries@.len() - i,
        {
            out.push(self.entries[i].0.as_str());
            i += 1;
        }
        assert(out@.map_values(|k: &str| k@) =~= self.order());
        out
    }

    /// The entry at position `i` of the order.
    pub fn entry(&self, i: usize) -> (r: (&str, &V))
        requires
            i < self.order().len(),
        ensures
            r.0@ == self.order()[i as int],
            self@.contains_key(r.0@),
            *r.1 == self@[r.0@],
    {
        proof {
            use_type_invariant(self);
            lemma_entry(self.entries@, i as int);
        }
        let e = &self.entries[i];
        (e.0.as_str(), &e.1)
    }
}

/// A value in a map is structurally smaller than the map.
pub proof fn lemma_value_smaller<V>(m: StrMap<V>, k: Seq<char>)
    requires
        m@.contains_key(k),
    ensures
        decreases_to!(m => m@[k]),
{
    let keys = keys_of(m.entries@);
    let j = keys.index_of(k);
    assert(keys[j] == k);
    assert(decreases_to!(m => m.entries));
    assert(decreases_to!(m.entries => m.entries@[j]));
    assert(decreases_to!(m.entries@[j] => m.entries@[j].1));
}

impl<V: PartialEq> PartialEq for StrMap<V> {
    /// Whether the maps have the same keys, in any order, with equal values.
    fn eq(&self, other: &Self) -> (r: bool) {
        proof {
            use_type_invariant(self);
            use_type_invariant(other);
        }
        if self.entries.len() != other.entries.len() {
            proof {
                lemma_dom_len(*self);
                lemma_dom_len(*other);
            }
            return false;
        }
        let mut i: usize = 0;
        while i < self.entries.len()
            invariant
                i <= self.entries@.len(),
                keys_of(self.entries@).no_duplicates(),
                V::obeys_eq_spec() ==> forall|j: int|
                    0 <= j < i ==> {
                        let k = (#[trigger] self.entries@[j]).0@;
                        other@.contains_key(k) && self.entries@[j].1.eq_spec(&other@[k])
                    },
            decreases self.entries@.len() - i,
        {
            let e = &self.entries[i];
            proof {
                lemma_entry(self.entries@, i as int);
            }
            match other.get(e.0.as_str()) {
                Some(v) => {
                    if e.1 != *v {
                        return false;
                    }
                },
                None => {
                    return false;
                },
            }
            i += 1;
        }
        proof {
            if V::obeys_eq_spec() {
                lemma_dom_len(*self);
                lemma_dom_len(*other);
                let keys = keys_of(self.entries@);
                assert forall|k: Seq<char>| #[trigger] self@.contains_key(k) implies
                    other@.contains_key(k) && self@[k].eq_spec(&other@[k]) by {
                    let j = keys.index_of(k);
                    assert(keys[j] == k);
                    assert(self.entries@[j].0@ == k);
                    lemma_entry(self.entries@, j);
                }
                assert(self@.dom().subset_of(other@.dom()));
                vstd::set_lib::lemma_subset_equality(self@.dom(), other@.dom());
            }
        }
        true
    }
}

impl<V: PartialEq> vstd::std_specs::cmp::PartialEqSpecImpl for StrMap<V> {
    open spec fn obeys_eq_spec() -> bool {
        <V as PartialEqSpec>::obeys_eq_spec()
    }

    open spec fn eq_spec(&self, other: &Self) -> bool {
        &&& self@.dom() == other@.dom()
        &&& forall|k: Seq<char>| #[trigger]
            self@.contains_key(k) ==> self@[k].eq_spec(&other@[k])
    }
}

/// A map has as many keys as entries.
proof fn lemma_dom_len<V>(m: StrMap<V>)
    requires
        keys_of(m.entries@).no_duplicates(),
    ensures
        m@.dom().finite(),
        m@.dom().len() == m.entries@.len(),
{
    let keys = keys_of(m.entries@);
    keys.unique_seq_to_set();
    assert(keys.to_set() =~= m@.dom());
}

proof fn lemma_insert<V>(
    before: Seq<(String, V)>,
    after: Seq<(String, V)>,
    key: Seq<char>,
    v: V,
    i: int,
)
    requires
        keys_of(before).no_duplicates(),
        0 <= i < after.len(),
        after[i].0@ == key,
        after[i].1 == v,
        i < before.len() ==> before[i].0@ == key && after.len() == before.len(),
        i >= before.len() ==> i == before.len() && after.len() == before.len() + 1
            && !keys_of(before).contains(key),
        forall|j: int| 0 <= j < before.len() && j != i ==> after[j] == before[j],
    ensures
        map_of(after) == map_of(before).insert(key, v),
{
    let ks = keys_of(after);
    let ko = keys_of(before);
    assert(ks.no_duplicates()) by {
        if i < before.len() {
            assert(ks =~= ko);
        } else {
            assert(ks =~= ko.push(key));
        }
    }
    let m = map_of(before).insert(key, v);
    assert forall|k: Seq<char>| #[trigger] map_of(after).contains_key(k) implies m.contains_key(k)
        && map_of(after)[k] == m[k] by {
        let j = ks.index_of(k);
        lemma_entry(after, j);
        if j != i {
            lemma_entry(before, j);
            assert(after[j] == before[j]);
            assert(ks[j] != ks[i]);
        }
    }
    assert forall|k: Seq<char>| #[trigger] m.contains_key(k) implies map_of(after).contains_key(
        k,
    ) by {
        if k == key {
            assert(ks[i] == key);
        } else {
            let j = ko.index_of(k);
            assert(ko[j] == k);
            assert(before[j].0@ == k);
            assert(ks[j] == k);
        }
    }
    assert(map_of(after) =~= m);
}

proof fn lemma_remove<V>(before: Seq<(String, V)>, after: Seq<(String, V)>, i: int)
    requires
        keys_of(before).no_duplicates(),
        0 <= i < before.len(),
        after == before.remove(i),
    ensures
        keys_of(after).no_duplicates(),
        map_of(after) == map_of(before).remove(before[i].0@),
{
    let ks = keys_of(after);
    let ko = keys_of(before);
    let key = before[i].0@;
    assert forall|a: int, b: int| 0 <= a < ks.len() && 0 <= b < ks.len() && a != b implies ks[a]
        != ks[b] by {
        let x = if a < i {
            a
        } else {
            a + 1
        };
        let y = if b < i {
            b
        } else {
            b + 1
        };
        assert(ks[a] == ko[x] && ks[b] == ko[y]);
    }
    let m = map_of(before).remove(key);
    assert forall|k: Seq<char>| #[trigger] map_of(after).contains_key(k) implies m.contains_key(k)
        && map_of(after)[k] == m[k] by {
        let j = ks.index_of(k);
        lemma_entry(after, j);
        let x = if j < i {
            j
        } else {
            j + 1
        };
        assert(after[j] == before[x]);
        lemma_entry(before, x);
        assert(ko[x] != ko[i]);
    }
    assert forall|k: Seq<char>| #[trigger] m.contains_key(k) implies map_of(after).contains_key(
        k,
    ) by {
        let x = ko.index_of(k);
        assert(ko[x] == k && x != i);
        let j = if x < i {
            x
        } else {
            x - 1
        };
        assert(after[j] == before[x]);
        assert(ks[j] == k);
    }
    assert(map_of(after) =~= m);
}

/// A set of texts.
#[derive(Debug)]
pub struct StrSet {
    members: StrMap<()>,
}

impl View for StrSet {
    type V = Set<Seq<char>>;

    closed spec fn view(&self) -> Set<Seq<char>> {
        self.members@.dom()
    }
}

impl StrSet {
    /// The members in the order of first insertion.
    pub closed spec fn order(&self) -> Seq<Seq<char>> {
        self.members.order()
    }

    /// The empty set.
    pub fn new() -> (r: Self)
        ensures
            r@ == Set::<Seq<char>>::empty(),
            r.order() == Seq::<Seq<char>>::empty(),
    {
        let r = StrSet { members: StrMap::new() };
        assert(r@ =~= Set::<Seq<char>>::empty());
        r
    }

    /// Puts `member` into the set.
    pub fn insert(&mut self, member: &str)
        ensures
            final(self)@ == old(self)@.insert(member@),
            final(self).order() == if old(self)@.contains(member@) {
                old(self).order()
            } else {
                old(self).order().push(member@)
            },
    {
        self.members.insert(member, ());
        assert(self@ =~= old(self)@.insert(member@));
    }

    /// Whether `member` is in the set.
    pub fn contains(&self, member: &str) -> (r: bool)
        ensures
            r == self@.contains(member@),
    {
        self.members.contains_key(member)
    }

    /// The members in the order of first insertion: each member of the set, once.
    pub fn members(&self) -> (r: Vec<String>)
        ensures
            crate::error::texts(r@) == self.order(),
            self.order().no_duplicates(),
            self.order().to_set() == self@,
    {
        let keys = self.members.keys();
        let mut out: Vec<String> = Vec::new();
        let mut i: usize = 0;
        while i < keys.len()
            invariant
                i <= keys@.len(),
                out@.len() == i,
                forall|j: int| 0 <= j < i ==> #[trigger] out@[j]@ == keys@[j]@,
            decreases keys@.len() - i,
        {
            out.push(keys[i].to_owned());
            i += 1;
        }
        assert(crate::error::texts(out@) =~= keys@.map_values(|k: &str| k@));
        out
    }

    /// A copy of the set, in the same order.
    pub fn duplicate(&self) -> (r: Self)
        ensures
            r@ == self@,
            r.order() == self.order(),
    {
        let list = self.members();
        let ghost order = self.order();
        let mut r = StrSet::new();
        let mut i: usize = 0;
        assert(order.take(0) =~= Seq::<Seq<char>>::empty());
        assert(order.take(0).to_set() =~= Set::<Seq<char>>::empty());
        while i < list.len()
            invariant
                i <= list@.len(),
                order == crate::error::texts(list@),
                order.no_duplicates(),
                r.order() == order.take(i as int),
                r@ == order.take(i as int).to_set(),
            decreases list@.len() - i,
        {
            proof {
                let x = order[i as int];
                assert(list@[i as int]@ == x);
                assert(order.take(i + 1) =~= order.take(i as int).push(x));
                order.take(i as int).lemma_push_to_set_commute(x);
                if order.take(i as int).contains(x) {
                    let k = order.take(i as int).index_of(x);
                    assert(order[k] == x);
                }
            }
            r.insert(list[i].as_str());
            i += 1;
        }
        assert(order.take(i as int) =~= order);
        r
    }

    /// The set of the given texts.
    pub fn collect(list: &Vec<String>) -> (r: Self)
        ensures
            r@ == crate::error::texts(list@).to_set(),
    {
        let mut r = StrSet::new();
        let ghost all = crate::error::texts(list@);
        let mut i: usize = 0;
        assert(all.take(0).to_set() =~= Set::<Seq<char>>::empty());
        while i < list.len()
            invariant
                i <= list@.len(),
                all == crate::error::texts(list@),
                r@ == all.take(i as int).to_set(),
            decreases list@.len() - i,
        {
            proof {
                assert(all.take(i + 1) =~= all.take(i as int).push(all[i as int]));
                all.take(i as int).lemma_push_to_set_commute(all[i as int]);
            }
            r.insert(list[i].as_str());
            i += 1;
        }
        assert(all.take(i as int) =~= all);
        r
    }
}

} // verus!
