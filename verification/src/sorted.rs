//! Maps and sets keyed by text that keep their keys in the order of texts.

use vstd::prelude::*;
use crate::text::{
    law_text_order_is_strict, law_text_order_is_transitive, text_lt, text_order, texts, TextOrder,
};

verus! {

/// Whether each text comes before all that follow it, so that none occurs twice.
pub open spec fn ascending(keys: Seq<Seq<char>>) -> bool {
    forall|i: int, j: int| 0 <= i < j < keys.len() ==> text_lt(#[trigger] keys[i], #[trigger] keys[j])
}

/// The keys of a list of entries.
pub open spec fn entry_keys<V>(entries: Seq<(String, V)>) -> Seq<Seq<char>> {
    Seq::new(entries.len(), |i: int| entries[i].0@)
}

/// The map that a list of entries with different keys stands for.
pub open spec fn entry_map<V>(entries: Seq<(String, V)>) -> Map<Seq<char>, V> {
    Map::new(
        |key: Seq<char>| entry_keys(entries).contains(key),
        |key: Seq<char>| entries[entry_keys(entries).index_of(key)].1,
    )
}

/// A map from text to values of `V`, kept in the order of its keys.
pub struct TextMap<V> {
    entries: Vec<(String, V)>,
}

impl<V> View for TextMap<V> {
    type V = Map<Seq<char>, V>;

    open spec fn view(&self) -> Map<Seq<char>, V> {
        entry_map(self.entries())
    }
}

impl<V> TextMap<V> {
    /// The entries, in the order in which they are kept.
    pub closed spec fn entries(&self) -> Seq<(String, V)> {
        self.entries@
    }

    /// The keys, in the order in which they are kept.
    pub open spec fn keys(&self) -> Seq<Seq<char>> {
        entry_keys(self.entries())
    }

    /// The keys stand in their order, and none occurs twice.
    pub open spec fn wf(&self) -> bool {
        ascending(self.keys())
    }

    /// A map without entries.
    pub fn new() -> (res: Self)
        ensures
            res.wf(),
            res@ == Map::<Seq<char>, V>::empty(),
            res.keys() == Seq::<Seq<char>>::empty(),
    {
        let res = TextMap { entries: Vec::new() };
        assert(res.keys() =~= Seq::<Seq<char>>::empty());
        assert(res@ =~= Map::<Seq<char>, V>::empty());
        res
    }

    /// The map with the given entries.
    pub fn from_entries(entries: Vec<(String, V)>) -> (res: Self)
        requires
            ascending(entry_keys(entries@)),
        ensures
            res.wf(),
            res.entries() == entries@,
    {
        TextMap { entries }
    }

    /// The entries, in the order of their keys.
    pub fn as_entries(&self) -> (res: &Vec<(String, V)>)
        ensures
            res@ == self.entries(),
    {
        &self.entries
    }

    /// The number of entries.
    pub fn len(&self) -> (res: usize)
        requires
            self.wf(),
        ensures
            res == self.keys().len(),
            res == self@.len(),
    {
        proof {
            lemma_size(self.entries());
        }
        self.entries.len()
    }

    /// The entry at position `i` in the order of the keys.
    pub fn entry_at(&self, i: usize) -> (res: &(String, V))
        requires
            self.wf(),
            i < self.keys().len(),
        ensures
            *res == self.entries()[i as int],
            res.0@ == self.keys()[i as int],
            self@.contains_key(res.0@),
            self@[res.0@] == res.1,
    {
        proof {
            lemma_entry(self.entries(), i as int);
        }
        &self.entries[i]
    }

    /// Looks for `key`: whether it is there, and the position at which it is or belongs.
    fn find(&self, key: &str) -> (res: (bool, usize))
        requires
            self.wf(),
        ensures
            res.0 == self@.contains_key(key@),
            res.1 <= self.keys().len(),
            res.0 ==> res.1 < self.keys().len() && self.keys()[res.1 as int] == key@,
            forall|i: int| 0 <= i < res.1 ==> text_lt(#[trigger] self.keys()[i], key@),
            !res.0 ==> forall|i: int|
                res.1 <= i < self.keys().len() ==> text_lt(key@, #[trigger] self.keys()[i]),
    {
        let mut lo: usize = 0;
        let mut hi: usize = self.entries.len();
        while lo < hi
            invariant
                self.wf(),
                lo <= hi <= self.entries@.len(),
                self.keys().len() == self.entries@.len(),
                forall|i: int| 0 <= i < lo ==> text_lt(#[trigger] self.keys()[i], key@),
                forall|i: int|
                    hi <= i < self.keys().len() ==> text_lt(key@, #[trigger] self.keys()[i]),
            decreases hi - lo,
        {
            let mid: usize = lo + (hi - lo) / 2;
            let ghost probe = self.keys()[mid as int];
            match text_order(self.entries[mid].0.as_str(), key) {
                TextOrder::Same => {
                    proof {
                        assert(probe == key@);
                        lemma_entry(self.entries(), mid as int);
                    }
                    return (true, mid);
                },
                TextOrder::Before => {
                    assert forall|i: int| 0 <= i < mid + 1 implies text_lt(
                        #[trigger] self.keys()[i],
                        key@,
                    ) by {
                        if i < mid {
                            law_text_order_is_transitive(self.keys()[i], probe, key@);
                        }
                    }
                    lo = mid + 1;
                },
                TextOrder::After => {
                    assert forall|i: int| mid <= i < self.keys().len() implies text_lt(
                        key@,
                        #[trigger] self.keys()[i],
                    ) by {
                        if i > mid {
                            law_text_order_is_transitive(key@, probe, self.keys()[i]);
                        }
                    }
                    hi = mid;
                },
            }
        }
        proof {
            if self.keys().contains(key@) {
                let i = choose|i: int| 0 <= i < self.keys().len() && self.keys()[i] == key@;
                assert(self.keys()[i] == key@);
                law_text_order_is_strict(key@, key@);
            }
        }
        (false, lo)
    }

    /// The value of `key`, if the map has it.
    pub fn get(&self, key: &str) -> (res: Option<&V>)
        requires
            self.wf(),
        ensures
            match res {
                Some(value) => self@.contains_key(key@) && self@[key@] == *value,
                None => !self@.contains_key(key@),
            },
    {
        let (found, at) = self.find(key);
        if found {
            proof {
                lemma_entry(self.entries(), at as int);
            }
            Some(&self.entries[at].1)
        } else {
            None
        }
    }

    /// Gives `key` the value `value`, in place of the one it had if it had one.
    pub fn set(&mut self, key: String, value: V)
        requires
            old(self).wf(),
        ensures
            final(self).wf(),
            final(self)@ == old(self)@.insert(key@, value),
    {
        let ghost before = self.entries();
        let (found, at) = self.find(key.as_str());
        if found {
            proof {
                lemma_replaced(before, at as int, (key, value));
            }
            self.entries[at] = (key, value);
            assert(self.entries() =~= before.update(at as int, (key, value)));
        } else {
            proof {
                lemma_inserted(before, at as int, (key, value));
            }
            self.entries.insert(at, (key, value));
        }
    }

    /// Takes `key` and its value out of the map, if it is there.
    pub fn remove(&mut self, key: &str) -> (res: Option<V>)
        requires
            old(self).wf(),
        ensures
            final(self).wf(),
            final(self)@ == old(self)@.remove(key@),
            match res {
                Some(value) => old(self)@.contains_key(key@) && old(self)@[key@] == value,
                None => !old(self)@.contains_key(key@),
            },
    {
        let ghost before = self.entries();
        let (found, at) = self.find(key);
        if found {
            proof {
                lemma_removed(before, at as int);
                lemma_entry(before, at as int);
            }
            let entry = self.entries.remove(at);
            Some(entry.1)
        } else {
            assert(self@ =~= self@.remove(key@));
            None
        }
    }

    /// Takes all entries out of the map whose keys are not in `kept`.
    pub fn retain_keys(&mut self, kept: &TextSet)
        requires
            old(self).wf(),
            kept.wf(),
        ensures
            final(self).wf(),
            final(self)@ == old(self)@.restrict(kept@),
    {
        let ghost before = self@;
        let mut i: usize = 0;
        while i < self.entries.len()
            invariant
                self.wf(),
                kept.wf(),
                i <= self.entries@.len(),
                self.keys().len() == self.entries@.len(),
                forall|j: int| 0 <= j < i ==> kept@.contains(#[trigger] self.keys()[j]),
                forall|key: Seq<char>| #[trigger]
                    self@.contains_key(key) ==> before.contains_key(key) && before[key]
                        == self@[key],
                forall|key: Seq<char>|
                    before.contains_key(key) && kept@.contains(key) ==> #[trigger] self@.contains_key(
                        key,
                    ),
            decreases self.entries@.len() - i,
        {
            let ghost entries = self.entries();
            let ghost prior = self@;
            let ghost gone = self.keys()[i as int];
            if kept.contains(self.entries[i].0.as_str()) {
                i += 1;
            } else {
                proof {
                    lemma_removed(entries, i as int);
                }
                let _ = self.entries.remove(i);
                assert(self.entries() =~= entries.remove(i as int));
                assert(self@ == prior.remove(gone));
                assert forall|key: Seq<char>| #[trigger]
                    self@.contains_key(key) implies before.contains_key(key) && before[key]
                    == self@[key] by {
                    assert(prior.contains_key(key));
                }
                assert forall|key: Seq<char>|
                    before.contains_key(key) && kept@.contains(
                        key,
                    ) implies #[trigger] self@.contains_key(key) by {
                    assert(prior.contains_key(key));
                }
                assert forall|j: int| 0 <= j < i implies kept@.contains(
                    #[trigger] self.keys()[j],
                ) by {
                    assert(self.keys()[j] == entry_keys(entries)[j]);
                }
            }
        }
        assert forall|key: Seq<char>| #[trigger] self@.contains_key(key) implies kept@.contains(
            key,
        ) by {
            let j = choose|j: int| 0 <= j < self.keys().len() && self.keys()[j] == key;
            assert(kept@.contains(self.keys()[j]));
        }
        assert(self@ =~= before.restrict(kept@));
    }
}

proof fn lemma_entry<V>(entries: Seq<(String, V)>, i: int)
    requires
        ascending(entry_keys(entries)),
        0 <= i < entries.len(),
    ensures
        entry_map(entries).contains_key(entries[i].0@),
        entry_map(entries)[entries[i].0@] == entries[i].1,
{
    let keys = entry_keys(entries);
    let key = entries[i].0@;
    assert(keys[i] == key);
    assert(keys.contains(key));
    let m = keys.index_of(key);
    assert(keys[m] == key);
    law_text_order_is_strict(key, key);
    if m < i {
        assert(text_lt(keys[m], keys[i]));
    } else if i < m {
        assert(text_lt(keys[i], keys[m]));
    }
}

proof fn lemma_size<V>(entries: Seq<(String, V)>)
    requires
        ascending(entry_keys(entries)),
    ensures
        entry_map(entries).len() == entries.len(),
        entry_map(entries).dom().finite(),
{
    let keys = entry_keys(entries);
    assert(keys.no_duplicates()) by {
        assert forall|i: int, j: int|
            0 <= i < keys.len() && 0 <= j < keys.len() && i != j implies keys[i] != keys[j] by {
            law_text_order_is_strict(keys[i], keys[i]);
            if i < j {
                assert(text_lt(keys[i], keys[j]));
            } else {
                assert(text_lt(keys[j], keys[i]));
            }
        }
    }
    keys.unique_seq_to_set();
    assert(entry_map(entries).dom() =~= keys.to_set());
}

proof fn lemma_replaced<V>(entries: Seq<(String, V)>, at: int, entry: (String, V))
    requires
        ascending(entry_keys(entries)),
        0 <= at < entries.len(),
        entries[at].0@ == entry.0@,
    ensures
        ascending(entry_keys(entries.update(at, entry))),
        entry_map(entries.update(at, entry)) == entry_map(entries).insert(entry.0@, entry.1),
{
    let after = entries.update(at, entry);
    assert(entry_keys(after) =~= entry_keys(entries));
    assert forall|key: Seq<char>| #[trigger] entry_map(after).contains_key(key) implies entry_map(
        after,
    )[key] == entry_map(entries).insert(entry.0@, entry.1)[key] by {
        let keys = entry_keys(entries);
        assert(keys.contains(key));
        let i = keys.index_of(key);
        assert(keys[i] == key);
        lemma_entry(after, i);
        lemma_entry(entries, i);
        law_text_order_is_strict(key, key);
        if i < at {
            assert(text_lt(keys[i], keys[at]));
        } else if at < i {
            assert(text_lt(keys[at], keys[i]));
        }
    }
    assert(entry_keys(entries)[at] == entry.0@);
    assert(entry_map(after) =~= entry_map(entries).insert(entry.0@, entry.1));
}

proof fn lemma_inserted<V>(entries: Seq<(String, V)>, at: int, entry: (String, V))
    requires
        ascending(entry_keys(entries)),
        0 <= at <= entries.len(),
        forall|i: int| 0 <= i < at ==> text_lt(#[trigger] entry_keys(entries)[i], entry.0@),
        forall|i: int|
            at <= i < entries.len() ==> text_lt(entry.0@, #[trigger] entry_keys(entries)[i]),
    ensures
        ascending(entry_keys(entries.insert(at, entry))),
        entry_map(entries.insert(at, entry)) == entry_map(entries).insert(entry.0@, entry.1),
{
    let after = entries.insert(at, entry);
    let keys = entry_keys(entries);
    let more = entry_keys(after);
    assert(more =~= keys.insert(at, entry.0@));
    assert forall|i: int, j: int| 0 <= i < j < more.len() implies text_lt(
        #[trigger] more[i],
        #[trigger] more[j],
    ) by {
        let p = if i < at { i } else { i - 1 };
        let q = if j < at { j } else { j - 1 };
        if i != at {
            assert(more[i] == keys[p]);
        }
        if j != at {
            assert(more[j] == keys[q]);
        }
    }
    let target = entry_map(entries).insert(entry.0@, entry.1);
    assert forall|key: Seq<char>| entry_map(after).contains_key(key) == #[trigger] target.contains_key(
        key,
    ) by {
        if keys.contains(key) {
            let i = keys.index_of(key);
            assert(keys[i] == key);
            assert(more[if i < at { i } else { i + 1 }] == key);
        }
        if more.contains(key) {
            let i = more.index_of(key);
            assert(more[i] == key);
            if i != at {
                assert(keys[if i < at { i } else { i - 1 }] == key);
            }
        }
        assert(more[at] == entry.0@);
    }
    assert forall|key: Seq<char>| #[trigger] entry_map(after).contains_key(key) implies entry_map(
        after,
    )[key] == target[key] by {
        let i = more.index_of(key);
        assert(more[i] == key);
        lemma_entry(after, i);
        if i != at {
            let p = if i < at { i } else { i - 1 };
            assert(keys[p] == key);
            lemma_entry(entries, p);
            law_text_order_is_strict(key, key);
        }
    }
    assert(entry_map(after) =~= target);
}

proof fn lemma_removed<V>(entries: Seq<(String, V)>, at: int)
    requires
        ascending(entry_keys(entries)),
        0 <= at < entries.len(),
    ensures
        ascending(entry_keys(entries.remove(at))),
        entry_map(entries.remove(at)) == entry_map(entries).remove(entries[at].0@),
{
    let after = entries.remove(at);
    let keys = entry_keys(entries);
    let less = entry_keys(after);
    let gone = entries[at].0@;
    assert(keys[at] == gone);
    assert(less =~= keys.remove(at));
    assert forall|i: int, j: int| 0 <= i < j < less.len() implies text_lt(
        #[trigger] less[i],
        #[trigger] less[j],
    ) by {
        assert(less[i] == keys[if i < at { i } else { i + 1 }]);
        assert(less[j] == keys[if j < at { j } else { j + 1 }]);
    }
    let target = entry_map(entries).remove(gone);
    assert forall|key: Seq<char>| entry_map(after).contains_key(key) == #[trigger] target.contains_key(
        key,
    ) by {
        law_text_order_is_strict(gone, gone);
        if keys.contains(key) && key != gone {
            let i = keys.index_of(key);
            assert(keys[i] == key);
            assert(less[if i < at { i } else { i - 1 }] == key);
        }
        if less.contains(key) {
            let i = less.index_of(key);
            assert(less[i] == key);
            let p = if i < at { i } else { i + 1 };
            assert(keys[p] == key);
            if p < at {
                assert(text_lt(keys[p], keys[at]));
            } else {
                assert(text_lt(keys[at], keys[p]));
            }
        }
    }
    assert forall|key: Seq<char>| #[trigger] entry_map(after).contains_key(key) implies entry_map(
        after,
    )[key] == target[key] by {
        let i = less.index_of(key);
        assert(less[i] == key);
        lemma_entry(after, i);
        let p = if i < at { i } else { i + 1 };
        assert(keys[p] == key);
        lemma_entry(entries, p);
        assert(target.contains_key(key));
    }
    assert(entry_map(after) =~= target);
}

/// A set of texts, kept in their order.
pub struct TextSet {
    items: TextMap<()>,
}

impl View for TextSet {
    type V = Set<Seq<char>>;

    open spec fn view(&self) -> Set<Seq<char>> {
        self.items().to_set()
    }
}

impl TextSet {
    /// The texts, in the order in which they are kept.
    pub closed spec fn items(&self) -> Seq<Seq<char>> {
        self.items.keys()
    }

    /// The texts stand in their order, and none occurs twice.
    pub open spec fn wf(&self) -> bool {
        ascending(self.items())
    }

    /// The set without elements.
    pub fn new() -> (res: Self)
        ensures
            res.wf(),
            res@ == Set::<Seq<char>>::empty(),
    {
        let res = TextSet { items: TextMap::new() };
        assert(res@ =~= Set::<Seq<char>>::empty());
        res
    }

    /// The number of elements.
    pub fn len(&self) -> (res: usize)
        requires
            self.wf(),
        ensures
            res == self.items().len(),
    {
        self.items.len()
    }

    /// The element at position `i` in the order of texts.
    pub fn item_at(&self, i: usize) -> (res: &String)
        requires
            self.wf(),
            i < self.items().len(),
        ensures
            res@ == self.items()[i as int],
    {
        &self.items.entry_at(i).0
    }

    /// Whether `item` is an element.
    pub fn contains(&self, item: &str) -> (res: bool)
        requires
            self.wf(),
        ensures
            res == self@.contains(item@),
    {
        match self.items.get(item) {
            Some(_) => true,
            None => false,
        }
    }

    /// Puts `item` into the set, and says whether it was not there before.
    pub fn insert(&mut self, item: String) -> (res: bool)
        requires
            old(self).wf(),
        ensures
            final(self).wf(),
            final(self)@ == old(self)@.insert(item@),
            res == !old(self)@.contains(item@),
    {
        let ghost before = self.items@;
        let known = self.contains(item.as_str());
        let ghost text = item@;
        self.items.set(item, ());
        proof {
            assert(self@ =~= self.items@.dom());
            assert(old(self)@ =~= before.dom());
        }
        !known
    }

    /// The set of the texts in `items`.
    pub fn collect(items: &Vec<String>) -> (res: Self)
        ensures
            res.wf(),
            res@ == texts(items@).to_set(),
    {
        let mut set = TextSet::new();
        let mut i: usize = 0;
        let ghost all = texts(items@);
        assert(all.take(0).to_set() =~= Set::<Seq<char>>::empty());
        while i < items.len()
            invariant
                i <= items@.len(),
                all == texts(items@),
                set.wf(),
                set@ == all.take(i as int).to_set(),
            decreases items@.len() - i,
        {
            let _ = set.insert(items[i].clone());
            assert(all.take(i + 1) =~= all.take(i as int).push(all[i as int]));
            proof {
                lemma_push_to_set(all.take(i as int), all[i as int]);
            }
            i += 1;
        }
        assert(all.take(i as int) =~= all);
        set
    }

    /// The elements, in the order of texts.
    pub fn to_vec(&self) -> (res: Vec<String>)
        requires
            self.wf(),
        ensures
            texts(res@) == self.items(),
    {
        let mut all: Vec<String> = Vec::new();
        let mut i: usize = 0;
        while i < self.len()
            invariant
                self.wf(),
                i <= self.items().len(),
                texts(all@) == self.items().take(i as int),
            decreases self.items().len() - i,
        {
            let ghost before = texts(all@);
            all.push(self.item_at(i).clone());
            assert(texts(all@) =~= before.push(self.items()[i as int]));
            i += 1;
        }
        assert(texts(all@) =~= self.items());
        all
    }
}

proof fn lemma_push_to_set(s: Seq<Seq<char>>, x: Seq<char>)
    ensures
        s.push(x).to_set() == s.to_set().insert(x),
{
    assert forall|y: Seq<char>| s.push(x).to_set().contains(y) == s.to_set().insert(x).contains(
        y,
    ) by {
        if s.push(x).contains(y) {
            let i = choose|i: int| 0 <= i < s.push(x).len() && s.push(x)[i] == y;
            if i < s.len() {
                assert(s[i] == y);
            }
        }
        if s.contains(y) {
            let i = choose|i: int| 0 <= i < s.len() && s[i] == y;
            assert(s.push(x)[i] == y);
        }
        assert(s.push(x)[s.len() as int] == x);
    }
    assert(s.push(x).to_set() =~= s.to_set().insert(x));
}

/// A list in order is determined by what it holds: two such lists with the same elements are the
/// same list.
pub proof fn law_order_is_determined_by_elements(a: Seq<Seq<char>>, b: Seq<Seq<char>>)
    requires
        ascending(a),
        ascending(b),
        a.to_set() == b.to_set(),
    ensures
        a == b,
    decreases a.len(),
{
    if a.len() == 0 {
        if b.len() > 0 {
            assert(b.to_set().contains(b[0]));
            assert(a.to_set().contains(b[0]));
        }
    } else {
        assert(a.to_set().contains(a.last()));
        assert(b.to_set().contains(a.last()));
        let m = b.index_of(a.last());
        assert(b[m] == a.last());
        assert(b.to_set().contains(b.last()));
        assert(a.to_set().contains(b.last()));
        let n = a.index_of(b.last());
        assert(a[n] == b.last());
        law_text_order_is_strict(a.last(), b.last());
        if m < b.len() - 1 {
            assert(text_lt(b[m], b[b.len() - 1]));
            if n < a.len() - 1 {
                assert(text_lt(a[n], a[a.len() - 1]));
            }
        }
        assert(a.last() == b.last());
        let c = a.drop_last();
        let d = b.drop_last();
        assert forall|x: Seq<char>| c.to_set().contains(x) == d.to_set().contains(x) by {
            lemma_last_is_new(a, x);
            lemma_last_is_new(b, x);
        }
        assert(c.to_set() =~= d.to_set());
        law_order_is_determined_by_elements(c, d);
        assert(a =~= c.push(a.last()));
        assert(b =~= d.push(b.last()));
    }
}

proof fn lemma_last_is_new(a: Seq<Seq<char>>, x: Seq<char>)
    requires
        ascending(a),
        a.len() > 0,
    ensures
        a.drop_last().to_set().contains(x) <==> a.to_set().contains(x) && x != a.last(),
{
    law_text_order_is_strict(x, x);
    if a.drop_last().contains(x) {
        let i = a.drop_last().index_of(x);
        assert(a.drop_last()[i] == x);
        assert(a[i] == x);
        assert(text_lt(a[i], a[a.len() - 1]));
    }
    if a.contains(x) && x != a.last() {
        let i = a.index_of(x);
        assert(a[i] == x);
        assert(a.drop_last()[i] == x);
    }
}

/// The texts in `list`, each where it comes first and nowhere else.
pub open spec fn without_repeats(list: Seq<Seq<char>>) -> Seq<Seq<char>>
    decreases list.len(),
{
    if list.len() == 0 {
        seq![]
    } else if list.drop_last().contains(list.last()) {
        without_repeats(list.drop_last())
    } else {
        without_repeats(list.drop_last()).push(list.last())
    }
}

/// Drops from a list every text that has come before.
pub fn drop_repeats(list: &Vec<String>) -> (res: Vec<String>)
    ensures
        texts(res@) == without_repeats(texts(list@)),
{
    let mut seen = TextSet::new();
    let mut kept: Vec<String> = Vec::new();
    let mut i: usize = 0;
    let ghost all = texts(list@);
    assert(all.take(0).to_set() =~= Set::<Seq<char>>::empty());
    while i < list.len()
        invariant
            i <= list@.len(),
            all == texts(list@),
            seen.wf(),
            seen@ == all.take(i as int).to_set(),
            texts(kept@) == without_repeats(all.take(i as int)),
        decreases list@.len() - i,
    {
        let ghost before = texts(kept@);
        proof {
            assert(all.take(i + 1) =~= all.take(i as int).push(all[i as int]));
            assert(all.take(i + 1).drop_last() =~= all.take(i as int));
            lemma_push_to_set(all.take(i as int), all[i as int]);
        }
        if seen.insert(list[i].clone()) {
            kept.push(list[i].clone());
            assert(texts(kept@) =~= before.push(all[i as int]));
        }
        i += 1;
    }
    assert(all.take(i as int) =~= all);
    kept
}

/// Whether the text at `p` comes there for the first time.
pub open spec fn first_at(list: Seq<Seq<char>>, p: int) -> bool {
    0 <= p < list.len() && forall|q: int| 0 <= q < p ==> list[q] != list[p]
}

/// A list without its repeats holds the same texts, each of them once, in the order in which they
/// come first.
pub proof fn law_repeats_are_dropped(list: Seq<Seq<char>>)
    ensures
        without_repeats(list).no_duplicates(),
        without_repeats(list).to_set() == list.to_set(),
        forall|p: int, q: int, i: int, j: int|
            #![trigger first_at(list, p), first_at(list, q), without_repeats(list)[i], without_repeats(list)[j]]
            first_at(list, p) && first_at(list, q) && 0 <= i < without_repeats(list).len() && 0 <= j
                < without_repeats(list).len() && without_repeats(list)[i] == list[p]
                && without_repeats(list)[j] == list[q] ==> (p < q <==> i < j),
    decreases list.len(),
{
    if list.len() > 0 {
        let front = list.drop_last();
        let last = list.last();
        let n = front.len() as int;
        let kept = without_repeats(front);
        let all = without_repeats(list);
        law_repeats_are_dropped(front);
        assert(list =~= front.push(last));
        lemma_push_to_set(front, last);
        lemma_push_to_set(kept, last);
        assert(kept.contains(last) == front.contains(last)) by {
            assert(kept.to_set().contains(last) == front.to_set().contains(last));
        }
        if front.contains(last) {
            assert(front.to_set().insert(last) =~= front.to_set());
        } else {
            assert(all.no_duplicates()) by {
                assert forall|i: int, j: int|
                    0 <= i < all.len() && 0 <= j < all.len() && i != j implies all[i] != all[j] by {
                    if i == kept.len() {
                        assert(kept.contains(kept[j]));
                    } else if j == kept.len() {
                        assert(kept.contains(kept[i]));
                    }
                }
            }
        }
        assert forall|p: int, q: int, i: int, j: int|
            #![trigger first_at(list, p), first_at(list, q), all[i], all[j]]
            first_at(list, p) && first_at(list, q) && 0 <= i < all.len() && 0 <= j < all.len()
                && all[i] == list[p] && all[j] == list[q] implies (p < q <==> i < j) by {
            lemma_first_before(list, p);
            lemma_first_before(list, q);
            lemma_kept_before(list, i, p);
            lemma_kept_before(list, j, q);
            if p < n && q < n {
                assert(first_at(front, p) && first_at(front, q));
                assert(kept[i] == front[p] && kept[j] == front[q]);
            }
        }
    }
}

proof fn lemma_first_before(list: Seq<Seq<char>>, p: int)
    requires
        list.len() > 0,
        first_at(list, p),
    ensures
        p < list.len() - 1 ==> first_at(list.drop_last(), p),
        p == list.len() - 1 ==> !list.drop_last().contains(list.last()),
{
    let front = list.drop_last();
    if p < front.len() {
        assert forall|q: int| 0 <= q < p implies front[q] != front[p] by {
            assert(list[q] != list[p]);
        }
    } else if front.contains(list.last()) {
        let q = choose|q: int| 0 <= q < front.len() && front[q] == list.last();
        assert(list[q] == list[p]);
    }
}

proof fn lemma_kept_before(list: Seq<Seq<char>>, i: int, p: int)
    requires
        list.len() > 0,
        first_at(list, p),
        without_repeats(list.drop_last()).to_set() == list.drop_last().to_set(),
        0 <= i < without_repeats(list).len(),
        without_repeats(list)[i] == list[p],
    ensures
        p < list.len() - 1 <==> i < without_repeats(list.drop_last()).len(),
{
    let front = list.drop_last();
    let kept = without_repeats(front);
    lemma_first_before(list, p);
    if p < front.len() {
        assert(front[p] == list[p]);
        assert(front.contains(list[p]));
    } else if i < kept.len() {
        assert(kept.contains(kept[i]));
        assert(kept.to_set().contains(list.last()));
        assert(front.to_set().contains(list.last()));
    }
}

/// Texts are in order exactly when each comes before the one that follows it.
pub proof fn law_order_goes_from_text_to_text(keys: Seq<Seq<char>>)
    ensures
        ascending(keys) <==> forall|i: int, j: int|
            0 <= i < keys.len() && j == i + 1 && j < keys.len() ==> text_lt(
                #[trigger] keys[i],
                #[trigger] keys[j],
            ),
{
    if forall|i: int, j: int|
        0 <= i < keys.len() && j == i + 1 && j < keys.len() ==> text_lt(
            #[trigger] keys[i],
            #[trigger] keys[j],
        ) {
        assert forall|i: int, j: int| 0 <= i < j < keys.len() implies text_lt(
            #[trigger] keys[i],
            #[trigger] keys[j],
        ) by {
            lemma_steps_add_up(keys, i, j);
        }
    }
}

proof fn lemma_steps_add_up(keys: Seq<Seq<char>>, i: int, j: int)
    requires
        0 <= i < j < keys.len(),
        forall|i: int, j: int|
            0 <= i < keys.len() && j == i + 1 && j < keys.len() ==> text_lt(
                #[trigger] keys[i],
                #[trigger] keys[j],
            ),
    ensures
        text_lt(keys[i], keys[j]),
    decreases j - i,
{
    if i + 1 < j {
        lemma_steps_add_up(keys, i, j - 1);
        assert(text_lt(keys[j - 1], keys[j]));
        law_text_order_is_transitive(keys[i], keys[j - 1], keys[j]);
    }
}

/// The map that entries in order stand for has the keys of the entries and no others, each with the
/// value that stands beside it.
pub proof fn law_map_is_its_entries<V>(entries: Seq<(String, V)>, key: Seq<char>, i: int)
    requires
        ascending(entry_keys(entries)),
        0 <= i < entries.len(),
    ensures
        entry_keys(entries).len() == entries.len(),
        entry_keys(entries)[i] == entries[i].0@,
        entry_map(entries).contains_key(key) <==> exists|j: int|
            0 <= j < entries.len() && (#[trigger] entries[j]).0@ == key,
        entry_map(entries)[entries[i].0@] == entries[i].1,
{
    lemma_entry(entries, i);
    let keys = entry_keys(entries);
    if keys.contains(key) {
        let j = choose|j: int| 0 <= j < keys.len() && keys[j] == key;
        assert(entries[j].0@ == key);
    }
    if exists|j: int| 0 <= j < entries.len() && (#[trigger] entries[j]).0@ == key {
        let j = choose|j: int| 0 <= j < entries.len() && (#[trigger] entries[j]).0@ == key;
        assert(keys[j] == key);
    }
}

/// Two texts stand in a list without its repeats in the order of the places at which they first
/// stand in the list.
pub proof fn law_first_occurrences_keep_their_order(
    list: Seq<Seq<char>>,
    p: int,
    q: int,
    i: int,
    j: int,
)
    requires
        0 <= p < list.len(),
        forall|r: int| 0 <= r < p ==> list[r] != list[p],
        0 <= q < list.len(),
        forall|r: int| 0 <= r < q ==> list[r] != list[q],
        0 <= i < without_repeats(list).len(),
        0 <= j < without_repeats(list).len(),
        without_repeats(list)[i] == list[p],
        without_repeats(list)[j] == list[q],
    ensures
        p < q <==> i < j,
{
    law_repeats_are_dropped(list);
    assert(first_at(list, p) && first_at(list, q));
}

} // verus!
