//! Small collections kept in the order in which things came in.

use vstd::prelude::*;

use crate::ids::{LayoutId, NodeId, SpaceId, WindowId, WindowServerId};

verus! {

/// What can be looked up: equality that can be decided.
pub trait Key: Copy {
    fn same(&self, other: &Self) -> (same: bool)
        ensures
            same == (*self == *other),
    ;
}

impl Key for i32 {
    fn same(&self, other: &i32) -> (same: bool) {
        *self == *other
    }
}

impl Key for WindowId {
    fn same(&self, other: &WindowId) -> (same: bool) {
        *self == *other
    }
}

impl Key for WindowServerId {
    fn same(&self, other: &WindowServerId) -> (same: bool) {
        *self == *other
    }
}

impl Key for SpaceId {
    fn same(&self, other: &SpaceId) -> (same: bool) {
        *self == *other
    }
}

impl Key for LayoutId {
    fn same(&self, other: &LayoutId) -> (same: bool) {
        *self == *other
    }
}

impl Key for NodeId {
    fn same(&self, other: &NodeId) -> (same: bool) {
        *self == *other
    }
}

/// Where `key` stands in `keys`, if it does.
pub fn position<K: Key>(keys: &[K], key: K) -> (at: Option<usize>)
    ensures
        match at {
            Some(i) => i < keys@.len() && keys@[i as int] == key && !keys@.take(
                i as int,
            ).contains(key),
            None => !keys@.contains(key),
        },
{
    let mut i: usize = 0;
    while i < keys.len()
        invariant
            i <= keys@.len(),
            !keys@.take(i as int).contains(key),
        decreases keys@.len() - i,
    {
        if keys[i].same(&key) {
            return Some(i);
        }
        assert(keys@.take(i + 1) == keys@.take(i as int).push(keys@[i as int]));
        i += 1;
    }
    assert(keys@.take(i as int) == keys@);
    None
}

/// A set that remembers the order in which its members came in.
pub struct VecSet<K: Key> {
    items: Vec<K>,
}

impl<K: Key> View for VecSet<K> {
    type V = Seq<K>;

    closed spec fn view(&self) -> Seq<K> {
        self.items@
    }
}

/// `list` without `key`.
pub open spec fn without<K>(list: Seq<K>, key: K) -> Seq<K> {
    list.filter(|k: K| k != key)
}

/// `list` with `key` at its end, unless it was in there already.
pub open spec fn with<K>(list: Seq<K>, key: K) -> Seq<K> {
    if list.contains(key) {
        list
    } else {
        list.push(key)
    }
}

/// The members of a list, each once, where it first occurs.
pub open spec fn each_once<K>(list: Seq<K>) -> Seq<K>
    decreases list.len(),
{
    if list.len() == 0 {
        Seq::empty()
    } else {
        with(each_once(list.drop_last()), list.last())
    }
}

impl<K: Key> VecSet<K> {
    #[verifier::type_invariant]
    spec fn each_once(self) -> bool {
        self.items@.no_duplicates()
    }

    pub fn new() -> (set: Self)
        ensures
            set@ == Seq::<K>::empty(),
    {
        VecSet { items: Vec::new() }
    }

    /// The set of the given members.
    pub fn from_items(items: Vec<K>) -> (set: Self)
        requires
            items@.no_duplicates(),
        ensures
            set@ == items@,
    {
        VecSet { items }
    }

    /// The set of what is in a list.
    pub fn from_list(list: &Vec<K>) -> (set: Self)
        ensures
            set@ == each_once(list@),
    {
        let mut set = VecSet::new();
        let mut i: usize = 0;
        assert(list@.take(0) == Seq::<K>::empty());
        while i < list.len()
            invariant
                i <= list@.len(),
                set@ == each_once(list@.take(i as int)),
            decreases list@.len() - i,
        {
            assert(list@.take(i + 1).drop_last() == list@.take(i as int));
            set.insert(list[i]);
            i += 1;
        }
        assert(list@.take(i as int) == list@);
        set
    }

    pub fn contains(&self, key: K) -> (found: bool)
        ensures
            found == self@.contains(key),
    {
        position(self.items.as_slice(), key).is_some()
    }

    pub fn len(&self) -> (len: usize)
        ensures
            len == self@.len(),
    {
        self.items.len()
    }

    pub fn items(&self) -> (items: &Vec<K>)
        ensures
            items@ == self@,
            items@.no_duplicates(),
    {
        proof {
            use_type_invariant(self);
        }
        &self.items
    }

    pub fn insert(&mut self, key: K)
        ensures
            final(self)@ == with(old(self)@, key),
    {
        if !self.contains(key) {
            proof {
                use_type_invariant(&*self);
            }
            let mut items: Vec<K> = Vec::new();
            std::mem::swap(&mut items, &mut self.items);
            items.push(key);
            self.items = items;
        }
    }

    pub fn remove(&mut self, key: K)
        ensures
            final(self)@ == without(old(self)@, key),
    {
        proof {
            use_type_invariant(&*self);
        }
        let kept = list_without(self.items.as_slice(), key);
        proof {
            lemma_filter_each_once(self.items@, |k: K| k != key);
        }
        self.items = kept;
    }
}

/// Filtering one element more adds it at the end, or leaves it out.
pub proof fn lemma_filter_step<K>(list: Seq<K>, i: int, keep: spec_fn(K) -> bool)
    requires
        0 <= i < list.len(),
    ensures
        list.take(i + 1).filter(keep) == if keep(list[i]) {
            list.take(i).filter(keep).push(list[i])
        } else {
            list.take(i).filter(keep)
        },
{
    reveal(Seq::filter);
    assert(list.take(i + 1).drop_last() == list.take(i));
}

/// What filtering leaves was there, and still occurs once only.
pub proof fn lemma_filter_each_once<K>(list: Seq<K>, keep: spec_fn(K) -> bool)
    requires
        list.no_duplicates(),
    ensures
        list.filter(keep).no_duplicates(),
        forall|k: K| #[trigger]
            list.filter(keep).contains(k) <==> list.contains(k) && keep(k),
    decreases list.len(),
{
    reveal(Seq::filter);
    if list.len() > 0 {
        let front = list.drop_last();
        lemma_filter_each_once(front, keep);
        assert forall|k: K| #[trigger]
            list.filter(keep).contains(k) <==> list.contains(k) && keep(k) by {
            assert(list == front.push(list.last()));
            if list.contains(k) {
                let i = choose|i: int| 0 <= i < list.len() && list[i] == k;
                if i < front.len() {
                    assert(front[i] == k);
                }
            }
            if front.filter(keep).contains(k) {
                let i = choose|i: int|
                    0 <= i < front.filter(keep).len() && front.filter(keep)[i] == k;
                assert(list.filter(keep)[i] == k);
                assert(front.contains(k));
                let j = choose|j: int| 0 <= j < front.len() && front[j] == k;
                assert(list[j] == k);
            }
            if keep(list.last()) {
                assert(list.filter(keep) == front.filter(keep).push(list.last()));
                assert(list.filter(keep)[list.filter(keep).len() - 1] == list.last());
            }
        }
        if keep(list.last()) {
            assert(!front.contains(list.last()));
            assert(!front.filter(keep).contains(list.last()));
            let kept = list.filter(keep);
            assert(kept == front.filter(keep).push(list.last()));
            assert forall|i: int, j: int| 0 <= i < kept.len() && 0 <= j < kept.len() && i != j implies kept[i]
                != kept[j] by {
                if i < kept.len() - 1 && j < kept.len() - 1 {
                    assert(front.filter(keep)[i] != front.filter(keep)[j]);
                } else if i < kept.len() - 1 {
                    assert(front.filter(keep).contains(kept[i]));
                } else {
                    assert(front.filter(keep).contains(kept[j]));
                }
            }
        }
    }
}

/// What is in a list that something was taken out of.
pub proof fn lemma_without<K>(list: Seq<K>, key: K)
    requires
        list.no_duplicates(),
    ensures
        without(list, key).no_duplicates(),
        forall|k: K| #[trigger]
            without(list, key).contains(k) <==> list.contains(k) && k != key,
{
    lemma_filter_each_once(list, |k: K| k != key);
}

/// A copy of `list` without `key`.
pub fn list_without<K: Key>(list: &[K], key: K) -> (kept: Vec<K>)
    ensures
        kept@ == without(list@, key),
{
    let mut kept: Vec<K> = Vec::new();
    let mut i: usize = 0;
    let ghost keep = |k: K| k != key;
    proof {
        reveal(Seq::filter);
        assert(list@.take(0).filter(keep) == Seq::<K>::empty());
    }
    while i < list.len()
        invariant
            i <= list@.len(),
            keep == (|k: K| k != key),
            kept@ == list@.take(i as int).filter(keep),
        decreases list@.len() - i,
    {
        proof {
            lemma_filter_step(list@, i as int, keep);
        }
        if !list[i].same(&key) {
            kept.push(list[i]);
        }
        i += 1;
    }
    assert(list@.take(i as int) == list@);
    kept
}

/// A map kept as a list of entries.
pub struct VecMap<K: Key, V> {
    entries: Vec<(K, V)>,
}

/// The entry of `entries` for `key`.
pub closed spec fn entry_of<K, V>(entries: Seq<(K, V)>, key: K) -> int {
    choose|i: int| 0 <= i < entries.len() && (#[trigger] entries[i]).0 == key
}

pub closed spec fn has_entry<K, V>(entries: Seq<(K, V)>, key: K) -> bool {
    exists|i: int| 0 <= i < entries.len() && (#[trigger] entries[i]).0 == key
}

pub closed spec fn one_entry_each<K, V>(entries: Seq<(K, V)>) -> bool {
    forall|i: int, j: int|
        0 <= i < j < entries.len() ==> (#[trigger] entries[i]).0 != (#[trigger] entries[j]).0
}

impl<K: Key, V> View for VecMap<K, V> {
    type V = Map<K, V>;

    closed spec fn view(&self) -> Map<K, V> {
        let entries = self.entries@;
        Map::new(|key: K| has_entry(entries, key), |key: K| entries[entry_of(entries, key)].1)
    }
}

/// `keys` names each key of `map` once.
pub open spec fn lists<K, V>(keys: Seq<K>, map: Map<K, V>) -> bool {
    &&& keys.no_duplicates()
    &&& forall|key: K| #[trigger] keys.contains(key) <==> map.contains_key(key)
}

impl<K: Key, V> VecMap<K, V> {
    #[verifier::type_invariant]
    spec fn each_once(self) -> bool {
        one_entry_each(self.entries@)
    }

    pub fn new() -> (map: Self)
        ensures
            map@ == Map::<K, V>::empty(),
    {
        let map = VecMap { entries: Vec::new() };
        assert(map@ =~= Map::<K, V>::empty());
        map
    }

    fn find(&self, key: K) -> (at: Option<usize>)
        ensures
            match at {
                Some(i) => i < self.entries@.len() && self.entries@[i as int].0 == key
                    && self@.contains_key(key) && self@[key] == self.entries@[i as int].1,
                None => !self@.contains_key(key) && forall|i: int|
                    0 <= i < self.entries@.len() ==> (#[trigger] self.entries@[i]).0 != key,
            },
    {
        proof {
            use_type_invariant(self);
        }
        let mut i: usize = 0;
        while i < self.entries.len()
            invariant
                i <= self.entries@.len(),
                one_entry_each(self.entries@),
                forall|j: int| 0 <= j < i ==> (#[trigger] self.entries@[j]).0 != key,
            decreases self.entries@.len() - i,
        {
            if self.entries[i].0.same(&key) {
                assert(entry_of(self.entries@, key) == i);
                return Some(i);
            }
            i += 1;
        }
        None
    }

    pub fn get(&self, key: K) -> (value: Option<&V>)
        ensures
            match value {
                Some(value) => self@.contains_key(key) && *value == self@[key],
                None => !self@.contains_key(key),
            },
    {
        match self.find(key) {
            Some(i) => Some(&self.entries[i].1),
            None => None,
        }
    }

    pub fn contains_key(&self, key: K) -> (found: bool)
        ensures
            found == self@.contains_key(key),
    {
        self.find(key).is_some()
    }

    /// Takes the value for `key` out of the map.
    pub fn remove(&mut self, key: K) -> (value: Option<V>)
        ensures
            final(self)@ == old(self)@.remove(key),
            match value {
                Some(value) => old(self)@.contains_key(key) && value == old(self)@[key],
                None => !old(self)@.contains_key(key),
            },
    {
        match self.find(key) {
            Some(i) => {
                proof {
                    use_type_invariant(&*self);
                }
                let ghost before = self.entries@;
                let mut entries: Vec<(K, V)> = Vec::new();
                std::mem::swap(&mut entries, &mut self.entries);
                let value = entries.remove(i);
                proof {
                    lemma_entry_removed(before, i as int);
                }
                self.entries = entries;
                assert(self@ =~= old(self)@.remove(key));
                Some(value.1)
            },
            None => {
                assert(self@ =~= old(self)@.remove(key));
                None
            },
        }
    }

    /// Puts `value` in for `key`, in place of what was there.
    pub fn insert(&mut self, key: K, value: V)
        ensures
            final(self)@ == old(self)@.insert(key, value),
    {
        let _ = self.remove(key);
        proof {
            use_type_invariant(&*self);
            assert(!self@.contains_key(key));
        }
        let ghost before = self.entries@;
        let ghost rest = self@;
        let mut entries: Vec<(K, V)> = Vec::new();
        std::mem::swap(&mut entries, &mut self.entries);
        entries.push((key, value));
        proof {
            lemma_entry_added(before, key, value);
        }
        self.entries = entries;
        assert forall|k: K| #[trigger] self@.contains_key(k) <==> rest.contains_key(k) || k == key by {}
        assert(self@ =~= rest.insert(key, value));
        assert(self@ =~= old(self)@.insert(key, value));
    }

    /// The keys, each once.
    pub fn keys(&self) -> (keys: Vec<K>)
        ensures
            lists(keys@, self@),
    {
        proof {
            use_type_invariant(self);
        }
        let mut keys: Vec<K> = Vec::new();
        let mut i: usize = 0;
        while i < self.entries.len()
            invariant
                i <= self.entries@.len(),
                keys@.len() == i,
                forall|j: int| 0 <= j < i ==> keys@[j] == (#[trigger] self.entries@[j]).0,
            decreases self.entries@.len() - i,
        {
            keys.push(self.entries[i].0);
            i += 1;
        }
        proof {
            let entries = self.entries@;
            assert forall|key: K| #[trigger] keys@.contains(key) <==> self@.contains_key(key) by {
                if has_entry(entries, key) {
                    let j = entry_of(entries, key);
                    assert(keys@[j] == key);
                }
                if keys@.contains(key) {
                    let j = choose|j: int| 0 <= j < keys@.len() && keys@[j] == key;
                    assert(entries[j].0 == key);
                }
            }
            assert forall|i: int, j: int| 0 <= i < j < keys@.len() implies keys@[i] != keys@[j] by {
                assert(entries[i].0 != entries[j].0);
            }
        }
        keys
    }
}

proof fn lemma_entry_removed<K, V>(entries: Seq<(K, V)>, i: int)
    requires
        0 <= i < entries.len(),
        one_entry_each(entries),
    ensures
        one_entry_each(entries.remove(i)),
        forall|key: K| #[trigger]
            has_entry(entries.remove(i), key) <==> has_entry(entries, key) && key != entries[i].0,
        forall|key: K|
            has_entry(entries.remove(i), key) ==> entries.remove(i)[#[trigger] entry_of(
                entries.remove(i),
                key,
            )].1 == entries[entry_of(entries, key)].1,
{
    let rest = entries.remove(i);
    assert forall|a: int| 0 <= a < rest.len() implies (#[trigger] rest[a]) == entries[if a < i {
        a
    } else {
        a + 1
    }] by {}
    assert forall|key: K| #[trigger]
        has_entry(rest, key) <==> has_entry(entries, key) && key != entries[i].0 by {
        if has_entry(rest, key) {
            let a = entry_of(rest, key);
            assert(rest[a].0 == key);
        }
        if has_entry(entries, key) && key != entries[i].0 {
            let a = entry_of(entries, key);
            assert(rest[if a < i {
                a
            } else {
                a - 1
            }].0 == key);
        }
    }
    assert forall|key: K| has_entry(rest, key) implies rest[#[trigger] entry_of(rest, key)].1
        == entries[entry_of(entries, key)].1 by {
        let a = entry_of(rest, key);
        assert(rest[a].0 == key);
        let b = if a < i {
            a
        } else {
            a + 1
        };
        assert(entries[b].0 == key);
        assert(entry_of(entries, key) == b);
    }
}

proof fn lemma_entry_added<K, V>(entries: Seq<(K, V)>, key: K, value: V)
    requires
        one_entry_each(entries),
        !has_entry(entries, key),
    ensures
        one_entry_each(entries.push((key, value))),
        forall|k: K| #[trigger]
            has_entry(entries.push((key, value)), k) <==> has_entry(entries, k) || k == key,
        forall|k: K|
            has_entry(entries.push((key, value)), k) ==> entries.push((key, value))[#[trigger] entry_of(
                entries.push((key, value)),
                k,
            )].1 == if k == key {
                value
            } else {
                entries[entry_of(entries, k)].1
            },
{
    let all = entries.push((key, value));
    assert(all[entries.len() as int].0 == key);
    assert forall|k: K| #[trigger] has_entry(all, k) <==> has_entry(entries, k) || k == key by {
        if has_entry(entries, k) {
            assert(all[entry_of(entries, k)].0 == k);
        }
        if has_entry(all, k) && k != key {
            assert(entries[entry_of(all, k)].0 == k);
        }
    }
    assert forall|k: K| has_entry(all, k) implies all[#[trigger] entry_of(all, k)].1 == if k == key {
        value
    } else {
        entries[entry_of(entries, k)].1
    } by {
        let a = entry_of(all, k);
        assert(all[a].0 == k);
        if k != key {
            assert(entries[a].0 == k);
            assert(entry_of(entries, k) == a);
        }
    }
}

} // verus!
