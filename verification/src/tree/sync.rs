//! The table of what belongs to each position of a tree.

use vstd::prelude::*;

use crate::progress::key;
use crate::progress::Key;

verus! {

/// A table from positions to values.
#[derive(Debug)]
pub struct HashMap<V> {
    /// The entries by the codes of their positions.
    entries: std::collections::HashMap<u128, (Key, V)>,
}

impl<V> View for HashMap<V> {
    type V = Map<Key, V>;

    closed spec fn view(&self) -> Map<Key, V> {
        Map::new(
            |key: Key| self.entries@.contains_key(key.spec_code() as u128),
            |key: Key| self.entries@[key.spec_code() as u128].1,
        )
    }
}

/// Whether `list` has each entry of `map` once, in any order, with values that are copies of those
/// in `map`.
pub open spec fn lists_copies<V: Clone>(map: Map<Key, V>, list: Seq<(Key, V)>) -> bool {
    &&& forall|i: int, j: int|
        #![trigger list[i], list[j]]
        0 <= i < j < list.len() ==> list[i].0 != list[j].0
    &&& forall|i: int|
        #![trigger list[i]]
        0 <= i < list.len() ==> map.contains_key(list[i].0) && cloned(map[list[i].0], list[i].1)
    &&& forall|key: Key| #[trigger]
        map.contains_key(key) ==> exists|i: int| 0 <= i < list.len() && (#[trigger] list[i]).0 == key
}

impl<V> HashMap<V> {
    /// Every entry is found under the code of its position.
    pub closed spec fn wf(self) -> bool {
        forall|code: u128| #[trigger]
            self.entries@.contains_key(code) ==> self.entries@[code].0.spec_code() == code
    }

    proof fn entry_of_code(self, code: u128)
        requires
            self.wf(),
            self.entries@.contains_key(code),
        ensures
            self@.contains_key(self.entries@[code].0),
            self@[self.entries@[code].0] == self.entries@[code].1,
            self.entries@[code].0.spec_code() == code,
    {
    }

    proof fn dom_size(self)
        requires
            self.wf(),
        ensures
            self@.dom().finite(),
            self@.dom().len() == self.entries@.dom().len(),
    {
        let codes = self.entries@.dom();
        let key_of = |code: u128| self.entries@[code].0;
        assert(vstd::relations::injective_on(key_of, codes));
        assert forall|key: Key| self@.dom().contains(key) implies codes.map(key_of).contains(key) by {
            key::code_fits(key);
            let code = key.spec_code() as u128;
            key::order_is_code_order(key, key_of(code));
            assert(key_of(code) == key);
        }
        assert(codes.map(key_of) =~= self@.dom());
        vstd::set_lib::lemma_map_size(codes, self@.dom(), key_of);
    }

    /// A table has finitely many entries.
    pub proof fn finite_dom(self)
        requires
            self.wf(),
        ensures
            self@.dom().finite(),
    {
        self.dom_size();
    }

    /// A table without entries, with room for `cap` of them.
    pub fn with_capacity(cap: usize) -> (res: HashMap<V>)
        ensures
            res.wf(),
            res@ == Map::<Key, V>::empty(),
    {
        let res = HashMap { entries: std::collections::HashMap::with_capacity(cap) };
        assert(res@ =~= Map::<Key, V>::empty());
        res
    }

    /// Append every entry to `out`, in no particular order.
    pub fn extend_to(&self, out: &mut Vec<(Key, V)>) where V: Clone
        requires
            self.wf(),
        ensures
            final(out)@.len() == old(out)@.len() + self@.dom().len(),
            final(out)@.take(old(out)@.len() as int) == old(out)@,
            lists_copies(self@, final(out)@.skip(old(out)@.len() as int)),
    {
        let ghost start = out@.len() as int;
        for entry in it: self.entries.iter()
            invariant
                self.wf(),
                it.seq() == vstd::std_specs::iter::IteratorSpec::remaining(
                    &vstd::std_specs::hash::spec_hash_map_iter(&self.entries),
                ),
                it.seq().no_duplicates(),
                start == old(out)@.len(),
                out@.len() == start + it.index(),
                out@.take(start) == old(out)@,
                forall|i: int|
                    #![trigger out@[i]]
                    start <= i < out@.len() ==> out@[i].0 == it.seq()[i - start].1.0 && cloned(
                        it.seq()[i - start].1.1,
                        out@[i].1,
                    ),
        {
            let (_, (key, value)) = entry;
            out.push((*key, value.clone()));
            assert(out@.take(start) =~= old(out)@);
        }
        proof {
            self.dom_size();
            let all = vstd::std_specs::iter::IteratorSpec::remaining(
                    &vstd::std_specs::hash::spec_hash_map_iter(&self.entries),
                );
            let list = out@.skip(start);
            assert forall|i: int| #![trigger list[i]] 0 <= i < list.len() implies self@.contains_key(
                list[i].0,
            ) && cloned(self@[list[i].0], list[i].1) && list[i].0.spec_code() == *all[i].0 by {
                assert(list[i] == out@[start + i]);
                assert(self.entries@.contains_key(*all[i].0));
                self.entry_of_code(*all[i].0);
            }
            assert forall|i: int, j: int| #![trigger list[i], list[j]] 0 <= i < j
                < list.len() implies list[i].0 != list[j].0 by {
                assert(self.entries@[*all[i].0] == *all[i].1);
                assert(self.entries@[*all[j].0] == *all[j].1);
                assert(all[i] != all[j]);
            }
            assert forall|key: Key| #[trigger] self@.contains_key(key) implies exists|i: int|
                0 <= i < list.len() && (#[trigger] list[i]).0 == key by {
                key::code_fits(key);
                let code = key.spec_code() as u128;
                assert(self.entries@.contains_key(code));
                assert(all.contains((&code, &self.entries@[code])));
                let i = choose|i: int|
                    0 <= i < all.len() && all[i] == (&code, &self.entries@[code]);
                key::order_is_code_order(key, list[i].0);
            }
        }
    }

    /// Take the entry at `key` out of the table.
    pub fn remove(&mut self, key: &Key) -> (res: Option<V>)
        requires
            old(self).wf(),
        ensures
            final(self).wf(),
            final(self)@ == old(self)@.remove(*key),
            res == (if old(self)@.contains_key(*key) {
                Some(old(self)@[*key])
            } else {
                None
            }),
    {
        proof {
            key::code_fits(*key);
        }
        let res = match self.entries.remove(&key.code()) {
            Some((_, value)) => Some(value),
            None => None,
        };
        proof {
            assert forall|k: Key| k != *key implies k.spec_code() as u128 != key.spec_code() as u128 by {
                key::code_fits(k);
                key::order_is_code_order(k, *key);
            }
            assert(self@ =~= old(self)@.remove(*key));
        }
        res
    }

    /// What `cb` makes of the value at `key`, if there is one.
    pub fn get<T, F: FnOnce(&V) -> T>(&self, key: &Key, cb: F) -> (res: Option<T>)
        requires
            self.wf(),
            self@.contains_key(*key) ==> cb.requires((&self@[*key],)),
        ensures
            match res {
                Some(t) => self@.contains_key(*key) && cb.ensures((&self@[*key],), t),
                None => !self@.contains_key(*key),
            },
    {
        proof {
            key::code_fits(*key);
        }
        match self.entries.get(&key.code()) {
            Some((_, value)) => Some(cb(value)),
            None => None,
        }
    }

    /// Let `cb` change the value at `key`, if there is one.
    pub fn get_mut<T, F: FnOnce(&mut V) -> T>(&mut self, key: &Key, cb: F) -> (res: Option<T>)
        requires
            old(self).wf(),
            forall|value: &mut V|
                old(self)@.contains_key(*key) && *value == old(self)@[*key]
                    ==> #[trigger] cb.requires((value,)),
        ensures
            final(self).wf(),
            res is Some <==> old(self)@.contains_key(*key),
            res is Some ==> exists|value: &mut V, t: T|
                *value == old(self)@[*key] && *final(value) == final(self)@[*key] && res == Some(t)
                    && #[trigger] cb.ensures((value,), t),
            res is Some ==> final(self)@ == old(self)@.insert(*key, final(self)@[*key]),
            res is None ==> final(self)@ == old(self)@,
    {
        proof {
            key::code_fits(*key);
        }
        match self.entries.entry(key.code()) {
            std::collections::hash_map::Entry::Occupied(entry) => {
                let res = cb(&mut entry.into_mut().1);
                proof {
                    assert forall|k: Key| k != *key implies k.spec_code() as u128
                        != key.spec_code() as u128 by {
                        key::code_fits(k);
                        key::order_is_code_order(k, *key);
                    }
                    assert(self@ =~= old(self)@.insert(*key, self@[*key]));
                }
                Some(res)
            },
            std::collections::hash_map::Entry::Vacant(_) => {
                assert(self@ =~= old(self)@);
                None
            },
        }
    }

    /// Put `value` at `key`, in place of what was there.
    pub fn insert(&mut self, key: Key, value: V)
        requires
            old(self).wf(),
        ensures
            final(self).wf(),
            final(self)@ == old(self)@.insert(key, value),
    {
        proof {
            key::code_fits(key);
        }
        let _ = self.entries.insert(key.code(), (key, value));
        proof {
            assert forall|k: Key| k != key implies k.spec_code() as u128 != key.spec_code() as u128 by {
                key::code_fits(k);
                key::order_is_code_order(k, key);
            }
            assert(self@ =~= old(self)@.insert(key, value));
        }
    }

    /// The number of entries.
    pub fn len(&self) -> (res: usize)
        requires
            self.wf(),
        ensures
            self@.dom().finite(),
            res == self@.dom().len(),
    {
        proof {
            self.dom_size();
        }
        self.entries.len()
    }

    /// Whether there is an entry at `key`.
    pub fn contains_key(&self, key: &Key) -> (res: bool)
        ensures
            res == self@.contains_key(*key),
    {
        proof {
            key::code_fits(*key);
        }
        self.entries.contains_key(&key.code())
    }
}

impl<V: Clone> Clone for HashMap<V> {
    fn clone(&self) -> (res: HashMap<V>)
        ensures
            self.wf() ==> res.wf(),
            self.wf() ==> res@.dom() == self@.dom(),
            self.wf() ==> forall|key: Key| #[trigger]
                self@.contains_key(key) ==> cloned(self@[key], res@[key]),
    {
        let mut entries: std::collections::HashMap<u128, (Key, V)> = std::collections::HashMap::new();
        for entry in it: self.entries.iter()
            invariant
                it.seq() == vstd::std_specs::iter::IteratorSpec::remaining(
                    &vstd::std_specs::hash::spec_hash_map_iter(&self.entries),
                ),
                forall|code: u128| #[trigger] entries@.contains_key(code) ==> {
                    &&& self.entries@.contains_key(code)
                    &&& entries@[code].0 == self.entries@[code].0
                    &&& cloned(self.entries@[code].1, entries@[code].1)
                },
                forall|i: int|
                    #![trigger it.seq()[i]]
                    0 <= i < it.index() ==> entries@.contains_key(*it.seq()[i].0),
        {
            let (code, (key, value)) = entry;
            assert(self.entries@.contains_key(*code));
            let _ = entries.insert(*code, (*key, value.clone()));
        }
        let res = HashMap { entries };
        proof {
            let all = vstd::std_specs::iter::IteratorSpec::remaining(
                    &vstd::std_specs::hash::spec_hash_map_iter(&self.entries),
                );
            assert forall|code: u128| #[trigger]
                self.entries@.contains_key(code) implies res.entries@.contains_key(code) by {
                assert(all.contains((&code, &self.entries@[code])));
                let i = choose|i: int|
                    0 <= i < all.len() && all[i] == (&code, &self.entries@[code]);
                assert(res.entries@.contains_key(*all[i].0));
            }
            assert(res@.dom() =~= self@.dom());
        }
        res
    }
}

/// Whether the positions in `list` are in hierarchy order, none occurring twice.
pub open spec fn in_order<V>(list: Seq<(Key, V)>) -> bool {
    forall|i: int, j: int|
        #![trigger list[i], list[j]]
        0 <= i < j < list.len() ==> list[i].0.before(list[j].0)
}

/// Whether no position occurs twice in `list`.
pub open spec fn distinct_keys<V>(list: Seq<(Key, V)>) -> bool {
    forall|i: int, j: int|
        #![trigger list[i], list[j]]
        0 <= i < j < list.len() ==> list[i].0 != list[j].0
}

/// Where in an ordered list an entry at `key` belongs.
fn place_of<V>(list: &Vec<(Key, V)>, key: &Key) -> (res: usize)
    requires
        in_order(list@),
        forall|i: int| 0 <= i < list@.len() ==> (#[trigger] list@[i]).0 != *key,
    ensures
        res <= list@.len(),
        forall|i: int| 0 <= i < res ==> (#[trigger] list@[i]).0.before(*key),
        forall|i: int| res <= i < list@.len() ==> key.before((#[trigger] list@[i]).0),
{
    let code = key.code();
    let mut low: usize = 0;
    let mut high: usize = list.len();
    while low < high
        invariant
            in_order(list@),
            forall|i: int| 0 <= i < list@.len() ==> (#[trigger] list@[i]).0 != *key,
            code == key.spec_code(),
            low <= high <= list@.len(),
            forall|i: int| 0 <= i < low ==> (#[trigger] list@[i]).0.before(*key),
            forall|i: int| high <= i < list@.len() ==> key.before((#[trigger] list@[i]).0),
        decreases high - low,
    {
        let middle: usize = low + (high - low) / 2;
        let ghost pivot = list@[middle as int].0;
        proof {
            key::order_is_code_order(pivot, *key);
            key::order_is_code_order(*key, pivot);
            assert forall|i: int| 0 <= i < middle implies (#[trigger] list@[i]).0.spec_code()
                < pivot.spec_code() by {
                key::order_is_code_order(list@[i].0, pivot);
            }
            assert forall|i: int| middle < i < list@.len() implies pivot.spec_code() < (
            #[trigger] list@[i]).0.spec_code() by {
                key::order_is_code_order(pivot, list@[i].0);
            }
            assert forall|i: int| 0 <= i < list@.len() implies (#[trigger] list@[i]).0.before(*key)
                == (list@[i].0.spec_code() < key.spec_code()) && key.before(list@[i].0) == (
            key.spec_code() < list@[i].0.spec_code()) by {
                key::order_is_code_order(list@[i].0, *key);
                key::order_is_code_order(*key, list@[i].0);
            }
        }
        if list[middle].0.code() < code {
            low = middle + 1;
        } else {
            high = middle;
        }
    }
    low
}

/// Bring entries into hierarchy order.
pub fn sort_entries<V>(entries: Vec<(Key, V)>) -> (res: Vec<(Key, V)>)
    requires
        distinct_keys(entries@),
    ensures
        in_order(res@),
        res@.len() == entries@.len(),
        forall|entry: (Key, V)| res@.contains(entry) <==> entries@.contains(entry),
{
    let mut entries = entries;
    let ghost all = entries@;
    let mut res: Vec<(Key, V)> = Vec::new();
    while entries.len() > 0
        invariant
            distinct_keys(all),
            in_order(res@),
            entries@.len() <= all.len(),
            entries@ == all.take(entries@.len() as int),
            res@.len() == all.len() - entries@.len(),
            forall|entry: (Key, V)| #[trigger]
                res@.contains(entry) <==> all.skip(entries@.len() as int).contains(entry),
        decreases entries@.len(),
    {
        let entry = match entries.pop() {
            Some(entry) => entry,
            None => return res,
        };
        let ghost n = entries@.len() as int;
        proof {
            assert(entries@ =~= all.take(n));
            assert(entry == all[n]);
            let rest = all.skip(n + 1);
            assert forall|i: int| 0 <= i < res@.len() implies (#[trigger] res@[i]).0 != entry.0 by {
                assert(res@.contains(res@[i]));
                let j = choose|j: int| 0 <= j < rest.len() && rest[j] == res@[i];
                assert(all[n + 1 + j] == res@[i]);
            }
        }
        let place = place_of(&res, &entry.0);
        let ghost before = res@;
        res.insert(place, entry);
        proof {
            assert forall|i: int, j: int| #![trigger res@[i], res@[j]] 0 <= i < j
                < res@.len() implies res@[i].0.before(res@[j].0) by {
                let a = if i < place { i } else { i - 1 };
                let b = if j < place { j } else { j - 1 };
                if i != place {
                    assert(res@[i] == before[a]);
                }
                if j != place {
                    assert(res@[j] == before[b]);
                }
            }
            assert forall|e: (Key, V)| #[trigger] res@.contains(e) <==> all.skip(n).contains(e) by {
                let rest = all.skip(n + 1);
                assert(all.skip(n) =~= seq![entry] + rest);
                if before.contains(e) {
                    let i = choose|i: int| 0 <= i < before.len() && before[i] == e;
                    assert(res@[if i < place { i } else { i + 1 }] == e);
                }
                if e == entry {
                    assert(res@[place as int] == e);
                    assert(all.skip(n)[0] == e);
                }
                if rest.contains(e) {
                    let i = choose|i: int| 0 <= i < rest.len() && rest[i] == e;
                    assert(all.skip(n)[i + 1] == e);
                }
                if res@.contains(e) {
                    let i = choose|i: int| 0 <= i < res@.len() && res@[i] == e;
                    if i != place {
                        assert(before[if i < place { i } else { i - 1 }] == e);
                    }
                }
                let tail = all.skip(n);
                if tail.contains(e) {
                    let i = choose|i: int| 0 <= i < tail.len() && tail[i] == e;
                    if i > 0 {
                        assert(rest[i - 1] == e);
                    }
                }
            }
        }
    }
    assert(all.skip(0) =~= all);
    res
}

} // verus!
