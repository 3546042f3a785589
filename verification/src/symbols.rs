//! Names and the descriptions of what a name can stand for, and the table
//! that keeps such descriptions by name.

use vstd::prelude::*;
use crate::text::{chars_of, lower, same_chars, string_of, to_lower};
use self::name::Name;

pub mod datatype;
pub mod metadata;
pub mod name;

verus! {

/// Whether no two of the keys are the same.
pub open spec fn distinct_keys(keys: Seq<Vec<char>>) -> bool {
    forall|i: int, j: int| 0 <= i < j < keys.len() ==> (#[trigger] keys[i])@ != (#[trigger] keys[j])@
}

/// The index at which `key` stands among the keys; `-1` if it does not.
pub open spec fn key_index(keys: Seq<Vec<char>>, key: Seq<char>) -> int
    decreases keys.len(),
{
    if keys.len() == 0 {
        -1
    } else if keys.last()@ == key {
        keys.len() - 1
    } else {
        key_index(keys.drop_last(), key)
    }
}

pub proof fn lemma_key_index(keys: Seq<Vec<char>>, key: Seq<char>)
    ensures
        -1 <= key_index(keys, key) < keys.len(),
        key_index(keys, key) >= 0 ==> keys[key_index(keys, key)]@ == key,
        key_index(keys, key) == -1 ==> forall|i: int| 0 <= i < keys.len() ==> (#[trigger] keys[i])@ != key,
    decreases keys.len(),
{
    if keys.len() > 0 && keys.last()@ != key {
        lemma_key_index(keys.drop_last(), key);
        assert forall|i: int| 0 <= i < keys.len() && key_index(keys, key) == -1 implies (
        #[trigger] keys[i])@ != key by {
            if i < keys.len() - 1 {
                assert(keys.drop_last()[i] == keys[i]);
            }
        }
    }
}

pub proof fn lemma_key_index_unique(keys: Seq<Vec<char>>, key: Seq<char>, i: int)
    requires
        distinct_keys(keys),
        0 <= i < keys.len(),
        keys[i]@ == key,
    ensures
        key_index(keys, key) == i,
{
    lemma_key_index(keys, key);
}

/// A table of items kept by name. Names that differ only in the case of
/// their letters are the same name; the table keeps at most one item for each.
pub struct SymbolTable<T> {
    keys: Vec<Vec<char>>,
    items: Vec<T>,
}

impl<T> SymbolTable<T> {
    /// The keys, in the order in which they came.
    pub closed spec fn keys(&self) -> Seq<Vec<char>> {
        self.keys@
    }

    /// The items, each at the index of its key.
    pub closed spec fn items(&self) -> Seq<T> {
        self.items@
    }

    /// The invariant: one item for each key, every key in lower case, no key twice.
    pub open spec fn wf(&self) -> bool {
        &&& self.keys().len() == self.items().len()
        &&& distinct_keys(self.keys())
        &&& forall|i: int| 0 <= i < self.keys().len() ==> lower((#[trigger] self.keys()[i])@) == self.keys()[i]@
    }

    /// Whether the table has an item for `name`.
    pub open spec fn has(&self, name: Seq<char>) -> bool {
        key_index(self.keys(), lower(name)) >= 0
    }

    /// The item the table has for `name`.
    pub open spec fn item(&self, name: Seq<char>) -> T
        recommends
            self.has(name),
    {
        self.items()[key_index(self.keys(), lower(name))]
    }

    /// Where an item of the table came from when a name was added to
    /// another table to make this one: it is the item that was added, or
    /// an item of the other table.
    pub proof fn lemma_item_origin(&self, before: &SymbolTable<T>, name: Seq<char>, i: int)
        requires
            before.wf(),
            self.wf(),
            0 <= i < self.items().len(),
            self.has(name),
            before.has(name) ==> self.keys() == before.keys(),
            !before.has(name) ==> self.keys().len() == before.keys().len() + 1 && self.keys().drop_last()
                == before.keys(),
            forall|other: Seq<char>|
                lower(other) != lower(name) ==> self.has(other) == before.has(other) && (before.has(other)
                    ==> self.item(other) == before.item(other)),
        ensures
            self.items()[i] == self.item(name) || exists|j: int|
                0 <= j < before.items().len() && self.items()[i] == #[trigger] before.items()[j],
    {
        let key = self.keys()[i]@;
        lemma_key_index_unique(self.keys(), key, i);
        lemma_lower_twice(key);
        assert(lower(key) == key);
        if key != lower(name) {
            assert(self.has(key));
            assert(before.has(key));
            lemma_key_index(before.keys(), key);
            let j = key_index(before.keys(), key);
            assert(self.item(key) == before.item(key));
            assert(self.items()[i] == before.items()[j]);
        } else {
            assert(self.items()[i] == self.item(name));
        }
    }

    pub fn new() -> (r: SymbolTable<T>)
        ensures
            r.wf(),
            r.keys().len() == 0,
            forall|name: Seq<char>| !r.has(name),
    {
        SymbolTable { keys: Vec::new(), items: Vec::new() }
    }

    /// How many items the table has.
    pub fn len(&self) -> (r: usize)
        requires
            self.wf(),
        ensures
            r == self.keys().len(),
    {
        self.keys.len()
    }

    /// The index of the item for the key, if the table has one.
    fn find(&self, key: &Vec<char>) -> (r: Option<usize>)
        requires
            self.wf(),
        ensures
            match r {
                Some(i) => i == key_index(self.keys(), key@) && i < self.keys().len(),
                None => key_index(self.keys(), key@) == -1,
            },
    {
        let mut i: usize = 0;
        while i < self.keys.len()
            invariant
                i <= self.keys.len(),
                self.wf(),
                forall|k: int| 0 <= k < i ==> (#[trigger] self.keys()[k])@ != key@,
            decreases self.keys.len() - i,
        {
            if same_chars(&self.keys[i], key) {
                proof {
                    lemma_key_index_unique(self.keys(), key@, i as int);
                }
                return Some(i);
            }
            i += 1;
        }
        proof {
            lemma_key_index(self.keys(), key@);
        }
        None
    }

    /// The index of the item for `name`, if the table has one.
    pub fn index_of(&self, name: &str) -> (r: Option<usize>)
        requires
            self.wf(),
        ensures
            match r {
                Some(i) => self.has(name@) && i == key_index(self.keys(), lower(name@)) && i
                    < self.keys().len(),
                None => !self.has(name@),
            },
    {
        let key = to_lower(&chars_of(name));
        self.find(&key)
    }

    /// The item at an index of the table.
    pub fn at(&self, i: usize) -> (r: &T)
        requires
            self.wf(),
            i < self.keys().len(),
        ensures
            *r == self.items()[i as int],
    {
        &self.items[i]
    }

    /// Puts `item` in place of the item at an index of the table.
    pub fn set_at(&mut self, i: usize, item: T)
        requires
            old(self).wf(),
            i < old(self).keys().len(),
        ensures
            final(self).wf(),
            final(self).keys() == old(self).keys(),
            final(self).items() == old(self).items().update(i as int, item),
    {
        self.items.set(i, item);
    }

    /// Puts `item` in place of the item at an index of the table, and
    /// hands back the item that was there.
    pub fn exchange_at(&mut self, i: usize, item: T) -> (r: T)
        requires
            old(self).wf(),
            i < old(self).keys().len(),
        ensures
            final(self).wf(),
            final(self).keys() == old(self).keys(),
            final(self).items() == old(self).items().update(i as int, item),
            r == old(self).items()[i as int],
    {
        self.items.push(item);
        let r = self.items.swap_remove(i);
        assert(self.items@ =~= old(self).items@.update(i as int, item));
        r
    }

    /// Puts `item` into the table under `name`, in place of the item the
    /// table had for that name, if it had one.
    pub fn add(&mut self, name: Name, item: T)
        requires
            old(self).wf(),
        ensures
            final(self).wf(),
            final(self).has(name@),
            final(self).item(name@) == item,
            forall|other: Seq<char>|
                lower(other) != lower(name@) ==> final(self).has(other) == old(self).has(other)
                    && (old(self).has(other) ==> final(self).item(other) == old(self).item(other)),
            old(self).has(name@) ==> final(self).keys() == old(self).keys(),
            !old(self).has(name@) ==> final(self).keys().len() == old(self).keys().len() + 1
                && final(self).keys().drop_last() == old(self).keys(),
    {
        let key = name.as_key();
        proof {
            lemma_lower_twice(name@);
        }
        match self.find(&key) {
            Some(i) => {
                self.items.set(i, item);
                proof {
                    assert forall|other: Seq<char>| lower(other) != lower(name@) implies self.has(
                        other,
                    ) == old(self).has(other) && (old(self).has(other) ==> self.item(other) == old(self).item(other)) by {
                        lemma_key_index(self.keys@, lower(other));
                        lemma_key_index(self.keys@, key@);
                        let idx = key_index(self.keys@, lower(other));
                        if idx >= 0 {
                            assert(idx != i);
                            assert(self.items@[idx] == old(self).items@[idx]);
                        }
                    }
                }
            },
            None => {
                let ghost before = self.keys@;
                self.keys.push(key);
                self.items.push(item);
                proof {
                    assert(self.keys@.drop_last() =~= before);
                    assert forall|other: Seq<char>| lower(other) != lower(name@) implies self.has(
                        other,
                    ) == old(self).has(other) && (old(self).has(other) ==> self.item(other) == old(self).item(other)) by {
                        lemma_key_index(before, lower(other));
                        assert(key_index(self.keys@, lower(other)) == key_index(before, lower(other)));
                    }
                    lemma_key_index(before, key@);
                    assert(key_index(self.keys@, key@) == before.len());
                }
            },
        }
    }

    pub fn clear(&mut self)
        ensures
            final(self).wf(),
            final(self).keys().len() == 0,
            forall|name: Seq<char>| !final(self).has(name),
    {
        self.keys.clear();
        self.items.clear();
    }

    pub fn contains_any(&self, name: &str) -> (r: bool)
        requires
            self.wf(),
        ensures
            r == self.has(name@),
    {
        self.index_of(name).is_some()
    }

    /// The names in the table, in lower case, in the order in which they came.
    pub fn get_all_names(&self) -> (names: Vec<String>)
        requires
            self.wf(),
        ensures
            names@.len() == self.keys().len(),
            forall|i: int| 0 <= i < names@.len() ==> (#[trigger] names@[i])@ == self.keys()[i]@,
    {
        let mut names: Vec<String> = Vec::new();
        let mut i: usize = 0;
        while i < self.keys.len()
            invariant
                i <= self.keys.len(),
                names@.len() == i,
                forall|k: int| 0 <= k < i ==> (#[trigger] names@[k])@ == self.keys()[k]@,
            decreases self.keys.len() - i,
        {
            names.push(string_of(&self.keys[i]));
            i += 1;
        }
        names
    }

    /// Takes the item for `name` out of the table, if it has one. The
    /// other items keep their order.
    pub fn remove(&mut self, name: &str)
        requires
            old(self).wf(),
        ensures
            final(self).wf(),
            !final(self).has(name@),
            forall|other: Seq<char>|
                lower(other) != lower(name@) ==> final(self).has(other) == old(self).has(other)
                    && (old(self).has(other) ==> final(self).item(other) == old(self).item(other)),
            forall|k: int|
                0 <= k < final(self).items().len() ==> old(self).items().contains(#[trigger] final(self).items()[k]),
            old(self).has(name@) ==> final(self).keys() == old(self).keys().remove(
                key_index(old(self).keys(), lower(name@)),
            ) && final(self).items() == old(self).items().remove(key_index(old(self).keys(), lower(name@))),
            !old(self).has(name@) ==> final(self).keys() == old(self).keys() && final(self).items() == old(self).items(),
    {
        let key = to_lower(&chars_of(name));
        match self.find(&key) {
            Some(i) => {
                let ghost before = self.keys@;
                let ghost items_before = self.items@;
                self.keys.remove(i);
                self.items.remove(i);
                proof {
                    assert forall|k: int| 0 <= k < self.items@.len() implies items_before.contains(
                        #[trigger] self.items@[k],
                    ) by {
                        assert(self.items@ == items_before.remove(i as int));
                        let j = if k < i {
                            k
                        } else {
                            k + 1
                        };
                        assert(items_before[j] == self.items@[k]);
                    }
                    let after = self.keys@;
                    lemma_key_index(before, key@);
                    assert(after.len() == before.len() - 1);
                    assert forall|k: int| 0 <= k < after.len() implies #[trigger] after[k] == before[if k
                        < i {
                        k
                    } else {
                        k + 1
                    }] && self.items@[k] == items_before[if k < i {
                        k
                    } else {
                        k + 1
                    }] by {
                        assert(after == before.remove(i as int));
                        assert(self.items@ == items_before.remove(i as int));
                    }
                    assert forall|a: int, b: int| 0 <= a < b < after.len() implies (
                    #[trigger] after[a])@ != (#[trigger] after[b])@ by {
                        let a0 = if a < i {
                            a
                        } else {
                            a + 1
                        };
                        let b0 = if b < i {
                            b
                        } else {
                            b + 1
                        };
                        assert(after[a] == before[a0] && after[b] == before[b0]);
                    }
                    assert forall|k: int| 0 <= k < after.len() implies lower((#[trigger] after[k])@)
                        == after[k]@ by {
                        let k0 = if k < i {
                            k
                        } else {
                            k + 1
                        };
                        assert(after[k] == before[k0]);
                    }
                    lemma_key_index(after, key@);
                    if key_index(after, key@) >= 0 {
                        let k = key_index(after, key@);
                        let k0 = if k < i {
                            k
                        } else {
                            k + 1
                        };
                        assert(after[k] == before[k0]);
                    }
                    assert forall|other: Seq<char>| lower(other) != lower(name@) implies self.has(
                        other,
                    ) == old(self).has(other) && (old(self).has(other) ==> self.item(other) == old(self).item(other)) by {
                        let o = lower(other);
                        lemma_key_index(before, o);
                        lemma_key_index(after, o);
                        if key_index(before, o) >= 0 {
                            let k0 = key_index(before, o);
                            let k = if k0 < i {
                                k0
                            } else {
                                k0 - 1
                            };
                            assert(after[k] == before[k0]);
                            lemma_key_index_unique(after, o, k);
                            assert(self.items@[k] == items_before[k0]);
                        } else if key_index(after, o) >= 0 {
                            let k = key_index(after, o);
                            let k0 = if k < i {
                                k
                            } else {
                                k + 1
                            };
                            assert(after[k] == before[k0]);
                        }
                    }
                }
            },
            None => {},
        }
    }

    pub fn try_get(&self, name: &str) -> (r: Option<&T>)
        requires
            self.wf(),
        ensures
            match r {
                Some(item) => self.has(name@) && *item == self.item(name@),
                None => !self.has(name@),
            },
    {
        match self.index_of(name) {
            Some(i) => Some(&self.items[i]),
            None => None,
        }
    }
}

/// The lower-case form of a text is its own lower-case form.
pub proof fn lemma_lower_twice(s: Seq<char>)
    ensures
        lower(lower(s)) == lower(s),
{
    assert(lower(lower(s)) =~= lower(s));
}

} // verus!
