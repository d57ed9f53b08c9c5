//! Lists whose items are found by a text key that occurs at most once.

use vstd::prelude::*;

use crate::text::same;

verus! {

/// An item that carries its own key.
pub trait Keyed: Sized {
    /// The key.
    spec fn key(self) -> Seq<char>;

    /// The key.
    fn key_text(&self) -> (r: &str)
        ensures
            r@ == self.key(),
    ;
}

impl Keyed for String {
    open spec fn key(self) -> Seq<char> {
        self@
    }

    fn key_text(&self) -> &str {
        self.as_str()
    }
}

/// No two items have the same key.
pub open spec fn keys_distinct<T: Keyed>(s: Seq<T>) -> bool {
    forall|i: int, j: int| 0 <= i < j < s.len() ==> #[trigger] s[i].key() != #[trigger] s[j].key()
}

/// The index of the first item with key `k`.
pub open spec fn index_of_key<T: Keyed>(s: Seq<T>, k: Seq<char>) -> Option<int>
    decreases s.len(),
{
    if s.len() == 0 {
        None
    } else {
        match index_of_key(s.drop_last(), k) {
            Some(i) => Some(i),
            None => if s.last().key() == k {
                Some(s.len() - 1)
            } else {
                None
            },
        }
    }
}

/// The item with key `k`.
pub open spec fn lookup<T: Keyed>(s: Seq<T>, k: Seq<char>) -> Option<T> {
    match index_of_key(s, k) {
        Some(i) => Some(s[i]),
        None => None,
    }
}

/// Some item has key `k`.
pub open spec fn has_key<T: Keyed>(s: Seq<T>, k: Seq<char>) -> bool {
    index_of_key(s, k) is Some
}

/// `s` with `item` in it: in the place of the item with its key, or at the end.
pub open spec fn inserted<T: Keyed>(s: Seq<T>, item: T) -> Seq<T> {
    match index_of_key(s, item.key()) {
        Some(i) => s.update(i, item),
        None => s.push(item),
    }
}

/// `s` without the item with key `k`.
pub open spec fn removed<T: Keyed>(s: Seq<T>, k: Seq<char>) -> Seq<T> {
    match index_of_key(s, k) {
        Some(i) => s.remove(i),
        None => s,
    }
}

/// `index_of_key` gives the first place, and none only where there is none.
pub proof fn lemma_index_of_key<T: Keyed>(s: Seq<T>, k: Seq<char>)
    ensures
        match index_of_key(s, k) {
            Some(i) => 0 <= i < s.len() && s[i].key() == k && forall|j: int|
                0 <= j < i ==> (#[trigger] s[j]).key() != k,
            None => forall|j: int| 0 <= j < s.len() ==> (#[trigger] s[j]).key() != k,
        },
    decreases s.len(),
{
    if s.len() > 0 {
        let t = s.drop_last();
        lemma_index_of_key(t, k);
        assert forall|j: int| 0 <= j < t.len() implies #[trigger] s[j] == t[j] by {}
    }
}

/// A place that holds the key, with none before it, is what `index_of_key`
/// gives.
pub proof fn lemma_index_is<T: Keyed>(s: Seq<T>, k: Seq<char>, i: int)
    requires
        0 <= i < s.len(),
        s[i].key() == k,
        forall|j: int| 0 <= j < i ==> (#[trigger] s[j]).key() != k,
    ensures
        index_of_key(s, k) == Some(i),
{
    lemma_index_of_key(s, k);
    match index_of_key(s, k) {
        Some(m) => {
            if m < i {
                assert(s[m].key() != k);
            } else if i < m {
                assert(s[i].key() != k);
            }
        },
        None => {
            assert(s[i].key() != k);
        },
    }
}

/// What an insertion does: the item is found under its key, and every other key
/// finds what it found before.
pub proof fn lemma_insert_lookup<T: Keyed>(s: Seq<T>, item: T, k: Seq<char>)
    requires
        keys_distinct(s),
    ensures
        keys_distinct(inserted(s, item)),
        lookup(inserted(s, item), item.key()) == Some(item),
        k != item.key() ==> lookup(inserted(s, item), k) == lookup(s, k),
{
    let t = inserted(s, item);
    lemma_index_of_key(s, item.key());
    lemma_index_of_key(s, k);
    lemma_index_of_key(t, k);
    match index_of_key(s, item.key()) {
        Some(i) => {
            assert forall|j: int| 0 <= j < i implies (#[trigger] t[j]).key() != item.key() by {
                assert(t[j] == s[j]);
            }
            lemma_index_is(t, item.key(), i);
            assert forall|a: int, b: int| 0 <= a < b < t.len() implies #[trigger] t[a].key()
                != #[trigger] t[b].key() by {
                if a != i && b != i {
                    assert(t[a] == s[a] && t[b] == s[b]);
                } else if a == i {
                    assert(t[b] == s[b]);
                    assert(s[a].key() != s[b].key());
                } else {
                    assert(t[a] == s[a]);
                    assert(s[a].key() != s[b].key());
                }
            }
            if k != item.key() {
                match index_of_key(s, k) {
                    Some(m) => {
                        assert forall|j: int| 0 <= j < m implies (#[trigger] t[j]).key() != k by {
                            if j != i {
                                assert(t[j] == s[j]);
                            }
                        }
                        lemma_index_is(t, k, m);
                    },
                    None => {
                        match index_of_key(t, k) {
                            Some(m) => {
                                if m != i {
                                    assert(t[m] == s[m]);
                                }
                            },
                            None => {},
                        }
                    },
                }
            }
        },
        None => {
            let n = s.len() as int;
            assert forall|j: int| 0 <= j < n implies (#[trigger] t[j]).key() != item.key() by {
                assert(t[j] == s[j]);
            }
            lemma_index_is(t, item.key(), n);
            assert forall|a: int, b: int| 0 <= a < b < t.len() implies #[trigger] t[a].key()
                != #[trigger] t[b].key() by {
                if b < n {
                    assert(t[a] == s[a] && t[b] == s[b]);
                }
            }
            if k != item.key() {
                assert(t.drop_last() == s);
            }
        },
    }
}

/// What a removal does: the key finds nothing any more, and every other key
/// finds what it found before.
pub proof fn lemma_remove_lookup<T: Keyed>(s: Seq<T>, gone: Seq<char>, k: Seq<char>)
    requires
        keys_distinct(s),
    ensures
        keys_distinct(removed(s, gone)),
        lookup(removed(s, gone), gone) is None,
        k != gone ==> lookup(removed(s, gone), k) == lookup(s, k),
{
    let t = removed(s, gone);
    lemma_index_of_key(s, gone);
    lemma_index_of_key(s, k);
    lemma_index_of_key(t, k);
    lemma_index_of_key(t, gone);
    match index_of_key(s, gone) {
        Some(i) => {
            assert forall|j: int| 0 <= j < t.len() implies #[trigger] t[j] == s[if j < i {
                j
            } else {
                j + 1
            }] by {}
            assert forall|a: int, b: int| 0 <= a < b < t.len() implies #[trigger] t[a].key()
                != #[trigger] t[b].key() by {
                let x = if a < i {
                    a
                } else {
                    a + 1
                };
                let y = if b < i {
                    b
                } else {
                    b + 1
                };
                assert(s[x].key() != s[y].key());
            }
            match index_of_key(t, gone) {
                Some(m) => {
                    let x = if m < i {
                        m
                    } else {
                        m + 1
                    };
                    assert(s[x].key() == gone);
                    if x < i {
                        assert(s[x].key() != s[i].key());
                    } else {
                        assert(s[i].key() != s[x].key());
                    }
                },
                None => {},
            }
            if k != gone {
                match index_of_key(s, k) {
                    Some(m) => {
                        let y = if m < i {
                            m
                        } else {
                            m - 1
                        };
                        assert(t[y] == s[m]);
                        assert forall|j: int| 0 <= j < y implies (#[trigger] t[j]).key() != k by {
                            let x = if j < i {
                                j
                            } else {
                                j + 1
                            };
                            assert(t[j] == s[x]);
                            assert(s[x].key() != k);
                        }
                        lemma_index_is(t, k, y);
                    },
                    None => {
                        match index_of_key(t, k) {
                            Some(m) => {
                                let x = if m < i {
                                    m
                                } else {
                                    m + 1
                                };
                                assert(s[x].key() == k);
                            },
                            None => {},
                        }
                    },
                }
            }
        },
        None => {},
    }
}

/// The items in order, each in the place of an earlier one with its key.
pub open spec fn gathered<T: Keyed>(s: Seq<T>) -> Seq<T>
    decreases s.len(),
{
    if s.len() == 0 {
        s
    } else {
        inserted(gathered(s.drop_last()), s.last())
    }
}

/// A list whose items are found by their keys. What came first stays first.
pub struct KeyedList<T: Keyed> {
    items: Vec<T>,
}

impl<T: Keyed> View for KeyedList<T> {
    type V = Seq<T>;

    closed spec fn view(&self) -> Seq<T> {
        self.items@
    }
}

impl<T: Keyed> KeyedList<T> {
    #[verifier::type_invariant]
    spec fn wf(self) -> bool {
        keys_distinct(self.items@)
    }

    /// An empty list.
    pub fn new() -> (r: Self)
        ensures
            r@ == Seq::<T>::empty(),
            keys_distinct(r@),
    {
        KeyedList { items: Vec::new() }
    }

    /// The list of these items, each in the place of an earlier one with its key.
    pub fn from_items(items: Vec<T>) -> (r: Self)
        ensures
            r@ == gathered(items@),
            keys_distinct(r@),
    {
        let ghost all = items@;
        let mut rest = items;
        let mut r: KeyedList<T> = KeyedList::new();
        let ghost mut n: int = 0;
        assert(all.take(0) == Seq::<T>::empty());
        assert(all.skip(0) == all);
        while rest.len() > 0
            invariant
                0 <= n <= all.len(),
                rest@ == all.skip(n),
                r@ == gathered(all.take(n)),
                keys_distinct(r@),
            decreases rest.len(),
        {
            let x = rest.remove(0);
            proof {
                assert(x == all[n]);
                assert(rest@ == all.skip(n + 1));
                assert(all.take(n + 1).drop_last() == all.take(n));
            }
            r.insert(x);
            proof {
                n = n + 1;
            }
        }
        assert(all.take(n) == all);
        r
    }

    /// How many items there are.
    pub fn len(&self) -> (r: usize)
        ensures
            r == self@.len(),
            keys_distinct(self@),
    {
        proof {
            use_type_invariant(self);
        }
        self.items.len()
    }

    /// The item at index `i`.
    pub fn at(&self, i: usize) -> (r: &T)
        requires
            i < self@.len(),
        ensures
            *r == self@[i as int],
    {
        &self.items[i]
    }

    /// The index of the item with key `k`.
    pub fn position(&self, k: &str) -> (r: Option<usize>)
        ensures
            match r {
                Some(i) => index_of_key(self@, k@) == Some(i as int) && i < self@.len(),
                None => index_of_key(self@, k@) is None,
            },
    {
        let mut i: usize = 0;
        while i < self.items.len()
            invariant
                i <= self.items@.len(),
                forall|j: int| 0 <= j < i ==> (#[trigger] self.items@[j]).key() != k@,
            decreases self.items.len() - i,
        {
            if same(self.items[i].key_text(), k) {
                proof {
                    lemma_index_is(self.items@, k@, i as int);
                }
                return Some(i);
            }
            i = i + 1;
        }
        proof {
            lemma_index_of_key(self.items@, k@);
        }
        None
    }

    /// Whether some item has key `k`.
    pub fn contains(&self, k: &str) -> (r: bool)
        ensures
            r == has_key(self@, k@),
    {
        self.position(k).is_some()
    }

    /// The item with key `k`.
    pub fn get(&self, k: &str) -> (r: Option<&T>)
        ensures
            match r {
                Some(t) => lookup(self@, k@) == Some(*t),
                None => lookup(self@, k@) is None,
            },
    {
        match self.position(k) {
            Some(i) => Some(&self.items[i]),
            None => None,
        }
    }

    /// Adds `item`, in the place of the item with its key if there is one.
    pub fn insert(&mut self, item: T)
        ensures
            final(self)@ == inserted(old(self)@, item),
            keys_distinct(final(self)@),
    {
        proof {
            use_type_invariant(&*self);
            lemma_insert_lookup(self.items@, item, item.key());
        }
        let at = self.position(item.key_text());
        let mut items: Vec<T> = Vec::new();
        core::mem::swap(&mut items, &mut self.items);
        match at {
            Some(i) => {
                items.set(i, item);
            },
            None => {
                items.push(item);
            },
        }
        self.items = items;
    }

    /// Removes the item with key `k`, if there is one.
    pub fn remove(&mut self, k: &str)
        ensures
            final(self)@ == removed(old(self)@, k@),
            keys_distinct(final(self)@),
    {
        proof {
            use_type_invariant(&*self);
            lemma_remove_lookup(self.items@, k@, k@);
        }
        let at = self.position(k);
        let mut items: Vec<T> = Vec::new();
        core::mem::swap(&mut items, &mut self.items);
        match at {
            Some(i) => {
                let _gone = items.remove(i);
            },
            None => {},
        }
        self.items = items;
    }
}

} // verus!
