//! Maps keyed by text, kept in dictionary order of their keys.
use crate::text::{lex_less, lex_less_is_strict_order, precedes, same};
use vstd::prelude::*;
use vstd::string::*;

verus! {

/// A map from texts to values; its entries stand in dictionary order of their
/// keys, each key once.
#[derive(Debug, Clone)]
pub struct TextMap<V> {
    pub entries: Vec<(String, V)>,
}

/// Entry `i` has the key.
pub open spec fn key_at<V>(entries: Seq<(String, V)>, i: int, key: Seq<char>) -> bool {
    0 <= i < entries.len() && entries[i].0@ == key
}

/// The entries are in dictionary order of their keys, each key once.
pub open spec fn keys_sorted<V>(entries: Seq<(String, V)>) -> bool {
    forall|i: int, j: int|
        0 <= i < j < entries.len() ==> lex_less(
            (#[trigger] entries[i]).0@,
            (#[trigger] entries[j]).0@,
        )
}

impl<V> View for TextMap<V> {
    type V = Map<Seq<char>, V>;

    open spec fn view(&self) -> Map<Seq<char>, V> {
        Map::new(
            |key: Seq<char>| exists|i: int| key_at(self.entries@, i, key),
            |key: Seq<char>| self.entries@[choose|i: int| key_at(self.entries@, i, key)].1,
        )
    }
}

impl<V> TextMap<V> {
    pub open spec fn wf(&self) -> bool {
        keys_sorted(self.entries@)
    }

    /// In a sorted map the entry of a key is the only one with that key.
    pub proof fn entry_is_unique(self, i: int, j: int, key: Seq<char>)
        requires
            self.wf(),
            key_at(self.entries@, i, key),
            key_at(self.entries@, j, key),
        ensures
            i == j,
    {
        lex_less_is_strict_order(key, key, key);
        if i < j {
            assert(lex_less(self.entries@[i].0@, self.entries@[j].0@));
        } else if j < i {
            assert(lex_less(self.entries@[j].0@, self.entries@[i].0@));
        }
    }

    /// Each entry is what the map gives for its key.
    pub proof fn entry_is_mapped(self, i: int)
        requires
            self.wf(),
            0 <= i < self.entries@.len(),
        ensures
            self@.contains_key(self.entries@[i].0@),
            self@[self.entries@[i].0@] == self.entries@[i].1,
    {
        let key = self.entries@[i].0@;
        assert(key_at(self.entries@, i, key));
        let j = choose|j: int| key_at(self.entries@, j, key);
        self.entry_is_unique(i, j, key);
    }

    pub fn new() -> (r: Self)
        ensures
            r.wf(),
            r@ == Map::<Seq<char>, V>::empty(),
    {
        let r = Self { entries: Vec::new() };
        assert(r@ =~= Map::<Seq<char>, V>::empty());
        r
    }

    /// The first position whose key does not come before `key`.
    fn position(&self, key: &str) -> (r: usize)
        requires
            self.wf(),
        ensures
            r <= self.entries@.len(),
            forall|i: int| 0 <= i < r ==> lex_less((#[trigger] self.entries@[i]).0@, key@),
            r < self.entries@.len() && self.entries@[r as int].0@ != key@ ==> lex_less(
                key@,
                self.entries@[r as int].0@,
            ),
            forall|i: int|
                r < i < self.entries@.len() ==> lex_less(key@, (#[trigger] self.entries@[i]).0@),
    {
        let mut at: usize = 0;
        while at < self.entries.len() && precedes(self.entries[at].0.as_str(), key)
            invariant
                at <= self.entries@.len(),
                forall|i: int| 0 <= i < at ==> lex_less((#[trigger] self.entries@[i]).0@, key@),
            decreases self.entries@.len() - at,
        {
            at += 1;
        }
        proof {
            if at < self.entries@.len() {
                let here = self.entries@[at as int].0@;
                lex_less_is_strict_order(here, key@, key@);
                assert forall|i: int| at < i < self.entries@.len() implies lex_less(
                    key@,
                    (#[trigger] self.entries@[i]).0@,
                ) by {
                    assert(lex_less(here, self.entries@[i].0@));
                    lex_less_is_strict_order(key@, here, self.entries@[i].0@);
                }
            }
        }
        at
    }

    proof fn absent(self, at: int, key: Seq<char>)
        requires
            self.wf(),
            0 <= at <= self.entries@.len(),
            forall|i: int| 0 <= i < at ==> lex_less((#[trigger] self.entries@[i]).0@, key),
            forall|i: int|
                at <= i < self.entries@.len() ==> lex_less(key, (#[trigger] self.entries@[i]).0@),
        ensures
            !self@.contains_key(key),
    {
        lex_less_is_strict_order(key, key, key);
        if self@.contains_key(key) {
            let i = choose|i: int| key_at(self.entries@, i, key);
            assert(self.entries@[i].0@ == key);
        }
    }

    pub fn get(&self, key: &str) -> (r: Option<&V>)
        requires
            self.wf(),
        ensures
            match r {
                Some(value) => self@.contains_key(key@) && self@[key@] == *value,
                None => !self@.contains_key(key@),
            },
    {
        let at = self.position(key);
        if at < self.entries.len() && same(self.entries[at].0.as_str(), key) {
            proof {
                self.entry_is_mapped(at as int);
            }
            Some(&self.entries[at].1)
        } else {
            proof {
                self.absent(at as int, key@);
            }
            None
        }
    }

    /// The value of the first entry with `key`, in a sorted map the only one.
    pub fn find(&self, key: &str) -> (r: Option<&V>)
        ensures
            r is None <==> !self@.contains_key(key@),
            self.wf() && r is Some ==> self@[key@] == *r->0,
    {
        let mut i: usize = 0;
        while i < self.entries.len()
            invariant
                i <= self.entries@.len(),
                forall|j: int| 0 <= j < i ==> !key_at(self.entries@, j, key@),
            decreases self.entries@.len() - i,
        {
            if same(self.entries[i].0.as_str(), key) {
                assert(key_at(self.entries@, i as int, key@));
                proof {
                    if self.wf() {
                        self.entry_is_mapped(i as int);
                    }
                }
                return Some(&self.entries[i].1);
            }
            i += 1;
        }
        None
    }

    /// Puts `value` at `key` and returns what stood there.
    pub fn insert(&mut self, key: String, value: V) -> (r: Option<V>)
        requires
            old(self).wf(),
        ensures
            final(self).wf(),
            final(self)@ == old(self)@.insert(key@, value),
            match r {
                Some(previous) => old(self)@.contains_key(key@) && old(self)@[key@] == previous,
                None => !old(self)@.contains_key(key@),
            },
    {
        let ghost pre = *self;
        let ghost before = self.entries@;
        let at = self.position(key.as_str());
        let ghost replaces = at < before.len() && before[at as int].0@ == key@;
        let mut previous: Option<V> = None;
        if at < self.entries.len() && same(self.entries[at].0.as_str(), key.as_str()) {
            proof {
                pre.entry_is_mapped(at as int);
            }
            let taken = self.entries.remove(at);
            previous = Some(taken.1);
        } else {
            proof {
                pre.absent(at as int, key@);
            }
        }
        let ghost rest = self.entries@;
        self.entries.insert(at, (key, value));
        proof {
            let after = self.entries@;
            assert(after =~= rest.insert(at as int, (key, value)));
            assert(replaces ==> rest =~= before.remove(at as int));
            let shift: int = if replaces {
                0
            } else {
                1
            };
            assert forall|i: int| 0 <= i < at implies #[trigger] after[i] == before[i] by {}
            assert forall|i: int| at < i < after.len() implies #[trigger] after[i] == before[i
                - shift] by {}
            assert forall|i: int, j: int| 0 <= i < j < after.len() implies lex_less(
                (#[trigger] after[i]).0@,
                (#[trigger] after[j]).0@,
            ) by {
                if i < at && j > at {
                    assert(lex_less(before[i].0@, before[j - shift].0@));
                } else if i > at {
                    assert(lex_less(before[i - shift].0@, before[j - shift].0@));
                } else if j < at {
                    assert(lex_less(before[i].0@, before[j].0@));
                }
            }
            assert(self.wf());
            assert forall|k: Seq<char>| #[trigger]
                self@.contains_key(k) == pre@.insert(key@, value).contains_key(k) by {
                if k == key@ {
                    assert(key_at(after, at as int, k));
                } else {
                    if pre@.contains_key(k) {
                        let i = choose|i: int| key_at(before, i, k);
                        assert(key_at(
                            after,
                            if i < at {
                                i
                            } else {
                                i + shift
                            },
                            k,
                        ));
                    }
                    if self@.contains_key(k) {
                        let i = choose|i: int| key_at(after, i, k);
                        assert(key_at(
                            before,
                            if i < at {
                                i
                            } else {
                                i - shift
                            },
                            k,
                        ));
                    }
                }
            }
            assert forall|k: Seq<char>| #[trigger] self@.contains_key(k) implies self@[k]
                == pre@.insert(key@, value)[k] by {
                let i = choose|i: int| key_at(after, i, k);
                self.entry_is_mapped(i);
                if i != at {
                    pre.entry_is_mapped(
                        if i < at {
                            i
                        } else {
                            i - shift
                        },
                    );
                    if k == key@ {
                        assert(key_at(after, at as int, k));
                        self.entry_is_unique(i, at as int, k);
                    }
                }
            }
            assert(self@ =~= pre@.insert(key@, value));
        }
        previous
    }

    /// Takes out the entry of `key` and returns its value.
    pub fn remove(&mut self, key: &str) -> (r: Option<V>)
        requires
            old(self).wf(),
        ensures
            final(self).wf(),
            final(self)@ == old(self)@.remove(key@),
            match r {
                Some(value) => old(self)@.contains_key(key@) && old(self)@[key@] == value,
                None => !old(self)@.contains_key(key@),
            },
    {
        let ghost pre = *self;
        let ghost before = self.entries@;
        let at = self.position(key);
        if at < self.entries.len() && same(self.entries[at].0.as_str(), key) {
            proof {
                pre.entry_is_mapped(at as int);
            }
            let taken = self.entries.remove(at);
            proof {
                let after = self.entries@;
                assert(after =~= before.remove(at as int));
                assert forall|i: int| 0 <= i < after.len() implies #[trigger] after[i] == before[if i
                    < at {
                    i
                } else {
                    i + 1
                }] by {}
                assert(self.wf());
                assert forall|k: Seq<char>| #[trigger] self@.contains_key(k) == pre@.remove(
                    key@,
                ).contains_key(k) by {
                    if pre@.contains_key(k) && k != key@ {
                        let i = choose|i: int| key_at(before, i, k);
                        assert(key_at(
                            after,
                            if i < at {
                                i
                            } else {
                                i - 1
                            },
                            k,
                        ));
                    }
                    if self@.contains_key(k) {
                        let i = choose|i: int| key_at(after, i, k);
                        let j = if i < at {
                            i
                        } else {
                            i + 1
                        };
                        assert(key_at(before, j, k));
                        if k == key@ {
                            pre.entry_is_unique(j, at as int, k);
                        }
                    }
                }
                assert forall|k: Seq<char>| #[trigger] self@.contains_key(k) implies self@[k]
                    == pre@.remove(key@)[k] by {
                    let i = choose|i: int| key_at(after, i, k);
                    self.entry_is_mapped(i);
                    pre.entry_is_mapped(
                        if i < at {
                            i
                        } else {
                            i + 1
                        },
                    );
                }
                assert(self@ =~= pre@.remove(key@));
            }
            Some(taken.1)
        } else {
            proof {
                pre.absent(at as int, key@);
                assert(self@ =~= pre@.remove(key@));
            }
            None
        }
    }
}

} // verus!
