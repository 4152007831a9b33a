//! A map from texts, in ascending order of the texts.
use crate::ordered;
use crate::text;
use vstd::prelude::*;

verus! {

/// A map from texts.
#[derive(Debug, PartialEq, Eq)]
pub struct TextMap<V> {
    keys: Vec<String>,
    values: Vec<V>,
}

/// Where a text stands in a list.
pub open spec fn place_of(keys: Seq<Seq<char>>, key: Seq<char>) -> int {
    choose|i: int| 0 <= i < keys.len() && #[trigger] keys[i] == key
}

proof fn lemma_place(keys: Seq<Seq<char>>, i: int)
    requires
        ordered::ascending(keys),
        0 <= i < keys.len(),
    ensures
        place_of(keys, keys[i]) == i,
{
    let p = place_of(keys, keys[i]);
    assert(0 <= p < keys.len() && keys[p] == keys[i]);
    ordered::lex_less_is_irreflexive(keys[i]);
}

/// A map that holds these values under these keys.
pub open spec fn paired<T>(keys: Seq<Seq<char>>, values: Seq<T>) -> Map<Seq<char>, T> {
    Map::new(|k: Seq<char>| keys.contains(k), |k: Seq<char>| values[place_of(keys, k)])
}

impl<V: View> TextMap<V> {
    /// The keys, in ascending order.
    pub closed spec fn keys_view(self) -> Seq<Seq<char>> {
        text::views(self.keys@)
    }

    closed spec fn values_view(self) -> Seq<V::V> {
        self.values@.map_values(|v: V| v@)
    }

    pub closed spec fn well_formed(self) -> bool {
        ordered::ascending(self.keys_view()) && self.keys@.len() == self.values@.len()
    }

    pub closed spec fn map(self) -> Map<Seq<char>, V::V> {
        paired(self.keys_view(), self.values_view())
    }

    /// The keys of a map are those that it holds something under.
    pub proof fn keys_are_the_domain(self, k: Seq<char>)
        ensures
            self.keys_view().contains(k) <==> self.map().dom().contains(k),
    {
    }

    pub fn new() -> (r: Self)
        ensures
            r.well_formed(),
            r.map() == Map::<Seq<char>, V::V>::empty(),
    {
        let r: TextMap<V> = TextMap { keys: Vec::new(), values: Vec::new() };
        proof {
            assert(r.keys_view() =~= Seq::empty());
            assert(r.map() =~= Map::<Seq<char>, V::V>::empty());
        }
        r
    }

    /// The keys, in ascending order.
    pub fn keys(&self) -> (r: &Vec<String>)
        requires
            self.well_formed(),
        ensures
            text::views(r@) == self.keys_view(),
            ordered::ascending(text::views(r@)),
            forall|k: Seq<char>| #[trigger] self.map().dom().contains(k) <==> text::views(
                r@,
            ).contains(k),
    {
        &self.keys
    }

    fn find(&self, key: &str) -> (r: (usize, bool))
        requires
            self.well_formed(),
        ensures
            r.0 <= self.keys@.len(),
            r.1 ==> r.0 < self.keys@.len() && self.keys_view()[r.0 as int] == key@,
            r.1 <==> self.map().dom().contains(key@),
            forall|k: int| 0 <= k < r.0 ==> ordered::lex_less(#[trigger] self.keys_view()[k], key@),
            !r.1 ==> forall|k: int|
                r.0 <= k < self.keys@.len() ==> ordered::lex_less(
                    key@,
                    #[trigger] self.keys_view()[k],
                ),
    {
        let mut i: usize = 0;
        while i < self.keys.len() && ordered::text_less(self.keys[i].as_str(), key)
            invariant
                i <= self.keys@.len(),
                forall|k: int|
                    0 <= k < i ==> ordered::lex_less(#[trigger] self.keys_view()[k], key@),
            decreases self.keys@.len() - i,
        {
            i += 1;
        }
        let ghost keys = self.keys_view();
        if i < self.keys.len() && text::same(self.keys[i].as_str(), key) {
            proof {
                assert(keys[i as int] == key@);
                assert(keys.contains(key@));
            }
            return (i, true);
        }
        proof {
            assert forall|k: int| i <= k < keys.len() implies ordered::lex_less(
                key@,
                #[trigger] keys[k],
            ) by {
                assert(self.keys@[i as int]@ == keys[i as int]);
                ordered::lex_less_is_total(keys[i as int], key@);
                if k > i {
                    ordered::lex_less_is_transitive(key@, keys[i as int], keys[k]);
                }
            }
            if keys.contains(key@) {
                let k = choose|k: int| 0 <= k < keys.len() && #[trigger] keys[k] == key@;
                ordered::lex_less_is_irreflexive(key@);
            }
        }
        (i, false)
    }

    pub fn get(&self, key: &str) -> (r: Option<&V>)
        requires
            self.well_formed(),
        ensures
            match r {
                Some(v) => self.map().dom().contains(key@) && v@ == self.map()[key@],
                None => !self.map().dom().contains(key@),
            },
    {
        let (i, found) = self.find(key);
        if found {
            proof {
                lemma_place(self.keys_view(), i as int);
                assert(self.values_view()[i as int] == self.values@[i as int]@);
            }
            Some(&self.values[i])
        } else {
            None
        }
    }

    /// Puts a value under a key, in place of what was there.
    pub fn insert(&mut self, key: &str, value: V)
        requires
            old(self).well_formed(),
        ensures
            final(self).well_formed(),
            final(self).map() == old(self).map().insert(key@, value@),
    {
        let ghost before = *self;
        let (i, found) = self.find(key);
        if found {
            self.values.set(i, value);
            proof {
                let k1 = self.keys_view();
                assert(k1 == before.keys_view());
                assert forall|k: Seq<char>| k1.contains(k) implies self.map()[k]
                    == #[trigger] before.map().insert(key@, value@)[k] by {
                    let p = choose|p: int| 0 <= p < k1.len() && #[trigger] k1[p] == k;
                    lemma_place(k1, p);
                    lemma_place(k1, i as int);
                    assert(self.values_view()[p] == self.values@[p]@);
                    assert(before.values_view()[p] == before.values@[p]@);
                }
                assert(self.map() =~= before.map().insert(key@, value@));
            }
        } else {
            self.keys.insert(i, key.to_owned());
            self.values.insert(i, value);
            proof {
                let k0 = before.keys_view();
                let k1 = self.keys_view();
                assert(k1 =~= k0.insert(i as int, key@));
                assert forall|a: int, b: int| 0 <= a < b < k1.len() implies ordered::lex_less(
                    #[trigger] k1[a],
                    #[trigger] k1[b],
                ) by {
                    if a < i && b < i {
                        assert(k1[a] == k0[a] && k1[b] == k0[b]);
                    } else if a < i && b == i {
                        assert(k1[a] == k0[a]);
                    } else if a == i {
                        assert(k1[b] == k0[b - 1]);
                    } else if a < i {
                        assert(k1[a] == k0[a] && k1[b] == k0[b - 1]);
                    } else {
                        assert(k1[a] == k0[a - 1] && k1[b] == k0[b - 1]);
                    }
                }
                let target = before.map().insert(key@, value@);
                assert forall|k: Seq<char>| k1.contains(k) <==> #[trigger] target.dom().contains(
                    k,
                ) by {
                    if k1.contains(k) {
                        let p = choose|p: int| 0 <= p < k1.len() && #[trigger] k1[p] == k;
                        if p < i {
                            assert(k0[p] == k);
                        } else if p > i {
                            assert(k0[p - 1] == k);
                        }
                    }
                    if k0.contains(k) {
                        let p = choose|p: int| 0 <= p < k0.len() && #[trigger] k0[p] == k;
                        if p < i {
                            assert(k1[p] == k);
                        } else {
                            assert(k1[p + 1] == k);
                        }
                    }
                    assert(k1[i as int] == key@);
                }
                assert forall|k: Seq<char>| k1.contains(k) implies self.map()[k]
                    == #[trigger] target[k] by {
                    let p = choose|p: int| 0 <= p < k1.len() && #[trigger] k1[p] == k;
                    lemma_place(k1, p);
                    assert(self.values_view()[p] == self.values@[p]@);
                    if p < i {
                        assert(k0[p] == k);
                        lemma_place(k0, p);
                        assert(before.values_view()[p] == before.values@[p]@);
                    } else if p > i {
                        assert(k0[p - 1] == k);
                        lemma_place(k0, p - 1);
                        assert(before.values_view()[p - 1] == before.values@[p - 1]@);
                    }
                    if k == key@ {
                        lemma_place(k1, i as int);
                    }
                }
                assert(self.map() =~= target);
            }
        }
    }

    /// Takes out what is under a key.
    pub fn remove(&mut self, key: &str) -> (r: Option<V>)
        requires
            old(self).well_formed(),
        ensures
            match r {
                Some(v) => old(self).map().dom().contains(key@) && v@ == old(self).map()[key@],
                None => !old(self).map().dom().contains(key@),
            },
            final(self).well_formed(),
            final(self).map() == old(self).map().remove(key@),
    {
        let ghost before = *self;
        let (i, found) = self.find(key);
        if !found {
            proof {
                assert(self.map() =~= before.map().remove(key@));
            }
            return None;
        }
        let _ = self.keys.remove(i);
        let taken = self.values.remove(i);
        proof {
            lemma_place(before.keys_view(), i as int);
            assert(before.values_view()[i as int] == before.values@[i as int]@);
            let k0 = before.keys_view();
            let k1 = self.keys_view();
            assert(k1 =~= k0.remove(i as int));
            assert forall|a: int, b: int| 0 <= a < b < k1.len() implies ordered::lex_less(
                #[trigger] k1[a],
                #[trigger] k1[b],
            ) by {
                let c = if a < i {
                    a
                } else {
                    a + 1
                };
                let d = if b < i {
                    b
                } else {
                    b + 1
                };
                assert(k1[a] == k0[c] && k1[b] == k0[d]);
            }
            let target = before.map().remove(key@);
            assert forall|k: Seq<char>| k1.contains(k) <==> #[trigger] target.dom().contains(k) by {
                if k1.contains(k) {
                    let p = choose|p: int| 0 <= p < k1.len() && #[trigger] k1[p] == k;
                    let q = if p < i {
                        p
                    } else {
                        p + 1
                    };
                    assert(k0[q] == k);
                    ordered::lex_less_is_irreflexive(k);
                    assert(k0[i as int] == key@);
                }
                if k0.contains(k) && k != key@ {
                    let p = choose|p: int| 0 <= p < k0.len() && #[trigger] k0[p] == k;
                    if p < i {
                        assert(k1[p] == k);
                    } else {
                        assert(k1[p - 1] == k);
                    }
                }
            }
            assert forall|k: Seq<char>| k1.contains(k) implies self.map()[k]
                == #[trigger] target[k] by {
                let p = choose|p: int| 0 <= p < k1.len() && #[trigger] k1[p] == k;
                lemma_place(k1, p);
                assert(self.values_view()[p] == self.values@[p]@);
                let q = if p < i {
                    p
                } else {
                    p + 1
                };
                assert(k0[q] == k);
                lemma_place(k0, q);
                assert(before.values_view()[q] == before.values@[q]@);
                assert(target.dom().contains(k));
            }
            assert(self.map() =~= target);
        }
        Some(taken)
    }
}

} // verus!
