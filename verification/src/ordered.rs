//! The order of texts, and sets of texts kept in that order.
use crate::text;
use vstd::prelude::*;

verus! {

/// Whether `a` comes before `b`: at the first difference the smaller character decides,
/// and a text comes before those that it begins.
pub open spec fn lex_less(a: Seq<char>, b: Seq<char>) -> bool
    decreases a.len(),
{
    if b.len() == 0 {
        false
    } else if a.len() == 0 {
        true
    } else if a[0] != b[0] {
        (a[0] as u32) < (b[0] as u32)
    } else {
        lex_less(a.drop_first(), b.drop_first())
    }
}

/// No text comes before itself.
pub proof fn lex_less_is_irreflexive(a: Seq<char>)
    ensures
        !lex_less(a, a),
    decreases a.len(),
{
    if a.len() > 0 {
        lex_less_is_irreflexive(a.drop_first());
    }
}

/// What comes before something that comes before a text comes before that text.
pub proof fn lex_less_is_transitive(a: Seq<char>, b: Seq<char>, c: Seq<char>)
    requires
        lex_less(a, b),
        lex_less(b, c),
    ensures
        lex_less(a, c),
    decreases a.len(),
{
    if a.len() > 0 && a[0] == b[0] && b[0] == c[0] {
        lex_less_is_transitive(a.drop_first(), b.drop_first(), c.drop_first());
    }
}

/// Of two different texts one comes before the other.
pub proof fn lex_less_is_total(a: Seq<char>, b: Seq<char>)
    ensures
        a == b || lex_less(a, b) || lex_less(b, a),
    decreases a.len(),
{
    if a.len() > 0 && b.len() > 0 && a[0] == b[0] {
        lex_less_is_total(a.drop_first(), b.drop_first());
        if a.drop_first() == b.drop_first() {
            assert(a =~= seq![a[0]] + a.drop_first());
            assert(b =~= seq![b[0]] + b.drop_first());
        }
    } else if a.len() == 0 && b.len() == 0 {
        assert(a =~= b);
    } else if a.len() > 0 && b.len() > 0 {
        lemma_char_values(a[0], b[0]);
    }
}

proof fn lemma_char_values(a: char, b: char)
    ensures
        a != b ==> (a as u32) != (b as u32),
{
}

/// Whether `a` comes before `b`.
pub fn text_less(a: &str, b: &str) -> (r: bool)
    ensures
        r == lex_less(a@, b@),
{
    let x = text::chars_of(a);
    let y = text::chars_of(b);
    let mut i: usize = 0;
    proof {
        assert(x@.skip(0) =~= x@);
        assert(y@.skip(0) =~= y@);
    }
    while i < x.len() && i < y.len()
        invariant
            i <= x@.len(),
            i <= y@.len(),
            x@ == a@,
            y@ == b@,
            lex_less(x@, y@) == lex_less(x@.skip(i as int), y@.skip(i as int)),
        decreases x@.len() - i,
    {
        let c: char = x[i];
        let d: char = y[i];
        proof {
            assert(x@.skip(i as int).drop_first() =~= x@.skip(i + 1));
            assert(y@.skip(i as int).drop_first() =~= y@.skip(i + 1));
        }
        if c != d {
            return (c as u32) < (d as u32);
        }
        i += 1;
    }
    i < y.len()
}

/// Texts in ascending order, none twice.
pub open spec fn ascending(s: Seq<Seq<char>>) -> bool {
    forall|i: int, j: int| 0 <= i < j < s.len() ==> lex_less(#[trigger] s[i], #[trigger] s[j])
}

/// Two ascending lists of the same texts are the same list.
pub proof fn ascending_lists_are_determined(a: Seq<Seq<char>>, b: Seq<Seq<char>>)
    requires
        ascending(a),
        ascending(b),
        forall|x: Seq<char>| a.contains(x) <==> b.contains(x),
    ensures
        a == b,
    decreases a.len(),
{
    if a.len() == 0 {
        if b.len() > 0 {
            assert(b.contains(b[0]));
        }
        assert(a =~= b);
    } else {
        assert(a.contains(a.last()));
        assert(b.len() > 0);
        let x = a.last();
        let y = b.last();
        assert(b.contains(y));
        let i = choose|i: int| 0 <= i < a.len() && a[i] == y;
        let j = choose|j: int| 0 <= j < b.len() && b[j] == x;
        if x != y {
            assert(lex_less(a[i], a[a.len() - 1]));
            assert(lex_less(b[j], b[b.len() - 1]));
            lex_less_is_transitive(x, y, x);
            lex_less_is_irreflexive(x);
        }
        let a1 = a.drop_last();
        let b1 = b.drop_last();
        assert forall|z: Seq<char>| a1.contains(z) <==> b1.contains(z) by {
            if a1.contains(z) {
                let k = choose|k: int| 0 <= k < a1.len() && a1[k] == z;
                assert(a[k] == z);
                assert(lex_less(a[k], a[a.len() - 1]));
                lex_less_is_irreflexive(x);
                assert(b.contains(z));
                let m = choose|m: int| 0 <= m < b.len() && b[m] == z;
                assert(b1[m] == z);
            }
            if b1.contains(z) {
                let k = choose|k: int| 0 <= k < b1.len() && b1[k] == z;
                assert(b[k] == z);
                assert(lex_less(b[k], b[b.len() - 1]));
                lex_less_is_irreflexive(x);
                assert(a.contains(z));
                let m = choose|m: int| 0 <= m < a.len() && a[m] == z;
                assert(a1[m] == z);
            }
        }
        ascending_lists_are_determined(a1, b1);
        assert(a =~= a1.push(x));
        assert(b =~= b1.push(y));
    }
}

/// A set of texts, kept in ascending order.
#[derive(Debug, PartialEq, Eq)]
pub struct TextSet {
    items: Vec<String>,
}

impl View for TextSet {
    type V = Seq<Seq<char>>;

    closed spec fn view(&self) -> Seq<Seq<char>> {
        text::views(self.items@)
    }
}

impl Default for TextSet {
    fn default() -> (r: Self)
        ensures
            r@ == Seq::<Seq<char>>::empty(),
            ascending(r@),
    {
        let r = TextSet { items: Vec::new() };
        proof {
            assert(r@ =~= Seq::<Seq<char>>::empty());
        }
        r
    }
}

impl Clone for TextSet {
    fn clone(&self) -> (r: Self)
        ensures
            r@ == self@,
    {
        TextSet { items: clone_texts(&self.items) }
    }
}

/// A copy of a list of texts.
pub fn clone_texts(v: &Vec<String>) -> (r: Vec<String>)
    ensures
        text::views(r@) == text::views(v@),
        r@.len() == v@.len(),
{
    let mut r: Vec<String> = Vec::new();
    let mut i: usize = 0;
    while i < v.len()
        invariant
            i <= v@.len(),
            r@.len() == i,
            forall|k: int| 0 <= k < i ==> (#[trigger] r@[k])@ == v@[k]@,
        decreases v@.len() - i,
    {
        r.push(v[i].clone());
        i += 1;
    }
    proof {
        assert(text::views(r@) =~= text::views(v@));
    }
    r
}

impl TextSet {
    pub fn items(&self) -> (r: &Vec<String>)
        ensures
            text::views(r@) == self@,
    {
        &self.items
    }

    /// Whether the texts are in order.
    pub fn is_ascending(&self) -> (r: bool)
        ensures
            r == ascending(self@),
    {
        let ghost all = self@;
        let mut i: usize = 1;
        while i < self.items.len()
            invariant
                1 <= i,
                i <= self.items@.len() || i == 1,
                all == text::views(self.items@),
                forall|a: int, b: int|
                    0 <= a < b < i && b < all.len() ==> lex_less(
                        #[trigger] all[a],
                        #[trigger] all[b],
                    ),
            decreases self.items@.len() - i,
        {
            proof {
                assert(all[i - 1] == self.items@[i - 1]@);
                assert(all[i as int] == self.items@[i as int]@);
            }
            if !text_less(self.items[i - 1].as_str(), self.items[i].as_str()) {
                return false;
            }
            proof {
                assert forall|a: int| 0 <= a < i implies lex_less(
                    #[trigger] all[a],
                    all[i as int],
                ) by {
                    if a < i - 1 {
                        lex_less_is_transitive(all[a], all[i - 1], all[i as int]);
                    }
                }
            }
            i = i + 1;
        }
        proof {
            assert(all.len() == self.items@.len());
        }
        true
    }

    pub fn contains(&self, s: &str) -> (r: bool)
        ensures
            r == self@.contains(s@),
    {
        let mut i: usize = 0;
        while i < self.items.len()
            invariant
                i <= self.items@.len(),
                forall|k: int| 0 <= k < i ==> (#[trigger] self.items@[k])@ != s@,
            decreases self.items@.len() - i,
        {
            if text::same(self.items[i].as_str(), s) {
                assert(self@[i as int] == s@);
                return true;
            }
            i += 1;
        }
        proof {
            assert forall|k: int| 0 <= k < self@.len() implies self@[k] != s@ by {
                assert(self.items@[k]@ == self@[k]);
            }
        }
        false
    }

    /// Adds a text.
    pub fn insert(&mut self, s: &str)
        requires
            ascending(old(self)@),
        ensures
            ascending(final(self)@),
            forall|x: Seq<char>| #[trigger] final(self)@.contains(x) <==> old(self)@.contains(x) || x == s@,
    {
        let ghost before = self@;
        let mut i: usize = 0;
        while i < self.items.len() && text_less(self.items[i].as_str(), s)
            invariant
                self@ == before,
                i <= self.items@.len(),
                forall|k: int| 0 <= k < i ==> lex_less(#[trigger] before[k], s@),
            decreases self.items@.len() - i,
        {
            proof {
                assert(self.items@[i as int]@ == before[i as int]);
            }
            i += 1;
        }
        if i < self.items.len() && text::same(self.items[i].as_str(), s) {
            proof {
                assert(before[i as int] == s@);
            }
            return ;
        }
        let ghost old_items = self.items@;
        self.items.insert(i, s.to_owned());
        proof {
            let after = self@;
            assert(after =~= before.insert(i as int, s@)) by {
                assert(self.items@ == old_items.insert(i as int, self.items@[i as int]));
            }
            if i < before.len() {
                lex_less_is_total(before[i as int], s@);
                assert(old_items[i as int]@ == before[i as int]);
                assert(lex_less(s@, before[i as int]));
            }
            assert forall|a: int, b: int| 0 <= a < b < after.len() implies lex_less(
                #[trigger] after[a],
                #[trigger] after[b],
            ) by {
                if b == i {
                    assert(after[a] == before[a]);
                } else if a == i {
                    assert(after[b] == before[b - 1]);
                    if b - 1 > i {
                        assert(lex_less(before[i as int], before[b - 1]));
                        lex_less_is_transitive(s@, before[i as int], before[b - 1]);
                    }
                } else {
                    let a0 = if a < i {
                        a
                    } else {
                        a - 1
                    };
                    let b0 = if b < i {
                        b
                    } else {
                        b - 1
                    };
                    assert(after[a] == before[a0]);
                    assert(after[b] == before[b0]);
                    assert(lex_less(before[a0], before[b0]));
                }
            }
            assert forall|x: Seq<char>| after.contains(x) <==> before.contains(x) || x == s@ by {
                if before.contains(x) {
                    let k = choose|k: int| 0 <= k < before.len() && before[k] == x;
                    if k < i {
                        assert(after[k] == x);
                    } else {
                        assert(after[k + 1] == x);
                    }
                }
                if x == s@ {
                    assert(after[i as int] == x);
                }
                if after.contains(x) {
                    let k = choose|k: int| 0 <= k < after.len() && after[k] == x;
                    if k < i {
                        assert(before[k] == x);
                    } else if k > i {
                        assert(before[k - 1] == x);
                    }
                }
            }
        }
    }

    /// Takes a text out; says whether it was in.
    pub fn remove(&mut self, s: &str) -> (r: bool)
        requires
            ascending(old(self)@),
        ensures
            ascending(final(self)@),
            r == old(self)@.contains(s@),
            forall|x: Seq<char>| #[trigger] final(self)@.contains(x) <==> old(self)@.contains(x) && x != s@,
    {
        let ghost before = self@;
        let mut i: usize = 0;
        while i < self.items.len()
            invariant
                self@ == before,
                before == old(self)@,
                ascending(before),
                i <= self.items@.len(),
                forall|k: int| 0 <= k < i ==> #[trigger] before[k] != s@,
            decreases self.items@.len() - i,
        {
            proof {
                assert(self.items@[i as int]@ == before[i as int]);
            }
            if text::same(self.items[i].as_str(), s) {
                let _ = self.items.remove(i);
                proof {
                    let after = self@;
                    assert(after =~= before.remove(i as int));
                    assert forall|a: int, b: int| 0 <= a < b < after.len() implies lex_less(
                        #[trigger] after[a],
                        #[trigger] after[b],
                    ) by {
                        let a0 = if a < i {
                            a
                        } else {
                            a + 1
                        };
                        let b0 = if b < i {
                            b
                        } else {
                            b + 1
                        };
                        assert(after[a] == before[a0]);
                        assert(after[b] == before[b0]);
                        assert(lex_less(before[a0], before[b0]));
                    }
                    assert forall|x: Seq<char>| after.contains(x) <==> before.contains(x) && x
                        != s@ by {
                        if before.contains(x) && x != s@ {
                            let k = choose|k: int| 0 <= k < before.len() && before[k] == x;
                            if k < i {
                                assert(after[k] == x);
                            } else {
                                assert(after[k - 1] == x);
                            }
                        }
                        if after.contains(x) {
                            let k = choose|k: int| 0 <= k < after.len() && after[k] == x;
                            lex_less_is_irreflexive(s@);
                            if k < i {
                                assert(before[k] == x);
                            } else {
                                assert(before[k + 1] == x);
                                assert(lex_less(before[i as int], before[k + 1]));
                            }
                        }
                    }
                    assert(before[i as int] == s@);
                }
                return true;
            }
            i += 1;
        }
        proof {
            assert forall|k: int| 0 <= k < before.len() implies before[k] != s@ by {}
        }
        false
    }

    /// Adds every text of a list.
    pub fn extend(&mut self, more: &Vec<String>)
        requires
            ascending(old(self)@),
        ensures
            ascending(final(self)@),
            forall|x: Seq<char>|
                #[trigger] final(self)@.contains(x) <==> old(self)@.contains(x) || text::views(
                    more@,
                ).contains(x),
    {
        let ghost before = self@;
        let ghost all = text::views(more@);
        let mut i: usize = 0;
        while i < more.len()
            invariant
                i <= more@.len(),
                all == text::views(more@),
                ascending(self@),
                forall|x: Seq<char>|
                    self@.contains(x) <==> before.contains(x) || all.take(i as int).contains(x),
            decreases more@.len() - i,
        {
            let ghost mid = self@;
            self.insert(more[i].as_str());
            proof {
                let done = all.take(i as int);
                let next = all.take(i + 1);
                assert(next =~= done.push(more@[i as int]@));
                assert forall|x: Seq<char>| self@.contains(x) <==> before.contains(x)
                    || next.contains(x) by {
                    assert(mid.contains(x) <==> before.contains(x) || done.contains(x));
                    if done.contains(x) {
                        let k = choose|k: int| 0 <= k < done.len() && done[k] == x;
                        assert(next[k] == x);
                    }
                    if next.contains(x) {
                        let k = choose|k: int| 0 <= k < next.len() && next[k] == x;
                        if k < i {
                            assert(done[k] == x);
                        }
                    }
                    assert(next[i as int] == more@[i as int]@);
                }
            }
            i += 1;
        }
        proof {
            assert(all.take(i as int) =~= all);
            assert forall|x: Seq<char>| self@.contains(x) <==> before.contains(x) || all.contains(
                x,
            ) by {
                assert(self@.contains(x) <==> before.contains(x) || all.take(i as int).contains(x));
            }
        }
    }
}

/// Texts with one more put in behind those that do not come after it.
pub open spec fn with_text(s: Seq<Seq<char>>, x: Seq<char>) -> Seq<Seq<char>>
    decreases s.len(),
{
    if s.len() > 0 && lex_less(x, s.last()) {
        with_text(s.drop_last(), x).push(s.last())
    } else {
        s.push(x)
    }
}

/// Texts in ascending order, repetitions kept.
pub open spec fn sorted(s: Seq<Seq<char>>) -> Seq<Seq<char>>
    decreases s.len(),
{
    if s.len() == 0 {
        s
    } else {
        with_text(sorted(s.drop_last()), s.last())
    }
}

proof fn lemma_with_text(s: Seq<Seq<char>>, p: int, x: Seq<char>)
    requires
        0 <= p <= s.len(),
        forall|k: int| p <= k < s.len() ==> lex_less(x, #[trigger] s[k]),
        p > 0 ==> !lex_less(x, s[p - 1]),
    ensures
        with_text(s, x) == s.insert(p, x),
    decreases s.len(),
{
    if p == s.len() {
        assert(s.insert(p, x) =~= s.push(x));
    } else {
        assert(lex_less(x, s[s.len() - 1]));
        lemma_with_text(s.drop_last(), p, x);
        assert(s.drop_last().insert(p, x).push(s.last()) =~= s.insert(p, x));
    }
}

/// Texts in ascending order, repetitions kept.
pub fn sort_texts(v: &Vec<String>) -> (r: Vec<String>)
    ensures
        text::views(r@) == sorted(text::views(v@)),
{
    let mut r: Vec<String> = Vec::new();
    let ghost all = text::views(v@);
    let mut i: usize = 0;
    proof {
        assert(text::views(r@) =~= sorted(all.take(0)));
    }
    while i < v.len()
        invariant
            i <= v@.len(),
            all == text::views(v@),
            text::views(r@) == sorted(all.take(i as int)),
        decreases v@.len() - i,
    {
        let ghost before = r@;
        let mut p: usize = r.len();
        while p > 0 && text_less(v[i].as_str(), r[p - 1].as_str())
            invariant
                p <= r@.len(),
                i < v@.len(),
                r@ == before,
                forall|k: int|
                    p <= k < text::views(before).len() ==> lex_less(
                        v@[i as int]@,
                        #[trigger] text::views(before)[k],
                    ),
            decreases p,
        {
            p -= 1;
        }
        proof {
            lemma_with_text(text::views(before), p as int, v@[i as int]@);
            assert(all.take(i + 1).drop_last() =~= all.take(i as int));
            assert(all.take(i + 1).last() == v@[i as int]@);
        }
        r.insert(p, v[i].clone());
        proof {
            assert(text::views(r@) =~= text::views(before).insert(p as int, v@[i as int]@));
        }
        i += 1;
    }
    proof {
        assert(all.take(i as int) =~= all);
    }
    r
}

proof fn lemma_with_text_in_order(s: Seq<Seq<char>>, x: Seq<char>)
    requires
        forall|i: int, j: int|
            0 <= i < j < s.len() ==> !lex_less(#[trigger] s[j], #[trigger] s[i]),
    ensures
        ({
            let r = with_text(s, x);
            &&& r.to_multiset() == s.to_multiset().insert(x)
            &&& forall|i: int, j: int|
                0 <= i < j < r.len() ==> !lex_less(#[trigger] r[j], #[trigger] r[i])
        }),
    decreases s.len(),
{
    broadcast use vstd::seq_lib::group_to_multiset_ensures;

    let r = with_text(s, x);
    if s.len() > 0 && lex_less(x, s.last()) {
        let init = s.drop_last();
        let last = s.last();
        assert forall|i: int, j: int| 0 <= i < j < init.len() implies !lex_less(
            #[trigger] init[j],
            #[trigger] init[i],
        ) by {
            assert(init[i] == s[i] && init[j] == s[j]);
        }
        lemma_with_text_in_order(init, x);
        let t = with_text(init, x);
        assert(init.push(last) =~= s);
        assert(s.to_multiset() =~= init.to_multiset().insert(last));
        assert(r.to_multiset() =~= t.to_multiset().insert(last));
        assert(r.to_multiset() =~= s.to_multiset().insert(x));
        assert forall|i: int| 0 <= i < t.len() implies !lex_less(last, #[trigger] t[i]) by {
            assert(t.to_multiset().contains(t[i]));
            if t[i] == x {
                lex_less_is_irreflexive(x);
                if lex_less(last, x) {
                    lex_less_is_transitive(x, last, x);
                }
            } else {
                assert(init.to_multiset().contains(t[i]));
                assert(init.contains(t[i]));
                let k = choose|k: int| 0 <= k < init.len() && init[k] == t[i];
                assert(!lex_less(s[s.len() - 1], s[k]));
            }
        }
        assert forall|i: int, j: int| 0 <= i < j < r.len() implies !lex_less(
            #[trigger] r[j],
            #[trigger] r[i],
        ) by {
            assert(r[i] == t[i]);
            if j < t.len() {
                assert(r[j] == t[j]);
            }
        }
    } else {
        assert forall|i: int, j: int| 0 <= i < j < r.len() implies !lex_less(
            #[trigger] r[j],
            #[trigger] r[i],
        ) by {
            if j == s.len() {
                let last = s[s.len() - 1];
                assert(!lex_less(x, last));
                if i < s.len() - 1 {
                    assert(!lex_less(last, s[i]));
                    if lex_less(x, s[i]) {
                        lex_less_is_total(s[i], last);
                        if lex_less(s[i], last) {
                            lex_less_is_transitive(x, s[i], last);
                        }
                    }
                }
            }
        }
    }
}

/// Sorted texts are the given ones, each as often, and none comes before one that stands ahead
/// of it.
pub proof fn sorting_keeps_the_texts_and_orders_them(s: Seq<Seq<char>>)
    ensures
        sorted(s).to_multiset() == s.to_multiset(),
        forall|i: int, j: int|
            0 <= i < j < sorted(s).len() ==> !lex_less(
                #[trigger] sorted(s)[j],
                #[trigger] sorted(s)[i],
            ),
    decreases s.len(),
{
    broadcast use vstd::seq_lib::group_to_multiset_ensures;

    if s.len() > 0 {
        let init = s.drop_last();
        sorting_keeps_the_texts_and_orders_them(init);
        lemma_with_text_in_order(sorted(init), s.last());
        assert(init.push(s.last()) =~= s);
    }
}

} // verus!
