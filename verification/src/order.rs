//! Sorting that keeps the order of equal items.

use vstd::prelude::*;

verus! {

/// Items with a total order in which several items may stand equal.
pub trait Ranked: Sized {
    /// The item does not stand after `other`.
    spec fn at_most(self, other: Self) -> bool;

    /// Whether the item does not stand after `other`.
    fn is_at_most(&self, other: &Self) -> (r: bool)
        ensures
            r == self.at_most(*other),
    ;

    /// Of two items, one does not stand after the other.
    proof fn lemma_total(self, other: Self)
        ensures
            self.at_most(other) || other.at_most(self),
    ;

    /// The order is transitive.
    proof fn lemma_transitive(self, mid: Self, other: Self)
        requires
            self.at_most(mid),
            mid.at_most(other),
        ensures
            self.at_most(other),
    ;
}

impl<T> Ranked for (i128, T) {
    open spec fn at_most(self, other: Self) -> bool {
        self.0 <= other.0
    }

    fn is_at_most(&self, other: &Self) -> bool {
        self.0 <= other.0
    }

    proof fn lemma_total(self, other: Self) {
    }

    proof fn lemma_transitive(self, mid: Self, other: Self) {
    }
}

/// `a` does not stand after `b` in the order of a dictionary, where characters
/// are ordered by their numbers.
pub open spec fn text_at_most(a: Seq<char>, b: Seq<char>) -> bool
    decreases a.len(),
{
    if a.len() == 0 {
        true
    } else if b.len() == 0 {
        false
    } else if a[0] != b[0] {
        a[0] < b[0]
    } else {
        text_at_most(a.skip(1), b.skip(1))
    }
}

/// Of two texts, one does not stand after the other.
pub proof fn lemma_text_total(a: Seq<char>, b: Seq<char>)
    ensures
        text_at_most(a, b) || text_at_most(b, a),
    decreases a.len(),
{
    if a.len() > 0 && b.len() > 0 && a[0] == b[0] {
        lemma_text_total(a.skip(1), b.skip(1));
    }
}

/// The order of texts is transitive.
pub proof fn lemma_text_transitive(a: Seq<char>, b: Seq<char>, c: Seq<char>)
    requires
        text_at_most(a, b),
        text_at_most(b, c),
    ensures
        text_at_most(a, c),
    decreases a.len(),
{
    if a.len() > 0 && b.len() > 0 && c.len() > 0 && a[0] == b[0] && b[0] == c[0] {
        lemma_text_transitive(a.skip(1), b.skip(1), c.skip(1));
    }
}

impl<T> Ranked for (Vec<char>, T) {
    open spec fn at_most(self, other: Self) -> bool {
        text_at_most(self.0@, other.0@)
    }

    fn is_at_most(&self, other: &Self) -> bool {
        let a = &self.0;
        let b = &other.0;
        let mut i: usize = 0;
        assert(a@.skip(0) == a@);
        assert(b@.skip(0) == b@);
        while i < a.len() && i < b.len() && a[i] == b[i]
            invariant
                i <= a@.len(),
                i <= b@.len(),
                text_at_most(a@, b@) == text_at_most(a@.skip(i as int), b@.skip(i as int)),
            decreases a.len() - i,
        {
            assert(a@.skip(i as int).skip(1) == a@.skip(i + 1));
            assert(b@.skip(i as int).skip(1) == b@.skip(i + 1));
            i = i + 1;
        }
        if i == a.len() {
            true
        } else if i == b.len() {
            false
        } else {
            a[i] < b[i]
        }
    }

    proof fn lemma_total(self, other: Self) {
        lemma_text_total(self.0@, other.0@);
    }

    proof fn lemma_transitive(self, mid: Self, other: Self) {
        lemma_text_transitive(self.0@, mid.0@, other.0@);
    }
}

/// `s`, which is in order, with `x` behind the last item that does not stand
/// after it.
pub open spec fn put_in<R: Ranked>(s: Seq<R>, x: R) -> Seq<R>
    decreases s.len(),
{
    if s.len() == 0 || s.last().at_most(x) {
        s.push(x)
    } else {
        put_in(s.drop_last(), x).push(s.last())
    }
}

/// The items of `s` in order; equal items stand as they stood in `s`.
pub open spec fn sorted<R: Ranked>(s: Seq<R>) -> Seq<R>
    decreases s.len(),
{
    if s.len() == 0 {
        s
    } else {
        put_in(sorted(s.drop_last()), s.last())
    }
}

/// Each item does not stand after those behind it.
pub open spec fn in_order<R: Ranked>(s: Seq<R>) -> bool {
    forall|i: int, j: int| 0 <= i < j < s.len() ==> (#[trigger] s[i]).at_most(#[trigger] s[j])
}

proof fn lemma_put_in<R: Ranked>(s: Seq<R>, x: R)
    requires
        in_order(s),
    ensures
        in_order(put_in(s, x)),
        put_in(s, x).len() == s.len() + 1,
        put_in(s, x).to_multiset() == s.to_multiset().insert(x),
        forall|i: int|
            0 <= i < put_in(s, x).len() ==> s.contains(#[trigger] put_in(s, x)[i]) || put_in(
                s,
                x,
            )[i] == x,
    decreases s.len(),
{
    broadcast use vstd::seq_lib::group_to_multiset_ensures;

    let r = put_in(s, x);
    if s.len() == 0 || s.last().at_most(x) {
        assert forall|i: int, j: int| 0 <= i < j < r.len() implies (#[trigger] r[i]).at_most(
            #[trigger] r[j],
        ) by {
            if j == s.len() {
                if i < s.len() - 1 {
                    s[i].lemma_transitive(s.last(), x);
                }
            }
        }
        assert forall|i: int| 0 <= i < r.len() implies s.contains(#[trigger] r[i]) || r[i] == x by {
            if i < s.len() {
                assert(s[i] == r[i]);
            }
        }
    } else {
        let t = s.drop_last();
        let y = s.last();
        lemma_put_in(t, x);
        let q = put_in(t, x);
        x.lemma_total(y);
        assert forall|i: int, j: int| 0 <= i < j < r.len() implies (#[trigger] r[i]).at_most(
            #[trigger] r[j],
        ) by {
            if j == q.len() {
                assert(r[i] == q[i]);
                if t.contains(q[i]) {
                    let k = choose|k: int| 0 <= k < t.len() && t[k] == q[i];
                    assert(s[k].at_most(s[s.len() - 1]));
                }
            } else {
                assert(r[i] == q[i] && r[j] == q[j]);
            }
        }
        assert(s == t.push(y));
        assert(r.to_multiset() == s.to_multiset().insert(x));
        assert forall|i: int| 0 <= i < r.len() implies s.contains(#[trigger] r[i]) || r[i] == x by {
            if i < q.len() {
                assert(r[i] == q[i]);
                if t.contains(q[i]) {
                    let k = choose|k: int| 0 <= k < t.len() && t[k] == q[i];
                    assert(s[k] == q[i]);
                }
            } else {
                assert(s[s.len() - 1] == y);
            }
        }
    }
}

/// Sorting puts the items in order, and leaves each as often as it was there.
pub proof fn law_sorted<R: Ranked>(s: Seq<R>)
    ensures
        in_order(sorted(s)),
        sorted(s).to_multiset() == s.to_multiset(),
        sorted(s).len() == s.len(),
    decreases s.len(),
{
    broadcast use vstd::seq_lib::group_to_multiset_ensures;

    if s.len() > 0 {
        law_sorted(s.drop_last());
        lemma_put_in(sorted(s.drop_last()), s.last());
        assert(s == s.drop_last().push(s.last()));
    }
}

/// The items in order; equal items stay as they stood.
pub fn sort<R: Ranked>(items: Vec<R>) -> (r: Vec<R>)
    ensures
        r@ == sorted(items@),
{
    let ghost all = items@;
    let mut rest = items;
    let mut r: Vec<R> = Vec::new();
    assert(all.take(0) == Seq::<R>::empty());
    assert(all.skip(0) == all);
    let ghost mut n: int = 0;
    while rest.len() > 0
        invariant
            0 <= n <= all.len(),
            rest@ == all.skip(n),
            r@ == sorted(all.take(n)),
        decreases rest.len(),
    {
        let x = rest.remove(0);
        proof {
            assert(x == all[n]);
            assert(rest@ == all.skip(n + 1));
            assert(all.take(n + 1).drop_last() == all.take(n));
        }
        insert_ranked(&mut r, x);
        proof {
            n = n + 1;
        }
    }
    assert(all.take(n) == all);
    r
}

fn insert_ranked<R: Ranked>(v: &mut Vec<R>, x: R)
    ensures
        final(v)@ == put_in(old(v)@, x),
{
    let ghost s = v@;
    let mut k: usize = v.len();
    assert(s.take(k as int) == s);
    assert(s.skip(k as int) == Seq::<R>::empty());
    assert(put_in(s.take(k as int), x) + s.skip(k as int) == put_in(s, x));
    while k > 0 && !v[k - 1].is_at_most(&x)
        invariant
            k <= v@.len(),
            v@ == s,
            put_in(s.take(k as int), x) + s.skip(k as int) == put_in(s, x),
        decreases k,
    {
        let ghost t = s.take(k as int);
        assert(t.last() == s[k - 1]);
        assert(t.drop_last() == s.take(k - 1));
        assert(put_in(t, x) == put_in(s.take(k - 1), x).push(s[k - 1]));
        assert(put_in(s.take(k - 1), x) + s.skip(k - 1) == put_in(t, x) + s.skip(k as int));
        k = k - 1;
    }
    assert(s.take(k as int).push(x) + s.skip(k as int) == s.insert(k as int, x));
    v.insert(k, x);
}

/// `s`, which is in the order `le`, with `x` behind the last item that does not
/// stand after it.
pub open spec fn put_in_by<T>(s: Seq<T>, x: T, le: spec_fn(T, T) -> bool) -> Seq<T>
    decreases s.len(),
{
    if s.len() == 0 || le(s.last(), x) {
        s.push(x)
    } else {
        put_in_by(s.drop_last(), x, le).push(s.last())
    }
}

/// The items of `s` in the order `le`; equal items stand as they stood in `s`.
pub open spec fn sorted_by<T>(s: Seq<T>, le: spec_fn(T, T) -> bool) -> Seq<T>
    decreases s.len(),
{
    if s.len() == 0 {
        s
    } else {
        put_in_by(sorted_by(s.drop_last(), le), s.last(), le)
    }
}

/// Each item does not stand after those behind it, in the order `le`.
pub open spec fn in_order_by<T>(s: Seq<T>, le: spec_fn(T, T) -> bool) -> bool {
    forall|i: int, j: int| 0 <= i < j < s.len() ==> le(#[trigger] s[i], #[trigger] s[j])
}

/// The order `le` is total and transitive.
pub open spec fn is_order<T>(le: spec_fn(T, T) -> bool) -> bool {
    &&& forall|a: T, b: T| #[trigger] le(a, b) || le(b, a)
    &&& forall|a: T, b: T, c: T| #[trigger] le(a, b) && #[trigger] le(b, c) ==> le(a, c)
}

proof fn lemma_put_in_by<T>(s: Seq<T>, x: T, le: spec_fn(T, T) -> bool)
    requires
        is_order(le),
        in_order_by(s, le),
    ensures
        in_order_by(put_in_by(s, x, le), le),
        forall|i: int|
            0 <= i < put_in_by(s, x, le).len() ==> s.contains(#[trigger] put_in_by(s, x, le)[i])
                || put_in_by(s, x, le)[i] == x,
    decreases s.len(),
{
    let r = put_in_by(s, x, le);
    if s.len() == 0 || le(s.last(), x) {
        assert forall|i: int, j: int| 0 <= i < j < r.len() implies le(
            #[trigger] r[i],
            #[trigger] r[j],
        ) by {
            if j == s.len() && i < s.len() - 1 {
                assert(le(s[i], s[s.len() - 1]));
            }
        }
        assert forall|i: int| 0 <= i < r.len() implies s.contains(#[trigger] r[i]) || r[i] == x by {
            if i < s.len() {
                assert(s[i] == r[i]);
            }
        }
    } else {
        let t = s.drop_last();
        lemma_put_in_by(t, x, le);
        let q = put_in_by(t, x, le);
        assert forall|i: int, j: int| 0 <= i < j < r.len() implies le(
            #[trigger] r[i],
            #[trigger] r[j],
        ) by {
            assert(r[i] == q[i]);
            if j == q.len() {
                if t.contains(q[i]) {
                    let k = choose|k: int| 0 <= k < t.len() && t[k] == q[i];
                    assert(le(s[k], s[s.len() - 1]));
                } else {
                    assert(le(s.last(), x) || le(x, s.last()));
                }
            } else {
                assert(r[j] == q[j]);
            }
        }
        assert forall|i: int| 0 <= i < r.len() implies s.contains(#[trigger] r[i]) || r[i] == x by {
            if i < q.len() {
                assert(r[i] == q[i]);
                if t.contains(q[i]) {
                    let k = choose|k: int| 0 <= k < t.len() && t[k] == q[i];
                    assert(s[k] == q[i]);
                }
            } else {
                assert(s[s.len() - 1] == r[i]);
            }
        }
    }
}

proof fn lemma_put_in_by_items<T>(s: Seq<T>, x: T, le: spec_fn(T, T) -> bool)
    ensures
        put_in_by(s, x, le).to_multiset() == s.to_multiset().insert(x),
        put_in_by(s, x, le).len() == s.len() + 1,
    decreases s.len(),
{
    broadcast use vstd::seq_lib::group_to_multiset_ensures;

    if s.len() > 0 && !le(s.last(), x) {
        let t = s.drop_last();
        lemma_put_in_by_items(t, x, le);
        assert(s == t.push(s.last()));
        assert(put_in_by(s, x, le).to_multiset() == s.to_multiset().insert(x));
    }
}

/// Sorting leaves each item as often as it was there.
pub proof fn law_sorted_by_items<T>(s: Seq<T>, le: spec_fn(T, T) -> bool)
    ensures
        sorted_by(s, le).to_multiset() == s.to_multiset(),
        sorted_by(s, le).len() == s.len(),
    decreases s.len(),
{
    broadcast use vstd::seq_lib::group_to_multiset_ensures;

    if s.len() > 0 {
        law_sorted_by_items(s.drop_last(), le);
        lemma_put_in_by_items(sorted_by(s.drop_last(), le), s.last(), le);
        assert(s == s.drop_last().push(s.last()));
    }
}

/// Sorting by an order puts the items in that order.
pub proof fn law_sorted_by<T>(s: Seq<T>, le: spec_fn(T, T) -> bool)
    requires
        is_order(le),
    ensures
        in_order_by(sorted_by(s, le), le),
    decreases s.len(),
{
    if s.len() > 0 {
        law_sorted_by(s.drop_last(), le);
        lemma_put_in_by(sorted_by(s.drop_last(), le), s.last(), le);
    }
}

/// Sorting items sorts their values: by an order of the values that is that of
/// the items.
pub proof fn lemma_sorted_values<R: Ranked, V>(
    s: Seq<R>,
    g: spec_fn(R) -> V,
    le: spec_fn(V, V) -> bool,
)
    requires
        forall|i: int, j: int|
            0 <= i < s.len() && 0 <= j < s.len() ==> (#[trigger] s[i]).at_most(#[trigger] s[j])
                == le(g(s[i]), g(s[j])),
    ensures
        sorted(s).map_values(g) == sorted_by(s.map_values(g), le),
    decreases s.len(),
{
    if s.len() == 0 {
        assert(sorted(s).map_values(g) == s.map_values(g));
    } else {
        let t = s.drop_last();
        let x = s.last();
        assert(forall|i: int| 0 <= i < t.len() ==> #[trigger] t[i] == s[i]);
        lemma_sorted_values(t, g, le);
        assert(s.map_values(g).drop_last() == t.map_values(g));
        lemma_sorted_items(t);
        assert forall|k: int| 0 <= k < sorted(t).len() implies (#[trigger] sorted(t)[k]).at_most(x)
            == le(g(sorted(t)[k]), g(x)) by {
            let i = choose|i: int| 0 <= i < t.len() && t[i] == sorted(t)[k];
            assert(s[i] == sorted(t)[k]);
            assert(s[s.len() - 1] == x);
            assert(s[i].at_most(s[s.len() - 1]) == le(g(s[i]), g(s[s.len() - 1])));
        }
        lemma_put_in_values(sorted(t), x, g, le);
    }
}

/// What is sorted are the items that were there.
pub proof fn lemma_sorted_items<R: Ranked>(s: Seq<R>)
    ensures
        forall|k: int| 0 <= k < sorted(s).len() ==> s.contains(#[trigger] sorted(s)[k]),
{
    broadcast use vstd::seq_lib::group_to_multiset_ensures;

    law_sorted(s);
    assert forall|k: int| 0 <= k < sorted(s).len() implies s.contains(#[trigger] sorted(s)[k]) by {
        assert(sorted(s).to_multiset().count(sorted(s)[k]) > 0);
    }
}

proof fn lemma_put_in_values<R: Ranked, V>(
    s: Seq<R>,
    x: R,
    g: spec_fn(R) -> V,
    le: spec_fn(V, V) -> bool,
)
    requires
        forall|k: int| 0 <= k < s.len() ==> (#[trigger] s[k]).at_most(x) == le(g(s[k]), g(x)),
    ensures
        put_in(s, x).map_values(g) == put_in_by(s.map_values(g), g(x), le),
    decreases s.len(),
{
    let v = s.map_values(g);
    if s.len() == 0 {
        assert(s.push(x).map_values(g) == v.push(g(x)));
    } else {
        let n = s.len() - 1;
        assert(v.last() == g(s[n]));
        assert(s[n].at_most(x) == le(g(s[n]), g(x)));
        if s.last().at_most(x) {
            assert(s.push(x).map_values(g) == v.push(g(x)));
        } else {
            let t = s.drop_last();
            assert(forall|k: int| 0 <= k < t.len() ==> #[trigger] t[k] == s[k]);
            lemma_put_in_values(t, x, g, le);
            assert(v.drop_last() == t.map_values(g));
            assert(put_in(t, x).push(s.last()).map_values(g) == put_in(t, x).map_values(g).push(
                g(s.last()),
            ));
        }
    }
}

// ---------------------------------------------------------------------------
// Equal items
// ---------------------------------------------------------------------------

proof fn lemma_filter_push<T>(s: Seq<T>, x: T, f: spec_fn(T) -> bool)
    ensures
        s.push(x).filter(f) == (if f(x) {
            s.filter(f).push(x)
        } else {
            s.filter(f)
        }),
{
    reveal(Seq::filter);
    assert(s.push(x).drop_last() == s);
}

proof fn lemma_put_in_stable<R: Ranked>(s: Seq<R>, x: R, m: R)
    ensures
        ({
            let f = |r: R| r.at_most(m) && m.at_most(r);
            put_in(s, x).filter(f) == (if f(x) {
                s.filter(f).push(x)
            } else {
                s.filter(f)
            })
        }),
    decreases s.len(),
{
    let f = |r: R| r.at_most(m) && m.at_most(r);
    if s.len() == 0 || s.last().at_most(x) {
        lemma_filter_push(s, x, f);
    } else {
        let t = s.drop_last();
        let y = s.last();
        lemma_put_in_stable(t, x, m);
        lemma_filter_push(put_in(t, x), y, f);
        lemma_filter_push(t, y, f);
        assert(t.push(y) == s);
        if f(x) && f(y) {
            y.lemma_transitive(m, x);
        }
    }
}

/// Items that stand equal stay in the order in which they stood.
pub proof fn law_sorted_is_stable<R: Ranked>(s: Seq<R>, m: R)
    ensures
        ({
            let f = |r: R| r.at_most(m) && m.at_most(r);
            sorted(s).filter(f) == s.filter(f)
        }),
    decreases s.len(),
{
    if s.len() > 0 {
        let f = |r: R| r.at_most(m) && m.at_most(r);
        law_sorted_is_stable(s.drop_last(), m);
        lemma_put_in_stable(sorted(s.drop_last()), s.last(), m);
        lemma_filter_push(s.drop_last(), s.last(), f);
        assert(s.drop_last().push(s.last()) == s);
    }
}

proof fn lemma_put_in_by_stable<T>(s: Seq<T>, x: T, m: T, le: spec_fn(T, T) -> bool)
    requires
        is_order(le),
    ensures
        ({
            let f = |r: T| le(r, m) && le(m, r);
            put_in_by(s, x, le).filter(f) == (if f(x) {
                s.filter(f).push(x)
            } else {
                s.filter(f)
            })
        }),
    decreases s.len(),
{
    let f = |r: T| le(r, m) && le(m, r);
    if s.len() == 0 || le(s.last(), x) {
        lemma_filter_push(s, x, f);
    } else {
        let t = s.drop_last();
        let y = s.last();
        lemma_put_in_by_stable(t, x, m, le);
        lemma_filter_push(put_in_by(t, x, le), y, f);
        lemma_filter_push(t, y, f);
        assert(t.push(y) == s);
    }
}

/// Items that stand equal in an order stay as they stood when they are sorted by it.
pub proof fn law_sorted_by_is_stable<T>(s: Seq<T>, m: T, le: spec_fn(T, T) -> bool)
    requires
        is_order(le),
    ensures
        ({
            let f = |r: T| le(r, m) && le(m, r);
            sorted_by(s, le).filter(f) == s.filter(f)
        }),
    decreases s.len(),
{
    if s.len() > 0 {
        let f = |r: T| le(r, m) && le(m, r);
        law_sorted_by_is_stable(s.drop_last(), m, le);
        lemma_put_in_by_stable(sorted_by(s.drop_last(), le), s.last(), m, le);
        lemma_filter_push(s.drop_last(), s.last(), f);
        assert(s.drop_last().push(s.last()) == s);
    }
}

} // verus!
