//! Sorting that keeps the order of equals.

use vstd::prelude::*;

verus! {

/// `s` with `x` put in: behind everything that `le` lets stand before it.
pub open spec fn insertion<A>(s: Seq<A>, x: A, le: spec_fn(A, A) -> bool) -> Seq<A>
    decreases s.len(),
{
    if s.len() == 0 || le(s.last(), x) {
        s.push(x)
    } else {
        insertion(s.drop_last(), x, le).push(s.last())
    }
}

/// `s` in order. Where `le` lets two elements stand either way, the one that came
/// first stays first.
pub open spec fn sorted_by<A>(s: Seq<A>, le: spec_fn(A, A) -> bool) -> Seq<A>
    decreases s.len(),
{
    if s.len() == 0 {
        s
    } else {
        insertion(sorted_by(s.drop_last(), le), s.last(), le)
    }
}

/// Whether `le` can order things: of two one comes first, and so on.
pub open spec fn is_order<A>(le: spec_fn(A, A) -> bool) -> bool {
    &&& forall|a: A, b: A| #[trigger] le(a, b) || le(b, a)
    &&& forall|a: A, b: A, c: A| #[trigger] le(a, b) && #[trigger] le(b, c) ==> le(a, c)
}

/// Whether no element stands before one that should precede it.
pub open spec fn in_order<A>(s: Seq<A>, le: spec_fn(A, A) -> bool) -> bool {
    forall|i: int, j: int| 0 <= i <= j < s.len() ==> i == j || le(#[trigger] s[i], #[trigger] s[j])
}

proof fn insertion_keeps_all<A>(s: Seq<A>, x: A, le: spec_fn(A, A) -> bool)
    ensures
        insertion(s, x, le).to_multiset() == s.to_multiset().insert(x),
        insertion(s, x, le).len() == s.len() + 1,
    decreases s.len(),
{
    broadcast use vstd::seq_lib::group_to_multiset_ensures;

    if s.len() > 0 && !le(s.last(), x) {
        insertion_keeps_all(s.drop_last(), x, le);
        assert(s =~= s.drop_last().push(s.last()));
        assert(insertion(s, x, le).to_multiset() =~= s.to_multiset().insert(x));
    }
}

/// Sorting keeps all elements.
pub proof fn sorting_keeps_all<A>(s: Seq<A>, le: spec_fn(A, A) -> bool)
    ensures
        sorted_by(s, le).to_multiset() == s.to_multiset(),
        sorted_by(s, le).len() == s.len(),
    decreases s.len(),
{
    broadcast use vstd::seq_lib::group_to_multiset_ensures;

    if s.len() > 0 {
        sorting_keeps_all(s.drop_last(), le);
        insertion_keeps_all(sorted_by(s.drop_last(), le), s.last(), le);
        assert(s =~= s.drop_last().push(s.last()));
    }
}

proof fn insertion_elements<A>(s: Seq<A>, x: A, le: spec_fn(A, A) -> bool)
    ensures
        forall|i: int|
            0 <= i < insertion(s, x, le).len() ==> (#[trigger] insertion(s, x, le)[i]) == x
                || s.contains(insertion(s, x, le)[i]),
        insertion(s, x, le).len() == s.len() + 1,
    decreases s.len(),
{
    let r = insertion(s, x, le);
    if s.len() > 0 && !le(s.last(), x) {
        insertion_elements(s.drop_last(), x, le);
        let sub = insertion(s.drop_last(), x, le);
        assert forall|i: int| 0 <= i < r.len() implies (#[trigger] r[i]) == x || s.contains(
            r[i],
        ) by {
            if i < sub.len() {
                assert(r[i] == sub[i]);
                if s.drop_last().contains(sub[i]) {
                    let k = choose|k: int| 0 <= k < s.drop_last().len() && s.drop_last()[k] == sub[i];
                    assert(s[k] == r[i]);
                }
            } else {
                assert(s[s.len() - 1] == r[i]);
            }
        }
    } else {
        assert forall|i: int| 0 <= i < r.len() implies (#[trigger] r[i]) == x || s.contains(
            r[i],
        ) by {
            if i < s.len() {
                assert(s[i] == r[i]);
            }
        }
    }
}

/// An element that was not there yet can be put in without making a double.
pub proof fn insertion_stays_distinct<A>(s: Seq<A>, x: A, le: spec_fn(A, A) -> bool)
    requires
        s.no_duplicates(),
        !s.contains(x),
    ensures
        insertion(s, x, le).no_duplicates(),
    decreases s.len(),
{
    let r = insertion(s, x, le);
    if s.len() > 0 && !le(s.last(), x) {
        let head = s.drop_last();
        assert(!head.contains(x)) by {
            if head.contains(x) {
                let k = choose|k: int| 0 <= k < head.len() && head[k] == x;
                assert(s[k] == x);
            }
        }
        insertion_stays_distinct(head, x, le);
        insertion_elements(head, x, le);
        let sub = insertion(head, x, le);
        assert forall|i: int, j: int| 0 <= i < j < r.len() implies r[i] != r[j] by {
            if j < sub.len() {
                assert(r[i] == sub[i] && r[j] == sub[j]);
            } else {
                assert(r[i] == sub[i]);
                assert(s[s.len() - 1] == r[j]);
                if head.contains(sub[i]) {
                    let k = choose|k: int| 0 <= k < head.len() && head[k] == sub[i];
                    assert(s[k] == sub[i]);
                }
            }
        }
    } else {
        assert forall|i: int, j: int| 0 <= i < j < r.len() implies r[i] != r[j] by {
            if j == s.len() {
                assert(r[i] == s[i]);
            }
        }
    }
}

/// An element can be put in without breaking the order.
pub proof fn insertion_stays_in_order<A>(s: Seq<A>, x: A, le: spec_fn(A, A) -> bool)
    requires
        is_order(le),
        in_order(s, le),
    ensures
        in_order(insertion(s, x, le), le),
    decreases s.len(),
{
    let r = insertion(s, x, le);
    if s.len() > 0 && !le(s.last(), x) {
        let head = s.drop_last();
        insertion_stays_in_order(head, x, le);
        insertion_elements(head, x, le);
        let sub = insertion(head, x, le);
        assert forall|i: int, j: int| 0 <= i <= j < r.len() implies i == j || le(
            #[trigger] r[i],
            #[trigger] r[j],
        ) by {
            if j < sub.len() {
                assert(r[i] == sub[i] && r[j] == sub[j]);
            } else if i < sub.len() {
                assert(r[i] == sub[i]);
                assert(le(x, s.last()));
                if head.contains(sub[i]) {
                    let k = choose|k: int| 0 <= k < head.len() && head[k] == sub[i];
                    assert(s[k] == sub[i]);
                    assert(le(s[k], s[s.len() - 1]));
                }
            }
        }
    } else if s.len() > 0 {
        assert forall|i: int, j: int| 0 <= i <= j < r.len() implies i == j || le(
            #[trigger] r[i],
            #[trigger] r[j],
        ) by {
            if j < s.len() {
                assert(r[i] == s[i] && r[j] == s[j]);
            } else if i < s.len() - 1 {
                assert(le(s[i], s[s.len() - 1]));
                assert(le(s[i], x));
            }
        }
    }
}

/// Sorting puts elements in order.
pub proof fn sorting_puts_in_order<A>(s: Seq<A>, le: spec_fn(A, A) -> bool)
    requires
        is_order(le),
    ensures
        in_order(sorted_by(s, le), le),
    decreases s.len(),
{
    if s.len() > 0 {
        sorting_puts_in_order(s.drop_last(), le);
        insertion_stays_in_order(sorted_by(s.drop_last(), le), s.last(), le);
    }
}

/// What can be sorted.
pub trait Sortable: Sized {
    /// The mathematical value that decides.
    type Model;

    /// The orders to choose from.
    type Order;

    spec fn model(&self) -> Self::Model;

    /// Whether `a` may stand before `b`.
    spec fn may_precede(order: Self::Order, a: Self::Model, b: Self::Model) -> bool;

    /// Whether `self` may stand before `other`.
    fn precedes(&self, other: &Self, order: &Self::Order) -> (r: bool)
        ensures
            r == Self::may_precede(*order, self.model(), other.model()),
    ;
}

/// The mathematical values of several things.
pub open spec fn models<T: Sortable>(v: Seq<T>) -> Seq<T::Model> {
    Seq::new(v.len(), |i: int| v[i].model())
}

/// The order of a sortable type as a function.
pub open spec fn order_of<T: Sortable>(order: T::Order) -> spec_fn(T::Model, T::Model) -> bool {
    |a: T::Model, b: T::Model| T::may_precede(order, a, b)
}

proof fn insertion_at<A>(s: Seq<A>, x: A, le: spec_fn(A, A) -> bool, k: int)
    requires
        0 <= k <= s.len(),
        k == 0 || le(s[k - 1], x),
        forall|i: int| k <= i < s.len() ==> !le(#[trigger] s[i], x),
    ensures
        insertion(s, x, le) == s.insert(k, x),
    decreases s.len(),
{
    if s.len() > k {
        assert(s[s.len() - 1] == s.last());
        insertion_at(s.drop_last(), x, le, k);
        assert(s.drop_last().insert(k, x).push(s.last()) =~= s.insert(k, x));
    } else {
        assert(s.push(x) =~= s.insert(k, x));
    }
}

/// Puts a thing in its place among things that are in order.
pub fn insert_in_order<T: Sortable>(v: &mut Vec<T>, x: T, order: &T::Order)
    ensures
        models(final(v)@) == insertion(models(old(v)@), x.model(), order_of::<T>(*order)),
        final(v)@.to_multiset() == old(v)@.to_multiset().insert(x),
{
    let ghost le = order_of::<T>(*order);
    let ghost before = v@;
    let mut k: usize = v.len();
    while k > 0 && !v[k - 1].precedes(&x, order)
        invariant
            v@ == before,
            k <= v@.len(),
            le == order_of::<T>(*order),
            forall|i: int| k <= i < v@.len() ==> !le(#[trigger] models(v@)[i], x.model()),
        decreases k,
    {
        k = k - 1;
    }
    proof {
        insertion_at(models(before), x.model(), le, k as int);
        multiset_of_insert(before, k as int, x);
    }
    v.insert(k, x);
    assert(v@ =~= before.insert(k as int, x));
    assert(models(v@) =~= models(before).insert(k as int, x.model()));
}

/// Puts things in order.
pub fn sort<T: Sortable>(v: Vec<T>, order: &T::Order) -> (r: Vec<T>)
    ensures
        models(r@) == sorted_by(models(v@), order_of::<T>(*order)),
        r@.to_multiset() == v@.to_multiset(),
{
    broadcast use vstd::seq_lib::group_to_multiset_ensures;

    let ghost all = models(v@);
    let ghost whole = v@;
    let ghost le = order_of::<T>(*order);
    let mut rest: Vec<T> = v;
    let mut reversed: Vec<T> = Vec::new();
    // Taking from the end is cheap, so the elements are turned round first.
    while rest.len() > 0
        invariant
            rest@ + reversed@.reverse() =~= whole,
        decreases rest@.len(),
    {
        let ghost before = rest@;
        if let Some(x) = rest.pop() {
            reversed.push(x);
            assert(before =~= rest@.push(x));
        }
    }
    assert(reversed@.reverse() =~= whole);
    let mut out: Vec<T> = Vec::new();
    let ghost mut done: int = 0;
    assert(models(out@) =~= sorted_by(all.take(0), le));
    assert(out@.to_multiset() =~= whole.take(0).to_multiset());
    while reversed.len() > 0
        invariant
            0 <= done <= whole.len(),
            all == models(whole),
            le == order_of::<T>(*order),
            reversed@.reverse() =~= whole.skip(done),
            models(out@) == sorted_by(all.take(done), le),
            out@.to_multiset() == whole.take(done).to_multiset(),
        decreases reversed@.len(),
    {
        let ghost before = reversed@;
        if let Some(x) = reversed.pop() {
            assert(before.reverse()[0] == x);
            assert(whole.skip(done)[0] == x);
            assert(before.reverse().len() == whole.skip(done).len());
            assert(whole[done] == x);
            assert(reversed@.reverse() =~= before.reverse().skip(1));
            assert(reversed@.reverse() =~= whole.skip(done + 1));
            proof {
                assert(all.take(done + 1).drop_last() =~= all.take(done));
                assert(all.take(done + 1).last() == x.model());
                multiset_of_insert(whole.take(done), done, x);
                assert(whole.take(done).insert(done, x) =~= whole.take(done + 1));
                done = done + 1;
            }
            insert_in_order(&mut out, x, order);
        }
    }
    assert(whole.take(done) =~= whole);
    assert(all.take(done) =~= all);
    out
}

/// Inserting an element adds it to the multiset.
pub proof fn multiset_of_insert<A>(s: Seq<A>, k: int, x: A)
    requires
        0 <= k <= s.len(),
    ensures
        s.insert(k, x).to_multiset() == s.to_multiset().insert(x),
{
    broadcast use vstd::seq_lib::group_to_multiset_ensures;

    let a = s.take(k);
    let b = s.skip(k);
    assert(s =~= a + b);
    assert(s.insert(k, x) =~= a.push(x) + b);
    vstd::seq_lib::lemma_multiset_commutative(a, b);
    vstd::seq_lib::lemma_multiset_commutative(a.push(x), b);
    assert(s.insert(k, x).to_multiset() =~= s.to_multiset().insert(x));
}

/// Two sequences of the same elements that are both in order are equal, if no two
/// different elements may stand either way.
pub proof fn order_is_unique<A>(a: Seq<A>, b: Seq<A>, le: spec_fn(A, A) -> bool)
    requires
        a.to_multiset() == b.to_multiset(),
        in_order(a, le),
        in_order(b, le),
        forall|x: A, y: A|
            a.contains(x) && a.contains(y) && #[trigger] le(x, y) && #[trigger] le(y, x) ==> x == y,
    ensures
        a == b,
    decreases a.len(),
{
    broadcast use vstd::seq_lib::group_to_multiset_ensures;

    assert(a.to_multiset().len() == a.len() && b.to_multiset().len() == b.len());
    if a.len() == 0 {
        assert(a =~= b);
    } else {
        let x = a.last();
        let y = b.last();
        assert(a.contains(x) && b.contains(y));
        assert(b.to_multiset().contains(x) && a.to_multiset().contains(y));
        assert(b.contains(x) && a.contains(y));
        let k = choose|k: int| 0 <= k < b.len() && b[k] == x;
        let m = choose|m: int| 0 <= m < a.len() && a[m] == y;
        if k < b.len() - 1 && m < a.len() - 1 {
            assert(le(b[k], b[b.len() - 1]));
            assert(le(a[m], a[a.len() - 1]));
        }
        assert(x == y);
        let c = a.drop_last();
        let d = b.drop_last();
        assert(a =~= c.push(x));
        assert(b =~= d.push(x));
        assert(c.to_multiset() =~= a.to_multiset().remove(x));
        assert(d.to_multiset() =~= b.to_multiset().remove(x));
        assert forall|i: int, j: int| 0 <= i <= j < c.len() implies i == j || le(
            #[trigger] c[i],
            #[trigger] c[j],
        ) by {
            assert(c[i] == a[i] && c[j] == a[j]);
        }
        assert forall|i: int, j: int| 0 <= i <= j < d.len() implies i == j || le(
            #[trigger] d[i],
            #[trigger] d[j],
        ) by {
            assert(d[i] == b[i] && d[j] == b[j]);
        }
        assert forall|u: A| c.contains(u) implies a.contains(u) by {
            let i = choose|i: int| 0 <= i < c.len() && c[i] == u;
            assert(a[i] == u);
        }
        order_is_unique(c, d, le);
    }
}

} // verus!
