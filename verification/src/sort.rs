//! A merge sort for values with a total order.

use vstd::prelude::*;
use vstd::multiset::Multiset;

verus! {

/// Values that are ordered by a total preorder.
pub trait Ordered: Sized {
    /// Whether `self` may stand before `other`.
    spec fn before(&self, other: &Self) -> bool;

    /// Any two values are ordered one way or the other.
    proof fn before_total(a: &Self, b: &Self)
        ensures
            a.before(b) || b.before(a),
    ;

    /// The order is transitive.
    proof fn before_transitive(a: &Self, b: &Self, c: &Self)
        requires
            a.before(b),
            b.before(c),
        ensures
            a.before(c),
    ;

    /// Decides the order of two values.
    fn is_before(&self, other: &Self) -> (r: bool)
        ensures
            r == self.before(other),
    ;
}

/// Whether `a` may stand before `b` in an ascending, or else in a descending, list.
pub open spec fn in_order<T: Ordered>(a: T, b: T, ascending: bool) -> bool {
    if ascending {
        a.before(&b)
    } else {
        b.before(&a)
    }
}

/// Whether every value of the list may stand before every later one.
pub open spec fn is_sorted<T: Ordered>(s: Seq<T>, ascending: bool) -> bool {
    forall|i: int, j: int| 0 <= i < j < s.len() ==> in_order(#[trigger] s[i], #[trigger] s[j], ascending)
}

/// Whether every value of `s` may stand before every value of `t`.
spec fn all_in_order<T: Ordered>(s: Seq<T>, t: Seq<T>, ascending: bool) -> bool {
    forall|i: int, j: int|
        0 <= i < s.len() && 0 <= j < t.len() ==> in_order(#[trigger] s[i], #[trigger] t[j], ascending)
}

/// Takes the last value of a list sorted the other way, and appends it to the output.
fn move_last<T: Ordered>(from: &mut Vec<T>, other: &Vec<T>, out: &mut Vec<T>, ascending: bool)
    requires
        old(from)@.len() > 0,
        is_sorted(old(from)@, !ascending),
        is_sorted(other@, !ascending),
        is_sorted(old(out)@, ascending),
        all_in_order(old(out)@, old(from)@, ascending),
        all_in_order(old(out)@, other@, ascending),
        other@.len() > 0 ==> in_order(old(from)@.last(), other@.last(), ascending),
    ensures
        final(from)@ == old(from)@.drop_last(),
        final(out)@ == old(out)@.push(old(from)@.last()),
        is_sorted(final(from)@, !ascending),
        is_sorted(final(out)@, ascending),
        all_in_order(final(out)@, final(from)@, ascending),
        all_in_order(final(out)@, other@, ascending),
        final(from)@.to_multiset().add(final(out)@.to_multiset()) == old(from)@.to_multiset().add(
            old(out)@.to_multiset(),
        ),
{
    broadcast use vstd::seq_lib::group_to_multiset_ensures;

    let ghost x = from@.last();
    assert(from@ =~= from@.drop_last().push(x));
    if let Some(value) = from.pop() {
        out.push(value);
    }
    proof {
        assert forall|i: int, j: int| 0 <= i < out@.len() && 0 <= j < from@.len() implies in_order(
            #[trigger] out@[i],
            #[trigger] from@[j],
            ascending,
        ) by {
            if i == old(out)@.len() {
                assert(in_order(old(from)@[j], old(from)@[from@.len() as int], !ascending));
            } else {
                assert(in_order(old(out)@[i], old(from)@[j], ascending));
            }
        }
        assert forall|i: int, j: int| 0 <= i < out@.len() && 0 <= j < other@.len() implies in_order(
            #[trigger] out@[i],
            #[trigger] other@[j],
            ascending,
        ) by {
            if i == old(out)@.len() {
                if j < other@.len() - 1 {
                    assert(in_order(other@[j], other@[other@.len() - 1], !ascending));
                    if ascending {
                        T::before_transitive(&x, &other@.last(), &other@[j]);
                    } else {
                        T::before_transitive(&other@[j], &other@.last(), &x);
                    }
                }
            } else {
                assert(in_order(old(out)@[i], other@[j], ascending));
            }
        }
        assert(is_sorted(out@, ascending)) by {
            assert forall|i: int, j: int| 0 <= i < j < out@.len() implies in_order(
                #[trigger] out@[i],
                #[trigger] out@[j],
                ascending,
            ) by {
                if j == old(out)@.len() {
                    assert(in_order(old(out)@[i], old(from)@[from@.len() as int], ascending));
                }
            }
        }
        assert(from@.to_multiset().add(out@.to_multiset()) =~= old(from)@.to_multiset().add(
            old(out)@.to_multiset(),
        ));
    }
}

/// Merges two lists that are sorted the other way into one that is sorted the wanted way.
fn merge<T: Ordered>(a: Vec<T>, b: Vec<T>, ascending: bool) -> (out: Vec<T>)
    requires
        is_sorted(a@, !ascending),
        is_sorted(b@, !ascending),
    ensures
        is_sorted(out@, ascending),
        out@.to_multiset() == a@.to_multiset().add(b@.to_multiset()),
{
    broadcast use vstd::seq_lib::group_to_multiset_ensures;

    let ghost total = a@.to_multiset().add(b@.to_multiset());
    let mut a = a;
    let mut b = b;
    let mut out: Vec<T> = Vec::new();
    assert(a@.to_multiset().add(b@.to_multiset()).add(out@.to_multiset()) =~= total);
    while a.len() > 0 || b.len() > 0
        invariant
            is_sorted(a@, !ascending),
            is_sorted(b@, !ascending),
            is_sorted(out@, ascending),
            all_in_order(out@, a@, ascending),
            all_in_order(out@, b@, ascending),
            a@.to_multiset().add(b@.to_multiset()).add(out@.to_multiset()) == total,
        decreases a@.len() + b@.len(),
    {
        let ghost a0 = a@;
        let ghost b0 = b@;
        let ghost out0 = out@;
        let take_a = if a.len() == 0 {
            false
        } else if b.len() == 0 {
            true
        } else {
            proof {
                T::before_total(&a@.last(), &b@.last());
            }
            if ascending {
                a[a.len() - 1].is_before(&b[b.len() - 1])
            } else {
                b[b.len() - 1].is_before(&a[a.len() - 1])
            }
        };
        if take_a {
            move_last(&mut a, &b, &mut out, ascending);
        } else {
            move_last(&mut b, &a, &mut out, ascending);
        }
        assert(a@.to_multiset().add(b@.to_multiset()).add(out@.to_multiset())
            =~= a0.to_multiset().add(b0.to_multiset()).add(out0.to_multiset())) by {
            if take_a {
                assert(a@.to_multiset().add(out@.to_multiset()).add(b@.to_multiset())
                    =~= a@.to_multiset().add(b@.to_multiset()).add(out@.to_multiset()));
                assert(a0.to_multiset().add(out0.to_multiset()).add(b0.to_multiset())
                    =~= a0.to_multiset().add(b0.to_multiset()).add(out0.to_multiset()));
            } else {
                assert(b@.to_multiset().add(out@.to_multiset()).add(a@.to_multiset())
                    =~= a@.to_multiset().add(b@.to_multiset()).add(out@.to_multiset()));
                assert(b0.to_multiset().add(out0.to_multiset()).add(a0.to_multiset())
                    =~= a0.to_multiset().add(b0.to_multiset()).add(out0.to_multiset()));
            }
        }
    }
    assert(out@.to_multiset() =~= total) by {
        assert(a@ =~= Seq::<T>::empty());
        assert(b@ =~= Seq::<T>::empty());
        assert(Seq::<T>::empty().to_multiset() =~= Multiset::empty());
    }
    out
}

/// Sorts a list, ascending or descending.
fn merge_sort<T: Ordered>(list: Vec<T>, ascending: bool) -> (r: Vec<T>)
    ensures
        is_sorted(r@, ascending),
        r@.to_multiset() == list@.to_multiset(),
    decreases list@.len(),
{
    if list.len() <= 1 {
        return list;
    }
    let mut left = list;
    let middle: usize = left.len() / 2;
    let ghost whole = left@;
    let right = left.split_off(middle);
    proof {
        assert(whole =~= left@ + right@);
        vstd::seq_lib::lemma_multiset_commutative(left@, right@);
    }
    let left = merge_sort(left, !ascending);
    let right = merge_sort(right, !ascending);
    merge(left, right, ascending)
}

/// Sorts a list into ascending order.
pub fn sort<T: Ordered>(list: Vec<T>) -> (r: Vec<T>)
    ensures
        is_sorted(r@, true),
        r@.to_multiset() == list@.to_multiset(),
{
    merge_sort(list, true)
}

/// Sorts a list into descending order.
pub fn sort_descending<T: Ordered>(list: Vec<T>) -> (r: Vec<T>)
    ensures
        is_sorted(r@, false),
        r@.to_multiset() == list@.to_multiset(),
{
    merge_sort(list, false)
}

} // verus!
