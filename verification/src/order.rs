//! Sorting by a strict weak order, in O(n log n) comparisons and moves.
use vstd::prelude::*;

verus! {

/// An order to sort values of `T` by: `before(a, b)` when `a` goes strictly
/// before `b`. Values that neither goes before keep their input order.
pub trait SortOrder<T> {
    /// `a` goes strictly before `b`.
    spec fn before(a: T, b: T) -> bool;

    /// `before` is asymmetric, and a value that goes before `a` goes before
    /// every `b` that `a` does not come after.
    proof fn lemma_order(x: T, a: T, b: T)
        ensures
            Self::before(x, a) ==> !Self::before(a, x),
            Self::before(x, a) && !Self::before(b, a) ==> Self::before(x, b),
    ;

    /// Whether `a` goes strictly before `b`.
    fn goes_before(a: &T, b: &T) -> (r: bool)
        ensures
            r == Self::before(*a, *b),
    ;
}

/// No value of `s` goes before one ahead of it.
pub open spec fn sorted_by<T, O: SortOrder<T>>(s: Seq<T>) -> bool {
    forall|i: int, j: int| 0 <= i < j < s.len() ==> !O::before(#[trigger] s[j], #[trigger] s[i])
}

/// No value of `s` goes before one behind it (`s` is in descending order).
pub open spec fn descending_by<T, O: SortOrder<T>>(s: Seq<T>) -> bool {
    forall|i: int, j: int| 0 <= i < j < s.len() ==> !O::before(#[trigger] s[i], #[trigger] s[j])
}

/// No value of `low` goes after a value of `high`.
pub open spec fn none_after<T, O: SortOrder<T>>(low: Seq<T>, high: Seq<T>) -> bool {
    forall|x: int, y: int|
        0 <= x < low.len() && 0 <= y < high.len() ==> !O::before(#[trigger] high[y], #[trigger] low[x])
}

proof fn lemma_not_before_transitive<T, O: SortOrder<T>>(x: T, y: T, z: T)
    requires
        !O::before(y, x),
        !O::before(z, y),
    ensures
        !O::before(z, x),
{
    O::lemma_order(z, x, y);
}

proof fn lemma_pop_multiset<T>(s: Seq<T>)
    requires
        s.len() > 0,
    ensures
        s.to_multiset() == s.drop_last().to_multiset().insert(s.last()),
{
    broadcast use vstd::seq_lib::group_to_multiset_ensures;

    assert(s =~= s.drop_last().push(s.last()));
}

/// Merges two sorted vectors into one sorted vector; on ties the values of
/// `a` come first.
fn merge<T, O: SortOrder<T>>(a: Vec<T>, b: Vec<T>) -> (r: Vec<T>)
    requires
        sorted_by::<T, O>(a@),
        sorted_by::<T, O>(b@),
    ensures
        sorted_by::<T, O>(r@),
        r@.to_multiset() == a@.to_multiset().add(b@.to_multiset()),
{
    broadcast use vstd::seq_lib::group_to_multiset_ensures;
    broadcast use vstd::multiset::group_multiset_axioms;

    let ghost total = a@.to_multiset().add(b@.to_multiset());
    let mut a = a;
    let mut b = b;
    let mut acc: Vec<T> = Vec::new();
    while a.len() > 0 || b.len() > 0
        invariant
            sorted_by::<T, O>(a@),
            sorted_by::<T, O>(b@),
            descending_by::<T, O>(acc@),
            none_after::<T, O>(a@, acc@),
            none_after::<T, O>(b@, acc@),
            acc@.to_multiset().add(a@.to_multiset()).add(b@.to_multiset()) == total,
        decreases a@.len() + b@.len(),
    {
        let take_a = if a.len() == 0 {
            false
        } else if b.len() == 0 {
            true
        } else {
            O::goes_before(&b[b.len() - 1], &a[a.len() - 1])
        };
        let ghost old_a = a@;
        let ghost old_b = b@;
        let ghost old_acc = acc@;
        if take_a {
            let x = a.pop().unwrap();
            proof {
                assert(x == old_a.last());
                assert(a@ == old_a.drop_last());
                lemma_pop_multiset(old_a);
                assert forall|i: int| 0 <= i < a@.len() implies !O::before(x, #[trigger] a@[i]) by {
                    assert(old_a[i] == a@[i]);
                    assert(old_a[old_a.len() - 1] == x);
                }
                if old_b.len() > 0 {
                    let lb = old_b.last();
                    assert(O::before(lb, x));
                    assert forall|i: int| 0 <= i < b@.len() implies !O::before(x, #[trigger] b@[i]) by {
                        let y = b@[i];
                        if i < b@.len() - 1 {
                            assert(!O::before(lb, y));
                        }
                        O::lemma_order(x, y, lb);
                        O::lemma_order(lb, x, lb);
                    }
                }
            }
            acc.push(x);
            proof {
                assert forall|i: int, j: int| 0 <= i < j < acc@.len() implies !O::before(
                    #[trigger] acc@[i],
                    #[trigger] acc@[j],
                ) by {
                    if j == acc@.len() - 1 {
                        assert(acc@[i] == old_acc[i]);
                        assert(old_a[old_a.len() - 1] == x);
                    } else {
                        assert(acc@[i] == old_acc[i] && acc@[j] == old_acc[j]);
                    }
                }
                assert forall|p: int, q: int| 0 <= p < a@.len() && 0 <= q < acc@.len() implies !O::before(
                    #[trigger] acc@[q],
                    #[trigger] a@[p],
                ) by {
                    assert(a@[p] == old_a[p]);
                    if q < old_acc.len() {
                        assert(acc@[q] == old_acc[q]);
                    }
                }
                assert forall|p: int, q: int| 0 <= p < b@.len() && 0 <= q < acc@.len() implies !O::before(
                    #[trigger] acc@[q],
                    #[trigger] b@[p],
                ) by {
                    if q < old_acc.len() {
                        assert(acc@[q] == old_acc[q]);
                    }
                }
                assert(acc@ == old_acc.push(x));
                vstd::seq_lib::to_multiset_build(old_acc, x);
                assert(acc@.to_multiset().add(a@.to_multiset()).add(b@.to_multiset()) =~= total);
            }
        } else {
            let y = b.pop().unwrap();
            proof {
                assert(y == old_b.last());
                assert(b@ == old_b.drop_last());
                lemma_pop_multiset(old_b);
                assert forall|i: int| 0 <= i < b@.len() implies !O::before(y, #[trigger] b@[i]) by {
                    assert(old_b[i] == b@[i]);
                    assert(old_b[old_b.len() - 1] == y);
                }
                if old_a.len() > 0 {
                    let la = old_a.last();
                    assert(!O::before(y, la));
                    assert forall|i: int| 0 <= i < a@.len() implies !O::before(y, #[trigger] a@[i]) by {
                        let x = a@[i];
                        assert(old_a[i] == x);
                        assert(old_a[old_a.len() - 1] == la);
                        if i < old_a.len() - 1 {
                            assert(!O::before(old_a[old_a.len() - 1], old_a[i]));
                            lemma_not_before_transitive::<T, O>(x, la, y);
                        }
                    }
                }
            }
            acc.push(y);
            proof {
                assert forall|i: int, j: int| 0 <= i < j < acc@.len() implies !O::before(
                    #[trigger] acc@[i],
                    #[trigger] acc@[j],
                ) by {
                    if j == acc@.len() - 1 {
                        assert(acc@[i] == old_acc[i]);
                        assert(old_b[old_b.len() - 1] == y);
                    } else {
                        assert(acc@[i] == old_acc[i] && acc@[j] == old_acc[j]);
                    }
                }
                assert forall|p: int, q: int| 0 <= p < a@.len() && 0 <= q < acc@.len() implies !O::before(
                    #[trigger] acc@[q],
                    #[trigger] a@[p],
                ) by {
                    if q < old_acc.len() {
                        assert(acc@[q] == old_acc[q]);
                    }
                }
                assert forall|p: int, q: int| 0 <= p < b@.len() && 0 <= q < acc@.len() implies !O::before(
                    #[trigger] acc@[q],
                    #[trigger] b@[p],
                ) by {
                    assert(b@[p] == old_b[p]);
                    if q < old_acc.len() {
                        assert(acc@[q] == old_acc[q]);
                    }
                }
                assert(acc@ == old_acc.push(y));
                vstd::seq_lib::to_multiset_build(old_acc, y);
                assert(acc@.to_multiset().add(a@.to_multiset()).add(b@.to_multiset()) =~= total);
            }
        }
    }
    assert(a@.to_multiset() =~= vstd::multiset::Multiset::empty());
    assert(b@.to_multiset() =~= vstd::multiset::Multiset::empty());
    assert(acc@.to_multiset() =~= total);
    let ghost merged = acc@;
    let n = acc.len();
    let mut out: Vec<T> = Vec::new();
    while acc.len() > 0
        invariant
            n == merged.len(),
            acc@ == merged.take(acc@.len() as int),
            out@.len() + acc@.len() == n,
            forall|i: int| 0 <= i < out@.len() ==> #[trigger] out@[i] == merged[n - 1 - i],
            out@.to_multiset().add(acc@.to_multiset()) == merged.to_multiset(),
        decreases acc@.len(),
    {
        let ghost old_acc = acc@;
        let ghost old_out = out@;
        let x = acc.pop().unwrap();
        proof {
            lemma_pop_multiset(old_acc);
            assert(acc@ =~= merged.take(acc@.len() as int));
        }
        out.push(x);
        proof {
            assert(out@ == old_out.push(x));
            vstd::seq_lib::to_multiset_build(old_out, x);
            assert(out@.to_multiset().add(acc@.to_multiset()) =~= merged.to_multiset());
        }
    }
    assert(out@.to_multiset() =~= merged.to_multiset());
    assert forall|i: int, j: int| 0 <= i < j < out@.len() implies !O::before(
        #[trigger] out@[j],
        #[trigger] out@[i],
    ) by {
        assert(out@[i] == merged[n - 1 - i]);
        assert(out@[j] == merged[n - 1 - j]);
    }
    out
}

/// The values of `v` sorted by `O`: a permutation of them in which no value
/// goes before one ahead of it.
pub fn merge_sort<T, O: SortOrder<T>>(v: Vec<T>) -> (r: Vec<T>)
    ensures
        sorted_by::<T, O>(r@),
        r@.to_multiset() == v@.to_multiset(),
    decreases v@.len(),
{
    if v.len() <= 1 {
        return v;
    }
    let ghost whole = v@;
    let mut left = v;
    let mid = left.len() / 2;
    let right = left.split_off(mid);
    proof {
        assert(whole =~= left@ + right@);
        vstd::seq_lib::lemma_multiset_commutative(left@, right@);
    }
    let l = merge_sort::<T, O>(left);
    let r = merge_sort::<T, O>(right);
    merge::<T, O>(l, r)
}

} // verus!
