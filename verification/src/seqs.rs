//! Counting and searching in sequences.

use vstd::prelude::*;

verus! {

/// How many items of `s` satisfy `f`.
pub open spec fn count<T>(s: Seq<T>, f: spec_fn(T) -> bool) -> nat
    decreases s.len(),
{
    if s.len() == 0 {
        0
    } else {
        count(s.drop_last(), f) + if f(s.last()) {
            1nat
        } else {
            0nat
        }
    }
}

/// The place of the first item of `s` that satisfies `f`; the length of `s`
/// where none does.
pub open spec fn first_where<T>(s: Seq<T>, f: spec_fn(T) -> bool) -> int
    decreases s.len(),
{
    if s.len() == 0 {
        0
    } else {
        let before = first_where(s.drop_last(), f);
        if before < s.len() - 1 {
            before
        } else if f(s.last()) {
            s.len() - 1
        } else {
            s.len() as int
        }
    }
}

/// The place of the last item of `s` that satisfies `f`; -1 where none does.
pub open spec fn last_where<T>(s: Seq<T>, f: spec_fn(T) -> bool) -> int
    decreases s.len(),
{
    if s.len() == 0 {
        -1
    } else if f(s.last()) {
        s.len() - 1
    } else {
        last_where(s.drop_last(), f)
    }
}

/// Counting over one more item.
pub proof fn lemma_count_push<T>(s: Seq<T>, x: T, f: spec_fn(T) -> bool)
    ensures
        count(s.push(x), f) == count(s, f) + if f(x) {
            1nat
        } else {
            0nat
        },
{
    assert(s.push(x).drop_last() =~= s);
}

/// Counting over a prefix that grows by one item.
pub proof fn lemma_count_step<T>(s: Seq<T>, k: int, f: spec_fn(T) -> bool)
    requires
        0 <= k < s.len(),
    ensures
        count(s.take(k + 1), f) == count(s.take(k), f) + if f(s[k]) {
            1nat
        } else {
            0nat
        },
{
    assert(s.take(k + 1).drop_last() =~= s.take(k));
}

/// Counting over two sequences laid end to end.
pub proof fn lemma_count_add<T>(a: Seq<T>, b: Seq<T>, f: spec_fn(T) -> bool)
    ensures
        count(a + b, f) == count(a, f) + count(b, f),
    decreases b.len(),
{
    if b.len() == 0 {
        assert(a + b =~= a);
    } else {
        assert((a + b).drop_last() =~= a + b.drop_last());
        lemma_count_add(a, b.drop_last(), f);
    }
}

/// Replacing an item by one that `f` judges alike leaves the count.
pub proof fn lemma_count_update<T>(s: Seq<T>, i: int, x: T, f: spec_fn(T) -> bool)
    requires
        0 <= i < s.len(),
    ensures
        count(s.update(i, x), f) == count(s, f) + (if f(x) {
            1int
        } else {
            0int
        }) - (if f(s[i]) {
            1int
        } else {
            0int
        }),
    decreases s.len(),
{
    if i == s.len() - 1 {
        assert(s.update(i, x).drop_last() =~= s.drop_last());
    } else {
        assert(s.update(i, x).drop_last() =~= s.drop_last().update(i, x));
        lemma_count_update(s.drop_last(), i, x, f);
    }
}

/// A count is zero exactly where no item satisfies `f`.
pub proof fn lemma_count_zero<T>(s: Seq<T>, f: spec_fn(T) -> bool)
    ensures
        count(s, f) == 0 <==> forall|i: int| 0 <= i < s.len() ==> !f(s[i]),
    decreases s.len(),
{
    if s.len() > 0 {
        lemma_count_zero(s.drop_last(), f);
        if count(s, f) == 0 {
            assert forall|i: int| 0 <= i < s.len() implies !f(s[i]) by {
                if i < s.len() - 1 {
                    assert(s.drop_last()[i] == s[i]);
                }
            }
        } else {
            if f(s.last()) {
            } else {
                let j = choose|j: int| 0 <= j < s.drop_last().len() && f(s.drop_last()[j]);
                assert(f(s[j]));
            }
        }
    }
}

/// What `first_where` finds: nothing before it satisfies `f`, and the item
/// at it does, if it lies in the sequence.
pub proof fn lemma_first_where<T>(s: Seq<T>, f: spec_fn(T) -> bool)
    ensures
        0 <= first_where(s, f) <= s.len(),
        first_where(s, f) < s.len() ==> f(s[first_where(s, f)]),
        forall|j: int| 0 <= j < first_where(s, f) ==> !f(s[j]),
    decreases s.len(),
{
    if s.len() > 0 {
        lemma_first_where(s.drop_last(), f);
        let before = first_where(s.drop_last(), f);
        assert forall|j: int| 0 <= j < first_where(s, f) implies !f(s[j]) by {
            if j < s.len() - 1 {
                assert(s.drop_last()[j] == s[j]);
            }
        }
        if before < s.len() - 1 {
            assert(s.drop_last()[before] == s[before]);
        }
    }
}

/// The place `k` is what `first_where` finds, if nothing before it satisfies
/// `f` and the item at it does or `k` is the length.
pub proof fn lemma_first_where_is<T>(s: Seq<T>, f: spec_fn(T) -> bool, k: int)
    requires
        0 <= k <= s.len(),
        forall|j: int| 0 <= j < k ==> !f(s[j]),
        k < s.len() ==> f(s[k]),
    ensures
        first_where(s, f) == k,
{
    lemma_first_where(s, f);
    let r = first_where(s, f);
    if r < k {
        assert(f(s[r]));
    } else if r > k {
        assert(!f(s[k]));
    }
}

/// What `last_where` finds: nothing after it satisfies `f`, and the item at
/// it does, if there is one.
pub proof fn lemma_last_where<T>(s: Seq<T>, f: spec_fn(T) -> bool)
    ensures
        -1 <= last_where(s, f) < s.len(),
        last_where(s, f) >= 0 ==> f(s[last_where(s, f)]),
        forall|j: int| last_where(s, f) < j < s.len() ==> !f(s[j]),
        last_where(s, f) >= 0 <==> count(s, f) > 0,
    decreases s.len(),
{
    if s.len() > 0 {
        lemma_last_where(s.drop_last(), f);
        if !f(s.last()) {
            let r = last_where(s.drop_last(), f);
            if r >= 0 {
                assert(s.drop_last()[r] == s[r]);
            }
            assert forall|j: int| r < j < s.len() implies !f(s[j]) by {
                if j < s.len() - 1 {
                    assert(s.drop_last()[j] == s[j]);
                }
            }
        }
    }
}

/// The place `k` is what `last_where` finds, if the item at it satisfies `f`
/// and nothing after it does.
pub proof fn lemma_last_where_is<T>(s: Seq<T>, f: spec_fn(T) -> bool, k: int)
    requires
        -1 <= k < s.len(),
        forall|j: int| k < j < s.len() ==> !f(s[j]),
        k >= 0 ==> f(s[k]),
    ensures
        last_where(s, f) == k,
{
    lemma_last_where(s, f);
    let r = last_where(s, f);
    if r > k {
        assert(f(s[r]));
    } else if r < k {
        assert(!f(s[k]));
    }
}

} // verus!

verus! {

/// Where every item satisfies `h` exactly if it satisfies one of `f` and `g`,
/// and never both, the count under `h` is the sum of the two counts.
pub proof fn lemma_count_split<T>(
    s: Seq<T>,
    h: spec_fn(T) -> bool,
    f: spec_fn(T) -> bool,
    g: spec_fn(T) -> bool,
)
    requires
        forall|i: int| 0 <= i < s.len() ==> h(s[i]) == (f(s[i]) || g(s[i])),
        forall|i: int| 0 <= i < s.len() ==> !(f(s[i]) && g(s[i])),
    ensures
        count(s, h) == count(s, f) + count(s, g),
    decreases s.len(),
{
    if s.len() > 0 {
        lemma_count_split(s.drop_last(), h, f, g);
    }
}

} // verus!

verus! {

/// Two sequences, of whatever items, that `f` and `h` judge alike place by
/// place count alike.
pub proof fn lemma_count_matched<A, B>(a: Seq<A>, b: Seq<B>, f: spec_fn(A) -> bool, h: spec_fn(B) -> bool)
    requires
        a.len() == b.len(),
        forall|i: int| 0 <= i < a.len() ==> f(a[i]) == h(b[i]),
    ensures
        count(a, f) == count(b, h),
    decreases a.len(),
{
    if a.len() > 0 {
        lemma_count_matched(a.drop_last(), b.drop_last(), f, h);
    }
}

/// Where exactly the item at `k` satisfies `f`, the count is one.
pub proof fn lemma_count_one<T>(s: Seq<T>, f: spec_fn(T) -> bool, k: int)
    requires
        0 <= k < s.len(),
        forall|i: int| 0 <= i < s.len() ==> (f(s[i]) <==> i == k),
    ensures
        count(s, f) == 1,
    decreases s.len(),
{
    if k == s.len() - 1 {
        lemma_count_zero(s.drop_last(), f);
    } else {
        lemma_count_one(s.drop_last(), f, k);
    }
}

pub open spec fn is_value<T>(x: T) -> spec_fn(T) -> bool {
    |y: T| y == x
}

/// Counting the items equal to `x` gives what the multiset of the sequence
/// holds of `x`.
pub proof fn lemma_count_is_multiplicity<T>(s: Seq<T>, x: T)
    ensures
        count(s, is_value(x)) == s.to_multiset().count(x),
    decreases s.len(),
{
    broadcast use vstd::multiset::group_multiset_axioms;

    if s.len() == 0 {
        vstd::seq_lib::to_multiset_contains(s, x);
        assert(!s.contains(x));
    } else {
        lemma_count_is_multiplicity(s.drop_last(), x);
        vstd::seq_lib::to_multiset_build(s.drop_last(), s.last());
        assert(s.drop_last().push(s.last()) =~= s);
    }
}

/// The items of `s` that satisfy `f`, in their order.
pub open spec fn keep<T>(s: Seq<T>, f: spec_fn(T) -> bool) -> Seq<T>
    decreases s.len(),
{
    if s.len() == 0 {
        Seq::empty()
    } else if f(s.last()) {
        keep(s.drop_last(), f).push(s.last())
    } else {
        keep(s.drop_last(), f)
    }
}

/// What is kept satisfies `f`, and is counted as in the whole where the
/// counted items are all kept, and as nothing where none of them is.
pub proof fn lemma_keep<T>(s: Seq<T>, f: spec_fn(T) -> bool, h: spec_fn(T) -> bool)
    ensures
        keep(s, f).len() <= s.len(),
        forall|i: int| 0 <= i < keep(s, f).len() ==> f(#[trigger] keep(s, f)[i]),
        (forall|i: int| 0 <= i < s.len() && h(s[i]) ==> f(s[i])) ==> count(keep(s, f), h) == count(
            s,
            h,
        ),
        (forall|i: int| 0 <= i < s.len() && h(s[i]) ==> !f(s[i])) ==> count(keep(s, f), h) == 0,
    decreases s.len(),
{
    if s.len() > 0 {
        lemma_keep(s.drop_last(), f, h);
        assert(forall|i: int| 0 <= i < s.drop_last().len() ==> s.drop_last()[i] == s[i]);
        if f(s.last()) {
            lemma_count_push(keep(s.drop_last(), f), s.last(), h);
        }
    }
}

/// Keeping over a prefix that grows by one item.
pub proof fn lemma_keep_step<T>(s: Seq<T>, k: int, f: spec_fn(T) -> bool)
    requires
        0 <= k < s.len(),
    ensures
        keep(s.take(k + 1), f) == if f(s[k]) {
            keep(s.take(k), f).push(s[k])
        } else {
            keep(s.take(k), f)
        },
{
    assert(s.take(k + 1).drop_last() =~= s.take(k));
}

} // verus!

verus! {

/// What holds of every item holds of every item that is kept.
pub proof fn lemma_keep_all<T>(s: Seq<T>, f: spec_fn(T) -> bool, p: spec_fn(T) -> bool)
    requires
        forall|i: int| 0 <= i < s.len() ==> p(s[i]),
    ensures
        forall|i: int| 0 <= i < keep(s, f).len() ==> p(#[trigger] keep(s, f)[i]),
    decreases s.len(),
{
    if s.len() > 0 {
        let front = s.drop_last();
        assert forall|i: int| 0 <= i < front.len() implies p(front[i]) by {
            assert(front[i] == s[i]);
        }
        lemma_keep_all(front, f, p);
        assert(p(s[s.len() - 1]));
        assert forall|i: int| 0 <= i < keep(s, f).len() implies p(#[trigger] keep(s, f)[i]) by {
            if i < keep(front, f).len() {
                assert(keep(s, f)[i] == keep(front, f)[i]);
            }
        }
    }
}

/// Where every item that `f` counts in `b` is one that `h` counts in `a`,
/// place by place, `b` counts no more than `a`.
pub proof fn lemma_count_le<A, B>(a: Seq<A>, b: Seq<B>, h: spec_fn(A) -> bool, f: spec_fn(B) -> bool)
    requires
        a.len() == b.len(),
        forall|i: int| 0 <= i < a.len() ==> (f(b[i]) ==> h(a[i])),
    ensures
        count(b, f) <= count(a, h),
    decreases a.len(),
{
    if a.len() > 0 {
        lemma_count_le(a.drop_last(), b.drop_last(), h, f);
    }
}

/// Where `first_where` finds nothing, the count is zero, and the other way
/// round.
pub proof fn lemma_none_found<T>(s: Seq<T>, f: spec_fn(T) -> bool)
    ensures
        first_where(s, f) >= s.len() <==> count(s, f) == 0,
{
    lemma_first_where(s, f);
    lemma_count_zero(s, f);
}

/// Two items at different places that satisfy `f` make a count of two at
/// least.
pub proof fn lemma_count_two<T>(s: Seq<T>, f: spec_fn(T) -> bool, i: int, j: int)
    requires
        0 <= i < j < s.len(),
        f(s[i]),
        f(s[j]),
    ensures
        count(s, f) >= 2,
    decreases s.len(),
{
    if j == s.len() - 1 {
        lemma_count_zero(s.drop_last(), f);
        assert(f(s.drop_last()[i]));
    } else {
        lemma_count_two(s.drop_last(), f, i, j);
    }
}

/// As many items are kept as `f` counts.
pub proof fn lemma_keep_len<T>(s: Seq<T>, f: spec_fn(T) -> bool)
    ensures
        keep(s, f).len() == count(s, f),
    decreases s.len(),
{
    if s.len() > 0 {
        lemma_keep_len(s.drop_last(), f);
    }
}

/// Where exactly the items at the places from `a` up to, not including,
/// `b` satisfy `f`, the count is the length of that stretch.
pub proof fn lemma_count_stretch<T>(s: Seq<T>, f: spec_fn(T) -> bool, a: int, b: int)
    requires
        0 <= a <= b <= s.len(),
        forall|i: int| 0 <= i < s.len() ==> (f(s[i]) <==> a <= i < b),
    ensures
        count(s, f) == b - a,
    decreases s.len(),
{
    if s.len() > 0 {
        let front = s.drop_last();
        let n = s.len() - 1;
        assert(forall|i: int| 0 <= i < front.len() ==> front[i] == s[i]);
        if b <= n {
            lemma_count_stretch(front, f, a, b);
        } else if a <= n {
            lemma_count_stretch(front, f, a, n);
        } else {
            lemma_count_stretch(front, f, 0, 0);
        }
    }
}

/// An item that is kept stands among the kept items at the place that the
/// number of kept items before it gives.
pub proof fn lemma_keep_place<T>(s: Seq<T>, f: spec_fn(T) -> bool, i: int)
    requires
        0 <= i < s.len(),
        f(s[i]),
    ensures
        keep(s.take(i), f).len() < keep(s, f).len(),
        keep(s, f)[keep(s.take(i), f).len() as int] == s[i],
    decreases s.len(),
{
    let front = s.drop_last();
    if i == s.len() - 1 {
        assert(s.take(i) =~= front);
    } else {
        lemma_keep_place(front, f, i);
        assert(front.take(i) =~= s.take(i));
    }
}

/// Where the count is two at least, two items at different places
/// satisfy `f`. The lemma gives the two places.
pub proof fn lemma_two_counted<T>(s: Seq<T>, f: spec_fn(T) -> bool) -> (places: (int, int))
    requires
        count(s, f) >= 2,
    ensures
        0 <= places.0 < places.1 < s.len(),
        f(s[places.0]),
        f(s[places.1]),
    decreases s.len(),
{
    let front = s.drop_last();
    if f(s.last()) {
        lemma_count_zero(front, f);
        let i = choose|i: int| 0 <= i < front.len() && f(front[i]);
        assert(front[i] == s[i]);
        (i, s.len() - 1)
    } else {
        let (i, j) = lemma_two_counted(front, f);
        assert(front[i] == s[i] && front[j] == s[j]);
        (i, j)
    }
}

} // verus!
