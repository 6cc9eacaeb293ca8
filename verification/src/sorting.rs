//! Stable sorting and removal of duplicates.
use vstd::prelude::*;

verus! {

/// `sorted` with `x` put behind the last element that `x` does not come before.
pub open spec fn insert_stable<T>(sorted: Seq<T>, x: T, less: spec_fn(T, T) -> bool) -> Seq<T>
    decreases sorted.len(),
{
    if sorted.len() > 0 && less(x, sorted.last()) {
        insert_stable(sorted.drop_last(), x, less).push(sorted.last())
    } else {
        sorted.push(x)
    }
}

/// `s` in the order of `less`; elements that come neither way keep their order.
pub open spec fn stable_sort<T>(s: Seq<T>, less: spec_fn(T, T) -> bool) -> Seq<T>
    decreases s.len(),
{
    if s.len() == 0 {
        Seq::empty()
    } else {
        insert_stable(stable_sort(s.drop_last(), less), s.last(), less)
    }
}

/// `s` with only the first of equal elements.
pub open spec fn distinct<T>(s: Seq<T>) -> Seq<T>
    decreases s.len(),
{
    if s.len() == 0 {
        Seq::empty()
    } else {
        let front = distinct(s.drop_last());
        if front.contains(s.last()) {
            front
        } else {
            front.push(s.last())
        }
    }
}

/// The first numbers.
pub open spec fn numbers_below(n: nat) -> Seq<usize> {
    Seq::new(n, |i: int| i as usize)
}

/// The first numbers.
pub(crate) fn count_up(n: usize) -> (out: Vec<usize>)
    ensures
        out@ == numbers_below(n as nat),
{
    let mut out: Vec<usize> = Vec::new();
    let mut i: usize = 0;
    while i < n
        invariant
            i <= n,
            out@ == numbers_below(i as nat),
        decreases n - i,
    {
        out.push(i);
        i += 1;
        assert(out@ =~= numbers_below(i as nat));
    }
    out
}

/// Where a stable insertion puts its element.
proof fn lemma_insert_at<T>(sorted: Seq<T>, x: T, less: spec_fn(T, T) -> bool, at: int)
    requires
        0 <= at <= sorted.len(),
        at > 0 ==> !less(x, sorted[at - 1]),
        forall|k: int| at <= k < sorted.len() ==> less(x, #[trigger] sorted[k]),
    ensures
        insert_stable(sorted, x, less) == sorted.insert(at, x),
    decreases sorted.len(),
{
    if at < sorted.len() {
        let front = sorted.drop_last();
        assert(less(x, sorted[sorted.len() - 1]));
        lemma_insert_at(front, x, less, at);
        assert(front.insert(at, x).push(sorted.last()) =~= sorted.insert(at, x));
    } else {
        assert(sorted.push(x) =~= sorted.insert(at, x));
    }
}

/// Sorts a list by what `view` sees of its elements; those that come neither way keep their order.
pub(crate) fn sort_by<T, V, F: Fn(&T, &T) -> bool>(
    items: &mut Vec<T>,
    before: F,
    Ghost(view): Ghost<spec_fn(T) -> V>,
    Ghost(less): Ghost<spec_fn(V, V) -> bool>,
)
    requires
        forall|a: T, b: T|
            old(items)@.contains(a) && old(items)@.contains(b) ==> #[trigger] call_requires(
                before,
                (&a, &b),
            ),
        forall|a: T, b: T, yes: bool| #[trigger]
            call_ensures(before, (&a, &b), yes) ==> yes == less(view(a), view(b)),
    ensures
        final(items)@.map_values(view) == stable_sort(old(items)@.map_values(view), less),
{
    let ghost start = items@;
    let ghost all = start.map_values(view);
    let n: usize = items.len();
    let mut i: usize = 0;
    assert(items@.take(0).map_values(view) =~= stable_sort(all.take(0), less));
    while i < n
        invariant
            i <= n,
            n == items.len(),
            n == start.len(),
            all == start.map_values(view),
            items@.take(i as int).map_values(view) == stable_sort(all.take(i as int), less),
            items@.skip(i as int) == start.skip(i as int),
            forall|k: int| 0 <= k < n ==> start.contains(#[trigger] items@[k]),
            forall|a: T, b: T|
                start.contains(a) && start.contains(b) ==> #[trigger] call_requires(
                    before,
                    (&a, &b),
                ),
            forall|a: T, b: T, yes: bool| #[trigger]
                call_ensures(before, (&a, &b), yes) ==> yes == less(view(a), view(b)),
        decreases n - i,
    {
        let ghost full = items@;
        let ghost sorted = full.take(i as int);
        let item = items.remove(i);
        let ghost rest = items@;
        let mut at: usize = i;
        assert(start.contains(item));
        while at > 0 && before(&item, &items[at - 1])
            invariant
                at <= i < n,
                items@ == rest,
                rest.len() == n - 1,
                sorted == rest.take(i as int),
                start.contains(item),
                forall|k: int| 0 <= k < n - 1 ==> start.contains(#[trigger] rest[k]),
                forall|k: int| at <= k < i ==> less(view(item), view(#[trigger] sorted[k])),
                forall|a: T, b: T|
                    start.contains(a) && start.contains(b) ==> #[trigger] call_requires(
                        before,
                        (&a, &b),
                    ),
                forall|a: T, b: T, yes: bool| #[trigger]
                    call_ensures(before, (&a, &b), yes) ==> yes == less(view(a), view(b)),
            ensures
                at > 0 ==> !less(view(item), view(sorted[at - 1])),
            decreases at,
        {
            at -= 1;
        }
        items.insert(at, item);
        proof {
            let seen = sorted.map_values(view);
            assert(item == full[i as int] && full[i as int] == full.skip(i as int)[0]);
            assert(item == start.skip(i as int)[0]);
            assert(all.take(i as int + 1).drop_last() =~= all.take(i as int));
            assert(all.take(i as int + 1).last() == view(item));
            assert forall|k: int| at <= k < seen.len() implies less(
                view(item),
                #[trigger] seen[k],
            ) by {
                assert(seen[k] == view(sorted[k]));
            }
            lemma_insert_at(seen, view(item), less, at as int);
            assert(items@.take(i as int + 1).map_values(view) =~= seen.insert(
                at as int,
                view(item),
            ));
            assert(items@.skip(i as int + 1) =~= full.skip(i as int).drop_first());
            assert(start.skip(i as int + 1) =~= start.skip(i as int).drop_first());
        }
        i += 1;
    }
    assert(items@.take(n as int) =~= items@);
    assert(all.take(n as int) =~= all);
}

/// Sorting keeps every element, as often as it occurs.
pub proof fn law_sort_keeps_elements<T>(s: Seq<T>, less: spec_fn(T, T) -> bool)
    ensures
        stable_sort(s, less).to_multiset() == s.to_multiset(),
    decreases s.len(),
{
    if s.len() > 0 {
        let front = stable_sort(s.drop_last(), less);
        law_sort_keeps_elements(s.drop_last(), less);
        lemma_insert_multiset(front, s.last(), less);
        s.drop_last().to_multiset_ensures();
        assert(s.drop_last().push(s.last()) =~= s);
    } else {
        assert(s =~= Seq::<T>::empty());
    }
}

proof fn lemma_insert_multiset<T>(sorted: Seq<T>, x: T, less: spec_fn(T, T) -> bool)
    ensures
        insert_stable(sorted, x, less).to_multiset() == sorted.to_multiset().insert(x),
    decreases sorted.len(),
{
    if sorted.len() > 0 && less(x, sorted.last()) {
        let front = sorted.drop_last();
        lemma_insert_multiset(front, x, less);
        insert_stable(front, x, less).to_multiset_ensures();
        front.to_multiset_ensures();
        assert(front.push(sorted.last()) =~= sorted);
        assert(front.to_multiset().insert(x).insert(sorted.last())
            =~= front.to_multiset().insert(sorted.last()).insert(x));
    } else {
        sorted.to_multiset_ensures();
    }
}

/// Whether no element comes after one that it should come before.
pub open spec fn in_sequence<T>(s: Seq<T>, less: spec_fn(T, T) -> bool) -> bool {
    forall|i: int, j: int| 0 <= i < j < s.len() ==> !less(#[trigger] s[j], #[trigger] s[i])
}

/// Whether `less` compares by some rank: what does not come before, compared through a third
/// element, does not come before either.
pub open spec fn compares_ranks<T>(less: spec_fn(T, T) -> bool) -> bool {
    &&& forall|a: T, b: T, c: T|
        !#[trigger] less(a, b) && !#[trigger] less(b, c) ==> !less(a, c)
    &&& forall|a: T, b: T| #[trigger] less(a, b) ==> !less(b, a)
}

/// Sorting puts the elements in order.
pub proof fn law_sort_orders<T>(s: Seq<T>, less: spec_fn(T, T) -> bool)
    requires
        compares_ranks(less),
    ensures
        in_sequence(stable_sort(s, less), less),
    decreases s.len(),
{
    if s.len() > 0 {
        law_sort_orders(s.drop_last(), less);
        let sorted = stable_sort(s.drop_last(), less);
        let x = s.last();
        let at = insert_position(sorted, x, less);
        lemma_insert_at(sorted, x, less, at);
        let all = sorted.insert(at, x);
        assert forall|i: int, j: int| 0 <= i < j < all.len() implies !less(
            #[trigger] all[j],
            #[trigger] all[i],
        ) by {
            if j == at {
                if i < at - 1 {
                    assert(!less(sorted[at - 1], sorted[i]));
                    assert(!less(x, sorted[at - 1]));
                }
            } else if i == at {
                assert(less(x, sorted[j - 1]));
            } else {
                let ii = if i < at {
                    i
                } else {
                    i - 1
                };
                let jj = if j < at {
                    j
                } else {
                    j - 1
                };
                assert(!less(sorted[jj], sorted[ii]));
            }
        }
    }
}

proof fn insert_position<T>(sorted: Seq<T>, x: T, less: spec_fn(T, T) -> bool) -> (at: int)
    ensures
        0 <= at <= sorted.len(),
        at > 0 ==> !less(x, sorted[at - 1]),
        forall|k: int| at <= k < sorted.len() ==> less(x, #[trigger] sorted[k]),
    decreases sorted.len(),
{
    if sorted.len() > 0 && less(x, sorted.last()) {
        let at = insert_position(sorted.drop_last(), x, less);
        assert forall|k: int| at <= k < sorted.len() implies less(x, #[trigger] sorted[k]) by {
            if k < sorted.len() - 1 {
                assert(sorted[k] == sorted.drop_last()[k]);
            }
        }
        at
    } else {
        sorted.len() as int
    }
}

/// Removing duplicates keeps every element exactly once.
pub proof fn law_distinct<T>(s: Seq<T>)
    ensures
        forall|x: T| distinct(s).contains(x) <==> s.contains(x),
        distinct(s).no_duplicates(),
    decreases s.len(),
{
    if s.len() > 0 {
        let front = s.drop_last();
        law_distinct(front);
        assert forall|x: T| distinct(s).contains(x) <==> s.contains(x) by {
            if s.contains(x) {
                let i = choose|i: int| 0 <= i < s.len() && s[i] == x;
                if i < front.len() {
                    assert(front[i] == x);
                    assert(front.contains(x));
                    let k = choose|k: int| 0 <= k < distinct(front).len() && distinct(front)[k] == x;
                    assert(distinct(s)[k] == x);
                } else if !distinct(front).contains(x) {
                    assert(distinct(s).last() == x);
                }
            }
            if distinct(s).contains(x) {
                let k = choose|k: int| 0 <= k < distinct(s).len() && distinct(s)[k] == x;
                if k < distinct(front).len() {
                    assert(distinct(front).contains(distinct(front)[k]));
                    assert(front.contains(x));
                    let i = choose|i: int| 0 <= i < front.len() && front[i] == x;
                    assert(s[i] == x);
                } else {
                    assert(s[s.len() - 1] == x);
                }
            }
        }
    }
}

/// A further element is put behind all that it does not come before, and before all others: those
/// that come neither way keep their order.
pub proof fn law_sort_is_stable<T>(s: Seq<T>, x: T, less: spec_fn(T, T) -> bool)
    requires
        compares_ranks(less),
    ensures
        exists|at: int|
            {
                &&& 0 <= at <= s.len()
                &&& stable_sort(s.push(x), less) == #[trigger] stable_sort(s, less).insert(at, x)
                &&& forall|k: int| 0 <= k < at ==> !less(x, #[trigger] stable_sort(s, less)[k])
                &&& forall|k: int|
                    at <= k < stable_sort(s, less).len() ==> less(x, #[trigger] stable_sort(s, less)[k])
            },
{
    let sorted = stable_sort(s, less);
    assert(s.push(x).drop_last() =~= s);
    let at = insert_position(sorted, x, less);
    lemma_insert_at(sorted, x, less, at);
    law_sort_orders(s, less);
    law_sort_keeps_elements(s, less);
    sorted.to_multiset_ensures();
    s.to_multiset_ensures();
    assert forall|k: int| 0 <= k < at implies !less(x, #[trigger] sorted[k]) by {
        if k < at - 1 {
            assert(!less(sorted[at - 1], sorted[k]));
            assert(!less(x, sorted[at - 1]));
        }
    }
    assert(stable_sort(s.push(x), less) == sorted.insert(at, x));
}

} // verus!
