//! The order in which the files of a directory are read.
use vstd::prelude::*;

use crate::sorting::{
    compares_ranks, count_up, in_sequence, law_sort_keeps_elements, law_sort_orders, numbers_below,
    sort_by, stable_sort,
};
use crate::text::{
    bytes_eq, bytes_less, bytes_lt, lemma_bytes_less_total, lemma_bytes_less_trans,
};

verus! {

/// The names along a path, as bytes.
pub open spec fn names_along(path: Seq<Vec<u8>>) -> Seq<Seq<u8>> {
    Seq::new(path.len(), |i: int| path[i]@)
}

/// Whether one path comes before another: by the first name in which they differ, and a directory
/// before what is below it.
pub open spec fn path_less(a: Seq<Seq<u8>>, b: Seq<Seq<u8>>) -> bool
    decreases b.len(),
{
    if b.len() == 0 {
        false
    } else if a.len() == 0 {
        true
    } else if a[0] != b[0] {
        bytes_less(a[0], b[0])
    } else {
        path_less(a.drop_first(), b.drop_first())
    }
}

/// Whether one file comes before another.
pub open spec fn by_path(paths: Seq<Vec<Vec<u8>>>) -> spec_fn(usize, usize) -> bool {
    |a: usize, b: usize|
        path_less(names_along(paths[a as int]@), names_along(paths[b as int]@))
}

/// The order of paths is total: of two different paths exactly one comes first.
pub proof fn law_paths_are_ordered(a: Seq<Seq<u8>>, b: Seq<Seq<u8>>)
    ensures
        a == b || path_less(a, b) || path_less(b, a),
        a == b ==> !path_less(a, b),
        path_less(a, b) ==> !path_less(b, a),
    decreases a.len(),
{
    if a.len() == 0 || b.len() == 0 {
        if a.len() == 0 && b.len() == 0 {
            assert(a =~= b);
        }
    } else {
        lemma_bytes_less_total(a[0], b[0]);
        law_paths_are_ordered(a.drop_first(), b.drop_first());
        if a[0] == b[0] && a.drop_first() == b.drop_first() {
            assert(a =~= seq![a[0]] + a.drop_first());
            assert(b =~= seq![b[0]] + b.drop_first());
        }
    }
}

proof fn lemma_path_less_trans(a: Seq<Seq<u8>>, b: Seq<Seq<u8>>, c: Seq<Seq<u8>>)
    requires
        path_less(a, b),
        path_less(b, c),
    ensures
        path_less(a, c),
    decreases a.len(),
{
    if a.len() > 0 && b.len() > 0 && c.len() > 0 {
        if a[0] == b[0] && b[0] == c[0] {
            lemma_path_less_trans(a.drop_first(), b.drop_first(), c.drop_first());
        } else if a[0] != b[0] && b[0] != c[0] {
            lemma_bytes_less_trans(a[0], b[0], c[0]);
            lemma_bytes_less_total(a[0], c[0]);
        }
    }
}

proof fn lemma_by_path_ranks(paths: Seq<Vec<Vec<u8>>>)
    ensures
        compares_ranks(by_path(paths)),
{
    let less = by_path(paths);
    assert forall|a: usize, b: usize, c: usize|
        !#[trigger] less(a, b) && !#[trigger] less(b, c) implies !less(a, c) by {
        let (x, y, z) = (
            names_along(paths[a as int]@),
            names_along(paths[b as int]@),
            names_along(paths[c as int]@),
        );
        law_paths_are_ordered(x, y);
        law_paths_are_ordered(y, z);
        law_paths_are_ordered(x, z);
        if path_less(y, x) && path_less(z, y) {
            lemma_path_less_trans(z, y, x);
        }
    }
    assert forall|a: usize, b: usize| #[trigger] less(a, b) implies !less(b, a) by {
        law_paths_are_ordered(names_along(paths[a as int]@), names_along(paths[b as int]@));
    }
}

proof fn lemma_path_less_skip(a: Seq<Seq<u8>>, b: Seq<Seq<u8>>, i: int)
    requires
        0 <= i <= a.len(),
        i <= b.len(),
        a.take(i) == b.take(i),
    ensures
        path_less(a, b) == path_less(a.skip(i), b.skip(i)),
    decreases i,
{
    if i == 0 {
        assert(a.skip(0) =~= a);
        assert(b.skip(0) =~= b);
    } else {
        assert(a[0] == a.take(i)[0] && b[0] == b.take(i)[0]);
        assert(a.drop_first().take(i - 1) =~= a.take(i).drop_first());
        assert(b.drop_first().take(i - 1) =~= b.take(i).drop_first());
        lemma_path_less_skip(a.drop_first(), b.drop_first(), i - 1);
        assert(a.drop_first().skip(i - 1) =~= a.skip(i));
        assert(b.drop_first().skip(i - 1) =~= b.skip(i));
    }
}

/// Whether one path comes before another.
pub fn path_lt(x: &Vec<Vec<u8>>, y: &Vec<Vec<u8>>) -> (less: bool)
    ensures
        less == path_less(names_along(x@), names_along(y@)),
{
    let ghost (a, b) = (names_along(x@), names_along(y@));
    let mut i: usize = 0;
    while i < x.len() && i < y.len()
        invariant
            i <= x.len(),
            i <= y.len(),
            a == names_along(x@),
            b == names_along(y@),
            a.take(i as int) == b.take(i as int),
        decreases x.len() - i,
    {
        if !bytes_eq(x[i].as_slice(), y[i].as_slice()) {
            proof {
                lemma_path_less_skip(a, b, i as int);
            }
            return bytes_lt(x[i].as_slice(), y[i].as_slice());
        }
        i += 1;
        assert(a.take(i as int) =~= a.take(i - 1).push(a[i - 1]));
        assert(b.take(i as int) =~= b.take(i - 1).push(b[i - 1]));
    }
    proof {
        lemma_path_less_skip(a, b, i as int);
    }
    x.len() < y.len()
}

/// The order in which files are read: by their paths.
pub fn file_order(paths: &Vec<Vec<Vec<u8>>>) -> (order: Vec<usize>)
    ensures
        order@ == stable_sort(numbers_below(paths@.len()), by_path(paths@)),
        order@.to_multiset() == numbers_below(paths@.len()).to_multiset(),
        in_sequence(order@, by_path(paths@)),
{
    let ghost less = by_path(paths@);
    let ghost same = |at: usize| at;
    let mut order = count_up(paths.len());
    let before = |a: &usize, b: &usize| -> (yes: bool)
        requires
            *a < paths.len(),
            *b < paths.len(),
        ensures
            yes == by_path(paths@)(*a, *b),
        { path_lt(&paths[*a], &paths[*b]) };
    assert(order@.map_values(same) =~= order@);
    sort_by::<usize, usize, _>(&mut order, before, Ghost(same), Ghost(less));
    assert(order@.map_values(same) =~= order@);
    proof {
        lemma_by_path_ranks(paths@);
        law_sort_keeps_elements(numbers_below(paths@.len()), less);
        law_sort_orders(numbers_below(paths@.len()), less);
    }
    order
}

/// The file that is read where only one is: the first by its path. There is none without files.
pub fn first_file(paths: &Vec<Vec<Vec<u8>>>) -> (first: Option<usize>)
    ensures
        first is None <==> paths.len() == 0,
        first matches Some(at) ==> {
            &&& at < paths.len()
            &&& forall|k: usize| k < paths.len() ==> !#[trigger] by_path(paths@)(k, at)
            &&& forall|k: usize| k < at ==> #[trigger] by_path(paths@)(at, k)
        },
{
    if paths.len() == 0 {
        return None;
    }
    let mut at: usize = 0;
    let mut i: usize = 1;
    proof {
        lemma_by_path_ranks(paths@);
        law_paths_are_ordered(names_along(paths@[0]@), names_along(paths@[0]@));
    }
    let ghost less = by_path(paths@);
    while i < paths.len()
        invariant
            at < i <= paths.len(),
            less == by_path(paths@),
            compares_ranks(less),
            forall|k: usize| k < i ==> !#[trigger] less(k, at),
            forall|k: usize| k < at ==> #[trigger] less(at, k),
        decreases paths.len() - i,
    {
        if path_lt(&paths[i], &paths[at]) {
            proof {
                assert(less(i, at));
                assert forall|k: usize| k < i + 1 implies !#[trigger] less(k, i) by {
                    if less(k, i) && k < i {
                        assert(!less(i, k) && !less(k, at));
                    }
                }
                assert forall|k: usize| k < i implies #[trigger] less(i, k) by {
                    if !less(i, k) {
                        assert(!less(k, at));
                    }
                }
            }
            at = i;
        }
        i += 1;
    }
    Some(at)
}

} // verus!
