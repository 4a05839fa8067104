//! Stable sorting of anything that can be compared place by place.
use vstd::prelude::*;

verus! {

/// A row of things, numbered from 0, with a strict weak order on the numbers.
pub trait Ranking {
    /// How many things there are.
    spec fn count(&self) -> nat;

    /// Whether thing `i` must come before thing `j`.
    spec fn lt(&self, i: int, j: int) -> bool;

    /// `lt` is a strict weak order.
    proof fn lt_is_weak_order(&self)
        ensures
            forall|i: int| 0 <= i < self.count() ==> !#[trigger] self.lt(i, i),
            forall|i: int, j: int, k: int|
                0 <= i < self.count() && 0 <= j < self.count() && 0 <= k < self.count()
                    && #[trigger] self.lt(i, j) && #[trigger] self.lt(j, k) ==> self.lt(i, k),
            forall|i: int, j: int, k: int|
                0 <= i < self.count() && 0 <= j < self.count() && 0 <= k < self.count()
                    && #[trigger] self.lt(i, k) ==> #[trigger] self.lt(i, j) || self.lt(j, k),
    ;

    /// Whether thing `i` must come before thing `j`.
    fn before(&self, i: usize, j: usize) -> (r: bool)
        requires
            i < self.count(),
            j < self.count(),
        ensures
            r == self.lt(i as int, j as int),
    ;
}

/// Whether `i` comes before `j` once ties are broken by the original places.
pub open spec fn first_of<R: Ranking>(r: R, i: int, j: int) -> bool {
    r.lt(i, j) || (!r.lt(j, i) && i < j)
}

/// Whether `order` lists the places `lo..hi`, each once, in stable order.
pub open spec fn lists_in_order<R: Ranking>(r: R, order: Seq<usize>, lo: int, hi: int) -> bool {
    &&& order.len() == hi - lo
    &&& forall|a: int| 0 <= a < order.len() ==> lo <= #[trigger] order[a] < hi
    &&& forall|a: int, b: int|
        0 <= a < b < order.len() ==> first_of(r, #[trigger] order[a] as int, #[trigger] order[b] as int)
    &&& forall|i: int| lo <= i < hi ==> order.contains(#[trigger] (i as usize))
}

fn merge<R: Ranking>(r: &R, left: &Vec<usize>, right: &Vec<usize>, lo: usize, mid: usize, hi: usize)
    -> (out: Vec<usize>)
    requires
        lo <= mid <= hi <= r.count(),
        lists_in_order(*r, left@, lo as int, mid as int),
        lists_in_order(*r, right@, mid as int, hi as int),
    ensures
        lists_in_order(*r, out@, lo as int, hi as int),
{
    proof {
        r.lt_is_weak_order();
    }
    let mut out: Vec<usize> = Vec::new();
    let mut i: usize = 0;
    let mut j: usize = 0;
    while i < left.len() || j < right.len()
        invariant
            lo <= mid <= hi <= r.count(),
            lists_in_order(*r, left@, lo as int, mid as int),
            lists_in_order(*r, right@, mid as int, hi as int),
            i <= left.len(),
            j <= right.len(),
            out.len() == i + j,
            forall|a: int| 0 <= a < out.len() ==> lo <= #[trigger] out@[a] < hi,
            forall|a: int, b: int|
                0 <= a < b < out.len() ==> first_of(*r, #[trigger] out@[a] as int, #[trigger] out@[b] as int),
            forall|a: int, b: int|
                0 <= a < out.len() && i <= b < left.len() ==> first_of(*r, #[trigger] out@[a] as int, #[trigger] left@[b] as int),
            forall|a: int, b: int|
                0 <= a < out.len() && j <= b < right.len() ==> first_of(*r, #[trigger] out@[a] as int, #[trigger] right@[b] as int),
            forall|k: int| 0 <= k < i ==> out@.contains(#[trigger] left@[k]),
            forall|k: int| 0 <= k < j ==> out@.contains(#[trigger] right@[k]),
            forall|x: int| 0 <= x < r.count() ==> !#[trigger] r.lt(x, x),
            forall|x: int, y: int, z: int|
                0 <= x < r.count() && 0 <= y < r.count() && 0 <= z < r.count()
                    && #[trigger] r.lt(x, y) && #[trigger] r.lt(y, z) ==> r.lt(x, z),
            forall|x: int, y: int, z: int|
                0 <= x < r.count() && 0 <= y < r.count() && 0 <= z < r.count()
                    && #[trigger] r.lt(x, z) ==> #[trigger] r.lt(x, y) || r.lt(y, z),
        decreases left.len() - i + right.len() - j,
    {
        let ghost before = out@;
        let take_left: bool = if i == left.len() {
            false
        } else if j == right.len() {
            true
        } else {
            !r.before(right[j], left[i])
        };
        let x: usize = if take_left {
            left[i]
        } else {
            right[j]
        };
        out.push(x);
        proof {
            assert(forall|k: int| 0 <= k < before.len() ==> out@[k] == before[k]);
            assert(out@[before.len() as int] == x);
            if take_left {
                if j < right.len() {
                    assert(first_of(*r, x as int, right@[j as int] as int));
                    assert forall|b: int| j <= b < right.len() implies first_of(*r, x as int, #[trigger] right@[b] as int) by {
                        if b > j {
                            assert(first_of(*r, right@[j as int] as int, right@[b] as int));
                        }
                    }
                }
            } else {
                if i < left.len() {
                    assert(first_of(*r, x as int, left@[i as int] as int));
                    assert forall|b: int| i <= b < left.len() implies first_of(*r, x as int, #[trigger] left@[b] as int) by {
                        if b > i {
                            assert(first_of(*r, left@[i as int] as int, left@[b] as int));
                        }
                    }
                }
            }
            assert forall|v: usize| before.contains(v) implies out@.contains(v) by {
                let k = choose|k: int| 0 <= k < before.len() && before[k] == v;
                assert(out@[k] == v);
            }
        }
        if take_left {
            i += 1;
        } else {
            j += 1;
        }
    }
    proof {
        assert forall|k: int| lo <= k < hi implies out@.contains(#[trigger] (k as usize)) by {
            if k < mid {
                let a = choose|a: int| 0 <= a < left.len() && left@[a] == (k as usize);
                assert(left@.contains(k as usize));
                assert(out@.contains(left@[a]));
            } else {
                assert(right@.contains(k as usize));
                let a = choose|a: int| 0 <= a < right.len() && right@[a] == (k as usize);
                assert(out@.contains(right@[a]));
            }
        }
    }
    out
}

fn sort_places<R: Ranking>(r: &R, lo: usize, hi: usize) -> (order: Vec<usize>)
    requires
        lo <= hi <= r.count(),
    ensures
        lists_in_order(*r, order@, lo as int, hi as int),
    decreases hi - lo,
{
    if hi - lo <= 1 {
        let mut order: Vec<usize> = Vec::new();
        if lo < hi {
            order.push(lo);
            assert(order@[0] == lo);
        }
        order
    } else {
        let mid: usize = lo + (hi - lo) / 2;
        let left = sort_places(r, lo, mid);
        let right = sort_places(r, mid, hi);
        merge(r, &left, &right, lo, mid, hi)
    }
}

/// The places in stable order: a thing that must come first stands first, and
/// of two that may stand either way the earlier stays the earlier.
pub fn stable_order<R: Ranking>(r: &R, n: usize) -> (order: Vec<usize>)
    requires
        n == r.count(),
    ensures
        lists_in_order(*r, order@, 0, n as int),
{
    sort_places(r, 0, n)
}

/// Whether no place is listed twice and each is below `n`.
pub open spec fn distinct_places(order: Seq<usize>, n: int) -> bool {
    &&& forall|a: int| 0 <= a < order.len() ==> #[trigger] order[a] < n
    &&& forall|a: int, b: int| 0 <= a < b < order.len() ==> #[trigger] order[a] != #[trigger] order[b]
}

pub proof fn lemma_order_is_distinct<R: Ranking>(r: R, order: Seq<usize>, n: int)
    requires
        lists_in_order(r, order, 0, n),
        n <= r.count(),
    ensures
        distinct_places(order, n),
{
    r.lt_is_weak_order();
    assert forall|a: int, b: int| 0 <= a < b < order.len() implies #[trigger] order[a] != #[trigger] order[b] by {
        assert(first_of(r, order[a] as int, order[b] as int));
    }
}

/// What stood at the listed places, in the order of the list.
pub open spec fn picked<T>(items: Seq<T>, order: Seq<usize>) -> Seq<T> {
    Seq::new(order.len(), |k: int| items[order[k] as int])
}

/// Moves the items at the listed places out, in the order of the list.
pub fn pick<T>(items: Vec<T>, order: &Vec<usize>) -> (out: Vec<T>)
    requires
        distinct_places(order@, items.len() as int),
    ensures
        out@ == picked(items@, order@),
{
    let ghost all = items@;
    let mut slots: Vec<Option<T>> = Vec::new();
    for x in it: items
        invariant
            it.seq() == all,
            slots.len() == it.index(),
            forall|k: int| 0 <= k < slots.len() ==> #[trigger] slots@[k] == Some(all[k]),
    {
        slots.push(Some(x));
    }
    let mut out: Vec<T> = Vec::new();
    let mut k: usize = 0;
    while k < order.len()
        invariant
            distinct_places(order@, all.len() as int),
            slots.len() == all.len(),
            k <= order.len(),
            out.len() == k,
            forall|a: int| 0 <= a < k ==> #[trigger] out@[a] == all[order@[a] as int],
            forall|a: int| k <= a < order.len() ==> slots@[#[trigger] order@[a] as int] == Some(all[order@[a] as int]),
        decreases order.len() - k,
    {
        let place: usize = order[k];
        let mut held: Option<T> = None;
        std::mem::swap(&mut slots[place], &mut held);
        match held {
            Some(x) => {
                out.push(x);
            },
            None => {
                assert(false);
            },
        }
        k += 1;
    }
    assert(out@ =~= picked(all, order@));
    out
}

} // verus!
