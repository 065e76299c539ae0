//! Sorting of positions by a strict total order, and rearranging by the result.

use vstd::prelude::*;

verus! {

/// A strict total order of the positions below a bound.
pub trait IndexOrder {
    /// How many positions are ordered.
    spec fn size(&self) -> nat;

    /// Whether position `i` comes before position `j`.
    spec fn before(&self, i: int, j: int) -> bool;

    /// No position comes before itself.
    proof fn lemma_irreflexive(&self, i: int)
        requires
            0 <= i < self.size(),
        ensures
            !self.before(i, i),
    ;

    /// The order is transitive.
    proof fn lemma_transitive(&self, i: int, j: int, k: int)
        requires
            0 <= i < self.size(),
            0 <= j < self.size(),
            0 <= k < self.size(),
            self.before(i, j),
            self.before(j, k),
        ensures
            self.before(i, k),
    ;

    /// Of two different positions one comes first.
    proof fn lemma_total(&self, i: int, j: int)
        requires
            0 <= i < self.size(),
            0 <= j < self.size(),
            i != j,
        ensures
            self.before(i, j) || self.before(j, i),
    ;

    /// Decides the order of two positions.
    fn is_before(&self, i: usize, j: usize) -> (r: bool)
        requires
            i < self.size(),
            j < self.size(),
        ensures
            r == self.before(i as int, j as int),
    ;
}

/// Whether every position is below the bound of the order.
pub open spec fn in_bounds<O: IndexOrder>(order: &O, s: Seq<usize>) -> bool {
    forall|i: int| 0 <= i < s.len() ==> #[trigger] s[i] < order.size()
}

/// Whether the positions stand in the given order.
pub open spec fn ordered<O: IndexOrder>(order: &O, s: Seq<usize>) -> bool {
    forall|i: int, j: int|
        0 <= i < j < s.len() ==> order.before(#[trigger] s[i] as int, #[trigger] s[j] as int)
}

/// Whether two sequences hold the same positions, however often.
pub open spec fn same_positions(a: Seq<usize>, b: Seq<usize>) -> bool {
    forall|x: usize| #[trigger] a.contains(x) <==> b.contains(x)
}

/// Merges two ordered sequences without common positions.
fn merge<O: IndexOrder>(order: &O, left: &Vec<usize>, right: &Vec<usize>) -> (r: Vec<usize>)
    requires
        in_bounds(order, left@),
        in_bounds(order, right@),
        ordered(order, left@),
        ordered(order, right@),
        forall|i: int, j: int|
            0 <= i < left@.len() && 0 <= j < right@.len() ==> #[trigger] left@[i]
                != #[trigger] right@[j],
    ensures
        in_bounds(order, r@),
        ordered(order, r@),
        r@.len() == left@.len() + right@.len(),
        same_positions(r@, left@ + right@),
{
    let mut out: Vec<usize> = Vec::new();
    let mut i: usize = 0;
    let mut j: usize = 0;
    while i < left.len() || j < right.len()
        invariant
            in_bounds(order, left@),
            in_bounds(order, right@),
            ordered(order, left@),
            ordered(order, right@),
            forall|a: int, b: int|
                0 <= a < left@.len() && 0 <= b < right@.len() ==> #[trigger] left@[a]
                    != #[trigger] right@[b],
            i <= left@.len(),
            j <= right@.len(),
            out@.len() == i + j,
            in_bounds(order, out@),
            ordered(order, out@),
            forall|k: int, a: int|
                0 <= k < out@.len() && i <= a < left@.len() ==> order.before(
                    #[trigger] out@[k] as int,
                    #[trigger] left@[a] as int,
                ),
            forall|k: int, b: int|
                0 <= k < out@.len() && j <= b < right@.len() ==> order.before(
                    #[trigger] out@[k] as int,
                    #[trigger] right@[b] as int,
                ),
            forall|x: usize|
                #[trigger] out@.contains(x) <==> left@.take(i as int).contains(x)
                    || right@.take(j as int).contains(x),
        decreases left@.len() - i + right@.len() - j,
    {
        let ghost prior = out@;
        let from_left = if i >= left.len() {
            false
        } else if j >= right.len() {
            true
        } else {
            order.is_before(left[i], right[j])
        };
        if from_left {
            proof {
                let x = left@[i as int];
                if j < right@.len() {
                    assert forall|b: int| j <= b < right@.len() implies order.before(
                        x as int,
                        #[trigger] right@[b] as int,
                    ) by {
                        if b > j {
                            order.lemma_transitive(
                                x as int,
                                right@[j as int] as int,
                                right@[b] as int,
                            );
                        }
                    }
                }
                lemma_take_push(left@, i as int);
                lemma_push_contains(prior, x);
            }
            out.push(left[i]);
            i += 1;
        } else {
            proof {
                let x = right@[j as int];
                if i < left@.len() {
                    order.lemma_total(left@[i as int] as int, x as int);
                    assert forall|a: int| i <= a < left@.len() implies order.before(
                        x as int,
                        #[trigger] left@[a] as int,
                    ) by {
                        if a > i {
                            order.lemma_transitive(
                                x as int,
                                left@[i as int] as int,
                                left@[a] as int,
                            );
                        }
                    }
                }
                lemma_take_push(right@, j as int);
                lemma_push_contains(prior, x);
            }
            out.push(right[j]);
            j += 1;
        }
    }
    proof {
        assert(left@.take(i as int) =~= left@);
        assert(right@.take(j as int) =~= right@);
        assert forall|x: usize| #[trigger] out@.contains(x) <==> (left@ + right@).contains(x) by {
            lemma_concat_contains(left@, right@, x);
            assert(left@.take(i as int).contains(x) == left@.contains(x));
        }
    }
    out
}

proof fn lemma_push_contains(s: Seq<usize>, y: usize)
    ensures
        forall|x: usize| #[trigger] s.push(y).contains(x) <==> s.contains(x) || x == y,
{
    assert forall|x: usize| #[trigger] s.push(y).contains(x) <==> s.contains(x) || x == y by {
        if s.contains(x) {
            let k = choose|k: int| 0 <= k < s.len() && s[k] == x;
            assert(s.push(y)[k] == x);
        }
        assert(s.push(y)[s.len() as int] == y);
    }
}

proof fn lemma_take_push(s: Seq<usize>, i: int)
    requires
        0 <= i < s.len(),
    ensures
        forall|x: usize|
            #[trigger] s.take(i + 1).contains(x) <==> s.take(i).contains(x) || x == s[i],
{
    assert(s.take(i + 1) =~= s.take(i).push(s[i]));
    lemma_push_contains(s.take(i), s[i]);
}

proof fn lemma_concat_contains(a: Seq<usize>, b: Seq<usize>, x: usize)
    ensures
        (a + b).contains(x) <==> a.contains(x) || b.contains(x),
{
    if a.contains(x) {
        let k = choose|k: int| 0 <= k < a.len() && a[k] == x;
        assert((a + b)[k] == x);
    }
    if b.contains(x) {
        let k = choose|k: int| 0 <= k < b.len() && b[k] == x;
        assert((a + b)[a.len() + k] == x);
    }
}

/// Sorts distinct positions.
pub fn sort_indices<O: IndexOrder>(order: &O, items: Vec<usize>) -> (r: Vec<usize>)
    requires
        in_bounds(order, items@),
        items@.no_duplicates(),
    ensures
        in_bounds(order, r@),
        ordered(order, r@),
        r@.len() == items@.len(),
        same_positions(r@, items@),
    decreases items@.len(),
{
    if items.len() < 2 {
        return items;
    }
    let mid: usize = items.len() / 2;
    let mut left: Vec<usize> = Vec::new();
    let mut right: Vec<usize> = Vec::new();
    let mut k: usize = 0;
    while k < items.len()
        invariant
            k <= items@.len(),
            mid <= items@.len(),
            left@ == items@.take(if k < mid { k as int } else { mid as int }),
            k <= mid ==> right@.len() == 0,
            k > mid ==> right@ == items@.subrange(mid as int, k as int),
        decreases items@.len() - k,
    {
        if k < mid {
            left.push(items[k]);
            assert(left@ =~= items@.take(k + 1));
        } else {
            right.push(items[k]);
            assert(right@ =~= items@.subrange(mid as int, k + 1));
        }
        k += 1;
    }
    assert(items@ =~= left@ + right@);
    let ghost l0 = left@;
    let ghost r0 = right@;
    let left = sort_indices(order, left);
    let right = sort_indices(order, right);
    proof {
        assert forall|i: int, j: int|
            0 <= i < left@.len() && 0 <= j < right@.len() implies #[trigger] left@[i]
            != #[trigger] right@[j] by {
            assert(left@.contains(left@[i]));
            assert(right@.contains(right@[j]));
            let a = choose|a: int| 0 <= a < l0.len() && l0[a] == left@[i];
            let b = choose|b: int| 0 <= b < r0.len() && r0[b] == right@[j];
            assert(items@[a] == l0[a]);
            assert(items@[mid + b] == r0[b]);
        }
    }
    let out = merge(order, &left, &right);
    proof {
        assert forall|x: usize| #[trigger] out@.contains(x) <==> items@.contains(x) by {
            lemma_concat_contains(left@, right@, x);
            lemma_concat_contains(l0, r0, x);
            assert(left@.contains(x) == l0.contains(x));
            assert(right@.contains(x) == r0.contains(x));
        }
    }
    out
}

/// There is at most one way to put given positions in order.
pub proof fn lemma_ordered_unique<O: IndexOrder>(order: &O, a: Seq<usize>, b: Seq<usize>)
    requires
        in_bounds(order, a),
        in_bounds(order, b),
        ordered(order, a),
        ordered(order, b),
        same_positions(a, b),
    ensures
        a == b,
    decreases a.len(),
{
    if a.len() == 0 {
        if b.len() > 0 {
            assert(b.contains(b[0]));
            assert(a.contains(b[0]));
        }
        assert(a =~= b);
    } else {
        assert(a.contains(a.last()));
        assert(b.contains(a.last()));
        assert(b.contains(b.last()));
        assert(a.contains(b.last()));
        let i = choose|i: int| 0 <= i < a.len() && a[i] == b.last();
        let j = choose|j: int| 0 <= j < b.len() && b[j] == a.last();
        if a.last() != b.last() {
            assert(order.before(a[i] as int, a.last() as int));
            assert(order.before(b[j] as int, b.last() as int));
            order.lemma_transitive(a.last() as int, b.last() as int, a.last() as int);
            order.lemma_irreflexive(a.last() as int);
        }
        let a1 = a.drop_last();
        let b1 = b.drop_last();
        assert forall|x: usize| #[trigger] a1.contains(x) <==> b1.contains(x) by {
            if a1.contains(x) {
                lemma_not_last(order, a, x);
                assert(a.contains(x));
                assert(b.contains(x));
                let k = choose|k: int| 0 <= k < b.len() && b[k] == x;
                assert(b1[k] == x);
            }
            if b1.contains(x) {
                lemma_not_last(order, b, x);
                assert(b.contains(x));
                assert(a.contains(x));
                let k = choose|k: int| 0 <= k < a.len() && a[k] == x;
                assert(a1[k] == x);
            }
        }
        lemma_ordered_unique(order, a1, b1);
        assert(a =~= a1.push(a.last()));
        assert(b =~= b1.push(b.last()));
    }
}

proof fn lemma_not_last<O: IndexOrder>(order: &O, s: Seq<usize>, x: usize)
    requires
        in_bounds(order, s),
        ordered(order, s),
        s.len() > 0,
        s.drop_last().contains(x),
    ensures
        s.contains(x),
        x != s.last(),
{
    let k = choose|k: int| 0 <= k < s.drop_last().len() && s.drop_last()[k] == x;
    assert(s[k] == x);
    assert(order.before(s[k] as int, s[s.len() - 1] as int));
    order.lemma_irreflexive(x as int);
}

/// Whether `p` holds each position below its length exactly once.
pub open spec fn is_permutation(p: Seq<usize>) -> bool {
    &&& p.no_duplicates()
    &&& forall|i: int| 0 <= i < p.len() ==> #[trigger] p[i] < p.len()
}

/// The items that stand at the given positions, in that order.
pub open spec fn arranged<T>(items: Seq<T>, p: Seq<usize>) -> Seq<T> {
    Seq::new(p.len(), |i: int| items[p[i] as int])
}

/// Rearranges items by a permutation of their positions.
pub fn arrange<T>(items: Vec<T>, p: &Vec<usize>) -> (r: Vec<T>)
    requires
        is_permutation(p@),
        p@.len() == items@.len(),
    ensures
        r@ == arranged(items@, p@),
{
    let ghost all = items@;
    let n: usize = items.len();
    let mut rest = items;
    // The items from the last to the first, each until it is taken.
    let mut slots: Vec<Option<T>> = Vec::new();
    while rest.len() > 0
        invariant
            n == all.len(),
            slots@.len() + rest@.len() == n,
            rest@ == all.take(rest@.len() as int),
            forall|i: int| 0 <= i < slots@.len() ==> #[trigger] slots@[i] == Some(all[n - 1 - i]),
        decreases rest@.len(),
    {
        slots.push(rest.pop());
        assert(rest@ =~= all.take(rest@.len() as int));
    }
    let mut out: Vec<T> = Vec::new();
    let mut k: usize = 0;
    while k < p.len()
        invariant
            is_permutation(p@),
            p@.len() == n,
            n == all.len(),
            slots@.len() == n,
            k <= n,
            out@ == arranged(all, p@).take(k as int),
            forall|j: int| k <= j < n ==> slots@[n - 1 - #[trigger] p@[j]] == Some(
                all[p@[j] as int],
            ),
        decreases n - k,
    {
        let ghost prior = slots@;
        let at: usize = n - 1 - p[k];
        assert(slots@[n - 1 - p@[k as int]] == Some(all[p@[k as int] as int]));
        let taken = slots[at].take();
        assert forall|j: int| k + 1 <= j < n implies slots@[n - 1 - #[trigger] p@[j]] == Some(
            all[p@[j] as int],
        ) by {
            assert(p@[j] != p@[k as int]);
            assert(prior[n - 1 - p@[j]] == Some(all[p@[j] as int]));
        }
        if let Some(item) = taken {
            out.push(item);
        }
        assert(out@ =~= arranged(all, p@).take(k + 1));
        k += 1;
    }
    assert(out@ =~= arranged(all, p@));
    out
}

/// The positions from zero up to `n`.
pub fn positions(n: usize) -> (r: Vec<usize>)
    ensures
        r@.len() == n,
        forall|i: int| 0 <= i < n ==> #[trigger] r@[i] == i,
        r@.no_duplicates(),
{
    let mut out: Vec<usize> = Vec::new();
    let mut i: usize = 0;
    while i < n
        invariant
            i <= n,
            out@.len() == i,
            forall|k: int| 0 <= k < i ==> #[trigger] out@[k] == k,
        decreases n - i,
    {
        out.push(i);
        i += 1;
    }
    out
}

} // verus!
