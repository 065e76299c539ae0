//! Lists of slots: swapping two of them, and sorting them by a text each.

use vstd::prelude::*;

use crate::data::texts;
use crate::order::{
    arrange, arranged, in_bounds, is_permutation, lemma_ordered_unique, ordered, positions,
    same_positions, sort_indices, IndexOrder,
};
use crate::text::{
    lemma_lex_irreflexive, lemma_lex_total, lemma_lex_transitive, lex_lt, str_eq, str_lt,
};

verus! {

broadcast use vstd::string::group_string_axioms;

/// A list in which two items have changed places.
pub open spec fn swapped<T>(items: Seq<T>, a: int, b: int) -> Seq<T> {
    items.update(a, items[b]).update(b, items[a])
}

/// Lets two items change places.
pub fn swap_items<T>(items: &mut Vec<T>, a: usize, b: usize)
    requires
        a < old(items)@.len(),
        b < old(items)@.len(),
    ensures
        final(items)@ == swapped(old(items)@, a as int, b as int),
{
    if a == b {
        assert(items@ =~= swapped(items@, a as int, b as int));
        return ;
    }
    let (low, high) = if a < b {
        (a, b)
    } else {
        (b, a)
    };
    let upper = items.remove(high);
    let lower = items.remove(low);
    items.insert(low, upper);
    items.insert(high, lower);
    assert(items@ =~= swapped(old(items)@, a as int, b as int));
}

/// Where an item is that was at `at` before two items changed places.
pub open spec fn followed(at: int, a: int, b: int) -> int {
    if at == a {
        b
    } else if at == b {
        a
    } else {
        at
    }
}

/// An item that is followed through a swap is found again.
pub proof fn law_swap_followed<T>(items: Seq<T>, a: int, b: int, at: int)
    requires
        0 <= a < items.len(),
        0 <= b < items.len(),
        0 <= at < items.len(),
    ensures
        0 <= followed(at, a, b) < items.len(),
        swapped(items, a, b)[followed(at, a, b)] == items[at],
{
}

/// Two items that change places twice are where they were.
pub proof fn law_swap_undone<T>(items: Seq<T>, a: int, b: int)
    requires
        0 <= a < items.len(),
        0 <= b < items.len(),
    ensures
        swapped(swapped(items, a, b), a, b) == items,
{
    assert(swapped(swapped(items, a, b), a, b) =~= items);
}

/// Whether position `i` comes before position `j` by their keys. Equal keys
/// keep their order.
pub open spec fn key_before(keys: Seq<Seq<char>>, i: int, j: int) -> bool {
    lex_lt(keys[i], keys[j]) || (keys[i] == keys[j] && i < j)
}

/// Whether `p` lists all positions in the order of their keys.
pub open spec fn stable_order(keys: Seq<Seq<char>>, p: Seq<usize>) -> bool {
    &&& is_permutation(p)
    &&& p.len() == keys.len()
    &&& forall|i: int, j: int|
        0 <= i < j < p.len() ==> key_before(keys, #[trigger] p[i] as int, #[trigger] p[j] as int)
}

/// Whether `sorted` is `items` in the order of their keys.
pub open spec fn sorted_by<T>(items: Seq<T>, keys: Seq<Seq<char>>, sorted: Seq<T>) -> bool {
    exists|p: Seq<usize>| #[trigger] stable_order(keys, p) && sorted == arranged(items, p)
}

/// The order of positions by a text each.
pub struct KeyOrder<'a> {
    pub keys: &'a Vec<String>,
}

impl<'a> IndexOrder for KeyOrder<'a> {
    open spec fn size(&self) -> nat {
        self.keys@.len()
    }

    open spec fn before(&self, i: int, j: int) -> bool {
        key_before(texts(self.keys@), i, j)
    }

    proof fn lemma_irreflexive(&self, i: int) {
        lemma_lex_irreflexive(self.keys@[i]@);
    }

    proof fn lemma_transitive(&self, i: int, j: int, k: int) {
        let a = self.keys@[i]@;
        let b = self.keys@[j]@;
        let c = self.keys@[k]@;
        if lex_lt(a, b) && lex_lt(b, c) {
            lemma_lex_transitive(a, b, c);
        }
    }

    proof fn lemma_total(&self, i: int, j: int) {
        lemma_lex_total(self.keys@[i]@, self.keys@[j]@);
    }

    fn is_before(&self, i: usize, j: usize) -> (r: bool) {
        let a = self.keys[i].as_str();
        let b = self.keys[j].as_str();
        str_lt(a, b) || (i < j && str_eq(a, b))
    }
}

/// Sorts items by a key each; items with equal keys keep their order.
pub fn sort_by_keys<T>(items: Vec<T>, keys: &Vec<String>) -> (r: Vec<T>)
    requires
        items@.len() == keys@.len(),
    ensures
        sorted_by(items@, texts(keys@), r@),
{
    let order = KeyOrder { keys };
    let all = positions(items.len());
    let ghost start = all@;
    let p = sort_indices(&order, all);
    proof {
        assert forall|i: int, j: int| 0 <= i < j < p@.len() implies p@[i] != p@[j] by {
            assert(order.before(p@[i] as int, p@[j] as int));
            order.lemma_irreflexive(p@[i] as int);
        }
        assert(is_permutation(p@));
        assert(stable_order(texts(keys@), p@));
    }
    arrange(items, &p)
}

/// Sorting by the same keys has one result.
pub proof fn law_sort_unique<T>(items: Seq<T>, keys: Vec<String>, a: Seq<T>, b: Seq<T>)
    requires
        sorted_by(items, texts(keys@), a),
        sorted_by(items, texts(keys@), b),
    ensures
        a == b,
{
    let order = KeyOrder { keys: &keys };
    let p = choose|p: Seq<usize>| #[trigger]
        stable_order(texts(keys@), p) && a == arranged(items, p);
    let q = choose|q: Seq<usize>| #[trigger]
        stable_order(texts(keys@), q) && b == arranged(items, q);
    lemma_permutation_covers(p);
    lemma_permutation_covers(q);
    assert(same_positions(p, q));
    assert(in_bounds(&order, p));
    assert(in_bounds(&order, q));
    assert(ordered(&order, p));
    assert(ordered(&order, q));
    lemma_ordered_unique(&order, p, q);
}

/// A permutation holds exactly the positions below its length.
pub proof fn lemma_permutation_covers(p: Seq<usize>)
    requires
        is_permutation(p),
    ensures
        forall|x: usize| #[trigger] p.contains(x) <==> x < p.len(),
{
    let n = p.len();
    let ints = p.map_values(|x: usize| x as int);
    assert(ints.no_duplicates());
    let all = vstd::set_lib::set_int_range(0, n as int);
    vstd::set_lib::lemma_int_range(0, n as int);
    ints.unique_seq_to_set();
    assert(ints.to_set().subset_of(all)) by {
        assert forall|x: int| ints.to_set().contains(x) implies all.contains(x) by {
            let i = ints.index_of(x);
            assert(p[i] < p.len());
        }
    }
    vstd::set_lib::lemma_subset_equality(ints.to_set(), all);
    assert forall|x: usize| #[trigger] p.contains(x) <==> x < p.len() by {
        if x < p.len() {
            assert(all.contains(x as int));
            assert(ints.to_set().contains(x as int));
            let i = ints.index_of(x as int);
            assert(p[i] == x);
        }
    }
}

/// Sorting loses no item and invents none: every place of the result has one
/// place in the list that it comes from, and the other way round.
pub proof fn law_sort_keeps_items<T>(items: Seq<T>, keys: Seq<Seq<char>>, sorted: Seq<T>)
    requires
        items.len() == keys.len(),
        sorted_by(items, keys, sorted),
    ensures
        sorted.to_multiset() == items.to_multiset(),
{
    let p = choose|p: Seq<usize>| #[trigger]
        stable_order(keys, p) && sorted == arranged(items, p);
    lemma_arranged_multiset(items, p);
}

/// Rearranging keeps how often each item occurs.
pub proof fn lemma_arranged_multiset<T>(items: Seq<T>, p: Seq<usize>)
    requires
        is_permutation(p),
        p.len() == items.len(),
    ensures
        arranged(items, p).to_multiset() == items.to_multiset(),
    decreases items.len(),
{
    broadcast use vstd::seq_lib::group_to_multiset_ensures;

    let n = items.len();
    let r = arranged(items, p);
    if n == 0 {
        assert(r =~= items);
    } else {
        // The last item goes to some place; without both, the rest is again
        // rearranged.
        lemma_permutation_covers(p);
        lemma_permutation_fits(p);
        assert(p.contains((n - 1) as usize));
        let k = p.index_of((n - 1) as usize);
        let q = p.remove(k);
        assert(is_permutation(q)) by {
            assert forall|i: int, j: int| 0 <= i < q.len() && 0 <= j < q.len() && i != j implies q[i]
                != q[j] by {
                let a = if i < k {
                    i
                } else {
                    i + 1
                };
                let b = if j < k {
                    j
                } else {
                    j + 1
                };
                assert(q[i] == p[a]);
                assert(q[j] == p[b]);
            }
            assert forall|i: int| 0 <= i < q.len() implies #[trigger] q[i] < q.len() by {
                let a = if i < k {
                    i
                } else {
                    i + 1
                };
                assert(q[i] == p[a]);
                assert(p[a] != p[k]);
            }
        }
        lemma_arranged_multiset(items.drop_last(), q);
        let rest = arranged(items.drop_last(), q);
        assert(r.remove(k) =~= rest) by {
            assert forall|i: int| 0 <= i < rest.len() implies r.remove(k)[i] == rest[i] by {
                assert(q[i] < q.len());
            }
        }
        assert(r[k] == items.last());
        assert(r.contains(r[k]));
        assert(r.remove(k).to_multiset() == r.to_multiset().remove(r[k]));
        assert(items =~= items.drop_last().push(items.last()));
        assert(r.to_multiset() =~= items.to_multiset());
    }
}

/// A permutation of machine positions is no longer than there are positions.
proof fn lemma_permutation_fits(p: Seq<usize>)
    requires
        is_permutation(p),
    ensures
        p.len() <= usize::MAX + 1,
{
    let ints = p.map_values(|x: usize| x as int);
    assert(ints.no_duplicates());
    ints.unique_seq_to_set();
    let all = vstd::set_lib::set_int_range(0, usize::MAX + 1);
    vstd::set_lib::lemma_int_range(0, usize::MAX + 1);
    vstd::set_lib::lemma_len_subset(ints.to_set(), all);
}

/// Sorting a list that has been sorted changes nothing.
pub proof fn law_sort_settles<T>(items: Seq<T>, keys: Seq<Seq<char>>, p: Seq<usize>)
    requires
        items.len() == keys.len(),
        stable_order(keys, p),
    ensures
        sorted_by(arranged(items, p), arranged(keys, p), arranged(items, p)),
{
    lemma_permutation_fits(p);
    let same = Seq::new(p.len(), |i: int| i as usize);
    assert forall|i: int, j: int| 0 <= i < j < same.len() implies key_before(
        arranged(keys, p),
        #[trigger] same[i] as int,
        #[trigger] same[j] as int,
    ) by {
        assert(key_before(keys, p[i] as int, p[j] as int));
    }
    assert(stable_order(arranged(keys, p), same));
    assert(arranged(arranged(items, p), same) =~= arranged(items, p));
}

} // verus!
