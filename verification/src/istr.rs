//! Interned strings: equal texts share one allocation through a cache.

use std::sync::Arc;

use vstd::prelude::*;

use crate::text::{lemma_lex_irreflexive, lemma_lex_total, lemma_lex_transitive, lex_lt, str_lt};

verus! {

/// A handle of a shared text: an `Arc<str>`. Two handles are equal in contracts
/// only where they are handles of one allocation.
#[derive(Debug, PartialEq, Eq, PartialOrd, Ord, Hash)]
#[verifier::external_body]
pub struct Handle {
    text: Arc<str>,
}

/// The text that a [`Handle`] gives access to.
pub uninterp spec fn handle_text(handle: Handle) -> Seq<char>;

/// `Arc::from` for a string slice: a handle of an allocation with the same
/// text.
#[verifier::external_body]
fn allocate(text: &str) -> (r: Handle)
    ensures
        handle_text(r) == text@,
{
    Handle { text: Arc::from(text) }
}

/// `Arc::clone`: another handle of the same allocation.
#[verifier::external_body]
fn share(handle: &Handle) -> (r: Handle)
    ensures
        r == *handle,
{
    Handle { text: Arc::clone(&handle.text) }
}

/// `Arc::deref`: the text that the handle gives access to.
#[verifier::external_body]
fn read(handle: &Handle) -> (r: &str)
    ensures
        r@ == handle_text(*handle),
{
    &handle.text
}

/// `Arc::strong_count`: how many handles of the allocation are alive. The
/// number depends on what the rest of the program holds, so nothing is claimed
/// of it.
#[verifier::external_body]
fn handles(handle: &Handle) -> (r: usize) {
    Arc::strong_count(&handle.text)
}

/// What a counting function answers for a handle.
fn count_with<F: Fn(&Handle) -> usize>(count: F, handle: &Handle) -> (r: usize)
    requires
        call_requires(count, (handle,)),
    ensures
        call_ensures(count, (handle,), r),
{
    count(handle)
}

/// Whether `n` is an answer to how many handles of the allocation of `s` are
/// alive.
pub closed spec fn counted(s: Istr, n: usize) -> bool {
    call_ensures(handles, (&s.handle,), n)
}

/// Whether `counts` are answers, one for each string in turn, to how many handles
/// are alive.
pub open spec fn counted_all(strings: Seq<Istr>, counts: Seq<usize>) -> bool {
    &&& counts.len() == strings.len()
    &&& forall|k: int| 0 <= k < counts.len() ==> counted(strings[k], #[trigger] counts[k])
}

/// An interned string. Two of them are equal in contracts only where they share
/// one allocation.
#[derive(Debug, PartialEq, Eq, PartialOrd, Ord, Hash)]
pub struct Istr {
    handle: Handle,
}

impl View for Istr {
    type V = Seq<char>;

    closed spec fn view(&self) -> Seq<char> {
        handle_text(self.handle)
    }
}

impl Clone for Istr {
    /// The same string in the same allocation.
    fn clone(&self) -> (r: Self)
        ensures
            r == *self,
    {
        Istr { handle: share(&self.handle) }
    }
}

/// The texts that are interned at the moment, each once, in lexicographic
/// order.
#[derive(Debug)]
pub struct StringCache {
    entries: Vec<Istr>,
}

/// Whether the texts stand in strictly increasing lexicographic order.
pub open spec fn strictly_sorted(texts: Seq<Seq<char>>) -> bool {
    forall|i: int, j: int|
        0 <= i < j < texts.len() ==> lex_lt(#[trigger] texts[i], #[trigger] texts[j])
}

/// The items whose flag is set, in their order.
pub open spec fn retained<T>(items: Seq<T>, keep: Seq<bool>) -> Seq<T>
    decreases items.len(),
{
    if items.len() == 0 {
        Seq::empty()
    } else if keep[items.len() - 1] {
        retained(items.drop_last(), keep).push(items.last())
    } else {
        retained(items.drop_last(), keep)
    }
}

/// Which entries are in use, given how many handles each of them has: those
/// that something besides the cache has a handle of.
pub open spec fn in_use(counts: Seq<usize>) -> Seq<bool> {
    counts.map_values(|count: usize| count > 1)
}

impl View for StringCache {
    type V = Set<Seq<char>>;

    open spec fn view(&self) -> Set<Seq<char>> {
        self.texts().to_set()
    }
}

impl StringCache {
    /// The cached strings in the order in which they are kept.
    pub closed spec fn strings(&self) -> Seq<Istr> {
        self.entries@
    }

    /// The cached texts in the order in which they are kept.
    pub open spec fn texts(&self) -> Seq<Seq<char>> {
        self.strings().map_values(|e: Istr| e@)
    }

    /// Whether a string is one of the cache's own: it shares the cache's
    /// allocation of its text.
    pub open spec fn holds(&self, s: Istr) -> bool {
        self.strings().contains(s)
    }

    /// The cached texts are in strict order, so none of them occurs twice.
    pub open spec fn wf(&self) -> bool {
        strictly_sorted(self.texts())
    }

    /// A cache without any text.
    pub fn new() -> (r: Self)
        ensures
            r.wf(),
            r.texts() == Seq::<Seq<char>>::empty(),
            r@ == Set::<Seq<char>>::empty(),
    {
        let r = StringCache { entries: Vec::new() };
        assert(r.texts() =~= Seq::<Seq<char>>::empty());
        assert(r@ =~= Set::<Seq<char>>::empty());
        r
    }

    /// How many texts are cached.
    pub fn len(&self) -> (r: usize)
        ensures
            r == self.texts().len(),
            self.wf() ==> r == self@.len(),
    {
        proof {
            if self.wf() {
                lemma_sorted_distinct(self.texts());
                self.texts().unique_seq_to_set();
            }
        }
        self.entries.len()
    }

    /// The first position whose text does not precede `text`.
    fn lower_bound(&self, text: &str) -> (r: usize)
        requires
            self.wf(),
        ensures
            r <= self.texts().len(),
            forall|i: int| 0 <= i < r ==> lex_lt(#[trigger] self.texts()[i], text@),
            forall|i: int|
                r <= i < self.texts().len() ==> !lex_lt(#[trigger] self.texts()[i], text@),
    {
        let mut low: usize = 0;
        let mut high: usize = self.entries.len();
        while low < high
            invariant
                self.wf(),
                low <= high <= self.texts().len(),
                self.texts().len() == self.entries@.len(),
                forall|i: int| 0 <= i < low ==> lex_lt(#[trigger] self.texts()[i], text@),
                forall|i: int|
                    high <= i < self.texts().len() ==> !lex_lt(#[trigger] self.texts()[i], text@),
            decreases high - low,
        {
            let mid: usize = low + (high - low) / 2;
            let entry = &self.entries[mid];
            assert(self.texts()[mid as int] == entry@);
            if str_lt(entry.as_ref(), text) {
                assert forall|i: int| 0 <= i < mid + 1 implies lex_lt(
                    #[trigger] self.texts()[i],
                    text@,
                ) by {
                    if i < mid {
                        lemma_lex_transitive(self.texts()[i], self.texts()[mid as int], text@);
                    }
                }
                low = mid + 1;
            } else {
                assert forall|i: int| mid <= i < self.texts().len() implies !lex_lt(
                    #[trigger] self.texts()[i],
                    text@,
                ) by {
                    if i > mid && lex_lt(self.texts()[i], text@) {
                        lemma_lex_transitive(self.texts()[mid as int], self.texts()[i], text@);
                    }
                }
                high = mid;
            }
        }
        low
    }

    /// Drops every entry whose flag is not set; returns how many were dropped.
    /// The others stay what they are.
    pub fn retain(&mut self, keep: &Vec<bool>) -> (dropped: usize)
        requires
            old(self).wf(),
            keep@.len() == old(self).texts().len(),
        ensures
            final(self).wf(),
            final(self).strings() == retained(old(self).strings(), keep@),
            final(self).texts() == retained(old(self).texts(), keep@),
            final(self)@.subset_of(old(self)@),
            forall|s: Istr| #[trigger] final(self).holds(s) ==> old(self).holds(s),
            dropped == old(self).texts().len() - final(self).texts().len(),
    {
        let ghost before = self.strings();
        let total: usize = self.entries.len();
        let mut kept: Vec<Istr> = Vec::new();
        let mut i: usize = 0;
        while i < total
            invariant
                before == self.entries@,
                total == self.entries@.len(),
                total == keep@.len(),
                i <= total,
                kept@.len() <= i,
                kept@ == retained(before.take(i as int), keep@),
            decreases total - i,
        {
            assert(before.take(i + 1).drop_last() =~= before.take(i as int));
            if keep[i] {
                kept.push(self.entries[i].clone());
            }
            i += 1;
        }
        assert(before.take(total as int) =~= before);
        proof {
            lemma_retained_sorted(self.texts(), keep@);
            lemma_retained_views(before, keep@);
            lemma_retained_among(before, keep@);
        }
        let dropped: usize = total - kept.len();
        self.entries = kept;
        assert(self@.subset_of(old(self)@));
        dropped
    }

    /// Drops every entry that nothing but the cache has a handle of, given how
    /// many handles each entry has; returns how many were dropped.
    pub fn retain_used(&mut self, counts: &Vec<usize>) -> (dropped: usize)
        requires
            old(self).wf(),
            counts@.len() == old(self).texts().len(),
        ensures
            final(self).wf(),
            final(self).strings() == retained(old(self).strings(), in_use(counts@)),
            final(self).texts() == retained(old(self).texts(), in_use(counts@)),
            final(self)@.subset_of(old(self)@),
            forall|s: Istr| #[trigger] final(self).holds(s) ==> old(self).holds(s),
            dropped == old(self).texts().len() - final(self).texts().len(),
    {
        let mut keep: Vec<bool> = Vec::new();
        let mut i: usize = 0;
        while i < counts.len()
            invariant
                i <= counts@.len(),
                keep@ == in_use(counts@).take(i as int),
            decreases counts@.len() - i,
        {
            keep.push(counts[i] > 1);
            i += 1;
            assert(keep@ =~= in_use(counts@).take(i as int));
        }
        assert(keep@ =~= in_use(counts@));
        self.retain(&keep)
    }
}

/// Flags pick the same strings as texts.
proof fn lemma_retained_views(items: Seq<Istr>, keep: Seq<bool>)
    ensures
        retained(items, keep).map_values(|e: Istr| e@) == retained(
            items.map_values(|e: Istr| e@),
            keep,
        ),
    decreases items.len(),
{
    let texts = items.map_values(|e: Istr| e@);
    if items.len() > 0 {
        lemma_retained_views(items.drop_last(), keep);
        assert(items.drop_last().map_values(|e: Istr| e@) =~= texts.drop_last());
    }
    assert(retained(items, keep).map_values(|e: Istr| e@) =~= retained(texts, keep));
}

/// What is retained was there before.
proof fn lemma_retained_among<T>(items: Seq<T>, keep: Seq<bool>)
    ensures
        forall|x: T| #[trigger] retained(items, keep).contains(x) ==> items.contains(x),
    decreases items.len(),
{
    if items.len() > 0 {
        let shorter = items.drop_last();
        lemma_retained_among(shorter, keep);
        assert forall|x: T| #[trigger] retained(items, keep).contains(x) implies items.contains(
            x,
        ) by {
            let r = retained(items, keep);
            let rest = retained(shorter, keep);
            let i = choose|i: int| 0 <= i < r.len() && r[i] == x;
            if i < rest.len() {
                assert(rest.contains(x));
                let j = choose|j: int| 0 <= j < shorter.len() && shorter[j] == x;
                assert(items[j] == x);
            } else {
                assert(items[items.len() - 1] == x);
            }
        }
    }
}

/// Of items that are all different, exactly those whose flag is set are
/// retained.
proof fn lemma_retained_exactly<T>(items: Seq<T>, keep: Seq<bool>, i: int)
    requires
        items.no_duplicates(),
        0 <= i < items.len(),
    ensures
        retained(items, keep).contains(items[i]) == keep[i],
    decreases items.len(),
{
    let shorter = items.drop_last();
    let rest = retained(shorter, keep);
    let all = retained(items, keep);
    if i < shorter.len() {
        lemma_retained_exactly(shorter, keep, i);
        if rest.contains(items[i]) {
            let j = choose|j: int| 0 <= j < rest.len() && rest[j] == items[i];
            assert(all[j] == items[i]);
        }
        if all.contains(items[i]) {
            let j = choose|j: int| 0 <= j < all.len() && all[j] == items[i];
            if j < rest.len() {
                assert(rest[j] == items[i]);
            } else {
                assert(items[i] == items[items.len() - 1]);
            }
        }
    } else {
        if keep[i] {
            assert(all[all.len() - 1] == items[i]);
        } else {
            lemma_retained_among(shorter, keep);
            if all.contains(items[i]) {
                assert(shorter.contains(items[i]));
                let j = choose|j: int| 0 <= j < shorter.len() && shorter[j] == items[i];
                assert(items[j] == items[i]);
            }
        }
    }
}

/// A collection keeps exactly the texts that are in use: a text stays if and
/// only if something besides the cache has a handle of it.
pub proof fn law_used_texts_kept(cache: StringCache, counts: Seq<usize>, i: int)
    requires
        cache.wf(),
        counts.len() == cache.texts().len(),
        0 <= i < cache.texts().len(),
    ensures
        retained(cache.texts(), in_use(counts)).contains(cache.texts()[i]) == (counts[i] > 1),
{
    lemma_sorted_distinct(cache.texts());
    lemma_retained_exactly(cache.texts(), in_use(counts), i);
}

/// A string that is in use is still the cache's own after a collection, so that
/// its text is not allocated again.
pub proof fn law_used_strings_stay(cache: StringCache, counts: Seq<usize>, i: int)
    requires
        cache.wf(),
        counts.len() == cache.strings().len(),
        0 <= i < cache.strings().len(),
    ensures
        retained(cache.strings(), in_use(counts)).contains(cache.strings()[i]) == (counts[i] > 1),
{
    let items = cache.strings();
    lemma_sorted_distinct(cache.texts());
    assert forall|a: int, b: int| 0 <= a < items.len() && 0 <= b < items.len() && a != b implies items[a]
        != items[b] by {
        assert(cache.texts()[a] != cache.texts()[b]);
    }
    lemma_retained_exactly(items, in_use(counts), i);
}

/// A second collection at once changes nothing: what the first has left is in
/// use.
pub proof fn law_collection_settles<T>(items: Seq<T>, counts: Seq<usize>)
    requires
        counts.len() == items.len(),
    ensures
        ({
            let left = retained(items, in_use(counts));
            let left_counts = retained(counts, in_use(counts));
            retained(left, in_use(left_counts)) == left
        }),
{
    lemma_left_in_use(items, counts, in_use(counts));
    let left = retained(items, in_use(counts));
    let left_counts = retained(counts, in_use(counts));
    lemma_all_retained(left, in_use(left_counts));
}

/// What is left by a collection has more than one handle each.
proof fn lemma_left_in_use<T>(items: Seq<T>, counts: Seq<usize>, keep: Seq<bool>)
    requires
        counts.len() == items.len(),
        forall|i: int| 0 <= i < counts.len() ==> #[trigger] keep[i] == (counts[i] > 1),
    ensures
        retained(counts, keep).len() == retained(items, keep).len(),
        forall|i: int|
            0 <= i < retained(counts, keep).len() ==> #[trigger] retained(counts, keep)[i] > 1,
    decreases items.len(),
{
    if items.len() > 0 {
        let shorter = counts.drop_last();
        assert forall|i: int| 0 <= i < shorter.len() implies #[trigger] keep[i] == (shorter[i]
            > 1) by {}
        lemma_left_in_use(items.drop_last(), shorter, keep);
    }
}

/// Where all flags are set, everything is retained.
proof fn lemma_all_retained<T>(items: Seq<T>, keep: Seq<bool>)
    requires
        keep.len() >= items.len(),
        forall|i: int| 0 <= i < items.len() ==> #[trigger] keep[i],
    ensures
        retained(items, keep) == items,
    decreases items.len(),
{
    if items.len() > 0 {
        lemma_all_retained(items.drop_last(), keep);
        assert(keep[items.len() - 1]);
    }
    assert(retained(items, keep) =~= items);
}

/// Dropping entries keeps the order of the others.
proof fn lemma_retained_sorted(texts: Seq<Seq<char>>, keep: Seq<bool>)
    requires
        strictly_sorted(texts),
    ensures
        strictly_sorted(retained(texts, keep)),
        forall|i: int|
            0 <= i < retained(texts, keep).len() ==> texts.contains(
                #[trigger] retained(texts, keep)[i],
            ),
    decreases texts.len(),
{
    if texts.len() > 0 {
        let shorter = texts.drop_last();
        lemma_retained_sorted(shorter, keep);
        let r = retained(shorter, keep);
        assert forall|i: int| 0 <= i < r.len() implies texts.contains(#[trigger] r[i]) && lex_lt(
            r[i],
            texts.last(),
        ) by {
            assert(shorter.contains(r[i]));
            let j = choose|j: int| 0 <= j < shorter.len() && shorter[j] == r[i];
            assert(texts[j] == r[i]);
        }
        assert(texts.contains(texts.last()));
    }
}

impl Istr {
    /// The interned form of `text`: the string of the cache that holds the same
    /// text, which is added where there was none. What the cache held before,
    /// it holds still.
    pub fn new(cache: &mut StringCache, text: &str) -> (r: Self)
        requires
            old(cache).wf(),
        ensures
            r@ == text@,
            final(cache).wf(),
            final(cache)@ == old(cache)@.insert(text@),
            final(cache).holds(r),
            forall|s: Istr| #[trigger] old(cache).holds(s) ==> final(cache).holds(s),
            forall|s: Istr| #[trigger] old(cache).holds(s) && s@ == text@ ==> r == s,
            forall|s: Istr| #[trigger] final(cache).holds(s) ==> old(cache).holds(s) || s == r,
            old(cache)@.contains(text@) ==> final(cache).strings() == old(cache).strings(),
    {
        let at: usize = cache.lower_bound(text);
        let ghost before = cache.texts();
        let ghost start = cache.strings();
        if at < cache.entries.len() {
            let entry = &cache.entries[at];
            assert(before[at as int] == entry@);
            if !str_lt(text, entry.as_ref()) {
                proof {
                    lemma_lex_total(entry@, text@);
                    assert(before.contains(text@));
                    assert(cache@ =~= cache@.insert(text@));
                    assert(start[at as int] == *entry);
                    lemma_text_held_once(*cache, at as int);
                }
                return entry.clone();
            }
        }
        let made = Istr { handle: allocate(text) };
        cache.entries.insert(at, made.clone());
        proof {
            let after = cache.texts();
            assert(after =~= before.insert(at as int, text@));
            lemma_insert_sorted(before, at as int, text@);
            assert(cache.strings()[at as int] == made);
            assert forall|s: Istr| #[trigger] start.contains(s) implies cache.strings().contains(s)
                && s@ != text@ by {
                let k = choose|k: int| 0 <= k < start.len() && start[k] == s;
                assert(before[k] == s@);
                assert(cache.strings()[if k < at {
                    k
                } else {
                    k + 1
                }] == s);
            }
            assert forall|s: Istr| #[trigger] cache.strings().contains(s) implies start.contains(s)
                || s == made by {
                let k = choose|k: int| 0 <= k < cache.strings().len() && cache.strings()[k] == s;
                if k < at {
                    assert(start[k] == s);
                } else if k > at {
                    assert(start[k - 1] == s);
                }
            }
        }
        made
    }

    /// Drops the texts that nothing but the cache has a handle of; returns how
    /// many there were. Each entry is asked how many handles it has, which depends
    /// on what the rest of the program holds; what stays follows from the answers.
    pub fn gc(cache: &mut StringCache) -> (collected: usize)
        requires
            old(cache).wf(),
        ensures
            final(cache).wf(),
            exists|counts: Seq<usize>|
                #![trigger in_use(counts)]
                counted_all(old(cache).strings(), counts) && final(cache).strings() == retained(
                    old(cache).strings(),
                    in_use(counts),
                ) && final(cache).texts() == retained(old(cache).texts(), in_use(counts)),
            final(cache)@.subset_of(old(cache)@),
            forall|s: Istr| #[trigger] final(cache).holds(s) ==> old(cache).holds(s),
            collected == old(cache).texts().len() - final(cache).texts().len(),
    {
        let mut counts: Vec<usize> = Vec::new();
        let mut i: usize = 0;
        while i < cache.entries.len()
            invariant
                i <= cache.entries@.len(),
                counts@.len() == i,
                forall|k: int|
                    0 <= k < counts@.len() ==> counted(cache.strings()[k], #[trigger] counts@[k]),
            decreases cache.entries@.len() - i,
        {
            let count: usize = count_with(handles, &cache.entries[i].handle);
            assert(counted(cache.strings()[i as int], count));
            counts.push(count);
            i += 1;
        }
        assert(counted_all(cache.strings(), counts@));
        assert(in_use(counts@).len() == counts@.len());
        cache.retain_used(&counts)
    }

    /// The text.
    pub fn as_ref(&self) -> (r: &str)
        ensures
            r@ == self@,
    {
        read(&self.handle)
    }
}

/// Only one string of a cache has the text of the one at `at`.
proof fn lemma_text_held_once(cache: StringCache, at: int)
    requires
        cache.wf(),
        0 <= at < cache.strings().len(),
    ensures
        forall|s: Istr| #[trigger]
            cache.holds(s) && s@ == cache.strings()[at]@ ==> s == cache.strings()[at],
{
    lemma_sorted_distinct(cache.texts());
    assert forall|s: Istr| #[trigger] cache.holds(s) && s@ == cache.strings()[at]@ implies s
        == cache.strings()[at] by {
        let k = choose|k: int| 0 <= k < cache.strings().len() && cache.strings()[k] == s;
        assert(cache.texts()[k] == cache.texts()[at]);
    }
}

/// Texts in strict order are all different.
proof fn lemma_sorted_distinct(texts: Seq<Seq<char>>)
    requires
        strictly_sorted(texts),
    ensures
        texts.no_duplicates(),
{
    assert forall|i: int, j: int| 0 <= i < texts.len() && 0 <= j < texts.len() && i != j implies texts[i]
        != texts[j] by {
        if texts[i] == texts[j] {
            lemma_lex_irreflexive(texts[i]);
        }
    }
}

/// What inserting at the lower bound does to the order and to the contents.
proof fn lemma_insert_sorted(texts: Seq<Seq<char>>, at: int, text: Seq<char>)
    requires
        strictly_sorted(texts),
        0 <= at <= texts.len(),
        forall|i: int| 0 <= i < at ==> lex_lt(#[trigger] texts[i], text),
        at < texts.len() ==> lex_lt(text, texts[at]),
    ensures
        strictly_sorted(texts.insert(at, text)),
        texts.insert(at, text).to_set() == texts.to_set().insert(text),
        !texts.contains(text),
{
    let after = texts.insert(at, text);
    assert forall|i: int| at <= i < texts.len() implies lex_lt(text, #[trigger] texts[i]) by {
        if i > at {
            lemma_lex_transitive(text, texts[at], texts[i]);
        }
    }
    assert(forall|i: int| 0 <= i < at ==> after[i] == texts[i]);
    assert(forall|i: int| at < i < after.len() ==> after[i] == texts[i - 1]);
    assert forall|x: Seq<char>| after.to_set().contains(x) == texts.to_set().insert(text).contains(
        x,
    ) by {
        if texts.contains(x) {
            let j = choose|j: int| 0 <= j < texts.len() && texts[j] == x;
            assert(after[if j < at { j } else { j + 1 }] == x);
        }
        assert(after[at] == text);
    }
    assert(after.to_set() =~= texts.to_set().insert(text));
    lemma_lex_irreflexive(text);
}

/// Equal texts share one allocation: to intern a text twice gives the same string,
/// and the second time the cache does not grow.
pub proof fn law_equal_texts_share(
    first: &mut StringCache,
    second: &mut StringCache,
    a: &str,
    b: &str,
    x: Istr,
    y: Istr,
)
    requires
        old(first).wf(),
        call_ensures(Istr::new, (first, a), x),
        *old(second) == *final(first),
        call_ensures(Istr::new, (second, b), y),
    ensures
        x@ == a@,
        y@ == b@,
        (x == y) == (a@ == b@),
        a@ == b@ ==> final(second).strings() == final(first).strings(),
        forall|text: Seq<char>| #[trigger]
            final(first).texts().contains(text) == (old(first).texts().contains(text) || text == a@),
{
    assert forall|text: Seq<char>| #[trigger] final(first).texts().contains(text) == (old(first).texts().contains(text) || text == a@) by {
        assert(final(first)@.contains(text) == (old(first)@.contains(text) || text == a@));
    }
    if a@ == b@ {
        assert(old(second).holds(x));
        assert(old(second).texts().contains(b@)) by {
            let k = choose|k: int|
                0 <= k < old(second).strings().len() && old(second).strings()[k] == x;
            assert(old(second).texts()[k] == x@);
        }
        assert(old(second)@.contains(b@));
    }
}

/// A copy of a string is the same string, and a string gives its text back.
pub proof fn law_copies_are_the_same(s: &Istr, copy: Istr, text: &str, fresh: StringCache, n: usize)
    requires
        call_ensures(<Istr as Clone>::clone, (s,), copy),
        call_ensures(Istr::as_ref, (s,), text),
        call_ensures(StringCache::new, (), fresh),
        call_ensures(StringCache::len, (&fresh,), n),
    ensures
        copy == *s,
        text@ == s@,
        fresh.strings().len() == 0,
        n == 0,
{
    assert(fresh.texts().len() == fresh.strings().len());
}

/// A collection asks every string of the cache how many handles it has. Exactly
/// those stay that have another one besides the cache's own, as the same strings;
/// and the result says how many have gone.
pub proof fn law_collection_keeps_what_is_used(cache: &mut StringCache, collected: usize)
    requires
        old(cache).wf(),
        call_ensures(Istr::gc, (cache,), collected),
    ensures
        collected == old(cache).strings().len() - final(cache).strings().len(),
        exists|counts: Seq<usize>|
            #![trigger counts.len()]
            counts.len() == old(cache).strings().len() && forall|i: int|
                0 <= i < counts.len() ==> counted(old(cache).strings()[i], #[trigger] counts[i])
                    && final(cache).strings().contains(old(cache).strings()[i]) == (counts[i] > 1),
        forall|s: Istr| #[trigger]
            final(cache).strings().contains(s) ==> old(cache).strings().contains(s),
{
    let counts = choose|counts: Seq<usize>|
        #![trigger in_use(counts)]
        counted_all(old(cache).strings(), counts) && final(cache).strings() == retained(
            old(cache).strings(),
            in_use(counts),
        ) && final(cache).texts() == retained(old(cache).texts(), in_use(counts));
    assert(old(cache).texts().len() == old(cache).strings().len());
    assert(final(cache).texts().len() == final(cache).strings().len());
    assert(counts.len() == old(cache).strings().len());
    assert forall|i: int| 0 <= i < counts.len() implies counted(
        old(cache).strings()[i],
        #[trigger] counts[i],
    ) && final(cache).strings().contains(old(cache).strings()[i]) == (counts[i] > 1) by {
        law_used_strings_stay(*old(cache), counts, i);
    }
    assert forall|s: Istr| #[trigger] final(cache).strings().contains(s) implies old(cache).strings().contains(s) by {
        assert(final(cache).holds(s));
        assert(old(cache).holds(s));
    }
}

/// The same for counts that are given: exactly the strings with more than one
/// handle stay.
pub proof fn law_used_strings_are_retained(
    cache: &mut StringCache,
    counts: &Vec<usize>,
    dropped: usize,
    i: int,
)
    requires
        old(cache).wf(),
        counts@.len() == old(cache).texts().len(),
        call_ensures(StringCache::retain_used, (cache, counts), dropped),
        0 <= i < counts@.len(),
    ensures
        final(cache).strings().contains(old(cache).strings()[i]) == (counts@[i] > 1),
        dropped == old(cache).strings().len() - final(cache).strings().len(),
{
    assert(old(cache).texts().len() == old(cache).strings().len());
    assert(final(cache).texts().len() == final(cache).strings().len());
    law_used_strings_stay(*old(cache), counts@, i);
}

/// Strings stay exactly where they are to be kept.
pub proof fn law_flagged_strings_are_retained(
    cache: &mut StringCache,
    keep: &Vec<bool>,
    dropped: usize,
    i: int,
)
    requires
        old(cache).wf(),
        keep@.len() == old(cache).texts().len(),
        call_ensures(StringCache::retain, (cache, keep), dropped),
        0 <= i < keep@.len(),
    ensures
        final(cache).strings().contains(old(cache).strings()[i]) == keep@[i],
        dropped == old(cache).strings().len() - final(cache).strings().len(),
{
    assert(old(cache).texts().len() == old(cache).strings().len());
    assert(final(cache).texts().len() == final(cache).strings().len());
    let items = old(cache).strings();
    lemma_sorted_distinct(old(cache).texts());
    assert forall|a: int, b: int| 0 <= a < items.len() && 0 <= b < items.len() && a != b implies items[a]
        != items[b] by {
        assert(old(cache).texts()[a] != old(cache).texts()[b]);
    }
    lemma_retained_exactly(items, keep@, i);
}

} // verus!
