//! Searching a slot's inventory: filters, sort orders and the rows they show.

use vstd::prelude::*;

use crate::data::{SlotItemGroup, SlotItemInstance};
use crate::order::{in_bounds, ordered, same_positions, sort_indices, IndexOrder};
use crate::text::{
    chars_of, lemma_lex_irreflexive, lemma_lex_total, lemma_lex_transitive, lex_lt, str_eq, str_lt,
};

verus! {

broadcast use vstd::string::group_string_axioms;

/// The compatibility composition (NFKC) of a text, as `simd_normalizer`
/// computes it.
pub uninterp spec fn nfkc(text: Seq<char>) -> Seq<char>;

/// The standard case folding of a text, as `simd_normalizer` computes it.
pub uninterp spec fn case_folded(text: Seq<char>) -> Seq<char>;

/// `normalize` of the normalizer that `simd_normalizer::nfkc` returns: a
/// function of the text alone.
#[verifier::external_body]
fn compose(text: &str) -> (r: String)
    ensures
        r@ == nfkc(text@),
{
    simd_normalizer::nfkc().normalize(text).into_owned()
}

/// `simd_normalizer::casefold` in its standard mode: a function of the text
/// alone.
#[verifier::external_body]
fn fold_case(text: &str) -> (r: String)
    ensures
        r@ == case_folded(text@),
{
    simd_normalizer::casefold(text, simd_normalizer::CaseFoldMode::Standard).into_owned()
}

/// The form in which names are compared and searched.
pub open spec fn normal_form(text: Seq<char>) -> Seq<char> {
    case_folded(nfkc(text))
}

/// The form in which a name is compared and searched.
pub fn normalize_str(text: &str) -> (r: String)
    ensures
        r@ == normal_form(text@),
{
    let composed = compose(text);
    fold_case(composed.as_str())
}

/// Whether the flags of an item pass a filter: each flag that the filter names
/// has the value that it asks for.
pub open spec fn flags_match(filter: Seq<Option<bool>>, flags: Seq<bool>) -> bool {
    forall|k: int| 0 <= k < 3 ==> (#[trigger] filter[k] is None || filter[k] == Some(flags[k]))
}

/// Whether an item passes a type filter.
pub fn type_matches(filter: [Option<bool>; 3], inst: &SlotItemInstance) -> (r: bool)
    ensures
        r == flags_match(filter@, inst.type_flags@),
{
    let mut k: usize = 0;
    while k < 3
        invariant
            k <= 3,
            forall|i: int|
                0 <= i < k ==> (#[trigger] filter@[i] is None || filter@[i] == Some(
                    inst.type_flags@[i],
                )),
        decreases 3 - k,
    {
        if let Some(flag) = filter[k] {
            if flag != inst.type_flags[k] {
                assert(filter@[k as int] == Some(flag));
                return false;
            }
        }
        k += 1;
    }
    true
}

/// Whether `at` picks characters of `haystack` from left to right that spell
/// `needle`.
pub open spec fn picks(needle: Seq<char>, haystack: Seq<char>, at: Seq<int>) -> bool {
    &&& at.len() == needle.len()
    &&& forall|k: int| 0 <= k < at.len() ==> 0 <= #[trigger] at[k] < haystack.len()
    &&& forall|k: int, l: int| 0 <= k < l < at.len() ==> #[trigger] at[k] < #[trigger] at[l]
    &&& forall|k: int| 0 <= k < at.len() ==> needle[k] == haystack[#[trigger] at[k]]
}

/// Whether the characters of `needle` occur in `haystack` in their order, with
/// anything between them.
pub open spec fn fuzzy(needle: Seq<char>, haystack: Seq<char>) -> bool {
    exists|at: Seq<int>| picks(needle, haystack, at)
}

/// Some pick, where there is one.
spec fn a_pick(needle: Seq<char>, haystack: Seq<char>) -> Seq<int> {
    choose|at: Seq<int>| picks(needle, haystack, at)
}

/// A pick within the first `h + 1` characters that does not end on character
/// `h` stays within the first `h`.
proof fn lemma_pick_shrink(needle: Seq<char>, haystack: Seq<char>, h: int)
    requires
        0 <= h < haystack.len(),
        needle.len() > 0,
        needle.last() != haystack[h],
        fuzzy(needle, haystack.take(h + 1)),
    ensures
        fuzzy(needle, haystack.take(h)),
{
    let at = a_pick(needle, haystack.take(h + 1));
    let last = at.len() - 1;
    assert(needle[last] == haystack.take(h + 1)[at[last]]);
    assert(at[last] != h);
    assert forall|k: int| 0 <= k < at.len() implies 0 <= #[trigger] at[k] < haystack.take(
        h,
    ).len() by {
        if k < last {
            assert(at[k] < at[last]);
        }
    }
    assert(picks(needle, haystack.take(h), at));
}

/// A pick may be cut at any number of characters of the needle.
proof fn lemma_pick_prefix(needle: Seq<char>, haystack: Seq<char>, n: int)
    requires
        0 <= n <= needle.len(),
        fuzzy(needle, haystack),
    ensures
        fuzzy(needle.take(n), haystack),
{
    let at = a_pick(needle, haystack);
    assert(picks(needle.take(n), haystack, at.take(n)));
}

/// A pick within a prefix is a pick within every longer one.
proof fn lemma_pick_extend(needle: Seq<char>, haystack: Seq<char>, h: int, g: int)
    requires
        0 <= h <= g <= haystack.len(),
        fuzzy(needle, haystack.take(h)),
    ensures
        fuzzy(needle, haystack.take(g)),
{
    let at = a_pick(needle, haystack.take(h));
    assert forall|k: int| 0 <= k < at.len() implies needle[k] == haystack.take(
        g,
    )[#[trigger] at[k]] by {
        assert(needle[k] == haystack.take(h)[at[k]]);
    }
    assert(picks(needle, haystack.take(g), at));
}

/// One more character of the needle on the next character of the haystack.
proof fn lemma_pick_push(needle: Seq<char>, haystack: Seq<char>, n: int, h: int)
    requires
        0 <= n < needle.len(),
        0 <= h < haystack.len(),
        fuzzy(needle.take(n), haystack.take(h)),
        needle[n] == haystack[h],
    ensures
        fuzzy(needle.take(n + 1), haystack.take(h + 1)),
{
    let at = a_pick(needle.take(n), haystack.take(h));
    let longer = at.push(h);
    assert forall|k: int| 0 <= k < longer.len() implies 0 <= #[trigger] longer[k] < haystack.take(
        h + 1,
    ).len() && needle.take(n + 1)[k] == haystack.take(h + 1)[longer[k]] by {
        if k < n {
            assert(longer[k] == at[k]);
            assert(needle.take(n)[k] == haystack.take(h)[at[k]]);
        }
    }
    assert forall|k: int, l: int| 0 <= k < l < longer.len() implies #[trigger] longer[k]
        < #[trigger] longer[l] by {
        assert(longer[k] == at[k]);
        if l < n {
            assert(longer[l] == at[l]);
        }
    }
    assert(picks(needle.take(n + 1), haystack.take(h + 1), longer));
}

/// Without characters to look for everything matches.
pub proof fn law_empty_needle_matches(haystack: Seq<char>)
    ensures
        fuzzy(Seq::empty(), haystack),
{
    assert(picks(Seq::empty(), haystack, Seq::empty()));
}

/// A text matches itself.
pub proof fn law_text_matches_itself(text: Seq<char>)
    ensures
        fuzzy(text, text),
{
    assert(picks(text, text, Seq::new(text.len(), |k: int| k)));
}

/// What matches a text matches every text that it matches.
pub proof fn law_fuzzy_transitive(a: Seq<char>, b: Seq<char>, c: Seq<char>)
    requires
        fuzzy(a, b),
        fuzzy(b, c),
    ensures
        fuzzy(a, c),
{
    let ab = a_pick(a, b);
    let bc = a_pick(b, c);
    let ac = Seq::new(ab.len(), |k: int| bc[ab[k]]);
    assert forall|k: int| 0 <= k < ac.len() implies 0 <= #[trigger] ac[k] < c.len() && a[k]
        == c[ac[k]] by {
        assert(a[k] == b[ab[k]]);
        assert(b[ab[k]] == c[bc[ab[k]]]);
    }
    assert forall|k: int, l: int| 0 <= k < l < ac.len() implies #[trigger] ac[k]
        < #[trigger] ac[l] by {
        assert(ab[k] < ab[l]);
        assert(bc[ab[k]] < bc[ab[l]]);
    }
    assert(picks(a, c, ac));
}

/// Whether the characters of `needle` occur in `haystack` in their order.
pub fn fuzzy_matches(needle: &str, haystack: &str) -> (r: bool)
    ensures
        r == fuzzy(needle@, haystack@),
{
    let wanted = chars_of(needle);
    let text = chars_of(haystack);
    let mut n: usize = 0;
    let mut h: usize = 0;
    proof {
        law_empty_needle_matches(text@.take(0));
        assert(wanted@.take(0) =~= Seq::<char>::empty());
        if wanted@.len() > 0 {
            assert(!fuzzy(wanted@.take(1), text@.take(0))) by {
                if fuzzy(wanted@.take(1), text@.take(0)) {
                    let at = a_pick(wanted@.take(1), text@.take(0));
                    assert(at[0] < text@.take(0).len());
                }
            }
        }
    }
    while h < text.len()
        invariant
            wanted@ == needle@,
            text@ == haystack@,
            h <= text@.len(),
            n <= wanted@.len(),
            fuzzy(wanted@.take(n as int), text@.take(h as int)),
            n < wanted@.len() ==> !fuzzy(wanted@.take(n + 1), text@.take(h as int)),
        decreases text@.len() - h,
    {
        if n >= wanted.len() {
            proof {
                assert(wanted@.take(n as int) =~= wanted@);
                lemma_pick_extend(wanted@, text@, h as int, text@.len() as int);
                assert(text@.take(text@.len() as int) =~= text@);
            }
            return true;
        }
        if text[h] == wanted[n] {
            proof {
                lemma_pick_push(wanted@, text@, n as int, h as int);
                if n + 1 < wanted@.len() && fuzzy(wanted@.take(n + 2), text@.take(h + 1)) {
                    let at = a_pick(wanted@.take(n + 2), text@.take(h + 1));
                    let short = at.take(n + 1);
                    assert(at[n as int] < at[n + 1]);
                    assert forall|k: int| 0 <= k < short.len() implies 0 <= #[trigger] short[k]
                        < text@.take(h as int).len() && wanted@.take(n + 1)[k] == text@.take(
                        h as int,
                    )[short[k]] by {
                        assert(short[k] == at[k]);
                        assert(at[k] < at[n + 1]);
                        assert(wanted@.take(n + 2)[k] == text@.take(h + 1)[at[k]]);
                    }
                    assert(picks(wanted@.take(n + 1), text@.take(h as int), short));
                }
            }
            n += 1;
        } else {
            proof {
                lemma_pick_extend(wanted@.take(n as int), text@, h as int, h + 1);
                if fuzzy(wanted@.take(n + 1), text@.take(h + 1)) {
                    lemma_pick_shrink(wanted@.take(n + 1), text@, h as int);
                }
            }
        }
        h += 1;
    }
    proof {
        assert(text@.take(h as int) =~= text@);
        if n >= wanted@.len() {
            assert(wanted@.take(n as int) =~= wanted@);
        } else if fuzzy(wanted@, text@) {
            lemma_pick_prefix(wanted@, text@, n + 1);
        }
    }
    n >= wanted.len()
}

/// Statistics of one group of items under a type filter.
#[derive(Debug, Clone)]
pub struct SlotRowStat {
    pub name_normal: String,
    pub count: usize,
    pub type_count: [usize; 3],
    pub last_index: usize,
    pub unconfirmed: usize,
}

/// How many items satisfy a condition.
pub open spec fn count_where(
    items: Seq<SlotItemInstance>,
    cond: spec_fn(SlotItemInstance) -> bool,
) -> nat
    decreases items.len(),
{
    if items.len() == 0 {
        0
    } else {
        count_where(items.drop_last(), cond) + if cond(items.last()) {
            1nat
        } else {
            0
        }
    }
}

/// The largest index of the items that pass the filter, or zero.
pub open spec fn last_index_where(
    items: Seq<SlotItemInstance>,
    cond: spec_fn(SlotItemInstance) -> bool,
) -> int
    decreases items.len(),
{
    if items.len() == 0 {
        0
    } else {
        let rest = last_index_where(items.drop_last(), cond);
        if cond(items.last()) && items.last().index > rest {
            items.last().index as int
        } else {
            rest
        }
    }
}

/// The condition of passing a type filter.
pub open spec fn passing(filter: Seq<Option<bool>>) -> spec_fn(SlotItemInstance) -> bool {
    |i: SlotItemInstance| flags_match(filter, i.type_flags@)
}

/// The condition of passing a type filter and having a flag.
pub open spec fn passing_with(filter: Seq<Option<bool>>, k: int) -> spec_fn(
    SlotItemInstance,
) -> bool {
    |i: SlotItemInstance| flags_match(filter, i.type_flags@) && i.type_flags@[k]
}

/// The condition of passing a type filter and being new.
pub open spec fn passing_new(filter: Seq<Option<bool>>, confirmed: int) -> spec_fn(
    SlotItemInstance,
) -> bool {
    |i: SlotItemInstance| flags_match(filter, i.type_flags@) && i.index >= confirmed
}

/// Whether the numbers of `stat` are those of `items`.
pub open spec fn counts_of(
    stat: SlotRowStat,
    items: Seq<SlotItemInstance>,
    filter: Seq<Option<bool>>,
    confirmed: int,
) -> bool {
    &&& stat.count == count_where(items, passing(filter))
    &&& forall|k: int|
        0 <= k < 3 ==> #[trigger] stat.type_count@[k] == count_where(items, passing_with(filter, k))
    &&& stat.last_index == last_index_where(items, passing(filter))
    &&& stat.unconfirmed == count_where(items, passing_new(filter, confirmed))
}

/// Whether `stat` describes `group` under a type filter.
pub open spec fn describes(
    stat: SlotRowStat,
    group: SlotItemGroup,
    filter: Seq<Option<bool>>,
    confirmed: int,
) -> bool {
    &&& stat.name_normal@ == normal_form(group.name@)
    &&& counts_of(stat, group.instances@, filter, confirmed)
}

/// Whether `stats` describes an inventory, group by group.
pub open spec fn describes_all(
    stats: Seq<SlotRowStat>,
    inventory: Seq<SlotItemGroup>,
    filter: Seq<Option<bool>>,
    confirmed: int,
) -> bool {
    &&& stats.len() == inventory.len()
    &&& forall|i: int|
        0 <= i < stats.len() ==> describes(#[trigger] stats[i], inventory[i], filter, confirmed)
}

/// A stronger condition is met at most as often, and never more often than
/// there are items.
proof fn lemma_count_bounds(
    items: Seq<SlotItemInstance>,
    strong: spec_fn(SlotItemInstance) -> bool,
    weak: spec_fn(SlotItemInstance) -> bool,
)
    requires
        forall|i: SlotItemInstance| #[trigger] strong(i) ==> weak(i),
    ensures
        count_where(items, strong) <= count_where(items, weak) <= items.len(),
    decreases items.len(),
{
    if items.len() > 0 {
        lemma_count_bounds(items.drop_last(), strong, weak);
    }
}

/// No flag and no novelty is counted more often than the items of a row.
pub proof fn law_counts_bounded(
    stat: SlotRowStat,
    items: Seq<SlotItemInstance>,
    filter: Seq<Option<bool>>,
    confirmed: int,
)
    requires
        counts_of(stat, items, filter, confirmed),
    ensures
        stat.count <= items.len(),
        stat.unconfirmed <= stat.count,
        forall|k: int| 0 <= k < 3 ==> #[trigger] stat.type_count@[k] <= stat.count,
{
    lemma_count_bounds(items, passing_new(filter, confirmed), passing(filter));
    assert forall|k: int| 0 <= k < 3 implies #[trigger] stat.type_count@[k] <= stat.count by {
        lemma_count_bounds(items, passing_with(filter, k), passing(filter));
    }
}

/// Computes the statistics of one group.
pub fn row_stat(group: &SlotItemGroup, filter: [Option<bool>; 3], confirmed: usize) -> (r:
    SlotRowStat)
    ensures
        describes(r, *group, filter@, confirmed as int),
{
    let mut stat = SlotRowStat {
        name_normal: normalize_str(group.name.as_ref()),
        count: 0,
        type_count: [0, 0, 0],
        last_index: 0,
        unconfirmed: 0,
    };
    let mut i: usize = 0;
    while i < group.instances.len()
        invariant
            i <= group.instances@.len(),
            stat.name_normal@ == normal_form(group.name@),
            counts_of(stat, group.instances@.take(i as int), filter@, confirmed as int),
        decreases group.instances@.len() - i,
    {
        let instance = &group.instances[i];
        let ghost done = group.instances@.take(i as int);
        let ghost prior = stat;
        proof {
            assert(group.instances@.take(i + 1).drop_last() =~= done);
            law_counts_bounded(stat, done, filter@, confirmed as int);
            assert(stat.type_count@[0] <= stat.count);
            assert(stat.type_count@[1] <= stat.count);
            assert(stat.type_count@[2] <= stat.count);
        }
        if type_matches(filter, instance) {
            stat.count += 1;
            if instance.type_flags[0] {
                stat.type_count[0] += 1;
            }
            if instance.type_flags[1] {
                stat.type_count[1] += 1;
            }
            if instance.type_flags[2] {
                stat.type_count[2] += 1;
            }
            if instance.index > stat.last_index {
                stat.last_index = instance.index;
            }
            if instance.index >= confirmed {
                stat.unconfirmed += 1;
            }
        }
        assert forall|k: int| 0 <= k < 3 implies #[trigger] stat.type_count@[k] == count_where(
            group.instances@.take(i + 1),
            passing_with(filter@, k),
        ) by {
            assert(prior.type_count@[k] == count_where(done, passing_with(filter@, k)));
        }
        i += 1;
    }
    assert(group.instances@.take(i as int) =~= group.instances@);
    stat
}

/// The column that orders the rows, and whether it is turned around.
#[derive(Debug, Clone, Copy, PartialEq, Eq, Structural)]
pub enum SlotSortOrder {
    Name(bool),
    Count(bool),
    Index(bool),
}

impl SlotSortOrder {
    /// The order that a click on the count column asks for: the highest count
    /// first.
    pub fn by_count() -> (r: Self)
        ensures
            r == SlotSortOrder::Count(true),
    {
        SlotSortOrder::Count(true)
    }

    /// The order that a click on the index column asks for: the item that was
    /// received last first. The index is shown backwards, so this is the
    /// ascending order of what is shown.
    pub fn by_index() -> (r: Self)
        ensures
            r == SlotSortOrder::Index(false),
    {
        SlotSortOrder::Index(false)
    }

    /// The order that a click on the name column asks for.
    pub fn by_name() -> (r: Self)
        ensures
            r == SlotSortOrder::Name(false),
    {
        SlotSortOrder::Name(false)
    }
}

/// Whether row `i` comes before row `j` by name; rows with equal names keep
/// the order of the inventory.
pub open spec fn name_before(stats: Seq<SlotRowStat>, i: int, j: int) -> bool {
    ||| lex_lt(stats[i].name_normal@, stats[j].name_normal@)
    ||| stats[i].name_normal@ == stats[j].name_normal@ && i < j
}

/// Whether row `i` comes before row `j` by the chosen column; rows that are
/// equal there are ordered by name.
pub open spec fn column_before(
    stats: Seq<SlotRowStat>,
    order: SlotSortOrder,
    i: int,
    j: int,
) -> bool {
    match order {
        SlotSortOrder::Name(false) => name_before(stats, i, j),
        SlotSortOrder::Name(true) => name_before(stats, j, i),
        SlotSortOrder::Count(false) => {
            ||| stats[i].count < stats[j].count
            ||| stats[i].count == stats[j].count && name_before(stats, i, j)
        },
        SlotSortOrder::Count(true) => {
            ||| stats[i].count > stats[j].count
            ||| stats[i].count == stats[j].count && name_before(stats, i, j)
        },
        SlotSortOrder::Index(false) => {
            ||| stats[i].last_index > stats[j].last_index
            ||| stats[i].last_index == stats[j].last_index && name_before(stats, i, j)
        },
        SlotSortOrder::Index(true) => {
            ||| stats[i].last_index < stats[j].last_index
            ||| stats[i].last_index == stats[j].last_index && name_before(stats, i, j)
        },
    }
}

/// Whether row `i` is shown before row `j`: where asked for, the rows with
/// unconfirmed items come first.
pub open spec fn row_before(
    stats: Seq<SlotRowStat>,
    order: SlotSortOrder,
    unconfirmed_first: bool,
    i: int,
    j: int,
) -> bool {
    if unconfirmed_first && (stats[i].unconfirmed == 0) != (stats[j].unconfirmed == 0) {
        stats[j].unconfirmed == 0
    } else {
        column_before(stats, order, i, j)
    }
}

/// The order of rows by their statistics.
pub struct RowOrder<'a> {
    pub stats: &'a Vec<SlotRowStat>,
    pub order: SlotSortOrder,
    pub unconfirmed_first: bool,
}

impl<'a> RowOrder<'a> {
    fn name_is_before(&self, i: usize, j: usize) -> (r: bool)
        requires
            i < self.stats@.len(),
            j < self.stats@.len(),
        ensures
            r == name_before(self.stats@, i as int, j as int),
    {
        let a = self.stats[i].name_normal.as_str();
        let b = self.stats[j].name_normal.as_str();
        str_lt(a, b) || (i < j && str_eq(a, b))
    }
}

impl<'a> IndexOrder for RowOrder<'a> {
    open spec fn size(&self) -> nat {
        self.stats@.len()
    }

    open spec fn before(&self, i: int, j: int) -> bool {
        row_before(self.stats@, self.order, self.unconfirmed_first, i, j)
    }

    proof fn lemma_irreflexive(&self, i: int) {
        lemma_lex_irreflexive(self.stats@[i].name_normal@);
    }

    proof fn lemma_transitive(&self, i: int, j: int, k: int) {
        let a = self.stats@[i].name_normal@;
        let b = self.stats@[j].name_normal@;
        let c = self.stats@[k].name_normal@;
        if lex_lt(a, b) && lex_lt(b, c) {
            lemma_lex_transitive(a, b, c);
        }
        if lex_lt(c, b) && lex_lt(b, a) {
            lemma_lex_transitive(c, b, a);
        }
    }

    proof fn lemma_total(&self, i: int, j: int) {
        lemma_lex_total(self.stats@[i].name_normal@, self.stats@[j].name_normal@);
    }

    fn is_before(&self, i: usize, j: usize) -> (r: bool) {
        let a = &self.stats[i];
        let b = &self.stats[j];
        if self.unconfirmed_first && (a.unconfirmed == 0) != (b.unconfirmed == 0) {
            return b.unconfirmed == 0;
        }
        match self.order {
            SlotSortOrder::Name(false) => self.name_is_before(i, j),
            SlotSortOrder::Name(true) => self.name_is_before(j, i),
            SlotSortOrder::Count(false) => {
                a.count < b.count || (a.count == b.count && self.name_is_before(i, j))
            },
            SlotSortOrder::Count(true) => {
                a.count > b.count || (a.count == b.count && self.name_is_before(i, j))
            },
            SlotSortOrder::Index(false) => {
                a.last_index > b.last_index || (a.last_index == b.last_index
                    && self.name_is_before(i, j))
            },
            SlotSortOrder::Index(true) => {
                a.last_index < b.last_index || (a.last_index == b.last_index
                    && self.name_is_before(i, j))
            },
        }
    }
}

/// The state of a search in one slot's inventory.
#[derive(Debug)]
pub struct SlotSearcher {
    /// All items have to be scanned again.
    pub stale_inventory_or_type_filter: bool,
    /// The rows have to be chosen and ordered again.
    pub stale_name_filter_or_sort_order: bool,
    pub filter_type: [Option<bool>; 3],
    pub filter_name: String,
    pub sort_order: SlotSortOrder,
    pub sort_unconfirmed: bool,
    pub filter_name_normal: String,
    pub row_stats: Vec<SlotRowStat>,
    pub row_indices: Vec<usize>,
    pub last_index: usize,
}

/// Whether a row is shown: it has items under the type filter, and its name
/// matches.
pub open spec fn visible(stat: SlotRowStat, needle: Seq<char>) -> bool {
    stat.count > 0 && fuzzy(needle, stat.name_normal@)
}

/// Whether `rows` are exactly the visible rows, each once, in the chosen order.
pub open spec fn rows_of(
    rows: Seq<usize>,
    stats: Seq<SlotRowStat>,
    needle: Seq<char>,
    order: SlotSortOrder,
    unconfirmed_first: bool,
) -> bool {
    &&& forall|i: int|
        0 <= i < rows.len() ==> #[trigger] rows[i] < stats.len() && visible(
            stats[rows[i] as int],
            needle,
        )
    &&& forall|x: usize|
        x < stats.len() && visible(stats[x as int], needle) ==> #[trigger] rows.contains(x)
    &&& forall|i: int, j: int|
        0 <= i < j < rows.len() ==> row_before(
            stats,
            order,
            unconfirmed_first,
            #[trigger] rows[i] as int,
            #[trigger] rows[j] as int,
        )
}

/// Whether two searchers agree in what the user has chosen.
pub open spec fn same_choices(a: SlotSearcher, b: SlotSearcher) -> bool {
    &&& a.filter_type@ == b.filter_type@
    &&& a.filter_name@ == b.filter_name@
    &&& a.sort_order == b.sort_order
    &&& a.sort_unconfirmed == b.sort_unconfirmed
    &&& a.filter_name_normal@ == b.filter_name_normal@
}

/// Whether two searchers agree in what they have computed.
pub open spec fn same_rows(a: SlotSearcher, b: SlotSearcher) -> bool {
    &&& a.row_stats@ == b.row_stats@
    &&& a.row_indices@ == b.row_indices@
    &&& a.last_index == b.last_index
}

/// What [`SlotSearcher::update`] makes of a searcher.
pub open spec fn updated(
    pre: SlotSearcher,
    inventory: Seq<SlotItemGroup>,
    confirmed: int,
    post: SlotSearcher,
) -> bool {
    let rescan = pre.stale_inventory_or_type_filter;
    let reorder = rescan || pre.stale_name_filter_or_sort_order;
    &&& same_choices(pre, post)
    &&& !post.stale_inventory_or_type_filter
    &&& !post.stale_name_filter_or_sort_order
    &&& if rescan {
        describes_all(post.row_stats@, inventory, pre.filter_type@, confirmed) && post.last_index
            == 0
    } else {
        post.row_stats@ == pre.row_stats@ && post.last_index == pre.last_index
    }
    &&& if reorder {
        rows_of(
            post.row_indices@,
            post.row_stats@,
            pre.filter_name_normal@,
            pre.sort_order,
            pre.sort_unconfirmed,
        )
    } else {
        post.row_indices@ == pre.row_indices@
    }
}

/// The filter value that follows another: any, required, excluded, any again.
pub open spec fn next_filter(value: Option<bool>) -> Option<bool> {
    match value {
        None => Some(true),
        Some(true) => Some(false),
        Some(false) => None,
    }
}

/// The sort order after a click on a column: another column is taken as it
/// comes, the same one is turned around.
pub open spec fn next_order(current: SlotSortOrder, clicked: SlotSortOrder) -> SlotSortOrder {
    match (current, clicked) {
        (SlotSortOrder::Name(v), SlotSortOrder::Name(_)) => SlotSortOrder::Name(!v),
        (SlotSortOrder::Count(v), SlotSortOrder::Count(_)) => SlotSortOrder::Count(!v),
        (SlotSortOrder::Index(v), SlotSortOrder::Index(_)) => SlotSortOrder::Index(!v),
        _ => clicked,
    }
}

/// Three steps of a type filter lead back to where it was.
pub proof fn law_filter_cycles(value: Option<bool>)
    ensures
        next_filter(next_filter(next_filter(value))) == value,
        next_filter(value) != value,
        next_filter(next_filter(value)) != value,
{
}

/// Whether two sort orders go by the same column.
pub open spec fn same_column(a: SlotSortOrder, b: SlotSortOrder) -> bool {
    match (a, b) {
        (SlotSortOrder::Name(_), SlotSortOrder::Name(_)) => true,
        (SlotSortOrder::Count(_), SlotSortOrder::Count(_)) => true,
        (SlotSortOrder::Index(_), SlotSortOrder::Index(_)) => true,
        _ => false,
    }
}

/// A click on another column takes its order as it comes; a click on the
/// column in use turns the order around, and a second one restores it.
pub proof fn law_clicks_on_columns(current: SlotSortOrder, clicked: SlotSortOrder)
    ensures
        same_column(next_order(current, clicked), clicked),
        !same_column(current, clicked) ==> next_order(current, clicked) == clicked,
        same_column(current, clicked) ==> next_order(current, clicked) != current,
        same_column(current, clicked) ==> next_order(next_order(current, clicked), clicked)
            == current,
{
}

impl Default for SlotSearcher {
    fn default() -> (r: Self)
        ensures
            r.stale_inventory_or_type_filter,
            !r.stale_name_filter_or_sort_order,
            r.filter_type@ == seq![None::<bool>, None::<bool>, None::<bool>],
            r.filter_name@ == Seq::<char>::empty(),
            r.sort_order == SlotSortOrder::Name(false),
            r.sort_unconfirmed,
            r.filter_name_normal@ == Seq::<char>::empty(),
            r.row_stats@ == Seq::<SlotRowStat>::empty(),
            r.row_indices@ == Seq::<usize>::empty(),
            r.last_index == 0,
    {
        let filter_type: [Option<bool>; 3] = [None, None, None];
        assert(filter_type@ =~= seq![None::<bool>, None::<bool>, None::<bool>]);
        SlotSearcher {
            stale_inventory_or_type_filter: true,
            stale_name_filter_or_sort_order: false,
            filter_type,
            filter_name: String::new(),
            sort_order: SlotSortOrder::Name(false),
            sort_unconfirmed: true,
            filter_name_normal: String::new(),
            row_stats: Vec::new(),
            row_indices: Vec::new(),
            last_index: 0,
        }
    }
}

impl SlotSearcher {
    /// Sets one type filter.
    pub fn set_type_filter(&mut self, index: usize, value: Option<bool>)
        requires
            index < 3,
        ensures
            *final(self) == (SlotSearcher {
                stale_inventory_or_type_filter: true,
                filter_type: final(self).filter_type,
                ..*old(self)
            }),
            final(self).filter_type@ == old(self).filter_type@.update(index as int, value),
    {
        self.stale_inventory_or_type_filter = true;
        self.filter_type[index] = value;
    }

    /// Moves one type filter on.
    pub fn next_type_filter(&mut self, i: usize)
        requires
            i < 3,
        ensures
            *final(self) == (SlotSearcher {
                stale_inventory_or_type_filter: true,
                filter_type: final(self).filter_type,
                ..*old(self)
            }),
            final(self).filter_type@ == old(self).filter_type@.update(
                i as int,
                next_filter(old(self).filter_type@[i as int]),
            ),
    {
        let value = match self.filter_type[i] {
            None => Some(true),
            Some(true) => Some(false),
            Some(false) => None,
        };
        self.set_type_filter(i, value);
    }

    /// Takes over a changed name filter.
    pub fn update_name_filter(&mut self)
        ensures
            *final(self) == (SlotSearcher {
                stale_name_filter_or_sort_order: true,
                filter_name_normal: final(self).filter_name_normal,
                ..*old(self)
            }),
            final(self).filter_name_normal@ == normal_form(old(self).filter_name@),
    {
        self.stale_name_filter_or_sort_order = true;
        self.filter_name_normal = normalize_str(self.filter_name.as_str());
    }

    /// Takes over a click on a column.
    pub fn update_sort_order(&mut self, order: SlotSortOrder)
        ensures
            *final(self) == (SlotSearcher {
                stale_name_filter_or_sort_order: true,
                sort_order: next_order(old(self).sort_order, order),
                ..*old(self)
            }),
    {
        self.stale_name_filter_or_sort_order = true;
        self.sort_order = match (self.sort_order, order) {
            (SlotSortOrder::Name(v), SlotSortOrder::Name(_)) => SlotSortOrder::Name(!v),
            (SlotSortOrder::Count(v), SlotSortOrder::Count(_)) => SlotSortOrder::Count(!v),
            (SlotSortOrder::Index(v), SlotSortOrder::Index(_)) => SlotSortOrder::Index(!v),
            (_, order) => order,
        };
    }

    /// Sets whether rows with unconfirmed items come first.
    pub fn set_sort_unconfirmed(&mut self, unconfirmed: bool)
        ensures
            *final(self) == (SlotSearcher {
                stale_name_filter_or_sort_order: true,
                sort_unconfirmed: unconfirmed,
                ..*old(self)
            }),
    {
        self.stale_name_filter_or_sort_order = true;
        self.sort_unconfirmed = unconfirmed;
    }

    /// Notes that the inventory is another one.
    pub fn inventory_changed(&mut self)
        ensures
            *final(self) == (SlotSearcher { stale_inventory_or_type_filter: true, ..*old(self) }),
    {
        self.stale_inventory_or_type_filter = true;
    }

    /// Brings the rows up to date, as far as anything they depend on has been
    /// changed.
    pub fn update(&mut self, inventory: &Vec<SlotItemGroup>, confirmed: usize)
        ensures
            updated(*old(self), inventory@, confirmed as int, *final(self)),
    {
        if self.stale_inventory_or_type_filter {
            let mut stats: Vec<SlotRowStat> = Vec::new();
            let mut i: usize = 0;
            while i < inventory.len()
                invariant
                    i <= inventory@.len(),
                    stats@.len() == i,
                    forall|k: int|
                        0 <= k < i ==> describes(
                            #[trigger] stats@[k],
                            inventory@[k],
                            self.filter_type@,
                            confirmed as int,
                        ),
                decreases inventory@.len() - i,
            {
                stats.push(row_stat(&inventory[i], self.filter_type, confirmed));
                i += 1;
            }
            self.stale_inventory_or_type_filter = false;
            self.row_stats = stats;
            self.last_index = 0;
            self.stale_name_filter_or_sort_order = true;
        }
        if self.stale_name_filter_or_sort_order {
            let rows = self.chosen_rows();
            self.stale_name_filter_or_sort_order = false;
            self.row_indices = rows;
        }
    }

    /// The visible rows in order.
    fn chosen_rows(&self) -> (rows: Vec<usize>)
        ensures
            rows_of(
                rows@,
                self.row_stats@,
                self.filter_name_normal@,
                self.sort_order,
                self.sort_unconfirmed,
            ),
    {
        let mut chosen: Vec<usize> = Vec::new();
        let mut i: usize = 0;
        while i < self.row_stats.len()
            invariant
                i <= self.row_stats@.len(),
                forall|k: int|
                    0 <= k < chosen@.len() ==> #[trigger] chosen@[k] < i && visible(
                        self.row_stats@[chosen@[k] as int],
                        self.filter_name_normal@,
                    ),
                forall|k: int, l: int|
                    0 <= k < l < chosen@.len() ==> #[trigger] chosen@[k] < #[trigger] chosen@[l],
                forall|x: usize|
                    x < i && visible(self.row_stats@[x as int], self.filter_name_normal@)
                        ==> #[trigger] chosen@.contains(x),
            decreases self.row_stats@.len() - i,
        {
            let stat = &self.row_stats[i];
            let ghost prior = chosen@;
            if stat.count > 0 && fuzzy_matches(
                self.filter_name_normal.as_str(),
                stat.name_normal.as_str(),
            ) {
                chosen.push(i);
                assert forall|x: usize|
                    x < i + 1 && visible(
                        self.row_stats@[x as int],
                        self.filter_name_normal@,
                    ) implies #[trigger] chosen@.contains(x) by {
                    if x < i {
                        assert(prior.contains(x));
                        let k = choose|k: int| 0 <= k < prior.len() && prior[k] == x;
                        assert(chosen@[k] == x);
                    } else {
                        assert(chosen@[prior.len() as int] == x);
                    }
                }
            }
            i += 1;
        }
        let order = RowOrder {
            stats: &self.row_stats,
            order: self.sort_order,
            unconfirmed_first: self.sort_unconfirmed,
        };
        let ghost before = chosen@;
        assert(in_bounds(&order, before));
        let rows = sort_indices(&order, chosen);
        proof {
            assert forall|k: int| 0 <= k < rows@.len() implies #[trigger] rows@[k]
                < self.row_stats@.len() && visible(
                self.row_stats@[rows@[k] as int],
                self.filter_name_normal@,
            ) by {
                assert(rows@.contains(rows@[k]));
                assert(before.contains(rows@[k]));
            }
            assert forall|x: usize|
                x < self.row_stats@.len() && visible(
                    self.row_stats@[x as int],
                    self.filter_name_normal@,
                ) implies #[trigger] rows@.contains(x) by {
                assert(before.contains(x));
            }
            assert(ordered(&order, rows@));
            assert forall|i: int, j: int| 0 <= i < j < rows@.len() implies row_before(
                self.row_stats@,
                self.sort_order,
                self.sort_unconfirmed,
                #[trigger] rows@[i] as int,
                #[trigger] rows@[j] as int,
            ) by {
                assert(order.before(rows@[i] as int, rows@[j] as int));
            }
        }
        rows
    }
}

/// Once the rows are up to date, bringing them up to date changes nothing,
/// whatever inventory is given.
pub proof fn law_update_settles(
    a: SlotSearcher,
    b: SlotSearcher,
    c: SlotSearcher,
    inventory: Seq<SlotItemGroup>,
    confirmed: int,
    other: Seq<SlotItemGroup>,
    other_confirmed: int,
)
    requires
        updated(a, inventory, confirmed, b),
        updated(b, other, other_confirmed, c),
    ensures
        same_choices(b, c),
        same_rows(b, c),
        b.stale_inventory_or_type_filter == c.stale_inventory_or_type_filter,
        b.stale_name_filter_or_sort_order == c.stale_name_filter_or_sort_order,
{
}

/// There is exactly one list of rows for given statistics and choices.
pub proof fn law_rows_unique(
    a: Seq<usize>,
    b: Seq<usize>,
    stats: Vec<SlotRowStat>,
    needle: Seq<char>,
    order: SlotSortOrder,
    unconfirmed_first: bool,
)
    requires
        rows_of(a, stats@, needle, order, unconfirmed_first),
        rows_of(b, stats@, needle, order, unconfirmed_first),
    ensures
        a == b,
{
    let by = RowOrder { stats: &stats, order, unconfirmed_first };
    assert(in_bounds(&by, a));
    assert(in_bounds(&by, b));
    assert forall|i: int, j: int| 0 <= i < j < a.len() implies by.before(
        #[trigger] a[i] as int,
        #[trigger] a[j] as int,
    ) by {}
    assert(ordered(&by, a));
    assert(ordered(&by, b));
    assert forall|x: usize| #[trigger] a.contains(x) <==> b.contains(x) by {
        if a.contains(x) {
            let k = choose|k: int| 0 <= k < a.len() && a[k] == x;
            assert(visible(stats@[a[k] as int], needle));
        }
        if b.contains(x) {
            let k = choose|k: int| 0 <= k < b.len() && b[k] == x;
            assert(visible(stats@[b[k] as int], needle));
        }
    }
    assert(same_positions(a, b));
    crate::order::lemma_ordered_unique(&by, a, b);
}

/// Every row of a search that has just scanned an inventory belongs to a group
/// of that inventory, and the group has an item that passes the type filter.
pub proof fn law_rows_belong_to_inventory(
    pre: SlotSearcher,
    inventory: Seq<SlotItemGroup>,
    confirmed: int,
    post: SlotSearcher,
    row: int,
)
    requires
        updated(pre, inventory, confirmed, post),
        pre.stale_inventory_or_type_filter,
        0 <= row < post.row_indices@.len(),
    ensures
        post.row_indices@[row] < inventory.len(),
        count_where(
            inventory[post.row_indices@[row] as int].instances@,
            passing(pre.filter_type@),
        ) > 0,
{
    let at = post.row_indices@[row] as int;
    assert(visible(post.row_stats@[at], pre.filter_name_normal@));
    assert(describes(post.row_stats@[at], inventory[at], pre.filter_type@, confirmed));
}

} // verus!
