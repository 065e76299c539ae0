//! What the table of a slot shows, told by the slot's inventory: which rows there
//! are, in which order, and what each of them says.

use vstd::prelude::*;

use crate::data::{SlotItemGroup, SlotItemInstance, WorldFileSlot};
use crate::rows::{
    can_confirm, confirm, filter_icon, last_received_text, law_updated_rows_sound, rows_sound, share,
    sort_icon, summary_text, type_shares, unconfirmed_icon, RowView, SortColumn, TypeShare,
};
use crate::search::{
    case_folded, count_where, describes, flags_match, fuzzy, fuzzy_matches, last_index_where, nfkc,
    normalize_str, passing, passing_new, passing_with, picks, row_stat, rows_of, type_matches,
    visible, SlotRowStat, SlotSearcher, SlotSortOrder,
};
use crate::text::{
    decimal, is_numeral, is_signed_numeral, lemma_decimal, lemma_lex_irreflexive,
    lemma_signed_decimal, lex_lt, signed_decimal,
};

verus! {

broadcast use vstd::string::group_string_axioms;

/// Whether a type filter lets an item pass: each of its three values is left open
/// or is the value of the flag.
pub open spec fn lets_pass(filter: Seq<Option<bool>>, item: SlotItemInstance) -> bool {
    &&& filter[0] is None || filter[0] == Some(item.type_flags@[0])
    &&& filter[1] is None || filter[1] == Some(item.type_flags@[1])
    &&& filter[2] is None || filter[2] == Some(item.type_flags@[2])
}

proof fn lemma_lets_pass(filter: Seq<Option<bool>>, item: SlotItemInstance)
    ensures
        flags_match(filter, item.type_flags@) == lets_pass(filter, item),
{
    if lets_pass(filter, item) {
        assert forall|k: int| 0 <= k < 3 implies (#[trigger] filter[k] is None || filter[k] == Some(
            item.type_flags@[k],
        )) by {
            assert(k == 0 || k == 1 || k == 2);
        }
    }
    if flags_match(filter, item.type_flags@) {
        assert(filter[0] is None || filter[0] == Some(item.type_flags@[0]));
        assert(filter[1] is None || filter[1] == Some(item.type_flags@[1]));
        assert(filter[2] is None || filter[2] == Some(item.type_flags@[2]));
    }
}

/// A type filter lets exactly those items pass whose flags have the values that it
/// asks for.
pub proof fn law_type_filter(filter: [Option<bool>; 3], item: &SlotItemInstance, r: bool)
    requires
        call_ensures(type_matches, (filter, item), r),
    ensures
        r == lets_pass(filter@, *item),
{
    lemma_lets_pass(filter@, *item);
}

/// Whether a text can be spelled by striking out characters of another.
pub open spec fn spelled_in(needle: Seq<char>, haystack: Seq<char>) -> bool {
    exists|at: Seq<int>|
        #![trigger at.len()]
        at.len() == needle.len() && (forall|k: int|
            0 <= k < needle.len() ==> 0 <= #[trigger] at[k] < haystack.len() && haystack[at[k]]
                == needle[k]) && (forall|k: int, l: int|
            0 <= k < l < needle.len() ==> #[trigger] at[k] < #[trigger] at[l])
}

proof fn lemma_spelled_in(needle: Seq<char>, haystack: Seq<char>)
    ensures
        fuzzy(needle, haystack) == spelled_in(needle, haystack),
{
    if fuzzy(needle, haystack) {
        let at = choose|at: Seq<int>| picks(needle, haystack, at);
        assert(at.len() == needle.len());
        assert forall|k: int| 0 <= k < needle.len() implies 0 <= #[trigger] at[k] < haystack.len()
            && haystack[at[k]] == needle[k] by {}
    }
    if spelled_in(needle, haystack) {
        let at = choose|at: Seq<int>|
            #![trigger at.len()]
            at.len() == needle.len() && (forall|k: int|
                0 <= k < needle.len() ==> 0 <= #[trigger] at[k] < haystack.len() && haystack[at[k]]
                    == needle[k]) && (forall|k: int, l: int|
                0 <= k < l < needle.len() ==> #[trigger] at[k] < #[trigger] at[l]);
        assert(picks(needle, haystack, at));
    }
}

/// A name filter matches exactly those texts that spell it when characters are
/// struck out.
pub proof fn law_name_filter(needle: &str, haystack: &str, r: bool)
    requires
        call_ensures(fuzzy_matches, (needle, haystack), r),
    ensures
        r == spelled_in(needle@, haystack@),
{
    lemma_spelled_in(needle@, haystack@);
}

/// Names are composed first, and then their case is folded: texts that agree after
/// both are the same to the search.
pub proof fn law_normal_form(text: &str, r: String)
    requires
        call_ensures(normalize_str, (text,), r),
    ensures
        r@ == case_folded(nfkc(text@)),
{
}

proof fn lemma_count_filter(
    items: Seq<SlotItemInstance>,
    p: spec_fn(SlotItemInstance) -> bool,
    q: spec_fn(SlotItemInstance) -> bool,
)
    requires
        forall|i: SlotItemInstance| #[trigger] p(i) == q(i),
    ensures
        count_where(items, p) == items.filter(q).len(),
    decreases items.len(),
{
    reveal(Seq::filter);
    if items.len() > 0 {
        lemma_count_filter(items.drop_last(), p, q);
        assert(p(items.last()) == q(items.last()));
    }
}

proof fn lemma_last_index(
    items: Seq<SlotItemInstance>,
    p: spec_fn(SlotItemInstance) -> bool,
)
    ensures
        0 <= last_index_where(items, p),
        forall|i: int|
            0 <= i < items.len() && p(#[trigger] items[i]) ==> items[i].index <= last_index_where(
                items,
                p,
            ),
        last_index_where(items, p) > 0 ==> exists|i: int|
            0 <= i < items.len() && p(#[trigger] items[i]) && items[i].index == last_index_where(
                items,
                p,
            ),
    decreases items.len(),
{
    if items.len() > 0 {
        let rest = items.drop_last();
        let last = items.len() - 1;
        lemma_last_index(rest, p);
        assert forall|i: int| 0 <= i < items.len() && p(#[trigger] items[i]) implies items[i].index
            <= last_index_where(items, p) by {
            if i < last {
                assert(rest[i] == items[i]);
            }
        }
        if last_index_where(items, p) > 0 {
            if last_index_where(items, p) == last_index_where(rest, p) {
                let i = choose|i: int|
                    0 <= i < rest.len() && p(#[trigger] rest[i]) && rest[i].index
                        == last_index_where(rest, p);
                assert(items[i] == rest[i]);
            } else {
                assert(items[last].index == last_index_where(items, p));
            }
        }
    }
}

/// The items of a group that a type filter lets pass.
pub open spec fn passing_items(
    group: SlotItemGroup,
    filter: Seq<Option<bool>>,
) -> Seq<SlotItemInstance> {
    group.instances@.filter(|i: SlotItemInstance| lets_pass(filter, i))
}

/// Those of them that have a flag.
pub open spec fn flagged_items(
    group: SlotItemGroup,
    filter: Seq<Option<bool>>,
    k: int,
) -> Seq<SlotItemInstance> {
    group.instances@.filter(|i: SlotItemInstance| lets_pass(filter, i) && i.type_flags@[k])
}

/// Those of them that have come since so many items were confirmed.
pub open spec fn fresh_items(
    group: SlotItemGroup,
    filter: Seq<Option<bool>>,
    confirmed: int,
) -> Seq<SlotItemInstance> {
    group.instances@.filter(|i: SlotItemInstance| lets_pass(filter, i) && i.index >= confirmed)
}

/// Whether `index` is the highest index of the items of a group that a filter lets
/// pass, or zero where there are none.
pub open spec fn is_latest(group: SlotItemGroup, filter: Seq<Option<bool>>, index: int) -> bool {
    &&& forall|i: int|
        0 <= i < group.instances@.len() && lets_pass(filter, #[trigger] group.instances@[i])
            ==> group.instances@[i].index <= index
    &&& index != 0 ==> exists|i: int|
        0 <= i < group.instances@.len() && lets_pass(filter, #[trigger] group.instances@[i])
            && group.instances@[i].index == index
}

/// Whether the statistics of a row are those of a group under a type filter.
pub open spec fn tells_of(
    stat: SlotRowStat,
    group: SlotItemGroup,
    filter: Seq<Option<bool>>,
    confirmed: int,
) -> bool {
    &&& stat.name_normal@ == case_folded(nfkc(group.name@))
    &&& stat.count == passing_items(group, filter).len()
    &&& stat.type_count@[0] == flagged_items(group, filter, 0).len()
    &&& stat.type_count@[1] == flagged_items(group, filter, 1).len()
    &&& stat.type_count@[2] == flagged_items(group, filter, 2).len()
    &&& stat.unconfirmed == fresh_items(group, filter, confirmed).len()
    &&& is_latest(group, filter, stat.last_index as int)
}

pub(crate) proof fn lemma_tells_of(
    stat: SlotRowStat,
    group: SlotItemGroup,
    filter: Seq<Option<bool>>,
    confirmed: int,
)
    requires
        describes(stat, group, filter, confirmed),
    ensures
        tells_of(stat, group, filter, confirmed),
{
    let items = group.instances@;
    assert forall|i: SlotItemInstance| #[trigger] flags_match(filter, i.type_flags@) == lets_pass(
        filter,
        i,
    ) by {
        lemma_lets_pass(filter, i);
    }
    lemma_count_filter(
        items,
        passing(filter),
        |i: SlotItemInstance| lets_pass(filter, i),
    );
    assert forall|k: int| 0 <= k < 3 implies #[trigger] stat.type_count@[k] == flagged_items(
        group,
        filter,
        k,
    ).len() by {
        lemma_count_filter(
            items,
            passing_with(filter, k),
            |i: SlotItemInstance| lets_pass(filter, i) && i.type_flags@[k],
        );
    }
    assert(stat.type_count@[0] == flagged_items(group, filter, 0).len());
    assert(stat.type_count@[1] == flagged_items(group, filter, 1).len());
    assert(stat.type_count@[2] == flagged_items(group, filter, 2).len());
    lemma_count_filter(
        items,
        passing_new(filter, confirmed),
        |i: SlotItemInstance| lets_pass(filter, i) && i.index >= confirmed,
    );
    lemma_last_index(items, passing(filter));
    assert forall|i: int| 0 <= i < items.len() && lets_pass(filter, #[trigger] items[i]) implies items[i].index
        <= stat.last_index by {
        assert(passing(filter)(items[i]));
    }
    if stat.last_index != 0 {
        let i = choose|i: int|
            0 <= i < items.len() && passing(filter)(#[trigger] items[i]) && items[i].index
                == last_index_where(items, passing(filter));
        assert(lets_pass(filter, items[i]));
    }
}

/// A row counts the items of its group that the type filter lets pass, how many of
/// them have each flag, and how many have come since the last confirmation; and it
/// knows the latest of them.
pub proof fn law_row_counts(
    group: &SlotItemGroup,
    filter: [Option<bool>; 3],
    confirmed: usize,
    stat: SlotRowStat,
)
    requires
        call_ensures(row_stat, (group, filter, confirmed), stat),
    ensures
        tells_of(stat, *group, filter@, confirmed as int),
{
    lemma_tells_of(stat, *group, filter@, confirmed as int);
}

/// An update after the inventory or a type filter has changed scans the inventory
/// anew, group by group. One after anything else keeps what is known of it.
pub proof fn law_update_scans_the_inventory(
    searcher: &mut SlotSearcher,
    inventory: &Vec<SlotItemGroup>,
    confirmed: usize,
)
    requires
        call_ensures(SlotSearcher::update, (searcher, inventory, confirmed), ()),
    ensures
        if old(searcher).stale_inventory_or_type_filter {
            &&& final(searcher).row_stats@.len() == inventory@.len()
            &&& forall|i: int|
                0 <= i < inventory@.len() ==> tells_of(
                    #[trigger] final(searcher).row_stats@[i],
                    inventory@[i],
                    old(searcher).filter_type@,
                    confirmed as int,
                )
        } else {
            final(searcher).row_stats@ == old(searcher).row_stats@
        },
        !old(searcher).stale_inventory_or_type_filter && !old(searcher).stale_name_filter_or_sort_order ==> final(searcher).row_indices@ == old(searcher).row_indices@,
        !final(searcher).stale_inventory_or_type_filter,
        !final(searcher).stale_name_filter_or_sort_order,
        final(searcher).filter_type@ == old(searcher).filter_type@,
        final(searcher).filter_name@ == old(searcher).filter_name@,
        final(searcher).filter_name_normal@ == old(searcher).filter_name_normal@,
        final(searcher).sort_order == old(searcher).sort_order,
        final(searcher).sort_unconfirmed == old(searcher).sort_unconfirmed,
{
    if old(searcher).stale_inventory_or_type_filter {
        assert forall|i: int| 0 <= i < inventory@.len() implies tells_of(
            #[trigger] final(searcher).row_stats@[i],
            inventory@[i],
            old(searcher).filter_type@,
            confirmed as int,
        ) by {
            lemma_tells_of(
                final(searcher).row_stats@[i],
                inventory@[i],
                old(searcher).filter_type@,
                confirmed as int,
            );
        }
    }
}

/// Whether the rows have to be chosen and ordered again.
pub open spec fn is_stale(searcher: SlotSearcher) -> bool {
    searcher.stale_inventory_or_type_filter || searcher.stale_name_filter_or_sort_order
}

proof fn lemma_rows_differ(searcher: SlotSearcher, rows: Seq<usize>, i: int, j: int)
    requires
        rows_of(
            rows,
            searcher.row_stats@,
            searcher.filter_name_normal@,
            searcher.sort_order,
            searcher.sort_unconfirmed,
        ),
        0 <= i < j < rows.len(),
    ensures
        rows[i] != rows[j],
{
    lemma_lex_irreflexive(searcher.row_stats@[rows[i] as int].name_normal@);
}

/// After an update the table has a row for each group with an item that the type
/// filter lets pass and with a name in which the name filter is spelled, one row
/// each, and no others.
pub proof fn law_which_rows_are_shown(
    searcher: &mut SlotSearcher,
    inventory: &Vec<SlotItemGroup>,
    confirmed: usize,
)
    requires
        call_ensures(SlotSearcher::update, (searcher, inventory, confirmed), ()),
        is_stale(*old(searcher)),
    ensures
        forall|x: usize| #[trigger]
            final(searcher).row_indices@.contains(x) == (x < final(searcher).row_stats@.len()
                && final(searcher).row_stats@[x as int].count > 0 && spelled_in(
                old(searcher).filter_name_normal@,
                final(searcher).row_stats@[x as int].name_normal@,
            )),
        forall|i: int, j: int|
            0 <= i < j < final(searcher).row_indices@.len() ==> #[trigger] final(searcher).row_indices@[i] != #[trigger] final(searcher).row_indices@[j],
{
    let post = *final(searcher);
    let rows = post.row_indices@;
    let needle = old(searcher).filter_name_normal@;
    assert forall|x: usize| #[trigger] rows.contains(x) == (x < post.row_stats@.len()
        && post.row_stats@[x as int].count > 0 && spelled_in(
        needle,
        post.row_stats@[x as int].name_normal@,
    )) by {
        lemma_spelled_in(needle, post.row_stats@[x as int].name_normal@);
        if rows.contains(x) {
            let i = choose|i: int| 0 <= i < rows.len() && rows[i] == x;
            assert(visible(post.row_stats@[rows[i] as int], needle));
        } else if x < post.row_stats@.len() {
            assert(!visible(post.row_stats@[x as int], needle));
        }
    }
    assert forall|i: int, j: int| 0 <= i < j < rows.len() implies #[trigger] rows[i]
        != #[trigger] rows[j] by {
        lemma_rows_differ(post, rows, i, j);
    }
}

/// Where new items come first, no row without new items stands above a row that
/// has some, whatever column orders the table.
pub proof fn law_new_rows_on_top(
    searcher: &mut SlotSearcher,
    inventory: &Vec<SlotItemGroup>,
    confirmed: usize,
    i: int,
    j: int,
)
    requires
        call_ensures(SlotSearcher::update, (searcher, inventory, confirmed), ()),
        is_stale(*old(searcher)),
        old(searcher).sort_unconfirmed,
        0 <= i < j < final(searcher).row_indices@.len(),
    ensures
        ({
            let above = final(searcher).row_indices@[i] as int;
            let below = final(searcher).row_indices@[j] as int;
            &&& final(searcher).row_stats@[below].unconfirmed > 0 ==> final(searcher).row_stats@[above].unconfirmed > 0
            &&& old(searcher).stale_inventory_or_type_filter ==> (fresh_items(
                inventory@[below],
                old(searcher).filter_type@,
                confirmed as int,
            ).len() > 0 ==> fresh_items(
                inventory@[above],
                old(searcher).filter_type@,
                confirmed as int,
            ).len() > 0)
        }),
{
    let above = final(searcher).row_indices@[i] as int;
    let below = final(searcher).row_indices@[j] as int;
    law_update_scans_the_inventory(searcher, inventory, confirmed);
    let stats = final(searcher).row_stats@;
    assert(above < stats.len() && below < stats.len());
    if old(searcher).stale_inventory_or_type_filter {
        assert(tells_of(
            stats[above],
            inventory@[above],
            old(searcher).filter_type@,
            confirmed as int,
        ));
        assert(tells_of(
            stats[below],
            inventory@[below],
            old(searcher).filter_type@,
            confirmed as int,
        ));
    }
}

/// Whether a name may stand above another in alphabetical order.
pub open spec fn not_after(a: Seq<char>, b: Seq<char>) -> bool {
    a == b || lex_lt(a, b)
}

/// Within the rows with new items and within the others (or, where new items do
/// not come first, within all) the chosen column decides: names from A to Z or
/// back, counts from the lowest or the highest, and the latest item first or last.
/// Rows that are equal there are ordered by name, and rows with one name by their
/// place in the inventory.
pub proof fn law_column_orders_rows(
    searcher: &mut SlotSearcher,
    inventory: &Vec<SlotItemGroup>,
    confirmed: usize,
    i: int,
    j: int,
)
    requires
        call_ensures(SlotSearcher::update, (searcher, inventory, confirmed), ()),
        is_stale(*old(searcher)),
        0 <= i < j < final(searcher).row_indices@.len(),
        ({
            let above = final(searcher).row_stats@[final(searcher).row_indices@[i] as int];
            let below = final(searcher).row_stats@[final(searcher).row_indices@[j] as int];
            !old(searcher).sort_unconfirmed || (above.unconfirmed > 0) == (below.unconfirmed > 0)
        }),
    ensures
        ({
            let x = final(searcher).row_indices@[i];
            let y = final(searcher).row_indices@[j];
            let above = final(searcher).row_stats@[x as int];
            let below = final(searcher).row_stats@[y as int];
            let by_name = not_after(above.name_normal@, below.name_normal@) && (
            above.name_normal@ == below.name_normal@ ==> x < y);
            match old(searcher).sort_order {
                SlotSortOrder::Name(false) => by_name,
                SlotSortOrder::Name(true) => not_after(below.name_normal@, above.name_normal@) && (
                above.name_normal@ == below.name_normal@ ==> y < x),
                SlotSortOrder::Count(false) => above.count <= below.count && (above.count
                    == below.count ==> by_name),
                SlotSortOrder::Count(true) => above.count >= below.count && (above.count
                    == below.count ==> by_name),
                SlotSortOrder::Index(false) => above.last_index >= below.last_index && (
                above.last_index == below.last_index ==> by_name),
                SlotSortOrder::Index(true) => above.last_index <= below.last_index && (
                above.last_index == below.last_index ==> by_name),
            }
        }),
{
    let x = final(searcher).row_indices@[i] as int;
    let y = final(searcher).row_indices@[j] as int;
    let stats = final(searcher).row_stats@;
    assert(x < stats.len() && y < stats.len());
    lemma_lex_irreflexive(stats[x].name_normal@);
}

/// A click on the count column shows the highest count first, one on the index
/// column the latest item, and one on the name column the first name; a second
/// click turns the order around.
pub proof fn law_clicks_order_the_table(
    searcher: &mut SlotSearcher,
    clicked: SlotSortOrder,
    by_count: SlotSortOrder,
    by_index: SlotSortOrder,
    by_name: SlotSortOrder,
)
    requires
        call_ensures(SlotSortOrder::by_count, (), by_count),
        call_ensures(SlotSortOrder::by_index, (), by_index),
        call_ensures(SlotSortOrder::by_name, (), by_name),
        call_ensures(SlotSearcher::update_sort_order, (searcher, clicked), ()),
    ensures
        by_count == SlotSortOrder::Count(true),
        by_index == SlotSortOrder::Index(false),
        by_name == SlotSortOrder::Name(false),
        ({
            let now = final(searcher).sort_order;
            match old(searcher).sort_order {
                SlotSortOrder::Name(down) => if clicked is Name {
                    now == SlotSortOrder::Name(!down)
                } else {
                    now == clicked
                },
                SlotSortOrder::Count(down) => if clicked is Count {
                    now == SlotSortOrder::Count(!down)
                } else {
                    now == clicked
                },
                SlotSortOrder::Index(down) => if clicked is Index {
                    now == SlotSortOrder::Index(!down)
                } else {
                    now == clicked
                },
            }
        }),
        final(searcher).stale_name_filter_or_sort_order,
        final(searcher).stale_inventory_or_type_filter == old(searcher).stale_inventory_or_type_filter,
        final(searcher).sort_unconfirmed == old(searcher).sort_unconfirmed,
        final(searcher).filter_type == old(searcher).filter_type,
        final(searcher).filter_name_normal == old(searcher).filter_name_normal,
        final(searcher).row_stats == old(searcher).row_stats,
{
}

/// A click on a type asks for it first, then for its absence, and then leaves it
/// open again. The other types stay, and the inventory is to be scanned again.
pub proof fn law_clicks_on_a_type(searcher: &mut SlotSearcher, k: usize)
    requires
        k < 3,
        call_ensures(SlotSearcher::next_type_filter, (searcher, k), ()),
    ensures
        old(searcher).filter_type@[k as int] is None ==> final(searcher).filter_type@[k as int]
            == Some(true),
        old(searcher).filter_type@[k as int] == Some(true) ==> final(searcher).filter_type@[k as int] == Some(false),
        old(searcher).filter_type@[k as int] == Some(false) ==> final(searcher).filter_type@[k as int] is None,
        forall|i: int|
            0 <= i < 3 && i != k ==> #[trigger] final(searcher).filter_type@[i] == old(searcher).filter_type@[i],
        final(searcher).stale_inventory_or_type_filter,
        final(searcher).sort_order == old(searcher).sort_order,
        final(searcher).sort_unconfirmed == old(searcher).sort_unconfirmed,
        final(searcher).filter_name == old(searcher).filter_name,
        final(searcher).filter_name_normal == old(searcher).filter_name_normal,
{
}

/// A type filter that is set is the one that is asked for, and the inventory is to
/// be scanned again.
pub proof fn law_type_filter_is_set(searcher: &mut SlotSearcher, k: usize, value: Option<bool>)
    requires
        k < 3,
        call_ensures(SlotSearcher::set_type_filter, (searcher, k, value), ()),
    ensures
        final(searcher).filter_type@[k as int] == value,
        forall|i: int|
            0 <= i < 3 && i != k ==> #[trigger] final(searcher).filter_type@[i] == old(searcher).filter_type@[i],
        final(searcher).stale_inventory_or_type_filter,
        final(searcher).sort_order == old(searcher).sort_order,
        final(searcher).filter_name_normal == old(searcher).filter_name_normal,
{
}

/// A changed name filter is compared in its normal form, and the rows are to be
/// chosen again.
pub proof fn law_name_filter_is_set(searcher: &mut SlotSearcher)
    requires
        call_ensures(SlotSearcher::update_name_filter, (searcher,), ()),
    ensures
        final(searcher).filter_name_normal@ == case_folded(nfkc(old(searcher).filter_name@)),
        final(searcher).filter_name == old(searcher).filter_name,
        final(searcher).stale_name_filter_or_sort_order,
        final(searcher).filter_type == old(searcher).filter_type,
        final(searcher).sort_order == old(searcher).sort_order,
        final(searcher).sort_unconfirmed == old(searcher).sort_unconfirmed,
        final(searcher).row_stats == old(searcher).row_stats,
{
}

/// Whether new items come first is what was chosen, and the rows are to be ordered
/// again.
pub proof fn law_new_first_is_set(searcher: &mut SlotSearcher, first: bool)
    requires
        call_ensures(SlotSearcher::set_sort_unconfirmed, (searcher, first), ()),
    ensures
        final(searcher).sort_unconfirmed == first,
        final(searcher).stale_name_filter_or_sort_order,
        final(searcher).sort_order == old(searcher).sort_order,
        final(searcher).filter_type == old(searcher).filter_type,
        final(searcher).filter_name_normal == old(searcher).filter_name_normal,
        final(searcher).row_stats == old(searcher).row_stats,
{
}

/// After an inventory has changed, the next update scans it, and nothing that the
/// user has chosen is lost.
pub proof fn law_changed_inventory_is_scanned(
    before: &mut SlotSearcher,
    after: &mut SlotSearcher,
    inventory: &Vec<SlotItemGroup>,
    confirmed: usize,
)
    requires
        call_ensures(SlotSearcher::inventory_changed, (before,), ()),
        *old(after) == *final(before),
        call_ensures(SlotSearcher::update, (after, inventory, confirmed), ()),
    ensures
        final(after).row_stats@.len() == inventory@.len(),
        forall|i: int|
            0 <= i < inventory@.len() ==> tells_of(
                #[trigger] final(after).row_stats@[i],
                inventory@[i],
                old(before).filter_type@,
                confirmed as int,
            ),
        final(after).filter_type@ == old(before).filter_type@,
        final(after).filter_name@ == old(before).filter_name@,
        final(after).sort_order == old(before).sort_order,
        final(after).sort_unconfirmed == old(before).sort_unconfirmed,
{
    law_update_scans_the_inventory(after, inventory, confirmed);
}

/// A new table shows every group that has items, by name, with new items first.
pub proof fn law_new_table_shows_everything(
    fresh: SlotSearcher,
    searcher: &mut SlotSearcher,
    inventory: &Vec<SlotItemGroup>,
    confirmed: usize,
    x: usize,
)
    requires
        call_ensures(<SlotSearcher as Default>::default, (), fresh),
        *old(searcher) == fresh,
        call_ensures(SlotSearcher::update, (searcher, inventory, confirmed), ()),
    ensures
        final(searcher).row_indices@.contains(x) == (x < inventory@.len()
            && inventory@[x as int].instances@.len() > 0),
        final(searcher).sort_order == SlotSortOrder::Name(false),
        final(searcher).sort_unconfirmed,
{
    law_update_scans_the_inventory(searcher, inventory, confirmed);
    law_which_rows_are_shown(searcher, inventory, confirmed);
    if x < inventory@.len() {
        let stat = final(searcher).row_stats@[x as int];
        let group = inventory@[x as int];
        let open = fresh.filter_type@;
        assert(tells_of(stat, group, open, confirmed as int));
        assert(spelled_in(Seq::<char>::empty(), stat.name_normal@)) by {
            assert(Seq::<int>::empty().len() == Seq::<char>::empty().len());
        }
        assert(open[0] is None && open[1] is None && open[2] is None);
        let pass = |i: SlotItemInstance| lets_pass(open, i);
        assert forall|i: SlotItemInstance| #[trigger] pass(i) by {}
        lemma_filter_all(group.instances@, pass);
    }
}

proof fn lemma_filter_all(items: Seq<SlotItemInstance>, p: spec_fn(SlotItemInstance) -> bool)
    requires
        forall|i: SlotItemInstance| #[trigger] p(i),
    ensures
        items.filter(p).len() == items.len(),
    decreases items.len(),
{
    reveal(Seq::filter);
    if items.len() > 0 {
        lemma_filter_all(items.drop_last(), p);
        assert(p(items.last()));
    }
}

/// Whether `part` of `whole` on a scale up to 255, rounded down, is `level`.
pub open spec fn is_level(level: int, part: int, whole: int) -> bool {
    level * whole <= part * 255 < (level + 1) * whole
}

proof fn lemma_level(part: int, whole: int)
    requires
        0 <= part,
        0 < whole,
    ensures
        is_level(share(part, whole), part, whole),
{
    let level = (part * 255) / whole;
    vstd::arithmetic::div_mod::lemma_fundamental_div_mod(part * 255, whole);
    vstd::arithmetic::div_mod::lemma_mod_bound(part * 255, whole);
    assert(whole * level == level * whole) by (nonlinear_arith);
    assert((level + 1) * whole == level * whole + whole) by (nonlinear_arith);
}

/// Whether the listed types are those that occur, in order, each with how often it
/// occurs.
pub open spec fn lists_types(shares: Seq<TypeShare>, counts: Seq<usize>) -> bool {
    &&& forall|i: int|
        0 <= i < shares.len() ==> (#[trigger] shares[i]).kind < 3 && shares[i].count
            == counts[shares[i].kind as int] && shares[i].count > 0
    &&& forall|i: int, j: int|
        0 <= i < j < shares.len() ==> (#[trigger] shares[i]).kind < (#[trigger] shares[j]).kind
    &&& forall|k: int|
        0 <= k < 3 && #[trigger] counts[k] > 0 ==> exists|i: int|
            0 <= i < shares.len() && (#[trigger] shares[i]).kind == k
}

proof fn lemma_type_shares(counts: Seq<usize>, n: nat)
    requires
        n <= 3,
        counts.len() == 3,
    ensures
        ({
            let shares = type_shares(counts, n);
            &&& forall|i: int|
                0 <= i < shares.len() ==> (#[trigger] shares[i]).kind < n && shares[i].count
                    == counts[shares[i].kind as int] && shares[i].count > 0
            &&& forall|i: int, j: int|
                0 <= i < j < shares.len() ==> (#[trigger] shares[i]).kind < (
                #[trigger] shares[j]).kind
            &&& forall|k: int|
                0 <= k < n && #[trigger] counts[k] > 0 ==> exists|i: int|
                    0 <= i < shares.len() && (#[trigger] shares[i]).kind == k
        }),
    decreases n,
{
    if n > 0 {
        let rest = type_shares(counts, (n - 1) as nat);
        let shares = type_shares(counts, n);
        lemma_type_shares(counts, (n - 1) as nat);
        assert forall|i: int| 0 <= i < shares.len() implies (#[trigger] shares[i]).kind < n
            && shares[i].count == counts[shares[i].kind as int] && shares[i].count > 0 by {
            if i < rest.len() {
                assert(shares[i] == rest[i]);
            }
        }
        assert forall|i: int, j: int| 0 <= i < j < shares.len() implies (
        #[trigger] shares[i]).kind < (#[trigger] shares[j]).kind by {
            assert(shares[i] == rest[i]);
            if j < rest.len() {
                assert(shares[j] == rest[j]);
            }
        }
        assert forall|k: int| 0 <= k < n && #[trigger] counts[k] > 0 implies exists|i: int|
            0 <= i < shares.len() && (#[trigger] shares[i]).kind == k by {
            if k < n - 1 {
                let i = choose|i: int| 0 <= i < rest.len() && (#[trigger] rest[i]).kind == k;
                assert(shares[i] == rest[i]);
            } else {
                assert(shares[shares.len() - 1].kind == k);
            }
        }
    }
}

/// What a row shows of its statistics: how many items, how many of them are new
/// where there are any, how long ago the latest came, the shares of the types as a
/// colour (red for traps, green for useful items, blue for progression) and as a
/// list, and the id of its group.
pub proof fn law_row_shows_its_statistics(
    searcher: &SlotSearcher,
    slot: &WorldFileSlot,
    at: usize,
    view: RowView,
)
    requires
        rows_sound(*searcher),
        at < searcher.row_indices@.len(),
        searcher.row_indices@[at as int] < slot.inventory@.len(),
        call_ensures(SlotSearcher::row_view, (searcher, slot, at), view),
    ensures
        ({
            let g = searcher.row_indices@[at as int];
            let stat = searcher.row_stats@[g as int];
            let age = if slot.total_items > stat.last_index {
                slot.total_items - stat.last_index
            } else {
                0
            };
            &&& view.group == g
            &&& is_numeral(view.count@, stat.count as int)
            &&& if stat.unconfirmed == 0 {
                view.unconfirmed@.len() == 0
            } else {
                view.unconfirmed@.len() > 0 && view.unconfirmed@[0] == '+' && is_numeral(
                    view.unconfirmed@.skip(1),
                    stat.unconfirmed as int,
                )
            }
            &&& view.index@.len() > 0
            &&& view.index@[0] == '#'
            &&& is_numeral(view.index@.skip(1), age)
            &&& is_level(view.color@[0] as int, stat.type_count@[2] as int, stat.count as int)
            &&& is_level(view.color@[1] as int, stat.type_count@[1] as int, stat.count as int)
            &&& is_level(view.color@[2] as int, stat.type_count@[0] as int, stat.count as int)
            &&& lists_types(view.shares@, stat.type_count@)
            &&& view.id_text@.len() > 4
            &&& view.id_text@.take(4) == "ID: "@
            &&& is_signed_numeral(view.id_text@.skip(4), slot.inventory@[g as int].id as int)
        }),
{
    let g = searcher.row_indices@[at as int] as int;
    let stat = searcher.row_stats@[g];
    let age = if slot.total_items > stat.last_index {
        (slot.total_items - stat.last_index) as nat
    } else {
        0
    };
    reveal_strlit("+");
    reveal_strlit("#");
    reveal_strlit("ID: ");
    lemma_decimal(stat.count as nat);
    lemma_decimal(stat.unconfirmed as nat);
    lemma_decimal(age);
    assert(("+"@ + decimal(stat.unconfirmed as nat)).skip(1) =~= decimal(stat.unconfirmed as nat));
    assert(("#"@ + decimal(age)).skip(1) =~= decimal(age));
    assert(stat.count > 0);
    lemma_level(stat.type_count@[0] as int, stat.count as int);
    lemma_level(stat.type_count@[1] as int, stat.count as int);
    lemma_level(stat.type_count@[2] as int, stat.count as int);
    lemma_type_shares(stat.type_count@, 3);
    let id = slot.inventory@[g].id as int;
    lemma_signed_decimal(id);
    assert(("ID: "@ + signed_decimal(id)).take(4) =~= "ID: "@);
    assert(("ID: "@ + signed_decimal(id)).skip(4) =~= signed_decimal(id));
}

/// What a row shows, told by the inventory: after a scan the row at a place counts
/// the items of its group that the filter lets pass, and its new items are those
/// of them that have come since the last confirmation, however many items the slot
/// has in all.
pub proof fn law_row_shows_its_group(
    searcher: &mut SlotSearcher,
    slot: &WorldFileSlot,
    at: usize,
    view: RowView,
)
    requires
        old(searcher).stale_inventory_or_type_filter,
        call_ensures(SlotSearcher::update, (searcher, &slot.inventory, slot.confirmed), ()),
        at < final(searcher).row_indices@.len(),
        call_ensures(SlotSearcher::row_view, (final(searcher), slot, at), view),
    ensures
        view.group < slot.inventory@.len(),
        view.group == final(searcher).row_indices@[at as int],
        ({
            let group = slot.inventory@[view.group as int];
            let filter = old(searcher).filter_type@;
            let fresh = fresh_items(group, filter, slot.confirmed as int).len() as int;
            let count = passing_items(group, filter).len() as int;
            &&& is_numeral(view.count@, count)
            &&& fresh == 0 ==> view.unconfirmed@.len() == 0
            &&& fresh > 0 ==> view.unconfirmed@.len() > 0 && view.unconfirmed@[0] == '+'
                && is_numeral(view.unconfirmed@.skip(1), fresh)
            &&& is_level(
                view.color@[0] as int,
                flagged_items(group, filter, 2).len() as int,
                count,
            )
            &&& is_level(
                view.color@[1] as int,
                flagged_items(group, filter, 1).len() as int,
                count,
            )
            &&& is_level(
                view.color@[2] as int,
                flagged_items(group, filter, 0).len() as int,
                count,
            )
            &&& exists|latest: int|
                #[trigger] is_latest(group, filter, latest) && 0 <= latest && view.index@.len() > 0
                    && view.index@[0] == '#' && is_numeral(
                    view.index@.skip(1),
                    if slot.total_items > latest {
                        slot.total_items - latest
                    } else {
                        0
                    },
                )
            &&& is_signed_numeral(view.id_text@.skip(4), group.id as int)
        }),
{
    let pre = *old(searcher);
    let post = *final(searcher);
    law_update_scans_the_inventory(searcher, &slot.inventory, slot.confirmed);
    law_updated_rows_sound(pre, slot.inventory@, slot.confirmed as int, post);
    let g = post.row_indices@[at as int] as int;
    assert(g < post.row_stats@.len());
    law_row_shows_its_statistics(&post, slot, at, view);
    let stat = post.row_stats@[g];
    assert(tells_of(stat, slot.inventory@[g], pre.filter_type@, slot.confirmed as int));
    let latest = stat.last_index as int;
    assert(is_latest(slot.inventory@[g], pre.filter_type@, latest));
    assert(is_numeral(
        view.index@.skip(1),
        if slot.total_items > latest {
            slot.total_items - latest
        } else {
            0
        },
    ));
}

/// How many items the slot has in all decides on nothing in a row but how long ago
/// its latest item came.
pub proof fn law_total_only_shifts_the_index(
    searcher: &SlotSearcher,
    slot: &WorldFileSlot,
    other: &WorldFileSlot,
    at: usize,
    a: RowView,
    b: RowView,
)
    requires
        rows_sound(*searcher),
        at < searcher.row_indices@.len(),
        searcher.row_indices@[at as int] < slot.inventory@.len(),
        other.inventory == slot.inventory,
        call_ensures(SlotSearcher::row_view, (searcher, slot, at), a),
        call_ensures(SlotSearcher::row_view, (searcher, other, at), b),
    ensures
        a.count@ == b.count@,
        a.unconfirmed@ == b.unconfirmed@,
        a.color@ == b.color@,
        a.shares@ == b.shares@,
        a.id_text@ == b.id_text@,
{
    assert(a.color@ =~= b.color@);
}

/// The line above the table.
pub proof fn law_summary_counts_items(slot: &WorldFileSlot, r: String)
    requires
        call_ensures(summary_text, (slot,), r),
    ensures
        r@ == decimal(slot.total_items as nat) + (if slot.total_items == 1 {
            " item, "@
        } else {
            " items, "@
        }) + decimal(
            if slot.total_items > slot.confirmed {
                (slot.total_items - slot.confirmed) as nat
            } else {
                0
            },
        ) + " unconfirmed"@,
{
    reveal_strlit(" item");
    reveal_strlit("s");
    reveal_strlit("");
    reveal_strlit(", ");
    reveal_strlit(" item, ");
    reveal_strlit(" items, ");
    assert(" item"@ + ""@ + ", "@ =~= " item, "@);
    assert(" item"@ + "s"@ + ", "@ =~= " items, "@);
    let total = decimal(slot.total_items as nat);
    let middle = if slot.total_items == 1 {
        ""@
    } else {
        "s"@
    };
    let rest = decimal(
        if slot.total_items > slot.confirmed {
            (slot.total_items - slot.confirmed) as nat
        } else {
            0
        },
    );
    assert(r@ =~= total + (" item"@ + middle + ", "@) + rest + " unconfirmed"@);
}

/// There is something to confirm exactly where items have come since the last
/// confirmation; and a confirmation leaves nothing to confirm and changes nothing
/// else.
pub proof fn law_confirming_settles(
    slot: &mut WorldFileSlot,
    before: bool,
    after: bool,
    fresh: usize,
    left: usize,
)
    requires
        call_ensures(can_confirm, (old(slot),), before),
        call_ensures(WorldFileSlot::new_items, (old(slot),), fresh),
        call_ensures(confirm, (slot,), ()),
        call_ensures(can_confirm, (final(slot),), after),
        call_ensures(WorldFileSlot::new_items, (final(slot),), left),
    ensures
        before == (fresh > 0),
        fresh + old(slot).confirmed >= old(slot).total_items,
        fresh > 0 ==> fresh + old(slot).confirmed == old(slot).total_items,
        !after,
        left == 0,
        final(slot).confirmed == old(slot).total_items,
        final(slot).total_items == old(slot).total_items,
        final(slot).name == old(slot).name,
        final(slot).active == old(slot).active,
        final(slot).inventory == old(slot).inventory,
{
}

/// The explanation of the index: the place of the latest item among all.
pub proof fn law_latest_is_explained(stat: &SlotRowStat, slot: &WorldFileSlot, r: String)
    requires
        stat.last_index < usize::MAX,
        call_ensures(last_received_text, (stat, slot), r),
    ensures
        r@ == "Last received as item "@ + decimal((stat.last_index + 1) as nat) + " of "@ + decimal(
            slot.total_items as nat,
        ),
{
}

/// The mark of a column: the column that orders the table points up or down, by
/// whether its order is turned around, and the others have a dash.
pub proof fn law_marks_of_columns(order: SlotSortOrder, column: SortColumn, r: &'static str)
    requires
        call_ensures(sort_icon, (order, column), r),
    ensures
        ({
            let down = match order {
                SlotSortOrder::Name(down) => if column is Name {
                    Some(down)
                } else {
                    None
                },
                SlotSortOrder::Count(down) => if column is Count {
                    Some(down)
                } else {
                    None
                },
                SlotSortOrder::Index(down) => if column is Index {
                    Some(down)
                } else {
                    None
                },
            };
            r@ == if down == Some(true) {
                "\u{23F7}"@
            } else if down == Some(false) {
                "\u{23F6}"@
            } else {
                "\u{2796}"@
            }
        }),
{
}

/// The marks of the column of new items and of the type filters.
pub proof fn law_marks_of_filters(
    first: bool,
    value: Option<bool>,
    a: &'static str,
    b: &'static str,
)
    requires
        call_ensures(unconfirmed_icon, (first,), a),
        call_ensures(filter_icon, (value,), b),
    ensures
        a@ == if first {
            "\u{23F7}"@
        } else {
            "\u{2796}"@
        },
        value is None ==> b@ == "\u{2796}"@,
        value == Some(true) ==> b@ == "\u{2714}"@,
        value == Some(false) ==> b@ == "\u{1f5d9}"@,
{
}

} // verus!
