//! What the inventory table of a slot shows.

use vstd::prelude::*;
use vstd::string::StringExecFns;

use crate::data::{SlotItemGroup, WorldFileSlot};
use crate::search::{rows_of, visible, SlotRowStat, SlotSearcher, SlotSortOrder};
use crate::text::{decimal, push_decimal, push_signed, signed_decimal};

verus! {

broadcast use vstd::string::group_string_axioms;

/// The ending of a noun that is counted.
pub open spec fn plural_ending(i: int) -> Seq<char> {
    if i == 1 {
        ""@
    } else {
        "s"@
    }
}

/// The ending of a noun that is counted.
pub fn plural(i: usize) -> (r: &'static str)
    ensures
        r@ == plural_ending(i as int),
{
    if i == 1 {
        ""
    } else {
        "s"
    }
}

/// How many of a slot's items are not confirmed yet.
pub open spec fn unconfirmed_items(slot: WorldFileSlot) -> nat {
    if slot.total_items > slot.confirmed {
        (slot.total_items - slot.confirmed) as nat
    } else {
        0
    }
}

/// The line above the table.
pub open spec fn summary(slot: WorldFileSlot) -> Seq<char> {
    decimal(slot.total_items as nat) + " item"@ + plural_ending(slot.total_items as int) + ", "@
        + decimal(unconfirmed_items(slot)) + " unconfirmed"@
}

/// The line above the table.
pub fn summary_text(slot: &WorldFileSlot) -> (r: String)
    ensures
        r@ == summary(*slot),
{
    let mut out = String::new();
    push_decimal(&mut out, slot.total_items as u64);
    out.append(" item");
    out.append(plural(slot.total_items));
    out.append(", ");
    push_decimal(&mut out, slot.new_items() as u64);
    out.append(" unconfirmed");
    assert(out@ =~= summary(*slot));
    out
}

/// Whether there is anything to confirm.
pub fn can_confirm(slot: &WorldFileSlot) -> (r: bool)
    ensures
        r == (slot.confirmed < slot.total_items),
        r == (unconfirmed_items(*slot) > 0),
{
    slot.confirmed < slot.total_items
}

/// Takes note that all items have been seen.
pub fn confirm(slot: &mut WorldFileSlot)
    ensures
        *final(slot) == (WorldFileSlot { confirmed: old(slot).total_items, ..*old(slot) }),
        unconfirmed_items(*final(slot)) == 0,
{
    slot.confirmed = slot.total_items;
}

/// How a column header is marked.
#[derive(Debug, Clone, Copy, PartialEq, Eq, Structural)]
pub enum SortMark {
    Off,
    Up,
    Down,
}

/// A column that the table can be sorted by.
#[derive(Debug, Clone, Copy, PartialEq, Eq, Structural)]
pub enum SortColumn {
    Name,
    Count,
    Index,
}

/// The mark of a column under a sort order: the column in use shows whether
/// its order is turned around.
pub open spec fn column_mark(order: SlotSortOrder, column: SortColumn) -> SortMark {
    match (order, column) {
        (SlotSortOrder::Name(down), SortColumn::Name) => if down {
            SortMark::Down
        } else {
            SortMark::Up
        },
        (SlotSortOrder::Count(down), SortColumn::Count) => if down {
            SortMark::Down
        } else {
            SortMark::Up
        },
        (SlotSortOrder::Index(down), SortColumn::Index) => if down {
            SortMark::Down
        } else {
            SortMark::Up
        },
        _ => SortMark::Off,
    }
}

/// The glyph of a mark.
pub open spec fn mark_icon(mark: SortMark) -> Seq<char> {
    match mark {
        SortMark::Off => "\u{2796}"@,
        SortMark::Up => "\u{23F6}"@,
        SortMark::Down => "\u{23F7}"@,
    }
}

/// The glyph of a column header.
pub fn sort_icon(order: SlotSortOrder, column: SortColumn) -> (r: &'static str)
    ensures
        r@ == mark_icon(column_mark(order, column)),
{
    let down = match (order, column) {
        (SlotSortOrder::Name(down), SortColumn::Name) => down,
        (SlotSortOrder::Count(down), SortColumn::Count) => down,
        (SlotSortOrder::Index(down), SortColumn::Index) => down,
        _ => {
            return "\u{2796}";
        },
    };
    if down {
        "\u{23F7}"
    } else {
        "\u{23F6}"
    }
}

/// The glyph of the header of the column of new items.
pub fn unconfirmed_icon(first: bool) -> (r: &'static str)
    ensures
        r@ == mark_icon(if first {
            SortMark::Down
        } else {
            SortMark::Off
        }),
{
    if first {
        "\u{23F7}"
    } else {
        "\u{2796}"
    }
}

/// The glyph of a type filter.
pub open spec fn filter_glyph(value: Option<bool>) -> Seq<char> {
    match value {
        None => "\u{2796}"@,
        Some(true) => "\u{2714}"@,
        Some(false) => "\u{1f5d9}"@,
    }
}

/// The glyph of a type filter.
pub fn filter_icon(value: Option<bool>) -> (r: &'static str)
    ensures
        r@ == filter_glyph(value),
{
    match value {
        None => "\u{2796}",
        Some(true) => "\u{2714}",
        Some(false) => "\u{1f5d9}",
    }
}

/// The share of a type in a row on a scale up to 255.
pub open spec fn share(part: int, whole: int) -> int {
    (part * 255) / whole
}

fn share_of(part: usize, whole: usize) -> (r: u8)
    requires
        0 < whole,
        part <= whole,
    ensures
        r == share(part as int, whole as int),
{
    let scaled: u128 = part as u128 * 255u128;
    proof {
        assert(scaled / whole as u128 <= 255) by (nonlinear_arith)
            requires
                scaled == part as u128 * 255u128,
                part <= whole,
                0 < whole,
        ;
    }
    (scaled / whole as u128) as u8
}

/// A type that occurs in a row, and how often: 0 for progression, 1 for useful
/// items, 2 for traps.
#[derive(Debug, Clone, Copy, PartialEq, Eq, Structural)]
pub struct TypeShare {
    pub kind: usize,
    pub count: usize,
}

/// The types that occur among the first `n`, in order.
pub open spec fn type_shares(counts: Seq<usize>, n: nat) -> Seq<TypeShare>
    decreases n,
{
    if n == 0 {
        Seq::empty()
    } else if counts[n - 1] > 0 {
        type_shares(counts, (n - 1) as nat).push(
            TypeShare { kind: (n - 1) as usize, count: counts[n - 1] },
        )
    } else {
        type_shares(counts, (n - 1) as nat)
    }
}

/// What one row of the table shows.
#[derive(Debug, Clone)]
pub struct RowView {
    /// The position of the row's group in the inventory.
    pub group: usize,
    pub count: String,
    pub unconfirmed: String,
    pub index: String,
    /// Red for traps, green for useful items, blue for progression.
    pub color: [u8; 3],
    /// The types that occur, for the explanation of the colour.
    pub shares: Vec<TypeShare>,
    /// The item's id, shown with its name.
    pub id_text: String,
}

/// Whether the numbers of a row fit together.
pub open spec fn stat_sound(stat: SlotRowStat) -> bool {
    forall|k: int| 0 <= k < 3 ==> #[trigger] stat.type_count@[k] <= stat.count
}

/// Whether the searcher's rows refer to its statistics, and these are sound.
pub open spec fn rows_sound(searcher: SlotSearcher) -> bool {
    &&& forall|i: int|
        0 <= i < searcher.row_indices@.len() ==> #[trigger] searcher.row_indices@[i]
            < searcher.row_stats@.len()
    &&& forall|i: int|
        0 <= i < searcher.row_indices@.len() ==> searcher.row_stats@[(
        #[trigger] searcher.row_indices@[i]) as int].count > 0
    &&& forall|i: int|
        0 <= i < searcher.row_stats@.len() ==> stat_sound(#[trigger] searcher.row_stats@[i])
}

/// Whether `view` shows the row with statistics `stat` of the item group `item`
/// in `slot`.
pub open spec fn shows(
    view: RowView,
    group: int,
    stat: SlotRowStat,
    item: SlotItemGroup,
    slot: WorldFileSlot,
) -> bool {
    &&& view.group == group
    &&& view.count@ == decimal(stat.count as nat)
    &&& view.unconfirmed@ == if stat.unconfirmed == 0 {
        Seq::<char>::empty()
    } else {
        "+"@ + decimal(stat.unconfirmed as nat)
    }
    &&& view.index@ == "#"@ + decimal(
        if slot.total_items > stat.last_index {
            (slot.total_items - stat.last_index) as nat
        } else {
            0
        },
    )
    &&& view.color@[0] == share(stat.type_count@[2] as int, stat.count as int)
    &&& view.color@[1] == share(stat.type_count@[1] as int, stat.count as int)
    &&& view.color@[2] == share(stat.type_count@[0] as int, stat.count as int)
    &&& view.shares@ == type_shares(stat.type_count@, 3)
    &&& view.id_text@ == "ID: "@ + signed_decimal(item.id as int)
}

fn collect_shares(counts: [usize; 3]) -> (r: Vec<TypeShare>)
    ensures
        r@ == type_shares(counts@, 3),
{
    let mut out: Vec<TypeShare> = Vec::new();
    let mut k: usize = 0;
    while k < 3
        invariant
            k <= 3,
            out@ == type_shares(counts@, k as nat),
        decreases 3 - k,
    {
        if counts[k] > 0 {
            out.push(TypeShare { kind: k, count: counts[k] });
        }
        k += 1;
    }
    out
}

impl SlotSearcher {
    /// What the row at `at` shows. The row's group must still be part of the
    /// inventory.
    pub fn row_view(&self, slot: &WorldFileSlot, at: usize) -> (r: RowView)
        requires
            rows_sound(*self),
            at < self.row_indices@.len(),
            self.row_indices@[at as int] < slot.inventory@.len(),
        ensures
            shows(
                r,
                self.row_indices@[at as int] as int,
                self.row_stats@[self.row_indices@[at as int] as int],
                slot.inventory@[self.row_indices@[at as int] as int],
                *slot,
            ),
    {
        let group: usize = self.row_indices[at];
        let stat = &self.row_stats[group];
        let item = &slot.inventory[group];
        assert(stat_sound(self.row_stats@[group as int]));
        assert(stat.type_count@[0] <= stat.count);
        assert(stat.type_count@[1] <= stat.count);
        assert(stat.type_count@[2] <= stat.count);
        let mut count = String::new();
        push_decimal(&mut count, stat.count as u64);
        assert(count@ =~= decimal(stat.count as nat));
        let mut unconfirmed = String::new();
        if stat.unconfirmed != 0 {
            unconfirmed.append("+");
            push_decimal(&mut unconfirmed, stat.unconfirmed as u64);
            assert(unconfirmed@ =~= "+"@ + decimal(stat.unconfirmed as nat));
        }
        let age: usize = if slot.total_items > stat.last_index {
            slot.total_items - stat.last_index
        } else {
            0
        };
        let mut index = String::new();
        index.append("#");
        push_decimal(&mut index, age as u64);
        assert(index@ =~= "#"@ + decimal(age as nat));
        let mut id_text = String::new();
        id_text.append("ID: ");
        push_signed(&mut id_text, item.id);
        assert(id_text@ =~= "ID: "@ + signed_decimal(item.id as int));
        let red: u8 = share_of(stat.type_count[2], stat.count);
        let green: u8 = share_of(stat.type_count[1], stat.count);
        let blue: u8 = share_of(stat.type_count[0], stat.count);
        RowView {
            group,
            count,
            unconfirmed,
            index,
            color: [red, green, blue],
            shares: collect_shares(stat.type_count),
            id_text,
        }
    }
}

/// When a group last received an item: the explanation of its index.
pub fn last_received_text(stat: &SlotRowStat, slot: &WorldFileSlot) -> (r: String)
    requires
        stat.last_index < usize::MAX,
    ensures
        r@ == "Last received as item "@ + decimal((stat.last_index + 1) as nat) + " of "@ + decimal(
            slot.total_items as nat,
        ),
{
    let mut out = "Last received as item ".to_owned();
    push_decimal(&mut out, (stat.last_index + 1) as u64);
    out.append(" of ");
    push_decimal(&mut out, slot.total_items as u64);
    out
}

/// A searcher that was brought up to date after its inventory changed has rows
/// that can be shown, whatever it was before.
pub proof fn law_updated_rows_sound(
    pre: SlotSearcher,
    inventory: Seq<SlotItemGroup>,
    confirmed: int,
    post: SlotSearcher,
)
    requires
        crate::search::updated(pre, inventory, confirmed, post),
        pre.stale_inventory_or_type_filter || rows_sound(pre),
    ensures
        rows_sound(post),
{
    if pre.stale_inventory_or_type_filter {
        assert forall|i: int| 0 <= i < post.row_stats@.len() implies stat_sound(
            #[trigger] post.row_stats@[i],
        ) by {
            crate::search::law_counts_bounded(
                post.row_stats@[i],
                inventory[i].instances@,
                pre.filter_type@,
                confirmed,
            );
        }
    }
    if pre.stale_inventory_or_type_filter || pre.stale_name_filter_or_sort_order {
        assert(rows_of(
            post.row_indices@,
            post.row_stats@,
            pre.filter_name_normal@,
            pre.sort_order,
            pre.sort_unconfirmed,
        ));
        assert forall|i: int| 0 <= i < post.row_indices@.len() implies post.row_stats@[(
        #[trigger] post.row_indices@[i]) as int].count > 0 by {
            assert(visible(
                post.row_stats@[post.row_indices@[i] as int],
                pre.filter_name_normal@,
            ));
        }
    }
}

} // verus!
