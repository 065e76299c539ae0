use archiinventory::data::{SlotItemGroup, SlotItemInstance, WorldFileSlot};
use archiinventory::istr::{Istr, StringCache};
use archiinventory::items::{group_items, ReceivedItem};
use archiinventory::rows::{
    can_confirm, confirm, filter_icon, last_received_text, plural, sort_icon, summary_text,
    unconfirmed_icon, SortColumn, TypeShare,
};
use archiinventory::search::{
    fuzzy_matches, normalize_str, row_stat, type_matches, SlotSearcher, SlotSortOrder,
};

fn instance(cache: &mut StringCache, index: usize, type_flags: [bool; 3]) -> SlotItemInstance {
    SlotItemInstance {
        index,
        from_id: 1,
        from_name: Istr::new(cache, "Sender"),
        at_id: 5,
        at_name: Istr::new(cache, "Cave"),
        at_game: Istr::new(cache, "Game"),
        type_flags,
    }
}

const PROGRESSION: [bool; 3] = [true, false, false];
const USEFUL: [bool; 3] = [false, true, false];
const TRAP: [bool; 3] = [false, false, true];
const FILLER: [bool; 3] = [false, false, false];

fn group(
    cache: &mut StringCache,
    id: i64,
    name: &str,
    instances: &[(usize, [bool; 3])],
) -> SlotItemGroup {
    SlotItemGroup {
        id,
        name: Istr::new(cache, name),
        instances: instances.iter().map(|&(i, flags)| instance(cache, i, flags)).collect(),
    }
}

/// Seven items in four groups.
fn inventory(cache: &mut StringCache) -> Vec<SlotItemGroup> {
    vec![
        group(cache, 10, "Sword", &[(0, PROGRESSION), (4, PROGRESSION), (6, USEFUL)]),
        group(cache, 11, "Bomb", &[(1, TRAP)]),
        group(cache, 12, "apple", &[(2, FILLER), (5, FILLER)]),
        group(cache, 13, "\u{c9}p\u{e9}e", &[(3, USEFUL)]),
    ]
}

fn slot(cache: &mut StringCache, confirmed: usize) -> WorldFileSlot {
    WorldFileSlot {
        name: "Player".to_owned(),
        active: true,
        confirmed,
        total_items: 7,
        inventory: inventory(cache),
    }
}

fn shown(searcher: &SlotSearcher, slot: &WorldFileSlot) -> Vec<String> {
    searcher
        .row_indices
        .iter()
        .map(|&i| slot.inventory[i].name.as_ref().to_owned())
        .collect()
}

#[test]
fn names_are_normalised() {
    assert_eq!(normalize_str("\u{ff33}WORD"), "sword");
    assert_eq!(normalize_str("E\u{301}"), "\u{e9}");
    assert_eq!(normalize_str("STRA\u{df}E"), "stra\u{df}e");
    assert_eq!(normalize_str(""), "");
}

#[test]
fn fuzzy_search() {
    assert!(fuzzy_matches("", ""));
    assert!(fuzzy_matches("", "anything"));
    assert!(fuzzy_matches("sword", "sword"));
    assert!(fuzzy_matches("swd", "sword"));
    assert!(!fuzzy_matches("dws", "sword"));
    assert!(!fuzzy_matches("swordd", "sword"));
    assert!(!fuzzy_matches("a", ""));
    // What is found in a found text is found.
    assert!(fuzzy_matches("sd", "swd") && fuzzy_matches("swd", "sword") && fuzzy_matches("sd", "sword"));
}

#[test]
fn type_filters() {
    let mut cache = StringCache::new();
    let trap = instance(&mut cache, 0, TRAP);
    assert!(type_matches([None, None, None], &trap));
    assert!(type_matches([None, None, Some(true)], &trap));
    assert!(!type_matches([None, None, Some(false)], &trap));
    assert!(!type_matches([Some(true), None, None], &trap));
    assert!(type_matches([Some(false), Some(false), Some(true)], &trap));
}

#[test]
fn statistics_of_a_group() {
    let mut cache = StringCache::new();
    let sword = group(&mut cache, 1, "SWORD", &[(0, PROGRESSION), (4, PROGRESSION), (6, USEFUL)]);
    let stat = row_stat(&sword, [None, None, None], 4);
    assert_eq!(stat.name_normal, "sword");
    assert_eq!(stat.count, 3);
    assert_eq!(stat.unconfirmed, 2);
    assert_eq!(stat.last_index, 6);
    assert_eq!(stat.type_count, [2, 1, 0]);
    let stat = row_stat(&sword, [Some(true), None, None], 4);
    assert_eq!(stat.count, 2);
    assert_eq!(stat.unconfirmed, 1);
    assert_eq!(stat.last_index, 4);
    assert_eq!(stat.type_count, [2, 0, 0]);
}

#[test]
fn a_new_searcher_shows_everything_by_name() {
    let mut cache = StringCache::new();
    let slot = slot(&mut cache, 7);
    let mut searcher = SlotSearcher::default();
    searcher.update(&slot.inventory, slot.confirmed);
    assert_eq!(shown(&searcher, &slot), ["apple", "Bomb", "Sword", "\u{c9}p\u{e9}e"]);
    // Nothing has changed, so nothing changes.
    searcher.update(&Vec::new(), 0);
    assert_eq!(searcher.row_indices.len(), 4);
    searcher.inventory_changed();
    searcher.update(&Vec::new(), 0);
    assert_eq!(searcher.row_indices.len(), 0);
}

#[test]
fn new_items_come_first() {
    let mut cache = StringCache::new();
    let slot = slot(&mut cache, 5);
    let mut searcher = SlotSearcher::default();
    searcher.update(&slot.inventory, slot.confirmed);
    assert_eq!(shown(&searcher, &slot), ["apple", "Sword", "Bomb", "\u{c9}p\u{e9}e"]);
    searcher.set_sort_unconfirmed(false);
    searcher.update(&slot.inventory, slot.confirmed);
    assert_eq!(shown(&searcher, &slot), ["apple", "Bomb", "Sword", "\u{c9}p\u{e9}e"]);
}

#[test]
fn rows_are_filtered_by_name() {
    let mut cache = StringCache::new();
    let slot = slot(&mut cache, 7);
    let mut searcher = SlotSearcher::default();
    searcher.filter_name = "\u{c9}P\u{c9}".to_owned();
    searcher.update_name_filter();
    searcher.update(&slot.inventory, slot.confirmed);
    assert_eq!(shown(&searcher, &slot), ["\u{c9}p\u{e9}e"]);
    searcher.filter_name = "O".to_owned();
    searcher.update_name_filter();
    searcher.update(&slot.inventory, slot.confirmed);
    assert_eq!(shown(&searcher, &slot), ["Bomb", "Sword"]);
}

#[test]
fn rows_are_filtered_by_type() {
    let mut cache = StringCache::new();
    let slot = slot(&mut cache, 7);
    let mut searcher = SlotSearcher::default();
    searcher.set_type_filter(1, Some(true));
    searcher.update(&slot.inventory, slot.confirmed);
    assert_eq!(shown(&searcher, &slot), ["Sword", "\u{c9}p\u{e9}e"]);
    assert_eq!(searcher.row_stats[0].count, 1);
    searcher.set_type_filter(1, Some(false));
    searcher.update(&slot.inventory, slot.confirmed);
    assert_eq!(shown(&searcher, &slot), ["apple", "Bomb", "Sword"]);
}

#[test]
fn type_filter_cycles() {
    let mut searcher = SlotSearcher::default();
    let mut seen = Vec::new();
    for _ in 0..4 {
        seen.push(searcher.filter_type[2]);
        searcher.next_type_filter(2);
    }
    assert_eq!(seen, [None, Some(true), Some(false), None]);
    assert_eq!(searcher.filter_type[0], None);
}

#[test]
fn clicks_on_column_headers() {
    let mut searcher = SlotSearcher::default();
    assert_eq!(searcher.sort_order, SlotSortOrder::Name(false));
    searcher.update_sort_order(SlotSortOrder::by_name());
    assert_eq!(searcher.sort_order, SlotSortOrder::Name(true));
    searcher.update_sort_order(SlotSortOrder::by_count());
    assert_eq!(searcher.sort_order, SlotSortOrder::Count(true));
    searcher.update_sort_order(SlotSortOrder::by_count());
    assert_eq!(searcher.sort_order, SlotSortOrder::Count(false));
    searcher.update_sort_order(SlotSortOrder::by_count());
    assert_eq!(searcher.sort_order, SlotSortOrder::Count(true));
    searcher.update_sort_order(SlotSortOrder::by_index());
    assert_eq!(searcher.sort_order, SlotSortOrder::Index(false));
}

#[test]
fn rows_in_every_order() {
    let mut cache = StringCache::new();
    let slot = slot(&mut cache, 7);
    let mut searcher = SlotSearcher::default();
    let mut rows = |order: SlotSortOrder| {
        searcher.sort_order = order;
        searcher.inventory_changed();
        searcher.update(&slot.inventory, slot.confirmed);
        shown(&searcher, &slot)
    };
    assert_eq!(rows(SlotSortOrder::Name(true)), ["\u{c9}p\u{e9}e", "Sword", "Bomb", "apple"]);
    assert_eq!(rows(SlotSortOrder::Count(false)), ["Bomb", "\u{c9}p\u{e9}e", "apple", "Sword"]);
    assert_eq!(rows(SlotSortOrder::Count(true)), ["Sword", "apple", "Bomb", "\u{c9}p\u{e9}e"]);
    assert_eq!(rows(SlotSortOrder::Index(false)), ["Sword", "apple", "\u{c9}p\u{e9}e", "Bomb"]);
    assert_eq!(rows(SlotSortOrder::Index(true)), ["Bomb", "\u{c9}p\u{e9}e", "apple", "Sword"]);
}

#[test]
fn a_row_as_it_is_shown() {
    let mut cache = StringCache::new();
    let slot = slot(&mut cache, 5);
    let mut searcher = SlotSearcher::default();
    searcher.update(&slot.inventory, slot.confirmed);
    let row = searcher.row_view(&slot, 1);
    assert_eq!(row.group, 0);
    assert_eq!(row.count, "3");
    assert_eq!(row.unconfirmed, "+1");
    assert_eq!(row.index, "#1");
    assert_eq!(row.color, [0, 85, 170]);
    assert_eq!(
        row.shares,
        [TypeShare { kind: 0, count: 2 }, TypeShare { kind: 1, count: 1 }]
    );
    assert_eq!(row.id_text, "ID: 10");
    let row = searcher.row_view(&slot, 2);
    assert_eq!(row.group, 1);
    assert_eq!(row.unconfirmed, "");
    assert_eq!(row.index, "#6");
    assert_eq!(row.color, [255, 0, 0]);
    let stat = &searcher.row_stats[0];
    assert_eq!(last_received_text(stat, &slot), "Last received as item 7 of 7");
}

#[test]
fn useless_items_have_no_shares() {
    let mut cache = StringCache::new();
    let mut slot = slot(&mut cache, 7);
    slot.total_items = 2;
    let mut searcher = SlotSearcher::default();
    searcher.update(&slot.inventory, slot.confirmed);
    let row = searcher.row_view(&slot, 0);
    assert_eq!(row.group, 2);
    assert!(row.shares.is_empty());
    assert_eq!(row.color, [0, 0, 0]);
    // More items were counted than the slot is said to have.
    assert_eq!(row.index, "#0");
}

#[test]
fn glyphs() {
    assert_eq!(sort_icon(SlotSortOrder::Count(false), SortColumn::Count), "\u{23F6}");
    assert_eq!(sort_icon(SlotSortOrder::Count(true), SortColumn::Count), "\u{23F7}");
    assert_eq!(sort_icon(SlotSortOrder::Count(true), SortColumn::Name), "\u{2796}");
    assert_eq!(sort_icon(SlotSortOrder::Index(true), SortColumn::Index), "\u{23F7}");
    assert_eq!(unconfirmed_icon(true), "\u{23F7}");
    assert_eq!(unconfirmed_icon(false), "\u{2796}");
    assert_eq!(filter_icon(None), "\u{2796}");
    assert_eq!(filter_icon(Some(true)), "\u{2714}");
    assert_eq!(filter_icon(Some(false)), "\u{1f5d9}");
}

#[test]
fn confirming_items() {
    let mut cache = StringCache::new();
    let mut slot = slot(&mut cache, 4);
    assert_eq!(summary_text(&slot), "7 items, 3 unconfirmed");
    assert_eq!(slot.new_items(), 3);
    assert!(can_confirm(&slot));
    confirm(&mut slot);
    assert_eq!(slot.confirmed, 7);
    assert!(!can_confirm(&slot));
    assert_eq!(summary_text(&slot), "7 items, 0 unconfirmed");
    slot.total_items = 1;
    assert_eq!(summary_text(&slot), "1 item, 0 unconfirmed");
    assert_eq!(slot.new_items(), 0);
}

#[test]
fn plural_endings() {
    assert_eq!(plural(0), "s");
    assert_eq!(plural(1), "");
    assert_eq!(plural(2), "s");
}

fn received(cache: &mut StringCache, item_id: i64, item_name: &str, sender_id: u32) -> ReceivedItem {
    ReceivedItem {
        item_id,
        item_name: Istr::new(cache, item_name),
        sender_id,
        sender_name: Istr::new(cache, "Other"),
        location_id: 100 + item_id,
        location_name: Istr::new(cache, "Chest"),
        location_game: Istr::new(cache, "Their Game"),
        type_flags: USEFUL,
    }
}

#[test]
fn received_items_are_grouped() {
    let mut cache = StringCache::new();
    let items = vec![
        received(&mut cache, 7, "Coin", 1),
        received(&mut cache, 3, "Key", 2),
        received(&mut cache, 7, "Coin", 4),
    ];
    let groups = group_items(&items);
    assert_eq!(groups.len(), 2);
    let coins = groups.iter().find(|g| g.id == 7).unwrap();
    let keys = groups.iter().find(|g| g.id == 3).unwrap();
    assert_eq!(coins.name.as_ref(), "Coin");
    assert_eq!(coins.instances.len(), 2);
    assert_eq!((coins.instances[0].index, coins.instances[0].from_id), (0, 1));
    assert_eq!((coins.instances[1].index, coins.instances[1].from_id), (2, 4));
    assert_eq!(keys.instances.len(), 1);
    assert_eq!(keys.instances[0].index, 1);
    assert_eq!(keys.instances[0].at_id, 103);
    assert_eq!(keys.instances[0].at_name.as_ref(), "Chest");
    assert_eq!(keys.instances[0].at_game.as_ref(), "Their Game");
    assert_eq!(keys.instances[0].from_name.as_ref(), "Other");
    assert_eq!(keys.instances[0].type_flags, USEFUL);
}

#[test]
fn nothing_received_makes_no_group() {
    assert!(group_items(&Vec::new()).is_empty());
}
