//! Received items, and how they are grouped for an inventory.

use vstd::prelude::*;

use crate::data::{groups_view, GroupView, InstanceView, SlotItemGroup, SlotItemInstance};
use crate::istr::Istr;
use crate::tables::IdTable;

verus! {

/// An item as it was received.
#[derive(Debug, Clone)]
pub struct ReceivedItem {
    pub item_id: i64,
    pub item_name: Istr,
    pub sender_id: u32,
    pub sender_name: Istr,
    pub location_id: i64,
    pub location_name: Istr,
    pub location_game: Istr,
    /// Progression, useful, trap.
    pub type_flags: [bool; 3],
}

/// What is said of a received item.
pub struct ReceivedView {
    pub item_id: int,
    pub item_name: Seq<char>,
    pub sender_id: int,
    pub sender_name: Seq<char>,
    pub location_id: int,
    pub location_name: Seq<char>,
    pub location_game: Seq<char>,
    pub type_flags: Seq<bool>,
}

impl View for ReceivedItem {
    type V = ReceivedView;

    open spec fn view(&self) -> ReceivedView {
        ReceivedView {
            item_id: self.item_id as int,
            item_name: self.item_name@,
            sender_id: self.sender_id as int,
            sender_name: self.sender_name@,
            location_id: self.location_id as int,
            location_name: self.location_name@,
            location_game: self.location_game@,
            type_flags: self.type_flags@,
        }
    }
}

/// What is said of a list of received items.
pub open spec fn received_view(items: Seq<ReceivedItem>) -> Seq<ReceivedView> {
    items.map_values(|i: ReceivedItem| i@)
}

/// What the inventory keeps of the item that was received at position `index`.
pub open spec fn instance_of(item: ReceivedView, index: int) -> InstanceView {
    InstanceView {
        index,
        from_id: item.sender_id,
        from_name: item.sender_name,
        at_id: item.location_id,
        at_name: item.location_name,
        at_game: item.location_game,
        type_flags: item.type_flags,
    }
}

/// The items with an id, in the order in which they were received.
pub open spec fn instances_of(items: Seq<ReceivedView>, id: int) -> Seq<InstanceView>
    decreases items.len(),
{
    if items.len() == 0 {
        Seq::empty()
    } else if items.last().item_id == id {
        instances_of(items.drop_last(), id).push(instance_of(items.last(), items.len() - 1))
    } else {
        instances_of(items.drop_last(), id)
    }
}

/// Whether a group is the group of its id: all items with the id in the order
/// of receipt, under the name of the first of them.
pub open spec fn is_group(group: GroupView, items: Seq<ReceivedView>) -> bool {
    &&& group.instances == instances_of(items, group.id)
    &&& group.instances.len() > 0
    &&& group.name == items[group.instances[0].index].item_name
}

/// Whether `groups` are the groups of `items`: one for each id that occurs, in
/// the order in which the ids occurred first.
pub open spec fn is_grouping(groups: Seq<GroupView>, items: Seq<ReceivedView>) -> bool {
    &&& forall|g: int| 0 <= g < groups.len() ==> is_group(#[trigger] groups[g], items)
    &&& forall|a: int, b: int|
        0 <= a < b < groups.len() ==> (#[trigger] groups[a]).instances[0].index < (
        #[trigger] groups[b]).instances[0].index
    &&& forall|k: int|
        0 <= k < items.len() ==> has_group(groups, (#[trigger] items[k]).item_id)
}

/// Whether there is a group for an id.
pub open spec fn has_group(groups: Seq<GroupView>, id: int) -> bool {
    exists|g: int| 0 <= g < groups.len() && (#[trigger] groups[g]).id == id
}

/// The items with an id are items: their positions increase, each of them has
/// the id, and every item with the id is among them.
proof fn lemma_instances(items: Seq<ReceivedView>, id: int)
    ensures
        forall|j: int|
            0 <= j < instances_of(items, id).len() ==> {
                let i = #[trigger] instances_of(items, id)[j];
                &&& 0 <= i.index < items.len()
                &&& items[i.index].item_id == id
                &&& i == instance_of(items[i.index], i.index)
            },
        forall|j: int, k: int|
            0 <= j < k < instances_of(items, id).len() ==> (#[trigger] instances_of(
                items,
                id,
            )[j]).index < (#[trigger] instances_of(items, id)[k]).index,
        forall|k: int|
            0 <= k < items.len() && (#[trigger] items[k]).item_id == id ==> instances_of(
                items,
                id,
            ).contains(instance_of(items[k], k)),
    decreases items.len(),
{
    if items.len() > 0 {
        let rest = items.drop_last();
        lemma_instances(rest, id);
        let all = instances_of(items, id);
        let some = instances_of(rest, id);
        assert forall|k: int| 0 <= k < items.len() && (#[trigger] items[k]).item_id
            == id implies all.contains(instance_of(items[k], k)) by {
            if k < rest.len() {
                assert(rest[k].item_id == id);
                assert(some.contains(instance_of(rest[k], k)));
                let j = choose|j: int| 0 <= j < some.len() && some[j] == instance_of(rest[k], k);
                assert(all[j] == some[j]);
            } else {
                assert(all[all.len() - 1] == instance_of(items[k], k));
            }
        }
        assert forall|j: int| 0 <= j < all.len() implies {
            let i = #[trigger] all[j];
            &&& 0 <= i.index < items.len()
            &&& items[i.index].item_id == id
            &&& i == instance_of(items[i.index], i.index)
        } by {
            if j < some.len() {
                assert(all[j] == some[j]);
                assert(rest[some[j].index] == items[some[j].index]);
            }
        }
        assert forall|j: int, k: int| 0 <= j < k < all.len() implies (#[trigger] all[j]).index < (
        #[trigger] all[k]).index by {
            assert(all[j] == some[j]);
            if k < some.len() {
                assert(all[k] == some[k]);
            }
        }
    }
}

/// No two groups of a grouping have the same id.
pub proof fn law_group_ids_distinct(groups: Seq<GroupView>, items: Seq<ReceivedView>)
    requires
        is_grouping(groups, items),
    ensures
        forall|a: int, b: int|
            0 <= a < b < groups.len() ==> (#[trigger] groups[a]).id != (#[trigger] groups[b]).id,
{
    assert forall|a: int, b: int| 0 <= a < b < groups.len() implies (#[trigger] groups[a]).id != (
    #[trigger] groups[b]).id by {
        assert(is_group(groups[a], items));
        assert(is_group(groups[b], items));
    }
}

/// Every received item is in the group of its id, at its position, and in no
/// other group.
pub proof fn law_item_in_one_group(groups: Seq<GroupView>, items: Seq<ReceivedView>, k: int)
    requires
        is_grouping(groups, items),
        0 <= k < items.len(),
    ensures
        exists|g: int|
            0 <= g < groups.len() && (#[trigger] groups[g]).id == items[k].item_id
                && groups[g].instances.contains(instance_of(items[k], k)),
        forall|g: int, j: int|
            0 <= g < groups.len() && 0 <= j < groups[g].instances.len() && (
            #[trigger] groups[g].instances[j]).index == k ==> groups[g].id == items[k].item_id,
{
    lemma_instances(items, items[k].item_id);
    assert(has_group(groups, items[k].item_id));
    let g = choose|g: int| 0 <= g < groups.len() && (#[trigger] groups[g]).id == items[k].item_id;
    assert(is_group(groups[g], items));
    assert forall|g: int, j: int|
        0 <= g < groups.len() && 0 <= j < groups[g].instances.len() && (
        #[trigger] groups[g].instances[j]).index == k implies groups[g].id == items[k].item_id by {
        lemma_instances(items, groups[g].id);
        assert(is_group(groups[g], items));
        assert(groups[g].instances[j] == instances_of(items, groups[g].id)[j]);
    }
}

/// How many items the groups hold together.
pub open spec fn held(groups: Seq<GroupView>) -> nat
    decreases groups.len(),
{
    if groups.len() == 0 {
        0
    } else {
        held(groups.drop_last()) + groups.last().instances.len()
    }
}

spec fn with_ids(groups: Seq<GroupView>, items: Seq<ReceivedView>) -> nat
    decreases groups.len(),
{
    if groups.len() == 0 {
        0
    } else {
        with_ids(groups.drop_last(), items) + instances_of(items, groups.last().id).len()
    }
}

spec fn having_id(groups: Seq<GroupView>, id: int) -> nat
    decreases groups.len(),
{
    if groups.len() == 0 {
        0
    } else {
        having_id(groups.drop_last(), id) + if groups.last().id == id {
            1nat
        } else {
            0
        }
    }
}

proof fn lemma_with_ids_step(groups: Seq<GroupView>, items: Seq<ReceivedView>)
    requires
        items.len() > 0,
    ensures
        with_ids(groups, items) == with_ids(groups, items.drop_last()) + having_id(
            groups,
            items.last().item_id,
        ),
    decreases groups.len(),
{
    if groups.len() > 0 {
        lemma_with_ids_step(groups.drop_last(), items);
    }
}

proof fn lemma_with_ids_empty(groups: Seq<GroupView>)
    ensures
        with_ids(groups, Seq::empty()) == 0,
    decreases groups.len(),
{
    if groups.len() > 0 {
        lemma_with_ids_empty(groups.drop_last());
    }
}

proof fn lemma_having_id(groups: Seq<GroupView>, id: int)
    requires
        forall|a: int, b: int|
            0 <= a < b < groups.len() ==> (#[trigger] groups[a]).id != (#[trigger] groups[b]).id,
    ensures
        having_id(groups, id) == if has_group(groups, id) {
            1nat
        } else {
            0
        },
    decreases groups.len(),
{
    if groups.len() > 0 {
        let rest = groups.drop_last();
        assert forall|a: int, b: int| 0 <= a < b < rest.len() implies (#[trigger] rest[a]).id != (
        #[trigger] rest[b]).id by {
            assert(groups[a].id != groups[b].id);
        }
        lemma_having_id(rest, id);
        if has_group(rest, id) {
            let g = choose|g: int| 0 <= g < rest.len() && (#[trigger] rest[g]).id == id;
            assert(groups[g].id == id);
            assert(groups[g].id != groups[groups.len() - 1].id);
        }
        if groups.last().id == id {
            assert(groups[groups.len() - 1].id == id);
        } else if has_group(groups, id) {
            let g = choose|g: int| 0 <= g < groups.len() && (#[trigger] groups[g]).id == id;
            assert(rest[g].id == id);
        }
    }
}

proof fn lemma_with_ids_total(groups: Seq<GroupView>, items: Seq<ReceivedView>)
    requires
        forall|a: int, b: int|
            0 <= a < b < groups.len() ==> (#[trigger] groups[a]).id != (#[trigger] groups[b]).id,
        forall|k: int|
            0 <= k < items.len() ==> has_group(groups, (#[trigger] items[k]).item_id),
    ensures
        with_ids(groups, items) == items.len(),
    decreases items.len(),
{
    if items.len() == 0 {
        assert(items =~= Seq::empty());
        lemma_with_ids_empty(groups);
    } else {
        let rest = items.drop_last();
        assert forall|k: int| 0 <= k < rest.len() implies has_group(
            groups,
            (#[trigger] rest[k]).item_id,
        ) by {
            assert(rest[k] == items[k]);
        }
        lemma_with_ids_total(groups, rest);
        lemma_with_ids_step(groups, items);
        lemma_having_id(groups, items.last().item_id);
        assert(has_group(groups, items[items.len() - 1].item_id));
    }
}

proof fn lemma_held(groups: Seq<GroupView>, items: Seq<ReceivedView>)
    requires
        forall|g: int|
            0 <= g < groups.len() ==> (#[trigger] groups[g]).instances == instances_of(
                items,
                groups[g].id,
            ),
    ensures
        held(groups) == with_ids(groups, items),
    decreases groups.len(),
{
    if groups.len() > 0 {
        let rest = groups.drop_last();
        assert forall|g: int| 0 <= g < rest.len() implies (#[trigger] rest[g]).instances
            == instances_of(items, rest[g].id) by {
            assert(rest[g] == groups[g]);
        }
        lemma_held(rest, items);
        assert(groups[groups.len() - 1].instances == instances_of(
            items,
            groups[groups.len() - 1].id,
        ));
    }
}

/// The groups hold as many items as were received: none is lost, and none is
/// held twice.
pub proof fn law_groups_hold_all(groups: Seq<GroupView>, items: Seq<ReceivedView>)
    requires
        is_grouping(groups, items),
    ensures
        held(groups) == items.len(),
{
    law_group_ids_distinct(groups, items);
    assert forall|g: int| 0 <= g < groups.len() implies (#[trigger] groups[g]).instances
        == instances_of(items, groups[g].id) by {
        assert(is_group(groups[g], items));
    }
    lemma_held(groups, items);
    lemma_with_ids_total(groups, items);
}

/// How the groups change with one more item.
proof fn lemma_grouping_step(
    groups: Seq<GroupView>,
    items: Seq<ReceivedView>,
    item: ReceivedView,
    at: Option<int>,
    after: Seq<GroupView>,
)
    requires
        is_grouping(groups, items),
        match at {
            Some(g) => {
                &&& 0 <= g < groups.len()
                &&& groups[g].id == item.item_id
                &&& after == groups.update(
                    g,
                    GroupView {
                        instances: groups[g].instances.push(
                            instance_of(item, items.len() as int),
                        ),
                        ..groups[g]
                    },
                )
            },
            None => {
                &&& !has_group(groups, item.item_id)
                &&& after == groups.push(
                    GroupView {
                        id: item.item_id,
                        name: item.item_name,
                        instances: seq![instance_of(item, items.len() as int)],
                    },
                )
            },
        },
    ensures
        is_grouping(after, items.push(item)),
{
    let more = items.push(item);
    assert(more.drop_last() =~= items);
    law_group_ids_distinct(groups, items);
    let id = item.item_id;
    lemma_instances(items, id);
    if at is None {
        let none = instances_of(items, id);
        if none.len() > 0 {
            assert(has_group(groups, items[none[0].index].item_id));
        }
        assert(instances_of(more, id) =~= seq![instance_of(item, items.len() as int)]);
    }
    assert forall|g: int| 0 <= g < groups.len() implies {
        &&& (#[trigger] after[g]).id == groups[g].id
        &&& is_group(after[g], more)
        &&& after[g].instances[0] == groups[g].instances[0]
        &&& after[g].instances[0].index < items.len()
    } by {
        assert(is_group(groups[g], items));
        lemma_instances(items, groups[g].id);
        assert(groups[g].instances[0] == instances_of(items, groups[g].id)[0]);
    }
    assert forall|g: int| 0 <= g < after.len() implies is_group(#[trigger] after[g], more) by {}
    assert forall|a: int, b: int| 0 <= a < b < after.len() implies (
    #[trigger] after[a]).instances[0].index < (#[trigger] after[b]).instances[0].index by {
        if b < groups.len() {
            assert(groups[a].instances[0].index < groups[b].instances[0].index);
        }
    }
    assert forall|k: int| 0 <= k < more.len() implies has_group(
        after,
        (#[trigger] more[k]).item_id,
    ) by {
        if k < items.len() {
            assert(has_group(groups, items[k].item_id));
            let g = choose|g: int|
                0 <= g < groups.len() && (#[trigger] groups[g]).id == items[k].item_id;
            assert(after[g].id == items[k].item_id);
        } else {
            let g = match at {
                Some(g) => g,
                None => groups.len() as int,
            };
            assert(after[g].id == id);
        }
    }
}

fn instance_from(item: &ReceivedItem, index: usize) -> (r: SlotItemInstance)
    ensures
        r@ == instance_of(item@, index as int),
{
    SlotItemInstance {
        index,
        from_id: item.sender_id,
        from_name: item.sender_name.clone(),
        at_id: item.location_id,
        at_name: item.location_name.clone(),
        at_game: item.location_game.clone(),
        type_flags: item.type_flags,
    }
}

/// Groups received items by id.
pub fn group_items(items: &Vec<ReceivedItem>) -> (r: Vec<SlotItemGroup>)
    ensures
        is_grouping(groups_view(r@), received_view(items@)),
{
    let mut groups: Vec<SlotItemGroup> = Vec::new();
    let mut table = IdTable::new();
    let mut i: usize = 0;
    let ghost all = received_view(items@);
    assert(all.take(0) =~= Seq::empty());
    while i < items.len()
        invariant
            i <= items@.len(),
            all == received_view(items@),
            is_grouping(groups_view(groups@), all.take(i as int)),
            forall|id: i64| #[trigger]
                table@.contains_key(id) ==> table@[id] < groups@.len() && groups@[table@[id] as int].id
                    == id,
            forall|g: int|
                0 <= g < groups@.len() ==> table@.contains_key((#[trigger] groups@[g]).id),
        decreases items@.len() - i,
    {
        let item = &items[i];
        let ghost before = groups@;
        let ghost view = groups_view(groups@);
        let ghost done = all.take(i as int);
        assert(all.take(i + 1) =~= done.push(item@));
        let instance = instance_from(item, i);
        match table.get(item.item_id) {
            Some(at) => {
                assert(table@.contains_key(item.item_id));
                groups[at].instances.push(instance);
                proof {
                    let after = groups_view(groups@);
                    assert(groups@[at as int]@.instances =~= before[at as int]@.instances.push(
                        instance@,
                    ));
                    assert(after =~= view.update(
                        at as int,
                        GroupView {
                            instances: view[at as int].instances.push(instance@),
                            ..view[at as int]
                        },
                    ));
                    lemma_grouping_step(view, done, item@, Some(at as int), after);
                    assert forall|g: int| 0 <= g < groups@.len() implies table@.contains_key(
                        (#[trigger] groups@[g]).id,
                    ) by {
                        assert(groups@[g].id == before[g].id);
                    }
                }
            },
            None => {
                let mut instances: Vec<SlotItemInstance> = Vec::new();
                instances.push(instance);
                proof {
                    if has_group(view, item@.item_id) {
                        let g = choose|g: int|
                            0 <= g < view.len() && (#[trigger] view[g]).id == item.item_id;
                        assert(table@.contains_key(before[g].id));
                    }
                }
                let at: usize = groups.len();
                groups.push(
                    SlotItemGroup { id: item.item_id, name: item.item_name.clone(), instances },
                );
                table.insert(item.item_id, at);
                proof {
                    let after = groups_view(groups@);
                    assert(groups@[at as int]@.instances =~= seq![instance@]);
                    assert(after =~= view.push(
                        GroupView {
                            id: item.item_id as int,
                            name: item.item_name@,
                            instances: seq![instance@],
                        },
                    ));
                    lemma_grouping_step(view, done, item@, None, after);
                }
            },
        }
        i += 1;
    }
    assert(all.take(i as int) =~= all);
    groups
}

/// Whether `kept` is what an inventory keeps of the item received at position
/// `k`: who sent it, from which location of which game, and of which types it is.
pub open spec fn keeps(kept: SlotItemInstance, item: ReceivedItem, k: int) -> bool {
    &&& kept.index == k
    &&& kept.from_id == item.sender_id
    &&& kept.from_name@ == item.sender_name@
    &&& kept.at_id == item.location_id
    &&& kept.at_name@ == item.location_name@
    &&& kept.at_game@ == item.location_game@
    &&& kept.type_flags@[0] == item.type_flags@[0]
    &&& kept.type_flags@[1] == item.type_flags@[1]
    &&& kept.type_flags@[2] == item.type_flags@[2]
}

/// What a group of a grouping holds, item by item.
pub proof fn law_group_holds_its_items(
    items: &Vec<ReceivedItem>,
    groups: Vec<SlotItemGroup>,
    g: int,
)
    requires
        call_ensures(group_items, (items,), groups),
        0 <= g < groups@.len(),
    ensures
        groups@[g].instances@.len() > 0,
        forall|j: int|
            0 <= j < groups@[g].instances@.len() ==> {
                let kept = #[trigger] groups@[g].instances@[j];
                &&& kept.index < items@.len()
                &&& items@[kept.index as int].item_id == groups@[g].id
                &&& keeps(kept, items@[kept.index as int], kept.index as int)
            },
        forall|i: int, j: int|
            0 <= i < j < groups@[g].instances@.len() ==> (
            #[trigger] groups@[g].instances@[i]).index < (#[trigger] groups@[g].instances@[j]).index,
        groups@[g].name@ == items@[groups@[g].instances@[0].index as int].item_name@,
{
    let all = received_view(items@);
    let views = groups_view(groups@);
    assert(is_group(views[g], all));
    lemma_instances(all, views[g].id);
    let kept = groups@[g].instances@;
    assert(views[g].instances.len() == kept.len());
    assert forall|j: int| 0 <= j < kept.len() implies {
        let one = #[trigger] kept[j];
        &&& one.index < items@.len()
        &&& items@[one.index as int].item_id == groups@[g].id
        &&& keeps(one, items@[one.index as int], one.index as int)
        &&& one@ == views[g].instances[j]
        &&& views[g].instances[j] == instances_of(all, views[g].id)[j]
    } by {
        assert(views[g].instances[j] == kept[j]@);
        assert(views[g].instances[j] == instances_of(all, views[g].id)[j]);
        assert(all[kept[j].index as int] == items@[kept[j].index as int]@);
    }
    assert forall|i: int, j: int| 0 <= i < j < kept.len() implies (#[trigger] kept[i]).index < (
    #[trigger] kept[j]).index by {
        assert(instances_of(all, views[g].id)[i].index < instances_of(all, views[g].id)[j].index);
    }
    assert(kept[0]@ == views[g].instances[0]);
    assert(all[kept[0].index as int] == items@[kept[0].index as int]@);
}

/// Every received item is kept in a group with its id.
pub proof fn law_item_kept_under_its_id(
    items: &Vec<ReceivedItem>,
    groups: Vec<SlotItemGroup>,
    k: int,
)
    requires
        call_ensures(group_items, (items,), groups),
        0 <= k < items@.len(),
    ensures
        exists|g: int, j: int|
            0 <= g < groups@.len() && 0 <= j < groups@[g].instances@.len() && groups@[g].id
                == items@[k].item_id && keeps(
                #[trigger] groups@[g].instances@[j],
                items@[k],
                k,
            ),
{
    let all = received_view(items@);
    let views = groups_view(groups@);
    law_item_in_one_group(views, all, k);
    assert(all[k] == items@[k]@);
    let g = choose|g: int|
        0 <= g < views.len() && (#[trigger] views[g]).id == all[k].item_id
            && views[g].instances.contains(instance_of(all[k], k));
    let j = choose|j: int|
        0 <= j < views[g].instances.len() && views[g].instances[j] == instance_of(all[k], k);
    assert(views[g].instances[j] == groups@[g].instances@[j]@);
    assert(keeps(groups@[g].instances@[j], items@[k], k));
}

/// Two received items are in one group exactly where their ids are equal.
pub proof fn law_same_group_means_same_id(
    items: &Vec<ReceivedItem>,
    groups: Vec<SlotItemGroup>,
    g: int,
    h: int,
    i: int,
    j: int,
)
    requires
        call_ensures(group_items, (items,), groups),
        0 <= g < groups@.len(),
        0 <= h < groups@.len(),
        0 <= i < groups@[g].instances@.len(),
        0 <= j < groups@[h].instances@.len(),
    ensures
        groups@[g].instances@[i].index < items@.len(),
        groups@[h].instances@[j].index < items@.len(),
        (g == h) == (items@[groups@[g].instances@[i].index as int].item_id
            == items@[groups@[h].instances@[j].index as int].item_id),
        g != h ==> groups@[g].id != groups@[h].id,
{
    law_group_holds_its_items(items, groups, g);
    law_group_holds_its_items(items, groups, h);
    law_group_ids_distinct(groups_view(groups@), received_view(items@));
    let views = groups_view(groups@);
    assert(views[g].id == groups@[g].id);
    assert(views[h].id == groups@[h].id);
    assert(groups@[g].instances@[i].index < items@.len());
    assert(groups@[h].instances@[j].index < items@.len());
}

/// What an entry of a group of a grouping says.
pub(crate) proof fn lemma_group_view(
    groups: Seq<SlotItemGroup>,
    items: Seq<ReceivedView>,
    g: int,
    j: int,
)
    requires
        is_grouping(groups_view(groups), items),
        0 <= g < groups.len(),
        0 <= j < groups[g].instances@.len(),
    ensures
        groups[g].instances@[j].index < items.len(),
        items[groups[g].instances@[j].index as int].item_id == groups[g].id,
        groups[g].instances@[j]@ == instance_of(
            items[groups[g].instances@[j].index as int],
            groups[g].instances@[j].index as int,
        ),
{
    let views = groups_view(groups);
    assert(is_group(views[g], items));
    lemma_instances(items, views[g].id);
    assert(views[g].instances[j] == groups[g].instances@[j]@);
    assert(views[g].instances[j] == instances_of(items, views[g].id)[j]);
}

/// The entries of a group of a grouping are in the order of receipt.
pub(crate) proof fn lemma_group_order(
    groups: Seq<SlotItemGroup>,
    items: Seq<ReceivedView>,
    g: int,
    i: int,
    j: int,
)
    requires
        is_grouping(groups_view(groups), items),
        0 <= g < groups.len(),
        0 <= i < j < groups[g].instances@.len(),
    ensures
        groups[g].instances@[i].index < groups[g].instances@[j].index,
{
    let views = groups_view(groups);
    assert(is_group(views[g], items));
    lemma_instances(items, views[g].id);
    assert(views[g].instances[i] == groups[g].instances@[i]@);
    assert(views[g].instances[j] == groups[g].instances@[j]@);
    assert(instances_of(items, views[g].id)[i].index < instances_of(items, views[g].id)[j].index);
}

} // verus!
